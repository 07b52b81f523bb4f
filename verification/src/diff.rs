//! Diffing a remote manifest against a local baseline: the sync plan is
//! every remote entry that is absent locally or present with a different
//! digest.

use vstd::prelude::*;

use crate::manifest::{models, EntryModel, ManifestEntry};
use crate::split::bytes_eq;

verus! {

/// Does `local` hold an entry at this path with this digest?
pub open spec fn has_match(local: Seq<EntryModel>, e: EntryModel) -> bool {
    exists|i: int|
        0 <= i < local.len() && (#[trigger] local[i]).path == e.path && local[i].digest == e.digest
}

/// The sync plan: every remote entry with no matching local entry, in
/// remote-manifest order. Size is informational; the digest alone decides
/// whether a file changed.
pub open spec fn plan_of(remote: Seq<EntryModel>, local: Seq<EntryModel>) -> Seq<EntryModel>
    decreases remote.len(),
{
    if remote.len() == 0 {
        Seq::empty()
    } else {
        let rest = plan_of(remote.skip(1), local);
        if has_match(local, remote[0]) {
            rest
        } else {
            seq![remote[0]] + rest
        }
    }
}

/// The local baseline an optional manifest stands for: an absent manifest
/// means nothing is present locally.
pub open spec fn baseline_of(local: Option<&Vec<ManifestEntry>>) -> Seq<EntryModel> {
    match local {
        None => Seq::empty(),
        Some(v) => models(v@),
    }
}

fn entry_matches(local: &Vec<ManifestEntry>, e: &ManifestEntry) -> (res: bool)
    ensures
        res == has_match(models(local@), e@),
{
    let ghost ms = models(local@);
    let mut i: usize = 0;
    while i < local.len()
        invariant
            ms == models(local@),
            i <= local@.len(),
            forall|j: int|
                0 <= j < i ==> !((#[trigger] ms[j]).path == e@.path && ms[j].digest == e@.digest),
        decreases local@.len() - i,
    {
        if bytes_eq(local[i].path.as_slice(), e.path.as_slice()) && bytes_eq(
            local[i].digest.as_slice(),
            e.digest.as_slice(),
        ) {
            proof {
                assert(ms[i as int].path == e@.path && ms[i as int].digest == e@.digest);
            }
            return true;
        }
        i = i + 1;
    }
    false
}

/// Compute the sync plan for a remote manifest against an optional local
/// one.
pub fn diff(remote: &Vec<ManifestEntry>, local: Option<&Vec<ManifestEntry>>) -> (res: Vec<
    ManifestEntry,
>)
    ensures
        models(res@) == plan_of(models(remote@), baseline_of(local)),
{
    let ghost rm = models(remote@);
    let ghost loc = baseline_of(local);
    let mut plan: Vec<ManifestEntry> = Vec::new();
    let mut i: usize = 0;
    proof {
        assert(rm.skip(0) =~= rm);
        assert(models(plan@) =~= Seq::<EntryModel>::empty());
        assert(Seq::<EntryModel>::empty() + plan_of(rm, loc) =~= plan_of(rm, loc));
    }
    while i < remote.len()
        invariant
            rm == models(remote@),
            loc == baseline_of(local),
            i <= remote@.len(),
            plan_of(rm, loc) == models(plan@) + plan_of(rm.skip(i as int), loc),
        decreases remote@.len() - i,
    {
        let ghost pre = models(plan@);
        let ghost rest = rm.skip(i as int);
        proof {
            assert(rest[0] == rm[i as int]);
            assert(rest.skip(1) =~= rm.skip(i as int + 1));
        }
        let matched = match local {
            None => false,
            Some(l) => entry_matches(l, &remote[i]),
        };
        if !matched {
            plan.push(remote[i].clone());
            proof {
                assert(models(plan@) =~= pre.push(rm[i as int]));
                assert(pre + (seq![rm[i as int]] + plan_of(rm.skip(i as int + 1), loc)) =~= models(
                    plan@,
                ) + plan_of(rm.skip(i as int + 1), loc));
            }
        }
        i = i + 1;
    }
    proof {
        assert(rm.skip(i as int) =~= Seq::<EntryModel>::empty());
        assert(models(plan@) + plan_of(rm.skip(i as int), loc) =~= models(plan@));
    }
    plan
}

/// Law (bootstrap): against an empty or absent local baseline, the plan is
/// the whole remote manifest.
pub proof fn lemma_empty_local_full_plan(remote: Seq<EntryModel>)
    ensures
        plan_of(remote, Seq::empty()) == remote,
    decreases remote.len(),
{
    if remote.len() == 0 {
        assert(plan_of(remote, Seq::empty()) =~= remote);
    } else {
        lemma_empty_local_full_plan(remote.skip(1));
        assert(plan_of(remote, Seq::empty()) =~= remote) by {
            assert(!has_match(Seq::empty(), remote[0]));
            assert(seq![remote[0]] + remote.skip(1) =~= remote);
        }
    }
}

/// Law (parity): when every remote entry has a matching local entry, the
/// plan is empty.
pub proof fn lemma_parity_empty_plan(remote: Seq<EntryModel>, local: Seq<EntryModel>)
    requires
        forall|i: int| 0 <= i < remote.len() ==> has_match(local, #[trigger] remote[i]),
    ensures
        plan_of(remote, local) == Seq::<EntryModel>::empty(),
    decreases remote.len(),
{
    if remote.len() == 0 {
        assert(plan_of(remote, local) =~= Seq::<EntryModel>::empty());
    } else {
        assert(forall|i: int|
            0 <= i < remote.skip(1).len() ==> has_match(local, #[trigger] remote.skip(1)[i]));
        lemma_parity_empty_plan(remote.skip(1), local);
        assert(has_match(local, remote[0]));
    }
}

/// Law (idempotence): re-running the build on an unchanged tree gives the
/// same entries, and diffing a manifest against itself plans nothing.
pub proof fn lemma_self_diff_empty(m: Seq<EntryModel>)
    ensures
        plan_of(m, m) == Seq::<EntryModel>::empty(),
{
    assert forall|i: int| 0 <= i < m.len() implies has_match(m, #[trigger] m[i]) by {
        assert(0 <= i < m.len() && m[i].path == m[i].path && m[i].digest == m[i].digest);
    }
    lemma_parity_empty_plan(m, m);
}

/// Law (fetch reaches parity): when the destination holds, at every remote
/// path, bytes equal to the source's and both sides digest those bytes with
/// the same chunking, re-digesting the destination and diffing against the
/// source manifest plans nothing — the digest is a function of the bytes
/// alone.
pub proof fn lemma_sync_reaches_parity(
    remote: Seq<EntryModel>,
    contents: Seq<Seq<u8>>,
    dest: Seq<EntryModel>,
    chunk_size: u64,
)
    requires
        contents.len() == remote.len(),
        dest.len() == remote.len(),
        forall|i: int|
            0 <= i < remote.len() ==> (#[trigger] remote[i]).digest == crate::digest::file_digest_of(
                contents[i],
                chunk_size,
            ),
        forall|i: int| 0 <= i < remote.len() ==> (#[trigger] dest[i]).path == remote[i].path,
        forall|i: int|
            0 <= i < remote.len() ==> (#[trigger] dest[i]).digest == crate::digest::file_digest_of(
                contents[i],
                chunk_size,
            ),
    ensures
        plan_of(remote, dest) == Seq::<EntryModel>::empty(),
{
    assert forall|i: int| 0 <= i < remote.len() implies has_match(dest, #[trigger] remote[i]) by {
        assert(0 <= i < dest.len() && dest[i].path == remote[i].path && dest[i].digest
            == remote[i].digest);
    }
    lemma_parity_empty_plan(remote, dest);
}

} // verus!
