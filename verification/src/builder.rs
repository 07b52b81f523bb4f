//! The manifest builder's collection step: digest results for every file
//! found by a walk become one manifest, all-or-nothing, with optional
//! duplicate-content reporting.

use vstd::prelude::*;

use crate::diff::{lemma_self_diff_empty, plan_of};
use crate::manifest::{
    entry_wf, lemma_manifest_round_trip, models, parse_manifest_spec, serialize_entries, text_of,
    EntryModel, ManifestEntry,
};
use crate::split::bytes_eq;

verus! {

/// What the walk-and-digest pass reports for one file.
pub enum FileScan {
    /// The file was digested: its entry is ready.
    Digested(ManifestEntry),
    /// The file could not be read; the build must fail, naming this path.
    Unreadable(Vec<u8>),
}

/// Why a build was rejected as a whole.
#[derive(Debug)]
pub enum BuildError {
    /// Some file could not be digested.
    Unreadable { path: Vec<u8> },
    /// A path the line format cannot carry: empty, or holding a comma or
    /// newline (a documented limitation of the format).
    UnsupportedPath { path: Vec<u8> },
    /// Two files share one path, which the manifest forbids.
    DuplicatePath { path: Vec<u8> },
}

pub open spec fn all_digested(scans: Seq<FileScan>) -> bool {
    forall|i: int| 0 <= i < scans.len() ==> (#[trigger] scans[i]) is Digested
}

/// The entries of an all-digested scan sequence, in scan order.
pub open spec fn entries_of(scans: Seq<FileScan>) -> Seq<EntryModel> {
    scans.map_values(
        |s: FileScan|
            match s {
                FileScan::Digested(e) => e@,
                FileScan::Unreadable(p) => EntryModel {
                    digest: Seq::empty(),
                    size: 0,
                    path: p@,
                },
            },
    )
}

/// A path the manifest format can carry.
pub open spec fn path_ok(p: Seq<u8>) -> bool {
    p.len() >= 1 && !p.contains(44u8) && !p.contains(10u8)
}

/// An entry the builder accepts.
pub open spec fn entry_ok(e: EntryModel) -> bool {
    path_ok(e.path) && entry_wf(e)
}

pub open spec fn paths_unique(es: Seq<EntryModel>) -> bool {
    forall|i: int, j: int|
        0 <= i < j < es.len() ==> (#[trigger] es[i]).path != (#[trigger] es[j]).path
}

/// A built manifest: one entry per scanned file, paths unique, every entry
/// carryable by the line format.
pub struct Manifest {
    entries: Vec<ManifestEntry>,
}

impl Manifest {
    pub closed spec fn entries_model(self) -> Seq<EntryModel> {
        models(self.entries@)
    }

    pub open spec fn wf(self) -> bool {
        &&& paths_unique(self.entries_model())
        &&& forall|i: int|
            0 <= i < self.entries_model().len() ==> entry_ok(#[trigger] self.entries_model()[i])
    }

    pub fn entries(&self) -> (res: &Vec<ManifestEntry>)
        ensures
            models(res@) == self.entries_model(),
    {
        &self.entries
    }

    pub fn into_entries(self) -> (res: Vec<ManifestEntry>)
        ensures
            models(res@) == self.entries_model(),
    {
        self.entries
    }

    /// The manifest file's bytes.
    pub fn serialize(&self) -> (res: Vec<u8>)
        ensures
            res@ == text_of(self.entries_model()),
    {
        serialize_entries(&self.entries)
    }
}

fn contains_byte(s: &[u8], b: u8) -> (res: bool)
    ensures
        res == s@.contains(b),
{
    let mut i: usize = 0;
    while i < s.len()
        invariant
            i <= s@.len(),
            forall|j: int| 0 <= j < i ==> s@[j] != b,
        decreases s@.len() - i,
    {
        if s[i] == b {
            return true;
        }
        i = i + 1;
    }
    false
}

fn entry_ok_exec(e: &ManifestEntry) -> (res: bool)
    ensures
        res == entry_ok(e@),
{
    if e.path.len() == 0 {
        return false;
    }
    if contains_byte(e.path.as_slice(), 44) || contains_byte(e.path.as_slice(), 10) {
        return false;
    }
    if contains_byte(e.digest.as_slice(), 44) || contains_byte(e.digest.as_slice(), 10) {
        return false;
    }
    true
}

/// Collect a walk's digest results into one manifest. All-or-nothing: any
/// unreadable file, uncarryable path, or repeated path rejects the whole
/// build, so that no silently incomplete manifest is ever produced.
pub fn collect_manifest(scans: Vec<FileScan>) -> (res: Result<Manifest, BuildError>)
    ensures
        res is Ok <==> {
            &&& all_digested(scans@)
            &&& forall|i: int|
                0 <= i < scans@.len() ==> entry_ok(#[trigger] entries_of(scans@)[i])
            &&& paths_unique(entries_of(scans@))
        },
        match res {
            Ok(m) => {
                &&& m.wf()
                &&& m.entries_model() == entries_of(scans@)
            },
            Err(e) => match e {
                BuildError::Unreadable { path } => exists|i: int|
                    0 <= i < scans@.len() && ((#[trigger] scans@[i]) matches FileScan::Unreadable(p)
                        && p@ == path@),
                BuildError::UnsupportedPath { path } => exists|i: int|
                    0 <= i < scans@.len() && !entry_ok(#[trigger] entries_of(scans@)[i])
                        && entries_of(scans@)[i].path == path@,
                BuildError::DuplicatePath { path } => exists|i: int, j: int|
                    0 <= i < j < scans@.len() && (#[trigger] entries_of(scans@)[i]).path == (
                    #[trigger] entries_of(scans@)[j]).path && entries_of(scans@)[j].path == path@,
            },
        },
{
    let ghost es = entries_of(scans@);
    let mut i: usize = 0;
    while i < scans.len()
        invariant
            i <= scans@.len(),
            forall|j: int| 0 <= j < i ==> (#[trigger] scans@[j]) is Digested,
        decreases scans@.len() - i,
    {
        match &scans[i] {
            FileScan::Unreadable(p) => {
                let path = p.clone();
                return Err(BuildError::Unreadable { path });
            },
            FileScan::Digested(_) => {},
        }
        i = i + 1;
    }
    let mut entries: Vec<ManifestEntry> = Vec::new();
    let mut i: usize = 0;
    proof {
        assert(models(entries@) =~= es.take(0));
    }
    while i < scans.len()
        invariant
            i <= scans@.len(),
            es == entries_of(scans@),
            all_digested(scans@),
            models(entries@) == es.take(i as int),
            entries@.len() == i,
            forall|j: int| 0 <= j < i ==> entry_ok(#[trigger] es[j]),
        decreases scans@.len() - i,
    {
        match &scans[i] {
            FileScan::Unreadable(_) => {
                proof {
                    assert(scans@[i as int] is Digested);
                }
                // unreachable: the first pass saw every scan readable
                return Err(BuildError::Unreadable { path: Vec::new() });
            },
            FileScan::Digested(e) => {
                if !entry_ok_exec(e) {
                    proof {
                        assert(es[i as int] == e@);
                    }
                    return Err(BuildError::UnsupportedPath { path: e.path.clone() });
                }
                let ghost pre = models(entries@);
                entries.push(e.clone());
                proof {
                    assert(es[i as int] == e@);
                    assert(models(entries@) =~= pre.push(e@));
                    assert(models(entries@) =~= es.take(i as int + 1));
                }
            },
        }
        i = i + 1;
    }
    proof {
        assert(es.take(scans@.len() as int) =~= es);
    }
    // paths must be unique within one manifest
    let mut i: usize = 0;
    while i < entries.len()
        invariant
            es == entries_of(scans@),
            models(entries@) == es,
            i <= entries@.len(),
            forall|a: int, b: int| 0 <= a < b < i ==> (#[trigger] es[a]).path != (#[trigger] es[b]).path,
        decreases entries@.len() - i,
    {
        let mut j: usize = 0;
        while j < i
            invariant
                es == entries_of(scans@),
                models(entries@) == es,
                j <= i < entries@.len(),
                forall|b: int| 0 <= b < j ==> (#[trigger] es[b]).path != es[i as int].path,
            decreases i - j,
        {
            if bytes_eq(entries[j].path.as_slice(), entries[i].path.as_slice()) {
                let path = entries[i].path.clone();
                proof {
                    assert(es[j as int].path == es[i as int].path);
                    assert(es.len() == scans@.len());
                    assert(exists|a: int, b: int|
                        0 <= a < b < scans@.len() && (#[trigger] entries_of(scans@)[a]).path == (
                        #[trigger] entries_of(scans@)[b]).path && entries_of(scans@)[b].path
                            == path@) by {
                        assert(0 <= (j as int) < (i as int) < scans@.len() && es[j as int].path
                            == es[i as int].path && es[i as int].path == path@);
                    }
                }
                return Err(BuildError::DuplicatePath { path });
            }
            j = j + 1;
        }
        i = i + 1;
    }
    Ok(Manifest { entries })
}

/// Law (idempotence, end to end): the manifest file a build writes parses
/// back to exactly the build's entries, and diffing those entries against
/// the build's own yields an empty sync plan — an unchanged tree re-syncs
/// nothing.
pub proof fn lemma_written_manifest_round_trips(m: Manifest)
    requires
        m.wf(),
    ensures
        parse_manifest_spec(text_of(m.entries_model())) == Some(m.entries_model()),
        plan_of(m.entries_model(), m.entries_model()) == Seq::<EntryModel>::empty(),
{
    assert forall|i: int| 0 <= i < m.entries_model().len() implies entry_wf(
        #[trigger] m.entries_model()[i],
    ) by {
        assert(entry_ok(m.entries_model()[i]));
    }
    lemma_manifest_round_trip(m.entries_model());
    lemma_self_diff_empty(m.entries_model());
}

/// One digest shared by several paths, surfaced for operator visibility
/// only; it never changes the manifest itself.
pub struct DuplicateGroup {
    pub digest: Vec<u8>,
    pub paths: Vec<Vec<u8>>,
}

/// The paths of all entries carrying digest `d`, in manifest order.
pub open spec fn paths_with(es: Seq<EntryModel>, d: Seq<u8>) -> Seq<Seq<u8>>
    decreases es.len(),
{
    if es.len() == 0 {
        Seq::empty()
    } else {
        let rest = paths_with(es.skip(1), d);
        if es[0].digest == d {
            seq![es[0].path] + rest
        } else {
            rest
        }
    }
}

/// A reported group is faithful: its digest's full path list, with at
/// least two members.
pub open spec fn group_ok(es: Seq<EntryModel>, g: DuplicateGroup) -> bool {
    &&& g.paths.deep_view() == paths_with(es, g.digest@)
    &&& g.paths@.len() >= 2
}

/// No entry before `j` already carries `j`'s digest.
pub open spec fn first_occurrence(es: Seq<EntryModel>, j: int) -> bool {
    forall|k: int| 0 <= k < j ==> (#[trigger] es[k]).digest != es[j].digest
}

proof fn lemma_first_occurrence(es: Seq<EntryModel>, w: int)
    requires
        0 <= w < es.len(),
    ensures
        exists|j: int|
            0 <= j < es.len() && (#[trigger] es[j]).digest == es[w].digest && first_occurrence(
                es,
                j,
            ),
    decreases w,
{
    if first_occurrence(es, w) {
        assert(0 <= w < es.len() && es[w].digest == es[w].digest && first_occurrence(es, w));
    } else {
        let k = choose|k: int| 0 <= k < w && (#[trigger] es[k]).digest == es[w].digest;
        lemma_first_occurrence(es, k);
    }
}

proof fn lemma_paths_with_witness(es: Seq<EntryModel>, d: Seq<u8>)
    requires
        paths_with(es, d).len() >= 1,
    ensures
        exists|j: int| 0 <= j < es.len() && (#[trigger] es[j]).digest == d,
    decreases es.len(),
{
    if es.len() > 0 {
        if es[0].digest == d {
            assert(0 <= 0 < es.len() && es[0].digest == d);
        } else {
            lemma_paths_with_witness(es.skip(1), d);
            let j = choose|j: int| 0 <= j < es.skip(1).len() && (#[trigger] es.skip(1)[j]).digest == d;
            assert(es[j + 1].digest == d);
        }
    }
}

fn paths_with_exec(entries: &Vec<ManifestEntry>, d: &[u8]) -> (res: Vec<Vec<u8>>)
    ensures
        res.deep_view() == paths_with(models(entries@), d@),
{
    let ghost ms = models(entries@);
    let mut res: Vec<Vec<u8>> = Vec::new();
    let mut i: usize = 0;
    proof {
        assert(ms.skip(0) =~= ms);
        assert(res.deep_view() =~~= Seq::<Seq<u8>>::empty());
        assert(Seq::<Seq<u8>>::empty() + paths_with(ms, d@) =~~= paths_with(ms, d@));
    }
    while i < entries.len()
        invariant
            ms == models(entries@),
            i <= entries@.len(),
            paths_with(ms, d@) == res.deep_view() + paths_with(ms.skip(i as int), d@),
        decreases entries@.len() - i,
    {
        let ghost pre = res.deep_view();
        let ghost rest = ms.skip(i as int);
        proof {
            assert(rest[0] == ms[i as int]);
            assert(rest.skip(1) =~= ms.skip(i as int + 1));
        }
        if bytes_eq(entries[i].digest.as_slice(), d) {
            res.push(vstd::slice::slice_to_vec(entries[i].path.as_slice()));
            proof {
                assert(res.deep_view() =~~= pre.push(ms[i as int].path));
                assert(pre + (seq![ms[i as int].path] + paths_with(ms.skip(i as int + 1), d@))
                    =~~= res.deep_view() + paths_with(ms.skip(i as int + 1), d@));
            }
        }
        i = i + 1;
    }
    proof {
        assert(ms.skip(i as int) =~= Seq::<EntryModel>::empty());
        assert(res.deep_view() + paths_with(ms.skip(i as int), d@) =~~= res.deep_view());
    }
    res
}

/// Report every digest that more than one path carries, each with its full
/// path list in manifest order, one group per digest.
pub fn duplicate_groups(entries: &Vec<ManifestEntry>) -> (res: Vec<DuplicateGroup>)
    ensures
        forall|k: int| 0 <= k < res@.len() ==> group_ok(models(entries@), #[trigger] res@[k]),
        forall|k1: int, k2: int|
            0 <= k1 < k2 < res@.len() ==> (#[trigger] res@[k1]).digest@ != (
            #[trigger] res@[k2]).digest@,
        forall|d: Seq<u8>|
            #[trigger] paths_with(models(entries@), d).len() >= 2 ==> exists|k: int|
                0 <= k < res@.len() && (#[trigger] res@[k]).digest@ == d,
{
    let ghost ms = models(entries@);
    let mut res: Vec<DuplicateGroup> = Vec::new();
    let mut i: usize = 0;
    while i < entries.len()
        invariant
            ms == models(entries@),
            i <= entries@.len(),
            forall|k: int| 0 <= k < res@.len() ==> group_ok(ms, #[trigger] res@[k]),
            forall|k: int|
                0 <= k < res@.len() ==> exists|j: int|
                    0 <= j < i && (#[trigger] ms[j]).digest == (#[trigger] res@[k]).digest@,
            forall|k1: int, k2: int|
                0 <= k1 < k2 < res@.len() ==> (#[trigger] res@[k1]).digest@ != (
                #[trigger] res@[k2]).digest@,
            forall|j: int|
                0 <= j < i && first_occurrence(ms, j) && paths_with(ms, (#[trigger] ms[j]).digest).len()
                    >= 2 ==> exists|k: int|
                    0 <= k < res@.len() && (#[trigger] res@[k]).digest@ == ms[j].digest,
        decreases entries@.len() - i,
    {
        let mut seen = false;
        let mut j: usize = 0;
        while j < i
            invariant
                ms == models(entries@),
                j <= i < entries@.len(),
                !seen ==> forall|k: int| 0 <= k < j ==> (#[trigger] ms[k]).digest != ms[i as int].digest,
                seen ==> exists|k: int| 0 <= k < i && (#[trigger] ms[k]).digest == ms[i as int].digest,
            decreases i - j,
        {
            if bytes_eq(entries[j].digest.as_slice(), entries[i].digest.as_slice()) {
                proof {
                    assert(ms[j as int].digest == ms[i as int].digest);
                }
                seen = true;
            }
            j = j + 1;
        }
        if !seen {
            let ps = paths_with_exec(entries, entries[i].digest.as_slice());
            if ps.len() >= 2 {
                let ghost pre = res@;
                res.push(DuplicateGroup { digest: entries[i].digest.clone(), paths: ps });
                proof {
                    assert(res@[res@.len() - 1].digest@ == ms[i as int].digest);
                    assert(forall|k: int| 0 <= k < pre.len() ==> res@[k] == #[trigger] pre[k]);
                    assert forall|k1: int, k2: int|
                        0 <= k1 < k2 < res@.len() implies (#[trigger] res@[k1]).digest@ != (
                    #[trigger] res@[k2]).digest@ by {
                        if k2 == res@.len() - 1 {
                            let j0 = choose|j0: int|
                                0 <= j0 < i && (#[trigger] ms[j0]).digest == res@[k1].digest@;
                            assert(ms[j0].digest != ms[i as int].digest);
                        }
                    }
                }
            }
        }
        i = i + 1;
    }
    proof {
        assert forall|d: Seq<u8>|
            #[trigger] paths_with(ms, d).len() >= 2 implies exists|k: int|
            0 <= k < res@.len() && (#[trigger] res@[k]).digest@ == d by {
            lemma_paths_with_witness(ms, d);
            let w = choose|w: int| 0 <= w < ms.len() && (#[trigger] ms[w]).digest == d;
            lemma_first_occurrence(ms, w);
            let j = choose|j: int|
                0 <= j < ms.len() && (#[trigger] ms[j]).digest == ms[w].digest && first_occurrence(
                    ms,
                    j,
                );
            assert(paths_with(ms, ms[j].digest).len() >= 2);
        }
    }
    res
}

} // verus!
