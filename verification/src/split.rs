//! Splitting byte strings on a separator byte, the way the manifest format
//! splits lines on newlines and fields on commas.

use vstd::prelude::*;

verus! {

/// The pieces of `s` between occurrences of `sep`: always one more piece
/// than there are separators, so the result is never empty.
pub open spec fn spec_split(s: Seq<u8>, sep: u8) -> Seq<Seq<u8>>
    decreases s.len(),
{
    if s.len() == 0 {
        seq![Seq::<u8>::empty()]
    } else if s[0] == sep {
        seq![Seq::<u8>::empty()] + spec_split(s.skip(1), sep)
    } else {
        let rest = spec_split(s.skip(1), sep);
        seq![seq![s[0]] + rest[0]] + rest.skip(1)
    }
}

/// `p` prepended onto the first piece.
pub open spec fn prepend_first(p: Seq<u8>, pieces: Seq<Seq<u8>>) -> Seq<Seq<u8>>
    recommends
        pieces.len() >= 1,
{
    seq![p + pieces[0]] + pieces.skip(1)
}

pub proof fn lemma_split_nonempty(s: Seq<u8>, sep: u8)
    ensures
        spec_split(s, sep).len() >= 1,
    decreases s.len(),
{
    if s.len() == 0 {
    } else {
        lemma_split_nonempty(s.skip(1), sep);
    }
}

/// A byte string without the separator is a single piece.
pub proof fn lemma_split_no_sep(s: Seq<u8>, sep: u8)
    requires
        !s.contains(sep),
    ensures
        spec_split(s, sep) == seq![s],
    decreases s.len(),
{
    if s.len() == 0 {
        assert(spec_split(s, sep) =~~= seq![s]);
    } else {
        assert(s[0] != sep);
        assert(!s.skip(1).contains(sep)) by {
            if s.skip(1).contains(sep) {
                let i = choose|i: int| 0 <= i < s.skip(1).len() && s.skip(1)[i] == sep;
                assert(s[i + 1] == sep);
            }
        }
        lemma_split_no_sep(s.skip(1), sep);
        assert(spec_split(s, sep) =~~= seq![s]) by {
            assert(seq![s[0]] + s.skip(1) =~= s);
            assert(spec_split(s.skip(1), sep).skip(1) =~= Seq::<Seq<u8>>::empty());
        }
    }
}

/// Splitting at the first separator: everything before it is the first
/// piece, and the rest splits on its own.
pub proof fn lemma_split_at_sep(a: Seq<u8>, b: Seq<u8>, sep: u8)
    requires
        !a.contains(sep),
    ensures
        spec_split(a + seq![sep] + b, sep) == seq![a] + spec_split(b, sep),
    decreases a.len(),
{
    lemma_split_nonempty(b, sep);
    if a.len() == 0 {
        let s = a + seq![sep] + b;
        assert(s =~= seq![sep] + b);
        assert(s.skip(1) =~= b);
        assert(spec_split(s, sep) =~~= seq![a] + spec_split(b, sep));
    } else {
        let s = a + seq![sep] + b;
        assert(s[0] == a[0] && a[0] != sep);
        assert(!a.skip(1).contains(sep)) by {
            if a.skip(1).contains(sep) {
                let i = choose|i: int| 0 <= i < a.skip(1).len() && a.skip(1)[i] == sep;
                assert(a[i + 1] == sep);
            }
        }
        lemma_split_at_sep(a.skip(1), b, sep);
        let rest = spec_split(s.skip(1), sep);
        assert(s.skip(1) =~= a.skip(1) + seq![sep] + b);
        assert(rest == seq![a.skip(1)] + spec_split(b, sep));
        assert(spec_split(s, sep) =~~= seq![a] + spec_split(b, sep)) by {
            assert(rest[0] == a.skip(1));
            assert(seq![s[0]] + a.skip(1) =~= a);
            assert(rest.skip(1) =~= spec_split(b, sep));
        }
    }
}

/// Byte-string equality.
pub fn bytes_eq(a: &[u8], b: &[u8]) -> (res: bool)
    ensures
        res == (a@ == b@),
{
    if a.len() != b.len() {
        return false;
    }
    let mut i: usize = 0;
    while i < a.len()
        invariant
            a@.len() == b@.len(),
            i <= a@.len(),
            forall|j: int| 0 <= j < i ==> a@[j] == #[trigger] b@[j],
        decreases a@.len() - i,
    {
        if a[i] != b[i] {
            return false;
        }
        i = i + 1;
    }
    proof {
        assert(a@ =~= b@);
    }
    true
}

/// Split a byte string on a separator byte.
pub fn split_bytes(s: &[u8], sep: u8) -> (res: Vec<Vec<u8>>)
    ensures
        res.deep_view() == spec_split(s@, sep),
        res@.len() >= 1,
{
    let mut done: Vec<Vec<u8>> = Vec::new();
    let mut cur: Vec<u8> = Vec::new();
    let mut i: usize = 0;
    proof {
        lemma_split_nonempty(s@, sep);
        assert(s@.skip(0) =~= s@);
        assert(done.deep_view() =~~= Seq::<Seq<u8>>::empty());
        assert(Seq::<Seq<u8>>::empty() + prepend_first(cur@, spec_split(s@, sep)) =~~= prepend_first(
            cur@,
            spec_split(s@, sep),
        ));
        assert(prepend_first(Seq::<u8>::empty(), spec_split(s@, sep)) =~~= spec_split(s@, sep)) by {
            assert(Seq::<u8>::empty() + spec_split(s@, sep)[0] =~= spec_split(s@, sep)[0]);
            assert(seq![spec_split(s@, sep)[0]] + spec_split(s@, sep).skip(1) =~= spec_split(
                s@,
                sep,
            ));
        }
    }
    while i < s.len()
        invariant
            i <= s@.len(),
            spec_split(s@, sep) == done.deep_view() + prepend_first(
                cur@,
                spec_split(s@.skip(i as int), sep),
            ),
        decreases s@.len() - i,
    {
        let ghost pre_done = done.deep_view();
        let ghost pre_cur = cur@;
        let ghost rest = spec_split(s@.skip(i as int), sep);
        let ghost rest2 = spec_split(s@.skip(i as int + 1), sep);
        proof {
            lemma_split_nonempty(s@.skip(i as int), sep);
            lemma_split_nonempty(s@.skip(i as int + 1), sep);
            assert(s@.skip(i as int).len() > 0);
            assert(s@.skip(i as int)[0] == s@[i as int]);
            assert(s@.skip(i as int).skip(1) =~= s@.skip(i as int + 1));
        }
        let c = s[i];
        if c == sep {
            proof {
                assert(rest =~~= seq![Seq::<u8>::empty()] + rest2);
                assert(prepend_first(pre_cur, rest) =~~= seq![pre_cur] + rest2) by {
                    assert(pre_cur + rest[0] =~= pre_cur);
                    assert(rest.skip(1) =~= rest2);
                }
            }
            done.push(cur);
            cur = Vec::new();
            proof {
                assert(done.deep_view() =~~= pre_done.push(pre_cur));
                assert(prepend_first(cur@, rest2) =~~= rest2) by {
                    assert(Seq::<u8>::empty() + rest2[0] =~= rest2[0]);
                    assert(seq![rest2[0]] + rest2.skip(1) =~= rest2);
                }
                assert(pre_done + prepend_first(pre_cur, rest) =~~= done.deep_view()
                    + prepend_first(cur@, rest2));
            }
        } else {
            proof {
                assert(rest =~~= prepend_first(seq![s@[i as int]], rest2));
            }
            cur.push(c);
            proof {
                assert(cur@ =~= pre_cur.push(c));
                assert(prepend_first(pre_cur, prepend_first(seq![c], rest2)) =~~= prepend_first(
                    cur@,
                    rest2,
                )) by {
                    let q = prepend_first(seq![c], rest2);
                    assert(q.skip(1) =~= rest2.skip(1));
                    assert(pre_cur + q[0] =~= cur@ + rest2[0]);
                }
            }
        }
        i = i + 1;
    }
    proof {
        assert(s@.skip(i as int) =~= Seq::<u8>::empty());
        assert(prepend_first(cur@, spec_split(Seq::<u8>::empty(), sep)) =~~= seq![cur@]) by {
            assert(cur@ + Seq::<u8>::empty() =~= cur@);
            assert(seq![Seq::<u8>::empty()].skip(1) =~= Seq::<Seq<u8>>::empty());
            assert(seq![cur@ + Seq::<u8>::empty()] + Seq::<Seq<u8>>::empty() =~~= seq![cur@]);
        }
    }
    let ghost pre_done = done.deep_view();
    done.push(cur);
    proof {
        assert(done.deep_view() =~~= pre_done.push(cur@));
        assert(spec_split(s@, sep) =~~= done.deep_view());
    }
    done
}

} // verus!
