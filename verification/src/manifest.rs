//! The manifest format: one line per file, `digest,size,path`, with strict
//! all-or-nothing parsing and a proved serialize/parse round trip.

use vstd::prelude::*;

use crate::dec::{
    dec_of, dec_value, is_dec_u64, is_digits, lemma_dec_of_value, parse_dec_u64, u64_to_dec,
};
use crate::split::{lemma_split_at_sep, lemma_split_no_sep, spec_split, split_bytes};

verus! {

/// One row of a manifest, at the specification level.
pub struct EntryModel {
    pub digest: Seq<u8>,
    pub size: u64,
    pub path: Seq<u8>,
}

/// One row of a manifest: a content digest, the file's byte count, and its
/// root-relative, forward-slash path.
#[derive(Debug)]
pub struct ManifestEntry {
    pub digest: Vec<u8>,
    pub size: u64,
    pub path: Vec<u8>,
}

impl View for ManifestEntry {
    type V = EntryModel;

    open spec fn view(&self) -> EntryModel {
        EntryModel { digest: self.digest@, size: self.size, path: self.path@ }
    }
}

impl Clone for ManifestEntry {
    fn clone(&self) -> (res: ManifestEntry)
        ensures
            res@ == self@,
    {
        ManifestEntry {
            digest: self.digest.clone(),
            size: self.size,
            path: self.path.clone(),
        }
    }
}

/// The models of a sequence of entries.
pub open spec fn models(entries: Seq<ManifestEntry>) -> Seq<EntryModel> {
    entries.map_values(|e: ManifestEntry| e@)
}

/// An entry the line format can carry: the unescaped separators may occur
/// in neither the digest nor the path.
pub open spec fn entry_wf(e: EntryModel) -> bool {
    &&& !e.digest.contains(44u8)
    &&& !e.digest.contains(10u8)
    &&& !e.path.contains(44u8)
    &&& !e.path.contains(10u8)
}

/// The serialized line of one entry (without its newline).
pub open spec fn line_of(e: EntryModel) -> Seq<u8> {
    e.digest + seq![44u8] + dec_of(e.size as int) + seq![44u8] + e.path
}

/// The serialized manifest text: each entry's line, newline-terminated.
pub open spec fn text_of(entries: Seq<EntryModel>) -> Seq<u8>
    decreases entries.len(),
{
    if entries.len() == 0 {
        Seq::empty()
    } else {
        line_of(entries[0]) + seq![10u8] + text_of(entries.skip(1))
    }
}

/// The lines of a manifest text: newline-separated, where a terminating
/// newline does not open a further (empty) line.
pub open spec fn spec_lines(text: Seq<u8>) -> Seq<Seq<u8>> {
    let pieces = spec_split(text, 10);
    if pieces[pieces.len() - 1] == Seq::<u8>::empty() {
        pieces.drop_last()
    } else {
        pieces
    }
}

/// Strict parse of one line: exactly three comma-separated fields, the
/// middle one a well-formed size.
pub open spec fn parse_line_spec(line: Seq<u8>) -> Option<EntryModel> {
    let fields = spec_split(line, 44);
    if fields.len() == 3 && is_dec_u64(fields[1]) {
        Some(
            EntryModel {
                digest: fields[0],
                size: dec_value(fields[1]) as u64,
                path: fields[2],
            },
        )
    } else {
        None
    }
}

/// Strict parse of a sequence of lines: every line must parse, else the
/// whole manifest is rejected.
pub open spec fn parse_entries_spec(lines: Seq<Seq<u8>>) -> Option<Seq<EntryModel>> {
    if forall|j: int| 0 <= j < lines.len() ==> (#[trigger] parse_line_spec(lines[j])) is Some {
        Some(Seq::new(lines.len(), |j: int| parse_line_spec(lines[j]).unwrap()))
    } else {
        None
    }
}

/// Strict parse of a whole manifest text.
pub open spec fn parse_manifest_spec(text: Seq<u8>) -> Option<Seq<EntryModel>> {
    parse_entries_spec(spec_lines(text))
}

/// Why a manifest text was rejected: the first line that is not a
/// well-formed `digest,size,path` row.
#[derive(Debug, PartialEq, Eq, Structural)]
pub struct ParseError {
    pub line: usize,
}

/// Serialize one entry as its manifest line.
pub fn entry_line(e: &ManifestEntry) -> (res: Vec<u8>)
    ensures
        res@ == line_of(e@),
{
    let mut out = vstd::slice::slice_to_vec(e.digest.as_slice());
    out.push(44);
    let mut num = u64_to_dec(e.size);
    out.append(&mut num);
    out.push(44);
    let mut p = vstd::slice::slice_to_vec(e.path.as_slice());
    out.append(&mut p);
    proof {
        assert(out@ =~= line_of(e@));
    }
    out
}

/// Serialize a sequence of entries as a manifest text.
pub fn serialize_entries(entries: &Vec<ManifestEntry>) -> (res: Vec<u8>)
    ensures
        res@ == text_of(models(entries@)),
{
    let ghost all = models(entries@);
    let mut out: Vec<u8> = Vec::new();
    let mut i: usize = 0;
    proof {
        assert(all.skip(0) =~= all);
        assert(Seq::<u8>::empty() + text_of(all) =~= text_of(all));
    }
    while i < entries.len()
        invariant
            i <= entries@.len(),
            all == models(entries@),
            text_of(all) == out@ + text_of(all.skip(i as int)),
        decreases entries@.len() - i,
    {
        let ghost pre_out = out@;
        let mut line = entry_line(&entries[i]);
        out.append(&mut line);
        out.push(10);
        proof {
            let rest = all.skip(i as int);
            assert(rest[0] == entries@[i as int]@);
            assert(rest.skip(1) =~= all.skip(i as int + 1));
            assert(text_of(rest) == line_of(rest[0]) + seq![10u8] + text_of(all.skip(i as int + 1)));
            assert(out@ =~= pre_out + (line_of(rest[0]) + seq![10u8]));
            assert(pre_out + (line_of(rest[0]) + seq![10u8] + text_of(all.skip(i as int + 1)))
                =~= out@ + text_of(all.skip(i as int + 1)));
        }
        i = i + 1;
    }
    proof {
        assert(all.skip(i as int) =~= Seq::<EntryModel>::empty());
        assert(out@ + text_of(all.skip(i as int)) =~= out@);
    }
    out
}

/// Strict parse of one line.
pub fn parse_line(line: &[u8]) -> (res: Option<ManifestEntry>)
    ensures
        match res {
            Some(e) => parse_line_spec(line@) == Some(e@),
            None => parse_line_spec(line@) is None,
        },
{
    let mut fields = split_bytes(line, 44);
    let ghost fs = spec_split(line@, 44);
    if fields.len() != 3 {
        proof {
            assert(fs.len() == fields.deep_view().len());
        }
        return None;
    }
    let path = fields.pop().unwrap();
    let size_field = fields.pop().unwrap();
    let digest = fields.pop().unwrap();
    proof {
        assert(digest@ == fs[0]);
        assert(size_field@ == fs[1]);
        assert(path@ == fs[2]);
    }
    match parse_dec_u64(size_field.as_slice()) {
        None => None,
        Some(size) => {
            let e = ManifestEntry { digest, size, path };
            proof {
                assert(parse_line_spec(line@) == Some(e@));
            }
            Some(e)
        },
    }
}

/// Strict parse of a whole manifest text: all entries, in line order, or
/// the first offending line.
pub fn parse_manifest(text: &[u8]) -> (res: Result<Vec<ManifestEntry>, ParseError>)
    ensures
        match res {
            Ok(entries) => parse_manifest_spec(text@) == Some(models(entries@)),
            Err(err) => {
                &&& parse_manifest_spec(text@) is None
                &&& err.line < spec_lines(text@).len()
                &&& parse_line_spec(spec_lines(text@)[err.line as int]) is None
                &&& forall|j: int|
                    0 <= j < err.line ==> (#[trigger] parse_line_spec(
                        spec_lines(text@)[j],
                    )) is Some
            },
        },
{
    let mut lines = split_bytes(text, 10);
    let ghost pieces = spec_split(text@, 10);
    let n = lines.len();
    if lines[n - 1].len() == 0 {
        proof {
            assert(lines.deep_view()[n - 1] =~= Seq::<u8>::empty());
        }
        lines.pop();
        proof {
            assert(lines.deep_view() =~~= pieces.drop_last());
            assert(lines.deep_view() =~~= spec_lines(text@));
        }
    } else {
        proof {
            assert(lines.deep_view()[n - 1] != Seq::<u8>::empty()) by {
                assert(lines.deep_view()[n - 1].len() > 0);
            }
            assert(lines.deep_view() =~~= spec_lines(text@));
        }
    }
    let ghost ls = spec_lines(text@);
    let mut entries: Vec<ManifestEntry> = Vec::new();
    let mut i: usize = 0;
    while i < lines.len()
        invariant
            i <= lines@.len(),
            ls == lines.deep_view(),
            ls == spec_lines(text@),
            ls.len() == lines@.len(),
            entries@.len() == i,
            forall|j: int| 0 <= j < i ==> (#[trigger] parse_line_spec(ls[j])) is Some,
            forall|j: int|
                0 <= j < i ==> parse_line_spec(ls[j]).unwrap() == #[trigger] models(entries@)[j],
        decreases lines@.len() - i,
    {
        proof {
            assert(lines@[i as int]@ == ls[i as int]);
        }
        match parse_line(lines[i].as_slice()) {
            None => {
                proof {
                    assert(parse_line_spec(ls[i as int]) is None);
                    assert(!(forall|j: int|
                        0 <= j < ls.len() ==> (#[trigger] parse_line_spec(ls[j])) is Some)) by {
                        assert(!(parse_line_spec(ls[i as int]) is Some));
                    }
                }
                return Err(ParseError { line: i });
            },
            Some(e) => {
                let ghost pre = entries@;
                entries.push(e);
                proof {
                    assert(models(entries@) =~= models(pre).push(e@));
                }
            },
        }
        i = i + 1;
    }
    proof {
        assert(parse_entries_spec(ls) == Some(models(entries@))) by {
            assert(Seq::new(ls.len(), |j: int| parse_line_spec(ls[j]).unwrap()) =~= models(
                entries@,
            ));
        }
    }
    Ok(entries)
}

/// The number of entries and the total of their sizes.
pub open spec fn total_size_of(entries: Seq<EntryModel>) -> int
    decreases entries.len(),
{
    if entries.len() == 0 {
        0
    } else {
        entries[0].size + total_size_of(entries.skip(1))
    }
}

/// Count the entries and total their sizes, the summary a front end shows
/// after a manifest is read.
pub fn summarize(entries: &Vec<ManifestEntry>) -> (res: (usize, u128))
    ensures
        res.0 == entries@.len(),
        res.1 == total_size_of(models(entries@)),
{
    let ghost all = models(entries@);
    let mut total: u128 = 0;
    let mut i: usize = 0;
    proof {
        assert(all.skip(0) =~= all);
    }
    while i < entries.len()
        invariant
            i <= entries@.len(),
            all == models(entries@),
            total_size_of(all) == total + total_size_of(all.skip(i as int)),
            total <= (i as int) * (u64::MAX as int),
        decreases entries@.len() - i,
    {
        proof {
            let rest = all.skip(i as int);
            assert(rest[0] == entries@[i as int]@);
            assert(rest.skip(1) =~= all.skip(i as int + 1));
            assert((i as int) * (u64::MAX as int) + (u64::MAX as int) == (i as int + 1) * (
            u64::MAX as int)) by (nonlinear_arith);
            assert((i as int + 1) * (u64::MAX as int) <= (usize::MAX as int) * (u64::MAX as int))
                by (nonlinear_arith)
                requires
                    i + 1 <= usize::MAX,
            ;
        }
        total = total + (entries[i].size as u128);
        i = i + 1;
    }
    proof {
        assert(all.skip(i as int) =~= Seq::<EntryModel>::empty());
    }
    (entries.len(), total)
}

/// Digits exclude both separators.
proof fn lemma_digits_no_sep(s: Seq<u8>)
    requires
        is_digits(s),
    ensures
        !s.contains(44u8),
        !s.contains(10u8),
{
    if s.contains(44u8) {
        let i = choose|i: int| 0 <= i < s.len() && s[i] == 44u8;
    }
    if s.contains(10u8) {
        let i = choose|i: int| 0 <= i < s.len() && s[i] == 10u8;
    }
}

/// No byte of a well-formed entry's line is a newline.
proof fn lemma_line_no_newline(e: EntryModel)
    requires
        entry_wf(e),
    ensures
        !line_of(e).contains(10u8),
{
    let d = e.digest;
    let num = dec_of(e.size as int);
    let p = e.path;
    let l = line_of(e);
    lemma_dec_of_value(e.size as int);
    if l.contains(10u8) {
        let i = choose|i: int| 0 <= i < l.len() && l[i] == 10u8;
        if i < d.len() {
            assert(d[i] == 10u8);
            assert(d.contains(10u8));
        } else if i == d.len() {
            assert(l[i] == 44u8);
        } else if i < d.len() + 1 + num.len() {
            assert(num[i - d.len() - 1] == 10u8);
        } else if i == d.len() + 1 + num.len() {
            assert(l[i] == 44u8);
        } else {
            assert(p[i - d.len() - num.len() - 2] == 10u8);
            assert(p.contains(10u8));
        }
    }
}

/// Law: a well-formed entry's line parses back to exactly that entry.
pub proof fn lemma_line_round_trip(e: EntryModel)
    requires
        entry_wf(e),
    ensures
        parse_line_spec(line_of(e)) == Some(e),
{
    let num = dec_of(e.size as int);
    lemma_dec_of_value(e.size as int);
    lemma_digits_no_sep(num);
    assert(line_of(e) =~= e.digest + seq![44u8] + (num + seq![44u8] + e.path));
    lemma_split_at_sep(e.digest, num + seq![44u8] + e.path, 44);
    lemma_split_at_sep(num, e.path, 44);
    lemma_split_no_sep(e.path, 44);
    let fields = spec_split(line_of(e), 44);
    assert(fields =~~= seq![e.digest, num, e.path]);
    assert(is_dec_u64(num));
    assert(parse_line_spec(line_of(e)) == Some(e)) by {
        assert(dec_value(num) as u64 == e.size);
        assert(parse_line_spec(line_of(e)).unwrap() == e);
    }
}

/// The serialized text splits back into exactly the entries' lines,
/// followed by the empty piece that the final newline opens.
proof fn lemma_text_lines(entries: Seq<EntryModel>)
    requires
        forall|i: int| 0 <= i < entries.len() ==> entry_wf(#[trigger] entries[i]),
    ensures
        spec_split(text_of(entries), 10) == entries.map_values(|e: EntryModel| line_of(e))
            + seq![Seq::<u8>::empty()],
    decreases entries.len(),
{
    if entries.len() == 0 {
        assert(spec_split(text_of(entries), 10) =~~= entries.map_values(
            |e: EntryModel| line_of(e),
        ) + seq![Seq::<u8>::empty()]);
    } else {
        let e0 = entries[0];
        let rest = entries.skip(1);
        lemma_line_no_newline(e0);
        lemma_text_lines(rest);
        assert(text_of(entries) =~= line_of(e0) + seq![10u8] + text_of(rest));
        lemma_split_at_sep(line_of(e0), text_of(rest), 10);
        assert(spec_split(text_of(entries), 10) =~~= entries.map_values(
            |e: EntryModel| line_of(e),
        ) + seq![Seq::<u8>::empty()]);
    }
}

/// Law: serializing any sequence of well-formed entries and parsing the
/// text back yields exactly those entries.
pub proof fn lemma_manifest_round_trip(entries: Seq<EntryModel>)
    requires
        forall|i: int| 0 <= i < entries.len() ==> entry_wf(#[trigger] entries[i]),
    ensures
        parse_manifest_spec(text_of(entries)) == Some(entries),
{
    let lines = entries.map_values(|e: EntryModel| line_of(e));
    lemma_text_lines(entries);
    let pieces = spec_split(text_of(entries), 10);
    assert(pieces[pieces.len() - 1] =~= Seq::<u8>::empty());
    assert(spec_lines(text_of(entries)) =~~= lines);
    assert forall|j: int| 0 <= j < lines.len() implies (#[trigger] parse_line_spec(lines[j]))
        == Some(entries[j]) by {
        lemma_line_round_trip(entries[j]);
    }
    assert(parse_entries_spec(lines) == Some(entries)) by {
        assert(Seq::new(lines.len(), |j: int| parse_line_spec(lines[j]).unwrap()) =~= entries);
    }
}

} // verus!
