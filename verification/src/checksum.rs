//! Checksums of downloaded images, and the names that docker gives its
//! contexts.

use crate::text::{hex_lower, lines, owned, same, words};
use vstd::prelude::*;

verus! {

/// The SHA-256 digest of some bytes.
pub uninterp spec fn sha256(bytes: Seq<u8>) -> Seq<u8>;

/// `sha2::Sha256::digest`: the digest of the bytes, thirty-two bytes long.
#[verifier::external_body]
fn digest(bytes: &[u8]) -> (d: Vec<u8>)
    ensures
        d@ == sha256(bytes@),
        d@.len() == 32,
{
    <sha2::Sha256 as sha2::Digest>::digest(bytes).to_vec()
}

/// The digest of some bytes, in lower-case hexadecimal.
pub fn sha256_hex(bytes: &[u8]) -> (s: String)
    ensures
        s@ == crate::text::hex_of(sha256(bytes@)),
{
    let d: Vec<u8> = digest(bytes);
    hex_lower(d.as_slice())
}

/// A line of a checksum list: what a file's digest must be.
#[derive(Debug)]
pub struct SumEntry {
    pub expected: String,
    pub name: String,
}

pub struct SumEntryView {
    pub expected: Seq<char>,
    pub name: Seq<char>,
}

impl View for SumEntry {
    type V = SumEntryView;

    open spec fn view(&self) -> SumEntryView {
        SumEntryView { expected: self.expected@, name: self.name@ }
    }
}

pub open spec fn entry_views(v: Seq<SumEntry>) -> Seq<SumEntryView> {
    v.map_values(|e: SumEntry| e@)
}

/// A file's name without the mark of binary mode.
pub open spec fn without_stars(s: Seq<char>) -> Seq<char>
    decreases s.len(),
{
    if s.len() > 0 && s[0] == '*' {
        without_stars(s.skip(1))
    } else {
        s
    }
}

/// What a line of the list says; lines without two words say nothing.
pub open spec fn entry_of_line(line: Seq<char>) -> Option<SumEntryView> {
    let w = crate::text::words_of(line);
    if w.len() >= 2 {
        Some(SumEntryView { expected: w[0], name: without_stars(w[1]) })
    } else {
        None
    }
}

/// The entries of the first lines of a list.
pub open spec fn entries_of(lines: Seq<Seq<char>>) -> Seq<SumEntryView>
    decreases lines.len(),
{
    if lines.len() == 0 {
        Seq::empty()
    } else {
        match entry_of_line(lines.last()) {
            Some(e) => entries_of(lines.drop_last()).push(e),
            None => entries_of(lines.drop_last()),
        }
    }
}

fn strip_stars(s: &str) -> (r: String)
    ensures
        r@ == without_stars(s@),
{
    let v: Vec<char> = crate::text::to_chars(s);
    let n: usize = v.len();
    let mut i: usize = 0;
    assert(s@.skip(0) =~= s@);
    while i < n && v[i] == '*'
        invariant
            i <= n,
            n == v@.len(),
            v@ == s@,
            without_stars(s@) == without_stars(s@.skip(i as int)),
        decreases n - i,
    {
        assert(s@.skip(i as int).skip(1) =~= s@.skip(i as int + 1));
        i = i + 1;
    }
    let r: String = crate::text::from_chars(&v, i, n);
    assert(r@ =~= s@.skip(i as int));
    r
}

/// Read a list in the format of `shasum -a 256`.
pub fn sum_entries(sums: &str) -> (r: Vec<SumEntry>)
    ensures
        entry_views(r@) == entries_of(crate::text::lines_of(sums@)),
{
    let ls: Vec<String> = lines(sums);
    let ghost all = crate::text::views(ls@);
    let mut r: Vec<SumEntry> = Vec::new();
    let mut i: usize = 0;
    assert(all.take(0) =~= Seq::empty());
    assert(entry_views(r@) =~= Seq::empty());
    while i < ls.len()
        invariant
            i <= ls@.len(),
            all == crate::text::views(ls@),
            entry_views(r@) == entries_of(all.take(i as int)),
        decreases ls@.len() - i,
    {
        let ghost longer = all.take(i as int + 1);
        let ghost before = entry_views(r@);
        proof {
            assert(longer.drop_last() =~= all.take(i as int));
            assert(longer.last() == ls@[i as int]@);
        }
        let w: Vec<String> = words(ls[i].as_str());
        let ghost wv = crate::text::views(w@);
        if w.len() >= 2 {
            assert(wv[0] == w@[0]@ && wv[1] == w@[1]@);
            let e: SumEntry = SumEntry {
                expected: owned(w[0].as_str()),
                name: strip_stars(w[1].as_str()),
            };
            r.push(e);
            assert(entry_views(r@) =~= before.push(e@));
        }
        i = i + 1;
    }
    assert(all.take(ls@.len() as int) =~= all);
    r
}

/// Why a set of files is not what the list says.
#[derive(Debug)]
pub enum SumsError {
    Mismatch { name: String, expected: String, actual: String },
    /// The file of this name was not there.
    Missing { name: String },
    /// The list has no entries.
    NoEntries,
}

/// Whether the first files are all as the list says.
pub open spec fn all_match(entries: Seq<SumEntryView>, files: Seq<Seq<u8>>, n: int) -> bool {
    forall|i: int|
        0 <= i < n ==> crate::text::hex_of(sha256(#[trigger] files[i])) == entries[i].expected
}

pub open spec fn contents(v: Seq<Vec<u8>>) -> Seq<Seq<u8>> {
    v.map_values(|f: Vec<u8>| f@)
}

/// Check one file against its entry, given its digest.
pub fn check_digest(entry: &SumEntry, actual: &str) -> (r: Result<(), SumsError>)
    ensures
        match r {
            Ok(()) => actual@ == entry.expected@,
            Err(SumsError::Mismatch { name, expected, actual: a }) => actual@ != entry.expected@
                && name@ == entry.name@ && expected@ == entry.expected@ && a@ == actual@,
            Err(_) => false,
        },
{
    if same(actual, entry.expected.as_str()) {
        Ok(())
    } else {
        Err(
            SumsError::Mismatch {
                name: owned(entry.name.as_str()),
                expected: owned(entry.expected.as_str()),
                actual: owned(actual),
            },
        )
    }
}

/// Check files against a list. The files stand in the order of its entries;
/// one that could not be read ends them.
pub fn verify_sha256sums(sums: &str, files: &Vec<Vec<u8>>) -> (r: Result<(), SumsError>)
    ensures
        ({
            let entries = entries_of(crate::text::lines_of(sums@));
            let f = contents(files@);
            match r {
                Ok(()) => entries.len() > 0 && f.len() >= entries.len() && all_match(
                    entries,
                    f,
                    entries.len() as int,
                ),
                Err(SumsError::NoEntries) => entries.len() == 0,
                Err(SumsError::Missing { name }) => f.len() < entries.len() && all_match(
                    entries,
                    f,
                    f.len() as int,
                ) && name@ == entries[f.len() as int].name,
                Err(SumsError::Mismatch { name, expected, actual }) => exists|i: int|
                    0 <= i < entries.len() && i < f.len() && all_match(entries, f, i)
                        && #[trigger] entries[i].name == name@ && entries[i].expected == expected@
                        && actual@ == crate::text::hex_of(sha256(f[i])) && actual@ != expected@,
            }
        }),
{
    let entries: Vec<SumEntry> = sum_entries(sums);
    let ghost ev = entry_views(entries@);
    let ghost f = contents(files@);
    let mut i: usize = 0;
    while i < entries.len()
        invariant
            i <= entries@.len(),
            i <= files@.len(),
            ev == entry_views(entries@),
            ev == entries_of(crate::text::lines_of(sums@)),
            f == contents(files@),
            all_match(ev, f, i as int),
        decreases entries@.len() - i,
    {
        assert(ev[i as int] == entries@[i as int]@);
        if i >= files.len() {
            return Err(SumsError::Missing { name: owned(entries[i].name.as_str()) });
        }
        assert(f[i as int] == files@[i as int]@);
        let actual: String = sha256_hex(files[i].as_slice());
        match check_digest(&entries[i], actual.as_str()) {
            Ok(()) => {},
            Err(e) => {
                assert(ev[i as int].name == entries@[i as int].name@);
                return Err(e);
            },
        }
        i = i + 1;
    }
    if entries.len() == 0 {
        return Err(SumsError::NoEntries);
    }
    Ok(())
}

impl SumsError {
    /// What is said of it, of a list's file.
    pub fn message(&self, sums_file: &str) -> (s: String)
        ensures
            s@ == (match *self {
                SumsError::Mismatch { name, expected, actual } => "checksum mismatch for "@ + name@
                    + ": expected "@ + expected@ + ", got "@ + actual@,
                SumsError::Missing { name } => "no such file: "@ + name@,
                SumsError::NoEntries => "no entries in "@ + sums_file@,
            }),
    {
        match self {
            SumsError::Mismatch { name, expected, actual } => {
                let mut s: String = crate::text::cat5(
                    "checksum mismatch for ",
                    name.as_str(),
                    ": expected ",
                    expected.as_str(),
                    ", got ",
                );
                s.append(actual.as_str());
                s
            },
            SumsError::Missing { name } => crate::text::cat2("no such file: ", name.as_str()),
            SumsError::NoEntries => crate::text::cat2("no entries in ", sums_file),
        }
    }
}

/// A line of a list is read: the digest, then the file's name, with or without
/// the mark of binary mode.
pub proof fn a_line_of_a_list_is_read(digest: Seq<char>, name: Seq<char>)
    requires
        digest.len() > 0,
        name.len() > 0,
        name[0] != '*',
        forall|i: int| 0 <= i < digest.len() ==> !crate::text::white(#[trigger] digest[i]),
        forall|i: int| 0 <= i < name.len() ==> !crate::text::white(#[trigger] name[i]),
    ensures
        entry_of_line(digest + "  "@ + name) == Some(SumEntryView { expected: digest, name }),
        entry_of_line(digest + " *"@ + name) == Some(SumEntryView { expected: digest, name }),
        entry_of_line(digest) is None,
{
    reveal_strlit("  ");
    reveal_strlit(" *");
    let starred = seq!['*'] + name;
    crate::text::a_word_splits_off(digest, ' ', seq![' '] + name);
    crate::text::a_word_splits_off(name, ' ', name);
    assert(digest + "  "@ + name =~= digest.push(' ') + (seq![' '] + name));
    assert forall|i: int| 0 <= i < starred.len() implies !crate::text::white(
        #[trigger] starred[i],
    ) by {
        if i > 0 {
            assert(starred[i] == name[i - 1]);
        }
    }
    crate::text::a_word_splits_off(digest, ' ', starred);
    crate::text::a_word_splits_off(starred, ' ', name);
    assert(digest + " *"@ + name =~= digest.push(' ') + starred);
    assert(starred.skip(1) =~= name);
    reveal_with_fuel(without_stars, 2);
}

/// Every line of a list counts, in its place: a list in two parts has the
/// entries of the first, then those of the second.
pub proof fn every_line_counts(a: Seq<Seq<char>>, b: Seq<Seq<char>>, line: Seq<char>)
    ensures
        entries_of(a + b) == entries_of(a) + entries_of(b),
        entry_of_line(line) matches Some(e) ==> entries_of(seq![line]) == seq![e],
        entry_of_line(line) is None ==> entries_of(seq![line]).len() == 0,
        entries_of(Seq::empty()).len() == 0,
    decreases b.len(),
{
    reveal_with_fuel(entries_of, 2);
    assert(seq![line].drop_last() =~= Seq::<Seq<char>>::empty());
    assert(Seq::<SumEntryView>::empty().push(
        match entry_of_line(line) {
            Some(e) => e,
            None => SumEntryView { expected: line, name: line },
        },
    ).len() == 1);
    if b.len() == 0 {
        assert(a + b =~= a);
        assert(entries_of(a) + entries_of(b) =~= entries_of(a));
    } else {
        every_line_counts(a, b.drop_last(), line);
        assert((a + b).drop_last() =~= a + b.drop_last());
        assert((a + b).last() == b.last());
        assert(entries_of(a + b) =~= entries_of(a) + entries_of(b));
    }
}

/// A file that differs from what its entry says fails the check of all.
pub proof fn no_file_is_left_out(entries: Seq<SumEntryView>, files: Seq<Seq<u8>>, n: int, i: int)
    requires
        0 <= i < n,
        crate::text::hex_of(sha256(files[i])) != entries[i].expected,
    ensures
        !all_match(entries, files, n),
{
}

} // verus!
