//! Deterministic newc-format cpio (initramfs) builder.
//!
//! Used to assemble guest boot images on the host without external tools. The
//! kernel populates its root file system from this archive before it starts
//! /init, so a static init binary and a /dev/console node are a complete
//! bootable guest.

use crate::bytes::push_bytes;
use crate::text::{from_chars, to_chars};
use vstd::prelude::*;
use vstd::string::StrSliceExecFns;
use vstd::utf8::encode_utf8;

verus! {

pub const S_IFDIR: u32 = 0o040000;

pub const S_IFREG: u32 = 0o100000;

pub const S_IFLNK: u32 = 0o120000;

pub const S_IFCHR: u32 = 0o020000;

#[derive(Debug)]
struct Entry {
    name: String,
    mode: u32,
    rdev: (u32, u32),
    data: Vec<u8>,
}

/// An archive member: the bytes of its name, type and permissions, device
/// numbers, content.
pub struct EntryView {
    pub name: Seq<u8>,
    pub mode: u32,
    pub rdev: (u32, u32),
    pub data: Seq<u8>,
}

impl View for Entry {
    type V = EntryView;

    closed spec fn view(&self) -> EntryView {
        EntryView {
            name: encode_utf8(self.name@),
            mode: self.mode,
            rdev: self.rdev,
            data: self.data@,
        }
    }
}

/// The text from its first character that is not a slash.
pub open spec fn without_slashes(s: Seq<char>) -> Seq<char>
    decreases s.len(),
{
    if s.len() > 0 && s[0] == '/' {
        without_slashes(s.skip(1))
    } else {
        s
    }
}

/// The bytes of a member's name: no leading slashes.
pub open spec fn member_name(name: Seq<char>) -> Seq<u8> {
    encode_utf8(without_slashes(name))
}

pub(crate) fn norm(name: &str) -> (r: String)
    ensures
        r@ == without_slashes(name@),
{
    let v: Vec<char> = to_chars(name);
    let mut i: usize = 0;
    assert(v@.skip(0) =~= v@);
    while i < v.len() && v[i] == '/'
        invariant
            i <= v@.len(),
            without_slashes(v@.skip(i as int)) == without_slashes(v@),
        decreases v@.len() - i,
    {
        assert(v@.skip(i as int)[0] == v@[i as int]);
        assert(v@.skip(i as int).skip(1) =~= v@.skip(i as int + 1));
        i = i + 1;
    }
    proof {
        assert(v@.subrange(i as int, v@.len() as int) =~= v@.skip(i as int));
        if i < v@.len() {
            assert(v@.skip(i as int)[0] == v@[i as int]);
        }
    }
    from_chars(&v, i, v.len())
}

/// The upper-case hexadecimal digit `d` in ASCII.
pub open spec fn hex_ascii(d: int) -> u8 {
    if d < 10 {
        (48 + d) as u8
    } else {
        (55 + d) as u8
    }
}

/// The lowest `n` hexadecimal digits of a number, in ASCII.
pub open spec fn hex_ascii_digits(v: nat, n: nat) -> Seq<u8>
    decreases n,
{
    if n == 0 {
        Seq::empty()
    } else {
        hex_ascii_digits(v / 16, (n - 1) as nat).push(hex_ascii((v % 16) as int))
    }
}

/// A number as eight upper-case hexadecimal digits.
pub open spec fn hex8(v: u32) -> Seq<u8> {
    hex_ascii_digits(v as nat, 8)
}

fn push_hex_digits(out: &mut Vec<u8>, v: u32, n: u8)
    ensures
        final(out)@ == old(out)@ + hex_ascii_digits(v as nat, n as nat),
    decreases n,
{
    if n > 0 {
        push_hex_digits(out, v / 16, n - 1);
        let d: u8 = (v % 16) as u8;
        out.push(if d < 10 { 48 + d } else { 55 + d });
    }
    assert(out@ =~= old(out)@ + hex_ascii_digits(v as nat, n as nat));
}

/// Each field as eight hexadecimal digits.
pub open spec fn hex_fields(fields: Seq<u32>) -> Seq<u8>
    decreases fields.len(),
{
    if fields.len() == 0 {
        Seq::empty()
    } else {
        hex_fields(fields.drop_last()) + hex8(fields.last())
    }
}

/// `n` rounded up to a multiple of four.
pub open spec fn align4(n: int) -> int {
    (n + 3) / 4 * 4
}

/// The bytes, filled up with zeros to a multiple of four.
#[verifier::opaque]
pub open spec fn padded(s: Seq<u8>) -> Seq<u8> {
    s + Seq::new((align4(s.len() as int) - s.len()) as nat, |i: int| 0u8)
}

fn pad4(out: &mut Vec<u8>)
    ensures
        final(out)@ == padded(old(out)@),
{
    let ghost start = out@;
    let ghost full = padded(start);
    reveal(padded);
    while out.len() % 4 != 0
        invariant
            start.len() <= out@.len() <= full.len(),
            full == padded(start),
            out@ == full.take(out@.len() as int),
            start == old(out)@,
        decreases full.len() - out@.len(),
    {
        let ghost before = out@;
        out.push(0);
        proof {
            reveal(padded);
            assert(out@ =~= full.take(before.len() as int + 1));
        }
    }
    assert(out@ =~= full);
}

/// The hard-link count: two for a directory.
pub open spec fn nlink(mode: u32) -> u32 {
    if mode & S_IFDIR != 0 {
        2
    } else {
        1
    }
}

/// The thirteen fields of a member: inode number, mode, user, group, links,
/// time, file size, device (two), special device (two), name size with the
/// final zero, check. Sizes are written modulo 2^32.
pub open spec fn fields_of(ino: u32, e: EntryView) -> Seq<u32> {
    seq![
        ino,
        e.mode,
        0,
        0,
        nlink(e.mode),
        0,
        (e.data.len() % 0x1_0000_0000) as u32,
        0,
        0,
        e.rdev.0,
        e.rdev.1,
        ((e.name.len() + 1) % 0x1_0000_0000) as u32,
        0,
    ]
}

pub open spec fn magic() -> Seq<u8> {
    seq![0x30u8, 0x37, 0x30, 0x37, 0x30, 0x31]
}

/// The magic number and the fields of a member.
#[verifier::opaque]
pub open spec fn member_header(ino: u32, e: EntryView) -> Seq<u8> {
    magic() + hex_fields(fields_of(ino, e))
}

/// A member: header, name with a final zero, padding, content, padding.
#[verifier::opaque]
pub open spec fn member(ino: u32, e: EntryView) -> Seq<u8> {
    padded(padded((member_header(ino, e) + e.name).push(0)) + e.data)
}

/// The member that ends an archive.
pub open spec fn trailer() -> EntryView {
    EntryView {
        name: encode_utf8("TRAILER!!!"@),
        mode: 0,
        rdev: (0, 0),
        data: Seq::empty(),
    }
}

/// The members in order, numbered from one.
pub open spec fn members(entries: Seq<EntryView>) -> Seq<u8>
    decreases entries.len(),
{
    if entries.len() == 0 {
        Seq::empty()
    } else {
        members(entries.drop_last()) + member(entries.len() as u32, entries.last())
    }
}

/// The archive of the given members.
pub open spec fn archive(entries: Seq<EntryView>) -> Seq<u8> {
    members(entries) + member(0, trailer())
}

proof fn lemma_padded(s: Seq<u8>)
    ensures
        padded(s).len() == align4(s.len() as int),
        padded(s).len() % 4 == 0,
        s.len() <= padded(s).len(),
        forall|i: int| 0 <= i < s.len() ==> #[trigger] padded(s)[i] == s[i],
        forall|i: int| s.len() <= i < padded(s).len() ==> #[trigger] padded(s)[i] == 0,
{
    reveal(padded);
}

proof fn lemma_padded_append(a: Seq<u8>, b: Seq<u8>)
    requires
        a.len() % 4 == 0,
    ensures
        padded(a + b) == a + padded(b),
{
    reveal(padded);
    assert(align4((a + b).len() as int) == a.len() + align4(b.len() as int));
    assert(padded(a + b) =~= a + padded(b));
}

proof fn lemma_member_aligned(ino: u32, e: EntryView)
    ensures
        member(ino, e).len() % 4 == 0,
{
    reveal(member);
    lemma_padded(padded((member_header(ino, e) + e.name).push(0)) + e.data);
}

fn push_fields(out: &mut Vec<u8>, fields: &Vec<u32>)
    ensures
        final(out)@ == old(out)@ + hex_fields(fields@),
{
    let mut i: usize = 0;
    assert(fields@.take(0) =~= Seq::empty());
    assert(out@ =~= old(out)@ + hex_fields(fields@.take(0)));
    while i < fields.len()
        invariant
            i <= fields@.len(),
            out@ == old(out)@ + hex_fields(fields@.take(i as int)),
        decreases fields@.len() - i,
    {
        push_hex_digits(out, fields[i], 8);
        proof {
            let longer = fields@.take(i as int + 1);
            assert(longer.drop_last() =~= fields@.take(i as int));
            assert(out@ =~= old(out)@ + hex_fields(longer));
        }
        i = i + 1;
    }
    assert(fields@.take(fields@.len() as int) =~= fields@);
}

fn write_header(out: &mut Vec<u8>, ino: u32, e: &Entry)
    ensures
        final(out)@ == old(out)@ + member_header(ino, e@),
{
    let ghost start = out@;
    let namesize: u64 = e.name.as_str().as_bytes().len() as u64 % 0x1_0000_0000 + 1;
    let nlink: u32 = if e.mode & S_IFDIR != 0 { 2 } else { 1 };
    let filesize: u32 = (e.data.len() as u64 % 0x1_0000_0000) as u32;
    out.push(0x30);
    out.push(0x37);
    out.push(0x30);
    out.push(0x37);
    out.push(0x30);
    out.push(0x31);
    assert(out@ =~= start + magic());
    let fields: Vec<u32> = vec![
        ino,
        e.mode,
        0,
        0,
        nlink,
        0,
        filesize,
        0,
        0,
        e.rdev.0,
        e.rdev.1,
        (namesize % 0x1_0000_0000) as u32,
        0,
    ];
    push_fields(out, &fields);
    proof {
        reveal(member_header);
        assert(fields@ =~= fields_of(ino, e@));
        assert(out@ =~= start + member_header(ino, e@));
    }
}

fn write_entry(out: &mut Vec<u8>, ino: u32, e: &Entry)
    requires
        old(out)@.len() % 4 == 0,
    ensures
        final(out)@ == old(out)@ + member(ino, e@),
        final(out)@.len() % 4 == 0,
{
    let ghost start = out@;
    let ghost head = (member_header(ino, e@) + e@.name).push(0);
    write_header(out, ino, e);
    push_bytes(out, e.name.as_str().as_bytes());
    out.push(0);
    assert(out@ =~= start + head);
    pad4(out);
    proof {
        lemma_padded_append(start, head);
    }
    push_bytes(out, e.data.as_slice());
    assert(out@ =~= start + (padded(head) + e@.data));
    pad4(out);
    proof {
        lemma_padded_append(start, padded(head) + e@.data);
        reveal(member);
        lemma_member_aligned(ino, e@);
    }
}

#[derive(Debug)]
pub struct InitramfsBuilder {
    entries: Vec<Entry>,
}

impl View for InitramfsBuilder {
    type V = Seq<EntryView>;

    closed spec fn view(&self) -> Seq<EntryView> {
        self.entries@.map_values(|e: Entry| e@)
    }
}

impl InitramfsBuilder {
    /// An empty archive.
    pub fn new() -> (b: InitramfsBuilder)
        ensures
            b@ == Seq::<EntryView>::empty(),
    {
        let b = InitramfsBuilder { entries: Vec::new() };
        assert(b@ =~= Seq::<EntryView>::empty());
        b
    }

    fn with(self, e: Entry) -> (b: InitramfsBuilder)
        ensures
            b@ == self@.push(e@),
    {
        let mut entries: Vec<Entry> = self.entries;
        entries.push(e);
        let b = InitramfsBuilder { entries };
        assert(b@ =~= self@.push(e@));
        b
    }

    /// Add a directory.
    pub fn dir(self, name: &str, perm: u32) -> (b: InitramfsBuilder)
        ensures
            b@ == self@.push(
                EntryView {
                    name: member_name(name@),
                    mode: S_IFDIR | (perm & 0o7777),
                    rdev: (0, 0),
                    data: Seq::empty(),
                },
            ),
    {
        let e = Entry {
            name: norm(name),
            mode: S_IFDIR | (perm & 0o7777),
            rdev: (0, 0),
            data: Vec::new(),
        };
        self.with(e)
    }

    /// Add a regular file.
    pub fn file(self, name: &str, data: Vec<u8>, perm: u32) -> (b: InitramfsBuilder)
        ensures
            b@ == self@.push(
                EntryView {
                    name: member_name(name@),
                    mode: S_IFREG | (perm & 0o7777),
                    rdev: (0, 0),
                    data: data@,
                },
            ),
    {
        let e = Entry {
            name: norm(name),
            mode: S_IFREG | (perm & 0o7777),
            rdev: (0, 0),
            data,
        };
        self.with(e)
    }

    /// Add a symbolic link.
    pub fn symlink(self, name: &str, target: &str) -> (b: InitramfsBuilder)
        ensures
            b@ == self@.push(
                EntryView {
                    name: member_name(name@),
                    mode: S_IFLNK | 0o777,
                    rdev: (0, 0),
                    data: encode_utf8(target@),
                },
            ),
    {
        let e = Entry {
            name: norm(name),
            mode: S_IFLNK | 0o777,
            rdev: (0, 0),
            data: target.as_bytes_vec(),
        };
        self.with(e)
    }

    /// Add a character device.
    pub fn char_dev(self, name: &str, major: u32, minor: u32, perm: u32) -> (b: InitramfsBuilder)
        ensures
            b@ == self@.push(
                EntryView {
                    name: member_name(name@),
                    mode: S_IFCHR | (perm & 0o7777),
                    rdev: (major, minor),
                    data: Seq::empty(),
                },
            ),
    {
        let e = Entry {
            name: norm(name),
            mode: S_IFCHR | (perm & 0o7777),
            rdev: (major, minor),
            data: Vec::new(),
        };
        self.with(e)
    }

    /// The archive. It depends on the members alone: the same calls give the
    /// same bytes.
    pub fn build(self) -> (out: Vec<u8>)
        requires
            self@.len() < u32::MAX,
        ensures
            out@ == archive(self@),
            out@.len() % 4 == 0,
    {
        let mut out: Vec<u8> = Vec::new();
        let mut i: usize = 0;
        proof {
            assert(self@.take(0) =~= Seq::<EntryView>::empty());
        }
        while i < self.entries.len()
            invariant
                i <= self.entries@.len(),
                self@.len() == self.entries@.len(),
                self@.len() < u32::MAX,
                out@ == members(self@.take(i as int)),
                out@.len() % 4 == 0,
            decreases self.entries@.len() - i,
        {
            let ghost longer = self@.take(i as int + 1);
            proof {
                assert(longer.drop_last() =~= self@.take(i as int));
                assert(longer.last() == self.entries@[i as int]@);
            }
            // The inode number is unique per member; everything else is fixed,
            // so that equal members give equal archives.
            write_entry(&mut out, i as u32 + 1, &self.entries[i]);
            i = i + 1;
        }
        proof {
            assert(self@.take(self@.len() as int) =~= self@);
        }
        let last = Entry {
            name: crate::text::owned("TRAILER!!!"),
            mode: 0,
            rdev: (0, 0),
            data: Vec::new(),
        };
        write_entry(&mut out, 0, &last);
        proof {
            assert(last@.data =~= Seq::empty());
        }
        out
    }
}

// Reading an archive back.

/// The value of a hexadecimal digit in ASCII.
pub open spec fn hex_digit_value(c: u8) -> int {
    if c < 58 {
        c - 48
    } else {
        c - 55
    }
}

/// The number that a row of hexadecimal digits writes.
pub open spec fn hex_ascii_value(s: Seq<u8>) -> int
    decreases s.len(),
{
    if s.len() == 0 {
        0
    } else {
        hex_ascii_value(s.drop_last()) * 16 + hex_digit_value(s.last())
    }
}

/// The `i`th field of the member at `off`.
pub open spec fn field(a: Seq<u8>, off: int, i: int) -> int {
    hex_ascii_value(a.subrange(off + 6 + 8 * i, off + 6 + 8 * i + 8))
}

/// What unpacking an archive from `off` on finds: name, mode, device numbers
/// and content of each member up to the trailer; `None` if it is malformed.
pub open spec fn unpacked(a: Seq<u8>, off: int) -> Option<Seq<EntryView>>
    decreases a.len() - off,
{
    if off < 0 || off + 110 > a.len() || a.subrange(off, off + 6) != magic() {
        None
    } else {
        let filesize = field(a, off, 6);
        let namesize = field(a, off, 11);
        let data_start = align4(off + 110 + namesize);
        let next = align4(data_start + filesize);
        if namesize < 1 || filesize < 0 || next > a.len() {
            None
        } else {
            let name = a.subrange(off + 110, off + 110 + namesize - 1);
            let e = EntryView {
                name,
                mode: field(a, off, 1) as u32,
                rdev: (field(a, off, 9) as u32, field(a, off, 10) as u32),
                data: a.subrange(data_start, data_start + filesize),
            };
            if name == trailer().name {
                Some(Seq::empty())
            } else {
                match unpacked(a, next) {
                    Some(rest) => Some(seq![e] + rest),
                    None => None,
                }
            }
        }
    }
}

/// A member that survives the format: sizes of 32 bits, not named like the
/// trailer.
pub open spec fn representable(e: EntryView) -> bool {
    &&& e.name.len() + 1 < 0x1_0000_0000
    &&& e.data.len() < 0x1_0000_0000
    &&& e.name != trailer().name
}

pub open spec fn pow16(n: nat) -> nat
    decreases n,
{
    if n == 0 {
        1
    } else {
        16 * pow16((n - 1) as nat)
    }
}

proof fn lemma_hex_digits(v: nat, n: nat)
    requires
        v < pow16(n),
    ensures
        hex_ascii_digits(v, n).len() == n,
        hex_ascii_value(hex_ascii_digits(v, n)) == v,
    decreases n,
{
    if n > 0 {
        lemma_hex_digits(v / 16, (n - 1) as nat);
        let s = hex_ascii_digits(v, n);
        assert(s.drop_last() =~= hex_ascii_digits(v / 16, (n - 1) as nat));
    }
}

proof fn lemma_hex8(v: u32)
    ensures
        hex8(v).len() == 8,
        hex_ascii_value(hex8(v)) == v,
{
    reveal_with_fuel(pow16, 9);
    lemma_hex_digits(v as nat, 8);
}

proof fn lemma_fields(fields: Seq<u32>, i: int)
    requires
        0 <= i < fields.len(),
    ensures
        hex_fields(fields).len() == 8 * fields.len(),
        hex_fields(fields).subrange(8 * i, 8 * i + 8) == hex8(fields[i]),
    decreases fields.len(),
{
    let init = fields.drop_last();
    lemma_hex8(fields.last());
    if init.len() > 0 {
        lemma_fields(init, if i < init.len() { i } else { 0 });
    } else {
        assert(hex_fields(init).len() == 0);
    }
    if i < init.len() {
        assert(hex_fields(fields).subrange(8 * i, 8 * i + 8) =~= hex_fields(init).subrange(
            8 * i,
            8 * i + 8,
        ));
    } else {
        assert(hex_fields(fields).subrange(8 * i, 8 * i + 8) =~= hex8(fields.last()));
    }
}

proof fn lemma_header_len(ino: u32, e: EntryView)
    ensures
        member_header(ino, e).len() == 110,
{
    reveal(member_header);
    lemma_fields(fields_of(ino, e), 0);
}

/// A field of a member's header, as the reader finds it.
proof fn lemma_field(ino: u32, e: EntryView, a: Seq<u8>, off: int, i: int)
    requires
        0 <= off,
        off + 110 <= a.len(),
        a.subrange(off, off + 110) == member_header(ino, e),
        0 <= i < 13,
    ensures
        field(a, off, i) == fields_of(ino, e)[i],
{
    reveal(member_header);
    let h = member_header(ino, e);
    let fs = fields_of(ino, e);
    let x = a.subrange(off, off + 110);
    lemma_fields(fs, i);
    lemma_hex8(fs[i]);
    assert(a.subrange(off + 6 + 8 * i, off + 6 + 8 * i + 8) =~= x.subrange(
        6 + 8 * i,
        6 + 8 * i + 8,
    ));
    assert(h.subrange(6 + 8 * i, 6 + 8 * i + 8) =~= hex_fields(fs).subrange(8 * i, 8 * i + 8));
}

/// The header of a member, as the reader finds it.
proof fn lemma_header_fields(ino: u32, e: EntryView, a: Seq<u8>, off: int)
    requires
        0 <= off,
        off + 110 <= a.len(),
        a.subrange(off, off + 110) == member_header(ino, e),
        e.name.len() + 1 < 0x1_0000_0000,
        e.data.len() < 0x1_0000_0000,
    ensures
        a.subrange(off, off + 6) == magic(),
        field(a, off, 1) == e.mode,
        field(a, off, 6) == e.data.len(),
        field(a, off, 9) == e.rdev.0,
        field(a, off, 10) == e.rdev.1,
        field(a, off, 11) == e.name.len() + 1,
{
    let h = member_header(ino, e);
    let x = a.subrange(off, off + 110);
    lemma_header_len(ino, e);
    reveal(member_header);
    assert(a.subrange(off, off + 6) =~= x.subrange(0, 6));
    assert(h.subrange(0, 6) =~= magic());
    lemma_field(ino, e, a, off, 1);
    lemma_field(ino, e, a, off, 6);
    lemma_field(ino, e, a, off, 9);
    lemma_field(ino, e, a, off, 10);
    lemma_field(ino, e, a, off, 11);
}

/// One step of the reader over a member that stands at `off`.
#[verifier::spinoff_prover]
#[verifier::rlimit(60)]
proof fn lemma_unpack_member(a: Seq<u8>, off: int, ino: u32, e: EntryView)
    requires
        0 <= off,
        off % 4 == 0,
        off + member(ino, e).len() <= a.len(),
        a.subrange(off, off + member(ino, e).len()) == member(ino, e),
        e.name.len() + 1 < 0x1_0000_0000,
        e.data.len() < 0x1_0000_0000,
    ensures
        unpacked(a, off) == (if e.name == trailer().name {
            Some(Seq::empty())
        } else {
            match unpacked(a, off + member(ino, e).len()) {
                Some(rest) => Some(seq![e] + rest),
                None => None,
            }
        }),
{
    let m = member(ino, e);
    let h = member_header(ino, e);
    lemma_header_len(ino, e);
    let head = (h + e.name).push(0);
    let n = e.name.len() as int;
    let body = padded(head) + e.data;
    let ds = align4(111 + n);
    reveal(member);
    lemma_padded(head);
    lemma_padded(body);
    assert(m.len() == align4(ds + e.data.len()));
    let x = a.subrange(off, off + m.len());
    assert forall|k: int| 0 <= k < m.len() implies #[trigger] a[off + k] == m[k] by {
        assert(x[k] == a[off + k]);
    }
    assert(a.subrange(off, off + 110) =~= h) by {
        assert forall|k: int| 0 <= k < 110 implies #[trigger] a.subrange(off, off + 110)[k] == h[k] by {
            assert(a[off + k] == m[k]);
            assert(m[k] == body[k]);
            assert(body[k] == head[k]);
        }
    }
    lemma_header_fields(ino, e, a, off);
    assert(a.subrange(off + 110, off + 110 + n) =~= e.name) by {
        assert forall|k: int| 0 <= k < n implies #[trigger] a.subrange(off + 110, off + 110 + n)[k]
            == e.name[k] by {
            assert(a[off + (110 + k)] == m[110 + k]);
            assert(m[110 + k] == body[110 + k]);
            assert(body[110 + k] == head[110 + k]);
        }
    }
    assert(align4(off + 110 + n + 1) == off + ds);
    assert(a.subrange(off + ds, off + ds + e.data.len()) =~= e.data) by {
        assert forall|k: int| 0 <= k < e.data.len() implies #[trigger] a.subrange(
            off + ds,
            off + ds + e.data.len(),
        )[k] == e.data[k] by {
            assert(a[off + (ds + k)] == m[ds + k]);
            assert(m[ds + k] == body[ds + k]);
        }
    }
    assert(align4(off + ds + e.data.len()) == off + m.len());
}

proof fn lemma_members_len(entries: Seq<EntryView>)
    ensures
        members(entries).len() % 4 == 0,
    decreases entries.len(),
{
    if entries.len() > 0 {
        lemma_members_len(entries.drop_last());
        lemma_member_aligned(entries.len() as u32, entries.last());
    }
}

proof fn lemma_members_prefix(entries: Seq<EntryView>, i: int)
    requires
        0 <= i <= entries.len(),
    ensures
        members(entries.take(i)).len() <= members(entries).len(),
        members(entries).take(members(entries.take(i)).len() as int) == members(entries.take(i)),
    decreases entries.len(),
{
    if i == entries.len() {
        assert(entries.take(i) =~= entries);
        assert(members(entries).take(members(entries).len() as int) =~= members(entries));
    } else {
        lemma_members_prefix(entries.drop_last(), i);
        assert(entries.drop_last().take(i) =~= entries.take(i));
        let p = members(entries.take(i));
        assert(members(entries).take(p.len() as int) =~= members(entries.drop_last()).take(
            p.len() as int,
        ));
    }
}

proof fn lemma_unpack_from(entries: Seq<EntryView>, i: int)
    requires
        0 <= i <= entries.len() < u32::MAX,
        forall|k: int| 0 <= k < entries.len() ==> representable(#[trigger] entries[k]),
    ensures
        unpacked(archive(entries), members(entries.take(i)).len() as int) == Some(entries.skip(i)),
    decreases entries.len() - i,
{
    let a = archive(entries);
    let pre = members(entries.take(i));
    lemma_members_len(entries.take(i));
    lemma_members_prefix(entries, i);
    if i == entries.len() {
        assert(entries.take(i) =~= entries);
        let t = trailer();
        assert(a.subrange(pre.len() as int, pre.len() as int + member(0, t).len()) =~= member(0, t));
        reveal_strlit("TRAILER!!!");
        vstd::utf8::is_ascii_chars_encode_utf8("TRAILER!!!"@);
        lemma_unpack_member(a, pre.len() as int, 0, t);
        assert(entries.skip(i) =~= Seq::empty());
    } else {
        let e = entries[i];
        let upto = entries.take(i + 1);
        assert(upto.drop_last() =~= entries.take(i));
        let m = member((i + 1) as u32, e);
        assert(members(upto) == pre + m);
        lemma_members_prefix(entries, i + 1);
        assert(a.subrange(pre.len() as int, pre.len() as int + m.len()) =~= m) by {
            let all = members(entries);
            assert(all.take(members(upto).len() as int) == pre + m);
            assert forall|k: int| 0 <= k < m.len() implies #[trigger] a.subrange(
                pre.len() as int,
                pre.len() as int + m.len(),
            )[k] == m[k] by {
                assert(all.take(members(upto).len() as int)[pre.len() + k] == (pre + m)[pre.len()
                    + k]);
            }
        }
        lemma_unpack_member(a, pre.len() as int, (i + 1) as u32, e);
        lemma_unpack_from(entries, i + 1);
        assert(seq![e] + entries.skip(i + 1) =~= entries.skip(i));
    }
}

/// An archive holds what was put in: unpacking it gives back the members, in
/// order, with their names, modes, device numbers and contents.
pub proof fn archive_unpacks_to_its_members(entries: Seq<EntryView>)
    requires
        entries.len() < u32::MAX,
        forall|k: int| 0 <= k < entries.len() ==> representable(#[trigger] entries[k]),
    ensures
        unpacked(archive(entries), 0) == Some(entries),
{
    lemma_unpack_from(entries, 0);
    assert(entries.take(0) =~= Seq::empty());
    assert(entries.skip(0) =~= entries);
}

/// Where the content of a member at `off` starts.
pub open spec fn data_offset(off: int, e: EntryView) -> int {
    align4(off + 110 + e.name.len() + 1)
}

/// Whether a member stands at `off`, numbered `ino`, of nobody in particular
/// and of no time, its header, its content and what follows it on multiples of
/// four, with zeros between them.
pub open spec fn laid_out(a: Seq<u8>, off: int, ino: int, e: EntryView) -> bool {
    let data = data_offset(off, e);
    let next = align4(data + e.data.len());
    &&& 0 <= off && next <= a.len()
    &&& off % 4 == 0 && data % 4 == 0 && next % 4 == 0
    &&& a.subrange(off, off + 6) == magic()
    &&& field(a, off, 0) == ino
    &&& field(a, off, 2) == 0 && field(a, off, 3) == 0 && field(a, off, 5) == 0
    &&& a.subrange(off + 110, off + 110 + e.name.len()) == e.name
    &&& forall|k: int| off + 110 + e.name.len() <= k < data ==> #[trigger] a[k] == 0
    &&& a.subrange(data, data + e.data.len()) == e.data
    &&& forall|k: int| data + e.data.len() <= k < next ==> #[trigger] a[k] == 0
}

#[verifier::spinoff_prover]
#[verifier::rlimit(60)]
proof fn lemma_laid_out(a: Seq<u8>, off: int, ino: u32, e: EntryView)
    requires
        0 <= off,
        off % 4 == 0,
        off + member(ino, e).len() <= a.len(),
        a.subrange(off, off + member(ino, e).len()) == member(ino, e),
    ensures
        laid_out(a, off, ino as int, e),
        off + member(ino, e).len() == align4(data_offset(off, e) + e.data.len()),
{
    let m = member(ino, e);
    let h = member_header(ino, e);
    lemma_header_len(ino, e);
    let head = (h + e.name).push(0);
    let n = e.name.len() as int;
    let body = padded(head) + e.data;
    let ds = align4(111 + n);
    reveal(member);
    lemma_padded(head);
    lemma_padded(body);
    assert(m.len() == align4(ds + e.data.len()));
    let x = a.subrange(off, off + m.len());
    assert forall|k: int| 0 <= k < m.len() implies #[trigger] a[off + k] == m[k] by {
        assert(x[k] == a[off + k]);
    }
    assert(a.subrange(off, off + 110) =~= h) by {
        assert forall|k: int| 0 <= k < 110 implies #[trigger] a.subrange(off, off + 110)[k] == h[k] by {
            assert(a[off + k] == m[k]);
            assert(m[k] == body[k]);
            assert(body[k] == head[k]);
        }
    }
    assert(a.subrange(off, off + 6) =~= magic()) by {
        reveal(member_header);
        assert(a.subrange(off, off + 6) =~= a.subrange(off, off + 110).subrange(0, 6));
        assert(h.subrange(0, 6) =~= magic());
    }
    lemma_field(ino, e, a, off, 0);
    lemma_field(ino, e, a, off, 2);
    lemma_field(ino, e, a, off, 3);
    lemma_field(ino, e, a, off, 5);
    assert(a.subrange(off + 110, off + 110 + n) =~= e.name) by {
        assert forall|k: int| 0 <= k < n implies #[trigger] a.subrange(off + 110, off + 110 + n)[k]
            == e.name[k] by {
            assert(a[off + (110 + k)] == m[110 + k]);
            assert(m[110 + k] == body[110 + k]);
            assert(body[110 + k] == head[110 + k]);
        }
    }
    let data = data_offset(off, e);
    assert(data == off + ds);
    assert forall|k: int| off + 110 + n <= k < data implies #[trigger] a[k] == 0 by {
        let j = k - off;
        assert(a[off + j] == m[j]);
        assert(m[j] == body[j]);
        assert(body[j] == padded(head)[j]);
        if j == 110 + n {
            assert(head[j] == 0);
        }
    }
    assert(a.subrange(data, data + e.data.len()) =~= e.data) by {
        assert forall|k: int| 0 <= k < e.data.len() implies #[trigger] a.subrange(
            data,
            data + e.data.len(),
        )[k] == e.data[k] by {
            assert(a[off + (ds + k)] == m[ds + k]);
            assert(m[ds + k] == body[ds + k]);
        }
    }
    assert forall|k: int|
        data + e.data.len() <= k < align4(data + e.data.len()) implies #[trigger] a[k] == 0 by {
        let j = k - off;
        assert(a[off + j] == m[j]);
    }
}

/// The members of an archive are numbered from one, in order, and stand one
/// behind the other, every part on a multiple of four; the trailer follows the
/// last of them, and nothing follows the trailer.
pub proof fn members_are_numbered_and_aligned(entries: Seq<EntryView>, i: int)
    requires
        0 <= i < entries.len() < u32::MAX,
    ensures
        ({
            let a = archive(entries);
            let at = members(entries.take(i)).len() as int;
            let last = members(entries).len() as int;
            let e = entries[i];
            &&& laid_out(a, at, i + 1, e)
            &&& align4(data_offset(at, e) + e.data.len()) == members(entries.take(i + 1)).len()
            &&& laid_out(a, last, 0, trailer())
            &&& align4(data_offset(last, trailer())) == a.len()
        }),
{
    let a = archive(entries);
    let pre = members(entries.take(i));
    let e = entries[i];
    let upto = entries.take(i + 1);
    let m = member((i + 1) as u32, e);
    let t = trailer();
    lemma_members_len(entries);
    lemma_members_len(entries.take(i));
    lemma_members_prefix(entries, i + 1);
    assert(upto.drop_last() =~= entries.take(i));
    assert(members(upto) == pre + m);
    assert(a.subrange(pre.len() as int, pre.len() as int + m.len()) =~= m) by {
        let all = members(entries);
        assert(all.take(members(upto).len() as int) == pre + m);
        assert forall|k: int| 0 <= k < m.len() implies #[trigger] a.subrange(
            pre.len() as int,
            pre.len() as int + m.len(),
        )[k] == m[k] by {
            assert(all.take(members(upto).len() as int)[pre.len() + k] == (pre + m)[pre.len() + k]);
        }
    }
    lemma_laid_out(a, pre.len() as int, (i + 1) as u32, e);
    let end = members(entries).len() as int;
    assert(a.subrange(end, end + member(0, t).len()) =~= member(0, t));
    lemma_laid_out(a, end, 0, t);
}

} // verus!
