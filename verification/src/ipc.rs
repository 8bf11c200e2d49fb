//! Local sockets by path. Where there are none, a listener on the loopback
//! interface leaves its port in a file at that path.

use crate::text::{decimal_str, parse_u16, trim};
use vstd::prelude::*;

verus! {

/// What the file holds.
pub fn port_file(port: u16) -> (s: String)
    ensures
        s@ == crate::text::decimal(port as nat),
{
    decimal_str(port as u64)
}

/// The port that a file gives; none where it is no such file.
pub fn read_port_file(text: &str) -> (r: Option<u16>)
    ensures
        match r {
            Some(p) => crate::text::parse_dec(crate::text::trimmed(text@), u16::MAX as nat) == Some(
                p as nat,
            ),
            None => crate::text::parse_dec(
                crate::text::trimmed(text@),
                u16::MAX as nat,
            ) is None,
        },
{
    let t: String = trim(text);
    parse_u16(t.as_str())
}

/// A port that was left in a file is read back.
pub proof fn the_port_reads_back(port: u16)
    ensures
        crate::text::parse_dec(
            crate::text::trimmed(crate::text::decimal(port as nat)),
            u16::MAX as nat,
        ) == Some(port as nat),
{
    let s = crate::text::decimal(port as nat);
    crate::text::decimal_reads_back(port as nat);
    assert(crate::text::is_digit(s[0]));
    assert(crate::text::is_digit(s.last()));
    assert(crate::text::trimmed_start(s) == s);
    assert(crate::text::trimmed_end(s) == s);
}

} // verus!
