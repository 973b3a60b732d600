//! Unix permission bits rendered as the nine-character `rwxrwxrwx` display.

use vstd::prelude::*;

verus! {

/// The character a permission bit shows: its letter when set, a dash when
/// clear.
pub open spec fn bit_char(mode: u32, bit: u32, c: char) -> char {
    if mode & bit != 0 {
        c
    } else {
        '-'
    }
}

/// The nine-character display of a mode: read, write and execute for user,
/// group and other, in that order.
pub open spec fn mode_display(mode: u32) -> Seq<char> {
    seq![
        bit_char(mode, 0o400, 'r'),
        bit_char(mode, 0o200, 'w'),
        bit_char(mode, 0o100, 'x'),
        bit_char(mode, 0o040, 'r'),
        bit_char(mode, 0o020, 'w'),
        bit_char(mode, 0o010, 'x'),
        bit_char(mode, 0o004, 'r'),
        bit_char(mode, 0o002, 'w'),
        bit_char(mode, 0o001, 'x'),
    ]
}

/// Formats a mode as its nine-character display.
pub fn format_mode(mode: u32) -> (r: String)
    ensures
        r@ == mode_display(mode),
{
    proof {
        reveal_strlit("r");
        reveal_strlit("w");
        reveal_strlit("x");
        reveal_strlit("-");
    }
    let mut out = String::new();
    out.append(if mode & 0o400 != 0 { "r" } else { "-" });
    out.append(if mode & 0o200 != 0 { "w" } else { "-" });
    out.append(if mode & 0o100 != 0 { "x" } else { "-" });
    out.append(if mode & 0o040 != 0 { "r" } else { "-" });
    out.append(if mode & 0o020 != 0 { "w" } else { "-" });
    out.append(if mode & 0o010 != 0 { "x" } else { "-" });
    out.append(if mode & 0o004 != 0 { "r" } else { "-" });
    out.append(if mode & 0o002 != 0 { "w" } else { "-" });
    out.append(if mode & 0o001 != 0 { "x" } else { "-" });
    proof {
        assert(out@ =~= mode_display(mode));
    }
    out
}

} // verus!
