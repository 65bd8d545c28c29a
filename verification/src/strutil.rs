//! Small string and tag utilities used across the pipeline.
//!
//! Axis tags are four ASCII characters; internally the library packs them
//! into a big-endian `u32` so that coordinate lists can be ordered and
//! compared without string machinery.

use vstd::prelude::*;
use vstd::string::StrSliceExecFns;
use vstd::string::StringExecFns;

verus! {

/// Compare two string slices for character-sequence equality.
pub fn str_eq(a: &str, b: &str) -> (r: bool)
    ensures
        r == (a@ == b@),
{
    let na = a.unicode_len();
    let nb = b.unicode_len();
    if na != nb {
        assert(a@ != b@);
        return false;
    }
    let mut i: usize = 0;
    while i < na
        invariant
            i <= na,
            na == a@.len(),
            na == b@.len(),
            forall|j: int| 0 <= j < i ==> a@[j] == b@[j],
        decreases na - i,
    {
        let ca = a.get_char(i);
        let cb = b.get_char(i);
        if ca != cb {
            assert(a@ != b@);
            return false;
        }
        i = i + 1;
    }
    assert(a@ =~= b@);
    true
}

/// The lower-cased code of an ASCII letter; other characters pass through.
pub open spec fn lowered(c: char) -> u32 {
    if 0x41 <= (c as u32) && (c as u32) <= 0x5A {
        ((c as u32) + 0x20) as u32
    } else {
        c as u32
    }
}

/// Lower-case an ASCII letter's code in executable code.
pub fn lowered_code(c: char) -> (r: u32)
    ensures
        r == lowered(c),
{
    let u = c as u32;
    if 0x41 <= u && u <= 0x5A {
        u + 0x20
    } else {
        u
    }
}

/// A character usable in a packed axis tag: printable ASCII.
pub open spec fn tag_char_ok(c: char) -> bool {
    0x20 <= (c as u32) && (c as u32) <= 0x7E
}

/// The packed form of a four-character tag: big-endian character codes.
pub open spec fn packed_tag(s: Seq<char>) -> u32
    recommends
        s.len() == 4,
{
    (((s[0] as u32) % 256) * 0x1000000 + ((s[1] as u32) % 256) * 0x10000 + ((s[2] as u32) % 256)
        * 0x100 + ((s[3] as u32) % 256)) as u32
}

/// Whether a tag string packs: exactly four printable ASCII characters.
pub open spec fn tag_packs(s: Seq<char>) -> bool {
    &&& s.len() == 4
    &&& forall|i: int| 0 <= i < 4 ==> tag_char_ok(s[i])
}

/// Pack a four-character ASCII tag into a big-endian `u32`. Returns `None`
/// exactly when the string is not four printable ASCII characters.
pub fn pack_tag(s: &str) -> (r: Option<u32>)
    ensures
        r is Some <==> tag_packs(s@),
        r is Some ==> r->0 == packed_tag(s@),
{
    let n = s.unicode_len();
    if n != 4 {
        return None;
    }
    let c0 = s.get_char(0);
    let c1 = s.get_char(1);
    let c2 = s.get_char(2);
    let c3 = s.get_char(3);
    let u0 = c0 as u32;
    let u1 = c1 as u32;
    let u2 = c2 as u32;
    let u3 = c3 as u32;
    if u0 < 0x20 || u0 > 0x7E || u1 < 0x20 || u1 > 0x7E || u2 < 0x20 || u2 > 0x7E || u3 < 0x20
        || u3 > 0x7E {
        assert(!tag_packs(s@)) by {
            assert(!(tag_char_ok(s@[0]) && tag_char_ok(s@[1]) && tag_char_ok(s@[2]) && tag_char_ok(
                s@[3],
            )));
        }
        return None;
    }
    assert(u0 % 256 == u0 && u1 % 256 == u1 && u2 % 256 == u2 && u3 % 256 == u3);
    Some(u0 * 0x1000000 + u1 * 0x10000 + u2 * 0x100 + u3)
}

/// The character for one decimal digit.
pub open spec fn digit_char(d: int) -> char
    recommends
        0 <= d <= 9,
{
    if d == 0 {
        '0'
    } else if d == 1 {
        '1'
    } else if d == 2 {
        '2'
    } else if d == 3 {
        '3'
    } else if d == 4 {
        '4'
    } else if d == 5 {
        '5'
    } else if d == 6 {
        '6'
    } else if d == 7 {
        '7'
    } else if d == 8 {
        '8'
    } else {
        '9'
    }
}

/// Decimal digits of a non-negative number as characters, most significant
/// first, with no leading zeros.
pub open spec fn decimal_chars(n: int) -> Seq<char>
    recommends
        n >= 0,
    decreases n,
{
    if n < 10 {
        seq![digit_char(n)]
    } else {
        decimal_chars(n / 10).push(digit_char(n % 10))
    }
}

/// Append one decimal digit character to a string.
fn append_digit(d: u64, out: &mut String)
    requires
        d <= 9,
    ensures
        final(out)@ == old(out)@ + seq![digit_char(d as int)],
{
    proof {
        reveal_strlit("0");
        reveal_strlit("1");
        reveal_strlit("2");
        reveal_strlit("3");
        reveal_strlit("4");
        reveal_strlit("5");
        reveal_strlit("6");
        reveal_strlit("7");
        reveal_strlit("8");
        reveal_strlit("9");
    }
    if d == 0 {
        out.append("0");
        proof {
            assert(final(out)@ =~= old(out)@ + seq![digit_char(d as int)]);
        }
    } else if d == 1 {
        out.append("1");
        proof {
            assert(final(out)@ =~= old(out)@ + seq![digit_char(d as int)]);
        }
    } else if d == 2 {
        out.append("2");
        proof {
            assert(final(out)@ =~= old(out)@ + seq![digit_char(d as int)]);
        }
    } else if d == 3 {
        out.append("3");
        proof {
            assert(final(out)@ =~= old(out)@ + seq![digit_char(d as int)]);
        }
    } else if d == 4 {
        out.append("4");
        proof {
            assert(final(out)@ =~= old(out)@ + seq![digit_char(d as int)]);
        }
    } else if d == 5 {
        out.append("5");
        proof {
            assert(final(out)@ =~= old(out)@ + seq![digit_char(d as int)]);
        }
    } else if d == 6 {
        out.append("6");
        proof {
            assert(final(out)@ =~= old(out)@ + seq![digit_char(d as int)]);
        }
    } else if d == 7 {
        out.append("7");
        proof {
            assert(final(out)@ =~= old(out)@ + seq![digit_char(d as int)]);
        }
    } else if d == 8 {
        out.append("8");
        proof {
            assert(final(out)@ =~= old(out)@ + seq![digit_char(d as int)]);
        }
    } else {
        out.append("9");
        proof {
            assert(final(out)@ =~= old(out)@ + seq![digit_char(d as int)]);
        }
    }
}

/// Append the decimal digits of a number to a string.
pub fn append_decimal(n: u64, out: &mut String)
    ensures
        final(out)@ == old(out)@ + decimal_chars(n as int),
    decreases n,
{
    if n < 10 {
        append_digit(n, out);
    } else {
        append_decimal(n / 10, out);
        append_digit(n % 10, out);
        proof {
            assert(final(out)@ =~= old(out)@ + decimal_chars(n as int));
        }
    }
}

} // verus!
