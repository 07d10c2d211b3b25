//! Text handling: sanitizing free-text fields before template
//! substitution, and decimal rendering of the displayed time.

use vstd::prelude::*;
use vstd::string::StrSliceExecFns;
use vstd::string::StringExecFns;

verus! {

/// What sanitizing does to one character: newline and carriage return
/// become a space; double quote, backslash and underscore are dropped;
/// every other character stays.
pub open spec fn clean_char(c: char) -> Seq<char> {
    if c == '\n' || c == '\r' {
        seq![' ']
    } else if c == '"' || c == '\\' || c == '_' {
        seq![]
    } else {
        seq![c]
    }
}

/// The sanitized form of a text: each character replaced by its
/// `clean_char` image, in order.
pub open spec fn cleaned(s: Seq<char>) -> Seq<char>
    decreases s.len(),
{
    if s.len() == 0 {
        seq![]
    } else {
        cleaned(s.drop_last()) + clean_char(s.last())
    }
}

/// Sanitize a free-text field for the template: newlines and carriage
/// returns become spaces; double quotes, backslashes and underscores are
/// removed.
pub fn clean_string(data: &String) -> (r: String)
    ensures
        r@ == cleaned(data@),
{
    let s = data.as_str();
    let n = s.unicode_len();
    let mut out = String::new();
    let mut i: usize = 0;
    while i < n
        invariant
            n == s@.len(),
            s@ == data@,
            i <= n,
            out@ == cleaned(s@.take(i as int)),
        decreases n - i,
    {
        let c = s.get_char(i);
        proof {
            assert(s@.take(i + 1).drop_last() =~= s@.take(i as int));
            assert(s@.take(i + 1).last() == s@[i as int]);
        }
        if c == '\n' || c == '\r' {
            out.append(" ");
            proof {
                reveal_strlit(" ");
                assert(" "@ =~= clean_char(c));
            }
        } else if c == '"' || c == '\\' || c == '_' {
            proof {
                assert(out@ + clean_char(c) =~= out@);
            }
        } else {
            let piece = s.substring_char(i, i + 1);
            out.append(piece);
            proof {
                assert(piece@ =~= clean_char(c));
            }
        }
        i += 1;
    }
    proof {
        assert(s@.take(n as int) =~= s@);
    }
    out
}

/// The character of one decimal digit.
pub open spec fn digit_char(d: nat) -> char {
    if d == 0 {
        '0'
    } else if d == 1 {
        '1'
    } else if d == 2 {
        '2'
    } else if d == 3 {
        '3'
    } else if d == 4 {
        '4'
    } else if d == 5 {
        '5'
    } else if d == 6 {
        '6'
    } else if d == 7 {
        '7'
    } else if d == 8 {
        '8'
    } else {
        '9'
    }
}

/// The decimal form of a number, most significant digit first, no leading
/// zeros (a lone zero for 0).
pub open spec fn dec_of(n: nat) -> Seq<char>
    decreases n,
{
    if n < 10 {
        seq![digit_char(n)]
    } else {
        dec_of(n / 10) + seq![digit_char(n % 10)]
    }
}

/// Append the decimal form of `n` to `out`.
fn push_decimal(out: &mut String, n: u32)
    ensures
        final(out)@ == old(out)@ + dec_of(n as nat),
    decreases n,
{
    let ghost before = out@;
    let d = n % 10;
    if n >= 10 {
        push_decimal(out, n / 10);
    }
    let digits = "0123456789";
    proof {
        reveal_strlit("0123456789");
    }
    let c = digits.substring_char(d as usize, d as usize + 1);
    out.append(c);
    proof {
        assert(c@ =~= seq![digit_char(d as nat)]);
        if n >= 10 {
            assert(before + dec_of((n / 10) as nat) + seq![digit_char(d as nat)] =~= before
                + dec_of(n as nat));
        } else {
            assert(before + seq![digit_char(d as nat)] =~= before + dec_of(n as nat));
        }
    }
}

/// The decimal form of a number as a string.
pub fn u32_string(n: u32) -> (r: String)
    ensures
        r@ == dec_of(n as nat),
{
    let mut out = String::new();
    push_decimal(&mut out, n);
    proof {
        assert(Seq::<char>::empty() + dec_of(n as nat) =~= dec_of(n as nat));
    }
    out
}

/// The "H:M" label of a requested time, as it goes into the template:
/// both numbers in decimal, separated by a colon, not zero-padded.
pub open spec fn time_label(h: u32, m: u32) -> Seq<char> {
    dec_of(h as nat) + seq![':'] + dec_of(m as nat)
}

/// Format the "H:M" label of a requested time.
pub fn time_string(h: u32, m: u32) -> (r: String)
    ensures
        r@ == time_label(h, m),
{
    let mut out = String::new();
    push_decimal(&mut out, h);
    out.append(":");
    push_decimal(&mut out, m);
    proof {
        reveal_strlit(":");
        assert(":"@ =~= seq![':']);
        assert(Seq::<char>::empty() + dec_of(h as nat) + ":"@ + dec_of(m as nat) =~= time_label(
            h,
            m,
        ));
    }
    out
}

} // verus!
