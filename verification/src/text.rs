//! Building the human-readable texts of errors and messages.
use vstd::prelude::*;

verus! {

/// The character of a decimal digit.
pub open spec fn digit_char(d: nat) -> char {
    (48 + d) as char
}

/// The decimal representation of `n`, without leading zeros.
pub open spec fn decimal(n: nat) -> Seq<char>
    decreases n,
{
    if n < 10 {
        seq![digit_char(n)]
    } else {
        decimal(n / 10).push(digit_char(n % 10))
    }
}

/// The dotted-quad form of an IPv4 address held in a 32-bit number.
pub open spec fn dotted_quad(a: u32) -> Seq<char> {
    decimal((a / 16777216) as nat) + seq!['.'] + decimal(((a / 65536) % 256) as nat) + seq!['.']
        + decimal(((a / 256) % 256) as nat) + seq!['.'] + decimal((a % 256) as nat)
}

/// The string made of the characters `cs`.
#[verifier::external_body]
pub(crate) fn string_from_chars(cs: &Vec<char>) -> (r: String)
    ensures
        r@ == cs@,
{
    cs.iter().collect()
}

/// Appends the characters of `s` to `out`.
pub fn push_str(out: &mut Vec<char>, s: &str)
    ensures
        final(out)@ == old(out)@ + s@,
{
    for c in it: s.chars()
        invariant
            it.seq() == s@,
            out@ == old(out)@ + s@.take(it.index()),
    {
        proof {
            assert(s@.take(it.index() + 1) =~= s@.take(it.index()).push(c));
        }
        out.push(c);
    }
    assert(s@.take(s@.len() as int) =~= s@);
}

/// Appends the decimal representation of `n` to `out`.
pub fn push_decimal(out: &mut Vec<char>, n: u64)
    ensures
        final(out)@ == old(out)@ + decimal(n as nat),
    decreases n,
{
    if n >= 10 {
        push_decimal(out, n / 10);
    }
    let d: u8 = (n % 10) as u8;
    out.push((48u8 + d) as char);
    proof {
        if n < 10 {
            assert(old(out)@ + decimal(n as nat) =~= old(out)@.push(digit_char(n as nat)));
        } else {
            assert(old(out)@ + decimal(n as nat) =~= (old(out)@ + decimal((n / 10) as nat)).push(
                digit_char((n % 10) as nat),
            ));
        }
    }
}

/// Appends the dotted-quad form of `a` to `out`.
pub fn push_dotted_quad(out: &mut Vec<char>, a: u32)
    ensures
        final(out)@ == old(out)@ + dotted_quad(a),
{
    push_decimal(out, (a / 16777216) as u64);
    out.push('.');
    push_decimal(out, ((a / 65536) % 256) as u64);
    out.push('.');
    push_decimal(out, ((a / 256) % 256) as u64);
    out.push('.');
    push_decimal(out, (a % 256) as u64);
    assert(out@ =~= old(out)@ + dotted_quad(a));
}

} // verus!
