//! Building strings: one character at a time, and numbers in decimal and
//! hexadecimal as `format!` writes them.
use vstd::prelude::*;

verus! {

/// Appends one character, as `String::push` does.
#[verifier::external_body]
pub(crate) fn push_char(s: &mut String, c: char)
    ensures
        final(s)@ == old(s)@.push(c),
{
    s.push(c);
}

/// A string holding the given characters.
pub fn string_of_chars(chars: &Vec<char>) -> (r: String)
    ensures
        r@ == chars@,
{
    let mut r = String::new();
    let mut i: usize = 0;
    while i < chars.len()
        invariant
            i <= chars.len(),
            r@ == chars@.take(i as int),
        decreases chars.len() - i,
    {
        push_char(&mut r, chars[i]);
        proof {
            assert(chars@.take(i + 1) =~= chars@.take(i as int).push(chars@[i as int]));
        }
        i = i + 1;
    }
    assert(chars@.take(i as int) =~= chars@);
    r
}

/// The digit character of `d` in base 16, lowercase.
pub open spec fn digit_char(d: int) -> char {
    if d < 10 {
        ((48 + d) as u32) as char
    } else {
        ((87 + d) as u32) as char
    }
}

/// The digits of `n` in base `b`, most significant first, with no leading
/// zeros; `0` is written as a single `0`.
pub open spec fn digits(n: nat, b: nat) -> Seq<char>
    decreases n,
{
    if n < b || b < 2 {
        seq![digit_char(n as int)]
    } else {
        proof {
            assert(n / b < n) by (nonlinear_arith)
                requires n >= b, b >= 2;
        }
        digits(n / b, b).push(digit_char((n % b) as int))
    }
}

fn digit_of(d: u64) -> (c: char)
    requires
        d < 16,
    ensures
        c == digit_char(d as int),
{
    if d < 10 {
        let v: u32 = (48 + d) as u32;
        proof { assert(v == 48 + d); }
        char_from_ascii(v)
    } else {
        let v: u32 = (87 + d) as u32;
        char_from_ascii(v)
    }
}

/// The ASCII character with code `v`.
fn char_from_ascii(v: u32) -> (c: char)
    requires
        v < 128,
    ensures
        c == v as char,
{
    v as u8 as char
}

/// `n` written in base `b` (10 or 16, lowercase), as `format!` writes it
/// with `{}` and `{:x}`.
pub fn format_radix(n: u64, b: u64) -> (r: String)
    requires
        b == 10 || b == 16,
    ensures
        r@ == digits(n as nat, b as nat),
{
    // digits, least significant first
    let mut rev: Vec<char> = Vec::new();
    let mut m: u64 = n;
    let ghost mut tail: Seq<char> = Seq::empty();
    while m >= b
        invariant
            b == 10 || b == 16,
            digits(n as nat, b as nat) == digits(m as nat, b as nat) + tail,
            rev@ == tail.reverse(),
        decreases m,
    {
        let d = m % b;
        let c = digit_of(d);
        proof {
            assert(digits(m as nat, b as nat) == digits((m / b) as nat, b as nat).push(digit_char(d as int)));
            assert(digits((m / b) as nat, b as nat).push(c) + tail =~= digits((m / b) as nat, b as nat) + seq![c].add(tail));
            assert(seq![c].add(tail).reverse() =~= tail.reverse().push(c));
            tail = seq![c].add(tail);
        }
        rev.push(c);
        m = m / b;
    }
    let c = digit_of(m);
    proof {
        assert(digits(m as nat, b as nat) == seq![c]);
        assert(seq![c].add(tail).reverse() =~= tail.reverse().push(c));
        tail = seq![c].add(tail);
    }
    rev.push(c);
    assert(digits(n as nat, b as nat) =~= tail);
    let mut out: Vec<char> = Vec::new();
    let mut i: usize = rev.len();
    while i > 0
        invariant
            i <= rev.len(),
            rev@ == tail.reverse(),
            out@ == tail.subrange(0, (rev.len() - i) as int),
        decreases i,
    {
        i = i - 1;
        out.push(rev[i]);
        proof {
            assert(out@ =~= tail.subrange(0, (rev.len() - i) as int));
        }
    }
    assert(out@ =~= tail);
    string_of_chars(&out)
}

} // verus!
