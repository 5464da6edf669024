use vstd::prelude::*;
use vstd::string::StrSliceExecFns;

verus! {

/// The character for one decimal digit.
pub open spec fn digit_char(d: int) -> char {
    if d == 0 {
        '0'
    } else if d == 1 {
        '1'
    } else if d == 2 {
        '2'
    } else if d == 3 {
        '3'
    } else if d == 4 {
        '4'
    } else if d == 5 {
        '5'
    } else if d == 6 {
        '6'
    } else if d == 7 {
        '7'
    } else if d == 8 {
        '8'
    } else {
        '9'
    }
}

/// The decimal digit string of an unsigned number, most significant digit
/// first, no leading zeroes except for the number zero itself.
pub open spec fn dec_u64(n: nat) -> Seq<char>
    decreases n,
{
    if n < 10 {
        seq![digit_char(n as int)]
    } else {
        dec_u64(n / 10).push(digit_char((n % 10) as int))
    }
}

/// The decimal digit string of a signed number: a minus sign followed by
/// the magnitude's digits when negative.
pub open spec fn dec_i64(n: int) -> Seq<char> {
    if n >= 0 {
        dec_u64(n as nat)
    } else {
        seq!['-'] + dec_u64((-n) as nat)
    }
}

fn digit_of(d: u64) -> (c: char)
    requires
        d < 10,
    ensures
        c == digit_char(d as int),
{
    if d == 0 {
        '0'
    } else if d == 1 {
        '1'
    } else if d == 2 {
        '2'
    } else if d == 3 {
        '3'
    } else if d == 4 {
        '4'
    } else if d == 5 {
        '5'
    } else if d == 6 {
        '6'
    } else if d == 7 {
        '7'
    } else if d == 8 {
        '8'
    } else {
        '9'
    }
}

/// The decimal digit characters of an unsigned number.
#[verifier::loop_isolation(false)]
pub fn u64_to_dec_chars(n: u64) -> (r: Vec<char>)
    ensures
        r@ == dec_u64(n as nat),
{
    let mut out: Vec<char> = Vec::new();
    let mut m: u64 = n;
    while m >= 10
        invariant
            dec_u64(n as nat) =~= dec_u64(m as nat) + out@,
        decreases m,
    {
        let d = digit_of(m % 10);
        out.insert(0, d);
        m = m / 10;
    }
    let d = digit_of(m);
    out.insert(0, d);
    proof {
        assert(out@ =~= dec_u64(n as nat)) by {
            assert(dec_u64(m as nat) =~= seq![digit_char(m as int)]);
        }
    }
    out
}

/// The decimal digit characters of a signed number.
pub fn i64_to_dec_chars(n: i64) -> (r: Vec<char>)
    ensures
        r@ == dec_i64(n as int),
{
    if n >= 0 {
        u64_to_dec_chars(n as u64)
    } else {
        let m: u64 = ((-(n as i128)) as u64);
        let mut out = u64_to_dec_chars(m);
        out.insert(0, '-');
        proof {
            assert(out@ =~= dec_i64(n as int));
        }
        out
    }
}

/// Relies on `String`'s `FromIterator<char>` implementation: collecting a
/// character vector gives the string holding exactly those characters.
#[verifier::external_body]
pub fn string_from_chars(v: &Vec<char>) -> (r: String)
    ensures
        r@ == v@,
{
    v.iter().collect()
}

/// The characters of a string slice, in order.
#[verifier::loop_isolation(false)]
pub fn chars_of_str(s: &str) -> (r: Vec<char>)
    ensures
        r@ == s@,
{
    let n = s.unicode_len();
    let mut out: Vec<char> = Vec::new();
    let mut i: usize = 0;
    while i < n
        invariant
            i <= n,
            out@ =~= s@.subrange(0, i as int),
        decreases n - i,
    {
        let c = s.get_char(i);
        out.push(c);
        i = i + 1;
    }
    proof {
        assert(out@ =~= s@);
    }
    out
}

/// A signed number's decimal representation as a string.
pub fn i64_to_string(n: i64) -> (r: String)
    ensures
        r@ == dec_i64(n as int),
{
    let chars = i64_to_dec_chars(n);
    string_from_chars(&chars)
}

/// An unsigned number's decimal representation as a string.
pub fn usize_to_string(n: usize) -> (r: String)
    ensures
        r@ == dec_u64(n as nat),
{
    let chars = u64_to_dec_chars(n as u64);
    string_from_chars(&chars)
}

} // verus!
