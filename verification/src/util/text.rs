use vstd::prelude::*;
use vstd::string::*;

verus! {

/// The ASCII digit for a value below ten.
pub open spec fn digit_char(d: nat) -> char {
    (('0' as u32) + d) as char
}

/// The decimal representation of `n`, without leading zeros ("0" for zero).
pub open spec fn decimal(n: nat) -> Seq<char>
    decreases n,
{
    if n < 10 {
        seq![digit_char(n)]
    } else {
        decimal(n / 10).push(digit_char(n % 10))
    }
}

/// Appends one character to a string.
#[verifier::external_body]
pub fn push_char(s: &mut String, c: char)
    ensures
        final(s)@ == old(s)@.push(c),
{
    s.push(c);
}

/// Appends a string slice to a string.
pub fn push_str(s: &mut String, t: &str)
    ensures
        final(s)@ == old(s)@ + t@,
{
    s.append(t);
}

/// A string holding exactly the given characters.
pub fn string_from_chars(cs: &[char]) -> (r: String)
    ensures
        r@ == cs@,
{
    let mut r = String::new();
    let mut i: usize = 0;
    while i < cs.len()
        invariant
            i <= cs@.len(),
            r@ == cs@.take(i as int),
        decreases cs@.len() - i,
    {
        push_char(&mut r, cs[i]);
        proof {
            assert(cs@.take(i + 1) =~= cs@.take(i as int).push(cs@[i as int]));
        }
        i = i + 1;
    }
    proof {
        assert(cs@.take(cs@.len() as int) =~= cs@);
    }
    r
}

/// The characters of a string slice.
pub fn chars_of(s: &str) -> (r: Vec<char>)
    ensures
        r@ == s@,
{
    let n = s.unicode_len();
    let mut r: Vec<char> = Vec::new();
    let mut i: usize = 0;
    while i < n
        invariant
            n == s@.len(),
            i <= n,
            r@ == s@.take(i as int),
        decreases n - i,
    {
        let c = s.get_char(i);
        r.push(c);
        proof {
            assert(s@.take(i + 1) =~= s@.take(i as int).push(c));
        }
        i = i + 1;
    }
    proof {
        assert(s@.take(n as int) =~= s@);
    }
    r
}

/// Whether a string slice spells exactly the given characters.
pub fn str_eq_chars(lit: &str, cs: &[char]) -> (r: bool)
    ensures
        r == (lit@ == cs@),
{
    let n = lit.unicode_len();
    if n != cs.len() {
        return false;
    }
    let mut i: usize = 0;
    while i < n
        invariant
            n == lit@.len(),
            n == cs@.len(),
            i <= n,
            forall|j: int| 0 <= j < i ==> lit@[j] == cs@[j],
        decreases n - i,
    {
        if lit.get_char(i) != cs[i] {
            return false;
        }
        i = i + 1;
    }
    proof {
        assert(lit@ =~= cs@);
    }
    true
}

/// The decimal representation of a number.
pub fn usize_to_string(n: usize) -> (r: String)
    ensures
        r@ == decimal(n as nat),
{
    let mut digits: Vec<char> = Vec::new();
    let mut m: usize = n;
    // digits holds the low-order digits of n, least significant first
    while m >= 10
        invariant
            decimal(n as nat) == decimal(m as nat) + digits@.reverse(),
        decreases m,
    {
        let c = char_of_digit(m % 10);
        proof {
            assert(decimal(m as nat) == decimal((m / 10) as nat).push(digit_char((m % 10) as nat)));
            assert(decimal(m as nat) + digits@.reverse() =~= decimal((m / 10) as nat) + digits@.push(c).reverse());
        }
        digits.push(c);
        m = m / 10;
    }
    let c = char_of_digit(m);
    proof {
        assert(decimal(m as nat) == seq![c]);
        assert(decimal(m as nat) + digits@.reverse() =~= digits@.push(c).reverse());
    }
    digits.push(c);
    let mut r = String::new();
    let mut i: usize = digits.len();
    while i > 0
        invariant
            i <= digits@.len(),
            r@ == digits@.skip(i as int).reverse(),
        decreases i,
    {
        i = i - 1;
        push_char(&mut r, digits[i]);
        proof {
            assert(digits@.skip(i as int) =~= seq![digits@[i as int]] + digits@.skip(i + 1));
            assert(digits@.skip(i as int).reverse() =~= digits@.skip(i + 1).reverse().push(digits@[i as int]));
        }
    }
    proof {
        assert(digits@.skip(0) =~= digits@);
    }
    r
}

fn char_of_digit(d: usize) -> (c: char)
    requires
        d < 10,
    ensures
        c == digit_char(d as nat),
{
    let c = ('0' as u32 + d as u32) as u8 as char;
    proof {
        assert(('0' as u32 + d as u32) < 128);
    }
    c
}

} // verus!
