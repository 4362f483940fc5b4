//! Decimal literals: the numeric tokens of geometry and material text.
//!
//! The grammar is that of the standard library's conversion from text to
//! binary floating point, so every literal accepted here converts:
//!
//! ```text
//! Literal ::= Sign? ( 'inf' | 'infinity' | 'nan' | Number )
//! Number  ::= ( Digit+ | Digit+ '.' Digit* | Digit* '.' Digit+ ) Exp?
//! Exp     ::= 'e' Sign? Digit+
//! Sign    ::= [+-]
//! Digit   ::= [0-9]
//! ```
//!
//! Letters match in either case. The library carries literals around as
//! text and never computes with the numbers they denote.

use vstd::prelude::*;
use vstd::slice::slice_to_vec;

verus! {

/// Whether a byte is one of the digits `0` to `9`.
pub open spec fn is_digit(b: u8) -> bool {
    0x30 <= b && b <= 0x39
}

/// The lower-case form of an ASCII letter; any other byte is unchanged.
pub open spec fn lower(b: u8) -> u8 {
    if 0x41 <= b && b <= 0x5a {
        (b + 0x20) as u8
    } else {
        b
    }
}

/// The end of the run of digits that starts at `i`.
pub open spec fn digits_end(s: Seq<u8>, i: int) -> int
    decreases s.len() - i,
{
    if 0 <= i && i < s.len() && is_digit(s[i]) {
        digits_end(s, i + 1)
    } else {
        i
    }
}

/// A run of digits ends at or after its start and within the text.
pub proof fn lemma_digits_end_bounds(s: Seq<u8>, i: int)
    requires
        0 <= i <= s.len(),
    ensures
        i <= digits_end(s, i) <= s.len(),
    decreases s.len() - i,
{
    if i < s.len() && is_digit(s[i]) {
        lemma_digits_end_bounds(s, i + 1);
    }
}

/// 1 where a sign stands at `i`, else 0.
pub open spec fn sign_width(s: Seq<u8>, i: int) -> int {
    if 0 <= i && i < s.len() && (s[i] == 0x2b || s[i] == 0x2d) {
        1
    } else {
        0
    }
}

/// Whether `s` from `a` on is `inf`, in any case.
pub open spec fn spells_inf(s: Seq<u8>, a: int) -> bool {
    &&& s.len() - a == 3
    &&& lower(s[a]) == 0x69
    &&& lower(s[a + 1]) == 0x6e
    &&& lower(s[a + 2]) == 0x66
}

/// Whether `s` from `a` on is `infinity`, in any case.
pub open spec fn spells_infinity(s: Seq<u8>, a: int) -> bool {
    &&& s.len() - a == 8
    &&& lower(s[a]) == 0x69
    &&& lower(s[a + 1]) == 0x6e
    &&& lower(s[a + 2]) == 0x66
    &&& lower(s[a + 3]) == 0x69
    &&& lower(s[a + 4]) == 0x6e
    &&& lower(s[a + 5]) == 0x69
    &&& lower(s[a + 6]) == 0x74
    &&& lower(s[a + 7]) == 0x79
}

/// Whether `s` from `a` on is `nan`, in any case.
pub open spec fn spells_nan(s: Seq<u8>, a: int) -> bool {
    &&& s.len() - a == 3
    &&& lower(s[a]) == 0x6e
    &&& lower(s[a + 1]) == 0x61
    &&& lower(s[a + 2]) == 0x6e
}

/// Whether `s` from `c` on is an exponent: `e`, a sign or none, and digits
/// to the end, at least one.
pub open spec fn is_exponent(s: Seq<u8>, c: int) -> bool {
    let d = c + 1 + sign_width(s, c + 1);
    &&& 0 <= c && c < s.len()
    &&& (s[c] == 0x65 || s[c] == 0x45)
    &&& d < s.len()
    &&& digits_end(s, d) == s.len()
}

/// Whether `s` from `a` on is a number: digits with at most one point among
/// them, at least one digit before or after it, then an exponent or nothing.
pub open spec fn is_number(s: Seq<u8>, a: int) -> bool {
    let b = digits_end(s, a);
    let pointed = b < s.len() && s[b] == 0x2e;
    let c = if pointed {
        digits_end(s, b + 1)
    } else {
        b
    };
    let digits = if pointed {
        (b - a) + (c - (b + 1))
    } else {
        b - a
    };
    &&& digits >= 1
    &&& (c == s.len() || is_exponent(s, c))
}

/// Whether `s` is a decimal literal.
pub open spec fn is_decimal(s: Seq<u8>) -> bool {
    let a = sign_width(s, 0);
    spells_inf(s, a) || spells_infinity(s, a) || spells_nan(s, a) || is_number(s, a)
}

/// Whether every one of `tokens` is a decimal literal.
pub open spec fn all_decimal(tokens: Seq<Seq<u8>>) -> bool {
    forall|i: int| 0 <= i < tokens.len() ==> is_decimal(#[trigger] tokens[i])
}

/// The text `0.0`.
pub open spec fn zero_text() -> Seq<u8> {
    seq![0x30u8, 0x2eu8, 0x30u8]
}

/// The text `1.0`.
pub open spec fn one_text() -> Seq<u8> {
    seq![0x31u8, 0x2eu8, 0x30u8]
}

/// The texts `0.0` and `1.0` are decimal literals.
pub proof fn lemma_defaults_are_decimal()
    ensures
        is_decimal(zero_text()),
        is_decimal(one_text()),
{
    reveal_with_fuel(digits_end, 4);
}

fn lower_byte(b: u8) -> (r: u8)
    ensures
        r == lower(b),
{
    if 0x41 <= b && b <= 0x5a {
        b + 0x20
    } else {
        b
    }
}

fn scan_digits(s: &[u8], start: usize) -> (end: usize)
    requires
        start <= s.len(),
    ensures
        end == digits_end(s@, start as int),
        start <= end <= s.len(),
{
    let n: usize = s.len();
    let mut i: usize = start;
    while i < n && 0x30 <= s[i] && s[i] <= 0x39
        invariant
            start <= i <= n,
            n == s.len(),
            digits_end(s@, start as int) == digits_end(s@, i as int),
        decreases n - i,
    {
        i += 1;
    }
    i
}

fn is_special(s: &[u8], a: usize) -> (r: bool)
    requires
        a <= s.len(),
    ensures
        r == (spells_inf(s@, a as int) || spells_infinity(s@, a as int) || spells_nan(
            s@,
            a as int,
        )),
{
    let n: usize = s.len();
    if n - a == 3 {
        let x: u8 = lower_byte(s[a]);
        let y: u8 = lower_byte(s[a + 1]);
        let z: u8 = lower_byte(s[a + 2]);
        (x == 0x69 && y == 0x6e && z == 0x66) || (x == 0x6e && y == 0x61 && z == 0x6e)
    } else if n - a == 8 {
        lower_byte(s[a]) == 0x69 && lower_byte(s[a + 1]) == 0x6e && lower_byte(s[a + 2]) == 0x66
            && lower_byte(s[a + 3]) == 0x69 && lower_byte(s[a + 4]) == 0x6e && lower_byte(
            s[a + 5],
        ) == 0x69 && lower_byte(s[a + 6]) == 0x74 && lower_byte(s[a + 7]) == 0x79
    } else {
        false
    }
}

fn is_exponent_at(s: &[u8], c: usize) -> (r: bool)
    requires
        c < s.len(),
    ensures
        r == is_exponent(s@, c as int),
{
    let n: usize = s.len();
    if s[c] != 0x65 && s[c] != 0x45 {
        return false;
    }
    let mut d: usize = c + 1;
    if d < n && (s[d] == 0x2b || s[d] == 0x2d) {
        d += 1;
    }
    if d >= n {
        return false;
    }
    scan_digits(s, d) == n
}

/// Decides whether a token is a decimal literal.
pub fn is_decimal_literal(s: &[u8]) -> (r: bool)
    ensures
        r == is_decimal(s@),
{
    let n: usize = s.len();
    let a: usize = if n > 0 && (s[0] == 0x2b || s[0] == 0x2d) {
        1
    } else {
        0
    };
    if is_special(s, a) {
        return true;
    }
    let b: usize = scan_digits(s, a);
    let pointed: bool = b < n && s[b] == 0x2e;
    let c: usize = if pointed {
        scan_digits(s, b + 1)
    } else {
        b
    };
    let digits: usize = if pointed {
        (b - a) + (c - (b + 1))
    } else {
        b - a
    };
    if digits < 1 {
        return false;
    }
    if c == n {
        true
    } else {
        is_exponent_at(s, c)
    }
}

/// A decimal literal, kept as its text.
pub struct Numeral {
    text: Vec<u8>,
}

impl View for Numeral {
    type V = Seq<u8>;

    closed spec fn view(&self) -> Seq<u8> {
        self.text@
    }
}

impl Numeral {
    #[verifier::type_invariant]
    spec fn well_formed(self) -> bool {
        is_decimal(self.text@)
    }

    /// Takes a token as a literal, where it is one.
    pub fn parse(token: &[u8]) -> (r: Option<Numeral>)
        ensures
            r is Some <==> is_decimal(token@),
            r matches Some(n) ==> n@ == token@,
    {
        if is_decimal_literal(token) {
            Some(Numeral { text: slice_to_vec(token) })
        } else {
            None
        }
    }

    /// The literal `0.0`.
    pub fn zero() -> (r: Numeral)
        ensures
            r@ == zero_text(),
    {
        let mut text: Vec<u8> = Vec::new();
        text.push(0x30);
        text.push(0x2e);
        text.push(0x30);
        proof {
            lemma_defaults_are_decimal();
            assert(text@ == zero_text());
        }
        Numeral { text }
    }

    /// The literal `1.0`.
    pub fn one() -> (r: Numeral)
        ensures
            r@ == one_text(),
    {
        let mut text: Vec<u8> = Vec::new();
        text.push(0x31);
        text.push(0x2e);
        text.push(0x30);
        proof {
            lemma_defaults_are_decimal();
            assert(text@ == one_text());
        }
        Numeral { text }
    }

    /// The text of the literal.
    pub fn as_bytes(&self) -> (r: &[u8])
        ensures
            r@ == self@,
            is_decimal(r@),
    {
        proof {
            use_type_invariant(self);
        }
        self.text.as_slice()
    }
}

impl Clone for Numeral {
    fn clone(&self) -> (r: Self)
        ensures
            r@ == self@,
    {
        proof {
            use_type_invariant(self);
        }
        Numeral { text: slice_to_vec(self.text.as_slice()) }
    }
}

} // verus!
