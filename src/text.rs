//! Character-level helpers: ASCII case folding and number rendering.

use vstd::prelude::*;

verus! {

/// An upper-case ASCII letter.
pub open spec fn is_ascii_upper(c: char) -> bool {
    'A' <= c && c <= 'Z'
}

/// Two characters are equal up to ASCII case.
pub open spec fn char_eq_ignore_ascii_case(a: char, b: char) -> bool {
    a == b || (is_ascii_upper(a) && a as u32 + 32 == b as u32) || (is_ascii_upper(b)
        && b as u32 + 32 == a as u32)
}

/// Two strings are equal up to ASCII case, character by character.
pub open spec fn eq_ignore_ascii_case(a: Seq<char>, b: Seq<char>) -> bool {
    a.len() == b.len() && forall|i: int|
        0 <= i < a.len() ==> #[trigger] char_eq_ignore_ascii_case(a[i], b[i])
}

/// Compares two characters ignoring ASCII case.
pub fn char_eq_ignore_case_exec(a: char, b: char) -> (r: bool)
    ensures
        r == char_eq_ignore_ascii_case(a, b),
{
    let x: u32 = a as u32;
    let y: u32 = b as u32;
    if x == y {
        true
    } else if 65 <= x && x <= 90 && x + 32 == y {
        true
    } else {
        65 <= y && y <= 90 && y + 32 == x
    }
}

/// Compares two strings ignoring ASCII case.
pub fn str_eq_ignore_ascii_case(a: &str, b: &str) -> (r: bool)
    ensures
        r == eq_ignore_ascii_case(a@, b@),
{
    let n: usize = a.unicode_len();
    let m: usize = b.unicode_len();
    if n != m {
        return false;
    }
    let mut i: usize = 0;
    while i < n
        invariant
            n == a@.len(),
            m == b@.len(),
            n == m,
            i <= n,
            forall|k: int| 0 <= k < i ==> #[trigger] char_eq_ignore_ascii_case(a@[k], b@[k]),
        decreases n - i,
    {
        if !char_eq_ignore_case_exec(a.get_char(i), b.get_char(i)) {
            return false;
        }
        i = i + 1;
    }
    true
}

/// Exact string equality.
pub fn str_equal(a: &str, b: &str) -> (r: bool)
    ensures
        r == (a@ == b@),
{
    let n: usize = a.unicode_len();
    let m: usize = b.unicode_len();
    if n != m {
        return false;
    }
    let mut i: usize = 0;
    while i < n
        invariant
            n == a@.len(),
            m == b@.len(),
            n == m,
            i <= n,
            forall|k: int| 0 <= k < i ==> a@[k] == b@[k],
        decreases n - i,
    {
        if a.get_char(i) != b.get_char(i) {
            return false;
        }
        i = i + 1;
    }
    assert(a@ =~= b@);
    true
}

/// The digit character for a value below sixteen.
pub open spec fn digit_char(d: nat) -> char {
    if d < 10 {
        ((d + 48) as u8) as char
    } else {
        ((d + 87) as u8) as char
    }
}

/// Digits of `n` in the given base, most significant first, without leading zeros.
pub open spec fn digits_in_base(n: nat, base: nat) -> Seq<char>
    recommends
        2 <= base <= 16,
    decreases n,
    via digits_in_base_decreases
{
    if base < 2 || n < base {
        seq![digit_char(n)]
    } else {
        digits_in_base(n / base, base).push(digit_char(n % base))
    }
}

#[via_fn]
proof fn digits_in_base_decreases(n: nat, base: nat) {
    if !(base < 2 || n < base) {
        assert(n / base < n) by (nonlinear_arith)
            requires
                n >= base,
                base >= 2,
        ;
    }
}

/// Lower-case hexadecimal rendering, as `{:x}` writes it.
pub open spec fn hex_digits(n: nat) -> Seq<char> {
    digits_in_base(n, 16)
}

/// Decimal rendering, as `{}` writes an unsigned integer.
pub open spec fn decimal_digits(n: nat) -> Seq<char> {
    digits_in_base(n, 10)
}

/// The one-character string of a digit.
pub(crate) fn digit_str(d: u64) -> (r: &'static str)
    requires
        d < 16,
    ensures
        r@ == seq![digit_char(d as nat)],
{
    let all: &'static str = "0123456789abcdef";
    proof {
        reveal_strlit("0123456789abcdef");
    }
    let r = all.substring_char(d as usize, d as usize + 1);
    assert(r@ =~= seq![digit_char(d as nat)]);
    r
}

/// Appends the digits of `n` in `base` to `out`.
pub fn push_digits(n: u64, base: u64, out: &mut String)
    requires
        2 <= base <= 16,
    ensures
        final(out)@ == old(out)@ + digits_in_base(n as nat, base as nat),
    decreases n,
{
    let ghost start = out@;
    if n >= base {
        assert(n / base < n) by (nonlinear_arith)
            requires
                n >= base,
                base >= 2,
        ;
        push_digits(n / base, base, out);
    }
    let ghost mid = out@;
    out.append(digit_str(n % base));
    proof {
        if n >= base {
            assert(mid == start + digits_in_base(n as nat / base as nat, base as nat));
            assert(digits_in_base(n as nat, base as nat) == digits_in_base(
                n as nat / base as nat,
                base as nat,
            ).push(digit_char(n as nat % base as nat)));
            assert(out@ =~= start + digits_in_base(n as nat, base as nat));
        } else {
            assert(digits_in_base(n as nat, base as nat) == seq![digit_char(n as nat)]);
            assert(n % base == n) by (nonlinear_arith)
                requires
                    n < base,
            ;
            assert(out@ =~= start + digits_in_base(n as nat, base as nat));
        }
    }
}

/// The lower-case hexadecimal rendering of `n`.
pub fn to_hex(n: u64) -> (r: String)
    ensures
        r@ == hex_digits(n as nat),
{
    let mut s = String::new();
    push_digits(n, 16, &mut s);
    assert(s@ =~= hex_digits(n as nat));
    s
}

} // verus!
