//! Human-readable sizes, relative path display and size totals.

use vstd::prelude::*;
use crate::paths::{path_strip_prefix, stripped_prefix_of};
use crate::text::{decimal_digits, digit_char, push_digits};

verus! {

/// The number of bytes in one unit of the given index (B, KB, MB, GB, TB).
pub open spec fn unit_divisor(k: nat) -> nat {
    if k == 0 {
        1
    } else if k == 1 {
        1024
    } else if k == 2 {
        1048576
    } else if k == 3 {
        1073741824
    } else {
        1099511627776
    }
}

/// The largest unit, up to TB, that the size reaches.
pub open spec fn unit_index(bytes: nat) -> nat {
    if bytes >= 1099511627776 {
        4
    } else if bytes >= 1073741824 {
        3
    } else if bytes >= 1048576 {
        2
    } else if bytes >= 1024 {
        1
    } else {
        0
    }
}

/// The unit's name.
pub open spec fn unit_name(k: nat) -> Seq<char> {
    if k == 0 {
        seq!['B']
    } else if k == 1 {
        seq!['K', 'B']
    } else if k == 2 {
        seq!['M', 'B']
    } else if k == 3 {
        seq!['G', 'B']
    } else {
        seq!['T', 'B']
    }
}

/// `n / d` rounded to the nearest integer, ties to the even one.
pub open spec fn div_round_half_even(n: nat, d: nat) -> nat
    recommends
        d > 0,
{
    let q = n / d;
    let r = n % d;
    if 2 * r > d || (2 * r == d && q % 2 == 1) {
        q + 1
    } else {
        q
    }
}

/// The size in tenths of its unit, rounded as `{:.1}` rounds.
pub open spec fn size_in_tenths(bytes: nat) -> nat {
    div_round_half_even(bytes * 10, unit_divisor(unit_index(bytes)))
}

/// `0 B` and `512 B` below one kilobyte; otherwise the size in its unit with
/// one decimal, as `1.5 KB`.
pub open spec fn file_size_text(bytes: nat) -> Seq<char> {
    let k = unit_index(bytes);
    if k == 0 {
        decimal_digits(bytes) + seq![' '] + unit_name(0)
    } else {
        let t = size_in_tenths(bytes);
        decimal_digits(t / 10) + seq!['.', digit_char(t % 10), ' '] + unit_name(k)
    }
}

/// Formats a byte count for display.
pub fn format_file_size(bytes: u64) -> (r: String)
    ensures
        r@ == file_size_text(bytes as nat),
{
    let k: u64 = if bytes >= 1099511627776 {
        4
    } else if bytes >= 1073741824 {
        3
    } else if bytes >= 1048576 {
        2
    } else if bytes >= 1024 {
        1
    } else {
        0
    };
    let unit: &str = if k == 0 {
        "B"
    } else if k == 1 {
        "KB"
    } else if k == 2 {
        "MB"
    } else if k == 3 {
        "GB"
    } else {
        "TB"
    };
    proof {
        reveal_strlit("B");
        reveal_strlit("KB");
        reveal_strlit("MB");
        reveal_strlit("GB");
        reveal_strlit("TB");
        assert("B"@ =~= unit_name(0));
        assert("KB"@ =~= unit_name(1));
        assert("MB"@ =~= unit_name(2));
        assert("GB"@ =~= unit_name(3));
        assert("TB"@ =~= unit_name(4));
        reveal_strlit(" ");
        assert(" "@ =~= seq![' ']);
        reveal_strlit(".");
        assert("."@ =~= seq!['.']);
    }
    let mut s = String::new();
    if k == 0 {
        push_digits(bytes, 10, &mut s);
    } else {
        let d: u64 = if k == 1 {
            1024
        } else if k == 2 {
            1048576
        } else if k == 3 {
            1073741824
        } else {
            1099511627776
        };
        let q: u64 = bytes / d;
        let r: u64 = bytes % d;
        let f: u64 = (r * 10) / d;
        let rem: u64 = (r * 10) % d;
        let base: u64 = q * 10 + f;
        let t: u64 = if 2 * rem > d || (2 * rem == d && f % 2 == 1) {
            base + 1
        } else {
            base
        };
        proof {
            lemma_tenths(bytes as nat, d as nat, q as nat, r as nat, f as nat, rem as nat);
            assert(t == size_in_tenths(bytes as nat));
        }
        push_digits(t / 10, 10, &mut s);
        s.append(".");
        s.append(crate::text::digit_str(t % 10));
    }
    s.append(" ");
    s.append(unit);
    assert(s@ =~= file_size_text(bytes as nat));
    s
}

/// Splitting `bytes * 10` by `d` through the quotient and remainder of `bytes`.
proof fn lemma_tenths(bytes: nat, d: nat, q: nat, r: nat, f: nat, rem: nat)
    requires
        d > 0,
        q == bytes / d,
        r == bytes % d,
        f == (r * 10) / d,
        rem == (r * 10) % d,
    ensures
        (bytes * 10) / d == q * 10 + f,
        (bytes * 10) % d == rem,
        f < 10,
{
    assert(bytes == q * d + r && r < d) by (nonlinear_arith)
        requires
            d > 0,
            q == bytes / d,
            r == bytes % d,
    ;
    assert(r * 10 == f * d + rem && rem < d) by (nonlinear_arith)
        requires
            d > 0,
            f == (r * 10) / d,
            rem == (r * 10) % d,
    ;
    assert(bytes * 10 == (q * 10 + f) * d + rem) by (nonlinear_arith)
        requires
            bytes == q * d + r,
            r * 10 == f * d + rem,
    ;
    assert(f < 10) by (nonlinear_arith)
        requires
            r * 10 == f * d + rem,
            r < d,
    ;
    vstd::arithmetic::div_mod::lemma_fundamental_div_mod_converse(
        (bytes * 10) as int,
        d as int,
        (q * 10 + f) as int,
        rem as int,
    );
}

/// The path shown relative to `base` when `base` is a prefix of it, else as is.
pub open spec fn relative_display(path: Seq<char>, base: Seq<char>) -> Seq<char> {
    match stripped_prefix_of(path, base) {
        Some(rel) => rel,
        None => path,
    }
}

/// Shows `path` relative to `base` where it lies under it.
pub fn get_relative_path_display(path: &str, base: &str) -> (r: String)
    ensures
        r@ == relative_display(path@, base@),
{
    match path_strip_prefix(path, base) {
        Some(rel) => rel,
        None => String::from_str(path),
    }
}

/// The sum of a sequence of sizes.
pub open spec fn sum_of(sizes: Seq<u64>) -> nat
    decreases sizes.len(),
{
    if sizes.len() == 0 {
        0
    } else {
        sum_of(sizes.drop_last()) + sizes.last() as nat
    }
}

/// The total of the sizes, held at `u64::MAX` where it would exceed it.
pub fn total_size(sizes: &Vec<u64>) -> (r: u64)
    ensures
        r as nat == if sum_of(sizes@) > u64::MAX as nat {
            u64::MAX as nat
        } else {
            sum_of(sizes@)
        },
{
    let mut total: u64 = 0;
    let mut saturated: bool = false;
    let mut i: usize = 0;
    while i < sizes.len()
        invariant
            i <= sizes@.len(),
            saturated ==> sum_of(sizes@.subrange(0, i as int)) > u64::MAX as nat && total
                == u64::MAX,
            !saturated ==> total as nat == sum_of(sizes@.subrange(0, i as int)),
        decreases sizes@.len() - i,
    {
        assert(sizes@.subrange(0, i as int + 1).drop_last() =~= sizes@.subrange(0, i as int));
        if !saturated {
            if total > u64::MAX - sizes[i] {
                saturated = true;
                total = u64::MAX;
            } else {
                total = total + sizes[i];
            }
        }
        i = i + 1;
    }
    assert(sizes@.subrange(0, sizes@.len() as int) =~= sizes@);
    total
}

} // verus!
