//! Positional numeral systems over an arbitrary radix.
//!
//! A numeral is a sequence of digit indexes, most significant first, each
//! index lying below the radix. The same index sequence can be read in two
//! ways:
//!
//! - zero-indexed: index `d` stands for digit value `d`, the ordinary
//!   positional reading;
//! - bijective-indexed: index `d` stands for digit value `d + 1`, so digit
//!   values range over `1..=radix` and no numeral has a leading zero. Values
//!   are counted from the one-digit numeral at index 0, i.e. a numeral
//!   denotes its Horner accumulation minus one. Under this reading every
//!   non-negative integer has exactly one representation.

use vstd::prelude::*;
use vstd::arithmetic::div_mod::{lemma_fundamental_div_mod, lemma_small_mod};
use vstd::arithmetic::mul::{lemma_mul_inequality, lemma_mul_nonnegative};

verus! {

/// Every index of the numeral lies in `[0, radix)`.
pub open spec fn all_below(ds: Seq<int>, radix: int) -> bool {
    forall|i: int| 0 <= i < ds.len() ==> 0 <= #[trigger] ds[i] < radix
}

/// Value of a numeral read zero-indexed (Horner, most significant first).
pub open spec fn value_zero(ds: Seq<int>, radix: int) -> int
    decreases ds.len(),
{
    if ds.len() == 0 {
        0
    } else {
        value_zero(ds.drop_last(), radix) * radix + ds.last()
    }
}

/// Horner accumulation of a numeral read bijective-indexed: index `d`
/// contributes digit value `d + 1`.
pub open spec fn accum_bij(ds: Seq<int>, radix: int) -> int
    decreases ds.len(),
{
    if ds.len() == 0 {
        0
    } else {
        accum_bij(ds.drop_last(), radix) * radix + ds.last() + 1
    }
}

/// Value denoted by a nonempty bijective numeral, counted so that the
/// one-digit numeral at index 0 denotes 0.
pub open spec fn value_bij(ds: Seq<int>, radix: int) -> int {
    accum_bij(ds, radix) - 1
}

/// The zero-indexed numeral of `v`: ordinary base-`radix` digits of `v`,
/// most significant first (a single digit 0 when `v == 0`).
pub open spec fn digits_zero(v: int, radix: int) -> Seq<int>
    decreases v when radix >= 2 && v >= 0 via digits_zero_decreases
{
    if v < radix {
        seq![v]
    } else {
        digits_zero(v / radix, radix).push(v % radix)
    }
}

#[via_fn]
proof fn digits_zero_decreases(v: int, radix: int) {
    if v >= radix {
        vstd::arithmetic::div_mod::lemma_div_is_strictly_smaller(v, radix);
        vstd::arithmetic::div_mod::lemma_div_pos_is_pos(v, radix);
    }
}

/// The bijective numeral of `v`: the unique index sequence whose
/// bijective-indexed value is `v` (a single index `v` when `v < radix`).
pub open spec fn digits_bij(v: int, radix: int) -> Seq<int>
    decreases v when radix >= 2 && v >= 0 via digits_bij_decreases
{
    if v < radix {
        seq![v]
    } else {
        digits_bij(v / radix - 1, radix).push(v % radix)
    }
}

#[via_fn]
proof fn digits_bij_decreases(v: int, radix: int) {
    if v >= radix {
        vstd::arithmetic::div_mod::lemma_div_is_strictly_smaller(v, radix);
        vstd::arithmetic::div_mod::lemma_div_non_zero(v, radix);
    }
}

/// The zero-indexed numeral of `v` is a nonempty numeral over the radix whose
/// zero-indexed value is `v` again, and its last index is `v % radix`.
pub proof fn lemma_digits_zero_correct(v: int, radix: int)
    requires
        radix >= 2,
        v >= 0,
    ensures
        digits_zero(v, radix).len() >= 1,
        all_below(digits_zero(v, radix), radix),
        value_zero(digits_zero(v, radix), radix) == v,
        digits_zero(v, radix).last() == v % radix,
    decreases v,
{
    if v < radix {
        let ds = seq![v];
        assert(ds.drop_last() =~= Seq::<int>::empty());
        assert(value_zero(Seq::<int>::empty(), radix) == 0);
        assert(value_zero(ds, radix) == v);
        lemma_small_mod(v as nat, radix as nat);
    } else {
        let q = v / radix;
        lemma_fundamental_div_mod(v, radix);
        assert(0 <= q < v) by {
            vstd::arithmetic::div_mod::lemma_div_is_strictly_smaller(v, radix);
            vstd::arithmetic::div_mod::lemma_div_pos_is_pos(v, radix);
        }
        lemma_digits_zero_correct(q, radix);
        let prefix = digits_zero(q, radix);
        let ds = prefix.push(v % radix);
        assert(ds.drop_last() =~= prefix);
        assert(value_zero(ds, radix) == q * radix + v % radix);
        assert(q * radix == radix * q) by {
            vstd::arithmetic::mul::lemma_mul_is_commutative(q, radix);
        }
    }
}

/// The bijective numeral of `v` is a nonempty numeral over the radix whose
/// bijective-indexed value is `v` again, and its last index is `v % radix`.
pub proof fn lemma_digits_bij_correct(v: int, radix: int)
    requires
        radix >= 2,
        v >= 0,
    ensures
        digits_bij(v, radix).len() >= 1,
        all_below(digits_bij(v, radix), radix),
        accum_bij(digits_bij(v, radix), radix) == v + 1,
        value_bij(digits_bij(v, radix), radix) == v,
        digits_bij(v, radix).last() == v % radix,
    decreases v,
{
    if v < radix {
        let ds = seq![v];
        assert(ds.drop_last() =~= Seq::<int>::empty());
        assert(accum_bij(Seq::<int>::empty(), radix) == 0);
        assert(accum_bij(ds, radix) == v + 1);
        lemma_small_mod(v as nat, radix as nat);
    } else {
        let q = v / radix;
        lemma_fundamental_div_mod(v, radix);
        assert(0 <= q - 1 < v) by {
            vstd::arithmetic::div_mod::lemma_div_is_strictly_smaller(v, radix);
            vstd::arithmetic::div_mod::lemma_div_non_zero(v, radix);
        }
        lemma_digits_bij_correct(q - 1, radix);
        let prefix = digits_bij(q - 1, radix);
        let ds = prefix.push(v % radix);
        assert(ds.drop_last() =~= prefix);
        assert(accum_bij(ds, radix) == q * radix + v % radix + 1);
        assert(q * radix == radix * q) by {
            vstd::arithmetic::mul::lemma_mul_is_commutative(q, radix);
        }
    }
}

/// Bijective representations are unique: the bijective numeral of a nonempty
/// numeral's value is that numeral itself.
pub proof fn lemma_digits_bij_unique(ds: Seq<int>, radix: int)
    requires
        radix >= 2,
        ds.len() >= 1,
        all_below(ds, radix),
    ensures
        value_bij(ds, radix) >= 0,
        digits_bij(value_bij(ds, radix), radix) == ds,
    decreases ds.len(),
{
    let p = ds.drop_last();
    let d = ds.last();
    assert(all_below(p, radix));
    lemma_accum_bij_nonneg(p, radix);
    let a = accum_bij(p, radix);
    let v = value_bij(ds, radix);
    assert(v == a * radix + d);
    lemma_mul_nonnegative(a, radix);
    if p.len() == 0 {
        assert(v == d);
        assert(digits_bij(v, radix) == seq![v]);
        assert(seq![d] =~= ds);
    } else {
        lemma_accum_bij_nonneg(p, radix);
        assert(a >= 1);
        assert(a * radix >= radix) by {
            lemma_mul_inequality(1, a, radix);
        }
        assert(v >= radix);
        vstd::arithmetic::div_mod::lemma_fundamental_div_mod_converse(v, radix, a, d);
        assert(v / radix == a && v % radix == d);
        lemma_digits_bij_unique(p, radix);
        assert(value_bij(p, radix) == a - 1);
        assert(digits_bij(v, radix) == digits_bij(a - 1, radix).push(d));
        assert(p.push(d) =~= ds);
    }
}

/// Zero-indexed values are non-negative when all indexes are.
pub proof fn lemma_value_zero_nonneg(ds: Seq<int>, radix: int)
    requires
        radix >= 1,
        all_below(ds, radix),
    ensures
        value_zero(ds, radix) >= 0,
    decreases ds.len(),
{
    if ds.len() > 0 {
        assert(all_below(ds.drop_last(), radix));
        lemma_value_zero_nonneg(ds.drop_last(), radix);
        lemma_mul_nonnegative(value_zero(ds.drop_last(), radix), radix);
    }
}

/// Bijective Horner accumulations are non-negative when all indexes are.
pub proof fn lemma_accum_bij_nonneg(ds: Seq<int>, radix: int)
    requires
        radix >= 1,
        all_below(ds, radix),
    ensures
        accum_bij(ds, radix) >= 0,
        ds.len() >= 1 ==> accum_bij(ds, radix) >= 1,
    decreases ds.len(),
{
    if ds.len() > 0 {
        assert(all_below(ds.drop_last(), radix));
        lemma_accum_bij_nonneg(ds.drop_last(), radix);
        lemma_mul_nonnegative(accum_bij(ds.drop_last(), radix), radix);
    }
}

/// A prefix of a numeral has a zero-indexed value no larger than the whole.
pub proof fn lemma_value_zero_prefix_le(ds: Seq<int>, radix: int, i: int)
    requires
        radix >= 1,
        all_below(ds, radix),
        0 <= i <= ds.len(),
    ensures
        value_zero(ds.take(i), radix) <= value_zero(ds, radix),
    decreases ds.len() - i,
{
    if i == ds.len() {
        assert(ds.take(i) =~= ds);
    } else {
        lemma_value_zero_prefix_le(ds, radix, i + 1);
        let shorter = ds.take(i);
        let longer = ds.take(i + 1);
        assert(longer.drop_last() =~= shorter);
        assert(longer.last() == ds[i]);
        assert(all_below(shorter, radix));
        lemma_value_zero_nonneg(shorter, radix);
        assert(value_zero(shorter, radix) * radix >= value_zero(shorter, radix)) by {
            lemma_mul_inequality(1, radix, value_zero(shorter, radix));
            vstd::arithmetic::mul::lemma_mul_is_commutative(value_zero(shorter, radix), radix);
        }
    }
}

/// A nonempty prefix of a numeral has a bijective accumulation no larger
/// than the whole numeral's.
pub proof fn lemma_accum_bij_prefix_le(ds: Seq<int>, radix: int, i: int)
    requires
        radix >= 1,
        all_below(ds, radix),
        0 <= i <= ds.len(),
    ensures
        accum_bij(ds.take(i), radix) <= accum_bij(ds, radix),
    decreases ds.len() - i,
{
    if i == ds.len() {
        assert(ds.take(i) =~= ds);
    } else {
        lemma_accum_bij_prefix_le(ds, radix, i + 1);
        let shorter = ds.take(i);
        let longer = ds.take(i + 1);
        assert(longer.drop_last() =~= shorter);
        assert(longer.last() == ds[i]);
        assert(all_below(shorter, radix));
        lemma_accum_bij_nonneg(shorter, radix);
        assert(accum_bij(shorter, radix) * radix >= accum_bij(shorter, radix)) by {
            lemma_mul_inequality(1, radix, accum_bij(shorter, radix));
            vstd::arithmetic::mul::lemma_mul_is_commutative(accum_bij(shorter, radix), radix);
        }
    }
}

} // verus!
