//! The short-identifier codec: a generalized base-conversion engine over
//! custom alphabets, and the `IDConverter` that turns an unsigned 64-bit
//! integer into an opaque string and back.
//!
//! An alphabet is an ordered, duplicate-free sequence of symbols; its length
//! is the radix of the numeral system it defines, and a symbol's position is
//! its digit index. The transcoder reads a symbol string as a numeral over a
//! source alphabet and rewrites it as the numeral of the same value over a
//! destination alphabet. Encoding reads the source zero-indexed and writes
//! the destination bijective-indexed; decoding does the opposite, so the two
//! are exact inverses (see `lemma_round_trip`).

use vstd::prelude::*;
use vstd::string::StrSliceExecFns;

use crate::numeral::{
    accum_bij, all_below, digits_bij, digits_zero, lemma_accum_bij_nonneg,
    lemma_accum_bij_prefix_le, lemma_digits_bij_correct, lemma_digits_zero_correct,
    lemma_value_zero_prefix_le, value_bij, value_zero,
};
use crate::utils::{push_char, reverse_string};

verus! {

// ---------------------------------------------------------------------------
// Alphabets and digit lookup
// ---------------------------------------------------------------------------

/// No symbol occurs twice in the alphabet.
pub open spec fn distinct_symbols(a: Seq<char>) -> bool {
    forall|i: int, j: int| 0 <= i < j < a.len() ==> a[i] != a[j]
}

/// A usable alphabet: at least two distinct symbols.
pub open spec fn valid_alphabet(a: Seq<char>) -> bool {
    a.len() >= 2 && distinct_symbols(a)
}

/// The digit index of symbol `c` in alphabet `a`: the position of its first
/// occurrence, or `None` if the symbol is absent.
pub open spec fn digit_of(a: Seq<char>, c: char) -> Option<int>
    decreases a.len(),
{
    if a.len() == 0 {
        None
    } else if a[0] == c {
        Some(0int)
    } else {
        match digit_of(a.drop_first(), c) {
            Some(d) => Some(d + 1),
            None => None,
        }
    }
}

/// `digit_of` returns the first occurrence: a position holding the symbol,
/// before which the symbol does not occur; `None` exactly when the symbol
/// occurs nowhere.
pub proof fn lemma_digit_of_spec(a: Seq<char>, c: char)
    ensures
        match digit_of(a, c) {
            Some(d) => 0 <= d < a.len() && a[d] == c && (forall|j: int|
                0 <= j < d ==> a[j] != c),
            None => forall|j: int| 0 <= j < a.len() ==> a[j] != c,
        },
    decreases a.len(),
{
    if a.len() > 0 && a[0] != c {
        let t = a.drop_first();
        lemma_digit_of_spec(t, c);
        match digit_of(t, c) {
            Some(d) => {
                assert(a[d + 1] == t[d]);
                assert forall|j: int| 0 <= j < d + 1 implies a[j] != c by {
                    if j >= 1 {
                        assert(t[j - 1] != c);
                    }
                }
            },
            None => {
                assert forall|j: int| 0 <= j < a.len() implies a[j] != c by {
                    if j >= 1 {
                        assert(t[j - 1] != c);
                    }
                }
            },
        }
    }
}

/// In a duplicate-free alphabet, the symbol at position `i` looks up to `i`.
pub proof fn lemma_digit_of_index(a: Seq<char>, i: int)
    requires
        distinct_symbols(a),
        0 <= i < a.len(),
    ensures
        digit_of(a, a[i]) == Some(i),
{
    lemma_digit_of_spec(a, a[i]);
    match digit_of(a, a[i]) {
        Some(d) => {
            if d < i {
                assert(a[d] == a[i]);
            } else if d > i {
                assert(a[i] != a[i]);
            }
        },
        None => {
            assert(a[i] != a[i]);
        },
    }
}

/// Digit Lookup: the zero-based position of `symbol` in the alphabet's
/// order, or `None` if the symbol is not part of the alphabet.
pub fn index_of(alphabet: &str, symbol: char) -> (r: Option<usize>)
    ensures
        match r {
            Some(d) => digit_of(alphabet@, symbol) == Some(d as int),
            None => digit_of(alphabet@, symbol) is None,
        },
{
    let n = alphabet.unicode_len();
    let mut i: usize = 0;
    while i < n
        invariant
            i <= n,
            n == alphabet@.len(),
            forall|j: int| 0 <= j < i ==> alphabet@[j] != symbol,
        decreases n - i,
    {
        if alphabet.get_char(i) == symbol {
            proof {
                lemma_digit_of_spec(alphabet@, symbol);
            }
            return Some(i);
        }
        i += 1;
    }
    proof {
        lemma_digit_of_spec(alphabet@, symbol);
    }
    None
}

// ---------------------------------------------------------------------------
// Symbol strings as numerals
// ---------------------------------------------------------------------------

/// Every symbol of `s` is part of alphabet `a`.
pub open spec fn all_mapped(s: Seq<char>, a: Seq<char>) -> bool {
    forall|i: int| 0 <= i < s.len() ==> (#[trigger] digit_of(a, s[i])) is Some
}

/// The digit indexes of a symbol string under alphabet `a` (an absent symbol
/// reads as index 0; meaningful under `all_mapped`).
pub open spec fn indexes_of(s: Seq<char>, a: Seq<char>) -> Seq<int> {
    Seq::new(s.len(), |i: int| match digit_of(a, s[i]) {
        Some(d) => d,
        None => 0int,
    })
}

/// The symbols of a digit-index numeral under alphabet `a`.
pub open spec fn symbols_of(ds: Seq<int>, a: Seq<char>) -> Seq<char> {
    Seq::new(ds.len(), |i: int| a[ds[i]])
}

/// Indexes read from a string are always below the alphabet's radix.
pub proof fn lemma_indexes_all_below(s: Seq<char>, a: Seq<char>)
    requires
        a.len() >= 1,
    ensures
        all_below(indexes_of(s, a), a.len() as int),
{
    assert forall|i: int| 0 <= i < s.len() implies 0 <= #[trigger] indexes_of(s, a)[i]
        < a.len() as int by {
        lemma_digit_of_spec(a, s[i]);
    }
}

/// Writing a numeral's symbols and reading them back under a duplicate-free
/// alphabet recovers the numeral.
pub proof fn lemma_symbols_of_roundtrip(ds: Seq<int>, a: Seq<char>)
    requires
        distinct_symbols(a),
        all_below(ds, a.len() as int),
    ensures
        all_mapped(symbols_of(ds, a), a),
        indexes_of(symbols_of(ds, a), a) == ds,
{
    let s = symbols_of(ds, a);
    assert forall|i: int| 0 <= i < s.len() implies (#[trigger] digit_of(a, s[i])) == Some(
        ds[i],
    ) by {
        lemma_digit_of_index(a, ds[i]);
    }
    assert(indexes_of(s, a) =~= ds);
}

/// Reading a string's digit indexes and writing their symbols back gives the
/// string again, as long as every symbol is part of the alphabet.
pub proof fn lemma_indexes_of_roundtrip(s: Seq<char>, a: Seq<char>)
    requires
        all_mapped(s, a),
    ensures
        symbols_of(indexes_of(s, a), a) == s,
{
    let t = symbols_of(indexes_of(s, a), a);
    assert forall|i: int| 0 <= i < s.len() implies t[i] == s[i] by {
        lemma_digit_of_spec(a, s[i]);
    }
    assert(t =~= s);
}

// ---------------------------------------------------------------------------
// Transcoder
// ---------------------------------------------------------------------------

/// The integer value a symbol string denotes under the source alphabet.
/// When `bijective` is set the destination side is bijective-indexed and the
/// source is read zero-indexed (the encoding pass); otherwise the source is
/// read bijective-indexed (the decoding pass).
pub open spec fn source_value(input: Seq<char>, source: Seq<char>, bijective: bool) -> int {
    if bijective {
        value_zero(indexes_of(input, source), source.len() as int)
    } else {
        value_bij(indexes_of(input, source), source.len() as int)
    }
}

/// A conversion succeeds exactly when every input symbol is part of the
/// source alphabet, the input is nonempty where a bijective-indexed source
/// requires it, and the denoted value fits an unsigned 64-bit integer.
pub open spec fn convert_ok(input: Seq<char>, source: Seq<char>, bijective: bool) -> bool {
    &&& all_mapped(input, source)
    &&& (bijective || input.len() > 0)
    &&& source_value(input, source, bijective) <= u64::MAX
}

/// The converted numeral's symbols, most significant first.
pub open spec fn spec_convert(
    input: Seq<char>,
    source: Seq<char>,
    dest: Seq<char>,
    bijective: bool,
) -> Seq<char> {
    let v = source_value(input, source, bijective);
    if bijective {
        symbols_of(digits_bij(v, dest.len() as int), dest)
    } else {
        symbols_of(digits_zero(v, dest.len() as int), dest)
    }
}

/// Reads `input` as a zero-indexed numeral over `source` and accumulates its
/// value; `None` on a symbol outside the alphabet or on 64-bit overflow.
fn accumulate_zero(input: &str, source: &str) -> (r: Option<u64>)
    requires
        valid_alphabet(source@),
    ensures
        match r {
            Some(v) => convert_ok(input@, source@, true) && v == source_value(
                input@,
                source@,
                true,
            ),
            None => !convert_ok(input@, source@, true),
        },
{
    let ghost ds = indexes_of(input@, source@);
    let ghost radix_i = source@.len() as int;
    proof {
        lemma_indexes_all_below(input@, source@);
    }
    let n = input.unicode_len();
    let radix = source.unicode_len() as u64;
    let mut cur: u64 = 0;
    let mut i: usize = 0;
    while i < n
        invariant
            i <= n,
            n == input@.len(),
            radix == source@.len(),
            radix_i == source@.len(),
            valid_alphabet(source@),
            ds == indexes_of(input@, source@),
            all_below(ds, radix_i),
            forall|j: int| 0 <= j < i ==> (#[trigger] digit_of(source@, input@[j])) is Some,
            cur == value_zero(ds.take(i as int), radix_i),
        decreases n - i,
    {
        let c = input.get_char(i);
        match index_of(source, c) {
            None => {
                proof {
                    assert(digit_of(source@, input@[i as int]) is None);
                    assert(!all_mapped(input@, source@));
                }
                return None;
            },
            Some(d) => {
                proof {
                    assert(ds.take(i as int + 1).drop_last() =~= ds.take(i as int));
                    assert(ds.take(i as int + 1).last() == d as int);
                    assert(value_zero(ds.take(i as int + 1), radix_i) == cur * radix_i + d);
                }
                let prod = cur.checked_mul(radix);
                let next = match prod {
                    Some(t) => t.checked_add(d as u64),
                    None => None,
                };
                match next {
                    None => {
                        proof {
                            assert(value_zero(ds.take(i as int + 1), radix_i) > u64::MAX);
                            lemma_value_zero_prefix_le(ds, radix_i, i as int + 1);
                            assert(ds.take(ds.len() as int) =~= ds);
                        }
                        return None;
                    },
                    Some(v2) => {
                        cur = v2;
                    },
                }
            },
        }
        i += 1;
    }
    proof {
        assert(ds.take(n as int) =~= ds);
    }
    Some(cur)
}

/// Reads `input` as a bijective-indexed numeral over `source` and returns
/// the value it denotes; `None` on an empty input, a symbol outside the
/// alphabet, or 64-bit overflow.
fn accumulate_bij(input: &str, source: &str) -> (r: Option<u64>)
    requires
        valid_alphabet(source@),
    ensures
        match r {
            Some(v) => convert_ok(input@, source@, false) && v == source_value(
                input@,
                source@,
                false,
            ),
            None => !convert_ok(input@, source@, false),
        },
{
    let ghost ds = indexes_of(input@, source@);
    let ghost radix_i = source@.len() as int;
    proof {
        lemma_indexes_all_below(input@, source@);
    }
    let n = input.unicode_len();
    if n == 0 {
        return None;
    }
    let radix = source.unicode_len() as u64;
    let first = match index_of(source, input.get_char(0)) {
        Some(d) => d,
        None => {
            proof {
                assert(digit_of(source@, input@[0]) is None);
                assert(!all_mapped(input@, source@));
            }
            return None;
        },
    };
    let mut cur: u64 = first as u64;
    proof {
        assert(ds.take(1).drop_last() =~= Seq::<int>::empty());
        assert(accum_bij(Seq::<int>::empty(), radix_i) == 0);
        assert(ds.take(1).last() == ds[0]);
        assert(cur == value_bij(ds.take(1), radix_i));
    }
    let mut i: usize = 1;
    while i < n
        invariant
            1 <= i <= n,
            n == input@.len(),
            radix == source@.len(),
            radix_i == source@.len(),
            valid_alphabet(source@),
            ds == indexes_of(input@, source@),
            all_below(ds, radix_i),
            forall|j: int| 0 <= j < i ==> (#[trigger] digit_of(source@, input@[j])) is Some,
            cur == value_bij(ds.take(i as int), radix_i),
        decreases n - i,
    {
        let c = input.get_char(i);
        match index_of(source, c) {
            None => {
                proof {
                    assert(digit_of(source@, input@[i as int]) is None);
                    assert(!all_mapped(input@, source@));
                }
                return None;
            },
            Some(d) => {
                proof {
                    assert(ds.take(i as int + 1).drop_last() =~= ds.take(i as int));
                    assert(ds.take(i as int + 1).last() == d as int);
                    assert((cur + 1) * radix_i == cur * radix_i + radix_i) by (nonlinear_arith);
                    assert(accum_bij(ds.take(i as int + 1), radix_i) == cur * radix_i + radix_i
                        + d + 1);
                }
                let step1 = cur.checked_mul(radix);
                let step2 = match step1 {
                    Some(t) => t.checked_add(radix),
                    None => None,
                };
                let step3 = match step2 {
                    Some(t) => t.checked_add(d as u64),
                    None => None,
                };
                match step3 {
                    None => {
                        proof {
                            assert(value_bij(ds.take(i as int + 1), radix_i) > u64::MAX);
                            lemma_accum_bij_prefix_le(ds, radix_i, i as int + 1);
                            assert(ds.take(ds.len() as int) =~= ds);
                        }
                        return None;
                    },
                    Some(v2) => {
                        cur = v2;
                    },
                }
            },
        }
        i += 1;
    }
    proof {
        assert(ds.take(n as int) =~= ds);
    }
    Some(cur)
}

/// Appending a symbol and reversing is the same as putting the symbol in
/// front of the reversal.
proof fn lemma_reverse_push(s: Seq<char>, c: char)
    ensures
        s.push(c).reverse() =~= seq![c] + s.reverse(),
{
}

/// Writes `value` as a zero-indexed numeral over `dest`, least significant
/// symbol first (the single symbol at position 0 when `value == 0`).
fn emit_zero(value: u64, dest: &str) -> (s: String)
    requires
        valid_alphabet(dest@),
    ensures
        s@ == symbols_of(digits_zero(value as int, dest@.len() as int), dest@).reverse(),
{
    let ghost radix_i = dest@.len() as int;
    let radix = dest.unicode_len() as u64;
    let mut out = String::new();
    let mut w = value;
    loop
        invariant_except_break
            radix <= usize::MAX,
            radix == dest@.len(),
            radix_i == dest@.len(),
            valid_alphabet(dest@),
            symbols_of(digits_zero(value as int, radix_i), dest@) =~= symbols_of(
                digits_zero(w as int, radix_i),
                dest@,
            ) + out@.reverse(),
        ensures
            out@ == symbols_of(digits_zero(value as int, radix_i), dest@).reverse(),
        decreases w,
    {
        let d = (w % radix) as usize;
        let ghost out_before = out@;
        push_char(&mut out, dest.get_char(d));
        proof {
            lemma_reverse_push(out_before, dest@[d as int]);
        }
        if w < radix {
            proof {
                vstd::arithmetic::div_mod::lemma_small_mod(w as nat, radix as nat);
                assert(digits_zero(w as int, radix_i) == seq![w as int]);
                assert(symbols_of(seq![w as int], dest@) =~= seq![dest@[d as int]]);
                assert(out@.reverse() =~= symbols_of(digits_zero(value as int, radix_i), dest@));
                assert(out@.reverse().reverse() =~= out@);
            }
            break;
        }
        proof {
            let q = w as int / radix_i;
            assert(digits_zero(w as int, radix_i) == digits_zero(q, radix_i).push(
                w as int % radix_i,
            ));
            assert(symbols_of(digits_zero(q, radix_i).push(w as int % radix_i), dest@)
                =~= symbols_of(digits_zero(q, radix_i), dest@) + seq![dest@[d as int]]);
            vstd::arithmetic::div_mod::lemma_div_is_strictly_smaller(w as int, radix_i);
            vstd::arithmetic::div_mod::lemma_div_pos_is_pos(w as int, radix_i);
        }
        w = w / radix;
    }
    out
}

/// Writes `value` as a bijective-indexed numeral over `dest`, least
/// significant symbol first (the single symbol at position 0 when
/// `value == 0`).
fn emit_bij(value: u64, dest: &str) -> (s: String)
    requires
        valid_alphabet(dest@),
    ensures
        s@ == symbols_of(digits_bij(value as int, dest@.len() as int), dest@).reverse(),
{
    let ghost radix_i = dest@.len() as int;
    let radix = dest.unicode_len() as u64;
    let mut out = String::new();
    let mut w = value;
    loop
        invariant_except_break
            radix <= usize::MAX,
            radix == dest@.len(),
            radix_i == dest@.len(),
            valid_alphabet(dest@),
            symbols_of(digits_bij(value as int, radix_i), dest@) =~= symbols_of(
                digits_bij(w as int, radix_i),
                dest@,
            ) + out@.reverse(),
        ensures
            out@ == symbols_of(digits_bij(value as int, radix_i), dest@).reverse(),
        decreases w,
    {
        let d = (w % radix) as usize;
        let ghost out_before = out@;
        push_char(&mut out, dest.get_char(d));
        proof {
            lemma_reverse_push(out_before, dest@[d as int]);
        }
        if w < radix {
            proof {
                vstd::arithmetic::div_mod::lemma_small_mod(w as nat, radix as nat);
                assert(digits_bij(w as int, radix_i) == seq![w as int]);
                assert(symbols_of(seq![w as int], dest@) =~= seq![dest@[d as int]]);
                assert(out@.reverse() =~= symbols_of(digits_bij(value as int, radix_i), dest@));
                assert(out@.reverse().reverse() =~= out@);
            }
            break;
        }
        proof {
            let q = w as int / radix_i;
            assert(digits_bij(w as int, radix_i) == digits_bij(q - 1, radix_i).push(
                w as int % radix_i,
            ));
            assert(symbols_of(digits_bij(q - 1, radix_i).push(w as int % radix_i), dest@)
                =~= symbols_of(digits_bij(q - 1, radix_i), dest@) + seq![dest@[d as int]]);
            vstd::arithmetic::div_mod::lemma_div_is_strictly_smaller(w as int, radix_i);
            vstd::arithmetic::div_mod::lemma_div_non_zero(w as int, radix_i);
        }
        w = w / radix - 1;
    }
    out
}

/// Reversing twice gives the sequence back.
proof fn lemma_reverse_reverse(s: Seq<char>)
    ensures
        s.reverse().reverse() =~= s,
{
}

// ---------------------------------------------------------------------------
// Short-ID codec
// ---------------------------------------------------------------------------

/// Error returned by `IDConverter::to_number` when the given text is not the
/// encoding of any 64-bit value: it is empty, holds a symbol outside the
/// symbols alphabet, or denotes a value beyond 64 bits.
#[derive(Clone, Copy, Debug, PartialEq, Eq)]
pub struct CorruptIdError;

impl CorruptIdError {
    /// A human-readable description of the failure.
    pub fn message(&self) -> (m: String)
        ensures
            m@ == "Transformed ID is not a number. Input possibly error/corrupted."@,
    {
        "Transformed ID is not a number. Input possibly error/corrupted.".to_owned()
    }
}

/// True exactly when the string is a usable alphabet: at least two symbols,
/// none repeated. Unverified callers check their configuration with this
/// before `IDConverter::new`; a failure is a fatal configuration error.
pub fn is_valid_alphabet(a: &str) -> (ok: bool)
    ensures
        ok == valid_alphabet(a@),
{
    let n = a.unicode_len();
    if n < 2 {
        return false;
    }
    let mut i: usize = 1;
    while i < n
        invariant
            1 <= i <= n,
            n == a@.len(),
            forall|p: int, q: int| 0 <= p < q < i ==> a@[p] != a@[q],
        decreases n - i,
    {
        let c = a.get_char(i);
        let mut j: usize = 0;
        while j < i
            invariant
                j <= i < n,
                n == a@.len(),
                c == a@[i as int],
                forall|p: int| 0 <= p < j ==> a@[p] != a@[i as int],
            decreases i - j,
        {
            if a.get_char(j) == c {
                assert(!distinct_symbols(a@));
                return false;
            }
            j += 1;
        }
        i += 1;
    }
    true
}

/// The encoding of `value` over the symbols alphabet: the symbols of the
/// value's bijective numeral, least significant symbol first.
pub open spec fn spec_to_short(symbols: Seq<char>, value: u64) -> Seq<char> {
    symbols_of(digits_bij(value as int, symbols.len() as int), symbols).reverse()
}

/// The decoding of `text` under the symbols alphabet: the value whose
/// bijective numeral `text` spells reversed, or `None` when `text` is empty,
/// holds a symbol outside the alphabet, or denotes a value beyond 64 bits.
pub open spec fn spec_to_number(symbols: Seq<char>, text: Seq<char>) -> Option<u64> {
    let msd_first = text.reverse();
    if msd_first.len() > 0 && all_mapped(msd_first, symbols) && value_bij(
        indexes_of(msd_first, symbols),
        symbols.len() as int,
    ) <= u64::MAX {
        Some(value_bij(indexes_of(msd_first, symbols), symbols.len() as int) as u64)
    } else {
        None
    }
}

/// Short-ID codec: fixes a symbols alphabet (`alphabets`) and a digits
/// alphabet (`numbers`) at construction; both stay immutable, every call is
/// pure, and the codec can be shared freely.
pub struct IDConverter {
    alphabets: String,
    numbers: String,
}

impl IDConverter {
    /// Both alphabets are duplicate-free with radix at least two.
    #[verifier::type_invariant]
    spec fn wf(self) -> bool {
        valid_alphabet(self.alphabets@) && valid_alphabet(self.numbers@)
    }

    /// The symbols alphabet, over which encodings are written.
    pub closed spec fn symbols(self) -> Seq<char> {
        self.alphabets@
    }

    /// The digits alphabet, over which the intermediate digit string is
    /// written (intended to be a permutation of the ten decimal digits; it
    /// relabels the intermediate numeral and cancels out of the codec).
    pub closed spec fn digits(self) -> Seq<char> {
        self.numbers@
    }

    /// Makes a codec over the two given alphabets. A malformed alphabet
    /// (repeated symbol, radix below two) is a precondition violation, to be
    /// rejected fatally at construction time (see `is_valid_alphabet`).
    pub fn new(alphabets: &String, numbers: &String) -> (c: Self)
        requires
            valid_alphabet(alphabets@),
            valid_alphabet(numbers@),
        ensures
            c.symbols() == alphabets@,
            c.digits() == numbers@,
    {
        Self { alphabets: alphabets.clone(), numbers: numbers.clone() }
    }

    /// Transcoder: reads `input` as a numeral over `translator` and rewrites
    /// it as the numeral of the same value over `convert_translator`, most
    /// significant symbol first. With `bijective` set the source is read
    /// zero-indexed and the destination written bijective-indexed (the
    /// encoding direction); with it clear, the other way round (the decoding
    /// direction). Returns `None` exactly when a symbol of `input` is not in
    /// the source alphabet, the input is empty over a bijective-indexed
    /// source, or the denoted value exceeds 64 bits; no symbol ever degrades
    /// silently.
    pub fn convert_base(
        &self,
        input: String,
        translator: &String,
        convert_translator: &String,
        bijective: bool,
    ) -> (r: Option<String>)
        requires
            valid_alphabet(translator@),
            valid_alphabet(convert_translator@),
        ensures
            match r {
                Some(s) => convert_ok(input@, translator@, bijective) && s@ == spec_convert(
                    input@,
                    translator@,
                    convert_translator@,
                    bijective,
                ),
                None => !convert_ok(input@, translator@, bijective),
            },
    {
        let value_opt = if bijective {
            accumulate_zero(input.as_str(), translator.as_str())
        } else {
            accumulate_bij(input.as_str(), translator.as_str())
        };
        match value_opt {
            None => None,
            Some(value) => {
                let least_first = if bijective {
                    emit_bij(value, convert_translator.as_str())
                } else {
                    emit_zero(value, convert_translator.as_str())
                };
                let msd_first = reverse_string(least_first.as_str());
                proof {
                    if bijective {
                        lemma_reverse_reverse(
                            symbols_of(
                                digits_bij(value as int, convert_translator@.len() as int),
                                convert_translator@,
                            ),
                        );
                    } else {
                        lemma_reverse_reverse(
                            symbols_of(
                                digits_zero(value as int, convert_translator@.len() as int),
                                convert_translator@,
                            ),
                        );
                    }
                }
                Some(msd_first)
            },
        }
    }

    /// Encodes `input`: renders it over the digits alphabet, transcodes that
    /// digit string to the symbols alphabet (bijective-indexed), and reverses
    /// the result. Never fails, and the output is fully determined by the
    /// codec's alphabets and the value, as the contract states.
    pub fn to_short(&self, input: u64) -> (r: Result<String, CorruptIdError>)
        ensures
            r matches Ok(s) && s@ == spec_to_short(self.symbols(), input),
    {
        proof {
            use_type_invariant(self);
        }
        let ghost ddig = self.numbers@;
        let ghost dsym = self.alphabets@;
        let ghost digit_numeral = digits_zero(input as int, ddig.len() as int);
        let rendered_lsd = emit_zero(input, self.numbers.as_str());
        let rendered = reverse_string(rendered_lsd.as_str());
        proof {
            lemma_reverse_reverse(symbols_of(digit_numeral, ddig));
            lemma_digits_zero_correct(input as int, ddig.len() as int);
            lemma_symbols_of_roundtrip(digit_numeral, ddig);
            assert(rendered@ == symbols_of(digit_numeral, ddig));
            assert(source_value(rendered@, ddig, true) == input);
        }
        let converted = self.convert_base(rendered, &self.numbers, &self.alphabets, true);
        match converted {
            Some(text) => Ok(reverse_string(text.as_str())),
            None => Err(CorruptIdError),  // cannot happen: the rendered digit string always converts
        }
    }

    /// Decodes `input`: reverses it, transcodes from the symbols alphabet
    /// (bijective-indexed) back to the digits alphabet, and parses the
    /// resulting digit string. Returns the unique value `input` encodes, and
    /// `CorruptIdError` exactly when there is none: `input` is empty, holds a
    /// symbol outside the symbols alphabet, or denotes a value beyond 64
    /// bits.
    pub fn to_number(&self, input: String) -> (r: Result<u64, CorruptIdError>)
        ensures
            match r {
                Ok(v) => spec_to_number(self.symbols(), input@) == Some(v),
                Err(_) => spec_to_number(self.symbols(), input@) is None,
            },
    {
        proof {
            use_type_invariant(self);
        }
        let ghost ddig = self.numbers@;
        let ghost dsym = self.alphabets@;
        let reversed = reverse_string(input.as_str());
        let converted = self.convert_base(reversed, &self.alphabets, &self.numbers, false);
        match converted {
            None => Err(CorruptIdError),
            Some(digit_text) => {
                let ghost v = source_value(input@.reverse(), dsym, false);
                proof {
                    lemma_indexes_all_below(input@.reverse(), dsym);
                    lemma_accum_bij_nonneg(indexes_of(input@.reverse(), dsym), dsym.len() as int);
                    lemma_digits_zero_correct(v, ddig.len() as int);
                    lemma_symbols_of_roundtrip(digits_zero(v, ddig.len() as int), ddig);
                    assert(digit_text@ == symbols_of(digits_zero(v, ddig.len() as int), ddig));
                    assert(source_value(digit_text@, ddig, true) == v);
                }
                match accumulate_zero(digit_text.as_str(), self.numbers.as_str()) {
                    Some(value) => Ok(value),
                    None => Err(CorruptIdError),  // cannot happen: the converted digit string always parses
                }
            },
        }
    }
}

// ---------------------------------------------------------------------------
// Laws of the codec
// ---------------------------------------------------------------------------

/// Round trip: decoding an encoding returns the encoded value, for every
/// 64-bit value and every valid symbols alphabet. The digits alphabet is a
/// pure relabeling of the intermediate digit string and cancels out of the
/// codec, so it does not appear here.
pub proof fn lemma_round_trip(symbols: Seq<char>, value: u64)
    requires
        valid_alphabet(symbols),
    ensures
        spec_to_number(symbols, spec_to_short(symbols, value)) == Some(value),
{
    let k = symbols.len() as int;
    let ds = digits_bij(value as int, k);
    lemma_digits_bij_correct(value as int, k);
    lemma_symbols_of_roundtrip(ds, symbols);
    lemma_reverse_reverse(symbols_of(ds, symbols));
    assert(spec_to_short(symbols, value).reverse() == symbols_of(ds, symbols));
}

/// Zero handling: the encoding of 0 is the one-symbol string holding the
/// symbol at position 0 of the symbols alphabet.
pub proof fn lemma_encode_zero(symbols: Seq<char>)
    requires
        valid_alphabet(symbols),
    ensures
        spec_to_short(symbols, 0) == seq![symbols[0]],
{
    assert(digits_bij(0, symbols.len() as int) == seq![0int]);
    assert(symbols_of(seq![0int], symbols) =~= seq![symbols[0]]);
    assert(seq![symbols[0]].reverse() =~= seq![symbols[0]]);
}

/// Collision-freedom, in the strongest form: encoding is injective, so
/// distinct values never share an encoding.
pub proof fn lemma_encode_injective(symbols: Seq<char>, v1: u64, v2: u64)
    requires
        valid_alphabet(symbols),
        v1 != v2,
    ensures
        spec_to_short(symbols, v1) != spec_to_short(symbols, v2),
{
    if spec_to_short(symbols, v1) == spec_to_short(symbols, v2) {
        lemma_round_trip(symbols, v1);
        lemma_round_trip(symbols, v2);
    }
}

/// Decoding is exact: every text the decoder accepts is precisely the
/// encoding of the value it returns. Together with `lemma_round_trip` this
/// makes the codec a bijection between 64-bit values and their codes: every
/// value has exactly one code, and no other text decodes.
pub proof fn lemma_decode_exact(symbols: Seq<char>, text: Seq<char>)
    requires
        valid_alphabet(symbols),
        spec_to_number(symbols, text) is Some,
    ensures
        spec_to_short(symbols, spec_to_number(symbols, text).unwrap()) == text,
{
    let k = symbols.len() as int;
    let msd_first = text.reverse();
    let ds = indexes_of(msd_first, symbols);
    lemma_indexes_all_below(msd_first, symbols);
    crate::numeral::lemma_digits_bij_unique(ds, k);
    lemma_indexes_of_roundtrip(msd_first, symbols);
    let v = spec_to_number(symbols, text).unwrap();
    assert(digits_bij(v as int, k) == ds);
    assert(spec_to_short(symbols, v) == msd_first.reverse());
    lemma_reverse_reverse(text);
}

/// Alphabet substitution changes the code: the encoding's first symbol is
/// the one at position `value % radix`, so two symbols alphabets of equal
/// radix that differ there give the value different encodings. That the
/// round-trip law is preserved under the substituted alphabet is
/// `lemma_round_trip`, which holds for every valid alphabet.
pub proof fn lemma_alphabet_substitution(s1: Seq<char>, s2: Seq<char>, value: u64)
    requires
        valid_alphabet(s1),
        valid_alphabet(s2),
        s1.len() == s2.len(),
        s1[value as int % s1.len() as int] != s2[value as int % s2.len() as int],
    ensures
        spec_to_short(s1, value)[0] == s1[value as int % s1.len() as int],
        spec_to_short(s2, value)[0] == s2[value as int % s2.len() as int],
        spec_to_short(s1, value) != spec_to_short(s2, value),
{
    let k = s1.len() as int;
    lemma_digits_bij_correct(value as int, k);
    let ds = digits_bij(value as int, k);
    assert(spec_to_short(s1, value)[0] == symbols_of(ds, s1)[ds.len() - 1]);
    assert(spec_to_short(s2, value)[0] == symbols_of(ds, s2)[ds.len() - 1]);
}

} // verus!
