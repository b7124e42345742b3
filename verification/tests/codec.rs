use std::collections::HashSet;

use backend_core::id_converter::{is_valid_alphabet, CorruptIdError, IDConverter};
use backend_core::utils::reverse_string;

fn standard_codec() -> IDConverter {
    IDConverter::new(
        &"qwertyuiopasdfghjklzxcvbnm0192837465".to_string(),
        &"5432189076".to_string(),
    )
}

fn worked_example_codec() -> IDConverter {
    IDConverter::new(&"ab".to_string(), &"0123456789".to_string())
}

#[test]
fn round_trip_fixed_values() {
    let codec = standard_codec();
    let values = [
        0u64,
        1,
        2,
        5,
        9,
        10,
        35,
        36,
        37,
        55,
        99,
        100,
        12345,
        99_999,
        100_000,
        123_456_789,
        u64::MAX - 1,
        u64::MAX,
    ];
    for &v in values.iter() {
        let encoded = codec.to_short(v).unwrap();
        assert_eq!(codec.to_number(encoded).unwrap(), v);
    }
}

#[test]
fn round_trip_random_sample() {
    let codec = standard_codec();
    let mut x: u64 = 0x4d595df4d0f33173;
    for _ in 0..2000 {
        x = x
            .wrapping_mul(6364136223846793005)
            .wrapping_add(1442695040888963407);
        let encoded = codec.to_short(x).unwrap();
        assert_eq!(codec.to_number(encoded).unwrap(), x);
    }
}

#[test]
fn zero_encodes_to_first_symbol() {
    let codec = standard_codec();
    let encoded = codec.to_short(0).unwrap();
    assert_eq!(encoded, "q");
    let codec2 = worked_example_codec();
    assert_eq!(codec2.to_short(0).unwrap(), "a");
}

#[test]
fn encoding_is_deterministic() {
    let codec = standard_codec();
    let a = codec.to_short(987_654_321).unwrap();
    let b = codec.to_short(987_654_321).unwrap();
    assert_eq!(a, b);
}

#[test]
fn no_collisions_up_to_one_hundred_thousand() {
    let codec = standard_codec();
    let mut seen: HashSet<String> = HashSet::new();
    for v in 0u64..100_000 {
        let encoded = codec.to_short(v).unwrap();
        assert!(seen.insert(encoded), "collision at {}", v);
    }
}

#[test]
fn every_accepted_text_is_an_encoding() {
    let codec = standard_codec();
    for t in ["q", "ab", "zzz", "0192", "mnbvc"] {
        let v = codec.to_number(t.to_string()).unwrap();
        assert_eq!(codec.to_short(v).unwrap(), t);
    }
}

#[test]
fn corrupted_text_is_an_error() {
    let codec = standard_codec();
    assert!(codec.to_number("???".to_string()).is_err());
    assert!(codec.to_number("".to_string()).is_err());
    assert!(codec.to_number("qwe?rty".to_string()).is_err());
    assert!(codec.to_number("QWERTY".to_string()).is_err());
}

#[test]
fn overlong_text_overflows_to_error() {
    let codec = standard_codec();
    let long: String = std::iter::repeat('q').take(40).collect();
    assert!(codec.to_number(long).is_err());
}

#[test]
fn corrupt_id_error_message() {
    let codec = standard_codec();
    let err = codec.to_number("???".to_string()).unwrap_err();
    assert_eq!(
        err.message(),
        "Transformed ID is not a number. Input possibly error/corrupted."
    );
    assert_eq!(err, CorruptIdError);
}

#[test]
fn worked_example_base_two() {
    let codec = worked_example_codec();
    let encoded = codec.to_short(5).unwrap();
    assert_eq!(encoded, "bb");
    assert_eq!(codec.to_number("bb".to_string()).unwrap(), 5);
    // an asymmetric value pins the output order
    assert_eq!(codec.to_short(3).unwrap(), "ba");
    assert_eq!(codec.to_number("ba".to_string()).unwrap(), 3);
    // every value in a small range round-trips at radix two as well
    for v in 0u64..64 {
        let e = codec.to_short(v).unwrap();
        assert_eq!(codec.to_number(e).unwrap(), v);
    }
}

#[test]
fn alphabet_substitution_changes_output_keeps_round_trip() {
    let digits = "5432189076".to_string();
    let first = IDConverter::new(
        &"qwertyuiopasdfghjklzxcvbnm0192837465".to_string(),
        &digits,
    );
    let second = IDConverter::new(
        &"0192837465qwertyuiopasdfghjklzxcvbnm".to_string(),
        &digits,
    );
    let mut changed = 0;
    for v in [0u64, 1, 7, 36, 1000, 123_456_789] {
        let a = first.to_short(v).unwrap();
        let b = second.to_short(v).unwrap();
        if a != b {
            changed += 1;
        }
        assert_eq!(second.to_number(b).unwrap(), v);
    }
    assert_eq!(changed, 6);
}

#[test]
fn digits_alphabet_is_a_pure_relabeling() {
    // the same symbols alphabet under two digit alphabets encodes alike
    let symbols = "qwertyuiopasdfghjklzxcvbnm0192837465".to_string();
    let a = IDConverter::new(&symbols, &"5432189076".to_string());
    let b = IDConverter::new(&symbols, &"0123456789".to_string());
    for v in [0u64, 9, 10, 12345, u64::MAX] {
        assert_eq!(a.to_short(v).unwrap(), b.to_short(v).unwrap());
    }
}

#[test]
fn convert_base_decoding_direction() {
    let codec = worked_example_codec();
    // "123" read bijective-indexed over the decimal alphabet denotes 233;
    // written zero-indexed over "01" that is 233 in binary
    let out = codec.convert_base(
        "123".to_string(),
        &"0123456789".to_string(),
        &"01".to_string(),
        false,
    );
    assert_eq!(out.unwrap(), "11101001");
}

#[test]
fn convert_base_encoding_direction() {
    let codec = worked_example_codec();
    // "7" read zero-indexed over the decimal alphabet denotes 7; written
    // bijective-indexed over "ab" that is the numeral at index 7
    let out = codec.convert_base(
        "7".to_string(),
        &"0123456789".to_string(),
        &"ab".to_string(),
        true,
    );
    assert_eq!(out.unwrap(), "aab");
}

#[test]
fn convert_base_rejects_unmapped_symbols() {
    let codec = worked_example_codec();
    let out = codec.convert_base(
        "1x3".to_string(),
        &"0123456789".to_string(),
        &"01".to_string(),
        false,
    );
    assert!(out.is_none());
}

#[test]
fn convert_base_empty_input() {
    let codec = worked_example_codec();
    // encoding direction: an empty numeral denotes 0, written as the symbol
    // at position 0 of the destination alphabet
    let encoded = codec.convert_base(
        "".to_string(),
        &"0123456789".to_string(),
        &"ab".to_string(),
        true,
    );
    assert_eq!(encoded.unwrap(), "a");
    // decoding direction: a bijective-indexed numeral is never empty
    let decoded = codec.convert_base(
        "".to_string(),
        &"ab".to_string(),
        &"0123456789".to_string(),
        false,
    );
    assert!(decoded.is_none());
}

#[test]
fn alphabet_validation() {
    assert!(is_valid_alphabet("ab"));
    assert!(is_valid_alphabet("5432189076"));
    assert!(is_valid_alphabet("qwertyuiopasdfghjklzxcvbnm0192837465"));
    assert!(!is_valid_alphabet(""));
    assert!(!is_valid_alphabet("a"));
    assert!(!is_valid_alphabet("aa"));
    assert!(!is_valid_alphabet("abcda"));
}

#[test]
fn reverse_string_reverses() {
    assert_eq!(reverse_string("abc"), "cba");
    assert_eq!(reverse_string("ab"), "ba");
    assert_eq!(reverse_string(""), "");
    assert_eq!(reverse_string("x"), "x");
}
