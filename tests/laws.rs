use digit_grouping::{
    check_grouping, DigitInfo, GroupingOutcome, LiteralDigitGrouping, Radix, WarningType,
};

const LITERALS: &[(&str, bool)] = &[
    ("61864918973511", false),
    ("618_64_9189_73_511", false),
    ("6186491_8973511", false),
    ("0xFFFFFFFF", false),
    ("0xdead_beefu64", false),
    ("0b1111000011110000_u16", false),
    ("0o7777777i32", false),
    ("1234567_usize", false),
    ("12", false),
    ("1_234.5_67", true),
    ("1_234.56789", true),
    ("12345678.9f64", true),
    ("3.14159265358979_f64", true),
    ("1.", true),
    ("100000f32", true),
];

fn stripped(s: &str) -> String {
    s.chars().filter(|&c| c != '_').collect()
}

#[test]
fn short_plain_literals_are_acceptable() {
    for s in ["1", "12", "123", "1234", "0000", "9999"] {
        assert_eq!(check_grouping(s), GroupingOutcome::Acceptable(0));
        assert!(LiteralDigitGrouping.check_lit(s, false, ()).is_none());
        assert!(LiteralDigitGrouping.check_lit(s, true, ()).is_none());
    }
}

#[test]
fn long_plain_literals_are_unreadable() {
    for s in ["12345", "1234567890", "00000000000"] {
        assert_eq!(check_grouping(s), GroupingOutcome::Unreadable);
        let d = LiteralDigitGrouping.check_lit(s, false, ()).unwrap();
        assert_eq!(d.kind, WarningType::UnreadableLiteral);
        assert_eq!(stripped(&d.suggestion), s);
    }
    assert_eq!(check_grouping("abcde"), GroupingOutcome::Unreadable);
    let d = LiteralDigitGrouping.check_lit("1234567890", false, ()).unwrap();
    assert_eq!(d.suggestion, "1_234_567_890");
}

#[test]
fn suggestion_keeps_every_digit() {
    for &(lit, float) in LITERALS {
        let info = DigitInfo::new(lit, float);
        let h = info.grouping_hint();
        let mut expected = String::new();
        if !info.digits.contains('.') {
            expected.push_str(info.prefix.as_deref().unwrap_or(""));
        }
        expected.push_str(&stripped(&info.digits));
        expected.push_str(&stripped(info.suffix.as_deref().unwrap_or("")));
        assert_eq!(stripped(&h), expected, "{}", lit);
    }
}

#[test]
fn suggestion_draws_no_warning() {
    for &(lit, float) in LITERALS {
        let h = DigitInfo::new(lit, float).grouping_hint();
        assert!(LiteralDigitGrouping.check_lit(&h, float, ()).is_none(), "{} -> {}", lit, h);
    }
}

#[test]
fn classifier_splits_prefix_digits_and_suffix() {
    let i = DigitInfo::new("0xdead_beef_u64", false);
    assert_eq!(i.radix, Radix::Hexadecimal);
    assert_eq!(i.prefix.as_deref(), Some("0x"));
    assert_eq!(i.digits, "dead_beef");
    assert_eq!(i.suffix.as_deref(), Some("_u64"));
    assert!(!i.float);

    let i = DigitInfo::new("0b1010i8", false);
    assert_eq!(i.radix, Radix::Binary);
    assert_eq!(i.digits, "1010");
    assert_eq!(i.suffix.as_deref(), Some("i8"));

    let i = DigitInfo::new("0o777", false);
    assert_eq!(i.radix, Radix::Octal);
    assert_eq!(i.digits, "777");
    assert_eq!(i.suffix, None);

    let i = DigitInfo::new("1_000.25_f32", true);
    assert_eq!(i.radix, Radix::Decimal);
    assert_eq!(i.prefix, None);
    assert_eq!(i.digits, "1_000.25");
    assert_eq!(i.suffix.as_deref(), Some("_f32"));
    assert!(i.float);

    assert_eq!(LiteralDigitGrouping::get_digits("123_456u32", false), "123_456");
    assert_eq!(LiteralDigitGrouping::get_digits("2.5f32", true), "2.5");
    assert_eq!(LiteralDigitGrouping::get_digits("0x1f", false), "1f");
}

#[test]
fn suffix_and_prefix_survive_the_suggestion() {
    assert_eq!(DigitInfo::new("1234567_u32", false).grouping_hint(), "1_234_567_u32");
    assert_eq!(DigitInfo::new("0b11110000u8", false).grouping_hint(), "0b1111_0000u8");
    assert_eq!(DigitInfo::new("12345.678901f64", true).grouping_hint(), "12_345.678_901f64");
    assert_eq!(DigitInfo::new("1.", true).grouping_hint(), "1.");
}

#[test]
fn leading_separator_counts_as_consistent() {
    assert_eq!(check_grouping("_123"), GroupingOutcome::Acceptable(3));
    assert_eq!(check_grouping("1_234_567"), GroupingOutcome::Acceptable(3));
    assert_eq!(check_grouping("1234_5678"), GroupingOutcome::Acceptable(4));
    assert_eq!(check_grouping("12345_67890"), GroupingOutcome::GroupsTooLarge);
    assert_eq!(check_grouping("1234_567"), GroupingOutcome::Inconsistent);
    assert_eq!(check_grouping(""), GroupingOutcome::Acceptable(0));
}

#[test]
fn float_cross_check() {
    let w = |s: &str| LiteralDigitGrouping.check_lit(s, true, ()).map(|d| d.kind);
    assert_eq!(w("1234.5678"), None);
    assert_eq!(w("1_234.5"), None);
    assert_eq!(w("1_234.5678"), Some(WarningType::InconsistentDigitGrouping));
    assert_eq!(w("12.345_6"), None);
    assert_eq!(w("1234.567_8"), Some(WarningType::InconsistentDigitGrouping));
    assert_eq!(w("1_234.567_8"), None);
    assert_eq!(w("12_34.567_8"), Some(WarningType::InconsistentDigitGrouping));
    assert_eq!(w("12345.6"), Some(WarningType::UnreadableLiteral));
    assert_eq!(w("1.1234567_5"), Some(WarningType::LargeDigitGroups));
    assert_eq!(w("1.5_1234567"), Some(WarningType::InconsistentDigitGrouping));
    assert_eq!(w("1."), None);
}

#[test]
fn text_not_starting_with_a_digit_is_skipped() {
    assert!(LiteralDigitGrouping.check_lit("", false, ()).is_none());
    assert!(LiteralDigitGrouping.check_lit("_123456789", false, ()).is_none());
    assert!(LiteralDigitGrouping.check_lit(".123456789", true, ()).is_none());
}

#[test]
fn messages_of_each_kind() {
    assert_eq!(WarningType::UnreadableLiteral.message(), "long literal lacking separators");
    assert_eq!(
        WarningType::InconsistentDigitGrouping.message(),
        "digits grouped inconsistently by underscores"
    );
    assert_eq!(WarningType::LargeDigitGroups.message(), "digit groups should be smaller");
    let d = WarningType::LargeDigitGroups.display("1_234", "here");
    assert_eq!(d.kind, WarningType::LargeDigitGroups);
    assert_eq!(d.suggestion, "1_234");
    assert_eq!(d.message, "digit groups should be smaller");
    assert_eq!(d.locus, "here");
}
