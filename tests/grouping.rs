use digit_grouping::{
    check_grouping, DigitInfo, GroupingOutcome, LiteralDigitGrouping, Radix, WarningType,
};

fn warn(src: &str, float: bool) -> Option<WarningType> {
    LiteralDigitGrouping.check_lit(src, float, ()).map(|d| d.kind)
}

fn hint(src: &str, float: bool) -> String {
    DigitInfo::new(src, float).grouping_hint()
}

#[test]
fn hex_literal_suggestion() {
    assert_eq!(hint("0xFFFFFFFF", false), "0xFFFF_FFFF");
    let d = LiteralDigitGrouping.check_lit("0xFFFFFFFF", false, 7u32).unwrap();
    assert_eq!(d.kind, WarningType::UnreadableLiteral);
    assert_eq!(d.suggestion, "0xFFFF_FFFF");
    assert_eq!(d.message, "long literal lacking separators");
    assert_eq!(d.locus, 7u32);
}

#[test]
fn uneven_groups_are_inconsistent() {
    assert_eq!(check_grouping("618_64_9189_73_511"), GroupingOutcome::Inconsistent);
    assert_eq!(warn("618_64_9189_73_511", false), Some(WarningType::InconsistentDigitGrouping));
    let d = LiteralDigitGrouping.check_lit("618_64_9189_73_511", false, ()).unwrap();
    assert_eq!(d.message, "digits grouped inconsistently by underscores");
    assert_eq!(d.suggestion, "61_864_918_973_511");
}

#[test]
fn seven_digit_groups_are_too_large() {
    assert_eq!(check_grouping("6186491_8973511"), GroupingOutcome::GroupsTooLarge);
    let d = LiteralDigitGrouping.check_lit("6186491_8973511", false, ()).unwrap();
    assert_eq!(d.kind, WarningType::LargeDigitGroups);
    assert_eq!(d.message, "digit groups should be smaller");
    assert_eq!(d.suggestion, "61_864_918_973_511");
}

#[test]
fn float_with_matching_groups_passes() {
    assert_eq!(check_grouping("1_234"), GroupingOutcome::Acceptable(3));
    assert_eq!(check_grouping("8_765"), GroupingOutcome::Acceptable(3));
    assert_eq!(warn("1_234.567_8", true), None);
    assert_eq!(warn("1_234.567_8f64", true), None);
}

#[test]
fn fraction_grouped_from_the_point() {
    // Read from the decimal point, "5_67" is a group of one, then one of two.
    assert_eq!(check_grouping("76_5"), GroupingOutcome::Inconsistent);
    assert_eq!(warn("1_234.5_67", true), Some(WarningType::InconsistentDigitGrouping));
    assert_eq!(hint("1_234.5_67", true), "1_234.567");
}

#[test]
fn float_with_plain_long_fraction_is_inconsistent() {
    assert_eq!(check_grouping("98765"), GroupingOutcome::Unreadable);
    assert_eq!(warn("1_234.56789", true), Some(WarningType::UnreadableLiteral));
    assert_eq!(warn("1_234.5678", true), Some(WarningType::InconsistentDigitGrouping));
    let d = LiteralDigitGrouping.check_lit("1_234.5678", true, ()).unwrap();
    assert_eq!(d.suggestion, "1_234.567_8");
}

#[test]
fn preferred_group_sizes() {
    assert_eq!(Radix::Binary.suggest_grouping(), 4);
    assert_eq!(Radix::Hexadecimal.suggest_grouping(), 4);
    assert_eq!(Radix::Octal.suggest_grouping(), 3);
    assert_eq!(Radix::Decimal.suggest_grouping(), 3);
    assert_eq!(hint("0b101010101", false), "0b1_0101_0101");
    assert_eq!(hint("0o1234567", false), "0o1_234_567");
    assert_eq!(hint("1234567", false), "1_234_567");
    assert_eq!(hint("0x1234567", false), "0x123_4567");
}
