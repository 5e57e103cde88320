use class_scheduler::{
    get_section_periods, parse_period_string, parse_with_pattern, periods_of_matches, Day,
    ParseError, Period, SLOT_PATTERN,
};

#[test]
fn test_parse_period_string() {
    assert_eq!(
        parse_period_string("MWF3"),
        Ok(vec![
            Period(Day::Monday, 3),
            Period(Day::Wednesday, 3),
            Period(Day::Friday, 3)
        ])
    );

    assert_eq!(
        parse_period_string("TR5-6"),
        Ok(vec![
            Period(Day::Tuesday, 5),
            Period(Day::Thursday, 5),
            Period(Day::Tuesday, 6),
            Period(Day::Thursday, 6),
        ])
    );
}

#[test]
fn test_get_section_periods() {
    assert_eq!(
        get_section_periods(&vec!["MWF3".to_string()]),
        Ok(vec![
            Period(Day::Monday, 3),
            Period(Day::Wednesday, 3),
            Period(Day::Friday, 3)
        ])
    );

    assert_eq!(
        get_section_periods(&vec!["MWF3".to_string(), "TR3".to_string()]),
        Ok(vec![
            Period(Day::Monday, 3),
            Period(Day::Wednesday, 3),
            Period(Day::Friday, 3),
            Period(Day::Tuesday, 3),
            Period(Day::Thursday, 3)
        ])
    );
}

#[test]
fn notation_without_token_denotes_nothing() {
    assert_eq!(parse_period_string(""), Ok(vec![]));
    assert_eq!(parse_period_string("lunch"), Ok(vec![]));
    assert_eq!(parse_period_string("12"), Ok(vec![]));
    assert_eq!(parse_period_string("M"), Ok(vec![]));
}

#[test]
fn tokens_are_found_inside_other_text() {
    assert_eq!(
        parse_period_string("lab: T4, then F7-8!"),
        Ok(vec![
            Period(Day::Tuesday, 4),
            Period(Day::Friday, 7),
            Period(Day::Friday, 8),
        ])
    );
}

#[test]
fn two_tokens_in_one_notation() {
    assert_eq!(
        parse_period_string("MWF4 T5-6"),
        Ok(vec![
            Period(Day::Monday, 4),
            Period(Day::Wednesday, 4),
            Period(Day::Friday, 4),
            Period(Day::Tuesday, 5),
            Period(Day::Tuesday, 6),
        ])
    );
}

#[test]
fn repeated_days_are_kept() {
    assert_eq!(
        parse_period_string("MM1"),
        Ok(vec![Period(Day::Monday, 1), Period(Day::Monday, 1)])
    );
    assert_eq!(
        parse_period_string("FM2"),
        Ok(vec![Period(Day::Friday, 2), Period(Day::Monday, 2)])
    );
}

#[test]
fn two_digit_period_numbers() {
    assert_eq!(
        parse_period_string("R10-12"),
        Ok(vec![
            Period(Day::Thursday, 10),
            Period(Day::Thursday, 11),
            Period(Day::Thursday, 12),
        ])
    );
    assert_eq!(parse_period_string("W99"), Ok(vec![Period(Day::Wednesday, 99)]));
    assert_eq!(parse_period_string("W07"), Ok(vec![Period(Day::Wednesday, 7)]));
}

#[test]
fn a_third_digit_is_not_part_of_the_token() {
    assert_eq!(parse_period_string("M123"), Ok(vec![Period(Day::Monday, 12)]));
}

#[test]
fn of_six_day_letters_the_last_five_count() {
    assert_eq!(
        parse_period_string("MTWRFM1"),
        Ok(vec![
            Period(Day::Tuesday, 1),
            Period(Day::Wednesday, 1),
            Period(Day::Thursday, 1),
            Period(Day::Friday, 1),
            Period(Day::Monday, 1),
        ])
    );
}

#[test]
fn falling_range_is_empty() {
    assert_eq!(parse_period_string("M5-3"), Ok(vec![]));
}

#[test]
fn range_of_one_period() {
    assert_eq!(parse_period_string("M5-5"), Ok(vec![Period(Day::Monday, 5)]));
}

#[test]
fn digit_of_another_script_is_a_bad_period_number() {
    assert_eq!(
        parse_period_string("M\u{0663}"),
        Err(ParseError::BadPeriodNumber)
    );
}

#[test]
fn rejected_pattern_is_reported() {
    assert_eq!(parse_with_pattern("(", "MWF3"), Err(ParseError::BadPattern));
}

#[test]
fn pattern_with_other_day_letters_reports_unknown_day() {
    assert_eq!(
        parse_with_pattern("([A-Z]+)(\\d)(x)?", "MXF3"),
        Err(ParseError::UnknownDay('X'))
    );
}

#[test]
fn pattern_without_groups_reports_incomplete_match() {
    assert_eq!(
        parse_with_pattern("[MTWRF]\\d", "M3"),
        Err(ParseError::IncompleteMatch)
    );
    assert_eq!(parse_with_pattern("[MTWRF]\\d", "none"), Ok(vec![]));
}

#[test]
fn slot_pattern_agrees_with_parse_period_string() {
    assert_eq!(
        parse_with_pattern(SLOT_PATTERN, "TR5-6"),
        parse_period_string("TR5-6")
    );
}

fn groups(texts: &[Option<&str>]) -> Vec<Option<String>> {
    texts.iter().map(|t| t.map(|s| s.to_string())).collect()
}

#[test]
fn matches_are_expanded_in_order() {
    let found = vec![
        groups(&[Some("TR5-6"), Some("TR"), Some("5"), Some("6")]),
        groups(&[Some("M1"), Some("M"), Some("1"), None]),
    ];
    assert_eq!(
        periods_of_matches(&found),
        Ok(vec![
            Period(Day::Tuesday, 5),
            Period(Day::Thursday, 5),
            Period(Day::Tuesday, 6),
            Period(Day::Thursday, 6),
            Period(Day::Monday, 1),
        ])
    );
    assert_eq!(periods_of_matches(&vec![]), Ok(vec![]));
}

#[test]
fn match_errors() {
    assert_eq!(
        periods_of_matches(&vec![groups(&[Some("M1"), None, Some("1"), None])]),
        Err(ParseError::IncompleteMatch)
    );
    assert_eq!(
        periods_of_matches(&vec![groups(&[Some("M1"), Some("M"), None, None])]),
        Err(ParseError::IncompleteMatch)
    );
    assert_eq!(
        periods_of_matches(&vec![groups(&[Some("M1"), Some("M")])]),
        Err(ParseError::IncompleteMatch)
    );
    assert_eq!(
        periods_of_matches(&vec![groups(&[Some("Mx"), Some("M"), Some("x"), None])]),
        Err(ParseError::BadPeriodNumber)
    );
    assert_eq!(
        periods_of_matches(&vec![groups(&[Some("M"), Some("M"), Some(""), None])]),
        Err(ParseError::BadPeriodNumber)
    );
    assert_eq!(
        periods_of_matches(&vec![groups(&[Some("M256"), Some("M"), Some("256"), None])]),
        Err(ParseError::BadPeriodNumber)
    );
    assert_eq!(
        periods_of_matches(&vec![groups(&[Some("M1-+2"), Some("M"), Some("1"), Some("+2")])]),
        Err(ParseError::BadPeriodNumber)
    );
    assert_eq!(
        periods_of_matches(&vec![groups(&[Some("MS1"), Some("MS"), Some("1"), None])]),
        Err(ParseError::UnknownDay('S'))
    );
}

#[test]
fn first_error_wins() {
    let found = vec![
        groups(&[Some("M1"), Some("M"), Some("1"), None]),
        groups(&[Some("Q1"), Some("Q"), Some("1"), None]),
        groups(&[Some("Mx"), Some("M"), Some("x"), None]),
    ];
    assert_eq!(periods_of_matches(&found), Err(ParseError::UnknownDay('Q')));
}

#[test]
fn a_match_without_third_group_is_a_single_period() {
    assert_eq!(
        periods_of_matches(&vec![groups(&[Some("F9"), Some("F"), Some("9")])]),
        Ok(vec![Period(Day::Friday, 9)])
    );
}

#[test]
fn period_numbers_up_to_the_limit() {
    assert_eq!(
        periods_of_matches(&vec![groups(&[
            Some("M254-255"),
            Some("M"),
            Some("254"),
            Some("0255")
        ])]),
        Ok(vec![Period(Day::Monday, 254), Period(Day::Monday, 255)])
    );
    assert_eq!(
        periods_of_matches(&vec![groups(&[Some("M0"), Some("M"), Some("0"), None])]),
        Ok(vec![Period(Day::Monday, 0)])
    );
}

#[test]
fn day_codes() {
    assert_eq!(Day::from_char('M'), Ok(Day::Monday));
    assert_eq!(Day::from_char('T'), Ok(Day::Tuesday));
    assert_eq!(Day::from_char('W'), Ok(Day::Wednesday));
    assert_eq!(Day::from_char('R'), Ok(Day::Thursday));
    assert_eq!(Day::from_char('F'), Ok(Day::Friday));
    assert_eq!(Day::from_char('S'), Err(ParseError::UnknownDay('S')));
    assert_eq!(Day::from_char('m'), Err(ParseError::UnknownDay('m')));
}

#[test]
fn day_positions_and_names() {
    let days = [
        Day::Monday,
        Day::Tuesday,
        Day::Wednesday,
        Day::Thursday,
        Day::Friday,
    ];
    let names = ["Monday", "Tuesday", "Wednesday", "Thursday", "Friday"];
    for (i, day) in days.iter().enumerate() {
        assert_eq!(day.index() as usize, i);
        assert_eq!(Day::from_index(i as u8), Some(*day));
        assert_eq!(day.name(), names[i]);
    }
    assert_eq!(Day::from_index(5), None);
    assert_eq!(Period(Day::Friday, 7).day(), Day::Friday);
    assert_eq!(Period(Day::Friday, 7).number(), 7);
}

#[test]
fn section_keeps_order_and_duplicates() {
    assert_eq!(
        get_section_periods(&vec!["T2".to_string(), "M1".to_string(), "T2".to_string()]),
        Ok(vec![
            Period(Day::Tuesday, 2),
            Period(Day::Monday, 1),
            Period(Day::Tuesday, 2),
        ])
    );
    assert_eq!(get_section_periods(&vec![]), Ok(vec![]));
}

#[test]
fn section_of_one_notation_is_its_parse() {
    for text in ["MWF3", "TR5-6", "", "x", "MWF4 T5-6"] {
        assert_eq!(
            get_section_periods(&vec![text.to_string()]),
            parse_period_string(text)
        );
    }
}

#[test]
fn section_of_two_notations_is_both_parses() {
    let mut both = parse_period_string("MWF3").unwrap();
    both.extend(parse_period_string("TR3").unwrap());
    assert_eq!(
        get_section_periods(&vec!["MWF3".to_string(), "TR3".to_string()]),
        Ok(both)
    );
}

#[test]
fn section_error_is_the_first_in_order() {
    assert_eq!(
        get_section_periods(&vec!["M1".to_string(), "T\u{0662}".to_string(), "W3".to_string()]),
        Err(ParseError::BadPeriodNumber)
    );
}
