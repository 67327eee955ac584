use tasknote::cli::parse_ids;
use tasknote::item::Priority;
use tasknote::text::{decimal_string, trimmed};

#[test]
fn parse_ids_reads_comma_separated_ids() {
    assert_eq!(parse_ids("1,2,3"), Ok(vec![1, 2, 3]));
}

#[test]
fn parse_ids_trims_each_piece() {
    assert_eq!(parse_ids(" 4 , 5\t,6 "), Ok(vec![4, 5, 6]));
}

#[test]
fn parse_ids_single_id() {
    assert_eq!(parse_ids("42"), Ok(vec![42]));
}

#[test]
fn parse_ids_accepts_plus_sign_and_leading_zeros() {
    assert_eq!(parse_ids("+7,007"), Ok(vec![7, 7]));
}

#[test]
fn parse_ids_rejects_empty_piece() {
    assert_eq!(parse_ids("1,,2"), Err("Invalid ID: ''".to_string()));
}

#[test]
fn parse_ids_rejects_empty_input() {
    assert_eq!(parse_ids(""), Err("Invalid ID: ''".to_string()));
}

#[test]
fn parse_ids_reports_first_bad_piece_trimmed() {
    assert_eq!(parse_ids("1, x ,y"), Err("Invalid ID: 'x'".to_string()));
}

#[test]
fn parse_ids_rejects_words_and_signs() {
    assert_eq!(parse_ids("abc"), Err("Invalid ID: 'abc'".to_string()));
    assert_eq!(parse_ids("-1"), Err("Invalid ID: '-1'".to_string()));
    assert_eq!(parse_ids("+"), Err("Invalid ID: '+'".to_string()));
    assert_eq!(parse_ids("1 2"), Err("Invalid ID: '1 2'".to_string()));
}

#[test]
fn parse_ids_bounds_of_u32() {
    assert_eq!(parse_ids("4294967295"), Ok(vec![4294967295]));
    assert_eq!(parse_ids("4294967296"), Err("Invalid ID: '4294967296'".to_string()));
    assert_eq!(parse_ids("99999999999999999999"), Err("Invalid ID: '99999999999999999999'".to_string()));
}

#[test]
fn parse_ids_trims_unicode_white_space() {
    assert_eq!(parse_ids("\u{3000}8\u{a0}"), Ok(vec![8]));
}

#[test]
fn parse_ids_round_trips_joined_numerals() {
    let ids: Vec<u32> = vec![0, 1, 17, 4294967295, 300];
    let joined = ids.iter().map(|n| n.to_string()).collect::<Vec<_>>().join(",");
    assert_eq!(parse_ids(&joined), Ok(ids));
}

#[test]
fn parse_ids_agrees_with_std_parse() {
    let pieces = ["12", " 9 ", "+3", "x", "", "0x1", "٣", "4294967295", "4294967296"];
    for p in pieces.iter() {
        let expected = p.trim().parse::<u32>().ok().map(|n| vec![n]);
        assert_eq!(parse_ids(p).ok(), expected, "piece {:?}", p);
    }
}

#[test]
fn decimal_matches_display() {
    for n in [0u64, 5, 10, 99, 100, 12345, u64::MAX] {
        assert_eq!(decimal_string(n), n.to_string());
    }
}

#[test]
fn trimmed_matches_str_trim() {
    for s in ["  a b  ", "\n\tx\u{2003}", "", "   ", "plain"] {
        let chars: Vec<char> = s.chars().collect();
        let t: String = trimmed(&chars).into_iter().collect();
        assert_eq!(t, s.trim());
    }
}

#[test]
fn priority_from_str_ignores_case() {
    assert_eq!(Priority::from_str("low"), Some(Some(Priority::Low)));
    assert_eq!(Priority::from_str("Medium"), Some(Some(Priority::Medium)));
    assert_eq!(Priority::from_str("HIGH"), Some(Some(Priority::High)));
    assert_eq!(Priority::from_str("NoNe"), Some(None));
}

#[test]
fn priority_from_str_rejects_other_words() {
    assert_eq!(Priority::from_str("urgent"), None);
    assert_eq!(Priority::from_str(""), None);
    assert_eq!(Priority::from_str(" low"), None);
}

#[test]
fn priority_labels() {
    assert_eq!(Priority::Low.label(), "LOW");
    assert_eq!(Priority::Medium.label(), "MEDIUM");
    assert_eq!(Priority::High.label(), "HIGH");
}

#[test]
fn priority_labels_read_back() {
    for p in [Priority::Low, Priority::Medium, Priority::High] {
        assert_eq!(Priority::from_str(p.label()), Some(Some(p)));
    }
}

#[test]
fn from_lowercase_needs_lowercase() {
    assert_eq!(Priority::from_lowercase("high"), Some(Some(Priority::High)));
    assert_eq!(Priority::from_lowercase("HIGH"), None);
}
