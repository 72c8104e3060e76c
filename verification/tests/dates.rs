use option_arb::dates::{
    calc_time_difference, checked_time_difference, convert_date, date_day_number, day_difference,
    generate_months_slice, is_month_code, parse_date_code, try_convert_date,
};

#[test]
fn test_calc_time_difference() {
    // Test with a difference of 1 day.
    let difference: i64 = calc_time_difference("220101", "220102");
    assert_eq!(difference, 1);

    // Test with a difference of 5 days.
    let difference: i64 = calc_time_difference("220101", "220106");
    assert_eq!(difference, 5);

    // Test with dates being the same.
    let difference: i64 = calc_time_difference("220101", "220101");
    assert_eq!(difference, 0);

    // Test with the current date being later than the date.
    let difference: i64 = calc_time_difference("220106", "220101");
    assert_eq!(difference, -5);
}

#[test]
fn test_convert_date() {
    let converted_date: String = convert_date("220101");
    assert_eq!(converted_date, "JAN22");

    let converted_date: String = convert_date("221231");
    assert_eq!(converted_date, "DEC22");

    let converted_date: String = convert_date("220515");
    assert_eq!(converted_date, "MAY22");

    // A leap day.
    let converted_date: String = convert_date("240229");
    assert_eq!(converted_date, "FEB24");
}

#[test]
fn test_generate_months_slice() {
    let dates_slice: Vec<String> = vec![
        "211101".to_string(),
        "211102".to_string(),
        "211201".to_string(),
        "211202".to_string(),
        "211101".to_string(), // A duplicate, to see that it is dropped.
    ];

    let result: Vec<String> = generate_months_slice(&dates_slice);

    assert_eq!(result.len(), 2);
    assert_eq!(result[0], "NOV21");
    assert_eq!(result[1], "DEC21");
}

#[test]
fn month_label_for_each_month() {
    let names = [
        "JAN", "FEB", "MAR", "APR", "MAY", "JUN", "JUL", "AUG", "SEP", "OCT", "NOV", "DEC",
    ];
    for (i, name) in names.iter().enumerate() {
        let date = format!("21{:02}15", i + 1);
        assert_eq!(convert_date(&date), format!("{}21", name));
    }
}

#[test]
fn month_label_ignores_the_day() {
    assert_eq!(convert_date("220100"), "JAN22");
    assert_eq!(convert_date("220199"), "JAN22");
    assert_eq!(convert_date("230229"), "FEB23");
    assert_eq!(convert_date("000631"), "JUN00");
    assert_eq!(convert_date("991201"), "DEC99");
}

#[test]
fn month_label_only_of_date_codes() {
    assert_eq!(try_convert_date("211101"), Some("NOV21".to_string()));
    assert_eq!(try_convert_date("210001"), None);
    assert_eq!(try_convert_date("211301"), None);
    assert_eq!(try_convert_date("21110"), None);
    assert_eq!(try_convert_date("2111011"), None);
    assert_eq!(try_convert_date("21-11-01"), None);
    assert_eq!(try_convert_date("2111o1"), None);
    assert_eq!(try_convert_date(""), None);
    assert!(is_month_code("211101"));
    assert!(!is_month_code("219901"));
    assert!(!is_month_code("٢١١١٠١"));
}

#[test]
fn distinct_month_labels_keep_first_seen_order() {
    let dates: Vec<String> = ["221201", "220115", "221231", "220101", "230101", "220120"]
        .iter()
        .map(|s| s.to_string())
        .collect();
    assert_eq!(generate_months_slice(&dates), vec!["DEC22", "JAN22", "JAN23"]);
    assert_eq!(generate_months_slice(&Vec::new()), Vec::<String>::new());
}

#[test]
fn date_codes_are_read_digit_by_digit() {
    let parts = parse_date_code("240229").unwrap();
    assert_eq!((parts.year, parts.month, parts.day), (2024, 2, 29));
    let parts = parse_date_code("691231").unwrap();
    assert_eq!((parts.year, parts.month, parts.day), (2069, 12, 31));
    let parts = parse_date_code("700101").unwrap();
    assert_eq!((parts.year, parts.month, parts.day), (1970, 1, 1));
    let parts = parse_date_code("009900").unwrap();
    assert_eq!((parts.year, parts.month, parts.day), (2000, 99, 0));
    assert!(parse_date_code("24022").is_none());
    assert!(parse_date_code("24 229").is_none());
    assert!(parse_date_code("+40229").is_none());
}

#[test]
fn day_numbers_count_from_the_first_day_of_year_one() {
    assert_eq!(date_day_number("700101"), Some(719_163));
    assert_eq!(date_day_number("700102"), Some(719_164));
    assert_eq!(date_day_number("000101"), Some(730_120));
    assert_eq!(date_day_number("220230"), None);
    assert_eq!(date_day_number("230229"), None);
    assert_eq!(date_day_number("240229"), Some(738_945));
    assert_eq!(date_day_number("221301"), None);
    assert_eq!(date_day_number("220100"), None);
    assert_eq!(date_day_number("2201011"), None);
}

#[test]
fn time_difference_is_antisymmetric() {
    let dates = ["220101", "220228", "240229", "240301", "991231", "000101", "691231"];
    for a in dates {
        assert_eq!(calc_time_difference(a, a), 0);
        for b in dates {
            assert_eq!(calc_time_difference(a, b), -calc_time_difference(b, a));
        }
    }
}

#[test]
fn time_difference_across_months_and_years() {
    assert_eq!(calc_time_difference("240228", "240301"), 2);
    assert_eq!(calc_time_difference("230228", "230301"), 1);
    assert_eq!(calc_time_difference("211231", "220101"), 1);
    assert_eq!(calc_time_difference("220101", "230101"), 365);
    assert_eq!(calc_time_difference("240101", "250101"), 366);
    assert_eq!(calc_time_difference("991231", "000101"), 1);
}

#[test]
fn time_difference_only_between_days_that_exist() {
    assert_eq!(checked_time_difference("220101", "220106"), Some(5));
    assert_eq!(checked_time_difference("220106", "220101"), Some(-5));
    assert_eq!(checked_time_difference("220101", "220231"), None);
    assert_eq!(checked_time_difference("220001", "220101"), None);
    assert_eq!(checked_time_difference("2022-01-01", "220101"), None);
    assert_eq!(checked_time_difference("", ""), None);
}

#[test]
fn day_difference_of_day_numbers() {
    assert_eq!(day_difference(10, 15), 5);
    assert_eq!(day_difference(15, 10), -5);
    assert_eq!(day_difference(i32::MIN, i32::MAX), 4_294_967_295);
    assert_eq!(day_difference(i32::MAX, i32::MIN), -4_294_967_295);
}
