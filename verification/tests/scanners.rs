use option_arb::boxspread::{get_boxspread_contenders, scan_boxspread};
use option_arb::butterfly::{get_butterfly_contenders, scan_butterfly};
use option_arb::calendar::{get_calendar_contenders, scan_calendar};
use option_arb::chain::{ChainIndex, StrikeTable};
use option_arb::contender::{Contender, Quote, Spread};
use option_arb::strike::{OptionType, Strike};

fn sc_units(v: f64) -> i64 {
    (v * 10_000.0).round() as i64
}

fn sc_wholes(units: i64) -> f64 {
    units as f64 / 10_000.0
}

fn sc_strike(v: f64) -> Strike {
    Strike::from_bits(v.to_bits())
}

fn sc_strikes(vs: &[f64]) -> Vec<Strike> {
    vs.iter().map(|v| sc_strike(*v)).collect()
}

fn sc_quote(mkt: f64, bid: f64, asz: f64) -> Quote {
    Quote::new(sc_units(mkt), sc_units(bid), sc_units(asz)).unwrap()
}

fn sc_dates(ds: &[&str]) -> Vec<String> {
    ds.iter().map(|d| d.to_string()).collect()
}

fn sc_put(index: &mut ChainIndex<Quote>, date: &str, t: OptionType, strike: f64, mkt: f64, asz: f64) {
    index.insert(date.to_string(), t, sc_strike(strike), sc_quote(mkt, 1.3, asz));
}

fn sc_leg_strikes(c: &Contender) -> Vec<f64> {
    let spread = c.spread();
    (0..spread.leg_count()).map(|i| f64::from_bits(spread.leg(i).strike.to_bits())).collect()
}

#[test]
fn test_get_calendar_contenders() {
    let dates_slice: Vec<String> = vec!["210101".to_string(), "210102".to_string()];

    let mut strike_slice = StrikeTable::new();
    strike_slice.insert("210101".to_string(), OptionType::Call, sc_strikes(&[100.0]));
    strike_slice.insert("210102".to_string(), OptionType::Call, sc_strikes(&[100.0]));

    let mut contracts_map: ChainIndex<Quote> = ChainIndex::new();
    contracts_map.insert(
        "210101".to_string(),
        OptionType::Call,
        sc_strike(100.0),
        sc_quote(2.2, 1.3, 8.0),
    );
    contracts_map.insert(
        "210102".to_string(),
        OptionType::Call,
        sc_strike(100.0),
        sc_quote(1.9, 1.3, 12.0),
    );

    let result: Vec<Contender> =
        get_calendar_contenders(&contracts_map, &dates_slice, &strike_slice).unwrap();

    assert_eq!(result.len(), 1);
    assert_eq!(sc_wholes(result[0].arb_value()), 0.3);
    assert_eq!(sc_wholes(result[0].avg_ask_size()), 10.0);
    assert_eq!(result[0].strategy().name(), "Calendar");
    assert_eq!(result[0].primary_expiration(), "210101");
}

#[test]
fn test_get_butterfly_contenders() {
    let dates_slice: Vec<String> = vec!["210101".to_string()];

    let mut strike_slice = StrikeTable::new();
    strike_slice.insert("210101".to_string(), OptionType::Call, sc_strikes(&[95.0, 100.0, 105.0]));

    let mut contracts_map: ChainIndex<Quote> = ChainIndex::new();
    contracts_map.insert(
        "210101".to_string(),
        OptionType::Call,
        sc_strike(95.0),
        sc_quote(2.1, 1.3, 8.0),
    );
    contracts_map.insert(
        "210101".to_string(),
        OptionType::Call,
        sc_strike(100.0),
        sc_quote(2.3, 1.3, 10.0),
    );
    contracts_map.insert(
        "210101".to_string(),
        OptionType::Call,
        sc_strike(105.0),
        sc_quote(2.2, 1.3, 12.0),
    );

    let result: Vec<Contender> =
        get_butterfly_contenders(&contracts_map, &dates_slice, &strike_slice).unwrap();

    assert_eq!(result.len(), 1);
    assert_eq!(sc_wholes(result[0].arb_value()), 0.3); // 2 * 2.3 (center) - (2.1 (left) + 2.2 (right)).
    assert_eq!(sc_wholes(result[0].avg_ask_size()), 10.0);
    assert_eq!(result[0].strategy().name(), "Butterfly");
    assert_eq!(result[0].primary_expiration(), "210101");
}

#[test]
fn test_get_boxspread_contenders() {
    let dates_slice: Vec<String> = vec!["210101".to_string()];

    let mut strike_slice = StrikeTable::new();
    strike_slice.insert("210101".to_string(), OptionType::Call, sc_strikes(&[95.0, 100.0]));
    strike_slice.insert("210101".to_string(), OptionType::Put, sc_strikes(&[95.0, 100.0]));

    let mut contracts_map: ChainIndex<Quote> = ChainIndex::new();
    contracts_map.insert(
        "210101".to_string(),
        OptionType::Call,
        sc_strike(95.0),
        sc_quote(1.4, 1.3, 8.0),
    );
    contracts_map.insert(
        "210101".to_string(),
        OptionType::Call,
        sc_strike(100.0),
        sc_quote(2.1, 1.3, 12.0),
    );
    contracts_map.insert(
        "210101".to_string(),
        OptionType::Put,
        sc_strike(95.0),
        sc_quote(1.5, 1.3, 12.0),
    );
    contracts_map.insert(
        "210101".to_string(),
        OptionType::Put,
        sc_strike(100.0),
        sc_quote(2.5, 1.3, 8.0),
    );

    let result: Vec<Contender> =
        get_boxspread_contenders(&contracts_map, &dates_slice, &strike_slice).unwrap();

    assert_eq!(result.len(), 1);
    assert_eq!(sc_wholes(result[0].arb_value()), 0.3); // (1.4 + 2.5) - (1.5 + 2.1).
    assert_eq!(sc_wholes(result[0].avg_ask_size()), 10.0);
    assert_eq!(result[0].strategy().name(), "Boxspread");
    assert_eq!(result[0].primary_expiration(), "210101");
}

#[test]
fn calendar_legs_are_near_then_far() {
    let dates = sc_dates(&["210101", "210108"]);
    let mut table = StrikeTable::new();
    table.insert("210101".to_string(), OptionType::Put, sc_strikes(&[100.0]));
    let mut index = ChainIndex::new();
    sc_put(&mut index, "210101", OptionType::Put, 100.0, 2.2, 8.0);
    sc_put(&mut index, "210108", OptionType::Put, 100.0, 1.9, 13.0);
    let found = get_calendar_contenders(&index, &dates, &table).unwrap();
    assert_eq!(found.len(), 1);
    match found[0].spread() {
        Spread::Calendar { near, far } => {
            assert_eq!(near.date, "210101");
            assert_eq!(far.date, "210108");
            assert_eq!(near.option_type, OptionType::Put);
            assert_eq!(far.option_type, OptionType::Put);
            assert_eq!(near.strike, sc_strike(100.0));
            assert_eq!(sc_wholes(near.mid_price), 2.2);
            assert_eq!(sc_wholes(far.mid_price), 1.9);
        }
        _ => panic!("not a calendar spread"),
    }
    assert_eq!(sc_wholes(found[0].avg_ask_size()), 10.5);
    assert_eq!(found[0].rank_score(), 0);
}

#[test]
fn calendar_needs_a_positive_value() {
    let dates = sc_dates(&["210101", "210108"]);
    let mut table = StrikeTable::new();
    table.insert("210101".to_string(), OptionType::Call, sc_strikes(&[100.0, 105.0]));
    let mut index = ChainIndex::new();
    sc_put(&mut index, "210101", OptionType::Call, 100.0, 1.9, 8.0);
    sc_put(&mut index, "210108", OptionType::Call, 100.0, 1.9, 8.0);
    sc_put(&mut index, "210101", OptionType::Call, 105.0, 1.0, 8.0);
    sc_put(&mut index, "210108", OptionType::Call, 105.0, 1.5, 8.0);
    assert!(get_calendar_contenders(&index, &dates, &table).unwrap().is_empty());
}

#[test]
fn calendar_pairs_each_date_with_the_next() {
    let dates = sc_dates(&["210115", "210101", "210108"]);
    let mut table = StrikeTable::new();
    for d in ["210115", "210101", "210108"] {
        table.insert(d.to_string(), OptionType::Call, sc_strikes(&[100.0]));
    }
    let mut index = ChainIndex::new();
    sc_put(&mut index, "210115", OptionType::Call, 100.0, 3.0, 8.0);
    sc_put(&mut index, "210101", OptionType::Call, 100.0, 2.0, 8.0);
    sc_put(&mut index, "210108", OptionType::Call, 100.0, 1.0, 8.0);
    let found = get_calendar_contenders(&index, &dates, &table).unwrap();
    assert_eq!(found.len(), 2);
    assert_eq!(found[0].primary_expiration(), "210115");
    assert_eq!(sc_wholes(found[0].arb_value()), 1.0);
    assert_eq!(found[1].primary_expiration(), "210101");
    assert_eq!(sc_wholes(found[1].arb_value()), 1.0);
}

#[test]
fn calendar_scans_calls_before_puts_and_strikes_ascending() {
    let dates = sc_dates(&["210101", "210108"]);
    let mut table = StrikeTable::new();
    table.insert("210101".to_string(), OptionType::Put, sc_strikes(&[100.0]));
    table.insert("210101".to_string(), OptionType::Call, sc_strikes(&[105.0, 95.0]));
    let mut index = ChainIndex::new();
    for d in ["210101", "210108"] {
        let m = if d == "210101" { 2.0 } else { 1.0 };
        sc_put(&mut index, d, OptionType::Put, 100.0, m, 8.0);
        sc_put(&mut index, d, OptionType::Call, 105.0, m, 8.0);
        sc_put(&mut index, d, OptionType::Call, 95.0, m, 8.0);
    }
    let found = get_calendar_contenders(&index, &dates, &table).unwrap();
    let strikes: Vec<Vec<f64>> = found.iter().map(sc_leg_strikes).collect();
    assert_eq!(strikes, vec![vec![95.0, 95.0], vec![105.0, 105.0], vec![100.0, 100.0]]);
}

#[test]
fn calendar_reports_the_first_missing_quote() {
    let dates = sc_dates(&["210101", "210108"]);
    let mut table = StrikeTable::new();
    table.insert("210101".to_string(), OptionType::Call, sc_strikes(&[100.0, 105.0]));
    let mut index = ChainIndex::new();
    sc_put(&mut index, "210101", OptionType::Call, 100.0, 2.2, 8.0);
    sc_put(&mut index, "210101", OptionType::Call, 105.0, 2.2, 8.0);
    sc_put(&mut index, "210108", OptionType::Call, 105.0, 1.9, 8.0);
    let e = get_calendar_contenders(&index, &dates, &table).unwrap_err();
    assert_eq!(e.date, "210108");
    assert_eq!(e.option_type, OptionType::Call);
    assert_eq!(e.strike, sc_strike(100.0));

    let report = scan_calendar(&index, &dates, &table);
    assert_eq!(report.misses.len(), 1);
    assert_eq!(report.contenders.len(), 1);
    assert_eq!(sc_leg_strikes(&report.contenders[0]), vec![105.0, 105.0]);
}

#[test]
fn calendar_of_too_few_dates_is_empty() {
    let mut table = StrikeTable::new();
    table.insert("210101".to_string(), OptionType::Call, sc_strikes(&[100.0]));
    let mut index = ChainIndex::new();
    sc_put(&mut index, "210101", OptionType::Call, 100.0, 2.2, 8.0);
    assert!(get_calendar_contenders(&index, &Vec::new(), &table).unwrap().is_empty());
    assert!(get_calendar_contenders(&index, &sc_dates(&["210101"]), &table).unwrap().is_empty());
    let empty_table = StrikeTable::new();
    assert!(get_calendar_contenders(&index, &sc_dates(&["210101", "210108"]), &empty_table)
        .unwrap()
        .is_empty());
}

#[test]
fn butterfly_windows_slide_over_sorted_strikes() {
    let dates = sc_dates(&["210101"]);
    let mut table = StrikeTable::new();
    table.insert("210101".to_string(), OptionType::Put, sc_strikes(&[110.0, 95.0, 105.0, 100.0]));
    let mut index = ChainIndex::new();
    sc_put(&mut index, "210101", OptionType::Put, 95.0, 1.0, 6.0);
    sc_put(&mut index, "210101", OptionType::Put, 100.0, 2.0, 9.0);
    sc_put(&mut index, "210101", OptionType::Put, 105.0, 2.5, 12.0);
    sc_put(&mut index, "210101", OptionType::Put, 110.0, 2.0, 4.0);
    let found = get_butterfly_contenders(&index, &dates, &table).unwrap();
    assert_eq!(found.len(), 2);
    assert_eq!(sc_leg_strikes(&found[0]), vec![95.0, 100.0, 105.0]);
    assert_eq!(sc_wholes(found[0].arb_value()), 0.5);
    assert_eq!(sc_wholes(found[0].avg_ask_size()), 9.0);
    assert_eq!(sc_leg_strikes(&found[1]), vec![100.0, 105.0, 110.0]);
    assert_eq!(sc_wholes(found[1].arb_value()), 1.0);
    assert_eq!(found[1].avg_ask_size(), 83_333);
}

#[test]
fn butterfly_needs_three_strikes() {
    let dates = sc_dates(&["210101"]);
    let mut index = ChainIndex::new();
    sc_put(&mut index, "210101", OptionType::Call, 95.0, 1.0, 6.0);
    sc_put(&mut index, "210101", OptionType::Call, 100.0, 9.0, 6.0);
    for strikes in [vec![], vec![95.0], vec![95.0, 100.0], vec![95.0, 100.0, 95.0]] {
        let mut table = StrikeTable::new();
        table.insert("210101".to_string(), OptionType::Call, sc_strikes(&strikes));
        assert!(get_butterfly_contenders(&index, &dates, &table).unwrap().is_empty());
    }
    assert!(get_butterfly_contenders(&index, &dates, &StrikeTable::new()).unwrap().is_empty());
    assert!(get_butterfly_contenders(&index, &Vec::new(), &StrikeTable::new())
        .unwrap()
        .is_empty());
}

#[test]
fn butterfly_needs_a_positive_value() {
    let dates = sc_dates(&["210101"]);
    let mut table = StrikeTable::new();
    table.insert("210101".to_string(), OptionType::Call, sc_strikes(&[95.0, 100.0, 105.0]));
    let mut index = ChainIndex::new();
    sc_put(&mut index, "210101", OptionType::Call, 95.0, 2.0, 6.0);
    sc_put(&mut index, "210101", OptionType::Call, 100.0, 2.0, 6.0);
    sc_put(&mut index, "210101", OptionType::Call, 105.0, 2.0, 6.0);
    assert!(get_butterfly_contenders(&index, &dates, &table).unwrap().is_empty());
}

#[test]
fn butterfly_reports_missing_quotes_and_goes_on() {
    let dates = sc_dates(&["210101"]);
    let mut table = StrikeTable::new();
    table.insert(
        "210101".to_string(),
        OptionType::Call,
        sc_strikes(&[90.0, 95.0, 100.0, 105.0, 110.0]),
    );
    let mut index = ChainIndex::new();
    sc_put(&mut index, "210101", OptionType::Call, 95.0, 1.0, 6.0);
    sc_put(&mut index, "210101", OptionType::Call, 100.0, 2.0, 6.0);
    sc_put(&mut index, "210101", OptionType::Call, 105.0, 1.0, 6.0);
    sc_put(&mut index, "210101", OptionType::Call, 110.0, 1.0, 6.0);
    let e = get_butterfly_contenders(&index, &dates, &table).unwrap_err();
    assert_eq!((e.date.as_str(), e.option_type, e.strike), ("210101", OptionType::Call, sc_strike(90.0)));
    let report = scan_butterfly(&index, &dates, &table);
    assert_eq!(report.misses.len(), 1);
    assert_eq!(report.contenders.len(), 1);
    assert_eq!(sc_leg_strikes(&report.contenders[0]), vec![95.0, 100.0, 105.0]);
}

#[test]
fn boxspread_legs_in_fixed_order() {
    let dates = sc_dates(&["210101"]);
    let mut table = StrikeTable::new();
    table.insert("210101".to_string(), OptionType::Call, sc_strikes(&[100.0, 95.0]));
    table.insert("210101".to_string(), OptionType::Put, sc_strikes(&[95.0, 100.0]));
    let mut index = ChainIndex::new();
    sc_put(&mut index, "210101", OptionType::Call, 95.0, 1.4, 8.0);
    sc_put(&mut index, "210101", OptionType::Call, 100.0, 2.1, 12.0);
    sc_put(&mut index, "210101", OptionType::Put, 95.0, 1.5, 12.0);
    sc_put(&mut index, "210101", OptionType::Put, 100.0, 2.5, 8.0);
    let found = get_boxspread_contenders(&index, &dates, &table).unwrap();
    assert_eq!(found.len(), 1);
    match found[0].spread() {
        Spread::Boxspread { low_call, high_call, low_put, high_put } => {
            assert_eq!((low_call.option_type, low_call.strike), (OptionType::Call, sc_strike(95.0)));
            assert_eq!((high_call.option_type, high_call.strike), (OptionType::Call, sc_strike(100.0)));
            assert_eq!((low_put.option_type, low_put.strike), (OptionType::Put, sc_strike(95.0)));
            assert_eq!((high_put.option_type, high_put.strike), (OptionType::Put, sc_strike(100.0)));
            assert_eq!(sc_wholes(low_call.mid_price), 1.4);
            assert_eq!(sc_wholes(high_put.mid_price), 2.5);
        }
        _ => panic!("not a box spread"),
    }
}

#[test]
fn boxspread_pairs_every_two_common_strikes() {
    let dates = sc_dates(&["210101"]);
    let mut table = StrikeTable::new();
    table.insert("210101".to_string(), OptionType::Call, sc_strikes(&[95.0, 100.0, 105.0, 110.0]));
    table.insert("210101".to_string(), OptionType::Put, sc_strikes(&[105.0, 100.0, 95.0, 90.0]));
    let mut index = ChainIndex::new();
    for (k, s) in [95.0, 100.0, 105.0].iter().enumerate() {
        sc_put(&mut index, "210101", OptionType::Call, *s, 1.0, 8.0);
        sc_put(&mut index, "210101", OptionType::Put, *s, 1.0 + (k as f64), 8.0);
    }
    let found = get_boxspread_contenders(&index, &dates, &table).unwrap();
    let pairs: Vec<(f64, f64)> = found
        .iter()
        .map(|c| {
            let s = sc_leg_strikes(c);
            (s[0], s[1])
        })
        .collect();
    assert_eq!(pairs, vec![(95.0, 100.0), (95.0, 105.0), (100.0, 105.0)]);
    assert_eq!(sc_wholes(found[1].arb_value()), 2.0);
}

#[test]
fn boxspread_needs_calls_and_puts() {
    let dates = sc_dates(&["210101"]);
    let mut index = ChainIndex::new();
    sc_put(&mut index, "210101", OptionType::Call, 95.0, 1.4, 8.0);
    sc_put(&mut index, "210101", OptionType::Call, 100.0, 2.1, 12.0);
    sc_put(&mut index, "210101", OptionType::Put, 95.0, 1.5, 12.0);
    sc_put(&mut index, "210101", OptionType::Put, 100.0, 2.5, 8.0);
    let mut calls_only = StrikeTable::new();
    calls_only.insert("210101".to_string(), OptionType::Call, sc_strikes(&[95.0, 100.0]));
    assert!(get_boxspread_contenders(&index, &dates, &calls_only).unwrap().is_empty());
    let mut one_common = StrikeTable::new();
    one_common.insert("210101".to_string(), OptionType::Call, sc_strikes(&[95.0, 100.0]));
    one_common.insert("210101".to_string(), OptionType::Put, sc_strikes(&[95.0, 105.0]));
    assert!(get_boxspread_contenders(&index, &dates, &one_common).unwrap().is_empty());
}

#[test]
fn boxspread_reports_the_first_missing_quote() {
    let dates = sc_dates(&["210101"]);
    let mut table = StrikeTable::new();
    table.insert("210101".to_string(), OptionType::Call, sc_strikes(&[95.0, 100.0]));
    table.insert("210101".to_string(), OptionType::Put, sc_strikes(&[95.0, 100.0]));
    let mut index = ChainIndex::new();
    sc_put(&mut index, "210101", OptionType::Call, 95.0, 1.4, 8.0);
    sc_put(&mut index, "210101", OptionType::Call, 100.0, 2.1, 12.0);
    sc_put(&mut index, "210101", OptionType::Put, 100.0, 2.5, 8.0);
    let e = get_boxspread_contenders(&index, &dates, &table).unwrap_err();
    assert_eq!((e.date.as_str(), e.option_type, e.strike), ("210101", OptionType::Put, sc_strike(95.0)));
    let report = scan_boxspread(&index, &dates, &table);
    assert_eq!(report.contenders.len(), 0);
    assert_eq!(report.misses.len(), 1);
}

#[test]
fn decimal_amounts_subtract_exactly() {
    let dates = sc_dates(&["210101", "210102"]);
    let mut table = StrikeTable::new();
    table.insert("210101".to_string(), OptionType::Call, sc_strikes(&[100.0]));
    let mut index = ChainIndex::new();
    sc_put(&mut index, "210101", OptionType::Call, 100.0, 0.3, 1.0);
    sc_put(&mut index, "210102", OptionType::Call, 100.0, 0.2, 2.0);
    let found = get_calendar_contenders(&index, &dates, &table).unwrap();
    assert_eq!(found[0].arb_value(), 1_000);
    assert_eq!(found[0].avg_ask_size(), 15_000);
}

#[test]
fn quotes_stay_within_the_quoted_range() {
    let limit: i64 = 1_000_000_000_000_000;
    assert!(Quote::new(limit, -limit, 0).is_some());
    assert!(Quote::new(limit + 1, 0, 0).is_none());
    assert!(Quote::new(0, -limit - 1, 0).is_none());
    assert!(Quote::new(0, 0, i64::MAX).is_none());
    let q = Quote::new(22_000, 13_000, 80_000).unwrap();
    assert_eq!((q.mid_price(), q.bid(), q.ask_size()), (22_000, 13_000, 80_000));
}

#[test]
fn scans_hold_at_the_limits_of_the_quoted_range() {
    let limit: i64 = 1_000_000_000_000_000;
    let dates = sc_dates(&["210101"]);
    let mut table = StrikeTable::new();
    table.insert("210101".to_string(), OptionType::Call, sc_strikes(&[95.0, 100.0]));
    table.insert("210101".to_string(), OptionType::Put, sc_strikes(&[95.0, 100.0]));
    let mut index = ChainIndex::new();
    let high = Quote::new(limit, 0, limit).unwrap();
    let low = Quote::new(-limit, 0, limit).unwrap();
    index.insert("210101".to_string(), OptionType::Call, sc_strike(95.0), high);
    index.insert("210101".to_string(), OptionType::Put, sc_strike(100.0), high);
    index.insert("210101".to_string(), OptionType::Call, sc_strike(100.0), low);
    index.insert("210101".to_string(), OptionType::Put, sc_strike(95.0), low);
    let found = get_boxspread_contenders(&index, &dates, &table).unwrap();
    assert_eq!(found.len(), 1);
    assert_eq!(found[0].arb_value(), 4 * limit);
    assert_eq!(found[0].avg_ask_size(), limit);
}
