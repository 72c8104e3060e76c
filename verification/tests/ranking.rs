use option_arb::contender::{Contender, Leg, Spread};
use option_arb::rank::{calc_rank_value, checked_rank_value, rank_contenders, rank_score};
use option_arb::strike::{OptionType, Strike};

fn rk_units(v: f64) -> i64 {
    (v * 10_000.0).round() as i64
}

fn rk_wholes(units: i128) -> f64 {
    units as f64 / 10_000.0
}

fn rk_leg(date: &str, strike: f64) -> Leg {
    Leg {
        date: date.to_string(),
        option_type: OptionType::Call,
        strike: Strike::from_bits(strike.to_bits()),
        mid_price: rk_units(1.0),
    }
}

fn rk_contender(tag: f64, arb: f64, avg_ask: f64, expiration: &str) -> Contender {
    let spread = Spread::Calendar { near: rk_leg(expiration, tag), far: rk_leg("991231", tag) };
    Contender::new(spread, rk_units(arb), rk_units(avg_ask), expiration.to_string(), 0).unwrap()
}

fn rk_tag(c: &Contender) -> f64 {
    f64::from_bits(c.spread().leg(0).strike.to_bits())
}

#[test]
fn test_calc_rank_value() {
    // One day to expiration: the score is the whole product.
    let rank_value: f64 = rk_wholes(calc_rank_value(rk_units(10.0), rk_units(5.0), "220101", "220102"));
    assert!((rank_value - (50.0 / 1.0)).abs() < 1e-9);

    // Five days to expiration: a fifth of it.
    let rank_value: f64 = rk_wholes(calc_rank_value(rk_units(10.0), rk_units(5.0), "220101", "220106"));
    assert!((rank_value - (50.0 / 5.0)).abs() < 1e-9);

    // The same day: the divisor does not fall below one day.
    let rank_value: f64 = rk_wholes(calc_rank_value(rk_units(10.0), rk_units(5.0), "220101", "220101"));
    assert!((rank_value - (50.0 / 1.0)).abs() < 1e-9);
}

#[test]
fn rank_value_has_a_floor_of_one_day() {
    assert_eq!(calc_rank_value(rk_units(10.0), rk_units(5.0), "220106", "220101"), 500_000);
    assert_eq!(rank_score(rk_units(10.0), rk_units(5.0), 0), 500_000);
    assert_eq!(rank_score(rk_units(10.0), rk_units(5.0), -30), 500_000);
    assert_eq!(rank_score(rk_units(10.0), rk_units(5.0), i64::MIN), 500_000);
    assert_eq!(rank_score(rk_units(10.0), rk_units(5.0), 2), 250_000);
}

#[test]
fn rank_value_rounds_down_to_a_unit() {
    assert_eq!(rank_score(rk_units(10.0), rk_units(5.0), 3), 166_666);
    assert_eq!(rank_score(rk_units(10.0), rk_units(0.3), 7), 4_285);
    assert_eq!(rank_score(rk_units(-10.0), rk_units(5.0), 3), -166_667);
    assert_eq!(rank_score(1, 1, 1), 0);
    assert_eq!(rank_score(-1, 1, 1), -1);
    assert_eq!(rank_score(0, rk_units(5.0), 1), 0);
}

#[test]
fn rank_value_at_the_ends_of_the_range() {
    let big = i64::MAX as i128;
    assert_eq!(rank_score(i64::MAX, i64::MAX, 1), (big * big) / 10_000);
    assert_eq!(rank_score(i64::MIN, i64::MIN, i64::MAX), ((big + 1) * (big + 1)) / (10_000 * big));
    assert_eq!(rank_score(i64::MIN, i64::MAX, 1), -(((big + 1) * big + 9_999) / 10_000));
}

#[test]
fn rank_value_only_between_days_that_exist() {
    assert_eq!(
        checked_rank_value(rk_units(10.0), rk_units(5.0), "220101", "220103"),
        Some(250_000)
    );
    assert_eq!(checked_rank_value(rk_units(10.0), rk_units(5.0), "220101", "220230"), None);
    assert_eq!(checked_rank_value(rk_units(10.0), rk_units(5.0), "22-01-01", "220103"), None);
}

#[test]
fn ranking_runs_from_the_highest_score_down() {
    let contenders = vec![
        rk_contender(1.0, 1.0, 10.0, "220111"),
        rk_contender(2.0, 3.0, 10.0, "220102"),
        rk_contender(3.0, 2.0, 10.0, "220103"),
        rk_contender(4.0, 0.5, 4.0, "211201"),
    ];
    let ranked = rank_contenders(contenders, "220101", 10).unwrap();
    let tags: Vec<f64> = ranked.iter().map(rk_tag).collect();
    assert_eq!(tags, vec![2.0, 3.0, 4.0, 1.0]);
    let scores: Vec<i128> = ranked.iter().map(|c| c.rank_score()).collect();
    assert_eq!(scores, vec![300_000, 100_000, 20_000, 10_000]);
    assert_eq!(ranked[0].arb_value(), rk_units(3.0));
    assert_eq!(ranked[0].avg_ask_size(), rk_units(10.0));
    assert_eq!(ranked[0].primary_expiration(), "220102");
}

#[test]
fn ranking_keeps_ties_in_the_order_they_came() {
    let contenders = vec![
        rk_contender(1.0, 1.0, 10.0, "220102"),
        rk_contender(2.0, 2.0, 10.0, "220102"),
        rk_contender(3.0, 1.0, 10.0, "220102"),
        rk_contender(4.0, 2.0, 10.0, "220102"),
        rk_contender(5.0, 4.0, 10.0, "220103"),
        rk_contender(6.0, 1.0, 10.0, "220101"),
    ];
    let ranked = rank_contenders(contenders, "220101", 6).unwrap();
    let tags: Vec<f64> = ranked.iter().map(rk_tag).collect();
    assert_eq!(tags, vec![2.0, 4.0, 5.0, 1.0, 3.0, 6.0]);
}

#[test]
fn ranking_is_cut_to_the_depth() {
    let make = || {
        vec![
            rk_contender(1.0, 1.0, 10.0, "220102"),
            rk_contender(2.0, 3.0, 10.0, "220102"),
            rk_contender(3.0, 2.0, 10.0, "220102"),
        ]
    };
    let tags = |depth: i32| -> Vec<f64> {
        rank_contenders(make(), "220101", depth).unwrap().iter().map(rk_tag).collect()
    };
    assert_eq!(tags(2), vec![2.0, 3.0]);
    assert_eq!(tags(1), vec![2.0]);
    assert_eq!(tags(3), vec![2.0, 3.0, 1.0]);
    assert_eq!(tags(i32::MAX), vec![2.0, 3.0, 1.0]);
    assert_eq!(tags(0), Vec::<f64>::new());
    assert_eq!(tags(-1), Vec::<f64>::new());
    assert_eq!(tags(i32::MIN), Vec::<f64>::new());
}

#[test]
fn ranking_needs_days_that_exist() {
    let good = || vec![rk_contender(1.0, 1.0, 10.0, "220102")];
    assert!(rank_contenders(good(), "220101", 1).is_some());
    assert!(rank_contenders(good(), "220132", 1).is_none());
    assert!(rank_contenders(good(), "2022-01-01", 1).is_none());
    assert!(rank_contenders(Vec::new(), "220132", 1).is_none());
    assert_eq!(rank_contenders(Vec::new(), "220101", 1).unwrap().len(), 0);
    let bad = vec![rk_contender(1.0, 1.0, 10.0, "220102"), rk_contender(2.0, 1.0, 10.0, "2021-11-01")];
    assert!(rank_contenders(bad, "220101", 1).is_none());
}

#[test]
fn ranking_replaces_an_earlier_score() {
    let spread = Spread::Calendar { near: rk_leg("220102", 1.0), far: rk_leg("220109", 1.0) };
    let stale =
        Contender::new(spread, rk_units(1.0), rk_units(10.0), "220102".to_string(), 17_500).unwrap();
    assert_eq!(stale.rank_score(), 17_500);
    let ranked = rank_contenders(vec![stale], "220101", 1).unwrap();
    assert_eq!(ranked[0].rank_score(), 100_000);
    let again = ranked.into_iter().next().unwrap().with_rank_score(-3);
    assert_eq!(again.rank_score(), -3);
    assert_eq!(again.arb_value(), rk_units(1.0));
}
