use option_arb::sizing::{calc_final_num_orders, size_allocation, FillType};

fn sz_units(v: f64) -> i64 {
    (v * 10_000.0).round() as i64
}

#[test]
fn test_calc_final_num_orders() {
    // Test for port_val less than 600.
    assert_eq!(calc_final_num_orders("1", sz_units(599.0)), (0, 0));

    // Test for fill type "1".
    assert_eq!(calc_final_num_orders("1", sz_units(600.0)), (1, 1));
    assert_eq!(calc_final_num_orders("1", sz_units(1200.0)), (1, 1));

    // Test for fill type "2".
    assert_eq!(calc_final_num_orders("2", sz_units(600.0)), (1, 1));
    assert_eq!(calc_final_num_orders("2", sz_units(1200.0)), (1, 2));

    // Test for fill type "3".
    assert_eq!(calc_final_num_orders("3", sz_units(600.0)), (1, 1));
    assert_eq!(calc_final_num_orders("3", sz_units(1200.0)), (2, 1));
}

#[test]
fn sizing_is_nothing_below_one_capital_unit() {
    for code in ["1", "2", "3"] {
        assert_eq!(calc_final_num_orders(code, sz_units(599.9999)), (0, 0));
        assert_eq!(calc_final_num_orders(code, 0), (0, 0));
        assert_eq!(calc_final_num_orders(code, sz_units(-1200.0)), (0, 0));
        assert_eq!(calc_final_num_orders(code, i64::MIN), (0, 0));
    }
}

#[test]
fn sizing_single_ignores_the_amount_above_the_gate() {
    assert_eq!(calc_final_num_orders("1", sz_units(600.0)), (1, 1));
    assert_eq!(calc_final_num_orders("1", sz_units(100_000.0)), (1, 1));
    assert_eq!(calc_final_num_orders("1", i64::MAX), (1, 1));
}

#[test]
fn sizing_rounds_down_to_whole_capital_units() {
    assert_eq!(calc_final_num_orders("2", sz_units(1199.9999)), (1, 1));
    assert_eq!(calc_final_num_orders("2", sz_units(1800.0)), (1, 3));
    assert_eq!(calc_final_num_orders("3", sz_units(1799.99)), (2, 1));
    assert_eq!(calc_final_num_orders("3", sz_units(100_000.0)), (166, 1));
    assert_eq!(calc_final_num_orders("2", sz_units(100_000.0)), (1, 166));
}

#[test]
fn sizing_stops_at_the_largest_count() {
    assert_eq!(calc_final_num_orders("3", i64::MAX), (i32::MAX, 1));
    assert_eq!(calc_final_num_orders("2", i64::MAX), (1, i32::MAX));
    let just_fits: i64 = 6_000_000 * (i32::MAX as i64);
    assert_eq!(calc_final_num_orders("3", just_fits), (i32::MAX, 1));
    assert_eq!(calc_final_num_orders("3", just_fits - 1), (i32::MAX - 1, 1));
}

#[test]
fn fill_type_codes() {
    assert_eq!(FillType::from_code("1"), Some(FillType::Single));
    assert_eq!(FillType::from_code("2"), Some(FillType::ScaledFills));
    assert_eq!(FillType::from_code("3"), Some(FillType::ScaledOrders));
    assert_eq!(FillType::from_code(""), None);
    assert_eq!(FillType::from_code("4"), None);
    assert_eq!(FillType::from_code("12"), None);
    assert_eq!(FillType::from_code(" 1"), None);
}

#[test]
fn size_allocation_by_fill_type() {
    assert_eq!(size_allocation(FillType::Single, sz_units(3000.0)), (1, 1));
    assert_eq!(size_allocation(FillType::ScaledFills, sz_units(3000.0)), (1, 5));
    assert_eq!(size_allocation(FillType::ScaledOrders, sz_units(3000.0)), (5, 1));
    assert_eq!(size_allocation(FillType::ScaledOrders, sz_units(10.0)), (0, 0));
}
