//! How much to trade: the number of contenders and the quantity of each,
//! from the capital at hand.
use vstd::prelude::*;

verus! {

/// The capital that one traded spread takes, in units: 600 wholes.
pub const CAPITAL_UNIT: i64 = 6_000_000;

/// How capital turns into orders.
#[derive(Clone, Copy, Debug, PartialEq, Eq, Structural)]
pub enum FillType {
    /// One contender, one unit.
    Single,
    /// One contender, as many units as the capital allows.
    ScaledFills,
    /// As many contenders as the capital allows, one unit each.
    ScaledOrders,
}

/// The fill type that a code names: `1`, `2` or `3`.
pub open spec fn fill_type_of(code: Seq<char>) -> Option<FillType> {
    if code =~= seq!['1'] {
        Some(FillType::Single)
    } else if code =~= seq!['2'] {
        Some(FillType::ScaledFills)
    } else if code =~= seq!['3'] {
        Some(FillType::ScaledOrders)
    } else {
        None
    }
}

/// The number of whole capital units in `portfolio_value`, rounded down, and
/// no more than the largest count.
pub open spec fn capital_units(portfolio_value: int) -> int {
    if portfolio_value / (CAPITAL_UNIT as int) > i32::MAX {
        i32::MAX as int
    } else {
        portfolio_value / (CAPITAL_UNIT as int)
    }
}

/// The number of contenders to trade and the quantity of each. Below one
/// capital unit both are zero: there is nothing to trade with.
pub open spec fn allocation(fill: FillType, portfolio_value: int) -> (int, int) {
    if portfolio_value < CAPITAL_UNIT {
        (0, 0)
    } else {
        match fill {
            FillType::Single => (1, 1),
            FillType::ScaledFills => (1, capital_units(portfolio_value)),
            FillType::ScaledOrders => (capital_units(portfolio_value), 1),
        }
    }
}

impl FillType {
    /// Reads a fill type from its code; any other text names none.
    pub fn from_code(code: &str) -> (r: Option<FillType>)
        ensures
            r == fill_type_of(code@),
    {
        if code.unicode_len() != 1 {
            return None;
        }
        let c = code.get_char(0);
        if c == '1' {
            assert(code@ =~= seq!['1']);
            Some(FillType::Single)
        } else if c == '2' {
            assert(code@ =~= seq!['2']);
            Some(FillType::ScaledFills)
        } else if c == '3' {
            assert(code@ =~= seq!['3']);
            Some(FillType::ScaledOrders)
        } else {
            None
        }
    }
}

/// Counts the whole capital units in a portfolio value of at least one.
fn count_capital_units(portfolio_value: i64) -> (n: i32)
    requires
        portfolio_value >= CAPITAL_UNIT,
    ensures
        n == capital_units(portfolio_value as int),
        n >= 1,
{
    let units: i64 = portfolio_value / CAPITAL_UNIT;
    if units > i32::MAX as i64 {
        i32::MAX
    } else {
        units as i32
    }
}

/// The number of contenders to trade and the quantity of each.
pub fn size_allocation(fill: FillType, portfolio_value: i64) -> (r: (i32, i32))
    ensures
        (r.0 as int, r.1 as int) == allocation(fill, portfolio_value as int),
{
    if portfolio_value < CAPITAL_UNIT {
        (0, 0)
    } else {
        match fill {
            FillType::Single => (1, 1),
            FillType::ScaledFills => (1, count_capital_units(portfolio_value)),
            FillType::ScaledOrders => (count_capital_units(portfolio_value), 1),
        }
    }
}

/// The number of contenders to trade and the quantity of each, for a fill
/// type given by its code `"1"`, `"2"` or `"3"`.
pub fn calc_final_num_orders(fill_type: &str, port_val: i64) -> (r: (i32, i32))
    requires
        fill_type_of(fill_type@) is Some,
    ensures
        (r.0 as int, r.1 as int) == allocation(fill_type_of(fill_type@)->0, port_val as int),
{
    match FillType::from_code(fill_type) {
        Some(fill) => size_allocation(fill, port_val),
        None => (0, 0),
    }
}

/// The three codes name the three fill types.
pub proof fn lemma_fill_codes()
    ensures
        fill_type_of("1"@) == Some(FillType::Single),
        fill_type_of("2"@) == Some(FillType::ScaledFills),
        fill_type_of("3"@) == Some(FillType::ScaledOrders),
{
    reveal_strlit("1");
    reveal_strlit("2");
    reveal_strlit("3");
    assert("1"@ =~= seq!['1']);
    assert("2"@ =~= seq!['2']);
    assert("3"@ =~= seq!['3']);
    assert(seq!['2'][0] != seq!['1'][0]);
    assert(seq!['3'][0] != seq!['1'][0]);
    assert(seq!['3'][0] != seq!['2'][0]);
}

/// With the single fill type the allocation is nothing below one capital
/// unit and one contender of one unit from there on, whatever the capital.
pub proof fn lemma_single_allocation(portfolio_value: int)
    ensures
        portfolio_value < CAPITAL_UNIT ==> allocation(FillType::Single, portfolio_value) == (
            0int,
            0int,
        ),
        portfolio_value >= CAPITAL_UNIT ==> allocation(FillType::Single, portfolio_value) == (
            1int,
            1int,
        ),
{
}

/// Below one capital unit nothing is allocated, whatever the fill type; from
/// one unit on, both numbers are at least one.
pub proof fn lemma_allocation_gate(fill: FillType, portfolio_value: int)
    ensures
        portfolio_value < CAPITAL_UNIT ==> allocation(fill, portfolio_value) == (0int, 0int),
        portfolio_value >= CAPITAL_UNIT ==> allocation(fill, portfolio_value).0 >= 1 && allocation(
            fill,
            portfolio_value,
        ).1 >= 1,
{
    if portfolio_value >= CAPITAL_UNIT {
        assert(portfolio_value / (CAPITAL_UNIT as int) >= 1) by (nonlinear_arith)
            requires
                portfolio_value >= CAPITAL_UNIT,
                CAPITAL_UNIT == 6_000_000,
        ;
    }
}

} // verus!
