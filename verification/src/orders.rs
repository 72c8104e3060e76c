//! Order requests: a contender, the identifiers of its contracts, an account
//! and a discount become one multi-leg limit order.
use crate::amount::{floor_div, CENT, SCALE};
use crate::chain::{chain_key, ChainIndex, ChainKey};
use crate::contender::{
    contender_views, Contender, ContenderView, Leg, LegView, Spread, SpreadView, Strategy,
    ARB_LIMIT,
};
use crate::strike::{OptionType, Strike};
use vstd::prelude::*;

verus! {

/// A contract of a contender for which the identifier index holds nothing:
/// the index and the contender do not come from the same snapshot.
#[derive(Clone, Debug)]
pub struct DataInconsistency {
    pub date: String,
    pub option_type: OptionType,
    pub strike: Strike,
}

impl View for DataInconsistency {
    type V = ChainKey;

    open spec fn view(&self) -> ChainKey {
        chain_key(self.date@, self.option_type, self.strike)
    }
}

/// The views of a sequence of inconsistencies.
pub open spec fn inconsistency_views(v: Seq<DataInconsistency>) -> Seq<ChainKey> {
    v.map_values(|e: DataInconsistency| e@)
}

/// One order request as the venue takes it.
#[derive(Clone, Debug)]
pub struct OrderRequest {
    pub account_id: String,
    pub leg_encoding: String,
    pub order_type: String,
    pub venue: String,
    pub outside_regular_hours: bool,
    pub limit_price: i64,
    pub side: String,
    pub underlying_symbol: String,
    pub time_in_force: String,
    pub referrer_tag: String,
    pub quantity: i32,
    pub use_adaptive_routing: bool,
}

/// An order request as a value.
pub struct OrderRequestView {
    pub account_id: Seq<char>,
    pub leg_encoding: Seq<char>,
    pub order_type: Seq<char>,
    pub venue: Seq<char>,
    pub outside_regular_hours: bool,
    pub limit_price: int,
    pub side: Seq<char>,
    pub underlying_symbol: Seq<char>,
    pub time_in_force: Seq<char>,
    pub referrer_tag: Seq<char>,
    pub quantity: int,
    pub use_adaptive_routing: bool,
}

impl View for OrderRequest {
    type V = OrderRequestView;

    open spec fn view(&self) -> OrderRequestView {
        OrderRequestView {
            account_id: self.account_id@,
            leg_encoding: self.leg_encoding@,
            order_type: self.order_type@,
            venue: self.venue@,
            outside_regular_hours: self.outside_regular_hours,
            limit_price: self.limit_price as int,
            side: self.side@,
            underlying_symbol: self.underlying_symbol@,
            time_in_force: self.time_in_force@,
            referrer_tag: self.referrer_tag@,
            quantity: self.quantity as int,
            use_adaptive_routing: self.use_adaptive_routing,
        }
    }
}

/// The views of a sequence of order requests.
pub open spec fn order_views(v: Seq<OrderRequest>) -> Seq<OrderRequestView> {
    v.map_values(|o: OrderRequest| o@)
}

/// The limit price of an order, in units: the value of the spread times the
/// discount factor, rounded to the nearest hundredth (a half goes up), and
/// negated.
pub open spec fn limit_price_of(arb_value: int, discount_factor: int) -> int {
    -(((arb_value * discount_factor + 500_000) / 1_000_000) * 100)
}

/// Computes `limit_price_of` for a positive value within the limit and a
/// discount factor above nothing and no more than one whole.
pub fn limit_price(arb_value: i64, discount_factor: i64) -> (price: i64)
    requires
        0 < arb_value <= ARB_LIMIT,
        0 < discount_factor <= SCALE,
    ensures
        price == limit_price_of(arb_value as int, discount_factor as int),
        price <= 0,
{
    assert(0 < arb_value * discount_factor <= 40_000_000_000_000_000_000) by (nonlinear_arith)
        requires
            0 < arb_value <= 4_000_000_000_000_000,
            0 < discount_factor <= 10_000,
    ;
    let product: i128 = arb_value as i128 * discount_factor as i128;
    let hundredths: i128 = floor_div(product + 500_000, 1_000_000);
    assert(0 <= hundredths <= 40_000_000_000_001);
    let price: i128 = -(hundredths * CENT as i128);
    price as i64
}

/// The sign and number of units of the leg at position `i` of the fixed
/// order: negative where the leg is sold.
pub open spec fn leg_ratio(strategy: Strategy, i: int) -> int {
    match strategy {
        Strategy::Calendar => if i == 0 {
            -1
        } else {
            1
        },
        Strategy::Butterfly => if i == 1 {
            -2
        } else {
            1
        },
        Strategy::Boxspread => if i == 0 || i == 2 {
            1
        } else {
            -1
        },
    }
}

/// Computes `leg_ratio`.
pub fn ratio_of_leg(strategy: Strategy, i: usize) -> (ratio: i32)
    ensures
        ratio == leg_ratio(strategy, i as int),
        ratio == -2 || ratio == -1 || ratio == 1,
{
    match strategy {
        Strategy::Calendar => if i == 0 {
            -1
        } else {
            1
        },
        Strategy::Butterfly => if i == 1 {
            -2
        } else {
            1
        },
        Strategy::Boxspread => if i == 0 || i == 2 {
            1
        } else {
            -1
        },
    }
}

impl Contender {
    /// What is done with the leg at position `i`: `"SELL"` where its ratio is
    /// negative, else `"BUY"`.
    pub fn action(&self, i: usize) -> (word: &'static str)
        ensures
            word@ == if leg_ratio(self@.spread.strategy(), i as int) < 0 {
                "SELL"@
            } else {
                "BUY"@
            },
    {
        if ratio_of_leg(self.strategy(), i) < 0 {
            "SELL"
        } else {
            "BUY"
        }
    }

    /// The number of contracts of the leg at position `i` in an order of
    /// `num_fills` spreads.
    pub fn multiplier(&self, num_fills: i32, i: usize) -> (n: i64)
        ensures
            n == num_fills * if leg_ratio(self@.spread.strategy(), i as int) < 0 {
                -leg_ratio(self@.spread.strategy(), i as int)
            } else {
                leg_ratio(self@.spread.strategy(), i as int)
            },
    {
        let ratio: i32 = ratio_of_leg(self.strategy(), i);
        let units: i64 = if ratio < 0 {
            -(ratio as i64)
        } else {
            ratio as i64
        };
        assert(num_fills * units == num_fills || num_fills * units == num_fills * 2) by (nonlinear_arith)
            requires
                units == 1 || units == 2,
        ;
        num_fills as i64 * units
    }
}

/// The first leg from position `from` on, in the fixed order, whose
/// identifier the index does not hold.
pub open spec fn first_absent(ids: Map<ChainKey, String>, legs: Seq<LegView>, from: int) -> Option<
    ChainKey,
>
    decreases legs.len() - from,
{
    if from < 0 || from >= legs.len() {
        None
    } else if !ids.contains_key(legs[from].key()) {
        Some(legs[from].key())
    } else {
        first_absent(ids, legs, from + 1)
    }
}

/// The first leg of the spread, in the fixed order, whose identifier the
/// index does not hold; none where it holds them all.
pub open spec fn first_unresolved(ids: Map<ChainKey, String>, spread: SpreadView) -> Option<
    ChainKey,
> {
    first_absent(ids, spread.legs(), 0)
}

/// The identifier of a leg's contract.
pub open spec fn id_of(ids: Map<ChainKey, String>, leg: LegView) -> Seq<char> {
    ids[leg.key()]@
}

/// What every leg encoding starts with: the venue's number for a spread in
/// dollars.
pub open spec fn spread_header() -> Seq<char> {
    "28812380;;;"@
}

/// The legs of an order as the venue reads them: after the header, each leg
/// as its identifier, a slash and its signed ratio, separated by commas. A
/// calendar sells the near leg and buys the far one; a butterfly sells the
/// middle twice and buys low and high; a box sells the high put, buys the low
/// put, buys the low call and sells the high call.
pub open spec fn leg_encoding(ids: Map<ChainKey, String>, spread: SpreadView) -> Seq<char> {
    match spread {
        SpreadView::Calendar { near, far } => spread_header() + id_of(ids, near) + "/-1,"@ + id_of(
            ids,
            far,
        ) + "/1"@,
        SpreadView::Butterfly { low, mid, high } => spread_header() + id_of(ids, mid) + "/-2,"@
            + id_of(ids, low) + "/1,"@ + id_of(ids, high) + "/1"@,
        SpreadView::Boxspread { low_call, high_call, low_put, high_put } => spread_header() + id_of(
            ids,
            high_put,
        ) + "/-1,"@ + id_of(ids, low_put) + "/1,"@ + id_of(ids, low_call) + "/1,"@ + id_of(
            ids,
            high_call,
        ) + "/-1"@,
    }
}

/// The order request for a contender: a limit order to buy the spread,
/// routed by the venue, good for the day, in regular hours only.
pub open spec fn order_of(
    contender: ContenderView,
    num_fills: int,
    account_id: Seq<char>,
    ids: Map<ChainKey, String>,
    discount_factor: int,
) -> OrderRequestView {
    OrderRequestView {
        account_id,
        leg_encoding: leg_encoding(ids, contender.spread),
        order_type: "LMT"@,
        venue: "SMART"@,
        outside_regular_hours: false,
        limit_price: limit_price_of(contender.arb_value, discount_factor),
        side: "BUY"@,
        underlying_symbol: "SPX"@,
        time_in_force: "DAY"@,
        referrer_tag: "NO_REFERRER_PROVIDED"@,
        quantity: num_fills,
        use_adaptive_routing: false,
    }
}

/// Whether `r` is what building the order for `contender` gives: the order
/// where every identifier is held, else the first leg whose identifier is
/// not.
pub open spec fn is_order_for(
    r: Result<OrderRequest, DataInconsistency>,
    contender: ContenderView,
    num_fills: int,
    account_id: Seq<char>,
    ids: Map<ChainKey, String>,
    discount_factor: int,
) -> bool {
    match r {
        Ok(order) => first_unresolved(ids, contender.spread) is None && order@ == order_of(
            contender,
            num_fills,
            account_id,
            ids,
            discount_factor,
        ),
        Err(e) => first_unresolved(ids, contender.spread) == Some(e@),
    }
}

/// Looks up the identifier of a leg's contract.
fn resolve<'a>(ids: &'a ChainIndex<String>, leg: &Leg) -> (r: Result<&'a String, DataInconsistency>)
    ensures
        match r {
            Ok(id) => ids@.contains_key(leg@.key()) && id@ == id_of(ids@, leg@),
            Err(e) => !ids@.contains_key(leg@.key()) && e@ == leg@.key(),
        },
{
    match ids.get(leg.date.as_str(), leg.option_type, leg.strike) {
        Some(id) => Ok(id),
        None => Err(
            DataInconsistency {
                date: leg.date.clone(),
                option_type: leg.option_type,
                strike: leg.strike,
            },
        ),
    }
}

/// Writes the legs of a spread as the venue reads them.
fn encode_legs(ids: &ChainIndex<String>, spread: &Spread) -> (r: Result<String, DataInconsistency>)
    ensures
        match r {
            Ok(text) => first_unresolved(ids@, spread@) is None && text@ == leg_encoding(
                ids@,
                spread@,
            ),
            Err(e) => first_unresolved(ids@, spread@) == Some(e@),
        },
{
    proof {
        reveal_with_fuel(first_absent, 5);
    }
    let mut text = "28812380;;;".to_owned();
    match spread {
        Spread::Calendar { near, far } => {
            let near_id = match resolve(ids, near) {
                Ok(id) => id,
                Err(e) => {
                    return Err(e);
                },
            };
            let far_id = match resolve(ids, far) {
                Ok(id) => id,
                Err(e) => {
                    return Err(e);
                },
            };
            text.append(near_id.as_str());
            text.append("/-1,");
            text.append(far_id.as_str());
            text.append("/1");
        },
        Spread::Butterfly { low, mid, high } => {
            let low_id = match resolve(ids, low) {
                Ok(id) => id,
                Err(e) => {
                    return Err(e);
                },
            };
            let mid_id = match resolve(ids, mid) {
                Ok(id) => id,
                Err(e) => {
                    return Err(e);
                },
            };
            let high_id = match resolve(ids, high) {
                Ok(id) => id,
                Err(e) => {
                    return Err(e);
                },
            };
            text.append(mid_id.as_str());
            text.append("/-2,");
            text.append(low_id.as_str());
            text.append("/1,");
            text.append(high_id.as_str());
            text.append("/1");
        },
        Spread::Boxspread { low_call, high_call, low_put, high_put } => {
            let low_call_id = match resolve(ids, low_call) {
                Ok(id) => id,
                Err(e) => {
                    return Err(e);
                },
            };
            let high_call_id = match resolve(ids, high_call) {
                Ok(id) => id,
                Err(e) => {
                    return Err(e);
                },
            };
            let low_put_id = match resolve(ids, low_put) {
                Ok(id) => id,
                Err(e) => {
                    return Err(e);
                },
            };
            let high_put_id = match resolve(ids, high_put) {
                Ok(id) => id,
                Err(e) => {
                    return Err(e);
                },
            };
            text.append(high_put_id.as_str());
            text.append("/-1,");
            text.append(low_put_id.as_str());
            text.append("/1,");
            text.append(low_call_id.as_str());
            text.append("/1,");
            text.append(high_call_id.as_str());
            text.append("/-1");
        },
    }
    Ok(text)
}

/// The order request for one contender of any kind.
pub fn build_order(
    contender: &Contender,
    num_fills: i32,
    account_id: &str,
    ids: &ChainIndex<String>,
    discount_factor: i64,
) -> (r: Result<OrderRequest, DataInconsistency>)
    requires
        0 < discount_factor <= SCALE,
    ensures
        is_order_for(
            r,
            contender@,
            num_fills as int,
            account_id@,
            ids@,
            discount_factor as int,
        ),
{
    let leg_encoding = match encode_legs(ids, contender.spread()) {
        Ok(text) => text,
        Err(e) => {
            return Err(e);
        },
    };
    Ok(
        OrderRequest {
            account_id: account_id.to_owned(),
            leg_encoding,
            order_type: "LMT".to_owned(),
            venue: "SMART".to_owned(),
            outside_regular_hours: false,
            limit_price: limit_price(contender.arb_value(), discount_factor),
            side: "BUY".to_owned(),
            underlying_symbol: "SPX".to_owned(),
            time_in_force: "DAY".to_owned(),
            referrer_tag: "NO_REFERRER_PROVIDED".to_owned(),
            quantity: num_fills,
            use_adaptive_routing: false,
        },
    )
}

/// The order request for a calendar spread: sell the near leg, buy the far.
pub fn build_calendar_order(
    contender: &Contender,
    num_fills: i32,
    account_id: &str,
    ids: &ChainIndex<String>,
    discount_factor: i64,
) -> (r: Result<OrderRequest, DataInconsistency>)
    requires
        contender@.spread is Calendar,
        0 < discount_factor <= SCALE,
    ensures
        is_order_for(
            r,
            contender@,
            num_fills as int,
            account_id@,
            ids@,
            discount_factor as int,
        ),
{
    build_order(contender, num_fills, account_id, ids, discount_factor)
}

/// The order request for a butterfly spread: sell the middle leg twice, buy
/// the low and the high.
pub fn build_butterfly_order(
    contender: &Contender,
    num_fills: i32,
    account_id: &str,
    ids: &ChainIndex<String>,
    discount_factor: i64,
) -> (r: Result<OrderRequest, DataInconsistency>)
    requires
        contender@.spread is Butterfly,
        0 < discount_factor <= SCALE,
    ensures
        is_order_for(
            r,
            contender@,
            num_fills as int,
            account_id@,
            ids@,
            discount_factor as int,
        ),
{
    build_order(contender, num_fills, account_id, ids, discount_factor)
}

/// The order request for a box spread: sell the high put, buy the low put,
/// buy the low call, sell the high call.
pub fn build_boxspread_order(
    contender: &Contender,
    num_fills: i32,
    account_id: &str,
    ids: &ChainIndex<String>,
    discount_factor: i64,
) -> (r: Result<OrderRequest, DataInconsistency>)
    requires
        contender@.spread is Boxspread,
        0 < discount_factor <= SCALE,
    ensures
        is_order_for(
            r,
            contender@,
            num_fills as int,
            account_id@,
            ids@,
            discount_factor as int,
        ),
{
    build_order(contender, num_fills, account_id, ids, discount_factor)
}

/// The orders of a batch: one for each contender whose identifiers are all
/// held, in the order of the contenders.
pub open spec fn batch_orders(
    contenders: Seq<ContenderView>,
    num_fills: int,
    account_id: Seq<char>,
    ids: Map<ChainKey, String>,
    discount_factor: int,
) -> Seq<OrderRequestView>
    decreases contenders.len(),
{
    if contenders.len() == 0 {
        Seq::empty()
    } else {
        let earlier = batch_orders(
            contenders.drop_last(),
            num_fills,
            account_id,
            ids,
            discount_factor,
        );
        if first_unresolved(ids, contenders.last().spread) is None {
            earlier.push(order_of(contenders.last(), num_fills, account_id, ids, discount_factor))
        } else {
            earlier
        }
    }
}

/// What a batch leaves out: for each contender with an identifier that is
/// not held, its first such leg, in the order of the contenders.
pub open spec fn batch_rejected(contenders: Seq<ContenderView>, ids: Map<ChainKey, String>) -> Seq<
    ChainKey,
>
    decreases contenders.len(),
{
    if contenders.len() == 0 {
        Seq::empty()
    } else {
        let earlier = batch_rejected(contenders.drop_last(), ids);
        match first_unresolved(ids, contenders.last().spread) {
            Some(key) => earlier.push(key),
            None => earlier,
        }
    }
}

/// The orders to submit together, and what was left out of them.
pub struct OrderBatch {
    pub orders: Vec<OrderRequest>,
    pub rejected: Vec<DataInconsistency>,
}

/// The order requests for the selected contenders. A contender with an
/// identifier that is not held gets no order; the others are not affected.
pub fn build_request_data(
    contenders: &Vec<Contender>,
    num_fills: i32,
    account_id: &str,
    ids: &ChainIndex<String>,
    discount_factor: i64,
) -> (batch: OrderBatch)
    requires
        0 < discount_factor <= SCALE,
    ensures
        order_views(batch.orders@) == batch_orders(
            contender_views(contenders@),
            num_fills as int,
            account_id@,
            ids@,
            discount_factor as int,
        ),
        inconsistency_views(batch.rejected@) == batch_rejected(contender_views(contenders@), ids@),
{
    let ghost all = contender_views(contenders@);
    let mut orders: Vec<OrderRequest> = Vec::new();
    let mut rejected: Vec<DataInconsistency> = Vec::new();
    let mut i: usize = 0;
    proof {
        assert(all.take(0) =~= Seq::empty());
        assert(order_views(orders@) =~= Seq::empty());
        assert(inconsistency_views(rejected@) =~= Seq::empty());
    }
    while i < contenders.len()
        invariant
            i <= contenders.len(),
            0 < discount_factor <= SCALE,
            all == contender_views(contenders@),
            order_views(orders@) == batch_orders(
                all.take(i as int),
                num_fills as int,
                account_id@,
                ids@,
                discount_factor as int,
            ),
            inconsistency_views(rejected@) == batch_rejected(all.take(i as int), ids@),
        decreases contenders.len() - i,
    {
        proof {
            assert(all.take(i + 1).drop_last() =~= all.take(i as int));
            assert(all.take(i + 1).last() == contenders@[i as int]@);
        }
        match build_order(&contenders[i], num_fills, account_id, ids, discount_factor) {
            Ok(order) => {
                let ghost before = order_views(orders@);
                orders.push(order);
                assert(order_views(orders@) =~= before.push(order@));
            },
            Err(e) => {
                let ghost before = inconsistency_views(rejected@);
                rejected.push(e);
                assert(inconsistency_views(rejected@) =~= before.push(e@));
            },
        }
        i += 1;
    }
    assert(all.take(i as int) =~= all);
    OrderBatch { orders, rejected }
}

} // verus!
