//! Quotes, legs and contenders: what the scanners read and what they emit.
use crate::amount::{amount_in_range, is_amount, AMOUNT_LIMIT};
use crate::chain::{chain_key, ChainKey};
use crate::strike::{OptionType, Strike};
use vstd::prelude::*;

verus! {

/// Largest value of a spread, in units: four legs at the quoted limit.
pub const ARB_LIMIT: i64 = 4_000_000_000_000_000;

/// The top of the book for one contract: the mid price, the bid and the size
/// offered at the ask, each an amount within the quoted range.
#[derive(Clone, Copy, Debug)]
pub struct Quote {
    mid_price: i64,
    bid: i64,
    ask_size: i64,
}

impl Quote {
    #[verifier::type_invariant]
    spec fn in_range(self) -> bool {
        is_amount(self.mid_price as int) && is_amount(self.bid as int) && is_amount(
            self.ask_size as int,
        )
    }

    /// The mid price, in units.
    pub closed spec fn mid(self) -> int {
        self.mid_price as int
    }

    /// The bid, in units.
    pub closed spec fn bid_price(self) -> int {
        self.bid as int
    }

    /// The size at the ask, in units.
    pub closed spec fn size(self) -> int {
        self.ask_size as int
    }

    /// A quote of the three amounts; nothing where one of them lies outside
    /// the quoted range.
    pub fn new(mid_price: i64, bid: i64, ask_size: i64) -> (r: Option<Quote>)
        ensures
            r is Some <==> is_amount(mid_price as int) && is_amount(bid as int) && is_amount(
                ask_size as int,
            ),
            r is Some ==> r->0.mid() == mid_price && r->0.bid_price() == bid && r->0.size()
                == ask_size,
    {
        if amount_in_range(mid_price) && amount_in_range(bid) && amount_in_range(ask_size) {
            Some(Quote { mid_price, bid, ask_size })
        } else {
            None
        }
    }

    /// The mid price, in units.
    pub fn mid_price(&self) -> (r: i64)
        ensures
            r == self.mid(),
            is_amount(r as int),
    {
        proof {
            use_type_invariant(self);
        }
        self.mid_price
    }

    /// The bid, in units.
    pub fn bid(&self) -> (r: i64)
        ensures
            r == self.bid_price(),
            is_amount(r as int),
    {
        proof {
            use_type_invariant(self);
        }
        self.bid
    }

    /// The size at the ask, in units.
    pub fn ask_size(&self) -> (r: i64)
        ensures
            r == self.size(),
            is_amount(r as int),
    {
        proof {
            use_type_invariant(self);
        }
        self.ask_size
    }
}

/// One contract of a spread, with the mid price at which it was seen.
#[derive(Clone, Debug)]
pub struct Leg {
    pub date: String,
    pub option_type: OptionType,
    pub strike: Strike,
    pub mid_price: i64,
}

/// A leg as a value: its date as text.
pub struct LegView {
    pub date: Seq<char>,
    pub option_type: OptionType,
    pub strike: Strike,
    pub mid_price: int,
}

impl LegView {
    /// The contract of this leg.
    pub open spec fn key(self) -> ChainKey {
        chain_key(self.date, self.option_type, self.strike)
    }
}

impl View for Leg {
    type V = LegView;

    open spec fn view(&self) -> LegView {
        LegView {
            date: self.date@,
            option_type: self.option_type,
            strike: self.strike,
            mid_price: self.mid_price as int,
        }
    }
}

/// The leg of the contract `key` seen at the mid price of `quote`.
pub open spec fn leg_of(key: ChainKey, quote: Quote) -> LegView {
    LegView {
        date: key.date,
        option_type: key.option_type,
        strike: key.strike,
        mid_price: quote.mid(),
    }
}

impl Leg {
    /// The leg of one contract seen at the mid price of `quote`.
    pub fn of_quote(date: &String, option_type: OptionType, strike: Strike, quote: &Quote) -> (leg:
        Leg)
        ensures
            leg@ == leg_of(chain_key(date@, option_type, strike), *quote),
            is_amount(leg.mid_price as int),
    {
        Leg { date: date.clone(), option_type, strike, mid_price: quote.mid_price() }
    }
}

/// The three kinds of spread.
#[derive(Clone, Copy, Debug, PartialEq, Eq, Structural)]
pub enum Strategy {
    Calendar,
    Butterfly,
    Boxspread,
}

impl Strategy {
    /// The name of the strategy as text.
    pub open spec fn name_of(self) -> Seq<char> {
        match self {
            Strategy::Calendar => "Calendar"@,
            Strategy::Butterfly => "Butterfly"@,
            Strategy::Boxspread => "Boxspread"@,
        }
    }

    /// The name of the strategy: `"Calendar"`, `"Butterfly"` or `"Boxspread"`.
    pub fn name(&self) -> (s: &'static str)
        ensures
            s@ == self.name_of(),
    {
        match self {
            Strategy::Calendar => "Calendar",
            Strategy::Butterfly => "Butterfly",
            Strategy::Boxspread => "Boxspread",
        }
    }

    /// The number of legs of a spread of this kind.
    pub open spec fn leg_count_of(self) -> nat {
        match self {
            Strategy::Calendar => 2,
            Strategy::Butterfly => 3,
            Strategy::Boxspread => 4,
        }
    }
}

/// The legs of a spread, each under the name of its role.
#[derive(Clone, Debug)]
pub enum Spread {
    /// Same type and strike at two expirations, the nearer one first.
    Calendar { near: Leg, far: Leg },
    /// Three neighbouring strikes of one expiration and type.
    Butterfly { low: Leg, mid: Leg, high: Leg },
    /// Calls and puts at two strikes of one expiration.
    Boxspread { low_call: Leg, high_call: Leg, low_put: Leg, high_put: Leg },
}

/// A spread as a value.
pub enum SpreadView {
    Calendar { near: LegView, far: LegView },
    Butterfly { low: LegView, mid: LegView, high: LegView },
    Boxspread { low_call: LegView, high_call: LegView, low_put: LegView, high_put: LegView },
}

impl SpreadView {
    /// The kind of this spread.
    pub open spec fn strategy(self) -> Strategy {
        match self {
            SpreadView::Calendar { .. } => Strategy::Calendar,
            SpreadView::Butterfly { .. } => Strategy::Butterfly,
            SpreadView::Boxspread { .. } => Strategy::Boxspread,
        }
    }

    /// The legs in their fixed order: near, far; low, mid, high; low call,
    /// high call, low put, high put.
    pub open spec fn legs(self) -> Seq<LegView> {
        match self {
            SpreadView::Calendar { near, far } => seq![near, far],
            SpreadView::Butterfly { low, mid, high } => seq![low, mid, high],
            SpreadView::Boxspread { low_call, high_call, low_put, high_put } => seq![
                low_call,
                high_call,
                low_put,
                high_put,
            ],
        }
    }
}

impl View for Spread {
    type V = SpreadView;

    open spec fn view(&self) -> SpreadView {
        match self {
            Spread::Calendar { near, far } => SpreadView::Calendar { near: near@, far: far@ },
            Spread::Butterfly { low, mid, high } => SpreadView::Butterfly {
                low: low@,
                mid: mid@,
                high: high@,
            },
            Spread::Boxspread { low_call, high_call, low_put, high_put } => SpreadView::Boxspread {
                low_call: low_call@,
                high_call: high_call@,
                low_put: low_put@,
                high_put: high_put@,
            },
        }
    }
}

impl Spread {
    /// The kind of this spread.
    pub fn strategy(&self) -> (s: Strategy)
        ensures
            s == self@.strategy(),
    {
        match self {
            Spread::Calendar { .. } => Strategy::Calendar,
            Spread::Butterfly { .. } => Strategy::Butterfly,
            Spread::Boxspread { .. } => Strategy::Boxspread,
        }
    }

    /// The number of legs.
    pub fn leg_count(&self) -> (n: usize)
        ensures
            n == self@.legs().len(),
            n == self@.strategy().leg_count_of(),
    {
        match self {
            Spread::Calendar { .. } => 2,
            Spread::Butterfly { .. } => 3,
            Spread::Boxspread { .. } => 4,
        }
    }

    /// The leg at position `i` of the fixed order.
    pub fn leg(&self, i: usize) -> (leg: &Leg)
        requires
            i < self@.legs().len(),
        ensures
            leg@ == self@.legs()[i as int],
    {
        match self {
            Spread::Calendar { near, far } => if i == 0 {
                near
            } else {
                far
            },
            Spread::Butterfly { low, mid, high } => if i == 0 {
                low
            } else if i == 1 {
                mid
            } else {
                high
            },
            Spread::Boxspread { low_call, high_call, low_put, high_put } => if i == 0 {
                low_call
            } else if i == 1 {
                high_call
            } else if i == 2 {
                low_put
            } else {
                high_put
            },
        }
    }
}

/// A contender as a value.
pub struct ContenderView {
    pub spread: SpreadView,
    pub arb_value: int,
    pub avg_ask_size: int,
    pub primary_expiration: Seq<char>,
    pub rank_score: int,
}

/// The value of a spread is positive and within the limit, and the mean size
/// is an amount within the quoted range.
pub open spec fn contender_amounts(arb_value: int, avg_ask_size: int) -> bool {
    0 < arb_value <= ARB_LIMIT && is_amount(avg_ask_size)
}

/// A spread found to be worth more than nothing, pending ranking, sizing and
/// submission.
#[derive(Debug)]
pub struct Contender {
    pub(crate) spread: Spread,
    pub(crate) arb_value: i64,
    pub(crate) avg_ask_size: i64,
    pub(crate) primary_expiration: String,
    pub(crate) rank_score: i128,
}

impl View for Contender {
    type V = ContenderView;

    closed spec fn view(&self) -> ContenderView {
        ContenderView {
            spread: self.spread@,
            arb_value: self.arb_value as int,
            avg_ask_size: self.avg_ask_size as int,
            primary_expiration: self.primary_expiration@,
            rank_score: self.rank_score as int,
        }
    }
}

impl Contender {
    #[verifier::type_invariant]
    pub(crate) closed spec fn positive(self) -> bool {
        contender_amounts(self.arb_value as int, self.avg_ask_size as int)
    }

    /// A contender of the given parts; nothing unless the value is positive
    /// and both amounts are within their limits.
    pub fn new(
        spread: Spread,
        arb_value: i64,
        avg_ask_size: i64,
        primary_expiration: String,
        rank_score: i128,
    ) -> (r: Option<Contender>)
        ensures
            r is Some <==> contender_amounts(arb_value as int, avg_ask_size as int),
            r is Some ==> r->0@ == (ContenderView {
                spread: spread@,
                arb_value: arb_value as int,
                avg_ask_size: avg_ask_size as int,
                primary_expiration: primary_expiration@,
                rank_score: rank_score as int,
            }),
    {
        if 0 < arb_value && arb_value <= ARB_LIMIT && amount_in_range(avg_ask_size) {
            Some(Contender { spread, arb_value, avg_ask_size, primary_expiration, rank_score })
        } else {
            None
        }
    }

    /// The legs of the spread.
    pub fn spread(&self) -> (s: &Spread)
        ensures
            s@ == self@.spread,
    {
        &self.spread
    }

    /// The kind of the spread.
    pub fn strategy(&self) -> (s: Strategy)
        ensures
            s == self@.spread.strategy(),
    {
        self.spread.strategy()
    }

    /// The value of the spread, in units: always positive.
    pub fn arb_value(&self) -> (v: i64)
        ensures
            v == self@.arb_value,
            0 < v <= ARB_LIMIT,
    {
        proof {
            use_type_invariant(self);
        }
        self.arb_value
    }

    /// The mean size at the ask over the legs, in units.
    pub fn avg_ask_size(&self) -> (v: i64)
        ensures
            v == self@.avg_ask_size,
            is_amount(v as int),
    {
        proof {
            use_type_invariant(self);
        }
        self.avg_ask_size
    }

    /// The expiration by which the contender is ranked.
    pub fn primary_expiration(&self) -> (date: &String)
        ensures
            date@ == self@.primary_expiration,
    {
        &self.primary_expiration
    }

    /// The score given by the last ranking, in units; zero before any.
    pub fn rank_score(&self) -> (v: i128)
        ensures
            v == self@.rank_score,
    {
        self.rank_score
    }

    /// The same contender with another score.
    pub fn with_rank_score(self, rank_score: i128) -> (c: Contender)
        ensures
            c@ == (ContenderView { rank_score: rank_score as int, ..self@ }),
    {
        proof {
            use_type_invariant(&self);
        }
        Contender {
            spread: self.spread,
            arb_value: self.arb_value,
            avg_ask_size: self.avg_ask_size,
            primary_expiration: self.primary_expiration,
            rank_score,
        }
    }
}

/// The views of a sequence of contenders.
pub open spec fn contender_views(v: Seq<Contender>) -> Seq<ContenderView> {
    v.map_values(|c: Contender| c@)
}

/// A quote that the enumeration promised and the index does not hold.
#[derive(Clone, Debug)]
pub struct LookupError {
    pub date: String,
    pub option_type: OptionType,
    pub strike: Strike,
}

impl View for LookupError {
    type V = ChainKey;

    open spec fn view(&self) -> ChainKey {
        chain_key(self.date@, self.option_type, self.strike)
    }
}

/// The views of a sequence of lookup errors.
pub open spec fn lookup_views(v: Seq<LookupError>) -> Seq<ChainKey> {
    v.map_values(|e: LookupError| e@)
}

} // verus!
