//! Calendar spreads: the same type and strike at two consecutive expirations,
//! worth the nearer mid price less the farther one.
use crate::amount::{mean, mean_of};
use crate::chain::{chain_key, ChainIndex, ChainKey, StrikeLists, StrikeTable};
use crate::contender::{leg_of, Contender, ContenderView, Leg, LookupError, Quote, Spread, SpreadView};
use crate::dates::texts;
use crate::scan::{
    every_found, found, is_verdict, lemma_every_found, lemma_every_found_concat,
    lemma_conclude, lemma_extends_empty, lemma_extends_skipped, lemma_extends_twice, Outcome,
    ScanReport,
};
use crate::strike::{ascending, sorted_strikes, OptionType, Strike};
use vstd::prelude::*;

verus! {

/// The calendar spread of the two quotes of one type and strike, the nearer
/// expiration first.
pub open spec fn calendar_contender(
    near_key: ChainKey,
    near: Quote,
    far_key: ChainKey,
    far: Quote,
) -> ContenderView {
    ContenderView {
        spread: SpreadView::Calendar { near: leg_of(near_key, near), far: leg_of(far_key, far) },
        arb_value: near.mid() - far.mid(),
        avg_ask_size: mean_of(near.size() + far.size(), 2),
        primary_expiration: near_key.date,
        rank_score: 0,
    }
}

/// What becomes of one strike of one type at two consecutive expirations:
/// where a quote is absent, the nearer one first, it is missing; where the
/// nearer mid price exceeds the farther one, the spread is a contender.
pub open spec fn calendar_candidate(
    quotes: Map<ChainKey, Quote>,
    near: Seq<char>,
    far: Seq<char>,
    option_type: OptionType,
    strike: Strike,
) -> Outcome {
    let near_key = chain_key(near, option_type, strike);
    let far_key = chain_key(far, option_type, strike);
    if !quotes.contains_key(near_key) {
        Outcome::Missing(near_key)
    } else if !quotes.contains_key(far_key) {
        Outcome::Missing(far_key)
    } else if quotes[near_key].mid() - quotes[far_key].mid() > 0 {
        Outcome::Found(calendar_contender(near_key, quotes[near_key], far_key, quotes[far_key]))
    } else {
        Outcome::Skipped
    }
}

/// The outcomes for the given strikes, in their order.
pub open spec fn calendar_row(
    quotes: Map<ChainKey, Quote>,
    near: Seq<char>,
    far: Seq<char>,
    option_type: OptionType,
    strikes: Seq<Strike>,
) -> Seq<Outcome> {
    Seq::new(
        strikes.len(),
        |k: int| calendar_candidate(quotes, near, far, option_type, strikes[k]),
    )
}

/// The outcomes for one option type at two consecutive expirations: one for
/// each strike listed at the nearer, from the lowest strike up.
pub open spec fn calendar_side(
    quotes: Map<ChainKey, Quote>,
    table: StrikeLists,
    near: Seq<char>,
    far: Seq<char>,
    option_type: OptionType,
) -> Seq<Outcome> {
    if table.contains_key((near, option_type)) {
        calendar_row(quotes, near, far, option_type, ascending(table[(near, option_type)]))
    } else {
        Seq::empty()
    }
}

/// The outcomes for two consecutive expirations: calls, then puts.
pub open spec fn calendar_pair(
    quotes: Map<ChainKey, Quote>,
    table: StrikeLists,
    near: Seq<char>,
    far: Seq<char>,
) -> Seq<Outcome> {
    calendar_side(quotes, table, near, far, OptionType::Call) + calendar_side(
        quotes,
        table,
        near,
        far,
        OptionType::Put,
    )
}

/// The outcomes for the first `n` pairs of consecutive dates.
pub open spec fn calendar_pairs(
    quotes: Map<ChainKey, Quote>,
    table: StrikeLists,
    dates: Seq<Seq<char>>,
    n: nat,
) -> Seq<Outcome>
    decreases n,
{
    if n == 0 {
        Seq::empty()
    } else {
        calendar_pairs(quotes, table, dates, (n - 1) as nat) + calendar_pair(
            quotes,
            table,
            dates[n - 1],
            dates[n as int],
        )
    }
}

/// The outcomes of the calendar scan: every date but the last is paired with
/// the one that follows it in `dates`.
pub open spec fn calendar_outcomes(
    quotes: Map<ChainKey, Quote>,
    table: StrikeLists,
    dates: Seq<Seq<char>>,
) -> Seq<Outcome> {
    if dates.len() == 0 {
        Seq::empty()
    } else {
        calendar_pairs(quotes, table, dates, (dates.len() - 1) as nat)
    }
}

/// What makes a contender a calendar spread: the same type and strike in
/// both legs, a value that is the near mid price less the far one and is
/// positive, the near date as its expiration, and no score yet.
pub open spec fn is_calendar_spread(c: ContenderView) -> bool {
    &&& c.spread matches SpreadView::Calendar { near, far }
    &&& near.option_type == far.option_type
    &&& near.strike == far.strike
    &&& c.arb_value == near.mid_price - far.mid_price
    &&& c.arb_value > 0
    &&& c.primary_expiration == near.date
    &&& c.rank_score == 0
}

proof fn lemma_calendar_pairs(
    quotes: Map<ChainKey, Quote>,
    table: StrikeLists,
    dates: Seq<Seq<char>>,
    n: nat,
)
    ensures
        every_found(calendar_pairs(quotes, table, dates, n), |c: ContenderView| is_calendar_spread(c)),
    decreases n,
{
    let holds = |c: ContenderView| is_calendar_spread(c);
    if n > 0 {
        lemma_calendar_pairs(quotes, table, dates, (n - 1) as nat);
        let near = dates[n - 1];
        let far = dates[n as int];
        let calls = calendar_side(quotes, table, near, far, OptionType::Call);
        let puts = calendar_side(quotes, table, near, far, OptionType::Put);
        assert(every_found(calls, holds));
        assert(every_found(puts, holds));
        lemma_every_found_concat(calls, puts, holds);
        lemma_every_found_concat(
            calendar_pairs(quotes, table, dates, (n - 1) as nat),
            calls + puts,
            holds,
        );
    }
}

/// Every contender of the calendar scan is a calendar spread worth more
/// than nothing.
pub proof fn lemma_calendar_contenders(
    quotes: Map<ChainKey, Quote>,
    table: StrikeLists,
    dates: Seq<Seq<char>>,
)
    ensures
        forall|i: int|
            0 <= i < found(calendar_outcomes(quotes, table, dates)).len() ==> is_calendar_spread(
                #[trigger] found(calendar_outcomes(quotes, table, dates))[i],
            ),
{
    let holds = |c: ContenderView| is_calendar_spread(c);
    if dates.len() > 0 {
        lemma_calendar_pairs(quotes, table, dates, (dates.len() - 1) as nat);
    }
    lemma_every_found(calendar_outcomes(quotes, table, dates), holds);
}

/// Scans one strike of one type at two consecutive expirations.
fn scan_calendar_strike(
    index: &ChainIndex<Quote>,
    near: &String,
    far: &String,
    option_type: OptionType,
    strike: Strike,
    report: &mut ScanReport,
)
    ensures
        final(report).extends(
            *old(report),
            seq![calendar_candidate(index@, near@, far@, option_type, strike)],
        ),
{
    let near_quote: Quote = match index.get(near.as_str(), option_type, strike) {
        Some(q) => *q,
        None => {
            report.record_missing(near, option_type, strike);
            return ;
        },
    };
    let far_quote: Quote = match index.get(far.as_str(), option_type, strike) {
        Some(q) => *q,
        None => {
            report.record_missing(far, option_type, strike);
            return ;
        },
    };
    let arb_value: i64 = near_quote.mid_price() - far_quote.mid_price();
    if arb_value > 0 {
        let avg_ask_size: i64 = mean(near_quote.ask_size() + far_quote.ask_size(), 2);
        let spread = Spread::Calendar {
            near: Leg::of_quote(near, option_type, strike, &near_quote),
            far: Leg::of_quote(far, option_type, strike, &far_quote),
        };
        match Contender::new(spread, arb_value, avg_ask_size, near.clone(), 0) {
            Some(contender) => {
                report.record_found(contender);
            },
            None => {
                proof {
                    lemma_extends_skipped(*report);
                }
            },
        }
    } else {
        proof {
            lemma_extends_skipped(*report);
        }
    }
}

/// Scans one option type at two consecutive expirations.
fn scan_calendar_side(
    index: &ChainIndex<Quote>,
    table: &StrikeTable,
    near: &String,
    far: &String,
    option_type: OptionType,
    report: &mut ScanReport,
)
    ensures
        final(report).extends(
            *old(report),
            calendar_side(index@, table@, near@, far@, option_type),
        ),
{
    let strikes: Vec<Strike> = match table.strikes_for(near.as_str(), option_type) {
        Some(listed) => sorted_strikes(listed),
        None => {
            proof {
                lemma_extends_skipped(*report);
            }
            return ;
        },
    };
    let ghost row = calendar_row(index@, near@, far@, option_type, strikes@);
    let mut k: usize = 0;
    proof {
        lemma_extends_skipped(*report);
        assert(row.take(0) =~= Seq::empty());
    }
    while k < strikes.len()
        invariant
            k <= strikes.len(),
            row == calendar_row(index@, near@, far@, option_type, strikes@),
            report.extends(*old(report), row.take(k as int)),
        decreases strikes.len() - k,
    {
        let ghost before = *report;
        scan_calendar_strike(index, near, far, option_type, strikes[k], report);
        proof {
            lemma_extends_twice(*old(report), before, *report, row.take(k as int), seq![row[k as int]]);
            assert(row.take(k + 1) =~= row.take(k as int) + seq![row[k as int]]);
        }
        k += 1;
    }
    assert(row.take(k as int) =~= row);
}

/// The calendar scan: every contender it finds and every quote it misses, in
/// the order of the dates, calls before puts, strikes ascending.
pub fn scan_calendar(index: &ChainIndex<Quote>, dates: &Vec<String>, table: &StrikeTable) -> (report:
    ScanReport)
    ensures
        report.holds(calendar_outcomes(index@, table@, texts(dates@))),
{
    let mut report = ScanReport::new();
    let ghost empty = report;
    if dates.len() == 0 {
        return report;
    }
    let mut i: usize = 0;
    proof {
        lemma_extends_skipped(report);
    }
    while i + 1 < dates.len()
        invariant
            0 < dates.len(),
            i < dates.len(),
            empty.holds(Seq::empty()),
            report.extends(empty, calendar_pairs(index@, table@, texts(dates@), i as nat)),
        decreases dates.len() - i,
    {
        let ghost before = report;
        let near = &dates[i];
        let far = &dates[i + 1];
        scan_calendar_side(index, table, near, far, OptionType::Call, &mut report);
        let ghost between = report;
        scan_calendar_side(index, table, near, far, OptionType::Put, &mut report);
        proof {
            let calls = calendar_side(index@, table@, near@, far@, OptionType::Call);
            let puts = calendar_side(index@, table@, near@, far@, OptionType::Put);
            lemma_extends_twice(before, between, report, calls, puts);
            lemma_extends_twice(
                empty,
                before,
                report,
                calendar_pairs(index@, table@, texts(dates@), i as nat),
                calls + puts,
            );
        }
        i += 1;
    }
    proof {
        lemma_extends_empty(empty, report, calendar_pairs(index@, table@, texts(dates@), i as nat));
    }
    report
}

/// The contenders of the calendar scan, or the first quote that was promised
/// and is absent.
pub fn get_calendar_contenders(
    index: &ChainIndex<Quote>,
    dates: &Vec<String>,
    table: &StrikeTable,
) -> (r: Result<Vec<Contender>, LookupError>)
    ensures
        is_verdict(r, calendar_outcomes(index@, table@, texts(dates@))),
{
    let report = scan_calendar(index, dates, table);
    let ghost held = report;
    let r = report.conclude();
    proof {
        lemma_conclude(held, r, calendar_outcomes(index@, table@, texts(dates@)));
    }
    r
}

} // verus!
