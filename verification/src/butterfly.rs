//! Butterfly spreads: three neighbouring strikes of one expiration and type,
//! worth twice the middle mid price less the two outer ones.
use crate::amount::{mean, mean_of};
use crate::chain::{chain_key, ChainIndex, ChainKey, StrikeLists, StrikeTable};
use crate::contender::{leg_of, Contender, ContenderView, Leg, LookupError, Quote, Spread, SpreadView};
use crate::dates::texts;
use crate::scan::{
    every_found, found, is_verdict, lemma_every_found, lemma_every_found_concat,
    lemma_conclude, lemma_extends_empty, lemma_extends_skipped, lemma_extends_twice, Outcome,
    ScanReport,
};
use crate::strike::{ascending, sorted_strikes, OptionType, Strike};
use vstd::prelude::*;

verus! {

/// The butterfly spread of three quotes of one expiration and type, from the
/// lowest strike to the highest.
pub open spec fn butterfly_contender(
    low_key: ChainKey,
    low: Quote,
    mid_key: ChainKey,
    mid: Quote,
    high_key: ChainKey,
    high: Quote,
) -> ContenderView {
    ContenderView {
        spread: SpreadView::Butterfly {
            low: leg_of(low_key, low),
            mid: leg_of(mid_key, mid),
            high: leg_of(high_key, high),
        },
        arb_value: 2 * mid.mid() - (low.mid() + high.mid()),
        avg_ask_size: mean_of(low.size() + mid.size() + high.size(), 3),
        primary_expiration: mid_key.date,
        rank_score: 0,
    }
}

/// What becomes of three strikes of one expiration and type: where a quote
/// is absent, the lowest strike first, it is missing; where twice the middle
/// mid price exceeds the sum of the outer two, the spread is a contender.
pub open spec fn butterfly_candidate(
    quotes: Map<ChainKey, Quote>,
    date: Seq<char>,
    option_type: OptionType,
    low: Strike,
    mid: Strike,
    high: Strike,
) -> Outcome {
    let low_key = chain_key(date, option_type, low);
    let mid_key = chain_key(date, option_type, mid);
    let high_key = chain_key(date, option_type, high);
    if !quotes.contains_key(low_key) {
        Outcome::Missing(low_key)
    } else if !quotes.contains_key(mid_key) {
        Outcome::Missing(mid_key)
    } else if !quotes.contains_key(high_key) {
        Outcome::Missing(high_key)
    } else if 2 * quotes[mid_key].mid() - (quotes[low_key].mid() + quotes[high_key].mid()) > 0 {
        Outcome::Found(
            butterfly_contender(
                low_key,
                quotes[low_key],
                mid_key,
                quotes[mid_key],
                high_key,
                quotes[high_key],
            ),
        )
    } else {
        Outcome::Skipped
    }
}

/// The number of windows of three consecutive strikes among `n` strikes.
pub open spec fn window_count(n: nat) -> nat {
    if n >= 3 {
        (n - 2) as nat
    } else {
        0
    }
}

/// The outcomes for every window of three consecutive strikes of `strikes`,
/// from the first window on; none where there are fewer than three strikes.
pub open spec fn butterfly_row(
    quotes: Map<ChainKey, Quote>,
    date: Seq<char>,
    option_type: OptionType,
    strikes: Seq<Strike>,
) -> Seq<Outcome> {
    Seq::new(
        window_count(strikes.len()),
        |w: int|
            butterfly_candidate(
                quotes,
                date,
                option_type,
                strikes[w],
                strikes[w + 1],
                strikes[w + 2],
            ),
    )
}

/// The outcomes for one expiration and option type: the windows of its
/// strikes in ascending order.
pub open spec fn butterfly_side(
    quotes: Map<ChainKey, Quote>,
    table: StrikeLists,
    date: Seq<char>,
    option_type: OptionType,
) -> Seq<Outcome> {
    if table.contains_key((date, option_type)) {
        butterfly_row(quotes, date, option_type, ascending(table[(date, option_type)]))
    } else {
        Seq::empty()
    }
}

/// The outcomes for one expiration: calls, then puts.
pub open spec fn butterfly_date(
    quotes: Map<ChainKey, Quote>,
    table: StrikeLists,
    date: Seq<char>,
) -> Seq<Outcome> {
    butterfly_side(quotes, table, date, OptionType::Call) + butterfly_side(
        quotes,
        table,
        date,
        OptionType::Put,
    )
}

/// The outcomes for the first `n` dates.
pub open spec fn butterfly_dates(
    quotes: Map<ChainKey, Quote>,
    table: StrikeLists,
    dates: Seq<Seq<char>>,
    n: nat,
) -> Seq<Outcome>
    decreases n,
{
    if n == 0 {
        Seq::empty()
    } else {
        butterfly_dates(quotes, table, dates, (n - 1) as nat) + butterfly_date(
            quotes,
            table,
            dates[n - 1],
        )
    }
}

/// The outcomes of the butterfly scan over all dates.
pub open spec fn butterfly_outcomes(
    quotes: Map<ChainKey, Quote>,
    table: StrikeLists,
    dates: Seq<Seq<char>>,
) -> Seq<Outcome> {
    butterfly_dates(quotes, table, dates, dates.len())
}

/// What makes a contender a butterfly spread: one date and type in all
/// three legs, a value that is twice the middle mid price less the outer two
/// and is positive, that date as its expiration, and no score yet.
pub open spec fn is_butterfly_spread(c: ContenderView) -> bool {
    &&& c.spread matches SpreadView::Butterfly { low, mid, high }
    &&& low.date == mid.date && mid.date == high.date
    &&& low.option_type == mid.option_type && mid.option_type == high.option_type
    &&& c.arb_value == 2 * mid.mid_price - (low.mid_price + high.mid_price)
    &&& c.arb_value > 0
    &&& c.primary_expiration == mid.date
    &&& c.rank_score == 0
}

proof fn lemma_butterfly_dates(
    quotes: Map<ChainKey, Quote>,
    table: StrikeLists,
    dates: Seq<Seq<char>>,
    n: nat,
)
    ensures
        every_found(
            butterfly_dates(quotes, table, dates, n),
            |c: ContenderView| is_butterfly_spread(c),
        ),
    decreases n,
{
    let holds = |c: ContenderView| is_butterfly_spread(c);
    if n > 0 {
        lemma_butterfly_dates(quotes, table, dates, (n - 1) as nat);
        let date = dates[n - 1];
        let calls = butterfly_side(quotes, table, date, OptionType::Call);
        let puts = butterfly_side(quotes, table, date, OptionType::Put);
        assert(every_found(calls, holds));
        assert(every_found(puts, holds));
        lemma_every_found_concat(calls, puts, holds);
        lemma_every_found_concat(
            butterfly_dates(quotes, table, dates, (n - 1) as nat),
            calls + puts,
            holds,
        );
    }
}

/// Every contender of the butterfly scan is a butterfly spread worth more
/// than nothing.
pub proof fn lemma_butterfly_contenders(
    quotes: Map<ChainKey, Quote>,
    table: StrikeLists,
    dates: Seq<Seq<char>>,
)
    ensures
        forall|i: int|
            0 <= i < found(butterfly_outcomes(quotes, table, dates)).len() ==> is_butterfly_spread(
                #[trigger] found(butterfly_outcomes(quotes, table, dates))[i],
            ),
{
    let holds = |c: ContenderView| is_butterfly_spread(c);
    lemma_butterfly_dates(quotes, table, dates, dates.len());
    lemma_every_found(butterfly_outcomes(quotes, table, dates), holds);
}

/// Scans one window of three strikes.
fn scan_butterfly_window(
    index: &ChainIndex<Quote>,
    date: &String,
    option_type: OptionType,
    low: Strike,
    mid: Strike,
    high: Strike,
    report: &mut ScanReport,
)
    ensures
        final(report).extends(
            *old(report),
            seq![butterfly_candidate(index@, date@, option_type, low, mid, high)],
        ),
{
    let low_quote: Quote = match index.get(date.as_str(), option_type, low) {
        Some(q) => *q,
        None => {
            report.record_missing(date, option_type, low);
            return ;
        },
    };
    let mid_quote: Quote = match index.get(date.as_str(), option_type, mid) {
        Some(q) => *q,
        None => {
            report.record_missing(date, option_type, mid);
            return ;
        },
    };
    let high_quote: Quote = match index.get(date.as_str(), option_type, high) {
        Some(q) => *q,
        None => {
            report.record_missing(date, option_type, high);
            return ;
        },
    };
    let arb_value: i64 = 2 * mid_quote.mid_price() - (low_quote.mid_price()
        + high_quote.mid_price());
    if arb_value > 0 {
        let avg_ask_size: i64 = mean(
            low_quote.ask_size() + mid_quote.ask_size() + high_quote.ask_size(),
            3,
        );
        let spread = Spread::Butterfly {
            low: Leg::of_quote(date, option_type, low, &low_quote),
            mid: Leg::of_quote(date, option_type, mid, &mid_quote),
            high: Leg::of_quote(date, option_type, high, &high_quote),
        };
        match Contender::new(spread, arb_value, avg_ask_size, date.clone(), 0) {
            Some(contender) => {
                report.record_found(contender);
            },
            None => {
                proof {
                    lemma_extends_skipped(*report);
                }
            },
        }
    } else {
        proof {
            lemma_extends_skipped(*report);
        }
    }
}

/// Scans one expiration and option type.
fn scan_butterfly_side(
    index: &ChainIndex<Quote>,
    table: &StrikeTable,
    date: &String,
    option_type: OptionType,
    report: &mut ScanReport,
)
    ensures
        final(report).extends(*old(report), butterfly_side(index@, table@, date@, option_type)),
{
    let strikes: Vec<Strike> = match table.strikes_for(date.as_str(), option_type) {
        Some(listed) => sorted_strikes(listed),
        None => {
            proof {
                lemma_extends_skipped(*report);
            }
            return ;
        },
    };
    let ghost row = butterfly_row(index@, date@, option_type, strikes@);
    let windows: usize = if strikes.len() >= 3 {
        strikes.len() - 2
    } else {
        0
    };
    let mut w: usize = 0;
    proof {
        lemma_extends_skipped(*report);
        assert(row.take(0) =~= Seq::empty());
    }
    while w < windows
        invariant
            w <= windows,
            windows == 0 || windows + 2 == strikes.len(),
            row.len() == windows,
            row == butterfly_row(index@, date@, option_type, strikes@),
            report.extends(*old(report), row.take(w as int)),
        decreases windows - w,
    {
        let ghost before = *report;
        scan_butterfly_window(
            index,
            date,
            option_type,
            strikes[w],
            strikes[w + 1],
            strikes[w + 2],
            report,
        );
        proof {
            lemma_extends_twice(*old(report), before, *report, row.take(w as int), seq![row[w as int]]);
            assert(row.take(w + 1) =~= row.take(w as int) + seq![row[w as int]]);
        }
        w += 1;
    }
    assert(row.take(w as int) =~= row);
}

/// The butterfly scan: every contender it finds and every quote it misses,
/// in the order of the dates, calls before puts, windows ascending.
pub fn scan_butterfly(index: &ChainIndex<Quote>, dates: &Vec<String>, table: &StrikeTable) -> (report:
    ScanReport)
    ensures
        report.holds(butterfly_outcomes(index@, table@, texts(dates@))),
{
    let mut report = ScanReport::new();
    let ghost empty = report;
    let mut i: usize = 0;
    proof {
        lemma_extends_skipped(report);
    }
    while i < dates.len()
        invariant
            i <= dates.len(),
            empty.holds(Seq::empty()),
            report.extends(empty, butterfly_dates(index@, table@, texts(dates@), i as nat)),
        decreases dates.len() - i,
    {
        let ghost before = report;
        let date = &dates[i];
        scan_butterfly_side(index, table, date, OptionType::Call, &mut report);
        let ghost between = report;
        scan_butterfly_side(index, table, date, OptionType::Put, &mut report);
        proof {
            let calls = butterfly_side(index@, table@, date@, OptionType::Call);
            let puts = butterfly_side(index@, table@, date@, OptionType::Put);
            lemma_extends_twice(before, between, report, calls, puts);
            lemma_extends_twice(
                empty,
                before,
                report,
                butterfly_dates(index@, table@, texts(dates@), i as nat),
                calls + puts,
            );
        }
        i += 1;
    }
    proof {
        lemma_extends_empty(
            empty,
            report,
            butterfly_dates(index@, table@, texts(dates@), i as nat),
        );
    }
    report
}

/// The contenders of the butterfly scan, or the first quote that was
/// promised and is absent.
pub fn get_butterfly_contenders(
    index: &ChainIndex<Quote>,
    dates: &Vec<String>,
    table: &StrikeTable,
) -> (r: Result<Vec<Contender>, LookupError>)
    ensures
        is_verdict(r, butterfly_outcomes(index@, table@, texts(dates@))),
{
    let report = scan_butterfly(index, dates, table);
    let ghost held = report;
    let r = report.conclude();
    proof {
        lemma_conclude(held, r, butterfly_outcomes(index@, table@, texts(dates@)));
    }
    r
}

} // verus!
