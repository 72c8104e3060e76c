//! Box spreads: calls and puts at two strikes of one expiration, worth the
//! low call and the high put less the high call and the low put.
use crate::amount::{mean, mean_of};
use crate::chain::{chain_key, holds_strike, ChainIndex, ChainKey, StrikeLists, StrikeTable};
use crate::contender::{leg_of, Contender, ContenderView, Leg, LookupError, Quote, Spread, SpreadView};
use crate::dates::texts;
use crate::scan::{
    every_found, found, is_verdict, lemma_every_found, lemma_every_found_concat,
    lemma_conclude, lemma_extends_empty, lemma_extends_skipped, lemma_extends_twice, Outcome,
    ScanReport,
};
use crate::strike::{ascending, sorted_strikes, OptionType, Strike};
use vstd::prelude::*;

verus! {

/// The box spread of the four quotes at two strikes of one expiration.
pub open spec fn box_contender(
    date: Seq<char>,
    low: Strike,
    high: Strike,
    low_call: Quote,
    high_call: Quote,
    low_put: Quote,
    high_put: Quote,
) -> ContenderView {
    ContenderView {
        spread: SpreadView::Boxspread {
            low_call: leg_of(chain_key(date, OptionType::Call, low), low_call),
            high_call: leg_of(chain_key(date, OptionType::Call, high), high_call),
            low_put: leg_of(chain_key(date, OptionType::Put, low), low_put),
            high_put: leg_of(chain_key(date, OptionType::Put, high), high_put),
        },
        arb_value: (low_call.mid() + high_put.mid()) - (high_call.mid() + low_put.mid()),
        avg_ask_size: mean_of(
            low_call.size() + high_call.size() + low_put.size() + high_put.size(),
            4,
        ),
        primary_expiration: date,
        rank_score: 0,
    }
}

/// What becomes of two strikes of one expiration: where a quote is absent
/// (low call, high call, low put, high put, in that order) it is missing;
/// where the low call and the high put together exceed the high call and the
/// low put, the spread is a contender.
pub open spec fn box_candidate(
    quotes: Map<ChainKey, Quote>,
    date: Seq<char>,
    low: Strike,
    high: Strike,
) -> Outcome {
    let low_call = chain_key(date, OptionType::Call, low);
    let high_call = chain_key(date, OptionType::Call, high);
    let low_put = chain_key(date, OptionType::Put, low);
    let high_put = chain_key(date, OptionType::Put, high);
    if !quotes.contains_key(low_call) {
        Outcome::Missing(low_call)
    } else if !quotes.contains_key(high_call) {
        Outcome::Missing(high_call)
    } else if !quotes.contains_key(low_put) {
        Outcome::Missing(low_put)
    } else if !quotes.contains_key(high_put) {
        Outcome::Missing(high_put)
    } else if (quotes[low_call].mid() + quotes[high_put].mid()) - (quotes[high_call].mid()
        + quotes[low_put].mid()) > 0 {
        Outcome::Found(
            box_contender(
                date,
                low,
                high,
                quotes[low_call],
                quotes[high_call],
                quotes[low_put],
                quotes[high_put],
            ),
        )
    } else {
        Outcome::Skipped
    }
}

/// The strikes of `date` that are listed for calls and for puts alike, each
/// once, from the lowest to the highest; none where either list is absent.
pub open spec fn common_strikes(table: StrikeLists, date: Seq<char>) -> Seq<Strike> {
    if table.contains_key((date, OptionType::Call)) && table.contains_key(
        (date, OptionType::Put),
    ) {
        ascending(table[(date, OptionType::Call)]).filter(
            |s: Strike| table[(date, OptionType::Put)].contains(s),
        )
    } else {
        Seq::empty()
    }
}

/// The outcomes for the strike at `i` as the low strike, paired with each
/// later strike in turn.
pub open spec fn box_row(
    quotes: Map<ChainKey, Quote>,
    date: Seq<char>,
    strikes: Seq<Strike>,
    i: int,
) -> Seq<Outcome> {
    Seq::new(
        (strikes.len() - 1 - i) as nat,
        |k: int| box_candidate(quotes, date, strikes[i], strikes[i + 1 + k]),
    )
}

/// The outcomes for the first `n` strikes as low strikes.
pub open spec fn box_rows(
    quotes: Map<ChainKey, Quote>,
    date: Seq<char>,
    strikes: Seq<Strike>,
    n: nat,
) -> Seq<Outcome>
    decreases n,
{
    if n == 0 {
        Seq::empty()
    } else {
        box_rows(quotes, date, strikes, (n - 1) as nat) + box_row(quotes, date, strikes, n - 1)
    }
}

/// The outcomes for one expiration: every pair of a lower and a higher
/// strike among its common strikes.
pub open spec fn box_date(
    quotes: Map<ChainKey, Quote>,
    table: StrikeLists,
    date: Seq<char>,
) -> Seq<Outcome> {
    box_rows(quotes, date, common_strikes(table, date), common_strikes(table, date).len())
}

/// The outcomes for the first `n` dates.
pub open spec fn box_dates(
    quotes: Map<ChainKey, Quote>,
    table: StrikeLists,
    dates: Seq<Seq<char>>,
    n: nat,
) -> Seq<Outcome>
    decreases n,
{
    if n == 0 {
        Seq::empty()
    } else {
        box_dates(quotes, table, dates, (n - 1) as nat) + box_date(quotes, table, dates[n - 1])
    }
}

/// The outcomes of the box scan over all dates.
pub open spec fn box_outcomes(
    quotes: Map<ChainKey, Quote>,
    table: StrikeLists,
    dates: Seq<Seq<char>>,
) -> Seq<Outcome> {
    box_dates(quotes, table, dates, dates.len())
}

/// What makes a contender a box spread: calls and puts of one date at two
/// strikes, a value that is the low call and the high put less the high call
/// and the low put and is positive, that date as its expiration, and no
/// score yet.
pub open spec fn is_box_spread(c: ContenderView) -> bool {
    &&& c.spread matches SpreadView::Boxspread { low_call, high_call, low_put, high_put }
    &&& low_call.date == c.primary_expiration && high_call.date == c.primary_expiration
    &&& low_put.date == c.primary_expiration && high_put.date == c.primary_expiration
    &&& low_call.option_type == OptionType::Call && high_call.option_type == OptionType::Call
    &&& low_put.option_type == OptionType::Put && high_put.option_type == OptionType::Put
    &&& low_call.strike == low_put.strike && high_call.strike == high_put.strike
    &&& c.arb_value == (low_call.mid_price + high_put.mid_price) - (high_call.mid_price
        + low_put.mid_price)
    &&& c.arb_value > 0
    &&& c.rank_score == 0
}

proof fn lemma_box_rows(
    quotes: Map<ChainKey, Quote>,
    date: Seq<char>,
    strikes: Seq<Strike>,
    n: nat,
)
    requires
        n <= strikes.len(),
    ensures
        every_found(box_rows(quotes, date, strikes, n), |c: ContenderView| is_box_spread(c)),
    decreases n,
{
    let holds = |c: ContenderView| is_box_spread(c);
    if n > 0 {
        lemma_box_rows(quotes, date, strikes, (n - 1) as nat);
        let row = box_row(quotes, date, strikes, n - 1);
        assert(every_found(row, holds));
        lemma_every_found_concat(box_rows(quotes, date, strikes, (n - 1) as nat), row, holds);
    }
}

proof fn lemma_box_dates(
    quotes: Map<ChainKey, Quote>,
    table: StrikeLists,
    dates: Seq<Seq<char>>,
    n: nat,
)
    ensures
        every_found(box_dates(quotes, table, dates, n), |c: ContenderView| is_box_spread(c)),
    decreases n,
{
    let holds = |c: ContenderView| is_box_spread(c);
    if n > 0 {
        lemma_box_dates(quotes, table, dates, (n - 1) as nat);
        let date = dates[n - 1];
        let strikes = common_strikes(table, date);
        lemma_box_rows(quotes, date, strikes, strikes.len());
        lemma_every_found_concat(
            box_dates(quotes, table, dates, (n - 1) as nat),
            box_date(quotes, table, date),
            holds,
        );
    }
}

/// Every contender of the box scan is a box spread worth more than nothing.
pub proof fn lemma_box_contenders(
    quotes: Map<ChainKey, Quote>,
    table: StrikeLists,
    dates: Seq<Seq<char>>,
)
    ensures
        forall|i: int|
            0 <= i < found(box_outcomes(quotes, table, dates)).len() ==> is_box_spread(
                #[trigger] found(box_outcomes(quotes, table, dates))[i],
            ),
{
    let holds = |c: ContenderView| is_box_spread(c);
    lemma_box_dates(quotes, table, dates, dates.len());
    lemma_every_found(box_outcomes(quotes, table, dates), holds);
}

/// Scans one pair of strikes.
fn scan_box_pair(
    index: &ChainIndex<Quote>,
    date: &String,
    low: Strike,
    high: Strike,
    report: &mut ScanReport,
)
    ensures
        final(report).extends(*old(report), seq![box_candidate(index@, date@, low, high)]),
{
    let low_call: Quote = match index.get(date.as_str(), OptionType::Call, low) {
        Some(q) => *q,
        None => {
            report.record_missing(date, OptionType::Call, low);
            return ;
        },
    };
    let high_call: Quote = match index.get(date.as_str(), OptionType::Call, high) {
        Some(q) => *q,
        None => {
            report.record_missing(date, OptionType::Call, high);
            return ;
        },
    };
    let low_put: Quote = match index.get(date.as_str(), OptionType::Put, low) {
        Some(q) => *q,
        None => {
            report.record_missing(date, OptionType::Put, low);
            return ;
        },
    };
    let high_put: Quote = match index.get(date.as_str(), OptionType::Put, high) {
        Some(q) => *q,
        None => {
            report.record_missing(date, OptionType::Put, high);
            return ;
        },
    };
    let arb_value: i64 = (low_call.mid_price() + high_put.mid_price()) - (high_call.mid_price()
        + low_put.mid_price());
    if arb_value > 0 {
        let avg_ask_size: i64 = mean(
            low_call.ask_size() + high_call.ask_size() + low_put.ask_size() + high_put.ask_size(),
            4,
        );
        let spread = Spread::Boxspread {
            low_call: Leg::of_quote(date, OptionType::Call, low, &low_call),
            high_call: Leg::of_quote(date, OptionType::Call, high, &high_call),
            low_put: Leg::of_quote(date, OptionType::Put, low, &low_put),
            high_put: Leg::of_quote(date, OptionType::Put, high, &high_put),
        };
        match Contender::new(spread, arb_value, avg_ask_size, date.clone(), 0) {
            Some(contender) => {
                report.record_found(contender);
            },
            None => {
                proof {
                    lemma_extends_skipped(*report);
                }
            },
        }
    } else {
        proof {
            lemma_extends_skipped(*report);
        }
    }
}

/// The strikes listed for calls and for puts alike, ascending.
fn strikes_in_common(table: &StrikeTable, date: &String) -> (common: Vec<Strike>)
    ensures
        common@ == common_strikes(table@, date@),
{
    let calls: Vec<Strike> = match table.strikes_for(date.as_str(), OptionType::Call) {
        Some(listed) => sorted_strikes(listed),
        None => {
            return Vec::new();
        },
    };
    let puts: &Vec<Strike> = match table.strikes_for(date.as_str(), OptionType::Put) {
        Some(listed) => listed,
        None => {
            return Vec::new();
        },
    };
    let ghost in_puts = |s: Strike| table@[(date@, OptionType::Put)].contains(s);
    let mut common: Vec<Strike> = Vec::new();
    let mut k: usize = 0;
    proof {
        reveal(Seq::filter);
        assert(calls@.take(0) =~= Seq::empty());
    }
    while k < calls.len()
        invariant
            k <= calls.len(),
            puts@ == table@[(date@, OptionType::Put)],
            in_puts == |s: Strike| table@[(date@, OptionType::Put)].contains(s),
            common@ == calls@.take(k as int).filter(in_puts),
        decreases calls.len() - k,
    {
        proof {
            reveal(Seq::filter);
            assert(calls@.take(k + 1).drop_last() =~= calls@.take(k as int));
        }
        if holds_strike(puts, calls[k]) {
            common.push(calls[k]);
        }
        k += 1;
    }
    assert(calls@.take(k as int) =~= calls@);
    common
}

/// Scans the pairs whose low strike is the one at `i`.
fn scan_box_row(
    index: &ChainIndex<Quote>,
    date: &String,
    strikes: &Vec<Strike>,
    i: usize,
    report: &mut ScanReport,
)
    requires
        i < strikes.len(),
    ensures
        final(report).extends(*old(report), box_row(index@, date@, strikes@, i as int)),
{
    let ghost row = box_row(index@, date@, strikes@, i as int);
    let mut j: usize = i + 1;
    proof {
        lemma_extends_skipped(*report);
        assert(row.take(0) =~= Seq::empty());
    }
    while j < strikes.len()
        invariant
            i < j <= strikes.len(),
            row == box_row(index@, date@, strikes@, i as int),
            report.extends(*old(report), row.take(j - i - 1)),
        decreases strikes.len() - j,
    {
        let ghost before = *report;
        let ghost k = j - i - 1;
        scan_box_pair(index, date, strikes[i], strikes[j], report);
        proof {
            lemma_extends_twice(*old(report), before, *report, row.take(k), seq![row[k]]);
            assert(row.take(k + 1) =~= row.take(k) + seq![row[k]]);
        }
        j += 1;
    }
    assert(row.take(j - i - 1) =~= row);
}

/// Scans one expiration.
fn scan_box_date(
    index: &ChainIndex<Quote>,
    table: &StrikeTable,
    date: &String,
    report: &mut ScanReport,
)
    ensures
        final(report).extends(*old(report), box_date(index@, table@, date@)),
{
    let strikes = strikes_in_common(table, date);
    let mut i: usize = 0;
    proof {
        lemma_extends_skipped(*report);
    }
    while i < strikes.len()
        invariant
            i <= strikes.len(),
            strikes@ == common_strikes(table@, date@),
            report.extends(*old(report), box_rows(index@, date@, strikes@, i as nat)),
        decreases strikes.len() - i,
    {
        let ghost before = *report;
        scan_box_row(index, date, &strikes, i, report);
        proof {
            lemma_extends_twice(
                *old(report),
                before,
                *report,
                box_rows(index@, date@, strikes@, i as nat),
                box_row(index@, date@, strikes@, i as int),
            );
        }
        i += 1;
    }
}

/// The box scan: every contender it finds and every quote it misses, in the
/// order of the dates, low strikes ascending, high strikes ascending.
pub fn scan_boxspread(index: &ChainIndex<Quote>, dates: &Vec<String>, table: &StrikeTable) -> (report:
    ScanReport)
    ensures
        report.holds(box_outcomes(index@, table@, texts(dates@))),
{
    let mut report = ScanReport::new();
    let ghost empty = report;
    let mut i: usize = 0;
    proof {
        lemma_extends_skipped(report);
    }
    while i < dates.len()
        invariant
            i <= dates.len(),
            empty.holds(Seq::empty()),
            report.extends(empty, box_dates(index@, table@, texts(dates@), i as nat)),
        decreases dates.len() - i,
    {
        let ghost before = report;
        scan_box_date(index, table, &dates[i], &mut report);
        proof {
            lemma_extends_twice(
                empty,
                before,
                report,
                box_dates(index@, table@, texts(dates@), i as nat),
                box_date(index@, table@, dates[i as int]@),
            );
        }
        i += 1;
    }
    proof {
        lemma_extends_empty(empty, report, box_dates(index@, table@, texts(dates@), i as nat));
    }
    report
}

/// The contenders of the box scan, or the first quote that was promised and
/// is absent.
pub fn get_boxspread_contenders(
    index: &ChainIndex<Quote>,
    dates: &Vec<String>,
    table: &StrikeTable,
) -> (r: Result<Vec<Contender>, LookupError>)
    ensures
        is_verdict(r, box_outcomes(index@, table@, texts(dates@))),
{
    let report = scan_boxspread(index, dates, table);
    let ghost held = report;
    let r = report.conclude();
    proof {
        lemma_conclude(held, r, box_outcomes(index@, table@, texts(dates@)));
    }
    r
}

} // verus!
