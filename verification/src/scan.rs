//! What a scan yields: for each candidate in turn a contender, a missing
//! quote, or nothing.
use crate::chain::{chain_key, ChainKey};
use crate::contender::{contender_views, lookup_views, Contender, ContenderView, LookupError};
use crate::strike::{OptionType, Strike};
use vstd::prelude::*;

verus! {

/// What became of one candidate.
pub enum Outcome {
    /// Its value is positive: it is a contender.
    Found(ContenderView),
    /// The quote of this contract was promised and is absent.
    Missing(ChainKey),
    /// Its value is not positive: it is no contender.
    Skipped,
}

/// The contenders among the outcomes, in order.
pub open spec fn found(outcomes: Seq<Outcome>) -> Seq<ContenderView>
    decreases outcomes.len(),
{
    if outcomes.len() == 0 {
        Seq::empty()
    } else {
        let earlier = found(outcomes.drop_last());
        match outcomes.last() {
            Outcome::Found(c) => earlier.push(c),
            _ => earlier,
        }
    }
}

/// The missing contracts among the outcomes, in order.
pub open spec fn missing(outcomes: Seq<Outcome>) -> Seq<ChainKey>
    decreases outcomes.len(),
{
    if outcomes.len() == 0 {
        Seq::empty()
    } else {
        let earlier = missing(outcomes.drop_last());
        match outcomes.last() {
            Outcome::Missing(k) => earlier.push(k),
            _ => earlier,
        }
    }
}

/// The contenders and the missing contracts of two runs of outcomes, one
/// after the other, are those of the first followed by those of the second.
pub proof fn lemma_outcomes_concat(a: Seq<Outcome>, b: Seq<Outcome>)
    ensures
        found(a + b) == found(a) + found(b),
        missing(a + b) == missing(a) + missing(b),
    decreases b.len(),
{
    if b.len() == 0 {
        assert(a + b =~= a);
        assert(found(a) + found(b) =~= found(a));
        assert(missing(a) + missing(b) =~= missing(a));
    } else {
        lemma_outcomes_concat(a, b.drop_last());
        assert((a + b).drop_last() =~= a + b.drop_last());
        assert((a + b).last() == b.last());
        match b.last() {
            Outcome::Found(c) => {
                assert(found(a + b) =~= found(a) + found(b));
            },
            Outcome::Missing(k) => {
                assert(missing(a + b) =~= missing(a) + missing(b));
            },
            Outcome::Skipped => {},
        }
    }
}

/// What one outcome alone contributes.
pub proof fn lemma_single_outcome(o: Outcome)
    ensures
        found(seq![o]) == match o {
            Outcome::Found(c) => seq![c],
            _ => Seq::empty(),
        },
        missing(seq![o]) == match o {
            Outcome::Missing(k) => seq![k],
            _ => Seq::empty(),
        },
{
    let s = seq![o];
    assert(s.drop_last() =~= Seq::<Outcome>::empty());
    assert(s.last() == o);
    assert(found(s.drop_last()) =~= Seq::<ContenderView>::empty());
    assert(missing(s.drop_last()) =~= Seq::<ChainKey>::empty());
    match o {
        Outcome::Found(c) => {
            assert(found(s) =~= seq![c]);
        },
        Outcome::Missing(k) => {
            assert(missing(s) =~= seq![k]);
        },
        Outcome::Skipped => {},
    }
}

/// Every contender among the outcomes meets `holds`.
pub open spec fn every_found(outcomes: Seq<Outcome>, holds: spec_fn(ContenderView) -> bool) -> bool {
    forall|j: int|
        0 <= j < outcomes.len() ==> (#[trigger] outcomes[j] matches Outcome::Found(c) ==> holds(c))
}

/// What holds of every contender among the outcomes holds of every
/// contender that is found.
pub proof fn lemma_every_found(outcomes: Seq<Outcome>, holds: spec_fn(ContenderView) -> bool)
    requires
        every_found(outcomes, holds),
    ensures
        forall|i: int| 0 <= i < found(outcomes).len() ==> holds(#[trigger] found(outcomes)[i]),
    decreases outcomes.len(),
{
    if outcomes.len() > 0 {
        let shorter = outcomes.drop_last();
        assert(every_found(shorter, holds)) by {
            assert forall|j: int| 0 <= j < shorter.len() implies (
            #[trigger] shorter[j] matches Outcome::Found(c) ==> holds(c)) by {
                assert(shorter[j] == outcomes[j]);
            }
        }
        lemma_every_found(shorter, holds);
        let last = outcomes[outcomes.len() - 1];
        assert(last == outcomes.last());
        let earlier = found(shorter);
        assert forall|i: int| 0 <= i < found(outcomes).len() implies holds(
            #[trigger] found(outcomes)[i],
        ) by {
            if i < earlier.len() {
                assert(found(outcomes)[i] == earlier[i]);
            } else {
                match last {
                    Outcome::Found(c) => {
                        assert(found(outcomes)[i] == c);
                    },
                    _ => {},
                }
            }
        }
    }
}

/// What holds of every contender of two runs of outcomes holds of every
/// contender of the one after the other.
pub proof fn lemma_every_found_concat(
    a: Seq<Outcome>,
    b: Seq<Outcome>,
    holds: spec_fn(ContenderView) -> bool,
)
    requires
        every_found(a, holds),
        every_found(b, holds),
    ensures
        every_found(a + b, holds),
{
    assert forall|j: int| 0 <= j < (a + b).len() implies (#[trigger] (a + b)[j] matches Outcome::Found(
        c,
    ) ==> holds(c)) by {
        if j < a.len() {
            assert((a + b)[j] == a[j]);
        } else {
            assert((a + b)[j] == b[j - a.len()]);
        }
    }
}

/// What a scan hands back: the contenders it found, and the quotes it missed
/// on the way. A missed quote costs the one candidate that needed it.
pub struct ScanReport {
    pub contenders: Vec<Contender>,
    pub misses: Vec<LookupError>,
}

impl ScanReport {
    /// The report holds what `outcomes` yield, and nothing else.
    pub open spec fn holds(self, outcomes: Seq<Outcome>) -> bool {
        &&& contender_views(self.contenders@) == found(outcomes)
        &&& lookup_views(self.misses@) == missing(outcomes)
    }

    /// The report holds what `before` held followed by what `outcomes` yield.
    pub open spec fn extends(self, before: ScanReport, outcomes: Seq<Outcome>) -> bool {
        &&& contender_views(self.contenders@) == contender_views(before.contenders@) + found(
            outcomes,
        )
        &&& lookup_views(self.misses@) == lookup_views(before.misses@) + missing(outcomes)
    }

    /// A report with nothing in it.
    pub fn new() -> (report: ScanReport)
        ensures
            report.holds(Seq::empty()),
            report.contenders@.len() == 0,
            report.misses@.len() == 0,
    {
        let report = ScanReport { contenders: Vec::new(), misses: Vec::new() };
        assert(contender_views(report.contenders@) =~= Seq::empty());
        assert(lookup_views(report.misses@) =~= Seq::empty());
        report
    }

    /// Notes a contender.
    pub fn record_found(&mut self, contender: Contender)
        ensures
            final(self).extends(*old(self), seq![Outcome::Found(contender@)]),
    {
        proof {
            lemma_single_outcome(Outcome::Found(contender@));
        }
        self.contenders.push(contender);
        assert(contender_views(self.contenders@) =~= contender_views(old(self).contenders@)
            + seq![contender@]);
        assert(lookup_views(self.misses@) =~= lookup_views(old(self).misses@) + Seq::<
            ChainKey,
        >::empty());
    }

    /// Notes a quote that is absent.
    pub fn record_missing(&mut self, date: &String, option_type: OptionType, strike: Strike)
        ensures
            final(self).extends(
                *old(self),
                seq![Outcome::Missing(chain_key(date@, option_type, strike))],
            ),
    {
        let ghost key = chain_key(date@, option_type, strike);
        proof {
            lemma_single_outcome(Outcome::Missing(key));
        }
        self.misses.push(LookupError { date: date.clone(), option_type, strike });
        assert(lookup_views(self.misses@) =~= lookup_views(old(self).misses@) + seq![key]);
        assert(contender_views(self.contenders@) =~= contender_views(old(self).contenders@)
            + Seq::<ContenderView>::empty());
    }
}

/// A candidate that is skipped leaves the report as it is.
pub proof fn lemma_extends_skipped(report: ScanReport)
    ensures
        report.extends(report, seq![Outcome::Skipped]),
        report.extends(report, Seq::empty()),
{
    lemma_single_outcome(Outcome::Skipped);
    assert(contender_views(report.contenders@) + Seq::<ContenderView>::empty()
        =~= contender_views(report.contenders@));
    assert(lookup_views(report.misses@) + Seq::<ChainKey>::empty() =~= lookup_views(
        report.misses@,
    ));
}

/// Two extensions in a row are one extension by both runs of outcomes.
pub proof fn lemma_extends_twice(
    before: ScanReport,
    between: ScanReport,
    after: ScanReport,
    a: Seq<Outcome>,
    b: Seq<Outcome>,
)
    requires
        between.extends(before, a),
        after.extends(between, b),
    ensures
        after.extends(before, a + b),
{
    lemma_outcomes_concat(a, b);
    assert(contender_views(after.contenders@) =~= contender_views(before.contenders@) + (found(a)
        + found(b)));
    assert(lookup_views(after.misses@) =~= lookup_views(before.misses@) + (missing(a) + missing(
        b,
    )));
}

/// An extension of an empty report holds just the outcomes.
pub proof fn lemma_extends_empty(before: ScanReport, after: ScanReport, a: Seq<Outcome>)
    requires
        before.holds(Seq::empty()),
        after.extends(before, a),
    ensures
        after.holds(a),
{
    assert(Seq::<ContenderView>::empty() + found(a) =~= found(a));
    assert(Seq::<ChainKey>::empty() + missing(a) =~= missing(a));
}

/// The verdict on a scan as a whole: its contenders where no quote was
/// missing, else the first quote that was.
pub open spec fn verdict(outcomes: Seq<Outcome>) -> Result<Seq<ContenderView>, ChainKey> {
    if missing(outcomes).len() == 0 {
        Ok(found(outcomes))
    } else {
        Err(missing(outcomes)[0])
    }
}

/// Whether `r` is the verdict on `outcomes`.
pub open spec fn is_verdict(r: Result<Vec<Contender>, LookupError>, outcomes: Seq<Outcome>) -> bool {
    match r {
        Ok(contenders) => verdict(outcomes) == Ok::<Seq<ContenderView>, ChainKey>(
            contender_views(contenders@),
        ),
        Err(e) => verdict(outcomes) == Err::<Seq<ContenderView>, ChainKey>(e@),
    }
}

impl ScanReport {
    /// The verdict on the scan: the contenders where no quote was missing,
    /// else the first quote that was.
    pub fn conclude(self) -> (r: Result<Vec<Contender>, LookupError>)
        ensures
            match r {
                Ok(contenders) => self.misses@.len() == 0 && contenders == self.contenders,
                Err(e) => self.misses@.len() > 0 && e == self.misses@[0],
            },
    {
        let mut misses = self.misses;
        if misses.len() == 0 {
            Ok(self.contenders)
        } else {
            Err(misses.remove(0))
        }
    }
}

/// The verdict of a report that holds `outcomes` is the verdict on them.
pub proof fn lemma_conclude(
    report: ScanReport,
    r: Result<Vec<Contender>, LookupError>,
    outcomes: Seq<Outcome>,
)
    requires
        report.holds(outcomes),
        match r {
            Ok(contenders) => report.misses@.len() == 0 && contenders == report.contenders,
            Err(e) => report.misses@.len() > 0 && e == report.misses@[0],
        },
    ensures
        is_verdict(r, outcomes),
{
    match r {
        Ok(contenders) => {
            assert(lookup_views(report.misses@).len() == 0);
        },
        Err(e) => {
            assert(lookup_views(report.misses@)[0] == e@);
        },
    }
}

} // verus!
