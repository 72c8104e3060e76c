//! The option chain of one snapshot: which strikes each expiration lists, and
//! one value (a quote, a contract identifier) for each date, option type and
//! strike.
use crate::dates::{holds_text, texts};
use crate::strike::{OptionType, Strike};
use vstd::prelude::*;

verus! {

/// What identifies one contract of the chain.
pub struct ChainKey {
    pub date: Seq<char>,
    pub option_type: OptionType,
    pub strike: Strike,
}

/// The key made of a date, an option type and a strike.
pub open spec fn chain_key(date: Seq<char>, option_type: OptionType, strike: Strike) -> ChainKey {
    ChainKey { date, option_type, strike }
}

/// The strikes that each pair of date and option type lists.
pub type StrikeLists = Map<(Seq<char>, OptionType), Seq<Strike>>;

/// One record of a strike table: the strikes of one date and option type.
pub struct StrikeRow {
    pub date: String,
    pub option_type: OptionType,
    pub strikes: Vec<Strike>,
}

/// What a sequence of rows says, read in order: a later row replaces an
/// earlier one for the same date and option type.
pub open spec fn rows_map(rows: Seq<StrikeRow>) -> StrikeLists
    decreases rows.len(),
{
    if rows.len() == 0 {
        Map::empty()
    } else {
        rows_map(rows.drop_last()).insert(
            (rows.last().date@, rows.last().option_type),
            rows.last().strikes@,
        )
    }
}

proof fn lemma_rows_lookup(rows: Seq<StrikeRow>, key: (Seq<char>, OptionType), from: int)
    requires
        0 <= from <= rows.len(),
        forall|k: int| from <= k < rows.len() ==> (rows[k].date@, rows[k].option_type) != key,
    ensures
        rows_map(rows).contains_key(key) <==> rows_map(rows.take(from)).contains_key(key),
        rows_map(rows).contains_key(key) ==> rows_map(rows)[key] == rows_map(rows.take(from))[key],
    decreases rows.len(),
{
    if from == rows.len() {
        assert(rows.take(from) =~= rows);
    } else {
        lemma_rows_lookup(rows.drop_last(), key, from);
        assert(rows.drop_last().take(from) =~= rows.take(from));
    }
}

/// The strikes listed for each expiration date and option type.
pub struct StrikeTable {
    rows: Vec<StrikeRow>,
}

impl View for StrikeTable {
    type V = StrikeLists;

    closed spec fn view(&self) -> StrikeLists {
        rows_map(self.rows@)
    }
}

impl StrikeTable {
    /// A table that lists nothing.
    pub fn new() -> (table: StrikeTable)
        ensures
            table@ == Map::<(Seq<char>, OptionType), Seq<Strike>>::empty(),
    {
        StrikeTable { rows: Vec::new() }
    }

    /// Sets the strikes of one date and option type, replacing what the table
    /// listed for them before.
    pub fn insert(&mut self, date: String, option_type: OptionType, strikes: Vec<Strike>)
        ensures
            final(self)@ == old(self)@.insert((date@, option_type), strikes@),
    {
        let ghost before = self.rows@;
        self.rows.push(StrikeRow { date, option_type, strikes });
        assert(self.rows@.drop_last() =~= before);
    }

    /// The strikes listed for `date` and `option_type`, if any are.
    pub fn strikes_for(&self, date: &str, option_type: OptionType) -> (r: Option<&Vec<Strike>>)
        ensures
            r is Some <==> self@.contains_key((date@, option_type)),
            r is Some ==> r->0@ == self@[(date@, option_type)],
    {
        let wanted = date.to_owned();
        let ghost key = (date@, option_type);
        let mut i: usize = self.rows.len();
        while i > 0
            invariant
                i <= self.rows.len(),
                wanted@ == date@,
                key == (date@, option_type),
                forall|k: int|
                    i <= k < self.rows.len() ==> (self.rows[k].date@, self.rows[k].option_type)
                        != key,
            decreases i,
        {
            i -= 1;
            let row = &self.rows[i];
            if row.option_type == option_type && row.date == wanted {
                proof {
                    lemma_rows_lookup(self.rows@, key, i + 1);
                    assert(self.rows@.take(i + 1).drop_last() =~= self.rows@.take(i as int));
                    assert(self.rows@.take(i + 1).last() == self.rows@[i as int]);
                }
                return Some(&row.strikes);
            }
        }
        proof {
            lemma_rows_lookup(self.rows@, key, 0);
        }
        None
    }
}

/// The contract `key` is enumerated: its date is one of `dates`, and the
/// table lists its strike under its date and option type.
pub open spec fn is_listed(dates: Seq<Seq<char>>, table: StrikeLists, key: ChainKey) -> bool {
    &&& dates.contains(key.date)
    &&& table.contains_key((key.date, key.option_type))
    &&& table[(key.date, key.option_type)].contains(key.strike)
}

/// The set of enumerated contracts.
pub open spec fn listed_keys(dates: Seq<Seq<char>>, table: StrikeLists) -> Set<ChainKey> {
    Set::new(|key: ChainKey| is_listed(dates, table, key))
}

/// One record of a chain index.
pub struct ChainEntry<V> {
    pub date: String,
    pub option_type: OptionType,
    pub strike: Strike,
    pub value: V,
}

impl<V> ChainEntry<V> {
    /// The contract that this record is about.
    pub open spec fn key(self) -> ChainKey {
        chain_key(self.date@, self.option_type, self.strike)
    }
}

/// What a sequence of records says, read in order: the last record written
/// for a contract is the one that counts.
pub open spec fn entries_map<V>(entries: Seq<ChainEntry<V>>) -> Map<ChainKey, V>
    decreases entries.len(),
{
    if entries.len() == 0 {
        Map::empty()
    } else {
        entries_map(entries.drop_last()).insert(entries.last().key(), entries.last().value)
    }
}

proof fn lemma_entries_lookup<V>(entries: Seq<ChainEntry<V>>, key: ChainKey, from: int)
    requires
        0 <= from <= entries.len(),
        forall|k: int| from <= k < entries.len() ==> entries[k].key() != key,
    ensures
        entries_map(entries).contains_key(key) <==> entries_map(entries.take(from)).contains_key(
            key,
        ),
        entries_map(entries).contains_key(key) ==> entries_map(entries)[key] == entries_map(
            entries.take(from),
        )[key],
    decreases entries.len(),
{
    if from == entries.len() {
        assert(entries.take(from) =~= entries);
    } else {
        lemma_entries_lookup(entries.drop_last(), key, from);
        assert(entries.drop_last().take(from) =~= entries.take(from));
    }
}

/// Dropping the records of contracts outside `keep` restricts what the
/// records say to `keep`.
proof fn lemma_entries_filter<V>(entries: Seq<ChainEntry<V>>, keep: Set<ChainKey>)
    ensures
        entries_map(entries.filter(|e: ChainEntry<V>| keep.contains(e.key()))) =~= entries_map(
            entries,
        ).restrict(keep),
    decreases entries.len(),
{
    reveal(Seq::filter);
    if entries.len() > 0 {
        lemma_entries_filter(entries.drop_last(), keep);
        let pred = |e: ChainEntry<V>| keep.contains(e.key());
        let kept = entries.drop_last().filter(pred);
        if pred(entries.last()) {
            assert(kept.push(entries.last()).drop_last() =~= kept);
        }
    }
}

/// Building an index from an index that was built from the same dates and
/// table changes nothing.
pub proof fn lemma_build_idempotent<V>(leaf_values: Map<ChainKey, V>, keep: Set<ChainKey>)
    ensures
        leaf_values.restrict(keep).restrict(keep) == leaf_values.restrict(keep),
        leaf_values.restrict(keep).dom().subset_of(keep),
{
    assert(leaf_values.restrict(keep).restrict(keep) =~= leaf_values.restrict(keep));
}

/// Whether `strikes` holds `strike`.
pub fn holds_strike(strikes: &Vec<Strike>, strike: Strike) -> (r: bool)
    ensures
        r == strikes@.contains(strike),
{
    let mut j: usize = 0;
    while j < strikes.len()
        invariant
            j <= strikes.len(),
            forall|k: int| 0 <= k < j ==> strikes@[k] != strike,
        decreases strikes.len() - j,
    {
        if strikes[j] == strike {
            return true;
        }
        j += 1;
    }
    false
}

/// Tests `is_listed`.
pub fn contract_is_listed(
    dates: &Vec<String>,
    table: &StrikeTable,
    date: &String,
    option_type: OptionType,
    strike: Strike,
) -> (r: bool)
    ensures
        r == is_listed(texts(dates@), table@, chain_key(date@, option_type, strike)),
{
    if !holds_text(dates, date) {
        return false;
    }
    match table.strikes_for(date.as_str(), option_type) {
        Some(strikes) => holds_strike(strikes, strike),
        None => false,
    }
}

/// A lookup structure from date, option type and strike to one value each.
pub struct ChainIndex<V> {
    entries: Vec<ChainEntry<V>>,
}

impl<V> View for ChainIndex<V> {
    type V = Map<ChainKey, V>;

    closed spec fn view(&self) -> Map<ChainKey, V> {
        entries_map(self.entries@)
    }
}

impl<V> ChainIndex<V> {
    /// An index that holds nothing.
    pub fn new() -> (index: ChainIndex<V>)
        ensures
            index@ == Map::<ChainKey, V>::empty(),
    {
        ChainIndex { entries: Vec::new() }
    }

    /// Writes the value of one contract; the last write for a contract wins.
    pub fn insert(&mut self, date: String, option_type: OptionType, strike: Strike, value: V)
        ensures
            final(self)@ == old(self)@.insert(chain_key(date@, option_type, strike), value),
    {
        let ghost before = self.entries@;
        self.entries.push(ChainEntry { date, option_type, strike, value });
        assert(self.entries@.drop_last() =~= before);
    }

    /// The value of one contract, if the index holds it.
    pub fn get(&self, date: &str, option_type: OptionType, strike: Strike) -> (r: Option<&V>)
        ensures
            r is Some <==> self@.contains_key(chain_key(date@, option_type, strike)),
            r is Some ==> *r->0 == self@[chain_key(date@, option_type, strike)],
    {
        let wanted = date.to_owned();
        let ghost key = chain_key(date@, option_type, strike);
        let mut i: usize = self.entries.len();
        while i > 0
            invariant
                i <= self.entries.len(),
                wanted@ == date@,
                key == chain_key(date@, option_type, strike),
                forall|k: int| i <= k < self.entries.len() ==> self.entries[k].key() != key,
            decreases i,
        {
            i -= 1;
            let entry = &self.entries[i];
            if entry.option_type == option_type && entry.strike == strike && entry.date == wanted {
                proof {
                    lemma_entries_lookup(self.entries@, key, i + 1);
                    assert(self.entries@.take(i + 1).drop_last() =~= self.entries@.take(i as int));
                    assert(self.entries@.take(i + 1).last() == self.entries@[i as int]);
                }
                return Some(&entry.value);
            }
        }
        proof {
            lemma_entries_lookup(self.entries@, key, 0);
        }
        None
    }

    /// Whether the index holds a value for the contract.
    pub fn contains(&self, date: &str, option_type: OptionType, strike: Strike) -> (r: bool)
        ensures
            r == self@.contains_key(chain_key(date@, option_type, strike)),
    {
        self.get(date, option_type, strike).is_some()
    }

    /// The index of one snapshot: of the values received, those of the
    /// contracts that `dates` and `table` enumerate, and no others.
    pub fn build(dates: &Vec<String>, table: &StrikeTable, leaf_values: ChainIndex<V>) -> (index:
        ChainIndex<V>)
        ensures
            index@ == leaf_values@.restrict(listed_keys(texts(dates@), table@)),
    {
        let ghost keep = listed_keys(texts(dates@), table@);
        let ghost pred = |e: ChainEntry<V>| keep.contains(e.key());
        let ghost all = leaf_values.entries@;
        let mut source = leaf_values.entries;
        let mut kept: Vec<ChainEntry<V>> = Vec::new();
        assert(kept@ + source@.filter(pred) =~= all.filter(pred));
        while source.len() > 0
            invariant
                keep == listed_keys(texts(dates@), table@),
                pred == |e: ChainEntry<V>| keep.contains(e.key()),
                kept@ + source@.filter(pred) == all.filter(pred),
            decreases source.len(),
        {
            let ghost rest = source@;
            let entry = source.remove(0);
            proof {
                reveal_with_fuel(Seq::filter, 2);
                let head = seq![entry];
                assert(rest =~= head + source@);
                Seq::filter_distributes_over_add(head, source@, pred);
                assert(head.drop_last() =~= Seq::<ChainEntry<V>>::empty());
                assert(head.last() == entry);
                assert(head.filter(pred) =~= if pred(entry) {
                    head
                } else {
                    Seq::empty()
                });
            }
            if contract_is_listed(dates, table, &entry.date, entry.option_type, entry.strike) {
                assert(pred(entry));
                let ghost before = kept@;
                kept.push(entry);
                assert(kept@ + source@.filter(pred) =~= before + (seq![entry] + source@.filter(
                    pred,
                )));
            } else {
                assert(!pred(entry));
                assert(kept@ + source@.filter(pred) =~= kept@ + (Seq::<ChainEntry<V>>::empty()
                    + source@.filter(pred)));
            }
        }
        proof {
            reveal(Seq::filter);
            assert(source@.filter(pred) =~= Seq::<ChainEntry<V>>::empty());
            assert(kept@ =~= all.filter(pred));
            lemma_entries_filter(all, keep);
        }
        ChainIndex { entries: kept }
    }
}

/// Adds a blank identifier for each strike of one date and option type.
fn add_blank_row(
    index: &mut ChainIndex<String>,
    date: &String,
    option_type: OptionType,
    strikes: &Vec<Strike>,
)
    requires
        forall|k: ChainKey| old(index)@.contains_key(k) ==> old(index)@[k]@.len() == 0,
    ensures
        forall|k: ChainKey| #[trigger]
            final(index)@.contains_key(k) <==> old(index)@.contains_key(k) || (k.date == date@
                && k.option_type == option_type && strikes@.contains(k.strike)),
        forall|k: ChainKey| final(index)@.contains_key(k) ==> final(index)@[k]@.len() == 0,
{
    let mut j: usize = 0;
    while j < strikes.len()
        invariant
            j <= strikes.len(),
            forall|k: ChainKey| #[trigger]
                index@.contains_key(k) <==> old(index)@.contains_key(k) || (k.date == date@
                    && k.option_type == option_type && strikes@.take(j as int).contains(k.strike)),
            forall|k: ChainKey| index@.contains_key(k) ==> index@[k]@.len() == 0,
        decreases strikes.len() - j,
    {
        let ghost before = index@;
        index.insert(date.clone(), option_type, strikes[j], String::new());
        proof {
            let added = chain_key(date@, option_type, strikes@[j as int]);
            let next = strikes@.take(j + 1);
            assert(next.drop_last() =~= strikes@.take(j as int));
            assert forall|k: ChainKey| #[trigger]
                index@.contains_key(k) <==> old(index)@.contains_key(k) || (k.date == date@
                    && k.option_type == option_type && next.contains(k.strike)) by {
                if k == added {
                    assert(next[j as int] == k.strike);
                } else if before.contains_key(k) {
                    if !old(index)@.contains_key(k) {
                        let w = choose|w: int|
                            0 <= w < j && strikes@.take(j as int)[w] == k.strike;
                        assert(next[w] == k.strike);
                    }
                } else {
                    if next.contains(k.strike) && k.date == date@ && k.option_type == option_type {
                        let w = choose|w: int| 0 <= w < next.len() && next[w] == k.strike;
                        if w < j {
                            assert(strikes@.take(j as int)[w] == k.strike);
                        } else {
                            assert(k.strike == added.strike);
                            assert(k.date =~= added.date);
                        }
                    }
                }
            }
        }
        j += 1;
    }
    assert(strikes@.take(j as int) =~= strikes@);
}

/// An identifier index for one snapshot with every enumerated contract in it
/// and each identifier still blank.
pub fn generate_conids_structure(dates: &Vec<String>, table: &StrikeTable) -> (index: ChainIndex<
    String,
>)
    ensures
        index@.dom() == listed_keys(texts(dates@), table@),
        forall|k: ChainKey| index@.contains_key(k) ==> index@[k]@.len() == 0,
{
    let mut index: ChainIndex<String> = ChainIndex::new();
    let mut i: usize = 0;
    while i < dates.len()
        invariant
            i <= dates.len(),
            forall|k: ChainKey| #[trigger]
                index@.contains_key(k) <==> is_listed(texts(dates@).take(i as int), table@, k),
            forall|k: ChainKey| index@.contains_key(k) ==> index@[k]@.len() == 0,
        decreases dates.len() - i,
    {
        let ghost before = index@;
        let date = &dates[i];
        let ghost calls: Seq<Strike> = match table@.get((date@, OptionType::Call)) {
            Some(s) => s,
            None => Seq::empty(),
        };
        let ghost puts: Seq<Strike> = match table@.get((date@, OptionType::Put)) {
            Some(s) => s,
            None => Seq::empty(),
        };
        match table.strikes_for(date.as_str(), OptionType::Call) {
            Some(strikes) => {
                add_blank_row(&mut index, date, OptionType::Call, strikes);
            },
            None => {},
        }
        let ghost middle = index@;
        match table.strikes_for(date.as_str(), OptionType::Put) {
            Some(strikes) => {
                add_blank_row(&mut index, date, OptionType::Put, strikes);
            },
            None => {},
        }
        proof {
            let earlier = texts(dates@).take(i as int);
            let next = texts(dates@).take(i + 1);
            assert(next.drop_last() =~= earlier);
            assert(next.last() == date@);
            assert forall|k: ChainKey| #[trigger]
                index@.contains_key(k) <==> is_listed(next, table@, k) by {
                assert(middle.contains_key(k) <==> before.contains_key(k) || (k.date == date@
                    && k.option_type == OptionType::Call && calls.contains(k.strike)));
                assert(index@.contains_key(k) <==> middle.contains_key(k) || (k.date == date@
                    && k.option_type == OptionType::Put && puts.contains(k.strike)));
                if earlier.contains(k.date) {
                    let w = choose|w: int| 0 <= w < earlier.len() && earlier[w] == k.date;
                    assert(next[w] == k.date);
                }
                if k.date == date@ {
                    assert(next[i as int] == k.date);
                }
                if next.contains(k.date) && !earlier.contains(k.date) {
                    let w = choose|w: int| 0 <= w < next.len() && next[w] == k.date;
                    if w < i {
                        assert(earlier[w] == k.date);
                    }
                }
            }
        }
        i += 1;
    }
    proof {
        assert(texts(dates@).take(i as int) =~= texts(dates@));
        assert(index@.dom() =~= listed_keys(texts(dates@), table@));
    }
    index
}

} // verus!
