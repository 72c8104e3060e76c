//! Strikes and option types: the parts of a contract's key that are matched
//! and ordered, never computed with.
use vstd::prelude::*;

verus! {

/// The sign bit of a 64-bit floating-point pattern.
pub const SIGN_BIT: u64 = 0x8000_0000_0000_0000;

/// A strike price, held as the 64-bit pattern in which it was received.
///
/// Two strikes are the same strike exactly when their patterns are equal;
/// no tolerance is applied. Strikes are ordered by `rank`, which for patterns
/// of IEEE 754 double-precision numbers is the numeric order (with `-0.0`
/// just below `+0.0`).
#[derive(Clone, Copy, Debug, PartialEq, Eq, Hash, Structural)]
pub struct Strike {
    pub bits: u64,
}

impl Strike {
    /// The position of this strike in the order of all strikes: patterns with
    /// the sign bit set are reversed and placed below all others.
    pub open spec fn rank(self) -> u64 {
        if self.bits & SIGN_BIT != 0 {
            !self.bits
        } else {
            self.bits | SIGN_BIT
        }
    }

    /// `self` comes strictly before `other`.
    pub open spec fn below(self, other: Strike) -> bool {
        self.rank() < other.rank()
    }

    /// The strike with the given pattern.
    pub fn from_bits(bits: u64) -> (s: Strike)
        ensures
            s.bits == bits,
    {
        Strike { bits }
    }

    /// The pattern of this strike.
    pub fn to_bits(&self) -> (bits: u64)
        ensures
            bits == self.bits,
    {
        self.bits
    }

    /// Computes `rank`.
    pub fn order_key(&self) -> (k: u64)
        ensures
            k == self.rank(),
    {
        if self.bits & SIGN_BIT != 0 {
            !self.bits
        } else {
            self.bits | SIGN_BIT
        }
    }

    /// Tests `below`.
    pub fn is_below(&self, other: &Strike) -> (r: bool)
        ensures
            r == self.below(*other),
    {
        self.order_key() < other.order_key()
    }
}

/// Distinct strikes have distinct ranks, so `below` is a strict total order.
pub proof fn lemma_rank_injective(a: Strike, b: Strike)
    ensures
        a.rank() == b.rank() <==> a == b,
        a != b ==> (a.below(b) || b.below(a)),
{
    let x = a.bits;
    let y = b.bits;
    assert((if x & 0x8000_0000_0000_0000u64 != 0 {
        !x
    } else {
        x | 0x8000_0000_0000_0000u64
    }) == (if y & 0x8000_0000_0000_0000u64 != 0 {
        !y
    } else {
        y | 0x8000_0000_0000_0000u64
    }) ==> x == y) by (bit_vector);
}

/// Among patterns without the sign bit the order is that of the patterns;
/// among patterns with it the order is reversed; and every pattern with the
/// sign bit comes before every pattern without it.
pub proof fn lemma_rank_follows_pattern(a: Strike, b: Strike)
    ensures
        a.bits & SIGN_BIT == 0 && b.bits & SIGN_BIT == 0 ==> (a.below(b) <==> a.bits < b.bits),
        a.bits & SIGN_BIT != 0 && b.bits & SIGN_BIT != 0 ==> (a.below(b) <==> a.bits > b.bits),
        a.bits & SIGN_BIT != 0 && b.bits & SIGN_BIT == 0 ==> a.below(b),
{
    let x = a.bits;
    let y = b.bits;
    assert(x & 0x8000_0000_0000_0000u64 == 0 && y & 0x8000_0000_0000_0000u64 == 0 ==> ((x
        | 0x8000_0000_0000_0000u64) < (y | 0x8000_0000_0000_0000u64) <==> x < y)) by (bit_vector);
    assert(x & 0x8000_0000_0000_0000u64 != 0 && y & 0x8000_0000_0000_0000u64 != 0 ==> (!x < !y
        <==> x > y)) by (bit_vector);
    assert(x & 0x8000_0000_0000_0000u64 != 0 && y & 0x8000_0000_0000_0000u64 == 0 ==> !x < (y
        | 0x8000_0000_0000_0000u64)) by (bit_vector);
}

/// Each strike of `s` comes strictly before every later one.
pub open spec fn is_ascending(s: Seq<Strike>) -> bool {
    forall|i: int, j: int| 0 <= i < j < s.len() ==> s[i].below(s[j])
}

/// `sorted` with `x` put in its place, or `sorted` itself where it holds `x`
/// already.
pub open spec fn insert_strike(sorted: Seq<Strike>, x: Strike) -> Seq<Strike>
    decreases sorted.len(),
{
    if sorted.len() == 0 {
        seq![x]
    } else if sorted.last().below(x) {
        sorted.push(x)
    } else if sorted.last() == x {
        sorted
    } else {
        insert_strike(sorted.drop_last(), x).push(sorted.last())
    }
}

/// The strikes of `strikes`, each once, from the lowest to the highest.
pub open spec fn ascending(strikes: Seq<Strike>) -> Seq<Strike>
    decreases strikes.len(),
{
    if strikes.len() == 0 {
        Seq::empty()
    } else {
        insert_strike(ascending(strikes.drop_last()), strikes.last())
    }
}

/// Putting a strike in its place keeps an ascending sequence ascending and
/// adds that strike to it, nothing else.
pub proof fn lemma_insert_strike(sorted: Seq<Strike>, x: Strike)
    requires
        is_ascending(sorted),
    ensures
        is_ascending(insert_strike(sorted, x)),
        forall|y: Strike| #[trigger]
            insert_strike(sorted, x).contains(y) <==> sorted.contains(y) || y == x,
    decreases sorted.len(),
{
    let out = insert_strike(sorted, x);
    if sorted.len() == 0 {
        assert(out[0] == x);
    } else if sorted.last().below(x) {
        assert forall|y: Strike| #[trigger] out.contains(y) <==> sorted.contains(y) || y == x by {
            if sorted.contains(y) {
                let k = choose|k: int| 0 <= k < sorted.len() && sorted[k] == y;
                assert(out[k] == y);
            }
            if y == x {
                assert(out[sorted.len() as int] == y);
            }
        }
        assert forall|i: int, j: int| 0 <= i < j < out.len() implies out[i].below(out[j]) by {
            if j == sorted.len() && i < sorted.len() - 1 {
                assert(sorted[i].below(sorted[sorted.len() - 1]));
            }
        }
    } else if sorted.last() == x {
        assert(sorted[sorted.len() - 1] == x);
    } else {
        let shorter = sorted.drop_last();
        let inner = insert_strike(shorter, x);
        lemma_rank_injective(sorted.last(), x);
        assert(is_ascending(shorter)) by {
            assert forall|i: int, j: int| 0 <= i < j < shorter.len() implies shorter[i].below(
                shorter[j],
            ) by {
                assert(sorted[i].below(sorted[j]));
            }
        }
        lemma_insert_strike(shorter, x);
        assert forall|y: Strike| #[trigger] out.contains(y) <==> sorted.contains(y) || y == x by {
            if out.contains(y) {
                let k = choose|k: int| 0 <= k < out.len() && out[k] == y;
                if k < inner.len() {
                    assert(inner[k] == y);
                    assert(inner.contains(y));
                    if shorter.contains(y) {
                        let w = choose|w: int| 0 <= w < shorter.len() && shorter[w] == y;
                        assert(sorted[w] == y);
                    }
                } else {
                    assert(sorted[sorted.len() - 1] == y);
                }
            }
            if sorted.contains(y) {
                let k = choose|k: int| 0 <= k < sorted.len() && sorted[k] == y;
                if k < shorter.len() {
                    assert(shorter[k] == y);
                    assert(inner.contains(y));
                    let w = choose|w: int| 0 <= w < inner.len() && inner[w] == y;
                    assert(out[w] == y);
                } else {
                    assert(out[inner.len() as int] == y);
                }
            }
            if y == x {
                assert(inner.contains(y));
                let w = choose|w: int| 0 <= w < inner.len() && inner[w] == y;
                assert(out[w] == y);
            }
        }
        assert forall|i: int, j: int| 0 <= i < j < out.len() implies out[i].below(out[j]) by {
            if j == inner.len() {
                assert(inner[i] == out[i]);
                assert(inner.contains(out[i]));
                if shorter.contains(out[i]) {
                    let w = choose|w: int| 0 <= w < shorter.len() && shorter[w] == out[i];
                    assert(sorted[w].below(sorted[sorted.len() - 1]));
                }
            } else {
                assert(inner[i].below(inner[j]));
            }
        }
    }
}

/// `ascending` puts its strikes in strictly ascending order, and holds
/// exactly the strikes that it was given.
pub proof fn lemma_ascending(strikes: Seq<Strike>)
    ensures
        is_ascending(ascending(strikes)),
        forall|y: Strike| #[trigger] ascending(strikes).contains(y) <==> strikes.contains(y),
    decreases strikes.len(),
{
    if strikes.len() > 0 {
        let shorter = strikes.drop_last();
        lemma_ascending(shorter);
        lemma_insert_strike(ascending(shorter), strikes.last());
        assert forall|y: Strike| #[trigger]
            ascending(strikes).contains(y) <==> strikes.contains(y) by {
            if strikes.contains(y) {
                let k = choose|k: int| 0 <= k < strikes.len() && strikes[k] == y;
                if k < shorter.len() {
                    assert(shorter[k] == y);
                }
            }
            if shorter.contains(y) {
                let k = choose|k: int| 0 <= k < shorter.len() && shorter[k] == y;
                assert(strikes[k] == y);
            }
            if y == strikes.last() {
                assert(strikes[strikes.len() - 1] == y);
            }
        }
    }
}

/// Where `x` goes in an ascending sequence: before the strikes at `at` and
/// after, which it is below, and after the one before `at`, which it is not.
proof fn lemma_insert_position(sorted: Seq<Strike>, x: Strike, at: int)
    requires
        0 <= at <= sorted.len(),
        forall|k: int| at <= k < sorted.len() ==> x.below(sorted[k]),
        at > 0 ==> !x.below(sorted[at - 1]),
    ensures
        insert_strike(sorted, x) == if at > 0 && sorted[at - 1] == x {
            sorted
        } else {
            sorted.insert(at, x)
        },
    decreases sorted.len(),
{
    if sorted.len() == 0 {
        assert(seq![x] =~= sorted.insert(0, x));
    } else if at == sorted.len() {
        lemma_rank_injective(sorted.last(), x);
        if sorted.last().below(x) {
            assert(sorted.push(x) =~= sorted.insert(at, x));
        }
    } else {
        lemma_rank_injective(sorted.last(), x);
        assert(x.below(sorted[sorted.len() - 1]));
        let shorter = sorted.drop_last();
        lemma_insert_position(shorter, x, at);
        if at > 0 && sorted[at - 1] == x {
            assert(shorter.push(sorted.last()) =~= sorted);
        } else {
            assert(shorter.insert(at, x).push(sorted.last()) =~= sorted.insert(at, x));
        }
    }
}

/// Puts `x` in its place in an ascending vector.
fn insert_ascending(sorted: &mut Vec<Strike>, x: Strike)
    requires
        is_ascending(old(sorted)@),
    ensures
        final(sorted)@ == insert_strike(old(sorted)@, x),
        is_ascending(final(sorted)@),
{
    let key: u64 = x.order_key();
    let mut at: usize = sorted.len();
    while at > 0 && sorted[at - 1].order_key() > key
        invariant
            at <= sorted.len(),
            sorted@ == old(sorted)@,
            key == x.rank(),
            forall|k: int| at <= k < sorted.len() ==> x.below(sorted@[k]),
        decreases at,
    {
        at -= 1;
    }
    proof {
        lemma_insert_position(sorted@, x, at as int);
        lemma_insert_strike(sorted@, x);
    }
    if at > 0 && sorted[at - 1] == x {
        return ;
    }
    sorted.insert(at, x);
}

/// The strikes of `strikes`, each once, from the lowest to the highest.
pub fn sorted_strikes(strikes: &Vec<Strike>) -> (sorted: Vec<Strike>)
    ensures
        sorted@ == ascending(strikes@),
        is_ascending(sorted@),
        sorted@.len() <= strikes@.len(),
{
    let mut sorted: Vec<Strike> = Vec::new();
    let mut i: usize = 0;
    assert(strikes@.take(0) =~= Seq::empty());
    while i < strikes.len()
        invariant
            i <= strikes.len(),
            sorted@ == ascending(strikes@.take(i as int)),
            is_ascending(sorted@),
            sorted@.len() <= i,
        decreases strikes.len() - i,
    {
        proof {
            assert(strikes@.take(i + 1).drop_last() =~= strikes@.take(i as int));
            lemma_insert_length(sorted@, strikes@[i as int]);
        }
        insert_ascending(&mut sorted, strikes[i]);
        i += 1;
    }
    assert(strikes@.take(i as int) =~= strikes@);
    sorted
}

/// Putting a strike in its place adds at most one strike.
proof fn lemma_insert_length(sorted: Seq<Strike>, x: Strike)
    ensures
        sorted.len() <= insert_strike(sorted, x).len() <= sorted.len() + 1,
    decreases sorted.len(),
{
    if sorted.len() > 0 && !sorted.last().below(x) && sorted.last() != x {
        lemma_insert_length(sorted.drop_last(), x);
    }
}

/// Whether a contract is a call or a put.
#[derive(Clone, Copy, Debug, PartialEq, Eq, Hash, Structural)]
pub enum OptionType {
    Call,
    Put,
}

/// The option type that a one-letter code names: `C` a call, `P` a put.
pub open spec fn option_type_of(code: Seq<char>) -> Option<OptionType> {
    if code =~= seq!['C'] {
        Some(OptionType::Call)
    } else if code =~= seq!['P'] {
        Some(OptionType::Put)
    } else {
        None
    }
}

impl OptionType {
    /// The one-letter code of this option type.
    pub open spec fn code_of(self) -> Seq<char> {
        match self {
            OptionType::Call => seq!['C'],
            OptionType::Put => seq!['P'],
        }
    }

    /// The one-letter code of this option type, `"C"` or `"P"`.
    pub fn code(&self) -> (s: &'static str)
        ensures
            s@ == self.code_of(),
            option_type_of(s@) == Some(*self),
    {
        proof {
            reveal_strlit("C");
            reveal_strlit("P");
        }
        let s = match self {
            OptionType::Call => "C",
            OptionType::Put => "P",
        };
        assert(s@ =~= self.code_of());
        assert(seq!['P'][0] != seq!['C'][0]);
        s
    }

    /// Reads a one-letter code; any other text names no option type.
    pub fn from_code(code: &str) -> (r: Option<OptionType>)
        ensures
            r == option_type_of(code@),
    {
        if code.unicode_len() != 1 {
            return None;
        }
        let c = code.get_char(0);
        if c == 'C' {
            assert(code@ =~= seq!['C']);
            Some(OptionType::Call)
        } else if c == 'P' {
            assert(code@ =~= seq!['P']);
            Some(OptionType::Put)
        } else {
            None
        }
    }
}

} // verus!
