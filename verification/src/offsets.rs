//! The table of offset rules: for an ordered pair of buildings, the divisor
//! by which their separation is normalised.
//!
//! A rule is found under a key made of the two identities' texts with an
//! underscore between them, the first building's first. Divisors are
//! fixed-point numbers in thousandths, and every divisor in a table is
//! positive.

use vstd::prelude::*;
use vstd::hash_map::StringHashMap;
use vstd::string::StringExecFns;
use crate::identity::{hyphenated, lemma_text_tells_identities_apart};
use crate::model::Building;

verus! {

/// One in the fixed-point unit of divisors.
pub const UNIT_DIVISOR: u32 = 1_000;

/// The key under which the rule for the ordered pair of identities stands.
pub open spec fn key_text(first: u128, second: u128) -> Seq<char> {
    hyphenated(first) + seq!['_'] + hyphenated(second)
}

/// The key under which the rule for `first` against `second` stands.
pub fn offset_key(first: &Building, second: &Building) -> (r: String)
    ensures
        r@ == key_text(first.id, second.id),
{
    let mut key: String = first.id();
    let tail: String = second.id();
    proof {
        reveal_strlit("_");
        assert("_"@ == seq!['_']);
    }
    key.append("_");
    key.append(tail.as_str());
    key
}

/// Whether every divisor among the rules is positive, as it is in every
/// [`OffsetRuleTable`]: each function that takes or gives a table says so of
/// it, so that whoever holds one can come to know it.
pub open spec fn divisors_positive(rules: Map<Seq<char>, u32>) -> bool {
    forall|key: Seq<char>| #[trigger] rules.contains_key(key) ==> rules[key] > 0
}

/// A divisor of zero was offered as a rule.
#[derive(Clone, Copy, Debug, PartialEq, Eq, Structural)]
pub struct ZeroDivisor;

/// The rules, each under its key. A table is built once and then only read.
pub struct OffsetRuleTable {
    rules: StringHashMap<u32>,
}

impl View for OffsetRuleTable {
    type V = Map<Seq<char>, u32>;

    closed spec fn view(&self) -> Map<Seq<char>, u32> {
        self.rules@
    }
}

impl OffsetRuleTable {
    #[verifier::type_invariant]
    spec fn divisors_are_positive(&self) -> bool {
        divisors_positive(self.rules@)
    }

    /// The table without rules.
    pub fn new() -> (r: OffsetRuleTable)
        ensures
            r@ == Map::<Seq<char>, u32>::empty(),
            divisors_positive(r@),
    {
        OffsetRuleTable { rules: StringHashMap::new() }
    }

    /// Says of the table at hand that every divisor in it is positive. There
    /// is nothing to run: the call is for the proof of whoever holds a table
    /// and has not yet read from it.
    pub fn divisors_are_known_positive(&self)
        ensures
            divisors_positive(self@),
    {
        proof {
            use_type_invariant(self);
        }
    }

    /// The divisor under `key`, if a rule stands there. It is never zero.
    pub fn get(&self, key: &str) -> (r: Option<u32>)
        ensures
            r == (if self@.contains_key(key@) {
                Some(self@[key@])
            } else {
                None
            }),
            divisors_positive(self@),
    {
        proof {
            use_type_invariant(self);
        }
        match self.rules.get(key) {
            Some(divisor) => Some(*divisor),
            None => None,
        }
    }

    /// The divisor for `first` against `second`, if the table has their rule.
    pub fn divisor_for(&self, first: &Building, second: &Building) -> (r: Option<u32>)
        ensures
            r == (if self@.contains_key(key_text(first.id, second.id)) {
                Some(self@[key_text(first.id, second.id)])
            } else {
                None
            }),
            divisors_positive(self@),
    {
        let key: String = offset_key(first, second);
        self.get(key.as_str())
    }
}

/// The rules that a list of entries comes to: each entry's divisor under its
/// key, a later entry taking the place of an earlier one with the same key.
pub open spec fn rules_of(entries: Seq<(String, u32)>) -> Map<Seq<char>, u32>
    decreases entries.len(),
{
    if entries.len() == 0 {
        Map::empty()
    } else {
        rules_of(entries.drop_last()).insert(entries.last().0@, entries.last().1)
    }
}

/// Builds the table from the entries of a configuration source, once they
/// are read: pairs of key and divisor. An entry with a divisor of zero makes
/// the whole source unfit.
pub fn initialize_building_offset_rules(entries: &Vec<(String, u32)>) -> (r: Result<
    OffsetRuleTable,
    ZeroDivisor,
>)
    ensures
        match r {
            Ok(table) => table@ == rules_of(entries@) && divisors_positive(table@) && forall|i: int|
                0 <= i < entries.len() ==> (#[trigger] entries[i]).1 > 0,
            Err(_) => exists|i: int| 0 <= i < entries.len() && (#[trigger] entries[i]).1 == 0,
        },
{
    let mut rules: StringHashMap<u32> = StringHashMap::new();
    let mut i: usize = 0;
    while i < entries.len()
        invariant
            i <= entries.len(),
            rules@ == rules_of(entries@.take(i as int)),
            forall|k: int| 0 <= k < i ==> (#[trigger] entries[k]).1 > 0,
            divisors_positive(rules@),
        decreases entries.len() - i,
    {
        proof {
            assert(entries@.take(i + 1).drop_last() == entries@.take(i as int));
            assert(entries@.take(i + 1).last() == entries@[i as int]);
        }
        let divisor: u32 = entries[i].1;
        if divisor == 0 {
            return Err(ZeroDivisor);
        }
        rules.insert(entries[i].0.clone(), divisor);
        i += 1;
    }
    proof {
        assert(entries@.take(i as int) == entries@);
    }
    Ok(OffsetRuleTable { rules })
}

/// A key names its pair, in order: two ordered pairs of identities with the
/// same key are the same pair.
pub proof fn lemma_key_names_its_pair(first: u128, second: u128, third: u128, fourth: u128)
    requires
        key_text(first, second) == key_text(third, fourth),
    ensures
        first == third,
        second == fourth,
{
    let left = key_text(first, second);
    let right = key_text(third, fourth);
    assert(left.subrange(0, 36) == hyphenated(first));
    assert(right.subrange(0, 36) == hyphenated(third));
    assert(left.subrange(37, 73) == hyphenated(second));
    assert(right.subrange(37, 73) == hyphenated(fourth));
    lemma_text_tells_identities_apart(first, third);
    lemma_text_tells_identities_apart(second, fourth);
}

} // verus!
