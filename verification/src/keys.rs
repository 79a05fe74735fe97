//! Keys and their order. A key is what a line is valued as under one way of sorting: a
//! text, a month rank, or a number. Sorting and testing for order are defined once, over
//! keys, so that the two cannot disagree.
use vstd::prelude::*;
use crate::number::{is_nan, number_less, number_lt};
use crate::text::{
    lemma_lex_asymmetric,
    lemma_lex_not_before_transitive,
    lex_less,
    lex_lt,
};

verus! {

/// The value of a key.
pub enum KeyValue {
    /// The key's characters, ordered lexicographically.
    Text(Seq<char>),
    /// A rank, ordered as an integer.
    Rank(int),
    /// The bit pattern of a number, ordered as numbers are.
    Number(u64),
}

/// A key as it is held while lines are sorted or tested.
#[derive(Clone, Debug)]
pub enum Key {
    /// The key's characters.
    Text(Vec<char>),
    /// A rank.
    Rank(usize),
    /// The bit pattern of a number.
    Number(u64),
}

impl View for Key {
    type V = KeyValue;

    open spec fn view(&self) -> KeyValue {
        match self {
            Key::Text(chars) => KeyValue::Text(chars@),
            Key::Rank(rank) => KeyValue::Rank(*rank as int),
            Key::Number(bits) => KeyValue::Number(*bits),
        }
    }
}

/// The values of a sequence of keys.
pub open spec fn key_values(keys: Seq<Key>) -> Seq<KeyValue> {
    Seq::new(keys.len(), |i: int| keys[i]@)
}

/// The place of a value's kind among the kinds: texts first, then ranks, then numbers.
pub open spec fn kind(value: KeyValue) -> int {
    match value {
        KeyValue::Text(_) => 0,
        KeyValue::Rank(_) => 1,
        KeyValue::Number(_) => 2,
    }
}

/// Whether `a` comes strictly before `b`. Two values of one kind go by that kind's order;
/// values of different kinds go by their kinds.
pub open spec fn key_lt(a: KeyValue, b: KeyValue) -> bool {
    match (a, b) {
        (KeyValue::Text(x), KeyValue::Text(y)) => lex_lt(x, y),
        (KeyValue::Rank(x), KeyValue::Rank(y)) => x < y,
        (KeyValue::Number(x), KeyValue::Number(y)) => number_lt(x, y),
        _ => kind(a) < kind(b),
    }
}

/// Whether a value has its place in the order: every value but a pattern that is not a
/// number.
pub open spec fn comparable(value: KeyValue) -> bool {
    value matches KeyValue::Number(bits) ==> !is_nan(bits)
}

/// Whether every value of the sequence has its place in the order.
pub open spec fn all_comparable(values: Seq<KeyValue>) -> bool {
    forall|i: int| 0 <= i < values.len() ==> comparable(#[trigger] values[i])
}

/// Whether the values stand in non-decreasing order: no value comes strictly before one
/// that stands earlier in the sequence.
pub open spec fn ascending(values: Seq<KeyValue>) -> bool {
    forall|i: int, j: int| 0 <= i < j < values.len() ==> !key_lt(values[j], values[i])
}

/// What the test for order accepts. Forwards, no value comes strictly before its left
/// neighbour; reversed, no value comes strictly before its right neighbour.
pub open spec fn is_ordered(values: Seq<KeyValue>, reversed: bool) -> bool {
    forall|i: int|
        1 <= i < values.len() ==> if reversed {
            !key_lt(#[trigger] values[i - 1], values[i])
        } else {
            !key_lt(values[i], #[trigger] values[i - 1])
        }
}

/// Of two values at most one comes before the other.
pub proof fn lemma_key_lt_asymmetric(a: KeyValue, b: KeyValue)
    ensures
        !(key_lt(a, b) && key_lt(b, a)),
{
    match (a, b) {
        (KeyValue::Text(x), KeyValue::Text(y)) => lemma_lex_asymmetric(x, y),
        _ => {},
    }
}

/// Among comparable values "does not come after" is transitive.
pub proof fn lemma_key_not_before_transitive(a: KeyValue, b: KeyValue, c: KeyValue)
    requires
        comparable(a),
        comparable(b),
        comparable(c),
        !key_lt(b, a),
        !key_lt(c, b),
    ensures
        !key_lt(c, a),
{
    match (a, b, c) {
        (KeyValue::Text(x), KeyValue::Text(y), KeyValue::Text(z)) => {
            lemma_lex_not_before_transitive(x, y, z)
        },
        _ => {},
    }
}

/// Lines that stand in ascending order pass the forward test for order.
pub proof fn lemma_ascending_is_ordered(values: Seq<KeyValue>)
    requires
        ascending(values),
    ensures
        is_ordered(values, false),
{
}

/// Lines that stand in ascending order pass, once their sequence is reversed, the
/// reversed test for order.
pub proof fn lemma_reversed_ascending_is_ordered(values: Seq<KeyValue>)
    requires
        ascending(values),
    ensures
        is_ordered(values.reverse(), true),
{
    let n = values.len() as int;
    let r = values.reverse();
    assert forall|i: int| 1 <= i < r.len() implies !key_lt(#[trigger] r[i - 1], r[i]) by {
        assert(r[i - 1] == values[n - i]);
        assert(r[i] == values[n - 1 - i]);
    }
}

/// Among comparable values the forward test for order accepts exactly the ascending
/// sequences: where each value is in order with its neighbour, all are in order.
pub proof fn lemma_ordered_is_ascending(values: Seq<KeyValue>)
    requires
        all_comparable(values),
        is_ordered(values, false),
    ensures
        ascending(values),
{
    assert forall|i: int, j: int| 0 <= i < j < values.len() implies !key_lt(
        values[j],
        values[i],
    ) by {
        lemma_ordered_pair(values, i, j);
    }
}

proof fn lemma_ordered_pair(values: Seq<KeyValue>, i: int, j: int)
    requires
        all_comparable(values),
        is_ordered(values, false),
        0 <= i < j < values.len(),
    ensures
        !key_lt(values[j], values[i]),
    decreases j - i,
{
    assert(!key_lt(values[j], values[j - 1]));
    if i < j - 1 {
        lemma_ordered_pair(values, i, j - 1);
        lemma_key_not_before_transitive(values[i], values[j - 1], values[j]);
    }
}

/// Decides `key_lt` on two keys.
pub fn key_less(a: &Key, b: &Key) -> (r: bool)
    ensures
        r == key_lt(a@, b@),
{
    match (a, b) {
        (Key::Text(x), Key::Text(y)) => lex_less(x, y),
        (Key::Rank(x), Key::Rank(y)) => *x < *y,
        (Key::Number(x), Key::Number(y)) => number_less(*x, *y),
        (Key::Text(_), _) => true,
        (Key::Rank(_), Key::Number(_)) => true,
        _ => false,
    }
}

/// The test for order: scans the neighbouring pairs and fails at the first pair that
/// stands against the direction asked for.
pub fn check_ordered(keys: &Vec<Key>, reversed: bool) -> (ordered: bool)
    ensures
        ordered == is_ordered(key_values(keys@), reversed),
{
    let n = keys.len();
    let mut i: usize = 1;
    while i < n
        invariant
            n == keys.len(),
            1 <= i,
            forall|k: int|
                1 <= k < i && k < n ==> if reversed {
                    !key_lt(#[trigger] key_values(keys@)[k - 1], key_values(keys@)[k])
                } else {
                    !key_lt(key_values(keys@)[k], #[trigger] key_values(keys@)[k - 1])
                },
        decreases n - i,
    {
        let fails = if reversed {
            key_less(&keys[i - 1], &keys[i])
        } else {
            key_less(&keys[i], &keys[i - 1])
        };
        if fails {
            assert(key_values(keys@)[i - 1] == keys@[i - 1]@);
            assert(key_values(keys@)[i as int] == keys@[i as int]@);
            return false;
        }
        i += 1;
    }
    true
}

} // verus!
