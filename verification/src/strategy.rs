//! The four ways of ordering lines, each as a sort and as a test for order.
//!
//! Text and month order value a line by its comparison key alone. The two numeric
//! orders also need what the key reads as a number, which the caller supplies as one
//! reading for each line: the bit pattern of the number read, or `None` where the text
//! is no number.
use vstd::prelude::*;
use crate::column::{extract, key_chars};
use crate::keys::{
    all_comparable,
    ascending,
    check_ordered,
    is_ordered,
    key_values,
    Key,
    KeyValue,
};
use crate::month::{month_rank_chars, month_rank_of};
use crate::number::{
    is_nan,
    is_not_a_number,
    numeric_value,
    numeric_value_of,
    suffix_value,
    suffix_value_of,
};
use crate::sorting::{
    arranged,
    is_arrangement,
    lemma_arranged_same_items,
    sorted_order,
    within,
};
use crate::text::chars_of;

verus! {

/// The lines as character sequences.
pub open spec fn texts(lines: Seq<String>) -> Seq<Seq<char>> {
    Seq::new(lines.len(), |i: int| lines[i]@)
}

/// Each line beside its reading.
pub open spec fn paired(lines: Seq<Seq<char>>, readings: Seq<Option<u64>>) -> Seq<
    (Seq<char>, Option<u64>),
> {
    Seq::new(lines.len(), |i: int| (lines[i], readings[i]))
}

/// The values of the lines under text order: each line's comparison key, as a text.
pub open spec fn text_key_values(lines: Seq<Seq<char>>, column: Option<usize>) -> Seq<KeyValue> {
    Seq::new(lines.len(), |i: int| KeyValue::Text(extract(lines[i], column)))
}

/// The values of the lines under month order: the month rank of each line's comparison
/// key.
pub open spec fn month_key_values(lines: Seq<Seq<char>>, column: Option<usize>) -> Seq<
    KeyValue,
> {
    Seq::new(lines.len(), |i: int| KeyValue::Rank(month_rank_of(extract(lines[i], column))))
}

/// The values of the lines under plain numeric order, given what each line's comparison
/// key read as.
pub open spec fn numeric_key_values(readings: Seq<Option<u64>>) -> Seq<KeyValue> {
    Seq::new(readings.len(), |i: int| KeyValue::Number(numeric_value_of(readings[i])))
}

/// The values of the lines under suffix order, given the scaled reading of the numeric
/// part of each line's comparison key.
pub open spec fn suffix_key_values(
    lines: Seq<Seq<char>>,
    column: Option<usize>,
    readings: Seq<Option<u64>>,
) -> Seq<KeyValue> {
    Seq::new(
        lines.len(),
        |i: int| KeyValue::Number(suffix_value_of(extract(lines[i], column), readings[i])),
    )
}

/// Whether every reading that holds a pattern holds the pattern of a number.
pub open spec fn all_numbers(readings: Seq<Option<u64>>) -> bool {
    forall|i: int|
        0 <= i < readings.len() ==> ((#[trigger] readings[i]) matches Some(bits) ==> !is_nan(
            bits,
        ))
}

/// Tests whether every reading that holds a pattern holds the pattern of a number. The
/// two numeric sorts ask this of their readings.
pub fn readings_are_numbers(readings: &Vec<Option<u64>>) -> (r: bool)
    ensures
        r == all_numbers(readings@),
{
    let mut i: usize = 0;
    while i < readings.len()
        invariant
            i <= readings.len(),
            forall|k: int|
                0 <= k < i ==> ((#[trigger] readings@[k]) matches Some(bits) ==> !is_nan(bits)),
        decreases readings.len() - i,
    {
        match readings[i] {
            Some(bits) => {
                if is_not_a_number(bits) {
                    return false;
                }
            },
            None => {},
        }
        i += 1;
    }
    true
}

/// The keys of the lines under text order.
fn text_keys(lines: &Vec<String>, column: Option<usize>) -> (keys: Vec<Key>)
    ensures
        keys@.len() == lines@.len(),
        key_values(keys@) == text_key_values(texts(lines@), column),
{
    let mut keys: Vec<Key> = Vec::new();
    let mut i: usize = 0;
    while i < lines.len()
        invariant
            i <= lines.len(),
            keys.len() == i,
            forall|k: int|
                0 <= k < i ==> (#[trigger] keys@[k])@ == KeyValue::Text(
                    extract(lines@[k]@, column),
                ),
        decreases lines.len() - i,
    {
        let chars = chars_of(lines[i].as_str());
        keys.push(Key::Text(key_chars(&chars, column)));
        i += 1;
    }
    assert(key_values(keys@) =~= text_key_values(texts(lines@), column));
    keys
}

/// The keys of the lines under month order.
fn month_keys(lines: &Vec<String>, column: Option<usize>) -> (keys: Vec<Key>)
    ensures
        keys@.len() == lines@.len(),
        key_values(keys@) == month_key_values(texts(lines@), column),
{
    let mut keys: Vec<Key> = Vec::new();
    let mut i: usize = 0;
    while i < lines.len()
        invariant
            i <= lines.len(),
            keys.len() == i,
            forall|k: int|
                0 <= k < i ==> (#[trigger] keys@[k])@ == KeyValue::Rank(
                    month_rank_of(extract(lines@[k]@, column)),
                ),
        decreases lines.len() - i,
    {
        let chars = chars_of(lines[i].as_str());
        let key = key_chars(&chars, column);
        keys.push(Key::Rank(month_rank_chars(&key)));
        i += 1;
    }
    assert(key_values(keys@) =~= month_key_values(texts(lines@), column));
    keys
}

/// The keys of the lines under plain numeric order.
fn numeric_keys(readings: &Vec<Option<u64>>) -> (keys: Vec<Key>)
    ensures
        keys@.len() == readings@.len(),
        key_values(keys@) == numeric_key_values(readings@),
{
    let mut keys: Vec<Key> = Vec::new();
    let mut i: usize = 0;
    while i < readings.len()
        invariant
            i <= readings.len(),
            keys.len() == i,
            forall|k: int|
                0 <= k < i ==> (#[trigger] keys@[k])@ == KeyValue::Number(
                    numeric_value_of(readings@[k]),
                ),
        decreases readings.len() - i,
    {
        keys.push(Key::Number(numeric_value(readings[i])));
        i += 1;
    }
    assert(key_values(keys@) =~= numeric_key_values(readings@));
    keys
}

/// The keys of the lines under suffix order.
fn suffix_keys(lines: &Vec<String>, column: Option<usize>, readings: &Vec<Option<u64>>) -> (keys:
    Vec<Key>)
    requires
        lines.len() == readings.len(),
    ensures
        keys@.len() == lines@.len(),
        key_values(keys@) == suffix_key_values(texts(lines@), column, readings@),
{
    let mut keys: Vec<Key> = Vec::new();
    let mut i: usize = 0;
    while i < lines.len()
        invariant
            lines.len() == readings.len(),
            i <= lines.len(),
            keys.len() == i,
            forall|k: int|
                0 <= k < i ==> (#[trigger] keys@[k])@ == KeyValue::Number(
                    suffix_value_of(extract(lines@[k]@, column), readings@[k]),
                ),
        decreases lines.len() - i,
    {
        let value = match readings[i] {
            Some(bits) => bits,
            None => {
                let chars = chars_of(lines[i].as_str());
                suffix_value(&key_chars(&chars, column), None)
            },
        };
        keys.push(Key::Number(value));
        i += 1;
    }
    assert(key_values(keys@) =~= suffix_key_values(texts(lines@), column, readings@));
    keys
}

/// Lays the lines out in the order given.
fn rearrange_lines(lines: &mut Vec<String>, order: &Vec<usize>)
    requires
        within(order@, old(lines)@.len()),
    ensures
        final(lines)@ == arranged(old(lines)@, order@),
{
    let mut out: Vec<String> = Vec::new();
    let mut i: usize = 0;
    while i < order.len()
        invariant
            i <= order.len(),
            within(order@, lines@.len()),
            lines@ == old(lines)@,
            out@ == arranged(lines@, order@.take(i as int)),
        decreases order.len() - i,
    {
        out.push(lines[order[i]].clone());
        assert(out@ =~= arranged(lines@, order@.take(i + 1)));
        i += 1;
    }
    assert(order@.take(i as int) =~= order@);
    *lines = out;
}

/// Lays the readings out in the order given.
fn rearrange_readings(readings: &mut Vec<Option<u64>>, order: &Vec<usize>)
    requires
        within(order@, old(readings)@.len()),
    ensures
        final(readings)@ == arranged(old(readings)@, order@),
{
    let mut out: Vec<Option<u64>> = Vec::new();
    let mut i: usize = 0;
    while i < order.len()
        invariant
            i <= order.len(),
            within(order@, readings@.len()),
            readings@ == old(readings)@,
            out@ == arranged(readings@, order@.take(i as int)),
        decreases order.len() - i,
    {
        out.push(readings[order[i]]);
        assert(out@ =~= arranged(readings@, order@.take(i + 1)));
        i += 1;
    }
    assert(order@.take(i as int) =~= order@);
    *readings = out;
}

/// Sorts the lines by the keys given, one for each line.
fn sort_lines_by(lines: &mut Vec<String>, keys: &Vec<Key>) -> (order: Vec<usize>)
    requires
        keys@.len() == old(lines)@.len(),
        all_comparable(key_values(keys@)),
    ensures
        is_arrangement(order@, old(lines)@.len()),
        within(order@, old(lines)@.len()),
        order@.len() == old(lines)@.len(),
        final(lines)@ == arranged(old(lines)@, order@),
        ascending(arranged(key_values(keys@), order@)),
        texts(final(lines)@) == arranged(texts(old(lines)@), order@),
        texts(final(lines)@).to_multiset() == texts(old(lines)@).to_multiset(),
{
    let order = sorted_order(keys);
    assert(old(lines)@.len() == keys.len());
    rearrange_lines(lines, &order);
    proof {
        assert(texts(lines@) =~= arranged(texts(old(lines)@), order@));
        lemma_arranged_same_items(texts(old(lines)@), order@);
    }
    order
}

/// Sorts the lines by their comparison keys, taken as texts in lexicographic order.
/// The lines are the same lines afterwards, and their keys ascend.
pub fn sort_by_string(lines: &mut Vec<String>, column: Option<usize>)
    ensures
        final(lines)@.len() == old(lines)@.len(),
        texts(final(lines)@).to_multiset() == texts(old(lines)@).to_multiset(),
        ascending(text_key_values(texts(final(lines)@), column)),
{
    let keys = text_keys(lines, column);
    let order = sort_lines_by(lines, &keys);
    assert(text_key_values(texts(lines@), column) =~= arranged(key_values(keys@), order@));
}

/// Sorts the lines by the month rank of their comparison keys. The lines are the same
/// lines afterwards, and their ranks ascend.
pub fn sort_by_month(lines: &mut Vec<String>, column: Option<usize>)
    ensures
        final(lines)@.len() == old(lines)@.len(),
        texts(final(lines)@).to_multiset() == texts(old(lines)@).to_multiset(),
        ascending(month_key_values(texts(final(lines)@), column)),
{
    let keys = month_keys(lines, column);
    let order = sort_lines_by(lines, &keys);
    assert(month_key_values(texts(lines@), column) =~= arranged(key_values(keys@), order@));
}

/// Sorts the lines by the numbers that their comparison keys read as, and moves each
/// reading with its line. `readings[i]` is what the key of `lines[i]` read as. A key
/// that is no number is valued as the least finite number. Afterwards the lines with
/// their readings are the same as before, and their values ascend.
pub fn sort_by_numeric(lines: &mut Vec<String>, readings: &mut Vec<Option<u64>>)
    requires
        old(lines)@.len() == old(readings)@.len(),
        all_numbers(old(readings)@),
    ensures
        final(lines)@.len() == old(lines)@.len(),
        final(readings)@.len() == old(readings)@.len(),
        paired(texts(final(lines)@), final(readings)@).to_multiset() == paired(
            texts(old(lines)@),
            old(readings)@,
        ).to_multiset(),
        texts(final(lines)@).to_multiset() == texts(old(lines)@).to_multiset(),
        ascending(numeric_key_values(final(readings)@)),
{
    let keys = numeric_keys(readings);
    assert(all_comparable(key_values(keys@))) by {
        assert forall|i: int| 0 <= i < keys@.len() implies !is_nan(
            numeric_value_of(#[trigger] readings@[i]),
        ) by {}
    }
    let order = sort_lines_by(lines, &keys);
    rearrange_readings(readings, &order);
    proof {
        let before = paired(texts(old(lines)@), old(readings)@);
        assert(before.len() == keys.len());
        assert(paired(texts(lines@), readings@) =~= arranged(before, order@));
        lemma_arranged_same_items(before, order@);
        assert(numeric_key_values(readings@) =~= arranged(key_values(keys@), order@));
    }
}

/// Sorts the lines by the scaled numbers of their comparison keys, and moves each
/// reading with its line. `readings[i]` is the scaled reading of the numeric part of the
/// key of `lines[i]`. Where that part is no number, a key of at most one character is
/// valued as the least finite number and a longer key as zero. Afterwards the lines with
/// their readings are the same as before, and their values ascend.
pub fn sort_by_suffix(
    lines: &mut Vec<String>,
    column: Option<usize>,
    readings: &mut Vec<Option<u64>>,
)
    requires
        old(lines)@.len() == old(readings)@.len(),
        all_numbers(old(readings)@),
    ensures
        final(lines)@.len() == old(lines)@.len(),
        final(readings)@.len() == old(readings)@.len(),
        paired(texts(final(lines)@), final(readings)@).to_multiset() == paired(
            texts(old(lines)@),
            old(readings)@,
        ).to_multiset(),
        texts(final(lines)@).to_multiset() == texts(old(lines)@).to_multiset(),
        ascending(suffix_key_values(texts(final(lines)@), column, final(readings)@)),
{
    let keys = suffix_keys(lines, column, readings);
    assert(all_comparable(key_values(keys@))) by {
        assert forall|i: int| 0 <= i < keys@.len() implies !is_nan(
            suffix_value_of(extract(lines@[i]@, column), #[trigger] readings@[i]),
        ) by {}
    }
    let order = sort_lines_by(lines, &keys);
    rearrange_readings(readings, &order);
    proof {
        let before = paired(texts(old(lines)@), old(readings)@);
        assert(before.len() == keys.len());
        assert(paired(texts(lines@), readings@) =~= arranged(before, order@));
        lemma_arranged_same_items(before, order@);
        assert(suffix_key_values(texts(lines@), column, readings@) =~= arranged(
            key_values(keys@),
            order@,
        ));
    }
}

/// Tests whether the lines stand in text order by their comparison keys: forwards, or
/// with `reversed` backwards.
pub fn check_sorted_by_string(lines: &Vec<String>, column: Option<usize>, reversed: bool) -> (ordered:
    bool)
    ensures
        ordered == is_ordered(text_key_values(texts(lines@), column), reversed),
{
    let keys = text_keys(lines, column);
    check_ordered(&keys, reversed)
}

/// Tests whether the lines stand in month order by their comparison keys: forwards, or
/// with `reversed` backwards.
pub fn check_sorted_by_month(lines: &Vec<String>, column: Option<usize>, reversed: bool) -> (ordered:
    bool)
    ensures
        ordered == is_ordered(month_key_values(texts(lines@), column), reversed),
{
    let keys = month_keys(lines, column);
    check_ordered(&keys, reversed)
}

/// Tests whether lines stand in plain numeric order, given what each line's comparison
/// key read as: forwards, or with `reversed` backwards.
pub fn check_sorted_by_numeric(readings: &Vec<Option<u64>>, reversed: bool) -> (ordered: bool)
    ensures
        ordered == is_ordered(numeric_key_values(readings@), reversed),
{
    let keys = numeric_keys(readings);
    check_ordered(&keys, reversed)
}

/// Tests whether the lines stand in suffix order, given the scaled reading of the
/// numeric part of each line's comparison key: forwards, or with `reversed` backwards.
pub fn check_sorted_by_suffix(
    lines: &Vec<String>,
    column: Option<usize>,
    readings: &Vec<Option<u64>>,
    reversed: bool,
) -> (ordered: bool)
    requires
        lines@.len() == readings@.len(),
    ensures
        ordered == is_ordered(suffix_key_values(texts(lines@), column, readings@), reversed),
{
    let keys = suffix_keys(lines, column, readings);
    check_ordered(&keys, reversed)
}

} // verus!
