//! The steps around the sort: choosing the order, asking for readings, stripping white
//! space from line ends, dropping repeated neighbours, reversing, joining the lines, and
//! naming the result.
use vstd::prelude::*;
use vstd::string::StringExecFns;
use crate::column::{extract, get_column_value};
use crate::keys::{
    ascending,
    is_ordered,
    lemma_ascending_is_ordered,
    lemma_reversed_ascending_is_ordered,
    KeyValue,
};
use crate::number::{numeric_request, suffix_request, suffix_scale, suffix_text, ReadRequest};
use crate::strategy::{
    all_numbers,
    check_sorted_by_month,
    check_sorted_by_numeric,
    check_sorted_by_string,
    check_sorted_by_suffix,
    month_key_values,
    numeric_key_values,
    paired,
    sort_by_month,
    sort_by_numeric,
    sort_by_string,
    sort_by_suffix,
    suffix_key_values,
    text_key_values,
    texts,
};
use crate::text::{chars_of, is_space, is_whitespace};

verus! {

/// The way in which lines are ordered.
#[derive(Clone, Copy, Debug, PartialEq, Eq, Structural)]
pub enum SortMode {
    /// By the comparison key as a text.
    Lexicographic,
    /// By the number that the comparison key reads as.
    Numeric,
    /// By the month named in the comparison key.
    MonthName,
    /// By the number that the comparison key reads as without its last character,
    /// scaled by what that character stands for.
    SuffixScaled,
}

/// The mode that three switches select: numeric order if asked for, else month order
/// if asked for, else suffix order if asked for, else text order.
pub open spec fn selected_mode(numeric: bool, month: bool, suffix: bool) -> SortMode {
    if numeric {
        SortMode::Numeric
    } else if month {
        SortMode::MonthName
    } else if suffix {
        SortMode::SuffixScaled
    } else {
        SortMode::Lexicographic
    }
}

/// Selects the mode from the three switches.
pub fn select_mode(numeric: bool, month: bool, suffix: bool) -> (mode: SortMode)
    ensures
        mode == selected_mode(numeric, month, suffix),
{
    if numeric {
        SortMode::Numeric
    } else if month {
        SortMode::MonthName
    } else if suffix {
        SortMode::SuffixScaled
    } else {
        SortMode::Lexicographic
    }
}

/// Whether the mode values lines by numbers, and so needs a reading for each line.
pub open spec fn needs_readings(mode: SortMode) -> bool {
    mode == SortMode::Numeric || mode == SortMode::SuffixScaled
}

/// The values of the lines under a mode. The readings count under the two numeric modes
/// only.
pub open spec fn mode_key_values(
    mode: SortMode,
    lines: Seq<Seq<char>>,
    column: Option<usize>,
    readings: Seq<Option<u64>>,
) -> Seq<KeyValue> {
    match mode {
        SortMode::Lexicographic => text_key_values(lines, column),
        SortMode::Numeric => numeric_key_values(readings),
        SortMode::MonthName => month_key_values(lines, column),
        SortMode::SuffixScaled => suffix_key_values(lines, column, readings),
    }
}

/// What is to be read for a line under a numeric mode: under plain numeric order the
/// line's comparison key, unscaled; under suffix order the key's numeric part and the
/// factor of its suffix.
pub open spec fn request_matches(
    mode: SortMode,
    line: Seq<char>,
    column: Option<usize>,
    request: ReadRequest,
) -> bool {
    let key = extract(line, column);
    if mode == SortMode::SuffixScaled {
        request.text@ == suffix_text(key) && request.scale == suffix_scale(key)
    } else {
        request.text@ == key && request.scale == 1
    }
}

/// The requests whose readings the mode needs: one for each line under a numeric mode,
/// none under the other modes.
pub fn read_requests(lines: &Vec<String>, mode: SortMode, column: Option<usize>) -> (requests:
    Vec<ReadRequest>)
    ensures
        requests@.len() == if needs_readings(mode) {
            lines@.len()
        } else {
            0
        },
        forall|i: int|
            0 <= i < requests@.len() ==> request_matches(
                mode,
                lines@[i]@,
                column,
                #[trigger] requests@[i],
            ),
{
    let mut requests: Vec<ReadRequest> = Vec::new();
    let numeric = match mode {
        SortMode::Numeric => true,
        SortMode::SuffixScaled => false,
        _ => {
            return requests;
        },
    };
    let mut i: usize = 0;
    while i < lines.len()
        invariant
            i <= lines.len(),
            requests@.len() == i,
            numeric <==> mode == SortMode::Numeric,
            !numeric <==> mode == SortMode::SuffixScaled,
            forall|k: int|
                0 <= k < i ==> request_matches(mode, lines@[k]@, column, #[trigger] requests@[k]),
        decreases lines.len() - i,
    {
        let key = get_column_value(lines[i].as_str(), column);
        let request = if numeric {
            numeric_request(key.as_str())
        } else {
            suffix_request(key.as_str())
        };
        requests.push(request);
        i += 1;
    }
    requests
}

/// Sorts the lines in the mode given. Under a numeric mode `readings` holds the reading
/// for each line and is moved along with the lines; under the other modes it is left as
/// it is. Afterwards the lines are the same lines, and their values under the mode
/// ascend.
pub fn sort_lines(
    lines: &mut Vec<String>,
    mode: SortMode,
    column: Option<usize>,
    readings: &mut Vec<Option<u64>>,
)
    requires
        needs_readings(mode) ==> old(lines)@.len() == old(readings)@.len() && all_numbers(
            old(readings)@,
        ),
    ensures
        final(lines)@.len() == old(lines)@.len(),
        final(readings)@.len() == old(readings)@.len(),
        texts(final(lines)@).to_multiset() == texts(old(lines)@).to_multiset(),
        needs_readings(mode) ==> paired(texts(final(lines)@), final(readings)@).to_multiset()
            == paired(texts(old(lines)@), old(readings)@).to_multiset(),
        !needs_readings(mode) ==> final(readings)@ == old(readings)@,
        ascending(mode_key_values(mode, texts(final(lines)@), column, final(readings)@)),
{
    match mode {
        SortMode::Lexicographic => sort_by_string(lines, column),
        SortMode::Numeric => sort_by_numeric(lines, readings),
        SortMode::MonthName => sort_by_month(lines, column),
        SortMode::SuffixScaled => sort_by_suffix(lines, column, readings),
    }
}

/// Tests whether the lines stand in the order of the mode given: forwards, or with
/// `reversed` backwards. Under a numeric mode `readings` holds the reading for each
/// line.
pub fn check_sorted(
    lines: &Vec<String>,
    mode: SortMode,
    column: Option<usize>,
    readings: &Vec<Option<u64>>,
    reversed: bool,
) -> (ordered: bool)
    requires
        mode == SortMode::SuffixScaled ==> lines@.len() == readings@.len(),
    ensures
        ordered == is_ordered(mode_key_values(mode, texts(lines@), column, readings@), reversed),
{
    match mode {
        SortMode::Lexicographic => check_sorted_by_string(lines, column, reversed),
        SortMode::Numeric => check_sorted_by_numeric(readings, reversed),
        SortMode::MonthName => check_sorted_by_month(lines, column, reversed),
        SortMode::SuffixScaled => check_sorted_by_suffix(lines, column, readings, reversed),
    }
}

/// Lines sorted in a mode pass the forward test for order in that mode.
pub proof fn lemma_sorted_passes_check(
    mode: SortMode,
    lines: Seq<Seq<char>>,
    column: Option<usize>,
    readings: Seq<Option<u64>>,
)
    requires
        ascending(mode_key_values(mode, lines, column, readings)),
    ensures
        is_ordered(mode_key_values(mode, lines, column, readings), false),
{
    lemma_ascending_is_ordered(mode_key_values(mode, lines, column, readings));
}

/// Lines sorted in a mode pass, once they and their readings are reversed, the reversed
/// test for order in that mode.
pub proof fn lemma_reversed_passes_check(
    mode: SortMode,
    lines: Seq<Seq<char>>,
    column: Option<usize>,
    readings: Seq<Option<u64>>,
)
    requires
        needs_readings(mode) ==> lines.len() == readings.len(),
        ascending(mode_key_values(mode, lines, column, readings)),
    ensures
        is_ordered(mode_key_values(mode, lines.reverse(), column, readings.reverse()), true),
{
    let values = mode_key_values(mode, lines, column, readings);
    lemma_reversed_ascending_is_ordered(values);
    assert(mode_key_values(mode, lines.reverse(), column, readings.reverse())
        =~= values.reverse());
}

/// The line without the white space at its end.
pub open spec fn trimmed_end(line: Seq<char>) -> Seq<char>
    decreases line.len(),
{
    if line.len() > 0 && is_space(line.last()) {
        trimmed_end(line.drop_last())
    } else {
        line
    }
}

/// Strips the white space from the end of a line.
pub fn trim_line_end(line: &str) -> (trimmed: String)
    ensures
        trimmed@ == trimmed_end(line@),
{
    let chars = chars_of(line);
    let mut end: usize = chars.len();
    assert(line@.take(end as int) =~= line@);
    while end > 0 && is_whitespace(chars[end - 1])
        invariant
            chars@ == line@,
            end <= chars.len(),
            trimmed_end(line@) == trimmed_end(line@.take(end as int)),
        decreases end,
    {
        assert(line@.take(end as int).drop_last() =~= line@.take(end - 1));
        end -= 1;
    }
    assert(line@.subrange(0, end as int) =~= line@.take(end as int));
    line.substring_char(0, end).to_owned()
}

/// Strips the white space from the end of every line.
pub fn strip_trailing_whitespace(lines: &mut Vec<String>)
    ensures
        final(lines)@.len() == old(lines)@.len(),
        forall|i: int|
            0 <= i < old(lines)@.len() ==> (#[trigger] final(lines)@[i])@ == trimmed_end(
                old(lines)@[i]@,
            ),
{
    let mut out: Vec<String> = Vec::new();
    let mut i: usize = 0;
    while i < lines.len()
        invariant
            lines@ == old(lines)@,
            i <= lines.len(),
            out@.len() == i,
            forall|k: int| 0 <= k < i ==> (#[trigger] out@[k])@ == trimmed_end(lines@[k]@),
        decreases lines.len() - i,
    {
        out.push(trim_line_end(lines[i].as_str()));
        i += 1;
    }
    *lines = out;
}

/// The lines without those that repeat their left neighbour: of each run of equal
/// neighbours the first stays. Equal lines that are not neighbours all stay.
pub open spec fn deduped(lines: Seq<Seq<char>>) -> Seq<Seq<char>>
    decreases lines.len(),
{
    if lines.len() == 0 {
        lines
    } else if lines.len() >= 2 && lines[lines.len() - 2] == lines.last() {
        deduped(lines.drop_last())
    } else {
        deduped(lines.drop_last()).push(lines.last())
    }
}

/// After the dropping no line equals its left neighbour.
pub proof fn lemma_deduped_has_no_repeats(lines: Seq<Seq<char>>)
    ensures
        forall|i: int|
            1 <= i < deduped(lines).len() ==> (#[trigger] deduped(lines)[i]) != deduped(lines)[i
                - 1],
        lines.len() > 0 ==> deduped(lines).len() > 0 && deduped(lines).last() == lines.last(),
    decreases lines.len(),
{
    if lines.len() > 0 {
        lemma_deduped_has_no_repeats(lines.drop_last());
        if lines.len() >= 2 {
            assert(lines.drop_last().last() == lines[lines.len() - 2]);
        }
    }
}

/// Drops every line that repeats its left neighbour.
pub fn dedup_adjacent(lines: &mut Vec<String>)
    ensures
        texts(final(lines)@) == deduped(texts(old(lines)@)),
{
    let mut out: Vec<String> = Vec::new();
    let mut i: usize = 0;
    let ghost all = texts(lines@);
    assert(all.take(0) =~= Seq::<Seq<char>>::empty());
    assert(texts(out@) =~= deduped(all.take(0)));
    while i < lines.len()
        invariant
            lines@ == old(lines)@,
            all == texts(lines@),
            i <= lines.len(),
            texts(out@) == deduped(all.take(i as int)),
        decreases lines.len() - i,
    {
        let ghost upto = all.take(i + 1);
        proof {
            assert(upto.drop_last() =~= all.take(i as int));
            assert(upto.last() == lines@[i as int]@);
            if i > 0 {
                assert(upto[upto.len() - 2] == lines@[i - 1]@);
            }
        }
        let repeats = i > 0 && lines[i] == lines[i - 1];
        if !repeats {
            let ghost before = texts(out@);
            out.push(lines[i].clone());
            assert(texts(out@) =~= before.push(lines@[i as int]@));
        }
        i += 1;
    }
    assert(all.take(i as int) =~= all);
    *lines = out;
}

/// Reverses the sequence of lines.
pub fn reverse_lines(lines: &mut Vec<String>)
    ensures
        texts(final(lines)@) == texts(old(lines)@).reverse(),
{
    let mut out: Vec<String> = Vec::new();
    let n = lines.len();
    while lines.len() > 0
        invariant
            n == old(lines)@.len(),
            lines@.len() + out@.len() == n,
            lines@ == old(lines)@.take(lines@.len() as int),
            forall|k: int| 0 <= k < out@.len() ==> out@[k] == old(lines)@[n - 1 - k],
        decreases lines.len(),
    {
        let last = lines.pop().unwrap();
        out.push(last);
    }
    *lines = out;
    assert(texts(lines@) =~= texts(old(lines)@).reverse());
}

/// What follows the sort: with `unique`, repeated neighbours are dropped; then, with
/// `reverse`, the sequence is reversed.
pub open spec fn finished(lines: Seq<Seq<char>>, unique: bool, reverse: bool) -> Seq<Seq<char>> {
    let kept = if unique {
        deduped(lines)
    } else {
        lines
    };
    if reverse {
        kept.reverse()
    } else {
        kept
    }
}

/// Finishes sorted lines: drops repeated neighbours if `unique` is set, then reverses
/// the sequence if `reverse` is set.
pub fn finish_lines(lines: &mut Vec<String>, unique: bool, reverse: bool)
    ensures
        texts(final(lines)@) == finished(texts(old(lines)@), unique, reverse),
{
    if unique {
        dedup_adjacent(lines);
    }
    if reverse {
        reverse_lines(lines);
    }
}

/// The lines joined into one text, with a line feed between each two neighbours and
/// none at the end.
pub open spec fn joined(lines: Seq<Seq<char>>) -> Seq<char>
    decreases lines.len(),
{
    if lines.len() == 0 {
        Seq::empty()
    } else if lines.len() == 1 {
        lines[0]
    } else {
        joined(lines.drop_last()) + seq!['\n'] + lines.last()
    }
}

/// Joins the lines into the text that is written out.
pub fn join_lines(lines: &Vec<String>) -> (text: String)
    ensures
        text@ == joined(texts(lines@)),
{
    let mut text = String::new();
    let mut i: usize = 0;
    let ghost all = texts(lines@);
    assert(all.take(0) =~= Seq::<Seq<char>>::empty());
    while i < lines.len()
        invariant
            all == texts(lines@),
            i <= lines.len(),
            text@ == joined(all.take(i as int)),
        decreases lines.len() - i,
    {
        proof {
            let upto = all.take(i + 1);
            assert(upto.drop_last() =~= all.take(i as int));
            assert(upto.last() == lines@[i as int]@);
            reveal_strlit("\n");
            assert("\n"@ =~= seq!['\n']);
            if i == 0 {
                assert(text@ + lines@[0]@ =~= lines@[0]@);
                assert(upto[0] == lines@[0]@);
            }
        }
        if i > 0 {
            text.append("\n");
        }
        text.append(lines[i].as_str());
        i += 1;
    }
    assert(all.take(i as int) =~= all);
    text
}

/// The name of the result: the name of the input behind the prefix `sorted_`.
pub open spec fn output_name_of(filename: Seq<char>) -> Seq<char> {
    "sorted_"@ + filename
}

/// Names the result of sorting the file named.
pub fn output_name(filename: &str) -> (name: String)
    ensures
        name@ == output_name_of(filename@),
{
    let mut name = "sorted_".to_owned();
    name.append(filename);
    name
}

/// What is reported of a test for order.
pub open spec fn verdict_of(ordered: bool) -> Seq<char> {
    if ordered {
        "Lines are sorted."@
    } else {
        "Lines are not sorted."@
    }
}

/// The sentence that reports the outcome of a test for order.
pub fn verdict(ordered: bool) -> (sentence: &'static str)
    ensures
        sentence@ == verdict_of(ordered),
{
    if ordered {
        "Lines are sorted."
    } else {
        "Lines are not sorted."
    }
}

} // verus!
