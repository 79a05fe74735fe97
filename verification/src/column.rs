//! The column extractor: the comparison key of a line is one of its white-space
//! separated words, or the whole line.
use vstd::prelude::*;
use crate::text::{chars_of, is_space, is_whitespace};

verus! {

/// The length of the longest prefix of `s` that holds no white space.
pub open spec fn word_len(s: Seq<char>) -> nat
    decreases s.len(),
{
    if s.len() == 0 || is_space(s[0]) {
        0
    } else {
        1 + word_len(s.drop_first())
    }
}

/// `word_len` never runs past the end of the sequence.
pub proof fn lemma_word_len_bound(s: Seq<char>)
    ensures
        word_len(s) <= s.len(),
    decreases s.len(),
{
    if s.len() > 0 && !is_space(s[0]) {
        lemma_word_len_bound(s.drop_first());
    }
}

/// The words of `s`: its maximal runs of characters that are not white space, from left
/// to right. White space at either end and between words belongs to no word, so no word
/// is empty.
pub open spec fn tokens(s: Seq<char>) -> Seq<Seq<char>>
    decreases s.len(),
{
    if s.len() == 0 {
        Seq::empty()
    } else if is_space(s[0]) {
        tokens(s.drop_first())
    } else {
        proof {
            lemma_word_len_bound(s);
        }
        seq![s.take(word_len(s) as int)] + tokens(s.skip(word_len(s) as int))
    }
}

/// The comparison key of `line`: with a column that names one of the line's words
/// (counted from 1), that word; with no column, with column 0, or with a column past the
/// last word, the line itself.
pub open spec fn extract(line: Seq<char>, column: Option<usize>) -> Seq<char> {
    match column {
        Some(c) => if 1 <= c <= tokens(line).len() {
            tokens(line)[c - 1]
        } else {
            line
        },
        None => line,
    }
}

/// Without a column the key of a line is the line itself, white space and all.
pub proof fn lemma_extract_without_column(line: Seq<char>)
    ensures
        extract(line, None) == line,
{
}

/// Whether `w` holds at least one character and no white space.
pub open spec fn is_word(w: Seq<char>) -> bool {
    w.len() > 0 && forall|j: int| 0 <= j < w.len() ==> !is_space(#[trigger] w[j])
}

/// The first `word_len(s)` characters of `s` hold no white space.
pub proof fn lemma_word_holds_no_space(s: Seq<char>)
    ensures
        forall|j: int| 0 <= j < word_len(s) ==> !is_space(#[trigger] s[j]),
    decreases s.len(),
{
    lemma_word_len_bound(s);
    if s.len() > 0 && !is_space(s[0]) {
        lemma_word_holds_no_space(s.drop_first());
        lemma_word_len_bound(s.drop_first());
        assert forall|j: int| 0 <= j < word_len(s) implies !is_space(#[trigger] s[j]) by {
            if j > 0 {
                assert(s[j] == s.drop_first()[j - 1]);
            }
        }
    }
}

/// Every one of the words of a line holds at least one character and no white space.
pub proof fn lemma_tokens_are_words(s: Seq<char>)
    ensures
        forall|i: int| 0 <= i < tokens(s).len() ==> is_word(#[trigger] tokens(s)[i]),
    decreases s.len(),
{
    if s.len() == 0 {
        assert(tokens(s).len() == 0);
    } else if is_space(s[0]) {
        lemma_tokens_are_words(s.drop_first());
        assert(tokens(s) == tokens(s.drop_first()));
    } else {
        let n = word_len(s) as int;
        lemma_word_len_bound(s);
        lemma_word_holds_no_space(s);
        lemma_tokens_are_words(s.skip(n));
        let rest = tokens(s.skip(n));
        assert(tokens(s) == seq![s.take(n)] + rest);
        assert(is_word(s.take(n)));
        assert forall|i: int| 0 <= i < tokens(s).len() implies is_word(
            #[trigger] tokens(s)[i],
        ) by {
            if i > 0 {
                assert(tokens(s)[i] == rest[i - 1]);
            }
        }
    }
}

/// Where the word numbered `column` (from 1) stands in `chars`: the index of its first
/// character and the index just past its last, or `None` when there is no such word.
pub fn column_span(chars: &Vec<char>, column: usize) -> (span: Option<(usize, usize)>)
    ensures
        span is Some <==> 1 <= column <= tokens(chars@).len(),
        span matches Some((from, to)) ==> from < to <= chars.len() && chars@.subrange(
            from as int,
            to as int,
        ) == tokens(chars@)[column - 1],
{
    if column == 0 {
        return None;
    }
    let n = chars.len();
    let mut i: usize = 0;
    let mut seen: usize = 0;
    let ghost mut found: Seq<Seq<char>> = Seq::empty();
    proof {
        assert(chars@.skip(0) =~= chars@);
        assert(found + tokens(chars@) =~= tokens(chars@));
    }
    while i < n
        invariant
            n == chars.len(),
            i <= n,
            seen < column,
            found.len() == seen,
            tokens(chars@) == found + tokens(chars@.skip(i as int)),
        decreases n - i,
    {
        let ghost rest = chars@.skip(i as int);
        assert(rest.len() > 0 && rest[0] == chars@[i as int]);
        if is_whitespace(chars[i]) {
            assert(rest.drop_first() =~= chars@.skip(i + 1));
            i += 1;
        } else {
            let mut end: usize = i + 1;
            proof {
                assert(rest.drop_first() =~= chars@.skip(i + 1));
            }
            while end < n && !is_whitespace(chars[end])
                invariant
                    n == chars.len(),
                    i < end <= n,
                    word_len(rest) == (end - i) + word_len(chars@.skip(end as int)),
                decreases n - end,
            {
                proof {
                    let tail = chars@.skip(end as int);
                    assert(tail.len() > 0 && tail[0] == chars@[end as int]);
                    assert(tail.drop_first() =~= chars@.skip(end + 1));
                }
                end += 1;
            }
            proof {
                let tail = chars@.skip(end as int);
                if end < n {
                    assert(tail.len() > 0 && tail[0] == chars@[end as int]);
                }
                assert(word_len(tail) == 0);
                assert(rest.take((end - i) as int) =~= chars@.subrange(i as int, end as int));
                assert(rest.skip((end - i) as int) =~= chars@.skip(end as int));
                assert(tokens(rest) == seq![chars@.subrange(i as int, end as int)] + tokens(
                    chars@.skip(end as int),
                ));
            }
            if seen + 1 == column {
                assert(tokens(chars@)[seen as int] == chars@.subrange(i as int, end as int));
                return Some((i, end));
            }
            proof {
                let word = chars@.subrange(i as int, end as int);
                assert(found.push(word) + tokens(chars@.skip(end as int)) =~= found + (seq![word]
                    + tokens(chars@.skip(end as int))));
                found = found.push(word);
            }
            seen += 1;
            i = end;
        }
    }
    proof {
        assert(chars@.skip(n as int).len() == 0);
        assert(tokens(chars@) =~= found);
    }
    None
}

/// The comparison key of a line, as a string.
pub fn get_column_value(line: &str, column: Option<usize>) -> (key: String)
    ensures
        key@ == extract(line@, column),
        column is None ==> key@ == line@,
{
    match column {
        Some(c) => {
            let chars = chars_of(line);
            match column_span(&chars, c) {
                Some((from, to)) => line.substring_char(from, to).to_owned(),
                None => line.to_owned(),
            }
        },
        None => line.to_owned(),
    }
}

/// The comparison key of a line that is held as a vector of characters.
pub fn key_chars(chars: &Vec<char>, column: Option<usize>) -> (key: Vec<char>)
    ensures
        key@ == extract(chars@, column),
{
    let (from, to) = match column {
        Some(c) => match column_span(chars, c) {
            Some(span) => span,
            None => (0, chars.len()),
        },
        None => (0, chars.len()),
    };
    let mut key: Vec<char> = Vec::new();
    let mut i: usize = from;
    while i < to
        invariant
            from <= i <= to <= chars.len(),
            key@ == chars@.subrange(from as int, i as int),
        decreases to - i,
    {
        key.push(chars[i]);
        assert(key@ =~= chars@.subrange(from as int, i + 1));
        i += 1;
    }
    assert(chars@.subrange(0, chars.len() as int) =~= chars@);
    key
}

} // verus!
