//! The month-name rank of a key: the place in the calendar of the first month whose
//! three-letter abbreviation occurs in the key.
use vstd::prelude::*;
use crate::text::chars_of;

verus! {

/// The rank of a key in which no month abbreviation occurs. It lies past the rank of
/// every month, so such keys come last in ascending order.
pub const NO_MONTH: usize = 13;

/// The three-letter abbreviation of the month with rank `rank`, 0 for January to 11 for
/// December. Ranks outside that range have the empty abbreviation.
pub open spec fn month_name(rank: int) -> Seq<char> {
    if rank == 0 {
        seq!['J', 'a', 'n']
    } else if rank == 1 {
        seq!['F', 'e', 'b']
    } else if rank == 2 {
        seq!['M', 'a', 'r']
    } else if rank == 3 {
        seq!['A', 'p', 'r']
    } else if rank == 4 {
        seq!['M', 'a', 'y']
    } else if rank == 5 {
        seq!['J', 'u', 'n']
    } else if rank == 6 {
        seq!['J', 'u', 'l']
    } else if rank == 7 {
        seq!['A', 'u', 'g']
    } else if rank == 8 {
        seq!['S', 'e', 'p']
    } else if rank == 9 {
        seq!['O', 'c', 't']
    } else if rank == 10 {
        seq!['N', 'o', 'v']
    } else if rank == 11 {
        seq!['D', 'e', 'c']
    } else {
        Seq::empty()
    }
}

/// Whether `pattern` stands in `text` at index `at`.
pub open spec fn occurs_at(text: Seq<char>, pattern: Seq<char>, at: int) -> bool {
    0 <= at && at + pattern.len() <= text.len() && text.subrange(at, at + pattern.len())
        == pattern
}

/// Whether `pattern` occurs in `text` as a run of neighbouring characters.
pub open spec fn occurs_in(text: Seq<char>, pattern: Seq<char>) -> bool {
    exists|at: int| occurs_at(text, pattern, at)
}

/// The least rank from `from` up to December whose abbreviation occurs in `key`, or
/// `NO_MONTH` when there is none.
pub open spec fn first_month_from(key: Seq<char>, from: int) -> int
    decreases 12 - from,
{
    if from >= 12 {
        NO_MONTH as int
    } else if occurs_in(key, month_name(from)) {
        from
    } else {
        first_month_from(key, from + 1)
    }
}

/// The month rank of `key`: the rank of the first month, in calendar order, whose
/// abbreviation occurs anywhere in `key`; `NO_MONTH` when none does.
pub open spec fn month_rank_of(key: Seq<char>) -> int {
    first_month_from(key, 0)
}

/// What `first_month_from` picks: a month at or after `from` that occurs in the key and
/// before which, from `from` on, none occurs; or `NO_MONTH` when none occurs from `from`
/// on.
pub proof fn lemma_first_month_from(key: Seq<char>, from: int)
    requires
        0 <= from,
    ensures
        ({
            let r = first_month_from(key, from);
            if r == NO_MONTH as int {
                forall|m: int| from <= m < 12 ==> !occurs_in(key, month_name(m))
            } else {
                &&& from <= r < 12
                &&& occurs_in(key, month_name(r))
                &&& forall|m: int| from <= m < r ==> !occurs_in(key, month_name(m))
            }
        }),
    decreases 12 - from,
{
    if from < 12 && !occurs_in(key, month_name(from)) {
        lemma_first_month_from(key, from + 1);
    }
}

/// The abbreviation of the month with rank `rank`.
pub fn month_abbreviation(rank: usize) -> (name: Vec<char>)
    ensures
        name@ == month_name(rank as int),
{
    let name = match rank {
        0 => vec!['J', 'a', 'n'],
        1 => vec!['F', 'e', 'b'],
        2 => vec!['M', 'a', 'r'],
        3 => vec!['A', 'p', 'r'],
        4 => vec!['M', 'a', 'y'],
        5 => vec!['J', 'u', 'n'],
        6 => vec!['J', 'u', 'l'],
        7 => vec!['A', 'u', 'g'],
        8 => vec!['S', 'e', 'p'],
        9 => vec!['O', 'c', 't'],
        10 => vec!['N', 'o', 'v'],
        11 => vec!['D', 'e', 'c'],
        _ => Vec::new(),
    };
    assert(name@ =~= month_name(rank as int));
    name
}

/// Whether `pattern` occurs in `text`.
pub fn contains_chars(text: &Vec<char>, pattern: &Vec<char>) -> (found: bool)
    ensures
        found == occurs_in(text@, pattern@),
{
    let n = text.len();
    let m = pattern.len();
    if m > n {
        return false;
    }
    let mut at: usize = 0;
    while at <= n - m
        invariant
            n == text.len(),
            m == pattern.len(),
            m <= n,
            forall|p: int| 0 <= p < at ==> !occurs_at(text@, pattern@, p),
        decreases n - m + 1 - at,
    {
        let mut k: usize = 0;
        while k < m && text[at + k] == pattern[k]
            invariant
                n == text.len(),
                m == pattern.len(),
                at + m <= n,
                k <= m,
                forall|j: int| 0 <= j < k ==> text@[at + j] == pattern@[j],
            decreases m - k,
        {
            k += 1;
        }
        if k == m {
            assert(text@.subrange(at as int, at + m) =~= pattern@);
            assert(occurs_at(text@, pattern@, at as int));
            return true;
        }
        assert(!occurs_at(text@, pattern@, at as int)) by {
            if occurs_at(text@, pattern@, at as int) {
                assert(text@.subrange(at as int, at + m)[k as int] == pattern@[k as int]);
            }
        }
        at += 1;
    }
    false
}

/// The month rank of a key that is held as a vector of characters.
pub fn month_rank_chars(key: &Vec<char>) -> (rank: usize)
    ensures
        rank == month_rank_of(key@),
        rank < 12 || rank == NO_MONTH,
{
    let mut month: usize = 0;
    proof {
        lemma_first_month_from(key@, 0);
    }
    while month < 12
        invariant
            month <= 12,
            first_month_from(key@, month as int) == month_rank_of(key@),
        decreases 12 - month,
    {
        let name = month_abbreviation(month);
        if contains_chars(key, &name) {
            return month;
        }
        month += 1;
    }
    NO_MONTH
}

/// The month rank of a key.
pub fn month_rank(key: &str) -> (rank: usize)
    ensures
        rank == month_rank_of(key@),
        rank < 12 || rank == NO_MONTH,
{
    let chars = chars_of(key);
    month_rank_chars(&chars)
}

} // verus!
