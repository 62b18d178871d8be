use vstd::prelude::*;

verus! {

/// Art lines above the first detail line: half the art's height, less six.
pub open spec fn skip_of(total_lines: int) -> int {
    total_lines / 2 - 6
}

/// The detail index shown beside art line `line`, if there is one among `n_details`.
pub open spec fn detail_slot(total_lines: int, n_details: int, line: int) -> Option<int> {
    let k = line - skip_of(total_lines);
    if 0 <= k && k < n_details {
        Some(k)
    } else {
        None
    }
}

/// Which detail, if any, stands beside art line `line` of an art of `total_lines` lines.
pub fn detail_index(total_lines: u16, n_details: usize, line: u16) -> (r: Option<usize>)
    ensures
        match detail_slot(total_lines as int, n_details as int, line as int) {
            Some(k) => r == Some(k as usize),
            None => r is None,
        },
{
    let skip: i64 = (total_lines / 2) as i64 - 6;
    let k: i64 = line as i64 - skip;
    if k < 0 || k as u64 >= n_details as u64 {
        None
    } else {
        Some(k as usize)
    }
}

/// For each art line in order, the detail shown beside it, if any.
pub fn layout_plan(total_lines: u16, n_details: usize) -> (r: Vec<Option<usize>>)
    ensures
        r@.len() == total_lines as int,
        forall|i: int|
            0 <= i < total_lines ==> match #[trigger] detail_slot(
                total_lines as int,
                n_details as int,
                i,
            ) {
                Some(k) => r@[i] == Some(k as usize),
                None => r@[i] is None,
            },
{
    let mut r: Vec<Option<usize>> = Vec::new();
    let mut line: u16 = 0;
    while line < total_lines
        invariant
            line <= total_lines,
            r@.len() == line as int,
            forall|i: int|
                0 <= i < line ==> match #[trigger] detail_slot(
                    total_lines as int,
                    n_details as int,
                    i,
                ) {
                    Some(k) => r@[i] == Some(k as usize),
                    None => r@[i] is None,
                },
        decreases total_lines - line,
    {
        let d = detail_index(total_lines, n_details, line);
        r.push(d);
        line = line + 1;
    }
    r
}

/// How many of the first `upto` art lines carry a detail.
pub open spec fn paired_count(total_lines: int, n_details: int, upto: int) -> int
    decreases upto,
{
    if upto <= 0 {
        0
    } else {
        paired_count(total_lines, n_details, upto - 1) + if detail_slot(
            total_lines,
            n_details,
            upto - 1,
        ) is Some {
            1int
        } else {
            0int
        }
    }
}

proof fn lemma_paired_prefix(total_lines: int, n_details: int, upto: int)
    requires
        skip_of(total_lines) >= 0,
        n_details >= 0,
        upto >= 0,
    ensures
        paired_count(total_lines, n_details, upto) == if upto - skip_of(total_lines) <= 0 {
            0
        } else if upto - skip_of(total_lines) <= n_details {
            upto - skip_of(total_lines)
        } else {
            n_details
        },
    decreases upto,
{
    if upto > 0 {
        lemma_paired_prefix(total_lines, n_details, upto - 1);
    }
}

/// How many art lines carry a detail: `min(n_details, total_lines - skip)`.
pub open spec fn paired_total(total_lines: int, n_details: int) -> int {
    if n_details <= total_lines - skip_of(total_lines) {
        n_details
    } else {
        total_lines - skip_of(total_lines)
    }
}

/// An art of `total_lines` lines, with at least twelve of them so that the
/// offset is not negative, and `n_details` details: exactly
/// `min(n_details, total_lines - skip)` art lines carry a detail. They are the
/// lines from `skip` on, one after another, and the `k`-th of them carries detail
/// `k`, so the details keep their order from the first, none repeated or left out
/// before the last shown; every other line carries none.
pub proof fn lemma_paired_lines(total_lines: u16, n_details: usize)
    requires
        total_lines >= 12,
    ensures
        paired_count(total_lines as int, n_details as int, total_lines as int) == paired_total(
            total_lines as int,
            n_details as int,
        ),
        forall|i: int|
            0 <= i < total_lines ==> (#[trigger] detail_slot(
                total_lines as int,
                n_details as int,
                i,
            ) is Some <==> skip_of(total_lines as int) <= i < skip_of(total_lines as int)
                + paired_total(total_lines as int, n_details as int)),
        forall|k: int|
            0 <= k < paired_total(total_lines as int, n_details as int) ==> detail_slot(
                total_lines as int,
                n_details as int,
                #[trigger] (skip_of(total_lines as int) + k),
            ) == Some(k),
{
    lemma_paired_prefix(total_lines as int, n_details as int, total_lines as int);
}

} // verus!
