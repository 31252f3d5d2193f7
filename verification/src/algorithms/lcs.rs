//! The longest-common-subsequence engine: a full table of subsequence
//! lengths, then a walk back through it from the last cell.

use vstd::prelude::*;
use crate::apply::{
    apply_chunks, changed_lines, describes, separated, lemma_chunks_of_script,
    lemma_describes_round_trip,
};
use crate::coalesce::{chunks_of, coalesce};
use crate::script::{Step, cost, count_of, keeps_match, new_len, old_len, reversed, transforms};
use crate::service::data_types::FileDiff;
use crate::service::report::reportable;

verus! {

/// The length of the longest common subsequence of the first `i` lines of
/// `old` and the first `j` lines of `new`.
pub open spec fn lcs_len(old: Seq<Seq<char>>, new: Seq<Seq<char>>, i: nat, j: nat) -> nat
    decreases i + j,
{
    if i == 0 || j == 0 {
        0
    } else if old[i - 1] == new[j - 1] {
        lcs_len(old, new, (i - 1) as nat, (j - 1) as nat) + 1
    } else {
        let up = lcs_len(old, new, (i - 1) as nat, j);
        let left = lcs_len(old, new, i, (j - 1) as nat);
        if left >= up {
            left
        } else {
            up
        }
    }
}

/// The larger of the table's values above and to the left of cell `(i, j)`.
pub open spec fn best_neighbour(old: Seq<Seq<char>>, new: Seq<Seq<char>>, i: nat, j: nat) -> nat {
    let up = lcs_len(old, new, (i - 1) as nat, j);
    let left = lcs_len(old, new, i, (j - 1) as nat);
    if left >= up {
        left
    } else {
        up
    }
}

/// The script that the walk back from cell `(i, j)` yields, read forwards.
///
/// In the first row only insertions are left, in the first column only
/// removals. Elsewhere a cell whose value differs from both neighbours'
/// maximum keeps its line. Otherwise the line is removed where the value
/// above is strictly the larger one, and inserted where it is not: on equal
/// values the insertion is taken.
pub open spec fn lcs_script(old: Seq<Seq<char>>, new: Seq<Seq<char>>, i: nat, j: nat) -> Seq<Step>
    decreases i + j,
{
    if i == 0 && j == 0 {
        Seq::empty()
    } else if i == 0 {
        lcs_script(old, new, i, (j - 1) as nat).push(Step::Insert)
    } else if j == 0 {
        lcs_script(old, new, (i - 1) as nat, j).push(Step::Remove)
    } else if lcs_len(old, new, i, j) != best_neighbour(old, new, i, j) {
        lcs_script(old, new, (i - 1) as nat, (j - 1) as nat).push(Step::Keep)
    } else if lcs_len(old, new, i, (j - 1) as nat) < lcs_len(old, new, (i - 1) as nat, j) {
        lcs_script(old, new, (i - 1) as nat, j).push(Step::Remove)
    } else {
        lcs_script(old, new, i, (j - 1) as nat).push(Step::Insert)
    }
}

/// A common subsequence is no longer than either prefix.
pub proof fn lemma_lcs_len_bound(old: Seq<Seq<char>>, new: Seq<Seq<char>>, i: nat, j: nat)
    ensures
        lcs_len(old, new, i, j) <= i,
        lcs_len(old, new, i, j) <= j,
    decreases i + j,
{
    if i != 0 && j != 0 {
        lemma_lcs_len_bound(old, new, (i - 1) as nat, (j - 1) as nat);
        lemma_lcs_len_bound(old, new, (i - 1) as nat, j);
        lemma_lcs_len_bound(old, new, i, (j - 1) as nat);
    }
}

/// The script of cell `(i, j)` passes over `i` old lines and `j` new lines,
/// keeps only equal lines, and keeps as many as the table says.
pub proof fn lemma_lcs_script(old: Seq<Seq<char>>, new: Seq<Seq<char>>, i: nat, j: nat)
    requires
        i <= old.len(),
        j <= new.len(),
    ensures
        old_len(lcs_script(old, new, i, j)) == i,
        new_len(lcs_script(old, new, i, j)) == j,
        keeps_match(lcs_script(old, new, i, j), old, new),
        count_of(lcs_script(old, new, i, j), Step::Keep) == lcs_len(old, new, i, j),
    decreases i + j,
{
    if i != 0 || j != 0 {
        let (pi, pj) = if i == 0 {
            (i, (j - 1) as nat)
        } else if j == 0 {
            ((i - 1) as nat, j)
        } else if lcs_len(old, new, i, j) != best_neighbour(old, new, i, j) {
            ((i - 1) as nat, (j - 1) as nat)
        } else if lcs_len(old, new, i, (j - 1) as nat) < lcs_len(old, new, (i - 1) as nat, j) {
            ((i - 1) as nat, j)
        } else {
            (i, (j - 1) as nat)
        };
        lemma_lcs_script(old, new, pi, pj);
        assert(lcs_script(old, new, i, j).drop_last() =~= lcs_script(old, new, pi, pj));
    }
}

/// One more line on either side lengthens the longest common subsequence
/// by at most one, and never shortens it.
pub proof fn lemma_lcs_len_step(old: Seq<Seq<char>>, new: Seq<Seq<char>>, i: nat, j: nat)
    ensures
        i > 0 ==> lcs_len(old, new, (i - 1) as nat, j) <= lcs_len(old, new, i, j) <= lcs_len(
            old,
            new,
            (i - 1) as nat,
            j,
        ) + 1,
        j > 0 ==> lcs_len(old, new, i, (j - 1) as nat) <= lcs_len(old, new, i, j) <= lcs_len(
            old,
            new,
            i,
            (j - 1) as nat,
        ) + 1,
    decreases i + j,
{
    if i != 0 && j != 0 {
        lemma_lcs_len_step(old, new, (i - 1) as nat, j);
        lemma_lcs_len_step(old, new, i, (j - 1) as nat);
    }
}

/// The number of changed lines in a shortest script from `old` to `new`:
/// every line outside a longest common subsequence is removed or inserted.
pub open spec fn edit_distance(old: Seq<Seq<char>>, new: Seq<Seq<char>>) -> nat {
    (old.len() + new.len() - 2 * lcs_len(old, new, old.len(), new.len())) as nat
}

/// The script of the last cell.
pub open spec fn lcs_diff_script(old: Seq<Seq<char>>, new: Seq<Seq<char>>) -> Seq<Step> {
    lcs_script(old, new, old.len(), new.len())
}

/// No script keeps more lines than the longest common subsequence of the
/// prefixes that it passes over has.
pub proof fn lemma_keeps_bounded(s: Seq<Step>, old: Seq<Seq<char>>, new: Seq<Seq<char>>)
    requires
        keeps_match(s, old, new),
        old_len(s) <= old.len(),
        new_len(s) <= new.len(),
    ensures
        count_of(s, Step::Keep) <= lcs_len(old, new, old_len(s), new_len(s)),
    decreases s.len(),
{
    if s.len() > 0 {
        let p = s.drop_last();
        lemma_keeps_bounded(p, old, new);
        lemma_lcs_len_step(old, new, old_len(s), new_len(s));
    }
}

/// The script of the last cell turns `old` into `new`, at the cost of the
/// edit distance.
pub proof fn lemma_lcs_script_transforms(old: Seq<Seq<char>>, new: Seq<Seq<char>>)
    ensures
        transforms(lcs_diff_script(old, new), old, new),
        cost(lcs_diff_script(old, new)) == edit_distance(old, new),
{
    lemma_lcs_script(old, new, old.len(), new.len());
}

/// No script that turns `old` into `new` costs less than the edit distance.
pub proof fn lemma_edit_distance_minimal(s: Seq<Step>, old: Seq<Seq<char>>, new: Seq<Seq<char>>)
    requires
        transforms(s, old, new),
    ensures
        edit_distance(old, new) <= cost(s),
{
    lemma_keeps_bounded(s, old, new);
    lemma_lcs_len_bound(old, new, old.len(), new.len());
}

/// A text is its own longest common subsequence with itself.
pub proof fn lemma_lcs_len_same(text: Seq<Seq<char>>, i: nat)
    requires
        i <= text.len(),
    ensures
        lcs_len(text, text, i, i) == i,
    decreases i,
{
    if i > 0 {
        lemma_lcs_len_same(text, (i - 1) as nat);
    }
}

/// What holds of the chunks of any script from `old` to `new` that costs no
/// more than the edit distance: they tell how `old` becomes `new` and make
/// `new` of `old`, lie apart from each other, hold as few line changes as
/// any script can, are none at all where the texts are equal, and can be
/// reported.
pub proof fn lemma_shortest_script_chunks(s: Seq<Step>, old: Seq<Seq<char>>, new: Seq<Seq<char>>)
    requires
        transforms(s, old, new),
        cost(s) == edit_distance(old, new),
    ensures
        describes(chunks_of(s, old, new), old, new),
        apply_chunks(chunks_of(s, old, new), old) == new,
        separated(chunks_of(s, old, new)),
        changed_lines(chunks_of(s, old, new)) == edit_distance(old, new),
        forall|other: Seq<Step>| #[trigger]
            transforms(other, old, new) ==> changed_lines(chunks_of(s, old, new)) <= cost(other),
        old == new ==> chunks_of(s, old, new).len() == 0,
        old.len() <= usize::MAX ==> reportable(chunks_of(s, old, new), new.len()),
{
    lemma_chunks_of_script(s, old, new);
    lemma_describes_round_trip(chunks_of(s, old, new), old, new);
    assert forall|other: Seq<Step>| #[trigger] transforms(other, old, new) implies changed_lines(
        chunks_of(s, old, new),
    ) <= cost(other) by {
        lemma_edit_distance_minimal(other, old, new);
    }
    if old == new {
        lemma_lcs_len_same(old, old.len());
    }
}

/// The table of common-subsequence lengths: `old.len() + 1` rows of
/// `new.len() + 1` cells.
fn lcs_table(old: &Vec<String>, new: &Vec<String>) -> (table: Vec<Vec<usize>>)
    ensures
        table@.len() == old.len() + 1,
        forall|i: int| 0 <= i <= old.len() ==> (#[trigger] table[i])@.len() == new.len() + 1,
        forall|i: int, j: int|
            0 <= i <= old.len() && 0 <= j <= new.len() ==> #[trigger] table[i][j] == lcs_len(
                old.deep_view(),
                new.deep_view(),
                i as nat,
                j as nat,
            ),
{
    let ghost o = old.deep_view();
    let ghost n = new.deep_view();
    let rows = old.len();
    let columns = new.len();
    let mut first: Vec<usize> = Vec::new();
    first.push(0);
    let mut j: usize = 0;
    while j < columns
        invariant
            0 <= j <= columns,
            first@.len() == j + 1,
            forall|c: int| 0 <= c <= j ==> #[trigger] first[c] == 0,
        decreases columns - j,
    {
        first.push(0);
        j = j + 1;
    }
    let mut table: Vec<Vec<usize>> = Vec::new();
    table.push(first);
    let mut i: usize = 0;
    while i < rows
        invariant
            0 <= i <= rows,
            rows == old.len(),
            columns == new.len(),
            o == old.deep_view(),
            n == new.deep_view(),
            table@.len() == i + 1,
            forall|r: int| 0 <= r <= i ==> (#[trigger] table[r])@.len() == columns + 1,
            forall|r: int, c: int|
                0 <= r <= i && 0 <= c <= columns ==> #[trigger] table[r][c] == lcs_len(
                    o,
                    n,
                    r as nat,
                    c as nat,
                ),
        decreases rows - i,
    {
        let mut row: Vec<usize> = Vec::new();
        row.push(0);
        let mut j: usize = 0;
        while j < columns
            invariant
                0 <= j <= columns,
                0 <= i < rows,
                rows == old.len(),
                columns == new.len(),
                o == old.deep_view(),
                n == new.deep_view(),
                table@.len() == i + 1,
                forall|r: int| 0 <= r <= i ==> (#[trigger] table[r])@.len() == columns + 1,
                forall|r: int, c: int|
                    0 <= r <= i && 0 <= c <= columns ==> #[trigger] table[r][c] == lcs_len(
                        o,
                        n,
                        r as nat,
                        c as nat,
                    ),
                row@.len() == j + 1,
                forall|c: int|
                    0 <= c <= j ==> #[trigger] row[c] == lcs_len(o, n, (i + 1) as nat, c as nat),
            decreases columns - j,
        {
            let value = if old[i] == new[j] {
                proof {
                    lemma_lcs_len_bound(o, n, i as nat, j as nat);
                }
                table[i][j] + 1
            } else {
                let up = table[i][j + 1];
                let left = row[j];
                if left >= up {
                    left
                } else {
                    up
                }
            };
            row.push(value);
            j = j + 1;
        }
        table.push(row);
        i = i + 1;
    }
    table
}

/// Compares `old` and `new` through their longest common subsequence. The
/// chunks are those of the script that the walk back from the table's last
/// cell yields.
///
/// The chunks tell how `old` becomes `new`: applied to `old` they give
/// `new`. Between any two of them lies an unchanged line; no script from
/// `old` to `new` changes fewer lines than they hold; and equal texts have no
/// chunks.
pub fn compare_files(file_name: &str, old: &Vec<String>, new: &Vec<String>) -> (diff: FileDiff)
    ensures
        diff@.file_name == file_name@,
        diff@.chunks == chunks_of(
            lcs_diff_script(old.deep_view(), new.deep_view()),
            old.deep_view(),
            new.deep_view(),
        ),
        describes(diff@.chunks, old.deep_view(), new.deep_view()),
        apply_chunks(diff@.chunks, old.deep_view()) == new.deep_view(),
        separated(diff@.chunks),
        changed_lines(diff@.chunks) == edit_distance(old.deep_view(), new.deep_view()),
        forall|other: Seq<Step>| #[trigger]
            transforms(other, old.deep_view(), new.deep_view()) ==> changed_lines(diff@.chunks)
                <= cost(other),
        old.deep_view() == new.deep_view() ==> diff@.chunks.len() == 0,
        reportable(diff@.chunks, new.len() as nat),
{
    let ghost o = old.deep_view();
    let ghost n = new.deep_view();
    let table = lcs_table(old, new);
    let mut i: usize = old.len();
    let mut j: usize = new.len();
    let mut backwards: Vec<Step> = Vec::new();
    let ghost whole = lcs_script(o, n, old.len() as nat, new.len() as nat);
    let ghost tail = Seq::<Step>::empty();
    while i > 0 || j > 0
        invariant
            0 <= i <= old.len(),
            0 <= j <= new.len(),
            o == old.deep_view(),
            n == new.deep_view(),
            table@.len() == old.len() + 1,
            forall|r: int| 0 <= r <= old.len() ==> (#[trigger] table[r])@.len() == new.len() + 1,
            forall|r: int, c: int|
                0 <= r <= old.len() && 0 <= c <= new.len() ==> #[trigger] table[r][c] == lcs_len(
                    o,
                    n,
                    r as nat,
                    c as nat,
                ),
            whole == lcs_script(o, n, i as nat, j as nat) + tail,
            backwards@ == tail.reverse(),
        decreases i + j,
    {
        let step;
        if i == 0 {
            step = Step::Insert;
            j = j - 1;
        } else if j == 0 {
            step = Step::Remove;
            i = i - 1;
        } else {
            let left = table[i][j - 1];
            let up = table[i - 1][j];
            let best = if left >= up {
                left
            } else {
                up
            };
            if table[i][j] != best {
                step = Step::Keep;
                i = i - 1;
                j = j - 1;
            } else if left < up {
                step = Step::Remove;
                i = i - 1;
            } else {
                step = Step::Insert;
                j = j - 1;
            }
        }
        backwards.push(step);
        proof {
            tail = seq![step] + tail;
        }
    }
    let script = reversed(&backwards);
    proof {
        assert(script@ =~= whole);
        lemma_lcs_script_transforms(o, n);
        lemma_shortest_script_chunks(whole, o, n);
    }
    coalesce(file_name, old, new, &script).unwrap()
}

} // verus!
