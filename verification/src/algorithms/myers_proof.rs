//! Why the edit-graph search finds a shortest script: the levels hold the
//! furthest points that paths of their cost reach, and the first level that
//! holds the graph's last node is the level of the edit distance.

use vstd::prelude::*;
use crate::algorithms::lcs::{
    edit_distance, lcs_diff_script, lemma_edit_distance_minimal, lemma_keeps_bounded,
    lemma_lcs_len_bound, lemma_lcs_len_same, lemma_lcs_script,
};
use crate::algorithms::myers::{
    by_insertion, furthest, furthest_script, myers_script, removals, snake, snake_start,
};
use crate::script::{
    Step, cost, count_of, keeps, keeps_match, new_len, old_len, transforms, lemma_count_concat,
    lemma_count_keeps,
};

verus! {

/// A run of diagonal moves goes forward, and where it moves at all it stays
/// inside both texts.
pub proof fn lemma_snake_bounds(old: Seq<Seq<char>>, new: Seq<Seq<char>>, x: int, y: int)
    ensures
        x <= snake(old, new, x, y),
        snake(old, new, x, y) == x || (snake(old, new, x, y) <= old.len() && y + snake(
            old,
            new,
            x,
            y,
        ) - x <= new.len()),
    decreases old.len() - x,
{
    if 0 <= x < old.len() && 0 <= y < new.len() && old[x] == new[y] {
        lemma_snake_bounds(old, new, x + 1, y + 1);
    }
}

/// Every move of a run of diagonal moves passes over two equal lines.
pub proof fn lemma_snake_matches(old: Seq<Seq<char>>, new: Seq<Seq<char>>, x: int, y: int, k: int)
    requires
        x <= k < snake(old, new, x, y),
    ensures
        0 <= k < old.len(),
        0 <= y + k - x < new.len(),
        old[k] == new[y + k - x],
    decreases old.len() - x,
{
    if 0 <= x < old.len() && 0 <= y < new.len() && old[x] == new[y] {
        if k > x {
            lemma_snake_matches(old, new, x + 1, y + 1, k);
        }
    }
}

/// Where a run of diagonal moves ends, no further diagonal move is open.
pub proof fn lemma_snake_maximal(old: Seq<Seq<char>>, new: Seq<Seq<char>>, x: int, y: int)
    ensures
        ({
            let end = snake(old, new, x, y);
            !(0 <= end < old.len() && 0 <= y + end - x < new.len() && old[end] == new[y + end - x])
        }),
    decreases old.len() - x,
{
    if 0 <= x < old.len() && 0 <= y < new.len() && old[x] == new[y] {
        lemma_snake_maximal(old, new, x + 1, y + 1);
    }
}

/// An entry lies between its number of removals and that number plus the
/// length of the shorter text.
pub proof fn lemma_furthest_bounds(old: Seq<Seq<char>>, new: Seq<Seq<char>>, d: nat, t: nat)
    requires
        t <= d,
    ensures
        t <= snake_start(old, new, d, t) <= furthest(old, new, d, t),
        furthest(old, new, d, t) - t <= old.len(),
        furthest(old, new, d, t) - t <= new.len(),
    decreases d,
{
    let x = snake_start(old, new, d, t);
    lemma_snake_bounds(old, new, x, x + d - 2 * t);
    if d > 0 {
        if by_insertion(old, new, d, t) {
            lemma_furthest_bounds(old, new, (d - 1) as nat, t);
        } else {
            lemma_furthest_bounds(old, new, (d - 1) as nat, (t - 1) as nat);
        }
    }
}

/// A script may go on along the run of diagonal moves that starts where it
/// stands.
pub proof fn lemma_append_run(s: Seq<Step>, old: Seq<Seq<char>>, new: Seq<Seq<char>>, k: int)
    requires
        keeps_match(s, old, new),
        0 <= k <= snake(old, new, old_len(s) as int, new_len(s) as int) - old_len(s),
    ensures
        keeps_match(s + keeps(k), old, new),
    decreases k,
{
    if k > 0 {
        let p = s + keeps(k - 1);
        lemma_append_run(s, old, new, k - 1);
        assert(s + keeps(k) =~= p.push(Step::Keep));
        assert(p.push(Step::Keep).drop_last() =~= p);
        lemma_count_concat(s, keeps(k - 1), Step::Keep);
        lemma_count_concat(s, keeps(k - 1), Step::Remove);
        lemma_count_concat(s, keeps(k - 1), Step::Insert);
        lemma_count_keeps(k - 1, Step::Keep);
        lemma_count_keeps(k - 1, Step::Remove);
        lemma_count_keeps(k - 1, Step::Insert);
        lemma_snake_matches(
            old,
            new,
            old_len(s) as int,
            new_len(s) as int,
            old_len(s) + k - 1,
        );
    }
}

/// The path to an entry keeps only equal lines, has the entry's numbers of
/// removals and insertions, and ends at the entry.
pub proof fn lemma_furthest_script(old: Seq<Seq<char>>, new: Seq<Seq<char>>, d: nat, t: nat)
    requires
        t <= d,
    ensures
        keeps_match(furthest_script(old, new, d, t), old, new),
        count_of(furthest_script(old, new, d, t), Step::Remove) == t,
        count_of(furthest_script(old, new, d, t), Step::Insert) == d - t,
        count_of(furthest_script(old, new, d, t), Step::Keep) == furthest(old, new, d, t) - t,
    decreases d,
{
    let start = snake_start(old, new, d, t);
    let run = furthest(old, new, d, t) - start;
    lemma_furthest_bounds(old, new, d, t);
    let before: Seq<Step> = if d == 0 {
        Seq::empty()
    } else if by_insertion(old, new, d, t) {
        furthest_script(old, new, (d - 1) as nat, t).push(Step::Insert)
    } else {
        furthest_script(old, new, (d - 1) as nat, (t - 1) as nat).push(Step::Remove)
    };
    if d > 0 {
        let removed = if by_insertion(old, new, d, t) {
            t
        } else {
            (t - 1) as nat
        };
        lemma_furthest_script(old, new, (d - 1) as nat, removed);
        assert(before.drop_last() =~= furthest_script(old, new, (d - 1) as nat, removed));
    }
    lemma_append_run(before, old, new, run);
    lemma_count_concat(before, keeps(run), Step::Keep);
    lemma_count_concat(before, keeps(run), Step::Remove);
    lemma_count_concat(before, keeps(run), Step::Insert);
    lemma_count_keeps(run, Step::Keep);
    lemma_count_keeps(run, Step::Remove);
    lemma_count_keeps(run, Step::Insert);
}

/// No script with matching keeps comes further than the entry of its
/// numbers of changes and removals.
pub proof fn lemma_furthest_complete(s: Seq<Step>, old: Seq<Seq<char>>, new: Seq<Seq<char>>)
    requires
        keeps_match(s, old, new),
    ensures
        old_len(s) <= furthest(old, new, cost(s), count_of(s, Step::Remove)),
    decreases s.len(),
{
    let d = cost(s);
    let t = count_of(s, Step::Remove);
    let start = snake_start(old, new, d, t);
    lemma_snake_bounds(old, new, start, start + d - 2 * t);
    if s.len() > 0 {
        let p = s.drop_last();
        lemma_furthest_complete(p, old, new);
        match s.last() {
            Step::Keep => {
                lemma_snake_maximal(old, new, start, start + d - 2 * t);
            },
            Step::Remove => {},
            Step::Insert => {},
        }
    }
}

/// A script without the removals past the end of `old` and the insertions
/// past the end of `new`.
pub open spec fn clipped(s: Seq<Step>, old_lines: nat, new_lines: nat) -> Seq<Step>
    decreases s.len(),
{
    if s.len() == 0 {
        Seq::empty()
    } else {
        let p = s.drop_last();
        let rest = clipped(p, old_lines, new_lines);
        match s.last() {
            Step::Keep => rest.push(Step::Keep),
            Step::Remove => if old_len(p) < old_lines {
                rest.push(Step::Remove)
            } else {
                rest
            },
            Step::Insert => if new_len(p) < new_lines {
                rest.push(Step::Insert)
            } else {
                rest
            },
        }
    }
}

/// Clipping keeps the kept lines, and ends at the end of a text where the
/// script went past it.
pub proof fn lemma_clipped(s: Seq<Step>, old: Seq<Seq<char>>, new: Seq<Seq<char>>)
    requires
        keeps_match(s, old, new),
    ensures
        keeps_match(clipped(s, old.len(), new.len()), old, new),
        count_of(clipped(s, old.len(), new.len()), Step::Keep) == count_of(s, Step::Keep),
        old_len(clipped(s, old.len(), new.len())) == if old_len(s) <= old.len() {
            old_len(s)
        } else {
            old.len()
        },
        new_len(clipped(s, old.len(), new.len())) == if new_len(s) <= new.len() {
            new_len(s)
        } else {
            new.len()
        },
    decreases s.len(),
{
    if s.len() > 0 {
        let p = s.drop_last();
        let rest = clipped(p, old.len(), new.len());
        lemma_clipped(p, old, new);
        assert(rest.push(s.last()).drop_last() =~= rest);
    }
}

/// The search ends at the level of the edit distance: the entry on the
/// diagonal of the graph's last node is that node.
pub proof fn lemma_search_ends(old: Seq<Seq<char>>, new: Seq<Seq<char>>)
    ensures
        removals(old, new) <= edit_distance(old, new) <= old.len() + new.len(),
        furthest(old, new, edit_distance(old, new), removals(old, new)) == old.len(),
        old.len() + edit_distance(old, new) - 2 * removals(old, new) == new.len(),
{
    let d = edit_distance(old, new);
    let t = removals(old, new);
    let shortest = lcs_diff_script(old, new);
    lemma_lcs_script(old, new, old.len(), new.len());
    lemma_furthest_complete(shortest, old, new);
    let reached = furthest_script(old, new, d, t);
    lemma_furthest_script(old, new, d, t);
    lemma_clipped(reached, old, new);
    lemma_keeps_bounded(clipped(reached, old.len(), new.len()), old, new);
}

/// No level before that of the edit distance holds the graph's last node,
/// and the level of the edit distance holds it on one diagonal only.
pub proof fn lemma_search_not_earlier(old: Seq<Seq<char>>, new: Seq<Seq<char>>, d: nat, t: nat)
    requires
        t <= d,
        furthest(old, new, d, t) == old.len(),
        furthest(old, new, d, t) + d - 2 * t == new.len(),
    ensures
        edit_distance(old, new) <= d,
        d == edit_distance(old, new) ==> t == removals(old, new),
{
    lemma_furthest_script(old, new, d, t);
    lemma_edit_distance_minimal(furthest_script(old, new, d, t), old, new);
    lemma_lcs_len_bound(old, new, old.len(), new.len());
}

/// The first level holds the end of both texts exactly where the texts are
/// equal.
pub proof fn lemma_equal_texts(old: Seq<Seq<char>>, new: Seq<Seq<char>>)
    ensures
        old == new <==> furthest(old, new, 0, 0) == old.len() && old.len() == new.len(),
{
    if old == new {
        lemma_lcs_len_same(old, old.len());
        lemma_search_ends(old, new);
    }
    if furthest(old, new, 0, 0) == old.len() && old.len() == new.len() {
        assert forall|k: int| 0 <= k < old.len() implies old[k] == new[k] by {
            lemma_snake_matches(old, new, 0, 0, k);
        }
        assert(old =~= new);
    }
}

/// The script of the edit-graph engine turns `old` into `new`, at the cost
/// of the edit distance.
pub proof fn lemma_myers_script_transforms(old: Seq<Seq<char>>, new: Seq<Seq<char>>)
    ensures
        transforms(myers_script(old, new), old, new),
        cost(myers_script(old, new)) == edit_distance(old, new),
{
    lemma_search_ends(old, new);
    lemma_furthest_script(old, new, edit_distance(old, new), removals(old, new));
}

} // verus!
