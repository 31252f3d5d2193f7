//! The edit-graph engine: a breadth-first search for a shortest path through
//! the edit graph, level by level, then a walk back along the levels.
//!
//! A node `(x, y)` of the graph stands for `x` old lines and `y` new lines
//! passed over. A removal leads from `(x, y)` to `(x + 1, y)`, an insertion
//! to `(x, y + 1)`; where old line `x` equals new line `y`, a free diagonal
//! move leads to `(x + 1, y + 1)`. After `d` changes of which `t` are
//! removals a path stands on the diagonal `x - y == 2 * t - d`, so a level
//! `d` holds one entry for each `t` from `0` to `d`.

use vstd::prelude::*;
use crate::algorithms::lcs::{edit_distance, lcs_len, lemma_shortest_script_chunks};
use crate::algorithms::myers_proof::{
    lemma_equal_texts, lemma_furthest_bounds, lemma_myers_script_transforms, lemma_search_ends,
    lemma_search_not_earlier,
};
use crate::apply::{apply_chunks, changed_lines, describes, separated};
use crate::coalesce::{chunks_of, coalesce};
use crate::error::DiffError;
use crate::script::{Step, cost, keeps, reversed, transforms};
use crate::service::data_types::FileDiff;
use crate::service::report::reportable;

verus! {

/// Where the longest run of diagonal moves from `(x, y)` ends: its `x`.
pub open spec fn snake(old: Seq<Seq<char>>, new: Seq<Seq<char>>, x: int, y: int) -> int
    decreases old.len() - x,
{
    if 0 <= x < old.len() && 0 <= y < new.len() && old[x] == new[y] {
        snake(old, new, x + 1, y + 1)
    } else {
        x
    }
}

/// Whether the last change on the way to entry `t` of level `d` is an
/// insertion. The lowest entry has no other way and the highest has only the
/// removal; between them the neighbour that has come further is taken, and
/// the removal where both have come equally far.
pub open spec fn by_insertion(old: Seq<Seq<char>>, new: Seq<Seq<char>>, d: nat, t: nat) -> bool
    decreases d, 0nat,
{
    d > 0 && (t == 0 || (t != d && furthest(old, new, (d - 1) as nat, (t - 1) as nat) < furthest(
        old,
        new,
        (d - 1) as nat,
        t,
    )))
}

/// The `x` at which the path to entry `t` of level `d` stands after its
/// last change.
pub open spec fn snake_start(old: Seq<Seq<char>>, new: Seq<Seq<char>>, d: nat, t: nat) -> int
    decreases d, 1nat,
{
    if d == 0 {
        0
    } else if by_insertion(old, new, d, t) {
        furthest(old, new, (d - 1) as nat, t)
    } else {
        furthest(old, new, (d - 1) as nat, (t - 1) as nat) + 1
    }
}

/// Entry `t` of level `d`: the furthest `x` that a path of `t` removals and
/// `d - t` insertions reaches.
pub open spec fn furthest(old: Seq<Seq<char>>, new: Seq<Seq<char>>, d: nat, t: nat) -> int
    decreases d, 2nat,
{
    let x = snake_start(old, new, d, t);
    snake(old, new, x, x + d - 2 * t)
}

/// The path to entry `t` of level `d`, as a script.
pub open spec fn furthest_script(old: Seq<Seq<char>>, new: Seq<Seq<char>>, d: nat, t: nat) -> Seq<
    Step,
>
    decreases d,
{
    let run = keeps(furthest(old, new, d, t) - snake_start(old, new, d, t));
    if d == 0 {
        run
    } else if by_insertion(old, new, d, t) {
        furthest_script(old, new, (d - 1) as nat, t).push(Step::Insert) + run
    } else {
        furthest_script(old, new, (d - 1) as nat, (t - 1) as nat).push(Step::Remove) + run
    }
}

/// The number of removals in a shortest script from `old` to `new`.
pub open spec fn removals(old: Seq<Seq<char>>, new: Seq<Seq<char>>) -> nat {
    (old.len() - lcs_len(old, new, old.len(), new.len())) as nat
}

/// The script of this engine: the furthest path at the level of the edit
/// distance, on the diagonal of the graph's last node.
pub open spec fn myers_script(old: Seq<Seq<char>>, new: Seq<Seq<char>>) -> Seq<Step> {
    furthest_script(old, new, edit_distance(old, new), removals(old, new))
}

/// The texts that the search takes whatever they hold: those for which the
/// furthest points of every level fit the machine's integers.
pub open spec fn searchable(old_lines: nat, new_lines: nat) -> bool {
    old_lines + new_lines <= usize::MAX / 2
}

/// The levels below `count` are complete: level `d` holds entries `0` to `d`.
spec fn levels_hold(
    trace: Seq<Vec<usize>>,
    old: Seq<Seq<char>>,
    new: Seq<Seq<char>>,
    count: int,
) -> bool {
    &&& trace.len() == count
    &&& forall|d: int| 0 <= d < count ==> (#[trigger] trace[d]).len() == d + 1
    &&& forall|d: int, t: int|
        0 <= t <= d < count ==> #[trigger] trace[d][t] == furthest(old, new, d as nat, t as nat)
}

/// Whether entry `t` of level `d` is the graph's last node.
spec fn at_end(old: Seq<Seq<char>>, new: Seq<Seq<char>>, d: nat, t: nat) -> bool {
    &&& furthest(old, new, d, t) == old.len()
    &&& furthest(old, new, d, t) + d - 2 * t == new.len()
}

/// Follows the diagonal from `(x, y)` as far as the lines are equal.
fn follow_snake(old: &Vec<String>, new: &Vec<String>, x: usize, y: usize) -> (end: usize)
    ensures
        end == snake(old.deep_view(), new.deep_view(), x as int, y as int),
{
    let ghost o = old.deep_view();
    let ghost n = new.deep_view();
    let mut i = x;
    let mut j = y;
    while i < old.len() && j < new.len() && old[i] == new[j]
        invariant
            o == old.deep_view(),
            n == new.deep_view(),
            snake(o, n, i as int, j as int) == snake(o, n, x as int, y as int),
        decreases old.len() - i,
    {
        i = i + 1;
        j = j + 1;
    }
    i
}

/// Whether the way to entry `t` of level `d` ends with an insertion, read
/// from the level before.
fn comes_by_insertion(trace: &Vec<Vec<usize>>, d: usize, t: usize) -> (insertion: bool)
    requires
        0 < d <= trace.len(),
        t <= d,
        trace[d - 1].len() == d,
    ensures
        insertion == (t == 0 || (t != d && trace[d - 1][t - 1] < trace[d - 1][t as int])),
{
    t == 0 || (t != d && trace[d - 1][t - 1] < trace[d - 1][t])
}

/// Appends `count` times `Keep`.
fn push_keeps(steps: &mut Vec<Step>, count: usize)
    ensures
        final(steps)@ == old(steps)@ + keeps(count as int),
{
    let ghost before = steps@;
    let mut done: usize = 0;
    while done < count
        invariant
            0 <= done <= count,
            steps@ == before + keeps(done as int),
        decreases count - done,
    {
        steps.push(Step::Keep);
        done = done + 1;
    }
}

/// Walks back from entry `t` of level `d`, which stands at `x`, through the
/// levels before it, and returns the path to the entry.
fn walk_back(
    trace: &Vec<Vec<usize>>,
    d: usize,
    t: usize,
    x: usize,
    Ghost(o): Ghost<Seq<Seq<char>>>,
    Ghost(n): Ghost<Seq<Seq<char>>>,
) -> (script: Vec<Step>)
    requires
        levels_hold(trace@, o, n, d as int),
        t <= d,
        x == furthest(o, n, d as nat, t as nat),
    ensures
        script@ == furthest_script(o, n, d as nat, t as nat),
{
    let ghost whole = furthest_script(o, n, d as nat, t as nat);
    let ghost tail = Seq::<Step>::empty();
    let mut backwards: Vec<Step> = Vec::new();
    let mut level = d;
    let mut removed = t;
    let mut x = x;
    while level > 0
        invariant
            levels_hold(trace@, o, n, d as int),
            removed <= level <= d,
            x == furthest(o, n, level as nat, removed as nat),
            whole == furthest_script(o, n, level as nat, removed as nat) + tail,
            backwards@ == tail.reverse(),
        decreases level,
    {
        proof {
            lemma_furthest_bounds(o, n, level as nat, removed as nat);
        }
        let ghost run = keeps(x - snake_start(o, n, level as nat, removed as nat));
        let insertion = comes_by_insertion(trace, level, removed);
        let previous = &trace[level - 1];
        let step;
        let start;
        if insertion {
            start = previous[removed];
            step = Step::Insert;
        } else {
            start = previous[removed - 1] + 1;
            step = Step::Remove;
        }
        push_keeps(&mut backwards, x - start);
        backwards.push(step);
        if insertion {
            x = start;
        } else {
            x = start - 1;
            removed = removed - 1;
        }
        level = level - 1;
        proof {
            tail = seq![step] + run + tail;
        }
    }
    push_keeps(&mut backwards, x);
    reversed(&backwards)
}

/// Compares `old` and `new` by a search through the edit graph. The chunks
/// are those of a shortest script from `old` to `new`: the furthest path at
/// the first level that reaches the end of both texts.
///
/// The search always reaches the end of both texts. Equal texts of any
/// length are taken and have no chunks. `NoScriptFound` comes only for
/// texts that differ and are so long that the search beyond its first level
/// is not begun, and no other error comes. The chunks tell how `old` becomes
/// `new`: applied to `old` they give `new`. Between any two of them lies an
/// unchanged line, and no script from `old` to `new` changes fewer lines than
/// they hold.
pub fn compare_files(file_name: &str, old: &Vec<String>, new: &Vec<String>) -> (result: Result<
    FileDiff,
    DiffError,
>)
    ensures
        result is Ok <==> searchable(old.len() as nat, new.len() as nat) || old.deep_view()
            == new.deep_view(),
        result is Err ==> result == Err::<FileDiff, DiffError>(DiffError::NoScriptFound),
        old.deep_view() == new.deep_view() ==> result is Ok && result->Ok_0@.chunks.len() == 0,
        result is Ok ==> {
            &&& result->Ok_0@.file_name == file_name@
            &&& result->Ok_0@.chunks == chunks_of(
                myers_script(old.deep_view(), new.deep_view()),
                old.deep_view(),
                new.deep_view(),
            )
            &&& describes(result->Ok_0@.chunks, old.deep_view(), new.deep_view())
            &&& apply_chunks(result->Ok_0@.chunks, old.deep_view()) == new.deep_view()
            &&& separated(result->Ok_0@.chunks)
            &&& changed_lines(result->Ok_0@.chunks) == edit_distance(
                old.deep_view(),
                new.deep_view(),
            )
            &&& forall|other: Seq<Step>| #[trigger]
                transforms(other, old.deep_view(), new.deep_view()) ==> changed_lines(
                    result->Ok_0@.chunks,
                ) <= cost(other)
            &&& reportable(result->Ok_0@.chunks, new.len() as nat)
        },
{
    let ghost o = old.deep_view();
    let ghost n = new.deep_view();
    let ghost distance = edit_distance(o, n);
    let old_lines = old.len();
    let new_lines = new.len();
    let mut trace: Vec<Vec<usize>> = Vec::new();
    // The first level is the common beginning of both texts. It needs no
    // arithmetic, so equal texts of any length end here.
    let first = follow_snake(old, new, 0, 0);
    proof {
        lemma_equal_texts(o, n);
        lemma_search_ends(o, n);
    }
    if first == old_lines && first == new_lines {
        proof {
            lemma_search_not_earlier(o, n, 0, 0);
            lemma_myers_script_transforms(o, n);
            lemma_shortest_script_chunks(myers_script(o, n), o, n);
        }
        let script = walk_back(&trace, 0, 0, first, Ghost(o), Ghost(n));
        return Ok(coalesce(file_name, old, new, &script).unwrap());
    }
    if old_lines > usize::MAX / 2 || new_lines > usize::MAX / 2 - old_lines {
        return Err(DiffError::NoScriptFound);
    }
    let max = old_lines + new_lines;
    let mut level: Vec<usize> = Vec::new();
    level.push(first);
    trace.push(level);
    let mut d: usize = 1;
    while d <= max
        invariant
            1 <= d,
            o == old.deep_view(),
            n == new.deep_view(),
            old_lines == old.len(),
            new_lines == new.len(),
            max == old_lines + new_lines,
            max <= usize::MAX / 2,
            distance == edit_distance(o, n),
            d <= distance <= max,
            levels_hold(trace@, o, n, d as int),
        decreases max + 1 - d,
    {
        let mut level: Vec<usize> = Vec::new();
        let mut t: usize = 0;
        while t <= d
            invariant
                o == old.deep_view(),
                n == new.deep_view(),
                old_lines == old.len(),
                new_lines == new.len(),
                max == old_lines + new_lines,
                max <= usize::MAX / 2,
                distance == edit_distance(o, n),
                d <= distance <= max,
                levels_hold(trace@, o, n, d as int),
                1 <= d,
                0 <= t <= d + 1,
                level.len() == t,
                forall|k: int|
                    0 <= k < t ==> #[trigger] level[k] == furthest(o, n, d as nat, k as nat),
                forall|k: nat| k < t ==> !#[trigger] at_end(o, n, d as nat, k),
            decreases d + 1 - t,
        {
            proof {
                lemma_furthest_bounds(o, n, d as nat, t as nat);
            }
            let start = if comes_by_insertion(&trace, d, t) {
                trace[d - 1][t]
            } else {
                trace[d - 1][t - 1] + 1
            };
            let x = follow_snake(old, new, start, (start - t) + (d - t));
            let y = (x - t) + (d - t);
            if x == old_lines && y == new_lines {
                proof {
                    lemma_search_not_earlier(o, n, d as nat, t as nat);
                    lemma_myers_script_transforms(o, n);
                    lemma_shortest_script_chunks(myers_script(o, n), o, n);
                }
                let script = walk_back(&trace, d, t, x, Ghost(o), Ghost(n));
                return Ok(coalesce(file_name, old, new, &script).unwrap());
            }
            level.push(x);
            t = t + 1;
        }
        proof {
            if d == distance {
                lemma_search_ends(o, n);
                assert(at_end(o, n, d as nat, removals(o, n)));
            }
        }
        trace.push(level);
        d = d + 1;
    }
    // Never reached: the level of the edit distance lies within `max` and
    // holds the end of both texts.
    Err(DiffError::NoScriptFound)
}

} // verus!
