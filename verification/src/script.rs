//! Edit scripts: the model over which the engines' contracts are stated.
//!
//! A script is read from left to right beside the two texts. `Keep` passes
//! over one line of each, `Remove` over one old line, `Insert` over one new
//! line.

use vstd::prelude::*;

verus! {

/// One step of an edit script.
#[derive(Debug, Clone, Copy, PartialEq, Eq, Structural)]
pub enum Step {
    /// The next old line equals the next new line and is kept.
    Keep,
    /// The next old line is removed.
    Remove,
    /// The next new line is inserted.
    Insert,
}

/// How often `step` occurs in `s`.
pub open spec fn count_of(s: Seq<Step>, step: Step) -> nat
    decreases s.len(),
{
    if s.len() == 0 {
        0
    } else {
        count_of(s.drop_last(), step) + if s.last() == step { 1nat } else { 0nat }
    }
}

/// The number of old lines that `s` passes over.
pub open spec fn old_len(s: Seq<Step>) -> nat {
    count_of(s, Step::Keep) + count_of(s, Step::Remove)
}

/// The number of new lines that `s` passes over.
pub open spec fn new_len(s: Seq<Step>) -> nat {
    count_of(s, Step::Keep) + count_of(s, Step::Insert)
}

/// The number of removed and inserted lines of `s`.
pub open spec fn cost(s: Seq<Step>) -> nat {
    count_of(s, Step::Remove) + count_of(s, Step::Insert)
}

/// Every `Keep` of `s` stands on an old line and a new line that are equal.
pub open spec fn keeps_match(s: Seq<Step>, old: Seq<Seq<char>>, new: Seq<Seq<char>>) -> bool
    decreases s.len(),
{
    s.len() == 0 || {
        let p = s.drop_last();
        &&& keeps_match(p, old, new)
        &&& s.last() == Step::Keep ==> {
            &&& old_len(p) < old.len()
            &&& new_len(p) < new.len()
            &&& old[old_len(p) as int] == new[new_len(p) as int]
        }
    }
}

/// `s` turns `old` into `new`: it passes over all of both, keeping only
/// equal lines.
pub open spec fn transforms(s: Seq<Step>, old: Seq<Seq<char>>, new: Seq<Seq<char>>) -> bool {
    &&& keeps_match(s, old, new)
    &&& old_len(s) == old.len()
    &&& new_len(s) == new.len()
}

/// `n` times `Keep`.
pub open spec fn keeps(n: int) -> Seq<Step> {
    Seq::new(if n < 0 { 0nat } else { n as nat }, |i: int| Step::Keep)
}

/// Counting distributes over concatenation.
pub proof fn lemma_count_concat(a: Seq<Step>, b: Seq<Step>, step: Step)
    ensures
        count_of(a + b, step) == count_of(a, step) + count_of(b, step),
    decreases b.len(),
{
    if b.len() > 0 {
        assert((a + b).drop_last() =~= a + b.drop_last());
        lemma_count_concat(a, b.drop_last(), step);
    }
}

/// A prefix counts no more than the whole.
pub proof fn lemma_count_prefix(s: Seq<Step>, i: int, step: Step)
    requires
        0 <= i <= s.len(),
    ensures
        count_of(s.take(i), step) <= count_of(s, step),
{
    assert(s =~= s.take(i) + s.skip(i));
    lemma_count_concat(s.take(i), s.skip(i), step);
}

/// What a run of `Keep` counts.
pub proof fn lemma_count_keeps(n: int, step: Step)
    ensures
        count_of(keeps(n), step) == if step == Step::Keep && n > 0 { n as nat } else { 0nat },
    decreases n,
{
    if n > 0 {
        assert(keeps(n).drop_last() =~= keeps(n - 1));
        lemma_count_keeps(n - 1, step);
    }
}

/// The steps of `steps` in the opposite order.
pub fn reversed(steps: &Vec<Step>) -> (result: Vec<Step>)
    ensures
        result@ == steps@.reverse(),
{
    let mut result: Vec<Step> = Vec::new();
    let mut left: usize = steps.len();
    while left > 0
        invariant
            0 <= left <= steps.len(),
            result.len() == steps.len() - left,
            forall|k: int| 0 <= k < result.len() ==> result[k] == steps[steps.len() - 1 - k],
        decreases left,
    {
        left = left - 1;
        result.push(steps[left]);
    }
    result
}

} // verus!
