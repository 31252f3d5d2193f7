use line_diff::algorithms::{lcs, myers, naive};
use line_diff::service::data_types::{DiffType, FileDiff};

fn lines(items: &[&str]) -> Vec<String> {
    items.iter().map(|s| s.to_string()).collect()
}

/// Every text of up to `longest` lines over the letters `a` and `b`.
fn small_texts(longest: usize) -> Vec<Vec<String>> {
    let mut all: Vec<Vec<String>> = vec![Vec::new()];
    let mut from = 0;
    for _ in 0..longest {
        let upto = all.len();
        for i in from..upto {
            for letter in ["a", "b"] {
                let mut text = all[i].clone();
                text.push(letter.to_string());
                all.push(text);
            }
        }
        from = upto;
    }
    all
}

/// Texts of up to eight lines over three letters, from a fixed generator.
fn sample_texts(count: usize) -> Vec<Vec<String>> {
    let mut state: u64 = 0x2545_f491_4f6c_dd1d;
    let mut next = move || {
        state ^= state << 13;
        state ^= state >> 7;
        state ^= state << 17;
        state
    };
    let mut all = Vec::new();
    for _ in 0..count {
        let len = (next() % 9) as usize;
        let mut text = Vec::new();
        for _ in 0..len {
            text.push(["a", "b", "c"][(next() % 3) as usize].to_string());
        }
        all.push(text);
    }
    all
}

/// Reads the chunks against the old text, as a consumer would, and returns
/// the text they make and whether any two neighbours touch.
fn apply(diff: &FileDiff, old: &[String]) -> (Vec<String>, bool) {
    let mut out: Vec<String> = Vec::new();
    let mut x = 0usize;
    let mut touching = false;
    for (index, chunk) in diff.chunks.iter().enumerate() {
        let first = chunk.changes[0].line_number - 1;
        let gap = match chunk.diff_type {
            DiffType::Addition => first - out.len(),
            _ => first - x,
        };
        if index > 0 && gap == 0 {
            touching = true;
        }
        out.extend_from_slice(&old[x..x + gap]);
        x += gap;
        let added = match chunk.diff_type {
            DiffType::Deletion => 0,
            DiffType::Addition => chunk.changes.len(),
            DiffType::Modification => chunk.changes.last().unwrap().line_number - out.len(),
        };
        let removed = chunk.changes.len() - added;
        for (k, change) in chunk.changes[..removed].iter().enumerate() {
            assert_eq!(change.line_number, x + k + 1);
            assert_eq!(change.content, old[x + k]);
        }
        x += removed;
        for change in &chunk.changes[removed..] {
            assert_eq!(change.line_number, out.len() + 1);
            out.push(change.content.clone());
        }
    }
    out.extend_from_slice(&old[x..]);
    (out, touching)
}

fn changed(diff: &FileDiff) -> usize {
    diff.chunks.iter().map(|c| c.changes.len()).sum()
}

/// The least number of removed and inserted lines, by trying every way.
fn least_changes(old: &[String], new: &[String]) -> usize {
    if old.is_empty() {
        return new.len();
    }
    if new.is_empty() {
        return old.len();
    }
    let mut best = 1 + least_changes(&old[1..], new);
    best = best.min(1 + least_changes(old, &new[1..]));
    if old[0] == new[0] {
        best = best.min(least_changes(&old[1..], &new[1..]));
    }
    best
}

#[test]
fn equal_texts_have_no_chunks() {
    for text in small_texts(5) {
        assert!(naive::compare_files("t", &text, &text).chunks.is_empty());
        assert!(lcs::compare_files("t", &text, &text).chunks.is_empty());
        assert!(myers::compare_files("t", &text, &text).unwrap().chunks.is_empty());
    }
}

#[test]
fn chunks_applied_to_old_give_new_for_small_texts() {
    let texts = small_texts(4);
    for old in &texts {
        for new in &texts {
            assert_eq!(&apply(&naive::compare_files("t", old, new), old).0, new);
            assert_eq!(&apply(&lcs::compare_files("t", old, new), old).0, new);
            assert_eq!(&apply(&myers::compare_files("t", old, new).unwrap(), old).0, new);
        }
    }
}

#[test]
fn chunks_applied_to_old_give_new_for_sampled_texts() {
    let texts = sample_texts(40);
    for old in &texts {
        for new in &texts {
            assert_eq!(&apply(&naive::compare_files("t", old, new), old).0, new);
            assert_eq!(&apply(&lcs::compare_files("t", old, new), old).0, new);
            assert_eq!(&apply(&myers::compare_files("t", old, new).unwrap(), old).0, new);
        }
    }
}

#[test]
fn lcs_and_myers_change_as_few_lines_as_possible() {
    let texts = sample_texts(30);
    for old in &texts {
        for new in &texts {
            let least = least_changes(old, new);
            assert_eq!(changed(&lcs::compare_files("t", old, new)), least);
            assert_eq!(changed(&myers::compare_files("t", old, new).unwrap()), least);
        }
    }
}

#[test]
fn lcs_and_myers_change_as_few_lines_as_possible_for_small_texts() {
    let texts = small_texts(4);
    for old in &texts {
        for new in &texts {
            let least = least_changes(old, new);
            assert_eq!(changed(&lcs::compare_files("t", old, new)), least);
            assert_eq!(changed(&myers::compare_files("t", old, new).unwrap()), least);
        }
    }
}

#[test]
fn neighbouring_chunks_of_lcs_and_myers_never_touch() {
    let texts = sample_texts(40);
    for old in &texts {
        for new in &texts {
            assert!(!apply(&lcs::compare_files("t", old, new), old).1);
            assert!(!apply(&myers::compare_files("t", old, new).unwrap(), old).1);
        }
    }
}

#[test]
fn same_kind_neighbours_are_parted_by_an_unchanged_line() {
    let old = lines(&["a", "b", "c"]);
    let new = lines(&["b"]);
    let by_lcs = lcs::compare_files("t", &old, &new);
    let by_myers = myers::compare_files("t", &old, &new).unwrap();
    for diff in [by_lcs, by_myers] {
        assert_eq!(diff.chunks.len(), 2);
        assert_eq!(diff.chunks[0].diff_type, DiffType::Deletion);
        assert_eq!(diff.chunks[0].changes[0].line_number, 1);
        assert_eq!(diff.chunks[0].changes[0].content, "a");
        assert_eq!(diff.chunks[1].diff_type, DiffType::Deletion);
        assert_eq!(diff.chunks[1].changes[0].line_number, 3);
        assert_eq!(diff.chunks[1].changes[0].content, "c");
    }
}

#[test]
fn naive_kinds_alternate_with_one_mismatch_and_one_line_more() {
    let diff = naive::compare_files("t", &lines(&["a", "b"]), &lines(&["a", "x", "c"]));
    assert_eq!(diff.chunks.len(), 2);
    assert_eq!(diff.chunks[0].diff_type, DiffType::Modification);
    assert_eq!(diff.chunks[1].diff_type, DiffType::Addition);
}

#[test]
fn naive_merges_nothing() {
    let diff = naive::compare_files("t", &lines(&["a", "b"]), &lines(&["x", "y"]));
    assert_eq!(diff.chunks.len(), 2);
    assert_eq!(diff.chunks[0].diff_type, DiffType::Modification);
    assert_eq!(diff.chunks[1].diff_type, DiffType::Modification);
    let diff = naive::compare_files("t", &lines(&["a", "b"]), &lines(&[]));
    assert_eq!(diff.chunks.len(), 2);
    assert_eq!(diff.chunks[0].diff_type, DiffType::Deletion);
    assert_eq!(diff.chunks[0].changes.len(), 1);
    assert_eq!(diff.chunks[1].diff_type, DiffType::Deletion);
    assert_eq!(diff.chunks[1].changes[0].line_number, 2);
}
