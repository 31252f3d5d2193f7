use line_diff::algorithms::{lcs, myers, naive};
use line_diff::service::data_types::{DiffChunk, DiffType, FileDiff};

fn lines(items: &[&str]) -> Vec<String> {
    items.iter().map(|s| s.to_string()).collect()
}

fn changes(chunk: &DiffChunk) -> Vec<(usize, String)> {
    chunk.changes.iter().map(|c| (c.line_number, c.content.clone())).collect()
}

fn pairs(items: &[(usize, &str)]) -> Vec<(usize, String)> {
    items.iter().map(|(n, s)| (*n, s.to_string())).collect()
}

fn both(old: &[&str], new: &[&str]) -> Vec<FileDiff> {
    let old = lines(old);
    let new = lines(new);
    vec![
        lcs::compare_files("new.txt", &old, &new),
        myers::compare_files("new.txt", &old, &new).unwrap(),
    ]
}

#[test]
fn all_additions_form_one_chunk() {
    for diff in both(&[], &["a", "b"]) {
        assert_eq!(diff.file_name, "new.txt");
        assert_eq!(diff.chunks.len(), 1);
        assert_eq!(diff.chunks[0].diff_type, DiffType::Addition);
        assert_eq!(changes(&diff.chunks[0]), pairs(&[(1, "a"), (2, "b")]));
    }
}

#[test]
fn all_deletions_form_one_chunk() {
    for diff in both(&["a", "b"], &[]) {
        assert_eq!(diff.chunks.len(), 1);
        assert_eq!(diff.chunks[0].diff_type, DiffType::Deletion);
        assert_eq!(changes(&diff.chunks[0]), pairs(&[(1, "a"), (2, "b")]));
    }
}

#[test]
fn single_substitution_is_one_modification() {
    for diff in both(&["a", "b", "c"], &["a", "x", "c"]) {
        assert_eq!(diff.chunks.len(), 1);
        assert_eq!(diff.chunks[0].diff_type, DiffType::Modification);
        assert_eq!(changes(&diff.chunks[0]), pairs(&[(2, "b"), (2, "x")]));
    }
}

#[test]
fn inserted_first_line_naive_against_the_others() {
    let old = lines(&["a", "b"]);
    let new = lines(&["x", "a", "b"]);
    let naive_diff = naive::compare_files("new.txt", &old, &new);
    assert_eq!(naive_diff.chunks.len(), 3);
    assert_eq!(naive_diff.chunks[0].diff_type, DiffType::Modification);
    assert_eq!(changes(&naive_diff.chunks[0]), pairs(&[(1, "a"), (1, "x")]));
    assert_eq!(naive_diff.chunks[1].diff_type, DiffType::Modification);
    assert_eq!(changes(&naive_diff.chunks[1]), pairs(&[(2, "b"), (2, "a")]));
    assert_eq!(naive_diff.chunks[2].diff_type, DiffType::Addition);
    assert_eq!(changes(&naive_diff.chunks[2]), pairs(&[(3, "b")]));
    for diff in both(&["a", "b"], &["x", "a", "b"]) {
        assert_eq!(diff.chunks.len(), 1);
        assert_eq!(diff.chunks[0].diff_type, DiffType::Addition);
        assert_eq!(changes(&diff.chunks[0]), pairs(&[(1, "x")]));
    }
}
