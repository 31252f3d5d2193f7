use line_diff::algorithms::{lcs, myers, naive};
use line_diff::coalesce::coalesce;
use line_diff::script::{reversed, Step};
use line_diff::service::data_types::{DiffChunk, DiffType, FileDiff, LineChange};

fn lines(items: &[&str]) -> Vec<String> {
    items.iter().map(|s| s.to_string()).collect()
}

fn shape(diff: &FileDiff) -> Vec<(DiffType, Vec<(usize, String)>)> {
    diff.chunks
        .iter()
        .map(|chunk| {
            (
                chunk.diff_type,
                chunk.changes.iter().map(|c| (c.line_number, c.content.clone())).collect(),
            )
        })
        .collect()
}

fn chunk(kind: DiffType, items: &[(usize, &str)]) -> (DiffType, Vec<(usize, String)>) {
    (kind, items.iter().map(|(n, s)| (*n, s.to_string())).collect())
}

#[test]
fn new_diff_is_empty_and_labelled() {
    let diff = FileDiff::new("label".to_string());
    assert_eq!(diff.file_name, "label");
    assert!(diff.chunks.is_empty());
}

#[test]
fn add_chunk_appends_in_order() {
    let mut diff = FileDiff::new("label".to_string());
    diff.add_chunk(DiffChunk {
        diff_type: DiffType::Deletion,
        changes: vec![LineChange { line_number: 1, content: "a".to_string() }],
    });
    diff.add_chunk(DiffChunk {
        diff_type: DiffType::Addition,
        changes: vec![LineChange { line_number: 4, content: "b".to_string() }],
    });
    assert_eq!(diff.file_name, "label");
    assert_eq!(
        shape(&diff),
        vec![chunk(DiffType::Deletion, &[(1, "a")]), chunk(DiffType::Addition, &[(4, "b")])]
    );
}

#[test]
fn reversed_turns_the_order_round() {
    assert_eq!(reversed(&vec![]), vec![]);
    assert_eq!(
        reversed(&vec![Step::Keep, Step::Remove, Step::Insert, Step::Insert]),
        vec![Step::Insert, Step::Insert, Step::Remove, Step::Keep]
    );
}

#[test]
fn coalesce_groups_runs_between_kept_lines() {
    let old = lines(&["a", "b", "c", "d"]);
    let new = lines(&["a", "x", "y", "d", "e"]);
    let script = vec![
        Step::Keep,
        Step::Remove,
        Step::Remove,
        Step::Insert,
        Step::Insert,
        Step::Keep,
        Step::Insert,
    ];
    let diff = coalesce("n", &old, &new, &script).unwrap();
    assert_eq!(diff.file_name, "n");
    assert_eq!(
        shape(&diff),
        vec![
            chunk(DiffType::Modification, &[(2, "b"), (3, "c"), (2, "x"), (3, "y")]),
            chunk(DiffType::Addition, &[(5, "e")]),
        ]
    );
}

#[test]
fn coalesce_puts_removed_lines_first() {
    let old = lines(&["a"]);
    let new = lines(&["x"]);
    let diff = coalesce("n", &old, &new, &vec![Step::Insert, Step::Remove]).unwrap();
    assert_eq!(shape(&diff), vec![chunk(DiffType::Modification, &[(1, "a"), (1, "x")])]);
}

#[test]
fn coalesce_of_kept_lines_only_is_empty() {
    let text = lines(&["a", "b"]);
    assert!(coalesce("n", &text, &text, &vec![Step::Keep, Step::Keep]).unwrap().chunks.is_empty());
    assert!(coalesce("n", &text, &text, &vec![]).unwrap().chunks.is_empty());
}

#[test]
fn coalesce_refuses_a_script_that_leaves_a_text() {
    let text = lines(&["a"]);
    assert!(coalesce("n", &text, &text, &vec![Step::Keep, Step::Keep]).is_none());
    assert!(coalesce("n", &text, &text, &vec![Step::Remove, Step::Remove]).is_none());
    assert!(coalesce("n", &text, &text, &vec![Step::Insert, Step::Keep]).is_none());
    assert!(coalesce("n", &text, &text, &vec![Step::Insert, Step::Remove]).is_some());
}

#[test]
fn naive_marks_each_position() {
    let diff = naive::compare_files("n", &lines(&["a", "b", "c"]), &lines(&["a", "x"]));
    assert_eq!(
        shape(&diff),
        vec![
            chunk(DiffType::Modification, &[(2, "b"), (2, "x")]),
            chunk(DiffType::Deletion, &[(3, "c")]),
        ]
    );
    let diff = naive::compare_files("n", &lines(&[]), &lines(&["a", "b"]));
    assert_eq!(
        shape(&diff),
        vec![chunk(DiffType::Addition, &[(1, "a")]), chunk(DiffType::Addition, &[(2, "b")])]
    );
}

#[test]
fn empty_texts_have_no_chunks() {
    let none = lines(&[]);
    assert!(naive::compare_files("n", &none, &none).chunks.is_empty());
    assert!(lcs::compare_files("n", &none, &none).chunks.is_empty());
    assert!(myers::compare_files("n", &none, &none).unwrap().chunks.is_empty());
}

#[test]
fn lcs_takes_the_insertion_on_a_tie() {
    let diff = lcs::compare_files("n", &lines(&["a", "b"]), &lines(&["b", "a"]));
    assert_eq!(
        shape(&diff),
        vec![chunk(DiffType::Deletion, &[(1, "a")]), chunk(DiffType::Addition, &[(2, "a")])]
    );
}

#[test]
fn myers_takes_the_neighbour_that_came_further() {
    let diff = myers::compare_files("n", &lines(&["a", "b"]), &lines(&["b", "a"])).unwrap();
    assert_eq!(
        shape(&diff),
        vec![chunk(DiffType::Deletion, &[(1, "a")]), chunk(DiffType::Addition, &[(2, "a")])]
    );
}

#[test]
fn texts_without_a_common_line_are_one_modification() {
    let old = lines(&["a", "b"]);
    let new = lines(&["x", "y", "z"]);
    let expected =
        vec![chunk(DiffType::Modification, &[(1, "a"), (2, "b"), (1, "x"), (2, "y"), (3, "z")])];
    assert_eq!(shape(&lcs::compare_files("n", &old, &new)), expected);
    assert_eq!(shape(&myers::compare_files("n", &old, &new).unwrap()), expected);
}

#[test]
fn trailing_mismatch_is_reported_last() {
    let old = lines(&["a", "b", "c"]);
    let new = lines(&["a", "b", "d", "e"]);
    let expected = vec![chunk(DiffType::Modification, &[(3, "c"), (3, "d"), (4, "e")])];
    assert_eq!(shape(&lcs::compare_files("n", &old, &new)), expected);
    assert_eq!(shape(&myers::compare_files("n", &old, &new).unwrap()), expected);
}

#[test]
fn repeated_lines_are_matched_once_each() {
    let old = lines(&["a", "a", "a"]);
    let new = lines(&["a", "a"]);
    let lcs_diff = lcs::compare_files("n", &old, &new);
    let myers_diff = myers::compare_files("n", &old, &new).unwrap();
    assert_eq!(lcs_diff.chunks.len(), 1);
    assert_eq!(lcs_diff.chunks[0].diff_type, DiffType::Deletion);
    assert_eq!(lcs_diff.chunks[0].changes.len(), 1);
    assert_eq!(myers_diff.chunks.len(), 1);
    assert_eq!(myers_diff.chunks[0].diff_type, DiffType::Deletion);
    assert_eq!(myers_diff.chunks[0].changes.len(), 1);
}
