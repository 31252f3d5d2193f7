use line_diff::algorithms::{lcs, myers, naive, run, Algorithm};
use line_diff::error::DiffError;
use line_diff::selection::{read_answer, Choice};
use line_diff::service::data_types::FileDiff;

fn lines(items: &[&str]) -> Vec<String> {
    items.iter().map(|s| s.to_string()).collect()
}

fn shape(diff: &FileDiff) -> Vec<String> {
    diff.chunks
        .iter()
        .map(|chunk| {
            let changes: Vec<String> =
                chunk.changes.iter().map(|c| format!("{}:{}", c.line_number, c.content)).collect();
            format!("{:?} {}", chunk.diff_type, changes.join(","))
        })
        .collect()
}

#[test]
fn run_dispatches_by_name() {
    let old = lines(&["a", "b"]);
    let new = lines(&["x", "a", "b"]);
    let by_naive = run("naive", "f", &old, &new).unwrap();
    let by_lcs = run("lcs", "f", &old, &new).unwrap();
    let by_myers = run("myers", "f", &old, &new).unwrap();
    assert_eq!(by_naive.file_name, "f");
    assert_eq!(shape(&by_naive), shape(&naive::compare_files("f", &old, &new)));
    assert_eq!(shape(&by_lcs), shape(&lcs::compare_files("f", &old, &new)));
    assert_eq!(shape(&by_myers), shape(&myers::compare_files("f", &old, &new).unwrap()));
    assert_eq!(shape(&by_naive).len(), 3);
    assert_eq!(shape(&by_lcs), vec!["Addition 1:x".to_string()]);
    assert_eq!(shape(&by_myers), vec!["Addition 1:x".to_string()]);
}

#[test]
fn run_refuses_unknown_names() {
    let text = lines(&["a"]);
    for name in ["", "patience", "Naive", "lcs ", "0", "myers2"] {
        match run(name, "f", &text, &text) {
            Err(error) => assert_eq!(error, DiffError::UnknownAlgorithm),
            Ok(_) => panic!("{name} was taken for an engine"),
        }
    }
}

#[test]
fn engines_go_by_their_names() {
    assert_eq!(Algorithm::by_name("naive"), Some(Algorithm::Naive));
    assert_eq!(Algorithm::by_name("lcs"), Some(Algorithm::Lcs));
    assert_eq!(Algorithm::by_name("myers"), Some(Algorithm::Myers));
    assert_eq!(Algorithm::by_name("patience"), None);
    assert_eq!(Algorithm::by_name("nai"), None);
}

#[test]
fn compare_runs_the_chosen_engine() {
    let old = lines(&["a", "b", "c"]);
    let new = lines(&["a", "x", "c"]);
    for algorithm in [Algorithm::Naive, Algorithm::Lcs, Algorithm::Myers] {
        let diff = algorithm.compare("f", &old, &new).unwrap();
        assert_eq!(shape(&diff), vec!["Modification 2:b,2:x".to_string()]);
    }
}

#[test]
fn menu_answers_are_read() {
    assert_eq!(read_answer("0"), Choice::Run(Algorithm::Naive));
    assert_eq!(read_answer("1"), Choice::Run(Algorithm::Lcs));
    assert_eq!(read_answer("2"), Choice::Run(Algorithm::Myers));
    assert_eq!(read_answer("3"), Choice::NotImplemented);
    assert_eq!(read_answer("x"), Choice::Exit);
    for answer in ["", "4", "X", "naive", "0 ", "00"] {
        assert_eq!(read_answer(answer), Choice::Invalid);
    }
}
