use line_diff::algorithms::{lcs, myers};
use line_diff::coalesce::coalesce;
use line_diff::script::Step;
use line_diff::service::data_types::{DiffType, FileDiff};

/// Every text of up to `longest` lines over the letters `a` and `b`.
fn small_texts(longest: usize) -> Vec<Vec<String>> {
    let mut all: Vec<Vec<String>> = vec![Vec::new()];
    let mut from = 0;
    for _ in 0..longest {
        let upto = all.len();
        for i in from..upto {
            for letter in ["a", "b"] {
                let mut text = all[i].clone();
                text.push(letter.to_string());
                all.push(text);
            }
        }
        from = upto;
    }
    all
}

/// Texts of up to twelve lines over four letters, from a fixed generator.
fn sample_texts(count: usize) -> Vec<Vec<String>> {
    let mut state: u64 = 0x9e37_79b9_7f4a_7c15;
    let mut next = move || {
        state ^= state << 13;
        state ^= state >> 7;
        state ^= state << 17;
        state
    };
    let mut all = Vec::new();
    for _ in 0..count {
        let len = (next() % 13) as usize;
        let mut text = Vec::new();
        for _ in 0..len {
            text.push(["a", "b", "c", "d"][(next() % 4) as usize].to_string());
        }
        all.push(text);
    }
    all
}

type Shape = Vec<(DiffType, Vec<(usize, String)>)>;

fn shape(diff: &FileDiff) -> Shape {
    diff.chunks
        .iter()
        .map(|chunk| {
            (
                chunk.diff_type,
                chunk.changes.iter().map(|c| (c.line_number, c.content.clone())).collect(),
            )
        })
        .collect()
}

/// Groups a script of `K`, `R` and `I` into chunks by hand.
fn chunks_by_hand(ops: &[char], old: &[String], new: &[String]) -> Shape {
    let mut chunks: Shape = Vec::new();
    let mut removed: Vec<(usize, String)> = Vec::new();
    let mut added: Vec<(usize, String)> = Vec::new();
    let (mut x, mut y) = (0, 0);
    let mut close = |removed: &mut Vec<(usize, String)>, added: &mut Vec<(usize, String)>| {
        if removed.is_empty() && added.is_empty() {
            return;
        }
        let kind = if added.is_empty() {
            DiffType::Deletion
        } else if removed.is_empty() {
            DiffType::Addition
        } else {
            DiffType::Modification
        };
        let mut changes = std::mem::take(removed);
        changes.append(added);
        chunks.push((kind, changes));
    };
    for op in ops {
        match op {
            'K' => {
                assert_eq!(old[x], new[y]);
                close(&mut removed, &mut added);
                x += 1;
                y += 1;
            }
            'R' => {
                removed.push((x + 1, old[x].clone()));
                x += 1;
            }
            _ => {
                added.push((y + 1, new[y].clone()));
                y += 1;
            }
        }
    }
    close(&mut removed, &mut added);
    assert_eq!((x, y), (old.len(), new.len()));
    chunks
}

/// The table and the walk back of the longest-common-subsequence engine,
/// written out plainly.
fn lcs_by_hand(old: &[String], new: &[String]) -> Vec<char> {
    let (m, n) = (old.len(), new.len());
    let mut dp = vec![vec![0usize; n + 1]; m + 1];
    for i in 1..=m {
        for j in 1..=n {
            dp[i][j] = if old[i - 1] == new[j - 1] {
                dp[i - 1][j - 1] + 1
            } else {
                dp[i - 1][j].max(dp[i][j - 1])
            };
        }
    }
    let (mut i, mut j) = (m, n);
    let mut ops = Vec::new();
    while i > 0 || j > 0 {
        if i == 0 {
            ops.push('I');
            j -= 1;
        } else if j == 0 {
            ops.push('R');
            i -= 1;
        } else if dp[i][j] != dp[i - 1][j].max(dp[i][j - 1]) {
            ops.push('K');
            i -= 1;
            j -= 1;
        } else if dp[i][j - 1] < dp[i - 1][j] {
            ops.push('R');
            i -= 1;
        } else {
            ops.push('I');
            j -= 1;
        }
    }
    ops.reverse();
    ops
}

/// The edit-graph search with one array per level, indexed by the diagonal
/// `k = x - y`, and the walk back through the levels.
fn myers_by_hand(old: &[String], new: &[String]) -> Vec<char> {
    let (m, n) = (old.len() as isize, new.len() as isize);
    let max = m + n;
    let at = |k: isize| (k + max + 1) as usize;
    let mut levels: Vec<Vec<isize>> = Vec::new();
    let mut v = vec![0isize; (2 * max + 3) as usize];
    let mut found = None;
    'search: for d in 0..=max {
        let before = v.clone();
        let mut k = -d;
        while k <= d {
            let mut x = if d == 0 {
                0
            } else if k == -d || (k != d && before[at(k - 1)] < before[at(k + 1)]) {
                before[at(k + 1)]
            } else {
                before[at(k - 1)] + 1
            };
            let mut y = x - k;
            while x < m && y < n && old[x as usize] == new[y as usize] {
                x += 1;
                y += 1;
            }
            v[at(k)] = x;
            if x == m && y == n {
                found = Some(d);
                break 'search;
            }
            k += 2;
        }
        levels.push(v.clone());
    }
    let mut ops = Vec::new();
    let (mut x, mut y) = (m, n);
    let mut d = found.unwrap();
    while d > 0 {
        let k = x - y;
        let before = &levels[(d - 1) as usize];
        let insertion = k == -d || (k != d && before[at(k - 1)] < before[at(k + 1)]);
        let (from_x, from_y) = if insertion {
            (before[at(k + 1)], before[at(k + 1)] - (k + 1))
        } else {
            (before[at(k - 1)], before[at(k - 1)] - (k - 1))
        };
        let start_x = if insertion { from_x } else { from_x + 1 };
        while x > start_x {
            ops.push('K');
            x -= 1;
            y -= 1;
        }
        ops.push(if insertion { 'I' } else { 'R' });
        x = from_x;
        y = from_y;
        d -= 1;
    }
    while x > 0 {
        ops.push('K');
        x -= 1;
        y -= 1;
    }
    assert_eq!(y, 0);
    ops.reverse();
    ops
}

fn pairs() -> Vec<(Vec<String>, Vec<String>)> {
    let mut all = Vec::new();
    let small = small_texts(4);
    for old in &small {
        for new in &small {
            all.push((old.clone(), new.clone()));
        }
    }
    let sampled = sample_texts(40);
    for old in &sampled {
        for new in &sampled {
            all.push((old.clone(), new.clone()));
        }
    }
    all
}

#[test]
fn lcs_engine_agrees_with_the_table_walked_by_hand() {
    for (old, new) in pairs() {
        let expected = chunks_by_hand(&lcs_by_hand(&old, &new), &old, &new);
        assert_eq!(shape(&lcs::compare_files("t", &old, &new)), expected);
    }
}

#[test]
fn myers_engine_agrees_with_the_search_by_diagonals() {
    for (old, new) in pairs() {
        let expected = chunks_by_hand(&myers_by_hand(&old, &new), &old, &new);
        assert_eq!(shape(&myers::compare_files("t", &old, &new).unwrap()), expected);
    }
}

#[test]
fn scripts_walked_by_hand_give_the_engines_chunks_when_coalesced() {
    for (old, new) in pairs() {
        let by_lcs = shape(&lcs::compare_files("t", &old, &new));
        let by_myers = shape(&myers::compare_files("t", &old, &new).unwrap());
        let scripts = [(lcs_by_hand(&old, &new), by_lcs), (myers_by_hand(&old, &new), by_myers)];
        for (ops, expected) in scripts {
            let script: Vec<Step> = ops
                .iter()
                .map(|op| match op {
                    'K' => Step::Keep,
                    'R' => Step::Remove,
                    _ => Step::Insert,
                })
                .collect();
            assert_eq!(shape(&coalesce("t", &old, &new, &script).unwrap()), expected);
            for pair in script.windows(2) {
                assert!(!(pair[0] == Step::Insert && pair[1] == Step::Remove));
            }
        }
    }
}
