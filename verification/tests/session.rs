use sudoku_solver::sudoku::{open_session, Model};

const CLASSIC: &str =
    "53..7....6..195....98....6.8...6...34..8.3..17...2...6.6....28....419..5....8..79";

/// The terms of the cells as the engine prints them: a clue as its digit, an
/// open cell as the variable named after its place, numbered in the order of
/// creation.
fn terms(raw: &str) -> Vec<String> {
    let mut open = 0;
    raw.bytes()
        .enumerate()
        .map(|(i, b)| {
            if b == b'.' {
                let name = format!("value_x{}_y{}!{}", i % 9, i / 9, open);
                open += 1;
                name
            } else {
                format!("{}", b - b'0')
            }
        })
        .collect()
}

fn all_differ(terms: &[String], unit: &[usize]) -> String {
    let mut parts = Vec::new();
    for a in 0..unit.len() {
        for b in (a + 1)..unit.len() {
            let (s, t) = (&terms[unit[a]], &terms[unit[b]]);
            parts.push(format!("(or (< {} {}) (> {} {}))", s, t, s, t));
        }
    }
    assert_eq!(parts.len(), 36);
    format!("(assert (and {}))", parts.join(" "))
}

fn expected_assertions(raw: &str) -> Vec<String> {
    let terms = terms(raw);
    let mut out = Vec::new();
    for t in &terms {
        out.push(format!("(assert (>= {} 1))", t));
        out.push(format!("(assert (<= {} 9))", t));
    }
    for y in 0..9 {
        let unit: Vec<usize> = (0..9).map(|x| y * 9 + x).collect();
        out.push(all_differ(&terms, &unit));
    }
    for x in 0..9 {
        let unit: Vec<usize> = (0..9).map(|y| y * 9 + x).collect();
        out.push(all_differ(&terms, &unit));
    }
    for (x0, y0) in [(0, 0), (3, 0), (6, 0), (0, 3), (3, 3), (6, 3), (0, 6), (3, 6), (6, 6)] {
        let unit: Vec<usize> = (0..9).map(|k| (y0 + k / 3) * 9 + x0 + k % 3).collect();
        out.push(all_differ(&terms, &unit));
    }
    out
}

fn printed_assertions(raw: &str) -> Vec<String> {
    let cfg = z3::Config::new();
    let ctx = z3::Context::new(&cfg);
    let board = Model::new(&ctx, &raw.as_bytes().to_vec()).expect("a well-formed board");
    let solver = open_session(&board);
    let text = format!("{}", solver);
    let words: Vec<&str> = text.split_whitespace().collect();
    let flat = words.join(" ");
    let mut out: Vec<String> = Vec::new();
    for piece in flat.split("(assert ").skip(1) {
        out.push(format!("(assert {}", piece.trim_end()));
    }
    out
}

#[test]
fn session_holds_the_constraints_in_order() {
    let printed = printed_assertions(CLASSIC);
    let expected = expected_assertions(CLASSIC);
    assert_eq!(printed.len(), 162 + 27);
    assert_eq!(printed.len(), expected.len());
    for (got, want) in printed.iter().zip(expected.iter()) {
        assert_eq!(got, want);
    }
}

#[test]
fn session_of_a_blank_board_counts_972_pairs() {
    let blank = ".".repeat(81);
    let printed = printed_assertions(&blank);
    assert_eq!(printed.len(), 189);
    let all = printed.join(" ");
    assert_eq!(all.matches("(or ").count(), 27 * 36);
    assert_eq!(all.matches("(< ").count(), 972);
    assert_eq!(all.matches("(> ").count(), 972);
    assert_eq!(all.matches("(and ").count(), 27);
    assert_eq!(all.matches("(>= ").count(), 81);
    assert_eq!(all.matches("(<= ").count(), 81);
    assert_eq!(printed, expected_assertions(&blank));
}

#[test]
fn every_open_cell_has_a_variable_of_its_own() {
    let cfg = z3::Config::new();
    let ctx = z3::Context::new(&cfg);
    let board = Model::new(&ctx, &CLASSIC.as_bytes().to_vec()).expect("a well-formed board");
    let text = format!("{}", open_session(&board));
    let mut names: Vec<&str> = text
        .lines()
        .filter(|line| line.starts_with("(declare-fun "))
        .map(|line| line.split_whitespace().nth(1).unwrap())
        .collect();
    assert_eq!(names.len(), 51);
    names.sort();
    names.dedup();
    assert_eq!(names.len(), 51);
    let expected = terms(CLASSIC);
    for name in names {
        assert!(expected.iter().any(|t| t == name));
    }
}
