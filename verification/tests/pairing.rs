use cad_open_layer::pairing::greedy_pairs;

fn matrix(n: usize, ok_pairs: &[(usize, usize)]) -> Vec<Vec<bool>> {
    let mut m = vec![vec![false; n]; n];
    for &(i, j) in ok_pairs {
        m[i][j] = true;
    }
    m
}

#[test]
fn each_line_pairs_with_the_first_free_later_line() {
    let ok = matrix(4, &[(0, 1), (0, 2), (2, 3), (1, 3)]);
    let (pairs, lone) = greedy_pairs(&ok);
    assert_eq!(pairs, vec![(0, 1), (2, 3)]);
    assert!(lone.is_empty());
}

#[test]
fn taken_lines_are_skipped() {
    // 0 takes 2; 1 could only pair with 2, so it stays alone; 3 has no partner.
    let ok = matrix(4, &[(0, 2), (1, 2)]);
    let (pairs, lone) = greedy_pairs(&ok);
    assert_eq!(pairs, vec![(0, 2)]);
    assert_eq!(lone, vec![1, 3]);
}

#[test]
fn lone_lines_never_pair_with_each_other() {
    let ok = matrix(5, &[(0, 3), (1, 3), (2, 4), (1, 4)]);
    let (pairs, lone) = greedy_pairs(&ok);
    assert_eq!(pairs, vec![(0, 3), (1, 4)]);
    assert_eq!(lone, vec![2]);
    for (a, &i) in lone.iter().enumerate() {
        for &j in &lone[a + 1..] {
            assert!(!ok[i][j]);
        }
    }
}

#[test]
fn missing_answers_are_no_and_no_lines_give_nothing() {
    let ok = vec![vec![false], vec![], vec![true, true, true]];
    let (pairs, lone) = greedy_pairs(&ok);
    assert!(pairs.is_empty());
    assert_eq!(lone, vec![0, 1, 2]);
    let (none, none_lone) = greedy_pairs(&[]);
    assert!(none.is_empty() && none_lone.is_empty());
}

#[test]
fn pairs_and_lone_lines_split_the_lines() {
    let ok = matrix(7, &[(0, 3), (1, 3), (2, 4), (1, 4), (5, 6), (0, 6)]);
    let (pairs, lone) = greedy_pairs(&ok);
    assert_eq!(pairs, vec![(0, 3), (1, 4), (5, 6)]);
    assert_eq!(lone, vec![2]);
    let mut seen = vec![0; 7];
    for (i, j) in &pairs {
        seen[*i] += 1;
        seen[*j] += 1;
    }
    for k in &lone {
        seen[*k] += 1;
    }
    assert_eq!(seen, vec![1; 7]);
}
