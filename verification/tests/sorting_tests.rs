use agent_memory_rs::grouping::group_values;
use agent_memory_rs::textsort::{chars_less, sort_by_text, stable_sort_by_text};

fn v(words: &[&str]) -> Vec<String> {
    words.iter().map(|s| s.to_string()).collect()
}

#[test]
fn stable_sort_matches_std() {
    let keys = v(&["b", "a", "b", "", "ab", "é", "z", "a"]);
    let mut expected: Vec<usize> = (0..keys.len()).collect();
    expected.sort_by(|&i, &j| keys[i].cmp(&keys[j]));
    assert_eq!(stable_sort_by_text(&keys), expected);
    assert_eq!(sort_by_text(&keys), expected);
    assert!(stable_sort_by_text(&Vec::new()).is_empty());
}

#[test]
fn char_order_is_code_point_order() {
    let c = |a: &str, b: &str| chars_less(&a.chars().collect(), &b.chars().collect());
    assert!(c("a", "b"));
    assert!(c("", "a"));
    assert!(c("ab", "b"));
    assert!(!c("b", "ab"));
    assert!(!c("a", "a"));
    assert!(c("z", "é"));
}

#[test]
fn groups_in_first_appearance_order() {
    let keys = v(&["x", "y", "x", "z", "y"]);
    let groups = group_values(&keys, &vec![1, 2, 3, 4, 5]);
    let got: Vec<(String, Vec<i64>)> = groups.into_iter().map(|g| (g.key, g.members)).collect();
    assert_eq!(
        got,
        vec![("x".to_string(), vec![1, 3]), ("y".to_string(), vec![2, 5]), ("z".to_string(), vec![4])]
    );
    assert!(group_values(&Vec::new(), &Vec::new()).is_empty());
}
