use repo_harvest::url_set::UrlSet;

#[test]
fn new_set_is_empty() {
    let set = UrlSet::new();
    assert_eq!(set.len(), 0);
    assert!(!set.contains("https://host/a/one.git"));
    assert_eq!(set.to_vec(), Vec::<String>::new());
}

#[test]
fn insert_keeps_first_insertion_order() {
    let mut set = UrlSet::new();
    assert!(set.insert("c".to_string()));
    assert!(set.insert("a".to_string()));
    assert!(set.insert("b".to_string()));
    assert_eq!(set.len(), 3);
    assert!(set.contains("a"));
    assert!(set.contains("b"));
    assert!(set.contains("c"));
    assert!(!set.contains("d"));
    assert_eq!(set.to_vec(), vec!["c".to_string(), "a".to_string(), "b".to_string()]);
}

#[test]
fn insert_of_a_held_url_moves_it_to_the_end() {
    let mut set = UrlSet::new();
    assert!(set.insert("a".to_string()));
    assert!(set.insert("b".to_string()));
    assert!(set.insert("c".to_string()));
    assert!(!set.insert("a".to_string()));
    assert_eq!(set.len(), 3);
    assert_eq!(set.to_vec(), vec!["b".to_string(), "c".to_string(), "a".to_string()]);
    assert!(!set.insert("a".to_string()));
    assert_eq!(set.to_vec(), vec!["b".to_string(), "c".to_string(), "a".to_string()]);
}

#[test]
fn to_vec_copies_and_leaves_the_set_alone() {
    let mut set = UrlSet::new();
    set.insert("x".to_string());
    let mut copy = set.to_vec();
    copy.push("y".to_string());
    assert_eq!(set.len(), 1);
    assert!(!set.contains("y"));
}
