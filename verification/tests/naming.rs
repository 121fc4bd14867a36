use repo_harvest::target::{get_target, is_well_formed_url, place_under, target_name};

#[test]
fn target_is_owner_and_name_under_base() {
    assert_eq!(get_target("https://host/a/one.git", "output"), "output/a_one");
    assert_eq!(get_target("https://host/b/two.git", "output"), "output/b_two");
}

#[test]
fn target_name_takes_last_two_pieces() {
    assert_eq!(target_name("https://github.com/rust-lang/rust.git"), "rust-lang_rust");
    assert_eq!(target_name("a/b.git"), "a_b");
    assert_eq!(target_name("/x.git"), "_x");
    assert_eq!(target_name("a//.git"), "_");
}

#[test]
fn well_formed_needs_suffix_and_two_pieces() {
    assert!(is_well_formed_url("https://host/a/one.git"));
    assert!(is_well_formed_url("a/b.git"));
    assert!(!is_well_formed_url("https://host/a/one"));
    assert!(!is_well_formed_url("one.git"));
    assert!(!is_well_formed_url(".git"));
    assert!(!is_well_formed_url("git"));
    assert!(!is_well_formed_url(""));
    assert!(!is_well_formed_url("a/b.gix"));
}

#[test]
fn place_under_adds_one_separator() {
    assert_eq!(place_under("output", "a_one"), "output/a_one");
    assert_eq!(place_under("output/", "a_one"), "output/a_one");
    assert_eq!(place_under("", "a_one"), "a_one");
    assert_eq!(place_under("/", "a_one"), "/a_one");
}

#[test]
fn equal_urls_get_equal_targets() {
    let first = String::from("https://host/a/one.git");
    let second = format!("https://host/{}/{}.git", "a", "one");
    assert_eq!(first, second);
    assert_eq!(get_target(&first, "output"), get_target(&second, "output"));
    assert_eq!(get_target(&first, "output"), get_target(&first, "output"));
}

#[test]
fn different_owner_or_name_gives_different_targets() {
    let base = "output";
    assert_ne!(get_target("https://host/a/one.git", base), get_target("https://host/b/one.git", base));
    assert_ne!(get_target("https://host/a/one.git", base), get_target("https://host/a/two.git", base));
    assert_ne!(get_target("https://host/ab/c.git", base), get_target("https://host/a/bc.git", base));
}

#[test]
fn targets_do_not_depend_on_the_host() {
    assert_eq!(get_target("https://h1/a/one.git", "out"), get_target("git://h2/x/a/one.git", "out"));
}

#[test]
fn underscores_can_make_two_names_collide() {
    assert_eq!(target_name("https://host/a_b/c.git"), "a_b_c");
    assert_eq!(target_name("https://host/a/b_c.git"), "a_b_c");
}

#[test]
fn target_name_keeps_characters_outside_ascii() {
    assert_eq!(target_name("https://host/größe/naïve.git"), "größe_naïve");
    assert_eq!(get_target("https://host/名前/リポ.git", "出力"), "出力/名前_リポ");
}

#[test]
fn only_the_last_suffix_is_cut() {
    assert_eq!(target_name("https://host/a/one.git.git"), "a_one.git");
    assert!(is_well_formed_url("a/.git"));
    assert_eq!(target_name("a/.git"), "a_");
}
