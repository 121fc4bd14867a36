use repo_harvest::query::{build_query, first_request};

fn strings(items: &[&str]) -> Vec<String> {
    items.iter().map(|s| s.to_string()).collect()
}

#[test]
fn query_without_licenses_has_no_license_clause() {
    assert_eq!(build_query("rust", &strings(&[])), "language:rust");
}

#[test]
fn query_appends_one_clause_per_license_in_order() {
    assert_eq!(
        build_query("rust", &strings(&["mit", "apache-2.0"])),
        "language:rust license:mit license:apache-2.0"
    );
    assert_eq!(build_query("c", &strings(&["gpl-3.0"])), "language:c license:gpl-3.0");
}

#[test]
fn query_is_the_same_for_the_same_inputs() {
    let licenses = strings(&["mit", "unlicense"]);
    assert_eq!(build_query("go", &licenses), build_query("go", &licenses));
}

#[test]
fn query_keeps_repeated_and_empty_licenses() {
    assert_eq!(
        build_query("", &strings(&["mit", "", "mit"])),
        "language: license:mit license: license:mit"
    );
}

#[test]
fn first_request_asks_for_most_starred_first() {
    let request = first_request("rust", &strings(&["mit"]));
    assert_eq!(request.query, "language:rust license:mit");
    assert_eq!(request.sort, "stars");
    assert_eq!(request.order, "desc");
}
