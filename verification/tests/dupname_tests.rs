use fsengine::dupname::{duplicate_target, find_free_name};

fn names(v: &[&str]) -> Vec<String> {
    v.iter().map(|s| s.to_string()).collect()
}

#[test]
fn first_duplicate_has_no_counter() {
    let taken = names(&["report.txt"]);
    assert_eq!(find_free_name("report", ".txt", &taken), "report - Copy.txt");
}

#[test]
fn counter_climbs_past_existing_copies() {
    let taken = names(&["report.txt", "report - Copy.txt"]);
    assert_eq!(find_free_name("report", ".txt", &taken), "report - Copy (2).txt");

    let taken = names(&["report.txt", "report - Copy.txt", "report - Copy (2).txt"]);
    assert_eq!(find_free_name("report", ".txt", &taken), "report - Copy (3).txt");
}

#[test]
fn gaps_are_reused_at_the_first_free_candidate() {
    let taken = names(&["report - Copy.txt", "report - Copy (3).txt"]);
    assert_eq!(find_free_name("report", ".txt", &taken), "report - Copy (2).txt");
}

#[test]
fn extensionless_names_work() {
    let taken = names(&["Makefile", "Makefile - Copy"]);
    assert_eq!(find_free_name("Makefile", "", &taken), "Makefile - Copy (2)");
}

#[test]
fn duplicate_target_joins_the_parent() {
    let taken = names(&["report.txt", "report - Copy.txt"]);
    let t = duplicate_target("/home/u/report.txt", &taken);
    assert_eq!(t.as_deref(), Some("/home/u/report - Copy (2).txt"));
    assert_eq!(duplicate_target("/", &taken), None);
}
