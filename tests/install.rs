use flatbox::install::{find_install_path, list_available_runtimes};

fn v(items: &[&str]) -> Vec<String> {
    items.iter().map(|x| x.to_string()).collect()
}

#[test]
fn resolution_finds_the_only_root_wherever_it_stands() {
    let existing = v(&["/b/app/org.example.App"]);
    for dirs in [v(&["/b", "/a", "/c"]), v(&["/a", "/b", "/c"]), v(&["/a", "/c", "/b"])] {
        assert_eq!(
            find_install_path("org.example.App", true, &dirs, &existing),
            Some("/b/app/org.example.App".to_string())
        );
    }
}

#[test]
fn resolution_without_match_is_not_found() {
    let dirs = v(&["/a", "/b"]);
    let existing = v(&["/a/runtime/org.example.App"]);
    assert_eq!(find_install_path("org.example.App", true, &dirs, &existing), None);
    assert_eq!(find_install_path("org.example.App", false, &dirs, &existing), Some("/a/runtime/org.example.App".to_string()));
}

#[test]
fn first_root_wins_when_several_match() {
    let dirs = v(&["/a/", "/b"]);
    let existing = v(&["/b/runtime/r/x86_64/1", "/a/runtime/r/x86_64/1"]);
    assert_eq!(find_install_path("r/x86_64/1", false, &dirs, &existing), Some("/a/runtime/r/x86_64/1".to_string()));
}

#[test]
fn available_runtimes_keep_duplicates_in_root_order() {
    let per_root = vec![v(&["org.a", "org.b"]), v(&[]), v(&["org.a"])];
    assert_eq!(list_available_runtimes(&per_root), v(&["org.a", "org.b", "org.a"]));
}
