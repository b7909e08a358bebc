use any_ls::{prop_file_names, stop_marker_names, traverse_parents, DirEntryInfo, DirLevel};

fn entry(name: &str, is_file: bool) -> DirEntryInfo {
    DirEntryInfo { name: name.to_string(), is_file }
}

fn level(path: &str, entries: Vec<DirEntryInfo>) -> DirLevel {
    DirLevel { path: path.to_string(), entries }
}

#[test]
fn walk_collects_up_to_stop_marker_level() {
    // The root is two levels below the stop-marker directory; a recognized
    // file sits at the root and another at the intermediate level. A file
    // above the stop-marker level must not be included.
    let levels = vec![
        level("/repo/a/b", vec![entry(".env", true), entry("src", false)]),
        level("/repo/a", vec![entry(".env.example", true)]),
        level("/repo", vec![entry(".git", false)]),
        level("/", vec![entry(".env", true)]),
    ];
    let found = traverse_parents(&levels, &stop_marker_names(), &prop_file_names(), 64);
    assert_eq!(found, vec!["/repo/a/b/.env".to_string(), "/repo/a/.env.example".to_string()]);
}

#[test]
fn stop_marker_level_still_contributes_its_own_files() {
    let levels = vec![
        level("/r/w", vec![entry(".env", true)]),
        level("/r", vec![entry(".git", false), entry(".env", true)]),
    ];
    let found = traverse_parents(&levels, &stop_marker_names(), &prop_file_names(), 64);
    assert_eq!(found, vec!["/r/w/.env".to_string(), "/r/.env".to_string()]);
}

#[test]
fn unrecognized_and_non_file_entries_are_skipped() {
    let levels = vec![level(
        "/w",
        vec![
            entry("README.md", true),
            entry(".env", false),  // a directory named like a property file
            entry(".env.example", true),
        ],
    )];
    let found = traverse_parents(&levels, &stop_marker_names(), &prop_file_names(), 64);
    assert_eq!(found, vec!["/w/.env.example".to_string()]);
}

#[test]
fn walk_respects_maximum_depth() {
    let levels = vec![
        level("/a", vec![entry(".env", true)]),
        level("/b", vec![entry(".env", true)]),
        level("/c", vec![entry(".env", true)]),
    ];
    let found = traverse_parents(&levels, &stop_marker_names(), &prop_file_names(), 2);
    assert_eq!(found, vec!["/a/.env".to_string(), "/b/.env".to_string()]);
    let none = traverse_parents(&levels, &stop_marker_names(), &prop_file_names(), 0);
    assert!(none.is_empty());
}

#[test]
fn walk_order_is_listing_order_then_level_order() {
    let levels = vec![
        level("/x", vec![entry(".env.example", true), entry(".env", true)]),
        level("/y", vec![entry(".env", true)]),
    ];
    let found = traverse_parents(&levels, &stop_marker_names(), &prop_file_names(), 64);
    assert_eq!(
        found,
        vec!["/x/.env.example".to_string(), "/x/.env".to_string(), "/y/.env".to_string()]
    );
}

#[test]
fn fixed_name_sets() {
    assert_eq!(prop_file_names(), vec![".env".to_string(), ".env.example".to_string()]);
    assert_eq!(stop_marker_names(), vec![".git".to_string()]);
}
