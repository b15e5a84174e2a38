use ndir::{arrange_entries, filter_entries, key_order, lex_less, Entry, FuzzyFilter};

fn entry(name: &str, is_dir: bool) -> Entry {
    Entry { name: name.to_string(), is_dir }
}

fn sample_entries() -> Vec<Entry> {
    vec![entry("alpha", true), entry("beta", true), entry("gamma", false)]
}

fn names(entries: &[Entry]) -> Vec<&str> {
    entries.iter().map(|e| e.name.as_str()).collect()
}

// A listing as the directory gives it: dir_a, dir_b and file.txt.
#[test]
fn read_entries_lists_dirs_only_by_default() {
    let raw = vec![entry("dir_a", true), entry("file.txt", false), entry("dir_b", true)];
    let entries = arrange_entries(raw, false, false);
    assert_eq!(entries.len(), 2);
    assert!(entries.iter().all(|e| e.is_dir));
}

#[test]
fn read_entries_includes_files_when_show_files() {
    let raw = vec![entry("file.txt", false), entry("dir_a", true)];
    let entries = arrange_entries(raw, false, true);
    assert_eq!(entries.len(), 2);
    // dirs come first
    assert!(entries[0].is_dir);
    assert!(!entries[1].is_dir);
}

#[test]
fn read_entries_hides_dotfiles_by_default() {
    let raw = vec![entry(".hidden", true), entry("visible", true)];
    let entries = arrange_entries(raw, false, false);
    assert_eq!(entries.len(), 1);
    assert_eq!(entries[0].name, "visible");
}

#[test]
fn read_entries_shows_hidden_when_enabled() {
    let raw = vec![entry(".hidden", true), entry("visible", true)];
    let entries = arrange_entries(raw, true, false);
    assert_eq!(entries.len(), 2);
}

#[test]
fn read_entries_sorted_case_insensitive() {
    let raw = vec![entry("Zebra", true), entry("apple", true), entry("Banana", true)];
    let entries = arrange_entries(raw, false, false);
    assert_eq!(names(&entries), vec!["apple", "Banana", "Zebra"]);
}

#[test]
fn arrange_entries_orders_both_groups() {
    let raw = vec![
        entry("b.txt", false),
        entry("Docs", true),
        entry(".git", true),
        entry("A.md", false),
        entry("bin", true),
        entry(".env", false),
    ];
    let entries = arrange_entries(raw, true, true);
    assert_eq!(names(&entries), vec![".git", "bin", "Docs", ".env", "A.md", "b.txt"]);
    assert_eq!(
        entries.iter().map(|e| e.is_dir).collect::<Vec<bool>>(),
        vec![true, true, true, false, false, false]
    );
}

#[test]
fn arrange_entries_keeps_order_of_equal_names() {
    let raw = vec![entry("SRC", true), entry("src", true), entry("Src", true)];
    let entries = arrange_entries(raw, false, false);
    assert_eq!(names(&entries), vec!["SRC", "src", "Src"]);
}

#[test]
fn arrange_entries_empty_listing() {
    let entries = arrange_entries(Vec::new(), true, true);
    assert!(entries.is_empty());
}

#[test]
fn key_order_sorts_positions_stably() {
    let keys: Vec<Vec<char>> = vec![
        "b".chars().collect(),
        "a".chars().collect(),
        "b".chars().collect(),
        "ab".chars().collect(),
        "".chars().collect(),
    ];
    assert_eq!(key_order(&keys), vec![4, 1, 3, 0, 2]);
}

#[test]
fn lex_less_compares_like_str() {
    let pairs = [("a", "b"), ("ab", "a"), ("a", "ab"), ("", ""), ("é", "z"), ("Z", "a")];
    for (a, b) in pairs {
        let va: Vec<char> = a.chars().collect();
        let vb: Vec<char> = b.chars().collect();
        assert_eq!(lex_less(&va, &vb), a < b);
    }
}

#[test]
fn filter_entries_empty_query_returns_all() {
    let fuzzy = FuzzyFilter::new();
    let entries = sample_entries();
    let result = filter_entries(&entries, "", &fuzzy);
    assert_eq!(result.len(), entries.len());
}

#[test]
fn filter_entries_narrows_results() {
    let fuzzy = FuzzyFilter::new();
    let entries = sample_entries();
    let result = filter_entries(&entries, "alp", &fuzzy);
    assert_eq!(result.len(), 1);
    assert_eq!(result[0].name, "alpha");
}

#[test]
fn filter_entries_preserves_is_dir() {
    let fuzzy = FuzzyFilter::new();
    let entries = sample_entries();
    let result = filter_entries(&entries, "gamma", &fuzzy);
    assert_eq!(result.len(), 1);
    assert!(!result[0].is_dir);
}

#[test]
fn filter_entries_no_match_is_empty() {
    let fuzzy = FuzzyFilter::new();
    let entries = sample_entries();
    assert!(filter_entries(&entries, "xyz", &fuzzy).is_empty());
}

fn mixed_listing() -> Vec<Entry> {
    vec![
        entry("zeta.txt", false),
        entry(".cache", true),
        entry("Alpha", true),
        entry(".profile", false),
        entry("beta", true),
        entry("a.txt", false),
    ]
}

#[test]
fn listing_without_files_is_listing_with_files_cut_to_dirs() {
    for show_hidden in [false, true] {
        let without = arrange_entries(mixed_listing(), show_hidden, false);
        let with = arrange_entries(mixed_listing(), show_hidden, true);
        let dirs_of_with: Vec<&str> = with.iter().filter(|e| e.is_dir).map(|e| e.name.as_str()).collect();
        assert_eq!(names(&without), dirs_of_with);
    }
}

#[test]
fn showing_hidden_only_adds_dot_names() {
    for show_files in [false, true] {
        let shown = arrange_entries(mixed_listing(), false, show_files);
        let all = arrange_entries(mixed_listing(), true, show_files);
        let shown_names = names(&shown);
        let all_names = names(&all);
        assert!(shown_names.iter().all(|n| all_names.contains(n)));
        assert!(all_names.iter().all(|n| shown_names.contains(n) || n.starts_with('.')));
    }
}
