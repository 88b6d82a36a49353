use dirlist::dir_listing::{build_file_entry, sort_entries_by_size};
use dirlist::dir_listing_v2::list_directory_v2;
use dirlist::models::{FileEntry, FsNode, PathText, TreeEntry};
use dirlist::text::{str_contains, str_le};
use dirlist::utils::{human_readable_size, render_size, u64_to_dec_string};

#[test]
fn decimal_rendering_is_exact() {
    assert_eq!(u64_to_dec_string(0), "0");
    assert_eq!(u64_to_dec_string(7), "7");
    assert_eq!(u64_to_dec_string(1048576), "1048576");
    assert_eq!(u64_to_dec_string(u64::MAX), "18446744073709551615");
}

#[test]
fn human_readable_unit_boundaries() {
    assert_eq!(human_readable_size(0), "0B");
    assert_eq!(human_readable_size(1023), "1023B");
    assert_eq!(human_readable_size(1024), "1.0KB");
    assert_eq!(human_readable_size(1536), "1.5KB");
    assert_eq!(human_readable_size(1048575), "1023.9KB");
    assert_eq!(human_readable_size(1048576), "1.0MB");
    assert_eq!(human_readable_size(1073741824), "1.0GB");
    assert_eq!(human_readable_size(1099511627776), "1.0TB");
    assert_eq!(human_readable_size(5 * 1099511627776 + 1099511627776 / 2), "5.5TB");
}

#[test]
fn render_size_follows_the_flag() {
    assert_eq!(render_size(2048, true), "2.0KB");
    assert_eq!(render_size(2048, false), "2048");
}

#[test]
fn substring_search_is_case_sensitive() {
    assert!(str_contains("logs_old", "logs"));
    assert!(str_contains("my_logs", "logs"));
    assert!(str_contains("logs", "logs"));
    assert!(!str_contains("Logs", "logs"));
    assert!(!str_contains("log", "logs"));
    assert!(str_contains("anything", ""));
}

#[test]
fn lexicographic_comparison_orders_names() {
    assert!(str_le("a", "b"));
    assert!(!str_le("b", "a"));
    assert!(str_le("a", "ab"));
    assert!(!str_le("ab", "a"));
    assert!(str_le("same", "same"));
    assert!(str_le("", "x"));
}

#[test]
fn sorting_records_by_size_is_ascending() {
    let mk = |name: &str, size: u64| FileEntry {
        file_type: '-',
        permissions: String::from(" -w-x"),
        size_display: size.to_string(),
        size_raw: size,
        path: format!("/root/{}", name),
    };
    let mut v = vec![mk("three", 3), mk("one", 1), mk("two", 2)];
    sort_entries_by_size(&mut v);
    let sizes: Vec<u64> = v.iter().map(|e| e.size_raw).collect();
    assert_eq!(sizes, vec![1, 2, 3]);
}

#[test]
fn size_sort_keeps_tie_order() {
    let mk = |name: &str, size: u64| FileEntry {
        file_type: '-',
        permissions: String::from(" -w-x"),
        size_display: size.to_string(),
        size_raw: size,
        path: format!("/root/{}", name),
    };
    let mut v = vec![mk("first", 5), mk("second", 5), mk("small", 1)];
    sort_entries_by_size(&mut v);
    assert_eq!(v[0].path, "/root/small");
    assert_eq!(v[1].path, "/root/first");
    assert_eq!(v[2].path, "/root/second");
}

#[test]
fn whole_tree_walk_totals_and_renders() {
    let root = FsNode::Dir {
        entries: vec![
            TreeEntry {
                name: String::from("payload"),
                path: PathText::Canonical(String::from("/root/payload")),
                readonly: false,
                node: FsNode::File { len: 2048 },
            },
        ],
    };
    let (total, rendered) = list_directory_v2(&root);
    assert_eq!(total, 2048);
    assert_eq!(rendered, "2.0KB");
}

#[test]
fn record_of_a_file_carries_its_fields() {
    let e = TreeEntry {
        name: String::from("notes.txt"),
        path: PathText::Fallback(String::from("./notes.txt")),
        readonly: true,
        node: FsNode::File { len: 200 },
    };
    let fe = build_file_entry(&e, false, false);
    assert_eq!(fe.file_type, '-');
    assert_eq!(fe.permissions, "r-w-x");
    assert_eq!(fe.size_raw, 200);
    assert_eq!(fe.size_display, "200");
    assert_eq!(fe.path, "./notes.txt");
}

#[test]
fn record_of_a_directory_is_marked_d() {
    let e = TreeEntry {
        name: String::from("sub"),
        path: PathText::Canonical(String::from("/root/sub")),
        readonly: false,
        node: FsNode::Dir { entries: vec![] },
    };
    let fe = build_file_entry(&e, true, false);
    assert_eq!(fe.file_type, 'd');
    assert_eq!(fe.permissions, " -w-x");
    assert_eq!(fe.size_raw, 0);
    assert_eq!(fe.size_display, "0B");
    assert_eq!(fe.path, "/root/sub");
}
