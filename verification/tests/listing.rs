use dirlist::dir_listing::{calculate_dir_size, list_directory, Listing};
use dirlist::models::{Cli, FsNode, PathText, TreeEntry};

fn file(name: &str, len: u64) -> TreeEntry {
    TreeEntry {
        name: String::from(name),
        path: PathText::Canonical(format!("/root/{}", name)),
        readonly: false,
        node: FsNode::File { len },
    }
}

fn dir(name: &str, children: Vec<TreeEntry>) -> TreeEntry {
    TreeEntry {
        name: String::from(name),
        path: PathText::Canonical(format!("/root/{}", name)),
        readonly: false,
        node: FsNode::Dir { entries: children },
    }
}

fn cli(long_format: bool, human_readable: bool, sort: bool, name: Option<&str>) -> Cli {
    Cli {
        file: String::from("."),
        long_format,
        human_readable,
        all: false,
        show_time: false,
        parallel: false,
        sort,
        name: name.map(String::from),
        full_path: false,
    }
}

#[test]
fn empty_directory_sums_to_zero() {
    let node = FsNode::Dir { entries: Vec::new() };
    let (total, display) = calculate_dir_size(&node, true, false);
    assert_eq!(total, 0);
    assert_eq!(display, "0B");
    let (total_plain, display_plain) = calculate_dir_size(&node, false, false);
    assert_eq!(total_plain, 0);
    assert_eq!(display_plain, "0");
}

#[test]
fn one_file_of_1536_bytes_totals_1536() {
    let node = FsNode::Dir { entries: vec![file("data.bin", 1536)] };
    let (total, display) = calculate_dir_size(&node, true, false);
    assert_eq!(total, 1536);
    assert_eq!(display, "1.5KB");
}

#[test]
fn one_file_of_a_mebibyte_displays_one_mb() {
    let node = FsNode::Dir { entries: vec![file("big.bin", 1_048_576)] };
    let (total, display) = calculate_dir_size(&node, true, false);
    assert_eq!(total, 1_048_576);
    assert_eq!(display, "1.0MB");
}

#[test]
fn parallel_and_sequential_totals_agree() {
    let node = FsNode::Dir {
        entries: vec![
            file("a", 11),
            dir("sub", vec![file("b", 22), dir("deep", vec![file("c", 33)])]),
            file("d", 44),
        ],
    };
    let (seq_total, seq_disp) = calculate_dir_size(&node, false, false);
    let (par_total, par_disp) = calculate_dir_size(&node, false, true);
    assert_eq!(seq_total, 110);
    assert_eq!(par_total, seq_total);
    assert_eq!(par_disp, seq_disp);
}

#[test]
fn total_is_the_sum_of_all_file_lengths() {
    let node = FsNode::Dir {
        entries: vec![
            file("a", 1),
            dir("s1", vec![file("b", 2), file("c", 3)]),
            dir("s2", vec![dir("s3", vec![file("d", 4)])]),
        ],
    };
    let (total, _) = calculate_dir_size(&node, false, false);
    assert_eq!(total, 10);
}

#[test]
fn unreadable_branches_contribute_zero() {
    let only_unreadable = FsNode::Dir {
        entries: vec![
            TreeEntry {
                name: String::from("locked"),
                path: PathText::Fallback(String::from("/root/locked")),
                readonly: true,
                node: FsNode::UnlistableDir,
            },
            TreeEntry {
                name: String::from("ghostly"),
                path: PathText::Fallback(String::from("/root/ghostly")),
                readonly: false,
                node: FsNode::NoMetadata,
            },
        ],
    };
    let (total, display) = calculate_dir_size(&only_unreadable, true, false);
    assert_eq!(total, 0);
    assert_eq!(display, "0B");
}

#[test]
fn filter_emits_one_entry_per_matched_subtree() {
    let children = vec![
        dir("a", vec![dir("logs_old", vec![file("file", 100)])]),
        dir("b", vec![dir("logs", vec![file("file", 50)])]),
        dir("c", vec![file("file", 10)]),
    ];
    let args = cli(true, false, false, Some("logs"));
    let listing = list_directory(children, &args);
    match listing {
        Listing::Long(l) => {
            assert_eq!(l.entries.len(), 2);
            assert_eq!(l.entries[0].path, "/root/logs_old");
            assert_eq!(l.entries[0].size_raw, 100);
            assert_eq!(l.entries[1].path, "/root/logs");
            assert_eq!(l.entries[1].size_raw, 50);
            assert_eq!(l.total, 150);
        }
        Listing::Short(_) => panic!("expected a long listing"),
    }
}

#[test]
fn matching_directory_is_emitted_whole() {
    let children = vec![dir("logs", vec![file("one", 5), dir("nested_logs", vec![file("two", 7)])])];
    let args = cli(true, false, false, Some("logs"));
    let listing = list_directory(children, &args);
    match listing {
        Listing::Long(l) => {
            assert_eq!(l.entries.len(), 1);
            assert_eq!(l.entries[0].size_raw, 12);
            assert_eq!(l.total, 12);
        }
        Listing::Short(_) => panic!("expected a long listing"),
    }
}

#[test]
fn size_sort_puts_empty_directory_first() {
    let children = vec![file("notes.txt", 200), dir("empty", Vec::new())];
    let args = cli(true, false, true, None);
    let listing = list_directory(children, &args);
    match listing {
        Listing::Long(l) => {
            assert_eq!(l.entries.len(), 2);
            assert_eq!(l.entries[0].file_type, 'd');
            assert_eq!(l.entries[0].size_raw, 0);
            assert_eq!(l.entries[1].file_type, '-');
            assert_eq!(l.entries[1].size_raw, 200);
            assert_eq!(l.total, 200);
        }
        Listing::Short(_) => panic!("expected a long listing"),
    }
}

#[test]
fn inaccessible_child_is_excluded_from_long_listing() {
    let children = vec![
        file("a.txt", 10),
        TreeEntry {
            name: String::from("broken"),
            path: PathText::Fallback(String::from("/root/broken")),
            readonly: false,
            node: FsNode::NoMetadata,
        },
        dir("c", vec![file("inner", 30)]),
    ];
    let args = cli(true, false, false, None);
    let listing = list_directory(children, &args);
    match listing {
        Listing::Long(l) => {
            assert_eq!(l.entries.len(), 2);
            assert_eq!(l.entries[0].path, "/root/a.txt");
            assert_eq!(l.entries[1].path, "/root/c");
            assert_eq!(l.total, 40);
        }
        Listing::Short(_) => panic!("expected a long listing"),
    }
}

#[test]
fn short_mode_yields_names_in_order() {
    let children = vec![file("b", 1), file("a", 2), file("c", 3)];
    let args = cli(false, false, false, None);
    let listing = list_directory(children, &args);
    match listing {
        Listing::Short(names) => {
            assert_eq!(names, vec!["a", "b", "c"]);
        }
        Listing::Long(_) => panic!("expected a short listing"),
    }
}

#[test]
fn long_mode_scans_in_name_order() {
    let children = vec![file("zz", 1), file("aa", 2), file("mm", 3)];
    let args = cli(true, false, false, None);
    let listing = list_directory(children, &args);
    match listing {
        Listing::Long(l) => {
            assert_eq!(l.entries[0].path, "/root/aa");
            assert_eq!(l.entries[1].path, "/root/mm");
            assert_eq!(l.entries[2].path, "/root/zz");
            assert_eq!(l.total, 6);
        }
        Listing::Short(_) => panic!("expected a long listing"),
    }
}

#[test]
fn unlistable_directory_appears_with_zero_size() {
    let children = vec![TreeEntry {
        name: String::from("secret"),
        path: PathText::Canonical(String::from("/root/secret")),
        readonly: true,
        node: FsNode::UnlistableDir,
    }];
    let args = cli(true, true, false, None);
    let listing = list_directory(children, &args);
    match listing {
        Listing::Long(l) => {
            assert_eq!(l.entries.len(), 1);
            assert_eq!(l.entries[0].file_type, 'd');
            assert_eq!(l.entries[0].size_raw, 0);
            assert_eq!(l.entries[0].size_display, "0B");
            assert_eq!(l.entries[0].permissions, "r-w-x");
        }
        Listing::Short(_) => panic!("expected a long listing"),
    }
}

#[test]
fn filter_descends_past_several_levels() {
    let children = vec![dir(
        "x",
        vec![dir("y", vec![dir("logs_deep", vec![file("f", 8)]), file("noise", 3)])],
    )];
    let args = cli(true, false, false, Some("logs"));
    let listing = list_directory(children, &args);
    match listing {
        Listing::Long(l) => {
            assert_eq!(l.entries.len(), 1);
            assert_eq!(l.entries[0].path, "/root/logs_deep");
            assert_eq!(l.entries[0].size_raw, 8);
            assert_eq!(l.total, 8);
        }
        Listing::Short(_) => panic!("expected a long listing"),
    }
}

#[test]
fn filter_mode_skips_children_without_metadata() {
    let children = vec![
        TreeEntry {
            name: String::from("broken"),
            path: PathText::Fallback(String::from("/root/broken")),
            readonly: false,
            node: FsNode::NoMetadata,
        },
        dir("logs", vec![file("f", 4)]),
    ];
    let args = cli(true, false, false, Some("logs"));
    let listing = list_directory(children, &args);
    match listing {
        Listing::Long(l) => {
            assert_eq!(l.entries.len(), 1);
            assert_eq!(l.entries[0].path, "/root/logs");
            assert_eq!(l.total, 4);
        }
        Listing::Short(_) => panic!("expected a long listing"),
    }
}

#[test]
fn matched_unlistable_directory_is_emitted_with_zero() {
    let children = vec![TreeEntry {
        name: String::from("logs_locked"),
        path: PathText::Canonical(String::from("/root/logs_locked")),
        readonly: true,
        node: FsNode::UnlistableDir,
    }];
    let args = cli(true, true, false, Some("logs"));
    let listing = list_directory(children, &args);
    match listing {
        Listing::Long(l) => {
            assert_eq!(l.entries.len(), 1);
            assert_eq!(l.entries[0].file_type, 'd');
            assert_eq!(l.entries[0].size_raw, 0);
            assert_eq!(l.entries[0].size_display, "0B");
            assert_eq!(l.total, 0);
        }
        Listing::Short(_) => panic!("expected a long listing"),
    }
}

#[test]
fn parallel_filtered_listing_matches_sequential() {
    let children = vec![
        dir("a", vec![dir("logs_old", vec![file("file", 100)])]),
        dir("b", vec![dir("logs", vec![file("file", 50)])]),
    ];
    let children_again = vec![
        dir("a", vec![dir("logs_old", vec![file("file", 100)])]),
        dir("b", vec![dir("logs", vec![file("file", 50)])]),
    ];
    let mut seq_args = cli(true, false, false, Some("logs"));
    seq_args.parallel = false;
    let mut par_args = cli(true, false, false, Some("logs"));
    par_args.parallel = true;
    let seq_listing = list_directory(children, &seq_args);
    let par_listing = list_directory(children_again, &par_args);
    match (seq_listing, par_listing) {
        (Listing::Long(a), Listing::Long(b)) => {
            assert_eq!(a.total, b.total);
            assert_eq!(a.entries.len(), b.entries.len());
            for (x, y) in a.entries.iter().zip(b.entries.iter()) {
                assert_eq!(x.size_raw, y.size_raw);
                assert_eq!(x.path, y.path);
            }
        }
        _ => panic!("expected long listings"),
    }
}

#[test]
fn filter_skips_plain_files_entirely() {
    let children = vec![file("logsfile", 99), dir("logs", vec![file("x", 1)])];
    let args = cli(true, false, false, Some("logs"));
    let listing = list_directory(children, &args);
    match listing {
        Listing::Long(l) => {
            assert_eq!(l.entries.len(), 1);
            assert_eq!(l.entries[0].path, "/root/logs");
            assert_eq!(l.total, 1);
        }
        Listing::Short(_) => panic!("expected a long listing"),
    }
}
