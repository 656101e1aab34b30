use dirtree::builder::{build, Entry, Listing};
use dirtree::tree::{Dir, ErrEntry, File};

fn leaf(name: &str, files: Vec<File>, size: u64) -> Dir {
    Dir { name: name.to_string(), dirs: Vec::new(), files, errs: Vec::new(), size }
}

#[test]
fn report_lists_header_files_then_subdirs() {
    let sub = leaf("sub", vec![File { name: "b.txt".to_string(), size: 10 }], 10);
    let root = Dir {
        name: "root".to_string(),
        dirs: vec![sub],
        files: vec![File { name: "a.txt".to_string(), size: 5 }],
        errs: Vec::new(),
        size: 100,
    };
    let expected = "\\-root100:\n \\-a.txt\t5 bytes\n \\-sub10:\n  \\-b.txt\t10 bytes\n";
    assert_eq!(root.print(), expected);
}

#[test]
fn empty_tree_renders_one_header_line() {
    let root = leaf("root", Vec::new(), 0);
    assert_eq!(root.print(), "\\-root0:\n");
}

#[test]
fn indentation_deepens_by_one_space_per_level() {
    let inner = leaf("inner", Vec::new(), 0);
    let mid = Dir {
        name: "mid".to_string(),
        dirs: vec![inner],
        files: Vec::new(),
        errs: Vec::new(),
        size: 0,
    };
    let root = Dir {
        name: "top".to_string(),
        dirs: vec![mid],
        files: Vec::new(),
        errs: Vec::new(),
        size: 0,
    };
    assert_eq!(root.print(), "\\-top0:\n \\-mid0:\n  \\-inner0:\n");
}

#[test]
fn absorbed_failures_are_not_rendered() {
    let root = Dir {
        name: "root".to_string(),
        dirs: Vec::new(),
        files: Vec::new(),
        errs: vec![ErrEntry { name: "locked".to_string() }],
        size: 0,
    };
    assert_eq!(root.print(), "\\-root0:\n");
}

#[test]
fn built_tree_renders_in_entry_order() {
    let sub = Entry::DirFound {
        name: "sub".to_string(),
        listing: Listing::Listed(vec![Entry::FileFound {
            name: "b.txt".to_string(),
            size: Some(10),
        }]),
    };
    let listing = Listing::Listed(vec![
        Entry::FileFound { name: "a.txt".to_string(), size: Some(5) },
        sub,
    ]);
    let d = build("p", "root".to_string(), &listing).unwrap();
    assert_eq!(d.print(), "\\-root15:\n \\-a.txt\t5 bytes\n \\-sub10:\n  \\-b.txt\t10 bytes\n");
}

#[test]
fn file_text_has_tab_and_bytes_suffix() {
    let f = File { name: "a.txt".to_string(), size: 5 };
    assert_eq!(f.to_string(), "a.txt\t5 bytes");
    let zero = File { name: "z".to_string(), size: 0 };
    assert_eq!(zero.to_string(), "z\t0 bytes");
}

#[test]
fn dir_summary_has_no_separator_before_size() {
    let d = leaf("docs", Vec::new(), 907);
    assert_eq!(d.to_string(), "docs907 bytes");
}

#[test]
fn numerals_render_all_digits() {
    let f = File { name: "big".to_string(), size: u64::MAX };
    assert_eq!(f.to_string(), "big\t18446744073709551615 bytes");
    let g = File { name: "ten".to_string(), size: 1050607 };
    assert_eq!(g.to_string(), "ten\t1050607 bytes");
}

#[test]
fn offset_marker_grows_with_level() {
    let mut s = String::new();
    Dir::add_level_offset(1, &mut s);
    assert_eq!(s, "\\-");
    let mut t = String::new();
    Dir::add_level_offset(3, &mut t);
    assert_eq!(t, "  \\-");
}

#[test]
fn depth_within_bounds_the_nesting() {
    let inner = leaf("inner", Vec::new(), 0);
    let root = Dir {
        name: "root".to_string(),
        dirs: vec![inner],
        files: Vec::new(),
        errs: Vec::new(),
        size: 0,
    };
    assert!(root.depth_within(2));
    assert!(!root.depth_within(1));
    assert!(!root.depth_within(0));
    assert!(leaf("flat", Vec::new(), 0).depth_within(1));
}
