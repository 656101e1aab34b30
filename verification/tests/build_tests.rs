use dirtree::builder::{build, listing_total, parse_entry, Entry, Listing};
use dirtree::tree::{Dir, ErrEntry, File};

fn file_entry(name: &str, size: u64) -> Entry {
    Entry::FileFound { name: name.to_string(), size: Some(size) }
}

#[test]
fn empty_directory_builds_empty_node() {
    let listing = Listing::Listed(Vec::new());
    let d = build("p", "root".to_string(), &listing).unwrap();
    assert_eq!(d.name, "root");
    assert_eq!(d.size, 0);
    assert!(d.dirs.is_empty());
    assert!(d.files.is_empty());
    assert!(d.errs.is_empty());
}

#[test]
fn files_only_sizes_sum() {
    let listing = Listing::Listed(vec![file_entry("a", 10), file_entry("b", 20)]);
    let d = build("p", "root".to_string(), &listing).unwrap();
    assert_eq!(d.size, 30);
    assert_eq!(d.files.len(), 2);
    assert_eq!(d.files[0], File { name: "a".to_string(), size: 10 });
    assert_eq!(d.files[1], File { name: "b".to_string(), size: 20 });
    assert!(d.dirs.is_empty());
    assert!(d.errs.is_empty());
}

#[test]
fn subdir_and_file_sizes_sum() {
    let sub = Entry::DirFound {
        name: "sub".to_string(),
        listing: Listing::Listed(vec![file_entry("inner", 5)]),
    };
    let listing = Listing::Listed(vec![sub, file_entry("f", 3)]);
    let d = build("p", "root".to_string(), &listing).unwrap();
    assert_eq!(d.size, 8);
    assert_eq!(d.dirs.len(), 1);
    assert_eq!(d.dirs[0].name, "sub");
    assert_eq!(d.dirs[0].size, 5);
    assert_eq!(d.files.len(), 1);
    assert_eq!(d.files[0].size, 3);
}

#[test]
fn unreadable_root_is_an_error() {
    let listing = Listing::Unreadable;
    let r = build("no/such/path", "no/such/path".to_string(), &listing);
    match r {
        Ok(_) => panic!("an unreadable root must not build"),
        Err(e) => assert_eq!(e.name, "no/such/path"),
    }
}

#[test]
fn unreadable_subdir_is_absorbed_and_excluded() {
    let locked = Entry::DirFound { name: "locked".to_string(), listing: Listing::Unreadable };
    let listing = Listing::Listed(vec![locked, file_entry("f", 3)]);
    let d = build("p", "root".to_string(), &listing).unwrap();
    assert_eq!(d.size, 3);
    assert!(d.dirs.is_empty());
    assert_eq!(d.errs, vec![ErrEntry { name: "locked".to_string() }]);
}

#[test]
fn faulty_entry_is_recorded_with_empty_name() {
    let listing = Listing::Listed(vec![Entry::Faulty, file_entry("f", 7)]);
    let d = build("p", "root".to_string(), &listing).unwrap();
    assert_eq!(d.size, 7);
    assert_eq!(d.errs, vec![ErrEntry { name: String::new() }]);
}

#[test]
fn unknown_type_is_recorded_by_name() {
    let listing = Listing::Listed(vec![Entry::TypeUnknown { name: "odd".to_string() }]);
    let d = build("p", "root".to_string(), &listing).unwrap();
    assert_eq!(d.size, 0);
    assert_eq!(d.errs, vec![ErrEntry { name: "odd".to_string() }]);
}

#[test]
fn unreadable_size_defaults_to_zero_but_stays_a_file() {
    let listing = Listing::Listed(vec![Entry::FileFound { name: "f".to_string(), size: None }]);
    let d = build("p", "root".to_string(), &listing).unwrap();
    assert_eq!(d.size, 0);
    assert_eq!(d.files, vec![File { name: "f".to_string(), size: 0 }]);
    assert!(d.errs.is_empty());
}

#[test]
fn sizes_aggregate_transitively() {
    let deep = Entry::DirFound {
        name: "deep".to_string(),
        listing: Listing::Listed(vec![file_entry("x", 4)]),
    };
    let mid = Entry::DirFound {
        name: "mid".to_string(),
        listing: Listing::Listed(vec![deep, file_entry("y", 2)]),
    };
    let listing = Listing::Listed(vec![mid, file_entry("z", 1)]);
    let d = build("p", "root".to_string(), &listing).unwrap();
    assert_eq!(d.size, 7);
    assert_eq!(d.dirs[0].size, 6);
    assert_eq!(d.dirs[0].dirs[0].size, 4);
}

#[test]
fn building_twice_yields_equal_trees() {
    let sub = Entry::DirFound {
        name: "sub".to_string(),
        listing: Listing::Listed(vec![file_entry("inner", 5), Entry::Faulty]),
    };
    let listing = Listing::Listed(vec![sub, file_entry("f", 3)]);
    let first = build("p", "root".to_string(), &listing).unwrap();
    let second = build("p", "root".to_string(), &listing).unwrap();
    assert_eq!(first, second);
}

#[test]
fn parse_entry_appends_to_one_list() {
    let mut errs: Vec<ErrEntry> = Vec::new();
    let mut dirs: Vec<Dir> = Vec::new();
    let mut files: Vec<File> = Vec::new();
    parse_entry(&mut errs, &mut dirs, &mut files, &file_entry("a", 9));
    assert_eq!(files, vec![File { name: "a".to_string(), size: 9 }]);
    assert!(dirs.is_empty());
    assert!(errs.is_empty());
    parse_entry(&mut errs, &mut dirs, &mut files, &Entry::Faulty);
    assert_eq!(errs, vec![ErrEntry { name: String::new() }]);
    let sub = Entry::DirFound { name: "s".to_string(), listing: Listing::Listed(Vec::new()) };
    parse_entry(&mut errs, &mut dirs, &mut files, &sub);
    assert_eq!(dirs.len(), 1);
    assert_eq!(dirs[0].name, "s");
    assert_eq!(dirs[0].size, 0);
}

#[test]
fn listing_total_counts_every_file() {
    let sub = Entry::DirFound {
        name: "sub".to_string(),
        listing: Listing::Listed(vec![file_entry("inner", 5)]),
    };
    let listing = Listing::Listed(vec![sub, file_entry("f", 3), Entry::Faulty]);
    assert_eq!(listing_total(&listing), Some(8));
    assert_eq!(listing_total(&Listing::Unreadable), Some(0));
}

#[test]
fn listing_total_refuses_overflow() {
    let listing = Listing::Listed(vec![file_entry("a", u64::MAX), file_entry("b", 1)]);
    assert_eq!(listing_total(&listing), None);
}
