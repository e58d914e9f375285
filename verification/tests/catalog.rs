use asset_files::file::{
    as_millis, create, delete, delete_all, kind, list, raed, removal, rename, rename_all,
    Deletion, Entry, File, FileError, FileName, Kind, Modified, Outcome, Removal, Rename, Stat,
    Upload, UploadedFile,
};
use asset_files::service::sort_newest_first;

fn entry(name: &str, len: u64, secs: u64) -> Entry {
    Entry {
        file_name: FileName::Text(name.to_string()),
        stat: Stat::Found { len, modified: Modified::SinceEpoch { secs, nanos: 0 } },
    }
}

fn file(name: &str, size: u64, timestamp: u128) -> File {
    File { name: name.to_string(), size, timestamp }
}

fn item(name: Option<&str>) -> UploadedFile {
    UploadedFile { file_name: name.map(|n| n.to_string()) }
}

fn instruction(from: &str, to: &str) -> Rename {
    Rename { from: from.to_string(), to: to.to_string() }
}

#[test]
fn as_millis_counts_whole_milliseconds() {
    assert_eq!(as_millis(0, 0), 0);
    assert_eq!(as_millis(1, 500_000_000), 1500);
    assert_eq!(as_millis(2, 999_999), 2000);
    assert_eq!(as_millis(2, 1_000_000), 2001);
    assert_eq!(as_millis(1_700_000_000, 123_456_789), 1_700_000_000_123);
}

#[test]
fn as_millis_does_not_overflow() {
    assert_eq!(as_millis(u64::MAX, 999_999_999), u64::MAX as u128 * 1000 + 999);
    assert_eq!(as_millis(u64::MAX, u32::MAX), u64::MAX as u128 * 1000 + 4294);
}

#[test]
fn raed_describes_an_entry() {
    let e = Entry {
        file_name: FileName::Text("a.txt".to_string()),
        stat: Stat::Found { len: 10, modified: Modified::SinceEpoch { secs: 3, nanos: 7_000_000 } },
    };
    assert_eq!(raed(&e), Ok(file("a.txt", 10, 3007)));
}

#[test]
fn raed_unreadable_entry_is_io() {
    let e = Entry { file_name: FileName::Text("a.txt".to_string()), stat: Stat::Unreadable };
    assert_eq!(raed(&e), Err(FileError::Io));
}

#[test]
fn raed_without_modification_time_is_io() {
    let e = Entry {
        file_name: FileName::Text("a.txt".to_string()),
        stat: Stat::Found { len: 1, modified: Modified::Unavailable },
    };
    assert_eq!(raed(&e), Err(FileError::Io));
}

#[test]
fn raed_before_epoch_is_invalid() {
    let e = Entry {
        file_name: FileName::Text("a.txt".to_string()),
        stat: Stat::Found { len: 1, modified: Modified::BeforeEpoch },
    };
    assert_eq!(raed(&e), Err(FileError::InvalidName));
}

#[test]
fn raed_without_text_name_is_invalid() {
    let stat = Stat::Found { len: 1, modified: Modified::SinceEpoch { secs: 1, nanos: 0 } };
    assert_eq!(raed(&Entry { file_name: FileName::Absent, stat }), Err(FileError::InvalidName));
    assert_eq!(raed(&Entry { file_name: FileName::NotText, stat }), Err(FileError::InvalidName));
}

#[test]
fn raed_unreadable_comes_before_the_name() {
    assert_eq!(
        raed(&Entry { file_name: FileName::NotText, stat: Stat::Unreadable }),
        Err(FileError::Io)
    );
}

#[test]
fn list_of_unreadable_directory_fails() {
    assert_eq!(list(None), Err(FileError::Io));
}

#[test]
fn list_of_empty_directory_is_empty() {
    assert_eq!(list(Some(vec![])), Ok(vec![]));
}

#[test]
fn list_skips_what_cannot_be_described() {
    let children = vec![
        entry("a.txt", 10, 100),
        Entry { file_name: FileName::NotText, stat: Stat::Unreadable },
        Entry {
            file_name: FileName::NotText,
            stat: Stat::Found { len: 5, modified: Modified::SinceEpoch { secs: 1, nanos: 0 } },
        },
        entry("b.txt", 20, 200),
    ];
    assert_eq!(
        list(Some(children)),
        Ok(vec![file("a.txt", 10, 100_000), file("b.txt", 20, 200_000)])
    );
}

#[test]
fn list_then_sort_puts_the_newer_file_first() {
    let children = vec![entry("a.txt", 10, 100), entry("b.txt", 20, 200)];
    let files = list(Some(children)).unwrap();
    assert_eq!(files, vec![file("a.txt", 10, 100_000), file("b.txt", 20, 200_000)]);
    let sorted = sort_newest_first(files);
    assert_eq!(sorted, vec![file("b.txt", 20, 200_000), file("a.txt", 10, 100_000)]);
}

#[test]
fn sort_newest_first_orders_by_timestamp() {
    let files = vec![file("a", 1, 5), file("b", 2, 9), file("c", 3, 1), file("d", 4, 7)];
    assert_eq!(
        sort_newest_first(files),
        vec![file("b", 2, 9), file("d", 4, 7), file("a", 1, 5), file("c", 3, 1)]
    );
    assert_eq!(sort_newest_first(vec![]), vec![]);
}

#[test]
fn sort_newest_first_keeps_equal_timestamps_in_order() {
    let files = vec![file("x", 1, 5), file("y", 2, 5), file("z", 3, 6), file("w", 4, 5)];
    assert_eq!(
        sort_newest_first(files),
        vec![file("z", 3, 6), file("x", 1, 5), file("y", 2, 5), file("w", 4, 5)]
    );
}

#[test]
fn create_skips_the_item_without_a_file_name() {
    let upload = Upload { files: vec![item(None), item(Some("c.txt"))] };
    let written = vec![Outcome::Done(entry("ghost", 1, 1)), Outcome::Done(entry("c.txt", 3, 50))];
    assert_eq!(create(upload, &written), vec![file("c.txt", 3, 50_000)]);
}

#[test]
fn create_reports_every_written_item() {
    let upload = Upload { files: vec![item(Some("a")), item(Some("b")), item(Some("c"))] };
    let written = vec![
        Outcome::Done(entry("a", 1, 10)),
        Outcome::Done(entry("b", 2, 20)),
        Outcome::Done(entry("c", 3, 30)),
    ];
    let files = create(upload, &written);
    assert_eq!(files, vec![file("a", 1, 10_000), file("b", 2, 20_000), file("c", 3, 30_000)]);
    assert_eq!(raed(&entry("b", 2, 20)).unwrap().size, files[1].size);
}

#[test]
fn create_skips_failed_copies_and_unreadable_results() {
    let upload = Upload { files: vec![item(Some("a")), item(Some("b")), item(Some("c"))] };
    let written = vec![
        Outcome::Failed,
        Outcome::Done(Entry { file_name: FileName::Text("b".to_string()), stat: Stat::Unreadable }),
        Outcome::Done(entry("c", 3, 30)),
    ];
    assert_eq!(create(upload, &written), vec![file("c", 3, 30_000)]);
}

#[test]
fn create_without_replies_reports_nothing() {
    let upload = Upload { files: vec![item(Some("a")), item(Some("b"))] };
    assert_eq!(create(upload, &[]), vec![]);
}

#[test]
fn rename_describes_the_destination() {
    let r = instruction("a.txt", "b.txt");
    assert_eq!(rename(&r, &Outcome::Done(entry("b.txt", 10, 1))), Ok(file("b.txt", 10, 1000)));
}

#[test]
fn rename_that_failed_is_io() {
    let r = instruction("missing", "b.txt");
    assert_eq!(rename(&r, &Outcome::Failed), Err(FileError::Io));
}

#[test]
fn rename_with_undescribable_destination_fails() {
    let r = instruction("a", "b");
    let gone = Entry { file_name: FileName::Text("b".to_string()), stat: Stat::Unreadable };
    assert_eq!(rename(&r, &Outcome::Done(gone)), Err(FileError::Io));
}

#[test]
fn rename_all_drops_the_failed_instruction() {
    let renames =
        vec![instruction("a", "a2"), instruction("missing", "m2"), instruction("c", "c2")];
    let moved =
        vec![Outcome::Done(entry("a2", 1, 10)), Outcome::Failed, Outcome::Done(entry("c2", 3, 30))];
    assert_eq!(rename_all(&renames, &moved), vec![file("a2", 1, 10_000), file("c2", 3, 30_000)]);
}

#[test]
fn rename_all_of_nothing_is_empty() {
    assert_eq!(rename_all(&[], &[]), vec![]);
    assert_eq!(rename_all(&[], &[Outcome::Done(entry("x", 1, 1))]), vec![]);
}

#[test]
fn rename_all_ignores_instructions_without_reply() {
    let renames = vec![instruction("a", "a2"), instruction("b", "b2")];
    let moved = vec![Outcome::Done(entry("a2", 1, 10))];
    assert_eq!(rename_all(&renames, &moved), vec![file("a2", 1, 10_000)]);
}

#[test]
fn kind_asks_for_a_regular_file_first() {
    assert_eq!(kind(true, false), Kind::File);
    assert_eq!(kind(true, true), Kind::File);
    assert_eq!(kind(false, true), Kind::Directory);
    assert_eq!(kind(false, false), Kind::Absent);
}

#[test]
fn removal_follows_the_kind() {
    assert_eq!(removal(Kind::File), Some(Removal::File));
    assert_eq!(removal(Kind::Directory), Some(Removal::Tree));
    assert_eq!(removal(Kind::Absent), None);
}

#[test]
fn delete_twice_succeeds_once() {
    let first = delete("a.txt".to_string(), Deletion { kind: Kind::File, removed: true });
    assert_eq!(first, Ok("a.txt".to_string()));
    let second = delete("a.txt".to_string(), Deletion { kind: Kind::Absent, removed: false });
    assert_eq!(second, Err(FileError::NotFound));
}

#[test]
fn delete_of_a_directory_gives_its_name() {
    assert_eq!(
        delete("photos".to_string(), Deletion { kind: Kind::Directory, removed: true }),
        Ok("photos".to_string())
    );
}

#[test]
fn delete_that_could_not_remove_is_io() {
    assert_eq!(
        delete("a".to_string(), Deletion { kind: Kind::File, removed: false }),
        Err(FileError::Io)
    );
    assert_eq!(
        delete("d".to_string(), Deletion { kind: Kind::Directory, removed: false }),
        Err(FileError::Io)
    );
}

#[test]
fn delete_of_nothing_is_not_found_whatever_else_is_said() {
    assert_eq!(
        delete("a".to_string(), Deletion { kind: Kind::Absent, removed: true }),
        Err(FileError::NotFound)
    );
}

#[test]
fn delete_keeps_the_name_as_given() {
    assert_eq!(
        delete("../secret".to_string(), Deletion { kind: Kind::File, removed: true }),
        Ok("../secret".to_string())
    );
}

#[test]
fn delete_all_reports_what_was_removed() {
    let names = vec!["a".to_string(), "b".to_string(), "c".to_string(), "d".to_string()];
    let deletions = vec![
        Deletion { kind: Kind::File, removed: true },
        Deletion { kind: Kind::Absent, removed: false },
        Deletion { kind: Kind::Directory, removed: true },
        Deletion { kind: Kind::File, removed: false },
    ];
    assert_eq!(delete_all(names, &deletions), vec!["a".to_string(), "c".to_string()]);
}

#[test]
fn delete_all_of_the_same_name_twice() {
    let names = vec!["a".to_string(), "a".to_string()];
    let deletions = vec![
        Deletion { kind: Kind::File, removed: true },
        Deletion { kind: Kind::Absent, removed: false },
    ];
    assert_eq!(delete_all(names, &deletions), vec!["a".to_string()]);
}

#[test]
fn delete_all_without_replies_reports_nothing() {
    assert_eq!(delete_all(vec!["a".to_string()], &[]), Vec::<String>::new());
    assert_eq!(delete_all(vec![], &[]), Vec::<String>::new());
}
