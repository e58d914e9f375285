//! The catalog of the managed directory and the batch operations on it.
//!
//! Nothing here touches a disk. The caller performs each file-system call and
//! hands in what the file system answered; the functions below decide what a
//! reply means, which removal a deletion calls for, and what a batch reports.
//! Names are taken as they come: none is checked to stay inside the managed
//! directory, and an upload replaces an entry of the same name.
use vstd::prelude::*;

verus! {

/// The record of one entry: its name, its size in bytes, and when it was last
/// modified, in milliseconds since the epoch.
#[derive(Clone, Debug, PartialEq, Eq)]
pub struct File {
    pub name: String,
    pub size: u64,
    pub timestamp: u128,
}

/// One instruction to move `from` to `to`, both relative to the managed
/// directory.
#[derive(Clone, Debug, PartialEq, Eq)]
pub struct Rename {
    pub from: String,
    pub to: String,
}

/// One uploaded item, with the file name that its sender suggested.
#[derive(Clone, Debug, PartialEq, Eq)]
pub struct UploadedFile {
    pub file_name: Option<String>,
}

/// The items of one upload, in the order in which they came.
#[derive(Clone, Debug, PartialEq, Eq)]
pub struct Upload {
    pub files: Vec<UploadedFile>,
}

/// Why an operation on one entry failed.
#[derive(Clone, Copy, Debug, PartialEq, Eq)]
pub enum FileError {
    /// Nothing stands under the name.
    NotFound,
    /// The file system refused or failed a call.
    Io,
    /// The entry has no name that is text, or a modification time before the
    /// epoch.
    InvalidName,
}

/// The last-modified time of an entry, relative to the epoch.
#[derive(Clone, Copy, Debug, PartialEq, Eq)]
pub enum Modified {
    /// The file system does not tell.
    Unavailable,
    BeforeEpoch,
    SinceEpoch { secs: u64, nanos: u32 },
}

/// What the file system tells of an entry's content.
#[derive(Clone, Copy, Debug, PartialEq, Eq)]
pub enum Stat {
    Unreadable,
    Found { len: u64, modified: Modified },
}

/// The last component of an entry's path.
#[derive(Clone, Debug, PartialEq, Eq)]
pub enum FileName {
    /// The path ends in no name.
    Absent,
    /// The name cannot be decoded as text.
    NotText,
    Text(String),
}

/// One entry as the file system reported it.
#[derive(Clone, Debug, PartialEq, Eq)]
pub struct Entry {
    pub file_name: FileName,
    pub stat: Stat,
}

/// What the file system answered to a write or a move.
#[derive(Clone, Debug, PartialEq, Eq)]
pub enum Outcome {
    Failed,
    /// The call succeeded; the entry at its destination then read thus.
    Done(Entry),
}

/// What stands under a name.
#[derive(Clone, Copy, Debug, PartialEq, Eq)]
pub enum Kind {
    File,
    Directory,
    Absent,
}

/// The file-system call that removes an entry.
#[derive(Clone, Copy, Debug, PartialEq, Eq)]
pub enum Removal {
    /// Remove one regular file.
    File,
    /// Remove a directory with everything below it.
    Tree,
}

/// What the file system answered to one deletion: what stood under the name,
/// and whether the removal that this calls for succeeded.
#[derive(Clone, Copy, Debug, PartialEq, Eq)]
pub struct Deletion {
    pub kind: Kind,
    pub removed: bool,
}

/// A record as plain values.
pub ghost struct FileView {
    pub name: Seq<char>,
    pub size: nat,
    pub timestamp: nat,
}

impl View for File {
    type V = FileView;

    open spec fn view(&self) -> FileView {
        FileView { name: self.name@, size: self.size as nat, timestamp: self.timestamp as nat }
    }
}

/// The whole milliseconds in `secs` seconds and `nanos` nanoseconds.
pub open spec fn millis(secs: u64, nanos: u32) -> nat {
    (secs * 1000 + nanos / 1_000_000) as nat
}

/// The record that an entry yields, or why it yields none.
pub open spec fn described(entry: Entry) -> Result<FileView, FileError> {
    match entry.stat {
        Stat::Unreadable => Err(FileError::Io),
        Stat::Found { len, modified } => match modified {
            Modified::Unavailable => Err(FileError::Io),
            Modified::BeforeEpoch => Err(FileError::InvalidName),
            Modified::SinceEpoch { secs, nanos } => match entry.file_name {
                FileName::Text(name) => Ok(
                    FileView { name: name@, size: len as nat, timestamp: millis(secs, nanos) },
                ),
                _ => Err(FileError::InvalidName),
            },
        },
    }
}

/// The values of the successful outcomes, in their order.
pub open spec fn successes<T>(outcomes: Seq<Result<T, FileError>>) -> Seq<T>
    decreases outcomes.len(),
{
    if outcomes.len() == 0 {
        Seq::empty()
    } else {
        let before = successes(outcomes.drop_last());
        match outcomes.last() {
            Ok(value) => before.push(value),
            Err(_) => before,
        }
    }
}

/// The records of a sequence of files.
pub open spec fn views(files: Seq<File>) -> Seq<FileView> {
    files.map_values(|file: File| file@)
}

/// The texts of a sequence of names.
pub open spec fn texts(names: Seq<String>) -> Seq<Seq<char>> {
    names.map_values(|name: String| name@)
}

/// The result of describing an entry, with the record as plain values.
pub open spec fn viewed(result: Result<File, FileError>) -> Result<FileView, FileError> {
    match result {
        Ok(file) => Ok(file@),
        Err(e) => Err(e),
    }
}

/// The outcome of a write or a move: the record of the destination, where the
/// call succeeded and the destination can be described.
pub open spec fn settled(outcome: Outcome) -> Result<FileView, FileError> {
    match outcome {
        Outcome::Failed => Err(FileError::Io),
        Outcome::Done(entry) => described(entry),
    }
}

/// The reply to instruction `i`; an instruction without a reply was not
/// carried out.
pub open spec fn reply_at(replies: Seq<Outcome>, i: int) -> Outcome {
    if 0 <= i < replies.len() {
        replies[i]
    } else {
        Outcome::Failed
    }
}

/// The outcome of each child of a directory.
pub open spec fn list_outcomes(children: Seq<Entry>) -> Seq<Result<FileView, FileError>> {
    Seq::new(children.len(), |i: int| described(children[i]))
}

/// The outcome of one uploaded item: an item without a file name is not
/// written.
pub open spec fn created(item: UploadedFile, written: Outcome) -> Result<FileView, FileError> {
    match item.file_name {
        None => Err(FileError::InvalidName),
        Some(_) => settled(written),
    }
}

/// The outcome of each item of an upload.
pub open spec fn create_outcomes(items: Seq<UploadedFile>, written: Seq<Outcome>) -> Seq<
    Result<FileView, FileError>,
> {
    Seq::new(items.len(), |i: int| created(items[i], reply_at(written, i)))
}

/// The outcome of each instruction of a batch of moves.
pub open spec fn rename_outcomes(renames: Seq<Rename>, moved: Seq<Outcome>) -> Seq<
    Result<FileView, FileError>,
> {
    Seq::new(renames.len(), |i: int| settled(reply_at(moved, i)))
}

/// What stands under a name, by the file system's answers to two questions:
/// whether it is a regular file, which is asked first, and whether it is a
/// directory.
pub open spec fn kind_of(is_file: bool, is_dir: bool) -> Kind {
    if is_file {
        Kind::File
    } else if is_dir {
        Kind::Directory
    } else {
        Kind::Absent
    }
}

/// The removal that a deletion calls for, by what stands under the name.
pub open spec fn removal_for(kind: Kind) -> Option<Removal> {
    match kind {
        Kind::File => Some(Removal::File),
        Kind::Directory => Some(Removal::Tree),
        Kind::Absent => None,
    }
}

/// The outcome of deleting `name`.
pub open spec fn deleted(name: Seq<char>, deletion: Deletion) -> Result<Seq<char>, FileError> {
    if deletion.kind is Absent {
        Err(FileError::NotFound)
    } else if deletion.removed {
        Ok(name)
    } else {
        Err(FileError::Io)
    }
}

/// The reply to deletion `i`; a name without a reply was not looked up.
pub open spec fn deletion_at(deletions: Seq<Deletion>, i: int) -> Deletion {
    if 0 <= i < deletions.len() {
        deletions[i]
    } else {
        Deletion { kind: Kind::Absent, removed: false }
    }
}

/// The outcome of each name of a batch of deletions.
pub open spec fn delete_outcomes(names: Seq<String>, deletions: Seq<Deletion>) -> Seq<
    Result<Seq<char>, FileError>,
> {
    Seq::new(names.len(), |i: int| deleted(names[i]@, deletion_at(deletions, i)))
}

/// Adding one outcome adds its value, if it has one.
pub proof fn successes_push<T>(outcomes: Seq<Result<T, FileError>>, next: Result<T, FileError>)
    ensures
        successes(outcomes.push(next)) == match next {
            Ok(value) => successes(outcomes).push(value),
            Err(_) => successes(outcomes),
        },
{
    assert(outcomes.push(next).drop_last() =~= outcomes);
}

/// The whole milliseconds in a span of time.
pub fn as_millis(secs: u64, nanos: u32) -> (ms: u128)
    ensures
        ms == millis(secs, nanos),
{
    let whole: u128 = secs as u128 * 1000;
    let part: u128 = (nanos / 1_000_000) as u128;
    whole + part
}

/// Describes one entry.
pub fn raed(entry: &Entry) -> (result: Result<File, FileError>)
    ensures
        viewed(result) == described(*entry),
{
    let (len, modified) = match entry.stat {
        Stat::Unreadable => {
            return Err(FileError::Io);
        },
        Stat::Found { len, modified } => (len, modified),
    };
    let timestamp: u128 = match modified {
        Modified::Unavailable => {
            return Err(FileError::Io);
        },
        Modified::BeforeEpoch => {
            return Err(FileError::InvalidName);
        },
        Modified::SinceEpoch { secs, nanos } => as_millis(secs, nanos),
    };
    match &entry.file_name {
        FileName::Text(name) => Ok(File { name: name.clone(), size: len, timestamp }),
        _ => Err(FileError::InvalidName),
    }
}

/// The records of a directory's children, in the order in which they were
/// read; a child that cannot be described is left out. `children` is `None`
/// where the directory itself could not be read.
pub fn list(children: Option<Vec<Entry>>) -> (result: Result<Vec<File>, FileError>)
    ensures
        match children {
            None => result == Err::<Vec<File>, FileError>(FileError::Io),
            Some(entries) => result is Ok && views(result.unwrap()@) == successes(
                list_outcomes(entries@),
            ),
        },
{
    let entries = match children {
        None => {
            return Err(FileError::Io);
        },
        Some(entries) => entries,
    };
    let mut files: Vec<File> = Vec::new();
    let mut i: usize = 0;
    assert(views(files@) =~= successes(list_outcomes(entries@).take(0)));
    while i < entries.len()
        invariant
            i <= entries.len(),
            views(files@) == successes(list_outcomes(entries@).take(i as int)),
        decreases entries.len() - i,
    {
        let result = raed(&entries[i]);
        proof {
            let all = list_outcomes(entries@);
            assert(all.take(i + 1) =~= all.take(i as int).push(all[i as int]));
            successes_push(all.take(i as int), all[i as int]);
        }
        match result {
            Ok(file) => {
                assert(views(files@.push(file)) =~= views(files@).push(file@));
                files.push(file);
            },
            Err(_) => {},
        }
        i = i + 1;
    }
    assert(list_outcomes(entries@).take(i as int) =~= list_outcomes(entries@));
    Ok(files)
}

/// The record of one written or moved entry.
fn settle(outcome: &Outcome) -> (result: Result<File, FileError>)
    ensures
        viewed(result) == settled(*outcome),
{
    match outcome {
        Outcome::Failed => Err(FileError::Io),
        Outcome::Done(entry) => raed(entry),
    }
}

/// The records of the uploaded items that were written, in the order of the
/// upload. `written[i]` is what the file system answered when item `i` was
/// copied to its file name in the managed directory.
pub fn create(upload: Upload, written: &[Outcome]) -> (files: Vec<File>)
    ensures
        views(files@) == successes(create_outcomes(upload.files@, written@)),
{
    let mut files: Vec<File> = Vec::new();
    let mut i: usize = 0;
    assert(views(files@) =~= successes(create_outcomes(upload.files@, written@).take(0)));
    while i < upload.files.len()
        invariant
            i <= upload.files.len(),
            views(files@) == successes(
                create_outcomes(upload.files@, written@).take(i as int),
            ),
        decreases upload.files.len() - i,
    {
        proof {
            let all = create_outcomes(upload.files@, written@);
            assert(all.take(i + 1) =~= all.take(i as int).push(all[i as int]));
            successes_push(all.take(i as int), all[i as int]);
        }
        if upload.files[i].file_name.is_some() && i < written.len() {
            match settle(&written[i]) {
                Ok(file) => {
                    assert(views(files@.push(file)) =~= views(files@).push(file@));
                    files.push(file);
                },
                Err(_) => {},
            }
        }
        i = i + 1;
    }
    assert(create_outcomes(upload.files@, written@).take(i as int) =~= create_outcomes(
        upload.files@,
        written@,
    ));
    files
}

/// The record of a moved entry. `moved` is what the file system answered when
/// `instruction.from` was moved to `instruction.to`.
pub fn rename(instruction: &Rename, moved: &Outcome) -> (result: Result<File, FileError>)
    ensures
        viewed(result) == settled(*moved),
{
    settle(moved)
}

/// The records of the instructions that were carried out, in the order of
/// the instructions. `moved[i]` is the reply to `renames[i]`.
pub fn rename_all(renames: &[Rename], moved: &[Outcome]) -> (files: Vec<File>)
    ensures
        views(files@) == successes(rename_outcomes(renames@, moved@)),
{
    let mut files: Vec<File> = Vec::new();
    let mut i: usize = 0;
    assert(views(files@) =~= successes(rename_outcomes(renames@, moved@).take(0)));
    while i < renames.len()
        invariant
            i <= renames.len(),
            views(files@) == successes(rename_outcomes(renames@, moved@).take(i as int)),
        decreases renames.len() - i,
    {
        proof {
            let all = rename_outcomes(renames@, moved@);
            assert(all.take(i + 1) =~= all.take(i as int).push(all[i as int]));
            successes_push(all.take(i as int), all[i as int]);
        }
        if i < moved.len() {
            match rename(&renames[i], &moved[i]) {
                Ok(file) => {
                    assert(views(files@.push(file)) =~= views(files@).push(file@));
                    files.push(file);
                },
                Err(_) => {},
            }
        }
        i = i + 1;
    }
    assert(rename_outcomes(renames@, moved@).take(i as int) =~= rename_outcomes(
        renames@,
        moved@,
    ));
    files
}

/// What stands under a name that the file system calls a regular file, a
/// directory, or neither.
pub fn kind(is_file: bool, is_dir: bool) -> (found: Kind)
    ensures
        found == kind_of(is_file, is_dir),
{
    if is_file {
        Kind::File
    } else if is_dir {
        Kind::Directory
    } else {
        Kind::Absent
    }
}

/// The removal to perform for a deletion, by what stands under the name;
/// none where nothing stands there.
pub fn removal(kind: Kind) -> (call: Option<Removal>)
    ensures
        call == removal_for(kind),
{
    match kind {
        Kind::File => Some(Removal::File),
        Kind::Directory => Some(Removal::Tree),
        Kind::Absent => None,
    }
}

/// The name of a deleted entry.
pub fn delete(name: String, deletion: Deletion) -> (result: Result<String, FileError>)
    ensures
        match result {
            Ok(gone) => gone == name && deleted(name@, deletion) == Ok::<Seq<char>, FileError>(
                name@,
            ),
            Err(e) => deleted(name@, deletion) == Err::<Seq<char>, FileError>(e),
        },
{
    match removal(deletion.kind) {
        None => Err(FileError::NotFound),
        Some(_) => if deletion.removed {
            Ok(name)
        } else {
            Err(FileError::Io)
        },
    }
}

/// The names that were deleted, in the order in which they were given.
/// `deletions[i]` is the reply to `names[i]`.
pub fn delete_all(names: Vec<String>, deletions: &[Deletion]) -> (gone: Vec<String>)
    ensures
        texts(gone@) == successes(delete_outcomes(names@, deletions@)),
{
    let mut gone: Vec<String> = Vec::new();
    let mut i: usize = 0;
    assert(texts(gone@) =~= successes(delete_outcomes(names@, deletions@).take(0)));
    while i < names.len()
        invariant
            i <= names.len(),
            texts(gone@) == successes(delete_outcomes(names@, deletions@).take(i as int)),
        decreases names.len() - i,
    {
        proof {
            let all = delete_outcomes(names@, deletions@);
            assert(all.take(i + 1) =~= all.take(i as int).push(all[i as int]));
            successes_push(all.take(i as int), all[i as int]);
        }
        if i < deletions.len() {
            match delete(names[i].clone(), deletions[i]) {
                Ok(name) => {
                    assert(texts(gone@.push(name)) =~= texts(gone@).push(name@));
                    gone.push(name);
                },
                Err(_) => {},
            }
        }
        i = i + 1;
    }
    assert(delete_outcomes(names@, deletions@).take(i as int) =~= delete_outcomes(
        names@,
        deletions@,
    ));
    gone
}

/// A batch in two parts reports what its parts report, one after the other.
pub proof fn successes_concat<T>(
    first: Seq<Result<T, FileError>>,
    second: Seq<Result<T, FileError>>,
)
    ensures
        successes(first + second) == successes(first) + successes(second),
    decreases second.len(),
{
    if second.len() == 0 {
        assert(first + second =~= first);
        assert(successes(first) + successes(second) =~= successes(first));
    } else {
        let all = first + second;
        assert(all.drop_last() =~= first + second.drop_last());
        assert(all.last() == second.last());
        successes_concat(first, second.drop_last());
        match second.last() {
            Ok(value) => {
                assert((successes(first) + successes(second.drop_last())).push(value) =~= successes(
                    first,
                ) + successes(second.drop_last()).push(value));
            },
            Err(_) => {},
        }
    }
}

/// A failed instruction leaves no trace in the report: the instructions
/// before and after it are reported as if it had not been given, in their
/// order.
pub proof fn failure_is_dropped<T>(
    before: Seq<Result<T, FileError>>,
    error: FileError,
    after: Seq<Result<T, FileError>>,
)
    ensures
        successes(before.push(Err(error)) + after) == successes(before) + successes(after),
{
    successes_push(before, Err(error));
    successes_concat(before.push(Err(error)), after);
}

/// A batch of moves in which one instruction fails reports the instructions
/// before it and those after it, in their order, and nothing of the one
/// that failed.
pub proof fn failed_rename_is_dropped(
    before: Seq<Rename>,
    moved_before: Seq<Outcome>,
    failing: Rename,
    reply: Outcome,
    after: Seq<Rename>,
    moved_after: Seq<Outcome>,
)
    requires
        moved_before.len() == before.len(),
        settled(reply) is Err,
    ensures
        successes(
            rename_outcomes(before.push(failing) + after, moved_before.push(reply) + moved_after),
        ) == successes(rename_outcomes(before, moved_before)) + successes(
            rename_outcomes(after, moved_after),
        ),
{
    let renames = before.push(failing) + after;
    let moved = moved_before.push(reply) + moved_after;
    let first = rename_outcomes(before, moved_before);
    let second = rename_outcomes(after, moved_after);
    let error = settled(reply)->Err_0;
    assert forall|i: int| 0 <= i < renames.len() implies rename_outcomes(renames, moved)[i] == (
    first.push(Err(error)) + second)[i] by {
        if i < before.len() {
            assert(reply_at(moved, i) == reply_at(moved_before, i));
        } else if i == before.len() {
            assert(reply_at(moved, i) == reply);
        } else {
            let k = i - before.len() - 1;
            if k < moved_after.len() {
                assert(moved[i] == moved_after[k]);
            }
            assert(reply_at(moved, i) == reply_at(moved_after, k));
        }
    }
    assert(rename_outcomes(renames, moved) =~= first.push(Err(error)) + second);
    failure_is_dropped(first, error, second);
}

/// A report is never longer than its batch, and each of its values is the
/// value of some successful instruction.
pub proof fn successes_are_outcomes<T>(outcomes: Seq<Result<T, FileError>>)
    ensures
        successes(outcomes).len() <= outcomes.len(),
        forall|k: int|
            0 <= k < successes(outcomes).len() ==> exists|i: int|
                0 <= i < outcomes.len() && outcomes[i] == Ok::<T, FileError>(
                    #[trigger] successes(outcomes)[k],
                ),
    decreases outcomes.len(),
{
    if outcomes.len() > 0 {
        let before = outcomes.drop_last();
        successes_are_outcomes(before);
        assert forall|k: int| 0 <= k < successes(outcomes).len() implies exists|i: int|
            0 <= i < outcomes.len() && outcomes[i] == Ok::<T, FileError>(
                #[trigger] successes(outcomes)[k],
            ) by {
            if k < successes(before).len() {
                let i = choose|i: int|
                    0 <= i < before.len() && before[i] == Ok::<T, FileError>(successes(before)[k]);
                assert(outcomes[i] == Ok::<T, FileError>(successes(outcomes)[k]));
            } else {
                assert(outcomes[outcomes.len() - 1] == Ok::<T, FileError>(successes(outcomes)[k]));
            }
        }
    }
}

/// A batch without a failure reports every instruction, each in its place.
pub proof fn successes_of_all<T>(outcomes: Seq<Result<T, FileError>>)
    requires
        forall|i: int| 0 <= i < outcomes.len() ==> (#[trigger] outcomes[i]) is Ok,
    ensures
        successes(outcomes).len() == outcomes.len(),
        forall|i: int|
            0 <= i < outcomes.len() ==> outcomes[i] == Ok::<T, FileError>(
                #[trigger] successes(outcomes)[i],
            ),
    decreases outcomes.len(),
{
    if outcomes.len() > 0 {
        let before = outcomes.drop_last();
        assert forall|i: int| 0 <= i < before.len() implies (#[trigger] before[i]) is Ok by {
            assert(outcomes[i] is Ok);
        }
        successes_of_all(before);
        assert(outcomes[outcomes.len() - 1] is Ok);
        assert forall|i: int| 0 <= i < outcomes.len() implies outcomes[i] == Ok::<T, FileError>(
            #[trigger] successes(outcomes)[i],
        ) by {
            if i < before.len() {
                assert(before[i] == Ok::<T, FileError>(successes(before)[i]));
            }
        }
    }
}

/// An upload whose items all have a file name, and were all written under it
/// and read back, is reported item by item: as many records as items, each
/// with the name of its item and the size that the file system gave.
pub proof fn upload_is_reported_whole(items: Seq<UploadedFile>, written: Seq<Outcome>)
    requires
        written.len() == items.len(),
        forall|i: int|
            0 <= i < items.len() ==> {
                &&& (#[trigger] items[i]).file_name is Some
                &&& written[i] is Done
                &&& described(written[i]->Done_0) is Ok
                &&& written[i]->Done_0.file_name == FileName::Text(items[i].file_name.unwrap())
            },
    ensures
        successes(create_outcomes(items, written)).len() == items.len(),
        forall|i: int|
            0 <= i < items.len() ==> {
                let record = #[trigger] successes(create_outcomes(items, written))[i];
                &&& record.name == items[i].file_name.unwrap()@
                &&& written[i]->Done_0.stat is Found
                &&& record.size == written[i]->Done_0.stat->len
                &&& Ok::<FileView, FileError>(record) == described(written[i]->Done_0)
            },
{
    let outcomes = create_outcomes(items, written);
    assert forall|i: int| 0 <= i < outcomes.len() implies (#[trigger] outcomes[i]) is Ok by {
        assert(items[i].file_name is Some);
    }
    successes_of_all(outcomes);
    assert forall|i: int| 0 <= i < items.len() implies {
        let record = #[trigger] successes(outcomes)[i];
        &&& record.name == items[i].file_name.unwrap()@
        &&& written[i]->Done_0.stat is Found
        &&& record.size == written[i]->Done_0.stat->len
        &&& Ok::<FileView, FileError>(record) == described(written[i]->Done_0)
    } by {
        assert(items[i].file_name is Some);
        assert(outcomes[i] == Ok::<FileView, FileError>(successes(outcomes)[i]));
    }
}

/// Deleting a name twice succeeds once: where the first removal succeeded
/// and the file system then finds nothing under the name, the first deletion
/// gives the name and the second is `NotFound`.
pub proof fn delete_twice(name: Seq<char>, first: Deletion, second: Deletion)
    requires
        !(first.kind is Absent),
        first.removed,
        second.kind is Absent,
    ensures
        deleted(name, first) == Ok::<Seq<char>, FileError>(name),
        deleted(name, second) == Err::<Seq<char>, FileError>(FileError::NotFound),
{
}

} // verus!
