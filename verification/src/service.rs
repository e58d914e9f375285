//! What each operation of the service answers, given what the file system
//! replied: the records to present, or the status that stands for none.
//!
//! A listing is presented newest first. That order belongs to the
//! presentation: the catalog itself reports entries as they were read.
use crate::file::{
    create, create_outcomes, delete_all, delete_outcomes, described, list, list_outcomes, raed,
    rename_all, rename_outcomes, successes, texts, views, Deletion, Entry, File, FileView,
    Outcome, Rename, Upload,
};
use vstd::prelude::*;

verus! {

/// The answer to one operation.
#[derive(Clone, Debug, PartialEq, Eq)]
pub enum Response<T> {
    /// The operation yielded something to present.
    Success(T),
    BadRequest,
    NotFound,
    InternalServerError,
}

/// Whether the records stand newest first: none is followed by one that was
/// modified later.
pub open spec fn newest_first(records: Seq<FileView>) -> bool {
    forall|i: int, j: int|
        0 <= i < j < records.len() ==> records[i].timestamp >= records[j].timestamp
}

/// How many records at the head of `records` were modified at `timestamp` or
/// later.
pub open spec fn rank(records: Seq<FileView>, timestamp: nat) -> nat
    decreases records.len(),
{
    if records.len() == 0 || records[0].timestamp < timestamp {
        0
    } else {
        1 + rank(records.drop_first(), timestamp)
    }
}

/// `records` with `record` entered behind the records at its head that are
/// as new or newer.
pub open spec fn placed(records: Seq<FileView>, record: FileView) -> Seq<FileView> {
    records.insert(rank(records, record.timestamp) as int, record)
}

/// The records in the order of presentation: newest first, and records of
/// one timestamp in the order in which they came.
pub open spec fn arranged(records: Seq<FileView>) -> Seq<FileView>
    decreases records.len(),
{
    if records.len() == 0 {
        Seq::empty()
    } else {
        placed(arranged(records.drop_last()), records.last())
    }
}

/// The rank is where the run of records as new as `timestamp` ends.
pub proof fn rank_ends_the_run(records: Seq<FileView>, timestamp: nat)
    ensures
        rank(records, timestamp) <= records.len(),
        forall|k: int|
            0 <= k < rank(records, timestamp) ==> (#[trigger] records[k]).timestamp >= timestamp,
        rank(records, timestamp) < records.len() ==> records[rank(
            records,
            timestamp,
        ) as int].timestamp < timestamp,
    decreases records.len(),
{
    if !(records.len() == 0 || records[0].timestamp < timestamp) {
        let rest = records.drop_first();
        rank_ends_the_run(rest, timestamp);
        assert forall|k: int| 0 <= k < rank(records, timestamp) implies (
        #[trigger] records[k]).timestamp >= timestamp by {
            if k > 0 {
                assert(rest[k - 1].timestamp >= timestamp);
            }
        }
        if rank(records, timestamp) < records.len() {
            assert(rest[rank(rest, timestamp) as int] == records[rank(records, timestamp) as int]);
        }
    }
}

/// The place where a run of records as new as `timestamp` ends is the rank.
pub proof fn run_end_is_rank(records: Seq<FileView>, timestamp: nat, at: int)
    requires
        0 <= at <= records.len(),
        forall|k: int| 0 <= k < at ==> (#[trigger] records[k]).timestamp >= timestamp,
        at < records.len() ==> records[at].timestamp < timestamp,
    ensures
        rank(records, timestamp) == at,
    decreases at,
{
    if at > 0 {
        assert(records[0].timestamp >= timestamp);
        let rest = records.drop_first();
        assert forall|k: int| 0 <= k < at - 1 implies (#[trigger] rest[k]).timestamp
            >= timestamp by {
            assert(records[k + 1].timestamp >= timestamp);
        }
        run_end_is_rank(rest, timestamp, at - 1);
    }
}

/// Entering a record into records that stand newest first leaves them so.
pub proof fn placed_stays_newest_first(records: Seq<FileView>, record: FileView)
    requires
        newest_first(records),
    ensures
        newest_first(placed(records, record)),
{
    let at = rank(records, record.timestamp) as int;
    let after = placed(records, record);
    rank_ends_the_run(records, record.timestamp);
    assert forall|a: int, b: int| 0 <= a < b < after.len() implies after[a].timestamp
        >= after[b].timestamp by {
        if a < at && b > at {
            assert(records[a].timestamp >= records[b - 1].timestamp);
        } else if a == at {
            assert(records[b - 1].timestamp <= records[at].timestamp);
        } else if b == at {
            assert(records[a].timestamp >= record.timestamp);
        } else if b < at {
            assert(records[a].timestamp >= records[b].timestamp);
        } else {
            assert(records[a - 1].timestamp >= records[b - 1].timestamp);
        }
    }
}

/// Entering a value into a sequence adds it to what the sequence holds.
pub proof fn insert_adds_one<T>(items: Seq<T>, at: int, item: T)
    requires
        0 <= at <= items.len(),
    ensures
        items.insert(at, item).to_multiset() == items.to_multiset().insert(item),
{
    let longer = items.insert(at, item);
    assert(longer[at] == item);
    assert(longer.remove(at) =~= items);
    vstd::seq_lib::to_multiset_remove(longer, at);
    longer.to_multiset_ensures();
    assert(longer.contains(item));
    assert(longer.to_multiset() =~= items.to_multiset().insert(item));
}

/// The order of presentation is newest first, and it holds the records that
/// it was given, each as often as it was given.
pub proof fn arranged_is_sorted(records: Seq<FileView>)
    ensures
        newest_first(arranged(records)),
        arranged(records).to_multiset() == records.to_multiset(),
        arranged(records).len() == records.len(),
    decreases records.len(),
{
    if records.len() > 0 {
        let before = arranged(records.drop_last());
        arranged_is_sorted(records.drop_last());
        placed_stays_newest_first(before, records.last());
        rank_ends_the_run(before, records.last().timestamp);
        insert_adds_one(before, rank(before, records.last().timestamp) as int, records.last());
        assert(records.drop_last().push(records.last()) =~= records);
        vstd::seq_lib::to_multiset_build(records.drop_last(), records.last());
        assert(arranged(records).to_multiset() =~= records.to_multiset());
    } else {
        assert(records =~= Seq::empty());
    }
}

/// The same records in the order of presentation.
pub fn sort_newest_first(files: Vec<File>) -> (sorted: Vec<File>)
    ensures
        views(sorted@) == arranged(views(files@)),
        newest_first(views(sorted@)),
        views(sorted@).to_multiset() == views(files@).to_multiset(),
        sorted.len() == files.len(),
{
    let mut sorted: Vec<File> = Vec::new();
    let mut i: usize = 0;
    assert(views(sorted@) =~= arranged(views(files@.take(0))));
    while i < files.len()
        invariant
            i <= files.len(),
            views(sorted@) == arranged(views(files@.take(i as int))),
        decreases files.len() - i,
    {
        let file = &files[i];
        let mut at: usize = 0;
        while at < sorted.len() && sorted[at].timestamp >= file.timestamp
            invariant
                at <= sorted.len(),
                forall|k: int| 0 <= k < at ==> (#[trigger] sorted@[k]).timestamp >= file.timestamp,
            decreases sorted.len() - at,
        {
            at = at + 1;
        }
        let copy = File { name: file.name.clone(), size: file.size, timestamp: file.timestamp };
        proof {
            let before = views(sorted@);
            let upto = views(files@.take(i + 1));
            assert forall|k: int| 0 <= k < at implies (#[trigger] before[k]).timestamp
                >= copy@.timestamp by {
                assert(sorted@[k].timestamp >= file.timestamp);
            }
            run_end_is_rank(before, copy@.timestamp, at as int);
            assert(views(sorted@.insert(at as int, copy)) =~= placed(before, copy@));
            assert(upto.drop_last() =~= views(files@.take(i as int)));
            assert(upto.last() == copy@);
        }
        sorted.insert(at, copy);
        i = i + 1;
    }
    proof {
        assert(files@.take(i as int) =~= files@);
        arranged_is_sorted(views(files@));
    }
    sorted
}

/// Lists the managed directory, newest first. An unreadable directory is a
/// server error, and one without a describable child is `NotFound`.
pub fn get_files(children: Option<Vec<Entry>>) -> (response: Response<Vec<File>>)
    ensures
        match children {
            None => response is InternalServerError,
            Some(entries) => if successes(list_outcomes(entries@)).len() == 0 {
                response is NotFound
            } else {
                &&& response is Success
                &&& views(response->Success_0@) == arranged(successes(list_outcomes(entries@)))
            },
        },
{
    let files = match list(children) {
        Ok(files) => files,
        Err(_) => {
            return Response::InternalServerError;
        },
    };
    assert(views(files@).len() == files.len());
    if files.len() == 0 {
        Response::NotFound
    } else {
        Response::Success(sort_newest_first(files))
    }
}

/// Reports an upload: the records of the items that were written, or
/// `BadRequest` where none was.
pub fn create_files(upload: Upload, written: &[Outcome]) -> (response: Response<Vec<File>>)
    ensures
        if successes(create_outcomes(upload.files@, written@)).len() == 0 {
            response is BadRequest
        } else {
            response is Success && views(response->Success_0@) == successes(
                create_outcomes(upload.files@, written@),
            )
        },
{
    let files = create(upload, written);
    assert(views(files@).len() == files.len());
    if files.len() == 0 {
        Response::BadRequest
    } else {
        Response::Success(files)
    }
}

/// Reports a batch of moves: the records of the instructions that were
/// carried out, or `NotFound` where none was.
pub fn rename_files(renames: Vec<Rename>, moved: &[Outcome]) -> (response: Response<Vec<File>>)
    ensures
        if successes(rename_outcomes(renames@, moved@)).len() == 0 {
            response is NotFound
        } else {
            response is Success && views(response->Success_0@) == successes(
                rename_outcomes(renames@, moved@),
            )
        },
{
    let files = rename_all(renames.as_slice(), moved);
    assert(views(files@).len() == files.len());
    if files.len() == 0 {
        Response::NotFound
    } else {
        Response::Success(files)
    }
}

/// Reports a batch of deletions: the names that were deleted, or `NotFound`
/// where none was.
pub fn delete_files(names: Vec<String>, deletions: &[Deletion]) -> (response: Response<
    Vec<String>,
>)
    ensures
        if successes(delete_outcomes(names@, deletions@)).len() == 0 {
            response is NotFound
        } else {
            response is Success && texts(response->Success_0@) == successes(
                delete_outcomes(names@, deletions@),
            )
        },
{
    let gone = delete_all(names, deletions);
    assert(texts(gone@).len() == gone.len());
    if gone.len() == 0 {
        Response::NotFound
    } else {
        Response::Success(gone)
    }
}

/// The record of one entry, or `NotFound` where it cannot be described.
pub fn get_file(entry: &Entry) -> (response: Response<File>)
    ensures
        match described(*entry) {
            Ok(record) => response is Success && response->Success_0@ == record,
            Err(_) => response is NotFound,
        },
{
    match raed(entry) {
        Ok(file) => Response::Success(file),
        Err(_) => Response::NotFound,
    }
}

} // verus!
