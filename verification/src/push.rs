//! Pushed streams, as a body is decoded into them.

use vstd::prelude::*;
use vstd::string::*;

use crate::model::{copy_pairs, entries_view, pairs_view, EntryView, Labels, LogEntry};

verus! {

/// An entry of a pushed stream, with what its timestamp reads as.
pub struct PushedEntry {
    pub timestamp_ns: Result<i64, String>,
    pub line: String,
    pub structured_metadata: Vec<(String, String)>,
}

/// A pushed stream, with what its label text reads as.
pub struct PushedStream {
    pub labels_text: String,
    pub labels: Result<Labels, String>,
    pub entries: Vec<PushedEntry>,
}

/// The entries of a pushed stream, or what is wrong with the first timestamp
/// that cannot be read.
pub open spec fn pushed_entries(entries: Seq<PushedEntry>) -> Result<Seq<EntryView>, Seq<char>>
    decreases entries.len(),
{
    if entries.len() == 0 {
        Ok(seq![])
    } else {
        match pushed_entries(entries.drop_last()) {
            Err(error) => Err(error),
            Ok(before) => match entries.last().timestamp_ns {
                Err(error) => Err(error@),
                Ok(timestamp_ns) => Ok(before.push(pushed_entry(entries.last(), timestamp_ns as int))),
            },
        }
    }
}

/// A pushed entry at an instant.
pub open spec fn pushed_entry(entry: PushedEntry, timestamp_ns: int) -> EntryView {
    EntryView {
        timestamp_ns,
        line: entry.line@,
        metadata: pairs_view(entry.structured_metadata@),
    }
}

pub proof fn pushed_entries_failed(entries: Seq<PushedEntry>, i: int)
    requires
        0 <= i <= entries.len(),
        pushed_entries(entries.take(i)) is Err,
    ensures
        pushed_entries(entries) == pushed_entries(entries.take(i)),
    decreases entries.len() - i,
{
    if i < entries.len() {
        assert(entries.take(i + 1).drop_last() =~= entries.take(i));
        pushed_entries_failed(entries, i + 1);
    } else {
        assert(entries.take(i) =~= entries);
    }
}

impl PushedEntry {
    /// The entry at an instant.
    pub fn at(&self, timestamp_ns: i64) -> (entry: LogEntry)
        ensures
            entry@ == pushed_entry(*self, timestamp_ns as int),
            entry.timestamp_ns == timestamp_ns,
            entry.line@ == self.line@,
            entry.structured_metadata@ == self.structured_metadata@,
    {
        LogEntry {
            timestamp_ns,
            line: self.line.clone(),
            structured_metadata: copy_pairs(self.structured_metadata.as_slice()),
        }
    }
}

/// The entries of a pushed stream can be read exactly if every timestamp of it can.
/// There are then as many as were pushed, and each stands in its place with the
/// timestamp, the line and the metadata that it was pushed with. Otherwise the first
/// timestamp that cannot be read is what is wrong.
pub proof fn every_entry_is_read_as_it_was_pushed(entries: Seq<PushedEntry>)
    ensures
        pushed_entries(entries) is Ok <==> forall|i: int|
            0 <= i < entries.len() ==> (#[trigger] entries[i]).timestamp_ns is Ok,
        pushed_entries(entries) matches Ok(list) ==> {
            &&& list.len() == entries.len()
            &&& forall|i: int|
                0 <= i < entries.len() ==> {
                    &&& (#[trigger] list[i]).timestamp_ns == entries[i].timestamp_ns->Ok_0
                    &&& list[i].line == entries[i].line@
                    &&& list[i].metadata.len() == entries[i].structured_metadata@.len()
                    &&& forall|k: int|
                        0 <= k < list[i].metadata.len() ==> #[trigger] list[i].metadata[k] == (
                            entries[i].structured_metadata@[k].0@,
                            entries[i].structured_metadata@[k].1@,
                        )
                }
        },
        pushed_entries(entries) matches Err(error) ==> exists|i: int|
            0 <= i < entries.len() && (#[trigger] entries[i]).timestamp_ns is Err
                && entries[i].timestamp_ns->Err_0@ == error && forall|j: int|
                0 <= j < i ==> (#[trigger] entries[j]).timestamp_ns is Ok,
    decreases entries.len(),
{
    if entries.len() > 0 {
        let before = entries.drop_last();
        every_entry_is_read_as_it_was_pushed(before);
        assert forall|i: int| 0 <= i < before.len() implies before[i] == #[trigger] entries[i] by {}
        match pushed_entries(before) {
            Err(error) => {
                let i = choose|i: int|
                    0 <= i < before.len() && (#[trigger] before[i]).timestamp_ns is Err
                        && before[i].timestamp_ns->Err_0@ == error && forall|j: int|
                        0 <= j < i ==> (#[trigger] before[j]).timestamp_ns is Ok;
                assert(entries[i] == before[i]);
                assert forall|j: int| 0 <= j < i implies (#[trigger] entries[j]).timestamp_ns
                    is Ok by {
                    assert(before[j].timestamp_ns is Ok);
                }
            },
            Ok(read) => {
                let last = entries.len() - 1;
                assert forall|i: int| 0 <= i < last implies (#[trigger] entries[i]).timestamp_ns
                    is Ok by {
                    assert(before[i].timestamp_ns is Ok);
                }
                assert(entries[last] == entries.last());
                if let Ok(list) = pushed_entries(entries) {
                    assert forall|i: int| 0 <= i < entries.len() implies {
                        &&& (#[trigger] list[i]).timestamp_ns == entries[i].timestamp_ns->Ok_0
                        &&& list[i].line == entries[i].line@
                        &&& list[i].metadata.len() == entries[i].structured_metadata@.len()
                        &&& forall|k: int|
                            0 <= k < list[i].metadata.len() ==> #[trigger] list[i].metadata[k] == (
                                entries[i].structured_metadata@[k].0@,
                                entries[i].structured_metadata@[k].1@,
                            )
                    } by {
                        if i < last {
                            assert(list[i] == read[i]);
                        }
                    }
                }
            },
        }
    }
}

/// Reads the entries of a pushed stream.
pub fn read_entries(entries: &[PushedEntry]) -> (out: Result<Vec<LogEntry>, String>)
    ensures
        match out {
            Ok(list) => pushed_entries(entries@) == Ok::<Seq<EntryView>, Seq<char>>(
                entries_view(list@),
            ),
            Err(error) => pushed_entries(entries@) == Err::<Seq<EntryView>, Seq<char>>(error@),
        },
        out matches Ok(list) ==> {
            &&& list@.len() == entries@.len()
            &&& forall|i: int|
                0 <= i < list@.len() ==> {
                    &&& entries@[i].timestamp_ns == Ok::<i64, String>((#[trigger] list@[i]).timestamp_ns)
                    &&& list@[i].line@ == entries@[i].line@
                    &&& list@[i].structured_metadata@ == entries@[i].structured_metadata@
                }
        },
{
    let mut out: Vec<LogEntry> = Vec::new();
    let mut i: usize = 0;
    assert(entries_view(out@) =~= seq![]);
    while i < entries.len()
        invariant
            i <= entries@.len(),
            pushed_entries(entries@.take(i as int)) == Ok::<Seq<EntryView>, Seq<char>>(
                entries_view(out@),
            ),
            out@.len() == i,
            forall|j: int|
                0 <= j < i ==> {
                    &&& entries@[j].timestamp_ns == Ok::<i64, String>((#[trigger] out@[j]).timestamp_ns)
                    &&& out@[j].line@ == entries@[j].line@
                    &&& out@[j].structured_metadata@ == entries@[j].structured_metadata@
                },
        decreases entries.len() - i,
    {
        let ghost before = out@;
        assert(entries@.take(i + 1).drop_last() =~= entries@.take(i as int));
        assert(entries@.take(i + 1).last() == entries@[i as int]);
        match &entries[i].timestamp_ns {
            Err(error) => {
                proof {
                    pushed_entries_failed(entries@, i + 1);
                }
                return Err(error.clone());
            },
            Ok(timestamp_ns) => {
                out.push(entries[i].at(*timestamp_ns));
                assert(entries_view(out@) =~= entries_view(before).push(
                    pushed_entry(entries@[i as int], *timestamp_ns as int),
                ));
            },
        }
        i = i + 1;
    }
    assert(entries@.take(i as int) =~= entries@);
    Ok(out)
}

} // verus!
