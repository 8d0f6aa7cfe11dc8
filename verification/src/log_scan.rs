//! Where a log query meets its rows: the bounds of a scan, what a row is charged,
//! and the counting of rows per evaluation instant.

use vstd::prelude::*;
use vstd::string::*;
use vstd::utf8::*;

use crate::ingest::{byte_len, saturated};
use crate::model::{pairs_view, value_of, EntryView, Labels, LogEntry};
use crate::text::{decimal, with_number};

verus! {

// --------------------------------------------------------------------- bounds
/// The bounds of one log query.
#[derive(Clone, Copy, Debug, PartialEq, Eq, Structural)]
pub struct LogScan {
    pub limit: usize,
    pub forward: bool,
    /// Rows the scan may read before it must refuse. Exceeding it is an error and
    /// not a truncation: a silently short answer reads as an absence of logs.
    pub scan_budget: Option<usize>,
    pub max_scan_bytes: Option<u64>,
    pub max_memory_bytes: Option<u64>,
}

/// Where a scan reads rows.
#[derive(Clone, Copy, Debug, PartialEq, Eq, Structural)]
pub enum Source {
    /// The tables in memory.
    Tables,
    Parts,
}

/// What the scan of a source came to, its rows and its bytes, and whether the query
/// was cancelled by then.
pub struct Scanned {
    pub outcome: Result<(usize, u64), String>,
    pub cancelled: bool,
}

/// What a scan does next.
pub enum ScanStep {
    /// Reads a source into the sink, within these bounds.
    Read { source: Source, limit: Option<usize>, bytes_limit: Option<u64> },
    /// Is over, having read so much.
    Done { rows: u64, bytes: u64 },
    Failed(String),
}

pub enum ScanStepView {
    Read { source: Source, limit: Option<usize>, bytes_limit: Option<u64> },
    Done { rows: nat, bytes: nat },
    Failed(Seq<char>),
}

impl View for ScanStep {
    type V = ScanStepView;

    open spec fn view(&self) -> ScanStepView {
        match *self {
            ScanStep::Read { source, limit, bytes_limit } => ScanStepView::Read {
                source,
                limit,
                bytes_limit,
            },
            ScanStep::Done { rows, bytes } => ScanStepView::Done {
                rows: rows as nat,
                bytes: bytes as nat,
            },
            ScanStep::Failed(message) => ScanStepView::Failed(message@),
        }
    }
}

/// What is wrong with so many scanned rows, if they are over the budget.
pub open spec fn rows_problem(budget: Option<usize>, rows: nat) -> Option<Seq<char>> {
    match budget {
        Some(budget) if rows > budget => Some(
            "query exceeds the maximum of "@ + decimal(budget as nat) + " scanned rows"@,
        ),
        _ => None,
    }
}

/// What is wrong with so many scanned bytes, if they are over the bound.
pub open spec fn bytes_problem(bound: Option<u64>, bytes: nat) -> Option<Seq<char>> {
    match bound {
        Some(bound) if bytes > bound => Some(
            "query exceeds the maximum of "@ + decimal(bound as nat) + " scanned bytes"@,
        ),
        _ => None,
    }
}

pub open spec fn sum_u64(a: nat, b: nat) -> nat {
    if a + b > u64::MAX {
        u64::MAX as nat
    } else {
        a + b
    }
}

/// How many rows the tables are asked for: one more than the budget, so that a scan
/// that exceeds it can be told from one that uses it up.
pub open spec fn limit_of(budget: Option<usize>) -> Option<usize> {
    match budget {
        None => None,
        Some(budget) => Some(
            if budget == usize::MAX {
                usize::MAX
            } else {
                (budget + 1) as usize
            },
        ),
    }
}

/// What is left of a limit once rows were read.
pub open spec fn limit_left(limit: Option<usize>, rows: usize) -> Option<usize> {
    match limit {
        None => None,
        Some(limit) => Some(
            if limit < rows {
                0
            } else {
                (limit - rows) as usize
            },
        ),
    }
}

/// What follows the scan of the tables: an error of its own, the end of a query
/// that was cancelled or is over its budget, or the parts, with what is left. Bytes
/// are counted of the parts alone.
pub open spec fn after_tables(scan: LogScan, tables: Scanned) -> ScanStepView {
    match tables.outcome {
        Err(message) => ScanStepView::Failed(message@),
        Ok((rows, _)) => if tables.cancelled {
            ScanStepView::Failed("query timed out"@)
        } else {
            match rows_problem(scan.scan_budget, rows as nat) {
                Some(problem) => ScanStepView::Failed(problem),
                None => ScanStepView::Read {
                    source: Source::Parts,
                    limit: limit_left(limit_of(scan.scan_budget), rows),
                    bytes_limit: scan.max_scan_bytes,
                },
            }
        },
    }
}

/// What follows the scan of the parts: an error of its own, the end of a query that
/// was cancelled or is over a bound, rows looked at before bytes, or what was read
/// in all.
pub open spec fn after_parts(scan: LogScan, table_rows: usize, parts: Scanned) -> ScanStepView {
    match parts.outcome {
        Err(message) => ScanStepView::Failed(message@),
        Ok((rows, bytes)) => {
            let total = sum_u64(table_rows as nat, rows as nat);
            if parts.cancelled {
                ScanStepView::Failed("query timed out"@)
            } else {
                match (
                    rows_problem(scan.scan_budget, total),
                    bytes_problem(scan.max_scan_bytes, bytes as nat),
                ) {
                    (Some(problem), _) => ScanStepView::Failed(problem),
                    (None, Some(problem)) => ScanStepView::Failed(problem),
                    (None, None) => ScanStepView::Done { rows: total, bytes: bytes as nat },
                }
            }
        },
    }
}

/// What a scan does next, given what the sources that it has read came to.
pub open spec fn next_step(scan: LogScan, read: Seq<Scanned>) -> ScanStepView {
    if read.len() == 0 {
        ScanStepView::Read {
            source: Source::Tables,
            limit: limit_of(scan.scan_budget),
            bytes_limit: None,
        }
    } else if read.len() == 1 || after_tables(scan, read[0]) is Failed {
        after_tables(scan, read[0])
    } else {
        after_parts(scan, read[0].outcome->Ok_0.0, read[1])
    }
}

impl LogScan {
    pub fn new(limit: usize, forward: bool) -> (scan: Self)
        ensures
            scan == (LogScan {
                limit,
                forward,
                scan_budget: None,
                max_scan_bytes: None,
                max_memory_bytes: None,
            }),
    {
        LogScan {
            limit,
            forward,
            scan_budget: None,
            max_scan_bytes: None,
            max_memory_bytes: None,
        }
    }

    pub fn scan_budget(self, rows: Option<usize>) -> (scan: Self)
        ensures
            scan == (LogScan { scan_budget: rows, ..self }),
    {
        LogScan { scan_budget: rows, ..self }
    }

    pub fn max_scan_bytes(self, bytes: Option<u64>) -> (scan: Self)
        ensures
            scan == (LogScan { max_scan_bytes: bytes, ..self }),
    {
        LogScan { max_scan_bytes: bytes, ..self }
    }

    pub fn max_memory_bytes(self, bytes: Option<u64>) -> (scan: Self)
        ensures
            scan == (LogScan { max_memory_bytes: bytes, ..self }),
    {
        LogScan { max_memory_bytes: bytes, ..self }
    }

    fn scan_limit(&self) -> (limit: Option<usize>)
        ensures
            limit == limit_of(self.scan_budget),
    {
        match self.scan_budget {
            None => None,
            Some(budget) => Some(budget.saturating_add(1)),
        }
    }

    fn check_scan_budget(&self, scanned_rows: u64) -> (out: Result<(), String>)
        ensures
            match out {
                Ok(_) => rows_problem(self.scan_budget, scanned_rows as nat) is None,
                Err(message) => rows_problem(self.scan_budget, scanned_rows as nat) == Some(
                    message@,
                ),
            },
    {
        match self.scan_budget {
            Some(budget) if scanned_rows > budget as u64 => Err(
                with_number("query exceeds the maximum of ", budget as u64, " scanned rows"),
            ),
            _ => Ok(()),
        }
    }

    fn tables_scanned(&self, tables: &Scanned) -> (out: Result<usize, String>)
        ensures
            match out {
                Ok(rows) => !(after_tables(*self, *tables) is Failed) && tables.outcome is Ok
                    && tables.outcome->Ok_0.0 == rows,
                Err(message) => after_tables(*self, *tables) == ScanStepView::Failed(message@),
            },
    {
        let rows: usize = match &tables.outcome {
            Ok(read) => read.0,
            Err(message) => {
                return Err(message.clone());
            },
        };
        if tables.cancelled {
            return Err("query timed out".to_owned());
        }
        match self.check_scan_budget(rows as u64) {
            Ok(_) => Ok(rows),
            Err(message) => Err(message),
        }
    }

    fn parts_scanned(&self, table_rows: usize, parts: &Scanned) -> (out: Result<
        (u64, u64),
        String,
    >)
        ensures
            after_parts(*self, table_rows, *parts) == match out {
                Ok((rows, bytes)) => ScanStepView::Done { rows: rows as nat, bytes: bytes as nat },
                Err(message) => ScanStepView::Failed(message@),
            },
    {
        let (rows, bytes) = match &parts.outcome {
            Ok(read) => (read.0, read.1),
            Err(message) => {
                return Err(message.clone());
            },
        };
        let scanned_rows: u64 = (table_rows as u64).saturating_add(rows as u64);
        if parts.cancelled {
            return Err("query timed out".to_owned());
        }
        if let Err(message) = self.check_scan_budget(scanned_rows) {
            return Err(message);
        }
        if let Some(bound) = self.max_scan_bytes {
            if bytes > bound {
                return Err(
                    with_number("query exceeds the maximum of ", bound, " scanned bytes"),
                );
            }
        }
        Ok((scanned_rows, bytes))
    }

    /// The next step of a scan, given what the sources that it has read came to, in
    /// the order in which they were read: the tables, and then the parts, with the
    /// budgets looked at in between.
    pub fn run_into(&self, read: &[Scanned]) -> (step: ScanStep)
        ensures
            step@ == next_step(*self, read@),
    {
        if read.len() == 0 {
            return ScanStep::Read {
                source: Source::Tables,
                limit: self.scan_limit(),
                bytes_limit: None,
            };
        }
        let table_rows: usize = match self.tables_scanned(&read[0]) {
            Ok(rows) => rows,
            Err(message) => {
                return ScanStep::Failed(message);
            },
        };
        if read.len() == 1 {
            let limit: Option<usize> = match self.scan_limit() {
                None => None,
                Some(limit) => Some(limit.saturating_sub(table_rows)),
            };
            return ScanStep::Read {
                source: Source::Parts,
                limit,
                bytes_limit: self.max_scan_bytes,
            };
        }
        match self.parts_scanned(table_rows, &read[1]) {
            Ok((rows, bytes)) => ScanStep::Done { rows, bytes },
            Err(message) => ScanStep::Failed(message),
        }
    }
}

/// A scan reads the tables, then the parts, and then nothing: the tables are read
/// before anything else, the parts only once the tables were read without an error,
/// within the budget and with the query not cancelled. So the sink has every row of
/// the tables before it gets one of the parts.
pub proof fn the_tables_are_read_before_the_parts(scan: LogScan, read: Seq<Scanned>)
    ensures
        read.len() == 0 <==> next_step(scan, read) matches ScanStepView::Read {
            source: Source::Tables,
            ..
        },
        next_step(scan, read) matches ScanStepView::Read { source: Source::Parts, .. } ==> {
            &&& read.len() == 1
            &&& read[0].outcome is Ok
            &&& !read[0].cancelled
            &&& rows_problem(scan.scan_budget, read[0].outcome->Ok_0.0 as nat) is None
        },
        read.len() >= 2 ==> !(next_step(scan, read) is Read),
{
}

/// A scan that ends well has read both sources without an error, was not cancelled,
/// counts every row and byte that it read, and is within its budgets. More rows than
/// the budget, or more bytes than the bound, are never cut short to an answer.
pub proof fn a_finished_scan_is_within_its_budgets(
    scan: LogScan,
    read: Seq<Scanned>,
    rows: nat,
    bytes: nat,
)
    requires
        next_step(scan, read) == (ScanStepView::Done { rows, bytes }),
    ensures
        read.len() >= 2,
        read[0].outcome is Ok && read[1].outcome is Ok,
        !read[0].cancelled && !read[1].cancelled,
        rows == sum_u64(read[0].outcome->Ok_0.0 as nat, read[1].outcome->Ok_0.0 as nat),
        bytes == read[1].outcome->Ok_0.1,
        scan.scan_budget is Some ==> rows <= scan.scan_budget->Some_0,
        scan.max_scan_bytes is Some ==> bytes <= scan.max_scan_bytes->Some_0,
{
}

// ------------------------------------------------------------------------ rows
/// What the stages of a query say of a row.
pub enum Stages {
    /// The query has none.
    Absent,
    Kept,
    Dropped,
    Failed(String),
}

/// How many bytes names and values take.
pub open spec fn pairs_bytes(pairs: Seq<(Seq<char>, Seq<char>)>) -> nat
    decreases pairs.len(),
{
    if pairs.len() == 0 {
        0
    } else {
        pairs_bytes(pairs.drop_last()) + byte_len(pairs.last().0) + byte_len(pairs.last().1)
    }
}

/// What a row is charged: the bytes of its labels, its metadata and its line,
/// and the entry itself.
pub open spec fn row_bytes(labels: Seq<(Seq<char>, Seq<char>)>, entry: EntryView) -> nat {
    pairs_bytes(labels) + pairs_bytes(entry.metadata) + byte_len(entry.line)
        + vstd::layout::size_of::<LogEntry>()
}

proof fn pairs_bytes_prefix(pairs: Seq<(Seq<char>, Seq<char>)>, i: int)
    requires
        0 <= i <= pairs.len(),
    ensures
        pairs_bytes(pairs.take(i)) <= pairs_bytes(pairs),
    decreases pairs.len() - i,
{
    if i < pairs.len() {
        assert(pairs.take(i + 1).drop_last() =~= pairs.take(i));
        pairs_bytes_prefix(pairs, i + 1);
    } else {
        assert(pairs.take(i) =~= pairs);
    }
}

/// What a row is charged against the memory of a query.
pub fn estimated_log_entry_memory_bytes(labels: &Labels, entry: &LogEntry) -> (bytes: u64)
    requires
        row_bytes(labels@, entry@) <= usize::MAX,
    ensures
        bytes == row_bytes(labels@, entry@),
{
    let mut sum: usize = 0;
    let mut i: usize = 0;
    assert(labels@.take(0) =~= seq![]);
    while i < labels.len()
        invariant
            i <= labels@.len(),
            pairs_bytes(labels@) <= usize::MAX,
            sum == pairs_bytes(labels@.take(i as int)),
        decreases labels@.len() - i,
    {
        proof {
            assert(labels@.take(i + 1).drop_last() =~= labels@.take(i as int));
            pairs_bytes_prefix(labels@, i + 1);
        }
        let pair = labels.pair(i);
        sum = sum + pair.0.as_str().as_bytes().len() + pair.1.as_str().as_bytes().len();
        i = i + 1;
    }
    assert(labels@.take(i as int) =~= labels@);
    let ghost metadata = entry@.metadata;
    let mut j: usize = 0;
    assert(metadata.take(0) =~= seq![]);
    while j < entry.structured_metadata.len()
        invariant
            j <= entry.structured_metadata@.len(),
            metadata == pairs_view(entry.structured_metadata@),
            pairs_bytes(labels@) + pairs_bytes(metadata) <= usize::MAX,
            sum == pairs_bytes(labels@) + pairs_bytes(metadata.take(j as int)),
        decreases entry.structured_metadata@.len() - j,
    {
        proof {
            assert(metadata.take(j + 1).drop_last() =~= metadata.take(j as int));
            pairs_bytes_prefix(metadata, j + 1);
        }
        let pair = &entry.structured_metadata[j];
        sum = sum + pair.0.as_str().as_bytes().len() + pair.1.as_str().as_bytes().len();
        j = j + 1;
    }
    assert(metadata.take(j as int) =~= metadata);
    (sum + entry.line.as_str().as_bytes().len() + core::mem::size_of::<LogEntry>()) as u64
}

/// The metadata that a query without stages returns: a pair whose name is a
/// stream label is shadowed by the label.
pub open spec fn unshadowed(
    labels: Seq<(Seq<char>, Seq<char>)>,
    metadata: Seq<(Seq<char>, Seq<char>)>,
) -> Seq<(Seq<char>, Seq<char>)> {
    metadata.filter(|pair: (Seq<char>, Seq<char>)| value_of(labels, pair.0) is None)
}

fn drop_shadowed(labels: &Labels, entry: LogEntry) -> (out: LogEntry)
    ensures
        out@ == (EntryView { metadata: unshadowed(labels@, entry@.metadata), ..entry@ }),
{
    let ghost all = entry@.metadata;
    let ghost shown = |pair: (Seq<char>, Seq<char>)| value_of(labels@, pair.0) is None;
    let mut kept: Vec<(String, String)> = Vec::new();
    let mut i: usize = 0;
    proof {
        assert(all.take(0) =~= seq![]);
        reveal(Seq::filter);
        assert(pairs_view(kept@) =~= all.take(0).filter(shown));
    }
    while i < entry.structured_metadata.len()
        invariant
            i <= entry.structured_metadata@.len(),
            all == pairs_view(entry.structured_metadata@),
            shown == (|pair: (Seq<char>, Seq<char>)| value_of(labels@, pair.0) is None),
            pairs_view(kept@) == all.take(i as int).filter(shown),
        decreases entry.structured_metadata@.len() - i,
    {
        let pair = &entry.structured_metadata[i];
        let ghost before = kept@;
        proof {
            assert(all.take(i + 1).drop_last() =~= all.take(i as int));
            assert(all.take(i + 1).last() == (pair.0@, pair.1@));
            reveal(Seq::filter);
        }
        if labels.get(pair.0.as_str()).is_none() {
            kept.push((pair.0.clone(), pair.1.clone()));
            assert(pairs_view(kept@) =~= pairs_view(before).push((pair.0@, pair.1@)));
        }
        i = i + 1;
    }
    assert(all.take(i as int) =~= all);
    LogEntry {
        timestamp_ns: entry.timestamp_ns,
        line: entry.line,
        structured_metadata: kept,
    }
}

/// What a query has materialized on its way to an answer. It is charged for
/// every row that survives the stages, not for the rows that it holds.
#[derive(Clone, Copy, Debug, PartialEq, Eq, Structural)]
pub struct PipelineSink {
    pub max_memory_bytes: Option<u64>,
    pub materialized_memory_bytes: u64,
}

/// The row as a query returns it.
pub open spec fn returned_row(
    labels: Seq<(Seq<char>, Seq<char>)>,
    entry: EntryView,
    stages: Stages,
) -> EntryView {
    if stages is Absent {
        EntryView { metadata: unshadowed(labels, entry.metadata), ..entry }
    } else {
        entry
    }
}

/// What a row leads to before it is charged: an error, nothing, or a row.
pub open spec fn staged_row(
    labels: Seq<(Seq<char>, Seq<char>)>,
    entry: EntryView,
    cancelled: bool,
    hidden: bool,
    stages: Stages,
) -> Result<Option<EntryView>, Seq<char>> {
    if cancelled {
        Err("query timed out"@)
    } else if hidden {
        Ok(None)
    } else {
        match stages {
            Stages::Failed(message) => Err(message@),
            Stages::Dropped => Ok(None),
            _ => Ok(Some(returned_row(labels, entry, stages))),
        }
    }
}

/// A row that the query has been charged for, and all that it has been charged. The
/// row is handed out for the answer of the memory that all queries share.
pub struct Charged {
    row: LogEntry,
    total: u64,
}

impl Charged {
    pub closed spec fn row(&self) -> EntryView {
        self.row@
    }

    pub closed spec fn total(&self) -> u64 {
        self.total
    }

    /// How much the query now asks of the shared memory in all.
    pub fn asks(&self) -> (bytes: u64)
        ensures
            bytes == self.total(),
    {
        self.total
    }

    /// The row, to be offered to the answer; or why the shared memory refused what
    /// the query asks for, and then there is no row. `pool` is what the shared memory
    /// said, where the query shares it.
    pub fn offered(self, pool: Option<Result<(), String>>) -> (out: Result<LogEntry, String>)
        ensures
            match pool {
                Some(Err(reason)) => out is Err && out->Err_0@ == reason@,
                _ => out is Ok && out->Ok_0@ == self.row(),
            },
    {
        match pool {
            Some(Err(reason)) => Err(reason),
            _ => Ok(self.row),
        }
    }
}

impl PipelineSink {
    /// Takes a row in: what the query goes on with, nothing if the row is hidden
    /// or dropped, or why the query ends. `entry` is the row as the stages left
    /// it, and `hidden` whether a delete request hides it as it was written.
    pub fn accept(
        &mut self,
        labels: &Labels,
        entry: LogEntry,
        cancelled: bool,
        hidden: bool,
        stages: Stages,
    ) -> (out: Result<Option<Charged>, String>)
        requires
            row_bytes(labels@, entry@) <= usize::MAX,
        ensures
            final(self).max_memory_bytes == old(self).max_memory_bytes,
            match staged_row(labels@, entry@, cancelled, hidden, stages) {
                Err(message) => {
                    &&& out is Err && out->Err_0@ == message
                    &&& *final(self) == *old(self)
                },
                Ok(None) => out is Ok && out->Ok_0 is None && *final(self) == *old(self),
                Ok(Some(row)) => {
                    let charged = old(self).materialized_memory_bytes + row_bytes(labels@, row);
                    if charged > u64::MAX {
                        &&& out is Err
                        &&& out->Err_0@ == "query materialized memory accounting overflowed"@
                        &&& *final(self) == *old(self)
                    } else {
                        &&& final(self).materialized_memory_bytes == charged
                        &&& match (old(self).max_memory_bytes, out) {
                            (Some(max), Err(message)) => charged > max && message@
                                == "query exceeds the maximum of "@ + decimal(max as nat)
                                + " materialized bytes"@,
                            (None, Err(_)) => false,
                            (max, Ok(kept)) => {
                                &&& max is Some ==> charged <= max->Some_0
                                &&& kept is Some && kept->Some_0.row() == row
                                &&& kept->Some_0.total() == charged
                            },
                        }
                    }
                },
            },
    {
        if cancelled {
            return Err("query timed out".to_owned());
        }
        if hidden {
            return Ok(None);
        }
        let ghost before = entry@;
        let row = match stages {
            Stages::Failed(message) => {
                return Err(message);
            },
            Stages::Dropped => {
                return Ok(None);
            },
            Stages::Absent => {
                proof {
                    unshadowed_bytes(labels@, before.metadata);
                }
                drop_shadowed(labels, entry)
            },
            Stages::Kept => entry,
        };
        let bytes: u64 = estimated_log_entry_memory_bytes(labels, &row);
        match self.materialized_memory_bytes.checked_add(bytes) {
            None => Err("query materialized memory accounting overflowed".to_owned()),
            Some(charged) => {
                self.materialized_memory_bytes = charged;
                if let Some(max) = self.max_memory_bytes {
                    if charged > max {
                        return Err(
                            with_number(
                                "query exceeds the maximum of ",
                                max,
                                " materialized bytes",
                            ),
                        );
                    }
                }
                Ok(Some(Charged { row, total: charged }))
            },
        }
    }
}

proof fn unshadowed_bytes(
    labels: Seq<(Seq<char>, Seq<char>)>,
    metadata: Seq<(Seq<char>, Seq<char>)>,
)
    ensures
        pairs_bytes(unshadowed(labels, metadata)) <= pairs_bytes(metadata),
    decreases metadata.len(),
{
    reveal(Seq::filter);
    if metadata.len() > 0 {
        let shown = |pair: (Seq<char>, Seq<char>)| value_of(labels, pair.0) is None;
        unshadowed_bytes(labels, metadata.drop_last());
        let rest = metadata.drop_last().filter(shown);
        if shown(metadata.last()) {
            assert(rest.push(metadata.last()).drop_last() =~= rest);
        }
    }
}

// ------------------------------------------------------------------- counting
/// Whether instants stand in order.
pub open spec fn sorted(times: Seq<i64>) -> bool {
    forall|i: int, j: int| 0 <= i <= j < times.len() ==> times[i] <= times[j]
}

/// How many instants at the front are before a bound.
fn before_count(times: &[i64], bound: i64) -> (n: usize)
    requires
        sorted(times@),
    ensures
        n <= times@.len(),
        forall|i: int| 0 <= i < times@.len() ==> (#[trigger] times@[i] < bound <==> i < n),
{
    let mut low: usize = 0;
    let mut high: usize = times.len();
    while low < high
        invariant
            sorted(times@),
            low <= high <= times@.len(),
            forall|i: int| 0 <= i < low ==> #[trigger] times@[i] < bound,
            forall|i: int| high <= i < times@.len() ==> #[trigger] times@[i] >= bound,
        decreases high - low,
    {
        let middle: usize = low + (high - low) / 2;
        if times[middle] < bound {
            low = middle + 1;
        } else {
            high = middle;
        }
    }
    low
}

/// Whether a row counts at an instant: it is in the range that ends there.
pub open spec fn counts_at(instant: i64, timestamp_ns: i64, range_ns: i64) -> bool {
    timestamp_ns <= instant < saturated(timestamp_ns + range_ns)
}

/// What rows come to at an instant.
pub open spec fn total_at(rows: Seq<(i64, nat)>, instant: i64, range_ns: i64) -> nat
    decreases rows.len(),
{
    if rows.len() == 0 {
        0
    } else {
        total_at(rows.drop_last(), instant, range_ns) + if counts_at(
            instant,
            rows.last().0,
            range_ns,
        ) {
            rows.last().1
        } else {
            0
        }
    }
}

/// The sum of the first numbers of a list.
pub open spec fn prefix_sum(list: Seq<i128>, n: nat) -> int
    decreases n,
{
    if n == 0 {
        0
    } else {
        prefix_sum(list, (n - 1) as nat) + list[n - 1]
    }
}

/// Counts rows, or the bytes of their lines, per evaluation instant, and holds
/// none of them. A row adds to a run of instants, so two numbers change for it
/// and the totals are the sums of the numbers up to each instant.
pub struct CountingSink {
    /// The instants, in order.
    pub times: Vec<i64>,
    pub range_ns: i64,
    /// Whether to count line bytes in place of rows.
    pub bytes: bool,
    /// One number for each instant and one behind the last.
    pub diff: Vec<i128>,
    pub rows: u64,
    /// The rows that were counted, each with what it adds.
    pub counted: Ghost<Seq<(i64, nat)>>,
}

/// The most rows that the numbers hold without running over.
pub const MAX_COUNTED_ROWS: u64 = 0x3fff_ffff_ffff_ffff;

impl CountingSink {
    /// The numbers up to an instant sum to what the counted rows come to there, and
    /// all of them to nothing: what a row adds at one place it takes off at another.
    pub open spec fn wf(&self) -> bool {
        &&& sorted(self.times@)
        &&& self.diff@.len() == self.times@.len() + 1
        &&& self.counted@.len() == self.rows
        &&& forall|i: int|
            0 <= i < self.counted@.len() ==> (#[trigger] self.counted@[i]).1 <= u64::MAX
        &&& forall|i: int|
            0 <= i < self.diff@.len() ==> -(self.rows * 0x1_0000_0000_0000_0000)
                <= #[trigger] self.diff@[i] <= self.rows * 0x1_0000_0000_0000_0000
        &&& forall|i: int|
            0 <= i < self.times@.len() ==> prefix_sum(self.diff@, (i + 1) as nat) == total_at(
                self.counted@,
                #[trigger] self.times@[i],
                self.range_ns,
            )
        &&& prefix_sum(self.diff@, self.diff@.len()) == 0
    }

    pub fn new(times: Vec<i64>, range_ns: i64, bytes: bool) -> (sink: Self)
        requires
            sorted(times@),
            times.len() < usize::MAX,
        ensures
            sink.wf(),
            sink.times == times,
            sink.range_ns == range_ns,
            sink.bytes == bytes,
            sink.rows == 0,
            sink.counted@ == Seq::<(i64, nat)>::empty(),
    {
        let mut diff: Vec<i128> = Vec::new();
        let mut i: usize = 0;
        while i < times.len() + 1
            invariant
                i <= times@.len() + 1,
                times.len() < usize::MAX,
                diff@.len() == i,
                forall|j: int| 0 <= j < i ==> #[trigger] diff@[j] == 0,
            decreases times.len() + 1 - i,
        {
            diff.push(0);
            i = i + 1;
        }
        proof {
            assert forall|n: nat| n <= diff@.len() implies #[trigger] prefix_sum(diff@, n) == 0 by {
                zero_sum(diff@, n);
            }
        }
        CountingSink { times, range_ns, bytes, diff, rows: 0, counted: Ghost(Seq::empty()) }
    }

    /// Takes a row in: `line_bytes` is how long its line is as the stages left it.
    pub fn accept(
        &mut self,
        timestamp_ns: i64,
        line_bytes: usize,
        cancelled: bool,
        hidden: bool,
        stages: Stages,
    ) -> (out: Result<(), String>)
        requires
            old(self).wf(),
            old(self).rows < MAX_COUNTED_ROWS,
        ensures
            final(self).wf(),
            final(self).times == old(self).times,
            final(self).range_ns == old(self).range_ns,
            final(self).bytes == old(self).bytes,
            ({
                let value = if old(self).bytes {
                    line_bytes as nat
                } else {
                    1
                };
                let kept = Seq::<(i64, nat)>::empty().push((timestamp_ns, value));
                if cancelled {
                    &&& out is Err && out->Err_0@ == "query timed out"@
                    &&& final(self).counted@ == old(self).counted@
                } else if hidden || stages is Dropped {
                    out is Ok && final(self).counted@ == old(self).counted@
                } else if stages is Failed {
                    &&& out is Err && out->Err_0@ == stages->Failed_0@
                    &&& final(self).counted@ == old(self).counted@
                } else {
                    out is Ok && final(self).counted@ == old(self).counted@ + kept
                }
            }),
    {
        if cancelled {
            return Err("query timed out".to_owned());
        }
        if hidden {
            return Ok(());
        }
        match stages {
            Stages::Failed(message) => {
                return Err(message);
            },
            Stages::Dropped => {
                return Ok(());
            },
            Stages::Absent => {},
            Stages::Kept => {},
        }
        let start: usize = before_count(self.times.as_slice(), timestamp_ns);
        let stop: i64 = crate::ingest::saturate(timestamp_ns as i128 + self.range_ns as i128);
        let end: usize = before_count(self.times.as_slice(), stop);
        let value: u64 = if self.bytes {
            line_bytes as u64
        } else {
            1
        };
        let ghost before = self.diff@;
        let ghost rows_before = self.counted@;
        let ghost row = (timestamp_ns, value as nat);
        if start < end {
            let first: i128 = self.diff[start];
            self.diff.set(start, first + value as i128);
            let last: i128 = self.diff[end];
            self.diff.set(end, last - value as i128);
        }
        self.rows = self.rows + 1;
        self.counted = Ghost(rows_before.push(row));
        proof {
            assert(rows_before.push(row).drop_last() =~= rows_before);
            assert(rows_before.push(row) =~= rows_before + Seq::<(i64, nat)>::empty().push(row));
            assert forall|i: int| 0 <= i < self.times@.len() implies prefix_sum(
                self.diff@,
                (i + 1) as nat,
            ) == total_at(self.counted@, #[trigger] self.times@[i], self.range_ns) by {
                assert(prefix_sum(before, (i + 1) as nat) == total_at(
                    rows_before,
                    self.times@[i],
                    self.range_ns,
                ));
                if start < end {
                    run_sum(before, self.diff@, start as int, end as int, value as int, (i + 1) as nat);
                }
                assert(counts_at(self.times@[i], timestamp_ns, self.range_ns) <==> start <= i
                    < end);
            }
            if start < end {
                run_sum(
                    before,
                    self.diff@,
                    start as int,
                    end as int,
                    value as int,
                    self.diff@.len(),
                );
            }
        }
        Ok(())
    }

    /// What the rows come to at each instant.
    pub fn totals(&self) -> (out: Vec<i128>)
        requires
            self.wf(),
            self.rows <= MAX_COUNTED_ROWS,
        ensures
            out@.len() == self.times@.len(),
            forall|i: int|
                0 <= i < out@.len() ==> #[trigger] out@[i] == total_at(
                    self.counted@,
                    self.times@[i],
                    self.range_ns,
                ),
    {
        let mut out: Vec<i128> = Vec::new();
        let mut sum: i128 = 0;
        let mut i: usize = 0;
        while i < self.times.len()
            invariant
                self.wf(),
                i <= self.times@.len(),
                out@.len() == i,
                sum == prefix_sum(self.diff@, i as nat),
                0 <= sum <= self.rows * 0x1_0000_0000_0000_0000,
                self.rows <= MAX_COUNTED_ROWS,
                forall|j: int|
                    0 <= j < i ==> #[trigger] out@[j] == total_at(
                        self.counted@,
                        self.times@[j],
                        self.range_ns,
                    ),
            decreases self.times@.len() - i,
        {
            sum = sum + self.diff[i];
            proof {
                assert(prefix_sum(self.diff@, (i + 1) as nat) == total_at(
                    self.counted@,
                    self.times@[i as int],
                    self.range_ns,
                ));
                total_bound(self.counted@, self.times@[i as int], self.range_ns);
            }
            out.push(sum);
            i = i + 1;
        }
        out
    }
}

/// A row counts at exactly the instants whose range, which excludes its beginning
/// and includes its end, it is in.
pub proof fn a_row_counts_in_the_range_behind_an_instant(
    instant: i64,
    timestamp_ns: i64,
    range_ns: i64,
)
    requires
        i64::MIN <= timestamp_ns + range_ns <= i64::MAX,
    ensures
        counts_at(instant, timestamp_ns, range_ns) <==> instant - range_ns < timestamp_ns
            <= instant,
{
}

proof fn total_bound(rows: Seq<(i64, nat)>, instant: i64, range_ns: i64)
    requires
        forall|i: int| 0 <= i < rows.len() ==> (#[trigger] rows[i]).1 <= u64::MAX,
    ensures
        total_at(rows, instant, range_ns) <= rows.len() * 0x1_0000_0000_0000_0000,
    decreases rows.len(),
{
    if rows.len() > 0 {
        let rest = rows.drop_last();
        assert forall|i: int| 0 <= i < rest.len() implies (#[trigger] rest[i]).1 <= u64::MAX by {
            assert(rest[i] == rows[i]);
        }
        total_bound(rest, instant, range_ns);
        assert(rows[rows.len() - 1].1 <= u64::MAX);
    }
}

proof fn zero_sum(list: Seq<i128>, n: nat)
    requires
        n <= list.len(),
        forall|j: int| 0 <= j < list.len() ==> #[trigger] list[j] == 0,
    ensures
        prefix_sum(list, n) == 0,
    decreases n,
{
    if n > 0 {
        zero_sum(list, (n - 1) as nat);
    }
}

/// Adding to one number and taking from a later one moves the sums between them.
proof fn run_sum(before: Seq<i128>, after: Seq<i128>, start: int, end: int, value: int, n: nat)
    requires
        0 <= start < end < before.len(),
        after.len() == before.len(),
        n <= before.len(),
        after[start] == before[start] + value,
        after[end] == before[end] - value,
        forall|i: int|
            0 <= i < before.len() && i != start && i != end ==> #[trigger] after[i] == before[i],
    ensures
        prefix_sum(after, n) == prefix_sum(before, n) + if start < n <= end {
            value
        } else {
            0
        },
    decreases n,
{
    if n > 0 {
        run_sum(before, after, start, end, value, (n - 1) as nat);
        if n - 1 != start && n - 1 != end {
            assert(after[n - 1] == before[n - 1]);
        }
    }
}

// ------------------------------------------------------------------------ laws
/// The tables are asked for one row more than the budget, so that one too many shows, and
/// the parts for what is left of that, and for no more bytes than the query may scan.
/// Without a budget neither is held back.
pub proof fn a_source_is_asked_for_one_row_too_many_at_most(scan: LogScan, tables: Scanned)
    requires
        tables.outcome is Ok,
        !tables.cancelled,
        scan.scan_budget matches Some(budget) ==> budget < usize::MAX && tables.outcome->Ok_0.0
            <= budget,
    ensures
        ({
            let first = next_step(scan, seq![]);
            &&& first is Read && first->source == Source::Tables
            &&& first->limit is Some <==> scan.scan_budget is Some
            &&& scan.scan_budget matches Some(budget) ==> first->limit->Some_0 == budget + 1
        }),
        ({
            let second = next_step(scan, seq![tables]);
            &&& second is Read && second->source == Source::Parts
            &&& second->limit is Some <==> scan.scan_budget is Some
            &&& scan.scan_budget matches Some(budget) ==> second->limit->Some_0
                + tables.outcome->Ok_0.0 == budget + 1
            &&& second->bytes_limit == scan.max_scan_bytes
        }),
{
}

/// Once both sources were read, a scan is done exactly if neither failed, the query was
/// not cancelled, the rows of both are within the budget and the bytes within the bound.
/// What a source failed with is what the scan fails with.
pub proof fn a_scan_is_done_exactly_if_it_is_sound(scan: LogScan, tables: Scanned, parts: Scanned)
    ensures
        ({
            let step = next_step(scan, seq![tables, parts]);
            let rows = tables.outcome->Ok_0.0 + parts.outcome->Ok_0.0;
            let bytes = parts.outcome->Ok_0.1;
            &&& step is Done <==> {
                &&& tables.outcome is Ok && parts.outcome is Ok
                &&& !tables.cancelled && !parts.cancelled
                &&& scan.scan_budget matches Some(budget) ==> {
                    &&& tables.outcome->Ok_0.0 <= budget
                    &&& sum_u64(
                        tables.outcome->Ok_0.0 as nat,
                        parts.outcome->Ok_0.0 as nat,
                    ) <= budget
                }
                &&& scan.max_scan_bytes matches Some(bound) ==> bytes <= bound
            }
            &&& step is Done && rows <= u64::MAX ==> step == (ScanStepView::Done {
                rows: rows as nat,
                bytes: bytes as nat,
            })
            &&& !(step is Done) ==> step is Failed
            &&& tables.outcome is Err ==> step == ScanStepView::Failed(tables.outcome->Err_0@)
            &&& tables.outcome is Ok && tables.cancelled ==> step == ScanStepView::Failed(
                "query timed out"@,
            )
        }),
{
    let read = seq![tables, parts];
    assert(read[0] == tables && read[1] == parts);
}

/// What a row is charged: each label and each pair of metadata adds the bytes of its name
/// and of its value, and the line adds its own.
pub proof fn a_row_is_charged_for_every_byte(
    labels: Seq<(Seq<char>, Seq<char>)>,
    entry: EntryView,
    name: Seq<char>,
    value: Seq<char>,
)
    ensures
        row_bytes(labels.push((name, value)), entry) == row_bytes(labels, entry) + encode_utf8(
            name,
        ).len() + encode_utf8(value).len(),
        row_bytes(
            labels,
            (EntryView { metadata: entry.metadata.push((name, value)), ..entry }),
        ) == row_bytes(labels, entry) + encode_utf8(name).len() + encode_utf8(value).len(),
        row_bytes(seq![], (EntryView { metadata: seq![], ..entry })) == encode_utf8(
            entry.line,
        ).len() + vstd::layout::size_of::<LogEntry>(),
{
    assert(labels.push((name, value)).drop_last() =~= labels);
    assert(entry.metadata.push((name, value)).drop_last() =~= entry.metadata);
}

/// A query without stages returns exactly the metadata whose name is no stream label.
pub proof fn metadata_is_returned_unless_a_label_shadows_it(
    labels: Seq<(Seq<char>, Seq<char>)>,
    metadata: Seq<(Seq<char>, Seq<char>)>,
    pair: (Seq<char>, Seq<char>),
)
    ensures
        unshadowed(labels, metadata).contains(pair) <==> {
            &&& metadata.contains(pair)
            &&& forall|i: int| 0 <= i < labels.len() ==> (#[trigger] labels[i]).0 != pair.0
        },
        (forall|i: int, j: int|
            0 <= i < labels.len() && 0 <= j < metadata.len() ==> (#[trigger] labels[i]).0 != (
            #[trigger] metadata[j]).0) ==> unshadowed(labels, metadata) == metadata,
{
    let shown = |pair: (Seq<char>, Seq<char>)| value_of(labels, pair.0) is None;
    crate::model::the_value_is_that_of_the_first_pair(labels, pair.0);
    kept_by_filter(metadata, shown, pair);
    if forall|i: int, j: int|
        0 <= i < labels.len() && 0 <= j < metadata.len() ==> (#[trigger] labels[i]).0 != (
        #[trigger] metadata[j]).0 {
        assert forall|j: int| 0 <= j < metadata.len() implies shown(#[trigger] metadata[j]) by {
            crate::model::the_value_is_that_of_the_first_pair(labels, metadata[j].0);
        }
        all_kept_by_filter(metadata, shown);
    }
}

proof fn kept_by_filter(
    list: Seq<(Seq<char>, Seq<char>)>,
    shown: spec_fn((Seq<char>, Seq<char>)) -> bool,
    pair: (Seq<char>, Seq<char>),
)
    ensures
        list.filter(shown).contains(pair) <==> list.contains(pair) && shown(pair),
    decreases list.len(),
{
    reveal(Seq::filter);
    if list.len() > 0 {
        let rest = list.drop_last();
        let kept = rest.filter(shown);
        let last = list.last();
        kept_by_filter(rest, shown, pair);
        assert(list =~= rest.push(last));
        if rest.contains(pair) {
            let i = choose|i: int| 0 <= i < rest.len() && rest[i] == pair;
            assert(list[i] == pair);
        }
        if list.contains(pair) {
            let i = choose|i: int| 0 <= i < list.len() && list[i] == pair;
            if i < rest.len() {
                assert(rest[i] == pair);
            }
        }
        assert(list[list.len() - 1] == last);
        if shown(last) {
            let now = kept.push(last);
            assert(now == list.filter(shown));
            if kept.contains(pair) {
                let i = choose|i: int| 0 <= i < kept.len() && kept[i] == pair;
                assert(now[i] == pair);
            }
            if now.contains(pair) {
                let i = choose|i: int| 0 <= i < now.len() && now[i] == pair;
                if i < kept.len() {
                    assert(kept[i] == pair);
                }
            }
            assert(now[kept.len() as int] == last);
        }
    }
}

proof fn all_kept_by_filter(
    list: Seq<(Seq<char>, Seq<char>)>,
    shown: spec_fn((Seq<char>, Seq<char>)) -> bool,
)
    requires
        forall|i: int| 0 <= i < list.len() ==> shown(#[trigger] list[i]),
    ensures
        list.filter(shown) == list,
    decreases list.len(),
{
    reveal(Seq::filter);
    if list.len() > 0 {
        let rest = list.drop_last();
        assert forall|i: int| 0 <= i < rest.len() implies shown(#[trigger] rest[i]) by {
            assert(shown(list[i]));
        }
        all_kept_by_filter(rest, shown);
        assert(shown(list[list.len() - 1]));
        assert(rest.push(list.last()) =~= list);
    } else {
        assert(list.filter(shown) =~= list);
    }
}

/// A row reaches a query's answer exactly if the query was not cancelled, no delete
/// request hides the row and its stages neither fail nor drop it. Its timestamp and its
/// line are those that the stages left.
pub proof fn a_row_reaches_the_answer_unless_something_stops_it(
    labels: Seq<(Seq<char>, Seq<char>)>,
    entry: EntryView,
    cancelled: bool,
    hidden: bool,
    stages: Stages,
)
    ensures
        ({
            let row = staged_row(labels, entry, cancelled, hidden, stages);
            &&& row is Err <==> cancelled || (!hidden && stages is Failed)
            &&& row is Ok && row->Ok_0 is Some <==> !cancelled && !hidden && (stages is Kept
                || stages is Absent)
            &&& row is Ok && row->Ok_0 is Some ==> {
                &&& row->Ok_0->Some_0.timestamp_ns == entry.timestamp_ns
                &&& row->Ok_0->Some_0.line == entry.line
                &&& stages is Kept ==> row->Ok_0->Some_0.metadata == entry.metadata
            }
        }),
{
}

/// Counting one more row adds what it counts for at exactly the instants whose range it
/// is in, and no row counts for nothing.
pub proof fn one_more_row_adds_to_the_instants_it_is_in_range_of(
    rows: Seq<(i64, nat)>,
    timestamp_ns: i64,
    value: nat,
    instant: i64,
    range_ns: i64,
)
    requires
        i64::MIN <= timestamp_ns + range_ns <= i64::MAX,
    ensures
        total_at(seq![], instant, range_ns) == 0,
        instant - range_ns < timestamp_ns <= instant ==> total_at(
            rows.push((timestamp_ns, value)),
            instant,
            range_ns,
        ) == total_at(rows, instant, range_ns) + value,
        !(instant - range_ns < timestamp_ns <= instant) ==> total_at(
            rows.push((timestamp_ns, value)),
            instant,
            range_ns,
        ) == total_at(rows, instant, range_ns),
{
    assert(rows.push((timestamp_ns, value)).drop_last() =~= rows);
}

} // verus!
