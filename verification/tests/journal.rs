use loggytracy::config::Config;
use loggytracy::journal::compaction::{
    check_copied, compaction_step, plan_compaction, read_compaction_state,
    recover_unfinished_compaction, write_compaction_state, CompactionState, CompactionStep,
    FailureKind, Plan, Recovery,
};
use loggytracy::journal::record::{
    check_record_len, decode_tenant_record, frame_tenant_record, framed_record_len, push_record,
    read_checkpoint, write_checkpoint, MAX_RECORD_BYTES, TENANT_RECORD_KIND_LOGS,
    TENANT_RECORD_KIND_OTLP_LOGS, TENANT_RECORD_KIND_TRACES, WAL_FILE,
};
use loggytracy::journal::replay::{
    open_record, read_header, replay, replay_otlp_log_record, replay_record, replay_reporting,
    replay_trace_record, replay_with_traces, Decoded, Normalized, RecordKind, ReplayReport,
    TraceOutcome,
};
use loggytracy::journal::writer::{
    AfterWrite, Append, Arrival, Batch, Command, WalBacklog, WriterState,
};
use loggytracy::model::{Labels, LogEntry, MemTableSnapshot};
use loggytracy::push::{PushedEntry, PushedStream};
use loggytracy::tenant::TenantId;

// ------------------------------------------------------------------- payloads
fn test_tenant() -> TenantId {
    TenantId::parse("test-tenant").unwrap()
}

fn put_varint(out: &mut Vec<u8>, mut n: u64) {
    while n >= 0x80 {
        out.push((n as u8 & 0x7f) | 0x80);
        n >>= 7;
    }
    out.push(n as u8);
}

fn put_bytes(out: &mut Vec<u8>, tag: u8, bytes: &[u8]) {
    out.push(tag << 3 | 2);
    put_varint(out, bytes.len() as u64);
    out.extend_from_slice(bytes);
}

fn make_push_req(streams: &[(&str, Vec<(&str, i64)>)]) -> Vec<u8> {
    let mut request = Vec::new();
    for (labels, entries) in streams {
        let mut stream = Vec::new();
        put_bytes(&mut stream, 1, labels.as_bytes());
        for (line, seconds) in entries {
            let mut timestamp = vec![0x08];
            put_varint(&mut timestamp, *seconds as u64);
            let mut entry = Vec::new();
            put_bytes(&mut entry, 1, &timestamp);
            put_bytes(&mut entry, 2, line.as_bytes());
            put_bytes(&mut stream, 2, &entry);
        }
        put_bytes(&mut request, 1, &stream);
    }
    request
}

fn take_varint(bytes: &[u8], at: &mut usize) -> u64 {
    let mut n = 0;
    let mut shift = 0;
    loop {
        let byte = bytes[*at];
        *at += 1;
        n |= u64::from(byte & 0x7f) << shift;
        if byte < 0x80 {
            return n;
        }
        shift += 7;
    }
}

fn fields(bytes: &[u8]) -> Vec<(u8, Vec<u8>)> {
    let mut out = Vec::new();
    let mut at = 0;
    while at < bytes.len() {
        let tag = bytes[at];
        at += 1;
        if tag & 7 == 2 {
            let len = take_varint(bytes, &mut at) as usize;
            out.push((tag >> 3, bytes[at..at + len].to_vec()));
            at += len;
        } else {
            let n = take_varint(bytes, &mut at);
            out.push((tag >> 3, n.to_le_bytes().to_vec()));
        }
    }
    out
}

/// One label in braces.
fn read_labels(text: &str) -> Labels {
    let (name, value) = text
        .trim_start_matches('{')
        .trim_end_matches('}')
        .split_once('=')
        .unwrap();
    let mut labels = Labels::new();
    labels.insert(name.to_string(), value.trim_matches('"').to_string());
    labels
}

fn decode_push(payload: &[u8]) -> Vec<PushedStream> {
    fields(payload)
        .into_iter()
        .map(|(_, stream)| {
            let mut labels_text = String::new();
            let mut entries = Vec::new();
            for (tag, bytes) in fields(&stream) {
                if tag == 1 {
                    labels_text = String::from_utf8(bytes).unwrap();
                    continue;
                }
                let mut line = String::new();
                let mut seconds = 0;
                for (tag, bytes) in fields(&bytes) {
                    if tag == 1 {
                        seconds = i64::from_le_bytes(fields(&bytes)[0].1[..].try_into().unwrap());
                    } else {
                        line = String::from_utf8(bytes).unwrap();
                    }
                }
                entries.push(PushedEntry {
                    timestamp_ns: Ok(seconds * 1_000_000_000),
                    line,
                    structured_metadata: vec![],
                });
            }
            let labels = Ok(read_labels(&labels_text));
            PushedStream { labels_text, labels, entries }
        })
        .collect()
}

// ------------------------------------------------------------------- the disk
/// The files of a log, held in memory.
struct Disk {
    wal: Vec<u8>,
    ckpt: Option<Vec<u8>>,
    intent: Option<Vec<u8>>,
    copy: Option<Vec<u8>>,
    state: WriterState,
}

impl Disk {
    fn new() -> Disk {
        Disk { wal: vec![], ckpt: None, intent: None, copy: None, state: WriterState::open(0, 0) }
    }

    fn append(&mut self, tenant: TenantId, payload: Vec<u8>) {
        let append = Append::new(TENANT_RECORD_KIND_LOGS, tenant, payload).ok().unwrap();
        let batch = Batch::begin(Command::Append(append));
        let bytes = batch.encode();
        self.wal.extend_from_slice(&bytes);
        assert_eq!(self.state.wrote(true, bytes.len() as u64), AfterWrite::Acknowledge);
    }

    fn push(&mut self, labels: &str, line: &str, seconds: i64) {
        self.append(test_tenant(), make_push_req(&[(labels, vec![(line, seconds)])]));
    }

    fn checkpoint(&self) -> u64 {
        self.state.checkpoint(true).unwrap()
    }

    fn read_checkpoint(&self) -> u64 {
        read_checkpoint(self.ckpt.as_deref()).unwrap()
    }

    fn try_compact(&mut self, offset: u64, fail_at: Option<CompactionStep>) -> Result<(), String> {
        loop {
            let intent = read_compaction_state(self.intent.as_deref()).ok().unwrap();
            let plan = plan_compaction(
                intent,
                self.wal.len() as u64,
                self.copy.is_some(),
                offset,
                self.state.good_len,
            )
            .map_err(|failure| failure.message)?;
            match plan {
                Plan::RollBack { checkpoint } => {
                    self.ckpt = Some(write_checkpoint(checkpoint));
                    self.copy = None;
                    self.intent = None;
                    self.state.good_len = self.wal.len() as u64;
                    self.state.backlog.set_wal_bytes(self.wal.len() as u64);
                }
                Plan::Settle => {
                    self.intent = None;
                    self.state.compacted(self.wal.len() as u64);
                    return Ok(());
                }
                Plan::Steps(intent) => {
                    let mut done = 0;
                    while let Some(step) = compaction_step(done) {
                        if fail_at == Some(step) {
                            return Err("injected failure".to_string());
                        }
                        match step {
                            CompactionStep::CopyRest => {
                                let rest = self.wal[intent.offset as usize..].to_vec();
                                check_copied(rest.len() as u64, intent.retained_len).ok().unwrap();
                                self.copy = Some(rest);
                            }
                            CompactionStep::WriteIntent => {
                                self.intent = Some(write_compaction_state(&intent));
                            }
                            CompactionStep::ResetCheckpoint => {
                                self.ckpt = Some(write_checkpoint(0));
                            }
                            CompactionStep::Replace => self.wal = self.copy.take().unwrap(),
                            CompactionStep::DropIntent => self.intent = None,
                            _ => {}
                        }
                        done += 1;
                    }
                    self.state.compacted(intent.retained_len);
                    return Ok(());
                }
            }
        }
    }

    fn compact(&mut self, offset: u64, fail_at: Option<CompactionStep>) -> Result<(), String> {
        let result = self.try_compact(offset, fail_at);
        if result.is_err() {
            let checkpoint = self.read_checkpoint();
            assert!(self.state.reopened(Some(self.wal.len() as u64), Some(checkpoint)));
        }
        result
    }

    fn recover(&mut self) {
        let intent = read_compaction_state(self.intent.as_deref()).ok().unwrap();
        match recover_unfinished_compaction(intent, self.copy.is_some()) {
            Recovery::Nothing => {}
            Recovery::DropIntent => self.intent = None,
            Recovery::RollBack { checkpoint } => {
                self.ckpt = Some(write_checkpoint(checkpoint));
                self.copy = None;
                self.intent = None;
            }
        }
    }

    fn replay(&mut self) -> (u64, u64, MemTableSnapshot) {
        self.recover();
        let (start, end, table) = replay_bytes(Some(&self.wal), self.ckpt.as_deref()).unwrap();
        (start, end, table)
    }

    fn lines(&mut self) -> Vec<String> {
        let (_, _, table) = self.replay();
        lines_of(&table, &test_tenant())
    }
}

fn replay_bytes(
    wal: Option<&[u8]>,
    ckpt: Option<&[u8]>,
) -> Result<(u64, u64, MemTableSnapshot), String> {
    let (start, log) = replay(wal, WAL_FILE, ckpt, &test_tenant())?;
    let decoded = log
        .records
        .iter()
        .map(|record| {
            assert!(record.kind == RecordKind::Logs);
            Decoded::Logs(Ok(decode_push(&record.payload)))
        })
        .collect();
    let mut table = MemTableSnapshot::new();
    let report = replay_reporting(start, log, decoded, &mut table)?;
    assert_eq!(report.checkpoint, start);
    Ok((start, report.end_offset, table))
}

fn lines_of(table: &MemTableSnapshot, tenant: &TenantId) -> Vec<String> {
    table
        .tenants
        .iter()
        .filter(|held| held.tenant.same(tenant))
        .flat_map(|held| &held.streams)
        .flat_map(|stream| stream.entries.iter().map(|entry| entry.line.clone()))
        .collect()
}

fn bare_record(data: &[u8], crc: u32) -> Vec<u8> {
    let mut record = Vec::new();
    record.extend_from_slice(&(data.len() as u32).to_le_bytes());
    record.extend_from_slice(&crc.to_le_bytes());
    record.extend_from_slice(data);
    record
}

// ------------------------------------------------------------ append and replay
fn appends_and_checkpoints() {
    let mut disk = Disk::new();
    disk.push("{app=\"a\"}", "hi", 100);
    disk.push("{app=\"b\"}", "yo", 200);
    let (_, _, table) = disk.replay();
    assert_eq!(table.tenants.len(), 1, "one tenant produced both streams");
    assert_eq!(table.tenants[0].streams.len(), 2);

    let offset = disk.checkpoint();
    assert!(offset > 0);
    disk.ckpt = Some(write_checkpoint(offset));
    let (start, end, _) = disk.replay();
    assert_eq!(start, offset);
    assert_eq!(end, offset);
}

#[test]
fn journal_append_and_checkpoint() {
    appends_and_checkpoints();
}

#[test]
fn tests_append_and_checkpoint() {
    appends_and_checkpoints();
}

fn restores_unflushed_data() {
    let mut disk = Disk::new();
    disk.append(
        test_tenant(),
        make_push_req(&[("{app=\"a\"}", vec![("line1", 100), ("line2", 200)])]),
    );
    let (start, end, table) = disk.replay();
    assert_eq!(start, 0);
    assert!(end > 0);
    assert_eq!(lines_of(&table, &test_tenant()), vec!["line1", "line2"]);
}

#[test]
fn journal_replay_restores_unflushed_data() {
    restores_unflushed_data();
}

#[test]
fn tests_replay_restores_unflushed_data() {
    restores_unflushed_data();
}

fn truncates_crc_corruption_at_tail() {
    let data = make_push_req(&[("{app=\"a\"}", vec![("line", 100)])]);
    let record = bare_record(&data, crc32fast::hash(&data) ^ 1);
    let (start, end, table) = replay_bytes(Some(&record), None).unwrap();
    assert_eq!(start, 0);
    assert_eq!(end, 0);
    assert!(table.tenants.is_empty());
}

#[test]
fn journal_replay_truncates_crc_corruption_at_tail() {
    truncates_crc_corruption_at_tail();
}

#[test]
fn tests_replay_truncates_crc_corruption_at_tail() {
    truncates_crc_corruption_at_tail();
}

fn does_not_allocate_declared_length() {
    let mut header = Vec::new();
    header.extend_from_slice(&u32::MAX.to_le_bytes());
    header.extend_from_slice(&0u32.to_le_bytes());
    let (start, end, _) = replay_bytes(Some(&header), None).unwrap();
    assert_eq!(start, 0);
    assert_eq!(end, 0);
}

#[test]
fn journal_replay_does_not_allocate_declared_length_for_a_partial_tail() {
    does_not_allocate_declared_length();
}

#[test]
fn tests_replay_does_not_allocate_declared_length_for_a_partial_tail() {
    does_not_allocate_declared_length();
}

fn rejects_crc_corruption_before_valid_records() {
    let first = make_push_req(&[("{app=\"a\"}", vec![("bad", 100)])]);
    let second = make_push_req(&[("{app=\"b\"}", vec![("good", 200)])]);
    let mut wal = bare_record(&first, crc32fast::hash(&first) ^ 1);
    wal.extend_from_slice(&bare_record(&second, crc32fast::hash(&second)));
    let error = replay_bytes(Some(&wal), None).err().unwrap();
    assert!(error.contains("journal record crc mismatch"), "{error}");
}

#[test]
fn journal_replay_rejects_crc_corruption_before_valid_records() {
    rejects_crc_corruption_before_valid_records();
}

#[test]
fn tests_replay_rejects_crc_corruption_before_valid_records() {
    rejects_crc_corruption_before_valid_records();
}

#[test]
fn journal_replay_rejects_checkpoint_without_wal() {
    assert!(replay_bytes(None, Some(&write_checkpoint(128))).is_err());
}

#[test]
fn tests_replay_rejects_checkpoint_without_wal() {
    assert!(replay_bytes(None, Some(&write_checkpoint(128))).is_err());
    let (start, end, _) = replay_bytes(None, None).unwrap();
    assert_eq!((start, end), (0, 0));
}

#[test]
fn journal_replay_rejects_checkpoint_beyond_wal() {
    assert!(replay_bytes(Some(&[0u8; 16]), Some(&write_checkpoint(32))).is_err());
}

#[test]
fn tests_replay_rejects_checkpoint_beyond_wal() {
    assert!(replay_bytes(Some(&[0u8; 16]), Some(&write_checkpoint(32))).is_err());
}

fn rejects_malformed_checkpoint() {
    for bytes in [&[1u8, 2, 3][..], &[0u8; 9][..]] {
        let error = replay_bytes(Some(&[]), Some(bytes))
            .err()
            .expect("malformed checkpoint must stop recovery");
        assert!(error.contains("exactly 8 bytes"));
    }
}

#[test]
fn journal_replay_rejects_malformed_checkpoint() {
    rejects_malformed_checkpoint();
}

#[test]
fn tests_replay_rejects_malformed_checkpoint() {
    rejects_malformed_checkpoint();
}

fn checkpoint_persists_offset() {
    let mut disk = Disk::new();
    disk.push("{app=\"a\"}", "x", 1);
    let offset = disk.checkpoint();
    disk.ckpt = Some(write_checkpoint(offset));
    disk.push("{app=\"b\"}", "y", 2);
    assert_eq!(disk.lines(), vec!["y"]);
}

#[test]
fn journal_checkpoint_clears_memtable_and_persists_offset() {
    checkpoint_persists_offset();
}

#[test]
fn tests_checkpoint_clears_memtable_and_persists_offset() {
    checkpoint_persists_offset();
}

#[test]
fn replay_restores_each_record_under_its_own_tenant() {
    let acme = TenantId::parse("acme").unwrap();
    let globex = TenantId::parse("globex").unwrap();
    let mut disk = Disk::new();
    disk.append(
        acme.clone(),
        make_push_req(&[(r#"{app="a"}"#, vec![("acme line", 100)])]),
    );
    disk.append(
        globex.clone(),
        make_push_req(&[(r#"{app="b"}"#, vec![("globex line", 200)])]),
    );
    let (_, _, table) = disk.replay();
    assert_eq!(lines_of(&table, &acme), vec!["acme line"]);
    assert_eq!(lines_of(&table, &globex), vec!["globex line"]);
    assert!(lines_of(&table, &test_tenant()).is_empty());
}

#[test]
fn replay_attributes_a_pre_tenancy_record_to_the_default_tenant() {
    let payload = make_push_req(&[(r#"{app="legacy"}"#, vec![("from before tenancy", 100)])]);
    let wal = bare_record(&payload, crc32fast::hash(&payload));
    let (_, _, table) = replay_bytes(Some(&wal), None).unwrap();
    assert_eq!(lines_of(&table, &test_tenant()), vec!["from before tenancy"]);
}

#[test]
fn an_otlp_log_record_replays_by_its_own_kind() {
    // The record keeps its kind, and replay inserts what its normalization gives.
    let append =
        Append::new(TENANT_RECORD_KIND_OTLP_LOGS, test_tenant(), b"export".to_vec()).ok().unwrap();
    let wal = Batch::begin(Command::Append(append)).encode();
    let (_, log) = replay(Some(&wal), WAL_FILE, None, &test_tenant()).ok().unwrap();
    assert_eq!(log.records.len(), 1);
    let record = &log.records[0];
    assert!(record.kind == RecordKind::OtlpLogs);
    assert_eq!(record.payload, b"export");

    let mut labels = Labels::new();
    labels.insert("service_name".to_string(), "api".to_string());
    let entry = LogEntry {
        timestamp_ns: 100,
        line: "hello".to_string(),
        structured_metadata: vec![("trace_id".to_string(), "abc123".to_string())],
    };
    let normalized = Normalized::Streams(vec![(labels, vec![entry])]);
    let mut table = MemTableSnapshot::new();
    let mut report = ReplayReport::starting_at(0);
    replay_record(
        &record.tenant,
        Decoded::OtlpLogs(Ok(normalized)),
        record.offset,
        &mut table,
        &mut report,
    )
    .unwrap();
    assert_eq!((report.records, report.entries), (1, 1));
    let stream = &table.tenants[0].streams[0];
    assert_eq!(stream.labels.get("service_name").unwrap(), "api");
    assert_eq!(stream.entries[0].line, "hello");
    assert_eq!(
        stream.entries[0].structured_metadata,
        vec![("trace_id".to_string(), "abc123".to_string())]
    );
}

// ----------------------------------------------------------------- compaction
#[test]
fn compact_checkpoint_retains_appends_after_snapshot() {
    let mut disk = Disk::new();
    disk.push("{app=\"flushed\"}", "old", 100);
    let offset = disk.checkpoint();
    disk.push("{app=\"inflight\"}", "new", 200);
    let before = disk.wal.len();
    disk.compact(offset, None).unwrap();
    assert_eq!(disk.read_checkpoint(), 0);
    assert!(disk.wal.len() < before);
    assert_eq!(disk.lines(), vec!["new"]);
}

#[test]
fn compaction_failure_does_not_fence_journal_writer() {
    let mut disk = Disk::new();
    disk.push("{app=\"old\"}", "old", 100);
    let offset = disk.checkpoint();
    assert!(disk.compact(offset, Some(CompactionStep::CopyRest)).is_err());
    disk.push("{app=\"new\"}", "new", 200);
    disk.compact(offset, None).unwrap();
    assert_eq!(disk.lines(), vec!["new"]);
}

#[test]
fn compaction_retry_after_rename_failure_keeps_acknowledged_suffix() {
    let mut disk = Disk::new();
    disk.push("{app=\"old\"}", "old", 100);
    let offset = disk.checkpoint();
    assert!(disk.compact(offset, Some(CompactionStep::SyncDirectory)).is_err());
    disk.push("{app=\"new\"}", "new", 200);
    disk.compact(offset, None).unwrap();
    assert_eq!(disk.lines(), vec!["new"]);
}

#[test]
fn replay_rolls_back_uncommitted_compaction_before_rename() {
    let mut disk = Disk::new();
    disk.push("{app=\"old\"}", "old", 100);
    let offset = disk.checkpoint();
    let state =
        CompactionState { offset, source_len: disk.wal.len() as u64, retained_len: 0 };
    disk.intent = Some(write_compaction_state(&state));
    disk.ckpt = Some(write_checkpoint(0));
    disk.copy = Some(vec![]);
    assert!(disk.lines().is_empty());
    assert_eq!(disk.read_checkpoint(), offset);
    assert!(disk.intent.is_none());
    assert!(disk.copy.is_none());
}

#[test]
fn consecutive_compactions_truncate_whatever_the_batch_sizes_are() {
    let mut disk = Disk::new();
    for (label, line) in [
        ("aaaaaaaaaaaaaaaa", "first"),
        ("b", "second"),
        ("b", "second"),
        ("cccccccccccccccccccccccc", "third"),
    ] {
        disk.push(&format!("{{app=\"{label}\"}}"), line, 100);
        let offset = disk.checkpoint();
        disk.compact(offset, None).unwrap();
        assert_eq!(disk.wal.len(), 0, "compaction left the WAL untruncated for {label}");
        assert_eq!(disk.read_checkpoint(), 0);
    }
    assert!(disk.intent.is_none(), "the intent record outlived compaction");
}

#[test]
fn a_failed_state_removal_is_settled_by_the_callers_retry() {
    let mut disk = Disk::new();
    disk.push("{app=\"old\"}", "old", 100);
    let first = disk.checkpoint();
    assert!(disk.compact(first, Some(CompactionStep::DropIntent)).is_err());
    assert!(disk.intent.is_some(), "the injected failure kept the record");

    disk.compact(first, None).unwrap();
    assert!(disk.intent.is_none());

    disk.push("{app=\"new\"}", "new", 100);
    let second = disk.checkpoint();
    disk.compact(second, None).unwrap();
    assert_eq!(disk.wal.len(), 0);
    assert!(disk.lines().is_empty(), "both batches were flushed, so replay must yield nothing");
}

#[test]
fn a_compaction_that_stops_at_any_step_loses_nothing_that_is_not_flushed() {
    let mut done = 0;
    while let Some(step) = compaction_step(done) {
        let mut disk = Disk::new();
        disk.push("{app=\"old\"}", "old", 100);
        let offset = disk.checkpoint();
        disk.push("{app=\"new\"}", "new", 200);
        assert!(disk.compact(offset, Some(step)).is_err());
        disk.push("{app=\"later\"}", "later", 300);
        let lines = disk.lines();
        assert!(lines.ends_with(&["new".to_string(), "later".to_string()]), "{step:?} {lines:?}");
        done += 1;
    }
    assert_eq!(done, 9);
}

#[test]
fn an_intent_record_is_read_back_and_refused_when_it_is_damaged() {
    let state = CompactionState { offset: 7, source_len: 0x0102_0304_0506_0708, retained_len: 9 };
    let bytes = write_compaction_state(&state);
    assert_eq!(bytes.len(), 26);
    assert_eq!(bytes[0..2], [1, 1]);
    assert_eq!(bytes[10..18], [8, 7, 6, 5, 4, 3, 2, 1]);
    assert!(read_compaction_state(Some(&bytes)).ok().unwrap() == Some(state));
    assert!(read_compaction_state(None).ok().unwrap().is_none());
    for damaged in [&bytes[..25], &[0u8; 26][..]] {
        let failure = read_compaction_state(Some(damaged)).err().unwrap();
        assert!(failure.kind == FailureKind::InvalidData);
        assert_eq!(failure.message, "invalid WAL compaction state");
    }
}

#[test]
fn a_compaction_that_cannot_go_on_says_why() {
    let refuse = |intent, wal_len, copy, offset, good_len| {
        plan_compaction(intent, wal_len, copy, offset, good_len).err().unwrap()
    };
    let failure = refuse(None, 10, false, 11, 10);
    assert!(failure.kind == FailureKind::InvalidInput);
    assert_eq!(failure.message, "WAL compaction offset 11 exceeds durable length 10");
    let intent = Some(CompactionState { offset: 4, source_len: 10, retained_len: 6 });
    assert_eq!(
        refuse(intent, 9, true, 4, 9).message,
        "source WAL is shorter than its recorded compaction length"
    );
    assert_eq!(
        refuse(intent, 5, false, 4, 5).message,
        "replacement WAL is shorter than its recorded suffix"
    );
    let failure = check_copied(3, 6).err().unwrap();
    assert!(failure.kind == FailureKind::UnexpectedEof);
    assert_eq!(failure.message, "copied 3 of 6 WAL bytes during compaction");
}

// -------------------------------------------------------------------- records
#[test]
fn a_frame_gives_back_whose_payload_it_is() {
    let tenant = TenantId::parse("acme").unwrap();
    let frame = frame_tenant_record(&tenant, 1, b"payload");
    assert_eq!(frame, b"LGY3\x01\x04acmepayload");
    assert_eq!(framed_record_len(&tenant, b"payload"), frame.len());
    let (found, kind, payload) = decode_tenant_record(&frame).ok().unwrap().unwrap();
    assert_eq!(found.as_str(), "acme");
    assert_eq!(kind, 1);
    assert_eq!(payload, b"payload");
    assert!(decode_tenant_record(b"bare").ok().unwrap().is_none());
    assert_eq!(
        decode_tenant_record(b"LGY3\x01").err().unwrap(),
        "tenant journal record is truncated"
    );
    assert_eq!(
        decode_tenant_record(b"LGY3\x01\x09acme").err().unwrap(),
        "tenant journal record is truncated"
    );
    let error = decode_tenant_record(b"LGY3\x00\x01\xff").err().unwrap();
    assert!(error.starts_with("tenant journal record has a non-UTF-8 tenant: "), "{error}");
    assert_eq!(
        decode_tenant_record(b"LGY3\x00\x00").err().unwrap(),
        "tenant id must not be empty"
    );
}

#[test]
fn a_record_carries_its_length_and_checksum() {
    let mut out = Vec::new();
    push_record(&mut out, b"data");
    assert_eq!(out, bare_record(b"data", crc32fast::hash(b"data")));
    assert!(check_record_len(MAX_RECORD_BYTES).is_ok());
    assert!(check_record_len(MAX_RECORD_BYTES + 1).is_err());
    let header = read_header(&out[..8], 0, out.len() as u64).ok().unwrap().unwrap();
    assert_eq!((header.len, header.crc, header.end), (4, crc32fast::hash(b"data"), 12));
    assert!(read_header(&out[..8], 0, 11).ok().unwrap().is_none());
    let record = open_record(b"data", header.crc, 0, 12, 12, &test_tenant()).ok().unwrap().unwrap();
    assert_eq!(record.payload, b"data");
    assert_eq!(record.tenant.as_str(), "test-tenant");
    assert!(open_record(b"data", header.crc ^ 1, 0, 12, 12, &test_tenant()).ok().unwrap().is_none());
    assert!(open_record(b"data", header.crc ^ 1, 0, 12, 13, &test_tenant()).is_err());
}

#[test]
fn a_checkpoint_is_eight_bytes() {
    assert_eq!(write_checkpoint(0x0102), [2, 1, 0, 0, 0, 0, 0, 0]);
    assert_eq!(read_checkpoint(Some(&write_checkpoint(u64::MAX))).unwrap(), u64::MAX);
    assert_eq!(read_checkpoint(None).unwrap(), 0);
}

#[test]
fn a_log_cut_anywhere_keeps_the_records_before_the_cut() {
    let mut disk = Disk::new();
    disk.push("{app=\"a\"}", "one", 1);
    let first = disk.wal.len();
    disk.push("{app=\"b\"}", "two", 2);
    for cut in 0..=disk.wal.len() {
        let (_, end, table) = replay_bytes(Some(&disk.wal[..cut]), None).unwrap();
        let lines = lines_of(&table, &test_tenant());
        if cut == disk.wal.len() {
            assert_eq!(lines, vec!["one", "two"]);
        } else if cut >= first {
            assert_eq!(lines, vec!["one"]);
            assert_eq!(end as usize, first);
        } else {
            assert!(lines.is_empty());
            assert_eq!(end, 0);
        }
    }
}

#[test]
fn records_that_do_not_decode_stop_recovery() {
    let tenant = test_tenant();
    let mut table = MemTableSnapshot::new();
    let mut report = ReplayReport::starting_at(0);
    let mut refuse = |decoded: Decoded| {
        replay_record(&tenant, decoded, 42, &mut table, &mut report).err().unwrap()
    };
    let error = refuse(Decoded::Logs(Err("bad tag".to_string())));
    assert!(error.contains("42") && error.contains("bad tag"), "{error}");
    let bad_labels = PushedStream {
        labels_text: "{".to_string(),
        labels: Err("unclosed".to_string()),
        entries: vec![],
    };
    let error = refuse(Decoded::Logs(Ok(vec![bad_labels])));
    assert!(error.contains("unclosed"), "{error}");
    let bad_time = PushedEntry {
        timestamp_ns: Err("out of range".to_string()),
        line: String::new(),
        structured_metadata: vec![],
    };
    let stream = PushedStream {
        labels_text: "{app=\"a\"}".to_string(),
        labels: Ok(read_labels("{app=\"a\"}")),
        entries: vec![bad_time],
    };
    let error = refuse(Decoded::Logs(Ok(vec![stream])));
    assert!(error.contains("out of range"), "{error}");
    assert!(table.tenants.is_empty());

    let tenant = test_tenant();
    let error = replay_otlp_log_record(&tenant, Err("cut".to_string()), 9, &mut table).err().unwrap();
    assert!(error.starts_with("OTLP log protobuf decode failed"), "{error}");
    let invalid = Ok(Normalized::Invalid("no body".to_string()));
    let error = replay_otlp_log_record(&tenant, invalid, 9, &mut table).err().unwrap();
    assert!(error.starts_with("OTLP log record invalid"), "{error}");
    let empty = Ok(Normalized::EmptyRequest);
    assert_eq!(replay_otlp_log_record(&tenant, empty, 9, &mut table).unwrap(), 0);
    assert!(replay_trace_record(TraceOutcome::Inserted, 3).is_ok());
    let error = replay_trace_record(TraceOutcome::Undecodable("x".to_string()), 3).err().unwrap();
    assert!(error.starts_with("trace protobuf decode failed"), "{error}");
    let error = replay_trace_record(TraceOutcome::Invalid("x".to_string()), 3).err().unwrap();
    assert!(error.starts_with("trace record invalid"), "{error}");
}

// --------------------------------------------------------------------- writer
#[test]
fn a_round_gathers_appends_until_something_ends_it() {
    assert_eq!(Config::default().max_batch_ms, 0, "the default must not linger");
    let append = |payload: &[u8]| {
        Append::new(TENANT_RECORD_KIND_TRACES, test_tenant(), payload.to_vec()).ok().unwrap()
    };
    let mut batch = Batch::begin(Command::Append(append(b"one")));
    assert!(batch.wants_more(1024));
    assert!(!batch.wants_more(batch.bytes));
    assert!(batch.take(Arrival::Command(Command::Append(append(b"two")))));
    assert!(!batch.take(Arrival::Nothing));
    assert!(batch.wants_more(1024));
    assert!(!batch.take(Arrival::Command(Command::Checkpoint)));
    assert!(batch.checkpoint && !batch.closed);
    assert!(!batch.wants_more(1024));
    let wal = batch.encode();
    let (_, log) = replay(Some(&wal), WAL_FILE, None, &test_tenant()).ok().unwrap();
    let payloads: Vec<_> = log.records.iter().map(|record| record.payload.clone()).collect();
    assert_eq!(payloads, vec![b"one".to_vec(), b"two".to_vec()]);
    assert!(log.records.iter().all(|record| record.kind == RecordKind::Traces));

    let compact = Batch::begin(Command::Compact { offset: 5 });
    assert_eq!(compact.compact, Some(5));
    assert!(!compact.wants_more(1024));
    let mut closing = Batch::begin(Command::Append(append(b"last")));
    assert!(!closing.take(Arrival::Closed));
    assert!(closing.closed);
}

#[test]
fn a_failed_write_is_cut_back_and_counts_nothing() {
    let mut state = WriterState::open(100, 40);
    assert_eq!(state.backlog.bytes(), 60);
    assert_eq!(state.wrote(false, 8), AfterWrite::Truncate { len: 100 });
    assert_eq!(state.good_len, 100);
    assert_eq!(state.wrote(true, 8), AfterWrite::Acknowledge);
    assert_eq!(state.backlog.bytes(), 68);
    assert_eq!(state.checkpoint(true), Some(108));
    assert_eq!(state.checkpoint(false), None);
    state.compacted(8);
    assert_eq!(state.backlog.bytes(), 8);
    assert!(!state.reopened(None, None));
    assert!(state.reopened(Some(20), None));
    assert_eq!(state.backlog, WalBacklog { wal_bytes: 20, checkpoint_bytes: 0 });
    let mut backlog = state.backlog;
    backlog.set_wal_bytes(5);
    backlog.set_checkpoint_bytes(9);
    assert_eq!(backlog.bytes(), 0);
    assert_eq!(backlog.wal_bytes(), 5);
}

#[test]
fn a_replay_reports_what_it_put_back_and_stops_where_it_cannot_go_on() {
    let frame = |line: &str| {
        let payload = make_push_req(&[("{app=\"a\"}", vec![(line, 100)])]);
        frame_tenant_record(&test_tenant(), TENANT_RECORD_KIND_LOGS, &payload)
    };
    let mut wal = Vec::new();
    push_record(&mut wal, &frame("one"));
    let second = wal.len() as u64;
    push_record(&mut wal, &frame("two"));
    let scan = || replay(Some(&wal), WAL_FILE, None, &test_tenant()).unwrap();
    let decode = |line: &str| Decoded::Logs(Ok(decode_push(&make_push_req(&[("{app=\"a\"}", vec![(line, 100)])]))));

    let mut table = MemTableSnapshot::new();
    let (start, log) = scan();
    let report =
        replay_reporting(start, log, vec![decode("one"), decode("two")].into(), &mut table).unwrap();
    assert!(
        report
            == ReplayReport {
                checkpoint: 0,
                end_offset: wal.len() as u64,
                records: 2,
                entries: 2
            }
    );
    assert_eq!(lines_of(&table, &test_tenant()), vec!["one", "two"]);
    let (start, log) = scan();
    let ends =
        replay_with_traces(start, log, vec![decode("one"), decode("two")].into(), &mut table);
    assert_eq!(ends.unwrap(), (0, wal.len() as u64));

    let mut table = MemTableSnapshot::new();
    let (start, log) = scan();
    let bad = Decoded::Logs(Err("bad tag".to_string()));
    let error = replay_reporting(start, log, vec![decode("one"), bad].into(), &mut table);
    assert_eq!(
        error.err().unwrap(),
        format!("journal protobuf decode failed at offset {second}: bad tag")
    );
    assert_eq!(lines_of(&table, &test_tenant()), vec!["one"]);

    let mut broken = wal.clone();
    broken[second as usize + 4] ^= 1;
    broken.extend_from_slice(&wal);
    let mut table = MemTableSnapshot::new();
    let (start, log) = replay(Some(&broken), WAL_FILE, None, &test_tenant()).unwrap();
    let error = replay_reporting(start, log, vec![decode("one")].into(), &mut table);
    assert_eq!(
        error.err().unwrap(),
        format!("journal record crc mismatch at offset {second}")
    );
    assert_eq!(lines_of(&table, &test_tenant()), vec!["one"]);
}
