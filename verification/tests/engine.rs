use loggytracy::config::Config;
use loggytracy::delete_requests::{
    CompiledRequest, DeleteRequest, DeleteRequestError, DeleteRequests, DeleteStatus,
    ExactSelector, Held, LabelMatcher, LineFilter, ParsedQuery, PartMeta, TenantSegment,
    MAX_DELETE_REQUESTS_PER_TENANT,
};
use loggytracy::flush::{
    advance_checkpoint, should_flush, trace_write_failure, Advance, Flush, FlushLoop, FlushStep,
    Snapshot,
};
use loggytracy::log_scan::{
    estimated_log_entry_memory_bytes, CountingSink, LogScan, PipelineSink, ScanStep, Scanned,
    Source, Stages,
};
use loggytracy::model::{Labels, LogEntry};
use loggytracy::tenant::TenantId;
use loggytracy::time::Duration;

fn tenant(name: &str) -> TenantId {
    TenantId::parse(name).unwrap()
}

fn labels(pairs: &[(&str, &str)]) -> Labels {
    let mut labels = Labels::new();
    for (name, value) in pairs {
        labels.insert(name.to_string(), value.to_string());
    }
    labels
}

fn entry(timestamp_ns: i64, line: &str) -> LogEntry {
    LogEntry { timestamp_ns, line: line.to_string(), structured_metadata: vec![] }
}

// ----------------------------------------------------------------------- flush
fn steps(flush: &Flush) -> Vec<FlushStep> {
    let mut out = Vec::new();
    while let Some(step) = flush.step(out.len()) {
        out.push(step);
    }
    out
}

#[test]
fn checkpoint_failure_does_not_flush_same_snapshot_again() {
    // The parts are registered and the snapshot is dropped before the checkpoint
    // moves, so a failure there keeps the offset and nothing else.
    let flush = Flush { offset: 77, remote: false, empty: false };
    let undo = flush.undo(FlushStep::AdvanceCheckpoint);
    assert!(undo.snapshot == Snapshot::Commit);
    assert!(undo.keep_offset && !undo.remove_parts && !undo.unregister_logs);
    let mut state = FlushLoop::new();
    state.flushed(&flush, Some(FlushStep::AdvanceCheckpoint));
    assert_eq!(state.pending_checkpoint, Some(77));
    assert!(!state.healthy);
    assert!(!state.drained(true, true));
    assert!(state.retry_pending_checkpoint(false).ok() == Some(Advance::SetCheckpoint { offset: 77 }));
    assert!(state.retry_pending_checkpoint(true).ok() == Some(Advance::Compact { offset: 77 }));
    assert!(!state.retried(false));
    assert_eq!(state.pending_checkpoint, Some(77));
    assert!(state.retried(true));
    assert!(state.pending_checkpoint.is_none() && state.healthy);
    assert!(state.drained(true, true) && !state.drained(false, true));
    assert_eq!((state.flush_success, state.flush_errors), (1, 2));
    assert_eq!(
        state.retry_pending_checkpoint(false).err().unwrap(),
        "no journal checkpoint is pending"
    );
}

#[test]
fn a_flush_publishes_before_it_registers_and_registers_before_it_advances() {
    let local = steps(&Flush { offset: 1, remote: false, empty: false });
    assert_eq!(
        local,
        vec![
            FlushStep::CreateDirectory,
            FlushStep::WriteParts,
            FlushStep::RegisterLogs,
            FlushStep::RegisterTraces,
            FlushStep::AdvanceCheckpoint,
        ]
    );
    let remote = steps(&Flush { offset: 1, remote: true, empty: false });
    assert_eq!(remote.len(), 11);
    assert_eq!(remote[10], FlushStep::ClearTransaction);
    assert_eq!(
        steps(&Flush { offset: 1, remote: false, empty: true }),
        vec![FlushStep::AdvanceCheckpoint]
    );
    assert_eq!(steps(&Flush { offset: 1, remote: true, empty: true }).len(), 2);
    assert_eq!(advance_checkpoint(3, true), Advance::Compact { offset: 3 });
    assert_eq!(advance_checkpoint(3, false), Advance::SetCheckpoint { offset: 3 });
}

#[test]
fn a_failed_step_is_undone_and_named() {
    let remote = Flush { offset: 1, remote: true, empty: false };
    let undo = remote.undo(FlushStep::PublishLogs);
    assert!(undo.record_remote_failure && undo.roll_back && undo.remove_parts);
    assert!(undo.snapshot == Snapshot::Abort && !undo.keep_offset);
    let first = remote.undo(FlushStep::WriteParts);
    assert!(!first.remove_parts && first.snapshot == Snapshot::Abort);
    assert_eq!(
        remote.failure(FlushStep::Reconcile, "gone", None, None),
        "failed to reconcile flush transaction: gone"
    );
    assert!(remote
        .failure(FlushStep::PublishLogs, "gone", None, None)
        .starts_with("object-store publish failed: gone"));
    assert_eq!(
        remote.failure(FlushStep::AdvanceCheckpoint, "full", None, None),
        "parts were committed but journal checkpoint could not be advanced: full"
    );
    assert_eq!(trace_write_failure("bad", None), "trace flush failed: bad");
    assert_eq!(
        trace_write_failure("bad", Some("worse")),
        "trace flush failed: bad; log-part rollback failed: worse"
    );
    let mut state = FlushLoop::new();
    state.flushed(&remote, Some(FlushStep::PublishLogs));
    assert_eq!(state.pending_checkpoint, None);
    state.snapshot_failed();
    state.flushed(&remote, None);
    assert!(state.healthy);
    assert_eq!((state.flush_success, state.flush_errors), (1, 2));
}

#[test]
fn a_flush_is_due_by_size_or_by_age() {
    let config = Config {
        flush_max_bytes: 100,
        flush_max_interval: Duration::from_secs(5),
        ..Config::default()
    };
    let due = |empty, log_bytes, trace_bytes, secs| {
        should_flush(empty, empty, log_bytes, trace_bytes, Duration::from_secs(secs), &config)
    };
    assert!(due(false, 60, 40, 0));
    assert!(!due(false, 60, 39, 4));
    assert!(due(false, 1, 0, 5));
    assert!(!due(true, 0, 0, 500));
    assert!(due(false, usize::MAX, usize::MAX, 0));
}

// ------------------------------------------------------------------------- scan
fn scanned(rows: usize, bytes: u64) -> Scanned {
    Scanned { outcome: Ok((rows, bytes)), cancelled: false }
}

fn failure(scan: &LogScan, read: &[Scanned]) -> String {
    match scan.run_into(read) {
        ScanStep::Failed(message) => message,
        _ => panic!("the scan fails"),
    }
}

fn reads(scan: &LogScan, read: &[Scanned]) -> (Source, Option<usize>, Option<u64>) {
    match scan.run_into(read) {
        ScanStep::Read { source, limit, bytes_limit } => (source, limit, bytes_limit),
        _ => panic!("the scan goes on"),
    }
}

#[test]
fn a_scan_reads_the_tables_and_then_the_parts() {
    let scan = LogScan::new(10, true).scan_budget(Some(5)).max_scan_bytes(Some(100));
    assert_eq!(reads(&scan, &[]), (Source::Tables, Some(6), None));
    assert_eq!(reads(&scan, &[scanned(2, 0)]), (Source::Parts, Some(4), Some(100)));
    assert!(matches!(
        scan.run_into(&[scanned(2, 0), scanned(3, 40)]),
        ScanStep::Done { rows: 5, bytes: 40 }
    ));
    let free = LogScan::new(10, true);
    assert_eq!(reads(&free, &[]), (Source::Tables, None, None));
    assert_eq!(reads(&free, &[scanned(9, 7)]), (Source::Parts, None, None));
    assert!(matches!(
        free.run_into(&[scanned(9, 7), scanned(1, 2)]),
        ScanStep::Done { rows: 10, bytes: 2 }
    ));
    let all = LogScan::new(1, true).scan_budget(Some(usize::MAX));
    assert_eq!(reads(&all, &[]).1, Some(usize::MAX));
    assert_eq!(reads(&all, &[scanned(1, 0)]).1, Some(usize::MAX - 1));
}

#[test]
fn a_scan_over_its_budget_is_refused_and_not_cut_short() {
    let scan = LogScan::new(10, true).scan_budget(Some(5)).max_scan_bytes(Some(100));
    let rows = "query exceeds the maximum of 5 scanned rows";
    let cancelled = |rows| Scanned { outcome: Ok((rows, 0)), cancelled: true };
    let broken = || Scanned { outcome: Err("part is gone".to_string()), cancelled: true };
    assert_eq!(failure(&scan, &[scanned(6, 0)]), rows);
    assert_eq!(failure(&scan, &[scanned(6, 0), scanned(0, 0)]), rows);
    assert_eq!(failure(&scan, &[cancelled(9)]), "query timed out");
    assert_eq!(failure(&scan, &[broken()]), "part is gone");
    assert_eq!(failure(&scan, &[scanned(2, 0), scanned(4, 400)]), rows);
    assert_eq!(
        failure(&scan, &[scanned(2, 0), scanned(3, 101)]),
        "query exceeds the maximum of 100 scanned bytes"
    );
    assert_eq!(failure(&scan, &[scanned(2, 0), cancelled(9)]), "query timed out");
    assert_eq!(failure(&scan, &[scanned(2, 0), broken()]), "part is gone");
}

#[test]
fn a_row_is_offered_only_where_the_shared_memory_has_room() {
    let app = labels(&[("app", "a")]);
    let mut sink = PipelineSink { max_memory_bytes: None, materialized_memory_bytes: 7 };
    let mut charged = || {
        let row = sink.accept(&app, entry(1, "line"), false, false, Stages::Kept);
        (row.unwrap().unwrap(), sink.materialized_memory_bytes)
    };
    let (row, total) = charged();
    assert_eq!(row.asks(), total);
    assert_eq!(row.offered(None).unwrap().line, "line");
    assert_eq!(charged().0.offered(Some(Ok(()))).unwrap().line, "line");
    let (row, total) = charged();
    assert!(row.asks() == total && total > 7);
    let refused = row.offered(Some(Err("the pool is spoken for".to_string())));
    assert_eq!(refused.err().unwrap(), "the pool is spoken for");
}

#[test]
fn a_returned_row_is_charged_and_keeps_what_its_labels_do_not_shadow() {
    let app = labels(&[("app", "a")]);
    let mut row = entry(1, "line");
    row.structured_metadata =
        vec![("app".to_string(), "x".to_string()), ("id".to_string(), "7".to_string())];
    let bytes = estimated_log_entry_memory_bytes(&app, &row);
    let copy = || LogEntry {
        timestamp_ns: 1,
        line: "line".to_string(),
        structured_metadata: row.structured_metadata.clone(),
    };
    let mut sink = PipelineSink { max_memory_bytes: None, materialized_memory_bytes: 0 };
    let kept = sink.accept(&app, copy(), false, false, Stages::Absent).unwrap().unwrap();
    let kept = kept.offered(None).unwrap();
    assert_eq!(kept.structured_metadata, vec![("id".to_string(), "7".to_string())]);
    let whole = sink.accept(&app, copy(), false, false, Stages::Kept).unwrap().unwrap();
    let whole = whole.offered(None).unwrap();
    assert_eq!(whole.structured_metadata.len(), 2);
    assert!(sink.materialized_memory_bytes > bytes);
    assert!(sink.accept(&app, copy(), false, true, Stages::Kept).unwrap().is_none());
    assert!(sink.accept(&app, copy(), false, false, Stages::Dropped).unwrap().is_none());
    assert!(sink.accept(&app, copy(), true, false, Stages::Kept).is_err());
    let failed = Stages::Failed("bad template".to_string());
    assert_eq!(sink.accept(&app, copy(), false, false, failed).err().unwrap(), "bad template");
    let mut small = PipelineSink { max_memory_bytes: Some(1), materialized_memory_bytes: 0 };
    assert!(small.accept(&app, copy(), false, false, Stages::Kept).is_err());
}

#[test]
fn a_row_counts_at_every_instant_whose_range_holds_it() {
    let times = vec![10, 20, 30, 40];
    let rows = [(5, 3), (10, 4), (19, 5), (20, 6), (31, 7), (41, 8)];
    for bytes in [false, true] {
        let mut sink = CountingSink::new(times.clone(), 15, bytes);
        for (timestamp_ns, len) in rows {
            sink.accept(timestamp_ns, len, false, false, Stages::Absent).unwrap();
        }
        sink.accept(10, 99, false, true, Stages::Absent).unwrap();
        sink.accept(10, 99, false, false, Stages::Dropped).unwrap();
        assert!(sink.accept(10, 99, true, false, Stages::Kept).is_err());
        let expected: Vec<i128> = times
            .iter()
            .map(|instant| {
                rows.iter()
                    .filter(|(at, _)| at <= instant && *instant < at + 15)
                    .map(|(_, len)| if bytes { *len as i128 } else { 1 })
                    .sum()
            })
            .collect();
        assert_eq!(sink.totals(), expected);
        assert_eq!(sink.rows, 6);
    }
}

#[test]
fn a_row_adds_where_its_range_begins_and_takes_off_where_it_ends() {
    let mut sink = CountingSink::new(vec![10, 20, 30], 15, false);
    sink.accept(15, 1, false, false, Stages::Absent).unwrap();
    assert_eq!((sink.diff.clone(), sink.rows), (vec![0, 1, -1, 0], 1));
    sink.accept(25, 1, false, false, Stages::Absent).unwrap();
    assert_eq!((sink.diff.clone(), sink.rows), (vec![0, 1, 0, -1], 2));
    assert_eq!(sink.totals(), vec![0, 1, 1]);
}

// ---------------------------------------------------------------------- deletes
fn selector(app: &str, needle: Option<&str>) -> Result<ParsedQuery<ExactSelector>, String> {
    Ok(ParsedQuery::Logs {
        selector: ExactSelector {
            matchers: vec![LabelMatcher {
                name: "app".to_string(),
                value: app.to_string(),
                equal: true,
            }],
            line_filters: needle
                .iter()
                .map(|needle| LineFilter { needle: needle.to_string(), present: true })
                .collect(),
        },
        matchers: 1,
        stages: 0,
    })
}

fn ask(
    requests: &mut DeleteRequests<ExactSelector>,
    tenant: &TenantId,
    start_ns: i64,
    end_ns: i64,
) -> Result<String, DeleteRequestError> {
    let held = requests.submit(tenant, "{app=\"a\"}", selector("a", None), start_ns, end_ns, 5)?;
    let id = held.request.request_id.clone();
    requests.commit(tenant, held)?;
    Ok(id)
}

#[test]
fn an_accepted_request_hides_its_rows_and_nothing_else() {
    let (acme, globex) = (tenant("acme"), tenant("globex"));
    let mut requests: DeleteRequests<ExactSelector> = DeleteRequests::new();
    assert!(requests.masks().is_empty());
    let id = ask(&mut requests, &acme, 10, 20).ok().unwrap();
    assert_eq!(id.len(), 36);
    let app = labels(&[("app", "a")]);
    let mask = requests.mask_for(&acme);
    assert!(mask.hides(&app, &entry(10, "x")));
    assert!(mask.hides(&app, &entry(19, "x")));
    assert!(!mask.hides(&app, &entry(9, "x")));
    assert!(!mask.hides(&app, &entry(20, "x")), "the end is outside");
    assert!(!mask.hides(&labels(&[("app", "b")]), &entry(10, "x")));
    assert!(requests.mask_for(&globex).is_empty());
    assert!(!requests.masks().hides_row(&globex, &app, 10, "x"));
    assert!(requests.masks().hides_row(&acme, &app, 10, "x"));
    let listed = requests.list(&acme);
    assert_eq!(listed.len(), 1);
    assert_eq!(listed[0].status.as_str(), "received");
    assert!(requests.list(&globex).is_empty());
    assert_eq!(requests.metrics.accepted, 1);
}

#[test]
fn a_withdrawn_request_hides_nothing_and_an_applied_one_cannot_be_withdrawn() {
    let acme = tenant("acme");
    let app = labels(&[("app", "a")]);
    let mut requests: DeleteRequests<ExactSelector> = DeleteRequests::new();
    let first = ask(&mut requests, &acme, 0, 10).ok().unwrap();
    let second = ask(&mut requests, &acme, 100, 110).ok().unwrap();
    assert_ne!(first, second);
    assert!(matches!(requests.check_cancel(&acme, "none"), Err(DeleteRequestError::NotFound)));
    assert!(matches!(
        requests.check_cancel(&tenant("globex"), &first),
        Err(DeleteRequestError::NotFound)
    ));
    assert!(requests.check_cancel(&acme, &first).is_ok());
    requests.cancel(&acme, &first);
    assert!(!requests.mask_for(&acme).hides(&app, &entry(5, "x")));
    assert!(requests.mask_for(&acme).hides(&app, &entry(105, "x")));
    assert_eq!(requests.metrics.cancelled, 1);

    let holding = PartMeta {
        tenants: vec![TenantSegment { tenant: acme.clone(), min_ts_ns: 90, max_ts_ns: 100 }],
        streams: vec![labels(&[("app", "a")])],
    };
    assert!(requests.masks().may_cover_part(&holding));
    requests.mark_processed(&[holding]);
    assert!(requests.list(&acme)[0].status == DeleteStatus::Received);
    let clear = PartMeta {
        tenants: vec![TenantSegment { tenant: acme.clone(), min_ts_ns: 110, max_ts_ns: 120 }],
        streams: vec![labels(&[("app", "a")])],
    };
    assert!(!requests.masks().may_cover_part(&clear));
    requests.mark_processed(&[clear]);
    assert!(requests.list(&acme)[0].status == DeleteStatus::Processed);
    match requests.check_cancel(&acme, &second) {
        Err(DeleteRequestError::Invalid(message)) => assert_eq!(
            message,
            "this request has already been applied and its data is gone"
        ),
        _ => panic!("an applied request stays"),
    }
    assert!(requests.mask_for(&acme).hides(&app, &entry(105, "x")));
}

#[test]
fn masks_of_an_empty_registry_are_empty_after_a_withdrawal_too() {
    let (acme, globex) = (tenant("acme"), tenant("globex"));
    let app = labels(&[("app", "a")]);
    let mut requests: DeleteRequests<ExactSelector> = DeleteRequests::new();
    assert!(requests.is_empty() && requests.masks().is_empty());
    let first = ask(&mut requests, &acme, 0, 10).ok().unwrap();
    let second = ask(&mut requests, &globex, 0, 10).ok().unwrap();
    requests.cancel(&acme, &first);
    assert!(!requests.is_empty() && !requests.masks().is_empty());
    assert!(requests.mask_for(&acme).is_empty());
    assert!(!requests.masks().hides_row(&acme, &app, 5, "x"));
    assert!(requests.masks().hides_row(&globex, &app, 5, "x"));
    requests.cancel(&globex, &second);
    assert!(requests.is_empty() && requests.masks().is_empty());
    assert_eq!(requests.metrics.cancelled, 2);
}

#[test]
fn a_mask_answers_as_its_registry_did_when_it_was_taken() {
    let acme = tenant("acme");
    let app = labels(&[("app", "a")]);
    let mut requests: DeleteRequests<ExactSelector> = DeleteRequests::new();
    let secret = selector("a", Some("secret"));
    let held = requests.submit(&acme, "q", secret, 0, 10, 5).ok().unwrap();
    let id = held.request.request_id.clone();
    requests.commit(&acme, held).ok().unwrap();
    let (mask, masks) = (requests.mask_for(&acme), requests.masks());
    ask(&mut requests, &acme, 100, 110).ok().unwrap();
    requests.cancel(&acme, &id);
    requests.mark_processed(&[]);
    assert!(mask.hides(&app, &entry(5, "a secret line")));
    assert!(!mask.hides(&app, &entry(5, "a plain line")));
    assert!(!mask.hides(&app, &entry(105, "x")));
    assert!(masks.hides_row(&acme, &app, 5, "a secret line"));
    assert!(!masks.hides_row(&acme, &app, 105, "x"));
    let now = requests.mask_for(&acme);
    assert!(!now.hides(&app, &entry(5, "a secret line")));
    assert!(now.hides(&app, &entry(105, "x")));
}

#[test]
fn a_submission_is_refused_with_its_reason() {
    let acme = tenant("acme");
    let mut requests: DeleteRequests<ExactSelector> = DeleteRequests::new();
    let mut refuse = |parsed, start_ns, end_ns| {
        match requests.submit(&acme, "q", parsed, start_ns, end_ns, 5) {
            Err(DeleteRequestError::Invalid(message)) => message,
            _ => panic!("the submission is invalid"),
        }
    };
    assert_eq!(refuse(selector("a", None), 10, 10), "end must be after start");
    assert_eq!(refuse(Err("unclosed".to_string()), 0, 10), "unclosed");
    assert_eq!(
        refuse(Ok(ParsedQuery::Metric), 0, 10),
        "a delete query selects log lines, not a metric"
    );
    let with = |matchers, stages| {
        Ok(ParsedQuery::Logs {
            selector: ExactSelector { matchers: vec![], line_filters: vec![] },
            matchers,
            stages,
        })
    };
    assert_eq!(
        refuse(with(1, 1), 0, 10),
        "a delete query may use label matchers and line filters, but not pipeline stages"
    );
    assert_eq!(refuse(with(0, 0), 0, 10), "a delete query must select at least one label");
    for _ in 0..MAX_DELETE_REQUESTS_PER_TENANT {
        assert!(ask(&mut requests, &acme, 0, 10).is_ok());
    }
    assert!(matches!(ask(&mut requests, &acme, 0, 10), Err(DeleteRequestError::TooMany)));
    assert_eq!((requests.metrics.rejected, requests.metrics.accepted), (1, 100));
    assert!(ask(&mut requests, &tenant("globex"), 0, 10).is_ok());
}

#[test]
fn stored_requests_are_taken_in_again() {
    let request = || DeleteRequest {
        request_id: "r1".to_string(),
        tenant: "acme".to_string(),
        query: "{app=\"a\"} |= \"secret\"".to_string(),
        start_ns: 1_500_000_000,
        end_ns: 2_999_999_999,
        created_at_ns: 5_000_000_000,
        status: DeleteStatus::Processed,
    };
    let fields = request().to_json();
    assert_eq!((fields.start_time, fields.end_time, fields.created_at), (1, 2, 5));
    assert_eq!(fields.status, "processed");
    let mut requests: DeleteRequests<ExactSelector> = DeleteRequests::new();
    requests.load(request(), selector("a", Some("secret"))).unwrap();
    let app = labels(&[("app", "a")]);
    let mask = requests.mask_for(&tenant("acme"));
    assert!(mask.hides(&app, &entry(2_000_000_000, "a secret line")));
    assert!(!mask.hides(&app, &entry(2_000_000_000, "a plain line")));
    let mut nameless = request();
    nameless.tenant = String::new();
    assert!(requests
        .load(nameless, selector("a", None))
        .err()
        .unwrap()
        .starts_with("stored delete request r1 names an invalid tenant: "));
    assert!(requests.load(request(), Err("unclosed".to_string())).is_err());
    assert_eq!(requests.list(&tenant("acme")).len(), 1);
    let held: Held<ExactSelector> = Held {
        request: request(),
        compiled: CompiledRequest {
            start_ns: 1_500_000_000,
            end_ns: 2_999_999_999,
            selector: ExactSelector { matchers: vec![], line_filters: vec![] },
        },
    };
    assert!(requests.commit(&tenant("acme"), held).is_ok());
    assert_eq!(requests.list(&tenant("acme")).len(), 2);
}
