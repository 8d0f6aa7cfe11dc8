use loggytracy::load::closed_loop::{
    end_verdict, failed_share, latency_summary, log_query, next_random, padded_lines, push_lines,
    push_was_taken, queries_are_due, rate_query, request_head, response_body, response_status,
    EndState, StatusProblem,
};
use loggytracy::load::probe::{metric_lines, operation_counter, read_memory, Memory};
use loggytracy::load::queries::QueryShape;
use loggytracy::load::readiness::{ReadyProbe, ReadyStep, Readiness, READY_ATTEMPTS};
use loggytracy::load::report::{
    error_share, streams_share, throttled_share, PushOutcome, QueryOutcome,
};
use loggytracy::load::verdict::{
    behavioral_pass, ended_on, flush_progressing, intake_pass, is_over, numeric_pass, End, Evidence,
    SampleOutcome, Verdict,
};
use loggytracy::load::workload::PushBody;
use loggytracy::memory_gate::decision::{gate_ready_step, GATE_READY_ATTEMPTS};

// ---------------------------------------------------------------------- probe
fn gauge(body: &[u8], name: &str) -> u64 {
    let mut found = 0.0;
    for line in metric_lines(body) {
        if line.name == name {
            if let Ok(value) = line.value.parse::<f64>() {
                found = value;
            }
        }
    }
    found as u64
}

#[test]
fn keeps_the_label_set_in_the_series_name() {
    let body = b"# TYPE x counter\nloggytracy_object_store_operations_total{kind=\"put\"} 12\n\
loggytracy_wal_backlog_bytes 4096\n";
    assert_eq!(gauge(body, "loggytracy_wal_backlog_bytes"), 4096);
    assert_eq!(gauge(body, &operation_counter("put")), 12);
    assert_eq!(metric_lines(body).len(), 2);
    assert!(metric_lines(b"\xff 1").is_empty());
    let odd = metric_lines(b"  a\t1 2 \n\nlonely\r\n#b 2\nc 3");
    let pairs: Vec<(&str, &str)> =
        odd.iter().map(|line| (line.name.as_str(), line.value.as_str())).collect();
    assert_eq!(pairs, vec![("a", "1"), ("c", "3")]);
}

#[test]
fn a_status_without_a_size_is_an_error_not_a_zero() {
    let status = "Name:\tx\nVmHWM:\t  2048 kB\nVmRSS:\t 1024 kB\nVmRSS: 1 kB\n";
    let memory = read_memory(7, status).unwrap();
    assert_eq!(memory, Memory { vm_rss_bytes: 1 << 20, vm_hwm_bytes: 2 << 20 });
    assert_eq!(read_memory(7, "").err().unwrap(), "/proc/7/status has no VmRSS");
    assert_eq!(read_memory(7, "VmRSS: 1 kB").err().unwrap(), "/proc/7/status has no VmHWM");
    assert!(read_memory(7, "VmRSS: 99999999999999999999 kB\nVmHWM: 1 kB").is_err());
    assert!(read_memory(7, "VmRSS: 18446744073709551615 kB\nVmHWM: 1 kB").is_err());
    assert_eq!(read_memory(7, "VmRSS:3kBkB\nVmHWM:4").unwrap().vm_rss_bytes, 3072);
}

// -------------------------------------------------------------------- outcomes
fn push(entries: usize, lateness: u64) -> PushBody {
    PushBody {
        bytes: vec![0; 10],
        tenant: "t".to_string(),
        entries,
        line_bytes: 100,
        encoded_bytes: 30,
        streams: 2,
        out_of_order_entries: 1,
        max_lateness_ms: lateness,
    }
}

#[test]
fn a_refused_push_is_neither_work_nor_failure() {
    let mut outcome = PushOutcome::new();
    let body = push(5, 40);
    for (status, steady) in [(204, true), (204, false), (429, true), (429, false), (500, true)] {
        outcome.offer(&body);
        outcome.answered(&body, status, 2, 3, steady, &"é".repeat(300));
    }
    outcome.offer(&push(5, 9));
    outcome.failed("reset".to_string());
    let counts = outcome.counts;
    assert_eq!((counts.accepted, counts.throttled, counts.errors), (2, 2, 2));
    assert_eq!((counts.events_offered, counts.events_accepted), (30, 10));
    assert_eq!((counts.wire_bytes, counts.line_bytes, counts.encoded_bytes), (20, 200, 60));
    assert_eq!((counts.max_lateness_ms, counts.out_of_order_entries), (40, 6));
    assert_eq!(counts.streams_sent, 12);
    assert_eq!(outcome.steady.response.samples, vec![5]);
    assert_eq!(outcome.warmup.service.samples, vec![3]);
    assert_eq!(outcome.throttled_latency.queueing.samples, vec![2]);
    assert_eq!(outcome.first_error, Some(format!("500: {}", "é".repeat(200))));
    let mut other = PushOutcome::new();
    other.offer(&push(1, 99));
    other.failed("later".to_string());
    outcome.merge(&other);
    assert_eq!((outcome.counts.errors, outcome.counts.max_lateness_ms), (3, 99));
    assert_eq!(outcome.statuses.counts, vec![(204, 2), (429, 2), (500, 1)]);
    assert!(outcome.first_error.unwrap().starts_with("500: "));
}

#[test]
fn a_restore_probe_counts_its_rows_apart() {
    let mut outcome = QueryOutcome::new();
    outcome.issue(QueryShape::RestoreProbe);
    outcome.answered(QueryShape::RestoreProbe, "{}", 200, 0, 1, 1, true, "");
    outcome.issue(QueryShape::RestoreProbe);
    outcome.answered(QueryShape::RestoreProbe, "{}", 200, 4, 1, 2, true, "");
    outcome.issue(QueryShape::Rate);
    outcome.answered(QueryShape::Rate, "{}", 200, 3, 1, 3, false, "");
    outcome.issue(QueryShape::Rate);
    outcome.answered(QueryShape::Rate, "{}", 429, 0, 1, 3, true, "");
    outcome.issue(QueryShape::Rate);
    outcome.answered(QueryShape::Rate, "rate(x)", 400, 0, 1, 3, true, "parse error");
    let counts = outcome.counts;
    assert_eq!((counts.answered, counts.throttled, counts.errors), (3, 1, 1));
    assert_eq!((counts.restore_probes, counts.restore_probes_with_rows), (2, 1));
    assert_eq!((counts.restore_rows, counts.rows_returned), (4, 7));
    assert_eq!(outcome.issued, vec![0, 0, 0, 3, 2]);
    assert_eq!(outcome.per_shape[4].service.samples, vec![1, 2]);
    assert!(outcome.per_shape[3].service.samples.is_empty());
    assert_eq!(outcome.steady.service.samples, vec![1, 2]);
    assert_eq!(outcome.first_error.as_deref(), Some("400 on rate(x): parse error"));
    let mut other = QueryOutcome::new();
    other.issue(QueryShape::Rate);
    other.failed("gone".to_string());
    other.merge(&outcome);
    assert_eq!(other.issued, vec![0, 0, 0, 4, 2]);
    assert_eq!((other.counts.errors, other.counts.answered), (2, 3));
    assert_eq!(other.first_error.as_deref(), Some("gone"));
    assert_eq!(other.per_shape[4].service.samples, vec![1, 2]);
}

// --------------------------------------------------------------------- samples
#[test]
fn the_highest_reading_is_kept_and_the_first_failure() {
    let mut samples = SampleOutcome::new();
    let memory = |rss, hwm| Memory { vm_rss_bytes: rss, vm_hwm_bytes: hwm };
    samples.note_memory(1, &memory(10, 20), Some(7), Some(1));
    samples.note_memory(2, &memory(12, 15), None, None);
    assert_eq!(samples.rss.samples, vec![(1, 10), (2, 12)]);
    assert_eq!(samples.anon.samples, vec![(1, 7)]);
    assert_eq!((samples.vm_hwm_bytes, samples.anon_peak_bytes), (Some(20), Some(7)));
    assert_eq!(samples.file_bytes_end, None);
    samples.note_last_memory(&memory(1, 25), Some(9), Some(3));
    samples.note_last_memory(&memory(1, 2), None, None);
    assert_eq!((samples.vm_hwm_bytes, samples.anon_peak_bytes), (Some(25), Some(9)));
    assert_eq!(samples.file_bytes_end, Some(3));
    assert_eq!(samples.rss.samples.len(), 2);
    samples.note_memory_error("first".to_string());
    samples.note_memory_error("second".to_string());
    assert_eq!(samples.rss_error.as_deref(), Some("first"));
    samples.note_gauges(3, 5, 6);
    samples.note_backlog(3, 8, Some(true));
    samples.note_backlog(4, 9, Some(false));
    samples.note_backlog(5, 9, None);
    samples.note_scrape_error();
    assert_eq!((samples.health_samples, samples.health_healthy), (2, 1));
    assert_eq!(samples.wal_backlog.samples, vec![(3, 8), (4, 9), (5, 9)]);
    assert_eq!(samples.memtable_bytes.samples, vec![(3, 5)]);
    assert_eq!(samples.part_count.samples, vec![(3, 6)]);
    assert_eq!(samples.scrape_errors, 1);
}

// --------------------------------------------------------------------- verdict
fn healthy() -> Evidence {
    Evidence {
        ingest_errors: 0,
        health_samples: 20,
        health_healthy: 19,
        cache_healthy: true,
        flush_success: 5,
        flush_errors: 5,
        drained: true,
    }
}

#[test]
fn a_server_behaves_when_every_condition_holds() {
    assert!(behavioral_pass(&healthy()));
    assert!(flush_progressing(&healthy()));
    assert!(!behavioral_pass(&Evidence { health_healthy: 18, ..healthy() }));
    assert!(!behavioral_pass(&Evidence { health_samples: 0, health_healthy: 0, ..healthy() }));
    assert!(!behavioral_pass(&Evidence { ingest_errors: 1, ..healthy() }));
    assert!(!behavioral_pass(&Evidence { cache_healthy: false, ..healthy() }));
    assert!(!behavioral_pass(&Evidence { flush_errors: 6, ..healthy() }));
    assert!(!behavioral_pass(&Evidence { flush_success: 0, flush_errors: 0, ..healthy() }));
    assert!(!behavioral_pass(&Evidence { drained: false, ..healthy() }));
    for samples in 1..400u64 {
        for healthy_samples in 0..=samples {
            let evidence =
                Evidence { health_samples: samples, health_healthy: healthy_samples, ..healthy() };
            let fraction = healthy_samples as f64 / samples as f64;
            assert_eq!(behavioral_pass(&evidence), fraction >= 0.95);
        }
    }
    assert!(intake_pass(1, 0));
    assert!(!intake_pass(0, 0));
    assert!(!intake_pass(1, 1));
}

#[test]
fn a_missing_measurement_does_not_pass() {
    assert!(numeric_pass(&[Some(true), Some(true)]));
    assert!(!numeric_pass(&[Some(true), None]));
    assert!(!numeric_pass(&[Some(false)]));
    assert_eq!(Verdict::of(true, numeric_pass(&[None])), Verdict::PassBehavioralOnly);
    assert_eq!(Verdict::of(true, true).name(), "PASS");
    assert_eq!(Verdict::of(true, false).name(), "PASS_BEHAVIORAL_ONLY");
    assert_eq!(Verdict::of(false, true).name(), "FAIL");
    assert_eq!(Verdict::of(true, true).exit_code(), 0);
    assert_eq!(Verdict::of(true, false).exit_code(), 2);
}

#[test]
fn a_run_ends_on_time_or_on_work() {
    assert!(is_over(true, 0, 0));
    assert!(is_over(false, 10, 10));
    assert!(!is_over(false, 10, 9));
    assert!(!is_over(false, 0, 100));
    assert_eq!(ended_on(10, 10), End::EventTarget);
    assert_eq!(ended_on(0, 10), End::DurationCap);
    assert_eq!(End::EventTarget.name(), "event_target");
    assert_eq!(End::DurationCap.name(), "duration_cap");
}

// ----------------------------------------------------------------- closed loop
#[test]
fn the_closed_loop_tells_its_pushes_apart() {
    let mut value = 0x5eed_2026u64;
    let mut expected = value;
    for _ in 0..50 {
        expected = expected.wrapping_mul(6364136223846793005).wrapping_add(1);
        assert_eq!(next_random(&mut value), expected);
        assert_eq!(value, expected);
    }
    assert_eq!(
        push_lines("m5-load", 2, 40),
        vec!["m5-load event=40 offset=0", "m5-load event=41 offset=1"]
    );
    let lines = padded_lines("m7-load", 1, 40, 9);
    assert_eq!(lines[0].len(), 40);
    assert!(lines[0].starts_with("m7-load event=9 offset=0 xxx"));
    assert_eq!(padded_lines("m7-load", 1, 5, 9)[0], "m7-load event=9 offset=0 ");
    assert!(!queries_are_due(0, 10));
    assert!(queries_are_due(20, 10));
    assert!(!queries_are_due(21, 10));
}

#[test]
fn the_closed_loop_speaks_plain_http() {
    assert_eq!(
        request_head("h:1", "POST", "/p", 3, "text/plain"),
        "POST /p HTTP/1.1\r\nHost: h:1\r\nContent-Type: text/plain\r\nContent-Length: 3\r\nConnection: close\r\n\r\n"
    );
    assert_eq!(
        request_head("h:1", "GET", "/p", 0, ""),
        "GET /p HTTP/1.1\r\nHost: h:1\r\nContent-Length: 0\r\nConnection: close\r\n\r\n"
    );
    assert!(matches!(response_status("HTTP/1.1 204 No Content\r\n\r\n"), Ok(204)));
    assert!(matches!(response_status("HTTP/1.1"), Err(StatusProblem::Missing)));
    match response_status("HTTP/1.1 abc") {
        Err(StatusProblem::Unreadable(word)) => assert_eq!(word, "abc"),
        _ => panic!("not a number"),
    }
    assert_eq!(response_body("head\r\n\r\nbody\r\n\r\n").as_deref(), Some("body\r\n\r\n"));
    assert_eq!(response_body("head\r\nbody"), None);
    assert!(push_was_taken("HTTP/1.1 204 No Content"));
    assert!(!push_was_taken("HTTP/1.1 400 Bad Request"));
    assert_eq!(
        log_query("m5-load", 1, 61, "10", "backward"),
        "/loki/api/v1/query_range?query=%7Bapp%3D%22m5-load%22%7D&start=1&end=61&step=10&limit=100&direction=backward"
    );
    assert_eq!(
        rate_query("m5-load", 1, 61),
        "/loki/api/v1/query_range?query=rate(%7Bapp%3D%22m5-load%22%7D%5B1m%5D)&start=1&end=61&step=10"
    );
}

#[test]
fn the_closed_loop_sums_up_its_latencies() {
    let empty = latency_summary(&vec![]);
    assert_eq!((empty.count, empty.p50, empty.p95, empty.p99), (0, 0, 0, 0));
    let samples: Vec<u64> = (0..100).rev().collect();
    let summary = latency_summary(&samples);
    assert_eq!((summary.count, summary.p50, summary.p95, summary.p99), (100, 50, 95, 99));
    assert_eq!(latency_summary(&vec![7]).p99, 7);
}

#[test]
fn the_closed_loop_is_judged_by_how_the_server_ends() {
    let well = EndState {
        ingest_errors: 0,
        remote_healthy: true,
        cache_healthy: true,
        flush_success: 2,
        flush_errors: 2,
        wal_backlog_bytes: 10,
        wal_backlog_max_bytes: 10,
    };
    assert_eq!(end_verdict(&well, true), Verdict::Pass);
    assert_eq!(end_verdict(&well, false), Verdict::PassBehavioralOnly);
    for broken in [
        EndState { ingest_errors: 1, ..well },
        EndState { remote_healthy: false, ..well },
        EndState { cache_healthy: false, ..well },
        EndState { flush_success: 0, flush_errors: 0, ..well },
        EndState { flush_errors: 3, ..well },
        EndState { wal_backlog_bytes: 11, ..well },
    ] {
        assert_eq!(end_verdict(&broken, true), Verdict::Fail);
    }
}

#[test]
fn a_rate_is_made_of_the_pushes_it_is_about() {
    let mut counts = PushOutcome::new().counts;
    assert_eq!(error_share(&counts), (0, 0));
    counts.accepted = 90;
    counts.errors = 10;
    counts.throttled = 300;
    counts.streams_sent = 800;
    assert_eq!(error_share(&counts), (10, 100), "what was throttled is no work done");
    assert_eq!(throttled_share(&counts), (300, 400));
    assert_eq!(streams_share(&counts), (800, 400));
    assert_eq!(failed_share(90, 10), (10, 100));
}

#[test]
fn readiness_is_asked_for_until_it_is_there_or_given_up() {
    let failed = || ReadyProbe::Failed("connection refused".to_string());
    let mut wait = Readiness::new(READY_ATTEMPTS);
    assert_eq!(wait.left, 60);
    assert!(wait.over().is_none());
    for _ in 0..59 {
        assert!(matches!(wait.answered(failed()), ReadyStep::TryAgain));
    }
    match wait.answered(ReadyProbe::Status(503)) {
        ReadyStep::GiveUp(reason) => assert_eq!(reason, "/ready answered 503"),
        _ => panic!("no attempt is left"),
    }
    assert_eq!(wait.over().as_deref(), Some("/ready answered 503"));
    assert_eq!(Readiness::new(0).over().as_deref(), Some("no attempt made"));
    assert!(matches!(Readiness::new(1).answered(ReadyProbe::Status(200)), ReadyStep::Ready));

    let gave_up = |attempts, probe, exited| {
        match gate_ready_step(&mut Readiness::new(attempts), probe, exited) {
            ReadyStep::GiveUp(reason) => reason,
            _ => panic!("waiting goes on"),
        }
    };
    assert_eq!(GATE_READY_ATTEMPTS, 180);
    assert_eq!(gave_up(1, failed(), None), "the server never became ready: connection refused");
    assert_eq!(
        gave_up(9, failed(), Some("exit status: 1")),
        "the server exited (exit status: 1) before it was ready"
    );
    let mut wait = Readiness::new(2);
    assert!(matches!(gate_ready_step(&mut wait, failed(), None), ReadyStep::TryAgain));
    let ready = gate_ready_step(&mut wait, ReadyProbe::Status(200), Some("exit status: 0"));
    assert!(matches!(ready, ReadyStep::Ready));
}
