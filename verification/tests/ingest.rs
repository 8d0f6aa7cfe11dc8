use loggytracy::config::Config;
use loggytracy::ingest::{
    accept_streams, check_declared, check_entries, check_serving, into_streams, open_body,
    read_push, validate_labels, Body, IngestError, JsonEntry, JsonStream, PushLimits,
    TimestampWindow, BAD_REQUEST, PAYLOAD_TOO_LARGE, SERVICE_UNAVAILABLE,
};
use loggytracy::log_ingest::{check_export, check_streams, record_count, GrpcCode};
use loggytracy::model::{Labels, LogEntry};
use loggytracy::push::{PushedEntry, PushedStream};
use loggytracy::time::Duration;

const NOW_NS: i64 = 1_800_000_000_000_000_000;

fn limits() -> PushLimits {
    PushLimits {
        max_push_bytes: 4 << 20,
        max_decompressed_push_bytes: 16 << 20,
        max_label_names_per_stream: 30,
        max_label_name_bytes: 1024,
        max_label_value_bytes: 2048,
        max_line_bytes: 256 << 10,
    }
}

fn labels(pairs: &[(&str, &str)]) -> Labels {
    let mut labels = Labels::new();
    for (name, value) in pairs {
        labels.insert(name.to_string(), value.to_string());
    }
    labels
}

/// What a timestamp in seconds reads as in nanoseconds.
fn pushed(line: &str, seconds: i64) -> PushedEntry {
    PushedEntry {
        timestamp_ns: seconds
            .checked_mul(1_000_000_000)
            .ok_or_else(|| format!("{seconds} seconds is out of range")),
        line: line.to_string(),
        structured_metadata: vec![],
    }
}

fn stream(labels_list: &[(&str, &str)], entries: Vec<PushedEntry>) -> PushedStream {
    PushedStream {
        labels_text: String::new(),
        labels: Ok(labels(labels_list)),
        entries,
    }
}

fn window(config: &Config) -> TimestampWindow {
    TimestampWindow::from_config(config, NOW_NS)
}

fn read(
    streams: Vec<PushedStream>,
    limits: &PushLimits,
) -> Result<Vec<(Labels, Vec<LogEntry>)>, IngestError> {
    let admitted: Vec<Option<IngestError>> = streams.iter().map(|_| None).collect();
    read_push(&streams, &admitted, limits, &window(&Config::default()))
}

fn refused(streams: Vec<PushedStream>, limits: &PushLimits) -> IngestError {
    read(streams, limits).err().expect("the push must be refused")
}

const NOW_SECS: i64 = NOW_NS / 1_000_000_000;

// --------------------------------------------------------------------- refusals
#[test]
fn push_rejects_timestamp_outside_i64_nanosecond_range() {
    let error = refused(
        vec![stream(&[("app", "bad-time")], vec![pushed("must be rejected", 9_223_372_037)])],
        &limits(),
    );
    assert_eq!(error.status, BAD_REQUEST);
    assert!(error.message.starts_with("invalid entry timestamp: "), "{}", error.message);
}

#[test]
fn push_rejects_a_snappy_header_declaring_more_than_the_limit() {
    let limits = PushLimits { max_decompressed_push_bytes: 1024, ..limits() };
    let body = vec![0x80, 0x80, 0x80, 0x80, 0x01];
    let error = open_body("application/x-protobuf", &body, &limits)
        .err()
        .expect("an oversized declared length must be rejected");
    assert_eq!(error.status, PAYLOAD_TOO_LARGE);
    assert!(error.message.contains("decompressed bytes"), "{}", error.message);
    assert_eq!(
        error.message,
        "push declares 268435456 decompressed bytes, exceeding the maximum of 1024"
    );
}

#[test]
fn push_rejects_a_body_over_the_configured_limit() {
    let limits =
        PushLimits { max_push_bytes: 32, max_decompressed_push_bytes: 64, ..limits() };
    let body = snap::raw::Encoder::new().compress_vec(&[7; 4096]).unwrap();
    let error = open_body("application/x-protobuf", &body, &limits)
        .err()
        .expect("an oversized body must be rejected");
    assert_eq!(error.status, PAYLOAD_TOO_LARGE);
    assert!(error.message.ends_with(" bytes, exceeding the maximum of 32"), "{}", error.message);
}

#[test]
fn push_rejects_a_line_over_the_configured_limit() {
    let limits = PushLimits { max_line_bytes: 16, ..limits() };
    let error = refused(
        vec![stream(&[("app", "line-limit")], vec![pushed(&"x".repeat(64), NOW_SECS)])],
        &limits,
    );
    assert_eq!(error.status, BAD_REQUEST);
    assert_eq!(error.message, "log line is 64 bytes, exceeding the maximum of 16");
}

#[test]
fn push_rejects_too_many_labels() {
    let limits = PushLimits { max_label_names_per_stream: 2, ..limits() };
    let error = refused(
        vec![stream(
            &[("a", "1"), ("b", "2"), ("c", "3")],
            vec![pushed("too many labels", NOW_SECS)],
        )],
        &limits,
    );
    assert_eq!(error.status, BAD_REQUEST);
    assert!(error.message.contains("3 labels"), "{}", error.message);
}

#[test]
fn push_rejects_timestamps_outside_the_accepted_window() {
    let config = Config {
        max_timestamp_age: Some(Duration::from_secs(3600)),
        max_timestamp_skew: Some(Duration::from_secs(3600)),
        ..Config::default()
    };
    let refuse = |seconds: i64| {
        let streams = vec![stream(&[("app", "skew")], vec![pushed("line", seconds)])];
        read_push(&streams, &[None], &limits(), &window(&config))
            .err()
            .expect("a timestamp outside the window must be rejected")
    };
    let ancient = refuse(NOW_SECS - 86_400);
    assert_eq!(ancient.status, BAD_REQUEST);
    assert!(ancient.message.contains("older than"), "{}", ancient.message);
    let future = refuse(NOW_SECS + 86_400);
    assert_eq!(future.status, BAD_REQUEST);
    assert!(future.message.contains("future"), "{}", future.message);
}

#[test]
fn the_timestamp_window_accepts_its_edge_and_rejects_one_nanosecond_past_it() {
    let age = Duration::from_secs(3600);
    let config = Config {
        max_timestamp_age: Some(age),
        max_timestamp_skew: Some(age),
        ..Config::default()
    };
    let window = TimestampWindow::from_config(&config, NOW_NS);
    let oldest = NOW_NS - age.as_nanos() as i64;
    let newest = NOW_NS + age.as_nanos() as i64;
    assert!(window.validate(oldest).is_ok(), "the oldest edge is inside");
    assert!(window.validate(newest).is_ok(), "the newest edge is inside");
    assert!(window.validate(oldest - 1).is_err(), "one nanosecond older must be refused");
    assert!(window.validate(newest + 1).is_err(), "one nanosecond newer must be refused");

    let later = TimestampWindow::from_config(&config, NOW_NS + 7_200_000_000_000);
    assert!(
        later.validate(oldest).is_err(),
        "what was the edge two hours ago is now outside"
    );
    assert!(later.validate(newest + 1).is_ok());
}

#[test]
fn push_accepts_old_timestamps_when_the_window_is_disabled() {
    let config =
        Config { max_timestamp_age: None, max_timestamp_skew: None, ..Config::default() };
    let streams = vec![stream(&[("app", "backfill")], vec![pushed("historical", 1_000_000)])];
    let parsed = read_push(&streams, &[None], &limits(), &window(&config))
        .ok()
        .expect("a disabled window must accept any in-range timestamp");
    assert_eq!(parsed[0].1[0].timestamp_ns, 1_000_000_000_000_000);
    assert!(window(&config).validate(i64::MIN).is_ok());
    assert!(window(&config).validate(i64::MAX).is_ok());
    let edge = TimestampWindow::from_config(
        &Config { max_timestamp_age: Some(Duration::from_nanos(u64::MAX)), ..Config::default() },
        i64::MIN,
    );
    assert_eq!(edge.oldest_ns, Some(i64::MIN));
}

fn json_stream(name: &str, values: &[(&str, &str, &[(&str, &str)])]) -> JsonStream {
    JsonStream {
        labels: labels(&[(name, "json")]),
        bad_name: None,
        values: values
            .iter()
            .map(|(timestamp, line, metadata)| JsonEntry {
                timestamp: timestamp.to_string(),
                line: line.to_string(),
                metadata: metadata
                    .iter()
                    .map(|(name, value)| (name.to_string(), value.to_string()))
                    .collect(),
            })
            .collect(),
    }
}

#[test]
fn a_json_push_lands_in_the_same_place_a_protobuf_one_does() {
    let now = NOW_NS.to_string();
    assert!(matches!(
        open_body("application/json; charset=utf-8", b"{}", &limits()),
        Ok(Body::Json)
    ));
    let streams = into_streams(&[json_stream(
        "app",
        &[(&now, "from json", &[]), (&now, "with metadata", &[("trace_id", "abc")])],
    )])
    .ok()
    .unwrap();
    let accepted =
        accept_streams(&streams, &[None], &limits(), &window(&Config::default()));
    assert!(accepted.is_ok());
    assert_eq!(streams[0].0.get("app").unwrap(), "json");
    let lines: Vec<&str> = streams[0].1.iter().map(|entry| entry.line.as_str()).collect();
    assert_eq!(lines, vec!["from json", "with metadata"]);
    assert_eq!(
        streams[0].1[1].structured_metadata,
        vec![("trace_id".to_string(), "abc".to_string())],
        "the optional third element is structured metadata"
    );
    let by_protobuf = read(
        vec![stream(&[("app", "json")], vec![pushed("from json", NOW_SECS)])],
        &limits(),
    )
    .ok()
    .unwrap();
    assert!(by_protobuf[0].0.same(&streams[0].0));
    assert_eq!(by_protobuf[0].1[0].timestamp_ns, streams[0].1[0].timestamp_ns);
    assert_eq!(by_protobuf[0].1[0].line, streams[0].1[0].line);
}

#[test]
fn a_json_push_answers_to_the_same_limits() {
    let limits = PushLimits { max_line_bytes: 8, ..limits() };
    let now = NOW_NS.to_string();
    let streams =
        into_streams(&[json_stream("app", &[(&now, "far too long a line", &[])])]).ok().unwrap();
    let refused = accept_streams(&streams, &[None], &limits, &window(&Config::default()))
        .err()
        .expect("an oversized line is refused");
    assert_eq!(refused.status, BAD_REQUEST);

    let mut reserved = json_stream("_msg", &[(&now, "short", &[])]);
    reserved.bad_name = Some("label name '_msg' is reserved".to_string());
    assert_eq!(into_streams(&[reserved]).err().unwrap(), "label name '_msg' is reserved");

    let malformed = json_stream("app", &[("not-a-timestamp", "x", &[])]);
    assert_eq!(
        into_streams(&[malformed]).err().unwrap(),
        "entry timestamp \"not-a-timestamp\" is not a nanosecond count"
    );
}

// ------------------------------------------------------------------------ rules
#[test]
fn a_push_is_refused_at_its_first_problem() {
    let limits = PushLimits { max_line_bytes: 8, max_label_value_bytes: 4, ..limits() };
    let quota = || IngestError { status: 429, message: "over the rate".to_string() };
    let good = || stream(&[("app", "a")], vec![pushed("fine", NOW_SECS)]);
    let long = || stream(&[("app", "a")], vec![pushed("far too long", NOW_SECS)]);
    let window = window(&Config::default());
    let error = read_push(&[good(), long()], &[Some(quota()), None], &limits, &window).err().unwrap();
    assert_eq!(error.status, 429);
    let error = read_push(&[long(), good()], &[None, Some(quota())], &limits, &window).err().unwrap();
    assert_eq!(error.status, BAD_REQUEST);
    let wide = stream(&[("app", "abcde")], vec![]);
    let error = read_push(&[wide], &[None], &limits, &window).err().unwrap();
    assert_eq!(error.message, "value of label 'app' is 5 bytes, exceeding the maximum of 4");
    let mut unparsed = good();
    unparsed.labels = Err("unclosed".to_string());
    assert!(read_push(&[unparsed], &[None], &limits, &window).is_err());
    assert!(validate_labels(&labels(&[("app", "abcd")]), &limits).is_ok());
    let narrow = PushLimits { max_label_name_bytes: 2, ..limits };
    assert_eq!(
        validate_labels(&labels(&[("app", "a")]), &narrow).err().unwrap(),
        "label name is 3 bytes, exceeding the maximum of 2"
    );
    let entry = |line: &str| LogEntry {
        timestamp_ns: NOW_NS,
        line: line.to_string(),
        structured_metadata: vec![],
    };
    assert!(check_entries(&[entry("short")], &narrow, &window).is_ok());
    assert!(check_entries(&[entry("short"), entry("much longer")], &narrow, &window).is_err());
}

#[test]
fn an_instance_that_shuts_down_takes_nothing() {
    assert!(check_serving(false, false).is_ok());
    let fenced = check_serving(true, true).err().unwrap();
    assert_eq!(fenced.status, SERVICE_UNAVAILABLE);
    assert!(fenced.message.contains("fenced"));
    assert!(check_serving(false, true).err().unwrap().message.contains("draining"));
    let refused = loggytracy::log_ingest::check_serving(false, true).err().unwrap();
    assert!(refused.code == GrpcCode::Unavailable);
}

#[test]
fn a_body_is_opened_before_it_is_decoded() {
    let message = b"some protobuf, some protobuf, some protobuf".to_vec();
    let body = snap::raw::Encoder::new().compress_vec(&message).unwrap();
    assert_ne!(body, message);
    match open_body("application/x-protobuf", &body, &limits()) {
        Ok(Body::Protobuf(bytes)) => assert_eq!(bytes, message),
        _ => panic!("a snappy body opens"),
    }
    let error = open_body("", b"", &limits()).err().unwrap();
    assert_eq!(error.status, BAD_REQUEST);
    let error = open_body("", &[5, 0xff, 0xff], &limits()).err().unwrap();
    assert_eq!(error.status, BAD_REQUEST);
    let error = check_declared(Err("cut".to_string()), &limits()).err().unwrap();
    assert_eq!((error.status, error.message.as_str()), (BAD_REQUEST, "invalid snappy header: cut"));
    assert_eq!(check_declared(Ok(9), &limits()).ok(), Some(9));
}

#[test]
fn an_export_is_bounded_in_bytes_and_records() {
    assert!(check_export(16 << 20, &[50_000, 50_000]).is_ok());
    let error = check_export((16 << 20) + 1, &[]).err().unwrap();
    assert_eq!(error.message, "OTLP request exceeds the maximum of 16777216 bytes");
    let error = check_export(0, &[100_000, 1]).err().unwrap();
    assert!(error.code == GrpcCode::ResourceExhausted);
    assert_eq!(error.message, "OTLP request contains more than 100000 log records");
    let error = check_export(0, &[usize::MAX, 1]).err().unwrap();
    assert_eq!(error.message, "OTLP log record count overflow");
    assert_eq!(record_count(&[1, 2, 3]), Some(6));
    assert_eq!(record_count(&[usize::MAX, 1]), None);

    let entry = LogEntry {
        timestamp_ns: NOW_NS,
        line: "hello".to_string(),
        structured_metadata: vec![],
    };
    let streams = vec![(labels(&[("service_name", "api")]), vec![entry])];
    let window = window(&Config::default());
    assert!(check_streams(&streams, &limits(), &window).is_ok());
    let narrow = PushLimits { max_line_bytes: 4, ..limits() };
    let error = check_streams(&streams, &narrow, &window).err().unwrap();
    assert!(error.code == GrpcCode::InvalidArgument);
    assert_eq!(error.message, "log line is 5 bytes, exceeding the maximum of 4");
}
