use std::collections::BTreeSet;

use loggytracy::corpus::{
    generate, is_generable, labels_for_stream, push_batches, timestamp_text, CorpusSpec, Shape,
};
use loggytracy::rng::Rng;

#[test]
fn the_generator_is_splitmix() {
    // The state is seeded as `seed * GAMMA ^ SALT`, then splitmix64 runs on it.
    let mut state = 7u64.wrapping_mul(0x9e37_79b9_7f4a_7c15) ^ 0x2545_f491_4f6c_dd1d;
    let mut rng = Rng::new(7);
    for _ in 0..100 {
        state = state.wrapping_add(0x9e37_79b9_7f4a_7c15);
        let mut z = state;
        z = (z ^ (z >> 30)).wrapping_mul(0xbf58_476d_1ce4_e5b9);
        z = (z ^ (z >> 27)).wrapping_mul(0x94d0_49bb_1331_11eb);
        assert_eq!(rng.next_u64(), z ^ (z >> 31));
    }
    let mut empty = Rng::new(1);
    assert_eq!(empty.below(0), 0);
    assert_eq!(empty.next_u64(), Rng::new(1).next_u64());
    assert_eq!(Rng::new(3).hex(12).len(), 12);
    assert!(Rng::new(3).unit() < 1 << 53);
}

#[test]
fn streams_have_distinct_labels_however_many_there_are() {
    for labels in [0usize, 1, 2, 5, 9, 10, 64] {
        let mut seen = BTreeSet::new();
        for stream in 0..5000usize {
            let set = labels_for_stream(stream, labels);
            let mut text = String::new();
            for i in 0..set.len() {
                let pair = set.pair(i);
                text.push_str(&format!("{}={};", pair.0, pair.1));
            }
            assert!(seen.insert(text), "{} {}", labels, stream);
        }
    }
}

#[test]
fn label_values_read_like_what_they_name() {
    let first = labels_for_stream(0, 10);
    assert_eq!(first.get("app").unwrap(), "api-gateway");
    assert_eq!(first.get("instance").unwrap(), "10.4.0.0");
    assert_eq!(first.get("pod").unwrap(), "pod-0000");
    assert!(first.get("missing").is_none());
    let only_app = labels_for_stream(21, 1);
    assert_eq!(only_app.len(), 1);
    assert_eq!(only_app.get("app").unwrap(), "notifier-2");
    let two = labels_for_stream(8 * 4 + 3, 2);
    assert_eq!(two.get("app").unwrap(), "ingest");
    assert_eq!(two.get("env").unwrap(), "staging-1");
    let deep = labels_for_stream(8 * 3 * 2 * 6 * 4 * 3 * 5 * 4 * 16 * 70_000, 10);
    assert_eq!(deep.get("pod").unwrap(), "pod-11170");
}

#[test]
fn a_corpus_has_its_rows_in_its_streams() {
    let spec = CorpusSpec::default().rows(1003).streams(10).tenants(3).tenant_prefix("t");
    let corpus = generate(&spec);
    assert_eq!(corpus.entry_count(), 1003);
    assert_eq!(corpus.streams.len(), 10);
    assert_eq!(corpus.tenant_ids.len(), 3);
    assert_eq!(corpus.tenant().as_str(), "t-000");
    assert_eq!(corpus.streams[4].tenant.as_str(), "t-001");
    assert_eq!(corpus.streams[2].entries.len(), 101);
    assert_eq!(corpus.streams[3].entries.len(), 100);
    assert_eq!(corpus.streams[2].entries[1].timestamp_ns, 1_772_000_000_000_000_000 + 12_000_000);
    assert_eq!(corpus.min_ts_ns(), 1_772_000_000_000_000_000);
    assert_eq!(corpus.max_ts_ns(), 1_772_000_000_000_000_000 + 1002 * 1_000_000);
    assert_eq!(corpus.label_value("env"), "prod");
    assert_eq!(corpus.label_value("pod"), "");
    assert_eq!(corpus.label_names, vec!["app", "cluster", "container", "env", "namespace"]);
    let bytes: usize = corpus.lines().iter().map(|line| line.len()).sum();
    assert_eq!(corpus.line_bytes(), bytes as u64);
    assert_eq!(corpus.rows().len(), 1003);
    assert_eq!(corpus.rows()[101].entry.line, corpus.streams[1].entries[0].line);
    assert_eq!(corpus.labelled_entries().len(), 1003);
    assert_eq!(corpus.entries()[0].line, corpus.streams[0].entries[0].line);
    let batches = push_batches(&corpus);
    assert_eq!(batches.len(), 10);
    assert_eq!(batches[9].1.len(), 100);
    let snapshot = corpus.snapshot();
    assert_eq!(snapshot.tenants.len(), 3);
    assert_eq!(snapshot.tenants[0].streams.len(), 4);
    assert_eq!(snapshot.tenants[0].streams[1].entries.len(), 100);
    assert!(corpus.distinct_label_bytes() > 0);
}

#[test]
fn the_same_spec_gives_the_same_corpus() {
    let one = generate(&CorpusSpec::default().rows(300).seed(9));
    let two = generate(&CorpusSpec::default().rows(300).seed(9));
    let other = generate(&CorpusSpec::default().rows(300).seed(10));
    assert_eq!(one.lines(), two.lines());
    assert_ne!(one.lines(), other.lines());
}

#[test]
fn lines_have_the_shape_asked_for() {
    for (shape, start, end) in [
        (Shape::Plain, "[2026-02-25T06:13:20.000000Z] ", ""),
        (Shape::Json, "{\"ts\":\"2026-02-25T06:13:20.000000Z\",\"level\":\"", "\"}"),
        (Shape::Logfmt, "ts=2026-02-25T06:13:20.000000Z level=", "\""),
    ] {
        let corpus = generate(&CorpusSpec::default().rows(4).streams(1).only(shape));
        let line = corpus.lines()[0].to_string();
        assert!(line.starts_with(start), "{}", line);
        assert!(line.ends_with(end), "{}", line);
    }
}

#[test]
fn metadata_pairs_are_named_by_their_place() {
    let corpus = generate(&CorpusSpec::default().rows(1).metadata_pairs(5));
    let names: Vec<&str> = corpus.streams[0].entries[0]
        .structured_metadata
        .iter()
        .map(|(name, _)| name.as_str())
        .collect();
    assert_eq!(names, vec!["trace_id", "pod_ip", "container_id", "attr_3", "attr_4"]);
    let values = &corpus.streams[0].entries[0].structured_metadata;
    assert_eq!(values[0].1.len(), 32);
    assert!(values[1].1.starts_with("10.9."));
    assert_eq!(values[2].1.len(), 24);
    assert_eq!(values[4].1.len(), 8);
}

#[test]
fn out_of_order_entries_land_behind_the_clock() {
    let spec = CorpusSpec::default().rows(500).streams(1).out_of_order(true);
    let corpus = generate(&spec);
    let mut behind = 0;
    for (row, entry) in corpus.streams[0].entries.iter().enumerate() {
        let clock = 1_772_000_000_000_000_000 + row as i64 * 1_000_000;
        assert!(entry.timestamp_ns <= clock);
        assert!(entry.timestamp_ns > clock - 64 * 1_000_000);
        if entry.timestamp_ns < clock {
            behind += 1;
        }
    }
    assert!(behind > 400);
}

#[test]
fn an_instant_prints_as_utc_with_six_decimals() {
    assert_eq!(timestamp_text(0), "1970-01-01T00:00:00.000000Z");
    assert_eq!(timestamp_text(i64::MIN), "1677-09-21T00:12:43.145224Z");
    assert_eq!(timestamp_text(i64::MAX), "2262-04-11T23:47:16.854775Z");
    assert_eq!(timestamp_text(-1), "1969-12-31T23:59:59.999999Z");
    assert_eq!(timestamp_text(1_772_000_000_123_456_789), "2026-02-25T06:13:20.123456Z");
}

#[test]
fn a_spec_out_of_range_cannot_be_generated() {
    assert!(is_generable(&CorpusSpec::default()));
    let late = CorpusSpec { start_ts_ns: i64::MAX, ..CorpusSpec::default().rows(1) };
    assert!(is_generable(&late));
    assert!(!is_generable(&CorpusSpec { rows: 2, ..late }));
    let early = CorpusSpec {
        start_ts_ns: i64::MIN + 62,
        step_ns: 1,
        ..CorpusSpec::default().rows(1).out_of_order(true)
    };
    assert!(!is_generable(&early));
    assert!(is_generable(&CorpusSpec { start_ts_ns: i64::MIN + 63, ..early }));
    let heavy = CorpusSpec { plain_weight: u32::MAX, json_weight: 1, ..CorpusSpec::default() };
    assert!(!is_generable(&heavy));
    let long = CorpusSpec { tenant_prefix: "t".repeat(252), ..CorpusSpec::default() };
    assert!(!is_generable(&long));
    assert!(is_generable(&CorpusSpec { tenant_prefix: "t".repeat(251), ..long }));
}

#[test]
fn every_stream_has_the_listed_labels_and_every_entry_its_metadata() {
    for (asked, count) in [(0, 1), (1, 1), (4, 4), (10, 10), (99, 10)] {
        let spec = CorpusSpec {
            labels_per_stream: asked,
            metadata_pairs: asked.min(5),
            ..CorpusSpec::default().rows(60).streams(30)
        };
        let corpus = generate(&spec);
        assert_eq!(corpus.label_names.len(), count);
        assert!(corpus.label_names.windows(2).all(|pair| pair[0] < pair[1]));
        for stream in &corpus.streams {
            let names: Vec<&String> =
                (0..stream.labels.len()).map(|i| &stream.labels.pair(i).0).collect();
            assert!(names.iter().zip(&corpus.label_names).all(|(name, listed)| *name == listed));
            assert_eq!(names.len(), count);
            assert!(stream
                .entries
                .iter()
                .all(|entry| entry.structured_metadata.len() == asked.min(5)));
        }
    }
}
