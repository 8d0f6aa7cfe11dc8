use std::collections::BTreeSet;

use loggytracy::corpus::{generate, Corpus, CorpusSpec};
use loggytracy::load::answers::{
    count_rows, digest_result, fnv1a64, loki_result_rows, read_response, Answer, Cell,
};
use loggytracy::json::parse_json;
use loggytracy::load::config::{
    build_revision, server_environment, Config, MemorySource, Phase, Target, Verify,
};
use loggytracy::load::matrix::{
    build_queries, require_anchor, seed_chunks, seed_step, tally_shape, verify_corpus,
    windows_are_writable, SeedOutcome, SeedReply, SeedStep, Shape, Timing, SEED_ATTEMPTS,
};
use loggytracy::load::queries::{
    range_query, select_level, select_phrase, select_status, QueryGenerator, QUERY_SHAPES,
};
use loggytracy::load::stats::{
    min_samples_for, target_row, wal_backlog_drains, GaugeSeries, LatencyPair, Series, Slope,
};
use loggytracy::load::tally::StatusCounts;
use loggytracy::load::workload::{ArrivalOrder, PushGenerator};

// -------------------------------------------------------------------- answers
fn canonical(cell: &Cell) -> String {
    match cell {
        Cell::Text(text) => match text.parse::<f64>() {
            Ok(number) => format!("{number:.6}"),
            Err(_) => text.clone(),
        },
        Cell::Number(text) => format!("{:.6}", text.parse::<f64>().unwrap()),
        Cell::Other(text) => text.clone(),
    }
}

fn digest_response(body: &[u8]) -> Result<Answer, String> {
    let result = read_response(body)?;
    let samples: Vec<(String, String)> =
        result.rows.iter().map(|row| (canonical(&row.first), canonical(&row.second))).collect();
    Ok(digest_result(&result, &samples))
}

#[test]
fn the_row_digest_ignores_order_and_stream_labels_but_not_content() {
    let first = br#"{"data":{"resultType":"streams","result":[
        {"stream":{"app":"a"},"values":[["2","beta"],["1","alpha"]]}]}}"#;
    let second = br#"{"data":{"resultType":"streams","result":[
        {"stream":{"app":"a","level":"info"},"values":[["1","alpha"]]},
        {"stream":{"app":"a","level":"warn"},"values":[["2","beta"]]}]}}"#;
    let third = br#"{"data":{"resultType":"streams","result":[
        {"stream":{"app":"a"},"values":[["1","alpha"],["2","BETA"]]}]}}"#;

    let first = digest_response(first).expect("valid");
    let second = digest_response(second).expect("valid");
    let third = digest_response(third).expect("valid");
    assert_eq!(
        first.digest, second.digest,
        "the same rows split across streams in a different order are the same answer"
    );
    assert_ne!(first.digest, third.digest, "a changed line is a changed row");
    assert_eq!(first.rows, 2);
    assert_eq!(first.label_keys, vec!["app".to_string()]);
    assert_eq!(second.label_keys, vec!["app".to_string(), "level".to_string()]);
    assert_eq!((first.series, second.series), (1, 2));
    assert_eq!(first.kind, "streams");
    assert_eq!(first.sample, vec!["1\u{1}alpha", "2\u{1}beta"]);
    let mut hash: u64 = 0xcbf2_9ce4_8422_2325;
    for line in ["1\u{1}alpha", "2\u{1}beta"] {
        hash = (hash ^ fnv1a64(line.as_bytes())).wrapping_mul(0x0000_0100_0000_01b3);
    }
    assert_eq!(first.digest, format!("{hash:016x}"));
}

#[test]
fn matrix_samples_compare_at_six_decimals() {
    let loki = br#"{"data":{"resultType":"matrix","result":[
        {"metric":{"app":"a"},"values":[[1772000000,"0.0666666666666667"]]}]}}"#;
    let other = br#"{"data":{"resultType":"matrix","result":[
        {"metric":{"app":"a"},"values":[[1772000000,"0.06666666666666671"]]}]}}"#;
    let different = br#"{"data":{"resultType":"matrix","result":[
        {"metric":{"app":"a"},"values":[[1772000000,"0.07"]]}]}}"#;
    assert_eq!(
        digest_response(loki).expect("valid").digest,
        digest_response(other).expect("valid").digest
    );
    assert_ne!(
        digest_response(loki).expect("valid").digest,
        digest_response(different).expect("valid").digest
    );
    let answer = digest_response(loki).expect("valid");
    assert!(answer.sample[0].ends_with("\u{1}1772000000.000000\u{1}0.066667"), "{:?}", answer.sample);
}

#[test]
fn a_body_that_is_not_a_loki_result_is_an_error_not_an_empty_answer() {
    assert!(digest_response(b"not json").is_err());
    assert!(digest_response(br#"{"status":"error"}"#).is_err());
    let error = digest_response(b"not json").err().unwrap();
    assert!(error.starts_with("response is not JSON: expected"), "{error}");
    assert_eq!(
        digest_response(br#"{"status":"error"}"#).err().unwrap(),
        "response has no data.result array"
    );
}

#[test]
fn counts_the_lines_a_loki_response_returned() {
    let body = br#"{"status":"success","data":{"resultType":"streams","result":[
        {"stream":{"app":"a"},"values":[["1","x"],["2","y"]]},
        {"stream":{"app":"b"},"values":[["3","z"]]}]}}"#;
    assert_eq!(loki_result_rows(body), 3);
    assert_eq!(count_rows(&parse_json(body).ok().unwrap()), 3);
}

#[test]
fn an_empty_result_counts_zero_rows() {
    let body = br#"{"status":"success","data":{"resultType":"streams","result":[]}}"#;
    assert_eq!(loki_result_rows(body), 0);
    assert_eq!(loki_result_rows(b"not json"), 0);
}

#[test]
fn the_hash_is_fnv1a() {
    assert_eq!(fnv1a64(b""), 0xcbf2_9ce4_8422_2325);
    assert_eq!(fnv1a64(b"a"), 0xaf63_dc4c_8601_ec8c);
    assert_eq!(fnv1a64(b"foobar"), 0x8594_4171_f739_67e8);
}

// --------------------------------------------------------------------- matrix
fn verify_for_test() -> Verify {
    Verify {
        tenant_prefix: "verify-tenant".to_string(),
        rows: 1_000,
        streams: 8,
        labels_per_stream: 6,
        step_ns: 1_000_000,
        anchor_ns: 1_772_000_000_000_000_000,
        entries_per_push: 100,
        push_connections: 2,
        windows: 3,
        repeats: 2,
        limit: 100,
        range: "1m".to_string(),
        step_seconds: 10,
    }
}

fn config_for_test() -> Config {
    let mut config = Config::from_env(&[]).ok().unwrap();
    config.verify = verify_for_test();
    config
}

#[test]
fn an_unset_anchor_is_refused_because_two_runs_would_seed_different_data() {
    let mut verify = verify_for_test();
    verify.anchor_ns = 0;
    assert!(require_anchor(&verify).is_err());
    verify.anchor_ns = 1_772_000_000_000_000_000;
    assert!(require_anchor(&verify).is_ok());
}

#[test]
fn the_pushes_of_the_dataset_carry_every_entry_once() {
    let config = config_for_test();
    let corpus = verify_corpus(&config);
    assert_eq!(corpus.tenant_ids.len(), 1);
    let chunks = seed_chunks(&corpus, config.verify.entries_per_push);
    assert_eq!(chunks.len(), corpus.streams.len());
    let mut rows = 0;
    for (stream, list) in chunks.iter().enumerate() {
        let mut at = 0;
        for chunk in list {
            assert_eq!((chunk.stream, chunk.start), (stream, at));
            assert!(chunk.end > chunk.start && chunk.end - chunk.start <= 100);
            let bytes: usize = corpus.streams[stream].entries[chunk.start..chunk.end]
                .iter()
                .map(|entry| entry.line.len())
                .sum();
            assert_eq!(chunk.line_bytes, bytes);
            at = chunk.end;
            rows += chunk.end - chunk.start;
        }
        assert_eq!(at, corpus.streams[stream].entries.len());
    }
    assert_eq!(rows, 1_000);
}

#[test]
fn a_refused_seed_push_is_waited_out_and_a_wrong_one_is_not() {
    assert!(seed_step(0, SeedReply::Status(204)) == SeedStep::Done);
    assert!(seed_step(0, SeedReply::Status(200)) == SeedStep::Done);
    assert!(seed_step(0, SeedReply::Status(429)) == SeedStep::Retry);
    assert!(seed_step(0, SeedReply::Failed) == SeedStep::Retry);
    assert!(seed_step(0, SeedReply::Status(400)) == SeedStep::GiveUp);
    assert!(seed_step(SEED_ATTEMPTS - 1, SeedReply::Status(429)) == SeedStep::GiveUp);
    assert!(seed_step(SEED_ATTEMPTS - 1, SeedReply::Failed) == SeedStep::GiveUp);

    let corpus = verify_corpus(&config_for_test());
    let chunks = seed_chunks(&corpus, 100);
    let chunk = &chunks[0][0];
    let rows = (chunk.end - chunk.start) as u64;
    let mut one = SeedOutcome::new();
    one.record(chunk, 50, SeedReply::Status(429), SeedStep::Retry, "slow".to_string());
    one.record(chunk, 50, SeedReply::Status(204), SeedStep::Done, String::new());
    let mut other = SeedOutcome::new();
    other.record(chunk, 50, SeedReply::Status(500), SeedStep::GiveUp, "500: no".to_string());
    assert_eq!((one.pushes, one.rows, one.retries, one.errors), (1, rows, 1, 0));
    assert!(one.complete(rows));
    one.merge(other);
    assert_eq!((one.pushes, one.errors), (1, 1));
    assert_eq!(one.first_error.as_deref(), Some("500: no"));
    assert!(!one.complete(rows));
}

#[test]
fn every_shape_asks_every_app_in_every_window() {
    let config = config_for_test();
    let corpus = verify_corpus(&config);
    let apps: BTreeSet<String> =
        corpus.streams.iter().map(|stream| stream.labels.get("app").unwrap().clone()).collect();
    let queries = build_queries(&config, &corpus);
    assert_eq!(queries.len(), 4 * apps.len() * 3);
    let ids: BTreeSet<&str> = queries.iter().map(|query| query.id.as_str()).collect();
    assert_eq!(ids.len(), queries.len());
    let first = &queries[0];
    let app = apps.iter().next().unwrap();
    assert_eq!(first.id, format!("label_only/{app}/w0"));
    assert_eq!(first.expression, format!("{{app=\"{app}\"}}"));
    assert_eq!(first.start_ns, 1_772_000_000_000_000_000);
    assert_eq!(first.end_ns, 1_772_000_000_333_333_333);
    assert_eq!(queries[1].start_ns, first.end_ns);
    assert_eq!(queries[2].end_ns, 1_772_000_001_000_000_000);
    assert!(first.path.starts_with("/loki/api/v1/query_range?query=%7Bapp%3D%22"), "{}", first.path);
    assert!(first.path.contains("&limit=100&"));
    assert!(first.path.ends_with("direction=backward"));
    let rate = queries.iter().find(|query| query.shape == Shape::Rate).unwrap();
    assert_eq!(rate.expression, format!("sum(rate({{app=\"{app}\"}}[1m]))"));
    let json: Vec<_> = queries.iter().filter(|query| query.shape == Shape::JsonField).collect();
    assert!(json[0].expression.contains(" | json | status=\""));
    assert!(json[1].expression.contains(" | json | level=\""));
}

fn answer(digest: &str, rows: u64) -> Answer {
    Answer {
        kind: "streams".to_string(),
        rows,
        series: 1,
        digest: digest.to_string(),
        label_keys: vec![],
        sample: vec![],
    }
}

#[test]
fn a_repeat_that_answers_otherwise_is_noticed() {
    let mut timing = Timing::cold(10, 200, Some(Ok(answer("aa", 5))), None);
    timing.warm(4, 200, None, Ok("aa".to_string()));
    assert!(timing.warm_digests_agree);
    timing.warm(5, 200, None, Ok("bb".to_string()));
    assert!(!timing.warm_digests_agree);
    assert!(timing.error.is_none());
    assert_eq!(timing.warm_ns, vec![4, 5]);

    let mut refused = Timing::cold(10, 200, Some(Ok(answer("aa", 5))), None);
    refused.warm(4, 429, None, Err(String::new()));
    assert_eq!(refused.error.as_deref(), Some("warm repeat answered 429"));
    refused.warm(4, 200, None, Err("not JSON".to_string()));
    assert_eq!(refused.error.as_deref(), Some("warm repeat answered 429"));

    let failed = Timing::cold(9, 500, None, Some("boom".to_string()));
    assert_eq!((failed.status, failed.error.as_deref()), (500, Some("boom")));
    let unread = Timing::cold(9, 200, Some(Err("not JSON".to_string())), None);
    assert_eq!(unread.error.as_deref(), Some("not JSON"));
    assert!(!unread.warm_digests_agree);

    let config = config_for_test();
    let corpus = verify_corpus(&config);
    let mut queries = build_queries(&config, &corpus);
    queries.truncate(4);
    let timings = vec![timing, refused, failed, unread];
    let tally = tally_shape(&queries, &timings, queries[0].shape);
    assert_eq!(tally.queries, 4);
    assert_eq!((tally.errors, tally.rows, tally.unstable), (3, 5, 1));
    assert_eq!(tally.cold.samples, vec![10]);
    assert_eq!(tally.warm.samples, vec![4, 5]);
    assert_eq!(tally_shape(&queries, &timings, Shape::Rate).queries, 0);
}

// ---------------------------------------------------------------------- stats
#[test]
fn a_percentile_that_would_land_on_the_maximum_is_refused() {
    assert_eq!(min_samples_for(50), 3);
    assert_eq!(min_samples_for(95), 21);
    assert_eq!(min_samples_for(99), 101);

    let mut eight = Series::new();
    for value in 0..8 {
        eight.push(value);
    }
    assert_eq!(eight.quantile(50), Some(4));
    assert_eq!(eight.quantile(95), None, "a p95 over eight is the maximum");
    assert_eq!(eight.quantile(99), None);

    let mut hundred_sixty_seven = Series::new();
    for value in 0..167 {
        hundred_sixty_seven.push(value);
    }
    assert!(hundred_sixty_seven.quantile(95).is_some());
    assert!(hundred_sixty_seven.quantile(99).is_some());
    assert_eq!(hundred_sixty_seven.quantile(95), Some(158));
    assert_eq!(hundred_sixty_seven.quantile(99), Some(165));
}

#[test]
fn a_refused_percentile_reports_null_with_its_reason() {
    let mut series = Series::new();
    for value in [7, 6, 5, 4, 3, 2, 1, 0] {
        series.push(value);
    }
    let summary = series.summary();
    assert_eq!(summary.count, 8);
    assert!(summary.p50.is_some());
    assert!(summary.p95.is_none());
    assert_eq!(summary.unsupported.len(), 2);
    assert_eq!((summary.min, summary.max), (Some(0), Some(7)));
}

#[test]
fn the_percentile_index_is_what_floating_point_gives() {
    for count in 1..2_000usize {
        let mut series = Series::new();
        for value in 0..count {
            series.push(value as u64);
        }
        for (percent, fraction) in [(50u32, 0.50f64), (95, 0.95), (99, 0.99)] {
            if count < min_samples_for(percent) {
                assert_eq!(series.quantile(percent), None);
                continue;
            }
            let index = ((count - 1) as f64 * fraction).ceil() as usize;
            assert_eq!(series.quantile(percent), Some(index.min(count - 1) as u64));
        }
    }
}

fn series_of(values: &[u64]) -> GaugeSeries {
    let mut series = GaugeSeries::new();
    for (index, value) in values.iter().enumerate() {
        series.push(index as u64, *value);
    }
    series
}

fn slope_of(series: &GaugeSeries) -> Slope {
    let n = series.samples.len() as f64;
    let mean_t = series.samples.iter().map(|(t, _)| *t as f64).sum::<f64>() / n;
    let mean_v = series.samples.iter().map(|(_, v)| *v as f64).sum::<f64>() / n;
    let mut covariance = 0.0;
    let mut variance = 0.0;
    for (t, value) in &series.samples {
        covariance += (*t as f64 - mean_t) * (*value as f64 - mean_v);
        variance += (*t as f64 - mean_t) * (*t as f64 - mean_t);
    }
    let slope = covariance / variance;
    Slope { rising: slope > 0.0, shown: format!("{slope:.0}") }
}

#[test]
fn a_backlog_that_only_grows_does_not_drain() {
    let growing = series_of(&(0..40).map(|step| step * 1_000_000).collect::<Vec<_>>());
    let verdict = wal_backlog_drains(&growing, u64::MAX, 8, &slope_of(&growing));
    assert!(verdict.decided);
    assert!(!verdict.drained, "{}", verdict.reason);
}

#[test]
fn a_tiny_backlog_is_healthy_whatever_its_shape() {
    let flat = series_of(&(0..40).map(|step| 1_000_000 + (step % 3) * 400_000).collect::<Vec<_>>());
    let verdict = wal_backlog_drains(&flat, u64::MAX, 8, &slope_of(&flat));
    assert!(verdict.decided);
    assert!(verdict.drained, "{}", verdict.reason);
}

#[test]
fn an_early_dip_does_not_excuse_a_climb() {
    let mut values = vec![50_000_000, 1];
    values.extend((0..40).map(|step| 10_000_000 + step * 5_000_000));
    let dipping = series_of(&values);
    assert!(dipping.trough() * 2 <= dipping.peak(), "the old check passes this");
    let verdict = wal_backlog_drains(&dipping, u64::MAX, 8, &slope_of(&dipping));
    assert!(!verdict.drained, "{}", verdict.reason);
    assert_eq!(dipping.post_peak_min(), dipping.peak());
}

#[test]
fn a_sawtooth_with_a_falling_trend_drains() {
    let values: Vec<u64> = (0..40)
        .map(|step| {
            let oscillation = if step % 4 == 3 { 6_000_000 } else { 140_000_000 };
            oscillation - step * 100_000
        })
        .collect();
    let series = series_of(&values);
    let verdict = wal_backlog_drains(&series, u64::MAX, 8, &slope_of(&series));
    assert!(verdict.drained, "{}", verdict.reason);
}

#[test]
fn a_short_ramp_that_came_down_after_its_peak_drains() {
    let values = vec![0, 10_000, 20_000, 40_000, 80_000, 2_000, 20_000, 60_000, 5_000, 30_000];
    let series = series_of(&values);
    let verdict = wal_backlog_drains(&series, u64::MAX, 8, &slope_of(&series));
    assert!(verdict.drained, "{}", verdict.reason);
    let scaled = series_of(&values.iter().map(|value| value * 1_000).collect::<Vec<_>>());
    let verdict = wal_backlog_drains(&scaled, u64::MAX, 8, &slope_of(&scaled));
    assert!(verdict.drained, "{}", verdict.reason);
    assert!(verdict.reason.contains("fell to 2000000 after its peak of 80000000"));
}

#[test]
fn too_few_samples_decides_nothing() {
    let series = series_of(&[1, 2, 3]);
    let verdict = wal_backlog_drains(&series, u64::MAX, 8, &slope_of(&series));
    assert!(!verdict.decided);
    assert!(!verdict.drained);
    assert_eq!(
        verdict.reason,
        "3 backlog samples is too few to read a trend from; 8 required"
    );
}

#[test]
fn a_backlog_past_the_engines_ceiling_fails_however_it_moved() {
    let values: Vec<u64> = (0..40).map(|step| if step % 2 == 0 { 1 } else { 10_000_000 }).collect();
    let series = series_of(&values);
    let verdict = wal_backlog_drains(&series, 1_000_000, 8, &slope_of(&series));
    assert!(verdict.decided);
    assert!(!verdict.drained, "{}", verdict.reason);
}

#[test]
fn an_unmeasured_target_neither_passes_nor_fails() {
    let row = target_row(None, 10);
    assert!(row.pass.is_none());
    assert!(row.measured.is_none());
    assert_eq!(target_row(Some(9), 10).pass, Some(true));
    assert_eq!(target_row(Some(10), 10).pass, Some(true));
    assert_eq!(target_row(Some(11), 10).pass, Some(false));
}

#[test]
fn a_response_time_is_what_was_waited_and_what_was_served() {
    let mut pair = LatencyPair::new();
    pair.record(2, 5);
    let mut other = LatencyPair::new();
    other.record(0, 3);
    pair.extend(&other);
    assert_eq!(pair.response.samples, vec![7, 3]);
    assert_eq!(pair.service.samples, vec![5, 3]);
    assert_eq!(pair.queueing.samples, vec![2, 0]);
    let mut counts = StatusCounts::new();
    counts.add(204, 2);
    counts.add(429, 1);
    let mut more = StatusCounts::new();
    more.add(429, 4);
    counts.merge(&more);
    assert_eq!(counts.counts, vec![(204, 2), (429, 5)]);
}

// ------------------------------------------------------------------- workload
fn corpus() -> Corpus {
    generate(
        &CorpusSpec::default().rows(2_000).streams(16).tenants(4).tenant_prefix("load-tenant"),
    )
}

fn arrival(spread_ms: u64, late_fraction: f64, late_max_ms: u64) -> ArrivalOrder {
    ArrivalOrder { spread_ms, late_units: (late_fraction * (1u64 << 53) as f64) as u64, late_max_ms }
}

#[test]
fn a_push_carries_one_tenants_streams_and_the_requested_entry_count() {
    let corpus = corpus();
    let mut generator = PushGenerator::new(&corpus, 7, 100, 4, arrival(0, 0.0, 0));
    for _ in 0..16 {
        let batch = generator.next_batch(1_772_000_000_000_000_000);
        for (labels, _) in &batch.batch {
            let owner = corpus.streams.iter().find(|stream| stream.labels.same(labels)).unwrap();
            assert_eq!(owner.tenant.as_str(), batch.tenant);
        }
        let encoded: Vec<u8> =
            batch.batch.iter().flat_map(|(_, list)| list[0].line.bytes()).collect();
        let body = batch.into_body(&encoded);
        assert_eq!(body.entries, 100);
        assert!(body.streams > 1, "a push should carry several streams");
        assert!(corpus.tenant_ids.iter().any(|id| id.as_str() == body.tenant));
        assert!(!body.bytes.is_empty());
        assert_eq!(body.encoded_bytes, encoded.len());
        assert_ne!(body.bytes, encoded);
        assert_eq!(snap::raw::Decoder::new().decompress_vec(&body.bytes).unwrap(), encoded);
    }
}

#[test]
fn arrival_order_knobs_produce_late_and_unsorted_entries() {
    let corpus = corpus();
    let mut ordered = PushGenerator::new(&corpus, 7, 64, 2, arrival(0, 0.0, 0));
    let body = ordered.next_batch(1_772_000_000_000_000_000);
    assert_eq!(body.out_of_order_entries, 0);
    assert_eq!(body.max_lateness_ms, 0);

    let mut jittered = PushGenerator::new(&corpus, 7, 64, 2, arrival(500, 0.25, 30_000));
    let mut out_of_order = 0;
    let mut lateness = 0;
    for _ in 0..8 {
        let body = jittered.next_batch(1_772_000_000_000_000_000);
        out_of_order += body.out_of_order_entries;
        lateness = lateness.max(body.max_lateness_ms);
    }
    assert!(out_of_order > 0, "spread must break the arrival order");
    assert!(lateness > 500, "a late fraction must produce late entries");
}

#[test]
fn every_query_shape_names_a_stream_that_exists() {
    let corpus = corpus();
    let mut generator = QueryGenerator::new(&corpus, 11, [1, 1, 1, 1, 1], 300, 600, 100);
    let mut seen = BTreeSet::new();
    for _ in 0..400 {
        let plan = generator.next_plan(1_772_000_000);
        seen.insert(plan.shape.name());
        assert!(plan.path.starts_with("/loki/api/v1/query_range?query="));
        assert!(corpus.tenant_ids.iter().any(|id| id.as_str() == plan.tenant));
        let app = plan
            .expression
            .split_once("app=\"")
            .and_then(|(_, rest)| rest.split_once('"'))
            .map(|(value, _)| value.to_string())
            .expect("every shape selects on app");
        assert!(corpus.streams.iter().any(|stream| stream.labels.get("app") == Some(&app)));
    }
    assert_eq!(seen.len(), QUERY_SHAPES.len(), "every shape must be drawn");
}

#[test]
fn a_query_path_encodes_its_expression() {
    assert_eq!(
        range_query("{app=\"a b\"}", -5, 7, 10, 100, "forward"),
        "/loki/api/v1/query_range?query=%7Bapp%3D%22a+b%22%7D&start=-5&end=7&step=10&limit=100&direction=forward"
    );
    assert_eq!(select_phrase("a", "x y"), "{app=\"a\"} |= \"x y\"");
    assert_eq!(select_status("a", 503), "{app=\"a\"} | json | status=\"503\"");
    assert_eq!(select_level("a", "warn"), "{app=\"a\"} | json | level=\"warn\"");
}

// --------------------------------------------------------------------- config
fn vars(pairs: &[(&str, &str)]) -> Vec<(String, String)> {
    pairs.iter().map(|(name, value)| (name.to_string(), value.to_string())).collect()
}

#[test]
fn a_load_run_reads_its_knobs() {
    let config = Config::from_env(&[]).ok().unwrap();
    assert!(config.target == Target::Loggytracy && config.phase == Phase::Load);
    assert_eq!((config.duration_seconds, config.warmup_seconds), (60, 10));
    assert_eq!(config.query_weights, [3, 3, 3, 2, 1]);
    assert_eq!(config.seed, 0x5eed_2026);
    assert_eq!(
        config.memory_source().err().unwrap(),
        "neither LOGGYTRACY_LOAD_CGROUP nor LOGGYTRACY_LOAD_SERVER_PID was set, so no server memory could be watched"
    );
    let config = Config::from_env(&vars(&[
        ("LOGGYTRACY_LOAD_TARGET", " LOKI "),
        ("LOGGYTRACY_LOAD_PHASE", "seed"),
        ("LOGGYTRACY_LOAD_SECONDS", "5"),
        ("LOGGYTRACY_LOAD_SERVER_PID", "42"),
        ("LOGGYTRACY_LOAD_VERIFY_ROWS", "10"),
    ]))
    .ok()
    .unwrap();
    assert!(config.target == Target::Loki && config.phase == Phase::Seed);
    assert_eq!(config.target.name(), "loki");
    assert_eq!(config.warmup_seconds, 4);
    assert_eq!(config.verify_span_ns(), 10 * config.verify.step_ns);
    assert!(matches!(config.memory_source(), Ok(MemorySource::Proc(42))));
    assert_eq!(
        Target::parse("Elastic").err().unwrap(),
        "LOGGYTRACY_LOAD_TARGET must be loggytracy or loki, got \"elastic\""
    );
    assert_eq!(
        Phase::parse("go").err().unwrap(),
        "LOGGYTRACY_LOAD_PHASE must be load, seed or matrix, got \"go\""
    );
    let shown = server_environment(&vars(&[
        ("LOGGYTRACY_DATA_DIR", "/x"),
        ("LOGGYTRACY_LOAD_SEED", "1"),
        ("PATH", "/bin"),
    ]));
    assert_eq!(shown, vars(&[("LOGGYTRACY_DATA_DIR", "/x")]));
    assert_eq!(build_revision(&[]), "unknown");
    assert_eq!(build_revision(&vars(&[("GIT_COMMIT", "abc")])), "abc");
}

#[test]
fn windows_that_run_over_are_noticed() {
    let verify = verify_for_test();
    assert!(windows_are_writable(&verify));
    assert!(!windows_are_writable(&Verify { windows: 0, ..verify_for_test() }));
    assert!(!windows_are_writable(&Verify { step_ns: -1, ..verify_for_test() }));
    assert!(!windows_are_writable(&Verify { anchor_ns: i64::MAX, ..verify_for_test() }));
    let wide = Verify { rows: 3, windows: 3, step_ns: i64::MAX / 9, anchor_ns: 1, ..verify };
    assert!(windows_are_writable(&wide));
    assert!(!windows_are_writable(&Verify { step_ns: i64::MAX / 9 + 1, ..wide }));
}

#[test]
fn a_query_is_drawn_over_any_window_that_can_be_written() {
    let corpus = corpus();
    let draws = |weights: [u32; 5], window, lookback| {
        QueryGenerator::new(&corpus, 11, weights, window, lookback, 100).can_draw(1_772_000_000)
    };
    assert!(draws([1; 5], 300, 600));
    assert!(draws([0; 5], 0, 0));
    assert!(draws([1; 5], -300, -600));
    assert!(!draws([1; 5], i64::MAX, 0), "the end of the window runs over");
    assert!(!draws([1; 5], i64::MIN, 0));
    assert!(!draws([1; 5], 0, i64::MIN));
    assert!(!draws([u32::MAX, 1, 0, 0, 0], 300, 600));
    let mut backward = QueryGenerator::new(&corpus, 11, [1, 0, 0, 0, 0], -300, 0, 100);
    assert!(backward.next_plan(1_772_000_000).path.contains("start=1772000300"));
}
