//! What the knobs of a load run promise: each is read from its own variable, and kept within
//! its bounds.

use vstd::prelude::*;
use vstd::string::*;

use crate::checks::shown;
use crate::env::lookup;
use crate::load::config::{is_server_knob, phase_of, reads, Config, Phase};
use crate::text::{ascii_lowered, decimal, decimal_reads_back, is_digit, parsed_unsigned, trimmed};

verus! {

proof fn printed_number(n: nat)
    ensures
        n <= u64::MAX ==> parsed_unsigned(decimal(n), u64::MAX as nat) == Some(n),
        n <= usize::MAX ==> parsed_unsigned(decimal(n), usize::MAX as nat) == Some(n),
        n <= u32::MAX ==> parsed_unsigned(decimal(n), u32::MAX as nat) == Some(n),
        trimmed(decimal(n)) == decimal(n),
{
    decimal_reads_back(n);
    let text = decimal(n);
    assert(is_digit(text[0]));
    assert(is_digit(text[text.len() - 1]));
}

/// Each number of a load run is the one that its own variable holds, and its default where
/// that is not set.
#[verifier::spinoff_prover]
#[verifier::rlimit(60)]
pub proof fn each_number_is_read_from_its_own_variable(
    config: Config,
    vars: Seq<(String, String)>,
    n: nat,
)
    requires
        reads(config, vars),
        n <= usize::MAX && n <= u64::MAX,
    ensures
        lookup(vars, "LOGGYTRACY_LOAD_VERIFY_ROWS"@) == Some(decimal(n)) && n >= 1 ==> config.verify.rows == n,
        lookup(vars, "LOGGYTRACY_LOAD_VERIFY_ROWS"@) is None ==> config.verify.rows == 120_000,
        lookup(vars, "LOGGYTRACY_LOAD_VERIFY_STREAMS"@) == Some(decimal(n)) && n >= 1 ==> config.verify.streams == n,
        lookup(vars, "LOGGYTRACY_LOAD_VERIFY_STREAMS"@) is None ==> config.verify.streams == 32,
        lookup(vars, "LOGGYTRACY_LOAD_VERIFY_LABELS"@) == Some(decimal(n)) && n >= 1 && n <= 10 ==> config.verify.labels_per_stream == n,
        lookup(vars, "LOGGYTRACY_LOAD_VERIFY_LABELS"@) is None ==> config.verify.labels_per_stream == 6,
        lookup(vars, "LOGGYTRACY_LOAD_VERIFY_STEP_NS"@) == Some(decimal(n)) && n >= 1 && n <= i64::MAX ==> config.verify.step_ns == n,
        lookup(vars, "LOGGYTRACY_LOAD_VERIFY_STEP_NS"@) is None ==> config.verify.step_ns == 1_000_000,
        lookup(vars, "LOGGYTRACY_LOAD_VERIFY_ANCHOR_NS"@) == Some(decimal(n)) && n <= i64::MAX ==> config.verify.anchor_ns == n,
        lookup(vars, "LOGGYTRACY_LOAD_VERIFY_ANCHOR_NS"@) is None ==> config.verify.anchor_ns == 0,
        lookup(vars, "LOGGYTRACY_LOAD_VERIFY_ENTRIES_PER_PUSH"@) == Some(decimal(n)) && n >= 1 ==> config.verify.entries_per_push == n,
        lookup(vars, "LOGGYTRACY_LOAD_VERIFY_ENTRIES_PER_PUSH"@) is None ==> config.verify.entries_per_push == 100,
        lookup(vars, "LOGGYTRACY_LOAD_VERIFY_CONNECTIONS"@) == Some(decimal(n)) && n >= 1 ==> config.verify.push_connections == n,
        lookup(vars, "LOGGYTRACY_LOAD_VERIFY_CONNECTIONS"@) is None ==> config.verify.push_connections == 4,
        lookup(vars, "LOGGYTRACY_LOAD_MATRIX_WINDOWS"@) == Some(decimal(n)) && n >= 1 ==> config.verify.windows == n,
        lookup(vars, "LOGGYTRACY_LOAD_MATRIX_WINDOWS"@) is None ==> config.verify.windows == 3,
        lookup(vars, "LOGGYTRACY_LOAD_MATRIX_REPEATS"@) == Some(decimal(n)) && n >= 1 ==> config.verify.repeats == n,
        lookup(vars, "LOGGYTRACY_LOAD_MATRIX_REPEATS"@) is None ==> config.verify.repeats == 5,
        lookup(vars, "LOGGYTRACY_LOAD_MATRIX_LIMIT"@) == Some(decimal(n)) && n >= 1 ==> config.verify.limit == n,
        lookup(vars, "LOGGYTRACY_LOAD_MATRIX_LIMIT"@) is None ==> config.verify.limit == 20_000,
        lookup(vars, "LOGGYTRACY_LOAD_MATRIX_STEP_SECONDS"@) == Some(decimal(n)) && n >= 1 && n <= i64::MAX ==> config.verify.step_seconds == n,
        lookup(vars, "LOGGYTRACY_LOAD_MATRIX_STEP_SECONDS"@) is None ==> config.verify.step_seconds == 10,
        lookup(vars, "LOGGYTRACY_LOAD_SEED"@) == Some(decimal(n)) ==> config.seed == n,
        lookup(vars, "LOGGYTRACY_LOAD_SEED"@) is None ==> config.seed == 0x5eed_2026,
        lookup(vars, "LOGGYTRACY_LOAD_SECONDS"@) == Some(decimal(n)) && n >= 1 ==> config.duration_seconds == n,
        lookup(vars, "LOGGYTRACY_LOAD_SECONDS"@) is None ==> config.duration_seconds == 60,
        lookup(vars, "LOGGYTRACY_LOAD_WARMUP_SECONDS"@) == Some(decimal(n)) && n < config.duration_seconds ==> config.warmup_seconds == n,
        lookup(vars, "LOGGYTRACY_LOAD_EVENTS"@) == Some(decimal(n)) ==> config.target_events == n,
        lookup(vars, "LOGGYTRACY_LOAD_EVENTS"@) is None ==> config.target_events == 0,
        lookup(vars, "LOGGYTRACY_LOAD_REQUEST_TIMEOUT_SECONDS"@) == Some(decimal(n)) && n >= 1 ==> config.request_timeout_seconds == n,
        lookup(vars, "LOGGYTRACY_LOAD_REQUEST_TIMEOUT_SECONDS"@) is None ==> config.request_timeout_seconds == 60,
        lookup(vars, "LOGGYTRACY_LOAD_SAMPLE_INTERVAL_MS"@) == Some(decimal(n)) && n >= 50 ==> config.sample_interval_ms == n,
        lookup(vars, "LOGGYTRACY_LOAD_SAMPLE_INTERVAL_MS"@) is None ==> config.sample_interval_ms == 1000,
        lookup(vars, "LOGGYTRACY_LOAD_CONNECTIONS"@) == Some(decimal(n)) && n >= 1 ==> config.ingest_connections == n,
        lookup(vars, "LOGGYTRACY_LOAD_CONNECTIONS"@) is None ==> config.ingest_connections == 8,
        lookup(vars, "LOGGYTRACY_LOAD_ENTRIES_PER_PUSH"@) == Some(decimal(n)) && n >= 1 ==> config.entries_per_push == n,
        lookup(vars, "LOGGYTRACY_LOAD_ENTRIES_PER_PUSH"@) is None ==> config.entries_per_push == 100,
        lookup(vars, "LOGGYTRACY_LOAD_STREAMS_PER_PUSH"@) == Some(decimal(n)) && n >= 1 ==> config.streams_per_push == n,
        lookup(vars, "LOGGYTRACY_LOAD_STREAMS_PER_PUSH"@) is None ==> config.streams_per_push == 4,
        lookup(vars, "LOGGYTRACY_LOAD_CORPUS_ROWS"@) == Some(decimal(n)) && n >= 1 ==> config.corpus_rows == n,
        lookup(vars, "LOGGYTRACY_LOAD_CORPUS_ROWS"@) is None ==> config.corpus_rows == 50_000,
        lookup(vars, "LOGGYTRACY_LOAD_TENANTS"@) == Some(decimal(n)) && n >= 1 ==> config.tenants == n,
        lookup(vars, "LOGGYTRACY_LOAD_TENANTS"@) is None ==> config.tenants == 4,
        lookup(vars, "LOGGYTRACY_LOAD_STREAMS"@) == Some(decimal(n)) && n >= 1 ==> config.streams == n,
        lookup(vars, "LOGGYTRACY_LOAD_STREAMS"@) is None ==> config.streams == 256,
        lookup(vars, "LOGGYTRACY_LOAD_LABELS_PER_STREAM"@) == Some(decimal(n)) && n >= 1 && n <= 10 ==> config.labels_per_stream == n,
        lookup(vars, "LOGGYTRACY_LOAD_LABELS_PER_STREAM"@) is None ==> config.labels_per_stream == 6,
        lookup(vars, "LOGGYTRACY_LOAD_METADATA_PAIRS"@) == Some(decimal(n)) ==> config.metadata_pairs == n,
        lookup(vars, "LOGGYTRACY_LOAD_METADATA_PAIRS"@) is None ==> config.metadata_pairs == 2,
        lookup(vars, "LOGGYTRACY_LOAD_PLAIN_WEIGHT"@) == Some(decimal(n)) && n <= u32::MAX ==> config.plain_weight == n,
        lookup(vars, "LOGGYTRACY_LOAD_PLAIN_WEIGHT"@) is None ==> config.plain_weight == 3,
        lookup(vars, "LOGGYTRACY_LOAD_JSON_WEIGHT"@) == Some(decimal(n)) && n <= u32::MAX ==> config.json_weight == n,
        lookup(vars, "LOGGYTRACY_LOAD_JSON_WEIGHT"@) is None ==> config.json_weight == 5,
        lookup(vars, "LOGGYTRACY_LOAD_LOGFMT_WEIGHT"@) == Some(decimal(n)) && n <= u32::MAX ==> config.logfmt_weight == n,
        lookup(vars, "LOGGYTRACY_LOAD_LOGFMT_WEIGHT"@) is None ==> config.logfmt_weight == 2,
        lookup(vars, "LOGGYTRACY_LOAD_ENTRY_SPREAD_MS"@) == Some(decimal(n)) ==> config.entry_spread_ms == n,
        lookup(vars, "LOGGYTRACY_LOAD_ENTRY_SPREAD_MS"@) is None ==> config.entry_spread_ms == 250,
        lookup(vars, "LOGGYTRACY_LOAD_LATE_MAX_MS"@) == Some(decimal(n)) ==> config.late_max_ms == n,
        lookup(vars, "LOGGYTRACY_LOAD_LATE_MAX_MS"@) is None ==> config.late_max_ms == 30_000,
        lookup(vars, "LOGGYTRACY_LOAD_QUERY_CONNECTIONS"@) == Some(decimal(n)) && n >= 1 ==> config.query_connections == n,
        lookup(vars, "LOGGYTRACY_LOAD_QUERY_CONNECTIONS"@) is None ==> config.query_connections == 4,
        lookup(vars, "LOGGYTRACY_LOAD_QUERY_WINDOW_SECONDS"@) == Some(decimal(n)) && n <= i64::MAX ==> config.query_window_seconds == n,
        lookup(vars, "LOGGYTRACY_LOAD_QUERY_WINDOW_SECONDS"@) is None ==> config.query_window_seconds == 60,
        lookup(vars, "LOGGYTRACY_LOAD_QUERY_LIMIT"@) == Some(decimal(n)) && n >= 1 ==> config.query_limit == n,
        lookup(vars, "LOGGYTRACY_LOAD_QUERY_LIMIT"@) is None ==> config.query_limit == 100,
        lookup(vars, "LOGGYTRACY_LOAD_RESTORE_LOOKBACK_SECONDS"@) == Some(decimal(n)) && n <= i64::MAX ==> config.restore_lookback_seconds == n,
        lookup(vars, "LOGGYTRACY_LOAD_RESTORE_LOOKBACK_SECONDS"@) is None ==> config.restore_lookback_seconds == 60,
        lookup(vars, "LOGGYTRACY_LOAD_QUERY_WEIGHT_LABEL_ONLY"@) == Some(decimal(n)) && n <= u32::MAX ==> config.query_weights@[0] == n,
        lookup(vars, "LOGGYTRACY_LOAD_QUERY_WEIGHT_LABEL_ONLY"@) is None ==> config.query_weights@[0] == 3,
        lookup(vars, "LOGGYTRACY_LOAD_QUERY_WEIGHT_LINE_FILTER"@) == Some(decimal(n)) && n <= u32::MAX ==> config.query_weights@[1] == n,
        lookup(vars, "LOGGYTRACY_LOAD_QUERY_WEIGHT_LINE_FILTER"@) is None ==> config.query_weights@[1] == 3,
        lookup(vars, "LOGGYTRACY_LOAD_QUERY_WEIGHT_JSON_FIELD"@) == Some(decimal(n)) && n <= u32::MAX ==> config.query_weights@[2] == n,
        lookup(vars, "LOGGYTRACY_LOAD_QUERY_WEIGHT_JSON_FIELD"@) is None ==> config.query_weights@[2] == 3,
        lookup(vars, "LOGGYTRACY_LOAD_QUERY_WEIGHT_RATE"@) == Some(decimal(n)) && n <= u32::MAX ==> config.query_weights@[3] == n,
        lookup(vars, "LOGGYTRACY_LOAD_QUERY_WEIGHT_RATE"@) is None ==> config.query_weights@[3] == 2,
        lookup(vars, "LOGGYTRACY_LOAD_QUERY_WEIGHT_RESTORE_PROBE"@) == Some(decimal(n)) && n <= u32::MAX ==> config.query_weights@[4] == n,
        lookup(vars, "LOGGYTRACY_LOAD_QUERY_WEIGHT_RESTORE_PROBE"@) is None ==> config.query_weights@[4] == 1,
        lookup(vars, "LOGGYTRACY_TARGET_RSS_MAX_BYTES"@) == Some(decimal(n)) ==> config.targets.rss_max_bytes == n,
        lookup(vars, "LOGGYTRACY_TARGET_RSS_MAX_BYTES"@) is None ==> config.targets.rss_max_bytes == 4_294_967_296,
        lookup(vars, "LOGGYTRACY_TARGET_WAL_BACKLOG_MAX_BYTES"@) == Some(decimal(n)) ==> config.targets.wal_backlog_max_bytes == n,
        lookup(vars, "LOGGYTRACY_TARGET_WAL_BACKLOG_MAX_BYTES"@) is None ==> config.targets.wal_backlog_max_bytes == 1_073_741_824,
        lookup(vars, "LOGGYTRACY_TARGET_MIN_BACKLOG_SAMPLES"@) == Some(decimal(n)) && n >= 2 ==> config.targets.min_backlog_samples == n,
        lookup(vars, "LOGGYTRACY_TARGET_MIN_BACKLOG_SAMPLES"@) is None ==> config.targets.min_backlog_samples == 8,
        lookup(vars, "LOGGYTRACY_LOAD_SERVER_PID"@) == Some(decimal(n)) && n <= u32::MAX
            ==> config.server_pid == Some(n as u32),
        lookup(vars, "LOGGYTRACY_LOAD_SERVER_PID"@) is None ==> config.server_pid is None,
{
    printed_number(n);
}

/// Each number of a load run is within its bounds, whatever its variable holds, and each
/// text is that of its variable.
#[verifier::spinoff_prover]
#[verifier::rlimit(60)]
pub proof fn the_knobs_are_within_their_bounds(config: Config, vars: Seq<(String, String)>)
    requires
        reads(config, vars),
    ensures
        lookup(vars, "LOGGYTRACY_LOAD_VERIFY_TENANT_PREFIX"@) is Some ==> config.verify.tenant_prefix@ == lookup(vars, "LOGGYTRACY_LOAD_VERIFY_TENANT_PREFIX"@)->Some_0,
        lookup(vars, "LOGGYTRACY_LOAD_VERIFY_TENANT_PREFIX"@) is None ==> config.verify.tenant_prefix@ == "verify-tenant"@,
        config.verify.rows >= 1,
        config.verify.streams >= 1,
        config.verify.labels_per_stream >= 1,
        config.verify.labels_per_stream <= 10,
        lookup(vars, "LOGGYTRACY_LOAD_VERIFY_STEP_NS"@) == Some(decimal(0)) ==> config.verify.step_ns == 1,
        config.verify.entries_per_push >= 1,
        config.verify.push_connections >= 1,
        config.verify.windows >= 1,
        config.verify.repeats >= 1,
        config.verify.limit >= 1,
        lookup(vars, "LOGGYTRACY_LOAD_MATRIX_RANGE"@) is Some ==> config.verify.range@ == lookup(vars, "LOGGYTRACY_LOAD_MATRIX_RANGE"@)->Some_0,
        lookup(vars, "LOGGYTRACY_LOAD_MATRIX_RANGE"@) is None ==> config.verify.range@ == "1m"@,
        lookup(vars, "LOGGYTRACY_LOAD_MATRIX_STEP_SECONDS"@) == Some(decimal(0)) ==> config.verify.step_seconds == 1,
        lookup(vars, "LOGGYTRACY_LOAD_ADDR"@) is Some ==> config.http_address@ == lookup(vars, "LOGGYTRACY_LOAD_ADDR"@)->Some_0,
        lookup(vars, "LOGGYTRACY_LOAD_ADDR"@) is None ==> config.http_address@ == "127.0.0.1:3100"@,
        lookup(vars, "LOGGYTRACY_LOAD_OTLP_ADDR"@) is Some ==> config.otlp_address@ == lookup(vars, "LOGGYTRACY_LOAD_OTLP_ADDR"@)->Some_0,
        lookup(vars, "LOGGYTRACY_LOAD_OTLP_ADDR"@) is None ==> config.otlp_address@ == "127.0.0.1:4317"@,
        lookup(vars, "LOGGYTRACY_LOAD_TIER"@) is Some ==> config.tier@ == lookup(vars, "LOGGYTRACY_LOAD_TIER"@)->Some_0,
        lookup(vars, "LOGGYTRACY_LOAD_TIER"@) is None ==> config.tier@ == "B"@,
        config.duration_seconds >= 1,
        config.warmup_seconds < config.duration_seconds,
        config.request_timeout_seconds >= 1,
        config.sample_interval_ms >= 50,
        config.ingest_connections >= 1,
        config.entries_per_push >= 1,
        config.streams_per_push >= 1,
        config.corpus_rows >= 1,
        config.tenants >= 1,
        config.streams >= 1,
        config.labels_per_stream >= 1,
        config.labels_per_stream <= 10,
        config.query_connections >= 1,
        config.query_limit >= 1,
        config.targets.min_backlog_samples >= 2,
        shown(config.result_path) == lookup(vars, "LOGGYTRACY_LOAD_RESULT_PATH"@),
        lookup(vars, "LOGGYTRACY_LOAD_CGROUP"@) is None ==> config.cgroup_path is None,
        config.cgroup_path is Some ==> lookup(vars, "LOGGYTRACY_LOAD_CGROUP"@) == Some(
            config.cgroup_path->Some_0@,
        ),
{
    printed_number(0);
}

/// A variable of the load run is no knob of the server, nor is a target, nor what describes
/// the build and the machine. Any other variable of the server's prefix is one.
pub proof fn the_knobs_of_the_load_run_are_not_the_servers(rest: Seq<char>)
    ensures
        !is_server_knob("LOGGYTRACY_LOAD_"@ + rest),
        !is_server_knob("LOGGYTRACY_TARGET_"@ + rest),
        !is_server_knob("LOGGYTRACY_BUILD_REVISION"@),
        !is_server_knob("LOGGYTRACY_MACHINE_PROFILE"@),
        is_server_knob("LOGGYTRACY_FLUSH_"@ + rest),
{
    reveal_strlit("LOGGYTRACY_");
    reveal_strlit("LOGGYTRACY_LOAD_");
    reveal_strlit("LOGGYTRACY_TARGET_");
    reveal_strlit("LOGGYTRACY_FLUSH_");
    reveal_strlit("LOGGYTRACY_BUILD_REVISION");
    reveal_strlit("LOGGYTRACY_MACHINE_PROFILE");
    let load = "LOGGYTRACY_LOAD_"@;
    let target = "LOGGYTRACY_TARGET_"@;
    let flush = "LOGGYTRACY_FLUSH_"@ + rest;
    assert((load + rest).take(load.len() as int) =~= load);
    assert((target + rest).take(target.len() as int) =~= target);
    assert(flush.take("LOGGYTRACY_"@.len() as int) =~= "LOGGYTRACY_"@);
    assert(flush[11] == 'F');
    assert(flush.take(load.len() as int)[11] == flush[11]);
    assert(load[11] == 'L' && target[11] == 'T');
    assert(flush != "LOGGYTRACY_BUILD_REVISION"@) by {
        assert("LOGGYTRACY_BUILD_REVISION"@[11] == 'B');
    }
    assert(flush != "LOGGYTRACY_MACHINE_PROFILE"@) by {
        assert("LOGGYTRACY_MACHINE_PROFILE"@[11] == 'M');
    }
    if flush.len() >= target.len() {
        assert(flush.take(target.len() as int)[11] == flush[11]);
    }
}

/// A phase goes by its name, whatever the case of it and the whitespace around it, and
/// nothing else names one.
pub proof fn a_phase_goes_by_its_name(raw: Seq<char>)
    ensures
        phase_of(raw) is Ok <==> {
            ||| ascii_lowered(trimmed(raw)) == "load"@
            ||| ascii_lowered(trimmed(raw)) == "seed"@
            ||| ascii_lowered(trimmed(raw)) == "matrix"@
        },
        ascii_lowered(trimmed(raw)) == "load"@ ==> phase_of(raw) == Ok::<Phase, Seq<char>>(
            Phase::Load,
        ),
        ascii_lowered(trimmed(raw)) == "seed"@ ==> phase_of(raw) == Ok::<Phase, Seq<char>>(
            Phase::Seed,
        ),
        ascii_lowered(trimmed(raw)) == "matrix"@ ==> phase_of(raw) == Ok::<Phase, Seq<char>>(
            Phase::Matrix,
        ),
{
    reveal_strlit("load");
    reveal_strlit("seed");
    reveal_strlit("matrix");
    assert("load"@[0] == 'l' && "seed"@[0] == 's' && "matrix"@[0] == 'm');
}

} // verus!
