//! The engine's knobs: their defaults, the ceilings a memory budget gives them,
//! and which values are refused.

use vstd::prelude::*;
use vstd::string::*;

use crate::checks::{first_failure, Checks};
use crate::tenant::TenantId;
use crate::text::{
    chars_of, find_field, is_word, lower_ascii, parse_unsigned, push_decimal, quote, text_of, trim, word,
};
use crate::time::Duration;

verus! {

pub const MIB: u64 = 1_048_576;

/// What a query reserves at a time from the shared pool.
pub const RESERVATION_CHUNK_BYTES: u64 = 1_048_576;

/// The largest OTLP request that is accepted.
pub const MAX_OTLP_REQUEST_BYTES: usize = 16_777_216;

/// The share of the detected memory that the engine takes for itself.
pub const MEMORY_BUDGET_FRACTION_PERCENT: u64 = 60;

/// The bits of the double `1.0`. Between zero and this, doubles and their bits
/// are in the same order.
pub const ONE_BITS: u64 = 0x3ff0_0000_0000_0000;

/// The shape of this process's own log lines.
#[derive(Clone, Copy, Debug, PartialEq, Eq, Structural)]
pub enum LogFormat {
    Text,
    Json,
}

/// What a log format knob reads as: nothing keeps the default, `text` and
/// `json` are themselves whatever their case, and anything else is refused.
pub open spec fn log_format_of(raw: Seq<char>, default: LogFormat) -> Result<LogFormat, Seq<char>> {
    let word = crate::text::ascii_lowered(crate::text::trimmed(raw));
    if word == ""@ {
        Ok(default)
    } else if word == "text"@ {
        Ok(LogFormat::Text)
    } else if word == "json"@ {
        Ok(LogFormat::Json)
    } else {
        Err(crate::text::quoted(word) + ": expected text or json"@)
    }
}

impl LogFormat {
    pub fn parse(raw: &str, default: LogFormat) -> (out: Result<LogFormat, String>)
        ensures
            match out {
                Ok(format) => log_format_of(raw@, default) == Ok::<LogFormat, Seq<char>>(format),
                Err(message) => log_format_of(raw@, default) == Err::<LogFormat, Seq<char>>(
                    message@,
                ),
            },
    {
        let chars = chars_of(raw);
        let bare = trim(chars.as_slice());
        let lower = lower_ascii(bare.as_slice());
        if is_word(lower.as_slice(), "") {
            Ok(default)
        } else if is_word(lower.as_slice(), "text") {
            Ok(LogFormat::Text)
        } else if is_word(lower.as_slice(), "json") {
            Ok(LogFormat::Json)
        } else {
            let other = text_of(lower.as_slice());
            let mut message = quote(other.as_str());
            message.append(": expected text or json");
            Err(message)
        }
    }
}

/// Every knob of the engine.
pub struct Config {
    /// Where the HTTP listener binds. Loopback unless something else is asked for.
    pub listen_addr: String,
    /// Where the OTLP gRPC listener binds.
    pub otlp_grpc_addr: String,
    /// The directory that holds the WAL and the parts.
    pub data_dir: String,
    /// Whose data a request without a tenant header is, or `None` to refuse it.
    pub missing_tenant: Option<TenantId>,
    pub max_batch_bytes: usize,
    /// How long the journal writer waits for more records. Zero means not at all.
    pub max_batch_ms: u64,
    pub max_line_bytes: usize,
    /// How far behind the clock an entry may be.
    pub max_timestamp_age: Option<Duration>,
    /// How far ahead of the clock an entry may be.
    pub max_timestamp_skew: Option<Duration>,
    /// Buffered bytes above which ingest is refused.
    pub max_memtable_bytes: Option<u64>,
    /// WAL bytes not yet flushed above which ingest is refused.
    pub max_wal_backlog_bytes: Option<u64>,
    /// Request bodies admitted at once, in bytes.
    pub max_inflight_push_bytes: Option<u64>,
    /// The least dead prefix that is worth cutting from the WAL.
    pub wal_compact_min_bytes: Option<u64>,
    pub backpressure_retry_after: Duration,
    pub flush_max_bytes: u64,
    pub flush_max_interval: Duration,
    pub flush_check_interval: Duration,
    /// The most a flush materialises at once.
    pub flush_chunk_bytes: u64,
    pub row_group_size: usize,
    pub merge_min_part_count: usize,
    pub merge_target_part_rows: u64,
    pub merge_max_part_rows: u64,
    /// The largest group that merge assembles, uncompressed.
    pub merge_max_input_bytes: u64,
    /// The most that one merge may materialise, uncompressed.
    pub merge_max_memory_bytes: u64,
    pub merge_max_groups_per_tick: usize,
    pub merge_interval: Duration,
    /// Where parts are kept remotely, if anywhere.
    pub object_store_url: Option<String>,
    pub cache_max_bytes: u64,
    pub cache_eviction_interval: Duration,
    pub retention_interval: Duration,
    pub retention_batch_size: usize,
    pub retention_grace_period: Duration,
    pub max_retention_runtime: Duration,
    pub max_concurrent_queries_per_tenant: usize,
    pub default_tenant_max_stored_bytes: Option<u64>,
    /// Free disk below which ingest is refused.
    pub min_free_disk_bytes: Option<u64>,
    pub log_format: LogFormat,
    pub disk_sample_interval: Duration,
    /// The expired share of a part that justifies a rewrite: the bits of an IEEE
    /// double.
    pub retention_rewrite_threshold: u64,
    pub max_concurrent_tails: usize,
    pub tail_poll_interval: Duration,
    pub max_query_range: Option<Duration>,
    pub max_query_scan_rows: usize,
    pub max_query_scan_bytes: u64,
    pub max_query_memory_bytes: u64,
    /// The byte budget that all queries together draw from.
    pub query_memory_budget_bytes: u64,
    pub row_group_cache_max_bytes: Option<u64>,
    pub sidecar_cache_max_bytes: Option<u64>,
    pub max_log_limit: usize,
    pub max_histogram_buckets: usize,
    pub max_concurrent_query_scans: usize,
    pub max_query_runtime: Duration,
    pub max_restore_runtime: Duration,
    pub max_trace_spans: usize,
    pub max_trace_search_limit: usize,
    pub max_concurrent_trace_scans: usize,
    pub max_trace_query_runtime: Duration,
    pub max_trace_restore_runtime: Duration,
    pub max_active_series: usize,
    pub metric_series_idle_timeout: Duration,
    pub shutdown_flush_warn_after: Duration,
    pub startup_retry_budget: Duration,
    pub malloc_trim_interval: Option<Duration>,
    /// The declared memory budget, or `None` when there is none.
    pub memory_budget_bytes: Option<u64>,
    /// Where the budget came from.
    pub memory_budget_source: String,
}

impl Config {
    /// Whether every knob is at its default.
    pub open spec fn is_default(&self) -> bool {
        &&& self.listen_addr@ == "127.0.0.1:3100"@
        &&& self.otlp_grpc_addr@ == "127.0.0.1:4317"@
        &&& self.data_dir@ == "./data"@
        &&& self.missing_tenant is None
        &&& self.max_batch_bytes == 1_048_576
        &&& self.max_batch_ms == 0
        &&& self.max_line_bytes == 262_144
        &&& self.max_timestamp_age == Some(Duration { nanos: 604_800_000_000_000 })
        &&& self.max_timestamp_skew == Some(Duration { nanos: 3_600_000_000_000 })
        &&& self.max_memtable_bytes == Some(268_435_456u64)
        &&& self.max_wal_backlog_bytes == Some(1_073_741_824u64)
        &&& self.max_inflight_push_bytes == Some(134_217_728u64)
        &&& self.wal_compact_min_bytes == Some(67_108_864u64)
        &&& self.backpressure_retry_after.nanos == 1_000_000_000
        &&& self.flush_max_bytes == 1_048_576
        &&& self.flush_max_interval.nanos == 5_000_000_000
        &&& self.flush_check_interval.nanos == 500_000_000
        &&& self.flush_chunk_bytes == 33_554_432
        &&& self.row_group_size == 8_192
        &&& self.merge_min_part_count == 4
        &&& self.merge_target_part_rows == 1_000_000
        &&& self.merge_max_part_rows == 4_000_000
        &&& self.merge_max_input_bytes == 536_870_912
        &&& self.merge_max_memory_bytes == 1_073_741_824
        &&& self.merge_max_groups_per_tick == 16
        &&& self.merge_interval.nanos == 30_000_000_000
        &&& self.object_store_url is None
        &&& self.cache_max_bytes == 10_737_418_240
        &&& self.cache_eviction_interval.nanos == 30_000_000_000
        &&& self.retention_interval.nanos == 300_000_000_000
        &&& self.retention_batch_size == 100
        &&& self.retention_grace_period.nanos == 3_600_000_000_000
        &&& self.max_retention_runtime.nanos == 120_000_000_000
        &&& self.max_concurrent_queries_per_tenant == 4
        &&& self.default_tenant_max_stored_bytes is None
        &&& self.min_free_disk_bytes == Some(2_147_483_648u64)
        &&& self.log_format == LogFormat::Text
        &&& self.disk_sample_interval.nanos == 10_000_000_000
        &&& self.retention_rewrite_threshold == 0x3fe0_0000_0000_0000
        &&& self.max_concurrent_tails == 8
        &&& self.tail_poll_interval.nanos == 1_000_000_000
        &&& self.max_query_range is None
        &&& self.max_query_scan_rows == 5_000_000
        &&& self.max_query_scan_bytes == 2_147_483_648
        &&& self.max_query_memory_bytes == 536_870_912
        &&& self.query_memory_budget_bytes == 536_870_912
        &&& self.row_group_cache_max_bytes == Some(268_435_456u64)
        &&& self.sidecar_cache_max_bytes is None
        &&& self.max_log_limit == 100_000
        &&& self.max_histogram_buckets == 10_000
        &&& self.max_concurrent_query_scans == 8
        &&& self.max_query_runtime.nanos == 30_000_000_000
        &&& self.max_restore_runtime.nanos == 25_000_000_000
        &&& self.max_trace_spans == 100_000
        &&& self.max_trace_search_limit == 1_000
        &&& self.max_concurrent_trace_scans == 8
        &&& self.max_trace_query_runtime.nanos == 30_000_000_000
        &&& self.max_trace_restore_runtime.nanos == 25_000_000_000
        &&& self.max_active_series == 500_000
        &&& self.metric_series_idle_timeout.nanos == 600_000_000_000
        &&& self.shutdown_flush_warn_after.nanos == 30_000_000_000
        &&& self.startup_retry_budget.nanos == 300_000_000_000
        &&& self.malloc_trim_interval == Some(Duration { nanos: 60_000_000_000 })
        &&& self.memory_budget_bytes is None
        &&& self.memory_budget_source@ == "off (Config::default)"@
    }
}

impl Default for Config {
    fn default() -> (config: Self)
        ensures
            config.is_default(),
    {
        Config {
            listen_addr: "127.0.0.1:3100".to_owned(),
            otlp_grpc_addr: "127.0.0.1:4317".to_owned(),
            data_dir: "./data".to_owned(),
            missing_tenant: None,
            max_batch_bytes: 1_048_576,
            max_batch_ms: 0,
            max_line_bytes: 262_144,
            max_timestamp_age: Some(Duration { nanos: 604_800_000_000_000 }),
            max_timestamp_skew: Some(Duration { nanos: 3_600_000_000_000 }),
            max_memtable_bytes: Some(268_435_456),
            max_wal_backlog_bytes: Some(1_073_741_824),
            max_inflight_push_bytes: Some(134_217_728),
            wal_compact_min_bytes: Some(67_108_864),
            backpressure_retry_after: Duration { nanos: 1_000_000_000 },
            flush_max_bytes: 1_048_576,
            flush_max_interval: Duration { nanos: 5_000_000_000 },
            flush_check_interval: Duration { nanos: 500_000_000 },
            flush_chunk_bytes: 33_554_432,
            row_group_size: 8_192,
            merge_min_part_count: 4,
            merge_target_part_rows: 1_000_000,
            merge_max_part_rows: 4_000_000,
            merge_max_input_bytes: 536_870_912,
            merge_max_memory_bytes: 1_073_741_824,
            merge_max_groups_per_tick: 16,
            merge_interval: Duration { nanos: 30_000_000_000 },
            object_store_url: None,
            cache_max_bytes: 10_737_418_240,
            cache_eviction_interval: Duration { nanos: 30_000_000_000 },
            retention_interval: Duration { nanos: 300_000_000_000 },
            retention_batch_size: 100,
            retention_grace_period: Duration { nanos: 3_600_000_000_000 },
            max_retention_runtime: Duration { nanos: 120_000_000_000 },
            max_concurrent_queries_per_tenant: 4,
            default_tenant_max_stored_bytes: None,
            min_free_disk_bytes: Some(2_147_483_648),
            log_format: LogFormat::Text,
            disk_sample_interval: Duration { nanos: 10_000_000_000 },
            retention_rewrite_threshold: 0x3fe0_0000_0000_0000,
            max_concurrent_tails: 8,
            tail_poll_interval: Duration { nanos: 1_000_000_000 },
            max_query_range: None,
            max_query_scan_rows: 5_000_000,
            max_query_scan_bytes: 2_147_483_648,
            max_query_memory_bytes: 536_870_912,
            query_memory_budget_bytes: 536_870_912,
            row_group_cache_max_bytes: Some(268_435_456),
            sidecar_cache_max_bytes: None,
            max_log_limit: 100_000,
            max_histogram_buckets: 10_000,
            max_concurrent_query_scans: 8,
            max_query_runtime: Duration { nanos: 30_000_000_000 },
            max_restore_runtime: Duration { nanos: 25_000_000_000 },
            max_trace_spans: 100_000,
            max_trace_search_limit: 1_000,
            max_concurrent_trace_scans: 8,
            max_trace_query_runtime: Duration { nanos: 30_000_000_000 },
            max_trace_restore_runtime: Duration { nanos: 25_000_000_000 },
            max_active_series: 500_000,
            metric_series_idle_timeout: Duration { nanos: 600_000_000_000 },
            shutdown_flush_warn_after: Duration { nanos: 30_000_000_000 },
            startup_retry_budget: Duration { nanos: 300_000_000_000 },
            malloc_trim_interval: Some(Duration { nanos: 60_000_000_000 }),
            memory_budget_bytes: None,
            memory_budget_source: "off (Config::default)".to_owned(),
        }
    }
}

// ------------------------------------------------------------------ validation
#[verifier::opaque]
pub open spec fn positive(name: Seq<char>, value: int) -> Option<Seq<char>> {
    if value == 0 {
        Some("invalid "@ + name + ": value must be greater than zero"@)
    } else {
        None
    }
}

#[verifier::opaque]
pub open spec fn positive_span(name: Seq<char>, value: Duration) -> Option<Seq<char>> {
    if value.nanos == 0 {
        Some("invalid "@ + name + ": duration must be greater than zero"@)
    } else {
        None
    }
}

#[verifier::opaque]
pub open spec fn positive_bytes(name: Seq<char>, value: Option<u64>) -> Option<Seq<char>> {
    match value {
        Some(bytes) => positive(name, bytes as int),
        None => None,
    }
}

#[verifier::opaque]
pub open spec fn positive_limit(name: Seq<char>, value: Option<Duration>) -> Option<Seq<char>> {
    match value {
        Some(span) => positive_span(name, span),
        None => None,
    }
}

/// A problem, if a condition holds.
#[verifier::opaque]
pub open spec fn problem_if(wrong: bool, message: Seq<char>) -> Option<Seq<char>> {
    if wrong {
        Some(message)
    } else {
        None
    }
}

/// A limit that must not be below the flush trigger.
#[verifier::opaque]
pub open spec fn above_flush(name: Seq<char>, limit: Option<u64>, flush: u64) -> Option<Seq<char>> {
    match limit {
        Some(bytes) => problem_if(
            bytes < flush,
            name + " ("@ + crate::text::decimal(bytes as nat)
                + ") must not be below flush_max_bytes ("@ + crate::text::decimal(flush as nat)
                + ")"@,
        ),
        None => None,
    }
}

impl Config {
    /// What is wrong with each knob, in the order in which they are looked at;
    /// `None` where nothing is.
    pub open spec fn problems(&self) -> Seq<Option<Seq<char>>> {
        seq![
            problem_if(
                crate::text::trimmed(self.listen_addr@).len() == 0 || crate::text::trimmed(self.otlp_grpc_addr@).len() == 0,
                "listen and OTLP addresses must not be empty"@,
            ),
            positive("max_batch_bytes"@, self.max_batch_bytes as int),
            positive("max_line_bytes"@, self.max_line_bytes as int),
            positive_limit("max_timestamp_age"@, self.max_timestamp_age),
            positive_limit("max_timestamp_skew"@, self.max_timestamp_skew),
            positive("flush_max_bytes"@, self.flush_max_bytes as int),
            positive_span("flush_max_interval"@, self.flush_max_interval),
            positive_span("backpressure_retry_after"@, self.backpressure_retry_after),
            above_flush("max_memtable_bytes"@, self.max_memtable_bytes, self.flush_max_bytes),
            above_flush("min_free_disk_bytes"@, self.min_free_disk_bytes, self.flush_max_bytes),
            positive_span("disk_sample_interval"@, self.disk_sample_interval),
            positive_span("flush_check_interval"@, self.flush_check_interval),
            positive_bytes("wal_compact_min_bytes"@, self.wal_compact_min_bytes),
            problem_if(
                self.flush_chunk_bytes < MIB,
                "flush_chunk_bytes ("@ + crate::text::decimal(self.flush_chunk_bytes as nat)
                    + ") must be at least 1 MiB"@,
            ),
            positive("row_group_size"@, self.row_group_size as int),
            problem_if(
                self.row_group_size > 65_536,
                "row_group_size must not exceed 65536"@,
            ),
            problem_if(
                self.merge_min_part_count < 2,
                "merge_min_part_count must be at least 2"@,
            ),
            positive("merge_target_part_rows"@, self.merge_target_part_rows as int),
            positive("merge_max_part_rows"@, self.merge_max_part_rows as int),
            problem_if(
                self.merge_target_part_rows > self.merge_max_part_rows,
                "merge_target_part_rows must not exceed merge_max_part_rows"@,
            ),
            positive("merge_max_input_bytes"@, self.merge_max_input_bytes as int),
            positive("merge_max_memory_bytes"@, self.merge_max_memory_bytes as int),
            problem_if(
                self.merge_max_input_bytes > self.merge_max_memory_bytes,
                "merge_max_input_bytes ("@ + crate::text::decimal(self.merge_max_input_bytes as nat)
                    + ") must not exceed merge_max_memory_bytes ("@ + crate::text::decimal(
                    self.merge_max_memory_bytes as nat,
                ) + "): a group selected above the read budget can never be merged"@,
            ),
            positive("merge_max_groups_per_tick"@, self.merge_max_groups_per_tick as int),
            positive_span("merge_interval"@, self.merge_interval),
            positive("cache_max_bytes"@, self.cache_max_bytes as int),
            positive_span("cache_eviction_interval"@, self.cache_eviction_interval),
            positive_span("retention_interval"@, self.retention_interval),
            positive("retention_batch_size"@, self.retention_batch_size as int),
            positive_span("retention_grace_period"@, self.retention_grace_period),
            positive_span("max_retention_runtime"@, self.max_retention_runtime),
            problem_if(
                self.retention_rewrite_threshold == 0 || self.retention_rewrite_threshold > ONE_BITS,
                "invalid retention_rewrite_threshold: expected a fraction in (0, 1]"@,
            ),
            positive_limit("max_query_range"@, self.max_query_range),
            positive("max_query_scan_rows"@, self.max_query_scan_rows as int),
            positive("max_query_scan_bytes"@, self.max_query_scan_bytes as int),
            positive("max_query_memory_bytes"@, self.max_query_memory_bytes as int),
            positive("query_memory_budget_bytes"@, self.query_memory_budget_bytes as int),
            positive_bytes("row_group_cache_max_bytes"@, self.row_group_cache_max_bytes),
            positive_bytes("sidecar_cache_max_bytes"@, self.sidecar_cache_max_bytes),
            problem_if(
                self.query_memory_budget_bytes < RESERVATION_CHUNK_BYTES,
                "query_memory_budget_bytes ("@ + crate::text::decimal(
                    self.query_memory_budget_bytes as nat,
                ) + ") must be at least one reservation chunk ("@ + crate::text::decimal(
                    RESERVATION_CHUNK_BYTES as nat,
                ) + ")"@,
            ),
            positive("max_log_limit"@, self.max_log_limit as int),
            positive("max_histogram_buckets"@, self.max_histogram_buckets as int),
            positive("max_concurrent_query_scans"@, self.max_concurrent_query_scans as int),
            positive_span("max_query_runtime"@, self.max_query_runtime),
            positive_span("max_restore_runtime"@, self.max_restore_runtime),
            positive("max_trace_spans"@, self.max_trace_spans as int),
            positive("max_trace_search_limit"@, self.max_trace_search_limit as int),
            positive("max_concurrent_trace_scans"@, self.max_concurrent_trace_scans as int),
            positive_span("max_trace_query_runtime"@, self.max_trace_query_runtime),
            positive_span("max_trace_restore_runtime"@, self.max_trace_restore_runtime),
            positive("max_active_series"@, self.max_active_series as int),
            positive_span("metric_series_idle_timeout"@, self.metric_series_idle_timeout),
            positive_span("shutdown_flush_warn_after"@, self.shutdown_flush_warn_after),
        ]
    }

    /// Refuses a configuration that cannot work, with the first problem.
    #[verifier::rlimit(60)]
    pub fn validate(&self) -> (out: Result<(), String>)
        ensures
            match out {
                Ok(_) => first_failure(self.problems()) is None,
                Err(message) => first_failure(self.problems()) == Some(message@),
            },
    {
        let mut checks = Checks::new();
        let blank = is_blank(self.listen_addr.as_str()) || is_blank(self.otlp_grpc_addr.as_str());
        checks.refuse_if(blank, "listen and OTLP addresses must not be empty");
        checks.positive("max_batch_bytes", self.max_batch_bytes as u64);
        checks.positive("max_line_bytes", self.max_line_bytes as u64);
        checks.positive_limit("max_timestamp_age", self.max_timestamp_age);
        checks.positive_limit("max_timestamp_skew", self.max_timestamp_skew);
        checks.positive("flush_max_bytes", self.flush_max_bytes);
        checks.positive_span("flush_max_interval", self.flush_max_interval);
        checks.positive_span("backpressure_retry_after", self.backpressure_retry_after);
        checks.above_flush("max_memtable_bytes", self.max_memtable_bytes, self.flush_max_bytes);
        checks.above_flush("min_free_disk_bytes", self.min_free_disk_bytes, self.flush_max_bytes);
        checks.positive_span("disk_sample_interval", self.disk_sample_interval);
        checks.positive_span("flush_check_interval", self.flush_check_interval);
        checks.positive_bytes("wal_compact_min_bytes", self.wal_compact_min_bytes);
        checks.note(self.chunk_problem());
        checks.positive("row_group_size", self.row_group_size as u64);
        checks.refuse_if(
            self.row_group_size > 65_536,
            "row_group_size must not exceed 65536",
        );
        checks.refuse_if(
            self.merge_min_part_count < 2,
            "merge_min_part_count must be at least 2",
        );
        checks.positive("merge_target_part_rows", self.merge_target_part_rows);
        checks.positive("merge_max_part_rows", self.merge_max_part_rows);
        checks.refuse_if(
            self.merge_target_part_rows > self.merge_max_part_rows,
            "merge_target_part_rows must not exceed merge_max_part_rows",
        );
        checks.positive("merge_max_input_bytes", self.merge_max_input_bytes);
        checks.positive("merge_max_memory_bytes", self.merge_max_memory_bytes);
        checks.note(self.merge_problem());
        checks.positive("merge_max_groups_per_tick", self.merge_max_groups_per_tick as u64);
        checks.positive_span("merge_interval", self.merge_interval);
        checks.positive("cache_max_bytes", self.cache_max_bytes);
        checks.positive_span("cache_eviction_interval", self.cache_eviction_interval);
        checks.positive_span("retention_interval", self.retention_interval);
        checks.positive("retention_batch_size", self.retention_batch_size as u64);
        checks.positive_span("retention_grace_period", self.retention_grace_period);
        checks.positive_span("max_retention_runtime", self.max_retention_runtime);
        checks.refuse_if(
            self.retention_rewrite_threshold == 0 || self.retention_rewrite_threshold > ONE_BITS,
            "invalid retention_rewrite_threshold: expected a fraction in (0, 1]",
        );
        checks.positive_limit("max_query_range", self.max_query_range);
        checks.positive("max_query_scan_rows", self.max_query_scan_rows as u64);
        checks.positive("max_query_scan_bytes", self.max_query_scan_bytes);
        checks.positive("max_query_memory_bytes", self.max_query_memory_bytes);
        checks.positive("query_memory_budget_bytes", self.query_memory_budget_bytes);
        checks.positive_bytes("row_group_cache_max_bytes", self.row_group_cache_max_bytes);
        checks.positive_bytes("sidecar_cache_max_bytes", self.sidecar_cache_max_bytes);
        checks.note(self.pool_problem());
        checks.positive("max_log_limit", self.max_log_limit as u64);
        checks.positive("max_histogram_buckets", self.max_histogram_buckets as u64);
        checks.positive("max_concurrent_query_scans", self.max_concurrent_query_scans as u64);
        checks.positive_span("max_query_runtime", self.max_query_runtime);
        checks.positive_span("max_restore_runtime", self.max_restore_runtime);
        checks.positive("max_trace_spans", self.max_trace_spans as u64);
        checks.positive("max_trace_search_limit", self.max_trace_search_limit as u64);
        checks.positive("max_concurrent_trace_scans", self.max_concurrent_trace_scans as u64);
        checks.positive_span("max_trace_query_runtime", self.max_trace_query_runtime);
        checks.positive_span("max_trace_restore_runtime", self.max_trace_restore_runtime);
        checks.positive("max_active_series", self.max_active_series as u64);
        checks.positive_span("metric_series_idle_timeout", self.metric_series_idle_timeout);
        checks.positive_span("shutdown_flush_warn_after", self.shutdown_flush_warn_after);
        assert(checks.outcomes() =~= self.problems());
        checks.into_result()
    }

    fn chunk_problem(&self) -> (out: Option<String>)
        ensures
            crate::checks::shown(out) == problem_if(
                self.flush_chunk_bytes < MIB,
                "flush_chunk_bytes ("@ + crate::text::decimal(self.flush_chunk_bytes as nat)
                    + ") must be at least 1 MiB"@,
            ),
    {
        reveal(problem_if);
        if self.flush_chunk_bytes < MIB {
            let mut message = "flush_chunk_bytes (".to_owned();
            push_decimal(&mut message, self.flush_chunk_bytes);
            message.append(") must be at least 1 MiB");
            Some(message)
        } else {
            None
        }
    }

    fn merge_problem(&self) -> (out: Option<String>)
        ensures
            crate::checks::shown(out) == problem_if(
                self.merge_max_input_bytes > self.merge_max_memory_bytes,
                "merge_max_input_bytes ("@ + crate::text::decimal(self.merge_max_input_bytes as nat)
                    + ") must not exceed merge_max_memory_bytes ("@ + crate::text::decimal(
                    self.merge_max_memory_bytes as nat,
                ) + "): a group selected above the read budget can never be merged"@,
            ),
    {
        reveal(problem_if);
        if self.merge_max_input_bytes > self.merge_max_memory_bytes {
            let mut message = "merge_max_input_bytes (".to_owned();
            push_decimal(&mut message, self.merge_max_input_bytes);
            message.append(") must not exceed merge_max_memory_bytes (");
            push_decimal(&mut message, self.merge_max_memory_bytes);
            message.append("): a group selected above the read budget can never be merged");
            Some(message)
        } else {
            None
        }
    }

    fn pool_problem(&self) -> (out: Option<String>)
        ensures
            crate::checks::shown(out) == problem_if(
                self.query_memory_budget_bytes < RESERVATION_CHUNK_BYTES,
                "query_memory_budget_bytes ("@ + crate::text::decimal(
                    self.query_memory_budget_bytes as nat,
                ) + ") must be at least one reservation chunk ("@ + crate::text::decimal(
                    RESERVATION_CHUNK_BYTES as nat,
                ) + ")"@,
            ),
    {
        reveal(problem_if);
        if self.query_memory_budget_bytes < RESERVATION_CHUNK_BYTES {
            let mut message = "query_memory_budget_bytes (".to_owned();
            push_decimal(&mut message, self.query_memory_budget_bytes);
            message.append(") must be at least one reservation chunk (");
            push_decimal(&mut message, RESERVATION_CHUNK_BYTES);
            message.append(")");
            Some(message)
        } else {
            None
        }
    }
}

fn is_blank(text: &str) -> (blank: bool)
    ensures
        blank == (crate::text::trimmed(text@).len() == 0),
{
    let chars = chars_of(text);
    let bare = trim(chars.as_slice());
    bare.len() == 0
}

impl Config {
    /// The most this configuration can have materialised at once: the shared
    /// query pool and one merge.
    pub fn peak_materialized_bytes(&self) -> (bytes: u64)
        ensures
            bytes == if self.query_memory_budget_bytes + self.merge_max_memory_bytes <= u64::MAX {
                self.query_memory_budget_bytes + self.merge_max_memory_bytes
            } else {
                u64::MAX as int
            },
    {
        self.query_memory_budget_bytes.saturating_add(self.merge_max_memory_bytes)
    }
}

// --------------------------------------------------------------- memory budget
/// What this process is allowed to use, and where that was read.
#[derive(Clone, Copy, Debug, PartialEq, Eq)]
pub struct HostMemory {
    pub limit_bytes: Option<u64>,
    pub source: &'static str,
}

impl HostMemory {
    /// The cgroup's limit where there is one, else the machine's memory.
    pub fn detect(cgroup_max: Option<u64>, total: Option<u64>) -> (host: Self)
        ensures
            cgroup_max is Some ==> host.limit_bytes == cgroup_max && host.source@
                == "cgroup v2 memory.max"@,
            cgroup_max is None && total is Some ==> host.limit_bytes == total && host.source@
                == "/proc/meminfo MemTotal"@,
            cgroup_max is None && total is None ==> host.limit_bytes is None && host.source@
                == "undetected"@,
    {
        if cgroup_max.is_some() {
            return HostMemory { limit_bytes: cgroup_max, source: "cgroup v2 memory.max" };
        }
        if total.is_some() {
            return HostMemory { limit_bytes: total, source: "/proc/meminfo MemTotal" };
        }
        HostMemory { limit_bytes: None, source: "undetected" }
    }
}

/// Text without the slashes in front of it.
pub open spec fn without_slashes(path: Seq<char>) -> Seq<char>
    decreases path.len(),
{
    if path.len() > 0 && path[0] == '/' {
        without_slashes(path.drop_first())
    } else {
        path
    }
}

/// Where a process stands in the cgroup tree, out of its `/proc/self/cgroup`.
pub fn cgroup_relative_path(own: &str) -> (out: Option<String>)
    ensures
        match out {
            Some(path) => crate::text::field_of(crate::text::lines(own@), "0::"@) is Some && path@
                == without_slashes(
                crate::text::field_of(crate::text::lines(own@), "0::"@)->0,
            ),
            None => crate::text::field_of(crate::text::lines(own@), "0::"@) is None,
        },
{
    match find_field(own, "0::") {
        None => None,
        Some(path) => {
            let mut start: usize = 0;
            assert(path@.subrange(0, path@.len() as int) =~= path@);
            while start < path.len() && path[start] == '/'
                invariant
                    start <= path@.len(),
                    without_slashes(path@) == without_slashes(
                        path@.subrange(start as int, path@.len() as int),
                    ),
                decreases path.len() - start,
            {
                assert(path@.subrange(start as int, path@.len() as int).drop_first()
                    =~= path@.subrange(start + 1, path@.len() as int));
                start = start + 1;
            }
            let rest = crate::text::subslice(path.as_slice(), start, path.len());
            Some(text_of(rest.as_slice()))
        },
    }
}

/// A cgroup's `memory.max`: a number, or nothing where it reads `max`.
pub fn parse_memory_max(text: &str) -> (out: Option<u64>)
    ensures
        match out {
            Some(limit) => crate::text::parsed_unsigned(
                crate::text::trimmed(text@),
                u64::MAX as nat,
            ) == Some(limit as nat),
            None => crate::text::parsed_unsigned(
                crate::text::trimmed(text@),
                u64::MAX as nat,
            ) is None,
        },
{
    let chars = chars_of(text);
    let bare = trim(chars.as_slice());
    parse_unsigned(bare.as_slice(), u64::MAX)
}

/// The kibibytes that `/proc/meminfo` gives as the total, if it does.
pub open spec fn meminfo_kib(text: Seq<char>) -> Option<nat> {
    match crate::text::field_of(crate::text::lines(text), "MemTotal:"@) {
        Some(value) => crate::text::parsed_unsigned(
            crate::text::first_word(value),
            u64::MAX as nat,
        ),
        None => None,
    }
}

/// The machine's memory in bytes, out of its `/proc/meminfo`.
pub fn meminfo_total_bytes(text: &str) -> (out: Option<u64>)
    ensures
        match out {
            Some(bytes) => meminfo_kib(text@) is Some && bytes == meminfo_kib(text@)->0 * 1024,
            None => meminfo_kib(text@) is None || meminfo_kib(text@)->0 * 1024 > u64::MAX,
        },
{
    match find_field(text, "MemTotal:") {
        None => None,
        Some(value) => {
            let first = word(value.as_slice());
            match parse_unsigned(first.as_slice(), u64::MAX) {
                None => None,
                Some(kib) => kib.checked_mul(1024),
            }
        },
    }
}

/// What the memory budget is, and where it came from: the knob's bytes, nothing
/// where the knob says `off`, and without a knob a share of what was detected.
pub open spec fn budget_of(
    knob: Option<Seq<char>>,
    limit: Option<u64>,
    source: Seq<char>,
) -> Result<(Option<u64>, Seq<char>), Seq<char>> {
    match knob {
        Some(raw) => {
            let value = crate::text::trimmed(raw);
            if value.len() == 0 || crate::text::ascii_lowered(value) == "off"@ {
                Ok((None, "off (LOGGYTRACY_MEMORY_BUDGET)"@))
            } else {
                match crate::text::parsed_unsigned(value, u64::MAX as nat) {
                    None => Err(
                        "invalid LOGGYTRACY_MEMORY_BUDGET "@ + crate::text::quoted(value) + ": "@
                            + crate::env::u64_error(value),
                    ),
                    Some(bytes) => if bytes == 0 {
                        Err("LOGGYTRACY_MEMORY_BUDGET must be positive, or `off`"@)
                    } else {
                        Ok((Some(bytes as u64), "LOGGYTRACY_MEMORY_BUDGET"@))
                    },
                }
            }
        },
        None => match limit {
            Some(bytes) => Ok(
                (
                    Some((bytes * 60 / 100) as u64),
                    crate::text::decimal(60) + "% of "@ + crate::text::decimal(bytes as nat) + " ("@
                        + source + ")"@,
                ),
            ),
            None => Ok((None, source)),
        },
    }
}

/// The memory budget, and where it came from.
pub fn resolve_memory_budget(env_value: Option<&str>, detected: HostMemory) -> (out: Result<
    (Option<u64>, String),
    String,
>)
    requires
        env_value is None ==> (detected.limit_bytes matches Some(limit) ==> limit
            * MEMORY_BUDGET_FRACTION_PERCENT <= u64::MAX),
    ensures
        ({
            let knob = match env_value {
                Some(raw) => Some(raw@),
                None => None,
            };
            let expected = budget_of(knob, detected.limit_bytes, detected.source@);
            match out {
                Ok((bytes, source)) => expected == Ok::<(Option<u64>, Seq<char>), Seq<char>>(
                    (bytes, source@),
                ),
                Err(message) => expected == Err::<(Option<u64>, Seq<char>), Seq<char>>(message@),
            }
        }),
{
    match env_value {
        Some(raw) => {
            let chars = chars_of(raw);
            let value = trim(chars.as_slice());
            let lower = lower_ascii(value.as_slice());
            if value.len() == 0 || is_word(lower.as_slice(), "off") {
                return Ok((None, "off (LOGGYTRACY_MEMORY_BUDGET)".to_owned()));
            }
            match parse_unsigned(value.as_slice(), u64::MAX) {
                None => {
                    let shown = text_of(value.as_slice());
                    let mut message = "invalid LOGGYTRACY_MEMORY_BUDGET ".to_owned();
                    message.append(quote(shown.as_str()).as_str());
                    message.append(": ");
                    message.append(crate::env::u64_parse_error(shown.as_str()).as_str());
                    Err(message)
                },
                Some(bytes) => {
                    if bytes == 0 {
                        return Err("LOGGYTRACY_MEMORY_BUDGET must be positive, or `off`".to_owned());
                    }
                    Ok((Some(bytes), "LOGGYTRACY_MEMORY_BUDGET".to_owned()))
                },
            }
        },
        None => match detected.limit_bytes {
            Some(limit) => {
                let mut source = String::new();
                push_decimal(&mut source, MEMORY_BUDGET_FRACTION_PERCENT);
                source.append("% of ");
                push_decimal(&mut source, limit);
                source.append(" (");
                source.append(detected.source);
                source.append(")");
                assert(source@ =~= crate::text::decimal(60) + "% of "@ + crate::text::decimal(
                    limit as nat,
                ) + " ("@ + detected.source@ + ")"@);
                Ok((Some(limit * MEMORY_BUDGET_FRACTION_PERCENT / 100), source))
            },
            None => Ok((None, detected.source.to_owned())),
        },
    }
}

pub open spec fn larger(a: int, b: int) -> int {
    if a < b {
        b
    } else {
        a
    }
}

fn at_least(value: u64, floor: u64) -> (out: u64)
    ensures
        out == larger(value as int, floor as int),
{
    if value < floor {
        floor
    } else {
        value
    }
}

/// `before` with the ceilings that a memory budget gives.
pub open spec fn budgeted(before: Config, budget: u64) -> Config {
    let merge = larger(budget as int / 4, 64 * MIB) as u64;
    let pool = larger(budget as int / 4, RESERVATION_CHUNK_BYTES as int) as u64;
    (Config {
        merge_max_memory_bytes: merge,
        merge_max_input_bytes: larger(merge as int / 2, 32 * MIB) as u64,
        query_memory_budget_bytes: pool,
        max_query_memory_bytes: pool,
        row_group_cache_max_bytes: Some(larger(budget as int / 8, 16 * MIB) as u64),
        sidecar_cache_max_bytes: Some(larger(budget as int / 10, 32 * MIB) as u64),
        max_memtable_bytes: Some(larger(budget as int / 10, 32 * MIB) as u64),
        max_inflight_push_bytes: Some(
            larger(budget as int / 20, MAX_OTLP_REQUEST_BYTES as int) as u64,
        ),
        ..before
    })
}

/// Sets the ceilings that a memory budget gives, each with a floor that a
/// running engine can live with. Nothing else changes.
pub fn derive_defaults_from_budget(defaults: &mut Config, budget_bytes: u64)
    ensures
        *final(defaults) == budgeted(*old(defaults), budget_bytes),
{
    let merge: u64 = at_least(budget_bytes / 4, 64 * MIB);
    defaults.merge_max_memory_bytes = merge;
    defaults.merge_max_input_bytes = at_least(merge / 2, 32 * MIB);
    let pool: u64 = at_least(budget_bytes / 4, RESERVATION_CHUNK_BYTES);
    defaults.query_memory_budget_bytes = pool;
    defaults.max_query_memory_bytes = pool;
    defaults.row_group_cache_max_bytes = Some(at_least(budget_bytes / 8, 16 * MIB));
    defaults.sidecar_cache_max_bytes = Some(at_least(budget_bytes / 10, 32 * MIB));
    defaults.max_memtable_bytes = Some(at_least(budget_bytes / 10, 32 * MIB));
    defaults.max_inflight_push_bytes = Some(
        at_least(budget_bytes / 20, MAX_OTLP_REQUEST_BYTES as u64),
    );
}

// ------------------------------------------------------------------------ laws
proof fn default_addresses_are_not_blank(config: Config)
    requires
        config.is_default(),
    ensures
        crate::text::trimmed(config.listen_addr@).len() > 0,
        crate::text::trimmed(config.otlp_grpc_addr@).len() > 0,
{
    reveal_strlit("127.0.0.1:3100");
    reveal_strlit("127.0.0.1:4317");
}

/// The defaults are a configuration that works.
pub proof fn defaults_validate(config: Config)
    requires
        config.is_default(),
    ensures
        first_failure(config.problems()) is None,
{
    default_addresses_are_not_blank(config);
    reveal(positive);
    reveal(positive_span);
    reveal(positive_bytes);
    reveal(positive_limit);
    reveal(problem_if);
    reveal(above_flush);
    crate::checks::none_fails(config.problems());
}

/// Whatever the budget, the ceilings derived from it work.
pub proof fn every_budget_validates(config: Config, budget: u64)
    requires
        config.is_default(),
    ensures
        first_failure(budgeted(config, budget).problems()) is None,
{
    default_addresses_are_not_blank(config);
    reveal(positive);
    reveal(positive_span);
    reveal(positive_bytes);
    reveal(positive_limit);
    reveal(problem_if);
    reveal(above_flush);
    crate::checks::none_fails(budgeted(config, budget).problems());
}


} // verus!
