//! What the configuration promises: what each variable sets, which configurations are
//! refused, and what a memory budget gives.

use vstd::prelude::*;
use vstd::string::*;
use vstd::utf8::*;

use crate::checks::{first_failure, none_fails};
use crate::config::{
    above_flush, budget_of, budgeted, log_format_of, meminfo_kib, positive, positive_bytes,
    positive_limit, positive_span, problem_if, without_slashes, Config, LogFormat,
};
use crate::env::{
    duration_of, duration_problem, duration_value, format_problem, lookup, optional_problem,
    optional_value, positive_u64_problem, positive_usize_problem, read_problems, reads_as,
    required_duration_problem, required_duration_value, tenant_knob_problem, threshold_of,
    threshold_problem, u64_problem, u64_value, usize_value,
};
use crate::text::{
    ascii_lowered, decimal, decimal_reads_back, field_of, is_digit, is_space, lines,
    parsed_unsigned, trimmed, trimmed_start,
};
use crate::text_laws::until_the_space;
use crate::time::Duration;

verus! {

// ------------------------------------------------------------------ variables
/// A variable has a value exactly if it is set, and it is the value of the first variable
/// of its name.
pub proof fn the_first_variable_of_a_name_counts(vars: Seq<(String, String)>, name: Seq<char>)
    ensures
        lookup(vars, name) is None <==> forall|i: int|
            0 <= i < vars.len() ==> (#[trigger] vars[i]).0@ != name,
        lookup(vars, name) is Some ==> exists|i: int|
            {
                &&& 0 <= i < vars.len()
                &&& (#[trigger] vars[i]).0@ == name
                &&& vars[i].1@ == lookup(vars, name)->Some_0
                &&& forall|j: int| 0 <= j < i ==> (#[trigger] vars[j]).0@ != name
            },
    decreases vars.len(),
{
    if vars.len() > 0 {
        let rest = vars.drop_first();
        the_first_variable_of_a_name_counts(rest, name);
        assert forall|i: int| 0 <= i < rest.len() implies #[trigger] rest[i] == vars[i + 1] by {}
        if vars[0].0@ == name {
            assert(vars[0].1@ == lookup(vars, name)->Some_0);
        } else if lookup(rest, name) is Some {
            let i = choose|i: int|
                {
                    &&& 0 <= i < rest.len()
                    &&& (#[trigger] rest[i]).0@ == name
                    &&& rest[i].1@ == lookup(rest, name)->Some_0
                    &&& forall|j: int| 0 <= j < i ==> (#[trigger] rest[j]).0@ != name
                };
            assert(vars[i + 1].0@ == name);
            assert forall|j: int| 0 <= j < i + 1 implies (#[trigger] vars[j]).0@ != name by {
                if j > 0 {
                    assert(rest[j - 1] == vars[j]);
                }
            }
        } else {
            assert forall|i: int| 0 <= i < vars.len() implies (#[trigger] vars[i]).0@ != name by {
                if i > 0 {
                    assert(rest[i - 1] == vars[i]);
                }
            }
        }
    }
}

proof fn printed_number(n: nat)
    ensures
        n <= u64::MAX ==> parsed_unsigned(decimal(n), u64::MAX as nat) == Some(n),
        n <= usize::MAX ==> parsed_unsigned(decimal(n), usize::MAX as nat) == Some(n),
        trimmed(decimal(n)) == decimal(n),
        decimal(n).len() > 0,
        is_digit(decimal(n)[0]),
        is_digit(decimal(n).last()),
        ascii_lowered(decimal(n)) != "off"@,
        ascii_lowered(decimal(n)) != "none"@,
{
    decimal_reads_back(n);
    let text = decimal(n);
    assert(is_digit(text[0]));
    assert(is_digit(text[text.len() - 1]));
    reveal_strlit("off");
    reveal_strlit("none");
    assert(ascii_lowered(text)[0] == text[0]);
    assert("off"@[0] == 'o' && "none"@[0] == 'n');
}

/// A number with a unit behind it is read as a duration of that length: milliseconds,
/// seconds, minutes, hours or days.
pub proof fn a_number_with_a_unit_is_that_long(name: Seq<char>, n: nat)
    ensures
        n * 1_000_000 <= u64::MAX ==> duration_of(name, decimal(n) + seq!['m', 's']) == Ok::<
            Option<Duration>,
            Seq<char>,
        >(Some(Duration { nanos: (n * 1_000_000) as u64 })),
        n * 1_000_000_000 <= u64::MAX ==> duration_of(name, decimal(n).push('s')) == Ok::<
            Option<Duration>,
            Seq<char>,
        >(Some(Duration { nanos: (n * 1_000_000_000) as u64 })),
        n * 60_000_000_000 <= u64::MAX ==> duration_of(name, decimal(n).push('m')) == Ok::<
            Option<Duration>,
            Seq<char>,
        >(Some(Duration { nanos: (n * 60_000_000_000) as u64 })),
        n * 3_600_000_000_000 <= u64::MAX ==> duration_of(name, decimal(n).push('h')) == Ok::<
            Option<Duration>,
            Seq<char>,
        >(Some(Duration { nanos: (n * 3_600_000_000_000) as u64 })),
        n * 86_400_000_000_000 <= u64::MAX ==> duration_of(name, decimal(n).push('d')) == Ok::<
            Option<Duration>,
            Seq<char>,
        >(Some(Duration { nanos: (n * 86_400_000_000_000) as u64 })),
        n * 1_000_000_000 > u64::MAX ==> duration_of(name, decimal(n).push('s')) is Err,
        duration_of(name, decimal(n)) is Err,
{
    printed_number(n);
    decimal_reads_back(n);
    reveal_strlit("off");
    reveal_strlit("none");
    reveal_strlit("ms");
    let digits = decimal(n);
    let millis = digits + seq!['m', 's'];
    assert(millis.skip(millis.len() - 2) =~= "ms"@);
    assert(millis.take(millis.len() - 2) =~= digits);
    assert(ascii_lowered(millis)[0] == digits[0]);
    assert("off"@[0] == 'o' && "none"@[0] == 'n');
    one_letter_unit(digits, 's');
    one_letter_unit(digits, 'm');
    one_letter_unit(digits, 'h');
    one_letter_unit(digits, 'd');
    if digits.len() >= 2 {
        assert(digits.skip(digits.len() - 2)[1] == digits.last());
        assert("ms"@[1] == 's');
    }
}

proof fn one_letter_unit(digits: Seq<char>, unit: char)
    requires
        digits.len() > 0,
        is_digit(digits[0]),
        is_digit(digits.last()),
        unit == 's' || unit == 'm' || unit == 'h' || unit == 'd',
    ensures
        ({
            let text = digits.push(unit);
            &&& trimmed(text) == text
            &&& text.drop_last() == digits
            &&& text.skip(text.len() - 2) != "ms"@
            &&& ascii_lowered(text) != "off"@
            &&& ascii_lowered(text) != "none"@
        }),
{
    let text = digits.push(unit);
    reveal_strlit("off");
    reveal_strlit("none");
    reveal_strlit("ms");
    assert(text.drop_last() =~= digits);
    assert(text.skip(text.len() - 2)[0] == digits.last());
    assert("ms"@[0] == 'm');
    assert(ascii_lowered(text)[0] == digits[0]);
    assert("off"@[0] == 'o' && "none"@[0] == 'n');
}

/// A byte threshold that is a positive number is that many bytes, and zero is refused.
pub proof fn a_threshold_is_its_number(name: Seq<char>, n: nat)
    requires
        n <= u64::MAX,
    ensures
        n > 0 ==> threshold_of(name, decimal(n)) == Ok::<Option<u64>, Seq<char>>(Some(n as u64)),
        n == 0 ==> threshold_of(name, decimal(n)) is Err,
{
    printed_number(n);
}

/// Each number of a configuration is the one that its own variable holds, and its default
/// where that is not set.
pub proof fn each_number_is_read_from_its_own_variable(
    c: Config,
    d: Config,
    vars: Seq<(String, String)>,
    threshold: Option<Result<u64, String>>,
    n: nat,
)
    requires
        reads_as(c, d, vars, threshold),
        n <= usize::MAX && n <= u64::MAX,
    ensures
        lookup(vars, "LOGGYTRACY_MAX_BATCH_BYTES"@) == Some(decimal(n)) ==> c.max_batch_bytes == n,
        lookup(vars, "LOGGYTRACY_MAX_BATCH_BYTES"@) is None ==> c.max_batch_bytes == d.max_batch_bytes,
        lookup(vars, "LOGGYTRACY_MAX_BATCH_MS"@) == Some(decimal(n)) ==> c.max_batch_ms == n,
        lookup(vars, "LOGGYTRACY_MAX_BATCH_MS"@) is None ==> c.max_batch_ms == d.max_batch_ms,
        lookup(vars, "LOGGYTRACY_MAX_LINE_BYTES"@) == Some(decimal(n)) ==> c.max_line_bytes == n,
        lookup(vars, "LOGGYTRACY_MAX_LINE_BYTES"@) is None ==> c.max_line_bytes == d.max_line_bytes,
        lookup(vars, "LOGGYTRACY_FLUSH_MAX_BYTES"@) == Some(decimal(n)) ==> c.flush_max_bytes == n,
        lookup(vars, "LOGGYTRACY_FLUSH_MAX_BYTES"@) is None ==> c.flush_max_bytes == d.flush_max_bytes,
        lookup(vars, "LOGGYTRACY_FLUSH_CHUNK_BYTES"@) == Some(decimal(n)) ==> c.flush_chunk_bytes == n,
        lookup(vars, "LOGGYTRACY_FLUSH_CHUNK_BYTES"@) is None ==> c.flush_chunk_bytes == d.flush_chunk_bytes,
        lookup(vars, "LOGGYTRACY_ROW_GROUP_SIZE"@) == Some(decimal(n)) ==> c.row_group_size == n,
        lookup(vars, "LOGGYTRACY_ROW_GROUP_SIZE"@) is None ==> c.row_group_size == d.row_group_size,
        lookup(vars, "LOGGYTRACY_MERGE_MIN_PART_COUNT"@) == Some(decimal(n)) ==> c.merge_min_part_count == n,
        lookup(vars, "LOGGYTRACY_MERGE_MIN_PART_COUNT"@) is None ==> c.merge_min_part_count == d.merge_min_part_count,
        lookup(vars, "LOGGYTRACY_MERGE_TARGET_PART_ROWS"@) == Some(decimal(n)) ==> c.merge_target_part_rows == n,
        lookup(vars, "LOGGYTRACY_MERGE_TARGET_PART_ROWS"@) is None ==> c.merge_target_part_rows == d.merge_target_part_rows,
        lookup(vars, "LOGGYTRACY_MERGE_MAX_PART_ROWS"@) == Some(decimal(n)) ==> c.merge_max_part_rows == n,
        lookup(vars, "LOGGYTRACY_MERGE_MAX_PART_ROWS"@) is None ==> c.merge_max_part_rows == d.merge_max_part_rows,
        lookup(vars, "LOGGYTRACY_MERGE_MAX_INPUT_BYTES"@) == Some(decimal(n)) ==> c.merge_max_input_bytes == n,
        lookup(vars, "LOGGYTRACY_MERGE_MAX_INPUT_BYTES"@) is None ==> c.merge_max_input_bytes == d.merge_max_input_bytes,
        lookup(vars, "LOGGYTRACY_MERGE_MAX_MEMORY_BYTES"@) == Some(decimal(n)) ==> c.merge_max_memory_bytes == n,
        lookup(vars, "LOGGYTRACY_MERGE_MAX_MEMORY_BYTES"@) is None ==> c.merge_max_memory_bytes == d.merge_max_memory_bytes,
        lookup(vars, "LOGGYTRACY_MERGE_MAX_GROUPS_PER_TICK"@) == Some(decimal(n)) ==> c.merge_max_groups_per_tick == n,
        lookup(vars, "LOGGYTRACY_MERGE_MAX_GROUPS_PER_TICK"@) is None ==> c.merge_max_groups_per_tick == d.merge_max_groups_per_tick,
        lookup(vars, "LOGGYTRACY_CACHE_MAX_BYTES"@) == Some(decimal(n)) ==> c.cache_max_bytes == n,
        lookup(vars, "LOGGYTRACY_CACHE_MAX_BYTES"@) is None ==> c.cache_max_bytes == d.cache_max_bytes,
        lookup(vars, "LOGGYTRACY_RETENTION_BATCH_SIZE"@) == Some(decimal(n)) ==> c.retention_batch_size == n,
        lookup(vars, "LOGGYTRACY_RETENTION_BATCH_SIZE"@) is None ==> c.retention_batch_size == d.retention_batch_size,
        lookup(vars, "LOGGYTRACY_MAX_CONCURRENT_QUERIES_PER_TENANT"@) == Some(decimal(n)) ==> c.max_concurrent_queries_per_tenant == n,
        lookup(vars, "LOGGYTRACY_MAX_CONCURRENT_QUERIES_PER_TENANT"@) is None ==> c.max_concurrent_queries_per_tenant == d.max_concurrent_queries_per_tenant,
        lookup(vars, "LOGGYTRACY_MAX_CONCURRENT_TAILS"@) == Some(decimal(n)) ==> c.max_concurrent_tails == n,
        lookup(vars, "LOGGYTRACY_MAX_CONCURRENT_TAILS"@) is None ==> c.max_concurrent_tails == d.max_concurrent_tails,
        lookup(vars, "LOGGYTRACY_MAX_QUERY_SCAN_ROWS"@) == Some(decimal(n)) ==> c.max_query_scan_rows == n,
        lookup(vars, "LOGGYTRACY_MAX_QUERY_SCAN_ROWS"@) is None ==> c.max_query_scan_rows == d.max_query_scan_rows,
        lookup(vars, "LOGGYTRACY_MAX_QUERY_SCAN_BYTES"@) == Some(decimal(n)) ==> c.max_query_scan_bytes == n,
        lookup(vars, "LOGGYTRACY_MAX_QUERY_SCAN_BYTES"@) is None ==> c.max_query_scan_bytes == d.max_query_scan_bytes,
        lookup(vars, "LOGGYTRACY_QUERY_MEMORY_BUDGET_BYTES"@) == Some(decimal(n)) ==> c.query_memory_budget_bytes == n,
        lookup(vars, "LOGGYTRACY_QUERY_MEMORY_BUDGET_BYTES"@) is None ==> c.query_memory_budget_bytes == d.query_memory_budget_bytes,
        lookup(vars, "LOGGYTRACY_MAX_QUERY_MEMORY_BYTES"@) == Some(decimal(n)) ==> c.max_query_memory_bytes == n,
        lookup(vars, "LOGGYTRACY_MAX_QUERY_MEMORY_BYTES"@) is None ==> c.max_query_memory_bytes == d.max_query_memory_bytes,
        lookup(vars, "LOGGYTRACY_MAX_LOG_LIMIT"@) == Some(decimal(n)) ==> c.max_log_limit == n,
        lookup(vars, "LOGGYTRACY_MAX_LOG_LIMIT"@) is None ==> c.max_log_limit == d.max_log_limit,
        lookup(vars, "LOGGYTRACY_MAX_HISTOGRAM_BUCKETS"@) == Some(decimal(n)) ==> c.max_histogram_buckets == n,
        lookup(vars, "LOGGYTRACY_MAX_HISTOGRAM_BUCKETS"@) is None ==> c.max_histogram_buckets == d.max_histogram_buckets,
        lookup(vars, "LOGGYTRACY_MAX_CONCURRENT_QUERY_SCANS"@) == Some(decimal(n)) ==> c.max_concurrent_query_scans == n,
        lookup(vars, "LOGGYTRACY_MAX_CONCURRENT_QUERY_SCANS"@) is None ==> c.max_concurrent_query_scans == d.max_concurrent_query_scans,
        lookup(vars, "LOGGYTRACY_MAX_TRACE_SPANS"@) == Some(decimal(n)) ==> c.max_trace_spans == n,
        lookup(vars, "LOGGYTRACY_MAX_TRACE_SPANS"@) is None ==> c.max_trace_spans == d.max_trace_spans,
        lookup(vars, "LOGGYTRACY_MAX_TRACE_SEARCH_LIMIT"@) == Some(decimal(n)) ==> c.max_trace_search_limit == n,
        lookup(vars, "LOGGYTRACY_MAX_TRACE_SEARCH_LIMIT"@) is None ==> c.max_trace_search_limit == d.max_trace_search_limit,
        lookup(vars, "LOGGYTRACY_MAX_CONCURRENT_TRACE_SCANS"@) == Some(decimal(n)) ==> c.max_concurrent_trace_scans == n,
        lookup(vars, "LOGGYTRACY_MAX_CONCURRENT_TRACE_SCANS"@) is None ==> c.max_concurrent_trace_scans == d.max_concurrent_trace_scans,
        lookup(vars, "LOGGYTRACY_MAX_ACTIVE_SERIES"@) == Some(decimal(n)) ==> c.max_active_series == n,
        lookup(vars, "LOGGYTRACY_MAX_ACTIVE_SERIES"@) is None ==> c.max_active_series == d.max_active_series,
{
    printed_number(n);
    reveal(u64_value);
    reveal(usize_value);
}

/// Each byte threshold of a configuration is the one that its own variable holds, and its
/// default where that is not set.
pub proof fn each_threshold_is_read_from_its_own_variable(
    c: Config,
    d: Config,
    vars: Seq<(String, String)>,
    threshold: Option<Result<u64, String>>,
    n: u64,
)
    requires
        reads_as(c, d, vars, threshold),
        n > 0,
    ensures
        lookup(vars, "LOGGYTRACY_MAX_MEMTABLE_BYTES"@) == Some(decimal(n as nat)) ==> c.max_memtable_bytes == Some(n),
        lookup(vars, "LOGGYTRACY_MAX_MEMTABLE_BYTES"@) == Some("off"@) ==> c.max_memtable_bytes is None,
        lookup(vars, "LOGGYTRACY_MAX_MEMTABLE_BYTES"@) is None ==> c.max_memtable_bytes == d.max_memtable_bytes,
        lookup(vars, "LOGGYTRACY_MAX_INFLIGHT_PUSH_BYTES"@) == Some(decimal(n as nat)) ==> c.max_inflight_push_bytes == Some(n),
        lookup(vars, "LOGGYTRACY_MAX_INFLIGHT_PUSH_BYTES"@) == Some("off"@) ==> c.max_inflight_push_bytes is None,
        lookup(vars, "LOGGYTRACY_MAX_INFLIGHT_PUSH_BYTES"@) is None ==> c.max_inflight_push_bytes == d.max_inflight_push_bytes,
        lookup(vars, "LOGGYTRACY_MAX_WAL_BACKLOG_BYTES"@) == Some(decimal(n as nat)) ==> c.max_wal_backlog_bytes == Some(n),
        lookup(vars, "LOGGYTRACY_MAX_WAL_BACKLOG_BYTES"@) == Some("off"@) ==> c.max_wal_backlog_bytes is None,
        lookup(vars, "LOGGYTRACY_MAX_WAL_BACKLOG_BYTES"@) is None ==> c.max_wal_backlog_bytes == d.max_wal_backlog_bytes,
        lookup(vars, "LOGGYTRACY_WAL_COMPACT_MIN_BYTES"@) == Some(decimal(n as nat)) ==> c.wal_compact_min_bytes == Some(n),
        lookup(vars, "LOGGYTRACY_WAL_COMPACT_MIN_BYTES"@) == Some("off"@) ==> c.wal_compact_min_bytes is None,
        lookup(vars, "LOGGYTRACY_WAL_COMPACT_MIN_BYTES"@) is None ==> c.wal_compact_min_bytes == d.wal_compact_min_bytes,
        lookup(vars, "LOGGYTRACY_DEFAULT_TENANT_MAX_STORED_BYTES"@) == Some(decimal(n as nat)) ==> c.default_tenant_max_stored_bytes == Some(n),
        lookup(vars, "LOGGYTRACY_DEFAULT_TENANT_MAX_STORED_BYTES"@) == Some("off"@) ==> c.default_tenant_max_stored_bytes is None,
        lookup(vars, "LOGGYTRACY_DEFAULT_TENANT_MAX_STORED_BYTES"@) is None ==> c.default_tenant_max_stored_bytes == d.default_tenant_max_stored_bytes,
        lookup(vars, "LOGGYTRACY_MIN_FREE_DISK_BYTES"@) == Some(decimal(n as nat)) ==> c.min_free_disk_bytes == Some(n),
        lookup(vars, "LOGGYTRACY_MIN_FREE_DISK_BYTES"@) == Some("off"@) ==> c.min_free_disk_bytes is None,
        lookup(vars, "LOGGYTRACY_MIN_FREE_DISK_BYTES"@) is None ==> c.min_free_disk_bytes == d.min_free_disk_bytes,
        lookup(vars, "LOGGYTRACY_ROW_GROUP_CACHE_MAX_BYTES"@) == Some(decimal(n as nat)) ==> c.row_group_cache_max_bytes == Some(n),
        lookup(vars, "LOGGYTRACY_ROW_GROUP_CACHE_MAX_BYTES"@) == Some("off"@) ==> c.row_group_cache_max_bytes is None,
        lookup(vars, "LOGGYTRACY_ROW_GROUP_CACHE_MAX_BYTES"@) is None ==> c.row_group_cache_max_bytes == d.row_group_cache_max_bytes,
        lookup(vars, "LOGGYTRACY_SIDECAR_CACHE_MAX_BYTES"@) == Some(decimal(n as nat)) ==> c.sidecar_cache_max_bytes == Some(n),
        lookup(vars, "LOGGYTRACY_SIDECAR_CACHE_MAX_BYTES"@) == Some("off"@) ==> c.sidecar_cache_max_bytes is None,
        lookup(vars, "LOGGYTRACY_SIDECAR_CACHE_MAX_BYTES"@) is None ==> c.sidecar_cache_max_bytes == d.sidecar_cache_max_bytes,
{
    reveal(optional_value);
    reveal_strlit("off");
    let off = "off"@;
    assert(ascii_lowered(trimmed(off)) =~= off);
    a_threshold_is_its_number("LOGGYTRACY_MAX_MEMTABLE_BYTES"@, n as nat);
    a_threshold_is_its_number("LOGGYTRACY_MAX_INFLIGHT_PUSH_BYTES"@, n as nat);
    a_threshold_is_its_number("LOGGYTRACY_MAX_WAL_BACKLOG_BYTES"@, n as nat);
    a_threshold_is_its_number("LOGGYTRACY_WAL_COMPACT_MIN_BYTES"@, n as nat);
    a_threshold_is_its_number("LOGGYTRACY_DEFAULT_TENANT_MAX_STORED_BYTES"@, n as nat);
    a_threshold_is_its_number("LOGGYTRACY_MIN_FREE_DISK_BYTES"@, n as nat);
    a_threshold_is_its_number("LOGGYTRACY_ROW_GROUP_CACHE_MAX_BYTES"@, n as nat);
    a_threshold_is_its_number("LOGGYTRACY_SIDECAR_CACHE_MAX_BYTES"@, n as nat);
}

/// Each duration of a configuration is the one that its own variable holds, and its default
/// where that is not set.
pub proof fn each_duration_is_read_from_its_own_variable(
    c: Config,
    d: Config,
    vars: Seq<(String, String)>,
    threshold: Option<Result<u64, String>>,
    n: nat,
)
    requires
        reads_as(c, d, vars, threshold),
        n * 1_000_000_000 <= u64::MAX,
    ensures
        lookup(vars, "LOGGYTRACY_BACKPRESSURE_RETRY_AFTER"@) == Some(decimal(n).push('s')) ==> c.backpressure_retry_after.nanos == n
            * 1_000_000_000,
        lookup(vars, "LOGGYTRACY_BACKPRESSURE_RETRY_AFTER"@) is None ==> c.backpressure_retry_after == d.backpressure_retry_after,
        lookup(vars, "LOGGYTRACY_FLUSH_MAX_INTERVAL"@) == Some(decimal(n).push('s')) ==> c.flush_max_interval.nanos == n
            * 1_000_000_000,
        lookup(vars, "LOGGYTRACY_FLUSH_MAX_INTERVAL"@) is None ==> c.flush_max_interval == d.flush_max_interval,
        lookup(vars, "LOGGYTRACY_FLUSH_CHECK_INTERVAL"@) == Some(decimal(n).push('s')) ==> c.flush_check_interval.nanos == n
            * 1_000_000_000,
        lookup(vars, "LOGGYTRACY_FLUSH_CHECK_INTERVAL"@) is None ==> c.flush_check_interval == d.flush_check_interval,
        lookup(vars, "LOGGYTRACY_MERGE_INTERVAL"@) == Some(decimal(n).push('s')) ==> c.merge_interval.nanos == n
            * 1_000_000_000,
        lookup(vars, "LOGGYTRACY_MERGE_INTERVAL"@) is None ==> c.merge_interval == d.merge_interval,
        lookup(vars, "LOGGYTRACY_CACHE_EVICTION_INTERVAL"@) == Some(decimal(n).push('s')) ==> c.cache_eviction_interval.nanos == n
            * 1_000_000_000,
        lookup(vars, "LOGGYTRACY_CACHE_EVICTION_INTERVAL"@) is None ==> c.cache_eviction_interval == d.cache_eviction_interval,
        lookup(vars, "LOGGYTRACY_RETENTION_INTERVAL"@) == Some(decimal(n).push('s')) ==> c.retention_interval.nanos == n
            * 1_000_000_000,
        lookup(vars, "LOGGYTRACY_RETENTION_INTERVAL"@) is None ==> c.retention_interval == d.retention_interval,
        lookup(vars, "LOGGYTRACY_RETENTION_GRACE_PERIOD"@) == Some(decimal(n).push('s')) ==> c.retention_grace_period.nanos == n
            * 1_000_000_000,
        lookup(vars, "LOGGYTRACY_RETENTION_GRACE_PERIOD"@) is None ==> c.retention_grace_period == d.retention_grace_period,
        lookup(vars, "LOGGYTRACY_MAX_RETENTION_RUNTIME"@) == Some(decimal(n).push('s')) ==> c.max_retention_runtime.nanos == n
            * 1_000_000_000,
        lookup(vars, "LOGGYTRACY_MAX_RETENTION_RUNTIME"@) is None ==> c.max_retention_runtime == d.max_retention_runtime,
        lookup(vars, "LOGGYTRACY_DISK_SAMPLE_INTERVAL"@) == Some(decimal(n).push('s')) ==> c.disk_sample_interval.nanos == n
            * 1_000_000_000,
        lookup(vars, "LOGGYTRACY_DISK_SAMPLE_INTERVAL"@) is None ==> c.disk_sample_interval == d.disk_sample_interval,
        lookup(vars, "LOGGYTRACY_TAIL_POLL_INTERVAL"@) == Some(decimal(n).push('s')) ==> c.tail_poll_interval.nanos == n
            * 1_000_000_000,
        lookup(vars, "LOGGYTRACY_TAIL_POLL_INTERVAL"@) is None ==> c.tail_poll_interval == d.tail_poll_interval,
        lookup(vars, "LOGGYTRACY_MAX_QUERY_RUNTIME"@) == Some(decimal(n).push('s')) ==> c.max_query_runtime.nanos == n
            * 1_000_000_000,
        lookup(vars, "LOGGYTRACY_MAX_QUERY_RUNTIME"@) is None ==> c.max_query_runtime == d.max_query_runtime,
        lookup(vars, "LOGGYTRACY_MAX_RESTORE_RUNTIME"@) == Some(decimal(n).push('s')) ==> c.max_restore_runtime.nanos == n
            * 1_000_000_000,
        lookup(vars, "LOGGYTRACY_MAX_RESTORE_RUNTIME"@) is None ==> c.max_restore_runtime == d.max_restore_runtime,
        lookup(vars, "LOGGYTRACY_MAX_TRACE_QUERY_RUNTIME"@) == Some(decimal(n).push('s')) ==> c.max_trace_query_runtime.nanos == n
            * 1_000_000_000,
        lookup(vars, "LOGGYTRACY_MAX_TRACE_QUERY_RUNTIME"@) is None ==> c.max_trace_query_runtime == d.max_trace_query_runtime,
        lookup(vars, "LOGGYTRACY_MAX_TRACE_RESTORE_RUNTIME"@) == Some(decimal(n).push('s')) ==> c.max_trace_restore_runtime.nanos == n
            * 1_000_000_000,
        lookup(vars, "LOGGYTRACY_MAX_TRACE_RESTORE_RUNTIME"@) is None ==> c.max_trace_restore_runtime == d.max_trace_restore_runtime,
        lookup(vars, "LOGGYTRACY_METRIC_SERIES_IDLE_TIMEOUT"@) == Some(decimal(n).push('s')) ==> c.metric_series_idle_timeout.nanos == n
            * 1_000_000_000,
        lookup(vars, "LOGGYTRACY_METRIC_SERIES_IDLE_TIMEOUT"@) is None ==> c.metric_series_idle_timeout == d.metric_series_idle_timeout,
        lookup(vars, "LOGGYTRACY_STARTUP_RETRY_BUDGET"@) == Some(decimal(n).push('s')) ==> c.startup_retry_budget.nanos == n
            * 1_000_000_000,
        lookup(vars, "LOGGYTRACY_STARTUP_RETRY_BUDGET"@) is None ==> c.startup_retry_budget == d.startup_retry_budget,
        lookup(vars, "LOGGYTRACY_SHUTDOWN_FLUSH_WARN_AFTER"@) == Some(decimal(n).push('s')) ==> c.shutdown_flush_warn_after.nanos == n
            * 1_000_000_000,
        lookup(vars, "LOGGYTRACY_SHUTDOWN_FLUSH_WARN_AFTER"@) is None ==> c.shutdown_flush_warn_after == d.shutdown_flush_warn_after,
        lookup(vars, "LOGGYTRACY_MALLOC_TRIM_INTERVAL"@) == Some(decimal(n).push('s')) ==> c.malloc_trim_interval is Some
            && c.malloc_trim_interval->Some_0.nanos == n * 1_000_000_000,
        lookup(vars, "LOGGYTRACY_MALLOC_TRIM_INTERVAL"@) is None ==> c.malloc_trim_interval == d.malloc_trim_interval,
        lookup(vars, "LOGGYTRACY_MAX_TIMESTAMP_AGE"@) == Some(decimal(n).push('s')) ==> c.max_timestamp_age is Some
            && c.max_timestamp_age->Some_0.nanos == n * 1_000_000_000,
        lookup(vars, "LOGGYTRACY_MAX_TIMESTAMP_AGE"@) is None ==> c.max_timestamp_age == d.max_timestamp_age,
        lookup(vars, "LOGGYTRACY_MAX_TIMESTAMP_SKEW"@) == Some(decimal(n).push('s')) ==> c.max_timestamp_skew is Some
            && c.max_timestamp_skew->Some_0.nanos == n * 1_000_000_000,
        lookup(vars, "LOGGYTRACY_MAX_TIMESTAMP_SKEW"@) is None ==> c.max_timestamp_skew == d.max_timestamp_skew,
        lookup(vars, "LOGGYTRACY_MAX_QUERY_RANGE"@) == Some(decimal(n).push('s')) ==> c.max_query_range is Some
            && c.max_query_range->Some_0.nanos == n * 1_000_000_000,
        lookup(vars, "LOGGYTRACY_MAX_QUERY_RANGE"@) is None ==> c.max_query_range is None,
{
    reveal(duration_value);
    reveal(required_duration_value);
    a_number_with_a_unit_is_that_long("LOGGYTRACY_BACKPRESSURE_RETRY_AFTER"@, n);
    a_number_with_a_unit_is_that_long("LOGGYTRACY_FLUSH_MAX_INTERVAL"@, n);
    a_number_with_a_unit_is_that_long("LOGGYTRACY_FLUSH_CHECK_INTERVAL"@, n);
    a_number_with_a_unit_is_that_long("LOGGYTRACY_MERGE_INTERVAL"@, n);
    a_number_with_a_unit_is_that_long("LOGGYTRACY_CACHE_EVICTION_INTERVAL"@, n);
    a_number_with_a_unit_is_that_long("LOGGYTRACY_RETENTION_INTERVAL"@, n);
    a_number_with_a_unit_is_that_long("LOGGYTRACY_RETENTION_GRACE_PERIOD"@, n);
    a_number_with_a_unit_is_that_long("LOGGYTRACY_MAX_RETENTION_RUNTIME"@, n);
    a_number_with_a_unit_is_that_long("LOGGYTRACY_DISK_SAMPLE_INTERVAL"@, n);
    a_number_with_a_unit_is_that_long("LOGGYTRACY_TAIL_POLL_INTERVAL"@, n);
    a_number_with_a_unit_is_that_long("LOGGYTRACY_MAX_QUERY_RUNTIME"@, n);
    a_number_with_a_unit_is_that_long("LOGGYTRACY_MAX_RESTORE_RUNTIME"@, n);
    a_number_with_a_unit_is_that_long("LOGGYTRACY_MAX_TRACE_QUERY_RUNTIME"@, n);
    a_number_with_a_unit_is_that_long("LOGGYTRACY_MAX_TRACE_RESTORE_RUNTIME"@, n);
    a_number_with_a_unit_is_that_long("LOGGYTRACY_METRIC_SERIES_IDLE_TIMEOUT"@, n);
    a_number_with_a_unit_is_that_long("LOGGYTRACY_STARTUP_RETRY_BUDGET"@, n);
    a_number_with_a_unit_is_that_long("LOGGYTRACY_SHUTDOWN_FLUSH_WARN_AFTER"@, n);
    a_number_with_a_unit_is_that_long("LOGGYTRACY_MALLOC_TRIM_INTERVAL"@, n);
    a_number_with_a_unit_is_that_long("LOGGYTRACY_MAX_TIMESTAMP_AGE"@, n);
    a_number_with_a_unit_is_that_long("LOGGYTRACY_MAX_TIMESTAMP_SKEW"@, n);
    a_number_with_a_unit_is_that_long("LOGGYTRACY_MAX_QUERY_RANGE"@, n);
}

/// Each text of a configuration is the one that its own variable holds.
pub proof fn each_text_is_read_from_its_own_variable(
    c: Config,
    d: Config,
    vars: Seq<(String, String)>,
    threshold: Option<Result<u64, String>>,
)
    requires
        reads_as(c, d, vars, threshold),
    ensures
        lookup(vars, "LOGGYTRACY_LISTEN_ADDR"@) is Some ==> c.listen_addr@ == lookup(vars, "LOGGYTRACY_LISTEN_ADDR"@)->Some_0,
        lookup(vars, "LOGGYTRACY_LISTEN_ADDR"@) is None ==> c.listen_addr@ == d.listen_addr@,
        lookup(vars, "LOGGYTRACY_OTLP_GRPC_ADDR"@) is Some ==> c.otlp_grpc_addr@ == lookup(vars, "LOGGYTRACY_OTLP_GRPC_ADDR"@)->Some_0,
        lookup(vars, "LOGGYTRACY_OTLP_GRPC_ADDR"@) is None ==> c.otlp_grpc_addr@ == d.otlp_grpc_addr@,
        lookup(vars, "LOGGYTRACY_DATA_DIR"@) is Some ==> c.data_dir@ == lookup(vars, "LOGGYTRACY_DATA_DIR"@)->Some_0,
        lookup(vars, "LOGGYTRACY_DATA_DIR"@) is None ==> c.data_dir@ == d.data_dir@,
        lookup(vars, "LOGGYTRACY_MISSING_TENANT"@) is None <==> c.missing_tenant is None,
        c.missing_tenant is Some ==> lookup(vars, "LOGGYTRACY_MISSING_TENANT"@) == Some(
            c.missing_tenant->Some_0@,
        ),
        threshold is None ==> c.retention_rewrite_threshold == d.retention_rewrite_threshold,
        threshold is Some && threshold->Some_0 is Ok ==> c.retention_rewrite_threshold
            == threshold->Some_0->Ok_0,
{
    reveal(crate::env::tenant_knob_matches);
    reveal(crate::env::threshold_value);
}

// -------------------------------------------------------------------- reading
/// Whether a variable holds a positive number that fits, or is not set where the default is
/// positive.
pub open spec fn holds_positive(
    vars: Seq<(String, String)>,
    name: Seq<char>,
    largest: nat,
    default: nat,
) -> bool {
    match lookup(vars, name) {
        Some(raw) => parsed_unsigned(raw, largest) is Some && parsed_unsigned(raw, largest)->Some_0
            > 0,
        None => default > 0,
    }
}

/// Whether a variable holds a duration that is on and not zero, or is not set where the
/// default is not zero.
pub open spec fn holds_duration(
    vars: Seq<(String, String)>,
    name: Seq<char>,
    default: Duration,
) -> bool {
    match lookup(vars, name) {
        Some(raw) => {
            &&& duration_of(name, raw) is Ok
            &&& duration_of(name, raw)->Ok_0 is Some
            &&& duration_of(name, raw)->Ok_0->Some_0.nanos > 0
        },
        None => default.nanos > 0,
    }
}

proof fn positive_numbers(
    vars: Seq<(String, String)>,
    name: Seq<char>,
    long: u64,
    size: usize,
)
    ensures
        positive_u64_problem(vars, name, long) is None <==> holds_positive(
            vars,
            name,
            u64::MAX as nat,
            long as nat,
        ),
        positive_usize_problem(vars, name, size) is None <==> holds_positive(
            vars,
            name,
            usize::MAX as nat,
            size as nat,
        ),
{
    reveal(positive_u64_problem);
    reveal(positive_usize_problem);
    reveal(u64_problem);
    reveal(u64_value);
    reveal(usize_value);
    reveal(positive);
}

proof fn required_durations(vars: Seq<(String, String)>, name: Seq<char>, default: Duration)
    ensures
        required_duration_problem(vars, name, default) is None <==> holds_duration(
            vars,
            name,
            default,
        ),
{
    reveal(required_duration_problem);
    reveal(duration_problem);
    reveal(duration_value);
    reveal(positive_span);
}

/// Variables are read into a configuration exactly if each of them can be read: a number
/// is one that fits and is not zero where zero means nothing, a threshold and a duration
/// are ones, a duration that cannot be turned off is on, and a tenant is one. One that is
/// not set leaves its default to be used, of which the same is asked.
#[verifier::spinoff_prover]
#[verifier::rlimit(60)]
pub proof fn variables_are_accepted_exactly_if_each_can_be_read(
    d: Config,
    vars: Seq<(String, String)>,
    threshold: Option<Result<u64, String>>,
)
    ensures
        first_failure(read_problems(d, vars, threshold)) is None <==> {
            &&& lookup(vars, "LOGGYTRACY_MALLOC_TRIM_INTERVAL"@) matches Some(raw) ==> duration_of("LOGGYTRACY_MALLOC_TRIM_INTERVAL"@, raw) is Ok
            &&& lookup(vars, "LOGGYTRACY_MISSING_TENANT"@) matches Some(raw) ==> 1 <= encode_utf8(raw).len() <= 255
            &&& holds_positive(vars, "LOGGYTRACY_MAX_BATCH_BYTES"@, usize::MAX as nat, d.max_batch_bytes as nat)
            &&& lookup(vars, "LOGGYTRACY_MAX_BATCH_MS"@) matches Some(raw) ==> parsed_unsigned(raw, u64::MAX as nat) is Some
            &&& holds_positive(vars, "LOGGYTRACY_MAX_LINE_BYTES"@, usize::MAX as nat, d.max_line_bytes as nat)
            &&& lookup(vars, "LOGGYTRACY_MAX_TIMESTAMP_AGE"@) matches Some(raw) ==> duration_of("LOGGYTRACY_MAX_TIMESTAMP_AGE"@, raw) is Ok
            &&& lookup(vars, "LOGGYTRACY_MAX_MEMTABLE_BYTES"@) matches Some(raw) ==> threshold_of("LOGGYTRACY_MAX_MEMTABLE_BYTES"@, raw) is Ok
            &&& lookup(vars, "LOGGYTRACY_MAX_INFLIGHT_PUSH_BYTES"@) matches Some(raw) ==> threshold_of("LOGGYTRACY_MAX_INFLIGHT_PUSH_BYTES"@, raw) is Ok
            &&& lookup(vars, "LOGGYTRACY_MAX_WAL_BACKLOG_BYTES"@) matches Some(raw) ==> threshold_of("LOGGYTRACY_MAX_WAL_BACKLOG_BYTES"@, raw) is Ok
            &&& lookup(vars, "LOGGYTRACY_WAL_COMPACT_MIN_BYTES"@) matches Some(raw) ==> threshold_of("LOGGYTRACY_WAL_COMPACT_MIN_BYTES"@, raw) is Ok
            &&& holds_duration(vars, "LOGGYTRACY_BACKPRESSURE_RETRY_AFTER"@, d.backpressure_retry_after)
            &&& lookup(vars, "LOGGYTRACY_MAX_TIMESTAMP_SKEW"@) matches Some(raw) ==> duration_of("LOGGYTRACY_MAX_TIMESTAMP_SKEW"@, raw) is Ok
            &&& holds_positive(vars, "LOGGYTRACY_FLUSH_MAX_BYTES"@, u64::MAX as nat, d.flush_max_bytes as nat)
            &&& holds_duration(vars, "LOGGYTRACY_FLUSH_MAX_INTERVAL"@, d.flush_max_interval)
            &&& holds_duration(vars, "LOGGYTRACY_FLUSH_CHECK_INTERVAL"@, d.flush_check_interval)
            &&& holds_positive(vars, "LOGGYTRACY_FLUSH_CHUNK_BYTES"@, u64::MAX as nat, d.flush_chunk_bytes as nat)
            &&& holds_positive(vars, "LOGGYTRACY_ROW_GROUP_SIZE"@, usize::MAX as nat, d.row_group_size as nat)
            &&& holds_positive(vars, "LOGGYTRACY_MERGE_MIN_PART_COUNT"@, usize::MAX as nat, d.merge_min_part_count as nat)
            &&& holds_positive(vars, "LOGGYTRACY_MERGE_TARGET_PART_ROWS"@, u64::MAX as nat, d.merge_target_part_rows as nat)
            &&& holds_positive(vars, "LOGGYTRACY_MERGE_MAX_PART_ROWS"@, u64::MAX as nat, d.merge_max_part_rows as nat)
            &&& holds_positive(vars, "LOGGYTRACY_MERGE_MAX_INPUT_BYTES"@, u64::MAX as nat, d.merge_max_input_bytes as nat)
            &&& holds_positive(vars, "LOGGYTRACY_MERGE_MAX_MEMORY_BYTES"@, u64::MAX as nat, d.merge_max_memory_bytes as nat)
            &&& holds_positive(vars, "LOGGYTRACY_MERGE_MAX_GROUPS_PER_TICK"@, usize::MAX as nat, d.merge_max_groups_per_tick as nat)
            &&& holds_duration(vars, "LOGGYTRACY_MERGE_INTERVAL"@, d.merge_interval)
            &&& holds_positive(vars, "LOGGYTRACY_CACHE_MAX_BYTES"@, u64::MAX as nat, d.cache_max_bytes as nat)
            &&& holds_duration(vars, "LOGGYTRACY_CACHE_EVICTION_INTERVAL"@, d.cache_eviction_interval)
            &&& holds_duration(vars, "LOGGYTRACY_RETENTION_INTERVAL"@, d.retention_interval)
            &&& holds_positive(vars, "LOGGYTRACY_RETENTION_BATCH_SIZE"@, usize::MAX as nat, d.retention_batch_size as nat)
            &&& holds_duration(vars, "LOGGYTRACY_RETENTION_GRACE_PERIOD"@, d.retention_grace_period)
            &&& holds_duration(vars, "LOGGYTRACY_MAX_RETENTION_RUNTIME"@, d.max_retention_runtime)
            &&& holds_positive(vars, "LOGGYTRACY_MAX_CONCURRENT_QUERIES_PER_TENANT"@, usize::MAX as nat, d.max_concurrent_queries_per_tenant as nat)
            &&& lookup(vars, "LOGGYTRACY_DEFAULT_TENANT_MAX_STORED_BYTES"@) matches Some(raw) ==> threshold_of("LOGGYTRACY_DEFAULT_TENANT_MAX_STORED_BYTES"@, raw) is Ok
            &&& lookup(vars, "LOGGYTRACY_MIN_FREE_DISK_BYTES"@) matches Some(raw) ==> threshold_of("LOGGYTRACY_MIN_FREE_DISK_BYTES"@, raw) is Ok
            &&& lookup(vars, "LOGGYTRACY_LOG_FORMAT"@) matches Some(raw) ==> log_format_of(raw, d.log_format) is Ok
            &&& holds_duration(vars, "LOGGYTRACY_DISK_SAMPLE_INTERVAL"@, d.disk_sample_interval)
            &&& threshold matches Some(read) ==> read is Ok
            &&& holds_positive(vars, "LOGGYTRACY_MAX_CONCURRENT_TAILS"@, usize::MAX as nat, d.max_concurrent_tails as nat)
            &&& holds_duration(vars, "LOGGYTRACY_TAIL_POLL_INTERVAL"@, d.tail_poll_interval)
            &&& lookup(vars, "LOGGYTRACY_MAX_QUERY_RANGE"@) matches Some(raw) ==> duration_of("LOGGYTRACY_MAX_QUERY_RANGE"@, raw) is Ok
            &&& holds_positive(vars, "LOGGYTRACY_MAX_QUERY_SCAN_ROWS"@, usize::MAX as nat, d.max_query_scan_rows as nat)
            &&& holds_positive(vars, "LOGGYTRACY_MAX_QUERY_SCAN_BYTES"@, u64::MAX as nat, d.max_query_scan_bytes as nat)
            &&& holds_positive(vars, "LOGGYTRACY_QUERY_MEMORY_BUDGET_BYTES"@, u64::MAX as nat, d.query_memory_budget_bytes as nat)
            &&& lookup(vars, "LOGGYTRACY_ROW_GROUP_CACHE_MAX_BYTES"@) matches Some(raw) ==> threshold_of("LOGGYTRACY_ROW_GROUP_CACHE_MAX_BYTES"@, raw) is Ok
            &&& lookup(vars, "LOGGYTRACY_SIDECAR_CACHE_MAX_BYTES"@) matches Some(raw) ==> threshold_of("LOGGYTRACY_SIDECAR_CACHE_MAX_BYTES"@, raw) is Ok
            &&& holds_positive(vars, "LOGGYTRACY_MAX_QUERY_MEMORY_BYTES"@, u64::MAX as nat, d.max_query_memory_bytes as nat)
            &&& holds_positive(vars, "LOGGYTRACY_MAX_LOG_LIMIT"@, usize::MAX as nat, d.max_log_limit as nat)
            &&& holds_positive(vars, "LOGGYTRACY_MAX_HISTOGRAM_BUCKETS"@, usize::MAX as nat, d.max_histogram_buckets as nat)
            &&& holds_positive(vars, "LOGGYTRACY_MAX_CONCURRENT_QUERY_SCANS"@, usize::MAX as nat, d.max_concurrent_query_scans as nat)
            &&& holds_duration(vars, "LOGGYTRACY_MAX_QUERY_RUNTIME"@, d.max_query_runtime)
            &&& holds_duration(vars, "LOGGYTRACY_MAX_RESTORE_RUNTIME"@, d.max_restore_runtime)
            &&& holds_positive(vars, "LOGGYTRACY_MAX_TRACE_SPANS"@, usize::MAX as nat, d.max_trace_spans as nat)
            &&& holds_positive(vars, "LOGGYTRACY_MAX_TRACE_SEARCH_LIMIT"@, usize::MAX as nat, d.max_trace_search_limit as nat)
            &&& holds_positive(vars, "LOGGYTRACY_MAX_CONCURRENT_TRACE_SCANS"@, usize::MAX as nat, d.max_concurrent_trace_scans as nat)
            &&& holds_duration(vars, "LOGGYTRACY_MAX_TRACE_QUERY_RUNTIME"@, d.max_trace_query_runtime)
            &&& holds_duration(vars, "LOGGYTRACY_MAX_TRACE_RESTORE_RUNTIME"@, d.max_trace_restore_runtime)
            &&& holds_positive(vars, "LOGGYTRACY_MAX_ACTIVE_SERIES"@, usize::MAX as nat, d.max_active_series as nat)
            &&& holds_duration(vars, "LOGGYTRACY_METRIC_SERIES_IDLE_TIMEOUT"@, d.metric_series_idle_timeout)
            &&& holds_duration(vars, "LOGGYTRACY_STARTUP_RETRY_BUDGET"@, d.startup_retry_budget)
            &&& holds_duration(vars, "LOGGYTRACY_SHUTDOWN_FLUSH_WARN_AFTER"@, d.shutdown_flush_warn_after)
        },
{
    reveal(duration_problem);
    reveal(tenant_knob_problem);
    reveal(u64_problem);
    reveal(optional_problem);
    reveal(format_problem);
    reveal(threshold_problem);
    positive_numbers(vars, "LOGGYTRACY_MAX_BATCH_BYTES"@, 0, d.max_batch_bytes);
    positive_numbers(vars, "LOGGYTRACY_MAX_LINE_BYTES"@, 0, d.max_line_bytes);
    required_durations(vars, "LOGGYTRACY_BACKPRESSURE_RETRY_AFTER"@, d.backpressure_retry_after);
    positive_numbers(vars, "LOGGYTRACY_FLUSH_MAX_BYTES"@, d.flush_max_bytes, 0);
    required_durations(vars, "LOGGYTRACY_FLUSH_MAX_INTERVAL"@, d.flush_max_interval);
    required_durations(vars, "LOGGYTRACY_FLUSH_CHECK_INTERVAL"@, d.flush_check_interval);
    positive_numbers(vars, "LOGGYTRACY_FLUSH_CHUNK_BYTES"@, d.flush_chunk_bytes, 0);
    positive_numbers(vars, "LOGGYTRACY_ROW_GROUP_SIZE"@, 0, d.row_group_size);
    positive_numbers(vars, "LOGGYTRACY_MERGE_MIN_PART_COUNT"@, 0, d.merge_min_part_count);
    positive_numbers(vars, "LOGGYTRACY_MERGE_TARGET_PART_ROWS"@, d.merge_target_part_rows, 0);
    positive_numbers(vars, "LOGGYTRACY_MERGE_MAX_PART_ROWS"@, d.merge_max_part_rows, 0);
    positive_numbers(vars, "LOGGYTRACY_MERGE_MAX_INPUT_BYTES"@, d.merge_max_input_bytes, 0);
    positive_numbers(vars, "LOGGYTRACY_MERGE_MAX_MEMORY_BYTES"@, d.merge_max_memory_bytes, 0);
    positive_numbers(vars, "LOGGYTRACY_MERGE_MAX_GROUPS_PER_TICK"@, 0, d.merge_max_groups_per_tick);
    required_durations(vars, "LOGGYTRACY_MERGE_INTERVAL"@, d.merge_interval);
    positive_numbers(vars, "LOGGYTRACY_CACHE_MAX_BYTES"@, d.cache_max_bytes, 0);
    required_durations(vars, "LOGGYTRACY_CACHE_EVICTION_INTERVAL"@, d.cache_eviction_interval);
    required_durations(vars, "LOGGYTRACY_RETENTION_INTERVAL"@, d.retention_interval);
    positive_numbers(vars, "LOGGYTRACY_RETENTION_BATCH_SIZE"@, 0, d.retention_batch_size);
    required_durations(vars, "LOGGYTRACY_RETENTION_GRACE_PERIOD"@, d.retention_grace_period);
    required_durations(vars, "LOGGYTRACY_MAX_RETENTION_RUNTIME"@, d.max_retention_runtime);
    positive_numbers(vars, "LOGGYTRACY_MAX_CONCURRENT_QUERIES_PER_TENANT"@, 0, d.max_concurrent_queries_per_tenant);
    required_durations(vars, "LOGGYTRACY_DISK_SAMPLE_INTERVAL"@, d.disk_sample_interval);
    positive_numbers(vars, "LOGGYTRACY_MAX_CONCURRENT_TAILS"@, 0, d.max_concurrent_tails);
    required_durations(vars, "LOGGYTRACY_TAIL_POLL_INTERVAL"@, d.tail_poll_interval);
    positive_numbers(vars, "LOGGYTRACY_MAX_QUERY_SCAN_ROWS"@, 0, d.max_query_scan_rows);
    positive_numbers(vars, "LOGGYTRACY_MAX_QUERY_SCAN_BYTES"@, d.max_query_scan_bytes, 0);
    positive_numbers(vars, "LOGGYTRACY_QUERY_MEMORY_BUDGET_BYTES"@, d.query_memory_budget_bytes, 0);
    positive_numbers(vars, "LOGGYTRACY_MAX_QUERY_MEMORY_BYTES"@, d.max_query_memory_bytes, 0);
    positive_numbers(vars, "LOGGYTRACY_MAX_LOG_LIMIT"@, 0, d.max_log_limit);
    positive_numbers(vars, "LOGGYTRACY_MAX_HISTOGRAM_BUCKETS"@, 0, d.max_histogram_buckets);
    positive_numbers(vars, "LOGGYTRACY_MAX_CONCURRENT_QUERY_SCANS"@, 0, d.max_concurrent_query_scans);
    required_durations(vars, "LOGGYTRACY_MAX_QUERY_RUNTIME"@, d.max_query_runtime);
    required_durations(vars, "LOGGYTRACY_MAX_RESTORE_RUNTIME"@, d.max_restore_runtime);
    positive_numbers(vars, "LOGGYTRACY_MAX_TRACE_SPANS"@, 0, d.max_trace_spans);
    positive_numbers(vars, "LOGGYTRACY_MAX_TRACE_SEARCH_LIMIT"@, 0, d.max_trace_search_limit);
    positive_numbers(vars, "LOGGYTRACY_MAX_CONCURRENT_TRACE_SCANS"@, 0, d.max_concurrent_trace_scans);
    required_durations(vars, "LOGGYTRACY_MAX_TRACE_QUERY_RUNTIME"@, d.max_trace_query_runtime);
    required_durations(vars, "LOGGYTRACY_MAX_TRACE_RESTORE_RUNTIME"@, d.max_trace_restore_runtime);
    positive_numbers(vars, "LOGGYTRACY_MAX_ACTIVE_SERIES"@, 0, d.max_active_series);
    required_durations(vars, "LOGGYTRACY_METRIC_SERIES_IDLE_TIMEOUT"@, d.metric_series_idle_timeout);
    required_durations(vars, "LOGGYTRACY_STARTUP_RETRY_BUDGET"@, d.startup_retry_budget);
    required_durations(vars, "LOGGYTRACY_SHUTDOWN_FLUSH_WARN_AFTER"@, d.shutdown_flush_warn_after);
    let problems = read_problems(d, vars, threshold);
    none_fails(problems);
    if first_failure(problems) is None {
        assert(problems[0] is None);
        assert(problems[1] is None);
        assert(problems[2] is None);
        assert(problems[3] is None);
        assert(problems[4] is None);
        assert(problems[5] is None);
        assert(problems[6] is None);
        assert(problems[7] is None);
        assert(problems[8] is None);
        assert(problems[9] is None);
        assert(problems[10] is None);
        assert(problems[11] is None);
        assert(problems[12] is None);
        assert(problems[13] is None);
        assert(problems[14] is None);
        assert(problems[15] is None);
        assert(problems[16] is None);
        assert(problems[17] is None);
        assert(problems[18] is None);
        assert(problems[19] is None);
        assert(problems[20] is None);
        assert(problems[21] is None);
        assert(problems[22] is None);
        assert(problems[23] is None);
        assert(problems[24] is None);
        assert(problems[25] is None);
        assert(problems[26] is None);
        assert(problems[27] is None);
        assert(problems[28] is None);
        assert(problems[29] is None);
        assert(problems[30] is None);
        assert(problems[31] is None);
        assert(problems[32] is None);
        assert(problems[33] is None);
        assert(problems[34] is None);
        assert(problems[35] is None);
        assert(problems[36] is None);
        assert(problems[37] is None);
        assert(problems[38] is None);
        assert(problems[39] is None);
        assert(problems[40] is None);
        assert(problems[41] is None);
        assert(problems[42] is None);
        assert(problems[43] is None);
        assert(problems[44] is None);
        assert(problems[45] is None);
        assert(problems[46] is None);
        assert(problems[47] is None);
        assert(problems[48] is None);
        assert(problems[49] is None);
        assert(problems[50] is None);
        assert(problems[51] is None);
        assert(problems[52] is None);
        assert(problems[53] is None);
        assert(problems[54] is None);
        assert(problems[55] is None);
        assert(problems[56] is None);
        assert(problems[57] is None);
        assert(problems[58] is None);
    }
}

/// A log format is `text` or `json`, whatever the case, and nothing keeps the default.
pub proof fn a_log_format_is_text_or_json(raw: Seq<char>, default: LogFormat)
    ensures
        log_format_of("text"@, default) == Ok::<LogFormat, Seq<char>>(LogFormat::Text),
        log_format_of("json"@, default) == Ok::<LogFormat, Seq<char>>(LogFormat::Json),
        trimmed(raw).len() == 0 ==> log_format_of(raw, default) == Ok::<LogFormat, Seq<char>>(
            default,
        ),
        log_format_of(raw, default) is Ok <==> {
            ||| trimmed(raw).len() == 0
            ||| ascii_lowered(trimmed(raw)) == "text"@
            ||| ascii_lowered(trimmed(raw)) == "json"@
        },
{
    reveal_strlit("");
    reveal_strlit("text");
    reveal_strlit("json");
    assert(ascii_lowered(trimmed("text"@)) =~= "text"@);
    assert(ascii_lowered(trimmed("json"@)) =~= "json"@);
    assert("text"@[0] == 't' && "json"@[0] == 'j');
    let word = ascii_lowered(trimmed(raw));
    assert(word.len() == trimmed(raw).len());
    if word.len() == 0 {
        assert(word =~= ""@);
    }
}

// ----------------------------------------------------------------- validation
/// A configuration is accepted exactly if no number, no duration and no limit of it is
/// zero, no ceiling is below the flush that it has to hold, and the knobs that depend on
/// each other fit together.
#[verifier::spinoff_prover]
#[verifier::rlimit(60)]
pub proof fn a_configuration_is_accepted_exactly_if_it_can_work(config: Config)
    ensures
        first_failure(config.problems()) is None <==> {
            &&& trimmed(config.listen_addr@).len() > 0
            &&& trimmed(config.otlp_grpc_addr@).len() > 0
            &&& config.max_batch_bytes > 0
            &&& config.max_line_bytes > 0
            &&& config.flush_max_bytes > 0
            &&& config.row_group_size > 0
            &&& config.merge_target_part_rows > 0
            &&& config.merge_max_part_rows > 0
            &&& config.merge_max_input_bytes > 0
            &&& config.merge_max_memory_bytes > 0
            &&& config.merge_max_groups_per_tick > 0
            &&& config.cache_max_bytes > 0
            &&& config.retention_batch_size > 0
            &&& config.max_query_scan_rows > 0
            &&& config.max_query_scan_bytes > 0
            &&& config.max_query_memory_bytes > 0
            &&& config.query_memory_budget_bytes > 0
            &&& config.max_log_limit > 0
            &&& config.max_histogram_buckets > 0
            &&& config.max_concurrent_query_scans > 0
            &&& config.max_trace_spans > 0
            &&& config.max_trace_search_limit > 0
            &&& config.max_concurrent_trace_scans > 0
            &&& config.max_active_series > 0
            &&& config.flush_max_interval.nanos > 0
            &&& config.backpressure_retry_after.nanos > 0
            &&& config.disk_sample_interval.nanos > 0
            &&& config.flush_check_interval.nanos > 0
            &&& config.merge_interval.nanos > 0
            &&& config.cache_eviction_interval.nanos > 0
            &&& config.retention_interval.nanos > 0
            &&& config.retention_grace_period.nanos > 0
            &&& config.max_retention_runtime.nanos > 0
            &&& config.max_query_runtime.nanos > 0
            &&& config.max_restore_runtime.nanos > 0
            &&& config.max_trace_query_runtime.nanos > 0
            &&& config.max_trace_restore_runtime.nanos > 0
            &&& config.metric_series_idle_timeout.nanos > 0
            &&& config.shutdown_flush_warn_after.nanos > 0
            &&& config.wal_compact_min_bytes matches Some(bytes) ==> bytes > 0
            &&& config.row_group_cache_max_bytes matches Some(bytes) ==> bytes > 0
            &&& config.sidecar_cache_max_bytes matches Some(bytes) ==> bytes > 0
            &&& config.max_timestamp_age matches Some(limit) ==> limit.nanos > 0
            &&& config.max_timestamp_skew matches Some(limit) ==> limit.nanos > 0
            &&& config.max_query_range matches Some(limit) ==> limit.nanos > 0
            &&& config.max_memtable_bytes matches Some(bytes) ==> bytes >= config.flush_max_bytes
            &&& config.min_free_disk_bytes matches Some(bytes) ==> bytes >= config.flush_max_bytes
            &&& config.flush_chunk_bytes >= 1_048_576
            &&& config.row_group_size <= 65_536
            &&& config.merge_min_part_count >= 2
            &&& config.merge_target_part_rows <= config.merge_max_part_rows
            &&& config.merge_max_input_bytes <= config.merge_max_memory_bytes
            &&& 0 < config.retention_rewrite_threshold <= 0x3ff0_0000_0000_0000
            &&& config.query_memory_budget_bytes >= 1_048_576
        },
{
    reveal(positive);
    reveal(positive_span);
    reveal(positive_bytes);
    reveal(positive_limit);
    reveal(problem_if);
    reveal(above_flush);
    let problems = config.problems();
    none_fails(problems);
    if first_failure(problems) is None {
        assert(problems[0] is None);
        assert(problems[1] is None);
        assert(problems[2] is None);
        assert(problems[3] is None);
        assert(problems[4] is None);
        assert(problems[5] is None);
        assert(problems[6] is None);
        assert(problems[7] is None);
        assert(problems[8] is None);
        assert(problems[9] is None);
        assert(problems[10] is None);
        assert(problems[11] is None);
        assert(problems[12] is None);
        assert(problems[13] is None);
        assert(problems[14] is None);
        assert(problems[15] is None);
        assert(problems[16] is None);
        assert(problems[17] is None);
        assert(problems[18] is None);
        assert(problems[19] is None);
        assert(problems[20] is None);
        assert(problems[21] is None);
        assert(problems[22] is None);
        assert(problems[23] is None);
        assert(problems[24] is None);
        assert(problems[25] is None);
        assert(problems[26] is None);
        assert(problems[27] is None);
        assert(problems[28] is None);
        assert(problems[29] is None);
        assert(problems[30] is None);
        assert(problems[31] is None);
        assert(problems[32] is None);
        assert(problems[33] is None);
        assert(problems[34] is None);
        assert(problems[35] is None);
        assert(problems[36] is None);
        assert(problems[37] is None);
        assert(problems[38] is None);
        assert(problems[39] is None);
        assert(problems[40] is None);
        assert(problems[41] is None);
        assert(problems[42] is None);
        assert(problems[43] is None);
        assert(problems[44] is None);
        assert(problems[45] is None);
        assert(problems[46] is None);
        assert(problems[47] is None);
        assert(problems[48] is None);
        assert(problems[49] is None);
        assert(problems[50] is None);
        assert(problems[51] is None);
        assert(problems[52] is None);
    }
}

// --------------------------------------------------------------------- budget
/// What a memory budget gives: a quarter of it to merges and a quarter to queries, half of
/// what merges have to one group of them, an eighth to row groups, a tenth each to
/// sidecars and to the tables and a twentieth to bodies, and none less than its floor.
/// Nothing else changes, and from 320 MiB on they fit into the budget together.
pub proof fn a_budget_is_shared_out(before: Config, budget: u64)
    ensures
        ({
            let c = budgeted(before, budget);
            let cache = c.row_group_cache_max_bytes;
            let sidecar = c.sidecar_cache_max_bytes;
            let tables = c.max_memtable_bytes;
            let bodies = c.max_inflight_push_bytes;
            &&& c.merge_max_memory_bytes >= 67_108_864
            &&& c.merge_max_memory_bytes == budget / 4 || (c.merge_max_memory_bytes == 67_108_864
                && budget / 4 < 67_108_864)
            &&& c.merge_max_input_bytes == c.merge_max_memory_bytes / 2
            &&& c.query_memory_budget_bytes >= 1_048_576
            &&& c.query_memory_budget_bytes == budget / 4 || (c.query_memory_budget_bytes
                == 1_048_576 && budget / 4 < 1_048_576)
            &&& c.max_query_memory_bytes == c.query_memory_budget_bytes
            &&& cache is Some && cache->Some_0 >= 16_777_216
            &&& cache->Some_0 == budget / 8 || (cache->Some_0 == 16_777_216 && budget / 8
                < 16_777_216)
            &&& sidecar is Some && sidecar->Some_0 >= 33_554_432
            &&& sidecar->Some_0 == budget / 10 || (sidecar->Some_0 == 33_554_432 && budget / 10
                < 33_554_432)
            &&& tables == sidecar
            &&& bodies is Some && bodies->Some_0 >= 16_777_216
            &&& bodies->Some_0 == budget / 20 || (bodies->Some_0 == 16_777_216 && budget / 20
                < 16_777_216)
            &&& budget >= 335_544_320 ==> c.merge_max_memory_bytes + c.query_memory_budget_bytes
                + cache->Some_0 + sidecar->Some_0 + tables->Some_0 + bodies->Some_0 <= budget
            &&& c == Config {
                merge_max_memory_bytes: c.merge_max_memory_bytes,
                merge_max_input_bytes: c.merge_max_input_bytes,
                query_memory_budget_bytes: c.query_memory_budget_bytes,
                max_query_memory_bytes: c.max_query_memory_bytes,
                row_group_cache_max_bytes: cache,
                sidecar_cache_max_bytes: sidecar,
                max_memtable_bytes: tables,
                max_inflight_push_bytes: bodies,
                ..before
            }
        }),
{
}

/// A declared budget is the number that the variable holds, zero is refused, `off` is no
/// budget, and without the variable the budget is sixty percent of the memory that was
/// detected, rounded down.
pub proof fn the_budget_is_the_declared_one_or_a_share(n: u64, limit: u64, source: Seq<char>)
    ensures
        n > 0 ==> {
            let declared = budget_of(Some(decimal(n as nat)), Some(limit), source);
            declared is Ok && declared->Ok_0.0 == Some(n)
        },
        budget_of(Some(decimal(0)), Some(limit), source) is Err,
        budget_of(Some("off"@), Some(limit), source) matches Ok((bytes, _)) && bytes is None,
        budget_of(None, None, source) matches Ok((bytes, from)) && bytes is None && from == source,
        limit * 60 <= u64::MAX ==> {
            let share = budget_of(None, Some(limit), source);
            &&& share is Ok && share->Ok_0.0 is Some
            &&& share->Ok_0.0->Some_0 * 100 <= limit * 60 < share->Ok_0.0->Some_0 * 100 + 100
        },
{
    printed_number(n as nat);
    printed_number(0);
    reveal_strlit("off");
    let off = "off"@;
    assert(ascii_lowered(trimmed(off)) =~= off);
}

/// A path in the tree of cgroups loses the slashes in front of it and nothing else.
pub proof fn only_the_slashes_in_front_go(path: Seq<char>)
    ensures
        without_slashes(seq!['/'] + path) == without_slashes(path),
        path.len() == 0 || path[0] != '/' ==> without_slashes(path) == path,
{
    assert((seq!['/'] + path).drop_first() =~= path);
}

/// The machine's memory is the number of kibibytes behind its name.
pub proof fn the_memory_is_the_number_behind_its_name(text: Seq<char>, n: u64, rest: Seq<char>)
    requires
        rest.len() > 0 ==> is_space(rest[0]),
    ensures
        field_of(lines(text), "MemTotal:"@) == Some(seq![' '] + decimal(n as nat) + rest)
            ==> meminfo_kib(text) == Some(n as nat),
        field_of(lines(text), "MemTotal:"@) is None ==> meminfo_kib(text) is None,
{
    let number = decimal(n as nat);
    let bare = number + rest;
    let value = seq![' '] + number + rest;
    decimal_reads_back(n as nat);
    assert forall|i: int| 0 <= i < number.len() implies !is_space(#[trigger] number[i]) by {
        assert(is_digit(number[i]));
    }
    assert(value.drop_first() =~= bare);
    assert(bare[0] == number[0]);
    assert(trimmed_start(bare) == bare);
    assert(trimmed_start(value) == bare);
    until_the_space(number, rest);
}

} // verus!
