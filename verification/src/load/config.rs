//! The knobs of a load run.

use vstd::prelude::*;
use vstd::string::*;

use crate::checks::shown;
use crate::env::{get, lookup, string_value};
use crate::text::{
    ascii_lowered, begins_with, chars_of, is_word, lower_ascii, parse_unsigned, parsed_unsigned,
    quote, quoted, starts_with, text_of, trim, trimmed,
};

verus! {

/// Which system a run drives.
#[derive(Clone, Copy, Debug, PartialEq, Eq, Structural)]
pub enum Target {
    Loggytracy,
    Loki,
}

/// A name as it is compared: without space around it, in lower case.
pub open spec fn plain_name(raw: Seq<char>) -> Seq<char> {
    ascii_lowered(trimmed(raw))
}

fn plain(raw: &str) -> (out: Vec<char>)
    ensures
        out@ == plain_name(raw@),
{
    let chars = chars_of(raw);
    let trimmed = trim(chars.as_slice());
    lower_ascii(trimmed.as_slice())
}

/// The target that a name stands for, or why there is none.
pub open spec fn target_of(raw: Seq<char>) -> Result<Target, Seq<char>> {
    let name = plain_name(raw);
    if name == "loggytracy"@ {
        Ok(Target::Loggytracy)
    } else if name == "loki"@ {
        Ok(Target::Loki)
    } else {
        Err("LOGGYTRACY_LOAD_TARGET must be loggytracy or loki, got "@ + quoted(name))
    }
}

impl Target {
    pub fn parse(raw: &str) -> (out: Result<Self, String>)
        ensures
            match out {
                Ok(target) => target_of(raw@) == Ok::<Target, Seq<char>>(target),
                Err(message) => target_of(raw@) == Err::<Target, Seq<char>>(message@),
            },
    {
        let name = plain(raw);
        if is_word(name.as_slice(), "loggytracy") {
            return Ok(Target::Loggytracy);
        }
        if is_word(name.as_slice(), "loki") {
            return Ok(Target::Loki);
        }
        let shown = text_of(name.as_slice());
        let mut message = "LOGGYTRACY_LOAD_TARGET must be loggytracy or loki, got ".to_owned();
        message.append(quote(shown.as_str()).as_str());
        Err(message)
    }

    pub fn name(self) -> (name: &'static str)
        ensures
            name@ == match self {
                Target::Loggytracy => "loggytracy"@,
                Target::Loki => "loki"@,
            },
    {
        match self {
            Target::Loggytracy => "loggytracy",
            Target::Loki => "loki",
        }
    }
}

/// What a run does: it offers a rate, pushes a fixed dataset, or times queries
/// over that dataset.
#[derive(Clone, Copy, Debug, PartialEq, Eq, Structural)]
pub enum Phase {
    Load,
    Seed,
    Matrix,
}

/// The phase that a name stands for, or why there is none.
pub open spec fn phase_of(raw: Seq<char>) -> Result<Phase, Seq<char>> {
    let name = plain_name(raw);
    if name == "load"@ {
        Ok(Phase::Load)
    } else if name == "seed"@ {
        Ok(Phase::Seed)
    } else if name == "matrix"@ {
        Ok(Phase::Matrix)
    } else {
        Err("LOGGYTRACY_LOAD_PHASE must be load, seed or matrix, got "@ + quoted(name))
    }
}

impl Phase {
    pub fn parse(raw: &str) -> (out: Result<Self, String>)
        ensures
            match out {
                Ok(phase) => phase_of(raw@) == Ok::<Phase, Seq<char>>(phase),
                Err(message) => phase_of(raw@) == Err::<Phase, Seq<char>>(message@),
            },
    {
        let name = plain(raw);
        if is_word(name.as_slice(), "load") {
            return Ok(Phase::Load);
        }
        if is_word(name.as_slice(), "seed") {
            return Ok(Phase::Seed);
        }
        if is_word(name.as_slice(), "matrix") {
            return Ok(Phase::Matrix);
        }
        let shown = text_of(name.as_slice());
        let mut message = "LOGGYTRACY_LOAD_PHASE must be load, seed or matrix, got ".to_owned();
        message.append(quote(shown.as_str()).as_str());
        Err(message)
    }
}

/// The targets of a run that are whole numbers.
#[derive(Clone, Copy, Debug, PartialEq, Eq, Structural)]
pub struct Targets {
    pub rss_max_bytes: u64,
    pub wal_backlog_max_bytes: u64,
    pub min_backlog_samples: usize,
}

/// The fixed dataset that the query comparison runs on, and the queries over it.
pub struct Verify {
    pub tenant_prefix: String,
    pub rows: usize,
    pub streams: usize,
    pub labels_per_stream: usize,
    /// Nanoseconds between rows in log time.
    pub step_ns: i64,
    /// Where the dataset starts, in nanoseconds. Zero stands for none: the two runs of a
    /// comparison must be given the same one.
    pub anchor_ns: i64,
    pub entries_per_push: usize,
    pub push_connections: usize,
    /// How many windows the dataset is cut into.
    pub windows: usize,
    /// How often a query is repeated after its first issue.
    pub repeats: usize,
    pub limit: usize,
    pub range: String,
    pub step_seconds: i64,
}

/// The knobs of a load run that are whole numbers or text.
pub struct Config {
    pub target: Target,
    pub phase: Phase,
    pub server_pid: Option<u32>,
    /// The cgroup directory of the server's container. It comes before the pid.
    pub cgroup_path: Option<String>,
    pub result_path: Option<String>,
    pub http_address: String,
    pub otlp_address: String,
    pub tier: String,
    pub seed: u64,
    pub duration_seconds: u64,
    pub warmup_seconds: u64,
    pub target_events: u64,
    pub request_timeout_seconds: u64,
    pub sample_interval_ms: u64,
    pub ingest_connections: usize,
    pub entries_per_push: usize,
    pub streams_per_push: usize,
    pub corpus_rows: usize,
    pub tenants: usize,
    pub streams: usize,
    pub labels_per_stream: usize,
    pub metadata_pairs: usize,
    pub plain_weight: u32,
    pub json_weight: u32,
    pub logfmt_weight: u32,
    pub entry_spread_ms: u64,
    pub late_max_ms: u64,
    pub query_connections: usize,
    pub query_window_seconds: i64,
    pub query_limit: usize,
    pub restore_lookback_seconds: i64,
    pub query_weights: [u32; 5],
    pub verify: Verify,
    pub targets: Targets,
}

// ----------------------------------------------------------------- the reading
/// A number knob: what it reads as, or the default where it reads as no number.
pub open spec fn u64_knob_value(vars: Seq<(String, String)>, name: Seq<char>, default: u64) -> u64 {
    match lookup(vars, name) {
        Some(raw) => match parsed_unsigned(raw, u64::MAX as nat) {
            Some(n) => n as u64,
            None => default,
        },
        None => default,
    }
}

pub open spec fn usize_knob_value(
    vars: Seq<(String, String)>,
    name: Seq<char>,
    default: usize,
) -> usize {
    match lookup(vars, name) {
        Some(raw) => match parsed_unsigned(raw, usize::MAX as nat) {
            Some(n) => n as usize,
            None => default,
        },
        None => default,
    }
}

pub open spec fn at_least(n: int, least: int) -> int {
    if n < least {
        least
    } else {
        n
    }
}

pub open spec fn at_most(n: int, most: int) -> int {
    if n > most {
        most
    } else {
        n
    }
}

pub open spec fn within(n: int, least: int, most: int) -> int {
    at_most(at_least(n, least), most)
}

/// A process id, if text is one.
pub open spec fn pid_of(raw: Option<Seq<char>>) -> Option<u32> {
    match raw {
        Some(raw) => match parsed_unsigned(trimmed(raw), u32::MAX as nat) {
            Some(n) => Some(n as u32),
            None => None,
        },
        None => None,
    }
}

/// Text, if it is more than space.
pub open spec fn not_blank(raw: Option<Seq<char>>) -> Option<Seq<char>> {
    match raw {
        Some(raw) => if trimmed(raw).len() == 0 {
            None
        } else {
            Some(raw)
        },
        None => None,
    }
}

fn u64_knob(vars: &[(String, String)], name: &str, default: u64) -> (n: u64)
    ensures
        n == u64_knob_value(vars@, name@, default),
{
    match get(vars, name) {
        Some(raw) => {
            let chars = chars_of(raw.as_str());
            match parse_unsigned(chars.as_slice(), u64::MAX) {
                Some(n) => n,
                None => default,
            }
        },
        None => default,
    }
}

fn usize_knob(vars: &[(String, String)], name: &str, default: usize) -> (n: usize)
    ensures
        n == usize_knob_value(vars@, name@, default),
{
    match get(vars, name) {
        Some(raw) => {
            let chars = chars_of(raw.as_str());
            match parse_unsigned(chars.as_slice(), usize::MAX as u64) {
                Some(n) => n as usize,
                None => default,
            }
        },
        None => default,
    }
}

fn text_knob(vars: &[(String, String)], name: &str, default: &str) -> (out: String)
    ensures
        out@ == string_value(vars@, name@, default@),
{
    reveal(string_value);
    match get(vars, name) {
        Some(raw) => raw.clone(),
        None => default.to_owned(),
    }
}

fn set_knob(vars: &[(String, String)], name: &str) -> (out: Option<String>)
    ensures
        shown(out) == lookup(vars@, name@),
{
    match get(vars, name) {
        Some(raw) => Some(raw.clone()),
        None => None,
    }
}

fn path_knob(vars: &[(String, String)], name: &str) -> (out: Option<String>)
    ensures
        shown(out) == not_blank(lookup(vars@, name@)),
{
    match get(vars, name) {
        Some(raw) => {
            let chars = chars_of(raw.as_str());
            if trim(chars.as_slice()).len() == 0 {
                None
            } else {
                Some(raw.clone())
            }
        },
        None => None,
    }
}

fn pid_knob(vars: &[(String, String)], name: &str) -> (out: Option<u32>)
    ensures
        out == pid_of(lookup(vars@, name@)),
{
    match get(vars, name) {
        Some(raw) => {
            let chars = chars_of(raw.as_str());
            match parse_unsigned(trim(chars.as_slice()).as_slice(), u32::MAX as u64) {
                Some(n) => Some(n as u32),
                None => None,
            }
        },
        None => None,
    }
}

fn at_least_u64(n: u64, least: u64) -> (out: u64)
    ensures
        out == at_least(n as int, least as int),
{
    if n < least {
        least
    } else {
        n
    }
}

fn at_most_u64(n: u64, most: u64) -> (out: u64)
    ensures
        out == at_most(n as int, most as int),
{
    if n > most {
        most
    } else {
        n
    }
}

fn at_least_usize(n: usize, least: usize) -> (out: usize)
    ensures
        out == at_least(n as int, least as int),
{
    if n < least {
        least
    } else {
        n
    }
}

fn within_usize(n: usize, least: usize, most: usize) -> (out: usize)
    requires
        least <= most,
    ensures
        out == within(n as int, least as int, most as int),
{
    if n < least {
        least
    } else if n > most {
        most
    } else {
        n
    }
}

/// Whether the dataset knobs are what variables say.
pub open spec fn verify_reads(verify: Verify, vars: Seq<(String, String)>) -> bool {
    &&& verify.tenant_prefix@ == string_value(vars, "LOGGYTRACY_LOAD_VERIFY_TENANT_PREFIX"@, "verify-tenant"@)
    &&& verify.rows == at_least(usize_knob_value(vars, "LOGGYTRACY_LOAD_VERIFY_ROWS"@, 120_000) as int, 1)
    &&& verify.streams == at_least(usize_knob_value(vars, "LOGGYTRACY_LOAD_VERIFY_STREAMS"@, 32) as int, 1)
    &&& verify.labels_per_stream == within(usize_knob_value(vars, "LOGGYTRACY_LOAD_VERIFY_LABELS"@, 6) as int, 1, 10)
    &&& verify.step_ns == ((at_least(u64_knob_value(vars, "LOGGYTRACY_LOAD_VERIFY_STEP_NS"@, 1_000_000) as int, 1) as u64) as i64)
    &&& verify.anchor_ns == (u64_knob_value(vars, "LOGGYTRACY_LOAD_VERIFY_ANCHOR_NS"@, 0) as i64)
    &&& verify.entries_per_push == at_least(usize_knob_value(vars, "LOGGYTRACY_LOAD_VERIFY_ENTRIES_PER_PUSH"@, 100) as int, 1)
    &&& verify.push_connections == at_least(usize_knob_value(vars, "LOGGYTRACY_LOAD_VERIFY_CONNECTIONS"@, 4) as int, 1)
    &&& verify.windows == at_least(usize_knob_value(vars, "LOGGYTRACY_LOAD_MATRIX_WINDOWS"@, 3) as int, 1)
    &&& verify.repeats == at_least(usize_knob_value(vars, "LOGGYTRACY_LOAD_MATRIX_REPEATS"@, 5) as int, 1)
    &&& verify.limit == at_least(usize_knob_value(vars, "LOGGYTRACY_LOAD_MATRIX_LIMIT"@, 20_000) as int, 1)
    &&& verify.range@ == string_value(vars, "LOGGYTRACY_LOAD_MATRIX_RANGE"@, "1m"@)
    &&& verify.step_seconds == ((at_least(u64_knob_value(vars, "LOGGYTRACY_LOAD_MATRIX_STEP_SECONDS"@, 10) as int, 1) as u64) as i64)
}

/// Whether the knobs are what variables say, each of them kept within its bounds.
pub open spec fn reads(config: Config, vars: Seq<(String, String)>) -> bool {
    &&& config.http_address@ == string_value(vars, "LOGGYTRACY_LOAD_ADDR"@, "127.0.0.1:3100"@)
    &&& config.otlp_address@ == string_value(vars, "LOGGYTRACY_LOAD_OTLP_ADDR"@, "127.0.0.1:4317"@)
    &&& config.tier@ == string_value(vars, "LOGGYTRACY_LOAD_TIER"@, "B"@)
    &&& config.seed == u64_knob_value(vars, "LOGGYTRACY_LOAD_SEED"@, 0x5eed_2026)
    &&& config.duration_seconds == at_least(u64_knob_value(vars, "LOGGYTRACY_LOAD_SECONDS"@, 60) as int, 1)
    &&& config.warmup_seconds == at_most(u64_knob_value(vars, "LOGGYTRACY_LOAD_WARMUP_SECONDS"@, 10) as int, config.duration_seconds - 1)
    &&& config.target_events == u64_knob_value(vars, "LOGGYTRACY_LOAD_EVENTS"@, 0)
    &&& config.request_timeout_seconds == at_least(u64_knob_value(vars, "LOGGYTRACY_LOAD_REQUEST_TIMEOUT_SECONDS"@, 60) as int, 1)
    &&& config.sample_interval_ms == at_least(u64_knob_value(vars, "LOGGYTRACY_LOAD_SAMPLE_INTERVAL_MS"@, 1000) as int, 50)
    &&& config.ingest_connections == at_least(usize_knob_value(vars, "LOGGYTRACY_LOAD_CONNECTIONS"@, 8) as int, 1)
    &&& config.entries_per_push == at_least(usize_knob_value(vars, "LOGGYTRACY_LOAD_ENTRIES_PER_PUSH"@, 100) as int, 1)
    &&& config.streams_per_push == at_least(usize_knob_value(vars, "LOGGYTRACY_LOAD_STREAMS_PER_PUSH"@, 4) as int, 1)
    &&& config.corpus_rows == at_least(usize_knob_value(vars, "LOGGYTRACY_LOAD_CORPUS_ROWS"@, 50_000) as int, 1)
    &&& config.tenants == at_least(usize_knob_value(vars, "LOGGYTRACY_LOAD_TENANTS"@, 4) as int, 1)
    &&& config.streams == at_least(usize_knob_value(vars, "LOGGYTRACY_LOAD_STREAMS"@, 256) as int, 1)
    &&& config.labels_per_stream == within(usize_knob_value(vars, "LOGGYTRACY_LOAD_LABELS_PER_STREAM"@, 6) as int, 1, 10)
    &&& config.metadata_pairs == usize_knob_value(vars, "LOGGYTRACY_LOAD_METADATA_PAIRS"@, 2)
    &&& config.plain_weight == (u64_knob_value(vars, "LOGGYTRACY_LOAD_PLAIN_WEIGHT"@, 3) as u32)
    &&& config.json_weight == (u64_knob_value(vars, "LOGGYTRACY_LOAD_JSON_WEIGHT"@, 5) as u32)
    &&& config.logfmt_weight == (u64_knob_value(vars, "LOGGYTRACY_LOAD_LOGFMT_WEIGHT"@, 2) as u32)
    &&& config.entry_spread_ms == u64_knob_value(vars, "LOGGYTRACY_LOAD_ENTRY_SPREAD_MS"@, 250)
    &&& config.late_max_ms == u64_knob_value(vars, "LOGGYTRACY_LOAD_LATE_MAX_MS"@, 30_000)
    &&& config.query_connections == at_least(usize_knob_value(vars, "LOGGYTRACY_LOAD_QUERY_CONNECTIONS"@, 4) as int, 1)
    &&& config.query_window_seconds == (u64_knob_value(vars, "LOGGYTRACY_LOAD_QUERY_WINDOW_SECONDS"@, 60) as i64)
    &&& config.query_limit == at_least(usize_knob_value(vars, "LOGGYTRACY_LOAD_QUERY_LIMIT"@, 100) as int, 1)
    &&& config.restore_lookback_seconds == (u64_knob_value(vars, "LOGGYTRACY_LOAD_RESTORE_LOOKBACK_SECONDS"@, 60) as i64)
    &&& config.server_pid == pid_of(lookup(vars, "LOGGYTRACY_LOAD_SERVER_PID"@))
    &&& shown(config.cgroup_path) == not_blank(lookup(vars, "LOGGYTRACY_LOAD_CGROUP"@))
    &&& shown(config.result_path) == lookup(vars, "LOGGYTRACY_LOAD_RESULT_PATH"@)
    &&& config.query_weights@[0] == (u64_knob_value(vars, "LOGGYTRACY_LOAD_QUERY_WEIGHT_LABEL_ONLY"@, 3) as u32)
    &&& config.query_weights@[1] == (u64_knob_value(vars, "LOGGYTRACY_LOAD_QUERY_WEIGHT_LINE_FILTER"@, 3) as u32)
    &&& config.query_weights@[2] == (u64_knob_value(vars, "LOGGYTRACY_LOAD_QUERY_WEIGHT_JSON_FIELD"@, 3) as u32)
    &&& config.query_weights@[3] == (u64_knob_value(vars, "LOGGYTRACY_LOAD_QUERY_WEIGHT_RATE"@, 2) as u32)
    &&& config.query_weights@[4] == (u64_knob_value(vars, "LOGGYTRACY_LOAD_QUERY_WEIGHT_RESTORE_PROBE"@, 1) as u32)
    &&& verify_reads(config.verify, vars)
    &&& config.targets.rss_max_bytes == u64_knob_value(
        vars,
        "LOGGYTRACY_TARGET_RSS_MAX_BYTES"@,
        4_294_967_296,
    )
    &&& config.targets.wal_backlog_max_bytes == u64_knob_value(
        vars,
        "LOGGYTRACY_TARGET_WAL_BACKLOG_MAX_BYTES"@,
        1_073_741_824,
    )
    &&& config.targets.min_backlog_samples == at_least(
        usize_knob_value(vars, "LOGGYTRACY_TARGET_MIN_BACKLOG_SAMPLES"@, 8) as int,
        2,
    )
}

fn read_verify(vars: &[(String, String)]) -> (verify: Verify)
    ensures
        verify_reads(verify, vars@),
{
    Verify {
        tenant_prefix: text_knob(vars, "LOGGYTRACY_LOAD_VERIFY_TENANT_PREFIX", "verify-tenant"),
        rows: at_least_usize(usize_knob(vars, "LOGGYTRACY_LOAD_VERIFY_ROWS", 120_000), 1),
        streams: at_least_usize(usize_knob(vars, "LOGGYTRACY_LOAD_VERIFY_STREAMS", 32), 1),
        labels_per_stream: within_usize(usize_knob(vars, "LOGGYTRACY_LOAD_VERIFY_LABELS", 6), 1, 10),
        step_ns: (at_least_u64(u64_knob(vars, "LOGGYTRACY_LOAD_VERIFY_STEP_NS", 1_000_000), 1) as i64),
        anchor_ns: (u64_knob(vars, "LOGGYTRACY_LOAD_VERIFY_ANCHOR_NS", 0) as i64),
        entries_per_push: at_least_usize(usize_knob(vars, "LOGGYTRACY_LOAD_VERIFY_ENTRIES_PER_PUSH", 100), 1),
        push_connections: at_least_usize(usize_knob(vars, "LOGGYTRACY_LOAD_VERIFY_CONNECTIONS", 4), 1),
        windows: at_least_usize(usize_knob(vars, "LOGGYTRACY_LOAD_MATRIX_WINDOWS", 3), 1),
        repeats: at_least_usize(usize_knob(vars, "LOGGYTRACY_LOAD_MATRIX_REPEATS", 5), 1),
        limit: at_least_usize(usize_knob(vars, "LOGGYTRACY_LOAD_MATRIX_LIMIT", 20_000), 1),
        range: text_knob(vars, "LOGGYTRACY_LOAD_MATRIX_RANGE", "1m"),
        step_seconds: (at_least_u64(u64_knob(vars, "LOGGYTRACY_LOAD_MATRIX_STEP_SECONDS", 10), 1) as i64),
    }
}

impl Config {
    /// Reads the knobs out of variables. A number that cannot be read keeps its
    /// default; a target or a phase that there is not is refused.
    pub fn from_env(vars: &[(String, String)]) -> (out: Result<Self, String>)
        ensures
            ({
                let target = target_of(
                    string_value(vars@, "LOGGYTRACY_LOAD_TARGET"@, "loggytracy"@),
                );
                let phase = phase_of(string_value(vars@, "LOGGYTRACY_LOAD_PHASE"@, "load"@));
                match out {
                    Ok(config) => {
                        &&& target == Ok::<Target, Seq<char>>(config.target)
                        &&& phase == Ok::<Phase, Seq<char>>(config.phase)
                        &&& reads(config, vars@)
                    },
                    Err(message) => match target {
                        Err(problem) => message@ == problem,
                        Ok(_) => phase == Err::<Phase, Seq<char>>(message@),
                    },
                }
            }),
    {
        let named = text_knob(vars, "LOGGYTRACY_LOAD_TARGET", "loggytracy");
        let target = match Target::parse(named.as_str()) {
            Ok(target) => target,
            Err(message) => {
                return Err(message);
            },
        };
        let named = text_knob(vars, "LOGGYTRACY_LOAD_PHASE", "load");
        let phase = match Phase::parse(named.as_str()) {
            Ok(phase) => phase,
            Err(message) => {
                return Err(message);
            },
        };
        let duration_seconds: u64 = at_least_u64(u64_knob(vars, "LOGGYTRACY_LOAD_SECONDS", 60), 1);
        let config = Config {
            target,
            phase,
            server_pid: pid_knob(vars, "LOGGYTRACY_LOAD_SERVER_PID"),
            cgroup_path: path_knob(vars, "LOGGYTRACY_LOAD_CGROUP"),
            result_path: set_knob(vars, "LOGGYTRACY_LOAD_RESULT_PATH"),
            http_address: text_knob(vars, "LOGGYTRACY_LOAD_ADDR", "127.0.0.1:3100"),
            otlp_address: text_knob(vars, "LOGGYTRACY_LOAD_OTLP_ADDR", "127.0.0.1:4317"),
            tier: text_knob(vars, "LOGGYTRACY_LOAD_TIER", "B"),
            seed: u64_knob(vars, "LOGGYTRACY_LOAD_SEED", 0x5eed_2026),
            duration_seconds,
            warmup_seconds: at_most_u64(u64_knob(vars, "LOGGYTRACY_LOAD_WARMUP_SECONDS", 10), duration_seconds - 1),
            target_events: u64_knob(vars, "LOGGYTRACY_LOAD_EVENTS", 0),
            request_timeout_seconds: at_least_u64(u64_knob(vars, "LOGGYTRACY_LOAD_REQUEST_TIMEOUT_SECONDS", 60), 1),
            sample_interval_ms: at_least_u64(u64_knob(vars, "LOGGYTRACY_LOAD_SAMPLE_INTERVAL_MS", 1000), 50),
            ingest_connections: at_least_usize(usize_knob(vars, "LOGGYTRACY_LOAD_CONNECTIONS", 8), 1),
            entries_per_push: at_least_usize(usize_knob(vars, "LOGGYTRACY_LOAD_ENTRIES_PER_PUSH", 100), 1),
            streams_per_push: at_least_usize(usize_knob(vars, "LOGGYTRACY_LOAD_STREAMS_PER_PUSH", 4), 1),
            corpus_rows: at_least_usize(usize_knob(vars, "LOGGYTRACY_LOAD_CORPUS_ROWS", 50_000), 1),
            tenants: at_least_usize(usize_knob(vars, "LOGGYTRACY_LOAD_TENANTS", 4), 1),
            streams: at_least_usize(usize_knob(vars, "LOGGYTRACY_LOAD_STREAMS", 256), 1),
            labels_per_stream: within_usize(usize_knob(vars, "LOGGYTRACY_LOAD_LABELS_PER_STREAM", 6), 1, 10),
            metadata_pairs: usize_knob(vars, "LOGGYTRACY_LOAD_METADATA_PAIRS", 2),
            plain_weight: (u64_knob(vars, "LOGGYTRACY_LOAD_PLAIN_WEIGHT", 3) as u32),
            json_weight: (u64_knob(vars, "LOGGYTRACY_LOAD_JSON_WEIGHT", 5) as u32),
            logfmt_weight: (u64_knob(vars, "LOGGYTRACY_LOAD_LOGFMT_WEIGHT", 2) as u32),
            entry_spread_ms: u64_knob(vars, "LOGGYTRACY_LOAD_ENTRY_SPREAD_MS", 250),
            late_max_ms: u64_knob(vars, "LOGGYTRACY_LOAD_LATE_MAX_MS", 30_000),
            query_connections: at_least_usize(usize_knob(vars, "LOGGYTRACY_LOAD_QUERY_CONNECTIONS", 4), 1),
            query_window_seconds: (u64_knob(vars, "LOGGYTRACY_LOAD_QUERY_WINDOW_SECONDS", 60) as i64),
            query_limit: at_least_usize(usize_knob(vars, "LOGGYTRACY_LOAD_QUERY_LIMIT", 100), 1),
            restore_lookback_seconds: (u64_knob(vars, "LOGGYTRACY_LOAD_RESTORE_LOOKBACK_SECONDS", 60) as i64),
            query_weights: [
                u64_knob(vars, "LOGGYTRACY_LOAD_QUERY_WEIGHT_LABEL_ONLY", 3) as u32,
                u64_knob(vars, "LOGGYTRACY_LOAD_QUERY_WEIGHT_LINE_FILTER", 3) as u32,
                u64_knob(vars, "LOGGYTRACY_LOAD_QUERY_WEIGHT_JSON_FIELD", 3) as u32,
                u64_knob(vars, "LOGGYTRACY_LOAD_QUERY_WEIGHT_RATE", 2) as u32,
                u64_knob(vars, "LOGGYTRACY_LOAD_QUERY_WEIGHT_RESTORE_PROBE", 1) as u32,
            ],
            verify: read_verify(vars),
            targets: Targets {
                rss_max_bytes: u64_knob(vars, "LOGGYTRACY_TARGET_RSS_MAX_BYTES", 4_294_967_296),
                wal_backlog_max_bytes: u64_knob(
                    vars,
                    "LOGGYTRACY_TARGET_WAL_BACKLOG_MAX_BYTES",
                    1_073_741_824,
                ),
                min_backlog_samples: at_least_usize(
                    usize_knob(vars, "LOGGYTRACY_TARGET_MIN_BACKLOG_SAMPLES", 8),
                    2,
                ),
            },
        };
        Ok(config)
    }

    /// Where the server's memory is read from, or why it cannot be.
    pub fn memory_source(&self) -> (out: Result<MemorySource, String>)
        ensures
            match out {
                Ok(MemorySource::Cgroup(dir)) => self.cgroup_path is Some && dir@
                    == self.cgroup_path->Some_0@,
                Ok(MemorySource::Proc(pid)) => self.cgroup_path is None && self.server_pid == Some(
                    pid,
                ),
                Err(message) => {
                    &&& self.cgroup_path is None && self.server_pid is None
                    &&& message@
                        == "neither LOGGYTRACY_LOAD_CGROUP nor LOGGYTRACY_LOAD_SERVER_PID was set, so no server memory could be watched"@
                },
            },
    {
        match (&self.cgroup_path, self.server_pid) {
            (Some(dir), _) => Ok(MemorySource::Cgroup(dir.clone())),
            (None, Some(pid)) => Ok(MemorySource::Proc(pid)),
            (None, None) => Err(
                "neither LOGGYTRACY_LOAD_CGROUP nor LOGGYTRACY_LOAD_SERVER_PID was set, so no server memory could be watched".to_owned(),
            ),
        }
    }

    /// How much log time the dataset covers, in nanoseconds.
    pub fn verify_span_ns(&self) -> (span: i64)
        requires
            0 <= self.verify.step_ns,
            self.verify.rows * self.verify.step_ns <= i64::MAX,
            self.verify.rows <= i64::MAX,
        ensures
            span == self.verify.rows * self.verify.step_ns,
    {
        self.verify.rows as i64 * self.verify.step_ns
    }
}

/// Where a server's memory is read from.
pub enum MemorySource {
    Cgroup(String),
    Proc(u32),
}

// ---------------------------------------------------------------- environment
/// Whether a variable is one of the server's knobs: those of the load run are
/// not, nor is what describes the build and the machine.
pub open spec fn is_server_knob(name: Seq<char>) -> bool {
    &&& begins_with(name, "LOGGYTRACY_"@)
    &&& !begins_with(name, "LOGGYTRACY_LOAD_"@)
    &&& !begins_with(name, "LOGGYTRACY_TARGET_"@)
    &&& name != "LOGGYTRACY_BUILD_REVISION"@
    &&& name != "LOGGYTRACY_MACHINE_PROFILE"@
}

fn has_prefix(name: &[char], prefix: &str) -> (found: bool)
    ensures
        found == begins_with(name@, prefix@),
{
    let prefix = chars_of(prefix);
    starts_with(name, prefix.as_slice())
}

fn server_knob(name: &str) -> (found: bool)
    ensures
        found == is_server_knob(name@),
{
    let chars = chars_of(name);
    has_prefix(chars.as_slice(), "LOGGYTRACY_") && !has_prefix(chars.as_slice(), "LOGGYTRACY_LOAD_")
        && !has_prefix(chars.as_slice(), "LOGGYTRACY_TARGET_") && !is_word(
        chars.as_slice(),
        "LOGGYTRACY_BUILD_REVISION",
    ) && !is_word(chars.as_slice(), "LOGGYTRACY_MACHINE_PROFILE")
}

/// The server's knobs among variables, in their order.
pub fn server_environment(vars: &[(String, String)]) -> (out: Vec<(String, String)>)
    ensures
        out@ == vars@.filter(|var: (String, String)| is_server_knob(var.0@)),
{
    let ghost kept = |var: (String, String)| is_server_knob(var.0@);
    let mut out: Vec<(String, String)> = Vec::new();
    let mut i: usize = 0;
    proof {
        assert(vars@.take(0) =~= seq![]);
        reveal(Seq::filter);
        assert(out@ =~= vars@.take(0).filter(kept));
    }
    while i < vars.len()
        invariant
            i <= vars@.len(),
            kept == (|var: (String, String)| is_server_knob(var.0@)),
            out@ == vars@.take(i as int).filter(kept),
        decreases vars@.len() - i,
    {
        proof {
            assert(vars@.take(i + 1).drop_last() =~= vars@.take(i as int));
            assert(vars@.take(i + 1).last() == vars@[i as int]);
            reveal(Seq::filter);
        }
        if server_knob(vars[i].0.as_str()) {
            out.push((vars[i].0.clone(), vars[i].1.clone()));
        }
        i = i + 1;
    }
    assert(vars@.take(i as int) =~= vars@);
    out
}

/// The revision that was built: as the run was told, else as the commit, else
/// unknown.
pub fn build_revision(vars: &[(String, String)]) -> (out: String)
    ensures
        out@ == match lookup(vars@, "LOGGYTRACY_BUILD_REVISION"@) {
            Some(revision) => revision,
            None => match lookup(vars@, "GIT_COMMIT"@) {
                Some(commit) => commit,
                None => "unknown"@,
            },
        },
{
    match get(vars, "LOGGYTRACY_BUILD_REVISION") {
        Some(revision) => revision.clone(),
        None => match get(vars, "GIT_COMMIT") {
            Some(commit) => commit.clone(),
            None => "unknown".to_owned(),
        },
    }
}

} // verus!
