//! The command line of the memory gate.

use vstd::prelude::*;
use vstd::string::*;

use crate::model::pairs_view;
use crate::text::{
    ascii_lowered, chars_of, find_char, index_of_char, index_of_char_bounds, is_digit,
    is_word, lower_ascii, parse_unsigned, parsed_unsigned, quote, quoted, same_text, subslice,
    text_of, trim, trimmed,
};

verus! {

pub const USAGE: &'static str = "usage: memory_gate --budget <size> [options]\n\n  --budget <size>        the declared budget peak cgroup `anon` is compared\n                         against (required), e.g. 2GiB, 3584MiB, 8G\n  --limit <size>         the cgroup's memory.max. Defaults to --budget, which is\n                         what an operator does. A larger limit makes an overshoot\n                         measurable (OVER_BUDGET) instead of fatal (OOM_KILLED).\n  --name <name>          run name, used for the output directory and the scope\n                         unit (default: budget)\n  --out <dir>            output directory (default: target/memory_gate/<name>)\n  --seconds <n>          duration cap for the workload (default: 240)\n  --events <n>           events to ingest before stopping (default: 1200000)\n  --eps <n>              offered ingest rate (default: 20000)\n  --connections <n>      ingest connections (default: 8)\n  --query-eps <n>        query rate; must be > 0 (default: 5)\n  --query-connections <n> query connections, separate from ingest (default: 4)\n  --settle <n>           seconds to keep sampling after the workload stops, so\n                         the merge backlog load leaves behind is inside the peak\n                         (default: 150, the comparison bed's settle). 0 measures\n                         only the peak of accepting load, which is what this\n                         gate did before it was found to miss a kill.\n  --scenario <what>      logs (default) drives the paced mixed log load; metrics\n                         drives the M14 churn phases \u{2014} steady, rolling series\n                         replacement, then a cardinality burst \u{2014} and gates\n                         acceptance on the steady phase alone, because the\n                         later phases refuse new series by design\n  --seed <n>             corpus seed (default: 1592598566, the comparison bed's)\n  --port <n>             server HTTP port (default: 3251)\n  --server-env K=V       extra environment for the server, repeatable\n  --skip-build           do not run cargo build first\n  --keep-data            keep the server's data directory\n\nexit codes: 0 under budget, 2 over budget, 3 OOM-killed, 4 not measured,\n64 usage. Anything other than 0 is a failure.\n";

/// What a wrong command line exits with.
pub const EXIT_USAGE: i32 = 64;

// ------------------------------------------------------------------ scenarios
/// Which workload a run drives.
#[derive(Clone, Copy, Debug, PartialEq, Eq, Structural)]
pub enum Scenario {
    Logs,
    Metrics,
}

pub open spec fn scenario_of(raw: Seq<char>) -> Result<Scenario, Seq<char>> {
    let name = ascii_lowered(trimmed(raw));
    if name == "logs"@ || name == "log"@ {
        Ok(Scenario::Logs)
    } else if name == "metrics"@ || name == "metric"@ {
        Ok(Scenario::Metrics)
    } else {
        Err("--scenario must be logs or metrics, got "@ + quoted(name))
    }
}

impl Scenario {
    pub fn parse(raw: &str) -> (out: Result<Self, String>)
        ensures
            match out {
                Ok(scenario) => scenario_of(raw@) == Ok::<Scenario, Seq<char>>(scenario),
                Err(message) => scenario_of(raw@) == Err::<Scenario, Seq<char>>(message@),
            },
    {
        let chars = chars_of(raw);
        let plain = trim(chars.as_slice());
        let name = lower_ascii(plain.as_slice());
        if is_word(name.as_slice(), "logs") || is_word(name.as_slice(), "log") {
            return Ok(Scenario::Logs);
        }
        if is_word(name.as_slice(), "metrics") || is_word(name.as_slice(), "metric") {
            return Ok(Scenario::Metrics);
        }
        let mut message = "--scenario must be logs or metrics, got ".to_owned();
        message.append(quote(text_of(name.as_slice()).as_str()).as_str());
        Err(message)
    }

    pub fn name(self) -> (name: &'static str)
        ensures
            name@ == match self {
                Scenario::Logs => "logs"@,
                Scenario::Metrics => "metrics"@,
            },
    {
        match self {
            Scenario::Logs => "logs",
            Scenario::Metrics => "metrics",
        }
    }

    /// The phase of the load run that drives it.
    pub fn phase(self) -> (phase: &'static str)
        ensures
            phase@ == match self {
                Scenario::Logs => "load"@,
                Scenario::Metrics => "metric-load"@,
            },
    {
        match self {
            Scenario::Logs => "load",
            Scenario::Metrics => "metric-load",
        }
    }
}

pub open spec fn larger(a: int, b: int) -> int {
    if a > b {
        a
    } else {
        b
    }
}

/// How long the phases of the metric workload take, in seconds: a fifth of the run
/// is steady, half of it replaces series, and the rest is the burst.
pub fn metric_phase_seconds(seconds: u64) -> (phases: (u64, u64, u64))
    ensures
        phases.0 == larger(seconds as int / 5, 30),
        phases.1 == larger(seconds as int / 2, 60),
        phases.2 == larger(seconds - (phases.0 + phases.1), 30),
{
    let fifth: u64 = seconds / 5;
    let half: u64 = seconds / 2;
    let steady: u64 = if fifth > 30 {
        fifth
    } else {
        30
    };
    let churn: u64 = if half > 60 {
        half
    } else {
        60
    };
    let rest: u64 = if seconds > steady + churn {
        seconds - (steady + churn)
    } else {
        0
    };
    let explosion: u64 = if rest > 30 {
        rest
    } else {
        30
    };
    (steady, churn, explosion)
}

// ---------------------------------------------------------------------- sizes
/// How many digits a text begins with.
pub open spec fn leading_digits(text: Seq<char>) -> nat
    decreases text.len(),
{
    if text.len() == 0 || !is_digit(text[0]) {
        0
    } else {
        1 + leading_digits(text.drop_first())
    }
}

fn count_digits(text: &[char]) -> (n: usize)
    ensures
        n == leading_digits(text@),
        n <= text@.len(),
{
    let mut n: usize = 0;
    assert(text@.skip(0) =~= text@);
    while n < text.len() && '0' <= text[n] && text[n] <= '9'
        invariant
            n <= text@.len(),
            leading_digits(text@) == n + leading_digits(text@.skip(n as int)),
        decreases text@.len() - n,
    {
        assert(text@.skip(n as int).drop_first() =~= text@.skip(n + 1));
        n = n + 1;
    }
    n
}

/// What a unit stands for, in bytes.
pub open spec fn unit_bytes(unit: Seq<char>) -> Option<u64> {
    if unit == "k"@ || unit == "kib"@ || unit == "kb"@ {
        Some(1024)
    } else if unit == "m"@ || unit == "mib"@ || unit == "mb"@ {
        Some(1_048_576)
    } else if unit == "g"@ || unit == "gib"@ || unit == "gb"@ {
        Some(1_073_741_824)
    } else if unit == "b"@ || unit.len() == 0 {
        Some(1)
    } else {
        None
    }
}

fn read_unit(unit: &[char]) -> (out: Option<u64>)
    ensures
        out == unit_bytes(unit@),
{
    if is_word(unit, "k") || is_word(unit, "kib") || is_word(unit, "kb") {
        Some(1024)
    } else if is_word(unit, "m") || is_word(unit, "mib") || is_word(unit, "mb") {
        Some(1_048_576)
    } else if is_word(unit, "g") || is_word(unit, "gib") || is_word(unit, "gb") {
        Some(1_073_741_824)
    } else if is_word(unit, "b") || unit.len() == 0 {
        Some(1)
    } else {
        None
    }
}

/// The unit of a size, as it is compared.
pub open spec fn size_unit(raw: Seq<char>) -> Seq<char> {
    let text = trimmed(raw);
    ascii_lowered(trimmed(text.skip(leading_digits(text) as int)))
}

/// The number of a size.
pub open spec fn size_number(raw: Seq<char>) -> Option<nat> {
    let text = trimmed(raw);
    parsed_unsigned(text.take(leading_digits(text) as int), u64::MAX as nat)
}

/// The bytes that a size stands for and its text, or what is wrong with it.
pub open spec fn size_of_text(raw: Seq<char>) -> Result<(nat, Seq<char>), Seq<char>> {
    match unit_bytes(size_unit(raw)) {
        None => Err("unknown size unit "@ + quoted(size_unit(raw)) + " in "@ + quoted(raw)),
        Some(unit) => match size_number(raw) {
            None => Err(quoted(raw) + " is not a size"@),
            Some(number) => if number == 0 {
                Err(quoted(raw) + " is not a usable size"@)
            } else {
                Ok((number * unit as nat, trimmed(raw)))
            },
        },
    }
}

/// Whether the bytes of a size can be written.
pub open spec fn size_fits(raw: Seq<char>) -> bool {
    size_of_text(raw) matches Ok(size) ==> size.0 <= u64::MAX
}

fn refuse_text(raw: &str, problem: &str) -> (message: String)
    ensures
        message@ == quoted(raw@) + problem@,
{
    let mut message = quote(raw);
    message.append(problem);
    message
}

/// Reads the number and the unit of a size, and its text.
fn size_parts(raw: &str) -> (out: Result<(u64, u64, String), String>)
    ensures
        match out {
            Ok((value, unit, text)) => size_of_text(raw@) == Ok::<(nat, Seq<char>), Seq<char>>(
                (value as nat * unit as nat, text@),
            ),
            Err(message) => size_of_text(raw@) == Err::<(nat, Seq<char>), Seq<char>>(message@),
        },
{
    let chars = chars_of(raw);
    let text = trim(chars.as_slice());
    let n: usize = count_digits(text.as_slice());
    let behind = subslice(text.as_slice(), n, text.len());
    assert(behind@ =~= text@.skip(n as int));
    let plain = trim(behind.as_slice());
    let unit = lower_ascii(plain.as_slice());
    let multiplier: u64 = match read_unit(unit.as_slice()) {
        Some(bytes) => bytes,
        None => {
            let mut message = "unknown size unit ".to_owned();
            message.append(quote(text_of(unit.as_slice()).as_str()).as_str());
            message.append(" in ");
            message.append(quote(raw).as_str());
            return Err(message);
        },
    };
    let digits = subslice(text.as_slice(), 0, n);
    assert(digits@ =~= text@.take(n as int));
    let value: u64 = match parse_unsigned(digits.as_slice(), u64::MAX) {
        Some(value) => value,
        None => {
            return Err(refuse_text(raw, " is not a size"));
        },
    };
    if value == 0 {
        return Err(refuse_text(raw, " is not a usable size"));
    }
    Ok((value, multiplier, text_of(text.as_slice())))
}

/// Whether the bytes of a size can be written; true of a text that is no size.
pub fn is_writable_size(raw: &str) -> (fits: bool)
    ensures
        fits == size_fits(raw@),
{
    match size_parts(raw) {
        Ok((value, unit, _)) => value.checked_mul(unit).is_some(),
        Err(_) => true,
    }
}

/// Reads a size such as `2GiB`.
pub fn parse_size(raw: &str) -> (out: Result<(u64, String), String>)
    requires
        size_fits(raw@),
    ensures
        match out {
            Ok((bytes, text)) => size_of_text(raw@) == Ok::<(nat, Seq<char>), Seq<char>>(
                (bytes as nat, text@),
            ),
            Err(message) => size_of_text(raw@) == Err::<(nat, Seq<char>), Seq<char>>(message@),
        },
{
    let (value, unit, text) = match size_parts(raw) {
        Ok(parts) => parts,
        Err(message) => {
            return Err(message);
        },
    };
    proof {
        assert(0 <= value * unit) by (nonlinear_arith);
    }
    Ok((value * unit, text))
}

/// The whole number that a text gives, or what is wrong with it.
pub open spec fn number_of_text(raw: Seq<char>, max: nat) -> Result<nat, Seq<char>> {
    match parsed_unsigned(trimmed(raw), max) {
        Some(number) => Ok(number),
        None => Err(quoted(raw) + " is not a number"@),
    }
}

/// Reads a whole number that is not above `max`.
pub fn parse_number(raw: &str, max: u64) -> (out: Result<u64, String>)
    ensures
        match out {
            Ok(number) => number_of_text(raw@, max as nat) == Ok::<nat, Seq<char>>(number as nat)
                && number <= max,
            Err(message) => number_of_text(raw@, max as nat) == Err::<nat, Seq<char>>(message@),
        },
{
    let chars = chars_of(raw);
    let plain = trim(chars.as_slice());
    match parse_unsigned(plain.as_slice(), max) {
        Some(number) => Ok(number),
        None => Err(refuse_text(raw, " is not a number")),
    }
}

// ------------------------------------------------------------------ arguments
/// What a text is as a rate, which is a number with a fraction.
#[derive(Clone, Copy, Debug, PartialEq, Eq, Structural)]
pub enum Rate {
    Positive,
    NotPositive,
    Unreadable,
}

/// An argument, and what it is as a rate.
pub struct Argument {
    pub text: String,
    pub rate: Rate,
}

pub type ArgumentView = (Seq<char>, Rate);

impl View for Argument {
    type V = ArgumentView;

    open spec fn view(&self) -> ArgumentView {
        (self.text@, self.rate)
    }
}

#[derive(Clone, Copy, Debug, PartialEq, Eq, Structural)]
pub enum Flag {
    Budget,
    Limit,
    Name,
    Out,
    Seconds,
    Events,
    Eps,
    Connections,
    QueryEps,
    QueryConnections,
    Scenario,
    Seed,
    Port,
    Settle,
    ServerEnv,
    SkipBuild,
    KeepData,
    Help,
}

pub open spec fn flag_of(text: Seq<char>) -> Option<Flag> {
    if text == "--budget"@ {
        Some(Flag::Budget)
    } else if text == "--limit"@ {
        Some(Flag::Limit)
    } else if text == "--name"@ {
        Some(Flag::Name)
    } else if text == "--out"@ {
        Some(Flag::Out)
    } else if text == "--seconds"@ {
        Some(Flag::Seconds)
    } else if text == "--events"@ {
        Some(Flag::Events)
    } else if text == "--eps"@ {
        Some(Flag::Eps)
    } else if text == "--connections"@ {
        Some(Flag::Connections)
    } else if text == "--query-eps"@ {
        Some(Flag::QueryEps)
    } else if text == "--query-connections"@ {
        Some(Flag::QueryConnections)
    } else if text == "--scenario"@ {
        Some(Flag::Scenario)
    } else if text == "--seed"@ {
        Some(Flag::Seed)
    } else if text == "--port"@ {
        Some(Flag::Port)
    } else if text == "--settle"@ {
        Some(Flag::Settle)
    } else if text == "--server-env"@ {
        Some(Flag::ServerEnv)
    } else if text == "--skip-build"@ {
        Some(Flag::SkipBuild)
    } else if text == "--keep-data"@ {
        Some(Flag::KeepData)
    } else if text == "-h"@ || text == "--help"@ {
        Some(Flag::Help)
    } else {
        None
    }
}

fn read_flag(text: &str) -> (flag: Option<Flag>)
    ensures
        flag == flag_of(text@),
{
    if same_text(text, "--budget") {
        Some(Flag::Budget)
    } else if same_text(text, "--limit") {
        Some(Flag::Limit)
    } else if same_text(text, "--name") {
        Some(Flag::Name)
    } else if same_text(text, "--out") {
        Some(Flag::Out)
    } else if same_text(text, "--seconds") {
        Some(Flag::Seconds)
    } else if same_text(text, "--events") {
        Some(Flag::Events)
    } else if same_text(text, "--eps") {
        Some(Flag::Eps)
    } else if same_text(text, "--connections") {
        Some(Flag::Connections)
    } else if same_text(text, "--query-eps") {
        Some(Flag::QueryEps)
    } else if same_text(text, "--query-connections") {
        Some(Flag::QueryConnections)
    } else if same_text(text, "--scenario") {
        Some(Flag::Scenario)
    } else if same_text(text, "--seed") {
        Some(Flag::Seed)
    } else if same_text(text, "--port") {
        Some(Flag::Port)
    } else if same_text(text, "--settle") {
        Some(Flag::Settle)
    } else if same_text(text, "--server-env") {
        Some(Flag::ServerEnv)
    } else if same_text(text, "--skip-build") {
        Some(Flag::SkipBuild)
    } else if same_text(text, "--keep-data") {
        Some(Flag::KeepData)
    } else if same_text(text, "-h") || same_text(text, "--help") {
        Some(Flag::Help)
    } else {
        None
    }
}

/// What has been read of a command line so far.
pub struct Settings {
    pub budget: Option<(u64, String)>,
    pub limit: Option<(u64, String)>,
    pub name: String,
    pub out: Option<String>,
    pub seconds: u64,
    pub events: u64,
    pub eps: String,
    pub connections: usize,
    pub query_eps: String,
    pub query_rate: Rate,
    pub query_connections: usize,
    pub seed: u64,
    pub port: u16,
    pub settle: u64,
    pub server_env: Vec<(String, String)>,
    pub skip_build: bool,
    pub keep_data: bool,
    pub scenario: Scenario,
}

#[verifier::ext_equal]
pub struct SettingsView {
    pub budget: Option<(nat, Seq<char>)>,
    pub limit: Option<(nat, Seq<char>)>,
    pub name: Seq<char>,
    pub out: Option<Seq<char>>,
    pub seconds: nat,
    pub events: nat,
    pub eps: Seq<char>,
    pub connections: nat,
    pub query_eps: Seq<char>,
    pub query_rate: Rate,
    pub query_connections: nat,
    pub seed: nat,
    pub port: nat,
    pub settle: nat,
    pub server_env: Seq<(Seq<char>, Seq<char>)>,
    pub skip_build: bool,
    pub keep_data: bool,
    pub scenario: Scenario,
}

pub open spec fn size_view(size: Option<(u64, String)>) -> Option<(nat, Seq<char>)> {
    match size {
        Some(size) => Some((size.0 as nat, size.1@)),
        None => None,
    }
}

impl View for Settings {
    type V = SettingsView;

    open spec fn view(&self) -> SettingsView {
        SettingsView {
            budget: size_view(self.budget),
            limit: size_view(self.limit),
            name: self.name@,
            out: crate::checks::shown(self.out),
            seconds: self.seconds as nat,
            events: self.events as nat,
            eps: self.eps@,
            connections: self.connections as nat,
            query_eps: self.query_eps@,
            query_rate: self.query_rate,
            query_connections: self.query_connections as nat,
            seed: self.seed as nat,
            port: self.port as nat,
            settle: self.settle as nat,
            server_env: pairs_view(self.server_env@),
            skip_build: self.skip_build,
            keep_data: self.keep_data,
            scenario: self.scenario,
        }
    }
}

/// What holds where the command line says nothing.
pub open spec fn initial_settings() -> SettingsView {
    SettingsView {
        budget: None,
        limit: None,
        name: "budget"@,
        out: None,
        seconds: 240,
        events: 1_200_000,
        eps: "20000"@,
        connections: 8,
        query_eps: "5"@,
        query_rate: Rate::Positive,
        query_connections: 4,
        seed: 1_592_598_566,
        port: 3251,
        settle: 150,
        server_env: seq![],
        skip_build: false,
        keep_data: false,
        scenario: Scenario::Logs,
    }
}

/// The key and the value of `K=V`, split at the first `=`.
pub open spec fn split_pair(raw: Seq<char>) -> Option<(Seq<char>, Seq<char>)> {
    let at = index_of_char(raw, '=');
    if at < raw.len() {
        Some((raw.take(at), raw.skip(at + 1)))
    } else {
        None
    }
}

/// The settings once a flag was given a value.
pub open spec fn with_value(before: SettingsView, flag: Flag, value: ArgumentView) -> Result<
    SettingsView,
    Seq<char>,
> {
    let number = number_of_text(value.0, u64::MAX as nat);
    let count = number_of_text(value.0, usize::MAX as nat);
    match flag {
        Flag::Budget => match size_of_text(value.0) {
            Ok(size) => Ok(SettingsView { budget: Some(size), ..before }),
            Err(message) => Err(message),
        },
        Flag::Limit => match size_of_text(value.0) {
            Ok(size) => Ok(SettingsView { limit: Some(size), ..before }),
            Err(message) => Err(message),
        },
        Flag::Name => Ok(SettingsView { name: value.0, ..before }),
        Flag::Out => Ok(SettingsView { out: Some(value.0), ..before }),
        Flag::Seconds => match number {
            Ok(seconds) => Ok(SettingsView { seconds, ..before }),
            Err(message) => Err(message),
        },
        Flag::Events => match number {
            Ok(events) => Ok(SettingsView { events, ..before }),
            Err(message) => Err(message),
        },
        Flag::Eps => if value.1 == Rate::Unreadable {
            Err(quoted(value.0) + " is not a number"@)
        } else {
            Ok(SettingsView { eps: trimmed(value.0), ..before })
        },
        Flag::Connections => match count {
            Ok(connections) => Ok(SettingsView { connections, ..before }),
            Err(message) => Err(message),
        },
        Flag::QueryEps => if value.1 == Rate::Unreadable {
            Err(quoted(value.0) + " is not a number"@)
        } else {
            Ok(SettingsView { query_eps: trimmed(value.0), query_rate: value.1, ..before })
        },
        Flag::QueryConnections => match count {
            Ok(query_connections) => Ok(SettingsView { query_connections, ..before }),
            Err(message) => Err(message),
        },
        Flag::Scenario => match scenario_of(value.0) {
            Ok(scenario) => Ok(SettingsView { scenario, ..before }),
            Err(message) => Err(message),
        },
        Flag::Seed => match number {
            Ok(seed) => Ok(SettingsView { seed, ..before }),
            Err(message) => Err(message),
        },
        Flag::Port => match number_of_text(value.0, u16::MAX as nat) {
            Ok(port) => Ok(SettingsView { port, ..before }),
            Err(message) => Err(message),
        },
        Flag::Settle => match number {
            Ok(settle) => Ok(SettingsView { settle, ..before }),
            Err(message) => Err(message),
        },
        Flag::ServerEnv => match split_pair(value.0) {
            Some(pair) => Ok(SettingsView { server_env: before.server_env.push(pair), ..before }),
            None => Err("--server-env wants K=V, got "@ + quoted(value.0)),
        },
        Flag::SkipBuild => Ok(SettingsView { skip_build: true, ..before }),
        Flag::KeepData => Ok(SettingsView { keep_data: true, ..before }),
        Flag::Help => Err(USAGE@),
    }
}

/// Whether a flag stands alone.
pub open spec fn is_switch(flag: Flag) -> bool {
    flag == Flag::SkipBuild || flag == Flag::KeepData || flag == Flag::Help
}

/// The settings once the arguments from one on have been read.
pub open spec fn settings_from(
    before: SettingsView,
    arguments: Seq<ArgumentView>,
    from: int,
) -> Result<SettingsView, Seq<char>>
    decreases arguments.len() - from,
{
    if from < 0 || from >= arguments.len() {
        Ok(before)
    } else {
        let text = arguments[from].0;
        match flag_of(text) {
            None => Err("unknown argument "@ + quoted(text) + "\n\n"@ + USAGE@),
            Some(flag) => if is_switch(flag) {
                match with_value(before, flag, arguments[from]) {
                    Ok(after) => settings_from(after, arguments, from + 1),
                    Err(message) => Err(message),
                }
            } else if from + 1 >= arguments.len() {
                Err(text + " needs a value"@)
            } else {
                match with_value(before, flag, arguments[from + 1]) {
                    Ok(after) => settings_from(after, arguments, from + 2),
                    Err(message) => Err(message),
                }
            },
        }
    }
}

fn write_split(raw: &str) -> (out: Option<(String, String)>)
    ensures
        match out {
            Some(pair) => split_pair(raw@) == Some((pair.0@, pair.1@)),
            None => split_pair(raw@) is None,
        },
{
    let chars = chars_of(raw);
    let at: usize = find_char(chars.as_slice(), 0, '=');
    proof {
        assert(raw@.skip(0) =~= raw@);
        index_of_char_bounds(raw@, '=');
    }
    if at == chars.len() {
        return None;
    }
    let key = subslice(chars.as_slice(), 0, at);
    let value = subslice(chars.as_slice(), at + 1, chars.len());
    assert(key@ =~= raw@.take(at as int));
    assert(value@ =~= raw@.skip(at + 1));
    Some((text_of(key.as_slice()), text_of(value.as_slice())))
}

fn trim_text(raw: &str) -> (out: String)
    ensures
        out@ == trimmed(raw@),
{
    let chars = chars_of(raw);
    let plain = trim(chars.as_slice());
    text_of(plain.as_slice())
}

impl Settings {
    pub fn initial() -> (settings: Self)
        ensures
            settings@ == initial_settings(),
    {
        let settings = Settings {
            budget: None,
            limit: None,
            name: "budget".to_owned(),
            out: None,
            seconds: 240,
            events: 1_200_000,
            eps: "20000".to_owned(),
            connections: 8,
            query_eps: "5".to_owned(),
            query_rate: Rate::Positive,
            query_connections: 4,
            seed: 1_592_598_566,
            port: 3251,
            settle: 150,
            server_env: Vec::new(),
            skip_build: false,
            keep_data: false,
            scenario: Scenario::Logs,
        };
        assert(settings@ =~= initial_settings());
        settings
    }

    fn take(&mut self, flag: Flag, value: &Argument) -> (out: Result<(), String>)
        requires
            (flag == Flag::Budget || flag == Flag::Limit) ==> size_fits(value.text@),
        ensures
            match out {
                Ok(_) => with_value(old(self)@, flag, value@) == Ok::<SettingsView, Seq<char>>(
                    final(self)@,
                ),
                Err(message) => with_value(old(self)@, flag, value@) == Err::<
                    SettingsView,
                    Seq<char>,
                >(message@),
            },
    {
        let raw = value.text.as_str();
        match flag {
            Flag::Budget => match parse_size(raw) {
                Ok(size) => {
                    self.budget = Some(size);
                },
                Err(message) => {
                    return Err(message);
                },
            },
            Flag::Limit => match parse_size(raw) {
                Ok(size) => {
                    self.limit = Some(size);
                },
                Err(message) => {
                    return Err(message);
                },
            },
            Flag::Name => {
                self.name = raw.to_owned();
            },
            Flag::Out => {
                self.out = Some(raw.to_owned());
            },
            Flag::Eps => {
                if value.rate == Rate::Unreadable {
                    return Err(refuse_text(raw, " is not a number"));
                }
                self.eps = trim_text(raw);
            },
            Flag::QueryEps => {
                if value.rate == Rate::Unreadable {
                    return Err(refuse_text(raw, " is not a number"));
                }
                self.query_eps = trim_text(raw);
                self.query_rate = value.rate;
            },
            Flag::Scenario => match Scenario::parse(raw) {
                Ok(scenario) => {
                    self.scenario = scenario;
                },
                Err(message) => {
                    return Err(message);
                },
            },
            Flag::ServerEnv => match write_split(raw) {
                Some(pair) => {
                    let ghost before = self.server_env@;
                    let ghost view = (pair.0@, pair.1@);
                    self.server_env.push(pair);
                    assert(pairs_view(self.server_env@) =~= pairs_view(before).push(view));
                },
                None => {
                    let mut message = "--server-env wants K=V, got ".to_owned();
                    message.append(quote(raw).as_str());
                    return Err(message);
                },
            },
            Flag::SkipBuild => {
                self.skip_build = true;
            },
            Flag::KeepData => {
                self.keep_data = true;
            },
            Flag::Help => {
                return Err(USAGE.to_owned());
            },
            Flag::Connections | Flag::QueryConnections => {
                match parse_number(raw, usize::MAX as u64) {
                    Ok(count) => {
                        if flag == Flag::Connections {
                            self.connections = count as usize;
                        } else {
                            self.query_connections = count as usize;
                        }
                    },
                    Err(message) => {
                        return Err(message);
                    },
                }
            },
            Flag::Port => match parse_number(raw, u16::MAX as u64) {
                Ok(port) => {
                    self.port = port as u16;
                },
                Err(message) => {
                    return Err(message);
                },
            },
            Flag::Seconds | Flag::Events | Flag::Seed | Flag::Settle => {
                match parse_number(raw, u64::MAX) {
                    Ok(number) => {
                        match flag {
                            Flag::Seconds => {
                                self.seconds = number;
                            },
                            Flag::Events => {
                                self.events = number;
                            },
                            Flag::Seed => {
                                self.seed = number;
                            },
                            _ => {
                                self.settle = number;
                            },
                        }
                    },
                    Err(message) => {
                        return Err(message);
                    },
                }
            },
        }
        Ok(())
    }
}

pub open spec fn arguments_view(arguments: Seq<Argument>) -> Seq<ArgumentView> {
    arguments.map_values(|argument: Argument| argument@)
}

/// Whether every size on a command line can be written.
pub open spec fn sizes_fit(arguments: Seq<ArgumentView>) -> bool {
    forall|i: int|
        0 <= i < arguments.len() - 1 && (arguments[i].0 == "--budget"@ || arguments[i].0
            == "--limit"@) ==> size_fits(#[trigger] arguments[i + 1].0)
}

// ------------------------------------------------------------- the whole line
/// A command line that was read.
pub struct Args {
    pub budget_bytes: u64,
    pub budget_text: String,
    pub limit_bytes: u64,
    pub limit_text: String,
    pub settings: Settings,
}

/// The budget and the limit of a command line that was read, or what is wrong with
/// them. Without a limit, the budget is the limit.
pub open spec fn limits_of(settings: SettingsView) -> Result<
    ((nat, Seq<char>), (nat, Seq<char>)),
    Seq<char>,
> {
    match settings.budget {
        None => Err("--budget is required\n\n"@ + USAGE@),
        Some(budget) => {
            let limit = match settings.limit {
                Some(limit) => limit,
                None => budget,
            };
            if limit.0 < budget.0 {
                Err(
                    "--limit below --budget would make the kernel enforce a ceiling the budget does not claim; raise the budget or the limit"@,
                )
            } else if settings.query_rate == Rate::NotPositive {
                Err(
                    "--query-eps must be > 0: a run whose reads do not contend with its writes is not the workload this gate exists to measure"@,
                )
            } else {
                Ok((budget, limit))
            }
        },
    }
}

/// What a command line is read to, or what is wrong with it.
pub open spec fn args_of(arguments: Seq<ArgumentView>) -> Result<
    (SettingsView, (nat, Seq<char>), (nat, Seq<char>)),
    Seq<char>,
> {
    match settings_from(initial_settings(), arguments, 0) {
        Err(message) => Err(message),
        Ok(settings) => match limits_of(settings) {
            Err(message) => Err(message),
            Ok((budget, limit)) => Ok((settings, budget, limit)),
        },
    }
}

impl Args {
    /// Reads a command line. It stops at the first argument that is wrong.
    pub fn parse(arguments: &[Argument]) -> (out: Result<Self, String>)
        requires
            sizes_fit(arguments_view(arguments@)),
        ensures
            match out {
                Ok(args) => args_of(arguments_view(arguments@)) == Ok::<
                    (SettingsView, (nat, Seq<char>), (nat, Seq<char>)),
                    Seq<char>,
                >(
                    (
                        args.settings@,
                        (args.budget_bytes as nat, args.budget_text@),
                        (args.limit_bytes as nat, args.limit_text@),
                    ),
                ),
                Err(message) => args_of(arguments_view(arguments@)) == Err::<
                    (SettingsView, (nat, Seq<char>), (nat, Seq<char>)),
                    Seq<char>,
                >(message@),
            },
    {
        match read_settings(arguments) {
            Err(message) => Err(message),
            Ok(settings) => Args::checked(settings),
        }
    }

    fn checked(settings: Settings) -> (out: Result<Self, String>)
        ensures
            match out {
                Ok(args) => args.settings@ == settings@ && limits_of(settings@) == Ok::<
                    ((nat, Seq<char>), (nat, Seq<char>)),
                    Seq<char>,
                >(
                    (
                        (args.budget_bytes as nat, args.budget_text@),
                        (args.limit_bytes as nat, args.limit_text@),
                    ),
                ),
                Err(message) => limits_of(settings@) == Err::<
                    ((nat, Seq<char>), (nat, Seq<char>)),
                    Seq<char>,
                >(message@),
            },
    {
        let (budget_bytes, budget_text) = match &settings.budget {
            Some((bytes, text)) => (*bytes, text.clone()),
            None => {
                let mut message = "--budget is required\n\n".to_owned();
                message.append(USAGE);
                return Err(message);
            },
        };
        let (limit_bytes, limit_text) = match &settings.limit {
            Some((bytes, text)) => (*bytes, text.clone()),
            None => (budget_bytes, budget_text.clone()),
        };
        if limit_bytes < budget_bytes {
            return Err(
                "--limit below --budget would make the kernel enforce a ceiling the budget does not claim; raise the budget or the limit".to_owned(),
            );
        }
        if settings.query_rate == Rate::NotPositive {
            return Err(
                "--query-eps must be > 0: a run whose reads do not contend with its writes is not the workload this gate exists to measure".to_owned(),
            );
        }
        Ok(Args { budget_bytes, budget_text, limit_bytes, limit_text, settings })
    }
}

fn read_settings(arguments: &[Argument]) -> (out: Result<Settings, String>)
    requires
        sizes_fit(arguments_view(arguments@)),
    ensures
        match out {
            Ok(settings) => settings_from(initial_settings(), arguments_view(arguments@), 0) == Ok::<
                SettingsView,
                Seq<char>,
            >(settings@),
            Err(message) => settings_from(initial_settings(), arguments_view(arguments@), 0)
                == Err::<SettingsView, Seq<char>>(message@),
        },
{
    let ghost list = arguments_view(arguments@);
    let total: usize = arguments.len();
    let mut settings = Settings::initial();
    let mut i: usize = 0;
    while i < total
        invariant
            i <= total,
            total == arguments@.len(),
            list == arguments_view(arguments@),
            sizes_fit(list),
            settings_from(initial_settings(), list, 0) == settings_from(
                settings@,
                list,
                i as int,
            ),
        decreases total - i,
    {
        let text = arguments[i].text.as_str();
        assert(list[i as int] == arguments@[i as int]@);
        let flag = match read_flag(text) {
            Some(flag) => flag,
            None => {
                let mut message = "unknown argument ".to_owned();
                message.append(quote(text).as_str());
                message.append("\n\n");
                message.append(USAGE);
                return Err(message);
            },
        };
        let alone = flag == Flag::SkipBuild || flag == Flag::KeepData || flag == Flag::Help;
        if !alone && i + 1 >= total {
            let mut message = text.to_owned();
            message.append(" needs a value");
            return Err(message);
        }
        let at: usize = if alone {
            i
        } else {
            i + 1
        };
        proof {
            assert(list[at as int] == arguments@[at as int]@);
            if flag == Flag::Budget || flag == Flag::Limit {
                assert(size_fits(list[i + 1].0));
            }
        }
        match settings.take(flag, &arguments[at]) {
            Ok(_) => {},
            Err(message) => {
                return Err(message);
            },
        }
        i = at + 1;
    }
    Ok(settings)
}

/// A command line that asks for less than it declares is refused: what passes has
/// a limit that is not below the budget, and a budget that is not zero.
pub proof fn a_budget_is_within_its_limit(arguments: Seq<ArgumentView>)
    requires
        args_of(arguments) is Ok,
    ensures
        0 < args_of(arguments)->Ok_0.1.0 <= args_of(arguments)->Ok_0.2.0,
{
    budgets_are_positive(initial_settings(), arguments, 0);
}

proof fn budgets_are_positive(before: SettingsView, arguments: Seq<ArgumentView>, from: int)
    requires
        before.budget matches Some(budget) ==> budget.0 > 0,
    ensures
        settings_from(before, arguments, from) matches Ok(after) ==> (
            after.budget matches Some(budget) ==> budget.0 > 0),
    decreases arguments.len() - from,
{
    if 0 <= from < arguments.len() {
        if let Some(flag) = flag_of(arguments[from].0) {
            let at = if is_switch(flag) {
                from
            } else {
                from + 1
            };
            if at < arguments.len() {
                if let Ok(after) = with_value(before, flag, arguments[at]) {
                    assert(after.budget matches Some(budget) ==> budget.0 > 0) by {
                        if flag == Flag::Budget {
                            let value = arguments[at].0;
                            let number = size_number(value)->Some_0;
                            let unit = unit_bytes(size_unit(value))->Some_0 as nat;
                            assert(number * unit > 0) by (nonlinear_arith)
                                requires
                                    number > 0,
                                    unit > 0,
                            ;
                        }
                    }
                    budgets_are_positive(after, arguments, at + 1);
                }
            }
        }
    }
}

} // verus!
