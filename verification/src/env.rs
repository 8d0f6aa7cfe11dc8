//! The configuration out of environment variables.

use vstd::prelude::*;
use vstd::string::*;

use crate::checks::{first_failure, shown, Checks};
use crate::config::{
    derive_defaults_from_budget, resolve_memory_budget, Config, HostMemory, LogFormat,
};
use crate::tenant::TenantId;
use crate::text::{
    chars_of, is_word, lower_ascii, parse_unsigned, quote, same_text, text_of, trim,
};
use crate::time::Duration;

verus! {

/// What `str::parse::<u64>` says of text that it refuses.
pub uninterp spec fn u64_error(text: Seq<char>) -> Seq<char>;

/// `str::parse::<u64>` for its error: the text of the error, or nothing where
/// the text is a number.
#[verifier::external_body]
pub(crate) fn u64_parse_error(text: &str) -> (out: String)
    ensures
        out@ == u64_error(text@),
{
    match text.parse::<u64>() {
        Ok(_) => String::new(),
        Err(error) => error.to_string(),
    }
}

/// What `str::parse::<usize>` says of text that it refuses, where the largest
/// `usize` is `max`.
pub uninterp spec fn usize_error(text: Seq<char>, max: nat) -> Seq<char>;

/// `str::parse::<usize>` for its error: the text of the error, or nothing where
/// the text is a number. What is refused, and how, depends on how wide a `usize`
/// is.
#[verifier::external_body]
pub(crate) fn usize_parse_error(text: &str) -> (out: String)
    ensures
        out@ == usize_error(text@, usize::MAX as nat),
{
    match text.parse::<usize>() {
        Ok(_) => String::new(),
        Err(error) => error.to_string(),
    }
}

// ----------------------------------------------------------------- the reading
/// The value of a variable, if it is set: the first of its name.
pub open spec fn lookup(vars: Seq<(String, String)>, name: Seq<char>) -> Option<Seq<char>>
    decreases vars.len(),
{
    if vars.len() == 0 {
        None
    } else if vars[0].0@ == name {
        Some(vars[0].1@)
    } else {
        lookup(vars.drop_first(), name)
    }
}

pub fn get<'a>(vars: &'a [(String, String)], name: &str) -> (out: Option<&'a String>)
    ensures
        match out {
            Some(value) => lookup(vars@, name@) == Some(value@),
            None => lookup(vars@, name@) is None,
        },
{
    let mut i: usize = 0;
    assert(vars@.skip(0) =~= vars@);
    while i < vars.len()
        invariant
            i <= vars@.len(),
            lookup(vars@, name@) == lookup(vars@.skip(i as int), name@),
        decreases vars.len() - i,
    {
        assert(vars@.skip(i as int).drop_first() =~= vars@.skip(i + 1));
        if same_text(vars[i].0.as_str(), name) {
            return Some(&vars[i].1);
        }
        i = i + 1;
    }
    None
}

/// The message for text that a knob cannot be.
pub open spec fn refused(name: Seq<char>, raw: Seq<char>, why: Seq<char>) -> Seq<char> {
    "invalid "@ + name + " "@ + crate::text::quoted(raw) + ": "@ + why
}

pub fn refusal(name: &str, raw: &str, why: &str) -> (message: String)
    ensures
        message@ == refused(name@, raw@, why@),
{
    let mut message = "invalid ".to_owned();
    message.append(name);
    message.append(" ");
    message.append(quote(raw).as_str());
    message.append(": ");
    message.append(why);
    message
}

#[verifier::opaque]
pub open spec fn u64_problem(vars: Seq<(String, String)>, name: Seq<char>) -> Option<Seq<char>> {
    match lookup(vars, name) {
        Some(raw) => if crate::text::parsed_unsigned(raw, u64::MAX as nat) is Some {
            None
        } else {
            Some(refused(name, raw, u64_error(raw)))
        },
        None => None,
    }
}

#[verifier::opaque]
pub open spec fn u64_value(vars: Seq<(String, String)>, name: Seq<char>, default: u64) -> u64 {
    match lookup(vars, name) {
        Some(raw) => crate::text::parsed_unsigned(raw, u64::MAX as nat)->0 as u64,
        None => default,
    }
}

#[verifier::opaque]
pub open spec fn positive_u64_problem(
    vars: Seq<(String, String)>,
    name: Seq<char>,
    default: u64,
) -> Option<Seq<char>> {
    match u64_problem(vars, name) {
        Some(message) => Some(message),
        None => crate::config::positive(name, u64_value(vars, name, default) as int),
    }
}

#[verifier::opaque]
pub open spec fn usize_value(
    vars: Seq<(String, String)>,
    name: Seq<char>,
    default: usize,
) -> usize {
    match lookup(vars, name) {
        Some(raw) => crate::text::parsed_unsigned(raw, usize::MAX as nat)->0 as usize,
        None => default,
    }
}

#[verifier::opaque]
pub open spec fn positive_usize_problem(
    vars: Seq<(String, String)>,
    name: Seq<char>,
    default: usize,
) -> Option<Seq<char>> {
    match lookup(vars, name) {
        Some(raw) => if crate::text::parsed_unsigned(raw, usize::MAX as nat) is Some {
            crate::config::positive(name, usize_value(vars, name, default) as int)
        } else {
            Some(refused(name, raw, usize_error(raw, usize::MAX as nat)))
        },
        None => crate::config::positive(name, default as int),
    }
}

/// What a byte threshold reads as: `off`, `none` and nothing are no limit.
pub open spec fn threshold_of(name: Seq<char>, raw: Seq<char>) -> Result<
    Option<u64>,
    Seq<char>,
> {
    let value = crate::text::trimmed(raw);
    if value.len() == 0 || crate::text::ascii_lowered(value) == "off"@
        || crate::text::ascii_lowered(value) == "none"@ {
        Ok(None)
    } else {
        match crate::text::parsed_unsigned(value, u64::MAX as nat) {
            None => Err(refused(name, raw, u64_error(value))),
            Some(bytes) => if bytes == 0 {
                Err(
                    "invalid "@ + name
                        + ": use 'off' to disable the limit rather than zero"@,
                )
            } else {
                Ok(Some(bytes as u64))
            },
        }
    }
}

#[verifier::opaque]
pub open spec fn optional_problem(vars: Seq<(String, String)>, name: Seq<char>) -> Option<
    Seq<char>,
> {
    match lookup(vars, name) {
        Some(raw) => match threshold_of(name, raw) {
            Err(message) => Some(message),
            Ok(_) => None,
        },
        None => None,
    }
}

#[verifier::opaque]
pub open spec fn optional_value(
    vars: Seq<(String, String)>,
    name: Seq<char>,
    default: Option<u64>,
) -> Option<u64> {
    match lookup(vars, name) {
        Some(raw) => threshold_of(name, raw)->Ok_0,
        None => default,
    }
}

// ------------------------------------------------------------------- durations
/// The digits in front of a unit, and the unit in nanoseconds.
pub open spec fn unit_of(value: Seq<char>) -> Option<(Seq<char>, nat)> {
    let n = value.len();
    if n >= 2 && value.skip(n - 2) == "ms"@ {
        Some((value.take(n - 2), 1_000_000))
    } else if n >= 1 && value.last() == 's' {
        Some((value.drop_last(), 1_000_000_000))
    } else if n >= 1 && value.last() == 'm' {
        Some((value.drop_last(), 60_000_000_000))
    } else if n >= 1 && value.last() == 'h' {
        Some((value.drop_last(), 3_600_000_000_000))
    } else if n >= 1 && value.last() == 'd' {
        Some((value.drop_last(), 86_400_000_000_000))
    } else {
        None
    }
}

/// What a duration reads as: a number and a unit, or `off`, `none` or nothing
/// for no duration at all.
pub open spec fn duration_of(name: Seq<char>, raw: Seq<char>) -> Result<
    Option<Duration>,
    Seq<char>,
> {
    let value = crate::text::trimmed(raw);
    if value.len() == 0 || crate::text::ascii_lowered(value) == "none"@
        || crate::text::ascii_lowered(value) == "off"@ {
        Ok(None)
    } else {
        match unit_of(value) {
            None => Err(
                refused(
                    name,
                    value,
                    "expected a duration such as 500ms, 5s, 10m, 2h, or 7d"@,
                ),
            ),
            Some((digits, unit)) => match crate::text::parsed_unsigned(digits, u64::MAX as nat) {
                None => Err(refused(name, value, u64_error(digits))),
                Some(number) => if number * unit > u64::MAX {
                    Err(refused(name, value, "duration overflow"@))
                } else {
                    Ok(Some(Duration { nanos: (number * unit) as u64 }))
                },
            },
        }
    }
}

/// Reads a duration.
pub fn parse_duration_text(name: &str, raw: &str) -> (out: Result<Option<Duration>, String>)
    ensures
        match out {
            Ok(span) => duration_of(name@, raw@) == Ok::<Option<Duration>, Seq<char>>(span),
            Err(message) => duration_of(name@, raw@) == Err::<Option<Duration>, Seq<char>>(
                message@,
            ),
        },
{
    let chars = chars_of(raw);
    let value = trim(chars.as_slice());
    let lower = lower_ascii(value.as_slice());
    if value.len() == 0 || is_word(lower.as_slice(), "none") || is_word(lower.as_slice(), "off") {
        return Ok(None);
    }
    let n: usize = value.len();
    let shown_value = text_of(value.as_slice());
    let mut cut: usize = 1;
    let mut unit: u64 = 0;
    proof {
        reveal_strlit("ms");
        if n >= 2 {
            assert(value@.skip(n - 2) =~= seq![value@[n - 2], value@[n - 1]]);
        }
    }
    if n >= 2 && value[n - 2] == 'm' && value[n - 1] == 's' {
        assert(value@.skip(n - 2) =~= "ms"@);
        cut = 2;
        unit = 1_000_000;
    } else if value[n - 1] == 's' {
        unit = 1_000_000_000;
    } else if value[n - 1] == 'm' {
        unit = 60_000_000_000;
    } else if value[n - 1] == 'h' {
        unit = 3_600_000_000_000;
    } else if value[n - 1] == 'd' {
        unit = 86_400_000_000_000;
    } else {
        return Err(
            refusal(
                name,
                shown_value.as_str(),
                "expected a duration such as 500ms, 5s, 10m, 2h, or 7d",
            ),
        );
    }
    let digits = crate::text::subslice(value.as_slice(), 0, n - cut);
    proof {
        if n >= 2 && value@.skip(n - 2) == "ms"@ {
            assert(value@.skip(n - 2)[0] == "ms"@[0]);
            assert(value@.skip(n - 2)[1] == "ms"@[1]);
        }
        assert(digits@ =~= value@.take(n - cut));
        assert(value@.take(n - 1) =~= value@.drop_last());
        assert(unit_of(value@) == Some((digits@, unit as nat)));
    }
    match parse_unsigned(digits.as_slice(), u64::MAX) {
        None => {
            let text = text_of(digits.as_slice());
            Err(refusal(name, shown_value.as_str(), u64_parse_error(text.as_str()).as_str()))
        },
        Some(number) => match number.checked_mul(unit) {
            None => Err(refusal(name, shown_value.as_str(), "duration overflow")),
            Some(nanos) => Ok(Some(Duration::from_nanos(nanos))),
        },
    }
}

#[verifier::opaque]
pub open spec fn duration_problem(vars: Seq<(String, String)>, name: Seq<char>) -> Option<
    Seq<char>,
> {
    match lookup(vars, name) {
        Some(raw) => match duration_of(name, raw) {
            Err(message) => Some(message),
            Ok(_) => None,
        },
        None => None,
    }
}

#[verifier::opaque]
pub open spec fn duration_value(
    vars: Seq<(String, String)>,
    name: Seq<char>,
    default: Option<Duration>,
) -> Option<Duration> {
    match lookup(vars, name) {
        Some(raw) => duration_of(name, raw)->Ok_0,
        None => default,
    }
}

/// A duration that cannot be turned off, and cannot be zero.
#[verifier::opaque]
pub open spec fn required_duration_problem(
    vars: Seq<(String, String)>,
    name: Seq<char>,
    default: Duration,
) -> Option<Seq<char>> {
    match duration_problem(vars, name) {
        Some(message) => Some(message),
        None => match duration_value(vars, name, Some(default)) {
            None => Some(
                "invalid "@ + name + ": value must be a positive duration, not disabled"@,
            ),
            Some(span) => crate::config::positive_span(name, span),
        },
    }
}

#[verifier::opaque]
pub open spec fn required_duration_value(
    vars: Seq<(String, String)>,
    name: Seq<char>,
    default: Duration,
) -> Duration {
    duration_value(vars, name, Some(default))->0
}

// ---------------------------------------------------------------- other knobs
pub open spec fn string_value(
    vars: Seq<(String, String)>,
    name: Seq<char>,
    default: Seq<char>,
) -> Seq<char> {
    match lookup(vars, name) {
        Some(raw) => raw,
        None => default,
    }
}

/// An object store URL; blank is none.
pub open spec fn url_value(vars: Seq<(String, String)>, name: Seq<char>) -> Option<Seq<char>> {
    match lookup(vars, name) {
        Some(raw) => if crate::text::trimmed(raw).len() == 0 {
            None
        } else {
            Some(raw)
        },
        None => None,
    }
}

#[verifier::opaque]
pub open spec fn tenant_knob_problem(vars: Seq<(String, String)>, name: Seq<char>) -> Option<
    Seq<char>,
> {
    match lookup(vars, name) {
        Some(raw) => if crate::tenant::is_tenant(raw) {
            None
        } else {
            Some("invalid "@ + name + ": "@ + crate::tenant::tenant_problem(raw))
        },
        None => None,
    }
}

#[verifier::opaque]
pub open spec fn tenant_knob_matches(
    tenant: Option<TenantId>,
    vars: Seq<(String, String)>,
    name: Seq<char>,
) -> bool {
    match lookup(vars, name) {
        Some(raw) => tenant is Some && tenant->0@ == raw,
        None => tenant is None,
    }
}

#[verifier::opaque]
pub open spec fn format_problem(
    vars: Seq<(String, String)>,
    name: Seq<char>,
    default: LogFormat,
) -> Option<Seq<char>> {
    match lookup(vars, name) {
        Some(raw) => match crate::config::log_format_of(raw, default) {
            Err(message) => Some("invalid "@ + name + ": "@ + message),
            Ok(_) => None,
        },
        None => None,
    }
}

#[verifier::opaque]
pub open spec fn format_value(
    vars: Seq<(String, String)>,
    name: Seq<char>,
    default: LogFormat,
) -> LogFormat {
    match lookup(vars, name) {
        Some(raw) => crate::config::log_format_of(raw, default)->Ok_0,
        None => default,
    }
}

/// The rewrite threshold is a fraction, which the caller reads: nothing where it
/// is not set, its bits, or what is wrong with its text.
#[verifier::opaque]
pub open spec fn threshold_problem(
    vars: Seq<(String, String)>,
    name: Seq<char>,
    threshold: Option<Result<u64, String>>,
) -> Option<Seq<char>> {
    match threshold {
        Some(Err(why)) => Some(
            refused(
                name,
                match lookup(vars, name) {
                    Some(raw) => raw,
                    None => ""@,
                },
                why@,
            ),
        ),
        _ => None,
    }
}

#[verifier::opaque]
pub open spec fn threshold_value(threshold: Option<Result<u64, String>>, default: u64) -> u64 {
    match threshold {
        Some(Ok(bits)) => bits,
        _ => default,
    }
}

fn string(vars: &[(String, String)], name: &str, default: &str) -> (out: String)
    ensures
        out@ == string_value(vars@, name@, default@),
{
    match get(vars, name) {
        Some(raw) => raw.clone(),
        None => default.to_owned(),
    }
}

fn url(vars: &[(String, String)], name: &str) -> (out: Option<String>)
    ensures
        shown(out) == url_value(vars@, name@),
{
    match get(vars, name) {
        Some(raw) => {
            let chars = chars_of(raw.as_str());
            let bare = trim(chars.as_slice());
            if bare.len() == 0 {
                None
            } else {
                Some(raw.clone())
            }
        },
        None => None,
    }
}

/// Variables being read, and the first one that was refused.
struct Env<'a> {
    vars: &'a [(String, String)],
    checks: Checks,
}

impl<'a> Env<'a> {
    spec fn wf(&self) -> bool {
        self.checks.wf()
    }

    spec fn outcomes(&self) -> Seq<Option<Seq<char>>> {
        self.checks.outcomes()
    }

    /// Whether one outcome was taken in, and nothing else changed.
    spec fn took(&self, before: &Env<'a>, outcome: Option<Seq<char>>) -> bool {
        &&& self.wf()
        &&& self.vars@ == before.vars@
        &&& self.outcomes() == before.outcomes().push(outcome)
    }

    fn new(vars: &'a [(String, String)]) -> (env: Env<'a>)
        ensures
            env.wf(),
            env.vars@ == vars@,
            env.outcomes() == Seq::<Option<Seq<char>>>::empty(),
    {
        Env { vars, checks: Checks::new() }
    }

    fn finish(self) -> (out: Result<(), String>)
        requires
            self.wf(),
        ensures
            match out {
                Ok(_) => first_failure(self.outcomes()) is None,
                Err(message) => first_failure(self.outcomes()) == Some(message@),
            },
    {
        self.checks.into_result()
    }

    fn number(&mut self, name: &str, default: u64) -> (value: u64)
        requires
            old(self).wf(),
        ensures
            final(self).took(old(self), u64_problem(old(self).vars@, name@)),
            u64_problem(old(self).vars@, name@) is None ==> value == u64_value(
                old(self).vars@,
                name@,
                default,
            ),
    {
        reveal(u64_problem);
        reveal(u64_value);
        match get(self.vars, name) {
            Some(raw) => {
                let chars = chars_of(raw.as_str());
                match parse_unsigned(chars.as_slice(), u64::MAX) {
                    Some(value) => {
                        self.checks.note(None);
                        value
                    },
                    None => {
                        let why = u64_parse_error(raw.as_str());
                        self.checks.note(Some(refusal(name, raw.as_str(), why.as_str())));
                        default
                    },
                }
            },
            None => {
                self.checks.note(None);
                default
            },
        }
    }

    fn positive_u64(&mut self, name: &str, default: u64) -> (value: u64)
        requires
            old(self).wf(),
        ensures
            final(self).took(old(self), positive_u64_problem(old(self).vars@, name@, default)),
            positive_u64_problem(old(self).vars@, name@, default) is None ==> value == u64_value(
                old(self).vars@,
                name@,
                default,
            ),
    {
        reveal(u64_problem);
        reveal(u64_value);
        reveal(positive_u64_problem);
        reveal(crate::config::positive);
        match get(self.vars, name) {
            Some(raw) => {
                let chars = chars_of(raw.as_str());
                match parse_unsigned(chars.as_slice(), u64::MAX) {
                    Some(value) => {
                        self.checks.positive(name, value);
                        value
                    },
                    None => {
                        let why = u64_parse_error(raw.as_str());
                        self.checks.note(Some(refusal(name, raw.as_str(), why.as_str())));
                        default
                    },
                }
            },
            None => {
                self.checks.positive(name, default);
                default
            },
        }
    }

    fn positive_usize(&mut self, name: &str, default: usize) -> (value: usize)
        requires
            old(self).wf(),
        ensures
            final(self).took(old(self), positive_usize_problem(old(self).vars@, name@, default)),
            positive_usize_problem(old(self).vars@, name@, default) is None ==> value
                == usize_value(old(self).vars@, name@, default),
    {
        reveal(usize_value);
        reveal(positive_usize_problem);
        reveal(crate::config::positive);
        match get(self.vars, name) {
            Some(raw) => {
                let chars = chars_of(raw.as_str());
                match parse_unsigned(chars.as_slice(), usize::MAX as u64) {
                    Some(value) => {
                        self.checks.positive(name, value);
                        value as usize
                    },
                    None => {
                        let why = usize_parse_error(raw.as_str());
                        self.checks.note(Some(refusal(name, raw.as_str(), why.as_str())));
                        default
                    },
                }
            },
            None => {
                self.checks.positive(name, default as u64);
                default
            },
        }
    }

    fn optional(&mut self, name: &str, default: Option<u64>) -> (value: Option<u64>)
        requires
            old(self).wf(),
        ensures
            final(self).took(old(self), optional_problem(old(self).vars@, name@)),
            optional_problem(old(self).vars@, name@) is None ==> value == optional_value(
                old(self).vars@,
                name@,
                default,
            ),
    {
        reveal(optional_problem);
        reveal(optional_value);
        match get(self.vars, name) {
            Some(raw) => {
                let chars = chars_of(raw.as_str());
                let value = trim(chars.as_slice());
                let lower = lower_ascii(value.as_slice());
                if value.len() == 0 || is_word(lower.as_slice(), "off") || is_word(
                    lower.as_slice(),
                    "none",
                ) {
                    self.checks.note(None);
                    return None;
                }
                match parse_unsigned(value.as_slice(), u64::MAX) {
                    None => {
                        let bare = text_of(value.as_slice());
                        let why = u64_parse_error(bare.as_str());
                        self.checks.note(Some(refusal(name, raw.as_str(), why.as_str())));
                        default
                    },
                    Some(bytes) => {
                        if bytes == 0 {
                            let mut message = "invalid ".to_owned();
                            message.append(name);
                            message.append(
                                ": use 'off' to disable the limit rather than zero",
                            );
                            self.checks.note(Some(message));
                        } else {
                            self.checks.note(None);
                        }
                        Some(bytes)
                    },
                }
            },
            None => {
                self.checks.note(None);
                default
            },
        }
    }

    fn duration(&mut self, name: &str, default: Option<Duration>) -> (value: Option<Duration>)
        requires
            old(self).wf(),
        ensures
            final(self).took(old(self), duration_problem(old(self).vars@, name@)),
            duration_problem(old(self).vars@, name@) is None ==> value == duration_value(
                old(self).vars@,
                name@,
                default,
            ),
    {
        reveal(duration_problem);
        reveal(duration_value);
        match get(self.vars, name) {
            Some(raw) => match parse_duration_text(name, raw.as_str()) {
                Ok(span) => {
                    self.checks.note(None);
                    span
                },
                Err(message) => {
                    self.checks.note(Some(message));
                    default
                },
            },
            None => {
                self.checks.note(None);
                default
            },
        }
    }

    fn required_duration(&mut self, name: &str, default: Duration) -> (value: Duration)
        requires
            old(self).wf(),
        ensures
            final(self).took(
                old(self),
                required_duration_problem(old(self).vars@, name@, default),
            ),
            required_duration_problem(old(self).vars@, name@, default) is None ==> value
                == required_duration_value(old(self).vars@, name@, default),
    {
        reveal(duration_problem);
        reveal(duration_value);
        reveal(required_duration_problem);
        reveal(required_duration_value);
        reveal(crate::config::positive_span);
        match get(self.vars, name) {
            Some(raw) => match parse_duration_text(name, raw.as_str()) {
                Ok(Some(span)) => {
                    self.checks.positive_span(name, span);
                    span
                },
                Ok(None) => {
                    let mut message = "invalid ".to_owned();
                    message.append(name);
                    message.append(": value must be a positive duration, not disabled");
                    self.checks.note(Some(message));
                    default
                },
                Err(message) => {
                    self.checks.note(Some(message));
                    default
                },
            },
            None => {
                self.checks.positive_span(name, default);
                default
            },
        }
    }

    fn tenant(&mut self, name: &str) -> (value: Option<TenantId>)
        requires
            old(self).wf(),
        ensures
            final(self).took(old(self), tenant_knob_problem(old(self).vars@, name@)),
            tenant_knob_problem(old(self).vars@, name@) is None ==> tenant_knob_matches(
                value,
                old(self).vars@,
                name@,
            ),
    {
        reveal(tenant_knob_problem);
        reveal(tenant_knob_matches);
        match get(self.vars, name) {
            Some(raw) => match TenantId::parse(raw.as_str()) {
                Ok(tenant) => {
                    self.checks.note(None);
                    Some(tenant)
                },
                Err(why) => {
                    let mut message = "invalid ".to_owned();
                    message.append(name);
                    message.append(": ");
                    message.append(why.as_str());
                    self.checks.note(Some(message));
                    None
                },
            },
            None => {
                self.checks.note(None);
                None
            },
        }
    }

    fn format(&mut self, name: &str, default: LogFormat) -> (value: LogFormat)
        requires
            old(self).wf(),
        ensures
            final(self).took(old(self), format_problem(old(self).vars@, name@, default)),
            format_problem(old(self).vars@, name@, default) is None ==> value == format_value(
                old(self).vars@,
                name@,
                default,
            ),
    {
        reveal(format_problem);
        reveal(format_value);
        match get(self.vars, name) {
            Some(raw) => match LogFormat::parse(raw.as_str(), default) {
                Ok(format) => {
                    self.checks.note(None);
                    format
                },
                Err(why) => {
                    let mut message = "invalid ".to_owned();
                    message.append(name);
                    message.append(": ");
                    message.append(why.as_str());
                    self.checks.note(Some(message));
                    default
                },
            },
            None => {
                self.checks.note(None);
                default
            },
        }
    }

    fn threshold(
        &mut self,
        name: &str,
        threshold: Option<Result<u64, String>>,
        default: u64,
    ) -> (value: u64)
        requires
            old(self).wf(),
        ensures
            final(self).took(old(self), threshold_problem(old(self).vars@, name@, threshold)),
            value == threshold_value(threshold, default),
    {
        reveal(threshold_problem);
        reveal(threshold_value);
        match threshold {
            Some(Err(why)) => {
                let raw = string(self.vars, name, "");
                self.checks.note(Some(refusal(name, raw.as_str(), why.as_str())));
                default
            },
            Some(Ok(bits)) => {
                self.checks.note(None);
                bits
            },
            None => {
                self.checks.note(None);
                default
            },
        }
    }
}

/// What is wrong with each knob that is set, in the order in which they are
/// read; `None` where nothing is. `d` holds the defaults.
pub open spec fn read_problems(
    d: Config,
    vars: Seq<(String, String)>,
    threshold: Option<Result<u64, String>>,
) -> Seq<Option<Seq<char>>> {
    seq![
        duration_problem(vars, "LOGGYTRACY_MALLOC_TRIM_INTERVAL"@),
        tenant_knob_problem(vars, "LOGGYTRACY_MISSING_TENANT"@),
        positive_usize_problem(vars, "LOGGYTRACY_MAX_BATCH_BYTES"@, d.max_batch_bytes),
        u64_problem(vars, "LOGGYTRACY_MAX_BATCH_MS"@),
        positive_usize_problem(vars, "LOGGYTRACY_MAX_LINE_BYTES"@, d.max_line_bytes),
        duration_problem(vars, "LOGGYTRACY_MAX_TIMESTAMP_AGE"@),
        optional_problem(vars, "LOGGYTRACY_MAX_MEMTABLE_BYTES"@),
        optional_problem(vars, "LOGGYTRACY_MAX_INFLIGHT_PUSH_BYTES"@),
        optional_problem(vars, "LOGGYTRACY_MAX_WAL_BACKLOG_BYTES"@),
        optional_problem(vars, "LOGGYTRACY_WAL_COMPACT_MIN_BYTES"@),
        required_duration_problem(vars, "LOGGYTRACY_BACKPRESSURE_RETRY_AFTER"@, d.backpressure_retry_after),
        duration_problem(vars, "LOGGYTRACY_MAX_TIMESTAMP_SKEW"@),
        positive_u64_problem(vars, "LOGGYTRACY_FLUSH_MAX_BYTES"@, d.flush_max_bytes),
        required_duration_problem(vars, "LOGGYTRACY_FLUSH_MAX_INTERVAL"@, d.flush_max_interval),
        required_duration_problem(vars, "LOGGYTRACY_FLUSH_CHECK_INTERVAL"@, d.flush_check_interval),
        positive_u64_problem(vars, "LOGGYTRACY_FLUSH_CHUNK_BYTES"@, d.flush_chunk_bytes),
        positive_usize_problem(vars, "LOGGYTRACY_ROW_GROUP_SIZE"@, d.row_group_size),
        positive_usize_problem(vars, "LOGGYTRACY_MERGE_MIN_PART_COUNT"@, d.merge_min_part_count),
        positive_u64_problem(vars, "LOGGYTRACY_MERGE_TARGET_PART_ROWS"@, d.merge_target_part_rows),
        positive_u64_problem(vars, "LOGGYTRACY_MERGE_MAX_PART_ROWS"@, d.merge_max_part_rows),
        positive_u64_problem(vars, "LOGGYTRACY_MERGE_MAX_INPUT_BYTES"@, d.merge_max_input_bytes),
        positive_u64_problem(vars, "LOGGYTRACY_MERGE_MAX_MEMORY_BYTES"@, d.merge_max_memory_bytes),
        positive_usize_problem(vars, "LOGGYTRACY_MERGE_MAX_GROUPS_PER_TICK"@, d.merge_max_groups_per_tick),
        required_duration_problem(vars, "LOGGYTRACY_MERGE_INTERVAL"@, d.merge_interval),
        positive_u64_problem(vars, "LOGGYTRACY_CACHE_MAX_BYTES"@, d.cache_max_bytes),
        required_duration_problem(vars, "LOGGYTRACY_CACHE_EVICTION_INTERVAL"@, d.cache_eviction_interval),
        required_duration_problem(vars, "LOGGYTRACY_RETENTION_INTERVAL"@, d.retention_interval),
        positive_usize_problem(vars, "LOGGYTRACY_RETENTION_BATCH_SIZE"@, d.retention_batch_size),
        required_duration_problem(vars, "LOGGYTRACY_RETENTION_GRACE_PERIOD"@, d.retention_grace_period),
        required_duration_problem(vars, "LOGGYTRACY_MAX_RETENTION_RUNTIME"@, d.max_retention_runtime),
        positive_usize_problem(vars, "LOGGYTRACY_MAX_CONCURRENT_QUERIES_PER_TENANT"@, d.max_concurrent_queries_per_tenant),
        optional_problem(vars, "LOGGYTRACY_DEFAULT_TENANT_MAX_STORED_BYTES"@),
        optional_problem(vars, "LOGGYTRACY_MIN_FREE_DISK_BYTES"@),
        format_problem(vars, "LOGGYTRACY_LOG_FORMAT"@, d.log_format),
        required_duration_problem(vars, "LOGGYTRACY_DISK_SAMPLE_INTERVAL"@, d.disk_sample_interval),
        threshold_problem(vars, "LOGGYTRACY_RETENTION_REWRITE_THRESHOLD"@, threshold),
        positive_usize_problem(vars, "LOGGYTRACY_MAX_CONCURRENT_TAILS"@, d.max_concurrent_tails),
        required_duration_problem(vars, "LOGGYTRACY_TAIL_POLL_INTERVAL"@, d.tail_poll_interval),
        duration_problem(vars, "LOGGYTRACY_MAX_QUERY_RANGE"@),
        positive_usize_problem(vars, "LOGGYTRACY_MAX_QUERY_SCAN_ROWS"@, d.max_query_scan_rows),
        positive_u64_problem(vars, "LOGGYTRACY_MAX_QUERY_SCAN_BYTES"@, d.max_query_scan_bytes),
        positive_u64_problem(vars, "LOGGYTRACY_QUERY_MEMORY_BUDGET_BYTES"@, d.query_memory_budget_bytes),
        optional_problem(vars, "LOGGYTRACY_ROW_GROUP_CACHE_MAX_BYTES"@),
        optional_problem(vars, "LOGGYTRACY_SIDECAR_CACHE_MAX_BYTES"@),
        positive_u64_problem(vars, "LOGGYTRACY_MAX_QUERY_MEMORY_BYTES"@, d.max_query_memory_bytes),
        positive_usize_problem(vars, "LOGGYTRACY_MAX_LOG_LIMIT"@, d.max_log_limit),
        positive_usize_problem(vars, "LOGGYTRACY_MAX_HISTOGRAM_BUCKETS"@, d.max_histogram_buckets),
        positive_usize_problem(vars, "LOGGYTRACY_MAX_CONCURRENT_QUERY_SCANS"@, d.max_concurrent_query_scans),
        required_duration_problem(vars, "LOGGYTRACY_MAX_QUERY_RUNTIME"@, d.max_query_runtime),
        required_duration_problem(vars, "LOGGYTRACY_MAX_RESTORE_RUNTIME"@, d.max_restore_runtime),
        positive_usize_problem(vars, "LOGGYTRACY_MAX_TRACE_SPANS"@, d.max_trace_spans),
        positive_usize_problem(vars, "LOGGYTRACY_MAX_TRACE_SEARCH_LIMIT"@, d.max_trace_search_limit),
        positive_usize_problem(vars, "LOGGYTRACY_MAX_CONCURRENT_TRACE_SCANS"@, d.max_concurrent_trace_scans),
        required_duration_problem(vars, "LOGGYTRACY_MAX_TRACE_QUERY_RUNTIME"@, d.max_trace_query_runtime),
        required_duration_problem(vars, "LOGGYTRACY_MAX_TRACE_RESTORE_RUNTIME"@, d.max_trace_restore_runtime),
        positive_usize_problem(vars, "LOGGYTRACY_MAX_ACTIVE_SERIES"@, d.max_active_series),
        required_duration_problem(vars, "LOGGYTRACY_METRIC_SERIES_IDLE_TIMEOUT"@, d.metric_series_idle_timeout),
        required_duration_problem(vars, "LOGGYTRACY_STARTUP_RETRY_BUDGET"@, d.startup_retry_budget),
        required_duration_problem(vars, "LOGGYTRACY_SHUTDOWN_FLUSH_WARN_AFTER"@, d.shutdown_flush_warn_after),
    ]
}

/// Whether every knob of `c` is what the variables give it, with `d` for the
/// knobs that are not set.
pub open spec fn reads_as(
    c: Config,
    d: Config,
    vars: Seq<(String, String)>,
    threshold: Option<Result<u64, String>>,
) -> bool {
    &&& c.malloc_trim_interval == duration_value(vars, "LOGGYTRACY_MALLOC_TRIM_INTERVAL"@, d.malloc_trim_interval)
    &&& c.listen_addr@ == string_value(vars, "LOGGYTRACY_LISTEN_ADDR"@, d.listen_addr@)
    &&& c.otlp_grpc_addr@ == string_value(vars, "LOGGYTRACY_OTLP_GRPC_ADDR"@, d.otlp_grpc_addr@)
    &&& c.data_dir@ == string_value(vars, "LOGGYTRACY_DATA_DIR"@, d.data_dir@)
    &&& tenant_knob_matches(c.missing_tenant, vars, "LOGGYTRACY_MISSING_TENANT"@)
    &&& c.max_batch_bytes == usize_value(vars, "LOGGYTRACY_MAX_BATCH_BYTES"@, d.max_batch_bytes)
    &&& c.max_batch_ms == u64_value(vars, "LOGGYTRACY_MAX_BATCH_MS"@, d.max_batch_ms)
    &&& c.max_line_bytes == usize_value(vars, "LOGGYTRACY_MAX_LINE_BYTES"@, d.max_line_bytes)
    &&& c.max_timestamp_age == duration_value(vars, "LOGGYTRACY_MAX_TIMESTAMP_AGE"@, d.max_timestamp_age)
    &&& c.max_memtable_bytes == optional_value(vars, "LOGGYTRACY_MAX_MEMTABLE_BYTES"@, d.max_memtable_bytes)
    &&& c.max_inflight_push_bytes == optional_value(vars, "LOGGYTRACY_MAX_INFLIGHT_PUSH_BYTES"@, d.max_inflight_push_bytes)
    &&& c.max_wal_backlog_bytes == optional_value(vars, "LOGGYTRACY_MAX_WAL_BACKLOG_BYTES"@, d.max_wal_backlog_bytes)
    &&& c.wal_compact_min_bytes == optional_value(vars, "LOGGYTRACY_WAL_COMPACT_MIN_BYTES"@, d.wal_compact_min_bytes)
    &&& c.backpressure_retry_after == required_duration_value(vars, "LOGGYTRACY_BACKPRESSURE_RETRY_AFTER"@, d.backpressure_retry_after)
    &&& c.max_timestamp_skew == duration_value(vars, "LOGGYTRACY_MAX_TIMESTAMP_SKEW"@, d.max_timestamp_skew)
    &&& c.flush_max_bytes == u64_value(vars, "LOGGYTRACY_FLUSH_MAX_BYTES"@, d.flush_max_bytes)
    &&& c.flush_max_interval == required_duration_value(vars, "LOGGYTRACY_FLUSH_MAX_INTERVAL"@, d.flush_max_interval)
    &&& c.flush_check_interval == required_duration_value(vars, "LOGGYTRACY_FLUSH_CHECK_INTERVAL"@, d.flush_check_interval)
    &&& c.flush_chunk_bytes == u64_value(vars, "LOGGYTRACY_FLUSH_CHUNK_BYTES"@, d.flush_chunk_bytes)
    &&& c.row_group_size == usize_value(vars, "LOGGYTRACY_ROW_GROUP_SIZE"@, d.row_group_size)
    &&& c.merge_min_part_count == usize_value(vars, "LOGGYTRACY_MERGE_MIN_PART_COUNT"@, d.merge_min_part_count)
    &&& c.merge_target_part_rows == u64_value(vars, "LOGGYTRACY_MERGE_TARGET_PART_ROWS"@, d.merge_target_part_rows)
    &&& c.merge_max_part_rows == u64_value(vars, "LOGGYTRACY_MERGE_MAX_PART_ROWS"@, d.merge_max_part_rows)
    &&& c.merge_max_input_bytes == u64_value(vars, "LOGGYTRACY_MERGE_MAX_INPUT_BYTES"@, d.merge_max_input_bytes)
    &&& c.merge_max_memory_bytes == u64_value(vars, "LOGGYTRACY_MERGE_MAX_MEMORY_BYTES"@, d.merge_max_memory_bytes)
    &&& c.merge_max_groups_per_tick == usize_value(vars, "LOGGYTRACY_MERGE_MAX_GROUPS_PER_TICK"@, d.merge_max_groups_per_tick)
    &&& c.merge_interval == required_duration_value(vars, "LOGGYTRACY_MERGE_INTERVAL"@, d.merge_interval)
    &&& crate::checks::shown(c.object_store_url) == url_value(vars, "LOGGYTRACY_OBJECT_STORE_URL"@)
    &&& c.cache_max_bytes == u64_value(vars, "LOGGYTRACY_CACHE_MAX_BYTES"@, d.cache_max_bytes)
    &&& c.cache_eviction_interval == required_duration_value(vars, "LOGGYTRACY_CACHE_EVICTION_INTERVAL"@, d.cache_eviction_interval)
    &&& c.retention_interval == required_duration_value(vars, "LOGGYTRACY_RETENTION_INTERVAL"@, d.retention_interval)
    &&& c.retention_batch_size == usize_value(vars, "LOGGYTRACY_RETENTION_BATCH_SIZE"@, d.retention_batch_size)
    &&& c.retention_grace_period == required_duration_value(vars, "LOGGYTRACY_RETENTION_GRACE_PERIOD"@, d.retention_grace_period)
    &&& c.max_retention_runtime == required_duration_value(vars, "LOGGYTRACY_MAX_RETENTION_RUNTIME"@, d.max_retention_runtime)
    &&& c.max_concurrent_queries_per_tenant == usize_value(vars, "LOGGYTRACY_MAX_CONCURRENT_QUERIES_PER_TENANT"@, d.max_concurrent_queries_per_tenant)
    &&& c.default_tenant_max_stored_bytes == optional_value(vars, "LOGGYTRACY_DEFAULT_TENANT_MAX_STORED_BYTES"@, d.default_tenant_max_stored_bytes)
    &&& c.min_free_disk_bytes == optional_value(vars, "LOGGYTRACY_MIN_FREE_DISK_BYTES"@, d.min_free_disk_bytes)
    &&& c.log_format == format_value(vars, "LOGGYTRACY_LOG_FORMAT"@, d.log_format)
    &&& c.disk_sample_interval == required_duration_value(vars, "LOGGYTRACY_DISK_SAMPLE_INTERVAL"@, d.disk_sample_interval)
    &&& c.retention_rewrite_threshold == threshold_value(threshold, d.retention_rewrite_threshold)
    &&& c.max_concurrent_tails == usize_value(vars, "LOGGYTRACY_MAX_CONCURRENT_TAILS"@, d.max_concurrent_tails)
    &&& c.tail_poll_interval == required_duration_value(vars, "LOGGYTRACY_TAIL_POLL_INTERVAL"@, d.tail_poll_interval)
    &&& c.max_query_range == duration_value(vars, "LOGGYTRACY_MAX_QUERY_RANGE"@, None)
    &&& c.max_query_scan_rows == usize_value(vars, "LOGGYTRACY_MAX_QUERY_SCAN_ROWS"@, d.max_query_scan_rows)
    &&& c.max_query_scan_bytes == u64_value(vars, "LOGGYTRACY_MAX_QUERY_SCAN_BYTES"@, d.max_query_scan_bytes)
    &&& c.query_memory_budget_bytes == u64_value(vars, "LOGGYTRACY_QUERY_MEMORY_BUDGET_BYTES"@, d.query_memory_budget_bytes)
    &&& c.row_group_cache_max_bytes == optional_value(vars, "LOGGYTRACY_ROW_GROUP_CACHE_MAX_BYTES"@, d.row_group_cache_max_bytes)
    &&& c.sidecar_cache_max_bytes == optional_value(vars, "LOGGYTRACY_SIDECAR_CACHE_MAX_BYTES"@, d.sidecar_cache_max_bytes)
    &&& c.max_query_memory_bytes == u64_value(vars, "LOGGYTRACY_MAX_QUERY_MEMORY_BYTES"@, d.max_query_memory_bytes)
    &&& c.max_log_limit == usize_value(vars, "LOGGYTRACY_MAX_LOG_LIMIT"@, d.max_log_limit)
    &&& c.max_histogram_buckets == usize_value(vars, "LOGGYTRACY_MAX_HISTOGRAM_BUCKETS"@, d.max_histogram_buckets)
    &&& c.max_concurrent_query_scans == usize_value(vars, "LOGGYTRACY_MAX_CONCURRENT_QUERY_SCANS"@, d.max_concurrent_query_scans)
    &&& c.max_query_runtime == required_duration_value(vars, "LOGGYTRACY_MAX_QUERY_RUNTIME"@, d.max_query_runtime)
    &&& c.max_restore_runtime == required_duration_value(vars, "LOGGYTRACY_MAX_RESTORE_RUNTIME"@, d.max_restore_runtime)
    &&& c.max_trace_spans == usize_value(vars, "LOGGYTRACY_MAX_TRACE_SPANS"@, d.max_trace_spans)
    &&& c.max_trace_search_limit == usize_value(vars, "LOGGYTRACY_MAX_TRACE_SEARCH_LIMIT"@, d.max_trace_search_limit)
    &&& c.max_concurrent_trace_scans == usize_value(vars, "LOGGYTRACY_MAX_CONCURRENT_TRACE_SCANS"@, d.max_concurrent_trace_scans)
    &&& c.max_trace_query_runtime == required_duration_value(vars, "LOGGYTRACY_MAX_TRACE_QUERY_RUNTIME"@, d.max_trace_query_runtime)
    &&& c.max_trace_restore_runtime == required_duration_value(vars, "LOGGYTRACY_MAX_TRACE_RESTORE_RUNTIME"@, d.max_trace_restore_runtime)
    &&& c.max_active_series == usize_value(vars, "LOGGYTRACY_MAX_ACTIVE_SERIES"@, d.max_active_series)
    &&& c.metric_series_idle_timeout == required_duration_value(vars, "LOGGYTRACY_METRIC_SERIES_IDLE_TIMEOUT"@, d.metric_series_idle_timeout)
    &&& c.startup_retry_budget == required_duration_value(vars, "LOGGYTRACY_STARTUP_RETRY_BUDGET"@, d.startup_retry_budget)
    &&& c.shutdown_flush_warn_after == required_duration_value(vars, "LOGGYTRACY_SHUTDOWN_FLUSH_WARN_AFTER"@, d.shutdown_flush_warn_after)
    &&& c.memory_budget_bytes == d.memory_budget_bytes
    &&& c.memory_budget_source@ == d.memory_budget_source@
}

impl Config {
    /// Reads every knob. Where several are wrong, the first one read is what is
    /// reported.
    #[verifier::rlimit(100)]
    #[verifier::spinoff_prover]
    fn read(
        d: &Config,
        vars: &[(String, String)],
        threshold: Option<Result<u64, String>>,
    ) -> (out: Result<Config, String>)
        requires
            d.missing_tenant is None,
        ensures
            match out {
                Ok(c) => first_failure(read_problems(*d, vars@, threshold)) is None && reads_as(
                    c,
                    *d,
                    vars@,
                    threshold,
                ),
                Err(message) => first_failure(read_problems(*d, vars@, threshold)) == Some(
                    message@,
                ),
            },
    {
        let mut env = Env::new(vars);
        let malloc_trim_interval = env.duration("LOGGYTRACY_MALLOC_TRIM_INTERVAL", d.malloc_trim_interval);
        let listen_addr = string(vars, "LOGGYTRACY_LISTEN_ADDR", d.listen_addr.as_str());
        let otlp_grpc_addr = string(vars, "LOGGYTRACY_OTLP_GRPC_ADDR", d.otlp_grpc_addr.as_str());
        let data_dir = string(vars, "LOGGYTRACY_DATA_DIR", d.data_dir.as_str());
        let missing_tenant = env.tenant("LOGGYTRACY_MISSING_TENANT");
        let max_batch_bytes: usize = env.positive_usize("LOGGYTRACY_MAX_BATCH_BYTES", d.max_batch_bytes);
        let max_batch_ms: u64 = env.number("LOGGYTRACY_MAX_BATCH_MS", d.max_batch_ms);
        let max_line_bytes: usize = env.positive_usize("LOGGYTRACY_MAX_LINE_BYTES", d.max_line_bytes);
        let max_timestamp_age = env.duration("LOGGYTRACY_MAX_TIMESTAMP_AGE", d.max_timestamp_age);
        let max_memtable_bytes = env.optional("LOGGYTRACY_MAX_MEMTABLE_BYTES", d.max_memtable_bytes);
        let max_inflight_push_bytes = env.optional("LOGGYTRACY_MAX_INFLIGHT_PUSH_BYTES", d.max_inflight_push_bytes);
        let max_wal_backlog_bytes = env.optional("LOGGYTRACY_MAX_WAL_BACKLOG_BYTES", d.max_wal_backlog_bytes);
        let wal_compact_min_bytes = env.optional("LOGGYTRACY_WAL_COMPACT_MIN_BYTES", d.wal_compact_min_bytes);
        let backpressure_retry_after = env.required_duration("LOGGYTRACY_BACKPRESSURE_RETRY_AFTER", d.backpressure_retry_after);
        let max_timestamp_skew = env.duration("LOGGYTRACY_MAX_TIMESTAMP_SKEW", d.max_timestamp_skew);
        let flush_max_bytes: u64 = env.positive_u64("LOGGYTRACY_FLUSH_MAX_BYTES", d.flush_max_bytes);
        let flush_max_interval = env.required_duration("LOGGYTRACY_FLUSH_MAX_INTERVAL", d.flush_max_interval);
        let flush_check_interval = env.required_duration("LOGGYTRACY_FLUSH_CHECK_INTERVAL", d.flush_check_interval);
        let flush_chunk_bytes: u64 = env.positive_u64("LOGGYTRACY_FLUSH_CHUNK_BYTES", d.flush_chunk_bytes);
        let row_group_size: usize = env.positive_usize("LOGGYTRACY_ROW_GROUP_SIZE", d.row_group_size);
        let merge_min_part_count: usize = env.positive_usize("LOGGYTRACY_MERGE_MIN_PART_COUNT", d.merge_min_part_count);
        let merge_target_part_rows: u64 = env.positive_u64("LOGGYTRACY_MERGE_TARGET_PART_ROWS", d.merge_target_part_rows);
        let merge_max_part_rows: u64 = env.positive_u64("LOGGYTRACY_MERGE_MAX_PART_ROWS", d.merge_max_part_rows);
        let merge_max_input_bytes: u64 = env.positive_u64("LOGGYTRACY_MERGE_MAX_INPUT_BYTES", d.merge_max_input_bytes);
        let merge_max_memory_bytes: u64 = env.positive_u64("LOGGYTRACY_MERGE_MAX_MEMORY_BYTES", d.merge_max_memory_bytes);
        let merge_max_groups_per_tick: usize = env.positive_usize("LOGGYTRACY_MERGE_MAX_GROUPS_PER_TICK", d.merge_max_groups_per_tick);
        let merge_interval = env.required_duration("LOGGYTRACY_MERGE_INTERVAL", d.merge_interval);
        let object_store_url = url(vars, "LOGGYTRACY_OBJECT_STORE_URL");
        let cache_max_bytes: u64 = env.positive_u64("LOGGYTRACY_CACHE_MAX_BYTES", d.cache_max_bytes);
        let cache_eviction_interval = env.required_duration("LOGGYTRACY_CACHE_EVICTION_INTERVAL", d.cache_eviction_interval);
        let retention_interval = env.required_duration("LOGGYTRACY_RETENTION_INTERVAL", d.retention_interval);
        let retention_batch_size: usize = env.positive_usize("LOGGYTRACY_RETENTION_BATCH_SIZE", d.retention_batch_size);
        let retention_grace_period = env.required_duration("LOGGYTRACY_RETENTION_GRACE_PERIOD", d.retention_grace_period);
        let max_retention_runtime = env.required_duration("LOGGYTRACY_MAX_RETENTION_RUNTIME", d.max_retention_runtime);
        let max_concurrent_queries_per_tenant: usize = env.positive_usize("LOGGYTRACY_MAX_CONCURRENT_QUERIES_PER_TENANT", d.max_concurrent_queries_per_tenant);
        let default_tenant_max_stored_bytes = env.optional("LOGGYTRACY_DEFAULT_TENANT_MAX_STORED_BYTES", d.default_tenant_max_stored_bytes);
        let min_free_disk_bytes = env.optional("LOGGYTRACY_MIN_FREE_DISK_BYTES", d.min_free_disk_bytes);
        let log_format = env.format("LOGGYTRACY_LOG_FORMAT", d.log_format);
        let disk_sample_interval = env.required_duration("LOGGYTRACY_DISK_SAMPLE_INTERVAL", d.disk_sample_interval);
        let retention_rewrite_threshold: u64 = env.threshold(
            "LOGGYTRACY_RETENTION_REWRITE_THRESHOLD",
            threshold,
            d.retention_rewrite_threshold,
        );
        let max_concurrent_tails: usize = env.positive_usize("LOGGYTRACY_MAX_CONCURRENT_TAILS", d.max_concurrent_tails);
        let tail_poll_interval = env.required_duration("LOGGYTRACY_TAIL_POLL_INTERVAL", d.tail_poll_interval);
        let max_query_range = env.duration("LOGGYTRACY_MAX_QUERY_RANGE", None);
        let max_query_scan_rows: usize = env.positive_usize("LOGGYTRACY_MAX_QUERY_SCAN_ROWS", d.max_query_scan_rows);
        let max_query_scan_bytes: u64 = env.positive_u64("LOGGYTRACY_MAX_QUERY_SCAN_BYTES", d.max_query_scan_bytes);
        let query_memory_budget_bytes: u64 = env.positive_u64("LOGGYTRACY_QUERY_MEMORY_BUDGET_BYTES", d.query_memory_budget_bytes);
        let row_group_cache_max_bytes = env.optional("LOGGYTRACY_ROW_GROUP_CACHE_MAX_BYTES", d.row_group_cache_max_bytes);
        let sidecar_cache_max_bytes = env.optional("LOGGYTRACY_SIDECAR_CACHE_MAX_BYTES", d.sidecar_cache_max_bytes);
        let max_query_memory_bytes: u64 = env.positive_u64("LOGGYTRACY_MAX_QUERY_MEMORY_BYTES", d.max_query_memory_bytes);
        let max_log_limit: usize = env.positive_usize("LOGGYTRACY_MAX_LOG_LIMIT", d.max_log_limit);
        let max_histogram_buckets: usize = env.positive_usize("LOGGYTRACY_MAX_HISTOGRAM_BUCKETS", d.max_histogram_buckets);
        let max_concurrent_query_scans: usize = env.positive_usize("LOGGYTRACY_MAX_CONCURRENT_QUERY_SCANS", d.max_concurrent_query_scans);
        let max_query_runtime = env.required_duration("LOGGYTRACY_MAX_QUERY_RUNTIME", d.max_query_runtime);
        let max_restore_runtime = env.required_duration("LOGGYTRACY_MAX_RESTORE_RUNTIME", d.max_restore_runtime);
        let max_trace_spans: usize = env.positive_usize("LOGGYTRACY_MAX_TRACE_SPANS", d.max_trace_spans);
        let max_trace_search_limit: usize = env.positive_usize("LOGGYTRACY_MAX_TRACE_SEARCH_LIMIT", d.max_trace_search_limit);
        let max_concurrent_trace_scans: usize = env.positive_usize("LOGGYTRACY_MAX_CONCURRENT_TRACE_SCANS", d.max_concurrent_trace_scans);
        let max_trace_query_runtime = env.required_duration("LOGGYTRACY_MAX_TRACE_QUERY_RUNTIME", d.max_trace_query_runtime);
        let max_trace_restore_runtime = env.required_duration("LOGGYTRACY_MAX_TRACE_RESTORE_RUNTIME", d.max_trace_restore_runtime);
        let max_active_series: usize = env.positive_usize("LOGGYTRACY_MAX_ACTIVE_SERIES", d.max_active_series);
        let metric_series_idle_timeout = env.required_duration("LOGGYTRACY_METRIC_SERIES_IDLE_TIMEOUT", d.metric_series_idle_timeout);
        let startup_retry_budget = env.required_duration("LOGGYTRACY_STARTUP_RETRY_BUDGET", d.startup_retry_budget);
        let shutdown_flush_warn_after = env.required_duration("LOGGYTRACY_SHUTDOWN_FLUSH_WARN_AFTER", d.shutdown_flush_warn_after);
        assert(env.outcomes() =~= read_problems(*d, vars@, threshold));
        proof {
            crate::checks::none_fails(read_problems(*d, vars@, threshold));
        }
        match env.finish() {
            Err(message) => Err(message),
            Ok(_) => {
                proof {
                    all_pass(*d, vars@, threshold);
                }
                Ok(
                    Config {
                        listen_addr,
                        otlp_grpc_addr,
                        data_dir,
                        missing_tenant,
                        max_batch_bytes,
                        max_batch_ms,
                        max_line_bytes,
                        max_timestamp_age,
                        max_timestamp_skew,
                        max_memtable_bytes,
                        max_wal_backlog_bytes,
                        max_inflight_push_bytes,
                        wal_compact_min_bytes,
                        backpressure_retry_after,
                        flush_max_bytes,
                        flush_max_interval,
                        flush_check_interval,
                        flush_chunk_bytes,
                        row_group_size,
                        merge_min_part_count,
                        merge_target_part_rows,
                        merge_max_part_rows,
                        merge_max_input_bytes,
                        merge_max_memory_bytes,
                        merge_max_groups_per_tick,
                        merge_interval,
                        object_store_url,
                        cache_max_bytes,
                        cache_eviction_interval,
                        retention_interval,
                        retention_batch_size,
                        retention_grace_period,
                        max_retention_runtime,
                        max_concurrent_queries_per_tenant,
                        default_tenant_max_stored_bytes,
                        min_free_disk_bytes,
                        log_format,
                        disk_sample_interval,
                        retention_rewrite_threshold,
                        max_concurrent_tails,
                        tail_poll_interval,
                        max_query_range,
                        max_query_scan_rows,
                        max_query_scan_bytes,
                        max_query_memory_bytes,
                        query_memory_budget_bytes,
                        row_group_cache_max_bytes,
                        sidecar_cache_max_bytes,
                        max_log_limit,
                        max_histogram_buckets,
                        max_concurrent_query_scans,
                        max_query_runtime,
                        max_restore_runtime,
                        max_trace_spans,
                        max_trace_search_limit,
                        max_concurrent_trace_scans,
                        max_trace_query_runtime,
                        max_trace_restore_runtime,
                        max_active_series,
                        metric_series_idle_timeout,
                        shutdown_flush_warn_after,
                        startup_retry_budget,
                        malloc_trim_interval,
                        memory_budget_bytes: d.memory_budget_bytes,
                        memory_budget_source: d.memory_budget_source.clone(),
                    },
                )
            },
        }
    }
}

/// Whether there is no problem from a place on.
spec fn none_from(problems: Seq<Option<Seq<char>>>, i: int) -> bool
    decreases problems.len() - i,
{
    i >= problems.len() || problems[i] is None && none_from(problems, i + 1)
}

proof fn none_from_the_first(problems: Seq<Option<Seq<char>>>, i: int)
    requires
        0 <= i,
        forall|n: int| 0 <= n < problems.len() ==> #[trigger] problems[n] is None,
    ensures
        none_from(problems, i),
    decreases problems.len() - i,
{
    if i < problems.len() {
        none_from_the_first(problems, i + 1);
    }
}

/// Where no problem is reported, no single check failed.
proof fn all_pass(d: Config, vars: Seq<(String, String)>, threshold: Option<Result<u64, String>>)
    requires
        first_failure(read_problems(d, vars, threshold)) is None,
    ensures
        duration_problem(vars, "LOGGYTRACY_MALLOC_TRIM_INTERVAL"@) is None,
        tenant_knob_problem(vars, "LOGGYTRACY_MISSING_TENANT"@) is None,
        positive_usize_problem(vars, "LOGGYTRACY_MAX_BATCH_BYTES"@, d.max_batch_bytes) is None,
        u64_problem(vars, "LOGGYTRACY_MAX_BATCH_MS"@) is None,
        positive_usize_problem(vars, "LOGGYTRACY_MAX_LINE_BYTES"@, d.max_line_bytes) is None,
        duration_problem(vars, "LOGGYTRACY_MAX_TIMESTAMP_AGE"@) is None,
        optional_problem(vars, "LOGGYTRACY_MAX_MEMTABLE_BYTES"@) is None,
        optional_problem(vars, "LOGGYTRACY_MAX_INFLIGHT_PUSH_BYTES"@) is None,
        optional_problem(vars, "LOGGYTRACY_MAX_WAL_BACKLOG_BYTES"@) is None,
        optional_problem(vars, "LOGGYTRACY_WAL_COMPACT_MIN_BYTES"@) is None,
        required_duration_problem(vars, "LOGGYTRACY_BACKPRESSURE_RETRY_AFTER"@, d.backpressure_retry_after) is None,
        duration_problem(vars, "LOGGYTRACY_MAX_TIMESTAMP_SKEW"@) is None,
        positive_u64_problem(vars, "LOGGYTRACY_FLUSH_MAX_BYTES"@, d.flush_max_bytes) is None,
        required_duration_problem(vars, "LOGGYTRACY_FLUSH_MAX_INTERVAL"@, d.flush_max_interval) is None,
        required_duration_problem(vars, "LOGGYTRACY_FLUSH_CHECK_INTERVAL"@, d.flush_check_interval) is None,
        positive_u64_problem(vars, "LOGGYTRACY_FLUSH_CHUNK_BYTES"@, d.flush_chunk_bytes) is None,
        positive_usize_problem(vars, "LOGGYTRACY_ROW_GROUP_SIZE"@, d.row_group_size) is None,
        positive_usize_problem(vars, "LOGGYTRACY_MERGE_MIN_PART_COUNT"@, d.merge_min_part_count) is None,
        positive_u64_problem(vars, "LOGGYTRACY_MERGE_TARGET_PART_ROWS"@, d.merge_target_part_rows) is None,
        positive_u64_problem(vars, "LOGGYTRACY_MERGE_MAX_PART_ROWS"@, d.merge_max_part_rows) is None,
        positive_u64_problem(vars, "LOGGYTRACY_MERGE_MAX_INPUT_BYTES"@, d.merge_max_input_bytes) is None,
        positive_u64_problem(vars, "LOGGYTRACY_MERGE_MAX_MEMORY_BYTES"@, d.merge_max_memory_bytes) is None,
        positive_usize_problem(vars, "LOGGYTRACY_MERGE_MAX_GROUPS_PER_TICK"@, d.merge_max_groups_per_tick) is None,
        required_duration_problem(vars, "LOGGYTRACY_MERGE_INTERVAL"@, d.merge_interval) is None,
        positive_u64_problem(vars, "LOGGYTRACY_CACHE_MAX_BYTES"@, d.cache_max_bytes) is None,
        required_duration_problem(vars, "LOGGYTRACY_CACHE_EVICTION_INTERVAL"@, d.cache_eviction_interval) is None,
        required_duration_problem(vars, "LOGGYTRACY_RETENTION_INTERVAL"@, d.retention_interval) is None,
        positive_usize_problem(vars, "LOGGYTRACY_RETENTION_BATCH_SIZE"@, d.retention_batch_size) is None,
        required_duration_problem(vars, "LOGGYTRACY_RETENTION_GRACE_PERIOD"@, d.retention_grace_period) is None,
        required_duration_problem(vars, "LOGGYTRACY_MAX_RETENTION_RUNTIME"@, d.max_retention_runtime) is None,
        positive_usize_problem(vars, "LOGGYTRACY_MAX_CONCURRENT_QUERIES_PER_TENANT"@, d.max_concurrent_queries_per_tenant) is None,
        optional_problem(vars, "LOGGYTRACY_DEFAULT_TENANT_MAX_STORED_BYTES"@) is None,
        optional_problem(vars, "LOGGYTRACY_MIN_FREE_DISK_BYTES"@) is None,
        format_problem(vars, "LOGGYTRACY_LOG_FORMAT"@, d.log_format) is None,
        required_duration_problem(vars, "LOGGYTRACY_DISK_SAMPLE_INTERVAL"@, d.disk_sample_interval) is None,
        threshold_problem(vars, "LOGGYTRACY_RETENTION_REWRITE_THRESHOLD"@, threshold) is None,
        positive_usize_problem(vars, "LOGGYTRACY_MAX_CONCURRENT_TAILS"@, d.max_concurrent_tails) is None,
        required_duration_problem(vars, "LOGGYTRACY_TAIL_POLL_INTERVAL"@, d.tail_poll_interval) is None,
        duration_problem(vars, "LOGGYTRACY_MAX_QUERY_RANGE"@) is None,
        positive_usize_problem(vars, "LOGGYTRACY_MAX_QUERY_SCAN_ROWS"@, d.max_query_scan_rows) is None,
        positive_u64_problem(vars, "LOGGYTRACY_MAX_QUERY_SCAN_BYTES"@, d.max_query_scan_bytes) is None,
        positive_u64_problem(vars, "LOGGYTRACY_QUERY_MEMORY_BUDGET_BYTES"@, d.query_memory_budget_bytes) is None,
        optional_problem(vars, "LOGGYTRACY_ROW_GROUP_CACHE_MAX_BYTES"@) is None,
        optional_problem(vars, "LOGGYTRACY_SIDECAR_CACHE_MAX_BYTES"@) is None,
        positive_u64_problem(vars, "LOGGYTRACY_MAX_QUERY_MEMORY_BYTES"@, d.max_query_memory_bytes) is None,
        positive_usize_problem(vars, "LOGGYTRACY_MAX_LOG_LIMIT"@, d.max_log_limit) is None,
        positive_usize_problem(vars, "LOGGYTRACY_MAX_HISTOGRAM_BUCKETS"@, d.max_histogram_buckets) is None,
        positive_usize_problem(vars, "LOGGYTRACY_MAX_CONCURRENT_QUERY_SCANS"@, d.max_concurrent_query_scans) is None,
        required_duration_problem(vars, "LOGGYTRACY_MAX_QUERY_RUNTIME"@, d.max_query_runtime) is None,
        required_duration_problem(vars, "LOGGYTRACY_MAX_RESTORE_RUNTIME"@, d.max_restore_runtime) is None,
        positive_usize_problem(vars, "LOGGYTRACY_MAX_TRACE_SPANS"@, d.max_trace_spans) is None,
        positive_usize_problem(vars, "LOGGYTRACY_MAX_TRACE_SEARCH_LIMIT"@, d.max_trace_search_limit) is None,
        positive_usize_problem(vars, "LOGGYTRACY_MAX_CONCURRENT_TRACE_SCANS"@, d.max_concurrent_trace_scans) is None,
        required_duration_problem(vars, "LOGGYTRACY_MAX_TRACE_QUERY_RUNTIME"@, d.max_trace_query_runtime) is None,
        required_duration_problem(vars, "LOGGYTRACY_MAX_TRACE_RESTORE_RUNTIME"@, d.max_trace_restore_runtime) is None,
        positive_usize_problem(vars, "LOGGYTRACY_MAX_ACTIVE_SERIES"@, d.max_active_series) is None,
        required_duration_problem(vars, "LOGGYTRACY_METRIC_SERIES_IDLE_TIMEOUT"@, d.metric_series_idle_timeout) is None,
        required_duration_problem(vars, "LOGGYTRACY_STARTUP_RETRY_BUDGET"@, d.startup_retry_budget) is None,
        required_duration_problem(vars, "LOGGYTRACY_SHUTDOWN_FLUSH_WARN_AFTER"@, d.shutdown_flush_warn_after) is None,
{
    let all = read_problems(d, vars, threshold);
    crate::checks::none_fails(all);
    assert forall|i: int| 0 <= i < all.len() implies #[trigger] all[i] is None by {}
    none_from_the_first(all, 0);
    reveal_with_fuel(none_from, 60);
}

/// Whether `d` holds the defaults of a budget: those of the engine, with the
/// ceilings that the budget gives where there is one.
pub open spec fn defaults_for(d: Config, budget: Option<u64>, source: Seq<char>) -> bool {
    exists|base: Config|
        #![trigger base.is_default()]
        base.is_default() && d.memory_budget_source@ == source && ({
            let derived = match budget {
                Some(bytes) => crate::config::budgeted(base, bytes),
                None => base,
            };
            d == Config {
                memory_budget_bytes: budget,
                memory_budget_source: d.memory_budget_source,
                ..derived
            }
        })
}

impl Config {
    /// The whole configuration: the budget first, then every knob, then whether
    /// they work together. The first problem met is the one reported.
    ///
    /// `threshold` is what the caller read the rewrite threshold's text as.
    pub fn from_env(
        vars: &[(String, String)],
        host: HostMemory,
        threshold: Option<Result<u64, String>>,
    ) -> (out: Result<Config, String>)
        requires
            lookup(vars@, "LOGGYTRACY_MEMORY_BUDGET"@) is None ==> (
            host.limit_bytes matches Some(limit) ==> limit
                * crate::config::MEMORY_BUDGET_FRACTION_PERCENT <= u64::MAX),
        ensures
            ({
                let budget = crate::config::budget_of(
                    lookup(vars@, "LOGGYTRACY_MEMORY_BUDGET"@),
                    host.limit_bytes,
                    host.source@,
                );
                match out {
                    Ok(c) => budget is Ok && first_failure(c.problems()) is None && exists|d: Config|
                        #![trigger read_problems(d, vars@, threshold)]
                        {
                            &&& defaults_for(d, budget->Ok_0.0, budget->Ok_0.1)
                            &&& first_failure(read_problems(d, vars@, threshold)) is None
                            &&& reads_as(c, d, vars@, threshold)
                        },
                    Err(message) => match budget {
                        Err(why) => message@ == why,
                        Ok((bytes, source)) => exists|d: Config|
                            #![trigger read_problems(d, vars@, threshold)]
                            defaults_for(d, bytes, source) && match first_failure(
                                read_problems(d, vars@, threshold),
                            ) {
                                Some(why) => message@ == why,
                                None => exists|c: Config|
                                    #![trigger c.problems()]
                                    reads_as(c, d, vars@, threshold) && first_failure(c.problems())
                                        == Some(message@),
                            },
                    },
                }
            }),
    {
        let knob: Option<&str> = match get(vars, "LOGGYTRACY_MEMORY_BUDGET") {
            Some(raw) => Some(raw.as_str()),
            None => None,
        };
        let (bytes, source) = match resolve_memory_budget(knob, host) {
            Ok(pair) => pair,
            Err(message) => {
                return Err(message);
            },
        };
        let mut d = Config::default();
        let ghost base = d;
        if let Some(budget) = bytes {
            derive_defaults_from_budget(&mut d, budget);
        }
        d.memory_budget_bytes = bytes;
        d.memory_budget_source = source;
        proof {
            assert(base.is_default());
            assert(defaults_for(d, bytes, source@));
        }
        match Config::read(&d, vars, threshold) {
            Err(message) => {
                assert(first_failure(read_problems(d, vars@, threshold)) == Some(message@));
                Err(message)
            },
            Ok(c) => {
                assert(first_failure(read_problems(d, vars@, threshold)) is None);
                match c.validate() {
                    Ok(_) => Ok(c),
                    Err(message) => {
                        assert(reads_as(c, d, vars@, threshold) && first_failure(c.problems())
                            == Some(message@));
                        Err(message)
                    },
                }
            },
        }
    }
}


} // verus!
