//! What the memory gate promises: when a run passes, what its numbers say, and how its
//! command line is read.

use vstd::prelude::*;
use vstd::string::*;

use crate::checks::shown;
use crate::memory_gate::args::{
    leading_digits, limits_of, size_of_text, unit_bytes, with_value, Flag, Rate, SettingsView,
};
use crate::memory_gate::decision::{
    decision_of, exit_of, watch_step_of, Delivery, Findings, Outcome, WatchStep,
};
use crate::memory_gate::readings::{kills_of, limits_problem, phase_peak_of, Sample};
use crate::text::{
    all_digits, ascii_lowered, decimal, decimal_reads_back, is_digit, is_space, parsed_unsigned,
    trimmed,
};

verus! {

// ------------------------------------------------------------------- decision
/// A run was killed exactly if the kernel counted a kill, the service manager calls it
/// one, or the server exited with the status of one. It measured nothing exactly if it
/// was not killed and the server is gone, the load run left no report, or fewer than nine
/// in ten of the offered events were accepted. Only then does the peak decide.
pub proof fn a_run_is_decided_by_what_it_showed(findings: Findings)
    ensures
        ({
            let killed = findings.oom_kills > 0 || shown(findings.scope_result) == Some(
                "oom-kill"@,
            ) || (!findings.alive && findings.exit_code == Some(137i32));
            let short = match findings.delivery {
                Delivery::Events(accepted) => if findings.events == 0 {
                    accepted == 0
                } else {
                    accepted * 10 < findings.events * 9
                },
                Delivery::Steady(enough) => !enough,
            };
            let blind = !findings.alive || !findings.reported || short;
            let decision = decision_of(findings);
            &&& decision == Ok::<Outcome, Seq<char>>(Outcome::OomKilled) <==> killed
            &&& decision is Err <==> !killed && blind
            &&& decision == Ok::<Outcome, Seq<char>>(Outcome::OverBudget) <==> !killed && !blind
                && findings.anon_peak > findings.budget_bytes
            &&& decision == Ok::<Outcome, Seq<char>>(Outcome::UnderBudget) <==> !killed && !blind
                && findings.anon_peak <= findings.budget_bytes
            &&& exit_of(decision) == 0 <==> decision == Ok::<Outcome, Seq<char>>(
                Outcome::UnderBudget,
            )
            &&& exit_of(decision) == 2 <==> decision == Ok::<Outcome, Seq<char>>(
                Outcome::OverBudget,
            )
            &&& exit_of(decision) == 3 <==> decision == Ok::<Outcome, Seq<char>>(
                Outcome::OomKilled,
            )
            &&& exit_of(decision) == 4 <==> decision is Err
        }),
{
}

/// A load run that is over ends the watch, whatever else is the case. Until then a server
/// that has been gone for more than three seconds stops it, and after that the deadline.
pub proof fn the_watch_ends_for_the_first_reason(
    load_over: bool,
    since_death_ms: Option<u64>,
    past_deadline: bool,
)
    ensures
        ({
            let step = watch_step_of(load_over, since_death_ms, past_deadline);
            let gone = since_death_ms is Some && since_death_ms->Some_0 > 3000;
            &&& step == WatchStep::Finish <==> load_over
            &&& step == WatchStep::StopLoad <==> !load_over && gone
            &&& step == WatchStep::GiveUp <==> !load_over && !gone && past_deadline
            &&& step == WatchStep::Wait <==> !load_over && !gone && !past_deadline
        }),
{
}

// ------------------------------------------------------------------- readings
/// The peak of a phase is the most that a sample of the phase shows, and there is none
/// exactly if the phase has no sample.
pub proof fn the_peak_of_a_phase_is_its_most(
    samples: Seq<Sample>,
    until_ns: u64,
    after: bool,
    i: int,
)
    requires
        0 <= i < samples.len(),
    ensures
        (samples[i].at_ns > until_ns) == after ==> phase_peak_of(samples, until_ns, after) is Some
            && samples[i].anon <= phase_peak_of(samples, until_ns, after)->Some_0,
        phase_peak_of(samples, until_ns, after) matches Some(most) ==> exists|j: int|
            0 <= j < samples.len() && (#[trigger] samples[j]).anon == most && (samples[j].at_ns
                > until_ns) == after,
    decreases samples.len(),
{
    let rest = samples.drop_last();
    let last = samples.len() - 1;
    if rest.len() > 0 {
        the_peak_of_a_phase_is_its_most(
            rest,
            until_ns,
            after,
            if i < last {
                i
            } else {
                0
            },
        );
        if i < last {
            assert(rest[i] == samples[i]);
        }
        if let Some(most) = phase_peak_of(rest, until_ns, after) {
            let j = choose|j: int|
                0 <= j < rest.len() && (#[trigger] rest[j]).anon == most && (rest[j].at_ns
                    > until_ns) == after;
            assert(samples[j] == rest[j]);
        }
    } else {
        assert(phase_peak_of(rest, until_ns, after) is None);
    }
    assert(samples[last] == samples.last());
}

/// The kills of a run are the most that any sample counts.
pub proof fn the_kills_are_the_most_counted(samples: Seq<Sample>, i: int)
    requires
        0 <= i < samples.len(),
    ensures
        samples[i].oom_kill <= kills_of(samples),
        exists|j: int| 0 <= j < samples.len() && (#[trigger] samples[j]).oom_kill == kills_of(samples),
    decreases samples.len(),
{
    let rest = samples.drop_last();
    let last = samples.len() - 1;
    assert(samples[last] == samples.last());
    if rest.len() > 0 {
        the_kills_are_the_most_counted(
            rest,
            if i < last {
                i
            } else {
                0
            },
        );
        if i < last {
            assert(rest[i] == samples[i]);
        }
        let j = choose|j: int|
            0 <= j < rest.len() && (#[trigger] rest[j]).oom_kill == kills_of(rest);
        assert(samples[j] == rest[j]);
    } else {
        assert(kills_of(rest) == 0);
    }
}

/// The limits of a cgroup are right exactly if both can be read, the memory limit is the
/// one that was asked for, and there is no swap.
pub proof fn limits_are_right_exactly_if_they_are_as_asked_for(
    max: Option<Seq<char>>,
    max_path: Seq<char>,
    swap: Option<Seq<char>>,
    swap_path: Seq<char>,
    limit_bytes: u64,
)
    ensures
        limits_problem(max, max_path, swap, swap_path, limit_bytes) is None <==> {
            &&& max is Some
            &&& parsed_unsigned(max->Some_0, u64::MAX as nat) == Some(limit_bytes as nat)
            &&& swap is Some
            &&& parsed_unsigned(swap->Some_0, u64::MAX as nat) == Some(0nat)
        },
{
}

// --------------------------------------------------------------- command line
proof fn digits_in_front(digits: Seq<char>, behind: Seq<char>)
    requires
        all_digits(digits),
        behind.len() == 0 || !is_digit(behind[0]),
    ensures
        leading_digits(digits + behind) == digits.len(),
    decreases digits.len(),
{
    let text = digits + behind;
    if digits.len() > 0 {
        assert(is_digit(digits[0]));
        let rest = digits.drop_first();
        assert forall|i: int| 0 <= i < rest.len() implies is_digit(#[trigger] rest[i]) by {
            assert(is_digit(digits[i + 1]));
        }
        digits_in_front(rest, behind);
        assert(text.drop_first() =~= rest + behind);
    } else {
        assert(text =~= behind);
    }
}

/// A size is its number times its unit, which is a byte where none is given; and no size
/// is zero.
pub proof fn a_size_is_its_number_times_its_unit(n: nat)
    requires
        n <= u64::MAX,
    ensures
        n > 0 ==> size_of_text(decimal(n)) is Ok && size_of_text(decimal(n))->Ok_0.0 == n,
        n > 0 ==> size_of_text(decimal(n) + "KiB"@) is Ok && size_of_text(
            decimal(n) + "KiB"@,
        )->Ok_0.0 == n * 1024,
        n > 0 ==> size_of_text(decimal(n) + "MiB"@) is Ok && size_of_text(
            decimal(n) + "MiB"@,
        )->Ok_0.0 == n * 1_048_576,
        n > 0 ==> size_of_text(decimal(n) + "GiB"@) is Ok && size_of_text(
            decimal(n) + "GiB"@,
        )->Ok_0.0 == n * 1_073_741_824,
        size_of_text(decimal(0)) is Err,
{
    decimal_reads_back(n);
    decimal_reads_back(0);
    let none = Seq::<char>::empty();
    assert(decimal(n) + none =~= decimal(n));
    assert(decimal(0) + none =~= decimal(0));
    reveal_strlit("KiB");
    reveal_strlit("MiB");
    reveal_strlit("GiB");
    reveal_strlit("kib");
    reveal_strlit("mib");
    reveal_strlit("gib");
    assert(ascii_lowered("KiB"@) =~= "kib"@);
    assert(ascii_lowered("MiB"@) =~= "mib"@);
    assert(ascii_lowered("GiB"@) =~= "gib"@);
    reveal_strlit("k");
    reveal_strlit("kb");
    reveal_strlit("m");
    reveal_strlit("mb");
    reveal_strlit("g");
    reveal_strlit("gb");
    reveal_strlit("b");
    assert("mib"@[0] == 'm' && "gib"@[0] == 'g');
    assert("k"@[0] == 'k' && "kib"@[0] == 'k' && "kb"@[0] == 'k');
    assert("m"@[0] == 'm' && "mb"@[0] == 'm');
    assert(unit_bytes("kib"@) == Some(1024u64));
    assert(unit_bytes("mib"@) == Some(1_048_576u64));
    assert(unit_bytes("gib"@) == Some(1_073_741_824u64));
    assert(ascii_lowered(none) =~= none);
    assert(unit_bytes(none) == Some(1u64));
    sized(decimal(n), none);
    sized(decimal(n), "KiB"@);
    sized(decimal(n), "MiB"@);
    sized(decimal(n), "GiB"@);
    sized(decimal(0), none);
    assert(crate::memory_gate::args::size_unit(decimal(n)) == none);
    assert(crate::memory_gate::args::size_number(decimal(n)) == Some(n));
    assert(n * 1 == n);
}

proof fn sized(digits: Seq<char>, unit: Seq<char>)
    requires
        digits.len() > 0,
        all_digits(digits),
        unit.len() > 0 ==> !is_digit(unit[0]) && !is_space(unit[0]) && !is_space(unit.last()),
    ensures
        trimmed(digits + unit) == digits + unit,
        leading_digits(digits + unit) == digits.len(),
        (digits + unit).take(digits.len() as int) == digits,
        trimmed((digits + unit).skip(digits.len() as int)) == unit,
{
    let text = digits + unit;
    digits_in_front(digits, unit);
    assert(is_digit(digits[0]));
    assert(is_digit(digits[digits.len() - 1]));
    assert(text.take(digits.len() as int) =~= digits);
    assert(text.skip(digits.len() as int) =~= unit);
    assert(text[0] == digits[0]);
    if unit.len() > 0 {
        assert(text.last() == unit.last());
    } else {
        assert(text.last() == digits.last());
    }
}

/// A command line is accepted for its limits exactly if a budget was given, the limit, if
/// one was given, is not below it, and reads are offered. Without a limit, the budget is
/// the limit.
pub proof fn the_limit_holds_the_budget(settings: SettingsView)
    ensures
        limits_of(settings) is Ok <==> {
            &&& settings.budget is Some
            &&& settings.limit is Some ==> settings.budget->Some_0.0 <= settings.limit->Some_0.0
            &&& settings.query_rate != Rate::NotPositive
        },
        limits_of(settings) matches Ok((budget, limit)) ==> {
            &&& budget == settings.budget->Some_0
            &&& settings.limit is Some ==> limit == settings.limit->Some_0
            &&& settings.limit is None ==> limit == budget
        },
{
}

/// A flag sets what it is named after and nothing else.
pub proof fn a_flag_sets_its_own_setting(
    before: SettingsView,
    flag: Flag,
    value: (Seq<char>, Rate),
)
    ensures
        with_value(before, flag, value) matches Ok(after) ==> {
            &&& flag != Flag::Budget ==> after.budget == before.budget
            &&& flag != Flag::Limit ==> after.limit == before.limit
            &&& flag != Flag::Name ==> after.name == before.name
            &&& flag != Flag::Out ==> after.out == before.out
            &&& flag != Flag::Seconds ==> after.seconds == before.seconds
            &&& flag != Flag::Events ==> after.events == before.events
            &&& flag != Flag::Eps ==> after.eps == before.eps
            &&& flag != Flag::Connections ==> after.connections == before.connections
            &&& flag != Flag::QueryEps ==> after.query_eps == before.query_eps && after.query_rate
                == before.query_rate
            &&& flag != Flag::QueryConnections ==> after.query_connections
                == before.query_connections
            &&& flag != Flag::Scenario ==> after.scenario == before.scenario
            &&& flag != Flag::Seed ==> after.seed == before.seed
            &&& flag != Flag::Port ==> after.port == before.port
            &&& flag != Flag::Settle ==> after.settle == before.settle
            &&& flag != Flag::ServerEnv ==> after.server_env == before.server_env
            &&& flag != Flag::SkipBuild ==> after.skip_build == before.skip_build
            &&& flag != Flag::KeepData ==> after.keep_data == before.keep_data
            &&& flag == Flag::Name ==> after.name == value.0
            &&& flag == Flag::Out ==> after.out == Some(value.0)
            &&& flag == Flag::Seconds ==> parsed_unsigned(trimmed(value.0), u64::MAX as nat)
                == Some(after.seconds)
            &&& flag == Flag::Events ==> parsed_unsigned(trimmed(value.0), u64::MAX as nat) == Some(
                after.events,
            )
            &&& flag == Flag::Seed ==> parsed_unsigned(trimmed(value.0), u64::MAX as nat) == Some(
                after.seed,
            )
            &&& flag == Flag::Settle ==> parsed_unsigned(trimmed(value.0), u64::MAX as nat) == Some(
                after.settle,
            )
            &&& flag == Flag::Port ==> parsed_unsigned(trimmed(value.0), u16::MAX as nat) == Some(
                after.port,
            )
            &&& flag == Flag::SkipBuild ==> after.skip_build
            &&& flag == Flag::KeepData ==> after.keep_data
        },
{
}

} // verus!
