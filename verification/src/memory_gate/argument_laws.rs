//! What reading the command line promises: which flag a name stands for, what a flag takes,
//! and what holds where nothing is said.

use vstd::prelude::*;
use vstd::string::*;

use crate::memory_gate::args::{
    flag_of, initial_settings, is_switch, scenario_of, settings_from, split_pair, with_value,
    ArgumentView, Flag, Rate, Scenario, SettingsView,
};
use crate::text::{ascii_lowered, index_of_char_is, trimmed};

verus! {

/// Each flag goes by its own name and by no other.
pub proof fn a_flag_goes_by_its_name(text: Seq<char>)
    ensures
        flag_of(text) == Some(Flag::Budget) <==> text == "--budget"@,
        flag_of(text) == Some(Flag::Limit) <==> text == "--limit"@,
        flag_of(text) == Some(Flag::Name) <==> text == "--name"@,
        flag_of(text) == Some(Flag::Out) <==> text == "--out"@,
        flag_of(text) == Some(Flag::Seconds) <==> text == "--seconds"@,
        flag_of(text) == Some(Flag::Events) <==> text == "--events"@,
        flag_of(text) == Some(Flag::Eps) <==> text == "--eps"@,
        flag_of(text) == Some(Flag::Connections) <==> text == "--connections"@,
        flag_of(text) == Some(Flag::QueryEps) <==> text == "--query-eps"@,
        flag_of(text) == Some(Flag::QueryConnections) <==> text == "--query-connections"@,
        flag_of(text) == Some(Flag::Scenario) <==> text == "--scenario"@,
        flag_of(text) == Some(Flag::Seed) <==> text == "--seed"@,
        flag_of(text) == Some(Flag::Port) <==> text == "--port"@,
        flag_of(text) == Some(Flag::Settle) <==> text == "--settle"@,
        flag_of(text) == Some(Flag::ServerEnv) <==> text == "--server-env"@,
        flag_of(text) == Some(Flag::SkipBuild) <==> text == "--skip-build"@,
        flag_of(text) == Some(Flag::KeepData) <==> text == "--keep-data"@,
        flag_of(text) == Some(Flag::Help) <==> text == "-h"@ || text == "--help"@,
{
    reveal_strlit("--budget");
    reveal_strlit("--limit");
    reveal_strlit("--name");
    reveal_strlit("--out");
    reveal_strlit("--seconds");
    reveal_strlit("--events");
    reveal_strlit("--eps");
    reveal_strlit("--connections");
    reveal_strlit("--query-eps");
    reveal_strlit("--query-connections");
    reveal_strlit("--scenario");
    reveal_strlit("--seed");
    reveal_strlit("--port");
    reveal_strlit("--settle");
    reveal_strlit("--server-env");
    reveal_strlit("--skip-build");
    reveal_strlit("--keep-data");
    reveal_strlit("-h");
    reveal_strlit("--help");
    assert("--budget"@[2] == 'b' && "--budget"@[3] == 'u');
    assert("--limit"@[2] == 'l' && "--limit"@[3] == 'i');
    assert("--name"@[2] == 'n' && "--name"@[3] == 'a');
    assert("--out"@[2] == 'o' && "--out"@[3] == 'u');
    assert("--seconds"@[2] == 's' && "--seconds"@[3] == 'e');
    assert("--events"@[2] == 'e' && "--events"@[3] == 'v');
    assert("--eps"@[2] == 'e' && "--eps"@[3] == 'p');
    assert("--connections"@[2] == 'c' && "--connections"@[3] == 'o');
    assert("--query-eps"@[2] == 'q' && "--query-eps"@[3] == 'u');
    assert("--query-connections"@[2] == 'q' && "--query-connections"@[3] == 'u');
    assert("--scenario"@[2] == 's' && "--scenario"@[3] == 'c');
    assert("--seed"@[2] == 's' && "--seed"@[3] == 'e');
    assert("--port"@[2] == 'p' && "--port"@[3] == 'o');
    assert("--settle"@[2] == 's' && "--settle"@[3] == 'e');
    assert("--server-env"@[2] == 's' && "--server-env"@[3] == 'e');
    assert("--skip-build"@[2] == 's' && "--skip-build"@[3] == 'k');
    assert("--keep-data"@[2] == 'k' && "--keep-data"@[3] == 'e');
    if text =~= "--budget"@ {
        assert(text.len() == 8 && text[2] == 'b' && text[3] == 'u');
        assert(flag_of(text) == Some(Flag::Budget));
    }
    if text =~= "--limit"@ {
        assert(text.len() == 7 && text[2] == 'l' && text[3] == 'i');
        assert(flag_of(text) == Some(Flag::Limit));
    }
    if text =~= "--name"@ {
        assert(text.len() == 6 && text[2] == 'n' && text[3] == 'a');
        assert(flag_of(text) == Some(Flag::Name));
    }
    if text =~= "--out"@ {
        assert(text.len() == 5 && text[2] == 'o' && text[3] == 'u');
        assert(flag_of(text) == Some(Flag::Out));
    }
    if text =~= "--seconds"@ {
        assert(text.len() == 9 && text[2] == 's' && text[3] == 'e');
        assert(flag_of(text) == Some(Flag::Seconds));
    }
    if text =~= "--events"@ {
        assert(text.len() == 8 && text[2] == 'e' && text[3] == 'v');
        assert(flag_of(text) == Some(Flag::Events));
    }
    if text =~= "--eps"@ {
        assert(text.len() == 5 && text[2] == 'e' && text[3] == 'p');
        assert(flag_of(text) == Some(Flag::Eps));
    }
    if text =~= "--connections"@ {
        assert(text.len() == 13 && text[2] == 'c' && text[3] == 'o');
        assert(flag_of(text) == Some(Flag::Connections));
    }
    if text =~= "--query-eps"@ {
        assert(text.len() == 11 && text[2] == 'q' && text[3] == 'u');
        assert(flag_of(text) == Some(Flag::QueryEps));
    }
    if text =~= "--query-connections"@ {
        assert(text.len() == 19 && text[2] == 'q' && text[3] == 'u');
        assert(flag_of(text) == Some(Flag::QueryConnections));
    }
    if text =~= "--scenario"@ {
        assert(text.len() == 10 && text[2] == 's' && text[3] == 'c');
        assert(flag_of(text) == Some(Flag::Scenario));
    }
    if text =~= "--seed"@ {
        assert(text.len() == 6 && text[2] == 's' && text[3] == 'e');
        assert(flag_of(text) == Some(Flag::Seed));
    }
    if text =~= "--port"@ {
        assert(text.len() == 6 && text[2] == 'p' && text[3] == 'o');
        assert(flag_of(text) == Some(Flag::Port));
    }
    if text =~= "--settle"@ {
        assert(text.len() == 8 && text[2] == 's' && text[3] == 'e');
        assert(flag_of(text) == Some(Flag::Settle));
    }
    if text =~= "--server-env"@ {
        assert(text.len() == 12 && text[2] == 's' && text[3] == 'e');
        assert(flag_of(text) == Some(Flag::ServerEnv));
    }
    if text =~= "--skip-build"@ {
        assert(text.len() == 12 && text[2] == 's' && text[3] == 'k');
        assert(flag_of(text) == Some(Flag::SkipBuild));
    }
    if text =~= "--keep-data"@ {
        assert(text.len() == 11 && text[2] == 'k' && text[3] == 'e');
        assert(flag_of(text) == Some(Flag::KeepData));
    }
    assert("--help"@[2] == 'h');
}

/// Where the command line says nothing, there is no budget and no limit, and the run lasts
/// 240 seconds and settles for 150, with 1 200 000 events at 20000 a second over 8
/// connections and 5 queries a second over 4.
pub proof fn without_flags_the_defaults_hold()
    ensures
        settings_from(initial_settings(), Seq::empty(), 0) == Ok::<SettingsView, Seq<char>>(
            initial_settings(),
        ),
        ({
            let settings = initial_settings();
            &&& settings.budget is None
            &&& settings.limit is None
            &&& settings.name == "budget"@
            &&& settings.out is None
            &&& settings.seconds == 240
            &&& settings.events == 1_200_000
            &&& settings.eps == "20000"@
            &&& settings.connections == 8
            &&& settings.query_eps == "5"@
            &&& settings.query_rate == Rate::Positive
            &&& settings.query_connections == 4
            &&& settings.seed == 1_592_598_566
            &&& settings.port == 3251
            &&& settings.settle == 150
            &&& settings.server_env.len() == 0
            &&& !settings.skip_build
            &&& !settings.keep_data
            &&& settings.scenario == Scenario::Logs
        }),
{
}

/// Arguments are read one flag behind the other, each with the value behind it unless it
/// stands alone. One that is no flag is refused, and so is a flag whose value is missing.
pub proof fn arguments_are_read_one_flag_behind_the_other(
    before: SettingsView,
    arguments: Seq<ArgumentView>,
    from: int,
    flag: Flag,
)
    requires
        0 <= from < arguments.len(),
    ensures
        flag_of(arguments[from].0) is None ==> settings_from(before, arguments, from) is Err,
        flag_of(arguments[from].0) == Some(flag) && !is_switch(flag) && from + 1
            == arguments.len() ==> settings_from(before, arguments, from) is Err,
        flag_of(arguments[from].0) == Some(flag) && !is_switch(flag) && from + 1 < arguments.len()
            && with_value(before, flag, arguments[from + 1]) is Ok ==> settings_from(
            before,
            arguments,
            from,
        ) == settings_from(
            with_value(before, flag, arguments[from + 1])->Ok_0,
            arguments,
            from + 2,
        ),
        flag_of(arguments[from].0) == Some(flag) && !is_switch(flag) && from + 1 < arguments.len()
            && with_value(before, flag, arguments[from + 1]) is Err ==> settings_from(
            before,
            arguments,
            from,
        ) is Err,
        flag_of(arguments[from].0) == Some(Flag::SkipBuild) ==> settings_from(
            before,
            arguments,
            from,
        ) == settings_from((SettingsView { skip_build: true, ..before }), arguments, from + 1),
        flag_of(arguments[from].0) == Some(Flag::KeepData) ==> settings_from(
            before,
            arguments,
            from,
        ) == settings_from((SettingsView { keep_data: true, ..before }), arguments, from + 1),
        flag_of(arguments[from].0) == Some(Flag::Help) ==> settings_from(before, arguments, from)
            is Err,
{
}

/// A scenario goes by its name, in the singular or the plural, whatever the case.
pub proof fn a_scenario_goes_by_its_name(raw: Seq<char>)
    ensures
        ({
            let name = ascii_lowered(trimmed(raw));
            &&& scenario_of(raw) == Ok::<Scenario, Seq<char>>(Scenario::Logs) <==> name == "logs"@
                || name == "log"@
            &&& scenario_of(raw) == Ok::<Scenario, Seq<char>>(Scenario::Metrics) <==> name
                == "metrics"@ || name == "metric"@
        }),
{
    reveal_strlit("logs");
    reveal_strlit("log");
    reveal_strlit("metrics");
    reveal_strlit("metric");
    assert("logs"@[0] == 'l' && "log"@[0] == 'l');
    assert("metrics"@[0] == 'm' && "metric"@[0] == 'm');
}

/// A variable is split at the first `=`, and a text without one is none.
pub proof fn a_variable_is_split_at_the_first_sign(key: Seq<char>, value: Seq<char>)
    requires
        forall|i: int| 0 <= i < key.len() ==> key[i] != '=',
    ensures
        split_pair(key + seq!['='] + value) == Some((key, value)),
        split_pair(key) is None,
{
    let raw = key + seq!['='] + value;
    let at = key.len() as int;
    index_of_char_is(raw, '=', at);
    assert(raw.take(at) =~= key);
    assert(raw.skip(at + 1) =~= value);
    index_of_char_is(key, '=', at);
}

} // verus!
