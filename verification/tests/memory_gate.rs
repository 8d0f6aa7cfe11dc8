use loggytracy::memory_gate::args::{
    is_writable_size, metric_phase_seconds, parse_number, parse_size, Args, Argument, Rate, Scenario, USAGE,
};
use loggytracy::memory_gate::decision::{
    deadline_passed, deadline_seconds, decide, watch_step, Delivery, Findings, Outcome, WatchStep,
};
use loggytracy::memory_gate::readings::{
    check_controllers, http_status, log_tail, oom_kills, peak, phase_peak, read_sample, strip_ansi,
    verify_limits, write_series, Sample,
};

fn rate(text: &str) -> Rate {
    match text.trim().parse::<f64>() {
        Err(_) => Rate::Unreadable,
        Ok(value) if value <= 0.0 => Rate::NotPositive,
        Ok(_) => Rate::Positive,
    }
}

fn parse(line: &[&str]) -> Result<Args, String> {
    let arguments: Vec<Argument> =
        line.iter().map(|text| Argument { text: text.to_string(), rate: rate(text) }).collect();
    Args::parse(&arguments)
}

#[test]
fn a_command_line_is_read_in_order() {
    let args = parse(&["--budget", "2GiB"]).ok().unwrap();
    assert_eq!((args.budget_bytes, args.limit_bytes), (2 << 30, 2 << 30));
    assert_eq!((args.budget_text.as_str(), args.limit_text.as_str()), ("2GiB", "2GiB"));
    let settings = &args.settings;
    assert_eq!((settings.seconds, settings.events, settings.settle), (240, 1_200_000, 150));
    assert_eq!((settings.seed, settings.port), (1_592_598_566, 3251));
    assert_eq!((settings.eps.as_str(), settings.query_eps.as_str()), ("20000", "5"));

    let args = parse(&[
        "--budget", "1g", "--limit", " 3 GB ", "--eps", "1.5", "--seconds", "9", "--events", "10",
        "--connections", "2", "--query-eps", "0.5", "--query-connections", "3", "--seed", "7",
        "--port", "80", "--settle", "0", "--server-env", "A=b=c", "--skip-build", "--keep-data",
        "--scenario", "Metric", "--name", "x", "--out", "/tmp/x",
    ])
    .ok()
    .unwrap();
    assert_eq!((args.limit_bytes, args.limit_text.as_str()), (3 << 30, "3 GB"));
    let settings = args.settings;
    assert_eq!((settings.eps.as_str(), settings.query_eps.as_str()), ("1.5", "0.5"));
    assert_eq!((settings.connections, settings.query_connections), (2, 3));
    assert_eq!(settings.server_env, vec![("A".to_string(), "b=c".to_string())]);
    assert!(settings.skip_build && settings.keep_data);
    assert!(settings.scenario == Scenario::Metrics);
    assert_eq!((settings.name.as_str(), settings.out.as_deref()), ("x", Some("/tmp/x")));
}

#[test]
fn a_wrong_command_line_says_what_is_wrong_with_it() {
    let refuse = |line: &[&str]| parse(line).err().unwrap();
    assert_eq!(refuse(&[]), format!("--budget is required\n\n{USAGE}"));
    assert_eq!(refuse(&["--budget"]), "--budget needs a value");
    assert_eq!(refuse(&["--what"]), format!("unknown argument \"--what\"\n\n{USAGE}"));
    assert_eq!(refuse(&["--help", "--what"]), USAGE);
    assert_eq!(refuse(&["-h"]), USAGE);
    assert_eq!(refuse(&["--seconds", "x"]), "\"x\" is not a number");
    assert_eq!(refuse(&["--port", "65536"]), "\"65536\" is not a number");
    assert_eq!(refuse(&["--eps", "fast"]), "\"fast\" is not a number");
    assert_eq!(refuse(&["--query-eps", "fast"]), "\"fast\" is not a number");
    assert_eq!(refuse(&["--server-env", "A"]), "--server-env wants K=V, got \"A\"");
    assert_eq!(
        refuse(&["--scenario", " Traces"]),
        "--scenario must be logs or metrics, got \"traces\""
    );
    assert!(refuse(&["--budget", "2G", "--limit", "1G"]).starts_with("--limit below --budget"));
    assert!(refuse(&["--budget", "2G", "--query-eps", "0"]).starts_with("--query-eps must be > 0"));
    assert!(parse(&["--budget", "2G", "--query-eps", "NaN"]).is_ok());
    assert!(USAGE.starts_with("usage: memory_gate --budget <size> [options]\n\n  --budget"));
}

#[test]
fn sizes_carry_their_units() {
    for (text, bytes) in [
        ("1", 1),
        ("7b", 7),
        ("3k", 3 << 10),
        ("3KiB", 3 << 10),
        ("2 mb", 2 << 20),
        ("3584MiB", 3584 << 20),
        (" 8G ", 8 << 30),
    ] {
        assert_eq!(parse_size(text).unwrap(), (bytes, text.trim().to_string()), "{text}");
    }
    assert_eq!(parse_size("5x").err().unwrap(), "unknown size unit \"x\" in \"5x\"");
    assert_eq!(parse_size("+5").err().unwrap(), "unknown size unit \"+5\" in \"+5\"");
    assert_eq!(parse_size("G").err().unwrap(), "\"G\" is not a size");
    assert_eq!(parse_size("").err().unwrap(), "\"\" is not a size");
    assert!(is_writable_size("17179869183G"));
    assert!(!is_writable_size("17179869184G"));
    assert!(is_writable_size("18446744073709551615"));
    assert!(is_writable_size("no size"));
    assert_eq!(parse_size("0G").err().unwrap(), "\"0G\" is not a usable size");
    assert_eq!(parse_number(" 12 ", 100).unwrap(), 12);
    assert!(parse_number("101", 100).is_err());
    assert_eq!(metric_phase_seconds(240), (48, 120, 72));
    assert_eq!(metric_phase_seconds(10), (30, 60, 30));
    assert_eq!(Scenario::Logs.phase(), "load");
    assert_eq!(Scenario::Metrics.phase(), "metric-load");
    assert_eq!(Scenario::Metrics.name(), "metrics");
}

// -------------------------------------------------------------------- readings
fn sample(at_ns: u64, anon: u64, oom_kill: u64) -> Sample {
    Sample {
        at_ns,
        shown_at: format!("{:.2}", at_ns as f64 / 1e9),
        anon,
        file: 1,
        current: 2,
        memory_peak: 3,
        oom_kill,
    }
}

#[test]
fn a_sample_needs_the_anonymous_memory() {
    let read = read_sample(
        5,
        "0.00".to_string(),
        "anon_thp 9\nanon x\nanon 40\nfile 7\n",
        Some("12\n"),
        None,
        Some("low 0\noom_kill 2\n"),
    )
    .unwrap();
    assert_eq!((read.anon, read.file, read.current), (40, 7, 12));
    assert_eq!((read.memory_peak, read.oom_kill), (0, 2));
    assert!(read_sample(5, String::new(), "file 7", None, None, None).is_none());
    let least = read_sample(5, String::new(), "anon 1", Some("max"), None, None).unwrap();
    assert_eq!((least.file, least.current, least.oom_kill), (0, 0, 0));
}

#[test]
fn the_peak_belongs_to_a_phase() {
    let samples = vec![sample(1, 10, 0), sample(2, 30, 1), sample(3, 30, 0), sample(4, 20, 0)];
    assert_eq!(peak(&samples), Some(2));
    assert_eq!(peak(&[]), None);
    assert_eq!(phase_peak(&samples, 1, false), Some(10));
    assert_eq!(phase_peak(&samples, 1, true), Some(30));
    assert_eq!(phase_peak(&samples, 4, true), None);
    assert_eq!(oom_kills(&samples), 1);
    assert_eq!(
        write_series(&samples[..1]),
        "t,anon,file,current,memory_peak,oom_kill\n0.00,10,1,2,3,0\n"
    );
}

#[test]
fn a_limit_that_did_not_apply_is_refused() {
    let limits = |max, swap| verify_limits(max, "/c/max", swap, "/c/swap", 100);
    assert!(limits(Some("100"), Some("0")).is_ok());
    assert_eq!(limits(None, Some("0")).err().unwrap(), "cannot read /c/max");
    assert_eq!(
        limits(Some("max"), Some("0")).err().unwrap(),
        "/c/max reads max, not the 100 bytes this run asked for"
    );
    assert_eq!(limits(Some("100"), None).err().unwrap(), "cannot read /c/swap");
    assert_eq!(
        limits(Some("100"), Some("max")).err().unwrap(),
        "/c/swap reads max: with swap available the anonymous peak is a statement about the host's swap policy"
    );
    assert!(check_controllers("cpu memory io\n").is_ok());
    assert_eq!(
        check_controllers(" cpu memory2\n").err().unwrap(),
        "the cgroup v2 root does not delegate the memory controller: cpu memory2"
    );
}

#[test]
fn the_tail_of_a_log_has_no_colours() {
    assert_eq!(strip_ansi("\u{1b}[31mred\u{1b}[0m end"), "red end");
    assert_eq!(strip_ansi("cut \u{1b}[3"), "cut ");
    assert_eq!(log_tail("a\n\n \nb\n\u{1b}[1mc\n", 2), vec!["b", "c"]);
    assert_eq!(log_tail("a", 4), vec!["a"]);
    assert_eq!(http_status("HTTP/1.1 200 OK\r\n").unwrap(), 200);
    assert_eq!(http_status("HTTP").err().unwrap(), "unparsable status line \"HTTP\"");
    assert!(http_status("HTTP/1.1 70000 X").is_err());
}

// -------------------------------------------------------------------- decision
fn findings() -> Findings {
    Findings {
        oom_kills: 0,
        scope_result: Some("success".to_string()),
        alive: true,
        exit_code: None,
        exit_shown: None,
        reported: true,
        report_path: "/o/load.json".to_string(),
        harness_exit_shown: "Some(0)".to_string(),
        delivery: Delivery::Events(90),
        delivered_shown: "90".to_string(),
        percent_shown: "90.0".to_string(),
        events: 100,
        anon_peak: 50,
        budget_bytes: 50,
    }
}

#[test]
fn only_a_measured_run_within_its_budget_passes() {
    assert!(decide(&findings()).ok() == Some(Outcome::UnderBudget));
    assert!(decide(&Findings { anon_peak: 51, ..findings() }).ok() == Some(Outcome::OverBudget));
    assert!(
        decide(&Findings { oom_kills: 1, reported: false, ..findings() }).ok()
            == Some(Outcome::OomKilled)
    );
    let scope_result = Some("oom-kill".to_string());
    assert!(decide(&Findings { scope_result, ..findings() }).ok() == Some(Outcome::OomKilled));
    let dead = Findings { alive: false, exit_code: Some(137), ..findings() };
    assert!(decide(&dead).ok() == Some(Outcome::OomKilled));
    let alive = Findings { exit_code: Some(137), ..findings() };
    assert!(decide(&alive).ok() == Some(Outcome::UnderBudget));

    let crashed = Findings {
        alive: false,
        exit_code: Some(1),
        exit_shown: Some("exit status: 1".to_string()),
        ..findings()
    };
    let reason = decide(&crashed).err().unwrap();
    assert!(reason.starts_with("the server exited (exit status: 1) with no cgroup OOM"), "{reason}");
    let unknown = decide(&Findings { alive: false, ..findings() }).err().unwrap();
    assert!(unknown.starts_with("the server exited (unknown)"), "{unknown}");
    assert_eq!(
        decide(&Findings { reported: false, ..findings() }).err().unwrap(),
        "the harness produced no result at /o/load.json (exit Some(0)), so the offered workload is unknown"
    );
    let short = Findings { delivery: Delivery::Events(89), ..findings() };
    assert_eq!(
        decide(&short).err().unwrap(),
        "the engine accepted 90 of 100 offered events (90.0 %), so the budget was never exercised at the offered rate"
    );
    assert!(decide(&Findings { delivery: Delivery::Steady(false), ..findings() }).is_err());
    assert!(decide(&Findings { delivery: Delivery::Steady(true), ..findings() }).is_ok());
    let none_offered = Findings { delivery: Delivery::Events(0), events: 0, ..findings() };
    assert!(decide(&none_offered).is_err());
}

#[test]
fn four_outcomes_have_four_exit_codes() {
    let all =
        [Outcome::UnderBudget, Outcome::OverBudget, Outcome::OomKilled, Outcome::NotMeasured];
    let codes: Vec<i32> = all.iter().map(|outcome| outcome.exit_code()).collect();
    assert_eq!(codes, vec![0, 2, 3, 4]);
    let verdicts: Vec<&str> = all.iter().map(|outcome| outcome.verdict()).collect();
    assert_eq!(verdicts, vec!["UNDER_BUDGET", "OVER_BUDGET", "OOM_KILLED", "NOT_MEASURED"]);
    assert_eq!(watch_step(true, Some(9000), true), WatchStep::Finish);
    assert_eq!(watch_step(false, Some(3001), true), WatchStep::StopLoad);
    assert_eq!(watch_step(false, Some(3000), true), WatchStep::GiveUp);
    assert_eq!(watch_step(false, None, false), WatchStep::Wait);
    assert_eq!(deadline_seconds(240), 420);
    assert_eq!(deadline_passed(240), "the run passed its 420 s deadline without finishing");
}
