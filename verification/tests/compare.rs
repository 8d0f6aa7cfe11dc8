use loggytracy::compare::agreement::{
    agreement_sums, compute_agreement, gated_ratio, lines_read, rows_returned, verdict_line, Basis,
    PAIRS, SHAPES, TARGETS,
};
use loggytracy::compare::notes::{
    count_one_more, is_write_ahead_log, join_labels, label_groups, mismatch_row, only_in,
    reduced_note, strict_mismatches,
};
use loggytracy::compare::records::{indexed_answers, AnswerRecord};
use loggytracy::compare::remarks::{
    dropped_labels_note, ordering_note, sum_over_shapes, wal_sizes, SystemAnswers,
};
use loggytracy::compare::sections::{caveats, ended_note, mismatches_note};
use loggytracy::json::{parse_json, Json};

fn json(text: &str) -> Json {
    parse_json(text.as_bytes()).ok().unwrap()
}

fn answers(list: &[&str]) -> Vec<AnswerRecord> {
    indexed_answers(&report(list), &[])
}

fn report(list: &[&str]) -> Json {
    json(&format!("{{\"matrix\":{{\"answers\":[{}]}}}}", list.join(",")))
}

#[test]
fn answers_are_indexed_by_id_and_the_last_one_counts() {
    let records = answers(&[
        r#"{"id":"b","shape":"rate","digest":"1","rows":3,"label_keys":["x",4,"y"],"ordered":false}"#,
        r#"{"shape":"rate"}"#,
        r#"{"id":"a","digest":null}"#,
        r#"{"id":"b","shape":"line_filter","digest":"2","rows":-1,"lines_processed":9}"#,
    ]);
    let ids: Vec<&str> = records.iter().map(|record| record.id.as_str()).collect();
    assert_eq!(ids, vec!["a", "b"]);
    assert_eq!(records[0].digest.shown, "null");
    assert_eq!(records[0].shape, None);
    assert_eq!(records[1].digest.shown, "\"2\"");
    assert_eq!(records[1].digest_text.as_deref(), Some("2"));
    assert_eq!((records[1].rows, records[1].lines_processed), (None, Some(9)));
    assert!(records[1].label_keys.is_empty());
    assert_eq!(records[1].reduced_digest.shown, "null");
    assert!(indexed_answers(&json("{}"), &[]).is_empty());
    let first = answers(&[r#"{"id":"b","label_keys":["x",4,"y"],"ordered":false}"#]);
    assert_eq!(first[0].label_keys, vec!["x", "y"]);
    assert_eq!(first[0].ordered, Some(false));
}

#[test]
fn rows_are_shown_whatever_they_are() {
    let forms = [
        ("-1".to_string(), "-1".to_string()),
        ("2.5".to_string(), "2.50".to_string()),
        ("1000000000000001".to_string(), "1000000000000001".to_string()),
        ("9007199254740993".to_string(), "9007199254740992".to_string()),
        ("7".to_string(), "never asked for".to_string()),
    ];
    let shown = |rows: &str| {
        let answer = format!("{{\"id\":\"q\"{rows}}}");
        let record = indexed_answers(&report(&[&answer]), &forms).remove(0);
        (record.rows, record.rows_shown)
    };
    let text = |text: &str| text.to_string();
    assert_eq!(shown(""), (None, text("null")));
    assert_eq!(shown(",\"rows\":null"), (None, text("null")));
    assert_eq!(shown(",\"rows\":7"), (Some(7), text("7")));
    assert_eq!(shown(",\"rows\":999999999999999"), (Some(999_999_999_999_999), text("999999999999999")));
    assert_eq!(shown(",\"rows\":9007199254740993").1, "9007199254740992");
    assert_eq!(shown(",\"rows\":1000000000000001").1, "1000000000000001");
    assert_eq!(shown(",\"rows\":-1"), (None, text("-1")));
    assert_eq!(shown(",\"rows\":2.5"), (None, text("2.50")));
    assert_eq!(shown(",\"rows\":true"), (None, text("true")));
    assert_eq!(shown(",\"rows\":\"many\""), (None, text("many")));
    assert_eq!(shown(",\"rows\":[1, 2]"), (None, text("[1,2]")));
}

#[test]
fn digests_are_compared_as_values() {
    let same = |one: &str, other: &str| {
        let record = |digest: &str| {
            let answer = format!("{{\"id\":\"q\",\"shape\":\"rate\",\"digest\":{digest}}}");
            answers(&[&answer])
        };
        let agreement = compute_agreement(PAIRS[0], &record(one), &record(other));
        agreement_sums(&agreement) == (1, 1)
    };
    assert!(same("0.0", "-0.0"));
    assert!(same("[1, {\"a\": -0.0}]", "[1, {\"a\": 0.0}]"));
    assert!(same("{\"a\": 1, \"b\": \"x\"}", "{\"b\": \"x\", \"a\": 1}"));
    assert!(same("true", "true"));
    assert!(!same("0.0", "0"));
    assert!(!same("\"0.0\"", "\"-0.0\""));
    assert!(!same("[1]", "[1, 1]"));
    assert!(!same("{\"a\": 1}", "{\"b\": 1}"));
    assert!(!same("null", "null"));
}

#[test]
fn a_ratio_is_shown_only_over_answers_that_agree() {
    let left = answers(&[
        r#"{"id":"1","shape":"rate","digest":"a","reduced_digest":"r"}"#,
        r#"{"id":"2","shape":"rate","digest":"b","reduced_digest":"r"}"#,
        r#"{"id":"3","shape":"label_only","digest":"c"}"#,
        r#"{"id":"4","shape":"unknown","digest":"c"}"#,
        r#"{"id":"5","shape":"rate","digest":"c"}"#,
    ]);
    let right = answers(&[
        r#"{"id":"1","shape":"rate","digest":"a","reduced_digest":"r"}"#,
        r#"{"id":"2","shape":"rate","digest":"x","reduced_digest":"r"}"#,
        r#"{"id":"3","shape":"label_only","digest":"c"}"#,
        r#"{"id":"4","shape":"unknown","digest":"c"}"#,
    ]);
    let strict = compute_agreement(PAIRS[0], &left, &right);
    assert!(strict.basis == Basis::Strict);
    assert_eq!((TARGETS[strict.left], TARGETS[strict.right]), ("loggytracy", "loki"));
    let rate = SHAPES.iter().position(|shape| *shape == "rate").unwrap();
    assert_eq!(strict.per_shape[rate], (1, 2));
    assert_eq!(strict.per_shape[0], (1, 1));
    assert_eq!(agreement_sums(&strict), (2, 3));
    assert_eq!(gated_ratio(&strict, 0, "0.50x"), "0.50x");
    assert_eq!(gated_ratio(&strict, rate, "0.50x"), "withheld (1/2 disagree)");
    assert_eq!(gated_ratio(&strict, 1, "0.50x"), "withheld (0/0 disagree)");
    let reduced = compute_agreement(PAIRS[1], &left, &right);
    assert_eq!(reduced.per_shape[rate], (2, 2));
    assert_eq!(reduced.per_shape[0], (0, 1), "a missing digest agrees with nothing");
    assert_eq!(Basis::Reduced.field(), "reduced_digest");
    assert_eq!(Basis::Strict.field(), "digest");
}

#[test]
fn what_a_shape_read_and_returned_is_summed() {
    let report = report(&[
        r#"{"id":"1","shape":"rate","rows":2,"lines_processed":5}"#,
        r#"{"id":"1","shape":"rate","rows":3,"lines_processed":6}"#,
        r#"{"id":"2","shape":"label_only","rows":9}"#,
    ]);
    assert_eq!(lines_read(&report, "rate"), "11");
    assert_eq!(rows_returned(&report, "rate"), "5");
    assert_eq!(lines_read(&report, "label_only"), "not reported");
    assert_eq!(rows_returned(&report, "trace_window"), "0");
    assert_eq!(rows_returned(&json("[]"), "rate"), "0");
}

#[test]
fn disagreements_are_listed_and_grouped_by_their_labels() {
    let left = answers(&[
        r#"{"id":"q1","digest":"a","rows":3,"label_keys":["x","y"]}"#,
        r#"{"id":"q2","digest":"a","rows":3,"label_keys":["x","y"]}"#,
        r#"{"id":"q3","digest":"a","rows":1,"label_keys":["b"]}"#,
        r#"{"id":"q4","digest":"same"}"#,
    ]);
    let right = answers(&[
        r#"{"id":"q1","digest":"b","rows":2,"label_keys":["y","z"]}"#,
        r#"{"id":"q2","rows":2,"label_keys":["y","z"]}"#,
        r#"{"id":"q3","digest":"b","rows":1,"label_keys":["b"]}"#,
        r#"{"id":"q4","digest":"same"}"#,
    ]);
    let list = strict_mismatches(&left, &right);
    assert_eq!(list.len(), 3);
    assert_eq!(count_one_more(&list), 2);
    let uncounted = strict_mismatches(
        &answers(&[r#"{"id":"q","digest":"a"}"#]),
        &answers(&[r#"{"id":"q","digest":"b"}"#]),
    );
    assert_eq!((uncounted.len(), count_one_more(&uncounted)), (1, 0));
    assert_eq!(mismatch_row(&list[0]), "| `q1` | 3 | 2 | `a` | `b` | 1 / 1 |");
    assert_eq!(mismatch_row(&list[1]), "| `q2` | 3 | 2 | `a` | `null` | 1 / 1 |");
    assert_eq!(mismatch_row(&list[2]), "| `q3` | 1 | 1 | `a` | `b` | no |");
    let groups = label_groups(&list);
    assert_eq!(groups.len(), 1);
    assert_eq!(groups[0].ids, vec!["q1", "q2"]);
    assert_eq!((groups[0].only_left[0].as_str(), groups[0].only_right[0].as_str()), ("x", "z"));
    let note = mismatches_note(&list);
    assert!(note.starts_with("\n**3 queries disagreed.** This is"), "{note}");
    assert!(note.contains("| `q3` | 1 | 1 | `a` | `b` | no |\n\nIn 2 of the 3 disagreements"));
    assert!(note.ends_with(
        "* **2 queries** \u{2014} `q1`, `q2`:\n    * only loggytracy: `x`\n    * only Loki: `z`\n\n"
    ));
    assert_eq!(
        mismatches_note(&[]),
        "\nNo strict-basis mismatches between loggytracy and Loki.\n"
    );
    let names = |list: &[&str]| list.iter().map(|name| name.to_string()).collect::<Vec<_>>();
    assert_eq!(only_in(&names(&["a", "b", "a"]), &names(&["b"])), vec!["a", "a"]);
    assert_eq!(join_labels(&names(&["a", "b"])), "`a`, `b`");
    assert_eq!(join_labels(&vec![]), "none");
}

#[test]
fn groups_come_in_the_order_of_their_labels() {
    let mut left = Vec::new();
    let mut right = Vec::new();
    for (id, keys) in [("1", "[\"m\"]"), ("2", "[\"a\",\"z\"]"), ("3", "[\"a\"]"), ("4", "[\"m\"]")] {
        left.push(format!("{{\"id\":\"{id}\",\"digest\":\"l\",\"label_keys\":{keys}}}"));
        right.push(format!("{{\"id\":\"{id}\",\"digest\":\"r\"}}"));
    }
    let left: Vec<&str> = left.iter().map(String::as_str).collect();
    let right: Vec<&str> = right.iter().map(String::as_str).collect();
    let groups = label_groups(&strict_mismatches(&answers(&left), &answers(&right)));
    let keys: Vec<Vec<String>> = groups.iter().map(|group| group.only_left.clone()).collect();
    assert_eq!(keys, vec![vec!["a"], vec!["a", "z"], vec!["m"]]);
    assert_eq!(groups[2].ids, vec!["1", "4"]);
}

#[test]
fn a_reduced_disagreement_is_named() {
    let left = answers(&[r#"{"id":"q","rows":3,"reduced_digest":"a"}"#]);
    let right = answers(&[r#"{"id":"q","rows":4,"reduced_digest":"b"}"#]);
    assert_eq!(
        reduced_note("loki", "victorialogs", &left, &right).unwrap(),
        "\n**loki against victorialogs disagreed on 1 query** (reduced basis): `q` (3 against 4 rows)\n"
    );
    assert!(reduced_note("loki", "victorialogs", &left, &left).is_none());
    let many: Vec<String> = (0..12).map(|i| format!("{{\"id\":\"{i:02}\"}}")).collect();
    let many: Vec<&str> = many.iter().map(String::as_str).collect();
    let note = reduced_note("a", "b", &answers(&many), &answers(&many)).unwrap();
    assert!(note.contains("disagreed on 12 queries** (reduced basis): `00` (null against null rows)"));
    assert!(note.ends_with("`09` (null against null rows), and 2 more\n"));
}

#[test]
fn what_was_left_out_and_what_came_in_disorder_is_said() {
    let system = |name: &str, list: &[&str]| SystemAnswers {
        name: name.to_string(),
        answers: answers(list),
    };
    let quiet = system("Loki", &[r#"{"id":"1","ordered":true}"#]);
    let loud = system(
        "loggytracy",
        &[
            r#"{"id":"1","ordered":false,"dropped_label_keys":["b","a"]}"#,
            r#"{"id":"2","ordered":false,"dropped_label_keys":["b"]}"#,
        ],
    );
    let all = [loud, quiet];
    assert_eq!(
        dropped_labels_note(&all),
        "\nThe declared exemption, as it applied to this run:\n\n* **loggytracy** returned `a` on 1 answers, `b` on 2 answers, dropped from the digest by declaration.\n"
    );
    assert!(dropped_labels_note(&all[1..]).contains("Neither side returned"));
    let note = ordering_note(&all);
    assert!(note.contains("* **loggytracy** answered 2 queries outside the order"), "{note}");
    assert!(note.ends_with("starting with `1`.\n"));
    assert!(ordering_note(&all[1..]).starts_with("\nEvery answer on both sides came back"));
}

#[test]
fn a_volume_is_read_for_its_write_ahead_logs() {
    assert!(is_write_ahead_log("/data/wal"));
    assert!(is_write_ahead_log("journal.wal"));
    assert!(!is_write_ahead_log("/wal/chunks"));
    assert!(!is_write_ahead_log("/data/wal/"));
    assert_eq!(
        wal_sizes("/d/wal:12,/d/parts:900,journal.ckpt:8,broken,C:/wal.1:3"),
        vec!["12", "8", "3"]
    );
    assert!(wal_sizes("").is_empty());
}

#[test]
fn what_went_wrong_becomes_a_caveat() {
    let report = json(
        r#"{"matrix":{"shapes":{"rate":{"errors":2,"warm_answers_differed":1},"label_only":{"errors":1}}}}"#,
    );
    assert_eq!(sum_over_shapes(&report, "errors"), 3);
    let notes = caveats(&report, "loki");
    assert_eq!(notes.len(), 2);
    assert!(notes[0].starts_with("**3 queries errored on loki** and are excluded"));
    assert!(notes[1].starts_with("**1 queries on loki returned a different answer"));
    assert!(caveats(&json("{}"), "loki").is_empty());
    let ends = |list: &[(&str, &str)]| {
        list.iter().map(|(a, b)| (a.to_string(), b.to_string())).collect::<Vec<_>>()
    };
    assert!(ended_note(&ends(&[("a", "event_target"), ("b", "event_target")])).is_none());
    let note = ended_note(&ends(&[("a", "event_target"), ("b", "duration_cap")])).unwrap();
    assert!(note.contains("\u{2014} a on `event_target`, b on `duration_cap`. They therefore"));
    assert!(verdict_line(Some(true), Some(true)).starts_with("**holds**"));
    assert_eq!(
        verdict_line(Some(true), Some(false)),
        "**does not hold** \u{2014} survives Loki's side, fails the VictoriaLogs side"
    );
    assert!(verdict_line(None, Some(true)).starts_with("**could not be decided**"));
}
