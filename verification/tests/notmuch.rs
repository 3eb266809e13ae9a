use email_classifier::labels::Priority;
use email_classifier::notmuch::{
    confirmed_label_files, confirmed_label_files_dated, count, count_args, count_failure_note,
    counts_for_from, labeled_files, new_mail_files, run_output, search_files, Lookup, Notmuch,
    RunEnd, CONFIRMED_FILTER,
};

#[test]
fn confirmed_filter_excludes_unreviewed_guesses() {
    // The filter must exclude exactly `auto and unread` and nothing else.
    assert_eq!(CONFIRMED_FILTER, "not (tag:auto and tag:unread)");
}

#[test]
fn count_query_carries_tag_filter_and_sender() {
    // Every count is confirmed-filtered and sender-scoped.
    let p = Priority::P3;
    let queries = Notmuch::new().count_queries("alice@example.com");
    let query = &queries[p.to_index()];
    assert_eq!(
        *query,
        format!("tag:{} and {CONFIRMED_FILTER} and from:{}", p.to_tag(), "alice@example.com")
    );
    assert_eq!(
        query,
        "tag:prio-high and not (tag:auto and tag:unread) and from:alice@example.com"
    );
}

#[test]
fn caches_are_independent_and_memoize() {
    // The cache short-circuits: a seeded value is read back without a query.
    let mut nm = Notmuch::new();
    nm.domain_counts.insert("example.com".to_string(), [1, 2, 3]);
    nm.addr_counts.insert("a@example.com".to_string(), [4, 5, 6]);
    assert_eq!(nm.domain_counts("example.com"), Lookup::Known([1, 2, 3]));
    assert_eq!(nm.addr_counts("a@example.com"), Lookup::Known([4, 5, 6]));
}

#[test]
fn an_unknown_sender_is_asked_for_once() {
    let mut nm = Notmuch::new();
    let queries = match nm.domain_counts("example.com") {
        Lookup::Ask(queries) => queries,
        Lookup::Known(c) => panic!("known: {c:?}"),
    };
    assert_eq!(
        queries,
        ["low", "normal", "high"].map(|t| format!(
            "tag:prio-{t} and not (tag:auto and tag:unread) and from:*@example.com"
        ))
    );
    let outputs = [Ok("3\n".to_string()), Err("no database".to_string()), Ok("x".to_string())];
    assert_eq!(nm.record_domain_counts("example.com", &outputs), [3, 0, 0]);
    assert_eq!(nm.domain_counts("example.com"), Lookup::Known([3, 0, 0]));
    // The caches are independent.
    assert!(matches!(nm.addr_counts("example.com"), Lookup::Ask(_)));
    let outputs = [Ok("1".to_string()), Ok(" 2 ".to_string()), Ok("4294967295\n".to_string())];
    assert_eq!(nm.record_addr_counts("example.com", &outputs), [1, 2, u32::MAX]);
    assert_eq!(nm.addr_counts("example.com"), Lookup::Known([1, 2, u32::MAX]));
    assert_eq!(nm.domain_counts("example.com"), Lookup::Known([3, 0, 0]));
}

#[test]
fn counts_can_be_bounded_by_date() {
    let nm = Notmuch::with_date_bound("..2026-07-01");
    assert_eq!(
        nm.count_queries("a@b.org")[0],
        "tag:prio-low and not (tag:auto and tag:unread) and from:a@b.org and date:..2026-07-01"
    );
}

#[test]
fn counts_are_read_from_the_output() {
    assert_eq!(count(&Ok(" 17\n".to_string())), Ok(17));
    assert_eq!(
        count(&Ok("many\n".to_string())),
        Err("unparsable count \"many\\n\": invalid digit found in string".to_string())
    );
    assert_eq!(count(&Err("gone".to_string())), Err("gone".to_string()));
    assert_eq!(counts_for_from(&[Ok("1".into()), Ok("".into()), Err("e".into())]), [1, 0, 0]);
    assert_eq!(count_args("tag:x"), ["count", "tag:x"]);
    assert_eq!(
        count_failure_note("tag:\"x\"", "gone"),
        "notmuch count failed for \"tag:\\\"x\\\"\", treating as no history: gone"
    );
}

#[test]
fn selections_ask_for_one_file_per_message() {
    assert_eq!(
        confirmed_label_files(),
        [
            "search",
            "--output=files",
            "--duplicate=1",
            "(tag:prio-low or tag:prio-normal or tag:prio-high) and not (tag:auto and tag:unread)"
        ]
    );
    assert_eq!(
        confirmed_label_files_dated(Priority::P2, Some("..2026-07-01")),
        [
            "search",
            "--output=files",
            "--duplicate=1",
            "tag:prio-normal and not (tag:auto and tag:unread) and date:..2026-07-01"
        ]
    );
    assert_eq!(
        confirmed_label_files_dated(Priority::P3, None)[3],
        "tag:prio-high and not (tag:auto and tag:unread)"
    );
    assert_eq!(new_mail_files("2026-07-01"), ["search", "--output=files", "date:2026-07-01.."]);
}

#[test]
fn searches_answer_one_path_per_line() {
    assert_eq!(
        search_files(&Ok("/mail/a b\n\n/mail/c\r\n".to_string())),
        Ok(vec!["/mail/a b".to_string(), "/mail/c".to_string()])
    );
    assert_eq!(search_files(&Ok(String::new())), Ok(vec![]));
    assert_eq!(search_files(&Err("gone".to_string())), Err("gone".to_string()));
}

#[test]
fn searches_by_priority_label_the_files() {
    let files = labeled_files(&[Ok("/a\n/b\n".into()), Ok("".into()), Ok("/c\n".into())]).unwrap();
    let files: Vec<(&str, Priority)> = files.iter().map(|f| (f.path.as_str(), f.label)).collect();
    assert_eq!(files, [("/a", Priority::P1), ("/b", Priority::P1), ("/c", Priority::P3)]);
    let failed = labeled_files(&[Ok("/a".into()), Err("first".into()), Err("second".into())]);
    assert_eq!(failed.err().as_deref(), Some("first"));
}

#[test]
fn a_failed_run_is_diagnosable() {
    let args = ["count".to_string(), "from:\"a\"".to_string()];
    let shown = format!("{args:?}");
    assert_eq!(run_output(&args, RunEnd::Output("5\n".to_string())), Ok("5\n".to_string()));
    assert_eq!(
        run_output(&args, RunEnd::NotStarted("not found".to_string())),
        Err(format!("spawning notmuch {shown}: not found"))
    );
    let failed = RunEnd::Failed {
        status: "exit status: 1".to_string(),
        stderr: " bad query\n".to_string(),
    };
    assert_eq!(
        run_output(&args, failed),
        Err(format!("notmuch {shown} exited exit status: 1: bad query"))
    );
    assert_eq!(
        run_output(&args, RunEnd::NotText("invalid byte".to_string())),
        Err(format!("notmuch {shown} produced non-utf8 output: invalid byte"))
    );
    assert_eq!(
        run_output(&[], RunEnd::NotStarted("e".to_string())),
        Err("spawning notmuch []: e".to_string())
    );
}
