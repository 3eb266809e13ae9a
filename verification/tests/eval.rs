use email_classifier::email::RawEmail;
use email_classifier::eval::{cache_summary, evaluate, log_split, Action, Evaluation, Stage, Step};
use email_classifier::history::{total, ZERO};
use email_classifier::labels::Priority;
use email_classifier::notmuch::{confirmed_label_files_dated, LabeledFile};
use email_classifier::report::{report, Confusion};

const P1: Priority = Priority::P1;
const P2: Priority = Priority::P2;
const P3: Priority = Priority::P3;

fn files(labels: &[Priority]) -> Vec<LabeledFile> {
    labels
        .iter()
        .enumerate()
        .map(|(i, label)| LabeledFile { path: format!("/m/{i}"), label: *label })
        .collect()
}

fn email(subject: &str) -> Result<RawEmail, String> {
    Ok(RawEmail {
        from: "a@example.com".to_string(),
        subject: subject.to_string(),
        body: "body".to_string(),
        ts: 0,
    })
}

/// What a step asks for: its action as text, behind its notes.
fn shown(step: Step) -> String {
    let action = match step.action {
        Action::OpenCache(s) => format!("open {s}"),
        Action::List(s) => format!("list {s}"),
        Action::Parse(s) => format!("parse {s}"),
        Action::Featurize(s) => format!("featurize {s:?}"),
        Action::Classify(s) => format!("classify {s:?}"),
        Action::Fit => "fit".to_string(),
        Action::Report => "report".to_string(),
        Action::Fail(s) => format!("fail {s}"),
    };
    let mut all = step.notes;
    all.push(action);
    all.join(" | ")
}

/// An evaluation that is about to list its training labels.
fn listing() -> Evaluation<u32> {
    let mut e = evaluate("2026-07-01");
    e.embedder_loaded(Ok("all-MiniLM-L6-v2".to_string()));
    e.cache_opened();
    e
}

#[test]
fn an_evaluation_runs_from_loading_to_the_report() {
    let mut e: Evaluation<u32> = evaluate("2026-07-01");
    assert_eq!(
        shown(e.embedder_loaded(Ok("org/model".to_string()))),
        "open embeddings-org%2Fmodel.redb"
    );
    assert_eq!(shown(e.cache_opened()), "list ..2026-07-01");
    assert_eq!(
        e.history().count_queries("x")[2],
        "tag:prio-high and not (tag:auto and tag:unread) and from:x and date:..2026-07-01"
    );

    assert_eq!(
        shown(e.listed(Ok(files(&[P1, P3, P3])))),
        "train: 3 total  (1 prio-low, 0 prio-normal, 2 prio-high) | parse /m/0"
    );
    assert_eq!(shown(e.parsed(&email("one"))), "featurize \"one\\nbody\"");
    assert_eq!(shown(e.featured(Ok(vec![7]))), "parse /m/1");
    assert_eq!(
        shown(e.parsed(&Err("unparsable message".to_string()))),
        "skipping /m/1: parse failed: unparsable message | parse /m/2"
    );
    assert_eq!(shown(e.parsed(&email("two"))), "featurize \"two\\nbody\"");
    assert_eq!(
        shown(e.featured(Ok(vec![8]))),
        "fitting on 2 pre-cutoff example(s)\u{2026} | fit"
    );
    assert_eq!(e.examples[0].features, [7]);
    assert_eq!(e.examples[0].label, P1);
    assert_eq!(e.examples[1].features, [8]);
    assert_eq!(e.examples[1].label, P3);

    assert_eq!(shown(e.fitted(Ok(()))), "list 2026-07-01..");
    assert_eq!(
        shown(e.listed(Ok(files(&[P2, P1, P3])))),
        "test: 3 total  (1 prio-low, 1 prio-normal, 1 prio-high) | parse /m/0"
    );
    assert_eq!(shown(e.parsed(&email("three"))), "classify \"three\\nbody\"");
    assert_eq!(shown(e.classified(Ok(P3))), "parse /m/1");
    assert_eq!(
        shown(e.parsed(&Err("e".to_string()))),
        "skipping /m/1: parse failed: e | parse /m/2"
    );
    e.parsed(&email("four"));
    assert_eq!(shown(e.classified(Ok(P3))), "report");
    assert_eq!(e.stage, Stage::Done);
    assert_eq!(e.scored, 2);
    assert_eq!(e.confusion.cells, [[0, 0, 0], [0, 0, 1], [0, 0, 1]]);
    assert_eq!(e.examples.len(), 2);
}

#[test]
fn training_tells_how_far_it_is() {
    let mut e = listing();
    e.listed(Ok(files(&[Priority::P2; 201])));
    for i in 1..=200 {
        e.parsed(&email("x"));
        let step = e.featured(Ok(vec![]));
        if i % 100 == 0 {
            assert_eq!(step.notes, [format!("  embedded {i}/201\u{2026}")]);
        } else {
            assert!(step.notes.is_empty());
        }
    }
    // A note on a skipped message comes before the one on the progress.
    e.parsed(&email("x"));
    assert_eq!(e.featured(Ok(vec![])).notes, ["fitting on 201 pre-cutoff example(s)\u{2026}"]);
}

#[test]
fn whatever_is_missing_aborts_with_its_reason() {
    let mut e: Evaluation<u32> = evaluate("d");
    assert_eq!(shown(e.embedder_loaded(Err("offline".into()))), "fail loading embedder: offline");
    assert_eq!(e.stage, Stage::Failed);

    let mut e = listing();
    assert_eq!(shown(e.listed(Err("no notmuch".into()))), "fail no notmuch");

    let mut e = listing();
    assert_eq!(
        shown(e.listed(Ok(vec![]))),
        "train: 0 total  (0 prio-low, 0 prio-normal, 0 prio-high) | fail no pre-cutoff labels to \
         train on"
    );

    let mut e = listing();
    e.listed(Ok(files(&[Priority::P1])));
    assert_eq!(
        shown(e.parsed(&Err("bad".into()))),
        "skipping /m/0: parse failed: bad | fail no pre-cutoff labels to train on"
    );

    let mut e = listing();
    e.listed(Ok(files(&[Priority::P1, Priority::P2])));
    e.parsed(&email("x"));
    assert_eq!(shown(e.featured(Err("model failed".into()))), "fail embedding /m/0: model failed");
    assert_eq!(e.stage, Stage::Failed);

    let mut e = listing();
    e.listed(Ok(files(&[Priority::P1])));
    e.parsed(&email("x"));
    e.featured(Ok(vec![1]));
    assert_eq!(shown(e.fitted(Err("diverged".into()))), "fail diverged");

    let mut e = listing();
    e.listed(Ok(files(&[Priority::P1])));
    e.parsed(&email("x"));
    e.featured(Ok(vec![1]));
    e.fitted(Ok(()));
    assert_eq!(
        shown(e.listed(Ok(vec![]))),
        "test: 0 total  (0 prio-low, 0 prio-normal, 0 prio-high) | fail no post-cutoff labels to \
         evaluate against"
    );

    let mut e = listing();
    e.listed(Ok(files(&[Priority::P1])));
    e.parsed(&email("x"));
    e.featured(Ok(vec![1]));
    e.fitted(Ok(()));
    e.listed(Ok(files(&[Priority::P1])));
    e.parsed(&email("x"));
    assert_eq!(shown(e.classified(Err("oom".into()))), "fail embedding /m/0: oom");
}

#[test]
fn lines_of_the_log_are_exact() {
    assert_eq!(
        log_split("test", &files(&[P2, P2, P1, P3])),
        "test: 4 total  (1 prio-low, 2 prio-normal, 1 prio-high)"
    );
    assert_eq!(cache_summary(40, 2), "embeddings: 40 from cache, 2 regenerated (42 total)");
}

fn matrix(cells: [[u32; 3]; 3]) -> Confusion {
    Confusion { cells }
}

#[test]
fn metrics_are_read_off_the_matrix() {
    let m = matrix([[10, 2, 1], [3, 20, 4], [5, 6, 30]]);
    assert_eq!(m.total(), 81);
    assert_eq!(m.correct(), 60);
    assert_eq!(m.adjacent(), 15);
    assert_eq!(m.distant(), 6);
    assert_eq!(m.correct() + m.adjacent() + m.distant(), m.total());
    assert_eq!(m.recall_parts(Priority::P1), Some((10, 13)));
    assert_eq!(m.recall_parts(Priority::P2), Some((20, 27)));
    assert_eq!(m.recall_parts(Priority::P3), Some((30, 41)));
    assert_eq!(m.accuracy_parts(), Some((60, 81)));
    assert_eq!(Confusion::new().accuracy_parts(), None);
    assert_eq!(Confusion::new().recall_parts(Priority::P2), None);
}

#[test]
fn a_message_is_recorded_once() {
    let mut m = Confusion::new();
    m.record(Priority::P1, Priority::P3);
    m.record(Priority::P1, Priority::P3);
    m.record(Priority::P2, Priority::P2);
    assert_eq!(m.cells, [[0, 0, 2], [0, 1, 0], [0, 0, 0]]);
    assert_eq!(m.distant(), 2);
}

#[test]
fn the_report_shows_the_matrix_and_the_metrics() {
    let m = matrix([[10, 2, 1], [3, 20, 4], [5, 6, 1234567890]]);
    let recalls = [" 76.9".to_string(), " 74.1".to_string(), "100.0".to_string()];
    let expected = "
time-held-out evaluation, cutoff 2026-07-01  (81 test message(s))
rows = true label, cols = predicted

            prio-low    prio-norm   prio-high
prio-low            10          2          1   | recall  76.9%
prio-norm            3         20          4   | recall  74.1%
prio-high            5          6 1234567890   | recall 100.0%

overall accuracy : 74.1%  (1234567920/1234567941)
adjacent errors  : 15  (p1\u{2194}p2, p2\u{2194}p3)
distant  errors  : 6  (p1\u{2194}p3 \u{2014} the costly ones)
";
    assert_eq!(report("2026-07-01", &m, 81, &recalls, "74.1"), expected);
}

#[test]
fn counts_add_up() {
    assert_eq!(total(&[1, 20, 300]), 321);
    assert_eq!(total(&ZERO), 0);
}

#[test]
fn whatever_trains_an_evaluation_is_from_before_the_cutoff() {
    let mut e: Evaluation<u32> = evaluate("2026-07-01");
    for query in e.history().count_queries("*@example.com") {
        assert!(query.ends_with(" and date:..2026-07-01"), "{query}");
    }
    e.embedder_loaded(Ok("all-MiniLM-L6-v2".to_string()));
    let Action::List(range) = e.cache_opened().action else {
        panic!("the training labels are listed first");
    };
    for p in [P1, P2, P3] {
        let args = confirmed_label_files_dated(p, Some(&range));
        assert!(args[3].ends_with(" and date:..2026-07-01"), "{args:?}");
    }
}
