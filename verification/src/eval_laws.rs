//! What keeps an evaluation honest: nothing it trains on, and nothing it knows of a
//! sender, depends on a label from after the cutoff.

use vstd::prelude::*;

use crate::domain::domain_of;
use crate::eval::{
    after, after_testing, after_training, before, cache_note, label_count, law_training_set,
    skip_note, split_note, Action, ActionView, EvalView, Evaluation, Stage, Step,
};
use crate::labels::Priority;
use crate::notmuch::{
    confirmed_query_dated, count_query, counted_or_zero, listing, RunOutput, CONFIRMED_FILTER,
};
use crate::numbers::decimal;
use crate::report::is_square;
use crate::sender::address_of;

verus! {

/// Whether `query` ends in the clause that bounds it to the mail before `cutoff`.
pub open spec fn is_bounded(query: Seq<char>, cutoff: Seq<char>) -> bool {
    (" and date:.."@ + cutoff).is_suffix_of(query)
}

proof fn lemma_bounded(front: Seq<char>, cutoff: Seq<char>)
    ensures
        is_bounded(front + (" and date:"@ + before(cutoff)), cutoff),
{
    reveal_strlit(" and date:..");
    reveal_strlit(" and date:");
    reveal_strlit("..");
    assert(" and date:.."@ == " and date:"@ + ".."@);
    let q = front + (" and date:"@ + before(cutoff));
    let clause = " and date:.."@ + cutoff;
    assert(clause == " and date:"@ + before(cutoff));
    assert(clause == q.skip(q.len() - clause.len()));
}

/// Every history count of an evaluation is bounded to the training window, so that
/// no message sees a label from after the cutoff.
pub proof fn law_history_is_bounded(cutoff: Seq<char>, p: Priority, pattern: Seq<char>)
    ensures
        is_bounded(count_query(p, pattern, Some(before(cutoff))), cutoff),
{
    lemma_bounded(
        "tag:"@ + p.tag() + " and "@ + CONFIRMED_FILTER@ + " and from:"@ + pattern,
        cutoff,
    );
}

/// Every selection of training labels is bounded to the training window, whatever
/// the priority.
pub proof fn law_training_selection_is_bounded(cutoff: Seq<char>, p: Priority)
    ensures
        is_bounded(confirmed_query_dated(p, Some(before(cutoff))), cutoff),
{
    lemma_bounded("tag:"@ + p.tag() + " and "@ + CONFIRMED_FILTER@, cutoff);
}

/// What notmuch answers to queries: the counts and the files that it gives for
/// them.
pub struct Answers {
    pub count: spec_fn(Seq<char>) -> RunOutput,
    pub search: spec_fn(Seq<char>) -> RunOutput,
}

/// Whether two mail stores answer alike to every query that is bounded to the mail
/// before `cutoff`. So do stores that differ only in the tags of later mail.
pub open spec fn agree_before(a: Answers, b: Answers, cutoff: Seq<char>) -> bool {
    forall|q: Seq<char>| #[trigger]
        is_bounded(q, cutoff) ==> (a.count)(q) == (b.count)(q) && (a.search)(q) == (b.search)(q)
}

/// The class counts for senders that match `pattern`, bounded to the mail before
/// `cutoff`.
pub open spec fn counts_before(a: Answers, cutoff: Seq<char>, pattern: Seq<char>) -> Seq<u32> {
    seq![
        counted_or_zero((a.count)(count_query(Priority::P1, pattern, Some(before(cutoff))))),
        counted_or_zero((a.count)(count_query(Priority::P2, pattern, Some(before(cutoff))))),
        counted_or_zero((a.count)(count_query(Priority::P3, pattern, Some(before(cutoff))))),
    ]
}

/// The history of a sender: the counts for its domain and for its address, as far
/// as the From header gives them.
pub open spec fn history_before(a: Answers, cutoff: Seq<char>, from: Seq<char>) -> (
    Option<Seq<u32>>,
    Option<Seq<u32>>,
) {
    (
        match domain_of(from) {
            Some(d) => Some(counts_before(a, cutoff, "*@"@ + d)),
            None => None,
        },
        match address_of(from) {
            Some(addr) => Some(counts_before(a, cutoff, addr)),
            None => None,
        },
    )
}

/// The training labels of an evaluation at `cutoff`.
pub open spec fn training_labels(a: Answers, cutoff: Seq<char>) -> Result<
    Seq<(Seq<char>, Priority)>,
    Seq<char>,
> {
    listing(
        seq![
            (a.search)(confirmed_query_dated(Priority::P1, Some(before(cutoff)))),
            (a.search)(confirmed_query_dated(Priority::P2, Some(before(cutoff)))),
            (a.search)(confirmed_query_dated(Priority::P3, Some(before(cutoff)))),
        ],
    )
}

/// What the parts of an evaluation outside the mail store do: what a file holds,
/// which is its From header and its text, what features a text and a history make,
/// what model examples make, and how it classifies.
#[verifier::reject_recursive_types(T)]
#[verifier::reject_recursive_types(M)]
pub struct Machinery<T, M> {
    pub read: spec_fn(Seq<char>) -> Option<(Seq<char>, Seq<char>)>,
    pub features: spec_fn(Seq<char>, (Option<Seq<u32>>, Option<Seq<u32>>)) -> Seq<T>,
    pub fit: spec_fn(Seq<(Seq<T>, Priority)>) -> M,
    pub classify: spec_fn(M, Seq<T>) -> Priority,
}

/// The features of the message file at `path`, where it can be read.
pub open spec fn features_before<T, M>(
    a: Answers,
    with: Machinery<T, M>,
    cutoff: Seq<char>,
    path: Seq<char>,
) -> Option<Seq<T>> {
    match (with.read)(path) {
        Some((from, text)) => Some((with.features)(text, history_before(a, cutoff, from))),
        None => None,
    }
}

/// The evaluation `v` after it went through its training labels.
pub open spec fn trained_on<T, M>(a: Answers, with: Machinery<T, M>, v: EvalView<T>) -> EvalView<T> {
    match training_labels(a, v.cutoff) {
        Ok(files) => after_training(
            v.with_files(files).0,
            Seq::new(files.len(), |i: int| features_before(a, with, v.cutoff, files[i].0)),
        ),
        Err(e) => v.failed(Seq::empty(), e).0,
    }
}

/// The priority that an evaluation predicts for the message file at `path`, where
/// it can be read.
pub open spec fn predicted<T, M>(
    a: Answers,
    with: Machinery<T, M>,
    v: EvalView<T>,
    path: Seq<char>,
) -> Option<Priority> {
    match features_before(a, with, v.cutoff, path) {
        Some(x) => Some((with.classify)((with.fit)(trained_on(a, with, v).examples), x)),
        None => None,
    }
}

proof fn lemma_history_before(a: Answers, b: Answers, cutoff: Seq<char>, from: Seq<char>)
    requires
        agree_before(a, b, cutoff),
    ensures
        history_before(a, cutoff, from) == history_before(b, cutoff, from),
{
    assert forall|pattern: Seq<char>| #[trigger]
        counts_before(a, cutoff, pattern) == counts_before(b, cutoff, pattern) by {
        law_history_is_bounded(cutoff, Priority::P1, pattern);
        law_history_is_bounded(cutoff, Priority::P2, pattern);
        law_history_is_bounded(cutoff, Priority::P3, pattern);
    }
}

/// An evaluation is honest about time. Two mail stores that answer alike about the
/// mail before the cutoff train it on the same labels, with the same history for
/// every sender, up to the same examples; so the same model is fitted, and every
/// message is predicted to have the same priority, whatever the two stores hold of
/// later labels.
pub proof fn law_honest_history<T, M>(
    a: Answers,
    b: Answers,
    with: Machinery<T, M>,
    v: EvalView<T>,
    from: Seq<char>,
    path: Seq<char>,
)
    requires
        agree_before(a, b, v.cutoff),
        v.stage == Stage::ListingTrain,
    ensures
        training_labels(a, v.cutoff) == training_labels(b, v.cutoff),
        history_before(a, v.cutoff, from) == history_before(b, v.cutoff, from),
        trained_on(a, with, v) == trained_on(b, with, v),
        (with.fit)(trained_on(a, with, v).examples) == (with.fit)(trained_on(b, with, v).examples),
        predicted(a, with, v, path) == predicted(b, with, v, path),
{
    law_training_selection_is_bounded(v.cutoff, Priority::P1);
    law_training_selection_is_bounded(v.cutoff, Priority::P2);
    law_training_selection_is_bounded(v.cutoff, Priority::P3);
    lemma_history_before(a, b, v.cutoff, from);
    assert forall|p: Seq<char>| #[trigger]
        features_before(a, with, v.cutoff, p) == features_before(b, with, v.cutoff, p) by {
        if let Some((sender, _)) = (with.read)(p) {
            lemma_history_before(a, b, v.cutoff, sender);
        }
    }
    if let Ok(files) = training_labels(a, v.cutoff) {
        assert(Seq::new(files.len(), |i: int| features_before(a, with, v.cutoff, files[i].0))
            == Seq::new(files.len(), |i: int| features_before(b, with, v.cutoff, files[i].0)));
    }
}

/// Every file of a split is dealt with before anything else happens: while files are
/// left, the next one is parsed; a model is fitted, or the report made, only behind the
/// last one.
pub proof fn law_every_file_is_dealt_with<T>(v: EvalView<T>, notes: Seq<Seq<char>>)
    requires
        v.stage == Stage::Training || v.stage == Stage::Testing,
        v.done <= v.files.len(),
    ensures
        v.done < v.files.len() ==> v.next_file(notes).0 == v && v.next_file(notes).1.action
            == ActionView::Parse(v.files[v.done as int].0),
        v.done == v.files.len() && v.stage == Stage::Testing ==> v.next_file(notes).1.action
            == ActionView::Report && v.next_file(notes).0 == (EvalView {
            stage: Stage::Done,
            ..v
        }),
        v.done == v.files.len() && v.stage == Stage::Training && v.examples.len() > 0
            ==> v.next_file(notes).1.action == ActionView::Fit && v.next_file(notes).0 == (
        EvalView { stage: Stage::Fitting, ..v }),
        v.done == v.files.len() && v.stage == Stage::Training && v.examples.len() == 0
            ==> v.next_file(notes).1.action == ActionView::Fail(
            "no pre-cutoff labels to train on"@,
        ) && v.next_file(notes).0 == (EvalView { stage: Stage::Failed, ..v }),
{
}

/// Only these lines are logged on the way from file to file: how far training is, at
/// every hundredth file, and how many examples a model is fitted on.
pub proof fn law_lines_between_files<T>(v: EvalView<T>, notes: Seq<Seq<char>>)
    requires
        v.stage == Stage::Training || v.stage == Stage::Testing,
        v.done <= v.files.len(),
    ensures
        v.stage == Stage::Testing ==> v.next_file(notes).1.notes == notes,
        v.stage == Stage::Training && v.done < v.files.len() && (v.done == 0 || v.done % 100 != 0)
            ==> v.next_file(notes).1.notes == notes,
        v.stage == Stage::Training && 0 < v.done < v.files.len() && v.done % 100 == 0
            ==> v.next_file(notes).1.notes == notes.push(
            "  embedded "@ + decimal(v.done) + "/"@ + decimal(v.files.len()) + "…"@,
        ),
        v.stage == Stage::Training && v.done == v.files.len() && v.examples.len() > 0
            ==> v.next_file(notes).1.notes == notes.push(
            "fitting on "@ + decimal(v.examples.len()) + " pre-cutoff example(s)…"@,
        ),
        v.stage == Stage::Training && v.done == v.files.len() && v.examples.len() == 0
            ==> v.next_file(notes).1.notes == notes,
{
    assert(notes + Seq::<Seq<char>>::empty() == notes);
    let line = "  embedded "@ + decimal(v.done) + "/"@ + decimal(v.files.len()) + "…"@;
    assert(notes + seq![line] == notes.push(line));
}

/// A listing is taken whole, and work on it begins at its first file. A listing of the
/// test labels has to hold one.
pub proof fn law_listing_is_taken_whole<T>(v: EvalView<T>, files: Seq<(Seq<char>, Priority)>)
    requires
        v.stage == Stage::ListingTrain || v.stage == Stage::ListingTest,
    ensures
        files.len() > 0 ==> v.with_files(files).0 == (EvalView {
            stage: if v.stage == Stage::ListingTrain {
                Stage::Training
            } else {
                Stage::Testing
            },
            files,
            done: 0,
            ..v
        }) && v.with_files(files).1.action == ActionView::Parse(files[0].0),
        files.len() == 0 && v.stage == Stage::ListingTest ==> v.with_files(files).0 == (EvalView {
            stage: Stage::Failed,
            ..v
        }) && v.with_files(files).1.action == ActionView::Fail(
            "no post-cutoff labels to evaluate against"@,
        ),
        files.len() == 0 && v.stage == Stage::ListingTrain && v.examples.len() == 0
            ==> v.with_files(files).1.action == ActionView::Fail(
            "no pre-cutoff labels to train on"@,
        ),
        v.with_files(files).1.notes.len() > 0 && v.with_files(files).1.notes[0] == split_note(
            if v.stage == Stage::ListingTrain {
                "train"@
            } else {
                "test"@
            },
            files,
        ),
{
}

/// A message that became features is one more example, with all its features and the
/// label of its own file; the examples before it stay.
pub proof fn law_message_becomes_an_example<T>(v: EvalView<T>, features: Seq<T>)
    requires
        v.done < v.files.len(),
    ensures
        v.trained(features) == (EvalView {
            done: v.done + 1,
            examples: v.examples.push((features, v.files[v.done as int].1)),
            ..v
        }),
{
}

/// A message that was left out changes nothing but how far the evaluation is.
pub proof fn law_message_is_left_out<T>(v: EvalView<T>)
    ensures
        v.skipped() == (EvalView { done: v.done + 1, ..v }),
{
}

/// A prediction is one more in the cell of the message's own label and the predicted one,
/// and nowhere else.
pub proof fn law_prediction_is_counted<T>(v: EvalView<T>, predicted: Priority, t: int, p: int)
    requires
        v.done < v.files.len(),
        is_square(v.confusion),
        v.confusion[v.files[v.done as int].1.index() as int][predicted.index() as int] < u32::MAX,
        0 <= t < 3,
        0 <= p < 3,
    ensures
        v.scored_as(predicted).done == v.done + 1,
        v.scored_as(predicted).scored == v.scored + 1,
        v.scored_as(predicted).files == v.files,
        v.scored_as(predicted).examples == v.examples,
        v.scored_as(predicted).stage == v.stage,
        v.scored_as(predicted).cutoff == v.cutoff,
        v.scored_as(predicted).confusion[t][p] == v.confusion[t][p] + if t
            == v.files[v.done as int].1.index() && p == predicted.index() {
            1int
        } else {
            0int
        },
{
}

/// An evaluation that is given up keeps what it has, and gives the whole reason.
pub proof fn law_giving_up<T>(v: EvalView<T>, notes: Seq<Seq<char>>, reason: Seq<char>)
    ensures
        v.failed(notes, reason).0 == (EvalView { stage: Stage::Failed, ..v }),
        v.failed(notes, reason).1.action == ActionView::Fail(reason),
        v.failed(notes, reason).1.notes == notes,
{
}

/// A run trains on all of its listing: with fewer outcomes than files the next file is
/// parsed, and only when every file has its outcome a model is fitted, on as many
/// examples as outcomes that are features.
pub proof fn law_training_goes_over_every_file<T>(
    v: EvalView<T>,
    files: Seq<(Seq<char>, Priority)>,
    outcomes: Seq<Option<Seq<T>>>,
)
    requires
        v.stage == Stage::ListingTrain,
        v.examples.len() == 0,
        files.len() > 0,
        outcomes.len() <= files.len(),
    ensures
        ({
            let now = after_training(v.with_files(files).0, outcomes);
            let next = now.next_file(Seq::empty()).1.action;
            &&& now.done == outcomes.len()
            &&& outcomes.len() < files.len() ==> next == ActionView::Parse(
                files[outcomes.len() as int].0,
            )
            &&& now.examples.len() == outcomes.filter(|o: Option<Seq<T>>| o is Some).len()
            &&& outcomes.len() == files.len() && now.examples.len() > 0 ==> next == ActionView::Fit
        }),
    decreases outcomes.len(),
{
    reveal(Seq::filter);
    let start = v.with_files(files).0;
    law_training_set(start, outcomes);
    if outcomes.len() > 0 {
        law_training_goes_over_every_file(v, files, outcomes.drop_last());
    }
}

/// A run scores all of its test listing: with fewer outcomes than files the next file is
/// parsed, and the report comes only when every file has its outcome.
pub proof fn law_testing_goes_over_every_file<T>(
    v: EvalView<T>,
    files: Seq<(Seq<char>, Priority)>,
    outcomes: Seq<Option<Priority>>,
)
    requires
        v.stage == Stage::ListingTest,
        files.len() > 0,
        outcomes.len() <= files.len(),
    ensures
        ({
            let now = after_testing(v.with_files(files).0, outcomes);
            let next = now.next_file(Seq::empty()).1.action;
            &&& now.done == outcomes.len()
            &&& now.stage == Stage::Testing
            &&& now.files == files
            &&& outcomes.len() < files.len() ==> next == ActionView::Parse(
                files[outcomes.len() as int].0,
            )
            &&& outcomes.len() == files.len() ==> next == ActionView::Report
        }),
    decreases outcomes.len(),
{
    if outcomes.len() > 0 {
        law_testing_goes_over_every_file(v, files, outcomes.drop_last());
    }
}

/// The test labels are those from the cutoff on.
pub proof fn law_test_selection_is_bounded(cutoff: Seq<char>, p: Priority)
    ensures
        (" and date:"@ + cutoff + ".."@).is_suffix_of(
            confirmed_query_dated(p, Some(after(cutoff))),
        ),
{
    let clause = " and date:"@ + cutoff + ".."@;
    let q = confirmed_query_dated(p, Some(after(cutoff)));
    assert(clause == " and date:"@ + (cutoff + ".."@));
    assert(clause == q.skip(q.len() - clause.len()));
}

/// A file counts for the label it has, and for no other.
pub proof fn law_labels_are_counted(
    files: Seq<(Seq<char>, Priority)>,
    file: (Seq<char>, Priority),
    p: Priority,
)
    ensures
        label_count(Seq::empty(), p) == 0,
        label_count(files.push(file), p) == label_count(files, p) + if file.1 == p {
            1nat
        } else {
            0nat
        },
{
    reveal(Seq::filter);
    assert(files.push(file).drop_last() == files);
    assert(files.push(file).last() == file);
}

/// What is logged of a split, of a message that was left out and of the cache.
pub proof fn law_log_lines(
    name: Seq<char>,
    files: Seq<(Seq<char>, Priority)>,
    path: Seq<char>,
    error: Seq<char>,
    hits: nat,
    misses: nat,
)
    ensures
        split_note(name, files) == name + ": "@ + decimal(files.len()) + " total  ("@ + decimal(
            label_count(files, Priority::P1),
        ) + " prio-low, "@ + decimal(label_count(files, Priority::P2)) + " prio-normal, "@
            + decimal(label_count(files, Priority::P3)) + " prio-high)"@,
        skip_note(path, error) == "skipping "@ + path + ": parse failed: "@ + error,
        cache_note(hits, misses) == "embeddings: "@ + decimal(hits) + " from cache, "@ + decimal(
            misses,
        ) + " regenerated ("@ + decimal(hits + misses) + " total)"@,
{
}

/// What is known of an evaluation is what it holds: every file with its label, every
/// example with all its features.
pub proof fn law_view_of_an_evaluation<T>(e: Evaluation<T>, i: int)
    ensures
        e@.cutoff == e.cutoff@,
        e@.stage == e.stage,
        e@.done == e.done,
        e@.scored == e.scored,
        e@.confusion == e.confusion@,
        e@.files.len() == e.files@.len(),
        e@.examples.len() == e.examples@.len(),
        0 <= i < e.files@.len() ==> e@.files[i] == (e.files@[i].path@, e.files@[i].label),
        0 <= i < e.examples@.len() ==> e@.examples[i] == (
            e.examples@[i].features@,
            e.examples@[i].label,
        ),
{
}

/// The training window is everything up to the cutoff, the test window everything from it
/// on.
pub proof fn law_windows(cutoff: Seq<char>)
    ensures
        before(cutoff) == ".."@ + cutoff,
        after(cutoff) == cutoff + ".."@,
{
}

/// What is known of a step is what it holds: every line in order, and the whole action.
pub proof fn law_view_of_a_step(step: Step, i: int)
    ensures
        step@.notes.len() == step.notes@.len(),
        0 <= i < step.notes@.len() ==> step@.notes[i] == step.notes@[i]@,
        match step.action {
            Action::OpenCache(s) => step@.action == ActionView::OpenCache(s@),
            Action::List(s) => step@.action == ActionView::List(s@),
            Action::Parse(s) => step@.action == ActionView::Parse(s@),
            Action::Featurize(s) => step@.action == ActionView::Featurize(s@),
            Action::Classify(s) => step@.action == ActionView::Classify(s@),
            Action::Fit => step@.action == ActionView::Fit,
            Action::Report => step@.action == ActionView::Report,
            Action::Fail(s) => step@.action == ActionView::Fail(s@),
        },
{
}

} // verus!
