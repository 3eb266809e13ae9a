//! The time-held-out evaluation: split the confirmed labels at a cutoff date, train
//! on everything before it, and score predictions against the labels after it.
//!
//! The split is by time, to mimic deployment: fit on the past, guess the future. A
//! sender's history is counted within the training window on both sides, so that
//! no test message ever sees a label from after the cutoff, not even its own.
//!
//! An [`Evaluation`] decides; the caller does the work. Each method takes what the
//! last piece of work came to and gives the next [`Action`], with the lines to log
//! before it. Loading the embedding model is the first piece.

use vstd::prelude::*;

use crate::cache::{cache_file_name, file_name};
use crate::email::{prepared_text, RawEmail};
use crate::fit::Example;
use crate::history::ClassCounts;
use crate::labels::Priority;
use crate::notmuch::{count_query, file_views, opt_view, LabeledFile, Notmuch};
use crate::numbers::{decimal, decimal_string};
use crate::report::{
    is_square, law_record_counts_once, no_messages, recorded, sum, Confusion, Matrix,
};
use crate::text::prepared;

verus! {

/// How far an evaluation is.
#[derive(Debug, Clone, Copy, PartialEq, Eq, Structural)]
pub enum Stage {
    /// The embedding model is being loaded.
    Loading,
    /// The embedding cache is being opened.
    Opening,
    /// The labels from before the cutoff are being listed.
    ListingTrain,
    /// The training examples are being built, file by file.
    Training,
    /// The model is being fitted.
    Fitting,
    /// The labels from after the cutoff are being listed.
    ListingTest,
    /// The test messages are being scored, file by file.
    Testing,
    /// The evaluation is through.
    Done,
    /// The evaluation was aborted.
    Failed,
}

/// What the caller has to do next.
#[derive(Debug)]
pub enum Action {
    /// Open the embedding cache in the store file of this name.
    OpenCache(String),
    /// List the confirmed labels of this date range.
    List(String),
    /// Read and parse the message file at this path.
    Parse(String),
    /// Embed this text of the message that was parsed, and build the features of
    /// the message.
    Featurize(String),
    /// Embed this text of the message that was parsed, and classify the message.
    Classify(String),
    /// Fit a model on the examples.
    Fit,
    /// Flush the cache and print the report.
    Report,
    /// Give up, for this reason.
    Fail(String),
}

/// The model of an [`Action`].
pub enum ActionView {
    OpenCache(Seq<char>),
    List(Seq<char>),
    Parse(Seq<char>),
    Featurize(Seq<char>),
    Classify(Seq<char>),
    Fit,
    Report,
    Fail(Seq<char>),
}

impl View for Action {
    type V = ActionView;

    open spec fn view(&self) -> ActionView {
        match self {
            Action::OpenCache(s) => ActionView::OpenCache(s@),
            Action::List(s) => ActionView::List(s@),
            Action::Parse(s) => ActionView::Parse(s@),
            Action::Featurize(s) => ActionView::Featurize(s@),
            Action::Classify(s) => ActionView::Classify(s@),
            Action::Fit => ActionView::Fit,
            Action::Report => ActionView::Report,
            Action::Fail(s) => ActionView::Fail(s@),
        }
    }
}

/// The next action, and the lines to log before it.
#[derive(Debug)]
pub struct Step {
    pub notes: Vec<String>,
    pub action: Action,
}

/// The model of a [`Step`].
#[verifier::ext_equal]
pub struct StepView {
    pub notes: Seq<Seq<char>>,
    pub action: ActionView,
}

impl View for Step {
    type V = StepView;

    open spec fn view(&self) -> StepView {
        StepView { notes: self.notes@.map_values(|s: String| s@), action: self.action@ }
    }
}

/// The date range of the training labels.
pub open spec fn before(cutoff: Seq<char>) -> Seq<char> {
    ".."@ + cutoff
}

/// The date range of the test labels.
pub open spec fn after(cutoff: Seq<char>) -> Seq<char> {
    cutoff + ".."@
}

/// How many of the files have the priority `p`.
pub open spec fn label_count(files: Seq<(Seq<char>, Priority)>, p: Priority) -> nat {
    files.filter(|f: (Seq<char>, Priority)| f.1 == p).len()
}

/// The line that tells the size of a split, and how it is made up.
pub open spec fn split_note(name: Seq<char>, files: Seq<(Seq<char>, Priority)>) -> Seq<char> {
    name + ": "@ + decimal(files.len()) + " total  ("@ + decimal(label_count(files, Priority::P1))
        + " prio-low, "@ + decimal(label_count(files, Priority::P2)) + " prio-normal, "@ + decimal(
        label_count(files, Priority::P3),
    ) + " prio-high)"@
}

/// The line that tells how far training is, for every hundredth file.
pub open spec fn progress_notes(i: nat, n: nat) -> Seq<Seq<char>> {
    if i > 0 && i % 100 == 0 {
        seq!["  embedded "@ + decimal(i) + "/"@ + decimal(n) + "…"@]
    } else {
        Seq::empty()
    }
}

/// The line that tells why a message was left out.
pub open spec fn skip_note(path: Seq<char>, error: Seq<char>) -> Seq<char> {
    "skipping "@ + path + ": parse failed: "@ + error
}

/// The line that tells how many examples a model is fitted on.
pub open spec fn fit_note(n: nat) -> Seq<char> {
    "fitting on "@ + decimal(n) + " pre-cutoff example(s)…"@
}

/// What an evaluation knows.
#[verifier::ext_equal]
pub struct EvalView<T> {
    pub cutoff: Seq<char>,
    pub stage: Stage,
    /// The files of the split that is being worked on, with their labels.
    pub files: Seq<(Seq<char>, Priority)>,
    /// How many of the files are dealt with.
    pub done: nat,
    /// The training examples so far: their features and labels.
    pub examples: Seq<(Seq<T>, Priority)>,
    pub confusion: Matrix,
    /// How many test messages were scored.
    pub scored: nat,
}

impl<T> EvalView<T> {
    /// The evaluation given up for a reason.
    pub open spec fn failed(self, notes: Seq<Seq<char>>, reason: Seq<char>) -> (
        EvalView<T>,
        StepView,
    ) {
        (
            EvalView { stage: Stage::Failed, ..self },
            StepView { notes, action: ActionView::Fail(reason) },
        )
    }

    /// The step to the next file of the split; behind the last one, to what follows
    /// the split. There is nothing to fit without examples.
    pub open spec fn next_file(self, notes: Seq<Seq<char>>) -> (EvalView<T>, StepView) {
        if self.done < self.files.len() {
            let progress = if self.stage == Stage::Training {
                progress_notes(self.done, self.files.len())
            } else {
                Seq::empty()
            };
            (
                self,
                StepView {
                    notes: notes + progress,
                    action: ActionView::Parse(self.files[self.done as int].0),
                },
            )
        } else if self.stage == Stage::Testing {
            (
                EvalView { stage: Stage::Done, ..self },
                StepView { notes, action: ActionView::Report },
            )
        } else if self.examples.len() == 0 {
            self.failed(notes, "no pre-cutoff labels to train on"@)
        } else {
            (
                EvalView { stage: Stage::Fitting, ..self },
                StepView {
                    notes: notes.push(fit_note(self.examples.len())),
                    action: ActionView::Fit,
                },
            )
        }
    }

    /// The step after a split was listed.
    pub open spec fn with_files(self, files: Seq<(Seq<char>, Priority)>) -> (
        EvalView<T>,
        StepView,
    ) {
        if self.stage == Stage::ListingTrain {
            (EvalView { stage: Stage::Training, files, done: 0, ..self }).next_file(
                seq![split_note("train"@, files)],
            )
        } else if files.len() == 0 {
            self.failed(
                seq![split_note("test"@, files)],
                "no post-cutoff labels to evaluate against"@,
            )
        } else {
            (EvalView { stage: Stage::Testing, files, done: 0, ..self }).next_file(
                seq![split_note("test"@, files)],
            )
        }
    }

    /// The state after the current file was left out.
    pub open spec fn skipped(self) -> EvalView<T> {
        EvalView { done: self.done + 1, ..self }
    }

    /// The state after the current file became a training example.
    pub open spec fn trained(self, features: Seq<T>) -> EvalView<T> {
        EvalView {
            done: self.done + 1,
            examples: self.examples.push((features, self.files[self.done as int].1)),
            ..self
        }
    }

    /// The state after the current file was predicted to have a priority.
    pub open spec fn scored_as(self, predicted: Priority) -> EvalView<T> {
        EvalView {
            done: self.done + 1,
            confusion: recorded(self.confusion, self.files[self.done as int].1, predicted),
            scored: self.scored + 1,
            ..self
        }
    }

    /// Whether there is a file at hand.
    pub open spec fn at_file(self) -> bool {
        (self.stage == Stage::Training || self.stage == Stage::Testing) && self.done
            < self.files.len()
    }

    /// What holds of every evaluation: the matrix counts exactly the messages that
    /// were scored, and these are among the files dealt with.
    pub open spec fn wf(self) -> bool {
        &&& self.done <= self.files.len()
        &&& self.stage == Stage::Testing ==> self.files.len() <= u32::MAX
        &&& is_square(self.confusion)
        &&& sum(self.confusion) == self.scored
        &&& if self.stage == Stage::Testing || self.stage == Stage::Done || self.stage
            == Stage::Failed {
            self.scored <= self.files.len() && (self.stage == Stage::Testing ==> self.scored
                <= self.done)
        } else {
            self.scored == 0
        }
    }
}

/// An evaluation at a cutoff date, over features of the type `T`.
pub struct Evaluation<T> {
    pub cutoff: String,
    pub stage: Stage,
    pub files: Vec<LabeledFile>,
    pub done: usize,
    pub examples: Vec<Example<T>>,
    pub confusion: Confusion,
    pub scored: usize,
}

/// The features and labels of training examples.
pub open spec fn example_views<T>(examples: Seq<Example<T>>) -> Seq<(Seq<T>, Priority)> {
    examples.map_values(|e: Example<T>| (e.features@, e.label))
}

impl<T> View for Evaluation<T> {
    type V = EvalView<T>;

    open spec fn view(&self) -> EvalView<T> {
        EvalView {
            cutoff: self.cutoff@,
            stage: self.stage,
            files: file_views(self.files@),
            done: self.done as nat,
            examples: example_views(self.examples@),
            confusion: self.confusion@,
            scored: self.scored as nat,
        }
    }
}

/// The line that tells the size of a split and how it is made up, so that the
/// balance of each side is on the record.
pub fn log_split(name: &str, files: &[LabeledFile]) -> (r: String)
    ensures
        r@ == split_note(name@, file_views(files@)),
{
    let ghost all = file_views(files@);
    let mut low: usize = 0;
    let mut normal: usize = 0;
    let mut high: usize = 0;
    let mut i: usize = 0;
    proof {
        lemma_label_counts(all.take(0));
    }
    while i < files.len()
        invariant
            i <= files@.len(),
            all == file_views(files@),
            low == label_count(all.take(i as int), Priority::P1),
            normal == label_count(all.take(i as int), Priority::P2),
            high == label_count(all.take(i as int), Priority::P3),
            low + normal + high == i,
        decreases files@.len() - i,
    {
        assert(all.take(i + 1) == all.take(i as int).push(all[i as int]));
        proof {
            lemma_label_count_push(all.take(i as int), all[i as int]);
        }
        match files[i].label {
            Priority::P1 => {
                low += 1;
            },
            Priority::P2 => {
                normal += 1;
            },
            Priority::P3 => {
                high += 1;
            },
        }
        i += 1;
    }
    assert(all.take(i as int) == all);
    let mut line = name.to_owned();
    line.append(": ");
    line.append(&decimal_string(files.len() as u64));
    line.append(" total  (");
    line.append(&decimal_string(low as u64));
    line.append(" prio-low, ");
    line.append(&decimal_string(normal as u64));
    line.append(" prio-normal, ");
    line.append(&decimal_string(high as u64));
    line.append(" prio-high)");
    line
}

proof fn lemma_label_count_push(files: Seq<(Seq<char>, Priority)>, file: (Seq<char>, Priority))
    ensures
        forall|p: Priority| #[trigger]
            label_count(files.push(file), p) == label_count(files, p) + if file.1 == p {
                1nat
            } else {
                0nat
            },
{
    reveal(Seq::filter);
    assert(files.push(file).drop_last() == files);
}

proof fn lemma_label_counts(files: Seq<(Seq<char>, Priority)>)
    ensures
        label_count(files, Priority::P1) + label_count(files, Priority::P2) + label_count(
            files,
            Priority::P3,
        ) == files.len(),
    decreases files.len(),
{
    reveal(Seq::filter);
    if files.len() > 0 {
        lemma_label_counts(files.drop_last());
        lemma_label_count_push(files.drop_last(), files.last());
        assert(files.drop_last().push(files.last()) == files);
    }
}

/// The line that tells how much the cache has saved.
pub open spec fn cache_note(hits: nat, misses: nat) -> Seq<char> {
    "embeddings: "@ + decimal(hits) + " from cache, "@ + decimal(misses) + " regenerated ("@
        + decimal(hits + misses) + " total)"@
}

/// The line that tells how much the cache has saved.
pub fn cache_summary(hits: usize, misses: usize) -> (r: String)
    requires
        hits + misses <= usize::MAX,
    ensures
        r@ == cache_note(hits as nat, misses as nat),
{
    let mut line = "embeddings: ".to_owned();
    line.append(&decimal_string(hits as u64));
    line.append(" from cache, ");
    line.append(&decimal_string(misses as u64));
    line.append(" regenerated (");
    line.append(&decimal_string((hits + misses) as u64));
    line.append(" total)");
    line
}

fn failure(front: &str, detail: &str) -> (r: Step)
    ensures
        r@ == (StepView { notes: Seq::empty(), action: ActionView::Fail(front@ + detail@) }),
{
    let mut reason = front.to_owned();
    reason.append(detail);
    let r = Step { notes: Vec::new(), action: Action::Fail(reason) };
    assert(r@.notes == Seq::<Seq<char>>::empty());
    r
}

fn plain(action: Action) -> (r: Step)
    ensures
        r@ == (StepView { notes: Seq::empty(), action: action@ }),
{
    let r = Step { notes: Vec::new(), action };
    assert(r@.notes == Seq::<Seq<char>>::empty());
    r
}

/// Begin an evaluation at `cutoff`, a notmuch date. The embedding model is to be
/// loaded first.
pub fn evaluate<T>(cutoff: &str) -> (r: Evaluation<T>)
    ensures
        r@ == (EvalView::<T> {
            cutoff: cutoff@,
            stage: Stage::Loading,
            files: Seq::empty(),
            done: 0,
            examples: Seq::empty(),
            confusion: no_messages(),
            scored: 0,
        }),
        r@.wf(),
{
    let r = Evaluation {
        cutoff: cutoff.to_owned(),
        stage: Stage::Loading,
        files: Vec::new(),
        done: 0,
        examples: Vec::new(),
        confusion: Confusion::new(),
        scored: 0,
    };
    assert(r@.files == Seq::<(Seq<char>, Priority)>::empty());
    assert(r@.examples == Seq::<(Seq<T>, Priority)>::empty());
    r
}

impl<T> Evaluation<T> {
    /// The sender history of this evaluation: bounded to the training window, for
    /// the training messages and for the test messages.
    pub fn history(&self) -> (r: Notmuch)
        ensures
            opt_view(r.date_bound) == Some(before(self@.cutoff)),
            r.domain_counts@ == Map::<Seq<char>, ClassCounts>::empty(),
            r.addr_counts@ == Map::<Seq<char>, ClassCounts>::empty(),
    {
        let range = self.train_range();
        Notmuch::with_date_bound(&range)
    }

    fn train_range(&self) -> (r: String)
        ensures
            r@ == before(self@.cutoff),
    {
        let mut range = "..".to_owned();
        range.append(&self.cutoff);
        range
    }

    fn test_range(&self) -> (r: String)
        ensures
            r@ == after(self@.cutoff),
    {
        let mut range = self.cutoff.clone();
        range.append("..");
        range
    }

    /// Take the id of the embedding model that was loaded, or why it could not be.
    pub fn embedder_loaded(&mut self, loaded: Result<String, String>) -> (r: Step)
        requires
            old(self)@.wf(),
            old(self)@.stage == Stage::Loading,
        ensures
            final(self)@.wf(),
            match loaded {
                Ok(id) => final(self)@ == (EvalView { stage: Stage::Opening, ..old(self)@ }) && r@
                    == (StepView {
                    notes: Seq::empty(),
                    action: ActionView::OpenCache(file_name(id@)),
                }),
                Err(e) => (final(self)@, r@) == old(self)@.failed(
                    Seq::empty(),
                    "loading embedder: "@ + e@,
                ),
            },
    {
        match loaded {
            Ok(id) => {
                self.stage = Stage::Opening;
                plain(Action::OpenCache(cache_file_name(&id)))
            },
            Err(e) => {
                self.stage = Stage::Failed;
                failure("loading embedder: ", &e)
            },
        }
    }

    /// Take note that the cache is open, or is done without.
    pub fn cache_opened(&mut self) -> (r: Step)
        requires
            old(self)@.wf(),
            old(self)@.stage == Stage::Opening,
        ensures
            final(self)@.wf(),
            final(self)@ == (EvalView { stage: Stage::ListingTrain, ..old(self)@ }),
            r@ == (StepView {
                notes: Seq::empty(),
                action: ActionView::List(before(old(self)@.cutoff)),
            }),
    {
        self.stage = Stage::ListingTrain;
        plain(Action::List(self.train_range()))
    }

    fn next_file(&mut self, notes: Vec<String>) -> (r: Step)
        requires
            old(self)@.wf(),
            old(self)@.stage == Stage::Training || old(self)@.stage == Stage::Testing,
        ensures
            final(self)@.wf(),
            (final(self)@, r@) == old(self)@.next_file(notes@.map_values(|s: String| s@)),
    {
        let ghost lines = notes@.map_values(|s: String| s@);
        let mut notes = notes;
        if self.done < self.files.len() {
            if self.done > 0 && self.done % 100 == 0 {
                if self.stage == Stage::Training {
                    let mut line = "  embedded ".to_owned();
                    line.append(&decimal_string(self.done as u64));
                    line.append("/");
                    line.append(&decimal_string(self.files.len() as u64));
                    line.append("…");
                    notes.push(line);
                    assert(notes@.map_values(|s: String| s@) == lines.push(line@));
                }
            }
            let action = Action::Parse(self.files[self.done].path.clone());
            let r = Step { notes, action };
            assert(r@.notes == old(self)@.next_file(lines).1.notes);
            return r;
        }
        if self.stage == Stage::Testing {
            self.stage = Stage::Done;
            Step { notes, action: Action::Report }
        } else if self.examples.len() == 0 {
            self.stage = Stage::Failed;
            Step { notes, action: Action::Fail("no pre-cutoff labels to train on".to_owned()) }
        } else {
            let mut line = "fitting on ".to_owned();
            line.append(&decimal_string(self.examples.len() as u64));
            line.append(" pre-cutoff example(s)…");
            notes.push(line);
            assert(notes@.map_values(|s: String| s@) == lines.push(line@));
            self.stage = Stage::Fitting;
            Step { notes, action: Action::Fit }
        }
    }

    /// Take the labels that were listed, or why they could not be.
    pub fn listed(&mut self, files: Result<Vec<LabeledFile>, String>) -> (r: Step)
        requires
            old(self)@.wf(),
            old(self)@.stage == Stage::ListingTrain || old(self)@.stage == Stage::ListingTest,
            old(self)@.stage == Stage::ListingTest && files is Ok ==> files->Ok_0@.len()
                <= u32::MAX,
        ensures
            final(self)@.wf(),
            match files {
                Ok(f) => (final(self)@, r@) == old(self)@.with_files(file_views(f@)),
                Err(e) => (final(self)@, r@) == old(self)@.failed(Seq::empty(), e@),
            },
    {
        let files = match files {
            Ok(files) => files,
            Err(e) => {
                self.stage = Stage::Failed;
                return plain(Action::Fail(e));
            },
        };
        let train = self.stage == Stage::ListingTrain;
        let mut notes: Vec<String> = Vec::new();
        notes.push(log_split(if train { "train" } else { "test" }, &files));
        let ghost lines = notes@.map_values(|s: String| s@);
        if !train && files.len() == 0 {
            self.stage = Stage::Failed;
            let action = Action::Fail("no post-cutoff labels to evaluate against".to_owned());
            let r = Step { notes, action };
            assert(lines == seq![split_note("test"@, file_views(files@))]);
            return r;
        }
        self.stage = if train {
            Stage::Training
        } else {
            Stage::Testing
        };
        self.files = files;
        self.done = 0;
        proof {
            if train {
                assert(lines == seq![split_note("train"@, file_views(files@))]);
            } else {
                assert(lines == seq![split_note("test"@, file_views(files@))]);
            }
        }
        self.next_file(notes)
    }

    /// Take the message that was parsed, or why it could not be: then it is left
    /// out.
    pub fn parsed(&mut self, email: &Result<RawEmail, String>) -> (r: Step)
        requires
            old(self)@.wf(),
            old(self)@.at_file(),
        ensures
            final(self)@.wf(),
            match *email {
                Ok(m) => final(self)@ == old(self)@ && r@ == (StepView {
                    notes: Seq::empty(),
                    action: if old(self)@.stage == Stage::Training {
                        ActionView::Featurize(prepared(m.subject@, m.body@))
                    } else {
                        ActionView::Classify(prepared(m.subject@, m.body@))
                    },
                }),
                Err(e) => (final(self)@, r@) == old(self)@.skipped().next_file(
                    seq![skip_note(old(self)@.files[old(self)@.done as int].0, e@)],
                ),
            },
    {
        match email {
            Ok(m) => {
                if self.stage == Stage::Training {
                    plain(Action::Featurize(prepared_text(m)))
                } else {
                    plain(Action::Classify(prepared_text(m)))
                }
            },
            Err(e) => {
                let mut line = "skipping ".to_owned();
                line.append(&self.files[self.done].path);
                line.append(": parse failed: ");
                line.append(e);
                let mut notes: Vec<String> = Vec::new();
                notes.push(line);
                assert(notes@.map_values(|s: String| s@) == seq![line@]);
                assert(self.done < self.files.len());
                self.done += 1;
                self.next_file(notes)
            },
        }
    }

    fn embedding_failed(&mut self, error: &str) -> (r: Step)
        requires
            old(self)@.wf(),
            old(self)@.at_file(),
        ensures
            final(self)@.wf(),
            (final(self)@, r@) == old(self)@.failed(
                Seq::empty(),
                "embedding "@ + old(self)@.files[old(self)@.done as int].0 + ": "@ + error@,
            ),
    {
        let mut front = "embedding ".to_owned();
        front.append(&self.files[self.done].path);
        front.append(": ");
        self.stage = Stage::Failed;
        failure(&front, error)
    }

    /// Take the features of the message at hand, or why it could not be embedded:
    /// that aborts the evaluation.
    pub fn featured(&mut self, features: Result<Vec<T>, String>) -> (r: Step)
        requires
            old(self)@.wf(),
            old(self)@.at_file(),
            old(self)@.stage == Stage::Training,
        ensures
            final(self)@.wf(),
            match features {
                Ok(f) => (final(self)@, r@) == old(self)@.trained(f@).next_file(Seq::empty()),
                Err(e) => (final(self)@, r@) == old(self)@.failed(
                    Seq::empty(),
                    "embedding "@ + old(self)@.files[old(self)@.done as int].0 + ": "@ + e@,
                ),
            },
    {
        match features {
            Ok(features) => {
                let label = self.files[self.done].label;
                self.examples.push(Example { features, label });
                assert(self.done < self.files.len());
                self.done += 1;
                assert(self@.examples == old(self)@.trained(features@).examples);
                let notes: Vec<String> = Vec::new();
                assert(notes@.map_values(|s: String| s@) == Seq::<Seq<char>>::empty());
                self.next_file(notes)
            },
            Err(e) => self.embedding_failed(&e),
        }
    }

    /// Take note that a model was fitted on the examples, or why none could be.
    pub fn fitted(&mut self, outcome: Result<(), String>) -> (r: Step)
        requires
            old(self)@.wf(),
            old(self)@.stage == Stage::Fitting,
        ensures
            final(self)@.wf(),
            match outcome {
                Ok(_) => final(self)@ == (EvalView { stage: Stage::ListingTest, ..old(self)@ })
                    && r@ == (StepView {
                    notes: Seq::empty(),
                    action: ActionView::List(after(old(self)@.cutoff)),
                }),
                Err(e) => (final(self)@, r@) == old(self)@.failed(Seq::empty(), e@),
            },
    {
        match outcome {
            Ok(_) => {
                self.stage = Stage::ListingTest;
                plain(Action::List(self.test_range()))
            },
            Err(e) => {
                self.stage = Stage::Failed;
                plain(Action::Fail(e))
            },
        }
    }

    /// Take the priority that the message at hand was predicted to have, or why it
    /// could not be embedded: that aborts the evaluation.
    pub fn classified(&mut self, predicted: Result<Priority, String>) -> (r: Step)
        requires
            old(self)@.wf(),
            old(self)@.at_file(),
            old(self)@.stage == Stage::Testing,
        ensures
            final(self)@.wf(),
            match predicted {
                Ok(p) => (final(self)@, r@) == old(self)@.scored_as(p).next_file(Seq::empty()),
                Err(e) => (final(self)@, r@) == old(self)@.failed(
                    Seq::empty(),
                    "embedding "@ + old(self)@.files[old(self)@.done as int].0 + ": "@ + e@,
                ),
            },
    {
        match predicted {
            Ok(p) => {
                let truth = self.files[self.done].label;
                proof {
                    lemma_cell_is_part(self.confusion@, truth, p);
                    law_record_counts_once(self.confusion@, truth, p);
                }
                self.confusion.record(truth, p);
                self.scored += 1;
                self.done += 1;
                let notes: Vec<String> = Vec::new();
                assert(notes@.map_values(|s: String| s@) == Seq::<Seq<char>>::empty());
                self.next_file(notes)
            },
            Err(e) => self.embedding_failed(&e),
        }
    }
}

proof fn lemma_cell_is_part(m: Matrix, t: Priority, p: Priority)
    requires
        is_square(m),
    ensures
        m[t.index() as int][p.index() as int] <= sum(m),
{
}

/// The state after the training files were dealt with, one after another: each was
/// left out, or became an example with these features.
pub open spec fn after_training<T>(v: EvalView<T>, outcomes: Seq<Option<Seq<T>>>) -> EvalView<T>
    decreases outcomes.len(),
{
    if outcomes.len() == 0 {
        v
    } else {
        let w = after_training(v, outcomes.drop_last());
        match outcomes.last() {
            Some(features) => w.trained(features),
            None => w.skipped(),
        }
    }
}

/// The examples that the files with these outcomes make: those that were not left
/// out, in order, each with its own label.
pub open spec fn examples_of<T>(
    files: Seq<(Seq<char>, Priority)>,
    outcomes: Seq<Option<Seq<T>>>,
) -> Seq<(Seq<T>, Priority)>
    decreases outcomes.len(),
{
    if outcomes.len() == 0 {
        Seq::empty()
    } else {
        let front = examples_of(files, outcomes.drop_last());
        match outcomes.last() {
            Some(features) => front.push((features, files[outcomes.len() - 1].1)),
            None => front,
        }
    }
}

/// The training set is exactly the messages before the cutoff that could be parsed,
/// each once, in order and with its confirmed label.
pub proof fn law_training_set<T>(v: EvalView<T>, outcomes: Seq<Option<Seq<T>>>)
    requires
        v.stage == Stage::Training,
        v.done == 0,
        v.examples.len() == 0,
        outcomes.len() <= v.files.len(),
    ensures
        after_training(v, outcomes).examples == examples_of(v.files, outcomes),
        after_training(v, outcomes).done == outcomes.len(),
        after_training(v, outcomes).files == v.files,
        after_training(v, outcomes).stage == v.stage,
        outcomes.len() == v.files.len() && examples_of(v.files, outcomes).len() > 0
            ==> after_training(v, outcomes).next_file(Seq::empty()).1.action is Fit,
        outcomes.len() == v.files.len() && examples_of(v.files, outcomes).len() == 0
            ==> after_training(v, outcomes).next_file(Seq::empty()).1.action is Fail,
    decreases outcomes.len(),
{
    if outcomes.len() > 0 {
        law_training_set(v, outcomes.drop_last());
    } else {
        assert(v.examples == Seq::<(Seq<T>, Priority)>::empty());
    }
}

/// The state after the test files were dealt with, one after another: each was left
/// out, or predicted to have this priority.
pub open spec fn after_testing<T>(v: EvalView<T>, outcomes: Seq<Option<Priority>>) -> EvalView<T>
    decreases outcomes.len(),
{
    if outcomes.len() == 0 {
        v
    } else {
        let w = after_testing(v, outcomes.drop_last());
        match outcomes.last() {
            Some(predicted) => w.scored_as(predicted),
            None => w.skipped(),
        }
    }
}

/// How many of the files with these outcomes have the label `t` and were predicted
/// to have the priority `p`.
pub open spec fn times(
    files: Seq<(Seq<char>, Priority)>,
    outcomes: Seq<Option<Priority>>,
    t: Priority,
    p: Priority,
) -> nat
    decreases outcomes.len(),
{
    if outcomes.len() == 0 {
        0
    } else {
        times(files, outcomes.drop_last(), t, p) + if files[outcomes.len() - 1].1 == t
            && outcomes.last() == Some(p) {
            1nat
        } else {
            0nat
        }
    }
}

/// How many of the outcomes are predictions.
pub open spec fn predictions(outcomes: Seq<Option<Priority>>) -> nat
    decreases outcomes.len(),
{
    if outcomes.len() == 0 {
        0
    } else {
        predictions(outcomes.drop_last()) + if outcomes.last() is Some {
            1nat
        } else {
            0nat
        }
    }
}

/// What testing leaves alone.
proof fn lemma_testing_frame<T>(v: EvalView<T>, outcomes: Seq<Option<Priority>>)
    ensures
        after_testing(v, outcomes).cutoff == v.cutoff,
        after_testing(v, outcomes).stage == v.stage,
        after_testing(v, outcomes).files == v.files,
        after_testing(v, outcomes).examples == v.examples,
        after_testing(v, outcomes).done == v.done + outcomes.len(),
    decreases outcomes.len(),
{
    if outcomes.len() > 0 {
        lemma_testing_frame(v, outcomes.drop_last());
    }
}

/// Testing counts what it scores.
proof fn lemma_testing_scores<T>(v: EvalView<T>, outcomes: Seq<Option<Priority>>)
    requires
        v.wf(),
        v.stage == Stage::Testing,
        v.done == 0,
        v.scored == 0,
        outcomes.len() <= v.files.len(),
    ensures
        after_testing(v, outcomes).wf(),
        after_testing(v, outcomes).scored == predictions(outcomes),
        predictions(outcomes) <= outcomes.len(),
    decreases outcomes.len(),
{
    lemma_testing_frame(v, outcomes);
    if outcomes.len() > 0 {
        let front = outcomes.drop_last();
        lemma_testing_scores(v, front);
        lemma_testing_frame(v, front);
        let w = after_testing(v, front);
        if outcomes.last() is Some {
            let predicted = outcomes.last()->0;
            let truth = v.files[outcomes.len() - 1].1;
            lemma_cell_is_part(w.confusion, truth, predicted);
            law_record_counts_once(w.confusion, truth, predicted);
        }
    }
}

/// One cell of the matrix after testing.
proof fn lemma_testing_cell<T>(
    v: EvalView<T>,
    outcomes: Seq<Option<Priority>>,
    t: Priority,
    p: Priority,
)
    requires
        v.wf(),
        v.stage == Stage::Testing,
        v.done == 0,
        v.scored == 0,
        v.confusion == no_messages(),
        outcomes.len() <= v.files.len(),
    ensures
        after_testing(v, outcomes).confusion[t.index() as int][p.index() as int] == times(
            v.files,
            outcomes,
            t,
            p,
        ),
    decreases outcomes.len(),
{
    if outcomes.len() > 0 {
        let front = outcomes.drop_last();
        lemma_testing_cell(v, front, t, p);
        lemma_testing_frame(v, front);
        lemma_testing_scores(v, front);
        let w = after_testing(v, front);
        if outcomes.last() is Some {
            let predicted = outcomes.last()->0;
            let truth = v.files[outcomes.len() - 1].1;
            lemma_cell_is_part(w.confusion, truth, predicted);
            lemma_recorded_cell(w.confusion, truth, predicted, t, p);
        }
    }
}

/// The matrix counts every test message that could be parsed exactly once: in the
/// row of its confirmed label and the column of its prediction. Behind the last
/// file the report is due, and the training set is as it was.
pub proof fn law_confusion_matrix<T>(
    v: EvalView<T>,
    outcomes: Seq<Option<Priority>>,
    t: Priority,
    p: Priority,
)
    requires
        v.wf(),
        v.stage == Stage::Testing,
        v.done == 0,
        v.scored == 0,
        v.confusion == no_messages(),
        outcomes.len() <= v.files.len(),
    ensures
        after_testing(v, outcomes).wf(),
        after_testing(v, outcomes).confusion[t.index() as int][p.index() as int] == times(
            v.files,
            outcomes,
            t,
            p,
        ),
        after_testing(v, outcomes).scored == predictions(outcomes),
        after_testing(v, outcomes).done == outcomes.len(),
        after_testing(v, outcomes).files == v.files,
        after_testing(v, outcomes).stage == v.stage,
        after_testing(v, outcomes).examples == v.examples,
        outcomes.len() == v.files.len() ==> after_testing(v, outcomes).next_file(
            Seq::empty(),
        ).1.action is Report,
{
    lemma_testing_frame(v, outcomes);
    lemma_testing_scores(v, outcomes);
    lemma_testing_cell(v, outcomes, t, p);
}

proof fn lemma_recorded_cell(
    m: Matrix,
    truth: Priority,
    predicted: Priority,
    t: Priority,
    p: Priority,
)
    requires
        is_square(m),
        m[truth.index() as int][predicted.index() as int] < u32::MAX,
    ensures
        recorded(m, truth, predicted)[t.index() as int][p.index() as int]
            == m[t.index() as int][p.index() as int] + if t == truth && p == predicted {
            1int
        } else {
            0int
        },
{
}

} // verus!
