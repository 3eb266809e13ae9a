//! The notmuch side: which queries select messages and count a sender's
//! history, what the answers mean, and the two caches in front of the counts.
//!
//! - Every history count and every training selection carries
//!   [`CONFIRMED_FILTER`], so that nothing is built from the model's own
//!   unreviewed guesses. The filter stands in this one place.
//! - A count that fails is unknown history, which counts as none; it never
//!   aborts a run.
//!
//! Running the `notmuch` program is the caller's business: the functions here
//! give the arguments to run it with and take what it answered.

use vstd::hash_map::StringHashMap;
use vstd::prelude::*;

use crate::history::ClassCounts;
use crate::labels::Priority;
use crate::numbers::{parse_u32, parsed_u32};
use crate::strings::{
    contains, debug_string, debug_text, from_chars, join, lines, lines_of, occurs_at, to_chars,
    trim, trim_str, views,
};

verus! {

/// The confirmed-label filter. It excludes only unreviewed model guesses; hand
/// labels, corrections and guesses that were read and let stand all remain.
pub const CONFIRMED_FILTER: &'static str = "not (tag:auto and tag:unread)";

/// The query that counts the confirmed messages of priority `p` from senders
/// that match `pattern`, within `date_bound` where there is one.
pub open spec fn count_query(p: Priority, pattern: Seq<char>, date_bound: Option<Seq<char>>) -> Seq<
    char,
> {
    "tag:"@ + p.tag() + " and "@ + CONFIRMED_FILTER@ + " and from:"@ + pattern + date_clause(
        date_bound,
    )
}

/// The clause that bounds a query to a date range.
pub open spec fn date_clause(range: Option<Seq<char>>) -> Seq<char> {
    match range {
        Some(r) => " and date:"@ + r,
        None => Seq::empty(),
    }
}

/// The query that selects every confirmed label.
pub open spec fn confirmed_query() -> Seq<char> {
    "(tag:"@ + Priority::P1.tag() + " or tag:"@ + Priority::P2.tag() + " or tag:"@
        + Priority::P3.tag() + ") and "@ + CONFIRMED_FILTER@
}

/// The query that selects the confirmed labels of priority `p`, within `range`
/// where there is one.
pub open spec fn confirmed_query_dated(p: Priority, range: Option<Seq<char>>) -> Seq<char> {
    "tag:"@ + p.tag() + " and "@ + CONFIRMED_FILTER@ + date_clause(range)
}

/// The view of an optional string.
pub open spec fn opt_view(s: Option<String>) -> Option<Seq<char>> {
    match s {
        Some(t) => Some(t@),
        None => None,
    }
}

/// The views of a sequence of strings.
pub open spec fn str_views(v: Seq<String>) -> Seq<Seq<char>> {
    v.map_values(|s: String| s@)
}

/// What a run of notmuch came to: its output, or why it failed.
pub type RunOutput = Result<String, String>;

/// The count that an answer gives: the trimmed output as a number. `None` where
/// notmuch failed or the output is no number.
pub open spec fn counted(output: RunOutput) -> Option<u32> {
    match output {
        Ok(text) => match parsed_u32(trim(text@)) {
            Ok(n) => Some(n),
            Err(_) => None,
        },
        Err(_) => None,
    }
}

/// The count that an answer stands for: none where it gives no count.
pub open spec fn counted_or_zero(output: RunOutput) -> u32 {
    match counted(output) {
        Some(n) => n,
        None => 0,
    }
}

/// The answer to a lookup of a sender's history.
#[derive(Debug, Clone, PartialEq, Eq)]
pub enum Lookup {
    /// The counts are known from an earlier lookup in this run.
    Known(ClassCounts),
    /// The counts have to be asked for, with one query per class in class-index
    /// order.
    Ask([String; 3]),
}

/// Memoized access to notmuch history counts for one run: one cache for domains
/// and one for addresses.
pub struct Notmuch {
    pub domain_counts: StringHashMap<ClassCounts>,
    pub addr_counts: StringHashMap<ClassCounts>,
    /// The date range that every count is bounded to, where there is one.
    pub date_bound: Option<String>,
}

/// Whether `q` holds the three count queries for senders that match `pattern`.
pub open spec fn are_count_queries(
    q: Seq<String>,
    pattern: Seq<char>,
    date_bound: Option<Seq<char>>,
) -> bool {
    &&& q.len() == 3
    &&& forall|p: Priority| q[#[trigger] p.index() as int]@ == count_query(p, pattern, date_bound)
}

/// Whether `r` is the answer of a cache for `key`: the counts that it holds, else
/// the queries for senders that match `pattern`.
pub open spec fn is_lookup(
    r: Lookup,
    known: Map<Seq<char>, ClassCounts>,
    key: Seq<char>,
    pattern: Seq<char>,
    date_bound: Option<Seq<char>>,
) -> bool {
    match r {
        Lookup::Known(c) => known.contains_key(key) && known[key] == c,
        Lookup::Ask(q) => !known.contains_key(key) && are_count_queries(q@, pattern, date_bound),
    }
}

impl Notmuch {
    /// A fresh adapter with empty caches.
    pub fn new() -> (r: Notmuch)
        ensures
            r.domain_counts@ == Map::<Seq<char>, ClassCounts>::empty(),
            r.addr_counts@ == Map::<Seq<char>, ClassCounts>::empty(),
            r.date_bound is None,
    {
        Notmuch {
            domain_counts: StringHashMap::new(),
            addr_counts: StringHashMap::new(),
            date_bound: None,
        }
    }

    /// A fresh adapter with empty caches whose counts are bounded to the notmuch
    /// date range `range`.
    pub fn with_date_bound(range: &str) -> (r: Notmuch)
        ensures
            r.domain_counts@ == Map::<Seq<char>, ClassCounts>::empty(),
            r.addr_counts@ == Map::<Seq<char>, ClassCounts>::empty(),
            opt_view(r.date_bound) == Some(range@),
    {
        Notmuch {
            domain_counts: StringHashMap::new(),
            addr_counts: StringHashMap::new(),
            date_bound: Some(range.to_owned()),
        }
    }

    /// Confirmed-label class counts for one registrable domain. The senders on
    /// that domain are matched with `*@<domain>`.
    pub fn domain_counts(&self, domain: &str) -> (r: Lookup)
        ensures
            is_lookup(
                r,
                self.domain_counts@,
                domain@,
                "*@"@ + domain@,
                opt_view(self.date_bound),
            ),
    {
        match self.domain_counts.get(domain) {
            Some(c) => Lookup::Known(*c),
            None => {
                let mut pattern = "*@".to_owned();
                pattern.append(domain);
                Lookup::Ask(self.count_queries(&pattern))
            },
        }
    }

    /// Confirmed-label class counts for one exact address.
    pub fn addr_counts(&self, addr: &str) -> (r: Lookup)
        ensures
            is_lookup(r, self.addr_counts@, addr@, addr@, opt_view(self.date_bound)),
    {
        match self.addr_counts.get(addr) {
            Some(c) => Lookup::Known(*c),
            None => Lookup::Ask(self.count_queries(addr)),
        }
    }

    /// The three count queries for senders that match `pattern`.
    pub fn count_queries(&self, pattern: &str) -> (r: [String; 3])
        ensures
            are_count_queries(r@, pattern@, opt_view(self.date_bound)),
    {
        let low = self.count_query(Priority::P1, pattern);
        let normal = self.count_query(Priority::P2, pattern);
        let high = self.count_query(Priority::P3, pattern);
        [low, normal, high]
    }

    fn count_query(&self, p: Priority, pattern: &str) -> (r: String)
        ensures
            r@ == count_query(p, pattern@, opt_view(self.date_bound)),
    {
        let mut query = "tag:".to_owned();
        query.append(p.to_tag());
        query.append(" and ");
        query.append(CONFIRMED_FILTER);
        query.append(" and from:");
        query.append(pattern);
        match &self.date_bound {
            Some(range) => append_date_clause(query, range),
            None => query,
        }
    }

    /// Take the answers to the three queries for a domain, and keep the counts
    /// so that the domain is not asked for again in this run.
    pub fn record_domain_counts(&mut self, domain: &str, outputs: &[RunOutput; 3]) -> (r:
        ClassCounts)
        ensures
            forall|i: int| 0 <= i < 3 ==> r@[i] == counted_or_zero(#[trigger] outputs@[i]),
            final(self).domain_counts@ == old(self).domain_counts@.insert(domain@, r),
            final(self).addr_counts@ == old(self).addr_counts@,
            final(self).date_bound == old(self).date_bound,
    {
        let counts = counts_for_from(outputs);
        self.domain_counts.insert(domain.to_owned(), counts);
        counts
    }

    /// Take the answers to the three queries for an address, and keep the counts
    /// so that the address is not asked for again in this run.
    pub fn record_addr_counts(&mut self, addr: &str, outputs: &[RunOutput; 3]) -> (r: ClassCounts)
        ensures
            forall|i: int| 0 <= i < 3 ==> r@[i] == counted_or_zero(#[trigger] outputs@[i]),
            final(self).addr_counts@ == old(self).addr_counts@.insert(addr@, r),
            final(self).domain_counts@ == old(self).domain_counts@,
            final(self).date_bound == old(self).date_bound,
    {
        let counts = counts_for_from(outputs);
        self.addr_counts.insert(addr.to_owned(), counts);
        counts
    }
}

fn append_date_clause(query: String, range: &str) -> (r: String)
    ensures
        r@ == query@ + date_clause(Some(range@)),
{
    let mut out = query;
    out.append(" and date:");
    out.append(range);
    assert(out@ == query@ + (" and date:"@ + range@));
    out
}

/// The three counts that the answers to a sender's count queries stand for. An
/// answer that gives no count degrades its class to 0 rather than aborting.
pub fn counts_for_from(outputs: &[RunOutput; 3]) -> (r: ClassCounts)
    ensures
        forall|i: int| 0 <= i < 3 ==> r@[i] == counted_or_zero(#[trigger] outputs@[i]),
{
    let low = count_or_zero(&outputs[0]);
    let normal = count_or_zero(&outputs[1]);
    let high = count_or_zero(&outputs[2]);
    [low, normal, high]
}

fn count_or_zero(output: &RunOutput) -> (r: u32)
    ensures
        r == counted_or_zero(*output),
{
    match count(output) {
        Ok(n) => n,
        Err(_) => 0,
    }
}

/// The message count that `notmuch count` answered. An error names the output
/// that is no number, or is why notmuch failed.
pub fn count(output: &RunOutput) -> (r: Result<u32, String>)
    ensures
        match *output {
            Ok(text) => match parsed_u32(trim(text@)) {
                Ok(n) => r == Ok::<u32, String>(n),
                Err(e) => r matches Err(m) && m@ == "unparsable count "@ + debug_text(text@)
                    + ": "@ + e.text(),
            },
            Err(e) => r matches Err(m) && m@ == e@,
        },
{
    match output {
        Ok(text) => match parse_u32(&trim_str(text)) {
            Ok(n) => Ok(n),
            Err(e) => {
                let mut message = "unparsable count ".to_owned();
                message.append(&debug_string(text));
                message.append(": ");
                message.append(e.message());
                Err(message)
            },
        },
        Err(e) => Err(e.clone()),
    }
}

/// The arguments of the notmuch run that counts what matches `query`.
pub fn count_args(query: &str) -> (r: Vec<String>)
    ensures
        str_views(r@) == seq!["count"@, query@],
{
    let mut args: Vec<String> = Vec::new();
    args.push("count".to_owned());
    args.push(query.to_owned());
    args
}

/// The arguments of the notmuch run that selects the files of all confirmed
/// labels, of all dates: the training selection. `--duplicate=1` makes notmuch
/// give one file per message, however many copies of it there are.
pub fn confirmed_label_files() -> (r: Vec<String>)
    ensures
        str_views(r@) == seq!["search"@, "--output=files"@, "--duplicate=1"@, confirmed_query()],
{
    let mut query = "(tag:".to_owned();
    query.append(Priority::P1.to_tag());
    query.append(" or tag:");
    query.append(Priority::P2.to_tag());
    query.append(" or tag:");
    query.append(Priority::P3.to_tag());
    query.append(") and ");
    query.append(CONFIRMED_FILTER);
    training_search(query)
}

/// The arguments of the notmuch run that selects the files of the confirmed
/// labels of priority `p`, within `range` where there is one. The query supplies
/// the label, so that no file's tags need to be read.
pub fn confirmed_label_files_dated(p: Priority, range: Option<&str>) -> (r: Vec<String>)
    ensures
        str_views(r@) == seq![
            "search"@,
            "--output=files"@,
            "--duplicate=1"@,
            confirmed_query_dated(
                p,
                match range {
                    Some(s) => Some(s@),
                    None => None,
                },
            ),
        ],
{
    let mut query = "tag:".to_owned();
    query.append(p.to_tag());
    query.append(" and ");
    query.append(CONFIRMED_FILTER);
    let query = match range {
        Some(s) => append_date_clause(query, s),
        None => query,
    };
    training_search(query)
}

fn training_search(query: String) -> (r: Vec<String>)
    ensures
        str_views(r@) == seq!["search"@, "--output=files"@, "--duplicate=1"@, query@],
{
    let mut args: Vec<String> = Vec::new();
    args.push("search".to_owned());
    args.push("--output=files".to_owned());
    args.push("--duplicate=1".to_owned());
    args.push(query);
    args
}

/// The arguments of the notmuch run that selects the files of the mail on or
/// after `cutoff`.
pub fn new_mail_files(cutoff: &str) -> (r: Vec<String>)
    ensures
        str_views(r@) == seq!["search"@, "--output=files"@, "date:"@ + cutoff@ + ".."@],
{
    let mut query = "date:".to_owned();
    query.append(cutoff);
    query.append("..");
    let mut args: Vec<String> = Vec::new();
    args.push("search".to_owned());
    args.push("--output=files".to_owned());
    args.push(query);
    args
}

/// The paths that the output of a search gives: one per line, without the empty
/// lines.
pub open spec fn paths_in(text: Seq<char>) -> Seq<Seq<char>> {
    lines(text).filter(|l: Seq<char>| l.len() > 0)
}

/// The files that `notmuch search --output=files` answered: one path per line,
/// without the empty lines. An error is why notmuch failed.
pub fn search_files(output: &RunOutput) -> (r: Result<Vec<String>, String>)
    ensures
        match *output {
            Ok(text) => r matches Ok(files) && str_views(files@) == paths_in(text@),
            Err(e) => r matches Err(m) && m@ == e@,
        },
{
    let text = match output {
        Ok(text) => text,
        Err(e) => {
            return Err(e.clone());
        },
    };
    let v = to_chars(text);
    let all = lines_of(&v);
    let ghost ls = lines(text@);
    let ghost keep = |l: Seq<char>| l.len() > 0;
    let mut files: Vec<String> = Vec::new();
    let mut i: usize = 0;
    while i < all.len()
        invariant
            i <= all@.len(),
            ls == views(all@),
            keep == (|l: Seq<char>| l.len() > 0),
            str_views(files@) == ls.take(i as int).filter(keep),
        decreases all@.len() - i,
    {
        let line = &all[i];
        assert(line@ == ls[i as int]);
        assert(ls.take(i + 1).drop_last() == ls.take(i as int));
        let ghost before = str_views(files@);
        if line.len() > 0 {
            let file = from_chars(line);
            files.push(file);
            assert(str_views(files@) == before.push(line@));
        }
        assert(str_views(files@) == ls.take(i + 1).filter(keep)) by {
            reveal(Seq::filter);
        }
        i += 1;
    }
    assert(ls.take(i as int) == ls);
    Ok(files)
}

/// A message file and the priority of its message.
#[derive(Debug)]
pub struct LabeledFile {
    pub path: String,
    pub label: Priority,
}

impl View for LabeledFile {
    type V = (Seq<char>, Priority);

    open spec fn view(&self) -> (Seq<char>, Priority) {
        (self.path@, self.label)
    }
}

/// The views of a sequence of labeled files.
pub open spec fn file_views(files: Seq<LabeledFile>) -> Seq<(Seq<char>, Priority)> {
    files.map_values(|f: LabeledFile| f@)
}

/// The paths, each with the priority `p`.
pub open spec fn labeled(paths: Seq<Seq<char>>, p: Priority) -> Seq<(Seq<char>, Priority)> {
    paths.map_values(|path: Seq<char>| (path, p))
}

fn append_labeled(files: &mut Vec<LabeledFile>, paths: Vec<String>, p: Priority)
    ensures
        file_views(final(files)@) == file_views(old(files)@) + labeled(str_views(paths@), p),
{
    let mut i: usize = 0;
    let ghost before = file_views(files@);
    while i < paths.len()
        invariant
            i <= paths@.len(),
            file_views(files@) == before + labeled(str_views(paths@), p).take(i as int),
        decreases paths@.len() - i,
    {
        let ghost sofar = file_views(files@);
        files.push(LabeledFile { path: paths[i].clone(), label: p });
        assert(file_views(files@) == sofar.push((paths@[i as int]@, p)));
        assert(labeled(str_views(paths@), p).take(i + 1) == labeled(str_views(paths@), p).take(
            i as int,
        ).push((paths@[i as int]@, p)));
        i += 1;
    }
    assert(labeled(str_views(paths@), p).take(i as int) == labeled(str_views(paths@), p));
}

/// The labels that the answers to three searches list, in class-index order: each
/// path with the priority whose search gave it. The first search that failed is
/// the error.
pub open spec fn listing(outputs: Seq<RunOutput>) -> Result<
    Seq<(Seq<char>, Priority)>,
    Seq<char>,
> {
    match (outputs[0], outputs[1], outputs[2]) {
        (Ok(low), Ok(normal), Ok(high)) => Ok(
            labeled(paths_in(low@), Priority::P1) + labeled(paths_in(normal@), Priority::P2)
                + labeled(paths_in(high@), Priority::P3),
        ),
        (Err(e), _, _) => Err(e@),
        (_, Err(e), _) => Err(e@),
        (_, _, Err(e)) => Err(e@),
    }
}

/// The confirmed labels that the three searches of
/// [`confirmed_label_files_dated`] answered, in class-index order: each file with
/// the priority whose search gave it. The first search that failed is the error.
pub fn labeled_files(outputs: &[RunOutput; 3]) -> (r: Result<Vec<LabeledFile>, String>)
    ensures
        match listing(outputs@) {
            Ok(files) => r matches Ok(f) && file_views(f@) == files,
            Err(e) => r matches Err(m) && m@ == e,
        },
{
    let mut files: Vec<LabeledFile> = Vec::new();
    match search_files(&outputs[0]) {
        Ok(paths) => append_labeled(&mut files, paths, Priority::P1),
        Err(e) => {
            return Err(e);
        },
    }
    match search_files(&outputs[1]) {
        Ok(paths) => append_labeled(&mut files, paths, Priority::P2),
        Err(e) => {
            return Err(e);
        },
    }
    match search_files(&outputs[2]) {
        Ok(paths) => append_labeled(&mut files, paths, Priority::P3),
        Err(e) => {
            return Err(e);
        },
    }
    Ok(files)
}

/// How a run of the notmuch program ended.
#[derive(Debug)]
pub enum RunEnd {
    /// It could not be started, for this reason.
    NotStarted(String),
    /// It failed, with this status and what it wrote to standard error.
    Failed { status: String, stderr: String },
    /// It succeeded, but wrote something that is no text, for this reason.
    NotText(String),
    /// It succeeded, and wrote this.
    Output(String),
}

/// How the arguments of a run are shown: each quoted, in brackets.
pub open spec fn shown(args: Seq<Seq<char>>) -> Seq<char> {
    "["@ + join(args.map_values(|a: Seq<char>| debug_text(a)), ", "@) + "]"@
}

fn show_args(args: &[String]) -> (r: String)
    ensures
        r@ == shown(str_views(args@)),
{
    let ghost quoted = str_views(args@).map_values(|a: Seq<char>| debug_text(a));
    let mut inner = String::new();
    let mut i: usize = 0;
    while i < args.len()
        invariant
            i <= args@.len(),
            quoted == str_views(args@).map_values(|a: Seq<char>| debug_text(a)),
            inner@ == join(quoted.take(i as int), ", "@),
        decreases args@.len() - i,
    {
        assert(quoted.take(i + 1).drop_last() == quoted.take(i as int));
        if i > 0 {
            inner.append(", ");
        }
        inner.append(&debug_string(&args[i]));
        assert(inner@ == join(quoted.take(i + 1), ", "@));
        i += 1;
    }
    assert(quoted.take(i as int) == quoted);
    let mut out = "[".to_owned();
    out.append(&inner);
    out.append("]");
    out
}

/// What a run of notmuch with the arguments `args` came to. An error carries the
/// arguments and the reason, so that a failing query can be found.
pub fn run_output(args: &[String], end: RunEnd) -> (r: RunOutput)
    ensures
        match end {
            RunEnd::NotStarted(e) => r matches Err(m) && m@ == "spawning notmuch "@ + shown(
                str_views(args@),
            ) + ": "@ + e@,
            RunEnd::Failed { status, stderr } => r matches Err(m) && m@ == "notmuch "@ + shown(
                str_views(args@),
            ) + " exited "@ + status@ + ": "@ + trim(stderr@),
            RunEnd::NotText(e) => r matches Err(m) && m@ == "notmuch "@ + shown(str_views(args@))
                + " produced non-utf8 output: "@ + e@,
            RunEnd::Output(text) => r == Ok::<String, String>(text),
        },
{
    match end {
        RunEnd::NotStarted(e) => {
            let mut m = "spawning notmuch ".to_owned();
            m.append(&show_args(args));
            m.append(": ");
            m.append(&e);
            Err(m)
        },
        RunEnd::Failed { status, stderr } => {
            let mut m = "notmuch ".to_owned();
            m.append(&show_args(args));
            m.append(" exited ");
            m.append(&status);
            m.append(": ");
            m.append(&trim_str(&stderr));
            Err(m)
        },
        RunEnd::NotText(e) => {
            let mut m = "notmuch ".to_owned();
            m.append(&show_args(args));
            m.append(" produced non-utf8 output: ");
            m.append(&e);
            Err(m)
        },
        RunEnd::Output(text) => Ok(text),
    }
}

/// The note that a count failed, and what that stands for.
pub open spec fn count_note(query: Seq<char>, error: Seq<char>) -> Seq<char> {
    "notmuch count failed for "@ + debug_text(query) + ", treating as no history: "@ + error
}

/// The note to log for a count query that failed.
pub fn count_failure_note(query: &str, error: &str) -> (r: String)
    ensures
        r@ == count_note(query@, error@),
{
    let mut note = "notmuch count failed for ".to_owned();
    note.append(&debug_string(query));
    note.append(", treating as no history: ");
    note.append(error);
    note
}

proof fn lemma_contains_middle(a: Seq<char>, p: Seq<char>, b: Seq<char>)
    ensures
        contains(a + p + b, p),
{
    assert((a + p + b).subrange(a.len() as int, (a.len() + p.len()) as int) == p);
    assert(occurs_at(a + p + b, p, a.len() as int));
}

/// Every history count carries the confirmed-label filter, its own tag and the
/// sender it is for.
pub proof fn law_counts_are_confirmed(
    p: Priority,
    pattern: Seq<char>,
    date_bound: Option<Seq<char>>,
)
    ensures
        contains(count_query(p, pattern, date_bound), CONFIRMED_FILTER@),
        contains(count_query(p, pattern, date_bound), "tag:"@ + p.tag()),
        contains(count_query(p, pattern, date_bound), " and from:"@ + pattern),
{
    let q = count_query(p, pattern, date_bound);
    let tag = "tag:"@ + p.tag();
    let from = " and from:"@ + pattern;
    let bound = date_clause(date_bound);
    assert(q == (tag + " and "@) + CONFIRMED_FILTER@ + (from + bound));
    lemma_contains_middle(tag + " and "@, CONFIRMED_FILTER@, from + bound);
    assert(q == Seq::<char>::empty() + tag + (" and "@ + CONFIRMED_FILTER@ + from + bound));
    lemma_contains_middle(
        Seq::<char>::empty(),
        tag,
        " and "@ + CONFIRMED_FILTER@ + from + bound,
    );
    assert(q == (tag + " and "@ + CONFIRMED_FILTER@) + from + bound);
    lemma_contains_middle(tag + " and "@ + CONFIRMED_FILTER@, from, bound);
}

/// Every training selection carries the confirmed-label filter.
pub proof fn law_selections_are_confirmed(p: Priority, range: Option<Seq<char>>)
    ensures
        contains(confirmed_query(), CONFIRMED_FILTER@),
        contains(confirmed_query_dated(p, range), CONFIRMED_FILTER@),
{
    let front = "(tag:"@ + Priority::P1.tag() + " or tag:"@ + Priority::P2.tag() + " or tag:"@
        + Priority::P3.tag() + ") and "@;
    assert(confirmed_query() == front + CONFIRMED_FILTER@ + Seq::<char>::empty());
    lemma_contains_middle(front, CONFIRMED_FILTER@, Seq::<char>::empty());
    lemma_contains_middle("tag:"@ + p.tag() + " and "@, CONFIRMED_FILTER@, date_clause(range));
}

/// A sender is asked for once: after its counts were recorded, every lookup gives
/// them, whatever else was recorded before.
pub proof fn law_recorded_counts_are_known(
    r: Lookup,
    known: Map<Seq<char>, ClassCounts>,
    key: Seq<char>,
    counts: ClassCounts,
    pattern: Seq<char>,
    date_bound: Option<Seq<char>>,
)
    requires
        is_lookup(r, known.insert(key, counts), key, pattern, date_bound),
    ensures
        r == Lookup::Known(counts),
{
}

/// Recording one sender leaves the others as they were.
pub proof fn law_other_senders_are_untouched(
    r: Lookup,
    known: Map<Seq<char>, ClassCounts>,
    key: Seq<char>,
    other: Seq<char>,
    counts: ClassCounts,
    pattern: Seq<char>,
    date_bound: Option<Seq<char>>,
)
    requires
        key != other,
    ensures
        is_lookup(r, known.insert(key, counts), other, pattern, date_bound) <==> is_lookup(
            r,
            known,
            other,
            pattern,
            date_bound,
        ),
{
}

} // verus!
