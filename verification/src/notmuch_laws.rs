//! What the queries ask for, and what becomes of the answers: no path, count or label
//! is lost, added or taken for another.

use vstd::prelude::*;

use crate::history::ClassCounts;
use crate::labels::Priority;
use crate::notmuch::{
    confirmed_query, confirmed_query_dated, count_note, count_query, counted, counted_or_zero,
    file_views, is_lookup, listing, opt_view, paths_in, shown, str_views, LabeledFile, Lookup,
    RunOutput, CONFIRMED_FILTER,
};
use crate::numbers::{decimal, is_numeral, law_decimal_is_canonical, law_numerals_are_read, number};
use crate::string_laws::{
    is_plain_line, law_first_line, law_last_line, law_lines_round_trip, law_trim,
};
use crate::strings::{debug_text, is_white, join, lines, trim};
use crate::text_laws::lemma_filter_all;

verus! {

/// The answer to a search is read line by line: a path is all of its line, whatever
/// characters it holds, an empty line is no path, and the paths stay in order.
pub proof fn law_paths(path: Seq<char>, rest: Seq<char>)
    requires
        path.len() > 0,
        forall|i: int| 0 <= i < path.len() ==> #[trigger] path[i] != '\n',
    ensures
        paths_in(Seq::empty()).len() == 0,
        paths_in(path) == seq![path],
        path.last() != '\r' ==> paths_in(path + seq!['\n'] + rest) == seq![path] + paths_in(rest),
        paths_in(path + seq!['\r', '\n'] + rest) == seq![path] + paths_in(rest),
        paths_in(seq!['\n'] + rest) == paths_in(rest),
        paths_in(seq!['\r', '\n'] + rest) == paths_in(rest),
{
    let keep = |l: Seq<char>| l.len() > 0;
    let e = Seq::<char>::empty();
    law_last_line(path);
    law_last_line(e);
    law_first_line(path, rest);
    law_first_line(e, rest);
    assert(e + seq!['\n'] + rest == seq!['\n'] + rest);
    assert(e + seq!['\r', '\n'] + rest == seq!['\r', '\n'] + rest);
    assert(lines(e) == Seq::<Seq<char>>::empty());
    assert(seq![path].filter(keep) == seq![path]) by {
        reveal(Seq::filter);
        assert(seq![path].drop_last() == Seq::<Seq<char>>::empty());
        assert(seq![path].drop_last().filter(keep) == Seq::<Seq<char>>::empty());
        assert(seq![path].last() == path);
        assert(Seq::<Seq<char>>::empty().push(path) == seq![path]);
    }
    assert(seq![e].filter(keep) == Seq::<Seq<char>>::empty()) by {
        reveal(Seq::filter);
        assert(seq![e].drop_last() == Seq::<Seq<char>>::empty());
        assert(seq![e].drop_last().filter(keep) == Seq::<Seq<char>>::empty());
        assert(seq![e].last() == e);
    }
    assert(paths_in(e).len() == 0) by {
        reveal(Seq::filter);
    }
    Seq::filter_distributes_over_add(seq![path], lines(rest), keep);
    Seq::filter_distributes_over_add(seq![e], lines(rest), keep);
    assert(Seq::<Seq<char>>::empty() + paths_in(rest) == paths_in(rest));
}

/// Paths that are written one per line are read back, all of them and in order.
pub proof fn law_paths_round_trip(paths: Seq<Seq<char>>)
    requires
        paths.len() > 0,
        forall|i: int|
            0 <= i < paths.len() ==> is_plain_line(#[trigger] paths[i]) && paths[i].len() > 0,
    ensures
        paths_in(join(paths, seq!['\n']) + seq!['\n']) == paths,
{
    law_lines_round_trip(paths);
    lemma_filter_all(paths, |l: Seq<char>| l.len() > 0);
}

/// Three searches that succeed list every path of each, in order, with the priority
/// whose search gave it: the low ones first, the high ones last.
pub proof fn law_listing(outputs: Seq<RunOutput>, i: int)
    requires
        outputs.len() == 3,
        outputs[0] is Ok,
        outputs[1] is Ok,
        outputs[2] is Ok,
        0 <= i,
    ensures
        ({
            let low = paths_in(outputs[0]->Ok_0@);
            let normal = paths_in(outputs[1]->Ok_0@);
            let high = paths_in(outputs[2]->Ok_0@);
            let n = low.len() + normal.len();
            &&& listing(outputs) is Ok
            &&& listing(outputs)->Ok_0.len() == n + high.len()
            &&& i < low.len() ==> listing(outputs)->Ok_0[i] == (low[i], Priority::P1)
            &&& i < normal.len() ==> listing(outputs)->Ok_0[low.len() + i] == (
                normal[i],
                Priority::P2,
            )
            &&& i < high.len() ==> listing(outputs)->Ok_0[n + i] == (high[i], Priority::P3)
        }),
{
}

/// A search that failed makes the listing fail, for the reason of the first that did.
pub proof fn law_listing_fails(outputs: Seq<RunOutput>)
    requires
        outputs.len() == 3,
    ensures
        outputs[0] is Err ==> listing(outputs) == Err::<Seq<(Seq<char>, Priority)>, Seq<char>>(
            outputs[0]->Err_0@,
        ),
        outputs[0] is Ok && outputs[1] is Err ==> listing(outputs) == Err::<
            Seq<(Seq<char>, Priority)>,
            Seq<char>,
        >(outputs[1]->Err_0@),
        outputs[0] is Ok && outputs[1] is Ok && outputs[2] is Err ==> listing(outputs) == Err::<
            Seq<(Seq<char>, Priority)>,
            Seq<char>,
        >(outputs[2]->Err_0@),
{
}

/// A count query asks for the tag of one priority, the confirmed labels and all of the
/// sender pattern, and for nothing else; a date range is one more condition.
pub proof fn law_count_query(p: Priority, pattern: Seq<char>, range: Seq<char>)
    ensures
        CONFIRMED_FILTER@ == "not (tag:auto and tag:unread)"@,
        count_query(p, pattern, None) == "tag:"@ + p.tag() + " and "@
            + "not (tag:auto and tag:unread)"@ + " and from:"@ + pattern,
        count_query(p, pattern, Some(range)) == count_query(p, pattern, None) + " and date:"@
            + range,
{
    let q = "tag:"@ + p.tag() + " and "@ + "not (tag:auto and tag:unread)"@ + " and from:"@
        + pattern;
    assert(q + Seq::<char>::empty() == q);
    assert(q + (" and date:"@ + range) == q + " and date:"@ + range);
}

/// A label query asks for the tag of one priority and the confirmed labels, and for
/// nothing else but a date range; the training query asks for all three tags.
pub proof fn law_label_query(p: Priority, range: Seq<char>)
    ensures
        confirmed_query_dated(p, None) == "tag:"@ + p.tag() + " and "@
            + "not (tag:auto and tag:unread)"@,
        confirmed_query_dated(p, Some(range)) == confirmed_query_dated(p, None) + " and date:"@
            + range,
        confirmed_query() == "(tag:"@ + "prio-low"@ + " or tag:"@ + "prio-normal"@ + " or tag:"@
            + "prio-high"@ + ") and "@ + "not (tag:auto and tag:unread)"@,
{
    let q = "tag:"@ + p.tag() + " and "@ + "not (tag:auto and tag:unread)"@;
    assert(q + Seq::<char>::empty() == q);
    assert(q + (" and date:"@ + range) == q + " and date:"@ + range);
}

/// A sender that is known is never asked for; one that is not is asked for with one
/// query for each priority, in class-index order.
pub proof fn law_lookup(
    r: Lookup,
    known: Map<Seq<char>, ClassCounts>,
    key: Seq<char>,
    pattern: Seq<char>,
    date_bound: Option<Seq<char>>,
)
    requires
        is_lookup(r, known, key, pattern, date_bound),
    ensures
        known.contains_key(key) ==> r == Lookup::Known(known[key]),
        !known.contains_key(key) ==> r is Ask,
        r matches Lookup::Ask(q) ==> q@[0]@ == count_query(Priority::P1, pattern, date_bound)
            && q@[1]@ == count_query(Priority::P2, pattern, date_bound) && q@[2]@ == count_query(
            Priority::P3,
            pattern,
            date_bound,
        ),
{
    if let Lookup::Ask(q) = r {
        assert(q@[Priority::P1.index() as int]@ == count_query(Priority::P1, pattern, date_bound));
        assert(q@[Priority::P2.index() as int]@ == count_query(Priority::P2, pattern, date_bound));
        assert(q@[Priority::P3.index() as int]@ == count_query(Priority::P3, pattern, date_bound));
    }
}

/// A count that is written with any whitespace around it is read as that count.
pub proof fn law_count_is_read(output: RunOutput, l: Seq<char>, n: u32, r: Seq<char>)
    requires
        forall|i: int| 0 <= i < l.len() ==> is_white(#[trigger] l[i]),
        forall|i: int| 0 <= i < r.len() ==> is_white(#[trigger] r[i]),
        output is Ok,
        output->Ok_0@ == l + decimal(n as nat) + r,
    ensures
        counted(output) == Some(n),
        counted_or_zero(output) == n,
{
    let d = decimal(n as nat);
    law_decimal_is_canonical(n as nat);
    assert('0' <= d[0] <= '9' && '0' <= d[d.len() - 1] <= '9');
    law_trim(l, d, r);
    assert(is_numeral(d));
    law_numerals_are_read(d, n);
}

/// Nothing else is read as a count: an answer gives one only if it is a numeral, and an
/// answer that gives none stands for no history.
pub proof fn law_no_count_is_made_up(output: RunOutput)
    ensures
        counted(output) matches Some(n) ==> output is Ok && exists|d: Seq<char>|
            (trim(output->Ok_0@) == d || trim(output->Ok_0@) == seq!['+'] + d) && #[trigger]
                is_numeral(d) && number(d) == n,
        counted(output) matches Some(n) ==> counted_or_zero(output) == n,
        counted(output) is None ==> counted_or_zero(output) == 0,
{
    if let Some(n) = counted(output) {
        law_numerals_are_read(trim(output->Ok_0@), n);
    }
}

/// Every argument of a run is shown, quoted and in order.
pub proof fn law_every_argument_is_shown(args: Seq<Seq<char>>)
    ensures
        shown(args) == "["@ + join(Seq::new(args.len(), |i: int| debug_text(args[i])), ", "@)
            + "]"@,
{
    assert(args.map_values(|a: Seq<char>| debug_text(a)) == Seq::new(
        args.len(),
        |i: int| debug_text(args[i]),
    ));
}

/// The note on a failed count shows the query and the whole reason.
pub proof fn law_count_note(query: Seq<char>, error: Seq<char>)
    ensures
        count_note(query, error) == "notmuch count failed for "@ + debug_text(query)
            + ", treating as no history: "@ + error,
{
}

/// Texts, paths and labels are taken as they are, one by one.
pub proof fn law_views(v: Seq<String>, files: Seq<LabeledFile>, s: Option<String>, i: int)
    ensures
        str_views(v).len() == v.len(),
        0 <= i < v.len() ==> str_views(v)[i] == v[i]@,
        file_views(files).len() == files.len(),
        0 <= i < files.len() ==> file_views(files)[i] == (files[i].path@, files[i].label),
        s matches Some(t) ==> opt_view(s) == Some(t@),
        s is None ==> opt_view(s) is None,
{
}

} // verus!
