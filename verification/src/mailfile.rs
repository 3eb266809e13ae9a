//! The contents of a message file, turned into a [`RawEmail`].
//!
//! Only the raw header and body fields are pulled out here, preferring the
//! text/plain part and falling back to HTML; cleaning is left to the text module.

use vstd::prelude::*;

use crate::email::RawEmail;
use crate::rawmail::{can_parse, parsable};
use crate::strings::{trim, trim_str};

verus! {

/// A body part of a message.
#[derive(Debug, Clone)]
pub enum BodyPart {
    /// Plain text.
    Text(String),
    /// HTML.
    Html(String),
    /// Anything else.
    Other,
}

/// The model of a [`BodyPart`].
pub enum BodyPartView {
    Text(Seq<char>),
    Html(Seq<char>),
    Other,
}

impl View for BodyPart {
    type V = BodyPartView;

    open spec fn view(&self) -> BodyPartView {
        match self {
            BodyPart::Text(t) => BodyPartView::Text(t@),
            BodyPart::Html(h) => BodyPartView::Html(h@),
            BodyPart::Other => BodyPartView::Other,
        }
    }
}

/// What is read from a parsed message.
#[derive(Debug, Clone)]
pub struct MailFields {
    /// The From header as it stands in the message.
    pub from: Option<String>,
    /// The decoded Subject header.
    pub subject: Option<String>,
    /// The parts that are to be shown as text, in order.
    pub text_bodies: Vec<BodyPart>,
    /// The parts that are to be shown as HTML, in order.
    pub html_bodies: Vec<BodyPart>,
    /// The Date header in unix seconds.
    pub timestamp: Option<i64>,
    /// The Message-ID header without its angle brackets.
    pub message_id: Option<String>,
}

/// The model of [`MailFields`].
pub struct MailView {
    pub from: Option<Seq<char>>,
    pub subject: Option<Seq<char>>,
    pub text_bodies: Seq<BodyPartView>,
    pub html_bodies: Seq<BodyPartView>,
    pub timestamp: Option<i64>,
    pub message_id: Option<Seq<char>>,
}

/// The view of an optional string.
pub open spec fn text_view(s: Option<String>) -> Option<Seq<char>> {
    match s {
        Some(t) => Some(t@),
        None => None,
    }
}

/// The views of body parts.
pub open spec fn part_views(parts: Seq<BodyPart>) -> Seq<BodyPartView> {
    parts.map_values(|p: BodyPart| p@)
}

impl View for MailFields {
    type V = MailView;

    open spec fn view(&self) -> MailView {
        MailView {
            from: text_view(self.from),
            subject: text_view(self.subject),
            text_bodies: part_views(self.text_bodies@),
            html_bodies: part_views(self.html_bodies@),
            timestamp: self.timestamp,
            message_id: text_view(self.message_id),
        }
    }
}

/// What `mail_parser` reads from the bytes of a message; `None` where it finds
/// no header in them.
pub uninterp spec fn parsed_mail(raw: Seq<u8>) -> Option<MailView>;

/// `mail_parser::MessageParser::parse` with the default settings, and the fields
/// of the message that comes out: `header_raw` of the From header, `subject`,
/// the parts of `text_bodies` and `html_bodies` in their order, `date` as a
/// timestamp, and `message_id`. The grammar of messages is left unsaid. What
/// [`parsable`] leaves out is what the parser does not get through, in a build that
/// checks its arithmetic and assertions:
///
/// - It keeps its offsets and counters in 32 bits.
/// - Where a soft line break ends a quoted-printable part, it takes back a line end
///   that it may not have written.
/// - It takes the absolute value of the zone in a Received header.
/// - Where a message in a part is nothing but another message, it restores only one
///   of the two at the end of the part, and then asserts that it finds its place.
/// - It frees nested messages by recursion.
/// - It decodes an encoded message and parses it in turn, so that any of these may
///   come up in what does not stand in the file.
#[verifier::external_body]
fn parse_mail(raw: &[u8]) -> (r: Option<MailFields>)
    requires
        parsable(raw@),
    ensures
        match r {
            Some(m) => parsed_mail(raw@) == Some(m@),
            None => parsed_mail(raw@) is None,
        },
{
    let message = mail_parser::MessageParser::default().parse(raw)?;
    let body = |p: &mail_parser::MessagePart<'_>| match &p.body {
        mail_parser::PartType::Text(t) => BodyPart::Text(t.to_string()),
        mail_parser::PartType::Html(h) => BodyPart::Html(h.to_string()),
        _ => BodyPart::Other,
    };
    Some(MailFields {
        from: message.header_raw("From").map(str::to_string),
        subject: message.subject().map(str::to_string),
        text_bodies: message.text_bodies().map(body).collect(),
        html_bodies: message.html_bodies().map(body).collect(),
        timestamp: message.date().map(|d| d.to_timestamp()),
        message_id: message.message_id().map(str::to_string),
    })
}

/// The first plain text among `parts`.
pub open spec fn first_text(parts: Seq<BodyPartView>) -> Option<Seq<char>>
    decreases parts.len(),
{
    if parts.len() == 0 {
        None
    } else if let BodyPartView::Text(t) = parts[0] {
        Some(t)
    } else {
        first_text(parts.drop_first())
    }
}

/// The first HTML among `parts`.
pub open spec fn first_html(parts: Seq<BodyPartView>) -> Option<Seq<char>>
    decreases parts.len(),
{
    if parts.len() == 0 {
        None
    } else if let BodyPartView::Html(h) = parts[0] {
        Some(h)
    } else {
        first_html(parts.drop_first())
    }
}

/// The best available body text of a message: the first plain text among the
/// parts to be shown, wherever it stands, else the first HTML as it stands, else
/// nothing.
pub open spec fn best_body(m: MailView) -> Seq<char> {
    let parts = m.text_bodies + m.html_bodies;
    match first_text(parts) {
        Some(t) => t,
        None => or_empty(first_html(parts)),
    }
}

/// The text, or nothing where there is none.
pub open spec fn or_empty(s: Option<Seq<char>>) -> Seq<char> {
    match s {
        Some(t) => t,
        None => Seq::empty(),
    }
}

/// Whether `email` is what the fields `m` of a message make.
pub open spec fn is_email_of(email: RawEmail, m: MailView) -> bool {
    &&& email.from@ == trim(or_empty(m.from))
    &&& email.subject@ == or_empty(m.subject)
    &&& email.body@ == best_body(m)
    &&& email.ts == (match m.timestamp {
        Some(t) => t,
        None => 0i64,
    })
}

/// Whether `id` is the message id that the fields `m` hold.
pub open spec fn is_id_of(id: Option<String>, m: MailView) -> bool {
    text_view(id) == (match m.message_id {
        Some(s) => Some(trim(s)),
        None => None,
    })
}

/// Why a message file gave no email.
#[derive(Debug, Clone, Copy, PartialEq, Eq, Structural)]
pub enum MailError {
    /// The bytes hold no message.
    Unparsable,
}

impl MailError {
    /// The words for this error.
    pub fn message(self) -> (r: &'static str)
        ensures
            r@ == "unparsable message"@,
    {
        "unparsable message"
    }
}

/// Whether `r` is what a message file with the bytes `raw` parses to: the email
/// that its fields make, and an error exactly where it holds no message. A header
/// that is missing makes no error.
pub open spec fn is_parse(raw: Seq<u8>, r: Result<RawEmail, MailError>) -> bool {
    match r {
        Ok(email) => parsed_mail(raw) is Some && is_email_of(email, parsed_mail(raw)->0),
        Err(e) => parsed_mail(raw) is None && e == MailError::Unparsable,
    }
}

/// Whether `r` is what a message file with the bytes `raw` parses to, the message
/// id included.
pub open spec fn is_parse_with_id(
    raw: Seq<u8>,
    r: Result<(RawEmail, Option<String>), MailError>,
) -> bool {
    match r {
        Ok((email, id)) => parsed_mail(raw) is Some && is_email_of(email, parsed_mail(raw)->0)
            && is_id_of(id, parsed_mail(raw)->0),
        Err(e) => parsed_mail(raw) is None && e == MailError::Unparsable,
    }
}

/// Parse the contents of a message file.
///
/// - `from` is the raw From header value, trimmed; its display name is kept.
/// - `subject` is the Subject header, or empty if absent.
/// - `body` is the first text/plain part to be shown, else the first HTML part,
///   else empty.
/// - `ts` is the Date header in unix seconds, or 0 if it is missing.
pub fn parse_file(contents: &[u8]) -> (r: Result<RawEmail, MailError>)
    requires
        parsable(contents@),
    ensures
        is_parse(contents@, r),
{
    match parse_file_with_id(contents) {
        Ok((email, _id)) => Ok(email),
        Err(e) => Err(e),
    }
}

/// Parse the contents of a message file, whatever they are. One that cannot be handed
/// to the parser counts as holding no message.
pub fn parse_checked(contents: &[u8]) -> (r: Result<RawEmail, MailError>)
    ensures
        parsable(contents@) ==> is_parse(contents@, r),
        !parsable(contents@) ==> r == Err::<RawEmail, MailError>(MailError::Unparsable),
{
    if can_parse(contents) {
        parse_file(contents)
    } else {
        Err(MailError::Unparsable)
    }
}

/// Parse the contents of a message file, together with the message's id, which
/// is `None` if the header is missing: such a message cannot be tagged by id.
pub fn parse_file_with_id(contents: &[u8]) -> (r: Result<(RawEmail, Option<String>), MailError>)
    requires
        parsable(contents@),
    ensures
        is_parse_with_id(contents@, r),
{
    match parse_mail(contents) {
        Some(fields) => Ok(email_from_fields(fields)),
        None => Err(MailError::Unparsable),
    }
}

/// The email and the message id that the fields of a message make.
pub fn email_from_fields(fields: MailFields) -> (r: (RawEmail, Option<String>))
    ensures
        is_email_of(r.0, fields@),
        is_id_of(r.1, fields@),
{
    let body = extract_body(&fields);
    let from = match &fields.from {
        Some(s) => trim_str(s),
        None => trim_str(""),
    };
    let message_id = match &fields.message_id {
        Some(s) => Some(trim_str(s)),
        None => None,
    };
    let subject = match fields.subject {
        Some(s) => s,
        None => String::new(),
    };
    let ts = match fields.timestamp {
        Some(t) => t,
        None => 0,
    };
    proof {
        reveal_strlit("");
        assert(""@ == Seq::<char>::empty());
    }
    (RawEmail { from, subject, body, ts }, message_id)
}

/// The plain text among `parts` that comes first.
fn find_text(parts: &Vec<BodyPart>) -> (r: Option<String>)
    ensures
        text_view(r) == first_text(part_views(parts@)),
{
    let ghost all = part_views(parts@);
    let mut i: usize = 0;
    assert(all.skip(0) == all);
    while i < parts.len()
        invariant
            i <= parts@.len(),
            all == part_views(parts@),
            first_text(all) == first_text(all.skip(i as int)),
        decreases parts@.len() - i,
    {
        assert(all.skip(i as int)[0] == parts@[i as int]@);
        assert(all.skip(i as int).drop_first() == all.skip(i + 1));
        if let BodyPart::Text(t) = &parts[i] {
            return Some(t.clone());
        }
        i += 1;
    }
    None
}

/// The HTML among `parts` that comes first.
fn find_html(parts: &Vec<BodyPart>) -> (r: Option<String>)
    ensures
        text_view(r) == first_html(part_views(parts@)),
{
    let ghost all = part_views(parts@);
    let mut i: usize = 0;
    assert(all.skip(0) == all);
    while i < parts.len()
        invariant
            i <= parts@.len(),
            all == part_views(parts@),
            first_html(all) == first_html(all.skip(i as int)),
        decreases parts@.len() - i,
    {
        assert(all.skip(i as int)[0] == parts@[i as int]@);
        assert(all.skip(i as int).drop_first() == all.skip(i + 1));
        if let BodyPart::Html(h) = &parts[i] {
            return Some(h.clone());
        }
        i += 1;
    }
    None
}

/// What comes first in two lists of parts comes first in the first of them, or
/// else in the second.
proof fn lemma_first(a: Seq<BodyPartView>, b: Seq<BodyPartView>)
    ensures
        first_text(a + b) == (if first_text(a) is Some {
            first_text(a)
        } else {
            first_text(b)
        }),
        first_html(a + b) == (if first_html(a) is Some {
            first_html(a)
        } else {
            first_html(b)
        }),
    decreases a.len(),
{
    if a.len() == 0 {
        assert(a + b == b);
    } else {
        lemma_first(a.drop_first(), b);
        assert((a + b).drop_first() == a.drop_first() + b);
        assert((a + b)[0] == a[0]);
    }
}

/// Pull out the best available body text: the first text/plain part if the
/// message shows one, otherwise the first HTML part as it stands, otherwise an
/// empty string.
pub fn extract_body(fields: &MailFields) -> (r: String)
    ensures
        r@ == best_body(fields@),
{
    proof {
        lemma_first(fields@.text_bodies, fields@.html_bodies);
    }
    if let Some(t) = find_text(&fields.text_bodies) {
        return t;
    }
    if let Some(t) = find_text(&fields.html_bodies) {
        return t;
    }
    if let Some(h) = find_html(&fields.text_bodies) {
        return h;
    }
    match find_html(&fields.html_bodies) {
        Some(h) => h,
        None => String::new(),
    }
}

/// Parsing a file without the message id gives what parsing it with the id gives,
/// less the id: the same email, or the same error. There is an error exactly
/// where the bytes hold no message, so a missing header is never one.
pub proof fn law_parse_drops_the_id(
    raw: Seq<u8>,
    plain: Result<RawEmail, MailError>,
    with_id: Result<(RawEmail, Option<String>), MailError>,
)
    requires
        is_parse(raw, plain),
        is_parse_with_id(raw, with_id),
    ensures
        plain is Err <==> with_id is Err,
        plain is Err <==> parsed_mail(raw) is None,
        plain is Err ==> plain->Err_0 == with_id->Err_0,
        plain is Ok ==> {
            let a = plain->Ok_0;
            let b = with_id->Ok_0.0;
            a.from@ == b.from@ && a.subject@ == b.subject@ && a.body@ == b.body@ && a.ts == b.ts
        },
{
}

/// A message whose headers are all missing still makes an email: empty texts, no
/// id, and the epoch for its date.
pub proof fn law_missing_headers(
    raw: Seq<u8>,
    m: MailView,
    r: Result<(RawEmail, Option<String>), MailError>,
)
    requires
        parsed_mail(raw) == Some(m),
        m.from is None,
        m.subject is None,
        m.timestamp is None,
        m.message_id is None,
        is_parse_with_id(raw, r),
    ensures
        r is Ok,
        r->Ok_0.0.from@.len() == 0,
        r->Ok_0.0.subject@.len() == 0,
        r->Ok_0.0.ts == 0,
        r->Ok_0.1 is None,
{
}

/// Where a message shows a plain text at all, the body is one of its plain texts,
/// whatever else it shows in front of it.
pub proof fn law_plain_text_wins(m: MailView, i: int)
    requires
        0 <= i < (m.text_bodies + m.html_bodies).len(),
        (m.text_bodies + m.html_bodies)[i] is Text,
    ensures
        exists|k: int|
            0 <= k <= i && #[trigger] (m.text_bodies + m.html_bodies)[k] == BodyPartView::Text(
                best_body(m),
            ),
{
    lemma_text_found(m.text_bodies + m.html_bodies, i);
}

proof fn lemma_text_found(parts: Seq<BodyPartView>, i: int)
    requires
        0 <= i < parts.len(),
        parts[i] is Text,
    ensures
        first_text(parts) is Some,
        exists|k: int|
            0 <= k <= i && #[trigger] parts[k] == BodyPartView::Text(first_text(parts)->0),
    decreases i,
{
    if parts[0] is Text {
        assert(parts[0] == BodyPartView::Text(first_text(parts)->0));
    } else {
        let rest = parts.drop_first();
        lemma_text_found(rest, i - 1);
        let k = choose|k: int|
            0 <= k <= i - 1 && #[trigger] rest[k] == BodyPartView::Text(first_text(rest)->0);
        assert(parts[k + 1] == rest[k]);
    }
}

/// Without a plain text the body is the first HTML, as it stands; without either there is
/// none.
pub proof fn law_html_is_the_fallback(m: MailView, i: int)
    requires
        forall|k: int|
            0 <= k < (m.text_bodies + m.html_bodies).len() ==> !(#[trigger] (m.text_bodies
                + m.html_bodies)[k] is Text),
    ensures
        0 <= i < (m.text_bodies + m.html_bodies).len() && (m.text_bodies + m.html_bodies)[i] is Html
            && (forall|k: int|
            0 <= k < i ==> !(#[trigger] (m.text_bodies + m.html_bodies)[k] is Html))
            ==> (m.text_bodies + m.html_bodies)[i] == BodyPartView::Html(best_body(m)),
        (forall|k: int|
            0 <= k < (m.text_bodies + m.html_bodies).len() ==> !(#[trigger] (m.text_bodies
                + m.html_bodies)[k] is Html)) ==> best_body(m).len() == 0,
{
    let parts = m.text_bodies + m.html_bodies;
    lemma_no_text(parts);
    if 0 <= i < parts.len() && parts[i] is Html && forall|k: int|
        0 <= k < i ==> !(#[trigger] parts[k] is Html) {
        lemma_html_found(parts, i);
    }
    if forall|k: int| 0 <= k < parts.len() ==> !(#[trigger] parts[k] is Html) {
        lemma_no_html(parts);
    }
}

proof fn lemma_no_text(parts: Seq<BodyPartView>)
    requires
        forall|k: int| 0 <= k < parts.len() ==> !(#[trigger] parts[k] is Text),
    ensures
        first_text(parts) is None,
    decreases parts.len(),
{
    if parts.len() > 0 {
        let rest = parts.drop_first();
        assert(!(parts[0] is Text));
        assert forall|k: int| 0 <= k < rest.len() implies !(#[trigger] rest[k] is Text) by {
            assert(rest[k] == parts[k + 1]);
        }
        lemma_no_text(rest);
    }
}

proof fn lemma_no_html(parts: Seq<BodyPartView>)
    requires
        forall|k: int| 0 <= k < parts.len() ==> !(#[trigger] parts[k] is Html),
    ensures
        first_html(parts) is None,
    decreases parts.len(),
{
    if parts.len() > 0 {
        let rest = parts.drop_first();
        assert(!(parts[0] is Html));
        assert forall|k: int| 0 <= k < rest.len() implies !(#[trigger] rest[k] is Html) by {
            assert(rest[k] == parts[k + 1]);
        }
        lemma_no_html(rest);
    }
}

proof fn lemma_html_found(parts: Seq<BodyPartView>, i: int)
    requires
        0 <= i < parts.len(),
        parts[i] is Html,
        forall|k: int| 0 <= k < i ==> !(#[trigger] parts[k] is Html),
    ensures
        first_html(parts) is Some,
        parts[i] == BodyPartView::Html(first_html(parts)->0),
    decreases i,
{
    if i > 0 {
        let rest = parts.drop_first();
        assert(!(parts[0] is Html));
        assert(rest[i - 1] == parts[i]);
        assert forall|k: int| 0 <= k < i - 1 implies !(#[trigger] rest[k] is Html) by {
            assert(rest[k] == parts[k + 1]);
        }
        lemma_html_found(rest, i - 1);
    }
}

/// An email is made of the fields of its message: the From value without whitespace around
/// it, the whole subject, the best body and the date, each empty or zero where it is
/// missing; the id without whitespace around it.
pub proof fn law_email_of_a_message(email: RawEmail, id: Option<String>, m: MailView)
    ensures
        is_email_of(email, m) ==> {
            &&& m.from matches Some(f) ==> email.from@ == trim(f)
            &&& m.from is None ==> email.from@.len() == 0
            &&& m.subject matches Some(s) ==> email.subject@ == s
            &&& m.subject is None ==> email.subject@.len() == 0
            &&& email.body@ == best_body(m)
            &&& m.timestamp matches Some(t) ==> email.ts == t
            &&& m.timestamp is None ==> email.ts == 0
        },
        is_id_of(id, m) ==> {
            &&& id is Some <==> m.message_id is Some
            &&& m.message_id matches Some(s) ==> id->0@ == trim(s)
        },
{
}

/// A parse is that of the whole file: where the parser finds a message in it, the email of
/// that message; where it finds none, an error.
pub proof fn law_parse(
    raw: Seq<u8>,
    plain: Result<RawEmail, MailError>,
    with_id: Result<(RawEmail, Option<String>), MailError>,
)
    ensures
        is_parse(raw, plain) ==> {
            &&& parsed_mail(raw) is None ==> plain == Err::<RawEmail, MailError>(
                MailError::Unparsable,
            )
            &&& parsed_mail(raw) matches Some(m) ==> plain is Ok && is_email_of(plain->Ok_0, m)
        },
        is_parse_with_id(raw, with_id) ==> {
            &&& parsed_mail(raw) is None ==> with_id is Err
            &&& parsed_mail(raw) matches Some(m) ==> with_id is Ok && is_email_of(
                with_id->Ok_0.0,
                m,
            ) && is_id_of(with_id->Ok_0.1, m)
        },
{
}

/// The fields of a message are taken as they are, part by part.
pub proof fn law_view_of_fields(f: MailFields, i: int)
    ensures
        f@.timestamp == f.timestamp,
        f.from matches Some(s) ==> f@.from == Some(s@),
        f.from is None ==> f@.from is None,
        f.subject matches Some(s) ==> f@.subject == Some(s@),
        f.subject is None ==> f@.subject is None,
        f.message_id matches Some(s) ==> f@.message_id == Some(s@),
        f.message_id is None ==> f@.message_id is None,
        f@.text_bodies.len() == f.text_bodies@.len(),
        f@.html_bodies.len() == f.html_bodies@.len(),
        0 <= i < f.text_bodies@.len() ==> match f.text_bodies@[i] {
            BodyPart::Text(t) => f@.text_bodies[i] == BodyPartView::Text(t@),
            BodyPart::Html(h) => f@.text_bodies[i] == BodyPartView::Html(h@),
            BodyPart::Other => f@.text_bodies[i] == BodyPartView::Other,
        },
        0 <= i < f.html_bodies@.len() ==> match f.html_bodies@[i] {
            BodyPart::Text(t) => f@.html_bodies[i] == BodyPartView::Text(t@),
            BodyPart::Html(h) => f@.html_bodies[i] == BodyPartView::Html(h@),
            BodyPart::Other => f@.html_bodies[i] == BodyPartView::Other,
        },
{
}

} // verus!
