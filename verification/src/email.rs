//! One parsed email, and the text of it that is embedded.

use vstd::prelude::*;

use crate::text::{prepare_text, prepared};

verus! {

/// One parsed email, already read off disk.
#[derive(Debug, Clone)]
pub struct RawEmail {
    /// Raw From header value, which may hold a display name.
    pub from: String,
    /// Subject header, or empty if absent.
    pub subject: String,
    /// Best available body text.
    pub body: String,
    /// Arrival timestamp in unix seconds.
    pub ts: i64,
}

/// The text to embed for an email.
pub fn prepared_text(email: &RawEmail) -> (r: String)
    ensures
        r@ == prepared(email.subject@, email.body@),
{
    prepare_text(&email.subject, &email.body)
}

} // verus!
