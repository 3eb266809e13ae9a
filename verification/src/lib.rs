//! Local email priority classification: the pure parts of the classifier.
//!
//! A message is parsed ([`rawmail`], [`mailfile`]), prepared as text ([`text`]) and
//! embedded ([`embed`], [`cache`]); its sender's history is counted through notmuch
//! ([`notmuch`], [`sender`]); embedding and history make a feature vector
//! ([`features`]), over which a model is fitted ([`fit`]) and scored ([`model`]).
//! An evaluation ([`eval`], [`report`]) runs all of it on held-out mail.

pub mod strings;
pub mod string_laws;
pub mod numbers;
pub mod labels;
pub mod history;
pub mod domain;
pub mod text;
pub mod text_laws;
pub mod clean_laws;
pub mod email;
pub mod rawmail;
pub mod rawmail_laws;
mod rawscan;
pub mod mailfile;
pub mod sender;
pub mod notmuch;
pub mod notmuch_laws;
pub mod features;
pub mod model;
pub mod persist;
pub mod fit;
pub mod embed;
pub mod cache;
pub mod cache_laws;
pub mod report;
pub mod eval;
pub mod eval_laws;
pub mod log;
