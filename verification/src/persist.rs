//! The two checks on a model that was loaded.
//!
//! A stored model can be well-formed and still be wrong for the running code:
//!
//! - With another `feature_version` every weight is applied to the wrong feature.
//! - With another `embedding_model_id` the embedding dimensions mean something
//!   else; the file still reads cleanly, but the model now scores nonsense.
//!
//! Both have to match, or the model is refused.

use vstd::prelude::*;

use crate::model::{Model, FEATURE_VERSION};
use crate::numbers::{decimal, decimal_string};
use crate::strings::{debug_string, debug_text, str_eq};

verus! {

/// What went wrong loading a model.
#[derive(Debug)]
#[allow(inconsistent_fields)]
pub enum LoadError {
    /// The file could not be read.
    Io(String),
    /// The bytes were no valid model.
    Parse(String),
    /// The model is for a different feature layout.
    FeatureVersion { found: u32, expected: u32 },
    /// The model was trained against a different embedder.
    EmbeddingModel { found: String, expected: String },
}

impl LoadError {
    /// The words for this error.
    pub open spec fn text(self) -> Seq<char> {
        match self {
            LoadError::Io(e) => "reading model file: "@ + e@,
            LoadError::Parse(e) => "parsing model JSON: "@ + e@,
            LoadError::FeatureVersion { found, expected } => "model feature_version "@ + decimal(
                found as nat,
            ) + " does not match this build's "@ + decimal(expected as nat)
                + "; retrain the model"@,
            LoadError::EmbeddingModel { found, expected } => "model embedding_model_id "@
                + debug_text(found@) + " does not match the embedder in use ("@ + debug_text(
                expected@,
            ) + "); retrain the model"@,
        }
    }

    /// The words for this error.
    pub fn message(&self) -> (r: String)
        ensures
            r@ == self.text(),
    {
        match self {
            LoadError::Io(e) => {
                let mut m = "reading model file: ".to_owned();
                m.append(e);
                m
            },
            LoadError::Parse(e) => {
                let mut m = "parsing model JSON: ".to_owned();
                m.append(e);
                m
            },
            LoadError::FeatureVersion { found, expected } => {
                let mut m = "model feature_version ".to_owned();
                m.append(&decimal_string(*found as u64));
                m.append(" does not match this build's ");
                m.append(&decimal_string(*expected as u64));
                m.append("; retrain the model");
                m
            },
            LoadError::EmbeddingModel { found, expected } => {
                let mut m = "model embedding_model_id ".to_owned();
                m.append(&debug_string(found));
                m.append(" does not match the embedder in use (");
                m.append(&debug_string(expected));
                m.append("); retrain the model");
                m
            },
        }
    }
}

/// Whether a model is for the running feature layout and for the embedder
/// `embedding_model_id`.
pub open spec fn passes<T>(model: Model<T>, embedding_model_id: Seq<char>) -> bool {
    model.feature_version == FEATURE_VERSION && model.embedding_model_id@ == embedding_model_id
}

/// Whether `e` is the reason to refuse `model`. The feature layout is looked at
/// first.
pub open spec fn refuses<T>(e: LoadError, model: Model<T>, embedding_model_id: Seq<char>) -> bool {
    if model.feature_version != FEATURE_VERSION {
        e == (LoadError::FeatureVersion {
            found: model.feature_version,
            expected: FEATURE_VERSION,
        })
    } else {
        e matches LoadError::EmbeddingModel { found, expected } && found@
            == model.embedding_model_id@ && expected@ == embedding_model_id
    }
}

/// The two checks on a loaded model.
pub fn check_guards<T>(model: &Model<T>, embedding_model_id: &str) -> (r: Result<(), LoadError>)
    ensures
        match r {
            Ok(_) => passes(*model, embedding_model_id@),
            Err(e) => !passes(*model, embedding_model_id@) && refuses(
                e,
                *model,
                embedding_model_id@,
            ),
        },
{
    if model.feature_version != FEATURE_VERSION {
        return Err(
            LoadError::FeatureVersion { found: model.feature_version, expected: FEATURE_VERSION },
        );
    }
    if !str_eq(&model.embedding_model_id, embedding_model_id) {
        return Err(
            LoadError::EmbeddingModel {
                found: model.embedding_model_id.clone(),
                expected: embedding_model_id.to_owned(),
            },
        );
    }
    Ok(())
}

/// Whether `r` is what loading comes to where reading the model came to `read`:
/// the model itself if it passes the checks, else the reason to refuse it. What
/// went wrong reading it is passed on.
pub open spec fn is_load<T>(
    read: Result<Model<T>, LoadError>,
    embedding_model_id: Seq<char>,
    r: Result<Model<T>, LoadError>,
) -> bool {
    match read {
        Ok(model) => match r {
            Ok(loaded) => passes(model, embedding_model_id) && loaded == model,
            Err(e) => !passes(model, embedding_model_id) && refuses(e, model, embedding_model_id),
        },
        Err(e) => r == Err::<Model<T>, LoadError>(e),
    }
}

/// The model that was read, if it passes the checks. What went wrong reading it is
/// passed on.
pub fn load<T>(read: Result<Model<T>, LoadError>, embedding_model_id: &str) -> (r: Result<
    Model<T>,
    LoadError,
>)
    ensures
        is_load(read, embedding_model_id@, r),
{
    match read {
        Ok(model) => match check_guards(&model, embedding_model_id) {
            Ok(_) => Ok(model),
            Err(e) => Err(e),
        },
        Err(e) => Err(e),
    }
}

/// Loading gives back the model that was saved, unchanged, wherever reading its
/// file does and it is for the running feature layout and for the embedder in use;
/// and it never gives back another.
pub proof fn law_saved_model_loads<T>(
    saved: Model<T>,
    embedding_model_id: Seq<char>,
    r: Result<Model<T>, LoadError>,
)
    requires
        is_load(Ok(saved), embedding_model_id, r),
    ensures
        saved.feature_version == FEATURE_VERSION && saved.embedding_model_id@ == embedding_model_id
            <==> r is Ok,
        r is Ok ==> r->Ok_0 == saved,
{
}

/// A model is never used with another embedder: it passes the checks for one at
/// most, and for none under another feature layout.
pub proof fn law_one_embedder_per_model<T>(model: Model<T>, a: Seq<char>, b: Seq<char>)
    requires
        passes(model, a),
    ensures
        passes(model, b) <==> a == b,
        model.feature_version == FEATURE_VERSION,
{
}

/// A model is refused for the reason that holds: for its feature layout if that differs,
/// with the version that was found and the running one; else for its embedder, with the
/// id that was found and the one in use. What went wrong reading it is never changed.
pub proof fn law_refusal_names_the_reason<T>(
    read: Result<Model<T>, LoadError>,
    embedding_model_id: Seq<char>,
    r: Result<Model<T>, LoadError>,
)
    requires
        is_load(read, embedding_model_id, r),
    ensures
        FEATURE_VERSION == 1,
        read is Err ==> r == Err::<Model<T>, LoadError>(read->Err_0),
        read matches Ok(m) ==> m.feature_version != 1 ==> r == Err::<Model<T>, LoadError>(
            LoadError::FeatureVersion { found: m.feature_version, expected: 1 },
        ),
        read matches Ok(m) ==> m.feature_version == 1 && m.embedding_model_id@
            != embedding_model_id ==> (r matches Err(e) && e matches LoadError::EmbeddingModel {
            found,
            expected,
        } && found@ == m.embedding_model_id@ && expected@ == embedding_model_id),
        read matches Ok(m) ==> m.feature_version == 1 && m.embedding_model_id@
            == embedding_model_id ==> r == Ok::<Model<T>, LoadError>(m),
{
}

/// The words for a refusal hold everything that the error carries.
pub proof fn law_words_of_a_refusal(e: LoadError)
    ensures
        match e {
            LoadError::Io(why) => e.text() == "reading model file: "@ + why@,
            LoadError::Parse(why) => e.text() == "parsing model JSON: "@ + why@,
            LoadError::FeatureVersion { found, expected } => e.text()
                == "model feature_version "@ + decimal(found as nat)
                + " does not match this build's "@ + decimal(expected as nat)
                + "; retrain the model"@,
            LoadError::EmbeddingModel { found, expected } => e.text()
                == "model embedding_model_id "@ + debug_text(found@)
                + " does not match the embedder in use ("@ + debug_text(expected@)
                + "); retrain the model"@,
        },
{
}

/// A model passes the checks exactly if both its tags match, and is refused by its feature
/// layout before its embedder.
pub proof fn law_checks<T>(model: Model<T>, embedding_model_id: Seq<char>, e: LoadError)
    ensures
        passes(model, embedding_model_id) <==> model.feature_version == 1
            && model.embedding_model_id@ == embedding_model_id,
        refuses(e, model, embedding_model_id) && model.feature_version != 1 ==> e == (
        LoadError::FeatureVersion { found: model.feature_version, expected: 1 }),
        refuses(e, model, embedding_model_id) && model.feature_version == 1 ==> (
        e matches LoadError::EmbeddingModel { found, expected } && found@
            == model.embedding_model_id@ && expected@ == embedding_model_id),
{
}

} // verus!
