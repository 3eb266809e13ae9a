use email_classifier::model::{Model, FEATURE_VERSION};
use email_classifier::persist::{check_guards, load, LoadError};

const FEATURE_DIM: usize = 392;
const EMBED_ID: &str = "all-MiniLM-L6-v2";

fn sample_model() -> Model<f32> {
    let mut weights = vec![vec![0.0f32; FEATURE_DIM]; 3];
    for c in 0..3 {
        weights[c][FEATURE_DIM - 3 + c] = 5.0 + c as f32;
    }
    Model {
        feature_version: FEATURE_VERSION,
        embedding_model_id: EMBED_ID.to_string(),
        class_prior: [0.5, 0.3, 0.2],
        alpha: 2.0,
        weights,
        intercepts: [0.1, -0.2, 0.3],
    }
}

#[test]
fn guard_rejects_mismatched_embedding_model() {
    let mut model = sample_model();
    model.embedding_model_id = "some-other-embedder".to_string();
    match check_guards(&model, EMBED_ID) {
        Err(LoadError::EmbeddingModel { found, expected }) => {
            assert_eq!(found, "some-other-embedder");
            assert_eq!(expected, EMBED_ID);
        }
        other => panic!("expected EmbeddingModel error, got {other:?}"),
    }
}

#[test]
fn guard_rejects_mismatched_feature_version() {
    let mut model = sample_model();
    model.feature_version = FEATURE_VERSION + 1;
    match check_guards(&model, EMBED_ID) {
        Err(LoadError::FeatureVersion { found, expected }) => {
            assert_eq!(found, FEATURE_VERSION + 1);
            assert_eq!(expected, FEATURE_VERSION);
        }
        other => panic!("expected FeatureVersion error, got {other:?}"),
    }
}

#[test]
fn guards_pass_for_a_matching_model() {
    assert!(check_guards(&sample_model(), EMBED_ID).is_ok());
}

#[test]
fn the_feature_version_is_looked_at_first() {
    let mut model = sample_model();
    model.feature_version = 0;
    model.embedding_model_id = "x".to_string();
    assert!(matches!(
        check_guards(&model, EMBED_ID),
        Err(LoadError::FeatureVersion { found: 0, expected: 1 })
    ));
}

#[test]
fn load_gives_the_model_back_or_says_why_not() {
    let loaded = load(Ok(sample_model()), EMBED_ID).unwrap();
    assert_eq!(loaded.intercepts, sample_model().intercepts);
    assert_eq!(loaded.weights, sample_model().weights);
    assert!(matches!(
        load(Ok(sample_model()), "other"),
        Err(LoadError::EmbeddingModel { .. })
    ));
    let read: Result<Model<f32>, LoadError> = Err(LoadError::Io("gone".to_string()));
    assert!(matches!(load(read, EMBED_ID), Err(LoadError::Io(e)) if e == "gone"));
    let read: Result<Model<f32>, LoadError> = Err(LoadError::Parse("bad".to_string()));
    assert!(matches!(load(read, EMBED_ID), Err(LoadError::Parse(e)) if e == "bad"));
}

#[test]
fn errors_have_words() {
    assert_eq!(
        LoadError::Io("no such file".to_string()).message(),
        "reading model file: no such file"
    );
    assert_eq!(
        LoadError::Parse("expected value".to_string()).message(),
        "parsing model JSON: expected value"
    );
    assert_eq!(
        LoadError::FeatureVersion { found: 20, expected: 1 }.message(),
        "model feature_version 20 does not match this build's 1; retrain the model"
    );
    assert_eq!(
        LoadError::EmbeddingModel { found: "a\"b".to_string(), expected: "c".to_string() }
            .message(),
        "model embedding_model_id \"a\\\"b\" does not match the embedder in use (\"c\"); \
         retrain the model"
    );
}
