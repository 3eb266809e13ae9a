use email_classifier::features::FEATURE_DIM;
use email_classifier::labels::Priority;
use email_classifier::model::{predict, Model, FEATURE_VERSION};

/// A model whose weights read the last three feature slots as a one-hot class
/// signal: feature `FEATURE_DIM-3+c` drives class `c`.
fn onehot_model() -> Model<f32> {
    let mut weights = vec![vec![0.0f32; FEATURE_DIM]; 3];
    for c in 0..3 {
        weights[c][FEATURE_DIM - 3 + c] = 10.0;
    }
    Model {
        feature_version: FEATURE_VERSION,
        embedding_model_id: "test".to_string(),
        class_prior: [1.0 / 3.0; 3],
        alpha: 1.0,
        weights,
        intercepts: [0.0, 0.0, 0.0],
    }
}

fn onehot_x(class: usize) -> Vec<f32> {
    let mut x = vec![0.0f32; FEATURE_DIM];
    x[FEATURE_DIM - 3 + class] = 1.0;
    x
}

/// The softmax of the linear scores of the three classes.
fn proba(model: &Model<f32>, x: &[f32]) -> [f32; 3] {
    let mut scores = [0.0f32; 3];
    for c in 0..3 {
        scores[c] = model.intercepts[c];
        for j in 0..FEATURE_DIM {
            scores[c] += model.weights[c][j] * x[j];
        }
    }
    let max = scores.iter().copied().fold(f32::NEG_INFINITY, f32::max);
    let exps = scores.map(|s| (s - max).exp());
    let sum: f32 = exps.iter().sum();
    exps.map(|e| e / sum)
}

#[test]
fn argmax_picks_the_driven_class() {
    let m = onehot_model();
    assert_eq!(predict(&proba(&m, &onehot_x(0))), Priority::P1);
    assert_eq!(predict(&proba(&m, &onehot_x(1))), Priority::P2);
    assert_eq!(predict(&proba(&m, &onehot_x(2))), Priority::P3);
}

#[test]
fn intercepts_break_a_tie() {
    // Zero features: scores are just the intercepts. Bias class P3.
    let mut m = onehot_model();
    m.intercepts = [0.0, 0.0, 1.0];
    assert_eq!(predict(&proba(&m, &vec![0.0f32; FEATURE_DIM])), Priority::P3);
}

#[test]
fn ties_go_to_the_lower_class() {
    assert_eq!(predict(&[1, 1, 1]), Priority::P1);
    assert_eq!(predict(&[1, 2, 2]), Priority::P2);
    assert_eq!(predict(&[2, 1, 2]), Priority::P1);
    assert_eq!(predict(&[0, 2, 1]), Priority::P2);
    assert_eq!(predict(&[1, 0, 2]), Priority::P3);
    assert_eq!(predict(&[1, 2, 3]), Priority::P3);
}

#[test]
fn no_number_is_never_greater() {
    assert_eq!(predict(&[0.1f32, f32::NAN, 0.2]), Priority::P3);
    assert_eq!(predict(&[f32::NAN, 0.5, 0.2]), Priority::P1);
}
