use email_classifier::features::FEATURE_DIM;
use email_classifier::fit::{build_dataset, fit, pack_params, Example, Solution};
use email_classifier::labels::Priority;
use email_classifier::model::{predict, Model, FEATURE_VERSION};
use linfa::prelude::Fit;
use linfa::Dataset;
use linfa_logistic::MultiLogisticRegression;
use ndarray::{Array1, Array2};

/// One example whose last three feature slots one-hot the class, the rest zero.
fn onehot_example(label: Priority) -> Example<f32> {
    let mut features = vec![0.0f32; FEATURE_DIM];
    features[FEATURE_DIM - 3 + label.to_index()] = 1.0;
    Example { features, label }
}

/// Fit with the real solver.
fn solve(examples: &[Example<f32>]) -> Result<Model<f32>, String> {
    let data = build_dataset(examples)?;
    let n = data.targets.len();
    let flat: Vec<f64> = data.records.iter().flatten().map(|v| *v as f64).collect();
    let records = Array2::from_shape_vec((n, FEATURE_DIM), flat).unwrap();
    let targets = Array1::from_vec(data.targets);
    let solved = MultiLogisticRegression::default()
        .max_iterations(1000)
        .with_intercept(true)
        .fit(&Dataset::new(records, targets))
        .map(|fitted| Solution {
            params: fitted
                .params()
                .rows()
                .into_iter()
                .map(|row| row.iter().map(|v| *v as f32).collect())
                .collect(),
            intercept: fitted.intercept().iter().map(|v| *v as f32).collect(),
            classes: fitted.classes().to_vec(),
        })
        .map_err(|e| e.to_string());
    assert!(solved.as_ref().map_or(true, |s| s.is_consistent()));
    fit(solved, [1.0 / 3.0; 3], 1.0, "test", 0.0)
}

fn scores(model: &Model<f32>, x: &[f32]) -> [f32; 3] {
    let mut out = model.intercepts;
    for c in 0..3 {
        for j in 0..FEATURE_DIM {
            out[c] += model.weights[c][j] * x[j];
        }
    }
    out
}

#[test]
fn separates_a_tiny_synthetic_set() {
    // A few copies of each class so the solver has something to fit.
    let mut examples = Vec::new();
    for _ in 0..5 {
        for p in Priority::ALL {
            examples.push(onehot_example(p));
        }
    }
    let model = solve(&examples).unwrap();

    // ~100% train accuracy on the separable set.
    for p in Priority::ALL {
        let x = onehot_example(p).features;
        assert_eq!(predict(&scores(&model, &x)), p, "misclassified {p:?}");
    }
}

#[test]
fn a_missing_class_has_no_weights() {
    let mut examples = Vec::new();
    for _ in 0..5 {
        examples.push(onehot_example(Priority::P1));
        examples.push(onehot_example(Priority::P3));
    }
    let model = solve(&examples).unwrap();
    assert_eq!(model.weights[1], vec![0.0; FEATURE_DIM]);
    assert_eq!(model.intercepts[1], 0.0);
    let x = onehot_example(Priority::P3).features;
    assert!(scores(&model, &x)[2] > scores(&model, &x)[0]);
}

#[test]
fn empty_examples_is_an_error() {
    assert!(solve(&[]).is_err());
    assert_eq!(solve(&[]).err().as_deref(), Some("no training examples"));
}

#[test]
fn wrong_length_features_is_an_error() {
    let bad = Example { features: vec![0.0f32; 10], label: Priority::P1 };
    assert!(solve(&[bad]).is_err());
}

#[test]
fn the_first_wrong_example_is_named() {
    let bad = |n: usize| Example { features: vec![0.0f32; n], label: Priority::P2 };
    assert_eq!(
        build_dataset(&[bad(10)]).err().as_deref(),
        Some("feature vectors are 10 dims, expected 392")
    );
    assert_eq!(
        build_dataset(&[bad(392), bad(392), bad(391), bad(5)]).err().as_deref(),
        Some("example 2 has 391 features, expected 392")
    );
}

#[test]
fn a_dataset_holds_the_examples_in_order() {
    let data = build_dataset(&[onehot_example(Priority::P3), onehot_example(Priority::P1)])
        .unwrap();
    assert_eq!(data.targets, [2, 0]);
    assert_eq!(data.records[0], onehot_example(Priority::P3).features);
    assert_eq!(data.records[1], onehot_example(Priority::P1).features);
}

#[test]
fn columns_reach_the_rows_of_their_classes() {
    let s = Solution {
        params: vec![vec![1, 2], vec![3, 4], vec![5, 6]],
        intercept: vec![7, 8],
        classes: vec![2, 0],
    };
    assert!(s.is_consistent());
    let (weights, intercepts) = pack_params(&s, 0);
    assert_eq!(weights, [vec![2, 4, 6], vec![0, 0, 0], vec![1, 3, 5]]);
    assert_eq!(intercepts, [8, 0, 7]);

    let model = fit(Ok(s), [1, 2, 3], 9, "id", 0).unwrap();
    assert_eq!(model.feature_version, FEATURE_VERSION);
    assert_eq!(model.embedding_model_id, "id");
    assert_eq!(model.class_prior, [1, 2, 3]);
    assert_eq!(model.alpha, 9);
    assert_eq!(model.weights[2], [1, 3, 5]);
}

#[test]
fn inconsistent_solutions_are_told_apart() {
    let s = |intercept: Vec<u8>, classes: Vec<usize>, row: Vec<u8>| {
        Solution { params: vec![row], intercept, classes }.is_consistent()
    };
    assert!(s(vec![1], vec![2], vec![5]));
    assert!(!s(vec![], vec![2], vec![5]));
    assert!(!s(vec![1], vec![3], vec![5]));
    assert!(!s(vec![1], vec![2], vec![5, 6]));
}

#[test]
fn a_solver_failure_is_an_error() {
    let solved: Result<Solution<u8>, String> = Err("diverged".to_string());
    assert_eq!(
        fit(solved, [0; 3], 0, "id", 0).err().as_deref(),
        Some("logistic regression fit failed: diverged")
    );
}
