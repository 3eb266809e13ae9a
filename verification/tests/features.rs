use email_classifier::features::{
    assemble, hist_block, HistBlock, EMBED_DIM, FEATURE_DIM, HIST_DIM,
};

fn block(p: [f32; 3], c: f32) -> HistBlock<f32> {
    HistBlock { proportions: p, confidence: c }
}

#[test]
fn length_is_exactly_392() {
    let embedding = vec![0.0f32; EMBED_DIM];
    let d = block([0.2, 0.5, 0.3], 0.4);
    let a = block([0.1, 0.1, 0.8], 0.9);
    assert_eq!(assemble(&embedding, &d, &a).len(), 392);
    assert_eq!(FEATURE_DIM, 392);
}

#[test]
fn order_is_stable_golden() {
    // A hand-built input whose every slot is distinguishable, so any
    // reordering of the layout would move an observable value.
    let mut embedding = vec![0.0f32; EMBED_DIM];
    embedding[0] = 1.0; // first embedding slot
    embedding[EMBED_DIM - 1] = 2.0; // last embedding slot
    let d = block([0.11, 0.12, 0.13], 0.14);
    let a = block([0.21, 0.22, 0.23], 0.24);

    let f = assemble(&embedding, &d, &a);

    // Embedding occupies [0, 384).
    assert_eq!(f[0], 1.0);
    assert_eq!(f[EMBED_DIM - 1], 2.0);
    // Domain block: proportions then confidence, at [384, 388).
    assert_eq!(&f[EMBED_DIM..EMBED_DIM + 4], &[0.11, 0.12, 0.13, 0.14]);
    // Address block: proportions then confidence, at [388, 392).
    assert_eq!(&f[EMBED_DIM + 4..FEATURE_DIM], &[0.21, 0.22, 0.23, 0.24]);
}

#[test]
fn from_prior_is_prior_with_zero_confidence() {
    let prior = [0.6, 0.3, 0.1];
    let b = HistBlock::from_prior(&prior);
    assert_eq!(b.proportions, prior);
    assert_eq!(b.confidence, 0.0);
}

#[test]
fn every_slot_has_its_place() {
    let embedding: Vec<u32> = (0..384).collect();
    let d = HistBlock { proportions: [1000, 1001, 1002], confidence: 1003 };
    let a = HistBlock { proportions: [2000, 2001, 2002], confidence: 2003 };
    let f = assemble(&embedding, &d, &a);
    let mut expected: Vec<u32> = (0..384).collect();
    expected.extend([1000, 1001, 1002, 1003, 2000, 2001, 2002, 2003]);
    assert_eq!(f, expected);
    assert_eq!(HIST_DIM, 4);
}

#[test]
fn a_sender_without_history_gets_the_prior() {
    let prior = [0.5f32, 0.3, 0.2];
    let b = hist_block(&[0, 0, 0], &prior, [0.9, 0.05, 0.05], 0.7);
    assert_eq!(b.proportions, prior);
    assert_eq!(b.confidence, 0.0);
    let b = hist_block(&[0, 1, 0], &prior, [0.25, 0.65, 0.1], 0.1);
    assert_eq!(b.proportions, [0.25, 0.65, 0.1]);
    assert_eq!(b.confidence, 0.1);
}
