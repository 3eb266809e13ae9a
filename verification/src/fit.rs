//! Around the solver: the training examples laid out for it, and its solution laid
//! out as a [`Model`].
//!
//! The solver's parameters have one column per class that occurs in the training
//! data, in the order of its own class list, which need not hold all three
//! priorities. The weights of a model have one row per priority. Applying a
//! class's weights to another class would go unnoticed, so that the columns are
//! scattered into the rows by the class list.

use vstd::prelude::*;

use crate::features::FEATURE_DIM;
use crate::labels::Priority;
use crate::model::{Model, FEATURE_VERSION};
use crate::numbers::{decimal, decimal_string};

verus! {

/// One labeled training example: a feature vector and its confirmed priority.
#[derive(Debug, Clone)]
pub struct Example<T> {
    pub features: Vec<T>,
    pub label: Priority,
}

/// The training data as the solver takes it.
#[derive(Debug, Clone)]
pub struct Dataset<T> {
    /// The feature vectors, one row per example.
    pub records: Vec<Vec<T>>,
    /// The class index of each example.
    pub targets: Vec<usize>,
}

/// The words for feature vectors of the wrong length `n`.
pub open spec fn dims_error(n: nat) -> Seq<char> {
    "feature vectors are "@ + decimal(n) + " dims, expected "@ + decimal(FEATURE_DIM as nat)
}

/// The words for the example at position `i`, which has `n` features.
pub open spec fn example_error(i: nat, n: nat) -> Seq<char> {
    "example "@ + decimal(i) + " has "@ + decimal(n) + " features, expected "@ + decimal(
        FEATURE_DIM as nat,
    )
}

/// Whether every example has [`FEATURE_DIM`] features.
pub open spec fn all_full<T>(examples: Seq<Example<T>>) -> bool {
    forall|i: int|
        0 <= i < examples.len() ==> (#[trigger] examples[i]).features@.len() == FEATURE_DIM
}

/// Whether `data` holds the examples, in order.
pub open spec fn lays_out<T>(data: Dataset<T>, examples: Seq<Example<T>>) -> bool {
    &&& data.records@.len() == examples.len()
    &&& data.targets@.len() == examples.len()
    &&& forall|i: int|
        0 <= i < examples.len() ==> (#[trigger] data.records@[i])@ == examples[i].features@
    &&& forall|i: int|
        0 <= i < examples.len() ==> #[trigger] data.targets@[i] == examples[i].label.index()
}

fn copy_row<T: Copy>(row: &Vec<T>) -> (r: Vec<T>)
    ensures
        r@ == row@,
{
    let mut out: Vec<T> = Vec::with_capacity(row.len());
    let mut i: usize = 0;
    while i < row.len()
        invariant
            i <= row@.len(),
            out@ == row@.take(i as int),
        decreases row@.len() - i,
    {
        out.push(row[i]);
        i += 1;
    }
    assert(row@.take(i as int) == row@);
    out
}

/// Lay the examples out for the solver. It is an error if there are none, and if
/// one is not [`FEATURE_DIM`] long; the first one that is not is named.
pub fn build_dataset<T: Copy>(examples: &[Example<T>]) -> (r: Result<Dataset<T>, String>)
    ensures
        r is Ok <==> examples@.len() > 0 && all_full(examples@),
        match r {
            Ok(data) => lays_out(data, examples@),
            Err(e) => if examples@.len() == 0 {
                e@ == "no training examples"@
            } else if examples@[0].features@.len() != FEATURE_DIM {
                e@ == dims_error(examples@[0].features@.len())
            } else {
                exists|i: int|
                    0 <= i < examples@.len() && (#[trigger] examples@[i]).features@.len()
                        != FEATURE_DIM && all_full(examples@.take(i)) && e@ == example_error(
                        i as nat,
                        examples@[i].features@.len(),
                    )
            },
        },
{
    if examples.len() == 0 {
        return Err("no training examples".to_owned());
    }
    let n_features: usize = examples[0].features.len();
    if n_features != FEATURE_DIM {
        let mut message = "feature vectors are ".to_owned();
        message.append(&decimal_string(n_features as u64));
        message.append(" dims, expected ");
        message.append(&decimal_string(FEATURE_DIM as u64));
        assert(examples@[0].features@.len() != FEATURE_DIM);
        return Err(message);
    }
    let mut records: Vec<Vec<T>> = Vec::new();
    let mut targets: Vec<usize> = Vec::new();
    let mut i: usize = 0;
    while i < examples.len()
        invariant
            i <= examples@.len(),
            examples@.len() > 0,
            n_features == FEATURE_DIM,
            examples@[0].features@.len() == FEATURE_DIM,
            records@.len() == i,
            targets@.len() == i,
            all_full(examples@.take(i as int)),
            forall|k: int| 0 <= k < i ==> (#[trigger] records@[k])@ == examples@[k].features@,
            forall|k: int| 0 <= k < i ==> #[trigger] targets@[k] == examples@[k].label.index(),
        decreases examples@.len() - i,
    {
        let example = &examples[i];
        if example.features.len() != n_features {
            let mut message = "example ".to_owned();
            message.append(&decimal_string(i as u64));
            message.append(" has ");
            message.append(&decimal_string(example.features.len() as u64));
            message.append(" features, expected ");
            message.append(&decimal_string(n_features as u64));
            assert(examples@[i as int].features@.len() != FEATURE_DIM);
            return Err(message);
        }
        records.push(copy_row(&example.features));
        targets.push(example.label.to_index());
        assert forall|k: int| 0 <= k < i + 1 implies (#[trigger] examples@.take(
            i + 1,
        )[k]).features@.len() == FEATURE_DIM by {
            if k < i {
                assert(examples@.take(i as int)[k] == examples@[k]);
            }
        }
        i += 1;
    }
    assert(examples@.take(i as int) == examples@);
    Ok(Dataset { records, targets })
}

/// What the solver found: parameters with one row per feature and one column per
/// class of `classes`, and one intercept per class of `classes`.
#[derive(Debug, Clone)]
pub struct Solution<T> {
    pub params: Vec<Vec<T>>,
    pub intercept: Vec<T>,
    /// The class index of each column.
    pub classes: Vec<usize>,
}

impl<T> Solution<T> {
    /// Every column has a class and an intercept, and every row all columns.
    pub open spec fn wf(self) -> bool {
        &&& self.intercept@.len() == self.classes@.len()
        &&& forall|c: int| 0 <= c < self.classes@.len() ==> #[trigger] self.classes@[c] < 3
        &&& forall|f: int|
            0 <= f < self.params@.len() ==> (#[trigger] self.params@[f])@.len()
                == self.classes@.len()
    }
}

/// The last of the first `n` columns that belongs to the class `class`; `None`
/// where there is none.
pub open spec fn column_of(classes: Seq<usize>, n: nat, class: nat) -> Option<int>
    decreases n,
{
    if n == 0 {
        None
    } else if classes[n - 1] == class {
        Some(n - 1)
    } else {
        column_of(classes, (n - 1) as nat, class)
    }
}

/// The weight of feature `f` for the class `class`: that of the class's column, or
/// `zero` where it has none.
pub open spec fn weight_of<T>(s: Solution<T>, class: nat, f: int, zero: T) -> T {
    match column_of(s.classes@, s.classes@.len(), class) {
        Some(c) => s.params@[f]@[c],
        None => zero,
    }
}

/// The intercept of the class `class`, or `zero` where it has no column.
pub open spec fn intercept_of<T>(s: Solution<T>, class: nat, zero: T) -> T {
    match column_of(s.classes@, s.classes@.len(), class) {
        Some(c) => s.intercept@[c],
        None => zero,
    }
}

impl<T> Solution<T> {
    /// Whether every column has a class and an intercept, and every row all
    /// columns.
    pub fn is_consistent(&self) -> (r: bool)
        ensures
            r == self.wf(),
    {
        if self.intercept.len() != self.classes.len() {
            return false;
        }
        let mut c: usize = 0;
        while c < self.classes.len()
            invariant
                c <= self.classes@.len(),
                forall|k: int| 0 <= k < c ==> #[trigger] self.classes@[k] < 3,
            decreases self.classes@.len() - c,
        {
            if self.classes[c] >= 3 {
                assert(!(self.classes@[c as int] < 3));
                return false;
            }
            c += 1;
        }
        let mut f: usize = 0;
        while f < self.params.len()
            invariant
                f <= self.params@.len(),
                self.intercept@.len() == self.classes@.len(),
                forall|k: int| 0 <= k < self.classes@.len() ==> #[trigger] self.classes@[k] < 3,
                forall|k: int|
                    0 <= k < f ==> (#[trigger] self.params@[k])@.len() == self.classes@.len(),
            decreases self.params@.len() - f,
        {
            if self.params[f].len() != self.classes.len() {
                assert(self.params@[f as int]@.len() != self.classes@.len());
                return false;
            }
            f += 1;
        }
        true
    }

    fn column(&self, class: usize) -> (r: Option<usize>)
        ensures
            match r {
                Some(c) => c < self.classes@.len() && column_of(
                    self.classes@,
                    self.classes@.len(),
                    class as nat,
                ) == Some(c as int),
                None => column_of(self.classes@, self.classes@.len(), class as nat) is None,
            },
    {
        let mut n: usize = self.classes.len();
        while n > 0
            invariant
                n <= self.classes@.len(),
                column_of(self.classes@, self.classes@.len(), class as nat) == column_of(
                    self.classes@,
                    n as nat,
                    class as nat,
                ),
            decreases n,
        {
            if self.classes[n - 1] == class {
                return Some(n - 1);
            }
            n -= 1;
        }
        None
    }
}

fn class_weights<T: Copy>(s: &Solution<T>, class: usize, zero: T) -> (r: Vec<T>)
    requires
        s.wf(),
    ensures
        r@ == Seq::new(
            s.params@.len(),
            |f: int| weight_of(*s, class as nat, f, zero),
        ),
{
    let column = s.column(class);
    let mut row: Vec<T> = Vec::new();
    let mut f: usize = 0;
    while f < s.params.len()
        invariant
            s.wf(),
            f <= s.params@.len(),
            row@.len() == f,
            forall|k: int|
                0 <= k < f ==> #[trigger] row@[k] == weight_of(*s, class as nat, k, zero),
            match column {
                Some(c) => c < s.classes@.len() && column_of(
                    s.classes@,
                    s.classes@.len(),
                    class as nat,
                ) == Some(c as int),
                None => column_of(s.classes@, s.classes@.len(), class as nat) is None,
            },
        decreases s.params@.len() - f,
    {
        match column {
            Some(c) => {
                assert(s.params@[f as int]@.len() == s.classes@.len());
                row.push(s.params[f][c]);
            },
            None => {
                row.push(zero);
            },
        }
        f += 1;
    }
    row
}

fn class_intercept<T: Copy>(s: &Solution<T>, class: usize, zero: T) -> (r: T)
    requires
        s.wf(),
    ensures
        r == intercept_of(*s, class as nat, zero),
{
    match s.column(class) {
        Some(c) => s.intercept[c],
        None => zero,
    }
}

/// Whether the weights and intercepts are those of the solution, scattered into
/// the rows of their classes, with `zero` for a class that has no column.
pub open spec fn packs<T>(
    weights: Seq<Vec<T>>,
    intercepts: Seq<T>,
    s: Solution<T>,
    zero: T,
) -> bool {
    &&& weights.len() == 3
    &&& intercepts.len() == 3
    &&& forall|class: int|
        0 <= class < 3 ==> (#[trigger] weights[class])@ == Seq::new(
            s.params@.len(),
            |f: int| weight_of(s, class as nat, f, zero),
        )
    &&& forall|class: int|
        0 <= class < 3 ==> #[trigger] intercepts[class] == intercept_of(s, class as nat, zero)
}

/// Turn the solver's solution into the weights and intercepts of the three
/// priorities, in class-index order.
pub fn pack_params<T: Copy>(s: &Solution<T>, zero: T) -> (r: (Vec<Vec<T>>, [T; 3]))
    requires
        s.wf(),
    ensures
        packs(r.0@, r.1@, *s, zero),
{
    let mut weights: Vec<Vec<T>> = Vec::new();
    weights.push(class_weights(s, 0, zero));
    weights.push(class_weights(s, 1, zero));
    weights.push(class_weights(s, 2, zero));
    let intercepts = [
        class_intercept(s, 0, zero),
        class_intercept(s, 1, zero),
        class_intercept(s, 2, zero),
    ];
    (weights, intercepts)
}

/// The model of a solution. `class_prior` and `alpha` are the smoothing parameters
/// that the features were built with; they and the id of the embedder are stored
/// with it. What the solver failed with is an error.
pub fn fit<T: Copy>(
    solved: Result<Solution<T>, String>,
    class_prior: [T; 3],
    alpha: T,
    embedding_model_id: &str,
    zero: T,
) -> (r: Result<Model<T>, String>)
    requires
        solved matches Ok(s) ==> s.wf(),
    ensures
        match solved {
            Ok(s) => r matches Ok(m) && {
                &&& m.feature_version == FEATURE_VERSION
                &&& m.embedding_model_id@ == embedding_model_id@
                &&& m.class_prior == class_prior
                &&& m.alpha == alpha
                &&& packs(m.weights@, m.intercepts@, s, zero)
            },
            Err(e) => r matches Err(m) && m@ == "logistic regression fit failed: "@ + e@,
        },
{
    match solved {
        Ok(s) => {
            let (weights, intercepts) = pack_params(&s, zero);
            Ok(
                Model {
                    feature_version: FEATURE_VERSION,
                    embedding_model_id: embedding_model_id.to_owned(),
                    class_prior,
                    alpha,
                    weights,
                    intercepts,
                },
            )
        },
        Err(e) => {
            let mut message = "logistic regression fit failed: ".to_owned();
            message.append(&e);
            Err(message)
        },
    }
}

proof fn lemma_column_of(classes: Seq<usize>, n: nat, class: nat)
    requires
        n <= classes.len(),
    ensures
        match column_of(classes, n, class) {
            Some(c) => 0 <= c < n && classes[c] == class,
            None => forall|c: int| 0 <= c < n ==> #[trigger] classes[c] != class,
        },
    decreases n,
{
    if n > 0 {
        lemma_column_of(classes, (n - 1) as nat, class);
    }
}

/// Every class gets its own parameters: where the class list holds each class at
/// most once, the column at position `c` becomes the row of the class listed there.
pub proof fn law_columns_reach_their_classes<T>(
    weights: Seq<Vec<T>>,
    intercepts: Seq<T>,
    s: Solution<T>,
    zero: T,
    c: int,
)
    requires
        s.wf(),
        packs(weights, intercepts, s, zero),
        s.classes@.no_duplicates(),
        0 <= c < s.classes@.len(),
    ensures
        intercepts[s.classes@[c] as int] == s.intercept@[c],
        weights[s.classes@[c] as int]@ == Seq::new(s.params@.len(), |f: int| s.params@[f]@[c]),
{
    let class = s.classes@[c];
    lemma_column_of(s.classes@, s.classes@.len(), class as nat);
    assert(column_of(s.classes@, s.classes@.len(), class as nat) == Some(c));
    assert(intercepts[class as int] == s.intercept@[c]);
    assert(weights[class as int]@ =~= Seq::new(s.params@.len(), |f: int| s.params@[f]@[c]));
}

/// A priority that is absent from the training data has all-zero parameters.
pub proof fn law_absent_class_is_zero<T>(
    weights: Seq<Vec<T>>,
    intercepts: Seq<T>,
    s: Solution<T>,
    zero: T,
    class: int,
)
    requires
        packs(weights, intercepts, s, zero),
        0 <= class < 3,
        forall|c: int| 0 <= c < s.classes@.len() ==> #[trigger] s.classes@[c] != class,
    ensures
        intercepts[class] == zero,
        weights[class]@ == Seq::new(s.params@.len(), |f: int| zero),
{
    lemma_column_of(s.classes@, s.classes@.len(), class as nat);
    assert(intercepts[class] == zero);
    assert(weights[class]@ =~= Seq::new(s.params@.len(), |f: int| zero));
}

/// The data for the solver are the examples, all of them and in order: each row is all the
/// features of its example, each target the class of its label.
pub proof fn law_dataset_is_the_examples<T>(data: Dataset<T>, examples: Seq<Example<T>>, i: int)
    requires
        lays_out(data, examples),
        0 <= i < examples.len(),
    ensures
        data.records@.len() == examples.len(),
        data.targets@.len() == examples.len(),
        data.records@[i]@ == examples[i].features@,
        data.targets@[i] == examples[i].label.index(),
{
}

/// Examples are fit for the solver exactly if every one of them has the three hundred and
/// ninety-two features.
pub proof fn law_examples_are_full<T>(examples: Seq<Example<T>>)
    ensures
        all_full(examples) <==> forall|i: int|
            0 <= i < examples.len() ==> (#[trigger] examples[i]).features@.len() == 392,
{
    if all_full(examples) {
        assert forall|i: int| 0 <= i < examples.len() implies (
        #[trigger] examples[i]).features@.len() == 392 by {}
    }
}

/// A solution is consistent exactly if every column has an intercept and one of the three
/// classes, and every row all columns.
pub proof fn law_consistent_solution<T>(s: Solution<T>)
    ensures
        s.wf() <==> s.intercept@.len() == s.classes@.len() && (forall|c: int|
            0 <= c < s.classes@.len() ==> #[trigger] s.classes@[c] < 3) && (forall|f: int|
            0 <= f < s.params@.len() ==> (#[trigger] s.params@[f])@.len() == s.classes@.len()),
{
}

/// The weights and intercepts that are packed are three of each, with a weight for every
/// feature.
pub proof fn law_packed_shape<T>(
    weights: Seq<Vec<T>>,
    intercepts: Seq<T>,
    s: Solution<T>,
    zero: T,
    class: int,
)
    requires
        packs(weights, intercepts, s, zero),
        0 <= class < 3,
    ensures
        weights.len() == 3,
        intercepts.len() == 3,
        weights[class]@.len() == s.params@.len(),
{
}

/// The complaints on the length of feature vectors name the length and the one that was
/// expected, and the example.
pub proof fn law_length_errors(i: nat, n: nat)
    ensures
        dims_error(n) == "feature vectors are "@ + decimal(n) + " dims, expected "@ + decimal(392),
        example_error(i, n) == "example "@ + decimal(i) + " has "@ + decimal(n)
            + " features, expected "@ + decimal(392),
{
}

/// Where the class list holds a class more than once, its last column is the one that
/// counts.
pub proof fn law_last_column_counts<T>(
    weights: Seq<Vec<T>>,
    intercepts: Seq<T>,
    s: Solution<T>,
    zero: T,
    c: int,
    f: int,
)
    requires
        s.wf(),
        packs(weights, intercepts, s, zero),
        0 <= c < s.classes@.len(),
        forall|k: int| c < k < s.classes@.len() ==> #[trigger] s.classes@[k] != s.classes@[c],
        0 <= f < s.params@.len(),
    ensures
        intercepts[s.classes@[c] as int] == s.intercept@[c],
        weights[s.classes@[c] as int]@[f] == s.params@[f]@[c],
{
    let class = s.classes@[c];
    lemma_last_column(s.classes@, s.classes@.len(), c);
    assert(intercepts[class as int] == intercept_of(s, class as nat, zero));
    assert(weights[class as int]@[f] == weight_of(s, class as nat, f, zero));
}

proof fn lemma_last_column(classes: Seq<usize>, n: nat, c: int)
    requires
        0 <= c < n <= classes.len(),
        forall|k: int| c < k < n ==> #[trigger] classes[k] != classes[c],
    ensures
        column_of(classes, n, classes[c] as nat) == Some(c),
    decreases n,
{
    if c < n - 1 {
        assert(classes[n - 1] != classes[c]);
        lemma_last_column(classes, (n - 1) as nat, c);
    }
}

} // verus!
