//! The trained model, and the choice of a priority from its class probabilities.
//!
//! A [`Model`] is a plain record over some type `T` of numbers: the weights of a
//! multinomial logistic regression, the smoothing parameters its history features
//! were built with, and the two tags that are checked when it is loaded.

use vstd::prelude::*;
use vstd::std_specs::cmp::PartialOrdSpec;

use crate::labels::Priority;

verus! {

/// Bumped whenever the layout of the feature vector changes. A stored model
/// carries the version it was trained under.
pub const FEATURE_VERSION: u32 = 1;

/// A trained multinomial logistic-regression model.
#[derive(Debug, Clone)]
pub struct Model<T> {
    /// Feature layout version this model was trained under.
    pub feature_version: u32,
    /// Embedding model the embedding dimensions came from.
    pub embedding_model_id: String,
    /// Class prior `[p1, p2, p3]`.
    pub class_prior: [T; 3],
    /// Smoothing strength for the history proportions.
    pub alpha: T,
    /// One row of weights per class, indexed by class: `weights[class][feature]`.
    pub weights: Vec<Vec<T>>,
    /// Per-class intercepts, indexed by class.
    pub intercepts: [T; 3],
}

/// Whether `a` is greater than `b`, for a type whose order is specified.
pub open spec fn exceeds<T: PartialOrd>(a: T, b: T) -> bool {
    a.partial_cmp_spec(&b) == Some(core::cmp::Ordering::Greater)
}

/// The class that is chosen where `second` says whether the probability of the
/// second class exceeds that of the first, and `third` whether that of the third
/// exceeds the greater of these.
pub open spec fn chosen(second: bool, third: bool) -> Priority {
    if third {
        Priority::P3
    } else if second {
        Priority::P2
    } else {
        Priority::P1
    }
}

/// Whether comparing the probabilities can come to this: that of the second class
/// with that of the first, and that of the third with the greater of these.
pub open spec fn compared<T: PartialOrd>(proba: Seq<T>, second: bool, third: bool) -> bool {
    &&& call_ensures(T::gt, (&proba[1], &proba[0]), second)
    &&& call_ensures(T::gt, (&proba[2], if second { &proba[1] } else { &proba[0] }), third)
}

/// The class with the greatest of the three probabilities, for a type whose order
/// is specified.
pub open spec fn argmax<T: PartialOrd>(proba: Seq<T>) -> Priority {
    let second = exceeds(proba[1], proba[0]);
    chosen(second, exceeds(proba[2], if second { proba[1] } else { proba[0] }))
}

/// Whether `r` is what comparing the probabilities comes to.
pub open spec fn is_prediction<T: PartialOrd>(proba: Seq<T>, r: Priority) -> bool {
    exists|second: bool, third: bool| #[trigger]
        compared(proba, second, third) && r == chosen(second, third)
}

/// The priority with the greatest probability. Ties go to the lower class index,
/// which is the more conservative priority.
pub fn predict<T: PartialOrd>(proba: &[T; 3]) -> (r: Priority)
    ensures
        is_prediction(proba@, r),
        T::obeys_partial_cmp_spec() ==> r == argmax(proba@),
{
    let second = proba[1].gt(&proba[0]);
    let third = if second {
        proba[2].gt(&proba[1])
    } else {
        proba[2].gt(&proba[0])
    };
    assert(compared(proba@, second, third));
    if third {
        Priority::P3
    } else if second {
        Priority::P2
    } else {
        Priority::P1
    }
}

/// Whether comparing the probabilities with `>` tells which of them are `greater`
/// than which.
pub open spec fn tells_greater<T: PartialOrd>(
    proba: Seq<T>,
    greater: spec_fn(T, T) -> bool,
) -> bool {
    forall|i: int, j: int, o: bool|
        0 <= i < 3 && 0 <= j < 3 && #[trigger] call_ensures(T::gt, (&proba[i], &proba[j]), o)
            ==> o == greater(proba[i], proba[j])
}

/// Whether `greater` orders the probabilities as numbers are ordered: no two are
/// greater than each other, and "not greater" is transitive. So it is of
/// floating-point numbers none of which is NaN.
pub open spec fn orders<T>(proba: Seq<T>, greater: spec_fn(T, T) -> bool) -> bool {
    &&& forall|i: int, j: int|
        0 <= i < 3 && 0 <= j < 3 && greater(#[trigger] proba[i], #[trigger] proba[j]) ==> !greater(
            proba[j],
            proba[i],
        )
    &&& forall|i: int, j: int, k: int|
        0 <= i < 3 && 0 <= j < 3 && 0 <= k < 3 && !greater(#[trigger] proba[i], #[trigger] proba[j])
            && !greater(proba[j], #[trigger] proba[k]) ==> !greater(proba[i], proba[k])
}

/// The predicted class has a probability that none exceeds, and that exceeds that
/// of every lower class: it is the first maximum, and a tie goes to the lower
/// class. Three equal probabilities give the lowest priority.
pub proof fn law_first_maximum_is_predicted<T: PartialOrd>(
    proba: Seq<T>,
    greater: spec_fn(T, T) -> bool,
    r: Priority,
    c: int,
)
    requires
        proba.len() == 3,
        0 <= c < 3,
        tells_greater(proba, greater),
        orders(proba, greater),
        is_prediction(proba, r),
    ensures
        !greater(proba[c], proba[r.index() as int]),
        c < r.index() ==> greater(proba[r.index() as int], proba[c]),
        (forall|i: int, j: int|
            0 <= i < 3 && 0 <= j < 3 ==> !greater(#[trigger] proba[i], #[trigger] proba[j])) ==> r
            == Priority::P1,
{
    let (second, third) = choose|second: bool, third: bool| #[trigger]
        compared(proba, second, third) && r == chosen(second, third);
    assert(second == greater(proba[1], proba[0]));
    assert(third == greater(proba[2], if second { proba[1] } else { proba[0] }));
}

/// The same of [`argmax`], for a type whose order is specified: the chosen class has
/// a probability that none exceeds, and that exceeds that of every lower class.
pub proof fn law_first_maximum_is_chosen<T: PartialOrd>(proba: Seq<T>, c: int)
    requires
        proba.len() == 3,
        0 <= c < 3,
        forall|i: int, j: int|
            0 <= i < 3 && 0 <= j < 3 && exceeds(#[trigger] proba[i], #[trigger] proba[j])
                ==> !exceeds(proba[j], proba[i]),
        forall|i: int, j: int, k: int|
            0 <= i < 3 && 0 <= j < 3 && 0 <= k < 3 && !exceeds(#[trigger] proba[i], #[trigger]
                proba[j]) && !exceeds(proba[j], #[trigger] proba[k]) ==> !exceeds(
                proba[i],
                proba[k],
            ),
    ensures
        !exceeds(proba[c], proba[argmax(proba).index() as int]),
        c < argmax(proba).index() ==> exceeds(proba[argmax(proba).index() as int], proba[c]),
{
    assert(proba[0] == proba[0] && proba[1] == proba[1] && proba[2] == proba[2]);
}

} // verus!
