//! The payload contract and standard combinators.
//!
//! A payload type implements one associative combining operation,
//! [`Aggregate::merge`]; the buffer folds same-bucket payloads with it. What
//! `merge` may produce is stated per type by the relation
//! [`Aggregate::merge_rel`].

use vstd::prelude::*;

verus! {

/// aka. `Semigroup` in Haskell-speak
pub trait Aggregate: Sized {
    /// Relates the value before a merge, the value merged in, and the value
    /// after: everything the type promises about its combining operation.
    spec fn merge_rel(pre: Self, other: Self, post: Self) -> bool;

    /// Combine `other` into `self`.  Should be associative; does **not** need
    /// to be commutative.
    fn merge(&mut self, other: Self)
        ensures
            Self::merge_rel(*old(self), other, *final(self)),
    ;
}

/// Concatenation: merging appends the other vector's elements.
impl<T> Aggregate for Vec<T> {
    open spec fn merge_rel(pre: Self, other: Self, post: Self) -> bool {
        post@ == pre@ + other@
    }

    fn merge(&mut self, other: Self) {
        let mut other = other;
        self.append(&mut other);
    }
}

/// Merging `Some`s merges the contents; a `None` adopts the other side.
impl<T: Aggregate> Aggregate for Option<T> {
    open spec fn merge_rel(pre: Self, other: Self, post: Self) -> bool {
        match pre {
            Option::Some(a) => match other {
                Option::Some(b) => match post {
                    Option::Some(c) => T::merge_rel(a, b, c),
                    Option::None => false,
                },
                Option::None => post == pre,
            },
            Option::None => post == other,
        }
    }

    fn merge(&mut self, other: Self) {
        match self {
            Option::Some(this) => {
                match other {
                    Option::Some(o) => this.merge(o),
                    Option::None => (),
                }
            },
            Option::None => {
                *self = other;
            },
        }
    }
}

/// Keeps the smaller value (the incumbent wins ties).
pub struct Min<T>(pub T);

impl<T: PartialOrd> Aggregate for Min<T> {
    /// The merge keeps one of the two values.
    open spec fn merge_rel(pre: Self, other: Self, post: Self) -> bool {
        post == pre || post == other
    }

    fn merge(&mut self, other: Self) {
        if self.0 > other.0 {
            *self = other;
        }
    }
}

/// Keeps the larger value (the incumbent wins ties).
pub struct Max<T>(pub T);

impl<T: PartialOrd> Aggregate for Max<T> {
    /// The merge keeps one of the two values.
    open spec fn merge_rel(pre: Self, other: Self, post: Self) -> bool {
        post == pre || post == other
    }

    fn merge(&mut self, other: Self) {
        if self.0 < other.0 {
            *self = other;
        }
    }
}

/// Keeps the first value ever seen.
pub struct First<T>(pub T);

impl<T> Aggregate for First<T> {
    /// The merge never changes the value.
    open spec fn merge_rel(pre: Self, other: Self, post: Self) -> bool {
        post == pre
    }

    fn merge(&mut self, _other: Self) {
        // no-op!
    }
}

/// Keeps the last value seen.
pub struct Last<T>(pub T);

impl<T> Aggregate for Last<T> {
    /// The merge adopts the merged-in value.
    open spec fn merge_rel(pre: Self, other: Self, post: Self) -> bool {
        post == other
    }

    fn merge(&mut self, other: Self) {
        *self = other;
    }
}

/// The four usual stock-chart components of a bucket.
pub struct Candlestick<T> {
    pub first: First<T>,
    pub last: Last<T>,
    pub min: Min<T>,
    pub max: Max<T>,
}

impl<T: Clone> From<T> for Candlestick<T> {
    fn from(x: T) -> Self {
        Candlestick { first: First(x.clone()), last: Last(x.clone()), min: Min(x.clone()), max: Max(x) }
    }
}

impl<T: Clone> vstd::std_specs::convert::FromSpecImpl<T> for Candlestick<T> {
    /// The runtime conversion clones the sample, and nothing is known of a
    /// generic `Clone`, so nothing is promised of the conversion either.
    open spec fn obeys_from_spec() -> bool {
        false
    }

    open spec fn from_spec(x: T) -> Self {
        Candlestick { first: First(x), last: Last(x), min: Min(x), max: Max(x) }
    }
}

impl<T: PartialOrd> Aggregate for Candlestick<T> {
    /// Componentwise: the first value stays, the last is adopted, the extremes
    /// each keep one side.
    open spec fn merge_rel(pre: Self, other: Self, post: Self) -> bool {
        &&& post.first == pre.first
        &&& post.last == other.last
        &&& (post.min == pre.min || post.min == other.min)
        &&& (post.max == pre.max || post.max == other.max)
    }

    fn merge(&mut self, other: Self) {
        self.first.merge(other.first);
        self.last.merge(other.last);
        self.min.merge(other.min);
        self.max.merge(other.max);
    }
}

} // verus!
