//! Matching encoded arrays without decoding them first.

use vstd::prelude::*;

use crate::array::PatternArray;
use crate::error::Error;
use crate::options::RegexOptions;

verus! {

/// A match whose first operand is an encoded array: its options and its second
/// operand.
#[derive(Debug)]
pub struct RegexParent {
    pub options: RegexOptions,
    pub pattern: PatternArray,
}

/// Matching an encoding on its structure alone, without looking at the text of
/// its rows (for example, a dictionary needs a match of its distinct values
/// only). Implementations return `None` if that is not possible.
pub trait RegexReduce: Sized {
    /// The encoded array.
    type Array;

    /// What a match of the array is reduced to.
    type Output;

    /// Whether the operands are valid.
    spec fn can_match(array: Self::Array, pattern: PatternArray) -> bool;

    /// Whether `r` is what a match of the operands is reduced to.
    spec fn reduces_to(
        array: Self::Array,
        pattern: PatternArray,
        options: RegexOptions,
        r: Result<Option<Self::Output>, Error>,
    ) -> bool;

    /// Reduces a match of the array.
    fn regex(array: &Self::Array, pattern: &PatternArray, options: RegexOptions) -> (r: Result<
        Option<Self::Output>,
        Error,
    >)
        requires
            Self::can_match(*array, *pattern),
        ensures
            Self::reduces_to(*array, *pattern, options, r),
    ;
}

/// Matching an encoding by looking at its encoded rows. Implementations return
/// `None` if that is not possible.
pub trait RegexKernel: Sized {
    /// The encoded array.
    type Array;

    /// The result of a match.
    type Output;

    /// Whether the operands are valid.
    spec fn can_match(array: Self::Array, pattern: PatternArray) -> bool;

    /// Whether `r` is the result of a match of the operands.
    spec fn executes_to(
        array: Self::Array,
        pattern: PatternArray,
        options: RegexOptions,
        r: Result<Option<Self::Output>, Error>,
    ) -> bool;

    /// Matches the array.
    fn regex(array: &Self::Array, pattern: &PatternArray, options: RegexOptions) -> (r: Result<
        Option<Self::Output>,
        Error,
    >)
        requires
            Self::can_match(*array, *pattern),
        ensures
            Self::executes_to(*array, *pattern, options, r),
    ;
}

/// Applies a [`RegexReduce`] to the matches whose text operand is the array.
#[derive(Default, Debug)]
pub struct RegexReduceAdaptor<V>(pub V);

impl<V: RegexReduce> RegexReduceAdaptor<V> {
    /// Reduces the match `parent` if `array` is its text operand, the one with
    /// index zero.
    pub fn reduce_parent(
        &self,
        array: &V::Array,
        parent: &RegexParent,
        child_idx: usize,
    ) -> (r: Result<Option<V::Output>, Error>)
        requires
            child_idx == 0 ==> V::can_match(*array, parent.pattern),
        ensures
            child_idx != 0 ==> r == Ok::<Option<V::Output>, Error>(None),
            child_idx == 0 ==> V::reduces_to(*array, parent.pattern, parent.options, r),
    {
        if child_idx != 0 {
            return Ok(None);
        }
        V::regex(array, &parent.pattern, parent.options)
    }
}

/// Applies a [`RegexKernel`] to the matches whose text operand is the array.
#[derive(Default, Debug)]
pub struct RegexExecuteAdaptor<V>(pub V);

impl<V: RegexKernel> RegexExecuteAdaptor<V> {
    /// Executes the match `parent` if `array` is its text operand, the one with
    /// index zero.
    pub fn execute_parent(
        &self,
        array: &V::Array,
        parent: &RegexParent,
        child_idx: usize,
    ) -> (r: Result<Option<V::Output>, Error>)
        requires
            child_idx == 0 ==> V::can_match(*array, parent.pattern),
        ensures
            child_idx != 0 ==> r == Ok::<Option<V::Output>, Error>(None),
            child_idx == 0 ==> V::executes_to(*array, parent.pattern, parent.options, r),
    {
        if child_idx != 0 {
            return Ok(None);
        }
        V::regex(array, &parent.pattern, parent.options)
    }
}

} // verus!
