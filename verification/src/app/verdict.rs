//! Answers that let a thing pass or say in a word why not.

use crate::decimal::ArithError;
use vstd::prelude::*;

verus! {

/// Passed, or a word for why not.
pub type Verdict = Result<Result<(), &'static str>, ArithError>;

/// Nothing said, or a word.
pub type Said = Result<Option<Seq<char>>, ArithError>;

/// What a verdict says.
pub open spec fn said(v: Verdict) -> Said {
    match v {
        Err(e) => Err(e),
        Ok(Ok(_)) => Ok(None),
        Ok(Err(word)) => Ok(Some(word@)),
    }
}

/// The second answer where the first says nothing.
pub open spec fn or_else(a: Said, b: Said) -> Said {
    match a {
        Ok(None) => b,
        other => other,
    }
}

} // verus!
