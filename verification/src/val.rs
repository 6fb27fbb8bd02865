//! Runtime values.

use crate::decimal::{i32_to_string, signed_decimal_text};
use vstd::prelude::*;

verus! {

/// What an evaluation yields: a number, or `Unit` for "no value".
#[derive(Debug, Clone, Copy, PartialEq, Eq, Structural)]
pub enum Val {
    Number(i32),
    Unit,
}

impl Val {
    /// The display form: the decimal integer, or the word `Unit`.
    pub open spec fn text(self) -> Seq<char> {
        match self {
            Val::Number(n) => signed_decimal_text(n as int),
            Val::Unit => "Unit"@,
        }
    }

    /// Renders the value in its display form.
    pub fn to_string(&self) -> (res: String)
        ensures
            res@ == self.text(),
    {
        match self {
            Val::Number(n) => i32_to_string(*n),
            Val::Unit => "Unit".to_owned(),
        }
    }
}

} // verus!
