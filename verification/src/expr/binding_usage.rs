//! The use of a binding by its name.

use crate::env::{binding_value, Env};
use crate::expr::{outcome, parsed};
use crate::util::{extract_ident, scan_ident};
use crate::val::Val;
use vstd::prelude::*;

verus! {

/// A reference to a binding made earlier.
#[derive(Debug, PartialEq, Eq)]
pub struct BindingUsage {
    pub name: String,
}

impl View for BindingUsage {
    type V = Seq<char>;

    /// The name that is used.
    open spec fn view(&self) -> Seq<char> {
        self.name@
    }
}

impl BindingUsage {
    /// Parses an identifier as the use of a binding.
    pub fn new(s: &str) -> (res: Result<(&str, Self), String>)
        ensures
            parsed(res) == scan_ident(s@),
    {
        let (rest, name) = extract_ident(s)?;
        Ok((rest, BindingUsage { name: name.to_owned() }))
    }

    /// Looks the name up in `env`; the lookup's error is passed on unchanged.
    pub fn eval(&self, env: &Env) -> (res: Result<Val, String>)
        ensures
            outcome(res) == binding_value(env@, self@),
    {
        env.get_binding_value(self.name.as_str())
    }
}

} // verus!
