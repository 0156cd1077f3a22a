use vstd::prelude::*;

use crate::ir::module::IRModule;
use crate::text::push_str;

verus! {

/// Why lowering a program to the intermediate representation failed, and
/// where, when that is known.
#[derive(Debug, Clone, PartialEq, Eq)]
pub struct IRLoweringError {
    pub message: String,
    pub location: Option<String>,
}

/// How a lowering error is shown: the message, then the location in
/// parentheses when there is one.
pub open spec fn lowering_error_text(message: Seq<char>, location: Option<Seq<char>>) -> Seq<char> {
    match location {
        Some(l) => message + " ("@ + l + ")"@,
        None => message,
    }
}

impl IRLoweringError {
    pub fn new(message: String) -> (e: IRLoweringError)
        ensures
            e.message == message,
            e.location is None,
    {
        IRLoweringError { message, location: None }
    }

    pub fn at(message: String, location: String) -> (e: IRLoweringError)
        ensures
            e.message == message,
            e.location == Some(location),
    {
        IRLoweringError { message, location: Some(location) }
    }

    /// The error as shown to the user (see `lowering_error_text`).
    pub fn render(&self) -> (r: String)
        ensures
            r@ == lowering_error_text(
                self.message@,
                match self.location {
                    Some(l) => Some(l@),
                    None => None,
                },
            ),
    {
        let mut r = self.message.clone();
        match &self.location {
            Some(l) => {
                push_str(&mut r, " (");
                push_str(&mut r, l.as_str());
                push_str(&mut r, ")");
            },
            None => {},
        }
        r
    }
}

/// A lowered module and the warnings met on the way.
#[derive(Debug)]
pub struct IRLoweringResult {
    pub module: IRModule,
    pub warnings: Vec<String>,
}

impl IRLoweringResult {
    pub fn new(module: IRModule) -> (r: IRLoweringResult)
        ensures
            r.module == module,
            r.warnings@.len() == 0,
    {
        IRLoweringResult { module, warnings: Vec::new() }
    }

    /// The same result with one more warning, last.
    pub fn with_warning(self, warning: String) -> (r: IRLoweringResult)
        ensures
            r.module == self.module,
            r.warnings@ == self.warnings@.push(warning),
    {
        let mut r = self;
        r.warnings.push(warning);
        r
    }
}

} // verus!
