use vstd::prelude::*;

use crate::text::{decimal, push_str, string_from, usize_to_string};

verus! {

/// The naming conventions of the intermediate representation.
pub struct IRNaming {}

impl IRNaming {
    pub const SSA_VALUE_PREFIX: &'static str = "%t";
    pub const BASIC_BLOCK_PREFIX: &'static str = "bb";
    pub const MODULE_PREFIX: &'static str = "module";

    /// `module::NAME`.
    pub fn module_name(name: &str) -> (r: String)
        ensures
            r@ == "module::"@ + name@,
    {
        let mut r = string_from("module::");
        push_str(&mut r, name);
        r
    }

    /// A function keeps its name.
    pub fn function_name(name: &str) -> (r: String)
        ensures
            r@ == name@,
    {
        string_from(name)
    }

    /// `bbN`.
    pub fn basic_block_name(index: usize) -> (r: String)
        ensures
            r@ == "bb"@ + decimal(index as nat),
    {
        let mut r = string_from("bb");
        let n = usize_to_string(index);
        push_str(&mut r, n.as_str());
        r
    }

    /// `%tN`.
    pub fn temporary_name(index: usize) -> (r: String)
        ensures
            r@ == "%t"@ + decimal(index as nat),
    {
        let mut r = string_from("%t");
        let n = usize_to_string(index);
        push_str(&mut r, n.as_str());
        r
    }

    /// `%pN`.
    pub fn parameter_name(index: usize) -> (r: String)
        ensures
            r@ == "%p"@ + decimal(index as nat),
    {
        let mut r = string_from("%p");
        let n = usize_to_string(index);
        push_str(&mut r, n.as_str());
        r
    }
}

/// Hands out fresh names: `%t0`, `%t1`, ... for values and `%p0`, `%p1`,
/// ... for parameters, each counter on its own.
pub struct SSAValueGenerator {
    next_value_index: usize,
    next_parameter_index: usize,
}

impl SSAValueGenerator {
    /// How many value names were handed out.
    pub closed spec fn values_issued(&self) -> nat {
        self.next_value_index as nat
    }

    /// How many parameter names were handed out.
    pub closed spec fn parameters_issued(&self) -> nat {
        self.next_parameter_index as nat
    }

    pub fn new() -> (g: SSAValueGenerator)
        ensures
            g.values_issued() == 0,
            g.parameters_issued() == 0,
    {
        SSAValueGenerator { next_value_index: 0, next_parameter_index: 0 }
    }

    /// The next value name, `%tN`.
    pub fn next_value(&mut self) -> (r: String)
        requires
            old(self).values_issued() < usize::MAX,
        ensures
            r@ == "%t"@ + decimal(old(self).values_issued()),
            final(self).values_issued() == old(self).values_issued() + 1,
            final(self).parameters_issued() == old(self).parameters_issued(),
    {
        let r = IRNaming::temporary_name(self.next_value_index);
        self.next_value_index = self.next_value_index + 1;
        r
    }

    /// The next parameter name, `%pN`.
    pub fn next_parameter(&mut self) -> (r: String)
        requires
            old(self).parameters_issued() < usize::MAX,
        ensures
            r@ == "%p"@ + decimal(old(self).parameters_issued()),
            final(self).parameters_issued() == old(self).parameters_issued() + 1,
            final(self).values_issued() == old(self).values_issued(),
    {
        let r = IRNaming::parameter_name(self.next_parameter_index);
        self.next_parameter_index = self.next_parameter_index + 1;
        r
    }
}

} // verus!
