//! The formatting options that the formatter reads.
use vstd::prelude::*;

verus! {

/// How the arguments of a function definition break when they do not fit.
#[derive(Clone, Copy, Debug, PartialEq, Eq, Structural)]
pub enum FunctionLineBreaks {
    /// Arguments aligned after the opening parenthesis.
    Hanging,
    /// Arguments on their own lines, indented twice.
    Double,
    /// Arguments on their own lines, indented once.
    Single,
}

#[derive(Clone, Copy, Debug, PartialEq, Eq, Structural)]
pub struct FormattingConfig {
    pub line_length: i32,
    pub indent: i32,
    /// Keep the embracing operator `{{ x }}` on one line.
    pub embracing_op_no_nl: bool,
    pub allow_nl_after_assignment: bool,
    pub space_before_complex_rhs_in_formulas: bool,
    pub strip_suffix_whitespace_in_function_defs: bool,
    pub function_line_breaks: FunctionLineBreaks,
}

impl FormattingConfig {
    /// With doubly indented function arguments, the indent can be doubled
    /// without overflow.
    pub open spec fn wf(&self) -> bool {
        self.function_line_breaks is Double ==> i32::MIN <= 2 * self.indent <= i32::MAX
    }
}

} // verus!
