use vstd::prelude::*;

verus! {

/// What the evaluator asks of the program that runs it: IEEE-754 double arithmetic on
/// bit patterns, float text, and a place to print.
pub trait Host {
    /// The float nearest to `x`.
    fn float_of_int(&self, x: i64) -> u64;

    fn float_add(&self, a: u64, b: u64) -> u64;

    fn float_sub(&self, a: u64, b: u64) -> u64;

    fn float_mul(&self, a: u64, b: u64) -> u64;

    fn float_div(&self, a: u64, b: u64) -> u64;

    fn float_neg(&self, a: u64) -> u64;

    fn float_less(&self, a: u64, b: u64) -> bool;

    fn float_less_eq(&self, a: u64, b: u64) -> bool;

    /// The value of a float literal such as `2.5`, if it is one.
    fn float_parse(&self, text: &String) -> Option<u64>;

    /// The text of a float.
    fn float_text(&self, a: u64) -> String;

    /// Shows one line of output.
    fn emit(&self, line: &String);
}

} // verus!
