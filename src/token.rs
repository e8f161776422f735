use vstd::prelude::*;

verus! {

/// The four arithmetic operator symbols.
#[derive(Clone, Copy, Debug, PartialEq, Eq, Hash, Structural)]
pub enum Operator {
    Add,
    Sub,
    Mul,
    Div,
}

/// The symbol an operator is written as.
pub open spec fn operator_text(op: Operator) -> Seq<char> {
    match op {
        Operator::Add => seq!['+'],
        Operator::Sub => seq!['-'],
        Operator::Mul => seq!['*'],
        Operator::Div => seq!['/'],
    }
}

impl Operator {
    /// Reads an operator from its one-character symbol.
    pub fn parse(x: &str) -> (r: Result<Operator, ()>)
        ensures
            r matches Ok(op) ==> operator_text(op) == x@,
            r is Err ==> forall|op: Operator| operator_text(op) != x@,
    {
        let cs = crate::text::chars_of(x);
        if cs.len() != 1 {
            return Err(());
        }
        let c = cs[0];
        if c == '+' {
            Ok(Operator::Add)
        } else if c == '-' {
            Ok(Operator::Sub)
        } else if c == '*' {
            Ok(Operator::Mul)
        } else if c == '/' {
            Ok(Operator::Div)
        } else {
            Err(())
        }
    }

    /// The symbol this operator is written as.
    pub fn symbol(&self) -> (r: String)
        ensures
            r@ == operator_text(*self),
    {
        let c = match self {
            Operator::Add => '+',
            Operator::Sub => '-',
            Operator::Mul => '*',
            Operator::Div => '/',
        };
        crate::text::string_of(&vec![c])
    }
}

/// A literal read from source text. A float is held as its IEEE-754 bits.
#[derive(Debug, PartialEq, Eq)]
pub enum Atom {
    Op(Operator),
    Bool(bool),
    Int(i64),
    Float(u64),
    Str(String),
}

/// One lexical unit of source text.
#[derive(Debug, PartialEq, Eq)]
pub enum Token {
    /// `(`
    Open,
    /// `)`
    Close,
    /// `[`
    OpenVec,
    /// `]`
    CloseVec,
    Atom(Atom),
    /// A bare name, such as `first` or `<=`.
    Sym(String),
}

} // verus!
