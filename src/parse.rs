use vstd::prelude::*;
use crate::error::ErrorKind;
use crate::expr::{Expr, Value, models};
use crate::host::Host;
use crate::lex::{agree, lex, no_floats, tokenize};
use crate::token::{Atom, Token, operator_text};

verus! {

/// The value a literal stands for; an operator stands for the symbol it is written as.
pub open spec fn atom_value(a: Atom) -> Value {
    match a {
        Atom::Op(op) => Value::Sym(operator_text(op)),
        Atom::Bool(b) => Value::Bool(b),
        Atom::Int(i) => Value::Int(i),
        Atom::Float(b) => Value::Flt(b),
        Atom::Str(s) => Value::Str(s@),
    }
}

/// The model of a token: a delimiter, or the value a single word or string stands for.
pub enum Tok {
    Open,
    Close,
    OpenVec,
    CloseVec,
    Leaf(Value),
}

pub open spec fn tok(t: Token) -> Tok {
    match t {
        Token::Open => Tok::Open,
        Token::Close => Tok::Close,
        Token::OpenVec => Tok::OpenVec,
        Token::CloseVec => Tok::CloseVec,
        Token::Atom(a) => Tok::Leaf(atom_value(a)),
        Token::Sym(s) => Tok::Leaf(Value::Sym(s@)),
    }
}

/// The models of a token sequence.
pub open spec fn toks(t: Seq<Token>) -> Seq<Tok> {
    Seq::new(t.len(), |i: int| tok(t[i]))
}

/// The closing delimiter of a list (`list`) or of a vector.
pub open spec fn closer(list: bool) -> Tok {
    if list {
        Tok::Close
    } else {
        Tok::CloseVec
    }
}

/// The expression that starts at token `pos`, and the index just past it.
pub open spec fn parse_at(t: Seq<Tok>, pos: int) -> Option<(Value, int)>
    decreases t.len() - pos, 1nat,
{
    if pos < 0 || pos >= t.len() {
        None
    } else {
        match t[pos] {
            Tok::Open => match parse_items(t, pos + 1, true) {
                Some((items, p)) => Some((Value::List(items), p)),
                None => None,
            },
            Tok::OpenVec => match parse_items(t, pos + 1, false) {
                Some((items, p)) => Some((Value::Vector(items), p)),
                None => None,
            },
            Tok::Leaf(v) => Some((v, pos + 1)),
            _ => None,
        }
    }
}

/// The elements from token `pos` up to the closing delimiter, and the index past it.
pub open spec fn parse_items(t: Seq<Tok>, pos: int, list: bool) -> Option<(Seq<Value>, int)>
    decreases t.len() - pos, 2nat,
{
    if pos < 0 || pos >= t.len() {
        None
    } else if t[pos] == closer(list) {
        Some((Seq::empty(), pos + 1))
    } else {
        match parse_at(t, pos) {
            Some((v, p)) => if pos < p <= t.len() {
                match parse_items(t, p, list) {
                    Some((rest, q)) => Some((seq![v] + rest, q)),
                    None => None,
                }
            } else {
                None
            },
            None => None,
        }
    }
}

/// A token sequence read as one whole expression.
pub open spec fn parse_tokens(t: Seq<Tok>) -> Option<Value> {
    match parse_at(t, 0) {
        Some((v, p)) => if p == t.len() {
            Some(v)
        } else {
            None
        },
        None => None,
    }
}

/// The expression a literal stands for.
pub fn atom_expr(a: &Atom) -> (r: Expr)
    ensures
        r.model() == atom_value(*a),
{
    match a {
        Atom::Op(op) => Expr::Sym(op.symbol()),
        Atom::Bool(b) => Expr::Bool(*b),
        Atom::Int(i) => Expr::Int(*i),
        Atom::Float(b) => Expr::Flt(*b),
        Atom::Str(s) => Expr::Str(s.clone()),
    }
}

fn parse_expr(t: &Vec<Token>, pos: usize) -> (r: Result<(Expr, usize), usize>)
    ensures
        match parse_at(toks(t@), pos as int) {
            Some((v, p)) => r matches Ok((e, q)) && e.model() == v && q == p,
            None => r is Err,
        },
    decreases t.len() - pos, 1nat,
{
    if pos >= t.len() {
        return Err(pos);
    }
    match &t[pos] {
        Token::Open => match parse_seq(t, pos + 1, true) {
            Ok((items, p)) => Ok((Expr::List(items), p)),
            Err(e) => Err(e),
        },
        Token::OpenVec => match parse_seq(t, pos + 1, false) {
            Ok((items, p)) => Ok((Expr::Vector(items), p)),
            Err(e) => Err(e),
        },
        Token::Atom(a) => Ok((atom_expr(a), pos + 1)),
        Token::Sym(s) => Ok((Expr::Sym(s.clone()), pos + 1)),
        _ => Err(pos),
    }
}

fn parse_seq(t: &Vec<Token>, pos: usize, list: bool) -> (r: Result<(Vec<Expr>, usize), usize>)
    requires
        pos <= t.len(),
    ensures
        match parse_items(toks(t@), pos as int, list) {
            Some((vs, p)) => r matches Ok((es, q)) && models(es@) == vs && q == p,
            None => r is Err,
        },
    decreases t.len() - pos, 2nat,
{
    if pos >= t.len() {
        return Err(pos);
    }
    let close = match &t[pos] {
        Token::Close => list,
        Token::CloseVec => !list,
        _ => false,
    };
    if close {
        assert(models(Seq::<Expr>::empty()) =~= Seq::<Value>::empty());
        return Ok((Vec::new(), pos + 1));
    }
    assert(toks(t@)[pos as int] != closer(list));
    match parse_expr(t, pos) {
        Ok((e, p)) => {
            if p <= pos || p > t.len() {
                return Err(pos);
            }
            match parse_seq(t, p, list) {
                Ok((mut rest, q)) => {
                    let ghost old_rest = rest@;
                    let ghost m = e.model();
                    rest.insert(0, e);
                    assert(models(rest@) =~= seq![m] + models(old_rest));
                    Ok((rest, q))
                },
                Err(x) => Err(x),
            }
        },
        Err(x) => Err(x),
    }
}

/// Reads a token sequence as one expression: `Eof` where there are no tokens, a parse
/// error where they do not form exactly one expression.
pub fn parse_token_seq(t: &Vec<Token>) -> (r: Result<Expr, ErrorKind>)
    ensures
        t.len() == 0 ==> r == Err::<Expr, ErrorKind>(ErrorKind::Eof),
        t.len() > 0 ==> match parse_tokens(toks(t@)) {
            Some(v) => r matches Ok(e) && e.model() == v,
            None => r matches Err(ErrorKind::Parse(_)),
        },
{
    if t.len() == 0 {
        return Err(ErrorKind::Eof);
    }
    match parse_expr(t, 0) {
        Ok((e, p)) => {
            if p == t.len() {
                Ok(e)
            } else {
                Err(ErrorKind::Parse(p))
            }
        },
        Err(p) => Err(ErrorKind::Parse(p)),
    }
}

/// Where the tokens agree with `want` and no token is a float, they are `want`.
proof fn lemma_agree_exact(got: Seq<Tok>, want: Seq<Tok>)
    requires
        agree(got, want),
        no_floats(want),
    ensures
        got == want,
{
    assert(got =~= want);
}

/// Reads one line of source text as one expression: the value the tokens of `lex` parse
/// to. Text with no tokens is `Eof`, not a parse error. Where a word is float-shaped, the
/// host reads it, and the text is a parse error where the host refuses it.
pub fn parse<H: Host>(text: &str, host: &H) -> (r: Result<Expr, ErrorKind>)
    ensures
        match lex(text@) {
            None => r matches Err(ErrorKind::Parse(_)),
            Some(ts) => no_floats(ts) ==> if ts.len() == 0 {
                r == Err::<Expr, ErrorKind>(ErrorKind::Eof)
            } else {
                match parse_tokens(ts) {
                    Some(v) => r matches Ok(e) && e.model() == v,
                    None => r matches Err(ErrorKind::Parse(_)),
                }
            },
        },
        r matches Err(e) ==> (e is Parse || e is Eof),
{
    let ts = tokenize(text, host)?;
    proof {
        if let Some(want) = lex(text@) {
            if no_floats(want) {
                lemma_agree_exact(toks(ts@), want);
            }
        }
    }
    parse_token_seq(&ts)
}

} // verus!
