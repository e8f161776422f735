use vstd::prelude::*;
use crate::expr::{Builtin, Expr, Function, Value, models};
use crate::host::Host;
use crate::parse::{atom_expr, atom_value};
use crate::token::Atom;
use crate::text::{chars_of, string_of};

verus! {

/// The name a builtin is bound to.
pub open spec fn builtin_name(b: Builtin) -> Seq<char> {
    match b {
        Builtin::Not => "not"@,
        Builtin::Or => "or"@,
        Builtin::And => "and"@,
        Builtin::Print => "print"@,
        Builtin::Add => "+"@,
        Builtin::Sub => "-"@,
        Builtin::Mul => "*"@,
        Builtin::Div => "/"@,
        Builtin::Equal => "="@,
        Builtin::Less => "<"@,
        Builtin::LessEq => "<="@,
        Builtin::Greater => ">"@,
        Builtin::GreaterEq => ">="@,
        Builtin::First => "first"@,
        Builtin::Rest => "rest"@,
        Builtin::Cons => "cons"@,
        Builtin::Exit => "exit"@,
    }
}

impl Builtin {
    /// The name this builtin is bound to in the root environment.
    pub fn name(&self) -> (r: &'static str)
        ensures
            r@ == builtin_name(*self),
    {
        match self {
            Builtin::Not => "not",
            Builtin::Or => "or",
            Builtin::And => "and",
            Builtin::Print => "print",
            Builtin::Add => "+",
            Builtin::Sub => "-",
            Builtin::Mul => "*",
            Builtin::Div => "/",
            Builtin::Equal => "=",
            Builtin::Less => "<",
            Builtin::LessEq => "<=",
            Builtin::Greater => ">",
            Builtin::GreaterEq => ">=",
            Builtin::First => "first",
            Builtin::Rest => "rest",
            Builtin::Cons => "cons",
            Builtin::Exit => "exit",
        }
    }
}

pub open spec fn digit(d: nat) -> char {
    if d == 0 { '0' } else if d == 1 { '1' } else if d == 2 { '2' } else if d == 3 { '3' }
    else if d == 4 { '4' } else if d == 5 { '5' } else if d == 6 { '6' } else if d == 7 { '7' }
    else if d == 8 { '8' } else { '9' }
}

/// The decimal digits of `n`, most significant first.
pub open spec fn digits(n: nat) -> Seq<char>
    decreases n,
{
    if n < 10 {
        seq![digit(n)]
    } else {
        digits(n / 10).push(digit(n % 10))
    }
}

/// The decimal text of an integer, with a leading `-` when it is negative.
pub open spec fn decimal(i: int) -> Seq<char> {
    if i < 0 {
        seq!['-'] + digits((-i) as nat)
    } else {
        digits(i as nat)
    }
}

/// A value holds no float outside a procedure.
pub open spec fn float_free(v: Value) -> bool
    decreases v, 0nat,
{
    match v {
        Value::Flt(_) => false,
        Value::List(s) => all_float_free(s, s.len()),
        Value::Vector(s) => all_float_free(s, s.len()),
        _ => true,
    }
}

/// None of the first `n` elements of `s` holds a float.
pub open spec fn all_float_free(s: Seq<Value>, n: nat) -> bool
    decreases s, n,
{
    if n == 0 || n > s.len() {
        true
    } else {
        all_float_free(s, (n - 1) as nat) && float_free(s[n - 1])
    }
}

proof fn lemma_float_free_prefix(s: Seq<Value>, n: nat, k: nat)
    requires
        n <= s.len(),
        k < n,
        all_float_free(s, n),
    ensures
        all_float_free(s, k + 1),
    decreases n,
{
    if k + 1 < n {
        lemma_float_free_prefix(s, (n - 1) as nat, k);
    }
}

/// The text of the first `n` elements of `s`, separated by single spaces.
pub open spec fn joined(s: Seq<Value>, n: nat) -> Seq<char>
    decreases s, n,
{
    if n == 0 || n > s.len() {
        Seq::empty()
    } else if n == 1 {
        shown(s[0])
    } else {
        joined(s, (n - 1) as nat) + seq![' '] + shown(s[n - 1])
    }
}

/// The text of a value that holds no float.
pub open spec fn shown(v: Value) -> Seq<char>
    decreases v, 0nat,
{
    match v {
        Value::Nil => "nil"@,
        Value::Int(i) => decimal(i as int),
        Value::Flt(_) => Seq::empty(),
        Value::Str(s) => seq!['"'] + s + seq!['"'],
        Value::Bool(b) => if b { "true"@ } else { "false"@ },
        Value::Sym(s) => s,
        Value::List(s) => "( "@ + joined(s, s.len()) + " )"@,
        Value::Vector(s) => "[ "@ + joined(s, s.len()) + " ]"@,
        Value::Builtin(b) => "#<builtin "@ + builtin_name(b) + ">"@,
        Value::Lambda(_, _, _) => "#<lambda>"@,
    }
}

fn push_text(out: &mut Vec<char>, s: &str)
    ensures
        final(out)@ == old(out)@ + s@,
{
    let cs = chars_of(s);
    let mut i: usize = 0;
    while i < cs.len()
        invariant
            i <= cs.len(),
            cs@ == s@,
            out@ == old(out)@ + cs@.take(i as int),
        decreases cs.len() - i,
    {
        out.push(cs[i]);
        i = i + 1;
        assert(out@ =~= old(out)@ + cs@.take(i as int));
    }
    assert(cs@.take(i as int) =~= cs@);
}

fn push_digits(n: u64, out: &mut Vec<char>)
    ensures
        final(out)@ == old(out)@ + digits(n as nat),
    decreases n,
{
    if n >= 10 {
        push_digits(n / 10, out);
    }
    let d = n % 10;
    let c = if d == 0 { '0' } else if d == 1 { '1' } else if d == 2 { '2' } else if d == 3 { '3' }
    else if d == 4 { '4' } else if d == 5 { '5' } else if d == 6 { '6' } else if d == 7 { '7' }
    else if d == 8 { '8' } else { '9' };
    out.push(c);
    assert(out@ =~= old(out)@ + digits(n as nat));
}

fn push_int(i: i64, out: &mut Vec<char>)
    ensures
        final(out)@ == old(out)@ + decimal(i as int),
{
    if i < 0 {
        out.push('-');
        let m: u64 = if i == i64::MIN {
            9223372036854775808u64
        } else {
            (-i) as u64
        };
        push_digits(m, out);
        assert(out@ =~= old(out)@ + decimal(i as int));
    } else {
        push_digits(i as u64, out);
    }
}

fn render_into<H: Host>(e: &Expr, host: &H, out: &mut Vec<char>)
    ensures
        float_free(e.model()) ==> final(out)@ == old(out)@ + shown(e.model()),
    decreases e,
{
    match e {
        Expr::Nil => push_text(out, "nil"),
        Expr::Int(i) => push_int(*i, out),
        Expr::Flt(b) => {
            let t = host.float_text(*b);
            push_text(out, t.as_str());
        },
        Expr::Str(s) => {
            out.push('"');
            push_text(out, s.as_str());
            out.push('"');
            assert(out@ =~= old(out)@ + shown(e.model()));
        },
        Expr::Bool(b) => {
            if *b {
                push_text(out, "true")
            } else {
                push_text(out, "false")
            }
        },
        Expr::Sym(s) => push_text(out, s.as_str()),
        Expr::List(v) => {
            push_text(out, "( ");
            render_all(v, host, out);
            push_text(out, " )");
            assert(float_free(e.model()) ==> out@ =~= old(out)@ + shown(e.model()));
        },
        Expr::Vector(v) => {
            push_text(out, "[ ");
            render_all(v, host, out);
            push_text(out, " ]");
            assert(float_free(e.model()) ==> out@ =~= old(out)@ + shown(e.model()));
        },
        Expr::Function(Function::Builtin(b)) => {
            push_text(out, "#<builtin ");
            push_text(out, b.name());
            push_text(out, ">");
            assert(out@ =~= old(out)@ + shown(e.model()));
        },
        Expr::Function(Function::Lambda(_)) => push_text(out, "#<lambda>"),
    }
}

fn render_all<H: Host>(v: &Vec<Expr>, host: &H, out: &mut Vec<char>)
    ensures
        all_float_free(models(v@), v.len() as nat) ==> final(out)@
            == old(out)@ + joined(models(v@), v.len() as nat),
    decreases v,
{
    let ghost m = models(v@);
    let mut i: usize = 0;
    while i < v.len()
        invariant
            i <= v.len(),
            m == models(v@),
            all_float_free(m, v.len() as nat) ==> out@ == old(out)@
                + joined(m, i as nat),
        decreases v.len() - i,
    {
        let ghost before = out@;
        if i > 0 {
            out.push(' ');
        }
        render_into(&v[i], host, out);
        proof {
            if all_float_free(m, v.len() as nat) {
                lemma_float_free_prefix(m, v.len() as nat, i as nat);
                assert(float_free(m[i as int]));
                if i == 0 {
                    assert(out@ =~= old(out)@ + joined(m, 1));
                } else {
                    assert(out@ =~= old(out)@ + joined(m, (i + 1) as nat));
                }
            }
        }
        i = i + 1;
    }
}

impl Expr {
    /// The text of this value: atoms as literals, lists as `( a b c )`, vectors as `[ a b c ]`.
    pub fn display<H: Host>(&self, host: &H) -> (r: String)
        ensures
            float_free(self.model()) ==> r@ == shown(self.model()),
    {
        let mut out: Vec<char> = Vec::new();
        render_into(self, host, &mut out);
        assert(float_free(self.model()) ==> out@ =~= shown(self.model()));
        string_of(&out)
    }
}

impl Atom {
    /// The text of a literal, as the expression it stands for is shown.
    pub fn display<H: Host>(&self, host: &H) -> (r: String)
        ensures
            !(*self is Float) ==> r@ == shown(atom_value(*self)),
    {
        atom_expr(self).display(host)
    }
}

} // verus!
