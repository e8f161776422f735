use vstd::prelude::*;
use crate::display::builtin_name;
use crate::env::{bind_args, call_scope};
use crate::error::ErrorKind;
use crate::expr::{Builtin, Env, Expr, Function, Scope, Value, models, names};
use crate::host::Host;
use crate::ops;
use crate::text::{chars_of, string_of};

verus! {

/// How deeply `eval` may nest evaluations before it gives up.
pub const MAX_DEPTH: u64 = 400;

/// The builtins in the order the root environment binds them.
pub open spec fn builtin_table() -> Seq<Builtin> {
    seq![
        Builtin::Not, Builtin::Or, Builtin::And, Builtin::Print, Builtin::Add, Builtin::Sub,
        Builtin::Mul, Builtin::Div, Builtin::Equal, Builtin::Less, Builtin::LessEq,
        Builtin::Greater, Builtin::GreaterEq, Builtin::First, Builtin::Rest, Builtin::Cons,
        Builtin::Exit,
    ]
}

/// The root scope: each builtin bound to its name, and no parent.
pub open spec fn root_scope() -> Scope {
    Scope {
        frame: Seq::new(
            builtin_table().len(),
            |i: int| (builtin_name(builtin_table()[i]), Value::Builtin(builtin_table()[i])),
        ),
        parent: None,
    }
}

/// The root environment, binding every builtin under its name.
pub fn env() -> (r: Env)
    ensures
        r.model() == root_scope(),
{
    let table: Vec<Builtin> = vec![
        Builtin::Not, Builtin::Or, Builtin::And, Builtin::Print, Builtin::Add, Builtin::Sub,
        Builtin::Mul, Builtin::Div, Builtin::Equal, Builtin::Less, Builtin::LessEq,
        Builtin::Greater, Builtin::GreaterEq, Builtin::First, Builtin::Rest, Builtin::Cons,
        Builtin::Exit,
    ];
    assert(table@ =~= builtin_table());
    let mut frame: Vec<(String, Expr)> = Vec::new();
    let mut i: usize = 0;
    while i < table.len()
        invariant
            i <= table.len(),
            table@ == builtin_table(),
            frame.len() == i,
            forall|j: int|
                0 <= j < i ==> frame[j].0@ == builtin_name(table[j]) && frame[j].1
                    == Expr::Function(Function::Builtin(table[j])),
        decreases table.len() - i,
    {
        let b = table[i];
        let name = string_of(&chars_of(b.name()));
        frame.push((name, Expr::Function(Function::Builtin(b))));
        i = i + 1;
    }
    let r = Env { frame, parent: None };
    assert forall|j: int| 0 <= j < 17 implies r.model().frame[j] == root_scope().frame[j] by {
        assert(r.frame[j].1.model() == Value::Builtin(table[j]));
    }
    assert(r.model().frame =~= root_scope().frame);
    r
}

/// Values that evaluate to themselves.
pub open spec fn self_evaluating(e: Expr) -> bool {
    e is Nil || e is Int || e is Flt || e is Str || e is Bool || e is Function
}

/// The first element of a non-empty list.
pub open spec fn head_of(e: Expr) -> Option<Expr> {
    match e {
        Expr::List(v) => if v.len() > 0 {
            Some(v@[0])
        } else {
            None
        },
        _ => None,
    }
}

/// A list whose head is a literal that is not a procedure.
pub open spec fn head_not_callable(e: Expr) -> bool {
    match head_of(e) {
        Some(h) => self_evaluating(h) && !(h is Function),
        None => false,
    }
}

/// The name at the head of a list, where no scope of `s` binds it.
pub open spec fn unbound_head(e: Expr, s: Scope) -> Option<String> {
    match head_of(e) {
        Some(Expr::Sym(n)) => if s.lookup(n@) is None {
            Some(n)
        } else {
            None
        },
        _ => None,
    }
}

/// What the head of a list evaluates to, where it is a literal procedure or a bound name.
pub open spec fn head_value(e: Expr, s: Scope) -> Option<Value> {
    match head_of(e) {
        Some(Expr::Sym(n)) => s.lookup(n@),
        Some(h) => if h is Function {
            Some(h.model())
        } else {
            None
        },
        None => None,
    }
}

/// Every argument of a list (each element after the head) is a literal.
pub open spec fn literal_args(e: Expr) -> bool {
    match e {
        Expr::List(v) => forall|k: int| 1 <= k < v.len() ==> self_evaluating(#[trigger] v@[k]),
        _ => false,
    }
}

/// The models of the arguments of a list.
pub open spec fn arg_models(e: Expr) -> Seq<Value> {
    match e {
        Expr::List(v) => if v.len() > 0 {
            models(v@.subrange(1, v.len() as int))
        } else {
            Seq::empty()
        },
        _ => Seq::empty(),
    }
}

/// What evaluating a procedure body gives in scope `s`, where the body is a literal or a
/// name.
pub open spec fn body_result(body: Value, s: Scope, r: Result<Expr, ErrorKind>) -> bool {
    match body {
        Value::Sym(x) => match s.lookup(x) {
            Some(v) => r matches Ok(e) && e.model() == v,
            None => r matches Err(ErrorKind::UndefinedSymbol(n)) && n@ == x,
        },
        Value::List(_) | Value::Vector(_) => true,
        _ => r matches Ok(e) && e.model() == body,
    }
}

/// What applying a procedure value `f` to literal arguments with models `args` gives.
pub open spec fn apply_result(f: Value, args: Seq<Value>, r: Result<Expr, ErrorKind>) -> bool {
    match f {
        Value::Builtin(b) => exists|a: Seq<Expr>| models(a) == args && #[trigger] builtin_post(b, a, r),
        Value::Lambda(ps, body, cap) => if ps.len() != args.len() {
            r == Err::<Expr, ErrorKind>(ErrorKind::Arity)
        } else {
            body_result(*body, call_scope(ps, args, *cap), r)
        },
        _ => true,
    }
}

/// What the builtin `b` returns on `args`: the contract of the operation of that name.
pub open spec fn builtin_post(b: Builtin, args: Seq<Expr>, r: Result<Expr, ErrorKind>) -> bool {
    match b {
        Builtin::Not => ops::not_post(args, r),
        Builtin::Or => ops::or_post(args, r),
        Builtin::And => ops::and_post(args, r),
        Builtin::Print => ops::print_post(args, r),
        Builtin::Add => ops::add_post(args, r),
        Builtin::Sub => ops::sub_post(args, r),
        Builtin::Mul => ops::mul_post(args, r),
        Builtin::Div => ops::div_post(args, r),
        Builtin::Equal => ops::equal_post(args, r),
        Builtin::Less => ops::less_post(args, r),
        Builtin::LessEq => ops::less_eq_post(args, r),
        Builtin::Greater => ops::greater_post(args, r),
        Builtin::GreaterEq => ops::greater_eq_post(args, r),
        Builtin::First => ops::first_post(args, r),
        Builtin::Rest => ops::rest_post(args, r),
        Builtin::Cons => ops::cons_post(args, r),
        Builtin::Exit => ops::exit_post(args, r),
    }
}

/// Runs a builtin on evaluated arguments.
pub fn call_builtin<H: Host>(b: Builtin, args: &[Expr], host: &H) -> (r: Result<Expr, ErrorKind>)
    ensures
        builtin_post(b, args@, r),
{
    match b {
        Builtin::Not => ops::not(args),
        Builtin::Or => ops::or(args),
        Builtin::And => ops::and(args),
        Builtin::Print => ops::print(args, host),
        Builtin::Add => ops::add(args, host),
        Builtin::Sub => ops::sub(args, host),
        Builtin::Mul => ops::mul(args, host),
        Builtin::Div => ops::div(args, host),
        Builtin::Equal => ops::equal(args),
        Builtin::Less => ops::less(args, host),
        Builtin::LessEq => ops::less_eq(args, host),
        Builtin::Greater => ops::greater(args, host),
        Builtin::GreaterEq => ops::greater_eq(args, host),
        Builtin::First => ops::first(args),
        Builtin::Rest => ops::rest(args),
        Builtin::Cons => ops::cons(args),
        Builtin::Exit => ops::exit(args),
    }
}

/// Evaluates each of `items[from..]` in order, stopping at the first error.
fn eval_each<H: Host>(items: &Vec<Expr>, from: usize, env: &Env, host: &H, depth: u64) -> (r: Result<
    Vec<Expr>,
    ErrorKind,
>)
    requires
        depth > 0,
        from <= items.len(),
    ensures
        r matches Ok(v) ==> v.len() == items.len() - from,
        (forall|k: int| from <= k < items.len() ==> self_evaluating(#[trigger] items@[k])) ==> (
        r matches Ok(v) && models(v@) == models(items@.subrange(from as int, items.len() as int))),
    decreases depth, 0nat,
{
    let mut out: Vec<Expr> = Vec::new();
    let mut i: usize = from;
    while i < items.len()
        invariant
            depth > 0,
            from <= i <= items.len(),
            out.len() == i - from,
            (forall|k: int| from <= k < items.len() ==> self_evaluating(#[trigger] items@[k]))
                ==> forall|j: int| 0 <= j < out.len() ==> #[trigger] out@[j].model() == items@[from + j].model(),
        decreases items.len() - i,
    {
        match eval_depth(&items[i], env, host, depth - 1) {
            Ok(v) => out.push(v),
            Err(e) => {
                return Err(e);
            },
        }
        i = i + 1;
    }
    proof {
        if forall|k: int| from <= k < items.len() ==> self_evaluating(#[trigger] items@[k]) {
            let want = models(items@.subrange(from as int, items.len() as int));
            assert forall|j: int| 0 <= j < out.len() implies models(out@)[j] == want[j] by {
                assert(out@[j].model() == items@[from + j].model());
                assert(items@.subrange(from as int, items.len() as int)[j] == items@[from + j]);
            }
            assert(models(out@) =~= want);
        }
    }
    Ok(out)
}

/// Evaluates `expr` in `env`, nesting at most `depth` evaluations of lists and vectors.
pub fn eval_depth<H: Host>(expr: &Expr, env: &Env, host: &H, depth: u64) -> (r: Result<
    Expr,
    ErrorKind,
>)
    ensures
        self_evaluating(*expr) ==> (r matches Ok(v) && v.model() == expr.model()),
        expr matches Expr::Sym(s) ==> match env.model().lookup(s@) {
            Some(v) => (r matches Ok(e) && e.model() == v),
            None => r == Err::<Expr, ErrorKind>(ErrorKind::UndefinedSymbol(*s)),
        },
        (expr matches Expr::List(v) && v.len() == 0) ==> (r matches Ok(e) && e.model()
            == Value::List(Seq::empty())),
        (expr is List || expr is Vector) && depth == 0 && !(expr matches Expr::List(v) && v.len()
            == 0) ==> r == Err::<Expr, ErrorKind>(ErrorKind::TooDeep),
        depth > 0 && head_not_callable(*expr) ==> r == Err::<Expr, ErrorKind>(
            ErrorKind::NotCallable,
        ),
        depth > 0 && unbound_head(*expr, env.model()) is Some ==> r == Err::<Expr, ErrorKind>(
            ErrorKind::UndefinedSymbol(unbound_head(*expr, env.model())->Some_0),
        ),
        depth > 0 && literal_args(*expr) && head_value(*expr, env.model()) is Some ==> apply_result(
            head_value(*expr, env.model())->Some_0,
            arg_models(*expr),
            r,
        ),
    decreases depth, 1nat,
{
    match expr {
        Expr::Sym(s) => {
            return match env.lookup(s) {
                Some(v) => Ok(v),
                None => Err(ErrorKind::UndefinedSymbol(s.clone())),
            };
        },
        Expr::List(v) => {
            if v.len() == 0 {
                let r = Expr::List(Vec::new());
                assert(models(Seq::<Expr>::empty()) =~= Seq::<Value>::empty());
                return Ok(r);
            }
        },
        Expr::Vector(_) => {},
        _ => {
            return Ok(expr.copy());
        },
    }
    if depth == 0 {
        return Err(ErrorKind::TooDeep);
    }
    match expr {
        Expr::Vector(items) => {
            match eval_each(items, 0, env, host, depth) {
                Ok(v) => Ok(Expr::Vector(v)),
                Err(e) => Err(e),
            }
        },
        Expr::List(items) => {
            let head = eval_depth(&items[0], env, host, depth - 1)?;
            if !matches!(head, Expr::Function(_)) {
                return Err(ErrorKind::NotCallable);
            }
            let args = eval_each(items, 1, env, host, depth)?;
            match head {
                Expr::Function(Function::Builtin(b)) => {
                    let r = call_builtin(b, args.as_slice(), host);
                    assert(builtin_post(b, args@, r));
                    r
                },
                Expr::Function(Function::Lambda(lam)) => {
                    let ghost am = models(args@);
                    let scope = match bind_args(&lam, args) {
                        Ok(sc) => sc,
                        Err(e) => {
                            assert(names(lam.params@).len() != am.len());
                            return Err(e);
                        },
                    };
                    eval_depth(&lam.body, &scope, host, depth - 1)
                },
                _ => Err(ErrorKind::NotCallable),
            }
        },
        _ => Err(ErrorKind::NotCallable),
    }
}

/// Evaluates `expr` in `env` with the default nesting budget.
pub fn eval<H: Host>(expr: &Expr, env: &Env, host: &H) -> (r: Result<Expr, ErrorKind>)
    ensures
        self_evaluating(*expr) ==> (r matches Ok(v) && v.model() == expr.model()),
        expr matches Expr::Sym(s) ==> match env.model().lookup(s@) {
            Some(v) => (r matches Ok(e) && e.model() == v),
            None => r == Err::<Expr, ErrorKind>(ErrorKind::UndefinedSymbol(*s)),
        },
        (expr matches Expr::List(v) && v.len() == 0) ==> (r matches Ok(e) && e.model()
            == Value::List(Seq::empty())),
{
    eval_depth(expr, env, host, MAX_DEPTH)
}

} // verus!
