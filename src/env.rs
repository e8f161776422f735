use vstd::prelude::*;
use crate::error::ErrorKind;
use crate::expr::{Env, Expr, Lambda, Scope, Value, models, names, opt_model};

verus! {

/// The binding of `name` in one frame: the latest one made.
pub open spec fn frame_get(f: Seq<(Seq<char>, Value)>, name: Seq<char>) -> Option<Value>
    decreases f.len(),
{
    if f.len() == 0 {
        None
    } else if f.last().0 == name {
        Some(f.last().1)
    } else {
        frame_get(f.drop_last(), name)
    }
}

impl Scope {
    /// Lexical lookup: this frame first, then the enclosing scopes outward.
    pub open spec fn lookup(self, name: Seq<char>) -> Option<Value>
        decreases self,
    {
        match frame_get(self.frame, name) {
            Some(v) => Some(v),
            None => match self.parent {
                Some(p) => p.lookup(name),
                None => None,
            },
        }
    }
}

/// The scope a procedure body runs in: each parameter bound to its argument, enclosed
/// by the scope the procedure captured.
pub open spec fn call_scope(params: Seq<Seq<char>>, args: Seq<Value>, captured: Scope) -> Scope {
    Scope {
        frame: Seq::new(params.len(), |i: int| (params[i], args[i])),
        parent: Some(Box::new(captured)),
    }
}

impl Env {
    /// A scope with the given bindings, enclosed by `parent` if there is one.
    pub fn new(frame: Vec<(String, Expr)>, parent: Option<Env>) -> (r: Env)
        ensures
            r.frame == frame,
            r.parent == match parent {
                Some(p) => Some(Box::new(p)),
                None => None::<Box<Env>>,
            },
    {
        let parent = match parent {
            Some(p) => Some(Box::new(p)),
            None => None,
        };
        Env { frame, parent }
    }

    /// The value bound to `name` here or in an enclosing scope; `None` if there is none.
    pub fn lookup(&self, name: &String) -> (r: Option<Expr>)
        ensures
            opt_model(r) == self.model().lookup(name@),
        decreases self,
    {
        let ghost f = self.model().frame;
        let mut i: usize = self.frame.len();
        assert(f.take(i as int) =~= f);
        while i > 0
            invariant
                i <= self.frame.len(),
                f == self.model().frame,
                frame_get(f, name@) == frame_get(f.take(i as int), name@),
            decreases i,
        {
            assert(f.take(i as int).drop_last() =~= f.take(i - 1));
            if self.frame[i - 1].0 == *name {
                return Some(self.frame[i - 1].1.copy());
            }
            i = i - 1;
        }
        assert(f.take(0).len() == 0);
        match &self.parent {
            Some(p) => p.lookup(name),
            None => None,
        }
    }

    /// Binds `name` to `value` in this scope alone; an earlier binding of the name here
    /// is shadowed, and enclosing scopes are left as they were.
    pub fn define(&mut self, name: String, value: Expr)
        ensures
            final(self).model() == (Scope {
                frame: old(self).model().frame.push((name@, value.model())),
                parent: old(self).model().parent,
            }),
    {
        let ghost n = name@;
        let ghost v = value.model();
        self.frame.push((name, value));
        assert(self.model().frame =~= old(self).model().frame.push((n, v)));
    }
}

/// The scope a call of `lam` on `args` runs in; an arity error where the counts differ.
pub fn bind_args(lam: &Lambda, args: Vec<Expr>) -> (r: Result<Env, ErrorKind>)
    ensures
        lam.params.len() != args.len() <==> r == Err::<Env, ErrorKind>(ErrorKind::Arity),
        r is Err ==> r == Err::<Env, ErrorKind>(ErrorKind::Arity),
        r matches Ok(e) ==> e.model() == call_scope(
            names(lam.params@),
            models(args@),
            lam.env.model(),
        ),
{
    if lam.params.len() != args.len() {
        return Err(ErrorKind::Arity);
    }
    let ghost want = call_scope(names(lam.params@), models(args@), lam.env.model());
    let mut frame: Vec<(String, Expr)> = Vec::new();
    let mut rest = args;
    let ghost orig = rest@;
    let mut i: usize = 0;
    while i < lam.params.len()
        invariant
            i <= lam.params.len(),
            lam.params.len() == orig.len(),
            frame.len() == i,
            rest@ == orig,
            forall|j: int|
                0 <= j < i ==> frame[j].0@ == lam.params[j]@ && frame[j].1.model()
                    == orig[j].model(),
        decreases lam.params.len() - i,
    {
        frame.push((lam.params[i].clone(), rest[i].copy()));
        i = i + 1;
    }
    let r = Env { frame, parent: Some(Box::new(lam.env.copy())) };
    assert(r.model().frame =~= want.frame);
    Ok(r)
}

} // verus!
