use vstd::prelude::*;

verus! {

/// The primitive procedures that the root environment binds.
#[derive(Clone, Copy, Debug, PartialEq, Eq, Structural)]
pub enum Builtin {
    Not,
    Or,
    And,
    Print,
    Add,
    Sub,
    Mul,
    Div,
    Equal,
    Less,
    LessEq,
    Greater,
    GreaterEq,
    First,
    Rest,
    Cons,
    Exit,
}

/// The value and syntax tree of the language. A float is held as its IEEE-754 bits.
#[derive(Debug)]
pub enum Expr {
    Nil,
    Int(i64),
    Flt(u64),
    Str(String),
    Bool(bool),
    Sym(String),
    List(Vec<Expr>),
    Vector(Vec<Expr>),
    Function(Function),
}

/// A procedure value: a primitive, or a user lambda with its captured scope.
#[derive(Debug)]
pub enum Function {
    Builtin(Builtin),
    Lambda(Lambda),
}

/// A user-defined procedure: parameter names, a body, and the scope it was made in.
#[derive(Debug)]
pub struct Lambda {
    pub params: Vec<String>,
    pub body: Box<Expr>,
    pub env: Box<Env>,
}

/// One scope: local bindings, and the enclosing scope if there is one.
#[derive(Debug)]
pub struct Env {
    pub frame: Vec<(String, Expr)>,
    pub parent: Option<Box<Env>>,
}

/// The mathematical model of an `Expr`.
pub enum Value {
    Nil,
    Int(i64),
    Flt(u64),
    Str(Seq<char>),
    Bool(bool),
    Sym(Seq<char>),
    List(Seq<Value>),
    Vector(Seq<Value>),
    Builtin(Builtin),
    Lambda(Seq<Seq<char>>, Box<Value>, Box<Scope>),
}

/// The mathematical model of an `Env`.
pub struct Scope {
    pub frame: Seq<(Seq<char>, Value)>,
    pub parent: Option<Box<Scope>>,
}

/// The models of a sequence of expressions.
pub open spec fn models(s: Seq<Expr>) -> Seq<Value>
    decreases s,
{
    Seq::new(s.len(), |i: int| if 0 <= i < s.len() { s[i].model() } else { Value::Nil })
}

/// The names of a sequence of strings.
pub open spec fn names(s: Seq<String>) -> Seq<Seq<char>> {
    Seq::new(s.len(), |i: int| s[i]@)
}

impl Expr {
    pub open spec fn model(self) -> Value
        decreases self,
    {
        match self {
            Expr::Nil => Value::Nil,
            Expr::Int(i) => Value::Int(i),
            Expr::Flt(b) => Value::Flt(b),
            Expr::Str(s) => Value::Str(s@),
            Expr::Bool(b) => Value::Bool(b),
            Expr::Sym(s) => Value::Sym(s@),
            Expr::List(v) => Value::List(models(v@)),
            Expr::Vector(v) => Value::Vector(models(v@)),
            Expr::Function(Function::Builtin(b)) => Value::Builtin(b),
            Expr::Function(Function::Lambda(l)) => Value::Lambda(
                names(l.params@),
                Box::new(l.body.model()),
                Box::new(l.env.model()),
            ),
        }
    }
}

impl Env {
    pub open spec fn model(self) -> Scope
        decreases self,
    {
        Scope {
            frame: Seq::new(
                self.frame@.len(),
                |i: int|
                    if 0 <= i < self.frame.len() {
                        (self.frame[i].0@, self.frame[i].1.model())
                    } else {
                        (Seq::empty(), Value::Nil)
                    },
            ),
            parent: match self.parent {
                Some(p) => Some(Box::new(p.model())),
                None => None,
            },
        }
    }
}

/// The models of the expressions a possible result holds.
pub open spec fn opt_model(o: Option<Expr>) -> Option<Value> {
    match o {
        Some(e) => Some(e.model()),
        None => None,
    }
}

impl Expr {
    /// A deep copy: the same value, owned separately.
    pub fn copy(&self) -> (r: Expr)
        ensures
            r.model() == self.model(),
        decreases self,
    {
        match self {
            Expr::Nil => Expr::Nil,
            Expr::Int(i) => Expr::Int(*i),
            Expr::Flt(b) => Expr::Flt(*b),
            Expr::Str(s) => Expr::Str(s.clone()),
            Expr::Bool(b) => Expr::Bool(*b),
            Expr::Sym(s) => Expr::Sym(s.clone()),
            Expr::List(v) => Expr::List(copy_all(v)),
            Expr::Vector(v) => Expr::Vector(copy_all(v)),
            Expr::Function(Function::Builtin(b)) => Expr::Function(Function::Builtin(*b)),
            Expr::Function(Function::Lambda(l)) => Expr::Function(Function::Lambda(l.copy())),
        }
    }

    /// Structural equality of two values.
    pub fn same(&self, other: &Expr) -> (r: bool)
        ensures
            r == (self.model() == other.model()),
        decreases self,
    {
        match (self, other) {
            (Expr::Nil, Expr::Nil) => true,
            (Expr::Int(a), Expr::Int(b)) => *a == *b,
            (Expr::Flt(a), Expr::Flt(b)) => *a == *b,
            (Expr::Str(a), Expr::Str(b)) => *a == *b,
            (Expr::Bool(a), Expr::Bool(b)) => *a == *b,
            (Expr::Sym(a), Expr::Sym(b)) => *a == *b,
            (Expr::List(a), Expr::List(b)) => same_all(a, b),
            (Expr::Vector(a), Expr::Vector(b)) => same_all(a, b),
            (Expr::Function(Function::Builtin(a)), Expr::Function(Function::Builtin(b))) => *a == *b,
            (Expr::Function(Function::Lambda(a)), Expr::Function(Function::Lambda(b))) => a.same(b),
            _ => false,
        }
    }
}

/// Deep copies of each expression, in order.
pub fn copy_all(v: &Vec<Expr>) -> (r: Vec<Expr>)
    ensures
        models(r@) == models(v@),
    decreases v,
{
    let mut r: Vec<Expr> = Vec::new();
    let mut i: usize = 0;
    while i < v.len()
        invariant
            i <= v.len(),
            r.len() == i,
            forall|j: int| 0 <= j < i ==> r[j].model() == v[j].model(),
        decreases v.len() - i,
    {
        r.push(v[i].copy());
        i = i + 1;
    }
    assert(models(r@) =~= models(v@));
    r
}

/// Element-wise structural equality of two sequences of expressions.
pub fn same_all(a: &Vec<Expr>, b: &Vec<Expr>) -> (r: bool)
    ensures
        r == (models(a@) == models(b@)),
    decreases a,
{
    if a.len() != b.len() {
        assert(models(a@).len() != models(b@).len());
        return false;
    }
    let mut i: usize = 0;
    while i < a.len()
        invariant
            i <= a.len(),
            a.len() == b.len(),
            forall|j: int| 0 <= j < i ==> a[j].model() == b[j].model(),
        decreases a.len() - i,
    {
        if !a[i].same(&b[i]) {
            assert(models(a@)[i as int] != models(b@)[i as int]);
            return false;
        }
        i = i + 1;
    }
    assert(models(a@) =~= models(b@));
    true
}

/// Element-wise equality of two sequences of names.
fn same_names(a: &Vec<String>, b: &Vec<String>) -> (r: bool)
    ensures
        r == (names(a@) == names(b@)),
{
    if a.len() != b.len() {
        assert(names(a@).len() != names(b@).len());
        return false;
    }
    let mut i: usize = 0;
    while i < a.len()
        invariant
            i <= a.len(),
            a.len() == b.len(),
            forall|j: int| 0 <= j < i ==> a[j]@ == b[j]@,
        decreases a.len() - i,
    {
        if a[i] != b[i] {
            assert(names(a@)[i as int] != names(b@)[i as int]);
            return false;
        }
        i = i + 1;
    }
    assert(names(a@) =~= names(b@));
    true
}

impl Lambda {
    /// A deep copy of the procedure and of the scope it captured.
    pub fn copy(&self) -> (r: Lambda)
        ensures
            names(r.params@) == names(self.params@),
            r.body.model() == self.body.model(),
            r.env.model() == self.env.model(),
        decreases self,
    {
        let params = self.params.clone();
        assert(names(params@) =~= names(self.params@));
        Lambda { params, body: Box::new(self.body.copy()), env: Box::new(self.env.copy()) }
    }

    /// Structural equality of two procedures.
    pub fn same(&self, other: &Lambda) -> (r: bool)
        ensures
            r == (names(self.params@) == names(other.params@) && self.body.model()
                == other.body.model() && self.env.model() == other.env.model()),
        decreases self,
    {
        same_names(&self.params, &other.params) && self.body.same(&other.body) && self.env.same(
            &other.env,
        )
    }
}

impl Env {
    /// A deep copy of this scope and of every enclosing one.
    pub fn copy(&self) -> (r: Env)
        ensures
            r.model() == self.model(),
        decreases self,
    {
        let mut frame: Vec<(String, Expr)> = Vec::new();
        let mut i: usize = 0;
        while i < self.frame.len()
            invariant
                i <= self.frame.len(),
                frame.len() == i,
                forall|j: int|
                    0 <= j < i ==> frame[j].0@ == self.frame[j].0@ && frame[j].1.model()
                        == self.frame[j].1.model(),
            decreases self.frame.len() - i,
        {
            frame.push((self.frame[i].0.clone(), self.frame[i].1.copy()));
            i = i + 1;
        }
        let parent = match &self.parent {
            Some(p) => Some(Box::new(p.copy())),
            None => None,
        };
        let r = Env { frame, parent };
        assert(r.model().frame =~= self.model().frame);
        r
    }

    /// Structural equality of two scope chains.
    pub fn same(&self, other: &Env) -> (r: bool)
        ensures
            r == (self.model() == other.model()),
        decreases self,
    {
        if self.frame.len() != other.frame.len() {
            assert(self.model().frame.len() != other.model().frame.len());
            return false;
        }
        let mut i: usize = 0;
        while i < self.frame.len()
            invariant
                i <= self.frame.len(),
                self.frame.len() == other.frame.len(),
                forall|j: int|
                    0 <= j < i ==> self.frame[j].0@ == other.frame[j].0@ && self.frame[j].1.model()
                        == other.frame[j].1.model(),
            decreases self.frame.len() - i,
        {
            if self.frame[i].0 != other.frame[i].0 || !self.frame[i].1.same(&other.frame[i].1) {
                assert(self.model().frame[i as int] != other.model().frame[i as int]);
                return false;
            }
            i = i + 1;
        }
        assert(self.model().frame =~= other.model().frame);
        match (&self.parent, &other.parent) {
            (Some(p), Some(q)) => p.same(q),
            (None, None) => true,
            _ => false,
        }
    }
}

} // verus!
