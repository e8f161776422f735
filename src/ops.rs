use vstd::prelude::*;
use crate::error::ErrorKind;
use crate::expr::{Expr, Value, copy_all, models};
use crate::display::{float_free, shown};
use crate::host::Host;
use crate::token::Operator;

verus! {

pub open spec fn is_num(e: Expr) -> bool {
    e is Int || e is Flt
}

/// Every argument is a number.
pub open spec fn all_num(s: Seq<Expr>) -> bool {
    forall|i: int| 0 <= i < s.len() ==> is_num(#[trigger] s[i])
}

/// Some argument is a float, so the operation runs on floats.
pub open spec fn any_flt(s: Seq<Expr>) -> bool {
    exists|i: int| 0 <= i < s.len() && #[trigger] s[i] is Flt
}

/// Some argument is the integer zero.
pub open spec fn has_zero(s: Seq<Expr>) -> bool {
    exists|i: int| 0 <= i < s.len() && #[trigger] s[i] == Expr::Int(0)
}

pub open spec fn int_value(e: Expr) -> int {
    match e {
        Expr::Int(i) => i as int,
        _ => 0,
    }
}

pub open spec fn fits(x: int) -> bool {
    i64::MIN <= x <= i64::MAX
}

/// Integer division that rounds toward zero.
pub open spec fn trunc_div(x: int, d: int) -> int {
    if x == 0 {
        0
    } else if x > 0 && d > 0 {
        x / d
    } else if x < 0 && d < 0 {
        (x * -1) / (d * -1)
    } else if x < 0 {
        ((x * -1) / d) * -1
    } else {
        (x / (d * -1)) * -1
    }
}

pub open spec fn apply_int(op: Operator, a: int, b: int) -> int {
    match op {
        Operator::Add => a + b,
        Operator::Sub => a - b,
        Operator::Mul => a * b,
        Operator::Div => trunc_div(a, b),
    }
}

/// `op` folded from the left over the integers of `s`, starting at `init`, computed
/// exactly (no step is bounded).
pub open spec fn int_fold(op: Operator, init: int, s: Seq<Expr>) -> int
    decreases s.len(),
{
    if s.len() == 0 {
        init
    } else {
        apply_int(op, int_fold(op, init, s.drop_last()), int_value(s.last()))
    }
}

/// The result of an integer computation: its value where it fits in 64 bits, else an
/// overflow error.
pub open spec fn int_result(v: int) -> Result<Expr, ErrorKind> {
    if fits(v) {
        Ok(Expr::Int(v as i64))
    } else {
        Err(ErrorKind::Overflow)
    }
}

fn check_num(args: &[Expr]) -> (r: (bool, bool))
    ensures
        r.0 == all_num(args@),
        r.1 == any_flt(args@),
{
    let mut num = true;
    let mut flt = false;
    let mut i: usize = 0;
    while i < args.len()
        invariant
            i <= args.len(),
            num == all_num(args@.take(i as int)),
            flt == any_flt(args@.take(i as int)),
        decreases args.len() - i,
    {
        assert(args@.take(i + 1) =~= args@.take(i as int).push(args@[i as int]));
        match &args[i] {
            Expr::Int(_) => {},
            Expr::Flt(_) => {
                flt = true;
            },
            _ => {
                num = false;
            },
        }
        i = i + 1;
        assert(flt == any_flt(args@.take(i as int)) && num == all_num(args@.take(i as int))) by {
            let t = args@.take(i as int);
            if flt && !any_flt(args@.take(i - 1)) {
                assert(t[i - 1] is Flt);
            }
            if !num && all_num(args@.take(i - 1)) {
                assert(!is_num(t[i - 1]));
            }
            if any_flt(t) {
                let k = choose|k: int| 0 <= k < t.len() && #[trigger] t[k] is Flt;
                if k < i - 1 {
                    assert(args@.take(i - 1)[k] is Flt);
                }
            }
            if !all_num(t) {
                let k = choose|k: int| 0 <= k < t.len() && !is_num(#[trigger] t[k]);
                if k < i - 1 {
                    assert(!is_num(args@.take(i - 1)[k]));
                }
            }
        }
    }
    assert(args@.take(args.len() as int) =~= args@);
    (num, flt)
}

pub open spec fn abs(x: int) -> int {
    if x < 0 {
        -x
    } else {
        x
    }
}

/// `op` folded over the integers `args[start..]` from `init`; an overflow error only where
/// the exact result does not fit in 64 bits.
fn fold_ints(op: Operator, init: i64, args: &[Expr], start: usize) -> (r: Result<i64, ErrorKind>)
    requires
        start <= args.len(),
        forall|i: int| start <= i < args.len() ==> #[trigger] args@[i] is Int,
        op == Operator::Div ==> !has_zero(args@.subrange(start as int, args.len() as int)),
    ensures
        match int_result(int_fold(op, init as int, args@.subrange(start as int, args.len() as int))) {
            Ok(Expr::Int(v)) => r == Ok::<i64, ErrorKind>(v),
            _ => r == Err::<i64, ErrorKind>(ErrorKind::Overflow),
        },
{
    match op {
        Operator::Add | Operator::Sub => fold_linear(op, init, args, start),
        Operator::Mul => fold_mul(init, args, start),
        Operator::Div => fold_div(init, args, start),
    }
}

/// Sums and differences, kept exactly as a 64-bit low part and a count of 2^64 wraps.
fn fold_linear(op: Operator, init: i64, args: &[Expr], start: usize) -> (r: Result<i64, ErrorKind>)
    requires
        op == Operator::Add || op == Operator::Sub,
        start <= args.len(),
        forall|i: int| start <= i < args.len() ==> #[trigger] args@[i] is Int,
    ensures
        match int_result(int_fold(op, init as int, args@.subrange(start as int, args.len() as int))) {
            Ok(Expr::Int(v)) => r == Ok::<i64, ErrorKind>(v),
            _ => r == Err::<i64, ErrorKind>(ErrorKind::Overflow),
        },
{
    let ghost s = args@.subrange(start as int, args.len() as int);
    let mut low: i64 = init;
    let mut hi: i128 = 0;
    let mut i: usize = start;
    assert(s.take(0).len() == 0);
    while i < args.len()
        invariant
            op == Operator::Add || op == Operator::Sub,
            start <= i <= args.len(),
            s == args@.subrange(start as int, args.len() as int),
            forall|k: int| start <= k < args.len() ==> #[trigger] args@[k] is Int,
            int_fold(op, init as int, s.take(i - start)) == low as int + hi as int * 0x1_0000_0000_0000_0000,
            -(i as int) <= hi <= i as int,
        decreases args.len() - i,
    {
        let x = match &args[i] {
            Expr::Int(x) => *x,
            _ => 0,
        };
        assert(s.take(i + 1 - start).drop_last() =~= s.take(i - start));
        assert(s.take(i + 1 - start).last() == args@[i as int]);
        let t: i128 = if let Operator::Add = op {
            low as i128 + x as i128
        } else {
            low as i128 - x as i128
        };
        if t > i64::MAX as i128 {
            low = (t - 0x1_0000_0000_0000_0000i128) as i64;
            hi = hi + 1;
        } else if t < i64::MIN as i128 {
            low = (t + 0x1_0000_0000_0000_0000i128) as i64;
            hi = hi - 1;
        } else {
            low = t as i64;
        }
        i = i + 1;
    }
    assert(s.take(i - start) =~= s);
    if hi == 0 {
        Ok(low)
    } else {
        Err(ErrorKind::Overflow)
    }
}

/// A product with a zero factor is zero.
proof fn lemma_mul_zero(init: int, s: Seq<Expr>, k: int)
    requires
        0 <= k < s.len(),
        s[k] == Expr::Int(0),
    ensures
        int_fold(Operator::Mul, init, s) == 0,
    decreases s.len(),
{
    if k < s.len() - 1 {
        lemma_mul_zero(init, s.drop_last(), k);
        assert(s.drop_last()[k] == s[k]);
    }
}

/// Without zero factors, a longer prefix never has a smaller product in magnitude.
proof fn lemma_mul_grows(init: int, s: Seq<Expr>, k: int, n: int)
    requires
        0 <= k <= n <= s.len(),
        forall|i: int| 0 <= i < s.len() ==> #[trigger] s[i] is Int && s[i] != Expr::Int(0),
    ensures
        abs(int_fold(Operator::Mul, init, s.take(k))) <= abs(int_fold(Operator::Mul, init, s.take(n))),
    decreases n - k,
{
    if k < n {
        lemma_mul_grows(init, s, k, n - 1);
        assert(s.take(n).drop_last() =~= s.take(n - 1));
        let a = int_fold(Operator::Mul, init, s.take(n - 1));
        let x = int_value(s[n - 1]);
        assert(s[n - 1] is Int && s[n - 1] != Expr::Int(0));
        assert(x != 0);
        assert(abs(a) <= abs(a * x)) by (nonlinear_arith)
            requires
                x != 0,
        {
        }
    }
}

fn fold_mul(init: i64, args: &[Expr], start: usize) -> (r: Result<i64, ErrorKind>)
    requires
        start <= args.len(),
        forall|i: int| start <= i < args.len() ==> #[trigger] args@[i] is Int,
    ensures
        match int_result(int_fold(Operator::Mul, init as int, args@.subrange(start as int, args.len() as int))) {
            Ok(Expr::Int(v)) => r == Ok::<i64, ErrorKind>(v),
            _ => r == Err::<i64, ErrorKind>(ErrorKind::Overflow),
        },
{
    let ghost s = args@.subrange(start as int, args.len() as int);
    let mut j: usize = start;
    while j < args.len()
        invariant
            start <= j <= args.len(),
            s == args@.subrange(start as int, args.len() as int),
            forall|k: int| start <= k < j ==> #[trigger] args@[k] != Expr::Int(0),
        decreases args.len() - j,
    {
        if let Expr::Int(0) = &args[j] {
            proof {
                lemma_mul_zero(init as int, s, j - start);
            }
            return Ok(0);
        }
        j = j + 1;
    }
    let mut acc: i128 = init as i128;
    let mut i: usize = start;
    assert(s.take(0).len() == 0);
    while i < args.len()
        invariant
            start <= i <= args.len(),
            s == args@.subrange(start as int, args.len() as int),
            forall|k: int| start <= k < args.len() ==> #[trigger] args@[k] is Int,
            forall|k: int| start <= k < args.len() ==> #[trigger] args@[k] != Expr::Int(0),
            int_fold(Operator::Mul, init as int, s.take(i - start)) == acc as int,
            -0x8000_0000_0000_0000 <= acc <= 0x8000_0000_0000_0000,
        decreases args.len() - i,
    {
        let x = match &args[i] {
            Expr::Int(x) => *x,
            _ => 0,
        };
        assert(s.take(i + 1 - start).drop_last() =~= s.take(i - start));
        assert(s.take(i + 1 - start).last() == args@[i as int]);
        assert(-0x4000_0000_0000_0000_0000_0000_0000_0000 <= acc as int * x as int
            <= 0x4000_0000_0000_0000_0000_0000_0000_0000) by (nonlinear_arith)
            requires
                -0x8000_0000_0000_0000 <= acc <= 0x8000_0000_0000_0000,
                -0x8000_0000_0000_0000 <= x <= 0x7fff_ffff_ffff_ffff,
        {
        }
        let t: i128 = acc * x as i128;
        if t > 0x8000_0000_0000_0000i128 || t < -0x8000_0000_0000_0000i128 {
            proof {
                assert forall|k: int| 0 <= k < s.len() implies #[trigger] s[k] is Int && s[k] != Expr::Int(0) by {
                    assert(s[k] == args@[k + start]);
                }
                lemma_mul_grows(init as int, s, i + 1 - start, s.len() as int);
                assert(s.take(s.len() as int) =~= s);
            }
            return Err(ErrorKind::Overflow);
        }
        acc = t;
        i = i + 1;
    }
    assert(s.take(i - start) =~= s);
    if acc > i64::MAX as i128 {
        Err(ErrorKind::Overflow)
    } else {
        Ok(acc as i64)
    }
}

fn fold_div(init: i64, args: &[Expr], start: usize) -> (r: Result<i64, ErrorKind>)
    requires
        start <= args.len(),
        forall|i: int| start <= i < args.len() ==> #[trigger] args@[i] is Int,
        !has_zero(args@.subrange(start as int, args.len() as int)),
    ensures
        match int_result(int_fold(Operator::Div, init as int, args@.subrange(start as int, args.len() as int))) {
            Ok(Expr::Int(v)) => r == Ok::<i64, ErrorKind>(v),
            _ => r == Err::<i64, ErrorKind>(ErrorKind::Overflow),
        },
{
    let ghost s = args@.subrange(start as int, args.len() as int);
    let mut acc: i128 = init as i128;
    let mut i: usize = start;
    assert(s.take(0).len() == 0);
    while i < args.len()
        invariant
            start <= i <= args.len(),
            s == args@.subrange(start as int, args.len() as int),
            forall|k: int| start <= k < args.len() ==> #[trigger] args@[k] is Int,
            !has_zero(s),
            int_fold(Operator::Div, init as int, s.take(i - start)) == acc as int,
            -0x8000_0000_0000_0000 <= acc <= 0x8000_0000_0000_0000,
        decreases args.len() - i,
    {
        let x = match &args[i] {
            Expr::Int(x) => *x,
            _ => 0,
        };
        assert(s[i - start] == args@[i as int]);
        assert(x != 0);
        assert(s.take(i + 1 - start).drop_last() =~= s.take(i - start));
        assert(s.take(i + 1 - start).last() == args@[i as int]);
        proof {
            let a = acc as int;
            let d = x as int;
            if a > 0 && d > 0 {
                vstd::arithmetic::div_mod::lemma_div_is_ordered_by_denominator(a, 1, d);
                vstd::arithmetic::div_mod::lemma_div_pos_is_pos(a, d);
            } else if a < 0 && d < 0 {
                vstd::arithmetic::div_mod::lemma_div_is_ordered_by_denominator(-a, 1, -d);
                vstd::arithmetic::div_mod::lemma_div_pos_is_pos(-a, -d);
            } else if a < 0 {
                vstd::arithmetic::div_mod::lemma_div_is_ordered_by_denominator(-a, 1, d);
                vstd::arithmetic::div_mod::lemma_div_pos_is_pos(-a, d);
            } else if a > 0 {
                vstd::arithmetic::div_mod::lemma_div_is_ordered_by_denominator(a, 1, -d);
                vstd::arithmetic::div_mod::lemma_div_pos_is_pos(a, -d);
            }
            assert(abs(trunc_div(a, d)) <= abs(a));
        }
        match acc.checked_div(x as i128) {
            Some(q) => {
                acc = q;
            },
            None => {
                return Err(ErrorKind::Overflow);
            },
        }
        i = i + 1;
    }
    assert(s.take(i - start) =~= s);
    if acc > i64::MAX as i128 {
        Err(ErrorKind::Overflow)
    } else {
        Ok(acc as i64)
    }
}

/// The float value of a number.
fn float_of<H: Host>(e: &Expr, host: &H) -> u64 {
    match e {
        Expr::Flt(b) => *b,
        Expr::Int(i) => host.float_of_int(*i),
        _ => 0,
    }
}

/// `op` folded over `args[1..]` as floats, starting from `args[0]`.
fn fold_floats<H: Host>(op: Operator, args: &[Expr], host: &H) -> u64
    requires
        args.len() >= 1,
{
    let mut acc = float_of(&args[0], host);
    let mut i: usize = 1;
    while i < args.len()
        invariant
            1 <= i <= args.len(),
        decreases args.len() - i,
    {
        let x = float_of(&args[i], host);
        acc = match op {
            Operator::Add => host.float_add(acc, x),
            Operator::Sub => host.float_sub(acc, x),
            Operator::Mul => host.float_mul(acc, x),
            Operator::Div => host.float_div(acc, x),
        };
        i = i + 1;
    }
    acc
}

/// What `add` returns on `args`.
pub open spec fn add_post(args: Seq<Expr>, r: Result<Expr, ErrorKind>) -> bool {
    &&& (!all_num(args) ==> r == Err::<Expr, ErrorKind>(ErrorKind::Type))
    &&& (all_num(args) && !any_flt(args) ==> r == int_result(int_fold(Operator::Add, 0, args)))
    &&& (all_num(args) && any_flt(args) ==> r matches Ok(Expr::Flt(_)))
}

/// Sum of numbers; an empty sum is `0`.
pub fn add<H: Host>(args: &[Expr], host: &H) -> (r: Result<Expr, ErrorKind>)
    ensures
        add_post(args@, r),
{
    let (num, flt) = check_num(args);
    if !num {
        return Err(ErrorKind::Type);
    }
    if flt {
        return Ok(Expr::Flt(fold_floats(Operator::Add, args, host)));
    }
    assert(args@.subrange(0, args.len() as int) =~= args@);
    match fold_ints(Operator::Add, 0, args, 0) {
        Ok(v) => Ok(Expr::Int(v)),
        Err(e) => Err(e),
    }
}

/// What `mul` returns on `args`.
pub open spec fn mul_post(args: Seq<Expr>, r: Result<Expr, ErrorKind>) -> bool {
    &&& (!all_num(args) ==> r == Err::<Expr, ErrorKind>(ErrorKind::Type))
    &&& (all_num(args) && !any_flt(args) ==> r == int_result(int_fold(Operator::Mul, 1, args)))
    &&& (all_num(args) && any_flt(args) ==> r matches Ok(Expr::Flt(_)))
}

/// Product of numbers; an empty product is `1`.
pub fn mul<H: Host>(args: &[Expr], host: &H) -> (r: Result<Expr, ErrorKind>)
    ensures
        mul_post(args@, r),
{
    let (num, flt) = check_num(args);
    if !num {
        return Err(ErrorKind::Type);
    }
    if flt {
        return Ok(Expr::Flt(fold_floats(Operator::Mul, args, host)));
    }
    assert(args@.subrange(0, args.len() as int) =~= args@);
    match fold_ints(Operator::Mul, 1, args, 0) {
        Ok(v) => Ok(Expr::Int(v)),
        Err(e) => Err(e),
    }
}

/// What `sub` returns on `args`.
pub open spec fn sub_post(args: Seq<Expr>, r: Result<Expr, ErrorKind>) -> bool {
    &&& (args.len() == 0 ==> r == Err::<Expr, ErrorKind>(ErrorKind::Arity))
    &&& (args.len() > 0 && !all_num(args) ==> r == Err::<Expr, ErrorKind>(ErrorKind::Type))
    &&& (args.len() == 1 && all_num(args) && !any_flt(args) ==> r == int_result(
            int_fold(Operator::Sub, 0, args)
    ))
    &&& (args.len() > 1 && all_num(args) && !any_flt(args) ==> r == int_result(
            int_fold(Operator::Sub, int_value(args[0]), args.drop_first())
    ))
    &&& (args.len() > 0 && all_num(args) && any_flt(args) ==> r matches Ok(Expr::Flt(_)))
}

/// Negation of one number, or the first number minus each of the rest in turn.
pub fn sub<H: Host>(args: &[Expr], host: &H) -> (r: Result<Expr, ErrorKind>)
    ensures
        sub_post(args@, r),
{
    if args.len() == 0 {
        return Err(ErrorKind::Arity);
    }
    let (num, flt) = check_num(args);
    if !num {
        return Err(ErrorKind::Type);
    }
    if args.len() == 1 {
        if flt {
            return Ok(Expr::Flt(host.float_neg(float_of(&args[0], host))));
        }
        assert(args@.subrange(0, 1) =~= args@);
        return match fold_ints(Operator::Sub, 0, args, 0) {
            Ok(v) => Ok(Expr::Int(v)),
            Err(e) => Err(e),
        };
    }
    if flt {
        return Ok(Expr::Flt(fold_floats(Operator::Sub, args, host)));
    }
    assert(args@[0] is Int);
    let first = match &args[0] {
        Expr::Int(x) => *x,
        _ => 0,
    };
    assert(args@.subrange(1, args.len() as int) =~= args@.drop_first());
    match fold_ints(Operator::Sub, first, args, 1) {
        Ok(v) => Ok(Expr::Int(v)),
        Err(e) => Err(e),
    }
}

/// What `div` returns on `args`.
pub open spec fn div_post(args: Seq<Expr>, r: Result<Expr, ErrorKind>) -> bool {
    &&& (args.len() == 0 ==> r == Err::<Expr, ErrorKind>(ErrorKind::Arity))
    &&& (args.len() > 0 && !all_num(args) ==> r == Err::<Expr, ErrorKind>(ErrorKind::Type))
    &&& (args.len() == 1 && args[0] == Expr::Int(0) ==> r == Err::<Expr, ErrorKind>(
            ErrorKind::DivisionByZero
    ))
    &&& (args.len() == 1 && all_num(args) && args[0] != Expr::Int(0) ==> r matches Ok(
            Expr::Flt(_)
    ))
    &&& (args.len() > 1 && all_num(args) && !any_flt(args) ==> r == if has_zero(
            args.drop_first()
    ) {
            Err(ErrorKind::DivisionByZero)
    } else {
            int_result(int_fold(Operator::Div, int_value(args[0]), args.drop_first()))
    })
    &&& (args.len() > 1 && all_num(args) && any_flt(args) ==> r matches Ok(Expr::Flt(_)))
}

/// Reciprocal of one number (a float; an integer zero is a division by zero), or the
/// first number divided by each of the rest in turn; an integer divisor of zero is an error.
pub fn div<H: Host>(args: &[Expr], host: &H) -> (r: Result<Expr, ErrorKind>)
    ensures
        div_post(args@, r),
{
    if args.len() == 0 {
        return Err(ErrorKind::Arity);
    }
    let (num, flt) = check_num(args);
    if !num {
        return Err(ErrorKind::Type);
    }
    if args.len() == 1 {
        if let Expr::Int(0) = &args[0] {
            return Err(ErrorKind::DivisionByZero);
        }
        let one = host.float_of_int(1);
        return Ok(Expr::Flt(host.float_div(one, float_of(&args[0], host))));
    }
    if flt {
        return Ok(Expr::Flt(fold_floats(Operator::Div, args, host)));
    }
    let ghost rest = args@.drop_first();
    let mut i: usize = 1;
    while i < args.len()
        invariant
            1 <= i <= args.len(),
            rest == args@.drop_first(),
            all_num(args@),
            !any_flt(args@),
            forall|k: int| 0 <= k < i - 1 ==> rest[k] != Expr::Int(0),
        decreases args.len() - i,
    {
        if let Expr::Int(0) = &args[i] {
            assert(rest[i - 1] == Expr::Int(0));
            return Err(ErrorKind::DivisionByZero);
        }
        i = i + 1;
    }
    assert(args@[0] is Int);
    let first = match &args[0] {
        Expr::Int(x) => *x,
        _ => 0,
    };
    assert(args@.subrange(1, args.len() as int) =~= rest);
    match fold_ints(Operator::Div, first, args, 1) {
        Ok(v) => Ok(Expr::Int(v)),
        Err(e) => Err(e),
    }
}

/// Lexicographic order of strings by code point.
pub open spec fn seq_less(a: Seq<char>, b: Seq<char>) -> bool
    decreases a.len(),
{
    if a.len() == 0 {
        b.len() > 0
    } else if b.len() == 0 {
        false
    } else if a[0] != b[0] {
        (a[0] as u32) < (b[0] as u32)
    } else {
        seq_less(a.drop_first(), b.drop_first())
    }
}

/// `a < b` on strings, or `a <= b` where `strict` is false.
pub open spec fn str_order(strict: bool, a: Seq<char>, b: Seq<char>) -> bool {
    seq_less(a, b) || (!strict && a == b)
}

/// `a < b` on integers, or `a <= b` where `strict` is false.
pub open spec fn int_order(strict: bool, a: int, b: int) -> bool {
    if strict {
        a < b
    } else {
        a <= b
    }
}

fn str_less(a: &String, b: &String) -> (r: bool)
    ensures
        r == seq_less(a@, b@),
{
    let x = crate::text::chars_of(a.as_str());
    let y = crate::text::chars_of(b.as_str());
    let mut i: usize = 0;
    assert(a@.skip(0) =~= a@ && b@.skip(0) =~= b@);
    while i < x.len() && i < y.len()
        invariant
            x@ == a@,
            y@ == b@,
            i <= x.len(),
            i <= y.len(),
            seq_less(a@, b@) == seq_less(a@.skip(i as int), b@.skip(i as int)),
        decreases x.len() - i,
    {
        let p = x[i];
        let q = y[i];
        assert(a@.skip(i as int)[0] == p && b@.skip(i as int)[0] == q);
        if p != q {
            return (p as u32) < (q as u32);
        }
        assert(a@.skip(i as int).drop_first() =~= a@.skip(i + 1));
        assert(b@.skip(i as int).drop_first() =~= b@.skip(i + 1));
        i = i + 1;
    }
    i == x.len() && i < y.len()
}

/// The ordering shared by `<`, `<=`, `>`, `>=`: `strict` picks `<` over `<=`, and
/// `flip` compares the arguments in the other order.
fn order<H: Host>(args: &[Expr], host: &H, strict: bool, flip: bool) -> (r: Result<Expr, ErrorKind>)
    ensures
        args.len() != 2 ==> r == Err::<Expr, ErrorKind>(ErrorKind::Arity),
        args.len() == 2 ==> match (args@[0], args@[1]) {
            (Expr::Int(a), Expr::Int(b)) => r == Ok::<Expr, ErrorKind>(
                Expr::Bool(
                    if flip {
                        int_order(strict, b as int, a as int)
                    } else {
                        int_order(strict, a as int, b as int)
                    },
                ),
            ),
            (Expr::Str(a), Expr::Str(b)) => r == Ok::<Expr, ErrorKind>(
                Expr::Bool(
                    if flip {
                        str_order(strict, b@, a@)
                    } else {
                        str_order(strict, a@, b@)
                    },
                ),
            ),
            (Expr::Flt(_), Expr::Flt(_)) => r matches Ok(Expr::Bool(_)),
            _ => r == Err::<Expr, ErrorKind>(ErrorKind::ComparisonUndefined),
        },
{
    if args.len() != 2 {
        return Err(ErrorKind::Arity);
    }
    let (l, rr) = if flip {
        (&args[1], &args[0])
    } else {
        (&args[0], &args[1])
    };
    match (l, rr) {
        (Expr::Int(a), Expr::Int(b)) => Ok(Expr::Bool(if strict { *a < *b } else { *a <= *b })),
        (Expr::Flt(a), Expr::Flt(b)) => Ok(
            Expr::Bool(
                if strict {
                    host.float_less(*a, *b)
                } else {
                    host.float_less_eq(*a, *b)
                },
            ),
        ),
        (Expr::Str(a), Expr::Str(b)) => Ok(Expr::Bool(str_less(a, b) || (!strict && *a == *b))),
        _ => Err(ErrorKind::ComparisonUndefined),
    }
}

/// What `less` returns on `args`.
pub open spec fn less_post(args: Seq<Expr>, r: Result<Expr, ErrorKind>) -> bool {
    &&& (args.len() != 2 ==> r == Err::<Expr, ErrorKind>(ErrorKind::Arity))
    &&& (args.len() == 2 ==> match (args[0], args[1]) {
            (Expr::Int(a), Expr::Int(b)) => r == Ok::<Expr, ErrorKind>(Expr::Bool(a < b)),
            (Expr::Str(a), Expr::Str(b)) => r == Ok::<Expr, ErrorKind>(Expr::Bool(seq_less(a@, b@))),
            (Expr::Flt(_), Expr::Flt(_)) => r matches Ok(Expr::Bool(_)),
            _ => r == Err::<Expr, ErrorKind>(ErrorKind::ComparisonUndefined)
    })
}

/// `(< a b)`: defined on two integers, two floats or two strings.
pub fn less<H: Host>(args: &[Expr], host: &H) -> (r: Result<Expr, ErrorKind>)
    ensures
        less_post(args@, r),
{
    order(args, host, true, false)
}

/// What `less_eq` returns on `args`.
pub open spec fn less_eq_post(args: Seq<Expr>, r: Result<Expr, ErrorKind>) -> bool {
    &&& (args.len() != 2 ==> r == Err::<Expr, ErrorKind>(ErrorKind::Arity))
    &&& (args.len() == 2 ==> match (args[0], args[1]) {
            (Expr::Int(a), Expr::Int(b)) => r == Ok::<Expr, ErrorKind>(Expr::Bool(a <= b)),
            (Expr::Str(a), Expr::Str(b)) => r == Ok::<Expr, ErrorKind>(
                Expr::Bool(seq_less(a@, b@) || a@ == b@),
            ),
            (Expr::Flt(_), Expr::Flt(_)) => r matches Ok(Expr::Bool(_)),
            _ => r == Err::<Expr, ErrorKind>(ErrorKind::ComparisonUndefined)
    })
}

/// `(<= a b)`: defined on two integers, two floats or two strings.
pub fn less_eq<H: Host>(args: &[Expr], host: &H) -> (r: Result<Expr, ErrorKind>)
    ensures
        less_eq_post(args@, r),
{
    order(args, host, false, false)
}

/// What `greater` returns on `args`.
pub open spec fn greater_post(args: Seq<Expr>, r: Result<Expr, ErrorKind>) -> bool {
    &&& (args.len() != 2 ==> r == Err::<Expr, ErrorKind>(ErrorKind::Arity))
    &&& (args.len() == 2 ==> match (args[0], args[1]) {
            (Expr::Int(a), Expr::Int(b)) => r == Ok::<Expr, ErrorKind>(Expr::Bool(a > b)),
            (Expr::Str(a), Expr::Str(b)) => r == Ok::<Expr, ErrorKind>(Expr::Bool(seq_less(b@, a@))),
            (Expr::Flt(_), Expr::Flt(_)) => r matches Ok(Expr::Bool(_)),
            _ => r == Err::<Expr, ErrorKind>(ErrorKind::ComparisonUndefined)
    })
}

/// `(> a b)`: defined on two integers, two floats or two strings.
pub fn greater<H: Host>(args: &[Expr], host: &H) -> (r: Result<Expr, ErrorKind>)
    ensures
        greater_post(args@, r),
{
    order(args, host, true, true)
}

/// What `greater_eq` returns on `args`.
pub open spec fn greater_eq_post(args: Seq<Expr>, r: Result<Expr, ErrorKind>) -> bool {
    &&& (args.len() != 2 ==> r == Err::<Expr, ErrorKind>(ErrorKind::Arity))
    &&& (args.len() == 2 ==> match (args[0], args[1]) {
            (Expr::Int(a), Expr::Int(b)) => r == Ok::<Expr, ErrorKind>(Expr::Bool(a >= b)),
            (Expr::Str(a), Expr::Str(b)) => r == Ok::<Expr, ErrorKind>(
                Expr::Bool(seq_less(b@, a@) || a@ == b@),
            ),
            (Expr::Flt(_), Expr::Flt(_)) => r matches Ok(Expr::Bool(_)),
            _ => r == Err::<Expr, ErrorKind>(ErrorKind::ComparisonUndefined)
    })
}

/// `(>= a b)`: defined on two integers, two floats or two strings.
pub fn greater_eq<H: Host>(args: &[Expr], host: &H) -> (r: Result<Expr, ErrorKind>)
    ensures
        greater_eq_post(args@, r),
{
    order(args, host, false, true)
}

/// What `equal` returns on `args`.
pub open spec fn equal_post(args: Seq<Expr>, r: Result<Expr, ErrorKind>) -> bool {
    &&& (args.len() != 2 ==> r == Err::<Expr, ErrorKind>(ErrorKind::Arity))
    &&& (args.len() == 2 ==> r == Ok::<Expr, ErrorKind>(
            Expr::Bool(args[0].model() == args[1].model())
    ))
}

/// `(= a b)`: structural equality of any two values.
pub fn equal(args: &[Expr]) -> (r: Result<Expr, ErrorKind>)
    ensures
        equal_post(args@, r),
{
    if args.len() != 2 {
        return Err(ErrorKind::Arity);
    }
    Ok(Expr::Bool(args[0].same(&args[1])))
}

/// Truthiness: everything but `nil` and `false` counts as true.
pub open spec fn truthy(e: Expr) -> bool {
    !(e is Nil || e == Expr::Bool(false))
}

/// What `not` returns on `args`.
pub open spec fn not_post(args: Seq<Expr>, r: Result<Expr, ErrorKind>) -> bool {
    &&& (args.len() != 1 ==> r == Err::<Expr, ErrorKind>(ErrorKind::Arity))
    &&& (args.len() == 1 ==> r == Ok::<Expr, ErrorKind>(Expr::Bool(!truthy(args[0]))))
}

/// `(not x)`: the negation of the truthiness of `x`.
pub fn not(args: &[Expr]) -> (r: Result<Expr, ErrorKind>)
    ensures
        not_post(args@, r),
{
    if args.len() != 1 {
        return Err(ErrorKind::Arity);
    }
    let t = match &args[0] {
        Expr::Nil => false,
        Expr::Bool(b) => *b,
        _ => true,
    };
    Ok(Expr::Bool(!t))
}

/// Every argument is a boolean.
pub open spec fn all_bool(s: Seq<Expr>) -> bool {
    forall|i: int| 0 <= i < s.len() ==> #[trigger] s[i] is Bool
}

/// Whether some argument is `true` (`want`), or some is `false` (`!want`); an error if one is not a boolean.
fn find_bool(args: &[Expr], want: bool) -> (r: Result<bool, ErrorKind>)
    ensures
        !all_bool(args@) ==> r == Err::<bool, ErrorKind>(ErrorKind::Type),
        all_bool(args@) ==> r == Ok::<bool, ErrorKind>(
            exists|i: int| 0 <= i < args.len() && #[trigger] args@[i] == Expr::Bool(want),
        ),
{
    let mut found = false;
    let mut i: usize = 0;
    while i < args.len()
        invariant
            i <= args.len(),
            forall|k: int| 0 <= k < i ==> #[trigger] args@[k] is Bool,
            found == exists|k: int| 0 <= k < i && #[trigger] args@[k] == Expr::Bool(want),
        decreases args.len() - i,
    {
        match &args[i] {
            Expr::Bool(b) => {
                if *b == want {
                    found = true;
                }
            },
            _ => {
                return Err(ErrorKind::Type);
            },
        }
        i = i + 1;
    }
    Ok(found)
}

/// What `and` returns on `args`.
pub open spec fn and_post(args: Seq<Expr>, r: Result<Expr, ErrorKind>) -> bool {
    &&& (!all_bool(args) ==> r == Err::<Expr, ErrorKind>(ErrorKind::Type))
    &&& (all_bool(args) ==> r == Ok::<Expr, ErrorKind>(
            Expr::Bool(forall|i: int| 0 <= i < args.len() ==> #[trigger] args[i] == Expr::Bool(true))
    ))
}

/// `(and ...)`: true when every argument is `true`; every argument must be a boolean.
pub fn and(args: &[Expr]) -> (r: Result<Expr, ErrorKind>)
    ensures
        and_post(args@, r),
{
    match find_bool(args, false) {
        Ok(f) => {
            assert(!f <==> forall|i: int| 0 <= i < args.len() ==> #[trigger] args@[i] == Expr::Bool(true)) by {
                if !f {
                    assert forall|i: int| 0 <= i < args.len() implies #[trigger] args@[i] == Expr::Bool(true) by {
                        assert(args@[i] is Bool);
                        assert(args@[i] != Expr::Bool(false));
                    }
                }
            }
            Ok(Expr::Bool(!f))
        },
        Err(e) => Err(e),
    }
}

/// What `or` returns on `args`.
pub open spec fn or_post(args: Seq<Expr>, r: Result<Expr, ErrorKind>) -> bool {
    &&& (!all_bool(args) ==> r == Err::<Expr, ErrorKind>(ErrorKind::Type))
    &&& (all_bool(args) ==> r == Ok::<Expr, ErrorKind>(
            Expr::Bool(exists|i: int| 0 <= i < args.len() && #[trigger] args[i] == Expr::Bool(true))
    ))
}

/// `(or ...)`: true when some argument is `true`; every argument must be a boolean.
pub fn or(args: &[Expr]) -> (r: Result<Expr, ErrorKind>)
    ensures
        or_post(args@, r),
{
    match find_bool(args, true) {
        Ok(t) => Ok(Expr::Bool(t)),
        Err(e) => Err(e),
    }
}

/// What `first` returns on `args`.
pub open spec fn first_post(args: Seq<Expr>, r: Result<Expr, ErrorKind>) -> bool {
    &&& (args.len() != 1 ==> r == Err::<Expr, ErrorKind>(ErrorKind::Arity))
    &&& (args.len() == 1 ==> match args[0] {
            Expr::List(v) | Expr::Vector(v) => r matches Ok(e) && e.model() == if v.len() == 0 {
                Value::Nil
            } else {
                v@[0].model()
            },
            _ => r == Err::<Expr, ErrorKind>(ErrorKind::Type)
    })
}

/// `(first seq)`: the first element of a list or vector, `nil` when it is empty.
pub fn first(args: &[Expr]) -> (r: Result<Expr, ErrorKind>)
    ensures
        first_post(args@, r),
{
    if args.len() != 1 {
        return Err(ErrorKind::Arity);
    }
    match &args[0] {
        Expr::List(v) | Expr::Vector(v) => {
            if v.len() == 0 {
                Ok(Expr::Nil)
            } else {
                Ok(v[0].copy())
            }
        },
        _ => Err(ErrorKind::Type),
    }
}

/// Copies of `v[1..]`.
fn copy_tail(v: &Vec<Expr>) -> (r: Vec<Expr>)
    requires
        v.len() > 0,
    ensures
        models(r@) == models(v@).drop_first(),
{
    let mut r: Vec<Expr> = Vec::new();
    let mut i: usize = 1;
    while i < v.len()
        invariant
            1 <= i <= v.len(),
            r.len() == i - 1,
            forall|j: int| 0 <= j < i - 1 ==> r[j].model() == v[j + 1].model(),
        decreases v.len() - i,
    {
        r.push(v[i].copy());
        i = i + 1;
    }
    assert(models(r@) =~= models(v@).drop_first());
    r
}

/// What `rest` returns on `args`.
pub open spec fn rest_post(args: Seq<Expr>, r: Result<Expr, ErrorKind>) -> bool {
    &&& (args.len() != 1 ==> r == Err::<Expr, ErrorKind>(ErrorKind::Arity))
    &&& (args.len() == 1 ==> match args[0] {
            Expr::List(v) => r matches Ok(e) && e.model() == if v.len() == 0 {
                Value::Nil
            } else {
                Value::List(models(v@).drop_first())
            },
            Expr::Vector(v) => r matches Ok(e) && e.model() == if v.len() == 0 {
                Value::Nil
            } else {
                Value::Vector(models(v@).drop_first())
            },
            _ => r == Err::<Expr, ErrorKind>(ErrorKind::Type)
    })
}

/// `(rest seq)`: a list or vector without its first element, `nil` when it is empty.
pub fn rest(args: &[Expr]) -> (r: Result<Expr, ErrorKind>)
    ensures
        rest_post(args@, r),
{
    if args.len() != 1 {
        return Err(ErrorKind::Arity);
    }
    match &args[0] {
        Expr::List(v) => {
            if v.len() == 0 {
                Ok(Expr::Nil)
            } else {
                Ok(Expr::List(copy_tail(v)))
            }
        },
        Expr::Vector(v) => {
            if v.len() == 0 {
                Ok(Expr::Nil)
            } else {
                Ok(Expr::Vector(copy_tail(v)))
            }
        },
        _ => Err(ErrorKind::Type),
    }
}

/// What `cons` returns on `args`.
pub open spec fn cons_post(args: Seq<Expr>, r: Result<Expr, ErrorKind>) -> bool {
    &&& (args.len() != 2 ==> r == Err::<Expr, ErrorKind>(ErrorKind::Arity))
    &&& (args.len() == 2 ==> match args[1] {
            Expr::List(v) => r matches Ok(e) && e.model() == Value::List(
                seq![args[0].model()] + models(v@),
            ),
            Expr::Vector(v) => r matches Ok(e) && e.model() == Value::Vector(
                models(v@).push(args[0].model()),
            ),
            _ => r == Err::<Expr, ErrorKind>(ErrorKind::Type)
    })
}

/// `(cons item seq)`: a list with `item` put in front, or a vector with `item` put at
/// the back.
pub fn cons(args: &[Expr]) -> (r: Result<Expr, ErrorKind>)
    ensures
        cons_post(args@, r),
{
    if args.len() != 2 {
        return Err(ErrorKind::Arity);
    }
    match &args[1] {
        Expr::List(v) => {
            let mut out: Vec<Expr> = Vec::new();
            out.push(args[0].copy());
            let mut i: usize = 0;
            while i < v.len()
                invariant
                    i <= v.len(),
                    out.len() == i + 1,
                    out[0].model() == args@[0].model(),
                    forall|j: int| 0 <= j < i ==> out[j + 1].model() == v[j].model(),
                decreases v.len() - i,
            {
                out.push(v[i].copy());
                i = i + 1;
            }
            assert(models(out@) =~= seq![args@[0].model()] + models(v@));
            Ok(Expr::List(out))
        },
        Expr::Vector(v) => {
            let mut out = copy_all(v);
            let ghost before = out@;
            out.push(args[0].copy());
            assert(out@.drop_last() == before);
            assert(models(out@) =~= models(v@).push(args@[0].model()));
            Ok(Expr::Vector(out))
        },
        _ => Err(ErrorKind::Type),
    }
}

/// What `exit` returns on `args`.
pub open spec fn exit_post(args: Seq<Expr>, r: Result<Expr, ErrorKind>) -> bool {
    &&& (args.len() == 0 ==> r == Err::<Expr, ErrorKind>(ErrorKind::Exit(0)))
    &&& (args.len() == 1 ==> match args[0] {
            Expr::Int(n) => if i32::MIN <= n <= i32::MAX {
                r == Err::<Expr, ErrorKind>(ErrorKind::Exit(n as i32))
            } else {
                r == Err::<Expr, ErrorKind>(ErrorKind::Type)
            },
            _ => r == Err::<Expr, ErrorKind>(ErrorKind::Type)
    })
    &&& (args.len() > 1 ==> r == Err::<Expr, ErrorKind>(ErrorKind::Arity))
}

/// `(exit)` or `(exit code)`: a request to end the process, with status 0 by default.
pub fn exit(args: &[Expr]) -> (r: Result<Expr, ErrorKind>)
    ensures
        exit_post(args@, r),
{
    if args.len() == 0 {
        return Err(ErrorKind::Exit(0));
    }
    if args.len() > 1 {
        return Err(ErrorKind::Arity);
    }
    match &args[0] {
        Expr::Int(n) => {
            if i32::MIN as i64 <= *n && *n <= i32::MAX as i64 {
                Err(ErrorKind::Exit(*n as i32))
            } else {
                Err(ErrorKind::Type)
            }
        },
        _ => Err(ErrorKind::Type),
    }
}

/// The line `(print x)` shows: the text of `x`; an arity error unless there is exactly one
/// argument.
pub fn print_text<H: Host>(args: &[Expr], host: &H) -> (r: Result<String, ErrorKind>)
    ensures
        args.len() != 1 ==> r == Err::<String, ErrorKind>(ErrorKind::Arity),
        args.len() == 1 ==> r is Ok,
        args.len() == 1 && float_free(args@[0].model()) ==> (r matches Ok(t) && t@ == shown(
            args@[0].model(),
        )),
{
    if args.len() != 1 {
        return Err(ErrorKind::Arity);
    }
    Ok(args[0].display(host))
}

/// What `print` returns on `args`.
pub open spec fn print_post(args: Seq<Expr>, r: Result<Expr, ErrorKind>) -> bool {
    &&& (args.len() != 1 ==> r == Err::<Expr, ErrorKind>(ErrorKind::Arity))
    &&& (args.len() == 1 ==> r == Ok::<Expr, ErrorKind>(Expr::Nil))
}

/// `(print x)`: hands the line `print_text` gives to the host to show; the result is
/// `nil`, and nothing is shown on an error.
pub fn print<H: Host>(args: &[Expr], host: &H) -> (r: Result<Expr, ErrorKind>)
    ensures
        print_post(args@, r),
{
    let text = print_text(args, host)?;
    host.emit(&text);
    Ok(Expr::Nil)
}

} // verus!
