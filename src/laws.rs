use vstd::prelude::*;
use crate::env::{call_scope, frame_get};
use crate::error::ErrorKind;
use crate::eval::{apply_result, body_result};
use crate::expr::{Expr, Scope, Value};
use crate::display::{decimal, digit, digits, shown};
use crate::lex::{all_digits, digits_value, int_literal, is_delim, is_digit, lex, lex_from, quote_end, word_end, word_tok};
use crate::token::{Operator, operator_text};
use crate::parse::{Tok, closer, parse_at, parse_items, parse_tokens};

verus! {

/// Lexical scope: inside a call, a name that is not a parameter resolves in the scope
/// the procedure captured. The caller's scope plays no part in the call scope.
pub proof fn lemma_lexical_scope(
    params: Seq<Seq<char>>,
    args: Seq<Value>,
    captured: Scope,
    name: Seq<char>,
)
    requires
        params.len() == args.len(),
        forall|i: int| 0 <= i < params.len() ==> params[i] != name,
    ensures
        call_scope(params, args, captured).lookup(name) == captured.lookup(name),
{
    let f = call_scope(params, args, captured).frame;
    lemma_frame_miss(f, name);
}

/// Inside a call, a parameter resolves to its argument (the last one of that name).
pub proof fn lemma_parameter_binding(
    params: Seq<Seq<char>>,
    args: Seq<Value>,
    captured: Scope,
    k: int,
)
    requires
        params.len() == args.len(),
        0 <= k < params.len(),
        forall|i: int| k < i < params.len() ==> params[i] != params[k],
    ensures
        call_scope(params, args, captured).lookup(params[k]) == Some(args[k]),
{
    let f = call_scope(params, args, captured).frame;
    lemma_frame_hit(f, params[k], k);
}

/// Lexical scope through a call: where `eval` applies a procedure whose body is a free name
/// to literal arguments (the `apply_result` clause of `eval`), the outcome is the one of
/// looking the name up in the captured scope, whatever scope the call is made from.
pub proof fn lemma_lexical_call(
    params: Seq<Seq<char>>,
    args: Seq<Value>,
    captured: Scope,
    name: Seq<char>,
    r: Result<Expr, ErrorKind>,
)
    requires
        params.len() == args.len(),
        forall|i: int| 0 <= i < params.len() ==> params[i] != name,
    ensures
        apply_result(
            Value::Lambda(params, Box::new(Value::Sym(name)), Box::new(captured)),
            args,
            r,
        ) == body_result(Value::Sym(name), captured, r),
{
    lemma_lexical_scope(params, args, captured, name);
}

proof fn lemma_quote_end(cs: Seq<char>, i: int, j: int)
    requires
        0 <= i <= j < cs.len(),
        cs[j] == '"',
        forall|k: int| i <= k < j ==> cs[k] != '"',
    ensures
        quote_end(cs, i) == j,
    decreases j - i,
{
    if i < j {
        lemma_quote_end(cs, i + 1, j);
    }
}

/// A string without a `"` is shown as a quoted literal that reads back as that string.
pub proof fn lemma_string_round_trip(s: Seq<char>)
    requires
        forall|k: int| 0 <= k < s.len() ==> s[k] != '"',
    ensures
        lex(shown(Value::Str(s))) == Some(seq![Tok::Leaf(Value::Str(s))]),
        parse_tokens(seq![Tok::Leaf(Value::Str(s))]) == Some(Value::Str(s)),
{
    let t = shown(Value::Str(s));
    assert(t == seq!['"'] + s + seq!['"']);
    let n = s.len() as int;
    assert forall|k: int| 1 <= k < n + 1 implies t[k] != '"' by {
        assert(t[k] == s[k - 1]);
    }
    lemma_quote_end(t, 1, n + 1);
    assert(t.subrange(1, n + 1) =~= s);
    assert(lex_from(t, n + 2) == Some(Seq::<Tok>::empty()));
    assert(seq![Tok::Leaf(Value::Str(s))] + Seq::<Tok>::empty() =~= seq![Tok::Leaf(Value::Str(s))]);
}

proof fn lemma_digits_read(n: nat)
    ensures
        all_digits(digits(n)),
        digits_value(digits(n)) == n,
    decreases n,
{
    let d = digits(n);
    let q = n % 10;
    assert(digit(q) as int - '0' as int == q) by {
        if q == 0 {} else if q == 1 {} else if q == 2 {} else if q == 3 {} else if q == 4 {}
        else if q == 5 {} else if q == 6 {} else if q == 7 {} else if q == 8 {} else {}
    }
    assert(is_digit(digit(q)));
    if n < 10 {
        assert(d.drop_last() =~= Seq::<char>::empty());
        assert(d.last() == digit(q));
        assert(digits_value(d.drop_last()) == 0);
        assert(digits_value(d) == digits_value(d.drop_last()) * 10 + (d.last() as int - '0' as int));
        assert(q == n);
        assert(d[0] == digit(q));
    } else {
        lemma_digits_read(n / 10);
        assert(d.drop_last() =~= digits(n / 10));
        assert(d.last() == digit(q));
        assert(n == (n / 10) * 10 + q);
        assert(digits_value(d) == digits_value(d.drop_last()) * 10 + (d.last() as int - '0' as int));
        assert forall|k: int| 0 <= k < d.len() implies is_digit(#[trigger] d[k]) by {
            if k < d.len() - 1 {
                assert(d[k] == digits(n / 10)[k]);
            }
        }
    }
}

proof fn lemma_word_end_all(cs: Seq<char>, i: int)
    requires
        0 <= i <= cs.len(),
        forall|k: int| 0 <= k < cs.len() ==> !is_delim(#[trigger] cs[k]),
    ensures
        word_end(cs, i) == cs.len(),
    decreases cs.len() - i,
{
    if i < cs.len() {
        lemma_word_end_all(cs, i + 1);
    }
}

/// An integer is shown as a decimal literal that reads back as that integer.
pub proof fn lemma_int_round_trip(i: i64)
    ensures
        lex(shown(Value::Int(i))) == Some(seq![Tok::Leaf(Value::Int(i))]),
        parse_tokens(seq![Tok::Leaf(Value::Int(i))]) == Some(Value::Int(i)),
{
    let w = shown(Value::Int(i));
    let m: nat = if i < 0 { (-i) as nat } else { i as nat };
    lemma_digits_read(m);
    let d = digits(m);
    assert(w == decimal(i as int));
    assert forall|k: int| 0 <= k < w.len() implies !is_delim(#[trigger] w[k]) by {
        if i < 0 {
            if k > 0 {
                assert(w[k] == d[k - 1]);
                assert(is_digit(d[k - 1]));
            }
        } else {
            assert(is_digit(d[k]));
        }
    }
    lemma_word_end_all(w, 0);
    assert(w.subrange(0, w.len() as int) =~= w);
    reveal_strlit("true");
    reveal_strlit("false");
    assert(is_digit(d[0]));
    if i < 0 {
        assert(w.drop_first() =~= d);
        assert(!is_digit(w[0]));
        assert(int_literal(w) == Some(i as int));
    } else {
        assert(int_literal(w) == Some(i as int));
    }
    assert(w != "true"@ && w != "false"@) by {
        if w == "true"@ {
            assert(w[0] == 't');
        }
        if w == "false"@ {
            assert(w[0] == 'f');
        }
    }
    assert forall|op: Operator| operator_text(op) != w by {
        if operator_text(op) == w {
            assert(w.len() == 1);
            assert(is_digit(w[0]));
        }
    }
    assert(word_tok(w) == Some(Tok::Leaf(Value::Int(i))));
    assert(lex_from(w, w.len() as int) == Some(Seq::<Tok>::empty()));
    assert(seq![Tok::Leaf(Value::Int(i))] + Seq::<Tok>::empty() =~= seq![Tok::Leaf(Value::Int(i))]);
}

proof fn lemma_frame_miss(f: Seq<(Seq<char>, Value)>, name: Seq<char>)
    requires
        forall|i: int| 0 <= i < f.len() ==> f[i].0 != name,
    ensures
        frame_get(f, name) is None,
    decreases f.len(),
{
    if f.len() > 0 {
        lemma_frame_miss(f.drop_last(), name);
    }
}

proof fn lemma_frame_hit(f: Seq<(Seq<char>, Value)>, name: Seq<char>, k: int)
    requires
        0 <= k < f.len(),
        f[k].0 == name,
        forall|i: int| k < i < f.len() ==> f[i].0 != name,
    ensures
        frame_get(f, name) == Some(f[k].1),
    decreases f.len(),
{
    if k < f.len() - 1 {
        lemma_frame_hit(f.drop_last(), name, k);
    }
}

/// The tokens a value is written as: a list or vector between its delimiters, with its
/// elements spelled in order; anything else as one token.
pub open spec fn spell(v: Value) -> Seq<Tok>
    decreases v, 0nat,
{
    match v {
        Value::List(s) => seq![Tok::Open] + spell_from(s, 0) + seq![Tok::Close],
        Value::Vector(s) => seq![Tok::OpenVec] + spell_from(s, 0) + seq![Tok::CloseVec],
        _ => seq![Tok::Leaf(v)],
    }
}

/// The spelling of the elements `s[k..]`, one after another.
pub open spec fn spell_from(s: Seq<Value>, k: int) -> Seq<Tok>
    decreases s, s.len() - k,
{
    if k < 0 || k >= s.len() {
        Seq::empty()
    } else {
        spell(s[k]) + spell_from(s, k + 1)
    }
}

proof fn lemma_spell_starts(v: Value)
    ensures
        spell(v).len() >= 1,
        spell(v)[0] != Tok::Close,
        spell(v)[0] != Tok::CloseVec,
{
}

proof fn lemma_read_at(t: Seq<Tok>, pos: int, v: Value)
    requires
        0 <= pos,
        pos + spell(v).len() <= t.len(),
        t.subrange(pos, pos + spell(v).len()) == spell(v),
    ensures
        parse_at(t, pos) == Some((v, pos + spell(v).len())),
    decreases v, 1nat,
{
    let n = spell(v).len();
    assert(t[pos] == t.subrange(pos, pos + n)[0]);
    match v {
        Value::List(s) => {
            let body = spell_from(s, 0);
            assert(t.subrange(pos + 1, pos + 1 + body.len()) =~= body) by {
                assert forall|i: int| 0 <= i < body.len() implies t.subrange(pos + 1, pos + 1
                    + body.len())[i] == body[i] by {
                    assert(t.subrange(pos, pos + n)[i + 1] == spell(v)[i + 1]);
                }
            }
            assert(t[pos + 1 + body.len()] == t.subrange(pos, pos + n)[n - 1]);
            lemma_read_items(t, pos + 1, s, 0, true);
            assert(s.skip(0) =~= s);
        },
        Value::Vector(s) => {
            let body = spell_from(s, 0);
            assert(t.subrange(pos + 1, pos + 1 + body.len()) =~= body) by {
                assert forall|i: int| 0 <= i < body.len() implies t.subrange(pos + 1, pos + 1
                    + body.len())[i] == body[i] by {
                    assert(t.subrange(pos, pos + n)[i + 1] == spell(v)[i + 1]);
                }
            }
            assert(t[pos + 1 + body.len()] == t.subrange(pos, pos + n)[n - 1]);
            lemma_read_items(t, pos + 1, s, 0, false);
            assert(s.skip(0) =~= s);
        },
        _ => {},
    }
}

proof fn lemma_read_items(t: Seq<Tok>, pos: int, s: Seq<Value>, k: int, list: bool)
    requires
        0 <= k <= s.len(),
        0 <= pos,
        pos + spell_from(s, k).len() < t.len(),
        t.subrange(pos, pos + spell_from(s, k).len()) == spell_from(s, k),
        t[pos + spell_from(s, k).len()] == closer(list),
    ensures
        parse_items(t, pos, list) == Some((s.skip(k), pos + spell_from(s, k).len() + 1)),
    decreases s, s.len() - k, 1nat,
{
    let all = spell_from(s, k);
    if k == s.len() {
        assert(s.skip(k) =~= Seq::<Value>::empty());
    } else {
        let head = spell(s[k]);
        let tail = spell_from(s, k + 1);
        lemma_spell_starts(s[k]);
        assert(all == head + tail);
        assert(t[pos] == all[0]);
        assert(t.subrange(pos, pos + head.len()) =~= head) by {
            assert forall|i: int| 0 <= i < head.len() implies t.subrange(pos, pos + head.len())[i]
                == head[i] by {
                assert(t.subrange(pos, pos + all.len())[i] == all[i]);
            }
        }
        lemma_read_at(t, pos, s[k]);
        let p = pos + head.len();
        assert(t.subrange(p, p + tail.len()) =~= tail) by {
            assert forall|i: int| 0 <= i < tail.len() implies t.subrange(p, p + tail.len())[i]
                == tail[i] by {
                assert(t.subrange(pos, pos + all.len())[head.len() + i] == all[head.len() + i]);
            }
        }
        lemma_read_items(t, p, s, k + 1, list);
        assert(seq![s[k]] + s.skip(k + 1) =~= s.skip(k));
    }
}

/// Reading the tokens a value is written as gives that value back.
pub proof fn lemma_read_spelling(v: Value)
    ensures
        parse_tokens(spell(v)) == Some(v),
{
    assert(spell(v).subrange(0, spell(v).len() as int) =~= spell(v));
    lemma_read_at(spell(v), 0, v);
}

} // verus!
