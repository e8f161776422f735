use vstd::prelude::*;
use crate::error::ErrorKind;
use crate::host::Host;
use crate::text::{chars_of, string_of};
use crate::expr::Value;
use crate::ops::fits;
use crate::parse::{Tok, tok, toks};
use crate::token::{Atom, Operator, Token, operator_text};

verus! {

pub open spec fn is_space(c: char) -> bool {
    c == ' ' || c == '\t' || c == '\n' || c == '\r'
}

/// Characters that end a word.
pub open spec fn is_delim(c: char) -> bool {
    is_space(c) || c == '(' || c == ')' || c == '[' || c == ']' || c == '"'
}

pub open spec fn is_digit(c: char) -> bool {
    '0' <= c <= '9'
}

pub open spec fn all_digits(s: Seq<char>) -> bool {
    s.len() > 0 && forall|i: int| 0 <= i < s.len() ==> is_digit(#[trigger] s[i])
}

/// The number a string of decimal digits stands for.
pub open spec fn digits_value(s: Seq<char>) -> int
    decreases s.len(),
{
    if s.len() == 0 {
        0
    } else {
        digits_value(s.drop_last()) * 10 + (s.last() as int - '0' as int)
    }
}

/// The integer an integer literal (digits, with an optional leading `-`) stands for.
pub open spec fn int_literal(w: Seq<char>) -> Option<int> {
    if all_digits(w) {
        Some(digits_value(w))
    } else if w.len() > 1 && w[0] == '-' && all_digits(w.drop_first()) {
        Some(-digits_value(w.drop_first()))
    } else {
        None
    }
}

/// A word without its leading `-`, if it has one.
pub open spec fn unsigned_part(w: Seq<char>) -> Seq<char> {
    if w.len() > 0 && w[0] == '-' {
        w.drop_first()
    } else {
        w
    }
}

/// Made of digits and `.`, holding at least one of each.
pub open spec fn digits_and_dot(b: Seq<char>) -> bool {
    &&& forall|i: int| 0 <= i < b.len() ==> is_digit(#[trigger] b[i]) || b[i] == '.'
    &&& exists|i: int| 0 <= i < b.len() && #[trigger] b[i] == '.'
    &&& exists|i: int| 0 <= i < b.len() && is_digit(#[trigger] b[i])
}

/// A word made of digits and `.`, holding at least one of each, after an optional `-`.
pub open spec fn float_shaped(w: Seq<char>) -> bool {
    digits_and_dot(unsigned_part(w))
}

/// Where a word that starts at `i` ends: the first delimiter at or after `i`.
pub open spec fn word_end(cs: Seq<char>, i: int) -> int
    decreases cs.len() - i,
{
    if i < 0 || i >= cs.len() || is_delim(cs[i]) {
        i
    } else {
        word_end(cs, i + 1)
    }
}

/// The first `"` at or after `i`, or the end of the text.
pub open spec fn quote_end(cs: Seq<char>, i: int) -> int
    decreases cs.len() - i,
{
    if i < 0 || i >= cs.len() || cs[i] == '"' {
        i
    } else {
        quote_end(cs, i + 1)
    }
}

/// What a word reads as; `None` for an integer that does not fit in 64 bits. A
/// float-shaped word reads as a float whose bits the host picks, written here with bits 0.
pub open spec fn word_tok(w: Seq<char>) -> Option<Tok> {
    if w == "true"@ {
        Some(Tok::Leaf(Value::Bool(true)))
    } else if w == "false"@ {
        Some(Tok::Leaf(Value::Bool(false)))
    } else if exists|op: Operator| operator_text(op) == w {
        Some(Tok::Leaf(Value::Sym(w)))
    } else {
        match int_literal(w) {
            Some(n) => if fits(n) {
                Some(Tok::Leaf(Value::Int(n as i64)))
            } else {
                None
            },
            None => if float_shaped(w) {
                Some(Tok::Leaf(Value::Flt(0)))
            } else {
                Some(Tok::Leaf(Value::Sym(w)))
            },
        }
    }
}

pub open spec fn cons_tok(t: Tok, rest: Option<Seq<Tok>>) -> Option<Seq<Tok>> {
    match rest {
        Some(r) => Some(seq![t] + r),
        None => None,
    }
}

/// The tokens of `cs[i..]`; `None` for an unterminated string or an integer too large.
pub open spec fn lex_from(cs: Seq<char>, i: int) -> Option<Seq<Tok>>
    decreases cs.len() - i,
{
    if i < 0 || i >= cs.len() {
        Some(Seq::empty())
    } else if is_space(cs[i]) {
        lex_from(cs, i + 1)
    } else if cs[i] == '(' {
        cons_tok(Tok::Open, lex_from(cs, i + 1))
    } else if cs[i] == ')' {
        cons_tok(Tok::Close, lex_from(cs, i + 1))
    } else if cs[i] == '[' {
        cons_tok(Tok::OpenVec, lex_from(cs, i + 1))
    } else if cs[i] == ']' {
        cons_tok(Tok::CloseVec, lex_from(cs, i + 1))
    } else if cs[i] == '"' {
        let j = quote_end(cs, i + 1);
        if j <= i || j >= cs.len() {
            None
        } else {
            cons_tok(Tok::Leaf(Value::Str(cs.subrange(i + 1, j))), lex_from(cs, j + 1))
        }
    } else {
        let j = word_end(cs, i);
        if j <= i || j > cs.len() {
            None
        } else {
            match word_tok(cs.subrange(i, j)) {
                Some(t) => cons_tok(t, lex_from(cs, j)),
                None => None,
            }
        }
    }
}

/// The tokens of a text.
pub open spec fn lex(cs: Seq<char>) -> Option<Seq<Tok>> {
    lex_from(cs, 0)
}

/// A token read from a float-shaped word.
pub open spec fn is_float_tok(t: Tok) -> bool {
    t matches Tok::Leaf(Value::Flt(_))
}

/// `got` is `want`, but for the bits of each float, which the host picks.
pub open spec fn agree(got: Seq<Tok>, want: Seq<Tok>) -> bool {
    &&& got.len() == want.len()
    &&& forall|k: int|
        0 <= k < want.len() ==> if is_float_tok(#[trigger] want[k]) {
            is_float_tok(got[k])
        } else {
            got[k] == want[k]
        }
}

/// No token was read from a float-shaped word.
pub open spec fn no_floats(ts: Seq<Tok>) -> bool {
    forall|k: int| 0 <= k < ts.len() ==> !is_float_tok(#[trigger] ts[k])
}

pub open spec fn cons_all(acc: Seq<Tok>, rest: Option<Seq<Tok>>) -> Option<Seq<Tok>> {
    match rest {
        Some(r) => Some(acc + r),
        None => None,
    }
}

proof fn lemma_cons_all(acc: Seq<Tok>, t: Tok, rest: Option<Seq<Tok>>)
    ensures
        cons_all(acc, cons_tok(t, rest)) == cons_all(acc.push(t), rest),
{
    if let Some(r) = rest {
        assert(acc + (seq![t] + r) =~= acc.push(t) + r);
    }
}

proof fn lemma_agree_push(got: Seq<Tok>, want: Seq<Tok>, g: Tok, w: Tok)
    requires
        agree(got, want),
        if is_float_tok(w) {
            is_float_tok(g)
        } else {
            g == w
        },
    ensures
        agree(got.push(g), want.push(w)),
{
    assert forall|k: int| 0 <= k < want.push(w).len() implies if is_float_tok(
        #[trigger] want.push(w)[k],
    ) {
        is_float_tok(got.push(g)[k])
    } else {
        got.push(g)[k] == want.push(w)[k]
    } by {
        if k < want.len() {
            assert(want.push(w)[k] == want[k]);
            assert(got.push(g)[k] == got[k]);
        }
    }
}

proof fn lemma_digits_grow(s: Seq<char>, k: int)
    requires
        0 <= k <= s.len(),
        forall|i: int| 0 <= i < s.len() ==> is_digit(#[trigger] s[i]),
    ensures
        0 <= digits_value(s.take(k)) <= digits_value(s),
    decreases s.len(),
{
    if s.len() > 0 {
        let d = s.drop_last();
        assert forall|i: int| 0 <= i < d.len() implies is_digit(#[trigger] d[i]) by {
            assert(d[i] == s[i]);
        }
        assert(is_digit(s[s.len() - 1]));
        if k == s.len() {
            assert(s.take(k) =~= s);
            lemma_digits_grow(d, d.len() as int);
            assert(d.take(d.len() as int) =~= d);
        } else {
            lemma_digits_grow(d, k);
            assert(d.take(k) =~= s.take(k));
            lemma_digits_grow(d, d.len() as int);
            assert(d.take(d.len() as int) =~= d);
        }
    } else {
        assert(s.take(k).len() == 0);
    }
}

/// The value of the digits `w[from..]`, if it is at most `limit`.
fn digits_up_to(w: &Vec<char>, from: usize, limit: u64) -> (r: Option<u64>)
    requires
        from < w.len(),
        all_digits(w@.skip(from as int)),
    ensures
        r matches Some(n) ==> n as int == digits_value(w@.skip(from as int)) && n <= limit,
        r is None ==> digits_value(w@.skip(from as int)) > limit,
{
    let ghost s = w@.skip(from as int);
    let mut acc: u64 = 0;
    let mut i: usize = from;
    assert(s.take(0) =~= Seq::<char>::empty());
    while i < w.len()
        invariant
            from <= i <= w.len(),
            s == w@.skip(from as int),
            all_digits(s),
            acc as int == digits_value(s.take(i - from)),
            acc <= limit,
        decreases w.len() - i,
    {
        assert(s[i - from] == w@[i as int]);
        assert(is_digit(w@[i as int]));
        let d = (w[i] as u32 - '0' as u32) as u64;
        assert(s.take(i + 1 - from).drop_last() =~= s.take(i - from));
        let next = acc as u128 * 10 + d as u128;
        if next > limit as u128 {
            proof {
                lemma_digits_grow(s, i + 1 - from);
            }
            return None;
        }
        acc = next as u64;
        i = i + 1;
    }
    assert(s.take(i - from) =~= s);
    Some(acc)
}

fn all_digits_from(w: &Vec<char>, from: usize) -> (r: bool)
    requires
        from <= w.len(),
    ensures
        r == all_digits(w@.skip(from as int)),
{
    if from >= w.len() {
        return false;
    }
    let mut i: usize = from;
    while i < w.len()
        invariant
            from <= i <= w.len(),
            forall|k: int| from <= k < i ==> is_digit(#[trigger] w@[k]),
        decreases w.len() - i,
    {
        let c = w[i];
        if !('0' <= c && c <= '9') {
            assert(!is_digit(w@.skip(from as int)[i - from]));
            return false;
        }
        i = i + 1;
    }
    assert forall|k: int| 0 <= k < w@.skip(from as int).len() implies is_digit(
        #[trigger] w@.skip(from as int)[k],
    ) by {
        assert(w@.skip(from as int)[k] == w@[k + from]);
    }
    true
}

fn float_shape(w: &Vec<char>) -> (r: bool)
    ensures
        r == float_shaped(w@),
{
    let from: usize = if w.len() > 0 && w[0] == '-' { 1 } else { 0 };
    let ghost b = unsigned_part(w@);
    assert(b =~= w@.skip(from as int));
    let mut dot = false;
    let mut digit = false;
    let mut i: usize = from;
    while i < w.len()
        invariant
            from <= i <= w.len(),
            b == w@.skip(from as int),
            b == unsigned_part(w@),
            forall|k: int| 0 <= k < i - from ==> is_digit(#[trigger] b[k]) || b[k] == '.',
            dot == exists|k: int| 0 <= k < i - from && #[trigger] b[k] == '.',
            digit == exists|k: int| 0 <= k < i - from && is_digit(#[trigger] b[k]),
        decreases w.len() - i,
    {
        let c = w[i];
        assert(b[i - from] == c);
        if c == '.' {
            dot = true;
        } else if '0' <= c && c <= '9' {
            digit = true;
        } else {
            assert(!(is_digit(b[i - from]) || b[i - from] == '.'));
            return false;
        }
        i = i + 1;
    }
    assert(b.len() == i - from);
    dot && digit
}

/// Reads one word: a boolean, an operator, an integer, a float, or else a symbol.
/// `None` for a number that cannot be held.
fn classify<H: Host>(w: &Vec<char>, host: &H) -> (r: Option<Token>)
    requires
        w.len() > 0,
    ensures
        w@ == "true"@ ==> r == Some(Token::Atom(Atom::Bool(true))),
        w@ == "false"@ ==> r == Some(Token::Atom(Atom::Bool(false))),
        (exists|op: Operator| operator_text(op) == w@) ==> (r matches Some(Token::Atom(Atom::Op(op)))
            && operator_text(op) == w@),
        int_literal(w@) matches Some(n) ==> if i64::MIN <= n <= i64::MAX {
            r == Some(Token::Atom(Atom::Int(n as i64)))
        } else {
            r is None
        },
        w@ != "true"@ && w@ != "false"@ && (forall|op: Operator| operator_text(op) != w@)
            && int_literal(w@) is None && float_shaped(w@) ==> (r is None || r matches Some(
            Token::Atom(Atom::Float(_)),
        )),
        w@ != "true"@ && w@ != "false"@ && (forall|op: Operator| operator_text(op) != w@)
            && int_literal(w@) is None && !float_shaped(w@) ==> (r matches Some(Token::Sym(s))
            && s@ == w@),
        match word_tok(w@) {
            None => r is None,
            Some(t) => if is_float_tok(t) {
                r is None || (r matches Some(x) && is_float_tok(tok(x)))
            } else {
                r matches Some(x) && tok(x) == t
            },
        },
{
    let s = string_of(w);
    proof {
        reveal_strlit("true");
        reveal_strlit("false");
    }
    if w.len() == 4 && w[0] == 't' && w[1] == 'r' && w[2] == 'u' && w[3] == 'e' {
        assert(w@ =~= "true"@);
        return Some(Token::Atom(Atom::Bool(true)));
    }
    if w.len() == 5 && w[0] == 'f' && w[1] == 'a' && w[2] == 'l' && w[3] == 's' && w[4] == 'e' {
        assert(w@ =~= "false"@);
        return Some(Token::Atom(Atom::Bool(false)));
    }
    assert(w@ != "true"@ && w@ != "false"@) by {
        if w@ == "true"@ {
            assert(w@[0] == 't' && w@[1] == 'r' && w@[2] == 'u' && w@[3] == 'e');
        }
        if w@ == "false"@ {
            assert(w@[0] == 'f' && w@[1] == 'a' && w@[2] == 'l' && w@[3] == 's' && w@[4] == 'e');
        }
    }
    match Operator::parse(s.as_str()) {
        Ok(op) => {
            return Some(Token::Atom(Atom::Op(op)));
        },
        Err(()) => {},
    }
    if all_digits_from(w, 0) {
        assert(w@.skip(0) =~= w@);
        return match digits_up_to(w, 0, 9223372036854775807u64) {
            Some(n) => Some(Token::Atom(Atom::Int(n as i64))),
            None => None,
        };
    }
    if w.len() > 1 && w[0] == '-' && all_digits_from(w, 1) {
        assert(w@.skip(1) =~= w@.drop_first());
        return match digits_up_to(w, 1, 9223372036854775808u64) {
            Some(n) => {
                if n == 9223372036854775808u64 {
                    Some(Token::Atom(Atom::Int(i64::MIN)))
                } else {
                    Some(Token::Atom(Atom::Int(-(n as i64))))
                }
            },
            None => None,
        };
    }
    proof {
        if w@.len() > 1 && w@[0] == '-' {
            assert(w@.skip(1) =~= w@.drop_first());
        }
        assert(w@.skip(0) =~= w@);
    }
    if float_shape(w) {
        return match host.float_parse(&s) {
            Some(b) => Some(Token::Atom(Atom::Float(b))),
            None => None,
        };
    }
    Some(Token::Sym(s))
}

/// Splits source text into tokens: exactly the tokens of `lex`, with each float's bits
/// from the host. A parse error gives the index of the character where reading failed: an
/// unterminated string, an integer too large, or a float the host does not accept.
pub fn tokenize<H: Host>(text: &str, host: &H) -> (r: Result<Vec<Token>, ErrorKind>)
    ensures
        lex(text@) is None ==> r matches Err(ErrorKind::Parse(_)),
        lex(text@) matches Some(ts) ==> match r {
            Ok(out) => agree(toks(out@), ts),
            Err(e) => e is Parse && !no_floats(ts),
        },
{
    let cs = chars_of(text);
    let ghost c = cs@;
    let mut out: Vec<Token> = Vec::new();
    let ghost mut acc: Seq<Tok> = Seq::empty();
    let mut i: usize = 0;
    proof {
        if let Some(r) = lex_from(c, 0) {
            assert(Seq::<Tok>::empty() + r =~= r);
        }
    }
    assert(toks(out@) =~= Seq::<Tok>::empty());
    while i < cs.len()
        invariant
            i <= cs.len(),
            c == cs@,
            c == text@,
            cons_all(acc, lex_from(c, i as int)) == lex(text@),
            agree(toks(out@), acc),
        decreases cs.len() - i,
    {
        let ch = cs[i];
        let ghost old_out = out@;
        if ch == ' ' || ch == '\t' || ch == '\n' || ch == '\r' {
            i = i + 1;
        } else if ch == '(' || ch == ')' || ch == '[' || ch == ']' {
            let t = if ch == '(' {
                Token::Open
            } else if ch == ')' {
                Token::Close
            } else if ch == '[' {
                Token::OpenVec
            } else {
                Token::CloseVec
            };
            proof {
                lemma_cons_all(acc, tok(t), lex_from(c, i + 1));
                lemma_agree_push(toks(old_out), acc, tok(t), tok(t));
                acc = acc.push(tok(t));
            }
            out.push(t);
            assert(toks(out@) =~= toks(old_out).push(tok(t)));
            i = i + 1;
        } else if ch == '"' {
            let start = i;
            let mut body: Vec<char> = Vec::new();
            i = i + 1;
            assert(body@ =~= c.subrange(start + 1, i as int));
            while i < cs.len() && cs[i] != '"'
                invariant
                    start < i <= cs.len(),
                    c == cs@,
                    quote_end(c, start + 1) == quote_end(c, i as int),
                    body@ == c.subrange(start + 1, i as int),
                decreases cs.len() - i,
            {
                body.push(cs[i]);
                i = i + 1;
                assert(body@ =~= c.subrange(start + 1, i as int));
            }
            if i >= cs.len() {
                assert(lex_from(c, start as int) is None);
                return Err(ErrorKind::Parse(start));
            }
            let t = Token::Atom(Atom::Str(string_of(&body)));
            proof {
                lemma_cons_all(acc, tok(t), lex_from(c, i + 1));
                lemma_agree_push(toks(old_out), acc, tok(t), tok(t));
                acc = acc.push(tok(t));
            }
            out.push(t);
            assert(toks(out@) =~= toks(old_out).push(tok(t)));
            i = i + 1;
        } else {
            let start = i;
            let mut word: Vec<char> = Vec::new();
            assert(word@ =~= c.subrange(start as int, i as int));
            while i < cs.len() && !(cs[i] == ' ' || cs[i] == '\t' || cs[i] == '\n' || cs[i] == '\r'
                || cs[i] == '(' || cs[i] == ')' || cs[i] == '[' || cs[i] == ']' || cs[i] == '"')
                invariant
                    start <= i <= cs.len(),
                    c == cs@,
                    word_end(c, start as int) == word_end(c, i as int),
                    word@ == c.subrange(start as int, i as int),
                decreases cs.len() - i,
            {
                word.push(cs[i]);
                i = i + 1;
                assert(word@ =~= c.subrange(start as int, i as int));
            }
            assert(word_end(c, i as int) == i);
            let ghost want = word_tok(word@);
            match classify(&word, host) {
                Some(t) => {
                    proof {
                        let w = want->Some_0;
                        lemma_cons_all(acc, w, lex_from(c, i as int));
                        lemma_agree_push(toks(old_out), acc, tok(t), w);
                        acc = acc.push(w);
                    }
                    out.push(t);
                    assert(toks(out@) =~= toks(old_out).push(tok(t)));
                },
                None => {
                    proof {
                        if let Some(w) = want {
                            if let Some(r) = lex_from(c, i as int) {
                                let ts = acc + (seq![w] + r);
                                assert(ts[acc.len() as int] == w);
                            }
                        }
                    }
                    return Err(ErrorKind::Parse(start));
                },
            }
        }
    }
    assert(lex_from(c, i as int) == Some(Seq::<Tok>::empty()));
    assert(acc + Seq::<Tok>::empty() =~= acc);
    Ok(out)
}

} // verus!
