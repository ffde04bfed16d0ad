//! What holds of every program and every chain of frames.
use vstd::prelude::*;

use crate::env::{bind, frame_get, frame_pos, frame_set, lookup, Frame};
use crate::host::{Rep, Req};
use crate::sem::{
    concat_vals, done, eval_define, eval_equal, eval_keyword, eval_list, eval_obj, eval_print, fail,
    operator_of, Fault,
};
use crate::value::same;
use crate::value::Val;

verus! {

/// `concat` of two strings is exactly the first followed by the second,
/// character for character, whatever the characters are.
pub proof fn lemma_concat_strings(a: Seq<char>, b: Seq<char>)
    ensures
        concat_vals(Val::Str(a), Val::Str(b)) == Ok::<Val, Fault>(Val::Str(a + b)),
{
}

/// `(define k e)` with a reserved word `k` fails, whatever `e` is, and binds
/// nothing.
pub proof fn lemma_define_keyword(
    k: Seq<char>,
    e: Val,
    env: Seq<Frame>,
    out: Seq<Seq<char>>,
    rep: Seq<(Req, Rep)>,
    fuel: nat,
)
    requires
        fuel > 0,
    ensures
        eval_obj(Val::List(seq![Val::Kw("define"@), Val::Kw(k), e]), env, out, rep, fuel)
            == fail(Fault::DefineKeyword(k), env, out),
{
    let items = seq![Val::Kw("define"@), Val::Kw(k), e];
    let f = (fuel - 1) as nat;
    assert(items[0] == Val::Kw("define"@) && items[1] == Val::Kw(k) && items.len() == 3);
    assert(eval_define(items, env, out, rep, f) == fail(Fault::DefineKeyword(k), env, out));
    assert(eval_keyword("define"@, items, env, out, rep, f) == fail(Fault::DefineKeyword(k), env, out));
    assert(eval_list(items, env, out, rep, f) == fail(Fault::DefineKeyword(k), env, out));
}

/// `(equal a b)` evaluates both operands, left then right, and compares the
/// results, not the forms.
pub proof fn lemma_equal_evaluates_both(
    a: Val,
    b: Val,
    env: Seq<Frame>,
    out: Seq<Seq<char>>,
    rep: Seq<(Req, Rep)>,
    fuel: nat,
)
    requires
        fuel > 0,
        eval_obj(a, env, out, rep, (fuel - 1) as nat).res is Ok,
        ({
            let l = eval_obj(a, env, out, rep, (fuel - 1) as nat);
            eval_obj(b, l.env, l.out, rep, (fuel - 1) as nat).res is Ok
        }),
    ensures
        ({
            let f = (fuel - 1) as nat;
            let l = eval_obj(a, env, out, rep, f);
            let r = eval_obj(b, l.env, l.out, rep, f);
            eval_obj(Val::List(seq![Val::Kw("equal"@), a, b]), env, out, rep, fuel) == done(
                Val::Bool(same(l.res->Ok_0, r.res->Ok_0)),
                r.env,
                r.out,
            )
        }),
{
    let items = seq![Val::Kw("equal"@), a, b];
    let f = (fuel - 1) as nat;
    assert(items[0] == Val::Kw("equal"@) && items[1] == a && items[2] == b && items.len() == 3);
    let r = eval_equal(items, env, out, rep, f);
    reveal_strlit("define");
    reveal_strlit("load");
    reveal_strlit("print");
    reveal_strlit("if");
    reveal_strlit("lambda");
    reveal_strlit("equal");
    assert("equal"@.len() != "define"@.len());
    assert("equal"@.len() != "load"@.len());
    assert("equal"@.len() != "if"@.len());
    assert("equal"@.len() != "lambda"@.len());
    assert("equal"@ != "print"@) by {
        assert("equal"@[0] != "print"@[0]);
    }
    assert(eval_keyword("equal"@, items, env, out, rep, f) == r);
    assert(eval_list(items, env, out, rep, f) == r);
}

/// `(define s e)` evaluates `e` once, binds its value to `s` in the innermost
/// frame, and gives `Void`, which a program's result then leaves out.
pub proof fn lemma_define_binds(
    s: Seq<char>,
    e: Val,
    env: Seq<Frame>,
    out: Seq<Seq<char>>,
    rep: Seq<(Req, Rep)>,
    fuel: nat,
)
    requires
        fuel > 0,
        eval_obj(e, env, out, rep, (fuel - 1) as nat).res is Ok,
    ensures
        ({
            let r = eval_obj(e, env, out, rep, (fuel - 1) as nat);
            eval_obj(Val::List(seq![Val::Kw("define"@), Val::Sym(s), e]), env, out, rep, fuel)
                == done(Val::Void, crate::env::bind(r.env, s, r.res->Ok_0), r.out)
        }),
{
    let items = seq![Val::Kw("define"@), Val::Sym(s), e];
    let f = (fuel - 1) as nat;
    assert(items[0] == Val::Kw("define"@) && items[1] == Val::Sym(s) && items[2] == e
        && items.len() == 3);
    let r = eval_define(items, env, out, rep, f);
    assert(eval_keyword("define"@, items, env, out, rep, f) == r);
    assert(eval_list(items, env, out, rep, f) == r);
}

/// A name that no frame binds fails as a bare reference.
pub proof fn lemma_unbound_reference(
    s: Seq<char>,
    env: Seq<Frame>,
    out: Seq<Seq<char>>,
    rep: Seq<(Req, Rep)>,
    fuel: nat,
)
    requires
        lookup(env, s) is None,
        fuel > 0,
    ensures
        eval_obj(Val::Sym(s), env, out, rep, fuel) == fail(Fault::Unbound(s), env, out),
{
}

/// A name that no frame binds fails as the left operand of an operator, and
/// as its right operand after an integer.
pub proof fn lemma_unbound_operand(
    op: Seq<char>,
    s: Seq<char>,
    x: Val,
    n: i64,
    env: Seq<Frame>,
    out: Seq<Seq<char>>,
    rep: Seq<(Req, Rep)>,
    fuel: nat,
)
    requires
        lookup(env, s) is None,
        operator_of(op) is Some,
        fuel > 1,
    ensures
        eval_obj(Val::List(seq![Val::Sym(op), Val::Sym(s), x]), env, out, rep, fuel) == fail(
            Fault::Unbound(s),
            env,
            out,
        ),
        eval_obj(Val::List(seq![Val::Sym(op), Val::Int(n), Val::Sym(s)]), env, out, rep, fuel)
            == fail(Fault::Unbound(s), env, out),
{
    let f = (fuel - 1) as nat;
    assert(eval_obj(Val::Sym(s), env, out, rep, f) == fail(Fault::Unbound(s), env, out));
    assert(eval_obj(Val::Int(n), env, out, rep, f).res == Ok::<Val, Fault>(Val::Int(n)));
}

/// A name that no frame binds fails at the head of a call.
pub proof fn lemma_unbound_call(
    s: Seq<char>,
    args: Seq<Val>,
    env: Seq<Frame>,
    out: Seq<Seq<char>>,
    rep: Seq<(Req, Rep)>,
    fuel: nat,
)
    requires
        lookup(env, s) is None,
        operator_of(s) is None,
        s != "concat"@,
        fuel > 0,
    ensures
        eval_obj(Val::List(seq![Val::Sym(s)] + args), env, out, rep, fuel) == fail(
            Fault::Unbound(s),
            env,
            out,
        ),
{
    assert((seq![Val::Sym(s)] + args)[0] == Val::Sym(s));
}

/// A name that no frame binds fails as the argument of `print`, which then
/// prints nothing.
pub proof fn lemma_unbound_print(
    s: Seq<char>,
    env: Seq<Frame>,
    out: Seq<Seq<char>>,
    rep: Seq<(Req, Rep)>,
    fuel: nat,
)
    requires
        lookup(env, s) is None,
        fuel > 0,
    ensures
        eval_obj(Val::List(seq![Val::Kw("print"@), Val::Sym(s)]), env, out, rep, fuel) == fail(
            Fault::Unbound(s),
            env,
            out,
        ),
{
    let items = seq![Val::Kw("print"@), Val::Sym(s)];
    let f = (fuel - 1) as nat;
    assert(items[0] == Val::Kw("print"@) && items[1] == Val::Sym(s) && items.len() == 2);
    assert(eval_print(items, env, out, rep, f) == fail(Fault::Unbound(s), env, out));
    reveal_strlit("define");
    reveal_strlit("load");
    reveal_strlit("print");
    assert("print"@.len() != "define"@.len());
    assert("print"@.len() != "load"@.len());
    assert(eval_keyword("print"@, items, env, out, rep, f) == fail(Fault::Unbound(s), env, out));
    assert(eval_list(items, env, out, rep, f) == fail(Fault::Unbound(s), env, out));
}

proof fn lemma_frame_pos_same_keys(f: Frame, g: Frame, k: Seq<char>)
    requires
        f.len() == g.len(),
        forall|i: int| 0 <= i < f.len() ==> (#[trigger] f[i]).0 == g[i].0,
    ensures
        frame_pos(f, k) == frame_pos(g, k),
    decreases f.len(),
{
    if f.len() > 0 {
        lemma_frame_pos_same_keys(f.drop_last(), g.drop_last(), k);
    }
}

proof fn lemma_frame_pos_found(f: Frame, k: Seq<char>)
    ensures
        match frame_pos(f, k) {
            Some(i) => 0 <= i < f.len() && f[i].0 == k && forall|j: int|
                i < j < f.len() ==> (#[trigger] f[j]).0 != k,
            None => forall|j: int| 0 <= j < f.len() ==> (#[trigger] f[j]).0 != k,
        },
    decreases f.len(),
{
    if f.len() > 0 && f.last().0 != k {
        let d = f.drop_last();
        lemma_frame_pos_found(d, k);
        assert(frame_pos(f, k) == frame_pos(d, k));
        assert(forall|j: int| 0 <= j < d.len() ==> #[trigger] d[j] == f[j]);
        match frame_pos(d, k) {
            Some(i) => {
                assert forall|j: int| i < j < f.len() implies (#[trigger] f[j]).0 != k by {
                    if j < d.len() {
                        assert(d[j] == f[j]);
                    }
                }
            },
            None => {
                assert forall|j: int| 0 <= j < f.len() implies (#[trigger] f[j]).0 != k by {
                    if j < d.len() {
                        assert(d[j] == f[j]);
                    }
                }
            },
        }
    }
}

proof fn lemma_frame_pos_last(f: Frame, k: Seq<char>, i: int)
    requires
        0 <= i < f.len(),
        f[i].0 == k,
        forall|j: int| i < j < f.len() ==> (#[trigger] f[j]).0 != k,
    ensures
        frame_pos(f, k) == Some(i),
    decreases f.len(),
{
    if i < f.len() - 1 {
        lemma_frame_pos_last(f.drop_last(), k, i);
    }
}

/// After binding `k` to `v` in one frame, `k` is bound to `v` there and every
/// other name keeps its binding.
pub proof fn lemma_frame_set_get(f: Frame, k: Seq<char>, v: Val, k2: Seq<char>)
    ensures
        frame_get(frame_set(f, k, v), k) == Some(v),
        k2 != k ==> frame_get(frame_set(f, k, v), k2) == frame_get(f, k2),
{
    lemma_frame_pos_found(f, k);
    let g = frame_set(f, k, v);
    match frame_pos(f, k) {
        Some(i) => {
            lemma_frame_pos_last(g, k, i);
            assert(forall|j: int| 0 <= j < f.len() ==> (#[trigger] f[j]).0 == g[j].0);
            lemma_frame_pos_same_keys(f, g, k2);
            lemma_frame_pos_found(f, k2);
            if k2 != k {
                match frame_pos(f, k2) {
                    Some(j) => {
                        assert(j != i);
                        assert(g[j] == f[j]);
                    },
                    None => {},
                }
            }
        },
        None => {
            lemma_frame_pos_last(g, k, f.len() as int);
            if k2 != k {
                assert(g.drop_last() =~= f);
                assert(frame_pos(g, k2) == frame_pos(f, k2));
                lemma_frame_pos_found(f, k2);
                match frame_pos(f, k2) {
                    Some(j) => {
                        assert(g[j] == f[j]);
                    },
                    None => {},
                }
            }
        },
    }
}

/// Binding a name changes only the innermost frame: the name is then bound
/// to the new value, every other name looks up as before, and the ancestor
/// frames stay as they were.
pub proof fn lemma_bind_lookup(env: Seq<Frame>, k: Seq<char>, v: Val, k2: Seq<char>)
    requires
        env.len() > 0,
    ensures
        lookup(bind(env, k, v), k) == Some(v),
        k2 != k ==> lookup(bind(env, k, v), k2) == lookup(env, k2),
        bind(env, k, v).len() == env.len(),
        bind(env, k, v).drop_first() == env.drop_first(),
{
    lemma_frame_set_get(env[0], k, v, k2);
    let b = bind(env, k, v);
    assert(b.drop_first() =~= env.drop_first());
}

} // verus!

verus! {

/// No symbol in a value spells a reserved word.
pub open spec fn no_keyword_symbols(v: Val) -> bool
    decreases v,
{
    match v {
        Val::Sym(s) => !crate::parser::is_keyword(s),
        Val::List(items) => forall|i: int|
            0 <= i < items.len() ==> no_keyword_symbols(#[trigger] items[i]),
        Val::Lambda(_, body) => forall|i: int|
            0 <= i < body.len() ==> no_keyword_symbols(#[trigger] body[i]),
        _ => true,
    }
}

proof fn lemma_parse_from_clean(
    toks: Seq<crate::lexer::Tok>,
    q: int,
    stack: Seq<Seq<Val>>,
)
    requires
        forall|i: int, j: int|
            0 <= i < stack.len() && 0 <= j < stack[i].len() ==> no_keyword_symbols(
                #[trigger] stack[i][j],
            ),
    ensures
        crate::parser::parse_from(toks, q, stack) is Ok ==> no_keyword_symbols(
            crate::parser::parse_from(toks, q, stack)->Ok_0,
        ),
    decreases toks.len() - q,
{
    if 0 <= q < toks.len() && stack.len() > 0 {
        let top = stack.last();
        let rest = stack.drop_last();
        match toks[q] {
            crate::lexer::Tok::LParen => {
                let next = stack.push(Seq::empty());
                assert forall|i: int, j: int|
                    0 <= i < next.len() && 0 <= j < next[i].len() implies no_keyword_symbols(
                        #[trigger] next[i][j],
                    ) by {
                    assert(next[i] == stack[i]);
                }
                lemma_parse_from_clean(toks, q + 1, next);
            },
            crate::lexer::Tok::RParen => {
                assert(no_keyword_symbols(Val::List(top))) by {
                    assert forall|j: int| 0 <= j < top.len() implies no_keyword_symbols(
                        #[trigger] top[j],
                    ) by {
                        assert(top[j] == stack[stack.len() - 1][j]);
                    }
                }
                if rest.len() > 0 {
                    let parent = rest.last().push(Val::List(top));
                    let next = rest.drop_last().push(parent);
                    assert forall|i: int, j: int|
                        0 <= i < next.len() && 0 <= j < next[i].len() implies no_keyword_symbols(
                            #[trigger] next[i][j],
                        ) by {
                        if i < next.len() - 1 {
                            assert(next[i] == stack[i]);
                        } else if j < parent.len() - 1 {
                            assert(next[i][j] == stack[rest.len() - 1][j]);
                        }
                    }
                    lemma_parse_from_clean(toks, q + 1, next);
                }
            },
            _ => {
                let v = crate::parser::token_val(toks[q]);
                assert(no_keyword_symbols(v));
                let grown = top.push(v);
                let next = rest.push(grown);
                assert forall|i: int, j: int|
                    0 <= i < next.len() && 0 <= j < next[i].len() implies no_keyword_symbols(
                        #[trigger] next[i][j],
                    ) by {
                    if i < next.len() - 1 {
                        assert(next[i] == stack[i]);
                    } else if j < grown.len() - 1 {
                        assert(next[i][j] == stack[stack.len() - 1][j]);
                    }
                }
                lemma_parse_from_clean(toks, q + 1, next);
            },
        }
    }
}

/// The parser never produces a symbol that spells a reserved word: every
/// reserved word in a program comes out as a keyword.
pub proof fn lemma_parsed_no_keyword_symbols(s: Seq<char>)
    ensures
        crate::parser::parsed(s) is Ok ==> no_keyword_symbols(crate::parser::parsed(s)->Ok_0),
{
    match crate::lexer::tokens_of(s) {
        Ok(t) => {
            let init: Seq<Seq<Val>> = seq![Seq::empty()];
            assert forall|i: int, j: int|
                0 <= i < init.len() && 0 <= j < init[i].len() implies no_keyword_symbols(
                    #[trigger] init[i][j],
                ) by {
                assert(init[i].len() == 0);
            }
            lemma_parse_from_clean(t, 1, init);
        },
        Err(_) => {},
    }
}

} // verus!

verus! {

/// With a float on either side, an arithmetic operator works on floats: the
/// integer operand is turned into a float, and the result, if any, is a float.
pub proof fn lemma_mixed_promotes(
    op: crate::host::ArithOp,
    x: Seq<char>,
    n: i64,
    rep: Seq<(Req, Rep)>,
)
    requires
        !op.compares(),
    ensures
        crate::sem::arith(op, Val::Float(x), Val::Int(n), rep) is Ok ==> crate::sem::arith(
            op,
            Val::Float(x),
            Val::Int(n),
            rep,
        )->Ok_0 is Float,
        crate::sem::arith(op, Val::Int(n), Val::Float(x), rep) is Ok ==> crate::sem::arith(
            op,
            Val::Int(n),
            Val::Float(x),
            rep,
        )->Ok_0 is Float,
        crate::sem::to_float(n, rep) is Err ==> crate::sem::arith(
            op,
            Val::Float(x),
            Val::Int(n),
            rep,
        ) == Err::<Val, Fault>(crate::sem::to_float(n, rep)->Err_0),
{
}

} // verus!
