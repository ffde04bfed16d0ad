//! The meaning of programs, as spec functions: what evaluating a value in a
//! chain of frames gives, what it prints, and what it binds.
use vstd::prelude::*;

use crate::env::{bind, lookup, Frame};
use crate::host::{reply_for, ArithOp, Rep, Req};
use crate::parser::{parsed, ParseError};
use crate::text::int_text;
use crate::value::{bool_text, kind_name, same, text_of, Val};

verus! {

/// How deep evaluation may nest before it stops with [`Fault::TooDeep`].
pub const MAX_DEPTH: u64 = 2000;

/// The model of an evaluation error.
pub enum Fault {
    Parse(ParseError),
    Unbound(Seq<char>),
    Arity(Seq<char>),
    NotANumber(Seq<char>),
    NotText(Seq<char>),
    ConditionNotBool,
    DefineKeyword(Seq<char>),
    BadDefine,
    BadLambda,
    BadParameter,
    NotCallable(Seq<char>),
    BadPrint,
    BadLoadArgument,
    BadExtension(Seq<char>),
    ModuleNotFound(Seq<char>),
    BadKeyword(Seq<char>),
    DivisionByZero,
    Overflow,
    NegativeExponent,
    BadFloat(Seq<char>),
    BadReply,
    TooDeep,
    Needs(Req),
}

/// The end of an evaluation: its result, the frames and the printed lines.
pub struct Run {
    pub res: Result<Val, Fault>,
    pub env: Seq<Frame>,
    pub out: Seq<Seq<char>>,
}

pub open spec fn done(v: Val, env: Seq<Frame>, out: Seq<Seq<char>>) -> Run {
    Run { res: Ok(v), env, out }
}

pub open spec fn fail(e: Fault, env: Seq<Frame>, out: Seq<Seq<char>>) -> Run {
    Run { res: Err(e), env, out }
}

/// The operator that a symbol names, if it names one.
pub open spec fn operator_of(s: Seq<char>) -> Option<ArithOp> {
    if s == "+"@ {
        Some(ArithOp::Add)
    } else if s == "-"@ {
        Some(ArithOp::Sub)
    } else if s == "*"@ {
        Some(ArithOp::Mul)
    } else if s == "/"@ {
        Some(ArithOp::Div)
    } else if s == "<"@ {
        Some(ArithOp::Lt)
    } else if s == ">"@ {
        Some(ArithOp::Gt)
    } else if s == "=="@ {
        Some(ArithOp::Eq)
    } else if s == ">="@ {
        Some(ArithOp::Ge)
    } else if s == "<="@ {
        Some(ArithOp::Le)
    } else if s == "^"@ {
        Some(ArithOp::Pow)
    } else {
        None
    }
}

pub open spec fn fits(v: int) -> bool {
    i64::MIN <= v <= i64::MAX
}

/// Integer division that rounds toward zero.
pub open spec fn trunc_div(a: int, b: int) -> int {
    let q = abs(a) / abs(b);
    if (a < 0) != (b < 0) {
        -q
    } else {
        q
    }
}

pub open spec fn abs(a: int) -> int {
    if a < 0 {
        -a
    } else {
        a
    }
}

pub open spec fn power(a: int, n: nat) -> int
    decreases n,
{
    if n == 0 {
        1
    } else {
        a * power(a, (n - 1) as nat)
    }
}

pub open spec fn int_result(v: int) -> Result<Val, Fault> {
    if fits(v) {
        Ok(Val::Int(v as i64))
    } else {
        Err(Fault::Overflow)
    }
}

/// An operator on two integers: exact arithmetic, an error where the result
/// does not fit in 64 bits, on division by zero and on a negative exponent.
pub open spec fn int_op(op: ArithOp, a: i64, b: i64) -> Result<Val, Fault> {
    match op {
        ArithOp::Add => int_result(a + b),
        ArithOp::Sub => int_result(a - b),
        ArithOp::Mul => int_result(a * b),
        ArithOp::Div => if b == 0 {
            Err(Fault::DivisionByZero)
        } else {
            int_result(trunc_div(a as int, b as int))
        },
        ArithOp::Lt => Ok(Val::Bool(a < b)),
        ArithOp::Gt => Ok(Val::Bool(a > b)),
        ArithOp::Eq => Ok(Val::Bool(a == b)),
        ArithOp::Ge => Ok(Val::Bool(a >= b)),
        ArithOp::Le => Ok(Val::Bool(a <= b)),
        ArithOp::Pow => if b < 0 {
            Err(Fault::NegativeExponent)
        } else {
            int_result(power(a as int, b as nat))
        },
    }
}

/// An operator on two floats, as the host answered it.
pub open spec fn float_op(op: ArithOp, x: Seq<char>, y: Seq<char>, rep: Seq<(Req, Rep)>) -> Result<
    Val,
    Fault,
> {
    let q = Req::Arith(op, x, y);
    match reply_for(rep, q) {
        None => Err(Fault::Needs(q)),
        Some(Rep::Float(c)) => if op.compares() {
            Err(Fault::BadReply)
        } else {
            Ok(Val::Float(c))
        },
        Some(Rep::Bool(b)) => if op.compares() {
            Ok(Val::Bool(b))
        } else {
            Err(Fault::BadReply)
        },
        Some(_) => Err(Fault::BadReply),
    }
}

/// The float nearest to an integer, as the host answered it.
pub open spec fn to_float(n: i64, rep: Seq<(Req, Rep)>) -> Result<Seq<char>, Fault> {
    match reply_for(rep, Req::FromInt(n)) {
        None => Err(Fault::Needs(Req::FromInt(n))),
        Some(Rep::Float(c)) => Ok(c),
        Some(_) => Err(Fault::BadReply),
    }
}

/// The canonical text of a float literal, as the host answered it.
pub open spec fn read_float(t: Seq<char>, rep: Seq<(Req, Rep)>) -> Result<Seq<char>, Fault> {
    match reply_for(rep, Req::Float(t)) {
        None => Err(Fault::Needs(Req::Float(t))),
        Some(Rep::Float(c)) => Ok(c),
        Some(Rep::Missing) => Err(Fault::BadFloat(t)),
        Some(_) => Err(Fault::BadReply),
    }
}

/// A numeric operator on two evaluated operands. Two integers give integer
/// arithmetic; a float on either side turns the other into a float too.
pub open spec fn arith(op: ArithOp, l: Val, r: Val, rep: Seq<(Req, Rep)>) -> Result<Val, Fault> {
    match l {
        Val::Float(x) => match r {
            Val::Float(y) => float_op(op, x, y, rep),
            Val::Int(n) => match to_float(n, rep) {
                Ok(y) => float_op(op, x, y, rep),
                Err(e) => Err(e),
            },
            _ => Err(Fault::NotANumber(kind_name(r))),
        },
        Val::Int(a) => match r {
            Val::Float(y) => match to_float(a, rep) {
                Ok(x) => float_op(op, x, y, rep),
                Err(e) => Err(e),
            },
            Val::Int(b) => int_op(op, a, b),
            _ => Err(Fault::NotANumber(kind_name(r))),
        },
        _ => Err(Fault::NotANumber(kind_name(l))),
    }
}

/// The text that `concat` takes from a scalar.
pub open spec fn scalar_text(v: Val) -> Option<Seq<char>> {
    match v {
        Val::Str(s) => Some(s),
        Val::Int(i) => Some(int_text(i as int)),
        Val::Float(t) => Some(t),
        Val::Bool(b) => Some(bool_text(b)),
        _ => None,
    }
}

/// `concat` on two evaluated operands.
pub open spec fn concat_vals(l: Val, r: Val) -> Result<Val, Fault> {
    match scalar_text(l) {
        None => Err(Fault::NotText(kind_name(l))),
        Some(a) => match scalar_text(r) {
            None => Err(Fault::NotText(kind_name(r))),
            Some(b) => Ok(Val::Str(a + b)),
        },
    }
}

/// The help text of a keyword.
pub open spec fn doc_of(k: Seq<char>) -> Seq<char> {
    if k == "if"@ {
        "Conditional if"@
    } else if k == "define"@ {
        "Define a symbol"@
    } else if k == "lambda"@ {
        "define a Lambda function"@
    } else if k == "equal"@ {
        "Check if two values are equal"@
    } else if k == "print"@ {
        "Print a value"@
    } else if k == "load"@ {
        "Load a file"@
    } else {
        ""@
    }
}

pub open spec fn all_syms(ps: Seq<Val>) -> bool {
    forall|i: int| 0 <= i < ps.len() ==> #[trigger] ps[i] is Sym
}

pub open spec fn sym_names(ps: Seq<Val>) -> Seq<Seq<char>> {
    ps.map_values(|v: Val| v->Sym_0)
}

/// `(lambda (params...) (body...))`: a closure value; the body is not looked at.
pub open spec fn lambda_of(items: Seq<Val>) -> Result<Val, Fault> {
    if items.len() < 3 {
        Err(Fault::Arity("lambda"@))
    } else {
        match items[1] {
            Val::List(ps) => if !all_syms(ps) {
                Err(Fault::BadParameter)
            } else {
                match items[2] {
                    Val::List(body) => Ok(Val::Lambda(sym_names(ps), body)),
                    _ => Err(Fault::BadLambda),
                }
            },
            _ => Err(Fault::BadLambda),
        }
    }
}

/// The text after the last `.`; all of it when there is none.
pub open spec fn extension(s: Seq<char>) -> Seq<char>
    decreases s.len(),
{
    if s.len() == 0 {
        s
    } else if s.last() == '.' {
        Seq::empty()
    } else {
        extension(s.drop_last()).push(s.last())
    }
}

pub open spec fn has_dot(s: Seq<char>) -> bool {
    exists|i: int| 0 <= i < s.len() && s[i] == '.'
}

/// The file that `load` reads for a name, or the extension it refuses.
pub open spec fn module_file(file: Seq<char>) -> Result<Seq<char>, Fault> {
    let ext = extension(file);
    let known = ext == "lisp"@ || ext == "cl"@;
    if !known && has_dot(file) {
        Err(Fault::BadExtension(ext))
    } else if !known {
        Ok(file + ".lisp"@)
    } else {
        Ok(file)
    }
}

/// The line that `print` writes for a name bound to `v`.
pub open spec fn var_line(s: Seq<char>, v: Val) -> Seq<char> {
    "Type: "@ + kind_name(v) + ", Var "@ + s + ": "@ + text_of(v)
}

/// Evaluates one value.
pub open spec fn eval_obj(
    v: Val,
    env: Seq<Frame>,
    out: Seq<Seq<char>>,
    rep: Seq<(Req, Rep)>,
    fuel: nat,
) -> Run
    decreases fuel, 0nat, 0nat,
{
    if fuel == 0 {
        fail(Fault::TooDeep, env, out)
    } else {
        match v {
            Val::List(items) => eval_list(items, env, out, rep, (fuel - 1) as nat),
            Val::Lambda(_, _) => done(Val::Void, env, out),
            Val::Float(t) => match read_float(t, rep) {
                Ok(c) => done(Val::Float(c), env, out),
                Err(e) => fail(e, env, out),
            },
            Val::Sym(s) => match lookup(env, s) {
                Some(x) => done(x, env, out),
                None => fail(Fault::Unbound(s), env, out),
            },
            _ => done(v, env, out),
        }
    }
}

/// Evaluates the elements from `i` on, in order, keeping the results that
/// are not `Void`.
pub open spec fn eval_items(
    items: Seq<Val>,
    i: int,
    acc: Seq<Val>,
    env: Seq<Frame>,
    out: Seq<Seq<char>>,
    rep: Seq<(Req, Rep)>,
    fuel: nat,
) -> Run
    decreases fuel, 1nat, items.len() - i,
{
    if i < 0 || i >= items.len() {
        done(Val::List(acc), env, out)
    } else {
        let r = eval_obj(items[i], env, out, rep, fuel);
        match r.res {
            Err(e) => fail(e, r.env, r.out),
            Ok(Val::Void) => eval_items(items, i + 1, acc, r.env, r.out, rep, fuel),
            Ok(x) => eval_items(items, i + 1, acc.push(x), r.env, r.out, rep, fuel),
        }
    }
}

/// Evaluates the arguments of a call from `i` on in the caller's frames
/// `env`, binding each to its parameter in the call frames `frame`.
pub open spec fn bind_args(
    name: Seq<char>,
    ps: Seq<Seq<char>>,
    items: Seq<Val>,
    i: int,
    frame: Seq<Frame>,
    env: Seq<Frame>,
    out: Seq<Seq<char>>,
    rep: Seq<(Req, Rep)>,
    fuel: nat,
) -> (Result<Seq<Frame>, Fault>, Seq<Frame>, Seq<Seq<char>>)
    decreases fuel, 1nat, ps.len() - i,
{
    if i < 0 || i >= ps.len() {
        (Ok(frame), env, out)
    } else if items.len() <= i + 1 {
        (Err(Fault::Arity(name)), env, out)
    } else {
        let r = eval_obj(items[i + 1], env, out, rep, fuel);
        match r.res {
            Err(e) => (Err(e), r.env, r.out),
            Ok(v) => bind_args(name, ps, items, i + 1, bind(frame, ps[i], v), r.env, r.out, rep, fuel),
        }
    }
}

/// `(define name expr)`.
pub open spec fn eval_define(
    items: Seq<Val>,
    env: Seq<Frame>,
    out: Seq<Seq<char>>,
    rep: Seq<(Req, Rep)>,
    fuel: nat,
) -> Run
    decreases fuel, 2nat, 0nat,
{
    if items.len() != 3 {
        fail(Fault::Arity("define"@), env, out)
    } else {
        match items[1] {
            Val::Sym(s) => {
                let r = eval_obj(items[2], env, out, rep, fuel);
                match r.res {
                    Ok(v) => done(Val::Void, bind(r.env, s, v), r.out),
                    Err(e) => fail(e, r.env, r.out),
                }
            },
            Val::Kw(k) => fail(Fault::DefineKeyword(k), env, out),
            _ => fail(Fault::BadDefine, env, out),
        }
    }
}

/// `(if cond then else)`.
pub open spec fn eval_if(
    items: Seq<Val>,
    env: Seq<Frame>,
    out: Seq<Seq<char>>,
    rep: Seq<(Req, Rep)>,
    fuel: nat,
) -> Run
    decreases fuel, 2nat, 0nat,
{
    if items.len() != 4 {
        fail(Fault::Arity("if"@), env, out)
    } else {
        let c = eval_obj(items[1], env, out, rep, fuel);
        match c.res {
            Ok(Val::Bool(b)) => eval_obj(if b { items[2] } else { items[3] }, c.env, c.out, rep, fuel),
            Ok(_) => fail(Fault::ConditionNotBool, c.env, c.out),
            Err(e) => fail(e, c.env, c.out),
        }
    }
}

/// `(equal a b)`.
pub open spec fn eval_equal(
    items: Seq<Val>,
    env: Seq<Frame>,
    out: Seq<Seq<char>>,
    rep: Seq<(Req, Rep)>,
    fuel: nat,
) -> Run
    decreases fuel, 2nat, 0nat,
{
    if items.len() != 3 {
        fail(Fault::Arity("equal"@), env, out)
    } else {
        let l = eval_obj(items[1], env, out, rep, fuel);
        match l.res {
            Err(e) => fail(e, l.env, l.out),
            Ok(a) => {
                let r = eval_obj(items[2], l.env, l.out, rep, fuel);
                match r.res {
                    Err(e) => fail(e, r.env, r.out),
                    Ok(b) => done(Val::Bool(same(a, b)), r.env, r.out),
                }
            },
        }
    }
}

/// `(op a b)` for a numeric operator.
pub open spec fn eval_binary(
    op: ArithOp,
    name: Seq<char>,
    items: Seq<Val>,
    env: Seq<Frame>,
    out: Seq<Seq<char>>,
    rep: Seq<(Req, Rep)>,
    fuel: nat,
) -> Run
    decreases fuel, 2nat, 0nat,
{
    if items.len() != 3 {
        fail(Fault::Arity(name), env, out)
    } else {
        let l = eval_obj(items[1], env, out, rep, fuel);
        match l.res {
            Err(e) => fail(e, l.env, l.out),
            Ok(a) => {
                let r = eval_obj(items[2], l.env, l.out, rep, fuel);
                match r.res {
                    Err(e) => fail(e, r.env, r.out),
                    Ok(b) => match arith(op, a, b, rep) {
                        Ok(v) => done(v, r.env, r.out),
                        Err(e) => fail(e, r.env, r.out),
                    },
                }
            },
        }
    }
}

/// `(concat a b)`.
pub open spec fn eval_concat(
    items: Seq<Val>,
    env: Seq<Frame>,
    out: Seq<Seq<char>>,
    rep: Seq<(Req, Rep)>,
    fuel: nat,
) -> Run
    decreases fuel, 2nat, 0nat,
{
    if items.len() != 3 {
        fail(Fault::Arity("concat"@), env, out)
    } else {
        let l = eval_obj(items[1], env, out, rep, fuel);
        match l.res {
            Err(e) => fail(e, l.env, l.out),
            Ok(a) => {
                let r = eval_obj(items[2], l.env, l.out, rep, fuel);
                match r.res {
                    Err(e) => fail(e, r.env, r.out),
                    Ok(b) => match concat_vals(a, b) {
                        Ok(v) => done(v, r.env, r.out),
                        Err(e) => fail(e, r.env, r.out),
                    },
                }
            },
        }
    }
}

/// `(print x)`: writes one line and gives `Void`.
pub open spec fn eval_print(
    items: Seq<Val>,
    env: Seq<Frame>,
    out: Seq<Seq<char>>,
    rep: Seq<(Req, Rep)>,
    fuel: nat,
) -> Run
    decreases fuel, 2nat, 0nat,
{
    if items.len() < 2 {
        fail(Fault::Arity("print"@), env, out)
    } else {
        match items[1] {
            Val::Kw(k) => done(Val::Void, env, out.push(doc_of(k))),
            Val::Sym(s) => match lookup(env, s) {
                None => fail(Fault::Unbound(s), env, out),
                Some(v) => done(Val::Void, env, out.push(var_line(s, v))),
            },
            Val::Lambda(_, _) => done(Val::Void, env, out.push(text_of(items[1]))),
            Val::Str(s) => done(Val::Void, env, out.push("Str: "@ + s)),
            Val::Bool(b) => done(Val::Void, env, out.push("Bool: "@ + bool_text(b))),
            Val::Int(i) => done(Val::Void, env, out.push("Int: "@ + int_text(i as int))),
            Val::Float(t) => match read_float(t, rep) {
                Ok(c) => done(Val::Void, env, out.push("Float: "@ + c)),
                Err(e) => fail(e, env, out),
            },
            Val::List(_) => {
                let r = eval_obj(items[1], env, out, rep, fuel);
                match r.res {
                    Ok(v) => done(Val::Void, r.env, r.out.push(text_of(v))),
                    Err(e) => fail(e, r.env, r.out),
                }
            },
            Val::Void => fail(Fault::BadPrint, env, out),
        }
    }
}

/// The file name that `(load x)` names.
pub open spec fn load_name(items: Seq<Val>, env: Seq<Frame>) -> Result<Seq<char>, Fault> {
    if items.len() < 2 {
        Err(Fault::Arity("load"@))
    } else {
        match items[1] {
            Val::Str(s) => Ok(s),
            Val::Sym(s) => match lookup(env, s) {
                None => Err(Fault::Unbound(s)),
                Some(Val::Str(x)) => Ok(x),
                Some(_) => Err(Fault::BadLoadArgument),
            },
            _ => Err(Fault::BadLoadArgument),
        }
    }
}

/// `(load x)`: reads a module and evaluates it in the current frames.
pub open spec fn eval_load(
    items: Seq<Val>,
    env: Seq<Frame>,
    out: Seq<Seq<char>>,
    rep: Seq<(Req, Rep)>,
    fuel: nat,
) -> Run
    decreases fuel, 2nat, 0nat,
{
    match load_name(items, env) {
        Err(e) => fail(e, env, out),
        Ok(file) => match module_file(file) {
            Err(e) => fail(e, env, out),
            Ok(path) => match reply_for(rep, Req::Module(path)) {
                None => fail(Fault::Needs(Req::Module(path)), env, out),
                Some(Rep::Text(src)) => match parsed(src) {
                    Err(e) => fail(Fault::Parse(e), env, out),
                    Ok(ast) => eval_obj(ast, env, out, rep, fuel),
                },
                Some(Rep::Missing) => fail(Fault::ModuleNotFound(path), env, out),
                Some(_) => fail(Fault::BadReply, env, out),
            },
        },
    }
}

/// `(name args...)` where `name` is not an operator: a call of the lambda
/// bound to it, in a copy of the caller's frames; or, for a scalar, a print
/// of it.
pub open spec fn eval_call(
    name: Seq<char>,
    items: Seq<Val>,
    env: Seq<Frame>,
    out: Seq<Seq<char>>,
    rep: Seq<(Req, Rep)>,
    fuel: nat,
) -> Run
    decreases fuel, 3nat, 0nat,
{
    match lookup(env, name) {
        None => fail(Fault::Unbound(name), env, out),
        Some(Val::Lambda(ps, body)) => {
            let b = bind_args(name, ps, items, 0, env, env, out, rep, fuel);
            match b.0 {
                Err(e) => fail(e, b.1, b.2),
                Ok(frame) => {
                    let r = eval_obj(Val::List(body), frame, b.2, rep, fuel);
                    Run { res: r.res, env: b.1, out: r.out }
                },
            }
        },
        Some(Val::Str(s)) => done(Val::Void, env, out.push(s)),
        Some(Val::Bool(b)) => done(Val::Void, env, out.push(bool_text(b))),
        Some(Val::Int(i)) => done(Val::Void, env, out.push(int_text(i as int))),
        Some(Val::Float(t)) => done(Val::Void, env, out.push(t)),
        Some(_) => fail(Fault::NotCallable(name), env, out),
    }
}

/// A list whose head is a keyword.
pub open spec fn eval_keyword(
    k: Seq<char>,
    items: Seq<Val>,
    env: Seq<Frame>,
    out: Seq<Seq<char>>,
    rep: Seq<(Req, Rep)>,
    fuel: nat,
) -> Run
    decreases fuel, 4nat, 0nat,
{
    if k == "define"@ {
        eval_define(items, env, out, rep, fuel)
    } else if k == "load"@ {
        eval_load(items, env, out, rep, fuel)
    } else if k == "print"@ {
        eval_print(items, env, out, rep, fuel)
    } else if k == "if"@ {
        eval_if(items, env, out, rep, fuel)
    } else if k == "lambda"@ {
        match lambda_of(items) {
            Ok(v) => done(v, env, out),
            Err(e) => fail(e, env, out),
        }
    } else if k == "equal"@ {
        eval_equal(items, env, out, rep, fuel)
    } else {
        fail(Fault::BadKeyword(k), env, out)
    }
}

/// A list, dispatched on its head.
pub open spec fn eval_list(
    items: Seq<Val>,
    env: Seq<Frame>,
    out: Seq<Seq<char>>,
    rep: Seq<(Req, Rep)>,
    fuel: nat,
) -> Run
    decreases fuel, 5nat, 0nat,
{
    if items.len() == 0 {
        done(Val::Void, env, out)
    } else {
        match items[0] {
            Val::Kw(k) => eval_keyword(k, items, env, out, rep, fuel),
            Val::Sym(s) => match operator_of(s) {
                Some(op) => eval_binary(op, s, items, env, out, rep, fuel),
                None => if s == "concat"@ {
                    eval_concat(items, env, out, rep, fuel)
                } else {
                    eval_call(s, items, env, out, rep, fuel)
                },
            },
            _ => eval_items(items, 0, Seq::empty(), env, out, rep, fuel),
        }
    }
}

/// Evaluates a program text in the frames `env`.
pub open spec fn eval_program(program: Seq<char>, env: Seq<Frame>, out: Seq<Seq<char>>, rep: Seq<(Req, Rep)>) -> Run {
    match parsed(program) {
        Err(e) => fail(Fault::Parse(e), env, out),
        Ok(ast) => eval_obj(ast, env, out, rep, MAX_DEPTH as nat),
    }
}

} // verus!
