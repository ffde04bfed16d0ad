use vstd::prelude::*;

use crate::env::{Env, Frame};
use crate::host::{ArithOp, Host, Reply, Request};
use crate::parser::{parse, ParseError};
use crate::sem;
use crate::sem::{abs, fits, power, Fault, Run};
use crate::text::{push_int, push_str, same_text};
use crate::value::{bool_text, lemma_objs_view, names_view, objs_view, same, same_seq, Object, Val};

verus! {

/// Why evaluation stopped without a value.
#[derive(Debug, PartialEq)]
pub enum EvalError {
    /// The program text is not a well-formed list.
    Parse(ParseError),
    /// A name that no frame binds.
    Unbound(String),
    /// A form with the wrong number of arguments; holds the form's head.
    Arity(String),
    /// An operand of a numeric operator that is not a number; holds its kind.
    NotANumber(String),
    /// An operand of `concat` that is not a scalar; holds its kind.
    NotText(String),
    /// The condition of an `if` is not a `Bool`.
    ConditionNotBool,
    /// An attempt to bind a reserved word.
    DefineKeyword(String),
    /// A `define` whose name is not a symbol.
    BadDefine,
    /// A `lambda` whose parameters or body are not lists.
    BadLambda,
    /// A `lambda` parameter that is not a symbol.
    BadParameter,
    /// A call of a name bound to something that cannot be called.
    NotCallable(String),
    /// A `print` of something that cannot be printed.
    BadPrint,
    /// A `load` of something that is not a string.
    BadLoadArgument,
    /// A `load` of a file whose extension is neither `lisp` nor `cl`.
    BadExtension(String),
    /// A `load` of a file that could not be read.
    ModuleNotFound(String),
    /// A keyword that does not start a form.
    BadKeyword(String),
    /// An integer division by zero.
    DivisionByZero,
    /// An integer result that does not fit in 64 bits.
    Overflow,
    /// An integer power with a negative exponent.
    NegativeExponent,
    /// A float literal that is not a float.
    BadFloat(String),
    /// The host answered a request with the wrong kind of reply.
    BadReply,
    /// Evaluation nested deeper than [`sem::MAX_DEPTH`].
    TooDeep,
    /// The host must answer this request before evaluation can go on.
    Needs(Request),
}

impl View for EvalError {
    type V = Fault;

    open spec fn view(&self) -> Fault {
        match self {
            EvalError::Parse(e) => Fault::Parse(*e),
            EvalError::Unbound(s) => Fault::Unbound(s@),
            EvalError::Arity(s) => Fault::Arity(s@),
            EvalError::NotANumber(s) => Fault::NotANumber(s@),
            EvalError::NotText(s) => Fault::NotText(s@),
            EvalError::ConditionNotBool => Fault::ConditionNotBool,
            EvalError::DefineKeyword(s) => Fault::DefineKeyword(s@),
            EvalError::BadDefine => Fault::BadDefine,
            EvalError::BadLambda => Fault::BadLambda,
            EvalError::BadParameter => Fault::BadParameter,
            EvalError::NotCallable(s) => Fault::NotCallable(s@),
            EvalError::BadPrint => Fault::BadPrint,
            EvalError::BadLoadArgument => Fault::BadLoadArgument,
            EvalError::BadExtension(s) => Fault::BadExtension(s@),
            EvalError::ModuleNotFound(s) => Fault::ModuleNotFound(s@),
            EvalError::BadKeyword(s) => Fault::BadKeyword(s@),
            EvalError::DivisionByZero => Fault::DivisionByZero,
            EvalError::Overflow => Fault::Overflow,
            EvalError::NegativeExponent => Fault::NegativeExponent,
            EvalError::BadFloat(s) => Fault::BadFloat(s@),
            EvalError::BadReply => Fault::BadReply,
            EvalError::TooDeep => Fault::TooDeep,
            EvalError::Needs(q) => Fault::Needs(q@),
        }
    }
}

pub open spec fn res_view(r: Result<Object, EvalError>) -> Result<Val, Fault> {
    match r {
        Ok(v) => Ok(v@),
        Err(e) => Err(e@),
    }
}

pub open spec fn text_res(r: Result<String, EvalError>) -> Result<Seq<char>, Fault> {
    match r {
        Ok(s) => Ok(s@),
        Err(e) => Err(e@),
    }
}

pub open spec fn run_of(r: Result<Object, EvalError>, env: Seq<Frame>, out: Seq<Seq<char>>) -> Run {
    Run { res: res_view(r), env, out }
}

/// The canonical text of a float literal, from the host's answers.
fn read_float(t: &String, host: &Host) -> (r: Result<String, EvalError>)
    ensures
        text_res(r) == sem::read_float(t@, host@.replies),
{
    let q = Request::Float(t.clone());
    match host.reply(&q) {
        None => Err(EvalError::Needs(q)),
        Some(Reply::Float(c)) => Ok(c),
        Some(Reply::Missing) => Err(EvalError::BadFloat(t.clone())),
        Some(_) => Err(EvalError::BadReply),
    }
}

/// The float nearest to an integer, from the host's answers.
fn to_float(n: i64, host: &Host) -> (r: Result<String, EvalError>)
    ensures
        text_res(r) == sem::to_float(n, host@.replies),
{
    let q = Request::FromInt(n);
    match host.reply(&q) {
        None => Err(EvalError::Needs(q)),
        Some(Reply::Float(c)) => Ok(c),
        Some(_) => Err(EvalError::BadReply),
    }
}

fn compares(op: ArithOp) -> (r: bool)
    ensures
        r == op.compares(),
{
    match op {
        ArithOp::Lt | ArithOp::Gt | ArithOp::Eq | ArithOp::Ge | ArithOp::Le => true,
        _ => false,
    }
}

/// An operator on two floats, from the host's answers.
fn float_op(op: ArithOp, x: &String, y: &String, host: &Host) -> (r: Result<Object, EvalError>)
    ensures
        res_view(r) == sem::float_op(op, x@, y@, host@.replies),
{
    let q = Request::Arith(op, x.clone(), y.clone());
    match host.reply(&q) {
        None => Err(EvalError::Needs(q)),
        Some(Reply::Float(c)) => {
            if compares(op) {
                Err(EvalError::BadReply)
            } else {
                Ok(Object::Float(c))
            }
        },
        Some(Reply::Bool(b)) => {
            if compares(op) {
                Ok(Object::Bool(b))
            } else {
                Err(EvalError::BadReply)
            }
        },
        Some(_) => Err(EvalError::BadReply),
    }
}

proof fn lemma_power_one(n: nat)
    ensures
        power(1, n) == 1,
    decreases n,
{
    if n > 0 {
        lemma_power_one((n - 1) as nat);
    }
}

proof fn lemma_power_zero(n: nat)
    requires
        n > 0,
    ensures
        power(0, n) == 0,
{
}

proof fn lemma_power_neg_one(n: nat)
    ensures
        power(-1, n) == if n % 2 == 0 {
            1int
        } else {
            -1int
        },
    decreases n,
{
    if n > 0 {
        lemma_power_neg_one((n - 1) as nat);
    }
}

proof fn lemma_power_grows(a: int, n: nat, m: nat)
    requires
        abs(a) >= 1,
        n <= m,
    ensures
        abs(power(a, n)) <= abs(power(a, m)),
    decreases m,
{
    if n < m {
        lemma_power_grows(a, n, (m - 1) as nat);
        let p = power(a, (m - 1) as nat);
        assert(abs(a * p) == abs(a) * abs(p)) by (nonlinear_arith);
        assert(abs(a) * abs(p) >= abs(p)) by (nonlinear_arith)
            requires
                abs(a) >= 1,
                abs(p) >= 0,
        ;
    }
}

fn int_value(v: i128) -> (r: Result<Object, EvalError>)
    ensures
        res_view(r) == sem::int_result(v as int),
{
    if -9223372036854775808 <= v && v <= 9223372036854775807 {
        Ok(Object::Integer(v as i64))
    } else {
        Err(EvalError::Overflow)
    }
}

fn magnitude(a: i64) -> (r: u128)
    ensures
        r as int == abs(a as int),
{
    if a < 0 {
        (-(a as i128)) as u128
    } else {
        a as u128
    }
}

fn int_power(a: i64, b: i64) -> (r: Result<Object, EvalError>)
    requires
        b >= 0,
    ensures
        res_view(r) == sem::int_result(power(a as int, b as nat)),
{
    if a == 0 {
        if b == 0 {
            return Ok(Object::Integer(1));
        }
        proof {
            lemma_power_zero(b as nat);
        }
        return Ok(Object::Integer(0));
    }
    if a == 1 {
        proof {
            lemma_power_one(b as nat);
        }
        return Ok(Object::Integer(1));
    }
    if a == -1 {
        proof {
            lemma_power_neg_one(b as nat);
        }
        if b % 2 == 0 {
            return Ok(Object::Integer(1));
        } else {
            return Ok(Object::Integer(-1));
        }
    }
    let mut acc: i128 = 1;
    let mut i: i64 = 0;
    while i < b
        invariant
            0 <= i <= b,
            acc as int == power(a as int, i as nat),
            fits(acc as int),
            abs(a as int) >= 2,
        decreases b - i,
    {
        assert((acc as int) * (a as int) <= 85070591730234615865843651857942052864
            && (acc as int) * (a as int) >= -85070591730234615865843651857942052864)
            by (nonlinear_arith)
            requires
                fits(acc as int),
                fits(a as int),
        ;
        let next = acc * (a as i128);
        assert(power(a as int, (i + 1) as nat) == (a as int) * power(a as int, i as nat));
        assert(next as int == power(a as int, (i + 1) as nat)) by (nonlinear_arith)
            requires
                next as int == (acc as int) * (a as int),
                acc as int == power(a as int, i as nat),
                power(a as int, (i + 1) as nat) == (a as int) * power(a as int, i as nat),
        ;
        if !(-9223372036854775808 <= next && next <= 9223372036854775807) {
            proof {
                if i + 1 < b {
                    let n2 = (i + 2) as nat;
                    lemma_power_grows(a as int, n2, b as nat);
                    assert(power(a as int, n2) == (a as int) * power(a as int, (i + 1) as nat));
                    assert(abs(power(a as int, n2)) >= 2 * abs(next as int)) by (nonlinear_arith)
                        requires
                            power(a as int, n2) == (a as int) * (next as int),
                            abs(a as int) >= 2,
                    ;
                }
            }
            return Err(EvalError::Overflow);
        }
        acc = next;
        i = i + 1;
    }
    Ok(Object::Integer(acc as i64))
}

/// An operator on two integers.
pub fn int_op(op: ArithOp, a: i64, b: i64) -> (r: Result<Object, EvalError>)
    ensures
        res_view(r) == sem::int_op(op, a, b),
{
    match op {
        ArithOp::Add => int_value(a as i128 + b as i128),
        ArithOp::Sub => int_value(a as i128 - b as i128),
        ArithOp::Mul => {
            assert((a as int) * (b as int) <= 85070591730234615865843651857942052864
                && (a as int) * (b as int) >= -85070591730234615865843651857942052864)
                by (nonlinear_arith)
                requires
                    fits(a as int),
                    fits(b as int),
            ;
            int_value(a as i128 * b as i128)
        },
        ArithOp::Div => {
            if b == 0 {
                Err(EvalError::DivisionByZero)
            } else {
                let q = magnitude(a) / magnitude(b);
                if (a < 0) != (b < 0) {
                    int_value(-(q as i128))
                } else {
                    int_value(q as i128)
                }
            }
        },
        ArithOp::Lt => Ok(Object::Bool(a < b)),
        ArithOp::Gt => Ok(Object::Bool(a > b)),
        ArithOp::Eq => Ok(Object::Bool(a == b)),
        ArithOp::Ge => Ok(Object::Bool(a >= b)),
        ArithOp::Le => Ok(Object::Bool(a <= b)),
        ArithOp::Pow => {
            if b < 0 {
                Err(EvalError::NegativeExponent)
            } else {
                int_power(a, b)
            }
        },
    }
}

/// A numeric operator on two evaluated operands, with the host's answers
/// for whatever floats it involves.
pub fn arith(op: ArithOp, l: &Object, r: &Object, host: &Host) -> (res: Result<Object, EvalError>)
    ensures
        res_view(res) == sem::arith(op, l@, r@, host@.replies),
{
    match l {
        Object::Float(x) => match r {
            Object::Float(y) => float_op(op, x, y, host),
            Object::Integer(n) => match to_float(*n, host) {
                Ok(y) => float_op(op, x, &y, host),
                Err(e) => Err(e),
            },
            _ => Err(EvalError::NotANumber(r.get_type())),
        },
        Object::Integer(a) => match r {
            Object::Float(y) => match to_float(*a, host) {
                Ok(x) => float_op(op, &x, y, host),
                Err(e) => Err(e),
            },
            Object::Integer(b) => int_op(op, *a, *b),
            _ => Err(EvalError::NotANumber(r.get_type())),
        },
        _ => Err(EvalError::NotANumber(l.get_type())),
    }
}

fn scalar_text(v: &Object) -> (r: Option<String>)
    ensures
        match r {
            Some(s) => sem::scalar_text(v@) == Some(s@),
            None => sem::scalar_text(v@) is None,
        },
{
    match v {
        Object::Str(s) => Some(s.clone()),
        Object::Integer(i) => {
            let mut t = String::new();
            push_int(&mut t, *i);
            assert(t@ =~= crate::text::int_text(*i as int));
            Some(t)
        },
        Object::Float(t) => Some(t.clone()),
        Object::Bool(b) => Some(bool_string(*b)),
        _ => None,
    }
}

fn bool_string(b: bool) -> (r: String)
    ensures
        r@ == bool_text(b),
{
    if b {
        String::from_str("true")
    } else {
        String::from_str("false")
    }
}

/// `concat` on two evaluated operands: their texts, left then right.
pub fn concat_vals(l: &Object, r: &Object) -> (res: Result<Object, EvalError>)
    ensures
        res_view(res) == sem::concat_vals(l@, r@),
{
    match scalar_text(l) {
        None => Err(EvalError::NotText(l.get_type())),
        Some(a) => match scalar_text(r) {
            None => Err(EvalError::NotText(r.get_type())),
            Some(b) => {
                let mut s = a;
                push_str(&mut s, b.as_str());
                Ok(Object::Str(s))
            },
        },
    }
}

/// The help text of a keyword; empty for one without help.
pub fn get_doc(k: String) -> (r: String)
    ensures
        r@ == sem::doc_of(k@),
{
    let k = k.as_str();
    if same_text(k, "if") {
        String::from_str("Conditional if")
    } else if same_text(k, "define") {
        String::from_str("Define a symbol")
    } else if same_text(k, "lambda") {
        String::from_str("define a Lambda function")
    } else if same_text(k, "equal") {
        String::from_str("Check if two values are equal")
    } else if same_text(k, "print") {
        String::from_str("Print a value")
    } else if same_text(k, "load") {
        String::from_str("Load a file")
    } else {
        String::from_str("")
    }
}

/// The operator that a symbol names, if any.
pub fn operator_of(s: &str) -> (r: Option<ArithOp>)
    ensures
        r == sem::operator_of(s@),
{
    if same_text(s, "+") {
        Some(ArithOp::Add)
    } else if same_text(s, "-") {
        Some(ArithOp::Sub)
    } else if same_text(s, "*") {
        Some(ArithOp::Mul)
    } else if same_text(s, "/") {
        Some(ArithOp::Div)
    } else if same_text(s, "<") {
        Some(ArithOp::Lt)
    } else if same_text(s, ">") {
        Some(ArithOp::Gt)
    } else if same_text(s, "==") {
        Some(ArithOp::Eq)
    } else if same_text(s, ">=") {
        Some(ArithOp::Ge)
    } else if same_text(s, "<=") {
        Some(ArithOp::Le)
    } else if same_text(s, "^") {
        Some(ArithOp::Pow)
    } else {
        None
    }
}

/// `(lambda (params...) (body...))` as a closure value.
pub fn lambda_of(items: &Vec<Object>) -> (r: Result<Object, EvalError>)
    ensures
        res_view(r) == sem::lambda_of(objs_view(items@)),
{
    proof {
        lemma_objs_view(items@);
    }
    if items.len() < 3 {
        return Err(EvalError::Arity(String::from_str("lambda")));
    }
    let ps = match &items[1] {
        Object::List(ps) => ps,
        _ => {
            return Err(EvalError::BadLambda);
        },
    };
    let ghost pv = objs_view(ps@);
    proof {
        lemma_objs_view(ps@);
    }
    assert(objs_view(items@)[1] == Val::List(pv));
    let mut names: Vec<String> = Vec::new();
    let mut i: usize = 0;
    while i < ps.len()
        invariant
            i <= ps@.len(),
            pv == objs_view(ps@),
            items@.len() >= 3,
            objs_view(items@).len() == items@.len(),
            objs_view(items@)[1] == Val::List(pv),
            objs_view(items@)[2] == items@[2]@,
            pv.len() == ps@.len(),
            forall|j: int| 0 <= j < ps@.len() ==> #[trigger] pv[j] == ps@[j]@,
            forall|j: int| 0 <= j < i ==> #[trigger] pv[j] is Sym,
            names_view(names@) =~= sem::sym_names(pv.subrange(0, i as int)),
        decreases ps@.len() - i,
    {
        match &ps[i] {
            Object::Symbol(s) => {
                let n = s.clone();
                proof {
                    assert(pv.subrange(0, i + 1) =~= pv.subrange(0, i as int).push(pv[i as int]));
                    assert(sem::sym_names(pv.subrange(0, i + 1)) =~= sem::sym_names(
                        pv.subrange(0, i as int),
                    ).push(n@));
                    assert(names_view(names@.push(n)) =~= names_view(names@).push(n@));
                }
                names.push(n);
            },
            _ => {
                assert(!(pv[i as int] is Sym));
                assert(!sem::all_syms(pv));
                return Err(EvalError::BadParameter);
            },
        }
        i = i + 1;
    }
    assert(pv.subrange(0, ps@.len() as int) =~= pv);
    match &items[2] {
        Object::List(body) => Ok(Object::Lambda(names, crate::value::copy_objs(body))),
        _ => Err(EvalError::BadLambda),
    }
}

/// The file that `load` reads for a name: the name itself when it ends in
/// `.lisp` or `.cl`, the name with `.lisp` added when it holds no `.`, and an
/// error for any other extension.
pub fn module_file(file: &String) -> (r: Result<String, EvalError>)
    ensures
        text_res(r) == sem::module_file(file@),
{
    let s = file.as_str();
    let n = s.unicode_len();
    let mut ext = String::new();
    let mut dot = false;
    let mut i: usize = 0;
    while i < n
        invariant
            n == s@.len(),
            s@ == file@,
            i <= n,
            ext@ == sem::extension(s@.subrange(0, i as int)),
            dot == exists|j: int| 0 <= j < i && s@[j] == '.',
        decreases n - i,
    {
        let c = s.get_char(i);
        assert(s@.subrange(0, i + 1).drop_last() =~= s@.subrange(0, i as int));
        if c == '.' {
            ext = String::new();
            dot = true;
        } else {
            crate::text::push_char(&mut ext, c);
        }
        i = i + 1;
    }
    assert(s@.subrange(0, n as int) =~= s@);
    let known = same_text(ext.as_str(), "lisp") || same_text(ext.as_str(), "cl");
    if !known && dot {
        Err(EvalError::BadExtension(ext))
    } else if !known {
        let mut p = file.clone();
        push_str(&mut p, ".lisp");
        Ok(p)
    } else {
        Ok(file.clone())
    }
}

fn names_equal(p: &Vec<String>, q: &Vec<String>) -> (r: bool)
    ensures
        r == (names_view(p@) == names_view(q@)),
{
    if p.len() != q.len() {
        assert(names_view(p@).len() != names_view(q@).len());
        return false;
    }
    let mut i: usize = 0;
    while i < p.len()
        invariant
            p@.len() == q@.len(),
            i <= p@.len(),
            forall|j: int| 0 <= j < i ==> #[trigger] p@[j]@ == q@[j]@,
        decreases p@.len() - i,
    {
        if !same_text(p[i].as_str(), q[i].as_str()) {
            assert(names_view(p@)[i as int] != names_view(q@)[i as int]);
            return false;
        }
        i = i + 1;
    }
    assert(names_view(p@) =~= names_view(q@));
    true
}

fn float_equal(x: &String, y: &String) -> (r: bool)
    ensures
        r == crate::value::float_same(x@, y@),
{
    let x = x.as_str();
    let y = y.as_str();
    !same_text(x, "NaN") && (same_text(x, y) || ((same_text(x, "0") || same_text(x, "-0")) && (
    same_text(y, "0") || same_text(y, "-0"))))
}

fn seq_equal(xs: &Vec<Object>, ys: &Vec<Object>) -> (r: bool)
    ensures
        r == same_seq(objs_view(xs@), objs_view(ys@)),
    decreases xs,
{
    let ghost xv = objs_view(xs@);
    let ghost yv = objs_view(ys@);
    proof {
        lemma_objs_view(xs@);
        lemma_objs_view(ys@);
    }
    if xs.len() != ys.len() {
        return false;
    }
    let mut i: usize = xs.len();
    assert(xv.subrange(0, i as int) =~= xv);
    assert(yv.subrange(0, i as int) =~= yv);
    while i > 0
        invariant
            xs@.len() == ys@.len(),
            i <= xs@.len(),
            xv == objs_view(xs@),
            yv == objs_view(ys@),
            xv.len() == xs@.len(),
            yv.len() == ys@.len(),
            forall|j: int| 0 <= j < xs@.len() ==> #[trigger] xv[j] == xs@[j]@,
            forall|j: int| 0 <= j < ys@.len() ==> #[trigger] yv[j] == ys@[j]@,
            same_seq(xv, yv) == same_seq(xv.subrange(0, i as int), yv.subrange(0, i as int)),
        decreases i,
    {
        proof {
            assert(decreases_to!(xs => xs@));
            assert(decreases_to!(xs@ => xs@[i - 1]));
            assert(xv.subrange(0, i as int).drop_last() =~= xv.subrange(0, i - 1));
            assert(yv.subrange(0, i as int).drop_last() =~= yv.subrange(0, i - 1));
        }
        if !values_equal(&xs[i - 1], &ys[i - 1]) {
            return false;
        }
        i = i - 1;
    }
    true
}

/// Deep equality of two values, floats compared as numbers.
pub fn values_equal(a: &Object, b: &Object) -> (r: bool)
    ensures
        r == same(a@, b@),
    decreases a,
{
    match (a, b) {
        (Object::Float(x), Object::Float(y)) => float_equal(x, y),
        (Object::List(xs), Object::List(ys)) => seq_equal(xs, ys),
        (Object::Lambda(p, xs), Object::Lambda(q, ys)) => names_equal(p, q) && seq_equal(xs, ys),
        (Object::List(_), _) => false,
        (Object::Lambda(_, _), _) => false,
        (Object::Float(_), _) => false,
        (Object::Void, Object::Void) => true,
        (Object::Integer(x), Object::Integer(y)) => *x == *y,
        (Object::Bool(x), Object::Bool(y)) => *x == *y,
        (Object::Str(x), Object::Str(y)) => same_text(x.as_str(), y.as_str()),
        (Object::Symbol(x), Object::Symbol(y)) => same_text(x.as_str(), y.as_str()),
        (Object::Keyword(x), Object::Keyword(y)) => same_text(x.as_str(), y.as_str()),
        _ => false,
    }
}

} // verus!

verus! {

/// Evaluates one value in `env`, nesting at most `fuel` deep.
pub fn eval_obj(obj: &Object, env: &mut Env, host: &mut Host, fuel: u64) -> (r: Result<
    Object,
    EvalError,
>)
    ensures
        final(host)@.replies == old(host)@.replies,
        run_of(r, final(env)@, final(host)@.out) == sem::eval_obj(
            obj@,
            old(env)@,
            old(host)@.out,
            old(host)@.replies,
            fuel as nat,
        ),
    decreases fuel, 0nat, 0nat,
{
    if fuel == 0 {
        return Err(EvalError::TooDeep);
    }
    match obj {
        Object::List(items) => eval_list(items, env, host, fuel - 1),
        Object::Lambda(_, _) => Ok(Object::Void),
        Object::Float(t) => match read_float(t, host) {
            Ok(c) => Ok(Object::Float(c)),
            Err(e) => Err(e),
        },
        Object::Symbol(s) => match env.get(s.as_str()) {
            Some(x) => Ok(x),
            None => Err(EvalError::Unbound(s.clone())),
        },
        _ => Ok(obj.copy()),
    }
}

fn eval_list(items: &Vec<Object>, env: &mut Env, host: &mut Host, fuel: u64) -> (r: Result<
    Object,
    EvalError,
>)
    ensures
        final(host)@.replies == old(host)@.replies,
        run_of(r, final(env)@, final(host)@.out) == sem::eval_list(
            objs_view(items@),
            old(env)@,
            old(host)@.out,
            old(host)@.replies,
            fuel as nat,
        ),
    decreases fuel, 5nat, 0nat,
{
    proof {
        lemma_objs_view(items@);
    }
    if items.len() == 0 {
        return Ok(Object::Void);
    }
    match &items[0] {
        Object::Keyword(k) => eval_keyword(k, items, env, host, fuel),
        Object::Symbol(s) => match operator_of(s.as_str()) {
            Some(op) => eval_binary(op, s, items, env, host, fuel),
            None => {
                if same_text(s.as_str(), "concat") {
                    eval_concat(items, env, host, fuel)
                } else {
                    eval_call(s, items, env, host, fuel)
                }
            },
        },
        _ => eval_items(items, env, host, fuel),
    }
}

fn eval_items(items: &Vec<Object>, env: &mut Env, host: &mut Host, fuel: u64) -> (r: Result<
    Object,
    EvalError,
>)
    ensures
        final(host)@.replies == old(host)@.replies,
        run_of(r, final(env)@, final(host)@.out) == sem::eval_items(
            objs_view(items@),
            0,
            Seq::empty(),
            old(env)@,
            old(host)@.out,
            old(host)@.replies,
            fuel as nat,
        ),
    decreases fuel, 1nat, 0nat,
{
    let ghost iv = objs_view(items@);
    let ghost env0 = env@;
    let ghost out0 = host@.out;
    let ghost rep = host@.replies;
    proof {
        lemma_objs_view(items@);
    }
    let mut acc: Vec<Object> = Vec::new();
    assert(objs_view(acc@) =~= Seq::<Val>::empty());
    let mut i: usize = 0;
    while i < items.len()
        invariant
            iv == objs_view(items@),
            iv.len() == items@.len(),
            forall|j: int| 0 <= j < items@.len() ==> #[trigger] iv[j] == items@[j]@,
            i <= items@.len(),
            host@.replies == rep,
            rep == old(host)@.replies,
            env0 == old(env)@,
            out0 == old(host)@.out,
            sem::eval_items(iv, 0, Seq::empty(), env0, out0, rep, fuel as nat) == sem::eval_items(
                iv,
                i as int,
                objs_view(acc@),
                env@,
                host@.out,
                rep,
                fuel as nat,
            ),
        decreases items@.len() - i,
    {
        match eval_obj(&items[i], env, host, fuel) {
            Err(e) => {
                return Err(e);
            },
            Ok(v) => {
                let void = match &v {
                    Object::Void => true,
                    _ => false,
                };
                if !void {
                    proof {
                        crate::value::lemma_objs_view_push(acc@, v);
                    }
                    acc.push(v);
                }
            },
        }
        i = i + 1;
    }
    Ok(Object::List(acc))
}

fn eval_call(name: &String, items: &Vec<Object>, env: &mut Env, host: &mut Host, fuel: u64) -> (r:
    Result<Object, EvalError>)
    ensures
        final(host)@.replies == old(host)@.replies,
        run_of(r, final(env)@, final(host)@.out) == sem::eval_call(
            name@,
            objs_view(items@),
            old(env)@,
            old(host)@.out,
            old(host)@.replies,
            fuel as nat,
        ),
    decreases fuel, 3nat, 0nat,
{
    proof {
        lemma_objs_view(items@);
    }
    match env.get(name.as_str()) {
        None => Err(EvalError::Unbound(name.clone())),
        Some(Object::Lambda(ps, body)) => {
            let ghost iv = objs_view(items@);
            let ghost pv = names_view(ps@);
            let ghost env0 = env@;
            let ghost out0 = host@.out;
            let ghost rep = host@.replies;
            let mut frame = env.copy();
            let mut i: usize = 0;
            while i < ps.len()
                invariant
                    iv == objs_view(items@),
                    iv.len() == items@.len(),
                    forall|j: int| 0 <= j < items@.len() ==> #[trigger] iv[j] == items@[j]@,
                    pv == names_view(ps@),
                    i <= ps@.len(),
                    host@.replies == rep,
                    rep == old(host)@.replies,
                    env0 == old(env)@,
                    out0 == old(host)@.out,
                    iv == objs_view(items@),
                    crate::env::lookup(env0, name@) == Some(Val::Lambda(pv, objs_view(body@))),
                    sem::bind_args(name@, pv, iv, 0, env0, env0, out0, rep, fuel as nat)
                        == sem::bind_args(
                        name@,
                        pv,
                        iv,
                        i as int,
                        frame@,
                        env@,
                        host@.out,
                        rep,
                        fuel as nat,
                    ),
                decreases ps@.len() - i,
            {
                if items.len() == 0 || i >= items.len() - 1 {
                    return Err(EvalError::Arity(name.clone()));
                }
                match eval_obj(&items[i + 1], env, host, fuel) {
                    Err(e) => {
                        return Err(e);
                    },
                    Ok(v) => {
                        frame.set(ps[i].as_str(), v);
                    },
                }
                i = i + 1;
            }
            let call = Object::List(body);
            eval_obj(&call, &mut frame, host, fuel)
        },
        Some(Object::Str(s)) => {
            host.emit(s);
            Ok(Object::Void)
        },
        Some(Object::Bool(b)) => {
            host.emit(bool_string(b));
            Ok(Object::Void)
        },
        Some(Object::Integer(n)) => {
            let mut t = String::new();
            push_int(&mut t, n);
            assert(t@ =~= crate::text::int_text(n as int));
            host.emit(t);
            Ok(Object::Void)
        },
        Some(Object::Float(t)) => {
            host.emit(t);
            Ok(Object::Void)
        },
        Some(_) => Err(EvalError::NotCallable(name.clone())),
    }
}

fn eval_keyword(k: &String, items: &Vec<Object>, env: &mut Env, host: &mut Host, fuel: u64) -> (r:
    Result<Object, EvalError>)
    ensures
        final(host)@.replies == old(host)@.replies,
        run_of(r, final(env)@, final(host)@.out) == sem::eval_keyword(
            k@,
            objs_view(items@),
            old(env)@,
            old(host)@.out,
            old(host)@.replies,
            fuel as nat,
        ),
    decreases fuel, 4nat, 0nat,
{
    let ks = k.as_str();
    if same_text(ks, "define") {
        eval_define(items, env, host, fuel)
    } else if same_text(ks, "load") {
        eval_load(items, env, host, fuel)
    } else if same_text(ks, "print") {
        eval_print(items, env, host, fuel)
    } else if same_text(ks, "if") {
        eval_if(items, env, host, fuel)
    } else if same_text(ks, "lambda") {
        lambda_of(items)
    } else if same_text(ks, "equal") {
        eval_equal(items, env, host, fuel)
    } else {
        Err(EvalError::BadKeyword(k.clone()))
    }
}

fn eval_define(items: &Vec<Object>, env: &mut Env, host: &mut Host, fuel: u64) -> (r: Result<
    Object,
    EvalError,
>)
    ensures
        final(host)@.replies == old(host)@.replies,
        run_of(r, final(env)@, final(host)@.out) == sem::eval_define(
            objs_view(items@),
            old(env)@,
            old(host)@.out,
            old(host)@.replies,
            fuel as nat,
        ),
    decreases fuel, 2nat, 0nat,
{
    proof {
        lemma_objs_view(items@);
    }
    if items.len() != 3 {
        return Err(EvalError::Arity(String::from_str("define")));
    }
    match &items[1] {
        Object::Symbol(s) => match eval_obj(&items[2], env, host, fuel) {
            Ok(v) => {
                env.set(s.as_str(), v);
                Ok(Object::Void)
            },
            Err(e) => Err(e),
        },
        Object::Keyword(k) => Err(EvalError::DefineKeyword(k.clone())),
        _ => Err(EvalError::BadDefine),
    }
}

fn eval_if(items: &Vec<Object>, env: &mut Env, host: &mut Host, fuel: u64) -> (r: Result<
    Object,
    EvalError,
>)
    ensures
        final(host)@.replies == old(host)@.replies,
        run_of(r, final(env)@, final(host)@.out) == sem::eval_if(
            objs_view(items@),
            old(env)@,
            old(host)@.out,
            old(host)@.replies,
            fuel as nat,
        ),
    decreases fuel, 2nat, 0nat,
{
    proof {
        lemma_objs_view(items@);
    }
    if items.len() != 4 {
        return Err(EvalError::Arity(String::from_str("if")));
    }
    match eval_obj(&items[1], env, host, fuel) {
        Ok(Object::Bool(b)) => {
            if b {
                eval_obj(&items[2], env, host, fuel)
            } else {
                eval_obj(&items[3], env, host, fuel)
            }
        },
        Ok(_) => Err(EvalError::ConditionNotBool),
        Err(e) => Err(e),
    }
}

fn eval_equal(items: &Vec<Object>, env: &mut Env, host: &mut Host, fuel: u64) -> (r: Result<
    Object,
    EvalError,
>)
    ensures
        final(host)@.replies == old(host)@.replies,
        run_of(r, final(env)@, final(host)@.out) == sem::eval_equal(
            objs_view(items@),
            old(env)@,
            old(host)@.out,
            old(host)@.replies,
            fuel as nat,
        ),
    decreases fuel, 2nat, 0nat,
{
    proof {
        lemma_objs_view(items@);
    }
    if items.len() != 3 {
        return Err(EvalError::Arity(String::from_str("equal")));
    }
    match eval_obj(&items[1], env, host, fuel) {
        Err(e) => Err(e),
        Ok(a) => match eval_obj(&items[2], env, host, fuel) {
            Err(e) => Err(e),
            Ok(b) => Ok(Object::Bool(values_equal(&a, &b))),
        },
    }
}

fn eval_binary(
    op: ArithOp,
    name: &String,
    items: &Vec<Object>,
    env: &mut Env,
    host: &mut Host,
    fuel: u64,
) -> (r: Result<Object, EvalError>)
    ensures
        final(host)@.replies == old(host)@.replies,
        run_of(r, final(env)@, final(host)@.out) == sem::eval_binary(
            op,
            name@,
            objs_view(items@),
            old(env)@,
            old(host)@.out,
            old(host)@.replies,
            fuel as nat,
        ),
    decreases fuel, 2nat, 0nat,
{
    proof {
        lemma_objs_view(items@);
    }
    if items.len() != 3 {
        return Err(EvalError::Arity(name.clone()));
    }
    match eval_obj(&items[1], env, host, fuel) {
        Err(e) => Err(e),
        Ok(a) => match eval_obj(&items[2], env, host, fuel) {
            Err(e) => Err(e),
            Ok(b) => arith(op, &a, &b, host),
        },
    }
}

fn eval_concat(items: &Vec<Object>, env: &mut Env, host: &mut Host, fuel: u64) -> (r: Result<
    Object,
    EvalError,
>)
    ensures
        final(host)@.replies == old(host)@.replies,
        run_of(r, final(env)@, final(host)@.out) == sem::eval_concat(
            objs_view(items@),
            old(env)@,
            old(host)@.out,
            old(host)@.replies,
            fuel as nat,
        ),
    decreases fuel, 2nat, 0nat,
{
    proof {
        lemma_objs_view(items@);
    }
    if items.len() != 3 {
        return Err(EvalError::Arity(String::from_str("concat")));
    }
    match eval_obj(&items[1], env, host, fuel) {
        Err(e) => Err(e),
        Ok(a) => match eval_obj(&items[2], env, host, fuel) {
            Err(e) => Err(e),
            Ok(b) => concat_vals(&a, &b),
        },
    }
}

fn prefixed(prefix: &str, s: &str) -> (r: String)
    ensures
        r@ == prefix@ + s@,
{
    let mut r = String::from_str(prefix);
    push_str(&mut r, s);
    r
}

fn eval_print(items: &Vec<Object>, env: &mut Env, host: &mut Host, fuel: u64) -> (r: Result<
    Object,
    EvalError,
>)
    ensures
        final(host)@.replies == old(host)@.replies,
        run_of(r, final(env)@, final(host)@.out) == sem::eval_print(
            objs_view(items@),
            old(env)@,
            old(host)@.out,
            old(host)@.replies,
            fuel as nat,
        ),
    decreases fuel, 2nat, 0nat,
{
    proof {
        lemma_objs_view(items@);
    }
    if items.len() < 2 {
        return Err(EvalError::Arity(String::from_str("print")));
    }
    match &items[1] {
        Object::Keyword(k) => {
            host.emit(get_doc(k.clone()));
            Ok(Object::Void)
        },
        Object::Symbol(s) => match env.get(s.as_str()) {
            None => Err(EvalError::Unbound(s.clone())),
            Some(v) => {
                let mut line = prefixed("Type: ", v.get_type().as_str());
                push_str(&mut line, ", Var ");
                push_str(&mut line, s.as_str());
                push_str(&mut line, ": ");
                push_str(&mut line, v.to_text().as_str());
                host.emit(line);
                Ok(Object::Void)
            },
        },
        Object::Lambda(_, _) => {
            host.emit(items[1].to_text());
            Ok(Object::Void)
        },
        Object::Str(s) => {
            host.emit(prefixed("Str: ", s.as_str()));
            Ok(Object::Void)
        },
        Object::Bool(b) => {
            host.emit(prefixed("Bool: ", bool_string(*b).as_str()));
            Ok(Object::Void)
        },
        Object::Integer(i) => {
            let mut line = String::from_str("Int: ");
            push_int(&mut line, *i);
            host.emit(line);
            Ok(Object::Void)
        },
        Object::Float(t) => match read_float(t, host) {
            Ok(c) => {
                host.emit(prefixed("Float: ", c.as_str()));
                Ok(Object::Void)
            },
            Err(e) => Err(e),
        },
        Object::List(_) => match eval_obj(&items[1], env, host, fuel) {
            Ok(v) => {
                host.emit(v.to_text());
                Ok(Object::Void)
            },
            Err(e) => Err(e),
        },
        Object::Void => Err(EvalError::BadPrint),
    }
}

/// The file name that a `load` form names.
fn load_name(items: &Vec<Object>, env: &Env) -> (r: Result<String, EvalError>)
    ensures
        text_res(r) == sem::load_name(objs_view(items@), env@),
{
    proof {
        lemma_objs_view(items@);
    }
    if items.len() < 2 {
        return Err(EvalError::Arity(String::from_str("load")));
    }
    match &items[1] {
        Object::Str(s) => Ok(s.clone()),
        Object::Symbol(s) => match env.get(s.as_str()) {
            None => Err(EvalError::Unbound(s.clone())),
            Some(Object::Str(x)) => Ok(x),
            Some(_) => Err(EvalError::BadLoadArgument),
        },
        _ => Err(EvalError::BadLoadArgument),
    }
}

fn eval_load(items: &Vec<Object>, env: &mut Env, host: &mut Host, fuel: u64) -> (r: Result<
    Object,
    EvalError,
>)
    ensures
        final(host)@.replies == old(host)@.replies,
        run_of(r, final(env)@, final(host)@.out) == sem::eval_load(
            objs_view(items@),
            old(env)@,
            old(host)@.out,
            old(host)@.replies,
            fuel as nat,
        ),
    decreases fuel, 2nat, 0nat,
{
    let file = match load_name(items, env) {
        Ok(f) => f,
        Err(e) => {
            return Err(e);
        },
    };
    let path = match module_file(&file) {
        Ok(p) => p,
        Err(e) => {
            return Err(e);
        },
    };
    let q = Request::Module(path.clone());
    match host.reply(&q) {
        None => Err(EvalError::Needs(q)),
        Some(Reply::Text(src)) => match parse(src.as_str()) {
            Err(e) => Err(EvalError::Parse(e)),
            Ok(ast) => eval_obj(&ast, env, host, fuel),
        },
        Some(Reply::Missing) => Err(EvalError::ModuleNotFound(path)),
        Some(_) => Err(EvalError::BadReply),
    }
}

/// Evaluates a program text in `env`: parses it into one list and evaluates
/// that. Definitions stay in `env`; printed lines go to `host`.
///
/// Where evaluation needs a float or a module file that `host` holds no answer
/// for, it stops with [`EvalError::Needs`]; the caller answers and evaluates
/// again from the frames it started with.
pub fn eval(program: &str, env: &mut Env, host: &mut Host) -> (r: Result<Object, EvalError>)
    ensures
        final(host)@.replies == old(host)@.replies,
        run_of(r, final(env)@, final(host)@.out) == sem::eval_program(
            program@,
            old(env)@,
            old(host)@.out,
            old(host)@.replies,
        ),
{
    match parse(program) {
        Err(e) => Err(EvalError::Parse(e)),
        Ok(ast) => eval_obj(&ast, env, host, sem::MAX_DEPTH),
    }
}

} // verus!

verus! {

/// What comes of one attempt at a program.
#[derive(Debug, PartialEq)]
pub enum Step {
    /// The host must answer this request; then the program is tried again.
    Ask(Request),
    /// Evaluation ended with this result.
    Done(Result<Object, EvalError>),
}

/// Tries a program once in a copy of `env`, with the output of `host`
/// cleared. When evaluation asks for something, `env` is left as it was and
/// the request comes back; otherwise `env` takes the frames that evaluation
/// ended with and `host` holds what it printed.
pub fn attempt(program: &str, env: &mut Env, host: &mut Host) -> (r: Step)
    ensures
        final(host)@.replies == old(host)@.replies,
        ({
            let run = sem::eval_program(
                program@,
                old(env)@,
                Seq::empty(),
                old(host)@.replies,
            );
            match r {
                Step::Ask(q) => run.res == Err::<Val, Fault>(Fault::Needs(q@)) && final(env)@ == old(
                    env,
                )@,
                Step::Done(res) => !(run.res is Err && run.res->Err_0 is Needs) && res_view(res)
                    == run.res && final(env)@ == run.env && final(host)@.out == run.out,
            }
        }),
{
    host.clear_output();
    let mut trial = env.copy();
    match eval(program, &mut trial, host) {
        Err(EvalError::Needs(q)) => Step::Ask(q),
        other => {
            *env = trial;
            Step::Done(other)
        },
    }
}

} // verus!
