use vstd::prelude::*;

use crate::text::{int_text, push_int, push_str};

verus! {

/// A value of the language. The same type is used for parsed syntax and for
/// the results of evaluation: a `List` is a compound form before evaluation,
/// a plain list afterwards, and the sequence of results of a whole program.
///
/// A float is held as the shortest decimal text that reads back as the same
/// 64-bit float (`"28.2744"`, `"-0"`, `"inf"`, `"NaN"`); a float literal in
/// parsed syntax holds its text as written.
#[derive(Debug, PartialEq)]
pub enum Object {
    Void,
    Integer(i64),
    Float(String),
    Keyword(String),
    Bool(bool),
    Str(String),
    Symbol(String),
    Lambda(Vec<String>, Vec<Object>),
    List(Vec<Object>),
}

/// The mathematical model of an [`Object`].
pub enum Val {
    Void,
    Int(i64),
    Float(Seq<char>),
    Kw(Seq<char>),
    Bool(bool),
    Str(Seq<char>),
    Sym(Seq<char>),
    Lambda(Seq<Seq<char>>, Seq<Val>),
    List(Seq<Val>),
}

pub open spec fn names_view(s: Seq<String>) -> Seq<Seq<char>> {
    s.map_values(|x: String| x@)
}

pub open spec fn objs_view(s: Seq<Object>) -> Seq<Val>
    decreases s,
{
    if s.len() == 0 {
        Seq::empty()
    } else {
        objs_view(s.drop_last()).push(s.last().view_val())
    }
}

impl Object {
    pub open spec fn view_val(&self) -> Val
        decreases self,
    {
        match self {
            Object::Void => Val::Void,
            Object::Integer(n) => Val::Int(*n),
            Object::Float(t) => Val::Float(t@),
            Object::Keyword(k) => Val::Kw(k@),
            Object::Bool(b) => Val::Bool(*b),
            Object::Str(s) => Val::Str(s@),
            Object::Symbol(s) => Val::Sym(s@),
            Object::Lambda(ps, body) => Val::Lambda(names_view(ps@), objs_view(body@)),
            Object::List(items) => Val::List(objs_view(items@)),
        }
    }
}

impl View for Object {
    type V = Val;

    open spec fn view(&self) -> Val {
        self.view_val()
    }
}

pub proof fn lemma_objs_view_len(s: Seq<Object>)
    ensures
        objs_view(s).len() == s.len(),
    decreases s.len(),
{
    if s.len() > 0 {
        lemma_objs_view_len(s.drop_last());
    }
}

pub proof fn lemma_objs_view_index(s: Seq<Object>, i: int)
    requires
        0 <= i < s.len(),
    ensures
        objs_view(s).len() == s.len(),
        objs_view(s)[i] == s[i]@,
    decreases s.len(),
{
    lemma_objs_view_len(s);
    if i < s.len() - 1 {
        lemma_objs_view_index(s.drop_last(), i);
    }
}

/// The model of a sequence of values is the sequence of their models.
pub proof fn lemma_objs_view(s: Seq<Object>)
    ensures
        objs_view(s).len() == s.len(),
        forall|i: int| 0 <= i < s.len() ==> #[trigger] objs_view(s)[i] == s[i]@,
{
    lemma_objs_view_len(s);
    assert forall|i: int| 0 <= i < s.len() implies #[trigger] objs_view(s)[i] == s[i]@ by {
        lemma_objs_view_index(s, i);
    }
}

pub proof fn lemma_objs_view_subrange_push(s: Seq<Object>, i: int)
    requires
        0 <= i < s.len(),
    ensures
        objs_view(s.subrange(0, i + 1)) == objs_view(s.subrange(0, i)).push(s[i]@),
{
    assert(s.subrange(0, i + 1).drop_last() =~= s.subrange(0, i));
}

pub proof fn lemma_objs_view_push(s: Seq<Object>, o: Object)
    ensures
        objs_view(s.push(o)) == objs_view(s).push(o@),
{
    assert(s.push(o).drop_last() =~= s);
}

pub proof fn lemma_names_view_push(s: Seq<String>, x: String)
    ensures
        names_view(s.push(x)) == names_view(s).push(x@),
{
    assert(names_view(s.push(x)) =~= names_view(s).push(x@));
}

/// Copies a sequence of names.
pub fn copy_names(v: &Vec<String>) -> (r: Vec<String>)
    ensures
        names_view(r@) == names_view(v@),
{
    let mut r: Vec<String> = Vec::new();
    let mut i: usize = 0;
    while i < v.len()
        invariant
            i <= v.len(),
            names_view(r@) == names_view(v@.subrange(0, i as int)),
        decreases v.len() - i,
    {
        let x = v[i].clone();
        proof {
            lemma_names_view_push(r@, x);
            assert(v@.subrange(0, i + 1) =~= v@.subrange(0, i as int).push(v@[i as int]));
            lemma_names_view_push(v@.subrange(0, i as int), v@[i as int]);
        }
        r.push(x);
        i = i + 1;
    }
    assert(v@.subrange(0, v.len() as int) =~= v@);
    r
}

/// Copies a sequence of values.
pub fn copy_objs(v: &Vec<Object>) -> (r: Vec<Object>)
    ensures
        objs_view(r@) == objs_view(v@),
    decreases v,
{
    let mut r: Vec<Object> = Vec::new();
    let mut i: usize = 0;
    while i < v.len()
        invariant
            i <= v.len(),
            objs_view(r@) == objs_view(v@.subrange(0, i as int)),
        decreases v.len() - i,
    {
        proof {
            assert(decreases_to!(v => v@));
            assert(decreases_to!(v@ => v@[i as int]));
        }
        let x = v[i].copy();
        proof {
            lemma_objs_view_push(r@, x);
            lemma_objs_view_subrange_push(v@, i as int);
        }
        r.push(x);
        i = i + 1;
    }
    assert(v@.subrange(0, v.len() as int) =~= v@);
    r
}

impl Object {
    /// A copy of this value.
    pub fn copy(&self) -> (r: Object)
        ensures
            r@ == self@,
        decreases self,
    {
        match self {
            Object::Void => Object::Void,
            Object::Integer(n) => Object::Integer(*n),
            Object::Float(t) => Object::Float(t.clone()),
            Object::Keyword(k) => Object::Keyword(k.clone()),
            Object::Bool(b) => Object::Bool(*b),
            Object::Str(s) => Object::Str(s.clone()),
            Object::Symbol(s) => Object::Symbol(s.clone()),
            Object::Lambda(ps, body) => Object::Lambda(copy_names(ps), copy_objs(body)),
            Object::List(items) => Object::List(copy_objs(items)),
        }
    }
}

} // verus!

verus! {

pub open spec fn bool_text(b: bool) -> Seq<char> {
    if b {
        "true"@
    } else {
        "false"@
    }
}

/// The names of a lambda's parameters, each followed by a space.
pub open spec fn params_text(ps: Seq<Seq<char>>) -> Seq<char>
    decreases ps.len(),
{
    if ps.len() == 0 {
        Seq::empty()
    } else {
        params_text(ps.drop_last()) + ps.last() + " "@
    }
}

/// The texts of the values, one after the other.
pub open spec fn texts_concat(s: Seq<Val>) -> Seq<char>
    decreases s,
{
    if s.len() == 0 {
        Seq::empty()
    } else {
        texts_concat(s.drop_last()) + text_of(s.last())
    }
}

/// The texts of the values, with a space between two of them.
pub open spec fn texts_join(s: Seq<Val>) -> Seq<char>
    decreases s,
{
    if s.len() == 0 {
        Seq::empty()
    } else if s.len() == 1 {
        text_of(s[0])
    } else {
        texts_join(s.drop_last()) + " "@ + text_of(s.last())
    }
}

/// The textual form of a value.
pub open spec fn text_of(v: Val) -> Seq<char>
    decreases v,
{
    match v {
        Val::Void => "Void"@,
        Val::Int(n) => int_text(n as int),
        Val::Float(t) => t,
        Val::Str(s) => s,
        Val::Kw(s) => "Keyword: "@ + s,
        Val::Bool(b) => bool_text(b),
        Val::Sym(s) => s,
        Val::Lambda(ps, body) => "Lambda("@ + params_text(ps) + ")"@ + texts_concat(body),
        Val::List(items) => "("@ + texts_join(items) + ")"@,
    }
}

/// The name of a value's kind.
pub open spec fn kind_name(v: Val) -> Seq<char> {
    match v {
        Val::Kw(_) => "Keyword"@,
        Val::List(_) => "List"@,
        Val::Sym(_) => "Symbol"@,
        Val::Lambda(_, _) => "Lambda"@,
        Val::Str(_) => "Str"@,
        Val::Bool(_) => "Bool"@,
        Val::Int(_) => "Integer"@,
        Val::Float(_) => "Float"@,
        Val::Void => "Void"@,
    }
}

/// Float equality on canonical texts: a NaN equals nothing, and the two
/// zeros are equal.
pub open spec fn float_same(x: Seq<char>, y: Seq<char>) -> bool {
    x != "NaN"@ && (x == y || ((x == "0"@ || x == "-0"@) && (y == "0"@ || y == "-0"@)))
}

/// Deep equality of values, with floats compared as numbers.
pub open spec fn same(a: Val, b: Val) -> bool
    decreases a,
{
    match (a, b) {
        (Val::Float(x), Val::Float(y)) => float_same(x, y),
        (Val::List(xs), Val::List(ys)) => same_seq(xs, ys),
        (Val::Lambda(p, xs), Val::Lambda(q, ys)) => p == q && same_seq(xs, ys),
        (Val::List(_), _) => false,
        (Val::Lambda(_, _), _) => false,
        (Val::Float(_), _) => false,
        _ => a == b,
    }
}

/// Element-wise [`same`].
pub open spec fn same_seq(xs: Seq<Val>, ys: Seq<Val>) -> bool
    decreases xs,
{
    if xs.len() != ys.len() {
        false
    } else if xs.len() == 0 {
        true
    } else {
        same_seq(xs.drop_last(), ys.drop_last()) && same(xs.last(), ys.last())
    }
}

fn names_text(ps: &Vec<String>) -> (r: String)
    ensures
        r@ == params_text(names_view(ps@)),
{
    let mut r = String::new();
    let mut i: usize = 0;
    while i < ps.len()
        invariant
            i <= ps@.len(),
            r@ == params_text(names_view(ps@.subrange(0, i as int))),
        decreases ps@.len() - i,
    {
        proof {
            let a = names_view(ps@.subrange(0, i + 1));
            assert(a.drop_last() =~= names_view(ps@.subrange(0, i as int)));
            assert(a.last() == ps@[i as int]@);
        }
        push_str(&mut r, ps[i].as_str());
        push_str(&mut r, " ");
        assert(r@ =~= params_text(names_view(ps@.subrange(0, i + 1))));
        i = i + 1;
    }
    assert(ps@.subrange(0, ps@.len() as int) =~= ps@);
    r
}

fn concat_texts(items: &Vec<Object>) -> (r: String)
    ensures
        r@ == texts_concat(objs_view(items@)),
    decreases items,
{
    let mut r = String::new();
    let mut i: usize = 0;
    while i < items.len()
        invariant
            i <= items@.len(),
            r@ == texts_concat(objs_view(items@.subrange(0, i as int))),
        decreases items@.len() - i,
    {
        proof {
            assert(decreases_to!(items => items@));
            assert(decreases_to!(items@ => items@[i as int]));
        }
        let t = items[i].to_text();
        proof {
            lemma_objs_view_subrange_push(items@, i as int);
            let a = objs_view(items@.subrange(0, i + 1));
            assert(a.drop_last() =~= objs_view(items@.subrange(0, i as int)));
        }
        push_str(&mut r, t.as_str());
        i = i + 1;
    }
    assert(items@.subrange(0, items@.len() as int) =~= items@);
    r
}

fn join_texts(items: &Vec<Object>) -> (r: String)
    ensures
        r@ == texts_join(objs_view(items@)),
    decreases items,
{
    let mut r = String::new();
    let mut i: usize = 0;
    while i < items.len()
        invariant
            i <= items@.len(),
            r@ == texts_join(objs_view(items@.subrange(0, i as int))),
        decreases items@.len() - i,
    {
        proof {
            assert(decreases_to!(items => items@));
            assert(decreases_to!(items@ => items@[i as int]));
        }
        let t = items[i].to_text();
        proof {
            lemma_objs_view_subrange_push(items@, i as int);
            lemma_objs_view_len(items@.subrange(0, i as int));
            let a = objs_view(items@.subrange(0, i + 1));
            assert(a.drop_last() =~= objs_view(items@.subrange(0, i as int)));
        }
        if i > 0 {
            push_str(&mut r, " ");
        } else {
            proof {
                let a = objs_view(items@.subrange(0, i + 1));
                assert(a =~= seq![items@[0]@]);
            }
        }
        push_str(&mut r, t.as_str());
        proof {
            if i == 0 {
                assert(r@ =~= texts_join(objs_view(items@.subrange(0, i + 1))));
            }
        }
        i = i + 1;
    }
    assert(items@.subrange(0, items@.len() as int) =~= items@);
    r
}

impl Object {
    /// The textual form of this value.
    pub fn to_text(&self) -> (r: String)
        ensures
            r@ == text_of(self@),
        decreases self,
    {
        match self {
            Object::Void => String::from_str("Void"),
            Object::Integer(n) => {
                let mut r = String::new();
                push_int(&mut r, *n);
                assert(r@ =~= int_text(*n as int));
                r
            },
            Object::Float(t) => t.clone(),
            Object::Str(s) => s.clone(),
            Object::Keyword(s) => {
                let mut r = String::from_str("Keyword: ");
                push_str(&mut r, s.as_str());
                r
            },
            Object::Bool(b) => {
                if *b {
                    String::from_str("true")
                } else {
                    String::from_str("false")
                }
            },
            Object::Symbol(s) => s.clone(),
            Object::Lambda(ps, body) => {
                let mut r = String::from_str("Lambda(");
                let p = names_text(ps);
                push_str(&mut r, p.as_str());
                push_str(&mut r, ")");
                let b = concat_texts(body);
                push_str(&mut r, b.as_str());
                r
            },
            Object::List(items) => {
                let mut r = String::from_str("(");
                let j = join_texts(items);
                push_str(&mut r, j.as_str());
                push_str(&mut r, ")");
                r
            },
        }
    }

    /// The name of this value's kind.
    pub fn get_type(&self) -> (r: String)
        ensures
            r@ == kind_name(self@),
    {
        match self {
            Object::Keyword(_) => String::from_str("Keyword"),
            Object::List(_) => String::from_str("List"),
            Object::Symbol(_) => String::from_str("Symbol"),
            Object::Lambda(_, _) => String::from_str("Lambda"),
            Object::Str(_) => String::from_str("Str"),
            Object::Bool(_) => String::from_str("Bool"),
            Object::Integer(_) => String::from_str("Integer"),
            Object::Float(_) => String::from_str("Float"),
            Object::Void => String::from_str("Void"),
        }
    }
}

} // verus!
