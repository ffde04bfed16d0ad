use vstd::prelude::*;

use crate::text::same_text;

verus! {

/// A binary operator on numbers.
#[derive(Debug, PartialEq, Eq, Structural, Clone, Copy)]
pub enum ArithOp {
    Add,
    Sub,
    Mul,
    Div,
    Lt,
    Gt,
    Eq,
    Ge,
    Le,
    Pow,
}

impl ArithOp {
    /// Whether the operator compares, giving a `Bool`.
    pub open spec fn compares(self) -> bool {
        self is Lt || self is Gt || self is Eq || self is Ge || self is Le
    }
}

/// Work that the evaluator hands to its host: what floats are, and what
/// module files hold.
#[derive(Debug, PartialEq)]
pub enum Request {
    /// The canonical text of the 64-bit float that a literal denotes.
    Float(String),
    /// The canonical text of the float nearest to an integer.
    FromInt(i64),
    /// An operation on two floats, given by their canonical texts.
    Arith(ArithOp, String, String),
    /// The contents of a module file.
    Module(String),
}

/// The host's answer to a [`Request`].
#[derive(Debug, PartialEq)]
pub enum Reply {
    /// A float, as its canonical text.
    Float(String),
    /// The result of a comparison.
    Bool(bool),
    /// A file's contents.
    Text(String),
    /// No such float or file.
    Missing,
}

/// The model of a [`Request`].
pub enum Req {
    Float(Seq<char>),
    FromInt(i64),
    Arith(ArithOp, Seq<char>, Seq<char>),
    Module(Seq<char>),
}

/// The model of a [`Reply`].
pub enum Rep {
    Float(Seq<char>),
    Bool(bool),
    Text(Seq<char>),
    Missing,
}

impl View for Request {
    type V = Req;

    open spec fn view(&self) -> Req {
        match self {
            Request::Float(t) => Req::Float(t@),
            Request::FromInt(n) => Req::FromInt(*n),
            Request::Arith(op, a, b) => Req::Arith(*op, a@, b@),
            Request::Module(p) => Req::Module(p@),
        }
    }
}

impl View for Reply {
    type V = Rep;

    open spec fn view(&self) -> Rep {
        match self {
            Reply::Float(t) => Rep::Float(t@),
            Reply::Bool(b) => Rep::Bool(*b),
            Reply::Text(t) => Rep::Text(t@),
            Reply::Missing => Rep::Missing,
        }
    }
}

impl Request {
    pub fn copy(&self) -> (r: Request)
        ensures
            r@ == self@,
    {
        match self {
            Request::Float(t) => Request::Float(t.clone()),
            Request::FromInt(n) => Request::FromInt(*n),
            Request::Arith(op, a, b) => Request::Arith(*op, a.clone(), b.clone()),
            Request::Module(p) => Request::Module(p.clone()),
        }
    }

    /// Whether two requests ask for the same thing.
    pub fn same(&self, other: &Request) -> (r: bool)
        ensures
            r == (self@ == other@),
    {
        match (self, other) {
            (Request::Float(a), Request::Float(b)) => same_text(a.as_str(), b.as_str()),
            (Request::FromInt(a), Request::FromInt(b)) => *a == *b,
            (Request::Arith(o, a, b), Request::Arith(p, c, d)) => *o == *p && same_text(
                a.as_str(),
                c.as_str(),
            ) && same_text(b.as_str(), d.as_str()),
            (Request::Module(a), Request::Module(b)) => same_text(a.as_str(), b.as_str()),
            _ => false,
        }
    }
}

impl Reply {
    pub fn copy(&self) -> (r: Reply)
        ensures
            r@ == self@,
    {
        match self {
            Reply::Float(t) => Reply::Float(t.clone()),
            Reply::Bool(b) => Reply::Bool(*b),
            Reply::Text(t) => Reply::Text(t.clone()),
            Reply::Missing => Reply::Missing,
        }
    }
}

/// The answer that `replies` holds for `q`: the first one given.
pub open spec fn reply_for(replies: Seq<(Req, Rep)>, q: Req) -> Option<Rep>
    decreases replies.len(),
{
    if replies.len() == 0 {
        None
    } else if replies[0].0 == q {
        Some(replies[0].1)
    } else {
        reply_for(replies.drop_first(), q)
    }
}

/// The model of a [`Host`].
pub struct HostState {
    pub replies: Seq<(Req, Rep)>,
    pub out: Seq<Seq<char>>,
}

/// What the evaluator knows of the world outside it: the answers it has been
/// given so far, and the lines it has printed.
#[derive(Debug)]
pub struct Host {
    replies: Vec<(Request, Reply)>,
    output: Vec<String>,
}

pub open spec fn replies_view(s: Seq<(Request, Reply)>) -> Seq<(Req, Rep)> {
    s.map_values(|p: (Request, Reply)| (p.0@, p.1@))
}

pub open spec fn lines_view(s: Seq<String>) -> Seq<Seq<char>> {
    s.map_values(|l: String| l@)
}

impl View for Host {
    type V = HostState;

    closed spec fn view(&self) -> HostState {
        HostState { replies: replies_view(self.replies@), out: lines_view(self.output@) }
    }
}

impl Host {
    /// A host with no answers and no output.
    pub fn new() -> (r: Host)
        ensures
            r@.replies == Seq::<(Req, Rep)>::empty(),
            r@.out == Seq::<Seq<char>>::empty(),
    {
        let r = Host { replies: Vec::new(), output: Vec::new() };
        assert(replies_view(r.replies@) =~= Seq::<(Req, Rep)>::empty());
        assert(lines_view(r.output@) =~= Seq::<Seq<char>>::empty());
        r
    }

    /// Records the answer to a request.
    pub fn answer(&mut self, q: Request, a: Reply)
        ensures
            final(self)@.replies == old(self)@.replies.push((q@, a@)),
            final(self)@.out == old(self)@.out,
    {
        self.replies.push((q, a));
        assert(replies_view(self.replies@) =~= old(self)@.replies.push((q@, a@)));
    }

    /// The lines printed so far, oldest first.
    pub fn output(&self) -> (r: &Vec<String>)
        ensures
            lines_view(r@) == self@.out,
    {
        &self.output
    }

    /// Forgets the lines printed so far, keeping the answers.
    pub fn clear_output(&mut self)
        ensures
            final(self)@.replies == old(self)@.replies,
            final(self)@.out == Seq::<Seq<char>>::empty(),
    {
        self.output = Vec::new();
        assert(lines_view(self.output@) =~= Seq::<Seq<char>>::empty());
    }

    /// Prints a line.
    pub fn emit(&mut self, line: String)
        ensures
            final(self)@.replies == old(self)@.replies,
            final(self)@.out == old(self)@.out.push(line@),
    {
        self.output.push(line);
        assert(lines_view(self.output@) =~= old(self)@.out.push(line@));
    }

    /// The answer given to `q`, if any.
    pub fn reply(&self, q: &Request) -> (r: Option<Reply>)
        ensures
            match r {
                Some(a) => reply_for(self@.replies, q@) == Some(a@),
                None => reply_for(self@.replies, q@) is None,
            },
    {
        let ghost all = replies_view(self.replies@);
        let mut i: usize = 0;
        assert(all.subrange(0, all.len() as int) =~= all);
        while i < self.replies.len()
            invariant
                i <= self.replies@.len(),
                all == replies_view(self.replies@),
                reply_for(all, q@) == reply_for(all.subrange(i as int, all.len() as int), q@),
            decreases self.replies@.len() - i,
        {
            let ghost rest = all.subrange(i as int, all.len() as int);
            assert(rest.drop_first() =~= all.subrange(i + 1, all.len() as int));
            assert(rest[0] == (self.replies@[i as int].0@, self.replies@[i as int].1@));
            if self.replies[i].0.same(q) {
                return Some(self.replies[i].1.copy());
            }
            i = i + 1;
        }
        assert(all.subrange(i as int, all.len() as int) =~= Seq::<(Req, Rep)>::empty());
        None
    }
}

} // verus!
