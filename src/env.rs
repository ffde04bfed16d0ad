use vstd::prelude::*;

use crate::text::same_text;
use crate::value::{Object, Val};

verus! {

/// The bindings of one frame, in the order in which they were made.
pub type Frame = Seq<(Seq<char>, Val)>;

/// Where in a frame `k` is bound: the last binding of it.
pub open spec fn frame_pos(f: Frame, k: Seq<char>) -> Option<int>
    decreases f.len(),
{
    if f.len() == 0 {
        None
    } else if f.last().0 == k {
        Some(f.len() - 1)
    } else {
        frame_pos(f.drop_last(), k)
    }
}

/// What `k` is bound to in a frame.
pub open spec fn frame_get(f: Frame, k: Seq<char>) -> Option<Val> {
    match frame_pos(f, k) {
        Some(i) => Some(f[i].1),
        None => None,
    }
}

/// A frame with `k` bound to `v`: its binding replaced, else a new one.
pub open spec fn frame_set(f: Frame, k: Seq<char>, v: Val) -> Frame {
    match frame_pos(f, k) {
        Some(i) => f.update(i, (k, v)),
        None => f.push((k, v)),
    }
}

/// What `k` is bound to in a chain of frames, innermost first: the first
/// frame that binds it decides.
pub open spec fn lookup(frames: Seq<Frame>, k: Seq<char>) -> Option<Val>
    decreases frames.len(),
{
    if frames.len() == 0 {
        None
    } else {
        match frame_get(frames[0], k) {
            Some(v) => Some(v),
            None => lookup(frames.drop_first(), k),
        }
    }
}

/// The chain with `k` bound to `v` in its innermost frame.
pub open spec fn bind(frames: Seq<Frame>, k: Seq<char>, v: Val) -> Seq<Frame> {
    if frames.len() == 0 {
        seq![seq![(k, v)]]
    } else {
        frames.update(0, frame_set(frames[0], k, v))
    }
}

pub open spec fn frame_view(f: Seq<(String, Object)>) -> Frame {
    f.map_values(|p: (String, Object)| (p.0@, p.1@))
}

/// A scope: bindings from names to values, and the scope that encloses it.
#[derive(Debug)]
pub struct Env {
    parent: Option<Box<Env>>,
    vars: Vec<(String, Object)>,
}

impl Env {
    /// The chain of frames, this one first, then its ancestors.
    pub closed spec fn frames(&self) -> Seq<Frame>
        decreases self,
    {
        match &self.parent {
            Some(p) => seq![frame_view(self.vars@)] + p.frames(),
            None => seq![frame_view(self.vars@)],
        }
    }
}

impl View for Env {
    type V = Seq<Frame>;

    open spec fn view(&self) -> Seq<Frame> {
        self.frames()
    }
}

/// Where in `vars` the name is bound, searching from the end.
fn find(vars: &Vec<(String, Object)>, name: &str) -> (r: Option<usize>)
    ensures
        match r {
            Some(i) => frame_pos(frame_view(vars@), name@) == Some(i as int) && i < vars@.len(),
            None => frame_pos(frame_view(vars@), name@) is None,
        },
{
    let ghost f = frame_view(vars@);
    let mut i: usize = vars.len();
    assert(f.subrange(0, i as int) =~= f);
    while i > 0
        invariant
            i <= vars@.len(),
            f == frame_view(vars@),
            frame_pos(f, name@) == frame_pos(f.subrange(0, i as int), name@),
        decreases i,
    {
        let ghost g = f.subrange(0, i as int);
        assert(g.drop_last() =~= f.subrange(0, i - 1));
        assert(g.last() == (vars@[i - 1].0@, vars@[i - 1].1@));
        if same_text(vars[i - 1].0.as_str(), name) {
            return Some(i - 1);
        }
        i = i - 1;
    }
    assert(f.subrange(0, 0) =~= Seq::<(Seq<char>, Val)>::empty());
    None
}

fn copy_frame(vars: &Vec<(String, Object)>) -> (r: Vec<(String, Object)>)
    ensures
        frame_view(r@) == frame_view(vars@),
{
    let mut r: Vec<(String, Object)> = Vec::new();
    let mut i: usize = 0;
    while i < vars.len()
        invariant
            i <= vars@.len(),
            frame_view(r@) =~= frame_view(vars@.subrange(0, i as int)),
        decreases vars@.len() - i,
    {
        let k = vars[i].0.clone();
        let v = vars[i].1.copy();
        proof {
            assert(vars@.subrange(0, i + 1) =~= vars@.subrange(0, i as int).push(vars@[i as int]));
            assert(frame_view(r@.push((k, v))) =~= frame_view(r@).push((k@, v@)));
            assert(frame_view(vars@.subrange(0, i as int).push(vars@[i as int])) =~= frame_view(
                vars@.subrange(0, i as int),
            ).push((vars@[i as int].0@, vars@[i as int].1@)));
        }
        r.push((k, v));
        i = i + 1;
    }
    assert(vars@.subrange(0, vars@.len() as int) =~= vars@);
    r
}

impl Env {
    /// An empty scope with no parent.
    pub fn new() -> (r: Env)
        ensures
            r@ == seq![Seq::<(Seq<char>, Val)>::empty()],
    {
        let r = Env { parent: None, vars: Vec::new() };
        assert(frame_view(r.vars@) =~= Seq::<(Seq<char>, Val)>::empty());
        r
    }

    /// An empty scope enclosed by `parent`.
    pub fn child(parent: Env) -> (r: Env)
        ensures
            r@ == seq![Seq::<(Seq<char>, Val)>::empty()] + parent@,
    {
        let r = Env { parent: Some(Box::new(parent)), vars: Vec::new() };
        assert(frame_view(r.vars@) =~= Seq::<(Seq<char>, Val)>::empty());
        r
    }

    /// What `name` is bound to here or in the nearest ancestor that binds it.
    pub fn get(&self, name: &str) -> (r: Option<Object>)
        ensures
            match r {
                Some(v) => lookup(self@, name@) == Some(v@),
                None => lookup(self@, name@) is None,
            },
        decreases self,
    {
        let ghost fs = self@;
        assert(fs[0] == frame_view(self.vars@));
        match find(&self.vars, name) {
            Some(i) => {
                assert(frame_view(self.vars@)[i as int] == (
                    self.vars@[i as int].0@,
                    self.vars@[i as int].1@,
                ));
                assert(frame_get(fs[0], name@) == Some(self.vars@[i as int].1@));
                assert(lookup(fs, name@) == Some(self.vars@[i as int].1@));
                let v = self.vars[i].1.copy();
                assert(lookup(self@, name@) == Some(v@));
                Some(v)
            },
            None => {
                match &self.parent {
                    Some(p) => {
                        assert(fs.drop_first() =~= p.frames());
                        assert(frame_get(fs[0], name@) is None);
                        assert(lookup(fs, name@) == lookup(p@, name@));
                        let r = p.get(name);
                        assert(r is Some ==> lookup(self@, name@) == Some(r->0@));
                        r
                    },
                    None => {
                        assert(fs.drop_first() =~= Seq::<Frame>::empty());
                        assert(frame_get(fs[0], name@) is None);
                        assert(lookup(fs.drop_first(), name@) is None);
                        assert(lookup(fs, name@) is None);
                        None
                    },
                }
            },
        }
    }

    /// Binds `name` to `val` in this scope, never in an ancestor.
    pub fn set(&mut self, name: &str, val: Object)
        ensures
            final(self)@ == bind(old(self)@, name@, val@),
    {
        let ghost old_fs = self@;
        let ghost f = frame_view(self.vars@);
        match find(&self.vars, name) {
            Some(i) => {
                self.vars.set(i, (String::from_str(name), val));
                assert(frame_view(self.vars@) =~= frame_set(f, name@, val@));
            },
            None => {
                self.vars.push((String::from_str(name), val));
                assert(frame_view(self.vars@) =~= frame_set(f, name@, val@));
            },
        }
        assert(self@ =~= bind(old_fs, name@, val@));
    }

    /// A copy of this scope, sharing nothing with it.
    pub fn copy(&self) -> (r: Env)
        ensures
            r@ == self@,
        decreases self,
    {
        let vars = copy_frame(&self.vars);
        match &self.parent {
            Some(p) => {
                let q = p.copy();
                Env { parent: Some(Box::new(q)), vars }
            },
            None => Env { parent: None, vars },
        }
    }
}

} // verus!
