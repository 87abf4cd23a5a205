//! The environment: a chained name-to-value mapping implementing lexical
//! scope and closures.
//!
//! All scopes live in one arena of frames; a scope refers to its enclosing
//! scope by index, and a closure captures the index of the frame active at
//! its definition site.  Several closures may share one frame, and a
//! binding made later in a frame is seen by every closure that captured it.
//! Lookup walks outward through the `outer` links; `set` always binds in
//! the frame it is given, never in an outer one.

use vstd::prelude::*;
use crate::object::{Object, ObjV, obj_v, obj_wf, clone_obj};

verus! {

/// One scope: its bindings, in the order they were made, and the index of
/// its enclosing scope, if any.
pub struct Frame {
    pub bindings: Vec<(String, Object)>,
    pub outer: Option<usize>,
}

/// The model of one scope.
#[verifier::ext_equal]
pub struct FrameV {
    pub bindings: Seq<(Seq<char>, ObjV)>,
    pub outer: Option<int>,
}

/// The model of a binding list.
pub open spec fn binds_v(bs: Seq<(String, Object)>) -> Seq<(Seq<char>, ObjV)> {
    bs.map_values(|p: (String, Object)| (p.0@, obj_v(p.1)))
}

/// The model of one frame.
pub open spec fn frame_v(f: Frame) -> FrameV {
    FrameV {
        bindings: binds_v(f.bindings@),
        outer: match f.outer {
            Some(i) => Some(i as int),
            None => None,
        },
    }
}

/// The environment arena.
pub struct Env {
    pub frames: Vec<Frame>,
}

impl View for Env {
    type V = Seq<FrameV>;

    closed spec fn view(&self) -> Seq<FrameV> {
        self.frames@.map_values(|f: Frame| frame_v(f))
    }
}

/// The bindings of a frame hold only values whose closures point inside an
/// arena of `n` frames.
pub open spec fn binds_wf(bs: Seq<(Seq<char>, ObjV)>, n: int) -> bool
    decreases bs,
{
    bs.len() == 0 || (obj_wf(bs[0].1, n) && binds_wf(bs.subrange(1, bs.len() as int), n))
}

/// A frame at index `i` links only to an earlier frame, and its values fit
/// an arena of `n` frames.
pub open spec fn frame_wf(f: FrameV, i: int, n: int) -> bool {
    &&& match f.outer {
        Some(j) => 0 <= j < i,
        None => true,
    }
    &&& binds_wf(f.bindings, n)
}

/// The arena is well formed: every frame links backward and every value
/// fits the arena.
pub open spec fn env_wf(ev: Seq<FrameV>) -> bool {
    forall|i: int| 0 <= i < ev.len() ==> frame_wf(#[trigger] ev[i], i, ev.len() as int)
}

/// The arena after binding a name in one frame: the binding is appended
/// to that frame alone.
pub open spec fn env_set(ev: Seq<FrameV>, frame: int, name: Seq<char>, v: ObjV) -> Seq<FrameV> {
    ev.update(
        frame,
        FrameV { bindings: ev[frame].bindings.push((name, v)), outer: ev[frame].outer },
    )
}

/// The arena after opening a new empty scope enclosed by `outer`.
pub open spec fn env_push(ev: Seq<FrameV>, outer: int) -> Seq<FrameV> {
    ev.push(FrameV { bindings: Seq::empty(), outer: Some(outer) })
}

/// The value a name denotes in one frame: the latest binding wins.
pub open spec fn lookup_frame(bs: Seq<(Seq<char>, ObjV)>, name: Seq<char>) -> Option<ObjV>
    decreases bs.len(),
{
    if bs.len() == 0 {
        None
    } else if bs.last().0 == name {
        Some(bs.last().1)
    } else {
        lookup_frame(bs.drop_last(), name)
    }
}

/// The value a name denotes from a frame, walking outward through
/// enclosing scopes until found or exhausted.
pub open spec fn lookup(ev: Seq<FrameV>, frame: int, name: Seq<char>) -> Option<ObjV>
    decreases frame,
{
    if frame < 0 || frame >= ev.len() {
        None
    } else {
        match lookup_frame(ev[frame].bindings, name) {
            Some(v) => Some(v),
            None => match ev[frame].outer {
                Some(j) => if 0 <= j < frame {
                    lookup(ev, j, name)
                } else {
                    None
                },
                None => None,
            },
        }
    }
}

/// A value found by one-frame lookup in well-formed bindings is well
/// formed.
pub proof fn lemma_lookup_frame_wf(bs: Seq<(Seq<char>, ObjV)>, name: Seq<char>, n: int)
    requires
        binds_wf(bs, n),
        lookup_frame(bs, name) is Some,
    ensures
        obj_wf(lookup_frame(bs, name)->0, n),
    decreases bs.len(),
{
    lemma_binds_wf_props(bs, n);
    lemma_lookup_frame_wf_rec(bs, name, n);
}

proof fn lemma_lookup_frame_wf_rec(bs: Seq<(Seq<char>, ObjV)>, name: Seq<char>, n: int)
    requires
        forall|i: int| 0 <= i < bs.len() ==> obj_wf(#[trigger] bs[i].1, n),
        lookup_frame(bs, name) is Some,
    ensures
        obj_wf(lookup_frame(bs, name)->0, n),
    decreases bs.len(),
{
    if bs.len() > 0 && bs.last().0 != name {
        assert(forall|i: int|
            0 <= i < bs.drop_last().len() ==> obj_wf(#[trigger] bs.drop_last()[i].1, n));
        lemma_lookup_frame_wf_rec(bs.drop_last(), name, n);
    }
}

/// Elementwise well-formedness of a binding list.
pub proof fn lemma_binds_wf_props(bs: Seq<(Seq<char>, ObjV)>, n: int)
    requires
        binds_wf(bs, n),
    ensures
        forall|i: int| 0 <= i < bs.len() ==> obj_wf(#[trigger] bs[i].1, n),
    decreases bs,
{
    if bs.len() > 0 {
        let rest = bs.subrange(1, bs.len() as int);
        lemma_binds_wf_props(rest, n);
        assert forall|i: int| 0 <= i < bs.len() implies obj_wf(#[trigger] bs[i].1, n) by {
            if i > 0 {
                assert(bs[i] == rest[i - 1]);
            }
        }
    }
}

/// Binding lists built of elementwise well-formed values are well formed.
pub proof fn lemma_binds_wf_intro(bs: Seq<(Seq<char>, ObjV)>, n: int)
    requires
        forall|i: int| 0 <= i < bs.len() ==> obj_wf(#[trigger] bs[i].1, n),
    ensures
        binds_wf(bs, n),
    decreases bs,
{
    if bs.len() > 0 {
        let rest = bs.subrange(1, bs.len() as int);
        assert forall|i: int| 0 <= i < rest.len() implies obj_wf(#[trigger] rest[i].1, n) by {
            assert(rest[i] == bs[i + 1]);
        }
        lemma_binds_wf_intro(rest, n);
    }
}

/// Binding lists stay well formed when the arena grows.
pub proof fn lemma_binds_wf_mono(bs: Seq<(Seq<char>, ObjV)>, n: int, m: int)
    requires
        binds_wf(bs, n),
        n <= m,
    ensures
        binds_wf(bs, m),
    decreases bs,
{
    if bs.len() > 0 {
        crate::object::lemma_obj_wf_mono(bs[0].1, n, m);
        lemma_binds_wf_mono(bs.subrange(1, bs.len() as int), n, m);
    }
}

/// A value found by lookup in a well-formed arena is well formed.
pub proof fn lemma_lookup_wf(ev: Seq<FrameV>, frame: int, name: Seq<char>)
    requires
        env_wf(ev),
        lookup(ev, frame, name) is Some,
    ensures
        obj_wf(lookup(ev, frame, name)->0, ev.len() as int),
    decreases frame,
{
    if 0 <= frame < ev.len() {
        match lookup_frame(ev[frame].bindings, name) {
            Some(v) => {
                lemma_lookup_frame_wf(ev[frame].bindings, name, ev.len() as int);
            },
            None => {
                match ev[frame].outer {
                    Some(j) => {
                        if 0 <= j < frame {
                            lemma_lookup_wf(ev, j, name);
                        }
                    },
                    None => {},
                }
            },
        }
    }
}

impl Env {
    /// The arena is well formed.
    pub open spec fn wf(&self) -> bool {
        env_wf(self@)
    }

    /// An empty environment: one global frame with no enclosing scope.
    pub fn new() -> (e: Env)
        ensures
            e.wf(),
            e@ =~= seq![FrameV { bindings: Seq::empty(), outer: None }],
    {
        let mut frames: Vec<Frame> = Vec::new();
        frames.push(Frame { bindings: Vec::new(), outer: None });
        let e = Env { frames };
        proof {
            assert(e@ =~= seq![FrameV { bindings: binds_v(Seq::empty()), outer: None }]);
            assert(binds_v(Seq::empty()) =~= Seq::<(Seq<char>, ObjV)>::empty());
        }
        e
    }

    /// An environment whose global frame holds the given bindings; used to
    /// install the built-in catalog.  Every value must stand on its own: no
    /// closures, since no frames exist yet for them to capture.
    pub fn from(bindings: Vec<(String, Object)>) -> (e: Env)
        requires
            crate::env::binds_wf(binds_v(bindings@), 1),
        ensures
            e.wf(),
            e@ =~= seq![FrameV { bindings: binds_v(bindings@), outer: None }],
    {
        let mut frames: Vec<Frame> = Vec::new();
        frames.push(Frame { bindings, outer: None });
        let e = Env { frames };
        proof {
            assert(e@ =~= seq![frame_v(e.frames@[0])]);
        }
        e
    }

    /// The number of frames in the arena.
    pub fn len(&self) -> (n: usize)
        ensures
            n == self@.len(),
    {
        self.frames.len()
    }

    /// The value bound to `name`, searching from `frame` outward, or `None`
    /// if the name is unbound.
    pub fn get(&self, frame: usize, name: &String) -> (r: Option<Object>)
        requires
            self.wf(),
            frame < self@.len(),
        ensures
            (match r {
                Some(o) => lookup(self@, frame as int, name@) == Some(obj_v(o)),
                None => lookup(self@, frame as int, name@) is None,
            }),
    {
        let mut cur = frame;
        loop
            invariant
                self.wf(),
                cur < self@.len(),
                lookup(self@, frame as int, name@) == lookup(self@, cur as int, name@),
            decreases cur,
        {
            let f = &self.frames[cur];
            proof {
                assert(self@[cur as int] == frame_v(self.frames@[cur as int]));
            }
            let found = assoc_get(&f.bindings, name);
            match found {
                Some(o) => {
                    return Some(o);
                },
                None => {
                    match f.outer {
                        Some(j) => {
                            proof {
                                assert(frame_wf(self@[cur as int], cur as int, self@.len() as int));
                            }
                            cur = j;
                        },
                        None => {
                            return None;
                        },
                    }
                },
            }
        }
    }

    /// Binds `name` to `value` in exactly the frame given: an existing
    /// binding in that frame is superseded, outer frames are never touched.
    pub fn set(&mut self, frame: usize, name: String, value: Object)
        requires
            old(self).wf(),
            frame < old(self)@.len(),
            obj_wf(obj_v(value), old(self)@.len() as int),
        ensures
            final(self).wf(),
            final(self)@ == env_set(old(self)@, frame as int, name@, obj_v(value)),
    {
        let ghost before = self@;
        let ghost nv = obj_v(value);
        let ghost namev = name@;
        let fr = &mut self.frames[frame];
        fr.bindings.push((name, value));
        proof {
            assert(binds_v(self.frames@[frame as int].bindings@) =~= before[frame as int].bindings.push((namev, nv)));
            assert(self@ =~= before.update(
                frame as int,
                FrameV {
                    bindings: before[frame as int].bindings.push((namev, nv)),
                    outer: before[frame as int].outer,
                },
            ));
            assert forall|i: int| 0 <= i < self@.len() implies frame_wf(
                #[trigger] self@[i],
                i,
                self@.len() as int,
            ) by {
                assert(frame_wf(before[i], i, before.len() as int));
                if i == frame {
                    lemma_binds_wf_props(before[i].bindings, before.len() as int);
                    lemma_binds_wf_intro(self@[i].bindings, self@.len() as int);
                }
            }
        }
    }

    /// A new empty scope whose outward lookups fall through to `outer`;
    /// returns its index.  Used for function-call frames and block scopes.
    pub fn child_of(&mut self, outer: usize) -> (idx: usize)
        requires
            old(self).wf(),
            outer < old(self)@.len(),
        ensures
            final(self).wf(),
            idx == old(self)@.len(),
            final(self)@ == env_push(old(self)@, outer as int),
    {
        let ghost before = self@;
        let idx = self.frames.len();
        self.frames.push(Frame { bindings: Vec::new(), outer: Some(outer) });
        proof {
            assert(binds_v(Seq::empty()) =~= Seq::<(Seq<char>, ObjV)>::empty());
            assert(self@ =~= before.push(
                FrameV { bindings: Seq::empty(), outer: Some(outer as int) },
            ));
            assert forall|i: int| 0 <= i < self@.len() implies frame_wf(
                #[trigger] self@[i],
                i,
                self@.len() as int,
            ) by {
                if i < before.len() {
                    assert(frame_wf(before[i], i, before.len() as int));
                    lemma_binds_wf_mono(before[i].bindings, before.len() as int, self@.len() as int);
                }
            }
        }
        idx
    }
}

/// The latest binding of `name` in one binding list, cloned.
fn assoc_get(bs: &Vec<(String, Object)>, name: &String) -> (r: Option<Object>)
    ensures
        (match r {
            Some(o) => lookup_frame(binds_v(bs@), name@) == Some(obj_v(o)),
            None => lookup_frame(binds_v(bs@), name@) is None,
        }),
{
    proof {
        assert(binds_v(bs@).subrange(0, bs@.len() as int) =~= binds_v(bs@));
    }
    let mut i = bs.len();
    loop
        invariant
            i <= bs.len(),
            lookup_frame(binds_v(bs@), name@) == lookup_frame(
                binds_v(bs@).subrange(0, i as int),
                name@,
            ),
        decreases i,
    {
        if i == 0 {
            return None;
        }
        i = i - 1;
        let p = &bs[i];
        proof {
            assert(binds_v(bs@).subrange(0, i as int + 1).last() == (p.0@, obj_v(p.1)));
            assert(binds_v(bs@).subrange(0, i as int + 1).drop_last() =~= binds_v(bs@).subrange(
                0,
                i as int,
            ));
        }
        if p.0.eq(name) {
            return Some(clone_obj(&p.1));
        }
    }
}

} // verus!
