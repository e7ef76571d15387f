//! The chained-scope environment: an ordered stack of frames, each an
//! insertion-ordered list of bindings from symbol name to term. Lookup scans
//! the innermost frame first and, within a frame, the latest binding first,
//! so the first match wins. At least one frame (the global one) always
//! exists.

use vstd::prelude::*;

use crate::types::{MalType, Primitive, TermV};

verus! {

/// Ghost view of one scope frame: the bindings in insertion order.
pub type FrameV = Seq<(Seq<char>, TermV)>;

/// Ghost view of the whole environment: frames from outermost (global) to
/// innermost.
pub type EnvV = Seq<FrameV>;

/// The chained scope stack. Owned explicitly and passed into every
/// evaluation call; nothing is ambient or global.
pub struct Env {
    frames: Vec<Vec<(String, MalType)>>,
}

/// Ghost view of one executable frame.
pub open spec fn frame_dv(f: Seq<(String, MalType)>) -> FrameV {
    Seq::new(f.len(), |i: int| (f[i].0@, f[i].1.dv()))
}

impl Env {
    /// Well-formedness: the global frame is always present.
    pub open spec fn wf(&self) -> bool {
        self@.len() >= 1
    }
}

impl View for Env {
    type V = EnvV;

    closed spec fn view(&self) -> EnvV {
        Seq::new(self.frames@.len(), |i: int| frame_dv(self.frames@[i]@))
    }
}

/// The latest binding of `name` in one frame, scanning newest first.
pub open spec fn frame_lookup(f: FrameV, name: Seq<char>) -> Option<TermV>
    decreases f.len(),
{
    if f.len() == 0 {
        None
    } else if f.last().0 == name {
        Some(f.last().1)
    } else {
        frame_lookup(f.drop_last(), name)
    }
}

/// The binding of `name` in the innermost frame that has one.
pub open spec fn env_lookup(env: EnvV, name: Seq<char>) -> Option<TermV>
    decreases env.len(),
{
    if env.len() == 0 {
        None
    } else {
        match frame_lookup(env.last(), name) {
            Some(v) => Some(v),
            None => env_lookup(env.drop_last(), name),
        }
    }
}

/// The environment after binding `name` to `value` in the innermost frame.
pub open spec fn env_set(env: EnvV, name: Seq<char>, value: TermV) -> EnvV {
    env.update(env.len() - 1, env.last().push((name, value)))
}

/// The ghost view of an optional term.
pub open spec fn opt_dv(o: Option<MalType>) -> Option<TermV> {
    match o {
        Some(v) => Some(v.dv()),
        None => None,
    }
}

/// The environment a fresh session starts from: one global frame holding the
/// four arithmetic primitives.
pub open spec fn initial_env() -> EnvV {
    seq![
        seq![
            ("+"@, TermV::Function(Primitive::Add)),
            ("-"@, TermV::Function(Primitive::Sub)),
            ("*"@, TermV::Function(Primitive::Mul)),
            ("/"@, TermV::Function(Primitive::Div)),
        ],
    ]
}

impl Env {
    /// A fresh environment: one global frame with the four primitives bound.
    pub fn new() -> (r: Env)
        ensures
            r.wf(),
            r@ == initial_env(),
    {
        let mut env = Env { frames: Vec::new() };
        let frame: Vec<(String, MalType)> = Vec::new();
        env.frames.push(frame);
        proof {
            assert(env@ =~~= seq![Seq::<(Seq<char>, TermV)>::empty()]);
        }
        init_symbols(&mut env);
        proof {
            assert(env@ =~~= initial_env());
        }
        env
    }

    /// Binds `key` to `value` in the current innermost frame.
    pub fn set(&mut self, key: String, value: MalType)
        requires
            old(self).wf(),
        ensures
            final(self).wf(),
            final(self)@ == env_set(old(self)@, key@, value.dv()),
    {
        let mut f = self.frames.pop().unwrap();
        f.push((key, value));
        self.frames.push(f);
        proof {
            assert(self@ =~~= env_set(old(self)@, key@, value.dv()));
        }
    }

    /// The value bound to `key` in the innermost frame that binds it, or
    /// `None` if no frame does. Returns a copy of the stored term.
    #[verifier::loop_isolation(false)]
    pub fn get(&self, key: &str) -> (r: Option<MalType>)
        ensures
            opt_dv(r) == env_lookup(self@, key@),
    {
        let owned = key.to_owned();
        let mut j = self.frames.len();
        proof {
            assert(self@.take(self.frames@.len() as int) =~= self@);
        }
        while j > 0
            invariant
                j <= self.frames@.len(),
                env_lookup(self@, key@) == env_lookup(self@.take(j as int), key@),
            decreases j,
        {
            j = j - 1;
            let f = &self.frames[j];
            let mut k = f.len();
            proof {
                assert(frame_dv(f@).take(f@.len() as int) =~= self@[j as int]);
            }
            while k > 0
                invariant
                    k <= f@.len(),
                    frame_lookup(self@[j as int], key@) == frame_lookup(
                        frame_dv(f@).take(k as int),
                        key@,
                    ),
                decreases k,
            {
                k = k - 1;
                proof {
                    assert(frame_dv(f@).take(k + 1).drop_last() =~= frame_dv(f@).take(k as int));
                    assert(frame_dv(f@).take(k + 1).last() == (f@[k as int].0@, f@[k as int].1.dv()));
                }
                if owned.eq(&f[k].0) {
                    return Some(f[k].1.duplicate());
                }
            }
            proof {
                assert(frame_dv(f@).take(0) =~= Seq::<(Seq<char>, TermV)>::empty());
                assert(self@.take(j + 1).drop_last() =~= self@.take(j as int));
                assert(self@.take(j + 1).last() == self@[j as int]);
            }
        }
        proof {
            assert(self@.take(0) =~= Seq::<FrameV>::empty());
        }
        None
    }

    /// Pushes a fresh innermost frame.
    pub fn new_env(&mut self)
        requires
            old(self).wf(),
        ensures
            final(self).wf(),
            final(self)@ == old(self)@.push(Seq::<(Seq<char>, TermV)>::empty()),
    {
        let f: Vec<(String, MalType)> = Vec::new();
        self.frames.push(f);
        proof {
            assert(self@ =~~= old(self)@.push(Seq::<(Seq<char>, TermV)>::empty()));
        }
    }

    /// Removes the innermost frame. Popping the sole global frame is not a
    /// supported operation.
    pub fn pop_env(&mut self)
        requires
            old(self).wf(),
            old(self)@.len() >= 2,
        ensures
            final(self).wf(),
            final(self)@ == old(self)@.drop_last(),
    {
        let _ = self.frames.pop();
        proof {
            assert(self@ =~~= old(self)@.drop_last());
        }
    }

}

/// Binds the four arithmetic primitives in the innermost frame of `env`.
pub fn init_symbols(env: &mut Env)
    requires
        old(env).wf(),
    ensures
        final(env).wf(),
        final(env)@ == env_set(
            env_set(
                env_set(
                    env_set(old(env)@, "+"@, TermV::Function(Primitive::Add)),
                    "-"@,
                    TermV::Function(Primitive::Sub),
                ),
                "*"@,
                TermV::Function(Primitive::Mul),
            ),
            "/"@,
            TermV::Function(Primitive::Div),
        ),
{
    env.set("+".to_owned(), MalType::Function(Primitive::Add));
    env.set("-".to_owned(), MalType::Function(Primitive::Sub));
    env.set("*".to_owned(), MalType::Function(Primitive::Mul));
    env.set("/".to_owned(), MalType::Function(Primitive::Div));
}

} // verus!
