//! The evaluator: a tree-walking interpreter. Numbers, strings, booleans,
//! nil and callables evaluate to themselves; vectors and hash-maps evaluate
//! their children; a symbol is looked up; a non-empty list is a special form
//! (`def!`, `let*`) or an application.
//!
//! Recursion is structural except for one documented quirk of `/`, which
//! re-evaluates its argument term; the small nesting budget `fuel` bounds
//! that path, and `rep` passes a practical limit.

use vstd::prelude::*;

use crate::arith::{apply, apply_spec, lemma_apply_frames};
use crate::env::{env_lookup, env_set, Env, EnvV};
use crate::errors::{ErrorV, ReplError};
use crate::reader::res_dv;
use crate::types::{
    kind_v, lemma_seq_dv_index, lemma_seq_dv_len, lemma_seq_size_elem, lemma_seq_size_skip,
    lemma_term_size_pos, seq_dv, seq_size_from, term_size, MalType, TermV,
};

verus! {

/// The binding list of a `let*`: the elements of a list or vector term.
pub open spec fn binding_seq(t: TermV) -> Option<Seq<TermV>> {
    match t {
        TermV::List(p) => Some(p),
        TermV::Vector(p) => Some(p),
        _ => None,
    }
}

/// What evaluating `t` in `env` yields, and the environment it leaves
/// behind: `def!` binds in the innermost frame; `let*` works in a frame of
/// its own, popped on success and on failure alike.
pub open spec fn eval_spec(t: TermV, env: EnvV, fuel: nat) -> (Result<TermV, ErrorV>, EnvV)
    decreases fuel, term_size(t), 0int,
{
    match t {
        TermV::List(ts) => {
            if ts.len() == 0 {
                (Ok(t), env)
            } else {
                proof {
                    lemma_seq_size_elem(ts, 0, 0);
                    assert(seq_size_from(ts, 0) == term_size(ts[0]) + seq_size_from(ts, 1));
                }
                match ts[0] {
                    TermV::Sym(name) => {
                        if name == "def!"@ {
                            if ts.len() < 3 {
                                (Err(ErrorV::Arguments("def!"@)), env)
                            } else {
                                match ts[1] {
                                    TermV::Sym(key) => {
                                        proof {
                                            lemma_seq_size_elem(ts, 0, 2);
                                        }
                                        let (r, env1) = eval_spec(ts[2], env, fuel);
                                        match r {
                                            Err(e) => (Err(e), env1),
                                            Ok(v) => (Ok(v), env_set(env1, key, v)),
                                        }
                                    },
                                    other => (
                                        Err(
                                            ErrorV::Type {
                                                expected: "symbol"@,
                                                received: kind_v(other),
                                            },
                                        ),
                                        env,
                                    ),
                                }
                            }
                        } else if name == "let*"@ {
                            if ts.len() < 3 {
                                (Err(ErrorV::Arguments("let*"@)), env)
                            } else {
                                match binding_seq(ts[1]) {
                                    None => (
                                        Err(
                                            ErrorV::Type {
                                                expected: "list or vector"@,
                                                received: kind_v(ts[1]),
                                            },
                                        ),
                                        env,
                                    ),
                                    Some(pairs) => {
                                        if pairs.len() % 2 == 1 {
                                            (Err(ErrorV::OddLet), env)
                                        } else {
                                            proof {
                                                lemma_seq_size_elem(ts, 0, 1);
                                                lemma_seq_size_elem(ts, 0, 2);
                                                assert(term_size(ts[1]) == 1 + seq_size_from(
                                                    pairs,
                                                    0,
                                                ));
                                            }
                                            let env1 = env.push(Seq::<(Seq<char>, TermV)>::empty());
                                            let (rb, env2) = bind_pairs_spec(pairs, 0, env1, fuel);
                                            match rb {
                                                Err(e) => (Err(e), env2.drop_last()),
                                                Ok(_) => {
                                                    let (r3, env3) = eval_spec(ts[2], env2, fuel);
                                                    (r3, env3.drop_last())
                                                },
                                            }
                                        }
                                    },
                                }
                            }
                        } else {
                            match env_lookup(env, name) {
                                None => (Err(ErrorV::UnknownSymbol(name)), env),
                                Some(v) => match v {
                                    TermV::Function(p) => {
                                        proof {
                                            lemma_seq_size_skip(ts, 1, 0);
                                        }
                                        apply_spec(p, TermV::List(ts.skip(1)), env, fuel)
                                    },
                                    _ => (Ok(v), env),
                                },
                            }
                        }
                    },
                    other => (
                        Err(ErrorV::Type { expected: "symbol"@, received: kind_v(other) }),
                        env,
                    ),
                }
            }
        },
        TermV::Vector(ts) => {
            let (r, env1) = eval_elems_spec(ts, 0, Seq::empty(), env, fuel);
            (
                match r {
                    Ok(vs) => Ok(TermV::Vector(vs)),
                    Err(e) => Err(e),
                },
                env1,
            )
        },
        TermV::HashMap(ts) => {
            let (r, env1) = eval_elems_spec(ts, 0, Seq::empty(), env, fuel);
            (
                match r {
                    Ok(vs) => Ok(TermV::HashMap(vs)),
                    Err(e) => Err(e),
                },
                env1,
            )
        },
        TermV::Sym(name) => match env_lookup(env, name) {
            Some(v) => (Ok(v), env),
            None => (Err(ErrorV::UnknownSymbol(name)), env),
        },
        _ => (Ok(t), env),
    }
}

/// Evaluates the elements of a collection left-to-right from index `i`,
/// appending the results to `acc`; the first error stops the walk.
pub open spec fn eval_elems_spec(
    ts: Seq<TermV>,
    i: int,
    acc: Seq<TermV>,
    env: EnvV,
    fuel: nat,
) -> (Result<Seq<TermV>, ErrorV>, EnvV)
    decreases fuel, seq_size_from(ts, i), 1int,
{
    if i < 0 || i >= ts.len() {
        (Ok(acc), env)
    } else {
        proof {
            lemma_seq_size_elem(ts, i, i);
            lemma_term_size_pos(ts[i]);
            assert(seq_size_from(ts, i) == term_size(ts[i]) + seq_size_from(ts, i + 1));
        }
        let (r, env1) = eval_spec(ts[i], env, fuel);
        match r {
            Err(e) => (Err(e), env1),
            Ok(v) => eval_elems_spec(ts, i + 1, acc.push(v), env1, fuel),
        }
    }
}

/// Processes `let*` binding pairs in order from index `i`: each key must be
/// a symbol; each value expression is evaluated in the already-extended
/// innermost frame and bound immediately, so later bindings see earlier
/// ones.
pub open spec fn bind_pairs_spec(pairs: Seq<TermV>, i: int, env: EnvV, fuel: nat) -> (
    Result<(), ErrorV>,
    EnvV,
)
    decreases fuel, seq_size_from(pairs, i), 1int,
{
    if i < 0 || i + 1 >= pairs.len() {
        (Ok(()), env)
    } else {
        proof {
            lemma_seq_size_elem(pairs, i, i + 1);
            lemma_term_size_pos(pairs[i]);
            lemma_term_size_pos(pairs[i + 1]);
            assert(seq_size_from(pairs, i) == term_size(pairs[i]) + seq_size_from(pairs, i + 1));
            assert(seq_size_from(pairs, i + 1) == term_size(pairs[i + 1]) + seq_size_from(
                pairs,
                i + 2,
            ));
        }
        match pairs[i] {
            TermV::Sym(key) => {
                let (r, env1) = eval_spec(pairs[i + 1], env, fuel);
                match r {
                    Err(e) => (Err(e), env1),
                    Ok(v) => bind_pairs_spec(pairs, i + 2, env_set(env1, key, v), fuel),
                }
            },
            other => (
                Err(ErrorV::Type { expected: "symbol"@, received: kind_v(other) }),
                env,
            ),
        }
    }
}

/// Evaluation never changes the number of frames on the scope stack: every
/// frame `let*` pushes is popped again, on success and on failure alike.
pub proof fn lemma_eval_frames(t: TermV, env: EnvV, fuel: nat)
    requires
        env.len() >= 1,
    ensures
        eval_spec(t, env, fuel).1.len() == env.len(),
        forall|j: int| 0 <= j < env.len() - 1 ==> eval_spec(t, env, fuel).1[j] == env[j],
    decreases fuel, term_size(t), 0int,
{
    match t {
        TermV::List(ts) => {
            if ts.len() > 0 {
                lemma_seq_size_elem(ts, 0, 0);
                assert(seq_size_from(ts, 0) == term_size(ts[0]) + seq_size_from(ts, 1));
                match ts[0] {
                    TermV::Sym(name) => {
                        if name == "def!"@ {
                            if ts.len() >= 3 {
                                match ts[1] {
                                    TermV::Sym(key) => {
                                        lemma_seq_size_elem(ts, 0, 2);
                                        lemma_eval_frames(ts[2], env, fuel);
                                        let (r, env1) = eval_spec(ts[2], env, fuel);
                                        if r is Ok {
                                            let v = r->Ok_0;
                                            assert(forall|j: int|
                                                0 <= j < env.len() - 1 ==> env_set(
                                                    env1,
                                                    key,
                                                    v,
                                                )[j] == env1[j]);
                                        }
                                    },
                                    _ => {},
                                }
                            }
                        } else if name == "let*"@ {
                            if ts.len() >= 3 {
                                match binding_seq(ts[1]) {
                                    None => {},
                                    Some(pairs) => {
                                        if pairs.len() % 2 != 1 {
                                            lemma_seq_size_elem(ts, 0, 1);
                                            lemma_seq_size_elem(ts, 0, 2);
                                            assert(term_size(ts[1]) == 1 + seq_size_from(
                                                pairs,
                                                0,
                                            ));
                                            let env1 = env.push(
                                                Seq::<(Seq<char>, TermV)>::empty(),
                                            );
                                            assert(forall|j: int|
                                                0 <= j < env.len() ==> env1[j] == env[j]);
                                            lemma_bind_pairs_frames(pairs, 0, env1, fuel);
                                            let (rb, env2) = bind_pairs_spec(pairs, 0, env1, fuel);
                                            assert(forall|j: int|
                                                0 <= j < env.len() ==> env2[j] == env[j]);
                                            match rb {
                                                Err(_) => {
                                                    assert(forall|j: int|
                                                        0 <= j < env.len()
                                                            ==> env2.drop_last()[j] == env[j]);
                                                },
                                                Ok(_) => {
                                                    lemma_eval_frames(ts[2], env2, fuel);
                                                    let (_, env3) = eval_spec(ts[2], env2, fuel);
                                                    assert(forall|j: int|
                                                        0 <= j < env.len() ==> env3[j] == env[j]);
                                                    assert(forall|j: int|
                                                        0 <= j < env.len()
                                                            ==> env3.drop_last()[j] == env[j]);
                                                },
                                            }
                                        }
                                    },
                                }
                            }
                        } else {
                            match env_lookup(env, name) {
                                None => {},
                                Some(v) => match v {
                                    TermV::Function(p) => {
                                        lemma_seq_size_skip(ts, 1, 0);
                                        lemma_apply_frames(p, TermV::List(ts.skip(1)), env, fuel);
                                    },
                                    _ => {},
                                },
                            }
                        }
                    },
                    _ => {},
                }
            }
        },
        TermV::Vector(ts) => {
            lemma_eval_elems_frames(ts, 0, Seq::empty(), env, fuel);
        },
        TermV::HashMap(ts) => {
            lemma_eval_elems_frames(ts, 0, Seq::empty(), env, fuel);
        },
        _ => {},
    }
}

/// The scoped-frame law of `let*`: evaluating a `let*` form leaves the
/// environment exactly as it found it, on success and on failure alike. The
/// frame it pushes never remains on the stack, so a later lookup of an
/// identically named outer binding behaves as if the `let*` had never run.
pub proof fn lemma_let_star_restores_env(t: TermV, env: EnvV, fuel: nat)
    requires
        env.len() >= 1,
        t matches TermV::List(ts) && ts.len() > 0 && ts[0] == TermV::Sym("let*"@),
    ensures
        eval_spec(t, env, fuel).1 == env,
{
    reveal_strlit("let*");
    reveal_strlit("def!");
    let ts = t->List_0;
    let name = ts[0]->Sym_0;
    assert(("let*"@)[0] == 'l' && ("def!"@)[0] == 'd');
    assert(name != "def!"@);
    if ts.len() >= 3 {
        match binding_seq(ts[1]) {
            None => {},
            Some(pairs) => {
                if pairs.len() % 2 != 1 {
                    let env1 = env.push(Seq::<(Seq<char>, TermV)>::empty());
                    assert(forall|j: int| 0 <= j < env.len() ==> env1[j] == env[j]);
                    lemma_bind_pairs_frames(pairs, 0, env1, fuel);
                    let (rb, env2) = bind_pairs_spec(pairs, 0, env1, fuel);
                    assert(forall|j: int| 0 <= j < env.len() ==> env2[j] == env[j]);
                    match rb {
                        Err(_) => {
                            assert(env2.drop_last() =~= env);
                        },
                        Ok(_) => {
                            lemma_eval_frames(ts[2], env2, fuel);
                            let (r3, env3) = eval_spec(ts[2], env2, fuel);
                            assert(forall|j: int| 0 <= j < env.len() ==> env3[j] == env[j]);
                            assert(env3.drop_last() =~= env);
                        },
                    }
                }
            },
        }
    }
}

/// Evaluating collection elements keeps the frame count.
pub proof fn lemma_eval_elems_frames(ts: Seq<TermV>, i: int, acc: Seq<TermV>, env: EnvV, fuel: nat)
    requires
        env.len() >= 1,
    ensures
        eval_elems_spec(ts, i, acc, env, fuel).1.len() == env.len(),
        forall|j: int|
            0 <= j < env.len() - 1 ==> eval_elems_spec(ts, i, acc, env, fuel).1[j] == env[j],
    decreases fuel, seq_size_from(ts, i), 1int,
{
    if 0 <= i < ts.len() {
        lemma_seq_size_elem(ts, i, i);
        lemma_term_size_pos(ts[i]);
        assert(seq_size_from(ts, i) == term_size(ts[i]) + seq_size_from(ts, i + 1));
        lemma_eval_frames(ts[i], env, fuel);
        let (r, env1) = eval_spec(ts[i], env, fuel);
        match r {
            Err(_) => {},
            Ok(v) => lemma_eval_elems_frames(ts, i + 1, acc.push(v), env1, fuel),
        }
    }
}

/// Processing binding pairs keeps the frame count.
pub proof fn lemma_bind_pairs_frames(pairs: Seq<TermV>, i: int, env: EnvV, fuel: nat)
    requires
        env.len() >= 1,
    ensures
        bind_pairs_spec(pairs, i, env, fuel).1.len() == env.len(),
        forall|j: int|
            0 <= j < env.len() - 1 ==> bind_pairs_spec(pairs, i, env, fuel).1[j] == env[j],
    decreases fuel, seq_size_from(pairs, i), 1int,
{
    if 0 <= i && i + 1 < pairs.len() {
        lemma_seq_size_elem(pairs, i, i + 1);
        lemma_term_size_pos(pairs[i]);
        lemma_term_size_pos(pairs[i + 1]);
        assert(seq_size_from(pairs, i) == term_size(pairs[i]) + seq_size_from(pairs, i + 1));
        assert(seq_size_from(pairs, i + 1) == term_size(pairs[i + 1]) + seq_size_from(
            pairs,
            i + 2,
        ));
        match pairs[i] {
            TermV::Sym(key) => {
                lemma_eval_frames(pairs[i + 1], env, fuel);
                let (r, env1) = eval_spec(pairs[i + 1], env, fuel);
                match r {
                    Err(_) => {},
                    Ok(v) => {
                        let env2 = env_set(env1, key, v);
                        assert(forall|j: int|
                            0 <= j < env.len() - 1 ==> env2[j] == env1[j]);
                        lemma_bind_pairs_frames(pairs, i + 2, env2, fuel);
                    },
                }
            },
            _ => {},
        }
    }
}

/// Copies the elements of `ts` after the first.
fn tail_terms(ts: &Vec<MalType>) -> (r: Vec<MalType>)
    requires
        ts@.len() >= 1,
    ensures
        seq_dv(r@) == seq_dv(ts@).skip(1),
{
    let mut out: Vec<MalType> = Vec::new();
    let mut i: usize = 1;
    while i < ts.len()
        invariant
            1 <= i <= ts@.len(),
            out@.len() == i - 1,
            forall|k: int| 0 <= k < i - 1 ==> out@[k].dv() == ts@[k + 1].dv(),
        decreases ts@.len() - i,
    {
        proof {
            assert(decreases_to!(ts@ => ts@[i as int]));
        }
        out.push(ts[i].duplicate());
        i = i + 1;
    }
    proof {
        broadcast use {lemma_seq_dv_len, lemma_seq_dv_index};

        assert(seq_dv(out@) =~= seq_dv(ts@).skip(1));
    }
    out
}

/// Evaluates one term. `fuel` is the practical nesting budget for the one
/// non-structural path, `/`'s re-evaluation of its argument term.
pub fn eval(arg: &MalType, env: &mut Env, fuel: u32) -> (r: Result<MalType, ReplError>)
    requires
        old(env).wf(),
    ensures
        final(env).wf(),
        final(env)@.len() == old(env)@.len(),
        ({
            let (sr, senv) = eval_spec(arg.dv(), old(env)@, fuel as nat);
            &&& final(env)@ == senv
            &&& res_dv(r) == sr
        }),
    decreases fuel, term_size(arg.dv()), 0int,
{
    proof {
        broadcast use {lemma_seq_dv_len, lemma_seq_dv_index};

        lemma_eval_frames(arg.dv(), old(env)@, fuel as nat);
    }
    match arg {
        MalType::List { tokens } => {
            if tokens.len() == 0 {
                return Ok(arg.duplicate());
            }
            proof {
                lemma_seq_size_elem(seq_dv(tokens@), 0, 0);
                assert(seq_size_from(seq_dv(tokens@), 0) == term_size(seq_dv(tokens@)[0])
                    + seq_size_from(seq_dv(tokens@), 1));
            }
            match &tokens[0] {
                MalType::Symbol(name) => {
                    if name.eq(&"def!".to_owned()) {
                        if tokens.len() < 3 {
                            return Err(ReplError::Arguments("def!".to_owned()));
                        }
                        match &tokens[1] {
                            MalType::Symbol(key) => {
                                proof {
                                    lemma_seq_size_elem(seq_dv(tokens@), 0, 2);
                                }
                                let v = match eval(&tokens[2], env, fuel) {
                                    Ok(v) => v,
                                    Err(e) => {
                                        return Err(e);
                                    },
                                };
                                env.set(key.clone(), v.duplicate());
                                Ok(v)
                            },
                            other => Err(
                                ReplError::Type {
                                    expected: "symbol".to_owned(),
                                    received: other.kind_name(),
                                },
                            ),
                        }
                    } else if name.eq(&"let*".to_owned()) {
                        if tokens.len() < 3 {
                            return Err(ReplError::Arguments("let*".to_owned()));
                        }
                        let pairs: &Vec<MalType> = match &tokens[1] {
                            MalType::List { tokens: p } => p,
                            MalType::Vector { tokens: p } => p,
                            other => {
                                return Err(
                                    ReplError::Type {
                                        expected: "list or vector".to_owned(),
                                        received: other.kind_name(),
                                    },
                                );
                            },
                        };
                        proof {
                            assert(seq_dv(tokens@)[1] == tokens@[1].dv());
                            assert(binding_seq(seq_dv(tokens@)[1]) == Some(seq_dv(pairs@)));
                            assert(seq_dv(pairs@).len() == pairs@.len());
                        }
                        if pairs.len() % 2 == 1 {
                            return Err(ReplError::OddLet);
                        }
                        proof {
                            lemma_seq_size_elem(seq_dv(tokens@), 0, 1);
                            lemma_seq_size_elem(seq_dv(tokens@), 0, 2);
                            assert(term_size(seq_dv(tokens@)[1]) == 1 + seq_size_from(
                                seq_dv(pairs@),
                                0,
                            ));
                            lemma_bind_pairs_frames(
                                seq_dv(pairs@),
                                0,
                                old(env)@.push(Seq::<(Seq<char>, TermV)>::empty()),
                                fuel as nat,
                            );
                        }
                        env.new_env();
                        match bind_pairs(pairs, 0, env, fuel) {
                            Err(e) => {
                                env.pop_env();
                                Err(e)
                            },
                            Ok(_) => {
                                let ghost env2 = env@;
                                proof {
                                    lemma_eval_frames(
                                        seq_dv(tokens@)[2],
                                        env2,
                                        fuel as nat,
                                    );
                                }
                                let r = eval(&tokens[2], env, fuel);
                                env.pop_env();
                                r
                            },
                        }
                    } else {
                        match env.get(name.as_str()) {
                            None => Err(ReplError::UnknownSymbol(name.clone())),
                            Some(looked) => match looked {
                                MalType::Function(p) => {
                                    let rest = tail_terms(tokens);
                                    let args = MalType::List { tokens: rest };
                                    proof {
                                        lemma_seq_size_skip(seq_dv(tokens@), 1, 0);
                                        assert(term_size(args.dv()) == 1 + seq_size_from(
                                            seq_dv(tokens@),
                                            1,
                                        ));
                                    }
                                    apply(p, &args, env, fuel)
                                },
                                v => Ok(v),
                            },
                        }
                    }
                },
                other => Err(
                    ReplError::Type {
                        expected: "symbol".to_owned(),
                        received: other.kind_name(),
                    },
                ),
            }
        },
        MalType::Vector { tokens } => {
            proof {
                assert(seq_dv(Seq::<MalType>::empty()) =~= Seq::<TermV>::empty());
            }
            match eval_elems(tokens, 0, Vec::new(), env, fuel) {
                Ok(vs) => Ok(MalType::Vector { tokens: vs }),
                Err(e) => Err(e),
            }
        },
        MalType::HashMap { tokens } => {
            proof {
                assert(seq_dv(Seq::<MalType>::empty()) =~= Seq::<TermV>::empty());
            }
            match eval_elems(tokens, 0, Vec::new(), env, fuel) {
                Ok(vs) => Ok(MalType::HashMap { tokens: vs }),
                Err(e) => Err(e),
            }
        },
        MalType::Symbol(name) => match env.get(name.as_str()) {
            Some(v) => Ok(v),
            None => Err(ReplError::UnknownSymbol(name.clone())),
        },
        _ => Ok(arg.duplicate()),
    }
}

/// Evaluates collection elements left-to-right, appending onto `acc`.
fn eval_elems(ts: &Vec<MalType>, i: usize, acc: Vec<MalType>, env: &mut Env, fuel: u32) -> (r:
    Result<Vec<MalType>, ReplError>)
    requires
        old(env).wf(),
        i <= ts@.len(),
    ensures
        final(env).wf(),
        ({
            let (sr, senv) = eval_elems_spec(
                seq_dv(ts@),
                i as int,
                seq_dv(acc@),
                old(env)@,
                fuel as nat,
            );
            &&& final(env)@ == senv
            &&& match r {
                Ok(vs) => sr == Ok::<Seq<TermV>, ErrorV>(seq_dv(vs@)),
                Err(e) => sr == Err::<Seq<TermV>, ErrorV>(e.dv()),
            }
        }),
    decreases fuel, seq_size_from(seq_dv(ts@), i as int), 1int,
{
    proof {
        broadcast use {lemma_seq_dv_len, lemma_seq_dv_index};

        lemma_eval_elems_frames(seq_dv(ts@), i as int, seq_dv(acc@), old(env)@, fuel as nat);
    }
    if i >= ts.len() {
        return Ok(acc);
    }
    proof {
        lemma_seq_size_elem(seq_dv(ts@), i as int, i as int);
        lemma_term_size_pos(seq_dv(ts@)[i as int]);
        assert(seq_size_from(seq_dv(ts@), i as int) == term_size(seq_dv(ts@)[i as int])
            + seq_size_from(seq_dv(ts@), i + 1));
    }
    match eval(&ts[i], env, fuel) {
        Err(e) => Err(e),
        Ok(v) => {
            let mut acc2 = acc;
            let ghost accv = seq_dv(acc2@);
            acc2.push(v);
            proof {
                assert(seq_dv(acc2@) =~= accv.push(acc2@.last().dv()));
            }
            eval_elems(ts, i + 1, acc2, env, fuel)
        },
    }
}

/// Processes `let*` binding pairs from index `i`, binding each evaluated
/// value in the innermost frame before the next pair is looked at.
fn bind_pairs(pairs: &Vec<MalType>, i: usize, env: &mut Env, fuel: u32) -> (r: Result<
    (),
    ReplError,
>)
    requires
        old(env).wf(),
        i <= pairs@.len(),
    ensures
        final(env).wf(),
        ({
            let (sr, senv) = bind_pairs_spec(seq_dv(pairs@), i as int, old(env)@, fuel as nat);
            &&& final(env)@ == senv
            &&& match r {
                Ok(_) => sr == Ok::<(), ErrorV>(()),
                Err(e) => sr == Err::<(), ErrorV>(e.dv()),
            }
        }),
    decreases fuel, seq_size_from(seq_dv(pairs@), i as int), 1int,
{
    proof {
        broadcast use {lemma_seq_dv_len, lemma_seq_dv_index};

        lemma_bind_pairs_frames(seq_dv(pairs@), i as int, old(env)@, fuel as nat);
    }
    if i >= pairs.len() || i + 1 >= pairs.len() {
        return Ok(());
    }
    proof {
        lemma_seq_size_elem(seq_dv(pairs@), i as int, i + 1);
        lemma_term_size_pos(seq_dv(pairs@)[i as int]);
        lemma_term_size_pos(seq_dv(pairs@)[i + 1]);
        assert(seq_size_from(seq_dv(pairs@), i as int) == term_size(seq_dv(pairs@)[i as int])
            + seq_size_from(seq_dv(pairs@), i + 1));
        assert(seq_size_from(seq_dv(pairs@), i + 1) == term_size(seq_dv(pairs@)[i + 1])
            + seq_size_from(seq_dv(pairs@), i + 2));
    }
    match &pairs[i] {
        MalType::Symbol(key) => {
            let v = match eval(&pairs[i + 1], env, fuel) {
                Ok(v) => v,
                Err(e) => {
                    return Err(e);
                },
            };
            env.set(key.clone(), v);
            bind_pairs(pairs, i + 2, env, fuel)
        },
        other => Err(
            ReplError::Type { expected: "symbol".to_owned(), received: other.kind_name() },
        ),
    }
}

} // verus!
