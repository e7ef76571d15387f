//! The four arithmetic primitives. Each receives one argument term: a bare
//! number is returned unchanged; a list of operands is folded left-to-right.
//! During the fold a number folds directly, a nested list is evaluated
//! first, and a symbol must resolve to a number through the environment.
//! Arithmetic wraps at the 128-bit boundary.

use vstd::prelude::*;

use crate::env::{env_lookup, Env, EnvV};
use crate::errors::{ErrorV, ReplError};
use crate::eval::{eval, eval_spec};
use crate::reader::res_dv;
use crate::types::{
    kind_v, lemma_seq_dv_index, lemma_seq_dv_len, lemma_seq_size_elem, lemma_term_size_pos,
    seq_dv, seq_size_from, term_size, MalType, Primitive, TermV,
};

verus! {

/// The name a primitive reports in `MissingArguments`.
pub open spec fn prim_name(p: Primitive) -> Seq<char> {
    match p {
        Primitive::Add => "+"@,
        Primitive::Sub => "-"@,
        Primitive::Mul => "*"@,
        Primitive::Div => "/"@,
    }
}

/// The starting accumulator of a fold: the identity for `+` and `*`, none
/// for `-` and `/`, whose first operand becomes the accumulator unchanged.
pub open spec fn init_acc(p: Primitive) -> Option<i128> {
    match p {
        Primitive::Add => Some(0),
        Primitive::Mul => Some(1),
        _ => None,
    }
}

/// One application of a primitive to the accumulator and an operand.
/// Addition, subtraction and multiplication wrap; division truncates toward
/// zero and wraps on the one overflowing quotient.
pub open spec fn prim_apply(p: Primitive, a: i128, b: i128) -> i128 {
    match p {
        Primitive::Add => a.wrapping_add(b),
        Primitive::Sub => a.wrapping_sub(b),
        Primitive::Mul => a.wrapping_mul(b),
        Primitive::Div => if b == 0 {
            0
        } else {
            match a.checked_div(b) {
                Some(q) => q,
                None => i128::MIN,
            }
        },
    }
}

/// Folding one numeric operand into the accumulator. A zero operand that
/// would be used as a divisor fails; a zero first operand is only the
/// starting accumulator and is allowed.
pub open spec fn fold_step_v(p: Primitive, acc: Option<i128>, n: i128) -> Result<i128, ErrorV> {
    if p == Primitive::Div && acc is Some && n == 0 {
        Err(ErrorV::ZeroDivision)
    } else {
        match acc {
            None => Ok(n),
            Some(a) => Ok(prim_apply(p, a, n)),
        }
    }
}

/// The left-to-right fold of a primitive over its operand list from index
/// `i` on. A nested list is evaluated first and silently skipped if it does
/// not evaluate to a number; a symbol must resolve to a number.
pub open spec fn fold_spec(
    p: Primitive,
    l: Seq<TermV>,
    i: int,
    acc: Option<i128>,
    env: EnvV,
    fuel: nat,
) -> (Result<Option<i128>, ErrorV>, EnvV)
    decreases fuel, seq_size_from(l, i), 1int,
{
    if i < 0 || i >= l.len() {
        (Ok(acc), env)
    } else {
        proof {
            lemma_seq_size_elem(l, i, i);
            lemma_term_size_pos(l[i]);
            assert(seq_size_from(l, i) == term_size(l[i]) + seq_size_from(l, i + 1));
        }
        match l[i] {
            TermV::Num(n) => match fold_step_v(p, acc, n) {
                Err(e) => (Err(e), env),
                Ok(a2) => fold_spec(p, l, i + 1, Some(a2), env, fuel),
            },
            TermV::List(_) => {
                let (r, env1) = eval_spec(l[i], env, fuel);
                match r {
                    Err(e) => (Err(e), env1),
                    Ok(TermV::Num(n)) => match fold_step_v(p, acc, n) {
                        Err(e) => (Err(e), env1),
                        Ok(a2) => fold_spec(p, l, i + 1, Some(a2), env1, fuel),
                    },
                    Ok(_) => fold_spec(p, l, i + 1, acc, env1, fuel),
                }
            },
            TermV::Sym(name) => match env_lookup(env, name) {
                None => (Err(ErrorV::UnknownSymbol(name)), env),
                Some(TermV::Num(n)) => match fold_step_v(p, acc, n) {
                    Err(e) => (Err(e), env),
                    Ok(a2) => fold_spec(p, l, i + 1, Some(a2), env, fuel),
                },
                Some(other) => (
                    Err(ErrorV::Type { expected: "number"@, received: kind_v(other) }),
                    env,
                ),
            },
            other => (
                Err(ErrorV::Type { expected: "list or number"@, received: kind_v(other) }),
                env,
            ),
        }
    }
}

/// The normal application of a primitive: a bare number is returned
/// unchanged; a list is folded; anything else is a type error. `+` and `*`
/// reject an empty operand list outright; `-` and `/` reject a fold that
/// never received an operand.
pub open spec fn apply_norm_spec(p: Primitive, v: TermV, env: EnvV, fuel: nat) -> (
    Result<TermV, ErrorV>,
    EnvV,
)
    decreases fuel, term_size(v), 0int,
{
    match v {
        TermV::Num(n) => (Ok(TermV::Num(n)), env),
        TermV::List(l) => {
            if (p == Primitive::Add || p == Primitive::Mul) && l.len() == 0 {
                (Err(ErrorV::Arguments(prim_name(p))), env)
            } else {
                let (r, env1) = fold_spec(p, l, 0, init_acc(p), env, fuel);
                match r {
                    Err(e) => (Err(e), env1),
                    Ok(None) => (Err(ErrorV::Arguments(prim_name(p))), env1),
                    Ok(Some(a)) => (Ok(TermV::Num(a)), env1),
                }
            }
        },
        other => (
            Err(ErrorV::Type { expected: "list or number"@, received: kind_v(other) }),
            env,
        ),
    }
}

/// Applying a primitive to its argument term. For `/` alone: if the operand
/// list's first operand is a symbol, the entire argument term is evaluated
/// once more before the normal fold — a documented quirk that supports
/// expression-valued first operands. That one re-evaluation is what the
/// nesting budget `fuel` meters.
pub open spec fn apply_spec(p: Primitive, args: TermV, env: EnvV, fuel: nat) -> (
    Result<TermV, ErrorV>,
    EnvV,
)
    decreases fuel, term_size(args), 1int,
{
    let pre = match args {
        TermV::List(l) => p == Primitive::Div && l.len() > 0 && l[0] is Sym,
        _ => false,
    };
    if pre {
        if fuel == 0 {
            (Err(ErrorV::RecursionLimit), env)
        } else {
            let (r, env1) = eval_spec(args, env, (fuel - 1) as nat);
            match r {
                Err(e) => (Err(e), env1),
                Ok(v) => apply_norm_spec(p, v, env1, (fuel - 1) as nat),
            }
        }
    } else {
        apply_norm_spec(p, args, env, fuel)
    }
}

/// The fold's resulting environment keeps the frame count.
pub proof fn lemma_fold_frames(
    p: Primitive,
    l: Seq<TermV>,
    i: int,
    acc: Option<i128>,
    env: EnvV,
    fuel: nat,
)
    requires
        env.len() >= 1,
    ensures
        fold_spec(p, l, i, acc, env, fuel).1.len() == env.len(),
        forall|j: int|
            0 <= j < env.len() - 1 ==> fold_spec(p, l, i, acc, env, fuel).1[j] == env[j],
    decreases fuel, seq_size_from(l, i), 1int,
{
    if 0 <= i < l.len() {
        lemma_seq_size_elem(l, i, i);
        lemma_term_size_pos(l[i]);
        assert(seq_size_from(l, i) == term_size(l[i]) + seq_size_from(l, i + 1));
        match l[i] {
            TermV::Num(n) => match fold_step_v(p, acc, n) {
                Err(_) => {},
                Ok(a2) => lemma_fold_frames(p, l, i + 1, Some(a2), env, fuel),
            },
            TermV::List(_) => {
                crate::eval::lemma_eval_frames(l[i], env, fuel);
                let (r, env1) = eval_spec(l[i], env, fuel);
                match r {
                    Err(_) => {},
                    Ok(TermV::Num(n)) => match fold_step_v(p, acc, n) {
                        Err(_) => {},
                        Ok(a2) => lemma_fold_frames(p, l, i + 1, Some(a2), env1, fuel),
                    },
                    Ok(_) => lemma_fold_frames(p, l, i + 1, acc, env1, fuel),
                }
            },
            TermV::Sym(name) => match env_lookup(env, name) {
                None => {},
                Some(TermV::Num(n)) => match fold_step_v(p, acc, n) {
                    Err(_) => {},
                    Ok(a2) => lemma_fold_frames(p, l, i + 1, Some(a2), env, fuel),
                },
                Some(_) => {},
            },
            _ => {},
        }
    }
}

/// The normal application keeps the frame count.
pub proof fn lemma_apply_norm_frames(p: Primitive, v: TermV, env: EnvV, fuel: nat)
    requires
        env.len() >= 1,
    ensures
        apply_norm_spec(p, v, env, fuel).1.len() == env.len(),
        forall|j: int|
            0 <= j < env.len() - 1 ==> apply_norm_spec(p, v, env, fuel).1[j] == env[j],
    decreases fuel, term_size(v), 0int,
{
    match v {
        TermV::List(l) => {
            if !((p == Primitive::Add || p == Primitive::Mul) && l.len() == 0) {
                lemma_fold_frames(p, l, 0, init_acc(p), env, fuel);
            }
        },
        _ => {},
    }
}

/// Applying a primitive keeps the frame count.
pub proof fn lemma_apply_frames(p: Primitive, args: TermV, env: EnvV, fuel: nat)
    requires
        env.len() >= 1,
    ensures
        apply_spec(p, args, env, fuel).1.len() == env.len(),
        forall|j: int|
            0 <= j < env.len() - 1 ==> apply_spec(p, args, env, fuel).1[j] == env[j],
    decreases fuel, term_size(args), 1int,
{
    let pre = match args {
        TermV::List(l) => p == Primitive::Div && l.len() > 0 && l[0] is Sym,
        _ => false,
    };
    if pre {
        if fuel > 0 {
            crate::eval::lemma_eval_frames(args, env, (fuel - 1) as nat);
            let (r, env1) = eval_spec(args, env, (fuel - 1) as nat);
            match r {
                Err(_) => {},
                Ok(v) => lemma_apply_norm_frames(p, v, env1, (fuel - 1) as nat),
            }
        }
    } else {
        lemma_apply_norm_frames(p, args, env, fuel);
    }
}

/// The printed name of a primitive.
fn prim_name_str(p: Primitive) -> (r: String)
    ensures
        r@ == prim_name(p),
{
    match p {
        Primitive::Add => "+".to_owned(),
        Primitive::Sub => "-".to_owned(),
        Primitive::Mul => "*".to_owned(),
        Primitive::Div => "/".to_owned(),
    }
}

/// One application of a primitive to the accumulator and an operand.
fn prim_apply_exec(p: Primitive, a: i128, b: i128) -> (r: i128)
    ensures
        r == prim_apply(p, a, b),
{
    match p {
        Primitive::Add => a.wrapping_add(b),
        Primitive::Sub => a.wrapping_sub(b),
        Primitive::Mul => a.wrapping_mul(b),
        Primitive::Div => if b == 0 {
            0
        } else {
            match a.checked_div(b) {
                Some(q) => q,
                None => i128::MIN,
            }
        },
    }
}

/// Folding one numeric operand into the accumulator.
fn fold_step(p: Primitive, acc: Option<i128>, n: i128) -> (r: Result<i128, ReplError>)
    ensures
        match r {
            Ok(a) => fold_step_v(p, acc, n) == Ok::<i128, ErrorV>(a),
            Err(e) => fold_step_v(p, acc, n) == Err::<i128, ErrorV>(e.dv()),
        },
{
    if p == Primitive::Div && acc.is_some() && n == 0 {
        Err(ReplError::ZeroDivision)
    } else {
        match acc {
            None => Ok(n),
            Some(a) => Ok(prim_apply_exec(p, a, n)),
        }
    }
}

/// The left-to-right fold of a primitive over its operand list.
fn fold(p: Primitive, l: &Vec<MalType>, i: usize, acc: Option<i128>, env: &mut Env, fuel: u32) -> (r: Result<Option<i128>, ReplError>)
    requires
        old(env).wf(),
        i <= l@.len(),
    ensures
        final(env).wf(),
        ({
            let (sr, senv) = fold_spec(p, seq_dv(l@), i as int, acc, old(env)@, fuel as nat);
            &&& final(env)@ == senv
            &&& match r {
                Ok(a) => sr == Ok::<Option<i128>, ErrorV>(a),
                Err(e) => sr == Err::<Option<i128>, ErrorV>(e.dv()),
            }
        }),
    decreases fuel, seq_size_from(seq_dv(l@), i as int), 1int,
{
    proof {
        broadcast use {lemma_seq_dv_len, lemma_seq_dv_index};

        lemma_fold_frames(p, seq_dv(l@), i as int, acc, old(env)@, fuel as nat);
    }
    if i >= l.len() {
        return Ok(acc);
    }
    proof {
        lemma_seq_size_elem(seq_dv(l@), i as int, i as int);
        lemma_term_size_pos(seq_dv(l@)[i as int]);
        assert(seq_size_from(seq_dv(l@), i as int) == term_size(seq_dv(l@)[i as int])
            + seq_size_from(seq_dv(l@), i + 1));
    }
    match &l[i] {
        MalType::Number(n) => match fold_step(p, acc, *n) {
            Err(e) => Err(e),
            Ok(a2) => fold(p, l, i + 1, Some(a2), env, fuel),
        },
        MalType::List { tokens: _ } => {
            match eval(&l[i], env, fuel) {
                Err(e) => Err(e),
                Ok(MalType::Number(n)) => match fold_step(p, acc, n) {
                    Err(e) => Err(e),
                    Ok(a2) => fold(p, l, i + 1, Some(a2), env, fuel),
                },
                Ok(_) => fold(p, l, i + 1, acc, env, fuel),
            }
        },
        MalType::Symbol(name) => match env.get(name.as_str()) {
            None => Err(ReplError::UnknownSymbol(name.clone())),
            Some(MalType::Number(n)) => match fold_step(p, acc, n) {
                Err(e) => Err(e),
                Ok(a2) => fold(p, l, i + 1, Some(a2), env, fuel),
            },
            Some(other) => Err(
                ReplError::Type { expected: "number".to_owned(), received: other.kind_name() },
            ),
        },
        other => Err(
            ReplError::Type {
                expected: "list or number".to_owned(),
                received: other.kind_name(),
            },
        ),
    }
}

/// The normal application of a primitive to an argument term.
fn apply_norm(p: Primitive, v: &MalType, env: &mut Env, fuel: u32) -> (r: Result<
    MalType,
    ReplError,
>)
    requires
        old(env).wf(),
    ensures
        final(env).wf(),
        ({
            let (sr, senv) = apply_norm_spec(p, v.dv(), old(env)@, fuel as nat);
            &&& final(env)@ == senv
            &&& res_dv(r) == sr
        }),
    decreases fuel, term_size(v.dv()), 0int,
{
    match v {
        MalType::Number(n) => Ok(MalType::Number(*n)),
        MalType::List { tokens } => {
            if (p == Primitive::Add || p == Primitive::Mul) && tokens.len() == 0 {
                Err(ReplError::Arguments(prim_name_str(p)))
            } else {
                let init: Option<i128> = match p {
                    Primitive::Add => Some(0),
                    Primitive::Mul => Some(1),
                    _ => None,
                };
                match fold(p, tokens, 0, init, env, fuel) {
                    Err(e) => Err(e),
                    Ok(Some(a)) => Ok(MalType::Number(a)),
                    Ok(None) => Err(ReplError::Arguments(prim_name_str(p))),
                }
            }
        },
        other => Err(
            ReplError::Type {
                expected: "list or number".to_owned(),
                received: other.kind_name(),
            },
        ),
    }
}

/// Applies a primitive to its argument term, with `/`'s documented
/// pre-evaluation of a symbol-headed operand list.
pub fn apply(p: Primitive, args: &MalType, env: &mut Env, fuel: u32) -> (r: Result<
    MalType,
    ReplError,
>)
    requires
        old(env).wf(),
    ensures
        final(env).wf(),
        ({
            let (sr, senv) = apply_spec(p, args.dv(), old(env)@, fuel as nat);
            &&& final(env)@ == senv
            &&& res_dv(r) == sr
        }),
    decreases fuel, term_size(args.dv()), 1int,
{
    let pre = match args {
        MalType::List { tokens } => p == Primitive::Div && tokens.len() > 0 && matches!(
            &tokens[0],
            MalType::Symbol(_)
        ),
        _ => false,
    };
    proof {
        broadcast use {lemma_seq_dv_len, lemma_seq_dv_index};

        match args {
            MalType::List { tokens } => {
                assert(seq_dv(tokens@).len() == tokens@.len());
                if tokens@.len() > 0 {
                    assert(seq_dv(tokens@)[0] == tokens@[0].dv());
                }
            },
            _ => {},
        }
    }
    if pre {
        if fuel == 0 {
            Err(ReplError::RecursionLimit)
        } else {
            match eval(args, env, fuel - 1) {
                Err(e) => Err(e),
                Ok(v) => apply_norm(p, &v, env, fuel - 1),
            }
        }
    } else {
        apply_norm(p, args, env, fuel)
    }
}

/// Addition over an argument term.
pub fn add(args: &MalType, env: &mut Env, fuel: u32) -> (r: Result<MalType, ReplError>)
    requires
        old(env).wf(),
    ensures
        final(env).wf(),
        ({
            let (sr, senv) = apply_spec(Primitive::Add, args.dv(), old(env)@, fuel as nat);
            &&& final(env)@ == senv
            &&& res_dv(r) == sr
        }),
{
    apply(Primitive::Add, args, env, fuel)
}

/// Subtraction over an argument term.
pub fn sub(args: &MalType, env: &mut Env, fuel: u32) -> (r: Result<MalType, ReplError>)
    requires
        old(env).wf(),
    ensures
        final(env).wf(),
        ({
            let (sr, senv) = apply_spec(Primitive::Sub, args.dv(), old(env)@, fuel as nat);
            &&& final(env)@ == senv
            &&& res_dv(r) == sr
        }),
{
    apply(Primitive::Sub, args, env, fuel)
}

/// Multiplication over an argument term.
pub fn mult(args: &MalType, env: &mut Env, fuel: u32) -> (r: Result<MalType, ReplError>)
    requires
        old(env).wf(),
    ensures
        final(env).wf(),
        ({
            let (sr, senv) = apply_spec(Primitive::Mul, args.dv(), old(env)@, fuel as nat);
            &&& final(env)@ == senv
            &&& res_dv(r) == sr
        }),
{
    apply(Primitive::Mul, args, env, fuel)
}

/// Division over an argument term.
pub fn div(args: &MalType, env: &mut Env, fuel: u32) -> (r: Result<MalType, ReplError>)
    requires
        old(env).wf(),
    ensures
        final(env).wf(),
        ({
            let (sr, senv) = apply_spec(Primitive::Div, args.dv(), old(env)@, fuel as nat);
            &&& final(env)@ == senv
            &&& res_dv(r) == sr
        }),
{
    apply(Primitive::Div, args, env, fuel)
}

} // verus!
