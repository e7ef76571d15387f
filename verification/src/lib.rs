//! A small Lisp-dialect front end: a tokenizer, a recursive-descent reader
//! producing a term tree, a chained-scope environment, and a tree-walking
//! evaluator with two special forms (`def!`, `let*`) and four arithmetic
//! primitives, plus a printer back to canonical text.
//!
//! Every executable function is specified against a mathematical twin: the
//! token grammar, the parse, the evaluation and the printed form are all
//! defined as spec functions over `Seq<char>` and the ghost term tree.

use vstd::prelude::*;

pub mod arith;
pub mod env;
pub mod errors;
pub mod eval;
pub mod laws;
pub mod numbers;
pub mod printer;
pub mod reader;
pub mod text;
pub mod tokenizer;
pub mod types;

use crate::env::{Env, EnvV};
use crate::errors::{ErrorV, ReplError};
use crate::eval::eval_spec;
use crate::printer::print_v;
use crate::reader::{read_v, res_dv};
use crate::types::MalType;

verus! {

/// The practical nesting limit for the one non-structural evaluation path,
/// `/`'s re-evaluation of its argument term. Sane programs never come near
/// it; input that exhausts it fails rather than overrun the host stack.
pub const EVAL_FUEL: u32 = 1024;

/// What one read-eval-print cycle yields, and the environment it leaves
/// behind.
pub open spec fn rep_v(line: Seq<char>, env: EnvV) -> (Result<Seq<char>, ErrorV>, EnvV) {
    match read_v(line) {
        Err(e) => (Err(e), env),
        Ok(t) => {
            let (r, env1) = eval_spec(t, env, EVAL_FUEL as nat);
            match r {
                Err(e) => (Err(e), env1),
                Ok(v) => (Ok(print_v(v).push('\n')), env1),
            }
        },
    }
}

/// Reads the first form of one line.
fn read(arg: &str) -> (r: Result<MalType, ReplError>)
    ensures
        res_dv(r) == read_v(arg@),
{
    reader::read_string(arg)
}

/// Runs read, eval and print on one line; success appends one trailing
/// newline. The environment is an explicitly owned value threaded through
/// every call, so independent sessions never share scope.
pub fn rep(line: &str, env: &mut Env) -> (r: Result<String, ReplError>)
    requires
        old(env).wf(),
    ensures
        final(env).wf(),
        ({
            let (sr, senv) = rep_v(line@, old(env)@);
            &&& final(env)@ == senv
            &&& match r {
                Ok(s) => sr == Ok::<Seq<char>, ErrorV>(s@),
                Err(e) => sr == Err::<Seq<char>, ErrorV>(e.dv()),
            }
        }),
{
    let t = match read(line) {
        Ok(t) => t,
        Err(e) => {
            return Err(e);
        },
    };
    let v = match eval::eval(&t, env, EVAL_FUEL) {
        Ok(v) => v,
        Err(e) => {
            return Err(e);
        },
    };
    Ok(printer::print(&v))
}

} // verus!
