//! The printer: a term tree back to canonical text. Collections print their
//! children joined by single spaces between brackets; symbols and strings
//! print verbatim; numbers print in decimal.

use vstd::prelude::*;
use vstd::string::StringExecFns;
use vstd::string::StrSliceExecFns;

use crate::numbers::{int_seq, push_i128};
use crate::text::push_char;
use crate::types::{
    lemma_seq_dv_index, lemma_seq_dv_len, lemma_seq_size_elem, lemma_term_size_pos, seq_dv,
    seq_size_from, term_size, MalType, TermV,
};

verus! {

/// The canonical text of a term.
pub open spec fn print_v(t: TermV) -> Seq<char>
    decreases term_size(t), 0int,
{
    match t {
        TermV::Sym(s) => s,
        TermV::Str(s) => s,
        TermV::Num(n) => int_seq(n as int),
        TermV::Bool(b) => if b {
            "true"@
        } else {
            "false"@
        },
        TermV::Nil => "nil"@,
        TermV::List(s) => seq!['('] + print_items(s, 0, false) + seq![')'],
        TermV::Vector(s) => seq!['['] + print_items(s, 0, false) + seq![']'],
        TermV::HashMap(s) => seq!['{'] + print_items(s, 0, false) + seq!['}'],
        TermV::Function(_) => "#<function>"@,
    }
}

/// The children of a collection from index `i` on, joined by single spaces;
/// a child whose printed form is empty is skipped. `started` records whether
/// some child has already been printed.
pub open spec fn print_items(s: Seq<TermV>, i: int, started: bool) -> Seq<char>
    decreases seq_size_from(s, i), 1int,
{
    if i < 0 || i >= s.len() {
        Seq::empty()
    } else {
        proof {
            lemma_seq_size_elem(s, i, i);
            lemma_term_size_pos(s[i]);
        }
        let p = print_v(s[i]);
        if p.len() == 0 {
            print_items(s, i + 1, started)
        } else if started {
            seq![' '] + p + print_items(s, i + 1, true)
        } else {
            p + print_items(s, i + 1, true)
        }
    }
}

/// Prints the children of one collection between its brackets.
#[verifier::loop_isolation(false)]
fn print_collection(tokens: &Vec<MalType>, open: char, close: char) -> (r: String)
    ensures
        r@ == seq![open] + print_items(seq_dv(tokens@), 0, false) + seq![close],
    decreases seq_size_from(seq_dv(tokens@), 0), 1int,
{
    let ghost sdv = seq_dv(tokens@);
    let mut out = String::new();
    push_char(&mut out, open);
    let mut started = false;
    let mut i: usize = 0;
    proof {
        broadcast use {lemma_seq_dv_len, lemma_seq_dv_index};

        assert(out@ =~= seq![open]);
    }
    while i < tokens.len()
        invariant
            i <= tokens@.len(),
            seq![open] + print_items(sdv, 0, false) =~= out@ + print_items(
                sdv,
                i as int,
                started,
            ),
        decreases tokens@.len() - i,
    {
        proof {
            lemma_seq_size_elem(sdv, 0, i as int);
        }
        let p = print_str(&tokens[i]);
        let ghost pre = out@;
        if !p.as_str().is_empty() {
            if started {
                push_char(&mut out, ' ');
            }
            out.append(p.as_str());
            proof {
                if started {
                    assert(pre + (seq![' '] + p@ + print_items(sdv, i + 1, true)) =~= (pre.push(
                        ' ',
                    ) + p@) + print_items(sdv, i + 1, true));
                } else {
                    assert(pre + (p@ + print_items(sdv, i + 1, true)) =~= (pre + p@)
                        + print_items(sdv, i + 1, true));
                }
            }
            started = true;
        }
        i = i + 1;
    }
    push_char(&mut out, close);
    proof {
        assert(print_items(sdv, tokens@.len() as int, started) =~= Seq::<char>::empty());
        assert((seq![open] + print_items(sdv, 0, false)).push(close) =~= seq![open] + print_items(
            sdv,
            0,
            false,
        ) + seq![close]);
    }
    out
}

/// The canonical text of one term.
pub fn print_str(token: &MalType) -> (r: String)
    ensures
        r@ == print_v(token.dv()),
    decreases term_size(token.dv()), 0int,
{
    match token {
        MalType::Symbol(s) => s.clone(),
        MalType::String(s) => s.clone(),
        MalType::Number(n) => {
            let mut out = String::new();
            push_i128(&mut out, *n);
            proof {
                assert(Seq::<char>::empty() + int_seq(*n as int) =~= int_seq(*n as int));
            }
            out
        },
        MalType::Bool(b) => if *b {
            "true".to_owned()
        } else {
            "false".to_owned()
        },
        MalType::Nil => "nil".to_owned(),
        MalType::List { tokens } => print_collection(tokens, '(', ')'),
        MalType::Vector { tokens } => print_collection(tokens, '[', ']'),
        MalType::HashMap { tokens } => print_collection(tokens, '{', '}'),
        MalType::Function(_) => "#<function>".to_owned(),
    }
}

/// The canonical text of one term with the trailing newline `rep` appends.
pub fn print(arg: &MalType) -> (r: String)
    ensures
        r@ == print_v(arg.dv()).push('\n'),
{
    let mut out = print_str(arg);
    push_char(&mut out, '\n');
    out
}

} // verus!
