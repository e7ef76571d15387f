//! The term tree: the tagged union that represents every parsed and every
//! evaluated value, together with its ghost deep view `TermV` and the size
//! measure used to show that evaluation and printing terminate.

use vstd::prelude::*;

verus! {

/// The four built-in arithmetic callables. Terms store one of these tags
/// instead of a function pointer, so the term tree stays pure data.
#[derive(Clone, Copy, Debug, PartialEq, Eq, Structural)]
pub enum Primitive {
    Add,
    Sub,
    Mul,
    Div,
}

/// The tagged union for every parsed and evaluated value.
///
/// `List`, `Vector` and `HashMap` exclusively own their children; the reader
/// only ever builds new trees top-down, so the tree is acyclic and unshared.
/// A `HashMap` stores its items as a flat sequence: no key/value pairing is
/// enforced.
#[derive(Debug, PartialEq)]
pub enum MalType {
    String(String),
    Number(i128),
    Symbol(String),
    Bool(bool),
    Nil,
    List { tokens: Vec<MalType> },
    Vector { tokens: Vec<MalType> },
    HashMap { tokens: Vec<MalType> },
    Function(Primitive),
}

/// Which bracketed collection a reader call is building.
#[derive(Clone, Copy, Debug)]
pub enum MalCollection {
    List,
    Vector,
    HashMap,
}

/// The ghost deep view of a term: strings become `Seq<char>`, vectors of
/// children become `Seq<TermV>`. Every contract in the crate speaks of this
/// type rather than of the executable one.
pub ghost enum TermV {
    Str(Seq<char>),
    Num(i128),
    Sym(Seq<char>),
    Bool(bool),
    Nil,
    List(Seq<TermV>),
    Vector(Seq<TermV>),
    HashMap(Seq<TermV>),
    Function(Primitive),
}

impl MalType {
    /// The deep view of this term.
    pub open spec fn dv(self) -> TermV
        decreases self, 0int,
    {
        match self {
            MalType::String(s) => TermV::Str(s@),
            MalType::Number(n) => TermV::Num(n),
            MalType::Symbol(s) => TermV::Sym(s@),
            MalType::Bool(b) => TermV::Bool(b),
            MalType::Nil => TermV::Nil,
            MalType::List { tokens } => TermV::List(seq_dv_rec(tokens@, 0)),
            MalType::Vector { tokens } => TermV::Vector(seq_dv_rec(tokens@, 0)),
            MalType::HashMap { tokens } => TermV::HashMap(seq_dv_rec(tokens@, 0)),
            MalType::Function(p) => TermV::Function(p),
        }
    }
}

impl View for MalType {
    type V = TermV;

    open spec fn view(&self) -> TermV {
        self.dv()
    }
}

/// The deep views of the elements of `s` from index `i` on.
pub open spec fn seq_dv_rec(s: Seq<MalType>, i: int) -> Seq<TermV>
    decreases s, s.len() - i,
{
    if 0 <= i < s.len() {
        seq![s[i].dv()] + seq_dv_rec(s, i + 1)
    } else {
        Seq::empty()
    }
}

/// The deep view of a sequence of terms, element by element.
pub open spec fn seq_dv(s: Seq<MalType>) -> Seq<TermV> {
    seq_dv_rec(s, 0)
}

/// `seq_dv` keeps the length of the sequence.
pub broadcast proof fn lemma_seq_dv_len(s: Seq<MalType>)
    ensures
        (#[trigger] seq_dv(s)).len() == s.len(),
{
    lemma_seq_dv_rec(s, 0);
}

/// `seq_dv` maps each element to its deep view.
pub broadcast proof fn lemma_seq_dv_index(s: Seq<MalType>, k: int)
    requires
        0 <= k < s.len(),
    ensures
        #[trigger] seq_dv(s)[k] == s[k].dv(),
{
    lemma_seq_dv_rec(s, 0);
}

/// Pointwise characterization of `seq_dv_rec`.
pub proof fn lemma_seq_dv_rec(s: Seq<MalType>, i: int)
    requires
        0 <= i <= s.len(),
    ensures
        seq_dv_rec(s, i).len() == s.len() - i,
        forall|k: int| i <= k < s.len() ==> seq_dv_rec(s, i)[k - i] == s[k].dv(),
    decreases s.len() - i,
{
    if i < s.len() {
        lemma_seq_dv_rec(s, i + 1);
    }
}

/// Node count of a term tree; always at least one. The measure that shows
/// the evaluator and the printer terminate.
pub open spec fn term_size(t: TermV) -> nat
    decreases t, 0int,
{
    match t {
        TermV::List(s) => 1 + seq_size_from(s, 0),
        TermV::Vector(s) => 1 + seq_size_from(s, 0),
        TermV::HashMap(s) => 1 + seq_size_from(s, 0),
        _ => 1,
    }
}

/// Total node count of the elements of `s` from index `i` on.
pub open spec fn seq_size_from(s: Seq<TermV>, i: int) -> nat
    decreases s, s.len() - i,
{
    if 0 <= i < s.len() {
        term_size(s[i]) + seq_size_from(s, i + 1)
    } else {
        0
    }
}

/// Every term has at least one node.
pub proof fn lemma_term_size_pos(t: TermV)
    ensures
        term_size(t) >= 1,
{
}

/// An element's size is bounded by the size of any suffix that contains it.
pub proof fn lemma_seq_size_elem(s: Seq<TermV>, i: int, j: int)
    requires
        0 <= i <= j < s.len(),
    ensures
        term_size(s[j]) <= seq_size_from(s, i),
    decreases j - i,
{
    if i < j {
        lemma_seq_size_elem(s, i + 1, j);
    }
}

/// The kind of a term, as error messages name it.
pub open spec fn kind_v(t: TermV) -> Seq<char> {
    match t {
        TermV::Str(_) => "string"@,
        TermV::Num(_) => "number"@,
        TermV::Sym(_) => "symbol"@,
        TermV::Bool(_) => "bool"@,
        TermV::Nil => "nil"@,
        TermV::List(_) => "list"@,
        TermV::Vector(_) => "vector"@,
        TermV::HashMap(_) => "hashmap"@,
        TermV::Function(_) => "function"@,
    }
}

/// `seq_size_from` looks only at the suffix it is given.
pub proof fn lemma_seq_size_skip(s: Seq<TermV>, k: int, j: int)
    requires
        0 <= k,
        0 <= j,
        k + j <= s.len(),
    ensures
        seq_size_from(s.skip(k), j) == seq_size_from(s, k + j),
    decreases s.len() - k - j,
{
    if k + j < s.len() {
        assert(s.skip(k)[j] == s[k + j]);
        lemma_seq_size_skip(s, k, j + 1);
    }
}

impl MalType {
    /// The kind of this term, as error messages name it.
    pub fn kind_name(&self) -> (r: String)
        ensures
            r@ == kind_v(self.dv()),
    {
        match self {
            MalType::String(_) => "string".to_owned(),
            MalType::Number(_) => "number".to_owned(),
            MalType::Symbol(_) => "symbol".to_owned(),
            MalType::Bool(_) => "bool".to_owned(),
            MalType::Nil => "nil".to_owned(),
            MalType::List { tokens: _ } => "list".to_owned(),
            MalType::Vector { tokens: _ } => "vector".to_owned(),
            MalType::HashMap { tokens: _ } => "hashmap".to_owned(),
            MalType::Function(_) => "function".to_owned(),
        }
    }

    /// Deep copy; terms are value-copied when stored in the environment or
    /// returned from evaluation.
    pub fn duplicate(&self) -> (r: MalType)
        ensures
            r.dv() == self.dv(),
        decreases *self,
    {
        match self {
            MalType::String(s) => MalType::String(s.clone()),
            MalType::Number(n) => MalType::Number(*n),
            MalType::Symbol(s) => MalType::Symbol(s.clone()),
            MalType::Bool(b) => MalType::Bool(*b),
            MalType::Nil => MalType::Nil,
            MalType::List { tokens } => MalType::List { tokens: duplicate_vec(tokens) },
            MalType::Vector { tokens } => MalType::Vector { tokens: duplicate_vec(tokens) },
            MalType::HashMap { tokens } => MalType::HashMap { tokens: duplicate_vec(tokens) },
            MalType::Function(p) => MalType::Function(*p),
        }
    }
}

/// Deep copy of a vector of terms.
fn duplicate_vec(ts: &Vec<MalType>) -> (r: Vec<MalType>)
    ensures
        seq_dv(r@) == seq_dv(ts@),
    decreases ts@,
{
    let mut out: Vec<MalType> = Vec::new();
    let mut i: usize = 0;
    while i < ts.len()
        invariant
            i <= ts@.len(),
            out@.len() == i,
            forall|k: int| 0 <= k < i ==> out@[k].dv() == ts@[k].dv(),
        decreases ts@.len() - i,
    {
        proof {
            assert(decreases_to!(ts@ => ts@[i as int]));
        }
        out.push(ts[i].duplicate());
        i = i + 1;
    }
    proof {
        broadcast use {lemma_seq_dv_len, lemma_seq_dv_index};

        assert(seq_dv(out@) =~= seq_dv(ts@));
    }
    out
}

} // verus!
