//! The reader: a recursive-descent parser from tokens to a term tree, with
//! one token of lookahead. Reader sugar (`'`, `` ` ``, `~`, `~@`, `@`, `^`)
//! expands into canonical list forms during parsing.

use vstd::prelude::*;
use vstd::string::StrSliceExecFns;

use crate::errors::{ErrorV, ReplError};
use crate::numbers::{parse_int, parse_int_v};
use crate::text::push_char;
use crate::tokenizer::{tokenize, tokenize_v, toks_dv};
use crate::types::{lemma_seq_dv_index, lemma_seq_dv_len, seq_dv, MalCollection, MalType, TermV};

verus! {

/// One left-to-right pass replacing each occurrence of the two characters
/// `a b` with the single character `c`.
pub open spec fn replace2(s: Seq<char>, a: char, b: char, c: char) -> Seq<char>
    decreases s.len(),
{
    if s.len() >= 2 && s[0] == a && s[1] == b {
        seq![c] + replace2(s.skip(2), a, b, c)
    } else if s.len() >= 1 {
        seq![s[0]] + replace2(s.skip(1), a, b, c)
    } else {
        Seq::empty()
    }
}

/// The escape decode of a string token: `\"`, then `\n`, then `\\`, each
/// replaced in its own pass, in that order. The order is part of the
/// documented behaviour: a literal backslash-n written `\\n` is mis-decoded
/// by the second pass, a known limitation.
pub open spec fn decode_v(s: Seq<char>) -> Seq<char> {
    replace2(replace2(replace2(s, '\\', '"', '"'), '\\', 'n', '\n'), '\\', '\\', '\\')
}

/// Whether a string token body, from index `j` on, reaches an unescaped
/// closing quote at the very end of the token.
pub open spec fn closed_from(t: Seq<char>, j: int) -> bool
    decreases t.len() - j,
{
    if j < 0 || j >= t.len() {
        false
    } else if t[j] == '"' {
        j == t.len() - 1
    } else if t[j] == '\\' {
        if j + 1 < t.len() {
            closed_from(t, j + 2)
        } else {
            false
        }
    } else {
        closed_from(t, j + 1)
    }
}

/// A string token that ends with an unescaped closing quote.
pub open spec fn string_token_closed(t: Seq<char>) -> bool {
    t.len() >= 1 && t[0] == '"' && closed_from(t, 1)
}

/// What one token, in atom position, denotes: a number if it parses as one,
/// a string if it begins with a quote, a keyword literal, else a symbol.
pub open spec fn parse_atom_v(t: Seq<char>) -> TermV {
    match parse_int_v(t) {
        Some(n) => TermV::Num(n),
        None => if t.len() > 0 && t[0] == '"' {
            TermV::Str(decode_v(t))
        } else if t == "false"@ {
            TermV::Bool(false)
        } else if t == "true"@ {
            TermV::Bool(true)
        } else if t == "nil"@ {
            TermV::Nil
        } else {
            TermV::Sym(t)
        },
    }
}

/// The first character a form dispatch looks at: the first character of the
/// token, or NUL for an empty token.
pub open spec fn first_char(t: Seq<char>) -> char {
    if t.len() > 0 {
        t[0]
    } else {
        '\u{0}'
    }
}

/// What parsing one form from `ts` at position `pos` yields, and the
/// position just past it. Failing leaves the position wherever the parse
/// stopped.
pub open spec fn parse_form(ts: Seq<Seq<char>>, pos: int) -> (Result<TermV, ErrorV>, int)
    decreases ts.len() - pos, 1int,
{
    if pos < 0 || pos >= ts.len() {
        (Err(ErrorV::Eof), pos)
    } else {
        let t = ts[pos];
        let c = first_char(t);
        if c == '(' {
            let (r, p) = parse_seq(ts, pos + 1, ')', Seq::empty());
            (
                match r {
                    Ok(elems) => Ok(TermV::List(elems)),
                    Err(e) => Err(e),
                },
                p,
            )
        } else if c == '[' {
            let (r, p) = parse_seq(ts, pos + 1, ']', Seq::empty());
            (
                match r {
                    Ok(elems) => Ok(TermV::Vector(elems)),
                    Err(e) => Err(e),
                },
                p,
            )
        } else if c == '{' {
            let (r, p) = parse_seq(ts, pos + 1, '}', Seq::empty());
            (
                match r {
                    Ok(elems) => Ok(TermV::HashMap(elems)),
                    Err(e) => Err(e),
                },
                p,
            )
        } else if c == '"' {
            if string_token_closed(t) {
                (Ok(parse_atom_v(t)), pos + 1)
            } else {
                (Err(ErrorV::Unclosed('"')), pos)
            }
        } else if c == '\'' {
            parse_wrapped(ts, pos, "quote"@)
        } else if c == '`' {
            parse_wrapped(ts, pos, "quasiquote"@)
        } else if c == '~' {
            if t.len() == 2 && t[1] == '@' {
                parse_wrapped(ts, pos, "splice-unquote"@)
            } else {
                parse_wrapped(ts, pos, "unquote"@)
            }
        } else if c == '@' {
            parse_wrapped(ts, pos, "deref"@)
        } else if c == '^' {
            let (r1, p1) = parse_form(ts, pos + 1);
            match r1 {
                Err(ErrorV::Eof) => (Err(ErrorV::Arguments("^"@)), p1),
                Err(e) => (Err(e), p1),
                Ok(f1) => {
                    let plo = if p1 < pos + 2 {
                        pos + 2
                    } else {
                        p1
                    };
                    let p1c = if plo > ts.len() {
                        ts.len() as int
                    } else {
                        plo
                    };
                    let (r2, p2) = parse_form(ts, p1c);
                    match r2 {
                        Err(ErrorV::Eof) => (Err(ErrorV::Arguments("^"@)), p2),
                        Err(e) => (Err(e), p2),
                        Ok(f2) => (
                            Ok(TermV::List(seq![TermV::Sym("with-meta"@), f2, f1])),
                            p2,
                        ),
                    }
                },
            }
        } else {
            (Ok(parse_atom_v(t)), pos + 1)
        }
    }
}

/// One reader-sugar expansion: consume the sugar token at `pos`, parse one
/// following form, wrap it as `(name form)`.
pub open spec fn parse_wrapped(ts: Seq<Seq<char>>, pos: int, name: Seq<char>) -> (
    Result<TermV, ErrorV>,
    int,
)
    decreases ts.len() - pos, 0int,
{
    if pos < 0 || pos >= ts.len() {
        (Err(ErrorV::Eof), pos)
    } else {
        let (r, p) = parse_form(ts, pos + 1);
        (
            match r {
                Ok(f) => Ok(TermV::List(seq![TermV::Sym(name), f])),
                Err(e) => Err(e),
            },
            p,
        )
    }
}

/// Parses forms until the closing token `closer`, accumulating onto `acc`;
/// fails with `Unclosed` if the input ends first.
pub open spec fn parse_seq(ts: Seq<Seq<char>>, pos: int, closer: char, acc: Seq<TermV>) -> (
    Result<Seq<TermV>, ErrorV>,
    int,
)
    decreases ts.len() - pos, 2int,
{
    if pos < 0 || pos >= ts.len() {
        (Err(ErrorV::Unclosed(closer)), pos)
    } else if ts[pos].len() == 1 && ts[pos][0] == closer {
        (Ok(acc), pos + 1)
    } else {
        let (r, p) = parse_form(ts, pos);
        match r {
            Err(e) => (Err(e), p),
            Ok(v) => {
                let pc = if p < pos + 1 {
                    pos + 1
                } else if p > ts.len() {
                    ts.len() as int
                } else {
                    p
                };
                parse_seq(ts, pc, closer, acc.push(v))
            },
        }
    }
}

/// The ghost view of a parse result.
pub open spec fn res_dv(r: Result<MalType, ReplError>) -> Result<TermV, ErrorV> {
    match r {
        Ok(t) => Ok(t.dv()),
        Err(e) => Err(e.dv()),
    }
}

/// What reading one line yields: the first form of its token sequence.
pub open spec fn read_v(s: Seq<char>) -> Result<TermV, ErrorV> {
    parse_form(tokenize_v(s, 0), 0).0
}

/// The token cursor the reader walks: the tokens of one line and the
/// position of the next unconsumed one.
pub struct Reader {
    tokens: Vec<String>,
    pos: usize,
}

impl Reader {
    /// The views of the tokens.
    pub closed spec fn tokens_v(&self) -> Seq<Seq<char>> {
        toks_dv(self.tokens@)
    }

    /// The current position.
    pub closed spec fn pos_v(&self) -> int {
        self.pos as int
    }

    /// The position never passes the end of the tokens.
    pub open spec fn wf(&self) -> bool {
        self.pos_v() <= self.tokens_v().len()
    }

    /// A reader at the start of `tokens`.
    pub fn new(tokens: Vec<String>) -> (r: Reader)
        ensures
            r.tokens_v() == toks_dv(tokens@),
            r.pos_v() == 0,
            r.wf(),
    {
        Reader { tokens, pos: 0 }
    }

    /// The next unconsumed token, without consuming it.
    pub fn peek(&self) -> (r: Option<String>)
        ensures
            match r {
                Some(t) => self.pos_v() < self.tokens_v().len() && t@ == self.tokens_v()[
                    self.pos_v()
                ],
                None => self.pos_v() >= self.tokens_v().len(),
            },
    {
        if self.tokens.len() > self.pos {
            Some(self.tokens[self.pos].clone())
        } else {
            None
        }
    }

    /// Consumes and returns the next token.
    pub fn next(&mut self) -> (r: Option<String>)
        ensures
            final(self).tokens_v() == old(self).tokens_v(),
            match r {
                Some(t) => old(self).pos_v() < old(self).tokens_v().len() && t@ == old(
                    self,
                ).tokens_v()[old(self).pos_v()] && final(self).pos_v() == old(self).pos_v() + 1,
                None => old(self).pos_v() >= old(self).tokens_v().len() && final(self).pos_v()
                    == old(self).pos_v(),
            },
    {
        if self.tokens.len() > self.pos {
            self.pos = self.pos + 1;
            Some(self.tokens[self.pos - 1].clone())
        } else {
            None
        }
    }
}

/// One pass of two-character escape replacement over a string.
#[verifier::loop_isolation(false)]
fn replace_pair(s: &str, a: char, b: char, c: char) -> (r: String)
    ensures
        r@ == replace2(s@, a, b, c),
{
    let n = s.unicode_len();
    let mut out = String::new();
    let mut i: usize = 0;
    proof {
        assert(s@.skip(0) =~= s@);
        assert(Seq::<char>::empty() + replace2(s@, a, b, c) =~= replace2(s@, a, b, c));
    }
    while i < n
        invariant
            i <= n,
            replace2(s@, a, b, c) =~= out@ + replace2(s@.skip(i as int), a, b, c),
        decreases n - i,
    {
        let ci = s.get_char(i);
        let ghost pre = out@;
        let ghost suf = s@.skip(i as int);
        if ci == a && i + 1 < n && s.get_char(i + 1) == b {
            push_char(&mut out, c);
            proof {
                assert(suf[0] == s@[i as int]);
                assert(suf[1] == s@[i + 1]);
                assert(suf.skip(2) =~= s@.skip(i + 2));
                assert(pre.push(c) + replace2(s@.skip(i + 2), a, b, c) =~= pre + (seq![c]
                    + replace2(suf.skip(2), a, b, c)));
            }
            i = i + 2;
        } else {
            push_char(&mut out, ci);
            proof {
                assert(suf[0] == s@[i as int]);
                assert(suf.skip(1) =~= s@.skip(i + 1));
                assert(pre.push(ci) + replace2(s@.skip(i + 1), a, b, c) =~= pre + (seq![ci]
                    + replace2(suf.skip(1), a, b, c)));
            }
            i = i + 1;
        }
    }
    proof {
        assert(s@.skip(n as int) =~= Seq::<char>::empty());
        assert(out@ + Seq::<char>::empty() =~= out@);
    }
    out
}

/// The escape decode of a string token: three replacement passes, in order.
pub fn decode(s: &str) -> (r: String)
    ensures
        r@ == decode_v(s@),
{
    let p1 = replace_pair(s, '\\', '"', '"');
    let p2 = replace_pair(p1.as_str(), '\\', 'n', '\n');
    replace_pair(p2.as_str(), '\\', '\\', '\\')
}

/// Whether the token body from `j` on reaches an unescaped closing quote at
/// the end.
fn closed_from_at(s: &str, j: usize, n: usize) -> (r: bool)
    requires
        n == s@.len(),
        j <= n,
    ensures
        r == closed_from(s@, j as int),
    decreases n - j,
{
    if j >= n {
        false
    } else {
        let c = s.get_char(j);
        if c == '"' {
            j == n - 1
        } else if c == '\\' {
            if j + 1 < n {
                closed_from_at(s, j + 2, n)
            } else {
                false
            }
        } else {
            closed_from_at(s, j + 1, n)
        }
    }
}

/// Consumes one token and yields the atom it denotes.
fn read_atom(reader: &mut Reader) -> (r: MalType)
    requires
        old(reader).wf(),
        old(reader).pos_v() < old(reader).tokens_v().len(),
    ensures
        final(reader).wf(),
        final(reader).tokens_v() == old(reader).tokens_v(),
        final(reader).pos_v() == old(reader).pos_v() + 1,
        r.dv() == parse_atom_v(old(reader).tokens_v()[old(reader).pos_v()]),
{
    let tok = reader.next().unwrap();
    match parse_int(tok.as_str()) {
        Some(n) => MalType::Number(n),
        None => {
            let n = tok.as_str().unicode_len();
            if n > 0 && tok.as_str().get_char(0) == '"' {
                MalType::String(decode(tok.as_str()))
            } else if tok == "false".to_owned() {
                MalType::Bool(false)
            } else if tok == "true".to_owned() {
                MalType::Bool(true)
            } else if tok == "nil".to_owned() {
                MalType::Nil
            } else {
                MalType::Symbol(tok)
            }
        },
    }
}

/// Parses one form starting at the reader's position.
pub fn read_form(reader: &mut Reader) -> (r: Result<MalType, ReplError>)
    requires
        old(reader).wf(),
    ensures
        final(reader).wf(),
        final(reader).tokens_v() == old(reader).tokens_v(),
        ({
            let (sr, sp) = parse_form(old(reader).tokens_v(), old(reader).pos_v());
            &&& final(reader).pos_v() == sp
            &&& res_dv(r) == sr
            &&& (r is Ok ==> old(reader).pos_v() < final(reader).pos_v())
        }),
    decreases old(reader).tokens_v().len() - old(reader).pos_v(), 1int,
{
    let tok = match reader.peek() {
        None => {
            return Err(ReplError::Eof);
        },
        Some(t) => t,
    };
    let n = tok.as_str().unicode_len();
    let c = if n == 0 {
        '\u{0}'
    } else {
        tok.as_str().get_char(0)
    };
    if c == '(' {
        read_list(reader, MalCollection::List)
    } else if c == '[' {
        read_list(reader, MalCollection::Vector)
    } else if c == '{' {
        read_list(reader, MalCollection::HashMap)
    } else if c == '"' {
        if closed_from_at(tok.as_str(), 1, n) {
            Ok(read_atom(reader))
        } else {
            Err(ReplError::Unclosed('"'))
        }
    } else if c == '\'' {
        read_wrapped(reader, "quote")
    } else if c == '`' {
        read_wrapped(reader, "quasiquote")
    } else if c == '~' {
        if n == 2 && tok.as_str().get_char(1) == '@' {
            read_wrapped(reader, "splice-unquote")
        } else {
            read_wrapped(reader, "unquote")
        }
    } else if c == '@' {
        read_wrapped(reader, "deref")
    } else if c == '^' {
        let _ = reader.next();
        let first = match read_form(reader) {
            Ok(f) => f,
            Err(ReplError::Eof) => {
                return Err(ReplError::Arguments("^".to_owned()));
            },
            Err(e) => {
                return Err(e);
            },
        };
        let second = match read_form(reader) {
            Ok(f) => f,
            Err(ReplError::Eof) => {
                return Err(ReplError::Arguments("^".to_owned()));
            },
            Err(e) => {
                return Err(e);
            },
        };
        let ghost sv = second.dv();
        let ghost fv = first.dv();
        let toks = vec![MalType::Symbol("with-meta".to_owned()), second, first];
        let ghost tv = toks@;
        let out = MalType::List { tokens: toks };
        proof {
            broadcast use {lemma_seq_dv_len, lemma_seq_dv_index};

            assert(seq_dv(tv) =~= seq![TermV::Sym("with-meta"@), sv, fv]);
            assert(out.dv() == TermV::List(seq_dv(tv)));
        }
        Ok(out)
    } else {
        Ok(read_atom(reader))
    }
}

/// Which closing token ends a bracketed collection.
pub open spec fn closer_of(kind: MalCollection) -> char {
    match kind {
        MalCollection::List => ')',
        MalCollection::Vector => ']',
        MalCollection::HashMap => '}',
    }
}

/// The collection term a bracketed read builds.
pub open spec fn collection_of(kind: MalCollection, elems: Seq<TermV>) -> TermV {
    match kind {
        MalCollection::List => TermV::List(elems),
        MalCollection::Vector => TermV::Vector(elems),
        MalCollection::HashMap => TermV::HashMap(elems),
    }
}

/// Consumes the opening token and reads sub-forms until the matching closer,
/// building the collection `kind` names.
fn read_list(reader: &mut Reader, kind: MalCollection) -> (r: Result<MalType, ReplError>)
    requires
        old(reader).wf(),
        old(reader).pos_v() < old(reader).tokens_v().len(),
    ensures
        final(reader).wf(),
        final(reader).tokens_v() == old(reader).tokens_v(),
        ({
            let (sr, sp) = parse_seq(
                old(reader).tokens_v(),
                old(reader).pos_v() + 1,
                closer_of(kind),
                Seq::empty(),
            );
            &&& final(reader).pos_v() == sp
            &&& match (r, sr) {
                (Ok(t), Ok(elems)) => t.dv() == collection_of(kind, elems),
                (Err(e), Err(se)) => e.dv() == se,
                _ => false,
            }
            &&& (r is Ok ==> old(reader).pos_v() < final(reader).pos_v())
        }),
    decreases old(reader).tokens_v().len() - old(reader).pos_v(), 0int,
{
    let _ = reader.next();
    let closer = match kind {
        MalCollection::List => ')',
        MalCollection::Vector => ']',
        MalCollection::HashMap => '}',
    };
    proof {
        assert(seq_dv(Seq::<MalType>::empty()) =~= Seq::<TermV>::empty());
    }
    match read_seq(reader, closer, Vec::new()) {
        Err(e) => Err(e),
        Ok(v) => Ok(
            match kind {
                MalCollection::List => MalType::List { tokens: v },
                MalCollection::Vector => MalType::Vector { tokens: v },
                MalCollection::HashMap => MalType::HashMap { tokens: v },
            },
        ),
    }
}

/// Consumes one sugar token, parses the form after it, and wraps the form as
/// the canonical two-element list `(name form)`.
fn read_wrapped(reader: &mut Reader, name: &str) -> (r: Result<MalType, ReplError>)
    requires
        old(reader).wf(),
        old(reader).pos_v() < old(reader).tokens_v().len(),
    ensures
        final(reader).wf(),
        final(reader).tokens_v() == old(reader).tokens_v(),
        ({
            let (sr, sp) = parse_wrapped(old(reader).tokens_v(), old(reader).pos_v(), name@);
            &&& final(reader).pos_v() == sp
            &&& res_dv(r) == sr
            &&& (r is Ok ==> old(reader).pos_v() < final(reader).pos_v())
        }),
    decreases old(reader).tokens_v().len() - old(reader).pos_v(), 0int,
{
    let _ = reader.next();
    match read_form(reader) {
        Ok(f) => {
            let ghost fv = f.dv();
            let toks = vec![MalType::Symbol(name.to_owned()), f];
            let ghost tv = toks@;
            let out = MalType::List { tokens: toks };
            proof {
                broadcast use {lemma_seq_dv_len, lemma_seq_dv_index};

                assert(seq_dv(tv) =~= seq![TermV::Sym(name@), fv]);
                assert(out.dv() == TermV::List(seq_dv(tv)));
            }
            Ok(out)
        },
        Err(e) => Err(e),
    }
}

/// Parses forms until `closer`, pushing them onto `acc`.
fn read_seq(reader: &mut Reader, closer: char, acc: Vec<MalType>) -> (r: Result<
    Vec<MalType>,
    ReplError,
>)
    requires
        old(reader).wf(),
    ensures
        final(reader).wf(),
        final(reader).tokens_v() == old(reader).tokens_v(),
        ({
            let (sr, sp) = parse_seq(
                old(reader).tokens_v(),
                old(reader).pos_v(),
                closer,
                seq_dv(acc@),
            );
            &&& final(reader).pos_v() == sp
            &&& match r {
                Ok(v) => sr == Ok::<Seq<TermV>, ErrorV>(seq_dv(v@)),
                Err(e) => sr == Err::<Seq<TermV>, ErrorV>(e.dv()),
            }
            &&& (r is Ok ==> old(reader).pos_v() < final(reader).pos_v())
        }),
    decreases old(reader).tokens_v().len() - old(reader).pos_v(), 2int,
{
    let tok = match reader.peek() {
        None => {
            return Err(ReplError::Unclosed(closer));
        },
        Some(t) => t,
    };
    let n = tok.as_str().unicode_len();
    if n == 1 && tok.as_str().get_char(0) == closer {
        let _ = reader.next();
        Ok(acc)
    } else {
        match read_form(reader) {
            Err(e) => Err(e),
            Ok(v) => {
                let mut acc2 = acc;
                let ghost accv = seq_dv(acc2@);
                acc2.push(v);
                proof {
                    broadcast use {lemma_seq_dv_len, lemma_seq_dv_index};

                    assert(seq_dv(acc2@) =~= accv.push(v.dv()));
                }
                read_seq(reader, closer, acc2)
            },
        }
    }
}

/// Tokenizes one line and parses its first form.
pub fn read_string(string: &str) -> (r: Result<MalType, ReplError>)
    ensures
        res_dv(r) == read_v(string@),
{
    let tokens = tokenize(string);
    let mut reader = Reader::new(tokens);
    read_form(&mut reader)
}

} // verus!
