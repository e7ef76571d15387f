//! Laws that relate the reader and the printer: for literal number, bool,
//! nil and plain symbol tokens, reading the token and printing the result
//! gives the token back unchanged.

use vstd::prelude::*;

use crate::errors::ErrorV;
use crate::numbers::{
    all_digits, digit_char, digit_val, digits_value, int_seq, int_token_value, is_digit, nat_seq,
    parse_int_v,
};
use crate::printer::print_v;
use crate::reader::{first_char, parse_atom_v, parse_form, read_v};
use crate::tokenizer::{
    atom_end, is_atom_break_v, is_sep_v, is_special_v, token_end, token_end_clamped, tokenize_v,
};
use crate::types::TermV;

verus! {

/// A digit character is a digit and carries its value.
proof fn lemma_digit_char_val(d: int)
    requires
        0 <= d < 10,
    ensures
        is_digit(digit_char(d)),
        digit_val(digit_char(d)) == d,
{
}

/// The decimal text of a non-negative value is a non-empty digit run.
proof fn lemma_nat_seq_digits(v: int)
    requires
        v >= 0,
    ensures
        nat_seq(v).len() >= 1,
        all_digits(nat_seq(v)),
    decreases v,
{
    if v < 10 {
        lemma_digit_char_val(v);
        assert(nat_seq(v) =~= seq![digit_char(v)]);
    } else {
        lemma_nat_seq_digits(v / 10);
        lemma_digit_char_val(v % 10);
        assert(nat_seq(v) =~= nat_seq(v / 10).push(digit_char(v % 10)));
        assert(forall|i: int|
            0 <= i < nat_seq(v).len() ==> is_digit(#[trigger] nat_seq(v)[i]));
    }
}

/// The digit run of a non-negative value reads back as that value.
proof fn lemma_digits_value_nat_seq(v: int)
    requires
        v >= 0,
    ensures
        digits_value(nat_seq(v)) == v,
    decreases v,
{
    if v < 10 {
        lemma_digit_char_val(v);
        assert(nat_seq(v).last() == digit_char(v));
        assert(nat_seq(v).drop_last() =~= Seq::<char>::empty());
        assert(digits_value(Seq::<char>::empty()) == 0);
    } else {
        lemma_digits_value_nat_seq(v / 10);
        lemma_digit_char_val(v % 10);
        assert(nat_seq(v).last() == digit_char(v % 10));
        assert(nat_seq(v).drop_last() =~= nat_seq(v / 10));
        assert(digits_value(nat_seq(v)) == digits_value(nat_seq(v / 10)) * 10 + digit_val(
            digit_char(v % 10),
        ));
        assert(v / 10 * 10 + v % 10 == v);
    }
}

/// The decimal text of any 128-bit value parses back to that value.
pub proof fn lemma_parse_int_seq(v: i128)
    ensures
        parse_int_v(int_seq(v as int)) == Some(v),
{
    if v < 0 {
        let m = -(v as int);
        lemma_nat_seq_digits(m);
        lemma_digits_value_nat_seq(m);
        let text = int_seq(v as int);
        assert(text =~= seq!['-'] + nat_seq(m));
        assert(text[0] == '-');
        assert(text.skip(1) =~= nat_seq(m));
        assert(int_token_value(text) == Some(-digits_value(nat_seq(m))));
    } else {
        let m = v as int;
        lemma_nat_seq_digits(m);
        lemma_digits_value_nat_seq(m);
        let text = int_seq(v as int);
        assert(text =~= nat_seq(m));
        assert(is_digit(text[0]));
        assert(text[0] != '+' && text[0] != '-');
        assert(int_token_value(text) == Some(digits_value(nat_seq(m))));
    }
}

/// An all-plain-character run scans to the end of the text.
proof fn lemma_atom_end_all(s: Seq<char>, j: int)
    requires
        0 <= j <= s.len(),
        forall|k: int| j <= k < s.len() ==> !is_atom_break_v(#[trigger] s[k]),
    ensures
        atom_end(s, j) == s.len(),
    decreases s.len() - j,
{
    if j < s.len() {
        lemma_atom_end_all(s, j + 1);
    }
}

/// A non-empty text of plain atom characters, not led by a special, quote,
/// comment or tilde character, is one single token.
pub proof fn lemma_tokenize_single_atom(s: Seq<char>)
    requires
        s.len() >= 1,
        forall|k: int| 0 <= k < s.len() ==> !is_atom_break_v(#[trigger] s[k]),
        !is_special_v(s[0]),
        s[0] != '"',
        s[0] != ';',
    ensures
        tokenize_v(s, 0) == seq![s],
{
    assert(!is_sep_v(s[0]));
    assert(s[0] != '~');
    lemma_atom_end_all(s, 1);
    assert(token_end(s, 0) == s.len());
    assert(token_end_clamped(s, 0) == s.len());
    assert(s.subrange(0, s.len() as int) =~= s);
    assert(tokenize_v(s, s.len() as int) =~= Seq::<Seq<char>>::empty());
    assert(tokenize_v(s, 0) =~= seq![s] + Seq::<Seq<char>>::empty());
    assert(seq![s] + Seq::<Seq<char>>::empty() =~= seq![s]);
}

/// Reading a single-atom text yields just what the token denotes.
pub proof fn lemma_read_single_atom(s: Seq<char>)
    requires
        s.len() >= 1,
        forall|k: int| 0 <= k < s.len() ==> !is_atom_break_v(#[trigger] s[k]),
        !is_special_v(s[0]),
        s[0] != '"',
        s[0] != ';',
    ensures
        read_v(s) == Ok::<TermV, ErrorV>(parse_atom_v(s)),
{
    lemma_tokenize_single_atom(s);
    let ts = seq![s];
    assert(ts[0] == s);
    assert(first_char(s) == s[0]);
    assert(parse_form(ts, 0).0 == Ok::<TermV, ErrorV>(parse_atom_v(s)));
}

/// Round trip for number literals: the canonical decimal text of any value
/// reads back as that number, and the number prints back to the same text.
pub proof fn lemma_round_trip_number(v: i128)
    ensures
        read_v(int_seq(v as int)) == Ok::<TermV, ErrorV>(TermV::Num(v)),
        print_v(TermV::Num(v)) == int_seq(v as int),
{
    let text = int_seq(v as int);
    lemma_parse_int_seq(v);
    if v < 0 {
        let m = -(v as int);
        lemma_nat_seq_digits(m);
        assert(text =~= seq!['-'] + nat_seq(m));
        assert forall|k: int| 0 <= k < text.len() implies !is_atom_break_v(
            #[trigger] text[k],
        ) by {
            if k >= 1 {
                assert(is_digit(nat_seq(m)[k - 1]));
                let c = nat_seq(m)[k - 1];
                assert(!is_atom_break_v(c));
            }
        }
        assert(!is_special_v(text[0]));
    } else {
        let m = v as int;
        lemma_nat_seq_digits(m);
        assert(text =~= nat_seq(m));
        assert forall|k: int| 0 <= k < text.len() implies !is_atom_break_v(
            #[trigger] text[k],
        ) by {
            assert(is_digit(text[k]));
        }
        assert(is_digit(text[0]));
        assert(!is_special_v(text[0]));
    }
    lemma_read_single_atom(text);
}

/// Round trip for plain symbol tokens: a non-empty atom text that does not
/// parse as a number and is not a string, keyword or sugar token reads back
/// as a symbol of exactly that text, and the symbol prints back verbatim.
pub proof fn lemma_round_trip_symbol(s: Seq<char>)
    requires
        s.len() >= 1,
        forall|k: int| 0 <= k < s.len() ==> !is_atom_break_v(#[trigger] s[k]),
        !is_special_v(s[0]),
        s[0] != '"',
        s[0] != ';',
        parse_int_v(s) is None,
        s != "false"@,
        s != "true"@,
        s != "nil"@,
    ensures
        read_v(s) == Ok::<TermV, ErrorV>(TermV::Sym(s)),
        print_v(TermV::Sym(s)) == s,
{
    lemma_read_single_atom(s);
}

/// Round trip for the literal keywords: `true`, `false` and `nil` read back
/// as the boolean and nil terms, which print back to the same text.
pub proof fn lemma_round_trip_keywords()
    ensures
        read_v("true"@) == Ok::<TermV, ErrorV>(TermV::Bool(true)),
        read_v("false"@) == Ok::<TermV, ErrorV>(TermV::Bool(false)),
        read_v("nil"@) == Ok::<TermV, ErrorV>(TermV::Nil),
        print_v(TermV::Bool(true)) == "true"@,
        print_v(TermV::Bool(false)) == "false"@,
        print_v(TermV::Nil) == "nil"@,
{
    reveal_strlit("true");
    reveal_strlit("false");
    reveal_strlit("nil");
    let t = "true"@;
    let f = "false"@;
    let n = "nil"@;
    assert(!is_digit(t[0]));
    assert(!is_digit(f[0]));
    assert(!is_digit(n[0]));
    assert(int_token_value(t) is None);
    assert(int_token_value(f) is None);
    assert(int_token_value(n) is None);
    assert forall|k: int| 0 <= k < t.len() implies !is_atom_break_v(#[trigger] t[k]) by {}
    assert forall|k: int| 0 <= k < f.len() implies !is_atom_break_v(#[trigger] f[k]) by {}
    assert forall|k: int| 0 <= k < n.len() implies !is_atom_break_v(#[trigger] n[k]) by {}
    lemma_read_single_atom(t);
    lemma_read_single_atom(f);
    lemma_read_single_atom(n);
    assert(parse_atom_v(t) == TermV::Bool(true));
    assert(parse_atom_v(f) == TermV::Bool(false));
    assert(parse_atom_v(n) == TermV::Nil);
}

} // verus!
