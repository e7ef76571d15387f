//! Tokenizer, reader and printer behaviour on concrete inputs.

use mal_core::errors::ReplError;
use mal_core::printer::print;
use mal_core::reader::{read_form, read_string, Reader};
use mal_core::tokenizer::tokenize;
use mal_core::types::MalType;

#[test]
fn reader_cursor_peeks_then_consumes() {
    let mut r = Reader::new(vec!["(".to_owned(), ")".to_owned()]);
    assert_eq!(r.peek(), Some("(".to_owned()));
    assert_eq!(r.next(), Some("(".to_owned()));
    assert_eq!(r.next(), Some(")".to_owned()));
    assert_eq!(r.next(), None);
    assert_eq!(r.peek(), None);
}

#[test]
fn read_form_reads_one_form_at_a_time() {
    let mut r = Reader::new(tokenize("1 2"));
    assert_eq!(read_form(&mut r), Ok(MalType::Number(1)));
    assert_eq!(read_form(&mut r), Ok(MalType::Number(2)));
    assert_eq!(read_form(&mut r), Err(ReplError::Eof));
}

#[test]
fn tokenize_strips_whitespace_and_nests() {
    let toks = tokenize("(+ 1 (* 2 3))");
    let expect = vec!["(", "+", "1", "(", "*", "2", "3", ")", ")"];
    assert_eq!(toks.len(), expect.len());
    for (t, e) in toks.iter().zip(expect.iter()) {
        assert_eq!(t, e);
    }
}

#[test]
fn tokenize_drops_comments_and_commas() {
    let toks = tokenize("1, 2 ; trailing words");
    assert_eq!(toks, vec!["1".to_string(), "2".to_string()]);
}

#[test]
fn tokenize_two_char_splice_token() {
    let toks = tokenize("~@x ~y");
    assert_eq!(
        toks,
        vec!["~@".to_string(), "x".to_string(), "~".to_string(), "y".to_string()]
    );
}

#[test]
fn round_trip_number_literals() {
    for text in [
        "0",
        "42",
        "-7",
        "170141183460469231731687303715884105727",
        "-170141183460469231731687303715884105728",
    ] {
        let term = read_string(text).unwrap();
        assert_eq!(print(&term), format!("{}\n", text));
    }
}

#[test]
fn round_trip_keywords_and_symbols() {
    for text in ["true", "false", "nil", "foo", "x", "a@b"] {
        let term = read_string(text).unwrap();
        assert_eq!(print(&term), format!("{}\n", text));
    }
}

#[test]
fn number_too_wide_reads_as_symbol() {
    let term = read_string("170141183460469231731687303715884105728").unwrap();
    assert!(matches!(term, MalType::Symbol(_)));
    assert_eq!(
        print(&term),
        "170141183460469231731687303715884105728\n"
    );
}

#[test]
fn plus_sign_literal_prints_canonically() {
    let term = read_string("+5").unwrap();
    assert_eq!(term, MalType::Number(5));
    assert_eq!(print(&term), "5\n");
}

#[test]
fn quote_sugar_equals_spelled_out_form() {
    assert_eq!(read_string("'x").unwrap(), read_string("(quote x)").unwrap());
}

#[test]
fn reader_sugar_expands_to_canonical_lists() {
    assert_eq!(print(&read_string("'x").unwrap()), "(quote x)\n");
    assert_eq!(print(&read_string("`x").unwrap()), "(quasiquote x)\n");
    assert_eq!(print(&read_string("~x").unwrap()), "(unquote x)\n");
    assert_eq!(print(&read_string("~@x").unwrap()), "(splice-unquote x)\n");
    assert_eq!(print(&read_string("@x").unwrap()), "(deref x)\n");
    assert_eq!(print(&read_string("^{1} x").unwrap()), "(with-meta x {1})\n");
}

#[test]
fn meta_without_arguments_fails() {
    assert_eq!(
        read_string("^"),
        Err(ReplError::Arguments("^".to_owned()))
    );
    assert_eq!(
        read_string("^{1}"),
        Err(ReplError::Arguments("^".to_owned()))
    );
}

#[test]
fn unterminated_list_fails_with_expected_closer() {
    assert_eq!(read_string("(1 2"), Err(ReplError::Unclosed(')')));
    assert_eq!(read_string("[1 2"), Err(ReplError::Unclosed(']')));
    assert_eq!(read_string("{1 2"), Err(ReplError::Unclosed('}')));
}

#[test]
fn unterminated_string_fails() {
    assert_eq!(read_string("\"abc"), Err(ReplError::Unclosed('"')));
    assert_eq!(read_string("\""), Err(ReplError::Unclosed('"')));
    assert_eq!(read_string("\"a\\\""), Err(ReplError::Unclosed('"')));
}

#[test]
fn empty_input_fails_with_end_of_input() {
    assert_eq!(read_string(""), Err(ReplError::Eof));
    assert_eq!(read_string("   , ; only noise"), Err(ReplError::Eof));
}

#[test]
fn string_escapes_decode_in_order() {
    let term = read_string("\"a\\nb\"").unwrap();
    assert_eq!(print(&term), "\"a\nb\"\n");
    let term = read_string("\"a\\\"b\"").unwrap();
    assert_eq!(print(&term), "\"a\"b\"\n");
    let term = read_string("\"a\\\\b\"").unwrap();
    assert_eq!(print(&term), "\"a\\b\"\n");
}

#[test]
fn collections_read_and_print() {
    assert_eq!(print(&read_string("(1 2 3)").unwrap()), "(1 2 3)\n");
    assert_eq!(print(&read_string("[1 2 3]").unwrap()), "[1 2 3]\n");
    assert_eq!(print(&read_string("{1 2}").unwrap()), "{1 2}\n");
    assert_eq!(print(&read_string("()").unwrap()), "()\n");
}

#[test]
fn error_messages_read_as_documented() {
    assert_eq!(ReplError::Unclosed(')').message(), "Unclosed ')'.");
    assert_eq!(ReplError::Eof.message(), "Found EOF.");
    assert_eq!(
        ReplError::Arguments("*".to_owned()).message(),
        "Missing parameters for '*' operation."
    );
    assert_eq!(
        ReplError::Type { expected: "symbol".to_owned(), received: "number".to_owned() }
            .message(),
        "Invalid type. Expected symbol, received number."
    );
    assert_eq!(
        ReplError::UnknownSymbol("y".to_owned()).message(),
        "y not found."
    );
    assert_eq!(ReplError::ZeroDivision.message(), "Tried to divide by 0.");
    assert_eq!(
        ReplError::OddLet.message(),
        "Odd number of arguments passed for let*."
    );
}
