use racoon::compiler::syntax::err::LexError;
use racoon::compiler::syntax::lexer::{Lexer, StringIter};
use racoon::compiler::syntax::span::{Pos, Span};
use racoon::compiler::syntax::token::{Token, TokenType};

fn lexer(src: &str) -> Lexer {
    Lexer::new(src.chars().collect())
}

fn kinds(src: &str) -> Vec<String> {
    let mut lexer = lexer(src);
    let mut out = Vec::new();
    while let Some(token) = lexer.next() {
        out.push(format!("{:?}", token.token_type));
    }
    out
}

fn all_kinds(src: &str) -> Vec<String> {
    let mut lexer = lexer(src);
    let mut out = Vec::new();
    while let Some(token) = lexer.next_token() {
        out.push(format!("{:?}", token.token_type));
    }
    out
}

fn pos(line: usize, column: usize, index: usize) -> Pos {
    Pos { line, column, index }
}

fn only(src: &str) -> Token {
    let mut lexer = lexer(src);
    let token = lexer.next_token().unwrap();
    assert!(lexer.next_token().is_none());
    token
}

#[test]
fn empty_source_has_no_token() {
    assert!(lexer("").next_token().is_none());
    assert!(lexer("  \t\n ").next_token().is_none());
}

#[test]
fn keywords_and_identifiers() {
    assert_eq!(
        kinds("const int void break continue if else while return"),
        vec![
            "ConstKw", "IntTy", "VoidTy", "BreakKw", "ContinueKw", "IfKw", "ElseKw", "WhileKw",
            "ReturnKw"
        ]
    );
    assert_eq!(
        kinds("main _x i1 iff returns"),
        vec![
            "Ident(\"main\")",
            "Ident(\"_x\")",
            "Ident(\"i1\")",
            "Ident(\"iff\")",
            "Ident(\"returns\")"
        ]
    );
}

#[test]
fn decimal_octal_and_hex_numbers() {
    assert_eq!(kinds("42"), vec!["IntLiteral(42)"]);
    assert_eq!(kinds("0"), vec!["IntLiteral(0)"]);
    assert_eq!(kinds("017"), vec!["IntLiteral(15)"]);
    assert_eq!(kinds("0x1F"), vec!["IntLiteral(31)"]);
    assert_eq!(kinds("0xff"), vec!["IntLiteral(255)"]);
    assert_eq!(kinds("2147483647"), vec!["IntLiteral(2147483647)"]);
}

#[test]
fn digits_that_the_radix_lacks_start_a_new_token() {
    assert_eq!(kinds("08"), vec!["IntLiteral(0)", "IntLiteral(8)"]);
    assert_eq!(kinds("12ab"), vec!["IntLiteral(12)", "Ident(\"ab\")"]);
    assert_eq!(kinds("0x"), vec!["IntLiteral(0)"]);
}

#[test]
fn number_that_does_not_fit_is_an_error() {
    let mut lexer = lexer("2147483648 7");
    let token = lexer.next_token().unwrap();
    assert!(matches!(&token.token_type, TokenType::Invalid(e) if **e == LexError::NoCause));
    assert_eq!(token.span, Span { start: pos(0, 0, 0), end: pos(0, 11, 11) });
    assert_eq!(lexer.err, vec![LexError::NoCause]);
    let token = lexer.next_token().unwrap();
    assert_eq!(token.token_type.get_int_literal(), Some(7));
    assert!(lexer.next_token().is_none());
    assert_eq!(lexer.err.len(), 1);
}

#[test]
fn operators_and_delimiters() {
    assert_eq!(
        kinds("+ - * / % < <= > >= == != = ! && || ( ) [ ] { } , ;"),
        vec![
            "Plus", "Minus", "Mul", "Div", "Mod", "Lt", "Le", "Gt", "Ge", "Eq", "Ne", "Assign",
            "Not", "And", "Or", "LParen", "RParen", "LBracket", "RBracket", "LBrace", "RBrace",
            "Comma", "Semicolon"
        ]
    );
    assert_eq!(kinds("a<=b"), vec!["Ident(\"a\")", "Le", "Ident(\"b\")"]);
    assert_eq!(kinds("==="), vec!["Eq", "Assign"]);
}

#[test]
fn single_bar_ampersand_and_caret_are_errors() {
    assert_eq!(kinds("| x"), vec!["Invalid(NoCause)", "Ident(\"x\")"]);
    assert_eq!(kinds("& x"), vec!["Invalid(NoCause)", "Ident(\"x\")"]);
    assert_eq!(kinds("^ x"), vec!["Invalid(NoCause)", "Ident(\"x\")"]);
}

#[test]
fn text_that_is_no_token_is_skipped_up_to_white_space() {
    let mut lexer = lexer("@#$ x @");
    let token = lexer.next_token().unwrap();
    assert!(matches!(token.token_type, TokenType::Invalid(_)));
    assert_eq!(token.span, Span { start: pos(0, 0, 0), end: pos(0, 4, 4) });
    let token = lexer.next_token().unwrap();
    assert_eq!(token.token_type.own_ident_name(), Some("x".to_string()));
    let token = lexer.next_token().unwrap();
    assert!(matches!(token.token_type, TokenType::Invalid(_)));
    assert_eq!(token.span, Span { start: pos(0, 6, 6), end: Pos::max() });
    assert!(lexer.next_token().is_none());
    assert_eq!(lexer.err, vec![LexError::NoCause, LexError::NoCause]);
}

#[test]
fn comments_are_tokens_of_their_own() {
    assert_eq!(all_kinds("/* a*b */x"), vec!["Comment(\" a*b \")", "Ident(\"x\")"]);
    assert_eq!(all_kinds("/***/"), vec!["Comment(\"*\")"]);
    assert_eq!(all_kinds("// note\nx"), vec!["Comment(\" note\")", "Ident(\"x\")"]);
    assert_eq!(all_kinds("1 // end"), vec!["IntLiteral(1)", "Comment(\" end\")"]);
}

#[test]
fn next_leaves_comments_out() {
    assert_eq!(kinds("a /* b */ c // d\n e"), vec!["Ident(\"a\")", "Ident(\"c\")", "Ident(\"e\")"]);
    assert!(kinds("// only a comment").is_empty());
}

#[test]
fn comment_span_starts_behind_the_opener() {
    let token = only("/* x */");
    assert_eq!(token.span, Span { start: pos(0, 2, 2), end: pos(0, 7, 7) });
    let token = only("//x");
    assert_eq!(token.span, Span { start: pos(0, 2, 2), end: Pos::max() });
}

#[test]
fn block_comment_that_is_not_closed_is_an_error() {
    let mut lexer = lexer("x /* never");
    assert!(lexer.next_token().is_some());
    let token = lexer.next_token().unwrap();
    assert!(matches!(token.token_type, TokenType::Invalid(_)));
    assert_eq!(token.span, Span { start: pos(0, 2, 2), end: Pos::max() });
    assert!(lexer.next_token().is_none());
    assert_eq!(lexer.err.len(), 1);
}

#[test]
fn nul_ends_the_source() {
    assert_eq!(kinds("a \0 b"), vec!["Ident(\"a\")"]);
}

#[test]
fn spans_count_lines_and_columns() {
    let mut lexer = lexer("ab\n  cd\r\nef\rgh");
    let spans: Vec<Span> = std::iter::from_fn(|| lexer.next_token()).map(|t| t.span).collect();
    assert_eq!(
        spans,
        vec![
            Span { start: pos(0, 0, 0), end: pos(0, 2, 2) },
            Span { start: pos(1, 2, 5), end: pos(1, 4, 7) },
            Span { start: pos(2, 0, 9), end: pos(2, 2, 11) },
            Span { start: pos(3, 0, 12), end: pos(3, 2, 14) },
        ]
    );
}

#[test]
fn string_iter_yields_the_source_and_a_nul() {
    let mut iter = StringIter::new(vec!['a', '\r', '\n', 'b']);
    assert_eq!(iter.peek(), Some((pos(0, 0, 0), 'a')));
    assert_eq!(iter.next(), Some((pos(0, 0, 0), 'a')));
    assert_eq!(iter.next(), Some((pos(0, 1, 1), '\r')));
    assert_eq!(iter.next(), Some((pos(1, 0, 2), '\n')));
    assert_eq!(iter.next(), Some((pos(1, 0, 3), 'b')));
    assert_eq!(iter.next(), Some((pos(1, 1, 4), '\0')));
    assert_eq!(iter.next(), None);
    assert_eq!(iter.peek(), None);
}

#[test]
fn token_accessors() {
    assert_eq!(TokenType::Ident("x".to_string()).own_ident_name(), Some("x".to_string()));
    assert_eq!(TokenType::IntLiteral(3).own_ident_name(), None);
    assert_eq!(TokenType::IntLiteral(3).get_int_literal(), Some(3));
    assert_eq!(TokenType::Plus.get_int_literal(), None);
}

#[test]
fn a_small_program() {
    assert_eq!(
        kinds("int main() { return 0x10 + f(a, 2); }"),
        vec![
            "IntTy",
            "Ident(\"main\")",
            "LParen",
            "RParen",
            "LBrace",
            "ReturnKw",
            "IntLiteral(16)",
            "Plus",
            "Ident(\"f\")",
            "LParen",
            "Ident(\"a\")",
            "Comma",
            "IntLiteral(2)",
            "RParen",
            "Semicolon",
            "RBrace"
        ]
    );
}

#[test]
fn unicode_white_space_separates_tokens() {
    assert_eq!(kinds("a\u{a0}b\u{2003}c\u{3000}d"), vec![
        "Ident(\"a\")",
        "Ident(\"b\")",
        "Ident(\"c\")",
        "Ident(\"d\")"
    ]);
    assert_eq!(kinds("a\u{200b}"), vec!["Ident(\"a\")", "Invalid(NoCause)"]);
}

#[test]
fn identifiers_go_on_over_letters_and_digits_beyond_ascii() {
    assert_eq!(kinds("x\u{e9}1 y"), vec!["Ident(\"x\u{e9}1\")", "Ident(\"y\")"]);
    assert_eq!(kinds("a-b"), vec!["Ident(\"a\")", "Minus", "Ident(\"b\")"]);
}

#[test]
fn white_space_is_the_listed_code_points() {
    let listed = |c: char| {
        let u = c as u32;
        (0x09..=0x0d).contains(&u)
            || u == 0x20
            || u == 0x85
            || u == 0xa0
            || u == 0x1680
            || (0x2000..=0x200a).contains(&u)
            || u == 0x2028
            || u == 0x2029
            || u == 0x202f
            || u == 0x205f
            || u == 0x3000
    };
    for c in '\0'..=char::MAX {
        assert_eq!(c.is_whitespace(), listed(c), "U+{:04X}", c as u32);
    }
}

#[test]
fn ascii_letters_and_digits_are_the_ascii_alphanumerics() {
    for c in '\0'..='\u{7f}' {
        let listed = c.is_ascii_lowercase() || c.is_ascii_uppercase() || c.is_ascii_digit();
        assert_eq!(c.is_alphanumeric(), listed, "U+{:04X}", c as u32);
    }
}

#[test]
fn digits_of_a_radix_are_the_listed_characters() {
    let value = |c: char| -> u32 {
        match c {
            '0'..='9' => c as u32 - '0' as u32,
            'a'..='z' => c as u32 - 'a' as u32 + 10,
            'A'..='Z' => c as u32 - 'A' as u32 + 10,
            _ => 36,
        }
    };
    for radix in [8u32, 10, 16] {
        for c in '\0'..='\u{ffff}' {
            assert_eq!(c.is_digit(radix), value(c) < radix, "U+{:04X}", c as u32);
        }
    }
}
