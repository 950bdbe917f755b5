use rawk::lexer::{classify, LexError, Lexer};
use rawk::token::{TokenSpan, TokenType};

#[test]
fn test_string_lexing() {
    let mut l = Lexer::from_string(String::from("\"test\""));

    let tokens = l.lex_tokens().unwrap();

    assert_eq!(tokens[0].lexeme, "test");
}

#[test]
fn test_underminated_string_lexing() {
    let mut l = Lexer::from_string(String::from("\"underminated"));

    let tokens = l.lex_tokens();

    assert!(tokens.is_none());
}

#[test]
fn test_line_number_lexing() {
    let source_string = "\
        fn main() {
            int a = 2;
        }
    ";

    let mut l = Lexer::from_string(String::from(source_string));

    let mut tokens = l.lex_tokens().unwrap();

    assert_eq!(tokens.pop().unwrap().token_type, TokenType::Rightcurl);
}

#[test]
fn test_empty_source() {
    let mut l = Lexer::from_string(String::new());
    let tokens = l.lex_tokens().unwrap();
    assert!(tokens.is_empty());
}

#[test]
fn test_string_token_span_keeps_quotes() {
    let mut l = Lexer::from_string(String::from("\"ab\""));
    let tokens = l.lex_tokens().unwrap();
    assert_eq!(tokens.len(), 1);
    assert_eq!(tokens[0].token_type, TokenType::String);
    assert_eq!(tokens[0].lexeme, "ab");
    assert_eq!(tokens[0].span, TokenSpan { start: 0, end: 4 });
}

#[test]
fn test_empty_string_literal() {
    let mut l = Lexer::from_string(String::from("\"\""));
    let tokens = l.lex_tokens().unwrap();
    assert_eq!(tokens.len(), 1);
    assert_eq!(tokens[0].token_type, TokenType::String);
    assert_eq!(tokens[0].lexeme, "");
}

#[test]
fn test_unexpected_character() {
    let mut l = Lexer::from_string(String::from("a @ b"));
    let tokens = l.lex_tokens();
    assert!(tokens.is_none());
    let errors = l.errors();
    assert_eq!(errors.len(), 1);
    assert_eq!(
        errors[0],
        LexError::UnexpectedCharacter {
            ch: '@',
            span: TokenSpan { start: 2, end: 3 },
        }
    );
}

#[test]
fn test_two_character_operators() {
    let mut l = Lexer::from_string(String::from("! != = == > >= < <= * ** / && ||"));
    let tokens = l.lex_tokens().unwrap();
    let kinds: Vec<TokenType> = tokens.iter().map(|t| t.token_type).collect();
    assert_eq!(
        kinds,
        vec![
            TokenType::Bang,
            TokenType::Bangequal,
            TokenType::Equal,
            TokenType::Equalequal,
            TokenType::Greater,
            TokenType::Greaterequal,
            TokenType::Less,
            TokenType::Lessequal,
            TokenType::Star,
            TokenType::Power,
            TokenType::Slash,
            TokenType::And,
            TokenType::Or,
        ]
    );
}

#[test]
fn test_lone_ampersand_and_pipe_produce_no_token() {
    let mut l = Lexer::from_string(String::from("1 & 2 | 3"));
    let tokens = l.lex_tokens().unwrap();
    let kinds: Vec<TokenType> = tokens.iter().map(|t| t.token_type).collect();
    assert_eq!(kinds, vec![TokenType::Int, TokenType::Int, TokenType::Int]);
}

#[test]
fn test_line_comment_is_skipped() {
    let mut l = Lexer::from_string(String::from("1 // comment \" with stuff\n2"));
    let tokens = l.lex_tokens().unwrap();
    assert_eq!(tokens.len(), 2);
    assert_eq!(tokens[0].lexeme, "1");
    assert_eq!(tokens[1].lexeme, "2");
}

#[test]
fn test_number_lexing() {
    let mut l = Lexer::from_string(String::from("12 3.14 7."));
    let tokens = l.lex_tokens().unwrap();
    let kinds: Vec<TokenType> = tokens.iter().map(|t| t.token_type).collect();
    assert_eq!(
        kinds,
        vec![TokenType::Int, TokenType::Double, TokenType::Int, TokenType::Dot]
    );
    assert_eq!(tokens[0].lexeme, "12");
    assert_eq!(tokens[1].lexeme, "3.14");
    assert_eq!(tokens[1].span, TokenSpan { start: 3, end: 7 });
}

#[test]
fn test_keyword_lexing() {
    let mut l = Lexer::from_string(String::from("class classify while whiles in int"));
    let tokens = l.lex_tokens().unwrap();
    let kinds: Vec<TokenType> = tokens.iter().map(|t| t.token_type).collect();
    assert_eq!(
        kinds,
        vec![
            TokenType::Class,
            TokenType::Identifier,
            TokenType::While,
            TokenType::Identifier,
            TokenType::In,
            TokenType::Identifier,
        ]
    );
}

#[test]
fn test_classify_exact_match_only() {
    assert_eq!(classify(&String::from("classify")), TokenType::Identifier);
    assert_eq!(classify(&String::from("class")), TokenType::Class);
    assert_eq!(classify(&String::from("clas")), TokenType::Identifier);
    assert_eq!(classify(&String::from("classs")), TokenType::Identifier);
    assert_eq!(classify(&String::from("in")), TokenType::In);
    assert_eq!(classify(&String::from("if")), TokenType::If);
    assert_eq!(classify(&String::from("i")), TokenType::Identifier);
}

#[test]
fn test_get_line_from_idx() {
    let l = Lexer::from_string(String::from("ab\ncd\nef"));
    assert_eq!(l.get_line_from_idx(0), 1);
    assert_eq!(l.get_line_from_idx(2), 1);
    assert_eq!(l.get_line_from_idx(3), 2);
    assert_eq!(l.get_line_from_idx(5), 2);
    assert_eq!(l.get_line_from_idx(6), 3);
    assert_eq!(l.get_line_from_idx(8), 3);
}

#[test]
fn test_multiple_lex_errors_are_all_recorded() {
    let mut l = Lexer::from_string(String::from("@ #"));
    assert!(l.lex_tokens().is_none());
    assert_eq!(l.errors().len(), 2);
}

#[test]
fn test_punctuation_spans() {
    let mut l = Lexer::from_string(String::from("({[]}),.;"));
    let tokens = l.lex_tokens().unwrap();
    let kinds: Vec<TokenType> = tokens.iter().map(|t| t.token_type).collect();
    assert_eq!(
        kinds,
        vec![
            TokenType::Leftparen,
            TokenType::Leftcurl,
            TokenType::Leftbrack,
            TokenType::Rightbrack,
            TokenType::Rightcurl,
            TokenType::Rightparen,
            TokenType::Comma,
            TokenType::Dot,
            TokenType::Semicolon,
        ]
    );
    assert_eq!(tokens[0].span, TokenSpan { start: 0, end: 1 });
    assert_eq!(tokens[8].span, TokenSpan { start: 8, end: 9 });
}
