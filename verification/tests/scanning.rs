use lisp::reader::scanner::Scanner;

fn collect_lexemes(input: &str) -> Vec<String> {
    let mut scanner = Scanner::from_str(input);
    let mut lexemes: Vec<String> = Vec::new();
    while let Some(token) = scanner.next() {
        if let Some(text) = token.get_string() {
            lexemes.push(text);
        }
    }
    lexemes
}

#[test]
fn test_get_string() {
    let mut scanner = Scanner::from_str("    foobar");
    let token = scanner.next().unwrap();
    assert_eq!(token.get_string(), Some("foobar".to_string()));
}

#[test]
fn test_scans_empty() {
    let tokens = collect_lexemes("");
    assert!(Scanner::from_str("").at_end());
    assert!(tokens.is_empty());
}

#[test]
fn test_scans_single_word() {
    let tokens = collect_lexemes("foobar");
    assert_eq!(tokens.len(), 1);
    assert_eq!(tokens, vec!["foobar".to_string()]);
}

#[test]
fn test_only_whitespace() {
    let tokens = collect_lexemes("    ");
    assert!(tokens.is_empty());
    assert!(!Scanner::from_str("    ").at_end());
}

#[test]
fn test_multiple_tokens() {
    let tokens = collect_lexemes("  one two three  ");
    assert_eq!(tokens.len(), 3);
    assert_eq!(
        tokens,
        vec!["one".to_string(), "two".to_string(), "three".to_string()]
    );
}

#[test]
fn test_skips_initial_whitespace() {
    assert_eq!(collect_lexemes("    foobar"), vec!["foobar".to_string()]);
}

#[test]
fn test_scans_strings() {
    assert_eq!(
        collect_lexemes(" \"this is a string\" "),
        vec!["\"this is a string\"".to_string()]
    );
}

#[test]
fn test_scans_empty_strings() {
    assert_eq!(collect_lexemes(" \"\" "), vec!["\"\"".to_string()]);
}

#[test]
fn test_scans_strings_with_escapes() {
    assert_eq!(
        collect_lexemes(" \"this string \\\"contains\\\" a string\" "),
        vec!["\"this string \\\"contains\\\" a string\"".to_string()]
    );
}

#[test]
fn test_list_start() {
    assert_eq!(collect_lexemes(" ( "), vec!["(".to_string()]);
}

#[test]
fn test_list_end() {
    assert_eq!(collect_lexemes(" ) "), vec![")".to_string()]);
}

#[test]
fn test_empty_list() {
    assert_eq!(
        collect_lexemes(" () "),
        vec!["(".to_string(), ")".to_string()]
    );
}

#[test]
fn test_integer_list_end() {
    assert_eq!(
        collect_lexemes(" 42) "),
        vec!["42".to_string(), ")".to_string()]
    );
}

#[test]
fn test_symbol_list_end_list_end() {
    assert_eq!(
        collect_lexemes(" foo-bar))"),
        vec!["foo-bar".to_string(), ")".to_string(), ")".to_string()]
    );
}

#[test]
fn test_list_symbol() {
    assert_eq!(
        collect_lexemes("(foo-bar)"),
        vec!["(".to_string(), "foo-bar".to_string(), ")".to_string()]
    );
}

#[test]
fn test_quote() {
    assert_eq!(
        collect_lexemes("'foo-bar"),
        vec!["'".to_string(), "foo-bar".to_string()]
    );
}

#[test]
fn test_sharp_quote() {
    assert_eq!(
        collect_lexemes("#'foo-bar"),
        vec!["#'".to_string(), "foo-bar".to_string()]
    );
}

#[test]
fn test_scans_unterminated_string() {
    // an unterminated string lexeme runs to the end of the buffer; its
    // validity is judged later, at classification
    assert_eq!(collect_lexemes("\"ab cd"), vec!["\"ab cd".to_string()]);
}

#[test]
fn test_scans_comment_to_line_end() {
    assert_eq!(
        collect_lexemes("x ; a comment\ny"),
        vec!["x".to_string(), "; a comment".to_string(), "y".to_string()]
    );
}
