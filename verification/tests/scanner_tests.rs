use hack_assembler::lexer::Lexer;
use hack_assembler::scan::CharClass;

fn chars(s: &str) -> Vec<char> {
    s.chars().collect()
}

fn text(v: &Vec<char>) -> String {
    v.iter().collect()
}

#[test]
fn tokens_of_simple_line() {
    let mut lx = Lexer::new(chars("@sum"));
    assert_eq!(text(&lx.next_token().unwrap()), "@");
    assert_eq!(text(&lx.next_token().unwrap()), "sum");
    assert!(lx.next_token().is_none());
}

#[test]
fn whitespace_is_skipped_before_tokens() {
    let mut lx = Lexer::new(chars("   \t\n  D  =  A  "));
    assert_eq!(text(&lx.next_token().unwrap()), "D");
    assert_eq!(text(&lx.next_token().unwrap()), "=");
    assert_eq!(text(&lx.next_token().unwrap()), "A");
    assert!(lx.next_token().is_none());
}

#[test]
fn line_comment_is_discarded_through_newline() {
    let mut lx = Lexer::new(chars("// header comment\n@5 // trailing\n@6"));
    assert_eq!(text(&lx.next_token().unwrap()), "@");
    assert_eq!(text(&lx.next_token().unwrap()), "5");
    assert_eq!(text(&lx.next_token().unwrap()), "@");
    assert_eq!(text(&lx.next_token().unwrap()), "6");
    assert!(lx.next_token().is_none());
}

#[test]
fn comment_at_end_of_input_without_newline() {
    let mut lx = Lexer::new(chars("@7 // no newline after this"));
    assert_eq!(text(&lx.next_token().unwrap()), "@");
    assert_eq!(text(&lx.next_token().unwrap()), "7");
    assert!(lx.next_token().is_none());
}

#[test]
fn single_slash_is_a_one_character_token() {
    let mut lx = Lexer::new(chars("/"));
    assert_eq!(text(&lx.next_token().unwrap()), "/");
    assert!(lx.next_token().is_none());
}

#[test]
fn digit_run_and_identifier_run() {
    let mut lx = Lexer::new(chars("123abc45"));
    assert_eq!(text(&lx.next_token().unwrap()), "123");
    assert_eq!(text(&lx.next_token().unwrap()), "abc45");
    assert!(lx.next_token().is_none());
}

#[test]
fn punctuation_tokens_stand_alone() {
    let mut lx = Lexer::new(chars("(LOOP)"));
    assert_eq!(text(&lx.next_token().unwrap()), "(");
    assert_eq!(text(&lx.next_token().unwrap()), "LOOP");
    assert_eq!(text(&lx.next_token().unwrap()), ")");
    assert!(lx.next_token().is_none());
}

#[test]
fn trim_left_stops_at_first_non_blank() {
    let mut lx = Lexer::new(chars("  \t x"));
    lx.trim_left();
    assert!(!lx.is_empty());
    assert_eq!(text(&lx.next_token().unwrap()), "x");
}

#[test]
fn chop_while_takes_the_class_run() {
    let mut lx = Lexer::new(chars("1234x"));
    let run = lx.chop_while(CharClass::Digit);
    assert_eq!(text(&run), "1234");
    assert_eq!(text(&lx.next_token().unwrap()), "x");
}

#[test]
fn chop_while_may_take_nothing() {
    let mut lx = Lexer::new(chars("abc"));
    let run = lx.chop_while(CharClass::Digit);
    assert_eq!(text(&run), "");
    assert_eq!(text(&lx.next_token().unwrap()), "abc");
}

#[test]
fn is_empty_on_exhausted_input() {
    let mut lx = Lexer::new(chars(""));
    assert!(lx.is_empty());
    assert!(lx.next_token().is_none());
    assert!(lx.is_empty());
}
