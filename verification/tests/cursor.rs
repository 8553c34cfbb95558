use frontend::lexer::{EmitMode, Lexer, Transition};
use frontend::token::{Position, Range, Token, TokenKind};

const WORD: TokenKind<u8> = TokenKind::Grammar(1);
const BLANK: TokenKind<u8> = TokenKind::Grammar(2);

fn lexer(text: &str, log: bool) -> Lexer<u8> {
    Lexer::new(text.to_string(), log)
}

fn span(l0: u32, c0: u32, l1: u32, c1: u32) -> Range {
    Range::new(Position::new(l0, c0), Position::new(l1, c1))
}

fn digit(c: char) -> bool {
    c.is_ascii_digit()
}

#[test]
fn new_lexer_has_read_nothing() {
    let l = lexer("abc", true);
    assert_eq!(l.current(), Token::default());
    assert_eq!(l.trivia(), None);
    assert_eq!(l.buffer_iter().count(), 0);
    assert_eq!(l.invalid_iter().count(), 0);
    assert_eq!(l.get(0, 0), "");
    assert_eq!(l.get_char(), None);
}

#[test]
fn consume_reads_the_characters_in_order() {
    let mut l = lexer("aé😀z", false);
    assert_eq!(l.consume(), Some('a'));
    assert_eq!(l.consume(), Some('é'));
    assert_eq!(l.consume(), Some('😀'));
    assert_eq!(l.consume(), Some('z'));
    assert_eq!(l.consume(), None);
    assert_eq!(l.consume(), None);
    assert_eq!(l.get(0, 0), "aé😀z");
}

#[test]
fn consume_of_an_empty_input_finds_the_end() {
    let mut l = lexer("", false);
    assert_eq!(l.consume(), None);
    assert_eq!(l.get_char(), None);
}

#[test]
fn backup_takes_back_one_character_of_any_width() {
    let mut l = lexer("a€b", false);
    assert_eq!(l.consume(), Some('a'));
    assert_eq!(l.consume(), Some('€'));
    l.backup();
    assert_eq!(l.get(0, 0), "a");
    assert_eq!(l.consume(), Some('€'));
    assert_eq!(l.consume(), Some('b'));
}

#[test]
fn undo_takes_back_the_character_given() {
    let mut l = lexer("xé!", false);
    assert_eq!(l.consume(), Some('x'));
    let c = l.consume().unwrap();
    l.undo(c);
    assert_eq!(l.get(0, 0), "x");
    assert_eq!(l.consume(), Some('é'));
    assert_eq!(l.consume(), Some('!'));
}

#[test]
fn get_char_is_the_character_read_last() {
    let mut l = lexer("é1", false);
    l.consume();
    assert_eq!(l.get_char(), Some('é'));
    l.consume();
    assert_eq!(l.get_char(), Some('1'));
    l.consume();
    assert_eq!(l.get_char(), None);
}

#[test]
fn accept_reads_a_character_that_the_predicate_likes() {
    let mut l = lexer("ab", false);
    assert!(l.accept(|c| c == 'a'));
    assert_eq!(l.get(0, 0), "a");
    assert!(!l.accept(|c| c == 'x'));
    assert_eq!(l.get(0, 0), "a");
    assert_eq!(l.consume(), Some('b'));
}

#[test]
fn accept_at_the_end_reads_nothing() {
    let mut l = lexer("", false);
    assert!(!l.accept(|_| true));
    assert_eq!(l.get(0, 0), "");
}

#[test]
fn accept_oneof_reads_a_character_of_the_set() {
    let mut l = lexer("+é-", false);
    assert!(l.accept_oneof("-+"));
    assert!(!l.accept_oneof("-+"));
    assert!(l.accept_oneof("aé"));
    assert!(l.accept_oneof("-+"));
    assert!(!l.accept_oneof("-+"));
    assert_eq!(l.get(0, 0), "+é-");
}

#[test]
fn accept_oneof_with_an_empty_set_reads_nothing() {
    let mut l = lexer("a", false);
    assert!(!l.accept_oneof(""));
    assert_eq!(l.consume(), Some('a'));
}

#[test]
fn accept_char_reads_exactly_that_character() {
    let mut l = lexer("=>", false);
    assert!(!l.accept_char('>'));
    assert!(l.accept_char('='));
    assert!(l.accept_char('>'));
    assert!(!l.accept_char('>'));
    assert_eq!(l.get(0, 0), "=>");
}

#[test]
fn accept_star_reads_the_longest_run() {
    let mut l = lexer("123ab", false);
    l.accept_star(digit);
    assert_eq!(l.get(0, 0), "123");
    l.accept_star(digit);
    assert_eq!(l.get(0, 0), "123");
    assert_eq!(l.consume(), Some('a'));
}

#[test]
fn accept_star_may_read_nothing() {
    let mut l = lexer("ab", false);
    l.accept_star(digit);
    assert_eq!(l.get(0, 0), "");
    assert_eq!(l.consume(), Some('a'));
}

#[test]
fn accept_star_stops_at_the_end_of_the_input() {
    let mut l = lexer("2024", false);
    l.accept_star(digit);
    assert_eq!(l.get(0, 0), "2024");
    assert_eq!(l.consume(), None);
}

#[test]
fn accept_plus_needs_one_character() {
    let mut l = lexer("a12", false);
    assert!(!l.accept_plus(digit));
    assert_eq!(l.get(0, 0), "");
    assert_eq!(l.consume(), Some('a'));
    assert!(l.accept_plus(digit));
    assert_eq!(l.get(0, 0), "a12");
}

#[test]
fn accept_count_reads_all_or_nothing() {
    let mut l = lexer("12a4", false);
    assert!(!l.accept_count(digit, 3));
    assert_eq!(l.get(0, 0), "");
    assert!(l.accept_count(digit, 2));
    assert_eq!(l.get(0, 0), "12");
    assert!(!l.accept_count(digit, 1));
    assert_eq!(l.consume(), Some('a'));
}

#[test]
fn accept_count_of_zero_reads_nothing_and_succeeds() {
    let mut l = lexer("ab", false);
    assert!(l.accept_count(digit, 0));
    assert_eq!(l.get(0, 0), "");
}

#[test]
fn accept_count_fails_when_the_input_is_too_short() {
    let mut l = lexer("12", false);
    assert!(!l.accept_count(digit, 3));
    assert_eq!(l.get(0, 0), "");
    assert_eq!(l.consume(), Some('1'));
}

#[test]
fn failed_accept_count_restores_the_character_read_last() {
    let mut l = lexer("é12x", false);
    l.consume();
    assert_eq!(l.get_char(), Some('é'));
    assert!(!l.accept_count(digit, 3));
    assert_eq!(l.get_char(), Some('é'));
    l.backup();
    assert_eq!(l.consume(), Some('é'));
}

#[test]
fn get_skips_characters_not_bytes() {
    let mut l = lexer("«héllo» rest", false);
    for _ in 0..7 {
        l.consume();
    }
    assert_eq!(l.get(0, 0), "«héllo»");
    assert_eq!(l.get(1, 1), "héllo");
    assert_eq!(l.get(2, 0), "éllo»");
    assert_eq!(l.get(0, 6), "«");
    assert_eq!(l.get(3, 4), "");
    assert_eq!(l.get(7, 0), "");
}

#[test]
fn emit_with_mode_makes_a_token_of_the_lexeme() {
    let mut l = lexer("ab cd", true);
    l.consume();
    l.consume();
    let t = l.emit_with_mode(WORD, EmitMode::Parser);
    assert_eq!(t, Token::new(WORD, span(0, 0, 0, 2)));
    assert_eq!(l.get(0, 0), "");
    l.consume();
    let t = l.emit_with_mode(BLANK, EmitMode::Trivia);
    assert_eq!(t, Token::new(BLANK, span(0, 2, 0, 3)));
    assert_eq!(l.trivia(), Some(t));
    l.consume();
    let t = l.emit_with_mode(TokenKind::Invalid, EmitMode::Invalid);
    assert_eq!(t, Token::new(TokenKind::Invalid, span(0, 3, 0, 4)));
    let logged: Vec<Token<u8>> = l.buffer_iter().copied().collect();
    assert_eq!(
        logged,
        vec![Token::new(WORD, span(0, 0, 0, 2)), Token::new(BLANK, span(0, 2, 0, 3))]
    );
    let invalid: Vec<Token<u8>> = l.invalid_iter().copied().collect();
    assert_eq!(invalid, vec![Token::new(TokenKind::Invalid, span(0, 3, 0, 4))]);
}

#[test]
fn emit_ends_the_scan_with_the_token() {
    let mut l = lexer("ab", false);
    l.consume();
    match l.emit::<()>(WORD) {
        Transition::Done(t) => assert_eq!(t, Token::new(WORD, span(0, 0, 0, 1))),
        Transition::Next(_) => panic!("emit goes on"),
    }
    assert_eq!(l.trivia(), None);
}

#[test]
fn emit_trivia_fills_the_slot_and_goes_on() {
    let mut l = lexer("  x", false);
    l.consume();
    match l.emit_trivia(BLANK, 7u8) {
        Transition::Next(s) => assert_eq!(s, 7),
        Transition::Done(_) => panic!("emit_trivia ends the scan"),
    }
    assert_eq!(l.trivia(), Some(Token::new(BLANK, span(0, 0, 0, 1))));
    l.consume();
    l.emit_trivia(BLANK, 7u8);
    assert_eq!(l.trivia(), Some(Token::new(BLANK, span(0, 1, 0, 2))));
}

#[test]
fn emit_invalid_logs_the_token_and_leaves_the_trivia_slot() {
    let mut l = lexer(" @", false);
    l.consume();
    l.emit_trivia(BLANK, ());
    l.consume();
    match l.emit_invalid(3u8) {
        Transition::Next(s) => assert_eq!(s, 3),
        Transition::Done(_) => panic!("emit_invalid ends the scan"),
    }
    assert_eq!(l.trivia(), Some(Token::new(BLANK, span(0, 0, 0, 1))));
    let invalid: Vec<Token<u8>> = l.invalid_iter().copied().collect();
    assert_eq!(invalid, vec![Token::new(TokenKind::Invalid, span(0, 1, 0, 2))]);
    assert_eq!(l.buffer_iter().count(), 0);
}

#[test]
fn without_logging_only_invalid_tokens_are_kept() {
    let mut l = lexer("abc", false);
    l.consume();
    l.emit::<()>(WORD);
    l.consume();
    l.emit_trivia(BLANK, ());
    l.consume();
    l.emit_invalid(());
    assert_eq!(l.buffer_iter().count(), 0);
    assert_eq!(l.invalid_iter().count(), 1);
}

#[test]
fn emit_continue_drops_the_lexeme_without_a_token() {
    let mut l = lexer("  ab", true);
    l.consume();
    l.consume();
    match l.emit_continue(5u8) {
        Transition::Next(s) => assert_eq!(s, 5),
        Transition::Done(_) => panic!("emit_continue ends the scan"),
    }
    assert_eq!(l.get(0, 0), "");
    assert_eq!(l.buffer_iter().count(), 0);
    assert_eq!(l.invalid_iter().count(), 0);
    assert_eq!(l.trivia(), None);
    l.consume();
    l.consume();
    assert_eq!(l.emit_with_mode(WORD, EmitMode::Parser).range, span(0, 2, 0, 4));
}

#[test]
fn ignore_moves_the_start_of_the_lexeme_to_the_cursor() {
    let mut l = lexer("abc", false);
    l.consume();
    l.ignore();
    l.consume();
    assert_eq!(l.get(0, 0), "b");
    assert_eq!(l.emit_with_mode(WORD, EmitMode::Parser).range, span(0, 1, 0, 2));
}

#[test]
fn line_starts_a_new_line_at_the_cursor() {
    let mut l = lexer("a\nbc", false);
    l.consume();
    l.consume();
    l.line();
    let t = l.emit_with_mode(BLANK, EmitMode::Trivia);
    assert_eq!(t.range, span(0, 0, 1, 0));
    l.consume();
    l.consume();
    let t = l.emit_with_mode(WORD, EmitMode::Parser);
    assert_eq!(t.range, span(1, 0, 1, 2));
}

#[test]
fn columns_count_characters_of_any_width() {
    let mut l = lexer("é😀x", false);
    l.consume();
    l.consume();
    let t = l.emit_with_mode(WORD, EmitMode::Parser);
    assert_eq!(t.range, span(0, 0, 0, 2));
    l.consume();
    let t = l.emit_with_mode(WORD, EmitMode::Parser);
    assert_eq!(t.range, span(0, 2, 0, 3));
}

#[test]
fn a_token_may_be_empty() {
    let mut l = lexer("a", false);
    let t = l.emit_with_mode(WORD, EmitMode::Parser);
    assert_eq!(t.range, span(0, 0, 0, 0));
}

#[test]
fn default_lexer_has_an_empty_input() {
    let mut l: Lexer<u8> = Lexer::default();
    assert_eq!(l.current(), Token::default());
    assert_eq!(l.consume(), None);
    assert_eq!(l.get(0, 0), "");
    l.emit_with_mode(WORD, EmitMode::Parser);
    assert_eq!(l.buffer_iter().count(), 0);
}

#[test]
fn get_skips_wide_characters_at_both_ends() {
    let mut l = lexer("😀a€é😀", false);
    while l.consume().is_some() {}
    assert_eq!(l.get(0, 1), "😀a€é");
    assert_eq!(l.get(0, 2), "😀a€");
    assert_eq!(l.get(0, 3), "😀a");
    assert_eq!(l.get(1, 3), "a");
    assert_eq!(l.get(2, 3), "");
    assert_eq!(l.get(0, 5), "");
    assert_eq!(l.get(5, 0), "");
}

#[test]
fn get_is_the_lexeme_not_the_whole_input() {
    let mut l = lexer("ab cd", false);
    l.consume();
    l.consume();
    l.emit::<()>(WORD);
    l.consume();
    l.ignore();
    l.consume();
    l.consume();
    assert_eq!(l.get(0, 0), "cd");
    assert_eq!(l.get(1, 0), "d");
    assert_eq!(l.get(0, 1), "c");
}

#[test]
fn line_break_in_the_middle_of_a_lexeme() {
    let mut l = lexer("a\nb\nc", false);
    l.consume();
    l.consume();
    l.line();
    l.consume();
    l.consume();
    l.line();
    l.consume();
    let t = l.emit_with_mode(WORD, EmitMode::Parser);
    assert_eq!(t.range, span(0, 0, 2, 1));
    assert_eq!(l.consume(), None);
    let t = l.emit_with_mode(TokenKind::EOF, EmitMode::Parser);
    assert_eq!(t.range, span(2, 1, 2, 1));
}
