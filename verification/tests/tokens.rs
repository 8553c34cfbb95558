use frontend::token::{Position, Range, Token, TokenKind};

#[test]
fn position_new_keeps_line_and_column() {
    let p = Position::new(3, 14);
    assert_eq!(p.line, 3);
    assert_eq!(p.column, 14);
}

#[test]
fn position_default_is_the_origin() {
    assert_eq!(Position::default(), Position::new(0, 0));
}

#[test]
fn positions_are_ordered_by_line_then_column() {
    let a = Position::new(0, 5);
    let b = Position::new(1, 0);
    let c = Position::new(1, 7);
    assert!(a.precedes(&b));
    assert!(!b.precedes(&a));
    assert!(b.precedes(&c));
    assert!(!c.precedes(&b));
    assert!(a.precedes(&a));
}

#[test]
fn derived_order_of_positions_agrees_with_precedes() {
    let all = [
        Position::new(0, 0),
        Position::new(0, 9),
        Position::new(1, 0),
        Position::new(1, 1),
        Position::new(7, 3),
    ];
    for a in all.iter() {
        for b in all.iter() {
            assert_eq!(a <= b, a.precedes(b));
        }
    }
}

#[test]
fn range_new_keeps_both_ends() {
    let r = Range::new(Position::new(2, 1), Position::new(2, 4));
    assert_eq!(r.start, Position::new(2, 1));
    assert_eq!(r.end, Position::new(2, 4));
}

#[test]
fn range_default_is_empty_at_the_origin() {
    let r = Range::default();
    assert_eq!(r.start, Position::new(0, 0));
    assert_eq!(r.end, Position::new(0, 0));
}

#[test]
fn token_new_keeps_kind_and_range() {
    let r = Range::new(Position::new(0, 1), Position::new(0, 2));
    let t: Token<u8> = Token::new(TokenKind::Grammar(9), r);
    assert_eq!(t.kind, TokenKind::Grammar(9));
    assert_eq!(t.range, r);
}

#[test]
fn default_token_is_end_of_input_at_the_origin() {
    let t: Token<u8> = Token::default();
    assert_eq!(t.kind, TokenKind::EOF);
    assert_eq!(t.range, Range::default());
    assert!(t.is_eof());
}

#[test]
fn default_kind_is_end_of_input() {
    let k: TokenKind<u8> = TokenKind::default();
    assert_eq!(k, TokenKind::EOF);
}

#[test]
fn only_end_of_input_tokens_are_eof() {
    let r = Range::default();
    assert!(Token::<u8>::new(TokenKind::EOF, r).is_eof());
    assert!(!Token::<u8>::new(TokenKind::Invalid, r).is_eof());
    assert!(!Token::<u8>::new(TokenKind::Grammar(0), r).is_eof());
}
