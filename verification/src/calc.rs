//! A small grammar for the tokenizer: sums of integer literals and names.
//! Names are interned, and a name token carries its symbol. White space is
//! trivia, a line feed in it starts a new line, and a character that starts
//! nothing is an invalid token of its own.

use crate::lexer::view::LexerView;
use crate::lexer::{EmitMode, Grammar, Lexer, Transition};
use crate::symbol::{StringTable, Symbol};
use crate::token::TokenKind;
use vstd::prelude::*;

verus! {

/// The kinds of token of this grammar.
#[derive(Clone, Copy, Debug, PartialEq, Eq, Structural, Hash)]
pub enum Kind {
    /// A run of decimal digits.
    Integer,
    /// The sign `+`.
    Plus,
    /// A letter or `_` or a character outside ASCII, and the letters, digits
    /// and such characters that follow; with the symbol of this text.
    Name(Symbol),
    /// A run of white space: trivia.
    Space,
}

/// The states of the machine.
#[derive(Clone, Copy, Debug, PartialEq, Eq, Structural)]
pub enum State {
    /// Between tokens.
    Start,
    /// Inside an integer literal, behind its first digit.
    Integer,
    /// Inside a name, behind its first character.
    Name,
    /// Inside a run of white space.
    Space,
}

/// The grammar, with the table in which it interns the names it meets.
pub struct Calc<'a> {
    names: StringTable<'a>,
}

/// Whether `c` is a decimal digit.
pub open spec fn is_digit(c: char) -> bool {
    '0' <= c <= '9'
}

/// Whether `c` is white space: a blank, a tab, a carriage return or a line
/// feed.
pub open spec fn is_space(c: char) -> bool {
    c == ' ' || c == '\t' || c == '\r' || c == '\n'
}

/// Whether a name can start with `c`: a letter of ASCII, `_`, or any
/// character outside ASCII.
pub open spec fn starts_name(c: char) -> bool {
    'a' <= c <= 'z' || 'A' <= c <= 'Z' || c == '_' || c > '\u{7f}'
}

/// Whether a name can go on with `c`: as it can start, or with a digit.
pub open spec fn continues_name(c: char) -> bool {
    starts_name(c) || is_digit(c)
}

/// Computes [`is_digit`].
pub fn digit(c: char) -> (b: bool)
    ensures
        b == is_digit(c),
{
    '0' <= c && c <= '9'
}

/// Computes [`is_space`].
pub fn space(c: char) -> (b: bool)
    ensures
        b == is_space(c),
{
    c == ' ' || c == '\t' || c == '\r' || c == '\n'
}

/// Computes [`starts_name`].
pub fn name_start(c: char) -> (b: bool)
    ensures
        b == starts_name(c),
{
    ('a' <= c && c <= 'z') || ('A' <= c && c <= 'Z') || c == '_' || c > '\u{7f}'
}

/// Computes [`continues_name`].
pub fn name_part(c: char) -> (b: bool)
    ensures
        b == continues_name(c),
{
    name_start(c) || digit(c)
}

/// What a step between tokens decides: the next character says what starts
/// here.
pub open spec fn start_step(lexer: LexerView<Kind>) -> (Transition<State, Kind>, LexerView<Kind>) {
    let read = lexer.consumed();
    match lexer.next_char() {
        None => (
            Transition::Done(read.token(TokenKind::EOF)),
            read.emitted(TokenKind::EOF, EmitMode::Parser),
        ),
        Some(c) => if is_digit(c) {
            (Transition::Next(State::Integer), read)
        } else if starts_name(c) {
            (Transition::Next(State::Name), read)
        } else if c == '+' {
            (
                Transition::Done(read.token(TokenKind::Grammar(Kind::Plus))),
                read.emitted(TokenKind::Grammar(Kind::Plus), EmitMode::Parser),
            )
        } else if is_space(c) {
            (
                Transition::Next(State::Space),
                if c == '\n' {
                    read.line_broken()
                } else {
                    read
                },
            )
        } else {
            (Transition::Next(State::Start), read.emitted(TokenKind::Invalid, EmitMode::Invalid))
        },
    }
}

/// The tokenizer with the cursor behind the characters, from the cursor on,
/// that `holds` is true of.
pub open spec fn run(lexer: LexerView<Kind>, holds: spec_fn(char) -> bool) -> LexerView<Kind> {
    lexer.stopped_at(crate::lexer::view::run_end(lexer.input, lexer.cursor, holds))
}

/// What a step inside an integer literal decides: the literal takes the
/// digits that follow, and ends the scan.
pub open spec fn integer_step(lexer: LexerView<Kind>) -> (
    Transition<State, Kind>,
    LexerView<Kind>,
) {
    let end = run(lexer, |c: char| is_digit(c));
    (
        Transition::Done(end.token(TokenKind::Grammar(Kind::Integer))),
        end.emitted(TokenKind::Grammar(Kind::Integer), EmitMode::Parser),
    )
}

/// What a step inside a name decides: the name takes the letters and digits
/// that follow, its text is interned in `names`, and the token with the
/// symbol ends the scan. A new name for which `names` has no identity left
/// becomes an invalid token.
pub open spec fn name_step(names: Seq<Seq<char>>, lexer: LexerView<Kind>) -> (
    Transition<State, Kind>,
    LexerView<Kind>,
    Seq<Seq<char>>,
) {
    let end = run(lexer, |c: char| continues_name(c));
    let text = end.lexeme(0, 0);
    if names.contains(text) || names.len() < u32::MAX {
        let (grown, id) = crate::symbol::interned(names, text);
        let kind = TokenKind::Grammar(Kind::Name(Symbol(id as u32)));
        (Transition::Done(end.token(kind)), end.emitted(kind, EmitMode::Parser), grown)
    } else {
        (
            Transition::Next(State::Start),
            end.emitted(TokenKind::Invalid, EmitMode::Invalid),
            names,
        )
    }
}

/// What a step inside white space decides: one more character of it, or its
/// end, where it becomes a trivia token.
pub open spec fn space_step(lexer: LexerView<Kind>) -> (Transition<State, Kind>, LexerView<Kind>) {
    let read = lexer.consumed();
    match lexer.next_char() {
        Some(c) if is_space(c) => (
            Transition::Next(State::Space),
            if c == '\n' {
                read.line_broken()
            } else {
                read
            },
        ),
        _ => (
            Transition::Next(State::Start),
            lexer.stopped_at(lexer.cursor).emitted(
                TokenKind::Grammar(Kind::Space),
                EmitMode::Trivia,
            ),
        ),
    }
}

/// Between tokens: the next character decides what starts here.
fn state_start(lexer: &mut Lexer<Kind>) -> (next: Transition<State, Kind>)
    requires
        old(lexer).wf(),
    ensures
        final(lexer).wf(),
        (next, final(lexer)@) == start_step(old(lexer)@),
{
    match lexer.consume() {
        None => lexer.emit(TokenKind::EOF),
        Some(c) => {
            if digit(c) {
                Transition::Next(State::Integer)
            } else if name_start(c) {
                Transition::Next(State::Name)
            } else if c == '+' {
                lexer.emit(TokenKind::Grammar(Kind::Plus))
            } else if space(c) {
                if c == '\n' {
                    lexer.line();
                }
                Transition::Next(State::Space)
            } else {
                lexer.emit_invalid(State::Start)
            }
        },
    }
}

/// Inside an integer literal: the digits that follow belong to it.
fn state_integer(lexer: &mut Lexer<Kind>) -> (next: Transition<State, Kind>)
    requires
        old(lexer).wf(),
    ensures
        final(lexer).wf(),
        (next, final(lexer)@) == integer_step(old(lexer)@),
{
    lexer.accept_star(digit);
    proof {
        crate::lexer::view::lemma_run_end(
            lexer@.input,
            old(lexer)@.cursor,
            lexer@.cursor,
            |c: char| is_digit(c),
        );
    }
    lexer.emit(TokenKind::Grammar(Kind::Integer))
}

/// Inside a name: the letters and digits that follow belong to it, and the
/// whole is interned.
fn state_name(names: &mut StringTable<'_>, lexer: &mut Lexer<Kind>) -> (next: Transition<
    State,
    Kind,
>)
    requires
        old(names).wf(),
        old(lexer).wf(),
    ensures
        final(names).wf(),
        final(lexer).wf(),
        (next, final(lexer)@, final(names)@) == name_step(old(names)@, old(lexer)@),
{
    lexer.accept_star(name_part);
    proof {
        crate::lexer::view::lemma_run_end(
            lexer@.input,
            old(lexer)@.cursor,
            lexer@.cursor,
            |c: char| continues_name(c),
        );
        names.lemma_wf_view();
    }
    let found = if names.len() < u32::MAX as usize {
        Some(names.get_symbol(lexer.get(0, 0)))
    } else {
        names.find(lexer.get(0, 0))
    };
    match found {
        Some(symbol) => lexer.emit(TokenKind::Grammar(Kind::Name(symbol))),
        None => lexer.emit_invalid(State::Start),
    }
}

/// Inside white space: one more character of it, or its end.
fn state_space(lexer: &mut Lexer<Kind>) -> (next: Transition<State, Kind>)
    requires
        old(lexer).wf(),
    ensures
        final(lexer).wf(),
        (next, final(lexer)@) == space_step(old(lexer)@),
{
    match lexer.consume() {
        None => lexer.emit_trivia(TokenKind::Grammar(Kind::Space), State::Start),
        Some(c) => {
            if space(c) {
                if c == '\n' {
                    lexer.line();
                }
                Transition::Next(State::Space)
            } else {
                lexer.backup();
                lexer.emit_trivia(TokenKind::Grammar(Kind::Space), State::Start)
            }
        },
    }
}

impl<'a> Calc<'a> {
    /// The grammar with `names` as the table of its names.
    pub fn new(names: StringTable<'a>) -> (calc: Calc<'a>)
        requires
            names.wf(),
        ensures
            calc.wf(),
            calc.model() == names@,
    {
        Calc { names }
    }

    /// The table of the names met so far.
    pub fn names(&self) -> (names: &StringTable<'a>)
        requires
            self.wf(),
        ensures
            names.wf(),
            names@ == self.model(),
    {
        &self.names
    }

    /// Gives the table of names back.
    pub fn into_names(self) -> (names: StringTable<'a>)
        requires
            self.wf(),
        ensures
            names.wf(),
            names@ == self.model(),
    {
        self.names
    }
}

impl<'a> Grammar<Kind> for Calc<'a> {
    type State = State;

    type Model = Seq<Seq<char>>;

    /// The strings of the table of names.
    closed spec fn model(&self) -> Seq<Seq<char>> {
        self.names@
    }

    /// The table of names is in order.
    closed spec fn wf(&self) -> bool {
        self.names.wf()
    }

    open spec fn start_spec() -> State {
        State::Start
    }

    open spec fn step_spec(names: Seq<Seq<char>>, state: State, lexer: LexerView<Kind>) -> (
        Transition<State, Kind>,
        LexerView<Kind>,
        Seq<Seq<char>>,
    ) {
        match state {
            State::Start => (start_step(lexer).0, start_step(lexer).1, names),
            State::Integer => (integer_step(lexer).0, integer_step(lexer).1, names),
            State::Name => name_step(names, lexer),
            State::Space => (space_step(lexer).0, space_step(lexer).1, names),
        }
    }

    /// Two steps for each character left, and one more inside a token: every
    /// step either reads a character or leaves a token.
    open spec fn fuel(state: State, lexer: LexerView<Kind>) -> nat {
        (2 * (lexer.input.len() - lexer.cursor) + if state == State::Start {
            0int
        } else {
            1int
        }) as nat
    }

    proof fn lemma_step(names: Seq<Seq<char>>, state: State, lexer: LexerView<Kind>) {
        let read = lexer.consumed();
        lexer.lemma_consumed();
        match state {
            State::Start => {
                read.lemma_emitted(TokenKind::EOF, EmitMode::Parser);
                read.lemma_emitted(TokenKind::Grammar(Kind::Plus), EmitMode::Parser);
                read.lemma_emitted(TokenKind::Invalid, EmitMode::Invalid);
                if lexer.next_char() is Some {
                    read.lemma_line_broken();
                }
            },
            State::Integer => {
                let holds = |c: char| is_digit(c);
                let end = run(lexer, holds);
                crate::lexer::view::lemma_run_end_bounds(lexer.input, lexer.cursor, holds);
                lexer.lemma_moved(end.cursor, end.width);
                end.lemma_emitted(TokenKind::Grammar(Kind::Integer), EmitMode::Parser);
            },
            State::Name => {
                let holds = |c: char| continues_name(c);
                let end = run(lexer, holds);
                crate::lexer::view::lemma_run_end_bounds(lexer.input, lexer.cursor, holds);
                lexer.lemma_moved(end.cursor, end.width);
                let id = crate::symbol::interned(names, end.lexeme(0, 0)).1;
                end.lemma_emitted(TokenKind::Grammar(Kind::Name(Symbol(id as u32))), EmitMode::Parser);
                end.lemma_emitted(TokenKind::Invalid, EmitMode::Invalid);
            },
            State::Space => {
                if lexer.next_char() is Some {
                    read.lemma_line_broken();
                }
                let stay = lexer.stopped_at(lexer.cursor);
                lexer.lemma_moved(lexer.cursor, stay.width);
                stay.lemma_emitted(TokenKind::Grammar(Kind::Space), EmitMode::Trivia);
            },
        }
    }

    fn start(&self) -> State {
        State::Start
    }

    fn step(&mut self, state: State, lexer: &mut Lexer<Kind>) -> (next: Transition<State, Kind>) {
        match state {
            State::Start => state_start(lexer),
            State::Integer => state_integer(lexer),
            State::Name => state_name(&mut self.names, lexer),
            State::Space => state_space(lexer),
        }
    }
}

} // verus!
