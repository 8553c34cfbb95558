//! The tokenizer: a cursor over a source text, driven by a grammar's state
//! machine, that hands out tokens on three channels.

pub mod view;

use crate::lexer::view::LexerView;
use crate::token::{Position, Range, Token, TokenKind};
use std::collections::VecDeque;
use vstd::prelude::*;

verus! {

/// What one step of a grammar's state machine decides.
#[derive(Clone, Copy, Debug, PartialEq, Eq)]
pub enum Transition<S, K> {
    /// An end state was reached: the scan is over, with this token.
    Done(Token<K>),
    /// Go on in this state. States are values, and the scan is a loop over
    /// them, so a rule that repeats costs no stack.
    Next(S),
}

/// The channel that a finished token goes to.
#[derive(Clone, Copy, Debug, PartialEq, Eq, Structural)]
pub enum EmitMode {
    /// To the parser: the token ends the scan.
    Parser,
    /// To the trivia slot: kept for tools, never seen by the parser.
    Trivia,
    /// To the log of invalid tokens.
    Invalid,
}

#[derive(Clone, Copy, Debug, PartialEq, Eq, Structural)]
struct Cursor {
    /// The current byte offset.
    byte: usize,
    /// The current offset in Unicode scalar values.
    character: u32,
}

#[derive(Clone, Copy, Debug, PartialEq, Eq, Structural)]
struct Start {
    /// The byte offset of the start of the current lexeme.
    byte: usize,
    /// The offset in scalar values of the start of the current lexeme.
    character: u32,
    /// The offset in scalar values of the start of the current line.
    character_line: u32,
    /// The position of the start of the current lexeme.
    pos: Position,
}

#[derive(Clone, Copy, Debug, PartialEq, Eq, Structural)]
struct State {
    /// Where the next character is read.
    cursor: Cursor,
    /// Where the current lexeme started.
    start: Start,
    /// The byte width of the character read last.
    width: usize,
    /// The current line.
    line: u32,
}

/// A tokenizer over one source text.
#[derive(Debug)]
pub struct Lexer<K> {
    /// The source text.
    input: String,
    /// Whether parser and trivia tokens are kept in `buffer`.
    log: bool,
    /// The cursor and the start of the current lexeme.
    state: State,
    /// The token that the last scan ended with.
    current: Token<K>,
    /// Tokens scanned ahead of `current`, oldest first.
    lookahead: VecDeque<Token<K>>,
    /// Every parser and trivia token so far, if `log` is set.
    buffer: Vec<Token<K>>,
    /// Every invalid token so far.
    invalid: Vec<Token<K>>,
    /// The trivia token that the last scan met last, if it met one.
    trivia: Option<Token<K>>,
}

impl<K> View for Lexer<K> {
    type V = LexerView<K>;

    closed spec fn view(&self) -> LexerView<K> {
        LexerView {
            input: self.input@,
            log: self.log,
            cursor: self.state.cursor.character as int,
            width: self.state.width as int,
            start: self.state.start.character as int,
            line_start: self.state.start.character_line as int,
            line: self.state.line as int,
            start_pos: self.state.start.pos,
            current: self.current,
            lookahead: self.lookahead@,
            buffer: self.buffer@,
            invalid: self.invalid@,
            trivia: self.trivia,
        }
    }
}

impl<K: Copy> Lexer<K> {
    /// Whether each byte offset that the tokenizer keeps is the offset of the
    /// character that it goes with.
    pub closed spec fn offsets_match(&self) -> bool {
        &&& self.state.cursor.byte == crate::text::offset(
            self.input@,
            self.state.cursor.character as int,
        )
        &&& self.state.start.byte == crate::text::offset(
            self.input@,
            self.state.start.character as int,
        )
    }

    /// The invariant of the tokenizer: that of its view, and that the byte
    /// offsets match the character offsets.
    pub open spec fn wf(&self) -> bool {
        self@.wf() && self.offsets_match()
    }

    /// Creates a tokenizer over `input`. With `log` set it keeps every parser
    /// and trivia token it produces.
    pub fn new(input: String, log: bool) -> (lexer: Lexer<K>)
        requires
            input@.len() <= u32::MAX,
        ensures
            lexer.wf(),
            lexer@ == LexerView::<K>::initial(input@, log),
    {
        proof {
            crate::text::lemma_offset_ends(input@);
        }
        let origin = Position { line: 0, column: 0 };
        Lexer {
            input,
            log,
            state: State {
                cursor: Cursor { byte: 0, character: 0 },
                start: Start { byte: 0, character: 0, character_line: 0, pos: origin },
                width: 0,
                line: 0,
            },
            current: Token { kind: TokenKind::EOF, range: Range { start: origin, end: origin } },
            lookahead: VecDeque::new(),
            buffer: Vec::new(),
            invalid: Vec::new(),
            trivia: None,
        }
    }

    /// Reads the character under the cursor and moves past it. At the end of
    /// the input it reads nothing and returns `None`.
    pub fn consume(&mut self) -> (c: Option<char>)
        requires
            old(self).wf(),
        ensures
            final(self).wf(),
            c == old(self)@.next_char(),
            final(self)@ == old(self)@.consumed(),
            c is Some ==> final(self)@.can_backup(),
    {
        let at: usize = self.state.cursor.byte;
        let ghost n = self.state.cursor.character as int;
        proof {
            crate::text::lemma_offset_ends(self.input@);
            crate::text::lemma_offset_monotone(self.input@, n, self.input@.len() as int);
        }
        if at >= crate::text::byte_len(self.input.as_str()) {
            self.state.width = 0;
            None
        } else {
            let c = crate::text::char_at(self.input.as_str(), at, Ghost(n));
            proof {
                crate::text::lemma_offset_step(self.input@, n);
                crate::text::lemma_offset_monotone(self.input@, n + 1, self.input@.len() as int);
            }
            let width: usize = crate::text::char_width(c);
            self.state.width = width;
            self.state.cursor.byte = at + width;
            self.state.cursor.character = self.state.cursor.character + 1;
            Some(c)
        }
    }

    /// Takes back the character that `consume` has just read.
    pub fn backup(&mut self)
        requires
            old(self).wf(),
            old(self)@.can_backup(),
        ensures
            final(self).wf(),
            final(self)@ == old(self)@.backed_up(),
    {
        proof {
            let n = self.state.cursor.character as int;
            crate::text::lemma_offset_step(self.input@, n - 1);
        }
        self.state.cursor.byte = self.state.cursor.byte - self.state.width;
        self.state.cursor.character = self.state.cursor.character - 1;
    }

    /// Takes back the character `c`, which is the one before the cursor.
    pub fn undo(&mut self, c: char)
        requires
            old(self).wf(),
            old(self)@.start < old(self)@.cursor,
            old(self)@.line_start < old(self)@.cursor,
            c == old(self)@.input[old(self)@.cursor - 1],
        ensures
            final(self).wf(),
            final(self)@ == old(self)@.backed_up(),
    {
        proof {
            let n = self.state.cursor.character as int;
            crate::text::lemma_offset_step(self.input@, n - 1);
        }
        self.state.cursor.byte = self.state.cursor.byte - crate::text::char_width(c);
        self.state.cursor.character = self.state.cursor.character - 1;
    }

    /// Drops the characters read since the last token: the next lexeme starts
    /// at the cursor.
    pub fn ignore(&mut self)
        requires
            old(self).wf(),
        ensures
            final(self).wf(),
            final(self)@ == old(self)@.ignored(),
    {
        let here = Position::new(
            self.state.line,
            self.state.cursor.character - self.state.start.character_line,
        );
        proof {
            self@.lemma_ignored();
        }
        self.state.start.byte = self.state.cursor.byte;
        self.state.start.character = self.state.cursor.character;
        self.state.start.pos = here;
    }

    /// The text of the current lexeme without its first `skip_start` and its
    /// last `skip_end` characters.
    pub fn get(&self, skip_start: usize, skip_end: usize) -> (text: &str)
        requires
            self.wf(),
            skip_start + skip_end <= self@.cursor - self@.start,
        ensures
            text@ == self@.lexeme(skip_start as int, skip_end as int),
    {
        let ghost first = self.state.start.character as int;
        let ghost last = self.state.cursor.character as int;
        let total: usize = crate::text::byte_len(self.input.as_str());
        let mut from: usize = self.state.start.byte;
        let mut i: usize = 0;
        while i < skip_start
            invariant
                self.wf(),
                total == vstd::utf8::encode_utf8(self.input@).len(),
                first == self@.start,
                skip_start + skip_end <= self@.cursor - self@.start,
                i <= skip_start,
                from == crate::text::offset(self.input@, first + i),
            decreases skip_start - i,
        {
            proof {
                crate::text::lemma_offset_step(self.input@, first + i);
                crate::text::lemma_offset_monotone(
                    self.input@,
                    first + i + 1,
                    self.input@.len() as int,
                );
                crate::text::lemma_offset_ends(self.input@);
            }
            let c = crate::text::char_at(self.input.as_str(), from, Ghost(first + i));
            from = from + crate::text::char_width(c);
            i = i + 1;
        }
        let mut to: usize = self.state.cursor.byte;
        let mut j: usize = 0;
        while j < skip_end
            invariant
                self.wf(),
                last == self@.cursor,
                skip_start + skip_end <= self@.cursor - self@.start,
                j <= skip_end,
                to == crate::text::offset(self.input@, last - j),
            decreases skip_end - j,
        {
            to = crate::text::step_back(self.input.as_str(), to, Ghost(last - j));
            j = j + 1;
        }
        crate::text::slice(
            self.input.as_str(),
            from,
            to,
            Ghost(first + skip_start),
            Ghost(last - skip_end),
        )
    }

    /// The character read last, or `None` if the last read found the end.
    pub fn get_char(&self) -> (c: Option<char>)
        requires
            self.wf(),
            self@.tracks_last_read(),
        ensures
            c == self@.last_read(),
    {
        if self.state.width == 0 {
            None
        } else {
            proof {
                crate::text::lemma_offset_step(
                    self.input@,
                    self.state.cursor.character as int - 1,
                );
            }
            Some(
                crate::text::char_at(
                    self.input.as_str(),
                    self.state.cursor.byte - self.state.width,
                    Ghost(self.state.cursor.character as int - 1),
                ),
            )
        }
    }

    /// Reads the next character if `pred` holds of it; else it leaves the
    /// cursor where it is.
    pub fn accept<F: FnOnce(char) -> bool>(&mut self, pred: F) -> (taken: bool)
        requires
            old(self).wf(),
            old(self)@.next_char() matches Some(c) ==> call_requires(pred, (c,)),
        ensures
            final(self).wf(),
            final(self)@ == old(self)@.accepted(taken),
            match old(self)@.next_char() {
                Some(c) => call_ensures(pred, (c,), taken),
                None => !taken,
            },
    {
        if let Some(c) = self.consume() {
            if pred(c) {
                return true;
            }
            self.backup();
        }
        false
    }

    /// Reads the next character if it is one of those in `valid`.
    pub fn accept_oneof(&mut self, valid: &str) -> (taken: bool)
        requires
            old(self).wf(),
        ensures
            final(self).wf(),
            final(self)@ == old(self)@.accepted(taken),
            taken == (old(self)@.next_char() matches Some(c) && valid@.contains(c)),
    {
        if let Some(c) = self.consume() {
            if crate::text::contains(valid, c) {
                return true;
            }
            self.backup();
        }
        false
    }

    /// Reads the next character if it is `valid`.
    pub fn accept_char(&mut self, valid: char) -> (taken: bool)
        requires
            old(self).wf(),
        ensures
            final(self).wf(),
            final(self)@ == old(self)@.accepted(taken),
            taken == (old(self)@.next_char() == Some(valid)),
    {
        if let Some(c) = self.consume() {
            if c == valid {
                return true;
            }
            self.backup();
        }
        false
    }

    /// Reads characters as long as `pred` holds of them.
    pub fn accept_star<F: FnOnce(char) -> bool + Copy>(&mut self, pred: F)
        requires
            old(self).wf(),
            old(self)@.may_test(pred),
        ensures
            final(self).wf(),
            old(self)@.cursor <= final(self)@.cursor,
            final(self)@ == old(self)@.stopped_at(final(self)@.cursor),
            forall|i: int|
                old(self)@.cursor <= i < final(self)@.cursor ==> call_ensures(
                    pred,
                    (#[trigger] old(self)@.input[i],),
                    true,
                ),
            final(self)@.next_char() matches Some(c) ==> call_ensures(pred, (c,), false),
    {
        loop
            invariant
                self.wf(),
                old(self)@.may_test(pred),
                old(self)@.cursor <= self@.cursor,
                self@ == (LexerView { cursor: self@.cursor, width: self@.width, ..old(self)@ }),
                forall|i: int|
                    old(self)@.cursor <= i < self@.cursor ==> call_ensures(
                        pred,
                        (#[trigger] old(self)@.input[i],),
                        true,
                    ),
            ensures
                self.wf(),
                old(self)@.cursor <= self@.cursor,
                self@ == old(self)@.stopped_at(self@.cursor),
                forall|i: int|
                    old(self)@.cursor <= i < self@.cursor ==> call_ensures(
                        pred,
                        (#[trigger] old(self)@.input[i],),
                        true,
                    ),
                self@.next_char() matches Some(c) ==> call_ensures(pred, (c,), false),
            decreases self@.input.len() - self@.cursor,
        {
            match self.consume() {
                Some(c) => {
                    if !pred(c) {
                        self.backup();
                        break ;
                    }
                },
                None => {
                    break ;
                },
            }
        }
    }

    /// Reads one character or more, as long as `pred` holds of them. Without a
    /// first such character it reads nothing and returns `false`.
    pub fn accept_plus<F: FnOnce(char) -> bool + Copy>(&mut self, pred: F) -> (taken: bool)
        requires
            old(self).wf(),
            old(self)@.may_test(pred),
        ensures
            final(self).wf(),
            taken == (old(self)@.cursor < final(self)@.cursor),
            final(self)@ == old(self)@.stopped_at(final(self)@.cursor),
            forall|i: int|
                old(self)@.cursor <= i < final(self)@.cursor ==> call_ensures(
                    pred,
                    (#[trigger] old(self)@.input[i],),
                    true,
                ),
            final(self)@.next_char() matches Some(c) ==> call_ensures(pred, (c,), false),
    {
        if self.accept(pred) {
            self.accept_star(pred);
            true
        } else {
            false
        }
    }

    /// Reads exactly `count` characters if `pred` holds of each of them; else
    /// it reads nothing, and the tokenizer is as it was.
    pub fn accept_count<F: FnOnce(char) -> bool + Copy>(&mut self, pred: F, count: usize) -> (taken:
        bool)
        requires
            old(self).wf(),
            old(self)@.may_test(pred),
        ensures
            final(self).wf(),
            !taken ==> final(self)@ == old(self)@,
            taken ==> {
                &&& old(self)@.cursor + count <= old(self)@.input.len()
                &&& final(self)@ == (LexerView {
                    cursor: old(self)@.cursor + count,
                    width: final(self)@.width,
                    ..old(self)@
                })
                &&& count > 0 ==> final(self)@.can_backup()
                &&& count == 0 ==> final(self)@ == old(self)@
                &&& forall|i: int|
                    old(self)@.cursor <= i < old(self)@.cursor + count ==> call_ensures(
                        pred,
                        (#[trigger] old(self)@.input[i],),
                        true,
                    )
            },
            old(self)@.cursor + count <= old(self)@.input.len() && (forall|i: int|
                old(self)@.cursor <= i < old(self)@.cursor + count ==> !call_ensures(
                    pred,
                    (#[trigger] old(self)@.input[i],),
                    false,
                )) ==> taken,
    {
        let saved = self.state;
        let mut done: usize = 0;
        while done < count
            invariant
                self.wf(),
                old(self)@.may_test(pred),
                done <= count,
                saved == old(self).state,
                old(self).wf(),
                self@ == (LexerView {
                    cursor: old(self)@.cursor + done,
                    width: self@.width,
                    ..old(self)@
                }),
                done > 0 ==> self@.can_backup(),
                done == 0 ==> self@ == old(self)@,
                forall|i: int|
                    old(self)@.cursor <= i < old(self)@.cursor + done ==> call_ensures(
                        pred,
                        (#[trigger] old(self)@.input[i],),
                        true,
                    ),
            decreases count - done,
        {
            if !self.accept(pred) {
                self.state = saved;
                return false;
            }
            done = done + 1;
        }
        true
    }

    /// Offers `token` to the log of parser and trivia tokens.
    fn log(&mut self, token: &Token<K>)
        requires
            old(self).wf(),
            token.range.wf(),
            token.range.end.at_or_before(old(self)@.start_pos),
            forall|i: int|
                0 <= i < old(self)@.buffer.len() ==> (#[trigger] old(self)@.buffer[i]).range.end.at_or_before(
                    token.range.start,
                ),
        ensures
            final(self).wf(),
            final(self)@ == (LexerView { buffer: old(self)@.logged(*token), ..old(self)@ }),
    {
        if self.log {
            self.buffer.push(*token);
        }
    }

    /// Finishes the current lexeme as a token of kind `kind` and hands it to
    /// the channel `mode`; the next lexeme starts at the cursor. Returns the
    /// token.
    pub fn emit_with_mode(&mut self, kind: TokenKind<K>, mode: EmitMode) -> (token: Token<K>)
        requires
            old(self).wf(),
        ensures
            final(self).wf(),
            token == old(self)@.token(kind),
            token.range.wf(),
            final(self)@ == old(self)@.emitted(kind, mode),
    {
        let end = Position::new(
            self.state.line,
            self.state.cursor.character - self.state.start.character_line,
        );
        proof {
            self@.lemma_emitted(kind, mode);
        }
        let token = Token::new(kind, Range::new(self.state.start.pos, end));
        self.state.start.byte = self.state.cursor.byte;
        self.state.start.character = self.state.cursor.character;
        self.state.start.pos = end;
        match mode {
            EmitMode::Parser => {
                self.log(&token);
            },
            EmitMode::Trivia => {
                self.log(&token);
                self.trivia = Some(token);
            },
            EmitMode::Invalid => {
                self.invalid.push(token);
            },
        }
        token
    }

    /// Finishes the current lexeme as a token for the parser, which ends the
    /// scan.
    pub fn emit<S>(&mut self, kind: TokenKind<K>) -> (next: Transition<S, K>)
        requires
            old(self).wf(),
        ensures
            final(self).wf(),
            final(self)@ == old(self)@.emitted(kind, EmitMode::Parser),
            next == Transition::<S, K>::Done(old(self)@.token(kind)),
    {
        Transition::Done(self.emit_with_mode(kind, EmitMode::Parser))
    }

    /// Finishes the current lexeme as a trivia token and goes on in the state
    /// `restart`.
    pub fn emit_trivia<S>(&mut self, kind: TokenKind<K>, restart: S) -> (next: Transition<S, K>)
        requires
            old(self).wf(),
        ensures
            final(self).wf(),
            final(self)@ == old(self)@.emitted(kind, EmitMode::Trivia),
            next == Transition::<S, K>::Next(restart),
    {
        self.emit_with_mode(kind, EmitMode::Trivia);
        Transition::Next(restart)
    }

    /// Finishes the current lexeme as an invalid token and goes on in the
    /// state `restart`.
    pub fn emit_invalid<S>(&mut self, restart: S) -> (next: Transition<S, K>)
        requires
            old(self).wf(),
        ensures
            final(self).wf(),
            final(self)@ == old(self)@.emitted(TokenKind::Invalid, EmitMode::Invalid),
            next == Transition::<S, K>::Next(restart),
    {
        self.emit_with_mode(TokenKind::Invalid, EmitMode::Invalid);
        Transition::Next(restart)
    }

    /// Drops the current lexeme without a token and goes on in the state
    /// `restart`.
    pub fn emit_continue<S>(&mut self, restart: S) -> (next: Transition<S, K>)
        requires
            old(self).wf(),
        ensures
            final(self).wf(),
            final(self)@ == old(self)@.ignored(),
            next == Transition::<S, K>::Next(restart),
    {
        self.ignore();
        Transition::Next(restart)
    }

    /// Records that the character read last ended a line: the next line
    /// starts at the cursor.
    pub fn line(&mut self)
        requires
            old(self).wf(),
            old(self)@.line_start < old(self)@.cursor,
        ensures
            final(self).wf(),
            final(self)@ == old(self)@.line_broken(),
    {
        self.state.line = self.state.line + 1;
        self.state.start.character_line = self.state.cursor.character;
    }
}

impl<K: Copy> Default for Lexer<K> {
    /// A tokenizer over the empty text, without logging.
    fn default() -> (lexer: Lexer<K>)
        ensures
            lexer.wf(),
            lexer@ == LexerView::<K>::initial(Seq::empty(), false),
    {
        Lexer::new(String::new(), false)
    }
}

/// A grammar's state machine. A scan starts in the start state; each step
/// looks at the text through the tokenizer's cursor, may finish tokens on the
/// trivia and invalid channels, and either names the state to go on in or ends
/// the scan with a token for the parser.
///
/// A grammar may keep things of its own that its steps read and change, such
/// as a table in which it interns the names it meets: its model. A grammar
/// says what its machine does twice: as a function of values, which the
/// contracts of the tokenizer speak of, and as the code that runs.
pub trait Grammar<K: Copy> {
    /// The states of the machine.
    type State;

    /// What the grammar knows, as far as its steps read and change it.
    type Model;

    /// What this grammar knows.
    spec fn model(&self) -> Self::Model;

    /// The grammar's own invariant.
    spec fn wf(&self) -> bool;

    /// The state in which every scan starts.
    spec fn start_spec() -> Self::State;

    /// What a step from `state` decides, what it makes of the tokenizer, and
    /// what the grammar knows after it.
    spec fn step_spec(model: Self::Model, state: Self::State, lexer: LexerView<K>) -> (
        Transition<Self::State, K>,
        LexerView<K>,
        Self::Model,
    );

    /// A bound on the number of steps that a scan still takes from `state`.
    spec fn fuel(state: Self::State, lexer: LexerView<K>) -> nat;

    /// What every grammar owes: a step keeps the tokenizer's invariant,
    /// leaves the current token and the lookahead alone, and only adds to the
    /// logs. If it goes on, the bound on the steps left has gone down: no
    /// scan runs for ever. If it ends the scan, it does so with a token over
    /// text that this scan has read, which is logged if logging is on.
    proof fn lemma_step(model: Self::Model, state: Self::State, lexer: LexerView<K>)
        requires
            lexer.wf(),
        ensures
            Self::step_spec(model, state, lexer).1.wf(),
            lexer.steps_to(Self::step_spec(model, state, lexer).1),
            match Self::step_spec(model, state, lexer).0 {
                Transition::Next(s) => Self::fuel(s, Self::step_spec(model, state, lexer).1)
                    < Self::fuel(state, lexer),
                Transition::Done(token) => lexer.ends_with(
                    Self::step_spec(model, state, lexer).1,
                    token,
                ),
            },
    ;

    /// The state in which every scan starts.
    fn start(&self) -> (state: Self::State)
        ensures
            state == Self::start_spec(),
    ;

    /// Takes one step from `state`.
    fn step(&mut self, state: Self::State, lexer: &mut Lexer<K>) -> (next: Transition<
        Self::State,
        K,
    >)
        requires
            old(self).wf(),
            old(lexer).wf(),
        ensures
            final(self).wf(),
            final(lexer).wf(),
            (next, final(lexer)@, final(self).model()) == Self::step_spec(
                old(self).model(),
                state,
                old(lexer)@,
            ),
    ;
}

impl<K: Copy> Lexer<K> {
    /// The invalid tokens so far, oldest first.
    pub fn invalid_iter(&self) -> (tokens: core::slice::Iter<'_, Token<K>>)
        ensures
            vstd::std_specs::slice::into_iter_elts(tokens) == self@.invalid,
    {
        self.invalid.as_slice().iter()
    }

    /// The logged parser and trivia tokens, oldest first.
    pub fn buffer_iter(&self) -> (tokens: core::slice::Iter<'_, Token<K>>)
        ensures
            vstd::std_specs::slice::into_iter_elts(tokens) == self@.buffer,
    {
        self.buffer.as_slice().iter()
    }

    /// Scans the next token for the parser into the current token: it empties
    /// the trivia slot and runs the grammar's machine from its start state
    /// until a step ends the scan.
    pub fn tokenize<G: Grammar<K>>(&mut self, grammar: &mut G)
        requires
            old(self).wf(),
            old(grammar).wf(),
        ensures
            final(self).wf(),
            final(grammar).wf(),
            (final(self)@, final(grammar).model()) == old(self)@.scanned::<G>(
                old(grammar).model(),
            ),
    {
        self.trivia = None;
        let mut state = grammar.start();
        loop
            invariant
                self.wf(),
                grammar.wf(),
                crate::lexer::view::scan_from::<K, G>(grammar.model(), state, self@) == old(
                    self,
                )@.scanned::<G>(old(grammar).model()),
            decreases G::fuel(state, self@),
        {
            proof {
                G::lemma_step(grammar.model(), state, self@);
            }
            match grammar.step(state, self) {
                Transition::Next(next) => {
                    state = next;
                },
                Transition::Done(token) => {
                    self.current = token;
                    return ;
                },
            }
        }
    }

    /// The current token: the one that the parser looks at.
    pub fn current(&self) -> (token: Token<K>)
        ensures
            token == self@.current,
    {
        self.current
    }

    /// The token `offset` places after the current one. Tokens that were not
    /// scanned yet are scanned now and kept in the lookahead; the current
    /// token stays. A look no further than the lookahead reaches changes
    /// nothing. The trivia slot belongs to the latest scan, also where a look
    /// ahead has started it.
    pub fn peek<G: Grammar<K>>(&mut self, grammar: &mut G, offset: usize) -> (token: Token<K>)
        requires
            old(self).wf(),
            old(grammar).wf(),
            offset >= 1,
        ensures
            final(self).wf(),
            final(grammar).wf(),
            (final(self)@, final(grammar).model()) == old(self)@.peeked::<G>(
                old(grammar).model(),
                offset as int,
            ),
            offset <= final(self)@.lookahead.len(),
            token == final(self)@.lookahead[offset - 1],
    {
        let old_current = self.current;
        while offset > self.lookahead.len()
            invariant
                self.wf(),
                grammar.wf(),
                self@.filled::<G>(grammar.model(), offset as int) == old(self)@.filled::<G>(
                    old(grammar).model(),
                    offset as int,
                ),
            decreases offset - self.lookahead.len(),
        {
            proof {
                crate::lexer::view::lemma_looked::<K, G>(grammar.model(), self@);
            }
            self.tokenize(grammar);
            self.lookahead.push_back(self.current);
        }
        self.current = old_current;
        self.lookahead[offset - 1]
    }

    /// Moves on by one token: the oldest token of the lookahead becomes the
    /// current one, or, with nothing looked ahead, the next token is scanned.
    pub fn advance<G: Grammar<K>>(&mut self, grammar: &mut G)
        requires
            old(self).wf(),
            old(grammar).wf(),
        ensures
            final(self).wf(),
            final(grammar).wf(),
            (final(self)@, final(grammar).model()) == old(self)@.advanced::<G>(
                old(grammar).model(),
            ),
    {
        if let Some(token) = self.lookahead.pop_front() {
            proof {
                crate::lexer::view::lemma_advanced::<K, G>(grammar.model(), old(self)@);
            }
            self.current = token;
        } else {
            self.tokenize(grammar);
        }
    }

    /// The trivia token that the latest scan met last, if it met one.
    pub fn trivia(&self) -> (token: Option<Token<K>>)
        ensures
            token == self@.trivia,
    {
        self.trivia
    }

    /// Ends the token stream here: skips what is left of the input and makes
    /// the current token an end-of-input token that spans from the start of
    /// the current lexeme to the end of the input.
    pub fn finalize(&mut self)
        requires
            old(self).wf(),
        ensures
            final(self).wf(),
            final(self)@ == old(self)@.finalized(),
    {
        loop
            invariant
                self.wf(),
                old(self)@.cursor <= self@.cursor,
                self@ == (LexerView { cursor: self@.cursor, width: self@.width, ..old(self)@ }),
            ensures
                self.wf(),
                self@ == (LexerView {
                    cursor: old(self)@.input.len() as int,
                    width: 0,
                    ..old(self)@
                }),
            decreases self@.input.len() - self@.cursor,
        {
            if self.consume().is_none() {
                break ;
            }
        }
        proof {
            self@.lemma_start_before_here();
        }
        let end = Position::new(
            self.state.line,
            self.state.cursor.character - self.state.start.character_line,
        );
        self.current = Token::new(TokenKind::EOF, Range::new(self.state.start.pos, end));
    }

    /// Scans the next token, past anything looked ahead, and returns it,
    /// unless it is the end of the input.
    pub fn next<G: Grammar<K>>(&mut self, grammar: &mut G) -> (token: Option<Token<K>>)
        requires
            old(self).wf(),
            old(grammar).wf(),
        ensures
            final(self).wf(),
            final(grammar).wf(),
            (final(self)@, final(grammar).model()) == old(self)@.scanned::<G>(
                old(grammar).model(),
            ),
            token == if final(self)@.current.kind == TokenKind::<K>::EOF {
                None
            } else {
                Some(final(self)@.current)
            },
    {
        self.tokenize(grammar);
        let token = self.current();
        if !token.is_eof() {
            Some(token)
        } else {
            None
        }
    }
}

} // verus!
