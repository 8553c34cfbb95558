//! The tokenizer as a value: what it holds, what each operation makes of it,
//! and what follows of that.

use crate::lexer::{EmitMode, Grammar, Transition};
use crate::token::{Position, Range, Token, TokenKind};
use vstd::prelude::*;

verus! {

/// What a [`Lexer`] holds, with offsets counted in characters.
pub struct LexerView<K> {
    /// The source text.
    pub input: Seq<char>,
    /// Whether parser and trivia tokens are logged.
    pub log: bool,
    /// The index of the character that is read next.
    pub cursor: int,
    /// The byte width of the character read last; zero after a read at the end.
    pub width: int,
    /// The index of the first character of the current lexeme.
    pub start: int,
    /// The index of the first character of the current line.
    pub line_start: int,
    /// The current line.
    pub line: int,
    /// The position of the first character of the current lexeme.
    pub start_pos: Position,
    /// The token that the last scan ended with.
    pub current: Token<K>,
    /// The tokens scanned ahead of `current`.
    pub lookahead: Seq<Token<K>>,
    /// The log of parser and trivia tokens.
    pub buffer: Seq<Token<K>>,
    /// The log of invalid tokens.
    pub invalid: Seq<Token<K>>,
    /// The trivia slot.
    pub trivia: Option<Token<K>>,
}

impl<K> LexerView<K> {
    /// A tokenizer that has read nothing of `input` yet.
    pub open spec fn initial(input: Seq<char>, log: bool) -> Self {
        LexerView {
            input,
            log,
            cursor: 0,
            width: 0,
            start: 0,
            line_start: 0,
            line: 0,
            start_pos: Position { line: 0, column: 0 },
            current: Token {
                kind: TokenKind::EOF,
                range: Range {
                    start: Position { line: 0, column: 0 },
                    end: Position { line: 0, column: 0 },
                },
            },
            lookahead: Seq::empty(),
            buffer: Seq::empty(),
            invalid: Seq::empty(),
            trivia: None,
        }
    }

    /// The position of the cursor.
    pub open spec fn here(self) -> Position {
        Position { line: self.line as u32, column: (self.cursor - self.line_start) as u32 }
    }

    /// Whether `tokens` lie in the text in their order, each a proper span,
    /// and all of them before the current lexeme.
    pub open spec fn holds_in_order(self, tokens: Seq<Token<K>>) -> bool {
        &&& crate::token::ordered(tokens)
        &&& forall|i: int|
            0 <= i < tokens.len() ==> (#[trigger] tokens[i]).range.wf()
                && tokens[i].range.end.at_or_before(self.start_pos)
    }

    /// What holds of every tokenizer between two calls.
    pub open spec fn wf(self) -> bool {
        &&& self.input.len() <= u32::MAX
        &&& 0 <= self.start <= self.cursor <= self.input.len()
        &&& 0 <= self.line <= self.line_start <= self.cursor
        &&& 0 <= self.width
        &&& self.start_pos.line <= self.line
        &&& self.start_pos.line == self.line ==> self.line_start <= self.start
            && self.start_pos.column == self.start - self.line_start
        &&& self.holds_in_order(self.lookahead)
        &&& self.holds_in_order(self.buffer)
        &&& self.holds_in_order(self.invalid)
    }

    /// The character under the cursor, if the cursor is not at the end.
    pub open spec fn next_char(self) -> Option<char> {
        if self.cursor < self.input.len() {
            Some(self.input[self.cursor])
        } else {
            None
        }
    }

    /// The tokenizer after it has read one character, or has found the end.
    pub open spec fn consumed(self) -> Self {
        if self.cursor < self.input.len() {
            LexerView {
                cursor: self.cursor + 1,
                width: crate::text::width(self.input[self.cursor]) as int,
                ..self
            }
        } else {
            LexerView { width: 0, ..self }
        }
    }

    /// Whether the character before the cursor is the one read last, and
    /// belongs to the current lexeme and the current line.
    pub open spec fn can_backup(self) -> bool {
        &&& self.start < self.cursor
        &&& self.line_start < self.cursor
        &&& self.width == crate::text::width(self.input[self.cursor - 1])
    }

    /// The tokenizer with the cursor one character back.
    pub open spec fn backed_up(self) -> Self {
        LexerView { cursor: self.cursor - 1, ..self }
    }

    /// The tokenizer with the cursor at `at`, after a read there that was
    /// taken back, or that found the end.
    pub open spec fn stopped_at(self, at: int) -> Self {
        LexerView {
            cursor: at,
            width: if at < self.input.len() {
                crate::text::width(self.input[at]) as int
            } else {
                0
            },
            ..self
        }
    }

    /// Whether `pred` can be called on every character from the cursor on.
    pub open spec fn may_test<F: FnOnce(char) -> bool>(self, pred: F) -> bool {
        forall|i: int|
            self.cursor <= i < self.input.len() ==> call_requires(pred, (#[trigger] self.input[i],))
    }

    /// The tokenizer after it has read one character and has kept it
    /// (`taken`) or has taken it back.
    pub open spec fn accepted(self, taken: bool) -> Self {
        if taken {
            self.consumed()
        } else {
            self.stopped_at(self.cursor)
        }
    }

    /// Whether `width` is the width of the character before the cursor, or
    /// zero.
    pub open spec fn tracks_last_read(self) -> bool {
        self.width == 0 || (0 < self.cursor && self.width == crate::text::width(
            self.input[self.cursor - 1],
        ))
    }

    /// The character read last, if the last read did not find the end.
    pub open spec fn last_read(self) -> Option<char> {
        if self.width == 0 {
            None
        } else {
            Some(self.input[self.cursor - 1])
        }
    }

    /// The text of the current lexeme without its first `skip_start` and its
    /// last `skip_end` characters.
    pub open spec fn lexeme(self, skip_start: int, skip_end: int) -> Seq<char> {
        self.input.subrange(self.start + skip_start, self.cursor - skip_end)
    }

    /// The tokenizer with the current lexeme dropped: the next one starts at
    /// the cursor.
    pub open spec fn ignored(self) -> Self {
        LexerView { start: self.cursor, start_pos: self.here(), ..self }
    }

    /// The token of kind `kind` over the current lexeme.
    pub open spec fn token(self, kind: TokenKind<K>) -> Token<K> {
        Token { kind, range: Range { start: self.start_pos, end: self.here() } }
    }

    /// The log of parser and trivia tokens after `token` was offered to it.
    pub open spec fn logged(self, token: Token<K>) -> Seq<Token<K>> {
        if self.log {
            self.buffer.push(token)
        } else {
            self.buffer
        }
    }

    /// The tokenizer after the current lexeme was finished as a token of
    /// kind `kind` on the channel `mode`.
    pub open spec fn emitted(self, kind: TokenKind<K>, mode: EmitMode) -> Self {
        let token = self.token(kind);
        match mode {
            EmitMode::Parser => LexerView { buffer: self.logged(token), ..self.ignored() },
            EmitMode::Trivia => LexerView {
                buffer: self.logged(token),
                trivia: Some(token),
                ..self.ignored()
            },
            EmitMode::Invalid => LexerView { invalid: self.invalid.push(token), ..self.ignored() },
        }
    }

    /// The tokenizer after a line break was recorded at the cursor.
    pub open spec fn line_broken(self) -> Self {
        LexerView { line: self.line + 1, line_start: self.cursor, ..self }
    }

    /// Whether `token` is a proper span that lies between the start of the
    /// current lexeme of `self` and that of `next`.
    pub open spec fn spans(self, next: Self, token: Token<K>) -> bool {
        &&& token.range.wf()
        &&& self.start_pos.at_or_before(token.range.start)
        &&& token.range.end.at_or_before(next.start_pos)
    }

    /// Whether `next` can come of `self` by scanning: the text, the logging
    /// flag and the lookahead are the same, the logs have only grown (the
    /// log of parser and trivia tokens only with logging on), and the start
    /// of the current lexeme has not moved back.
    pub open spec fn grows_to(self, next: Self) -> bool {
        &&& next.input == self.input
        &&& next.log == self.log
        &&& next.lookahead == self.lookahead
        &&& self.buffer.is_prefix_of(next.buffer)
        &&& self.invalid.is_prefix_of(next.invalid)
        &&& !self.log ==> next.buffer == self.buffer
        &&& self.start_pos.at_or_before(next.start_pos)
    }

    /// Whether `next` can come of `self` by steps of one scan: as in
    /// [`Self::grows_to`], with the same current token, and with a trivia
    /// slot that is the same or holds a token met on the way.
    pub open spec fn steps_to(self, next: Self) -> bool {
        &&& self.grows_to(next)
        &&& next.current == self.current
        &&& next.trivia == self.trivia || (next.trivia matches Some(t) && self.spans(next, t))
    }

    /// Whether the scan that led from `self` to `next` ended properly with
    /// `token`: the token lies between the two lexeme starts, and with
    /// logging on it is the last entry of the log.
    pub open spec fn ends_with(self, next: Self, token: Token<K>) -> bool {
        &&& self.spans(next, token)
        &&& next.log ==> next.buffer.len() > self.buffer.len() && next.buffer.last() == token
    }

    /// Whether `next` can come of `self` by one whole scan: the new current
    /// token is what the scan ended with, and the trivia slot is empty or
    /// holds a token met on the way.
    pub open spec fn scans_to(self, next: Self) -> bool {
        &&& self.grows_to(next)
        &&& self.ends_with(next, next.current)
        &&& next.trivia matches Some(t) ==> self.spans(next, t)
    }

    /// Whether `next` can come of `self` by a look `n` tokens ahead: the
    /// current token is the same, and the lookahead has grown at its end to
    /// `n` tokens, if it had fewer.
    pub open spec fn peeks_to(self, next: Self, n: int) -> bool {
        &&& next.input == self.input
        &&& next.log == self.log
        &&& next.current == self.current
        &&& self.lookahead.is_prefix_of(next.lookahead)
        &&& next.lookahead.len() == if self.lookahead.len() < n {
            n
        } else {
            self.lookahead.len() as int
        }
        &&& self.buffer.is_prefix_of(next.buffer)
        &&& self.invalid.is_prefix_of(next.invalid)
        &&& !self.log ==> next.buffer == self.buffer
        &&& self.start_pos.at_or_before(next.start_pos)
        &&& n <= self.lookahead.len() ==> next == self
    }

    /// The tokenizer after the oldest token of the lookahead has become the
    /// current one.
    pub open spec fn popped(self) -> Self {
        LexerView { current: self.lookahead[0], lookahead: self.lookahead.drop_first(), ..self }
    }

    /// The tokenizer after `n` tokens of the lookahead, one after the other,
    /// have become the current one.
    pub open spec fn popped_n(self, n: nat) -> Self
        decreases n,
    {
        if n == 0 {
            self
        } else {
            self.popped().popped_n((n - 1) as nat)
        }
    }

    /// Whether the current token lies before everything that follows it: the
    /// lookahead, or else the current lexeme.
    pub open spec fn in_sequence(self) -> bool {
        self.current.range.end.at_or_before(
            if self.lookahead.len() > 0 {
                self.lookahead[0].range.start
            } else {
                self.start_pos
            },
        )
    }

    /// The tokenizer after the rest of the input was skipped and an
    /// end-of-input token was made of the current lexeme.
    pub open spec fn finalized(self) -> Self {
        let end = LexerView { cursor: self.input.len() as int, width: 0, ..self };
        LexerView { current: end.token(TokenKind::EOF), ..end }
    }
}

/// The index of the first character of `input`, from `from` on, of which
/// `holds` is false; the length of `input` if there is none.
pub open spec fn run_end(input: Seq<char>, from: int, holds: spec_fn(char) -> bool) -> int
    decreases input.len() - from,
{
    if 0 <= from < input.len() && holds(input[from]) {
        run_end(input, from + 1, holds)
    } else {
        from
    }
}

/// The tokenizer, and what the grammar knows, at the end of a scan that
/// stands in `state`: the grammar's steps one after the other, until one ends
/// the scan with a token, which becomes the current one.
pub open spec fn scan_from<K: Copy, G: Grammar<K>>(
    model: G::Model,
    state: G::State,
    lexer: LexerView<K>,
) -> (LexerView<K>, G::Model)
    decreases G::fuel(state, lexer),
    when lexer.wf()
{
    let (next, after, known) = G::step_spec(model, state, lexer);
    match next {
        Transition::Done(token) => (LexerView { current: token, ..after }, known),
        Transition::Next(s) => {
            proof {
                G::lemma_step(model, state, lexer);
            }
            scan_from::<K, G>(known, s, after)
        },
    }
}

impl<K: Copy> LexerView<K> {
    /// The tokenizer after one scan by a grammar that knows `model`, and what
    /// the grammar knows then: the trivia slot is emptied, and the grammar's
    /// machine runs from its start state.
    pub open spec fn scanned<G: Grammar<K>>(self, model: G::Model) -> (Self, G::Model) {
        scan_from::<K, G>(model, G::start_spec(), LexerView { trivia: None, ..self })
    }

    /// The tokenizer after one scan whose token went to the end of the
    /// lookahead.
    pub open spec fn looked<G: Grammar<K>>(self, model: G::Model) -> (Self, G::Model) {
        let (after, known) = self.scanned::<G>(model);
        (LexerView { lookahead: after.lookahead.push(after.current), ..after }, known)
    }

    /// The tokenizer after as many scans into the lookahead as it takes to
    /// have `n` tokens there.
    pub open spec fn filled<G: Grammar<K>>(self, model: G::Model, n: int) -> (Self, G::Model)
        decreases n - self.lookahead.len(),
        when self.wf()
    {
        if self.lookahead.len() >= n {
            (self, model)
        } else {
            proof {
                lemma_scanned::<K, G>(model, self);
            }
            let (next, known) = self.looked::<G>(model);
            next.filled::<G>(known, n)
        }
    }

    /// The tokenizer after a look `n` tokens ahead: the lookahead is filled
    /// up to `n` tokens, and the current token is the one it was.
    pub open spec fn peeked<G: Grammar<K>>(self, model: G::Model, n: int) -> (Self, G::Model) {
        let (ahead, known) = self.filled::<G>(model, n);
        (LexerView { current: self.current, ..ahead }, known)
    }

    /// The tokenizer after a move to the next token: out of the lookahead if
    /// it holds one, else by a scan.
    pub open spec fn advanced<G: Grammar<K>>(self, model: G::Model) -> (Self, G::Model) {
        if self.lookahead.len() > 0 {
            (self.popped(), model)
        } else {
            self.scanned::<G>(model)
        }
    }

    /// The tokenizer after `n` moves.
    pub open spec fn advanced_n<G: Grammar<K>>(self, model: G::Model, n: nat) -> (Self, G::Model)
        decreases n,
    {
        if n == 0 {
            (self, model)
        } else {
            let (next, known) = self.advanced::<G>(model);
            next.advanced_n::<G>(known, (n - 1) as nat)
        }
    }

    /// The tokenizer after looks 1, 2, ... `k` tokens ahead, one after the
    /// other.
    pub open spec fn peeked_upto<G: Grammar<K>>(self, model: G::Model, k: nat) -> (Self, G::Model)
        decreases k,
    {
        if k == 0 {
            (self, model)
        } else {
            let (before, known) = self.peeked_upto::<G>(model, (k - 1) as nat);
            before.peeked::<G>(known, k as int)
        }
    }
}

impl<K> LexerView<K> {
    /// The start of the current lexeme is at or before the cursor.
    pub proof fn lemma_start_before_here(self)
        requires
            self.wf(),
        ensures
            self.start_pos.at_or_before(self.here()),
            self.token(TokenKind::EOF).range.wf(),
    {
    }

    /// The cursor may move anywhere in the current lexeme and line.
    pub proof fn lemma_moved(self, at: int, width: int)
        requires
            self.wf(),
            self.start <= at <= self.input.len(),
            self.line_start <= at,
            0 <= width,
        ensures
            (LexerView { cursor: at, width, ..self }).wf(),
            self.steps_to(LexerView { cursor: at, width, ..self }),
    {
    }

    /// Reading a character keeps the invariant, and what was read can be
    /// taken back.
    pub proof fn lemma_consumed(self)
        requires
            self.wf(),
        ensures
            self.consumed().wf(),
            self.steps_to(self.consumed()),
            self.next_char() is Some ==> self.consumed().can_backup()
                && self.consumed().backed_up() == self.stopped_at(self.cursor),
    {
    }

    /// Tokens before the current lexeme are before every later place.
    pub proof fn lemma_holds_in_order(self, tokens: Seq<Token<K>>, to: Position)
        requires
            self.holds_in_order(tokens),
            self.start_pos.at_or_before(to),
        ensures
            (LexerView { start_pos: to, ..self }).holds_in_order(tokens),
    {
    }

    /// Dropping the current lexeme keeps the invariant.
    pub proof fn lemma_ignored(self)
        requires
            self.wf(),
        ensures
            self.ignored().wf(),
            self.steps_to(self.ignored()),
    {
        self.lemma_holds_in_order(self.lookahead, self.here());
        self.lemma_holds_in_order(self.buffer, self.here());
        self.lemma_holds_in_order(self.invalid, self.here());
    }

    /// Finishing the current lexeme as a token keeps the invariant; the
    /// token is a proper span over the lexeme, and on the parser channel it
    /// ends the scan properly.
    pub proof fn lemma_emitted(self, kind: TokenKind<K>, mode: EmitMode)
        requires
            self.wf(),
        ensures
            self.emitted(kind, mode).wf(),
            self.steps_to(self.emitted(kind, mode)),
            self.spans(self.emitted(kind, mode), self.token(kind)),
            mode == EmitMode::Parser ==> self.ends_with(self.emitted(kind, mode), self.token(kind)),
    {
        self.lemma_ignored();
    }

    /// Recording a line break behind a character of the line keeps the
    /// invariant.
    pub proof fn lemma_line_broken(self)
        requires
            self.wf(),
            self.line_start < self.cursor,
        ensures
            self.line_broken().wf(),
            self.steps_to(self.line_broken()),
    {
    }
}

/// A run of characters of which `holds` is true, that ends at a character of
/// which it is false or at the end of the input, ends where `run_end` says.
pub proof fn lemma_run_end(input: Seq<char>, from: int, to: int, holds: spec_fn(char) -> bool)
    requires
        0 <= from <= to <= input.len(),
        forall|i: int| from <= i < to ==> holds(#[trigger] input[i]),
        to < input.len() ==> !holds(input[to]),
    ensures
        run_end(input, from, holds) == to,
    decreases to - from,
{
    if from < to {
        lemma_run_end(input, from + 1, to, holds);
    }
}

/// A run ends between its start and the end of the input.
pub proof fn lemma_run_end_bounds(input: Seq<char>, from: int, holds: spec_fn(char) -> bool)
    requires
        0 <= from <= input.len(),
    ensures
        from <= run_end(input, from, holds) <= input.len(),
    decreases input.len() - from,
{
    if from < input.len() && holds(input[from]) {
        lemma_run_end_bounds(input, from + 1, holds);
    }
}

/// Scanning on from a state that scanning has led to is scanning still.
pub proof fn lemma_steps_transitive<K>(a: LexerView<K>, b: LexerView<K>, c: LexerView<K>)
    requires
        a.steps_to(b),
        b.steps_to(c),
    ensures
        a.steps_to(c),
{
    crate::token::lemma_at_or_before_transitive(a.start_pos, b.start_pos, c.start_pos);
}

/// A scan keeps the invariant, and ends properly with its token: the steps
/// of the grammar carry their promises through the whole scan.
pub proof fn lemma_scan_from<K: Copy, G: Grammar<K>>(
    model: G::Model,
    state: G::State,
    lexer: LexerView<K>,
)
    requires
        lexer.wf(),
    ensures
        scan_from::<K, G>(model, state, lexer).0.wf(),
        lexer.steps_to(
            LexerView { current: lexer.current, ..scan_from::<K, G>(model, state, lexer).0 },
        ),
        lexer.ends_with(
            scan_from::<K, G>(model, state, lexer).0,
            scan_from::<K, G>(model, state, lexer).0.current,
        ),
    decreases G::fuel(state, lexer),
{
    G::lemma_step(model, state, lexer);
    let (next, after, known) = G::step_spec(model, state, lexer);
    match next {
        Transition::Done(token) => {},
        Transition::Next(s) => {
            lemma_scan_from::<K, G>(known, s, after);
            let end = scan_from::<K, G>(known, s, after).0;
            lemma_steps_transitive(lexer, after, LexerView { current: after.current, ..end });
        },
    }
}

/// One scan keeps the invariant and leads to a state that `scans_to`
/// describes.
pub proof fn lemma_scanned<K: Copy, G: Grammar<K>>(model: G::Model, lexer: LexerView<K>)
    requires
        lexer.wf(),
    ensures
        lexer.scanned::<G>(model).0.wf(),
        lexer.scans_to(lexer.scanned::<G>(model).0),
{
    lemma_scan_from::<K, G>(model, G::start_spec(), LexerView { trivia: None, ..lexer });
}

/// One scan into the lookahead keeps the invariant and adds one token to
/// the lookahead, behind the others.
pub proof fn lemma_looked<K: Copy, G: Grammar<K>>(model: G::Model, lexer: LexerView<K>)
    requires
        lexer.wf(),
    ensures
        lexer.looked::<G>(model).0.wf(),
        lexer.looked::<G>(model).0.lookahead == lexer.lookahead.push(
            lexer.scanned::<G>(model).0.current,
        ),
        lexer.peeks_to(
            LexerView { current: lexer.current, ..lexer.looked::<G>(model).0 },
            lexer.lookahead.len() as int + 1,
        ),
        lexer.start_pos.at_or_before(lexer.scanned::<G>(model).0.current.range.start),
{
    lemma_scanned::<K, G>(model, lexer);
}

/// Filling the lookahead keeps the invariant, keeps what the lookahead
/// held, and stops at `n` tokens.
pub proof fn lemma_filled<K: Copy, G: Grammar<K>>(model: G::Model, lexer: LexerView<K>, n: int)
    requires
        lexer.wf(),
    ensures
        lexer.filled::<G>(model, n).0.wf(),
        lexer.peeks_to(lexer.peeked::<G>(model, n).0, n),
        lexer.lookahead.len() == 0 && lexer.filled::<G>(model, n).0.lookahead.len() > 0
            ==> lexer.start_pos.at_or_before(
            lexer.filled::<G>(model, n).0.lookahead[0].range.start,
        ),
    decreases n - lexer.lookahead.len(),
{
    if lexer.lookahead.len() < n {
        lemma_looked::<K, G>(model, lexer);
        let (next, known) = lexer.looked::<G>(model);
        lemma_filled::<K, G>(known, next, n);
        let at = lexer.lookahead.len() as int;
        assert(lexer.filled::<G>(model, n).0.lookahead[at] == next.lookahead[at]);
    }
}

/// A look ahead keeps the invariant; `peeks_to` describes what it leads to;
/// and a current token that lay before what follows it still does.
pub proof fn lemma_peeked<K: Copy, G: Grammar<K>>(model: G::Model, lexer: LexerView<K>, n: int)
    requires
        lexer.wf(),
    ensures
        lexer.peeked::<G>(model, n).0.wf(),
        lexer.peeks_to(lexer.peeked::<G>(model, n).0, n),
        lexer.in_sequence() ==> lexer.peeked::<G>(model, n).0.in_sequence(),
{
    lemma_filled::<K, G>(model, lexer, n);
}

/// The tokens that the parser sees lie in the text in the order in which it
/// sees them: a move keeps the invariant, and if the current token lay
/// before what follows it, the new current token starts at or after its
/// end, and again lies before what follows.
pub proof fn lemma_advanced<K: Copy, G: Grammar<K>>(model: G::Model, lexer: LexerView<K>)
    requires
        lexer.wf(),
    ensures
        lexer.advanced::<G>(model).0.wf(),
        lexer.lookahead.len() == 0 ==> lexer.scans_to(lexer.advanced::<G>(model).0),
        lexer.in_sequence() ==> lexer.advanced::<G>(model).0.in_sequence()
            && lexer.current.range.end.at_or_before(
            lexer.advanced::<G>(model).0.current.range.start,
        ),
{
    if lexer.lookahead.len() > 0 {
        let after = lexer.popped();
        assert forall|i: int| 0 <= i < after.lookahead.len() implies #[trigger] after.lookahead[i]
            == lexer.lookahead[i + 1] by {}
    } else {
        lemma_scanned::<K, G>(model, lexer);
    }
}

/// Moves through a lookahead of `n` tokens or more take its tokens one by
/// one, and the grammar learns nothing by them.
pub proof fn lemma_advanced_n<K: Copy, G: Grammar<K>>(
    model: G::Model,
    lexer: LexerView<K>,
    n: nat,
)
    requires
        n <= lexer.lookahead.len(),
    ensures
        lexer.advanced_n::<G>(model, n) == (lexer.popped_n(n), model),
    decreases n,
{
    if n > 0 {
        lemma_advanced_n::<K, G>(model, lexer.popped(), (n - 1) as nat);
    }
}

/// Looks further and further ahead keep the invariant and what earlier
/// looks have returned.
pub proof fn lemma_peeked_upto<K: Copy, G: Grammar<K>>(
    model: G::Model,
    lexer: LexerView<K>,
    j: nat,
    k: nat,
)
    requires
        lexer.wf(),
        j <= k,
    ensures
        lexer.peeked_upto::<G>(model, k).0.wf(),
        j <= lexer.peeked_upto::<G>(model, j).0.lookahead.len(),
        lexer.peeked_upto::<G>(model, j).0.lookahead.is_prefix_of(
            lexer.peeked_upto::<G>(model, k).0.lookahead,
        ),
    decreases k,
{
    if k > 0 {
        let (before, known) = lexer.peeked_upto::<G>(model, (k - 1) as nat);
        if j < k {
            lemma_peeked_upto::<K, G>(model, lexer, j, (k - 1) as nat);
        } else {
            lemma_peeked_upto::<K, G>(model, lexer, (k - 1) as nat, (k - 1) as nat);
        }
        lemma_peeked::<K, G>(known, before, k as int);
    }
}

/// Looking ahead and then moving on shows the same tokens: after looks 1, 2,
/// ... `k` tokens ahead, the `j`th move makes current the token that the look
/// `j` ahead returned.
pub proof fn lemma_peek_then_advance<K: Copy, G: Grammar<K>>(
    model: G::Model,
    lexer: LexerView<K>,
    k: nat,
    j: nat,
)
    requires
        lexer.wf(),
        1 <= j <= k,
    ensures
        j <= lexer.peeked_upto::<G>(model, j).0.lookahead.len(),
        lexer.peeked_upto::<G>(model, k).0.advanced_n::<G>(
            lexer.peeked_upto::<G>(model, k).1,
            j,
        ).0.current == lexer.peeked_upto::<G>(model, j).0.lookahead[j - 1],
{
    lemma_peeked_upto::<K, G>(model, lexer, j, k);
    let (last, known) = lexer.peeked_upto::<G>(model, k);
    lemma_advanced_n::<K, G>(known, last, j);
    lemma_popped_n(last, j);
}

/// After `n` moves through the lookahead the current token is its `n`th, and
/// the lookahead is what was behind that.
pub proof fn lemma_popped_n<K>(v: LexerView<K>, n: nat)
    requires
        1 <= n <= v.lookahead.len(),
    ensures
        v.popped_n(n).current == v.lookahead[n - 1],
        v.popped_n(n).lookahead == v.lookahead.skip(n as int),
    decreases n,
{
    if n == 1 {
        reveal_with_fuel(LexerView::popped_n, 2);
    } else {
        lemma_popped_n(v.popped(), (n - 1) as nat);
    }
}

/// Of two scans, one after the other, the second ends with a token that lies
/// after the token of the first.
pub proof fn lemma_scans_in_order<K>(a: LexerView<K>, b: LexerView<K>, c: LexerView<K>)
    requires
        a.scans_to(b),
        b.scans_to(c),
    ensures
        b.current.range.end.at_or_before(c.current.range.start),
{
}

} // verus!
