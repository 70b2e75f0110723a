//! The tokenizer: maximal munch over the buffer, driven by the automaton.

use vstd::prelude::*;
use crate::buffer::{Buffer, BufferError};
use crate::dfa::{is_space, DfaState};
use crate::history::History;
use crate::scan::{all_spaces, reach, run, scan, Scan, MAX_TOKEN};
use crate::scan::{lemma_leading_spaces, lemma_leading_spaces_of_token, lemma_leading_spaces_push};
use crate::scan::{lemma_leading_spaces_take, lemma_long_run_is_too_long, lemma_longest_match};
use crate::scan::{lemma_reach_at_least, lemma_reach_is, lemma_run_push};
use crate::scan::{lemma_spaces_scan_to_end, lemma_start_means_spaces};
use crate::source::ByteSource;
use crate::spelling::{lemma_scanned_meaning, lemma_token_spells_lexeme};
use crate::token::{leading_spaces, meaning, text_of, tokenize, trim, Token};

verus! {

/// Why a call of the tokenizer returned no token.
#[derive(Debug)]
pub enum TokenizerError {
    /// A run of digits writes a number that does not fit into 32 bits.
    IntParseError,
    /// The buffer failed, or the token is too large: the source's error, or
    /// `RollBackError` for a rollback over the fence and for a token of more
    /// than `MAX_TOKEN` characters.
    FileError(BufferError),
    /// The stream ended with no token pending.
    EndOfFile,
    /// The text at the cursor begins no token. Holds the characters read:
    /// the spaces that were skipped and the character that begins no token.
    InvalidToken(String),
    /// A lexeme that its table does not hold.
    Unknown,
}

/// A tokenizer over a byte source, with a buffer of 4096 bytes of its own.
pub struct Tokenizer<R: ByteSource> {
    buffer: Buffer<R, 4096>,
}

/// The history of a scan that has read `read` characters and stands in
/// `state`: an accepting state alone, or `Start` once for each space read,
/// above `Error`.
spec fn trail(state: DfaState, read: nat) -> Seq<DfaState> {
    if state.accepting() {
        seq![state]
    } else {
        seq![DfaState::Error] + Seq::new(read, |i: int| DfaState::Start)
    }
}

/// Whether `r` is what a call owes for the text `rest` from its cursor on.
/// `blocked` says that the fence has passed that cursor, so that nothing
/// can be given back.
///
/// A run of more than `MAX_TOKEN` characters behind the spaces is refused
/// with `RollBackError`: a token is no longer than half the buffer. The
/// spaces before a token do not count.
pub open spec fn answers(rest: Seq<char>, blocked: bool, r: Result<Token, TokenizerError>) -> bool {
    match scan(rest) {
        Scan::Token { skipped, end, state } => meaning(
            state,
            rest.subrange(skipped as int, end as int),
        ).is_met_by(r),
        Scan::TooLong { skipped } => r matches Err(
            TokenizerError::FileError(BufferError::RollBackError),
        ),
        Scan::End => r matches Err(TokenizerError::EndOfFile),
        Scan::Invalid { skipped } => if blocked {
            r matches Err(TokenizerError::FileError(BufferError::RollBackError))
        } else {
            r matches Err(TokenizerError::InvalidToken(raw)) && raw@ == rest.take(
                skipped as int + 1,
            )
        },
    }
}

/// How many characters of `rest` a call consumes: the spaces and the token,
/// the spaces and the first `MAX_TOKEN` characters of a run too long for a
/// token, all of a text without a token, and nothing before a character that
/// begins no token.
pub open spec fn consumed(rest: Seq<char>) -> nat {
    match scan(rest) {
        Scan::Token { skipped, end, state } => end,
        Scan::TooLong { skipped } => skipped + MAX_TOKEN as nat,
        Scan::End => rest.len(),
        Scan::Invalid { skipped } => 0,
    }
}

/// A text of nothing but spaces gives no token: the call that scans it
/// consumes all of it and returns `EndOfFile`.
pub proof fn lemma_spaces_give_no_token(
    rest: Seq<char>,
    blocked: bool,
    r: Result<Token, TokenizerError>,
)
    requires
        all_spaces(rest),
        answers(rest, blocked, r),
    ensures
        r matches Err(TokenizerError::EndOfFile),
        consumed(rest) == rest.len(),
{
    lemma_spaces_scan_to_end(rest);
}

/// The bound on a token. Where the automaton reads more than `MAX_TOKEN`
/// characters behind the spaces, the call fails with `RollBackError`, the
/// error of a token too large, and returns no token, neither the whole run
/// nor a beginning of it. It has consumed the spaces and `MAX_TOKEN`
/// characters of the run.
pub proof fn lemma_long_token_is_refused(
    rest: Seq<char>,
    blocked: bool,
    r: Result<Token, TokenizerError>,
)
    requires
        reach(DfaState::Start, rest) > leading_spaces(rest) + MAX_TOKEN,
        answers(rest, blocked, r),
    ensures
        r matches Err(TokenizerError::FileError(BufferError::RollBackError)),
        consumed(rest) == leading_spaces(rest) + MAX_TOKEN,
{
    lemma_long_run_is_too_long(rest);
}

/// Round trip. A token that a call returns is written as the characters
/// that the call consumed behind the spaces: what was consumed is those
/// spaces and then the token's spelling, at most `MAX_TOKEN` characters and
/// all that the automaton reads.
pub proof fn lemma_token_is_what_was_read(rest: Seq<char>, blocked: bool, token: Token)
    requires
        answers(rest, blocked, Ok(token)),
    ensures
        scan(rest) is Token,
        leading_spaces(rest) < consumed(rest) <= rest.len(),
        consumed(rest) - leading_spaces(rest) <= MAX_TOKEN,
        consumed(rest) == reach(DfaState::Start, rest),
        rest.take(consumed(rest) as int) == rest.take(leading_spaces(rest) as int)
            + token.spelling(),
{
    lemma_longest_match(rest);
    lemma_token_spells_lexeme(rest, token);
    let skipped = leading_spaces(rest) as int;
    let end = consumed(rest) as int;
    assert(rest.take(end) =~= rest.take(skipped) + rest.subrange(skipped, end));
}

impl<R: ByteSource> Tokenizer<R> {
    /// The buffer that the tokenizer reads from.
    pub closed spec fn source(&self) -> Buffer<R, 4096> {
        self.buffer
    }

    /// The invariant of a tokenizer: that of its buffer.
    pub open spec fn wf(&self) -> bool {
        self.source().wf()
    }

    /// The text delivered by the source so far.
    pub open spec fn text(&self) -> Seq<char> {
        self.source().text()
    }

    /// How many characters of the text lie before the cursor.
    pub open spec fn position(&self) -> nat {
        self.source().position()
    }

    /// A tokenizer over a buffer that has been set up.
    pub fn from_buffer(buffer: Buffer<R, 4096>) -> (r: Self)
        ensures
            r.source() == buffer,
    {
        Tokenizer { buffer }
    }

    /// A tokenizer at the start of `file`. Fails with `EndOfFile` if the
    /// source delivers nothing, and with the source's error if the first read
    /// fails.
    pub fn new(file: R) -> (r: Result<Self, BufferError>)
        ensures
            match r {
                Ok(t) => {
                    &&& t.wf()
                    &&& 0 < t.text().len() <= 2048
                    &&& t.position() == 0
                    &&& t.source().frontier() == 2048
                },
                Err(BufferError::RollBackError) => false,
                Err(_) => true,
            },
    {
        match Buffer::new(file) {
            Ok(buffer) => Ok(Tokenizer { buffer }),
            Err(e) => Err(e),
        }
    }

    /// The next token of the stream.
    ///
    /// The scan starts at the cursor, skips spaces, and takes the longest
    /// run of characters that the automaton accepts. What it finds is a
    /// function of the text from the old cursor on, as far as the source has
    /// delivered it when the call returns:
    /// - a token: the cursor stands behind it, and the token, or
    ///   `IntParseError` for a number too large, is returned;
    /// - a run of more than `MAX_TOKEN` characters that the automaton reads
    ///   without leaving: the call stops behind the first `MAX_TOKEN` of them
    ///   and fails with `RollBackError`, the error of a token too large. No
    ///   token is returned for a beginning of the run;
    /// - nothing but spaces up to the end: `EndOfFile`, with the cursor at the
    ///   end;
    /// - a character that begins no token: the spaces before it are given
    ///   back, and `InvalidToken` holds them and the character. If the fence
    ///   has passed the old cursor, they cannot be given back: the call fails
    ///   with `RollBackError` and the cursor stands at the fence.
    ///
    /// If the source fails, its error is returned; this happens only with the
    /// cursor right before the frontier, at a character that the scan was
    /// about to consume.
    pub fn get_next_token(&mut self) -> (r: Result<Token, TokenizerError>)
        requires
            old(self).wf(),
        ensures
            final(self).wf(),
            old(self).text().is_prefix_of(final(self).text()),
            old(self).position() <= final(self).text().len(),
            old(self).source().frontier() <= final(self).source().frontier(),
            old(self).source().frontier() == final(self).source().frontier() ==> final(self).text()
                == old(self).text(),
            old(self).source().exhausted() ==> final(self).text() == old(self).text(),
            !(r matches Err(TokenizerError::Unknown)),
            (r matches Err(TokenizerError::FileError(BufferError::IoError(_)))) ==> {
                &&& old(self).position() <= final(self).position()
                &&& final(self).position() + 1 == final(self).source().frontier()
                &&& final(self).position() - old(self).position() < reach(
                    DfaState::Start,
                    final(self).text().skip(old(self).position() as int),
                )
                &&& final(self).position() - old(self).position() < leading_spaces(
                    final(self).text().skip(old(self).position() as int),
                ) + MAX_TOKEN
            },
            !(r matches Err(TokenizerError::FileError(BufferError::IoError(_)))) ==> ({
                let rest = final(self).text().skip(old(self).position() as int);
                let blocked = final(self).source().fence_position() > old(self).position();
                &&& answers(rest, blocked, r)
                &&& final(self).position() == if scan(rest) is Invalid && blocked {
                    final(self).source().fence_position()
                } else {
                    old(self).position() + consumed(rest)
                }
                &&& scan(rest) matches Scan::Invalid { skipped } ==> {
                    &&& skipped <= 2048 ==> !blocked
                    &&& skipped >= 4096 ==> blocked
                    &&& old(self).position() + skipped < final(self).source().frontier()
                    &&& final(self).source().frontier() == old(self).source().frontier()
                        || final(self).source().frontier() <= old(self).position() + skipped
                        + 2048
                }
            }),
    {
        let ghost start: nat = self.buffer.position();
        let mut lexeme: Vec<char> = Vec::new();
        let mut history = History::new();
        let mut state = DfaState::Start;
        let mut lookahead: Option<char> = None;
        let mut skipped: usize = 0;
        proof {
            self.buffer.lemma_positions();
            old(self).buffer.lemma_positions();
            assert(self.buffer.text().subrange(start as int, start as int) =~= lexeme@);
            assert(trail(state, 0) =~= seq![DfaState::Error]);
        }
        loop
            invariant_except_break
                lookahead is None,
            invariant
                self.buffer.wf(),
                old(self).buffer.text().is_prefix_of(self.buffer.text()),
                start == old(self).buffer.position(),
                self.buffer.position() == start + lexeme@.len(),
                self.buffer.position() <= self.buffer.text().len(),
                lexeme@ == self.buffer.text().subrange(
                    start as int,
                    self.buffer.position() as int,
                ),
                state == run(DfaState::Start, lexeme@),
                state == DfaState::Start || state.accepting(),
                skipped == leading_spaces(lexeme@),
                state == DfaState::Start ==> skipped == lexeme@.len(),
                state.accepting() ==> skipped < lexeme@.len() && lexeme@.len() - skipped
                    <= MAX_TOKEN,
                forall|j: int|
                    0 <= j < lexeme@.len() ==> run(DfaState::Start, #[trigger] lexeme@.take(j)).step(
                        lexeme@[j],
                    ) != DfaState::Exit,
                history@ == trail(state, lexeme@.len()),
                self.buffer.frontier() == old(self).buffer.frontier() || self.buffer.frontier()
                    <= self.buffer.position() + 2048,
                old(self).buffer.frontier() <= self.buffer.frontier(),
                old(self).buffer.frontier() == self.buffer.frontier() ==> self.buffer.text() == old(
                    self,
                ).buffer.text(),
                old(self).buffer.exhausted() ==> old(self).buffer.frontier()
                    == self.buffer.frontier(),
            ensures
                match lookahead {
                    None => self.buffer.position() == self.buffer.text().len(),
                    Some(c) => {
                        &&& self.buffer.position() < self.buffer.text().len()
                        &&& c == self.buffer.text()[self.buffer.position() as int]
                        &&& state.step(c) == DfaState::Exit
                    },
                },
            decreases usize::MAX - lexeme.len(),
        {
            let ghost before = self.buffer.text();
            match self.buffer.peek() {
                None => {
                    break ;
                },
                Some(c) => {
                    let next = state.next_state(c);
                    if next == DfaState::Exit {
                        lookahead = Some(c);
                        break ;
                    }
                    if lexeme.len() - skipped >= MAX_TOKEN {
                        proof {
                            let rest = self.buffer.text().skip(start as int);
                            let read = lexeme@.len() as int;
                            assert(lexeme@ =~= rest.take(read));
                            assert forall|j: int| 0 <= j < read + 1 implies run(
                                DfaState::Start,
                                #[trigger] rest.take(j),
                            ).step(rest[j]) != DfaState::Exit by {
                                assert(rest.take(j) =~= lexeme@.take(j));
                            }
                            lemma_reach_at_least(DfaState::Start, rest, read + 1);
                            lemma_leading_spaces_take(rest, read);
                            lemma_long_run_is_too_long(rest);
                        }
                        return Err(TokenizerError::FileError(BufferError::RollBackError));
                    }
                    match self.buffer.get_next_char() {
                        Ok(_) => {},
                        Err(e) => {
                            proof {
                                let rest = self.buffer.text().skip(start as int);
                                let read = lexeme@.len() as int;
                                assert(lexeme@ =~= rest.take(read));
                                assert forall|j: int| 0 <= j < read + 1 implies run(
                                    DfaState::Start,
                                    #[trigger] rest.take(j),
                                ).step(rest[j]) != DfaState::Exit by {
                                    assert(rest.take(j) =~= lexeme@.take(j));
                                }
                                lemma_reach_at_least(DfaState::Start, rest, read + 1);
                                lemma_leading_spaces(rest);
                                if state.accepting() {
                                    lemma_leading_spaces_take(rest, read);
                                } else if leading_spaces(rest) < read {
                                    lemma_start_means_spaces(lexeme@);
                                    assert(is_space(lexeme@[leading_spaces(rest) as int]));
                                }
                            }
                            return Err(TokenizerError::FileError(e));
                        },
                    }
                    let ghost read = lexeme@;
                    lexeme.push(c);
                    history.record(next);
                    if next == DfaState::Start {
                        skipped = lexeme.len();
                    }
                    proof {
                        self.buffer.lemma_positions();
                        lemma_leading_spaces_push(read, c);
                        lemma_run_push(DfaState::Start, read, c);
                        assert(lexeme@ =~= read.push(c));
                        assert(lexeme@ =~= self.buffer.text().subrange(
                            start as int,
                            self.buffer.position() as int,
                        ));
                        assert forall|j: int| 0 <= j < lexeme@.len() implies run(
                            DfaState::Start,
                            #[trigger] lexeme@.take(j),
                        ).step(lexeme@[j]) != DfaState::Exit by {
                            if j < read.len() {
                                assert(lexeme@.take(j) =~= read.take(j));
                            } else {
                                assert(lexeme@.take(j) =~= read);
                            }
                        }
                        if next == DfaState::Start {
                            assert(trail(state, read.len()).push(next) =~= trail(
                                next,
                                lexeme@.len(),
                            ));
                        }
                    }
                    state = next;
                },
            }
        }
        let ghost text = self.buffer.text();
        let ghost frontier = self.buffer.frontier();
        let ghost rest = text.skip(start as int);
        let ghost read = lexeme@.len();
        proof {
            self.buffer.lemma_positions();
            assert(lexeme@ =~= rest.take(read as int));
            assert forall|j: int| 0 <= j < read implies run(
                DfaState::Start,
                #[trigger] rest.take(j),
            ).step(rest[j]) != DfaState::Exit by {
                assert(rest.take(j) =~= lexeme@.take(j));
            }
            lemma_reach_is(DfaState::Start, rest, read as int);
            if state.accepting() {
                lemma_leading_spaces_of_token(rest, read as int);
                lemma_scanned_meaning(rest);
            }
        }
        if lookahead.is_none() && !state.is_accepting() {
            return Err(TokenizerError::EndOfFile);
        }
        loop
            invariant_except_break
                history@ == trail(state, (self.buffer.position() - start) as nat),
            invariant
                self.buffer.wf(),
                self.buffer.text() == text,
                self.buffer.frontier() == frontier,
                old(self).buffer.text().is_prefix_of(text),
                start == old(self).buffer.position(),
                rest == text.skip(start as int),
                start + read <= text.len(),
                start + read < frontier,
                frontier == old(self).buffer.frontier() || frontier <= start + read + 2048,
                old(self).buffer.frontier() <= frontier,
                old(self).buffer.frontier() == frontier ==> text == old(self).buffer.text(),
                old(self).buffer.exhausted() ==> old(self).buffer.frontier() == frontier,
                old(self).buffer.fence_position() <= start,
                state.accepting() ==> !(meaning(
                    state,
                    rest.subrange(leading_spaces(rest) as int, read as int),
                ) is Nothing),
                start <= self.buffer.position() <= start + read,
                state == DfaState::Start || state.accepting(),
                state.accepting() ==> self.buffer.position() == start + read,
                lexeme@ == rest.take(read as int),
                state == DfaState::Start ==> start + read < text.len() && lookahead == Some(
                    text[start as int + read as int],
                ),
                state.accepting() ==> leading_spaces(lexeme@) == leading_spaces(rest),
                state.accepting() ==> leading_spaces(rest) < read <= rest.len(),
                scan(rest) == if state.accepting() {
                    Scan::Token { skipped: leading_spaces(rest), end: read, state }
                } else {
                    Scan::Invalid { skipped: read }
                },
            ensures
                state == DfaState::Start,
                self.buffer.position() == start,
            decreases history@.len(),
        {
            match history.pop() {
                Some(top) => {
                    if top == DfaState::Start {
                        match self.buffer.rollback() {
                            Ok(()) => {
                                assert(trail(state, (self.buffer.position() - start + 1) as nat).drop_last()
                                    =~= trail(state, (self.buffer.position() - start) as nat));
                            },
                            Err(e) => {
                                return Err(TokenizerError::FileError(e));
                            },
                        }
                    } else if top.is_accepting() {
                        let token_text = trim(&lexeme);
                        assert(token_text@ =~= rest.subrange(
                            leading_spaces(rest) as int,
                            read as int,
                        ));
                        return tokenize(top, &token_text);
                    } else {
                        break ;
                    }
                },
                None => {
                    break ;
                },
            }
        }
        match lookahead {
            Some(c) => {
                lexeme.push(c);
            },
            None => {},
        }
        proof {
            self.buffer.lemma_positions();
            assert(lexeme@ =~= rest.take(read as int + 1));
        }
        Err(TokenizerError::InvalidToken(text_of(&lexeme)))
    }
}

} // verus!
