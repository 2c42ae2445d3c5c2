//! The recognizer: a recursive-descent walk over the token stream with a
//! two-token lookahead. The spec functions below are the mathematical model
//! of the walk; each method of `Parser` is proved to follow its model
//! exactly, and `validate` ties the whole pipeline to `spec_validate`.

use vstd::prelude::*;

use crate::error::ParseErr;
use crate::error::ParseError;
use crate::lexer::lemma_scan_at_props;
use crate::lexer::scan_at;
use crate::lexer::Lexer;
use crate::lexer::ScanStep;
use crate::token::Token;
use crate::token::TokenKind;

verus! {

/// The recognizer's mathematical state: the kinds of the two lookahead
/// tokens, the scanner's cursor and its line count.
pub struct PState {
    pub cur: TokenKind,
    pub peek: TokenKind,
    pub pos: int,
    pub nl: int,
}

/// Pull one token: the lookahead window slides left by one and the scanner
/// takes one step.
pub open spec fn spec_pull(s: Seq<char>, st: PState) -> Result<PState, ParseErr> {
    match scan_at(s, st.pos, st.nl) {
        ScanStep::Tok { kind, text, next, nl } => Ok(
            PState { cur: st.peek, peek: kind, pos: next, nl },
        ),
        ScanStep::Fail { err } => Err(ParseErr::Lexical { err }),
    }
}

/// The pulled state stays within the scanner's working range: the cursor
/// advanced and is at most two positions past the synthetic terminator.
/// Every pull the recognizer actually performs from a reachable state lands
/// in range; the recursive spec functions below recurse only under it.
pub open spec fn pull_in_range(s: Seq<char>, st: PState, st2: PState) -> bool {
    st.pos < st2.pos && st2.pos <= s.len() + 2
}

/// The layout kinds skipped between grammar tokens: space and line feed
/// only.
pub open spec fn is_skippable(k: TokenKind) -> bool {
    k == TokenKind::Space || k == TokenKind::Linefeed
}

/// The layout kinds of the one-token test used for the padded empty array:
/// all four whitespace characters.
pub open spec fn is_ws_any(k: TokenKind) -> bool {
    ||| k == TokenKind::Space
    ||| k == TokenKind::Linefeed
    ||| k == TokenKind::Horizontaltab
    ||| k == TokenKind::Carriagereturn
}

/// The kinds accepted directly as scalar values.
pub open spec fn is_scalar(k: TokenKind) -> bool {
    ||| k == TokenKind::String
    ||| k == TokenKind::Number
    ||| k == TokenKind::True
    ||| k == TokenKind::False
    ||| k == TokenKind::Null
}

/// Measure for the recursion below: how far the scanner still has to run.
pub open spec fn rem(s: Seq<char>, st: PState) -> int {
    s.len() + 3 - st.pos
}

/// Require the current token's kind and advance past it; any other kind is
/// the generic grammar error.
pub open spec fn spec_token_match(s: Seq<char>, st: PState, k: TokenKind) -> Result<
    PState,
    ParseErr,
> {
    if st.cur == k {
        spec_pull(s, st)
    } else {
        Err(ParseErr::ExpectedString)
    }
}

/// Skip layout tokens: space and line feed only.
pub open spec fn spec_ws(s: Seq<char>, st: PState) -> Result<PState, ParseErr>
    decreases rem(s, st), 0int,
{
    if is_skippable(st.cur) {
        match spec_pull(s, st) {
            Ok(st2) => if pull_in_range(s, st, st2) {
                spec_ws(s, st2)
            } else {
                Ok(st2)
            },
            Err(e) => Err(e),
        }
    } else {
        Ok(st)
    }
}

/// One value: after layout, a scalar token stands, or an object or array is
/// recognized in full; one more token is then consumed and trailing layout
/// is skipped. (After a nested form this consumes the token under the
/// cursor, which pairs with the closing brace or bracket that the empty and
/// loop exits of `spec_object` and `spec_array` leave unconsumed.)
pub open spec fn spec_value(s: Seq<char>, st: PState) -> Result<PState, ParseErr>
    decreases rem(s, st), 3int,
{
    match spec_ws(s, st) {
        Err(e) => Err(e),
        Ok(st1) => {
            if !(st.pos <= st1.pos && st1.pos <= s.len() + 2) {
                Err(ParseErr::ExpectedString)
            } else if is_scalar(st1.cur) {
                match spec_pull(s, st1) {
                    Err(e) => Err(e),
                    Ok(st2) => if pull_in_range(s, st1, st2) {
                        spec_ws(s, st2)
                    } else {
                        Ok(st2)
                    },
                }
            } else if st1.cur == TokenKind::Opcurlybracket {
                match spec_object(s, st1) {
                    Err(e) => Err(e),
                    Ok(sto) => {
                        if !(st1.pos <= sto.pos && sto.pos <= s.len() + 2) {
                            Err(ParseErr::ExpectedString)
                        } else {
                            match spec_pull(s, sto) {
                                Err(e) => Err(e),
                                Ok(st2) => if pull_in_range(s, sto, st2) {
                                    spec_ws(s, st2)
                                } else {
                                    Ok(st2)
                                },
                            }
                        }
                    },
                }
            } else if st1.cur == TokenKind::Opsqbracket {
                match spec_array(s, st1) {
                    Err(e) => Err(e),
                    Ok(sto) => {
                        if !(st1.pos <= sto.pos && sto.pos <= s.len() + 2) {
                            Err(ParseErr::ExpectedString)
                        } else {
                            match spec_pull(s, sto) {
                                Err(e) => Err(e),
                                Ok(st2) => if pull_in_range(s, sto, st2) {
                                    spec_ws(s, st2)
                                } else {
                                    Ok(st2)
                                },
                            }
                        }
                    },
                }
            } else {
                Err(ParseErr::ExpectedString)
            }
        },
    }
}

/// An object: after the opening brace and layout, either the closing brace
/// stands at once (an empty object, whose brace is left for the caller), or
/// a string key, layout, a colon and a value follow; a comma then continues
/// with `spec_obj_tail`, and otherwise the closing brace is consumed.
pub open spec fn spec_object(s: Seq<char>, st: PState) -> Result<PState, ParseErr>
    decreases rem(s, st), 1int,
{
    match spec_token_match(s, st, TokenKind::Opcurlybracket) {
        Err(e) => Err(e),
        Ok(st1) => {
            if !pull_in_range(s, st, st1) {
                Err(ParseErr::ExpectedString)
            } else {
                match spec_ws(s, st1) {
                    Err(e) => Err(e),
                    Ok(st2) => {
                        if !(st1.pos <= st2.pos && st2.pos <= s.len() + 2) {
                            Err(ParseErr::ExpectedString)
                        } else if st2.cur == TokenKind::Clcurlybracket {
                            Ok(st2)
                        } else if st2.cur == TokenKind::String {
                            match spec_key_value(s, st2) {
                                Err(e) => Err(e),
                                Ok(stv) => {
                                    if !(st.pos < stv.pos && stv.pos <= s.len() + 2) {
                                        Err(ParseErr::ExpectedString)
                                    } else if stv.cur == TokenKind::Comma {
                                        spec_obj_tail(s, stv)
                                    } else {
                                        spec_token_match(s, stv, TokenKind::Clcurlybracket)
                                    }
                                },
                            }
                        } else {
                            Err(ParseErr::ExpectedString)
                        }
                    },
                }
            }
        },
    }
}

/// One `key: value` pair with the cursor on the string key: the key is
/// consumed, layout skipped, a colon required, and one value recognized.
pub open spec fn spec_key_value(s: Seq<char>, st: PState) -> Result<PState, ParseErr>
    decreases rem(s, st), 2int,
{
    match spec_pull(s, st) {
        Err(e) => Err(e),
        Ok(st1) => {
            if !pull_in_range(s, st, st1) {
                Err(ParseErr::ExpectedString)
            } else {
                match spec_ws(s, st1) {
                    Err(e) => Err(e),
                    Ok(st2) => {
                        if !(st1.pos <= st2.pos && st2.pos <= s.len() + 2) {
                            Err(ParseErr::ExpectedString)
                        } else {
                            match spec_token_match(s, st2, TokenKind::Colon) {
                                Err(e) => Err(e),
                                Ok(st3) => if pull_in_range(s, st2, st3) {
                                    spec_value(s, st3)
                                } else {
                                    Err(ParseErr::ExpectedString)
                                },
                            }
                        }
                    },
                }
            }
        },
    }
}

/// The comma loop of an object, entered at the loop head: a closing brace
/// ends the object (left unconsumed); otherwise one token is consumed,
/// layout skipped, and a string key must stand — a closing brace here is the
/// distinguished trailing-comma error — followed by a colon, a value, and
/// the loop again.
pub open spec fn spec_obj_tail(s: Seq<char>, st: PState) -> Result<PState, ParseErr>
    decreases rem(s, st), 4int,
{
    if st.cur == TokenKind::Clcurlybracket {
        Ok(st)
    } else {
        match spec_pull(s, st) {
            Err(e) => Err(e),
            Ok(st1) => {
                if !pull_in_range(s, st, st1) {
                    Err(ParseErr::ExpectedString)
                } else {
                    match spec_ws(s, st1) {
                        Err(e) => Err(e),
                        Ok(st2) => {
                            if !(st1.pos <= st2.pos && st2.pos <= s.len() + 2) {
                                Err(ParseErr::ExpectedString)
                            } else if st2.cur != TokenKind::String {
                                if st2.cur == TokenKind::Clcurlybracket {
                                    Err(ParseErr::TrailingComma)
                                } else {
                                    Err(ParseErr::ExpectedString)
                                }
                            } else {
                                match spec_key_value(s, st2) {
                                    Err(e) => Err(e),
                                    Ok(stv) => if st.pos < stv.pos && stv.pos <= s.len() + 2 {
                                        spec_obj_tail(s, stv)
                                    } else {
                                        Err(ParseErr::ExpectedString)
                                    },
                                }
                            }
                        },
                    }
                }
            },
        }
    }
}

/// An array: after the opening bracket, a single layout token directly
/// before the closing bracket is skipped and the bracket consumed; a closing
/// bracket at once is an empty array left for the caller; anything else is a
/// list of values recognized by `spec_arr_tail`.
pub open spec fn spec_array(s: Seq<char>, st: PState) -> Result<PState, ParseErr>
    decreases rem(s, st), 1int,
{
    match spec_token_match(s, st, TokenKind::Opsqbracket) {
        Err(e) => Err(e),
        Ok(st1) => {
            if !pull_in_range(s, st, st1) {
                Err(ParseErr::ExpectedString)
            } else if is_ws_any(st1.cur) && st1.peek == TokenKind::Clsqbracket {
                match spec_ws(s, st1) {
                    Err(e) => Err(e),
                    Ok(st2) => {
                        if !(st1.pos <= st2.pos && st2.pos <= s.len() + 2) {
                            Err(ParseErr::ExpectedString)
                        } else {
                            spec_token_match(s, st2, TokenKind::Clsqbracket)
                        }
                    },
                }
            } else if st1.cur == TokenKind::Clsqbracket {
                Ok(st1)
            } else {
                spec_arr_tail(s, st1)
            }
        },
    }
}

/// The value loop of an array, entered with the cursor on a value: after
/// one value, the array ends when the current token is no comma and is the
/// closing bracket (left unconsumed); otherwise a comma is required and the
/// loop repeats.
pub open spec fn spec_arr_tail(s: Seq<char>, st: PState) -> Result<PState, ParseErr>
    decreases rem(s, st), 4int,
{
    match spec_value(s, st) {
        Err(e) => Err(e),
        Ok(stv) => {
            if stv.cur != TokenKind::Comma && stv.cur == TokenKind::Clsqbracket {
                Ok(stv)
            } else {
                match spec_token_match(s, stv, TokenKind::Comma) {
                    Err(e) => Err(e),
                    Ok(st2) => if st.pos < st2.pos && st2.pos <= s.len() + 2 {
                        spec_arr_tail(s, st2)
                    } else {
                        Err(ParseErr::ExpectedString)
                    },
                }
            }
        },
    }
}

/// The whole grammar: an object or an array is recognized from the leading
/// token; any other leading token is accepted as a bare top-level scalar,
/// which the scanner has already vetted while forming it.
pub open spec fn spec_parse(s: Seq<char>, st: PState) -> Result<PState, ParseErr> {
    if st.cur == TokenKind::Opcurlybracket {
        spec_object(s, st)
    } else if st.cur == TokenKind::Opsqbracket {
        spec_array(s, st)
    } else {
        Ok(st)
    }
}

/// Filling the two-token lookahead from a fresh scanner: two pulls.
pub open spec fn spec_new(s: Seq<char>, pos: int, nl: int) -> Result<PState, ParseErr> {
    let st0 = PState { cur: TokenKind::Empty, peek: TokenKind::Empty, pos, nl };
    match spec_pull(s, st0) {
        Err(e) => Err(e),
        Ok(st1) => spec_pull(s, st1),
    }
}

/// Acceptance of a whole input text: scan from the start, with the one line
/// feed the scanner appends, and recognize one top-level form.
pub open spec fn spec_validate(t: Seq<char>) -> Result<(), ParseErr> {
    let s = t + seq!['\n'];
    match spec_new(s, 0, 0) {
        Err(e) => Err(e),
        Ok(st) => match spec_parse(s, st) {
            Ok(_) => Ok(()),
            Err(e) => Err(e),
        },
    }
}

/// The recognizer: exclusive ownership of the scanner and the two-token
/// lookahead window.
pub struct Parser {
    lexer: Lexer,
    cur_token: Token,
    peek_token: Token,
}

impl Parser {
    /// The text under recognition.
    pub closed spec fn src(&self) -> Seq<char> {
        self.lexer.source@
    }

    /// The recognizer's state, as the model sees it.
    pub closed spec fn st(&self) -> PState {
        PState {
            cur: self.cur_token.kind,
            peek: self.peek_token.kind,
            pos: self.lexer.cur_pos as int,
            nl: self.lexer.newline_count as int,
        }
    }

    /// Every state the recognizer reaches: a consistent scanner, at most
    /// four positions past the synthetic terminator, and the lookahead
    /// bounds that scanning within the text guarantees — a real token in a
    /// lookahead slot means the cursor is still near the text.
    pub closed spec fn wf(&self) -> bool {
        &&& self.lexer.wf()
        &&& self.lexer.newline_count as int <= self.lexer.cur_pos as int
        &&& self.st().pos <= self.src().len() + 4
        &&& (self.st().cur != TokenKind::Eof && self.st().cur != TokenKind::Empty ==> self.st().pos
            <= self.src().len() + 1)
        &&& (self.st().peek != TokenKind::Eof && self.st().peek != TokenKind::Empty
            ==> self.st().pos <= self.src().len())
    }

    /// Slide the lookahead window left and pull one fresh token from the
    /// scanner. This is the only place tokens are produced.
    pub fn next_token(&mut self) -> (r: Result<(), ParseError>)
        requires
            old(self).wf(),
            old(self).st().pos <= old(self).src().len() + 3,
        ensures
            final(self).src() == old(self).src(),
            match spec_pull(old(self).src(), old(self).st()) {
                Ok(st2) => {
                    &&& r is Ok
                    &&& final(self).wf()
                    &&& final(self).st() == st2
                    &&& old(self).st().pos < final(self).st().pos
                },
                Err(e) => r matches Err(pe) && pe@ == e,
            },
    {
        proof {
            lemma_scan_at_props(
                self.src(),
                self.lexer.cur_pos as int,
                self.lexer.newline_count as int,
            );
        }
        let t = match self.lexer.match_token() {
            Ok(t) => t,
            Err(e) => {
                return Err(ParseError::Lexical { err: e });
            },
        };
        core::mem::swap(&mut self.cur_token, &mut self.peek_token);
        self.peek_token = t;
        Ok(())
    }

    /// Initialise a recognizer over a scanner that has not yet passed the
    /// end of its text, filling the two-token lookahead.
    pub fn new(lexer: Lexer) -> (r: Result<Parser, ParseError>)
        requires
            lexer.wf(),
            lexer.newline_count as int <= lexer.cur_pos as int,
            lexer.cur_pos as int <= lexer.source@.len(),
        ensures
            match spec_new(lexer.source@, lexer.cur_pos as int, lexer.newline_count as int) {
                Ok(st) => {
                    &&& r matches Ok(p)
                    &&& p.wf()
                    &&& p.st() == st
                    &&& p.src() == lexer.source@
                    &&& st.pos <= lexer.source@.len() + 2
                },
                Err(e) => r matches Err(pe) && pe@ == e,
            },
    {
        let mut temp_parser = Parser {
            lexer,
            cur_token: Token { text: String::new(), kind: TokenKind::Empty },
            peek_token: Token { text: String::new(), kind: TokenKind::Empty },
        };
        // Fill the lookahead window with the first two tokens.
        match temp_parser.next_token() {
            Ok(_) => {},
            Err(e) => {
                return Err(e);
            },
        }
        match temp_parser.next_token() {
            Ok(_) => {},
            Err(e) => {
                return Err(e);
            },
        }
        Ok(temp_parser)
    }

    /// See whether the current token has the expected kind.
    pub fn check_token(&mut self, token_kind: TokenKind) -> (r: bool)
        ensures
            *final(self) == *old(self),
            r == (old(self).st().cur == token_kind),
    {
        if self.cur_token.kind != token_kind {
            return false;
        }
        true
    }

    /// See whether the lookahead token has the expected kind.
    pub fn check_peek(&mut self, token_kind: TokenKind) -> (r: bool)
        ensures
            *final(self) == *old(self),
            r == (old(self).st().peek == token_kind),
    {
        if self.peek_token.kind != token_kind {
            return false;
        }
        true
    }

    /// Require the current token's kind — a structural or literal kind, not
    /// a lookahead sentinel — and advance past it; any other token is the
    /// generic grammar error.
    pub fn token_match(&mut self, token_kind: TokenKind) -> (r: Result<(), ParseError>)
        requires
            old(self).wf(),
            token_kind != TokenKind::Eof,
            token_kind != TokenKind::Empty,
        ensures
            final(self).src() == old(self).src(),
            match spec_token_match(old(self).src(), old(self).st(), token_kind) {
                Ok(st2) => {
                    &&& r is Ok
                    &&& final(self).wf()
                    &&& final(self).st() == st2
                    &&& old(self).st().pos < final(self).st().pos
                    &&& final(self).st().pos <= old(self).src().len() + 2
                },
                Err(e) => r matches Err(pe) && pe@ == e,
            },
    {
        if self.check_token(token_kind) {
            proof {
                lemma_scan_at_props(
                    self.src(),
                    self.lexer.cur_pos as int,
                    self.lexer.newline_count as int,
                );
            }
            self.next_token()
        } else {
            Err(ParseError::ExpectedString)
        }
    }

    /// Skip layout tokens: space and line feed only.
    #[verifier::loop_isolation(false)]
    fn whitespace(&mut self) -> (r: Result<(), ParseError>)
        requires
            old(self).wf(),
        ensures
            final(self).src() == old(self).src(),
            match spec_ws(old(self).src(), old(self).st()) {
                Ok(st2) => {
                    &&& r is Ok
                    &&& final(self).wf()
                    &&& final(self).st() == st2
                    &&& old(self).st().pos <= final(self).st().pos
                    &&& (final(self).st().pos <= old(self).st().pos || final(self).st().pos
                        <= old(self).src().len() + 2)
                },
                Err(e) => r matches Err(pe) && pe@ == e,
            },
    {
        let ghost s: Seq<char> = self.src();
        while self.cur_token.kind == TokenKind::Space || self.cur_token.kind == TokenKind::Linefeed
            invariant
                self.wf(),
                self.src() == s,
                spec_ws(s, self.st()) == spec_ws(s, old(self).st()),
                old(self).st().pos <= self.st().pos,
                self.st().pos <= old(self).st().pos || self.st().pos <= s.len() + 2,
            decreases s.len() + 4 - self.st().pos,
        {
            proof {
                lemma_scan_at_props(s, self.lexer.cur_pos as int, self.lexer.newline_count as int);
            }
            match self.next_token() {
                Ok(_) => {},
                Err(e) => {
                    return Err(e);
                },
            }
        }
        Ok(())
    }

    /// Whether the current token is layout of any of the four whitespace
    /// kinds, for the one place the grammar tests rather than skips.
    fn is_whitespace(&mut self) -> (r: bool)
        ensures
            *final(self) == *old(self),
            r == is_ws_any(old(self).st().cur),
    {
        match self.cur_token.kind {
            TokenKind::Space => true,
            TokenKind::Linefeed => true,
            TokenKind::Horizontaltab => true,
            TokenKind::Carriagereturn => true,
            _ => false,
        }
    }

    /// Whether the current token is a string literal, the shape of an
    /// object key.
    fn string(&mut self) -> (r: bool)
        ensures
            *final(self) == *old(self),
            r == (old(self).st().cur == TokenKind::String),
    {
        self.check_token(TokenKind::String)
    }

    /// One value of the grammar: leading layout, then a scalar token or a
    /// nested object or array, then one more token and trailing layout.
    #[verifier::loop_isolation(false)]
    fn value(&mut self) -> (r: Result<(), ParseError>)
        requires
            old(self).wf(),
            old(self).st().pos <= old(self).src().len() + 2,
        ensures
            final(self).src() == old(self).src(),
            match spec_value(old(self).src(), old(self).st()) {
                Ok(st2) => {
                    &&& r is Ok
                    &&& final(self).wf()
                    &&& final(self).st() == st2
                    &&& old(self).st().pos < st2.pos
                    &&& st2.pos <= old(self).src().len() + 3
                },
                Err(e) => r matches Err(pe) && pe@ == e,
            },
        decreases old(self).src().len() + 3 - old(self).st().pos, 3int,
    {
        let ghost s: Seq<char> = self.src();
        let ghost st0: PState = self.st();
        match self.whitespace() {
            Ok(_) => {},
            Err(e) => {
                return Err(e);
            },
        }
        let ghost st1: PState = self.st();
        if self.check_token(TokenKind::String) || self.check_token(TokenKind::Number)
            || self.check_token(TokenKind::True) || self.check_token(TokenKind::False)
            || self.check_token(TokenKind::Null) {
            proof {
                lemma_scan_at_props(s, st1.pos, st1.nl);
            }
            match self.next_token() {
                Ok(_) => {},
                Err(e) => {
                    return Err(e);
                },
            }
            proof {
                assert(pull_in_range(s, st1, self.st()));
            }
            match self.whitespace() {
                Ok(_) => {},
                Err(e) => {
                    return Err(e);
                },
            }
            Ok(())
        } else if self.check_token(TokenKind::Opcurlybracket) {
            match self.object() {
                Ok(_) => {},
                Err(e) => {
                    return Err(e);
                },
            }
            let ghost sto: PState = self.st();
            proof {
                lemma_scan_at_props(s, sto.pos, sto.nl);
            }
            match self.next_token() {
                Ok(_) => {},
                Err(e) => {
                    return Err(e);
                },
            }
            let ghost stp: PState = self.st();
            proof {
                if !pull_in_range(s, sto, stp) {
                    // The scanner ran past its working range, so both
                    // lookahead slots hold end-of-input: no layout to skip.
                    assert(stp.cur == TokenKind::Eof || stp.cur == TokenKind::Empty);
                    assert(spec_ws(s, stp) == Ok::<PState, ParseErr>(stp));
                }
            }
            match self.whitespace() {
                Ok(_) => {},
                Err(e) => {
                    return Err(e);
                },
            }
            Ok(())
        } else if self.check_token(TokenKind::Opsqbracket) {
            match self.array() {
                Ok(_) => {},
                Err(e) => {
                    return Err(e);
                },
            }
            let ghost sto: PState = self.st();
            proof {
                lemma_scan_at_props(s, sto.pos, sto.nl);
            }
            match self.next_token() {
                Ok(_) => {},
                Err(e) => {
                    return Err(e);
                },
            }
            let ghost stp: PState = self.st();
            proof {
                if !pull_in_range(s, sto, stp) {
                    assert(stp.cur == TokenKind::Eof || stp.cur == TokenKind::Empty);
                    assert(spec_ws(s, stp) == Ok::<PState, ParseErr>(stp));
                }
            }
            match self.whitespace() {
                Ok(_) => {},
                Err(e) => {
                    return Err(e);
                },
            }
            Ok(())
        } else {
            Err(ParseError::ExpectedString)
        }
    }

    /// One `key: value` pair with the cursor on the string key: the key is
    /// consumed, layout skipped, a colon required, and one value recognized.
    #[verifier::loop_isolation(false)]
    fn key_value(&mut self) -> (r: Result<(), ParseError>)
        requires
            old(self).wf(),
            old(self).st().cur == TokenKind::String,
        ensures
            final(self).src() == old(self).src(),
            match spec_key_value(old(self).src(), old(self).st()) {
                Ok(st2) => {
                    &&& r is Ok
                    &&& final(self).wf()
                    &&& final(self).st() == st2
                    &&& old(self).st().pos < st2.pos
                    &&& st2.pos <= old(self).src().len() + 3
                },
                Err(e) => r matches Err(pe) && pe@ == e,
            },
        decreases old(self).src().len() + 3 - old(self).st().pos, 2int,
    {
        let ghost s: Seq<char> = self.src();
        let ghost st0: PState = self.st();
        proof {
            lemma_scan_at_props(s, st0.pos, st0.nl);
        }
        match self.next_token() {
            Ok(_) => {},
            Err(e) => {
                return Err(e);
            },
        }
        match self.whitespace() {
            Ok(_) => {},
            Err(e) => {
                return Err(e);
            },
        }
        match self.token_match(TokenKind::Colon) {
            Ok(_) => {},
            Err(e) => {
                return Err(e);
            },
        }
        self.value()
    }

    /// The comma loop of an object, entered at the loop head: a closing
    /// brace ends the object and stays for the caller; otherwise one token
    /// is pulled in blindly, and a string key must follow — a closing brace
    /// there is the distinguished trailing-comma error.
    #[verifier::loop_isolation(false)]
    fn obj_tail(&mut self) -> (r: Result<(), ParseError>)
        requires
            old(self).wf(),
            old(self).st().pos <= old(self).src().len() + 3,
        ensures
            final(self).src() == old(self).src(),
            match spec_obj_tail(old(self).src(), old(self).st()) {
                Ok(st2) => {
                    &&& r is Ok
                    &&& final(self).wf()
                    &&& final(self).st() == st2
                    &&& old(self).st().pos <= st2.pos
                    &&& st2.pos <= old(self).src().len() + 1
                },
                Err(e) => r matches Err(pe) && pe@ == e,
            },
        decreases old(self).src().len() + 4 - old(self).st().pos, 0int,
    {
        let ghost s: Seq<char> = self.src();
        let ghost st0: PState = self.st();
        let ghost target: Result<PState, ParseErr> = spec_obj_tail(s, st0);
        loop
            invariant
                self.wf(),
                self.src() == s,
                self.st().pos <= s.len() + 3,
                st0.pos <= self.st().pos,
                spec_obj_tail(s, self.st()) == target,
            decreases s.len() + 4 - self.st().pos,
        {
            let ghost stt: PState = self.st();
            if self.check_token(TokenKind::Clcurlybracket) {
                // Closed; the brace stays for the caller to consume.
                return Ok(());
            }
            proof {
                lemma_scan_at_props(s, stt.pos, stt.nl);
            }
            match self.next_token() {
                Ok(_) => {},
                Err(e) => {
                    return Err(e);
                },
            }
            let ghost stp: PState = self.st();
            proof {
                if !pull_in_range(s, stt, stp) {
                    // The scanner ran past its working range: both lookahead
                    // slots hold end-of-input, so no layout follows and the
                    // key test below fails.
                    assert(stp.cur == TokenKind::Eof || stp.cur == TokenKind::Empty);
                    assert(spec_ws(s, stp) == Ok::<PState, ParseErr>(stp));
                }
            }
            match self.whitespace() {
                Ok(_) => {},
                Err(e) => {
                    return Err(e);
                },
            }
            if !self.string() {
                if self.check_token(TokenKind::Clcurlybracket) {
                    return Err(ParseError::TrailingComma);
                }
                return Err(ParseError::ExpectedString);
            }
            proof {
                assert(pull_in_range(s, stt, stp));
            }
            match self.key_value() {
                Ok(_) => {},
                Err(e) => {
                    return Err(e);
                },
            }
            let ghost stv2: PState = self.st();
            proof {
                if !(stt.pos < stv2.pos && stv2.pos <= s.len() + 2) {
                    // Out of range: both lookahead slots hold end-of-input,
                    // and the next round of the loop ends with the generic
                    // grammar error either way.
                    assert(stv2.cur == TokenKind::Eof || stv2.cur == TokenKind::Empty);
                    assert(stv2.pos > s.len() + 2);
                    lemma_scan_at_props(s, stv2.pos, stv2.nl);
                    assert(spec_obj_tail(s, stv2) == Err::<PState, ParseErr>(
                        ParseErr::ExpectedString,
                    ));
                }
            }
        }
    }

    /// An object. The empty object leaves its closing brace for the caller;
    /// a first `key: value` pair is followed either by the comma loop or by
    /// the closing brace, consumed here.
    #[verifier::loop_isolation(false)]
    fn object(&mut self) -> (r: Result<(), ParseError>)
        requires
            old(self).wf(),
            old(self).st().pos <= old(self).src().len() + 2,
        ensures
            final(self).src() == old(self).src(),
            match spec_object(old(self).src(), old(self).st()) {
                Ok(st2) => {
                    &&& r is Ok
                    &&& final(self).wf()
                    &&& final(self).st() == st2
                    &&& old(self).st().pos < st2.pos
                    &&& st2.pos <= old(self).src().len() + 2
                },
                Err(e) => r matches Err(pe) && pe@ == e,
            },
        decreases old(self).src().len() + 3 - old(self).st().pos, 1int,
    {
        let ghost s: Seq<char> = self.src();
        let ghost st0: PState = self.st();
        match self.token_match(TokenKind::Opcurlybracket) {
            Ok(_) => {},
            Err(e) => {
                return Err(e);
            },
        }
        match self.whitespace() {
            Ok(_) => {},
            Err(e) => {
                return Err(e);
            },
        }
        if self.check_token(TokenKind::Clcurlybracket) {
            // Empty object; the brace stays for the caller to consume.
            return Ok(());
        }
        if !self.string() {
            return Err(ParseError::ExpectedString);
        }
        match self.key_value() {
            Ok(_) => {},
            Err(e) => {
                return Err(e);
            },
        }
        let ghost stv: PState = self.st();
        proof {
            if !(st0.pos < stv.pos && stv.pos <= s.len() + 2) {
                assert(stv.cur == TokenKind::Eof || stv.cur == TokenKind::Empty);
            }
        }
        if self.check_token(TokenKind::Comma) {
            self.obj_tail()
        } else {
            match self.token_match(TokenKind::Clcurlybracket) {
                Ok(_) => Ok(()),
                Err(e) => Err(e),
            }
        }
    }

    /// An array. A single layout token directly before the closing bracket
    /// is skipped and the bracket consumed; an immediate closing bracket is
    /// left for the caller; otherwise values separated by commas follow,
    /// and the closing bracket is again left for the caller.
    #[verifier::loop_isolation(false)]
    fn array(&mut self) -> (r: Result<(), ParseError>)
        requires
            old(self).wf(),
            old(self).st().pos <= old(self).src().len() + 2,
        ensures
            final(self).src() == old(self).src(),
            match spec_array(old(self).src(), old(self).st()) {
                Ok(st2) => {
                    &&& r is Ok
                    &&& final(self).wf()
                    &&& final(self).st() == st2
                    &&& old(self).st().pos < st2.pos
                    &&& st2.pos <= old(self).src().len() + 2
                },
                Err(e) => r matches Err(pe) && pe@ == e,
            },
        decreases old(self).src().len() + 3 - old(self).st().pos, 1int,
    {
        let ghost s: Seq<char> = self.src();
        let ghost st0: PState = self.st();
        match self.token_match(TokenKind::Opsqbracket) {
            Ok(_) => {},
            Err(e) => {
                return Err(e);
            },
        }
        let c1 = self.is_whitespace();
        if c1 && self.check_peek(TokenKind::Clsqbracket) {
            // Empty array padded with a single layout token.
            match self.whitespace() {
                Ok(_) => {},
                Err(e) => {
                    return Err(e);
                },
            }
            match self.token_match(TokenKind::Clsqbracket) {
                Ok(_) => Ok(()),
                Err(e) => Err(e),
            }
        } else if self.check_token(TokenKind::Clsqbracket) {
            // Empty array; the bracket stays for the caller to consume.
            Ok(())
        } else {
            let ghost target: Result<PState, ParseErr> = spec_arr_tail(s, self.st());
            loop
                invariant
                    self.wf(),
                    self.src() == s,
                    self.st().pos <= s.len() + 2,
                    st0.pos < self.st().pos,
                    spec_arr_tail(s, self.st()) == target,
                    spec_array(s, st0) == target,
                decreases s.len() + 4 - self.st().pos,
            {
                let ghost stt: PState = self.st();
                match self.value() {
                    Ok(_) => {},
                    Err(e) => {
                        return Err(e);
                    },
                }
                let end_of_array = !self.check_token(TokenKind::Comma) && self.check_token(
                    TokenKind::Clsqbracket,
                );
                if end_of_array {
                    // Terminated; the bracket stays for the caller.
                    return Ok(());
                }
                match self.token_match(TokenKind::Comma) {
                    Ok(_) => {},
                    Err(e) => {
                        return Err(e);
                    },
                }
            }
        }
    }

    /// Recognize one top-level form from the current token: an object, an
    /// array, or any bare scalar, which the scanner already vetted while
    /// forming it.
    pub fn parse(&mut self) -> (r: Result<(), ParseError>)
        requires
            old(self).wf(),
            old(self).st().pos <= old(self).src().len() + 2,
        ensures
            final(self).src() == old(self).src(),
            match spec_parse(old(self).src(), old(self).st()) {
                Ok(st2) => r is Ok && final(self).wf() && final(self).st() == st2,
                Err(e) => r matches Err(pe) && pe@ == e,
            },
    {
        if self.check_token(TokenKind::Opcurlybracket) {
            self.object()
        } else if self.check_token(TokenKind::Opsqbracket) {
            self.array()
        } else {
            Ok(())
        }
    }
}

/// Check one input text whole: scan it, recognize one top-level form, and
/// report acceptance or the first error, exactly as `spec_validate` says.
pub fn validate(source: String) -> (r: Result<(), ParseError>)
    requires
        source@.len() + 5 <= usize::MAX,
    ensures
        match spec_validate(source@) {
            Ok(_) => r is Ok,
            Err(e) => r matches Err(pe) && pe@ == e,
        },
{
    let lexer = Lexer::new(source);
    match Parser::new(lexer) {
        Ok(mut parser) => parser.parse(),
        Err(e) => Err(e),
    }
}

} // verus!
