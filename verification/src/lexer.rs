//! The scanner: owns the input text and a forward-only cursor, and forms one
//! token per request. `scan_at` is the mathematical model of one scan step;
//! `match_token` is proved to follow it exactly.

use vstd::prelude::*;

use crate::error::LexErr;
use crate::error::LexError;
use crate::token::Token;
use crate::token::TokenKind;

verus! {

/// The character the scanner sees at position `p`: the character of the text
/// there, or the NUL sentinel once the cursor has passed the end.
pub open spec fn char_at(s: Seq<char>, p: int) -> char {
    if 0 <= p < s.len() {
        s[p]
    } else {
        '\0'
    }
}

/// What `char::is_numeric` answers beyond ASCII: a fixed classification of
/// each character, named here and otherwise unspecified.
pub uninterp spec fn unicode_numeric(c: char) -> bool;

/// What `char::is_alphabetic` answers beyond ASCII.
pub uninterp spec fn unicode_alphabetic(c: char) -> bool;

/// Numeric classification of a character: within ASCII exactly the ten
/// digits, beyond ASCII whatever the Unicode tables say.
pub open spec fn is_numeric_char(c: char) -> bool {
    if c as int <= 127 {
        48 <= c as int <= 57
    } else {
        unicode_numeric(c)
    }
}

/// Alphabetic classification of a character: within ASCII exactly the
/// letters, beyond ASCII whatever the Unicode tables say.
pub open spec fn is_alphabetic_char(c: char) -> bool {
    if c as int <= 127 {
        (65 <= c as int <= 90) || (97 <= c as int <= 122)
    } else {
        unicode_alphabetic(c)
    }
}

/// Relies on char::is_numeric: within ASCII only the digits '0' to '9' have
/// the numeric property; beyond ASCII the answer is the fixed classification
/// named `unicode_numeric`.
#[verifier::external_body]
fn char_is_numeric(c: char) -> (r: bool)
    ensures
        r == is_numeric_char(c),
        c as int > 127 ==> r == unicode_numeric(c),
{
    c.is_numeric()
}

/// Relies on char::is_alphabetic: within ASCII only the letters have the
/// alphabetic property; beyond ASCII the answer is the fixed classification
/// named `unicode_alphabetic`.
#[verifier::external_body]
fn char_is_alphabetic(c: char) -> (r: bool)
    ensures
        r == is_alphabetic_char(c),
        c as int > 127 ==> r == unicode_alphabetic(c),
{
    c.is_alphabetic()
}

/// A character a numeric literal may continue with.
pub open spec fn is_digdot(c: char) -> bool {
    c == '.' || is_numeric_char(c)
}

/// The characters a numeric run consists of, as a predicate value.
pub open spec fn digdot_p() -> spec_fn(char) -> bool {
    |c: char| is_digdot(c)
}

/// The characters a bareword run consists of, as a predicate value.
pub open spec fn alpha_p() -> spec_fn(char) -> bool {
    |c: char| is_alphabetic_char(c)
}

/// The position of the first double quote at or after `i`, if any.
pub open spec fn find_quote(s: Seq<char>, i: int) -> Option<int>
    decreases s.len() - i,
{
    if i >= s.len() {
        None
    } else if s[i] == '"' {
        Some(i)
    } else {
        find_quote(s, i + 1)
    }
}

/// The first position at or after `i`, and not past the end, whose character
/// fails `p`: the end of a maximal run.
pub open spec fn run_end(s: Seq<char>, i: int, p: spec_fn(char) -> bool) -> int
    decreases s.len() - i,
{
    if 0 <= i < s.len() && p(s[i]) {
        run_end(s, i + 1, p)
    } else {
        i
    }
}

/// How many decimal points a candidate numeric literal holds.
pub open spec fn dot_count(t: Seq<char>) -> nat
    decreases t.len(),
{
    if t.len() == 0 {
        0
    } else {
        dot_count(t.drop_last()) + if t.last() == '.' {
            1nat
        } else {
            0nat
        }
    }
}

/// A numeric literal that holds a decimal point is well formed when the
/// point is unique, not the first character and not the last.
pub open spec fn spec_valid_fp(t: Seq<char>) -> bool {
    &&& dot_count(t) == 1
    &&& t.len() >= 1
    &&& t[0] != '.'
    &&& t[t.len() - 1] != '.'
}

/// A character equals a lower-case letter up to ASCII case.
pub open spec fn eq_ci(c: char, lower: char) -> bool {
    c == lower || c as int + 32 == lower as int
}

/// The text equals the keyword up to ASCII case, character by character.
pub open spec fn matches_ci(t: Seq<char>, kw: Seq<char>) -> bool {
    &&& t.len() == kw.len()
    &&& forall|i: int| 0 <= i < t.len() ==> #[trigger] eq_ci(t[i], kw[i])
}

pub open spec fn kw_true() -> Seq<char> {
    seq!['t', 'r', 'u', 'e']
}

pub open spec fn kw_false() -> Seq<char> {
    seq!['f', 'a', 'l', 's', 'e']
}

pub open spec fn kw_null() -> Seq<char> {
    seq!['n', 'u', 'l', 'l']
}

/// The keyword kind a bareword names, if any: a case-insensitive match
/// against the three reserved words.
pub open spec fn spec_keyword(t: Seq<char>) -> Option<TokenKind> {
    if matches_ci(t, kw_true()) {
        Some(TokenKind::True)
    } else if matches_ci(t, kw_false()) {
        Some(TokenKind::False)
    } else if matches_ci(t, kw_null()) {
        Some(TokenKind::Null)
    } else {
        None
    }
}

/// What one scan step yields: a token, with the cursor position and line
/// count after it, or a lexical error.
pub enum ScanStep {
    Tok { kind: TokenKind, text: Seq<char>, next: int, nl: int },
    Fail { err: LexErr },
}

/// One scan step of the scanner at position `pos` of text `s`, with `nl`
/// line feeds seen so far. Classifies the character under the cursor:
/// whitespace, end of input and the structural characters are one-character
/// tokens; a decimal point must not be followed by a digit; a double quote
/// opens a string literal that runs to the next double quote; a digit opens
/// a maximal run of digits and points, checked as a numeric literal; an
/// alphabetic character opens a maximal alphabetic run that must name a
/// reserved word; anything else is an error.
pub open spec fn scan_at(s: Seq<char>, pos: int, nl: int) -> ScanStep {
    let c = char_at(s, pos);
    if c == ' ' {
        ScanStep::Tok { kind: TokenKind::Space, text: seq![' '], next: pos + 1, nl }
    } else if c == '\n' {
        ScanStep::Tok { kind: TokenKind::Linefeed, text: seq!['\n'], next: pos + 1, nl: nl + 1 }
    } else if c == '\r' {
        ScanStep::Tok { kind: TokenKind::Carriagereturn, text: seq!['\r'], next: pos + 1, nl }
    } else if c == '\t' {
        ScanStep::Tok { kind: TokenKind::Horizontaltab, text: seq!['\t'], next: pos + 1, nl }
    } else if c == '\0' {
        ScanStep::Tok { kind: TokenKind::Eof, text: seq!['\0'], next: pos + 1, nl }
    } else if c == '[' {
        ScanStep::Tok { kind: TokenKind::Opsqbracket, text: seq!['['], next: pos + 1, nl }
    } else if c == ']' {
        ScanStep::Tok { kind: TokenKind::Clsqbracket, text: seq![']'], next: pos + 1, nl }
    } else if c == ',' {
        ScanStep::Tok { kind: TokenKind::Comma, text: seq![','], next: pos + 1, nl }
    } else if c == '{' {
        ScanStep::Tok { kind: TokenKind::Opcurlybracket, text: seq!['{'], next: pos + 1, nl }
    } else if c == '}' {
        ScanStep::Tok { kind: TokenKind::Clcurlybracket, text: seq!['}'], next: pos + 1, nl }
    } else if c == ':' {
        ScanStep::Tok { kind: TokenKind::Colon, text: seq![':'], next: pos + 1, nl }
    } else if c == '.' {
        if pos + 1 >= s.len() {
            ScanStep::Fail { err: LexErr::PeekFailed }
        } else if is_numeric_char(s[pos + 1]) {
            ScanStep::Fail { err: LexErr::MalformedNumber { line: nl } }
        } else {
            ScanStep::Tok { kind: TokenKind::Decimalpoint, text: seq!['.'], next: pos + 1, nl }
        }
    } else if c == '"' {
        match find_quote(s, pos + 1) {
            Some(q) => ScanStep::Tok {
                kind: TokenKind::String,
                text: s.subrange(pos + 1, q),
                next: q + 1,
                nl,
            },
            None => ScanStep::Fail { err: LexErr::MissingQuote { line: nl } },
        }
    } else if is_numeric_char(c) {
        let e = run_end(s, pos + 1, digdot_p());
        let text = s.subrange(pos, e);
        if dot_count(text) > 0 && !spec_valid_fp(text) {
            ScanStep::Fail { err: LexErr::MalformedNumber { line: nl } }
        } else {
            ScanStep::Tok { kind: TokenKind::Number, text, next: e, nl }
        }
    } else if is_alphabetic_char(c) {
        let e = run_end(s, pos + 1, alpha_p());
        let text = s.subrange(pos, e);
        match spec_keyword(text) {
            Some(k) => ScanStep::Tok { kind: k, text, next: e, nl },
            None => ScanStep::Fail { err: LexErr::UnknownKeyword { text } },
        }
    } else {
        ScanStep::Fail { err: LexErr::UnknownChar { c } }
    }
}

/// Where `find_quote` answers, a quote stands, and none before it; where it
/// does not, no quote follows.
pub proof fn lemma_find_quote_props(s: Seq<char>, i: int)
    ensures
        match find_quote(s, i) {
            Some(q) => i <= q < s.len() && s[q] == '"' && forall|k: int|
                i <= k < q ==> s[k] != '"',
            None => forall|k: int| i <= k < s.len() ==> s[k] != '"',
        },
    decreases s.len() - i,
{
    if i >= s.len() {
    } else if s[i] == '"' {
    } else {
        lemma_find_quote_props(s, i + 1);
    }
}

/// A maximal run: every character before `run_end` satisfies the predicate
/// and the character at it, if within the text, does not.
pub proof fn lemma_run_end_props(s: Seq<char>, i: int, p: spec_fn(char) -> bool)
    requires
        0 <= i,
    ensures
        i <= run_end(s, i, p),
        i <= s.len() ==> run_end(s, i, p) <= s.len(),
        forall|k: int| i <= k < run_end(s, i, p) ==> p(#[trigger] s[k]),
        run_end(s, i, p) < s.len() ==> !p(s[run_end(s, i, p)]),
    decreases s.len() - i,
{
    if 0 <= i < s.len() && p(s[i]) {
        lemma_run_end_props(s, i + 1, p);
    }
}

/// The end of a run is determined by its witnesses: characters satisfying
/// the predicate up to `e`, and a failing or absent character at `e`.
pub proof fn lemma_run_end_is(s: Seq<char>, i: int, e: int, p: spec_fn(char) -> bool)
    requires
        0 <= i <= e <= s.len(),
        forall|k: int| i <= k < e ==> p(#[trigger] s[k]),
        e == s.len() || !p(s[e]),
    ensures
        run_end(s, i, p) == e,
    decreases e - i,
{
    if i < e {
        lemma_run_end_is(s, i + 1, e, p);
    }
}

/// A decimal point at a position makes the count positive.
pub proof fn lemma_dot_count_pos(t: Seq<char>, i: int)
    requires
        0 <= i < t.len(),
        t[i] == '.',
    ensures
        dot_count(t) >= 1,
    decreases t.len(),
{
    if i < t.len() - 1 {
        lemma_dot_count_pos(t.drop_last(), i);
    }
}

/// Two decimal points at distinct positions make the count at least two.
pub proof fn lemma_dot_count_two(t: Seq<char>, i: int, j: int)
    requires
        0 <= i < j < t.len(),
        t[i] == '.',
        t[j] == '.',
    ensures
        dot_count(t) >= 2,
    decreases t.len(),
{
    if j == t.len() - 1 {
        lemma_dot_count_pos(t.drop_last(), i);
    } else {
        lemma_dot_count_two(t.drop_last(), i, j);
    }
}

/// Count the decimal points of a candidate numeric literal.
#[verifier::loop_isolation(false)]
fn count_points(potential: &str) -> (n: usize)
    ensures
        n as int == dot_count(potential@),
{
    let len: usize = potential.unicode_len();
    let mut i: usize = 0;
    let mut cnt: usize = 0;
    while i < len
        invariant
            i <= len,
            cnt <= i,
            len == potential@.len(),
            cnt as int == dot_count(potential@.subrange(0, i as int)),
        decreases len - i,
    {
        let c = potential.get_char(i);
        proof {
            assert(potential@.subrange(0, i as int + 1).drop_last() =~= potential@.subrange(
                0,
                i as int,
            ));
        }
        if c == '.' {
            cnt = cnt + 1;
        }
        i = i + 1;
    }
    proof {
        assert(potential@.subrange(0, len as int) =~= potential@);
    }
    cnt
}

/// Compare a text with a reserved word, character by character, up to ASCII
/// case; the reserved word is given in lower case.
#[verifier::loop_isolation(false)]
fn ascii_ci_eq(text: &str, kw: &str) -> (r: bool)
    ensures
        r == matches_ci(text@, kw@),
{
    let n: usize = text.unicode_len();
    if n != kw.unicode_len() {
        return false;
    }
    let mut i: usize = 0;
    while i < n
        invariant
            i <= n,
            n == text@.len(),
            n == kw@.len(),
            forall|k: int| 0 <= k < i ==> #[trigger] eq_ci(text@[k], kw@[k]),
        decreases n - i,
    {
        let c = text.get_char(i);
        let k = kw.get_char(i);
        let cu: u32 = c as u32;
        let ku: u32 = k as u32;
        if !(cu == ku || (ku >= 32 && cu == ku - 32)) {
            proof {
                assert(!eq_ci(text@[i as int], kw@[i as int]));
            }
            return false;
        }
        proof {
            assert(eq_ci(text@[i as int], kw@[i as int]));
        }
        i = i + 1;
    }
    true
}

/// Bounds of one scan step: the cursor strictly advances, and a step taken
/// within the text ends at most one position past it.
pub proof fn lemma_scan_at_props(s: Seq<char>, pos: int, nl: int)
    requires
        0 <= pos,
    ensures
        match scan_at(s, pos, nl) {
            ScanStep::Tok { kind, text, next, nl: nl2 } => {
                &&& pos < next
                &&& (pos < s.len() ==> next <= s.len())
                &&& (pos >= s.len() ==> next == pos + 1 && kind == TokenKind::Eof)
                &&& (kind != TokenKind::Eof ==> pos < s.len())
                &&& nl <= nl2 <= nl + 1
            },
            ScanStep::Fail { .. } => true,
        },
{
    let c = char_at(s, pos);
    if c == '"' {
        lemma_find_quote_props(s, pos + 1);
    } else if is_numeric_char(c) && c != '\0' && c != '.' {
        lemma_run_end_props(s, pos + 1, digdot_p());
    } else if is_alphabetic_char(c) && c != '\0' {
        lemma_run_end_props(s, pos + 1, alpha_p());
    }
}

/// The scanner: the input text with one synthetic trailing line feed, a
/// forward-only cursor, the character cache, and a running count of line
/// feeds for diagnostics.
pub struct Lexer {
    pub source: String,
    pub cur_char: char,
    pub cur_pos: usize,
    pub newline_count: u64,
}

impl Lexer {
    /// The scanner state is consistent: the cache holds the character under
    /// the cursor, and the text leaves the cursor headroom within `usize`.
    pub open spec fn wf(&self) -> bool {
        &&& self.cur_char == char_at(self.source@, self.cur_pos as int)
        &&& self.source@.len() + 4 <= usize::MAX
    }

    /// Build a scanner over the text, with one line feed appended so every
    /// trailing construct has a terminator to examine, and the cursor on the
    /// first character.
    pub fn new(source: String) -> (l: Lexer)
        requires
            source@.len() + 5 <= usize::MAX,
        ensures
            l.wf(),
            l.source@ == source@ + seq!['\n'],
            l.cur_pos == 0,
            l.newline_count == 0,
    {
        proof {
            reveal_strlit("\n");
        }
        let ghost orig: Seq<char> = source@;
        let mut src = source;
        src.append("\n");
        proof {
            assert(src@ =~= orig + seq!['\n']);
        }
        let c = src.as_str().get_char(0);
        Lexer { source: src, cur_char: c, cur_pos: 0, newline_count: 0 }
    }

    /// Move the cursor forward one position and refresh the character cache:
    /// the next character, or the NUL sentinel past the end of the text.
    pub fn next_char(&mut self)
        requires
            old(self).wf(),
            old(self).cur_pos as int <= old(self).source@.len() + 3,
        ensures
            final(self).wf(),
            final(self).source == old(self).source,
            final(self).cur_pos == old(self).cur_pos + 1,
            final(self).newline_count == old(self).newline_count,
            final(self).cur_char == char_at(old(self).source@, old(self).cur_pos + 1),
    {
        self.cur_pos = self.cur_pos + 1;
        if self.cur_pos >= self.source.as_str().unicode_len() {
            self.cur_char = '\0';
        } else {
            self.cur_char = self.source.as_str().get_char(self.cur_pos);
        }
    }

    /// The character one position ahead of the cursor, without moving the
    /// cursor, or none if that position is past the end of the text.
    pub fn peek(&mut self) -> (r: Option<char>)
        requires
            old(self).wf(),
            old(self).cur_pos as int <= old(self).source@.len() + 3,
        ensures
            *final(self) == *old(self),
            r == (if old(self).cur_pos + 1 < old(self).source@.len() {
                Some(old(self).source@[old(self).cur_pos + 1])
            } else {
                None::<char>
            }),
    {
        if self.cur_pos + 1 >= self.source.as_str().unicode_len() {
            return None;
        }
        Some(self.source.as_str().get_char(self.cur_pos + 1))
    }

    /// Check a numeric literal that holds at least one decimal point: the
    /// point must be unique, neither the first character nor the last.
    #[verifier::loop_isolation(false)]
    fn valid_fp_number(&mut self, potential: &str) -> (r: bool)
        requires
            dot_count(potential@) >= 1,
        ensures
            *final(self) == *old(self),
            r == spec_valid_fp(potential@),
    {
        let len: usize = potential.unicode_len();
        let mut i: usize = 0;
        let mut cnt: usize = 0;
        let mut first: usize = len;
        while i < len
            invariant
                i <= len,
                cnt <= i,
                len == potential@.len(),
                cnt as int == dot_count(potential@.subrange(0, i as int)),
                first == len ==> cnt == 0,
                first == len ==> forall|k: int| 0 <= k < i ==> potential@[k] != '.',
                first == len || (first < i && potential@[first as int] == '.' && forall|k: int|
                    0 <= k < first ==> potential@[k] != '.'),
            decreases len - i,
        {
            let c = potential.get_char(i);
            proof {
                assert(potential@.subrange(0, i as int + 1).drop_last() =~= potential@.subrange(
                    0,
                    i as int,
                ));
            }
            if c == '.' {
                cnt = cnt + 1;
                if first == len {
                    first = i;
                }
            }
            i = i + 1;
        }
        proof {
            assert(potential@.subrange(0, len as int) =~= potential@);
        }
        // More than one decimal point is never well formed.
        if cnt > 1 {
            return false;
        }
        // Exactly one point now, at `first`: it may stand neither first nor
        // last in the literal.
        if first < 1 {
            return false;
        }
        if first == len - 1 {
            return false;
        }
        proof {
            if potential@[len - 1] == '.' {
                lemma_dot_count_two(potential@, first as int, len - 1);
            }
        }
        true
    }

    /// Look a bareword up among the reserved words, case-insensitively, and
    /// build its token.
    fn is_keyword(&mut self, token_text: &String) -> (r: Option<Token>)
        ensures
            *final(self) == *old(self),
            match spec_keyword(token_text@) {
                Some(k) => r matches Some(t) && t.kind == k && t.text@ == token_text@,
                None => r is None,
            },
    {
        proof {
            reveal_strlit("true");
            reveal_strlit("false");
            reveal_strlit("null");
            assert("true"@ =~= kw_true());
            assert("false"@ =~= kw_false());
            assert("null"@ =~= kw_null());
        }
        if ascii_ci_eq(token_text.as_str(), "true") {
            return Some(Token { text: token_text.clone(), kind: TokenKind::True });
        }
        if ascii_ci_eq(token_text.as_str(), "false") {
            return Some(Token { text: token_text.clone(), kind: TokenKind::False });
        }
        if ascii_ci_eq(token_text.as_str(), "null") {
            return Some(Token { text: token_text.clone(), kind: TokenKind::Null });
        }
        None
    }

    /// Classify the character under the cursor and form one token, leaving
    /// the cursor at the start of the following token, or report the lexical
    /// error met there. Follows `scan_at` exactly.
    #[verifier::loop_isolation(false)]
    pub fn match_token(&mut self) -> (r: Result<Token, LexError>)
        requires
            old(self).wf(),
            old(self).cur_pos as int <= old(self).source@.len() + 3,
            old(self).newline_count as int <= old(self).cur_pos as int,
        ensures
            final(self).wf(),
            final(self).source == old(self).source,
            final(self).newline_count as int <= final(self).cur_pos as int,
            match scan_at(
                old(self).source@,
                old(self).cur_pos as int,
                old(self).newline_count as int,
            ) {
                ScanStep::Tok { kind, text, next, nl } => {
                    &&& r matches Ok(t) && t.kind == kind && t.text@ == text
                    &&& final(self).cur_pos as int == next
                    &&& final(self).newline_count as int == nl
                },
                ScanStep::Fail { err } => r matches Err(e) && e@ == err,
            },
    {
        let ghost s: Seq<char> = self.source@;
        let ghost pos0: int = self.cur_pos as int;
        let ghost nl0: int = self.newline_count as int;
        let token: Token;
        if self.cur_char == ' ' {
            proof {
                reveal_strlit(" ");
                assert(" "@ =~= seq![' ']);
            }
            token = Token { text: String::from_str(" "), kind: TokenKind::Space };
        } else if self.cur_char == '\n' {
            proof {
                reveal_strlit("\n");
                assert("\n"@ =~= seq!['\n']);
            }
            // Count the line feed, for diagnostics.
            self.newline_count = self.newline_count + 1;
            token = Token { text: String::from_str("\n"), kind: TokenKind::Linefeed };
        } else if self.cur_char == '\r' {
            proof {
                reveal_strlit("\r");
                assert("\r"@ =~= seq!['\r']);
            }
            token = Token { text: String::from_str("\r"), kind: TokenKind::Carriagereturn };
        } else if self.cur_char == '\t' {
            proof {
                reveal_strlit("\t");
                assert("\t"@ =~= seq!['\t']);
            }
            token = Token { text: String::from_str("\t"), kind: TokenKind::Horizontaltab };
        } else if self.cur_char == '\0' {
            proof {
                reveal_strlit("\0");
                assert("\0"@ =~= seq!['\0']);
            }
            token = Token { text: String::from_str("\0"), kind: TokenKind::Eof };
        } else if self.cur_char == '[' {
            proof {
                reveal_strlit("[");
                assert("["@ =~= seq!['[']);
            }
            token = Token { text: String::from_str("["), kind: TokenKind::Opsqbracket };
        } else if self.cur_char == ']' {
            proof {
                reveal_strlit("]");
                assert("]"@ =~= seq![']']);
            }
            token = Token { text: String::from_str("]"), kind: TokenKind::Clsqbracket };
        } else if self.cur_char == ',' {
            proof {
                reveal_strlit(",");
                assert(","@ =~= seq![',']);
            }
            token = Token { text: String::from_str(","), kind: TokenKind::Comma };
        } else if self.cur_char == '{' {
            proof {
                reveal_strlit("{");
                assert("{"@ =~= seq!['{']);
            }
            token = Token { text: String::from_str("{"), kind: TokenKind::Opcurlybracket };
        } else if self.cur_char == '}' {
            proof {
                reveal_strlit("}");
                assert("}"@ =~= seq!['}']);
            }
            token = Token { text: String::from_str("}"), kind: TokenKind::Clcurlybracket };
        } else if self.cur_char == ':' {
            proof {
                reveal_strlit(":");
                assert(":"@ =~= seq![':']);
            }
            token = Token { text: String::from_str(":"), kind: TokenKind::Colon };
        } else if self.cur_char == '.' {
            // A decimal point in punctuation position: a following digit
            // means a numeric literal with a bare leading point.
            let pc = self.peek();
            match pc {
                Some(c2) => {
                    if char_is_numeric(c2) {
                        return Err(LexError::MalformedNumber { line: self.newline_count });
                    }
                    proof {
                        reveal_strlit(".");
                        assert("."@ =~= seq!['.']);
                    }
                    token = Token { text: String::from_str("."), kind: TokenKind::Decimalpoint };
                },
                None => {
                    return Err(LexError::PeekFailed);
                },
            }
        } else if self.cur_char == '"' {
            // Skip the opening quote; the string runs to the closing one.
            self.next_char();
            let start: usize = self.cur_pos;
            while self.cur_char != '"'
                invariant
                    self.wf(),
                    self.source == old(self).source,
                    self.newline_count == old(self).newline_count,
                    start as int == pos0 + 1,
                    start as int <= self.cur_pos as int,
                    self.cur_pos as int <= s.len() + 1,
                    forall|k: int|
                        start as int <= k < self.cur_pos as int && k < s.len() ==> s[k] != '"',
                decreases s.len() + 2 - self.cur_pos as int,
            {
                if self.cur_pos > self.source.as_str().unicode_len() {
                    proof {
                        lemma_find_quote_props(s, start as int);
                        if let Some(q) = find_quote(s, start as int) {
                            assert(s[q] == '"');
                            assert(false);
                        }
                    }
                    return Err(LexError::MissingQuote { line: self.newline_count });
                }
                self.next_char();
            }
            let end: usize = self.cur_pos;
            proof {
                assert(end < s.len() && s[end as int] == '"');
                lemma_find_quote_props(s, start as int);
                match find_quote(s, start as int) {
                    Some(q) => {
                        if q < end as int {
                            assert(s[q] != '"');
                        }
                        if q > end as int {
                            assert(s[end as int] != '"');
                        }
                    },
                    None => {
                        assert(s[end as int] != '"');
                    },
                }
            }
            let text = self.source.as_str().substring_char(start, end).to_owned();
            token = Token { text, kind: TokenKind::String };
        } else if char_is_numeric(self.cur_char) {
            // A digit opens a maximal run of digits and decimal points.
            proof {
                assert(pos0 < s.len());
            }
            let start: usize = self.cur_pos;
            let mut done: bool = false;
            while !done
                invariant
                    self.wf(),
                    self.source == old(self).source,
                    self.newline_count == old(self).newline_count,
                    start as int == pos0,
                    start as int <= self.cur_pos as int,
                    (self.cur_pos as int) < s.len(),
                    forall|k: int|
                        (start as int) < k <= self.cur_pos as int ==> is_digdot(#[trigger] s[k]),
                    done ==> self.cur_pos as int + 1 >= s.len() || !is_digdot(
                        s[self.cur_pos as int + 1],
                    ),
                decreases s.len() - self.cur_pos as int + (if done { 0int } else { 1int }),
            {
                let pc = self.peek();
                match pc {
                    Some(c2) => {
                        if c2 == '.' || char_is_numeric(c2) {
                            self.next_char();
                        } else {
                            done = true;
                        }
                    },
                    None => {
                        done = true;
                    },
                }
            }
            let end: usize = self.cur_pos + 1;
            proof {
                assert forall|k: int| start as int + 1 <= k < end as int implies #[trigger] digdot_p()(
                    s[k],
                ) by {
                    assert(is_digdot(s[k]));
                }
                if (end as int) < s.len() {
                    assert(!digdot_p()(s[end as int]));
                }
                lemma_run_end_is(s, start as int + 1, end as int, digdot_p());
            }
            let constructed = self.source.as_str().substring_char(start, end).to_owned();
            let points: usize = count_points(constructed.as_str());
            if points > 0 {
                if !self.valid_fp_number(constructed.as_str()) {
                    return Err(LexError::MalformedNumber { line: self.newline_count });
                }
            }
            token = Token { text: constructed, kind: TokenKind::Number };
        } else if char_is_alphabetic(self.cur_char) {
            // An alphabetic character opens a maximal bareword run, which
            // must name one of the reserved words.
            proof {
                assert(pos0 < s.len());
            }
            let start: usize = self.cur_pos;
            let mut done: bool = false;
            while !done
                invariant
                    self.wf(),
                    self.source == old(self).source,
                    self.newline_count == old(self).newline_count,
                    start as int == pos0,
                    start as int <= self.cur_pos as int,
                    (self.cur_pos as int) < s.len(),
                    forall|k: int|
                        (start as int) < k <= self.cur_pos as int ==> is_alphabetic_char(
                            #[trigger] s[k],
                        ),
                    done ==> self.cur_pos as int + 1 >= s.len() || !is_alphabetic_char(
                        s[self.cur_pos as int + 1],
                    ),
                decreases s.len() - self.cur_pos as int + (if done { 0int } else { 1int }),
            {
                let pc = self.peek();
                match pc {
                    Some(c2) => {
                        if char_is_alphabetic(c2) {
                            self.next_char();
                        } else {
                            done = true;
                        }
                    },
                    None => {
                        done = true;
                    },
                }
            }
            let end: usize = self.cur_pos + 1;
            proof {
                assert forall|k: int| start as int + 1 <= k < end as int implies #[trigger] alpha_p()(
                    s[k],
                ) by {
                    assert(is_alphabetic_char(s[k]));
                }
                if (end as int) < s.len() {
                    assert(!alpha_p()(s[end as int]));
                }
                lemma_run_end_is(s, start as int + 1, end as int, alpha_p());
            }
            let constructed = self.source.as_str().substring_char(start, end).to_owned();
            let kw = self.is_keyword(&constructed);
            match kw {
                Some(t) => {
                    token = t;
                },
                None => {
                    return Err(LexError::UnknownKeyword { text: constructed });
                },
            }
        } else {
            return Err(LexError::UnknownChar { c: self.cur_char });
        }
        // Position the cursor at the start of the following token.
        self.next_char();
        Ok(token)
    }
}

} // verus!
