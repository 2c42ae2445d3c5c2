//! Laws of the checker, proved against `spec_validate`: whole families of
//! inputs that are always accepted or always rejected.

use vstd::prelude::*;

use crate::error::LexErr;
use crate::error::ParseErr;
use crate::lexer::alpha_p;
use crate::lexer::digdot_p;
use crate::lexer::dot_count;
use crate::lexer::eq_ci;
use crate::lexer::find_quote;
use crate::lexer::is_alphabetic_char;
use crate::lexer::is_digdot;
use crate::lexer::is_numeric_char;
use crate::lexer::kw_false;
use crate::lexer::kw_null;
use crate::lexer::kw_true;
use crate::lexer::matches_ci;
use crate::lexer::spec_keyword;
use crate::lexer::lemma_dot_count_pos;
use crate::lexer::lemma_find_quote_props;
use crate::lexer::lemma_run_end_is;
use crate::lexer::scan_at;
use crate::lexer::spec_valid_fp;
use crate::lexer::ScanStep;
use crate::parser::spec_arr_tail;
use crate::parser::spec_array;
use crate::parser::is_scalar;
use crate::parser::is_skippable;
use crate::parser::is_ws_any;
use crate::parser::spec_obj_tail;
use crate::parser::spec_object;
use crate::parser::spec_pull;
use crate::parser::spec_validate;
use crate::parser::spec_value;
use crate::parser::spec_ws;
use crate::parser::PState;
use crate::token::TokenKind;

verus! {

/// The token kind of a one-character token, for the structural and layout
/// characters.
pub open spec fn char_token_kind(c: char) -> TokenKind {
    if c == ' ' {
        TokenKind::Space
    } else if c == '\n' {
        TokenKind::Linefeed
    } else if c == '{' {
        TokenKind::Opcurlybracket
    } else if c == '}' {
        TokenKind::Clcurlybracket
    } else if c == '[' {
        TokenKind::Opsqbracket
    } else if c == ']' {
        TokenKind::Clsqbracket
    } else if c == ',' {
        TokenKind::Comma
    } else if c == ':' {
        TokenKind::Colon
    } else {
        TokenKind::Empty
    }
}

/// A structural or layout character scans as a one-character token of its
/// kind.
proof fn lemma_scan_simple(s: Seq<char>, p: int, nl: int)
    requires
        0 <= p < s.len(),
        s[p] == ' ' || s[p] == '\n' || s[p] == '{' || s[p] == '}' || s[p] == '[' || s[p] == ']'
            || s[p] == ',' || s[p] == ':',
    ensures
        scan_at(s, p, nl) matches ScanStep::Tok { kind, text, next, nl: nl2 } && kind
            == char_token_kind(s[p]) && next == p + 1,
{
}

/// Skipping a run of space and line-feed characters, one one-character token
/// each, reaches the closing brace that follows the run.
proof fn lemma_skip_ws_run(s: Seq<char>, n: int, i: int, st: PState)
    requires
        s.len() == n + 3,
        forall|j: int| 1 <= j <= n ==> (s[j] == ' ' || s[j] == '\n'),
        s[n + 1] == '}',
        s[n + 2] == '\n',
        0 <= i <= n,
        st.pos == i + 3,
        st.cur == char_token_kind(s[i + 1]),
        st.peek == char_token_kind(s[i + 2]),
    ensures
        spec_ws(s, st) matches Ok(st2) && st2.cur == TokenKind::Clcurlybracket && st2.pos == n + 3,
    decreases n - i,
{
    if i == n {
        assert(st.cur == TokenKind::Clcurlybracket);
    } else {
        assert(st.cur == TokenKind::Space || st.cur == TokenKind::Linefeed);
        lemma_scan_simple(s, i + 3, st.nl);
        match spec_pull(s, st) {
            Ok(st2) => {
                lemma_skip_ws_run(s, n, i + 1, st2);
            },
            Err(_) => {
                assert(false);
            },
        }
    }
}

/// Every text of an opening brace, any run of space and line-feed padding,
/// and a closing brace is accepted: the empty object, however padded.
pub proof fn lemma_padded_empty_object_accepted(ws: Seq<char>)
    requires
        forall|j: int| 0 <= j < ws.len() ==> (ws[j] == ' ' || ws[j] == '\n'),
    ensures
        spec_validate(seq!['{'] + ws + seq!['}']) == Ok::<(), ParseErr>(()),
{
    let t = seq!['{'] + ws + seq!['}'];
    let n = ws.len() as int;
    let s = t + seq!['\n'];
    assert(s.len() == n + 3);
    assert(s[0] == '{');
    assert forall|j: int| 1 <= j <= n implies (s[j] == ' ' || s[j] == '\n') by {
        assert(s[j] == ws[j - 1]);
    }
    assert(s[n + 1] == '}');
    assert(s[n + 2] == '\n');
    lemma_scan_simple(s, 0, 0);
    lemma_scan_simple(s, 1, 0);
    let st0 = PState { cur: TokenKind::Empty, peek: TokenKind::Empty, pos: 0, nl: 0 };
    match spec_pull(s, st0) {
        Ok(st1) => {
            match spec_pull(s, st1) {
                Ok(stn) => {
                    assert(stn.cur == TokenKind::Opcurlybracket);
                    assert(stn.peek == char_token_kind(s[1]));
                    assert(stn.pos == 2);
                    lemma_scan_simple(s, 2, stn.nl);
                    match spec_pull(s, stn) {
                        Ok(stb) => {
                            assert(stb.pos == 3);
                            assert(stb.cur == char_token_kind(s[1]));
                            assert(stb.peek == char_token_kind(s[2]));
                            lemma_skip_ws_run(s, n, 0, stb);
                            assert(spec_object(s, stn) matches Ok(st2) && st2.cur
                                == TokenKind::Clcurlybracket);
                        },
                        Err(_) => {
                            assert(false);
                        },
                    }
                },
                Err(_) => {
                    assert(false);
                },
            }
        },
        Err(_) => {
            assert(false);
        },
    }
}

/// The empty array is accepted bare and with one space or one line feed of
/// interior padding. (More padding, or a tab or carriage return, falls out
/// of the one-token lookahead the array check uses, and is rejected.)
pub proof fn lemma_lightly_padded_empty_array_accepted(ws: Seq<char>)
    requires
        ws =~= Seq::<char>::empty() || ws =~= seq![' '] || ws =~= seq!['\n'],
    ensures
        spec_validate(seq!['['] + ws + seq![']']) == Ok::<(), ParseErr>(()),
{
    reveal_with_fuel(spec_ws, 3);
    let t = seq!['['] + ws + seq![']'];
    let n = ws.len() as int;
    let s = t + seq!['\n'];
    assert(s.len() == n + 3);
    assert(s[0] == '[');
    assert(s[n + 1] == ']');
    assert(s[n + 2] == '\n');
    lemma_scan_simple(s, 0, 0);
    lemma_scan_simple(s, 1, 0);
    lemma_scan_simple(s, 2, 0);
    if n == 0 {
        assert(spec_validate(t) == Ok::<(), ParseErr>(()));
    } else {
        assert(s[1] == ws[0]);
        assert(n == 1);
        lemma_scan_simple(s, 3, 0);
        lemma_scan_simple(s, 3, 1);
        assert(spec_validate(t) == Ok::<(), ParseErr>(()));
    }
}

/// A number with a bare leading decimal point — a point in punctuation
/// position followed by a digit — is rejected as malformed, citing the first
/// line.
pub proof fn lemma_leading_point_rejected(t: Seq<char>)
    requires
        t.len() >= 2,
        t[0] == '.',
        is_numeric_char(t[1]),
    ensures
        spec_validate(t) == Err::<(), ParseErr>(
            ParseErr::Lexical { err: LexErr::MalformedNumber { line: 0 } },
        ),
{
    let s = t + seq!['\n'];
    assert(s[0] == '.');
    assert(s[1] == t[1]);
    assert(scan_at(s, 0, 0) matches ScanStep::Fail { err } && err == (LexErr::MalformedNumber {
        line: 0,
    }));
}

/// A numeric literal of digits and points whose point is repeated or last is
/// rejected as malformed, citing the first line. (A point cannot stand
/// first in such a literal: the scanner only opens a number at a digit.)
pub proof fn lemma_malformed_number_rejected(t: Seq<char>)
    requires
        t.len() >= 1,
        is_numeric_char(t[0]),
        forall|j: int| 0 <= j < t.len() ==> is_digdot(#[trigger] t[j]),
        dot_count(t) >= 2 || t[t.len() - 1] == '.',
    ensures
        spec_validate(t) == Err::<(), ParseErr>(
            ParseErr::Lexical { err: LexErr::MalformedNumber { line: 0 } },
        ),
{
    let s = t + seq!['\n'];
    let n = t.len() as int;
    assert(s[0] == t[0]);
    // The maximal run of digits and points covers the whole literal: the
    // appended line feed ends it.
    assert forall|k: int| 1 <= k < n implies #[trigger] digdot_p()(s[k]) by {
        assert(s[k] == t[k]);
        assert(is_digdot(t[k]));
    }
    assert(!digdot_p()(s[n]));
    lemma_run_end_is(s, 1, n, digdot_p());
    assert(s.subrange(0, n) =~= t);
    // The literal fails the numeric validator: its point is repeated or
    // stands last, and either way it holds at least one point.
    if t[n - 1] == '.' {
        lemma_dot_count_pos(t, n - 1);
    }
    assert(dot_count(t) > 0 && !spec_valid_fp(t));
    assert(scan_at(s, 0, 0) matches ScanStep::Fail { err } && err == (LexErr::MalformedNumber {
        line: 0,
    }));
}

/// A string literal that never closes is rejected, citing the line the
/// scanner was on when the literal opened.
pub proof fn lemma_unterminated_string_rejected(t: Seq<char>)
    requires
        t.len() >= 1,
        t[0] == '"',
        forall|j: int| 1 <= j < t.len() ==> t[j] != '"',
    ensures
        spec_validate(t) == Err::<(), ParseErr>(
            ParseErr::Lexical { err: LexErr::MissingQuote { line: 0 } },
        ),
{
    let s = t + seq!['\n'];
    let n = t.len() as int;
    assert(s[0] == '"');
    lemma_find_quote_props(s, 1);
    match find_quote(s, 1) {
        Some(q) => {
            if q < n {
                assert(s[q] == t[q]);
            }
            assert(false);
        },
        None => {},
    }
    assert(scan_at(s, 0, 0) matches ScanStep::Fail { err } && err == (LexErr::MissingQuote {
        line: 0,
    }));
}

/// A sequence without a decimal point counts none.
proof fn lemma_dot_count_zero(t: Seq<char>)
    requires
        forall|j: int| 0 <= j < t.len() ==> t[j] != '.',
    ensures
        dot_count(t) == 0,
    decreases t.len(),
{
    if t.len() > 0 {
        lemma_dot_count_zero(t.drop_last());
    }
}

/// A quoted string with no interior quote.
pub open spec fn is_string_atom(a: Seq<char>) -> bool {
    &&& a.len() >= 2
    &&& a[0] == '"'
    &&& a[a.len() - 1] == '"'
    &&& forall|j: int| 1 <= j < a.len() - 1 ==> a[j] != '"'
}

/// A digit-only integer literal.
pub open spec fn is_int_atom(a: Seq<char>) -> bool {
    &&& a.len() >= 1
    &&& forall|j: int| 0 <= j < a.len() ==> 48 <= #[trigger] a[j] as int <= 57
}

/// A text that scans as a single scalar token: a quoted string with no
/// interior quote, a digit-only integer, or one of the three reserved words.
pub open spec fn is_atom(a: Seq<char>) -> bool {
    ||| is_string_atom(a)
    ||| is_int_atom(a)
    ||| a =~= kw_true()
    ||| a =~= kw_false()
    ||| a =~= kw_null()
}

/// The kind of the one token an atom scans to.
pub open spec fn atom_kind(a: Seq<char>) -> TokenKind {
    if is_string_atom(a) {
        TokenKind::String
    } else if is_int_atom(a) {
        TokenKind::Number
    } else if a =~= kw_true() {
        TokenKind::True
    } else if a =~= kw_false() {
        TokenKind::False
    } else {
        TokenKind::Null
    }
}

/// An atom standing at position `p`, followed by a character that continues
/// no token, scans as one token of its kind, ending right after the atom.
proof fn lemma_scan_atom(s: Seq<char>, p: int, nl: int, a: Seq<char>)
    requires
        is_atom(a),
        0 <= p,
        p + a.len() < s.len(),
        forall|j: int| 0 <= j < a.len() ==> s[p + j] == #[trigger] a[j],
        s[p + a.len()] == ',' || s[p + a.len()] == ']' || s[p + a.len()] == '}' || s[p + a.len()]
            == ':' || s[p + a.len()] == '\n',
    ensures
        scan_at(s, p, nl) matches ScanStep::Tok { kind, text, next, nl: nl2 } && kind == atom_kind(
            a,
        ) && next == p + a.len() && nl2 == nl,
{
    let l = a.len() as int;
    let after = s[p + l];
    assert(!is_digdot(after));
    assert(!is_alphabetic_char(after));
    if is_string_atom(a) {
        assert(s[p] == '"');
        lemma_find_quote_props(s, p + 1);
        let close = p + l - 1;
        assert(s[close] == a[l - 1]);
        match find_quote(s, p + 1) {
            Some(q) => {
                if q < close {
                    assert(s[q] == a[q - p]);
                    assert(false);
                }
                if q > close {
                    assert(s[close] != '"');
                    assert(false);
                }
            },
            None => {
                assert(s[close] != '"');
                assert(false);
            },
        }
    } else if is_int_atom(a) {
        assert(48 <= a[0] as int <= 57);
        assert(s[p] == a[0]);
        assert(is_numeric_char(s[p]));
        assert forall|k: int| p + 1 <= k < p + l implies #[trigger] digdot_p()(s[k]) by {
            assert(s[k] == a[k - p]);
            assert(is_digdot(a[k - p]));
        }
        assert(!digdot_p()(s[p + l]));
        lemma_run_end_is(s, p + 1, p + l, digdot_p());
        let text = s.subrange(p, p + l);
        assert(text =~= a);
        assert forall|j: int| 0 <= j < text.len() implies text[j] != '.' by {
            assert(48 <= a[j] as int <= 57);
        }
        lemma_dot_count_zero(text);
    } else {
        // One of the three reserved words: a maximal alphabetic run whose
        // text matches itself case-insensitively and no other keyword.
        assert(is_alphabetic_char(s[p]));
        assert(!is_numeric_char(s[p]));
        assert forall|k: int| p + 1 <= k < p + l implies #[trigger] alpha_p()(s[k]) by {
            assert(s[k] == a[k - p]);
        }
        assert(!alpha_p()(s[p + l]));
        lemma_run_end_is(s, p + 1, p + l, alpha_p());
        let text = s.subrange(p, p + l);
        assert(text =~= a);
        assert forall|i: int| 0 <= i < text.len() implies #[trigger] eq_ci(text[i], text[i]) by {
        }
        assert(matches_ci(text, text));
        assert(!eq_ci('f' as char, 't' as char));
        assert(!eq_ci('n' as char, 't' as char));
        assert(!eq_ci('t' as char, 'n' as char));
        assert(!eq_ci('f' as char, 'n' as char));
        if a =~= kw_true() {
            assert(spec_keyword(text) == Some(TokenKind::True));
        } else if a =~= kw_false() {
            assert(spec_keyword(text) == Some(TokenKind::False));
        } else {
            assert(a =~= kw_null());
            assert(!matches_ci(text, kw_true()));
            assert(spec_keyword(text) == Some(TokenKind::Null));
        }
    }
}

/// The text of a comma-separated list of atoms.
pub open spec fn joined(atoms: Seq<Seq<char>>) -> Seq<char>
    decreases atoms.len(),
{
    if atoms.len() == 0 {
        Seq::empty()
    } else if atoms.len() == 1 {
        atoms[0]
    } else {
        atoms[0] + seq![','] + joined(atoms.drop_first())
    }
}

/// The layout of a comma-separated atom list within the scanned text, from
/// the position where its first atom starts: each atom is followed by a
/// comma and the next, and the last by the closing bracket, the terminator
/// and the end of the text.
pub open spec fn suffix_matches(s: Seq<char>, q: int, atoms: Seq<Seq<char>>) -> bool
    decreases atoms.len(),
{
    if atoms.len() == 0 {
        false
    } else {
        let a = atoms[0];
        &&& 0 <= q
        &&& q + a.len() < s.len()
        &&& (forall|j: int| 0 <= j < a.len() ==> s[q + j] == #[trigger] a[j])
        &&& if atoms.len() == 1 {
            &&& s[q + a.len()] == ']'
            &&& s[q + a.len() + 1] == '\n'
            &&& q + a.len() + 2 == s.len()
        } else {
            &&& s[q + a.len()] == ','
            &&& suffix_matches(s, q + a.len() + 1, atoms.drop_first())
        }
    }
}

/// The value loop accepts a comma-separated list of atoms: from the loop
/// head with the first atom in the current slot and its separator in the
/// lookahead, the loop ends at the closing bracket.
proof fn lemma_arr_tail_atoms(s: Seq<char>, atoms: Seq<Seq<char>>, q: int, st: PState)
    requires
        atoms.len() >= 1,
        forall|k: int| 0 <= k < atoms.len() ==> is_atom(#[trigger] atoms[k]),
        suffix_matches(s, q, atoms),
        st.cur == atom_kind(atoms[0]),
        st.peek == (if atoms.len() == 1 {
            TokenKind::Clsqbracket
        } else {
            TokenKind::Comma
        }),
        st.pos == q + atoms[0].len() + 1,
    ensures
        spec_arr_tail(s, st) is Ok,
    decreases atoms.len(),
{
    let a = atoms[0];
    let l = a.len() as int;
    assert(is_scalar(st.cur) && !is_skippable(st.cur));
    if atoms.len() == 1 {
        lemma_scan_simple(s, q + l + 1, st.nl);
        match spec_pull(s, st) {
            Ok(st2) => {
                assert(st2.cur == TokenKind::Clsqbracket);
                assert(!is_skippable(st2.cur));
                assert(spec_value(s, st) == Ok::<PState, ParseErr>(st2));
            },
            Err(_) => {
                assert(false);
            },
        }
    } else {
        let rest = atoms.drop_first();
        let b = atoms[1];
        assert(rest[0] == b && is_atom(b));
        let q1 = q + l + 1;
        assert(suffix_matches(s, q1, rest));
        let lb = b.len() as int;
        // The character after the next atom is its separator.
        assert(s[q1 + lb] == ',' || s[q1 + lb] == ']');
        lemma_scan_atom(s, q1, st.nl, b);
        match spec_pull(s, st) {
            Ok(st2) => {
                assert(st2.cur == TokenKind::Comma);
                assert(st2.peek == atom_kind(b));
                assert(st2.pos == q1 + lb);
                assert(!is_skippable(st2.cur));
                assert(spec_value(s, st) == Ok::<PState, ParseErr>(st2));
                lemma_scan_simple(s, q1 + lb, st2.nl);
                match spec_pull(s, st2) {
                    Ok(st3) => {
                        assert(st3.cur == atom_kind(b));
                        assert(st3.peek == (if rest.len() == 1 {
                            TokenKind::Clsqbracket
                        } else {
                            TokenKind::Comma
                        }));
                        lemma_arr_tail_atoms(s, rest, q1, st3);
                    },
                    Err(_) => {
                        assert(false);
                    },
                }
            },
            Err(_) => {
                assert(false);
            },
        }
    }
}

/// The atom list laid out in the text matches `suffix_matches`.
proof fn lemma_joined_matches(s: Seq<char>, atoms: Seq<Seq<char>>, q: int)
    requires
        atoms.len() >= 1,
        0 <= q,
        q + joined(atoms).len() + 2 == s.len(),
        forall|j: int| 0 <= j < joined(atoms).len() ==> s[q + j] == #[trigger] joined(atoms)[j],
        s[q + joined(atoms).len()] == ']',
        s[q + joined(atoms).len() + 1] == '\n',
    ensures
        suffix_matches(s, q, atoms),
    decreases atoms.len(),
{
    let a = atoms[0];
    let l = a.len() as int;
    let jn = joined(atoms);
    if atoms.len() == 1 {
        assert(jn =~= a);
        assert forall|j: int| 0 <= j < a.len() implies s[q + j] == #[trigger] a[j] by {
            assert(s[q + j] == jn[j]);
        }
    } else {
        let rest = atoms.drop_first();
        assert(jn =~= a + seq![','] + joined(rest));
        assert forall|j: int| 0 <= j < a.len() implies s[q + j] == #[trigger] a[j] by {
            assert(s[q + j] == jn[j]);
            assert(jn[j] == a[j]);
        }
        assert forall|j: int| 0 <= j < joined(rest).len() implies s[q + l + 1 + j] == #[trigger] joined(
            rest,
        )[j] by {
            assert(s[q + l + 1 + j] == jn[l + 1 + j]);
            assert(jn[l + 1 + j] == joined(rest)[j]);
        }
        assert(s[q + l] == jn[l]);
        assert(jn[l] == ',');
        lemma_joined_matches(s, rest, q + l + 1);
    }
}

/// Every array of comma-joined scalar atoms — quoted strings without an
/// interior quote, digit-only integers, and the three reserved words — is
/// accepted.
pub proof fn lemma_array_of_atoms_accepted(atoms: Seq<Seq<char>>)
    requires
        atoms.len() >= 1,
        forall|k: int| 0 <= k < atoms.len() ==> is_atom(#[trigger] atoms[k]),
    ensures
        spec_validate(seq!['['] + joined(atoms) + seq![']']) is Ok,
{
    let t = seq!['['] + joined(atoms) + seq![']'];
    let s = t + seq!['\n'];
    let jn = joined(atoms);
    let a = atoms[0];
    let l = a.len() as int;
    assert(s[0] == '[');
    assert forall|j: int| 0 <= j < jn.len() implies s[1 + j] == #[trigger] jn[j] by {
        assert(t[1 + j] == jn[j]);
    }
    assert(s[1 + jn.len() as int] == ']');
    assert(s[1 + jn.len() as int + 1] == '\n');
    lemma_joined_matches(s, atoms, 1);
    if atoms.len() == 1 {
        assert(jn =~= a);
    } else {
        assert(jn =~= a + seq![','] + joined(atoms.drop_first()));
        assert(s[1 + l] == jn[l]);
    }
    assert(s[1 + l] == ',' || s[1 + l] == ']');
    lemma_scan_simple(s, 0, 0);
    lemma_scan_atom(s, 1, 0, a);
    let st0 = PState { cur: TokenKind::Empty, peek: TokenKind::Empty, pos: 0, nl: 0 };
    match spec_pull(s, st0) {
        Ok(st1) => {
            match spec_pull(s, st1) {
                Ok(stn) => {
                    assert(stn.cur == TokenKind::Opsqbracket);
                    assert(stn.peek == atom_kind(a));
                    assert(stn.pos == 1 + l);
                    lemma_scan_simple(s, 1 + l, stn.nl);
                    match spec_pull(s, stn) {
                        Ok(stb) => {
                            assert(stb.cur == atom_kind(a));
                            assert(stb.peek == (if atoms.len() == 1 {
                                TokenKind::Clsqbracket
                            } else {
                                TokenKind::Comma
                            }));
                            assert(!is_ws_any(stb.cur) && stb.cur != TokenKind::Clsqbracket);
                            lemma_arr_tail_atoms(s, atoms, 1, stb);
                            assert(spec_array(s, stn) is Ok);
                        },
                        Err(_) => {
                            assert(false);
                        },
                    }
                },
                Err(_) => {
                    assert(false);
                },
            }
        },
        Err(_) => {
            assert(false);
        },
    }
}

/// A trailing comma directly before the closing brace of an object is
/// rejected with the distinguished trailing-comma error, for every key and
/// every scalar atom value.
pub proof fn lemma_object_trailing_comma_rejected(k: Seq<char>, v: Seq<char>)
    requires
        forall|j: int| 0 <= j < k.len() ==> k[j] != '"',
        is_atom(v),
    ensures
        spec_validate(seq!['{', '"'] + k + seq!['"', ':'] + v + seq![',', '}']) == Err::<
            (),
            ParseErr,
        >(ParseErr::TrailingComma),
{
    let ka = seq!['"'] + k + seq!['"'];
    let kl = ka.len() as int;
    let vl = v.len() as int;
    let t = seq!['{', '"'] + k + seq!['"', ':'] + v + seq![',', '}'];
    let s = t + seq!['\n'];
    assert(is_string_atom(ka));
    assert(atom_kind(ka) == TokenKind::String);
    assert(s.len() == kl + vl + 5);
    assert(s[0] == '{');
    assert forall|j: int| 0 <= j < kl implies s[1 + j] == #[trigger] ka[j] by {
        if j == 0 {
            assert(s[1] == '"');
        } else if j < kl - 1 {
            assert(s[1 + j] == k[j - 1]);
        } else {
            assert(s[kl] == '"');
        }
    }
    assert(s[1 + kl] == ':');
    assert forall|j: int| 0 <= j < vl implies s[2 + kl + j] == #[trigger] v[j] by {
        assert(s[2 + kl + j] == t[2 + kl + j]);
    }
    assert(s[2 + kl + vl] == ',');
    assert(s[3 + kl + vl] == '}');
    assert(s[4 + kl + vl] == '\n');
    lemma_scan_simple(s, 0, 0);
    lemma_scan_atom(s, 1, 0, ka);
    let st0 = PState { cur: TokenKind::Empty, peek: TokenKind::Empty, pos: 0, nl: 0 };
    match spec_pull(s, st0) {
        Ok(sta) => {
            match spec_pull(s, sta) {
                Ok(stn) => {
                    assert(stn.cur == TokenKind::Opcurlybracket);
                    assert(stn.peek == TokenKind::String);
                    assert(stn.pos == 1 + kl);
                    lemma_scan_simple(s, 1 + kl, stn.nl);
                    match spec_pull(s, stn) {
                        Ok(st1) => {
                            assert(st1.cur == TokenKind::String);
                            assert(st1.peek == TokenKind::Colon);
                            assert(st1.pos == 2 + kl);
                            lemma_scan_atom(s, 2 + kl, st1.nl, v);
                            match spec_pull(s, st1) {
                                Ok(st2) => {
                                    assert(st2.cur == TokenKind::Colon);
                                    assert(st2.peek == atom_kind(v));
                                    assert(st2.pos == 2 + kl + vl);
                                    lemma_scan_simple(s, 2 + kl + vl, st2.nl);
                                    match spec_pull(s, st2) {
                                        Ok(st3) => {
                                            assert(st3.cur == atom_kind(v));
                                            assert(st3.peek == TokenKind::Comma);
                                            assert(st3.pos == 3 + kl + vl);
                                            assert(is_scalar(st3.cur) && !is_skippable(st3.cur));
                                            lemma_scan_simple(s, 3 + kl + vl, st3.nl);
                                            match spec_pull(s, st3) {
                                                Ok(st4) => {
                                                    assert(st4.cur == TokenKind::Comma);
                                                    assert(st4.peek
                                                        == TokenKind::Clcurlybracket);
                                                    assert(st4.pos == 4 + kl + vl);
                                                    assert(spec_value(s, st3) == Ok::<
                                                        PState,
                                                        ParseErr,
                                                    >(st4));
                                                    lemma_scan_simple(s, 4 + kl + vl, st4.nl);
                                                    match spec_pull(s, st4) {
                                                        Ok(st5) => {
                                                            assert(st5.cur
                                                                == TokenKind::Clcurlybracket);
                                                            assert(spec_obj_tail(s, st4)
                                                                == Err::<PState, ParseErr>(
                                                                ParseErr::TrailingComma,
                                                            ));
                                                        },
                                                        Err(_) => {
                                                            assert(false);
                                                        },
                                                    }
                                                },
                                                Err(_) => {
                                                    assert(false);
                                                },
                                            }
                                        },
                                        Err(_) => {
                                            assert(false);
                                        },
                                    }
                                },
                                Err(_) => {
                                    assert(false);
                                },
                            }
                        },
                        Err(_) => {
                            assert(false);
                        },
                    }
                },
                Err(_) => {
                    assert(false);
                },
            }
        },
        Err(_) => {
            assert(false);
        },
    }
}

} // verus!
