//! What scanning produces, stated as recursive functions over the source characters.
//!
//! The scanner walks a cursor over the characters. The cursor reports a line (from 1)
//! and a column (from 0). Stepping onto the next character adds one to the column;
//! stepping from the last character onto the end of the input leaves the column as
//! it was. Numbers and identifiers are read one character past their end and then
//! stepped back, which takes one off the column again. Consuming a newline starts a
//! new line at column 0. Each token is recorded with the line and column of the
//! cursor when it is complete: on its last character.

use vstd::prelude::*;

use crate::diagnostics::position_message;
use crate::tokens::{is_digit, keyword_tag, TokenType, ValueView};

verus! {

/// The scanner's position: the index of the character under the cursor (the length
/// of the input once it is exhausted), and the line and column reported there.
pub struct Cursor {
    pub pos: int,
    pub line: int,
    pub col: int,
}

/// A token as scanning produces it.
pub struct Lexed {
    pub tag: TokenType,
    pub text: Seq<char>,
    pub literal: ValueView,
}

/// One row of a token table, with the index of the token's last character (the
/// length of the input for `Eof`).
pub struct Entry {
    pub lex: Lexed,
    pub line: int,
    pub col: int,
    pub pos: int,
}

/// A lexical error: where, and what.
pub struct LexFault {
    pub line: int,
    pub col: int,
    pub message: Seq<char>,
}

impl LexFault {
    /// The diagnostic text of this error.
    pub open spec fn text(self) -> Seq<char> {
        position_message(self.line as nat, self.col as nat, self.message)
    }
}

/// The result of scanning for one token.
pub struct Scanned {
    pub lex: Lexed,
    pub cur: Cursor,
    pub errs: Seq<LexFault>,
}

pub open spec fn start() -> Cursor {
    Cursor { pos: 0, line: 1, col: 0 }
}

/// The character `i`, if there is one.
pub open spec fn char_at(s: Seq<char>, i: int) -> Option<char> {
    if 0 <= i < s.len() {
        Some(s[i])
    } else {
        None
    }
}

/// Moving the cursor one character on.
pub open spec fn step(s: Seq<char>, c: Cursor) -> Cursor {
    if c.pos + 1 < s.len() {
        Cursor { pos: c.pos + 1, line: c.line, col: c.col + 1 }
    } else if c.pos + 1 == s.len() {
        Cursor { pos: s.len() as int, line: c.line, col: c.col }
    } else {
        c
    }
}

/// Moving the cursor one character back.
pub open spec fn back(c: Cursor) -> Cursor {
    Cursor { pos: c.pos - 1, line: c.line, col: if c.col > 0 { c.col - 1 } else { 0 } }
}

/// Starting a new line.
pub open spec fn next_line(c: Cursor) -> Cursor {
    Cursor { pos: c.pos, line: c.line + 1, col: 0 }
}

/// The cursor invariant: in bounds, with a column and a line no larger than the
/// number of characters consumed allows.
pub open spec fn cursor_ok(s: Seq<char>, c: Cursor) -> bool {
    &&& 0 <= c.pos <= s.len()
    &&& 0 <= c.col <= c.pos
    &&& 1 <= c.line <= c.pos + 1
}

pub open spec fn is_alpha_char(c: char) -> bool {
    ('a' <= c && c <= 'z') || ('A' <= c && c <= 'Z') || c == '_'
}

/// The tag of a token that is always one character long.
pub open spec fn single_tag(c: char) -> Option<TokenType> {
    if c == '(' {
        Some(TokenType::LeftParen)
    } else if c == ')' {
        Some(TokenType::RightParen)
    } else if c == '{' {
        Some(TokenType::LeftBrace)
    } else if c == '}' {
        Some(TokenType::RightBrace)
    } else if c == ',' {
        Some(TokenType::Comma)
    } else if c == '.' {
        Some(TokenType::Dot)
    } else if c == '-' {
        Some(TokenType::Minus)
    } else if c == '+' {
        Some(TokenType::Plus)
    } else if c == ';' {
        Some(TokenType::Semicolon)
    } else if c == '*' {
        Some(TokenType::Star)
    } else {
        None
    }
}

/// For `!`, `=`, `<` and `>`: the tag alone, and the tag when followed by `=`.
pub open spec fn operator_tags(c: char) -> Option<(TokenType, TokenType)> {
    if c == '!' {
        Some((TokenType::Bang, TokenType::BangEqual))
    } else if c == '=' {
        Some((TokenType::Equal, TokenType::EqualEqual))
    } else if c == '<' {
        Some((TokenType::Less, TokenType::LessEqual))
    } else if c == '>' {
        Some((TokenType::Greater, TokenType::GreaterEqual))
    } else {
        None
    }
}

/// Reads the rest of a number. The cursor stands on the next candidate character;
/// `acc` holds what has been read. A `.` belongs to the number only when a digit
/// follows it.
pub open spec fn number_rest(s: Seq<char>, c: Cursor, acc: Seq<char>) -> (Seq<char>, Cursor)
    decreases s.len() - c.pos,
{
    if 0 <= c.pos < s.len() {
        let ch = s[c.pos];
        if is_digit(ch) {
            number_rest(s, step(s, c), acc.push(ch))
        } else if ch == '.' && c.pos + 1 < s.len() && is_digit(s[c.pos + 1]) {
            number_rest(s, step(s, c), acc.push(ch))
        } else {
            (acc, c)
        }
    } else {
        (acc, c)
    }
}

/// Reads the rest of an identifier: a run of letters and underscores.
pub open spec fn ident_rest(s: Seq<char>, c: Cursor, acc: Seq<char>) -> (Seq<char>, Cursor)
    decreases s.len() - c.pos,
{
    if 0 <= c.pos < s.len() && is_alpha_char(s[c.pos]) {
        ident_rest(s, step(s, c), acc.push(s[c.pos]))
    } else {
        (acc, c)
    }
}

/// Reads the body of a string up to its closing quote: `Some` of the body with the
/// cursor on the closing quote, or `None` with the cursor at the end of the input.
pub open spec fn string_rest(s: Seq<char>, c: Cursor, acc: Seq<char>) -> (
    Option<Seq<char>>,
    Cursor,
)
    decreases s.len() - c.pos,
{
    if 0 <= c.pos < s.len() {
        let ch = s[c.pos];
        if ch == '"' {
            (Some(acc), c)
        } else if ch == '\n' {
            string_rest(s, next_line(step(s, c)), acc.push(ch))
        } else {
            string_rest(s, step(s, c), acc.push(ch))
        }
    } else {
        (None, c)
    }
}

/// Skips a line comment; the cursor stands on one of its characters. Ends on the
/// first character of the next line, or at the end of the input.
pub open spec fn comment_end(s: Seq<char>, c: Cursor) -> Cursor
    decreases s.len() - c.pos,
{
    if 0 <= c.pos && c.pos + 1 < s.len() {
        if s[c.pos + 1] == '\n' {
            next_line(step(s, step(s, c)))
        } else {
            comment_end(s, step(s, c))
        }
    } else {
        step(s, c)
    }
}

pub open spec fn unterminated_message() -> Seq<char> {
    "unterminated string"@
}

pub open spec fn unexpected_message(ch: char) -> Seq<char> {
    "unexpected character: "@.push(ch)
}

pub open spec fn eof_lexed() -> Lexed {
    Lexed { tag: TokenType::Eof, text: Seq::empty(), literal: ValueView::Absent }
}

pub open spec fn plain(tag: TokenType, text: Seq<char>) -> Lexed {
    Lexed { tag, text, literal: ValueView::Absent }
}

/// Scans for the next token from the cursor, skipping blanks and comments, and
/// recording the lexical errors met on the way.
pub open spec fn next_token(s: Seq<char>, c: Cursor) -> Scanned
    decreases s.len() - c.pos,
{
    if 0 <= c.pos < s.len() {
        let ch = s[c.pos];
        if ch == '"' {
            let (body, c2) = string_rest(s, step(s, c), Seq::empty());
            match body {
                Some(t) => Scanned {
                    lex: Lexed { tag: TokenType::String, text: t, literal: ValueView::Str(t) },
                    cur: c2,
                    errs: Seq::empty(),
                },
                None => Scanned {
                    lex: eof_lexed(),
                    cur: c2,
                    errs: seq![
                        LexFault { line: c.line, col: c.col, message: unterminated_message() },
                    ],
                },
            }
        } else if single_tag(ch) is Some {
            Scanned { lex: plain(single_tag(ch)->0, seq![ch]), cur: c, errs: Seq::empty() }
        } else if is_digit(ch) {
            let (t, c2) = number_rest(s, c, Seq::empty());
            Scanned {
                lex: Lexed { tag: TokenType::Number, text: t, literal: ValueView::Num(t) },
                cur: back(c2),
                errs: Seq::empty(),
            }
        } else if operator_tags(ch) is Some {
            let (one, two) = operator_tags(ch)->0;
            if c.pos + 1 < s.len() && s[c.pos + 1] == '=' {
                Scanned { lex: plain(two, seq![ch, '=']), cur: step(s, c), errs: Seq::empty() }
            } else {
                Scanned { lex: plain(one, seq![ch]), cur: c, errs: Seq::empty() }
            }
        } else if ch == '/' {
            if c.pos + 1 < s.len() && s[c.pos + 1] == '/' {
                proof {
                    lemma_comment_end_advances(s, step(s, c));
                }
                next_token(s, comment_end(s, step(s, c)))
            } else {
                Scanned { lex: plain(TokenType::Slash, seq![ch]), cur: c, errs: Seq::empty() }
            }
        } else if ch == ' ' || ch == '\r' || ch == '\t' {
            next_token(s, step(s, c))
        } else if ch == '\n' {
            next_token(s, next_line(step(s, c)))
        } else if is_alpha_char(ch) {
            let (t, c2) = ident_rest(s, c, Seq::empty());
            let tag = match keyword_tag(t) {
                Some(k) => k,
                None => TokenType::Identifier,
            };
            Scanned { lex: plain(tag, t), cur: back(c2), errs: Seq::empty() }
        } else {
            let r = next_token(s, step(s, c));
            Scanned {
                lex: r.lex,
                cur: r.cur,
                errs: seq![LexFault { line: c.line, col: c.col, message: unexpected_message(ch) }]
                    + r.errs,
            }
        }
    } else {
        Scanned { lex: eof_lexed(), cur: c, errs: Seq::empty() }
    }
}

/// The token table, and the lexical errors, produced from the cursor on.
pub open spec fn scan_from(s: Seq<char>, c: Cursor) -> (Seq<Entry>, Seq<LexFault>)
    decreases s.len() - c.pos,
{
    let r = next_token(s, c);
    let e = Entry { lex: r.lex, line: r.cur.line, col: r.cur.col, pos: r.cur.pos };
    if r.lex.tag == TokenType::Eof || !(0 <= c.pos) {
        (seq![e], r.errs)
    } else {
        proof {
            lemma_next_token_progress(s, c);
        }
        let rest = scan_from(s, step(s, r.cur));
        (seq![e] + rest.0, r.errs + rest.1)
    }
}

/// The token table and the lexical errors of a whole source text.
pub open spec fn scan_table(s: Seq<char>) -> (Seq<Entry>, Seq<LexFault>) {
    scan_from(s, start())
}

pub proof fn lemma_comment_end_advances(s: Seq<char>, c: Cursor)
    requires
        0 <= c.pos < s.len(),
    ensures
        c.pos < comment_end(s, c).pos <= s.len(),
        comment_end(s, c).line >= c.line,
    decreases s.len() - c.pos,
{
    if c.pos + 1 < s.len() && s[c.pos + 1] != '\n' {
        lemma_comment_end_advances(s, step(s, c));
    }
}

pub proof fn lemma_number_rest(s: Seq<char>, c: Cursor, acc: Seq<char>)
    requires
        cursor_ok(s, c),
    ensures
        ({
            let (t, c2) = number_rest(s, c, acc);
            &&& cursor_ok(s, c2)
            &&& c.pos <= c2.pos
            &&& c2.line == c.line
            &&& (c.pos < s.len() && is_digit(s[c.pos]) ==> c.pos < c2.pos)
        }),
    decreases s.len() - c.pos,
{
    if 0 <= c.pos < s.len() {
        let ch = s[c.pos];
        if is_digit(ch) || (ch == '.' && c.pos + 1 < s.len() && is_digit(s[c.pos + 1])) {
            lemma_number_rest(s, step(s, c), acc.push(ch));
        }
    }
}

pub proof fn lemma_ident_rest(s: Seq<char>, c: Cursor, acc: Seq<char>)
    requires
        cursor_ok(s, c),
    ensures
        ({
            let (t, c2) = ident_rest(s, c, acc);
            &&& cursor_ok(s, c2)
            &&& c.pos <= c2.pos
            &&& c2.line == c.line
            &&& (c.pos < s.len() && is_alpha_char(s[c.pos]) ==> c.pos < c2.pos)
        }),
    decreases s.len() - c.pos,
{
    if 0 <= c.pos < s.len() && is_alpha_char(s[c.pos]) {
        lemma_ident_rest(s, step(s, c), acc.push(s[c.pos]));
    }
}

pub proof fn lemma_string_rest(s: Seq<char>, c: Cursor, acc: Seq<char>)
    requires
        cursor_ok(s, c),
    ensures
        ({
            let (body, c2) = string_rest(s, c, acc);
            &&& cursor_ok(s, c2)
            &&& c.pos <= c2.pos
            &&& c.line <= c2.line
            &&& (body is Some ==> c2.pos < s.len())
            &&& (body is None ==> c2.pos == s.len())
        }),
    decreases s.len() - c.pos,
{
    if 0 <= c.pos < s.len() {
        let ch = s[c.pos];
        if ch == '\n' {
            lemma_string_rest(s, next_line(step(s, c)), acc.push(ch));
        } else if ch != '"' {
            lemma_string_rest(s, step(s, c), acc.push(ch));
        }
    }
}

pub proof fn lemma_comment_end(s: Seq<char>, c: Cursor)
    requires
        cursor_ok(s, c),
        c.pos < s.len(),
    ensures
        cursor_ok(s, comment_end(s, c)),
        c.pos < comment_end(s, c).pos,
        c.line <= comment_end(s, c).line,
    decreases s.len() - c.pos,
{
    if c.pos + 1 < s.len() && s[c.pos + 1] != '\n' {
        lemma_comment_end(s, step(s, c));
    }
}

/// Scanning for a token keeps the cursor invariant, never moves back, never lowers
/// the line, and ends inside the input unless it found the end.
pub proof fn lemma_next_token(s: Seq<char>, c: Cursor)
    requires
        cursor_ok(s, c),
    ensures
        cursor_ok(s, next_token(s, c).cur),
        c.pos <= next_token(s, c).cur.pos,
        c.line <= next_token(s, c).cur.line,
        next_token(s, c).lex.tag != TokenType::Eof ==> next_token(s, c).cur.pos < s.len(),
        next_token(s, c).lex.tag == TokenType::Eof ==> next_token(s, c).cur.pos == s.len(),
    decreases s.len() - c.pos,
{
    if 0 <= c.pos < s.len() {
        let ch = s[c.pos];
        if ch == '"' {
            lemma_string_rest(s, step(s, c), Seq::empty());
        } else if single_tag(ch) is Some {
        } else if is_digit(ch) {
            lemma_number_rest(s, c, Seq::empty());
        } else if operator_tags(ch) is Some {
        } else if ch == '/' {
            if c.pos + 1 < s.len() && s[c.pos + 1] == '/' {
                lemma_comment_end(s, step(s, c));
                lemma_next_token(s, comment_end(s, step(s, c)));
            }
        } else if ch == ' ' || ch == '\r' || ch == '\t' {
            lemma_next_token(s, step(s, c));
        } else if ch == '\n' {
            lemma_next_token(s, next_line(step(s, c)));
        } else if is_alpha_char(ch) {
            lemma_ident_rest(s, c, Seq::empty());
        } else {
            lemma_next_token(s, step(s, c));
        }
    }
}

/// The progress that makes `scan_from` terminate.
pub proof fn lemma_next_token_progress(s: Seq<char>, c: Cursor)
    requires
        0 <= c.pos,
        next_token(s, c).lex.tag != TokenType::Eof,
    ensures
        c.pos < s.len(),
        next_token(s, c).cur.pos < s.len(),
        c.pos < step(s, next_token(s, c).cur).pos,
    decreases s.len() - c.pos,
{
    if 0 <= c.pos < s.len() {
        let ch = s[c.pos];
        if ch == '"' {
            lemma_string_rest_pos(s, step(s, c), Seq::empty());
        } else if single_tag(ch) is Some {
        } else if is_digit(ch) {
            lemma_number_rest_pos(s, c, Seq::empty());
        } else if operator_tags(ch) is Some {
        } else if ch == '/' {
            if c.pos + 1 < s.len() && s[c.pos + 1] == '/' {
                lemma_comment_end_advances(s, step(s, c));
                lemma_next_token_progress(s, comment_end(s, step(s, c)));
            }
        } else if ch == ' ' || ch == '\r' || ch == '\t' {
            lemma_next_token_progress(s, step(s, c));
        } else if ch == '\n' {
            lemma_next_token_progress(s, next_line(step(s, c)));
        } else if is_alpha_char(ch) {
            lemma_ident_rest_pos(s, c, Seq::empty());
        } else {
            lemma_next_token_progress(s, step(s, c));
        }
    }
}

proof fn lemma_number_rest_pos(s: Seq<char>, c: Cursor, acc: Seq<char>)
    requires
        0 <= c.pos <= s.len(),
    ensures
        c.pos <= number_rest(s, c, acc).1.pos <= s.len(),
        c.pos < s.len() && is_digit(s[c.pos]) ==> c.pos < number_rest(s, c, acc).1.pos,
    decreases s.len() - c.pos,
{
    if 0 <= c.pos < s.len() {
        let ch = s[c.pos];
        if is_digit(ch) || (ch == '.' && c.pos + 1 < s.len() && is_digit(s[c.pos + 1])) {
            lemma_number_rest_pos(s, step(s, c), acc.push(ch));
        }
    }
}

proof fn lemma_ident_rest_pos(s: Seq<char>, c: Cursor, acc: Seq<char>)
    requires
        0 <= c.pos <= s.len(),
    ensures
        c.pos <= ident_rest(s, c, acc).1.pos <= s.len(),
        c.pos < s.len() && is_alpha_char(s[c.pos]) ==> c.pos < ident_rest(s, c, acc).1.pos,
    decreases s.len() - c.pos,
{
    if 0 <= c.pos < s.len() && is_alpha_char(s[c.pos]) {
        lemma_ident_rest_pos(s, step(s, c), acc.push(s[c.pos]));
    }
}

proof fn lemma_string_rest_pos(s: Seq<char>, c: Cursor, acc: Seq<char>)
    requires
        0 <= c.pos,
    ensures
        c.pos <= string_rest(s, c, acc).1.pos,
        string_rest(s, c, acc).0 is Some ==> string_rest(s, c, acc).1.pos < s.len(),
    decreases s.len() - c.pos,
{
    if 0 <= c.pos < s.len() {
        let ch = s[c.pos];
        if ch == '\n' {
            lemma_string_rest_pos(s, next_line(step(s, c)), acc.push(ch));
        } else if ch != '"' {
            lemma_string_rest_pos(s, step(s, c), acc.push(ch));
        }
    }
}

proof fn lemma_scan_from_eof(s: Seq<char>, c: Cursor)
    requires
        0 <= c.pos,
    ensures
        scan_from(s, c).0.len() >= 1,
        scan_from(s, c).0.last().lex.tag == TokenType::Eof,
        forall|i: int|
            0 <= i < scan_from(s, c).0.len() - 1 ==> (#[trigger] scan_from(s, c).0[i]).lex.tag
                != TokenType::Eof,
    decreases s.len() - c.pos,
{
    let r = next_token(s, c);
    if r.lex.tag != TokenType::Eof {
        lemma_next_token_progress(s, c);
        let c2 = step(s, r.cur);
        lemma_scan_from_eof(s, c2);
        let e = Entry { lex: r.lex, line: r.cur.line, col: r.cur.col, pos: r.cur.pos };
        let rest = scan_from(s, c2).0;
        assert(scan_from(s, c).0 == seq![e] + rest);
        assert forall|i: int| 0 <= i < scan_from(s, c).0.len() - 1 implies (#[trigger] scan_from(
            s,
            c,
        ).0[i]).lex.tag != TokenType::Eof by {
            if i > 0 {
                assert(scan_from(s, c).0[i] == rest[i - 1]);
            }
        }
    }
}

proof fn lemma_scan_from_lines(s: Seq<char>, c: Cursor)
    requires
        cursor_ok(s, c),
    ensures
        forall|i: int|
            0 <= i < scan_from(s, c).0.len() ==> c.line <= (#[trigger] scan_from(s, c).0[i]).line,
        forall|i: int, j: int|
            0 <= i <= j < scan_from(s, c).0.len() ==> (#[trigger] scan_from(s, c).0[i]).line
                <= (#[trigger] scan_from(s, c).0[j]).line,
    decreases s.len() - c.pos,
{
    let r = next_token(s, c);
    lemma_next_token(s, c);
    if r.lex.tag != TokenType::Eof {
        lemma_next_token_progress(s, c);
        let c2 = step(s, r.cur);
        lemma_scan_from_lines(s, c2);
        let e = Entry { lex: r.lex, line: r.cur.line, col: r.cur.col, pos: r.cur.pos };
        let rest = scan_from(s, c2).0;
        let all = scan_from(s, c).0;
        assert(all == seq![e] + rest);
        assert forall|i: int| 0 <= i < all.len() implies c.line <= (#[trigger] all[i]).line by {
            if i > 0 {
                assert(all[i] == rest[i - 1]);
            }
        }
        assert forall|i: int, j: int| 0 <= i <= j < all.len() implies (#[trigger] all[i]).line
            <= (#[trigger] all[j]).line by {
            if j > 0 {
                assert(all[j] == rest[j - 1]);
                if i > 0 {
                    assert(all[i] == rest[i - 1]);
                }
            }
        }
    }
}

/// Scanning any text gives a table whose last token is `Eof`, and no other token is.
pub proof fn law_single_trailing_eof(s: Seq<char>)
    ensures
        scan_table(s).0.len() >= 1,
        scan_table(s).0.last().lex.tag == TokenType::Eof,
        forall|i: int|
            0 <= i < scan_table(s).0.len() - 1 ==> (#[trigger] scan_table(s).0[i]).lex.tag
                != TokenType::Eof,
{
    lemma_scan_from_eof(s, start());
}

/// Line numbers never decrease along a token table.
pub proof fn law_lines_non_decreasing(s: Seq<char>)
    ensures
        forall|i: int, j: int|
            0 <= i <= j < scan_table(s).0.len() ==> (#[trigger] scan_table(s).0[i]).line
                <= (#[trigger] scan_table(s).0[j]).line,
{
    lemma_scan_from_lines(s, start());
}

/// The number of newlines before index `p`.
pub open spec fn newlines_before(s: Seq<char>, p: int) -> int
    decreases p,
{
    if p <= 0 {
        0
    } else {
        newlines_before(s, p - 1) + if s[p - 1] == '\n' {
            1int
        } else {
            0int
        }
    }
}

/// The index at which the line holding index `p` starts.
pub open spec fn line_start(s: Seq<char>, p: int) -> int
    decreases p,
{
    if p <= 0 {
        0
    } else if s[p - 1] == '\n' {
        p
    } else {
        line_start(s, p - 1)
    }
}

/// The cursor's line is the line of the character under it.
pub open spec fn placed_line(s: Seq<char>, c: Cursor) -> bool {
    c.line == 1 + newlines_before(s, c.pos)
}

/// The cursor's line and column are those of the character under it (the column
/// only while it stands inside the input).
pub open spec fn placed(s: Seq<char>, c: Cursor) -> bool {
    &&& placed_line(s, c)
    &&& (c.pos < s.len() ==> c.col == c.pos - line_start(s, c.pos))
}

/// Tokens that are read one character too far and stepped back.
pub open spec fn read_ahead(tag: TokenType) -> bool {
    tag == TokenType::Number || tag == TokenType::Identifier || tag.spec_is_keyword()
}

proof fn lemma_line_start_bounds(s: Seq<char>, p: int)
    requires
        0 <= p,
    ensures
        0 <= line_start(s, p) <= p,
    decreases p,
{
    if p > 0 && s[p - 1] != '\n' {
        lemma_line_start_bounds(s, p - 1);
    }
}

proof fn lemma_step_placed(s: Seq<char>, c: Cursor)
    requires
        0 <= c.pos < s.len(),
        placed(s, c),
        s[c.pos] != '\n',
    ensures
        placed(s, step(s, c)),
{
    assert(newlines_before(s, c.pos + 1) == newlines_before(s, c.pos));
    assert(line_start(s, c.pos + 1) == line_start(s, c.pos));
}

proof fn lemma_newline_placed(s: Seq<char>, c: Cursor)
    requires
        0 <= c.pos < s.len(),
        placed(s, c),
        s[c.pos] == '\n',
    ensures
        placed(s, next_line(step(s, c))),
{
    assert(newlines_before(s, c.pos + 1) == newlines_before(s, c.pos) + 1);
    assert(line_start(s, c.pos + 1) == c.pos + 1);
}

proof fn lemma_back_placed(s: Seq<char>, c: Cursor)
    requires
        0 < c.pos <= s.len(),
        placed(s, c),
        s[c.pos - 1] != '\n',
    ensures
        placed_line(s, back(c)),
        c.pos < s.len() ==> placed(s, back(c)),
{
    assert(newlines_before(s, c.pos) == newlines_before(s, c.pos - 1));
    if c.pos < s.len() {
        assert(line_start(s, c.pos) == line_start(s, c.pos - 1));
        lemma_line_start_bounds(s, c.pos - 1);
    }
}

proof fn lemma_number_rest_placed(s: Seq<char>, c: Cursor, acc: Seq<char>)
    requires
        0 <= c.pos <= s.len(),
        placed(s, c),
    ensures
        placed(s, number_rest(s, c, acc).1),
        c.pos < number_rest(s, c, acc).1.pos ==> s[number_rest(s, c, acc).1.pos - 1] != '\n',
    decreases s.len() - c.pos,
{
    if 0 <= c.pos < s.len() {
        let ch = s[c.pos];
        if is_digit(ch) || (ch == '.' && c.pos + 1 < s.len() && is_digit(s[c.pos + 1])) {
            lemma_step_placed(s, c);
            lemma_number_rest_placed(s, step(s, c), acc.push(ch));
            lemma_number_rest_pos(s, step(s, c), acc.push(ch));
        }
    }
}

proof fn lemma_ident_rest_placed(s: Seq<char>, c: Cursor, acc: Seq<char>)
    requires
        0 <= c.pos <= s.len(),
        placed(s, c),
    ensures
        placed(s, ident_rest(s, c, acc).1),
        c.pos < ident_rest(s, c, acc).1.pos ==> s[ident_rest(s, c, acc).1.pos - 1] != '\n',
    decreases s.len() - c.pos,
{
    if 0 <= c.pos < s.len() && is_alpha_char(s[c.pos]) {
        lemma_step_placed(s, c);
        lemma_ident_rest_placed(s, step(s, c), acc.push(s[c.pos]));
        lemma_ident_rest_pos(s, step(s, c), acc.push(s[c.pos]));
    }
}

proof fn lemma_string_rest_placed(s: Seq<char>, c: Cursor, acc: Seq<char>)
    requires
        0 <= c.pos <= s.len(),
        placed(s, c),
    ensures
        placed(s, string_rest(s, c, acc).1),
        string_rest(s, c, acc).0 is Some ==> string_rest(s, c, acc).1.pos < s.len() && s[string_rest(
            s,
            c,
            acc,
        ).1.pos] == '"',
    decreases s.len() - c.pos,
{
    if 0 <= c.pos < s.len() {
        let ch = s[c.pos];
        if ch == '\n' {
            lemma_newline_placed(s, c);
            lemma_string_rest_placed(s, next_line(step(s, c)), acc.push(ch));
        } else if ch != '"' {
            lemma_step_placed(s, c);
            lemma_string_rest_placed(s, step(s, c), acc.push(ch));
        }
    }
}

proof fn lemma_comment_end_placed(s: Seq<char>, c: Cursor)
    requires
        0 <= c.pos < s.len(),
        placed(s, c),
        s[c.pos] != '\n',
    ensures
        placed(s, comment_end(s, c)),
    decreases s.len() - c.pos,
{
    lemma_step_placed(s, c);
    if c.pos + 1 < s.len() {
        if s[c.pos + 1] == '\n' {
            lemma_newline_placed(s, step(s, c));
        } else {
            lemma_comment_end_placed(s, step(s, c));
        }
    }
}

/// Where scanning for a token leaves the cursor: on the line of the character under
/// it, at its column unless the token was read ahead up to the end of the input, and
/// never on a newline when it found a token.
proof fn lemma_next_token_placed(s: Seq<char>, c: Cursor)
    requires
        cursor_ok(s, c),
        placed(s, c),
    ensures
        placed_line(s, next_token(s, c).cur),
        next_token(s, c).cur.pos < s.len() && !(read_ahead(next_token(s, c).lex.tag) && next_token(
            s,
            c,
        ).cur.pos == s.len() - 1) ==> placed(s, next_token(s, c).cur),
        next_token(s, c).lex.tag != TokenType::Eof ==> s[next_token(s, c).cur.pos] != '\n',
    decreases s.len() - c.pos,
{
    lemma_next_token(s, c);
    if 0 <= c.pos < s.len() {
        let ch = s[c.pos];
        if ch == '"' {
            lemma_step_placed(s, c);
            lemma_string_rest_placed(s, step(s, c), Seq::empty());
        } else if single_tag(ch) is Some {
        } else if is_digit(ch) {
            lemma_number_rest_placed(s, c, Seq::empty());
            lemma_number_rest_pos(s, c, Seq::empty());
            lemma_back_placed(s, number_rest(s, c, Seq::empty()).1);
        } else if operator_tags(ch) is Some {
            if c.pos + 1 < s.len() && s[c.pos + 1] == '=' {
                lemma_step_placed(s, c);
            }
        } else if ch == '/' {
            if c.pos + 1 < s.len() && s[c.pos + 1] == '/' {
                lemma_step_placed(s, c);
                lemma_comment_end_placed(s, step(s, c));
                lemma_comment_end(s, step(s, c));
                lemma_next_token_placed(s, comment_end(s, step(s, c)));
            }
        } else if ch == ' ' || ch == '\r' || ch == '\t' {
            lemma_step_placed(s, c);
            lemma_next_token_placed(s, step(s, c));
        } else if ch == '\n' {
            lemma_newline_placed(s, c);
            lemma_next_token_placed(s, next_line(step(s, c)));
        } else if is_alpha_char(ch) {
            lemma_ident_rest_placed(s, c, Seq::empty());
            lemma_ident_rest_pos(s, c, Seq::empty());
            lemma_back_placed(s, ident_rest(s, c, Seq::empty()).1);
        } else {
            lemma_step_placed(s, c);
            lemma_next_token_placed(s, step(s, c));
        }
    }
}

/// A row's line and column are those of its last character, but for the column of
/// a token read ahead up to the end of the input.
pub open spec fn row_placed(s: Seq<char>, e: Entry) -> bool {
    &&& e.line == 1 + newlines_before(s, e.pos)
    &&& (e.pos < s.len() && !(read_ahead(e.lex.tag) && e.pos == s.len() - 1) ==> e.col == e.pos
        - line_start(s, e.pos))
}

proof fn lemma_scan_from_placed(s: Seq<char>, c: Cursor)
    requires
        cursor_ok(s, c),
        placed(s, c),
    ensures
        forall|i: int|
            0 <= i < scan_from(s, c).0.len() ==> row_placed(s, #[trigger] scan_from(s, c).0[i]),
    decreases s.len() - c.pos,
{
    let r = next_token(s, c);
    lemma_next_token(s, c);
    lemma_next_token_placed(s, c);
    if r.lex.tag != TokenType::Eof {
        lemma_next_token_progress(s, c);
        let c2 = step(s, r.cur);
        if r.cur.pos < s.len() - 1 || !read_ahead(r.lex.tag) {
            lemma_step_placed(s, r.cur);
        } else {
            assert(newlines_before(s, r.cur.pos + 1) == newlines_before(s, r.cur.pos));
        }
        lemma_scan_from_placed(s, c2);
        let e = Entry { lex: r.lex, line: r.cur.line, col: r.cur.col, pos: r.cur.pos };
        let rest = scan_from(s, c2).0;
        let all = scan_from(s, c).0;
        assert(all == seq![e] + rest);
        assert forall|i: int| 0 <= i < all.len() implies row_placed(s, #[trigger] all[i]) by {
            if i > 0 {
                assert(all[i] == rest[i - 1]);
            }
        }
    }
}

/// Each row of a token table stands on the line of its token's last character,
/// counted from 1 by the newlines before it, and at that character's column, counted
/// from 0 at the start of its line. The one exception is the column of a number or
/// identifier that ends the input, which is recorded one less (never below 0).
pub proof fn law_rows_placed(s: Seq<char>)
    ensures
        forall|i: int|
            0 <= i < scan_table(s).0.len() ==> row_placed(s, #[trigger] scan_table(s).0[i]),
{
    lemma_scan_from_placed(s, start());
}

/// The column restarts at 0 after a newline: a token whose last character is the
/// first character of a line (a one-character token right after a newline) is
/// recorded at column 0.
pub proof fn law_column_restarts_after_newline(s: Seq<char>)
    ensures
        forall|i: int|
            #![trigger scan_table(s).0[i]]
            0 <= i < scan_table(s).0.len() && 0 < scan_table(s).0[i].pos < s.len() - 1 && s[scan_table(
                s,
            ).0[i].pos - 1] == '\n' ==> scan_table(s).0[i].col == 0 && scan_table(s).0[i].line
                == 1 + newlines_before(s, scan_table(s).0[i].pos),
{
    law_rows_placed(s);
    assert forall|i: int|
        #![trigger scan_table(s).0[i]]
        0 <= i < scan_table(s).0.len() && 0 < scan_table(s).0[i].pos < s.len() - 1 && s[scan_table(
            s,
        ).0[i].pos - 1] == '\n' implies scan_table(s).0[i].col == 0 by {
        assert(row_placed(s, scan_table(s).0[i]));
        assert(line_start(s, scan_table(s).0[i].pos) == scan_table(s).0[i].pos);
    }
}

} // verus!
