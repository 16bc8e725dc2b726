//! The scanner: source text to a token table with parallel position arrays and a
//! list of lexical errors.

use vstd::prelude::*;

use crate::diagnostics::err_msg_at;
use crate::scan_spec::{
    back, char_at, comment_end, cursor_ok, ident_rest, is_alpha_char, lemma_comment_end_advances, lemma_ident_rest,
    lemma_next_token_progress, lemma_number_rest, lemma_string_rest, next_token, number_rest,
    operator_tags, scan_from, scan_table, single_tag, start, step, string_rest, unexpected_message,
    unterminated_message, Cursor, Entry, LexFault,
};
use crate::text::{chars_of, push_char, push_text};
use crate::tokens::{is_digit, keyword_tag, keyword_tag_of, Token, TokenType, Value, ValueView};

verus! {

/// A lexical error with the line and column where it was found.
#[derive(Debug, Clone, PartialEq)]
pub struct LexError {
    pub line: usize,
    pub column: usize,
    pub message: String,
}

impl LexError {
    pub open spec fn fault(&self) -> LexFault {
        LexFault { line: self.line as int, col: self.column as int, message: self.message@ }
    }

    /// The diagnostic `[line: L column: C] Error: M`.
    pub fn to_message(&self) -> (r: String)
        ensures
            r@ == self.fault().text(),
    {
        err_msg_at(self.line, self.column, self.message.as_str())
    }
}

/// Parallel token, tag, line and column sequences whose rows are `entries`.
pub open spec fn rows_hold(
    tokens: Seq<Token>,
    tags: Seq<TokenType>,
    line_nrs: Seq<usize>,
    end_cols: Seq<usize>,
    entries: Seq<Entry>,
) -> bool {
    &&& tokens.len() == entries.len()
    &&& tags.len() == entries.len()
    &&& line_nrs.len() == entries.len()
    &&& end_cols.len() == entries.len()
    &&& forall|i: int|
        0 <= i < entries.len() ==> {
            &&& #[trigger] tags[i] == entries[i].lex.tag
            &&& tokens[i].lexeme@ == entries[i].lex.text
            &&& tokens[i].literal@ == entries[i].lex.literal
            &&& line_nrs[i] == entries[i].line
            &&& end_cols[i] == entries[i].col
        }
}

pub open spec fn faults_of(v: Seq<LexError>) -> Seq<LexFault> {
    Seq::new(v.len(), |i: int| v[i].fault())
}

#[derive(Debug)]
/// The result of a scan: the tokens, their tags, the line and the column of each, and
/// the lexical errors.
pub struct TokenInfo {
    pub tokens: Vec<Token>,
    pub tags: Vec<TokenType>,
    pub line_nrs: Vec<usize>,
    pub end_cols: Vec<usize>,
    pub errors: Vec<LexError>,
}

impl TokenInfo {
    /// The rows of this table are `entries`.
    pub open spec fn holds(&self, entries: Seq<Entry>) -> bool {
        rows_hold(self.tokens@, self.tags@, self.line_nrs@, self.end_cols@, entries)
    }

    /// This is the table of `s`, with its errors.
    pub open spec fn is_scan_of(&self, s: Seq<char>) -> bool {
        &&& self.holds(scan_table(s).0)
        &&& faults_of(self.errors@) == scan_table(s).1
    }
}

struct ScannerCtx {
    curr_line: usize,
    curr_col: usize,
    errors: Vec<LexError>,
    cursor: usize,
}

impl ScannerCtx {
    fn new() -> (r: ScannerCtx)
        ensures
            r.curr_line == 1,
            r.curr_col == 0,
            r.cursor == 0,
            r.errors@.len() == 0,
    {
        ScannerCtx { curr_line: 1, curr_col: 0, cursor: 0, errors: Vec::new() }
    }

    fn newline(&mut self)
        requires
            old(self).curr_line < usize::MAX,
        ensures
            final(self).curr_line == old(self).curr_line + 1,
            final(self).curr_col == 0,
            final(self).cursor == old(self).cursor,
            final(self).errors == old(self).errors,
    {
        self.curr_line = self.curr_line + 1;
        self.curr_col = 0;
    }

    fn advance(&mut self)
        requires
            old(self).cursor < usize::MAX,
            old(self).curr_col < usize::MAX,
        ensures
            final(self).cursor == old(self).cursor + 1,
            final(self).curr_col == old(self).curr_col + 1,
            final(self).curr_line == old(self).curr_line,
            final(self).errors == old(self).errors,
    {
        self.cursor = self.cursor + 1;
        self.curr_col = self.curr_col + 1;
    }
}

/// Scans one source text.
pub struct Scanner {
    code: Vec<char>,
    ctx: ScannerCtx,
}

/// The one-character token `c`.
fn char_token(c: char) -> (r: Token)
    ensures
        r.lexeme@ == seq![c],
        r.literal@ == ValueView::Absent,
{
    let mut lexeme = String::new();
    push_char(&mut lexeme, c);
    proof {
        assert(Seq::<char>::empty().push(c) =~= seq![c]);
    }
    Token { lexeme, literal: Value::Absent }
}

fn single_tag_of(c: char) -> (r: Option<TokenType>)
    ensures
        r == single_tag(c),
{
    if c == '(' {
        Some(TokenType::LeftParen)
    } else if c == ')' {
        Some(TokenType::RightParen)
    } else if c == '{' {
        Some(TokenType::LeftBrace)
    } else if c == '}' {
        Some(TokenType::RightBrace)
    } else if c == ',' {
        Some(TokenType::Comma)
    } else if c == '.' {
        Some(TokenType::Dot)
    } else if c == '-' {
        Some(TokenType::Minus)
    } else if c == '+' {
        Some(TokenType::Plus)
    } else if c == ';' {
        Some(TokenType::Semicolon)
    } else if c == '*' {
        Some(TokenType::Star)
    } else {
        None
    }
}

fn operator_tags_of(c: char) -> (r: Option<(TokenType, TokenType)>)
    ensures
        r == operator_tags(c),
{
    if c == '!' {
        Some((TokenType::Bang, TokenType::BangEqual))
    } else if c == '=' {
        Some((TokenType::Equal, TokenType::EqualEqual))
    } else if c == '<' {
        Some((TokenType::Less, TokenType::LessEqual))
    } else if c == '>' {
        Some((TokenType::Greater, TokenType::GreaterEqual))
    } else {
        None
    }
}

fn digit_char(c: char) -> (r: bool)
    ensures
        r == is_digit(c),
{
    '0' <= c && c <= '9'
}

impl Scanner {
    /// The characters being scanned.
    pub closed spec fn source(&self) -> Seq<char> {
        self.code@
    }

    /// Where the scanner stands.
    pub closed spec fn cursor(&self) -> Cursor {
        Cursor {
            pos: self.ctx.cursor as int,
            line: self.ctx.curr_line as int,
            col: self.ctx.curr_col as int,
        }
    }

    /// The lexical errors recorded so far.
    pub closed spec fn faults(&self) -> Seq<LexFault> {
        faults_of(self.ctx.errors@)
    }

    pub closed spec fn wf(&self) -> bool {
        &&& self.code@.len() < usize::MAX
        &&& cursor_ok(self.code@, self.cursor())
    }

    /// A scanner at the start of `code`.
    pub fn new(code: &str) -> (r: Scanner)
        requires
            code@.len() < usize::MAX,
        ensures
            r.wf(),
            r.source() == code@,
            r.cursor() == start(),
            r.faults().len() == 0,
    {
        Scanner { code: chars_of(code), ctx: ScannerCtx::new() }
    }

    /// Whether the whole input has been consumed.
    pub fn is_finished(&self) -> (r: bool)
        ensures
            r == (self.cursor().pos == self.source().len()),
    {
        self.ctx.cursor == self.code.len()
    }

    /// The line the scanner stands on.
    pub fn curr_line(&self) -> (r: usize)
        ensures
            r == self.cursor().line,
    {
        self.ctx.curr_line
    }

    /// The column the scanner stands on.
    pub fn curr_col(&self) -> (r: usize)
        ensures
            r == self.cursor().col,
    {
        self.ctx.curr_col
    }

    /// Whether a lexical error has been recorded.
    pub fn has_errors(&self) -> (r: bool)
        ensures
            r == (self.faults().len() > 0),
    {
        self.ctx.errors.len() > 0
    }

    /// The lexical errors recorded so far.
    pub fn errors(&self) -> (r: &[LexError])
        ensures
            faults_of(r@) == self.faults(),
    {
        self.ctx.errors.as_slice()
    }

    /// Steps onto the next character and returns it, if there is one.
    fn advance(&mut self) -> (r: Option<char>)
        requires
            old(self).wf(),
        ensures
            final(self).wf(),
            final(self).source() == old(self).source(),
            final(self).faults() == old(self).faults(),
            final(self).cursor() == step(old(self).source(), old(self).cursor()),
            r == char_at(old(self).source(), old(self).cursor().pos + 1),
    {
        let next = self.peek(1);
        if next.is_none() {
            if self.ctx.cursor + 1 == self.code.len() {
                self.ctx.cursor = self.ctx.cursor + 1;
            }
            return next;
        }
        self.ctx.advance();
        next
    }

    /// Steps back onto the previous character.
    fn rewind(&mut self)
        requires
            old(self).wf(),
            1 <= old(self).cursor().pos,
            old(self).cursor().line <= old(self).cursor().pos,
        ensures
            final(self).wf(),
            final(self).source() == old(self).source(),
            final(self).faults() == old(self).faults(),
            final(self).cursor() == back(old(self).cursor()),
    {
        self.ctx.cursor = self.ctx.cursor - 1;
        if self.ctx.curr_col > 0 {
            self.ctx.curr_col = self.ctx.curr_col - 1;
        }
    }

    /// The character `n` places after the cursor, if there is one.
    fn peek(&self, n: usize) -> (r: Option<char>)
        requires
            self.wf(),
            n <= 1,
        ensures
            r == char_at(self.source(), self.cursor().pos + n),
    {
        if self.ctx.cursor + n < self.code.len() {
            Some(self.code[self.ctx.cursor + n])
        } else {
            None
        }
    }

    /// Records a lexical error.
    fn error(&mut self, line: usize, column: usize, message: String)
        ensures
            final(self).source() == old(self).source(),
            final(self).cursor() == old(self).cursor(),
            final(self).wf() == old(self).wf(),
            final(self).faults() == old(self).faults().push(
                LexFault { line: line as int, col: column as int, message: message@ },
            ),
    {
        self.ctx.errors.push(LexError { line, column, message });
        proof {
            assert(faults_of(self.ctx.errors@) =~= faults_of(old(self).ctx.errors@).push(
                LexFault { line: line as int, col: column as int, message: message@ },
            ));
        }
    }

    fn is_alpha(c: char) -> (r: bool)
        ensures
            r == is_alpha_char(c),
    {
        ('a' <= c && c <= 'z') || ('A' <= c && c <= 'Z') || c == '_'
    }

    /// Reads a string; the cursor stands on its opening quote.
    fn string_started(&mut self) -> (r: Option<(TokenType, Token)>)
        requires
            old(self).wf(),
            old(self).cursor().pos < old(self).source().len(),
            old(self).source()[old(self).cursor().pos] == '"',
        ensures
            final(self).wf(),
            final(self).source() == old(self).source(),
            ({
                let c = old(self).cursor();
                let (body, c2) = string_rest(old(self).source(), step(old(self).source(), c), seq![]);
                &&& final(self).cursor() == c2
                &&& match body {
                    Some(t) => {
                        &&& final(self).faults() == old(self).faults()
                        &&& r matches Some((tag, tok)) && tag == TokenType::String
                            && tok.lexeme@ == t && tok.literal@ == ValueView::Str(t)
                    },
                    None => {
                        &&& final(self).faults() == old(self).faults().push(
                            LexFault { line: c.line, col: c.col, message: unterminated_message() },
                        )
                        &&& r is None
                    },
                }
            }),
    {
        let ghost s = self.code@;
        let ghost c0 = self.cursor();
        let start_line = self.ctx.curr_line;
        let start_col = self.ctx.curr_col;
        let mut builder = String::new();
        self.advance();
        while self.ctx.cursor < self.code.len()
            invariant
                self.wf(),
                self.code@ == s,
                s == old(self).source(),
                self.faults() == old(self).faults(),
                c0 == old(self).cursor(),
                start_line == c0.line,
                start_col == c0.col,
                string_rest(s, self.cursor(), builder@) == string_rest(s, step(s, c0), seq![]),
            decreases s.len() - self.ctx.cursor,
        {
            let ch = self.code[self.ctx.cursor];
            if ch == '"' {
                let lexeme = builder.clone();
                return Some((TokenType::String, Token { lexeme, literal: Value::String(builder) }));
            }
            push_char(&mut builder, ch);
            if ch == '\n' {
                self.advance();
                self.ctx.newline();
            } else {
                self.advance();
            }
        }
        let mut message = String::new();
        push_text(&mut message, "unterminated string");
        self.error(start_line, start_col, message);
        None
    }

    /// Reads a number; the cursor stands on its first digit, and ends on its last.
    fn want_number(&mut self) -> (r: (TokenType, Token))
        requires
            old(self).wf(),
            old(self).cursor().pos < old(self).source().len(),
            is_digit(old(self).source()[old(self).cursor().pos]),
        ensures
            final(self).wf(),
            final(self).source() == old(self).source(),
            final(self).faults() == old(self).faults(),
            ({
                let (t, c2) = number_rest(old(self).source(), old(self).cursor(), seq![]);
                &&& final(self).cursor() == back(c2)
                &&& r.0 == TokenType::Number
                &&& r.1.lexeme@ == t
                &&& r.1.literal@ == ValueView::Num(t)
            }),
    {
        let ghost s = self.code@;
        let ghost c0 = self.cursor();
        proof {
            lemma_number_rest(s, c0, seq![]);
        }
        let mut builder = String::new();
        loop
            invariant
                self.wf(),
                self.code@ == s,
                s == old(self).source(),
                self.faults() == old(self).faults(),
                c0 == old(self).cursor(),
                number_rest(s, self.cursor(), builder@) == number_rest(s, c0, seq![]),
            ensures
                self.wf(),
                self.code@ == s,
                self.faults() == old(self).faults(),
                number_rest(s, self.cursor(), builder@) == (builder@, self.cursor()),
                number_rest(s, c0, seq![]) == (builder@, self.cursor()),
            decreases s.len() - self.ctx.cursor,
        {
            if self.ctx.cursor >= self.code.len() {
                break;
            }
            let next = self.code[self.ctx.cursor];
            if digit_char(next) {
                push_char(&mut builder, next);
                self.advance();
            } else if next == '.' && self.ctx.cursor + 1 < self.code.len() && digit_char(
                self.code[self.ctx.cursor + 1],
            ) {
                push_char(&mut builder, next);
                self.advance();
            } else {
                break;
            }
        }
        self.rewind();
        let lexeme = builder.clone();
        (TokenType::Number, Token { lexeme, literal: Value::Num(builder) })
    }

    /// Reads an identifier or a keyword; the cursor stands on its first letter, and
    /// ends on its last.
    fn want_ident(&mut self) -> (r: (TokenType, Token))
        requires
            old(self).wf(),
            old(self).cursor().pos < old(self).source().len(),
            is_alpha_char(old(self).source()[old(self).cursor().pos]),
        ensures
            final(self).wf(),
            final(self).source() == old(self).source(),
            final(self).faults() == old(self).faults(),
            ({
                let (t, c2) = ident_rest(old(self).source(), old(self).cursor(), seq![]);
                &&& final(self).cursor() == back(c2)
                &&& r.0 == match keyword_tag(t) {
                    Some(k) => k,
                    None => TokenType::Identifier,
                }
                &&& r.1.lexeme@ == t
                &&& r.1.literal@ == ValueView::Absent
            }),
    {
        let ghost s = self.code@;
        let ghost c0 = self.cursor();
        proof {
            lemma_ident_rest(s, c0, seq![]);
        }
        let mut builder: Vec<char> = Vec::new();
        loop
            invariant
                self.wf(),
                self.code@ == s,
                s == old(self).source(),
                self.faults() == old(self).faults(),
                c0 == old(self).cursor(),
                ident_rest(s, self.cursor(), builder@) == ident_rest(s, c0, seq![]),
            ensures
                self.wf(),
                self.code@ == s,
                self.faults() == old(self).faults(),
                ident_rest(s, c0, seq![]) == (builder@, self.cursor()),
            decreases s.len() - self.ctx.cursor,
        {
            if self.ctx.cursor >= self.code.len() {
                break;
            }
            let next = self.code[self.ctx.cursor];
            if Self::is_alpha(next) {
                builder.push(next);
                self.advance();
            } else {
                break;
            }
        }
        let tok_type = match keyword_tag_of(&builder) {
            Some(tok) => tok,
            None => TokenType::Identifier,
        };
        self.rewind();
        (tok_type, Token { lexeme: crate::text::string_of(&builder), literal: Value::Absent })
    }

    /// Skips a line comment; the cursor stands on one of its characters.
    fn skip_comment(&mut self)
        requires
            old(self).wf(),
            old(self).cursor().pos < old(self).source().len(),
        ensures
            final(self).wf(),
            final(self).source() == old(self).source(),
            final(self).faults() == old(self).faults(),
            final(self).cursor() == comment_end(old(self).source(), old(self).cursor()),
    {
        let ghost s = self.code@;
        loop
            invariant_except_break
                self.cursor().pos < s.len(),
                comment_end(s, self.cursor()) == comment_end(s, old(self).cursor()),
            invariant
                self.wf(),
                self.code@ == s,
                s == old(self).source(),
                self.faults() == old(self).faults(),
            ensures
                self.wf(),
                self.code@ == s,
                self.faults() == old(self).faults(),
                self.cursor() == comment_end(s, old(self).cursor()),
            decreases s.len() - self.ctx.cursor,
        {
            match self.advance() {
                Some(stuff) => {
                    if stuff == '\n' {
                        self.advance();
                        self.ctx.newline();
                        break;
                    }
                },
                None => {
                    break;
                },
            }
        }
    }

    /// Scans for the next token, skipping blanks and comments and recording the
    /// lexical errors met on the way. The cursor ends on the token's last character.
    fn get_next_token(&mut self) -> (r: (TokenType, Token))
        requires
            old(self).wf(),
        ensures
            final(self).wf(),
            final(self).source() == old(self).source(),
            ({
                let st = next_token(old(self).source(), old(self).cursor());
                &&& r.0 == st.lex.tag
                &&& r.1.lexeme@ == st.lex.text
                &&& r.1.literal@ == st.lex.literal
                &&& final(self).cursor() == st.cur
                &&& final(self).faults() == old(self).faults() + st.errs
            }),
    {
        broadcast use Seq::add_empty_right;

        let ghost s = self.code@;
        let ghost target = next_token(s, self.cursor());
        let ghost f0 = self.faults();
        while self.ctx.cursor < self.code.len()
            invariant
                self.wf(),
                self.code@ == s,
                s == old(self).source(),
                target == next_token(s, old(self).cursor()),
                f0 == old(self).faults(),
                next_token(s, self.cursor()).lex == target.lex,
                next_token(s, self.cursor()).cur == target.cur,
                self.faults() + next_token(s, self.cursor()).errs == f0 + target.errs,
            decreases s.len() - self.ctx.cursor,
        {
            let ghost c = self.cursor();
            let curr_char = self.code[self.ctx.cursor];
            if curr_char == '"' {
                proof {
                    lemma_string_rest(s, step(s, c), seq![]);
                }
                match self.string_started() {
                    Some(found) => {
                        return found;
                    },
                    None => {
                        proof {
                            assert(f0 + target.errs =~= self.faults() + next_token(
                                s,
                                self.cursor(),
                            ).errs);
                        }
                    },
                }
            } else if let Some(tag) = single_tag_of(curr_char) {
                return (tag, char_token(curr_char));
            } else if digit_char(curr_char) {
                return self.want_number();
            } else if let Some((one, two)) = operator_tags_of(curr_char) {
                match self.peek(1) {
                    Some(next) => {
                        if next == '=' {
                            self.advance();
                            let mut lexeme = String::new();
                            push_char(&mut lexeme, curr_char);
                            push_char(&mut lexeme, next);
                            proof {
                                assert(lexeme@ =~= seq![curr_char, '=']);
                            }
                            return (two, Token { lexeme, literal: Value::Absent });
                        }
                    },
                    None => {},
                }
                return (one, char_token(curr_char));
            } else if curr_char == '/' {
                let mut is_comment = false;
                match self.peek(1) {
                    Some(next) => {
                        is_comment = next == '/';
                    },
                    None => {},
                }
                if is_comment {
                    self.advance();
                    self.skip_comment();
                    proof {
                        lemma_comment_end_advances(s, step(s, c));
                    }
                } else {
                    return (TokenType::Slash, char_token(curr_char));
                }
            } else if curr_char == ' ' || curr_char == '\r' || curr_char == '\t' {
                self.advance();
            } else if curr_char == '\n' {
                self.advance();
                self.ctx.newline();
            } else if Self::is_alpha(curr_char) {
                return self.want_ident();
            } else {
                let mut message = String::new();
                push_text(&mut message, "unexpected character: ");
                push_char(&mut message, curr_char);
                let line = self.ctx.curr_line;
                let column = self.ctx.curr_col;
                let ghost fb = self.faults();
                self.error(line, column, message);
                self.advance();
                proof {
                    let e = LexFault {
                        line: c.line,
                        col: c.col,
                        message: unexpected_message(curr_char),
                    };
                    assert(next_token(s, c).errs == seq![e] + next_token(s, self.cursor()).errs);
                    assert(fb + next_token(s, c).errs =~= self.faults() + next_token(
                        s,
                        self.cursor(),
                    ).errs);
                }
            }
        }
        (TokenType::Eof, Token { lexeme: String::new(), literal: Value::Absent })
    }

    /// Scans to the end of the input: the tokens from the cursor on, the last of them
    /// `Eof`, with the errors recorded before and during the scan.
    pub fn run(self) -> (r: TokenInfo)
        requires
            self.wf(),
        ensures
            r.holds(scan_from(self.source(), self.cursor()).0),
            faults_of(r.errors@) == self.faults() + scan_from(self.source(), self.cursor()).1,
    {
        let ghost s = self.source();
        let ghost c0 = self.cursor();
        let ghost target = scan_from(s, c0);
        let mut me = self;
        let mut tokens: Vec<Token> = Vec::new();
        let mut tags: Vec<TokenType> = Vec::new();
        let mut line_nrs: Vec<usize> = Vec::new();
        let mut end_cols: Vec<usize> = Vec::new();
        let ghost mut acc: Seq<Entry> = seq![];
        loop
            invariant_except_break
                acc + scan_from(s, me.cursor()).0 == target.0,
                me.faults() + scan_from(s, me.cursor()).1 == self.faults() + target.1,
            invariant
                me.wf(),
                me.source() == s,
                target == scan_from(s, c0),
                rows_hold(tokens@, tags@, line_nrs@, end_cols@, acc),
            ensures
                acc == target.0,
                me.faults() == self.faults() + target.1,
                rows_hold(tokens@, tags@, line_nrs@, end_cols@, acc),
            decreases s.len() - me.cursor().pos,
        {
            let ghost c = me.cursor();
            let (tag, tok) = me.get_next_token();
            let ghost e = Entry {
                lex: next_token(s, c).lex,
                line: next_token(s, c).cur.line,
                col: next_token(s, c).cur.col,
                pos: next_token(s, c).cur.pos,
            };
            tags.push(tag);
            tokens.push(tok);
            line_nrs.push(me.ctx.curr_line);
            end_cols.push(me.ctx.curr_col);
            proof {
                acc = acc.push(e);
            }
            if matches!(tag, TokenType::Eof) {
                proof {
                    assert(scan_from(s, c).0 =~= seq![e]);
                    assert(acc =~= target.0);
                    assert(me.faults() =~= self.faults() + target.1);
                }
                break;
            }
            proof {
                lemma_next_token_progress(s, c);
                let rest = scan_from(s, step(s, next_token(s, c).cur));
                assert(scan_from(s, c).0 == seq![e] + rest.0);
                assert(acc + rest.0 =~= (acc.drop_last() + scan_from(s, c).0));
            }
            me.advance();
            proof {
                assert(me.faults() + scan_from(s, me.cursor()).1 =~= self.faults() + target.1);
            }
        }
        TokenInfo { tokens, tags, line_nrs, end_cols, errors: me.ctx.errors }
    }
}

/// Scans `code` from its start to its end.
pub fn scan(code: &str) -> (r: TokenInfo)
    requires
        code@.len() < usize::MAX,
    ensures
        r.is_scan_of(code@),
{
    let scanner = Scanner::new(code);
    let r = scanner.run();
    proof {
        assert(faults_of(r.errors@) =~= scan_table(code@).1);
    }
    r
}

} // verus!
