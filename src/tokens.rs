use vstd::prelude::*;

use crate::text::{is_word, string_of, chars_of};

verus! {

/// The closed set of token tags.
#[derive(Clone, Copy, PartialEq, Eq, Hash, Debug, Structural)]
pub enum TokenType {
    // Single-character tokens.
    LeftParen,
    RightParen,
    LeftBrace,
    RightBrace,
    Comma,
    Dot,
    Minus,
    Plus,
    Semicolon,
    Slash,
    Star,
    // One or two character tokens.
    Bang,
    BangEqual,
    Equal,
    EqualEqual,
    Greater,
    GreaterEqual,
    Less,
    LessEqual,
    // Literals.
    Identifier,
    String,
    Number,
    // Keywords.
    And,
    Class,
    Else,
    False,
    Fun,
    For,
    If,
    Nil,
    Or,
    Print,
    Return,
    Super,
    This,
    True,
    Var,
    While,
    Eof,
}

/// The tag that a fixed lexeme (a symbol, an operator or a keyword) stands for.
pub open spec fn fixed_tag(s: Seq<char>) -> Option<TokenType> {
    if s == "("@ {
        Some(TokenType::LeftParen)
    } else if s == ")"@ {
        Some(TokenType::RightParen)
    } else if s == "{"@ {
        Some(TokenType::LeftBrace)
    } else if s == "}"@ {
        Some(TokenType::RightBrace)
    } else if s == ","@ {
        Some(TokenType::Comma)
    } else if s == "."@ {
        Some(TokenType::Dot)
    } else if s == "-"@ {
        Some(TokenType::Minus)
    } else if s == "+"@ {
        Some(TokenType::Plus)
    } else if s == ";"@ {
        Some(TokenType::Semicolon)
    } else if s == "*"@ {
        Some(TokenType::Star)
    } else if s == "!"@ {
        Some(TokenType::Bang)
    } else if s == "!="@ {
        Some(TokenType::BangEqual)
    } else if s == "="@ {
        Some(TokenType::Equal)
    } else if s == "=="@ {
        Some(TokenType::EqualEqual)
    } else if s == ">"@ {
        Some(TokenType::Greater)
    } else if s == ">="@ {
        Some(TokenType::GreaterEqual)
    } else if s == "<"@ {
        Some(TokenType::Less)
    } else if s == "<="@ {
        Some(TokenType::LessEqual)
    } else {
        keyword_tag(s)
    }
}

/// The keyword tag of an exact keyword spelling.
pub open spec fn keyword_tag(s: Seq<char>) -> Option<TokenType> {
    if s == "and"@ {
        Some(TokenType::And)
    } else if s == "class"@ {
        Some(TokenType::Class)
    } else if s == "else"@ {
        Some(TokenType::Else)
    } else if s == "false"@ {
        Some(TokenType::False)
    } else if s == "fun"@ {
        Some(TokenType::Fun)
    } else if s == "for"@ {
        Some(TokenType::For)
    } else if s == "if"@ {
        Some(TokenType::If)
    } else if s == "nil"@ {
        Some(TokenType::Nil)
    } else if s == "or"@ {
        Some(TokenType::Or)
    } else if s == "print"@ {
        Some(TokenType::Print)
    } else if s == "return"@ {
        Some(TokenType::Return)
    } else if s == "super"@ {
        Some(TokenType::Super)
    } else if s == "this"@ {
        Some(TokenType::This)
    } else if s == "true"@ {
        Some(TokenType::True)
    } else if s == "var"@ {
        Some(TokenType::Var)
    } else if s == "while"@ {
        Some(TokenType::While)
    } else {
        None
    }
}

impl TokenType {
    pub open spec fn spec_is_keyword(self) -> bool {
        match self {
            TokenType::And | TokenType::Class | TokenType::Else | TokenType::False
            | TokenType::Fun | TokenType::For | TokenType::If | TokenType::Nil | TokenType::Or
            | TokenType::Print | TokenType::Return | TokenType::Super | TokenType::This
            | TokenType::True | TokenType::Var | TokenType::While => true,
            _ => false,
        }
    }

    pub open spec fn spec_is_equality(self) -> bool {
        self == TokenType::EqualEqual || self == TokenType::BangEqual
    }

    pub open spec fn spec_is_comp(self) -> bool {
        self == TokenType::Greater || self == TokenType::GreaterEqual || self
            == TokenType::Less || self == TokenType::LessEqual
    }

    pub open spec fn spec_is_term(self) -> bool {
        self == TokenType::Minus || self == TokenType::Plus
    }

    pub open spec fn spec_is_factor(self) -> bool {
        self == TokenType::Slash || self == TokenType::Star
    }

    pub open spec fn spec_is_unary(self) -> bool {
        self == TokenType::Bang || self == TokenType::Minus
    }

    /// Whether this is one of the sixteen keyword tags.
    pub fn is_keyword(&self) -> (r: bool)
        ensures
            r == self.spec_is_keyword(),
    {
        match self {
            TokenType::And | TokenType::Class | TokenType::Else | TokenType::False
            | TokenType::Fun | TokenType::For | TokenType::If | TokenType::Nil | TokenType::Or
            | TokenType::Print | TokenType::Return | TokenType::Super | TokenType::This
            | TokenType::True | TokenType::Var | TokenType::While => true,
            _ => false,
        }
    }

    /// `==` or `!=`.
    pub fn is_equality(&self) -> (r: bool)
        ensures
            r == self.spec_is_equality(),
    {
        matches!(self, TokenType::EqualEqual) || matches!(self, TokenType::BangEqual)
    }

    /// `>`, `>=`, `<` or `<=`.
    pub fn is_comp(&self) -> (r: bool)
        ensures
            r == self.spec_is_comp(),
    {
        matches!(self, TokenType::Greater) || matches!(self, TokenType::GreaterEqual)
            || matches!(self, TokenType::Less) || matches!(self, TokenType::LessEqual)
    }

    /// `+` or `-`.
    pub fn is_term(&self) -> (r: bool)
        ensures
            r == self.spec_is_term(),
    {
        matches!(self, TokenType::Minus) || matches!(self, TokenType::Plus)
    }

    /// `*` or `/`.
    pub fn is_factor(&self) -> (r: bool)
        ensures
            r == self.spec_is_factor(),
    {
        matches!(self, TokenType::Slash) || matches!(self, TokenType::Star)
    }

    /// `!` or `-`.
    pub fn is_unary(&self) -> (r: bool)
        ensures
            r == self.spec_is_unary(),
    {
        matches!(self, TokenType::Bang) || matches!(self, TokenType::Minus)
    }
}

impl TokenType {
    /// The name of the tag, as text.
    pub open spec fn spec_name(self) -> Seq<char> {
        match self {
            TokenType::LeftParen => "LeftParen"@,
            TokenType::RightParen => "RightParen"@,
            TokenType::LeftBrace => "LeftBrace"@,
            TokenType::RightBrace => "RightBrace"@,
            TokenType::Comma => "Comma"@,
            TokenType::Dot => "Dot"@,
            TokenType::Minus => "Minus"@,
            TokenType::Plus => "Plus"@,
            TokenType::Semicolon => "Semicolon"@,
            TokenType::Slash => "Slash"@,
            TokenType::Star => "Star"@,
            TokenType::Bang => "Bang"@,
            TokenType::BangEqual => "BangEqual"@,
            TokenType::Equal => "Equal"@,
            TokenType::EqualEqual => "EqualEqual"@,
            TokenType::Greater => "Greater"@,
            TokenType::GreaterEqual => "GreaterEqual"@,
            TokenType::Less => "Less"@,
            TokenType::LessEqual => "LessEqual"@,
            TokenType::Identifier => "Identifier"@,
            TokenType::String => "String"@,
            TokenType::Number => "Number"@,
            TokenType::And => "And"@,
            TokenType::Class => "Class"@,
            TokenType::Else => "Else"@,
            TokenType::False => "False"@,
            TokenType::Fun => "Fun"@,
            TokenType::For => "For"@,
            TokenType::If => "If"@,
            TokenType::Nil => "Nil"@,
            TokenType::Or => "Or"@,
            TokenType::Print => "Print"@,
            TokenType::Return => "Return"@,
            TokenType::Super => "Super"@,
            TokenType::This => "This"@,
            TokenType::True => "True"@,
            TokenType::Var => "Var"@,
            TokenType::While => "While"@,
            TokenType::Eof => "Eof"@,
        }
    }

    /// The name of the tag, as text.
    pub fn name(&self) -> (r: &'static str)
        ensures
            r@ == self.spec_name(),
    {
        match self {
            TokenType::LeftParen => "LeftParen",
            TokenType::RightParen => "RightParen",
            TokenType::LeftBrace => "LeftBrace",
            TokenType::RightBrace => "RightBrace",
            TokenType::Comma => "Comma",
            TokenType::Dot => "Dot",
            TokenType::Minus => "Minus",
            TokenType::Plus => "Plus",
            TokenType::Semicolon => "Semicolon",
            TokenType::Slash => "Slash",
            TokenType::Star => "Star",
            TokenType::Bang => "Bang",
            TokenType::BangEqual => "BangEqual",
            TokenType::Equal => "Equal",
            TokenType::EqualEqual => "EqualEqual",
            TokenType::Greater => "Greater",
            TokenType::GreaterEqual => "GreaterEqual",
            TokenType::Less => "Less",
            TokenType::LessEqual => "LessEqual",
            TokenType::Identifier => "Identifier",
            TokenType::String => "String",
            TokenType::Number => "Number",
            TokenType::And => "And",
            TokenType::Class => "Class",
            TokenType::Else => "Else",
            TokenType::False => "False",
            TokenType::Fun => "Fun",
            TokenType::For => "For",
            TokenType::If => "If",
            TokenType::Nil => "Nil",
            TokenType::Or => "Or",
            TokenType::Print => "Print",
            TokenType::Return => "Return",
            TokenType::Super => "Super",
            TokenType::This => "This",
            TokenType::True => "True",
            TokenType::Var => "Var",
            TokenType::While => "While",
            TokenType::Eof => "Eof",
        }
    }

    /// The tag of a fixed lexeme: a symbol, an operator or a keyword.
    pub fn from_str(value: &str) -> (r: Option<TokenType>)
        ensures
            r == fixed_tag(value@),
    {
        let v = chars_of(value);
        fixed_tag_of(&v)
    }
}

/// The tag that the characters `v` spell, if they spell a fixed lexeme.
pub(crate) fn fixed_tag_of(v: &Vec<char>) -> (r: Option<TokenType>)
    ensures
        r == fixed_tag(v@),
{
    if is_word(v, "(") {
        Some(TokenType::LeftParen)
    } else if is_word(v, ")") {
        Some(TokenType::RightParen)
    } else if is_word(v, "{") {
        Some(TokenType::LeftBrace)
    } else if is_word(v, "}") {
        Some(TokenType::RightBrace)
    } else if is_word(v, ",") {
        Some(TokenType::Comma)
    } else if is_word(v, ".") {
        Some(TokenType::Dot)
    } else if is_word(v, "-") {
        Some(TokenType::Minus)
    } else if is_word(v, "+") {
        Some(TokenType::Plus)
    } else if is_word(v, ";") {
        Some(TokenType::Semicolon)
    } else if is_word(v, "*") {
        Some(TokenType::Star)
    } else if is_word(v, "!") {
        Some(TokenType::Bang)
    } else if is_word(v, "!=") {
        Some(TokenType::BangEqual)
    } else if is_word(v, "=") {
        Some(TokenType::Equal)
    } else if is_word(v, "==") {
        Some(TokenType::EqualEqual)
    } else if is_word(v, ">") {
        Some(TokenType::Greater)
    } else if is_word(v, ">=") {
        Some(TokenType::GreaterEqual)
    } else if is_word(v, "<") {
        Some(TokenType::Less)
    } else if is_word(v, "<=") {
        Some(TokenType::LessEqual)
    } else {
        keyword_tag_of(v)
    }
}

/// The keyword tag that the characters `v` spell, if they spell a keyword.
pub(crate) fn keyword_tag_of(v: &Vec<char>) -> (r: Option<TokenType>)
    ensures
        r == keyword_tag(v@),
{
    if is_word(v, "and") {
        Some(TokenType::And)
    } else if is_word(v, "class") {
        Some(TokenType::Class)
    } else if is_word(v, "else") {
        Some(TokenType::Else)
    } else if is_word(v, "false") {
        Some(TokenType::False)
    } else if is_word(v, "fun") {
        Some(TokenType::Fun)
    } else if is_word(v, "for") {
        Some(TokenType::For)
    } else if is_word(v, "if") {
        Some(TokenType::If)
    } else if is_word(v, "nil") {
        Some(TokenType::Nil)
    } else if is_word(v, "or") {
        Some(TokenType::Or)
    } else if is_word(v, "print") {
        Some(TokenType::Print)
    } else if is_word(v, "return") {
        Some(TokenType::Return)
    } else if is_word(v, "super") {
        Some(TokenType::Super)
    } else if is_word(v, "this") {
        Some(TokenType::This)
    } else if is_word(v, "true") {
        Some(TokenType::True)
    } else if is_word(v, "var") {
        Some(TokenType::Var)
    } else if is_word(v, "while") {
        Some(TokenType::While)
    } else {
        None
    }
}

/// What a literal value is, as characters.
pub enum ValueView {
    Num(Seq<char>),
    Str(Seq<char>),
    Absent,
}

/// The literal value that a token carries. A number keeps its decimal numeral
/// as written; a string keeps its raw text.
#[derive(Clone, PartialEq, Debug)]
pub enum Value {
    String(String),
    Num(String),
    Absent,
}

impl View for Value {
    type V = ValueView;

    open spec fn view(&self) -> ValueView {
        match self {
            Value::String(s) => ValueView::Str(s@),
            Value::Num(s) => ValueView::Num(s@),
            Value::Absent => ValueView::Absent,
        }
    }
}

impl Value {
    /// A copy of this value.
    pub fn duplicate(&self) -> (r: Value)
        ensures
            r@ == self@,
    {
        match self {
            Value::String(s) => Value::String(s.clone()),
            Value::Num(s) => Value::Num(s.clone()),
            Value::Absent => Value::Absent,
        }
    }
}

pub open spec fn is_digit(c: char) -> bool {
    '0' <= c && c <= '9'
}

/// A decimal numeral: one or more digits, then optionally a `.` and one or more digits.
pub open spec fn is_numeral(s: Seq<char>) -> bool {
    ||| (s.len() > 0 && forall|i: int| 0 <= i < s.len() ==> #[trigger] is_digit(s[i]))
    ||| exists|k: int|
        #![trigger s[k]]
        0 < k < s.len() - 1 && s[k] == '.' && (forall|i: int|
            0 <= i < s.len() && i != k ==> #[trigger] is_digit(s[i]))
}

/// In a numeral, a character that is not a digit is its one `.`, which neither
/// begins nor ends it.
proof fn lemma_numeral_non_digit(s: Seq<char>, i: int)
    requires
        is_numeral(s),
        0 <= i < s.len(),
        !is_digit(s[i]),
    ensures
        s[i] == '.',
        0 < i < s.len() - 1,
        forall|j: int| 0 <= j < s.len() && j != i ==> #[trigger] is_digit(s[j]),
{
    let k = choose|k: int|
        #![trigger s[k]]
        0 < k < s.len() - 1 && s[k] == '.' && (forall|j: int|
            0 <= j < s.len() && j != k ==> #[trigger] is_digit(s[j]));
    assert(k == i);
}

/// Whether `v` is a decimal numeral.
pub fn numeral(v: &Vec<char>) -> (r: bool)
    ensures
        r == is_numeral(v@),
{
    let n = v.len();
    let mut i: usize = 0;
    let mut dot: Option<usize> = None;
    while i < n
        invariant
            n == v@.len(),
            i <= n,
            match dot {
                Some(k) => k < i && v@[k as int] == '.' && (forall|j: int|
                    0 <= j < i && j != k ==> #[trigger] is_digit(v@[j])),
                None => forall|j: int| 0 <= j < i ==> #[trigger] is_digit(v@[j]),
            },
        decreases n - i,
    {
        let c = v[i];
        if c == '.' {
            if let Some(k) = dot {
                proof {
                    if is_numeral(v@) {
                        lemma_numeral_non_digit(v@, i as int);
                        assert(is_digit(v@[k as int]));
                    }
                }
                return false;
            }
            dot = Some(i);
        } else if !('0' <= c && c <= '9') {
            proof {
                if is_numeral(v@) {
                    lemma_numeral_non_digit(v@, i as int);
                }
            }
            return false;
        }
        i = i + 1;
    }
    match dot {
        None => n > 0,
        Some(k) => {
            proof {
                if is_numeral(v@) {
                    lemma_numeral_non_digit(v@, k as int);
                }
            }
            k != 0 && k + 1 != n
        },
    }
}

/// The lexeme of a token and the literal value resolved from it.
#[derive(Clone, PartialEq, Debug)]
pub struct Token {
    pub lexeme: String,
    pub literal: Value,
}

impl Token {
    /// A token with the given lexeme. Without `literal` it carries no value;
    /// with it, a decimal numeral carries a number and any other text a string.
    pub fn new(lexeme: &str, literal: bool) -> (r: Token)
        ensures
            r.lexeme@ == lexeme@,
            r.literal@ == (if !literal {
                ValueView::Absent
            } else if is_numeral(lexeme@) {
                ValueView::Num(lexeme@)
            } else {
                ValueView::Str(lexeme@)
            }),
    {
        let v = chars_of(lexeme);
        let value = if !literal {
            Value::Absent
        } else if numeral(&v) {
            Value::Num(string_of(&v))
        } else {
            Value::String(string_of(&v))
        };
        Token { lexeme: string_of(&v), literal: value }
    }
}

} // verus!
