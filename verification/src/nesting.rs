//! How deeply the elements of a document are nested, as the XML reader sees
//! them.
//!
//! The reader builds its tree by recursion, one level for each element that
//! is open, so a document is handed to it only where this depth is within a
//! limit. The scanner here follows the reader's lexer character by character
//! and keeps the place that the reader's parser is in: text, a tag and its
//! attribute values, a comment, CDATA, a processing instruction, the
//! declaration, a document type. It keeps no names and no values, and where
//! the reader would give up, the scanner goes on.

use vstd::prelude::*;

verus! {

/// The deepest nesting that is handed to the XML reader.
pub const MAX_NESTING: usize = 256;

/// The word that follows `<![` where CDATA begins.
pub const CDATA_WORD: u8 = 0;

/// The word that follows `<!D` where a document type begins.
pub const DOCTYPE_WORD: u8 = 1;

/// The tokens of the reader's lexer, as far as the scanner tells them apart.
#[derive(Clone, Copy, Debug)]
pub enum Token {
    /// `<` before a name
    Open,
    /// `</`
    Close,
    /// `<!--`
    CommentStart,
    /// `<![CDATA[`
    CDataStart,
    /// `<?`
    PiStart,
    /// `<!DOCTYPE`
    DoctypeStart,
    /// `>`
    TagEnd,
    /// `/>`
    EmptyTagEnd,
    /// `?>`
    PiEnd,
    /// `-->`
    CommentEnd,
    /// `]]>`
    CDataEnd,
    /// `=`
    Equals,
    /// `"`
    Double,
    /// `'`
    Single,
    /// a white space character
    Space,
    /// any other single character
    Char(char),
    /// no token, or one that changes nothing: `&`, `;`, a chunk
    Other,
}

/// The states of the reader's lexer.
#[derive(Clone, Copy, Debug)]
pub enum Lexing {
    /// no token has begun
    Normal,
    /// after `<`
    TagStarted,
    /// after `<!`
    Bang,
    /// after `<!-`
    CommentStarted,
    /// after `<!D` and this many characters of `OCTYPE`
    DoctypeStarted(u8),
    /// inside a document type, with this many `<` open
    DoctypeFinishing(usize),
    /// after `<![` and this many characters of `CDATA[`
    CDataStarted(u8),
    /// after `?`
    PiClosing,
    /// after `/`
    EmptyClosing,
    /// after `-`
    CommentClosing1,
    /// after `--`
    CommentClosing2,
    /// after `]`
    CDataClosing1,
    /// after `]]`
    CDataClosing2,
}

/// Whether the lexer reads a character again after it has ended a token.
#[derive(Clone, Copy, Debug)]
pub enum Again {
    /// the character is used up
    No,
    /// the character is read again, with no token begun
    Char,
    /// a `]` and then the character are read again
    BracketChar,
}

/// What the lexer makes of one character.
#[derive(Clone, Copy, Debug)]
pub struct Lexed {
    pub lexing: Lexing,
    pub token: Token,
    pub again: Again,
}

/// Where the scanner stands with respect to an attribute value.
#[derive(Clone, Copy, Debug)]
pub enum Value {
    /// outside a value
    Outside,
    /// behind `=`, before the quote
    Awaited,
    /// inside a value in double quotes
    Double,
    /// inside a value in single quotes
    Single,
}

/// The place that the reader's parser is in.
#[derive(Clone, Copy, Debug)]
pub enum Context {
    /// between tags
    Text,
    /// inside a start tag
    Tag(Value),
    /// inside an end tag
    ClosingTag,
    /// inside a comment
    Comment,
    /// inside CDATA
    CData,
    /// inside the name of a processing instruction
    PiName(u8),
    /// inside the data of a processing instruction
    PiData,
    /// inside the XML declaration
    Declaration(Value),
    /// inside a document type
    Doctype,
}

/// The state of the scanner.
#[derive(Clone, Copy, Debug)]
pub struct Scanner {
    /// the state of the lexer
    pub lexing: Lexing,
    /// the place of the parser
    pub context: Context,
    /// whether a declaration may still come: no element has begun and no
    /// declaration has ended
    pub prolog: bool,
    /// the number of elements that are open
    pub depth: usize,
    /// the largest depth so far
    pub peak: usize,
}

/// What the lexer makes of `c` where no token has begun.
pub open spec fn lexed_normal(c: char) -> Lexed {
    if c == '<' {
        Lexed { lexing: Lexing::TagStarted, token: Token::Other, again: Again::No }
    } else if c == '>' {
        Lexed { lexing: Lexing::Normal, token: Token::TagEnd, again: Again::No }
    } else if c == '/' {
        Lexed { lexing: Lexing::EmptyClosing, token: Token::Other, again: Again::No }
    } else if c == '=' {
        Lexed { lexing: Lexing::Normal, token: Token::Equals, again: Again::No }
    } else if c == '"' {
        Lexed { lexing: Lexing::Normal, token: Token::Double, again: Again::No }
    } else if c == '\'' {
        Lexed { lexing: Lexing::Normal, token: Token::Single, again: Again::No }
    } else if c == '?' {
        Lexed { lexing: Lexing::PiClosing, token: Token::Other, again: Again::No }
    } else if c == '-' {
        Lexed { lexing: Lexing::CommentClosing1, token: Token::Other, again: Again::No }
    } else if c == ']' {
        Lexed { lexing: Lexing::CDataClosing1, token: Token::Other, again: Again::No }
    } else if c == ' ' || c == '\t' || c == '\r' || c == '\n' {
        Lexed { lexing: Lexing::Normal, token: Token::Space, again: Again::No }
    } else if c == '&' || c == ';' {
        Lexed { lexing: Lexing::Normal, token: Token::Other, again: Again::No }
    } else {
        Lexed { lexing: Lexing::Normal, token: Token::Char(c), again: Again::No }
    }
}

fn lex_normal(c: char) -> (res: Lexed)
    ensures
        res == lexed_normal(c),
{
    if c == '<' {
        Lexed { lexing: Lexing::TagStarted, token: Token::Other, again: Again::No }
    } else if c == '>' {
        Lexed { lexing: Lexing::Normal, token: Token::TagEnd, again: Again::No }
    } else if c == '/' {
        Lexed { lexing: Lexing::EmptyClosing, token: Token::Other, again: Again::No }
    } else if c == '=' {
        Lexed { lexing: Lexing::Normal, token: Token::Equals, again: Again::No }
    } else if c == '"' {
        Lexed { lexing: Lexing::Normal, token: Token::Double, again: Again::No }
    } else if c == '\'' {
        Lexed { lexing: Lexing::Normal, token: Token::Single, again: Again::No }
    } else if c == '?' {
        Lexed { lexing: Lexing::PiClosing, token: Token::Other, again: Again::No }
    } else if c == '-' {
        Lexed { lexing: Lexing::CommentClosing1, token: Token::Other, again: Again::No }
    } else if c == ']' {
        Lexed { lexing: Lexing::CDataClosing1, token: Token::Other, again: Again::No }
    } else if c == ' ' || c == '\t' || c == '\r' || c == '\n' {
        Lexed { lexing: Lexing::Normal, token: Token::Space, again: Again::No }
    } else if c == '&' || c == ';' {
        Lexed { lexing: Lexing::Normal, token: Token::Other, again: Again::No }
    } else {
        Lexed { lexing: Lexing::Normal, token: Token::Char(c), again: Again::No }
    }
}

/// Whether `c` is the character at `at` of `CDATA[` or of `OCTYPE`.
pub open spec fn spells(word: u8, at: u8, c: char) -> bool {
    if word == CDATA_WORD {
        (at == 0 && c == 'C') || (at == 1 && c == 'D') || (at == 2 && c == 'A') || (at == 3 && c
            == 'T') || (at == 4 && c == 'A') || (at == 5 && c == '[')
    } else {
        (at == 0 && c == 'O') || (at == 1 && c == 'C') || (at == 2 && c == 'T') || (at == 3 && c
            == 'Y') || (at == 4 && c == 'P') || (at == 5 && c == 'E')
    }
}

fn spell(word: u8, at: u8, c: char) -> (res: bool)
    ensures
        res == spells(word, at, c),
{
    if word == CDATA_WORD {
        (at == 0 && c == 'C') || (at == 1 && c == 'D') || (at == 2 && c == 'A') || (at == 3 && c
            == 'T') || (at == 4 && c == 'A') || (at == 5 && c == '[')
    } else {
        (at == 0 && c == 'O') || (at == 1 && c == 'C') || (at == 2 && c == 'T') || (at == 3 && c
            == 'Y') || (at == 4 && c == 'P') || (at == 5 && c == 'E')
    }
}

/// What the lexer makes of `c` in the state `lexing`: its next state, the token
/// that is complete, and whether `c` is to be read again. Where the reader's
/// lexer would give up, this one goes on as the reader's does inside CDATA.
pub open spec fn lexed(lexing: Lexing, c: char) -> Lexed {
    match lexing {
        Lexing::Normal => lexed_normal(c),
        Lexing::TagStarted => {
            if c == '?' {
                Lexed { lexing: Lexing::Normal, token: Token::PiStart, again: Again::No }
            } else if c == '/' {
                Lexed { lexing: Lexing::Normal, token: Token::Close, again: Again::No }
            } else if c == '!' {
                Lexed { lexing: Lexing::Bang, token: Token::Other, again: Again::No }
            } else {
                Lexed { lexing: Lexing::Normal, token: Token::Open, again: Again::Char }
            }
        },
        Lexing::Bang => {
            if c == '-' {
                Lexed { lexing: Lexing::CommentStarted, token: Token::Other, again: Again::No }
            } else if c == '[' {
                Lexed { lexing: Lexing::CDataStarted(0), token: Token::Other, again: Again::No }
            } else if c == 'D' {
                Lexed { lexing: Lexing::DoctypeStarted(0), token: Token::Other, again: Again::No }
            } else {
                Lexed { lexing: Lexing::Normal, token: Token::Other, again: Again::Char }
            }
        },
        Lexing::CommentStarted => {
            if c == '-' {
                Lexed { lexing: Lexing::Normal, token: Token::CommentStart, again: Again::No }
            } else {
                Lexed { lexing: Lexing::Normal, token: Token::Other, again: Again::Char }
            }
        },
        Lexing::CDataStarted(at) => {
            if !spells(CDATA_WORD, at, c) {
                Lexed { lexing: Lexing::Normal, token: Token::Other, again: Again::Char }
            } else if at < 5 {
                Lexed {
                    lexing: Lexing::CDataStarted((at + 1) as u8),
                    token: Token::Other,
                    again: Again::No,
                }
            } else {
                Lexed { lexing: Lexing::Normal, token: Token::CDataStart, again: Again::No }
            }
        },
        Lexing::DoctypeStarted(at) => {
            if !spells(DOCTYPE_WORD, at, c) {
                Lexed { lexing: Lexing::Normal, token: Token::Other, again: Again::Char }
            } else if at < 5 {
                Lexed {
                    lexing: Lexing::DoctypeStarted((at + 1) as u8),
                    token: Token::Other,
                    again: Again::No,
                }
            } else {
                Lexed {
                    lexing: Lexing::DoctypeFinishing(1),
                    token: Token::DoctypeStart,
                    again: Again::No,
                }
            }
        },
        Lexing::DoctypeFinishing(open) => {
            if c == '<' {
                let more: usize = if open < usize::MAX {
                    (open + 1) as usize
                } else {
                    open
                };
                Lexed {
                    lexing: Lexing::DoctypeFinishing(more),
                    token: Token::Other,
                    again: Again::No,
                }
            } else if c == '>' {
                if open <= 1 {
                    Lexed { lexing: Lexing::Normal, token: Token::TagEnd, again: Again::No }
                } else {
                    Lexed {
                        lexing: Lexing::DoctypeFinishing((open - 1) as usize),
                        token: Token::Other,
                        again: Again::No,
                    }
                }
            } else {
                Lexed {
                    lexing: Lexing::DoctypeFinishing(open),
                    token: Token::Other,
                    again: Again::No,
                }
            }
        },
        Lexing::PiClosing => {
            if c == '>' {
                Lexed { lexing: Lexing::Normal, token: Token::PiEnd, again: Again::No }
            } else {
                Lexed { lexing: Lexing::Normal, token: Token::Char('?'), again: Again::Char }
            }
        },
        Lexing::EmptyClosing => {
            if c == '>' {
                Lexed { lexing: Lexing::Normal, token: Token::EmptyTagEnd, again: Again::No }
            } else {
                Lexed { lexing: Lexing::Normal, token: Token::Char('/'), again: Again::Char }
            }
        },
        Lexing::CommentClosing1 => {
            if c == '-' {
                Lexed { lexing: Lexing::CommentClosing2, token: Token::Other, again: Again::No }
            } else {
                Lexed { lexing: Lexing::Normal, token: Token::Char('-'), again: Again::Char }
            }
        },
        Lexing::CommentClosing2 => {
            if c == '>' {
                Lexed { lexing: Lexing::Normal, token: Token::CommentEnd, again: Again::No }
            } else {
                Lexed { lexing: Lexing::Normal, token: Token::Other, again: Again::Char }
            }
        },
        Lexing::CDataClosing1 => {
            if c == ']' {
                Lexed { lexing: Lexing::CDataClosing2, token: Token::Other, again: Again::No }
            } else {
                Lexed { lexing: Lexing::Normal, token: Token::Char(']'), again: Again::Char }
            }
        },
        Lexing::CDataClosing2 => {
            if c == '>' {
                Lexed { lexing: Lexing::Normal, token: Token::CDataEnd, again: Again::No }
            } else {
                Lexed { lexing: Lexing::Normal, token: Token::Char(']'), again: Again::BracketChar }
            }
        },
    }
}

fn lex(lexing: Lexing, c: char) -> (res: Lexed)
    ensures
        res == lexed(lexing, c),
{
    match lexing {
        Lexing::Normal => lex_normal(c),
        Lexing::TagStarted => {
            if c == '?' {
                Lexed { lexing: Lexing::Normal, token: Token::PiStart, again: Again::No }
            } else if c == '/' {
                Lexed { lexing: Lexing::Normal, token: Token::Close, again: Again::No }
            } else if c == '!' {
                Lexed { lexing: Lexing::Bang, token: Token::Other, again: Again::No }
            } else {
                Lexed { lexing: Lexing::Normal, token: Token::Open, again: Again::Char }
            }
        },
        Lexing::Bang => {
            if c == '-' {
                Lexed { lexing: Lexing::CommentStarted, token: Token::Other, again: Again::No }
            } else if c == '[' {
                Lexed { lexing: Lexing::CDataStarted(0), token: Token::Other, again: Again::No }
            } else if c == 'D' {
                Lexed { lexing: Lexing::DoctypeStarted(0), token: Token::Other, again: Again::No }
            } else {
                Lexed { lexing: Lexing::Normal, token: Token::Other, again: Again::Char }
            }
        },
        Lexing::CommentStarted => {
            if c == '-' {
                Lexed { lexing: Lexing::Normal, token: Token::CommentStart, again: Again::No }
            } else {
                Lexed { lexing: Lexing::Normal, token: Token::Other, again: Again::Char }
            }
        },
        Lexing::CDataStarted(at) => {
            if !spell(CDATA_WORD, at, c) {
                Lexed { lexing: Lexing::Normal, token: Token::Other, again: Again::Char }
            } else if at < 5 {
                Lexed {
                    lexing: Lexing::CDataStarted((at + 1) as u8),
                    token: Token::Other,
                    again: Again::No,
                }
            } else {
                Lexed { lexing: Lexing::Normal, token: Token::CDataStart, again: Again::No }
            }
        },
        Lexing::DoctypeStarted(at) => {
            if !spell(DOCTYPE_WORD, at, c) {
                Lexed { lexing: Lexing::Normal, token: Token::Other, again: Again::Char }
            } else if at < 5 {
                Lexed {
                    lexing: Lexing::DoctypeStarted((at + 1) as u8),
                    token: Token::Other,
                    again: Again::No,
                }
            } else {
                Lexed {
                    lexing: Lexing::DoctypeFinishing(1),
                    token: Token::DoctypeStart,
                    again: Again::No,
                }
            }
        },
        Lexing::DoctypeFinishing(open) => {
            if c == '<' {
                let more: usize = if open < usize::MAX {
                    (open + 1) as usize
                } else {
                    open
                };
                Lexed {
                    lexing: Lexing::DoctypeFinishing(more),
                    token: Token::Other,
                    again: Again::No,
                }
            } else if c == '>' {
                if open <= 1 {
                    Lexed { lexing: Lexing::Normal, token: Token::TagEnd, again: Again::No }
                } else {
                    Lexed {
                        lexing: Lexing::DoctypeFinishing((open - 1) as usize),
                        token: Token::Other,
                        again: Again::No,
                    }
                }
            } else {
                Lexed {
                    lexing: Lexing::DoctypeFinishing(open),
                    token: Token::Other,
                    again: Again::No,
                }
            }
        },
        Lexing::PiClosing => {
            if c == '>' {
                Lexed { lexing: Lexing::Normal, token: Token::PiEnd, again: Again::No }
            } else {
                Lexed { lexing: Lexing::Normal, token: Token::Char('?'), again: Again::Char }
            }
        },
        Lexing::EmptyClosing => {
            if c == '>' {
                Lexed { lexing: Lexing::Normal, token: Token::EmptyTagEnd, again: Again::No }
            } else {
                Lexed { lexing: Lexing::Normal, token: Token::Char('/'), again: Again::Char }
            }
        },
        Lexing::CommentClosing1 => {
            if c == '-' {
                Lexed { lexing: Lexing::CommentClosing2, token: Token::Other, again: Again::No }
            } else {
                Lexed { lexing: Lexing::Normal, token: Token::Char('-'), again: Again::Char }
            }
        },
        Lexing::CommentClosing2 => {
            if c == '>' {
                Lexed { lexing: Lexing::Normal, token: Token::CommentEnd, again: Again::No }
            } else {
                Lexed { lexing: Lexing::Normal, token: Token::Other, again: Again::Char }
            }
        },
        Lexing::CDataClosing1 => {
            if c == ']' {
                Lexed { lexing: Lexing::CDataClosing2, token: Token::Other, again: Again::No }
            } else {
                Lexed { lexing: Lexing::Normal, token: Token::Char(']'), again: Again::Char }
            }
        },
        Lexing::CDataClosing2 => {
            if c == '>' {
                Lexed { lexing: Lexing::Normal, token: Token::CDataEnd, again: Again::No }
            } else {
                Lexed { lexing: Lexing::Normal, token: Token::Char(']'), again: Again::BracketChar }
            }
        },
    }
}

/// How a token moves the place within a tag with respect to attribute values.
pub open spec fn value_after(value: Value, token: Token) -> Value {
    match value {
        Value::Outside => match token {
            Token::Equals => Value::Awaited,
            _ => Value::Outside,
        },
        Value::Awaited => match token {
            Token::Double => Value::Double,
            Token::Single => Value::Single,
            _ => Value::Awaited,
        },
        Value::Double => match token {
            Token::Double => Value::Outside,
            _ => Value::Double,
        },
        Value::Single => match token {
            Token::Single => Value::Outside,
            _ => Value::Single,
        },
    }
}

fn move_value(value: Value, token: Token) -> (res: Value)
    ensures
        res == value_after(value, token),
{
    match value {
        Value::Outside => match token {
            Token::Equals => Value::Awaited,
            _ => Value::Outside,
        },
        Value::Awaited => match token {
            Token::Double => Value::Double,
            Token::Single => Value::Single,
            _ => Value::Awaited,
        },
        Value::Double => match token {
            Token::Double => Value::Outside,
            _ => Value::Double,
        },
        Value::Single => match token {
            Token::Single => Value::Outside,
            _ => Value::Single,
        },
    }
}

/// How far the name of a processing instruction spells `xml`: 3 when it does,
/// 4 when it cannot any more.
pub open spec fn name_after(seen: u8, c: char) -> u8 {
    if seen == 0 && c == 'x' {
        1
    } else if seen == 1 && c == 'm' {
        2
    } else if seen == 2 && c == 'l' {
        3
    } else {
        4
    }
}

fn move_name(seen: u8, c: char) -> (res: u8)
    ensures
        res == name_after(seen, c),
{
    if seen == 0 && c == 'x' {
        1
    } else if seen == 1 && c == 'm' {
        2
    } else if seen == 2 && c == 'l' {
        3
    } else {
        4
    }
}

/// The scanner after a start tag has ended: one element more is open.
pub open spec fn with_open(s: Scanner) -> Scanner {
    let depth: usize = if s.depth < usize::MAX {
        (s.depth + 1) as usize
    } else {
        s.depth
    };
    let peak: usize = if depth > s.peak {
        depth
    } else {
        s.peak
    };
    Scanner { lexing: s.lexing, context: Context::Text, prolog: s.prolog, depth, peak }
}

fn open_element(s: Scanner) -> (res: Scanner)
    ensures
        res == with_open(s),
{
    let depth: usize = if s.depth < usize::MAX {
        (s.depth + 1) as usize
    } else {
        s.depth
    };
    let peak: usize = if depth > s.peak {
        depth
    } else {
        s.peak
    };
    Scanner { lexing: s.lexing, context: Context::Text, prolog: s.prolog, depth, peak }
}

/// The scanner after an element has ended.
pub open spec fn with_close(s: Scanner) -> Scanner {
    let depth: usize = if s.depth > 0 {
        (s.depth - 1) as usize
    } else {
        0
    };
    Scanner { lexing: s.lexing, context: Context::Text, prolog: s.prolog, depth, peak: s.peak }
}

fn close_element(s: Scanner) -> (res: Scanner)
    ensures
        res == with_close(s),
{
    let depth: usize = if s.depth > 0 {
        (s.depth - 1) as usize
    } else {
        0
    };
    Scanner { lexing: s.lexing, context: Context::Text, prolog: s.prolog, depth, peak: s.peak }
}

/// The scanner in another context.
pub open spec fn in_context(s: Scanner, context: Context) -> Scanner {
    Scanner { lexing: s.lexing, context, prolog: s.prolog, depth: s.depth, peak: s.peak }
}

fn enter(s: Scanner, context: Context) -> (res: Scanner)
    ensures
        res == in_context(s, context),
{
    Scanner { lexing: s.lexing, context, prolog: s.prolog, depth: s.depth, peak: s.peak }
}

/// What a token does to the scanner: which context follows, and whether an
/// element opens or ends.
pub open spec fn applied(s: Scanner, token: Token) -> Scanner {
    match s.context {
        Context::Text => match token {
            Token::Open => Scanner {
                lexing: s.lexing,
                context: Context::Tag(Value::Outside),
                prolog: false,
                depth: s.depth,
                peak: s.peak,
            },
            Token::Close => in_context(s, Context::ClosingTag),
            Token::CommentStart => in_context(s, Context::Comment),
            Token::CDataStart => in_context(s, Context::CData),
            Token::PiStart => in_context(s, Context::PiName(0)),
            Token::DoctypeStart => in_context(s, Context::Doctype),
            _ => s,
        },
        Context::Tag(value) => match value {
            Value::Outside => match token {
                Token::TagEnd => with_open(s),
                Token::EmptyTagEnd => with_close(with_open(s)),
                _ => in_context(s, Context::Tag(value_after(value, token))),
            },
            _ => in_context(s, Context::Tag(value_after(value, token))),
        },
        Context::ClosingTag => match token {
            Token::TagEnd => with_close(s),
            _ => s,
        },
        Context::Comment => match token {
            Token::CommentEnd => in_context(s, Context::Text),
            _ => s,
        },
        Context::CData => match token {
            Token::CDataEnd => in_context(s, Context::Text),
            _ => s,
        },
        Context::PiName(seen) => match token {
            Token::Char(c) => in_context(s, Context::PiName(name_after(seen, c))),
            Token::PiEnd => in_context(s, Context::Text),
            Token::Space => if seen == 3 && s.prolog {
                in_context(s, Context::Declaration(Value::Outside))
            } else {
                in_context(s, Context::PiData)
            },
            _ => s,
        },
        Context::PiData => match token {
            Token::PiEnd => in_context(s, Context::Text),
            _ => s,
        },
        Context::Declaration(value) => match value {
            Value::Outside => match token {
                Token::PiEnd => Scanner {
                    lexing: s.lexing,
                    context: Context::Text,
                    prolog: false,
                    depth: s.depth,
                    peak: s.peak,
                },
                _ => in_context(s, Context::Declaration(value_after(value, token))),
            },
            _ => in_context(s, Context::Declaration(value_after(value, token))),
        },
        Context::Doctype => match token {
            Token::TagEnd => in_context(s, Context::Text),
            _ => s,
        },
    }
}

fn apply(s: Scanner, token: Token) -> (res: Scanner)
    ensures
        res == applied(s, token),
{
    match s.context {
        Context::Text => match token {
            Token::Open => Scanner {
                lexing: s.lexing,
                context: Context::Tag(Value::Outside),
                prolog: false,
                depth: s.depth,
                peak: s.peak,
            },
            Token::Close => enter(s, Context::ClosingTag),
            Token::CommentStart => enter(s, Context::Comment),
            Token::CDataStart => enter(s, Context::CData),
            Token::PiStart => enter(s, Context::PiName(0)),
            Token::DoctypeStart => enter(s, Context::Doctype),
            _ => s,
        },
        Context::Tag(value) => match value {
            Value::Outside => match token {
                Token::TagEnd => open_element(s),
                Token::EmptyTagEnd => close_element(open_element(s)),
                _ => enter(s, Context::Tag(move_value(value, token))),
            },
            _ => enter(s, Context::Tag(move_value(value, token))),
        },
        Context::ClosingTag => match token {
            Token::TagEnd => close_element(s),
            _ => s,
        },
        Context::Comment => match token {
            Token::CommentEnd => enter(s, Context::Text),
            _ => s,
        },
        Context::CData => match token {
            Token::CDataEnd => enter(s, Context::Text),
            _ => s,
        },
        Context::PiName(seen) => match token {
            Token::Char(c) => enter(s, Context::PiName(move_name(seen, c))),
            Token::PiEnd => enter(s, Context::Text),
            Token::Space => if seen == 3 && s.prolog {
                enter(s, Context::Declaration(Value::Outside))
            } else {
                enter(s, Context::PiData)
            },
            _ => s,
        },
        Context::PiData => match token {
            Token::PiEnd => enter(s, Context::Text),
            _ => s,
        },
        Context::Declaration(value) => match value {
            Value::Outside => match token {
                Token::PiEnd => Scanner {
                    lexing: s.lexing,
                    context: Context::Text,
                    prolog: false,
                    depth: s.depth,
                    peak: s.peak,
                },
                _ => enter(s, Context::Declaration(move_value(value, token))),
            },
            _ => enter(s, Context::Declaration(move_value(value, token))),
        },
        Context::Doctype => match token {
            Token::TagEnd => enter(s, Context::Text),
            _ => s,
        },
    }
}

/// The scanner with the lexer in another state.
pub open spec fn in_lexing(s: Scanner, lexing: Lexing) -> Scanner {
    Scanner { lexing, context: s.context, prolog: s.prolog, depth: s.depth, peak: s.peak }
}

fn relex(s: Scanner, lexing: Lexing) -> (res: Scanner)
    ensures
        res == in_lexing(s, lexing),
{
    Scanner { lexing, context: s.context, prolog: s.prolog, depth: s.depth, peak: s.peak }
}

/// The scanner after one more character. A character that ends one token and
/// begins the next is read twice, as the reader's lexer does.
pub open spec fn stepped(s: Scanner, c: char) -> Scanner {
    let first = lexed(s.lexing, c);
    let after = applied(s, first.token);
    match first.again {
        Again::No => in_lexing(after, first.lexing),
        Again::Char => {
            let second = lexed_normal(c);
            in_lexing(applied(after, second.token), second.lexing)
        },
        Again::BracketChar => {
            if c == ']' {
                in_lexing(after, Lexing::CDataClosing2)
            } else {
                let second = lexed_normal(c);
                in_lexing(applied(applied(after, Token::Char(']')), second.token), second.lexing)
            }
        },
    }
}

fn step(s: Scanner, c: char) -> (res: Scanner)
    ensures
        res == stepped(s, c),
{
    let first = lex(s.lexing, c);
    let after = apply(s, first.token);
    match first.again {
        Again::No => relex(after, first.lexing),
        Again::Char => {
            let second = lex_normal(c);
            relex(apply(after, second.token), second.lexing)
        },
        Again::BracketChar => {
            if c == ']' {
                relex(after, Lexing::CDataClosing2)
            } else {
                let second = lex_normal(c);
                relex(apply(apply(after, Token::Char(']')), second.token), second.lexing)
            }
        },
    }
}

/// The scanner before the first character.
pub open spec fn scanner_at_start() -> Scanner {
    Scanner {
        lexing: Lexing::Normal,
        context: Context::Text,
        prolog: true,
        depth: 0,
        peak: 0,
    }
}

/// The scanner after the first `upto` characters of `xml`.
pub open spec fn scanned(xml: Seq<char>, upto: int) -> Scanner
    decreases upto,
{
    if upto <= 0 {
        scanner_at_start()
    } else {
        stepped(scanned(xml, upto - 1), xml[upto - 1])
    }
}

/// The deepest nesting of elements in `xml`: the largest number of elements
/// that are open at one time.
pub open spec fn nesting_bound(xml: Seq<char>) -> nat {
    scanned(xml, xml.len() as int).peak as nat
}

/// Computes the deepest nesting of elements in `xml`.
pub fn nesting_depth(xml: &str) -> (depth: usize)
    ensures
        depth == nesting_bound(xml@),
{
    let mut s = Scanner {
        lexing: Lexing::Normal,
        context: Context::Text,
        prolog: true,
        depth: 0,
        peak: 0,
    };
    let ghost t = xml@;
    let ghost mut at: int = 0;
    for c in it: xml.chars()
        invariant
            t == xml@,
            it.seq() == t,
            at == it.index(),
            0 <= at <= t.len(),
            s == scanned(t, at),
    {
        s = step(s, c);
        proof {
            at = at + 1;
        }
    }
    s.peak
}

/// Decides whether the elements of `xml` are nested no deeper than `limit`.
pub fn nesting_within(xml: &str, limit: usize) -> (res: bool)
    ensures
        res == (nesting_bound(xml@) <= limit),
{
    nesting_depth(xml) <= limit
}

} // verus!
