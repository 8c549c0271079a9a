use vstd::prelude::*;
use crate::table::Alignment;

verus! {

/// The kinds of token. A kind without a payload that stands for text
/// (`Text`, `Code`, `ImageAlt`, ...) means the slice of the document that the
/// token's range covers; a `Heading` carries its level as the length of its
/// range.
#[derive(Debug, PartialEq, Eq, Clone, Copy, Structural)]
pub enum TokenType {
    Newline,
    Tab,
    Space,
    Heading,
    Hash,
    Text,
    Error,
    Escape,
    Whitespace(char),
    Checkbutton(bool),
    ImageAlt,
    ImageSrc,
    LinkText,
    LinkHref,
    HorizontalRule,
    BlockquoteBegin,
    BlockquoteEnd,
    Code,
    CodeBlockBegin,
    CodeBlockLanguage,
    CodeBlockEnd,
    IndentBlock,
    ItalicBegin,
    ItalicEnd,
    BoldBegin,
    BoldEnd,
    StrikeBegin,
    StrikeEnd,
    UnderlineBegin,
    UnderlineEnd,
    TableColumn(Alignment),
    ListBegin,
    ListEnd,
    ListItemBegin,
}

/// A classified half-open range `[begin, end)` of character indices.
#[derive(Debug, PartialEq, Eq, Clone, Copy, Structural)]
pub struct Token {
    pub id: TokenType,
    pub begin: usize,
    pub end: usize,
}

/// The token of kind `id` over `[begin, end)`.
pub open spec fn token(id: TokenType, begin: int, end: int) -> Token {
    Token { id, begin: begin as usize, end: end as usize }
}

impl Token {
    /// A token of kind `id` over `[begin, end)`.
    pub fn new(id: TokenType, begin: usize, end: usize) -> (t: Token)
        ensures
            t == token(id, begin as int, end as int),
    {
        Token { id, begin, end }
    }

    /// A token over the one character at `begin`.
    pub fn new_single(id: TokenType, begin: usize) -> (t: Token)
        requires
            begin < usize::MAX,
        ensures
            t == token(id, begin as int, begin + 1),
    {
        Token { id, begin, end: begin + 1 }
    }

    /// A token over the two characters from `begin`.
    pub fn new_double(id: TokenType, begin: usize) -> (t: Token)
        requires
            begin < usize::MAX - 1,
        ensures
            t == token(id, begin as int, begin + 2),
    {
        Token { id, begin, end: begin + 2 }
    }

    /// The number of characters in the token's range.
    pub open spec fn span(&self) -> int {
        self.end - self.begin
    }
}

} // verus!
