use vstd::prelude::*;
use crate::emphasis::State;
use crate::table::{alignment_of, Alignment};
use crate::text::{first_not, first_of, line_start};
use crate::token::{token, Token, TokenType};
use crate::wrapper::List;

verus! {

/// What a matcher makes of the construct that starts at some index: the
/// tokens it appends, and the index at which scanning goes on.
pub struct Scan {
    pub tokens: Seq<Token>,
    pub next: int,
}

/// One token, with scanning going on at `next`.
pub open spec fn one(id: TokenType, begin: int, end: int, next: int) -> Scan {
    Scan { tokens: seq![token(id, begin, end)], next }
}

/// Two tokens, with scanning going on at `next`.
pub open spec fn two(first: Token, second: Token, next: int) -> Scan {
    Scan { tokens: seq![first, second], next }
}

/// The character at `i` alone as text.
pub open spec fn literal(i: int) -> Scan {
    one(TokenType::Text, i, i + 1, i + 1)
}

/// A heading is a run of hashes at the start of a line, followed by a space.
/// The run is one token, an error where it is longer than six; the space is
/// another. A run that ends otherwise is text, together with the character
/// that ended it; so is a hash that does not start a line.
pub open spec fn heading(s: Seq<char>, i: int) -> Scan {
    let e = first_not(s, i + 1, '#');
    if !line_start(s, i) {
        literal(i)
    } else if e >= s.len() {
        one(TokenType::Text, i, s.len() as int, s.len() as int)
    } else if s[e] == ' ' {
        two(
            token(
                if e - i > 6 {
                    TokenType::Error
                } else {
                    TokenType::Heading
                },
                i,
                e,
            ),
            token(TokenType::Space, e, e + 1),
            e + 1,
        )
    } else {
        one(TokenType::Text, i, e + 1, e + 1)
    }
}

/// Whether a dash at `i` is followed by a space, a box that holds `mark`, and
/// another space.
pub open spec fn checkbox_at(s: Seq<char>, i: int, mark: char) -> bool {
    &&& i + 6 <= s.len()
    &&& s[i + 1] == ' '
    &&& s[i + 2] == '['
    &&& s[i + 3] == mark
    &&& s[i + 4] == ']'
    &&& s[i + 5] == ' '
}

/// A check button is a dash with an empty or a crossed box, one token over
/// all six characters; any other dash is text.
pub open spec fn checkbutton(s: Seq<char>, i: int) -> Scan {
    if checkbox_at(s, i, ' ') {
        one(TokenType::Checkbutton(false), i, i + 6, i + 6)
    } else if checkbox_at(s, i, 'x') {
        one(TokenType::Checkbutton(true), i, i + 6, i + 6)
    } else {
        literal(i)
    }
}

/// What follows the opening bracket of an image or a link, whose construct
/// began at `i` and whose bracketed text begins at `inner`: the text up to
/// the closing bracket, and the target in parentheses right after it. A
/// newline before either closing delimiter is an error; the end of the
/// document before it leaves the rest as text; a closing bracket that no
/// parenthesis follows makes text of the brackets.
pub open spec fn bracketed(s: Seq<char>, i: int, inner: int, image: bool) -> Scan {
    let n = s.len() as int;
    let j = first_of(s, inner, ']', '\n');
    let k = first_of(s, j + 2, ')', '\n');
    if j >= n {
        one(TokenType::Text, i, n, n)
    } else if s[j] == '\n' {
        two(token(TokenType::Error, i, j), token(TokenType::Newline, j, j + 1), j + 1)
    } else if j + 1 >= n {
        one(TokenType::Text, i, n, n)
    } else if s[j + 1] != '(' {
        one(TokenType::Text, i, j + 1, j + 1)
    } else if k >= n {
        one(TokenType::Text, i, n, n)
    } else if s[k] == '\n' {
        two(token(TokenType::Error, i, k), token(TokenType::Newline, k, k + 1), k + 1)
    } else if image {
        two(token(TokenType::ImageAlt, inner, j), token(TokenType::ImageSrc, j + 2, k), k + 1)
    } else {
        two(token(TokenType::LinkHref, j + 2, k), token(TokenType::LinkText, inner, j), k + 1)
    }
}

/// An image is an exclamation mark, the alternative text in brackets and the
/// source in parentheses; an exclamation mark that no bracket follows is text.
pub open spec fn image(s: Seq<char>, i: int) -> Scan {
    if i + 1 < s.len() && s[i + 1] == '[' {
        bracketed(s, i, i + 2, true)
    } else {
        literal(i)
    }
}

/// A link is its text in brackets and its target in parentheses. The target's
/// token comes first in the stream.
pub open spec fn link(s: Seq<char>, i: int) -> Scan {
    bracketed(s, i, i + 1, false)
}

/// A horizontal rule is three dashes and a newline at the start of a line:
/// one token over the four characters. Elsewhere in a line the dashes are
/// text and the newline a token of its own; dashes that end otherwise are
/// text, together with the character that ended them.
pub open spec fn horizontalrule(s: Seq<char>, i: int) -> Scan {
    let n = s.len() as int;
    if !(i + 1 < n && s[i + 1] == '-') {
        literal(i)
    } else if i + 2 >= n {
        one(TokenType::Text, i, i + 2, i + 2)
    } else if s[i + 2] != '-' || i + 3 >= n {
        one(TokenType::Text, i, i + 3, i + 3)
    } else if s[i + 3] != '\n' {
        one(TokenType::Text, i, i + 4, i + 4)
    } else if line_start(s, i) {
        one(TokenType::HorizontalRule, i, i + 4, i + 4)
    } else {
        two(token(TokenType::Text, i, i + 3), token(TokenType::Newline, i + 3, i + 4), i + 4)
    }
}

/// Inline code is what stands between a backtick and the next one. Without
/// a closing backtick the rest of the document is text; a backtick right
/// after another is text.
pub open spec fn code(s: Seq<char>, i: int) -> Scan {
    let n = s.len() as int;
    let j = first_of(s, i + 1, '`', '`');
    if 0 < i <= n && s[i - 1] == '`' {
        literal(i)
    } else if j >= n {
        one(TokenType::Text, i, n, n)
    } else {
        one(TokenType::Code, i + 1, j, j + 1)
    }
}

/// Whether the delimiter at `i` stands twice.
pub open spec fn doubled(s: Seq<char>, i: int) -> bool {
    i + 1 < s.len() && s[i + 1] == s[i]
}

/// The emphasis state after the delimiter at `i`: two asterisks toggle bold,
/// one toggles italic, two tildes toggle strike-through, two underscores
/// toggle underline.
pub open spec fn toggled(state: State, s: Seq<char>, i: int) -> State {
    if s[i] == '*' {
        if doubled(s, i) {
            State { bold: !state.bold, ..state }
        } else {
            State { italic: !state.italic, ..state }
        }
    } else if !doubled(s, i) {
        state
    } else if s[i] == '~' {
        State { strike: !state.strike, ..state }
    } else {
        State { underline: !state.underline, ..state }
    }
}

/// The token of the delimiter at `i`: the begin token of its kind of emphasis
/// where that is closed, the end token where it is open; text for a single
/// tilde or underscore.
pub open spec fn delimiter(state: State, s: Seq<char>, i: int) -> Scan {
    if s[i] == '*' {
        if doubled(s, i) {
            one(
                if state.bold {
                    TokenType::BoldEnd
                } else {
                    TokenType::BoldBegin
                },
                i,
                i + 2,
                i + 2,
            )
        } else {
            one(
                if state.italic {
                    TokenType::ItalicEnd
                } else {
                    TokenType::ItalicBegin
                },
                i,
                i + 1,
                i + 1,
            )
        }
    } else if !doubled(s, i) {
        literal(i)
    } else if s[i] == '~' {
        one(
            if state.strike {
                TokenType::StrikeEnd
            } else {
                TokenType::StrikeBegin
            },
            i,
            i + 2,
            i + 2,
        )
    } else {
        one(
            if state.underline {
                TokenType::UnderlineEnd
            } else {
                TokenType::UnderlineBegin
            },
            i,
            i + 2,
            i + 2,
        )
    }
}

/// What a matcher that follows emphasis makes of a construct: the tokens, the
/// index at which scanning goes on, and the emphasis state it leaves.
pub struct Marked {
    pub tokens: Seq<Token>,
    pub next: int,
    pub state: State,
}

/// `m` with `tokens` in front of its tokens.
pub open spec fn after(tokens: Seq<Token>, m: Marked) -> Marked {
    Marked { tokens: tokens + m.tokens, ..m }
}

/// Whether `ch` is a delimiter of emphasis.
pub open spec fn is_delimiter(ch: char) -> bool {
    ch == '*' || ch == '~' || ch == '_'
}

/// The index after the delimiter at `p`.
pub open spec fn past_delimiter(s: Seq<char>, p: int) -> int {
    if doubled(s, p) {
        p + 2
    } else {
        p + 1
    }
}

/// The inside of a block quote that began at `i`, read from `p` on. A blank
/// line ends the quote, with an end token from `i` to the second newline,
/// which is left unread. So does the end of the document, with an end token
/// from `i` to the end. A single newline is passed over; delimiters of
/// emphasis toggle the state they are given; every other character is text.
pub open spec fn quoted(state: State, s: Seq<char>, i: int, p: int) -> Marked
    decreases s.len() - p,
{
    let n = s.len() as int;
    if p < 0 || p >= n {
        Marked { tokens: seq![token(TokenType::BlockquoteEnd, i, n)], next: n, state }
    } else if s[p] == '\n' {
        if p + 1 < n && s[p + 1] == '\n' {
            Marked { tokens: seq![token(TokenType::BlockquoteEnd, i, p + 1)], next: p + 1, state }
        } else {
            quoted(state, s, i, p + 1)
        }
    } else if is_delimiter(s[p]) {
        after(
            delimiter(state, s, p).tokens,
            quoted(toggled(state, s, p), s, i, past_delimiter(s, p)),
        )
    } else {
        after(seq![token(TokenType::Text, p, p + 1)], quoted(state, s, i, p + 1))
    }
}

/// A block quote starts with a greater-than sign at the start of a line: a
/// begin token, then what `quoted` makes of the rest. Elsewhere the sign is
/// text.
pub open spec fn blockquote(state: State, s: Seq<char>, i: int) -> Marked {
    if line_start(s, i) {
        after(seq![token(TokenType::BlockquoteBegin, i, i + 1)], quoted(state, s, i, i + 1))
    } else {
        Marked { tokens: seq![token(TokenType::Text, i, i + 1)], next: i + 1, state }
    }
}

/// Whether a closing fence stands at `p`: three backticks and a newline.
pub open spec fn fence_at(s: Seq<char>, p: int) -> bool {
    &&& 0 <= p
    &&& p + 4 <= s.len()
    &&& s[p] == '`'
    &&& s[p + 1] == '`'
    &&& s[p + 2] == '`'
    &&& s[p + 3] == '\n'
}

/// The index of the first closing fence at or after `from`; the length of
/// `s` where there is none.
pub open spec fn first_fence(s: Seq<char>, from: int) -> int
    decreases s.len() - from,
{
    if from < 0 || from >= s.len() {
        s.len() as int
    } else if fence_at(s, from) {
        from
    } else {
        first_fence(s, from + 1)
    }
}

/// A fenced code block starts with three backticks at the start of a line.
/// They are the begin token; the rest of the line, newline included, is the
/// language; the end token covers the body, from there to the first closing
/// fence; the fence's newline is a token of its own. Where the language line
/// or the closing fence is missing, the block from its first backtick to the
/// end of the document is text, after the tokens found so far. One or two
/// backticks are text, with the character that follows two.
pub open spec fn codeblock(s: Seq<char>, i: int) -> Scan {
    let n = s.len() as int;
    let begin = token(TokenType::CodeBlockBegin, i, i + 3);
    let rest = token(TokenType::Text, i, n);
    let body = first_of(s, i + 3, '\n', '\n') + 1;
    let language = token(TokenType::CodeBlockLanguage, i + 3, body);
    let fence = first_fence(s, body);
    if !line_start(s, i) || !(i + 1 < n && s[i + 1] == '`') {
        literal(i)
    } else if i + 2 >= n {
        one(TokenType::Text, i, i + 2, i + 2)
    } else if s[i + 2] != '`' {
        one(TokenType::Text, i, i + 3, i + 3)
    } else if body > n {
        Scan { tokens: seq![begin, rest], next: n }
    } else if fence >= n {
        Scan { tokens: seq![begin, language, rest], next: n }
    } else {
        Scan {
            tokens: seq![
                begin,
                language,
                token(TokenType::CodeBlockEnd, body, fence),
                token(TokenType::Newline, fence + 3, fence + 4),
            ],
            next: fence + 4,
        }
    }
}

/// Whether four spaces stand at `p`.
pub open spec fn indent_at(s: Seq<char>, p: int) -> bool {
    &&& 0 <= p
    &&& p + 4 <= s.len()
    &&& s[p] == ' '
    &&& s[p + 1] == ' '
    &&& s[p + 2] == ' '
    &&& s[p + 3] == ' '
}

/// The index of the newline that ends an indented block whose current line
/// is read from `p` on: the first newline that no four spaces follow. It is
/// the length of `s` where the document ends inside a line.
pub open spec fn indent_end(s: Seq<char>, p: int) -> int
    decreases s.len() - p,
{
    let j = first_of(s, p, '\n', '\n');
    if p < 0 || j >= s.len() {
        s.len() as int
    } else if p <= j && indent_at(s, j + 1) {
        indent_end(s, j + 5)
    } else {
        j
    }
}

/// An indented block starts with four spaces and goes on over every line
/// that starts with four spaces; it is one token from its first space to the
/// newline of its last line. A block that the end of the document cuts off
/// inside a line is text; so is a space that no three spaces follow.
pub open spec fn indentblock(s: Seq<char>, i: int) -> Scan {
    let n = s.len() as int;
    let end = indent_end(s, i + 4);
    if !indent_at(s, i) {
        literal(i)
    } else if end >= n {
        one(TokenType::Text, i, n, n)
    } else {
        one(TokenType::IndentBlock, i, end, end + 1)
    }
}

/// How many characters of `query`, from its index `k` on, stand in `s` from
/// `p` on, up to the first that differs.
pub open spec fn common_prefix(s: Seq<char>, p: int, query: Seq<char>, k: int) -> int
    decreases query.len() - k,
{
    if k < 0 || k >= query.len() || p < 0 || p >= s.len() || s[p] != query[k] {
        0
    } else {
        1 + common_prefix(s, p + 1, query, k + 1)
    }
}

/// What reading one cell of a separator row gives. For a well-formed cell
/// `end` is the index of its closing pipe; for another it is the index of
/// the first character that is not what the cell needs there.
pub struct Cell {
    pub ok: bool,
    pub alignment: Alignment,
    pub end: int,
}

/// A cell that the character at `at` spoils.
pub open spec fn bad_cell(at: int) -> Cell {
    Cell { ok: false, alignment: Alignment::Left, end: at }
}

/// The cell that starts at `p`, right after a pipe: a space, an optional
/// colon, one dash or more, an optional colon, a space and the closing pipe.
pub open spec fn cell(s: Seq<char>, p: int) -> Cell {
    let n = s.len() as int;
    let leading = p + 1 < n && s[p + 1] == ':';
    let dashes = if leading {
        p + 2
    } else {
        p + 1
    };
    let e = first_not(s, dashes, '-');
    let trailing = e < n && s[e] == ':';
    let q = if trailing {
        e + 1
    } else {
        e
    };
    if p < 0 || p >= n {
        bad_cell(n)
    } else if s[p] != ' ' {
        bad_cell(p)
    } else if dashes >= n {
        bad_cell(n)
    } else if s[dashes] != '-' {
        bad_cell(dashes)
    } else if q >= n {
        bad_cell(n)
    } else if s[q] != ' ' {
        bad_cell(q)
    } else if q + 1 >= n {
        bad_cell(n)
    } else if s[q + 1] != '|' {
        bad_cell(q + 1)
    } else {
        Cell { ok: true, alignment: alignment_of(leading, trailing), end: q + 1 }
    }
}

/// What reading a separator row gives. For a well-formed row `columns` holds
/// one token for each cell, in the order of the columns, and `end` is the
/// index after the row's newline; for another `end` is the index of the
/// first character that is not what the row needs there.
pub struct Row {
    pub ok: bool,
    pub columns: Seq<Token>,
    pub end: int,
}

/// The cells of a separator row from `p` on, right after a pipe, `columns`
/// being those read before. Each cell is a token over the cell without its
/// pipes; a newline after a closing pipe ends the row.
pub open spec fn row(s: Seq<char>, p: int, columns: Seq<Token>) -> Row
    decreases s.len() - p,
{
    let c = cell(s, p);
    let found = columns.push(token(TokenType::TableColumn(c.alignment), p, c.end));
    if !c.ok {
        Row { ok: false, columns, end: c.end }
    } else if c.end + 1 < s.len() && s[c.end + 1] == '\n' {
        Row { ok: true, columns: found, end: c.end + 2 }
    } else if p <= c.end < s.len() {
        row(s, c.end + 1, found)
    } else {
        Row { ok: false, columns, end: c.end }
    }
}

/// The separator row whose first pipe stands at `i`.
pub open spec fn separator(s: Seq<char>, i: int) -> Row {
    row(s, i + 1, Seq::empty())
}

/// The index after the character that spoiled a separator row; the length
/// of `s` where the document ended too early.
pub open spec fn spoiled(s: Seq<char>, r: Row) -> int {
    if r.end < s.len() {
        r.end + 1
    } else {
        s.len() as int
    }
}

/// One token for each open list level, the level opened last first: each of
/// the kind that closes its level, over the character at `at`.
pub open spec fn closers(levels: Seq<List>, at: int) -> Seq<Token> {
    Seq::new(levels.len(), |k: int| token(levels[levels.len() - 1 - k].0, at, at + 1))
}

/// The lines of a list, read from `p` on with the levels `levels` open. A
/// blank line closes every open level, the last one first, and ends the
/// list; its second newline is left unread. A newline at the very end of
/// the document is a token; any other newline is passed over. Delimiters of
/// emphasis and links are matched as elsewhere; every other character is
/// text.
pub open spec fn listed(state: State, s: Seq<char>, levels: Seq<List>, p: int) -> Marked
    decreases s.len() - p,
{
    let n = s.len() as int;
    if p < 0 || p >= n {
        Marked { tokens: Seq::empty(), next: n, state }
    } else if s[p] == '\n' {
        if p + 1 >= n {
            Marked { tokens: seq![token(TokenType::Newline, p, p + 1)], next: n, state }
        } else if s[p + 1] == '\n' {
            Marked { tokens: closers(levels, p + 1), next: p + 1, state }
        } else {
            listed(state, s, levels, p + 1)
        }
    } else if is_delimiter(s[p]) {
        after(
            delimiter(state, s, p).tokens,
            listed(toggled(state, s, p), s, levels, past_delimiter(s, p)),
        )
    } else if s[p] == '[' {
        if p < link(s, p).next <= n {
            after(link(s, p).tokens, listed(state, s, levels, link(s, p).next))
        } else {
            Marked { tokens: link(s, p).tokens, next: n, state }
        }
    } else {
        after(seq![token(TokenType::Text, p, p + 1)], listed(state, s, levels, p + 1))
    }
}

/// The smaller of `end` and the length of `s`: where a range is cut that
/// would reach past the document.
pub open spec fn cut(s: Seq<char>, end: int) -> int {
    if end <= s.len() {
        end
    } else {
        s.len() as int
    }
}

/// A list whose marker stands at `i`: a begin token over the two characters
/// after the marker, the character after the marker read, an item token at
/// the first character of the item, then the lines of the list with one
/// level open and no emphasis. The two tokens are cut at the end of the
/// document.
pub open spec fn list(s: Seq<char>, i: int) -> Scan {
    let first = cut(s, i + 2);
    let lines = listed(State::closed(), s, seq![List(TokenType::ListEnd, 0)], first);
    Scan {
        tokens: seq![
            token(TokenType::ListBegin, i + 1, cut(s, i + 3)),
            token(TokenType::ListItemBegin, first, cut(s, first + 1)),
        ] + lines.tokens,
        next: lines.next,
    }
}

/// What follows an opening bracket is read to an index after it and within
/// the document.
pub proof fn lemma_bracketed_advances(s: Seq<char>, i: int, inner: int, image: bool)
    requires
        0 <= i < inner <= s.len(),
    ensures
        inner <= bracketed(s, i, inner, image).next <= s.len(),
        bracketed(s, i, inner, image).next == s.len() || inner < bracketed(s, i, inner, image).next,
{
    let j = first_of(s, inner, ']', '\n');
    crate::text::lemma_first_of(s, inner, ']', '\n');
    if j + 2 <= s.len() {
        crate::text::lemma_first_of(s, j + 2, ')', '\n');
    }
}

} // verus!
