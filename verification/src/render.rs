use vstd::prelude::*;
use vstd::string::StringExecFns;
use crate::text::{push_slice, slice, to_chars};
use crate::token::{Token, TokenType};

verus! {

/// What rendering one token, with the tokens it takes along, produces: the
/// fragments, and the index of the token at which rendering goes on.
pub struct Piece {
    pub fragments: Seq<Seq<char>>,
    pub next: int,
}

/// The fragments as sequences of characters.
pub open spec fn views(html: Seq<String>) -> Seq<Seq<char>> {
    html.map_values(|s: String| s@)
}

/// The text that a token covers.
pub open spec fn text_of(text: Seq<char>, t: Token) -> Seq<char> {
    slice(text, t.begin as int, t.end as int)
}

/// The numeral of the digit `d`.
pub open spec fn digit(d: int) -> char {
    if d == 0 {
        '0'
    } else if d == 1 {
        '1'
    } else if d == 2 {
        '2'
    } else if d == 3 {
        '3'
    } else if d == 4 {
        '4'
    } else if d == 5 {
        '5'
    } else if d == 6 {
        '6'
    } else if d == 7 {
        '7'
    } else if d == 8 {
        '8'
    } else {
        '9'
    }
}

/// The decimal numeral of `n`, without leading zeros.
pub open spec fn decimal(n: nat) -> Seq<char>
    decreases n,
{
    if n < 10 {
        seq![digit(n as int)]
    } else {
        decimal(n / 10).push(digit((n % 10) as int))
    }
}

/// The level of a heading token: the length of its range.
pub open spec fn level(t: Token) -> nat {
    if t.end >= t.begin {
        (t.end - t.begin) as nat
    } else {
        0
    }
}

/// `k + 1` where the token at `k` is a newline, else `k`: a newline right
/// after a block belongs to the block.
pub open spec fn after_newline(tokens: Seq<Token>, k: int) -> int {
    if 0 <= k < tokens.len() && tokens[k].id == TokenType::Newline {
        k + 1
    } else {
        k
    }
}

/// The first index at or after `from` whose token is neither text nor a
/// space; the number of tokens where there is none.
pub open spec fn words_end(tokens: Seq<Token>, from: int) -> int
    decreases tokens.len() - from,
{
    if from < 0 || from >= tokens.len() {
        tokens.len() as int
    } else if tokens[from].id == TokenType::Text || tokens[from].id == TokenType::Space {
        words_end(tokens, from + 1)
    } else {
        from
    }
}

/// The first index at or after `from` whose token is not text; the number of
/// tokens where there is none.
pub open spec fn texts_end(tokens: Seq<Token>, from: int) -> int
    decreases tokens.len() - from,
{
    if from < 0 || from >= tokens.len() {
        tokens.len() as int
    } else if tokens[from].id == TokenType::Text {
        texts_end(tokens, from + 1)
    } else {
        from
    }
}

/// The characters of `s[i..end]` with the four spaces after each newline
/// taken out.
pub open spec fn unindent(s: Seq<char>, i: int, end: int) -> Seq<char>
    decreases end - i,
{
    if i < 0 || i >= end || end > s.len() {
        Seq::empty()
    } else if s[i] == '\n' && i + 5 <= end && s[i + 1] == ' ' && s[i + 2] == ' ' && s[i + 3] == ' '
        && s[i + 4] == ' ' {
        seq!['\n'] + unindent(s, i + 5, end)
    } else {
        seq![s[i]] + unindent(s, i + 1, end)
    }
}

/// A heading of level `n` around `body`, with a newline after it.
pub open spec fn heading_html(n: nat, body: Seq<char>) -> Seq<char> {
    "<h"@ + decimal(n) + ">"@ + body + "</h"@ + decimal(n) + ">\n"@
}

/// A heading takes the token after it, whose end is where the heading's text
/// begins, and the text and space tokens that follow.
pub open spec fn heading_piece(text: Seq<char>, tokens: Seq<Token>, k: int) -> Piece {
    let t = tokens[k];
    if k + 1 < tokens.len() {
        let begin = tokens[k + 1].end as int;
        let j = words_end(tokens, k + 2);
        let end = if j > k + 2 {
            tokens[j - 1].end as int
        } else {
            begin
        };
        Piece {
            fragments: seq![heading_html(level(t), slice(text, begin, end))],
            next: after_newline(tokens, j),
        }
    } else {
        Piece { fragments: seq![heading_html(level(t), Seq::empty())], next: k + 1 }
    }
}

/// An image's alternative text takes the token after it as the source.
pub open spec fn image_piece(text: Seq<char>, tokens: Seq<Token>, k: int) -> Piece {
    let alt = "<img alt=\""@ + text_of(text, tokens[k]) + "\""@;
    if k + 1 < tokens.len() {
        Piece {
            fragments: seq![alt, " src=\""@ + text_of(text, tokens[k + 1]) + "\">"@],
            next: k + 2,
        }
    } else {
        Piece { fragments: seq![alt], next: k + 1 }
    }
}

/// A link's target takes the token after it as the visible text; where that
/// text is empty the target is shown.
pub open spec fn link_piece(text: Seq<char>, tokens: Seq<Token>, k: int) -> Piece {
    let href = text_of(text, tokens[k]);
    let open = "<a href=\""@ + href + "\">"@;
    if k + 1 < tokens.len() {
        let label = text_of(text, tokens[k + 1]);
        let shown = if label.len() == 0 {
            href
        } else {
            label
        };
        Piece { fragments: seq![open, shown + "</a>"@], next: k + 2 }
    } else {
        Piece { fragments: seq![open], next: k + 1 }
    }
}

/// The text of a block quote: the range of its end token without the sign
/// that opens the quote, and without the newline that ends it where the
/// range ends with one.
pub open spec fn quote_body(text: Seq<char>, t: Token) -> Seq<char> {
    if 0 < t.end <= text.len() && text[t.end - 1] == '\n' {
        slice(text, t.begin + 1, t.end - 1)
    } else {
        slice(text, t.begin + 1, t.end as int)
    }
}

/// A block quote takes the text tokens inside it and its end token, whose
/// range holds the quoted text.
pub open spec fn blockquote_piece(text: Seq<char>, tokens: Seq<Token>, k: int) -> Piece {
    let j = texts_end(tokens, k + 1);
    if j < tokens.len() && tokens[j].id == TokenType::BlockquoteEnd {
        Piece {
            fragments: seq!["<blockquote>"@ + quote_body(text, tokens[j]) + "</blockquote>"@],
            next: after_newline(tokens, j + 1),
        }
    } else {
        Piece { fragments: Seq::empty(), next: after_newline(tokens, j) }
    }
}

/// The label of a code block: the language line without its newline, or
/// `base` where that is empty.
pub open spec fn language_label(text: Seq<char>, t: Token) -> Seq<char> {
    let tag = slice(text, t.begin as int, t.end - 1);
    if tag.len() == 0 {
        "base"@
    } else {
        tag
    }
}

/// A code block is rendered where its begin token is followed by a language
/// token and an end token; rendering stops where the stream ends before that.
pub open spec fn codeblock_piece(text: Seq<char>, tokens: Seq<Token>, k: int) -> Piece {
    let n = tokens.len() as int;
    if k + 1 >= n {
        Piece { fragments: Seq::empty(), next: n }
    } else if tokens[k + 1].id != TokenType::CodeBlockLanguage {
        Piece { fragments: Seq::empty(), next: k + 1 }
    } else if k + 2 >= n {
        Piece { fragments: Seq::empty(), next: n }
    } else if tokens[k + 2].id != TokenType::CodeBlockEnd {
        Piece { fragments: Seq::empty(), next: k + 2 }
    } else {
        Piece {
            fragments: seq![
                "<pre class=\"language-"@ + language_label(text, tokens[k + 1]) + "\">"@ + text_of(
                    text,
                    tokens[k + 2],
                ) + "</pre>"@,
            ],
            next: after_newline(tokens, k + 3),
        }
    }
}

/// An escape takes the token after it and shows its text as it stands.
pub open spec fn escape_piece(text: Seq<char>, tokens: Seq<Token>, k: int) -> Piece {
    if k + 1 < tokens.len() {
        Piece { fragments: seq![text_of(text, tokens[k + 1])], next: k + 2 }
    } else {
        Piece { fragments: Seq::empty(), next: k + 1 }
    }
}

/// The body of an indented block: its range without the first line's
/// indentation, and without that of every further line.
pub open spec fn indent_body(text: Seq<char>, t: Token) -> Seq<char> {
    unindent(text, t.begin + 4, t.end as int)
}

/// The fragment of a token that is rendered by itself, if it has one.
pub open spec fn plain_fragment(text: Seq<char>, t: Token) -> Option<Seq<char>> {
    match t.id {
        TokenType::Checkbutton(checked) => Some(
            if checked {
                "<input type=\"checkbox\" checked>"@
            } else {
                "<input type=\"checkbox\">"@
            },
        ),
        TokenType::HorizontalRule => Some("<hr>\n"@),
        TokenType::Code => Some("<code>"@ + text_of(text, t) + "</code>"@),
        TokenType::IndentBlock => Some("<pre>"@ + indent_body(text, t) + "</pre>"@),
        TokenType::ItalicBegin => Some("<i>"@),
        TokenType::ItalicEnd => Some("</i>"@),
        TokenType::BoldBegin => Some("<b>"@),
        TokenType::BoldEnd => Some("</b>"@),
        TokenType::StrikeBegin => Some("<strike>"@),
        TokenType::StrikeEnd => Some("</strike>"@),
        TokenType::UnderlineBegin => Some("<u>"@),
        TokenType::UnderlineEnd => Some("</u>"@),
        TokenType::Error => Some("<div class=\"error\">ERROR: "@ + text_of(text, t) + "</div>\n"@),
        TokenType::Newline => Some("<br>\n"@),
        TokenType::Text | TokenType::Space | TokenType::Tab | TokenType::Whitespace(_) => Some(
            text_of(text, t),
        ),
        _ => None,
    }
}

/// What the token at `k` renders to, and where rendering goes on.
pub open spec fn piece(text: Seq<char>, tokens: Seq<Token>, k: int) -> Piece {
    match tokens[k].id {
        TokenType::Heading => heading_piece(text, tokens, k),
        TokenType::ImageAlt => image_piece(text, tokens, k),
        TokenType::LinkHref => link_piece(text, tokens, k),
        TokenType::BlockquoteBegin => blockquote_piece(text, tokens, k),
        TokenType::CodeBlockBegin => codeblock_piece(text, tokens, k),
        TokenType::Escape => escape_piece(text, tokens, k),
        _ => match plain_fragment(text, tokens[k]) {
            Some(f) => Piece { fragments: seq![f], next: k + 1 },
            None => Piece { fragments: Seq::empty(), next: k + 1 },
        },
    }
}

/// The fragments that the tokens from index `k` on render to.
pub open spec fn render_from(text: Seq<char>, tokens: Seq<Token>, k: int) -> Seq<Seq<char>>
    decreases tokens.len() - k,
{
    if k < 0 || k >= tokens.len() {
        Seq::empty()
    } else {
        let p = piece(text, tokens, k);
        if k < p.next <= tokens.len() {
            p.fragments + render_from(text, tokens, p.next)
        } else {
            p.fragments
        }
    }
}

/// The HTML fragments of a token stream over `text`, in order.
pub open spec fn render(text: Seq<char>, tokens: Seq<Token>) -> Seq<Seq<char>> {
    render_from(text, tokens, 0)
}

/// Appends one fragment.
fn emit(html: &mut Vec<String>, fragment: String)
    ensures
        views(final(html)@) == views(old(html)@).push(fragment@),
{
    html.push(fragment);
    assert(views(html@) =~= views(old(html)@).push(fragment@));
}

fn digit_char(d: usize) -> (c: char)
    requires
        d < 10,
    ensures
        c == digit(d as int),
{
    if d == 0 {
        '0'
    } else if d == 1 {
        '1'
    } else if d == 2 {
        '2'
    } else if d == 3 {
        '3'
    } else if d == 4 {
        '4'
    } else if d == 5 {
        '5'
    } else if d == 6 {
        '6'
    } else if d == 7 {
        '7'
    } else if d == 8 {
        '8'
    } else {
        '9'
    }
}

/// Appends the decimal numeral of `n`.
pub fn push_decimal(out: &mut String, n: usize)
    ensures
        final(out)@ == old(out)@ + decimal(n as nat),
    decreases n,
{
    if n >= 10 {
        push_decimal(out, n / 10);
    }
    out.push(digit_char(n % 10));
    assert(out@ =~= old(out)@ + decimal(n as nat));
}

/// Appends the characters of `text[begin..end]` with the four spaces after
/// each newline taken out.
pub fn push_unindented(out: &mut String, text: &Vec<char>, begin: usize, end: usize)
    ensures
        final(out)@ == old(out)@ + unindent(text@, begin as int, end as int),
{
    if begin < end && end <= text.len() {
        let mut i: usize = begin;
        while i < end
            invariant
                begin <= i <= end <= text@.len(),
                out@ + unindent(text@, i as int, end as int) == old(out)@ + unindent(
                    text@,
                    begin as int,
                    end as int,
                ),
            decreases end - i,
        {
            let ghost before = out@;
            let ghost rest = unindent(text@, i as int, end as int);
            if text[i] == '\n' && end - i >= 5 && text[i + 1] == ' ' && text[i + 2] == ' ' && text[i
                + 3] == ' ' && text[i + 4] == ' ' {
                out.push('\n');
                i = i + 5;
                assert(before.push('\n') + unindent(text@, i as int, end as int) =~= before + rest);
            } else {
                out.push(text[i]);
                i = i + 1;
                assert(before.push(text@[i - 1]) + unindent(text@, i as int, end as int) =~= before
                    + rest);
            }
        }
        assert(out@ + Seq::<char>::empty() =~= out@);
    } else {
        assert(old(out)@ + Seq::<char>::empty() =~= old(out)@);
    }
}

fn skip_newline(tokens: &Vec<Token>, k: usize) -> (next: usize)
    requires
        k <= tokens@.len(),
    ensures
        next == after_newline(tokens@, k as int),
        k <= next <= tokens@.len(),
{
    if k < tokens.len() && tokens[k].id == TokenType::Newline {
        k + 1
    } else {
        k
    }
}

fn skip_words(tokens: &Vec<Token>, from: usize) -> (j: usize)
    requires
        from <= tokens@.len(),
    ensures
        j == words_end(tokens@, from as int),
        from <= j <= tokens@.len(),
{
    let mut j: usize = from;
    while j < tokens.len() && (tokens[j].id == TokenType::Text || tokens[j].id == TokenType::Space)
        invariant
            from <= j <= tokens@.len(),
            words_end(tokens@, j as int) == words_end(tokens@, from as int),
        decreases tokens@.len() - j,
    {
        j = j + 1;
    }
    j
}

fn skip_texts(tokens: &Vec<Token>, from: usize) -> (j: usize)
    requires
        from <= tokens@.len(),
    ensures
        j == texts_end(tokens@, from as int),
        from <= j <= tokens@.len(),
{
    let mut j: usize = from;
    while j < tokens.len() && tokens[j].id == TokenType::Text
        invariant
            from <= j <= tokens@.len(),
            texts_end(tokens@, j as int) == texts_end(tokens@, from as int),
        decreases tokens@.len() - j,
    {
        j = j + 1;
    }
    j
}

fn heading_fragment(text: &Vec<char>, n: usize, begin: usize, end: usize) -> (fragment: String)
    ensures
        fragment@ == heading_html(n as nat, slice(text@, begin as int, end as int)),
{
    let mut fragment = String::from_str("<h");
    push_decimal(&mut fragment, n);
    fragment.append(">");
    push_slice(&mut fragment, text, begin, end);
    fragment.append("</h");
    push_decimal(&mut fragment, n);
    fragment.append(">\n");
    fragment
}

fn render_heading(text: &Vec<char>, tokens: &Vec<Token>, k: usize, html: &mut Vec<String>) -> (next:
    usize)
    requires
        k < tokens@.len(),
    ensures
        views(final(html)@) == views(old(html)@) + heading_piece(text@, tokens@, k as int).fragments,
        next == heading_piece(text@, tokens@, k as int).next,
        k < next <= tokens@.len(),
{
    let t = tokens[k];
    let n: usize = if t.end >= t.begin {
        t.end - t.begin
    } else {
        0
    };
    if k < tokens.len() - 1 {
        let begin: usize = tokens[k + 1].end;
        let j: usize = skip_words(tokens, k + 2);
        let end: usize = if j > k + 2 {
            tokens[j - 1].end
        } else {
            begin
        };
        emit(html, heading_fragment(text, n, begin, end));
        assert(views(html@) =~= views(old(html)@) + heading_piece(
            text@,
            tokens@,
            k as int,
        ).fragments);
        skip_newline(tokens, j)
    } else {
        let fragment = heading_fragment(text, n, 0, 0);
        assert(slice(text@, 0, 0) =~= Seq::<char>::empty());
        emit(html, fragment);
        assert(views(html@) =~= views(old(html)@) + heading_piece(
            text@,
            tokens@,
            k as int,
        ).fragments);
        k + 1
    }
}

fn render_image(text: &Vec<char>, tokens: &Vec<Token>, k: usize, html: &mut Vec<String>) -> (next:
    usize)
    requires
        k < tokens@.len(),
    ensures
        views(final(html)@) == views(old(html)@) + image_piece(text@, tokens@, k as int).fragments,
        next == image_piece(text@, tokens@, k as int).next,
        k < next <= tokens@.len(),
{
    let t = tokens[k];
    let mut alt = String::from_str("<img alt=\"");
    push_slice(&mut alt, text, t.begin, t.end);
    alt.append("\"");
    emit(html, alt);
    if k < tokens.len() - 1 {
        let u = tokens[k + 1];
        let mut src = String::from_str(" src=\"");
        push_slice(&mut src, text, u.begin, u.end);
        src.append("\">");
        emit(html, src);
        assert(views(html@) =~= views(old(html)@) + image_piece(text@, tokens@, k as int).fragments);
        k + 2
    } else {
        assert(views(html@) =~= views(old(html)@) + image_piece(text@, tokens@, k as int).fragments);
        k + 1
    }
}

fn render_link(text: &Vec<char>, tokens: &Vec<Token>, k: usize, html: &mut Vec<String>) -> (next:
    usize)
    requires
        k < tokens@.len(),
    ensures
        views(final(html)@) == views(old(html)@) + link_piece(text@, tokens@, k as int).fragments,
        next == link_piece(text@, tokens@, k as int).next,
        k < next <= tokens@.len(),
{
    let t = tokens[k];
    let mut open = String::from_str("<a href=\"");
    push_slice(&mut open, text, t.begin, t.end);
    open.append("\">");
    emit(html, open);
    if k < tokens.len() - 1 {
        let u = tokens[k + 1];
        let mut shown = String::new();
        if u.begin < u.end && u.end <= text.len() {
            push_slice(&mut shown, text, u.begin, u.end);
        } else {
            push_slice(&mut shown, text, t.begin, t.end);
        }
        shown.append("</a>");
        emit(html, shown);
        assert(views(html@) =~= views(old(html)@) + link_piece(text@, tokens@, k as int).fragments);
        k + 2
    } else {
        assert(views(html@) =~= views(old(html)@) + link_piece(text@, tokens@, k as int).fragments);
        k + 1
    }
}

fn render_blockquote(text: &Vec<char>, tokens: &Vec<Token>, k: usize, html: &mut Vec<String>) -> (next:
    usize)
    requires
        k < tokens@.len(),
    ensures
        views(final(html)@) == views(old(html)@) + blockquote_piece(
            text@,
            tokens@,
            k as int,
        ).fragments,
        next == blockquote_piece(text@, tokens@, k as int).next,
        k < next <= tokens@.len(),
{
    let n: usize = tokens.len();
    let j: usize = skip_texts(tokens, k + 1);
    if j < tokens.len() && tokens[j].id == TokenType::BlockquoteEnd {
        let u = tokens[j];
        let mut quote = String::from_str("<blockquote>");
        let end: usize = if u.end >= 1 && u.end <= text.len() && text[u.end - 1] == '\n' {
            u.end - 1
        } else {
            u.end
        };
        if u.begin < usize::MAX {
            push_slice(&mut quote, text, u.begin + 1, end);
        } else {
            assert(quote@ + Seq::<char>::empty() =~= quote@);
        }
        quote.append("</blockquote>");
        emit(html, quote);
        assert(views(html@) =~= views(old(html)@) + blockquote_piece(
            text@,
            tokens@,
            k as int,
        ).fragments);
        skip_newline(tokens, j + 1)
    } else {
        assert(views(html@) =~= views(old(html)@) + blockquote_piece(
            text@,
            tokens@,
            k as int,
        ).fragments);
        skip_newline(tokens, j)
    }
}

fn label_of(text: &Vec<char>, t: Token) -> (label: String)
    ensures
        label@ == language_label(text@, t),
{
    if t.end >= 1 && t.begin < t.end - 1 && t.end - 1 <= text.len() {
        let mut label = String::new();
        push_slice(&mut label, text, t.begin, t.end - 1);
        label
    } else {
        String::from_str("base")
    }
}

fn render_codeblock(text: &Vec<char>, tokens: &Vec<Token>, k: usize, html: &mut Vec<String>) -> (next:
    usize)
    requires
        k < tokens@.len(),
    ensures
        views(final(html)@) == views(old(html)@) + codeblock_piece(
            text@,
            tokens@,
            k as int,
        ).fragments,
        next == codeblock_piece(text@, tokens@, k as int).next,
        k < next <= tokens@.len(),
{
    let n: usize = tokens.len();
    assert(views(html@) =~= views(html@) + Seq::<Seq<char>>::empty());
    if k >= n - 1 {
        n
    } else if tokens[k + 1].id != TokenType::CodeBlockLanguage {
        k + 1
    } else if k + 1 >= n - 1 {
        n
    } else if tokens[k + 2].id != TokenType::CodeBlockEnd {
        k + 2
    } else {
        let block = tokens[k + 2];
        let label = label_of(text, tokens[k + 1]);
        let mut pre = String::from_str("<pre class=\"language-");
        pre.append(label.as_str());
        pre.append("\">");
        push_slice(&mut pre, text, block.begin, block.end);
        pre.append("</pre>");
        emit(html, pre);
        assert(views(html@) =~= views(old(html)@) + codeblock_piece(
            text@,
            tokens@,
            k as int,
        ).fragments);
        skip_newline(tokens, k + 3)
    }
}

fn render_escape(text: &Vec<char>, tokens: &Vec<Token>, k: usize, html: &mut Vec<String>) -> (next:
    usize)
    requires
        k < tokens@.len(),
    ensures
        views(final(html)@) == views(old(html)@) + escape_piece(text@, tokens@, k as int).fragments,
        next == escape_piece(text@, tokens@, k as int).next,
        k < next <= tokens@.len(),
{
    if k < tokens.len() - 1 {
        let u = tokens[k + 1];
        let mut shown = String::new();
        push_slice(&mut shown, text, u.begin, u.end);
        emit(html, shown);
        assert(views(html@) =~= views(old(html)@) + escape_piece(text@, tokens@, k as int).fragments);
        k + 2
    } else {
        assert(views(html@) =~= views(html@) + Seq::<Seq<char>>::empty());
        k + 1
    }
}

fn wrapped(open: &str, text: &Vec<char>, t: Token, close: &str) -> (fragment: String)
    ensures
        fragment@ == open@ + text_of(text@, t) + close@,
{
    let mut fragment = String::from_str(open);
    push_slice(&mut fragment, text, t.begin, t.end);
    fragment.append(close);
    fragment
}

fn render_plain(text: &Vec<char>, t: Token) -> (fragment: Option<String>)
    ensures
        fragment is Some == plain_fragment(text@, t) is Some,
        fragment is Some ==> fragment->0@ == plain_fragment(text@, t)->0,
{
    match t.id {
        TokenType::Checkbutton(checked) => {
            if checked {
                Some(String::from_str("<input type=\"checkbox\" checked>"))
            } else {
                Some(String::from_str("<input type=\"checkbox\">"))
            }
        },
        TokenType::HorizontalRule => Some(String::from_str("<hr>\n")),
        TokenType::Code => Some(wrapped("<code>", text, t, "</code>")),
        TokenType::IndentBlock => {
            let mut pre = String::from_str("<pre>");
            if t.begin <= usize::MAX - 4 {
                push_unindented(&mut pre, text, t.begin + 4, t.end);
            } else {
                assert(pre@ + Seq::<char>::empty() =~= pre@);
            }
            pre.append("</pre>");
            Some(pre)
        },
        TokenType::ItalicBegin => Some(String::from_str("<i>")),
        TokenType::ItalicEnd => Some(String::from_str("</i>")),
        TokenType::BoldBegin => Some(String::from_str("<b>")),
        TokenType::BoldEnd => Some(String::from_str("</b>")),
        TokenType::StrikeBegin => Some(String::from_str("<strike>")),
        TokenType::StrikeEnd => Some(String::from_str("</strike>")),
        TokenType::UnderlineBegin => Some(String::from_str("<u>")),
        TokenType::UnderlineEnd => Some(String::from_str("</u>")),
        TokenType::Error => Some(wrapped("<div class=\"error\">ERROR: ", text, t, "</div>\n")),
        TokenType::Newline => Some(String::from_str("<br>\n")),
        TokenType::Text | TokenType::Space | TokenType::Tab | TokenType::Whitespace(_) => {
            let mut shown = String::new();
            push_slice(&mut shown, text, t.begin, t.end);
            Some(shown)
        },
        _ => None,
    }
}

/// Renders the token at `k`, with the tokens it takes along, and returns the
/// index of the token at which rendering goes on.
pub fn render_token(text: &Vec<char>, tokens: &Vec<Token>, k: usize, html: &mut Vec<String>) -> (next:
    usize)
    requires
        k < tokens@.len(),
    ensures
        views(final(html)@) == views(old(html)@) + piece(text@, tokens@, k as int).fragments,
        next == piece(text@, tokens@, k as int).next,
        k < next <= tokens@.len(),
{
    let n: usize = tokens.len();
    match tokens[k].id {
        TokenType::Heading => render_heading(text, tokens, k, html),
        TokenType::ImageAlt => render_image(text, tokens, k, html),
        TokenType::LinkHref => render_link(text, tokens, k, html),
        TokenType::BlockquoteBegin => render_blockquote(text, tokens, k, html),
        TokenType::CodeBlockBegin => render_codeblock(text, tokens, k, html),
        TokenType::Escape => render_escape(text, tokens, k, html),
        _ => {
            match render_plain(text, tokens[k]) {
                Some(fragment) => {
                    emit(html, fragment);
                    assert(views(html@) =~= views(old(html)@) + piece(
                        text@,
                        tokens@,
                        k as int,
                    ).fragments);
                },
                None => {
                    assert(views(html@) =~= views(html@) + Seq::<Seq<char>>::empty());
                },
            }
            k + 1
        },
    }
}

/// Renders a token stream over `text` to HTML fragments, in one pass.
pub fn parse(text: &String, tokens: &Vec<Token>) -> (html: Vec<String>)
    ensures
        views(html@) == render(text@, tokens@),
{
    let chars = to_chars(text.as_str());
    let mut html: Vec<String> = Vec::new();
    let mut k: usize = 0;
    assert(views(html@) =~= Seq::<Seq<char>>::empty());
    while k < tokens.len()
        invariant
            k <= tokens@.len(),
            chars@ == text@,
            views(html@) + render_from(text@, tokens@, k as int) == render(text@, tokens@),
        decreases tokens@.len() - k,
    {
        let ghost before = views(html@);
        let ghost p = piece(text@, tokens@, k as int);
        k = render_token(&chars, tokens, k, &mut html);
        assert((before + p.fragments) + render_from(text@, tokens@, p.next) =~= before + (
        p.fragments + render_from(text@, tokens@, p.next)));
    }
    assert(views(html@) + Seq::<Seq<char>>::empty() =~= views(html@));
    html
}

} // verus!
