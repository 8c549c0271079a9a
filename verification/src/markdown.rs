use vstd::prelude::*;
use crate::emphasis;
use crate::grammar::{
    blockquote, bracketed, cell, checkbox_at, checkbutton, closers, code, codeblock,
    common_prefix, cut, delimiter, fence_at, first_fence, heading, horizontalrule, image, indent_at,
    indent_end, indentblock, lemma_bracketed_advances, link, list, listed, past_delimiter,
    quoted, row, separator, spoiled, toggled,
};
use crate::table;
use crate::table::{resolve_alignment, Alignment};
use crate::text::{first_not, first_of, lemma_first_of, line_start, to_chars};
use crate::token::{token, Token, TokenType};
use crate::wrapper::{CharsWithPosition, List};

verus! {

/// Matches a heading whose first hash `c` was just read.
pub fn match_heading(
    text: &Vec<char>,
    tokens: &mut Vec<Token>,
    iter: &mut CharsWithPosition,
    c: (usize, char),
)
    requires
        old(iter).wf(),
        old(iter).just_read(text@, c),
        c.1 == '#',
    ensures
        final(iter).wf(),
        final(iter).text() == text@,
        old(iter).position() <= final(iter).position(),
        final(iter).position() == heading(text@, c.0 as int).next,
        final(tokens)@ == old(tokens)@ + heading(text@, c.0 as int).tokens,
{
    if c.0 == 0 || text[c.0 - 1] == '\n' {
        let mut heading_count: usize = 1;
        loop
            invariant_except_break
                iter.wf(),
                iter.text() == text@,
                line_start(text@, c.0 as int),
                heading_count >= 1,
                iter.position() == c.0 + heading_count,
                first_not(text@, iter.position(), '#') == first_not(text@, c.0 + 1, '#'),
                tokens@ == old(tokens)@,
            ensures
                iter.wf(),
                iter.text() == text@,
                c.0 < iter.position(),
                iter.position() == heading(text@, c.0 as int).next,
                tokens@ == old(tokens)@ + heading(text@, c.0 as int).tokens,
            decreases text@.len() - iter.position(),
        {
            match iter.next() {
                Some(v) => {
                    if v.1 == '#' {
                        heading_count += 1;
                    } else if v.1 == ' ' {
                        if heading_count > 6 {
                            tokens.push(Token::new(TokenType::Error, c.0, c.0 + heading_count));
                        } else {
                            tokens.push(Token::new(TokenType::Heading, c.0, c.0 + heading_count));
                        }
                        tokens.push(Token::new_single(TokenType::Space, c.0 + heading_count));
                        assert(tokens@ =~= old(tokens)@ + heading(text@, c.0 as int).tokens);
                        break ;
                    } else {
                        tokens.push(Token::new(TokenType::Text, c.0, iter.index()));
                        assert(tokens@ =~= old(tokens)@ + heading(text@, c.0 as int).tokens);
                        break ;
                    }
                },
                None => {
                    tokens.push(Token::new(TokenType::Text, c.0, iter.index()));
                    assert(tokens@ =~= old(tokens)@ + heading(text@, c.0 as int).tokens);
                    break ;
                },
            }
        }
    } else {
        tokens.push(Token::new_single(TokenType::Text, c.0));
        assert(tokens@ =~= old(tokens)@ + heading(text@, c.0 as int).tokens);
    }
}

/// Whether the dash at `i` is followed by a space, a box holding `mark`, and
/// a space.
fn checkbox(text: &Vec<char>, i: usize, mark: char) -> (found: bool)
    requires
        i < text@.len(),
    ensures
        found == checkbox_at(text@, i as int, mark),
{
    text.len() - i >= 6 && text[i + 1] == ' ' && text[i + 2] == '[' && text[i + 3] == mark && text[i
        + 4] == ']' && text[i + 5] == ' '
}

/// Matches a check button whose dash `c` was just read.
pub fn match_checkbutton(
    text: &Vec<char>,
    tokens: &mut Vec<Token>,
    iter: &mut CharsWithPosition,
    c: (usize, char),
)
    requires
        old(iter).wf(),
        old(iter).just_read(text@, c),
        c.1 == '-',
    ensures
        final(iter).wf(),
        final(iter).text() == text@,
        old(iter).position() <= final(iter).position(),
        final(iter).position() == checkbutton(text@, c.0 as int).next,
        final(tokens)@ == old(tokens)@ + checkbutton(text@, c.0 as int).tokens,
{
    let n: usize = text.len();
    if checkbox(text, c.0, ' ') {
        tokens.push(Token::new(TokenType::Checkbutton(false), c.0, c.0 + 6));
        iter.skip(5);
    } else if checkbox(text, c.0, 'x') {
        tokens.push(Token::new(TokenType::Checkbutton(true), c.0, c.0 + 6));
        iter.skip(5);
    } else {
        tokens.push(Token::new_single(TokenType::Text, c.0));
    }
    assert(tokens@ =~= old(tokens)@ + checkbutton(text@, c.0 as int).tokens);
}

/// Reads on to the first `a` or newline and returns it; `None` where the
/// document ends before one.
fn seek(text: &Vec<char>, iter: &mut CharsWithPosition, a: char) -> (found: Option<(usize, char)>)
    requires
        old(iter).wf(),
        old(iter).text() == text@,
    ensures
        final(iter).wf(),
        final(iter).text() == text@,
        old(iter).position() <= final(iter).position(),
        first_of(text@, old(iter).position(), a, '\n') < text@.len() ==> found == Some(
            (
                first_of(text@, old(iter).position(), a, '\n') as usize,
                text@[first_of(text@, old(iter).position(), a, '\n')],
            ),
        ) && final(iter).position() == first_of(text@, old(iter).position(), a, '\n') + 1,
        first_of(text@, old(iter).position(), a, '\n') >= text@.len() ==> found.is_none()
            && final(iter).position() == text@.len(),
{
    loop
        invariant
            iter.wf(),
            iter.text() == text@,
            old(iter).position() <= iter.position(),
            first_of(text@, iter.position(), a, '\n') == first_of(
                text@,
                old(iter).position(),
                a,
                '\n',
            ),
        decreases text@.len() - iter.position(),
    {
        match iter.next() {
            Some(v) => {
                if v.1 == a || v.1 == '\n' {
                    return Some(v);
                }
            },
            None => {
                return None;
            },
        }
    }
}

/// Matches what follows the opening bracket of an image or a link that began
/// at `c`, the cursor standing at `inner`, the first character in brackets.
fn match_bracketed(
    text: &Vec<char>,
    tokens: &mut Vec<Token>,
    iter: &mut CharsWithPosition,
    c: (usize, char),
    inner: usize,
    image: bool,
)
    requires
        old(iter).wf(),
        old(iter).text() == text@,
        old(iter).position() == inner,
        c.0 < inner <= text@.len(),
    ensures
        final(iter).wf(),
        final(iter).text() == text@,
        old(iter).position() <= final(iter).position(),
        final(iter).position() == bracketed(text@, c.0 as int, inner as int, image).next,
        final(tokens)@ == old(tokens)@ + bracketed(text@, c.0 as int, inner as int, image).tokens,
{
    let ghost scan = bracketed(text@, c.0 as int, inner as int, image);
    let n: usize = text.len();
    proof {
        lemma_first_of(text@, inner as int, ']', '\n');
    }
    match seek(text, iter, ']') {
        Some(v) => {
            if v.1 == ']' {
                match iter.peek() {
                    Some(w) => {
                        if w.1 == '(' {
                            proof {
                                lemma_first_of(text@, v.0 + 2, ')', '\n');
                            }
                            iter.next();
                            match seek(text, iter, ')') {
                                Some(z) => {
                                    if z.1 == ')' {
                                        if image {
                                            tokens.push(Token::new(TokenType::ImageAlt, inner, v.0));
                                            tokens.push(
                                                Token::new(TokenType::ImageSrc, w.0 + 1, z.0),
                                            );
                                        } else {
                                            tokens.push(
                                                Token::new(TokenType::LinkHref, w.0 + 1, z.0),
                                            );
                                            tokens.push(Token::new(TokenType::LinkText, inner, v.0));
                                        }
                                    } else {
                                        tokens.push(Token::new(TokenType::Error, c.0, z.0));
                                        tokens.push(Token::new_single(TokenType::Newline, z.0));
                                    }
                                },
                                None => {
                                    tokens.push(Token::new(TokenType::Text, c.0, n));
                                },
                            }
                        } else {
                            tokens.push(Token::new(TokenType::Text, c.0, w.0));
                        }
                    },
                    None => {
                        tokens.push(Token::new(TokenType::Text, c.0, n));
                    },
                }
            } else {
                tokens.push(Token::new(TokenType::Error, c.0, v.0));
                tokens.push(Token::new_single(TokenType::Newline, v.0));
            }
        },
        None => {
            tokens.push(Token::new(TokenType::Text, c.0, n));
        },
    }
    assert(tokens@ =~= old(tokens)@ + scan.tokens);
}

/// Matches an image whose exclamation mark `c` was just read.
pub fn match_image(
    text: &Vec<char>,
    tokens: &mut Vec<Token>,
    iter: &mut CharsWithPosition,
    c: (usize, char),
)
    requires
        old(iter).wf(),
        old(iter).just_read(text@, c),
        c.1 == '!',
    ensures
        final(iter).wf(),
        final(iter).text() == text@,
        old(iter).position() <= final(iter).position(),
        final(iter).position() == image(text@, c.0 as int).next,
        final(tokens)@ == old(tokens)@ + image(text@, c.0 as int).tokens,
{
    match iter.peek() {
        Some(v) => {
            if v.1 == '[' {
                iter.next();
                match_bracketed(text, tokens, iter, c, v.0 + 1, true);
            } else {
                tokens.push(Token::new_single(TokenType::Text, c.0));
                assert(tokens@ =~= old(tokens)@ + image(text@, c.0 as int).tokens);
            }
        },
        None => {
            tokens.push(Token::new_single(TokenType::Text, c.0));
            assert(tokens@ =~= old(tokens)@ + image(text@, c.0 as int).tokens);
        },
    }
}

/// Matches a link whose opening bracket `c` was just read.
pub fn match_link(
    text: &Vec<char>,
    tokens: &mut Vec<Token>,
    iter: &mut CharsWithPosition,
    c: (usize, char),
)
    requires
        old(iter).wf(),
        old(iter).just_read(text@, c),
        c.1 == '[',
    ensures
        final(iter).wf(),
        final(iter).text() == text@,
        old(iter).position() <= final(iter).position(),
        final(iter).position() == link(text@, c.0 as int).next,
        final(tokens)@ == old(tokens)@ + link(text@, c.0 as int).tokens,
{
    match_bracketed(text, tokens, iter, c, c.0 + 1, false);
}

/// Matches a horizontal rule whose first dash `c` was just read.
pub fn match_horizontalrule(
    text: &Vec<char>,
    tokens: &mut Vec<Token>,
    iter: &mut CharsWithPosition,
    c: (usize, char),
)
    requires
        old(iter).wf(),
        old(iter).just_read(text@, c),
        c.1 == '-',
    ensures
        final(iter).wf(),
        final(iter).text() == text@,
        old(iter).position() <= final(iter).position(),
        final(iter).position() == horizontalrule(text@, c.0 as int).next,
        final(tokens)@ == old(tokens)@ + horizontalrule(text@, c.0 as int).tokens,
{
    let n: usize = text.len();
    let second_dash = match iter.peek() {
        Some(v) => v.1 == '-',
        None => false,
    };
    if !second_dash {
        tokens.push(Token::new_single(TokenType::Text, c.0));
    } else {
        iter.next();
        match iter.next() {
            Some(v) => {
                if v.1 == '-' {
                    match iter.peek() {
                        Some(w) => {
                            if w.1 == '\n' {
                                if c.0 == 0 || text[c.0 - 1] == '\n' {
                                    tokens.push(
                                        Token::new(TokenType::HorizontalRule, c.0, w.0 + 1),
                                    );
                                } else {
                                    tokens.push(Token::new(TokenType::Text, c.0, w.0));
                                    tokens.push(Token::new_single(TokenType::Newline, w.0));
                                }
                            } else {
                                tokens.push(Token::new(TokenType::Text, c.0, w.0 + 1));
                            }
                            iter.next();
                        },
                        None => {
                            tokens.push(Token::new(TokenType::Text, c.0, v.0 + 1));
                        },
                    }
                } else {
                    tokens.push(Token::new(TokenType::Text, c.0, v.0 + 1));
                }
            },
            None => {
                tokens.push(Token::new_double(TokenType::Text, c.0));
            },
        }
    }
    assert(tokens@ =~= old(tokens)@ + horizontalrule(text@, c.0 as int).tokens);
}

/// Matches inline code whose opening backtick `c` was just read.
pub fn match_code(
    text: &Vec<char>,
    tokens: &mut Vec<Token>,
    iter: &mut CharsWithPosition,
    c: (usize, char),
)
    requires
        old(iter).wf(),
        old(iter).just_read(text@, c),
        c.1 == '`',
    ensures
        final(iter).wf(),
        final(iter).text() == text@,
        old(iter).position() <= final(iter).position(),
        final(iter).position() == code(text@, c.0 as int).next,
        final(tokens)@ == old(tokens)@ + code(text@, c.0 as int).tokens,
{
    if c.0 == 0 || text[c.0 - 1] != '`' {
        loop
            invariant_except_break
                iter.wf(),
                iter.text() == text@,
                c.0 < iter.position(),
                !(0 < c.0 && text@[c.0 - 1] == '`'),
                first_of(text@, iter.position(), '`', '`') == first_of(text@, c.0 + 1, '`', '`'),
                tokens@ == old(tokens)@,
            ensures
                iter.wf(),
                iter.text() == text@,
                c.0 < iter.position(),
                iter.position() == code(text@, c.0 as int).next,
                tokens@ == old(tokens)@ + code(text@, c.0 as int).tokens,
            decreases text@.len() - iter.position(),
        {
            match iter.next() {
                Some(v) => {
                    if v.1 == '`' {
                        tokens.push(Token::new(TokenType::Code, c.0 + 1, v.0));
                        assert(tokens@ =~= old(tokens)@ + code(text@, c.0 as int).tokens);
                        break ;
                    }
                },
                None => {
                    tokens.push(Token::new(TokenType::Text, c.0, iter.index()));
                    assert(tokens@ =~= old(tokens)@ + code(text@, c.0 as int).tokens);
                    break ;
                },
            }
        }
    } else {
        tokens.push(Token::new_single(TokenType::Text, c.0));
        assert(tokens@ =~= old(tokens)@ + code(text@, c.0 as int).tokens);
    }
}

/// Matches an emphasis delimiter `c` that was just read, and toggles the
/// state of its kind of emphasis.
pub fn match_emphasis(
    emphasis: &mut emphasis::State,
    text: &Vec<char>,
    tokens: &mut Vec<Token>,
    iter: &mut CharsWithPosition,
    c: (usize, char),
)
    requires
        old(iter).wf(),
        old(iter).just_read(text@, c),
        c.1 == '*' || c.1 == '~' || c.1 == '_',
    ensures
        final(iter).wf(),
        final(iter).text() == text@,
        old(iter).position() <= final(iter).position(),
        final(iter).position() == delimiter(*old(emphasis), text@, c.0 as int).next,
        final(tokens)@ == old(tokens)@ + delimiter(*old(emphasis), text@, c.0 as int).tokens,
        *final(emphasis) == toggled(*old(emphasis), text@, c.0 as int),
{
    let n: usize = text.len();
    let twice = match iter.peek() {
        Some(v) => v.1 == c.1,
        None => false,
    };
    if c.1 == '*' {
        if twice {
            iter.next();
            if !emphasis.bold {
                tokens.push(Token::new_double(TokenType::BoldBegin, c.0));
                emphasis.bold = true;
            } else {
                tokens.push(Token::new_double(TokenType::BoldEnd, c.0));
                emphasis.bold = false;
            }
        } else {
            if !emphasis.italic {
                tokens.push(Token::new_single(TokenType::ItalicBegin, c.0));
                emphasis.italic = true;
            } else {
                tokens.push(Token::new_single(TokenType::ItalicEnd, c.0));
                emphasis.italic = false;
            }
        }
    } else if !twice {
        tokens.push(Token::new_single(TokenType::Text, c.0));
    } else if c.1 == '~' {
        iter.next();
        if !emphasis.strike {
            tokens.push(Token::new_double(TokenType::StrikeBegin, c.0));
            emphasis.strike = true;
        } else {
            tokens.push(Token::new_double(TokenType::StrikeEnd, c.0));
            emphasis.strike = false;
        }
    } else {
        iter.next();
        if !emphasis.underline {
            tokens.push(Token::new_double(TokenType::UnderlineBegin, c.0));
            emphasis.underline = true;
        } else {
            tokens.push(Token::new_double(TokenType::UnderlineEnd, c.0));
            emphasis.underline = false;
        }
    }
    assert(tokens@ =~= old(tokens)@ + delimiter(*old(emphasis), text@, c.0 as int).tokens);
}

/// Matches a block quote whose greater-than sign `c` was just read. The
/// delimiters of emphasis inside it toggle the state that the caller hands in.
pub fn match_blockquote(
    emphasis: &mut emphasis::State,
    text: &Vec<char>,
    tokens: &mut Vec<Token>,
    iter: &mut CharsWithPosition,
    c: (usize, char),
)
    requires
        old(iter).wf(),
        old(iter).just_read(text@, c),
        c.1 == '>',
    ensures
        final(iter).wf(),
        final(iter).text() == text@,
        old(iter).position() <= final(iter).position(),
        final(iter).position() == blockquote(*old(emphasis), text@, c.0 as int).next,
        final(tokens)@ == old(tokens)@ + blockquote(*old(emphasis), text@, c.0 as int).tokens,
        *final(emphasis) == blockquote(*old(emphasis), text@, c.0 as int).state,
{
    let ghost goal = blockquote(*old(emphasis), text@, c.0 as int);
    let n: usize = text.len();
    if c.0 == 0 || text[c.0 - 1] == '\n' {
        tokens.push(Token::new_single(TokenType::BlockquoteBegin, c.0));
        assert(tokens@ + quoted(*emphasis, text@, c.0 as int, c.0 + 1).tokens =~= old(tokens)@
            + goal.tokens);
        loop
            invariant_except_break
                iter.wf(),
                iter.text() == text@,
                n == text@.len(),
                c.0 < iter.position(),
                tokens@ + quoted(*emphasis, text@, c.0 as int, iter.position()).tokens == old(
                    tokens,
                )@ + goal.tokens,
                quoted(*emphasis, text@, c.0 as int, iter.position()).next == goal.next,
                quoted(*emphasis, text@, c.0 as int, iter.position()).state == goal.state,
            ensures
                iter.wf(),
                iter.text() == text@,
                c.0 < iter.position(),
                iter.position() == goal.next,
                tokens@ == old(tokens)@ + goal.tokens,
                *emphasis == goal.state,
            decreases text@.len() - iter.position(),
        {
            let ghost before = tokens@;
            let ghost here = quoted(*emphasis, text@, c.0 as int, iter.position());
            match iter.next() {
                Some(v) => {
                    if v.1 == '\n' {
                        let blank = match iter.peek() {
                            Some(w) => w.1 == '\n',
                            None => false,
                        };
                        if blank {
                            tokens.push(Token::new(TokenType::BlockquoteEnd, c.0, iter.index()));
                            assert(tokens@ =~= before + here.tokens);
                            break ;
                        }
                    } else if v.1 == '*' || v.1 == '~' || v.1 == '_' {
                        match_emphasis(emphasis, text, tokens, iter, v);
                        assert(iter.position() == past_delimiter(text@, v.0 as int));
                        assert(tokens@ + quoted(
                            *emphasis,
                            text@,
                            c.0 as int,
                            iter.position(),
                        ).tokens =~= before + here.tokens);
                    } else {
                        tokens.push(Token::new_single(TokenType::Text, v.0));
                        assert(tokens@ + quoted(
                            *emphasis,
                            text@,
                            c.0 as int,
                            iter.position(),
                        ).tokens =~= before + here.tokens);
                    }
                },
                None => {
                    tokens.push(Token::new(TokenType::BlockquoteEnd, c.0, iter.index()));
                    assert(tokens@ =~= before + here.tokens);
                    break ;
                },
            }
        }
    } else {
        tokens.push(Token::new_single(TokenType::Text, c.0));
        assert(tokens@ =~= old(tokens)@ + goal.tokens);
    }
}

/// Whether a closing fence stands at `p`.
fn fence(text: &Vec<char>, p: usize) -> (found: bool)
    ensures
        found == fence_at(text@, p as int),
{
    p < text.len() && text.len() - p >= 4 && text[p] == '`' && text[p + 1] == '`' && text[p + 2]
        == '`' && text[p + 3] == '\n'
}

/// Matches a fenced code block whose first backtick `c` was just read.
pub fn match_codeblock(
    text: &Vec<char>,
    tokens: &mut Vec<Token>,
    iter: &mut CharsWithPosition,
    c: (usize, char),
)
    requires
        old(iter).wf(),
        old(iter).just_read(text@, c),
        c.1 == '`',
    ensures
        final(iter).wf(),
        final(iter).text() == text@,
        old(iter).position() <= final(iter).position(),
        final(iter).position() == codeblock(text@, c.0 as int).next,
        final(tokens)@ == old(tokens)@ + codeblock(text@, c.0 as int).tokens,
{
    let ghost goal = codeblock(text@, c.0 as int);
    let n: usize = text.len();
    let second = match iter.peek() {
        Some(v) => v.1 == '`',
        None => false,
    };
    if !(c.0 == 0 || text[c.0 - 1] == '\n') || !second {
        tokens.push(Token::new_single(TokenType::Text, c.0));
        assert(tokens@ =~= old(tokens)@ + goal.tokens);
        return ;
    }
    iter.next();
    match iter.next() {
        Some(v) => {
            if v.1 == '`' {
                tokens.push(Token::new(TokenType::CodeBlockBegin, c.0, iter.index()));
                let lang_begin: usize = iter.index();
                proof {
                    lemma_first_of(text@, lang_begin as int, '\n', '\n');
                }
                match seek(text, iter, '\n') {
                    Some(w) => {
                        let lang_end: usize = iter.index();
                        tokens.push(Token::new(TokenType::CodeBlockLanguage, lang_begin, lang_end));
                        let ghost opened = tokens@;
                        let ghost closing = first_fence(text@, lang_end as int);
                        loop
                            invariant_except_break
                                iter.wf(),
                                iter.text() == text@,
                                n == text@.len(),
                                c.0 < lang_end <= iter.position(),
                                first_fence(text@, iter.position()) == closing,
                                tokens@ == opened,
                            ensures
                                iter.wf(),
                                iter.text() == text@,
                                c.0 < iter.position(),
                                closing >= n ==> iter.position() == n && tokens@ == opened.push(
                                    token(TokenType::Text, c.0 as int, n as int),
                                ),
                                closing < n ==> iter.position() == closing + 4 && tokens@
                                    == opened.push(
                                    token(TokenType::CodeBlockEnd, lang_end as int, closing),
                                ).push(token(TokenType::Newline, closing + 3, closing + 4)),
                            decreases text@.len() - iter.position(),
                        {
                            let at: usize = iter.index();
                            if at >= n {
                                tokens.push(Token::new(TokenType::Text, c.0, n));
                                break ;
                            }
                            if fence(text, at) {
                                tokens.push(Token::new(TokenType::CodeBlockEnd, lang_end, at));
                                iter.skip(4);
                                tokens.push(Token::new_single(TokenType::Newline, at + 3));
                                break ;
                            }
                            iter.next();
                        }
                        assert(tokens@ =~= old(tokens)@ + goal.tokens);
                    },
                    None => {
                        tokens.push(Token::new(TokenType::Text, c.0, n));
                        assert(tokens@ =~= old(tokens)@ + goal.tokens);
                    },
                }
            } else {
                tokens.push(Token::new(TokenType::Text, c.0, iter.index()));
                assert(tokens@ =~= old(tokens)@ + goal.tokens);
            }
        },
        None => {
            tokens.push(Token::new(TokenType::Text, c.0, iter.index()));
            assert(tokens@ =~= old(tokens)@ + goal.tokens);
        },
    }
}

/// Whether four spaces stand at `p`.
fn indented(text: &Vec<char>, p: usize) -> (found: bool)
    ensures
        found == indent_at(text@, p as int),
{
    p < text.len() && text.len() - p >= 4 && text[p] == ' ' && text[p + 1] == ' ' && text[p + 2]
        == ' ' && text[p + 3] == ' '
}

/// Matches an indented block whose first space `c` was just read.
pub fn match_indentblock(
    text: &Vec<char>,
    tokens: &mut Vec<Token>,
    iter: &mut CharsWithPosition,
    c: (usize, char),
)
    requires
        old(iter).wf(),
        old(iter).just_read(text@, c),
        c.1 == ' ',
    ensures
        final(iter).wf(),
        final(iter).text() == text@,
        old(iter).position() <= final(iter).position(),
        final(iter).position() == indentblock(text@, c.0 as int).next,
        final(tokens)@ == old(tokens)@ + indentblock(text@, c.0 as int).tokens,
{
    let ghost goal = indentblock(text@, c.0 as int);
    let n: usize = text.len();
    if !indented(text, c.0) {
        tokens.push(Token::new_single(TokenType::Text, c.0));
        assert(tokens@ =~= old(tokens)@ + goal.tokens);
        return ;
    }
    iter.skip(3);
    loop
        invariant_except_break
            iter.wf(),
            iter.text() == text@,
            n == text@.len(),
            goal == indentblock(text@, c.0 as int),
            indent_at(text@, c.0 as int),
            c.0 + 4 <= iter.position(),
            indent_end(text@, iter.position()) == indent_end(text@, c.0 + 4),
            tokens@ == old(tokens)@,
        ensures
            iter.wf(),
            iter.text() == text@,
            c.0 < iter.position(),
            iter.position() == goal.next,
            tokens@ == old(tokens)@ + goal.tokens,
        decreases text@.len() - iter.position(),
    {
        proof {
            lemma_first_of(text@, iter.position(), '\n', '\n');
        }
        match seek(text, iter, '\n') {
            Some(v) => {
                if indented(text, iter.index()) {
                    iter.skip(4);
                } else {
                    tokens.push(Token::new(TokenType::IndentBlock, c.0, v.0));
                    assert(tokens@ =~= old(tokens)@ + goal.tokens);
                    break ;
                }
            },
            None => {
                tokens.push(Token::new(TokenType::Text, c.0, n));
                assert(tokens@ =~= old(tokens)@ + goal.tokens);
                break ;
            },
        }
    }
}

/// Reads the characters of `query` as far as they stand next in the
/// document, and tells whether all of them did. The character that differs
/// is left unread; no token is appended.
pub fn match_string(
    query: String,
    text: &Vec<char>,
    tokens: &mut Vec<Token>,
    iter: &mut CharsWithPosition,
    c: (usize, char),
) -> (matched: bool)
    requires
        old(iter).wf(),
        old(iter).text() == text@,
    ensures
        final(iter).wf(),
        final(iter).text() == text@,
        old(iter).position() <= final(iter).position(),
        final(iter).position() == old(iter).position() + common_prefix(
            text@,
            old(iter).position(),
            query@,
            0,
        ),
        matched == (common_prefix(text@, old(iter).position(), query@, 0) == query@.len()),
        final(tokens)@ == old(tokens)@,
{
    let wanted = to_chars(query.as_str());
    let mut k: usize = 0;
    while k < wanted.len()
        invariant
            iter.wf(),
            iter.text() == text@,
            wanted@ == query@,
            k <= wanted@.len(),
            iter.position() == old(iter).position() + k,
            common_prefix(text@, old(iter).position(), query@, 0) == k + common_prefix(
                text@,
                iter.position(),
                query@,
                k as int,
            ),
        decreases wanted@.len() - k,
    {
        match iter.peek() {
            Some(v) => {
                if v.1 != wanted[k] {
                    return false;
                }
                iter.next();
            },
            None => {
                return false;
            },
        }
        k = k + 1;
    }
    true
}

/// Reads one cell of a separator row, the cursor standing right after a
/// pipe. A well-formed cell is read up to and including its closing pipe,
/// whose index is returned with the alignment; another is read up to and
/// including the character that spoiled it.
fn match_cell(text: &Vec<char>, iter: &mut CharsWithPosition) -> (found: Option<(Alignment, usize)>)
    requires
        old(iter).wf(),
        old(iter).text() == text@,
    ensures
        final(iter).wf(),
        final(iter).text() == text@,
        old(iter).position() <= final(iter).position(),
        found is Some == cell(text@, old(iter).position()).ok,
        found matches Some(f) ==> f.0 == cell(text@, old(iter).position()).alignment && f.1 == cell(
            text@,
            old(iter).position(),
        ).end && old(iter).position() < f.1 < text@.len() && final(iter).position() == f.1 + 1,
        found is None ==> old(iter).position() <= cell(text@, old(iter).position()).end
            <= text@.len() && final(iter).position() == if cell(text@, old(iter).position()).end
            < text@.len() {
            cell(text@, old(iter).position()).end + 1
        } else {
            text@.len() as int
        },
{
    let n: usize = text.len();
    match iter.next() {
        Some(v) => {
            if v.1 != ' ' {
                return None;
            }
        },
        None => {
            return None;
        },
    }
    let leading = match iter.peek() {
        Some(v) => v.1 == ':',
        None => false,
    };
    if leading {
        iter.next();
    }
    let ghost dashes = iter.position();
    match iter.next() {
        Some(v) => {
            if v.1 != '-' {
                return None;
            }
        },
        None => {
            return None;
        },
    }
    loop
        invariant_except_break
            iter.wf(),
            iter.text() == text@,
            old(iter).position() < dashes < iter.position(),
            first_not(text@, iter.position(), '-') == first_not(text@, dashes, '-'),
        ensures
            iter.wf(),
            iter.text() == text@,
            old(iter).position() < dashes < iter.position(),
            iter.position() == first_not(text@, dashes, '-'),
        decreases text@.len() - iter.position(),
    {
        match iter.peek() {
            Some(v) => {
                if v.1 != '-' {
                    break ;
                }
                iter.next();
            },
            None => {
                break ;
            },
        }
    }
    let trailing = match iter.peek() {
        Some(v) => v.1 == ':',
        None => false,
    };
    if trailing {
        iter.next();
    }
    match iter.next() {
        Some(v) => {
            if v.1 != ' ' {
                return None;
            }
        },
        None => {
            return None;
        },
    }
    match iter.next() {
        Some(v) => {
            if v.1 != '|' {
                return None;
            }
            Some((resolve_alignment(leading, trailing), v.0))
        },
        None => None,
    }
}

/// Matches a separator row whose first pipe `c` was just read, and tells
/// whether it is well formed. The column tokens of a well-formed row are
/// put into the stream at the table's index, in the order of the columns,
/// in front of what stood there; for another row an error token is appended
/// that covers the row as far as it was read.
pub fn match_table(
    table: &table::State,
    text: &Vec<char>,
    tokens: &mut Vec<Token>,
    iter: &mut CharsWithPosition,
    c: (usize, char),
) -> (resolved: bool)
    requires
        old(iter).wf(),
        old(iter).just_read(text@, c),
        c.1 == '|',
        table.table_index <= old(tokens)@.len(),
    ensures
        final(iter).wf(),
        final(iter).text() == text@,
        old(iter).position() <= final(iter).position(),
        resolved == separator(text@, c.0 as int).ok,
        resolved ==> final(iter).position() == separator(text@, c.0 as int).end && final(tokens)@
            == old(tokens)@.subrange(0, table.table_index as int) + separator(
            text@,
            c.0 as int,
        ).columns + old(tokens)@.subrange(table.table_index as int, old(tokens)@.len() as int),
        !resolved ==> final(iter).position() == spoiled(text@, separator(text@, c.0 as int))
            && final(tokens)@ == old(tokens)@.push(
            token(TokenType::Error, c.0 as int, spoiled(text@, separator(text@, c.0 as int))),
        ),
{
    let ghost goal = separator(text@, c.0 as int);
    let n: usize = text.len();
    let mut columns: Vec<Token> = Vec::new();
    loop
        invariant_except_break
            iter.wf(),
            iter.text() == text@,
            n == text@.len(),
            c.0 < iter.position(),
            old(iter).position() == c.0 + 1,
            tokens@ == old(tokens)@,
            goal == separator(text@, c.0 as int),
            row(text@, iter.position(), columns@) == goal,
        ensures
            iter.wf(),
            iter.text() == text@,
            c.0 < iter.position(),
            tokens@ == old(tokens)@,
            goal.ok,
            iter.position() == goal.end,
            columns@ == goal.columns,
        decreases text@.len() - iter.position(),
    {
        let begin: usize = iter.index();
        match match_cell(text, iter) {
            Some(found) => {
                columns.push(Token::new(TokenType::TableColumn(found.0), begin, found.1));
                let ends = match iter.peek() {
                    Some(v) => v.1 == '\n',
                    None => false,
                };
                if ends {
                    iter.next();
                    break ;
                }
            },
            None => {
                tokens.push(Token::new(TokenType::Error, c.0, iter.index()));
                return false;
            },
        }
    }
    let at: usize = table.table_index;
    let mut k: usize = 0;
    while k < columns.len()
        invariant
            k <= columns@.len(),
            at <= old(tokens)@.len(),
            tokens@ == old(tokens)@.subrange(0, at as int) + columns@.subrange(0, k as int) + old(
                tokens,
            )@.subrange(at as int, old(tokens)@.len() as int),
        decreases columns@.len() - k,
    {
        let len: usize = tokens.len();
        assert(len == old(tokens)@.len() + k);
        tokens.insert(at + k, columns[k]);
        k = k + 1;
        assert(tokens@ =~= old(tokens)@.subrange(0, at as int) + columns@.subrange(0, k as int)
            + old(tokens)@.subrange(at as int, old(tokens)@.len() as int));
    }
    assert(columns@.subrange(0, k as int) =~= columns@);
    true
}

/// Closes every open list level, the one opened last first, with a token
/// over the character at `at` for each.
pub fn close_lists(lists: &mut Vec<List>, tokens: &mut Vec<Token>, at: usize)
    requires
        at < usize::MAX,
    ensures
        final(lists)@.len() == 0,
        final(tokens)@ == old(tokens)@ + closers(old(lists)@, at as int),
{
    while lists.len() > 0
        invariant
            at < usize::MAX,
            lists@.len() <= old(lists)@.len(),
            lists@ == old(lists)@.subrange(0, lists@.len() as int),
            tokens@ == old(tokens)@ + closers(old(lists)@, at as int).subrange(
                0,
                old(lists)@.len() - lists@.len(),
            ),
        decreases lists@.len(),
    {
        let ghost before = tokens@;
        let ghost open = lists@.len();
        match lists.pop() {
            Some(l) => {
                tokens.push(Token::new_single(l.0, at));
                assert(tokens@ =~= old(tokens)@ + closers(old(lists)@, at as int).subrange(
                    0,
                    old(lists)@.len() - lists@.len(),
                ));
            },
            None => {
            },
        }
    }
    assert(closers(old(lists)@, at as int).subrange(0, old(lists)@.len() as int) =~= closers(
        old(lists)@,
        at as int,
    ));
}

/// The index `count` characters after `begin`, or the end of the document
/// where that is nearer.
fn cut_at(text: &Vec<char>, begin: usize, count: usize) -> (end: usize)
    requires
        begin <= text@.len(),
    ensures
        end == cut(text@, begin + count),
{
    if count <= text.len() - begin {
        begin + count
    } else {
        text.len()
    }
}

/// Matches a list whose marker `c` was just read.
pub fn match_list(
    text: &Vec<char>,
    tokens: &mut Vec<Token>,
    iter: &mut CharsWithPosition,
    c: (usize, char),
)
    requires
        old(iter).wf(),
        old(iter).just_read(text@, c),
    ensures
        final(iter).wf(),
        final(iter).text() == text@,
        old(iter).position() <= final(iter).position(),
        final(iter).position() == list(text@, c.0 as int).next,
        final(tokens)@ == old(tokens)@ + list(text@, c.0 as int).tokens,
{
    let ghost goal = list(text@, c.0 as int);
    let n: usize = text.len();
    let mut lists: Vec<List> = Vec::with_capacity(10);
    tokens.push(Token::new(TokenType::ListBegin, iter.index(), cut_at(text, iter.index(), 2)));
    lists.push(List(TokenType::ListEnd, 0));
    iter.next();
    tokens.push(Token::new(TokenType::ListItemBegin, iter.index(), cut_at(text, iter.index(), 1)));
    let mut emphasis = emphasis::State::new();
    assert(lists@ =~= seq![List(TokenType::ListEnd, 0)]);
    assert(tokens@ + listed(emphasis, text@, lists@, iter.position()).tokens =~= old(tokens)@
        + goal.tokens);
    loop
        invariant_except_break
            iter.wf(),
            iter.text() == text@,
            n == text@.len(),
            c.0 < iter.position(),
            tokens@ + listed(emphasis, text@, lists@, iter.position()).tokens == old(tokens)@
                + goal.tokens,
            listed(emphasis, text@, lists@, iter.position()).next == goal.next,
        ensures
            iter.wf(),
            iter.text() == text@,
            c.0 < iter.position(),
            iter.position() == goal.next,
            tokens@ == old(tokens)@ + goal.tokens,
        decreases text@.len() - iter.position(),
    {
        let ghost before = tokens@;
        let ghost here = listed(emphasis, text@, lists@, iter.position());
        match iter.next() {
            Some(v) => {
                if v.1 == '\n' {
                    match iter.peek() {
                        Some(w) => {
                            if w.1 == '\n' {
                                close_lists(&mut lists, tokens, iter.index());
                                break ;
                            }
                        },
                        None => {
                            tokens.push(Token::new_single(TokenType::Newline, iter.last()));
                            assert(tokens@ =~= before + here.tokens);
                            break ;
                        },
                    }
                } else if v.1 == '*' || v.1 == '~' || v.1 == '_' {
                    match_emphasis(&mut emphasis, text, tokens, iter, v);
                    assert(iter.position() == past_delimiter(text@, v.0 as int));
                    assert(tokens@ + listed(emphasis, text@, lists@, iter.position()).tokens
                        =~= before + here.tokens);
                } else if v.1 == '[' {
                    proof {
                        lemma_bracketed_advances(text@, v.0 as int, v.0 + 1, false);
                    }
                    match_link(text, tokens, iter, v);
                    assert(tokens@ + listed(emphasis, text@, lists@, iter.position()).tokens
                        =~= before + here.tokens);
                } else {
                    tokens.push(Token::new_single(TokenType::Text, iter.last()));
                    assert(tokens@ + listed(emphasis, text@, lists@, iter.position()).tokens
                        =~= before + here.tokens);
                }
            },
            None => {
                assert(tokens@ =~= before + here.tokens);
                break ;
            },
        }
    }
}

} // verus!
