use vstd::prelude::*;
use crate::emphasis::State;
use crate::grammar::{
    blockquote, checkbutton, code, codeblock, delimiter, heading, horizontalrule, image,
    indentblock, is_delimiter, link, literal, one, past_delimiter, toggled, two, Marked, Scan,
};
use crate::markdown::{
    match_blockquote, match_checkbutton, match_code, match_codeblock, match_emphasis,
    match_heading, match_horizontalrule, match_image, match_indentblock, match_link,
};
use crate::laws::{count, final_state, lemma_emphasis_balanced, lemma_tokens_from, open_count, ordered, within};
use crate::text::to_chars;
use crate::token::{token, Token, TokenType};
use crate::wrapper::CharsWithPosition;

verus! {

/// A scan that leaves the emphasis state as it was.
pub open spec fn unmarked(scan: Scan, state: State) -> Marked {
    Marked { tokens: scan.tokens, next: scan.next, state }
}

/// Whether the character after `i` is `ch`.
pub open spec fn followed_by(s: Seq<char>, i: int, ch: char) -> bool {
    i + 1 < s.len() && s[i + 1] == ch
}

/// A backslash is an escape token; the character after it is text whatever
/// it is, so that it is never taken for markup.
pub open spec fn escape(s: Seq<char>, i: int) -> Scan {
    if i + 1 < s.len() {
        two(token(TokenType::Escape, i, i + 1), token(TokenType::Text, i + 1, i + 2), i + 2)
    } else {
        one(TokenType::Escape, i, i + 1, i + 1)
    }
}

/// What the scan makes of the character at `i`, being in emphasis state
/// `state`: the construct that the character opens, chosen by the character
/// and at most the one after it.
pub open spec fn step(state: State, s: Seq<char>, i: int) -> Marked {
    let c = s[i];
    if c == '#' {
        unmarked(heading(s, i), state)
    } else if c == '-' {
        if followed_by(s, i, '-') {
            unmarked(horizontalrule(s, i), state)
        } else if followed_by(s, i, ' ') {
            unmarked(checkbutton(s, i), state)
        } else {
            unmarked(literal(i), state)
        }
    } else if c == '!' {
        unmarked(image(s, i), state)
    } else if c == '[' {
        unmarked(link(s, i), state)
    } else if c == '>' {
        blockquote(state, s, i)
    } else if c == '`' {
        if followed_by(s, i, '`') {
            unmarked(codeblock(s, i), state)
        } else if i + 1 < s.len() {
            unmarked(code(s, i), state)
        } else {
            unmarked(literal(i), state)
        }
    } else if c == ' ' {
        if followed_by(s, i, ' ') {
            unmarked(indentblock(s, i), state)
        } else {
            unmarked(one(TokenType::Space, i, i + 1, i + 1), state)
        }
    } else if is_delimiter(c) {
        Marked {
            tokens: delimiter(state, s, i).tokens,
            next: past_delimiter(s, i),
            state: toggled(state, s, i),
        }
    } else if c == '\n' {
        unmarked(one(TokenType::Newline, i, i + 1, i + 1), state)
    } else if c == '\t' {
        unmarked(one(TokenType::Tab, i, i + 1, i + 1), state)
    } else if c == '\\' {
        unmarked(escape(s, i), state)
    } else {
        unmarked(literal(i), state)
    }
}

/// The tokens of the document from index `i` on, scanned in emphasis state
/// `state`.
pub open spec fn tokens_from(state: State, s: Seq<char>, i: int) -> Seq<Token>
    decreases s.len() - i,
{
    if i < 0 || i >= s.len() {
        Seq::empty()
    } else {
        let m = step(state, s, i);
        if i < m.next <= s.len() {
            m.tokens + tokens_from(m.state, s, m.next)
        } else {
            m.tokens
        }
    }
}

/// The emphasis state in which the scan from index `i` on, begun in `state`,
/// ends.
pub open spec fn state_from(state: State, s: Seq<char>, i: int) -> State
    decreases s.len() - i,
{
    if i < 0 || i >= s.len() {
        state
    } else {
        let m = step(state, s, i);
        if i < m.next <= s.len() {
            state_from(m.state, s, m.next)
        } else {
            m.state
        }
    }
}

/// The token stream of a document.
pub open spec fn tokenize(s: Seq<char>) -> Seq<Token> {
    tokens_from(State::closed(), s, 0)
}

/// Reads the construct that the character `c`, just read, opens.
pub fn lex_step(
    emphasis: &mut State,
    text: &Vec<char>,
    tokens: &mut Vec<Token>,
    iter: &mut CharsWithPosition,
    c: (usize, char),
)
    requires
        old(iter).wf(),
        old(iter).just_read(text@, c),
    ensures
        final(iter).wf(),
        final(iter).text() == text@,
        c.0 < final(iter).position(),
        final(iter).position() == step(*old(emphasis), text@, c.0 as int).next,
        final(tokens)@ == old(tokens)@ + step(*old(emphasis), text@, c.0 as int).tokens,
        *final(emphasis) == step(*old(emphasis), text@, c.0 as int).state,
{
    let ghost goal = step(*old(emphasis), text@, c.0 as int);
    let n: usize = text.len();
    let peeked = iter.peek();
    match c.1 {
        '#' => match_heading(text, tokens, iter, c),
        '-' => {
            match peeked {
                Some(v) => {
                    if v.1 == '-' {
                        match_horizontalrule(text, tokens, iter, c);
                    } else if v.1 == ' ' {
                        match_checkbutton(text, tokens, iter, c);
                    } else {
                        tokens.push(Token::new_single(TokenType::Text, c.0));
                    }
                },
                None => tokens.push(Token::new_single(TokenType::Text, c.0)),
            }
        },
        '!' => match_image(text, tokens, iter, c),
        '[' => match_link(text, tokens, iter, c),
        '>' => match_blockquote(emphasis, text, tokens, iter, c),
        '`' => {
            match peeked {
                Some(v) => {
                    if v.1 == '`' {
                        match_codeblock(text, tokens, iter, c);
                    } else {
                        match_code(text, tokens, iter, c);
                    }
                },
                None => tokens.push(Token::new_single(TokenType::Text, c.0)),
            }
        },
        ' ' => {
            match peeked {
                Some(v) => {
                    if v.1 == ' ' {
                        match_indentblock(text, tokens, iter, c);
                    } else {
                        tokens.push(Token::new_single(TokenType::Space, c.0));
                    }
                },
                None => tokens.push(Token::new_single(TokenType::Space, c.0)),
            }
        },
        '*' | '~' | '_' => match_emphasis(emphasis, text, tokens, iter, c),
        '\n' => tokens.push(Token::new_single(TokenType::Newline, c.0)),
        '\t' => tokens.push(Token::new_single(TokenType::Tab, c.0)),
        '\\' => {
            tokens.push(Token::new_single(TokenType::Escape, c.0));
            match iter.next() {
                Some(v) => tokens.push(Token::new_single(TokenType::Text, v.0)),
                None => {
                },
            }
        },
        _ => tokens.push(Token::new_single(TokenType::Text, c.0)),
    }
    assert(tokens@ =~= old(tokens)@ + goal.tokens);
}

/// Scans a document into its token stream, in one pass from left to right.
///
/// Every token is a range of the document. From one token to the next the
/// begin does not decrease, but at the places that `may_step_back` names.
/// Of each kind of emphasis the stream holds as many begin tokens as end
/// tokens, and one more where the kind is open at the end of the document.
pub fn lex(text: &String) -> (tokens: Vec<Token>)
    ensures
        tokens@ == tokenize(text@),
        within(tokens@, text@.len() as int),
        ordered(tokens@),
        count(tokens@, TokenType::BoldBegin) == count(tokens@, TokenType::BoldEnd) + open_count(
            final_state(text@).bold,
        ),
        count(tokens@, TokenType::ItalicBegin) == count(tokens@, TokenType::ItalicEnd)
            + open_count(final_state(text@).italic),
        count(tokens@, TokenType::StrikeBegin) == count(tokens@, TokenType::StrikeEnd)
            + open_count(final_state(text@).strike),
        count(tokens@, TokenType::UnderlineBegin) == count(tokens@, TokenType::UnderlineEnd)
            + open_count(final_state(text@).underline),
{
    let chars = to_chars(text.as_str());
    let mut tokens: Vec<Token> = Vec::with_capacity(chars.len());
    let mut iter = CharsWithPosition::new(&chars);
    let mut state = State::new();
    assert(tokens@ + tokens_from(state, text@, 0) =~= tokenize(text@));
    loop
        invariant_except_break
            iter.wf(),
            iter.text() == text@,
            chars@ == text@,
            tokens@ + tokens_from(state, text@, iter.position()) == tokenize(text@),
        ensures
            tokens@ == tokenize(text@),
        decreases text@.len() - iter.position(),
    {
        let ghost before = tokens@;
        let ghost at = iter.position();
        let ghost entered = state;
        let ghost m = step(state, text@, at);
        match iter.next() {
            Some(c) => {
                lex_step(&mut state, &chars, &mut tokens, &mut iter, c);
                assert(tokens@ + tokens_from(state, text@, iter.position()) =~= before
                    + tokens_from(entered, text@, at));
            },
            None => {
                assert(tokens@ + Seq::<Token>::empty() =~= tokens@);
                break ;
            },
        }
    }
    proof {
        lemma_tokens_from(State::closed(), text@, 0);
        lemma_emphasis_balanced(text@);
    }
    tokens
}

} // verus!
