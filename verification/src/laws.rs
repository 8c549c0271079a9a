use vstd::prelude::*;
use crate::emphasis::State;
use crate::grammar::{
    after, blockquote, bracketed, cell, checkbox_at, checkbutton, code, codeblock, delimiter,
    doubled,
    fence_at, first_fence, heading, horizontalrule, image, indent_at, indent_end, indentblock,
    is_delimiter, literal, one, past_delimiter, quoted, row, separator, toggled, Marked, Scan,
};
use crate::lexer::{escape, followed_by, state_from, step, tokenize, tokens_from, unmarked};
use crate::render::{piece, render, render_from, text_of};
use crate::text::{
    first_of, lemma_first_not, lemma_first_of, lemma_found_at, lemma_run_ends, line_start,
};
use crate::token::{token, Token, TokenType};

verus! {

/// How many tokens of kind `id` the stream holds.
pub open spec fn count(tokens: Seq<Token>, id: TokenType) -> int
    decreases tokens.len(),
{
    if tokens.len() == 0 {
        0
    } else {
        count(tokens.drop_last(), id) + if tokens.last().id == id {
            1int
        } else {
            0int
        }
    }
}

/// 1 for an open kind of emphasis, 0 for a closed one.
pub open spec fn open_count(open: bool) -> int {
    if open {
        1
    } else {
        0
    }
}

/// Whether `id` is the begin or end token of a kind of emphasis.
pub open spec fn is_emphasis(id: TokenType) -> bool {
    id == TokenType::BoldBegin || id == TokenType::BoldEnd || id == TokenType::ItalicBegin || id
        == TokenType::ItalicEnd || id == TokenType::StrikeBegin || id == TokenType::StrikeEnd || id
        == TokenType::UnderlineBegin || id == TokenType::UnderlineEnd
}

/// The stream opens each kind of emphasis as often more than it closes it
/// as takes the state `from` to the state `to`.
pub open spec fn accounts_for(tokens: Seq<Token>, from: State, to: State) -> bool {
    &&& count(tokens, TokenType::BoldBegin) - count(tokens, TokenType::BoldEnd) == open_count(
        to.bold,
    ) - open_count(from.bold)
    &&& count(tokens, TokenType::ItalicBegin) - count(tokens, TokenType::ItalicEnd) == open_count(
        to.italic,
    ) - open_count(from.italic)
    &&& count(tokens, TokenType::StrikeBegin) - count(tokens, TokenType::StrikeEnd) == open_count(
        to.strike,
    ) - open_count(from.strike)
    &&& count(tokens, TokenType::UnderlineBegin) - count(tokens, TokenType::UnderlineEnd)
        == open_count(to.underline) - open_count(from.underline)
}

/// Every token is a range of a document of `n` characters.
pub open spec fn within(tokens: Seq<Token>, n: int) -> bool {
    forall|k: int| 0 <= k < tokens.len() ==> (#[trigger] tokens[k]).begin <= tokens[k].end <= n
}

/// The places at which a token may begin before the token in front of it:
/// the text of a link, which follows its target; the end of a block quote,
/// which covers the quote from its first character; and the text that an
/// unfinished code block is given up as, after its language.
pub open spec fn may_step_back(before: Token, t: Token) -> bool {
    ||| t.id == TokenType::LinkText
    ||| t.id == TokenType::BlockquoteEnd
    ||| (before.id == TokenType::CodeBlockLanguage && t.id == TokenType::Text)
}

/// From each token to the next the begin does not decrease, but at the
/// places that `may_step_back` names.
pub open spec fn ordered(tokens: Seq<Token>) -> bool {
    forall|k: int|
        0 < k < tokens.len() ==> tokens[k - 1].begin <= (#[trigger] tokens[k]).begin
            || may_step_back(tokens[k - 1], tokens[k])
}

/// Whether the stream holds none of the tokens before or at which a begin
/// may decrease.
pub open spec fn straight(tokens: Seq<Token>) -> bool {
    forall|k: int|
        0 <= k < tokens.len() ==> (#[trigger] tokens[k]).id != TokenType::LinkText && tokens[k].id
            != TokenType::BlockquoteEnd && tokens[k].id != TokenType::CodeBlockLanguage
}

/// The begins of the whole stream do not decrease.
pub open spec fn sorted(tokens: Seq<Token>) -> bool {
    forall|j: int, k: int|
        0 <= j <= k < tokens.len() ==> (#[trigger] tokens[j]).begin <= (#[trigger] tokens[k]).begin
}

/// A concatenation holds as many tokens of a kind as its two parts together.
pub proof fn lemma_count_concat(a: Seq<Token>, b: Seq<Token>, id: TokenType)
    ensures
        count(a + b, id) == count(a, id) + count(b, id),
    decreases b.len(),
{
    if b.len() == 0 {
        assert(a + b =~= a);
    } else {
        assert((a + b).drop_last() =~= a + b.drop_last());
        lemma_count_concat(a, b.drop_last(), id);
    }
}

/// A stream without a token of a kind holds none of that kind.
pub proof fn lemma_count_none(tokens: Seq<Token>, id: TokenType)
    requires
        forall|k: int| 0 <= k < tokens.len() ==> (#[trigger] tokens[k]).id != id,
    ensures
        count(tokens, id) == 0,
    decreases tokens.len(),
{
    if tokens.len() > 0 {
        lemma_count_none(tokens.drop_last(), id);
    }
}

/// A stream of one token holds one of its kind and none of any other.
pub proof fn lemma_count_one(t: Token, id: TokenType)
    ensures
        count(seq![t], id) == if t.id == id {
            1int
        } else {
            0int
        },
{
    assert(seq![t].drop_last() =~= Seq::<Token>::empty());
    assert(count(Seq::<Token>::empty(), id) == 0);
}

/// A stream without emphasis tokens leaves every state as it was.
pub proof fn lemma_unemphatic(tokens: Seq<Token>, state: State)
    requires
        forall|k: int| 0 <= k < tokens.len() ==> !is_emphasis((#[trigger] tokens[k]).id),
    ensures
        accounts_for(tokens, state, state),
{
    lemma_count_none(tokens, TokenType::BoldBegin);
    lemma_count_none(tokens, TokenType::BoldEnd);
    lemma_count_none(tokens, TokenType::ItalicBegin);
    lemma_count_none(tokens, TokenType::ItalicEnd);
    lemma_count_none(tokens, TokenType::StrikeBegin);
    lemma_count_none(tokens, TokenType::StrikeEnd);
    lemma_count_none(tokens, TokenType::UnderlineBegin);
    lemma_count_none(tokens, TokenType::UnderlineEnd);
}

/// What two streams account for one after the other, their concatenation
/// accounts for.
pub proof fn lemma_accounts_concat(
    a: Seq<Token>,
    b: Seq<Token>,
    from: State,
    via: State,
    to: State,
)
    requires
        accounts_for(a, from, via),
        accounts_for(b, via, to),
    ensures
        accounts_for(a + b, from, to),
{
    lemma_count_concat(a, b, TokenType::BoldBegin);
    lemma_count_concat(a, b, TokenType::BoldEnd);
    lemma_count_concat(a, b, TokenType::ItalicBegin);
    lemma_count_concat(a, b, TokenType::ItalicEnd);
    lemma_count_concat(a, b, TokenType::StrikeBegin);
    lemma_count_concat(a, b, TokenType::StrikeEnd);
    lemma_count_concat(a, b, TokenType::UnderlineBegin);
    lemma_count_concat(a, b, TokenType::UnderlineEnd);
}

/// The token of a delimiter accounts for the toggle of its state.
pub proof fn lemma_delimiter_accounts(state: State, s: Seq<char>, i: int)
    requires
        0 <= i < s.len(),
        is_delimiter(s[i]),
    ensures
        accounts_for(delimiter(state, s, i).tokens, state, toggled(state, s, i)),
{
    let t = delimiter(state, s, i).tokens[0];
    assert(delimiter(state, s, i).tokens =~= seq![t]);
    lemma_count_one(t, TokenType::BoldBegin);
    lemma_count_one(t, TokenType::BoldEnd);
    lemma_count_one(t, TokenType::ItalicBegin);
    lemma_count_one(t, TokenType::ItalicEnd);
    lemma_count_one(t, TokenType::StrikeBegin);
    lemma_count_one(t, TokenType::StrikeEnd);
    lemma_count_one(t, TokenType::UnderlineBegin);
    lemma_count_one(t, TokenType::UnderlineEnd);
}

/// What holds of the construct `m` that the scan reads at index `i` of a
/// document of `n` characters, entering in `state`: the scan moves on and
/// stays in the document; every token is a range of the document that
/// begins at or after `i` and no later than where the scan goes on; the
/// begins are ordered; and the emphasis tokens account for the change of
/// state.
#[verifier::opaque]
pub open spec fn fine(m: Marked, state: State, i: int, n: int) -> bool {
    &&& i < m.next <= n
    &&& forall|k: int|
        0 <= k < m.tokens.len() ==> i <= (#[trigger] m.tokens[k]).begin <= m.tokens[k].end <= n
            && m.tokens[k].begin <= m.next
    &&& ordered(m.tokens)
    &&& accounts_for(m.tokens, state, m.state)
}

/// A construct without emphasis tokens is fine where its tokens are in
/// place and in order.
proof fn lemma_plain_fine(scan: Scan, state: State, i: int, n: int)
    requires
        i < scan.next <= n,
        forall|k: int|
            0 <= k < scan.tokens.len() ==> i <= (#[trigger] scan.tokens[k]).begin
                <= scan.tokens[k].end <= n && scan.tokens[k].begin <= scan.next && !is_emphasis(
                scan.tokens[k].id,
            ),
        ordered(scan.tokens),
    ensures
        fine(unmarked(scan, state), state, i, n),
{
    reveal(fine);
    lemma_unemphatic(scan.tokens, state);
}

proof fn lemma_heading_fine(state: State, s: Seq<char>, i: int)
    requires
        0 <= i < s.len() <= usize::MAX,
    ensures
        fine(unmarked(heading(s, i), state), state, i, s.len() as int),
{
    lemma_first_not(s, i + 1, '#');
    lemma_plain_fine(heading(s, i), state, i, s.len() as int);
}

proof fn lemma_checkbutton_fine(state: State, s: Seq<char>, i: int)
    requires
        0 <= i < s.len() <= usize::MAX,
    ensures
        fine(unmarked(checkbutton(s, i), state), state, i, s.len() as int),
{
    lemma_plain_fine(checkbutton(s, i), state, i, s.len() as int);
}

proof fn lemma_bracketed_fine(state: State, s: Seq<char>, i: int, inner: int, image: bool)
    requires
        0 <= i < inner <= s.len() <= usize::MAX,
    ensures
        fine(unmarked(bracketed(s, i, inner, image), state), state, i, s.len() as int),
{
    let j = first_of(s, inner, ']', '\n');
    lemma_first_of(s, inner, ']', '\n');
    if j + 2 <= s.len() {
        lemma_first_of(s, j + 2, ')', '\n');
    }
    lemma_plain_fine(bracketed(s, i, inner, image), state, i, s.len() as int);
}

proof fn lemma_horizontalrule_fine(state: State, s: Seq<char>, i: int)
    requires
        0 <= i < s.len() <= usize::MAX,
    ensures
        fine(unmarked(horizontalrule(s, i), state), state, i, s.len() as int),
{
    lemma_plain_fine(horizontalrule(s, i), state, i, s.len() as int);
}

proof fn lemma_code_fine(state: State, s: Seq<char>, i: int)
    requires
        0 <= i < s.len() <= usize::MAX,
    ensures
        fine(unmarked(code(s, i), state), state, i, s.len() as int),
{
    lemma_first_of(s, i + 1, '`', '`');
    lemma_plain_fine(code(s, i), state, i, s.len() as int);
}

/// `first_fence` finds a fence at or after `from`, or the end.
pub proof fn lemma_first_fence(s: Seq<char>, from: int)
    requires
        0 <= from <= s.len(),
    ensures
        from <= first_fence(s, from) <= s.len(),
        first_fence(s, from) < s.len() ==> fence_at(s, first_fence(s, from)),
        forall|p: int| from <= p < first_fence(s, from) ==> !fence_at(s, p),
    decreases s.len() - from,
{
    if from < s.len() && !fence_at(s, from) {
        lemma_first_fence(s, from + 1);
    }
}

proof fn lemma_codeblock_fine(state: State, s: Seq<char>, i: int)
    requires
        0 <= i < s.len() <= usize::MAX,
    ensures
        fine(unmarked(codeblock(s, i), state), state, i, s.len() as int),
{
    if i + 3 <= s.len() {
        lemma_first_of(s, i + 3, '\n', '\n');
        let body = first_of(s, i + 3, '\n', '\n') + 1;
        if body <= s.len() {
            lemma_first_fence(s, body);
        }
    }
    lemma_plain_fine(codeblock(s, i), state, i, s.len() as int);
}

/// `indent_end` finds a newline at or after `p`, or the end.
pub proof fn lemma_indent_end(s: Seq<char>, p: int)
    requires
        0 <= p <= s.len(),
    ensures
        p <= indent_end(s, p) <= s.len(),
        indent_end(s, p) < s.len() ==> s[indent_end(s, p)] == '\n',
    decreases s.len() - p,
{
    let j = first_of(s, p, '\n', '\n');
    lemma_first_of(s, p, '\n', '\n');
    if j < s.len() && indent_at(s, j + 1) {
        lemma_indent_end(s, j + 5);
    }
}

proof fn lemma_indentblock_fine(state: State, s: Seq<char>, i: int)
    requires
        0 <= i < s.len() <= usize::MAX,
    ensures
        fine(unmarked(indentblock(s, i), state), state, i, s.len() as int),
{
    if i + 4 <= s.len() {
        lemma_indent_end(s, i + 4);
    }
    lemma_plain_fine(indentblock(s, i), state, i, s.len() as int);
}

/// In front of an ordered stream whose tokens begin at or after `p`, but
/// for the ends of block quotes, an ordered stream whose tokens begin
/// before or at `p` gives an ordered stream.
proof fn lemma_ordered_concat(a: Seq<Token>, b: Seq<Token>, p: int)
    requires
        ordered(a),
        ordered(b),
        forall|k: int| 0 <= k < a.len() ==> (#[trigger] a[k]).begin <= p,
        forall|k: int|
            0 <= k < b.len() ==> p <= (#[trigger] b[k]).begin || b[k].id
                == TokenType::BlockquoteEnd,
    ensures
        ordered(a + b),
{
    assert forall|k: int| 0 < k < (a + b).len() implies (a + b)[k - 1].begin <= (#[trigger] (a
        + b)[k]).begin || may_step_back((a + b)[k - 1], (a + b)[k]) by {
        if k < a.len() {
            assert((a + b)[k] == a[k]);
            assert((a + b)[k - 1] == a[k - 1]);
        } else if k == a.len() {
            assert((a + b)[k] == b[0]);
            assert((a + b)[k - 1] == a[k - 1]);
        } else {
            assert((a + b)[k] == b[k - a.len()]);
            assert((a + b)[k - 1] == b[k - a.len() - 1]);
        }
    }
}

/// What holds of the inside `m` of a block quote that began at `i`, read
/// from `p` on in `state`: as `fine`, and every token but the quote's end
/// begins at or after `p`.
#[verifier::opaque]
pub open spec fn quote_fine(m: Marked, state: State, i: int, p: int, n: int) -> bool {
    &&& p <= m.next <= n
    &&& forall|k: int|
        0 <= k < m.tokens.len() ==> i <= (#[trigger] m.tokens[k]).begin <= m.tokens[k].end <= n
            && m.tokens[k].begin <= m.next && (p <= m.tokens[k].begin || m.tokens[k].id
            == TokenType::BlockquoteEnd)
    &&& ordered(m.tokens)
    &&& accounts_for(m.tokens, state, m.state)
}

/// Tokens read between `p` and `q` in front of a fine inside read from `q`
/// give a fine inside read from `p`.
proof fn lemma_quote_prepend(
    head: Seq<Token>,
    rest: Marked,
    state: State,
    via: State,
    i: int,
    p: int,
    q: int,
    n: int,
)
    requires
        i <= p <= q,
        forall|k: int|
            0 <= k < head.len() ==> p <= (#[trigger] head[k]).begin <= head[k].end <= n
                && head[k].begin <= q,
        ordered(head),
        accounts_for(head, state, via),
        quote_fine(rest, via, i, q, n),
    ensures
        quote_fine(after(head, rest), state, i, p, n),
{
    reveal(quote_fine);
    lemma_accounts_concat(head, rest.tokens, state, via, rest.state);
    lemma_ordered_concat(head, rest.tokens, q);
    let all = head + rest.tokens;
    assert forall|k: int| 0 <= k < all.len() implies i <= (#[trigger] all[k]).begin <= all[k].end
        <= n && all[k].begin <= rest.next && (p <= all[k].begin || all[k].id
        == TokenType::BlockquoteEnd) by {
        if k < head.len() {
            assert(all[k] == head[k]);
        } else {
            assert(all[k] == rest.tokens[k - head.len()]);
        }
    }
}

/// The inside of a block quote is fine from wherever it is read.
proof fn lemma_quoted_fine(state: State, s: Seq<char>, i: int, p: int)
    requires
        0 <= i < p <= s.len() <= usize::MAX,
    ensures
        quote_fine(quoted(state, s, i, p), state, i, p, s.len() as int),
    decreases s.len() - p,
{
    let n = s.len() as int;
    let m = quoted(state, s, i, p);
    if p >= n {
        lemma_unemphatic(m.tokens, state);
        reveal(quote_fine);
    } else if s[p] == '\n' {
        if p + 1 < n && s[p + 1] == '\n' {
            lemma_unemphatic(m.tokens, state);
            reveal(quote_fine);
        } else {
            lemma_quoted_fine(state, s, i, p + 1);
            reveal(quote_fine);
        }
    } else if is_delimiter(s[p]) {
        let head = delimiter(state, s, p).tokens;
        let q = past_delimiter(s, p);
        lemma_quoted_fine(toggled(state, s, p), s, i, q);
        lemma_delimiter_accounts(state, s, p);
        lemma_quote_prepend(
            head,
            quoted(toggled(state, s, p), s, i, q),
            state,
            toggled(state, s, p),
            i,
            p,
            q,
            n,
        );
    } else {
        let head = seq![token(TokenType::Text, p, p + 1)];
        lemma_quoted_fine(state, s, i, p + 1);
        lemma_unemphatic(head, state);
        lemma_quote_prepend(head, quoted(state, s, i, p + 1), state, state, i, p, p + 1, n);
    }
}

proof fn lemma_blockquote_fine(state: State, s: Seq<char>, i: int)
    requires
        0 <= i < s.len() <= usize::MAX,
    ensures
        fine(blockquote(state, s, i), state, i, s.len() as int),
{
    let m = blockquote(state, s, i);
    if line_start(s, i) {
        let head = seq![token(TokenType::BlockquoteBegin, i, i + 1)];
        lemma_quoted_fine(state, s, i, i + 1);
        lemma_unemphatic(head, state);
        lemma_quote_prepend(head, quoted(state, s, i, i + 1), state, state, i, i, i + 1,
            s.len() as int);
        reveal(quote_fine);
        reveal(fine);
    } else {
        lemma_unemphatic(m.tokens, state);
        reveal(fine);
    }
}

proof fn lemma_delimiter_fine(state: State, s: Seq<char>, i: int)
    requires
        0 <= i < s.len() <= usize::MAX,
        is_delimiter(s[i]),
    ensures
        fine(
            Marked {
                tokens: delimiter(state, s, i).tokens,
                next: past_delimiter(s, i),
                state: toggled(state, s, i),
            },
            state,
            i,
            s.len() as int,
        ),
{
    reveal(fine);
    lemma_delimiter_accounts(state, s, i);
}

proof fn lemma_dash_fine(state: State, s: Seq<char>, i: int)
    requires
        0 <= i < s.len() <= usize::MAX,
        s[i] == '-',
    ensures
        fine(step(state, s, i), state, i, s.len() as int),
{
    if followed_by(s, i, '-') {
        lemma_horizontalrule_fine(state, s, i);
    } else if followed_by(s, i, ' ') {
        lemma_checkbutton_fine(state, s, i);
    } else {
        lemma_plain_fine(literal(i), state, i, s.len() as int);
    }
}

proof fn lemma_backtick_fine(state: State, s: Seq<char>, i: int)
    requires
        0 <= i < s.len() <= usize::MAX,
        s[i] == '`',
    ensures
        fine(step(state, s, i), state, i, s.len() as int),
{
    if followed_by(s, i, '`') {
        lemma_codeblock_fine(state, s, i);
    } else if i + 1 < s.len() {
        lemma_code_fine(state, s, i);
    } else {
        lemma_plain_fine(literal(i), state, i, s.len() as int);
    }
}

proof fn lemma_space_fine(state: State, s: Seq<char>, i: int)
    requires
        0 <= i < s.len() <= usize::MAX,
        s[i] == ' ',
    ensures
        fine(step(state, s, i), state, i, s.len() as int),
{
    if followed_by(s, i, ' ') {
        lemma_indentblock_fine(state, s, i);
    } else {
        lemma_plain_fine(
            one(TokenType::Space, i, i + 1, i + 1),
            state,
            i,
            s.len() as int,
        );
    }
}

proof fn lemma_image_fine(state: State, s: Seq<char>, i: int)
    requires
        0 <= i < s.len() <= usize::MAX,
    ensures
        fine(unmarked(image(s, i), state), state, i, s.len() as int),
{
    if i + 1 < s.len() && s[i + 1] == '[' {
        lemma_bracketed_fine(state, s, i, i + 2, true);
    } else {
        lemma_plain_fine(literal(i), state, i, s.len() as int);
    }
}

/// Every construct that the scan reads is fine.
pub proof fn lemma_step_fine(state: State, s: Seq<char>, i: int)
    requires
        0 <= i < s.len() <= usize::MAX,
    ensures
        fine(step(state, s, i), state, i, s.len() as int),
{
    let n = s.len() as int;
    let c = s[i];
    if c == '#' {
        lemma_heading_fine(state, s, i);
    } else if c == '-' {
        lemma_dash_fine(state, s, i);
    } else if c == '!' {
        lemma_image_fine(state, s, i);
    } else if c == '[' {
        lemma_bracketed_fine(state, s, i, i + 1, false);
    } else if c == '>' {
        lemma_blockquote_fine(state, s, i);
    } else if c == '`' {
        lemma_backtick_fine(state, s, i);
    } else if c == ' ' {
        lemma_space_fine(state, s, i);
    } else if is_delimiter(c) {
        lemma_delimiter_fine(state, s, i);
    } else if c == '\n' {
        lemma_plain_fine(one(TokenType::Newline, i, i + 1, i + 1), state, i, n);
    } else if c == '\t' {
        lemma_plain_fine(one(TokenType::Tab, i, i + 1, i + 1), state, i, n);
    } else if c == '\\' {
        lemma_plain_fine(escape(s, i), state, i, n);
    } else {
        lemma_plain_fine(literal(i), state, i, n);
    }
}

/// What holds of the tokens that the scan reads from index `i` on.
pub proof fn lemma_tokens_from(state: State, s: Seq<char>, i: int)
    requires
        0 <= i <= s.len() <= usize::MAX,
    ensures
        within(tokens_from(state, s, i), s.len() as int),
        forall|k: int|
            0 <= k < tokens_from(state, s, i).len() ==> i <= (#[trigger] tokens_from(
                state,
                s,
                i,
            )[k]).begin,
        ordered(tokens_from(state, s, i)),
        accounts_for(tokens_from(state, s, i), state, state_from(state, s, i)),
    decreases s.len() - i,
{
    if i < s.len() {
        let m = step(state, s, i);
        let rest = tokens_from(m.state, s, m.next);
        lemma_step_fine(state, s, i);
        reveal(fine);
        lemma_tokens_from(m.state, s, m.next);
        lemma_accounts_concat(m.tokens, rest, state, m.state, state_from(m.state, s, m.next));
        lemma_ordered_concat(m.tokens, rest, m.next);
        assert forall|k: int| 0 <= k < (m.tokens + rest).len() implies (#[trigger] (m.tokens
            + rest)[k]).begin <= (m.tokens + rest)[k].end <= s.len() && i <= (m.tokens
            + rest)[k].begin by {
            if k < m.tokens.len() {
                assert((m.tokens + rest)[k] == m.tokens[k]);
            } else {
                assert((m.tokens + rest)[k] == rest[k - m.tokens.len()]);
            }
        }
    } else {
        lemma_unemphatic(tokens_from(state, s, i), state);
    }
}

/// Every token of a document's stream is a range of the document.
pub proof fn lemma_tokens_within(text: Seq<char>)
    requires
        text.len() <= usize::MAX,
    ensures
        within(tokenize(text), text.len() as int),
{
    lemma_tokens_from(State::closed(), text, 0);
}

/// From each token of a document's stream to the next the begin does not
/// decrease, but into the text of a link, at the end of a block quote, and
/// into the text that an unfinished code block becomes.
pub proof fn lemma_begins_ordered(text: Seq<char>)
    requires
        text.len() <= usize::MAX,
    ensures
        ordered(tokenize(text)),
{
    lemma_tokens_from(State::closed(), text, 0);
}

/// In an ordered stream without link texts, block quote ends and code block
/// languages, no token begins before an earlier one.
pub proof fn lemma_straight_sorted(tokens: Seq<Token>)
    requires
        ordered(tokens),
        straight(tokens),
    ensures
        sorted(tokens),
{
    assert forall|j: int, k: int| 0 <= j <= k < tokens.len() implies (#[trigger] tokens[j]).begin
        <= (#[trigger] tokens[k]).begin by {
        lemma_straight_reach(tokens, j, k);
    }
}

/// In such a stream a token does not begin before any earlier one.
proof fn lemma_straight_reach(tokens: Seq<Token>, j: int, k: int)
    requires
        ordered(tokens),
        straight(tokens),
        0 <= j <= k < tokens.len(),
    ensures
        tokens[j].begin <= tokens[k].begin,
    decreases k - j,
{
    if j < k {
        lemma_straight_reach(tokens, j, k - 1);
        assert(tokens[k - 1].begin <= tokens[k].begin || may_step_back(tokens[k - 1], tokens[k]));
    }
}

/// The begins of a document's stream do not decrease, where the stream
/// holds no link text, no end of a block quote and no language of a code
/// block.
pub proof fn lemma_begins_nondecreasing(text: Seq<char>)
    requires
        text.len() <= usize::MAX,
        straight(tokenize(text)),
    ensures
        sorted(tokenize(text)),
{
    lemma_begins_ordered(text);
    lemma_straight_sorted(tokenize(text));
}

/// The emphasis state in which the scan of a document ends.
pub open spec fn final_state(text: Seq<char>) -> State {
    state_from(State::closed(), text, 0)
}

/// A document's stream holds, of each kind of emphasis, as many begin
/// tokens as end tokens, and one more where the kind is open at the end of
/// the document: in a document whose emphasis is all closed the begin and
/// end tokens of each kind are equal in number.
pub proof fn lemma_emphasis_balanced(text: Seq<char>)
    requires
        text.len() <= usize::MAX,
    ensures
        count(tokenize(text), TokenType::BoldBegin) == count(tokenize(text), TokenType::BoldEnd)
            + open_count(final_state(text).bold),
        count(tokenize(text), TokenType::ItalicBegin) == count(tokenize(text), TokenType::ItalicEnd)
            + open_count(final_state(text).italic),
        count(tokenize(text), TokenType::StrikeBegin) == count(tokenize(text), TokenType::StrikeEnd)
            + open_count(final_state(text).strike),
        count(tokenize(text), TokenType::UnderlineBegin) == count(
            tokenize(text),
            TokenType::UnderlineEnd,
        ) + open_count(final_state(text).underline),
{
    lemma_tokens_from(State::closed(), text, 0);
}

/// A run of `level` hashes at the start of a line, with a space after it,
/// is one token over the run and one over the space: a heading up to level
/// six, an error beyond.
pub proof fn lemma_heading_level(state: State, s: Seq<char>, i: int, level: int)
    requires
        0 <= i,
        1 <= level,
        i + level < s.len(),
        line_start(s, i),
        forall|j: int| i <= j < i + level ==> s[j] == '#',
        s[i + level] == ' ',
    ensures
        step(state, s, i).tokens == seq![
            token(
                if level <= 6 {
                    TokenType::Heading
                } else {
                    TokenType::Error
                },
                i,
                i + level,
            ),
            token(TokenType::Space, i + level, i + level + 1),
        ],
        step(state, s, i).next == i + level + 1,
        step(state, s, i).state == state,
{
    lemma_run_ends(s, i + 1, '#', i + level);
}

/// A dash, a space, a box and a space are one check button over the six
/// characters, checked where the box holds an `x` and not where it holds a
/// space; a dash and a space that no such box follows are text for the dash.
pub proof fn lemma_checkbutton(state: State, s: Seq<char>, i: int)
    requires
        0 <= i,
        i + 1 < s.len(),
        s[i] == '-',
        s[i + 1] == ' ',
    ensures
        checkbox_at(s, i, ' ') ==> step(state, s, i).tokens == seq![
            token(TokenType::Checkbutton(false), i, i + 6),
        ] && step(state, s, i).next == i + 6,
        checkbox_at(s, i, 'x') ==> step(state, s, i).tokens == seq![
            token(TokenType::Checkbutton(true), i, i + 6),
        ] && step(state, s, i).next == i + 6,
        !checkbox_at(s, i, ' ') && !checkbox_at(s, i, 'x') ==> step(
            state,
            s,
            i,
        ).tokens == seq![token(TokenType::Text, i, i + 1)] && step(state, s, i).next
            == i + 1,
{
}

/// Three dashes and a newline are one horizontal rule over the four
/// characters at the start of a line; elsewhere they are text and a
/// newline, never a rule.
pub proof fn lemma_horizontalrule(state: State, s: Seq<char>, i: int)
    requires
        0 <= i,
        i + 4 <= s.len(),
        s[i] == '-',
        s[i + 1] == '-',
        s[i + 2] == '-',
        s[i + 3] == '\n',
    ensures
        line_start(s, i) ==> step(state, s, i).tokens == seq![
            token(TokenType::HorizontalRule, i, i + 4),
        ],
        !line_start(s, i) ==> step(state, s, i).tokens == seq![
            token(TokenType::Text, i, i + 3),
            token(TokenType::Newline, i + 3, i + 4),
        ],
        step(state, s, i).next == i + 4,
{
}

/// A backslash and the character after it are an escape token and a text
/// token, whatever the character is; the emphasis state stays as it was,
/// and the two tokens render as the character itself.
pub proof fn lemma_escape_literal(state: State, s: Seq<char>, i: int)
    requires
        0 <= i,
        i + 1 < s.len() <= usize::MAX,
        s[i] == '\\',
    ensures
        step(state, s, i).tokens == seq![
            token(TokenType::Escape, i, i + 1),
            token(TokenType::Text, i + 1, i + 2),
        ],
        step(state, s, i).next == i + 2,
        step(state, s, i).state == state,
        render(s, step(state, s, i).tokens) == seq![seq![s[i + 1]]],
{
    let tokens = step(state, s, i).tokens;
    let p = piece(s, tokens, 0);
    assert(text_of(s, tokens[1]) =~= seq![s[i + 1]]);
    assert(p.fragments =~= seq![seq![s[i + 1]]]);
    assert(p.next == 2);
    assert(render_from(s, tokens, 2) =~= Seq::<Seq<char>>::empty());
    assert(render(s, tokens) =~= p.fragments + render_from(
        s,
        tokens,
        2,
    ));
}

/// An image whose alternative text runs from `i + 2` to the first closing
/// bracket at `j`, in the same line, and whose source runs from the
/// parenthesis after it to the first closing parenthesis at `k`, in the same
/// line, is one token for the alternative text and one for the source.
pub proof fn lemma_image_pair(state: State, s: Seq<char>, i: int, j: int, k: int)
    requires
        0 <= i,
        i + 2 <= j,
        j + 2 <= k < s.len(),
        s[i] == '!',
        s[i + 1] == '[',
        forall|x: int| i + 2 <= x < j ==> s[x] != ']' && s[x] != '\n',
        s[j] == ']',
        s[j + 1] == '(',
        forall|x: int| j + 2 <= x < k ==> s[x] != ')' && s[x] != '\n',
        s[k] == ')',
    ensures
        step(state, s, i).tokens == seq![
            token(TokenType::ImageAlt, i + 2, j),
            token(TokenType::ImageSrc, j + 2, k),
        ],
        step(state, s, i).next == k + 1,
{
    lemma_found_at(s, i + 2, ']', '\n', j);
    lemma_found_at(s, j + 2, ')', '\n', k);
}

/// A link whose text runs from `i + 1` to the first closing bracket at `j`,
/// in the same line, and whose target runs from the parenthesis after it to
/// the first closing parenthesis at `k`, in the same line, is one token for
/// the target and one for the text, the target's first.
pub proof fn lemma_link_pair(state: State, s: Seq<char>, i: int, j: int, k: int)
    requires
        0 <= i < j,
        j + 2 <= k < s.len(),
        s[i] == '[',
        forall|x: int| i + 1 <= x < j ==> s[x] != ']' && s[x] != '\n',
        s[j] == ']',
        s[j + 1] == '(',
        forall|x: int| j + 2 <= x < k ==> s[x] != ')' && s[x] != '\n',
        s[k] == ')',
    ensures
        step(state, s, i).tokens == seq![
            token(TokenType::LinkHref, j + 2, k),
            token(TokenType::LinkText, i + 1, j),
        ],
        step(state, s, i).next == k + 1,
{
    lemma_found_at(s, i + 1, ']', '\n', j);
    lemma_found_at(s, j + 2, ')', '\n', k);
}

/// A link whose line ends at `j` before its closing bracket is one error
/// token up to the newline, and one token for the newline.
pub proof fn lemma_link_unterminated(state: State, s: Seq<char>, i: int, j: int)
    requires
        0 <= i < j < s.len(),
        s[i] == '[',
        forall|x: int| i + 1 <= x < j ==> s[x] != ']' && s[x] != '\n',
        s[j] == '\n',
    ensures
        step(state, s, i).tokens == seq![
            token(TokenType::Error, i, j),
            token(TokenType::Newline, j, j + 1),
        ],
        step(state, s, i).next == j + 1,
{
    lemma_found_at(s, i + 1, ']', '\n', j);
}

/// Where no fence stands from `from` up to `at`, and one stands at `at`,
/// `first_fence` finds `at`.
pub proof fn lemma_fence_found_at(s: Seq<char>, from: int, at: int)
    requires
        0 <= from <= at < s.len(),
        forall|p: int| from <= p < at ==> !fence_at(s, p),
        fence_at(s, at),
    ensures
        first_fence(s, from) == at,
    decreases at - from,
{
    if from < at {
        lemma_fence_found_at(s, from + 1, at);
    }
}

/// A fenced code block at the start of a line, whose opening line ends at
/// `nl` and whose first closing fence stands at `fence`, is four tokens: the
/// opening backticks; the language, with its newline; the body, from after
/// that newline up to the closing fence; and the newline of the fence.
pub proof fn lemma_codeblock_tokens(state: State, s: Seq<char>, i: int, nl: int, fence: int)
    requires
        0 <= i,
        i + 3 <= nl < fence < s.len(),
        line_start(s, i),
        s[i] == '`',
        s[i + 1] == '`',
        s[i + 2] == '`',
        forall|x: int| i + 3 <= x < nl ==> s[x] != '\n',
        s[nl] == '\n',
        forall|p: int| nl + 1 <= p < fence ==> !fence_at(s, p),
        fence_at(s, fence),
    ensures
        step(state, s, i).tokens == seq![
            token(TokenType::CodeBlockBegin, i, i + 3),
            token(TokenType::CodeBlockLanguage, i + 3, nl + 1),
            token(TokenType::CodeBlockEnd, nl + 1, fence),
            token(TokenType::Newline, fence + 3, fence + 4),
        ],
        step(state, s, i).next == fence + 4,
{
    lemma_found_at(s, i + 3, '\n', '\n', nl);
    lemma_fence_found_at(s, nl + 1, fence);
}

/// The begin and end tokens of emphasis render as the opening and closing
/// tags of their kind, each by itself.
pub proof fn lemma_emphasis_tags(text: Seq<char>, tokens: Seq<Token>, k: int)
    requires
        0 <= k < tokens.len(),
    ensures
        tokens[k].id == TokenType::BoldBegin ==> piece(text, tokens, k).fragments == seq!["<b>"@],
        tokens[k].id == TokenType::BoldEnd ==> piece(text, tokens, k).fragments == seq!["</b>"@],
        tokens[k].id == TokenType::ItalicBegin ==> piece(text, tokens, k).fragments == seq![
            "<i>"@,
        ],
        tokens[k].id == TokenType::ItalicEnd ==> piece(text, tokens, k).fragments == seq!["</i>"@],
        tokens[k].id == TokenType::StrikeBegin ==> piece(text, tokens, k).fragments == seq![
            "<strike>"@,
        ],
        tokens[k].id == TokenType::StrikeEnd ==> piece(text, tokens, k).fragments == seq![
            "</strike>"@,
        ],
        tokens[k].id == TokenType::UnderlineBegin ==> piece(text, tokens, k).fragments == seq![
            "<u>"@,
        ],
        tokens[k].id == TokenType::UnderlineEnd ==> piece(text, tokens, k).fragments == seq![
            "</u>"@,
        ],
        is_emphasis(tokens[k].id) ==> piece(text, tokens, k).next == k + 1,
{
}

/// Whether each token is the column of a cell, cell after cell: every
/// token ends before the next begins.
pub open spec fn in_column_order(columns: Seq<Token>) -> bool {
    &&& forall|k: int|
        0 <= k < columns.len() ==> (#[trigger] columns[k]).id is TableColumn && columns[k].begin
            < columns[k].end
    &&& forall|k: int|
        0 < k < columns.len() ==> columns[k - 1].end < (#[trigger] columns[k]).begin
}

/// A well-formed cell ends after it begins, within the document.
pub proof fn lemma_cell_ends(s: Seq<char>, p: int)
    requires
        0 <= p,
        cell(s, p).ok,
    ensures
        p + 2 < cell(s, p).end < s.len(),
{
    let leading = p + 1 < s.len() && s[p + 1] == ':';
    let dashes = if leading {
        p + 2
    } else {
        p + 1
    };
    lemma_first_not(s, dashes, '-');
}

/// The cells of a row from `p` on add their columns behind those read
/// before, in the order of the cells.
pub proof fn lemma_row_in_order(s: Seq<char>, p: int, columns: Seq<Token>)
    requires
        0 <= p,
        s.len() <= usize::MAX,
        in_column_order(columns),
        columns.len() > 0 ==> columns.last().end < p,
        row(s, p, columns).ok,
    ensures
        in_column_order(row(s, p, columns).columns),
        columns.len() <= row(s, p, columns).columns.len(),
        row(s, p, columns).columns.subrange(0, columns.len() as int) == columns,
    decreases s.len() - p,
{
    let c = cell(s, p);
    let found = columns.push(token(TokenType::TableColumn(c.alignment), p, c.end));
    lemma_cell_ends(s, p);
    assert(in_column_order(found)) by {
        assert forall|k: int| 0 < k < found.len() implies found[k - 1].end < (
        #[trigger] found[k]).begin by {
            if k < columns.len() {
                assert(found[k] == columns[k]);
                assert(found[k - 1] == columns[k - 1]);
            }
        }
    }
    if c.end + 1 < s.len() && s[c.end + 1] == '\n' {
        assert(found.subrange(0, columns.len() as int) =~= columns);
    } else {
        lemma_row_in_order(s, c.end + 1, found);
        assert(row(s, p, columns).columns.subrange(0, columns.len() as int) =~= found.subrange(
            0,
            columns.len() as int,
        ));
        assert(found.subrange(0, columns.len() as int) =~= columns);
    }
}

/// The columns of a well-formed separator row stand in the order of its
/// cells, one token for each cell.
pub proof fn lemma_columns_in_order(s: Seq<char>, i: int)
    requires
        0 <= i,
        s.len() <= usize::MAX,
        separator(s, i).ok,
    ensures
        in_column_order(separator(s, i).columns),
        separator(s, i).columns.len() >= 1,
{
    lemma_row_in_order(s, i + 1, Seq::empty());
    let c = cell(s, i + 1);
    if !(c.end + 1 < s.len() && s[c.end + 1] == '\n') {
        lemma_cell_ends(s, i + 1);
        lemma_row_in_order(
            s,
            c.end + 1,
            Seq::<Token>::empty().push(token(TokenType::TableColumn(c.alignment), i + 1, c.end)),
        );
    }
}

/// Whether a blank line stands at `x`: a newline with another after it.
pub open spec fn blank_at(s: Seq<char>, x: int) -> bool {
    0 <= x && x + 1 < s.len() && s[x] == '\n' && s[x + 1] == '\n'
}

/// What holds of how the inside `m` of a block quote that began at `i`
/// ends, read from `p` on in a document `s`: its last token is the one end
/// token of the quote, from `i` to where the scan goes on, which is the
/// second newline of the first blank line or the end of the document.
pub open spec fn ends_once(m: Marked, s: Seq<char>, i: int, p: int) -> bool {
    &&& m.tokens.len() >= 1
    &&& m.tokens.last() == token(TokenType::BlockquoteEnd, i, m.next)
    &&& count(m.tokens, TokenType::BlockquoteEnd) == 1
    &&& p <= m.next <= s.len()
    &&& m.next == s.len() || (p < m.next && blank_at(s, m.next - 1))
    &&& forall|x: int| p <= x && x + 1 < m.next ==> !#[trigger] blank_at(s, x)
}

/// The inside of a block quote ends once, from wherever it is read.
proof fn lemma_quoted_ends_once(state: State, s: Seq<char>, i: int, p: int)
    requires
        0 <= i < p <= s.len(),
    ensures
        ends_once(quoted(state, s, i, p), s, i, p),
    decreases s.len() - p,
{
    let n = s.len() as int;
    let m = quoted(state, s, i, p);
    if p >= n {
        lemma_count_one(token(TokenType::BlockquoteEnd, i, n), TokenType::BlockquoteEnd);
    } else if s[p] == '\n' {
        if p + 1 < n && s[p + 1] == '\n' {
            lemma_count_one(token(TokenType::BlockquoteEnd, i, p + 1), TokenType::BlockquoteEnd);
        } else {
            lemma_quoted_ends_once(state, s, i, p + 1);
        }
    } else {
        let head = if is_delimiter(s[p]) {
            delimiter(state, s, p).tokens
        } else {
            seq![token(TokenType::Text, p, p + 1)]
        };
        let rest = if is_delimiter(s[p]) {
            quoted(toggled(state, s, p), s, i, past_delimiter(s, p))
        } else {
            quoted(state, s, i, p + 1)
        };
        if is_delimiter(s[p]) {
            lemma_quoted_ends_once(toggled(state, s, p), s, i, past_delimiter(s, p));
        } else {
            lemma_quoted_ends_once(state, s, i, p + 1);
        }
        assert(m.tokens =~= head + rest.tokens);
        lemma_count_none(head, TokenType::BlockquoteEnd);
        lemma_count_concat(head, rest.tokens, TokenType::BlockquoteEnd);
        assert((head + rest.tokens).last() == rest.tokens.last());
    }
}

/// A block quote at the start of a line is a begin token over its sign,
/// then the tokens of what it holds, then exactly one end token, which
/// begins at the sign and ends after it, where the scan goes on: at the
/// second newline of the first blank line, or at the end of the document
/// where no blank line follows.
pub proof fn lemma_blockquote_ends_once(state: State, s: Seq<char>, i: int)
    requires
        0 <= i < s.len(),
        s[i] == '>',
        line_start(s, i),
    ensures
        step(state, s, i).tokens.len() >= 2,
        step(state, s, i).tokens[0] == token(TokenType::BlockquoteBegin, i, i + 1),
        step(state, s, i).tokens.last() == token(
            TokenType::BlockquoteEnd,
            i,
            step(state, s, i).next,
        ),
        count(step(state, s, i).tokens, TokenType::BlockquoteEnd) == 1,
        i < step(state, s, i).next <= s.len(),
        step(state, s, i).next == s.len() || blank_at(s, step(state, s, i).next - 1),
        forall|x: int| i < x && x + 1 < step(state, s, i).next ==> !#[trigger] blank_at(s, x),
{
    let head = seq![token(TokenType::BlockquoteBegin, i, i + 1)];
    let rest = quoted(state, s, i, i + 1);
    lemma_quoted_ends_once(state, s, i, i + 1);
    lemma_count_none(head, TokenType::BlockquoteEnd);
    lemma_count_concat(head, rest.tokens, TokenType::BlockquoteEnd);
    assert((head + rest.tokens).last() == rest.tokens.last());
    assert((head + rest.tokens)[0] == head[0]);
}

/// A delimiter of emphasis, met again, closes what it opened: the state
/// after the two is the state before them.
pub proof fn lemma_pair_closes(state: State, s: Seq<char>, i: int, j: int)
    requires
        0 <= i < s.len(),
        0 <= j < s.len(),
        is_delimiter(s[i]),
        s[i] == s[j],
        doubled(s, i) == doubled(s, j),
    ensures
        toggled(toggled(state, s, i), s, j) == state,
{
}

} // verus!
