use markdown_html::lexer::lex;
use markdown_html::render::parse;
use markdown_html::token::{Token, TokenType};

fn html_of(text: &str) -> Vec<String> {
    let text = text.to_string();
    let tokens = lex(&text);
    parse(&text, &tokens)
}

fn strings(fragments: &[&str]) -> Vec<String> {
    fragments.iter().map(|f| f.to_string()).collect()
}

#[test]
fn renders_a_heading_with_its_line() {
    assert_eq!(html_of("# Title\n"), strings(&["<h1>Title</h1>\n"]));
    assert_eq!(html_of("### a b\nc"), strings(&["<h3>a b</h3>\n", "c"]));
    assert_eq!(html_of("###### six"), strings(&["<h6>six</h6>\n"]));
}

#[test]
fn renders_a_heading_up_to_the_first_markup() {
    assert_eq!(html_of("# a*b"), strings(&["<h1>a</h1>\n", "<i>", "b"]));
}

#[test]
fn renders_a_heading_level_in_decimal() {
    let text = "############ x".to_string();
    let tokens = vec![
        Token { id: TokenType::Heading, begin: 0, end: 12 },
        Token { id: TokenType::Space, begin: 12, end: 13 },
        Token { id: TokenType::Text, begin: 13, end: 14 },
    ];
    assert_eq!(parse(&text, &tokens), strings(&["<h12>x</h12>\n"]));
    let tokens = vec![Token { id: TokenType::Heading, begin: 0, end: 0 }];
    assert_eq!(parse(&text, &tokens), strings(&["<h0></h0>\n"]));
    let tokens = vec![Token { id: TokenType::Heading, begin: 0, end: 105 }];
    assert_eq!(parse(&text, &tokens), strings(&["<h105></h105>\n"]));
}

#[test]
fn renders_a_heading_error() {
    assert_eq!(
        html_of("####### x"),
        strings(&["<div class=\"error\">ERROR: #######</div>\n", " ", "x"])
    );
}

#[test]
fn renders_check_buttons() {
    assert_eq!(html_of("- [x] a"), strings(&["<input type=\"checkbox\" checked>", "a"]));
    assert_eq!(html_of("- [ ] a"), strings(&["<input type=\"checkbox\">", "a"]));
}

#[test]
fn renders_an_image() {
    assert_eq!(html_of("![alt](src)"), strings(&["<img alt=\"alt\"", " src=\"src\">"]));
}

#[test]
fn renders_a_link() {
    assert_eq!(html_of("[text](href)"), strings(&["<a href=\"href\">", "text</a>"]));
}

#[test]
fn renders_a_link_without_text_by_its_target() {
    assert_eq!(html_of("[](href)"), strings(&["<a href=\"href\">", "href</a>"]));
}

#[test]
fn renders_an_unterminated_link_as_an_error() {
    assert_eq!(
        html_of("[text(\nx"),
        strings(&["<div class=\"error\">ERROR: [text(</div>\n", "<br>\n", "x"])
    );
}

#[test]
fn renders_a_horizontal_rule() {
    assert_eq!(html_of("---\n"), strings(&["<hr>\n"]));
    assert_eq!(html_of("a---\n"), strings(&["a", "---", "<br>\n"]));
}

#[test]
fn renders_a_block_quote() {
    assert_eq!(html_of(">q\n\n"), strings(&["<blockquote>q</blockquote>"]));
    assert_eq!(html_of("> two words\n\nx"), strings(&[
        "<blockquote> two words</blockquote>",
        "x",
    ]));
    assert_eq!(html_of(">a\nb\n\n"), strings(&["<blockquote>a\nb</blockquote>"]));
}

#[test]
fn renders_a_block_quote_that_the_document_ends() {
    assert_eq!(html_of(">abc"), strings(&["<blockquote>abc</blockquote>"]));
    assert_eq!(html_of(">abc\n"), strings(&["<blockquote>abc</blockquote>"]));
    assert_eq!(html_of(">"), strings(&["<blockquote></blockquote>"]));
}

#[test]
fn renders_a_block_quote_without_its_closing_newline_only() {
    let text = ">ab".to_string();
    let tokens = vec![
        Token { id: TokenType::BlockquoteBegin, begin: 0, end: 1 },
        Token { id: TokenType::BlockquoteEnd, begin: 0, end: 2 },
    ];
    assert_eq!(parse(&text, &tokens), strings(&["<blockquote>a</blockquote>"]));
    let tokens = vec![
        Token { id: TokenType::BlockquoteBegin, begin: 0, end: 1 },
        Token { id: TokenType::BlockquoteEnd, begin: 0, end: 9 },
    ];
    assert_eq!(parse(&text, &tokens), strings(&["<blockquote></blockquote>"]));
}

#[test]
fn renders_inline_code() {
    assert_eq!(html_of("`ab`"), strings(&["<code>ab</code>"]));
    assert_eq!(html_of("`ab"), strings(&["`ab"]));
}

#[test]
fn renders_a_code_block_with_its_language() {
    assert_eq!(
        html_of("```rust\nfn f() {}\n```\n"),
        strings(&["<pre class=\"language-rust\">fn f() {}\n</pre>"])
    );
}

#[test]
fn renders_a_code_block_without_language_as_base() {
    assert_eq!(html_of("```\nx\n```\ny"), strings(&["<pre class=\"language-base\">x\n</pre>", "y"]));
}

#[test]
fn renders_an_unfinished_code_block_as_text() {
    assert_eq!(html_of("```rust\nbody"), strings(&["```rust\nbody"]));
    assert_eq!(html_of("```rust"), strings(&["```rust"]));
}

#[test]
fn renders_an_indented_block_without_its_indentation() {
    assert_eq!(html_of("    a\n    b\nc"), strings(&["<pre>a\nb</pre>", "c"]));
    assert_eq!(html_of("    a\n      b\n"), strings(&["<pre>a\n  b</pre>"]));
}

#[test]
fn renders_emphasis_in_document_order() {
    assert_eq!(
        html_of("**b** *i* ~~s~~ __u__"),
        strings(&[
            "<b>", "b", "</b>", " ", "<i>", "i", "</i>", " ", "<strike>", "s", "</strike>", " ",
            "<u>", "u", "</u>",
        ])
    );
}

#[test]
fn renders_an_escaped_character_as_itself() {
    assert_eq!(html_of("\\*a"), strings(&["*", "a"]));
    assert_eq!(html_of("\\#"), strings(&["#"]));
    assert_eq!(html_of("\\"), strings(&[]));
}

#[test]
fn renders_plain_characters() {
    assert_eq!(html_of("a \t\nb"), strings(&["a", " ", "\t", "<br>\n", "b"]));
    assert_eq!(html_of(""), strings(&[]));
    assert_eq!(html_of("é"), strings(&["é"]));
}

#[test]
fn renders_whitespace_tokens_by_their_text() {
    let text = "a b".to_string();
    let tokens = vec![Token { id: TokenType::Whitespace(' '), begin: 1, end: 2 }];
    assert_eq!(parse(&text, &tokens), strings(&[" "]));
}

#[test]
fn skips_tokens_that_have_no_rendering() {
    let text = "abc".to_string();
    let tokens = vec![
        Token { id: TokenType::Hash, begin: 0, end: 1 },
        Token { id: TokenType::ListBegin, begin: 0, end: 1 },
        Token { id: TokenType::BlockquoteEnd, begin: 0, end: 3 },
        Token { id: TokenType::ImageSrc, begin: 0, end: 3 },
        Token { id: TokenType::Text, begin: 1, end: 2 },
    ];
    assert_eq!(parse(&text, &tokens), strings(&["b"]));
}

#[test]
fn renders_nothing_for_a_range_outside_the_document() {
    let text = "abc".to_string();
    let tokens = vec![
        Token { id: TokenType::Text, begin: 2, end: 9 },
        Token { id: TokenType::Code, begin: 3, end: 1 },
        Token { id: TokenType::IndentBlock, begin: 0, end: 3 },
    ];
    assert_eq!(parse(&text, &tokens), strings(&["", "<code></code>", "<pre></pre>"]));
}

#[test]
fn stops_at_a_code_block_that_the_stream_cuts_off() {
    let text = "abc".to_string();
    let tokens = vec![
        Token { id: TokenType::Text, begin: 0, end: 1 },
        Token { id: TokenType::CodeBlockBegin, begin: 0, end: 3 },
    ];
    assert_eq!(parse(&text, &tokens), strings(&["a"]));
    let tokens = vec![
        Token { id: TokenType::CodeBlockBegin, begin: 0, end: 3 },
        Token { id: TokenType::Text, begin: 0, end: 1 },
    ];
    assert_eq!(parse(&text, &tokens), strings(&["a"]));
    let tokens = vec![
        Token { id: TokenType::CodeBlockBegin, begin: 0, end: 3 },
        Token { id: TokenType::CodeBlockLanguage, begin: 0, end: 1 },
        Token { id: TokenType::Text, begin: 0, end: 1 },
    ];
    assert_eq!(parse(&text, &tokens), strings(&["a"]));
}

#[test]
fn renders_an_image_or_a_link_that_the_stream_cuts_off() {
    let text = "abc".to_string();
    let tokens = vec![Token { id: TokenType::ImageAlt, begin: 0, end: 1 }];
    assert_eq!(parse(&text, &tokens), strings(&["<img alt=\"a\""]));
    let tokens = vec![Token { id: TokenType::LinkHref, begin: 0, end: 1 }];
    assert_eq!(parse(&text, &tokens), strings(&["<a href=\"a\">"]));
}

#[test]
fn renders_a_whole_document() {
    let html = html_of("# T\n- [x] do *it*\n---\n[a](b) `c`\n");
    assert_eq!(
        html.concat(),
        "<h1>T</h1>\n<input type=\"checkbox\" checked>do <i>it</i><br>\n<hr>\n<a href=\"b\">a</a> <code>c</code><br>\n"
    );
}
