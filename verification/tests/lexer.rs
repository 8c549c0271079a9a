use markdown_html::lexer::lex;
use markdown_html::table::Alignment;
use markdown_html::token::{Token, TokenType};

fn tokens_of(text: &str) -> Vec<Token> {
    lex(&text.to_string())
}

fn count(tokens: &[Token], id: TokenType) -> usize {
    tokens.iter().filter(|t| t.id == id).count()
}

#[test]
fn lib_heading() {
    let t = tokens_of("# a\n## b\n### c\n#### d\n##### e\n###### f\n####### g\n");
    let mut headings: usize = 0;
    let mut errors: usize = 0;
    for token in t.iter() {
        match token.id {
            TokenType::Heading => {
                headings += 1;
            },
            TokenType::Error => {
                errors += 1;
            },
            TokenType::Text | TokenType::Space | TokenType::Newline | TokenType::Whitespace(' ') => (),
            _ => panic!("Encounterd TokenType other than expected!"),
        }
    }
    assert!(headings == 6);
    assert!(errors == 1);
}

#[test]
fn main_heading() {
    let t = tokens_of("# one\n###### six\n####### seven\n## two\n### three\n#### four\n##### five");
    let mut headings: usize = 0;
    let mut errors: usize = 0;
    for token in t.iter() {
        match token.id {
            TokenType::Heading => {
                headings += 1;
            },
            TokenType::Error => {
                errors += 1;
            },
            TokenType::Text | TokenType::Space | TokenType::Newline | TokenType::Whitespace(' ') => (),
            _ => panic!("Encounterd TokenType other than expected!"),
        }
    }
    assert!(headings == 6);
    assert!(errors == 1);
}

#[test]
fn heading_levels_are_spans() {
    let t = tokens_of("### title");
    assert_eq!(t[0], Token { id: TokenType::Heading, begin: 0, end: 3 });
    assert_eq!(t[1], Token { id: TokenType::Space, begin: 3, end: 4 });
    let t = tokens_of("####### deep");
    assert_eq!(t[0], Token { id: TokenType::Error, begin: 0, end: 7 });
    assert_eq!(t[1], Token { id: TokenType::Space, begin: 7, end: 8 });
}

#[test]
fn heading_without_space_is_text() {
    let t = tokens_of("##x");
    assert_eq!(t, vec![Token { id: TokenType::Text, begin: 0, end: 3 }]);
    let t = tokens_of("##");
    assert_eq!(t, vec![Token { id: TokenType::Text, begin: 0, end: 2 }]);
    let t = tokens_of("a#");
    assert_eq!(t[1], Token { id: TokenType::Text, begin: 1, end: 2 });
}

#[test]
fn lib_checkbutton() {
    let t = tokens_of("- [ ] open\n- [x] done\n");
    let mut checkbuttons: usize = 0;
    for token in t.iter() {
        match token.id {
            TokenType::Checkbutton(_) => {
                checkbuttons += 1;
            },
            TokenType::Text | TokenType::Space | TokenType::Newline | TokenType::Whitespace(' ') => (),
            _ => panic!("Encounterd TokenType other than expected!"),
        }
    }
    assert!(checkbuttons == 2);
}

#[test]
fn main_checkbutton() {
    let t = tokens_of("- [x] first\n- [ ] second");
    let mut checkbuttons: usize = 0;
    for token in t.iter() {
        match token.id {
            TokenType::Checkbutton(_) => {
                checkbuttons += 1;
            },
            TokenType::Text | TokenType::Space | TokenType::Newline | TokenType::Whitespace(' ') => (),
            _ => panic!("Encounterd TokenType other than expected!"),
        }
    }
    assert!(checkbuttons == 2);
}

#[test]
fn checkbutton_spans_the_pattern() {
    let t = tokens_of("- [ ] a");
    assert_eq!(t[0], Token { id: TokenType::Checkbutton(false), begin: 0, end: 6 });
    assert_eq!(t[1], Token { id: TokenType::Text, begin: 6, end: 7 });
    let t = tokens_of("- [x] a");
    assert_eq!(t[0], Token { id: TokenType::Checkbutton(true), begin: 0, end: 6 });
    let t = tokens_of("- [y] a");
    assert_eq!(t[0], Token { id: TokenType::Text, begin: 0, end: 1 });
    assert_eq!(t[1], Token { id: TokenType::Space, begin: 1, end: 2 });
    assert_eq!(count(&t, TokenType::Checkbutton(false)), 0);
    assert_eq!(count(&t, TokenType::Checkbutton(true)), 0);
}

#[test]
fn image() {
    let t = tokens_of("![one](a.png)\n![two](b.png)\n![bad](c.png\n");
    let mut image_alt: usize = 0;
    let mut image_src: usize = 0;
    let mut errors: usize = 0;
    for token in t.iter() {
        match token.id {
            TokenType::ImageAlt => {
                image_alt += 1;
            },
            TokenType::ImageSrc => {
                image_src += 1;
            },
            TokenType::Error => {
                errors += 1;
            },
            TokenType::Text | TokenType::Space | TokenType::Newline | TokenType::Whitespace(' ') => (),
            _ => panic!("Encounterd TokenType other than expected!"),
        }
    }
    assert!(image_alt == 2);
    assert!(image_src == 2);
    assert!(errors == 1);
}

#[test]
fn image_ranges() {
    let t = tokens_of("![alt](src)");
    assert_eq!(
        t,
        vec![
            Token { id: TokenType::ImageAlt, begin: 2, end: 5 },
            Token { id: TokenType::ImageSrc, begin: 7, end: 10 },
        ]
    );
    let t = tokens_of("!x");
    assert_eq!(t[0], Token { id: TokenType::Text, begin: 0, end: 1 });
    let t = tokens_of("![alt]x");
    assert_eq!(t[0], Token { id: TokenType::Text, begin: 0, end: 6 });
    assert_eq!(t[1], Token { id: TokenType::Text, begin: 6, end: 7 });
    let t = tokens_of("![alt");
    assert_eq!(t, vec![Token { id: TokenType::Text, begin: 0, end: 5 }]);
}

#[test]
fn link() {
    let t = tokens_of("[one](a)\n[two](b)\n[bad](c\n");
    let mut link_text: usize = 0;
    let mut link_href: usize = 0;
    let mut errors: usize = 0;
    for token in t.iter() {
        match token.id {
            TokenType::LinkText => {
                link_text += 1;
            },
            TokenType::LinkHref => {
                link_href += 1;
            },
            TokenType::Error => {
                errors += 1;
            },
            TokenType::Text | TokenType::Space | TokenType::Newline | TokenType::Whitespace(' ') => (),
            _ => panic!("Encounterd TokenType other than expected!"),
        }
    }
    assert!(link_text == 2);
    assert!(link_href == 2);
    assert!(errors == 1);
}

#[test]
fn link_ranges() {
    let t = tokens_of("[text](href)");
    assert_eq!(
        t,
        vec![
            Token { id: TokenType::LinkHref, begin: 7, end: 11 },
            Token { id: TokenType::LinkText, begin: 1, end: 5 },
        ]
    );
}

#[test]
fn unterminated_link_is_an_error() {
    let t = tokens_of("[text(\nx");
    assert_eq!(
        t,
        vec![
            Token { id: TokenType::Error, begin: 0, end: 6 },
            Token { id: TokenType::Newline, begin: 6, end: 7 },
            Token { id: TokenType::Text, begin: 7, end: 8 },
        ]
    );
}

#[test]
fn horizontalrule() {
    let t = tokens_of("a\n---\nb ---\n");
    let mut hr: usize = 0;
    for token in t.iter() {
        match token.id {
            TokenType::HorizontalRule => {
                hr += 1;
            },
            TokenType::Text | TokenType::Space | TokenType::Newline | TokenType::Whitespace(' ') => (),
            _ => panic!("Encounterd TokenType other than expected!"),
        }
    }
    assert!(hr == 1);
}

#[test]
fn horizontalrule_ranges() {
    let t = tokens_of("---\n");
    assert_eq!(t, vec![Token { id: TokenType::HorizontalRule, begin: 0, end: 4 }]);
    let t = tokens_of("a---\n");
    assert_eq!(
        t,
        vec![
            Token { id: TokenType::Text, begin: 0, end: 1 },
            Token { id: TokenType::Text, begin: 1, end: 4 },
            Token { id: TokenType::Newline, begin: 4, end: 5 },
        ]
    );
    let t = tokens_of("---x");
    assert_eq!(t, vec![Token { id: TokenType::Text, begin: 0, end: 4 }]);
    let t = tokens_of("--");
    assert_eq!(t, vec![Token { id: TokenType::Text, begin: 0, end: 2 }]);
    let t = tokens_of("--a");
    assert_eq!(t, vec![Token { id: TokenType::Text, begin: 0, end: 3 }]);
    let t = tokens_of("---");
    assert_eq!(t, vec![Token { id: TokenType::Text, begin: 0, end: 3 }]);
}

#[test]
fn blockqoute() {
    let t = tokens_of("> one\n\n> two\n\n");
    let mut bb: usize = 0;
    let mut be: usize = 0;
    for token in t.iter() {
        match token.id {
            TokenType::BlockquoteBegin => {
                bb += 1;
            },
            TokenType::BlockquoteEnd => {
                be += 1;
            },
            TokenType::Text | TokenType::Space | TokenType::Newline | TokenType::Whitespace(' ') => (),
            _ => panic!("Encounterd TokenType other than expected!"),
        }
    }
    assert!(bb == 2);
    assert!(be == 2);
}

#[test]
fn blockquote_ranges() {
    let t = tokens_of(">q\n\n");
    assert_eq!(
        t,
        vec![
            Token { id: TokenType::BlockquoteBegin, begin: 0, end: 1 },
            Token { id: TokenType::Text, begin: 1, end: 2 },
            Token { id: TokenType::BlockquoteEnd, begin: 0, end: 3 },
            Token { id: TokenType::Newline, begin: 3, end: 4 },
        ]
    );
    let t = tokens_of(">ab");
    assert_eq!(
        t,
        vec![
            Token { id: TokenType::BlockquoteBegin, begin: 0, end: 1 },
            Token { id: TokenType::Text, begin: 1, end: 2 },
            Token { id: TokenType::Text, begin: 2, end: 3 },
            Token { id: TokenType::BlockquoteEnd, begin: 0, end: 3 },
        ]
    );
    let t = tokens_of("a>");
    assert_eq!(t[1], Token { id: TokenType::Text, begin: 1, end: 2 });
}

#[test]
fn blockquote_at_the_end_of_the_document_reaches_past_its_sign() {
    let t = tokens_of(">");
    assert_eq!(
        t,
        vec![
            Token { id: TokenType::BlockquoteBegin, begin: 0, end: 1 },
            Token { id: TokenType::BlockquoteEnd, begin: 0, end: 1 },
        ]
    );
    let t = tokens_of("a\n>b\n");
    assert_eq!(
        t,
        vec![
            Token { id: TokenType::Text, begin: 0, end: 1 },
            Token { id: TokenType::Newline, begin: 1, end: 2 },
            Token { id: TokenType::BlockquoteBegin, begin: 2, end: 3 },
            Token { id: TokenType::Text, begin: 3, end: 4 },
            Token { id: TokenType::BlockquoteEnd, begin: 2, end: 5 },
        ]
    );
}

#[test]
fn blockquote_reads_emphasis_after_a_newline() {
    let t = tokens_of(">x\n*b*");
    assert_eq!(
        t,
        vec![
            Token { id: TokenType::BlockquoteBegin, begin: 0, end: 1 },
            Token { id: TokenType::Text, begin: 1, end: 2 },
            Token { id: TokenType::ItalicBegin, begin: 3, end: 4 },
            Token { id: TokenType::Text, begin: 4, end: 5 },
            Token { id: TokenType::ItalicEnd, begin: 5, end: 6 },
            Token { id: TokenType::BlockquoteEnd, begin: 0, end: 6 },
        ]
    );
    assert_eq!(count(&t, TokenType::ItalicBegin), count(&t, TokenType::ItalicEnd));
}

#[test]
fn blockquote_has_one_end_and_one_newline_for_its_blank_line() {
    let t = tokens_of(">a\nb\n\nc\n\n");
    assert_eq!(count(&t, TokenType::BlockquoteBegin), 1);
    assert_eq!(count(&t, TokenType::BlockquoteEnd), 1);
    assert_eq!(
        t,
        vec![
            Token { id: TokenType::BlockquoteBegin, begin: 0, end: 1 },
            Token { id: TokenType::Text, begin: 1, end: 2 },
            Token { id: TokenType::Text, begin: 3, end: 4 },
            Token { id: TokenType::BlockquoteEnd, begin: 0, end: 5 },
            Token { id: TokenType::Newline, begin: 5, end: 6 },
            Token { id: TokenType::Text, begin: 6, end: 7 },
            Token { id: TokenType::Newline, begin: 7, end: 8 },
            Token { id: TokenType::Newline, begin: 8, end: 9 },
        ]
    );
}

#[test]
fn blockquote_shares_the_emphasis_state() {
    let t = tokens_of(">**a\n\n**");
    assert_eq!(count(&t, TokenType::BoldBegin), 1);
    assert_eq!(count(&t, TokenType::BoldEnd), 1);
    assert_eq!(t[1], Token { id: TokenType::BoldBegin, begin: 1, end: 3 });
    assert_eq!(t[t.len() - 1], Token { id: TokenType::BoldEnd, begin: 6, end: 8 });
}

#[test]
fn code() {
    let t = tokens_of("`one` and `two`\n");
    let mut code: usize = 0;
    for token in t.iter() {
        match token.id {
            TokenType::Code => {
                code += 1;
            },
            TokenType::Text | TokenType::Space | TokenType::Newline | TokenType::Whitespace(' ') => (),
            _ => panic!("Encounterd TokenType other than expected!"),
        }
    }
    assert!(code == 2);
}

#[test]
fn code_ranges() {
    let t = tokens_of("`ab`");
    assert_eq!(t, vec![Token { id: TokenType::Code, begin: 1, end: 3 }]);
    let t = tokens_of("`ab");
    assert_eq!(t, vec![Token { id: TokenType::Text, begin: 0, end: 3 }]);
    let t = tokens_of("`");
    assert_eq!(t, vec![Token { id: TokenType::Text, begin: 0, end: 1 }]);
}

#[test]
fn codeblock() {
    let t = tokens_of("```rust\nlet a;\n```\n```\nplain\n```\n```");
    let mut cbb: usize = 0;
    let mut cbe: usize = 0;
    let mut cbl: usize = 0;
    for token in t.iter() {
        match token.id {
            TokenType::CodeBlockBegin => {
                cbb += 1;
            },
            TokenType::CodeBlockEnd => {
                cbe += 1;
            },
            TokenType::CodeBlockLanguage => {
                cbl += 1;
            },
            TokenType::Text | TokenType::Space | TokenType::Newline | TokenType::Whitespace(' ') => (),
            _ => panic!("Encounterd TokenType other than expected!"),
        }
    }
    assert!(cbb == 3);
    assert!(cbe == 2);
    assert!(cbl == 2);
}

#[test]
fn codeblock_ranges() {
    let t = tokens_of("```rust\nfn f() {}\n```\n");
    assert_eq!(
        t,
        vec![
            Token { id: TokenType::CodeBlockBegin, begin: 0, end: 3 },
            Token { id: TokenType::CodeBlockLanguage, begin: 3, end: 8 },
            Token { id: TokenType::CodeBlockEnd, begin: 8, end: 18 },
            Token { id: TokenType::Newline, begin: 21, end: 22 },
        ]
    );
}

#[test]
fn codeblock_without_fence_is_text() {
    let t = tokens_of("```rust\nbody");
    assert_eq!(
        t,
        vec![
            Token { id: TokenType::CodeBlockBegin, begin: 0, end: 3 },
            Token { id: TokenType::CodeBlockLanguage, begin: 3, end: 8 },
            Token { id: TokenType::Text, begin: 0, end: 12 },
        ]
    );
    let t = tokens_of("```rust");
    assert_eq!(
        t,
        vec![
            Token { id: TokenType::CodeBlockBegin, begin: 0, end: 3 },
            Token { id: TokenType::Text, begin: 0, end: 7 },
        ]
    );
    let t = tokens_of("``");
    assert_eq!(t, vec![Token { id: TokenType::Text, begin: 0, end: 2 }]);
    let t = tokens_of("``a");
    assert_eq!(t, vec![Token { id: TokenType::Text, begin: 0, end: 3 }]);
}

#[test]
fn codeblock_fence_needs_its_newline() {
    let t = tokens_of("```\na\n```x\n```\n");
    assert_eq!(t[2], Token { id: TokenType::CodeBlockEnd, begin: 4, end: 11 });
    assert_eq!(t[3], Token { id: TokenType::Newline, begin: 14, end: 15 });
    assert_eq!(t.len(), 4);
}

#[test]
fn indentblock() {
    let t = tokens_of("    a\nx\n    b\n    c\ny\n    d\n\n    e\n");
    let mut indent: usize = 0;
    for token in t.iter() {
        match token.id {
            TokenType::IndentBlock => {
                indent += 1;
            },
            TokenType::Text | TokenType::Space | TokenType::Newline | TokenType::Whitespace(' ') => (),
            _ => panic!("Encounterd TokenType other than expected!"),
        }
    }
    assert!(indent == 4);
}

#[test]
fn indentblock_ranges() {
    let t = tokens_of("    a\n    b\nc");
    assert_eq!(
        t,
        vec![
            Token { id: TokenType::IndentBlock, begin: 0, end: 11 },
            Token { id: TokenType::Text, begin: 12, end: 13 },
        ]
    );
    let t = tokens_of("    a");
    assert_eq!(t, vec![Token { id: TokenType::Text, begin: 0, end: 5 }]);
    let t = tokens_of("  a");
    assert_eq!(
        t,
        vec![
            Token { id: TokenType::Text, begin: 0, end: 1 },
            Token { id: TokenType::Space, begin: 1, end: 2 },
            Token { id: TokenType::Text, begin: 2, end: 3 },
        ]
    );
}

#[test]
fn escape() {
    let t = tokens_of("\\# no heading\n\\* no emphasis\n");
    let mut esc: usize = 0;
    for token in t.iter() {
        match token.id {
            TokenType::Escape => {
                esc += 1;
            },
            TokenType::Text
            | TokenType::Space
            | TokenType::Newline
            | TokenType::Whitespace(' ')
            | TokenType::Heading => (),
            _ => panic!("Encounterd TokenType other than expected!"),
        }
    }
    assert!(esc == 2);
}

#[test]
fn escape_keeps_the_next_character_as_text() {
    let t = tokens_of("\\*a*");
    assert_eq!(
        t,
        vec![
            Token { id: TokenType::Escape, begin: 0, end: 1 },
            Token { id: TokenType::Text, begin: 1, end: 2 },
            Token { id: TokenType::Text, begin: 2, end: 3 },
            Token { id: TokenType::ItalicBegin, begin: 3, end: 4 },
        ]
    );
    let t = tokens_of("\\");
    assert_eq!(t, vec![Token { id: TokenType::Escape, begin: 0, end: 1 }]);
}

#[test]
fn emphasis() {
    let t = tokens_of("*a* *b* *c* **d** **e** ~~f~~ __g__\n");
    let mut i: usize = 0;
    let mut b: usize = 0;
    let mut s: usize = 0;
    let mut u: usize = 0;
    for token in t.iter() {
        match token.id {
            TokenType::ItalicBegin | TokenType::ItalicEnd => {
                i += 1;
            },
            TokenType::BoldBegin | TokenType::BoldEnd => {
                b += 1;
            },
            TokenType::StrikeBegin | TokenType::StrikeEnd => {
                s += 1;
            },
            TokenType::UnderlineBegin | TokenType::UnderlineEnd => {
                u += 1;
            },
            TokenType::Text | TokenType::Space | TokenType::Newline | TokenType::Whitespace(' ') => (),
            _ => panic!("Encounterd TokenType other than expected!"),
        }
    }
    assert!(i == 6);
    assert!(b == 4);
    assert!(s == 2);
    assert!(u == 2);
}

#[test]
fn emphasis_ranges() {
    let t = tokens_of("**b** *i* ~~s~~ __u__ ~ _");
    assert_eq!(t[0], Token { id: TokenType::BoldBegin, begin: 0, end: 2 });
    assert_eq!(t[2], Token { id: TokenType::BoldEnd, begin: 3, end: 5 });
    assert_eq!(t[4], Token { id: TokenType::ItalicBegin, begin: 6, end: 7 });
    assert_eq!(t[6], Token { id: TokenType::ItalicEnd, begin: 8, end: 9 });
    assert_eq!(t[8], Token { id: TokenType::StrikeBegin, begin: 10, end: 12 });
    assert_eq!(t[10], Token { id: TokenType::StrikeEnd, begin: 13, end: 15 });
    assert_eq!(t[12], Token { id: TokenType::UnderlineBegin, begin: 16, end: 18 });
    assert_eq!(t[14], Token { id: TokenType::UnderlineEnd, begin: 19, end: 21 });
    assert_eq!(t[16], Token { id: TokenType::Text, begin: 22, end: 23 });
    assert_eq!(t[18], Token { id: TokenType::Text, begin: 24, end: 25 });
}

#[test]
fn italic_closes_at_the_end_of_the_document() {
    let t = tokens_of("*a*");
    assert_eq!(
        t,
        vec![
            Token { id: TokenType::ItalicBegin, begin: 0, end: 1 },
            Token { id: TokenType::Text, begin: 1, end: 2 },
            Token { id: TokenType::ItalicEnd, begin: 2, end: 3 },
        ]
    );
}

#[test]
fn balanced_emphasis_has_as_many_ends_as_begins() {
    let t = tokens_of("**bold** *italic* ~~strike~~ __underline__ **b** *i*");
    assert_eq!(count(&t, TokenType::BoldBegin), count(&t, TokenType::BoldEnd));
    assert_eq!(count(&t, TokenType::ItalicBegin), count(&t, TokenType::ItalicEnd));
    assert_eq!(count(&t, TokenType::StrikeBegin), count(&t, TokenType::StrikeEnd));
    assert_eq!(count(&t, TokenType::UnderlineBegin), count(&t, TokenType::UnderlineEnd));
    assert_eq!(count(&t, TokenType::BoldBegin), 2);
    assert_eq!(count(&t, TokenType::ItalicBegin), 2);
    assert_eq!(count(&t, TokenType::StrikeBegin), 1);
    assert_eq!(count(&t, TokenType::UnderlineBegin), 1);
}

#[test]
fn plain_characters() {
    let t = tokens_of("a \t\n-");
    assert_eq!(
        t,
        vec![
            Token { id: TokenType::Text, begin: 0, end: 1 },
            Token { id: TokenType::Space, begin: 1, end: 2 },
            Token { id: TokenType::Tab, begin: 2, end: 3 },
            Token { id: TokenType::Newline, begin: 3, end: 4 },
            Token { id: TokenType::Text, begin: 4, end: 5 },
        ]
    );
    assert_eq!(tokens_of(""), vec![]);
}

#[test]
fn indices_count_characters() {
    let t = tokens_of("é`ü`");
    assert_eq!(
        t,
        vec![
            Token { id: TokenType::Text, begin: 0, end: 1 },
            Token { id: TokenType::Code, begin: 2, end: 3 },
        ]
    );
}

#[test]
fn begins_do_not_decrease_without_links_quotes_and_code_blocks() {
    let t = tokens_of("# h\n- [x] a **b** *c*\n---\n![i](s) `c` \\* ~~s~~\n    x\ny");
    for k in 1..t.len() {
        assert!(t[k - 1].begin <= t[k].begin);
    }
    for token in t.iter() {
        assert!(token.begin <= token.end);
        assert!(token.end <= 54);
    }
}

#[test]
fn alignment_is_comparable() {
    assert_ne!(TokenType::TableColumn(Alignment::Left), TokenType::TableColumn(Alignment::Right));
}
