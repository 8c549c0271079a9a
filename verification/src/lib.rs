//! Markdown to HTML in two steps: `lexer::lex` scans a document into a stream
//! of tokens, each a classified range of character indices, and
//! `render::parse` turns the stream into HTML fragments.
//!
//! `grammar` says what each construct of the markup is, `markdown` holds the
//! matchers that read them, and `laws` states what holds of every stream.

pub mod emphasis;
pub mod grammar;
pub mod laws;
pub mod lexer;
pub mod markdown;
pub mod render;
pub mod table;
pub mod text;
pub mod token;
pub mod wrapper;

pub use token::Token;
pub use token::TokenType;
