//! Turning generated source text into a `proc_macro2::TokenStream` for the
//! compiler.

use vstd::prelude::*;
use proc_macro2::{LexError, TokenStream};

verus! {

/// `proc_macro2::TokenStream`, known to Verus only as an opaque type.
#[verifier::external_type_specification]
#[verifier::external_body]
pub struct ExTokenStream(TokenStream);

/// `proc_macro2::LexError`, known to Verus only as an opaque type.
#[verifier::external_type_specification]
#[verifier::external_body]
pub struct ExLexError(LexError);

/// Why generated text could not be turned into tokens.
#[derive(Debug, Clone, PartialEq, Eq)]
pub enum TokenError {
    /// The text is not a sequence of Rust tokens.
    Lex,
}

/// Whether proc-macro2's own lexer accepts `text` as a sequence of Rust
/// tokens (its fallback lexer, `parse::token_stream`, which depends on the
/// text alone).
pub uninterp spec fn lexes(text: Seq<char>) -> bool;

/// `<TokenStream as FromStr>::from_str`. It gives tokens only for text that
/// proc-macro2's own lexer accepts: outside a procedural macro that lexer
/// decides, and inside one it is run first and the compiler's lexer may
/// still refuse the text. Which way an accepted text goes inside a macro is
/// left unsaid, so success is not promised.
#[verifier::external_body]
fn lex_tokens(text: &str) -> (res: Result<TokenStream, LexError>)
    ensures
        res is Ok ==> lexes(text@),
{
    text.parse::<TokenStream>()
}

/// The tokens of generated source text, or `TokenError::Lex` when the
/// lexer rejects it; tokens come back only for text that lexes.
pub fn into_tokens(text: &str) -> (res: Result<TokenStream, TokenError>)
    ensures
        res is Ok ==> lexes(text@),
{
    match lex_tokens(text) {
        Ok(tokens) => Ok(tokens),
        Err(_) => Err(TokenError::Lex),
    }
}

} // verus!
