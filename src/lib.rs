pub mod error;
pub mod html;
pub mod theorems;
pub mod parse;
pub mod token;
pub mod tree;

use vstd::prelude::*;
use crate::error::MarkupError;
use crate::html::treenodes_to_html;
use crate::parse::{parse, parse_spec};
use crate::token::{lex, tokenize};
use crate::tree::{render_forest, views};

verus! {

/// The HTML text of markup text `s`, or the first error that rejects it:
/// tokenize, parse, then render the forest at depth zero.
pub open spec fn markup_to_html(s: Seq<char>) -> Result<Seq<char>, MarkupError> {
    match lex(s) {
        Err(e) => Err(e),
        Ok(toks) => match parse_spec(toks) {
            Err(e) => Err(e),
            Ok(es) => Ok(render_forest(es, 0)),
        },
    }
}

/// Translates markup text into indented HTML-like text.
pub fn markup_text_to_html(text: &str) -> (r: Result<String, MarkupError>)
    ensures
        match (r, markup_to_html(text@)) {
            (Ok(h), Ok(g)) => h@ == g,
            (Err(e), Err(f)) => e == f,
            _ => false,
        },
{
    let tokens = tokenize(text)?;
    let tree = parse(&tokens)?;
    Ok(treenodes_to_html(&tree, 0))
}

} // verus!
