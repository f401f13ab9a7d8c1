//! Markdown rendering (`pulldown-cmark`).

use vstd::prelude::*;

verus! {

/// The HTML that `pulldown-cmark` renders for a Markdown text with its
/// default options.
pub uninterp spec fn rendered_html(markdown: Seq<char>) -> Seq<char>;

/// Renders Markdown to HTML (`pulldown_cmark::Parser::new` and
/// `pulldown_cmark::html::push_html` into an empty string); the output is a
/// function of the input alone.
#[verifier::external_body]
pub fn markdown_to_html(markdown_input: &str) -> (r: String)
    ensures
        r@ == rendered_html(markdown_input@),
{
    let parser = pulldown_cmark::Parser::new(markdown_input);
    let mut html_output = String::new();
    pulldown_cmark::html::push_html(&mut html_output, parser);
    html_output
}

} // verus!
