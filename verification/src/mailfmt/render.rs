//! The outside calls that render template text: placeholder filling and
//! HTML minification.

use vstd::prelude::*;

use crate::table::Table;

verus! {

#[verifier::external_type_specification]
#[verifier::external_body]
pub struct ExFmtError(strfmt::FmtError);

#[verifier::external_type_specification]
#[verifier::external_body]
pub struct ExHtmlMinifierError(html_minifier::HTMLMinifierError);

/// What `strfmt::strfmt` makes of the format string `fmt` with the variables
/// `vars`; `None` where it reports an error (such as a placeholder without a
/// variable).
pub uninterp spec fn formatted(fmt: Seq<char>, vars: Map<Seq<char>, Seq<char>>) -> Option<Seq<char>>;

/// What `html_minifier::minify` makes of the HTML text `html`; `None` where it
/// reports an error.
pub uninterp spec fn minified_html(html: Seq<char>) -> Option<Seq<char>>;

/// Calls `strfmt::strfmt` with the variables of `vars` gathered in a
/// `HashMap`. Its result is taken to depend on the format string and on the
/// variables alone; it is named [`formatted`], and nothing more is claimed.
#[verifier::external_body]
pub(crate) fn format_str(fmt: &str, vars: &Table<String, String>) -> (r: Result<String, strfmt::FmtError>)
    ensures
        r is Ok <==> formatted(fmt@, vars@) is Some,
        r matches Ok(s) ==> formatted(fmt@, vars@) == Some(s@),
{
    let map: std::collections::HashMap<String, String> = vars.entries.iter().map(
        |e| (e.0.clone(), e.1.clone()),
    ).collect();
    strfmt::strfmt(fmt, &map)
}

/// Calls `html_minifier::minify`. Its result is taken to depend on the HTML
/// text alone; it is named [`minified_html`], and nothing more is claimed.
#[verifier::external_body]
pub(crate) fn minify_html(html: &str) -> (r: Result<String, html_minifier::HTMLMinifierError>)
    ensures
        r is Ok <==> minified_html(html@) is Some,
        r matches Ok(s) ==> minified_html(html@) == Some(s@),
{
    html_minifier::minify(html)
}

} // verus!
