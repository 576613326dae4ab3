//! Errors of template loading and mail formatting.

use vstd::prelude::*;

use crate::{locale_name, Locales};

verus! {

/// Why a mail could not be formatted.
#[derive(Debug)]
pub enum MailFmtError {
    /// None of the requested locales has a version of the template.
    UnknownLocale(Vec<Locales>),
    /// No template has the requested name.
    UnknownTemplate(String),
    /// A placeholder of the template could not be filled from the variables.
    FmtError,
}

/// A [`MailFmtError`] with its contents taken by their views.
pub enum MailFmtErrorView {
    UnknownLocale(Seq<Locales>),
    UnknownTemplate(Seq<char>),
    FmtError,
}

impl View for MailFmtError {
    type V = MailFmtErrorView;

    open spec fn view(&self) -> MailFmtErrorView {
        match self {
            MailFmtError::UnknownLocale(locales) => MailFmtErrorView::UnknownLocale(locales@),
            MailFmtError::UnknownTemplate(name) => MailFmtErrorView::UnknownTemplate(name@),
            MailFmtError::FmtError => MailFmtErrorView::FmtError,
        }
    }
}

/// Why a set of template files could not be loaded.
#[derive(Debug)]
pub enum TemplateError {
    /// A locale header line (starting with `@`) too short to hold a name, or
    /// whose last character is not ASCII; the line is given.
    MalformedHeader(String),
    /// A locale header names no known locale; the message is given.
    UnknownLocale(String),
    /// The HTML part of the named template could not be minified.
    Html(String),
    /// A placeholder of the named template could not be filled from the
    /// variables of one of its locales.
    Format(String),
}

/// A [`TemplateError`] with its contents taken by their views.
pub enum TemplateErrorView {
    MalformedHeader(Seq<char>),
    UnknownLocale(Seq<char>),
    Html(Seq<char>),
    Format(Seq<char>),
}

impl View for TemplateError {
    type V = TemplateErrorView;

    open spec fn view(&self) -> TemplateErrorView {
        match self {
            TemplateError::MalformedHeader(s) => TemplateErrorView::MalformedHeader(s@),
            TemplateError::UnknownLocale(s) => TemplateErrorView::UnknownLocale(s@),
            TemplateError::Html(s) => TemplateErrorView::Html(s@),
            TemplateError::Format(s) => TemplateErrorView::Format(s@),
        }
    }
}

/// What `format!("{:?}", s)` writes for a string `s`: std's debug form of
/// it, quoted and escaped.
pub uninterp spec fn debug_quoted(s: Seq<char>) -> Seq<char>;

/// Writes a string in std's debug form with `format!("{:?}", s)`. The result
/// is taken to depend on the string alone and is named [`debug_quoted`].
#[verifier::external_body]
fn debug_string(s: &str) -> (r: String)
    ensures
        r@ == debug_quoted(s@),
{
    format!("{:?}", s)
}

/// The names of the locales, separated by `", "`.
pub open spec fn joined_names(locales: Seq<Locales>) -> Seq<char>
    decreases locales.len(),
{
    if locales.len() == 0 {
        Seq::empty()
    } else if locales.len() == 1 {
        locale_name(locales[0])
    } else {
        joined_names(locales.drop_last()) + ", "@ + locale_name(locales.last())
    }
}

/// The message of an error, as it is shown to users.
pub open spec fn error_message(e: MailFmtErrorView) -> Seq<char> {
    match e {
        MailFmtErrorView::UnknownLocale(locales) => "unknown locale: "@ + "["@ + joined_names(locales) + "]"@,
        MailFmtErrorView::UnknownTemplate(name) => "unknown template: "@ + debug_quoted(name),
        MailFmtErrorView::FmtError => "format error"@,
    }
}

/// Appends the name of `locale` to `s`.
fn append_locale_name(s: &mut String, locale: Locales)
    ensures
        final(s)@ == old(s)@ + locale_name(locale),
{
    match locale {
        Locales::en_US => {
            s.append("en_US");
            proof {
                reveal_strlit("en_US");
                assert("en_US"@ =~= locale_name(Locales::en_US));
            }
        },
        Locales::tr => {
            s.append("tr");
            proof {
                reveal_strlit("tr");
                assert("tr"@ =~= locale_name(Locales::tr));
            }
        },
    }
}

impl MailFmtError {
    /// The message of this error: `unknown locale: [..]` with the locales
    /// asked for, `unknown template: ".."` with the name quoted in std's
    /// debug form, or `format error`.
    pub fn message(&self) -> (r: String)
        ensures
            r@ == error_message(self@),
    {
        match self {
            MailFmtError::UnknownLocale(locales) => {
                let mut r = String::new();
                r.append("unknown locale: ");
                r.append("[");
                let ghost start = r@;
                let mut i: usize = 0;
                assert(locales@.take(0) =~= Seq::<Locales>::empty());
                assert(start =~= start + joined_names(locales@.take(0)));
                while i < locales.len()
                    invariant
                        i <= locales@.len(),
                        r@ == start + joined_names(locales@.take(i as int)),
                    decreases locales@.len() - i,
                {
                    let ghost prefix = locales@.take(i + 1);
                    assert(prefix.drop_last() =~= locales@.take(i as int));
                    assert(prefix.last() == locales@[i as int]);
                    if i > 0 {
                        r.append(", ");
                    }
                    append_locale_name(&mut r, locales[i]);
                    assert(r@ =~= start + joined_names(prefix));
                    i = i + 1;
                }
                assert(locales@.take(locales@.len() as int) =~= locales@);
                r.append("]");
                r
            },
            MailFmtError::UnknownTemplate(name) => {
                let mut r = String::new();
                r.append("unknown template: ");
                let quoted = debug_string(name.as_str());
                r.append(quoted.as_str());
                r
            },
            MailFmtError::FmtError => String::from_str("format error"),
        }
    }
}

} // verus!
