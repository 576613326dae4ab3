//! metw-mailer: a templated e-mail sender.
//!
//! The library parses mail templates written in the project's template
//! syntax, formats them in the language a reader prefers, and composes the
//! multipart body of the message that the application hands to an SMTP relay.

use vstd::prelude::*;

pub mod mailer;
pub mod mailfmt;
pub mod table;
pub mod text;
pub mod web;

use table::TableKey;

verus! {

/// The languages a mail template can be written in.
#[allow(non_camel_case_types)]
#[derive(Debug, Clone, Copy, PartialEq, Eq, Hash, Structural)]
pub enum Locales {
    en_US,
    tr,
}

impl View for Locales {
    type V = Locales;

    open spec fn view(&self) -> Locales {
        *self
    }
}

impl TableKey for Locales {
    fn same_key(&self, other: &Self) -> (r: bool) {
        match (self, other) {
            (Locales::en_US, Locales::en_US) => true,
            (Locales::tr, Locales::tr) => true,
            _ => false,
        }
    }
}

/// The name by which a locale is written in template files and requests.
pub open spec fn locale_name(locale: Locales) -> Seq<char> {
    match locale {
        Locales::en_US => seq!['e', 'n', '_', 'U', 'S'],
        Locales::tr => seq!['t', 'r'],
    }
}

/// The locale whose name is `s`, if there is one.
pub open spec fn locale_named(s: Seq<char>) -> Option<Locales> {
    if s == locale_name(Locales::en_US) {
        Some(Locales::en_US)
    } else if s == locale_name(Locales::tr) {
        Some(Locales::tr)
    } else {
        None
    }
}

/// The message with which an unknown locale name is refused.
pub open spec fn unknown_locale_message(s: Seq<char>) -> Seq<char> {
    "unknown locale: "@ + s
}

impl Locales {
    /// Reads a locale from its name: `"en_US"` or `"tr"`.
    pub fn from(locale_str: &str) -> (r: Result<Self, String>)
        ensures
            r is Ok <==> locale_named(locale_str@) is Some,
            r matches Ok(l) ==> locale_named(locale_str@) == Some(l),
            r matches Err(m) ==> m@ == unknown_locale_message(locale_str@),
    {
        let cs = text::chars_of(locale_str);
        let en_us = vec!['e', 'n', '_', 'U', 'S'];
        let tr = vec!['t', 'r'];
        if text::same_chars(&cs, &en_us) {
            Ok(Locales::en_US)
        } else if text::same_chars(&cs, &tr) {
            Ok(Locales::tr)
        } else {
            let mut message = String::new();
            message.append("unknown locale: ");
            message.append(locale_str);
            Err(message)
        }
    }
}

/// Each locale reads back from its name, and no two locales share a name.
pub proof fn lemma_locale_name_round_trip(locale: Locales)
    ensures
        locale_named(locale_name(locale)) == Some(locale),
{
    assert(locale_name(Locales::en_US) != locale_name(Locales::tr)) by {
        assert(locale_name(Locales::en_US).len() != locale_name(Locales::tr).len());
    }
}

} // verus!
