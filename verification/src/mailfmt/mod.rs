//! Mail templates: loading them from template files, and formatting them.

use vstd::prelude::*;

pub mod error;
pub mod render;
pub mod template;

pub use error::{MailFmtError, MailFmtErrorView, TemplateError, TemplateErrorView};

use crate::table::Table;
use crate::Locales;
use render::{format_str, formatted};
use template::{parse_template, parse_template_spec};

verus! {

/// A mail in one language: its subject, and the body as HTML and as plain text.
#[derive(Debug, Clone)]
pub struct MailTemplate {
    pub subject: String,
    pub html: String,
    pub plain_text: String,
}

/// A [`MailTemplate`] with its parts taken by their views.
pub struct TemplateText {
    pub subject: Seq<char>,
    pub html: Seq<char>,
    pub plain_text: Seq<char>,
}

impl View for MailTemplate {
    type V = TemplateText;

    open spec fn view(&self) -> TemplateText {
        TemplateText { subject: self.subject@, html: self.html@, plain_text: self.plain_text@ }
    }
}

impl MailTemplate {
    /// A template whose parts are all empty.
    pub fn new() -> (r: Self)
        ensures
            r@ == (TemplateText {
                subject: Seq::empty(),
                html: Seq::empty(),
                plain_text: Seq::empty(),
            }),
    {
        MailTemplate { subject: String::new(), html: String::new(), plain_text: String::new() }
    }
}

/// The templates of a set of template files: by name, the mail in each locale.
pub struct MailFmt {
    templates: Table<String, Table<Locales, MailTemplate>>,
}

impl View for MailFmt {
    type V = Map<Seq<char>, Map<Locales, TemplateText>>;

    closed spec fn view(&self) -> Map<Seq<char>, Map<Locales, TemplateText>> {
        self.templates@
    }
}

/// Template files, as pairs of a name and the contents, taken by their views.
pub open spec fn file_views(files: Seq<(String, String)>) -> Seq<(Seq<char>, Seq<char>)> {
    files.map_values(|f: (String, String)| (f.0@, f.1@))
}

/// The templates that the files hold, read in order: a later file replaces an
/// earlier one of the same name, and the first file that cannot be read ends
/// the loading with its error.
pub open spec fn load_templates(files: Seq<(Seq<char>, Seq<char>)>) -> Result<Map<Seq<char>, Map<Locales, TemplateText>>, TemplateErrorView>
    decreases files.len(),
{
    if files.len() == 0 {
        Ok(Map::empty())
    } else {
        match load_templates(files.drop_last()) {
            Ok(m) => match parse_template_spec(files.last().0, files.last().1) {
                Ok(t) => Ok(m.insert(files.last().0, t)),
                Err(e) => Err(e),
            },
            Err(e) => Err(e),
        }
    }
}

/// Once a file cannot be read, loading stops with its error.
pub proof fn lemma_load_stops(files: Seq<(Seq<char>, Seq<char>)>, i: int)
    requires
        0 <= i <= files.len(),
        load_templates(files.take(i)) is Err,
    ensures
        load_templates(files) == load_templates(files.take(i)),
    decreases files.len(),
{
    if i == files.len() {
        assert(files.take(i) =~= files);
    } else {
        assert(files.drop_last().take(i) =~= files.take(i));
        lemma_load_stops(files.drop_last(), i);
    }
}

/// The first of the preferred locales that `versions` has.
pub open spec fn first_available<T>(versions: Map<Locales, T>, preferred: Seq<Locales>) -> Option<Locales>
    decreases preferred.len(),
{
    if preferred.len() == 0 {
        None
    } else if versions.contains_key(preferred[0]) {
        Some(preferred[0])
    } else {
        first_available(versions, preferred.drop_first())
    }
}

/// The mail `mail` in the first of the `preferred` locales that it is written
/// in, with its placeholders filled from `vars`.
pub open spec fn fmt_spec(
    templates: Map<Seq<char>, Map<Locales, TemplateText>>,
    mail: Seq<char>,
    preferred: Seq<Locales>,
    vars: Map<Seq<char>, Seq<char>>,
) -> Result<TemplateText, MailFmtErrorView> {
    if !templates.contains_key(mail) {
        Err(MailFmtErrorView::UnknownTemplate(mail))
    } else {
        match first_available(templates[mail], preferred) {
            None => Err(MailFmtErrorView::UnknownLocale(preferred)),
            Some(l) => filled(templates[mail][l], vars),
        }
    }
}

/// Formatting the mail fails for no other reason than an unknown template or
/// locale: every placeholder of the chosen version has a variable.
pub open spec fn placeholders_filled(
    templates: Map<Seq<char>, Map<Locales, TemplateText>>,
    mail: Seq<char>,
    preferred: Seq<Locales>,
    vars: Map<Seq<char>, Seq<char>>,
) -> bool {
    !(fmt_spec(templates, mail, preferred, vars) matches Err(MailFmtErrorView::FmtError))
}

/// Why no version of a mail could be chosen.
enum Missing {
    Template,
    Locale,
}

impl MailFmt {
    /// Loads the templates of the given files.
    fn load(files: &Vec<(String, String)>) -> (r: Result<MailFmt, TemplateError>)
        ensures
            match load_templates(file_views(files@)) {
                Ok(m) => r matches Ok(f) && f@ == m,
                Err(e) => r matches Err(err) && err@ == e,
            },
    {
        let ghost fs = file_views(files@);
        let mut templates: Table<String, Table<Locales, MailTemplate>> = Table::new();
        let mut i: usize = 0;
        assert(fs.take(0) =~= Seq::<(Seq<char>, Seq<char>)>::empty());
        while i < files.len()
            invariant
                i <= files@.len(),
                fs == file_views(files@),
                load_templates(fs.take(i as int)) == Ok::<Map<Seq<char>, Map<Locales, TemplateText>>, TemplateErrorView>(templates@),
            decreases files@.len() - i,
        {
            let file = &files[i];
            proof {
                assert(fs.take(i + 1).drop_last() =~= fs.take(i as int));
                assert(fs.take(i + 1).last() == (file.0@, file.1@));
            }
            match parse_template(&file.0, file.1.as_str()) {
                Ok(t) => {
                    templates.insert(file.0.clone(), t);
                },
                Err(e) => {
                    proof {
                        lemma_load_stops(fs, i + 1);
                    }
                    return Err(e);
                },
            }
            i = i + 1;
        }
        assert(fs.take(files@.len() as int) =~= fs);
        Ok(MailFmt { templates })
    }

    /// Loads the templates of the given files, each a name and its contents,
    /// formatting each locale's subject and bodies with its variables once.
    /// The files must load: each locale header must name a known locale, each
    /// HTML body must minify, and each placeholder that loading fills must
    /// have a variable in its locale.
    pub fn new(files: &Vec<(String, String)>) -> (r: MailFmt)
        requires
            load_templates(file_views(files@)) is Ok,
        ensures
            r@ == load_templates(file_views(files@))->Ok_0,
    {
        match MailFmt::load(files) {
            Ok(f) => f,
            Err(_) => {
                proof {
                    assert(false);
                }
                MailFmt { templates: Table::new() }
            },
        }
    }

    /// Loads the templates of the given files, or tells why they do not load.
    pub fn try_new(files: &Vec<(String, String)>) -> (r: Result<MailFmt, TemplateError>)
        ensures
            match load_templates(file_views(files@)) {
                Ok(m) => r matches Ok(f) && f@ == m,
                Err(e) => r matches Err(err) && err@ == e,
            },
    {
        MailFmt::load(files)
    }

    /// The version of `mail` in the first of `locales` that it is written in.
    fn lookup(&self, mail: &String, locales: &Vec<Locales>) -> (r: Result<&MailTemplate, Missing>)
        ensures
            !self@.contains_key(mail@) ==> r matches Err(Missing::Template),
            self@.contains_key(mail@) ==> match first_available(self@[mail@], locales@) {
                None => r matches Err(Missing::Locale),
                Some(l) => r matches Ok(t) && t@ == self@[mail@][l],
            },
    {
        let versions = match self.templates.get(mail) {
            Some(versions) => versions,
            None => {
                return Err(Missing::Template);
            },
        };
        let mut i: usize = 0;
        assert(locales@.skip(0) =~= locales@);
        while i < locales.len()
            invariant
                i <= locales@.len(),
                self@.contains_key(mail@),
                versions@ == self@[mail@],
                first_available(versions@, locales@) == first_available(versions@, locales@.skip(i as int)),
            decreases locales@.len() - i,
        {
            let found = versions.get(&locales[i]);
            assert(locales@.skip(i as int).drop_first() =~= locales@.skip(i + 1));
            if let Some(version) = found {
                return Ok(version);
            }
            i = i + 1;
        }
        Err(Missing::Locale)
    }

    /// Whether every placeholder of the version of `mail` that `locales`
    /// chooses has a variable in `vars`; true also when no version is chosen.
    pub fn fills(&self, mail: &String, locales: &Vec<Locales>, vars: &Table<String, String>) -> (r: bool)
        ensures
            r == placeholders_filled(self@, mail@, locales@, vars@),
    {
        match self.lookup(mail, locales) {
            Ok(version) => fill(version, vars).is_ok(),
            Err(_) => true,
        }
    }

    /// Formats the mail `mail` in the first of the `locales` that it is
    /// written in, filling its placeholders from `vars`; each placeholder of
    /// that version must have a variable.
    pub fn fmt(&self, mail: &String, locales: Vec<Locales>, vars: &Table<String, String>) -> (r: Result<MailTemplate, MailFmtError>)
        requires
            placeholders_filled(self@, mail@, locales@, vars@),
        ensures
            match fmt_spec(self@, mail@, locales@, vars@) {
                Ok(t) => r matches Ok(m) && m@ == t,
                Err(e) => r matches Err(err) && err@ == e,
            },
    {
        match self.lookup(mail, &locales) {
            Ok(version) => fill(version, vars),
            Err(Missing::Template) => Err(MailFmtError::UnknownTemplate(mail.clone())),
            Err(Missing::Locale) => Err(MailFmtError::UnknownLocale(locales)),
        }
    }

    /// Formats the mail as [`MailFmt::fmt`] does, or tells that a placeholder
    /// has no variable.
    pub fn try_fmt(&self, mail: &String, locales: Vec<Locales>, vars: &Table<String, String>) -> (r: Result<MailTemplate, MailFmtError>)
        ensures
            match fmt_spec(self@, mail@, locales@, vars@) {
                Ok(t) => r matches Ok(m) && m@ == t,
                Err(e) => r matches Err(err) && err@ == e,
            },
    {
        if self.fills(mail, &locales, vars) {
            self.fmt(mail, locales, vars)
        } else {
            Err(MailFmtError::FmtError)
        }
    }

    /// The mail `mail` in the locale `locale`: its subject, plain-text body
    /// and HTML body, with the placeholders filled from `vars`. The template
    /// must exist, be written in that locale, and have a variable for each of
    /// its placeholders.
    pub fn mail(&self, mail: &String, locale: Locales, vars: &Table<String, String>) -> (r: (String, String, String))
        requires
            self@.contains_key(mail@),
            self@[mail@].contains_key(locale),
            filled(self@[mail@][locale], vars@) is Ok,
        ensures
            r.0@ == filled(self@[mail@][locale], vars@)->Ok_0.subject,
            r.1@ == filled(self@[mail@][locale], vars@)->Ok_0.plain_text,
            r.2@ == filled(self@[mail@][locale], vars@)->Ok_0.html,
    {
        let locales = vec![locale];
        assert(locales@.drop_first().len() == 0);
        assert(first_available(self@[mail@], locales@) == Some(locale));
        match self.fmt(mail, locales, vars) {
            Ok(m) => (m.subject, m.plain_text, m.html),
            Err(_) => {
                proof {
                    assert(false);
                }
                (String::new(), String::new(), String::new())
            },
        }
    }
}

/// The mail `template` with its placeholders filled from `vars`.
pub open spec fn filled(template: TemplateText, vars: Map<Seq<char>, Seq<char>>) -> Result<TemplateText, MailFmtErrorView> {
    match (formatted(template.subject, vars), formatted(template.plain_text, vars), formatted(template.html, vars)) {
        (Some(s), Some(p), Some(h)) => Ok(TemplateText { subject: s, html: h, plain_text: p }),
        _ => Err(MailFmtErrorView::FmtError),
    }
}

/// Fills the placeholders of `template` from `vars`.
fn fill(template: &MailTemplate, vars: &Table<String, String>) -> (r: Result<MailTemplate, MailFmtError>)
    ensures
        match filled(template@, vars@) {
            Ok(t) => r matches Ok(m) && m@ == t,
            Err(e) => r matches Err(err) && err@ == e,
        },
{
    let subject = match format_str(template.subject.as_str(), vars) {
        Ok(s) => s,
        Err(_) => {
            return Err(MailFmtError::FmtError);
        },
    };
    let plain_text = match format_str(template.plain_text.as_str(), vars) {
        Ok(s) => s,
        Err(_) => {
            return Err(MailFmtError::FmtError);
        },
    };
    let html = match format_str(template.html.as_str(), vars) {
        Ok(s) => s,
        Err(_) => {
            return Err(MailFmtError::FmtError);
        },
    };
    Ok(MailTemplate { subject, html, plain_text })
}

/// The locale a mail is formatted in is the most preferred one that the
/// template is written in; there is none only when the template is written in
/// none of the preferred locales.
pub proof fn lemma_first_available<T>(versions: Map<Locales, T>, preferred: Seq<Locales>)
    ensures
        match first_available(versions, preferred) {
            Some(l) => versions.contains_key(l) && exists|i: int|
                0 <= i < preferred.len() && preferred[i] == l && forall|j: int|
                    0 <= j < i ==> !versions.contains_key(#[trigger] preferred[j]),
            None => forall|j: int| 0 <= j < preferred.len() ==> !versions.contains_key(#[trigger] preferred[j]),
        },
    decreases preferred.len(),
{
    if preferred.len() > 0 {
        let rest = preferred.drop_first();
        lemma_first_available(versions, rest);
        if !versions.contains_key(preferred[0]) {
            match first_available(versions, rest) {
                Some(l) => {
                    let i = choose|i: int|
                        0 <= i < rest.len() && rest[i] == l && forall|j: int|
                            0 <= j < i ==> !versions.contains_key(#[trigger] rest[j]);
                    assert(preferred[i + 1] == l);
                    assert forall|j: int| 0 <= j < i + 1 implies !versions.contains_key(#[trigger] preferred[j]) by {
                        if j > 0 {
                            assert(preferred[j] == rest[j - 1]);
                        }
                    }
                },
                None => {
                    assert forall|j: int| 0 <= j < preferred.len() implies !versions.contains_key(#[trigger] preferred[j]) by {
                        if j > 0 {
                            assert(preferred[j] == rest[j - 1]);
                        }
                    }
                },
            }
        } else {
            assert(preferred[0] == preferred[0]);
        }
    }
}

/// Loading succeeds exactly when every file reads; then the templates are
/// named by exactly the files' names, and each name holds the template of the
/// last file with that name.
pub proof fn lemma_load_templates(files: Seq<(Seq<char>, Seq<char>)>)
    ensures
        load_templates(files) is Ok <==> forall|i: int|
            0 <= i < files.len() ==> (#[trigger] parse_template_spec(files[i].0, files[i].1)) is Ok,
        load_templates(files) matches Ok(m) ==> forall|k: Seq<char>|
            m.contains_key(k) <==> exists|i: int| 0 <= i < files.len() && #[trigger] files[i].0 == k,
        load_templates(files) matches Ok(m) ==> forall|i: int|
            0 <= i < files.len() && (forall|j: int| i < j < files.len() ==> files[j].0 != files[i].0)
                ==> m[#[trigger] files[i].0] == parse_template_spec(files[i].0, files[i].1)->Ok_0,
    decreases files.len(),
{
    if files.len() > 0 {
        let rest = files.drop_last();
        let n = files.len() - 1;
        lemma_load_templates(rest);
        assert forall|i: int| 0 <= i < rest.len() implies rest[i] == files[i] by {}
        if load_templates(files) is Ok {
            let m = load_templates(files)->Ok_0;
            let mr = load_templates(rest)->Ok_0;
            assert(m == mr.insert(files[n].0, parse_template_spec(files[n].0, files[n].1)->Ok_0));
            assert forall|k: Seq<char>|
                m.contains_key(k) implies exists|i: int| 0 <= i < files.len() && #[trigger] files[i].0 == k by {
                if k != files[n].0 {
                    let i = choose|i: int| 0 <= i < rest.len() && #[trigger] rest[i].0 == k;
                    assert(files[i].0 == k);
                }
            }
            assert forall|k: Seq<char>|
                (exists|i: int| 0 <= i < files.len() && #[trigger] files[i].0 == k) implies m.contains_key(k) by {
                let i = choose|i: int| 0 <= i < files.len() && #[trigger] files[i].0 == k;
                if i < n {
                    assert(rest[i].0 == k);
                }
            }
            assert forall|i: int|
                0 <= i < files.len() && (forall|j: int| i < j < files.len() ==> files[j].0 != files[i].0)
                implies m[#[trigger] files[i].0] == parse_template_spec(files[i].0, files[i].1)->Ok_0 by {
                if i < n {
                    assert(files[n].0 != files[i].0);
                    assert(rest[i] == files[i]);
                    assert forall|j: int| i < j < rest.len() implies rest[j].0 != rest[i].0 by {
                        assert(rest[j] == files[j]);
                    }
                }
            }
        }
        if forall|i: int| 0 <= i < files.len() ==> (#[trigger] parse_template_spec(files[i].0, files[i].1)) is Ok {
            assert forall|i: int| 0 <= i < rest.len() implies (#[trigger] parse_template_spec(rest[i].0, rest[i].1)) is Ok by {
                assert(rest[i] == files[i]);
                assert(parse_template_spec(files[i].0, files[i].1) is Ok);
            }
            assert(parse_template_spec(files[n].0, files[n].1) is Ok);
        }
        if load_templates(files) is Ok {
            assert forall|i: int| 0 <= i < files.len() implies (#[trigger] parse_template_spec(files[i].0, files[i].1)) is Ok by {
                if i < n {
                    assert(rest[i] == files[i]);
                    assert(parse_template_spec(rest[i].0, rest[i].1) is Ok);
                }
            }
        }
    }
}

/// The first preferred locale that `versions` has is chosen.
proof fn lemma_first_available_at<T>(versions: Map<Locales, T>, preferred: Seq<Locales>, i: int)
    requires
        0 <= i < preferred.len(),
        versions.contains_key(preferred[i]),
        forall|j: int| 0 <= j < i ==> !versions.contains_key(#[trigger] preferred[j]),
    ensures
        first_available(versions, preferred) == Some(preferred[i]),
    decreases i,
{
    if i > 0 {
        let rest = preferred.drop_first();
        assert(!versions.contains_key(preferred[0]));
        assert forall|j: int| 0 <= j < i - 1 implies !versions.contains_key(#[trigger] rest[j]) by {
            assert(rest[j] == preferred[j + 1]);
        }
        lemma_first_available_at(versions, rest, i - 1);
    }
}

/// No preferred locale that `versions` has: none is chosen.
proof fn lemma_none_available<T>(versions: Map<Locales, T>, preferred: Seq<Locales>)
    requires
        forall|j: int| 0 <= j < preferred.len() ==> !versions.contains_key(#[trigger] preferred[j]),
    ensures
        first_available(versions, preferred) is None,
    decreases preferred.len(),
{
    if preferred.len() > 0 {
        let rest = preferred.drop_first();
        assert(!versions.contains_key(preferred[0]));
        assert forall|j: int| 0 <= j < rest.len() implies !versions.contains_key(#[trigger] rest[j]) by {
            assert(rest[j] == preferred[j + 1]);
        }
        lemma_none_available(versions, rest);
    }
}

/// A mail is formatted in the first preferred locale that its template is
/// written in (no earlier preferred locale being available): formatting
/// succeeds exactly when the subject and both bodies of that version can be
/// filled, and then gives them filled; otherwise it reports a format error.
pub proof fn lemma_fmt_first_preferred(
    templates: Map<Seq<char>, Map<Locales, TemplateText>>,
    mail: Seq<char>,
    preferred: Seq<Locales>,
    vars: Map<Seq<char>, Seq<char>>,
    i: int,
)
    requires
        templates.contains_key(mail),
        0 <= i < preferred.len(),
        templates[mail].contains_key(preferred[i]),
        forall|j: int| 0 <= j < i ==> !templates[mail].contains_key(#[trigger] preferred[j]),
    ensures
        fmt_spec(templates, mail, preferred, vars) is Ok <==> {
            &&& formatted(templates[mail][preferred[i]].subject, vars) is Some
            &&& formatted(templates[mail][preferred[i]].plain_text, vars) is Some
            &&& formatted(templates[mail][preferred[i]].html, vars) is Some
        },
        fmt_spec(templates, mail, preferred, vars) matches Ok(t) ==> {
            &&& formatted(templates[mail][preferred[i]].subject, vars) == Some(t.subject)
            &&& formatted(templates[mail][preferred[i]].plain_text, vars) == Some(t.plain_text)
            &&& formatted(templates[mail][preferred[i]].html, vars) == Some(t.html)
        },
        !(fmt_spec(templates, mail, preferred, vars) is Ok) ==> fmt_spec(templates, mail, preferred, vars)
            == Err::<TemplateText, MailFmtErrorView>(MailFmtErrorView::FmtError),
{
    lemma_first_available_at(templates[mail], preferred, i);
}

/// Formatting a mail that has no template reports the unknown template; one
/// whose template is written in none of the preferred locales reports the
/// locales.
pub proof fn lemma_fmt_unavailable(
    templates: Map<Seq<char>, Map<Locales, TemplateText>>,
    mail: Seq<char>,
    preferred: Seq<Locales>,
    vars: Map<Seq<char>, Seq<char>>,
)
    ensures
        !templates.contains_key(mail) ==> fmt_spec(templates, mail, preferred, vars)
            == Err::<TemplateText, MailFmtErrorView>(MailFmtErrorView::UnknownTemplate(mail)),
        templates.contains_key(mail) && (forall|j: int|
            0 <= j < preferred.len() ==> !templates[mail].contains_key(#[trigger] preferred[j]))
            ==> fmt_spec(templates, mail, preferred, vars)
            == Err::<TemplateText, MailFmtErrorView>(MailFmtErrorView::UnknownLocale(preferred)),
{
    if templates.contains_key(mail) && (forall|j: int|
        0 <= j < preferred.len() ==> !templates[mail].contains_key(#[trigger] preferred[j])) {
        lemma_none_available(templates[mail], preferred);
    }
}

} // verus!
