//! The template file format.
//!
//! A template file holds one mail in several languages. A line `@<locale>:`
//! (the last character is dropped) starts the part of a locale: its next
//! non-empty line is the subject, and the non-empty lines after it are
//! `key = value` variables of that locale (in a value, `{{` and `}}` stand for
//! `{` and `}`). The line `#PLAINTEXT` starts the plain-text body, `#HTML` the
//! HTML body, and `#END` ends a part. Both bodies are shared by all locales;
//! each locale fills their placeholders, and those of its subject, with its
//! variables.

use vstd::prelude::*;

use crate::table::{assoc_map, keys_unique, lemma_assoc_contains, lemma_assoc_index, lemma_assoc_prefix, Table};
use crate::text::{
    is_whitespace, trim_end, trim_start, is_first, lemma_first_index, chars_of, collapse, collapse_doubled, find_char, first_index, range_is, split_lines,
    string_of, text_lines, trim, trim_range, views,
};
use crate::{locale_named, unknown_locale_message, Locales};

use super::error::{TemplateError, TemplateErrorView};
use super::render::{format_str, formatted, minified_html, minify_html};
use super::{MailTemplate, TemplateText};

verus! {

/// What the lines that follow are read as.
#[derive(Clone, Copy)]
pub enum ParseMode {
    /// Variables of the locale.
    LocaleInsert(Locales),
    /// The subject of the locale.
    LocaleSubjectInsert(Locales),
    /// The plain-text body.
    PlainTextInsert,
    /// The HTML body.
    HtmlInsert,
    /// Nothing: lines are skipped.
    Idle,
}

/// The part of a locale read so far: its subject and its variables.
pub struct DraftText {
    pub subject: Seq<char>,
    pub vars: Map<Seq<char>, Seq<char>>,
}

/// What has been read of a template file.
pub struct ParseState {
    pub mode: ParseMode,
    pub drafts: Map<Locales, DraftText>,
    pub plain_text: Seq<char>,
    pub html: Seq<char>,
}

/// The state before the first line.
pub open spec fn initial_state() -> ParseState {
    ParseState {
        mode: ParseMode::Idle,
        drafts: Map::empty(),
        plain_text: Seq::empty(),
        html: Seq::empty(),
    }
}

/// The line that starts the HTML body.
pub open spec fn html_marker() -> Seq<char> {
    seq!['#', 'H', 'T', 'M', 'L']
}

/// The line that starts the plain-text body.
pub open spec fn plain_text_marker() -> Seq<char> {
    seq!['#', 'P', 'L', 'A', 'I', 'N', 'T', 'E', 'X', 'T']
}

/// The line that ends a part.
pub open spec fn end_marker() -> Seq<char> {
    seq!['#', 'E', 'N', 'D']
}

/// A variable's value as written in the file, read: trimmed, with `{{` and
/// `}}` written once.
pub open spec fn var_value(raw: Seq<char>) -> Seq<char> {
    collapse_doubled(collapse_doubled(trim(raw), '{'), '}')
}

/// The part of a locale right after its header.
pub open spec fn empty_draft() -> DraftText {
    DraftText { subject: Seq::empty(), vars: Map::empty() }
}

/// Reads a line that starts with `@`: the header of a locale.
pub open spec fn header_step(st: ParseState, line: Seq<char>) -> Result<ParseState, TemplateErrorView> {
    if line.len() < 2 || !(line.last() < '\u{80}') {
        Err(TemplateErrorView::MalformedHeader(line))
    } else {
        let name = line.subrange(1, line.len() - 1);
        match locale_named(name) {
            Some(l) => Ok(
                ParseState {
                    mode: ParseMode::LocaleSubjectInsert(l),
                    drafts: st.drafts.insert(l, empty_draft()),
                    plain_text: st.plain_text,
                    html: st.html,
                },
            ),
            None => Err(TemplateErrorView::UnknownLocale(unknown_locale_message(name))),
        }
    }
}

/// Reads a line that is neither a marker nor a header, by the mode.
pub open spec fn body_step(st: ParseState, line: Seq<char>) -> ParseState {
    match st.mode {
        ParseMode::LocaleInsert(l) => {
            if line.len() == 0 {
                st
            } else {
                match first_index(line, '=') {
                    Some(i) => ParseState {
                        drafts: st.drafts.insert(
                            l,
                            DraftText {
                                subject: st.drafts[l].subject,
                                vars: st.drafts[l].vars.insert(
                                    trim(line.take(i)),
                                    var_value(line.skip(i + 1)),
                                ),
                            },
                        ),
                        ..st
                    },
                    None => st,
                }
            }
        },
        ParseMode::LocaleSubjectInsert(l) => {
            if line.len() == 0 {
                st
            } else {
                ParseState {
                    mode: ParseMode::LocaleInsert(l),
                    drafts: st.drafts.insert(
                        l,
                        DraftText {
                            subject: st.drafts[l].subject + trim(line),
                            vars: st.drafts[l].vars,
                        },
                    ),
                    ..st
                }
            }
        },
        ParseMode::PlainTextInsert => ParseState {
            plain_text: st.plain_text + line + seq!['\n'],
            ..st
        },
        ParseMode::HtmlInsert => ParseState { html: st.html + line + seq!['\n'], ..st },
        ParseMode::Idle => st,
    }
}

/// Reads one line.
pub open spec fn step(st: ParseState, line: Seq<char>) -> Result<ParseState, TemplateErrorView> {
    if line == html_marker() {
        Ok(ParseState { mode: ParseMode::HtmlInsert, ..st })
    } else if line == plain_text_marker() {
        Ok(ParseState { mode: ParseMode::PlainTextInsert, ..st })
    } else if line == end_marker() {
        Ok(ParseState { mode: ParseMode::Idle, ..st })
    } else if line.len() > 0 && line[0] == '@' {
        header_step(st, line)
    } else {
        Ok(body_step(st, line))
    }
}

/// Reads the lines in order; the first line that cannot be read ends it.
pub open spec fn run(lines: Seq<Seq<char>>) -> Result<ParseState, TemplateErrorView>
    decreases lines.len(),
{
    if lines.len() == 0 {
        Ok(initial_state())
    } else {
        match run(lines.drop_last()) {
            Ok(st) => step(st, lines.last()),
            Err(e) => Err(e),
        }
    }
}

/// Once a line cannot be read, reading stops with its error.
pub proof fn lemma_run_stops(lines: Seq<Seq<char>>, i: int)
    requires
        0 <= i <= lines.len(),
        run(lines.take(i)) is Err,
    ensures
        run(lines) == run(lines.take(i)),
    decreases lines.len(),
{
    if i == lines.len() {
        assert(lines.take(i) =~= lines);
    } else {
        assert(lines.drop_last().take(i) =~= lines.take(i));
        lemma_run_stops(lines.drop_last(), i);
    }
}

/// The mail of one locale: the subject and both bodies with the locale's
/// variables filled in; `None` where a placeholder cannot be filled.
pub open spec fn locale_mail(d: DraftText, plain_text: Seq<char>, html: Seq<char>) -> Option<TemplateText> {
    match (formatted(d.subject, d.vars), formatted(plain_text, d.vars), formatted(html, d.vars)) {
        (Some(s), Some(p), Some(h)) => Some(TemplateText { subject: s, html: h, plain_text: p }),
        _ => None,
    }
}

/// The mails of all locales of a read template file, with the minified HTML.
pub open spec fn all_locale_mails(st: ParseState, html: Seq<char>) -> Map<Locales, TemplateText> {
    Map::new(
        |l: Locales| st.drafts.contains_key(l),
        |l: Locales| locale_mail(st.drafts[l], st.plain_text, html).unwrap(),
    )
}

/// The template that a template file named `name` holds, by locale.
pub open spec fn parse_template_spec(name: Seq<char>, contents: Seq<char>) -> Result<Map<Locales, TemplateText>, TemplateErrorView> {
    match run(text_lines(contents)) {
        Err(e) => Err(e),
        Ok(st) => match minified_html(st.html) {
            None => Err(TemplateErrorView::Html(name)),
            Some(h) => if forall|l: Locales|
                #[trigger] st.drafts.contains_key(l) ==> locale_mail(
                    st.drafts[l],
                    st.plain_text,
                    h,
                ) is Some {
                Ok(all_locale_mails(st, h))
            } else {
                Err(TemplateErrorView::Format(name))
            },
        },
    }
}

/// The part of a locale read so far.
pub(crate) struct LocaleDraft {
    pub(crate) subject: String,
    pub(crate) vars: Table<String, String>,
}

impl View for LocaleDraft {
    type V = DraftText;

    closed spec fn view(&self) -> DraftText {
        DraftText { subject: self.subject@, vars: self.vars@ }
    }
}

/// A template file read line by line: the parts of its locales and its bodies.
pub(crate) struct ReadTemplate {
    pub(crate) drafts: Table<Locales, LocaleDraft>,
    pub(crate) plain_text: String,
    pub(crate) html: String,
}

/// The state of the reader in terms of what it holds: the parts of the
/// locales committed so far, and the part of the current locale.
pub open spec fn reader_state(
    mode: ParseMode,
    committed: Map<Locales, DraftText>,
    current: Option<Locales>,
    subject: Seq<char>,
    vars: Map<Seq<char>, Seq<char>>,
    plain_text: Seq<char>,
    html: Seq<char>,
) -> ParseState {
    ParseState {
        mode,
        drafts: match current {
            Some(l) => committed.insert(l, DraftText { subject, vars }),
            None => committed,
        },
        plain_text,
        html,
    }
}

/// The current locale is the one the mode names, if it names one.
pub open spec fn mode_agrees(mode: ParseMode, current: Option<Locales>) -> bool {
    match mode {
        ParseMode::LocaleInsert(l) => current == Some(l),
        ParseMode::LocaleSubjectInsert(l) => current == Some(l),
        _ => true,
    }
}

/// Appends the characters of `v[start..end]` to `s`.
fn append_chars(s: &mut String, v: &Vec<char>, start: usize, end: usize)
    requires
        start <= end <= v@.len(),
    ensures
        final(s)@ == old(s)@ + v@.subrange(start as int, end as int),
{
    let piece = string_of(v, start, end);
    s.append(piece.as_str());
}

/// Reads the lines of a template file.
pub(crate) fn read_lines(lines: &Vec<Vec<char>>) -> (r: Result<ReadTemplate, TemplateError>)
    ensures
        match run(views(lines@)) {
            Ok(st) => r matches Ok(t) && t.drafts@ == st.drafts && t.plain_text@ == st.plain_text
                && t.html@ == st.html,
            Err(e) => r matches Err(err) && err@ == e,
        },
{
    let html_word = vec!['#', 'H', 'T', 'M', 'L'];
    let plain_text_word = vec!['#', 'P', 'L', 'A', 'I', 'N', 'T', 'E', 'X', 'T'];
    let end_word = vec!['#', 'E', 'N', 'D'];
    let mut mode = ParseMode::Idle;
    let mut committed: Table<Locales, LocaleDraft> = Table::new();
    let mut current: Option<Locales> = None;
    let mut subject = String::new();
    let mut vars: Table<String, String> = Table::new();
    let mut plain_text = String::new();
    let mut html = String::new();
    let ghost all = views(lines@);
    let mut i: usize = 0;
    assert(all.take(0) =~= Seq::<Seq<char>>::empty());
    while i < lines.len()
        invariant
            i <= lines@.len(),
            all == views(lines@),
            html_word@ == html_marker(),
            plain_text_word@ == plain_text_marker(),
            end_word@ == end_marker(),
            mode_agrees(mode, current),
            run(all.take(i as int)) == Ok::<ParseState, TemplateErrorView>(
                reader_state(mode, committed@, current, subject@, vars@, plain_text@, html@),
            ),
        decreases lines@.len() - i,
    {
        let line = &lines[i];
        let n = line.len();
        let ghost st = reader_state(mode, committed@, current, subject@, vars@, plain_text@, html@);
        proof {
            assert(all.take(i + 1).drop_last() =~= all.take(i as int));
            assert(all.take(i + 1).last() == line@);
            assert(line@.subrange(0, n as int) =~= line@);
            assert(run(all.take(i + 1)) == step(st, line@));
        }
        if range_is(line, 0, n, &html_word) {
            mode = ParseMode::HtmlInsert;
        } else if range_is(line, 0, n, &plain_text_word) {
            mode = ParseMode::PlainTextInsert;
        } else if range_is(line, 0, n, &end_word) {
            mode = ParseMode::Idle;
        } else if n > 0 && line[0] == '@' {
            if n < 2 || !(line[n - 1] < '\u{80}') {
                proof {
                    lemma_run_stops(all, i + 1);
                }
                return Err(TemplateError::MalformedHeader(string_of(line, 0, n)));
            }
            let name = string_of(line, 1, n - 1);
            match Locales::from(name.as_str()) {
                Err(message) => {
                    proof {
                        lemma_run_stops(all, i + 1);
                    }
                    return Err(TemplateError::UnknownLocale(message));
                },
                Ok(locale) => {
                    let ghost before = committed@;
                    let mut done_subject = String::new();
                    let mut done_vars: Table<String, String> = Table::new();
                    std::mem::swap(&mut done_subject, &mut subject);
                    std::mem::swap(&mut done_vars, &mut vars);
                    if let Some(previous) = current {
                        committed.insert(previous, LocaleDraft { subject: done_subject, vars: done_vars });
                    }
                    current = Some(locale);
                    mode = ParseMode::LocaleSubjectInsert(locale);
                    proof {
                        let expected = st.drafts.insert(locale, empty_draft());
                        assert(reader_state(mode, committed@, current, subject@, vars@, plain_text@, html@).drafts =~= expected);
                    }
                },
            }
        } else {
            match mode {
                ParseMode::LocaleInsert(locale) => {
                    if n > 0 {
                        match find_char(line, 0, n, '=') {
                            Some(eq) => {
                                let (ka, kb) = trim_range(line, 0, eq);
                                let key = string_of(line, ka, kb);
                                let (va, vb) = trim_range(line, eq + 1, n);
                                let open_collapsed = collapse(line, va, vb, '{');
                                let value_chars = collapse(&open_collapsed, 0, open_collapsed.len(), '}');
                                let value = string_of(&value_chars, 0, value_chars.len());
                                proof {
                                    assert(line@.subrange(0, eq as int) =~= line@.take(eq as int));
                                    assert(line@.subrange(eq + 1, n as int) =~= line@.skip(eq + 1));
                                    assert(open_collapsed@.subrange(0, open_collapsed@.len() as int) =~= open_collapsed@);
                                    assert(value_chars@.subrange(0, value_chars@.len() as int) =~= value_chars@);
                                }
                                vars.insert(key, value);
                                proof {
                                    let expected = body_step(st, line@);
                                    assert(reader_state(mode, committed@, current, subject@, vars@, plain_text@, html@).drafts =~= expected.drafts);
                                }
                            },
                            None => {},
                        }
                    }
                },
                ParseMode::LocaleSubjectInsert(locale) => {
                    if n > 0 {
                        let (a, b) = trim_range(line, 0, n);
                        append_chars(&mut subject, line, a, b);
                        mode = ParseMode::LocaleInsert(locale);
                        proof {
                            let expected = body_step(st, line@);
                            assert(reader_state(mode, committed@, current, subject@, vars@, plain_text@, html@).drafts =~= expected.drafts);
                        }
                    }
                },
                ParseMode::PlainTextInsert => {
                    let ghost old_text = plain_text@;
                    append_chars(&mut plain_text, line, 0, n);
                    plain_text.push('\n');
                    assert(plain_text@ =~= old_text + line@ + seq!['\n']);
                },
                ParseMode::HtmlInsert => {
                    let ghost old_text = html@;
                    append_chars(&mut html, line, 0, n);
                    html.push('\n');
                    assert(html@ =~= old_text + line@ + seq!['\n']);
                },
                ParseMode::Idle => {},
            }
        }
        assert(step(st, line@) == Ok::<ParseState, TemplateErrorView>(
            reader_state(mode, committed@, current, subject@, vars@, plain_text@, html@),
        ));
        i = i + 1;
    }
    proof {
        assert(all.take(lines@.len() as int) =~= all);
    }
    let ghost last = reader_state(mode, committed@, current, subject@, vars@, plain_text@, html@);
    if let Some(previous) = current {
        committed.insert(previous, LocaleDraft { subject, vars });
    }
    assert(committed@ =~= last.drafts);
    Ok(ReadTemplate { drafts: committed, plain_text, html })
}

/// The mail of one locale from the part read for it.
fn locale_mail_of(draft: &LocaleDraft, plain_text: &String, html: &String) -> (r: Option<MailTemplate>)
    ensures
        match locale_mail(draft@, plain_text@, html@) {
            Some(t) => r matches Some(m) && m@ == t,
            None => r is None,
        },
{
    let subject = match format_str(draft.subject.as_str(), &draft.vars) {
        Ok(s) => s,
        Err(_) => {
            return None;
        },
    };
    let plain_text = match format_str(plain_text.as_str(), &draft.vars) {
        Ok(s) => s,
        Err(_) => {
            return None;
        },
    };
    let html = match format_str(html.as_str(), &draft.vars) {
        Ok(s) => s,
        Err(_) => {
            return None;
        },
    };
    Some(MailTemplate { subject, html, plain_text })
}

/// The mails of the locales whose parts are the first entries of `es`.
pub open spec fn prefix_mails(es: Seq<(Locales, DraftText)>, k: int, plain_text: Seq<char>, html: Seq<char>) -> Map<Locales, TemplateText> {
    Map::new(
        |l: Locales| assoc_map(es.take(k)).contains_key(l),
        |l: Locales| locale_mail(assoc_map(es.take(k))[l], plain_text, html).unwrap(),
    )
}

/// Reads the template file `contents` named `name`: the mail it holds in each
/// of its locales.
pub fn parse_template(name: &String, contents: &str) -> (r: Result<Table<Locales, MailTemplate>, TemplateError>)
    ensures
        match parse_template_spec(name@, contents@) {
            Ok(m) => r matches Ok(t) && t@ == m,
            Err(e) => r matches Err(err) && err@ == e,
        },
{
    let chars = chars_of(contents);
    let lines = split_lines(&chars);
    let read = match read_lines(&lines) {
        Ok(read) => read,
        Err(e) => {
            return Err(e);
        },
    };
    let ghost st = run(text_lines(contents@))->Ok_0;
    let html = match minify_html(read.html.as_str()) {
        Ok(h) => h,
        Err(_) => {
            return Err(TemplateError::Html(name.clone()));
        },
    };
    let mut mails: Table<Locales, MailTemplate> = Table::new();
    let n = read.drafts.len();
    let ghost es = read.drafts.entry_seq();
    let mut i: usize = 0;
    assert(prefix_mails(es, 0, st.plain_text, html@) =~= mails@) by {
        assert(es.take(0) =~= Seq::<(Locales, DraftText)>::empty());
    }
    while i < n
        invariant
            i <= n == es.len(),
            es == read.drafts.entry_seq(),
            read.drafts@ == assoc_map(es),
            keys_unique(es),
            read.drafts@ == st.drafts,
            read.plain_text@ == st.plain_text,
            run(text_lines(contents@)) == Ok::<ParseState, TemplateErrorView>(st),
            minified_html(st.html) == Some(html@),
            forall|j: int| 0 <= j < i ==> (#[trigger] locale_mail(es[j].1, st.plain_text, html@)) is Some,
            mails@ == prefix_mails(es, i as int, st.plain_text, html@),
        decreases n - i,
    {
        let (locale, draft) = read.drafts.entry(i);
        proof {
            lemma_assoc_index(es, i as int);
        }
        match locale_mail_of(draft, &read.plain_text, &html) {
            Some(mail) => {
                mails.insert(*locale, mail);
                proof {
                    lemma_assoc_prefix(es, i as int);
                    assert(mails@ =~= prefix_mails(es, i + 1, st.plain_text, html@));
                }
            },
            None => {
                assert(st.drafts.contains_key(es[i as int].0));
                assert(!(forall|l: Locales| #[trigger] st.drafts.contains_key(l) ==> locale_mail(st.drafts[l], st.plain_text, html@) is Some));
                return Err(TemplateError::Format(name.clone()));
            },
        }
        i = i + 1;
    }
    proof {
        assert(es.take(n as int) =~= es);
        assert forall|l: Locales| #[trigger] st.drafts.contains_key(l) implies locale_mail(
            st.drafts[l],
            st.plain_text,
            html@,
        ) is Some by {
            lemma_assoc_contains(es, l);
            let j = choose|j: int| 0 <= j < es.len() && #[trigger] es[j].0 == l;
            lemma_assoc_index(es, j);
            assert(locale_mail(es[j].1, st.plain_text, html@) is Some);
        }
        assert(mails@ =~= all_locale_mails(st, html@));
    }
    Ok(mails)
}

/// A final line ending does not change what a template file holds: the file
/// with a line feed, or a carriage return and a line feed, appended reads as
/// the file without it (one that does not already end with a line feed, and,
/// for a bare line feed, not with a carriage return).
pub proof fn lemma_template_final_line_ending(name: Seq<char>, contents: Seq<char>)
    requires
        contents.len() > 0,
        contents.last() != '\n',
    ensures
        parse_template_spec(name, contents + seq!['\r', '\n']) == parse_template_spec(name, contents),
        contents.last() != '\r' ==> parse_template_spec(name, contents.push('\n'))
            == parse_template_spec(name, contents),
{
    crate::text::lemma_final_crlf(contents);
    if contents.last() != '\r' {
        crate::text::lemma_final_line_feed(contents);
    }
}

/// The locale whose part a line starts, if it is a header that can be read.
pub open spec fn header_locale(line: Seq<char>) -> Option<Locales> {
    if line != html_marker() && line != plain_text_marker() && line != end_marker() && (2
        <= line.len()) && line[0] == '@' && (line.last() < '\u{80}') {
        locale_named(line.subrange(1, line.len() - 1))
    } else {
        None
    }
}

/// The locales with a part are those that some header line names, and the
/// locale the mode names has a part.
proof fn lemma_run_locales(lines: Seq<Seq<char>>)
    ensures
        run(lines) matches Ok(st) ==> {
            &&& forall|l: Locales|
                st.drafts.contains_key(l) <==> exists|i: int|
                    0 <= i < lines.len() && #[trigger] header_locale(lines[i]) == Some(l)
            &&& st.mode matches ParseMode::LocaleInsert(l) ==> st.drafts.contains_key(l)
            &&& st.mode matches ParseMode::LocaleSubjectInsert(l) ==> st.drafts.contains_key(l)
        },
    decreases lines.len(),
{
    if lines.len() > 0 {
        let prefix = lines.drop_last();
        let line = lines.last();
        lemma_run_locales(prefix);
        if let Ok(st) = run(prefix) {
            if let Ok(next) = step(st, line) {
                assert forall|l: Locales|
                    next.drafts.contains_key(l) <==> exists|i: int|
                        0 <= i < lines.len() && #[trigger] header_locale(lines[i]) == Some(l) by {
                    if next.drafts.contains_key(l) {
                        if st.drafts.contains_key(l) {
                            let i = choose|i: int|
                                0 <= i < prefix.len() && #[trigger] header_locale(prefix[i]) == Some(l);
                            assert(lines[i] == prefix[i]);
                        } else {
                            assert(header_locale(lines[lines.len() - 1]) == Some(l));
                        }
                    }
                    if exists|i: int| 0 <= i < lines.len() && #[trigger] header_locale(lines[i]) == Some(l) {
                        let i = choose|i: int| 0 <= i < lines.len() && #[trigger] header_locale(lines[i]) == Some(l);
                        if i < lines.len() - 1 {
                            assert(header_locale(prefix[i]) == Some(l));
                        }
                    }
                }
            }
        }
    }
}

/// A template file is written in exactly the locales that its header lines
/// name.
pub proof fn lemma_template_locales(name: Seq<char>, contents: Seq<char>)
    ensures
        parse_template_spec(name, contents) matches Ok(m) ==> forall|l: Locales|
            m.contains_key(l) <==> exists|i: int|
                0 <= i < text_lines(contents).len() && #[trigger] header_locale(text_lines(contents)[i]) == Some(l),
{
    lemma_run_locales(text_lines(contents));
}

/// A line read by the mode: neither a marker nor a locale header.
pub open spec fn is_body_line(line: Seq<char>) -> bool {
    &&& line != html_marker()
    &&& line != plain_text_marker()
    &&& line != end_marker()
    &&& !(line.len() > 0 && line[0] == '@')
}

/// Reads the lines in order from the state `st`.
pub open spec fn run_from(st: ParseState, lines: Seq<Seq<char>>) -> Result<ParseState, TemplateErrorView>
    decreases lines.len(),
{
    if lines.len() == 0 {
        Ok(st)
    } else {
        match run_from(st, lines.drop_last()) {
            Ok(s) => step(s, lines.last()),
            Err(e) => Err(e),
        }
    }
}

/// Reading `a` then `b` is reading `b` from where `a` left off.
proof fn lemma_run_split(a: Seq<Seq<char>>, b: Seq<Seq<char>>)
    ensures
        run(a + b) == match run(a) {
            Ok(st) => run_from(st, b),
            Err(e) => Err(e),
        },
    decreases b.len(),
{
    if b.len() == 0 {
        assert(a + b =~= a);
    } else {
        assert((a + b).drop_last() =~= a + b.drop_last());
        assert((a + b).last() == b.last());
        lemma_run_split(a, b.drop_last());
    }
}

/// Body lines read while idle change nothing.
proof fn lemma_idle_body_lines(st: ParseState, extra: Seq<Seq<char>>)
    requires
        st.mode is Idle,
        forall|i: int| 0 <= i < extra.len() ==> is_body_line(#[trigger] extra[i]),
    ensures
        run_from(st, extra) == Ok::<ParseState, TemplateErrorView>(st),
    decreases extra.len(),
{
    if extra.len() > 0 {
        let rest = extra.drop_last();
        assert forall|i: int| 0 <= i < rest.len() implies is_body_line(#[trigger] rest[i]) by {
            assert(rest[i] == extra[i]);
        }
        lemma_idle_body_lines(st, rest);
        assert(is_body_line(extra[extra.len() - 1]));
    }
}

/// After an `#END` line the reader is idle.
pub proof fn lemma_end_marker_idles(lines: Seq<Seq<char>>)
    ensures
        run(lines.push(end_marker())) matches Ok(st) ==> st.mode is Idle,
{
    assert(lines.push(end_marker()).drop_last() =~= lines);
}

/// Lines outside the parts of the locales and the bodies change nothing:
/// body lines inserted where the reader is idle (before the first line, or
/// right after an `#END` line; see [`lemma_end_marker_idles`]) are ignored.
pub proof fn lemma_idle_lines_ignored(before: Seq<Seq<char>>, extra: Seq<Seq<char>>, after: Seq<Seq<char>>)
    requires
        run(before) matches Ok(st) && st.mode is Idle,
        forall|i: int| 0 <= i < extra.len() ==> is_body_line(#[trigger] extra[i]),
    ensures
        run(before + extra + after) == run(before + after),
{
    let st = run(before)->Ok_0;
    lemma_run_split(before, extra);
    lemma_idle_body_lines(st, extra);
    lemma_run_split(before + extra, after);
    lemma_run_split(before, after);
}

/// A template file with body lines inserted where the reader is idle holds
/// the same templates as the file without them.
pub proof fn lemma_template_idle_lines(
    name: Seq<char>,
    contents: Seq<char>,
    padded: Seq<char>,
    before: Seq<Seq<char>>,
    extra: Seq<Seq<char>>,
    after: Seq<Seq<char>>,
)
    requires
        text_lines(contents) == before + after,
        text_lines(padded) == before + extra + after,
        run(before) matches Ok(st) && st.mode is Idle,
        forall|i: int| 0 <= i < extra.len() ==> is_body_line(#[trigger] extra[i]),
    ensures
        parse_template_spec(name, padded) == parse_template_spec(name, contents),
{
    lemma_idle_lines_ignored(before, extra, after);
}

/// The lines, each followed by a line feed, one after the other.
pub open spec fn lines_with_feeds(lines: Seq<Seq<char>>) -> Seq<char>
    decreases lines.len(),
{
    if lines.len() == 0 {
        Seq::empty()
    } else {
        lines_with_feeds(lines.drop_last()) + lines.last() + seq!['\n']
    }
}

/// Body lines read in the plain-text body are all kept, each with a line feed.
proof fn lemma_plain_text_lines(st: ParseState, body: Seq<Seq<char>>)
    requires
        st.mode is PlainTextInsert,
        forall|i: int| 0 <= i < body.len() ==> is_body_line(#[trigger] body[i]),
    ensures
        run_from(st, body) == Ok::<ParseState, TemplateErrorView>(
            ParseState { plain_text: st.plain_text + lines_with_feeds(body), ..st },
        ),
    decreases body.len(),
{
    if body.len() == 0 {
        assert(st.plain_text + lines_with_feeds(body) =~= st.plain_text);
    } else {
        let rest = body.drop_last();
        assert forall|i: int| 0 <= i < rest.len() implies is_body_line(#[trigger] rest[i]) by {
            assert(rest[i] == body[i]);
        }
        lemma_plain_text_lines(st, rest);
        assert(is_body_line(body[body.len() - 1]));
        assert(st.plain_text + lines_with_feeds(rest) + body.last() + seq!['\n'] =~= st.plain_text
            + lines_with_feeds(body));
    }
}

/// Body lines read in the HTML body are all kept, each with a line feed.
proof fn lemma_html_lines(st: ParseState, body: Seq<Seq<char>>)
    requires
        st.mode is HtmlInsert,
        forall|i: int| 0 <= i < body.len() ==> is_body_line(#[trigger] body[i]),
    ensures
        run_from(st, body) == Ok::<ParseState, TemplateErrorView>(
            ParseState { html: st.html + lines_with_feeds(body), ..st },
        ),
    decreases body.len(),
{
    if body.len() == 0 {
        assert(st.html + lines_with_feeds(body) =~= st.html);
    } else {
        let rest = body.drop_last();
        assert forall|i: int| 0 <= i < rest.len() implies is_body_line(#[trigger] rest[i]) by {
            assert(rest[i] == body[i]);
        }
        lemma_html_lines(st, rest);
        assert(is_body_line(body[body.len() - 1]));
        assert(st.html + lines_with_feeds(rest) + body.last() + seq!['\n'] =~= st.html
            + lines_with_feeds(body));
    }
}

/// A `#PLAINTEXT` line followed by body lines appends every one of those
/// lines, empty ones included, each followed by a line feed, to the plain-text
/// body, and changes nothing else but the mode.
pub proof fn lemma_plain_text_section(before: Seq<Seq<char>>, body: Seq<Seq<char>>)
    requires
        run(before) is Ok,
        forall|i: int| 0 <= i < body.len() ==> is_body_line(#[trigger] body[i]),
    ensures
        run(before.push(plain_text_marker()) + body) == Ok::<ParseState, TemplateErrorView>(
            ParseState {
                mode: ParseMode::PlainTextInsert,
                drafts: run(before)->Ok_0.drafts,
                plain_text: run(before)->Ok_0.plain_text + lines_with_feeds(body),
                html: run(before)->Ok_0.html,
            },
        ),
{
    let head = before.push(plain_text_marker());
    assert(head.drop_last() =~= before);
    let st = run(before)->Ok_0;
    let opened = ParseState { mode: ParseMode::PlainTextInsert, ..st };
    assert(run(head) == Ok::<ParseState, TemplateErrorView>(opened));
    lemma_run_split(head, body);
    lemma_plain_text_lines(opened, body);
}

/// An `#HTML` line followed by body lines appends every one of those lines,
/// empty ones included, each followed by a line feed, to the HTML body, and
/// changes nothing else but the mode.
pub proof fn lemma_html_section(before: Seq<Seq<char>>, body: Seq<Seq<char>>)
    requires
        run(before) is Ok,
        forall|i: int| 0 <= i < body.len() ==> is_body_line(#[trigger] body[i]),
    ensures
        run(before.push(html_marker()) + body) == Ok::<ParseState, TemplateErrorView>(
            ParseState {
                mode: ParseMode::HtmlInsert,
                drafts: run(before)->Ok_0.drafts,
                plain_text: run(before)->Ok_0.plain_text,
                html: run(before)->Ok_0.html + lines_with_feeds(body),
            },
        ),
{
    let head = before.push(html_marker());
    assert(head.drop_last() =~= before);
    assert(html_marker() != plain_text_marker());
    let st = run(before)->Ok_0;
    let opened = ParseState { mode: ParseMode::HtmlInsert, ..st };
    assert(run(head) == Ok::<ParseState, TemplateErrorView>(opened));
    lemma_run_split(head, body);
    lemma_html_lines(opened, body);
}

/// A variable line `key=value` read in the variables of the locale `l`
/// stores, under the trimmed key (the text before the first `=`), the whole
/// rest of the line after that `=`, `=` signs included, trimmed and with
/// `{{`, then `}}`, written once; nothing else changes.
pub proof fn lemma_variable_line(before: Seq<Seq<char>>, l: Locales, key: Seq<char>, value: Seq<char>)
    requires
        run(before) matches Ok(st) && st.mode == ParseMode::LocaleInsert(l),
        !key.contains('='),
        is_body_line(key + seq!['='] + value),
    ensures
        run(before.push(key + seq!['='] + value)) == Ok::<ParseState, TemplateErrorView>(
            ParseState {
                drafts: run(before)->Ok_0.drafts.insert(
                    l,
                    DraftText {
                        subject: run(before)->Ok_0.drafts[l].subject,
                        vars: run(before)->Ok_0.drafts[l].vars.insert(
                            trim(key),
                            collapse_doubled(collapse_doubled(trim(value), '{'), '}'),
                        ),
                    },
                ),
                ..run(before)->Ok_0
            },
        ),
{
    let line = key + seq!['='] + value;
    let k = key.len() as int;
    assert(before.push(line).drop_last() =~= before);
    assert(before.push(line).last() == line);
    assert(is_first(line, '=', k)) by {
        assert(line[k] == '=');
        assert forall|j: int| 0 <= j < k implies line[j] != '=' by {
            assert(line[j] == key[j]);
            if key[j] == '=' {
                assert(key.contains('='));
            }
        }
    }
    lemma_first_index(line, '=', k);
    assert(line.take(k) =~= key);
    assert(line.skip(k + 1) =~= value);
}

/// A value with no brace and no whitespace at either end is stored as
/// written.
pub proof fn lemma_plain_value(value: Seq<char>)
    requires
        !value.contains('{'),
        !value.contains('}'),
        value.len() > 0 ==> !is_whitespace(value[0]) && !is_whitespace(value.last()),
    ensures
        collapse_doubled(collapse_doubled(trim(value), '{'), '}') == value,
{
    assert(trim_start(value) == value);
    assert(trim_end(value) == value);
    lemma_collapse_absent(value, '{');
    lemma_collapse_absent(value, '}');
}

/// Writing doubled `c` once leaves a text without `c` unchanged.
proof fn lemma_collapse_absent(s: Seq<char>, c: char)
    requires
        !s.contains(c),
    ensures
        collapse_doubled(s, c) == s,
    decreases s.len(),
{
    if s.len() > 0 {
        assert(s[0] != c) by {
            if s[0] == c {
                assert(s.contains(c));
            }
        }
        let t = s.skip(1);
        assert(!t.contains(c)) by {
            if t.contains(c) {
                let j = choose|j: int| 0 <= j < t.len() && t[j] == c;
                assert(s[j + 1] == c);
            }
        }
        lemma_collapse_absent(t, c);
        assert(seq![s[0]] + t =~= s);
    }
}

} // verus!
