use metw_mailer::mailfmt::template::parse_template;
use metw_mailer::mailfmt::{MailFmt, MailFmtError, MailTemplate, TemplateError};
use metw_mailer::table::Table;
use metw_mailer::Locales;

const WELCOME: &str = "@en_US:
Welcome {{name}}
greeting = Hello
link = <{{url}}>

@tr:
  Hosgeldin {{name}}  
greeting=Merhaba
link = <{{url}}>
this line has no equals sign

#PLAINTEXT
{greeting} {{name}}, see {link}
#END
#HTML
<p>{greeting}</p>
#END
";

fn files(list: &[(&str, &str)]) -> Vec<(String, String)> {
    list.iter().map(|(n, c)| (n.to_string(), c.to_string())).collect()
}

fn vars(list: &[(&str, &str)]) -> Table<String, String> {
    let mut t = Table::new();
    for (k, v) in list {
        t.insert(k.to_string(), v.to_string());
    }
    t
}

fn minified(html: &str) -> String {
    html_minifier::minify(html).unwrap()
}

#[test]
fn mail_template_new_is_empty() {
    let t = MailTemplate::new();
    assert_eq!(t.subject, "");
    assert_eq!(t.html, "");
    assert_eq!(t.plain_text, "");
}

#[test]
fn parse_template_fills_locale_variables() {
    let t = parse_template(&"welcome".to_string(), WELCOME).unwrap();
    assert_eq!(t.len(), 2);
    let en = t.get(&Locales::en_US).unwrap();
    assert_eq!(en.subject, "Welcome {name}");
    assert_eq!(en.plain_text, "Hello {name}, see <{url}>\n");
    assert_eq!(en.html, minified("<p>{greeting}</p>\n").replace("{greeting}", "Hello"));
    let tr = t.get(&Locales::tr).unwrap();
    assert_eq!(tr.subject, "Hosgeldin {name}");
    assert_eq!(tr.plain_text, "Merhaba {name}, see <{url}>\n");
}

#[test]
fn parse_template_minifies_html() {
    let raw = "#HTML\n<p>   one    two   </p>\n#END\n@en_US:\nS\n";
    let t = parse_template(&"m".to_string(), raw).unwrap();
    let en = t.get(&Locales::en_US).unwrap();
    assert_eq!(en.html, minified("<p>   one    two   </p>\n"));
    assert_ne!(en.html, "<p>   one    two   </p>\n");
}

#[test]
fn parse_template_reads_crlf_lines() {
    let raw = "@en_US:\r\nSubject line\r\nx = 1\r\n#PLAINTEXT\r\nvalue {x}\r\n#END\r\n";
    let t = parse_template(&"c".to_string(), raw).unwrap();
    let en = t.get(&Locales::en_US).unwrap();
    assert_eq!(en.subject, "Subject line");
    assert_eq!(en.plain_text, "value 1\n");
}

#[test]
fn parse_template_later_header_resets_locale() {
    let raw = "@en_US:\nFirst\nx = 1\n@en_US:\nSecond\n#PLAINTEXT\nplain\n#END\n";
    let t = parse_template(&"r".to_string(), raw).unwrap();
    assert_eq!(t.len(), 1);
    let en = t.get(&Locales::en_US).unwrap();
    assert_eq!(en.subject, "Second");
}

#[test]
fn parse_template_unknown_locale() {
    let raw = "@de:\nHallo\n";
    match parse_template(&"d".to_string(), raw) {
        Err(TemplateError::UnknownLocale(m)) => assert_eq!(m, "unknown locale: de"),
        other => panic!("unexpected {:?}", other.err()),
    }
}

#[test]
fn parse_template_malformed_headers() {
    match parse_template(&"d".to_string(), "@\n") {
        Err(TemplateError::MalformedHeader(l)) => assert_eq!(l, "@"),
        other => panic!("unexpected {:?}", other.err()),
    }
    match parse_template(&"d".to_string(), "@en_USé\n") {
        Err(TemplateError::MalformedHeader(l)) => assert_eq!(l, "@en_USé"),
        other => panic!("unexpected {:?}", other.err()),
    }
}

#[test]
fn parse_template_missing_variable_is_a_format_error() {
    let raw = "@en_US:\nSubject\n#PLAINTEXT\n{missing}\n#END\n";
    match parse_template(&"f".to_string(), raw) {
        Err(TemplateError::Format(name)) => assert_eq!(name, "f"),
        other => panic!("unexpected {:?}", other.err()),
    }
}

#[test]
fn parse_template_final_line_ending_does_not_matter() {
    let without = "@en_US:\nS\n#PLAINTEXT\nbody";
    let a = parse_template(&"a".to_string(), without).unwrap();
    let b = parse_template(&"a".to_string(), &format!("{without}\n")).unwrap();
    let c = parse_template(&"a".to_string(), &format!("{without}\r\n")).unwrap();
    let pa = a.get(&Locales::en_US).unwrap();
    let pb = b.get(&Locales::en_US).unwrap();
    let pc = c.get(&Locales::en_US).unwrap();
    assert_eq!(pa.plain_text, "body\n");
    assert_eq!(pa.plain_text, pb.plain_text);
    assert_eq!(pa.plain_text, pc.plain_text);
}

#[test]
fn mailfmt_fmt_uses_first_available_locale() {
    let f = MailFmt::new(&files(&[("welcome", WELCOME)]));
    let v = vars(&[("name", "Ada"), ("url", "https://x")]);
    let m = f.fmt(&"welcome".to_string(), vec![Locales::tr, Locales::en_US], &v).unwrap();
    assert_eq!(m.subject, "Hosgeldin Ada");
    assert_eq!(m.plain_text, "Merhaba Ada, see <https://x>\n");
    let m = f.fmt(&"welcome".to_string(), vec![Locales::en_US], &v).unwrap();
    assert_eq!(m.subject, "Welcome Ada");
    assert_eq!(m.plain_text, "Hello Ada, see <https://x>\n");
}

#[test]
fn mailfmt_fmt_skips_locales_the_template_lacks() {
    let only_tr = "@tr:\nKonu\n#PLAINTEXT\nmetin\n#END\n";
    let f = MailFmt::new(&files(&[("t", only_tr)]));
    let m = f.fmt(&"t".to_string(), vec![Locales::en_US, Locales::tr], &vars(&[])).unwrap();
    assert_eq!(m.subject, "Konu");
    assert_eq!(m.plain_text, "metin\n");
}

#[test]
fn mailfmt_fmt_unknown_template() {
    let f = MailFmt::new(&files(&[("welcome", WELCOME)]));
    match f.fmt(&"nope".to_string(), vec![Locales::en_US], &vars(&[])) {
        Err(MailFmtError::UnknownTemplate(n)) => assert_eq!(n, "nope"),
        other => panic!("unexpected {:?}", other.err()),
    }
}

#[test]
fn mailfmt_fmt_unknown_locale() {
    let only_tr = "@tr:\nKonu\n";
    let f = MailFmt::new(&files(&[("t", only_tr)]));
    match f.fmt(&"t".to_string(), vec![Locales::en_US], &vars(&[])) {
        Err(MailFmtError::UnknownLocale(l)) => assert_eq!(l, vec![Locales::en_US]),
        other => panic!("unexpected {:?}", other.err()),
    }
    match f.fmt(&"t".to_string(), vec![], &vars(&[])) {
        Err(MailFmtError::UnknownLocale(l)) => assert!(l.is_empty()),
        other => panic!("unexpected {:?}", other.err()),
    }
}

#[test]
fn mailfmt_fmt_missing_variable() {
    let f = MailFmt::new(&files(&[("welcome", WELCOME)]));
    let v = vars(&[("name", "Ada")]);
    assert!(!f.fills(&"welcome".to_string(), &vec![Locales::en_US], &v));
    match f.try_fmt(&"welcome".to_string(), vec![Locales::en_US], &v) {
        Err(MailFmtError::FmtError) => {}
        other => panic!("unexpected {:?}", other.err()),
    }
}

#[test]
fn mailfmt_new_later_file_replaces_earlier() {
    let first = "@en_US:\nFirst\n";
    let second = "@en_US:\nSecond\n";
    let f = MailFmt::new(&files(&[("x", first), ("x", second)]));
    let m = f.fmt(&"x".to_string(), vec![Locales::en_US], &vars(&[])).unwrap();
    assert_eq!(m.subject, "Second");
}

#[test]
fn mailfmt_new_stops_at_first_bad_file() {
    let bad = "@xx:\n";
    let worse = "@\n";
    match MailFmt::try_new(&files(&[("ok", WELCOME), ("bad", bad), ("worse", worse)])) {
        Err(TemplateError::UnknownLocale(m)) => assert_eq!(m, "unknown locale: xx"),
        other => panic!("unexpected {:?}", other.err()),
    }
}

#[test]
fn mailfmt_new_of_no_files_knows_no_template() {
    let f = MailFmt::new(&Vec::new());
    assert!(matches!(
        f.fmt(&"welcome".to_string(), vec![Locales::en_US], &vars(&[])),
        Err(MailFmtError::UnknownTemplate(_))
    ));
}

#[test]
fn parse_template_html_error() {
    let html = "<style>a{}/* never closed</style>\n";
    assert!(html_minifier::minify(html).is_err());
    let raw = format!("@en_US:\nS\n#HTML\n{html}#END\n");
    match parse_template(&"h".to_string(), &raw) {
        Err(TemplateError::Html(name)) => assert_eq!(name, "h"),
        other => panic!("unexpected {:?}", other.err()),
    }
}

#[test]
fn mailfmt_try_new_reports_format_error() {
    let raw = "@tr:\nKonu\n#PLAINTEXT\nMerhaba {name}\n#END\n";
    match MailFmt::try_new(&files(&[("a", raw)])) {
        Err(TemplateError::Format(name)) => assert_eq!(name, "a"),
        other => panic!("unexpected {:?}", other.err()),
    }
}

#[test]
fn mailfmt_try_fmt_matches_fmt() {
    let f = MailFmt::new(&files(&[("welcome", WELCOME)]));
    let v = vars(&[("name", "Ada"), ("url", "u")]);
    assert!(f.fills(&"welcome".to_string(), &vec![Locales::en_US], &v));
    let a = f.fmt(&"welcome".to_string(), vec![Locales::en_US], &v).unwrap();
    let b = f.try_fmt(&"welcome".to_string(), vec![Locales::en_US], &v).unwrap();
    assert_eq!((a.subject, a.plain_text, a.html), (b.subject, b.plain_text, b.html));
    assert!(f.fills(&"nope".to_string(), &vec![Locales::en_US], &v));
}

#[test]
fn mailfmt_mail_in_one_locale() {
    let f = MailFmt::new(&files(&[("welcome", WELCOME)]));
    let v = vars(&[("name", "Ada"), ("url", "u")]);
    let (subject, plain_text, html) = f.mail(&"welcome".to_string(), Locales::tr, &v);
    assert_eq!(subject, "Hosgeldin Ada");
    assert_eq!(plain_text, "Merhaba Ada, see <u>\n");
    assert_eq!(html, minified("<p>{greeting}</p>\n").replace("{greeting}", "Merhaba"));
}

#[test]
fn error_messages() {
    assert_eq!(MailFmtError::FmtError.message(), "format error");
    assert_eq!(
        MailFmtError::UnknownLocale(vec![Locales::en_US, Locales::tr]).message(),
        "unknown locale: [en_US, tr]"
    );
    assert_eq!(MailFmtError::UnknownLocale(vec![]).message(), "unknown locale: []");
    assert_eq!(
        MailFmtError::UnknownTemplate("we\"lc".to_string()).message(),
        "unknown template: \"we\\\"lc\""
    );
    let v = vec![Locales::tr, Locales::en_US];
    assert_eq!(MailFmtError::UnknownLocale(v.clone()).message(), format!("unknown locale: {v:?}"));
}

#[test]
fn lines_outside_sections_are_ignored() {
    let plain = "@en_US:\nS\n#PLAINTEXT\nbody\n#END\n";
    let padded = "free text\n@en_US:\nS\n#PLAINTEXT\nbody\n#END\nmore = text\nnotes\n";
    let a = parse_template(&"p".to_string(), plain).unwrap();
    let b = parse_template(&"p".to_string(), padded).unwrap();
    let (ma, mb) = (a.get(&Locales::en_US).unwrap(), b.get(&Locales::en_US).unwrap());
    assert_eq!((&ma.subject, &ma.plain_text), (&mb.subject, &mb.plain_text));
    assert_eq!(b.len(), 1);
}
