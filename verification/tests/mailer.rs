use metw_mailer::mailer::{
    boundary_from, compose_body, content_type, generate_boundary, Mailer, MailerError,
    MailerOptions,
};
use metw_mailer::mailfmt::{MailFmt, MailFmtError, MailTemplate};
use metw_mailer::table::Table;
use metw_mailer::Locales;

const WELCOME: &str = "@en_US:\nWelcome {{name}}\n#PLAINTEXT\nHi {{name}}\n#END\n#HTML\n<b>{{name}}</b>\n#END\n";

fn mailer() -> Mailer {
    let f = MailFmt::new(&vec![("welcome".to_string(), WELCOME.to_string())]);
    Mailer::new("no-reply <no-reply@example.com>", f)
}

fn options(address: &str, mail_type: &str) -> MailerOptions {
    let mut vars = Table::new();
    vars.insert("name".to_string(), "Ada".to_string());
    MailerOptions {
        mail_type: mail_type.to_string(),
        locales: vec![Locales::en_US],
        vars,
        address: address.to_string(),
    }
}

#[test]
fn boundary_from_digits_least_significant_first() {
    assert_eq!(boundary_from(0), "");
    assert_eq!(boundary_from(0x1a), "a1");
    assert_eq!(boundary_from(0xff), "ff");
    assert_eq!(boundary_from(0x100), "001");
    assert_eq!(boundary_from(u128::MAX), "f".repeat(32));
}

#[test]
fn boundary_from_distinct_numbers_differ() {
    assert_ne!(boundary_from(0x12), boundary_from(0x21));
    assert_ne!(boundary_from(1), boundary_from(16));
}

#[test]
fn generate_boundary_is_hex() {
    for _ in 0..20 {
        let b = generate_boundary();
        assert!(b.len() <= 32);
        assert!(b.chars().all(|c| "0123456789abcdef".contains(c)));
    }
}

#[test]
fn compose_body_layout() {
    let t = MailTemplate { subject: "S".to_string(), html: "H".to_string(), plain_text: "P".to_string() };
    let body = compose_body(&"b1".to_string(), &t);
    let headers = "Content-Transfer-Encoding: quoted-printable\nMime-Version: 1.0";
    let expected = format!(
        "--b1\n{headers}\nContent-Type: text/plain; charset=utf-8\n\nP\n--b1\n{headers}\nContent-Type: text/html; charset=utf-8\n\nH\n--b1--"
    );
    assert_eq!(body, expected);
}

#[test]
fn content_type_names_boundary() {
    assert_eq!(content_type(&"abc".to_string()), "multipart/alternative; boundary=abc");
}

#[test]
fn mailer_new_checks_sender() {
    assert!(Mailer::try_new("not a mailbox", MailFmt::new(&vec![])).is_err());
    let m = Mailer::try_new("no-reply@example.com", MailFmt::new(&vec![])).unwrap();
    let s = m.sender();
    assert_eq!((s.name.clone(), s.user.as_str(), s.domain.as_str()), (None, "no-reply", "example.com"));
}

#[test]
fn format_mail_composes_body() {
    let m = mailer();
    let mut vars = Table::new();
    vars.insert("name".to_string(), "Ada".to_string());
    let (boundary, subject, body) =
        m.format_mail(&"welcome".to_string(), vec![Locales::en_US], &vars).unwrap();
    assert_eq!(subject, "Welcome Ada");
    let html = html_minifier::minify("<b>{name}</b>\n").unwrap().replace("{name}", "Ada");
    let t = MailTemplate { subject: subject.clone(), html, plain_text: "Hi Ada\n".to_string() };
    assert_eq!(body, compose_body(&boundary, &t));
}

#[test]
fn format_mail_passes_errors_on() {
    let m = mailer();
    let vars = Table::new();
    assert!(matches!(
        m.format_mail(&"nope".to_string(), vec![Locales::en_US], &vars),
        Err(MailFmtError::UnknownTemplate(_))
    ));
}

#[test]
fn prepare_mail() {
    let m = mailer();
    let p = m.prepare(&options("user@example.com", "welcome")).unwrap();
    assert_eq!(p.subject, "Welcome Ada");
    assert_eq!(p.content_type, format!("multipart/alternative; boundary={}", p.boundary));
    assert!(p.body.starts_with(&format!("--{}\n", p.boundary)));
    assert!(p.body.ends_with(&format!("\n--{}--", p.boundary)));
    assert_eq!(p.recipient.user, "user");
    assert_eq!(p.recipient.domain, "example.com");
}

#[test]
fn prepare_mail_bad_address() {
    let m = mailer();
    assert!(matches!(m.prepare(&options("no at sign", "welcome")), Err(MailerError::AddressError(_))));
}

#[test]
fn prepare_mail_format_error_comes_first() {
    let m = mailer();
    assert!(matches!(
        m.prepare(&options("no at sign", "nope")),
        Err(MailerError::MailFmtError(MailFmtError::UnknownTemplate(_)))
    ));
}

#[test]
fn mailer_sender_from_documented_text() {
    let m = mailer();
    let s = m.sender();
    assert_eq!(s.name.as_deref(), Some("no-reply"));
    assert_eq!(s.user, "no-reply");
    assert_eq!(s.domain, "example.com");
}

#[test]
fn prepare_mail_recipient_split_at_last_at() {
    let m = mailer();
    let p = m.prepare(&options("\"a@b\"@example.com", "welcome")).unwrap();
    assert_eq!(p.recipient.user, "\"a@b\"");
    assert_eq!(p.recipient.domain, "example.com");
}

#[test]
fn try_prepare_reports_missing_variable() {
    let m = mailer();
    let mut o = options("user@example.com", "welcome");
    o.vars = Table::new();
    assert!(matches!(m.try_prepare(&o), Err(MailerError::MailFmtError(MailFmtError::FmtError))));
    assert!(matches!(
        m.try_format_mail(&"welcome".to_string(), vec![Locales::en_US], &Table::new()),
        Err(MailFmtError::FmtError)
    ));
    let p = m.try_prepare(&options("user@example.com", "welcome")).unwrap();
    assert_eq!(p.subject, "Welcome Ada");
}
