use metw_mailer::web::routes::{authorized, send_mail_answer, uptime_answer};

#[test]
fn authorized_needs_matching_token() {
    assert!(authorized(Some(b"secret"), "secret"));
    assert!(!authorized(Some(b"secret!"), "secret"));
    assert!(!authorized(Some(b"Secret"), "secret"));
    assert!(!authorized(None, "secret"));
    assert!(authorized(Some("tökén".as_bytes()), "tökén"));
}

#[test]
fn answers() {
    let ok = send_mail_answer(None);
    assert!(ok.success);
    assert_eq!(ok.message, "OK");
    let failed = send_mail_answer(Some("boom".to_string()));
    assert!(!failed.success);
    assert_eq!(failed.message, "boom");
    let up = uptime_answer(42);
    assert_eq!(up.uptime, 42);
    assert_eq!(up.message, "OK");
}
