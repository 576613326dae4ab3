//! Preparing templated mails for sending: formatting them, choosing a MIME
//! boundary and composing the multipart body.

use vstd::prelude::*;

use rand::Rng;

pub mod error;

pub use error::MailerError;

use crate::mailfmt::{fmt_spec, placeholders_filled, MailFmt, MailFmtError, MailTemplate, TemplateText};
use crate::table::Table;
use crate::Locales;

verus! {

/// An e-mail address: the part before its last `@`, and the part after it.
pub struct EmailAddress {
    pub user: String,
    pub domain: String,
}

/// A mailbox: an optional display name and an e-mail address.
pub struct SenderMailbox {
    pub name: Option<String>,
    pub user: String,
    pub domain: String,
}

impl SenderMailbox {
    /// The name, the user and the domain, taken by their views.
    pub open spec fn parts(&self) -> (Option<Seq<char>>, Seq<char>, Seq<char>) {
        (
            match self.name {
                Some(n) => Some(n@),
                None => None,
            },
            self.user@,
            self.domain@,
        )
    }
}

/// What `<Mailbox as FromStr>::from_str` of lettre reads from `s`: the display
/// name, and the user and domain of the address; `None` where it refuses `s`.
pub uninterp spec fn mailbox_parts(s: Seq<char>) -> Option<(Option<Seq<char>>, Seq<char>, Seq<char>)>;

/// Whether `<Address as FromStr>::from_str` of lettre reads `s`.
pub uninterp spec fn address_accepted(s: Seq<char>) -> bool;

/// Reads a mailbox (`name <user@domain>` or `user@domain`) with lettre's
/// `Mailbox::from_str`, and takes its name and the user and domain of its
/// address. What it reads is taken to depend on the text alone and is named
/// [`mailbox_parts`]; nothing more is claimed of it.
#[verifier::external_body]
fn parse_mailbox(s: &str) -> (r: Result<SenderMailbox, lettre::address::AddressError>)
    ensures
        r is Ok <==> mailbox_parts(s@) is Some,
        r matches Ok(m) ==> mailbox_parts(s@) == Some(m.parts()),
{
    let m = s.parse::<lettre::message::Mailbox>()?;
    Ok(SenderMailbox {
        name: m.name.clone(),
        user: m.email.user().to_string(),
        domain: m.email.domain().to_string(),
    })
}

/// Reads an address with lettre's `Address::from_str`, and takes its user and
/// domain. Whether it succeeds is taken to depend on the text alone and is
/// named [`address_accepted`]. lettre keeps the text and splits it at its last
/// `@`, so the user, an `@` and the domain give the text back, and the domain
/// holds no `@`.
#[verifier::external_body]
fn parse_address(s: &str) -> (r: Result<EmailAddress, lettre::address::AddressError>)
    ensures
        r is Ok <==> address_accepted(s@),
        r matches Ok(a) ==> a.user@ + seq!['@'] + a.domain@ == s@ && !a.domain@.contains('@'),
{
    let a = s.parse::<lettre::Address>()?;
    Ok(EmailAddress { user: a.user().to_string(), domain: a.domain().to_string() })
}

/// A random number from rand's thread-local generator; nothing is claimed of it.
#[verifier::external_body]
fn random_u128() -> u128 {
    rand::thread_rng().gen()
}

/// The digits of base 16, in order.
pub open spec fn hex_digits() -> Seq<char> {
    seq!['0', '1', '2', '3', '4', '5', '6', '7', '8', '9', 'a', 'b', 'c', 'd', 'e', 'f']
}

/// The base-16 digits of `random`, least significant first; empty for zero.
pub open spec fn boundary_of(random: nat) -> Seq<char>
    decreases random,
{
    if random == 0 {
        Seq::empty()
    } else {
        seq![hex_digits()[(random % 16) as int]] + boundary_of(random / 16)
    }
}

/// `s` is the boundary of some 128-bit number.
pub open spec fn is_boundary(s: Seq<char>) -> bool {
    exists|random: u128| s == boundary_of(random as nat)
}

/// The value of a base-16 digit.
pub open spec fn hex_value(c: char) -> int {
    if '0' <= c && c <= '9' {
        c as int - '0' as int
    } else {
        c as int - 'a' as int + 10
    }
}

/// The number whose digits, least significant first, are `s`.
pub open spec fn boundary_value(s: Seq<char>) -> nat
    decreases s.len(),
{
    if s.len() == 0 {
        0
    } else {
        (hex_value(s[0]) + 16 * boundary_value(s.drop_first())) as nat
    }
}

/// The digit of `d`, for `d < 16`.
fn hex_digit(d: u128) -> (c: char)
    requires
        d < 16,
    ensures
        c == hex_digits()[d as int],
{
    match d {
        0 => '0',
        1 => '1',
        2 => '2',
        3 => '3',
        4 => '4',
        5 => '5',
        6 => '6',
        7 => '7',
        8 => '8',
        9 => '9',
        10 => 'a',
        11 => 'b',
        12 => 'c',
        13 => 'd',
        14 => 'e',
        _ => 'f',
    }
}

/// The boundary that stands for `random`: its base-16 digits, least
/// significant first.
pub fn boundary_from(random: u128) -> (r: String)
    ensures
        r@ == boundary_of(random as nat),
{
    let mut rest = random;
    let mut out = String::new();
    while rest > 0
        invariant
            boundary_of(random as nat) == out@ + boundary_of(rest as nat),
        decreases rest,
    {
        let d = rest & 15;
        assert(rest & 15 == rest % 16) by (bit_vector);
        assert(rest >> 4 == rest / 16) by (bit_vector);
        let ghost old_out = out@;
        out.push(hex_digit(d));
        rest = rest >> 4;
        assert(old_out + boundary_of((rest * 16 + d) as nat) =~= out@ + boundary_of(rest as nat));
    }
    assert(out@ + boundary_of(0) =~= out@);
    out
}

/// Generates a random MIME boundary.
pub fn generate_boundary() -> (r: String)
    ensures
        is_boundary(r@),
        r@.len() <= 32,
        forall|k: int| 0 <= k < r@.len() ==> hex_digits().contains(#[trigger] r@[k]),
{
    let random = random_u128();
    proof {
        lemma_boundary_shape(random);
    }
    boundary_from(random)
}

/// The headers of each part of the body.
pub open spec fn multipart_headers() -> Seq<char> {
    "Content-Transfer-Encoding: quoted-printable\nMime-Version: 1.0"@
}

/// The multipart body of a mail: its plain-text part, then its HTML part,
/// each opened by the boundary, and the closing boundary.
pub open spec fn mail_body(boundary: Seq<char>, plain_text: Seq<char>, html: Seq<char>) -> Seq<char> {
    "--"@ + boundary + "\n"@ + multipart_headers()
        + "\nContent-Type: text/plain; charset=utf-8\n\n"@ + plain_text + "\n--"@ + boundary + "\n"@
        + multipart_headers() + "\nContent-Type: text/html; charset=utf-8\n\n"@ + html + "\n--"@
        + boundary + "--"@
}

/// The content type of a mail whose parts are separated by `boundary`.
pub open spec fn content_type_of(boundary: Seq<char>) -> Seq<char> {
    "multipart/alternative; boundary="@ + boundary
}

/// Composes the multipart body of `template` with `boundary`.
pub fn compose_body(boundary: &String, template: &MailTemplate) -> (r: String)
    ensures
        r@ == mail_body(boundary@, template@.plain_text, template@.html),
{
    let headers = "Content-Transfer-Encoding: quoted-printable\nMime-Version: 1.0";
    let mut body = String::new();
    body.append("--");
    body.append(boundary.as_str());
    body.append("\n");
    body.append(headers);
    body.append("\nContent-Type: text/plain; charset=utf-8\n\n");
    body.append(template.plain_text.as_str());
    body.append("\n--");
    body.append(boundary.as_str());
    body.append("\n");
    body.append(headers);
    body.append("\nContent-Type: text/html; charset=utf-8\n\n");
    body.append(template.html.as_str());
    body.append("\n--");
    body.append(boundary.as_str());
    body.append("--");
    body
}

/// The content type of a mail whose parts are separated by `boundary`.
pub fn content_type(boundary: &String) -> (r: String)
    ensures
        r@ == content_type_of(boundary@),
{
    let mut r = String::new();
    r.append("multipart/alternative; boundary=");
    r.append(boundary.as_str());
    r
}

/// What a mail is sent with.
pub struct MailerOptions {
    /// The name of the template.
    pub mail_type: String,
    /// The locales the reader prefers, the most preferred first.
    pub locales: Vec<Locales>,
    /// The values of the template's placeholders.
    pub vars: Table<String, String>,
    /// The recipient's address.
    pub address: String,
}

/// A mail ready to be handed to the transport.
pub struct PreparedMail {
    /// The boundary between the parts of the body.
    pub boundary: String,
    pub subject: String,
    /// The multipart body.
    pub body: String,
    /// The value of the `Content-Type` header.
    pub content_type: String,
    /// The recipient's address.
    pub recipient: EmailAddress,
}

/// Formats templated mails, sent from one sender.
pub struct Mailer {
    mailfmt: MailFmt,
    sender: SenderMailbox,
}

impl Mailer {
    /// The templates of this mailer.
    pub closed spec fn templates(&self) -> Map<Seq<char>, Map<Locales, TemplateText>> {
        self.mailfmt@
    }

    /// The mailbox the mails are sent from: its name, user and domain.
    pub closed spec fn sender_parts(&self) -> (Option<Seq<char>>, Seq<char>, Seq<char>) {
        self.sender.parts()
    }

    /// A mailer that formats mails with `mailfmt` and sends them from the
    /// mailbox `sender`, which must be one that lettre reads.
    pub fn new(sender: &str, mailfmt: MailFmt) -> (r: Mailer)
        requires
            mailbox_parts(sender@) is Some,
        ensures
            r.templates() == mailfmt@,
            r.sender_parts() == mailbox_parts(sender@)->Some_0,
    {
        match parse_mailbox(sender) {
            Ok(sender) => Mailer { mailfmt, sender },
            Err(_) => {
                proof {
                    assert(false);
                }
                Mailer { mailfmt, sender: SenderMailbox { name: None, user: String::new(), domain: String::new() } }
            },
        }
    }

    /// A mailer as [`Mailer::new`] makes it, or the error with which lettre
    /// refuses the sender.
    pub fn try_new(sender: &str, mailfmt: MailFmt) -> (r: Result<Mailer, lettre::address::AddressError>)
        ensures
            r is Ok <==> mailbox_parts(sender@) is Some,
            r matches Ok(m) ==> m.templates() == mailfmt@ && m.sender_parts() == mailbox_parts(sender@)->Some_0,
    {
        match parse_mailbox(sender) {
            Ok(_) => Ok(Mailer::new(sender, mailfmt)),
            Err(e) => Err(e),
        }
    }

    /// The mailbox the mails are sent from.
    pub fn sender(&self) -> (r: &SenderMailbox)
        ensures
            r.parts() == self.sender_parts(),
    {
        &self.sender
    }

    /// Formats the mail `mail_type` in the first of `locales` that it is
    /// written in, and composes its body with a random boundary: the boundary,
    /// the subject and the body. Each placeholder of the chosen version must
    /// have a variable.
    pub fn format_mail(&self, mail_type: &String, locales: Vec<Locales>, vars: &Table<String, String>) -> (r: Result<(String, String, String), MailFmtError>)
        requires
            placeholders_filled(self.templates(), mail_type@, locales@, vars@),
        ensures
            match fmt_spec(self.templates(), mail_type@, locales@, vars@) {
                Ok(t) => r matches Ok((boundary, subject, body)) && is_boundary(boundary@)
                    && subject@ == t.subject && body@ == mail_body(boundary@, t.plain_text, t.html),
                Err(e) => r matches Err(err) && err@ == e,
            },
    {
        let boundary = generate_boundary();
        let template = match self.mailfmt.fmt(mail_type, locales, vars) {
            Ok(t) => t,
            Err(e) => {
                return Err(e);
            },
        };
        let body = compose_body(&boundary, &template);
        Ok((boundary, template.subject, body))
    }

    /// Formats the mail as [`Mailer::format_mail`] does, or tells that a
    /// placeholder has no variable.
    pub fn try_format_mail(&self, mail_type: &String, locales: Vec<Locales>, vars: &Table<String, String>) -> (r: Result<(String, String, String), MailFmtError>)
        ensures
            match fmt_spec(self.templates(), mail_type@, locales@, vars@) {
                Ok(t) => r matches Ok((boundary, subject, body)) && is_boundary(boundary@)
                    && subject@ == t.subject && body@ == mail_body(boundary@, t.plain_text, t.html),
                Err(e) => r matches Err(err) && err@ == e,
            },
    {
        if self.mailfmt.fills(mail_type, &locales, vars) {
            self.format_mail(mail_type, locales, vars)
        } else {
            Err(MailFmtError::FmtError)
        }
    }

    /// Prepares the mail that `options` asks for: formats it, then reads the
    /// recipient's address. Each placeholder of the chosen version must have
    /// a variable.
    pub fn prepare(&self, options: &MailerOptions) -> (r: Result<PreparedMail, MailerError>)
        requires
            placeholders_filled(self.templates(), options.mail_type@, options.locales@, options.vars@),
        ensures
            prepared(self.templates(), options, r),
    {
        let locales = copy_locales(&options.locales);
        let (boundary, subject, body) = match self.format_mail(&options.mail_type, locales, &options.vars) {
            Ok(parts) => parts,
            Err(e) => {
                return Err(MailerError::from_fmt(e));
            },
        };
        let recipient = match parse_address(options.address.as_str()) {
            Ok(a) => a,
            Err(e) => {
                return Err(MailerError::from_address(e));
            },
        };
        let content_type = content_type(&boundary);
        Ok(PreparedMail { boundary, subject, body, content_type, recipient })
    }

    /// Prepares the mail as [`Mailer::prepare`] does, or tells that a
    /// placeholder has no variable.
    pub fn try_prepare(&self, options: &MailerOptions) -> (r: Result<PreparedMail, MailerError>)
        ensures
            prepared(self.templates(), options, r),
    {
        let locales = copy_locales(&options.locales);
        if self.mailfmt.fills(&options.mail_type, &locales, &options.vars) {
            self.prepare(options)
        } else {
            Err(MailerError::from_fmt(MailFmtError::FmtError))
        }
    }
}

/// `r` is the mail that `options` asks for, formatted with `templates`: the
/// formatting error if formatting fails; otherwise the address error if the
/// recipient's address cannot be read; otherwise the mail, with a boundary,
/// the subject, the body, the content type, and the recipient's address split
/// at its last `@`.
pub open spec fn prepared(
    templates: Map<Seq<char>, Map<Locales, TemplateText>>,
    options: &MailerOptions,
    r: Result<PreparedMail, MailerError>,
) -> bool {
    match fmt_spec(templates, options.mail_type@, options.locales@, options.vars@) {
        Ok(t) => if address_accepted(options.address@) {
            r matches Ok(p) && is_boundary(p.boundary@) && p.subject@ == t.subject
                && p.body@ == mail_body(p.boundary@, t.plain_text, t.html)
                && p.content_type@ == content_type_of(p.boundary@)
                && p.recipient.user@ + seq!['@'] + p.recipient.domain@ == options.address@
                && !p.recipient.domain@.contains('@')
        } else {
            r matches Err(MailerError::AddressError(_))
        },
        Err(e) => r matches Err(MailerError::MailFmtError(err)) && err@ == e,
    }
}

/// A prepared mail is the formatted mail in the multipart layout: it is
/// prepared only when the mail formats and the address is read; its subject
/// is the formatted subject; its body opens with the boundary and the
/// text/plain part, which holds the formatted plain text, then the boundary
/// and the text/html part, which holds the formatted HTML, and ends with the
/// closing boundary; its content type names that boundary; and its recipient
/// spells the address asked for.
pub proof fn lemma_prepared_mail(
    templates: Map<Seq<char>, Map<Locales, TemplateText>>,
    options: &MailerOptions,
    r: Result<PreparedMail, MailerError>,
)
    requires
        prepared(templates, options, r),
        r is Ok,
    ensures
        fmt_spec(templates, options.mail_type@, options.locales@, options.vars@) is Ok,
        address_accepted(options.address@),
        ({
            let t = fmt_spec(templates, options.mail_type@, options.locales@, options.vars@)->Ok_0;
            let p = r->Ok_0;
            let b = p.boundary@;
            &&& p.subject@ == t.subject
            &&& p.body@ == "--"@ + b + "\n"@ + "Content-Transfer-Encoding: quoted-printable\nMime-Version: 1.0"@
                + "\nContent-Type: text/plain; charset=utf-8\n\n"@ + t.plain_text + "\n--"@ + b + "\n"@
                + "Content-Transfer-Encoding: quoted-printable\nMime-Version: 1.0"@
                + "\nContent-Type: text/html; charset=utf-8\n\n"@ + t.html + "\n--"@ + b + "--"@
            &&& p.content_type@ == "multipart/alternative; boundary="@ + b
            &&& p.recipient.user@ + seq!['@'] + p.recipient.domain@ == options.address@
        }),
{
}

/// A copy of a list of locales.
fn copy_locales(locales: &Vec<Locales>) -> (r: Vec<Locales>)
    ensures
        r@ == locales@,
{
    let mut r: Vec<Locales> = Vec::new();
    let mut i: usize = 0;
    while i < locales.len()
        invariant
            i <= locales@.len(),
            r@ == locales@.take(i as int),
        decreases locales@.len() - i,
    {
        r.push(locales[i]);
        assert(locales@.take(i + 1) =~= locales@.take(i as int).push(locales@[i as int]));
        i = i + 1;
    }
    assert(locales@.take(locales@.len() as int) =~= locales@);
    r
}

/// The boundary of a number gives the number back.
pub proof fn lemma_boundary_value(random: nat)
    ensures
        boundary_value(boundary_of(random)) == random,
    decreases random,
{
    if random > 0 {
        let d = random % 16;
        let s = boundary_of(random);
        lemma_boundary_value(random / 16);
        assert(s.drop_first() =~= boundary_of(random / 16));
        assert(hex_value(hex_digits()[d as int]) == d) by {
            assert(0 <= d < 16);
            assert(hex_digits()[0] == '0' && hex_digits()[1] == '1' && hex_digits()[2] == '2');
            assert(hex_digits()[3] == '3' && hex_digits()[4] == '4' && hex_digits()[5] == '5');
            assert(hex_digits()[6] == '6' && hex_digits()[7] == '7' && hex_digits()[8] == '8');
            assert(hex_digits()[9] == '9' && hex_digits()[10] == 'a' && hex_digits()[11] == 'b');
            assert(hex_digits()[12] == 'c' && hex_digits()[13] == 'd' && hex_digits()[14] == 'e');
            assert(hex_digits()[15] == 'f');
        }
    }
}

/// Different numbers have different boundaries: a boundary determines the
/// random number it was made from.
pub proof fn lemma_boundary_injective(a: nat, b: nat)
    requires
        boundary_of(a) == boundary_of(b),
    ensures
        a == b,
{
    lemma_boundary_value(a);
    lemma_boundary_value(b);
}

/// Sixteen to the power `n`.
pub open spec fn pow16(n: nat) -> nat
    decreases n,
{
    if n == 0 {
        1
    } else {
        16 * pow16((n - 1) as nat)
    }
}

/// A number below sixteen to the power `n` has at most `n` digits.
proof fn lemma_boundary_len(random: nat, n: nat)
    requires
        random < pow16(n),
    ensures
        boundary_of(random).len() <= n,
    decreases n,
{
    if random > 0 {
        assert(n > 0);
        lemma_boundary_len(random / 16, (n - 1) as nat);
    }
}

/// Every character of a boundary is a base-16 digit.
proof fn lemma_boundary_digits(random: nat)
    ensures
        forall|k: int| 0 <= k < boundary_of(random).len() ==> hex_digits().contains(#[trigger] boundary_of(random)[k]),
    decreases random,
{
    if random > 0 {
        lemma_boundary_digits(random / 16);
        let s = boundary_of(random);
        let rest = boundary_of(random / 16);
        assert forall|k: int| 0 <= k < s.len() implies hex_digits().contains(#[trigger] s[k]) by {
            if k == 0 {
                assert(hex_digits()[(random % 16) as int] == s[0]);
            } else {
                assert(s[k] == rest[k - 1]);
            }
        }
    }
}

/// A boundary is made of at most 32 base-16 digits.
pub proof fn lemma_boundary_shape(random: u128)
    ensures
        boundary_of(random as nat).len() <= 32,
        forall|k: int| 0 <= k < boundary_of(random as nat).len() ==> hex_digits().contains(#[trigger] boundary_of(random as nat)[k]),
{
    reveal_with_fuel(pow16, 33);
    assert(pow16(32) == 0x1_0000_0000_0000_0000_0000_0000_0000_0000nat);
    lemma_boundary_len(random as nat, 32);
    lemma_boundary_digits(random as nat);
}

} // verus!
