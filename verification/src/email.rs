//! The parts of a digest email that the service decides: the login, the recipient, the
//! subject, the body text and the attachment name.
use vstd::prelude::*;
use crate::links::opt_view;
use crate::models::EmailConfig;
use crate::text::{push_str, string_of, trim, trimmed};

verus! {

/// The SMTP login: the configured user name, or the sender address when the user name
/// is blank.
pub open spec fn smtp_login(c: EmailConfig) -> Seq<char> {
    if trimmed(c.smtp_username@).len() == 0 {
        c.email_address@
    } else {
        c.smtp_username@
    }
}

/// The SMTP login of a configuration.
pub fn smtp_username(config: &EmailConfig) -> (r: String)
    ensures
        r@ == smtp_login(*config),
{
    let t = trim(config.smtp_username.as_str());
    if t.as_str().is_empty() {
        config.email_address.clone()
    } else {
        config.smtp_username.clone()
    }
}

/// The address a digest goes to: the schedule's override when it has one, else the
/// configured recipient.
pub fn recipient(config: &EmailConfig, override_to_email: &Option<String>) -> (r: String)
    ensures
        r@ == match opt_view(*override_to_email) {
            Some(o) => o,
            None => config.to_email@,
        },
{
    match override_to_email {
        Some(o) => o.clone(),
        None => config.to_email.clone(),
    }
}

/// Whether a digest is mailed automatically: only when a configuration exists and
/// enables it.
pub fn should_auto_send(config: &Option<EmailConfig>) -> (b: bool)
    ensures
        b == match *config {
            Some(c) => c.enable_auto_send,
            None => false,
        },
{
    match config {
        Some(c) => c.enable_auto_send,
        None => false,
    }
}

/// The subject of the email that carries digest `filename`.
pub fn email_subject(filename: &str) -> (r: String)
    ensures
        r@ == "RSS Digest: "@ + filename@,
{
    let mut out: Vec<char> = Vec::new();
    push_str(&mut out, "RSS Digest: ");
    push_str(&mut out, filename);
    string_of(&out)
}

/// The text part of a digest email.
pub fn email_body() -> (r: String)
    ensures
        r@ == "Here is your requested RSS Digest EPUB."@,
{
    "Here is your requested RSS Digest EPUB.".to_owned()
}

/// The user agent of a digest email, for program version `version`.
pub fn user_agent(version: &str) -> (r: String)
    ensures
        r@ == "RSSPub/"@ + version@,
{
    let mut out: Vec<char> = Vec::new();
    push_str(&mut out, "RSSPub/");
    push_str(&mut out, version);
    string_of(&out)
}

/// The name of the attachment: the file name of the digest, or `digest.epub` when the
/// path has none.
pub fn attachment_filename(file_name: Option<String>) -> (r: String)
    ensures
        r@ == match opt_view(file_name) {
            Some(n) => n,
            None => "digest.epub"@,
        },
{
    match file_name {
        Some(n) => n,
        None => "digest.epub".to_owned(),
    }
}

} // verus!
