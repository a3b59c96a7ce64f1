//! Configuration values: the alert timing, the mail account, and the
//! configured inputs. Parsed outside the library and handed in as plain
//! values, immutable from then on.

use vstd::prelude::*;

verus! {

/// The whole configuration: alert timing, mail transport settings, and the
/// configured (name, pin text) pairs.
#[derive(Clone, Debug)]
pub struct Config {
    /// Minimum continuous silence, in seconds, before the first alert.
    pub threshold: u64,
    /// Spacing between repeated alerts, in minutes.
    pub alert_repeat: u64,
    pub smtp_server: String,
    pub port: u16,
    pub tls: bool,
    pub username: String,
    pub password: String,
    pub fromname: String,
    pub recipient: String,
    /// The configured inputs: a human-readable name and the pin number as
    /// text, to be parsed per input.
    pub pins: Vec<(String, String)>,
}

/// What the mail transport needs to send a notification.
#[derive(Clone, Debug)]
pub struct MailConfig {
    pub smtp_server: String,
    pub port: u16,
    pub tls: bool,
    pub username: String,
    pub password: String,
    pub recipient: String,
    pub fromname: String,
}

impl Config {
    /// The transport's slice of the configuration, copied field for field.
    pub fn mail_config(&self) -> (m: MailConfig)
        ensures
            m.smtp_server == self.smtp_server,
            m.port == self.port,
            m.tls == self.tls,
            m.username == self.username,
            m.password == self.password,
            m.recipient == self.recipient,
            m.fromname == self.fromname,
    {
        MailConfig {
            smtp_server: self.smtp_server.clone(),
            port: self.port,
            tls: self.tls,
            username: self.username.clone(),
            password: self.password.clone(),
            recipient: self.recipient.clone(),
            fromname: self.fromname.clone(),
        }
    }

    /// The repeat interval in seconds: the configuration gives minutes.
    pub fn alert_repeat_secs(&self) -> (r: u64)
        requires
            self.alert_repeat <= u64::MAX / 60,
        ensures
            r == self.alert_repeat * 60,
    {
        self.alert_repeat * 60
    }
}

} // verus!
