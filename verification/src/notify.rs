//! Notifications: the (subject, body) pairs handed to the mail transport,
//! and the exact text each event produces.

use vstd::prelude::*;

use crate::text::dec_seq;
use crate::text::duration_text;
use crate::text::format_duration;
use crate::text::push_dec;

verus! {

/// An opaque (subject, body) pair, produced by the pin monitor or the alert
/// scanner and consumed by the dispatcher.
#[derive(Clone, Debug)]
pub struct Notification {
    pub subject: String,
    pub body: String,
}

impl View for Notification {
    type V = (Seq<char>, Seq<char>);

    open spec fn view(&self) -> (Seq<char>, Seq<char>) {
        (self.subject@, self.body@)
    }
}

/// Subject of an ongoing-silence alert.
pub open spec fn silence_subject(name: Seq<char>) -> Seq<char> {
    name + " SILENCE"@
}

/// Body of an ongoing-silence alert: how long the input has been silent,
/// and when (in seconds) the episode began.
pub open spec fn silence_body(name: Seq<char>, elapsed: u64, started: u64) -> Seq<char> {
    name + " SILENCE for "@ + duration_text(elapsed) + "\nSILENCE BEGINS:\t"@ + dec_seq(
        started as nat,
    )
}

/// Subject of a resolution notice.
pub open spec fn resolution_subject(name: Seq<char>) -> Seq<char> {
    name + " ENDED SILENCE"@
}

/// Body of a resolution notice: the total held duration and the caller's
/// rendered release timestamp.
pub open spec fn resolution_body(name: Seq<char>, held: u64, stamp: Seq<char>) -> Seq<char> {
    name + " ended silence. Silent for "@ + duration_text(held) + " - ended at "@ + stamp
}

/// Builds the ongoing-silence alert for an input that has been silent for
/// `elapsed` seconds since `started`.
pub fn silence_notification(name: &str, elapsed: u64, started: u64) -> (n: Notification)
    ensures
        n@ == (silence_subject(name@), silence_body(name@, elapsed, started)),
{
    let mut subject = String::new();
    subject.append(name);
    subject.append(" SILENCE");
    let mut body = String::new();
    body.append(name);
    body.append(" SILENCE for ");
    let d = format_duration(elapsed);
    body.append(d.as_str());
    body.append("\nSILENCE BEGINS:\t");
    push_dec(&mut body, started);
    proof {
        assert(subject@ =~= silence_subject(name@));
        assert(body@ =~= silence_body(name@, elapsed, started));
    }
    Notification { subject, body }
}

/// Builds the resolution notice for an input released after `held` seconds
/// of silence, stamped with the caller's rendered release time.
pub fn resolution_notification(name: &str, held: u64, stamp: &str) -> (n: Notification)
    ensures
        n@ == (resolution_subject(name@), resolution_body(name@, held, stamp@)),
{
    let mut subject = String::new();
    subject.append(name);
    subject.append(" ENDED SILENCE");
    let mut body = String::new();
    body.append(name);
    body.append(" ended silence. Silent for ");
    let d = format_duration(held);
    body.append(d.as_str());
    body.append(" - ended at ");
    body.append(stamp);
    proof {
        assert(subject@ =~= resolution_subject(name@));
        assert(body@ =~= resolution_body(name@, held, stamp@));
    }
    Notification { subject, body }
}

} // verus!
