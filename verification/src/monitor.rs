//! The pin monitor: turns debounced hardware edge events into registry
//! transitions and, on release of an alerted input, a resolution notice.

use vstd::prelude::*;

use crate::names::NameTable;
use crate::notify::resolution_body;
use crate::notify::resolution_notification;
use crate::notify::resolution_subject;
use crate::notify::Notification;
use crate::registry::pressed_entry;
use crate::registry::PressInfo;
use crate::registry::PressRegistry;

verus! {

/// The two transitions a debounced input can report.
#[derive(Clone, Copy, Debug, PartialEq, Eq)]
pub enum EdgeKind {
    /// A falling edge: the input became asserted.
    Asserted,
    /// A rising edge: the input was released.
    Released,
}

/// One hardware edge event: which input, which transition, and when it was
/// delivered (seconds).
#[derive(Clone, Copy, Debug, PartialEq, Eq)]
pub struct EdgeEvent {
    pub kind: EdgeKind,
    pub id: u8,
    pub time: u64,
}

/// Whether releasing `id` at time `t` owes a resolution notice: the input
/// was tracked, its episode had already produced at least one alert, and
/// the clock did not run backwards past the episode start.
pub open spec fn release_notifies(m: Map<u8, PressInfo>, id: u8, t: u64) -> bool {
    m.contains_key(id) && t >= m[id].started && m[id].alerted
}

/// Handles one edge event.
///
/// A falling edge records the press and never notifies — silence has not
/// crossed the threshold yet. A rising edge removes the entry; exactly when
/// the episode had produced at least one alert, it returns one resolution
/// notice carrying the total held duration and the caller's rendered
/// release timestamp. A release with zero alerts, or of an untracked input,
/// produces nothing.
pub fn handle_edge(
    reg: &mut PressRegistry,
    names: &NameTable,
    ev: &EdgeEvent,
    stamp: &str,
) -> (out: Option<Notification>)
    requires
        old(reg).wf(),
        names.wf(),
    ensures
        final(reg).wf(),
        ev.kind is Asserted ==> final(reg)@ == old(reg)@.insert(ev.id, pressed_entry(ev.time))
            && out is None,
        ev.kind is Released ==> final(reg)@ == old(reg)@.remove(ev.id),
        ev.kind is Released ==> (out is Some <==> release_notifies(old(reg)@, ev.id, ev.time)),
        ev.kind is Released && release_notifies(old(reg)@, ev.id, ev.time) ==> out->0@ == (
            resolution_subject(names.label(ev.id)),
            resolution_body(
                names.label(ev.id),
                (ev.time - old(reg)@[ev.id].started) as u64,
                stamp@,
            ),
        ),
{
    match ev.kind {
        EdgeKind::Asserted => {
            reg.record_press(ev.id, ev.time);
            None
        },
        EdgeKind::Released => {
            match reg.record_release(ev.id) {
                Some(info) => {
                    if ev.time >= info.started && info.alerted {
                        let held = ev.time - info.started;
                        let name = names.name_of(ev.id);
                        Some(resolution_notification(name, held, stamp))
                    } else {
                        None
                    }
                },
                None => None,
            }
        },
    }
}

} // verus!
