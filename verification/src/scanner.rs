//! The alert scanner: the periodic sweep that promotes long-held inputs to
//! alerted state and renders their ongoing-silence notifications.

use vstd::prelude::*;

use crate::monitor::release_notifies;
use crate::names::NameTable;
use crate::notify::silence_body;
use crate::notify::silence_notification;
use crate::notify::silence_subject;
use crate::notify::Notification;
use crate::registry::due;
use crate::registry::pressed_entry;
use crate::registry::scanned_info;
use crate::registry::PressInfo;
use crate::registry::PressRegistry;

verus! {

/// The notification one scan emits for input `id` whose entry is `info`,
/// at scan time `now`.
pub open spec fn silence_note_view(
    names: NameTable,
    id: u8,
    info: PressInfo,
    now: u64,
) -> (Seq<char>, Seq<char>) {
    (
        silence_subject(names.label(id)),
        silence_body(names.label(id), (now - info.started) as u64, info.started),
    )
}

/// One scanner tick at time `now`: promotes every entry whose alert is due
/// and returns, for each, its identifier and the rendered ongoing-silence
/// notification. Entries below the threshold, and entries whose last alert
/// is younger than `alert_repeat`, are left untouched and produce nothing.
#[verifier::rlimit(50)]
pub fn scan_tick(
    reg: &mut PressRegistry,
    names: &NameTable,
    now: u64,
    threshold: u64,
    alert_repeat: u64,
) -> (out: Vec<(u8, Notification)>)
    requires
        old(reg).wf(),
        names.wf(),
    ensures
        final(reg).wf(),
        final(reg)@.dom() == old(reg)@.dom(),
        forall|id: u8|
            old(reg)@.contains_key(id) ==> final(reg)@[id] == scanned_info(
                #[trigger] old(reg)@[id],
                now,
                threshold,
                alert_repeat,
            ),
        forall|p: int, q: int| 0 <= p < q < out@.len() ==> out@[p].0 != out@[q].0,
        forall|p: int|
            0 <= p < out@.len() ==> old(reg)@.contains_key((#[trigger] out@[p]).0) && due(
                old(reg)@[out@[p].0],
                now,
                threshold,
                alert_repeat,
            ) && out@[p].1@ == silence_note_view(*names, out@[p].0, old(reg)@[out@[p].0], now),
        forall|id: u8|
            old(reg)@.contains_key(id) && due(
                #[trigger] old(reg)@[id],
                now,
                threshold,
                alert_repeat,
            ) ==> exists|p: int| 0 <= p < out@.len() && (#[trigger] out@[p]).0 == id,
{
    let alerted = reg.scan(now, threshold, alert_repeat);
    let mut out: Vec<(u8, Notification)> = Vec::new();
    let mut k: usize = 0;
    while k < alerted.len()
        invariant
            reg.wf(),
            names.wf(),
            reg@.dom() == old(reg)@.dom(),
            forall|id: u8|
                old(reg)@.contains_key(id) ==> reg@[id] == scanned_info(
                    #[trigger] old(reg)@[id],
                    now,
                    threshold,
                    alert_repeat,
                ),
            forall|p: int, q: int| 0 <= p < q < alerted@.len() ==> alerted@[p] != alerted@[q],
            forall|p: int|
                0 <= p < alerted@.len() ==> old(reg)@.contains_key(#[trigger] alerted@[p]) && due(
                    old(reg)@[alerted@[p]],
                    now,
                    threshold,
                    alert_repeat,
                ),
            k <= alerted@.len(),
            out@.len() == k,
            forall|p: int|
                0 <= p < k ==> (#[trigger] out@[p]).0 == alerted@[p] && out@[p].1@
                    == silence_note_view(*names, alerted@[p], old(reg)@[alerted@[p]], now),
        decreases alerted@.len() - k,
    {
        let id = alerted[k];
        let info = match reg.get(id) {
            Some(info) => info,
            None => {
                proof {
                    assert(old(reg)@.contains_key(id));
                    assert(reg@.dom().contains(id));
                }
                unreached()
            },
        };
        proof {
            assert(info == scanned_info(old(reg)@[id], now, threshold, alert_repeat));
            assert(info.started == old(reg)@[id].started);
            assert(due(old(reg)@[id], now, threshold, alert_repeat));
            assert(now >= info.started);
        }
        let elapsed = now - info.started;
        let name = names.name_of(id);
        let n = silence_notification(name, elapsed, info.started);
        out.push((id, n));
        k += 1;
    }
    proof {
        assert forall|id: u8| old(reg)@.contains_key(id) && due(
            #[trigger] old(reg)@[id],
            now,
            threshold,
            alert_repeat,
        ) implies exists|p: int| 0 <= p < out@.len() && (#[trigger] out@[p]).0 == id by {
            let j = choose|j: int| 0 <= j < alerted@.len() && alerted@[j] == id;
            assert(out@[j].0 == id);
        }
    }
    out
}

/// An entry after a whole sequence of scans, applied oldest first.
pub open spec fn scanned_many(
    info: PressInfo,
    ticks: Seq<u64>,
    threshold: u64,
    repeat: u64,
) -> PressInfo
    decreases ticks.len(),
{
    if ticks.len() == 0 {
        info
    } else {
        scanned_info(
            scanned_many(info, ticks.drop_last(), threshold, repeat),
            ticks.last(),
            threshold,
            repeat,
        )
    }
}

/// An episode pressed at `started` and scanned only before the threshold
/// passes is never promoted: its entry stays exactly the fresh entry, with
/// no alert recorded, so no scan emits an alert for it and its release owes
/// no resolution notice — the episode produces zero notifications however
/// many such scans run.
pub proof fn lemma_short_press_never_alerts(
    started: u64,
    ticks: Seq<u64>,
    threshold: u64,
    repeat: u64,
)
    requires
        forall|i: int| 0 <= i < ticks.len() ==> (#[trigger] ticks[i]) < started + threshold,
    ensures
        scanned_many(pressed_entry(started), ticks, threshold, repeat) == pressed_entry(started),
        !scanned_many(pressed_entry(started), ticks, threshold, repeat).alerted,
        forall|m: Map<u8, PressInfo>, id: u8, t: u64|
            !(#[trigger] release_notifies(
                m.insert(id, scanned_many(pressed_entry(started), ticks, threshold, repeat)),
                id,
                t,
            )),
    decreases ticks.len(),
{
    if ticks.len() > 0 {
        lemma_short_press_never_alerts(started, ticks.drop_last(), threshold, repeat);
        assert(!due(pressed_entry(started), ticks.last(), threshold, repeat));
    }
}

/// A freshly pressed entry is due exactly from the moment the threshold
/// has fully elapsed, and not a second before.
pub proof fn lemma_first_alert_at_threshold(started: u64, now: u64, threshold: u64, repeat: u64)
    ensures
        due(pressed_entry(started), now, threshold, repeat) <==> now >= started + threshold,
{
}

/// After an alert fires at `alert_time`, the entry is due again exactly
/// when the repeat interval has passed since that alert (the threshold,
/// already crossed, stays crossed).
pub proof fn lemma_alert_repeat_interval(
    info: PressInfo,
    alert_time: u64,
    now: u64,
    threshold: u64,
    repeat: u64,
)
    requires
        due(info, alert_time, threshold, repeat),
    ensures
        due(scanned_info(info, alert_time, threshold, repeat), now, threshold, repeat) <==> now
            >= alert_time + repeat,
{
}

} // verus!
