//! The press registry: which inputs are currently asserted, and the state of
//! each press episode.

use vstd::prelude::*;

verus! {

/// State of one press episode: when the input was first observed asserted,
/// when the latest ongoing-silence alert went out, and whether any alert has
/// gone out at all.
#[derive(Clone, Copy, Debug, PartialEq, Eq)]
pub struct PressInfo {
    pub started: u64,
    pub last_alert: Option<u64>,
    pub alerted: bool,
}

/// The entry a fresh press transition creates: episode started `now`, no
/// alert sent yet.
pub open spec fn pressed_entry(now: u64) -> PressInfo {
    PressInfo { started: now, last_alert: None, alerted: false }
}

/// Whether an ongoing-silence alert is due for this entry at time `now`:
/// the press has lasted at least `threshold` seconds, and either no alert
/// was sent yet or the last one is at least `repeat` seconds old. A clock
/// reading earlier than a recorded time never makes an alert due.
pub open spec fn due(info: PressInfo, now: u64, threshold: u64, repeat: u64) -> bool {
    &&& now >= info.started
    &&& now - info.started >= threshold
    &&& match info.last_alert {
        None => true,
        Some(last) => now >= last && now - last >= repeat,
    }
}

/// How one registry entry looks after a scan at time `now`: promoted to
/// alerted with `last_alert = now` when an alert is due, untouched otherwise.
pub open spec fn scanned_info(info: PressInfo, now: u64, threshold: u64, repeat: u64) -> PressInfo {
    if due(info, now, threshold, repeat) {
        PressInfo { started: info.started, last_alert: Some(now), alerted: true }
    } else {
        info
    }
}

spec fn keys_distinct(s: Seq<(u8, PressInfo)>) -> bool {
    forall|i: int, j: int| 0 <= i < j < s.len() ==> (#[trigger] s[i]).0 != (#[trigger] s[j]).0
}

spec fn has_key(s: Seq<(u8, PressInfo)>, id: u8) -> bool {
    exists|i: int| 0 <= i < s.len() && (#[trigger] s[i]).0 == id
}

/// Mapping from input identifier to its current press state. An entry exists
/// exactly while the input is believed asserted.
pub struct PressRegistry {
    entries: Vec<(u8, PressInfo)>,
}

impl PressRegistry {
    /// Each identifier occurs at most once.
    pub closed spec fn wf(self) -> bool {
        keys_distinct(self.entries@)
    }

    spec fn spec_pressed(self, id: u8) -> bool {
        has_key(self.entries@, id)
    }

    spec fn spec_idx(self, id: u8) -> int {
        choose|i: int| 0 <= i < self.entries@.len() && (#[trigger] self.entries@[i]).0 == id
    }

    /// The registry as a mapping from identifier to press state.
    pub closed spec fn view(self) -> Map<u8, PressInfo> {
        Map::new(|id: u8| self.spec_pressed(id), |id: u8| self.entries@[self.spec_idx(id)].1)
    }

    /// With distinct identifiers, each entry of the vector is the one the
    /// map holds for its identifier, and every mapping comes from an entry.
    proof fn lemma_entry_view(self)
        requires
            self.wf(),
        ensures
            forall|i: int|
                0 <= i < self.entries@.len() ==> self@.contains_key(
                    (#[trigger] self.entries@[i]).0,
                ) && self@[self.entries@[i].0] == self.entries@[i].1,
            forall|id: u8|
                self@.contains_key(id) ==> exists|i: int|
                    0 <= i < self.entries@.len() && (#[trigger] self.entries@[i]) == (
                    id,
                    self@[id],
                    ),
            forall|id: u8| self@.contains_key(id) == has_key(self.entries@, id),
    {
        assert forall|i: int| 0 <= i < self.entries@.len() implies self@.contains_key(
            (#[trigger] self.entries@[i]).0,
        ) && self@[self.entries@[i].0] == self.entries@[i].1 by {
            let id = self.entries@[i].0;
            assert(has_key(self.entries@, id));
            let j = self.spec_idx(id);
            assert(0 <= j < self.entries@.len() && self.entries@[j].0 == id);
            if i < j {
                assert(self.entries@[i].0 != self.entries@[j].0);
            } else if j < i {
                assert(self.entries@[j].0 != self.entries@[i].0);
            }
        }
        assert forall|id: u8| self@.contains_key(id) implies exists|i: int|
            0 <= i < self.entries@.len() && (#[trigger] self.entries@[i]) == (id, self@[id]) by {
            let j = self.spec_idx(id);
            assert(0 <= j < self.entries@.len() && self.entries@[j].0 == id);
            assert(self.entries@[j] == (id, self@[id]));
        }
    }

    /// An empty registry: no input is asserted.
    pub fn new() -> (r: PressRegistry)
        ensures
            r.wf(),
            r@ == Map::<u8, PressInfo>::empty(),
    {
        let r = PressRegistry { entries: Vec::new() };
        proof {
            assert(r@ =~= Map::<u8, PressInfo>::empty());
        }
        r
    }

    /// Finds the index holding `id`, if any.
    fn find(&self, id: u8) -> (r: Option<usize>)
        ensures
            match r {
                Some(i) => i < self.entries@.len() && self.entries@[i as int].0 == id,
                None => !has_key(self.entries@, id),
            },
    {
        let mut k: usize = 0;
        while k < self.entries.len()
            invariant
                k <= self.entries@.len(),
                forall|i: int| 0 <= i < k ==> (#[trigger] self.entries@[i]).0 != id,
            decreases self.entries@.len() - k,
        {
            if self.entries[k].0 == id {
                return Some(k);
            }
            k += 1;
        }
        None
    }

    /// Whether `id` is currently tracked, and with which state.
    pub fn get(&self, id: u8) -> (r: Option<PressInfo>)
        requires
            self.wf(),
        ensures
            r == if self@.contains_key(id) {
                Some(self@[id])
            } else {
                None::<PressInfo>
            },
    {
        proof {
            self.lemma_entry_view();
        }
        match self.find(id) {
            Some(i) => Some(self.entries[i].1),
            None => None,
        }
    }

    /// Records a press transition observed at time `now`: the entry for `id`
    /// is created afresh. A duplicate press for an already-tracked input
    /// overwrites the entry, resetting the episode — the choice documented
    /// for ambiguous duplicate edges.
    #[verifier::rlimit(50)]
    pub fn record_press(&mut self, id: u8, now: u64)
        requires
            old(self).wf(),
        ensures
            final(self).wf(),
            final(self)@ == old(self)@.insert(id, pressed_entry(now)),
    {
        proof {
            old(self).lemma_entry_view();
        }
        let ghost s0 = old(self).entries@;
        let fresh = PressInfo { started: now, last_alert: None, alerted: false };
        match self.find(id) {
            Some(i) => {
                self.entries[i] = (id, fresh);
                proof {
                    let t = final(self).entries@;
                    assert(t == s0.update(i as int, (id, pressed_entry(now))));
                    assert forall|p: int, q: int| 0 <= p < q < t.len() implies (
                    #[trigger] t[p]).0 != (#[trigger] t[q]).0 by {
                        assert(t[p] == if p == i as int {
                            (id, pressed_entry(now))
                        } else {
                            s0[p]
                        });
                        assert(t[q] == if q == i as int {
                            (id, pressed_entry(now))
                        } else {
                            s0[q]
                        });
                        assert(s0[p].0 != s0[q].0);
                        assert(s0[i as int].0 == id);
                    }
                    assert(final(self).wf());
                    final(self).lemma_entry_view();
                    assert(t[i as int] == (id, pressed_entry(now)));
                    assert(final(self)@.contains_key(id) && final(self)@[id] == pressed_entry(
                        now,
                    ));
                    assert forall|k: u8| k != id implies final(self)@.contains_key(k) == old(
                        self,
                    )@.contains_key(k) && (old(self)@.contains_key(k) ==> final(self)@[k] == old(
                        self,
                    )@[k]) by {
                        if old(self)@.contains_key(k) {
                            let p = choose|p: int|
                                0 <= p < s0.len() && (#[trigger] s0[p]) == (k, old(self)@[k]);
                            assert(p != i as int);
                            assert(t[p] == s0[p]);
                            assert(final(self)@.contains_key(k) && final(self)@[k] == old(
                                self,
                            )@[k]);
                        }
                        if final(self)@.contains_key(k) {
                            let q = choose|q: int|
                                0 <= q < t.len() && (#[trigger] t[q]) == (k, final(self)@[k]);
                            assert(q != i as int);
                            assert(s0[q] == t[q]);
                            assert(old(self)@.contains_key(k));
                        }
                    }
                    assert(final(self)@ =~= old(self)@.insert(id, pressed_entry(now)));
                }
            },
            None => {
                self.entries.push((id, fresh));
                proof {
                    let t = final(self).entries@;
                    assert(t == s0.push((id, pressed_entry(now))));
                    assert forall|p: int, q: int| 0 <= p < q < t.len() implies (
                    #[trigger] t[p]).0 != (#[trigger] t[q]).0 by {
                        if q < s0.len() {
                            assert(t[p] == s0[p] && t[q] == s0[q]);
                            assert(s0[p].0 != s0[q].0);
                        } else {
                            assert(t[q] == (id, pressed_entry(now)));
                            assert(t[p] == s0[p]);
                            assert(!has_key(s0, id));
                        }
                    }
                    assert(final(self).wf());
                    final(self).lemma_entry_view();
                    assert(t[s0.len() as int] == (id, pressed_entry(now)));
                    assert(final(self)@.contains_key(id) && final(self)@[id] == pressed_entry(
                        now,
                    ));
                    assert forall|k: u8| k != id implies final(self)@.contains_key(k) == old(
                        self,
                    )@.contains_key(k) && (old(self)@.contains_key(k) ==> final(self)@[k] == old(
                        self,
                    )@[k]) by {
                        if old(self)@.contains_key(k) {
                            let p = choose|p: int|
                                0 <= p < s0.len() && (#[trigger] s0[p]) == (k, old(self)@[k]);
                            assert(t[p] == s0[p]);
                            assert(final(self)@.contains_key(k) && final(self)@[k] == old(
                                self,
                            )@[k]);
                        }
                        if final(self)@.contains_key(k) {
                            let q = choose|q: int|
                                0 <= q < t.len() && (#[trigger] t[q]) == (k, final(self)@[k]);
                            assert(q != s0.len() as int);
                            assert(s0[q] == t[q]);
                            assert(old(self)@.contains_key(k));
                        }
                    }
                    assert(final(self)@ =~= old(self)@.insert(id, pressed_entry(now)));
                }
            },
        }
    }

    /// Removes and returns the entry for `id`, if the input was tracked:
    /// the release transition that ends an episode.
    #[verifier::rlimit(50)]
    pub fn record_release(&mut self, id: u8) -> (r: Option<PressInfo>)
        requires
            old(self).wf(),
        ensures
            final(self).wf(),
            final(self)@ == old(self)@.remove(id),
            r == if old(self)@.contains_key(id) {
                Some(old(self)@[id])
            } else {
                None::<PressInfo>
            },
    {
        proof {
            old(self).lemma_entry_view();
        }
        let ghost s0 = old(self).entries@;
        match self.find(id) {
            Some(i) => {
                let info = self.entries[i].1;
                self.entries.remove(i);
                proof {
                    let gi = i as int;
                    let t = final(self).entries@;
                    assert(t == s0.remove(gi));
                    assert(t.len() == s0.len() - 1);
                    assert forall|q: int| 0 <= q < t.len() implies #[trigger] t[q] == s0[if q < gi {
                        q
                    } else {
                        q + 1
                    }] by {
                        if q < gi {
                            assert(s0.remove(gi)[q] == s0[q]);
                        } else {
                            assert(s0.remove(gi)[q] == s0[q + 1]);
                        }
                    }
                    assert forall|p: int, q: int| 0 <= p < q < t.len() implies (
                    #[trigger] t[p]).0 != (#[trigger] t[q]).0 by {
                        let p0 = if p < gi {
                            p
                        } else {
                            p + 1
                        };
                        let q0 = if q < gi {
                            q
                        } else {
                            q + 1
                        };
                        assert(t[p] == s0[p0] && t[q] == s0[q0]);
                        assert(s0[p0].0 != s0[q0].0);
                    }
                    assert(final(self).wf());
                    final(self).lemma_entry_view();
                    assert(!final(self)@.contains_key(id)) by {
                        if final(self)@.contains_key(id) {
                            let q = choose|q: int|
                                0 <= q < t.len() && (#[trigger] t[q]) == (id, final(self)@[id]);
                            let q0 = if q < gi {
                                q
                            } else {
                                q + 1
                            };
                            assert(t[q] == s0[q0]);
                            assert(q0 != gi);
                            assert(s0[q0].0 != s0[gi].0);
                        }
                    }
                    assert forall|k: u8| k != id implies final(self)@.contains_key(k) == old(
                        self,
                    )@.contains_key(k) && (old(self)@.contains_key(k) ==> final(self)@[k] == old(
                        self,
                    )@[k]) by {
                        if old(self)@.contains_key(k) {
                            let p = choose|p: int|
                                0 <= p < s0.len() && (#[trigger] s0[p]) == (k, old(self)@[k]);
                            assert(p != gi);
                            let q = if p < gi {
                                p
                            } else {
                                p - 1
                            };
                            assert(t[q] == s0[p]);
                            assert(final(self)@.contains_key(k) && final(self)@[k] == old(
                                self,
                            )@[k]);
                        }
                        if final(self)@.contains_key(k) {
                            let q = choose|q: int|
                                0 <= q < t.len() && (#[trigger] t[q]) == (k, final(self)@[k]);
                            let q0 = if q < gi {
                                q
                            } else {
                                q + 1
                            };
                            assert(t[q] == s0[q0]);
                            assert(old(self)@.contains_key(k));
                        }
                    }
                    assert(final(self)@ =~= old(self)@.remove(id));
                    assert(old(self)@[id] == info);
                }
                Some(info)
            },
            None => {
                proof {
                    assert(!old(self)@.contains_key(id));
                    assert(final(self)@ =~= old(self)@.remove(id));
                }
                None
            },
        }
    }

    /// One scanner sweep at time `now`: every entry whose alert is due is
    /// promoted (`last_alert = now`, `alerted = true`) and its identifier
    /// reported; every other entry is left untouched. No entry is created
    /// or removed.
    #[verifier::rlimit(50)]
    pub fn scan(&mut self, now: u64, threshold: u64, repeat: u64) -> (alerted: Vec<u8>)
        requires
            old(self).wf(),
        ensures
            final(self).wf(),
            final(self)@.dom() == old(self)@.dom(),
            forall|id: u8|
                old(self)@.contains_key(id) ==> final(self)@[id] == scanned_info(
                    #[trigger] old(self)@[id],
                    now,
                    threshold,
                    repeat,
                ),
            forall|p: int, q: int| 0 <= p < q < alerted@.len() ==> alerted@[p] != alerted@[q],
            forall|p: int|
                0 <= p < alerted@.len() ==> old(self)@.contains_key(#[trigger] alerted@[p]) && due(
                    old(self)@[alerted@[p]],
                    now,
                    threshold,
                    repeat,
                ),
            forall|id: u8|
                old(self)@.contains_key(id) && due(
                    #[trigger] old(self)@[id],
                    now,
                    threshold,
                    repeat,
                ) ==> alerted@.contains(id),
    {
        proof {
            old(self).lemma_entry_view();
        }
        broadcast use vstd::seq_lib::lemma_seq_contains_after_push;

        let ghost s0 = old(self).entries@;
        let mut alerted: Vec<u8> = Vec::new();
        let ghost mut src: Seq<int> = Seq::empty();
        let mut k: usize = 0;
        let n = self.entries.len();
        while k < n
            invariant
                n == s0.len(),
                self.entries@.len() == n,
                k <= n,
                keys_distinct(s0),
                forall|j: int| 0 <= j < n ==> (#[trigger] self.entries@[j]).0 == s0[j].0,
                forall|j: int| k <= j < n ==> (#[trigger] self.entries@[j]) == s0[j],
                forall|j: int|
                    0 <= j < k ==> (#[trigger] self.entries@[j]).1 == scanned_info(
                        s0[j].1,
                        now,
                        threshold,
                        repeat,
                    ),
                src.len() == alerted@.len(),
                forall|p: int| #![trigger src[p]]
                    0 <= p < src.len() ==> 0 <= src[p] < k && s0[src[p]].0 == alerted@[p] && due(
                        s0[src[p]].1,
                        now,
                        threshold,
                        repeat,
                    ),
                forall|p: int, q: int| 0 <= p < q < src.len() ==> src[p] < src[q],
                forall|j: int|
                    0 <= j < k && due((#[trigger] s0[j]).1, now, threshold, repeat)
                        ==> alerted@.contains(s0[j].0),
            decreases n - k,
        {
            let (id, info) = self.entries[k];
            let is_due: bool = if now >= info.started && now - info.started >= threshold {
                match info.last_alert {
                    None => true,
                    Some(last) => now >= last && now - last >= repeat,
                }
            } else {
                false
            };
            proof {
                assert(is_due == due(info, now, threshold, repeat));
                assert(s0[k as int] == (id, info));
            }
            if is_due {
                let ghost alerted0 = alerted@;
                self.entries[k] = (
                    id,
                    PressInfo { started: info.started, last_alert: Some(now), alerted: true },
                );
                alerted.push(id);
                proof {
                    src = src.push(k as int);
                    assert forall|j: int|
                        0 <= j < k + 1 && due(
                            (#[trigger] s0[j]).1,
                            now,
                            threshold,
                            repeat,
                        ) implies alerted@.contains(s0[j].0) by {
                        if j < k as int {
                            let w = choose|w: int|
                                0 <= w < alerted0.len() && alerted0[w] == s0[j].0;
                            assert(alerted@[w] == s0[j].0);
                        } else {
                            assert(alerted@[alerted0.len() as int] == s0[j].0);
                        }
                    }
                }
            }
            k += 1;
        }
        proof {
            let t = final(self).entries@;
            assert forall|p: int, q: int| 0 <= p < q < t.len() implies (#[trigger] t[p]).0 != (
            #[trigger] t[q]).0 by {
                assert(t[p].0 == s0[p].0 && t[q].0 == s0[q].0);
                assert(s0[p].0 != s0[q].0);
            }
            assert(final(self).wf());
            final(self).lemma_entry_view();
            assert forall|id: u8| old(self)@.contains_key(id) implies final(self)@.contains_key(id)
                && final(self)@[id] == scanned_info(
                #[trigger] old(self)@[id],
                now,
                threshold,
                repeat,
            ) by {
                let p = choose|p: int|
                    0 <= p < s0.len() && (#[trigger] s0[p]) == (id, old(self)@[id]);
                assert(t[p].0 == s0[p].0);
                assert(t[p].1 == scanned_info(s0[p].1, now, threshold, repeat));
            }
            assert forall|id: u8| final(self)@.contains_key(id) implies old(self)@.contains_key(
                id,
            ) by {
                let q = choose|q: int|
                    0 <= q < t.len() && (#[trigger] t[q]) == (id, final(self)@[id]);
                assert(s0[q].0 == id);
                assert(old(self)@.contains_key(s0[q].0));
            }
            assert(final(self)@.dom() =~= old(self)@.dom());
            assert forall|p: int, q: int| 0 <= p < q < alerted@.len() implies alerted@[p]
                != alerted@[q] by {
                assert(s0[src[p]].0 == alerted@[p]);
                assert(s0[src[q]].0 == alerted@[q]);
                assert(s0[src[p]].0 != s0[src[q]].0);
            }
            assert forall|p: int| 0 <= p < alerted@.len() implies old(self)@.contains_key(
                #[trigger] alerted@[p],
            ) && due(old(self)@[alerted@[p]], now, threshold, repeat) by {
                assert(s0[src[p]].0 == alerted@[p] && due(s0[src[p]].1, now, threshold, repeat));
                assert(old(self)@.contains_key(s0[src[p]].0) && old(self)@[s0[src[p]].0]
                    == s0[src[p]].1);
            }
            assert forall|id: u8| old(self)@.contains_key(id) && due(
                #[trigger] old(self)@[id],
                now,
                threshold,
                repeat,
            ) implies alerted@.contains(id) by {
                let p = choose|p: int|
                    0 <= p < s0.len() && (#[trigger] s0[p]) == (id, old(self)@[id]);
                assert(due(s0[p].1, now, threshold, repeat));
                assert(alerted@.contains(s0[p].0));
            }
        }
        alerted
    }
}

/// A press transition creates exactly the entry for its input, and the
/// matching release removes exactly that entry again: an entry exists
/// precisely while the input is asserted.
pub proof fn lemma_entry_tracks_press(m: Map<u8, PressInfo>, id: u8, now: u64)
    ensures
        m.insert(id, pressed_entry(now)).contains_key(id),
        m.insert(id, pressed_entry(now))[id] == pressed_entry(now),
        !m.insert(id, pressed_entry(now)).remove(id).contains_key(id),
{
}

/// Concurrently tracked inputs are independent: pressing or releasing one
/// input never creates, mutates or removes another input's entry.
pub proof fn lemma_inputs_independent(m: Map<u8, PressInfo>, id: u8, other: u8, now: u64)
    requires
        other != id,
    ensures
        m.remove(id).contains_key(other) == m.contains_key(other),
        m.contains_key(other) ==> m.remove(id)[other] == m[other],
        m.insert(id, pressed_entry(now)).contains_key(other) == m.contains_key(other),
        m.contains_key(other) ==> m.insert(id, pressed_entry(now))[other] == m[other],
{
}

} // verus!
