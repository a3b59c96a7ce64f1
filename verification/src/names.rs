//! Input identifiers and their human-readable labels: parsing configured pin
//! numbers and looking names up.

use vstd::prelude::*;

verus! {

/// Whether a character is a decimal digit.
pub open spec fn is_digit_char(c: char) -> bool {
    48 <= c as int <= 57
}

/// Whether every character of the text is a decimal digit.
pub open spec fn all_digits(s: Seq<char>) -> bool {
    forall|i: int| 0 <= i < s.len() ==> is_digit_char(#[trigger] s[i])
}

/// The value of a digit string read in base ten. Non-digit characters
/// contribute nothing; the value is only of interest when `all_digits`
/// holds.
pub open spec fn digits_val(s: Seq<char>) -> nat
    decreases s.len(),
{
    if s.len() == 0 {
        0
    } else {
        digits_val(s.drop_last()) * 10 + (if is_digit_char(s.last()) {
            (s.last() as int - 48) as nat
        } else {
            0
        })
    }
}

/// What parsing a pin number accepts: an optional leading plus sign, then
/// one or more decimal digits whose value fits in eight bits. Anything
/// else — an empty text, a stray character, a value past 255 — is rejected.
pub open spec fn spec_parse_u8(s: Seq<char>) -> Option<u8> {
    let t = if s.len() > 0 && s[0] == '+' {
        s.drop_first()
    } else {
        s
    };
    if t.len() > 0 && all_digits(t) && digits_val(t) <= 255 {
        Some(digits_val(t) as u8)
    } else {
        None
    }
}

/// A longer digit string is worth at least as much as any of its prefixes.
proof fn lemma_digits_val_monotone(t: Seq<char>, i: int)
    requires
        0 <= i <= t.len(),
    ensures
        digits_val(t) >= digits_val(t.take(i)),
    decreases t.len() - i,
{
    if i == t.len() {
        assert(t.take(i) =~= t);
    } else {
        assert(t.take(i + 1).drop_last() =~= t.take(i));
        assert(t.take(i + 1).last() == t[i]);
        assert(digits_val(t.take(i + 1)) >= digits_val(t.take(i)));
        lemma_digits_val_monotone(t, i + 1);
    }
}

/// Reads a decimal input identifier, exactly as `spec_parse_u8` describes.
pub fn parse_u8(s: &str) -> (r: Option<u8>)
    ensures
        r == spec_parse_u8(s@),
{
    let n = s.unicode_len();
    let start: usize = if n > 0 && s.get_char(0) == '+' {
        1
    } else {
        0
    };
    let ghost t = if start == 1 {
        s@.drop_first()
    } else {
        s@
    };
    proof {
        assert(t =~= s@.subrange(start as int, s@.len() as int));
    }
    if n == start {
        return None;
    }
    let mut acc: u32 = 0;
    let mut i: usize = start;
    while i < n
        invariant
            s@.len() == n,
            start <= i <= n,
            start <= 1,
            t == s@.subrange(start as int, s@.len() as int),
            t == (if s@.len() > 0 && s@[0] == '+' {
                s@.drop_first()
            } else {
                s@
            }),
            t.len() == n - start,
            all_digits(t.take(i - start)),
            acc == digits_val(t.take(i - start)),
            acc <= 255,
        decreases n - i,
    {
        let c = s.get_char(i);
        let cv = c as u32;
        proof {
            assert(t[i - start] == s@[i as int]);
        }
        if cv < 48 || cv > 57 {
            proof {
                assert(!is_digit_char(t[i - start]));
                assert(!all_digits(t));
            }
            return None;
        }
        let d = cv - 48;
        proof {
            assert(t.take(i - start + 1).drop_last() =~= t.take(i - start));
            assert(t.take(i - start + 1).last() == t[i - start]);
            assert(all_digits(t.take(i - start + 1)));
            assert(digits_val(t.take(i - start + 1)) == digits_val(t.take(i - start)) * 10 + (cv
                - 48));
        }
        acc = acc * 10 + d;
        if acc > 255 {
            proof {
                lemma_digits_val_monotone(t, i - start + 1);
                assert(digits_val(t) > 255);
            }
            return None;
        }
        i += 1;
    }
    proof {
        assert(t.take(i - start) =~= t);
    }
    Some(acc as u8)
}

spec fn names_distinct(s: Seq<(u8, String)>) -> bool {
    forall|i: int, j: int| 0 <= i < j < s.len() ==> (#[trigger] s[i]).0 != (#[trigger] s[j]).0
}

spec fn has_pin(s: Seq<(u8, String)>, id: u8) -> bool {
    exists|i: int| 0 <= i < s.len() && (#[trigger] s[i]).0 == id
}

/// The label table built from configured (name, pin text) pairs, taken in
/// order: a pair whose pin text parses becomes a mapping from that pin to
/// the name, a later pair overwriting an earlier one for the same pin; a
/// pair whose pin text does not parse is skipped.
pub open spec fn name_map_of(pairs: Seq<(String, String)>, n: int) -> Map<u8, Seq<char>>
    decreases n,
{
    if n <= 0 {
        Map::empty()
    } else {
        let m = name_map_of(pairs, n - 1);
        match spec_parse_u8(pairs[n - 1].1@) {
            Some(id) => m.insert(id, pairs[n - 1].0@),
            None => m,
        }
    }
}

/// Immutable mapping from input identifier to a human-readable label,
/// built once at startup.
pub struct NameTable {
    entries: Vec<(u8, String)>,
}

impl NameTable {
    /// Each identifier occurs at most once.
    pub closed spec fn wf(self) -> bool {
        names_distinct(self.entries@)
    }

    spec fn spec_has(self, id: u8) -> bool {
        has_pin(self.entries@, id)
    }

    spec fn spec_idx(self, id: u8) -> int {
        choose|i: int| 0 <= i < self.entries@.len() && (#[trigger] self.entries@[i]).0 == id
    }

    /// The table as a mapping from identifier to label text.
    pub closed spec fn view(self) -> Map<u8, Seq<char>> {
        Map::new(|id: u8| self.spec_has(id), |id: u8| self.entries@[self.spec_idx(id)].1@)
    }

    /// The label used for an identifier: its entry, or "unknown" for an
    /// identifier the table does not know.
    pub open spec fn label(self, id: u8) -> Seq<char> {
        if self@.contains_key(id) {
            self@[id]
        } else {
            "unknown"@
        }
    }

    proof fn lemma_entry_view(self)
        requires
            self.wf(),
        ensures
            forall|i: int|
                0 <= i < self.entries@.len() ==> self@.contains_key(
                    (#[trigger] self.entries@[i]).0,
                ) && self@[self.entries@[i].0] == self.entries@[i].1@,
            forall|id: u8| self@.contains_key(id) == has_pin(self.entries@, id),
    {
        assert forall|i: int| 0 <= i < self.entries@.len() implies self@.contains_key(
            (#[trigger] self.entries@[i]).0,
        ) && self@[self.entries@[i].0] == self.entries@[i].1@ by {
            let id = self.entries@[i].0;
            assert(has_pin(self.entries@, id));
            let j = self.spec_idx(id);
            assert(0 <= j < self.entries@.len() && self.entries@[j].0 == id);
            if i < j {
                assert(self.entries@[i].0 != self.entries@[j].0);
            } else if j < i {
                assert(self.entries@[j].0 != self.entries@[i].0);
            }
        }
    }

    /// An empty table.
    pub fn new() -> (t: NameTable)
        ensures
            t.wf(),
            t@ == Map::<u8, Seq<char>>::empty(),
    {
        let t = NameTable { entries: Vec::new() };
        proof {
            assert(t@ =~= Map::<u8, Seq<char>>::empty());
        }
        t
    }

    fn find(&self, id: u8) -> (r: Option<usize>)
        ensures
            match r {
                Some(i) => i < self.entries@.len() && self.entries@[i as int].0 == id,
                None => !has_pin(self.entries@, id),
            },
    {
        let mut k: usize = 0;
        while k < self.entries.len()
            invariant
                k <= self.entries@.len(),
                forall|i: int| 0 <= i < k ==> (#[trigger] self.entries@[i]).0 != id,
            decreases self.entries@.len() - k,
        {
            if self.entries[k].0 == id {
                return Some(k);
            }
            k += 1;
        }
        None
    }

    /// Adds or replaces the label for an identifier.
    #[verifier::rlimit(50)]
    pub fn insert(&mut self, id: u8, name: String)
        requires
            old(self).wf(),
        ensures
            final(self).wf(),
            final(self)@ == old(self)@.insert(id, name@),
    {
        proof {
            old(self).lemma_entry_view();
        }
        let ghost s0 = old(self).entries@;
        match self.find(id) {
            Some(i) => {
                self.entries[i] = (id, name);
                proof {
                    let t = final(self).entries@;
                    assert forall|p: int, q: int| 0 <= p < q < t.len() implies (
                    #[trigger] t[p]).0 != (#[trigger] t[q]).0 by {
                        assert(t[p].0 == s0[p].0 && t[q].0 == s0[q].0);
                        assert(s0[p].0 != s0[q].0);
                    }
                    assert(final(self).wf());
                    final(self).lemma_entry_view();
                    assert(t[i as int].0 == id);
                    assert(final(self)@.contains_key(id) && final(self)@[id] == name@);
                    assert forall|k: u8| k != id implies final(self)@.contains_key(k) == old(
                        self,
                    )@.contains_key(k) && (old(self)@.contains_key(k) ==> final(self)@[k] == old(
                        self,
                    )@[k]) by {
                        if old(self)@.contains_key(k) {
                            let p = choose|p: int|
                                0 <= p < s0.len() && (#[trigger] s0[p]).0 == k;
                            assert(p != i as int);
                            assert(t[p] == s0[p]);
                            assert(final(self)@.contains_key(k) && final(self)@[k] == old(
                                self,
                            )@[k]);
                        }
                        if final(self)@.contains_key(k) {
                            let q = choose|q: int|
                                0 <= q < t.len() && (#[trigger] t[q]).0 == k;
                            assert(q != i as int);
                            assert(s0[q] == t[q]);
                            assert(old(self)@.contains_key(k));
                        }
                    }
                    assert(final(self)@ =~= old(self)@.insert(id, name@));
                }
            },
            None => {
                self.entries.push((id, name));
                proof {
                    let t = final(self).entries@;
                    assert forall|p: int, q: int| 0 <= p < q < t.len() implies (
                    #[trigger] t[p]).0 != (#[trigger] t[q]).0 by {
                        if q < s0.len() {
                            assert(t[p] == s0[p] && t[q] == s0[q]);
                            assert(s0[p].0 != s0[q].0);
                        } else {
                            assert(t[q].0 == id);
                            assert(t[p] == s0[p]);
                            assert(!has_pin(s0, id));
                        }
                    }
                    assert(final(self).wf());
                    final(self).lemma_entry_view();
                    assert(t[s0.len() as int].0 == id && t[s0.len() as int].1@ == name@);
                    assert(final(self)@.contains_key(id) && final(self)@[id] == name@);
                    assert forall|k: u8| k != id implies final(self)@.contains_key(k) == old(
                        self,
                    )@.contains_key(k) && (old(self)@.contains_key(k) ==> final(self)@[k] == old(
                        self,
                    )@[k]) by {
                        if old(self)@.contains_key(k) {
                            let p = choose|p: int|
                                0 <= p < s0.len() && (#[trigger] s0[p]).0 == k;
                            assert(t[p] == s0[p]);
                            assert(final(self)@.contains_key(k) && final(self)@[k] == old(
                                self,
                            )@[k]);
                        }
                        if final(self)@.contains_key(k) {
                            let q = choose|q: int|
                                0 <= q < t.len() && (#[trigger] t[q]).0 == k;
                            assert(q != s0.len() as int);
                            assert(s0[q] == t[q]);
                            assert(old(self)@.contains_key(k));
                        }
                    }
                    assert(final(self)@ =~= old(self)@.insert(id, name@));
                }
            },
        }
    }

    /// The label for an identifier, "unknown" if the table has none.
    pub fn name_of(&self, id: u8) -> (r: &str)
        requires
            self.wf(),
        ensures
            r@ == self.label(id),
    {
        proof {
            self.lemma_entry_view();
        }
        match self.find(id) {
            Some(i) => self.entries[i].1.as_str(),
            None => "unknown",
        }
    }

    /// Builds the table from configured (name, pin text) pairs, in order:
    /// unparsable pin texts are skipped, so one bad input never stops the
    /// others from being monitored.
    pub fn build(pairs: &Vec<(String, String)>) -> (t: NameTable)
        ensures
            t.wf(),
            t@ == name_map_of(pairs@, pairs@.len() as int),
    {
        let mut t = NameTable::new();
        let mut j: usize = 0;
        while j < pairs.len()
            invariant
                t.wf(),
                j <= pairs@.len(),
                t@ == name_map_of(pairs@, j as int),
            decreases pairs@.len() - j,
        {
            let name = pairs[j].0.clone();
            match parse_u8(pairs[j].1.as_str()) {
                Some(id) => {
                    t.insert(id, name);
                },
                None => {},
            }
            j += 1;
        }
        t
    }
}

} // verus!
