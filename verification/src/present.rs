//! The two per-frame views into the registry: the display pass, which reads
//! the remaining time of every running timer, and the editing pass's
//! transient add-row state.

use vstd::prelude::*;

use crate::registry::{spec_find, Registry};
use crate::text::{chars_to_string, digit_char, digit_char_exec, push_dec, spec_dec};
use crate::timer::{spec_remaining, Dur, TimerModel};

verus! {

/// A span as display text: whole seconds, a dot, then hundredths of a
/// second, truncated.
pub open spec fn spec_dur_text(d: Dur) -> Seq<char> {
    let centis = d.nanos as int / 10_000_000;
    spec_dec(d.secs as nat) + seq!['.', digit_char(centis / 10), digit_char(centis % 10)]
}

impl Dur {
    /// This span as display text, to hundredths of a second.
    pub fn display_text(&self) -> (r: String)
        requires
            self.wf(),
        ensures
            r@ == spec_dur_text(*self),
    {
        let mut v: Vec<char> = Vec::new();
        push_dec(&mut v, self.secs);
        v.push('.');
        let centis: u32 = self.nanos / 10_000_000;
        v.push(digit_char_exec((centis / 10) as u64));
        v.push(digit_char_exec((centis % 10) as u64));
        proof {
            assert(v@ =~= spec_dur_text(*self));
        }
        chars_to_string(&v)
    }
}

/// One line of the display pass: a running timer's name and its remaining
/// time, both as a span and as ready display text.
pub struct DisplayRow {
    pub name: String,
    pub remaining: Dur,
    pub text: String,
}

/// The display lines owed from position `k` on: one per running timer, in
/// registry order, each with its remaining nanoseconds at instant `now`.
pub open spec fn spec_display_from(s: Seq<TimerModel>, now: u64, k: int) -> Seq<(Seq<char>, int)>
    decreases s.len() - k,
{
    if k < 0 || k >= s.len() {
        Seq::empty()
    } else {
        let rest = spec_display_from(s, now, k + 1);
        match s[k].started {
            Some(t) => seq![(s[k].name, spec_remaining(s[k].duration, now - t))] + rest,
            None => rest,
        }
    }
}

/// Every timer is well-formed enough to display: its duration keeps its
/// nanosecond remainder below one second, and where it runs, it started at
/// or before `now`.
pub open spec fn displayable(s: Seq<TimerModel>, now: u64) -> bool {
    forall|i: int|
        0 <= i < s.len() ==> (#[trigger] s[i]).duration.wf() && (s[i].started is Some
            ==> s[i].started->Some_0 <= now)
}

/// The rows of the display pass from position `k` on.
fn display_rows_from(reg: &Registry, now: u64, k: usize) -> (r: Vec<DisplayRow>)
    requires
        k <= reg@.len(),
        displayable(reg@, now),
    ensures
        ({
            let m = spec_display_from(reg@, now, k as int);
            r@.len() == m.len() && forall|i: int|
                0 <= i < m.len() ==> (#[trigger] r@[i]).name@ == m[i].0
                    && r@[i].remaining.total_nanos() == m[i].1 && r@[i].remaining.wf()
                    && r@[i].text@ == spec_dur_text(r@[i].remaining)
        }),
    decreases reg@.len() - k,
{
    if k >= reg.timers.len() {
        Vec::new()
    } else {
        let rest = display_rows_from(reg, now, k + 1);
        let t = &reg.timers[k];
        proof {
            assert(t@ == reg@[k as int]);
        }
        match t.started {
            Some(_) => {
                let remaining = t.elapsed_remaining(now);
                let row = DisplayRow {
                    name: t.name.clone(),
                    remaining,
                    text: remaining.display_text(),
                };
                let mut r = rest;
                r.insert(0, row);
                r
            },
            None => rest,
        }
    }
}

/// The display pass: one row per running timer, in registry order, with the
/// remaining time at instant `now` (clamped at zero once expired).
pub fn display_rows(reg: &Registry, now: u64) -> (r: Vec<DisplayRow>)
    requires
        displayable(reg@, now),
    ensures
        ({
            let m = spec_display_from(reg@, now, 0);
            r@.len() == m.len() && forall|i: int|
                0 <= i < m.len() ==> (#[trigger] r@[i]).name@ == m[i].0
                    && r@[i].remaining.total_nanos() == m[i].1 && r@[i].remaining.wf()
                    && r@[i].text@ == spec_dur_text(r@[i].remaining)
        }),
{
    display_rows_from(reg, now, 0)
}

/// The editing pass's transient add-row state: a name and a whole-second
/// duration that are no part of the registry until submitted.
pub struct EditSession {
    pub new_name: String,
    pub new_secs: i32,
}

impl EditSession {
    /// A fresh add-row: empty name, zero seconds.
    pub fn new() -> (r: EditSession)
        ensures
            r.new_name@ == Seq::<char>::empty(),
            r.new_secs == 0,
    {
        EditSession { new_name: String::new(), new_secs: 0 }
    }

    /// Submit the add-row: append a new, not-running timer under the
    /// entered name and duration, and reset the inputs.  Rejected, with the
    /// registry and the inputs untouched, when the name is empty or taken,
    /// or the duration entry is negative.
    pub fn submit(&mut self, reg: &mut Registry) -> (r: bool)
        ensures
            r == (old(self).new_secs >= 0 && old(self).new_name@.len() > 0 && spec_find(
                old(reg)@,
                old(self).new_name@,
            ) is None),
            r ==> final(reg)@ =~= old(reg)@.push(
                TimerModel {
                    name: old(self).new_name@,
                    duration: Dur { secs: old(self).new_secs as u64, nanos: 0 },
                    started: None,
                },
            ) && final(self).new_name@ == Seq::<char>::empty() && final(self).new_secs == 0,
            !r ==> final(reg)@ =~= old(reg)@ && *final(self) == *old(self),
            old(reg).wf() ==> final(reg).wf(),
    {
        if self.new_secs < 0 {
            return false;
        }
        let created = reg.create(self.new_name.clone(), Dur::from_secs(self.new_secs as u64));
        if created {
            self.new_name = String::new();
            self.new_secs = 0;
        }
        created
    }
}

} // verus!
