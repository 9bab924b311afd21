//! The timer registry: the ordered collection of all timers, the single
//! place where timers are created, looked up, edited, and deleted.

use vstd::prelude::*;

use crate::text::str_eq;
use crate::timer::{Dur, Timer, TimerModel};

verus! {

/// A persisted timer definition: name and duration, without the transient
/// running state.
pub ghost struct RecordModel {
    pub name: Seq<char>,
    pub duration: Dur,
}

/// A timer definition as it is persisted: the name and the duration.  The
/// running state is transient and has no place here.
#[derive(Clone, Debug)]
pub struct TimerRecord {
    pub name: String,
    pub duration: Dur,
}

impl View for TimerRecord {
    type V = RecordModel;

    open spec fn view(&self) -> RecordModel {
        RecordModel { name: self.name@, duration: self.duration }
    }
}

/// A timer's persisted definition: its name and duration, with the running
/// state dropped.
pub open spec fn spec_strip(t: TimerModel) -> RecordModel {
    RecordModel { name: t.name, duration: t.duration }
}

/// The timer a persisted definition describes: not running.
pub open spec fn spec_revive(r: RecordModel) -> TimerModel {
    TimerModel { name: r.name, duration: r.duration, started: None }
}

/// The position of the first timer named `name`, if any: lookups are by
/// exact name equality, first match wins.
pub open spec fn spec_find(s: Seq<TimerModel>, name: Seq<char>) -> Option<int>
    decreases s.len(),
{
    if s.len() == 0 {
        None
    } else if s[0].name == name {
        Some(0)
    } else {
        match spec_find(s.drop_first(), name) {
            Some(i) => Some(i + 1),
            None => None,
        }
    }
}

/// What `spec_find` returns: `None` exactly when no timer bears the name,
/// and otherwise the position of the first timer that does.
pub proof fn lemma_find_characterization(s: Seq<TimerModel>, name: Seq<char>)
    ensures
        match spec_find(s, name) {
            None => forall|j: int| 0 <= j < s.len() ==> (#[trigger] s[j].name) != name,
            Some(i) => 0 <= i < s.len() && s[i].name == name && forall|j: int|
                0 <= j < i ==> (#[trigger] s[j].name) != name,
        },
    decreases s.len(),
{
    if s.len() == 0 {
    } else if s[0].name == name {
    } else {
        let d = s.drop_first();
        lemma_find_characterization(d, name);
        assert(forall|j: int| 0 <= j < d.len() ==> (#[trigger] d[j]) == s[j + 1]);
        match spec_find(d, name) {
            None => {
                assert forall|j: int| 0 <= j < s.len() implies (#[trigger] s[j].name) != name by {
                    if j >= 1 {
                        assert(d[j - 1] == s[j]);
                    }
                }
            },
            Some(i) => {
                assert(d[i] == s[i + 1]);
                assert forall|j: int| 0 <= j < i + 1 implies (#[trigger] s[j].name) != name by {
                    if j >= 1 {
                        assert(d[j - 1] == s[j]);
                    }
                }
            },
        }
    }
}

/// The first position whose timer bears the name is what `spec_find`
/// returns.
pub proof fn lemma_find_first(s: Seq<TimerModel>, name: Seq<char>, i: int)
    requires
        0 <= i < s.len(),
        s[i].name == name,
        forall|j: int| 0 <= j < i ==> (#[trigger] s[j].name) != name,
    ensures
        spec_find(s, name) == Some(i),
    decreases s.len(),
{
    if i == 0 {
    } else {
        assert(forall|j: int| 0 <= j < s.drop_first().len() ==> (#[trigger] s.drop_first()[j])
            == s[j + 1]);
        lemma_find_first(s.drop_first(), name, i - 1);
    }
}

/// Whether `v` holds the value `x`.
pub fn contains_usize(v: &Vec<usize>, x: usize) -> (r: bool)
    ensures
        r == v@.contains(x),
{
    let mut i: usize = 0;
    while i < v.len()
        invariant
            i <= v.len(),
            forall|j: int| 0 <= j < i ==> v@[j] != x,
        decreases v.len() - i,
    {
        if v[i] == x {
            return true;
        }
        i += 1;
    }
    false
}

/// Every timer kept by a removal stems from a non-removed position of the
/// original sequence; and if the original names were pairwise distinct, so
/// are the kept ones.
pub proof fn lemma_remove_upto_props(s: Seq<TimerModel>, idx: Seq<usize>, k: int)
    requires
        0 <= k <= s.len(),
    ensures
        forall|p: int|
            0 <= p < Registry::spec_remove_upto(s, idx, k).len() ==> exists|j: int|
                0 <= j < k && !idx.contains(j as usize) && s[j] == #[trigger] Registry::spec_remove_upto(
                    s,
                    idx,
                    k,
                )[p],
        (forall|i: int, j: int| 0 <= i < j < s.len() ==> s[i].name != s[j].name) ==> (forall|
            p: int,
            q: int,
        |
            0 <= p < q < Registry::spec_remove_upto(s, idx, k).len()
                ==> Registry::spec_remove_upto(s, idx, k)[p].name != Registry::spec_remove_upto(
                s,
                idx,
                k,
            )[q].name),
    decreases k,
{
    if k > 0 {
        lemma_remove_upto_props(s, idx, k - 1);
        let prev = Registry::spec_remove_upto(s, idx, k - 1);
        let cur = Registry::spec_remove_upto(s, idx, k);
        if idx.contains((k - 1) as usize) {
            assert(cur =~= prev);
        } else {
            assert(cur =~= prev.push(s[k - 1]));
            assert forall|p: int| 0 <= p < cur.len() implies exists|j: int|
                0 <= j < k && !idx.contains(j as usize) && s[j] == #[trigger] cur[p] by {
                if p < prev.len() {
                    assert(cur[p] == prev[p]);
                    let j = choose|j: int|
                        0 <= j < k - 1 && !idx.contains(j as usize) && s[j] == prev[p];
                    assert(0 <= j < k && !idx.contains(j as usize) && s[j] == cur[p]);
                } else {
                    assert(cur[p] == s[k - 1]);
                    assert(0 <= k - 1 < k && !idx.contains((k - 1) as usize) && s[k - 1] == cur[p]);
                }
            }
            if forall|i: int, j: int| 0 <= i < j < s.len() ==> s[i].name != s[j].name {
                assert forall|p: int, q: int| 0 <= p < q < cur.len() implies cur[p].name
                    != cur[q].name by {
                    if q < prev.len() {
                        assert(prev[p].name != prev[q].name);
                    } else {
                        let j = choose|j: int|
                            0 <= j < k - 1 && !idx.contains(j as usize) && s[j] == prev[p];
                        assert(s[j].name != s[k - 1].name);
                    }
                }
            }
        }
    }
}

/// With pairwise distinct names, lookup by the name of the timer at any
/// position returns exactly that position: one match per name, in insertion
/// order.
pub proof fn lemma_find_insertion_order(s: Seq<TimerModel>)
    requires
        forall|i: int, j: int|
            0 <= i < j < s.len() ==> (#[trigger] s[i].name) != (#[trigger] s[j].name),
    ensures
        forall|i: int| 0 <= i < s.len() ==> spec_find(s, (#[trigger] s[i]).name) == Some(i),
{
    assert forall|i: int| 0 <= i < s.len() implies spec_find(s, (#[trigger] s[i]).name) == Some(
        i,
    ) by {
        lemma_find_first(s, s[i].name, i);
    }
}

impl Timer {
    /// The position of the first timer named `name` in `timers`, if any.
    pub fn find_by_name(timers: &Vec<Timer>, name: &str) -> (r: Option<usize>)
        ensures
            match r {
                Some(i) => spec_find(Registry::models(timers@), name@) == Some(i as int),
                None => spec_find(Registry::models(timers@), name@) is None,
            },
    {
        let ghost s = Registry::models(timers@);
        let mut i: usize = 0;
        while i < timers.len()
            invariant
                i <= timers.len(),
                s == Registry::models(timers@),
                s.len() == timers@.len(),
                forall|j: int| 0 <= j < i ==> (#[trigger] s[j].name) != name@,
            decreases timers.len() - i,
        {
            if str_eq(timers[i].name.as_str(), name) {
                proof {
                    lemma_find_first(s, name@, i as int);
                }
                return Some(i);
            }
            i += 1;
        }
        proof {
            lemma_find_characterization(s, name@);
        }
        None
    }
}

/// The ordered collection of all timers.  Insertion order is significant: it
/// fixes both the display order and the editing-table order.
pub struct Registry {
    pub timers: Vec<Timer>,
}

impl View for Registry {
    type V = Seq<TimerModel>;

    open spec fn view(&self) -> Seq<TimerModel> {
        Registry::models(self.timers@)
    }
}

impl Registry {
    /// The mathematical values of a sequence of timers.
    pub open spec fn models(ts: Seq<Timer>) -> Seq<TimerModel> {
        ts.map_values(|t: Timer| t@)
    }

    /// Names are unique and every duration is well-formed.  The editing
    /// operations preserve this; a persisted file is taken as it comes, so a
    /// registry loaded from one may lack it (lookups then fall back to
    /// first match wins).
    pub open spec fn wf(self) -> bool {
        &&& forall|i: int, j: int|
            0 <= i < j < self@.len() ==> (#[trigger] self@[i].name) != (#[trigger] self@[j].name)
        &&& forall|i: int| 0 <= i < self@.len() ==> (#[trigger] self@[i].duration).wf()
    }

    /// An empty registry.
    pub fn new() -> (r: Registry)
        ensures
            r@ =~= Seq::<TimerModel>::empty(),
            r.wf(),
    {
        Registry { timers: Vec::new() }
    }

    /// The position of the first timer named `name`, if any.
    pub fn find_by_name(&self, name: &str) -> (r: Option<usize>)
        ensures
            match r {
                Some(i) => spec_find(self@, name@) == Some(i as int),
                None => spec_find(self@, name@) is None,
            },
    {
        Timer::find_by_name(&self.timers, name)
    }

    /// Create a timer: append it, not running, provided the name is
    /// non-empty and not yet taken.  A duplicate or empty name is rejected
    /// and leaves the registry unchanged.
    pub fn create(&mut self, name: String, duration: Dur) -> (r: bool)
        requires
            duration.wf(),
        ensures
            r == (name@.len() > 0 && spec_find(old(self)@, name@) is None),
            r ==> final(self)@ =~= old(self)@.push(
                TimerModel { name: name@, duration, started: None },
            ),
            !r ==> final(self)@ =~= old(self)@,
            old(self).wf() ==> final(self).wf(),
    {
        if name.as_str().unicode_len() == 0 {
            return false;
        }
        let dup = Timer::find_by_name(&self.timers, name.as_str());
        if dup.is_some() {
            return false;
        }
        proof {
            lemma_find_characterization(self@, name@);
        }
        let ghost pre = self@;
        self.timers.push(Timer::new(name, duration));
        proof {
            assert(final(self)@ =~= pre.push(final(self)@.last()));
        }
        true
    }

    /// Overwrite the duration of the timer at position `i` with a whole
    /// second count, provided the timer is not running and the edit is not
    /// negative.  An edit to a running timer is rejected, as is a negative
    /// one: the prior duration stays.
    pub fn edit_duration(&mut self, i: usize, secs: i32) -> (r: bool)
        requires
            i < old(self)@.len(),
        ensures
            r == (old(self)@[i as int].started is None && secs >= 0),
            r ==> final(self)@ =~= old(self)@.update(
                i as int,
                TimerModel { duration: Dur { secs: secs as u64, nanos: 0 }, ..old(self)@[i as int] },
            ),
            !r ==> final(self)@ =~= old(self)@,
            old(self).wf() ==> final(self).wf(),
    {
        if self.timers[i].started.is_none() && secs >= 0 {
            let t = &mut self.timers[i];
            t.duration = Dur::from_secs(secs as u64);
            proof {
                assert(final(self)@ =~= old(self)@.update(
                    i as int,
                    TimerModel {
                        duration: Dur { secs: secs as u64, nanos: 0 },
                        ..old(self)@[i as int]
                    },
                ));
            }
            true
        } else {
            proof {
                assert(final(self)@ =~= old(self)@);
            }
            false
        }
    }

    /// The timers of `s` at the positions below `k` that `idx` does not
    /// name, in their original order.
    pub open spec fn spec_remove_upto(s: Seq<TimerModel>, idx: Seq<usize>, k: int) -> Seq<
        TimerModel,
    >
        decreases k,
    {
        if k <= 0 {
            Seq::empty()
        } else if idx.contains((k - 1) as usize) {
            Self::spec_remove_upto(s, idx, k - 1)
        } else {
            Self::spec_remove_upto(s, idx, k - 1).push(s[k - 1])
        }
    }

    /// The timers of `s` whose positions `idx` does not name, in their
    /// original order.
    pub open spec fn spec_remove(s: Seq<TimerModel>, idx: Seq<usize>) -> Seq<TimerModel> {
        Self::spec_remove_upto(s, idx, s.len() as int)
    }

    /// Drop the timers at the given positions; the rest keep their relative
    /// order.  Deleting a timer must be paired, at the call site, with
    /// unregistering its trigger binding.
    pub fn remove(&mut self, indices: &Vec<usize>)
        ensures
            final(self)@ =~= Registry::spec_remove(old(self)@, indices@),
            old(self).wf() ==> final(self).wf(),
    {
        let ghost s0 = self@;
        let mut source: Vec<Timer> = Vec::new();
        core::mem::swap(&mut source, &mut self.timers);
        let ghost ts0 = source@;
        let n: usize = source.len();
        let mut kept: Vec<Timer> = Vec::new();
        let mut i: usize = 0;
        while i < n
            invariant
                i <= n,
                n == ts0.len(),
                s0 == Registry::models(ts0),
                source@ =~= ts0.subrange(i as int, n as int),
                Registry::models(kept@) =~= Registry::spec_remove_upto(s0, indices@, i as int),
            decreases n - i,
        {
            let ghost kept0 = kept@;
            let t = source.remove(0);
            proof {
                assert(t == ts0[i as int]);
                assert(source@ =~= ts0.subrange(i + 1, n as int));
            }
            if !contains_usize(indices, i) {
                kept.push(t);
                proof {
                    assert(Registry::models(kept@) =~= Registry::models(kept0).push(t@));
                    assert(t@ == s0[i as int]);
                }
            }
            i += 1;
        }
        self.timers = kept;
        proof {
            lemma_remove_upto_props(s0, indices@, s0.len() as int);
            if old(self).wf() {
                assert forall|p: int|
                    0 <= p < self@.len() implies (#[trigger] self@[p].duration).wf() by {
                    let j = choose|j: int|
                        0 <= j < s0.len() && !indices@.contains(j as usize) && s0[j] == self@[p];
                    assert(s0[j].duration.wf());
                }
            }
        }
    }

    /// The full ordered sequence of persisted definitions: every timer's
    /// name and duration, with the transient running state omitted.
    pub fn snapshot_for_persistence(&self) -> (r: Vec<TimerRecord>)
        ensures
            r@.len() == self@.len(),
            forall|i: int| 0 <= i < r@.len() ==> (#[trigger] r@[i]@) == spec_strip(self@[i]),
    {
        let mut r: Vec<TimerRecord> = Vec::new();
        let mut i: usize = 0;
        while i < self.timers.len()
            invariant
                i <= self.timers.len(),
                r@.len() == i,
                forall|j: int| 0 <= j < i ==> (#[trigger] r@[j]@) == spec_strip(self@[j]),
            decreases self.timers.len() - i,
        {
            let t = &self.timers[i];
            r.push(TimerRecord { name: t.name.clone(), duration: t.duration });
            i += 1;
        }
        r
    }

    /// The registry a sequence of persisted definitions describes: the same
    /// timers in the same order, none of them running.
    pub fn from_records(records: Vec<TimerRecord>) -> (r: Registry)
        ensures
            r@.len() == records@.len(),
            forall|i: int| 0 <= i < r@.len() ==> (#[trigger] r@[i]) == spec_revive(records@[i]@),
    {
        let mut timers: Vec<Timer> = Vec::new();
        let mut i: usize = 0;
        let n: usize = records.len();
        let ghost recs0 = records@;
        let mut rest = records;
        while i < n
            invariant
                i <= n,
                n == recs0.len(),
                rest@ =~= recs0.subrange(i as int, n as int),
                Registry::models(timers@).len() == i,
                forall|j: int|
                    0 <= j < i ==> (#[trigger] Registry::models(timers@)[j]) == spec_revive(
                        recs0[j]@,
                    ),
            decreases n - i,
        {
            let ghost timers0 = timers@;
            let rec = rest.remove(0);
            proof {
                assert(rec == recs0[i as int]);
                assert(rest@ =~= recs0.subrange(i + 1, n as int));
            }
            timers.push(Timer::new(rec.name, rec.duration));
            proof {
                assert(Registry::models(timers@) =~= Registry::models(timers0).push(
                    timers@.last()@,
                ));
            }
            i += 1;
        }
        Registry { timers }
    }

    /// Restart the timer at position `i` from instant `now`.
    pub fn restart_at(&mut self, i: usize, now: u64)
        requires
            i < old(self)@.len(),
        ensures
            final(self)@ =~= old(self)@.update(
                i as int,
                crate::timer::spec_restart(old(self)@[i as int], now),
            ),
            old(self).wf() ==> final(self).wf(),
    {
        let t = &mut self.timers[i];
        t.restart(now);
        proof {
            assert(final(self)@ =~= old(self)@.update(
                i as int,
                crate::timer::spec_restart(old(self)@[i as int], now),
            ));
        }
    }
}

} // verus!
