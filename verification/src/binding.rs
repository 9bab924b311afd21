//! Trigger bindings: each timer owns one input trigger whose identifier is
//! derived from the timer's name, and one display-string entry per supported
//! locale.  A trigger activation restarts the timer of that name, and is a
//! silent no-op when no timer of that name exists any more.

use vstd::prelude::*;

use crate::registry::{spec_find, Registry};
use crate::text::str_eq;
use crate::timer::{spec_restart, Timer, TimerModel};

verus! {

/// The trigger identifier of a timer name: a fixed prefix, then the name.
pub open spec fn spec_keybind_id(name: Seq<char>) -> Seq<char> {
    "KB_TIMER_START_"@ + name
}

/// The timer name a trigger identifier stands for: the identifier with the
/// fixed prefix stripped, or the identifier itself where the prefix is
/// absent.
pub open spec fn spec_name_from_id(id: Seq<char>) -> Seq<char> {
    let p = "KB_TIMER_START_"@;
    if id.len() >= p.len() && id.subrange(0, p.len() as int) == p {
        id.subrange(p.len() as int, id.len() as int)
    } else {
        id
    }
}

/// Deriving an identifier from a name and reading the name back out are
/// inverse: the binding made for a timer resolves to that timer's name.
pub proof fn lemma_name_id_round_trip(name: Seq<char>)
    ensures
        spec_name_from_id(spec_keybind_id(name)) == name,
{
    let p = "KB_TIMER_START_"@;
    let id = spec_keybind_id(name);
    assert(id.subrange(0, p.len() as int) =~= p);
    assert(id.subrange(p.len() as int, id.len() as int) =~= name);
}

/// The trigger identifier for a timer name.
pub fn keybind_id(name: &str) -> (r: String)
    ensures
        r@ == spec_keybind_id(name@),
{
    let mut s = String::from_str("KB_TIMER_START_");
    s.append(name);
    s
}

/// The timer name a trigger identifier stands for.
pub fn name_from_id(id: &str) -> (r: String)
    ensures
        r@ == spec_name_from_id(id@),
{
    let prefix = "KB_TIMER_START_";
    let plen: usize = prefix.unicode_len();
    let ilen: usize = id.unicode_len();
    if ilen >= plen {
        let head = id.substring_char(0, plen);
        if str_eq(head, prefix) {
            let tail = id.substring_char(plen, ilen);
            return String::from_str(tail);
        }
    }
    String::from_str(id)
}

/// One display-string registration: for one locale, the trigger identifier
/// is labelled with the timer's own name.
pub struct LocalizationEntry {
    pub lang: String,
    pub key: String,
    pub label: String,
}

/// The supported locale codes.
pub open spec fn spec_langs() -> Seq<Seq<char>> {
    seq!["br"@, "cn"@, "cz"@, "de"@, "en"@, "es"@, "fr"@, "it"@, "pl"@, "ru"@]
}

/// The supported locale codes.
pub fn langs() -> (r: Vec<&'static str>)
    ensures
        r@.len() == spec_langs().len(),
        forall|i: int| 0 <= i < r@.len() ==> (#[trigger] r@[i])@ == spec_langs()[i],
{
    let mut v: Vec<&'static str> = Vec::new();
    v.push("br");
    v.push("cn");
    v.push("cz");
    v.push("de");
    v.push("en");
    v.push("es");
    v.push("fr");
    v.push("it");
    v.push("pl");
    v.push("ru");
    v
}

impl Timer {
    /// The identifier of this timer's trigger binding.
    pub fn keybind_id(&self) -> (r: String)
        ensures
            r@ == spec_keybind_id(self@.name),
    {
        keybind_id(self.name.as_str())
    }

    /// The display-string registration for this timer under one locale: the
    /// trigger identifier, labelled with the timer's name.  Registering it
    /// again overwrites it with the same value, which is harmless.
    pub fn localize(&self, lang: &str) -> (r: LocalizationEntry)
        ensures
            r.lang@ == lang@,
            r.key@ == spec_keybind_id(self@.name),
            r.label@ == self@.name,
    {
        LocalizationEntry {
            lang: String::from_str(lang),
            key: self.keybind_id(),
            label: self.name.clone(),
        }
    }

    /// The display-string registrations for this timer: one per supported
    /// locale, each labelling the trigger identifier with the timer's name.
    pub fn register_localization(&self) -> (r: Vec<LocalizationEntry>)
        ensures
            r@.len() == spec_langs().len(),
            forall|i: int|
                0 <= i < r@.len() ==> (#[trigger] r@[i]).lang@ == spec_langs()[i]
                    && r@[i].key@ == spec_keybind_id(self@.name) && r@[i].label@ == self@.name,
    {
        let ls = langs();
        let mut r: Vec<LocalizationEntry> = Vec::new();
        let mut i: usize = 0;
        while i < ls.len()
            invariant
                i <= ls.len(),
                ls@.len() == spec_langs().len(),
                forall|j: int| 0 <= j < ls@.len() ==> (#[trigger] ls@[j])@ == spec_langs()[j],
                r@.len() == i,
                forall|j: int|
                    0 <= j < i ==> (#[trigger] r@[j]).lang@ == spec_langs()[j] && r@[j].key@
                        == spec_keybind_id(self@.name) && r@[j].label@ == self@.name,
            decreases ls.len() - i,
        {
            let e = self.localize(ls[i]);
            r.push(e);
            i += 1;
        }
        r
    }
}

/// The registry after a trigger event: a release is ignored; an activation
/// restarts the first timer whose name the identifier stands for, from
/// instant `now`, and changes nothing when no timer bears that name.
pub open spec fn spec_handle_trigger(
    s: Seq<TimerModel>,
    id: Seq<char>,
    is_release: bool,
    now: u64,
) -> Seq<TimerModel> {
    if is_release {
        s
    } else {
        let name = spec_name_from_id(id);
        match spec_find(s, name) {
            Some(i) => s.update(i, spec_restart(s[i], now)),
            None => s,
        }
    }
}

/// Route a trigger event into the registry: on activation (not on release),
/// restart the timer the identifier names, if it still exists; otherwise
/// leave the registry alone.
pub fn handle_trigger(reg: &mut Registry, id: &str, is_release: bool, now: u64)
    ensures
        final(reg)@ =~= spec_handle_trigger(old(reg)@, id@, is_release, now),
        old(reg).wf() ==> final(reg).wf(),
{
    if is_release {
        return ;
    }
    let name = name_from_id(id);
    proof {
        crate::registry::lemma_find_characterization(reg@, name@);
    }
    match reg.find_by_name(name.as_str()) {
        Some(i) => reg.restart_at(i, now),
        None => {},
    }
}

/// Deleting a timer removes its binding's hold: after removing the timer at
/// a deleted position, a lookup of its name finds nothing, and a trigger
/// event for its identifier leaves the registry unchanged.
pub proof fn lemma_deletion_removes_binding(s: Seq<TimerModel>, idx: Seq<usize>, k: usize, now: u64)
    requires
        forall|i: int, j: int|
            0 <= i < j < s.len() ==> (#[trigger] s[i].name) != (#[trigger] s[j].name),
        k < s.len(),
        idx.contains(k),
    ensures
        spec_find(Registry::spec_remove(s, idx), s[k as int].name) is None,
        spec_handle_trigger(
            Registry::spec_remove(s, idx),
            spec_keybind_id(s[k as int].name),
            false,
            now,
        ) == Registry::spec_remove(s, idx),
{
    let name = s[k as int].name;
    let res = Registry::spec_remove(s, idx);
    crate::registry::lemma_remove_upto_props(s, idx, s.len() as int);
    assert forall|p: int| 0 <= p < res.len() implies (#[trigger] res[p]).name != name by {
        let j = choose|j: int|
            0 <= j < s.len() && !idx.contains(j as usize) && s[j] == res[p];
        if j == k {
            assert(idx.contains(k));
        } else if j < k {
            assert(s[j].name != s[k as int].name);
        } else {
            assert(s[k as int].name != s[j].name);
        }
    }
    crate::registry::lemma_find_characterization(res, name);
    lemma_name_id_round_trip(name);
}

} // verus!
