//! The listener hub: every background change source of the bar, seen as
//! state. Each subscription owns one wake slot; sources set slots, the
//! module that owns a slot takes it. A slot is a single flag, so a burst of
//! signals before it is taken collapses into one pending wake.
use vstd::prelude::*;
use vstd::arithmetic::div_mod::{lemma_fundamental_div_mod, lemma_fundamental_div_mod_converse};

verus! {

/// What makes a module re-probe.
pub enum Trigger {
    WorkspaceChanged,
    TimePassed(u64),
    FileChange(String),
    VolumeChanged,
}

/// One periodic countdown: `interval` is the time left, `original_interval`
/// the period it is reset to after firing.
#[derive(Clone, Copy, PartialEq, Eq, Structural, Debug)]
pub struct TimeListenerData {
    pub slot: usize,
    pub interval: u64,
    pub original_interval: u64,
}

/// A module waiting on changes of the file `name`.
pub struct FileWatch {
    pub name: String,
    pub slot: usize,
}

/// Which background workers a hub needs once its subscriptions are made.
#[derive(Clone, Copy, PartialEq, Eq, Structural, Debug)]
pub struct Workers {
    pub timers: bool,
    pub files: bool,
    pub workspace: bool,
    pub volume: bool,
}

pub struct Listeners {
    pub pending: Vec<bool>,
    pub timers: Vec<TimeListenerData>,
    pub files: Vec<FileWatch>,
    pub dirs: Vec<String>,
    pub workspace_available: bool,
    pub workspace_subs: Vec<usize>,
    pub volume_subs: Vec<usize>,
    pub started: bool,
}

/// The wake slots after `slot` is signalled.
pub open spec fn signalled(p: Seq<bool>, slot: int) -> Seq<bool> {
    p.update(slot, true)
}

/// The wake slots after `n` signals on `slot`.
pub open spec fn signalled_times(p: Seq<bool>, slot: int, n: nat) -> Seq<bool>
    decreases n,
{
    if n == 0 {
        p
    } else {
        signalled(signalled_times(p, slot, (n - 1) as nat), slot)
    }
}

/// The wake slots after `slot` is taken.
pub open spec fn taken(p: Seq<bool>, slot: int) -> Seq<bool> {
    p.update(slot, false)
}

pub open spec fn file_names(f: Seq<FileWatch>) -> Seq<Seq<char>> {
    f.map_values(|w: FileWatch| w.name@)
}

pub open spec fn dir_names(d: Seq<String>) -> Seq<Seq<char>> {
    d.map_values(|s: String| s@)
}

/// The smallest time left over all countdowns.
pub open spec fn is_min_interval(t: Seq<TimeListenerData>, m: u64) -> bool {
    &&& exists|i: int| 0 <= i < t.len() && #[trigger] t[i].interval == m
    &&& forall|i: int| 0 <= i < t.len() ==> m <= #[trigger] t[i].interval
}

/// A countdown after `elapsed` time: reset to its period if it ran out,
/// otherwise shortened by `elapsed`.
pub open spec fn advanced(e: TimeListenerData, elapsed: u64) -> TimeListenerData {
    if e.interval <= elapsed {
        TimeListenerData { interval: e.original_interval, ..e }
    } else {
        TimeListenerData { interval: (e.interval - elapsed) as u64, ..e }
    }
}

/// Whether some countdown of `t` that owns `slot` runs out within `elapsed`.
pub open spec fn timer_fires(t: Seq<TimeListenerData>, slot: int, elapsed: u64) -> bool {
    exists|i: int| 0 <= i < t.len() && #[trigger] t[i].slot == slot && t[i].interval <= elapsed
}

/// Whether `subs` holds `slot`.
pub open spec fn lists_slot(subs: Seq<usize>, slot: int) -> bool {
    exists|j: int| 0 <= j < subs.len() && #[trigger] subs[j] as int == slot
}

/// Whether some watch of `f` for the file `name` owns `slot`.
pub open spec fn watches_file(f: Seq<FileWatch>, slot: int, name: Seq<char>) -> bool {
    exists|i: int| 0 <= i < f.len() && #[trigger] f[i].slot == slot && f[i].name@ == name
}

impl Listeners {
    /// Every subscription points at a wake slot; workspace subscribers
    /// exist only with a workspace source; each directory is watched once.
    pub open spec fn wf(&self) -> bool {
        &&& forall|i: int| 0 <= i < self.timers@.len() ==> #[trigger] self.timers@[i].slot < self.pending@.len()
        &&& forall|i: int| 0 <= i < self.files@.len() ==> #[trigger] self.files@[i].slot < self.pending@.len()
        &&& forall|i: int| 0 <= i < self.workspace_subs@.len() ==> #[trigger] self.workspace_subs@[i] < self.pending@.len()
        &&& forall|i: int| 0 <= i < self.volume_subs@.len() ==> #[trigger] self.volume_subs@[i] < self.pending@.len()
        &&& self.workspace_subs@.len() > 0 ==> self.workspace_available
        &&& dir_names(self.dirs@).no_duplicates()
    }

    /// Everything but the wake slots and the countdowns is as in `o`.
    pub open spec fn same_sources(&self, o: &Listeners) -> bool {
        &&& self.files@ == o.files@
        &&& self.dirs@ == o.dirs@
        &&& self.workspace_available == o.workspace_available
        &&& self.workspace_subs@ == o.workspace_subs@
        &&& self.volume_subs@ == o.volume_subs@
        &&& self.started == o.started
    }

    /// An empty hub. `workspace_available` says whether a supported
    /// compositor was found to listen to.
    pub fn new(workspace_available: bool) -> (r: Listeners)
        ensures
            r.wf(),
            r.pending@.len() == 0,
            r.timers@.len() == 0,
            r.files@.len() == 0,
            r.dirs@.len() == 0,
            r.workspace_subs@.len() == 0,
            r.volume_subs@.len() == 0,
            r.workspace_available == workspace_available,
            !r.started,
    {
        let r = Listeners {
            pending: Vec::new(),
            timers: Vec::new(),
            files: Vec::new(),
            dirs: Vec::new(),
            workspace_available,
            workspace_subs: Vec::new(),
            volume_subs: Vec::new(),
            started: false,
        };
        assert(dir_names(r.dirs@) =~= Seq::<Seq<char>>::empty());
        r
    }

    fn new_slot(&mut self) -> (s: usize)
        requires
            old(self).wf(),
            old(self).pending@.len() < usize::MAX,
        ensures
            final(self).wf(),
            s == old(self).pending@.len(),
            final(self).pending@ == old(self).pending@.push(false),
            final(self).timers@ == old(self).timers@,
            final(self).same_sources(old(self)),
    {
        let s = self.pending.len();
        self.pending.push(false);
        s
    }

    /// Registers a countdown of `interval` milliseconds; returns its wake slot.
    pub fn new_time_listener(&mut self, interval: u64) -> (s: usize)
        requires
            old(self).wf(),
            old(self).pending@.len() < usize::MAX,
        ensures
            final(self).wf(),
            s == old(self).pending@.len(),
            final(self).pending@ == old(self).pending@.push(false),
            final(self).timers@ == old(self).timers@.push(
                TimeListenerData { slot: s, interval, original_interval: interval },
            ),
            final(self).same_sources(old(self)),
    {
        let s = self.new_slot();
        self.timers.push(TimeListenerData { slot: s, interval, original_interval: interval });
        s
    }

    /// Registers interest in changes of the file `name` in directory `dir`;
    /// returns its wake slot and whether `dir` needs a new watch (files of
    /// one directory share one watch).
    pub fn new_file_listener(&mut self, dir: &String, name: &String) -> (r: (usize, bool))
        requires
            old(self).wf(),
            old(self).pending@.len() < usize::MAX,
        ensures
            final(self).wf(),
            r.0 == old(self).pending@.len(),
            final(self).pending@ == old(self).pending@.push(false),
            final(self).timers@ == old(self).timers@,
            file_names(final(self).files@) == file_names(old(self).files@).push(name@),
            forall|i: int|
                0 <= i < old(self).files@.len() ==> #[trigger] final(self).files@[i].slot
                    == old(self).files@[i].slot,
            final(self).files@.last().slot == r.0,
            final(self).files@.len() == old(self).files@.len() + 1,
            r.1 == !dir_names(old(self).dirs@).contains(dir@),
            dir_names(final(self).dirs@) == if r.1 {
                dir_names(old(self).dirs@).push(dir@)
            } else {
                dir_names(old(self).dirs@)
            },
            final(self).workspace_available == old(self).workspace_available,
            final(self).workspace_subs@ == old(self).workspace_subs@,
            final(self).volume_subs@ == old(self).volume_subs@,
            final(self).started == old(self).started,
    {
        let s = self.new_slot();
        let ghost f0 = self.files@;
        self.files.push(FileWatch { name: name.clone(), slot: s });
        assert(file_names(self.files@) =~= file_names(f0).push(name@));
        let mut i: usize = 0;
        let mut found = false;
        while i < self.dirs.len()
            invariant
                i <= self.dirs@.len(),
                found == exists|j: int| 0 <= j < i && #[trigger] self.dirs@[j]@ == dir@,
            decreases self.dirs@.len() - i,
        {
            if self.dirs[i].eq(dir) {
                found = true;
            }
            i += 1;
        }
        let ghost d0 = dir_names(self.dirs@);
        assert(found == d0.contains(dir@)) by {
            if found {
                let j = choose|j: int| 0 <= j < i && #[trigger] self.dirs@[j]@ == dir@;
                assert(d0[j] == dir@);
            }
            if d0.contains(dir@) {
                let j = choose|j: int| 0 <= j < d0.len() && d0[j] == dir@;
                assert(self.dirs@[j]@ == dir@);
            }
        }
        if !found {
            self.dirs.push(dir.clone());
            assert(dir_names(self.dirs@) =~= d0.push(dir@));
        }
        (s, !found)
    }

    /// Subscribes to workspace changes; `None` when no supported compositor
    /// is there to listen to, and the module is then left out.
    pub fn new_workspace_listener(&mut self) -> (r: Option<usize>)
        requires
            old(self).wf(),
            old(self).pending@.len() < usize::MAX,
        ensures
            final(self).wf(),
            old(self).workspace_available ==> r == Some(old(self).pending@.len() as usize)
                && final(self).pending@ == old(self).pending@.push(false)
                && final(self).workspace_subs@ == old(self).workspace_subs@.push(r->0),
            !old(self).workspace_available ==> r is None && *final(self) == *old(self),
            final(self).timers@ == old(self).timers@,
            final(self).files@ == old(self).files@,
            final(self).dirs@ == old(self).dirs@,
            final(self).volume_subs@ == old(self).volume_subs@,
            final(self).workspace_available == old(self).workspace_available,
            final(self).started == old(self).started,
    {
        if !self.workspace_available {
            return None;
        }
        let s = self.new_slot();
        self.workspace_subs.push(s);
        Some(s)
    }

    /// Subscribes to volume changes.
    pub fn new_volume_change_listener(&mut self) -> (s: usize)
        requires
            old(self).wf(),
            old(self).pending@.len() < usize::MAX,
        ensures
            final(self).wf(),
            s == old(self).pending@.len(),
            final(self).pending@ == old(self).pending@.push(false),
            final(self).volume_subs@ == old(self).volume_subs@.push(s),
            final(self).timers@ == old(self).timers@,
            final(self).files@ == old(self).files@,
            final(self).dirs@ == old(self).dirs@,
            final(self).workspace_subs@ == old(self).workspace_subs@,
            final(self).workspace_available == old(self).workspace_available,
            final(self).started == old(self).started,
    {
        let s = self.new_slot();
        self.volume_subs.push(s);
        s
    }

    /// Signals `slot`; a slot already pending stays pending once.
    pub fn signal(&mut self, slot: usize)
        requires
            slot < old(self).pending@.len(),
        ensures
            old(self).wf() ==> final(self).wf(),
            final(self).pending@ == signalled(old(self).pending@, slot as int),
            final(self).timers@ == old(self).timers@,
            final(self).same_sources(old(self)),
    {
        self.pending.set(slot, true);
    }

    /// Takes the pending wake of `slot`: true iff it was signalled since it
    /// was last taken.
    pub fn take(&mut self, slot: usize) -> (r: bool)
        requires
            slot < old(self).pending@.len(),
        ensures
            old(self).wf() ==> final(self).wf(),
            r == old(self).pending@[slot as int],
            final(self).pending@ == taken(old(self).pending@, slot as int),
            final(self).timers@ == old(self).timers@,
            final(self).same_sources(old(self)),
    {
        let r = self.pending[slot];
        self.pending.set(slot, false);
        r
    }

    /// The time until the next countdown runs out; `None` without countdowns.
    pub fn next_deadline(&self) -> (r: Option<u64>)
        ensures
            self.timers@.len() == 0 <==> r is None,
            r matches Some(m) ==> is_min_interval(self.timers@, m),
    {
        if self.timers.len() == 0 {
            return None;
        }
        let mut m: u64 = self.timers[0].interval;
        let mut i: usize = 1;
        while i < self.timers.len()
            invariant
                1 <= i <= self.timers@.len(),
                exists|j: int| 0 <= j < i && #[trigger] self.timers@[j].interval == m,
                forall|j: int| 0 <= j < i ==> m <= #[trigger] self.timers@[j].interval,
            decreases self.timers@.len() - i,
        {
            if self.timers[i].interval < m {
                m = self.timers[i].interval;
            }
            i += 1;
        }
        Some(m)
    }

    /// Lets `elapsed` milliseconds pass: every countdown that ran out
    /// signals its slot and restarts from its period, every other one is
    /// shortened by `elapsed`.
    pub fn advance(&mut self, elapsed: u64)
        requires
            old(self).wf(),
        ensures
            final(self).wf(),
            final(self).timers@.len() == old(self).timers@.len(),
            forall|i: int|
                0 <= i < old(self).timers@.len() ==> #[trigger] final(self).timers@[i] == advanced(
                    old(self).timers@[i],
                    elapsed,
                ),
            final(self).pending@.len() == old(self).pending@.len(),
            forall|k: int|
                0 <= k < old(self).pending@.len() ==> #[trigger] final(self).pending@[k] == (
                old(self).pending@[k] || timer_fires(old(self).timers@, k, elapsed)),
            final(self).same_sources(old(self)),
    {
        let ghost t0 = self.timers@;
        let ghost p0 = self.pending@;
        let mut i: usize = 0;
        while i < self.timers.len()
            invariant
                self.wf(),
                i <= self.timers@.len(),
                self.timers@.len() == t0.len(),
                self.pending@.len() == p0.len(),
                forall|j: int| 0 <= j < i ==> #[trigger] self.timers@[j] == advanced(t0[j], elapsed),
                forall|j: int| i <= j < t0.len() ==> #[trigger] self.timers@[j] == t0[j],
                forall|k: int|
                    0 <= k < p0.len() ==> #[trigger] self.pending@[k] == (p0[k] || exists|j: int|
                        0 <= j < i && #[trigger] t0[j].slot == k && t0[j].interval <= elapsed),
                self.same_sources(old(self)),
            decreases t0.len() - i,
        {
            let e = self.timers[i];
            if e.interval <= elapsed {
                self.pending.set(e.slot, true);
                self.timers.set(i, TimeListenerData { interval: e.original_interval, ..e });
            } else {
                self.timers.set(i, TimeListenerData { interval: e.interval - elapsed, ..e });
            }
            i += 1;
            assert forall|k: int| 0 <= k < p0.len() implies #[trigger] self.pending@[k] == (p0[k]
                || exists|j: int| 0 <= j < i && #[trigger] t0[j].slot == k && t0[j].interval <= elapsed) by {
                if e.interval <= elapsed && k == e.slot {
                    assert(t0[i - 1].slot == k);
                }
            }
        }
    }

    /// Signals every module waiting on the file `name`; changes of other
    /// files in a watched directory wake nobody.
    pub fn file_changed(&mut self, name: &String)
        requires
            old(self).wf(),
        ensures
            final(self).wf(),
            final(self).pending@.len() == old(self).pending@.len(),
            forall|k: int|
                0 <= k < old(self).pending@.len() ==> #[trigger] final(self).pending@[k] == (
                old(self).pending@[k] || watches_file(old(self).files@, k, name@)),
            final(self).timers@ == old(self).timers@,
            final(self).same_sources(old(self)),
    {
        let ghost p0 = self.pending@;
        let ghost f0 = self.files@;
        let mut i: usize = 0;
        while i < self.files.len()
            invariant
                self.wf(),
                i <= self.files@.len(),
                self.pending@.len() == p0.len(),
                forall|k: int|
                    0 <= k < p0.len() ==> #[trigger] self.pending@[k] == (p0[k] || exists|j: int|
                        0 <= j < i && #[trigger] f0[j].slot == k && f0[j].name@ == name@),
                self.timers@ == old(self).timers@,
                self.same_sources(old(self)),
                f0 == old(self).files@,
            decreases self.files@.len() - i,
        {
            let hit = self.files[i].name.eq(name);
            let s = self.files[i].slot;
            if hit {
                self.pending.set(s, true);
            }
            i += 1;
            assert forall|k: int| 0 <= k < p0.len() implies #[trigger] self.pending@[k] == (p0[k]
                || exists|j: int| 0 <= j < i && #[trigger] f0[j].slot == k && f0[j].name@ == name@) by {
                if hit && k == s {
                    assert(self.files@[i - 1].slot == k);
                }
                if exists|j: int| 0 <= j < i && #[trigger] f0[j].slot == k && f0[j].name@ == name@ {
                    let j = choose|j: int| 0 <= j < i && #[trigger] f0[j].slot == k && f0[j].name@ == name@;
                    if j == i - 1 {
                        assert(hit && k == s);
                    }
                }
                if exists|j: int| 0 <= j < i - 1 && #[trigger] f0[j].slot == k && f0[j].name@ == name@ {
                    let j = choose|j: int| 0 <= j < i - 1 && #[trigger] f0[j].slot == k && f0[j].name@ == name@;
                    assert(0 <= j < i && f0[j].slot == k && f0[j].name@ == name@);
                }
            }
        }
    }

    /// Signals every slot of `subs`.
    fn signal_all(&mut self, subs: &Vec<usize>)
        requires
            old(self).wf(),
            forall|i: int| 0 <= i < subs@.len() ==> #[trigger] subs@[i] < old(self).pending@.len(),
        ensures
            final(self).wf(),
            final(self).pending@.len() == old(self).pending@.len(),
            forall|k: int|
                0 <= k < old(self).pending@.len() ==> #[trigger] final(self).pending@[k] == (
                old(self).pending@[k] || lists_slot(subs@, k)),
            final(self).timers@ == old(self).timers@,
            final(self).same_sources(old(self)),
    {
        let ghost p0 = self.pending@;
        let mut i: usize = 0;
        while i < subs.len()
            invariant
                self.wf(),
                i <= subs@.len(),
                self.pending@.len() == p0.len(),
                forall|j: int| 0 <= j < subs@.len() ==> #[trigger] subs@[j] < p0.len(),
                forall|k: int|
                    0 <= k < p0.len() ==> #[trigger] self.pending@[k] == (p0[k] || exists|j: int|
                        0 <= j < i && #[trigger] subs@[j] as int == k),
                self.timers@ == old(self).timers@,
                self.same_sources(old(self)),
            decreases subs@.len() - i,
        {
            let s = subs[i];
            self.pending.set(s, true);
            i += 1;
            assert forall|k: int| 0 <= k < p0.len() implies #[trigger] self.pending@[k] == (p0[k]
                || exists|j: int| 0 <= j < i && #[trigger] subs@[j] as int == k) by {
                if k == s {
                    assert(subs@[i - 1] as int == k);
                }
                if exists|j: int| 0 <= j < i - 1 && #[trigger] subs@[j] as int == k {
                    let j = choose|j: int| 0 <= j < i - 1 && #[trigger] subs@[j] as int == k;
                    assert(0 <= j < i && subs@[j] as int == k);
                }
                if exists|j: int| 0 <= j < i && #[trigger] subs@[j] as int == k {
                    let j = choose|j: int| 0 <= j < i && #[trigger] subs@[j] as int == k;
                    if j == i - 1 {
                        assert(k == s);
                    }
                }
            }
        }
    }

    /// One workspace change upstream wakes every workspace subscriber.
    pub fn workspace_changed(&mut self)
        requires
            old(self).wf(),
        ensures
            final(self).wf(),
            final(self).pending@.len() == old(self).pending@.len(),
            forall|k: int|
                0 <= k < old(self).pending@.len() ==> #[trigger] final(self).pending@[k] == (
                old(self).pending@[k] || lists_slot(old(self).workspace_subs@, k)),
            final(self).timers@ == old(self).timers@,
            final(self).same_sources(old(self)),
    {
        let subs = self.workspace_subs.clone();
        assert(subs@ =~= self.workspace_subs@);
        self.signal_all(&subs);
    }

    /// One volume change upstream wakes every volume subscriber.
    pub fn volume_changed(&mut self)
        requires
            old(self).wf(),
        ensures
            final(self).wf(),
            final(self).pending@.len() == old(self).pending@.len(),
            forall|k: int|
                0 <= k < old(self).pending@.len() ==> #[trigger] final(self).pending@[k] == (
                old(self).pending@[k] || lists_slot(old(self).volume_subs@, k)),
            final(self).timers@ == old(self).timers@,
            final(self).same_sources(old(self)),
    {
        let subs = self.volume_subs.clone();
        assert(subs@ =~= self.volume_subs@);
        self.signal_all(&subs);
    }

    /// One round of the periodic worker: the time to sleep, which is the
    /// smallest time left of all countdowns, and the slots whose countdown
    /// runs out by then. Those slots are signalled, each countdown that ran
    /// out restarts from its period and every other one is shortened by the
    /// sleep. `None`, with nothing changed, when there are no countdowns.
    pub fn timer_step(&mut self) -> (r: Option<(u64, Vec<usize>)>)
        requires
            old(self).wf(),
        ensures
            final(self).wf(),
            r is None <==> old(self).timers@.len() == 0,
            r is None ==> *final(self) == *old(self),
            r matches Some((m, fired)) ==> {
                &&& is_min_interval(old(self).timers@, m)
                &&& final(self).timers@.len() == old(self).timers@.len()
                &&& forall|i: int|
                    0 <= i < old(self).timers@.len() ==> #[trigger] final(self).timers@[i] == advanced(
                        old(self).timers@[i],
                        m,
                    )
                &&& forall|k: int| lists_slot(fired@, k) <==> timer_fires(old(self).timers@, k, m)
                &&& final(self).pending@.len() == old(self).pending@.len()
                &&& forall|k: int|
                    0 <= k < old(self).pending@.len() ==> #[trigger] final(self).pending@[k] == (
                    old(self).pending@[k] || timer_fires(old(self).timers@, k, m))
                &&& final(self).same_sources(old(self))
            },
    {
        let m = match self.next_deadline() {
            Some(m) => m,
            None => return None,
        };
        let mut fired: Vec<usize> = Vec::new();
        let mut i: usize = 0;
        while i < self.timers.len()
            invariant
                i <= self.timers@.len(),
                forall|k: int|
                    lists_slot(fired@, k) <==> exists|j: int|
                        0 <= j < i && #[trigger] self.timers@[j].slot == k && self.timers@[j].interval <= m,
            decreases self.timers@.len() - i,
        {
            let e = self.timers[i];
            if e.interval <= m {
                let ghost f0 = fired@;
                fired.push(e.slot);
                proof {
                    assert forall|k: int| lists_slot(fired@, k) <==> exists|j: int|
                        0 <= j < i + 1 && #[trigger] self.timers@[j].slot == k && self.timers@[j].interval <= m by {
                        if lists_slot(fired@, k) {
                            let x = choose|x: int| 0 <= x < fired@.len() && #[trigger] fired@[x] as int == k;
                            if x < f0.len() {
                                assert(f0[x] as int == k);
                                assert(lists_slot(f0, k));
                            } else {
                                assert(self.timers@[i as int].slot == k);
                            }
                        }
                        if exists|j: int| 0 <= j < i + 1 && #[trigger] self.timers@[j].slot == k && self.timers@[j].interval <= m {
                            let j = choose|j: int| 0 <= j < i + 1 && #[trigger] self.timers@[j].slot == k && self.timers@[j].interval <= m;
                            if j < i {
                                assert(exists|jj: int| 0 <= jj < i && #[trigger] self.timers@[jj].slot == k && self.timers@[jj].interval <= m);
                                assert(lists_slot(f0, k));
                                let x = choose|x: int| 0 <= x < f0.len() && #[trigger] f0[x] as int == k;
                                assert(fired@[x] as int == k);
                            } else {
                                assert(fired@[f0.len() as int] as int == k);
                            }
                        }
                    }
                }
            } else {
                proof {
                    assert forall|k: int| lists_slot(fired@, k) <==> exists|j: int|
                        0 <= j < i + 1 && #[trigger] self.timers@[j].slot == k && self.timers@[j].interval <= m by {
                        if exists|j: int| 0 <= j < i + 1 && #[trigger] self.timers@[j].slot == k && self.timers@[j].interval <= m {
                            let j = choose|j: int| 0 <= j < i + 1 && #[trigger] self.timers@[j].slot == k && self.timers@[j].interval <= m;
                            assert(j < i);
                        }
                    }
                }
            }
            i += 1;
        }
        self.advance(m);
        Some((m, fired))
    }

    /// Starts the hub: says which workers must run (a source with no
    /// subscriber needs none). The periodic worker then runs `timer_step`
    /// on a copy of the countdowns, and the file worker's events go through
    /// `file_changed`. A started hub must be stopped first.
    pub fn start_all(&mut self) -> (w: Workers)
        requires
            !old(self).started,
        ensures
            final(self).started,
            final(self).pending@ == old(self).pending@,
            final(self).timers@ == old(self).timers@,
            final(self).files@ == old(self).files@,
            final(self).dirs@ == old(self).dirs@,
            final(self).workspace_subs@ == old(self).workspace_subs@,
            final(self).volume_subs@ == old(self).volume_subs@,
            final(self).workspace_available == old(self).workspace_available,
            w.timers == (old(self).timers@.len() > 0),
            w.files == (old(self).files@.len() > 0),
            w.workspace == (old(self).workspace_subs@.len() > 0),
            w.volume == (old(self).volume_subs@.len() > 0),
    {
        self.started = true;
        Workers {
            timers: self.timers.len() > 0,
            files: self.files.len() > 0,
            workspace: self.workspace_subs.len() > 0,
            volume: self.volume_subs.len() > 0,
        }
    }

    /// Stops the hub: its workers are to be torn down, and it may be started again.
    pub fn stop(&mut self)
        ensures
            !final(self).started,
            final(self).pending@ == old(self).pending@,
            final(self).timers@ == old(self).timers@,
            final(self).files@ == old(self).files@,
            final(self).dirs@ == old(self).dirs@,
            final(self).workspace_subs@ == old(self).workspace_subs@,
            final(self).volume_subs@ == old(self).volume_subs@,
            final(self).workspace_available == old(self).workspace_available,
    {
        self.started = false;
    }
}

/// Coalescing: any number n >= 1 of signals on one slot before it is taken
/// leave exactly the state of a single signal, so the next take reports one
/// wake and a take right after it reports none.
pub proof fn lemma_signals_coalesce(p: Seq<bool>, slot: int, n: nat)
    requires
        0 <= slot < p.len(),
        n >= 1,
    ensures
        signalled_times(p, slot, n) == signalled(p, slot),
        signalled_times(p, slot, n)[slot],
        !taken(signalled_times(p, slot, n), slot)[slot],
        taken(signalled_times(p, slot, n), slot) == taken(signalled(p, slot), slot),
    decreases n,
{
    assert(signalled_times(p, slot, 0) == p);
    if n > 1 {
        lemma_signals_coalesce(p, slot, (n - 1) as nat);
        assert(signalled(signalled(p, slot), slot) =~= signalled(p, slot));
    }
    assert(signalled_times(p, slot, n) == signalled(p, slot));
    assert(signalled(p, slot)[slot]);
    assert(!taken(signalled(p, slot), slot)[slot]);
}

/// Periodic schedule: while the worker never sleeps past a countdown's time
/// left (it sleeps the smallest time left of all, which is positive when
/// every period is), a countdown of period `p`
/// started at time 0 has `p - t % p` left at time `t`, and it fires exactly
/// when the time reached is a multiple of its period.
pub proof fn lemma_countdown_on_schedule(e: TimeListenerData, t: int, elapsed: u64)
    requires
        t >= 0,
        e.original_interval > 0,
        e.interval == e.original_interval - t % (e.original_interval as int),
        0 < elapsed <= e.interval,
    ensures
        (e.interval <= elapsed) == ((t + elapsed) % (e.original_interval as int) == 0),
        advanced(e, elapsed).interval == e.original_interval - (t + elapsed) % (e.original_interval as int),
        advanced(e, elapsed).original_interval == e.original_interval,
{
    let p = e.original_interval as int;
    let r = t % p;
    let q = t / p;
    lemma_fundamental_div_mod(t, p);
    if e.interval <= elapsed {
        assert(t + elapsed == (q + 1) * p) by (nonlinear_arith)
            requires
                t == p * q + r,
                elapsed == p - r,
        ;
        lemma_fundamental_div_mod_converse(t + elapsed, p, q + 1, 0);
    } else {
        let s = r + elapsed;
        assert(t + elapsed == q * p + s) by (nonlinear_arith)
            requires
                t == p * q + r,
                s == r + elapsed,
        ;
        lemma_fundamental_div_mod_converse(t + elapsed, p, q, s);
    }
}

/// `time` is a multiple of the period of `e`: a deadline of `e`.
pub open spec fn deadline_at(e: TimeListenerData, time: int) -> bool {
    time % (e.original_interval as int) == 0
}

/// Every countdown of `t` has a positive period and, at time `now`
/// (counted from when they were registered), `period - now % period` left.
pub open spec fn on_schedule(t: Seq<TimeListenerData>, now: int) -> bool {
    forall|i: int|
        0 <= i < t.len() ==> #[trigger] t[i].original_interval > 0 && t[i].interval
            == t[i].original_interval - now % (t[i].original_interval as int)
}

/// Freshly registered countdowns with positive periods are on schedule at time 0.
pub proof fn lemma_registered_on_schedule(t: Seq<TimeListenerData>)
    requires
        forall|i: int|
            0 <= i < t.len() ==> #[trigger] t[i].original_interval > 0 && t[i].interval
                == t[i].original_interval,
    ensures
        on_schedule(t, 0),
{
    assert forall|i: int| 0 <= i < t.len() implies #[trigger] t[i].original_interval > 0 && t[i].interval
        == t[i].original_interval - 0int % (t[i].original_interval as int) by {
        lemma_fundamental_div_mod_converse(0, t[i].original_interval as int, 0, 0);
    }
}

/// Periodic fairness over a whole round of the worker: when the countdowns
/// are on schedule at time `now` and the worker sleeps the smallest time
/// left `m` (as `timer_step` does), then no countdown's deadline falls
/// strictly inside the sleep, a countdown fires exactly when `now + m` is a
/// multiple of its period, at least one fires, and the countdowns are on
/// schedule at `now + m`. So each countdown fires at every multiple of its
/// period and at no other time, and the worker sleeps once per distinct
/// deadline.
pub proof fn lemma_round_on_schedule(t0: Seq<TimeListenerData>, t1: Seq<TimeListenerData>, m: u64, now: int)
    requires
        now >= 0,
        on_schedule(t0, now),
        is_min_interval(t0, m),
        t1.len() == t0.len(),
        forall|i: int| 0 <= i < t0.len() ==> #[trigger] t1[i] == advanced(t0[i], m),
    ensures
        on_schedule(t1, now + m),
        forall|i: int|
            0 <= i < t0.len() ==> ((#[trigger] t0[i]).interval <= m <==> (now + m) % (t0[i].original_interval as int) == 0),
        forall|i: int, time: int|
            0 <= i < t0.len() && now < time < now + m ==> !#[trigger] deadline_at(t0[i], time),
        exists|i: int| 0 <= i < t0.len() && (now + m) % ((#[trigger] t0[i]).original_interval as int) == 0,
{
    let j = choose|j: int| 0 <= j < t0.len() && #[trigger] t0[j].interval == m;
    assert(t0[j].original_interval > 0);
    assert(m > 0) by {
        lemma_fundamental_div_mod(now, t0[j].original_interval as int);
    }
    assert forall|i: int| 0 <= i < t0.len() implies ((#[trigger] t0[i]).interval <= m <==> (now + m) % (
    t0[i].original_interval as int) == 0) && t1[i].original_interval > 0 && t1[i].interval
        == t1[i].original_interval - (now + m) % (t1[i].original_interval as int) by {
        assert(m <= t0[i].interval);
        lemma_countdown_on_schedule(t0[i], now, m);
    }
    assert forall|i: int, time: int| 0 <= i < t0.len() && now < time < now + m implies !#[trigger] deadline_at(
        t0[i],
        time,
    ) by {
        let d = time - now;
        let p = t0[i].original_interval as int;
        assert(m <= t0[i].interval);
        lemma_fundamental_div_mod(now, p);
        let q = now / p;
        let r = now % p;
        assert(now + d == q * p + (r + d)) by (nonlinear_arith)
            requires
                now == p * q + r,
        ;
        lemma_fundamental_div_mod_converse(now + d, p, q, r + d);
    }
    lemma_countdown_on_schedule(t0[j], now, m);
}

} // verus!
