//! The bar's engine state: configuration, module registry, listener hub and
//! the per-position strip caches, with the refresh pass, compositing and
//! hot reload.
use vstd::prelude::*;
use crate::bitmap::{pixel_at, Bitmap};
use crate::compositor::{
    caches_wf, compose, frame_pixel, is_strip, lemma_tiles_agree, strip_fits, strip_for, tiles_at,
};
use crate::listeners::{lemma_signals_coalesce, signalled_times, taken, Listeners};
use crate::modules::Cmd;
use crate::registry::{can_run, Environment, Module, ModuleData, Position};
use vstd::string::StrSliceExecFns;

verus! {

pub struct PositionedModules {
    pub left: Vec<Module>,
    pub center: Vec<Module>,
    pub right: Vec<Module>,
}

/// The bar's configuration, as far as the engine reads it.
pub struct Config {
    /// Shown in place of a value whose probe failed.
    pub unkown: String,
    pub topbar: bool,
    pub layer: String,
    pub height: i32,
    pub modules: PositionedModules,
}

/// Which of the watched configuration files changed since the last look.
#[derive(Clone, Copy, PartialEq, Eq, Structural, Debug)]
pub struct ConfigWakes {
    pub css: bool,
    pub config: bool,
}

pub struct StatusBar {
    pub unkown: String,
    pub topbar: bool,
    pub layer: String,
    pub height: i32,
    pub module_info: Vec<ModuleData>,
    pub listeners: Listeners,
    pub config_slot: usize,
    pub css_slot: usize,
    /// The strips of the left, centre and right positions, in that order.
    pub strips: Vec<Bitmap>,
    /// Whether each strip still matches its modules' tiles.
    pub strip_valid: Vec<bool>,
    pub first_run: bool,
}

/// Where the strip of a position is kept.
pub open spec fn pos_index(p: Position) -> int {
    match p {
        Position::Left => 0,
        Position::Center => 1,
        Position::Right => 2,
    }
}

/// Where the strip of a position is kept.
pub fn position_index(p: Position) -> (r: usize)
    ensures
        r == pos_index(p),
{
    match p {
        Position::Left => 0,
        Position::Center => 1,
        Position::Right => 2,
    }
}

/// The kinds of `ms` that can run, in order.
pub open spec fn runnable(ms: Seq<Module>, ws: bool, env: Environment) -> Seq<Cmd>
    decreases ms.len(),
{
    if ms.len() == 0 {
        Seq::empty()
    } else if can_run(ms.last().command, ws, env) {
        runnable(ms.drop_last(), ws, env).push(ms.last().command)
    } else {
        runnable(ms.drop_last(), ws, env)
    }
}

/// The kinds of the running modules, in order.
pub open spec fn commands_of(mods: Seq<ModuleData>) -> Seq<Cmd> {
    mods.map_values(|m: ModuleData| m.command)
}

/// The modules are the runnable modules of the left, centre and right
/// lists, in that order, each at the position of the list it came from.
pub open spec fn placed(mods: Seq<ModuleData>, ms: PositionedModules, ws: bool, env: Environment) -> bool {
    let (nl, nc) = (runnable(ms.left@, ws, env).len(), runnable(ms.center@, ws, env).len());
    &&& commands_of(mods) == runnable(ms.left@, ws, env) + runnable(ms.center@, ws, env) + runnable(
        ms.right@,
        ws,
        env,
    )
    &&& forall|i: int|
        0 <= i < mods.len() ==> (#[trigger] mods[i]).position == if i < nl {
            Position::Left
        } else if i < nl + nc {
            Position::Center
        } else {
            Position::Right
        }
}

/// The value shown for a probe result: the reading, or the unknown placeholder.
pub open spec fn probe_value(probed: Option<String>, unknown: String) -> Seq<char> {
    match probed {
        Some(v) => v@,
        None => unknown@,
    }
}

/// Module `m0` took the probe value `value` and became `m1`: the value is
/// its output, the tile is to be drawn again (`text` is the text to draw)
/// exactly when the value changed or the configuration did, and nothing
/// else of the module changed.
pub open spec fn took_probe(m0: ModuleData, m1: ModuleData, value: Seq<char>, config_changed: bool, text: Option<String>) -> bool {
    &&& crate::registry::render_step(m0, m1, value, config_changed, text is Some)
    &&& m1.cache == m0.cache
    &&& m1.position == m0.position
    &&& m1.command == m0.command
    &&& m1.format == m0.format
    &&& m1.receiver == m0.receiver
    &&& (text matches Some(t) ==> t@ == crate::registry::render_text(m0.command, m0.format@, value))
}

/// A module is woken when its slot was signalled, has never been probed,
/// or the configuration changed.
pub open spec fn must_probe(m: ModuleData, pending: Seq<bool>, config_changed: bool) -> bool {
    pending[m.receiver as int] || m.output@.len() == 0 || config_changed
}

impl StatusBar {
    /// The hub is well formed; every module owns a wake slot of its own,
    /// distinct from the configuration and style slots; a strip marked
    /// valid is the strip of its position's current tiles.
    pub open spec fn wf(&self) -> bool {
        &&& self.listeners.wf()
        &&& forall|i: int|
            0 <= i < self.module_info@.len() ==> (#[trigger] self.module_info@[i]).wf()
                && self.module_info@[i].receiver < self.listeners.pending@.len()
                && self.module_info@[i].receiver != self.config_slot
                && self.module_info@[i].receiver != self.css_slot
        &&& forall|i: int, j: int|
            0 <= i < j < self.module_info@.len() ==> #[trigger] self.module_info@[i].receiver
                != #[trigger] self.module_info@[j].receiver
        &&& self.config_slot < self.listeners.pending@.len()
        &&& self.css_slot < self.listeners.pending@.len()
        &&& self.config_slot != self.css_slot
        &&& self.strips@.len() == 3
        &&& self.strip_valid@.len() == 3
        &&& forall|p: Position|
            #![trigger pos_index(p)]
            self.strip_valid@[pos_index(p)] ==> is_strip(
                self.strips@[pos_index(p)],
                tiles_at(self.module_info@, p),
            )
    }

    /// Whether the modules are the runnable modules of `ms`, at `pos`,
    /// appended to `before`.
    pub open spec fn appended(
        mods: Seq<ModuleData>,
        before: Seq<ModuleData>,
        ms: Seq<Module>,
        pos: Position,
        ws: bool,
        env: Environment,
    ) -> bool {
        &&& commands_of(mods) == commands_of(before) + runnable(ms, ws, env)
        &&& before.len() <= mods.len()
        &&& mods.subrange(0, before.len() as int) == before
        &&& forall|i: int|
            before.len() <= i < mods.len() ==> (#[trigger] mods[i]).position == pos && mods[i].output@.len()
                == 0
    }

    /// Sets up modules of `ms` at `pos` and appends those that can run.
    fn add_modules(
        listeners: &mut Listeners,
        out: &mut Vec<ModuleData>,
        ms: Vec<Module>,
        pos: Position,
        env: &Environment,
    )
        requires
            old(listeners).wf(),
            old(listeners).pending@.len() + ms@.len() < usize::MAX,
            forall|i: int|
                0 <= i < old(out)@.len() ==> (#[trigger] old(out)@[i]).wf() && old(out)@[i].receiver
                    < old(listeners).pending@.len(),
            forall|i: int, j: int|
                0 <= i < j < old(out)@.len() ==> #[trigger] old(out)@[i].receiver
                    != #[trigger] old(out)@[j].receiver,
        ensures
            final(listeners).wf(),
            final(listeners).pending@.len() <= old(listeners).pending@.len() + ms@.len(),
            final(listeners).workspace_available == old(listeners).workspace_available,
            final(listeners).started == old(listeners).started,
            forall|i: int|
                0 <= i < final(out)@.len() ==> (#[trigger] final(out)@[i]).wf()
                    && final(out)@[i].receiver < final(listeners).pending@.len(),
            forall|i: int, j: int|
                0 <= i < j < final(out)@.len() ==> #[trigger] final(out)@[i].receiver
                    != #[trigger] final(out)@[j].receiver,
            Self::appended(final(out)@, old(out)@, ms@, pos, old(listeners).workspace_available, *env),
    {
        let ghost all = ms@;
        let ghost o0 = out@;
        let ghost ws = listeners.workspace_available;
        let mut ms = ms;
        let mut k: usize = 0;
        let n = ms.len();
        assert(all.subrange(0, 0) =~= Seq::<Module>::empty());
        assert(out@.subrange(0, o0.len() as int) =~= o0);
        assert(commands_of(out@) =~= commands_of(o0) + runnable(all.subrange(0, 0), ws, *env));
        while ms.len() > 0
            invariant
                listeners.wf(),
                k + ms@.len() == n,
                n == all.len(),
                ms@ == all.subrange(k as int, n as int),
                listeners.pending@.len() + ms@.len() <= old(listeners).pending@.len() + n,
                old(listeners).pending@.len() + n < usize::MAX,
                listeners.workspace_available == ws,
                ws == old(listeners).workspace_available,
                listeners.started == old(listeners).started,
                forall|i: int|
                    0 <= i < out@.len() ==> (#[trigger] out@[i]).wf() && out@[i].receiver
                        < listeners.pending@.len(),
                forall|i: int, j: int|
                    0 <= i < j < out@.len() ==> #[trigger] out@[i].receiver
                        != #[trigger] out@[j].receiver,
                Self::appended(out@, o0, all.subrange(0, k as int), pos, ws, *env),
            decreases ms@.len(),
        {
            let m = ms.remove(0);
            assert(m == all[k as int]);
            let ghost before = out@;
            let ghost plen = listeners.pending@.len();
            let made = ModuleData::new(listeners, m, pos, env);
            assert(all.subrange(0, k + 1).drop_last() =~= all.subrange(0, k as int));
            match made {
                Some(md) => {
                    out.push(md);
                    assert(commands_of(out@) =~= commands_of(before).push(md.command));
                    assert(out@.subrange(0, o0.len() as int) =~= before.subrange(0, o0.len() as int));
                },
                None => {},
            }
            k += 1;
            assert(ms@ =~= all.subrange(k as int, n as int));
        }
        assert(all.subrange(0, n as int) =~= all);
    }

    /// Builds the engine for `config`: every module that can run is set up
    /// (left, then centre, then right, each in configuration order) and the
    /// configuration and style files are watched. The hub is not started.
    pub fn new(
        config: Config,
        env: &Environment,
        workspace_available: bool,
        config_path: &String,
        css_path: &String,
    ) -> (r: StatusBar)
        requires
            config.modules.left@.len() + config.modules.center@.len() + config.modules.right@.len() + 2
                < usize::MAX,
        ensures
            r.wf(),
            r.unkown == config.unkown,
            r.topbar == config.topbar,
            r.layer == config.layer,
            r.height == config.height,
            commands_of(r.module_info@) == runnable(config.modules.left@, workspace_available, *env)
                + runnable(config.modules.center@, workspace_available, *env) + runnable(
                config.modules.right@,
                workspace_available,
                *env,
            ),
            placed(r.module_info@, config.modules, workspace_available, *env),
            r.listeners.workspace_available == workspace_available,
            !r.listeners.started,
            r.first_run,
            forall|i: int| 0 <= i < r.module_info@.len() ==> (#[trigger] r.module_info@[i]).output@.len() == 0,
    {
        let Config { unkown, topbar, layer, height, modules } = config;
        let PositionedModules { left, center, right } = modules;
        let ghost (l, c, rr) = (left@, center@, right@);
        let mut listeners = Listeners::new(workspace_available);
        let mut module_info: Vec<ModuleData> = Vec::new();
        let ghost m0 = module_info@;
        Self::add_modules(&mut listeners, &mut module_info, left, Position::Left, env);
        let ghost m1 = module_info@;
        Self::add_modules(&mut listeners, &mut module_info, center, Position::Center, env);
        let ghost m2 = module_info@;
        Self::add_modules(&mut listeners, &mut module_info, right, Position::Right, env);
        let (config_dir, config_name) = crate::registry::split_path(config_path);
        let (config_slot, _) = listeners.new_file_listener(&config_dir, &config_name);
        let (css_dir, css_name) = crate::registry::split_path(css_path);
        let (css_slot, _) = listeners.new_file_listener(&css_dir, &css_name);
        let strips = vec![Bitmap::empty(), Bitmap::empty(), Bitmap::empty()];
        let strip_valid = vec![false, false, false];
        proof {
            assert(commands_of(m0) =~= Seq::<Cmd>::empty());
            let m3 = module_info@;
            assert(m0.len() == 0);
            let (nl, nc) = (runnable(l, workspace_available, *env).len(), runnable(c, workspace_available, *env).len());
            assert(commands_of(m1).len() == m1.len());
            assert(commands_of(m2).len() == m2.len());
            assert(m1.len() == nl);
            assert(m2.len() == nl + nc);
            assert forall|i: int| 0 <= i < m3.len() implies (#[trigger] m3[i]).output@.len() == 0
                && m3[i].position == (if i < nl { Position::Left } else if i < nl + nc { Position::Center } else { Position::Right }) by {
                if i < m1.len() {
                    assert(m1[i].output@.len() == 0);
                    assert(m2.subrange(0, m1.len() as int)[i] == m2[i]);
                    assert(m3.subrange(0, m2.len() as int)[i] == m3[i]);
                } else if i < m2.len() {
                    assert(m2[i].output@.len() == 0);
                    assert(m3.subrange(0, m2.len() as int)[i] == m3[i]);
                }
            }
        }
        let r = StatusBar {
            unkown,
            topbar,
            layer,
            height,
            module_info,
            listeners,
            config_slot,
            css_slot,
            strips,
            strip_valid,
            first_run: true,
        };
        assert(r.wf()) by {
            assert forall|p: Position| #![trigger pos_index(p)] r.strip_valid@[pos_index(p)] implies is_strip(
                r.strips@[pos_index(p)],
                tiles_at(r.module_info@, p),
            ) by {}
        }
        r
    }

    /// The module list `m2` is `m1` with every module keeping its
    /// position, and its tile wherever `keep(position)` holds.
    pub open spec fn tiles_kept(m1: Seq<ModuleData>, m2: Seq<ModuleData>, changed: Option<Position>) -> bool {
        &&& m1.len() == m2.len()
        &&& forall|i: int| 0 <= i < m1.len() ==> #[trigger] m1[i].position == m2[i].position
        &&& forall|i: int|
            0 <= i < m1.len() && Some(#[trigger] m1[i].position) != changed ==> m1[i].cache == m2[i].cache
    }

    proof fn lemma_strips_kept(&self, old_mods: Seq<ModuleData>, changed: Option<Position>, old_valid: Seq<bool>)
        requires
            Self::tiles_kept(old_mods, self.module_info@, changed),
            self.strips@.len() == 3,
            self.strip_valid@.len() == 3,
            forall|p: Position|
                #![trigger pos_index(p)]
                self.strip_valid@[pos_index(p)] ==> old_valid[pos_index(p)] && Some(p) != changed,
            forall|p: Position|
                #![trigger pos_index(p)]
                old_valid[pos_index(p)] ==> is_strip(self.strips@[pos_index(p)], tiles_at(old_mods, p)),
        ensures
            forall|p: Position|
                #![trigger pos_index(p)]
                self.strip_valid@[pos_index(p)] ==> is_strip(
                    self.strips@[pos_index(p)],
                    tiles_at(self.module_info@, p),
                ),
    {
        assert forall|p: Position| #![trigger pos_index(p)] self.strip_valid@[pos_index(p)] implies is_strip(
            self.strips@[pos_index(p)],
            tiles_at(self.module_info@, p),
        ) by {
            let m2 = self.module_info@;
            assert forall|i: int| 0 <= i < old_mods.len() && #[trigger] old_mods[i].position == p implies old_mods[i].cache
                == m2[i].cache by {
                assert(Some(old_mods[i].position) != changed);
            }
            lemma_tiles_agree(old_mods, m2, p);
        }
    }

    /// Which configuration files changed since the last look; takes both wakes.
    pub fn config_wakes(&mut self) -> (r: ConfigWakes)
        requires
            old(self).wf(),
        ensures
            final(self).wf(),
            r.config == old(self).listeners.pending@[old(self).config_slot as int],
            r.css == old(self).listeners.pending@[old(self).css_slot as int],
            final(self).module_info@ == old(self).module_info@,
            final(self).strips@ == old(self).strips@,
            final(self).strip_valid@ == old(self).strip_valid@,
            final(self).unkown == old(self).unkown,
            final(self).first_run == old(self).first_run,
    {
        let config = self.listeners.take(self.config_slot);
        let css = self.listeners.take(self.css_slot);
        ConfigWakes { css, config }
    }

    /// Starts a refresh pass: takes each module's pending wake, says which
    /// modules must be probed, and marks every tile as reused until a
    /// probe shows a new value.
    pub fn modules_to_probe(&mut self, config_changed: bool) -> (r: Vec<bool>)
        requires
            old(self).wf(),
        ensures
            final(self).wf(),
            r@.len() == old(self).module_info@.len(),
            final(self).module_info@.len() == old(self).module_info@.len(),
            forall|i: int|
                0 <= i < r@.len() ==> #[trigger] r@[i] == must_probe(
                    old(self).module_info@[i],
                    old(self).listeners.pending@,
                    config_changed,
                ),
            forall|i: int|
                0 <= i < r@.len() ==> {
                    let (m0, m1) = (old(self).module_info@[i], #[trigger] final(self).module_info@[i]);
                    &&& m1.unchanged
                    &&& m1.output == m0.output
                    &&& m1.command == m0.command
                    &&& m1.format == m0.format
                    &&& m1.receiver == m0.receiver
                    &&& m1.cache == m0.cache
                    &&& m1.position == m0.position
                    &&& !final(self).listeners.pending@[m0.receiver as int]
                },
            final(self).listeners.pending@[old(self).config_slot as int] == old(self).listeners.pending@[old(self).config_slot as int],
            final(self).listeners.pending@[old(self).css_slot as int] == old(self).listeners.pending@[old(self).css_slot as int],
            final(self).strips@ == old(self).strips@,
            final(self).strip_valid@ == old(self).strip_valid@,
            final(self).unkown == old(self).unkown,
            final(self).config_slot == old(self).config_slot,
            final(self).css_slot == old(self).css_slot,
            final(self).first_run == old(self).first_run,
    {
        let ghost m0 = self.module_info@;
        let ghost p0 = self.listeners.pending@;
        let n = self.module_info.len();
        let mut r: Vec<bool> = Vec::new();
        let mut i: usize = 0;
        while i < n
            invariant
                i <= n,
                n == m0.len(),
                r@.len() == i,
                self.module_info@.len() == n,
                self.listeners.wf(),
                self.listeners.pending@.len() == p0.len(),
                self.strips@ == old(self).strips@,
                self.strip_valid@ == old(self).strip_valid@,
                self.unkown == old(self).unkown,
                self.config_slot == old(self).config_slot,
                self.css_slot == old(self).css_slot,
                self.first_run == old(self).first_run,
                old(self).wf(),
                m0 == old(self).module_info@,
                p0 == old(self).listeners.pending@,
                self.listeners.timers@ == old(self).listeners.timers@,
                self.listeners.same_sources(&old(self).listeners),
                forall|j: int| 0 <= j < i ==> #[trigger] r@[j] == must_probe(m0[j], p0, config_changed),
                forall|j: int|
                    0 <= j < n ==> {
                        let (a, b) = (m0[j], #[trigger] self.module_info@[j]);
                        &&& b.output == a.output
                        &&& b.command == a.command
                        &&& b.format == a.format
                        &&& b.receiver == a.receiver
                        &&& b.cache == a.cache
                        &&& b.position == a.position
                        &&& (j < i ==> b.unchanged)
                        &&& (j >= i ==> b == a)
                    },
                forall|k: int|
                    0 <= k < p0.len() ==> #[trigger] self.listeners.pending@[k] == (p0[k] && !exists|j: int|
                        0 <= j < i && #[trigger] m0[j].receiver == k),
            decreases n - i,
        {
            let mut m = self.module_info.remove(i);
            let woke = self.listeners.take(m.receiver);
            let probe = woke || m.output.as_str().unicode_len() == 0 || config_changed;
            proof {
                assert(m == m0[i as int]);
                assert(woke == p0[m.receiver as int]) by {
                    if !p0[m.receiver as int] {
                    } else {
                        assert forall|j: int| 0 <= j < i implies #[trigger] m0[j].receiver != m.receiver by {
                            assert(old(self).module_info@[j].receiver != old(self).module_info@[i as int].receiver);
                        }
                    }
                }
            }
            m.unchanged = true;
            self.module_info.insert(i, m);
            r.push(probe);
            i += 1;
            proof {
                assert forall|k: int| 0 <= k < p0.len() implies #[trigger] self.listeners.pending@[k] == (p0[k] && !exists|j: int|
                    0 <= j < i && #[trigger] m0[j].receiver == k) by {
                    if exists|j: int| 0 <= j < i - 1 && #[trigger] m0[j].receiver == k {
                        let j = choose|j: int| 0 <= j < i - 1 && #[trigger] m0[j].receiver == k;
                        assert(0 <= j < i && m0[j].receiver == k);
                    }
                    if k == m0[i - 1].receiver {
                        assert(m0[i - 1].receiver == k);
                    }
                    if exists|j: int| 0 <= j < i && #[trigger] m0[j].receiver == k {
                        let j = choose|j: int| 0 <= j < i && #[trigger] m0[j].receiver == k;
                        if j < i - 1 {
                            assert(0 <= j < i - 1 && m0[j].receiver == k);
                        }
                    }
                }
            }
        }
        proof {
            assert forall|j: int| 0 <= j < n implies !#[trigger] self.listeners.pending@[m0[j].receiver as int] by {
                assert(m0[j].receiver == m0[j].receiver);
                assert(old(self).module_info@[j].receiver < p0.len());
            }
            assert(!exists|j: int| 0 <= j < n && #[trigger] m0[j].receiver == old(self).config_slot);
            assert(!exists|j: int| 0 <= j < n && #[trigger] m0[j].receiver == old(self).css_slot);
            assert(Self::tiles_kept(m0, self.module_info@, None));
            self.lemma_strips_kept(m0, None, self.strip_valid@);
        }
        r
    }

    /// Hands the probe result of module `i` to it (`None`: the probe
    /// failed). Returns the text to render when its tile must be redrawn.
    pub fn apply_probe(&mut self, i: usize, probed: Option<String>, config_changed: bool) -> (r: Option<String>)
        requires
            old(self).wf(),
            i < old(self).module_info@.len(),
        ensures
            final(self).wf(),
            final(self).module_info@.len() == old(self).module_info@.len(),
            forall|j: int| 0 <= j < old(self).module_info@.len() && j != i ==> #[trigger] final(self).module_info@[j] == old(self).module_info@[j],
            took_probe(
                old(self).module_info@[i as int],
                final(self).module_info@[i as int],
                probe_value(probed, old(self).unkown),
                config_changed,
                r,
            ),
            final(self).listeners == old(self).listeners,
            final(self).strips@ == old(self).strips@,
            final(self).strip_valid@ == old(self).strip_valid@,
            final(self).unkown == old(self).unkown,
            final(self).config_slot == old(self).config_slot,
            final(self).css_slot == old(self).css_slot,
            final(self).first_run == old(self).first_run,
    {
        let ghost m0 = self.module_info@;
        let mut m = self.module_info.remove(i);
        assert(m == m0[i as int]);
        let r = m.render(probed, config_changed, &self.unkown);
        self.module_info.insert(i, m);
        proof {
            assert(self.module_info@ =~= m0.update(i as int, m));
            assert(Self::tiles_kept(m0, self.module_info@, None));
            self.lemma_strips_kept(m0, None, self.strip_valid@);
            assert forall|a: int, b: int| 0 <= a < b < self.module_info@.len() implies #[trigger] self.module_info@[a].receiver
                != #[trigger] self.module_info@[b].receiver by {
                assert(m0[a].receiver != m0[b].receiver);
            }
        }
        r
    }

    /// The refresh pass once the planned probes have run: `plan` is what
    /// `modules_to_probe` returned and `results[i]` the probe result of
    /// module `i` (`None`: it failed), read only where `plan[i]` holds.
    /// Every planned module takes its result; the others stay as they are.
    /// Returns, for each module, the text to draw when its tile must be
    /// drawn again.
    pub fn refresh_pass(&mut self, plan: &Vec<bool>, results: &Vec<Option<String>>, config_changed: bool) -> (texts:
        Vec<Option<String>>)
        requires
            old(self).wf(),
            plan@.len() == old(self).module_info@.len(),
            results@.len() == old(self).module_info@.len(),
        ensures
            final(self).wf(),
            texts@.len() == old(self).module_info@.len(),
            final(self).module_info@.len() == old(self).module_info@.len(),
            forall|i: int|
                0 <= i < plan@.len() ==> if plan@[i] {
                    took_probe(
                        old(self).module_info@[i],
                        #[trigger] final(self).module_info@[i],
                        probe_value(results@[i], old(self).unkown),
                        config_changed,
                        texts@[i],
                    )
                } else {
                    final(self).module_info@[i] == old(self).module_info@[i] && texts@[i] is None
                },
            final(self).listeners == old(self).listeners,
            final(self).strips@ == old(self).strips@,
            final(self).strip_valid@ == old(self).strip_valid@,
            final(self).unkown == old(self).unkown,
            final(self).config_slot == old(self).config_slot,
            final(self).css_slot == old(self).css_slot,
            final(self).first_run == old(self).first_run,
    {
        let ghost m0 = self.module_info@;
        let n = self.module_info.len();
        let mut texts: Vec<Option<String>> = Vec::new();
        let mut i: usize = 0;
        while i < n
            invariant
                self.wf(),
                i <= n,
                n == m0.len(),
                plan@.len() == n,
                results@.len() == n,
                texts@.len() == i,
                self.module_info@.len() == n,
                m0 == old(self).module_info@,
                forall|j: int|
                    0 <= j < i ==> if plan@[j] {
                        took_probe(
                            m0[j],
                            #[trigger] self.module_info@[j],
                            probe_value(results@[j], old(self).unkown),
                            config_changed,
                            texts@[j],
                        )
                    } else {
                        self.module_info@[j] == m0[j] && texts@[j] is None
                    },
                forall|j: int| i <= j < n ==> #[trigger] self.module_info@[j] == m0[j],
                self.listeners == old(self).listeners,
                self.strips@ == old(self).strips@,
                self.strip_valid@ == old(self).strip_valid@,
                self.unkown == old(self).unkown,
                self.config_slot == old(self).config_slot,
                self.css_slot == old(self).css_slot,
                self.first_run == old(self).first_run,
            decreases n - i,
        {
            if plan[i] {
                let value: Option<String> = match &results[i] {
                    Some(v) => Some(v.clone()),
                    None => None,
                };
                assert(probe_value(value, self.unkown) == probe_value(results@[i as int], old(self).unkown));
                let t = self.apply_probe(i, value, config_changed);
                texts.push(t);
            } else {
                texts.push(None);
            }
            i += 1;
        }
        texts
    }

    /// Stores the tile rendered for module `i`; the strip of its position
    /// must then be rebuilt, the other strips stay.
    pub fn store_tile(&mut self, i: usize, tile: Bitmap)
        requires
            old(self).wf(),
            i < old(self).module_info@.len(),
            tile.wf(),
        ensures
            final(self).wf(),
            final(self).module_info@ == old(self).module_info@.update(
                i as int,
                ModuleData { cache: tile, ..old(self).module_info@[i as int] },
            ),
            final(self).strips@ == old(self).strips@,
            final(self).strip_valid@ == old(self).strip_valid@.update(
                pos_index(old(self).module_info@[i as int].position),
                false,
            ),
            final(self).listeners == old(self).listeners,
            final(self).unkown == old(self).unkown,
            final(self).config_slot == old(self).config_slot,
            final(self).css_slot == old(self).css_slot,
            final(self).first_run == old(self).first_run,
    {
        let ghost m0 = self.module_info@;
        let ghost v0 = self.strip_valid@;
        let mut m = self.module_info.remove(i);
        assert(m == m0[i as int]);
        m.set_cache(tile);
        let pos = m.position;
        self.module_info.insert(i, m);
        let k = position_index(pos);
        self.strip_valid.set(k, false);
        proof {
            assert(self.module_info@ =~= m0.update(i as int, ModuleData { cache: tile, ..m0[i as int] }));
            assert(Self::tiles_kept(m0, self.module_info@, Some(pos)));
            assert forall|p: Position| #![trigger pos_index(p)] self.strip_valid@[pos_index(p)] implies v0[pos_index(p)] && Some(p) != Some(pos) by {
                if p == pos {
                } else {
                    assert(pos_index(p) != pos_index(pos));
                }
            }
            self.lemma_strips_kept(m0, Some(pos), v0);
            assert forall|a: int, b: int| 0 <= a < b < self.module_info@.len() implies #[trigger] self.module_info@[a].receiver
                != #[trigger] self.module_info@[b].receiver by {
                assert(m0[a].receiver != m0[b].receiver);
            }
        }
    }

    /// Whether some module's tile changed in this refresh pass.
    pub fn any_changed(&self) -> (r: bool)
        ensures
            r == exists|i: int| 0 <= i < self.module_info@.len() && !(#[trigger] self.module_info@[i]).unchanged,
    {
        let mut i: usize = 0;
        while i < self.module_info.len()
            invariant
                i <= self.module_info@.len(),
                forall|j: int| 0 <= j < i ==> (#[trigger] self.module_info@[j]).unchanged,
            decreases self.module_info@.len() - i,
        {
            if !self.module_info[i].unchanged {
                return true;
            }
            i += 1;
        }
        false
    }

    /// Rebuilds the strip of `pos` unless it is still valid and the bar was
    /// not resized; false when the strip cannot be held.
    fn refresh_strip(&mut self, pos: Position, resized: bool) -> (ok: bool)
        requires
            old(self).wf(),
        ensures
            final(self).wf(),
            final(self).module_info == old(self).module_info,
            final(self).listeners == old(self).listeners,
            final(self).unkown == old(self).unkown,
            final(self).config_slot == old(self).config_slot,
            final(self).css_slot == old(self).css_slot,
            final(self).first_run == old(self).first_run,
            final(self).strips@.len() == 3,
            ok <==> (old(self).strip_valid@[pos_index(pos)] && !resized) || strip_fits(tiles_at(old(self).module_info@, pos)),
            ok ==> final(self).strip_valid@[pos_index(pos)],
            old(self).strip_valid@[pos_index(pos)] && !resized ==> final(self).strips@ == old(self).strips@,
            forall|p: Position| #![trigger pos_index(p)] p != pos ==> final(self).strips@[pos_index(p)] == old(self).strips@[pos_index(p)]
                && final(self).strip_valid@[pos_index(p)] == old(self).strip_valid@[pos_index(p)],
    {
        let k = position_index(pos);
        if self.strip_valid[k] && !resized {
            return true;
        }
        proof {
            assert(caches_wf(self.module_info@)) by {
                assert forall|i: int| 0 <= i < self.module_info@.len() implies (#[trigger] self.module_info@[i]).cache.wf() by {
                    assert(self.module_info@[i].wf());
                }
            }
        }
        match strip_for(&self.module_info, pos) {
            Some(b) => {
                let ghost v0 = self.strip_valid@;
                let ghost s0 = self.strips@;
                self.strips.set(k, b);
                self.strip_valid.set(k, true);
                proof {
                    assert forall|p: Position| #![trigger pos_index(p)] self.strip_valid@[pos_index(p)] implies is_strip(
                        self.strips@[pos_index(p)],
                        tiles_at(self.module_info@, p),
                    ) by {
                        if p != pos {
                            assert(pos_index(p) != pos_index(pos));
                            assert(v0[pos_index(p)]);
                        }
                    }
                    assert forall|p: Position| #![trigger pos_index(p)] p != pos implies self.strips@[pos_index(p)] == s0[pos_index(p)]
                        && self.strip_valid@[pos_index(p)] == v0[pos_index(p)] by {
                        assert(pos_index(p) != pos_index(pos));
                    }
                }
                true
            },
            None => false,
        }
    }

    /// Composites the frame: each strip rebuilt only where its modules
    /// changed (or on resize), then the three strips laid over
    /// `background`. `None` when a strip cannot be held.
    pub fn composite(&mut self, background: &Bitmap, resized: bool) -> (r: Option<Bitmap>)
        requires
            old(self).wf(),
            background.wf(),
        ensures
            final(self).wf(),
            final(self).module_info == old(self).module_info,
            final(self).listeners == old(self).listeners,
            final(self).unkown == old(self).unkown,
            final(self).first_run == old(self).first_run,
            forall|p: Position| #![trigger pos_index(p)]
                old(self).strip_valid@[pos_index(p)] && !resized ==> final(self).strips@[pos_index(p)] == old(self).strips@[pos_index(p)],
            r is Some <==> forall|p: Position| #![trigger pos_index(p)]
                (old(self).strip_valid@[pos_index(p)] && !resized) || strip_fits(tiles_at(old(self).module_info@, p)),
            r matches Some(f) ==> {
                &&& f.wf()
                &&& f.width == background.width
                &&& f.height == background.height
                &&& forall|p: Position| #![trigger pos_index(p)] is_strip(final(self).strips@[pos_index(p)], tiles_at(final(self).module_info@, p))
                &&& forall|px: int, py: int|
                    0 <= px < f.width && 0 <= py < f.height ==> #[trigger] pixel_at(f.pixels@, f.width as nat, px, py)
                        == frame_pixel(
                        *background,
                        final(self).strips@[0],
                        final(self).strips@[1],
                        final(self).strips@[2],
                        px,
                        py,
                    )
            },
    {
        let ghost old_valid = self.strip_valid@;
        let ghost old_strips = self.strips@;
        let a = self.refresh_strip(Position::Left, resized);
        let b = self.refresh_strip(Position::Center, resized);
        let c = self.refresh_strip(Position::Right, resized);
        proof {
            assert(pos_index(Position::Left) == 0);
            assert(pos_index(Position::Center) == 1);
            assert(pos_index(Position::Right) == 2);
            assert forall|p: Position| #![trigger pos_index(p)]
                old_valid[pos_index(p)] && !resized implies self.strips@[pos_index(p)] == old_strips[pos_index(p)] by {
                match p {
                    Position::Left => {},
                    Position::Center => {},
                    Position::Right => {},
                }
            }
        }
        if !(a && b && c) {
            proof {
                if !a {
                    assert(!((old_valid[pos_index(Position::Left)] && !resized) || strip_fits(tiles_at(self.module_info@, Position::Left))));
                }
                if !b {
                    assert(!((old_valid[pos_index(Position::Center)] && !resized) || strip_fits(tiles_at(self.module_info@, Position::Center))));
                }
                if !c {
                    assert(!((old_valid[pos_index(Position::Right)] && !resized) || strip_fits(tiles_at(self.module_info@, Position::Right))));
                }
            }
            return None;
        }
        proof {
            assert forall|p: Position| #![trigger pos_index(p)] is_strip(self.strips@[pos_index(p)], tiles_at(self.module_info@, p)) by {
                match p {
                    Position::Left => {},
                    Position::Center => {},
                    Position::Right => {},
                }
            }
            assert(self.strips@[0].wf() && self.strips@[1].wf() && self.strips@[2].wf()) by {
                assert(is_strip(self.strips@[pos_index(Position::Left)], tiles_at(self.module_info@, Position::Left)));
                assert(is_strip(self.strips@[pos_index(Position::Center)], tiles_at(self.module_info@, Position::Center)));
                assert(is_strip(self.strips@[pos_index(Position::Right)], tiles_at(self.module_info@, Position::Right)));
            }
            assert forall|p: Position| #![trigger pos_index(p)]
                (old_valid[pos_index(p)] && !resized) || strip_fits(tiles_at(self.module_info@, p)) by {
                match p {
                    Position::Left => {},
                    Position::Center => {},
                    Position::Right => {},
                }
            }
        }
        let f = compose(background, &self.strips[0], &self.strips[1], &self.strips[2]);
        Some(f)
    }

    /// Applies a reloaded configuration. `None` (the file could not be
    /// parsed) leaves everything as it was; otherwise the engine is rebuilt
    /// from scratch for the new configuration, every module starting with
    /// no output so that all are probed again. The hub must be restarted.
    pub fn reload_config(
        &mut self,
        parsed: Option<Config>,
        env: &Environment,
        config_path: &String,
        css_path: &String,
    ) -> (reloaded: bool)
        requires
            old(self).wf(),
            parsed matches Some(c) ==> c.modules.left@.len() + c.modules.center@.len()
                + c.modules.right@.len() + 2 < usize::MAX,
        ensures
            final(self).wf(),
            reloaded == parsed is Some,
            parsed is None ==> *final(self) == *old(self),
            parsed matches Some(c) ==> {
                &&& final(self).unkown == c.unkown
                &&& final(self).topbar == c.topbar
                &&& final(self).layer == c.layer
                &&& final(self).height == c.height
                &&& placed(final(self).module_info@, c.modules, old(self).listeners.workspace_available, *env)
                &&& commands_of(final(self).module_info@) == runnable(c.modules.left@, old(self).listeners.workspace_available, *env)
                    + runnable(c.modules.center@, old(self).listeners.workspace_available, *env)
                    + runnable(c.modules.right@, old(self).listeners.workspace_available, *env)
                &&& forall|i: int| 0 <= i < final(self).module_info@.len() ==> (#[trigger] final(self).module_info@[i]).output@.len() == 0
                &&& !final(self).listeners.started
                &&& final(self).listeners.workspace_available == old(self).listeners.workspace_available
            },
    {
        match parsed {
            None => false,
            Some(c) => {
                let ws = self.listeners.workspace_available;
                let first_run = self.first_run;
                *self = StatusBar::new(c, env, ws, config_path, css_path);
                self.first_run = first_run;
                true
            },
        }
    }

    /// Whether to run a refresh and draw: something woke the bar, or
    /// nothing has been drawn yet.
    pub fn should_draw(&self, woke: bool) -> (r: bool)
        ensures
            r == (woke || self.first_run),
    {
        woke || self.first_run
    }

    /// Records that a frame reached the display.
    pub fn mark_drawn(&mut self)
        requires
            old(self).wf(),
        ensures
            final(self).wf(),
            !final(self).first_run,
            final(self).module_info == old(self).module_info,
            final(self).listeners == old(self).listeners,
            final(self).strips == old(self).strips,
            final(self).strip_valid == old(self).strip_valid,
    {
        self.first_run = false;
    }
}

/// Coalescing in the refresh pass: however many signals (n >= 1) reach a
/// module's slot before a pass, that pass probes it, and the next pass
/// (with no new signal and no configuration change) does not probe it
/// again, once the module has shown a value.
pub proof fn lemma_burst_probed_once(m: ModuleData, pending: Seq<bool>, n: nat)
    requires
        m.receiver < pending.len(),
        n >= 1,
        m.output@.len() > 0,
    ensures
        must_probe(m, signalled_times(pending, m.receiver as int, n), false),
        !must_probe(m, taken(signalled_times(pending, m.receiver as int, n), m.receiver as int), false),
{
    lemma_signals_coalesce(pending, m.receiver as int, n);
}

/// Coalescing through a whole refresh pass: when n >= 1 signals reached a
/// module's slot before the pass, the pass probes it once and the module
/// takes the value `v` read at that time (`took_probe`, as `refresh_pass`
/// states it); the next pass, with no new signal and no configuration
/// change, does not probe it again.
pub proof fn lemma_burst_refreshed_once(
    m0: ModuleData,
    m1: ModuleData,
    pending: Seq<bool>,
    n: nat,
    v: Seq<char>,
    text: Option<String>,
)
    requires
        m0.receiver < pending.len(),
        n >= 1,
        v.len() > 0,
        took_probe(m0, m1, v, false, text),
    ensures
        must_probe(m0, signalled_times(pending, m0.receiver as int, n), false),
        m1.output@ == v,
        !must_probe(m1, taken(signalled_times(pending, m0.receiver as int, n), m0.receiver as int), false),
{
    lemma_signals_coalesce(pending, m0.receiver as int, n);
}

} // verus!
