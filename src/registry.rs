//! Module registry entries: subscribing a configured module to the hub, and
//! deciding after each probe whether its tile must be rendered again.
use vstd::prelude::*;
use crate::bitmap::Bitmap;
use crate::format::{display_string, display_text, views_of};
use crate::listeners::{dir_names, file_names, Listeners, TimeListenerData, Trigger};
use crate::modules::{icons_of, template_of, Cmd};
use crate::text::{chars_of, s_tail, string_of};
use vstd::string::StringExecFns;

verus! {

/// The three slots of the bar.
#[derive(Clone, Copy, PartialEq, Eq, Structural, Debug)]
pub enum Position {
    Left,
    Center,
    Right,
}

/// One configured bar entry.
pub struct Module {
    pub command: Cmd,
}

/// What the machine offers to the modules, found out once at startup.
pub struct Environment {
    /// A battery is present.
    pub battery_present: bool,
    /// The directory of the backlight device, if there is one.
    pub backlight_dir: Option<String>,
}

/// Runtime state of one module.
pub struct ModuleData {
    /// Last probed value; empty until the first probe.
    pub output: String,
    pub command: Cmd,
    pub format: String,
    /// The module's wake slot in the listener hub.
    pub receiver: usize,
    /// Last rendered tile.
    pub cache: Bitmap,
    /// The tile was reused as it is in the last refresh pass.
    pub unchanged: bool,
    pub position: Position,
}

// ---------------------------------------------------------------- paths

/// Index of the last `/` among the first `n` characters of `p`, or -1.
pub open spec fn last_slash(p: Seq<char>, n: nat) -> int
    decreases n,
{
    if n == 0 || n > p.len() {
        -1
    } else if p[n - 1] == '/' {
        n - 1
    } else {
        last_slash(p, (n - 1) as nat)
    }
}

/// The directory part of a path: before its last `/` (`/` itself for a
/// file at the root, empty without a `/`).
pub open spec fn path_dir(p: Seq<char>) -> Seq<char> {
    let k = last_slash(p, p.len());
    if k < 0 {
        Seq::empty()
    } else if k == 0 {
        seq!['/']
    } else {
        p.subrange(0, k)
    }
}

/// The file-name part of a path: after its last `/`.
pub open spec fn path_name(p: Seq<char>) -> Seq<char> {
    p.subrange(last_slash(p, p.len()) + 1, p.len() as int)
}

/// Splits a path into its directory and file name.
pub fn split_path(path: &String) -> (r: (String, String))
    ensures
        r.0@ == path_dir(path@),
        r.1@ == path_name(path@),
{
    let p = chars_of(path.as_str());
    let n = p.len();
    let mut k: usize = n;
    while k > 0 && p[k - 1] != '/'
        invariant
            k <= n,
            n == p@.len(),
            p@ == path@,
            last_slash(p@, n as nat) == last_slash(p@, k as nat),
        decreases k,
    {
        k -= 1;
    }
    let name = s_tail(&p, k);
    let mut dir: Vec<char> = Vec::new();
    if k == 1 {
        dir.push('/');
        assert(dir@ =~= seq!['/']);
    } else if k > 1 {
        let mut i: usize = 0;
        while i < k - 1
            invariant
                i <= k - 1,
                k <= n,
                n == p@.len(),
                dir@ == p@.subrange(0, i as int),
            decreases k - 1 - i,
        {
            dir.push(p[i]);
            i += 1;
            assert(dir@ =~= p@.subrange(0, i as int));
        }
    }
    (string_of(&dir), string_of(&name))
}

// ---------------------------------------------------------------- subscribing

/// `h1` is `h0` with a countdown of `interval` for slot `s`.
pub open spec fn joins_timer(h0: Listeners, h1: Listeners, s: usize, interval: u64) -> bool {
    &&& h1.timers@ == h0.timers@.push(TimeListenerData { slot: s, interval, original_interval: interval })
    &&& h1.same_sources(&h0)
}

/// `h1` is `h0` with slot `s` subscribed to workspace changes.
pub open spec fn joins_workspace(h0: Listeners, h1: Listeners, s: usize) -> bool {
    &&& h1.workspace_subs@ == h0.workspace_subs@.push(s)
    &&& h1.timers@ == h0.timers@
    &&& h1.files@ == h0.files@
    &&& h1.dirs@ == h0.dirs@
    &&& h1.volume_subs@ == h0.volume_subs@
}

/// `h1` is `h0` with slot `s` subscribed to volume changes.
pub open spec fn joins_volume(h0: Listeners, h1: Listeners, s: usize) -> bool {
    &&& h1.volume_subs@ == h0.volume_subs@.push(s)
    &&& h1.timers@ == h0.timers@
    &&& h1.files@ == h0.files@
    &&& h1.dirs@ == h0.dirs@
    &&& h1.workspace_subs@ == h0.workspace_subs@
}

/// `h1` is `h0` with slot `s` waiting on the file `name` of directory `dir`.
pub open spec fn joins_file(h0: Listeners, h1: Listeners, s: usize, dir: Seq<char>, name: Seq<
    char,
>) -> bool {
    &&& file_names(h1.files@) == file_names(h0.files@).push(name)
    &&& h1.files@.last().slot == s
    &&& dir_names(h1.dirs@) == if dir_names(h0.dirs@).contains(dir) {
        dir_names(h0.dirs@)
    } else {
        dir_names(h0.dirs@).push(dir)
    }
    &&& h1.timers@ == h0.timers@
    &&& h1.workspace_subs@ == h0.workspace_subs@
    &&& h1.volume_subs@ == h0.volume_subs@
}

pub open spec fn brightness_name() -> Seq<char> {
    seq!['b', 'r', 'i', 'g', 'h', 't', 'n', 'e', 's', 's']
}

/// How a module of kind `cmd` is woken: its wake slot `s` was added to the
/// hub `h0`, giving `h1`.
pub open spec fn subscribed(h0: Listeners, h1: Listeners, cmd: Cmd, s: usize, backlight: Seq<char>) -> bool {
    &&& s == h0.pending@.len()
    &&& h1.pending@ == h0.pending@.push(false)
    &&& h1.workspace_available == h0.workspace_available
    &&& h1.started == h0.started
    &&& match cmd {
        Cmd::Workspaces(_) | Cmd::WindowTitle | Cmd::PersistantWorkspaces(_) => joins_workspace(h0, h1, s),
        Cmd::Memory(c) => joins_timer(h0, h1, s, c.interval),
        Cmd::Cpu(c) => joins_timer(h0, h1, s, c.interval),
        Cmd::Battery(c) => joins_timer(h0, h1, s, c.interval),
        Cmd::Backlight(_) => joins_file(h0, h1, s, backlight, brightness_name()),
        Cmd::Audio(_) => joins_volume(h0, h1, s),
        Cmd::Custom(c) => match c.event {
            Trigger::WorkspaceChanged => joins_workspace(h0, h1, s),
            Trigger::TimePassed(i) => joins_timer(h0, h1, s, i),
            Trigger::FileChange(p) => joins_file(h0, h1, s, path_dir(p@), path_name(p@)),
            Trigger::VolumeChanged => joins_volume(h0, h1, s),
        },
    }
}

/// The backlight directory, empty when there is none.
pub open spec fn backlight_of(env: Environment) -> Seq<char> {
    match env.backlight_dir {
        Some(d) => d@,
        None => Seq::empty(),
    }
}

/// Whether the kind needs the workspace source.
pub open spec fn needs_workspace(cmd: Cmd) -> bool {
    match cmd {
        Cmd::Workspaces(_) | Cmd::WindowTitle | Cmd::PersistantWorkspaces(_) => true,
        Cmd::Custom(c) => c.event is WorkspaceChanged,
        _ => false,
    }
}

/// Whether a module of kind `cmd` can run: its source exists.
pub open spec fn can_run(cmd: Cmd, workspace_available: bool, env: Environment) -> bool {
    &&& (needs_workspace(cmd) ==> workspace_available)
    &&& (cmd is Battery ==> env.battery_present)
    &&& (cmd is Backlight ==> env.backlight_dir is Some)
}

impl ModuleData {
    /// The cached tile is well formed.
    pub open spec fn wf(&self) -> bool {
        self.cache.wf()
    }

    /// Sets up a configured module: subscribes it to the hub for its
    /// trigger. `None`, with the hub untouched, when its source is missing
    /// (no supported compositor, no battery, no backlight): the module is
    /// then left out of the bar.
    pub fn new(listeners: &mut Listeners, module: Module, position: Position, env: &Environment) -> (r:
        Option<ModuleData>)
        requires
            old(listeners).wf(),
            old(listeners).pending@.len() < usize::MAX,
        ensures
            final(listeners).wf(),
            r is Some <==> can_run(module.command, old(listeners).workspace_available, *env),
            r is None ==> *final(listeners) == *old(listeners),
            r matches Some(m) ==> {
                &&& m.wf()
                &&& m.output@ == Seq::<char>::empty()
                &&& m.command == module.command
                &&& m.format@ == template_of(module.command)
                &&& m.position == position
                &&& !m.unchanged
                &&& m.cache.width == 0 && m.cache.height == 0
                &&& subscribed(
                    *old(listeners),
                    *final(listeners),
                    module.command,
                    m.receiver,
                    backlight_of(*env),
                )
            },
    {
        let ghost h0 = *listeners;
        let receiver: usize = match &module.command {
            Cmd::Workspaces(_) | Cmd::WindowTitle | Cmd::PersistantWorkspaces(_) => {
                match listeners.new_workspace_listener() {
                    Some(s) => s,
                    None => return None,
                }
            },
            Cmd::Battery(c) => {
                if !env.battery_present {
                    return None;
                }
                listeners.new_time_listener(c.interval)
            },
            Cmd::Memory(c) => listeners.new_time_listener(c.interval),
            Cmd::Cpu(c) => listeners.new_time_listener(c.interval),
            Cmd::Backlight(_) => match &env.backlight_dir {
                Some(dir) => {
                    let name = string_of(&vec!['b', 'r', 'i', 'g', 'h', 't', 'n', 'e', 's', 's']);
                    let (s, _) = listeners.new_file_listener(dir, &name);
                    s
                },
                None => return None,
            },
            Cmd::Audio(_) => listeners.new_volume_change_listener(),
            Cmd::Custom(c) => match &c.event {
                Trigger::WorkspaceChanged => match listeners.new_workspace_listener() {
                    Some(s) => s,
                    None => return None,
                },
                Trigger::TimePassed(i) => listeners.new_time_listener(*i),
                Trigger::FileChange(p) => {
                    let (dir, name) = split_path(p);
                    let (s, _) = listeners.new_file_listener(&dir, &name);
                    s
                },
                Trigger::VolumeChanged => listeners.new_volume_change_listener(),
            },
        };
        let format = module.command.formatting();
        Some(
            ModuleData {
                output: String::new(),
                command: module.command,
                format,
                receiver,
                cache: Bitmap::empty(),
                unchanged: false,
                position,
            },
        )
    }

    /// Takes the result of a probe (`None` when it failed, shown as
    /// `unknown`). When the value differs from the last one, or the
    /// configuration changed, it becomes the module's output and the text to
    /// render is returned; otherwise the cached tile stays and is marked
    /// unchanged.
    pub fn render(&mut self, probed: Option<String>, config_changed: bool, unknown: &String) -> (r:
        Option<String>)
        requires
            old(self).wf(),
        ensures
            final(self).wf(),
            final(self).command == old(self).command,
            final(self).format == old(self).format,
            final(self).receiver == old(self).receiver,
            final(self).position == old(self).position,
            final(self).cache == old(self).cache,
            render_step(
                *old(self),
                *final(self),
                match probed {
                    Some(v) => v@,
                    None => unknown@,
                },
                config_changed,
                r is Some,
            ),
            r matches Some(t) ==> t@ == render_text(
                old(self).command,
                old(self).format@,
                match probed {
                    Some(v) => v@,
                    None => unknown@,
                },
            ),
    {
        let output = match probed {
            Some(v) => v,
            None => unknown.clone(),
        };
        if !output.eq(&self.output) || config_changed {
            let text = match &self.command {
                Cmd::PersistantWorkspaces(_) => output.clone(),
                Cmd::Backlight(c) => display_string(self.format.as_str(), output.as_str(), &c.icons),
                Cmd::Audio(c) => display_string(self.format.as_str(), output.as_str(), &c.icons),
                Cmd::Battery(c) => display_string(self.format.as_str(), output.as_str(), &c.icons),
                _ => {
                    let none: Vec<String> = Vec::new();
                    proof {
                        assert(views_of(none@) =~= views_of(icons_of(self.command)));
                    }
                    display_string(self.format.as_str(), output.as_str(), &none)
                },
            };
            self.output = output;
            self.unchanged = false;
            Some(text)
        } else {
            self.unchanged = true;
            None
        }
    }

    /// Stores the freshly rendered tile.
    pub fn set_cache(&mut self, tile: Bitmap)
        requires
            old(self).wf(),
            tile.wf(),
        ensures
            final(self).wf(),
            final(self).cache == tile,
            final(self).output == old(self).output,
            final(self).command == old(self).command,
            final(self).format == old(self).format,
            final(self).receiver == old(self).receiver,
            final(self).position == old(self).position,
            final(self).unchanged == old(self).unchanged,
    {
        self.cache = tile;
    }
}

/// One probe result taken by a module: `m0` becomes `m1`, and `rendered`
/// says whether its tile must be drawn again. It is drawn again exactly
/// when the value differs from the last one or the configuration changed;
/// the value becomes the module's output either way.
pub open spec fn render_step(m0: ModuleData, m1: ModuleData, value: Seq<char>, config_changed: bool, rendered: bool) -> bool {
    &&& rendered == (value != m0.output@ || config_changed)
    &&& m1.output@ == value
    &&& m1.unchanged == !rendered
    &&& (!rendered ==> m1.output == m0.output)
}

/// No redundant render: once a module has taken a value, taking the same
/// value again with no configuration change in between draws nothing, and
/// its tile is reused.
pub proof fn lemma_no_redundant_render(
    m0: ModuleData,
    m1: ModuleData,
    m2: ModuleData,
    value: Seq<char>,
    config_changed: bool,
    first: bool,
    second: bool,
)
    requires
        render_step(m0, m1, value, config_changed, first),
        render_step(m1, m2, value, false, second),
    ensures
        !second,
        m2.unchanged,
        m2.output == m1.output,
{
}

/// The text rendered for `value`: the template filled in, or the value
/// itself for the fixed-workspaces kind, which lays out its own icons.
pub open spec fn render_text(cmd: Cmd, template: Seq<char>, value: Seq<char>) -> Seq<char> {
    if cmd is PersistantWorkspaces {
        value
    } else {
        display_text(template, value, views_of(icons_of(cmd)))
    }
}

} // verus!
