//! The closed set of module kinds, their settings, and what each kind makes
//! of a raw probe reading.
use vstd::prelude::*;
use crate::format::{parsed_usize, parse_usize};
use crate::listeners::Trigger;
use crate::text::{chars_of, push_all, replace_all, replaced, string_of};
use vstd::string::StringExecFns;
use crate::words::{
    before_char, cut_at, decimal_text, push_decimal, split_words, trim, trimmed, views, words,
};

verus! {

pub struct WorkspacesIcons {
    pub active: String,
    pub inactive: String,
}

/// Icons of the fixed workspaces 1 to 10, keyed by workspace number, or by
/// `active` / `inactive` for all of them.
pub struct PersistantWorkspacesIcons(pub Vec<(String, String)>);

pub struct AudioSettings {
    pub formatting: String,
    pub icons: Vec<String>,
}

pub struct BacklightSettings {
    pub formatting: String,
    pub icons: Vec<String>,
}

pub struct BatterySettings {
    pub formatting: String,
    pub icons: Vec<String>,
    pub interval: u64,
}

pub enum BatteryOpts {
    Capacity,
    Status,
}

pub struct CpuSettings {
    pub formatting: String,
    pub interval: u64,
}

pub enum MemoryOpts {
    Used,
    Free,
    PercUsed,
    PercFree,
}

pub struct MemorySettings {
    pub memory_opts: MemoryOpts,
    pub interval: u64,
    pub formatting: String,
}

pub enum BacklightOpts {
    Perc,
    Value,
}

pub enum RamOpts {
    Used,
    Free,
    PercUsed,
    PercFree,
}

pub struct CustomSettings {
    pub command: String,
    pub name: String,
    pub event: Trigger,
    pub formatting: String,
}

/// The kind of a module, with its settings.
pub enum Cmd {
    Custom(CustomSettings),
    Workspaces(WorkspacesIcons),
    PersistantWorkspaces(PersistantWorkspacesIcons),
    Backlight(BacklightSettings),
    Memory(MemorySettings),
    Audio(AudioSettings),
    Cpu(CpuSettings),
    Battery(BatterySettings),
    WindowTitle,
}

/// A raw reading of a module's data source.
pub enum Probe {
    /// Text read from a file or a command's standard output.
    Text(String),
    /// The number of the focused workspace and how many workspaces there are.
    Workspaces { active: usize, count: usize },
    /// The audio server's printout of the default sink's channel volumes.
    Volume(String),
    /// The source could not be read.
    Failed,
}

// ---------------------------------------------------------------- workspaces

/// Whether workspace `i` (from 0) of `length` is shown as the active one:
/// the focused one, or the last one when the focused number lies beyond.
pub open spec fn shows_active(active: nat, length: nat, i: nat) -> bool {
    i + 1 == active || (i + 1 == length && active > length)
}

/// The first `n` workspace icons, each followed by `sep`.
pub open spec fn workspace_text(
    act: Seq<char>,
    inact: Seq<char>,
    sep: Seq<char>,
    active: nat,
    length: nat,
    n: nat,
) -> Seq<char>
    decreases n,
{
    if n == 0 {
        Seq::empty()
    } else {
        let i = (n - 1) as nat;
        workspace_text(act, inact, sep, active, length, i) + (if shows_active(active, length, i) {
            act
        } else {
            inact
        }) + sep
    }
}

fn workspace_row(act: &str, inact: &str, active: usize, length: usize) -> (r: String)
    ensures
        r@ == workspace_text(act@, inact@, seq![' '], active as nat, length as nat, length as nat),
{
    let a = chars_of(act);
    let b = chars_of(inact);
    let mut out: Vec<char> = Vec::new();
    let mut i: usize = 0;
    while i < length
        invariant
            i <= length,
            a@ == act@,
            b@ == inact@,
            out@ == workspace_text(act@, inact@, seq![' '], active as nat, length as nat, i as nat),
        decreases length - i,
    {
        let mark = (active >= 1 && i == active - 1) || (length >= 1 && i == length - 1 && active
            > length);
        if mark {
            push_all(&mut out, &a);
        } else {
            push_all(&mut out, &b);
        }
        out.push(' ');
        i += 1;
        assert(out@ =~= workspace_text(
            act@,
            inact@,
            seq![' '],
            active as nat,
            length as nat,
            i as nat,
        ));
    }
    string_of(&out)
}

/// The workspace list: one icon per workspace followed by a space, the
/// active icon for the focused workspace.
pub fn workspaces(icons: &WorkspacesIcons, active_workspace: usize, length: usize) -> (r: String)
    ensures
        r@ == workspace_text(
            icons.active@,
            icons.inactive@,
            seq![' '],
            active_workspace as nat,
            length as nat,
            length as nat,
        ),
{
    workspace_row(icons.active.as_str(), icons.inactive.as_str(), active_workspace, length)
}

/// The workspace list from a pair of icons.
pub fn get_current_workspace(active: &str, inactive: &str, active_workspace: usize, length: usize) -> (r:
    String)
    ensures
        r@ == workspace_text(
            active@,
            inactive@,
            seq![' '],
            active_workspace as nat,
            length as nat,
            length as nat,
        ),
{
    workspace_row(active, inactive, active_workspace, length)
}

/// The value of the first entry of `icons` keyed `key`.
pub open spec fn lookup(icons: Seq<(String, String)>, key: Seq<char>) -> Option<Seq<char>>
    decreases icons.len(),
{
    if icons.len() == 0 {
        None
    } else if icons[0].0@ == key {
        Some(icons[0].1@)
    } else {
        lookup(icons.drop_first(), key)
    }
}

pub open spec fn active_key() -> Seq<char> {
    seq!['a', 'c', 't', 'i', 'v', 'e']
}

pub open spec fn inactive_key() -> Seq<char> {
    seq!['i', 'n', 'a', 'c', 't', 'i', 'v', 'e']
}

pub open spec fn zero_width_space() -> char {
    '\u{200b}'
}

/// The icon of fixed workspace `i` (from 1): the `active` / `inactive`
/// entry, else the entry of its number, else its number; trimmed, then
/// marked with zero-width spaces (two before the focused one, one on it).
pub open spec fn persistant_icon(icons: Seq<(String, String)>, active: nat, i: nat) -> Seq<char> {
    let index = decimal_text(i);
    let key = if i == active {
        active_key()
    } else {
        inactive_key()
    };
    let base = match lookup(icons, key) {
        Some(v) => v,
        None => match lookup(icons, index) {
            Some(v) => v,
            None => index,
        },
    };
    let t = trimmed(base);
    if i != active && i < active {
        t.push(zero_width_space()).push(zero_width_space())
    } else if i == active {
        t.push(zero_width_space())
    } else {
        t
    }
}

/// Icons of the fixed workspaces 1 to `n`, separated by single spaces.
pub open spec fn persistant_text(icons: Seq<(String, String)>, active: nat, n: nat) -> Seq<char>
    decreases n,
{
    if n <= 1 {
        persistant_icon(icons, active, 1)
    } else {
        persistant_text(icons, active, (n - 1) as nat).push(' ') + persistant_icon(icons, active, n)
    }
}

fn lookup_icon(icons: &Vec<(String, String)>, key: &String) -> (r: Option<String>)
    ensures
        r matches Some(v) ==> lookup(icons@, key@) == Some(v@),
        r is None ==> lookup(icons@, key@) is None,
{
    let mut j: usize = 0;
    assert(icons@.subrange(0, icons@.len() as int) =~= icons@);
    while j < icons.len()
        invariant
            j <= icons@.len(),
            lookup(icons@, key@) == lookup(icons@.subrange(j as int, icons@.len() as int), key@),
        decreases icons@.len() - j,
    {
        let ghost rest = icons@.subrange(j as int, icons@.len() as int);
        assert(rest.drop_first() =~= icons@.subrange(j + 1, icons@.len() as int));
        assert(rest[0] == icons@[j as int]);
        if icons[j].0.eq(key) {
            return Some(icons[j].1.clone());
        }
        j += 1;
    }
    None
}

/// The fixed workspaces 1 to 10 as one line of icons.
pub fn persistant_workspaces(icons: &PersistantWorkspacesIcons, active_workspace: usize) -> (r: String)
    ensures
        r@ == persistant_text(icons.0@, active_workspace as nat, 10),
{
    let act_key = string_of(&vec!['a', 'c', 't', 'i', 'v', 'e']);
    let inact_key = string_of(&vec!['i', 'n', 'a', 'c', 't', 'i', 'v', 'e']);
    let mut out: Vec<char> = Vec::new();
    let mut i: usize = 1;
    while i <= 10
        invariant
            1 <= i <= 11,
            act_key@ == active_key(),
            inact_key@ == inactive_key(),
            i == 1 ==> out@ == Seq::<char>::empty(),
            i > 1 ==> out@ == persistant_text(icons.0@, active_workspace as nat, (i - 1) as nat),
        decreases 11 - i,
    {
        let mut index: Vec<char> = Vec::new();
        push_decimal(&mut index, i);
        assert(index@ =~= decimal_text(i as nat));
        let is_active = active_workspace == i;
        let key = if is_active { &act_key } else { &inact_key };
        let base: Vec<char> = match lookup_icon(&icons.0, key) {
            Some(v) => chars_of(v.as_str()),
            None => {
                let index_s = string_of(&index);
                match lookup_icon(&icons.0, &index_s) {
                    Some(v) => chars_of(v.as_str()),
                    None => index,
                }
            },
        };
        let mut icon = trim(&base);
        if !is_active && i < active_workspace {
            icon.push('\u{200b}');
            icon.push('\u{200b}');
        } else if is_active {
            icon.push('\u{200b}');
        }
        assert(icon@ =~= persistant_icon(icons.0@, active_workspace as nat, i as nat));
        if i > 1 {
            out.push(' ');
        }
        push_all(&mut out, &icon);
        proof {
            if i == 1 {
                assert(out@ =~= persistant_text(icons.0@, active_workspace as nat, 1));
            } else {
                assert(out@ =~= persistant_text(icons.0@, active_workspace as nat, i as nat));
            }
        }
        i += 1;
    }
    string_of(&out)
}

// ---------------------------------------------------------------- volume, cpu

/// The volume of the first channel as the audio server prints channel
/// volumes (`0: 45% 1: 45%`): the second word, without `%`.
pub open spec fn volume_text(printed: Seq<char>) -> Option<Seq<char>> {
    let w = words(printed);
    if w.len() >= 2 {
        Some(replaced(w[1], seq!['%'], Seq::empty()))
    } else {
        None
    }
}

/// Reads the volume out of the audio server's printout of channel volumes.
pub fn audio(printed: &str) -> (r: Option<String>)
    ensures
        r matches Some(v) ==> volume_text(printed@) == Some(v@),
        r is None ==> volume_text(printed@) is None,
{
    let s = chars_of(printed);
    let w = split_words(&s);
    if w.len() < 2 {
        return None;
    }
    let pct: Vec<char> = vec!['%'];
    let empty: Vec<char> = Vec::new();
    assert(pct@ =~= seq!['%']);
    assert(views(w@)[1] == w@[1]@);
    let out = replace_all(&w[1], &pct, &empty);
    Some(string_of(&out))
}

pub open spec fn all_digits(s: Seq<char>) -> bool {
    forall|i: int| 0 <= i < s.len() ==> crate::format::is_digit(#[trigger] s[i])
}

pub open spec fn has_nonzero(s: Seq<char>) -> bool {
    exists|i: int| 0 <= i < s.len() && #[trigger] s[i] != '0'
}

/// The digits after the first `.` of `t` (none without a `.`).
pub open spec fn fraction_of(t: Seq<char>) -> Seq<char> {
    let ip = before_char(t, '.');
    if ip.len() < t.len() {
        t.subrange(ip.len() + 1int, t.len() as int)
    } else {
        Seq::empty()
    }
}

/// The whole percent of busy time when the last word of `s` is the idle
/// percentage: `100 - idle` cut to its integer part, computed exactly.
/// The idle word is read only in the plain decimal form a statistics
/// command prints: digits, optionally a `.` and more digits, at most 100.
/// `None` when the word is missing or has any other form (a leading `.`,
/// an exponent, a sign, a value above 100).
pub open spec fn busy_percent(s: Seq<char>) -> Option<nat> {
    let w = words(s);
    if w.len() == 0 {
        None
    } else {
        let t = w.last();
        let ip = before_char(t, '.');
        let fp = fraction_of(t);
        match parsed_usize(ip) {
            Some(idle) => if all_digits(fp) && (idle < 100 || (idle == 100 && !has_nonzero(fp))) {
                if has_nonzero(fp) {
                    Some((99 - idle) as nat)
                } else {
                    Some((100 - idle) as nat)
                }
            } else {
                None
            },
            None => None,
        }
    }
}

/// The busy percentage from the output of a CPU statistics command whose
/// last word is the idle percentage in plain decimal form (see
/// [`busy_percent`] for the forms read).
pub fn cpu_usage(output: &str) -> (r: Option<String>)
    ensures
        r matches Some(v) ==> busy_percent(output@) matches Some(n) && v@ == decimal_text(n),
        r is None ==> busy_percent(output@) is None,
{
    let s = chars_of(output);
    let w = split_words(&s);
    if w.len() == 0 {
        return None;
    }
    let t = &w[w.len() - 1];
    assert(views(w@).last() == t@);
    let ip = cut_at(t, '.');
    let mut frac: Vec<char> = Vec::new();
    if ip.len() < t.len() {
        let mut k: usize = ip.len() + 1;
        while k < t.len()
            invariant
                ip@.len() + 1 <= k <= t@.len(),
                frac@ == t@.subrange(ip@.len() + 1int, k as int),
            decreases t@.len() - k,
        {
            frac.push(t[k]);
            k += 1;
            assert(frac@ =~= t@.subrange(ip@.len() + 1int, k as int));
        }
    }
    assert(frac@ =~= fraction_of(t@));
    let idle = match parse_usize(&ip) {
        Some(v) => v,
        None => return None,
    };
    let mut digits_ok = true;
    let mut nonzero = false;
    let mut k: usize = 0;
    while k < frac.len()
        invariant
            k <= frac@.len(),
            digits_ok == all_digits(frac@.subrange(0, k as int)),
            nonzero == has_nonzero(frac@.subrange(0, k as int)),
        decreases frac@.len() - k,
    {
        let c = frac[k];
        let ghost pre = frac@.subrange(0, k as int);
        let ghost nxt = frac@.subrange(0, k + 1);
        assert(nxt =~= pre.push(c));
        if !('0' <= c && c <= '9') {
            digits_ok = false;
        }
        if c != '0' {
            nonzero = true;
            assert(nxt[k as int] != '0');
        }
        proof {
            if has_nonzero(nxt) && !has_nonzero(pre) {
                let j = choose|j: int| 0 <= j < nxt.len() && #[trigger] nxt[j] != '0';
                if j < k {
                    assert(pre[j] == nxt[j]);
                }
            }
            if has_nonzero(pre) {
                let j = choose|j: int| 0 <= j < pre.len() && #[trigger] pre[j] != '0';
                assert(nxt[j] == pre[j]);
            }
            if !all_digits(nxt) && all_digits(pre) {
                let j = choose|j: int| 0 <= j < nxt.len() && !crate::format::is_digit(#[trigger] nxt[j]);
                if j < k {
                    assert(pre[j] == nxt[j]);
                }
            }
        }
        k += 1;
    }
    assert(frac@.subrange(0, frac@.len() as int) =~= frac@);
    if !digits_ok || idle > 100 || (idle == 100 && nonzero) {
        return None;
    }
    let busy: usize = if nonzero { 99 - idle } else { 100 - idle };
    let mut out: Vec<char> = Vec::new();
    push_decimal(&mut out, busy);
    assert(out@ =~= decimal_text(busy as nat));
    Some(string_of(&out))
}

/// The busy percentage from `mpstat` output; the same reading as [`cpu_usage`].
pub fn get_cpu(output: &str) -> (r: Option<String>)
    ensures
        r matches Some(v) ==> busy_percent(output@) matches Some(n) && v@ == decimal_text(n),
        r is None ==> busy_percent(output@) is None,
{
    cpu_usage(output)
}

// ---------------------------------------------------------------- per kind

/// What a module of kind `cmd` shows for the reading `probe`; `None` when
/// the reading failed (or does not fit the kind).
pub open spec fn command_output(cmd: Cmd, probe: Probe) -> Option<Seq<char>> {
    match (cmd, probe) {
        (Cmd::Custom(_), Probe::Text(t)) => Some(trimmed(t@)),
        (Cmd::Workspaces(ic), Probe::Workspaces { active, count }) => Some(
            workspace_text(ic.active@, ic.inactive@, seq![' '], active as nat, count as nat, count as nat),
        ),
        (Cmd::PersistantWorkspaces(ic), Probe::Workspaces { active, count: _ }) => Some(
            persistant_text(ic.0@, active as nat, 10),
        ),
        (Cmd::Audio(_), Probe::Volume(p)) => volume_text(p@),
        (Cmd::Backlight(_), Probe::Text(t)) => Some(before_char(t@, '.')),
        (Cmd::Cpu(_), Probe::Text(t)) => Some(before_char(t@, '.')),
        (Cmd::Battery(_), Probe::Text(t)) => Some(trimmed(t@)),
        (Cmd::Memory(_), Probe::Text(t)) => Some(t@),
        (Cmd::WindowTitle, Probe::Text(t)) => Some(t@),
        (Cmd::WindowTitle, Probe::Failed) => Some(Seq::empty()),
        _ => None,
    }
}

/// Turns a raw reading into the value a module shows.
pub fn get_command_output(command: &Cmd, probe: &Probe) -> (r: Option<String>)
    ensures
        r matches Some(v) ==> command_output(*command, *probe) == Some(v@),
        r is None ==> command_output(*command, *probe) is None,
{
    match (command, probe) {
        (Cmd::Custom(_), Probe::Text(t)) => Some(string_of(&trim(&chars_of(t.as_str())))),
        (Cmd::Workspaces(ic), Probe::Workspaces { active, count }) => Some(
            workspaces(ic, *active, *count),
        ),
        (Cmd::PersistantWorkspaces(ic), Probe::Workspaces { active, count: _ }) => Some(
            persistant_workspaces(ic, *active),
        ),
        (Cmd::Audio(_), Probe::Volume(p)) => audio(p.as_str()),
        (Cmd::Backlight(_), Probe::Text(t)) | (Cmd::Cpu(_), Probe::Text(t)) => Some(
            string_of(&cut_at(&chars_of(t.as_str()), '.')),
        ),
        (Cmd::Battery(_), Probe::Text(t)) => Some(string_of(&trim(&chars_of(t.as_str())))),
        (Cmd::Memory(_), Probe::Text(t)) | (Cmd::WindowTitle, Probe::Text(t)) => Some(t.clone()),
        (Cmd::WindowTitle, Probe::Failed) => Some(String::new()),
        _ => None,
    }
}

/// The style name of a module kind.
pub open spec fn module_name(cmd: Cmd) -> Seq<char> {
    match cmd {
        Cmd::PersistantWorkspaces(_) => "persistant_workspaces"@,
        Cmd::Workspaces(_) => "workspaces"@,
        Cmd::Memory(_) => "memory"@,
        Cmd::Cpu(_) => "cpu"@,
        Cmd::Battery(_) => "battery"@,
        Cmd::Backlight(_) => "backlight"@,
        Cmd::Audio(_) => "audio"@,
        Cmd::WindowTitle => "title"@,
        Cmd::Custom(c) => c.name@,
    }
}

/// The display template of a module kind; kinds without one show the bare value.
pub open spec fn template_of(cmd: Cmd) -> Seq<char> {
    match cmd {
        Cmd::Custom(c) => c.formatting@,
        Cmd::Backlight(c) => c.formatting@,
        Cmd::Memory(c) => c.formatting@,
        Cmd::Audio(c) => c.formatting@,
        Cmd::Cpu(c) => c.formatting@,
        Cmd::Battery(c) => c.formatting@,
        _ => "%s"@,
    }
}

/// The icon table of a module kind (empty for kinds without icons).
pub open spec fn icons_of(cmd: Cmd) -> Seq<String> {
    match cmd {
        Cmd::Backlight(c) => c.icons@,
        Cmd::Audio(c) => c.icons@,
        Cmd::Battery(c) => c.icons@,
        _ => Seq::empty(),
    }
}

impl Cmd {
    /// The style name of this kind.
    pub fn name(&self) -> (r: String)
        ensures
            r@ == module_name(*self),
    {
        match self {
            Cmd::PersistantWorkspaces(_) => String::from_str("persistant_workspaces"),
            Cmd::Workspaces(_) => String::from_str("workspaces"),
            Cmd::Memory(_) => String::from_str("memory"),
            Cmd::Cpu(_) => String::from_str("cpu"),
            Cmd::Battery(_) => String::from_str("battery"),
            Cmd::Backlight(_) => String::from_str("backlight"),
            Cmd::Audio(_) => String::from_str("audio"),
            Cmd::WindowTitle => String::from_str("title"),
            Cmd::Custom(c) => c.name.clone(),
        }
    }

    /// The display template of this kind.
    pub fn formatting(&self) -> (r: String)
        ensures
            r@ == template_of(*self),
    {
        match self {
            Cmd::Custom(c) => c.formatting.clone(),
            Cmd::Backlight(c) => c.formatting.clone(),
            Cmd::Memory(c) => c.formatting.clone(),
            Cmd::Audio(c) => c.formatting.clone(),
            Cmd::Cpu(c) => c.formatting.clone(),
            Cmd::Battery(c) => c.formatting.clone(),
            _ => String::from_str("%s"),
        }
    }
}

} // verus!
