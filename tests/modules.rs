use statusbar::listeners::Trigger;
use statusbar::modules::{
    audio, cpu_usage, get_command_output, get_cpu, get_current_workspace, persistant_workspaces,
    workspaces, AudioSettings, BacklightSettings, BatterySettings, Cmd, CpuSettings, CustomSettings,
    MemoryOpts, MemorySettings, PersistantWorkspacesIcons, Probe, WorkspacesIcons,
};
use statusbar::registry::split_path;

fn icons(active: &str, inactive: &str) -> WorkspacesIcons {
    WorkspacesIcons { active: active.to_string(), inactive: inactive.to_string() }
}

#[test]
fn workspace_list_marks_focused() {
    assert_eq!(workspaces(&icons("A", "a"), 2, 3), "a A a ");
    assert_eq!(workspaces(&icons("A", "a"), 1, 1), "A ");
    assert_eq!(workspaces(&icons("A", "a"), 1, 0), "");
}

#[test]
fn workspace_beyond_count_marks_last() {
    assert_eq!(workspaces(&icons("A", "a"), 7, 3), "a a A ");
}

#[test]
fn current_workspace_from_pair() {
    assert_eq!(get_current_workspace("X", "o", 3, 4), "o o X o ");
}

#[test]
fn persistant_workspaces_default_numbers() {
    let r = persistant_workspaces(&PersistantWorkspacesIcons(Vec::new()), 3);
    let z = '\u{200b}';
    let expected = format!("1{z}{z} 2{z}{z} 3{z} 4 5 6 7 8 9 10");
    assert_eq!(r, expected);
}

#[test]
fn persistant_workspaces_icons_by_state_and_number() {
    let table = vec![
        ("inactive".to_string(), " o ".to_string()),
        ("5".to_string(), "five".to_string()),
    ];
    let r = persistant_workspaces(&PersistantWorkspacesIcons(table), 1);
    let z = '\u{200b}';
    assert_eq!(r, format!("1{z} o o o o o o o o o"));
    let table = vec![("5".to_string(), "five".to_string())];
    let r = persistant_workspaces(&PersistantWorkspacesIcons(table), 0);
    assert_eq!(r, "1 2 3 4 five 6 7 8 9 10");
}

#[test]
fn audio_reads_first_channel() {
    assert_eq!(audio("0: 45% 1: 45%"), Some("45".to_string()));
    assert_eq!(audio("  0:   100%"), Some("100".to_string()));
    assert_eq!(audio("0:"), None);
    assert_eq!(audio(""), None);
}

#[test]
fn cpu_usage_from_idle_percentage() {
    assert_eq!(cpu_usage("all 1.0 0.5 97.50"), Some("2".to_string()));
    assert_eq!(cpu_usage("idle 97.00\n"), Some("3".to_string()));
    assert_eq!(cpu_usage("x 0"), Some("100".to_string()));
    assert_eq!(cpu_usage("x 100.00"), Some("0".to_string()));
    assert_eq!(get_cpu("x 12.3"), Some("87".to_string()));
}

#[test]
fn cpu_usage_rejects_bad_idle() {
    assert_eq!(cpu_usage(""), None);
    assert_eq!(cpu_usage("x %idle"), None);
    assert_eq!(cpu_usage("x 100.5"), None);
    assert_eq!(cpu_usage("x 101"), None);
    assert_eq!(cpu_usage("x 5.a"), None);
}

fn custom(command: &str) -> Cmd {
    Cmd::Custom(CustomSettings {
        command: command.to_string(),
        name: "date".to_string(),
        event: Trigger::TimePassed(60000),
        formatting: "%s".to_string(),
    })
}

#[test]
fn command_output_per_kind() {
    let t = |s: &str| Probe::Text(s.to_string());
    assert_eq!(get_command_output(&custom("date"), &t("  12:30\n")), Some("12:30".to_string()));
    let bl = Cmd::Backlight(BacklightSettings { formatting: "%s".to_string(), icons: Vec::new() });
    assert_eq!(get_command_output(&bl, &t("45.7")), Some("45".to_string()));
    assert_eq!(get_command_output(&bl, &t(" 5")), Some(" 5".to_string()));
    let cpu = Cmd::Cpu(CpuSettings { formatting: "%s".to_string(), interval: 5000 });
    assert_eq!(get_command_output(&cpu, &t("7")), Some("7".to_string()));
    let bat = Cmd::Battery(BatterySettings { formatting: "%s".to_string(), icons: Vec::new(), interval: 5000 });
    assert_eq!(get_command_output(&bat, &t("88\n")), Some("88".to_string()));
    let mem = Cmd::Memory(MemorySettings { memory_opts: MemoryOpts::PercUsed, interval: 5000, formatting: "%s".to_string() });
    assert_eq!(get_command_output(&mem, &t("31")), Some("31".to_string()));
    let au = Cmd::Audio(AudioSettings { formatting: "%s".to_string(), icons: Vec::new() });
    assert_eq!(get_command_output(&au, &Probe::Volume("0: 60% 1: 60%".to_string())), Some("60".to_string()));
    let ws = Cmd::Workspaces(icons("A", "a"));
    assert_eq!(get_command_output(&ws, &Probe::Workspaces { active: 1, count: 2 }), Some("A a ".to_string()));
}

#[test]
fn command_output_failures() {
    assert_eq!(get_command_output(&custom("nope"), &Probe::Failed), None);
    assert_eq!(get_command_output(&Cmd::WindowTitle, &Probe::Failed), Some(String::new()));
    assert_eq!(get_command_output(&Cmd::WindowTitle, &Probe::Text("vim".to_string())), Some("vim".to_string()));
}

#[test]
fn module_names_and_templates() {
    assert_eq!(Cmd::WindowTitle.name(), "title");
    assert_eq!(custom("date").name(), "date");
    assert_eq!(Cmd::WindowTitle.formatting(), "%s");
    let cpu = Cmd::Cpu(CpuSettings { formatting: "C %s%".to_string(), interval: 5000 });
    assert_eq!(cpu.name(), "cpu");
    assert_eq!(cpu.formatting(), "C %s%");
}

#[test]
fn paths_split_at_last_slash() {
    let (d, n) = split_path(&"/home/u/.config/bar/config.toml".to_string());
    assert_eq!((d.as_str(), n.as_str()), ("/home/u/.config/bar", "config.toml"));
    let (d, n) = split_path(&"/brightness".to_string());
    assert_eq!((d.as_str(), n.as_str()), ("/", "brightness"));
    let (d, n) = split_path(&"file".to_string());
    assert_eq!((d.as_str(), n.as_str()), ("", "file"));
}
