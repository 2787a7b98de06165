use statusbar::bitmap::{combine_images, Bitmap};
use statusbar::compositor::compose;
use statusbar::engine::{Config, PositionedModules, StatusBar};
use statusbar::listeners::{Listeners, Trigger};
use statusbar::modules::{
    get_command_output, BatterySettings, Cmd, CustomSettings, Probe, WorkspacesIcons,
};
use statusbar::registry::{Environment, Module, ModuleData, Position};

fn solid(width: u32, height: u32, rgba: [u8; 4]) -> Bitmap {
    let mut pixels = Vec::new();
    for _ in 0..(width * height) {
        pixels.extend_from_slice(&rgba);
    }
    Bitmap { width, height, pixels }
}

fn pixel(b: &Bitmap, x: u32, y: u32) -> [u8; 4] {
    let i = ((y * b.width + x) * 4) as usize;
    [b.pixels[i], b.pixels[i + 1], b.pixels[i + 2], b.pixels[i + 3]]
}

fn clock() -> Module {
    Module {
        command: Cmd::Custom(CustomSettings {
            command: "date +%H:%M".to_string(),
            name: "date".to_string(),
            event: Trigger::TimePassed(60000),
            formatting: " %s".to_string(),
        }),
    }
}

fn workspaces_module() -> Module {
    Module {
        command: Cmd::Workspaces(WorkspacesIcons { active: "A".to_string(), inactive: "a".to_string() }),
    }
}

fn env() -> Environment {
    Environment { battery_present: false, backlight_dir: None }
}

fn bar(left: Vec<Module>, right: Vec<Module>) -> StatusBar {
    let config = Config {
        unkown: "N/A".to_string(),
        topbar: true,
        layer: "overlay".to_string(),
        height: 10,
        modules: PositionedModules { left, center: Vec::new(), right },
    };
    StatusBar::new(
        config,
        &env(),
        true,
        &"/home/u/.config/bar/config.toml".to_string(),
        &"/home/u/.config/bar/style.css".to_string(),
    )
}

#[test]
fn combine_places_tiles_side_by_side() {
    let a = solid(2, 1, [1, 1, 1, 255]);
    let b = solid(1, 2, [2, 2, 2, 255]);
    let s = combine_images(&vec![a, b]);
    assert_eq!((s.width, s.height), (3, 2));
    assert_eq!(pixel(&s, 0, 0), [1, 1, 1, 255]);
    assert_eq!(pixel(&s, 2, 0), [2, 2, 2, 255]);
    assert_eq!(pixel(&s, 0, 1), [0, 0, 0, 0]);
    assert_eq!(pixel(&s, 2, 1), [2, 2, 2, 255]);
}

#[test]
fn compose_lays_strips_left_center_right() {
    let bg = solid(10, 2, [9, 9, 9, 255]);
    let l = solid(2, 2, [1, 0, 0, 255]);
    let c = solid(2, 2, [0, 1, 0, 255]);
    let r = solid(3, 2, [0, 0, 1, 255]);
    let f = compose(&bg, &l, &c, &r);
    assert_eq!((f.width, f.height), (10, 2));
    assert_eq!(pixel(&f, 0, 0), [1, 0, 0, 255]);
    assert_eq!(pixel(&f, 2, 0), [9, 9, 9, 255]);
    assert_eq!(pixel(&f, 4, 1), [0, 1, 0, 255]);
    assert_eq!(pixel(&f, 6, 0), [9, 9, 9, 255]);
    assert_eq!(pixel(&f, 7, 0), [0, 0, 1, 255]);
    assert_eq!(pixel(&f, 9, 1), [0, 0, 1, 255]);
}

#[test]
fn compose_keeps_background_under_transparent_strip() {
    let bg = solid(4, 1, [5, 6, 7, 255]);
    let l = solid(4, 1, [0, 0, 0, 0]);
    let e = Bitmap::empty();
    let f = compose(&bg, &l, &e, &e);
    assert_eq!(f.pixels, bg.pixels);
}

#[test]
fn same_probe_value_is_not_rendered_twice() {
    let mut b = bar(Vec::new(), vec![clock()]);
    let first = b.apply_probe(0, Some("12:00".to_string()), false);
    assert_eq!(first, Some(" 12:00".to_string()));
    let second = b.apply_probe(0, Some("12:00".to_string()), false);
    assert_eq!(second, None);
    assert!(b.module_info[0].unchanged);
    let forced = b.apply_probe(0, Some("12:00".to_string()), true);
    assert_eq!(forced, Some(" 12:00".to_string()));
}

#[test]
fn failed_probe_shows_unknown_placeholder() {
    let mut b = bar(Vec::new(), vec![clock()]);
    assert_eq!(b.apply_probe(0, None, false), Some(" N/A".to_string()));
    assert_eq!(b.module_info[0].output, "N/A");
}

#[test]
fn invalid_configuration_changes_nothing() {
    let mut b = bar(vec![workspaces_module()], vec![clock()]);
    b.apply_probe(1, Some("09:15".to_string()), false);
    b.store_tile(1, solid(3, 2, [1, 2, 3, 255]));
    let before_outputs: Vec<String> = b.module_info.iter().map(|m| m.output.clone()).collect();
    let before_pending = b.listeners.pending.clone();
    b.listeners.file_changed(&"config.toml".to_string());
    let wakes = b.config_wakes();
    assert!(wakes.config);
    assert!(!wakes.css);
    let reloaded = b.reload_config(None, &env(), &"/c/config.toml".to_string(), &"/c/style.css".to_string());
    assert!(!reloaded);
    let after_outputs: Vec<String> = b.module_info.iter().map(|m| m.output.clone()).collect();
    assert_eq!(before_outputs, after_outputs);
    assert_eq!(b.module_info[1].cache.pixels, solid(3, 2, [1, 2, 3, 255]).pixels);
    assert_eq!(b.unkown, "N/A");
    assert_eq!(b.listeners.pending.len(), before_pending.len());
}

#[test]
fn valid_configuration_rebuilds_modules() {
    let mut b = bar(vec![workspaces_module()], vec![clock()]);
    b.apply_probe(1, Some("09:15".to_string()), false);
    let config = Config {
        unkown: "?".to_string(),
        topbar: false,
        layer: "background".to_string(),
        height: 30,
        modules: PositionedModules { left: Vec::new(), center: vec![clock()], right: Vec::new() },
    };
    assert!(b.reload_config(Some(config), &env(), &"/c/config.toml".to_string(), &"/c/style.css".to_string()));
    assert_eq!(b.module_info.len(), 1);
    assert_eq!(b.module_info[0].position, Position::Center);
    assert_eq!(b.module_info[0].output, "");
    assert_eq!(b.unkown, "?");
    assert_eq!(b.height, 30);
}

#[test]
fn modules_without_source_are_left_out() {
    let mut h = Listeners::new(false);
    let m = ModuleData::new(&mut h, workspaces_module(), Position::Left, &env());
    assert!(m.is_none());
    let battery = Module {
        command: Cmd::Battery(BatterySettings { formatting: "%s".to_string(), icons: Vec::new(), interval: 5000 }),
    };
    assert!(ModuleData::new(&mut h, battery, Position::Right, &env()).is_none());
    let many = Module {
        command: Cmd::Battery(BatterySettings {
            formatting: "%c".to_string(),
            icons: (0..101).map(|i| i.to_string()).collect(),
            interval: 5000,
        }),
    };
    let present = Environment { battery_present: true, backlight_dir: None };
    assert_eq!(h.pending.len(), 0);
    let mut m = ModuleData::new(&mut h, many, Position::Right, &present).unwrap();
    assert_eq!(h.pending.len(), 1);
    assert_eq!(m.render(Some("100".to_string()), false, &"N/A".to_string()), Some("100".to_string()));
}

#[test]
fn first_run_draws_without_signal() {
    let mut b = bar(Vec::new(), vec![clock()]);
    assert!(b.should_draw(false));
    b.mark_drawn();
    assert!(!b.should_draw(false));
    assert!(b.should_draw(true));
}

#[test]
fn end_to_end_workspace_change_redraws_only_start_strip() {
    let mut b = bar(vec![workspaces_module()], vec![clock()]);
    b.listeners.start_all();
    let background = solid(40, 4, [20, 15, 33, 255]);

    // startup: every module is probed, rendered and composited
    let probe = b.modules_to_probe(false);
    assert_eq!(probe, vec![true, true]);
    let ws = get_command_output(&b.module_info[0].command, &Probe::Workspaces { active: 1, count: 2 });
    let text = b.apply_probe(0, ws, false).unwrap();
    assert_eq!(text, "A a ");
    b.store_tile(0, solid(4, 4, [200, 0, 0, 255]));
    let text = b.apply_probe(1, Some("12:00".to_string()), false).unwrap();
    assert_eq!(text, " 12:00");
    b.store_tile(1, solid(6, 4, [0, 0, 200, 255]));
    assert!(b.any_changed());
    let first = b.composite(&background, false).unwrap();
    assert_eq!(pixel(&first, 0, 0), [200, 0, 0, 255]);
    assert_eq!(pixel(&first, 3, 3), [200, 0, 0, 255]);
    assert_eq!(pixel(&first, 4, 0), [20, 15, 33, 255]);
    assert_eq!(pixel(&first, 34, 0), [0, 0, 200, 255]);
    assert_eq!(pixel(&first, 39, 3), [0, 0, 200, 255]);
    assert_eq!(pixel(&first, 33, 0), [20, 15, 33, 255]);
    let end_strip = b.strips[2].pixels.clone();

    // a workspace change wakes only the workspaces module
    b.listeners.workspace_changed();
    let probe = b.modules_to_probe(false);
    assert_eq!(probe, vec![true, false]);
    let ws = get_command_output(&b.module_info[0].command, &Probe::Workspaces { active: 2, count: 2 });
    let text = b.apply_probe(0, ws, false).unwrap();
    assert_eq!(text, "a A ");
    b.store_tile(0, solid(4, 4, [0, 200, 0, 255]));
    assert!(!b.strip_valid[0]);
    assert!(b.strip_valid[2]);
    assert!(b.module_info[1].unchanged);
    assert!(!b.module_info[0].unchanged);
    let second = b.composite(&background, false).unwrap();
    assert_eq!(b.strips[2].pixels, end_strip);
    assert_eq!(pixel(&second, 0, 0), [0, 200, 0, 255]);
    let row = (first.width * 4) as usize;
    for y in 0..4usize {
        let from = y * row + 34 * 4;
        let to = (y + 1) * row;
        assert_eq!(first.pixels[from..to], second.pixels[from..to]);
    }
}

#[test]
fn right_modules_are_laid_out_reversed() {
    let mut b = bar(Vec::new(), vec![clock(), clock()]);
    b.apply_probe(0, Some("1".to_string()), false);
    b.store_tile(0, solid(1, 1, [1, 1, 1, 255]));
    b.apply_probe(1, Some("2".to_string()), false);
    b.store_tile(1, solid(1, 1, [2, 2, 2, 255]));
    let f = b.composite(&solid(5, 1, [0, 0, 0, 255]), false).unwrap();
    assert_eq!(pixel(&f, 3, 0), [2, 2, 2, 255]);
    assert_eq!(pixel(&f, 4, 0), [1, 1, 1, 255]);
}

#[test]
fn burst_of_wakes_probes_once() {
    let mut b = bar(Vec::new(), vec![clock()]);
    b.apply_probe(0, Some("10:00".to_string()), false);
    let slot = b.module_info[0].receiver;
    for _ in 0..4 {
        b.listeners.signal(slot);
    }
    assert_eq!(b.modules_to_probe(false), vec![true]);
    assert_eq!(b.modules_to_probe(false), vec![false]);
    assert_eq!(b.modules_to_probe(true), vec![true]);
}

#[test]
fn new_bitmap_is_transparent() {
    let b = Bitmap::new(3, 2);
    assert_eq!((b.width, b.height), (3, 2));
    assert_eq!(b.pixels, vec![0u8; 24]);
}

#[test]
fn backlight_module_watches_brightness_file() {
    let mut h = Listeners::new(false);
    let env = Environment { battery_present: false, backlight_dir: Some("/sys/class/backlight/intel".to_string()) };
    let m = Module {
        command: Cmd::Backlight(statusbar::modules::BacklightSettings { formatting: "%c %s%".to_string(), icons: Vec::new() }),
    };
    let md = ModuleData::new(&mut h, m, Position::Right, &env).unwrap();
    assert_eq!(md.receiver, 0);
    assert_eq!(h.files[0].name, "brightness");
    assert_eq!(h.dirs, vec!["/sys/class/backlight/intel".to_string()]);
    h.file_changed(&"brightness".to_string());
    assert!(h.take(md.receiver));
}

#[test]
fn refresh_pass_applies_only_planned_results() {
    let mut b = bar(vec![workspaces_module()], vec![clock()]);
    b.apply_probe(1, Some("08:00".to_string()), false);
    let plan = vec![true, false];
    let results = vec![Some("A a ".to_string()), Some("09:00".to_string())];
    let texts = b.refresh_pass(&plan, &results, false);
    assert_eq!(texts, vec![Some("A a ".to_string()), None]);
    assert_eq!(b.module_info[0].output, "A a ");
    assert_eq!(b.module_info[1].output, "08:00");
    let texts = b.refresh_pass(&vec![true, true], &vec![Some("A a ".to_string()), None], false);
    assert_eq!(texts, vec![None, Some(" N/A".to_string())]);
    assert!(b.module_info[0].unchanged);
}
