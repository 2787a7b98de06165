use statusbar::listeners::{Listeners, TimeListenerData};

#[test]
fn rapid_signals_coalesce_into_one_wake() {
    let mut h = Listeners::new(false);
    let s = h.new_time_listener(1000);
    for _ in 0..5 {
        h.signal(s);
    }
    assert!(h.take(s));
    assert!(!h.take(s));
}

#[test]
fn periodic_timers_fire_on_their_deadlines() {
    let mut h = Listeners::new(false);
    let fast = h.new_time_listener(1000);
    let slow = h.new_time_listener(5000);
    let mut now: u64 = 0;
    let mut fast_fires = Vec::new();
    let mut slow_fires = Vec::new();
    let mut sleeps = 0;
    while now < 5000 {
        let m = h.next_deadline().unwrap();
        h.advance(m);
        now += m;
        sleeps += 1;
        if h.take(fast) {
            fast_fires.push(now);
        }
        if h.take(slow) {
            slow_fires.push(now);
        }
    }
    assert_eq!(now, 5000);
    assert_eq!(sleeps, 5);
    assert_eq!(fast_fires, vec![1000, 2000, 3000, 4000, 5000]);
    assert_eq!(slow_fires, vec![5000]);
}

#[test]
fn advance_resets_and_shortens_countdowns() {
    let mut h = Listeners::new(false);
    h.new_time_listener(300);
    h.new_time_listener(700);
    assert_eq!(h.next_deadline(), Some(300));
    h.advance(300);
    assert_eq!(h.timers[0], TimeListenerData { slot: 0, interval: 300, original_interval: 300 });
    assert_eq!(h.timers[1], TimeListenerData { slot: 1, interval: 400, original_interval: 700 });
    assert!(h.pending[0]);
    assert!(!h.pending[1]);
}

#[test]
fn no_timers_no_deadline() {
    let h = Listeners::new(false);
    assert_eq!(h.next_deadline(), None);
}

#[test]
fn file_changes_fan_out_by_name() {
    let mut h = Listeners::new(false);
    let dir = "/sys/class/backlight/x".to_string();
    let (a, new_a) = h.new_file_listener(&dir, &"brightness".to_string());
    let (b, new_b) = h.new_file_listener(&dir, &"brightness".to_string());
    let (c, new_c) = h.new_file_listener(&dir, &"max_brightness".to_string());
    let (d, new_d) = h.new_file_listener(&"/etc".to_string(), &"brightness".to_string());
    assert!(new_a);
    assert!(!new_b);
    assert!(!new_c);
    assert!(new_d);
    assert_eq!(h.dirs.len(), 2);
    h.file_changed(&"brightness".to_string());
    assert!(h.take(a));
    assert!(h.take(b));
    assert!(!h.take(c));
    assert!(h.take(d));
    h.file_changed(&"unrelated".to_string());
    assert!(!h.take(a) && !h.take(b) && !h.take(c) && !h.take(d));
}

#[test]
fn one_workspace_event_wakes_every_subscriber() {
    let mut h = Listeners::new(true);
    let a = h.new_workspace_listener().unwrap();
    let b = h.new_workspace_listener().unwrap();
    let v = h.new_volume_change_listener();
    h.workspace_changed();
    assert!(h.take(a));
    assert!(h.take(b));
    assert!(!h.take(v));
    h.volume_changed();
    assert!(h.take(v));
    assert!(!h.take(a));
}

#[test]
fn workspace_listener_missing_without_compositor() {
    let mut h = Listeners::new(false);
    assert_eq!(h.new_workspace_listener(), None);
    assert_eq!(h.pending.len(), 0);
}

#[test]
fn start_reports_needed_workers_and_stop_allows_restart() {
    let mut h = Listeners::new(true);
    h.new_time_listener(10);
    h.new_volume_change_listener();
    let w = h.start_all();
    assert!(w.timers && w.volume);
    assert!(!w.files && !w.workspace);
    assert!(h.started);
    h.stop();
    assert!(!h.started);
    let w2 = h.start_all();
    assert_eq!(w, w2);
}

#[test]
fn timer_step_sleeps_once_per_distinct_deadline() {
    let mut h = Listeners::new(false);
    let a = h.new_time_listener(1000);
    let b = h.new_time_listener(5000);
    let c = h.new_time_listener(1000);
    let mut now = 0;
    let mut rounds = Vec::new();
    while now < 5000 {
        let (m, mut fired) = h.timer_step().unwrap();
        now += m;
        fired.sort();
        rounds.push((now, fired));
    }
    assert_eq!(
        rounds,
        vec![
            (1000, vec![a, c]),
            (2000, vec![a, c]),
            (3000, vec![a, c]),
            (4000, vec![a, c]),
            (5000, vec![a, b, c]),
        ]
    );
    assert!(h.take(b));
}

#[test]
fn timer_step_without_countdowns() {
    let mut h = Listeners::new(false);
    assert!(h.timer_step().is_none());
}
