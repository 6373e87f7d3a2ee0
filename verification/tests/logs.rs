use pipelain::gui::{draw_log, UserInterfaceState};
use pipelain::logs::Log;

fn log_of(count: usize) -> Log {
    let mut log = Log::new();
    for i in 0..count {
        log.push(format!("entry {}", i));
    }
    log
}

#[test]
fn push_appends_at_the_end() {
    let mut log = Log::new();
    assert_eq!(log.len(), 0);
    log.push("first".to_string());
    log.push("second".to_string());
    assert_eq!(log.len(), 2);
    assert_eq!(log.entries, vec!["first".to_string(), "second".to_string()]);
}

#[test]
fn recent_is_newest_first_and_capped() {
    let log = log_of(7);
    assert_eq!(
        log.recent(5),
        vec!["entry 6", "entry 5", "entry 4", "entry 3", "entry 2"]
    );
    assert_eq!(log.recent(1), vec!["entry 6"]);
    assert!(log.recent(0).is_empty());
    assert_eq!(log.recent(100).len(), 7);
    assert_eq!(log.recent(100)[6], "entry 0");
    assert!(Log::new().recent(5).is_empty());
}

#[test]
fn log_panel_shows_min_of_five_and_all_entries() {
    let ui = UserInterfaceState::new(true);
    for (total, shown) in [(0, 0), (1, 1), (3, 3), (4, 4), (5, 5), (6, 5), (40, 5)] {
        let panel = draw_log(&ui, &log_of(total)).unwrap();
        assert_eq!(panel.lines.len(), shown);
    }
}

#[test]
fn log_panel_puts_the_newest_entry_on_top() {
    let ui = UserInterfaceState::new(true);
    let panel = draw_log(&ui, &log_of(8)).unwrap();
    let texts: Vec<&str> = panel.lines.iter().map(|l| l.text.as_str()).collect();
    assert_eq!(texts, vec!["entry 7", "entry 6", "entry 5", "entry 4", "entry 3"]);
    let rows: Vec<i32> = panel.lines.iter().map(|l| l.y).collect();
    assert_eq!(rows, vec![44, 45, 46, 47, 48]);
    assert!(panel.lines.iter().all(|l| l.x == 2));
}

#[test]
fn log_panel_with_three_entries() {
    let ui = UserInterfaceState::new(true);
    let mut log = Log::new();
    log.push("the game has fully loaded".to_string());
    log.push("press the apostrophe/grave key to show/hide the logs".to_string());
    log.push("press tab to show/hide the right side menu".to_string());
    let panel = draw_log(&ui, &log).unwrap();
    assert_eq!(panel.lines.len(), 3);
    assert_eq!(panel.lines[0].text, "press tab to show/hide the right side menu");
    assert_eq!(panel.lines[0].y, 44);
    assert_eq!(panel.lines[2].text, "the game has fully loaded");
    assert_eq!(panel.lines[2].y, 46);
}

#[test]
fn log_panel_frame_is_a_band_near_the_bottom() {
    let ui = UserInterfaceState::new(true);
    let panel = draw_log(&ui, &Log::new()).unwrap();
    assert_eq!(
        (panel.frame.x, panel.frame.y, panel.frame.width, panel.frame.height),
        (0, 43, 79, 6)
    );
}

#[test]
fn hidden_log_draws_nothing() {
    let mut ui = UserInterfaceState::new(true);
    ui.toggle_log();
    assert!(draw_log(&ui, &log_of(3)).is_none());
    ui.toggle_log();
    assert!(draw_log(&ui, &log_of(3)).is_some());
}
