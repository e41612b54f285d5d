use monb::cli::Arguments;
use monb::monitor::{
    apply_arguments, apply_setter_barg, clamp_to_range, saturating_add, saturating_sub,
    ApplyEvent, Monitor,
};
use monb::parser::{parse_barg, parse_bargs};
use monb::progressbar::{ProgressBarInfo, ProgressBarType};

fn device(index: usize, brightness: u32) -> Monitor {
    Monitor {
        index,
        name: format!("Monitor #{}", index),
        brightness,
        readable: true,
        writable: true,
    }
}

fn arguments(tokens: &[&str]) -> Arguments {
    let owned: Vec<String> = tokens.iter().map(|t| t.to_string()).collect();
    Arguments {
        flag_zero: false,
        progressbar_info: ProgressBarInfo { _type: ProgressBarType::Classic, length: 20 },
        bargs: parse_bargs(Some(&owned)).unwrap(),
    }
}

#[test]
fn global_fallback_skips_explicit_indices() {
    let mut devices = vec![device(1, 50), device(2, 50), device(3, 50)];
    let args = arguments(&["*:max", "2:20"]);
    apply_arguments(&mut devices, &args);
    assert_eq!(devices[0].brightness, 100);
    assert_eq!(devices[1].brightness, 20);
    assert_eq!(devices[2].brightness, 100);
}

#[test]
fn saturating_increment_clamps_to_hundred() {
    let mut devices = vec![device(1, 30)];
    let args = arguments(&["1:+200"]);
    let (events, _) = apply_arguments(&mut devices, &args);
    assert_eq!(events, vec![ApplyEvent::Written { index: 1, desired: 100 }]);
    assert_eq!(devices[0].brightness, 100);
}

#[test]
fn no_write_when_already_at_target() {
    let mut devices = vec![device(1, 50)];
    let args = arguments(&["1:50"]);
    let (events, _) = apply_arguments(&mut devices, &args);
    assert_eq!(events, vec![ApplyEvent::NoChange { index: 1 }]);
    assert_eq!(devices[0].brightness, 50);
}

#[test]
fn decrement_floors_at_zero() {
    let mut devices = vec![device(1, 10)];
    let args = arguments(&["1:-30"]);
    let (events, _) = apply_arguments(&mut devices, &args);
    assert_eq!(events, vec![ApplyEvent::Written { index: 1, desired: 0 }]);
    assert_eq!(devices[0].brightness, 0);
}

#[test]
fn absent_index_warns_and_skips() {
    let mut devices = vec![device(1, 50), device(2, 50)];
    let args = arguments(&["5:10", "2:30"]);
    let (events, _) = apply_arguments(&mut devices, &args);
    assert_eq!(
        events,
        vec![
            ApplyEvent::DeviceNotFound { index: 5 },
            ApplyEvent::Written { index: 2, desired: 30 },
        ]
    );
    assert_eq!(devices[0].brightness, 50);
    assert_eq!(devices[1].brightness, 30);
}

#[test]
fn read_failure_does_not_stop_other_devices() {
    let mut devices = vec![device(1, 50), device(2, 50), device(3, 50)];
    devices[1].readable = false;
    let args = arguments(&["*:80"]);
    let (events, _) = apply_arguments(&mut devices, &args);
    assert_eq!(
        events,
        vec![
            ApplyEvent::Written { index: 1, desired: 80 },
            ApplyEvent::ReadError { index: 2 },
            ApplyEvent::Written { index: 3, desired: 80 },
        ]
    );
    assert_eq!(devices[0].brightness, 80);
    assert_eq!(devices[1].brightness, 50);
    assert_eq!(devices[2].brightness, 80);
}

#[test]
fn write_failure_leaves_the_device_unchanged() {
    let mut devices = vec![device(1, 50)];
    devices[0].writable = false;
    let args = arguments(&["1:70"]);
    let (events, _) = apply_arguments(&mut devices, &args);
    assert_eq!(events, vec![ApplyEvent::WriteError { index: 1, desired: 70 }]);
    assert_eq!(devices[0].brightness, 50);
}

#[test]
fn overreporting_device_is_clamped_for_computation() {
    let mut devices = vec![device(1, 150)];
    let args = arguments(&["1:-10"]);
    let (events, _) = apply_arguments(&mut devices, &args);
    assert_eq!(events, vec![ApplyEvent::Written { index: 1, desired: 90 }]);
    assert_eq!(devices[0].brightness, 90);
}

#[test]
fn global_getter_renders_every_device() {
    let mut devices = vec![device(1, 50), device(2, 100)];
    let args = arguments(&["*:"]);
    let (_, lines) = apply_arguments(&mut devices, &args);
    assert_eq!(
        lines,
        vec![
            "Monitor #1 - [==========          ] 50%".to_string(),
            "Monitor #2 - [====================] 100%".to_string(),
        ]
    );
}

#[test]
fn indexed_getters_render_in_input_order() {
    let mut devices = vec![device(1, 10), device(2, 20)];
    let args = arguments(&["2:", "7:", "1:"]);
    let (events, lines) = apply_arguments(&mut devices, &args);
    assert_eq!(events, vec![ApplyEvent::DeviceNotFound { index: 7 }]);
    assert_eq!(lines.len(), 2);
    assert!(lines[0].starts_with("Monitor #2 - "));
    assert!(lines[1].starts_with("Monitor #1 - "));
}

#[test]
fn unreadable_device_renders_an_error_line() {
    let mut devices = vec![device(1, 10)];
    devices[0].readable = false;
    let args = arguments(&["1:"]);
    let (_, lines) = apply_arguments(&mut devices, &args);
    assert_eq!(lines, vec!["Monitor #1 - could not read brightness".to_string()]);
}

#[test]
fn setters_run_before_getters() {
    let mut devices = vec![device(1, 10)];
    let args = arguments(&["1:50", "1:"]);
    let (_, lines) = apply_arguments(&mut devices, &args);
    assert_eq!(lines, vec!["Monitor #1 - [==========          ] 50%".to_string()]);
}

#[test]
fn apply_setter_barg_reports_one_device() {
    let mut m = device(4, 20);
    let barg = parse_barg("4:+5").unwrap();
    let ev = apply_setter_barg(&mut m, &barg);
    assert_eq!(ev, ApplyEvent::Written { index: 4, desired: 25 });
    assert_eq!(m.brightness, 25);
}

#[test]
fn clamp_helpers_hold_at_the_boundaries() {
    assert_eq!(clamp_to_range(150, 0, 100), 100);
    assert_eq!(clamp_to_range(0, 0, 100), 0);
    assert_eq!(clamp_to_range(55, 0, 100), 55);
    assert_eq!(saturating_add(u32::MAX, 1), u32::MAX);
    assert_eq!(saturating_add(99, 1), 100);
    assert_eq!(saturating_sub(0, 1), 0);
    assert_eq!(saturating_sub(100, 100), 0);
}
