use keyforge::daemon::{connect_start, connect_step, ConnectAction, ConnectEvent, ConnectState};
use keyforge::daemon::{
    finish_button, finish_stick, finish_trigger, flush_emits, process_button, process_stick,
    process_trigger, read_verdict, take_due_releases, wait_timeout_ms, Pending, ReadVerdict,
    Release, Route,
};
use keyforge::daemon::{config_check_due, readiness, Readiness};
use keyforge::device::Device;
use keyforge::evdev::EpollEvent;
use keyforge::evdev::{InputEvent, TimeVal};
use keyforge::pipeline::{Ctx, EmitEvent, Event, Pipeline, Processor, Side};
use keyforge::settings::Settings;

fn ev(type_: u16, code: u16, value: i32) -> InputEvent {
    InputEvent { time: TimeVal { tv_sec: 12, tv_usec: 34 }, type_, code, value }
}

fn emit(ev_type: u16, code: u16, value: i32, hold_ms: Option<u64>) -> EmitEvent {
    EmitEvent { ev_type, code, value, hold_ms }
}

#[test]
fn routing_records_sticks() {
    let mut d = Device::new(None);
    assert_eq!(d.route(&ev(3, 0, 100)), Route::Recorded);
    assert_eq!(d.route(&ev(3, 1, -5)), Route::Recorded);
    assert_eq!(d.route(&ev(3, 4, 7)), Route::Recorded);
    assert_eq!((d.lx, d.ly, d.ry, d.ld, d.rd), (100, -5, 7, true, true));
    assert_eq!(d.route(&ev(3, 2, 9)), Route::Trigger(Side::Left));
    assert_eq!(d.route(&ev(3, 5, 9)), Route::Trigger(Side::Right));
    assert_eq!(d.route(&ev(3, 16, 1)), Route::Forward);
    assert_eq!(d.route(&ev(1, 304, 1)), Route::Button);
    assert_eq!(d.route(&ev(0, 0, 0)), Route::Report);
    assert_eq!(d.route(&ev(0, 1, 0)), Route::Forward);
    assert_eq!(d.route(&ev(4, 4, 0)), Route::Forward);
    assert_eq!(d.take_moved_sticks(), (Some((100, -5)), Some((0, 7))));
    assert_eq!(d.take_moved_sticks(), (None, None));
}

#[test]
fn emits_are_written_on_the_base_event_and_holds_scheduled() {
    let base = ev(3, 2, 50);
    let emits = vec![
        emit(1, 305, 1, Some(80)),
        emit(1, 306, 0, Some(80)),
        emit(3, 0, 9, Some(10)),
        emit(1, 307, 1, None),
    ];
    let (writes, releases) = flush_emits(&base, &emits);
    assert_eq!(writes, vec![ev(1, 305, 1), ev(1, 306, 0), ev(3, 0, 9), ev(1, 307, 1)]);
    assert_eq!(releases, vec![Release { delay_ms: 80, emit: emit(1, 305, 0, None) }]);
}

#[test]
fn trigger_and_button_outcomes() {
    let mut iev = ev(3, 2, 100);
    let (dropped, writes, _) = finish_trigger(&mut iev, &Event::Trigger { value: 7, side: Side::Left }, &[], false);
    assert!(!dropped && writes.is_empty());
    assert_eq!(iev, ev(3, 2, 7));
    let mut iev = ev(3, 2, 100);
    let (dropped, writes, _) = finish_trigger(&mut iev, &Event::Trigger { value: 7, side: Side::Left }, &[emit(1, 1, 1, None)], true);
    assert!(dropped);
    assert_eq!(writes, vec![ev(1, 1, 1)]);
    assert_eq!(iev, ev(3, 2, 100));

    let mut key = ev(1, 304, 2);
    finish_button(&mut key, &Event::Button { code: 305, pressed: true }, &[], false);
    assert_eq!(key, ev(1, 304, 1));
    let mut key = ev(1, 304, 1);
    finish_button(&mut key, &Event::Button { code: 304, pressed: false }, &[], false);
    assert_eq!(key, ev(1, 304, 0));
}

#[test]
fn stick_outcome_writes_both_axes_then_emits() {
    let report = ev(0, 0, 0);
    let (writes, releases) = finish_stick(&report, 3, 4, &Event::Stick { x: 10, y: -10, side: Side::Right }, &[emit(1, 9, 1, Some(5))], false);
    assert_eq!(writes, vec![ev(3, 3, 10), ev(3, 4, -10), ev(1, 9, 1)]);
    assert_eq!(releases, vec![Release { delay_ms: 5, emit: emit(1, 9, 0, None) }]);
}

#[test]
fn a_dropped_stick_writes_only_its_emits() {
    let report = ev(0, 0, 0);
    let (writes, releases) = finish_stick(&report, 3, 4, &Event::Stick { x: 10, y: -10, side: Side::Right }, &[emit(1, 9, 1, Some(5))], true);
    assert_eq!(writes, vec![ev(1, 9, 1)]);
    assert_eq!(releases, vec![Release { delay_ms: 5, emit: emit(1, 9, 0, None) }]);
}

struct DropSticks;
impl Processor for DropSticks {
    fn id(&self) -> &str {
        "drop-sticks"
    }
    fn process(&self, event: &mut Event, ctx: &mut Ctx) {
        if let Event::Stick { .. } = event {
            ctx.drop_original = true;
        }
    }
}

#[test]
fn a_stick_dropped_by_a_plugin_is_not_written() {
    let mut p: Pipeline = Pipeline::new();
    p.add(Box::new(DropSticks));
    let (writes, releases) = process_stick(&p, &Settings::new(), &ev(0, 0, 0), Side::Left, 5, 6, 0, 1);
    assert!(writes.is_empty() && releases.is_empty());
}

struct Invert;
impl Processor for Invert {
    fn id(&self) -> &str {
        "invert"
    }
    fn process(&self, event: &mut Event, ctx: &mut Ctx) {
        match event {
            Event::Trigger { value, .. } => *value = 255 - *value,
            Event::Stick { x, y, .. } => {
                *x = -*x;
                *y = -*y;
            }
            Event::Button { pressed, code } => {
                if *code == 316 {
                    ctx.drop_original = true;
                }
                *pressed = !*pressed;
            }
        }
    }
}

#[test]
fn events_through_a_pipeline() {
    let mut p: Pipeline = Pipeline::new();
    p.add(Box::new(Invert));
    let settings = Settings::new();
    let mut t = ev(3, 5, 55);
    let (dropped, writes, releases) = process_trigger(&p, &settings, &mut t, Side::Right);
    assert!(!dropped && writes.is_empty() && releases.is_empty());
    assert_eq!(t, ev(3, 5, 200));
    let mut k = ev(1, 304, 1);
    assert!(!process_button(&p, &settings, &mut k).0);
    assert_eq!(k, ev(1, 304, 0));
    let mut guide = ev(1, 316, 1);
    assert!(process_button(&p, &settings, &mut guide).0);
    assert_eq!(guide, ev(1, 316, 1));
    let (writes, _) = process_stick(&p, &settings, &ev(0, 0, 0), Side::Left, 5, 6, 0, 1);
    assert_eq!(writes, vec![ev(3, 0, -5), ev(3, 1, -6)]);
}

#[test]
fn due_releases_go_out_with_a_report_each() {
    let mut pending = vec![
        Pending { due_ms: 100, emit: emit(1, 1, 0, None) },
        Pending { due_ms: 300, emit: emit(1, 2, 0, None) },
        Pending { due_ms: 200, emit: emit(1, 3, 0, None) },
    ];
    let out = take_due_releases(&mut pending, 200);
    let zero = TimeVal { tv_sec: 0, tv_usec: 0 };
    let rel = |code| InputEvent { time: zero, type_: 1, code, value: 0 };
    let syn = InputEvent { time: zero, type_: 0, code: 0, value: 0 };
    assert_eq!(out, vec![rel(1), syn, rel(3), syn]);
    assert_eq!(pending, vec![Pending { due_ms: 300, emit: emit(1, 2, 0, None) }]);
    assert!(take_due_releases(&mut pending, 299).is_empty());
    assert_eq!(take_due_releases(&mut pending, 300).len(), 2);
    assert!(pending.is_empty());
}

#[test]
fn read_verdicts() {
    assert_eq!(read_verdict(24, 24, false, 0, true), ReadVerdict::Event);
    assert_eq!(read_verdict(24, 24, true, 0, false), ReadVerdict::Event);
    assert_eq!(read_verdict(0, 24, false, 0, true), ReadVerdict::Gone);
    assert_eq!(read_verdict(-1, 24, true, 11, true), ReadVerdict::Gone);
    assert_eq!(read_verdict(-1, 24, false, 19, true), ReadVerdict::Gone);
    assert_eq!(read_verdict(-1, 24, false, 11, false), ReadVerdict::Gone);
    assert_eq!(read_verdict(-1, 24, false, 11, true), ReadVerdict::Idle);
    assert_eq!(read_verdict(12, 24, false, 0, true), ReadVerdict::Idle);
}

#[test]
fn wait_is_short_while_releases_are_pending() {
    assert_eq!(wait_timeout_ms(&vec![]), 500);
    assert_eq!(wait_timeout_ms(&vec![Pending { due_ms: 1, emit: emit(1, 1, 0, None) }]), 50);
}

#[test]
fn readiness_sorts_wait_entries() {
    let events = [EpollEvent { events: 1, data: 4 }, EpollEvent { events: 0x11, data: 7 }];
    assert_eq!(readiness(&events, Some(4), Some(7)), Readiness { hotplug: true, input: true, hangup: true });
    assert_eq!(readiness(&events, None, Some(7)), Readiness { hotplug: false, input: true, hangup: true });
    assert_eq!(readiness(&events, Some(4), None), Readiness { hotplug: true, input: false, hangup: false });
    let quiet = [EpollEvent { events: 1, data: 7 }, EpollEvent::default()];
    assert_eq!(readiness(&quiet, Some(3), Some(7)), Readiness { hotplug: false, input: true, hangup: false });
    // An entry naming both the watch and the device counts as the watch.
    let same = [EpollEvent { events: 0x8, data: 5 }];
    assert_eq!(readiness(&same, Some(5), Some(5)), Readiness { hotplug: true, input: false, hangup: false });
    assert!(config_check_due(true, 0));
    assert!(config_check_due(false, 500));
    assert!(!config_check_due(false, 499));
}

#[test]
fn connecting_waits_a_second_and_retries_after_a_failure() {
    let (s, a) = connect_start();
    assert_eq!((s, a), (ConnectState::Searching, ConnectAction::Find));
    let (s, a) = connect_step(s, ConnectEvent::NotFound);
    assert_eq!(a, ConnectAction::Sleep(1000));
    let (s, a) = connect_step(s, ConnectEvent::Slept);
    assert_eq!(a, ConnectAction::Find);
    let (s, a) = connect_step(s, ConnectEvent::Found(7));
    assert_eq!(a, ConnectAction::Sleep(1000));
    let (s, a) = connect_step(s, ConnectEvent::Slept);
    assert_eq!(a, ConnectAction::CreateVirtual(7));
    let (s, a) = connect_step(s, ConnectEvent::CreateFailed);
    assert_eq!(a, ConnectAction::Release);
    let (s, a) = connect_step(s, ConnectEvent::Released);
    assert_eq!(a, ConnectAction::Sleep(1000));
    let (s, a) = connect_step(s, ConnectEvent::Slept);
    assert_eq!(a, ConnectAction::Find);
    let (s, _) = connect_step(s, ConnectEvent::Found(8));
    let (s, a) = connect_step(s, ConnectEvent::Slept);
    assert_eq!(a, ConnectAction::CreateVirtual(8));
    let (s, a) = connect_step(s, ConnectEvent::Created);
    assert_eq!((s, a), (ConnectState::Done, ConnectAction::Finish));
}
