use keyforge::pipeline::{
    fold_emits, id_order_permutation, reorder_permutation, try_fold, Ctx, EmitEvent, Event, Pipeline, Processor, Side,
};
use keyforge::settings::Settings;

const EV_ABS: u16 = 3;
const EV_KEY: u16 = 1;

fn emit(ev_type: u16, code: u16, value: i32, hold_ms: Option<u64>) -> EmitEvent {
    EmitEvent { ev_type, code, value, hold_ms }
}

/// A plugin that emits the given events and may drop the original.
struct Emitter {
    id: String,
    emits: Vec<EmitEvent>,
    drop: bool,
}

impl Processor for Emitter {
    fn id(&self) -> &str {
        &self.id
    }

    fn process(&self, _event: &mut Event, ctx: &mut Ctx) {
        ctx.emits.extend(self.emits.iter().copied());
        if self.drop {
            ctx.drop_original = true;
        }
    }
}

/// A plugin that doubles the stick position it sees, recording what it saw.
struct Doubler {
    seen: std::sync::Arc<std::sync::Mutex<Vec<Event>>>,
}

impl Processor for Doubler {
    fn id(&self) -> &str {
        "doubler"
    }

    fn process(&self, event: &mut Event, _ctx: &mut Ctx) {
        self.seen.lock().unwrap().push(*event);
        if let Event::Stick { x, y, .. } = event {
            *x *= 2;
            *y *= 2;
        }
    }
}

fn named(id: &str) -> Box<dyn Processor> {
    Box::new(Emitter { id: id.to_string(), emits: vec![], drop: false })
}

#[test]
fn accessors_and_side_names() {
    let s = Event::Stick { x: 3, y: -4, side: Side::Left };
    assert_eq!((s.x(), s.y(), s.value(), s.code(), s.pressed()), (3, -4, 0, 0, false));
    let t = Event::Trigger { value: 9, side: Side::Right };
    assert_eq!((t.x(), t.y(), t.value(), t.code(), t.pressed()), (0, 0, 9, 0, false));
    let b = Event::Button { code: 304, pressed: true };
    assert_eq!((b.x(), b.y(), b.value(), b.code(), b.pressed()), (0, 0, 0, 304, true));
    assert_eq!(Side::Left.as_str(), "left");
    assert_eq!(Side::Right.as_str(), "right");
}

#[test]
fn try_fold_targets_only_the_event_itself() {
    let mut e = Event::Stick { x: 1, y: 2, side: Side::Left };
    assert!(try_fold(&emit(EV_ABS, 0, 10, None), &mut e));
    assert!(try_fold(&emit(EV_ABS, 1, 20, None), &mut e));
    assert_eq!(e, Event::Stick { x: 10, y: 20, side: Side::Left });
    assert!(!try_fold(&emit(EV_ABS, 3, 30, None), &mut e));
    assert_eq!(e, Event::Stick { x: 10, y: 20, side: Side::Left });

    let mut r = Event::Stick { x: 1, y: 2, side: Side::Right };
    assert!(!try_fold(&emit(EV_ABS, 0, 10, None), &mut r));
    assert!(try_fold(&emit(EV_ABS, 3, 30, None), &mut r));
    assert!(try_fold(&emit(EV_ABS, 4, 40, None), &mut r));
    assert_eq!(r, Event::Stick { x: 30, y: 40, side: Side::Right });

    let mut lt = Event::Trigger { value: 5, side: Side::Left };
    assert!(!try_fold(&emit(EV_ABS, 5, 50, None), &mut lt));
    assert!(try_fold(&emit(EV_ABS, 2, 60, None), &mut lt));
    assert_eq!(lt, Event::Trigger { value: 60, side: Side::Left });
    let mut rt = Event::Trigger { value: 5, side: Side::Right };
    assert!(try_fold(&emit(EV_ABS, 5, 70, None), &mut rt));
    assert_eq!(rt, Event::Trigger { value: 70, side: Side::Right });

    let mut b = Event::Button { code: 304, pressed: true };
    assert!(!try_fold(&emit(EV_ABS, 304, 0, None), &mut b));
    assert!(!try_fold(&emit(EV_KEY, 305, 0, None), &mut b));
    assert_eq!(b, Event::Button { code: 304, pressed: true });
    assert!(try_fold(&emit(EV_KEY, 304, 0, None), &mut b));
    assert_eq!(b, Event::Button { code: 304, pressed: false });
    assert!(try_fold(&emit(EV_KEY, 304, 7, None), &mut b));
    assert_eq!(b, Event::Button { code: 304, pressed: true });
}

#[test]
fn key_emits_never_fold_into_sticks_or_triggers() {
    let mut e = Event::Stick { x: 0, y: 0, side: Side::Left };
    assert!(!try_fold(&emit(EV_KEY, 1, 1, None), &mut e));
    assert!(!try_fold(&emit(EV_KEY, 0, 1, None), &mut e));
    assert_eq!(e, Event::Stick { x: 0, y: 0, side: Side::Left });
    let mut t = Event::Trigger { value: 4, side: Side::Left };
    assert!(!try_fold(&emit(EV_KEY, 2, 1, None), &mut t));
    assert_eq!(t, Event::Trigger { value: 4, side: Side::Left });
}

#[test]
fn fold_emits_keeps_holds_and_foreign_emits_in_order() {
    let mut e = Event::Stick { x: 1, y: 2, side: Side::Left };
    let mut ctx = Ctx::new(Settings::new(), Event::Stick { x: 1, y: 2, side: Side::Left });
    ctx.emits = vec![
        emit(EV_ABS, 0, 100, None),
        emit(EV_KEY, 304, 1, Some(50)),
        emit(EV_ABS, 0, 100, Some(5)),
        emit(EV_ABS, 3, 7, None),
        emit(EV_ABS, 0, 200, None),
    ];
    let folded = fold_emits(&mut e, &mut ctx);
    assert_eq!(e, Event::Stick { x: 200, y: 2, side: Side::Left });
    assert!(folded);
    assert!(!ctx.drop_original);
    assert_eq!(
        ctx.emits,
        vec![emit(EV_KEY, 304, 1, Some(50)), emit(EV_ABS, 0, 100, Some(5)), emit(EV_ABS, 3, 7, None)]
    );
    let (rest, dropped) = ctx.outcome(folded);
    assert_eq!(rest.len(), 3);
    assert!(!dropped);
}

#[test]
fn outcome_drops_only_without_a_fold() {
    let mut ctx = Ctx::new(Settings::new(), Event::Stick { x: 1, y: 2, side: Side::Left });
    ctx.drop_original = true;
    assert!(ctx.outcome(false).1);
    let mut ctx = Ctx::new(Settings::new(), Event::Stick { x: 1, y: 2, side: Side::Left });
    ctx.drop_original = true;
    assert!(!ctx.outcome(true).1);
}

#[test]
fn empty_pipeline_changes_nothing() {
    let p: Pipeline = Pipeline::new();
    let mut e = Event::Trigger { value: 3, side: Side::Left };
    let (emits, dropped) = p.run(&mut e, &Settings::new());
    assert!(emits.is_empty());
    assert!(!dropped);
    assert_eq!(e, Event::Trigger { value: 3, side: Side::Left });
}

#[test]
fn a_drop_with_a_replacement_keeps_the_replaced_event() {
    let mut p: Pipeline = Pipeline::new();
    p.add(Box::new(Emitter {
        id: "deadzone".into(),
        emits: vec![emit(EV_ABS, 0, 0, None), emit(EV_ABS, 1, 0, None)],
        drop: true,
    }));
    let mut e = Event::Stick { x: 100, y: -50, side: Side::Left };
    let (emits, dropped) = p.run(&mut e, &Settings::new());
    assert!(emits.is_empty());
    assert!(!dropped);
    assert_eq!(e, Event::Stick { x: 0, y: 0, side: Side::Left });
}

#[test]
fn a_drop_without_a_replacement_suppresses_the_event() {
    let mut p: Pipeline = Pipeline::new();
    p.add(Box::new(Emitter {
        id: "macro".into(),
        emits: vec![emit(EV_KEY, 305, 1, Some(100)), emit(EV_ABS, 5, 9, None)],
        drop: true,
    }));
    let mut e = Event::Button { code: 304, pressed: true };
    let (emits, dropped) = p.run(&mut e, &Settings::new());
    assert!(dropped);
    assert_eq!(emits, vec![emit(EV_KEY, 305, 1, Some(100)), emit(EV_ABS, 5, 9, None)]);
    assert_eq!(e, Event::Button { code: 304, pressed: true });
}

#[test]
fn later_plugins_see_what_earlier_ones_folded() {
    let seen = std::sync::Arc::new(std::sync::Mutex::new(vec![]));
    let doubler = Box::new(Doubler { seen: seen.clone() });
    let mut p: Pipeline = Pipeline::new();
    p.add(Box::new(Emitter { id: "a".into(), emits: vec![emit(EV_ABS, 3, 11, None)], drop: false }));
    p.add(doubler);
    let mut e = Event::Stick { x: 1, y: 2, side: Side::Right };
    let (emits, dropped) = p.run(&mut e, &Settings::new());
    assert!(emits.is_empty());
    assert!(!dropped);
    assert_eq!(e, Event::Stick { x: 22, y: 4, side: Side::Right });
    assert_eq!(seen.lock().unwrap().clone(), vec![Event::Stick { x: 11, y: 2, side: Side::Right }]);
}

#[test]
fn reorder_puts_listed_ids_first_and_keeps_the_rest_in_order() {
    let mut p: Pipeline = Pipeline::new();
    for id in ["zeta", "curve", "alpha", "deadzone", "beta"] {
        p.add(named(id));
    }
    p.reorder(&[String::from("deadzone"), String::from("zeta"), String::from("missing")]);
    assert_eq!(p.plugin_ids(), vec!["deadzone", "zeta", "curve", "alpha", "beta"]);
    p.reorder(&[String::from("deadzone"), String::from("zeta"), String::from("missing")]);
    assert_eq!(p.plugin_ids(), vec!["deadzone", "zeta", "curve", "alpha", "beta"]);
}

#[test]
fn reorder_appends_unlisted_steps_in_their_order() {
    let mut p: Pipeline = Pipeline::new();
    for id in ["b", "a", "c"] {
        p.add(named(id));
    }
    p.reorder(&[String::from("c")]);
    assert_eq!(p.plugin_ids(), vec!["c", "b", "a"]);
}

#[test]
fn add_appends_the_step_id_last() {
    let mut p: Pipeline = Pipeline::new();
    p.add(named("x"));
    p.add(named("y"));
    assert_eq!(p.plugin_ids(), vec!["x", "y"]);
    p.add(named("a"));
    assert_eq!(p.plugin_ids(), vec!["x", "y", "a"]);
}

#[test]
fn reorder_keeps_equal_ids_in_order_and_uses_first_listing() {
    let mut p: Pipeline = Pipeline::new();
    p.add(Box::new(Emitter { id: "b".into(), emits: vec![emit(EV_KEY, 7, 0, None)], drop: false }));
    p.add(named("a"));
    p.add(Box::new(Emitter { id: "b".into(), emits: vec![emit(EV_KEY, 7, 1, None)], drop: false }));
    p.reorder(&[String::from("b"), String::from("a"), String::from("b")]);
    assert_eq!(p.plugin_ids(), vec!["b", "b", "a"]);
    // The first "b" still runs first: its emit is folded first, the second wins.
    let mut e = Event::Button { code: 7, pressed: false };
    p.run(&mut e, &Settings::new());
    assert_eq!(e, Event::Button { code: 7, pressed: true });
}

#[test]
fn reorder_permutation_values() {
    let ids: Vec<String> = ["zeta", "curve", "alpha", "deadzone", "beta"].iter().map(|s| s.to_string()).collect();
    let order = vec![String::from("deadzone"), String::from("zeta")];
    assert_eq!(reorder_permutation(&ids, &order), vec![3, 0, 1, 2, 4]);
    assert_eq!(reorder_permutation(&ids, &[]), vec![0, 1, 2, 3, 4]);
    assert_eq!(reorder_permutation(&[], &order), Vec::<usize>::new());
    let same: Vec<String> = ["x", "x", "x"].iter().map(|s| s.to_string()).collect();
    assert_eq!(reorder_permutation(&same, &[]), vec![0, 1, 2]);
    assert_eq!(id_order_permutation(&ids), vec![2, 4, 1, 3, 0]);
    assert_eq!(id_order_permutation(&same), vec![0, 1, 2]);
    let prefixes: Vec<String> = ["ab", "a", "", "b"].iter().map(|s| s.to_string()).collect();
    assert_eq!(id_order_permutation(&prefixes), vec![2, 1, 0, 3]);
}

#[test]
fn sort_and_reverse_steps() {
    let mut p: Pipeline = Pipeline::new();
    for id in ["c", "a", "b"] {
        p.add(named(id));
    }
    p.sort_steps_by_id();
    assert_eq!(p.plugin_ids(), vec!["a", "b", "c"]);
    p.reverse_steps();
    assert_eq!(p.plugin_ids(), vec!["c", "b", "a"]);
}

#[test]
fn step_output_is_appended_and_drops_stick() {
    let mut ctx = Ctx::new(Settings::new(), Event::Stick { x: 1, y: 2, side: Side::Left });
    ctx.emits = vec![emit(EV_KEY, 1, 1, None)];
    let mut out = vec![emit(EV_KEY, 2, 1, None), emit(EV_ABS, 0, 5, None)];
    ctx.add_step_output(&mut out, false);
    assert!(out.is_empty());
    assert_eq!(ctx.emits, vec![emit(EV_KEY, 1, 1, None), emit(EV_KEY, 2, 1, None), emit(EV_ABS, 0, 5, None)]);
    assert!(!ctx.drop_original);
    ctx.add_step_output(&mut vec![], true);
    assert!(ctx.drop_original);
    ctx.add_step_output(&mut vec![], false);
    assert!(ctx.drop_original);
}

/// A plugin that records the raw stick values it is handed, then moves the stick.
struct RawRecorder {
    seen: std::sync::Arc<std::sync::Mutex<Vec<(i32, i32)>>>,
}

impl Processor for RawRecorder {
    fn id(&self) -> &str {
        "raw"
    }

    fn process(&self, event: &mut Event, ctx: &mut Ctx) {
        self.seen.lock().unwrap().push((ctx.raw.x(), ctx.raw.y()));
        if let Event::Stick { x, y, .. } = event {
            *x += 100;
            *y += 100;
        }
        ctx.raw = Event::Stick { x: -1, y: -1, side: Side::Left };
    }
}

#[test]
fn every_step_sees_the_raw_event() {
    let seen = std::sync::Arc::new(std::sync::Mutex::new(vec![]));
    let mut p: Pipeline = Pipeline::new();
    p.add(Box::new(RawRecorder { seen: seen.clone() }));
    p.add(Box::new(RawRecorder { seen: seen.clone() }));
    let mut e = Event::Stick { x: 3, y: 4, side: Side::Left };
    p.run(&mut e, &Settings::new());
    assert_eq!(e, Event::Stick { x: 203, y: 204, side: Side::Left });
    assert_eq!(seen.lock().unwrap().clone(), vec![(3, 4), (3, 4)]);
}
