//! The decisions of the daemon's event loop: where each raw event goes, what
//! is written to the virtual device after the pipeline ran, and when held keys
//! are released.
use vstd::prelude::*;
use crate::device::Device;
use crate::evdev::{
    EpollEvent, InputEvent, TimeVal, ABS_RX, ABS_RY, ABS_RZ, ABS_X, ABS_Y, ABS_Z, EV_ABS, EV_KEY, EV_SYN,
    SYN_REPORT,
};
use crate::pipeline::{
    is_run, run_result, start_state, CtxView, EmitEvent, Event, Pipeline, Processor, Side,
};
use crate::settings::Settings;

verus! {

broadcast use vstd::seq_lib::group_seq_properties;

/// A key release to send after `delay_ms` milliseconds.
#[derive(Clone, Copy, Debug, PartialEq, Eq, Structural)]
pub struct Release {
    pub delay_ms: u64,
    pub emit: EmitEvent,
}

/// A key release that falls due at `due_ms`.
#[derive(Clone, Copy, Debug, PartialEq, Eq, Structural)]
pub struct Pending {
    pub due_ms: u64,
    pub emit: EmitEvent,
}

/// What the virtual device gets for an emit: the event `base` with the emit's
/// type, code and value.
pub open spec fn emitted(base: InputEvent, e: EmitEvent) -> InputEvent {
    InputEvent { type_: e.ev_type, code: e.code, value: e.value, ..base }
}

/// The release that an emit schedules: a key press with a hold duration is
/// released (value 0) after that many milliseconds.
pub open spec fn release_of(e: EmitEvent) -> Option<Release> {
    match e.hold_ms {
        Some(ms) => if e.value == 1 && e.ev_type == EV_KEY {
            Some(
                Release {
                    delay_ms: ms,
                    emit: EmitEvent { ev_type: e.ev_type, code: e.code, value: 0, hold_ms: None },
                },
            )
        } else {
            None
        },
        None => None,
    }
}

/// The releases that `emits` schedule, in order.
pub open spec fn releases(emits: Seq<EmitEvent>) -> Seq<Release>
    decreases emits.len(),
{
    if emits.len() == 0 {
        seq![]
    } else {
        match release_of(emits.last()) {
            Some(r) => releases(emits.drop_last()).push(r),
            None => releases(emits.drop_last()),
        }
    }
}

/// Turns the emits of a pipeline run into the events written to the virtual
/// device (each one `base` with the emit's type, code and value, in order)
/// and the key releases they schedule.
pub fn flush_emits(base: &InputEvent, emits: &[EmitEvent]) -> (r: (Vec<InputEvent>, Vec<Release>))
    ensures
        r.0@ == emits@.map_values(|e: EmitEvent| emitted(*base, e)),
        r.1@ == releases(emits@),
{
    let mut writes: Vec<InputEvent> = Vec::new();
    let mut rel: Vec<Release> = Vec::new();
    let mut i: usize = 0;
    while i < emits.len()
        invariant
            i <= emits@.len(),
            writes@ == emits@.take(i as int).map_values(|e: EmitEvent| emitted(*base, e)),
            rel@ == releases(emits@.take(i as int)),
        decreases emits@.len() - i,
    {
        let emit = emits[i];
        let mut se = *base;
        se.type_ = emit.ev_type;
        se.code = emit.code;
        se.value = emit.value;
        writes.push(se);
        assert(emits@.take(i + 1).drop_last() =~= emits@.take(i as int));
        match emit.hold_ms {
            Some(ms) => {
                if emit.value == 1 && emit.ev_type == EV_KEY as u16 {
                    rel.push(
                        Release {
                            delay_ms: ms,
                            emit: EmitEvent {
                                ev_type: emit.ev_type,
                                code: emit.code,
                                value: 0,
                                hold_ms: None,
                            },
                        },
                    );
                }
            },
            None => {},
        }
        assert(writes@ =~= emits@.take(i + 1).map_values(|e: EmitEvent| emitted(*base, e)));
        i = i + 1;
    }
    assert(emits@.take(i as int) =~= emits@);
    (writes, rel)
}

/// Where a raw event from the physical device goes.
#[derive(Clone, Copy, Debug, PartialEq, Eq, Structural)]
pub enum Route {
    /// A stick axis: its position was recorded and it is sent with the next report.
    Recorded,
    /// A trigger axis: it goes through the pipeline.
    Trigger(Side),
    /// A key: it goes through the pipeline.
    Button,
    /// The end of a report: pending stick movements go through the pipeline,
    /// then the report itself is forwarded.
    Report,
    /// Anything else is forwarded as it is.
    Forward,
}

/// The route of `iev` (see `Route`).
pub open spec fn route_of(iev: InputEvent) -> Route {
    if iev.type_ == EV_ABS {
        if iev.code == ABS_X || iev.code == ABS_Y || iev.code == ABS_RX || iev.code == ABS_RY {
            Route::Recorded
        } else if iev.code == ABS_Z {
            Route::Trigger(Side::Left)
        } else if iev.code == ABS_RZ {
            Route::Trigger(Side::Right)
        } else {
            Route::Forward
        }
    } else if iev.type_ == EV_KEY {
        Route::Button
    } else if iev.type_ == EV_SYN && iev.code == SYN_REPORT {
        Route::Report
    } else {
        Route::Forward
    }
}

/// The device after `iev` is routed: ABS_X/ABS_Y set the left stick and mark
/// it moved, ABS_RX/ABS_RY the right one; any other event leaves it alone.
pub open spec fn recorded(d: Device, iev: InputEvent) -> Device {
    if iev.type_ == EV_ABS && iev.code == ABS_X {
        Device { lx: iev.value, ld: true, ..d }
    } else if iev.type_ == EV_ABS && iev.code == ABS_Y {
        Device { ly: iev.value, ld: true, ..d }
    } else if iev.type_ == EV_ABS && iev.code == ABS_RX {
        Device { rx: iev.value, rd: true, ..d }
    } else if iev.type_ == EV_ABS && iev.code == ABS_RY {
        Device { ry: iev.value, rd: true, ..d }
    } else {
        d
    }
}

impl Device {
    /// Routes a raw event, recording stick positions: ABS_X/ABS_Y set the left
    /// stick and mark it moved, ABS_RX/ABS_RY the right one.
    pub fn route(&mut self, iev: &InputEvent) -> (r: Route)
        ensures
            r == route_of(*iev),
            *final(self) == recorded(*old(self), *iev),
    {
        let t = iev.type_ as i32;
        let c = iev.code as u32;
        if t == EV_ABS {
            if c == ABS_X {
                self.lx = iev.value;
                self.ld = true;
                Route::Recorded
            } else if c == ABS_Y {
                self.ly = iev.value;
                self.ld = true;
                Route::Recorded
            } else if c == ABS_RX {
                self.rx = iev.value;
                self.rd = true;
                Route::Recorded
            } else if c == ABS_RY {
                self.ry = iev.value;
                self.rd = true;
                Route::Recorded
            } else if c == ABS_Z {
                Route::Trigger(Side::Left)
            } else if c == ABS_RZ {
                Route::Trigger(Side::Right)
            } else {
                Route::Forward
            }
        } else if t == EV_KEY {
            Route::Button
        } else if t == EV_SYN && c == SYN_REPORT {
            Route::Report
        } else {
            Route::Forward
        }
    }

    /// At a report: the stick positions that moved since the last one (left,
    /// right), with their moved marks cleared.
    pub fn take_moved_sticks(&mut self) -> (r: (Option<(i32, i32)>, Option<(i32, i32)>))
        ensures
            r.0 == (if old(self).ld {
                Some((old(self).lx, old(self).ly))
            } else {
                None
            }),
            r.1 == (if old(self).rd {
                Some((old(self).rx, old(self).ry))
            } else {
                None
            }),
            *final(self) == (Device { ld: false, rd: false, ..*old(self) }),
    {
        let left = if self.ld {
            Some((self.lx, self.ly))
        } else {
            None
        };
        let right = if self.rd {
            Some((self.rx, self.ry))
        } else {
            None
        };
        self.ld = false;
        self.rd = false;
        (left, right)
    }
}

/// What a trigger event leads to once the pipeline turned it into `e` with
/// `emits`, dropping the original when `dropped`: the emits are written (on
/// the base of the raw event) and their releases scheduled; unless dropped,
/// the raw event is forwarded with the trigger's new value.
pub fn finish_trigger(iev: &mut InputEvent, e: &Event, emits: &[EmitEvent], dropped: bool) -> (r: (
    bool,
    Vec<InputEvent>,
    Vec<Release>,
))
    ensures
        r.0 == dropped,
        r.1@ == emits@.map_values(|x: EmitEvent| emitted(*old(iev), x)),
        r.2@ == releases(emits@),
        dropped ==> *final(iev) == *old(iev),
        !dropped ==> *final(iev) == (InputEvent { value: e.value(), ..*old(iev) }),
{
    let (writes, rel) = flush_emits(iev, emits);
    if dropped {
        return (true, writes, rel);
    }
    iev.value = e.value();
    (false, writes, rel)
}

/// Whether `r` and the raw event `after` are what `finish_trigger` makes of
/// the raw event `before` once the pipeline handed back `out` (the event, the
/// emits, whether the original is dropped).
pub open spec fn trigger_answer(
    before: InputEvent,
    out: (Event, Seq<EmitEvent>, bool),
    r: (bool, Vec<InputEvent>, Vec<Release>),
    after: InputEvent,
) -> bool {
    &&& r.0 == out.2
    &&& r.1@ == out.1.map_values(|x: EmitEvent| emitted(before, x))
    &&& r.2@ == releases(out.1)
    &&& out.2 ==> after == before
    &&& !out.2 ==> after == (InputEvent { value: out.0.value(), ..before })
}

/// Runs a trigger event through the pipeline and says what follows: whether
/// the raw event is dropped, the events to write, the releases to schedule.
/// The raw event gets the trigger's new value unless dropped (`finish_trigger`).
pub fn process_trigger<P: Processor>(
    pipeline: &Pipeline<P>,
    settings: &Settings,
    iev: &mut InputEvent,
    side: Side,
) -> (r: (bool, Vec<InputEvent>, Vec<Release>))
    ensures
        r.0 ==> *final(iev) == *old(iev),
        !r.0 ==> *final(iev) == (InputEvent { value: final(iev).value, ..*old(iev) }),
        exists|mids: Seq<(Event, CtxView)>|
            #[trigger] is_run(
                pipeline.steps(),
                start_state(Event::Trigger { value: old(iev).value, side }, settings@),
                mids,
            ) && trigger_answer(
                *old(iev),
                run_result(start_state(Event::Trigger { value: old(iev).value, side }, settings@), mids),
                r,
                *final(iev),
            ),
{
    let mut e = Event::Trigger { value: iev.value, side };
    let ghost e0 = e;
    let (emits, dropped) = pipeline.run(&mut e, settings);
    let r = finish_trigger(iev, &e, emits.as_slice(), dropped);
    proof {
        let start = start_state(e0, settings@);
        let mids = choose|mids: Seq<(Event, CtxView)>|
            #[trigger] is_run(pipeline.steps(), start, mids) && run_result(start, mids) == (
                e,
                emits@,
                dropped,
            );
        assert(is_run(pipeline.steps(), start, mids));
    }
    r
}

/// What a key event leads to once the pipeline turned it into `e` with
/// `emits`: the emits are written and their releases scheduled; unless
/// dropped, the raw event is forwarded with value 1 if the key is now pressed
/// and 0 if not (its code stays the raw one).
pub fn finish_button(iev: &mut InputEvent, e: &Event, emits: &[EmitEvent], dropped: bool) -> (r: (
    bool,
    Vec<InputEvent>,
    Vec<Release>,
))
    ensures
        r.0 == dropped,
        r.1@ == emits@.map_values(|x: EmitEvent| emitted(*old(iev), x)),
        r.2@ == releases(emits@),
        dropped ==> *final(iev) == *old(iev),
        !dropped ==> *final(iev) == (InputEvent {
            value: if e.pressed() {
                1i32
            } else {
                0i32
            },
            ..*old(iev)
        }),
{
    let (writes, rel) = flush_emits(iev, emits);
    if dropped {
        return (true, writes, rel);
    }
    iev.value = if e.pressed() {
        1
    } else {
        0
    };
    (false, writes, rel)
}

/// The button event that a raw key event starts the pipeline with: its code,
/// pressed unless its value is 0.
pub open spec fn key_event(iev: InputEvent) -> Event {
    Event::Button { code: iev.code, pressed: iev.value != 0 }
}

/// Whether `r` and the raw event `after` are what `finish_button` makes of
/// the raw key event `before` once the pipeline handed back `out` (the event,
/// the emits, whether the original is dropped).
pub open spec fn button_answer(
    before: InputEvent,
    out: (Event, Seq<EmitEvent>, bool),
    r: (bool, Vec<InputEvent>, Vec<Release>),
    after: InputEvent,
) -> bool {
    &&& r.0 == out.2
    &&& r.1@ == out.1.map_values(|x: EmitEvent| emitted(before, x))
    &&& r.2@ == releases(out.1)
    &&& out.2 ==> after == before
    &&& !out.2 ==> after == (InputEvent {
        value: if out.0.pressed() {
            1i32
        } else {
            0i32
        },
        ..before
    })
}

/// Runs a key event through the pipeline; see `finish_button`.
pub fn process_button<P: Processor>(
    pipeline: &Pipeline<P>,
    settings: &Settings,
    iev: &mut InputEvent,
) -> (r: (bool, Vec<InputEvent>, Vec<Release>))
    ensures
        r.0 ==> *final(iev) == *old(iev),
        !r.0 ==> *final(iev) == (InputEvent { value: final(iev).value, ..*old(iev) }),
        !r.0 ==> final(iev).value == 0 || final(iev).value == 1,
        exists|mids: Seq<(Event, CtxView)>|
            #[trigger] is_run(
                pipeline.steps(),
                start_state(key_event(*old(iev)), settings@),
                mids,
            ) && button_answer(
                *old(iev),
                run_result(
                    start_state(key_event(*old(iev)), settings@),
                    mids,
                ),
                r,
                *final(iev),
            ),
{
    let mut e = Event::Button { code: iev.code, pressed: iev.value != 0 };
    let ghost e0 = e;
    let (emits, dropped) = pipeline.run(&mut e, settings);
    let r = finish_button(iev, &e, emits.as_slice(), dropped);
    proof {
        let start = start_state(e0, settings@);
        let mids = choose|mids: Seq<(Event, CtxView)>|
            #[trigger] is_run(pipeline.steps(), start, mids) && run_result(start, mids) == (
                e,
                emits@,
                dropped,
            );
        assert(is_run(pipeline.steps(), start, mids));
    }
    r
}

/// The axis writes of a stick at position `e` on the base of `report`: x on
/// `code_x`, then y on `code_y`, as absolute events.
pub open spec fn stick_writes(report: InputEvent, code_x: u16, code_y: u16, e: Event) -> Seq<InputEvent> {
    seq![
        InputEvent { type_: EV_ABS as u16, code: code_x, value: e.x(), ..report },
        InputEvent { type_: EV_ABS as u16, code: code_y, value: e.y(), ..report },
    ]
}

/// What a stick movement leads to once the pipeline turned it into `e` with
/// `emits`: unless the run dropped it, the stick's two axes are written with
/// the event's new position (`stick_writes`); then the emits, on the base of
/// the report, with their releases.
pub fn finish_stick(
    report: &InputEvent,
    code_x: u16,
    code_y: u16,
    e: &Event,
    emits: &[EmitEvent],
    dropped: bool,
) -> (r: (Vec<InputEvent>, Vec<Release>))
    ensures
        r.0@ == (if dropped {
            Seq::<InputEvent>::empty()
        } else {
            stick_writes(*report, code_x, code_y, *e)
        }) + emits@.map_values(|x: EmitEvent| emitted(*report, x)),
        r.1@ == releases(emits@),
{
    let mut writes: Vec<InputEvent> = Vec::new();
    if !dropped {
        let mut se = *report;
        se.type_ = EV_ABS as u16;
        se.code = code_x;
        se.value = e.x();
        writes.push(se);
        se.code = code_y;
        se.value = e.y();
        writes.push(se);
    }
    let (mut more, rel) = flush_emits(report, emits);
    let ghost w0 = writes@;
    writes.append(&mut more);
    proof {
        if dropped {
            assert(w0 =~= Seq::<InputEvent>::empty());
        } else {
            assert(w0 =~= stick_writes(*report, code_x, code_y, *e));
        }
    }
    (writes, rel)
}

/// Whether `r` is what `finish_stick` makes of the movement once the
/// pipeline handed back `out` (the event, the emits, whether it is dropped).
pub open spec fn stick_answer(
    report: InputEvent,
    code_x: u16,
    code_y: u16,
    out: (Event, Seq<EmitEvent>, bool),
    r: (Vec<InputEvent>, Vec<Release>),
) -> bool {
    &&& r.0@ == (if out.2 {
        Seq::<InputEvent>::empty()
    } else {
        stick_writes(report, code_x, code_y, out.0)
    }) + out.1.map_values(|x: EmitEvent| emitted(report, x))
    &&& r.1@ == releases(out.1)
}

/// Runs a stick movement through the pipeline; see `finish_stick`.
pub fn process_stick<P: Processor>(
    pipeline: &Pipeline<P>,
    settings: &Settings,
    report: &InputEvent,
    side: Side,
    x: i32,
    y: i32,
    code_x: u16,
    code_y: u16,
) -> (r: (Vec<InputEvent>, Vec<Release>))
    ensures
        exists|mids: Seq<(Event, CtxView)>|
            #[trigger] is_run(pipeline.steps(), start_state(Event::Stick { x, y, side }, settings@), mids)
                && stick_answer(
                *report,
                code_x,
                code_y,
                run_result(start_state(Event::Stick { x, y, side }, settings@), mids),
                r,
            ),
{
    let mut e = Event::Stick { x, y, side };
    let ghost e0 = e;
    let (emits, dropped) = pipeline.run(&mut e, settings);
    let r = finish_stick(report, code_x, code_y, &e, emits.as_slice(), dropped);
    proof {
        let start = start_state(e0, settings@);
        let mids = choose|mids: Seq<(Event, CtxView)>|
            #[trigger] is_run(pipeline.steps(), start, mids) && run_result(start, mids) == (
                e,
                emits@,
                dropped,
            );
        assert(is_run(pipeline.steps(), start, mids));
    }
    r
}

/// The event that releases key `emit` at its due time.
pub open spec fn release_event(emit: EmitEvent) -> InputEvent {
    InputEvent { time: TimeVal { tv_sec: 0, tv_usec: 0 }, type_: emit.ev_type, code: emit.code, value: 0 }
}

/// The report that follows each release.
pub open spec fn report_event() -> InputEvent {
    InputEvent { time: TimeVal { tv_sec: 0, tv_usec: 0 }, type_: EV_SYN as u16, code: SYN_REPORT as u16, value: 0 }
}

/// The events that send the releases `due`, each followed by a report.
pub open spec fn release_events(due: Seq<Pending>) -> Seq<InputEvent>
    decreases due.len(),
{
    if due.len() == 0 {
        seq![]
    } else {
        release_events(due.drop_last()) + seq![release_event(due.last().emit), report_event()]
    }
}

/// Takes the releases that are due at `now_ms` out of `pending` and returns
/// the events that send them, each release followed by a report. The
/// releases not yet due stay; the order of `pending` may change.
pub fn take_due_releases(pending: &mut Vec<Pending>, now_ms: u64) -> (r: Vec<InputEvent>)
    ensures
        exists|due: Seq<Pending>|
            #[trigger] release_events(due) == r@ && (forall|k: int|
                0 <= k < due.len() ==> due[k].due_ms <= now_ms) && old(pending)@.to_multiset()
                == final(pending)@.to_multiset().add(due.to_multiset()),
        forall|k: int| 0 <= k < final(pending)@.len() ==> final(pending)@[k].due_ms > now_ms,
{
    let mut out: Vec<InputEvent> = Vec::new();
    let ghost mut due: Seq<Pending> = seq![];
    let ghost orig = pending@;
    let mut i: usize = 0;
    while i < pending.len()
        invariant
            i <= pending@.len(),
            release_events(due) == out@,
            forall|k: int| 0 <= k < due.len() ==> due[k].due_ms <= now_ms,
            orig.to_multiset() == pending@.to_multiset().add(due.to_multiset()),
            forall|k: int| 0 <= k < i ==> pending@[k].due_ms > now_ms,
        decreases pending@.len() - i,
    {
        if pending[i].due_ms <= now_ms {
            let ghost before = pending@;
            let p = pending.swap_remove(i);
            proof {
                assert(before.to_multiset() =~= pending@.to_multiset().insert(p)) by {
                    lemma_swap_remove_multiset(before, i as int);
                }
                assert(due.push(p).to_multiset() =~= due.to_multiset().insert(p)) by {
                    due.to_multiset_ensures();
                }
                assert(due.push(p).drop_last() =~= due);
                due = due.push(p);
            }
            out.push(
                InputEvent {
                    time: TimeVal { tv_sec: 0, tv_usec: 0 },
                    type_: p.emit.ev_type,
                    code: p.emit.code,
                    value: 0,
                },
            );
            out.push(
                InputEvent {
                    time: TimeVal { tv_sec: 0, tv_usec: 0 },
                    type_: EV_SYN as u16,
                    code: SYN_REPORT as u16,
                    value: 0,
                },
            );
        } else {
            i = i + 1;
        }
    }
    out
}

proof fn lemma_swap_remove_multiset(s: Seq<Pending>, i: int)
    requires
        0 <= i < s.len(),
    ensures
        s.to_multiset() == s.update(i, s.last()).drop_last().to_multiset().insert(s[i]),
{
    broadcast use {
        vstd::seq_lib::to_multiset_update,
        vstd::seq_lib::to_multiset_remove,
        vstd::seq_lib::to_multiset_contains,
        vstd::multiset::group_multiset_axioms,
    };

    let u = s.update(i, s.last());
    let n = s.len() - 1;
    assert(u.drop_last() =~= u.remove(n));
    assert(u[n] == s.last());
    assert(u.to_multiset() == s.to_multiset().insert(s.last()).remove(s[i]));
    assert(u.remove(n).to_multiset() == u.to_multiset().remove(u[n]));
    assert(s.contains(s[i]));
    assert(s.to_multiset().count(s[i]) > 0);
    assert(s.to_multiset() =~= u.drop_last().to_multiset().insert(s[i]));
}

/// What a read from the physical device means.
#[derive(Clone, Copy, Debug, PartialEq, Eq, Structural)]
pub enum ReadVerdict {
    /// A whole event was read.
    Event,
    /// Nothing more to read for now.
    Idle,
    /// The device is gone.
    Gone,
}

/// What a read of `rb` bytes means when an event has `ev_size` bytes: a whole
/// event; else the device is gone on end of file, on a hang-up, on an error
/// other than `EAGAIN`, or when an `EAGAIN` comes from a device that no longer
/// answers (`alive` is false); otherwise there is nothing more to read.
/// `errno` matters only when `rb < 0`, and `alive` only when moreover
/// `errno == EAGAIN`.
pub fn read_verdict(rb: isize, ev_size: isize, fd_hup: bool, errno: i32, alive: bool) -> (r:
    ReadVerdict)
    ensures
        rb == ev_size ==> r == ReadVerdict::Event,
        rb != ev_size ==> (r == ReadVerdict::Gone <==> (rb == 0 || fd_hup || (rb < 0 && errno
            != crate::evdev::EAGAIN) || (rb < 0 && !alive))),
        rb != ev_size ==> r != ReadVerdict::Event,
{
    if rb == ev_size {
        ReadVerdict::Event
    } else if rb == 0 || fd_hup || (rb < 0 && errno != crate::evdev::EAGAIN) || (rb < 0 && !alive) {
        ReadVerdict::Gone
    } else {
        ReadVerdict::Idle
    }
}

/// How long to wait for input: shorter while key releases are pending, so
/// that they go out on time.
pub fn wait_timeout_ms(pending: &Vec<Pending>) -> (r: i32)
    ensures
        r == (if pending@.len() == 0 {
            500i32
        } else {
            50i32
        }),
{
    if pending.len() == 0 {
        500
    } else {
        50
    }
}

/// `EPOLLHUP`.
pub const EPOLLHUP: u32 = 0x010;

/// `EPOLLERR`.
pub const EPOLLERR: u32 = 0x008;

/// What a wait reported.
#[derive(Clone, Copy, Debug, PartialEq, Eq, Structural)]
pub struct Readiness {
    /// The device directory changed.
    pub hotplug: bool,
    /// The physical device has input.
    pub input: bool,
    /// The physical device hung up or failed.
    pub hangup: bool,
}

/// Whether `e` names the watch descriptor `fd`.
pub open spec fn names(e: EpollEvent, fd: Option<i32>) -> bool {
    fd matches Some(f) && e.data == f as u64
}

/// Sorts the entries of a wait by what they name: the directory watch
/// (`watch`, if there is one) or the physical device (`device`, if connected).
/// An entry that names the watch is not looked at as a device entry.
pub fn readiness(events: &[EpollEvent], watch: Option<i32>, device: Option<i32>) -> (r: Readiness)
    ensures
        r.hotplug == exists|k: int| 0 <= k < events@.len() && names(#[trigger] events@[k], watch),
        r.input == exists|k: int|
            0 <= k < events@.len() && !names(#[trigger] events@[k], watch) && names(
                events@[k],
                device,
            ),
        r.hangup == exists|k: int|
            0 <= k < events@.len() && !names(#[trigger] events@[k], watch) && names(
                events@[k],
                device,
            ) && events@[k].events & (EPOLLHUP | EPOLLERR) != 0,
{
    let mut r = Readiness { hotplug: false, input: false, hangup: false };
    let mut i: usize = 0;
    while i < events.len()
        invariant
            i <= events@.len(),
            r.hotplug == exists|k: int| 0 <= k < i && names(#[trigger] events@[k], watch),
            r.input == exists|k: int|
                0 <= k < i && !names(#[trigger] events@[k], watch) && names(events@[k], device),
            r.hangup == exists|k: int|
                0 <= k < i && !names(#[trigger] events@[k], watch) && names(events@[k], device)
                    && events@[k].events & (EPOLLHUP | EPOLLERR) != 0,
        decreases events@.len() - i,
    {
        let e = events[i];
        let is_watch = match watch {
            Some(f) => e.data == f as u64,
            None => false,
        };
        let is_device = match device {
            Some(f) => e.data == f as u64,
            None => false,
        };
        if is_watch {
            r.hotplug = true;
        } else if is_device {
            r.input = true;
            if e.events & (EPOLLHUP | EPOLLERR) != 0 {
                r.hangup = true;
            }
        }
        proof {
            assert(events@[i as int] == e);
        }
        i = i + 1;
    }
    r
}

/// Whether the configuration is due for a check: when forced (the device
/// directory changed) or 500 ms after the last check.
pub fn config_check_due(forced: bool, since_last_ms: u128) -> (r: bool)
    ensures
        r == (forced || since_last_ms >= 500),
{
    forced || since_last_ms >= 500
}

/// Where connecting to the controller stands.
#[derive(Clone, Copy, Debug, PartialEq, Eq, Structural)]
pub enum ConnectState {
    /// Looking for the physical controller.
    Searching,
    /// The controller was found (its descriptor); waiting before creating
    /// the virtual one.
    Waiting(i32),
    /// Creating the virtual controller on top of the found one.
    Creating(i32),
    /// Creation failed; releasing what was set up.
    Releasing,
    /// Pausing before the next search.
    Pausing,
    /// The virtual controller exists.
    Done,
}

/// What the last action led to.
#[derive(Clone, Copy, Debug, PartialEq, Eq, Structural)]
pub enum ConnectEvent {
    /// The search found the controller, opened as this descriptor.
    Found(i32),
    /// The search found nothing.
    NotFound,
    /// The sleep is over.
    Slept,
    /// The virtual controller was created.
    Created,
    /// Creating the virtual controller failed.
    CreateFailed,
    /// The devices were released.
    Released,
}

/// What to do next.
#[derive(Clone, Copy, Debug, PartialEq, Eq, Structural)]
pub enum ConnectAction {
    /// Search for the controller.
    Find,
    /// Sleep this many milliseconds.
    Sleep(u64),
    /// Create the virtual controller on the found one.
    CreateVirtual(i32),
    /// Release the physical and virtual devices.
    Release,
    /// Stop: the controller is connected.
    Finish,
}

/// How connecting goes on after event `e` in state `s`: a found controller is
/// left a second before the virtual one is created on it; a failed creation
/// releases the devices, pauses a second and searches again; a search that
/// finds nothing pauses a second and searches again. Anything else starts the
/// search over, except that a finished connection stays finished.
pub open spec fn connect_next(s: ConnectState, e: ConnectEvent) -> (ConnectState, ConnectAction) {
    match (s, e) {
        (ConnectState::Done, _) => (ConnectState::Done, ConnectAction::Finish),
        (ConnectState::Searching, ConnectEvent::Found(fd)) => (
            ConnectState::Waiting(fd),
            ConnectAction::Sleep(1000),
        ),
        (ConnectState::Searching, ConnectEvent::NotFound) => (
            ConnectState::Pausing,
            ConnectAction::Sleep(1000),
        ),
        (ConnectState::Waiting(fd), ConnectEvent::Slept) => (
            ConnectState::Creating(fd),
            ConnectAction::CreateVirtual(fd),
        ),
        (ConnectState::Creating(_), ConnectEvent::Created) => (
            ConnectState::Done,
            ConnectAction::Finish,
        ),
        (ConnectState::Creating(_), ConnectEvent::CreateFailed) => (
            ConnectState::Releasing,
            ConnectAction::Release,
        ),
        (ConnectState::Releasing, ConnectEvent::Released) => (
            ConnectState::Pausing,
            ConnectAction::Sleep(1000),
        ),
        _ => (ConnectState::Searching, ConnectAction::Find),
    }
}

/// Where connecting starts: searching.
pub fn connect_start() -> (r: (ConnectState, ConnectAction))
    ensures
        r == (ConnectState::Searching, ConnectAction::Find),
{
    (ConnectState::Searching, ConnectAction::Find)
}

/// The next state and action of connecting; see `connect_next`.
pub fn connect_step(s: ConnectState, e: ConnectEvent) -> (r: (ConnectState, ConnectAction))
    ensures
        r == connect_next(s, e),
{
    match (s, e) {
        (ConnectState::Done, _) => (ConnectState::Done, ConnectAction::Finish),
        (ConnectState::Searching, ConnectEvent::Found(fd)) => (
            ConnectState::Waiting(fd),
            ConnectAction::Sleep(1000),
        ),
        (ConnectState::Searching, ConnectEvent::NotFound) => (
            ConnectState::Pausing,
            ConnectAction::Sleep(1000),
        ),
        (ConnectState::Waiting(fd), ConnectEvent::Slept) => (
            ConnectState::Creating(fd),
            ConnectAction::CreateVirtual(fd),
        ),
        (ConnectState::Creating(_), ConnectEvent::Created) => (
            ConnectState::Done,
            ConnectAction::Finish,
        ),
        (ConnectState::Creating(_), ConnectEvent::CreateFailed) => (
            ConnectState::Releasing,
            ConnectAction::Release,
        ),
        (ConnectState::Releasing, ConnectEvent::Released) => (
            ConnectState::Pausing,
            ConnectAction::Sleep(1000),
        ),
        _ => (ConnectState::Searching, ConnectAction::Find),
    }
}

/// The virtual controller is created only on the controller that was found,
/// and only after the second's wait that followed finding it; connecting
/// finishes only once creation succeeded.
pub proof fn lemma_create_only_after_wait(s: ConnectState, e: ConnectEvent, fd: i32)
    ensures
        connect_next(s, e).1 == ConnectAction::CreateVirtual(fd) ==> s == ConnectState::Waiting(fd)
            && e == ConnectEvent::Slept,
        connect_next(s, e).0 == ConnectState::Waiting(fd) ==> e == ConnectEvent::Found(fd)
            && connect_next(s, e).1 == ConnectAction::Sleep(1000),
        connect_next(s, e).1 == ConnectAction::Finish ==> s == ConnectState::Done || e
            == ConnectEvent::Created,
{
}

/// A failed creation is followed by a release, a second's pause and a new
/// search.
pub proof fn lemma_failed_creation_retries(fd: i32)
    ensures
        connect_next(ConnectState::Creating(fd), ConnectEvent::CreateFailed) == (
            ConnectState::Releasing,
            ConnectAction::Release,
        ),
        connect_next(ConnectState::Releasing, ConnectEvent::Released) == (
            ConnectState::Pausing,
            ConnectAction::Sleep(1000),
        ),
        connect_next(ConnectState::Pausing, ConnectEvent::Slept) == (
            ConnectState::Searching,
            ConnectAction::Find,
        ),
{
}

/// Every stick axis event (absolute x or y of either stick) is recorded and
/// held for the next report, never forwarded on its own: it is routed
/// `Recorded`, its value becomes the stick's coordinate and the stick is
/// marked moved. Every other event leaves the record alone and is not
/// `Recorded`: triggers (`ABS_Z` left, `ABS_RZ` right) and keys go through the
/// pipeline, a report ends the report, anything else is forwarded.
pub proof fn lemma_sticks_wait_for_the_report(d: Device, iev: InputEvent)
    ensures
        (route_of(iev) == Route::Recorded) == (iev.type_ == 3 && (iev.code == 0 || iev.code == 1
            || iev.code == 3 || iev.code == 4)),
        iev.type_ == 3 && iev.code == 0 ==> (recorded(d, iev) == Device { lx: iev.value, ld: true, ..d }),
        iev.type_ == 3 && iev.code == 1 ==> (recorded(d, iev) == Device { ly: iev.value, ld: true, ..d }),
        iev.type_ == 3 && iev.code == 3 ==> (recorded(d, iev) == Device { rx: iev.value, rd: true, ..d }),
        iev.type_ == 3 && iev.code == 4 ==> (recorded(d, iev) == Device { ry: iev.value, rd: true, ..d }),
        route_of(iev) != Route::Recorded ==> recorded(d, iev) == d,
        iev.type_ == 3 && iev.code == 2 ==> route_of(iev) == Route::Trigger(Side::Left),
        iev.type_ == 3 && iev.code == 5 ==> route_of(iev) == Route::Trigger(Side::Right),
        iev.type_ == 1 ==> route_of(iev) == Route::Button,
        iev.type_ == 0 && iev.code == 0 ==> route_of(iev) == Route::Report,
{
}

} // verus!
