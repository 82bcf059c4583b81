//! The plugin pipeline: the event in flight, what plugins emit, and how emits
//! aimed at the event in flight are folded back into it.
use vstd::prelude::*;
use crate::evdev::{ABS_RX, ABS_RY, ABS_RZ, ABS_X, ABS_Y, ABS_Z, EV_ABS, EV_KEY};
use crate::settings::Settings;

verus! {

broadcast use vstd::seq_lib::group_seq_properties;

/// Which stick or trigger an event belongs to.
#[derive(Debug, Clone, Copy, PartialEq, Eq, Structural)]
pub enum Side {
    Left,
    Right,
}

/// Unified event passed through the plugin pipeline.
#[derive(Debug, Clone, Copy, PartialEq, Eq, Structural)]
pub enum Event {
    /// Analog stick input: x, y, side
    Stick { x: i32, y: i32, side: Side },
    /// Trigger input (ABS_Z=LT, ABS_RZ=RT)
    Trigger { value: i32, side: Side },
    /// Button input (EV_KEY event)
    Button { code: u16, pressed: bool },
}

/// Emitted output event from plugins.
#[derive(Debug, Clone, Copy, PartialEq, Eq, Structural)]
pub struct EmitEvent {
    /// `EV_ABS` or `EV_KEY`.
    pub ev_type: u16,
    pub code: u16,
    pub value: i32,
    /// If set and value==1 (KEY down), schedule a release after this many ms.
    pub hold_ms: Option<u64>,
}

/// Pipeline context including settings and emit buffer.
///
/// Emits that target the axes/button of the event currently in flight are
/// folded back into that event so later plugins see them; everything else goes
/// straight to the virtual device. Whether anything was folded is the run's
/// own record, out of the steps' reach.
pub struct Ctx {
    pub settings: Settings,
    pub emits: Vec<EmitEvent>,
    pub drop_original: bool,
    /// The event as the pipeline received it, before any step changed it
    /// (plugins see its stick position as `pf.raw_x` / `pf.raw_y`).
    pub raw: Event,
}

impl Event {
    /// The button code of a button event, 0 otherwise.
    pub open spec fn code_spec(&self) -> u16 {
        match *self {
            Event::Button { code, .. } => code,
            _ => 0,
        }
    }

    /// The button code of a button event, 0 otherwise.
    #[verifier::when_used_as_spec(code_spec)]
    pub fn code(&self) -> (r: u16)
        ensures
            r == self.code_spec(),
    {
        match self {
            Event::Button { code, .. } => *code,
            _ => 0,
        }
    }

    /// The x position of a stick event, 0 otherwise.
    pub open spec fn x_spec(&self) -> i32 {
        match *self {
            Event::Stick { x, .. } => x,
            _ => 0,
        }
    }

    /// The x position of a stick event, 0 otherwise.
    #[verifier::when_used_as_spec(x_spec)]
    pub fn x(&self) -> (r: i32)
        ensures
            r == self.x_spec(),
    {
        match self {
            Event::Stick { x, .. } => *x,
            _ => 0,
        }
    }

    /// The y position of a stick event, 0 otherwise.
    pub open spec fn y_spec(&self) -> i32 {
        match *self {
            Event::Stick { y, .. } => y,
            _ => 0,
        }
    }

    /// The y position of a stick event, 0 otherwise.
    #[verifier::when_used_as_spec(y_spec)]
    pub fn y(&self) -> (r: i32)
        ensures
            r == self.y_spec(),
    {
        match self {
            Event::Stick { y, .. } => *y,
            _ => 0,
        }
    }

    /// The value of a trigger event, 0 otherwise.
    pub open spec fn value_spec(&self) -> i32 {
        match *self {
            Event::Trigger { value, .. } => value,
            _ => 0,
        }
    }

    /// The value of a trigger event, 0 otherwise.
    #[verifier::when_used_as_spec(value_spec)]
    pub fn value(&self) -> (r: i32)
        ensures
            r == self.value_spec(),
    {
        match self {
            Event::Trigger { value, .. } => *value,
            _ => 0,
        }
    }

    /// Whether a button event is a press; false for other events.
    pub open spec fn pressed_spec(&self) -> bool {
        match *self {
            Event::Button { pressed, .. } => pressed,
            _ => false,
        }
    }

    /// Whether a button event is a press; false for other events.
    #[verifier::when_used_as_spec(pressed_spec)]
    pub fn pressed(&self) -> (r: bool)
        ensures
            r == self.pressed_spec(),
    {
        match self {
            Event::Button { pressed, .. } => *pressed,
            _ => false,
        }
    }
}

impl Side {
    /// The side's name as plugins see it.
    pub fn as_str(&self) -> (r: &'static str)
        ensures
            r@ == (match *self {
                Side::Left => "left"@,
                Side::Right => "right"@,
            }),
    {
        match self {
            Side::Left => "left",
            Side::Right => "right",
        }
    }
}

/// The event that `emit` turns `event` into when it targets the event's own
/// axes or button: a stick takes the value of an absolute emit on its own x or
/// y axis (ABS_X/ABS_Y on the left, ABS_RX/ABS_RY on the right), a trigger of
/// an absolute emit on its own axis (ABS_Z left, ABS_RZ right), a button the
/// pressed state of a key emit with its own code. `None` when the emit targets
/// something else.
pub open spec fn fold_into(emit: EmitEvent, event: Event) -> Option<Event> {
    match event {
        Event::Stick { x, y, side } => {
            if emit.ev_type != EV_ABS {
                None
            } else if side == Side::Left && emit.code == ABS_X {
                Some(Event::Stick { x: emit.value, y, side })
            } else if side == Side::Left && emit.code == ABS_Y {
                Some(Event::Stick { x, y: emit.value, side })
            } else if side == Side::Right && emit.code == ABS_RX {
                Some(Event::Stick { x: emit.value, y, side })
            } else if side == Side::Right && emit.code == ABS_RY {
                Some(Event::Stick { x, y: emit.value, side })
            } else {
                None
            }
        },
        Event::Trigger { value, side } => {
            if emit.ev_type == EV_ABS && ((side == Side::Left && emit.code == ABS_Z) || (side
                == Side::Right && emit.code == ABS_RZ)) {
                Some(Event::Trigger { value: emit.value, side })
            } else {
                None
            }
        },
        Event::Button { code, pressed } => {
            if emit.ev_type == EV_KEY && emit.code == code {
                Some(Event::Button { code, pressed: emit.value != 0 })
            } else {
                None
            }
        },
    }
}

/// Whether `emit` is folded into `event`: it targets the event and holds no key.
pub open spec fn absorbs(event: Event, emit: EmitEvent) -> bool {
    emit.hold_ms is None && fold_into(emit, event) is Some
}

/// Folds `emits`, in order, into `event`: the event after the folds, the emits
/// that pass through (in order), and whether any emit was folded.
pub open spec fn fold_seq(event: Event, emits: Seq<EmitEvent>) -> (Event, Seq<EmitEvent>, bool)
    decreases emits.len(),
{
    if emits.len() == 0 {
        (event, seq![], false)
    } else {
        let (ev, pass, folded) = fold_seq(event, emits.drop_last());
        let emit = emits.last();
        if absorbs(ev, emit) {
            (fold_into(emit, ev)->0, pass, true)
        } else {
            (ev, pass.push(emit), folded)
        }
    }
}

/// Whether two events are of the same kind and, for sticks and triggers, side.
pub open spec fn same_shape(a: Event, b: Event) -> bool {
    match (a, b) {
        (Event::Stick { side: s1, .. }, Event::Stick { side: s2, .. }) => s1 == s2,
        (Event::Trigger { side: s1, .. }, Event::Trigger { side: s2, .. }) => s1 == s2,
        (Event::Button { code: c1, .. }, Event::Button { code: c2, .. }) => c1 == c2,
        _ => false,
    }
}

/// Folding keeps the kind and side of the event, and whether an emit targets
/// an event depends on nothing else.
pub proof fn lemma_fold_into_shape(emit: EmitEvent, a: Event, b: Event)
    requires
        same_shape(a, b),
    ensures
        fold_into(emit, a) is Some <==> fold_into(emit, b) is Some,
        absorbs(a, emit) <==> absorbs(b, emit),
        fold_into(emit, a) matches Some(c) ==> same_shape(a, c),
{
}

/// Folding a sequence of emits keeps the event's kind and side; the emits that
/// pass through are exactly those the event does not absorb, in order, and
/// none of them targets the event that comes out.
pub proof fn lemma_fold_seq(event: Event, emits: Seq<EmitEvent>)
    ensures
        same_shape(event, fold_seq(event, emits).0),
        fold_seq(event, emits).1 == emits.filter(|e: EmitEvent| !absorbs(event, e)),
        fold_seq(event, emits).2 == exists|k: int| 0 <= k < emits.len() && absorbs(event, #[trigger] emits[k]),
        forall|k: int|
            0 <= k < fold_seq(event, emits).1.len() ==> !absorbs(
                fold_seq(event, emits).0,
                #[trigger] fold_seq(event, emits).1[k],
            ),
    decreases emits.len(),
{
    reveal_with_fuel(Seq::filter, 1);
    if emits.len() > 0 {
        let init = emits.drop_last();
        lemma_fold_seq(event, init);
        let (ev, pass, folded) = fold_seq(event, init);
        let emit = emits.last();
        lemma_fold_into_shape(emit, event, ev);
        assert(emits.drop_last() == init);
        if absorbs(ev, emit) {
            let ev2 = fold_into(emit, ev)->0;
            assert forall|k: int| 0 <= k < pass.len() implies !absorbs(ev2, #[trigger] pass[k]) by {
                lemma_fold_into_shape(pass[k], ev, ev2);
            }
        }
        if exists|k: int| 0 <= k < emits.len() && absorbs(event, #[trigger] emits[k]) {
            let k = choose|k: int| 0 <= k < emits.len() && absorbs(event, #[trigger] emits[k]);
            if k < init.len() {
                assert(init[k] == emits[k]);
            }
        }
        if exists|k: int| 0 <= k < init.len() && absorbs(event, #[trigger] init[k]) {
            let k = choose|k: int| 0 <= k < init.len() && absorbs(event, #[trigger] init[k]);
            assert(emits[k] == init[k]);
        }
    }
}

/// Folds `emit` into `event` if it targets it; says whether it did.
pub fn try_fold(emit: &EmitEvent, event: &mut Event) -> (r: bool)
    ensures
        r == fold_into(*emit, *old(event)) is Some,
        r ==> *final(event) == fold_into(*emit, *old(event))->0,
        !r ==> *final(event) == *old(event),
{
    let abs = emit.ev_type as i32 == EV_ABS;
    match event {
        Event::Stick { x, y, side } => {
            if abs && *side == Side::Left && emit.code as u32 == ABS_X {
                *x = emit.value;
                true
            } else if abs && *side == Side::Left && emit.code as u32 == ABS_Y {
                *y = emit.value;
                true
            } else if abs && *side == Side::Right && emit.code as u32 == ABS_RX {
                *x = emit.value;
                true
            } else if abs && *side == Side::Right && emit.code as u32 == ABS_RY {
                *y = emit.value;
                true
            } else {
                false
            }
        },
        Event::Trigger { value, side } => {
            let hit = abs && ((*side == Side::Left && emit.code as u32 == ABS_Z) || (*side
                == Side::Right && emit.code as u32 == ABS_RZ));
            if hit {
                *value = emit.value;
            }
            hit
        },
        Event::Button { code, pressed } => {
            if emit.ev_type == EV_KEY as u16 && emit.code == *code {
                *pressed = emit.value != 0;
                true
            } else {
                false
            }
        },
    }
}

/// Moves the emits that belong to the event in flight into that event; the
/// others stay in `ctx.emits`, in order. Emits with a hold duration are
/// macros, not replacements, and always stay. Says whether an emit was folded.
pub fn fold_emits(event: &mut Event, ctx: &mut Ctx) -> (r: bool)
    ensures
        *final(event) == fold_seq(*old(event), old(ctx).emits@).0,
        final(ctx).emits@ == fold_seq(*old(event), old(ctx).emits@).1,
        r == fold_seq(*old(event), old(ctx).emits@).2,
        final(ctx).settings@ == old(ctx).settings@,
        final(ctx).drop_original == old(ctx).drop_original,
        final(ctx).raw == old(ctx).raw,
{
    if ctx.emits.len() == 0 {
        return false;
    }
    let ghost ev0 = *event;
    let ghost emits0 = ctx.emits@;
    let mut folded = false;
    let ghost settings0 = ctx.settings@;
    let ghost drop0 = ctx.drop_original;
    let ghost raw0 = ctx.raw;
    let mut emits: Vec<EmitEvent> = Vec::new();
    std::mem::swap(&mut emits, &mut ctx.emits);
    let mut passthrough: Vec<EmitEvent> = Vec::new();
    let mut i: usize = 0;
    while i < emits.len()
        invariant
            emits@ == emits0,
            i <= emits@.len(),
            *event == fold_seq(ev0, emits0.take(i as int)).0,
            passthrough@ == fold_seq(ev0, emits0.take(i as int)).1,
            folded == fold_seq(ev0, emits0.take(i as int)).2,
            ctx.settings@ == settings0,
            ctx.drop_original == drop0,
            ctx.raw == raw0,
        decreases emits@.len() - i,
    {
        let emit = emits[i];
        assert(emits0.take(i + 1).drop_last() =~= emits0.take(i as int));
        if emit.hold_ms.is_none() && try_fold(&emit, event) {
            folded = true;
        } else {
            passthrough.push(emit);
        }
        i = i + 1;
    }
    assert(emits0.take(i as int) =~= emits0);
    ctx.emits = passthrough;
    folded
}

impl Ctx {
    /// A context for one run of the event `raw`: the settings, no emits,
    /// nothing dropped.
    pub fn new(settings: Settings, raw: Event) -> (r: Ctx)
        ensures
            r.settings@ == settings@,
            r.emits@ == Seq::<EmitEvent>::empty(),
            !r.drop_original,
            r.raw == raw,
    {
        Ctx { settings, emits: Vec::new(), drop_original: false, raw }
    }

    /// Takes what a step produced: its emits, appended in order after those
    /// already there, and whether it asked for the original event to be
    /// dropped (a drop request is never withdrawn).
    pub fn add_step_output(&mut self, emits: &mut Vec<EmitEvent>, dropped: bool)
        ensures
            final(self).emits@ == old(self).emits@ + old(emits)@,
            final(emits)@.len() == 0,
            final(self).drop_original == (old(self).drop_original || dropped),
            final(self).settings@ == old(self).settings@,
            final(self).raw == old(self).raw,
    {
        self.emits.append(emits);
        if dropped {
            self.drop_original = true;
        }
    }

    /// What a finished run hands back, given whether any emit of the run was
    /// folded: the remaining emits, and whether the original event is
    /// dropped. A plugin that both dropped the original and emitted a
    /// replacement (deadzone, button remap) has replaced the event content, so
    /// a fold cancels the drop.
    pub fn outcome(self, folded: bool) -> (r: (Vec<EmitEvent>, bool))
        ensures
            r.0@ == self.emits@,
            r.1 == (self.drop_original && !folded),
    {
        let dropped = self.drop_original && !folded;
        (self.emits, dropped)
    }
}


/// What a context holds, as mathematical values.
pub ghost struct CtxView {
    pub settings: Map<Seq<char>, Seq<char>>,
    pub emits: Seq<EmitEvent>,
    pub drop_original: bool,
    pub raw: Event,
}

impl View for Ctx {
    type V = CtxView;

    open spec fn view(&self) -> CtxView {
        CtxView {
            settings: self.settings@,
            emits: self.emits@,
            drop_original: self.drop_original,
            raw: self.raw,
        }
    }
}

/// A processing step of the pipeline. What a step does to the event and the
/// context is its own affair: a kind of step says it through `reports_id` and
/// `steps_to`, and one that says nothing may report any id and do anything.
pub trait Processor: Send + Sync {
    /// Whether `id` is a plugin id that the step may report.
    open spec fn reports_id(&self, id: Seq<char>) -> bool {
        true
    }

    /// Whether one `process` of the step can take the event and context
    /// `before` to `after`.
    open spec fn steps_to(&self, before: (Event, CtxView), after: (Event, CtxView)) -> bool {
        true
    }

    /// The step's plugin id.
    fn id(&self) -> (r: &str)
        ensures
            self.reports_id(r@),
    ;

    /// Processes the event in flight, possibly emitting events into `ctx` or
    /// marking the original event as dropped.
    fn process(&self, event: &mut Event, ctx: &mut Ctx)
        ensures
            self.steps_to((*old(event), old(ctx)@), (*final(event), final(ctx)@)),
    ;
}

/// A step behind a box, as plugins are held: it is the boxed step.
impl Processor for Box<dyn Processor> {
    open spec fn reports_id(&self, id: Seq<char>) -> bool {
        (**self).reports_id(id)
    }

    open spec fn steps_to(&self, before: (Event, CtxView), after: (Event, CtxView)) -> bool {
        (**self).steps_to(before, after)
    }

    fn id(&self) -> (r: &str) {
        (**self).id()
    }

    fn process(&self, event: &mut Event, ctx: &mut Ctx) {
        (**self).process(event, ctx)
    }
}

/// The state a run starts from: the event, and a fresh context over the
/// settings (`Ctx::new`).
pub open spec fn start_state(event: Event, settings: Map<Seq<char>, Seq<char>>) -> (Event, CtxView) {
    (event, CtxView { settings, emits: Seq::empty(), drop_original: false, raw: event })
}

/// The state once the emits of a step are folded into the event
/// (`fold_emits`).
pub open spec fn folded_state(s: (Event, CtxView)) -> (Event, CtxView) {
    let f = fold_seq(s.0, s.1.emits);
    (
        f.0,
        CtxView {
            settings: s.1.settings,
            emits: f.1,
            drop_original: s.1.drop_original,
            raw: s.1.raw,
        },
    )
}

/// The state in which step `i` of a run starts, where `mids[j]` is what step
/// `j` left behind: the start for the first step, else the state the step
/// before left, folded, with the raw event as the run received it.
pub open spec fn state_before(start: (Event, CtxView), mids: Seq<(Event, CtxView)>, i: int) -> (
    Event,
    CtxView,
) {
    if i <= 0 {
        start
    } else {
        let f = folded_state(mids[i - 1]);
        (
            f.0,
            CtxView {
                settings: f.1.settings,
                emits: f.1.emits,
                drop_original: f.1.drop_original,
                raw: start.1.raw,
            },
        )
    }
}

/// `mids` is a run of `steps` from `start`: each step takes the state it
/// starts in to what it leaves behind.
pub open spec fn is_run<P: Processor>(
    steps: Seq<P>,
    start: (Event, CtxView),
    mids: Seq<(Event, CtxView)>,
) -> bool {
    &&& mids.len() == steps.len()
    &&& forall|i: int|
        0 <= i < steps.len() ==> #[trigger] steps[i].steps_to(state_before(start, mids, i), mids[i])
}

/// Whether the fold after some step of the run folded an emit into the event.
pub open spec fn run_folded(mids: Seq<(Event, CtxView)>) -> bool {
    exists|i: int| 0 <= i < mids.len() && #[trigger] fold_seq(mids[i].0, mids[i].1.emits).2
}

/// What a run hands back: the event as it leaves the last step, the emits
/// left in the context, and whether the original is dropped: the drop flag is
/// set at the end and no emit of the run was folded (`Ctx::outcome`).
pub open spec fn run_result(start: (Event, CtxView), mids: Seq<(Event, CtxView)>) -> (
    Event,
    Seq<EmitEvent>,
    bool,
) {
    let end = state_before(start, mids, mids.len() as int);
    (end.0, end.1.emits, end.1.drop_original && !run_folded(mids))
}

/// `ids` are ids that the steps report, one per step, in order.
pub open spec fn reported_ids<P: Processor>(steps: Seq<P>, ids: Seq<Seq<char>>) -> bool {
    &&& ids.len() == steps.len()
    &&& forall|i: int| 0 <= i < steps.len() ==> #[trigger] steps[i].reports_id(ids[i])
}

/// Ordered pipeline of steps of type `P` (boxed plugins by default).
pub struct Pipeline<P: Processor = Box<dyn Processor>> {
    steps: Vec<P>,
}

/// Lexicographic order of character sequences by scalar value. This is the
/// order of `String`'s `Ord`, since UTF-8 keeps the order of scalar values.
pub open spec fn lex_lt(a: Seq<char>, b: Seq<char>) -> bool
    decreases a.len(),
{
    if a.len() == 0 {
        b.len() > 0
    } else if b.len() == 0 {
        false
    } else if (a[0] as int) < (b[0] as int) {
        true
    } else if a[0] == b[0] {
        lex_lt(a.drop_first(), b.drop_first())
    } else {
        false
    }
}

/// `lex_lt` is a strict total order.
pub proof fn lemma_lex_order(a: Seq<char>, b: Seq<char>, c: Seq<char>)
    ensures
        !lex_lt(a, a),
        lex_lt(a, b) ==> !lex_lt(b, a),
        a != b ==> lex_lt(a, b) || lex_lt(b, a),
        lex_lt(a, b) && lex_lt(b, c) ==> lex_lt(a, c),
{
    lemma_lex_irrefl(a);
    lemma_lex_total(a, b);
    lemma_lex_trans(a, b, c);
}

proof fn lemma_lex_irrefl(a: Seq<char>)
    ensures
        !lex_lt(a, a),
    decreases a.len(),
{
    if a.len() > 0 {
        lemma_lex_irrefl(a.drop_first());
    }
}

proof fn lemma_lex_total(a: Seq<char>, b: Seq<char>)
    ensures
        lex_lt(a, b) ==> !lex_lt(b, a),
        a != b ==> lex_lt(a, b) || lex_lt(b, a),
    decreases a.len(),
{
    if a.len() == 0 && b.len() == 0 {
        assert(a =~= b);
    }
    if a.len() > 0 && b.len() > 0 {
        lemma_lex_total(a.drop_first(), b.drop_first());
        if a[0] == b[0] && a != b {
            assert(a.drop_first() != b.drop_first()) by {
                if a.drop_first() == b.drop_first() {
                    assert(a =~= seq![a[0]] + a.drop_first());
                    assert(b =~= seq![b[0]] + b.drop_first());
                }
            }
        }
    }
}

proof fn lemma_lex_trans(a: Seq<char>, b: Seq<char>, c: Seq<char>)
    ensures
        lex_lt(a, b) && lex_lt(b, c) ==> lex_lt(a, c),
    decreases a.len(),
{
    if a.len() > 0 && b.len() > 0 && c.len() > 0 {
        lemma_lex_trans(a.drop_first(), b.drop_first(), c.drop_first());
    }
}

/// Where `id` stands in `order`: the index of its first occurrence, or
/// `order.len()` when it is not listed.
pub open spec fn rank(order: Seq<Seq<char>>, id: Seq<char>) -> int
    decreases order.len(),
{
    if order.len() == 0 {
        0
    } else if order[0] == id {
        0
    } else {
        1 + rank(order.drop_first(), id)
    }
}

/// The sort key of a step with plugin id `id`: its rank in `order`, which is
/// `order.len()` for every unlisted id, so that unlisted steps follow in
/// their relative order.
pub open spec fn sort_key(order: Seq<Seq<char>>, id: Seq<char>) -> (int, Seq<char>) {
    (rank(order, id), seq![])
}

/// The sort keys of the ids `ids` when steps are sorted by id.
pub open spec fn id_keys(ids: Seq<Seq<char>>) -> Seq<(int, Seq<char>)> {
    ids.map_values(|id: Seq<char>| (0int, id))
}

/// Strict order of sort keys.
pub open spec fn key_lt(a: (int, Seq<char>), b: (int, Seq<char>)) -> bool {
    a.0 < b.0 || (a.0 == b.0 && lex_lt(a.1, b.1))
}

/// Whether `p` lists each index below `n` exactly once.
pub open spec fn is_permutation(p: Seq<usize>, n: int) -> bool {
    &&& p.len() == n
    &&& forall|i: int| 0 <= i < n ==> p[i] < n
    &&& forall|i: int, j: int| 0 <= i < j < n ==> p[i] != p[j]
}

/// `s` rearranged so that position `k` holds `s[p[k]]`.
pub open spec fn permuted<T>(s: Seq<T>, p: Seq<usize>) -> Seq<T> {
    Seq::new(p.len(), |k: int| s[p[k] as int])
}

/// Whether `p` is the stable sort of positions by `keys`: a permutation in
/// which keys never decrease and equal keys keep their original order.
pub open spec fn stable_sorted(keys: Seq<(int, Seq<char>)>, p: Seq<usize>) -> bool {
    &&& is_permutation(p, keys.len() as int)
    &&& forall|i: int, j: int|
        0 <= i < j < p.len() ==> key_lt(keys[p[i] as int], keys[p[j] as int]) || (keys[p[i] as int]
            == keys[p[j] as int] && p[i] < p[j])
}

/// The sort keys of the ids `ids` under `order`.
pub open spec fn sort_keys(ids: Seq<Seq<char>>, order: Seq<Seq<char>>) -> Seq<(int, Seq<char>)> {
    ids.map_values(|id: Seq<char>| sort_key(order, id))
}

/// The views of a list of strings.
pub open spec fn string_views(s: Seq<String>) -> Seq<Seq<char>> {
    s.map_values(|x: String| x@)
}

proof fn lemma_rank_found(order: Seq<Seq<char>>, id: Seq<char>, j: int)
    requires
        0 <= j < order.len(),
        order[j] == id,
        forall|l: int| 0 <= l < j ==> order[l] != id,
    ensures
        rank(order, id) == j,
    decreases j,
{
    if j > 0 {
        let t = order.drop_first();
        assert forall|l: int| 0 <= l < j - 1 implies t[l] != id by {
            assert(t[l] == order[l + 1]);
        }
        lemma_rank_found(t, id, j - 1);
    }
}

proof fn lemma_rank_absent(order: Seq<Seq<char>>, id: Seq<char>)
    requires
        forall|l: int| 0 <= l < order.len() ==> order[l] != id,
    ensures
        rank(order, id) == order.len(),
    decreases order.len(),
{
    if order.len() > 0 {
        let t = order.drop_first();
        assert forall|l: int| 0 <= l < t.len() implies t[l] != id by {
            assert(t[l] == order[l + 1]);
        }
        lemma_rank_absent(t, id);
    }
}

/// `lex_lt` on character slices.
fn lex_less(a: &[char], b: &[char]) -> (r: bool)
    ensures
        r == lex_lt(a@, b@),
{
    let mut i: usize = 0;
    while i < a.len() && i < b.len() && a[i] == b[i]
        invariant
            i <= a@.len(),
            i <= b@.len(),
            lex_lt(a@, b@) == lex_lt(a@.skip(i as int), b@.skip(i as int)),
        decreases a@.len() - i,
    {
        assert(a@.skip(i as int).drop_first() =~= a@.skip(i + 1));
        assert(b@.skip(i as int).drop_first() =~= b@.skip(i + 1));
        i = i + 1;
    }
    if i == a.len() {
        i < b.len()
    } else if i == b.len() {
        false
    } else {
        a[i] < b[i]
    }
}

/// The sort key of an id, computed.
fn compute_key(order: &Vec<Vec<char>>, id: &Vec<char>) -> (r: (usize, Vec<char>))
    ensures
        r.0 as int == sort_key(order@.map_values(|o: Vec<char>| o@), id@).0,
        r.1@ == sort_key(order@.map_values(|o: Vec<char>| o@), id@).1,
{
    let ghost ov = order@.map_values(|o: Vec<char>| o@);
    let mut j: usize = 0;
    while j < order.len()
        invariant
            j <= order@.len() == ov.len(),
            ov == order@.map_values(|o: Vec<char>| o@),
            forall|l: int| 0 <= l < j ==> ov[l] != id@,
        decreases order@.len() - j,
    {
        if crate::text::chars_eq(order[j].as_slice(), id.as_slice()) {
            proof {
                lemma_rank_found(ov, id@, j as int);
            }
            return (j, Vec::new());
        }
        j = j + 1;
    }
    proof {
        lemma_rank_absent(ov, id@);
    }
    (j, Vec::new())
}

/// `key_lt` on computed keys.
fn key_less(a: &(usize, Vec<char>), b: &(usize, Vec<char>)) -> (r: bool)
    ensures
        r == key_lt((a.0 as int, a.1@), (b.0 as int, b.1@)),
{
    if a.0 < b.0 {
        true
    } else if a.0 == b.0 {
        lex_less(a.1.as_slice(), b.1.as_slice())
    } else {
        false
    }
}

/// The order in which `reorder` arranges steps whose plugin ids are `ids`:
/// position `k` of the result is the index of the step that goes to position
/// `k`. Ids listed in `order` come first, in the order of their first
/// occurrence there; unlisted ids follow; steps with equal keys (among them
/// all unlisted steps) keep their relative order.
pub fn reorder_permutation(ids: &[String], order: &[String]) -> (r: Vec<usize>)
    ensures
        stable_sorted(sort_keys(string_views(ids@), string_views(order@)), r@),
{
    let mut order_chars: Vec<Vec<char>> = Vec::new();
    let mut j: usize = 0;
    while j < order.len()
        invariant
            j <= order@.len(),
            order_chars@.len() == j,
            forall|l: int| 0 <= l < j ==> (#[trigger] order_chars@[l])@ == order@[l]@,
        decreases order@.len() - j,
    {
        order_chars.push(crate::text::chars_of(order[j].as_str()));
        j = j + 1;
    }
    let ghost ov = string_views(order@);
    assert(order_chars@.map_values(|o: Vec<char>| o@) =~= ov);
    let mut keys: Vec<(usize, Vec<char>)> = Vec::new();
    let mut i: usize = 0;
    while i < ids.len()
        invariant
            i <= ids@.len(),
            order_chars@.map_values(|o: Vec<char>| o@) == ov,
            keys@.len() == i,
            forall|l: int|
                0 <= l < i ==> (#[trigger] keys@[l]).0 as int == sort_key(ov, ids@[l]@).0
                    && keys@[l].1@ == sort_key(ov, ids@[l]@).1,
        decreases ids@.len() - i,
    {
        let idc = crate::text::chars_of(ids[i].as_str());
        keys.push(compute_key(&order_chars, &idc));
        i = i + 1;
    }
    let ghost ks = sort_keys(string_views(ids@), ov);
    assert forall|l: int| 0 <= l < keys@.len() implies (keys@[l].0 as int, keys@[l].1@) == ks[l] by {
        assert(ks[l] == sort_key(ov, ids@[l]@));
    }
    let p = stable_sort_by_keys(&keys);
    assert(key_views(keys@) =~= ks);
    p
}

/// The order in which `sort_steps_by_id` arranges steps whose plugin ids are
/// `ids`: by id, alphabetically; steps with equal ids keep their relative
/// order.
pub fn id_order_permutation(ids: &[String]) -> (r: Vec<usize>)
    ensures
        stable_sorted(id_keys(string_views(ids@)), r@),
{
    let mut keys: Vec<(usize, Vec<char>)> = Vec::new();
    let mut i: usize = 0;
    while i < ids.len()
        invariant
            i <= ids@.len(),
            keys@.len() == i,
            forall|l: int| 0 <= l < i ==> (#[trigger] keys@[l]).0 == 0 && keys@[l].1@ == ids@[l]@,
        decreases ids@.len() - i,
    {
        keys.push((0, crate::text::chars_of(ids[i].as_str())));
        i = i + 1;
    }
    let p = stable_sort_by_keys(&keys);
    assert(key_views(keys@) =~= id_keys(string_views(ids@)));
    p
}

/// The keys `keys` as mathematical values.
pub open spec fn key_views(keys: Seq<(usize, Vec<char>)>) -> Seq<(int, Seq<char>)> {
    keys.map_values(|k: (usize, Vec<char>)| (k.0 as int, k.1@))
}

/// The stable sort of positions by `keys` (insertion sort).
fn stable_sort_by_keys(keys: &Vec<(usize, Vec<char>)>) -> (r: Vec<usize>)
    ensures
        stable_sorted(key_views(keys@), r@),
{
    let ghost ks = key_views(keys@);
    let n = keys.len();
    let mut p: Vec<usize> = Vec::new();
    let mut i: usize = 0;
    while i < n
        invariant
            i <= n == keys@.len() == ks.len(),
            forall|l: int| 0 <= l < n ==> (keys@[l].0 as int, keys@[l].1@) == #[trigger] ks[l],
            p@.len() == i,
            forall|a: int| 0 <= a < i ==> p@[a] < i,
            forall|a: int, b: int| 0 <= a < b < i ==> p@[a] != p@[b],
            forall|a: int, b: int|
                0 <= a < b < i ==> key_lt(ks[p@[a] as int], ks[p@[b] as int]) || (ks[p@[a] as int]
                    == ks[p@[b] as int] && p@[a] < p@[b]),
        decreases n - i,
    {
        let mut pos: usize = 0;
        while pos < p.len() && !key_less(&keys[i], &keys[p[pos]])
            invariant
                pos <= p@.len() == i < n == keys@.len() == ks.len(),
                forall|l: int| 0 <= l < n ==> (keys@[l].0 as int, keys@[l].1@) == #[trigger] ks[l],
                forall|a: int| 0 <= a < i ==> p@[a] < i,
                forall|a: int| 0 <= a < pos ==> !key_lt(ks[i as int], #[trigger] ks[p@[a] as int]),
            decreases p@.len() - pos,
        {
            pos = pos + 1;
        }
        let ghost p0 = p@;
        proof {
            if pos < p@.len() {
                assert(key_lt(ks[i as int], ks[p@[pos as int] as int]));
            }
            assert forall|a: int, b: int|
                0 <= a < b < i + 1 implies key_lt(
                ks[p0.insert(pos as int, i)[a] as int],
                ks[p0.insert(pos as int, i)[b] as int],
            ) || (ks[p0.insert(pos as int, i)[a] as int] == ks[p0.insert(pos as int, i)[b] as int]
                && p0.insert(pos as int, i)[a] < p0.insert(pos as int, i)[b]) by {
                let q = p0.insert(pos as int, i);
                let ki = ks[i as int];
                if a < pos && b == pos {
                    let ka = ks[p0[a] as int];
                    lemma_lex_order(ka.1, ki.1, ki.1);
                    assert(!key_lt(ki, ka));
                    if ka != ki {
                        assert(ka.0 != ki.0 || ka.1 != ki.1);
                    }
                } else if a == pos && b > pos {
                    let kp = ks[p0[pos as int] as int];
                    let kb = ks[p0[b - 1] as int];
                    lemma_lex_order(ki.1, kp.1, kb.1);
                    if b - 1 > pos {
                        assert(key_lt(kp, kb) || kp == kb);
                    }
                } else if a < pos && b > pos {
                    assert(q[a] == p0[a] && q[b] == p0[b - 1]);
                } else if b < pos {
                    assert(q[a] == p0[a] && q[b] == p0[b]);
                } else {
                    assert(q[a] == p0[a - 1] && q[b] == p0[b - 1]);
                }
            }
        }
        p.insert(pos, i);
        i = i + 1;
    }
    p
}

/// A permutation of the indices below `n` takes every one of them.
pub proof fn lemma_permutation_onto(p: Seq<usize>, n: int, v: int)
    requires
        is_permutation(p, n),
        0 <= v < n,
    ensures
        exists|i: int| 0 <= i < n && p[i] == v,
{
    let q = p.map_values(|x: usize| x as int);
    assert(q.no_duplicates()) by {
        assert forall|i: int, j: int| 0 <= i < q.len() && 0 <= j < q.len() && i != j implies q[i]
            != q[j] by {
            if i < j {
                assert(p[i] != p[j]);
            } else {
                assert(p[j] != p[i]);
            }
        }
    }
    q.unique_seq_to_set();
    vstd::set_lib::lemma_int_range(0, n);
    let r = vstd::set_lib::set_int_range(0, n);
    assert(q.to_set().subset_of(r)) by {
        assert forall|x: int| q.to_set().contains(x) implies r.contains(x) by {
            let i = choose|i: int| 0 <= i < q.len() && q[i] == x;
            assert(p[i] < n);
        }
    }
    vstd::seq_lib::seq_to_set_is_finite(q);
    vstd::set_lib::lemma_subset_equality(q.to_set(), r);
    assert(r.contains(v));
    assert(q.to_set().contains(v));
    let i = choose|i: int| 0 <= i < q.len() && q[i] == v;
    assert(p[i] == v);
}

proof fn lemma_stable_prefix(keys: Seq<(int, Seq<char>)>, p: Seq<usize>, q: Seq<usize>, m: int)
    requires
        stable_sorted(keys, p),
        stable_sorted(keys, q),
        0 <= m <= p.len(),
    ensures
        forall|i: int| 0 <= i < m ==> p[i] == q[i],
    decreases m,
{
    if m > 0 {
        let k = m - 1;
        lemma_stable_prefix(keys, p, q, k);
        let n = keys.len() as int;
        let a = p[k];
        let b = q[k];
        if a != b {
            lemma_permutation_onto(q, n, a as int);
            let ma = choose|i: int| 0 <= i < n && q[i] == a;
            lemma_permutation_onto(p, n, b as int);
            let mb = choose|i: int| 0 <= i < n && p[i] == b;
            if ma < k {
                assert(p[ma] == q[ma]);
            }
            if mb < k {
                assert(p[mb] == q[mb]);
            }
            assert(ma > k && mb > k);
            let ka = keys[a as int];
            let kb = keys[b as int];
            lemma_lex_order(ka.1, kb.1, ka.1);
            assert(key_lt(kb, ka) || (kb == ka && b < a));
            assert(key_lt(ka, kb) || (ka == kb && a < b));
        }
    }
}

/// The stable sort is unique: a contract that asks for `stable_sorted` fixes
/// the order completely.
pub proof fn lemma_stable_sort_unique(keys: Seq<(int, Seq<char>)>, p: Seq<usize>, q: Seq<usize>)
    requires
        stable_sorted(keys, p),
        stable_sorted(keys, q),
    ensures
        p == q,
{
    lemma_stable_prefix(keys, p, q, p.len() as int);
    assert(p =~= q);
}

impl<P: Processor> Pipeline<P> {
    /// Rearranges the steps so that position `k` holds the step that was at `perm[k]`.
    fn permute(&mut self, perm: &Vec<usize>)
        requires
            is_permutation(perm@, old(self).steps@.len() as int),
        ensures
            final(self).steps() == permuted(old(self).steps(), perm@),
    {
        let n = self.steps.len();
        let ghost old_steps = self.steps@;
        let mut taken: Vec<P> = Vec::new();
        std::mem::swap(&mut taken, &mut self.steps);
        let mut slots: Vec<Option<P>> = Vec::new();
        while taken.len() > 0
            invariant
                taken@.len() + slots@.len() == n == old_steps.len(),
                forall|j: int| 0 <= j < taken@.len() ==> taken@[j] == old_steps[j],
                forall|j: int|
                    0 <= j < slots@.len() ==> slots@[j] == Some(old_steps[taken@.len() + j]),
            decreases taken@.len(),
        {
            let s = taken.pop().unwrap();
            slots.insert(0, Some(s));
        }
        let mut k: usize = 0;
        let mut out: Vec<P> = Vec::new();
        while k < n
            invariant
                k <= n == old_steps.len() == slots@.len(),
                is_permutation(perm@, n as int),
                out@.len() == k,
                forall|j: int| 0 <= j < k ==> out@[j] == old_steps[perm@[j] as int],
                forall|j: int|
                    0 <= j < n ==> (#[trigger] slots@[j] is Some <==> forall|l: int|
                        0 <= l < k ==> perm@[l] != j),
                forall|j: int|
                    0 <= j < n && #[trigger] slots@[j] is Some ==> slots@[j] == Some(
                        old_steps[j],
                    ),
            decreases n - k,
        {
            let idx = perm[k];
            let s = slots[idx].take();
            out.push(s.unwrap());
            k = k + 1;
        }
        self.steps = out;
        assert(self.steps@ =~= permuted(old_steps, perm@));
    }

    /// The steps, in order.
    pub closed spec fn steps(&self) -> Seq<P> {
        self.steps@
    }

    /// An empty pipeline.
    pub fn new() -> (r: Pipeline<P>)
        ensures
            r.steps() == Seq::<P>::empty(),
    {
        Pipeline { steps: Vec::new() }
    }

    /// Appends a step.
    pub fn add(&mut self, p: P)
        ensures
            final(self).steps() == old(self).steps().push(p),
    {
        self.steps.push(p);
    }

    /// Runs every step on `event`, in order, folding after each step the emits
    /// that target the event into it. Returns the emits that go to the virtual
    /// device and whether the original event is dropped.
    ///
    /// The result is that of a run of the steps (`is_run`) from the event and
    /// a fresh context over `settings`: each step does what it may
    /// (`steps_to`), its emits are folded as `fold_emits` does, and the end is
    /// decided as `Ctx::outcome` does. Whatever the steps do, no returned emit
    /// targets the event as it leaves the pipeline; with no steps the event is
    /// untouched and nothing is emitted or dropped.
    pub fn run(&self, event: &mut Event, settings: &Settings) -> (r: (Vec<EmitEvent>, bool))
        ensures
            exists|mids: Seq<(Event, CtxView)>|
                #[trigger] is_run(self.steps(), start_state(*old(event), settings@), mids)
                    && run_result(start_state(*old(event), settings@), mids) == (
                    *final(event),
                    r.0@,
                    r.1,
                ),
            forall|k: int| 0 <= k < r.0@.len() ==> !absorbs(*final(event), #[trigger] r.0@[k]),
            self.steps().len() == 0 ==> *final(event) == *old(event) && r.0@.len() == 0 && !r.1,
    {
        let ghost start = start_state(*event, settings@);
        let ghost mut mids: Seq<(Event, CtxView)> = Seq::empty();
        let raw = *event;
        let mut ctx = Ctx::new(settings.duplicate(), raw);
        let mut folded = false;
        let mut i: usize = 0;
        while i < self.steps.len()
            invariant
                i <= self.steps@.len(),
                mids.len() == i,
                raw == start.0 && start.1.raw == start.0,
                is_run(self.steps@.take(i as int), start, mids),
                (*event, ctx@) == state_before(start, mids, i as int),
                folded == run_folded(mids),
                i == 0 ==> ctx.emits@.len() == 0 && !ctx.drop_original,
                i == 0 ==> *event == *old(event),
                i > 0 ==> forall|k: int|
                    0 <= k < ctx.emits@.len() ==> !absorbs(*event, #[trigger] ctx.emits@[k]),
            decreases self.steps@.len() - i,
        {
            self.steps[i].process(event, &mut ctx);
            let ghost ev_b = *event;
            let ghost emits_b = ctx.emits@;
            let ghost prev = mids;
            proof {
                mids = mids.push((*event, ctx@));
                assert forall|j: int| 0 <= j < i + 1 implies #[trigger] self.steps@.take(i + 1)[j].steps_to(
                    state_before(start, mids, j),
                    mids[j],
                ) by {
                    if j < i {
                        assert(self.steps@.take(i as int)[j] == self.steps@.take(i + 1)[j]);
                        assert(state_before(start, mids, j) == state_before(start, prev, j));
                    }
                }
            }
            let now = fold_emits(event, &mut ctx);
            if now {
                folded = true;
            }
            ctx.raw = raw;
            proof {
                lemma_fold_seq(ev_b, emits_b);
                if run_folded(mids) {
                    let j = choose|j: int| 0 <= j < mids.len() && #[trigger] fold_seq(mids[j].0, mids[j].1.emits).2;
                    if j < i {
                        assert(prev[j] == mids[j]);
                    }
                }
                if run_folded(prev) {
                    let j = choose|j: int| 0 <= j < prev.len() && #[trigger] fold_seq(prev[j].0, prev[j].1.emits).2;
                    assert(prev[j] == mids[j]);
                }
                assert(fold_seq(mids[i as int].0, mids[i as int].1.emits).2 == now);
            }
            i = i + 1;
        }
        proof {
            assert(self.steps@.take(i as int) =~= self.steps@);
        }
        let r = ctx.outcome(folded);
        proof {
            assert(is_run(self.steps(), start, mids));
            assert(run_result(start, mids) == (*event, r.0@, r.1));
        }
        r
    }
}

impl<P: Processor> Pipeline<P> {
    /// The plugin ids of the steps, as their `id` gives them, in order.
    pub fn plugin_ids(&self) -> (r: Vec<String>)
        ensures
            reported_ids(self.steps(), string_views(r@)),
    {
        let mut r: Vec<String> = Vec::new();
        let mut i: usize = 0;
        while i < self.steps.len()
            invariant
                i <= self.steps@.len(),
                r@.len() == i,
                forall|l: int| 0 <= l < i ==> #[trigger] self.steps@[l].reports_id(r@[l]@),
            decreases self.steps@.len() - i,
        {
            let id = self.steps[i].id();
            r.push(id.to_owned());
            i = i + 1;
        }
        r
    }

    /// Reorders the steps to follow `order`: steps whose ids are listed come
    /// first, in list order; unlisted steps keep their relative order,
    /// appended after. Steps with equal keys keep their relative order.
    ///
    /// The result is a rearrangement of the steps, stably sorted by the keys
    /// of the ids that the steps' `id` gave during the call.
    pub fn reorder(&mut self, order: &[String])
        ensures
            exists|ids: Seq<Seq<char>>, p: Seq<usize>|
                reported_ids(old(self).steps(), ids) && #[trigger] stable_sorted(
                    sort_keys(ids, string_views(order@)),
                    p,
                ) && permuted(old(self).steps(), p) == final(self).steps(),
    {
        let ids = self.plugin_ids();
        let perm = reorder_permutation(ids.as_slice(), order);
        let ghost ids_v = string_views(ids@);
        self.permute(&perm);
        assert(stable_sorted(sort_keys(ids_v, string_views(order@)), perm@));
    }

    /// Sorts the steps by plugin id, keeping steps with equal ids in order.
    pub fn sort_steps_by_id(&mut self)
        ensures
            exists|ids: Seq<Seq<char>>, p: Seq<usize>|
                reported_ids(old(self).steps(), ids) && #[trigger] stable_sorted(id_keys(ids), p)
                    && permuted(old(self).steps(), p) == final(self).steps(),
    {
        let ids = self.plugin_ids();
        let perm = id_order_permutation(ids.as_slice());
        let ghost ids_v = string_views(ids@);
        self.permute(&perm);
        assert(stable_sorted(id_keys(ids_v), perm@));
    }

    /// Reverses the order of the steps.
    pub fn reverse_steps(&mut self)
        ensures
            final(self).steps() == old(self).steps().reverse(),
    {
        let ghost old_steps = self.steps@;
        let mut rest: Vec<P> = Vec::new();
        std::mem::swap(&mut rest, &mut self.steps);
        let mut out: Vec<P> = Vec::new();
        while rest.len() > 0
            invariant
                rest@.len() + out@.len() == old_steps.len(),
                rest@ == old_steps.take(rest@.len() as int),
                out@ == old_steps.skip(rest@.len() as int).reverse(),
            decreases rest@.len(),
        {
            let ghost before = rest@.len();
            let s = rest.pop().unwrap();
            out.push(s);
            assert(out@ =~= old_steps.skip(rest@.len() as int).reverse());
        }
        self.steps = out;
        assert(old_steps.skip(0) =~= old_steps);
    }
}

/// Appending a step keeps the ids the earlier steps report, in order, and
/// adds the appended step's id last: the ids reported after `add(p)` are
/// those reported before, then one that `p` reports.
pub proof fn lemma_add_reported_ids<P: Processor>(steps: Seq<P>, p: P, ids: Seq<Seq<char>>)
    ensures
        reported_ids(steps.push(p), ids) <==> (ids.len() > 0 && reported_ids(steps, ids.drop_last())
            && p.reports_id(ids.last())),
{
    let n = steps.len() as int;
    let s2 = steps.push(p);
    if ids.len() == n + 1 {
        let dl = ids.drop_last();
        assert(s2[n] == p);
        assert(ids.last() == ids[n]);
        if reported_ids(s2, ids) {
            assert forall|i: int| 0 <= i < n implies #[trigger] steps[i].reports_id(dl[i]) by {
                assert(s2[i] == steps[i]);
                assert(s2[i].reports_id(ids[i]));
            }
            assert(s2[n].reports_id(ids[n]));
        }
        if reported_ids(steps, dl) && p.reports_id(ids.last()) {
            assert forall|i: int| 0 <= i < n + 1 implies #[trigger] s2[i].reports_id(ids[i]) by {
                if i < n {
                    assert(s2[i] == steps[i]);
                    assert(steps[i].reports_id(dl[i]));
                }
            }
        }
    }
}

/// Reordering twice by the same list changes nothing the second time, as
/// long as the steps report the same ids again (as many steps as a `Vec`
/// holds).
pub proof fn lemma_reorder_idempotent<P: Processor>(
    steps: Seq<P>,
    order: Seq<Seq<char>>,
    ids: Seq<Seq<char>>,
    p: Seq<usize>,
    q: Seq<usize>,
)
    requires
        steps.len() <= usize::MAX,
        reported_ids(steps, ids),
        stable_sorted(sort_keys(ids, order), p),
        stable_sorted(sort_keys(permuted(ids, p), order), q),
    ensures
        permuted(permuted(steps, p), q) == permuted(steps, p),
{
    let n = ids.len() as int;
    let ks = sort_keys(permuted(ids, p), order);
    let ident = Seq::new(n as nat, |i: int| i as usize);
    assert forall|i: int| 0 <= i < n implies #[trigger] ks[i] == sort_keys(ids, order)[p[i] as int] by {
        assert(p[i] < n);
        assert(permuted(ids, p)[i] == ids[p[i] as int]);
    }
    assert(stable_sorted(ks, ident)) by {
        assert forall|i: int, j: int| 0 <= i < j < n implies key_lt(
            ks[ident[i] as int],
            ks[ident[j] as int],
        ) || (ks[ident[i] as int] == ks[ident[j] as int] && ident[i] < ident[j]) by {
            assert(ks[i] == sort_keys(ids, order)[p[i] as int]);
            assert(ks[j] == sort_keys(ids, order)[p[j] as int]);
            assert(ident[i] == i && ident[j] == j);
        }
        assert(is_permutation(ident, ks.len() as int));
    }
    lemma_stable_sort_unique(ks, ident, q);
    assert(permuted(permuted(steps, p), q) =~= permuted(steps, p));
}

/// Every step of a run sees, besides the event in flight, the event as the
/// run received it: the raw event of the state each step starts in is the
/// start's.
pub proof fn lemma_steps_see_the_received_event(
    start: (Event, CtxView),
    mids: Seq<(Event, CtxView)>,
    i: int,
)
    ensures
        state_before(start, mids, i).1.raw == start.1.raw,
{
}

/// `rank(order, id)` is the index of the first occurrence of `id` in
/// `order`, and `order.len()` exactly when `id` is not listed.
pub proof fn lemma_rank_first_index(order: Seq<Seq<char>>, id: Seq<char>)
    ensures
        0 <= rank(order, id) <= order.len(),
        rank(order, id) < order.len() <==> order.contains(id),
        rank(order, id) < order.len() ==> order[rank(order, id)] == id,
        forall|l: int| 0 <= l < rank(order, id) ==> order[l] != id,
    decreases order.len(),
{
    if order.len() > 0 {
        let t = order.drop_first();
        lemma_rank_first_index(t, id);
        if order[0] != id {
            assert forall|l: int| 0 <= l < rank(order, id) implies order[l] != id by {
                if l > 0 {
                    assert(order[l] == t[l - 1]);
                }
            }
            if t.contains(id) {
                let k = choose|k: int| 0 <= k < t.len() && t[k] == id;
                assert(order[k + 1] == id);
            }
            if order.contains(id) {
                let k = choose|k: int| 0 <= k < order.len() && order[k] == id;
                assert(t[k - 1] == id);
            }
        } else {
            assert(order.contains(id)) by {
                assert(order[0] == id);
            }
        }
    }
}

/// How `reorder` arranges the steps, whose ids are `ids`, by the list
/// `order` (ids listed there that no step has play no part): a
/// rearrangement in which every step whose id is listed comes before every
/// step whose id is not; listed steps follow the first position of their id
/// in `order`; steps whose ids stand at the same place, in particular all
/// unlisted steps, keep their relative order.
pub proof fn lemma_reorder_arrangement(ids: Seq<Seq<char>>, order: Seq<Seq<char>>, p: Seq<usize>)
    requires
        stable_sorted(sort_keys(ids, order), p),
    ensures
        is_permutation(p, ids.len() as int),
        forall|i: int, j: int|
            0 <= i < j < p.len() && order.contains(ids[p[j] as int]) ==> order.contains(
                ids[p[i] as int],
            ),
        forall|i: int, j: int|
            0 <= i < j < p.len() ==> rank(order, ids[p[i] as int]) <= rank(order, ids[p[j] as int]),
        forall|i: int, j: int|
            0 <= i < j < p.len() && rank(order, ids[p[i] as int]) == rank(order, ids[p[j] as int])
                ==> p[i] < p[j],
        forall|i: int, j: int|
            0 <= i < j < p.len() && !order.contains(ids[p[i] as int]) && !order.contains(
                ids[p[j] as int],
            ) ==> p[i] < p[j],
{
    let ks = sort_keys(ids, order);
    let n = ids.len() as int;
    assert forall|i: int, j: int| 0 <= i < j < p.len() implies rank(order, ids[p[i] as int]) <= rank(
        order,
        ids[p[j] as int],
    ) && (rank(order, ids[p[i] as int]) == rank(order, ids[p[j] as int]) ==> p[i] < p[j]) && (
    order.contains(ids[p[j] as int]) ==> order.contains(ids[p[i] as int])) && (!order.contains(
        ids[p[i] as int],
    ) && !order.contains(ids[p[j] as int]) ==> p[i] < p[j]) by {
        let a = p[i] as int;
        let b = p[j] as int;
        assert(a < n && b < n);
        assert(ks[a] == sort_key(order, ids[a]));
        assert(ks[b] == sort_key(order, ids[b]));
        assert(key_lt(ks[a], ks[b]) || (ks[a] == ks[b] && p[i] < p[j]));
        lemma_lex_order(Seq::<char>::empty(), Seq::<char>::empty(), Seq::<char>::empty());
        assert(!lex_lt(ks[a].1, ks[b].1));
        lemma_rank_first_index(order, ids[a]);
        lemma_rank_first_index(order, ids[b]);
    }
}

/// The absolute axis that carries the x position of a stick on `side`.
pub open spec fn stick_x_axis(side: Side) -> u16 {
    if side == Side::Left { 0x00 } else { 0x03 }
}

/// The absolute axis that carries the y position of a stick on `side`.
pub open spec fn stick_y_axis(side: Side) -> u16 {
    if side == Side::Left { 0x01 } else { 0x04 }
}

/// The absolute axis of the trigger on `side`.
pub open spec fn trigger_axis(side: Side) -> u16 {
    if side == Side::Left { 0x02 } else { 0x05 }
}

/// Which emits an event in flight absorbs, and what it becomes: a trigger
/// only an absolute emit on its own axis (`ABS_Z` left, `ABS_RZ` right),
/// taking its value; a stick only an absolute emit on its own x or y axis
/// (`ABS_X`/`ABS_Y` left, `ABS_RX`/`ABS_RY` right), taking it as that
/// coordinate; a button only a key emit with its own code, which sets whether
/// it is pressed. Every other emit (another axis, the other side, another
/// key, another event type) is left for the virtual device.
pub proof fn lemma_fold_own_target_only(emit: EmitEvent, event: Event)
    ensures
        event matches Event::Trigger { value, side } ==> (fold_into(emit, event) is Some <==> (
        emit.ev_type == 3 && emit.code == trigger_axis(side))) && (fold_into(emit, event) is Some
            ==> fold_into(emit, event) == Some(Event::Trigger { value: emit.value, side })),
        event matches Event::Stick { x, y, side } ==> (fold_into(emit, event) is Some <==> (
        emit.ev_type == 3 && (emit.code == stick_x_axis(side) || emit.code == stick_y_axis(side))))
            && (emit.ev_type == 3 && emit.code == stick_x_axis(side) ==> fold_into(emit, event)
            == Some(Event::Stick { x: emit.value, y, side })) && (emit.ev_type == 3 && emit.code
            == stick_y_axis(side) ==> fold_into(emit, event) == Some(
            Event::Stick { x, y: emit.value, side },
        )),
        event matches Event::Button { code, pressed } ==> (fold_into(emit, event) is Some <==> (
        emit.ev_type == 1 && emit.code == code)) && (fold_into(emit, event) is Some ==> fold_into(
            emit,
            event,
        ) == Some(Event::Button { code, pressed: emit.value != 0 })),
{
}

/// An emit with a hold duration is a macro: it is never folded into the event
/// in flight, so a run hands it on to the virtual device.
pub proof fn lemma_held_emits_pass(emit: EmitEvent, event: Event)
    requires
        emit.hold_ms is Some,
    ensures
        !absorbs(event, emit),
{
}

} // verus!
