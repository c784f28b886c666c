//! Navigation input mapping.
//!
//! Heterogeneous input sources are bound to logical navigation intents.
//! Digital sources (keys, mouse buttons) keep a pressed state updated by
//! window events; analog sources (gamepad axes and buttons) are polled from
//! a per-frame snapshot whose amounts arrive already shaped by their
//! response curves.  The pressed amount of an intent is the maximum over
//! its bound sources, in fixed-point thousandths of full activation.
//! Listener rows enqueue their intent whenever one of their sources fires.

use vstd::prelude::*;

verus! {

/// Full activation of a digital source, in fixed-point thousandths.
pub const PRESS_AMOUNT_ONE: u32 = 1000;

/// A logical navigation intent.
#[derive(Clone, Copy, PartialEq, Eq, Structural, Debug)]
pub enum NavIntent {
    Up,
    Down,
    Left,
    Right,
}

/// One bound input source.  Key and mouse sources carry the event-driven
/// pressed state; gamepad sources name the polled channel to read.
#[derive(Clone, Copy, PartialEq, Eq, Structural, Debug)]
pub enum InputSource {
    Key { state: bool, key: u32 },
    Mouse { state: bool, button: u32 },
    GamepadAxis { axis: u32 },
    GamepadButton { button: u32 },
}

/// A window event already reduced to what the bindings read: a key or
/// mouse-button code and whether it was pressed or released.
#[derive(Clone, Copy, PartialEq, Eq, Structural, Debug)]
pub enum WindowInputEvent {
    Key { key: u32, pressed: bool },
    MouseButton { button: u32, pressed: bool },
}

/// A pumped gamepad device event; everything the bindings do not read is
/// `Other`.
#[derive(Clone, Copy, PartialEq, Eq, Structural, Debug)]
pub enum GamepadEvent {
    ButtonPressed { button: u32 },
    Other,
}

/// The polled gamepad state for one frame: per analog channel its curved
/// amount in thousandths, per button whether it is held.
pub struct GamepadSnapshot {
    pub axis_amounts: Vec<(u32, u32)>,
    pub buttons: Vec<(u32, bool)>,
}

/// The amount of the first entry for channel `ch`, zero when no entry
/// matches (no controller connected, or the channel unknown).
pub open spec fn spec_axis_amount(entries: Seq<(u32, u32)>, ch: u32) -> u32
    decreases entries.len(),
{
    if entries.len() == 0 {
        0
    } else if entries[0].0 == ch {
        entries[0].1
    } else {
        spec_axis_amount(entries.drop_first(), ch)
    }
}

/// Whether the first entry for button `b` reports it held; false when no
/// entry matches.
pub open spec fn spec_button_pressed(entries: Seq<(u32, bool)>, b: u32) -> bool
    decreases entries.len(),
{
    if entries.len() == 0 {
        false
    } else if entries[0].0 == b {
        entries[0].1
    } else {
        spec_button_pressed(entries.drop_first(), b)
    }
}

/// The normalized activation one source reports: full for a held digital
/// source, the snapshot's curved amount for an axis, full for a held
/// gamepad button, zero otherwise.
pub open spec fn spec_source_amount(s: InputSource, pad: GamepadSnapshot) -> u32 {
    match s {
        InputSource::Key { state, .. } => if state {
            PRESS_AMOUNT_ONE
        } else {
            0
        },
        InputSource::Mouse { state, .. } => if state {
            PRESS_AMOUNT_ONE
        } else {
            0
        },
        InputSource::GamepadAxis { axis } => spec_axis_amount(pad.axis_amounts@, axis),
        InputSource::GamepadButton { button } => if spec_button_pressed(pad.buttons@, button) {
            PRESS_AMOUNT_ONE
        } else {
            0
        },
    }
}

/// The larger of two amounts.
pub open spec fn amount_max(a: u32, b: u32) -> u32 {
    if a >= b {
        a
    } else {
        b
    }
}

/// The maximum activation over a row of sources.
pub open spec fn spec_sources_max(sources: Seq<InputSource>, pad: GamepadSnapshot) -> u32
    decreases sources.len(),
{
    if sources.len() == 0 {
        0
    } else {
        amount_max(
            spec_sources_max(sources.drop_last(), pad),
            spec_source_amount(sources.last(), pad),
        )
    }
}

/// The maximum activation over every row bound to `ident`: the pressed
/// amount of that intent.  The maximum, never a sum.
pub open spec fn spec_pressed_amount(
    rows: Seq<(Vec<InputSource>, NavIntent)>,
    ident: NavIntent,
    pad: GamepadSnapshot,
) -> u32
    decreases rows.len(),
{
    if rows.len() == 0 {
        0
    } else {
        amount_max(
            spec_pressed_amount(rows.drop_last(), ident, pad),
            if rows.last().1 == ident {
                spec_sources_max(rows.last().0@, pad)
            } else {
                0
            },
        )
    }
}

/// The source after a window event: a key or mouse source with the event's
/// code takes over the event's pressed state; every other source keeps its
/// state, which persists between events.
pub open spec fn spec_update_source(s: InputSource, e: WindowInputEvent) -> InputSource {
    match (e, s) {
        (
            WindowInputEvent::Key { key: event_key, pressed },
            InputSource::Key { state, key },
        ) => if event_key == key {
            InputSource::Key { state: pressed, key }
        } else {
            s
        },
        (
            WindowInputEvent::MouseButton { button: event_button, pressed },
            InputSource::Mouse { state, button },
        ) => if event_button == button {
            InputSource::Mouse { state: pressed, button }
        } else {
            s
        },
        _ => s,
    }
}

/// Whether a window event addresses this source.
pub open spec fn spec_source_matches(s: InputSource, e: WindowInputEvent) -> bool {
    match (e, s) {
        (WindowInputEvent::Key { key: event_key, .. }, InputSource::Key { key, .. }) => event_key
            == key,
        (
            WindowInputEvent::MouseButton { button: event_button, .. },
            InputSource::Mouse { button, .. },
        ) => event_button == button,
        _ => false,
    }
}

/// Whether any source of the row matches the event.
pub open spec fn spec_row_matches(sources: Seq<InputSource>, e: WindowInputEvent) -> bool
    decreases sources.len(),
{
    if sources.len() == 0 {
        false
    } else {
        spec_row_matches(sources.drop_last(), e) || spec_source_matches(sources.last(), e)
    }
}

/// Whether any source of any row matches the event.
pub open spec fn spec_rows_match(
    rows: Seq<(Vec<InputSource>, NavIntent)>,
    e: WindowInputEvent,
) -> bool
    decreases rows.len(),
{
    if rows.len() == 0 {
        false
    } else {
        spec_rows_match(rows.drop_last(), e) || spec_row_matches(rows.last().0@, e)
    }
}

/// The intents one listener row emits for the event: its intent once per
/// matching source, in source order.
pub open spec fn spec_row_pushes(
    sources: Seq<InputSource>,
    ident: NavIntent,
    e: WindowInputEvent,
) -> Seq<NavIntent>
    decreases sources.len(),
{
    if sources.len() == 0 {
        Seq::<NavIntent>::empty()
    } else {
        spec_row_pushes(sources.drop_last(), ident, e) + if spec_source_matches(
            sources.last(),
            e,
        ) {
            seq![ident]
        } else {
            Seq::<NavIntent>::empty()
        }
    }
}

/// The intents all listener rows emit for the event, in row order.
pub open spec fn spec_listener_pushes(
    rows: Seq<(Vec<InputSource>, NavIntent)>,
    e: WindowInputEvent,
) -> Seq<NavIntent>
    decreases rows.len(),
{
    if rows.len() == 0 {
        Seq::<NavIntent>::empty()
    } else {
        spec_listener_pushes(rows.drop_last(), e) + spec_row_pushes(
            rows.last().0@,
            rows.last().1,
            e,
        )
    }
}

/// Whether a gamepad event addresses this source: only button presses
/// match, and only gamepad-button sources.
pub open spec fn spec_matches_gamepad(s: InputSource, e: GamepadEvent) -> bool {
    match (e, s) {
        (
            GamepadEvent::ButtonPressed { button: event_button },
            InputSource::GamepadButton { button },
        ) => event_button == button,
        _ => false,
    }
}

/// The intents one row emits for a gamepad event.
pub open spec fn spec_row_gamepad_pushes(
    sources: Seq<InputSource>,
    ident: NavIntent,
    e: GamepadEvent,
) -> Seq<NavIntent>
    decreases sources.len(),
{
    if sources.len() == 0 {
        Seq::<NavIntent>::empty()
    } else {
        spec_row_gamepad_pushes(sources.drop_last(), ident, e) + if spec_matches_gamepad(
            sources.last(),
            e,
        ) {
            seq![ident]
        } else {
            Seq::<NavIntent>::empty()
        }
    }
}

/// The intents all rows emit for a gamepad event, in row order.
pub open spec fn spec_rows_gamepad_pushes(
    rows: Seq<(Vec<InputSource>, NavIntent)>,
    e: GamepadEvent,
) -> Seq<NavIntent>
    decreases rows.len(),
{
    if rows.len() == 0 {
        Seq::<NavIntent>::empty()
    } else {
        spec_rows_gamepad_pushes(rows.drop_last(), e) + spec_row_gamepad_pushes(
            rows.last().0@,
            rows.last().1,
            e,
        )
    }
}

/// The intents a batch of gamepad events emits, in event order.
pub open spec fn spec_events_gamepad_pushes(
    rows: Seq<(Vec<InputSource>, NavIntent)>,
    events: Seq<GamepadEvent>,
) -> Seq<NavIntent>
    decreases events.len(),
{
    if events.len() == 0 {
        Seq::<NavIntent>::empty()
    } else {
        spec_events_gamepad_pushes(rows, events.drop_last()) + spec_rows_gamepad_pushes(
            rows,
            events.last(),
        )
    }
}

/// A queue (front at index zero) after pushing the given intents to its
/// front, oldest push first.
pub open spec fn spec_enqueue_all(q: Seq<NavIntent>, pushes: Seq<NavIntent>) -> Seq<NavIntent>
    decreases pushes.len(),
{
    if pushes.len() == 0 {
        q
    } else {
        seq![pushes.last()] + spec_enqueue_all(q, pushes.drop_last())
    }
}

impl InputSource {
    /// A key source, initially released.
    pub fn key(key: u32) -> (r: InputSource)
        ensures
            r == (InputSource::Key { state: false, key }),
    {
        InputSource::Key { state: false, key }
    }

    /// An axis source reading the given polled channel.
    pub fn axis(axis: u32) -> (r: InputSource)
        ensures
            r == (InputSource::GamepadAxis { axis }),
    {
        InputSource::GamepadAxis { axis }
    }

    /// Feeds a window event to this source: a matching digital source
    /// takes over the event's pressed state; the return value says whether
    /// the event was for this source.
    pub fn handle_winit(&mut self, e: WindowInputEvent) -> (r: bool)
        ensures
            *final(self) == spec_update_source(*old(self), e),
            r == spec_source_matches(*old(self), e),
    {
        let s0 = *self;
        let (updated, matched) = match (e, s0) {
            (
                WindowInputEvent::Key { key: event_key, pressed },
                InputSource::Key { state: _, key },
            ) => if event_key == key {
                (InputSource::Key { state: pressed, key }, true)
            } else {
                (s0, false)
            },
            (
                WindowInputEvent::MouseButton { button: event_button, pressed },
                InputSource::Mouse { state: _, button },
            ) => if event_button == button {
                (InputSource::Mouse { state: pressed, button }, true)
            } else {
                (s0, false)
            },
            _ => (s0, false),
        };
        *self = updated;
        matched
    }

    /// Whether a pumped gamepad event addresses this source.
    pub fn matches_gamepad(&self, e: GamepadEvent) -> (r: bool)
        ensures
            r == spec_matches_gamepad(*self, e),
    {
        match (e, *self) {
            (
                GamepadEvent::ButtonPressed { button: event_button },
                InputSource::GamepadButton { button },
            ) => event_button == button,
            _ => false,
        }
    }

    /// The normalized activation this source reports against the frame's
    /// gamepad snapshot.
    pub fn pressed_amount(&self, pad: &GamepadSnapshot) -> (r: u32)
        ensures
            r == spec_source_amount(*self, *pad),
    {
        match *self {
            InputSource::Key { state, .. } => if state {
                PRESS_AMOUNT_ONE
            } else {
                0
            },
            InputSource::Mouse { state, .. } => if state {
                PRESS_AMOUNT_ONE
            } else {
                0
            },
            InputSource::GamepadAxis { axis } => axis_amount(&pad.axis_amounts, axis),
            InputSource::GamepadButton { button } => if button_pressed(&pad.buttons, button) {
                PRESS_AMOUNT_ONE
            } else {
                0
            },
        }
    }
}

/// Looks up the curved amount of an analog channel in the snapshot.
fn axis_amount(entries: &Vec<(u32, u32)>, ch: u32) -> (r: u32)
    ensures
        r == spec_axis_amount(entries@, ch),
{
    let mut i: usize = 0;
    proof {
        assert(entries@.skip(0) =~= entries@);
    }
    while i < entries.len()
        invariant
            i <= entries@.len(),
            spec_axis_amount(entries@, ch) == spec_axis_amount(entries@.skip(i as int), ch),
        decreases entries@.len() - i,
    {
        let e = *vstd::std_specs::vec::vec_index(entries, i);
        proof {
            assert(entries@.skip(i as int)[0] == entries@[i as int]);
            assert(entries@.skip(i as int).drop_first() =~= entries@.skip(i as int + 1));
        }
        if e.0 == ch {
            return e.1;
        }
        i = i + 1;
    }
    proof {
        assert(entries@.skip(entries@.len() as int).len() == 0);
    }
    0
}

/// Looks up whether a gamepad button is held in the snapshot.
fn button_pressed(entries: &Vec<(u32, bool)>, b: u32) -> (r: bool)
    ensures
        r == spec_button_pressed(entries@, b),
{
    let mut i: usize = 0;
    proof {
        assert(entries@.skip(0) =~= entries@);
    }
    while i < entries.len()
        invariant
            i <= entries@.len(),
            spec_button_pressed(entries@, b) == spec_button_pressed(entries@.skip(i as int), b),
        decreases entries@.len() - i,
    {
        let e = *vstd::std_specs::vec::vec_index(entries, i);
        proof {
            assert(entries@.skip(i as int)[0] == entries@[i as int]);
            assert(entries@.skip(i as int).drop_first() =~= entries@.skip(i as int + 1));
        }
        if e.0 == b {
            return e.1;
        }
        i = i + 1;
    }
    proof {
        assert(entries@.skip(entries@.len() as int).len() == 0);
    }
    false
}

/// Event-driven and polled input state behind a set of navigation
/// bindings.  Binding rows answer `pressed_amount`; listener rows feed the
/// intent queue.
pub struct HybridInputState {
    bindings: Vec<(Vec<InputSource>, NavIntent)>,
    listeners: Vec<(Vec<InputSource>, NavIntent)>,
    queue: Vec<NavIntent>,
}

impl HybridInputState {
    pub closed spec fn spec_bindings(self) -> Seq<(Vec<InputSource>, NavIntent)> {
        self.bindings@
    }

    pub closed spec fn spec_listeners(self) -> Seq<(Vec<InputSource>, NavIntent)> {
        self.listeners@
    }

    /// The queued intents, front first.
    pub closed spec fn spec_queue(self) -> Seq<NavIntent> {
        self.queue@
    }

    /// Takes ownership of the binding and listener rows; the queue starts
    /// empty.
    pub fn new(
        bindings: Vec<(Vec<InputSource>, NavIntent)>,
        listeners: Vec<(Vec<InputSource>, NavIntent)>,
    ) -> (r: HybridInputState)
        ensures
            r.spec_bindings() == bindings@,
            r.spec_listeners() == listeners@,
            r.spec_queue() == Seq::<NavIntent>::empty(),
    {
        let r = HybridInputState { bindings, listeners, queue: Vec::new() };
        proof {
            assert(r.spec_queue() =~= Seq::<NavIntent>::empty());
        }
        r
    }

    /// Feeds one window event to every source.  Binding sources update
    /// their pressed state; every listener row enqueues its intent once
    /// per matching source.  Returns whether any source matched.
    pub fn handle_winit(&mut self, e: WindowInputEvent) -> (r: bool)
        ensures
            final(self).spec_bindings().len() == old(self).spec_bindings().len(),
            forall|i: int|
                0 <= i < old(self).spec_bindings().len() ==> (#[trigger] final(self).spec_bindings()[i]).0@ == old(self).spec_bindings()[i].0@.map_values(
                    |s: InputSource| spec_update_source(s, e),
                ) && final(self).spec_bindings()[i].1 == old(self).spec_bindings()[i].1,
            final(self).spec_listeners().len() == old(self).spec_listeners().len(),
            forall|i: int|
                0 <= i < old(self).spec_listeners().len() ==> (#[trigger] final(self).spec_listeners()[i]).0@ == old(self).spec_listeners()[i].0@.map_values(
                    |s: InputSource| spec_update_source(s, e),
                ) && final(self).spec_listeners()[i].1 == old(self).spec_listeners()[i].1,
            final(self).spec_queue() == spec_enqueue_all(
                old(self).spec_queue(),
                spec_listener_pushes(old(self).spec_listeners(), e),
            ),
            r == (spec_rows_match(old(self).spec_bindings(), e) || spec_listener_pushes(
                old(self).spec_listeners(),
                e,
            ).len() > 0),
    {
        let mut consumed = false;
        let n = self.bindings.len();
        let mut i: usize = 0;
        while i < n
            invariant
                i <= n,
                n == old(self).spec_bindings().len(),
                self.listeners == old(self).listeners,
                self.queue == old(self).queue,
                self.bindings@.len() == n,
                forall|j: int|
                    0 <= j < i ==> (#[trigger] self.bindings@[j]).0@ == old(
                        self,
                    ).spec_bindings()[j].0@.map_values(
                        |s: InputSource| spec_update_source(s, e),
                    ) && self.bindings@[j].1 == old(self).spec_bindings()[j].1,
                forall|j: int|
                    i <= j < n ==> #[trigger] self.bindings@[j] == old(self).spec_bindings()[j],
                consumed == spec_rows_match(old(self).spec_bindings().take(i as int), e),
            decreases n - i,
        {
            let row = vstd::std_specs::vec::vec_index_mut(&mut self.bindings, i);
            let matched = update_row(&mut row.0, e);
            consumed = consumed || matched;
            proof {
                let rows = old(self).spec_bindings();
                assert(rows.take(i as int + 1).drop_last() =~= rows.take(i as int));
                assert(rows.take(i as int + 1).last() == rows[i as int]);
            }
            i = i + 1;
        }
        proof {
            assert(old(self).spec_bindings().take(n as int) =~= old(self).spec_bindings());
        }
        let mut pushes: Vec<NavIntent> = Vec::new();
        let ghost bindings_done = self.bindings@;
        let m = self.listeners.len();
        let mut i2: usize = 0;
        while i2 < m
            invariant
                i2 <= m,
                m == old(self).spec_listeners().len(),
                self.queue == old(self).queue,
                self.bindings@ == bindings_done,
                self.listeners@.len() == m,
                forall|j: int|
                    0 <= j < i2 ==> (#[trigger] self.listeners@[j]).0@ == old(
                        self,
                    ).spec_listeners()[j].0@.map_values(
                        |s: InputSource| spec_update_source(s, e),
                    ) && self.listeners@[j].1 == old(self).spec_listeners()[j].1,
                forall|j: int|
                    i2 <= j < m ==> #[trigger] self.listeners@[j] == old(self).spec_listeners()[j],
                pushes@ == spec_listener_pushes(old(self).spec_listeners().take(i2 as int), e),
            decreases m - i2,
        {
            let row = vstd::std_specs::vec::vec_index_mut(&mut self.listeners, i2);
            let ghost row_sources = row.0@;
            let ghost row_ident = row.1;
            update_listener_row(&mut row.0, row.1, e, &mut pushes);
            proof {
                let rows = old(self).spec_listeners();
                assert(rows.take(i2 as int + 1).drop_last() =~= rows.take(i2 as int));
                assert(rows.take(i2 as int + 1).last() == rows[i2 as int]);
            }
            i2 = i2 + 1;
        }
        proof {
            assert(old(self).spec_listeners().take(m as int) =~= old(self).spec_listeners());
        }
        let consumed_final = consumed || pushes.len() > 0;
        let np = pushes.len();
        let mut p: usize = 0;
        while p < np
            invariant
                p <= np,
                np == pushes@.len(),
                pushes@ == spec_listener_pushes(old(self).spec_listeners(), e),
                self.bindings@ == bindings_done,
                self.listeners@.len() == m,
                m == old(self).spec_listeners().len(),
                forall|j: int|
                    0 <= j < m ==> (#[trigger] self.listeners@[j]).0@ == old(
                        self,
                    ).spec_listeners()[j].0@.map_values(
                        |s: InputSource| spec_update_source(s, e),
                    ) && self.listeners@[j].1 == old(self).spec_listeners()[j].1,
                self.queue@ == spec_enqueue_all(old(self).spec_queue(), pushes@.take(p as int)),
            decreases np - p,
        {
            let ghost qprev = self.queue@;
            let intent = *vstd::std_specs::vec::vec_index(&pushes, p);
            self.queue.insert(0, intent);
            proof {
                assert(self.queue@ =~= seq![intent] + qprev);
                assert(pushes@.take(p as int + 1).drop_last() =~= pushes@.take(p as int));
                assert(pushes@.take(p as int + 1).last() == pushes@[p as int]);
            }
            p = p + 1;
        }
        proof {
            assert(pushes@.take(np as int) =~= pushes@);
        }
        consumed_final
    }

    /// Pops the oldest queued intent, if any.
    pub fn next_event(&mut self) -> (r: Option<NavIntent>)
        ensures
            final(self).spec_bindings() == old(self).spec_bindings(),
            final(self).spec_listeners() == old(self).spec_listeners(),
            old(self).spec_queue().len() == 0 ==> r is None && final(self).spec_queue() == old(
                self,
            ).spec_queue(),
            old(self).spec_queue().len() > 0 ==> r == Some(old(self).spec_queue().last())
                && final(self).spec_queue() == old(self).spec_queue().drop_last(),
    {
        self.queue.pop()
    }

    /// Feeds a batch of pumped gamepad device events: every binding row
    /// enqueues its intent once per source a button press addresses.  The
    /// rows themselves do not change.
    pub fn update_gamepad(&mut self, events: &Vec<GamepadEvent>)
        ensures
            final(self).spec_bindings() == old(self).spec_bindings(),
            final(self).spec_listeners() == old(self).spec_listeners(),
            final(self).spec_queue() == spec_enqueue_all(
                old(self).spec_queue(),
                spec_events_gamepad_pushes(old(self).spec_bindings(), events@),
            ),
    {
        let mut pushes: Vec<NavIntent> = Vec::new();
        let ne = events.len();
        let mut ei: usize = 0;
        while ei < ne
            invariant
                ei <= ne,
                ne == events@.len(),
                self.bindings == old(self).bindings,
                self.listeners == old(self).listeners,
                self.queue == old(self).queue,
                pushes@ == spec_events_gamepad_pushes(
                    old(self).spec_bindings(),
                    events@.take(ei as int),
                ),
            decreases ne - ei,
        {
            let e = *vstd::std_specs::vec::vec_index(events, ei);
            let nr = self.bindings.len();
            let mut ri: usize = 0;
            while ri < nr
                invariant
                    ri <= nr,
                    nr == self.bindings@.len(),
                    ei < ne,
                    ne == events@.len(),
                    e == events@[ei as int],
                    self.bindings == old(self).bindings,
                    self.listeners == old(self).listeners,
                    self.queue == old(self).queue,
                    pushes@ == spec_events_gamepad_pushes(
                        old(self).spec_bindings(),
                        events@.take(ei as int),
                    ) + spec_rows_gamepad_pushes(
                        old(self).spec_bindings().take(ri as int),
                        e,
                    ),
                decreases nr - ri,
            {
                let row = vstd::std_specs::vec::vec_index(&self.bindings, ri);
                gamepad_row_pushes(&row.0, row.1, e, &mut pushes);
                proof {
                    let rows = old(self).spec_bindings();
                    assert(rows.take(ri as int + 1).drop_last() =~= rows.take(ri as int));
                    assert(rows.take(ri as int + 1).last() == rows[ri as int]);
                }
                ri = ri + 1;
            }
            proof {
                assert(old(self).spec_bindings().take(nr as int) =~= old(self).spec_bindings());
                assert(events@.take(ei as int + 1).drop_last() =~= events@.take(ei as int));
                assert(events@.take(ei as int + 1).last() == events@[ei as int]);
            }
            ei = ei + 1;
        }
        proof {
            assert(events@.take(ne as int) =~= events@);
        }
        let np = pushes.len();
        let mut p: usize = 0;
        while p < np
            invariant
                p <= np,
                np == pushes@.len(),
                pushes@ == spec_events_gamepad_pushes(old(self).spec_bindings(), events@),
                self.bindings == old(self).bindings,
                self.listeners == old(self).listeners,
                self.queue@ == spec_enqueue_all(old(self).spec_queue(), pushes@.take(p as int)),
            decreases np - p,
        {
            let ghost qprev = self.queue@;
            let intent = *vstd::std_specs::vec::vec_index(&pushes, p);
            self.queue.insert(0, intent);
            proof {
                assert(self.queue@ =~= seq![intent] + qprev);
                assert(pushes@.take(p as int + 1).drop_last() =~= pushes@.take(p as int));
                assert(pushes@.take(p as int + 1).last() == pushes@[p as int]);
            }
            p = p + 1;
        }
        proof {
            assert(pushes@.take(np as int) =~= pushes@);
        }
    }

    /// The pressed amount of an intent against the frame's gamepad
    /// snapshot: the maximum activation over every source bound to it,
    /// recomputed on demand.
    pub fn pressed_amount(&self, ident: NavIntent, pad: &GamepadSnapshot) -> (r: u32)
        ensures
            r == spec_pressed_amount(self.spec_bindings(), ident, *pad),
    {
        let n = self.bindings.len();
        let mut best: u32 = 0;
        let mut i: usize = 0;
        while i < n
            invariant
                i <= n,
                n == self.bindings@.len(),
                best == spec_pressed_amount(self.spec_bindings().take(i as int), ident, *pad),
            decreases n - i,
        {
            let row = vstd::std_specs::vec::vec_index(&self.bindings, i);
            if row.1 == ident {
                let row_best = sources_max(&row.0, pad);
                if row_best > best {
                    best = row_best;
                }
            }
            proof {
                let rows = self.spec_bindings();
                assert(rows.take(i as int + 1).drop_last() =~= rows.take(i as int));
                assert(rows.take(i as int + 1).last() == rows[i as int]);
            }
            i = i + 1;
        }
        proof {
            assert(self.spec_bindings().take(n as int) =~= self.spec_bindings());
        }
        best
    }
}

/// Feeds the event to every source of a binding row; reports whether any
/// matched.
fn update_row(sources: &mut Vec<InputSource>, e: WindowInputEvent) -> (matched: bool)
    ensures
        final(sources)@ == old(sources)@.map_values(|s: InputSource| spec_update_source(s, e)),
        matched == spec_row_matches(old(sources)@, e),
{
    let n = sources.len();
    let mut matched = false;
    let mut j: usize = 0;
    while j < n
        invariant
            j <= n,
            n == old(sources)@.len(),
            sources@.len() == n,
            forall|k: int|
                0 <= k < j ==> #[trigger] sources@[k] == spec_update_source(
                    old(sources)@[k],
                    e,
                ),
            forall|k: int| j <= k < n ==> #[trigger] sources@[k] == old(sources)@[k],
            matched == spec_row_matches(old(sources)@.take(j as int), e),
        decreases n - j,
    {
        let src = vstd::std_specs::vec::vec_index_mut(sources, j);
        let m = src.handle_winit(e);
        matched = matched || m;
        proof {
            let ss = old(sources)@;
            assert(ss.take(j as int + 1).drop_last() =~= ss.take(j as int));
            assert(ss.take(j as int + 1).last() == ss[j as int]);
        }
        j = j + 1;
    }
    proof {
        assert(old(sources)@.take(n as int) =~= old(sources)@);
        assert(sources@ =~= old(sources)@.map_values(
            |s: InputSource| spec_update_source(s, e),
        ));
    }
    matched
}

/// Feeds the event to every source of a listener row, appending the row's
/// intent to `pushes` once per matching source.
fn update_listener_row(
    sources: &mut Vec<InputSource>,
    ident: NavIntent,
    e: WindowInputEvent,
    pushes: &mut Vec<NavIntent>,
)
    ensures
        final(sources)@ == old(sources)@.map_values(|s: InputSource| spec_update_source(s, e)),
        final(pushes)@ == old(pushes)@ + spec_row_pushes(old(sources)@, ident, e),
{
    let n = sources.len();
    let mut j: usize = 0;
    while j < n
        invariant
            j <= n,
            n == old(sources)@.len(),
            sources@.len() == n,
            forall|k: int|
                0 <= k < j ==> #[trigger] sources@[k] == spec_update_source(
                    old(sources)@[k],
                    e,
                ),
            forall|k: int| j <= k < n ==> #[trigger] sources@[k] == old(sources)@[k],
            pushes@ == old(pushes)@ + spec_row_pushes(old(sources)@.take(j as int), ident, e),
        decreases n - j,
    {
        let src = vstd::std_specs::vec::vec_index_mut(sources, j);
        let m = src.handle_winit(e);
        if m {
            pushes.push(ident);
        }
        proof {
            let ss = old(sources)@;
            assert(ss.take(j as int + 1).drop_last() =~= ss.take(j as int));
            assert(ss.take(j as int + 1).last() == ss[j as int]);
            if spec_source_matches(ss[j as int], e) {
                assert(pushes@ =~= old(pushes)@ + spec_row_pushes(
                    ss.take(j as int + 1),
                    ident,
                    e,
                ));
            } else {
                assert(pushes@ =~= old(pushes)@ + spec_row_pushes(
                    ss.take(j as int + 1),
                    ident,
                    e,
                ));
            }
        }
        j = j + 1;
    }
    proof {
        assert(old(sources)@.take(n as int) =~= old(sources)@);
        assert(sources@ =~= old(sources)@.map_values(
            |s: InputSource| spec_update_source(s, e),
        ));
    }
}

/// Appends to `pushes` the row's intent once per source the gamepad event
/// addresses.
fn gamepad_row_pushes(
    sources: &Vec<InputSource>,
    ident: NavIntent,
    e: GamepadEvent,
    pushes: &mut Vec<NavIntent>,
)
    ensures
        final(pushes)@ == old(pushes)@ + spec_row_gamepad_pushes(sources@, ident, e),
{
    let n = sources.len();
    let mut j: usize = 0;
    while j < n
        invariant
            j <= n,
            n == sources@.len(),
            pushes@ == old(pushes)@ + spec_row_gamepad_pushes(
                sources@.take(j as int),
                ident,
                e,
            ),
        decreases n - j,
    {
        let src = vstd::std_specs::vec::vec_index(sources, j);
        if src.matches_gamepad(e) {
            pushes.push(ident);
        }
        proof {
            assert(sources@.take(j as int + 1).drop_last() =~= sources@.take(j as int));
            assert(sources@.take(j as int + 1).last() == sources@[j as int]);
            assert(pushes@ =~= old(pushes)@ + spec_row_gamepad_pushes(
                sources@.take(j as int + 1),
                ident,
                e,
            ));
        }
        j = j + 1;
    }
    proof {
        assert(sources@.take(n as int) =~= sources@);
    }
}

/// The maximum activation over a row of sources.
fn sources_max(sources: &Vec<InputSource>, pad: &GamepadSnapshot) -> (r: u32)
    ensures
        r == spec_sources_max(sources@, *pad),
{
    let n = sources.len();
    let mut best: u32 = 0;
    let mut j: usize = 0;
    while j < n
        invariant
            j <= n,
            n == sources@.len(),
            best == spec_sources_max(sources@.take(j as int), *pad),
        decreases n - j,
    {
        let src = vstd::std_specs::vec::vec_index(sources, j);
        let a = src.pressed_amount(pad);
        if a > best {
            best = a;
        }
        proof {
            assert(sources@.take(j as int + 1).drop_last() =~= sources@.take(j as int));
            assert(sources@.take(j as int + 1).last() == sources@[j as int]);
        }
        j = j + 1;
    }
    proof {
        assert(sources@.take(n as int) =~= sources@);
    }
    best
}

} // verus!
