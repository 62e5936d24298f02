//! The single consumer of the merged event stream: what it holds, and what
//! every event makes of it.

use vstd::prelude::*;
use crate::cache::{
    addressed, distinct, lemma_last_write_wins, listing, swept, table_of, upserted, CacheEntry,
    LivenessCache, Row,
};
use crate::midi::{
    decode, decoded, high_nibble, low_nibble, MidiEvent, NOTE_OFF, NOTE_ON,
};
use crate::address::note_address;
use crate::translate::{address_of, encoded, raw_value_of, translate, EncodedValue};

verus! {

/// How long a row stays in the cache after it was last written, in
/// milliseconds, unless the consumer is set up otherwise.
pub const KEEP_FOR_MS: u64 = 10_000;

/// The key that ends the loop.
pub const QUIT_KEY: char = 'q';

/// What the loop reads of a key press.
#[derive(Debug, Clone, Copy, PartialEq, Eq, Structural)]
pub enum Key {
    /// A key that types a character.
    Char(char),
    /// Any other key.
    Other,
}

/// What travels on the merged channel.
#[derive(Debug, PartialEq, Eq)]
pub enum EventEnvelope {
    /// A key was pressed.
    Input(Key),
    /// The timer fired.
    Tick,
    /// The input source delivered a frame.
    MidiFrame(Vec<u8>),
}

/// The states of the consumer.
#[derive(Debug, Clone, Copy, PartialEq, Eq, Structural)]
pub enum BusState {
    /// No input source is open yet.
    AwaitingPort,
    /// The input source is open and frames are forwarded.
    Running,
    /// The quit key was pressed; nothing is handled any more.
    Stopped,
}

/// What the loop has to do after an event was dispatched.
#[derive(Debug, PartialEq, Eq)]
pub enum Action {
    /// Nothing.
    Nothing,
    /// Draw the dashboard with these rows.
    Render(Vec<(String, EncodedValue)>),
    /// Send one value to one address.
    Send(String, EncodedValue),
    /// Close the input source and restore the terminal, then leave the loop.
    Cleanup,
}

/// An event as contracts see it: the frame is a sequence of bytes.
pub enum EventView {
    /// A key was pressed.
    Input(Key),
    /// The timer fired.
    Tick,
    /// The input source delivered a frame.
    MidiFrame(Seq<u8>),
}

/// An action as contracts see it: addresses are sequences of characters.
pub enum ActionView {
    /// Nothing.
    Nothing,
    /// Draw the dashboard with these rows.
    Render(Seq<(Seq<char>, EncodedValue)>),
    /// Send one value to one address.
    Send(Seq<char>, EncodedValue),
    /// Close the input source and restore the terminal, then leave the loop.
    Cleanup,
}

impl View for EventEnvelope {
    type V = EventView;

    open spec fn view(&self) -> EventView {
        match *self {
            EventEnvelope::Input(key) => EventView::Input(key),
            EventEnvelope::Tick => EventView::Tick,
            EventEnvelope::MidiFrame(frame) => EventView::MidiFrame(frame@),
        }
    }
}

impl View for Action {
    type V = ActionView;

    open spec fn view(&self) -> ActionView {
        match *self {
            Action::Nothing => ActionView::Nothing,
            Action::Render(rows) => ActionView::Render(addressed(rows@)),
            Action::Send(address, value) => ActionView::Send(address@, value),
            Action::Cleanup => ActionView::Cleanup,
        }
    }
}

/// The consumer as contracts see it.
pub struct AppView {
    /// The name of the input source.
    pub port_name: Seq<char>,
    /// Whether values are published as fractions of full scale.
    pub normalize: bool,
    /// How long a row stays in the cache after it was last written, in
    /// milliseconds.
    pub ttl: u64,
    /// Where the consumer stands in its life.
    pub state: BusState,
    /// The rows of the cache, in order.
    pub rows: Seq<Row>,
}

/// Whether a key is the quit command.
pub open spec fn is_quit(key: Key) -> bool {
    key == Key::Char(QUIT_KEY)
}

/// The consumer after a sweep at `now`.
pub open spec fn updated(app: AppView, now: u64) -> AppView {
    AppView { rows: swept(app.rows, now, app.ttl), ..app }
}

/// The consumer after `event` was recorded at `now`.
pub open spec fn recorded(app: AppView, event: MidiEvent, now: u64) -> AppView {
    AppView {
        rows: upserted(
            app.rows,
            address_of(event),
            encoded(raw_value_of(event), app.normalize),
            now,
        ),
        ..app
    }
}

/// One turn of the loop: the consumer after `event` was handled at `now`, and
/// what is left for the loop to do.
///
/// Once stopped, nothing is handled. Before that, the quit key stops the
/// consumer and asks for the cleanup, and any other key is ignored; a tick
/// sweeps the cache and asks for the rows that are left to be drawn; a frame
/// counts only while the input source is open and only if it decodes, and is
/// then recorded in the cache and sent on.
pub open spec fn step(app: AppView, event: EventView, now: u64) -> (AppView, ActionView) {
    if app.state is Stopped {
        (app, ActionView::Nothing)
    } else {
        match event {
            EventView::Input(key) => {
                if is_quit(key) {
                    (AppView { state: BusState::Stopped, ..app }, ActionView::Cleanup)
                } else {
                    (app, ActionView::Nothing)
                }
            },
            EventView::Tick => {
                (updated(app, now), ActionView::Render(listing(updated(app, now).rows)))
            },
            EventView::MidiFrame(frame) => {
                if app.state is Running && decoded(frame) is Some {
                    let event = decoded(frame)->0;
                    (
                        recorded(app, event, now),
                        ActionView::Send(
                            address_of(event),
                            encoded(raw_value_of(event), app.normalize),
                        ),
                    )
                } else {
                    (app, ActionView::Nothing)
                }
            },
        }
    }
}

/// An event together with the time at which the loop took it off the
/// channel, in milliseconds.
#[derive(Debug, PartialEq, Eq)]
pub struct Arrival {
    /// When the event was taken off the channel.
    pub at: u64,
    /// The event.
    pub event: EventEnvelope,
}

/// An arrival as contracts see it.
pub struct ArrivalView {
    /// When the event was taken off the channel.
    pub at: u64,
    /// The event.
    pub event: EventView,
}

impl View for Arrival {
    type V = ArrivalView;

    open spec fn view(&self) -> ArrivalView {
        ArrivalView { at: self.at, event: self.event@ }
    }
}

/// A sequence of arrivals as contracts see it.
pub open spec fn arrivals_of(arrivals: Seq<Arrival>) -> Seq<ArrivalView> {
    Seq::new(arrivals.len(), |i: int| arrivals[i]@)
}

/// A sequence of actions as contracts see it.
pub open spec fn actions_of(actions: Seq<Action>) -> Seq<ActionView> {
    Seq::new(actions.len(), |i: int| actions[i]@)
}

/// The loop run over a sequence of arrivals, first to last: the consumer at
/// the end, and the action of every turn in the order of the arrivals.
pub open spec fn replayed(app: AppView, arrivals: Seq<ArrivalView>) -> (AppView, Seq<ActionView>)
    decreases arrivals.len(),
{
    if arrivals.len() == 0 {
        (app, Seq::empty())
    } else {
        let (before, done) = replayed(app, arrivals.drop_last());
        let (after, action) = step(before, arrivals.last().event, arrivals.last().at);
        (after, done.push(action))
    }
}

/// The state of the single consumer: its configuration, where it stands in
/// its life, and the cache it alone writes.
pub struct App {
    midi_input_port_name: String,
    normalize: bool,
    ttl: u64,
    state: BusState,
    events: LivenessCache,
}

impl View for App {
    type V = AppView;

    closed spec fn view(&self) -> AppView {
        AppView {
            port_name: self.midi_input_port_name@,
            normalize: self.normalize,
            ttl: self.ttl,
            state: self.state,
            rows: self.events@,
        }
    }
}

impl App {
    /// A consumer that waits for its input source, with an empty cache and
    /// the default time to live.
    pub fn setup(midi_input_port_name: String, normalize: bool) -> (app: App)
        ensures
            app@ == (AppView {
                port_name: midi_input_port_name@,
                normalize,
                ttl: KEEP_FOR_MS,
                state: BusState::AwaitingPort,
                rows: Seq::empty(),
            }),
    {
        App {
            midi_input_port_name,
            normalize,
            ttl: KEEP_FOR_MS,
            state: BusState::AwaitingPort,
            events: LivenessCache::new(),
        }
    }

    /// Sweeps the cache: rows older than the time to live at `now` go.
    pub fn update(&mut self, now: u64)
        ensures
            final(self)@ == updated(old(self)@, now),
    {
        self.events.sweep(now, self.ttl);
    }

    /// Records `event` in the cache as seen at `now` and returns what is to
    /// be sent for it.
    pub fn on_midi(&mut self, event: MidiEvent, now: u64) -> (message: (String, EncodedValue))
        ensures
            final(self)@ == recorded(old(self)@, event, now),
            message.0@ == address_of(event),
            message.1 == encoded(raw_value_of(event), old(self)@.normalize),
    {
        let (address, value) = translate(event, self.normalize);
        self.events.upsert(address.clone(), value, now);
        (address, value)
    }

    /// Handles one event taken off the channel at `now`.
    pub fn dispatch(&mut self, event: EventEnvelope, now: u64) -> (action: Action)
        ensures
            (final(self)@, action@) == step(old(self)@, event@, now),
    {
        match self.state {
            BusState::Stopped => {
                return Action::Nothing;
            },
            _ => {},
        }
        match event {
            EventEnvelope::Input(key) => {
                match key {
                    Key::Char(c) => {
                        if c == QUIT_KEY {
                            self.state = BusState::Stopped;
                            return Action::Cleanup;
                        }
                        Action::Nothing
                    },
                    Key::Other => Action::Nothing,
                }
            },
            EventEnvelope::Tick => {
                self.update(now);
                Action::Render(self.events.snapshot())
            },
            EventEnvelope::MidiFrame(frame) => {
                match self.state {
                    BusState::Running => {},
                    _ => {
                        return Action::Nothing;
                    },
                }
                match decode(frame.as_slice()) {
                    Some(event) => {
                        let (address, value) = self.on_midi(event, now);
                        Action::Send(address, value)
                    },
                    None => Action::Nothing,
                }
            },
        }
    }

    /// Runs the loop over arrivals that were taken off the channel in this
    /// order, and returns the action of every turn in the same order.
    pub fn replay(&mut self, arrivals: Vec<Arrival>) -> (actions: Vec<Action>)
        ensures
            (final(self)@, actions_of(actions@)) == replayed(old(self)@, arrivals_of(arrivals@)),
            actions@.len() == arrivals@.len(),
    {
        let ghost start = self@;
        let ghost all = arrivals_of(arrivals@);
        let mut actions: Vec<Action> = Vec::new();
        for arrival in iter: arrivals.into_iter()
            invariant
                all == arrivals_of(iter.seq()),
                actions@.len() == iter.index(),
                (self@, actions_of(actions@)) == replayed(start, all.take(iter.index())),
        {
            proof {
                let turn = iter.index();
                assert(all.take(turn + 1).drop_last() =~= all.take(turn));
            }
            let action = self.dispatch(arrival.event, arrival.at);
            actions.push(action);
        }
        assert(all.take(all.len() as int) =~= all);
        actions
    }

    /// Notes that the input source was opened. This happens once: a consumer
    /// that is running or stopped stays as it is.
    pub fn port_opened(&mut self)
        ensures
            final(self)@ == (AppView {
                state: if old(self)@.state is AwaitingPort {
                    BusState::Running
                } else {
                    old(self)@.state
                },
                ..old(self)@
            }),
    {
        match self.state {
            BusState::AwaitingPort => {
                self.state = BusState::Running;
            },
            _ => {},
        }
    }

    /// The same consumer with another time to live, in milliseconds.
    pub fn with_ttl(self, ttl: u64) -> (app: App)
        ensures
            app@ == (AppView { ttl, ..self@ }),
    {
        App {
            midi_input_port_name: self.midi_input_port_name,
            normalize: self.normalize,
            ttl,
            state: self.state,
            events: self.events,
        }
    }

    /// Where the consumer stands in its life.
    pub fn state(&self) -> (state: BusState)
        ensures
            state == self@.state,
    {
        self.state
    }

    /// The name of the input source the consumer was set up for.
    pub fn port_name(&self) -> (name: &String)
        ensures
            name@ == self@.port_name,
    {
        &self.midi_input_port_name
    }

    /// Whether values are published as fractions of full scale.
    pub fn normalize(&self) -> (normalize: bool)
        ensures
            normalize == self@.normalize,
    {
        self.normalize
    }

    /// How long a row stays in the cache after it was last written, in
    /// milliseconds.
    pub fn ttl(&self) -> (ttl: u64)
        ensures
            ttl == self@.ttl,
    {
        self.ttl
    }

    /// The cache behind the dashboard.
    pub fn events(&self) -> (cache: &LivenessCache)
        ensures
            cache@ == self@.rows,
    {
        &self.events
    }
}

/// How often the cleanup is asked for in a sequence of actions.
pub open spec fn cleanups(actions: Seq<ActionView>) -> nat
    decreases actions.len(),
{
    if actions.len() == 0 {
        0
    } else if actions.last() is Cleanup {
        cleanups(actions.drop_last()) + 1
    } else {
        cleanups(actions.drop_last())
    }
}

/// The quit key ends the loop from any state but the final one: the consumer
/// stops, the cleanup is asked for, and nothing else changes.
pub proof fn lemma_quit_stops(app: AppView, now: u64)
    requires
        !(app.state is Stopped),
    ensures
        step(app, EventView::Input(Key::Char(QUIT_KEY)), now) == (
            AppView { state: BusState::Stopped, ..app },
            ActionView::Cleanup,
        ),
{
}

/// The cleanup is asked for by the turn that stops the consumer and by no
/// other.
pub proof fn lemma_cleanup_marks_stop(app: AppView, event: EventView, now: u64)
    ensures
        step(app, event, now).1 is Cleanup <==> !(app.state is Stopped) && step(
            app,
            event,
            now,
        ).0.state is Stopped,
        step(app, event, now).1 is Cleanup <==> !(app.state is Stopped) && event
            == EventView::Input(Key::Char(QUIT_KEY)),
{
}

/// The states are passed through in one direction only: no turn leads back
/// to waiting for the input source, and none leads out of the final state.
/// The configuration never changes.
pub proof fn lemma_step_moves_forward(app: AppView, event: EventView, now: u64)
    ensures
        step(app, event, now).0.state is AwaitingPort ==> app.state is AwaitingPort,
        app.state is Stopped ==> step(app, event, now) == (app, ActionView::Nothing),
        step(app, event, now).0.port_name == app.port_name,
        step(app, event, now).0.normalize == app.normalize,
        step(app, event, now).0.ttl == app.ttl,
{
}

/// A key that is pressed and then released is left at zero: while the
/// consumer runs, a Note On frame followed by a Note Off frame for the same
/// key sends the velocity and then zero to the address of the key, and leaves
/// the key with one row that shows zero at the time of the release.
pub proof fn lemma_release_overwrites_press(
    app: AppView,
    press: Seq<u8>,
    pressed_at: u64,
    release: Seq<u8>,
    released_at: u64,
)
    requires
        app.state is Running,
        distinct(app.rows),
        press.len() == 3,
        release.len() == 3,
        high_nibble(press[0]) == NOTE_ON,
        high_nibble(release[0]) == NOTE_OFF,
        low_nibble(press[0]) == low_nibble(release[0]),
        press[1] == release[1],
    ensures
        ({
            let key = note_address(low_nibble(press[0]), press[1]);
            let down = encoded(press[2], app.normalize);
            let up = encoded(0, app.normalize);
            let arrivals = seq![
                ArrivalView { at: pressed_at, event: EventView::MidiFrame(press) },
                ArrivalView { at: released_at, event: EventView::MidiFrame(release) },
            ];
            &&& replayed(app, arrivals).1 == seq![
                ActionView::Send(key, down),
                ActionView::Send(key, up),
            ]
            &&& replayed(app, arrivals).0.rows == upserted(app.rows, key, up, released_at)
            &&& distinct(replayed(app, arrivals).0.rows)
            &&& table_of(replayed(app, arrivals).0.rows)[key] == (CacheEntry {
                timestamp: released_at,
                value: up,
            })
        }),
{
    let key = note_address(low_nibble(press[0]), press[1]);
    let down = encoded(press[2], app.normalize);
    let up = encoded(0, app.normalize);
    let first = ArrivalView { at: pressed_at, event: EventView::MidiFrame(press) };
    let second = ArrivalView { at: released_at, event: EventView::MidiFrame(release) };
    let arrivals = seq![first, second];
    assert(arrivals.drop_last() =~= seq![first]);
    assert(seq![first].drop_last() =~= Seq::<ArrivalView>::empty());
    assert(replayed(app, Seq::<ArrivalView>::empty()) == (app, Seq::<ActionView>::empty()));
    let (pressed, sent) = replayed(app, seq![first]);
    assert(pressed.rows == upserted(app.rows, key, down, pressed_at));
    assert(sent =~= seq![ActionView::Send(key, down)]);
    lemma_last_write_wins(app.rows, key, down, pressed_at, up, released_at);
    assert(replayed(app, arrivals).1 =~= seq![
        ActionView::Send(key, down),
        ActionView::Send(key, up),
    ]);
}

/// Every arrival has its turn: there are as many actions as arrivals.
pub proof fn lemma_replayed_len(app: AppView, arrivals: Seq<ArrivalView>)
    ensures
        replayed(app, arrivals).1.len() == arrivals.len(),
    decreases arrivals.len(),
{
    if arrivals.len() > 0 {
        lemma_replayed_len(app, arrivals.drop_last());
    }
}

/// Arrivals are handled in their order: running the loop over one sequence
/// followed by another is running it over the first, and then over the
/// second from where the first left the consumer. The actions come out in
/// the same order.
pub proof fn lemma_replayed_in_order(
    app: AppView,
    first: Seq<ArrivalView>,
    second: Seq<ArrivalView>,
)
    ensures
        replayed(app, first + second).0 == replayed(replayed(app, first).0, second).0,
        replayed(app, first + second).1 == replayed(app, first).1 + replayed(
            replayed(app, first).0,
            second,
        ).1,
    decreases second.len(),
{
    if second.len() == 0 {
        assert(first + second =~= first);
        assert(replayed(app, first).1 + Seq::<ActionView>::empty() =~= replayed(app, first).1);
    } else {
        let whole = first + second;
        assert(whole.drop_last() =~= first + second.drop_last());
        assert(whole.last() == second.last());
        lemma_replayed_in_order(app, first, second.drop_last());
        let middle = replayed(app, first).0;
        let (before, done) = replayed(middle, second.drop_last());
        let (after, action) = step(before, second.last().event, second.last().at);
        assert(replayed(app, first).1 + done.push(action) =~= (replayed(app, first).1 + done).push(
            action,
        ));
    }
}

/// What the loop does with the first arrivals does not depend on what comes
/// after them: the actions of a prefix are a prefix of the actions.
pub proof fn lemma_replayed_prefix(app: AppView, arrivals: Seq<ArrivalView>, n: int)
    requires
        0 <= n <= arrivals.len(),
    ensures
        replayed(app, arrivals.take(n)).1 == replayed(app, arrivals).1.take(n),
{
    let head = arrivals.take(n);
    let tail = arrivals.skip(n);
    assert(head + tail =~= arrivals);
    lemma_replayed_in_order(app, head, tail);
    lemma_replayed_len(app, head);
    let done = replayed(app, head).1;
    let rest = replayed(replayed(app, head).0, tail).1;
    assert((done + rest).take(n) =~= done);
}

/// Once stopped, the consumer stays as it is and asks for nothing.
pub proof fn lemma_stopped_is_final(app: AppView, arrivals: Seq<ArrivalView>)
    requires
        app.state is Stopped,
    ensures
        replayed(app, arrivals).0 == app,
        forall|i: int|
            0 <= i < arrivals.len() ==> #[trigger] replayed(app, arrivals).1[i]
                == ActionView::Nothing,
        replayed(app, arrivals).1.len() == arrivals.len(),
    decreases arrivals.len(),
{
    if arrivals.len() > 0 {
        lemma_stopped_is_final(app, arrivals.drop_last());
    }
}

/// The cleanup is asked for at most once in the life of a consumer: exactly
/// once if the loop stopped in the course of the arrivals, and never
/// otherwise.
pub proof fn lemma_cleanup_once(app: AppView, arrivals: Seq<ArrivalView>)
    ensures
        cleanups(replayed(app, arrivals).1) == if !(app.state is Stopped) && replayed(
            app,
            arrivals,
        ).0.state is Stopped {
            1nat
        } else {
            0nat
        },
    decreases arrivals.len(),
{
    if arrivals.len() > 0 {
        lemma_cleanup_once(app, arrivals.drop_last());
        let (before, done) = replayed(app, arrivals.drop_last());
        let (after, action) = step(before, arrivals.last().event, arrivals.last().at);
        assert(done.push(action).drop_last() =~= done);
        if app.state is Stopped {
            lemma_stopped_is_final(app, arrivals.drop_last());
        }
    }
}

} // verus!
