//! The ingest actor: when to ask for operations, and when to take them in.
use tokio::sync::oneshot;
use vstd::prelude::*;

use crate::process::RecordOperations;
use crate::timestamps::{lists_timestamps, DeviceTimestamps};
use crate::types::{
    CompressedCRDTOperation, CompressedCRDTOperationsPerModel, CompressedCRDTOperationsPerModelPerDevice,
    DevicePubId, ModelId, NTP64, RecordId,
};

verus! {

/// Operations that were sent to the actor.
#[derive(Debug)]
pub struct MessagesEvent {
    pub device_pub_id: DevicePubId,
    pub messages: CompressedCRDTOperationsPerModelPerDevice,
    /// Whether the sender holds more for the actor to ask for.
    pub has_more: bool,
    /// Where to report that the operations have been taken in.
    pub wait_tx: Option<oneshot::Sender<()>>,
}

/// What the actor consumes.
#[derive(Debug)]
pub enum Event {
    Notification,
    Messages(MessagesEvent),
}

/// What is handled outside the actor.
#[derive(Debug)]
#[must_use]
pub enum Request {
    /// Send operations newer than these timestamps. `tx` is dropped where the request is ignored.
    Messages { timestamps: Vec<(DevicePubId, NTP64)>, tx: oneshot::Sender<()> },
    FinishedIngesting,
}

/// What the actor is at.
#[derive(Debug)]
pub enum State {
    WaitingForNotification,
    RetrievingMessages,
    Ingesting(MessagesEvent),
}

/// What the actor learns while it is in a state.
#[derive(Debug)]
pub enum Signal {
    /// The state has been entered.
    Started,
    /// An event has come in.
    Received(Event),
    /// The request for messages has been taken on.
    Acknowledged,
    /// The request for messages has been ignored.
    Dropped,
    /// Neither events nor an answer to the request can come any more.
    Disconnected,
    /// Every record that was handed out has been dealt with.
    Ingested,
}

/// What the actor wants done.
#[derive(Debug)]
pub enum Action {
    /// Make known whether the actor is active, and wake those who wait for that.
    StoreActive(bool),
    /// Send a request for messages.
    RequestMessages,
    /// Deal with the operations on these records, one record after another.
    Ingest(Vec<RecordOperations>),
    /// Report to the sender of the messages that they have been taken in.
    SignalWaiter(oneshot::Sender<()>),
    /// Send word that there is nothing left to take in.
    SendFinishedIngesting,
}

/// The records that a device's operations on one model are for.
pub open spec fn records_of_model(
    device_pub_id: DevicePubId,
    model: (ModelId, Vec<(RecordId, Vec<CompressedCRDTOperation>)>),
) -> Seq<RecordOperations> {
    model.1@.map_values(
        |record: (RecordId, Vec<CompressedCRDTOperation>)|
            RecordOperations { device_pub_id, model: model.0, record_id: record.0, ops: record.1 },
    )
}

/// The records that a device's operations are for, model after model.
pub open spec fn records_of_device(
    device_pub_id: DevicePubId,
    models: Seq<(ModelId, Vec<(RecordId, Vec<CompressedCRDTOperation>)>)>,
) -> Seq<RecordOperations>
    decreases models.len(),
{
    if models.len() == 0 {
        Seq::empty()
    } else {
        records_of_device(device_pub_id, models.drop_last()) + records_of_model(device_pub_id, models.last())
    }
}

/// The records that operations are for, device after device.
pub open spec fn records_of(
    devices: Seq<(DevicePubId, CompressedCRDTOperationsPerModel)>,
) -> Seq<RecordOperations>
    decreases devices.len(),
{
    if devices.len() == 0 {
        Seq::empty()
    } else {
        records_of(devices.drop_last()) + records_of_device(devices.last().0, devices.last().1.0@)
    }
}

/// The mathematical content of [`MessagesEvent`].
#[verifier::ext_equal]
pub ghost struct MessagesEventView {
    pub device_pub_id: DevicePubId,
    pub messages: Seq<(DevicePubId, CompressedCRDTOperationsPerModel)>,
    pub has_more: bool,
    pub wait_tx: Option<oneshot::Sender<()>>,
}

/// The mathematical content of [`State`].
#[verifier::ext_equal]
pub ghost enum StateView {
    WaitingForNotification,
    RetrievingMessages,
    Ingesting(MessagesEventView),
}

/// The mathematical content of [`Action`].
#[verifier::ext_equal]
pub ghost enum ActionView {
    StoreActive(bool),
    RequestMessages,
    Ingest(Seq<RecordOperations>),
    SignalWaiter(oneshot::Sender<()>),
    SendFinishedIngesting,
}

impl View for MessagesEvent {
    type V = MessagesEventView;

    open spec fn view(&self) -> MessagesEventView {
        MessagesEventView {
            device_pub_id: self.device_pub_id,
            messages: self.messages.0@,
            has_more: self.has_more,
            wait_tx: self.wait_tx,
        }
    }
}

impl View for State {
    type V = StateView;

    open spec fn view(&self) -> StateView {
        match *self {
            State::WaitingForNotification => StateView::WaitingForNotification,
            State::RetrievingMessages => StateView::RetrievingMessages,
            State::Ingesting(event) => StateView::Ingesting(event@),
        }
    }
}

impl View for Action {
    type V = ActionView;

    open spec fn view(&self) -> ActionView {
        match *self {
            Action::StoreActive(active) => ActionView::StoreActive(active),
            Action::RequestMessages => ActionView::RequestMessages,
            Action::Ingest(records) => ActionView::Ingest(records@),
            Action::SignalWaiter(tx) => ActionView::SignalWaiter(tx),
            Action::SendFinishedIngesting => ActionView::SendFinishedIngesting,
        }
    }
}

impl Default for State {
    fn default() -> (res: State)
        ensures
            res is WaitingForNotification,
    {
        State::WaitingForNotification
    }
}

/// A state to go on in, and what is to be done first.
pub ghost struct Reaction {
    pub state: StateView,
    pub actions: Seq<ActionView>,
}

/// Whether `signal` can come up in `state`. That the records are dealt with can only come up once
/// they have been handed out.
pub open spec fn accepts(state: StateView, signal: Signal) -> bool {
    match signal {
        Signal::Started => true,
        Signal::Received(_) => !(state is Ingesting),
        Signal::Acknowledged | Signal::Dropped | Signal::Disconnected => state is RetrievingMessages,
        Signal::Ingested => state is Ingesting && state->Ingesting_0.messages.len() == 0,
    }
}

/// While waiting, the actor is not active. Only a notification ends the wait; messages that come
/// in before are ignored.
pub open spec fn while_waiting(signal: Signal) -> Reaction {
    match signal {
        Signal::Started => Reaction {
            state: StateView::WaitingForNotification,
            actions: seq![ActionView::StoreActive(false)],
        },
        Signal::Received(Event::Notification) => Reaction {
            state: StateView::RetrievingMessages,
            actions: seq![ActionView::StoreActive(true)],
        },
        _ => Reaction { state: StateView::WaitingForNotification, actions: seq![] },
    }
}

/// Messages are asked for once, and the first that come in are taken. Where the request is
/// ignored, or nothing can come any more, the actor waits for the next notification.
pub open spec fn while_retrieving(signal: Signal) -> Reaction {
    match signal {
        Signal::Started => Reaction {
            state: StateView::RetrievingMessages,
            actions: seq![ActionView::RequestMessages],
        },
        Signal::Received(Event::Messages(event)) => Reaction {
            state: StateView::Ingesting(event@),
            actions: seq![],
        },
        Signal::Dropped | Signal::Disconnected => Reaction {
            state: StateView::WaitingForNotification,
            actions: seq![],
        },
        _ => Reaction { state: StateView::RetrievingMessages, actions: seq![] },
    }
}

/// The records are handed out. Once they are dealt with, the waiting sender is told; then the
/// actor asks for more if there is more, and says that it is done and waits if there is not.
pub open spec fn while_ingesting(event: MessagesEventView, signal: Signal) -> Reaction {
    match signal {
        Signal::Started => Reaction {
            state: StateView::Ingesting(MessagesEventView { messages: seq![], ..event }),
            actions: seq![ActionView::Ingest(records_of(event.messages))],
        },
        Signal::Ingested => {
            let told = match event.wait_tx {
                Some(tx) => seq![ActionView::SignalWaiter(tx)],
                None => seq![],
            };
            if event.has_more {
                Reaction { state: StateView::RetrievingMessages, actions: told }
            } else {
                Reaction {
                    state: StateView::WaitingForNotification,
                    actions: told.push(ActionView::SendFinishedIngesting),
                }
            }
        },
        _ => Reaction { state: StateView::Ingesting(event), actions: seq![] },
    }
}

/// How the actor reacts to `signal` in `state`.
pub open spec fn reaction(state: StateView, signal: Signal) -> Reaction {
    match state {
        StateView::WaitingForNotification => while_waiting(signal),
        StateView::RetrievingMessages => while_retrieving(signal),
        StateView::Ingesting(event) => while_ingesting(event, signal),
    }
}

/// Lists the operations of `messages` record by record.
pub fn into_records(messages: CompressedCRDTOperationsPerModelPerDevice) -> (res: Vec<RecordOperations>)
    ensures
        res@ == records_of(messages.0@),
{
    let ghost devices = messages.0@;
    let mut res: Vec<RecordOperations> = Vec::new();
    proof {
        assert(devices.take(0) =~= Seq::empty());
    }
    for device in it: messages.0.into_iter()
        invariant
            it.seq() == devices,
            res@ == records_of(devices.take(it.index() as int)),
    {
        let ghost before = res@;
        let ghost models = device.1.0@;
        let ghost d = it.index() as int;
        let device_pub_id = device.0;
        proof {
            assert(models.take(0) =~= Seq::empty());
            assert(before + records_of_device(device_pub_id, models.take(0)) =~= before);
        }
        for model in inner: device.1.0.into_iter()
            invariant
                inner.seq() == models,
                res@ == before + records_of_device(device_pub_id, models.take(inner.index() as int)),
        {
            let ghost so_far = res@;
            let ghost records = model.1@;
            let ghost expected = records_of_model(device_pub_id, model);
            let ghost m = inner.index() as int;
            let model_id = model.0;
            proof {
                assert(so_far + expected.take(0) =~= so_far);
            }
            for record in innermost: model.1.into_iter()
                invariant
                    innermost.seq() == records,
                    expected == records_of_model(device_pub_id, model),
                    records == model.1@,
                    model_id == model.0,
                    res@ == so_far + expected.take(innermost.index() as int),
            {
                let ghost r = innermost.index() as int;
                let (record_id, ops) = record;
                res.push(RecordOperations { device_pub_id, model: model_id, record_id, ops });
                proof {
                    assert(so_far + expected.take(r + 1) =~= (so_far + expected.take(r)).push(expected[r]));
                }
            }
            proof {
                assert(expected.take(expected.len() as int) =~= expected);
                assert(models.take(m + 1).drop_last() =~= models.take(m));
                assert(models.take(m + 1).last() == model);
                assert(before + records_of_device(device_pub_id, models.take(m + 1)) =~= before
                    + records_of_device(device_pub_id, models.take(m)) + expected);
            }
        }
        proof {
            assert(models.take(models.len() as int) =~= models);
            assert(devices.take(d + 1).drop_last() =~= devices.take(d));
            assert(devices.take(d + 1).last() == device);
        }
    }
    proof {
        assert(devices.take(devices.len() as int) =~= devices);
    }
    res
}

/// The single entry point for the ingestion of operations from other devices.
#[derive(Debug)]
pub struct Actor {
    pub state: Option<State>,
}

/// The contents of a list of actions.
pub open spec fn contents(actions: Seq<Action>) -> Seq<ActionView> {
    actions.map_values(|action: Action| action@)
}

impl Actor {
    /// An actor that waits for a notification.
    pub fn new() -> (res: Actor)
        ensures
            res.state == Some(State::WaitingForNotification),
    {
        Actor { state: Some(State::default()) }
    }

    /// Whether `signal` can come up now. It cannot where the actor has no state.
    pub fn accepts(&self, signal: &Signal) -> (res: bool)
        ensures
            res == (self.state matches Some(state) && accepts(state@, *signal)),
    {
        match &self.state {
            None => false,
            Some(state) => match signal {
                Signal::Started => true,
                Signal::Received(_) => !matches!(state, State::Ingesting(_)),
                Signal::Acknowledged | Signal::Dropped | Signal::Disconnected => {
                    matches!(state, State::RetrievingMessages)
                },
                Signal::Ingested => match state {
                    State::Ingesting(event) => event.messages.0.len() == 0,
                    _ => false,
                },
            },
        }
    }

    /// Reacts to `signal`, and says what is to be done.
    pub fn tick(&mut self, signal: Signal) -> (res: Vec<Action>)
        requires
            old(self).state matches Some(state) && accepts(state@, signal),
        ensures
            final(self).state is Some,
            final(self).state->0@ == reaction(old(self).state->0@, signal).state,
            contents(res@) == reaction(old(self).state->0@, signal).actions,
            old(self).state->0 is RetrievingMessages ==> (signal matches Signal::Received(Event::Messages(event))
                ==> final(self).state == Some(State::Ingesting(event))),
    {
        let mut actions: Vec<Action> = Vec::new();
        if let Some(state) = self.state.take() {
            let (state, todo) = match state {
                State::WaitingForNotification => Self::waiting_for_notification_state_transition(signal),
                State::RetrievingMessages => Self::retrieving_messages_state_transition(signal),
                State::Ingesting(event) => Self::ingesting_state_transition(event, signal),
            };
            self.state = Some(state);
            actions = todo;
        }
        actions
    }

    /// Reacts to `signal` while waiting for a notification.
    pub fn waiting_for_notification_state_transition(signal: Signal) -> (res: (State, Vec<Action>))
        requires
            accepts(StateView::WaitingForNotification, signal),
        ensures
            res.0@ == while_waiting(signal).state,
            contents(res.1@) == while_waiting(signal).actions,
    {
        let mut actions: Vec<Action> = Vec::new();
        let state = match signal {
            Signal::Started => {
                actions.push(Action::StoreActive(false));
                State::WaitingForNotification
            },
            Signal::Received(Event::Notification) => {
                actions.push(Action::StoreActive(true));
                State::RetrievingMessages
            },
            _ => State::WaitingForNotification,
        };
        assert(contents(actions@) =~= while_waiting(signal).actions);
        (state, actions)
    }

    /// Reacts to `signal` while messages are to come.
    pub fn retrieving_messages_state_transition(signal: Signal) -> (res: (State, Vec<Action>))
        requires
            accepts(StateView::RetrievingMessages, signal),
        ensures
            res.0@ == while_retrieving(signal).state,
            contents(res.1@) == while_retrieving(signal).actions,
            signal matches Signal::Received(Event::Messages(event)) ==> res.0 == State::Ingesting(event),
    {
        let mut actions: Vec<Action> = Vec::new();
        let state = match signal {
            Signal::Started => {
                actions.push(Action::RequestMessages);
                State::RetrievingMessages
            },
            Signal::Received(Event::Messages(event)) => State::Ingesting(event),
            Signal::Dropped | Signal::Disconnected => State::WaitingForNotification,
            _ => State::RetrievingMessages,
        };
        assert(contents(actions@) =~= while_retrieving(signal).actions);
        (state, actions)
    }

    /// Reacts to `signal` while messages are being taken in.
    pub fn ingesting_state_transition(event: MessagesEvent, signal: Signal) -> (res: (State, Vec<Action>))
        requires
            accepts(StateView::Ingesting(event@), signal),
        ensures
            res.0@ == while_ingesting(event@, signal).state,
            contents(res.1@) == while_ingesting(event@, signal).actions,
    {
        let ghost reaction = while_ingesting(event@, signal);
        let mut actions: Vec<Action> = Vec::new();
        let state = match signal {
            Signal::Started => {
                actions.push(Action::Ingest(into_records(event.messages)));
                State::Ingesting(
                    MessagesEvent {
                        device_pub_id: event.device_pub_id,
                        messages: CompressedCRDTOperationsPerModelPerDevice(Vec::new()),
                        has_more: event.has_more,
                        wait_tx: event.wait_tx,
                    },
                )
            },
            Signal::Ingested => {
                if let Some(tx) = event.wait_tx {
                    actions.push(Action::SignalWaiter(tx));
                }
                if event.has_more {
                    State::RetrievingMessages
                } else {
                    actions.push(Action::SendFinishedIngesting);
                    State::WaitingForNotification
                }
            },
            _ => State::Ingesting(event),
        };
        assert(contents(actions@) =~= reaction.actions);
        (state, actions)
    }

    /// The request for messages newer than what is known of each device. `tx` goes with it, to be
    /// used or dropped by whoever gets the request.
    pub fn messages_request(timestamps: &DeviceTimestamps, tx: oneshot::Sender<()>) -> (res: Request)
        ensures
            match res {
                Request::Messages { timestamps: pairs, tx: sent } => lists_timestamps(
                    pairs@,
                    timestamps@,
                ) && sent == tx,
                Request::FinishedIngesting => false,
            },
    {
        Request::Messages { timestamps: timestamps.pairs(), tx }
    }
}

/// How the actor reacts to `signals`, one after another.
pub open spec fn run(state: StateView, signals: Seq<Signal>) -> Reaction
    decreases signals.len(),
{
    if signals.len() == 0 {
        Reaction { state, actions: seq![] }
    } else {
        let before = run(state, signals.drop_last());
        let last = reaction(before.state, signals.last());
        Reaction { state: last.state, actions: before.actions + last.actions }
    }
}

/// `n` times over: a notification, and a request for messages that is ignored.
pub open spec fn ignored_rounds(n: nat) -> Seq<Signal>
    decreases n,
{
    if n == 0 {
        seq![]
    } else {
        ignored_rounds((n - 1) as nat).push(Signal::Started).push(
            Signal::Received(Event::Notification),
        ).push(Signal::Started).push(Signal::Dropped)
    }
}

/// What the actor does in such rounds.
pub open spec fn actions_of_rounds(n: nat) -> Seq<ActionView>
    decreases n,
{
    if n == 0 {
        seq![]
    } else {
        actions_of_rounds((n - 1) as nat).push(ActionView::StoreActive(false)).push(
            ActionView::StoreActive(true),
        ).push(ActionView::RequestMessages)
    }
}

proof fn run_push(state: StateView, signals: Seq<Signal>, signal: Signal)
    ensures
        run(state, signals.push(signal)) == (Reaction {
            state: reaction(run(state, signals).state, signal).state,
            actions: run(state, signals).actions + reaction(run(state, signals).state, signal).actions,
        }),
{
    assert(signals.push(signal).drop_last() =~= signals);
}

/// When a request is dropped the actor starts over and expects nothing more of it: after any
/// number of notifications whose requests were all ignored it is waiting again, and has sent one
/// request for each.
pub proof fn ignored_requests_start_over(n: nat)
    ensures
        run(StateView::WaitingForNotification, ignored_rounds(n)).state is WaitingForNotification,
        run(StateView::WaitingForNotification, ignored_rounds(n)).actions == actions_of_rounds(n),
    decreases n,
{
    let start = StateView::WaitingForNotification;
    if n == 0 {
        assert(run(start, ignored_rounds(0)).actions =~= seq![]);
    } else {
        let m = (n - 1) as nat;
        ignored_requests_start_over(m);
        let a = ignored_rounds(m);
        let b = a.push(Signal::Started);
        let c = b.push(Signal::Received(Event::Notification));
        let d = c.push(Signal::Started);
        run_push(start, a, Signal::Started);
        run_push(start, b, Signal::Received(Event::Notification));
        run_push(start, c, Signal::Started);
        run_push(start, d, Signal::Dropped);
        assert(run(start, ignored_rounds(n)).actions =~= actions_of_rounds(n));
    }
}

/// Whether the actor counts as active after `actions`, having been `active` before.
pub open spec fn active_after(active: bool, actions: Seq<ActionView>) -> bool
    decreases actions.len(),
{
    if actions.len() == 0 {
        active
    } else {
        match actions.last() {
            ActionView::StoreActive(now) => now,
            _ => active_after(active, actions.drop_last()),
        }
    }
}

/// The actor counts as active whenever it is not waiting for a notification; and once it has
/// started to wait it does not.
pub proof fn active_unless_waiting(state: StateView, signal: Signal, active: bool)
    requires
        accepts(state, signal),
        !(state is WaitingForNotification) ==> active,
    ensures
        !(reaction(state, signal).state is WaitingForNotification) ==> active_after(
            active,
            reaction(state, signal).actions,
        ),
        state is WaitingForNotification && signal is Started ==> !active_after(
            active,
            reaction(state, signal).actions,
        ),
        state is WaitingForNotification && !active && reaction(state, signal).state is WaitingForNotification
            ==> !active_after(active, reaction(state, signal).actions),
{
    reveal_with_fuel(active_after, 3);
    let actions = reaction(state, signal).actions;
    match (state, signal) {
        (StateView::Ingesting(event), Signal::Ingested) => {
            match event.wait_tx {
                Some(tx) => {
                    assert(seq![ActionView::SignalWaiter(tx)].push(
                        ActionView::SendFinishedIngesting,
                    ).drop_last() =~= seq![ActionView::SignalWaiter(tx)]);
                },
                None => {
                    assert(Seq::<ActionView>::empty().push(
                        ActionView::SendFinishedIngesting,
                    ).drop_last() =~= seq![]);
                },
            }
        },
        _ => {},
    }
}

/// Nothing but a notification ends the wait: messages that come in meanwhile are ignored, and
/// nothing is asked for.
pub proof fn only_a_notification_ends_the_wait(signal: Signal)
    requires
        accepts(StateView::WaitingForNotification, signal),
        !(signal matches Signal::Received(Event::Notification)),
    ensures
        reaction(StateView::WaitingForNotification, signal).state is WaitingForNotification,
        !reaction(StateView::WaitingForNotification, signal).actions.contains(ActionView::RequestMessages),
        signal is Received ==> reaction(StateView::WaitingForNotification, signal).actions.len() == 0,
{
}

/// Every record that comes in while messages are to come is handed out, and only then is the
/// taking in of the messages brought to its end.
pub proof fn received_records_are_handed_out(event: MessagesEvent)
    ensures
        ({
            let end = while_ingesting(event@, Signal::Ingested);
            let all = run(
                StateView::RetrievingMessages,
                seq![Signal::Received(Event::Messages(event)), Signal::Started, Signal::Ingested],
            );
            &&& all.state == end.state
            &&& all.actions == seq![ActionView::Ingest(records_of(event.messages.0@))] + end.actions
        }),
{
    let start = StateView::RetrievingMessages;
    let none = Seq::<Signal>::empty();
    let received = none.push(Signal::Received(Event::Messages(event)));
    let started = received.push(Signal::Started);
    run_push(start, none, Signal::Received(Event::Messages(event)));
    run_push(start, received, Signal::Started);
    run_push(start, started, Signal::Ingested);
    let all = seq![Signal::Received(Event::Messages(event)), Signal::Started, Signal::Ingested];
    assert(started.push(Signal::Ingested) =~= all);
    assert(run(start, all).actions =~= seq![ActionView::Ingest(records_of(event.messages.0@))]
        + while_ingesting(event@, Signal::Ingested).actions);
}

/// The actor does not leave messages behind: it goes on from taking them in only once nothing is
/// left to hand out.
pub proof fn no_messages_are_left_behind(event: MessagesEventView, signal: Signal)
    requires
        accepts(StateView::Ingesting(event), signal),
    ensures
        !(reaction(StateView::Ingesting(event), signal).state is Ingesting) ==> event.messages.len() == 0,
        event.messages.len() > 0 ==> reaction(StateView::Ingesting(event), signal).actions == seq![
            ActionView::Ingest(records_of(event.messages)),
        ],
{
}

/// No record is handed out twice: the records leave with the first start, and nothing is left for
/// another.
pub proof fn records_are_handed_out_once(event: MessagesEventView)
    ensures
        run(StateView::Ingesting(event), seq![Signal::Started, Signal::Started]).actions == seq![
            ActionView::Ingest(records_of(event.messages)),
            ActionView::Ingest(seq![]),
        ],
{
    let start = StateView::Ingesting(event);
    let none = Seq::<Signal>::empty();
    run_push(start, none, Signal::Started);
    run_push(start, none.push(Signal::Started), Signal::Started);
    assert(none.push(Signal::Started).push(Signal::Started) =~= seq![Signal::Started, Signal::Started]);
    assert(run(start, seq![Signal::Started, Signal::Started]).actions =~= seq![
        ActionView::Ingest(records_of(event.messages)),
        ActionView::Ingest(seq![]),
    ]);
}

/// The actor says that it has finished exactly when it has taken messages in and there are no
/// more; it asks for messages exactly on entering the state for that; and it tells a sender
/// exactly when that sender's messages have been taken in.
pub proof fn words_are_sent_in_their_place(state: StateView, signal: Signal, tx: oneshot::Sender<()>)
    requires
        accepts(state, signal),
    ensures
        reaction(state, signal).actions.contains(ActionView::SendFinishedIngesting) <==> (signal is Ingested
            && !state->Ingesting_0.has_more),
        reaction(state, signal).actions.contains(ActionView::RequestMessages) <==> (signal is Started
            && state is RetrievingMessages),
        reaction(state, signal).actions.contains(ActionView::SignalWaiter(tx)) <==> (signal is Ingested
            && state->Ingesting_0.wait_tx == Some(tx)),
{
    let actions = reaction(state, signal).actions;
    if signal is Ingested {
        let event = state->Ingesting_0;
        if !event.has_more {
            assert(actions.last() == ActionView::SendFinishedIngesting);
            assert(actions.contains(ActionView::SendFinishedIngesting));
        }
        if event.wait_tx is Some {
            assert(actions[0] == ActionView::SignalWaiter(event.wait_tx->0));
        }
    } else if signal is Started && state is RetrievingMessages {
        assert(actions[0] == ActionView::RequestMessages);
    }
}

} // verus!
