use sync_ingest::actor::{into_records, Action, Actor, Event, MessagesEvent, Request, Signal, State};
use sync_ingest::timestamps::DeviceTimestamps;
use sync_ingest::types::{
    CRDTOperationData, CompressedCRDTOperation, CompressedCRDTOperationsPerModel,
    CompressedCRDTOperationsPerModelPerDevice, DevicePubId, NTP64,
};
use tokio::sync::oneshot;

fn device(uuid: u128) -> DevicePubId {
    DevicePubId { uuid }
}

fn delete_at(time: u64) -> CompressedCRDTOperation {
    CompressedCRDTOperation { timestamp: NTP64(time), data: CRDTOperationData::Delete }
}

fn messages() -> CompressedCRDTOperationsPerModelPerDevice {
    CompressedCRDTOperationsPerModelPerDevice(vec![
        (
            device(1),
            CompressedCRDTOperationsPerModel(vec![
                (
                    7,
                    vec![
                        (rmpv::Value::from(10), vec![delete_at(1), delete_at(2)]),
                        (rmpv::Value::from(11), vec![delete_at(3)]),
                    ],
                ),
                (8, vec![(rmpv::Value::from(10), vec![delete_at(4)])]),
            ]),
        ),
        (device(3), CompressedCRDTOperationsPerModel(vec![])),
        (
            device(2),
            CompressedCRDTOperationsPerModel(vec![(7, vec![(rmpv::Value::from(10), vec![delete_at(5)])])]),
        ),
    ])
}

fn event(has_more: bool, wait_tx: Option<oneshot::Sender<()>>) -> MessagesEvent {
    MessagesEvent { device_pub_id: device(1), messages: messages(), has_more, wait_tx }
}

/// An actor that has just entered the state in which messages are to come.
fn retrieving() -> Actor {
    let mut actor = Actor::new();
    actor.tick(Signal::Started);
    actor.tick(Signal::Received(Event::Notification));
    actor
}

/// An actor that has just received `event`.
fn ingesting(event: MessagesEvent) -> Actor {
    let mut actor = retrieving();
    actor.tick(Signal::Started);
    actor.tick(Signal::Received(Event::Messages(event)));
    actor
}

/// If messages tx is dropped, actor should reset and assume no further messages will be sent.
#[test]
fn messages_request_drop() {
    let mut actor = Actor::new();
    let timestamps = DeviceTimestamps::new();
    for _ in 0..10 {
        let actions = actor.tick(Signal::Started);
        assert!(matches!(actions[..], [Action::StoreActive(false)]));
        let actions = actor.tick(Signal::Received(Event::Notification));
        assert!(matches!(actions[..], [Action::StoreActive(true)]));
        assert!(matches!(actor.state, Some(State::RetrievingMessages)));
        let actions = actor.tick(Signal::Started);
        assert!(matches!(actions[..], [Action::RequestMessages]));

        let (tx, mut rx) = oneshot::channel::<()>();
        let request = Actor::messages_request(&timestamps, tx);
        let Request::Messages { .. } = request else {
            panic!("bruh")
        };
        drop(request);
        assert_eq!(rx.try_recv(), Err(oneshot::error::TryRecvError::Closed));

        assert!(actor.tick(Signal::Dropped).is_empty());
        assert!(matches!(actor.state, Some(State::WaitingForNotification)));
    }
}

#[test]
fn messages_are_ignored_while_waiting() {
    let mut actor = Actor::new();
    actor.tick(Signal::Started);
    let actions = actor.tick(Signal::Received(Event::Messages(event(true, None))));
    assert!(actions.is_empty());
    assert!(matches!(actor.state, Some(State::WaitingForNotification)));
}

#[test]
fn notifications_and_acknowledgements_are_ignored_while_retrieving() {
    let mut actor = retrieving();
    actor.tick(Signal::Started);
    assert!(actor.tick(Signal::Received(Event::Notification)).is_empty());
    assert!(actor.tick(Signal::Acknowledged).is_empty());
    assert!(matches!(actor.state, Some(State::RetrievingMessages)));
}

#[test]
fn the_first_messages_are_carried_on_unchanged() {
    let mut actor = retrieving();
    actor.tick(Signal::Started);
    actor.tick(Signal::Received(Event::Notification));
    actor.tick(Signal::Received(Event::Notification));
    actor.tick(Signal::Received(Event::Messages(event(true, None))));
    match &actor.state {
        Some(State::Ingesting(taken)) => {
            assert_eq!(taken.device_pub_id, device(1));
            assert_eq!(taken.messages, messages());
            assert!(taken.has_more);
            assert!(taken.wait_tx.is_none());
        }
        _ => panic!("the messages were not taken"),
    }
}

#[test]
fn disconnection_ends_the_retrieval() {
    let mut actor = retrieving();
    actor.tick(Signal::Started);
    assert!(actor.tick(Signal::Disconnected).is_empty());
    assert!(matches!(actor.state, Some(State::WaitingForNotification)));
}

#[test]
fn more_messages_are_asked_for() {
    let mut actor = ingesting(event(true, None));
    actor.tick(Signal::Started);
    assert!(actor.tick(Signal::Ingested).is_empty());
    assert!(matches!(actor.state, Some(State::RetrievingMessages)));
}

#[test]
fn the_end_is_announced_after_the_waiter_is_told() {
    let (tx, mut rx) = oneshot::channel::<()>();
    let mut actor = ingesting(event(false, Some(tx)));
    let handed_out = actor.tick(Signal::Started);
    match &handed_out[..] {
        [Action::Ingest(records)] => assert_eq!(*records, into_records(messages())),
        _ => panic!("the records were not handed out"),
    }
    let again = actor.tick(Signal::Started);
    match &again[..] {
        [Action::Ingest(records)] => assert!(records.is_empty()),
        _ => panic!("records were handed out twice"),
    }
    let mut actions = actor.tick(Signal::Ingested);
    assert!(matches!(actor.state, Some(State::WaitingForNotification)));
    assert_eq!(actions.len(), 2);
    assert!(matches!(actions.pop(), Some(Action::SendFinishedIngesting)));
    match actions.pop() {
        Some(Action::SignalWaiter(tx)) => tx.send(()).unwrap(),
        _ => panic!("the waiter was not told"),
    }
    assert_eq!(rx.try_recv(), Ok(()));
}

#[test]
fn records_come_device_by_device_and_model_by_model() {
    let records = into_records(messages());
    let seen: Vec<(u128, u16, rmpv::Value, Vec<u64>)> = records
        .into_iter()
        .map(|record| {
            (
                record.device_pub_id.uuid,
                record.model,
                record.record_id,
                record.ops.iter().map(|op| op.timestamp.0).collect(),
            )
        })
        .collect();
    assert_eq!(
        seen,
        vec![
            (1, 7, rmpv::Value::from(10), vec![1, 2]),
            (1, 7, rmpv::Value::from(11), vec![3]),
            (1, 8, rmpv::Value::from(10), vec![4]),
            (2, 7, rmpv::Value::from(10), vec![5]),
        ]
    );
}

#[test]
fn signals_are_accepted_where_they_can_come_up() {
    let mut actor = Actor::new();
    assert!(matches!(State::default(), State::WaitingForNotification));
    assert!(actor.accepts(&Signal::Started));
    assert!(actor.accepts(&Signal::Received(Event::Notification)));
    assert!(!actor.accepts(&Signal::Disconnected));
    assert!(!actor.accepts(&Signal::Ingested));
    actor.tick(Signal::Received(Event::Notification));
    assert!(actor.accepts(&Signal::Dropped));
    assert!(actor.accepts(&Signal::Acknowledged));
    assert!(!actor.accepts(&Signal::Ingested));
    actor.tick(Signal::Received(Event::Messages(event(false, None))));
    assert!(!actor.accepts(&Signal::Ingested));
    actor.tick(Signal::Started);
    assert!(actor.accepts(&Signal::Ingested));
    assert!(!actor.accepts(&Signal::Received(Event::Notification)));
    actor.state = None;
    assert!(!actor.accepts(&Signal::Started));
}

#[test]
fn the_request_lists_every_known_device() {
    let mut timestamps = DeviceTimestamps::new();
    timestamps.advance(device(4), NTP64(40));
    timestamps.advance(device(5), NTP64(50));
    let (tx, _rx) = oneshot::channel::<()>();
    match Actor::messages_request(&timestamps, tx) {
        Request::Messages { timestamps, .. } => {
            let mut pairs = timestamps;
            pairs.sort();
            assert_eq!(pairs, vec![(device(4), NTP64(40)), (device(5), NTP64(50))]);
        }
        Request::FinishedIngesting => panic!("not a request for messages"),
    }
}
