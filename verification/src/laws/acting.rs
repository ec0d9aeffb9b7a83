//! Laws of the actor and of the records it hands out.
use vstd::prelude::*;

use crate::actor::{
    accepts, contents, reaction, records_of, records_of_device, records_of_model, while_ingesting,
    while_retrieving, while_waiting, Action, Event, MessagesEvent, Signal, State,
};
use crate::process::RecordOperations;
use crate::types::{
    CompressedCRDTOperation, CompressedCRDTOperationsPerModel, DevicePubId, ModelId, RecordId,
};

verus! {

/// When a signal can come up: a start always; an event unless messages are being taken in; an
/// answer to the request, or the end of all channels, while messages are to come; and that the
/// records are dealt with while messages are being taken in and none is left to hand out.
pub proof fn signals_come_up_in_their_states(state: State, signal: Signal)
    ensures
        accepts(state@, signal) <==> match signal {
            Signal::Started => true,
            Signal::Received(_) => state is WaitingForNotification || state is RetrievingMessages,
            Signal::Acknowledged => state is RetrievingMessages,
            Signal::Dropped => state is RetrievingMessages,
            Signal::Disconnected => state is RetrievingMessages,
            Signal::Ingested => state matches State::Ingesting(event) && event.messages.0@.len() == 0,
        },
{
}

proof fn contents_are_those_of_the_actions(actions: Seq<Action>)
    ensures
        contents(actions).len() == actions.len(),
        forall|i: int| 0 <= i < actions.len() ==> contents(actions)[i] == (#[trigger] actions[i])@,
{
}

/// Waiting begins with word that the actor is not active. A notification ends it, with word that
/// the actor is active, and nothing else does: messages that come in are passed over in silence.
pub proof fn waiting_ends_with_a_notification(signal: Signal, after: State, actions: Seq<Action>)
    requires
        accepts(State::WaitingForNotification@, signal),
        (after@ == while_waiting(signal).state && contents(actions) == while_waiting(signal).actions) || (
        after@ == reaction(State::WaitingForNotification@, signal).state && contents(actions) == reaction(
            State::WaitingForNotification@,
            signal,
        ).actions),
    ensures
        after is RetrievingMessages <==> signal matches Signal::Received(Event::Notification),
        after is WaitingForNotification <==> !(signal matches Signal::Received(Event::Notification)),
        signal is Started ==> actions == seq![Action::StoreActive(false)],
        signal matches Signal::Received(Event::Notification) ==> actions == seq![Action::StoreActive(true)],
        signal matches Signal::Received(Event::Messages(_)) ==> actions.len() == 0,
{
    contents_are_those_of_the_actions(actions);
    if actions.len() == 1 {
        assert(actions[0]@ == contents(actions)[0]);
        assert(actions =~= seq![actions[0]]);
    }
}

/// Messages are asked for at the start, once. The first messages that come in are taken as they
/// are; notifications and the acknowledgement of the request change nothing; and an ignored
/// request, or the end of all channels, leads back to waiting.
pub proof fn the_first_messages_are_taken(signal: Signal, after: State, actions: Seq<Action>)
    requires
        accepts(State::RetrievingMessages@, signal),
        (after@ == while_retrieving(signal).state && contents(actions) == while_retrieving(signal).actions)
            || (after@ == reaction(State::RetrievingMessages@, signal).state && contents(actions)
            == reaction(State::RetrievingMessages@, signal).actions),
    ensures
        signal is Started ==> actions == seq![Action::RequestMessages],
        !(signal is Started) ==> actions.len() == 0,
        after is WaitingForNotification <==> signal is Dropped || signal is Disconnected,
        after is Ingesting <==> signal matches Signal::Received(Event::Messages(_)),
        signal matches Signal::Received(Event::Messages(event)) ==> {
            let taken = after->Ingesting_0;
            &&& taken.device_pub_id == event.device_pub_id
            &&& taken.messages.0@ == event.messages.0@
            &&& taken.has_more == event.has_more
            &&& taken.wait_tx == event.wait_tx
        },
{
    contents_are_those_of_the_actions(actions);
    if actions.len() == 1 {
        assert(actions[0]@ == contents(actions)[0]);
        assert(actions =~= seq![actions[0]]);
    }
}

/// On the start all records are handed out, and nothing but the messages leaves the state.
pub proof fn taking_in_starts_with_the_records(event: MessagesEvent, after: State, actions: Seq<Action>)
    requires
        (after@ == while_ingesting(event@, Signal::Started).state && contents(actions) == while_ingesting(
            event@,
            Signal::Started,
        ).actions) || (after@ == reaction(State::Ingesting(event)@, Signal::Started).state && contents(
            actions,
        ) == reaction(State::Ingesting(event)@, Signal::Started).actions),
    ensures
        after is Ingesting,
        after->Ingesting_0.device_pub_id == event.device_pub_id,
        after->Ingesting_0.messages.0@.len() == 0,
        after->Ingesting_0.has_more == event.has_more,
        after->Ingesting_0.wait_tx == event.wait_tx,
        actions.len() == 1,
        actions[0] is Ingest,
        forall|d: int, m: int, r: int|
            0 <= d < event.messages.0@.len() && 0 <= m < event.messages.0@[d].1.0@.len() && 0 <= r
                < event.messages.0@[d].1.0@[m].1@.len() ==> actions[0]->Ingest_0@.contains(
                RecordOperations {
                    device_pub_id: event.messages.0@[d].0,
                    model: event.messages.0@[d].1.0@[m].0,
                    record_id: (#[trigger] event.messages.0@[d].1.0@[m].1@[r]).0,
                    ops: event.messages.0@[d].1.0@[m].1@[r].1,
                },
            ),
        actions[0]->Ingest_0@.len() == event.messages.0@.fold_left(
            0int,
            |n: int, device: (DevicePubId, CompressedCRDTOperationsPerModel)|
                device.1.0@.fold_left(
                    n,
                    |k: int, model: (ModelId, Vec<(RecordId, Vec<CompressedCRDTOperation>)>)|
                        k + model.1@.len(),
                ),
        ),
{
    contents_are_those_of_the_actions(actions);
    assert(actions[0]@ == contents(actions)[0]);
    every_record_is_handed_out(event.messages.0@, actions[0]->Ingest_0@);
}

/// Once the records are dealt with, the actor asks for more exactly where there is more, and else
/// goes back to waiting and says that it has finished. Whether somebody waits for word makes no
/// difference to that; whoever does gets it, first of all.
pub proof fn more_is_asked_for_where_there_is_more(event: MessagesEvent, after: State, actions: Seq<Action>)
    requires
        (after@ == while_ingesting(event@, Signal::Ingested).state && contents(actions) == while_ingesting(
            event@,
            Signal::Ingested,
        ).actions) || (after@ == reaction(State::Ingesting(event)@, Signal::Ingested).state && contents(
            actions,
        ) == reaction(State::Ingesting(event)@, Signal::Ingested).actions),
    ensures
        after is RetrievingMessages <==> event.has_more,
        after is WaitingForNotification <==> !event.has_more,
        actions == match event.wait_tx {
            Some(tx) => seq![Action::SignalWaiter(tx)],
            None => seq![],
        } + if event.has_more {
            seq![]
        } else {
            seq![Action::SendFinishedIngesting]
        },
{
    contents_are_those_of_the_actions(actions);
    if actions.len() > 0 {
        assert(actions[0]@ == contents(actions)[0]);
    }
    if actions.len() > 1 {
        assert(actions[1]@ == contents(actions)[1]);
    }
    assert(actions =~= match event.wait_tx {
        Some(tx) => seq![Action::SignalWaiter(tx)],
        None => seq![],
    } + if event.has_more {
        seq![]
    } else {
        seq![Action::SendFinishedIngesting]
    });
}

/// What the actor does once the records are dealt with depends on nothing but whether there is
/// more and who waits.
pub proof fn the_end_of_taking_in_ignores_the_rest(a: MessagesEvent, b: MessagesEvent)
    requires
        a.has_more == b.has_more,
    ensures
        reaction(State::Ingesting(a)@, Signal::Ingested).state == reaction(
            State::Ingesting(b)@,
            Signal::Ingested,
        ).state,
        a.wait_tx == b.wait_tx ==> reaction(State::Ingesting(a)@, Signal::Ingested).actions == reaction(
            State::Ingesting(b)@,
            Signal::Ingested,
        ).actions,
{
}

/// The records come device after device, within a device model after model, and within a model as
/// they stand.
pub proof fn records_come_as_they_are_grouped(
    devices: Seq<(DevicePubId, CompressedCRDTOperationsPerModel)>,
)
    ensures
        records_of(devices) == devices.map_values(
            |device: (DevicePubId, CompressedCRDTOperationsPerModel)|
                device.1.0@.map_values(
                    |model: (ModelId, Vec<(RecordId, Vec<CompressedCRDTOperation>)>)|
                        model.1@.map_values(
                            |record: (RecordId, Vec<CompressedCRDTOperation>)|
                                RecordOperations {
                                    device_pub_id: device.0,
                                    model: model.0,
                                    record_id: record.0,
                                    ops: record.1,
                                },
                        ),
                ).flatten(),
        ).flatten(),
    decreases devices.len(),
{
    let f = |device: (DevicePubId, CompressedCRDTOperationsPerModel)|
        device.1.0@.map_values(
            |model: (ModelId, Vec<(RecordId, Vec<CompressedCRDTOperation>)>)|
                model.1@.map_values(
                    |record: (RecordId, Vec<CompressedCRDTOperation>)|
                        RecordOperations {
                            device_pub_id: device.0,
                            model: model.0,
                            record_id: record.0,
                            ops: record.1,
                        },
                ),
        ).flatten();
    let all = devices.map_values(f);
    all.lemma_flatten_and_flatten_alt_are_equivalent();
    if devices.len() > 0 {
        let init = devices.drop_last();
        records_come_as_they_are_grouped(init);
        init.map_values(f).lemma_flatten_and_flatten_alt_are_equivalent();
        assert(all.drop_last() =~= init.map_values(f));
        let last = devices.last();
        records_of_a_device(last.0, last.1.0@);
        assert(all.last() == f(last));
    }
}

proof fn records_of_a_device(
    device_pub_id: DevicePubId,
    models: Seq<(ModelId, Vec<(RecordId, Vec<CompressedCRDTOperation>)>)>,
)
    ensures
        records_of_device(device_pub_id, models) == models.map_values(
            |model: (ModelId, Vec<(RecordId, Vec<CompressedCRDTOperation>)>)|
                model.1@.map_values(
                    |record: (RecordId, Vec<CompressedCRDTOperation>)|
                        RecordOperations {
                            device_pub_id: device_pub_id,
                            model: model.0,
                            record_id: record.0,
                            ops: record.1,
                        },
                ),
        ).flatten(),
    decreases models.len(),
{
    let f = |model: (ModelId, Vec<(RecordId, Vec<CompressedCRDTOperation>)>)|
        model.1@.map_values(
            |record: (RecordId, Vec<CompressedCRDTOperation>)|
                RecordOperations {
                    device_pub_id: device_pub_id,
                    model: model.0,
                    record_id: record.0,
                    ops: record.1,
                },
        );
    let all = models.map_values(f);
    all.lemma_flatten_and_flatten_alt_are_equivalent();
    if models.len() > 0 {
        let init = models.drop_last();
        records_of_a_device(device_pub_id, init);
        init.map_values(f).lemma_flatten_and_flatten_alt_are_equivalent();
        assert(all.drop_last() =~= init.map_values(f));
        assert(f(models.last()) =~= records_of_model(device_pub_id, models.last()));
    }
}

/// Every record of every model of every device is handed out with its operations, and there are
/// as many as there are in all models together: none is lost, none comes twice.
pub proof fn every_record_is_handed_out(
    devices: Seq<(DevicePubId, CompressedCRDTOperationsPerModel)>,
    records: Seq<RecordOperations>,
)
    requires
        records == records_of(devices),
    ensures
        forall|d: int, m: int, r: int|
            0 <= d < devices.len() && 0 <= m < devices[d].1.0@.len() && 0 <= r < devices[d].1.0@[m].1@.len()
                ==> records.contains(
                RecordOperations {
                    device_pub_id: devices[d].0,
                    model: devices[d].1.0@[m].0,
                    record_id: (#[trigger] devices[d].1.0@[m].1@[r]).0,
                    ops: devices[d].1.0@[m].1@[r].1,
                },
            ),
        forall|handed: RecordOperations| #[trigger]
            records.contains(handed) ==> exists|d: int, m: int, r: int|
                0 <= d < devices.len() && 0 <= m < devices[d].1.0@.len() && 0 <= r
                    < devices[d].1.0@[m].1@.len() && handed == (RecordOperations {
                    device_pub_id: devices[d].0,
                    model: devices[d].1.0@[m].0,
                    record_id: (#[trigger] devices[d].1.0@[m].1@[r]).0,
                    ops: devices[d].1.0@[m].1@[r].1,
                }),
        records.len() == devices.fold_left(
            0int,
            |n: int, device: (DevicePubId, CompressedCRDTOperationsPerModel)|
                device.1.0@.fold_left(
                    n,
                    |k: int, model: (ModelId, Vec<(RecordId, Vec<CompressedCRDTOperation>)>)|
                        k + model.1@.len(),
                ),
        ),
    decreases devices.len(),
{
    if devices.len() > 0 {
        let init = devices.drop_last();
        let last = devices.last();
        let before = records_of(init);
        let more = records_of_device(last.0, last.1.0@);
        every_record_is_handed_out(init, before);
        let f = |n: int, device: (DevicePubId, CompressedCRDTOperationsPerModel)|
            device.1.0@.fold_left(
                n,
                |k: int, model: (ModelId, Vec<(RecordId, Vec<CompressedCRDTOperation>)>)|
                    k + model.1@.len(),
            );
        every_record_of_a_device(last.0, last.1.0@, init.fold_left(0int, f));
        assert forall|d: int, m: int, r: int|
            0 <= d < devices.len() && 0 <= m < devices[d].1.0@.len() && 0 <= r < devices[d].1.0@[m].1@.len()
                implies records.contains(
            RecordOperations {
                device_pub_id: devices[d].0,
                model: devices[d].1.0@[m].0,
                record_id: (#[trigger] devices[d].1.0@[m].1@[r]).0,
                ops: devices[d].1.0@[m].1@[r].1,
            },
        ) by {
            let record = devices[d].1.0@[m].1@[r];
            let wanted = RecordOperations {
                device_pub_id: devices[d].0,
                model: devices[d].1.0@[m].0,
                record_id: record.0,
                ops: record.1,
            };
            if d < init.len() {
                assert(init[d].1.0@[m].1@[r] == record);
                assert(before.contains(wanted));
                let i = choose|i: int| 0 <= i < before.len() && before[i] == wanted;
                assert(records[i] == wanted);
            } else {
                assert(last.1.0@[m].1@[r] == record);
                assert(more.contains(wanted));
                let i = choose|i: int| 0 <= i < more.len() && more[i] == wanted;
                assert(records[before.len() + i] == wanted);
            }
        }
        assert forall|handed: RecordOperations| #[trigger] records.contains(handed) implies exists|
            d: int,
            m: int,
            r: int,
        |
            0 <= d < devices.len() && 0 <= m < devices[d].1.0@.len() && 0 <= r
                < devices[d].1.0@[m].1@.len() && handed == (RecordOperations {
                device_pub_id: devices[d].0,
                model: devices[d].1.0@[m].0,
                record_id: (#[trigger] devices[d].1.0@[m].1@[r]).0,
                ops: devices[d].1.0@[m].1@[r].1,
            }) by {
            let i = choose|i: int| 0 <= i < records.len() && records[i] == handed;
            if i < before.len() {
                assert(before[i] == handed);
                assert(before.contains(handed));
                let (d, m, r) = choose|d: int, m: int, r: int|
                    0 <= d < init.len() && 0 <= m < init[d].1.0@.len() && 0 <= r < init[d].1.0@[m].1@.len()
                        && handed == (RecordOperations {
                        device_pub_id: init[d].0,
                        model: init[d].1.0@[m].0,
                        record_id: (#[trigger] init[d].1.0@[m].1@[r]).0,
                        ops: init[d].1.0@[m].1@[r].1,
                    });
                assert(devices[d].1.0@[m].1@[r] == init[d].1.0@[m].1@[r]);
            } else {
                assert(more[i - before.len()] == handed);
                assert(more.contains(handed));
                let (m, r) = choose|m: int, r: int|
                    0 <= m < last.1.0@.len() && 0 <= r < last.1.0@[m].1@.len() && handed == (
                    RecordOperations {
                        device_pub_id: last.0,
                        model: last.1.0@[m].0,
                        record_id: (#[trigger] last.1.0@[m].1@[r]).0,
                        ops: last.1.0@[m].1@[r].1,
                    });
                assert(devices[devices.len() - 1].1.0@[m].1@[r] == last.1.0@[m].1@[r]);
            }
        }
    }
}

proof fn every_record_of_a_device(
    device_pub_id: DevicePubId,
    models: Seq<(ModelId, Vec<(RecordId, Vec<CompressedCRDTOperation>)>)>,
    n: int,
)
    ensures
        forall|m: int, r: int|
            0 <= m < models.len() && 0 <= r < models[m].1@.len() ==> records_of_device(
                device_pub_id,
                models,
            ).contains(
                RecordOperations {
                    device_pub_id,
                    model: models[m].0,
                    record_id: (#[trigger] models[m].1@[r]).0,
                    ops: models[m].1@[r].1,
                },
            ),
        forall|handed: RecordOperations| #[trigger]
            records_of_device(device_pub_id, models).contains(handed) ==> exists|m: int, r: int|
                0 <= m < models.len() && 0 <= r < models[m].1@.len() && handed == (RecordOperations {
                    device_pub_id,
                    model: models[m].0,
                    record_id: (#[trigger] models[m].1@[r]).0,
                    ops: models[m].1@[r].1,
                }),
        n + records_of_device(device_pub_id, models).len() == models.fold_left(
            n,
            |k: int, model: (ModelId, Vec<(RecordId, Vec<CompressedCRDTOperation>)>)| k + model.1@.len(),
        ),
    decreases models.len(),
{
    if models.len() > 0 {
        let init = models.drop_last();
        let last = models.last();
        let before = records_of_device(device_pub_id, init);
        let more = records_of_model(device_pub_id, last);
        let records = records_of_device(device_pub_id, models);
        every_record_of_a_device(device_pub_id, init, n);
        assert forall|m: int, r: int|
            0 <= m < models.len() && 0 <= r < models[m].1@.len() implies records.contains(
            RecordOperations {
                device_pub_id,
                model: models[m].0,
                record_id: (#[trigger] models[m].1@[r]).0,
                ops: models[m].1@[r].1,
            },
        ) by {
            let record = models[m].1@[r];
            let wanted = RecordOperations {
                device_pub_id,
                model: models[m].0,
                record_id: record.0,
                ops: record.1,
            };
            if m < init.len() {
                assert(init[m].1@[r] == record);
                let i = choose|i: int| 0 <= i < before.len() && before[i] == wanted;
                assert(records[i] == wanted);
            } else {
                assert(more[r] == wanted);
                assert(records[before.len() + r] == wanted);
            }
        }
        assert forall|handed: RecordOperations| #[trigger] records.contains(handed) implies exists|
            m: int,
            r: int,
        |
            0 <= m < models.len() && 0 <= r < models[m].1@.len() && handed == (RecordOperations {
                device_pub_id,
                model: models[m].0,
                record_id: (#[trigger] models[m].1@[r]).0,
                ops: models[m].1@[r].1,
            }) by {
            let i = choose|i: int| 0 <= i < records.len() && records[i] == handed;
            if i < before.len() {
                assert(before[i] == handed);
                assert(before.contains(handed));
                let (m, r) = choose|m: int, r: int|
                    0 <= m < init.len() && 0 <= r < init[m].1@.len() && handed == (RecordOperations {
                        device_pub_id,
                        model: init[m].0,
                        record_id: (#[trigger] init[m].1@[r]).0,
                        ops: init[m].1@[r].1,
                    });
                assert(models[m].1@[r] == init[m].1@[r]);
            } else {
                let r = i - before.len();
                assert(more[r] == handed);
                assert(models[models.len() - 1].1@[r] == last.1@[r]);
            }
        }
    }
}

} // verus!
