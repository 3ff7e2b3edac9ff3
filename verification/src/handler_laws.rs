//! What holds of the storage handler over whole requests.
use crate::handler::action_of;
use crate::handler::begun;
use crate::handler::collecting;
use crate::handler::next;
use crate::handler::restoring;
use crate::handler::saving;
use crate::handler::slot;
use crate::handler::sound;
use crate::handler::Action;
use crate::handler::ActionView;
use crate::handler::ConfigEntry;
use crate::handler::Event;
use crate::handler::Handler;
use crate::handler::PhaseView;
use crate::handler::CONFIG_BUFFER_LEN;
use crate::handler::ERASE_BUFFER_LEN;
use crate::handler::LOG_BUFFER_LEN;
use crate::saved_config::Pair;
use crate::task::StorageTask;
use vstd::prelude::*;

verus! {

/// The phase that a phase comes to over a sequence of events.
pub open spec fn run<M, K, R>(
    keys: Seq<ConfigEntry>,
    phase: PhaseView<M, K, R>,
    events: Seq<Event<M, K, R>>,
) -> PhaseView<M, K, R>
    decreases events.len(),
{
    if events.len() == 0 {
        phase
    } else {
        next(keys, run(keys, phase, events.drop_last()), events.last())
    }
}

/// A run over two sequences of events is the run over their concatenation.
pub proof fn lemma_run_concat<M, K, R>(
    keys: Seq<ConfigEntry>,
    phase: PhaseView<M, K, R>,
    first: Seq<Event<M, K, R>>,
    second: Seq<Event<M, K, R>>,
)
    ensures
        run(keys, phase, first + second) == run(keys, run(keys, phase, first), second),
    decreases second.len(),
{
    if second.len() == 0 {
        assert(first + second =~= first);
    } else {
        assert((first + second).drop_last() =~= first + second.drop_last());
        lemma_run_concat(keys, phase, first, second.drop_last());
    }
}

/// From its first request on, a handler only comes to sound phases.
pub proof fn law_always_sound<M, K, R>(keys: Seq<ConfigEntry>, events: Seq<Event<M, K, R>>)
    ensures
        sound(keys, run(keys, PhaseView::<M, K, R>::Receiving, events)),
    decreases events.len(),
{
    if events.len() > 0 {
        law_always_sound(keys, events.drop_last());
    }
}

/// What the events of an erase report of the keys: the outcome of each lookup, in the order of the
/// table.
pub open spec fn lookups<M, K, R>(replies: Seq<Result<Option<u64>, ()>>) -> Seq<Event<M, K, R>> {
    replies.map_values(|reply: Result<Option<u64>, ()>| Event::ConfigFetched(reply))
}

/// The pairs of those keys for which a lookup gave a value, in the order of the table.
pub open spec fn kept(keys: Seq<ConfigEntry>, replies: Seq<Result<Option<u64>, ()>>) -> Seq<Pair>
    decreases replies.len(),
{
    if replies.len() == 0 {
        Seq::empty()
    } else {
        let before = kept(keys, replies.drop_last());
        match replies.last() {
            Ok(Some(value)) => before.push((keys[replies.len() - 1].0, value)),
            _ => before,
        }
    }
}

proof fn lemma_saving<M, K, R>(keys: Seq<ConfigEntry>, replies: Seq<Result<Option<u64>, ()>>)
    requires
        replies.len() <= keys.len(),
    ensures
        run(keys, saving::<M, K, R>(keys, 0, Seq::empty()), lookups(replies)) == saving::<M, K, R>(
            keys,
            replies.len(),
            kept(keys, replies),
        ),
    decreases replies.len(),
{
    if replies.len() > 0 {
        lemma_saving::<M, K, R>(keys, replies.drop_last());
        assert(lookups::<M, K, R>(replies).drop_last() =~= lookups::<M, K, R>(
            replies.drop_last(),
        ));
    }
}

/// Outcomes of storing, good or bad.
pub open spec fn stores<M, K, R>(outcomes: Seq<Result<(), ()>>) -> Seq<Event<M, K, R>> {
    outcomes.map_values(|outcome: Result<(), ()>| Event::ConfigStored(outcome))
}

proof fn lemma_restoring<M, K, R>(
    keys: Seq<ConfigEntry>,
    saved: Seq<Pair>,
    outcomes: Seq<Result<(), ()>>,
)
    requires
        outcomes.len() <= saved.len(),
    ensures
        run(keys, restoring::<M, K, R>(0, saved), stores(outcomes)) == restoring::<M, K, R>(
            outcomes.len(),
            saved,
        ),
    decreases outcomes.len(),
{
    if outcomes.len() > 0 {
        lemma_restoring::<M, K, R>(keys, saved, outcomes.drop_last());
        assert(stores::<M, K, R>(outcomes).drop_last() =~= stores::<M, K, R>(
            outcomes.drop_last(),
        ));
    }
}

/// The events of an erase up to where the chip is ready again.
pub open spec fn erase_events<M, K, R>(replies: Seq<Result<Option<u64>, ()>>) -> Seq<
    Event<M, K, R>,
> {
    seq![Event::Received(Some(StorageTask::EraseLogs))] + lookups(replies) + seq![
        Event::EraseStarted(Ok(())),
        Event::Erased,
        Event::Reopened,
    ]
}

/// An erase looks every key of the table up before it starts.
pub proof fn law_erase_looks_up_every_key<M, K, R>(
    keys: Seq<ConfigEntry>,
    replies: Seq<Result<Option<u64>, ()>>,
)
    requires
        replies.len() < keys.len(),
    ensures
        action_of(
            keys,
            run(
                keys,
                PhaseView::<M, K, R>::Receiving,
                seq![Event::Received(Some(StorageTask::EraseLogs))] + lookups(replies),
            ),
        ) == ActionView::<M, K, R>::FetchSaved(keys[replies.len() as int].0),
{
    let request = seq![Event::<M, K, R>::Received(Some(StorageTask::EraseLogs))];
    lemma_run_concat(keys, PhaseView::<M, K, R>::Receiving, request, lookups(replies));
    assert(request.drop_last() =~= Seq::empty());
    assert(run(keys, PhaseView::<M, K, R>::Receiving, Seq::empty()) == PhaseView::<
        M,
        K,
        R,
    >::Receiving);
    lemma_saving::<M, K, R>(keys, replies);
}

/// Once the chip has been erased, the handler stores every pair that a lookup gave, each once, in
/// the order of the table, and nothing else, whether storing succeeds or not. Then it waits for
/// the next request.
pub proof fn law_erase_restores_what_was_kept<M, K, R>(
    keys: Seq<ConfigEntry>,
    replies: Seq<Result<Option<u64>, ()>>,
    outcomes: Seq<Result<(), ()>>,
)
    requires
        replies.len() == keys.len(),
        outcomes.len() <= kept(keys, replies).len(),
    ensures
        ({
            let pairs = kept(keys, replies);
            let phase = run(
                keys,
                PhaseView::<M, K, R>::Receiving,
                erase_events(replies) + stores(outcomes),
            );
            if outcomes.len() < pairs.len() {
                action_of(keys, phase) == ActionView::<M, K, R>::StoreSaved(
                    pairs[outcomes.len() as int].0,
                    pairs[outcomes.len() as int].1,
                )
            } else {
                phase == PhaseView::<M, K, R>::Receiving
            }
        }),
{
    let start = PhaseView::<M, K, R>::Receiving;
    let request = seq![Event::<M, K, R>::Received(Some(StorageTask::EraseLogs))];
    let started = seq![Event::<M, K, R>::EraseStarted(Ok(()))];
    let erased = seq![Event::<M, K, R>::Erased];
    let reopened = seq![Event::<M, K, R>::Reopened];
    let pairs = kept(keys, replies);
    lemma_run_concat(keys, start, erase_events(replies), stores(outcomes));
    assert(erase_events::<M, K, R>(replies) =~= request + lookups(replies) + started + erased
        + reopened);
    lemma_run_concat(keys, start, request + lookups(replies) + started + erased, reopened);
    lemma_run_concat(keys, start, request + lookups(replies) + started, erased);
    lemma_run_concat(keys, start, request + lookups(replies), started);
    lemma_run_concat(keys, start, request, lookups(replies));
    lemma_run_single(keys, start, request[0]);
    lemma_saving::<M, K, R>(keys, replies);
    lemma_run_single(keys, PhaseView::<M, K, R>::StartingErase { saved: pairs }, started[0]);
    lemma_run_single(keys, PhaseView::<M, K, R>::Erasing { saved: pairs }, erased[0]);
    lemma_run_single(keys, PhaseView::<M, K, R>::Reopening { saved: pairs }, reopened[0]);
    lemma_restoring::<M, K, R>(keys, pairs, outcomes);
}

proof fn lemma_run_single<M, K, R>(
    keys: Seq<ConfigEntry>,
    phase: PhaseView<M, K, R>,
    event: Event<M, K, R>,
)
    ensures
        run(keys, phase, seq![event]) == next(keys, phase, event),
{
    assert(seq![event].drop_last() =~= Seq::<Event<M, K, R>>::empty());
    assert(run(keys, phase, Seq::<Event<M, K, R>>::empty()) == phase);
}

/// What a store that held nothing holds once the pairs have been stored in it one by one.
pub open spec fn restored(pairs: Seq<Pair>) -> Map<Seq<char>, u64>
    decreases pairs.len(),
{
    if pairs.len() == 0 {
        Map::empty()
    } else {
        restored(pairs.drop_last()).insert(pairs.last().0@, pairs.last().1)
    }
}

/// The replies of a store to the lookups of the keys, where no lookup fails.
pub open spec fn replies_of(keys: Seq<ConfigEntry>, config: Map<Seq<char>, u64>) -> Seq<
    Result<Option<u64>, ()>,
> {
    keys.map_values(
        |entry: ConfigEntry|
            Ok::<Option<u64>, ()>(
                if config.dom().contains(entry.0@) {
                    Some(config[entry.0@])
                } else {
                    None
                },
            ),
    )
}

proof fn lemma_saving_stores_nothing<M, K, R>(
    keys: Seq<ConfigEntry>,
    replies: Seq<Result<Option<u64>, ()>>,
)
    requires
        replies.len() <= keys.len(),
    ensures
        stored_again(
            keys,
            saving::<M, K, R>(keys, 0, Seq::empty()),
            lookups(replies),
        ) == Seq::<Pair>::empty(),
    decreases replies.len(),
{
    if replies.len() > 0 {
        let start = saving::<M, K, R>(keys, 0, Seq::empty());
        let before = lookups::<M, K, R>(replies.drop_last());
        lemma_saving_stores_nothing::<M, K, R>(keys, replies.drop_last());
        assert(lookups::<M, K, R>(replies) =~= before.push(Event::ConfigFetched(replies.last())));
        lemma_push(keys, start, before, Event::ConfigFetched(replies.last()), restores());
    }
}

/// Outcomes of storing that are all good.
pub open spec fn all_good(n: nat) -> Seq<Result<(), ()>> {
    Seq::new(n, |i: int| Ok::<(), ()>(()))
}

proof fn lemma_restoring_stores_all<M, K, R>(
    keys: Seq<ConfigEntry>,
    saved: Seq<Pair>,
    n: nat,
)
    requires
        n <= saved.len(),
    ensures
        stored_again(keys, restoring::<M, K, R>(0, saved), stores(all_good(n))) == saved.take(
            n as int,
        ),
    decreases n,
{
    let start = restoring::<M, K, R>(0, saved);
    if n == 0 {
        assert(saved.take(0) =~= Seq::empty());
    } else {
        let m = (n - 1) as nat;
        let before = stores::<M, K, R>(all_good(m));
        lemma_restoring_stores_all::<M, K, R>(keys, saved, m);
        lemma_restoring::<M, K, R>(keys, saved, all_good(m));
        assert(stores::<M, K, R>(all_good(n)) =~= before.push(Event::ConfigStored(Ok(()))));
        lemma_push(keys, start, before, Event::ConfigStored(Ok(())), restores());
        assert(saved.take(n as int) =~= saved.take(m as int).push(saved[m as int]));
    }
}

/// The pairs stored again over an erase whose stores all succeed are those that the lookups gave.
pub proof fn law_erase_stores_just_what_was_kept<M, K, R>(
    keys: Seq<ConfigEntry>,
    replies: Seq<Result<Option<u64>, ()>>,
)
    requires
        replies.len() == keys.len(),
    ensures
        stored_again(
            keys,
            PhaseView::<M, K, R>::Receiving,
            erase_events(replies) + stores(all_good(kept(keys, replies).len())),
        ) == kept(keys, replies),
{
    let start = PhaseView::<M, K, R>::Receiving;
    let none = Seq::<Event<M, K, R>>::empty();
    let request = Event::<M, K, R>::Received(Some(StorageTask::EraseLogs));
    let started = Event::<M, K, R>::EraseStarted(Ok(()));
    let pairs = kept(keys, replies);
    let storing = stores::<M, K, R>(all_good(pairs.len()));
    let first = none.push(request);
    let looked = first + lookups(replies);
    assert(run(keys, start, none) == start);
    assert(stored_again(keys, start, none) == Seq::<Pair>::empty());
    lemma_push(keys, start, none, request, restores());
    lemma_run_concat(keys, start, first, lookups(replies));
    lemma_gathered_concat(keys, start, first, lookups(replies), restores());
    lemma_saving::<M, K, R>(keys, replies);
    lemma_saving_stores_nothing::<M, K, R>(keys, replies);
    lemma_push(keys, start, looked, started, restores());
    lemma_push(keys, start, looked.push(started), Event::Erased, restores());
    lemma_push(
        keys,
        start,
        looked.push(started).push(Event::Erased),
        Event::Reopened,
        restores(),
    );
    assert(erase_events::<M, K, R>(replies) =~= looked.push(started).push(Event::Erased).push(
        Event::Reopened,
    ));
    lemma_gathered_concat(keys, start, erase_events(replies), storing, restores());
    lemma_restoring_stores_all::<M, K, R>(keys, pairs, pairs.len());
    assert(stored_again(keys, start, erase_events(replies) + storing) =~= pairs);
}

/// An erase keeps the configuration: if no lookup and no store fails, then the handler waits for
/// the next request with every key of the table having on the erased chip the value that it had
/// before, or none if it had none, and nothing else stored there.
pub proof fn law_erase_keeps_config<M, K, R>(keys: Seq<ConfigEntry>, config: Map<Seq<char>, u64>)
    ensures
        ({
            let replies = replies_of(keys, config);
            let events = erase_events::<M, K, R>(replies) + stores(
                all_good(kept(keys, replies).len()),
            );
            let after = restored(stored_again(keys, PhaseView::<M, K, R>::Receiving, events));
            &&& run(keys, PhaseView::<M, K, R>::Receiving, events) == PhaseView::<
                M,
                K,
                R,
            >::Receiving
            &&& forall|i: int|
                #![trigger keys[i]]
                0 <= i < keys.len() ==> {
                    &&& after.dom().contains(keys[i].0@) <==> config.dom().contains(keys[i].0@)
                    &&& config.dom().contains(keys[i].0@) ==> after[keys[i].0@]
                        == config[keys[i].0@]
                }
            &&& forall|name: Seq<char>| #[trigger]
                after.dom().contains(name) ==> exists|i: int|
                    0 <= i < keys.len() && #[trigger] keys[i].0@ == name
        }),
{
    let replies = replies_of(keys, config);
    law_erase_stores_just_what_was_kept::<M, K, R>(keys, replies);
    law_erase_restores_what_was_kept::<M, K, R>(
        keys,
        replies,
        all_good(kept(keys, replies).len()),
    );
    lemma_restored(keys, config, keys.len());
    assert(replies.take(keys.len() as int) =~= replies);
}

proof fn lemma_restored(keys: Seq<ConfigEntry>, config: Map<Seq<char>, u64>, n: nat)
    requires
        n <= keys.len(),
    ensures
        ({
            let after = restored(kept(keys, replies_of(keys, config).take(n as int)));
            &&& forall|i: int|
                #![trigger keys[i]]
                0 <= i < n && config.dom().contains(keys[i].0@) ==> after.dom().contains(
                    keys[i].0@,
                )
            &&& forall|name: Seq<char>| #[trigger]
                after.dom().contains(name) ==> {
                    &&& config.dom().contains(name)
                    &&& after[name] == config[name]
                    &&& exists|i: int| 0 <= i < n && #[trigger] keys[i].0@ == name
                }
        }),
    decreases n,
{
    let replies = replies_of(keys, config).take(n as int);
    if n > 0 {
        let m = (n - 1) as nat;
        let before = replies_of(keys, config).take(m as int);
        lemma_restored(keys, config, m);
        assert(replies.drop_last() =~= before);
        assert(replies.last() == replies_of(keys, config)[m as int]);
        let pairs = kept(keys, replies);
        let name = keys[m as int].0@;
        if config.dom().contains(name) {
            assert(pairs.drop_last() =~= kept(keys, before));
            assert(restored(pairs) == restored(kept(keys, before)).insert(name, config[name]));
            assert forall|other: Seq<char>| #[trigger]
                restored(pairs).dom().contains(other) implies {
                &&& config.dom().contains(other)
                &&& restored(pairs)[other] == config[other]
                &&& exists|i: int| 0 <= i < n && #[trigger] keys[i].0@ == other
            } by {
                if other == name {
                    assert(keys[m as int].0@ == other);
                } else {
                    assert(restored(kept(keys, before)).dom().contains(other));
                }
            }
        } else {
            assert(pairs == kept(keys, before));
        }
    }
}

/// The events of walking log entries, given as their bytes and what these decode to.
pub open spec fn log_events<M, K, R>(entries: Seq<(Vec<u8>, Option<M>)>) -> Seq<Event<M, K, R>>
    decreases entries.len(),
{
    if entries.len() == 0 {
        Seq::empty()
    } else {
        let (data, decoded) = entries.last();
        let read = log_events(entries.drop_last()).push(Event::LogRead(Ok(Some(data)))).push(
            Event::Decoded(decoded),
        );
        if decoded is Some {
            read.push(Event::Delivered)
        } else {
            read
        }
    }
}

/// The messages of the entries that decode, in their order.
pub open spec fn decodable<M>(entries: Seq<(Vec<u8>, Option<M>)>) -> Seq<M>
    decreases entries.len(),
{
    if entries.len() == 0 {
        Seq::empty()
    } else {
        match entries.last().1 {
            Some(msg) => decodable(entries.drop_last()).push(msg),
            None => decodable(entries.drop_last()),
        }
    }
}

/// What `pick` takes from the actions of a run and the events that answered them, in their order.
pub open spec fn gathered<M, K, R, T>(
    keys: Seq<ConfigEntry>,
    phase: PhaseView<M, K, R>,
    events: Seq<Event<M, K, R>>,
    pick: spec_fn(ActionView<M, K, R>, Event<M, K, R>) -> Option<T>,
) -> Seq<T>
    decreases events.len(),
{
    if events.len() == 0 {
        Seq::empty()
    } else {
        let before = gathered(keys, phase, events.drop_last(), pick);
        match pick(action_of(keys, run(keys, phase, events.drop_last())), events.last()) {
            Some(item) => before.push(item),
            None => before,
        }
    }
}

/// The messages that requesters of the log have been called with over a run, each with whom it was
/// for.
pub open spec fn delivered<M, K, R>(
    keys: Seq<ConfigEntry>,
    phase: PhaseView<M, K, R>,
    events: Seq<Event<M, K, R>>,
) -> Seq<(R, M)> {
    gathered(keys, phase, events, deliveries())
}

/// Picks a message handed to a requester of the log.
pub open spec fn deliveries<M, K, R>() -> spec_fn(ActionView<M, K, R>, Event<M, K, R>) -> Option<
    (R, M),
> {
    |action: ActionView<M, K, R>, event: Event<M, K, R>|
        match (action, event) {
            (ActionView::DeliverLog(reply, msg), Event::Delivered) => Some((reply, msg)),
            _ => None,
        }
}

/// What has been appended to the log over a run.
pub open spec fn appended<M, K, R>(
    keys: Seq<ConfigEntry>,
    phase: PhaseView<M, K, R>,
    events: Seq<Event<M, K, R>>,
) -> Seq<Seq<u8>> {
    gathered(keys, phase, events, appends())
}

/// Picks bytes appended to the log.
pub open spec fn appends<M, K, R>() -> spec_fn(ActionView<M, K, R>, Event<M, K, R>) -> Option<
    Seq<u8>,
> {
    |action: ActionView<M, K, R>, event: Event<M, K, R>|
        match (action, event) {
            (ActionView::Append { data, .. }, Event::Appended(Ok(()))) => Some(data),
            _ => None,
        }
}

/// The pairs that have been stored again over a run.
pub open spec fn stored_again<M, K, R>(
    keys: Seq<ConfigEntry>,
    phase: PhaseView<M, K, R>,
    events: Seq<Event<M, K, R>>,
) -> Seq<Pair> {
    gathered(keys, phase, events, restores())
}

/// Picks a pair stored again after an erase.
pub open spec fn restores<M, K, R>() -> spec_fn(ActionView<M, K, R>, Event<M, K, R>) -> Option<Pair> {
    |action: ActionView<M, K, R>, event: Event<M, K, R>|
        match (action, event) {
            (ActionView::StoreSaved(name, value), Event::ConfigStored(Ok(()))) => Some(
                (name, value),
            ),
            _ => None,
        }
}

/// Two runs, one after the other, gather what each of them gathers.
pub proof fn lemma_gathered_concat<M, K, R, T>(
    keys: Seq<ConfigEntry>,
    phase: PhaseView<M, K, R>,
    first: Seq<Event<M, K, R>>,
    second: Seq<Event<M, K, R>>,
    pick: spec_fn(ActionView<M, K, R>, Event<M, K, R>) -> Option<T>,
)
    ensures
        gathered(keys, phase, first + second, pick) == gathered(keys, phase, first, pick)
            + gathered(keys, run(keys, phase, first), second, pick),
    decreases second.len(),
{
    if second.len() == 0 {
        assert(first + second =~= first);
        assert(gathered(keys, phase, first, pick) + Seq::<T>::empty() =~= gathered(
            keys,
            phase,
            first,
            pick,
        ));
    } else {
        assert((first + second).drop_last() =~= first + second.drop_last());
        lemma_gathered_concat(keys, phase, first, second.drop_last(), pick);
        lemma_run_concat(keys, phase, first, second.drop_last());
        assert(gathered(keys, phase, first + second, pick) =~= gathered(keys, phase, first, pick)
            + gathered(keys, run(keys, phase, first), second, pick));
    }
}

/// A run over a further event goes one phase on, and gathers what is picked from it.
proof fn lemma_push<M, K, R, T>(
    keys: Seq<ConfigEntry>,
    phase: PhaseView<M, K, R>,
    events: Seq<Event<M, K, R>>,
    event: Event<M, K, R>,
    pick: spec_fn(ActionView<M, K, R>, Event<M, K, R>) -> Option<T>,
)
    ensures
        run(keys, phase, events.push(event)) == next(keys, run(keys, phase, events), event),
        gathered(keys, phase, events.push(event), pick) == (match pick(
            action_of(keys, run(keys, phase, events)),
            event,
        ) {
            Some(item) => gathered(keys, phase, events, pick).push(item),
            None => gathered(keys, phase, events, pick),
        }),
{
    assert(events.push(event).drop_last() =~= events);
}

proof fn lemma_log_events<M, K, R>(
    keys: Seq<ConfigEntry>,
    reply: R,
    entries: Seq<(Vec<u8>, Option<M>)>,
)
    ensures
        run(
            keys,
            PhaseView::<M, K, R>::ReadingLog { reply },
            log_events(entries),
        ) == (PhaseView::<M, K, R>::ReadingLog { reply }),
        delivered(
            keys,
            PhaseView::<M, K, R>::ReadingLog { reply },
            log_events(entries),
        ) == decodable(entries).map_values(|msg: M| (reply, msg)),
    decreases entries.len(),
{
    let start = PhaseView::<M, K, R>::ReadingLog { reply };
    if entries.len() == 0 {
        assert(decodable(entries).map_values(|msg: M| (reply, msg)) =~= Seq::empty());
    } else {
        let (data, decoded) = entries.last();
        let before = log_events::<M, K, R>(entries.drop_last());
        let read = before.push(Event::LogRead(Ok(Some(data))));
        let tried = read.push(Event::Decoded(decoded));
        lemma_log_events::<M, K, R>(keys, reply, entries.drop_last());
        lemma_push(keys, start, before, Event::LogRead(Ok(Some(data))), deliveries());
        lemma_push(keys, start, read, Event::Decoded(decoded), deliveries());
        if decoded is Some {
            lemma_push(keys, start, tried, Event::Delivered, deliveries());
            assert(decodable(entries).map_values(|msg: M| (reply, msg)) =~= decodable(
                entries.drop_last(),
            ).map_values(|msg: M| (reply, msg)).push((reply, decoded->0)));
        }
    }
}

/// The events of a request for the log: its entries, and what ended the walk.
pub open spec fn get_logs_events<M, K, R>(
    reply: R,
    entries: Seq<(Vec<u8>, Option<M>)>,
    last: Result<Option<Vec<u8>>, ()>,
) -> Seq<Event<M, K, R>> {
    seq![
        Event::Received(Some(StorageTask::GetLogs(reply))),
        Event::LogsOpened(Ok(())),
    ] + log_events(entries) + seq![Event::LogRead(last)]
}

/// Who asks for the log is called with the message of every entry that decodes, in the order of
/// the log; entries that do not decode are passed over. The walk ends with the log or with the
/// first entry that cannot be read, and the handler waits for the next request.
pub proof fn law_logs_are_delivered_in_order<M, K, R>(
    keys: Seq<ConfigEntry>,
    reply: R,
    entries: Seq<(Vec<u8>, Option<M>)>,
    last: Result<Option<Vec<u8>>, ()>,
)
    requires
        !(last matches Ok(Some(_))),
    ensures
        run(
            keys,
            PhaseView::<M, K, R>::Receiving,
            get_logs_events(reply, entries, last),
        ) == PhaseView::<M, K, R>::Receiving,
        delivered(
            keys,
            PhaseView::<M, K, R>::Receiving,
            get_logs_events(reply, entries, last),
        ) == decodable(entries).map_values(|msg: M| (reply, msg)),
{
    let start = PhaseView::<M, K, R>::Receiving;
    let none = Seq::<Event<M, K, R>>::empty();
    let request = Event::<M, K, R>::Received(Some(StorageTask::GetLogs(reply)));
    let opened = Event::<M, K, R>::LogsOpened(Ok(()));
    let walk = log_events::<M, K, R>(entries);
    let opening = none.push(request).push(opened);
    assert(get_logs_events(reply, entries, last) =~= (opening + walk).push(Event::LogRead(last)));
    assert(run(keys, start, none) == start);
    assert(delivered(keys, start, none) == Seq::<(R, M)>::empty());
    lemma_push(keys, start, none, request, deliveries());
    lemma_push(keys, start, none.push(request), opened, deliveries());
    lemma_run_concat(keys, start, opening, walk);
    lemma_gathered_concat(keys, start, opening, walk, deliveries());
    lemma_log_events::<M, K, R>(keys, reply, entries);
    lemma_push(keys, start, opening + walk, Event::LogRead(last), deliveries());
    assert(delivered(keys, start, get_logs_events(reply, entries, last)) =~= decodable(
        entries,
    ).map_values(|msg: M| (reply, msg)));
}

/// The events of logging messages one after the other, given with what they encode to.
pub open spec fn logging_events<M, K, R>(logged: Seq<(M, Vec<u8>)>) -> Seq<Event<M, K, R>>
    decreases logged.len(),
{
    if logged.len() == 0 {
        Seq::empty()
    } else {
        let (msg, data) = logged.last();
        logging_events(logged.drop_last()).push(
            Event::Received(Some(StorageTask::Msg(msg))),
        ).push(Event::Encoded(Some(data))).push(Event::Appended(Ok(())))
    }
}

proof fn lemma_logging<M, K, R>(keys: Seq<ConfigEntry>, logged: Seq<(M, Vec<u8>)>)
    ensures
        run(
            keys,
            PhaseView::<M, K, R>::Receiving,
            logging_events(logged),
        ) == PhaseView::<M, K, R>::Receiving,
        appended(
            keys,
            PhaseView::<M, K, R>::Receiving,
            logging_events(logged),
        ) == logged.map_values(|one: (M, Vec<u8>)| one.1@),
        delivered(
            keys,
            PhaseView::<M, K, R>::Receiving,
            logging_events(logged),
        ) == Seq::<(R, M)>::empty(),
    decreases logged.len(),
{
    let start = PhaseView::<M, K, R>::Receiving;
    let views = logged.map_values(|one: (M, Vec<u8>)| one.1@);
    if logged.len() == 0 {
        assert(views =~= Seq::empty());
    } else {
        let (msg, data) = logged.last();
        let before = logging_events::<M, K, R>(logged.drop_last());
        let received = Event::<M, K, R>::Received(Some(StorageTask::Msg(msg)));
        let encoded = Event::<M, K, R>::Encoded(Some(data));
        let done = Event::<M, K, R>::Appended(Ok(()));
        lemma_logging::<M, K, R>(keys, logged.drop_last());
        lemma_push(keys, start, before, received, appends());
        lemma_push(keys, start, before.push(received), encoded, appends());
        lemma_push(keys, start, before.push(received).push(encoded), done, appends());
        lemma_push(keys, start, before, received, deliveries());
        lemma_push(keys, start, before.push(received), encoded, deliveries());
        lemma_push(keys, start, before.push(received).push(encoded), done, deliveries());
        assert(views =~= logged.drop_last().map_values(|one: (M, Vec<u8>)| one.1@).push(data@));
    }
}

/// Logged messages come back: each is appended as what it encodes to, in the order in which they
/// were logged. A log whose entries are these, and decode to the messages, is then delivered as
/// just these messages in that order.
pub proof fn law_logged_messages_come_back<M, K, R>(
    keys: Seq<ConfigEntry>,
    reply: R,
    logged: Seq<(M, Vec<u8>)>,
    entries: Seq<(Vec<u8>, Option<M>)>,
)
    requires
        entries.len() == logged.len(),
        forall|i: int|
            #![trigger entries[i]]
            0 <= i < logged.len() ==> {
                &&& entries[i].0@ == appended(
                    keys,
                    PhaseView::<M, K, R>::Receiving,
                    logging_events(logged),
                )[i]
                &&& entries[i].1 == Some(logged[i].0)
            },
    ensures
        appended(
            keys,
            PhaseView::<M, K, R>::Receiving,
            logging_events(logged),
        ) == logged.map_values(|one: (M, Vec<u8>)| one.1@),
        delivered(
            keys,
            PhaseView::<M, K, R>::Receiving,
            logging_events(logged) + get_logs_events(reply, entries, Ok(None)),
        ) == logged.map_values(|one: (M, Vec<u8>)| (reply, one.0)),
{
    let start = PhaseView::<M, K, R>::Receiving;
    let request = get_logs_events::<M, K, R>(reply, entries, Ok(None));
    lemma_logging::<M, K, R>(keys, logged);
    lemma_gathered_concat(keys, start, logging_events(logged), request, deliveries());
    law_logs_are_delivered_in_order::<M, K, R>(keys, reply, entries, Ok(None));
    lemma_all_decodable(logged, entries);
    assert(decodable(entries).map_values(|msg: M| (reply, msg)) =~= logged.map_values(
        |one: (M, Vec<u8>)| (reply, one.0),
    ));
    assert(delivered(keys, start, logging_events(logged) + request) =~= logged.map_values(
        |one: (M, Vec<u8>)| (reply, one.0),
    ));
}

proof fn lemma_all_decodable<M>(logged: Seq<(M, Vec<u8>)>, entries: Seq<(Vec<u8>, Option<M>)>)
    requires
        entries.len() == logged.len(),
        forall|i: int|
            #![trigger entries[i]]
            0 <= i < logged.len() ==> entries[i].1 == Some(logged[i].0),
    ensures
        decodable(entries) == logged.map_values(|one: (M, Vec<u8>)| one.0),
    decreases logged.len(),
{
    if logged.len() == 0 {
        assert(decodable(entries) =~= logged.map_values(|one: (M, Vec<u8>)| one.0));
    } else {
        assert forall|i: int|
            #![trigger entries.drop_last()[i]]
            0 <= i < logged.drop_last().len() implies entries.drop_last()[i].1 == Some(
            logged.drop_last()[i].0,
        ) by {
            assert(entries.drop_last()[i] == entries[i]);
        }
        lemma_all_decodable(logged.drop_last(), entries.drop_last());
        assert(decodable(entries) =~= logged.map_values(|one: (M, Vec<u8>)| one.0));
    }
}

/// Outcomes of reading configuration items.
pub open spec fn reads<M, K, R>(items: Seq<Result<Option<(K, u64)>, ()>>) -> Seq<Event<M, K, R>> {
    items.map_values(|item: Result<Option<(K, u64)>, ()>| Event::ConfigRead(item))
}

proof fn lemma_collecting<M, K, R>(
    keys: Seq<ConfigEntry>,
    reply: R,
    items: Seq<Result<Option<(K, u64)>, ()>>,
)
    requires
        items.len() <= keys.len(),
    ensures
        run(keys, collecting::<M, K, R>(keys, Seq::empty(), reply), reads(items)) == collecting::<
            M,
            K,
            R,
        >(keys, items.map_values(|item: Result<Option<(K, u64)>, ()>| slot(item)), reply),
    decreases items.len(),
{
    let slots = items.map_values(|item: Result<Option<(K, u64)>, ()>| slot(item));
    if items.len() == 0 {
        assert(slots =~= Seq::empty());
    } else {
        lemma_collecting::<M, K, R>(keys, reply, items.drop_last());
        assert(reads::<M, K, R>(items).drop_last() =~= reads::<M, K, R>(items.drop_last()));
        assert(slots =~= items.drop_last().map_values(
            |item: Result<Option<(K, u64)>, ()>| slot(item),
        ).push(slot(items.last())));
    }
}

/// Who asks for the whole configuration gets exactly one slot for each key of the table: the slot
/// at an index holds the item that the read of that index gave, and is empty where that read gave
/// none or failed. A read that fails does not keep the later ones from being made.
pub proof fn law_all_config_has_a_slot_for_each_read<M, K, R>(
    keys: Seq<ConfigEntry>,
    reply: R,
    items: Seq<Result<Option<(K, u64)>, ()>>,
)
    requires
        items.len() <= keys.len(),
    ensures
        action_of(
            keys,
            run(
                keys,
                PhaseView::<M, K, R>::Receiving,
                seq![
                    Event::Received(Some(StorageTask::ReadAllConfig(reply))),
                    Event::ConfigOpened(Ok(())),
                ] + reads(items),
            ),
        ) == (if items.len() < keys.len() {
            ActionView::<M, K, R>::ReadConfig
        } else {
            ActionView::<M, K, R>::DeliverAllConfig(
                reply,
                items.map_values(|item: Result<Option<(K, u64)>, ()>| slot(item)),
            )
        }),
{
    let start = PhaseView::<M, K, R>::Receiving;
    let request = seq![Event::<M, K, R>::Received(Some(StorageTask::ReadAllConfig(reply)))];
    let opened = seq![Event::<M, K, R>::ConfigOpened(Ok(()))];
    assert(seq![
        Event::<M, K, R>::Received(Some(StorageTask::ReadAllConfig(reply))),
        Event::ConfigOpened(Ok(())),
    ] + reads(items) =~= request + opened + reads(items));
    lemma_run_single(keys, start, request[0]);
    lemma_run_concat(keys, start, request, opened);
    lemma_run_single(keys, PhaseView::<M, K, R>::OpeningConfig { reply }, opened[0]);
    lemma_run_concat(keys, start, request + opened, reads(items));
    lemma_collecting::<M, K, R>(keys, reply, items);
}

/// The handler gives up only where the log cannot be opened, the erase cannot be started, or a
/// name of the key table is not that of a key. Every other failure is survived.
pub proof fn law_what_makes_it_give_up<M, K, R>(
    keys: Seq<ConfigEntry>,
    phase: PhaseView<M, K, R>,
    event: Event<M, K, R>,
)
    requires
        phase != PhaseView::<M, K, R>::Failed,
    ensures
        next(keys, phase, event) == PhaseView::<M, K, R>::Failed <==> {
            ||| phase is OpeningLogs && (event matches Event::LogsOpened(opened) && opened is Err)
            ||| phase is StartingErase && (event matches Event::EraseStarted(started)
                && started is Err)
            ||| phase is SavingConfig && event is KeyRejected
            ||| phase is RestoringConfig && event is KeyRejected
        },
{
}

/// A handler that has given up stays so.
pub proof fn law_giving_up_is_final<M, K, R>(keys: Seq<ConfigEntry>, event: Event<M, K, R>)
    ensures
        next(keys, PhaseView::<M, K, R>::Failed, event) == PhaseView::<M, K, R>::Failed,
{
}

/// A message is encoded once and what it encodes to is appended once, unchanged and without
/// overwriting older entries; whatever comes of it, the handler waits for the next request
/// afterwards.
pub proof fn law_message_is_appended<M, K, R>(
    keys: Seq<ConfigEntry>,
    msg: M,
    encoded: Option<Vec<u8>>,
    outcome: Result<(), ()>,
)
    ensures
        ({
            let encoding = next(
                keys,
                PhaseView::<M, K, R>::Receiving,
                Event::Received(Some(StorageTask::Msg(msg))),
            );
            let then = next(keys, encoding, Event::Encoded(encoded));
            &&& action_of(keys, encoding) == ActionView::<M, K, R>::Encode(msg)
            &&& match encoded {
                Some(data) => {
                    &&& action_of(keys, then) == (ActionView::<M, K, R>::Append {
                        data: data@,
                        allow_overwrite: false,
                    })
                    &&& next(keys, then, Event::Appended(outcome)) == PhaseView::<
                        M,
                        K,
                        R,
                    >::Receiving
                },
                None => then == PhaseView::<M, K, R>::Receiving,
            }
        }),
{
}

/// Who asks for one key is called with that key and the value found, if one is found, and not
/// called otherwise.
pub proof fn law_one_key_is_read<M, K, R>(
    keys: Seq<ConfigEntry>,
    key: K,
    reply: R,
    found: Result<Option<u64>, ()>,
)
    ensures
        ({
            let fetching = next(
                keys,
                PhaseView::<M, K, R>::Receiving,
                Event::Received(Some(StorageTask::ReadConfig(key, reply))),
            );
            let then = next(keys, fetching, Event::ConfigFetched(found));
            &&& action_of(keys, fetching) == ActionView::<M, K, R>::FetchConfig(key)
            &&& match found {
                Ok(Some(value)) => {
                    &&& action_of(keys, then) == ActionView::<M, K, R>::DeliverConfig(
                        reply,
                        key,
                        value,
                    )
                    &&& next(keys, then, Event::Delivered) == PhaseView::<M, K, R>::Receiving
                },
                _ => then == PhaseView::<M, K, R>::Receiving,
            }
        }),
{
}

/// A key is set by one store of exactly the key and the value asked for; whatever comes of it, the
/// handler waits for the next request afterwards.
pub proof fn law_one_key_is_stored<M, K, R>(
    keys: Seq<ConfigEntry>,
    key: K,
    value: u64,
    outcome: Result<(), ()>,
)
    ensures
        ({
            let storing = next(
                keys,
                PhaseView::<M, K, R>::Receiving,
                Event::Received(Some(StorageTask::EditConfig(key, value))),
            );
            &&& action_of(keys, storing) == ActionView::<M, K, R>::StoreConfig(key, value)
            &&& next(keys, storing, Event::ConfigStored(outcome)) == PhaseView::<
                M,
                K,
                R,
            >::Receiving
        }),
{
}

/// Who asks for the free space is called with the number measured, if one is, and not called
/// otherwise.
pub proof fn law_space_is_measured<M, K, R>(
    keys: Seq<ConfigEntry>,
    reply: R,
    measured: Result<u32, ()>,
)
    ensures
        ({
            let measuring = next(
                keys,
                PhaseView::<M, K, R>::Receiving,
                Event::Received(Some(StorageTask::GetSpaceLeft(reply))),
            );
            let then = next(keys, measuring, Event::SpaceMeasured(measured));
            &&& action_of(keys, measuring) == ActionView::<M, K, R>::MeasureSpace
            &&& match measured {
                Ok(space) => {
                    &&& action_of(keys, then) == ActionView::<M, K, R>::DeliverSpace(reply, space)
                    &&& next(keys, then, Event::Delivered) == PhaseView::<M, K, R>::Receiving
                },
                Err(_) => then == PhaseView::<M, K, R>::Receiving,
            }
        }),
{
}

/// The action changes what the chip holds.
pub open spec fn is_write<M, K, R>(action: ActionView<M, K, R>) -> bool {
    match action {
        ActionView::Append { .. } => true,
        ActionView::StoreConfig(..) => true,
        ActionView::StoreSaved(..) => true,
        ActionView::StartErase => true,
        ActionView::AwaitErase => true,
        _ => false,
    }
}

/// None of the events is a further request.
pub open spec fn no_request<M, K, R>(events: Seq<Event<M, K, R>>) -> bool {
    forall|i: int|
        0 <= i < events.len() ==> !(#[trigger] events[i] matches Event::Received(Some(_)))
}

/// The request only reads.
pub open spec fn only_reads<M, K, R>(task: StorageTask<M, K, R>) -> bool {
    match task {
        StorageTask::GetLogs(_) => true,
        StorageTask::ReadConfig(..) => true,
        StorageTask::ReadAllConfig(_) => true,
        StorageTask::GetSpaceLeft(_) => true,
        StorageTask::DoNothing => true,
        _ => false,
    }
}

/// The phase is one that the request leads to, before the next request comes.
spec fn belongs<M, K, R>(task: StorageTask<M, K, R>, phase: PhaseView<M, K, R>) -> bool {
    match phase {
        PhaseView::Receiving => true,
        PhaseView::Failed => true,
        PhaseView::Encoding { msg } => task == StorageTask::<M, K, R>::Msg(msg),
        PhaseView::Appending { .. } => task is Msg,
        PhaseView::StoringConfig { key, value } => task == StorageTask::<M, K, R>::EditConfig(
            key,
            value,
        ),
        PhaseView::SavingConfig { .. } => task is EraseLogs,
        PhaseView::StartingErase { .. } => task is EraseLogs,
        PhaseView::Erasing { .. } => task is EraseLogs,
        PhaseView::Reopening { .. } => task is EraseLogs,
        PhaseView::RestoringConfig { .. } => task is EraseLogs,
        _ => only_reads(task),
    }
}

proof fn lemma_no_request_before<M, K, R>(events: Seq<Event<M, K, R>>)
    requires
        events.len() > 0,
        no_request(events),
    ensures
        no_request(events.drop_last()),
        !(events.last() matches Event::Received(Some(_))),
{
    let before = events.drop_last();
    assert(forall|i: int| 0 <= i < before.len() ==> #[trigger] before[i] == events[i]);
    assert(events.last() == events[events.len() - 1]);
}

proof fn lemma_belongs<M, K, R>(
    keys: Seq<ConfigEntry>,
    task: StorageTask<M, K, R>,
    events: Seq<Event<M, K, R>>,
)
    requires
        no_request(events),
    ensures
        belongs(task, run(keys, begun(keys, task), events)),
    decreases events.len(),
{
    if events.len() > 0 {
        lemma_no_request_before(events);
        lemma_belongs(keys, task, events.drop_last());
    }
}

/// A request that only reads never leads to an append, a store or an erase, whatever the outcomes
/// of what it leads to.
pub proof fn law_reading_writes_nothing<M, K, R>(
    keys: Seq<ConfigEntry>,
    task: StorageTask<M, K, R>,
    events: Seq<Event<M, K, R>>,
)
    requires
        only_reads(task),
        no_request(events),
    ensures
        !is_write(action_of(keys, run(keys, begun(keys, task), events))),
{
    lemma_belongs(keys, task, events);
}

/// A message leads to no store and no erase: the only write that it leads to is an append.
pub proof fn law_logging_only_appends<M, K, R>(
    keys: Seq<ConfigEntry>,
    msg: M,
    events: Seq<Event<M, K, R>>,
)
    requires
        no_request(events),
    ensures
        ({
            let action = action_of(
                keys,
                run(keys, begun(keys, StorageTask::<M, K, R>::Msg(msg)), events),
            );
            is_write(action) ==> action is Append
        }),
{
    lemma_belongs(keys, StorageTask::<M, K, R>::Msg(msg), events);
}

/// Picks a write that has been made, whether it succeeded or not.
pub open spec fn writes<M, K, R>() -> spec_fn(ActionView<M, K, R>, Event<M, K, R>) -> Option<
    ActionView<M, K, R>,
> {
    |action: ActionView<M, K, R>, event: Event<M, K, R>|
        match (action, event) {
            (ActionView::Append { .. }, Event::Appended(_)) => Some(action),
            (ActionView::StoreConfig(..), Event::ConfigStored(_)) => Some(action),
            (ActionView::StoreSaved(..), Event::ConfigStored(_)) => Some(action),
            (ActionView::StartErase, Event::EraseStarted(_)) => Some(action),
            _ => None,
        }
}

/// Setting a key leads to just one write, the store of that key and value: it is asked for until
/// it has been made, and once it has been made the handler waits for the next request.
pub proof fn law_editing_stores_once<M, K, R>(
    keys: Seq<ConfigEntry>,
    key: K,
    value: u64,
    events: Seq<Event<M, K, R>>,
)
    requires
        no_request(events),
    ensures
        ({
            let start = begun(keys, StorageTask::<M, K, R>::EditConfig(key, value));
            let store = ActionView::<M, K, R>::StoreConfig(key, value);
            let phase = run(keys, start, events);
            let made = gathered(keys, start, events, writes());
            ||| made == Seq::<ActionView<M, K, R>>::empty() && action_of(keys, phase) == store
            ||| made == seq![store] && phase == PhaseView::<M, K, R>::Receiving
        }),
    decreases events.len(),
{
    if events.len() > 0 {
        let before = events.drop_last();
        lemma_no_request_before(events);
        law_editing_stores_once(keys, key, value, before);
        lemma_belongs(keys, StorageTask::<M, K, R>::EditConfig(key, value), before);
        assert(Seq::<ActionView<M, K, R>>::empty().push(
            ActionView::<M, K, R>::StoreConfig(key, value),
        ) =~= seq![ActionView::<M, K, R>::StoreConfig(key, value)]);
    }
}

/// What a flash chip holds.
#[verifier::reject_recursive_types(K)]
pub ghost struct Chip<K> {
    /// The entries of the log, from the oldest to the newest.
    pub log: Seq<Seq<u8>>,
    /// How many entries the walk over the log has passed.
    pub walked: nat,
    /// The configuration.
    pub config: Map<K, u64>,
}

/// What names and bytes on a chip stand for.
pub ghost struct Format<M, K> {
    /// The key that a name stands for.
    pub key_of: spec_fn(&'static str) -> K,
    /// The message that bytes decode to, if they do.
    pub decode: spec_fn(Seq<u8>) -> Option<M>,
}

/// What a chip holds once an action has ended with an event. Only an append or a store that
/// succeeds adds to it; an erase leaves nothing.
pub open spec fn changed<M, K, R>(
    format: Format<M, K>,
    chip: Chip<K>,
    action: ActionView<M, K, R>,
    event: Event<M, K, R>,
) -> Chip<K> {
    match (action, event) {
        (ActionView::Append { data, .. }, Event::Appended(Ok(()))) => Chip {
            log: chip.log.push(data),
            ..chip
        },
        (ActionView::OpenLogs, Event::LogsOpened(Ok(()))) => Chip { walked: 0, ..chip },
        (ActionView::ReadLog, Event::LogRead(Ok(Some(_)))) => Chip {
            walked: chip.walked + 1,
            ..chip
        },
        (ActionView::StoreConfig(key, value), Event::ConfigStored(Ok(()))) => Chip {
            config: chip.config.insert(key, value),
            ..chip
        },
        (ActionView::StoreSaved(name, value), Event::ConfigStored(Ok(()))) => Chip {
            config: chip.config.insert((format.key_of)(name), value),
            ..chip
        },
        (ActionView::AwaitErase, Event::Erased) => Chip {
            log: Seq::empty(),
            walked: 0,
            config: Map::empty(),
        },
        _ => chip,
    }
}

/// What a configuration has for a key.
pub open spec fn value_of<K>(config: Map<K, u64>, key: K) -> Option<u64> {
    if config.dom().contains(key) {
        Some(config[key])
    } else {
        None
    }
}

/// The event is what comes of the action on a chip that works: what is read is what the chip holds,
/// stores succeed, and a message decodes from the bytes that it was encoded to.
pub open spec fn truthful<M, K, R>(
    format: Format<M, K>,
    chip: Chip<K>,
    action: ActionView<M, K, R>,
    event: Event<M, K, R>,
) -> bool {
    match (action, event) {
        (ActionView::Encode(msg), Event::Encoded(Some(data))) => (format.decode)(data@) == Some(
            msg,
        ),
        (ActionView::ReadLog, Event::LogRead(Ok(Some(data)))) => chip.walked < chip.log.len()
            && data@ == chip.log[chip.walked as int],
        (ActionView::ReadLog, Event::LogRead(Ok(None))) => chip.walked >= chip.log.len(),
        (ActionView::Decode(data), Event::Decoded(decoded)) => decoded == (format.decode)(data),
        (ActionView::FetchConfig(key), Event::ConfigFetched(found)) => found == Ok::<
            Option<u64>,
            (),
        >(value_of(chip.config, key)),
        (ActionView::FetchSaved(name), Event::ConfigFetched(found)) => found == Ok::<
            Option<u64>,
            (),
        >(value_of(chip.config, (format.key_of)(name))),
        (ActionView::StoreConfig(..), Event::ConfigStored(outcome)) => outcome is Ok,
        (ActionView::StoreSaved(..), Event::ConfigStored(outcome)) => outcome is Ok,
        _ => true,
    }
}

/// What a chip holds after a run.
pub open spec fn chip_after<M, K, R>(
    format: Format<M, K>,
    keys: Seq<ConfigEntry>,
    phase: PhaseView<M, K, R>,
    chip: Chip<K>,
    events: Seq<Event<M, K, R>>,
) -> Chip<K>
    decreases events.len(),
{
    if events.len() == 0 {
        chip
    } else {
        changed(
            format,
            chip_after(format, keys, phase, chip, events.drop_last()),
            action_of(keys, run(keys, phase, events.drop_last())),
            events.last(),
        )
    }
}

/// Every event of a run is what comes of its action on a chip that works and that held `chip`
/// before.
pub open spec fn all_truthful<M, K, R>(
    format: Format<M, K>,
    keys: Seq<ConfigEntry>,
    phase: PhaseView<M, K, R>,
    chip: Chip<K>,
    events: Seq<Event<M, K, R>>,
) -> bool
    decreases events.len(),
{
    events.len() > 0 ==> {
        &&& all_truthful(format, keys, phase, chip, events.drop_last())
        &&& truthful(
            format,
            chip_after(format, keys, phase, chip, events.drop_last()),
            action_of(keys, run(keys, phase, events.drop_last())),
            events.last(),
        )
    }
}

/// The messages that the handler has been asked to log over a run.
pub open spec fn asked_to_log<M, K, R>(
    keys: Seq<ConfigEntry>,
    phase: PhaseView<M, K, R>,
    events: Seq<Event<M, K, R>>,
) -> Seq<M> {
    gathered(keys, phase, events, log_requests())
}

/// Picks a message that the handler is asked to log.
pub open spec fn log_requests<M, K, R>() -> spec_fn(
    ActionView<M, K, R>,
    Event<M, K, R>,
) -> Option<M> {
    |action: ActionView<M, K, R>, event: Event<M, K, R>|
        match (action, event) {
            (ActionView::Receive, Event::Received(Some(StorageTask::Msg(msg)))) => Some(msg),
            _ => None,
        }
}

/// The bytes decode to one of the messages.
spec fn stands_for_one_of<M, K>(format: Format<M, K>, data: Seq<u8>, msgs: Seq<M>) -> bool {
    (format.decode)(data) matches Some(msg) && msgs.contains(msg)
}

/// Every message and entry that the handler or the chip has comes from `msgs`.
spec fn come_from<M, K, R>(
    format: Format<M, K>,
    phase: PhaseView<M, K, R>,
    chip: Chip<K>,
    msgs: Seq<M>,
) -> bool {
    &&& forall|i: int|
        0 <= i < chip.log.len() ==> stands_for_one_of(format, #[trigger] chip.log[i], msgs)
    &&& match phase {
        PhaseView::Encoding { msg } => msgs.contains(msg),
        PhaseView::Appending { data } => stands_for_one_of(format, data, msgs),
        PhaseView::Decoding { data, .. } => stands_for_one_of(format, data, msgs),
        PhaseView::DeliveringLog { msg, .. } => msgs.contains(msg),
        _ => true,
    }
}

proof fn lemma_come_from<M, K, R>(
    format: Format<M, K>,
    keys: Seq<ConfigEntry>,
    phase: PhaseView<M, K, R>,
    chip: Chip<K>,
    events: Seq<Event<M, K, R>>,
)
    requires
        phase is Reopening,
        chip.log == Seq::<Seq<u8>>::empty(),
        all_truthful(format, keys, phase, chip, events),
    ensures
        come_from(
            format,
            run(keys, phase, events),
            chip_after(format, keys, phase, chip, events),
            asked_to_log(keys, phase, events),
        ),
        forall|i: int|
            0 <= i < delivered(keys, phase, events).len() ==> asked_to_log(
                keys,
                phase,
                events,
            ).contains(#[trigger] delivered(keys, phase, events)[i].1),
    decreases events.len(),
{
    if events.len() > 0 {
        let before = events.drop_last();
        let event = events.last();
        lemma_come_from(format, keys, phase, chip, before);
        let msgs = asked_to_log(keys, phase, before);
        let after = asked_to_log(keys, phase, events);
        assert forall|msg: M| msgs.contains(msg) implies #[trigger] after.contains(msg) by {
            let i = choose|i: int| 0 <= i < msgs.len() && msgs[i] == msg;
            assert(after[i] == msg);
        }
        if action_of(keys, run(keys, phase, before)) is Receive {
            if let Event::Received(Some(StorageTask::Msg(msg))) = event {
                assert(after.last() == msg);
                assert(after.contains(msg));
            }
        }
        let old_chip = chip_after(format, keys, phase, chip, before);
        let new_chip = chip_after(format, keys, phase, chip, events);
        assert forall|i: int| 0 <= i < new_chip.log.len() implies stands_for_one_of(
            format,
            #[trigger] new_chip.log[i],
            after,
        ) by {
            if i < old_chip.log.len() {
                assert(stands_for_one_of(format, old_chip.log[i], msgs));
            }
        }
        let done = delivered(keys, phase, before);
        assert forall|i: int| 0 <= i < delivered(keys, phase, events).len() implies after.contains(
            #[trigger] delivered(keys, phase, events)[i].1,
        ) by {
            if i < done.len() {
                assert(msgs.contains(done[i].1));
                assert(delivered(keys, phase, events)[i] == done[i]);
            }
        }
    }
}

/// After an erase only messages logged since are delivered: on a chip that works, every message
/// that a requester is called with once the erase has ended is one that the handler has been asked
/// to log since then.
pub proof fn law_erase_forgets_the_log<M, K, R>(
    format: Format<M, K>,
    keys: Seq<ConfigEntry>,
    chip: Chip<K>,
    before: Seq<Event<M, K, R>>,
    after: Seq<Event<M, K, R>>,
)
    requires
        action_of(keys, run(keys, PhaseView::<M, K, R>::Receiving, before))
            == ActionView::<M, K, R>::AwaitErase,
        all_truthful(
            format,
            keys,
            run(keys, PhaseView::<M, K, R>::Receiving, before.push(Event::Erased)),
            chip_after(
                format,
                keys,
                PhaseView::<M, K, R>::Receiving,
                chip,
                before.push(Event::Erased),
            ),
            after,
        ),
    ensures
        ({
            let erased = run(keys, PhaseView::<M, K, R>::Receiving, before.push(Event::Erased));
            forall|i: int|
                0 <= i < delivered(keys, erased, after).len() ==> asked_to_log(
                    keys,
                    erased,
                    after,
                ).contains(#[trigger] delivered(keys, erased, after)[i].1)
        }),
{
    let start = PhaseView::<M, K, R>::Receiving;
    let first = before.push(Event::Erased);
    assert(first.drop_last() =~= before);
    lemma_come_from(
        format,
        keys,
        run(keys, start, first),
        chip_after(format, keys, start, chip, first),
        after,
    );
}

/// What comes of two runs, one after the other, on a chip that works.
pub proof fn lemma_truthful_concat<M, K, R>(
    format: Format<M, K>,
    keys: Seq<ConfigEntry>,
    phase: PhaseView<M, K, R>,
    chip: Chip<K>,
    first: Seq<Event<M, K, R>>,
    second: Seq<Event<M, K, R>>,
)
    ensures
        chip_after(format, keys, phase, chip, first + second) == chip_after(
            format,
            keys,
            run(keys, phase, first),
            chip_after(format, keys, phase, chip, first),
            second,
        ),
        all_truthful(format, keys, phase, chip, first + second) <==> all_truthful(
            format,
            keys,
            phase,
            chip,
            first,
        ) && all_truthful(
            format,
            keys,
            run(keys, phase, first),
            chip_after(format, keys, phase, chip, first),
            second,
        ),
    decreases second.len(),
{
    if second.len() == 0 {
        assert(first + second =~= first);
    } else {
        assert((first + second).drop_last() =~= first + second.drop_last());
        lemma_truthful_concat(format, keys, phase, chip, first, second.drop_last());
        lemma_run_concat(keys, phase, first, second.drop_last());
    }
}

/// The key has a name in the table.
pub open spec fn in_table<M, K>(
    format: Format<M, K>,
    keys: Seq<ConfigEntry>,
    key: K,
) -> bool {
    exists|i: int| 0 <= i < keys.len() && (format.key_of)((#[trigger] keys[i]).0) == key
}

/// Among the pairs is one of the key, and each pair of the key has the value.
spec fn saved_with<M, K>(format: Format<M, K>, saved: Seq<Pair>, key: K, value: u64) -> bool {
    &&& exists|i: int| 0 <= i < saved.len() && (format.key_of)((#[trigger] saved[i]).0) == key
    &&& agrees(format, saved, key, value)
}

/// Each pair of the key has the value.
spec fn agrees<M, K>(format: Format<M, K>, saved: Seq<Pair>, key: K, value: u64) -> bool {
    forall|i: int|
        0 <= i < saved.len() && (format.key_of)((#[trigger] saved[i]).0) == key ==> saved[i].1
            == value
}

/// The key has the value on the chip, or will have it again when the phase's request is done.
spec fn keeps<M, K, R>(
    format: Format<M, K>,
    keys: Seq<ConfigEntry>,
    phase: PhaseView<M, K, R>,
    chip: Chip<K>,
    key: K,
    value: u64,
) -> bool {
    match phase {
        PhaseView::SavingConfig { index, saved } => {
            &&& in_table(format, keys, key)
            &&& value_of(chip.config, key) == Some(value)
            &&& agrees(format, saved, key, value)
            &&& forall|i: int|
                0 <= i < index && i < keys.len() && (format.key_of)((#[trigger] keys[i]).0) == key
                    ==> saved_with(format, saved, key, value)
        },
        PhaseView::StartingErase { saved } => saved_with(format, saved, key, value),
        PhaseView::Erasing { saved } => saved_with(format, saved, key, value),
        PhaseView::Reopening { saved } => saved_with(format, saved, key, value),
        PhaseView::RestoringConfig { index, saved } => {
            &&& saved_with(format, saved, key, value)
            &&& forall|i: int|
                0 <= i < index && i < saved.len() && (format.key_of)((#[trigger] saved[i]).0) == key
                    ==> value_of(chip.config, key) == Some(value)
        },
        PhaseView::StoringConfig { key: stored, .. } => stored != key && value_of(chip.config, key)
            == Some(value),
        PhaseView::Failed => true,
        _ => value_of(chip.config, key) == Some(value),
    }
}

/// None of the events asks for the key to be set; an erase is asked for only if the key has a name
/// in the table.
pub open spec fn leaves_key<M, K, R>(
    format: Format<M, K>,
    keys: Seq<ConfigEntry>,
    events: Seq<Event<M, K, R>>,
    key: K,
) -> bool {
    forall|i: int|
        0 <= i < events.len() ==> match #[trigger] events[i] {
            Event::Received(Some(StorageTask::EditConfig(edited, _))) => edited != key,
            Event::Received(Some(StorageTask::EraseLogs)) => in_table(format, keys, key),
            _ => true,
        }
}

proof fn lemma_step_keeps<M, K, R>(
    format: Format<M, K>,
    keys: Seq<ConfigEntry>,
    phase: PhaseView<M, K, R>,
    chip: Chip<K>,
    event: Event<M, K, R>,
    key: K,
    value: u64,
)
    requires
        sound(keys, phase),
        keeps(format, keys, phase, chip, key, value),
        truthful(format, chip, action_of(keys, phase), event),
        leaves_key(format, keys, seq![event], key),
    ensures
        keeps(
            format,
            keys,
            next(keys, phase, event),
            changed(format, chip, action_of(keys, phase), event),
            key,
            value,
        ),
{
    assert(seq![event][0] == event);
    let held = changed(format, chip, action_of(keys, phase), event);
    match (phase, event) {
        (PhaseView::SavingConfig { index, saved }, Event::ConfigFetched(found)) => {
            let name = keys[index as int].0;
            let pairs = if let Ok(Some(value)) = found {
                saved.push((name, value))
            } else {
                saved
            };
            assert(agrees(format, pairs, key, value));
            assert forall|i: int|
                0 <= i < index + 1 && i < keys.len() && (format.key_of)((#[trigger] keys[i]).0)
                    == key implies saved_with(format, pairs, key, value) by {
                if i == index {
                    assert((format.key_of)(pairs[pairs.len() - 1].0) == key);
                } else {
                    let j = choose|j: int|
                        0 <= j < saved.len() && (format.key_of)((#[trigger] saved[j]).0) == key;
                    assert(pairs[j] == saved[j]);
                }
            }
        },
        (PhaseView::RestoringConfig { index, saved }, Event::ConfigStored(_)) => {
            assert forall|i: int|
                0 <= i < index + 1 && i < saved.len() && (format.key_of)((#[trigger] saved[i]).0)
                    == key implies value_of(held.config, key) == Some(value) by {}
        },
        _ => {},
    }
}

proof fn lemma_keeps<M, K, R>(
    format: Format<M, K>,
    keys: Seq<ConfigEntry>,
    phase: PhaseView<M, K, R>,
    chip: Chip<K>,
    events: Seq<Event<M, K, R>>,
    key: K,
    value: u64,
)
    requires
        sound(keys, phase),
        keeps(format, keys, phase, chip, key, value),
        all_truthful(format, keys, phase, chip, events),
        leaves_key(format, keys, events, key),
    ensures
        sound(keys, run(keys, phase, events)),
        keeps(
            format,
            keys,
            run(keys, phase, events),
            chip_after(format, keys, phase, chip, events),
            key,
            value,
        ),
    decreases events.len(),
{
    if events.len() > 0 {
        let before = events.drop_last();
        assert(leaves_key(format, keys, before, key)) by {
            assert(forall|i: int| 0 <= i < before.len() ==> #[trigger] before[i] == events[i]);
        }
        assert(leaves_key(format, keys, seq![events.last()], key)) by {
            assert(events[events.len() - 1] == seq![events.last()][0]);
        }
        lemma_keeps(format, keys, phase, chip, before, key, value);
        lemma_step_keeps(
            format,
            keys,
            run(keys, phase, before),
            chip_after(format, keys, phase, chip, before),
            events.last(),
            key,
            value,
        );
    }
}

/// The events of setting a key.
pub open spec fn edit_events<M, K, R>(key: K, value: u64) -> Seq<Event<M, K, R>> {
    seq![
        Event::Received(Some(StorageTask::EditConfig(key, value))),
        Event::ConfigStored(Ok(())),
    ]
}

/// The events of reading a key, up to where its value has been looked up.
pub open spec fn read_events<M, K, R>(
    key: K,
    reply: R,
    found: Result<Option<u64>, ()>,
) -> Seq<Event<M, K, R>> {
    seq![
        Event::Received(Some(StorageTask::ReadConfig(key, reply))),
        Event::ConfigFetched(found),
    ]
}

proof fn lemma_run_pair<M, K, R>(
    keys: Seq<ConfigEntry>,
    phase: PhaseView<M, K, R>,
    first: Event<M, K, R>,
    second: Event<M, K, R>,
)
    ensures
        run(keys, phase, seq![first, second]) == next(keys, next(keys, phase, first), second),
{
    assert(seq![first, second].drop_last() =~= seq![first]);
    lemma_run_single(keys, phase, first);
}

proof fn lemma_chip_pair<M, K, R>(
    format: Format<M, K>,
    keys: Seq<ConfigEntry>,
    phase: PhaseView<M, K, R>,
    chip: Chip<K>,
    first: Event<M, K, R>,
    second: Event<M, K, R>,
)
    ensures
        ({
            let once = changed(format, chip, action_of(keys, phase), first);
            let action = action_of(keys, next(keys, phase, first));
            &&& chip_after(format, keys, phase, chip, seq![first, second]) == changed(
                format,
                once,
                action,
                second,
            )
            &&& all_truthful(format, keys, phase, chip, seq![first, second]) ==> truthful(
                format,
                once,
                action,
                second,
            )
        }),
{
    assert(seq![first, second].drop_last() =~= seq![first]);
    assert(seq![first].drop_last() =~= Seq::<Event<M, K, R>>::empty());
    lemma_run_single(keys, phase, first);
    assert(run(keys, phase, Seq::<Event<M, K, R>>::empty()) == phase);
    assert(chip_after(format, keys, phase, chip, Seq::<Event<M, K, R>>::empty()) == chip);
    assert(chip_after(format, keys, phase, chip, seq![first]) == changed(
        format,
        chip,
        action_of(keys, phase),
        first,
    ));
}

/// The value stored last under a key is the one that a later read of that key delivers, on a chip
/// that works. Whatever is asked for in between does not disturb it: not stores under other keys,
/// and not an erase, if the key has a name in the table.
pub proof fn law_last_value_is_delivered<M, K, R>(
    format: Format<M, K>,
    keys: Seq<ConfigEntry>,
    chip: Chip<K>,
    key: K,
    value: u64,
    between: Seq<Event<M, K, R>>,
    reply: R,
    found: Result<Option<u64>, ()>,
)
    requires
        ({
            let start = PhaseView::<M, K, R>::Receiving;
            let edit = edit_events::<M, K, R>(key, value);
            let read = read_events::<M, K, R>(key, reply, found);
            &&& leaves_key(format, keys, between, key)
            &&& run(keys, start, edit + between) == start
            &&& all_truthful(format, keys, start, chip, edit + between + read)
        }),
    ensures
        action_of(
            keys,
            run(
                keys,
                PhaseView::<M, K, R>::Receiving,
                edit_events(key, value) + between + read_events(key, reply, found),
            ),
        ) == ActionView::<M, K, R>::DeliverConfig(reply, key, value),
{
    let start = PhaseView::<M, K, R>::Receiving;
    let edit = edit_events::<M, K, R>(key, value);
    let read = read_events::<M, K, R>(key, reply, found);
    let stored = chip_after(format, keys, start, chip, edit);
    let later = chip_after(format, keys, start, stored, between);
    lemma_run_pair(keys, start, edit[0], edit[1]);
    lemma_chip_pair(format, keys, start, chip, edit[0], edit[1]);
    lemma_run_concat(keys, start, edit, between);
    lemma_run_concat(keys, start, edit + between, read);
    lemma_truthful_concat(format, keys, start, chip, edit, between);
    lemma_truthful_concat(format, keys, start, chip, edit + between, read);
    lemma_keeps(format, keys, start, stored, between, key, value);
    lemma_run_pair(keys, start, read[0], read[1]);
    lemma_chip_pair(format, keys, start, later, read[0], read[1]);
}

/// A handler asks for a request exactly while it waits for one, and gives up exactly once it has
/// failed. No request, and a request for nothing, leave it waiting.
pub proof fn law_waiting_and_giving_up<M, K, R>(keys: Seq<ConfigEntry>, phase: PhaseView<M, K, R>)
    ensures
        action_of(keys, phase) is Receive <==> phase is Receiving,
        action_of(keys, phase) is Abort <==> phase is Failed,
        next(keys, PhaseView::<M, K, R>::Receiving, Event::Received(None)) is Receiving,
        next(
            keys,
            PhaseView::<M, K, R>::Receiving,
            Event::Received(Some(StorageTask::DoNothing)),
        ) is Receiving,
{
}

/// The event is an outcome of the action.
pub open spec fn is_outcome<M, K, R>(action: ActionView<M, K, R>, event: Event<M, K, R>) -> bool {
    match action {
        ActionView::Receive => event is Received,
        ActionView::Encode(_) => event is Encoded,
        ActionView::Append { .. } => event is Appended,
        ActionView::OpenLogs => event is LogsOpened,
        ActionView::ReadLog => event is LogRead,
        ActionView::Decode(_) => event is Decoded,
        ActionView::DeliverLog(..) => event is Delivered,
        ActionView::FetchSaved(_) => event is ConfigFetched || event is KeyRejected,
        ActionView::StartErase => event is EraseStarted,
        ActionView::AwaitErase => event is Erased,
        ActionView::Reopen => event is Reopened,
        ActionView::StoreSaved(..) => event is ConfigStored || event is KeyRejected,
        ActionView::FetchConfig(_) => event is ConfigFetched,
        ActionView::DeliverConfig(..) => event is Delivered,
        ActionView::OpenConfig => event is ConfigOpened,
        ActionView::ReadConfig => event is ConfigRead,
        ActionView::DeliverAllConfig(..) => event is Delivered,
        ActionView::StoreConfig(..) => event is ConfigStored,
        ActionView::MeasureSpace => event is SpaceMeasured,
        ActionView::DeliverSpace(..) => event is Delivered,
        ActionView::Abort => false,
    }
}

/// An event that is no outcome of what the handler has asked for changes nothing.
pub proof fn law_other_events_change_nothing<M, K, R>(
    keys: Seq<ConfigEntry>,
    phase: PhaseView<M, K, R>,
    event: Event<M, K, R>,
)
    requires
        !is_outcome(action_of(keys, phase), event),
    ensures
        next(keys, phase, event) == phase,
{
}

/// A request for the log opens it, and gives up if it cannot be opened. Then, however many entries
/// have been walked, it reads the next one, decodes just the bytes read, calls the requester with
/// just the message decoded, and reads on; bytes that decode to nothing are passed over. The end of
/// the log or an entry that cannot be read ends the walk.
pub proof fn law_log_is_walked_entry_by_entry<M, K, R>(
    keys: Seq<ConfigEntry>,
    reply: R,
    entries: Seq<(Vec<u8>, Option<M>)>,
    data: Vec<u8>,
    msg: M,
)
    ensures
        ({
            let request = Event::<M, K, R>::Received(Some(StorageTask::GetLogs(reply)));
            let opening = next(keys, PhaseView::<M, K, R>::Receiving, request);
            let failed = next(keys, opening, Event::LogsOpened(Err(())));
            let walking = run(
                keys,
                PhaseView::<M, K, R>::Receiving,
                seq![request, Event::LogsOpened(Ok(()))] + log_events(entries),
            );
            let read = next(keys, walking, Event::LogRead(Ok(Some(data))));
            let decoded = next(keys, read, Event::Decoded(Some(msg)));
            &&& action_of(keys, opening) is OpenLogs
            &&& action_of(keys, failed) is Abort
            &&& action_of(keys, walking) is ReadLog
            &&& action_of(keys, read) == ActionView::<M, K, R>::Decode(data@)
            &&& action_of(keys, decoded) == ActionView::<M, K, R>::DeliverLog(reply, msg)
            &&& next(keys, decoded, Event::Delivered) == walking
            &&& next(keys, read, Event::Decoded(None)) == walking
            &&& action_of(keys, next(keys, walking, Event::LogRead(Ok(None)))) is Receive
            &&& action_of(keys, next(keys, walking, Event::LogRead(Err(())))) is Receive
        }),
{
    let start = PhaseView::<M, K, R>::Receiving;
    let request = Event::<M, K, R>::Received(Some(StorageTask::GetLogs(reply)));
    let opened = Event::<M, K, R>::LogsOpened(Ok(()));
    lemma_run_pair(keys, start, request, opened);
    lemma_run_concat(keys, start, seq![request, opened], log_events(entries));
    lemma_log_events::<M, K, R>(keys, reply, entries);
}

/// Once an erase has looked every key of the table up, whatever came of that, the chip is erased;
/// then its end is waited for, and then the storage is set up anew. Only an erase that cannot be
/// started makes the handler give up.
pub proof fn law_erase_follows_the_lookups<M, K, R>(
    keys: Seq<ConfigEntry>,
    replies: Seq<Result<Option<u64>, ()>>,
)
    requires
        replies.len() == keys.len(),
    ensures
        ({
            let looked_up = run(
                keys,
                PhaseView::<M, K, R>::Receiving,
                seq![Event::Received(Some(StorageTask::EraseLogs))] + lookups(replies),
            );
            let started = next(keys, looked_up, Event::EraseStarted(Ok(())));
            let erased = next(keys, started, Event::Erased);
            &&& action_of(keys, looked_up) is StartErase
            &&& action_of(keys, next(keys, looked_up, Event::EraseStarted(Err(())))) is Abort
            &&& action_of(keys, started) is AwaitErase
            &&& action_of(keys, erased) is Reopen
        }),
{
    let request = Event::<M, K, R>::Received(Some(StorageTask::EraseLogs));
    let start = PhaseView::<M, K, R>::Receiving;
    lemma_run_concat(keys, start, seq![request], lookups(replies));
    lemma_run_single(keys, start, request);
    lemma_saving::<M, K, R>(keys, replies);
}

/// The lookup gave a value.
pub open spec fn gave_value() -> spec_fn(Result<Option<u64>, ()>) -> bool {
    |reply: Result<Option<u64>, ()>| reply matches Ok(Some(_))
}

proof fn lemma_kept_places(keys: Seq<ConfigEntry>, replies: Seq<Result<Option<u64>, ()>>)
    requires
        replies.len() <= keys.len(),
    ensures
        kept(keys, replies).len() == replies.filter(gave_value()).len(),
        forall|i: int|
            #![trigger replies[i]]
            0 <= i < replies.len() ==> (replies[i] matches Ok(Some(value)) ==> {
                let place = replies.take(i).filter(gave_value()).len() as int;
                &&& place < kept(keys, replies).len()
                &&& kept(keys, replies)[place] == (keys[i].0, value)
            }),
    decreases replies.len(),
{
    reveal(Seq::filter);
    if replies.len() > 0 {
        let before = replies.drop_last();
        lemma_kept_places(keys, before);
        assert forall|i: int| #![trigger replies[i]] 0 <= i < replies.len() implies (
        replies[i] matches Ok(Some(value)) ==> {
            let place = replies.take(i).filter(gave_value()).len() as int;
            &&& place < kept(keys, replies).len()
            &&& kept(keys, replies)[place] == (keys[i].0, value)
        }) by {
            if i < before.len() {
                assert(before[i] == replies[i]);
                assert(before.take(i) =~= replies.take(i));
            } else {
                assert(replies.take(i) =~= before);
            }
        }
    }
}

/// After an erase the value that the lookup of a key gave is stored under the name of that key, for
/// every such key, in its turn: as many stores come before it as lookups before its own gave a
/// value. When all have had their turn, the next request is waited for. A store that fails does not
/// keep the later ones from being made.
pub proof fn law_erase_stores_each_value_in_its_turn<M, K, R>(
    keys: Seq<ConfigEntry>,
    replies: Seq<Result<Option<u64>, ()>>,
    i: int,
    outcomes: Seq<Result<(), ()>>,
)
    requires
        replies.len() == keys.len(),
        0 <= i <= keys.len(),
        i < keys.len() ==> (replies[i] matches Ok(Some(_))),
        outcomes.len() == replies.take(i).filter(gave_value()).len(),
    ensures
        ({
            let erased = seq![Event::Received(Some(StorageTask::EraseLogs))] + lookups(replies)
                + seq![Event::EraseStarted(Ok(())), Event::Erased, Event::Reopened];
            let phase = run(
                keys,
                PhaseView::<M, K, R>::Receiving,
                erased + stores(outcomes),
            );
            &&& i < keys.len() ==> (replies[i] matches Ok(Some(value)) && action_of(keys, phase)
                == ActionView::<M, K, R>::StoreSaved(keys[i].0, value))
            &&& i < keys.len() ==> action_of(keys, next(keys, phase, Event::KeyRejected)) is Abort
            &&& i == keys.len() ==> action_of(keys, phase) is Receive
        }),
{
    lemma_kept_places(keys, replies);
    assert(replies.take(replies.len() as int) =~= replies);
    if i < keys.len() {
        assert(replies[i] matches Ok(Some(_)));
    }
    law_erase_restores_what_was_kept::<M, K, R>(keys, replies, outcomes);
}

/// A name of the table that is not that of a key makes an erase give up before it is started.
pub proof fn law_erase_gives_up_on_a_name_that_is_no_key<M, K, R>(
    keys: Seq<ConfigEntry>,
    replies: Seq<Result<Option<u64>, ()>>,
)
    requires
        replies.len() < keys.len(),
    ensures
        action_of(
            keys,
            run(
                keys,
                PhaseView::<M, K, R>::Receiving,
                (seq![Event::Received(Some(StorageTask::EraseLogs))] + lookups(replies)).push(
                    Event::KeyRejected,
                ),
            ),
        ) is Abort,
{
    let request = Event::<M, K, R>::Received(Some(StorageTask::EraseLogs));
    let start = PhaseView::<M, K, R>::Receiving;
    let before = seq![request] + lookups(replies);
    assert(before.push(Event::KeyRejected).drop_last() =~= before);
    lemma_run_concat(keys, start, seq![request], lookups(replies));
    lemma_run_single(keys, start, request);
    lemma_saving::<M, K, R>(keys, replies);
}

/// Who asks for the whole configuration is called, after one read for each key of the table, with
/// one item for each read, in order: the very key and value that the read gave, or no key and zero
/// where it gave none or failed. Nobody is called where the configuration cannot be opened.
pub proof fn law_all_config_is_what_was_read<M, K, R>(
    keys: Seq<ConfigEntry>,
    reply: R,
    items: Seq<Result<Option<(K, u64)>, ()>>,
)
    requires
        items.len() <= keys.len(),
    ensures
        ({
            let request = Event::<M, K, R>::Received(Some(StorageTask::ReadAllConfig(reply)));
            let opening = next(keys, PhaseView::<M, K, R>::Receiving, request);
            let phase = run(
                keys,
                PhaseView::<M, K, R>::Receiving,
                seq![request, Event::ConfigOpened(Ok(()))] + reads(items),
            );
            &&& action_of(keys, opening) is OpenConfig
            &&& action_of(keys, next(keys, opening, Event::ConfigOpened(Err(())))) is Receive
            &&& items.len() < keys.len() ==> action_of(keys, phase) is ReadConfig
            &&& items.len() == keys.len() ==> {
                &&& action_of(keys, phase) matches ActionView::DeliverAllConfig(to, delivered)
                &&& to == reply
                &&& delivered.len() == items.len()
                &&& forall|i: int|
                    #![trigger items[i]]
                    0 <= i < items.len() ==> match items[i] {
                        Ok(Some((key, value))) => delivered[i].0 == Some(key) && delivered[i].1
                            == value,
                        _ => delivered[i].0 is None && delivered[i].1 == 0,
                    }
                &&& action_of(keys, next(keys, phase, Event::Delivered)) is Receive
            }
        }),
{
    let start = PhaseView::<M, K, R>::Receiving;
    let request = Event::<M, K, R>::Received(Some(StorageTask::ReadAllConfig(reply)));
    let opened = Event::<M, K, R>::ConfigOpened(Ok(()));
    lemma_run_pair(keys, start, request, opened);
    lemma_run_concat(keys, start, seq![request, opened], reads(items));
    lemma_collecting::<M, K, R>(keys, reply, items);
}

/// A handler that was made with a table and has got events one after the other asks for what the
/// run over these events comes to.
pub proof fn law_handler_does_what_the_run_says<M, K, R, const N: usize>(
    keys: &'static [ConfigEntry; N],
    handlers: Seq<Handler<M, K, R, N>>,
    events: Seq<Event<M, K, R>>,
    action: Action<'_, M, K, R>,
)
    requires
        handlers.len() == events.len() + 1,
        call_ensures(Handler::<M, K, R, N>::new, (keys,), handlers[0]),
        forall|i: int|
            0 <= i < events.len() ==> call_ensures(
                Handler::<M, K, R, N>::advance,
                (handlers[i], #[trigger] events[i]),
                handlers[i + 1],
            ),
        call_ensures(Handler::<M, K, R, N>::action, (&handlers.last(),), action),
    ensures
        action@ == action_of(keys@, run(keys@, PhaseView::<M, K, R>::Receiving, events)),
{
    lemma_handler_runs(keys, handlers, events, events.len());
    assert(events.take(events.len() as int) =~= events);
}

proof fn lemma_handler_runs<M, K, R, const N: usize>(
    keys: &'static [ConfigEntry; N],
    handlers: Seq<Handler<M, K, R, N>>,
    events: Seq<Event<M, K, R>>,
    n: nat,
)
    requires
        n <= events.len(),
        handlers.len() == events.len() + 1,
        call_ensures(Handler::<M, K, R, N>::new, (keys,), handlers[0]),
        forall|i: int|
            0 <= i < events.len() ==> call_ensures(
                Handler::<M, K, R, N>::advance,
                (handlers[i], #[trigger] events[i]),
                handlers[i + 1],
            ),
    ensures
        handlers[n as int].keys() == keys@,
        handlers[n as int].phase() == run(
            keys@,
            PhaseView::<M, K, R>::Receiving,
            events.take(n as int),
        ),
    decreases n,
{
    if n > 0 {
        let m = n - 1;
        lemma_handler_runs(keys, handlers, events, m as nat);
        assert(events.take(n as int).drop_last() =~= events.take(m));
        assert(events.take(n as int).last() == events[m]);
        assert(call_ensures(
            Handler::<M, K, R, N>::advance,
            (handlers[m], events[m]),
            handlers[m + 1],
        ));
    }
}

/// What an action asks for is what it holds, nothing added and nothing left out.
pub proof fn law_actions_are_plain<M, K, R>(action: Action<'_, M, K, R>)
    ensures
        match action@ {
            ActionView::Receive => action is Receive,
            ActionView::Encode(msg) => action matches Action::Encode(held) && *held == msg,
            ActionView::Append { data, allow_overwrite } => {
                &&& action matches Action::Append { data: bytes, allow_overwrite: allowed }
                &&& bytes@ == data
                &&& allowed == allow_overwrite
            },
            ActionView::OpenLogs => action is OpenLogs,
            ActionView::ReadLog => action is ReadLog,
            ActionView::Decode(data) => action matches Action::Decode(bytes) && bytes@ == data,
            ActionView::DeliverLog(reply, msg) => action matches Action::DeliverLog(to, held)
                && *to == reply && *held == msg,
            ActionView::FetchSaved(name) => action matches Action::FetchSaved(held) && held
                == name,
            ActionView::StartErase => action is StartErase,
            ActionView::AwaitErase => action is AwaitErase,
            ActionView::Reopen => action is Reopen,
            ActionView::StoreSaved(name, value) => action matches Action::StoreSaved(held, number)
                && held == name && number == value,
            ActionView::FetchConfig(key) => action matches Action::FetchConfig(held) && *held
                == key,
            ActionView::DeliverConfig(reply, key, value) => {
                &&& action matches Action::DeliverConfig(to, held, number)
                &&& *to == reply
                &&& *held == key
                &&& number == value
            },
            ActionView::OpenConfig => action is OpenConfig,
            ActionView::ReadConfig => action is ReadConfig,
            ActionView::DeliverAllConfig(reply, items) => {
                &&& action matches Action::DeliverAllConfig(to, held)
                &&& *to == reply
                &&& held@ == items
            },
            ActionView::StoreConfig(key, value) => action matches Action::StoreConfig(held, number)
                && *held == key && number == value,
            ActionView::MeasureSpace => action is MeasureSpace,
            ActionView::DeliverSpace(reply, space) => action matches Action::DeliverSpace(to, number)
                && *to == reply && number == space,
            ActionView::Abort => action is Abort,
        },
{
}

/// The buffers for log entries hold 2048 bytes, those of an erase 256, and those of single requests
/// for the configuration 64.
pub proof fn law_buffer_lengths()
    ensures
        LOG_BUFFER_LEN == 2048,
        ERASE_BUFFER_LEN == 256,
        CONFIG_BUFFER_LEN == 64,
{
}

}
