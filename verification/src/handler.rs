//! What the task that owns the flash chip does next.
//!
//! A [`Handler`] stands in a [`Phase`]. Its [`Action`] is the outside work that the phase waits
//! for; the [`Event`] that reports the outcome of that work takes the handler to the next phase.
use crate::saved_config::Pair;
use crate::saved_config::SavedConfig;
use crate::task::StorageTask;
use vstd::prelude::*;

verus! {

/// Bytes that an encoded log message may take, both in writing and in reading back.
pub const LOG_BUFFER_LEN: usize = 2048;

/// Bytes of the buffer through which the configuration is saved and restored around an erase.
pub const ERASE_BUFFER_LEN: usize = 256;

/// Bytes of the buffer through which single requests read and write the configuration.
pub const CONFIG_BUFFER_LEN: usize = 64;

/// The type of a configuration value.
#[derive(Clone, Copy, Debug, PartialEq, Eq, Structural)]
pub enum ValueType {
    /// An unsigned number of 64 bits.
    U64,
}

/// A configuration key's name and the type of its value.
pub type ConfigEntry = (&'static str, ValueType);

/// Where the handler stands.
pub enum Phase<M, K, R, const N: usize> {
    /// Waits for a request.
    Receiving,
    /// Has a message to be encoded.
    Encoding { msg: M },
    /// Has an encoded message to be appended to the log.
    Appending { data: Vec<u8> },
    /// Is about to walk the log.
    OpeningLogs { reply: R },
    /// Wants the next entry of the log.
    ReadingLog { reply: R },
    /// Has a log entry to be decoded.
    Decoding { reply: R, data: Vec<u8> },
    /// Has a message for the requester.
    DeliveringLog { reply: R, msg: M },
    /// Wants the value of the key at `index`, to keep it over the erase.
    SavingConfig { index: usize, saved: SavedConfig<N> },
    /// Is about to erase the chip.
    StartingErase { saved: SavedConfig<N> },
    /// Waits for the erase to end.
    Erasing { saved: SavedConfig<N> },
    /// Is about to set up the storage on the erased chip.
    Reopening { saved: SavedConfig<N> },
    /// Has the pair at `index` to be stored again.
    RestoringConfig { index: usize, saved: SavedConfig<N> },
    /// Wants the value of one key.
    FetchingConfig { key: K, reply: R },
    /// Has the value of one key for the requester.
    DeliveringConfig { key: K, value: u64, reply: R },
    /// Is about to walk the configuration.
    OpeningConfig { reply: R },
    /// Wants the next item of the configuration.
    ReadingConfig { items: Vec<(Option<K>, u64)>, reply: R },
    /// Has the whole configuration for the requester.
    DeliveringAllConfig { items: Vec<(Option<K>, u64)>, reply: R },
    /// Has one key's value to be stored.
    StoringConfig { key: K, value: u64 },
    /// Wants the number of free log bytes.
    MeasuringSpace { reply: R },
    /// Has the number of free log bytes for the requester.
    DeliveringSpace { space: u32, reply: R },
    /// Cannot go on.
    Failed,
}

/// The mathematical counterpart of [`Phase`].
pub ghost enum PhaseView<M, K, R> {
    Receiving,
    Encoding { msg: M },
    Appending { data: Seq<u8> },
    OpeningLogs { reply: R },
    ReadingLog { reply: R },
    Decoding { reply: R, data: Seq<u8> },
    DeliveringLog { reply: R, msg: M },
    SavingConfig { index: nat, saved: Seq<Pair> },
    StartingErase { saved: Seq<Pair> },
    Erasing { saved: Seq<Pair> },
    Reopening { saved: Seq<Pair> },
    RestoringConfig { index: nat, saved: Seq<Pair> },
    FetchingConfig { key: K, reply: R },
    DeliveringConfig { key: K, value: u64, reply: R },
    OpeningConfig { reply: R },
    ReadingConfig { items: Seq<(Option<K>, u64)>, reply: R },
    DeliveringAllConfig { items: Seq<(Option<K>, u64)>, reply: R },
    StoringConfig { key: K, value: u64 },
    MeasuringSpace { reply: R },
    DeliveringSpace { space: u32, reply: R },
    Failed,
}

impl<M, K, R, const N: usize> View for Phase<M, K, R, N> {
    type V = PhaseView<M, K, R>;

    open spec fn view(&self) -> PhaseView<M, K, R> {
        match *self {
            Phase::Receiving => PhaseView::Receiving,
            Phase::Encoding { msg } => PhaseView::Encoding { msg },
            Phase::Appending { data } => PhaseView::Appending { data: data@ },
            Phase::OpeningLogs { reply } => PhaseView::OpeningLogs { reply },
            Phase::ReadingLog { reply } => PhaseView::ReadingLog { reply },
            Phase::Decoding { reply, data } => PhaseView::Decoding { reply, data: data@ },
            Phase::DeliveringLog { reply, msg } => PhaseView::DeliveringLog { reply, msg },
            Phase::SavingConfig { index, saved } => PhaseView::SavingConfig {
                index: index as nat,
                saved: saved@,
            },
            Phase::StartingErase { saved } => PhaseView::StartingErase {
                saved: saved@,
            },
            Phase::Erasing { saved } => PhaseView::Erasing { saved: saved@ },
            Phase::Reopening { saved } => PhaseView::Reopening { saved: saved@ },
            Phase::RestoringConfig { index, saved } => PhaseView::RestoringConfig {
                index: index as nat,
                saved: saved@,
            },
            Phase::FetchingConfig { key, reply } => PhaseView::FetchingConfig { key, reply },
            Phase::DeliveringConfig { key, value, reply } => PhaseView::DeliveringConfig {
                key,
                value,
                reply,
            },
            Phase::OpeningConfig { reply } => PhaseView::OpeningConfig { reply },
            Phase::ReadingConfig { items, reply } => PhaseView::ReadingConfig {
                items: items@,
                reply,
            },
            Phase::DeliveringAllConfig { items, reply } => PhaseView::DeliveringAllConfig {
                items: items@,
                reply,
            },
            Phase::StoringConfig { key, value } => PhaseView::StoringConfig { key, value },
            Phase::MeasuringSpace { reply } => PhaseView::MeasuringSpace { reply },
            Phase::DeliveringSpace { space, reply } => PhaseView::DeliveringSpace { space, reply },
            Phase::Failed => PhaseView::Failed,
        }
    }
}

/// The outside work that a phase waits for.
pub enum Action<'a, M, K, R> {
    /// Receive the next request.
    Receive,
    /// Encode the message into at most [`LOG_BUFFER_LEN`] bytes.
    Encode(&'a M),
    /// Append the bytes to the log; older entries make room for them only if `allow_overwrite`.
    Append { data: &'a [u8], allow_overwrite: bool },
    /// Start to walk the log from its oldest entry.
    OpenLogs,
    /// Read the next log entry of at most [`LOG_BUFFER_LEN`] bytes.
    ReadLog,
    /// Decode the bytes to a message.
    Decode(&'a [u8]),
    /// Call the requester with the message.
    DeliverLog(&'a R, &'a M),
    /// Read the value of the key of that name, through [`ERASE_BUFFER_LEN`] bytes.
    FetchSaved(&'static str),
    /// Start to erase the whole chip.
    StartErase,
    /// Blink until the erase has ended.
    AwaitErase,
    /// Show that the erase has ended and set up storage and cache anew.
    Reopen,
    /// Store the value under the key of that name, through [`ERASE_BUFFER_LEN`] bytes.
    StoreSaved(&'static str, u64),
    /// Read the value of the key, through [`CONFIG_BUFFER_LEN`] bytes.
    FetchConfig(&'a K),
    /// Call the requester with the key and its value.
    DeliverConfig(&'a R, &'a K, u64),
    /// Start to walk the configuration, through [`CONFIG_BUFFER_LEN`] bytes.
    OpenConfig,
    /// Read the next configuration item, through [`CONFIG_BUFFER_LEN`] bytes.
    ReadConfig,
    /// Call the requester with one item for each key of the table.
    DeliverAllConfig(&'a R, &'a [(Option<K>, u64)]),
    /// Store the value under the key, through [`CONFIG_BUFFER_LEN`] bytes.
    StoreConfig(&'a K, u64),
    /// Ask how many log bytes are free.
    MeasureSpace,
    /// Call the requester with the number of free log bytes.
    DeliverSpace(&'a R, u32),
    /// Panic.
    Abort,
}

/// The mathematical counterpart of [`Action`].
pub ghost enum ActionView<M, K, R> {
    Receive,
    Encode(M),
    Append { data: Seq<u8>, allow_overwrite: bool },
    OpenLogs,
    ReadLog,
    Decode(Seq<u8>),
    DeliverLog(R, M),
    FetchSaved(&'static str),
    StartErase,
    AwaitErase,
    Reopen,
    StoreSaved(&'static str, u64),
    FetchConfig(K),
    DeliverConfig(R, K, u64),
    OpenConfig,
    ReadConfig,
    DeliverAllConfig(R, Seq<(Option<K>, u64)>),
    StoreConfig(K, u64),
    MeasureSpace,
    DeliverSpace(R, u32),
    Abort,
}

impl<'a, M, K, R> View for Action<'a, M, K, R> {
    type V = ActionView<M, K, R>;

    open spec fn view(&self) -> ActionView<M, K, R> {
        match *self {
            Action::Receive => ActionView::Receive,
            Action::Encode(msg) => ActionView::Encode(*msg),
            Action::Append { data, allow_overwrite } => ActionView::Append {
                data: data@,
                allow_overwrite,
            },
            Action::OpenLogs => ActionView::OpenLogs,
            Action::ReadLog => ActionView::ReadLog,
            Action::Decode(data) => ActionView::Decode(data@),
            Action::DeliverLog(reply, msg) => ActionView::DeliverLog(*reply, *msg),
            Action::FetchSaved(name) => ActionView::FetchSaved(name),
            Action::StartErase => ActionView::StartErase,
            Action::AwaitErase => ActionView::AwaitErase,
            Action::Reopen => ActionView::Reopen,
            Action::StoreSaved(name, value) => ActionView::StoreSaved(name, value),
            Action::FetchConfig(key) => ActionView::FetchConfig(*key),
            Action::DeliverConfig(reply, key, value) => ActionView::DeliverConfig(
                *reply,
                *key,
                value,
            ),
            Action::OpenConfig => ActionView::OpenConfig,
            Action::ReadConfig => ActionView::ReadConfig,
            Action::DeliverAllConfig(reply, items) => ActionView::DeliverAllConfig(*reply, items@),
            Action::StoreConfig(key, value) => ActionView::StoreConfig(*key, value),
            Action::MeasureSpace => ActionView::MeasureSpace,
            Action::DeliverSpace(reply, space) => ActionView::DeliverSpace(*reply, space),
            Action::Abort => ActionView::Abort,
        }
    }
}

/// The outcome of an action.
pub enum Event<M, K, R> {
    /// Of `Receive`: a request, or `None` from a closed channel.
    Received(Option<StorageTask<M, K, R>>),
    /// Of `Encode`: the bytes, or `None` if the message could not be encoded.
    Encoded(Option<Vec<u8>>),
    /// Of `Append`.
    Appended(Result<(), ()>),
    /// Of `OpenLogs`.
    LogsOpened(Result<(), ()>),
    /// Of `ReadLog`: an entry, or `None` past the last one.
    LogRead(Result<Option<Vec<u8>>, ()>),
    /// Of `Decode`: the message, or `None` if the bytes are none.
    Decoded(Option<M>),
    /// Of the `Deliver` actions.
    Delivered,
    /// Of `FetchSaved` and `StoreSaved`: the name is not that of a key.
    KeyRejected,
    /// Of `FetchSaved` and `FetchConfig`: the value, or `None` if the key has none.
    ConfigFetched(Result<Option<u64>, ()>),
    /// Of `StartErase`.
    EraseStarted(Result<(), ()>),
    /// Of `AwaitErase`.
    Erased,
    /// Of `Reopen`.
    Reopened,
    /// Of `StoreSaved` and `StoreConfig`.
    ConfigStored(Result<(), ()>),
    /// Of `OpenConfig`.
    ConfigOpened(Result<(), ()>),
    /// Of `ReadConfig`: an item, or `None` past the last one.
    ConfigRead(Result<Option<(K, u64)>, ()>),
    /// Of `MeasureSpace`.
    SpaceMeasured(Result<u32, ()>),
}

/// The phase in which the keys before `index` have been looked up for the erase, and `saved` holds
/// what came of it.
pub open spec fn saving<M, K, R>(
    keys: Seq<ConfigEntry>,
    index: nat,
    saved: Seq<Pair>,
) -> PhaseView<M, K, R> {
    if index < keys.len() {
        PhaseView::SavingConfig { index, saved }
    } else {
        PhaseView::StartingErase { saved }
    }
}

/// The phase in which the pairs before `index` have been stored again after the erase.
pub open spec fn restoring<M, K, R>(index: nat, saved: Seq<Pair>) -> PhaseView<
    M,
    K,
    R,
> {
    if index < saved.len() {
        PhaseView::RestoringConfig { index, saved }
    } else {
        PhaseView::Receiving
    }
}

/// The phase in which `items` have been read for a requester who wants one for each key.
pub open spec fn collecting<M, K, R>(
    keys: Seq<ConfigEntry>,
    items: Seq<(Option<K>, u64)>,
    reply: R,
) -> PhaseView<M, K, R> {
    if items.len() < keys.len() {
        PhaseView::ReadingConfig { items, reply }
    } else {
        PhaseView::DeliveringAllConfig { items, reply }
    }
}

/// What the requester of the whole configuration gets for one read: the item, or an empty slot.
pub open spec fn slot<K>(read: Result<Option<(K, u64)>, ()>) -> (Option<K>, u64) {
    match read {
        Ok(Some((key, value))) => (Some(key), value),
        _ => (None, 0),
    }
}

/// The first phase of a request.
pub open spec fn begun<M, K, R>(keys: Seq<ConfigEntry>, task: StorageTask<M, K, R>) -> PhaseView<
    M,
    K,
    R,
> {
    match task {
        StorageTask::Msg(msg) => PhaseView::Encoding { msg },
        StorageTask::GetLogs(reply) => PhaseView::OpeningLogs { reply },
        StorageTask::EraseLogs => saving(keys, 0, Seq::empty()),
        StorageTask::ReadConfig(key, reply) => PhaseView::FetchingConfig { key, reply },
        StorageTask::ReadAllConfig(reply) => PhaseView::OpeningConfig { reply },
        StorageTask::EditConfig(key, value) => PhaseView::StoringConfig { key, value },
        StorageTask::GetSpaceLeft(reply) => PhaseView::MeasuringSpace { reply },
        StorageTask::DoNothing => PhaseView::Receiving,
    }
}

/// The phase that follows a phase on an event.
///
/// An event that is no outcome of what the phase waits for changes nothing.
pub open spec fn next<M, K, R>(
    keys: Seq<ConfigEntry>,
    phase: PhaseView<M, K, R>,
    event: Event<M, K, R>,
) -> PhaseView<M, K, R> {
    match (phase, event) {
        (PhaseView::Receiving, Event::Received(Some(task))) => begun(keys, task),
        // Appending a message: nothing that goes wrong is reported.
        (PhaseView::Encoding { .. }, Event::Encoded(Some(data))) => PhaseView::Appending {
            data: data@,
        },
        (PhaseView::Encoding { .. }, Event::Encoded(None)) => PhaseView::Receiving,
        (PhaseView::Appending { .. }, Event::Appended(_)) => PhaseView::Receiving,
        // Reading the log: entries that do not decode are passed over.
        (PhaseView::OpeningLogs { reply }, Event::LogsOpened(Ok(()))) => PhaseView::ReadingLog {
            reply,
        },
        (PhaseView::OpeningLogs { .. }, Event::LogsOpened(Err(()))) => PhaseView::Failed,
        (PhaseView::ReadingLog { reply }, Event::LogRead(Ok(Some(data)))) => PhaseView::Decoding {
            reply,
            data: data@,
        },
        (PhaseView::ReadingLog { .. }, Event::LogRead(_)) => PhaseView::Receiving,
        (PhaseView::Decoding { reply, .. }, Event::Decoded(Some(msg))) => {
            PhaseView::DeliveringLog { reply, msg }
        },
        (PhaseView::Decoding { reply, .. }, Event::Decoded(None)) => PhaseView::ReadingLog {
            reply,
        },
        (PhaseView::DeliveringLog { reply, .. }, Event::Delivered) => PhaseView::ReadingLog {
            reply,
        },
        // Erasing: save the configuration, erase, restore it.
        (PhaseView::SavingConfig { index, saved }, Event::ConfigFetched(Ok(Some(value)))) => saving(
            keys,
            index + 1,
            saved.push((keys[index as int].0, value)),
        ),
        (PhaseView::SavingConfig { index, saved }, Event::ConfigFetched(_)) => saving(
            keys,
            index + 1,
            saved,
        ),
        (PhaseView::SavingConfig { .. }, Event::KeyRejected) => PhaseView::Failed,
        (PhaseView::StartingErase { saved }, Event::EraseStarted(Ok(()))) => PhaseView::Erasing {
            saved,
        },
        (PhaseView::StartingErase { .. }, Event::EraseStarted(Err(()))) => PhaseView::Failed,
        (PhaseView::Erasing { saved }, Event::Erased) => PhaseView::Reopening { saved },
        (PhaseView::Reopening { saved }, Event::Reopened) => restoring(0, saved),
        (PhaseView::RestoringConfig { index, saved }, Event::ConfigStored(_)) => restoring(
            index + 1,
            saved,
        ),
        (PhaseView::RestoringConfig { .. }, Event::KeyRejected) => PhaseView::Failed,
        // Reading one key: the requester hears only of a value.
        (PhaseView::FetchingConfig { key, reply }, Event::ConfigFetched(Ok(Some(value)))) => {
            PhaseView::DeliveringConfig { key, value, reply }
        },
        (PhaseView::FetchingConfig { .. }, Event::ConfigFetched(_)) => PhaseView::Receiving,
        (PhaseView::DeliveringConfig { .. }, Event::Delivered) => PhaseView::Receiving,
        // Reading all keys: one read for each, an empty slot where it gave no item.
        (PhaseView::OpeningConfig { reply }, Event::ConfigOpened(Ok(()))) => collecting(
            keys,
            Seq::empty(),
            reply,
        ),
        (PhaseView::OpeningConfig { .. }, Event::ConfigOpened(Err(()))) => PhaseView::Receiving,
        (PhaseView::ReadingConfig { items, reply }, Event::ConfigRead(read)) => collecting(
            keys,
            items.push(slot(read)),
            reply,
        ),
        (PhaseView::DeliveringAllConfig { .. }, Event::Delivered) => PhaseView::Receiving,
        // Setting one key: nothing that goes wrong is reported.
        (PhaseView::StoringConfig { .. }, Event::ConfigStored(_)) => PhaseView::Receiving,
        // Measuring the space: the requester hears only of a number.
        (PhaseView::MeasuringSpace { reply }, Event::SpaceMeasured(Ok(space))) => {
            PhaseView::DeliveringSpace { space, reply }
        },
        (PhaseView::MeasuringSpace { .. }, Event::SpaceMeasured(Err(()))) => PhaseView::Receiving,
        (PhaseView::DeliveringSpace { .. }, Event::Delivered) => PhaseView::Receiving,
        (phase, _) => phase,
    }
}

/// The outside work that a phase waits for.
pub open spec fn action_of<M, K, R>(
    keys: Seq<ConfigEntry>,
    phase: PhaseView<M, K, R>,
) -> ActionView<M, K, R> {
    match phase {
        PhaseView::Receiving => ActionView::Receive,
        PhaseView::Encoding { msg } => ActionView::Encode(msg),
        PhaseView::Appending { data } => ActionView::Append { data, allow_overwrite: false },
        PhaseView::OpeningLogs { .. } => ActionView::OpenLogs,
        PhaseView::ReadingLog { .. } => ActionView::ReadLog,
        PhaseView::Decoding { data, .. } => ActionView::Decode(data),
        PhaseView::DeliveringLog { reply, msg } => ActionView::DeliverLog(reply, msg),
        PhaseView::SavingConfig { index, .. } => ActionView::FetchSaved(keys[index as int].0),
        PhaseView::StartingErase { .. } => ActionView::StartErase,
        PhaseView::Erasing { .. } => ActionView::AwaitErase,
        PhaseView::Reopening { .. } => ActionView::Reopen,
        PhaseView::RestoringConfig { index, saved } => ActionView::StoreSaved(
            saved[index as int].0,
            saved[index as int].1,
        ),
        PhaseView::FetchingConfig { key, .. } => ActionView::FetchConfig(key),
        PhaseView::DeliveringConfig { key, value, reply } => ActionView::DeliverConfig(
            reply,
            key,
            value,
        ),
        PhaseView::OpeningConfig { .. } => ActionView::OpenConfig,
        PhaseView::ReadingConfig { .. } => ActionView::ReadConfig,
        PhaseView::DeliveringAllConfig { items, reply } => ActionView::DeliverAllConfig(
            reply,
            items,
        ),
        PhaseView::StoringConfig { key, value } => ActionView::StoreConfig(key, value),
        PhaseView::MeasuringSpace { .. } => ActionView::MeasureSpace,
        PhaseView::DeliveringSpace { space, reply } => ActionView::DeliverSpace(reply, space),
        PhaseView::Failed => ActionView::Abort,
    }
}

/// What holds of every phase that a handler with these keys comes to.
pub open spec fn sound<M, K, R>(keys: Seq<ConfigEntry>, phase: PhaseView<M, K, R>) -> bool {
    match phase {
        PhaseView::SavingConfig { index, saved } => index < keys.len() && saved.len() <= index,
        PhaseView::StartingErase { saved } => saved.len() <= keys.len(),
        PhaseView::Erasing { saved } => saved.len() <= keys.len(),
        PhaseView::Reopening { saved } => saved.len() <= keys.len(),
        PhaseView::RestoringConfig { index, saved } => index < saved.len() <= keys.len(),
        PhaseView::ReadingConfig { items, .. } => items.len() < keys.len(),
        PhaseView::DeliveringAllConfig { items, .. } => items.len() == keys.len(),
        _ => true,
    }
}

fn saving_phase<M, K, R, const N: usize>(
    keys: &'static [ConfigEntry; N],
    index: usize,
    saved: SavedConfig<N>,
) -> (phase: Phase<M, K, R, N>)
    ensures
        phase@ == saving::<M, K, R>(keys@, index as nat, saved@),
{
    if index < keys.len() {
        Phase::SavingConfig { index, saved }
    } else {
        Phase::StartingErase { saved }
    }
}

fn restoring_phase<M, K, R, const N: usize>(index: usize, saved: SavedConfig<N>) -> (phase: Phase<
    M,
    K,
    R,
    N,
>)
    ensures
        phase@ == restoring::<M, K, R>(index as nat, saved@),
{
    if index < saved.as_slice().len() {
        Phase::RestoringConfig { index, saved }
    } else {
        Phase::Receiving
    }
}

fn collecting_phase<M, K, R, const N: usize>(
    keys: &'static [ConfigEntry; N],
    items: Vec<(Option<K>, u64)>,
    reply: R,
) -> (phase: Phase<M, K, R, N>)
    ensures
        phase@ == collecting::<M, K, R>(keys@, items@, reply),
{
    if items.len() < keys.len() {
        Phase::ReadingConfig { items, reply }
    } else {
        Phase::DeliveringAllConfig { items, reply }
    }
}

fn begin<M, K, R, const N: usize>(
    keys: &'static [ConfigEntry; N],
    task: StorageTask<M, K, R>,
) -> (phase: Phase<M, K, R, N>)
    ensures
        phase@ == begun(keys@, task),
{
    match task {
        StorageTask::Msg(msg) => Phase::Encoding { msg },
        StorageTask::GetLogs(reply) => Phase::OpeningLogs { reply },
        StorageTask::EraseLogs => saving_phase(keys, 0, SavedConfig::new()),
        StorageTask::ReadConfig(key, reply) => Phase::FetchingConfig { key, reply },
        StorageTask::ReadAllConfig(reply) => Phase::OpeningConfig { reply },
        StorageTask::EditConfig(key, value) => Phase::StoringConfig { key, value },
        StorageTask::GetSpaceLeft(reply) => Phase::MeasuringSpace { reply },
        StorageTask::DoNothing => Phase::Receiving,
    }
}

fn step<M, K, R, const N: usize>(
    keys: &'static [ConfigEntry; N],
    phase: Phase<M, K, R, N>,
    event: Event<M, K, R>,
) -> (following: Phase<M, K, R, N>)
    requires
        sound(keys@, phase@),
    ensures
        following@ == next(keys@, phase@, event),
{
    match (phase, event) {
        (Phase::Receiving, Event::Received(Some(task))) => begin(keys, task),
        (Phase::Encoding { .. }, Event::Encoded(Some(data))) => Phase::Appending { data },
        (Phase::Encoding { .. }, Event::Encoded(None)) => Phase::Receiving,
        (Phase::Appending { .. }, Event::Appended(_)) => Phase::Receiving,
        (Phase::OpeningLogs { reply }, Event::LogsOpened(Ok(()))) => Phase::ReadingLog { reply },
        (Phase::OpeningLogs { .. }, Event::LogsOpened(Err(()))) => Phase::Failed,
        (Phase::ReadingLog { reply }, Event::LogRead(Ok(Some(data)))) => Phase::Decoding {
            reply,
            data,
        },
        (Phase::ReadingLog { .. }, Event::LogRead(_)) => Phase::Receiving,
        (Phase::Decoding { reply, .. }, Event::Decoded(Some(msg))) => Phase::DeliveringLog {
            reply,
            msg,
        },
        (Phase::Decoding { reply, .. }, Event::Decoded(None)) => Phase::ReadingLog { reply },
        (Phase::DeliveringLog { reply, .. }, Event::Delivered) => Phase::ReadingLog { reply },
        (Phase::SavingConfig { index, saved }, Event::ConfigFetched(Ok(Some(value)))) => {
            saving_phase(keys, index + 1, saved.with((keys[index].0, value)))
        },
        (Phase::SavingConfig { index, saved }, Event::ConfigFetched(_)) => saving_phase(
            keys,
            index + 1,
            saved,
        ),
        (Phase::SavingConfig { .. }, Event::KeyRejected) => Phase::Failed,
        (Phase::StartingErase { saved }, Event::EraseStarted(Ok(()))) => Phase::Erasing { saved },
        (Phase::StartingErase { .. }, Event::EraseStarted(Err(()))) => Phase::Failed,
        (Phase::Erasing { saved }, Event::Erased) => Phase::Reopening { saved },
        (Phase::Reopening { saved }, Event::Reopened) => restoring_phase(0, saved),
        (Phase::RestoringConfig { index, saved }, Event::ConfigStored(_)) => restoring_phase(
            index + 1,
            saved,
        ),
        (Phase::RestoringConfig { .. }, Event::KeyRejected) => Phase::Failed,
        (Phase::FetchingConfig { key, reply }, Event::ConfigFetched(Ok(Some(value)))) => {
            Phase::DeliveringConfig { key, value, reply }
        },
        (Phase::FetchingConfig { .. }, Event::ConfigFetched(_)) => Phase::Receiving,
        (Phase::DeliveringConfig { .. }, Event::Delivered) => Phase::Receiving,
        (Phase::OpeningConfig { reply }, Event::ConfigOpened(Ok(()))) => collecting_phase(
            keys,
            Vec::new(),
            reply,
        ),
        (Phase::OpeningConfig { .. }, Event::ConfigOpened(Err(()))) => Phase::Receiving,
        (Phase::ReadingConfig { items, reply }, Event::ConfigRead(read)) => {
            let mut items = items;
            match read {
                Ok(Some((key, value))) => items.push((Some(key), value)),
                _ => items.push((None, 0)),
            }
            collecting_phase(keys, items, reply)
        },
        (Phase::DeliveringAllConfig { .. }, Event::Delivered) => Phase::Receiving,
        (Phase::StoringConfig { .. }, Event::ConfigStored(_)) => Phase::Receiving,
        (Phase::MeasuringSpace { reply }, Event::SpaceMeasured(Ok(space))) => {
            Phase::DeliveringSpace { space, reply }
        },
        (Phase::MeasuringSpace { .. }, Event::SpaceMeasured(Err(()))) => Phase::Receiving,
        (Phase::DeliveringSpace { .. }, Event::Delivered) => Phase::Receiving,
        (phase, _) => phase,
    }
}

/// The storage handler of a firmware with a given table of configuration keys.
///
/// `N` is the number of keys.
pub struct Handler<M, K, R, const N: usize> {
    keys: &'static [ConfigEntry; N],
    phase: Phase<M, K, R, N>,
}

impl<M, K, R, const N: usize> Handler<M, K, R, N> {
    #[verifier::type_invariant]
    spec fn wf(self) -> bool {
        sound(self.keys@, self.phase@)
    }

    /// The table of configuration keys.
    pub closed spec fn keys(&self) -> Seq<ConfigEntry> {
        self.keys@
    }

    /// Where the handler stands.
    pub closed spec fn phase(&self) -> PhaseView<M, K, R> {
        self.phase@
    }

    /// A handler that waits for its first request.
    pub fn new(keys: &'static [ConfigEntry; N]) -> (handler: Self)
        ensures
            handler.keys() == keys@,
            handler.phase() == PhaseView::<M, K, R>::Receiving,
    {
        Handler { keys, phase: Phase::Receiving }
    }

    /// The outside work to do now.
    pub fn action(&self) -> (action: Action<'_, M, K, R>)
        ensures
            action@ == action_of(self.keys(), self.phase()),
            sound(self.keys(), self.phase()),
            self.keys().len() == N,
    {
        proof {
            use_type_invariant(self);
        }
        match &self.phase {
            Phase::Receiving => Action::Receive,
            Phase::Encoding { msg } => Action::Encode(msg),
            Phase::Appending { data } => Action::Append {
                data: data.as_slice(),
                allow_overwrite: false,
            },
            Phase::OpeningLogs { .. } => Action::OpenLogs,
            Phase::ReadingLog { .. } => Action::ReadLog,
            Phase::Decoding { data, .. } => Action::Decode(data.as_slice()),
            Phase::DeliveringLog { reply, msg } => Action::DeliverLog(reply, msg),
            Phase::SavingConfig { index, .. } => Action::FetchSaved(self.keys[*index].0),
            Phase::StartingErase { .. } => Action::StartErase,
            Phase::Erasing { .. } => Action::AwaitErase,
            Phase::Reopening { .. } => Action::Reopen,
            Phase::RestoringConfig { index, saved } => {
                let pair = saved.as_slice()[*index];
                Action::StoreSaved(pair.0, pair.1)
            },
            Phase::FetchingConfig { key, .. } => Action::FetchConfig(key),
            Phase::DeliveringConfig { key, value, reply } => Action::DeliverConfig(
                reply,
                key,
                *value,
            ),
            Phase::OpeningConfig { .. } => Action::OpenConfig,
            Phase::ReadingConfig { .. } => Action::ReadConfig,
            Phase::DeliveringAllConfig { items, reply } => Action::DeliverAllConfig(
                reply,
                items.as_slice(),
            ),
            Phase::StoringConfig { key, value } => Action::StoreConfig(key, *value),
            Phase::MeasuringSpace { .. } => Action::MeasureSpace,
            Phase::DeliveringSpace { space, reply } => Action::DeliverSpace(reply, *space),
            Phase::Failed => Action::Abort,
        }
    }

    /// The handler once `event` has come.
    pub fn advance(self, event: Event<M, K, R>) -> (handler: Self)
        ensures
            handler.keys() == self.keys(),
            handler.phase() == next(self.keys(), self.phase(), event),
    {
        proof {
            use_type_invariant(&self);
            lemma_next_sound(self.keys@, self.phase@, event);
        }
        let Handler { keys, phase } = self;
        Handler { keys, phase: step(keys, phase, event) }
    }
}

/// Every phase that follows a sound phase is sound.
pub proof fn lemma_next_sound<M, K, R>(
    keys: Seq<ConfigEntry>,
    phase: PhaseView<M, K, R>,
    event: Event<M, K, R>,
)
    requires
        sound(keys, phase),
    ensures
        sound(keys, next(keys, phase, event)),
{
}

}
