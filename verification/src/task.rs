//! Requests to the task that owns the flash chip.
use thingbuf::mpsc::StaticSender;
use vstd::prelude::*;

verus! {

/// Slots of the request channel.
pub const LOG_CHANNEL_LEN: usize = 32;

/// A request to the storage handler.
///
/// `M` is a log message, `K` a configuration key and `R` what the requester wants called with the
/// outcome.
#[derive(Clone)]
pub enum StorageTask<M, K, R> {
    /// Append a message to the log.
    Msg(M),
    /// Hand every logged message to the requester.
    GetLogs(R),
    /// Erase the chip, keeping the configuration.
    EraseLogs,
    /// Hand the value of a configuration key to the requester.
    ReadConfig(K, R),
    /// Hand the whole configuration to the requester.
    ReadAllConfig(R),
    /// Set a configuration key to a value.
    EditConfig(K, u64),
    /// Hand the number of free log bytes to the requester.
    GetSpaceLeft(R),
    /// Nothing; what an unused slot of the request channel holds.
    DoNothing,
}

impl<M, K, R> Default for StorageTask<M, K, R> {
    fn default() -> (task: Self)
        ensures
            task == StorageTask::<M, K, R>::DoNothing,
    {
        StorageTask::DoNothing
    }
}

/// `thingbuf::mpsc::StaticSender`, one of the sending ends of a channel in static memory.
#[verifier::external_type_specification]
#[verifier::external_body]
#[verifier::reject_recursive_types(T)]
#[verifier::reject_recursive_types(R)]
pub struct ExStaticSender<T: 'static, R: 'static>(thingbuf::mpsc::StaticSender<T, R>);

/// `thingbuf::recycling::DefaultRecycle`, the channel's policy for the slots that it uses again.
#[verifier::external_type_specification]
#[verifier::external_body]
pub struct ExDefaultRecycle(thingbuf::recycling::DefaultRecycle);

/// `StaticSender::clone`: a sending end with the same three references, thus of the same channel.
#[verifier::external_body]
fn clone_sender<T: 'static>(sender: &StaticSender<T>) -> (clone: StaticSender<T>)
    ensures
        clone == *sender,
{
    sender.clone()
}

/// `StaticSender::capacity`: the number of slots of the sender's channel, fixed when the channel was
/// made.
///
/// What it returns is spoken of through [`has_slots`] and [`no_slots`].
#[verifier::external_body]
fn sender_capacity<T: Default + Clone + 'static>(sender: &StaticSender<T>) -> (capacity: usize) {
    sender.capacity()
}

/// `StaticSender::capacity` gives a number above zero for `sender`.
pub closed spec fn has_slots<T: Default + Clone + 'static>(sender: StaticSender<T>) -> bool {
    exists|capacity: usize|
        capacity > 0 && #[trigger] call_ensures(sender_capacity::<T>, (&sender,), capacity)
}

/// `StaticSender::capacity` gives zero for `sender`.
pub closed spec fn no_slots<T: Default + Clone + 'static>(sender: StaticSender<T>) -> bool {
    call_ensures(sender_capacity::<T>, (&sender,), 0usize)
}

/// `StaticSender::try_send`: puts the value into the channel, or gives it back unchanged.
///
/// Which of the two happens depends on what the other ends of the channel do at the same time, so
/// nothing is said of it: a full or a closed channel gives the value back. A channel without slots
/// is left out: there the call would index into nothing.
#[verifier::external_body]
fn try_send<T: Default + Clone + 'static>(sender: &StaticSender<T>, value: T) -> (sent: Result<
    (),
    T,
>)
    requires
        has_slots(*sender),
    ensures
        sent matches Err(back) ==> back == value,
{
    match sender.try_send(value) {
        Ok(()) => Ok(()),
        Err(error) => Err(error.into_inner()),
    }
}

/// `sent` is an outcome of `StaticSender::try_send` with `value` on the channel of `sender`.
pub closed spec fn offered<T: Default + Clone + 'static>(
    sender: StaticSender<T>,
    value: T,
    sent: Result<(), T>,
) -> bool {
    call_ensures(try_send::<T>, (&sender, value), sent)
}

/// A sending end of the request channel whose own is kept in `slot`.
///
/// The slot is filled before any request is made.
pub fn log_sender<T: 'static>(slot: &Option<StaticSender<T>>) -> (sender: StaticSender<T>)
    requires
        slot is Some,
    ensures
        *slot == Some(sender),
{
    match slot {
        Some(sender) => clone_sender(sender),
        None => vstd::pervasive::unreached(),
    }
}

/// Asks for a message to be logged if the request channel has room for it now.
///
/// The request is offered to the channel of the sending end in `slot`; what comes of that is
/// returned. To a channel without slots nothing is offered.
/// A request that the channel has no room for is given back, and the message is lost unless the
/// caller sends it again.
pub fn log<M: Clone + 'static, K: Clone + 'static, R: Clone + 'static>(
    slot: &Option<StaticSender<StorageTask<M, K, R>>>,
    msg: M,
) -> (sent: Result<(), StorageTask<M, K, R>>)
    requires
        slot is Some,
    ensures
        offered(slot->0, StorageTask::<M, K, R>::Msg(msg), sent) || (no_slots(slot->0)
            && sent is Err),
        sent matches Err(back) ==> back == StorageTask::<M, K, R>::Msg(msg),
{
    let sender = log_sender(slot);
    if sender_capacity(&sender) > 0 {
        try_send(&sender, StorageTask::Msg(msg))
    } else {
        Err(StorageTask::Msg(msg))
    }
}

/// The request to log a message, for a caller that waits until the channel has room.
pub fn blocking_log<M, K, R>(msg: M) -> (task: StorageTask<M, K, R>)
    ensures
        task == StorageTask::<M, K, R>::Msg(msg),
{
    StorageTask::Msg(msg)
}

/// The request for every logged message.
pub fn get_logs<M, K, R>(reply: R) -> (task: StorageTask<M, K, R>)
    ensures
        task == StorageTask::<M, K, R>::GetLogs(reply),
{
    StorageTask::GetLogs(reply)
}

/// The request to erase the log.
pub fn erase_logs<M, K, R>() -> (task: StorageTask<M, K, R>)
    ensures
        task == StorageTask::<M, K, R>::EraseLogs,
{
    StorageTask::EraseLogs
}

/// The request to set a configuration key.
pub fn edit_config<M, K, R>(key: K, value: u64) -> (task: StorageTask<M, K, R>)
    ensures
        task == StorageTask::<M, K, R>::EditConfig(key, value),
{
    StorageTask::EditConfig(key, value)
}

/// The request for the value of a configuration key.
pub fn read_config<M, K, R>(key: K, reply: R) -> (task: StorageTask<M, K, R>)
    ensures
        task == StorageTask::<M, K, R>::ReadConfig(key, reply),
{
    StorageTask::ReadConfig(key, reply)
}

/// The request for the whole configuration.
pub fn read_all_config<M, K, R>(reply: R) -> (task: StorageTask<M, K, R>)
    ensures
        task == StorageTask::<M, K, R>::ReadAllConfig(reply),
{
    StorageTask::ReadAllConfig(reply)
}

/// The request for the number of free log bytes.
pub fn get_space_left<M, K, R>(reply: R) -> (task: StorageTask<M, K, R>)
    ensures
        task == StorageTask::<M, K, R>::GetSpaceLeft(reply),
{
    StorageTask::GetSpaceLeft(reply)
}

/// What a message is logged with besides its content.
#[derive(Clone, Copy, Debug, PartialEq, Eq, Structural)]
pub struct LocalCtxt {
    /// When it was logged, by the real-time clock.
    pub timestamp: u32,
}

/// A line of text to be logged.
pub struct LogLine<'a> {
    /// The time that stands in the message itself.
    pub time: u32,
    /// The text.
    pub text: &'a str,
    /// What the message is logged with.
    pub ctxt: LocalCtxt,
}

/// The log message for a line of text at a time of the real-time clock; the message and its context
/// carry the same time.
pub fn log_str(time: u32, msg: &str) -> (line: LogLine<'_>)
    ensures
        line.time == time,
        line.text == msg,
        line.ctxt.timestamp == time,
{
    LogLine { time, text: msg, ctxt: LocalCtxt { timestamp: time } }
}

/// Each request says just what was asked for and carries what it was asked with.
pub proof fn law_requests_carry_what_is_asked<M, K, R>(
    msg: M,
    key: K,
    value: u64,
    reply: R,
    task: StorageTask<M, K, R>,
)
    ensures
        call_ensures(blocking_log::<M, K, R>, (msg,), task) ==> task == StorageTask::<M, K, R>::Msg(
            msg,
        ),
        call_ensures(get_logs::<M, K, R>, (reply,), task) ==> task == StorageTask::<
            M,
            K,
            R,
        >::GetLogs(reply),
        call_ensures(erase_logs::<M, K, R>, (), task) ==> task == StorageTask::<
            M,
            K,
            R,
        >::EraseLogs,
        call_ensures(edit_config::<M, K, R>, (key, value), task) ==> task == StorageTask::<
            M,
            K,
            R,
        >::EditConfig(key, value),
        call_ensures(read_config::<M, K, R>, (key, reply), task) ==> task == StorageTask::<
            M,
            K,
            R,
        >::ReadConfig(key, reply),
        call_ensures(read_all_config::<M, K, R>, (reply,), task) ==> task == StorageTask::<
            M,
            K,
            R,
        >::ReadAllConfig(reply),
        call_ensures(get_space_left::<M, K, R>, (reply,), task) ==> task == StorageTask::<
            M,
            K,
            R,
        >::GetSpaceLeft(reply),
{
}

/// A line of text is logged with its whole text, and with its time both in the message and beside
/// it.
pub proof fn law_line_carries_its_time_twice(time: u32, text: &str, line: LogLine<'_>)
    requires
        call_ensures(log_str, (time, text), line),
    ensures
        line.text@ == text@,
        line.time == time,
        line.ctxt == (LocalCtxt { timestamp: time }),
{
}

/// Logging a message offers just that message to the channel of the sending end in the slot and
/// returns what came of it. Only where the channel has no slots is there no offer. A request that
/// is not taken comes back as it was.
proof fn law_log_offers_the_message<M: Clone + 'static, K: Clone + 'static, R: Clone + 'static>(
    slot: Option<StaticSender<StorageTask<M, K, R>>>,
    msg: M,
    sent: Result<(), StorageTask<M, K, R>>,
)
    requires
        slot is Some,
        call_ensures(log::<M, K, R>, (&slot, msg), sent),
    ensures
        ({
            ||| call_ensures(
                try_send::<StorageTask<M, K, R>>,
                (&slot->0, StorageTask::<M, K, R>::Msg(msg)),
                sent,
            )
            ||| sent is Err && call_ensures(
                sender_capacity::<StorageTask<M, K, R>>,
                (&slot->0,),
                0usize,
            )
        }),
        sent matches Err(back) ==> back == StorageTask::<M, K, R>::Msg(msg),
{
}

/// Every sending end is one of the channel whose own is in the slot.
pub proof fn law_senders_share_the_channel<T: 'static>(
    slot: Option<StaticSender<T>>,
    sender: StaticSender<T>,
)
    requires
        slot is Some,
        call_ensures(log_sender::<T>, (&slot,), sender),
    ensures
        slot == Some(sender),
{
}

}
