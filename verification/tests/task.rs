use ground_station::task::{
    blocking_log, edit_config, erase_logs, get_logs, get_space_left, log, log_sender, log_str,
    read_all_config, read_config, StorageTask, LOG_CHANNEL_LEN,
};
use thingbuf::mpsc::StaticChannel;

type Task = StorageTask<u32, u8, char>;

static FULL: StaticChannel<Task, 2> = StaticChannel::new();
static EMPTY: StaticChannel<Task, 0> = StaticChannel::new();
static LOGS: StaticChannel<Task, LOG_CHANNEL_LEN> = StaticChannel::new();
static CLOSED: StaticChannel<Task, 2> = StaticChannel::new();
static CLONED: StaticChannel<Task, 2> = StaticChannel::new();

#[test]
fn messages_are_queued_until_the_channel_is_full() {
    let (sender, receiver) = FULL.split();
    let slot = Some(sender);
    assert!(log(&slot, 1).is_ok());
    assert!(log(&slot, 2).is_ok());
    assert!(matches!(log(&slot, 3), Err(StorageTask::Msg(3))));
    assert!(matches!(receiver.try_recv(), Ok(StorageTask::Msg(1))));
    assert!(log(&slot, 4).is_ok());
    assert!(matches!(receiver.try_recv(), Ok(StorageTask::Msg(2))));
    assert!(matches!(receiver.try_recv(), Ok(StorageTask::Msg(4))));
    assert!(receiver.try_recv().is_err());
}

#[test]
fn a_channel_without_slots_gives_the_request_back() {
    let (sender, receiver) = EMPTY.split();
    let slot = Some(sender);
    assert!(matches!(log(&slot, 8), Err(StorageTask::Msg(8))));
    drop(receiver);
    assert!(matches!(log(&slot, 9), Err(StorageTask::Msg(9))));
}

#[test]
fn the_request_channel_takes_thirty_two_requests() {
    let (sender, receiver) = LOGS.split();
    let slot = Some(sender);
    for msg in 0..32 {
        assert!(log(&slot, msg).is_ok());
    }
    assert!(matches!(log(&slot, 32), Err(StorageTask::Msg(32))));
    assert!(matches!(receiver.try_recv(), Ok(StorageTask::Msg(0))));
    assert!(log(&slot, 33).is_ok());
}

#[test]
fn a_closed_channel_gives_the_request_back() {
    let (sender, receiver) = CLOSED.split();
    drop(receiver);
    let slot = Some(sender);
    assert!(matches!(log(&slot, 5), Err(StorageTask::Msg(5))));
}

#[test]
fn senders_share_the_channel() {
    let (sender, receiver) = CLONED.split();
    let slot = Some(sender);
    let other = log_sender(&slot);
    assert!(other.try_send(erase_logs()).is_ok());
    drop(other);
    assert!(matches!(receiver.try_recv(), Ok(StorageTask::EraseLogs)));
    assert!(log(&slot, 6).is_ok());
}

#[test]
fn requests_carry_their_arguments() {
    let task: Task = blocking_log(7);
    assert!(matches!(task, StorageTask::Msg(7)));
    let task: Task = get_logs('l');
    assert!(matches!(task, StorageTask::GetLogs('l')));
    let task: Task = erase_logs();
    assert!(matches!(task, StorageTask::EraseLogs));
    let task: Task = edit_config(3, 99);
    assert!(matches!(task, StorageTask::EditConfig(3, 99)));
    let task: Task = read_config(4, 'c');
    assert!(matches!(task, StorageTask::ReadConfig(4, 'c')));
    let task: Task = read_all_config('a');
    assert!(matches!(task, StorageTask::ReadAllConfig('a')));
    let task: Task = get_space_left('s');
    assert!(matches!(task, StorageTask::GetSpaceLeft('s')));
    assert!(matches!(Task::default(), StorageTask::DoNothing));
}

#[test]
fn a_line_carries_its_time_twice() {
    let line = log_str(1234, "boot");
    assert_eq!(line.time, 1234);
    assert_eq!(line.ctxt.timestamp, 1234);
    assert_eq!(line.text, "boot");
}
