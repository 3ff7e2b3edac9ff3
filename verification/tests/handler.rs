use ground_station::handler::{Action, ConfigEntry, Event, Handler, ValueType};
use ground_station::task::StorageTask;

type TestHandler = Handler<&'static str, u8, char, 3>;

static KEYS: [ConfigEntry; 3] = [
    ("rate", ValueType::U64),
    ("gain", ValueType::U64),
    ("mode", ValueType::U64),
];

static MANY: [ConfigEntry; 100] = [("k", ValueType::U64); 100];

static NO_KEYS: [ConfigEntry; 0] = [];

fn handler() -> TestHandler {
    Handler::new(&KEYS)
}

fn request(task: StorageTask<&'static str, u8, char>) -> TestHandler {
    handler().advance(Event::Received(Some(task)))
}

fn idle(handler: &TestHandler) -> bool {
    matches!(handler.action(), Action::Receive)
}

#[test]
fn nothing_is_done_for_no_request() {
    assert!(idle(&handler().advance(Event::Received(None))));
    assert!(idle(&request(StorageTask::DoNothing)));
}

#[test]
fn a_message_is_encoded_and_appended() {
    let handler = request(StorageTask::Msg("hello"));
    assert!(matches!(handler.action(), Action::Encode(&"hello")));
    let handler = handler.advance(Event::Encoded(Some(vec![1, 2, 3])));
    assert!(matches!(handler.action(), Action::Append { data: &[1, 2, 3], allow_overwrite: false }));
    assert!(idle(&handler.advance(Event::Appended(Err(())))));
    let handler = request(StorageTask::Msg("hello"));
    assert!(idle(&handler.advance(Event::Encoded(None))));
}

#[test]
fn logs_are_delivered_in_order() {
    let mut handler = request(StorageTask::GetLogs('r'));
    assert!(matches!(handler.action(), Action::OpenLogs));
    handler = handler.advance(Event::LogsOpened(Ok(())));
    let mut delivered = vec![];
    let entries: [(u8, Option<&'static str>); 3] = [(1, Some("a")), (2, None), (3, Some("c"))];
    for (data, decoded) in entries {
        assert!(matches!(handler.action(), Action::ReadLog));
        handler = handler.advance(Event::LogRead(Ok(Some(vec![data]))));
        match handler.action() {
            Action::Decode(bytes) => assert_eq!(bytes, &[data]),
            _ => panic!(),
        }
        handler = handler.advance(Event::Decoded(decoded));
        if let Action::DeliverLog(reply, msg) = handler.action() {
            assert_eq!(*reply, 'r');
            delivered.push(*msg);
            handler = handler.advance(Event::Delivered);
        }
    }
    assert_eq!(delivered, vec!["a", "c"]);
    assert!(idle(&handler.advance(Event::LogRead(Ok(None)))));
}

#[test]
fn an_unreadable_entry_ends_the_walk() {
    let handler = request(StorageTask::GetLogs('r')).advance(Event::LogsOpened(Ok(())));
    assert!(idle(&handler.advance(Event::LogRead(Err(())))));
}

#[test]
fn a_log_that_cannot_be_opened_is_fatal() {
    let handler = request(StorageTask::GetLogs('r')).advance(Event::LogsOpened(Err(())));
    assert!(matches!(handler.action(), Action::Abort));
    let handler = handler.advance(Event::Received(Some(StorageTask::EraseLogs)));
    assert!(matches!(handler.action(), Action::Abort));
}

#[test]
fn an_erase_keeps_the_configuration() {
    let mut handler = request(StorageTask::EraseLogs);
    let found: [Result<Option<u64>, ()>; 3] = [Ok(Some(10)), Err(()), Ok(Some(30))];
    let mut asked = vec![];
    for reply in found {
        match handler.action() {
            Action::FetchSaved(name) => asked.push(name),
            _ => panic!(),
        }
        handler = handler.advance(Event::ConfigFetched(reply));
    }
    assert_eq!(asked, vec!["rate", "gain", "mode"]);
    assert!(matches!(handler.action(), Action::StartErase));
    handler = handler.advance(Event::EraseStarted(Ok(())));
    assert!(matches!(handler.action(), Action::AwaitErase));
    handler = handler.advance(Event::Erased);
    assert!(matches!(handler.action(), Action::Reopen));
    handler = handler.advance(Event::Reopened);
    let mut stored = vec![];
    while let Action::StoreSaved(name, value) = handler.action() {
        stored.push((name, value));
        handler = handler.advance(Event::ConfigStored(Err(())));
    }
    assert_eq!(stored, vec![("rate", 10), ("mode", 30)]);
    assert!(idle(&handler));
}

#[test]
fn a_long_table_is_kept_over_an_erase() {
    let handler: Handler<&'static str, u8, char, 100> = Handler::new(&MANY);
    let mut handler = handler.advance(Event::Received(Some(StorageTask::EraseLogs)));
    for value in 0..100 {
        assert!(matches!(handler.action(), Action::FetchSaved("k")));
        handler = handler.advance(Event::ConfigFetched(Ok(Some(value))));
    }
    handler = handler.advance(Event::EraseStarted(Ok(())));
    handler = handler.advance(Event::Erased);
    handler = handler.advance(Event::Reopened);
    for value in 0..100 {
        assert!(matches!(handler.action(), Action::StoreSaved("k", v) if v == value));
        handler = handler.advance(Event::ConfigStored(Ok(())));
    }
    assert!(matches!(handler.action(), Action::Receive));
}

#[test]
fn a_table_without_keys_has_nothing_to_keep() {
    let handler: Handler<&'static str, u8, char, 0> = Handler::new(&NO_KEYS);
    let handler = handler.advance(Event::Received(Some(StorageTask::EraseLogs)));
    assert!(matches!(handler.action(), Action::StartErase));
    let handler = handler.advance(Event::EraseStarted(Ok(())));
    let handler = handler.advance(Event::Erased);
    let handler = handler.advance(Event::Reopened);
    assert!(matches!(handler.action(), Action::Receive));
    let handler = handler.advance(Event::Received(Some(StorageTask::ReadAllConfig('r'))));
    let handler = handler.advance(Event::ConfigOpened(Ok(())));
    assert!(matches!(handler.action(), Action::DeliverAllConfig(&'r', &[])));
}

#[test]
fn an_erase_without_values_restores_nothing() {
    let mut handler = request(StorageTask::EraseLogs);
    for _ in 0..3 {
        handler = handler.advance(Event::ConfigFetched(Ok(None)));
    }
    handler = handler.advance(Event::EraseStarted(Ok(())));
    handler = handler.advance(Event::Erased);
    assert!(idle(&handler.advance(Event::Reopened)));
}

#[test]
fn an_erase_that_cannot_start_is_fatal() {
    let mut handler = request(StorageTask::EraseLogs);
    for _ in 0..3 {
        handler = handler.advance(Event::ConfigFetched(Ok(None)));
    }
    handler = handler.advance(Event::EraseStarted(Err(())));
    assert!(matches!(handler.action(), Action::Abort));
}

#[test]
fn a_name_that_is_no_key_is_fatal() {
    let handler = request(StorageTask::EraseLogs).advance(Event::KeyRejected);
    assert!(matches!(handler.action(), Action::Abort));
    let mut handler = request(StorageTask::EraseLogs);
    for value in 0..3 {
        handler = handler.advance(Event::ConfigFetched(Ok(Some(value))));
    }
    handler = handler.advance(Event::EraseStarted(Ok(())));
    handler = handler.advance(Event::Erased);
    handler = handler.advance(Event::Reopened);
    handler = handler.advance(Event::KeyRejected);
    assert!(matches!(handler.action(), Action::Abort));
}

#[test]
fn one_key_is_read() {
    let handler = request(StorageTask::ReadConfig(7, 'r'));
    assert!(matches!(handler.action(), Action::FetchConfig(&7)));
    let handler = handler.advance(Event::ConfigFetched(Ok(Some(42))));
    assert!(matches!(handler.action(), Action::DeliverConfig(&'r', &7, 42)));
    assert!(idle(&handler.advance(Event::Delivered)));
    let handler = request(StorageTask::ReadConfig(7, 'r'));
    assert!(idle(&handler.advance(Event::ConfigFetched(Ok(None)))));
    let handler = request(StorageTask::ReadConfig(7, 'r'));
    assert!(idle(&handler.advance(Event::ConfigFetched(Err(())))));
}

#[test]
fn all_keys_are_read_with_a_slot_for_each() {
    let mut handler = request(StorageTask::ReadAllConfig('r'));
    assert!(matches!(handler.action(), Action::OpenConfig));
    handler = handler.advance(Event::ConfigOpened(Ok(())));
    for read in [Ok(Some((5, 50))), Err(()), Ok(Some((6, 60)))] {
        assert!(matches!(handler.action(), Action::ReadConfig));
        handler = handler.advance(Event::ConfigRead(read));
    }
    match handler.action() {
        Action::DeliverAllConfig(reply, items) => {
            assert_eq!(*reply, 'r');
            assert_eq!(items, &[(Some(5), 50), (None, 0), (Some(6), 60)]);
        }
        _ => panic!(),
    }
    assert!(idle(&handler.advance(Event::Delivered)));
    let handler = request(StorageTask::ReadAllConfig('r'));
    assert!(idle(&handler.advance(Event::ConfigOpened(Err(())))));
}

#[test]
fn one_key_is_stored() {
    let handler = request(StorageTask::EditConfig(9, 90));
    assert!(matches!(handler.action(), Action::StoreConfig(&9, 90)));
    assert!(idle(&handler.advance(Event::ConfigStored(Err(())))));
}

#[test]
fn space_is_measured() {
    let handler = request(StorageTask::GetSpaceLeft('r'));
    assert!(matches!(handler.action(), Action::MeasureSpace));
    let handler = handler.advance(Event::SpaceMeasured(Ok(4096)));
    assert!(matches!(handler.action(), Action::DeliverSpace(&'r', 4096)));
    assert!(idle(&handler.advance(Event::Delivered)));
    let handler = request(StorageTask::GetSpaceLeft('r'));
    assert!(idle(&handler.advance(Event::SpaceMeasured(Err(())))));
}

#[test]
fn an_event_out_of_turn_changes_nothing() {
    let handler = request(StorageTask::ReadConfig(7, 'r')).advance(Event::Erased);
    assert!(matches!(handler.action(), Action::FetchConfig(&7)));
}

#[test]
fn logged_messages_come_back() {
    let mut flash: Vec<Vec<u8>> = vec![];
    let mut handler = handler();
    for msg in ["one", "two"] {
        handler = handler.advance(Event::Received(Some(StorageTask::Msg(msg))));
        handler = handler.advance(Event::Encoded(Some(msg.as_bytes().to_vec())));
        match handler.action() {
            Action::Append { data, .. } => flash.push(data.to_vec()),
            _ => panic!(),
        }
        handler = handler.advance(Event::Appended(Ok(())));
    }
    handler = handler.advance(Event::Received(Some(StorageTask::GetLogs('r'))));
    handler = handler.advance(Event::LogsOpened(Ok(())));
    let mut delivered = vec![];
    for data in flash {
        handler = handler.advance(Event::LogRead(Ok(Some(data))));
        let decoded = match handler.action() {
            Action::Decode(b"one") => Some("one"),
            Action::Decode(b"two") => Some("two"),
            _ => None,
        };
        handler = handler.advance(Event::Decoded(decoded));
        match handler.action() {
            Action::DeliverLog(&'r', msg) => delivered.push(*msg),
            _ => panic!(),
        }
        handler = handler.advance(Event::Delivered);
    }
    assert_eq!(delivered, vec!["one", "two"]);
    assert!(idle(&handler.advance(Event::LogRead(Ok(None)))));
}

/// A chip in memory, and what requesters have been called with.
struct Chip {
    log: Vec<Vec<u8>>,
    walked: usize,
    config: Vec<(u8, u64)>,
    messages: Vec<&'static str>,
    values: Vec<(u8, u64)>,
    writes: Vec<String>,
}

impl Chip {
    fn new() -> Chip {
        Chip {
            log: vec![],
            walked: 0,
            config: vec![],
            messages: vec![],
            values: vec![],
            writes: vec![],
        }
    }

    fn key_of(name: &str) -> u8 {
        match name {
            "rate" => 1,
            "gain" => 2,
            _ => 3,
        }
    }

    fn fetch(&self, key: u8) -> Option<u64> {
        self.config.iter().find(|pair| pair.0 == key).map(|pair| pair.1)
    }

    fn store(&mut self, key: u8, value: u64) {
        self.config.retain(|pair| pair.0 != key);
        self.config.push((key, value));
        self.writes.push(format!("store {key} {value}"));
    }

    /// Performs what the request leads to, up to where the next one is waited for.
    fn serve(
        &mut self,
        handler: TestHandler,
        task: StorageTask<&'static str, u8, char>,
    ) -> TestHandler {
        let mut handler = handler.advance(Event::Received(Some(task)));
        loop {
            let event = match handler.action() {
                Action::Receive => return handler,
                Action::Encode(msg) => Event::Encoded(Some(msg.as_bytes().to_vec())),
                Action::Append { data, .. } => {
                    self.log.push(data.to_vec());
                    self.writes.push(format!("append {}", data.len()));
                    Event::Appended(Ok(()))
                }
                Action::OpenLogs => {
                    self.walked = 0;
                    Event::LogsOpened(Ok(()))
                }
                Action::ReadLog => {
                    self.walked += 1;
                    Event::LogRead(Ok(self.log.get(self.walked - 1).cloned()))
                }
                Action::Decode(data) => Event::Decoded(
                    ["old", "new", "newer"].into_iter().find(|msg| msg.as_bytes() == data),
                ),
                Action::DeliverLog(_, msg) => {
                    self.messages.push(*msg);
                    Event::Delivered
                }
                Action::FetchSaved(name) => {
                    Event::ConfigFetched(Ok(self.fetch(Chip::key_of(name))))
                }
                Action::StartErase => {
                    self.writes.push("erase".to_string());
                    Event::EraseStarted(Ok(()))
                }
                Action::AwaitErase => {
                    self.log.clear();
                    self.config.clear();
                    Event::Erased
                }
                Action::Reopen => Event::Reopened,
                Action::StoreSaved(name, value) => {
                    self.store(Chip::key_of(name), value);
                    Event::ConfigStored(Ok(()))
                }
                Action::FetchConfig(key) => Event::ConfigFetched(Ok(self.fetch(*key))),
                Action::DeliverConfig(_, key, value) => {
                    self.values.push((*key, value));
                    Event::Delivered
                }
                Action::OpenConfig => Event::ConfigOpened(Ok(())),
                Action::ReadConfig => Event::ConfigRead(Ok(None)),
                Action::DeliverAllConfig(..) => Event::Delivered,
                Action::StoreConfig(key, value) => {
                    self.store(*key, value);
                    Event::ConfigStored(Ok(()))
                }
                Action::MeasureSpace => Event::SpaceMeasured(Ok(0)),
                Action::DeliverSpace(..) => Event::Delivered,
                Action::Abort => panic!(),
            };
            handler = handler.advance(event);
        }
    }
}

#[test]
fn the_last_value_is_delivered() {
    let mut chip = Chip::new();
    let mut handler = handler();
    handler = chip.serve(handler, StorageTask::EditConfig(2, 19));
    handler = chip.serve(handler, StorageTask::EditConfig(2, 20));
    handler = chip.serve(handler, StorageTask::EditConfig(1, 99));
    handler = chip.serve(handler, StorageTask::ReadConfig(2, 'r'));
    handler = chip.serve(handler, StorageTask::EraseLogs);
    handler = chip.serve(handler, StorageTask::EditConfig(3, 98));
    chip.serve(handler, StorageTask::ReadConfig(2, 'r'));
    assert_eq!(chip.values, vec![(2, 20), (2, 20)]);
}

#[test]
fn an_erase_loses_a_key_without_a_name() {
    let mut chip = Chip::new();
    let mut handler = handler();
    handler = chip.serve(handler, StorageTask::EditConfig(7, 70));
    handler = chip.serve(handler, StorageTask::EraseLogs);
    chip.serve(handler, StorageTask::ReadConfig(7, 'r'));
    assert_eq!(chip.values, vec![]);
}

#[test]
fn each_request_makes_only_its_own_writes() {
    let mut chip = Chip::new();
    let mut handler = handler();
    handler = chip.serve(handler, StorageTask::Msg("old"));
    assert_eq!(chip.writes, vec!["append 3"]);
    handler = chip.serve(handler, StorageTask::GetLogs('r'));
    handler = chip.serve(handler, StorageTask::ReadConfig(1, 'r'));
    handler = chip.serve(handler, StorageTask::ReadAllConfig('r'));
    handler = chip.serve(handler, StorageTask::GetSpaceLeft('r'));
    handler = chip.serve(handler, StorageTask::DoNothing);
    assert_eq!(chip.writes, vec!["append 3"]);
    chip.serve(handler, StorageTask::EditConfig(2, 20));
    assert_eq!(chip.writes, vec!["append 3", "store 2 20"]);
}

#[test]
fn after_an_erase_only_new_messages_are_delivered() {
    let mut chip = Chip::new();
    let mut handler = handler();
    handler = chip.serve(handler, StorageTask::Msg("old"));
    handler = chip.serve(handler, StorageTask::EraseLogs);
    handler = chip.serve(handler, StorageTask::Msg("new"));
    handler = chip.serve(handler, StorageTask::Msg("newer"));
    chip.serve(handler, StorageTask::GetLogs('r'));
    assert_eq!(chip.messages, vec!["new", "newer"]);
}
