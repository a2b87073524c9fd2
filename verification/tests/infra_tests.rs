use ledgerbot::batch::{plan_batch, should_batch, BatchStep, BatchStorage};
use ledgerbot::callback_data::{
    pack_callback_data, ButtonData,
    unpack_callback_data, CallbackData, CallbackDataStorage, CallbackDataStorageReadTrait,
    CallbackDataStorageTrait,
};
use ledgerbot::command::Command;
use ledgerbot::config::{Args, TokenSource};
use ledgerbot::datastore::{DataStore, InMemStore};
use ledgerbot::periods::{list_periods, period_content, period_lines, PeriodsFileStorage, PeriodsStorage};

fn s(x: &str) -> String {
    x.to_string()
}

#[test]
fn test_inmem_store_set_and_get() {
    let mut store: InMemStore<i32> = InMemStore::new();
    store.set("key1", 42);
    assert_eq!(store.get("key1"), Some(42));
    assert_eq!(store.get("key2"), None);
}

#[test]
fn test_inmem_store_remove() {
    let mut store: InMemStore<String> = InMemStore::new();
    store.set("key1", s("test"));
    assert_eq!(store.get("key1"), Some(s("test")));
    assert!(store.remove("key1"));
    assert_eq!(store.get("key1"), None);
    assert!(!store.remove("key1"));
}

#[test]
fn test_inmem_store_keys() {
    let mut store: InMemStore<String> = InMemStore::new();
    store.set("key1", s("test1"));
    store.set("key2", s("test2"));
    store.set("key1", s("again"));
    let mut keys = store.keys();
    keys.sort();
    assert_eq!(keys, vec![s("key1"), s("key2")]);
    assert_eq!(store.get("key1"), Some(s("again")));
}

#[test]
fn batches_open_grow_and_drain() {
    let mut b = BatchStorage::new();
    assert!(b.get_batch().is_none());
    assert!(b.add_to_batch(vec![Ok(Command::Help)]));
    assert!(!b.add_to_batch(vec![Err(s("bad")), Ok(Command::List)]));
    assert_eq!(b.get_batch().unwrap().len(), 3);
    let items = b.consume_batch().unwrap();
    assert_eq!(items, vec![Ok(Command::Help), Err(s("bad")), Ok(Command::List)]);
    assert!(b.consume_batch().is_none());
}

#[test]
fn batch_decision() {
    assert!(!should_batch("Coffee 5", false));
    assert!(should_batch("Coffee 5", true));
    assert!(should_batch("Coffee 5\nTea 3", false));
    assert!(!should_batch("Coffee 5\n   \n\n", false));
}

#[test]
fn batch_plan_runs_in_order() {
    let items = vec![
        Ok(Command::Expense { date: None, description: Some(s("Tea")), amount: Some(s("3")) }),
        Err(s("Unknown command: /x")),
        Ok(Command::Report),
        Ok(Command::Expense { date: None, description: Some(s("Cake")), amount: None }),
    ];
    let (steps, amounts) = plan_batch(items);
    assert_eq!(steps.len(), 4);
    assert!(matches!(&steps[1], BatchStep::ReportError(m) if m == "❌ Unknown command: /x"));
    assert!(matches!(&steps[2], BatchStep::Run(Command::Report)));
    assert_eq!(amounts, vec![s("3")]);
}

#[test]
fn period_files() {
    let p = PeriodsFileStorage::new("/data/periods");
    assert_eq!(p.chat_dir(-100123), "/data/periods/-100123");
    assert_eq!(p.period_file_path(7, "2024-03"), "/data/periods/7/2024-03.txt");
    let q = PeriodsFileStorage::new("rel/");
    assert_eq!(q.chat_dir(5), "rel/5");
    let names = vec![s("2024-01.txt"), s("__current_period__"), s("notes.md"), s("x.txt")];
    assert_eq!(list_periods(&names), vec![s("2024-01"), s("x")]);
    let with_current = vec![s("__current_period__.txt"), s("2024-03.txt")];
    assert_eq!(list_periods(&with_current), vec![s("2024-03")]);
    let data = vec![s("/add_category Food"), s("Coffee 5")];
    let content = period_content(&data);
    assert_eq!(content, "/add_category Food\nCoffee 5");
    assert_eq!(period_lines(&content), data);
    assert_eq!(period_lines("a\r\nb\n"), vec![s("a"), s("b")]);
    assert_eq!(period_content(&Vec::new()), "");
}

#[test]
fn callback_payloads_are_stored_and_cleared() {
    let mut st = CallbackDataStorage::new();
    let r1 = st.store_callback_data(10, 0, CallbackData::new(s("toggle_word:Food:tea")));
    let r2 = st.store_callback_data(10, 1, CallbackData::new(s("noop")));
    let r3 = st.store_callback_data(11, 0, CallbackData::new(s("cmd_list")));
    assert_eq!(r1, "10:0");
    assert_eq!(st.get_callback_data(&r1).unwrap().as_str(), "toggle_word:Food:tea");
    assert_eq!(st.get_callback_data(&r2).unwrap().as_str(), "noop");
    st.clear_message_callbacks(10);
    assert!(st.get_callback_data(&r1).is_none());
    assert!(st.get_callback_data(&r2).is_none());
    assert_eq!(st.get_callback_data(&r3).unwrap().as_str(), "cmd_list");
    assert_eq!(unpack_callback_data(st.get_callback_data(&r3), &r3), "cmd_list");
    assert_eq!(unpack_callback_data(st.get_callback_data("raw"), "raw"), "raw");
}

#[test]
fn token_sources() {
    let a = Args { bot_token_env: Some(s("BOT_TOKEN")) };
    assert!(matches!(a.token_source(Some("builtin")), TokenSource::Env(n) if n == "BOT_TOKEN"));
    let b = Args { bot_token_env: None };
    assert!(matches!(b.token_source(Some("builtin")), TokenSource::Predefined(t) if t == "builtin"));
    assert!(matches!(b.token_source(None), TokenSource::Missing));
}

#[test]
fn pack_callback_data_numbers_callback_buttons() {
    let mut st = CallbackDataStorage::new();
    let old = st.store_callback_data(7, 5, CallbackData::new(s("stale")));
    let kept = st.store_callback_data(70, 0, CallbackData::new(s("other message")));
    let rows = vec![
        vec![
            ButtonData::Callback(s("Tea"), s("toggle_word:Food:tea")),
            ButtonData::SwitchInlineQuery(s("✅ Apply"), s("/add_filter Food tea")),
        ],
        vec![ButtonData::Callback(s("▶️"), s("word_page:1"))],
    ];
    let packed = pack_callback_data(&mut st, 7, &rows);
    assert!(st.get_callback_data(&old).is_none());
    assert_eq!(st.get_callback_data(&kept).unwrap().as_str(), "other message");
    assert_eq!(packed.len(), 2);
    match &packed[0][0] {
        ButtonData::Callback(label, reference) => {
            assert_eq!(label, "Tea");
            assert_eq!(reference, "7:0");
            assert_eq!(st.get_callback_data(reference).unwrap().as_str(), "toggle_word:Food:tea");
        }
        _ => panic!("expected a callback button"),
    }
    match &packed[0][1] {
        ButtonData::SwitchInlineQuery(label, query) => {
            assert_eq!(label, "✅ Apply");
            assert_eq!(query, "/add_filter Food tea");
        }
        _ => panic!("expected an inline query button"),
    }
    match &packed[1][0] {
        ButtonData::Callback(_, reference) => {
            assert_eq!(reference, "7:1");
            assert_eq!(unpack_callback_data(st.get_callback_data(reference), reference), "word_page:1");
        }
        _ => panic!("expected a callback button"),
    }
}

#[test]
fn periods_in_memory_are_saved_and_loaded() {
    let mut st = PeriodsStorage::new();
    assert!(st.list_periods().is_empty());
    assert_eq!(st.load_period("2024-01"), None);
    st.save_period("2024-01", vec![s("/add_category Food"), s("Coffee 3")]);
    st.save_period("2024-02", vec![]);
    st.save_period("2024-01", vec![s("Tea 2")]);
    assert_eq!(st.load_period("2024-01"), Some(vec![s("Tea 2")]));
    assert_eq!(st.load_period("2024-02"), Some(vec![]));
    let mut names = st.list_periods();
    names.sort();
    assert_eq!(names, vec![s("2024-01"), s("2024-02")]);
}
