use chrono::Datelike;

use mtc::Date;
use mtc::Event;
use mtc::ItemState;
use mtc::MtcItem;
use mtc::MtcList;
use mtc::Todo;
use mtc::Weekday;

fn ymd(y: i32, m: u32, d: u32) -> Date {
    Date::from_num_days(chrono::NaiveDate::from_ymd_opt(y, m, d).unwrap().num_days_from_ce())
}

fn today() -> Date {
    Date::from_num_days(chrono::Local::now().date_naive().num_days_from_ce())
}

fn weekday_of(w: chrono::Weekday) -> Weekday {
    match w {
        chrono::Weekday::Mon => Weekday::Mon,
        chrono::Weekday::Tue => Weekday::Tue,
        chrono::Weekday::Wed => Weekday::Wed,
        chrono::Weekday::Thu => Weekday::Thu,
        chrono::Weekday::Fri => Weekday::Fri,
        chrono::Weekday::Sat => Weekday::Sat,
        chrono::Weekday::Sun => Weekday::Sun,
    }
}

fn item(body: &str) -> Event {
    Event::new(body.to_string(), today())
}

fn item_dated(body: &str, date: Date) -> Event {
    Event::new(body.to_string(), date)
}

#[test]
fn mtc_item_for_today_returns_true() {
    let item = item_dated("", today());
    assert!(item.for_today());
}

#[test]
fn mtc_item_for_today_returns_false() {
    let item = item_dated("", today().succ());
    assert!(!item.for_today());
}

#[test]
fn mtc_item_for_weekday_returns_true() {
    let item = item_dated("", today().succ().succ());
    assert!(item.for_weekday(weekday_of(
        chrono::Local::now().date_naive().weekday().succ().succ()
    )));
}

#[test]
fn mtc_item_for_weekday_returns_false() {
    let item = item_dated("", ymd(2022, 1, 6));
    assert!(!item.for_weekday(Weekday::Fri));
}

#[test]
fn mtc_list_for_date_returns_expected() {
    let mut list = MtcList::new(true);
    list.add(item_dated("test0", ymd(2022, 4, 6)));
    list.add(item_dated("test1", ymd(2022, 1, 6)));
    list.add(item_dated("test2", ymd(2022, 1, 5)));
    list.add(item_dated("test3", ymd(2022, 1, 7)));
    list.add(item_dated("test4", ymd(2022, 1, 6)));

    let mut expected = vec![
        item_dated("test1", ymd(2022, 1, 6)),
        item_dated("test4", ymd(2022, 1, 6)),
    ];

    expected[0].set_id(1);
    expected[1].set_id(4);

    let result: Vec<Event> = list
        .items_for_date(ymd(2022, 1, 6))
        .iter()
        .cloned()
        .cloned()
        .collect();

    assert_eq!(result, expected);
}

#[test]
fn mtc_list_for_today_returns_expected() {
    let today = today();

    let mut items = MtcList::new(true);
    items.add(item_dated("test0", today));
    items.add(item_dated("test1", today));
    items.add(item_dated("test2", today.pred()));
    items.add(item_dated("test3", today.succ()));

    let mut expected = vec![item_dated("test0", today), item_dated("test1", today)];

    expected[0].set_id(0);
    expected[1].set_id(1);

    let result: Vec<Event> = items.items_for_today().iter().cloned().cloned().collect();

    assert_eq!(result, expected);
}

#[test]
fn mtc_list_for_weekday_returns_expected() {
    let today = today();

    let mut items = MtcList::new(true);
    items.add(item_dated("test0", today));
    items.add(item_dated("test1", today.succ().succ()));
    items.add(item_dated("test2", today.pred()));
    items.add(item_dated("test3", today.succ()));

    let mut expected = vec![item_dated("test3", today.succ())];

    expected[0].set_id(3);

    let result: Vec<Event> = items
        .items_for_weekday(weekday_of(
            chrono::Local::now().date_naive().weekday().succ(),
        ))
        .iter()
        .cloned()
        .cloned()
        .collect();

    assert_eq!(result, expected);
}

#[test]
fn mtc_list_get_by_id_returns_some_and_none() {
    let todo = item("Item");
    let mut list = MtcList::new(false);
    let id = list.add(todo.clone());

    assert!(todo.ignore_state_eq(list.get_by_id(id).unwrap()));
    assert_eq!(None, list.get_by_id(66));

    list.mark_removed(id).unwrap();

    assert_eq!(None, list.get_by_id(id));
    assert_eq!(None, list.get_by_id(66));
}

#[test]
fn mtc_list_server_all_neutral() {
    let mut list = MtcList::new(true);

    list.add(item("Item 0"));
    list.add(item("Item 1"));
    list.add(item("Item 2"));

    let mut exp: Vec<Event> = vec![item("Item 0"), item("Item 1"), item("Item 2")];
    exp.iter_mut().for_each(|x| {
        x.set_state(ItemState::Neutral);
    });

    exp[0].set_id(0);
    exp[1].set_id(1);
    exp[2].set_id(2);

    let mut sorted: Vec<Event> = list.items().iter().cloned().cloned().collect();
    sorted.sort();

    assert_eq!(sorted, exp);
}

#[test]
fn mtc_list_self_sync_removes_marked_and_sets_new_neutral() {
    let mut list = MtcList::new(false);

    list.add(item("Item 0"));
    list.add(item("Item 1"));
    list.add(item("Item 2"));
    list.add(item("Item 3"));
    list.add(item("Item 4"));

    list.mark_removed(1).unwrap();
    list.mark_removed(2).unwrap();

    list.sync_self();

    let mut exp: Vec<Event> = vec![item("Item 0"), item("Item 3"), item("Item 4")];
    exp.iter_mut().for_each(|x| {
        x.set_state(ItemState::Neutral);
    });

    exp[0].set_id(0);
    exp[1].set_id(1);
    exp[2].set_id(2);

    let mut sorted: Vec<Event> = list.items().iter().cloned().cloned().collect();
    sorted.sort();

    assert_eq!(sorted, exp);
}

#[test]
fn mtc_list_sync_removes_marked_from_server() {
    let mut client_list = MtcList::new(false);
    let mut server_list = MtcList::new(true);

    client_list.add(item("Item 0"));
    client_list.add(item("Item 1"));
    client_list.add(item("Item 2"));

    client_list.sync_self();

    client_list.mark_removed(1).unwrap();
    client_list.mark_removed(2).unwrap();

    server_list.add(item("Item 0"));
    server_list.add(item("Item 1"));

    client_list.sync(&mut server_list);

    let mut exp: Vec<Event> = vec![item("Item 0")];
    exp.iter_mut().for_each(|x| {
        x.set_state(ItemState::Neutral);
    });

    let mut sorted: Vec<Event> = client_list.items().iter().cloned().cloned().collect();
    sorted.sort();

    assert_eq!(sorted, exp);
    let mut sorted: Vec<Event> = server_list.items().iter().cloned().cloned().collect();
    sorted.sort();

    assert_eq!(sorted, exp);
}

#[test]
fn mtc_list_sync_removes_marked_from_server_only_once() {
    let mut client_list = MtcList::new(false);
    let mut server_list = MtcList::new(true);

    client_list.add(item("Item 0"));
    client_list.add(item("Item 1"));

    client_list.sync_self();

    client_list.mark_removed(1).unwrap();

    server_list.add(item("Item 0"));
    server_list.add(item("Item 1"));
    server_list.add(item("Item 1"));

    server_list.sync(&mut client_list);

    let mut exp: Vec<Event> = vec![item("Item 0"), item("Item 1")];
    exp.iter_mut().for_each(|x| {
        x.set_state(ItemState::Neutral);
    });

    exp[0].set_id(0);
    exp[1].set_id(1);

    let mut sorted: Vec<Event> = client_list.items().iter().cloned().cloned().collect();
    sorted.sort();

    assert_eq!(sorted, exp);
    let mut sorted: Vec<Event> = server_list.items().iter().cloned().cloned().collect();
    sorted.sort();

    assert_eq!(sorted, exp);
}

#[test]
fn mtc_list_sync_removes_marked_from_server_equal_times() {
    let mut client_list = MtcList::new(false);
    let mut server_list = MtcList::new(true);

    client_list.add(item("Item 0"));

    client_list.sync_self();

    client_list.add(item("Item 1"));
    client_list.add(item("Item 1"));

    client_list.mark_removed(1).unwrap();
    client_list.mark_removed(2).unwrap();

    server_list.add(item("Item 0"));
    server_list.add(item("Item 1"));
    server_list.add(item("Item 1"));

    client_list.sync(&mut server_list);

    let mut exp: Vec<Event> = vec![item("Item 0")];
    exp.iter_mut().for_each(|x| {
        x.set_state(ItemState::Neutral);
    });

    let mut sorted: Vec<Event> = client_list.items().iter().cloned().cloned().collect();
    sorted.sort();

    assert_eq!(sorted, exp);
    let mut sorted: Vec<Event> = server_list.items().iter().cloned().cloned().collect();
    sorted.sort();

    assert_eq!(sorted, exp);
}

#[test]
fn mtc_list_sync_removes_non_new_from_client() {
    let mut client_list = MtcList::new(false);
    let mut server_list = MtcList::new(true);

    client_list.add(item("Item 0"));
    client_list.add(item("Item 1"));
    client_list.add(item("Item 2"));

    client_list.sync_self(); // Set items to neutral

    server_list.add(item("Item 2"));

    server_list.sync(&mut client_list);

    let mut exp: Vec<Event> = vec![item("Item 2")];
    exp.iter_mut().for_each(|x| {
        x.set_state(ItemState::Neutral);
    });

    let mut sorted: Vec<Event> = client_list.items().iter().cloned().cloned().collect();
    sorted.sort();

    assert_eq!(sorted, exp);
    let mut sorted: Vec<Event> = server_list.items().iter().cloned().cloned().collect();
    sorted.sort();

    assert_eq!(sorted, exp);
}

#[test]
fn mtc_list_sync_adds_new_from_client() {
    let mut client_list = MtcList::new(false);
    let mut server_list = MtcList::new(true);

    client_list.add(item("Item 0"));

    client_list.sync_self();

    client_list.add(item("Item 1"));
    client_list.add(item("Item 2"));

    server_list.add(item("Item 0"));

    client_list.sync(&mut server_list);

    let mut exp: Vec<Event> = vec![item("Item 0"), item("Item 1"), item("Item 2")];
    exp.iter_mut().for_each(|x| {
        x.set_state(ItemState::Neutral);
    });
    exp[0].set_id(0);
    exp[1].set_id(1);
    exp[2].set_id(2);

    let mut sorted: Vec<Event> = client_list.items().iter().cloned().cloned().collect();
    sorted.sort();

    assert_eq!(sorted, exp);
    let mut sorted: Vec<Event> = server_list.items().iter().cloned().cloned().collect();
    sorted.sort();

    assert_eq!(sorted, exp);
}

#[test]
fn mtc_list_sync_adds_new_from_server() {
    let mut client_list = MtcList::new(false);
    let mut server_list = MtcList::new(true);

    client_list.add(item("Item 0"));

    client_list.sync_self();

    server_list.add(item("Item 0"));
    server_list.add(item("Item 1"));
    server_list.add(item("Item 2"));

    client_list.sync(&mut server_list);

    let mut exp: Vec<Event> = vec![item("Item 0"), item("Item 1"), item("Item 2")];
    exp.iter_mut().for_each(|x| {
        x.set_state(ItemState::Neutral);
    });

    exp[0].set_id(0);
    exp[1].set_id(1);
    exp[2].set_id(2);

    let mut sorted: Vec<Event> = client_list.items().iter().cloned().cloned().collect();
    sorted.sort();

    assert_eq!(sorted, exp);
    let mut sorted: Vec<Event> = server_list.items().iter().cloned().cloned().collect();
    sorted.sort();

    assert_eq!(sorted, exp);
}

#[test]
fn mtc_list_sync_combines_correctly() {
    let mut client_list = MtcList::new(false);
    let mut server_list = MtcList::new(true);

    client_list.add(item("Item 0"));
    client_list.add(item("Item 1"));
    client_list.add(item("Item 2"));

    client_list.sync_self();

    client_list.add(item("Item 3"));

    client_list.mark_removed(1).unwrap();

    server_list.add(item("Item 0"));
    server_list.add(item("Item 1"));
    server_list.add(item("Item 4"));

    client_list.sync(&mut server_list);

    let mut exp: Vec<Event> = vec![item("Item 0"), item("Item 3"), item("Item 4")];
    exp.iter_mut().for_each(|x| {
        x.set_state(ItemState::Neutral);
    });

    // Client and server list have a different order of ids
    exp[0].set_id(0);
    exp[1].set_id(1);
    exp[2].set_id(2);

    let mut sorted: Vec<Event> = client_list.items().iter().cloned().cloned().collect();
    sorted.sort();

    assert_eq!(sorted, exp);

    // Client and server list have a different order of ids
    exp[0].set_id(0);
    exp[1].set_id(2);
    exp[2].set_id(1);

    let mut sorted: Vec<Event> = server_list.items().iter().cloned().cloned().collect();
    sorted.sort();

    assert_eq!(sorted, exp);
}

#[test]
fn mtc_list_clone_server_clones_valid_server() {
    let mut client = MtcList::new(false);
    client.add(item("Item 0"));
    client.add(item("Item 1"));
    client.add(item("Item 2"));

    client.mark_removed(1).unwrap();

    let mut expected = MtcList::new(true);
    expected.add(item("Item 0"));
    expected.add(item("Item 2"));

    assert_eq!(client.clone_to_server(), expected);
}

#[test]
fn mtc_list_doesnt_return_marked_as_removed() {
    let mut client = MtcList::new(false);

    client.add(Todo::new("Item 0".to_string(), None));
    client.add(Todo::new("Item 1".to_string(), None));
    client.add(Todo::new("Item 2".to_string(), None));

    client.mark_removed(1).unwrap();

    for item in client.items() {
        assert!(!item.ignore_state_eq(&Todo::new("Item 1".to_string(), None)));
    }
}

#[test]
fn mtc_remove_expired_removes_correct() {
    let mut client = MtcList::new(false);

    let today = today();

    client.add(item_dated("TestMtcItem 1", today));
    client.add(item_dated("TestMtcItem 2", today.succ()));
    client.add(item_dated("TestMtcItem 3", today.pred()));
    client.add(item_dated(
        "TestMtcItem 4",
        today.pred().pred().pred().pred(),
    ));
    client.add(item_dated(
        "TestMtcItem 5",
        today.pred().pred().pred().pred().pred().pred(),
    ));

    let mut exp: Vec<Event> = vec![
        item_dated("TestMtcItem 1", today),
        item_dated("TestMtcItem 2", today.succ()),
        item_dated("TestMtcItem 3", today.pred()),
    ];
    let mut id_counter = 0;
    exp.iter_mut().for_each(|x| {
        x.set_state(ItemState::Neutral);
        x.set_id(id_counter);
        id_counter += 1;
    });

    client.remove_expired();
    client.sync_self();

    let result: Vec<Event> = client.items().iter().cloned().cloned().collect();

    assert_eq!(exp, result);
}
