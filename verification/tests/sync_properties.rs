use chrono::Datelike;

use mtc::date::next_date_for_weekday;
use mtc::Date;
use mtc::Event;
use mtc::ItemState;
use mtc::ListError;
use mtc::MtcItem;
use mtc::MtcList;
use mtc::Todo;
use mtc::Weekday;

fn ymd(y: i32, m: u32, d: u32) -> Date {
    Date::from_num_days(chrono::NaiveDate::from_ymd_opt(y, m, d).unwrap().num_days_from_ce())
}

fn today() -> Date {
    Date::from_num_days(chrono::Local::now().date_naive().num_days_from_ce())
}

fn bodies(list: &MtcList<Todo>) -> Vec<String> {
    let mut v: Vec<String> = list.items().iter().map(|t| t.body().clone()).collect();
    v.sort();
    v
}

#[test]
fn sync_self_twice_equals_once() {
    let mut once = MtcList::new(false);
    once.add(Todo::new("a".to_string(), None));
    once.add(Todo::new("b".to_string(), Some(Weekday::Tue)));
    once.add(Todo::new("c".to_string(), None));
    once.mark_removed(1).unwrap();

    let mut twice = MtcList::new(false);
    twice.add(Todo::new("a".to_string(), None));
    twice.add(Todo::new("b".to_string(), Some(Weekday::Tue)));
    twice.add(Todo::new("c".to_string(), None));
    twice.mark_removed(1).unwrap();

    once.sync_self();
    twice.sync_self();
    twice.sync_self();

    assert_eq!(once, twice);
    // Ids are dense and every state is settled after the pass.
    for (i, item) in once.items().iter().enumerate() {
        assert_eq!(item.id(), i);
        assert_eq!(item.state(), ItemState::Neutral);
    }
}

#[test]
fn sync_twice_changes_nothing() {
    let mut client = MtcList::new(false);
    client.add(Todo::new("keep".to_string(), None));
    client.add(Todo::new("drop".to_string(), None));
    client.sync_self();
    client.mark_removed(1).unwrap();
    client.add(Todo::new("fresh".to_string(), None));

    let mut server = MtcList::new(true);
    server.add(Todo::new("keep".to_string(), None));
    server.add(Todo::new("drop".to_string(), None));
    server.add(Todo::new("remote".to_string(), None));

    client.sync(&mut server);
    let client_after_one = client.clone_to_server();
    let server_after_one = server.clone_to_server();

    client.sync(&mut server);

    assert_eq!(client.clone_to_server(), client_after_one);
    assert_eq!(server.clone_to_server(), server_after_one);
}

#[test]
fn sync_gives_same_contents_without_duplication() {
    let mut client = MtcList::new(false);
    client.add(Todo::new("a".to_string(), None));
    client.add(Todo::new("b".to_string(), None));
    client.sync_self();
    client.add(Todo::new("c".to_string(), None));
    client.mark_removed(1).unwrap();

    let mut server = MtcList::new(true);
    server.add(Todo::new("a".to_string(), None));
    server.add(Todo::new("b".to_string(), None));
    server.add(Todo::new("d".to_string(), None));

    client.sync(&mut server);

    let expected = vec!["a".to_string(), "c".to_string(), "d".to_string()];
    assert_eq!(bodies(&client), expected);
    assert_eq!(bodies(&server), expected);
}

#[test]
fn removal_propagates_to_both_sides() {
    let mut client = MtcList::new(false);
    let x = Todo::new("doomed".to_string(), Some(Weekday::Mon));
    let id = client.add(x.clone());
    client.sync_self();
    client.mark_removed(id).unwrap();

    let mut server = MtcList::new(true);
    server.add(x.clone());

    client.sync(&mut server);

    for item in client.items() {
        assert!(!item.ignore_state_eq(&x));
    }
    for item in server.items() {
        assert!(!item.ignore_state_eq(&x));
    }
}

#[test]
fn additions_propagate_in_both_directions() {
    let mut client = MtcList::new(false);
    client.add(Todo::new("from client".to_string(), None));

    let mut server = MtcList::new(true);
    server.add(Todo::new("from server".to_string(), None));

    client.sync(&mut server);

    let expected = vec!["from client".to_string(), "from server".to_string()];
    assert_eq!(bodies(&client), expected);
    assert_eq!(bodies(&server), expected);
}

#[test]
fn concrete_merge_scenario() {
    // Client holds {A, B, C} settled, adds D, removes B. Server holds
    // {A, B, E}. After the sync both sides hold {A, D, E}, with dense ids
    // and every item settled.
    let mut client = MtcList::new(false);
    client.add(Todo::new("A".to_string(), None));
    client.add(Todo::new("B".to_string(), None));
    client.add(Todo::new("C".to_string(), None));
    client.sync_self();
    client.add(Todo::new("D".to_string(), None));
    assert_eq!(client.get_by_id(3).unwrap().state(), ItemState::New);
    client.mark_removed(1).unwrap();

    let mut server = MtcList::new(true);
    server.add(Todo::new("A".to_string(), None));
    server.add(Todo::new("B".to_string(), None));
    server.add(Todo::new("E".to_string(), None));

    client.sync(&mut server);

    let expected = vec!["A".to_string(), "D".to_string(), "E".to_string()];
    assert_eq!(bodies(&client), expected);
    assert_eq!(bodies(&server), expected);
    for list in [&client, &server] {
        let items = list.items();
        assert_eq!(items.len(), 3);
        for (i, item) in items.iter().enumerate() {
            assert_eq!(item.id(), i);
            assert_eq!(item.state(), ItemState::Neutral);
        }
    }
}

#[test]
fn expiry_boundary_is_three_days() {
    let today = today();
    // Exactly 3 days old: kept. More than 3 days old: dropped.
    let boundary = Event::new(
        "exactly three days old".to_string(),
        today.pred().pred().pred(),
    );
    let too_old = Event::new(
        "four days old".to_string(),
        today.pred().pred().pred().pred(),
    );

    assert!(!boundary.expired_on(today));
    assert!(too_old.expired_on(today));

    let mut list = MtcList::new(false);
    list.add(boundary.clone());
    list.add(too_old.clone());
    list.remove_expired();
    list.sync_self();

    let items = list.items();
    assert_eq!(items.len(), 1);
    assert!(items[0].ignore_state_eq(&boundary));
}

#[test]
fn mark_removed_reports_not_found() {
    let mut client: MtcList<Todo> = MtcList::new(false);
    assert_eq!(client.mark_removed(0), Err(ListError::NotFound));

    let id = client.add(Todo::new("once".to_string(), None));
    assert_eq!(client.mark_removed(id), Ok(()));
    // Removing an already removed item is reported, not silently accepted.
    assert_eq!(client.mark_removed(id), Err(ListError::NotFound));
}

#[test]
fn server_mark_removed_deletes_and_reindexes() {
    let mut server = MtcList::new(true);
    server.add(Todo::new("first".to_string(), None));
    server.add(Todo::new("second".to_string(), None));
    server.add(Todo::new("third".to_string(), None));

    server.mark_removed(1).unwrap();

    let items = server.items();
    assert_eq!(items.len(), 2);
    assert_eq!(items[0].body(), "first");
    assert_eq!(items[0].id(), 0);
    assert_eq!(items[1].body(), "third");
    assert_eq!(items[1].id(), 1);

    assert_eq!(server.mark_removed(2), Err(ListError::NotFound));
}

#[test]
fn next_weekday_date_is_within_a_week() {
    // 2021-12-06 was a Monday.
    let monday = ymd(2021, 12, 6);
    assert_eq!(next_date_for_weekday(monday, Weekday::Mon), monday);
    assert_eq!(
        next_date_for_weekday(monday, Weekday::Tue),
        ymd(2021, 12, 7)
    );
    assert_eq!(
        next_date_for_weekday(monday, Weekday::Sun),
        ymd(2021, 12, 12)
    );
}

#[test]
fn is_server_reports_role() {
    let client: MtcList<Todo> = MtcList::new(false);
    let server: MtcList<Todo> = MtcList::new(true);
    assert!(!client.is_server());
    assert!(server.is_server());
    assert!(client.clone_to_server().is_server());
}

#[test]
fn duplicate_server_content_fills_client_once() {
    // Three server copies of one content fill the client exactly once.
    let mut client: MtcList<Todo> = MtcList::new(false);
    let mut server = MtcList::new(true);
    server.add(Todo::new("thrice".to_string(), None));
    server.add(Todo::new("thrice".to_string(), None));
    server.add(Todo::new("thrice".to_string(), None));

    client.sync(&mut server);

    assert_eq!(client.items().len(), 1);
    assert_eq!(server.items().len(), 3);
}
