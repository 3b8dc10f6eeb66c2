use chrono::Datelike;

use mtc::Date;
use mtc::Event;
use mtc::ItemState;
use mtc::MtcItem;
use mtc::Task;
use mtc::Todo;
use mtc::Weekday;

fn ymd(y: i32, m: u32, d: u32) -> Date {
    Date::from_num_days(chrono::NaiveDate::from_ymd_opt(y, m, d).unwrap().num_days_from_ce())
}

fn today() -> Date {
    Date::from_num_days(chrono::Local::now().date_naive().num_days_from_ce())
}

#[test]
fn todo_item_for_date_returns_true() {
    let date = ymd(2021, 12, 6);
    let ti = Todo::new("test".to_string(), Some(Weekday::Mon));

    assert!(ti.for_date(date));
}

#[test]
fn todo_item_for_date_returns_false() {
    let date = ymd(2021, 12, 6);
    let ti = Todo::new("test".to_string(), Some(Weekday::Tue));

    assert!(!ti.for_date(date));
}

#[test]
fn task_for_date_returns_true() {
    let date = ymd(2021, 12, 6);
    let ti = Task::new("test".to_string(), 50, None);

    assert!(ti.for_date(date));
}

#[test]
fn task_for_date_returns_false() {
    let date = ymd(2021, 12, 6);
    let ti = Task::new("test".to_string(), 50, Some(Weekday::Fri));

    assert!(!ti.for_date(date));
}

#[test]
fn event_for_date_returns_true() {
    let date = ymd(2021, 12, 6);
    let ti = Event::new("test".to_string(), ymd(2021, 12, 6));

    assert!(ti.for_date(date));
}

#[test]
fn event_for_date_returns_false() {
    let date = ymd(2021, 12, 6);
    let ti = Event::new("test".to_string(), ymd(2021, 12, 5));

    assert!(!ti.for_date(date));
}

#[test]
fn todo_item_ignore_state_eq_returns_true() {
    let mut item1 = Todo::new("Task 1".to_string(), None);
    item1.set_state(ItemState::New);

    let mut item2 = Todo::new("Task 1".to_string(), None);
    item2.set_state(ItemState::Neutral);

    assert!(item1.ignore_state_eq(&item2));
    assert!(item2.ignore_state_eq(&item1));
}

#[test]
fn todo_item_ignore_state_eq_returns_false() {
    let mut item1 = Todo::new("Task 1".to_string(), Some(Weekday::Fri));
    item1.set_state(ItemState::New);

    let mut item2 = Todo::new("Task 1".to_string(), None);
    item2.set_state(ItemState::Neutral);

    assert!(!item1.ignore_state_eq(&item2));
    assert!(!item2.ignore_state_eq(&item1));
}

#[test]
fn task_ignore_state_eq_returns_true() {
    let mut item1 = Task::new("Task 1".to_string(), 30, None);
    item1.set_state(ItemState::New);

    let mut item2 = Task::new("Task 1".to_string(), 30, None);
    item2.set_state(ItemState::Neutral);

    assert!(item1.ignore_state_eq(&item2));
    assert!(item2.ignore_state_eq(&item1));
}

#[test]
fn task_ignore_state_eq_returns_false() {
    let mut item1 = Task::new("Task 1".to_string(), 31, None);
    item1.set_state(ItemState::New);

    let mut item2 = Task::new("Task 1".to_string(), 30, None);
    item2.set_state(ItemState::Neutral);

    assert!(!item1.ignore_state_eq(&item2));
    assert!(!item2.ignore_state_eq(&item1));
}

#[test]
fn event_ignore_state_eq_returns_true() {
    let mut item1 = Event::new("Event 1".to_string(), ymd(2022, 1, 1));
    item1.set_state(ItemState::New);

    let mut item2 = Event::new("Event 1".to_string(), ymd(2022, 1, 1));
    item2.set_state(ItemState::Neutral);

    assert!(item1.ignore_state_eq(&item2));
    assert!(item2.ignore_state_eq(&item1));
}

#[test]
fn event_ignore_state_eq_returns_false() {
    let mut item1 = Event::new("Event 1".to_string(), ymd(2022, 1, 2));
    item1.set_state(ItemState::New);

    let mut item2 = Event::new("Event 1".to_string(), ymd(2022, 1, 1));
    item2.set_state(ItemState::Neutral);

    assert!(!item1.ignore_state_eq(&item2));
    assert!(!item2.ignore_state_eq(&item1));
}

#[test]
fn event_order_works() {
    let mut events = vec![
        Event::new("2 Event".to_string(), ymd(2022, 1, 1)),
        Event::new("1 Event".to_string(), ymd(2022, 1, 1)),
        Event::new("0 Event".to_string(), ymd(2022, 1, 2)),
        Event::new("9 Event".to_string(), ymd(2021, 1, 1)),
        Event::new("1 Event".to_string(), ymd(2022, 1, 2)),
    ];

    let expected = vec![
        Event::new("9 Event".to_string(), ymd(2021, 1, 1)),
        Event::new("1 Event".to_string(), ymd(2022, 1, 1)),
        Event::new("2 Event".to_string(), ymd(2022, 1, 1)),
        Event::new("0 Event".to_string(), ymd(2022, 1, 2)),
        Event::new("1 Event".to_string(), ymd(2022, 1, 2)),
    ];

    events.sort();

    assert_eq!(events, expected);
}

#[test]
fn todo_item_display_works() {
    let todo_item = Todo::new("Do Task 1".to_string(), Some(Weekday::Mon));
    assert_eq!(todo_item.display_string(), "Do Task 1 (ID: 0)");
}

#[test]
fn task_display_works() {
    let task = Task::new("Do Task 1".to_string(), 10, Some(Weekday::Mon));
    assert_eq!(task.display_string(), "Do Task 1: 10 minutes (ID: 0)");
}

#[test]
fn event_display_works() {
    let event = Event::new("Event 1".to_string(), ymd(2021, 1, 5));
    assert_eq!(event.display_string(), "2021-01-05: Event 1 (ID: 0)");
}

#[test]
fn event_is_expired_works() {
    let today = today();
    let event = Event::new("Event 1".to_string(), today);
    assert!(!event.expired());

    let event = Event::new("Event 1".to_string(), today.pred());
    assert!(!event.expired());

    let event = Event::new("Event 1".to_string(), today.succ());
    assert!(!event.expired());

    let event = Event::new("Event 1".to_string(), today.pred().pred().pred());
    assert!(!event.expired());

    let event = Event::new("Event 1".to_string(), today.pred().pred().pred().pred());
    assert!(event.expired());
}

#[test]
fn date_weekday_matches_calendar() {
    // 2021-12-06 was a Monday, 2022-01-06 a Thursday.
    assert_eq!(ymd(2021, 12, 6).weekday(), Weekday::Mon);
    assert_eq!(ymd(2021, 12, 7).weekday(), Weekday::Tue);
    assert_eq!(ymd(2022, 1, 6).weekday(), Weekday::Thu);
    assert_eq!(ymd(2022, 1, 9).weekday(), Weekday::Sun);
}

#[test]
fn task_weekday_mask_roundtrip() {
    let mut task = Task::new("t".to_string(), 5, Some(Weekday::Wed));
    assert_eq!(task.weekdays(), [false, false, true, false, false, false, false]);
    assert!(task.is_for_weekday(Weekday::Wed));
    assert!(!task.is_for_weekday(Weekday::Thu));

    task.set_for_weekday(Weekday::Sun, true);
    task.set_for_weekday(Weekday::Wed, false);
    assert_eq!(task.weekdays(), [false, false, false, false, false, false, true]);

    // An all-false mask means the task is for every day.
    task.set_for_weekday(Weekday::Sun, false);
    assert!(task.is_for_weekday(Weekday::Mon));
    assert!(task.is_for_weekday(Weekday::Sun));
}

#[test]
fn item_accessors_report_fields() {
    let mut todo = Todo::new("a".to_string(), Some(Weekday::Fri));
    assert_eq!(todo.body(), "a");
    assert_eq!(todo.weekday(), Some(Weekday::Fri));
    todo.set_weekday(None);
    assert_eq!(todo.weekday(), None);

    let task = Task::new("b".to_string(), 45, None);
    assert_eq!(task.body(), "b");
    assert_eq!(task.duration(), 45);

    let mut event = Event::new("c".to_string(), ymd(2022, 3, 4));
    assert_eq!(event.body(), "c");
    assert_eq!(event.date(), ymd(2022, 3, 4));
    event.set_date(ymd(2022, 3, 5));
    assert_eq!(event.date(), ymd(2022, 3, 5));
}
