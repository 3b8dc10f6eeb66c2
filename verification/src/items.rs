//! The three concrete item kinds: short-term todos, repeating tasks with a
//! duration, and dated events.

use vstd::prelude::*;

use crate::date::Date;
use crate::date::Weekday;
use crate::ItemModel;
use crate::ItemState;
use crate::MtcItem;

verus! {

/// The content of a [`Todo`]: its body and optional weekday. Two todos are
/// matched across stores exactly when their contents are equal.
pub struct TodoContent {
    /// The text of the todo.
    pub body: Seq<char>,
    /// The weekday the todo is for, or `None` for every day.
    pub weekday: Option<Weekday>,
}

/// The content of a [`Task`]: its body, weekday mask and duration.
pub struct TaskContent {
    /// The text of the task.
    pub body: Seq<char>,
    /// Which weekdays the task is for, indexed from Monday. An all-false
    /// mask means the task is for every day.
    pub weekdays: Seq<bool>,
    /// The duration of the task in minutes.
    pub duration: u32,
}

/// The content of an [`Event`]: its body and date.
pub struct EventContent {
    /// The text of the event.
    pub body: Seq<char>,
    /// The date the event happens on.
    pub date: Date,
}

/// A short-term task that should be done on an optionally given weekday.
#[derive(Debug, PartialEq, Eq, Clone)]
pub struct Todo {
    weekday: Option<Weekday>,
    body: String,
    state: ItemState,
    id: usize,
}

/// A repeating task with a duration in minutes for optionally given weekdays.
#[derive(Debug, PartialEq, Eq, Clone)]
pub struct Task {
    weekdays: [bool; 7],
    body: String,
    duration: u32,
    state: ItemState,
    id: usize,
}

/// An event that will happen on a given date.
#[derive(Debug, PartialEq, Eq, Clone, PartialOrd, Ord)]
pub struct Event {
    date: Date,
    body: String,
    state: ItemState,
    id: usize,
}

/// The weekday mask that holds exactly the given weekday, or no day at all.
pub open spec fn mask_of(weekday: Option<Weekday>) -> Seq<bool> {
    Seq::new(
        7,
        |j: int|
            match weekday {
                Option::Some(d) => d.idx() == j,
                Option::None => false,
            },
    )
}

/// Whether a weekday mask marks the weekday with the given number, counting
/// an all-false mask as marking every day.
pub open spec fn mask_on_weekday(mask: Seq<bool>, w_idx: int) -> bool {
    &&& 0 <= w_idx < mask.len() ==> {
        mask[w_idx] || (forall|j: int| 0 <= j < mask.len() ==> !mask[j])
    }
    &&& !(0 <= w_idx < mask.len()) ==> (forall|j: int| 0 <= j < mask.len() ==> !mask[j])
}

impl Todo {
    /// Creates a new `Todo` with a given body and optionally a weekday,
    /// in state `Neutral` with id 0.
    pub fn new(body: String, weekday: Option<Weekday>) -> (t: Todo)
        ensures
            t.model() == (ItemModel {
                content: TodoContent { body: body@, weekday },
                state: ItemState::Neutral,
                id: 0int,
            }),
    {
        Todo { weekday, body, state: ItemState::Neutral, id: 0 }
    }

    /// Returns a reference to the body of the `Todo`.
    pub fn body(&self) -> (b: &String)
        ensures
            b@ == self.model().content.body,
    {
        &self.body
    }

    /// Returns the optionally specified weekday of the `Todo`.
    pub fn weekday(&self) -> (w: Option<Weekday>)
        ensures
            w == self.model().content.weekday,
    {
        self.weekday
    }

    /// Renders the todo for a listing, as its body followed by its id.
    ///
    /// Relies on core's string formatting to lay out the text.
    #[verifier::external_body]
    pub fn display_string(&self) -> String {
        format!("{} (ID: {})", self.body, self.id)
    }

    /// Sets the optional weekday of the `Todo`.
    pub fn set_weekday(&mut self, new_weekday: Option<Weekday>)
        ensures
            final(self).model() == (ItemModel {
                content: TodoContent { weekday: new_weekday, ..old(self).model().content },
                ..old(self).model()
            }),
    {
        self.weekday = new_weekday;
    }
}

impl MtcItem for Todo {
    type Content = TodoContent;

    closed spec fn model(&self) -> ItemModel<TodoContent> {
        ItemModel {
            content: TodoContent { body: self.body@, weekday: self.weekday },
            state: self.state,
            id: self.id as int,
        }
    }

    open spec fn content_for_date(c: TodoContent, date: Date) -> bool {
        match c.weekday {
            Option::Some(day) => day.idx() == date.spec_weekday_idx(),
            Option::None => true,
        }
    }

    open spec fn content_expired(c: TodoContent, today: Date) -> bool {
        false
    }

    fn for_date(&self, date: Date) -> (r: bool) {
        match self.weekday {
            Option::Some(day) => {
                let w = date.weekday();
                day == w
            },
            Option::None => true,
        }
    }

    fn state(&self) -> (s: ItemState) {
        self.state
    }

    fn set_state(&mut self, new_state: ItemState) {
        self.state = new_state;
    }

    fn ignore_state_eq(&self, other: &Self) -> (r: bool) {
        let wd_eq = match (self.weekday, other.weekday) {
            (Option::Some(a), Option::Some(b)) => a == b,
            (Option::None, Option::None) => true,
            _ => false,
        };
        wd_eq && self.body == other.body
    }

    fn id(&self) -> (i: usize) {
        self.id
    }

    fn set_id(&mut self, new_id: usize) {
        self.id = new_id;
    }

    fn expired_on(&self, today: Date) -> (r: bool) {
        false
    }

    fn clone_item(&self) -> (c: Self) {
        Todo {
            weekday: self.weekday,
            body: self.body.clone(),
            state: self.state,
            id: self.id,
        }
    }
}

impl Task {
    /// Creates a new `Task` with a given body, duration in minutes and
    /// optionally a weekday, in state `Neutral` with id 0.
    pub fn new(body: String, duration: u32, weekday: Option<Weekday>) -> (t: Task)
        ensures
            t.model() == (ItemModel {
                content: TaskContent { body: body@, weekdays: mask_of(weekday), duration },
                state: ItemState::Neutral,
                id: 0int,
            }),
    {
        let i: usize = match weekday {
            Option::Some(day) => day.index_from_monday(),
            Option::None => 7,
        };
        let weekdays = [i == 0, i == 1, i == 2, i == 3, i == 4, i == 5, i == 6];
        let t = Task { weekdays, body, duration, state: ItemState::Neutral, id: 0 };
        proof {
            assert(t.model().content.weekdays =~= mask_of(weekday));
        }
        t
    }

    /// Returns a reference to the body of the `Task`.
    pub fn body(&self) -> (b: &String)
        ensures
            b@ == self.model().content.body,
    {
        &self.body
    }

    /// Returns the duration of the `Task` in minutes.
    pub fn duration(&self) -> (d: u32)
        ensures
            d == self.model().content.duration,
    {
        self.duration
    }

    /// Renders the task for a listing, as its body, its duration in minutes
    /// and its id.
    ///
    /// Relies on core's string formatting to lay out the text.
    #[verifier::external_body]
    pub fn display_string(&self) -> String {
        format!("{}: {} minutes (ID: {})", self.body, self.duration, self.id)
    }

    /// Returns an array that holds, for each weekday starting from Monday,
    /// whether the task is for that day.
    pub fn weekdays(&self) -> (w: [bool; 7])
        ensures
            w@ == self.model().content.weekdays,
    {
        self.weekdays
    }

    /// Sets the array that holds, for each weekday starting from Monday,
    /// whether the task is for that day.
    pub fn set_weekdays(&mut self, weekdays: [bool; 7])
        ensures
            final(self).model() == (ItemModel {
                content: TaskContent { weekdays: weekdays@, ..old(self).model().content },
                ..old(self).model()
            }),
    {
        self.weekdays = weekdays;
    }

    /// Returns true if the `Task` is for the given weekday. A task whose
    /// mask marks no day at all is for every day.
    pub fn is_for_weekday(&self, weekday: Weekday) -> (r: bool)
        ensures
            r == mask_on_weekday(self.model().content.weekdays, weekday.idx()),
    {
        let mut all_false = true;
        let mut k: usize = 0;
        while k < 7
            invariant
                k <= 7,
                all_false == (forall|j: int| 0 <= j < k ==> !self.model().content.weekdays[j]),
            decreases 7 - k,
        {
            if self.weekdays[k] {
                all_false = false;
                proof {
                    assert(self.model().content.weekdays[k as int]);
                }
            }
            k = k + 1;
        }
        self.weekdays[weekday.index_from_monday()] || all_false
    }

    /// Sets whether the given weekday is for the `Task`; `true` means the
    /// task is for that weekday.
    pub fn set_for_weekday(&mut self, weekday: Weekday, is_for: bool)
        ensures
            final(self).model() == (ItemModel {
                content: TaskContent {
                    weekdays: old(self).model().content.weekdays.update(weekday.idx(), is_for),
                    ..old(self).model().content
                },
                ..old(self).model()
            }),
    {
        let i = weekday.index_from_monday();
        let m = self.weekdays;
        self.weekdays = [
            if i == 0 { is_for } else { m[0] },
            if i == 1 { is_for } else { m[1] },
            if i == 2 { is_for } else { m[2] },
            if i == 3 { is_for } else { m[3] },
            if i == 4 { is_for } else { m[4] },
            if i == 5 { is_for } else { m[5] },
            if i == 6 { is_for } else { m[6] },
        ];
        proof {
            assert(self.model().content.weekdays =~= old(self).model().content.weekdays.update(
                weekday.idx(),
                is_for,
            ));
        }
    }
}

impl MtcItem for Task {
    type Content = TaskContent;

    closed spec fn model(&self) -> ItemModel<TaskContent> {
        ItemModel {
            content: TaskContent {
                body: self.body@,
                weekdays: self.weekdays@,
                duration: self.duration,
            },
            state: self.state,
            id: self.id as int,
        }
    }

    open spec fn content_for_date(c: TaskContent, date: Date) -> bool {
        mask_on_weekday(c.weekdays, date.spec_weekday_idx())
    }

    open spec fn content_expired(c: TaskContent, today: Date) -> bool {
        false
    }

    fn for_date(&self, date: Date) -> (r: bool) {
        self.is_for_weekday(date.weekday())
    }

    fn state(&self) -> (s: ItemState) {
        self.state
    }

    fn set_state(&mut self, new_state: ItemState) {
        self.state = new_state;
    }

    fn ignore_state_eq(&self, other: &Self) -> (r: bool) {
        let mut masks_eq = true;
        let mut k: usize = 0;
        while k < 7
            invariant
                k <= 7,
                masks_eq == (forall|j: int|
                    0 <= j < k ==> self.model().content.weekdays[j]
                        == other.model().content.weekdays[j]),
            decreases 7 - k,
        {
            if self.weekdays[k] != other.weekdays[k] {
                masks_eq = false;
                proof {
                    assert(self.model().content.weekdays[k as int]
                        != other.model().content.weekdays[k as int]);
                }
            }
            k = k + 1;
        }
        let r = masks_eq && self.duration == other.duration && self.body == other.body;
        proof {
            if r {
                assert(self.model().content.weekdays =~= other.model().content.weekdays);
                assert(self.model().content =~= other.model().content);
            }
        }
        r
    }

    fn id(&self) -> (i: usize) {
        self.id
    }

    fn set_id(&mut self, new_id: usize) {
        self.id = new_id;
    }

    fn expired_on(&self, today: Date) -> (r: bool) {
        false
    }

    fn clone_item(&self) -> (c: Self) {
        Task {
            weekdays: self.weekdays,
            body: self.body.clone(),
            duration: self.duration,
            state: self.state,
            id: self.id,
        }
    }
}

impl Event {
    /// Creates a new `Event` with a given body and date, in state `Neutral`
    /// with id 0.
    pub fn new(body: String, date: Date) -> (e: Event)
        ensures
            e.model() == (ItemModel {
                content: EventContent { body: body@, date },
                state: ItemState::Neutral,
                id: 0int,
            }),
    {
        Event { body, date, state: ItemState::Neutral, id: 0 }
    }

    /// Returns a reference to the body of the `Event`.
    pub fn body(&self) -> (b: &String)
        ensures
            b@ == self.model().content.body,
    {
        &self.body
    }

    /// Returns the date of the `Event`.
    pub fn date(&self) -> (d: Date)
        ensures
            d == self.model().content.date,
    {
        self.date
    }

    /// Renders the event for a listing, as its date in year-month-day form,
    /// its body and its id.
    ///
    /// Relies on chrono's `NaiveDate` rendering for the date and on core's
    /// string formatting for the rest.
    #[verifier::external_body]
    pub fn display_string(&self) -> String {
        match chrono::NaiveDate::from_num_days_from_ce_opt(self.date.num_days()) {
            Some(nd) => format!("{}: {} (ID: {})", nd, self.body, self.id),
            None => format!("{} (ID: {})", self.body, self.id),
        }
    }

    /// Sets the date of the `Event`.
    pub fn set_date(&mut self, new_date: Date)
        ensures
            final(self).model() == (ItemModel {
                content: EventContent { date: new_date, ..old(self).model().content },
                ..old(self).model()
            }),
    {
        self.date = new_date;
    }
}

impl MtcItem for Event {
    type Content = EventContent;

    closed spec fn model(&self) -> ItemModel<EventContent> {
        ItemModel {
            content: EventContent { body: self.body@, date: self.date },
            state: self.state,
            id: self.id as int,
        }
    }

    open spec fn content_for_date(c: EventContent, date: Date) -> bool {
        c.date == date
    }

    /// An event is expired once its date is more than 3 days in the past
    /// relative to the evaluation date.
    open spec fn content_expired(c: EventContent, today: Date) -> bool {
        today.spec_days() - c.date.spec_days() > 3
    }

    fn for_date(&self, date: Date) -> (r: bool) {
        let r = self.date == date;
        proof {
            assert(r == (self.model().content.date == date));
        }
        r
    }

    fn state(&self) -> (s: ItemState) {
        self.state
    }

    fn set_state(&mut self, new_state: ItemState) {
        self.state = new_state;
    }

    fn ignore_state_eq(&self, other: &Self) -> (r: bool) {
        self.body == other.body && self.date == other.date
    }

    fn id(&self) -> (i: usize) {
        self.id
    }

    fn set_id(&mut self, new_id: usize) {
        self.id = new_id;
    }

    fn expired_on(&self, today: Date) -> (r: bool) {
        let t = today.num_days() as i64;
        let d = self.date.num_days() as i64;
        t - d > 3
    }

    fn clone_item(&self) -> (c: Self) {
        Event {
            date: self.date,
            body: self.body.clone(),
            state: self.state,
            id: self.id,
        }
    }
}

} // verus!
