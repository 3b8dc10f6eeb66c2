//! Base functionality for mtc: three kinds of personal planning items
//! (todos, tasks, events) kept in client and server stores that are
//! reconciled by an explicit merge algorithm.
//!
//! Every item carries a lifecycle state ([`ItemState`]) and a position-based
//! id. An [`MtcList`] holds items of one kind, flagged at construction as a
//! client or a server store, and offers the reconciliation operations:
//! `sync_self` normalizes a single store, and `sync` merges a client store
//! with a server store so that neither side silently duplicates, loses, or
//! resurrects items across repeated syncs.

use vstd::prelude::*;

pub mod date;
pub mod items;
pub mod laws;
pub mod list;

pub use crate::date::Date;
pub use crate::date::Weekday;
pub use crate::items::Event;
pub use crate::items::Task;
pub use crate::items::Todo;
pub use crate::list::ListError;
pub use crate::list::MtcList;

verus! {

/// The lifecycle state of an item, used to synchronize stores correctly.
#[derive(Debug, PartialEq, Eq, Structural, Clone, Copy, PartialOrd, Ord)]
pub enum ItemState {
    /// The item is new and the server store does not contain it yet.
    New,
    /// The item is removed; if it exists on the server it should be removed
    /// from there too.
    Removed,
    /// The item is settled: neither new nor pending removal. If it does not
    /// exist on the server it will be dropped at the next sync.
    Neutral,
}

/// The mathematical shape of one stored item: its content (the fields that
/// identify it across stores), its lifecycle state, and its position id.
#[verifier::ext_equal]
pub struct ItemModel<C> {
    /// The item's content, ignoring state and id. Two items match across
    /// stores exactly when their contents are equal.
    pub content: C,
    /// The item's lifecycle state.
    pub state: ItemState,
    /// The item's position-based id.
    pub id: int,
}

/// An item that an [`MtcList`] can hold. A type implementing `MtcItem` is
/// defined for certain dates and carries an [`ItemState`] and an id.
pub trait MtcItem: Sized {
    /// The type of the item's content: the fields that identify the item
    /// across stores, ignoring state and id.
    type Content;

    /// The item as content, state and id.
    spec fn model(&self) -> ItemModel<Self::Content>;

    /// Whether an item with the given content is for the given date.
    spec fn content_for_date(c: Self::Content, date: Date) -> bool;

    /// Whether an item with the given content is expired when evaluated on
    /// the given date.
    spec fn content_expired(c: Self::Content, today: Date) -> bool;

    /// Returns true if the item is for the given date.
    fn for_date(&self, date: Date) -> (r: bool)
        ensures
            r == Self::content_for_date(self.model().content, date),
    ;

    /// Returns true if the item is for today.
    fn for_today(&self) -> (r: bool)
        ensures
            exists|d: Date| r == Self::content_for_date(self.model().content, d),
    {
        let today = crate::date::today_date();
        let r = self.for_date(today);
        proof {
            assert(r == Self::content_for_date(self.model().content, today));
        }
        r
    }

    /// Returns true if the item is for the next date falling on the given
    /// weekday, counting from today.
    fn for_weekday(&self, weekday: Weekday) -> (r: bool)
        ensures
            exists|d: Date|
                d.spec_weekday_idx() == weekday.idx() && r == Self::content_for_date(
                    self.model().content,
                    d,
                ),
    {
        let base = crate::date::weekday_search_base();
        let d = crate::date::next_date_for_weekday(base, weekday);
        let r = self.for_date(d);
        proof {
            assert(d.spec_weekday_idx() == weekday.idx() && r == Self::content_for_date(
                self.model().content,
                d,
            ));
        }
        r
    }

    /// Returns the item's lifecycle state.
    fn state(&self) -> (s: ItemState)
        ensures
            s == self.model().state,
    ;

    /// Sets the item's lifecycle state, leaving content and id unchanged.
    fn set_state(&mut self, new_state: ItemState)
        ensures
            final(self).model() == (ItemModel { state: new_state, ..old(self).model() }),
    ;

    /// Compares two items while ignoring the state and id of both.
    fn ignore_state_eq(&self, other: &Self) -> (r: bool)
        ensures
            r == (self.model().content == other.model().content),
    ;

    /// Returns the item's id.
    fn id(&self) -> (i: usize)
        ensures
            i as int == self.model().id,
    ;

    /// Sets the item's id, leaving content and state unchanged. `MtcList`
    /// manages ids itself, so calling this directly is rarely needed.
    fn set_id(&mut self, new_id: usize)
        ensures
            final(self).model() == (ItemModel { id: new_id as int, ..old(self).model() }),
    ;

    /// Returns true if the item is expired when evaluated on the given date.
    /// An expired item should be removed when syncing.
    fn expired_on(&self, today: Date) -> (r: bool)
        ensures
            r == Self::content_expired(self.model().content, today),
    ;

    /// Returns true if the item is expired, evaluated on today's date.
    fn expired(&self) -> (r: bool)
        ensures
            exists|d: Date| r == Self::content_expired(self.model().content, d),
    {
        let today = crate::date::today_date();
        let r = self.expired_on(today);
        proof {
            assert(r == Self::content_expired(self.model().content, today));
        }
        r
    }

    /// Returns a copy of the item, equal to it in content, state and id.
    fn clone_item(&self) -> (c: Self)
        ensures
            c == *self,
    ;
}

} // verus!
