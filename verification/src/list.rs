//! The item store and its reconciliation engine.
//!
//! An [`MtcList`] wraps a vector of items and a role flag fixed at
//! construction: a server store keeps every item settled (`Neutral`), while a
//! client store tracks pending additions (`New`) and removals (`Removed`).
//! The module also defines the mathematical model of every operation: each
//! exec function's contract states exactly which sequence of
//! [`ItemModel`] values it leaves behind.

use vstd::prelude::*;

use crate::date::Date;
use crate::ItemModel;
use crate::ItemState;
use crate::MtcItem;

verus! {

/// An error reported by a recoverable list operation.
#[derive(Debug, PartialEq, Eq, Structural, Clone, Copy)]
pub enum ListError {
    /// The given id does not resolve to a live item in the list.
    NotFound,
}

/// Whether an item is live, that is, not marked as removed.
pub open spec fn is_live<C>(m: ItemModel<C>) -> bool {
    m.state != ItemState::Removed
}

/// Whether the sequence holds a live item with the given content.
pub open spec fn has_live_match<C>(s: Seq<ItemModel<C>>, c: C) -> bool {
    exists|j: int| 0 <= j < s.len() && s[j].content == c && is_live(s[j])
}

/// Whether the sequence holds any item with the given content, live or not.
pub open spec fn has_any_match<C>(s: Seq<ItemModel<C>>, c: C) -> bool {
    exists|j: int| 0 <= j < s.len() && s[j].content == c
}

/// Whether `j` is the position of the first live item with the given content.
pub open spec fn is_first_live_match<C>(s: Seq<ItemModel<C>>, c: C, j: int) -> bool {
    &&& 0 <= j < s.len()
    &&& s[j].content == c
    &&& is_live(s[j])
    &&& forall|k: int| 0 <= k < j ==> !(s[k].content == c && is_live(#[trigger] s[k]))
}

/// The same item marked as removed.
pub open spec fn marked_removed<C>(m: ItemModel<C>) -> ItemModel<C> {
    ItemModel { state: ItemState::Removed, ..m }
}

/// Marks the first live item with the given content as removed; leaves the
/// sequence unchanged when no live item matches.
pub open spec fn mark_first_live_match<C>(s: Seq<ItemModel<C>>, c: C) -> Seq<ItemModel<C>> {
    if has_live_match(s, c) {
        let j = choose|j: int| is_first_live_match(s, c, j);
        s.update(j, marked_removed(s[j]))
    } else {
        s
    }
}

/// The state a store stamps on a freshly added item: servers settle items at
/// once, clients keep them pending.
pub open spec fn stamp_state(is_server: bool) -> ItemState {
    if is_server {
        ItemState::Neutral
    } else {
        ItemState::New
    }
}

/// One step of the client pass of a sync: processes the client item at
/// position `j` against the current pair of stores.
pub open spec fn client_step<C>(cl: Seq<ItemModel<C>>, sv: Seq<ItemModel<C>>, j: int) -> (
    Seq<ItemModel<C>>,
    Seq<ItemModel<C>>,
) {
    match cl[j].state {
        ItemState::Removed => (cl, mark_first_live_match(sv, cl[j].content)),
        ItemState::New => (
            cl,
            sv.push(
                ItemModel { content: cl[j].content, state: ItemState::Neutral, id: sv.len() as int },
            ),
        ),
        ItemState::Neutral => if has_any_match(sv, cl[j].content) {
            (cl, sv)
        } else {
            (cl.update(j, marked_removed(cl[j])), sv)
        },
    }
}

/// The client pass of a sync after processing the first `k` client items:
/// removals are forwarded to the server (first live match only), new items
/// are appended to the server, and settled items missing from the server are
/// marked as removed on the client.
pub open spec fn client_pass<C>(cl: Seq<ItemModel<C>>, sv: Seq<ItemModel<C>>, k: int) -> (
    Seq<ItemModel<C>>,
    Seq<ItemModel<C>>,
)
    decreases k,
{
    if k <= 0 {
        (cl, sv)
    } else {
        let p = client_pass(cl, sv, k - 1);
        client_step(p.0, p.1, k - 1)
    }
}

/// One step of the server fill pass: appends a copy of the server item at
/// position `j` to the client unless the client already holds a live item
/// with the same content.
pub open spec fn fill_step<C>(cl: Seq<ItemModel<C>>, sv: Seq<ItemModel<C>>, j: int) -> Seq<
    ItemModel<C>,
> {
    if is_live(sv[j]) && !has_live_match(cl, sv[j].content) {
        cl.push(ItemModel { content: sv[j].content, state: ItemState::New, id: cl.len() as int })
    } else {
        cl
    }
}

/// The server fill pass after processing the first `k` server items.
pub open spec fn fill_pass<C>(cl: Seq<ItemModel<C>>, sv: Seq<ItemModel<C>>, k: int) -> Seq<
    ItemModel<C>,
>
    decreases k,
{
    if k <= 0 {
        cl
    } else {
        fill_step(fill_pass(cl, sv, k - 1), sv, k - 1)
    }
}

/// The live items of a sequence, in order.
pub open spec fn live_part<C>(s: Seq<ItemModel<C>>) -> Seq<ItemModel<C>>
    decreases s.len(),
{
    if s.len() == 0 {
        Seq::empty()
    } else if is_live(s.last()) {
        live_part(s.drop_last()).push(s.last())
    } else {
        live_part(s.drop_last())
    }
}

/// The normalized form of a store: removed items dropped, every survivor
/// settled to `Neutral`, ids reassigned densely in order.
pub open spec fn normalize<C>(s: Seq<ItemModel<C>>) -> Seq<ItemModel<C>> {
    live_part(s).map(
        |i: int, m: ItemModel<C>| ItemModel { state: ItemState::Neutral, id: i, ..m },
    )
}

/// The pair of stores a sync leaves behind, given the client and server
/// stores it started from: the client pass, then the server fill pass, then
/// both sides normalized.
pub open spec fn spec_sync<C>(cl: Seq<ItemModel<C>>, sv: Seq<ItemModel<C>>) -> (
    Seq<ItemModel<C>>,
    Seq<ItemModel<C>>,
) {
    let p = client_pass(cl, sv, cl.len() as int);
    let filled = fill_pass(p.0, p.1, p.1.len() as int);
    (normalize(filled), normalize(p.1))
}

/// The same sequence with every id set to its position.
pub open spec fn reassign_ids<C>(s: Seq<ItemModel<C>>) -> Seq<ItemModel<C>> {
    s.map(|i: int, m: ItemModel<C>| ItemModel { id: i, ..m })
}

/// The same sequence with every expired item marked as removed, evaluated on
/// the given date.
pub open spec fn mark_expired<T: MtcItem>(s: Seq<ItemModel<T::Content>>, today: Date) -> Seq<
    ItemModel<T::Content>,
> {
    s.map(
        |i: int, m: ItemModel<T::Content>|
            if T::content_expired(m.content, today) {
                marked_removed(m)
            } else {
                m
            },
    )
}

/// The live items that are for the given date, in order.
pub open spec fn live_for_date<T: MtcItem>(s: Seq<ItemModel<T::Content>>, date: Date) -> Seq<
    ItemModel<T::Content>,
>
    decreases s.len(),
{
    if s.len() == 0 {
        Seq::empty()
    } else if is_live(s.last()) && T::content_for_date(s.last().content, date) {
        live_for_date::<T>(s.drop_last(), date).push(s.last())
    } else {
        live_for_date::<T>(s.drop_last(), date)
    }
}

/// The models of a sequence of items, in order.
pub open spec fn models<T: MtcItem>(s: Seq<T>) -> Seq<ItemModel<T::Content>> {
    s.map_values(|t: T| t.model())
}

/// The models of a sequence of item references, in order.
pub open spec fn ref_models<T: MtcItem>(s: Seq<&T>) -> Seq<ItemModel<T::Content>> {
    s.map_values(|t: &T| t.model())
}

/// The models of a sequence have its length.
pub broadcast proof fn lemma_models_len<T: MtcItem>(s: Seq<T>)
    ensures
        (#[trigger] models(s)).len() == s.len(),
{
}

/// The model at a position is the model of the item there.
pub broadcast proof fn lemma_models_index<T: MtcItem>(s: Seq<T>, i: int)
    requires
        0 <= i < s.len(),
    ensures
        (#[trigger] models(s)[i]) == s[i].model(),
{
}

/// The models of a sequence of references have its length.
pub broadcast proof fn lemma_ref_models_len<T: MtcItem>(s: Seq<&T>)
    ensures
        (#[trigger] ref_models(s)).len() == s.len(),
{
}

/// The normalized form holds exactly the live items.
pub broadcast proof fn lemma_normalize_len<C>(s: Seq<ItemModel<C>>)
    ensures
        (#[trigger] normalize(s)).len() == live_part(s).len(),
{
}

/// The facts about `models`, `ref_models` and `normalize` that the exec
/// functions below lean on.
pub broadcast group group_models {
    lemma_models_len,
    lemma_models_index,
    lemma_ref_models_len,
    lemma_normalize_len,
}

/// There is at most one first live match.
proof fn lemma_first_live_match_unique<C>(s: Seq<ItemModel<C>>, c: C, j1: int, j2: int)
    requires
        is_first_live_match(s, c, j1),
        is_first_live_match(s, c, j2),
    ensures
        j1 == j2,
{
    if j1 < j2 {
        assert(!(s[j1].content == c && is_live(s[j1])));
    } else if j2 < j1 {
        assert(!(s[j2].content == c && is_live(s[j2])));
    }
}

/// Marking at a known first live match is an update at that position.
proof fn lemma_mark_at_first<C>(s: Seq<ItemModel<C>>, c: C, j: int)
    requires
        is_first_live_match(s, c, j),
    ensures
        mark_first_live_match(s, c) == s.update(j, marked_removed(s[j])),
{
    assert(has_live_match(s, c));
    let j2 = choose|j2: int| is_first_live_match(s, c, j2);
    assert(is_first_live_match(s, c, j2)) by {
        assert(is_first_live_match(s, c, j));
    }
    lemma_first_live_match_unique(s, c, j, j2);
}

/// The client pass never changes the length of the client store nor any
/// client item that it has not yet processed, and it changes a processed
/// item only by marking a settled one as removed.
pub proof fn lemma_client_pass_frame<C>(cl: Seq<ItemModel<C>>, sv: Seq<ItemModel<C>>, k: int)
    requires
        0 <= k <= cl.len(),
    ensures
        client_pass(cl, sv, k).0.len() == cl.len(),
        forall|j: int| k <= j < cl.len() ==> client_pass(cl, sv, k).0[j] == cl[j],
        forall|j: int|
            0 <= j < k ==> {
                ||| #[trigger] client_pass(cl, sv, k).0[j] == cl[j]
                ||| (cl[j].state == ItemState::Neutral && client_pass(cl, sv, k).0[j]
                    == marked_removed(cl[j]))
            },
    decreases k,
{
    if k > 0 {
        lemma_client_pass_frame(cl, sv, k - 1);
    }
}

impl<T: MtcItem> View for MtcList<T> {
    type V = Seq<ItemModel<T::Content>>;

    closed spec fn view(&self) -> Seq<ItemModel<T::Content>> {
        models(self.items@)
    }
}

/// A store of items of one kind, flagged at construction as a server or a
/// client. The flag decides how additions are stamped and how removals are
/// carried out, so that two stores can be reconciled by [`MtcList::sync`].
#[derive(Debug, PartialEq)]
pub struct MtcList<T: MtcItem> {
    items: Vec<T>,
    is_server: bool,
}

impl<T: MtcItem> MtcList<T> {
    /// Whether this store is a server store.
    pub closed spec fn spec_is_server(&self) -> bool {
        self.is_server
    }

    /// Creates a new empty `MtcList` which will be either a server or a
    /// client.
    pub fn new(is_server: bool) -> (l: MtcList<T>)
        ensures
            l@ == Seq::<ItemModel<T::Content>>::empty(),
            l.spec_is_server() == is_server,
    {
        broadcast use group_models;
        let l = MtcList { items: Vec::new(), is_server };
        proof {
            assert(l@ =~= Seq::<ItemModel<T::Content>>::empty());
        }
        l
    }

    /// Rebuilds a store from items restored elsewhere, for example from
    /// persisted storage, keeping their states and ids exactly as given.
    pub fn from_items(items: Vec<T>, is_server: bool) -> (l: MtcList<T>)
        ensures
            l@ == models(items@),
            l.spec_is_server() == is_server,
    {
        MtcList { items, is_server }
    }

    /// Returns references to every item in the store, in order, whatever its
    /// state. This is the whole stored sequence, as persistence needs it.
    pub fn all_items(&self) -> (r: Vec<&T>)
        ensures
            ref_models(r@) == self@,
    {
        broadcast use group_models;

        let mut out: Vec<&T> = Vec::new();
        let mut k: usize = 0;
        while k < self.items.len()
            invariant
                k <= self.items.len(),
                self@.len() == self.items@.len(),
                ref_models(out@) == self@.take(k as int),
            decreases self.items.len() - k,
        {
            broadcast use group_models;

            out.push(&self.items[k]);
            proof {
                assert(ref_models(out@) =~= self@.take(k + 1int));
            }
            k = k + 1;
        }
        proof {
            assert(self@.take(self@.len() as int) =~= self@);
        }
        out
    }

    /// Returns whether this store is a server store.
    pub fn is_server(&self) -> (r: bool)
        ensures
            r == self.spec_is_server(),
    {
        broadcast use group_models;
        self.is_server
    }

    /// Appends an item to the store, stamping its state (`Neutral` on a
    /// server, `New` on a client) and its id, which is the position it is
    /// stored at. Returns the new id.
    pub fn add(&mut self, item: T) -> (id: usize)
        ensures
            final(self)@ == old(self)@.push(
                ItemModel {
                    content: item.model().content,
                    state: stamp_state(old(self).spec_is_server()),
                    id: old(self)@.len() as int,
                },
            ),
            final(self).spec_is_server() == old(self).spec_is_server(),
            id == old(self)@.len(),
    {
        broadcast use group_models;

        let ghost c = item.model().content;
        let mut item = item;
        if self.is_server {
            item.set_state(ItemState::Neutral);
        } else {
            item.set_state(ItemState::New);
        }
        let id = self.items.len();
        item.set_id(id);
        let ghost pushed = item.model();
        self.items.push(item);
        proof {
            assert(self@ =~= old(self)@.push(pushed));
            assert(pushed == (ItemModel {
                content: c,
                state: stamp_state(old(self).spec_is_server()),
                id: old(self)@.len() as int,
            }));
        }
        id
    }

    /// Marks the item with the given id as removed. On a client the item
    /// stays in place with state `Removed`, so the ids of the other items do
    /// not move; asking to remove an already removed item is reported as
    /// `NotFound`. On a server the item is deleted at once and every
    /// following item's id is set to its new position. Fails with `NotFound`
    /// exactly when the id resolves to no live item.
    pub fn mark_removed(&mut self, id: usize) -> (r: Result<(), ListError>)
        ensures
            final(self).spec_is_server() == old(self).spec_is_server(),
            old(self).spec_is_server() ==> match r {
                Result::Ok(u) => id < old(self)@.len() && final(self)@ == reassign_ids(
                    old(self)@.remove(id as int),
                ),
                Result::Err(e) => e == ListError::NotFound && id >= old(self)@.len() && *final(self)
                    == *old(self),
            },
            !old(self).spec_is_server() ==> match r {
                Result::Ok(u) => id < old(self)@.len() && is_live(old(self)@[id as int])
                    && final(self)@ == old(self)@.update(
                    id as int,
                    marked_removed(old(self)@[id as int]),
                ),
                Result::Err(e) => e == ListError::NotFound && (id >= old(self)@.len() || !is_live(
                    old(self)@[id as int],
                )) && *final(self) == *old(self),
            },
    {
        broadcast use group_models;

        if id >= self.items.len() {
            return Result::Err(ListError::NotFound);
        }
        if self.is_server {
            self.items.remove(id);
            proof {
                assert(self@ =~= old(self)@.remove(id as int));
            }
            self.set_ids_to_positions();
            Result::Ok(())
        } else {
            if self.items[id].state() == ItemState::Removed {
                // Report an error even though an item with this id exists,
                // because from the caller's view it is already removed.
                return Result::Err(ListError::NotFound);
            }
            self.mark_at(id);
            Result::Ok(())
        }
    }

    /// Returns a reference to the item with the given id if it exists and is
    /// not marked as removed.
    pub fn get_by_id(&self, id: usize) -> (r: Option<&T>)
        ensures
            match r {
                Option::Some(t) => id < self@.len() && is_live(self@[id as int]) && t.model()
                    == self@[id as int],
                Option::None => id >= self@.len() || !is_live(self@[id as int]),
            },
    {
        broadcast use group_models;

        if id < self.items.len() {
            let item = &self.items[id];
            if item.state() != ItemState::Removed {
                Option::Some(item)
            } else {
                Option::None
            }
        } else {
            Option::None
        }
    }

    /// Returns references to all items not marked as removed, in store
    /// order.
    pub fn items(&self) -> (r: Vec<&T>)
        ensures
            ref_models(r@) == live_part(self@),
    {
        broadcast use group_models;
        let mut out: Vec<&T> = Vec::new();
        let mut k: usize = 0;
        while k < self.items.len()
            invariant
                k <= self.items.len(),
                self@.len() == self.items@.len(),
                ref_models(out@) == live_part(self@.take(k as int)),
            decreases self.items.len() - k,
        {
            let ghost prefix = self@.take(k as int);
            let item = &self.items[k];
            if item.state() != ItemState::Removed {
                out.push(item);
            }
            proof {
                assert(self@.take(k + 1int).drop_last() =~= prefix);
                assert(self@.take(k + 1int).last() == self@[k as int]);
                assert(ref_models(out@) =~= live_part(self@.take(k + 1int)));
            }
            k = k + 1;
        }
        proof {
            assert(self@.take(self@.len() as int) =~= self@);
        }
        out
    }

    /// Returns references to all live items that are for the given date, in
    /// store order.
    pub fn items_for_date(&self, date: Date) -> (r: Vec<&T>)
        ensures
            ref_models(r@) == live_for_date::<T>(self@, date),
    {
        broadcast use group_models;
        let mut out: Vec<&T> = Vec::new();
        let mut k: usize = 0;
        while k < self.items.len()
            invariant
                k <= self.items.len(),
                self@.len() == self.items@.len(),
                ref_models(out@) == live_for_date::<T>(
                    self@.take(k as int),
                    date,
                ),
            decreases self.items.len() - k,
        {
            let ghost prefix = self@.take(k as int);
            let item = &self.items[k];
            if item.state() != ItemState::Removed && item.for_date(date) {
                out.push(item);
            }
            proof {
                assert(self@.take(k + 1int).drop_last() =~= prefix);
                assert(self@.take(k + 1int).last() == self@[k as int]);
                assert(ref_models(out@) =~= live_for_date::<T>(
                    self@.take(k + 1int),
                    date,
                ));
            }
            k = k + 1;
        }
        proof {
            assert(self@.take(self@.len() as int) =~= self@);
        }
        out
    }

    /// Returns references to all live items that are for today, in store
    /// order.
    pub fn items_for_today(&self) -> (r: Vec<&T>)
        ensures
            exists|d: Date| ref_models(r@) == live_for_date::<T>(self@, d),
    {
        broadcast use group_models;
        let today = crate::date::today_date();
        let r = self.items_for_date(today);
        proof {
            assert(ref_models(r@) == live_for_date::<T>(self@, today));
        }
        r
    }

    /// Returns references to all live items that are for the next date with
    /// the given weekday, counting from today, in store order.
    pub fn items_for_weekday(&self, weekday: crate::date::Weekday) -> (r: Vec<&T>)
        ensures
            exists|d: Date|
                d.spec_weekday_idx() == weekday.idx() && ref_models(r@)
                    == live_for_date::<T>(self@, d),
    {
        broadcast use group_models;
        let base = crate::date::weekday_search_base();
        let d = crate::date::next_date_for_weekday(base, weekday);
        let r = self.items_for_date(d);
        proof {
            assert(d.spec_weekday_idx() == weekday.idx() && ref_models(r@)
                == live_for_date::<T>(self@, d));
        }
        r
    }

    /// Returns a copy of this store normalized into server role: removed
    /// items dropped, every survivor settled, ids dense.
    pub fn clone_to_server(&self) -> (l: MtcList<T>)
        ensures
            l@ == normalize(self@),
            l.spec_is_server() == true,
    {
        broadcast use group_models;
        let mut items: Vec<T> = Vec::new();
        let mut k: usize = 0;
        while k < self.items.len()
            invariant
                k <= self.items.len(),
                self@.len() == self.items@.len(),
                items@.len() == k,
                models(items@) == self@.take(k as int),
            decreases self.items.len() - k,
        {
            broadcast use group_models;

            items.push(self.items[k].clone_item());
            proof {
                assert(models(items@) =~= self@.take(k + 1int));
            }
            k = k + 1;
        }
        let mut clone = MtcList { items, is_server: true };
        proof {
            assert(self@.take(self@.len() as int) =~= self@);
            assert(clone@ == self@);
        }
        clone.sync_self();
        clone
    }

    /// Normalizes the store: drops every item marked as removed and, for the
    /// surviving items in their original order, settles the state to
    /// `Neutral` and reassigns each id to the item's position. Item ids can
    /// change during this.
    pub fn sync_self(&mut self)
        ensures
            final(self)@ == normalize(old(self)@),
            final(self).spec_is_server() == old(self).spec_is_server(),
    {
        broadcast use group_models;
        let mut out: Vec<T> = Vec::new();
        let mut k: usize = 0;
        while k < self.items.len()
            invariant
                k <= self.items.len(),
                *self == *old(self),
                self@.len() == self.items@.len(),
                out@.len() == live_part(old(self)@.take(k as int)).len(),
                models(out@) == normalize(old(self)@.take(k as int)),
            decreases self.items.len() - k,
        {
            broadcast use group_models;

            let ghost prefix = old(self)@.take(k as int);
            let item = &self.items[k];
            if item.state() != ItemState::Removed {
                let mut it = item.clone_item();
                proof {
                    assert(it.model() == old(self)@[k as int]);
                }
                it.set_state(ItemState::Neutral);
                it.set_id(out.len());
                proof {
                    assert(live_part(prefix).len() == normalize(prefix).len());
                    assert(it.model() == (ItemModel {
                        content: old(self)@[k as int].content,
                        state: ItemState::Neutral,
                        id: out@.len() as int,
                    }));
                }
                let ghost out_prev = out@;
                let ghost pushed = it.model();
                out.push(it);
                proof {
                    assert(old(self)@.take(k + 1int).drop_last() =~= prefix);
                    assert(old(self)@.take(k + 1int).last() == old(self)@[k as int]);
                    assert(live_part(old(self)@.take(k + 1int)) == live_part(prefix).push(
                        old(self)@[k as int],
                    ));
                    assert(models(out@) =~= models(out_prev).push(pushed));
                    assert(normalize(old(self)@.take(k + 1int)) =~= normalize(prefix).push(pushed));
                }
            } else {
                proof {
                    assert(old(self)@.take(k + 1int).drop_last() =~= prefix);
                    assert(old(self)@.take(k + 1int).last() == old(self)@[k as int]);
                    assert(live_part(old(self)@.take(k + 1int)) == live_part(prefix));
                }
            }
            proof {
                assert(models(out@) == normalize(old(self)@.take(k + 1int)));
            }
            k = k + 1;
        }
        self.items = out;
        proof {
            assert(old(self)@.take(old(self)@.len() as int) =~= old(self)@);
        }
    }

    /// Marks every expired item as removed, evaluated on the given date. The
    /// items are not deleted; a following `sync_self` or `sync` compacts the
    /// store.
    pub fn remove_expired_on(&mut self, today: Date)
        ensures
            final(self)@ == mark_expired::<T>(old(self)@, today),
            final(self).spec_is_server() == old(self).spec_is_server(),
    {
        broadcast use group_models;
        let n = self.items.len();
        let mut k: usize = 0;
        while k < n
            invariant
                k <= n,
                n == self.items@.len(),
                self@.len() == n,
                old(self)@.len() == n,
                self.spec_is_server() == old(self).spec_is_server(),
                forall|j: int| k <= j < n ==> self@[j] == old(self)@[j],
                forall|j: int|
                    0 <= j < k ==> (#[trigger] self@[j]) == mark_expired::<T>(old(self)@, today)[j],
            decreases n - k,
        {
            broadcast use group_models;

            if self.items[k].expired_on(today) {
                self.mark_at(k);
            }
            k = k + 1;
        }
        proof {
            assert(self@ =~= mark_expired::<T>(old(self)@, today));
        }
    }

    /// Marks every expired item as removed, evaluated on today's date.
    pub fn remove_expired(&mut self)
        ensures
            exists|d: Date| final(self)@ == mark_expired::<T>(old(self)@, d),
            final(self).spec_is_server() == old(self).spec_is_server(),
    {
        broadcast use group_models;
        let today = crate::date::today_date();
        self.remove_expired_on(today);
        proof {
            assert(final(self)@ == mark_expired::<T>(old(self)@, today));
        }
    }

    /// Synchronizes this store with the other store. Exactly one of the two
    /// must be a server store; the contract leaves the violating pairs out,
    /// matching the fatal precondition of the operation. The merge forwards
    /// client removals to the server (first live match only), pushes new
    /// client items to the server, drops settled client items the server no
    /// longer holds, back-fills the client with items only the server has,
    /// and finally normalizes both stores. Item ids can change during sync.
    pub fn sync(&mut self, other: &mut MtcList<T>)
        requires
            old(self).spec_is_server() != old(other).spec_is_server(),
        ensures
            final(self).spec_is_server() == old(self).spec_is_server(),
            final(other).spec_is_server() == old(other).spec_is_server(),
            old(self).spec_is_server() ==> {
                let r = spec_sync(old(other)@, old(self)@);
                final(other)@ == r.0 && final(self)@ == r.1
            },
            !old(self).spec_is_server() ==> {
                let r = spec_sync(old(self)@, old(other)@);
                final(self)@ == r.0 && final(other)@ == r.1
            },
    {
        broadcast use group_models;

        if self.is_server {
            sync_client_with_server(other, self);
        } else {
            sync_client_with_server(self, other);
        }
    }

    /// Sets every item's id to its position, keeping everything else.
    fn set_ids_to_positions(&mut self)
        ensures
            final(self)@ == reassign_ids(old(self)@),
            final(self).spec_is_server() == old(self).spec_is_server(),
    {
        broadcast use group_models;
        let n = self.items.len();
        let mut k: usize = 0;
        while k < n
            invariant
                k <= n,
                n == self.items@.len(),
                self@.len() == n,
                old(self)@.len() == n,
                self.spec_is_server() == old(self).spec_is_server(),
                forall|j: int| k <= j < n ==> self@[j] == old(self)@[j],
                forall|j: int|
                    0 <= j < k ==> (#[trigger] self@[j]) == (ItemModel {
                        id: j,
                        ..old(self)@[j]
                    }),
            decreases n - k,
        {
            broadcast use group_models;

            let ghost prev = self@;
            let mut it = self.items[k].clone_item();
            proof {
                assert(it.model() == old(self)@[k as int]);
            }
            it.set_id(k);
            self.items.set(k, it);
            proof {
                assert(self@ =~= prev.update(
                    k as int,
                    (ItemModel { id: k as int, ..old(self)@[k as int] }),
                ));
            }
            k = k + 1;
        }
        proof {
            assert(self@ =~= reassign_ids(old(self)@));
        }
    }

    /// Marks the item at the given position as removed, in place.
    fn mark_at(&mut self, k: usize)
        requires
            k < old(self)@.len(),
        ensures
            final(self)@ == old(self)@.update(k as int, marked_removed(old(self)@[k as int])),
            final(self).spec_is_server() == old(self).spec_is_server(),
    {
        broadcast use group_models;
        let mut it = self.items[k].clone_item();
        it.set_state(ItemState::Removed);
        self.items.set(k, it);
        proof {
            assert(self@ =~= old(self)@.update(k as int, marked_removed(old(self)@[k as int])));
        }
    }

    /// Returns the position of the first live item whose content equals the
    /// given item's content, if any.
    fn find_first_live(&self, item: &T) -> (r: Option<usize>)
        ensures
            match r {
                Option::Some(j) => is_first_live_match(self@, item.model().content, j as int),
                Option::None => !has_live_match(self@, item.model().content),
            },
    {
        broadcast use group_models;

        let mut k: usize = 0;
        while k < self.items.len()
            invariant
                k <= self.items.len(),
                self@.len() == self.items@.len(),
                forall|j: int|
                    0 <= j < k ==> !((#[trigger] self@[j]).content == item.model().content
                        && is_live(self@[j])),
            decreases self.items.len() - k,
        {
            let elem = &self.items[k];
            if elem.ignore_state_eq(item) && elem.state() != ItemState::Removed {
                return Option::Some(k);
            }
            k = k + 1;
        }
        Option::None
    }

    /// Returns whether the store holds a live item whose content equals the
    /// given item's content.
    fn contains_live(&self, item: &T) -> (r: bool)
        ensures
            r == has_live_match(self@, item.model().content),
    {
        broadcast use group_models;
        match self.find_first_live(item) {
            Option::Some(j) => {
                proof {
                    assert(has_live_match(self@, item.model().content)) by {
                        assert(is_first_live_match(self@, item.model().content, j as int));
                    }
                }
                true
            },
            Option::None => false,
        }
    }

    /// Returns whether the store holds any item, live or removed, whose
    /// content equals the given item's content.
    fn contains_any(&self, item: &T) -> (r: bool)
        ensures
            r == has_any_match(self@, item.model().content),
    {
        broadcast use group_models;
        let mut k: usize = 0;
        while k < self.items.len()
            invariant
                k <= self.items.len(),
                self@.len() == self.items@.len(),
                forall|j: int|
                    0 <= j < k ==> (#[trigger] self@[j]).content != item.model().content,
            decreases self.items.len() - k,
        {
            let elem = &self.items[k];
            if elem.ignore_state_eq(item) {
                proof {
                    assert(self@[k as int].content == item.model().content);
                }
                return true;
            }
            k = k + 1;
        }
        false
    }
}

/// Runs the merge with the roles already sorted out: `client` is the client
/// store and `server` the server store.
fn sync_client_with_server<T: MtcItem>(client: &mut MtcList<T>, server: &mut MtcList<T>)
    requires
        !old(client).spec_is_server(),
        old(server).spec_is_server(),
    ensures
        final(client)@ == spec_sync(old(client)@, old(server)@).0,
        final(server)@ == spec_sync(old(client)@, old(server)@).1,
        final(client).spec_is_server() == old(client).spec_is_server(),
        final(server).spec_is_server() == old(server).spec_is_server(),
{
    broadcast use group_models;
    let ghost cl0 = client@;
    let ghost sv0 = server@;
    let n = client.items.len();
    proof {
        assert(cl0.len() == n);
    }
    let mut k: usize = 0;
    while k < n
        invariant
            k <= n,
            n == client.items@.len(),
            client@.len() == n,
            cl0.len() == n,
            client@ == client_pass(cl0, sv0, k as int).0,
            server@ == client_pass(cl0, sv0, k as int).1,
            !client.spec_is_server(),
            server.spec_is_server(),
        decreases n - k,
    {
        broadcast use group_models;

        proof {
            lemma_client_pass_frame(cl0, sv0, k as int);
            assert(client@[k as int] == cl0[k as int]);
        }
        let ghost svk = server@;
        let st = self_state_at(client, k);
        if st == ItemState::Removed {
            let found = server.find_first_live(&client.items[k]);
            match found {
                Option::Some(j) => {
                    proof {
                        assert(j < svk.len());
                    }
                    server.mark_at(j);
                    proof {
                        lemma_mark_at_first(svk, cl0[k as int].content, j as int);
                    }
                },
                Option::None => {
                },
            }
        } else if st == ItemState::New {
            let it = clone_item_at(client, k);
            let _ = server.add(it);
        } else {
            let present = server.contains_any(&client.items[k]);
            if !present {
                client.mark_at(k);
            }
        }
        proof {
            assert(client_pass(cl0, sv0, k + 1int) == client_step(
                client_pass(cl0, sv0, k as int).0,
                client_pass(cl0, sv0, k as int).1,
                k as int,
            ));
        }
        k = k + 1;
    }
    let ghost c1 = client@;
    let ghost s1 = server@;
    proof {
        assert(c1 == client_pass(cl0, sv0, cl0.len() as int).0);
        assert(s1 == client_pass(cl0, sv0, cl0.len() as int).1);
    }
    let m = server.items.len();
    let mut k: usize = 0;
    while k < m
        invariant
            k <= m,
            m == server.items@.len(),
            s1.len() == m,
            server@ == s1,
            client@ == fill_pass(c1, s1, k as int),
            !client.spec_is_server(),
            server.spec_is_server(),
        decreases m - k,
    {
        broadcast use group_models;

        let elem_state = self_state_at(server, k);
        if elem_state != ItemState::Removed {
            let present = client.contains_live(&server.items[k]);
            if !present {
                let it = clone_item_at(server, k);
                let _ = client.add(it);
            }
        }
        proof {
            assert(fill_pass(c1, s1, k + 1int) == fill_step(fill_pass(c1, s1, k as int), s1, k as int));
        }
        k = k + 1;
    }
    client.sync_self();
    server.sync_self();
}

/// Returns the state of the item at the given position.
fn self_state_at<T: MtcItem>(list: &MtcList<T>, k: usize) -> (s: ItemState)
    requires
        k < list@.len(),
    ensures
        s == list@[k as int].state,
{
    broadcast use group_models;
    list.items[k].state()
}

/// Returns a copy of the item at the given position.
fn clone_item_at<T: MtcItem>(list: &MtcList<T>, k: usize) -> (it: T)
    requires
        k < list@.len(),
    ensures
        it.model() == list@[k as int],
{
    broadcast use group_models;
    list.items[k].clone_item()
}

} // verus!
