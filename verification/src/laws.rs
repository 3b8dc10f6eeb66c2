//! The guarantees of the reconciliation engine, stated and proved over the
//! store models: normalization is idempotent, a synced pair is a fixed point
//! of `sync`, content is neither duplicated nor lost beyond what the merge
//! rules say, removals and additions propagate, and expired items are gone
//! once an expiry sweep and a normalization have run.

use vstd::prelude::*;

use crate::list::client_pass;
use crate::list::fill_pass;
use crate::list::has_any_match;
use crate::list::has_live_match;
use crate::list::is_first_live_match;
use crate::list::is_live;
use crate::list::lemma_client_pass_frame;
use crate::list::live_part;
use crate::list::mark_expired;
use crate::list::mark_first_live_match;
use crate::list::marked_removed;
use crate::list::normalize;
use crate::list::spec_sync;
use crate::ItemModel;
use crate::ItemState;
use crate::MtcItem;

verus! {

/// A store is normalized when every item is settled and its id is its
/// position. `sync_self` and `sync` leave every store in this shape.
pub open spec fn is_normalized<C>(s: Seq<ItemModel<C>>) -> bool {
    forall|j: int|
        0 <= j < s.len() ==> (#[trigger] s[j]).state == ItemState::Neutral && s[j].id == j
}

/// How many live items with the given content the sequence holds.
pub open spec fn count_live<C>(s: Seq<ItemModel<C>>, c: C) -> int
    decreases s.len(),
{
    if s.len() == 0 {
        0
    } else {
        count_live(s.drop_last(), c) + if s.last().content == c && is_live(s.last()) {
            1int
        } else {
            0int
        }
    }
}

/// How many items with the given content and state the sequence holds.
pub open spec fn count_in_state<C>(s: Seq<ItemModel<C>>, c: C, st: ItemState) -> int
    decreases s.len(),
{
    if s.len() == 0 {
        0
    } else {
        count_in_state(s.drop_last(), c, st) + if s.last().content == c && s.last().state == st {
            1int
        } else {
            0int
        }
    }
}

/// No two live items of the sequence share a content.
pub open spec fn distinct_live_contents<C>(s: Seq<ItemModel<C>>) -> bool {
    forall|i: int, j: int|
        0 <= i < j < s.len() && is_live(#[trigger] s[i]) && is_live(#[trigger] s[j])
            ==> s[i].content != s[j].content
}

/// Live counts are never negative.
proof fn lemma_count_live_nonneg<C>(s: Seq<ItemModel<C>>, c: C)
    ensures
        count_live(s, c) >= 0,
    decreases s.len(),
{
    if s.len() > 0 {
        lemma_count_live_nonneg(s.drop_last(), c);
    }
}

/// Appending one item changes the live count in the evident way.
proof fn lemma_count_live_push<C>(s: Seq<ItemModel<C>>, c: C, m: ItemModel<C>)
    ensures
        count_live(s.push(m), c) == count_live(s, c) + if m.content == c && is_live(m) {
            1int
        } else {
            0int
        },
{
    assert(s.push(m).drop_last() =~= s);
}

/// A sequence holds a live item with a content exactly when its live count
/// of that content is positive.
proof fn lemma_has_live_match_iff_count<C>(s: Seq<ItemModel<C>>, c: C)
    ensures
        has_live_match(s, c) <==> count_live(s, c) > 0,
    decreases s.len(),
{
    lemma_count_live_nonneg(s, c);
    if s.len() > 0 {
        lemma_count_live_nonneg(s.drop_last(), c);
        lemma_has_live_match_iff_count(s.drop_last(), c);
        if has_live_match(s, c) {
            let j = choose|j: int| 0 <= j < s.len() && s[j].content == c && is_live(s[j]);
            if j < s.len() - 1 {
                assert(s.drop_last()[j] == s[j]);
                assert(has_live_match(s.drop_last(), c));
            } else {
                assert(s[j] == s.last());
            }
        }
        if has_live_match(s.drop_last(), c) {
            let j = choose|j: int|
                0 <= j < s.drop_last().len() && s.drop_last()[j].content == c && is_live(
                    s.drop_last()[j],
                );
            assert(s[j] == s.drop_last()[j]);
            assert(has_live_match(s, c));
        }
        if s.last().content == c && is_live(s.last()) {
            assert(s[s.len() - 1] == s.last());
            assert(has_live_match(s, c));
        }
    }
}

/// A sequence with no live item of a content has live count zero of it.
proof fn lemma_count_live_zero<C>(s: Seq<ItemModel<C>>, c: C)
    requires
        forall|j: int| 0 <= j < s.len() ==> !((#[trigger] s[j]).content == c && is_live(s[j])),
    ensures
        count_live(s, c) == 0,
    decreases s.len(),
{
    if s.len() > 0 {
        assert(forall|j: int|
            0 <= j < s.drop_last().len() ==> (#[trigger] s.drop_last()[j]) == s[j]);
        lemma_count_live_zero(s.drop_last(), c);
    }
}

/// When no two live items share a content, each content is held live at most
/// once.
proof fn lemma_count_le_one_of_distinct<C>(s: Seq<ItemModel<C>>, c: C)
    requires
        distinct_live_contents(s),
    ensures
        count_live(s, c) <= 1,
    decreases s.len(),
{
    if s.len() > 0 {
        let dl = s.drop_last();
        assert(forall|j: int| 0 <= j < dl.len() ==> (#[trigger] dl[j]) == s[j]);
        if s.last().content == c && is_live(s.last()) {
            assert(forall|j: int|
                0 <= j < dl.len() ==> !((#[trigger] dl[j]).content == c && is_live(dl[j])));
            lemma_count_live_zero(dl, c);
        } else {
            lemma_count_le_one_of_distinct(dl, c);
        }
    }
}

/// Marking one item as removed lowers the live count of its content by one
/// when it was live, and leaves every other content's count unchanged.
proof fn lemma_count_live_mark<C>(s: Seq<ItemModel<C>>, c: C, j: int)
    requires
        0 <= j < s.len(),
    ensures
        count_live(s.update(j, marked_removed(s[j])), c) == count_live(s, c) - if s[j].content
            == c && is_live(s[j]) {
            1int
        } else {
            0int
        },
    decreases s.len(),
{
    let t = s.update(j, marked_removed(s[j]));
    if j == s.len() - 1 {
        assert(t.drop_last() =~= s.drop_last());
    } else {
        assert(t.drop_last() =~= s.drop_last().update(j, marked_removed(s.drop_last()[j])));
        lemma_count_live_mark(s.drop_last(), c, j);
    }
}

/// Below any live match there is a first live match.
proof fn lemma_first_live_match_below<C>(s: Seq<ItemModel<C>>, c: C, j: int)
    requires
        0 <= j < s.len(),
        s[j].content == c,
        is_live(s[j]),
    ensures
        exists|i: int| is_first_live_match(s, c, i),
    decreases j,
{
    if exists|k: int| 0 <= k < j && s[k].content == c && is_live(#[trigger] s[k]) {
        let k = choose|k: int| 0 <= k < j && s[k].content == c && is_live(#[trigger] s[k]);
        lemma_first_live_match_below(s, c, k);
    } else {
        assert(is_first_live_match(s, c, j));
    }
}

/// Marking the first live match of a content lowers its live count by one
/// when a live match exists; the count of every other content is unchanged,
/// and so is every item's content and id.
proof fn lemma_mark_first_effect<C>(s: Seq<ItemModel<C>>, c0: C, c: C)
    ensures
        count_live(mark_first_live_match(s, c0), c) == count_live(s, c) - if c0 == c
            && has_live_match(s, c0) {
            1int
        } else {
            0int
        },
        mark_first_live_match(s, c0).len() == s.len(),
        forall|i: int|
            0 <= i < s.len() ==> (#[trigger] mark_first_live_match(s, c0)[i]).content
                == s[i].content && mark_first_live_match(s, c0)[i].id == s[i].id,
        forall|i: int|
            0 <= i < s.len() && !is_live(#[trigger] mark_first_live_match(s, c0)[i]) ==> (!is_live(
                s[i],
            ) || s[i].content == c0),
        forall|i: int|
            0 <= i < s.len() && s[i].content != c0 ==> mark_first_live_match(s, c0)[i] == s[i],
{
    if has_live_match(s, c0) {
        let w = choose|w: int| 0 <= w < s.len() && s[w].content == c0 && is_live(s[w]);
        lemma_first_live_match_below(s, c0, w);
        let j = choose|j: int| is_first_live_match(s, c0, j);
        assert(is_first_live_match(s, c0, j));
        lemma_count_live_mark(s, c, j);
    }
}

/// Normalizing always yields a normalized store.
pub proof fn lemma_normalize_is_normalized<C>(s: Seq<ItemModel<C>>)
    ensures
        is_normalized(normalize(s)),
{
}

/// A sequence without removed items is its own live part.
proof fn lemma_live_part_all_live<C>(s: Seq<ItemModel<C>>)
    requires
        forall|j: int| 0 <= j < s.len() ==> is_live(#[trigger] s[j]),
    ensures
        live_part(s) == s,
    decreases s.len(),
{
    if s.len() > 0 {
        let dl = s.drop_last();
        assert(forall|j: int| 0 <= j < dl.len() ==> (#[trigger] dl[j]) == s[j]);
        lemma_live_part_all_live(dl);
        assert(live_part(s) == dl.push(s.last()));
        assert(dl.push(s.last()) =~= s);
    }
}

/// A normalized store is unchanged by normalizing it.
pub proof fn lemma_normalize_identity<C>(s: Seq<ItemModel<C>>)
    requires
        is_normalized(s),
    ensures
        normalize(s) == s,
{
    lemma_live_part_all_live(s);
    assert(normalize(s) =~= s);
}

/// Normalizing a store twice in a row yields the same sequence as
/// normalizing it once: no removed items remain, every state is settled and
/// the ids are dense, so the second pass has nothing left to do.
pub proof fn lemma_sync_self_idempotent<C>(s: Seq<ItemModel<C>>)
    ensures
        normalize(normalize(s)) == normalize(s),
{
    lemma_normalize_is_normalized(s);
    lemma_normalize_identity(normalize(s));
}

/// Per-state counts are never negative.
proof fn lemma_count_in_state_nonneg<C>(s: Seq<ItemModel<C>>, c: C, st: ItemState)
    ensures
        count_in_state(s, c, st) >= 0,
    decreases s.len(),
{
    if s.len() > 0 {
        lemma_count_in_state_nonneg(s.drop_last(), c, st);
    }
}

/// A sequence holds an item with a content and state exactly when its count
/// of that content and state is positive.
proof fn lemma_count_in_state_iff<C>(s: Seq<ItemModel<C>>, c: C, st: ItemState)
    ensures
        (exists|j: int| 0 <= j < s.len() && (#[trigger] s[j]).content == c && s[j].state == st)
            <==> count_in_state(s, c, st) > 0,
    decreases s.len(),
{
    lemma_count_in_state_nonneg(s, c, st);
    if s.len() > 0 {
        let dl = s.drop_last();
        lemma_count_in_state_nonneg(dl, c, st);
        lemma_count_in_state_iff(dl, c, st);
        if exists|j: int| 0 <= j < s.len() && (#[trigger] s[j]).content == c && s[j].state == st {
            let j = choose|j: int|
                0 <= j < s.len() && (#[trigger] s[j]).content == c && s[j].state == st;
            if j < s.len() - 1 {
                assert(dl[j] == s[j]);
            } else {
                assert(s[j] == s.last());
            }
        }
        if exists|j: int| 0 <= j < dl.len() && (#[trigger] dl[j]).content == c && dl[j].state
            == st {
            let j = choose|j: int|
                0 <= j < dl.len() && (#[trigger] dl[j]).content == c && dl[j].state == st;
            assert(s[j] == dl[j]);
        }
        if s.last().content == c && s.last().state == st {
            assert(s[s.len() - 1] == s.last());
        }
    }
}

/// Through the client pass, when no removed client item carries a content,
/// the server's live count of it grows by exactly the number of new client
/// items with it that were processed so far.
pub proof fn lemma_client_pass_count<C>(cl: Seq<ItemModel<C>>, sv: Seq<ItemModel<C>>, c: C, k: int)
    requires
        0 <= k <= cl.len(),
        forall|j: int|
            0 <= j < cl.len() && (#[trigger] cl[j]).state == ItemState::Removed ==> cl[j].content
                != c,
    ensures
        count_live(client_pass(cl, sv, k).1, c) == count_live(sv, c) + count_in_state(
            cl.take(k),
            c,
            ItemState::New,
        ),
    decreases k,
{
    if k == 0 {
        assert(cl.take(0) =~= Seq::<ItemModel<C>>::empty());
    } else {
        lemma_client_pass_count(cl, sv, c, k - 1);
        lemma_client_pass_frame(cl, sv, k - 1);
        let p = client_pass(cl, sv, k - 1);
        assert(p.0[k - 1] == cl[k - 1]);
        assert(cl.take(k).drop_last() =~= cl.take(k - 1));
        assert(cl.take(k).last() == cl[k - 1]);
        match cl[k - 1].state {
            ItemState::Removed => {
                lemma_mark_first_effect(p.1, cl[k - 1].content, c);
            },
            ItemState::New => {
                lemma_count_live_push(
                    p.1,
                    c,
                    ItemModel {
                        content: cl[k - 1].content,
                        state: ItemState::Neutral,
                        id: p.1.len() as int,
                    },
                );
            },
            ItemState::Neutral => {
            },
        }
    }
}

/// Through the client pass, when no new client item carries a content, each
/// removed client item with it lowers the server's live count of it by one
/// until that count reaches zero.
pub proof fn lemma_client_pass_count_removed<C>(
    cl: Seq<ItemModel<C>>,
    sv: Seq<ItemModel<C>>,
    c: C,
    k: int,
)
    requires
        0 <= k <= cl.len(),
        forall|j: int|
            0 <= j < cl.len() && (#[trigger] cl[j]).state == ItemState::New ==> cl[j].content != c,
    ensures
        count_live(client_pass(cl, sv, k).1, c) == if count_live(sv, c) - count_in_state(
            cl.take(k),
            c,
            ItemState::Removed,
        ) >= 0 {
            count_live(sv, c) - count_in_state(cl.take(k), c, ItemState::Removed)
        } else {
            0int
        },
    decreases k,
{
    if k == 0 {
        assert(cl.take(0) =~= Seq::<ItemModel<C>>::empty());
        lemma_count_live_nonneg(sv, c);
    } else {
        lemma_client_pass_count_removed(cl, sv, c, k - 1);
        lemma_client_pass_frame(cl, sv, k - 1);
        let p = client_pass(cl, sv, k - 1);
        assert(p.0[k - 1] == cl[k - 1]);
        assert(cl.take(k).drop_last() =~= cl.take(k - 1));
        assert(cl.take(k).last() == cl[k - 1]);
        lemma_count_in_state_nonneg(cl.take(k - 1), c, ItemState::Removed);
        match cl[k - 1].state {
            ItemState::Removed => {
                lemma_mark_first_effect(p.1, cl[k - 1].content, c);
                lemma_has_live_match_iff_count(p.1, cl[k - 1].content);
                if cl[k - 1].content == c {
                    lemma_count_live_nonneg(p.1, c);
                }
            },
            ItemState::New => {
                lemma_count_live_push(
                    p.1,
                    c,
                    ItemModel {
                        content: cl[k - 1].content,
                        state: ItemState::Neutral,
                        id: p.1.len() as int,
                    },
                );
            },
            ItemState::Neutral => {
            },
        }
    }
}


/// Through the client pass against a settled server and with removals that
/// collide with no surviving client item: every dead server item carries the
/// content of some removed client item, and every processed client item that
/// is still live has a live match on the server.
pub proof fn lemma_client_pass_live_matches<C>(cl: Seq<ItemModel<C>>, sv: Seq<ItemModel<C>>, k: int)
    requires
        0 <= k <= cl.len(),
        forall|i: int| 0 <= i < sv.len() ==> (#[trigger] sv[i]).state == ItemState::Neutral,
        forall|j1: int, j2: int|
            0 <= j1 < cl.len() && 0 <= j2 < cl.len() && (#[trigger] cl[j1]).state
                == ItemState::Removed && (#[trigger] cl[j2]).state != ItemState::Removed
                ==> cl[j1].content != cl[j2].content,
    ensures
        forall|i: int|
            0 <= i < client_pass(cl, sv, k).1.len() && !is_live(
                #[trigger] client_pass(cl, sv, k).1[i],
            ) ==> exists|j: int|
                0 <= j < cl.len() && cl[j].state == ItemState::Removed && client_pass(
                    cl,
                    sv,
                    k,
                ).1[i].content == cl[j].content,
        forall|j: int|
            0 <= j < k && is_live(#[trigger] client_pass(cl, sv, k).0[j]) ==> has_live_match(
                client_pass(cl, sv, k).1,
                cl[j].content,
            ),
    decreases k,
{
    if k > 0 {
        lemma_client_pass_live_matches(cl, sv, k - 1);
        lemma_client_pass_frame(cl, sv, k - 1);
        lemma_client_pass_frame(cl, sv, k);
        let p = client_pass(cl, sv, k - 1);
        let q = client_pass(cl, sv, k);
        assert(p.0[k - 1] == cl[k - 1]);
        match cl[k - 1].state {
            ItemState::Removed => {
                let c0 = cl[k - 1].content;
                lemma_mark_first_effect(p.1, c0, c0);
                assert(q.1 == mark_first_live_match(p.1, c0));
                assert forall|i: int|
                    0 <= i < q.1.len() && !is_live(#[trigger] q.1[i]) implies exists|j: int|
                    0 <= j < cl.len() && cl[j].state == ItemState::Removed && q.1[i].content
                        == cl[j].content by {
                    if !is_live(p.1[i]) {
                        let j = choose|j: int|
                            0 <= j < cl.len() && cl[j].state == ItemState::Removed
                                && p.1[i].content == cl[j].content;
                        assert(q.1[i].content == p.1[i].content);
                        assert(0 <= j < cl.len() && cl[j].state == ItemState::Removed
                            && q.1[i].content == cl[j].content);
                    } else {
                        assert(p.1[i].content == c0);
                        assert(q.1[i].content == c0);
                        assert(0 <= k - 1 < cl.len() && cl[k - 1].state == ItemState::Removed
                            && q.1[i].content == cl[k - 1].content);
                    }
                }
                assert forall|j: int|
                    0 <= j < k && is_live(#[trigger] q.0[j]) implies has_live_match(
                    q.1,
                    cl[j].content,
                ) by {
                    if j < k - 1 {
                        assert(is_live(p.0[j]));
                        assert(has_live_match(p.1, cl[j].content));
                        if cl[j].state == ItemState::Removed {
                            assert(p.0[j] == cl[j] || p.0[j] == marked_removed(cl[j]));
                            assert(false);
                        }
                        assert(cl[j].content != c0);
                        let w = choose|w: int|
                            0 <= w < p.1.len() && p.1[w].content == cl[j].content && is_live(
                                p.1[w],
                            );
                        assert(q.1[w] == p.1[w]);
                        assert(has_live_match(q.1, cl[j].content));
                    } else {
                        assert(q.0[j] == cl[k - 1]);
                        assert(!is_live(q.0[j]));
                    }
                }
            },
            ItemState::New => {
                let pushed = ItemModel {
                    content: cl[k - 1].content,
                    state: ItemState::Neutral,
                    id: p.1.len() as int,
                };
                assert(q.1 == p.1.push(pushed));
                assert forall|i: int|
                    0 <= i < q.1.len() && !is_live(#[trigger] q.1[i]) implies exists|j: int|
                    0 <= j < cl.len() && cl[j].state == ItemState::Removed && q.1[i].content
                        == cl[j].content by {
                    assert(i < p.1.len());
                    assert(q.1[i] == p.1[i]);
                }
                assert forall|j: int|
                    0 <= j < k && is_live(#[trigger] q.0[j]) implies has_live_match(
                    q.1,
                    cl[j].content,
                ) by {
                    if j < k - 1 {
                        assert(is_live(p.0[j]));
                        let w = choose|w: int|
                            0 <= w < p.1.len() && p.1[w].content == cl[j].content && is_live(
                                p.1[w],
                            );
                        assert(q.1[w] == p.1[w]);
                        assert(has_live_match(q.1, cl[j].content));
                    } else {
                        assert(q.1[q.1.len() - 1] == pushed);
                        assert(has_live_match(q.1, cl[k - 1].content));
                    }
                }
            },
            ItemState::Neutral => {
                let c = cl[k - 1].content;
                if has_any_match(p.1, c) {
                    assert(q.1 == p.1);
                    assert(q.0 == p.0);
                    assert forall|j: int|
                        0 <= j < k && is_live(#[trigger] q.0[j]) implies has_live_match(
                        q.1,
                        cl[j].content,
                    ) by {
                        if j < k - 1 {
                            assert(is_live(p.0[j]));
                        } else {
                            let i = choose|i: int| 0 <= i < p.1.len() && p.1[i].content == c;
                            if is_live(p.1[i]) {
                                assert(has_live_match(p.1, c));
                            } else {
                                let j2 = choose|j2: int|
                                    0 <= j2 < cl.len() && cl[j2].state == ItemState::Removed
                                        && p.1[i].content == cl[j2].content;
                                assert(cl[j2].content != cl[k - 1].content);
                                assert(false);
                            }
                        }
                    }
                } else {
                    assert(q.1 == p.1);
                    assert(q.0 == p.0.update(k - 1, marked_removed(cl[k - 1])));
                    assert forall|j: int|
                        0 <= j < k && is_live(#[trigger] q.0[j]) implies has_live_match(
                        q.1,
                        cl[j].content,
                    ) by {
                        if j < k - 1 {
                            assert(q.0[j] == p.0[j]);
                            assert(is_live(p.0[j]));
                        } else {
                            assert(q.0[j] == marked_removed(cl[k - 1]));
                            assert(!is_live(q.0[j]));
                        }
                    }
                }
            },
        }
    }
}

/// The client pass changes no server item's content or id, and everything it
/// appends to the server carries the content of some new client item.
pub proof fn lemma_client_pass_server_shape<C>(cl: Seq<ItemModel<C>>, sv: Seq<ItemModel<C>>, k: int)
    requires
        0 <= k <= cl.len(),
    ensures
        client_pass(cl, sv, k).1.len() >= sv.len(),
        forall|i: int|
            0 <= i < sv.len() ==> (#[trigger] client_pass(cl, sv, k).1[i]).content == sv[i].content
                && client_pass(cl, sv, k).1[i].id == sv[i].id,
        forall|i: int|
            sv.len() <= i < client_pass(cl, sv, k).1.len() ==> exists|j: int|
                0 <= j < k && cl[j].state == ItemState::New && (#[trigger] client_pass(
                    cl,
                    sv,
                    k,
                ).1[i]).content == cl[j].content,
    decreases k,
{
    if k > 0 {
        lemma_client_pass_server_shape(cl, sv, k - 1);
        lemma_client_pass_frame(cl, sv, k - 1);
        let p = client_pass(cl, sv, k - 1);
        let q = client_pass(cl, sv, k);
        assert(p.0[k - 1] == cl[k - 1]);
        match cl[k - 1].state {
            ItemState::Removed => {
                lemma_mark_first_effect(p.1, cl[k - 1].content, cl[k - 1].content);
                assert forall|i: int| sv.len() <= i < q.1.len() implies exists|j: int|
                    0 <= j < k && cl[j].state == ItemState::New && (#[trigger] q.1[i]).content
                        == cl[j].content by {
                    assert(q.1[i].content == p.1[i].content);
                    let j = choose|j: int|
                        0 <= j < k - 1 && cl[j].state == ItemState::New && p.1[i].content
                            == cl[j].content;
                    assert(0 <= j < k && cl[j].state == ItemState::New && q.1[i].content
                        == cl[j].content);
                }
            },
            ItemState::New => {
                assert forall|i: int| sv.len() <= i < q.1.len() implies exists|j: int|
                    0 <= j < k && cl[j].state == ItemState::New && (#[trigger] q.1[i]).content
                        == cl[j].content by {
                    if i < p.1.len() {
                        let j = choose|j: int|
                            0 <= j < k - 1 && cl[j].state == ItemState::New && p.1[i].content
                                == cl[j].content;
                        assert(0 <= j < k && cl[j].state == ItemState::New && q.1[i].content
                            == cl[j].content);
                    } else {
                        assert(q.1[i].content == cl[k - 1].content);
                        assert(0 <= k - 1 < k && cl[k - 1].state == ItemState::New && q.1[i].content
                            == cl[k - 1].content);
                    }
                }
            },
            ItemState::Neutral => {
                assert forall|i: int| sv.len() <= i < q.1.len() implies exists|j: int|
                    0 <= j < k && cl[j].state == ItemState::New && (#[trigger] q.1[i]).content
                        == cl[j].content by {
                    let j = choose|j: int|
                        0 <= j < k - 1 && cl[j].state == ItemState::New && p.1[i].content
                            == cl[j].content;
                    assert(0 <= j < k && cl[j].state == ItemState::New && q.1[i].content
                        == cl[j].content);
                }
            },
        }
    }
}

/// The client pass never raises the client store's live count of a content:
/// it only marks settled items as removed.
proof fn lemma_client_pass_client_count<C>(cl: Seq<ItemModel<C>>, sv: Seq<ItemModel<C>>, c: C, k: int)
    requires
        0 <= k <= cl.len(),
    ensures
        count_live(client_pass(cl, sv, k).0, c) <= count_live(cl, c),
    decreases k,
{
    if k == 0 {
    } else {
        lemma_client_pass_client_count(cl, sv, c, k - 1);
        lemma_client_pass_frame(cl, sv, k - 1);
        let p = client_pass(cl, sv, k - 1);
        if cl[k - 1].state == ItemState::Neutral && !has_any_match(p.1, cl[k - 1].content) {
            lemma_count_live_mark(p.0, c, k - 1);
        }
    }
}

/// Through the fill pass the client's live count of a content stays as it
/// was, except that a missing content held live by the processed part of the
/// server is filled in exactly once.
proof fn lemma_fill_pass_count<C>(cl: Seq<ItemModel<C>>, sv: Seq<ItemModel<C>>, c: C, k: int)
    requires
        0 <= k <= sv.len(),
    ensures
        count_live(fill_pass(cl, sv, k), c) == if count_live(cl, c) > 0 {
            count_live(cl, c)
        } else if exists|i: int|
            0 <= i < k && is_live(#[trigger] sv[i]) && sv[i].content == c {
            1int
        } else {
            0int
        },
    decreases k,
{
    lemma_count_live_nonneg(cl, c);
    if k > 0 {
        lemma_fill_pass_count(cl, sv, c, k - 1);
        let f = fill_pass(cl, sv, k - 1);
        lemma_count_live_nonneg(f, c);
        lemma_has_live_match_iff_count(f, c);
        if is_live(sv[k - 1]) && !has_live_match(f, sv[k - 1].content) {
            lemma_has_live_match_iff_count(f, sv[k - 1].content);
            lemma_count_live_push(
                f,
                c,
                ItemModel { content: sv[k - 1].content, state: ItemState::New, id: f.len() as int },
            );
            if sv[k - 1].content == c {
                assert(0 <= k - 1 < k && is_live(sv[k - 1]) && sv[k - 1].content == c);
            }
        } else {
            if exists|i: int| 0 <= i < k && is_live(#[trigger] sv[i]) && sv[i].content == c {
                let i = choose|i: int|
                    0 <= i < k && is_live(#[trigger] sv[i]) && sv[i].content == c;
                if i == k - 1 && count_live(cl, c) == 0 {
                    assert(is_live(sv[k - 1]));
                    assert(has_live_match(f, c));
                }
            }
        }
    }
}

/// No fan-out on the client: after a sync against a settled server, no
/// content is held live by the client store more often than the larger of
/// its live counts in the two input stores.
pub proof fn lemma_sync_client_no_fanout<C>(cl: Seq<ItemModel<C>>, sv: Seq<ItemModel<C>>, c: C)
    requires
        forall|i: int| 0 <= i < sv.len() ==> (#[trigger] sv[i]).state == ItemState::Neutral,
    ensures
        count_live(spec_sync(cl, sv).0, c) <= if count_live(cl, c) >= count_live(sv, c) {
            count_live(cl, c)
        } else {
            count_live(sv, c)
        },
{
    let n = cl.len() as int;
    let p = client_pass(cl, sv, n);
    lemma_client_pass_frame(cl, sv, n);
    lemma_client_pass_server_shape(cl, sv, n);
    lemma_client_pass_client_count(cl, sv, c, n);
    let m = p.1.len() as int;
    let filled = fill_pass(p.0, p.1, m);
    lemma_fill_pass_count(p.0, p.1, c, m);
    lemma_count_live_nonneg(cl, c);
    lemma_count_live_nonneg(sv, c);
    lemma_count_live_nonneg(p.0, c);
    if count_live(p.0, c) == 0 && exists|i: int|
        0 <= i < m && is_live(#[trigger] p.1[i]) && p.1[i].content == c {
        // The filled-in copy comes from a live server item: it cannot come
        // from a new client item, since those are still live on the client.
        let i = choose|i: int| 0 <= i < m && is_live(#[trigger] p.1[i]) && p.1[i].content == c;
        if i < sv.len() {
            assert(sv[i].content == c);
            assert(is_live(sv[i]));
            assert(0 <= i < sv.len() && sv[i].content == c && is_live(sv[i]));
            assert(has_live_match(sv, c));
            lemma_has_live_match_iff_count(sv, c);
        } else {
            let j = choose|j: int|
                0 <= j < n && cl[j].state == ItemState::New && p.1[i].content == cl[j].content;
            assert(p.0[j] == cl[j]);
            assert(is_live(p.0[j]));
            assert(0 <= j < p.0.len() && p.0[j].content == c && is_live(p.0[j]));
            assert(has_live_match(p.0, c));
            lemma_has_live_match_iff_count(p.0, c);
            assert(false);
        }
    }
    lemma_normalize_count(filled, c);
}

/// The server fill pass only appends: it keeps the client items in place,
/// appends only live copies of contents the server holds live and the client
/// did not, never appends a content twice, and afterwards every live server
/// item has a live client match.
pub proof fn lemma_fill_pass_props<C>(cl: Seq<ItemModel<C>>, sv: Seq<ItemModel<C>>, k: int)
    requires
        0 <= k <= sv.len(),
    ensures
        fill_pass(cl, sv, k).len() >= cl.len(),
        forall|j: int| 0 <= j < cl.len() ==> (#[trigger] fill_pass(cl, sv, k)[j]) == cl[j],
        forall|j: int|
            cl.len() <= j < fill_pass(cl, sv, k).len() ==> is_live(
                #[trigger] fill_pass(cl, sv, k)[j],
            ) && has_live_match(sv, fill_pass(cl, sv, k)[j].content),
        forall|i: int|
            0 <= i < k && is_live(#[trigger] sv[i]) ==> has_live_match(
                fill_pass(cl, sv, k),
                sv[i].content,
            ),
        forall|j1: int, j2: int|
            cl.len() <= j1 < j2 < fill_pass(cl, sv, k).len() ==> (#[trigger] fill_pass(
                cl,
                sv,
                k,
            )[j1]).content != (#[trigger] fill_pass(cl, sv, k)[j2]).content,
        forall|j1: int, j2: int|
            0 <= j1 < cl.len() && cl.len() <= j2 < fill_pass(cl, sv, k).len() && is_live(
                #[trigger] cl[j1],
            ) ==> cl[j1].content != (#[trigger] fill_pass(cl, sv, k)[j2]).content,
    decreases k,
{
    if k > 0 {
        lemma_fill_pass_props(cl, sv, k - 1);
        let f = fill_pass(cl, sv, k - 1);
        let g = fill_pass(cl, sv, k);
        if is_live(sv[k - 1]) && !has_live_match(f, sv[k - 1].content) {
            let c = sv[k - 1].content;
            let pushed = ItemModel { content: c, state: ItemState::New, id: f.len() as int };
            assert(g == f.push(pushed));
            assert(0 <= k - 1 < sv.len() && sv[k - 1].content == c && is_live(sv[k - 1]));
            assert(has_live_match(sv, c));
            assert forall|i: int|
                0 <= i < k && is_live(#[trigger] sv[i]) implies has_live_match(
                g,
                sv[i].content,
            ) by {
                if i < k - 1 {
                    let w = choose|w: int|
                        0 <= w < f.len() && f[w].content == sv[i].content && is_live(f[w]);
                    assert(g[w] == f[w]);
                    assert(has_live_match(g, sv[i].content));
                } else {
                    assert(g[g.len() - 1] == pushed);
                    assert(has_live_match(g, c));
                }
            }
            assert forall|j1: int, j2: int|
                cl.len() <= j1 < j2 < g.len() implies (#[trigger] g[j1]).content
                != (#[trigger] g[j2]).content by {
                if j2 < f.len() {
                } else {
                    assert(g[j2] == pushed);
                    assert(g[j1] == f[j1]);
                    assert(is_live(f[j1]));
                    if f[j1].content == c {
                        assert(has_live_match(f, c));
                        assert(false);
                    }
                }
            }
            assert forall|j1: int, j2: int|
                0 <= j1 < cl.len() && cl.len() <= j2 < g.len() && is_live(
                    #[trigger] cl[j1],
                ) implies cl[j1].content != (#[trigger] g[j2]).content by {
                if j2 < f.len() {
                } else {
                    assert(g[j2] == pushed);
                    assert(f[j1] == cl[j1]);
                    if cl[j1].content == c {
                        assert(has_live_match(f, c));
                        assert(false);
                    }
                }
            }
        } else {
            assert(g == f);
            assert forall|i: int|
                0 <= i < k && is_live(#[trigger] sv[i]) implies has_live_match(
                g,
                sv[i].content,
            ) by {
                if i < k - 1 {
                } else {
                    assert(has_live_match(f, sv[k - 1].content));
                }
            }
        }
    }
}

/// A sequence with no item of a content in a state has count zero of them.
proof fn lemma_count_in_state_zero<C>(s: Seq<ItemModel<C>>, c: C, st: ItemState)
    requires
        forall|j: int| 0 <= j < s.len() ==> !((#[trigger] s[j]).content == c && s[j].state == st),
    ensures
        count_in_state(s, c, st) == 0,
    decreases s.len(),
{
    if s.len() > 0 {
        assert(forall|j: int|
            0 <= j < s.drop_last().len() ==> (#[trigger] s.drop_last()[j]) == s[j]);
        lemma_count_in_state_zero(s.drop_last(), c, st);
    }
}

/// When no two items share a content, each content is held in a state at
/// most once.
proof fn lemma_count_in_state_le_one<C>(s: Seq<ItemModel<C>>, c: C, st: ItemState)
    requires
        forall|j1: int, j2: int|
            0 <= j1 < j2 < s.len() ==> (#[trigger] s[j1]).content != (#[trigger] s[j2]).content,
    ensures
        count_in_state(s, c, st) <= 1,
    decreases s.len(),
{
    if s.len() > 0 {
        let dl = s.drop_last();
        assert(forall|j: int| 0 <= j < dl.len() ==> (#[trigger] dl[j]) == s[j]);
        if s.last().content == c && s.last().state == st {
            assert(forall|j: int|
                0 <= j < dl.len() ==> !((#[trigger] dl[j]).content == c && dl[j].state == st));
            lemma_count_in_state_zero(dl, c, st);
        } else {
            lemma_count_in_state_le_one(dl, c, st);
        }
    }
}

/// Every element of the live part is live and comes from the sequence.
proof fn lemma_live_part_elems<C>(s: Seq<ItemModel<C>>)
    ensures
        forall|i: int|
            0 <= i < live_part(s).len() ==> is_live(#[trigger] live_part(s)[i]) && exists|j: int|
                0 <= j < s.len() && s[j] == live_part(s)[i],
    decreases s.len(),
{
    if s.len() > 0 {
        let dl = s.drop_last();
        lemma_live_part_elems(dl);
        assert forall|i: int| 0 <= i < live_part(s).len() implies is_live(
            #[trigger] live_part(s)[i],
        ) && exists|j: int| 0 <= j < s.len() && s[j] == live_part(s)[i] by {
            if i < live_part(dl).len() {
                assert(live_part(s)[i] == live_part(dl)[i]);
                let j = choose|j: int| 0 <= j < dl.len() && dl[j] == live_part(dl)[i];
                assert(s[j] == dl[j]);
                assert(s[j] == live_part(s)[i]);
            } else {
                assert(is_live(s.last()));
                assert(live_part(s)[i] == s.last());
                assert(s[s.len() - 1] == live_part(s)[i]);
            }
        }
    }
}

/// Two sequences of the same length whose items agree pointwise in content
/// and liveness have the same live counts.
proof fn lemma_count_live_pointwise<C>(t: Seq<ItemModel<C>>, u: Seq<ItemModel<C>>, c: C)
    requires
        t.len() == u.len(),
        forall|i: int|
            0 <= i < t.len() ==> (#[trigger] t[i]).content == u[i].content && is_live(t[i])
                == is_live(u[i]),
    ensures
        count_live(t, c) == count_live(u, c),
    decreases t.len(),
{
    if t.len() > 0 {
        assert(forall|i: int|
            0 <= i < t.drop_last().len() ==> (#[trigger] t.drop_last()[i]) == t[i]
                && u.drop_last()[i] == u[i]);
        lemma_count_live_pointwise(t.drop_last(), u.drop_last(), c);
        assert(t.last() == t[t.len() - 1] && u.last() == u[u.len() - 1]);
    }
}

/// The live part keeps the live count of every content.
proof fn lemma_count_live_live_part<C>(s: Seq<ItemModel<C>>, c: C)
    ensures
        count_live(live_part(s), c) == count_live(s, c),
    decreases s.len(),
{
    if s.len() > 0 {
        lemma_count_live_live_part(s.drop_last(), c);
        if is_live(s.last()) {
            lemma_count_live_push(live_part(s.drop_last()), c, s.last());
        }
    }
}

/// Normalizing keeps the live count of every content.
pub proof fn lemma_normalize_count<C>(s: Seq<ItemModel<C>>, c: C)
    ensures
        count_live(normalize(s), c) == count_live(s, c),
{
    lemma_live_part_elems(s);
    lemma_count_live_pointwise(normalize(s), live_part(s), c);
    lemma_count_live_live_part(s, c);
}

/// Normalizing keeps which contents are held live.
pub proof fn lemma_normalize_has_live<C>(s: Seq<ItemModel<C>>, c: C)
    ensures
        has_live_match(normalize(s), c) == has_live_match(s, c),
{
    lemma_normalize_count(s, c);
    lemma_has_live_match_iff_count(normalize(s), c);
    lemma_has_live_match_iff_count(s, c);
}

/// The client pass over two normalized stores with the same live contents
/// changes nothing.
proof fn lemma_client_pass_identity<C>(cl: Seq<ItemModel<C>>, sv: Seq<ItemModel<C>>, k: int)
    requires
        0 <= k <= cl.len(),
        is_normalized(cl),
        is_normalized(sv),
        forall|c: C| #[trigger] has_live_match(cl, c) == has_live_match(sv, c),
    ensures
        client_pass(cl, sv, k) == (cl, sv),
    decreases k,
{
    if k > 0 {
        lemma_client_pass_identity(cl, sv, k - 1);
        assert(cl[k - 1].state == ItemState::Neutral);
        let c = cl[k - 1].content;
        assert(0 <= k - 1 < cl.len() && cl[k - 1].content == c && is_live(cl[k - 1]));
        assert(has_live_match(cl, c));
        assert(has_live_match(sv, c));
        let w = choose|w: int| 0 <= w < sv.len() && sv[w].content == c && is_live(sv[w]);
        assert(has_any_match(sv, c));
        assert(client_pass(cl, sv, k) == (cl, sv));
    }
}

/// The fill pass from a store that already holds every live server content
/// changes nothing.
proof fn lemma_fill_pass_identity<C>(cl: Seq<ItemModel<C>>, sv: Seq<ItemModel<C>>, k: int)
    requires
        0 <= k <= sv.len(),
        forall|c: C| #[trigger] has_live_match(sv, c) ==> has_live_match(cl, c),
    ensures
        fill_pass(cl, sv, k) == cl,
    decreases k,
{
    if k > 0 {
        lemma_fill_pass_identity(cl, sv, k - 1);
        if is_live(sv[k - 1]) {
            assert(0 <= k - 1 < sv.len() && sv[k - 1].content == sv[k - 1].content && is_live(
                sv[k - 1],
            ));
            assert(has_live_match(sv, sv[k - 1].content));
            assert(has_live_match(cl, sv[k - 1].content));
        }
    }
}

/// Syncing two normalized stores that hold the same live contents leaves
/// both exactly unchanged.
pub proof fn lemma_sync_fixed_point<C>(cl: Seq<ItemModel<C>>, sv: Seq<ItemModel<C>>)
    requires
        is_normalized(cl),
        is_normalized(sv),
        forall|c: C| #[trigger] has_live_match(cl, c) == has_live_match(sv, c),
    ensures
        spec_sync(cl, sv) == (cl, sv),
{
    lemma_client_pass_identity(cl, sv, cl.len() as int);
    assert forall|c: C| #[trigger] has_live_match(sv, c) implies has_live_match(cl, c) by {
    }
    lemma_fill_pass_identity(cl, sv, sv.len() as int);
    lemma_normalize_identity(cl);
    lemma_normalize_identity(sv);
}

/// Sync is idempotent: after a sync of a client against a settled server
/// where no removed client item shares its content with a client item that
/// is not removed, both outputs hold the same live contents, and an
/// immediate second sync of the pair changes nothing at all.
pub proof fn lemma_sync_idempotent<C>(cl: Seq<ItemModel<C>>, sv: Seq<ItemModel<C>>)
    requires
        forall|i: int| 0 <= i < sv.len() ==> (#[trigger] sv[i]).state == ItemState::Neutral,
        forall|j1: int, j2: int|
            0 <= j1 < cl.len() && 0 <= j2 < cl.len() && (#[trigger] cl[j1]).state
                == ItemState::Removed && (#[trigger] cl[j2]).state != ItemState::Removed
                ==> cl[j1].content != cl[j2].content,
    ensures
        ({
            let r = spec_sync(cl, sv);
            &&& forall|c: C| #[trigger] has_live_match(r.0, c) == has_live_match(r.1, c)
            &&& spec_sync(r.0, r.1) == r
        }),
{
    let n = cl.len() as int;
    let p = client_pass(cl, sv, n);
    lemma_client_pass_live_matches(cl, sv, n);
    lemma_client_pass_frame(cl, sv, n);
    let m = p.1.len() as int;
    let filled = fill_pass(p.0, p.1, m);
    lemma_fill_pass_props(p.0, p.1, m);
    let r0 = normalize(filled);
    let r1 = normalize(p.1);
    assert forall|c: C| #[trigger] has_live_match(filled, c) == has_live_match(p.1, c) by {
        if has_live_match(filled, c) {
            let w = choose|w: int|
                0 <= w < filled.len() && filled[w].content == c && is_live(filled[w]);
            if w < p.0.len() {
                assert(filled[w] == p.0[w]);
                assert(p.0[w] == cl[w] || (cl[w].state == ItemState::Neutral && p.0[w]
                    == marked_removed(cl[w])));
                assert(cl[w].content == c);
                assert(has_live_match(p.1, c));
            } else {
                assert(has_live_match(p.1, filled[w].content));
            }
        }
        if has_live_match(p.1, c) {
            let i = choose|i: int| 0 <= i < p.1.len() && p.1[i].content == c && is_live(p.1[i]);
            assert(has_live_match(filled, p.1[i].content));
        }
    }
    assert forall|c: C| #[trigger] has_live_match(r0, c) == has_live_match(r1, c) by {
        lemma_normalize_has_live(filled, c);
        lemma_normalize_has_live(p.1, c);
    }
    lemma_normalize_is_normalized(filled);
    lemma_normalize_is_normalized(p.1);
    lemma_sync_fixed_point(r0, r1);
}

/// No duplication: when the contents on each side are pairwise distinct and
/// no new client item is already present on the server, a sync gives both
/// stores the same multiset of contents, each content held at most once.
pub proof fn lemma_sync_no_duplication<C>(cl: Seq<ItemModel<C>>, sv: Seq<ItemModel<C>>, c: C)
    requires
        forall|i: int| 0 <= i < sv.len() ==> (#[trigger] sv[i]).state == ItemState::Neutral,
        forall|j1: int, j2: int|
            0 <= j1 < j2 < cl.len() ==> (#[trigger] cl[j1]).content != (#[trigger] cl[j2]).content,
        forall|i1: int, i2: int|
            0 <= i1 < i2 < sv.len() ==> (#[trigger] sv[i1]).content != (#[trigger] sv[i2]).content,
        forall|j: int, i: int|
            0 <= j < cl.len() && 0 <= i < sv.len() && (#[trigger] cl[j]).state == ItemState::New
                ==> cl[j].content != (#[trigger] sv[i]).content,
    ensures
        count_live(spec_sync(cl, sv).0, c) == count_live(spec_sync(cl, sv).1, c),
        count_live(spec_sync(cl, sv).0, c) <= 1,
{
    let n = cl.len() as int;
    let p = client_pass(cl, sv, n);
    lemma_client_pass_frame(cl, sv, n);
    let m = p.1.len() as int;
    let filled = fill_pass(p.0, p.1, m);
    lemma_fill_pass_props(p.0, p.1, m);
    // A removal never collides with a surviving client item, since all
    // client contents are pairwise distinct.
    assert forall|j1: int, j2: int|
        0 <= j1 < cl.len() && 0 <= j2 < cl.len() && (#[trigger] cl[j1]).state
            == ItemState::Removed && (#[trigger] cl[j2]).state != ItemState::Removed implies
        cl[j1].content != cl[j2].content by {
        if j1 < j2 {
        } else {
            assert(j2 < j1);
        }
    }
    // Server side: each content stays at most once.
    assert(distinct_live_contents(sv));
    lemma_count_le_one_of_distinct(sv, c);
    lemma_count_live_nonneg(sv, c);
    if exists|j: int|
        0 <= j < cl.len() && (#[trigger] cl[j]).state == ItemState::Removed && cl[j].content == c {
        let j0 = choose|j: int|
            0 <= j < cl.len() && (#[trigger] cl[j]).state == ItemState::Removed && cl[j].content
                == c;
        assert forall|j: int|
            0 <= j < cl.len() && (#[trigger] cl[j]).state == ItemState::New implies cl[j].content
            != c by {
            if j < j0 {
            } else {
                assert(j0 < j);
            }
        }
        lemma_client_pass_count_removed(cl, sv, c, n);
        lemma_count_in_state_nonneg(cl.take(n), c, ItemState::Removed);
    } else {
        assert forall|j: int|
            0 <= j < cl.len() && (#[trigger] cl[j]).state == ItemState::Removed implies
            cl[j].content != c by {
        }
        lemma_client_pass_count(cl, sv, c, n);
        assert(cl.take(n) =~= cl);
        lemma_count_in_state_nonneg(cl, c, ItemState::New);
        lemma_count_in_state_le_one(cl, c, ItemState::New);
        if count_in_state(cl, c, ItemState::New) > 0 {
            lemma_count_in_state_iff(cl, c, ItemState::New);
            let j = choose|j: int|
                0 <= j < cl.len() && (#[trigger] cl[j]).content == c && cl[j].state
                    == ItemState::New;
            assert(forall|i: int|
                0 <= i < sv.len() ==> !((#[trigger] sv[i]).content == c && is_live(sv[i])));
            lemma_count_live_zero(sv, c);
        }
    }
    assert(count_live(p.1, c) <= 1);
    // Client side: the filled store keeps live contents pairwise distinct.
    assert forall|i1: int, i2: int|
        0 <= i1 < i2 < filled.len() && is_live(#[trigger] filled[i1]) && is_live(
            #[trigger] filled[i2],
        ) implies filled[i1].content != filled[i2].content by {
        if i2 < p.0.len() {
            assert(filled[i1] == p.0[i1] && filled[i2] == p.0[i2]);
            assert(p.0[i1] == cl[i1] || (cl[i1].state == ItemState::Neutral && p.0[i1]
                == marked_removed(cl[i1])));
            assert(p.0[i2] == cl[i2] || (cl[i2].state == ItemState::Neutral && p.0[i2]
                == marked_removed(cl[i2])));
            assert(filled[i1].content == cl[i1].content);
            assert(filled[i2].content == cl[i2].content);
        } else if i1 < p.0.len() {
            assert(filled[i1] == p.0[i1]);
        } else {
        }
    }
    lemma_count_le_one_of_distinct(filled, c);
    // Both sides hold the same live contents, so with counts of at most one
    // the counts agree.
    lemma_sync_idempotent(cl, sv);
    lemma_normalize_count(filled, c);
    lemma_normalize_count(p.1, c);
    lemma_has_live_match_iff_count(spec_sync(cl, sv).0, c);
    lemma_has_live_match_iff_count(spec_sync(cl, sv).1, c);
    lemma_count_live_nonneg(spec_sync(cl, sv).0, c);
    lemma_count_live_nonneg(spec_sync(cl, sv).1, c);
}

/// Removal propagates: when every client copy of a content is marked removed,
/// at least one is, and the settled server holds exactly one live copy, a
/// sync leaves both stores without any live item of that content.
pub proof fn lemma_sync_removal_propagates<C>(cl: Seq<ItemModel<C>>, sv: Seq<ItemModel<C>>, x: C)
    requires
        forall|i: int| 0 <= i < sv.len() ==> (#[trigger] sv[i]).state == ItemState::Neutral,
        count_live(sv, x) == 1,
        exists|j: int|
            0 <= j < cl.len() && (#[trigger] cl[j]).state == ItemState::Removed && cl[j].content
                == x,
        forall|j: int|
            0 <= j < cl.len() && (#[trigger] cl[j]).content == x ==> cl[j].state
                == ItemState::Removed,
    ensures
        !has_live_match(spec_sync(cl, sv).0, x),
        !has_live_match(spec_sync(cl, sv).1, x),
{
    let n = cl.len() as int;
    let p = client_pass(cl, sv, n);
    lemma_client_pass_frame(cl, sv, n);
    let m = p.1.len() as int;
    let filled = fill_pass(p.0, p.1, m);
    lemma_fill_pass_props(p.0, p.1, m);
    // The server ends without a live copy: the one copy is marked by the
    // removed client item, and no new client item re-adds the content.
    assert(forall|j: int|
        0 <= j < cl.len() && (#[trigger] cl[j]).state == ItemState::New ==> cl[j].content != x);
    lemma_client_pass_count_removed(cl, sv, x, n);
    assert(cl.take(n) =~= cl);
    let j0 = choose|j: int|
        0 <= j < cl.len() && (#[trigger] cl[j]).state == ItemState::Removed && cl[j].content == x;
    assert(cl[j0].content == x && cl[j0].state == ItemState::Removed);
    lemma_count_in_state_iff(cl, x, ItemState::Removed);
    assert(count_in_state(cl, x, ItemState::Removed) > 0);
    assert(count_live(p.1, x) == 0);
    lemma_has_live_match_iff_count(p.1, x);
    // The client ends without a live copy: its own copies stay removed, and
    // the fill pass only copies contents the server still holds live.
    assert forall|w: int|
        0 <= w < filled.len() && filled[w].content == x implies !is_live(filled[w]) by {
        if w < p.0.len() {
            assert(filled[w] == p.0[w]);
            assert(p.0[w] == cl[w] || (cl[w].state == ItemState::Neutral && p.0[w]
                == marked_removed(cl[w])));
            if is_live(filled[w]) {
                assert(cl[w].content == x);
                assert(cl[w].state == ItemState::Removed);
                assert(p.0[w] == cl[w]);
                assert(false);
            }
        } else {
            if is_live(filled[w]) {
                assert(has_live_match(p.1, filled[w].content));
                assert(false);
            }
        }
    }
    lemma_normalize_has_live(filled, x);
    lemma_normalize_has_live(p.1, x);
}

/// Addition propagates to the server: a new client item's content appears
/// live on the server after a sync, provided no removed client item carries
/// the same content.
pub proof fn lemma_sync_addition_to_server<C>(cl: Seq<ItemModel<C>>, sv: Seq<ItemModel<C>>, c: C)
    requires
        exists|j: int|
            0 <= j < cl.len() && (#[trigger] cl[j]).state == ItemState::New && cl[j].content == c,
        forall|j: int|
            0 <= j < cl.len() && (#[trigger] cl[j]).state == ItemState::Removed ==> cl[j].content
                != c,
    ensures
        has_live_match(spec_sync(cl, sv).1, c),
{
    let n = cl.len() as int;
    lemma_client_pass_count(cl, sv, c, n);
    assert(cl.take(n) =~= cl);
    let j0 = choose|j: int|
        0 <= j < cl.len() && (#[trigger] cl[j]).state == ItemState::New && cl[j].content == c;
    assert(cl[j0].content == c && cl[j0].state == ItemState::New);
    lemma_count_in_state_iff(cl, c, ItemState::New);
    lemma_count_live_nonneg(sv, c);
    let p = client_pass(cl, sv, n);
    assert(count_live(p.1, c) > 0);
    lemma_has_live_match_iff_count(p.1, c);
    lemma_normalize_has_live(p.1, c);
}

/// Addition propagates to the client: a content the server holds live
/// appears live on the client after a sync, provided no removed client item
/// carries the same content.
pub proof fn lemma_sync_addition_to_client<C>(cl: Seq<ItemModel<C>>, sv: Seq<ItemModel<C>>, c: C)
    requires
        has_live_match(sv, c),
        forall|j: int|
            0 <= j < cl.len() && (#[trigger] cl[j]).state == ItemState::Removed ==> cl[j].content
                != c,
    ensures
        has_live_match(spec_sync(cl, sv).0, c),
{
    let n = cl.len() as int;
    lemma_client_pass_count(cl, sv, c, n);
    assert(cl.take(n) =~= cl);
    lemma_count_in_state_nonneg(cl, c, ItemState::New);
    lemma_has_live_match_iff_count(sv, c);
    let p = client_pass(cl, sv, n);
    assert(count_live(p.1, c) > 0);
    lemma_has_live_match_iff_count(p.1, c);
    let m = p.1.len() as int;
    let filled = fill_pass(p.0, p.1, m);
    lemma_fill_pass_props(p.0, p.1, m);
    let i = choose|i: int| 0 <= i < p.1.len() && p.1[i].content == c && is_live(p.1[i]);
    assert(has_live_match(filled, p.1[i].content));
    lemma_normalize_has_live(filled, c);
}

/// Expiry: after the expiry sweep and a normalization, no remaining item is
/// expired on the evaluation date.
pub proof fn lemma_expired_items_dropped<T: MtcItem>(s: Seq<ItemModel<T::Content>>, today: crate::date::Date)
    ensures
        forall|i: int|
            0 <= i < normalize(mark_expired::<T>(s, today)).len() ==> !T::content_expired(
                (#[trigger] normalize(mark_expired::<T>(s, today))[i]).content,
                today,
            ),
{
    let me = mark_expired::<T>(s, today);
    lemma_live_part_elems(me);
    assert forall|i: int| 0 <= i < normalize(me).len() implies !T::content_expired(
        (#[trigger] normalize(me)[i]).content,
        today,
    ) by {
        assert(normalize(me)[i].content == live_part(me)[i].content);
        assert(is_live(live_part(me)[i]));
        let j = choose|j: int| 0 <= j < me.len() && me[j] == live_part(me)[i];
        if T::content_expired(s[j].content, today) {
            assert(me[j] == marked_removed(s[j]));
            assert(!is_live(me[j]));
            assert(false);
        } else {
            assert(me[j] == s[j]);
        }
    }
}

} // verus!
