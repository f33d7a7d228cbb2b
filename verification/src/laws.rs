//! Store-wide laws: what holds of every store and every input, proved
//! once over the same transitions the operations' contracts use.
use vstd::prelude::*;

use crate::node::NodeV;
use crate::node::node_key;
use crate::node::node_key_fn;
use crate::render::spec_render_listing;
use crate::sorting::lemma_sort_by_key_sorted_id;
use crate::sorting::sort_by_key;
use crate::sorting::sorted_by_key;
use crate::store::CategoryV;
use crate::store::StoreV;
use crate::store::TicketV;
use crate::store::cat_wf;
use crate::store::find_cat;
use crate::store::find_ticket;
use crate::store::has_cat;
use crate::store::has_ticket;
use crate::store::lemma_find_cat;
use crate::store::lemma_find_cat_at;
use crate::store::lemma_find_cat_names;
use crate::store::lemma_find_ticket;
use crate::store::lemma_find_ticket_at;
use crate::store::node_of;
use crate::store::nodes_of;
use crate::store::lemma_put_wf;
use crate::store::lemma_remove_at_wf;
use crate::store::replace_ticket;
use crate::store::spec_move;
use crate::store::spec_move_children;
use crate::store::spec_movable;
use crate::store::spec_put;
use crate::store::store_wf;
use crate::store::with_cat_tickets;
use crate::store::without_ticket;

verus! {

/// Distinct ticket ids, as category well-formedness guarantees them.
pub open spec fn distinct_ids(ts: Seq<TicketV>) -> bool {
    forall|i: int, j: int| 0 <= i < j < ts.len() ==> ts[i].id != ts[j].id
}

/// Writing a ticket makes it findable with exactly the written content,
/// and touches no ticket of another id: the one at any other id is the
/// very element it was.
pub proof fn lemma_replace_found(ts: Seq<TicketV>, t: TicketV)
    requires
        distinct_ids(ts),
    ensures
        ({
            let r = replace_ticket(ts, t);
            let i = find_ticket(r, t.id);
            &&& 0 <= i < r.len()
            &&& r[i] == t
            &&& forall|id2: Seq<char>|
                id2 != t.id ==> #[trigger] find_ticket(r, id2) == find_ticket(ts, id2)
            &&& forall|id2: Seq<char>|
                id2 != t.id && find_ticket(ts, id2) >= 0 ==> r[#[trigger] find_ticket(r, id2)]
                    == ts[find_ticket(ts, id2)]
        }),
{
    let r = replace_ticket(ts, t);
    let i0 = find_ticket(ts, t.id);
    lemma_find_ticket(ts, t.id);
    if i0 < 0 {
        assert(r == ts.push(t));
        lemma_find_ticket_at(r, t.id, ts.len() as int);
    } else {
        assert(r == ts.update(i0, t));
        assert(r[i0].id == t.id);
        assert forall|j: int| 0 <= j < i0 implies r[j].id != t.id by {
            assert(r[j] == ts[j]);
        }
        lemma_find_ticket_at(r, t.id, i0);
    }
    assert forall|id2: Seq<char>| id2 != t.id implies #[trigger] find_ticket(r, id2)
        == find_ticket(ts, id2) by {
        lemma_find_ticket(ts, id2);
        lemma_find_ticket(r, id2);
        let j = find_ticket(ts, id2);
        if j >= 0 {
            assert(ts[j].id == id2);
            if i0 < 0 {
                assert(r[j] == ts[j]);
                assert forall|w: int| 0 <= w < j implies r[w].id != id2 by {
                    assert(r[w] == ts[w]);
                }
                lemma_find_ticket_at(r, id2, j);
            } else {
                assert(ts[i0].id == t.id);
                assert(i0 != j);
                assert(r[j] == ts[j]);
                assert forall|w: int| 0 <= w < j implies r[w].id != id2 by {
                    if w == i0 {
                        assert(r[w].id == t.id);
                    } else {
                        assert(r[w] == ts[w]);
                    }
                }
                lemma_find_ticket_at(r, id2, j);
            }
        } else {
            if find_ticket(r, id2) >= 0 {
                let w = find_ticket(r, id2);
                assert(r[w].id == id2);
                if i0 < 0 {
                    if w < ts.len() {
                        assert(r[w] == ts[w]);
                    } else {
                        assert(r[w] == t);
                    }
                } else {
                    if w == i0 {
                        assert(r[w] == t);
                    } else {
                        assert(r[w] == ts[w]);
                    }
                }
                assert(false);
            }
        }
    }
    assert forall|id2: Seq<char>|
        id2 != t.id && find_ticket(ts, id2) >= 0 implies r[#[trigger] find_ticket(r, id2)]
        == ts[find_ticket(ts, id2)] by {
        lemma_find_ticket(ts, id2);
        let j = find_ticket(ts, id2);
        assert(find_ticket(r, id2) == j);
        if i0 >= 0 {
            assert(ts[i0].id == t.id);
            assert(i0 != j);
            assert(r[j] == ts[j]);
        } else {
            assert(r[j] == ts[j]);
        }
    }
}

/// Deleting a ticket removes exactly it: the id is gone, and the ticket
/// at any other id is the very element it was.
pub proof fn lemma_without_ticket(ts: Seq<TicketV>, id: Seq<char>)
    requires
        distinct_ids(ts),
    ensures
        ({
            let r = without_ticket(ts, id);
            &&& !has_ticket(r, id)
            &&& forall|id2: Seq<char>|
                id2 != id ==> (#[trigger] has_ticket(r, id2) == has_ticket(ts, id2))
            &&& forall|id2: Seq<char>|
                id2 != id && has_ticket(ts, id2) ==> r[#[trigger] find_ticket(r, id2)] == ts[
                    find_ticket(ts, id2)
                ]
        }),
{
    let r = without_ticket(ts, id);
    let i0 = find_ticket(ts, id);
    lemma_find_ticket(ts, id);
    if i0 < 0 {
        assert(r == ts);
        lemma_find_ticket(r, id);
        if find_ticket(r, id) >= 0 {
            assert(r[find_ticket(r, id)].id == id);
            assert(false);
        }
    } else {
        assert(r == ts.remove(i0));
        lemma_find_ticket(r, id);
        if find_ticket(r, id) >= 0 {
            let w = find_ticket(r, id);
            assert(r[w].id == id);
            assert(r[w] == if w < i0 {
                ts[w]
            } else {
                ts[w + 1]
            });
            assert(false);
        }
    }
    assert forall|id2: Seq<char>| id2 != id implies (#[trigger] has_ticket(r, id2) == has_ticket(
        ts,
        id2,
    )) by {
        lemma_find_ticket(ts, id2);
        lemma_find_ticket(r, id2);
        let j = find_ticket(ts, id2);
        if j >= 0 {
            if i0 < 0 {
            } else {
                assert(ts[i0].id == id);
                assert(j != i0);
                let jr = if j < i0 {
                    j
                } else {
                    j - 1
                };
                assert(r[jr] == ts[j]);
                if find_ticket(r, id2) < 0 {
                    assert(r[jr].id != id2);
                    assert(false);
                }
            }
        } else {
            if find_ticket(r, id2) >= 0 {
                let w = find_ticket(r, id2);
                assert(r[w].id == id2);
                if i0 >= 0 {
                    assert(r[w] == if w < i0 {
                        ts[w]
                    } else {
                        ts[w + 1]
                    });
                }
                assert(false);
            }
        }
    }
    assert forall|id2: Seq<char>|
        id2 != id && has_ticket(ts, id2) implies r[#[trigger] find_ticket(r, id2)] == ts[
        find_ticket(ts, id2)
    ] by {
        lemma_find_ticket(ts, id2);
        let j = find_ticket(ts, id2);
        assert(ts[j].id == id2);
        if i0 < 0 {
        } else {
            assert(ts[i0].id == id);
            assert(j != i0);
            let jr = if j < i0 {
                j
            } else {
                j - 1
            };
            assert(r[jr] == ts[j]);
            assert forall|w: int| 0 <= w < jr implies r[w].id != id2 by {
                assert(r[w] == if w < i0 {
                    ts[w]
                } else {
                    ts[w + 1]
                });
            }
            lemma_find_ticket_at(r, id2, jr);
        }
    }
}

/// Creating a category that was never created leaves it present in the
/// store; since the creation transition is guarded by exactly that
/// presence, repeating the creation is refused as already existing.
pub proof fn lemma_create_new_category(s0: StoreV, name: Seq<char>, now: u64)
    requires
        store_wf(s0),
        !has_cat(s0.categories, name),
    ensures
        ({
            let s1 = StoreV {
                initialized: true,
                categories: s0.categories.push(
                    CategoryV { name, tickets: Seq::<TicketV>::empty(), modified_at: now },
                ),
            };
            &&& has_cat(s1.categories, name)
            &&& s1.categories[find_cat(s1.categories, name)].tickets.len() == 0
        }),
{
    let s1 = StoreV {
        initialized: true,
        categories: s0.categories.push(
            CategoryV { name, tickets: Seq::<TicketV>::empty(), modified_at: now },
        ),
    };
    lemma_find_cat(s0.categories, name);
    assert forall|j: int| 0 <= j < s0.categories.len() implies s1.categories[j].name != name by {
        assert(s1.categories[j] == s0.categories[j]);
    }
    lemma_find_cat_at(s1.categories, name, s0.categories.len() as int);
}

/// What a write stores, a read finds: after writing content under an id
/// in a present category, that very content sits there, so its decoding
/// — first line trimmed as title, trimmed remainder as message, absent
/// when empty — is what any read of the ticket yields.
pub proof fn lemma_write_read_round_trip(
    s0: StoreV,
    cat: Seq<char>,
    id: Seq<char>,
    content: Seq<char>,
    now: u64,
)
    requires
        store_wf(s0),
        has_cat(s0.categories, cat),
    ensures
        ({
            let s1 = spec_put(s0, cat, TicketV { id, content, modified_at: now }, now);
            let ci = find_cat(s1.categories, cat);
            &&& 0 <= ci < s1.categories.len()
            &&& has_ticket(s1.categories[ci].tickets, id)
            &&& s1.categories[ci].tickets[find_ticket(s1.categories[ci].tickets, id)] == (TicketV {
                id,
                content,
                modified_at: now,
            })
        }),
{
    let t = TicketV { id, content, modified_at: now };
    let s1 = spec_put(s0, cat, t, now);
    lemma_find_cat(s0.categories, cat);
    let ci0 = find_cat(s0.categories, cat);
    assert(cat_wf(s0.categories[ci0]));
    lemma_replace_found(s0.categories[ci0].tickets, t);
    assert forall|j: int| 0 <= j < s1.categories.len() implies s1.categories[j].name
        == s0.categories[j].name by {
        if j != ci0 {
            assert(s1.categories[j] == s0.categories[j]);
        }
    }
    lemma_find_cat_names(s1.categories, s0.categories, cat);
    assert(find_cat(s1.categories, cat) == ci0);
    assert(s1.categories[ci0].tickets == replace_ticket(s0.categories[ci0].tickets, t));
}

/// An existing but empty category lists as an empty sequence, and its
/// rendering is the empty-listing marker.
pub proof fn lemma_empty_category_listing(name: Seq<char>)
    ensures
        sort_by_key(nodes_of(name, Seq::<TicketV>::empty()), node_key_fn())
            == Seq::<NodeV>::empty(),
        spec_render_listing(Seq::<NodeV>::empty()) == "NO TICKETS."@,
{
    assert(nodes_of(name, Seq::<TicketV>::empty()).len() == 0);
    assert(sort_by_key(nodes_of(name, Seq::<TicketV>::empty()), node_key_fn())
        == Seq::<NodeV>::empty());
}

/// A category whose tickets' timestamps already ascend in stored order
/// lists them in exactly that order — in particular, tickets created at
/// strictly increasing times come back in creation order, and the
/// rendered listing keeps it.
pub proof fn lemma_listing_keeps_ascending_order(name: Seq<char>, ts: Seq<TicketV>)
    requires
        forall|i: int, j: int| 0 <= i < j < ts.len() ==> ts[i].modified_at <= ts[j].modified_at,
    ensures
        sort_by_key(nodes_of(name, ts), node_key_fn()) == nodes_of(name, ts),
{
    let ns = nodes_of(name, ts);
    assert forall|i: int, j: int| 0 <= i < j < ns.len() implies node_key_fn()(ns[i])
        <= node_key_fn()(ns[j]) by {
        assert(ns[i] == node_of(name, ts[i]));
        assert(ns[j] == node_of(name, ts[j]));
        assert(node_key(ns[i]) == ts[i].modified_at as int);
        assert(node_key(ns[j]) == ts[j].modified_at as int);
    }
    assert(sorted_by_key(ns, node_key_fn()));
    lemma_sort_by_key_sorted_id(ns, node_key_fn());
}

/// Removing one ticket deletes only that file: its id is gone, every
/// sibling keeps its exact content, and every other category is
/// untouched.
pub proof fn lemma_remove_only_target(s0: StoreV, cat: Seq<char>, id: Seq<char>, now: u64)
    requires
        store_wf(s0),
        has_cat(s0.categories, cat),
        has_ticket(s0.categories[find_cat(s0.categories, cat)].tickets, id),
    ensures
        ({
            let ci = find_cat(s0.categories, cat);
            let ts = s0.categories[ci].tickets;
            let s1 = with_cat_tickets(s0, ci, ts.remove(find_ticket(ts, id)), now);
            &&& find_cat(s1.categories, cat) == ci
            &&& !has_ticket(s1.categories[ci].tickets, id)
            &&& forall|id2: Seq<char>|
                id2 != id ==> #[trigger] has_ticket(s1.categories[ci].tickets, id2) == has_ticket(
                    ts,
                    id2,
                )
            &&& forall|id2: Seq<char>|
                id2 != id && has_ticket(ts, id2) ==> s1.categories[ci].tickets[#[trigger]
                find_ticket(s1.categories[ci].tickets, id2)] == ts[find_ticket(ts, id2)]
            &&& forall|j: int|
                0 <= j < s1.categories.len() && j != ci ==> s1.categories[j] == s0.categories[j]
        }),
{
    let ci = find_cat(s0.categories, cat);
    lemma_find_cat(s0.categories, cat);
    let ts = s0.categories[ci].tickets;
    assert(cat_wf(s0.categories[ci]));
    lemma_find_ticket(ts, id);
    assert(without_ticket(ts, id) == ts.remove(find_ticket(ts, id)));
    lemma_without_ticket(ts, id);
    let s1 = with_cat_tickets(s0, ci, ts.remove(find_ticket(ts, id)), now);
    assert forall|j: int| 0 <= j < s1.categories.len() implies s1.categories[j].name
        == s0.categories[j].name by {
        if j != ci {
            assert(s1.categories[j] == s0.categories[j]);
        }
    }
    lemma_find_cat_names(s1.categories, s0.categories, cat);
    assert(s1.categories[ci].tickets == without_ticket(ts, id));
}

/// Moving a ticket between two different categories under its own id
/// leaves the source path absent and the destination holding that id with
/// the identical content — so any read of it yields the same title and
/// message — timestamped at the move.
pub proof fn lemma_move_ticket(
    s0: StoreV,
    src_cat: Seq<char>,
    src_id: Seq<char>,
    dst_cat: Seq<char>,
    now: u64,
)
    requires
        store_wf(s0),
        spec_movable(s0, src_cat, src_id, dst_cat),
        src_cat != dst_cat,
    ensures
        ({
            let si0 = find_cat(s0.categories, src_cat);
            let ts0 = s0.categories[si0].tickets;
            let content = ts0[find_ticket(ts0, src_id)].content;
            let s1 = spec_move(s0, src_cat, src_id, dst_cat, src_id, now);
            let si = find_cat(s1.categories, src_cat);
            let di = find_cat(s1.categories, dst_cat);
            &&& si == si0
            &&& di == find_cat(s0.categories, dst_cat)
            &&& 0 <= di < s1.categories.len()
            &&& !has_ticket(s1.categories[si].tickets, src_id)
            &&& has_ticket(s1.categories[di].tickets, src_id)
            &&& s1.categories[di].tickets[find_ticket(s1.categories[di].tickets, src_id)] == (
            TicketV { id: src_id, content, modified_at: now })
        }),
{
    let si0 = find_cat(s0.categories, src_cat);
    let di0 = find_cat(s0.categories, dst_cat);
    lemma_find_cat(s0.categories, src_cat);
    lemma_find_cat(s0.categories, dst_cat);
    assert(s0.categories[si0].name == src_cat);
    assert(s0.categories[di0].name == dst_cat);
    assert(si0 != di0);
    let ts0 = s0.categories[si0].tickets;
    let ti0 = find_ticket(ts0, src_id);
    lemma_find_ticket(ts0, src_id);
    let content = ts0[ti0].content;
    let tv = TicketV { id: src_id, content, modified_at: now };
    let s_put = spec_put(s0, dst_cat, tv, now);
    assert(cat_wf(s0.categories[di0]));
    lemma_replace_found(s0.categories[di0].tickets, tv);
    assert forall|j: int| 0 <= j < s_put.categories.len() implies s_put.categories[j].name
        == s0.categories[j].name by {
        if j != di0 {
            assert(s_put.categories[j] == s0.categories[j]);
        }
    }
    lemma_find_cat_names(s_put.categories, s0.categories, src_cat);
    lemma_find_cat_names(s_put.categories, s0.categories, dst_cat);
    assert(s_put.categories[si0] == s0.categories[si0]);
    let s1 = spec_move(s0, src_cat, src_id, dst_cat, src_id, now);
    assert(s1 == with_cat_tickets(s_put, si0, without_ticket(ts0, src_id), now));
    assert forall|j: int| 0 <= j < s1.categories.len() implies s1.categories[j].name
        == s_put.categories[j].name by {
        if j != si0 {
            assert(s1.categories[j] == s_put.categories[j]);
        }
    }
    lemma_find_cat_names(s1.categories, s_put.categories, src_cat);
    lemma_find_cat_names(s1.categories, s_put.categories, dst_cat);
    assert(cat_wf(s0.categories[si0]));
    lemma_without_ticket(ts0, src_id);
    assert(s1.categories[si0].tickets == without_ticket(ts0, src_id));
    assert(s1.categories[di0] == s_put.categories[di0]);
    assert(s1.categories[di0].tickets == replace_ticket(s0.categories[di0].tickets, tv));
}

/// Moving every child of one category into a different category that
/// holds none of their ids empties the source and appends every child to
/// the destination, in stored order, contents preserved, each timestamped
/// at the move.
pub proof fn lemma_move_children_disjoint(
    s: StoreV,
    src_cat: Seq<char>,
    dst_cat: Seq<char>,
    now: u64,
)
    requires
        store_wf(s),
        src_cat != dst_cat,
        has_cat(s.categories, src_cat),
        has_cat(s.categories, dst_cat),
        ({
            let si = find_cat(s.categories, src_cat);
            let di = find_cat(s.categories, dst_cat);
            forall|k: int|
                0 <= k < s.categories[si].tickets.len() ==> !has_ticket(
                    s.categories[di].tickets,
                    #[trigger] s.categories[si].tickets[k].id,
                )
        }),
    ensures
        ({
            let si = find_cat(s.categories, src_cat);
            let di = find_cat(s.categories, dst_cat);
            let ts = s.categories[si].tickets;
            let ds = s.categories[di].tickets;
            let s1 = spec_move_children(s, src_cat, dst_cat, ts, now);
            &&& store_wf(s1)
            &&& find_cat(s1.categories, src_cat) == si
            &&& find_cat(s1.categories, dst_cat) == di
            &&& s1.categories[si].tickets.len() == 0
            &&& s1.categories[di].tickets.len() == ds.len() + ts.len()
            &&& (forall|k: int|
                0 <= k < ds.len() ==> #[trigger] s1.categories[di].tickets[k] == ds[k])
            &&& (forall|k: int|
                0 <= k < ts.len() ==> #[trigger] s1.categories[di].tickets[ds.len() + k] == (
                TicketV { id: ts[k].id, content: ts[k].content, modified_at: now }))
        }),
    decreases s.categories[find_cat(s.categories, src_cat)].tickets.len(),
{
    let si = find_cat(s.categories, src_cat);
    let di = find_cat(s.categories, dst_cat);
    lemma_find_cat(s.categories, src_cat);
    lemma_find_cat(s.categories, dst_cat);
    assert(si != di);
    let ts = s.categories[si].tickets;
    let ds = s.categories[di].tickets;
    assert(cat_wf(s.categories[si]));
    assert(cat_wf(s.categories[di]));
    if ts.len() == 0 {
    } else {
        let head = ts[0];
        lemma_find_ticket_at(ts, head.id, 0);
        assert(spec_movable(s, src_cat, head.id, dst_cat));
        let tv = TicketV { id: head.id, content: head.content, modified_at: now };
        let s_put = spec_put(s, dst_cat, tv, now);
        lemma_find_ticket(ds, head.id);
        assert(!has_ticket(ds, head.id));
        assert(replace_ticket(ds, tv) == ds.push(tv));
        lemma_put_wf(s, dst_cat, tv, now);
        assert forall|j: int| 0 <= j < s_put.categories.len() implies s_put.categories[j].name
            == s.categories[j].name by {
            if j != di {
                assert(s_put.categories[j] == s.categories[j]);
            }
        }
        lemma_find_cat_names(s_put.categories, s.categories, src_cat);
        lemma_find_cat_names(s_put.categories, s.categories, dst_cat);
        assert(s_put.categories[si] == s.categories[si]);
        let s2 = spec_move(s, src_cat, head.id, dst_cat, head.id, now);
        assert(s2 == with_cat_tickets(s_put, si, without_ticket(ts, head.id), now));
        assert(without_ticket(ts, head.id) == ts.remove(0));
        assert(ts.remove(0) =~= ts.drop_first());
        lemma_remove_at_wf(s_put, si, 0, now);
        assert(store_wf(s2));
        assert forall|j: int| 0 <= j < s2.categories.len() implies s2.categories[j].name
            == s_put.categories[j].name by {
            if j != si {
                assert(s2.categories[j] == s_put.categories[j]);
            }
        }
        lemma_find_cat_names(s2.categories, s_put.categories, src_cat);
        lemma_find_cat_names(s2.categories, s_put.categories, dst_cat);
        assert(find_cat(s2.categories, src_cat) == si);
        assert(find_cat(s2.categories, dst_cat) == di);
        assert(s2.categories[si].tickets == ts.drop_first());
        assert(s2.categories[di] == s_put.categories[di]);
        assert(s2.categories[di].tickets == ds.push(tv));
        // The remaining children's ids are still foreign to the destination.
        assert forall|k: int| 0 <= k < s2.categories[si].tickets.len() implies !has_ticket(
            s2.categories[di].tickets,
            #[trigger] s2.categories[si].tickets[k].id,
        ) by {
            let id2 = ts.drop_first()[k].id;
            assert(ts.drop_first()[k] == ts[k + 1]);
            assert(id2 != head.id);
            assert(!has_ticket(ds, ts[k + 1].id));
            lemma_find_ticket(ds.push(tv), id2);
            if has_ticket(ds.push(tv), id2) {
                let w = find_ticket(ds.push(tv), id2);
                assert(ds.push(tv)[w].id == id2);
                if w < ds.len() {
                    lemma_find_ticket_at(ds, id2, w);
                } else {
                    assert(ds.push(tv)[w] == tv);
                }
                assert(false);
            }
        }
        lemma_move_children_disjoint(s2, src_cat, dst_cat, now);
        let s1 = spec_move_children(s2, src_cat, dst_cat, ts.drop_first(), now);
        assert(spec_move_children(s, src_cat, dst_cat, ts, now) == s1);
        assert(s1.categories[di].tickets.len() == ds.len() + ts.len());
        assert forall|k: int| 0 <= k < ds.len() implies #[trigger] s1.categories[di].tickets[k]
            == ds[k] by {
            assert(s1.categories[di].tickets[k] == ds.push(tv)[k]);
        }
        assert forall|k: int| 0 <= k < ts.len() implies #[trigger] s1.categories[di].tickets[
        ds.len() + k] == (TicketV { id: ts[k].id, content: ts[k].content, modified_at: now }) by {
            if k == 0 {
                assert(s1.categories[di].tickets[ds.len() as int] == ds.push(tv)[ds.len() as int]);
                assert(ds.push(tv)[ds.len() as int] == tv);
            } else {
                assert(s1.categories[di].tickets[ds.push(tv).len() + (k - 1)] == (TicketV {
                    id: ts.drop_first()[k - 1].id,
                    content: ts.drop_first()[k - 1].content,
                    modified_at: now,
                }));
                assert(ts.drop_first()[k - 1] == ts[k]);
            }
        }
    }
}

/// Moving a whole category into an existing empty category empties the
/// source — the directory itself stays — and the destination ends up
/// with exactly the source's tickets, in stored order, ids and contents
/// preserved.
pub proof fn lemma_move_all_into_empty(
    s0: StoreV,
    src_cat: Seq<char>,
    dst_cat: Seq<char>,
    now: u64,
)
    requires
        store_wf(s0),
        src_cat != dst_cat,
        has_cat(s0.categories, src_cat),
        has_cat(s0.categories, dst_cat),
        s0.categories[find_cat(s0.categories, dst_cat)].tickets.len() == 0,
    ensures
        ({
            let si = find_cat(s0.categories, src_cat);
            let di = find_cat(s0.categories, dst_cat);
            let ts = s0.categories[si].tickets;
            let s1 = spec_move_children(s0, src_cat, dst_cat, ts, now);
            &&& store_wf(s1)
            &&& find_cat(s1.categories, src_cat) == si
            &&& find_cat(s1.categories, dst_cat) == di
            &&& s1.categories[si].tickets.len() == 0
            &&& s1.categories[di].tickets.len() == ts.len()
            &&& (forall|k: int|
                0 <= k < ts.len() ==> #[trigger] s1.categories[di].tickets[k] == (TicketV {
                    id: ts[k].id,
                    content: ts[k].content,
                    modified_at: now,
                }))
        }),
{
    let si = find_cat(s0.categories, src_cat);
    let di = find_cat(s0.categories, dst_cat);
    lemma_find_cat(s0.categories, src_cat);
    lemma_find_cat(s0.categories, dst_cat);
    let ts = s0.categories[si].tickets;
    let ds = s0.categories[di].tickets;
    assert forall|k: int| 0 <= k < ts.len() implies !has_ticket(ds, #[trigger] ts[k].id) by {
        assert(find_ticket(ds, ts[k].id) == -1);
    }
    lemma_move_children_disjoint(s0, src_cat, dst_cat, now);
    let s1 = spec_move_children(s0, src_cat, dst_cat, ts, now);
    assert forall|k: int| 0 <= k < ts.len() implies #[trigger] s1.categories[di].tickets[k] == (
    TicketV { id: ts[k].id, content: ts[k].content, modified_at: now }) by {
        assert(s1.categories[di].tickets[ds.len() + k] == (TicketV {
            id: ts[k].id,
            content: ts[k].content,
            modified_at: now,
        }));
        assert(ds.len() + k == k);
    }
}

} // verus!
