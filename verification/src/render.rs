//! The renderer: the canonical text of a node, of a category's listing,
//! and of the whole store.
//!
//! A ticket renders as `[id]title`. A category's listing is its tickets'
//! renderings joined by a line break, oldest first, or the empty-listing
//! marker when there are none. The whole store renders each category as
//! its name, a trailing separator and its listing, categories joined by a
//! blank line and ordered by their own ascending modification time; a
//! store without categories renders as the same marker.
use vstd::prelude::*;

use crate::errors::ErrorV;
use crate::errors::TicketError;
use crate::node::NodeV;
use crate::node::Ticket;
use crate::node::node_key_fn;
use crate::sorting::sort_by_key;
use crate::store::CategoryV;
use crate::store::Store;
use crate::store::cat_key_fn;
use crate::store::category_nodes;
use crate::store::nodes_of;
use crate::store::sorted_categories;
use crate::store::store_wf;

verus! {

/// The canonical text of a single node: the bracketed id when one is
/// there, then the title.
pub open spec fn spec_render_node(n: NodeV) -> Seq<char> {
    (match n.id {
        Some(i) => seq!['['] + i + seq![']'],
        None => Seq::<char>::empty(),
    }) + (match n.title {
        Some(t) => t,
        None => Seq::<char>::empty(),
    })
}

/// Node renderings joined by a line break.
pub open spec fn spec_join_nodes(ns: Seq<NodeV>) -> Seq<char>
    decreases ns.len(),
{
    if ns.len() == 0 {
        Seq::<char>::empty()
    } else if ns.len() == 1 {
        spec_render_node(ns[0])
    } else {
        spec_render_node(ns[0]) + seq!['\n'] + spec_join_nodes(ns.drop_first())
    }
}

/// A category listing's text: the joined renderings, or the empty-listing
/// marker.
pub open spec fn spec_render_listing(ns: Seq<NodeV>) -> Seq<char> {
    if ns.len() == 0 {
        "NO TICKETS."@
    } else {
        spec_join_nodes(ns)
    }
}

/// A category's text in the whole-store rendering: its name, the
/// separator, a line break, and its listing.
pub open spec fn spec_render_category(c: CategoryV) -> Seq<char> {
    c.name + seq!['/', '\n'] + spec_render_listing(
        sort_by_key(nodes_of(c.name, c.tickets), node_key_fn()),
    )
}

/// Category texts joined by a blank line.
pub open spec fn spec_join_categories(cs: Seq<CategoryV>) -> Seq<char>
    decreases cs.len(),
{
    if cs.len() == 0 {
        Seq::<char>::empty()
    } else if cs.len() == 1 {
        spec_render_category(cs[0])
    } else {
        spec_render_category(cs[0]) + seq!['\n', '\n'] + spec_join_categories(cs.drop_first())
    }
}

/// The whole store's text: every category ascending by its own
/// modification time, or the empty-store marker when there is none.
pub open spec fn spec_render_root(cats: Seq<CategoryV>) -> Seq<char> {
    if cats.len() == 0 {
        "NO TICKETS."@
    } else {
        spec_join_categories(sort_by_key(cats, cat_key_fn()))
    }
}

/// Joining one more node appends a line break and its rendering.
proof fn lemma_join_nodes_push(ns: Seq<NodeV>, x: NodeV)
    requires
        ns.len() > 0,
    ensures
        spec_join_nodes(ns.push(x)) == spec_join_nodes(ns) + seq!['\n'] + spec_render_node(x),
    decreases ns.len(),
{
    let p = ns.push(x);
    if ns.len() == 1 {
        assert(p.drop_first() =~= seq![x]);
        assert(spec_join_nodes(seq![x]) == spec_render_node(x));
    } else {
        assert(p.drop_first() =~= ns.drop_first().push(x));
        lemma_join_nodes_push(ns.drop_first(), x);
        assert(spec_join_nodes(p) == spec_render_node(ns[0]) + seq!['\n'] + spec_join_nodes(
            ns.drop_first().push(x),
        ));
        assert(spec_render_node(ns[0]) + seq!['\n'] + (spec_join_nodes(ns.drop_first())
            + seq!['\n'] + spec_render_node(x)) =~= (spec_render_node(ns[0]) + seq!['\n']
            + spec_join_nodes(ns.drop_first())) + seq!['\n'] + spec_render_node(x));
    }
}

/// Joining one more category appends a blank line and its text.
proof fn lemma_join_categories_push(cs: Seq<CategoryV>, x: CategoryV)
    requires
        cs.len() > 0,
    ensures
        spec_join_categories(cs.push(x)) == spec_join_categories(cs) + seq!['\n', '\n']
            + spec_render_category(x),
    decreases cs.len(),
{
    let p = cs.push(x);
    if cs.len() == 1 {
        assert(p.drop_first() =~= seq![x]);
        assert(spec_join_categories(seq![x]) == spec_render_category(x));
    } else {
        assert(p.drop_first() =~= cs.drop_first().push(x));
        lemma_join_categories_push(cs.drop_first(), x);
        assert(spec_join_categories(p) == spec_render_category(cs[0]) + seq!['\n', '\n']
            + spec_join_categories(cs.drop_first().push(x)));
        assert(spec_render_category(cs[0]) + seq!['\n', '\n'] + (spec_join_categories(
            cs.drop_first(),
        ) + seq!['\n', '\n'] + spec_render_category(x)) =~= (spec_render_category(cs[0])
            + seq!['\n', '\n'] + spec_join_categories(cs.drop_first())) + seq!['\n', '\n']
            + spec_render_category(x));
    }
}

/// Renders a single node.
pub fn render_node(t: &Ticket) -> (r: String)
    ensures
        r@ == spec_render_node(t@),
{
    let mut out = String::new();
    match &t.id {
        Some(id) => {
            out.append("[");
            out.append(id.as_str());
            out.append("]");
            proof {
                reveal_strlit("[");
                reveal_strlit("]");
                assert("["@ =~= seq!['[']);
                assert("]"@ =~= seq![']']);
            }
        },
        None => {},
    }
    match &t.title {
        Some(title) => {
            out.append(title.as_str());
        },
        None => {},
    }
    proof {
        assert(out@ =~= spec_render_node(t@));
    }
    out
}

/// Renders a listing: the nodes joined by a line break, or the
/// empty-listing marker.
pub fn render_listing(nodes: &Vec<Ticket>) -> (r: String)
    ensures
        r@ == spec_render_listing(nodes.deep_view()),
{
    let ghost dv = nodes.deep_view();
    let n = nodes.len();
    if n == 0 {
        return String::from_str("NO TICKETS.");
    }
    proof {
        assert(dv[0] == nodes@[0]@);
    }
    let mut out = render_node(&nodes[0]);
    let mut i: usize = 1;
    proof {
        assert(dv.take(1) =~= seq![dv[0]]);
        assert(spec_join_nodes(seq![dv[0]]) == spec_render_node(dv[0]));
    }
    while i < n
        invariant
            n == nodes.len(),
            dv == nodes.deep_view(),
            dv.len() == n as int,
            1 <= i <= n,
            out@ == spec_join_nodes(dv.take(i as int)),
        decreases n - i,
    {
        proof {
            assert(dv[i as int] == nodes@[i as int]@);
        }
        out.append("\n");
        let piece = render_node(&nodes[i]);
        out.append(piece.as_str());
        proof {
            reveal_strlit("\n");
            assert("\n"@ =~= seq!['\n']);
            lemma_join_nodes_push(dv.take(i as int), dv[i as int]);
            assert(dv.take(i + 1) =~= dv.take(i as int).push(dv[i as int]));
            assert(out@ =~= spec_join_nodes(dv.take(i + 1)));
        }
        i = i + 1;
    }
    proof {
        assert(dv.take(n as int) =~= dv);
    }
    out
}

/// Renders the whole store: every category ascending by its own
/// modification time, each as its name and listing, blank lines between;
/// the empty-store marker when no category exists.
///
/// Fails when the root does not exist — the missing-path condition of the
/// medium.
pub fn show_all(store: &Store) -> (r: Result<String, TicketError>)
    requires
        store_wf(store@),
    ensures
        !store@.initialized ==> (r matches Err(e) && e@ == ErrorV::NotFound),
        store@.initialized ==> (r matches Ok(s) && s@ == spec_render_root(store@.categories)),
{
    if !store.initialized {
        return Err(TicketError::NotFound);
    }
    if store.categories.len() == 0 {
        return Ok(String::from_str("NO TICKETS."));
    }
    let sorted = sorted_categories(&store.categories);
    let ghost sv = sorted.deep_view();
    proof {
        crate::sorting::lemma_sort_by_key(store@.categories, cat_key_fn());
        assert(sv.len() == store@.categories.len());
    }
    let n = sorted.len();
    let mut out = String::new();
    let mut i: usize = 0;
    proof {
        assert(out@ =~= spec_join_categories(sv.take(0)));
    }
    while i < n
        invariant
            n == sorted.len(),
            sv == sorted.deep_view(),
            sv.len() == n as int,
            i <= n,
            out@ == spec_join_categories(sv.take(i as int)),
        decreases n - i,
    {
        proof {
            assert(sv[i as int] == sorted@[i as int]@);
        }
        let c = &sorted[i];
        if i > 0 {
            out.append("\n\n");
        }
        out.append(c.name.as_str());
        out.append("/\n");
        let nodes = category_nodes(&c.name, c);
        let listing = render_listing(&nodes);
        out.append(listing.as_str());
        proof {
            reveal_strlit("\n\n");
            reveal_strlit("/\n");
            assert("\n\n"@ =~= seq!['\n', '\n']);
            assert("/\n"@ =~= seq!['/', '\n']);
            let block = spec_render_category(sv[i as int]);
            assert(c.name@ + seq!['/', '\n'] + listing@ =~= block);
            if i == 0 {
                assert(sv.take(1) =~= seq![sv[0]]);
                assert(out@ =~= spec_join_categories(sv.take(1)));
            } else {
                lemma_join_categories_push(sv.take(i as int), sv[i as int]);
                assert(sv.take(i + 1) =~= sv.take(i as int).push(sv[i as int]));
                assert(out@ =~= spec_join_categories(sv.take(i + 1)));
            }
        }
        i = i + 1;
    }
    proof {
        assert(sv.take(n as int) =~= sv);
    }
    Ok(out)
}

} // verus!
