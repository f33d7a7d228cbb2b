//! The action layer: one verb of the command line mapped onto the store.
//!
//! [`match_action`] takes the parsed invocation and the store, performs
//! the one operation the verb asks for, and returns the process status and
//! the framed report text — or hands back to the caller when content must
//! come from the external editor, since the engine itself never launches a
//! process. The caller owns printing, the process exit, and the editor.
use vstd::prelude::*;

use crate::errors::ErrorV;
use crate::errors::spec_message;
use crate::node::NodeV;
use crate::node::Ticket;
use crate::node::node_key_fn;
use crate::node::spec_node;
use crate::ident::valid_identifier;
use crate::render::render_listing;
use crate::render::show_all;
use crate::render::spec_render_listing;
use crate::render::spec_render_root;
use crate::sorting::sort_by_key;
use crate::store::CategoryV;
use crate::store::Store;
use crate::store::StoreV;
use crate::store::TicketV;
use crate::store::WriteOutcome;
use crate::store::find_cat;
use crate::store::find_ticket;
use crate::store::has_cat;
use crate::store::has_ticket;
use crate::store::initialize_root;
use crate::store::nodes_of;
use crate::store::spec_move;
use crate::store::spec_move_children;
use crate::store::spec_movable;
use crate::store::spec_put;
use crate::store::store_wf;
use crate::store::with_cat_tickets;
use crate::codec::spec_title;

verus! {

/// The parsed invocation: one verb, or none for the whole-store listing.
pub struct Opt {
    pub action: Option<Action>,
}

/// The verbs of the tracker.
pub enum Action {
    /// Create the storage root.
    Init,
    /// Create a category or a ticket; without a message the content comes
    /// from the external editor.
    New { id: String, message: Option<String> },
    /// Show one ticket, or a whole category's listing.
    Show { id: String },
    /// Rewrite a ticket; without a message the content comes from the
    /// external editor.
    Edit { id: String, message: Option<String> },
    /// Move one ticket, or every child of a category.
    Move { id: String, dest_id: String },
    /// Remove a ticket, or a whole category.
    Remove { id: String },
}

/// Whether the process reports success or an input/output failure.
#[derive(PartialEq, Eq, Structural, Clone, Copy, Debug)]
pub enum Status {
    Success,
    Failure,
}

/// What an action came to.
pub enum ActionOutcome {
    /// The action ran to completion: the status and the report to print.
    Done(Status, String),
    /// Every check passed but the content must come from the external
    /// editor: the node to edit and the report header. The caller runs
    /// the editor on the node's path, records what it left with
    /// [`Ticket::write`], and frames its own report.
    EditorNeeded(Ticket, String),
}

/// The ticket part of a node as bare text: empty when absent.
pub open spec fn spec_opt_id(n: NodeV) -> Seq<char> {
    match n.id {
        Some(i) => i,
        None => Seq::<char>::empty(),
    }
}

/// A success report: the header, a blank line, the success marker.
pub open spec fn spec_frame_success(h: Seq<char>) -> Seq<char> {
    h + "\n\nSUCCEEDED."@
}

/// A failure report: the header, a blank line, the error sentence.
pub open spec fn spec_frame_error(h: Seq<char>, m: Seq<char>) -> Seq<char> {
    h + "\n\nERROR: "@ + m
}

/// The header of the root-creation verb.
pub open spec fn spec_header_init() -> Seq<char> {
    "tickets :: init"@
}

/// The header of a creation report.
pub open spec fn spec_header_new(n: NodeV) -> Seq<char> {
    "tickets :: new :: "@ + n.category + "/"@ + spec_opt_id(n)
}

/// The header of a show report.
pub open spec fn spec_header_show(n: NodeV) -> Seq<char> {
    "tickets :: show :: "@ + n.category + "/"@ + spec_opt_id(n)
}

/// The header of an edit report.
pub open spec fn spec_header_edit(n: NodeV) -> Seq<char> {
    "tickets :: edit :: "@ + n.category + "/"@ + spec_opt_id(n)
}

/// The header of a move report.
pub open spec fn spec_header_move(n: NodeV, d: NodeV) -> Seq<char> {
    "tickets :: move :: "@ + n.category + "/"@ + spec_opt_id(n) + " => "@ + d.category + "/"@
        + spec_opt_id(d)
}

/// The header of a removal report.
pub open spec fn spec_header_remove(n: NodeV) -> Seq<char> {
    "tickets :: remove :: "@ + n.category + "/"@ + spec_opt_id(n)
}

/// The body a shown ticket prints: its title, and its message after a
/// blank line when there is one.
pub open spec fn spec_show_body(t: TicketV) -> Seq<char> {
    spec_title(t.content) + (match crate::codec::spec_message(t.content) {
        Some(m) => "\n\n"@ + m,
        None => Seq::<char>::empty(),
    })
}

/// Appends the bare ticket part of a node, if any.
fn append_opt_id(out: &mut String, t: &Ticket)
    ensures
        final(out)@ == old(out)@ + spec_opt_id(t@),
{
    match &t.id {
        Some(id) => {
            out.append(id.as_str());
        },
        None => {
            proof {
                assert(old(out)@ + spec_opt_id(t@) =~= old(out)@);
            }
        },
    }
}

/// Builds the header of the root-creation verb.
pub fn format_header_init() -> (r: String)
    ensures
        r@ == spec_header_init(),
{
    String::from_str("tickets :: init")
}

/// Builds the header of a creation report.
pub fn format_header_new(ticket: &Ticket) -> (r: String)
    ensures
        r@ == spec_header_new(ticket@),
{
    let mut out = String::from_str("tickets :: new :: ");
    out.append(ticket.category.as_str());
    out.append("/");
    append_opt_id(&mut out, ticket);
    out
}

/// Builds the header of a show report.
pub fn format_header_show(ticket: &Ticket) -> (r: String)
    ensures
        r@ == spec_header_show(ticket@),
{
    let mut out = String::from_str("tickets :: show :: ");
    out.append(ticket.category.as_str());
    out.append("/");
    append_opt_id(&mut out, ticket);
    out
}

/// Builds the header of an edit report.
pub fn format_header_edit(ticket: &Ticket) -> (r: String)
    ensures
        r@ == spec_header_edit(ticket@),
{
    let mut out = String::from_str("tickets :: edit :: ");
    out.append(ticket.category.as_str());
    out.append("/");
    append_opt_id(&mut out, ticket);
    out
}

/// Builds the header of a move report.
pub fn format_header_move(start_ticket: &Ticket, dest_ticket: &Ticket) -> (r: String)
    ensures
        r@ == spec_header_move(start_ticket@, dest_ticket@),
{
    let mut out = String::from_str("tickets :: move :: ");
    out.append(start_ticket.category.as_str());
    out.append("/");
    append_opt_id(&mut out, start_ticket);
    out.append(" => ");
    out.append(dest_ticket.category.as_str());
    out.append("/");
    append_opt_id(&mut out, dest_ticket);
    out
}

/// Builds the header of a removal report.
pub fn format_header_remove(ticket: &Ticket) -> (r: String)
    ensures
        r@ == spec_header_remove(ticket@),
{
    let mut out = String::from_str("tickets :: remove :: ");
    out.append(ticket.category.as_str());
    out.append("/");
    append_opt_id(&mut out, ticket);
    out
}

/// Frames a success report.
pub fn frame_success(header: &str) -> (r: String)
    ensures
        r@ == spec_frame_success(header@),
{
    let mut out = String::from_str(header);
    out.append("\n\nSUCCEEDED.");
    out
}

/// Frames a failure report.
pub fn frame_error(header: &str, message: &str) -> (r: String)
    ensures
        r@ == spec_frame_error(header@, message@),
{
    let mut out = String::from_str(header);
    out.append("\n\nERROR: ");
    out.append(message);
    out
}

/// Performs the one operation an invocation asks for and frames its
/// report.
///
/// Without a verb, reports the whole-store listing, or the uninitialized
/// notice. Each verb parses its identifiers, runs the matching store
/// operation, and frames the header with the success marker or the error
/// sentence; a create or edit without supplied content stops after its
/// checks and hands the node back for the external editor. The store
/// changes exactly as the underlying operation does, and not at all on
/// failure.
pub fn match_action(store: &mut Store, opt: Opt, now: u64) -> (r: ActionOutcome)
    requires
        store_wf(old(store)@),
    ensures
        store_wf(final(store)@),
        ({
            let s0 = old(store)@;
            let sf = final(store)@;
            match opt.action {
                None => {
                    &&& sf == s0
                    &&& (if !s0.initialized {
                        r matches ActionOutcome::Done(st, mm) && st is Failure && mm@
                            == "ERROR: NOT INITIALIZED, PLEASE init."@
                    } else {
                        r matches ActionOutcome::Done(st, mm) && st is Success && mm@
                            == spec_render_root(s0.categories)
                    })
                },
                Some(a) => match a {
                    Action::Init => {
                        if s0.initialized {
                            &&& sf == s0
                            &&& (r matches ActionOutcome::Done(st, mm) && st is Failure && mm@
                                == spec_frame_error(
                                spec_header_init(),
                                spec_message(ErrorV::RootAlreadyExists),
                            ))
                        } else {
                            &&& sf == (StoreV { initialized: true, categories: s0.categories })
                            &&& (r matches ActionOutcome::Done(st, mm) && st is Success && mm@
                                == spec_frame_success(spec_header_init()))
                        }
                    },
                    Action::New { id, message } => {
                        let idv = id@;
                        let m = message.deep_view();
                        if !valid_identifier(idv) {
                            &&& sf == s0
                            &&& (r matches ActionOutcome::Done(st, mm) && st is Failure && mm@
                                == spec_frame_error(
                                "tickets :: new"@,
                                spec_message(ErrorV::InvalidIdentifier(idv)),
                            ))
                        } else {
                            let n = spec_node(idv, m);
                            let h = spec_header_new(n);
                            let ci = find_cat(s0.categories, n.category);
                            if n.is_dir {
                                if ci >= 0 {
                                    &&& sf == s0
                                    &&& (r matches ActionOutcome::Done(st, mm) && st is Failure
                                        && mm@ == spec_frame_error(
                                        h,
                                        spec_message(ErrorV::AlreadyExists),
                                    ))
                                } else {
                                    &&& sf == (StoreV {
                                        initialized: true,
                                        categories: s0.categories.push(
                                            CategoryV {
                                                name: n.category,
                                                tickets: Seq::<TicketV>::empty(),
                                                modified_at: now,
                                            },
                                        ),
                                    })
                                    &&& (r matches ActionOutcome::Done(st, mm) && st is Success
                                        && mm@ == spec_frame_success(h))
                                }
                            } else {
                                if ci >= 0 && has_ticket(s0.categories[ci].tickets, n.id->0) {
                                    &&& sf == s0
                                    &&& (r matches ActionOutcome::Done(st, mm) && st is Failure
                                        && mm@ == spec_frame_error(
                                        h,
                                        spec_message(ErrorV::AlreadyExists),
                                    ))
                                } else if ci < 0 {
                                    &&& sf == s0
                                    &&& (r matches ActionOutcome::Done(st, mm) && st is Failure
                                        && mm@ == spec_frame_error(
                                        h,
                                        spec_message(ErrorV::CategoryNotFound),
                                    ))
                                } else if m is Some {
                                    &&& sf == spec_put(
                                        s0,
                                        n.category,
                                        TicketV { id: n.id->0, content: m->0, modified_at: now },
                                        now,
                                    )
                                    &&& (r matches ActionOutcome::Done(st, mm) && st is Success
                                        && mm@ == spec_frame_success(h))
                                } else {
                                    &&& sf == s0
                                    &&& (r matches ActionOutcome::EditorNeeded(tk, hh) && tk@ == n
                                        && hh@ == h)
                                }
                            }
                        }
                    },
                    Action::Show { id } => {
                        let idv = id@;
                        &&& sf == s0
                        &&& (if !valid_identifier(idv) {
                            r matches ActionOutcome::Done(st, mm) && st is Failure && mm@
                                == spec_frame_error(
                                "tickets :: show"@,
                                spec_message(ErrorV::InvalidIdentifier(idv)),
                            )
                        } else {
                            let n = spec_node(idv, None);
                            let h = spec_header_show(n);
                            let ci = find_cat(s0.categories, n.category);
                            if n.is_dir {
                                if ci >= 0 {
                                    r matches ActionOutcome::Done(st, mm) && st is Success && mm@
                                        == h + "\n\n"@ + spec_render_listing(
                                        sort_by_key(
                                            nodes_of(n.category, s0.categories[ci].tickets),
                                            node_key_fn(),
                                        ),
                                    )
                                } else {
                                    r matches ActionOutcome::Done(st, mm) && st is Failure && mm@
                                        == h + "\n\nERROR: NOT FOUND."@
                                }
                            } else {
                                let ti = if ci >= 0 {
                                    find_ticket(s0.categories[ci].tickets, n.id->0)
                                } else {
                                    -1
                                };
                                if ci >= 0 && ti >= 0 {
                                    r matches ActionOutcome::Done(st, mm) && st is Success && mm@
                                        == h + "\n\n"@ + spec_show_body(
                                        s0.categories[ci].tickets[ti],
                                    )
                                } else {
                                    r matches ActionOutcome::Done(st, mm) && st is Failure && mm@
                                        == h + "\n\nERROR: NOT FOUND."@
                                }
                            }
                        })
                    },
                    Action::Edit { id, message } => {
                        let idv = id@;
                        let m = message.deep_view();
                        if !valid_identifier(idv) {
                            &&& sf == s0
                            &&& (r matches ActionOutcome::Done(st, mm) && st is Failure && mm@
                                == spec_frame_error(
                                "tickets :: edit"@,
                                spec_message(ErrorV::InvalidIdentifier(idv)),
                            ))
                        } else {
                            let n = spec_node(idv, m);
                            let h = spec_header_edit(n);
                            let ci = find_cat(s0.categories, n.category);
                            if n.is_dir {
                                if ci >= 0 {
                                    &&& sf == s0
                                    &&& (r matches ActionOutcome::Done(st, mm) && st is Failure
                                        && mm@ == spec_frame_error(
                                        h,
                                        spec_message(ErrorV::CategoryNotEditable),
                                    ))
                                } else {
                                    &&& sf == s0
                                    &&& (r matches ActionOutcome::Done(st, mm) && st is Failure
                                        && mm@ == spec_frame_error(
                                        h,
                                        spec_message(ErrorV::NotFound),
                                    ))
                                }
                            } else {
                                if ci < 0 || !has_ticket(s0.categories[ci].tickets, n.id->0) {
                                    &&& sf == s0
                                    &&& (r matches ActionOutcome::Done(st, mm) && st is Failure
                                        && mm@ == spec_frame_error(
                                        h,
                                        spec_message(ErrorV::NotFound),
                                    ))
                                } else if m is Some {
                                    &&& sf == spec_put(
                                        s0,
                                        n.category,
                                        TicketV { id: n.id->0, content: m->0, modified_at: now },
                                        now,
                                    )
                                    &&& (r matches ActionOutcome::Done(st, mm) && st is Success
                                        && mm@ == spec_frame_success(h))
                                } else {
                                    &&& sf == s0
                                    &&& (r matches ActionOutcome::EditorNeeded(tk, hh) && tk@ == n
                                        && hh@ == h)
                                }
                            }
                        }
                    },
                    Action::Move { id, dest_id } => {
                        let idv = id@;
                        let dv = dest_id@;
                        if !valid_identifier(idv) {
                            &&& sf == s0
                            &&& (r matches ActionOutcome::Done(st, mm) && st is Failure && mm@
                                == spec_frame_error(
                                "tickets :: move"@,
                                spec_message(ErrorV::InvalidIdentifier(idv)),
                            ))
                        } else if !valid_identifier(dv) {
                            &&& sf == s0
                            &&& (r matches ActionOutcome::Done(st, mm) && st is Failure && mm@
                                == spec_frame_error(
                                "tickets :: move"@,
                                spec_message(ErrorV::InvalidIdentifier(dv)),
                            ))
                        } else {
                            let n = spec_node(idv, None);
                            let d = spec_node(dv, None);
                            let h = spec_header_move(n, d);
                            if n.is_dir {
                                let si = find_cat(s0.categories, n.category);
                                if !d.is_dir {
                                    &&& sf == s0
                                    &&& (r matches ActionOutcome::Done(st, mm) && st is Failure
                                        && mm@ == spec_frame_error(
                                        h,
                                        spec_message(ErrorV::DestinationNotADirectory),
                                    ))
                                } else if si < 0 {
                                    &&& sf == s0
                                    &&& (r matches ActionOutcome::Done(st, mm) && st is Failure
                                        && mm@ == spec_frame_error(
                                        h,
                                        spec_message(ErrorV::NotFound),
                                    ))
                                } else if s0.categories[si].tickets.len() == 0 {
                                    &&& sf == s0
                                    &&& (r matches ActionOutcome::Done(st, mm) && st is Success
                                        && mm@ == spec_frame_success(h))
                                } else if !has_cat(s0.categories, d.category) {
                                    &&& sf == s0
                                    &&& (r matches ActionOutcome::Done(st, mm) && st is Failure
                                        && mm@ == spec_frame_error(
                                        h,
                                        spec_message(ErrorV::NotFound),
                                    ))
                                } else {
                                    &&& sf == spec_move_children(
                                        s0,
                                        n.category,
                                        d.category,
                                        s0.categories[si].tickets,
                                        now,
                                    )
                                    &&& (r matches ActionOutcome::Done(st, mm) && st is Success
                                        && mm@ == spec_frame_success(h))
                                }
                            } else {
                                let dst_id = if d.is_dir {
                                    n.id->0
                                } else {
                                    d.id->0
                                };
                                if spec_movable(s0, n.category, n.id->0, d.category) {
                                    &&& sf == spec_move(
                                        s0,
                                        n.category,
                                        n.id->0,
                                        d.category,
                                        dst_id,
                                        now,
                                    )
                                    &&& (r matches ActionOutcome::Done(st, mm) && st is Success
                                        && mm@ == spec_frame_success(h))
                                } else {
                                    &&& sf == s0
                                    &&& (r matches ActionOutcome::Done(st, mm) && st is Failure
                                        && mm@ == spec_frame_error(
                                        h,
                                        spec_message(ErrorV::NotFound),
                                    ))
                                }
                            }
                        }
                    },
                    Action::Remove { id } => {
                        let idv = id@;
                        if !valid_identifier(idv) {
                            &&& sf == s0
                            &&& (r matches ActionOutcome::Done(st, mm) && st is Failure && mm@
                                == spec_frame_error(
                                "tickets :: remove"@,
                                spec_message(ErrorV::InvalidIdentifier(idv)),
                            ))
                        } else {
                            let n = spec_node(idv, None);
                            let h = spec_header_remove(n);
                            let ci = find_cat(s0.categories, n.category);
                            if n.is_dir {
                                if ci >= 0 {
                                    &&& sf == (StoreV {
                                        initialized: s0.initialized,
                                        categories: s0.categories.remove(ci),
                                    })
                                    &&& (r matches ActionOutcome::Done(st, mm) && st is Success
                                        && mm@ == spec_frame_success(h))
                                } else {
                                    &&& sf == s0
                                    &&& (r matches ActionOutcome::Done(st, mm) && st is Failure
                                        && mm@ == spec_frame_error(
                                        h,
                                        spec_message(ErrorV::NotFound),
                                    ))
                                }
                            } else {
                                let ti = if ci >= 0 {
                                    find_ticket(s0.categories[ci].tickets, n.id->0)
                                } else {
                                    -1
                                };
                                if ci >= 0 && ti >= 0 {
                                    &&& sf == with_cat_tickets(
                                        s0,
                                        ci,
                                        s0.categories[ci].tickets.remove(ti),
                                        now,
                                    )
                                    &&& (r matches ActionOutcome::Done(st, mm) && st is Success
                                        && mm@ == spec_frame_success(h))
                                } else {
                                    &&& sf == s0
                                    &&& (r matches ActionOutcome::Done(st, mm) && st is Failure
                                        && mm@ == spec_frame_error(
                                        h,
                                        spec_message(ErrorV::NotFound),
                                    ))
                                }
                            }
                        }
                    },
                },
            }
        }),
{
    let action = match opt.action {
        None => {
            if !store.initialized {
                return ActionOutcome::Done(
                    Status::Failure,
                    String::from_str("ERROR: NOT INITIALIZED, PLEASE init."),
                );
            }
            let listing = match show_all(store) {
                Ok(s) => s,
                Err(_) => {
                    proof {
                        assert(false);
                    }
                    return ActionOutcome::Done(Status::Failure, String::new());
                },
            };
            return ActionOutcome::Done(Status::Success, listing);
        },
        Some(a) => a,
    };
    match action {
        Action::Init => {
            let header = format_header_init();
            match initialize_root(store) {
                Ok(()) => ActionOutcome::Done(Status::Success, frame_success(header.as_str())),
                Err(e) => {
                    let msg = e.message();
                    ActionOutcome::Done(
                        Status::Failure,
                        frame_error(header.as_str(), msg.as_str()),
                    )
                },
            }
        },
        Action::New { id, message } => {
            let t = match Ticket::from(id, message) {
                Ok(t) => t,
                Err(e) => {
                    let msg = e.message();
                    return ActionOutcome::Done(
                        Status::Failure,
                        frame_error("tickets :: new", msg.as_str()),
                    );
                },
            };
            let header = format_header_new(&t);
            match t.new(store, now) {
                Ok(WriteOutcome::Done) => {
                    ActionOutcome::Done(Status::Success, frame_success(header.as_str()))
                },
                Ok(WriteOutcome::NeedsContent) => ActionOutcome::EditorNeeded(t, header),
                Err(e) => {
                    let msg = e.message();
                    ActionOutcome::Done(
                        Status::Failure,
                        frame_error(header.as_str(), msg.as_str()),
                    )
                },
            }
        },
        Action::Show { id } => {
            let mut t = match Ticket::from(id, None) {
                Ok(t) => t,
                Err(e) => {
                    let msg = e.message();
                    return ActionOutcome::Done(
                        Status::Failure,
                        frame_error("tickets :: show", msg.as_str()),
                    );
                },
            };
            let header = format_header_show(&t);
            if t.is_dir {
                let nodes = match t.collect(store) {
                    Ok(nodes) => nodes,
                    Err(_) => {
                        let mut out = header;
                        out.append("\n\nERROR: NOT FOUND.");
                        return ActionOutcome::Done(Status::Failure, out);
                    },
                };
                let listing = render_listing(&nodes);
                let mut out = header;
                out.append("\n\n");
                out.append(listing.as_str());
                ActionOutcome::Done(Status::Success, out)
            } else {
                match t.read(store) {
                    Ok(()) => {},
                    Err(_) => {
                        let mut out = header;
                        out.append("\n\nERROR: NOT FOUND.");
                        return ActionOutcome::Done(Status::Failure, out);
                    },
                }
                let mut out = header;
                out.append("\n\n");
                match &t.title {
                    Some(title) => {
                        out.append(title.as_str());
                    },
                    None => {
                        proof {
                            assert(false);
                        }
                    },
                }
                match &t.message {
                    Some(m) => {
                        out.append("\n\n");
                        out.append(m.as_str());
                    },
                    None => {},
                }
                ActionOutcome::Done(Status::Success, out)
            }
        },
        Action::Edit { id, message } => {
            let t = match Ticket::from(id, message) {
                Ok(t) => t,
                Err(e) => {
                    let msg = e.message();
                    return ActionOutcome::Done(
                        Status::Failure,
                        frame_error("tickets :: edit", msg.as_str()),
                    );
                },
            };
            let header = format_header_edit(&t);
            match t.edit(store, now) {
                Ok(WriteOutcome::Done) => {
                    ActionOutcome::Done(Status::Success, frame_success(header.as_str()))
                },
                Ok(WriteOutcome::NeedsContent) => ActionOutcome::EditorNeeded(t, header),
                Err(e) => {
                    let msg = e.message();
                    ActionOutcome::Done(
                        Status::Failure,
                        frame_error(header.as_str(), msg.as_str()),
                    )
                },
            }
        },
        Action::Move { id, dest_id } => {
            let start_ticket = match Ticket::from(id, None) {
                Ok(t) => t,
                Err(e) => {
                    let msg = e.message();
                    return ActionOutcome::Done(
                        Status::Failure,
                        frame_error("tickets :: move", msg.as_str()),
                    );
                },
            };
            let dest_ticket = match Ticket::from(dest_id, None) {
                Ok(t) => t,
                Err(e) => {
                    let msg = e.message();
                    return ActionOutcome::Done(
                        Status::Failure,
                        frame_error("tickets :: move", msg.as_str()),
                    );
                },
            };
            let header = format_header_move(&start_ticket, &dest_ticket);
            let moved = if start_ticket.is_dir {
                start_ticket.move_all(&dest_ticket, store, now)
            } else {
                start_ticket.move_(&dest_ticket, store, now)
            };
            match moved {
                Ok(()) => ActionOutcome::Done(Status::Success, frame_success(header.as_str())),
                Err(e) => {
                    let msg = e.message();
                    ActionOutcome::Done(
                        Status::Failure,
                        frame_error(header.as_str(), msg.as_str()),
                    )
                },
            }
        },
        Action::Remove { id } => {
            let t = match Ticket::from(id, None) {
                Ok(t) => t,
                Err(e) => {
                    let msg = e.message();
                    return ActionOutcome::Done(
                        Status::Failure,
                        frame_error("tickets :: remove", msg.as_str()),
                    );
                },
            };
            let header = format_header_remove(&t);
            match t.remove(store, now) {
                Ok(()) => ActionOutcome::Done(Status::Success, frame_success(header.as_str())),
                Err(e) => {
                    let msg = e.message();
                    ActionOutcome::Done(
                        Status::Failure,
                        frame_error(header.as_str(), msg.as_str()),
                    )
                },
            }
        },
    }
}

} // verus!
