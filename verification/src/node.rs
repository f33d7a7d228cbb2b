//! The node model: the in-memory entity behind an identifier.
//!
//! A [`Ticket`] value stands for one addressable node of the store — either
//! a category (directory) or a ticket (file). Which of the two it is follows
//! solely from the identifier it was built from: a trailing separator (an
//! absent ticket part) makes it a category, and the flag is never re-derived
//! later. Title, message and modification timestamp stay empty until an
//! explicit read populates them.
use vstd::prelude::*;

use crate::errors::ErrorV;
use crate::errors::TicketError;
use crate::ident::identify_id;
use crate::ident::sep_index;
use crate::ident::spec_category;
use crate::ident::spec_ticket_id;
use crate::ident::valid_identifier;

verus! {

/// One node of the store: a category or a ticket.
#[derive(Debug)]
pub struct Ticket {
    /// The identifier the node was built from, relative to the storage root.
    pub path: String,
    /// The ticket part of the identifier; absent for a category.
    pub id: Option<String>,
    /// The category part of the identifier.
    pub category: String,
    /// Pending or read content: the full file text for a write, the first
    /// line after a read.
    pub title: Option<String>,
    /// The message body after a read; never set before one.
    pub message: Option<String>,
    /// Whether the node is a category; fixed at construction.
    pub is_dir: bool,
    /// The modification timestamp after a read; never set before one.
    pub modified_at: Option<u64>,
}

/// The mathematical image of a node.
#[verifier::ext_equal]
pub ghost struct NodeV {
    pub path: Seq<char>,
    pub id: Option<Seq<char>>,
    pub category: Seq<char>,
    pub title: Option<Seq<char>>,
    pub message: Option<Seq<char>>,
    pub is_dir: bool,
    pub modified_at: Option<u64>,
}

impl DeepView for Ticket {
    type V = NodeV;

    open spec fn deep_view(&self) -> NodeV {
        self@
    }
}

/// The listing key of a node: its modification timestamp, an unread node
/// ordering before every read one.
pub open spec fn node_key(n: NodeV) -> int {
    match n.modified_at {
        None => -1,
        Some(t) => t as int,
    }
}

/// The listing key, as a function value.
pub open spec fn node_key_fn() -> spec_fn(NodeV) -> int {
    |n: NodeV| node_key(n)
}

impl View for Ticket {
    type V = NodeV;

    open spec fn view(&self) -> NodeV {
        NodeV {
            path: self.path@,
            id: self.id.deep_view(),
            category: self.category@,
            title: self.title.deep_view(),
            message: self.message.deep_view(),
            is_dir: self.is_dir,
            modified_at: self.modified_at,
        }
    }
}

/// A node as construction leaves it: the directory flag mirrors the absent
/// ticket part, the parts are separator-free, the ticket part is nonempty,
/// and the identifier is their joining.
pub open spec fn node_wf(n: NodeV) -> bool {
    &&& (n.is_dir <==> n.id is None)
    &&& (n.id matches Some(t) ==> t.len() > 0 && forall|j: int| 0 <= j < t.len() ==> t[j] != '/')
    &&& (forall|j: int| 0 <= j < n.category.len() ==> n.category[j] != '/')
    &&& n.path == n.category + seq!['/'] + (match n.id {
        Some(t) => t,
        None => Seq::<char>::empty(),
    })
}

/// The node a well-formed identifier and an optional pending content yield.
pub open spec fn spec_node(s: Seq<char>, title: Option<Seq<char>>) -> NodeV {
    NodeV {
        path: s,
        id: spec_ticket_id(s),
        category: spec_category(s),
        title: title,
        message: None,
        is_dir: spec_ticket_id(s) is None,
        modified_at: None,
    }
}

impl Ticket {
    /// Builds the node an identifier addresses, carrying `title` as the
    /// pending content for a later write.
    ///
    /// Performs no lookup in any store: only the identifier grammar decides
    /// success, and the directory flag follows from the absent ticket part
    /// alone.
    pub fn from(str_path: String, title: Option<String>) -> (r: Result<Ticket, TicketError>)
        ensures
            r is Ok <==> valid_identifier(str_path@),
            (r matches Ok(t) ==> t@ == spec_node(str_path@, title.deep_view()) && node_wf(t@)),
            (r matches Err(e) ==> e@ == ErrorV::InvalidIdentifier(str_path@)),
    {
        let parsed = match identify_id(str_path.as_str()) {
            Ok(p) => p,
            Err(e) => {
                return Err(e);
            },
        };
        let (category, id) = parsed;
        let is_dir = id.is_none();
        let t = Ticket {
            path: str_path,
            id,
            category,
            title,
            message: None,
            is_dir,
            modified_at: None,
        };
        proof {
            let s = t.path@;
            let i = sep_index(s);
            assert(s =~= s.subrange(0, i) + seq!['/'] + s.subrange(i + 1, s.len() as int));
            if i + 1 < s.len() {
                assert(t@ =~= spec_node(s, title.deep_view()));
            } else {
                assert(s =~= s.subrange(0, i) + seq!['/'] + Seq::<char>::empty());
                assert(t@ =~= spec_node(s, title.deep_view()));
            }
        }
        Ok(t)
    }
}

} // verus!
