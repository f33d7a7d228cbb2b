//! The identifier grammar.
//!
//! An identifier addresses one node of the store: `category/ticket` names a
//! ticket, `category/` (an empty right part) names the category itself. The
//! grammar admits exactly one separator; zero or several make the identifier
//! invalid. The left part may be empty: the grammar does not forbid it, so
//! the parser accepts it and the store treats the empty name as a category
//! name like any other.
use vstd::prelude::*;

use crate::errors::ErrorV;
use crate::errors::TicketError;

verus! {

/// How many separators a string holds.
pub open spec fn slash_count(s: Seq<char>) -> nat
    decreases s.len(),
{
    if s.len() == 0 {
        0
    } else {
        slash_count(s.drop_last()) + (if s.last() == '/' {
            1nat
        } else {
            0nat
        })
    }
}

/// An identifier is well-formed when it holds exactly one separator.
pub open spec fn valid_identifier(s: Seq<char>) -> bool {
    slash_count(s) == 1
}

/// The position of the first separator; `s.len()` when there is none.
pub open spec fn sep_index(s: Seq<char>) -> int
    decreases s.len(),
{
    if s.len() == 0 {
        0
    } else if s[0] == '/' {
        0
    } else {
        1 + sep_index(s.subrange(1, s.len() as int))
    }
}

/// The category part of a well-formed identifier: everything left of the
/// separator.
pub open spec fn spec_category(s: Seq<char>) -> Seq<char> {
    s.subrange(0, sep_index(s))
}

/// The ticket part of a well-formed identifier: everything right of the
/// separator, absent when that part is empty.
pub open spec fn spec_ticket_id(s: Seq<char>) -> Option<Seq<char>> {
    if sep_index(s) + 1 < s.len() {
        Some(s.subrange(sep_index(s) + 1, s.len() as int))
    } else {
        None
    }
}

/// The first separator-free position holding a separator is where
/// `sep_index` points.
proof fn lemma_sep_index_of_first(s: Seq<char>, i: int)
    requires
        0 <= i < s.len(),
        s[i] == '/',
        forall|j: int| 0 <= j < i ==> s[j] != '/',
    ensures
        sep_index(s) == i,
    decreases i,
{
    if i > 0 {
        let t = s.subrange(1, s.len() as int);
        assert(t[i - 1] == s[i]);
        assert forall|j: int| 0 <= j < i - 1 implies t[j] != '/' by {
            assert(t[j] == s[j + 1]);
        }
        lemma_sep_index_of_first(t, i - 1);
    }
}

/// Parses an identifier into its category and optional ticket part.
///
/// Succeeds exactly on identifiers with one separator; the category is the
/// left substring, the ticket part the right substring unless that is empty,
/// in which case the identifier addresses the category itself. Anything else
/// fails with the invalid-identifier error carrying the offending string.
pub fn identify_id(id: &str) -> (r: Result<(String, Option<String>), TicketError>)
    ensures
        r is Ok <==> valid_identifier(id@),
        (r matches Ok(p) ==> {
            let i = sep_index(id@);
            &&& 0 <= i < id@.len()
            &&& id@[i] == '/'
            &&& forall|j: int| 0 <= j < id@.len() && j != i ==> id@[j] != '/'
            &&& p.0@ == spec_category(id@)
            &&& (p.1 is Some <==> i + 1 < id@.len())
            &&& (p.1 matches Some(t) ==> t@ == id@.subrange(i + 1, id@.len() as int))
        }),
        (r matches Err(e) ==> e@ == ErrorV::InvalidIdentifier(id@)),
{
    let n = id.unicode_len();
    let mut i: usize = 0;
    let mut count: usize = 0;
    let mut first: usize = 0;
    while i < n
        invariant
            n == id@.len(),
            i <= n,
            count <= i,
            count as nat == slash_count(id@.take(i as int)),
            count >= 1 ==> (first < i && id@[first as int] == '/' && forall|j: int|
                0 <= j < first ==> id@[j] != '/'),
            count == 1 ==> forall|j: int| first < j < i ==> id@[j] != '/',
            count == 0 ==> forall|j: int| 0 <= j < i ==> id@[j] != '/',
        decreases n - i,
    {
        let c = id.get_char(i);
        proof {
            assert(id@.take(i as int + 1).drop_last() =~= id@.take(i as int));
            assert(id@.take(i as int + 1).last() == id@[i as int]);
        }
        if c == '/' {
            if count == 0 {
                first = i;
            }
            count = count + 1;
        }
        i = i + 1;
    }
    proof {
        assert(id@.take(n as int) =~= id@);
    }
    if count == 1 {
        proof {
            lemma_sep_index_of_first(id@, first as int);
        }
        let category = String::from_str(id.substring_char(0, first));
        let rest = id.substring_char(first + 1, n);
        let ticket_id = if rest.unicode_len() == 0 {
            None
        } else {
            Some(String::from_str(rest))
        };
        Ok((category, ticket_id))
    } else {
        Err(TicketError::InvalidIdentifier(String::from_str(id)))
    }
}

} // verus!
