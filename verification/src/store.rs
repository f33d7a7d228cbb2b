//! The store: the whole state of the ticket tracker as one value.
//!
//! The persisted layout is a flat two-level tree — categories under one
//! root, ticket files under categories, no other state — so a [`Store`]
//! holds exactly that: an initialized flag (the root's existence) and the
//! categories with their tickets. Every operation of the engine is a
//! function of this value; a caller that persists the store elsewhere
//! replays the documented transitions on its medium.
//!
//! Timestamps are supplied by the caller as an opaque clock reading (`now`)
//! and recorded on every write, as a filesystem records modification times;
//! listings order by them, oldest first.
use vstd::prelude::*;

use crate::codec::decode_content;
use crate::codec::spec_message;
use crate::codec::spec_title;
use crate::errors::ErrorV;
use crate::errors::TicketError;
use crate::node::NodeV;
use crate::node::Ticket;
use crate::node::node_key;
use crate::node::node_key_fn;
use crate::node::node_wf;
use crate::sorting::lemma_insert_by_key_at;
use crate::sorting::lemma_sort_by_key;
use crate::sorting::sort_by_key;
use crate::sorting::sorted_by_key;

verus! {

/// What a write-path operation did about content.
#[derive(PartialEq, Eq, Structural, Clone, Copy, Debug)]
pub enum WriteOutcome {
    /// The operation stored the supplied content.
    Done,
    /// All checks passed but no content was supplied: the caller is to
    /// obtain content from its external source and store it with
    /// [`Ticket::write`].
    NeedsContent,
}

/// One stored ticket: its identifier part, its raw content, and when it was
/// last written.
pub struct TicketFile {
    pub id: String,
    pub content: String,
    pub modified_at: u64,
}

/// One category: its name, its tickets, and when it last changed.
pub struct CategoryData {
    pub name: String,
    pub tickets: Vec<TicketFile>,
    pub modified_at: u64,
}

/// The whole store.
pub struct Store {
    /// Whether the storage root exists; its existence is the sole
    /// initialized-flag of the tracker.
    pub initialized: bool,
    pub categories: Vec<CategoryData>,
}

/// The mathematical image of a stored ticket.
#[verifier::ext_equal]
pub ghost struct TicketV {
    pub id: Seq<char>,
    pub content: Seq<char>,
    pub modified_at: u64,
}

/// The mathematical image of a category.
#[verifier::ext_equal]
pub ghost struct CategoryV {
    pub name: Seq<char>,
    pub tickets: Seq<TicketV>,
    pub modified_at: u64,
}

/// The mathematical image of the store.
#[verifier::ext_equal]
pub ghost struct StoreV {
    pub initialized: bool,
    pub categories: Seq<CategoryV>,
}

impl View for TicketFile {
    type V = TicketV;

    open spec fn view(&self) -> TicketV {
        TicketV { id: self.id@, content: self.content@, modified_at: self.modified_at }
    }
}

impl DeepView for TicketFile {
    type V = TicketV;

    open spec fn deep_view(&self) -> TicketV {
        self@
    }
}

impl View for CategoryData {
    type V = CategoryV;

    open spec fn view(&self) -> CategoryV {
        CategoryV {
            name: self.name@,
            tickets: self.tickets.deep_view(),
            modified_at: self.modified_at,
        }
    }
}

impl DeepView for CategoryData {
    type V = CategoryV;

    open spec fn deep_view(&self) -> CategoryV {
        self@
    }
}

impl View for Store {
    type V = StoreV;

    open spec fn view(&self) -> StoreV {
        StoreV { initialized: self.initialized, categories: self.categories.deep_view() }
    }
}

impl DeepView for Store {
    type V = StoreV;

    open spec fn deep_view(&self) -> StoreV {
        self@
    }
}

/// The position of the category called `name`; `-1` when there is none.
pub open spec fn find_cat(cats: Seq<CategoryV>, name: Seq<char>) -> int
    decreases cats.len(),
{
    if cats.len() == 0 {
        -1
    } else if cats[0].name == name {
        0
    } else {
        let r = find_cat(cats.drop_first(), name);
        if r < 0 {
            -1
        } else {
            1 + r
        }
    }
}

/// Whether a category called `name` is present.
pub open spec fn has_cat(cats: Seq<CategoryV>, name: Seq<char>) -> bool {
    find_cat(cats, name) >= 0
}

/// The position of the ticket called `id`; `-1` when there is none.
pub open spec fn find_ticket(ts: Seq<TicketV>, id: Seq<char>) -> int
    decreases ts.len(),
{
    if ts.len() == 0 {
        -1
    } else if ts[0].id == id {
        0
    } else {
        let r = find_ticket(ts.drop_first(), id);
        if r < 0 {
            -1
        } else {
            1 + r
        }
    }
}

/// Whether a ticket called `id` is present.
pub open spec fn has_ticket(ts: Seq<TicketV>, id: Seq<char>) -> bool {
    find_ticket(ts, id) >= 0
}

/// `find_cat` finds the first category of the name, or reports that none
/// exists.
pub proof fn lemma_find_cat(cats: Seq<CategoryV>, name: Seq<char>)
    ensures
        find_cat(cats, name) < 0 ==> forall|i: int| 0 <= i < cats.len() ==> cats[i].name != name,
        find_cat(cats, name) >= 0 ==> {
            &&& find_cat(cats, name) < cats.len()
            &&& cats[find_cat(cats, name)].name == name
            &&& forall|i: int| 0 <= i < find_cat(cats, name) ==> cats[i].name != name
        },
    decreases cats.len(),
{
    if cats.len() > 0 && cats[0].name != name {
        lemma_find_cat(cats.drop_first(), name);
        assert forall|i: int| 1 <= i < cats.len() implies cats.drop_first()[i - 1] == cats[i] by {}
    }
}

/// A category of the name at a position before which none matches is the
/// one `find_cat` finds.
pub proof fn lemma_find_cat_at(cats: Seq<CategoryV>, name: Seq<char>, i: int)
    requires
        0 <= i < cats.len(),
        cats[i].name == name,
        forall|j: int| 0 <= j < i ==> cats[j].name != name,
    ensures
        find_cat(cats, name) == i,
    decreases i,
{
    if i > 0 {
        let t = cats.drop_first();
        assert(t[i - 1] == cats[i]);
        assert forall|j: int| 0 <= j < i - 1 implies t[j].name != name by {
            assert(t[j] == cats[j + 1]);
        }
        lemma_find_cat_at(t, name, i - 1);
    }
}

/// `find_ticket` finds the first ticket of the id, or reports that none
/// exists.
pub proof fn lemma_find_ticket(ts: Seq<TicketV>, id: Seq<char>)
    ensures
        find_ticket(ts, id) < 0 ==> forall|i: int| 0 <= i < ts.len() ==> ts[i].id != id,
        find_ticket(ts, id) >= 0 ==> {
            &&& find_ticket(ts, id) < ts.len()
            &&& ts[find_ticket(ts, id)].id == id
            &&& forall|i: int| 0 <= i < find_ticket(ts, id) ==> ts[i].id != id
        },
    decreases ts.len(),
{
    if ts.len() > 0 && ts[0].id != id {
        lemma_find_ticket(ts.drop_first(), id);
        assert forall|i: int| 1 <= i < ts.len() implies ts.drop_first()[i - 1] == ts[i] by {}
    }
}

/// A ticket of the id at a position before which none matches is the one
/// `find_ticket` finds.
pub proof fn lemma_find_ticket_at(ts: Seq<TicketV>, id: Seq<char>, i: int)
    requires
        0 <= i < ts.len(),
        ts[i].id == id,
        forall|j: int| 0 <= j < i ==> ts[j].id != id,
    ensures
        find_ticket(ts, id) == i,
    decreases i,
{
    if i > 0 {
        let t = ts.drop_first();
        assert(t[i - 1] == ts[i]);
        assert forall|j: int| 0 <= j < i - 1 implies t[j].id != id by {
            assert(t[j] == ts[j + 1]);
        }
        lemma_find_ticket_at(t, id, i - 1);
    }
}

/// A separator-free name.
pub open spec fn name_ok(s: Seq<char>) -> bool {
    forall|j: int| 0 <= j < s.len() ==> s[j] != '/'
}

/// A ticket id: nonempty and separator-free.
pub open spec fn id_ok(s: Seq<char>) -> bool {
    s.len() > 0 && name_ok(s)
}

/// A well-formed category: a separator-free name and distinct, well-formed
/// ticket ids.
pub open spec fn cat_wf(c: CategoryV) -> bool {
    &&& name_ok(c.name)
    &&& forall|i: int, j: int|
        0 <= i < j < c.tickets.len() ==> c.tickets[i].id != c.tickets[j].id
    &&& forall|i: int| 0 <= i < c.tickets.len() ==> id_ok(#[trigger] c.tickets[i].id)
}

/// A well-formed store: distinct, well-formed categories, and none at all
/// before the root exists.
pub open spec fn store_wf(s: StoreV) -> bool {
    &&& forall|i: int, j: int|
        0 <= i < j < s.categories.len() ==> s.categories[i].name != s.categories[j].name
    &&& forall|i: int| 0 <= i < s.categories.len() ==> cat_wf(#[trigger] s.categories[i])
    &&& (!s.initialized ==> s.categories.len() == 0)
}

impl Store {
    /// An empty, uninitialized store.
    pub fn empty() -> (s: Store)
        ensures
            s@ == (StoreV { initialized: false, categories: Seq::<CategoryV>::empty() }),
            store_wf(s@),
    {
        let s = Store { initialized: false, categories: Vec::new() };
        proof {
            assert(s@ =~= StoreV { initialized: false, categories: Seq::<CategoryV>::empty() });
        }
        s
    }
}

/// Looks a category up by name; the position returned is the one
/// `find_cat` points at.
pub(crate) fn find_category(cats: &Vec<CategoryData>, name: &String) -> (r: Option<usize>)
    ensures
        r matches Some(i) ==> {
            &&& 0 <= i < cats.deep_view().len()
            &&& find_cat(cats.deep_view(), name@) == i as int
            &&& cats.deep_view()[i as int].name == name@
        },
        r is None ==> find_cat(cats.deep_view(), name@) < 0,
{
    let ghost cs = cats.deep_view();
    let n = cats.len();
    let mut i: usize = 0;
    while i < n
        invariant
            n == cats.len(),
            cs == cats.deep_view(),
            cs.len() == n as int,
            i <= n,
            forall|j: int| 0 <= j < i ==> cs[j].name != name@,
        decreases n - i,
    {
        proof {
            assert(cs[i as int] == cats@[i as int]@);
        }
        if cats[i].name == *name {
            proof {
                lemma_find_cat_at(cs, name@, i as int);
            }
            return Some(i);
        }
        i = i + 1;
    }
    proof {
        lemma_find_cat(cs, name@);
        if find_cat(cs, name@) >= 0 {
            assert(cs[find_cat(cs, name@)].name == name@);
        }
    }
    None
}

/// Looks a ticket up by id; the position returned is the one `find_ticket`
/// points at.
pub(crate) fn find_ticket_pos(ts: &Vec<TicketFile>, id: &String) -> (r: Option<usize>)
    ensures
        r matches Some(i) ==> {
            &&& 0 <= i < ts.deep_view().len()
            &&& find_ticket(ts.deep_view(), id@) == i as int
            &&& ts.deep_view()[i as int].id == id@
        },
        r is None ==> find_ticket(ts.deep_view(), id@) < 0,
{
    let ghost tv = ts.deep_view();
    let n = ts.len();
    let mut i: usize = 0;
    while i < n
        invariant
            n == ts.len(),
            tv == ts.deep_view(),
            tv.len() == n as int,
            i <= n,
            forall|j: int| 0 <= j < i ==> tv[j].id != id@,
        decreases n - i,
    {
        proof {
            assert(tv[i as int] == ts@[i as int]@);
        }
        if ts[i].id == *id {
            proof {
                lemma_find_ticket_at(tv, id@, i as int);
            }
            return Some(i);
        }
        i = i + 1;
    }
    proof {
        lemma_find_ticket(tv, id@);
        if find_ticket(tv, id@) >= 0 {
            assert(tv[find_ticket(tv, id@)].id == id@);
        }
    }
    None
}

/// Creates the storage root.
///
/// Fails when the root already exists; the store is never changed on
/// failure.
pub fn initialize_root(store: &mut Store) -> (r: Result<(), TicketError>)
    requires
        store_wf(old(store)@),
    ensures
        store_wf(final(store)@),
        old(store)@.initialized ==> (r matches Err(e) && e@ == ErrorV::RootAlreadyExists
            && final(store)@ == old(store)@),
        !old(store)@.initialized ==> r is Ok && final(store)@ == (StoreV {
            initialized: true,
            categories: old(store)@.categories,
        }),
{
    if store.initialized {
        return Err(TicketError::RootAlreadyExists);
    }
    store.initialized = true;
    Ok(())
}

/// Destroys the storage root and everything under it.
///
/// Fails when the root does not exist — the underlying not-found condition
/// surfaced as an error — and then changes nothing.
pub fn purge(store: &mut Store) -> (r: Result<(), TicketError>)
    requires
        store_wf(old(store)@),
    ensures
        store_wf(final(store)@),
        !old(store)@.initialized ==> (r matches Err(e) && e@ == ErrorV::NotFound
            && final(store)@ == old(store)@),
        old(store)@.initialized ==> r is Ok && final(store)@ == (StoreV {
            initialized: false,
            categories: Seq::<CategoryV>::empty(),
        }),
{
    if !store.initialized {
        return Err(TicketError::NotFound);
    }
    store.initialized = false;
    store.categories = Vec::new();
    proof {
        assert(store@ =~= StoreV { initialized: false, categories: Seq::<CategoryV>::empty() });
    }
    Ok(())
}

/// `ts` with `t` written: overwriting the ticket of the same id if one is
/// there, appended otherwise.
pub open spec fn replace_ticket(ts: Seq<TicketV>, t: TicketV) -> Seq<TicketV> {
    let i = find_ticket(ts, t.id);
    if i < 0 {
        ts.push(t)
    } else {
        ts.update(i, t)
    }
}

/// The store with the category at `ci` holding `ts` and touched at `now`.
pub open spec fn with_cat_tickets(s: StoreV, ci: int, ts: Seq<TicketV>, now: u64) -> StoreV {
    StoreV {
        initialized: s.initialized,
        categories: s.categories.update(
            ci,
            CategoryV { name: s.categories[ci].name, tickets: ts, modified_at: now },
        ),
    }
}

/// The store after writing ticket `t` into the category called `cat`:
/// meaningful when that category is present.
pub open spec fn spec_put(s: StoreV, cat: Seq<char>, t: TicketV, now: u64) -> StoreV {
    let ci = find_cat(s.categories, cat);
    with_cat_tickets(s, ci, replace_ticket(s.categories[ci].tickets, t), now)
}

/// Writing a well-formed ticket into a present category keeps the store
/// well-formed.
pub proof fn lemma_put_wf(s: StoreV, cat: Seq<char>, t: TicketV, now: u64)
    requires
        store_wf(s),
        has_cat(s.categories, cat),
        id_ok(t.id),
    ensures
        store_wf(spec_put(s, cat, t, now)),
{
    lemma_find_cat(s.categories, cat);
    let ci = find_cat(s.categories, cat);
    let ts = s.categories[ci].tickets;
    let new_ts = replace_ticket(ts, t);
    lemma_find_ticket(ts, t.id);
    let i = find_ticket(ts, t.id);
    assert(cat_wf(s.categories[ci]));
    if i < 0 {
        assert forall|a: int, b: int| 0 <= a < b < new_ts.len() implies new_ts[a].id
            != new_ts[b].id by {
            if b < ts.len() {
                assert(new_ts[a] == ts[a] && new_ts[b] == ts[b]);
            } else {
                assert(new_ts[a] == ts[a] && new_ts[b] == t);
            }
        }
        assert forall|a: int| 0 <= a < new_ts.len() implies id_ok(#[trigger] new_ts[a].id) by {
            if a < ts.len() {
                assert(new_ts[a] == ts[a]);
            }
        }
    } else {
        assert(ts[i].id == t.id);
        assert forall|a: int, b: int| 0 <= a < b < new_ts.len() implies new_ts[a].id
            != new_ts[b].id by {
            assert(new_ts[a].id == ts[a].id && new_ts[b].id == ts[b].id);
        }
        assert forall|a: int| 0 <= a < new_ts.len() implies id_ok(#[trigger] new_ts[a].id) by {
            assert(new_ts[a].id == ts[a].id);
        }
    }
    let s2 = spec_put(s, cat, t, now);
    assert forall|a: int| 0 <= a < s2.categories.len() implies cat_wf(
        #[trigger] s2.categories[a],
    ) by {
        if a != ci {
            assert(s2.categories[a] == s.categories[a]);
        }
    }
    assert forall|a: int, b: int| 0 <= a < b < s2.categories.len() implies s2.categories[a].name
        != s2.categories[b].name by {
        assert(s2.categories[a].name == s.categories[a].name);
        assert(s2.categories[b].name == s.categories[b].name);
    }
}

impl Ticket {
    /// Creates this node's category (and the root with it, as a needed
    /// parent segment).
    ///
    /// Fails when the category already exists; the store is never changed
    /// on failure.
    pub fn initialize_directory(&self, store: &mut Store, now: u64) -> (r: Result<
        (),
        TicketError,
    >)
        requires
            node_wf(self@),
            store_wf(old(store)@),
        ensures
            store_wf(final(store)@),
            has_cat(old(store)@.categories, self@.category) ==> (r matches Err(e) && e@
                == ErrorV::AlreadyExists && final(store)@ == old(store)@),
            !has_cat(old(store)@.categories, self@.category) ==> (r is Ok && final(store)@ == (
            StoreV {
                initialized: true,
                categories: old(store)@.categories.push(
                    CategoryV {
                        name: self@.category,
                        tickets: Seq::<TicketV>::empty(),
                        modified_at: now,
                    },
                ),
            })),
    {
        let ghost s0 = store@;
        match find_category(&store.categories, &self.category) {
            Some(_) => Err(TicketError::AlreadyExists),
            None => {
                store.initialized = true;
                store.categories.push(
                    CategoryData { name: self.category.clone(), tickets: Vec::new(), modified_at: now },
                );
                proof {
                    let cv = CategoryV {
                        name: self@.category,
                        tickets: Seq::<TicketV>::empty(),
                        modified_at: now,
                    };
                    assert(store.categories@[s0.categories.len() as int]@ =~= cv);
                    assert(store.categories.deep_view() =~= s0.categories.push(cv));
                    assert(store@ =~= StoreV {
                        initialized: true,
                        categories: s0.categories.push(cv),
                    });
                    lemma_find_cat(s0.categories, self@.category);
                    let s2 = store@;
                    assert forall|a: int, b: int|
                        0 <= a < b < s2.categories.len() implies s2.categories[a].name
                        != s2.categories[b].name by {
                        if b < s0.categories.len() {
                            assert(s2.categories[a] == s0.categories[a]);
                            assert(s2.categories[b] == s0.categories[b]);
                        } else {
                            assert(s2.categories[a] == s0.categories[a]);
                            assert(s2.categories[b] == cv);
                        }
                    }
                    assert forall|a: int| 0 <= a < s2.categories.len() implies cat_wf(
                        #[trigger] s2.categories[a],
                    ) by {
                        if a < s0.categories.len() {
                            assert(s2.categories[a] == s0.categories[a]);
                        } else {
                            assert(s2.categories[a] == cv);
                        }
                    }
                }
                Ok(())
            },
        }
    }

    /// Stores `content` verbatim as this ticket's file.
    ///
    /// Writes over whatever the ticket held; fails when the parent category
    /// is absent — the missing-path condition of the medium — and then
    /// changes nothing.
    pub fn write(&self, store: &mut Store, content: &str, now: u64) -> (r: Result<
        (),
        TicketError,
    >)
        requires
            node_wf(self@),
            !self@.is_dir,
            store_wf(old(store)@),
        ensures
            store_wf(final(store)@),
            !has_cat(old(store)@.categories, self@.category) ==> (r matches Err(e) && e@
                == ErrorV::CategoryNotFound && final(store)@ == old(store)@),
            has_cat(old(store)@.categories, self@.category) ==> (r is Ok && final(store)@
                == spec_put(
                old(store)@,
                self@.category,
                TicketV { id: self@.id->0, content: content@, modified_at: now },
                now,
            )),
    {
        let ghost s0 = store@;
        let ghost tv = TicketV { id: self@.id->0, content: content@, modified_at: now };
        let id = match &self.id {
            Some(id) => id,
            None => {
                proof {
                    assert(false);
                }
                return Err(TicketError::CategoryNotFound);
            },
        };
        match find_category(&store.categories, &self.category) {
            None => Err(TicketError::CategoryNotFound),
            Some(ci) => {
                let ghost old_ts = s0.categories[ci as int].tickets;
                let c = &mut store.categories[ci];
                let ghost c0 = *c;
                match find_ticket_pos(&c.tickets, id) {
                    Some(ti) => {
                        let slot = &mut c.tickets[ti];
                        slot.content = String::from_str(content);
                        slot.modified_at = now;
                        proof {
                            assert(c.tickets@[ti as int]@ =~= tv);
                            assert(c.tickets.deep_view() =~= replace_ticket(old_ts, tv));
                        }
                    },
                    None => {
                        c.tickets.push(
                            TicketFile {
                                id: id.clone(),
                                content: String::from_str(content),
                                modified_at: now,
                            },
                        );
                        proof {
                            assert(c.tickets@[old_ts.len() as int]@ =~= tv);
                            assert(c.tickets.deep_view() =~= replace_ticket(old_ts, tv));
                        }
                    },
                }
                c.modified_at = now;
                proof {
                    assert(c@ =~= CategoryV {
                        name: s0.categories[ci as int].name,
                        tickets: replace_ticket(old_ts, tv),
                        modified_at: now,
                    });
                }
                proof {
                    assert(store.categories.deep_view() =~= s0.categories.update(
                        ci as int,
                        CategoryV {
                            name: s0.categories[ci as int].name,
                            tickets: replace_ticket(old_ts, tv),
                            modified_at: now,
                        },
                    ));
                    assert(store@ =~= spec_put(s0, self@.category, tv, now));
                    lemma_put_wf(s0, self@.category, tv, now);
                }
                Ok(())
            },
        }
    }

    /// Creates the node: the category directory for a category node, the
    /// ticket file for a ticket node.
    ///
    /// Fails when the path already exists, and for a ticket also when its
    /// category is absent; the store is never changed on failure. A ticket
    /// created without pending content passes all checks and reports
    /// [`WriteOutcome::NeedsContent`] instead of storing anything.
    pub fn new(&self, store: &mut Store, now: u64) -> (r: Result<WriteOutcome, TicketError>)
        requires
            node_wf(self@),
            store_wf(old(store)@),
        ensures
            store_wf(final(store)@),
            ({
                let s0 = old(store)@;
                let s1 = final(store)@;
                let n = self@;
                let ci = find_cat(s0.categories, n.category);
                if n.is_dir {
                    if ci >= 0 {
                        r matches Err(e) && e@ == ErrorV::AlreadyExists && s1 == s0
                    } else {
                        r matches Ok(o) && o is Done && s1 == (StoreV {
                            initialized: true,
                            categories: s0.categories.push(
                                CategoryV {
                                    name: n.category,
                                    tickets: Seq::<TicketV>::empty(),
                                    modified_at: now,
                                },
                            ),
                        })
                    }
                } else {
                    if ci >= 0 && has_ticket(s0.categories[ci].tickets, n.id->0) {
                        r matches Err(e) && e@ == ErrorV::AlreadyExists && s1 == s0
                    } else if ci < 0 {
                        r matches Err(e) && e@ == ErrorV::CategoryNotFound && s1 == s0
                    } else if n.title is Some {
                        r matches Ok(o) && o is Done && s1 == spec_put(
                            s0,
                            n.category,
                            TicketV { id: n.id->0, content: n.title->0, modified_at: now },
                            now,
                        )
                    } else {
                        r matches Ok(o) && o is NeedsContent && s1 == s0
                    }
                }
            }),
    {
        if self.is_dir {
            if find_category(&store.categories, &self.category).is_some() {
                return Err(TicketError::AlreadyExists);
            }
            match self.initialize_directory(store, now) {
                Ok(()) => Ok(WriteOutcome::Done),
                Err(e) => Err(e),
            }
        } else {
            match find_category(&store.categories, &self.category) {
                None => Err(TicketError::CategoryNotFound),
                Some(ci) => {
                    let id = match &self.id {
                        Some(id) => id,
                        None => {
                            proof {
                                assert(false);
                            }
                            return Err(TicketError::CategoryNotFound);
                        },
                    };
                    if find_ticket_pos(&store.categories[ci].tickets, id).is_some() {
                        proof {
                            assert(store.categories@[ci as int]@ == store.categories.deep_view()[
                                ci as int
                            ]);
                        }
                        return Err(TicketError::AlreadyExists);
                    }
                    proof {
                        assert(store.categories@[ci as int]@ == store.categories.deep_view()[
                            ci as int
                        ]);
                    }
                    match &self.title {
                        Some(t) => {
                            let content = t.clone();
                            match self.write(store, content.as_str(), now) {
                                Ok(()) => Ok(WriteOutcome::Done),
                                Err(e) => Err(e),
                            }
                        },
                        None => Ok(WriteOutcome::NeedsContent),
                    }
                },
            }
        }
    }

    /// Rewrites an existing ticket's content.
    ///
    /// Fails when the path is absent, and on a category node, which cannot
    /// be edited; the store is never changed on failure. A ticket edited
    /// without pending content passes all checks and reports
    /// [`WriteOutcome::NeedsContent`] instead of storing anything.
    pub fn edit(&self, store: &mut Store, now: u64) -> (r: Result<WriteOutcome, TicketError>)
        requires
            node_wf(self@),
            store_wf(old(store)@),
        ensures
            store_wf(final(store)@),
            ({
                let s0 = old(store)@;
                let s1 = final(store)@;
                let n = self@;
                let ci = find_cat(s0.categories, n.category);
                if n.is_dir {
                    if ci >= 0 {
                        r matches Err(e) && e@ == ErrorV::CategoryNotEditable && s1 == s0
                    } else {
                        r matches Err(e) && e@ == ErrorV::NotFound && s1 == s0
                    }
                } else {
                    if ci < 0 || !has_ticket(s0.categories[ci].tickets, n.id->0) {
                        r matches Err(e) && e@ == ErrorV::NotFound && s1 == s0
                    } else if n.title is Some {
                        r matches Ok(o) && o is Done && s1 == spec_put(
                            s0,
                            n.category,
                            TicketV { id: n.id->0, content: n.title->0, modified_at: now },
                            now,
                        )
                    } else {
                        r matches Ok(o) && o is NeedsContent && s1 == s0
                    }
                }
            }),
    {
        if self.is_dir {
            if find_category(&store.categories, &self.category).is_some() {
                return Err(TicketError::CategoryNotEditable);
            }
            return Err(TicketError::NotFound);
        }
        match find_category(&store.categories, &self.category) {
            None => Err(TicketError::NotFound),
            Some(ci) => {
                let id = match &self.id {
                    Some(id) => id,
                    None => {
                        proof {
                            assert(false);
                        }
                        return Err(TicketError::NotFound);
                    },
                };
                if find_ticket_pos(&store.categories[ci].tickets, id).is_none() {
                    proof {
                        assert(store.categories@[ci as int]@ == store.categories.deep_view()[
                            ci as int
                        ]);
                    }
                    return Err(TicketError::NotFound);
                }
                proof {
                    assert(store.categories@[ci as int]@ == store.categories.deep_view()[
                        ci as int
                    ]);
                }
                match &self.title {
                    Some(t) => {
                        let content = t.clone();
                        match self.write(store, content.as_str(), now) {
                            Ok(()) => Ok(WriteOutcome::Done),
                            Err(e) => Err(e),
                        }
                    },
                    None => Ok(WriteOutcome::NeedsContent),
                }
            },
        }
    }

    /// Reads the node from the store, populating what a read populates: the
    /// modification timestamp, and for a ticket also the decoded title and
    /// message. Nothing else of the node changes.
    ///
    /// Fails when the path is absent — the missing-path condition of the
    /// medium — and then leaves the node unchanged.
    pub fn read(&mut self, store: &Store) -> (r: Result<(), TicketError>)
        requires
            node_wf(old(self)@),
            store_wf(store@),
        ensures
            node_wf(final(self)@),
            ({
                let n0 = old(self)@;
                let n1 = final(self)@;
                let ci = find_cat(store@.categories, n0.category);
                if n0.is_dir {
                    if ci >= 0 {
                        r is Ok && n1 == (NodeV {
                            modified_at: Some(store@.categories[ci].modified_at),
                            ..n0
                        })
                    } else {
                        r matches Err(e) && e@ == ErrorV::NotFound && n1 == n0
                    }
                } else {
                    let ti = if ci >= 0 {
                        find_ticket(store@.categories[ci].tickets, n0.id->0)
                    } else {
                        -1
                    };
                    if ci >= 0 && ti >= 0 {
                        let t = store@.categories[ci].tickets[ti];
                        r is Ok && n1 == (NodeV {
                            title: Some(spec_title(t.content)),
                            message: spec_message(t.content),
                            modified_at: Some(t.modified_at),
                            ..n0
                        })
                    } else {
                        r matches Err(e) && e@ == ErrorV::NotFound && n1 == n0
                    }
                }
            }),
    {
        let ghost n0 = self@;
        match find_category(&store.categories, &self.category) {
            None => Err(TicketError::NotFound),
            Some(ci) => {
                proof {
                    assert(store.categories@[ci as int]@ == store.categories.deep_view()[
                        ci as int
                    ]);
                }
                if self.is_dir {
                    self.modified_at = Some(store.categories[ci].modified_at);
                    proof {
                        assert(self@ =~= NodeV {
                            modified_at: Some(store@.categories[ci as int].modified_at),
                            ..n0
                        });
                    }
                    Ok(())
                } else {
                    let id = match &self.id {
                        Some(id) => id,
                        None => {
                            proof {
                                assert(false);
                            }
                            return Err(TicketError::NotFound);
                        },
                    };
                    match find_ticket_pos(&store.categories[ci].tickets, id) {
                        None => Err(TicketError::NotFound),
                        Some(ti) => {
                            let t = &store.categories[ci].tickets[ti];
                            proof {
                                assert(t@ == store@.categories[ci as int].tickets[ti as int]);
                            }
                            let (title, message) = decode_content(t.content.as_str());
                            let modified = t.modified_at;
                            self.title = Some(title);
                            self.message = message;
                            self.modified_at = Some(modified);
                            proof {
                                let tv = store@.categories[ci as int].tickets[ti as int];
                                assert(self@ =~= NodeV {
                                    title: Some(spec_title(tv.content)),
                                    message: spec_message(tv.content),
                                    modified_at: Some(tv.modified_at),
                                    ..n0
                                });
                            }
                            Ok(())
                        },
                    }
                }
            },
        }
    }

    /// Removes the node: the whole category subtree for a category node,
    /// the single ticket file for a ticket node, touching nothing else.
    ///
    /// A missing target surfaces the underlying not-found condition as an
    /// error, and then nothing changes.
    pub fn remove(&self, store: &mut Store, now: u64) -> (r: Result<(), TicketError>)
        requires
            node_wf(self@),
            store_wf(old(store)@),
        ensures
            store_wf(final(store)@),
            ({
                let s0 = old(store)@;
                let s1 = final(store)@;
                let n = self@;
                let ci = find_cat(s0.categories, n.category);
                if n.is_dir {
                    if ci >= 0 {
                        r is Ok && s1 == (StoreV {
                            initialized: s0.initialized,
                            categories: s0.categories.remove(ci),
                        })
                    } else {
                        r matches Err(e) && e@ == ErrorV::NotFound && s1 == s0
                    }
                } else {
                    let ti = if ci >= 0 {
                        find_ticket(s0.categories[ci].tickets, n.id->0)
                    } else {
                        -1
                    };
                    if ci >= 0 && ti >= 0 {
                        r is Ok && s1 == with_cat_tickets(
                            s0,
                            ci,
                            s0.categories[ci].tickets.remove(ti),
                            now,
                        )
                    } else {
                        r matches Err(e) && e@ == ErrorV::NotFound && s1 == s0
                    }
                }
            }),
    {
        let ghost s0 = store@;
        match find_category(&store.categories, &self.category) {
            None => Err(TicketError::NotFound),
            Some(ci) => {
                if self.is_dir {
                    store.categories.remove(ci);
                    proof {
                        assert(store.categories.deep_view() =~= s0.categories.remove(ci as int));
                        assert(store@ =~= StoreV {
                            initialized: s0.initialized,
                            categories: s0.categories.remove(ci as int),
                        });
                        let s2 = store@;
                        assert forall|a: int, b: int|
                            0 <= a < b < s2.categories.len() implies s2.categories[a].name
                            != s2.categories[b].name by {
                            assert(s2.categories[a] == if a < ci as int {
                                s0.categories[a]
                            } else {
                                s0.categories[a + 1]
                            });
                            assert(s2.categories[b] == if b < ci as int {
                                s0.categories[b]
                            } else {
                                s0.categories[b + 1]
                            });
                        }
                        assert forall|a: int| 0 <= a < s2.categories.len() implies cat_wf(
                            #[trigger] s2.categories[a],
                        ) by {
                            assert(s2.categories[a] == if a < ci as int {
                                s0.categories[a]
                            } else {
                                s0.categories[a + 1]
                            });
                        }
                    }
                    Ok(())
                } else {
                    proof {
                        assert(store.categories@[ci as int]@ == store.categories.deep_view()[
                            ci as int
                        ]);
                    }
                    let id = match &self.id {
                        Some(id) => id,
                        None => {
                            proof {
                                assert(false);
                            }
                            return Err(TicketError::NotFound);
                        },
                    };
                    let ghost old_ts = s0.categories[ci as int].tickets;
                    let c = &mut store.categories[ci];
                    match find_ticket_pos(&c.tickets, id) {
                        None => {
                            proof {
                                assert(store.categories.deep_view() =~= s0.categories);
                                assert(store@ =~= s0);
                            }
                            Err(TicketError::NotFound)
                        },
                        Some(ti) => {
                            c.tickets.remove(ti);
                            c.modified_at = now;
                            proof {
                                assert(c.tickets.deep_view() =~= old_ts.remove(ti as int));
                                assert(c@ =~= CategoryV {
                                    name: s0.categories[ci as int].name,
                                    tickets: old_ts.remove(ti as int),
                                    modified_at: now,
                                });
                            }
                            proof {
                                assert(store.categories.deep_view() =~= s0.categories.update(
                                    ci as int,
                                    CategoryV {
                                        name: s0.categories[ci as int].name,
                                        tickets: old_ts.remove(ti as int),
                                        modified_at: now,
                                    },
                                ));
                                assert(store@ =~= with_cat_tickets(
                                    s0,
                                    ci as int,
                                    old_ts.remove(ti as int),
                                    now,
                                ));
                                let s2 = store@;
                                let new_ts = old_ts.remove(ti as int);
                                assert(cat_wf(s0.categories[ci as int]));
                                assert forall|a: int, b: int|
                                    0 <= a < b < new_ts.len() implies new_ts[a].id
                                    != new_ts[b].id by {
                                    assert(new_ts[a] == if a < ti as int {
                                        old_ts[a]
                                    } else {
                                        old_ts[a + 1]
                                    });
                                    assert(new_ts[b] == if b < ti as int {
                                        old_ts[b]
                                    } else {
                                        old_ts[b + 1]
                                    });
                                }
                                assert forall|a: int| 0 <= a < new_ts.len() implies id_ok(
                                    #[trigger] new_ts[a].id,
                                ) by {
                                    assert(new_ts[a] == if a < ti as int {
                                        old_ts[a]
                                    } else {
                                        old_ts[a + 1]
                                    });
                                }
                                assert forall|a: int| 0 <= a < s2.categories.len() implies cat_wf(
                                    #[trigger] s2.categories[a],
                                ) by {
                                    if a != ci as int {
                                        assert(s2.categories[a] == s0.categories[a]);
                                    }
                                }
                                assert forall|a: int, b: int|
                                    0 <= a < b < s2.categories.len() implies s2.categories[a].name
                                    != s2.categories[b].name by {
                                    assert(s2.categories[a].name == s0.categories[a].name);
                                    assert(s2.categories[b].name == s0.categories[b].name);
                                }
                            }
                            Ok(())
                        },
                    }
                }
            },
        }
    }
}

/// `ts` without the ticket called `id`, if one is there.
pub open spec fn without_ticket(ts: Seq<TicketV>, id: Seq<char>) -> Seq<TicketV> {
    let i = find_ticket(ts, id);
    if i < 0 {
        ts
    } else {
        ts.remove(i)
    }
}

/// Whether a single-ticket move can go through: the source ticket and the
/// destination category are both there.
pub open spec fn spec_movable(
    s: StoreV,
    src_cat: Seq<char>,
    src_id: Seq<char>,
    dst_cat: Seq<char>,
) -> bool {
    let si = find_cat(s.categories, src_cat);
    &&& si >= 0
    &&& has_ticket(s.categories[si].tickets, src_id)
    &&& has_cat(s.categories, dst_cat)
}

/// The store after moving one ticket: first the copy into the destination,
/// then the deletion of the source — so a move onto the very same path
/// ends with the ticket gone, as copy-then-delete does. Meaningful when
/// the move can go through.
pub open spec fn spec_move(
    s: StoreV,
    src_cat: Seq<char>,
    src_id: Seq<char>,
    dst_cat: Seq<char>,
    dst_id: Seq<char>,
    now: u64,
) -> StoreV {
    let si = find_cat(s.categories, src_cat);
    let ti = find_ticket(s.categories[si].tickets, src_id);
    let content = s.categories[si].tickets[ti].content;
    let s1 = spec_put(s, dst_cat, TicketV { id: dst_id, content, modified_at: now }, now);
    let si1 = find_cat(s1.categories, src_cat);
    with_cat_tickets(s1, si1, without_ticket(s1.categories[si1].tickets, src_id), now)
}

/// The store after moving the children out of `src_cat` into `dst_cat`:
/// one ticket move per child, in order, every id preserved. Only the ids
/// of `children` matter — each move reads its content from the state the
/// previous moves left.
pub open spec fn spec_move_children(
    s: StoreV,
    src_cat: Seq<char>,
    dst_cat: Seq<char>,
    children: Seq<TicketV>,
    now: u64,
) -> StoreV
    decreases children.len(),
{
    if children.len() == 0 {
        s
    } else {
        spec_move_children(
            spec_move(s, src_cat, children[0].id, dst_cat, children[0].id, now),
            src_cat,
            dst_cat,
            children.drop_first(),
            now,
        )
    }
}

/// `find_cat` sees only the names, so it is blind to any change that keeps
/// them.
pub proof fn lemma_find_cat_names(a: Seq<CategoryV>, b: Seq<CategoryV>, name: Seq<char>)
    requires
        a.len() == b.len(),
        forall|i: int| 0 <= i < a.len() ==> a[i].name == b[i].name,
    ensures
        find_cat(a, name) == find_cat(b, name),
    decreases a.len(),
{
    if a.len() > 0 {
        let at = a.drop_first();
        let bt = b.drop_first();
        assert forall|i: int| 0 <= i < at.len() implies at[i].name == bt[i].name by {
            assert(at[i] == a[i + 1] && bt[i] == b[i + 1]);
        }
        lemma_find_cat_names(at, bt, name);
    }
}

/// Deleting one ticket of one category keeps the store well-formed.
pub proof fn lemma_remove_at_wf(s: StoreV, ci: int, ti: int, now: u64)
    requires
        store_wf(s),
        0 <= ci < s.categories.len(),
        0 <= ti < s.categories[ci].tickets.len(),
    ensures
        store_wf(with_cat_tickets(s, ci, s.categories[ci].tickets.remove(ti), now)),
{
    let old_ts = s.categories[ci].tickets;
    let new_ts = old_ts.remove(ti);
    let s2 = with_cat_tickets(s, ci, new_ts, now);
    assert(cat_wf(s.categories[ci]));
    assert forall|a: int, b: int| 0 <= a < b < new_ts.len() implies new_ts[a].id
        != new_ts[b].id by {
        assert(new_ts[a] == if a < ti {
            old_ts[a]
        } else {
            old_ts[a + 1]
        });
        assert(new_ts[b] == if b < ti {
            old_ts[b]
        } else {
            old_ts[b + 1]
        });
    }
    assert forall|a: int| 0 <= a < new_ts.len() implies id_ok(#[trigger] new_ts[a].id) by {
        assert(new_ts[a] == if a < ti {
            old_ts[a]
        } else {
            old_ts[a + 1]
        });
    }
    assert forall|a: int| 0 <= a < s2.categories.len() implies cat_wf(
        #[trigger] s2.categories[a],
    ) by {
        if a != ci {
            assert(s2.categories[a] == s.categories[a]);
        }
    }
    assert forall|a: int, b: int| 0 <= a < b < s2.categories.len() implies s2.categories[a].name
        != s2.categories[b].name by {
        assert(s2.categories[a].name == s.categories[a].name);
        assert(s2.categories[b].name == s.categories[b].name);
    }
}

/// The node a listing builds for a stored ticket: addressed through its
/// category, fully read.
pub open spec fn node_of(cat: Seq<char>, t: TicketV) -> NodeV {
    NodeV {
        path: cat + seq!['/'] + t.id,
        id: Some(t.id),
        category: cat,
        title: Some(spec_title(t.content)),
        message: spec_message(t.content),
        is_dir: false,
        modified_at: Some(t.modified_at),
    }
}

/// The nodes a listing builds for a category's tickets, in stored order.
pub open spec fn nodes_of(cat: Seq<char>, ts: Seq<TicketV>) -> Seq<NodeV> {
    ts.map_values(|t: TicketV| node_of(cat, t))
}

/// Whether `a` must come after `x` in a listing.
fn node_key_gt(a: &Ticket, x: &Ticket) -> (r: bool)
    ensures
        r == (node_key(a@) > node_key(x@)),
{
    match (&a.modified_at, &x.modified_at) {
        (None, _) => false,
        (Some(_), None) => true,
        (Some(u), Some(w)) => *u > *w,
    }
}

/// Sorts nodes ascending by modification timestamp, stably.
pub fn sort_nodes(v: Vec<Ticket>) -> (r: Vec<Ticket>)
    ensures
        r.deep_view() == sort_by_key(v.deep_view(), node_key_fn()),
{
    let ghost v0 = v.deep_view();
    let mut src = v;
    let mut out: Vec<Ticket> = Vec::new();
    proof {
        assert(src.deep_view() =~= v0.skip(0));
        assert(out.deep_view() =~= sort_by_key(v0.take(0), node_key_fn()));
    }
    while src.len() > 0
        invariant
            src.deep_view() =~= v0.skip(v0.len() - src@.len()),
            src@.len() <= v0.len(),
            out.deep_view() == sort_by_key(v0.take(v0.len() - src@.len()), node_key_fn()),
        decreases src.len(),
    {
        let ghost k = v0.len() - src@.len();
        let ghost out0 = out.deep_view();
        let ghost sv_pre = src@;
        proof {
            lemma_sort_by_key(v0.take(k), node_key_fn());
            assert(src.deep_view()[0] == sv_pre[0]@);
        }
        let x = src.remove(0);
        proof {
            assert(x == sv_pre[0]);
            assert(x@ == v0.skip(k)[0]);
            assert(x@ == v0[k]);
            assert forall|j: int| 0 <= j < src@.len() implies src.deep_view()[j] == v0.skip(
                k + 1,
            )[j] by {
                assert(src.deep_view()[j] == src@[j]@);
                assert(src@[j] == sv_pre[j + 1]);
                assert(sv_pre[j + 1]@ == v0.skip(k)[j + 1]);
            }
            assert(src.deep_view() =~= v0.skip(k + 1));
        }
        let mut p: usize = out.len();
        proof {
            assert(out0.len() == v0.take(k).len());
        }
        while p > 0 && node_key_gt(&out[p - 1], &x)
            invariant
                p <= out.len(),
                out.deep_view() == out0,
                out@.len() == out0.len(),
                x@ == v0[k as int],
                forall|j: int| p <= j < out0.len() ==> node_key(out0[j]) > node_key(x@),
            decreases p,
        {
            proof {
                assert(out.deep_view()[p - 1] == out@[p - 1]@);
            }
            p = p - 1;
        }
        proof {
            assert(sorted_by_key(out0, node_key_fn()));
            if p > 0 {
                assert(out.deep_view()[p - 1] == out@[p - 1]@);
                assert(node_key(out0[p - 1]) <= node_key(x@));
            }
            assert forall|j: int| 0 <= j < p implies node_key_fn()(out0[j]) <= node_key_fn()(
                x@,
            ) by {
                if p > 0 && j < p - 1 {
                    assert(node_key_fn()(out0[j]) <= node_key_fn()(out0[p - 1]));
                }
            }
            assert forall|j: int| p <= j < out0.len() implies node_key_fn()(out0[j])
                > node_key_fn()(x@) by {
                assert(node_key(out0[j]) > node_key(x@));
            }
        }
        let ghost ov_pre = out@;
        out.insert(p, x);
        proof {
            lemma_insert_by_key_at(out0, x@, node_key_fn(), p as int);
            assert forall|j: int| 0 <= j < out@.len() implies out.deep_view()[j] == out0.insert(
                p as int,
                x@,
            )[j] by {
                assert(out.deep_view()[j] == out@[j]@);
                assert(out@ == ov_pre.insert(p as int, x));
                if j < p as int {
                    assert(out@[j] == ov_pre[j]);
                    assert(ov_pre[j]@ == out0[j]);
                } else if j == p as int {
                    assert(out@[j] == x);
                } else {
                    assert(out@[j] == ov_pre[j - 1]);
                    assert(ov_pre[j - 1]@ == out0[j - 1]);
                }
            }
            assert(out.deep_view() =~= out0.insert(p as int, x@));
            assert(v0.take(k + 1).drop_last() =~= v0.take(k));
            assert(v0.take(k + 1).last() == v0[k]);
            assert(out.deep_view() == sort_by_key(v0.take(k + 1), node_key_fn()));
        }
    }
    proof {
        assert(v0.take(v0.len() as int) =~= v0);
    }
    out
}

/// The listing a category yields: one fully read node per ticket,
/// ascending by modification timestamp, ties keeping their stored order.
pub fn category_nodes(name: &String, c: &CategoryData) -> (r: Vec<Ticket>)
    ensures
        r.deep_view() == sort_by_key(nodes_of(name@, c@.tickets), node_key_fn()),
{
    let ghost cat = name@;
    let ghost ts = c@.tickets;
    let n = c.tickets.len();
    let mut nodes: Vec<Ticket> = Vec::new();
    let mut i: usize = 0;
    proof {
        assert(nodes.deep_view() =~= nodes_of(cat, ts.take(0)));
    }
    while i < n
        invariant
            n == c.tickets.len(),
            ts == c.tickets.deep_view(),
            ts.len() == n as int,
            cat == name@,
            i <= n,
            nodes.deep_view() == nodes_of(cat, ts.take(i as int)),
        decreases n - i,
    {
        let t = &c.tickets[i];
        proof {
            assert(t@ == ts[i as int]);
        }
        let (title, message) = decode_content(t.content.as_str());
        let mut path = name.clone();
        path.append("/");
        path.append(t.id.as_str());
        let node = Ticket {
            path,
            id: Some(t.id.clone()),
            category: name.clone(),
            title: Some(title),
            message,
            is_dir: false,
            modified_at: Some(t.modified_at),
        };
        proof {
            reveal_strlit("/");
            assert("/"@ =~= seq!['/']);
            assert(node@ =~= node_of(cat, ts[i as int]));
        }
        nodes.push(node);
        proof {
            assert(nodes_of(cat, ts.take(i + 1)) =~= nodes_of(cat, ts.take(i as int)).push(
                node_of(cat, ts[i as int]),
            ));
            assert(nodes.deep_view() =~= nodes_of(cat, ts.take(i + 1)));
        }
        i = i + 1;
    }
    proof {
        assert(ts.take(n as int) =~= ts);
    }
    sort_nodes(nodes)
}

/// The listing key of a category: its own modification timestamp.
pub open spec fn cat_key_fn() -> spec_fn(CategoryV) -> int {
    |c: CategoryV| c.modified_at as int
}

/// A value-equal copy of a stored ticket.
fn duplicate_ticket(t: &TicketFile) -> (r: TicketFile)
    ensures
        r@ == t@,
{
    TicketFile { id: t.id.clone(), content: t.content.clone(), modified_at: t.modified_at }
}

/// A value-equal copy of a category.
fn duplicate_category(c: &CategoryData) -> (r: CategoryData)
    ensures
        r@ == c@,
{
    let n = c.tickets.len();
    let mut tickets: Vec<TicketFile> = Vec::new();
    let mut i: usize = 0;
    proof {
        assert(tickets.deep_view() =~= c@.tickets.take(0));
    }
    while i < n
        invariant
            n == c.tickets.len(),
            c@.tickets.len() == n as int,
            i <= n,
            tickets.deep_view() == c@.tickets.take(i as int),
        decreases n - i,
    {
        proof {
            assert(c.tickets@[i as int]@ == c@.tickets[i as int]);
        }
        let ghost pre = tickets@;
        let ghost pre_dv = tickets.deep_view();
        proof {
            assert(pre_dv.len() == pre.len());
            assert(pre.len() == i as int);
            assert forall|j: int| 0 <= j < pre.len() implies pre_dv[j] == pre[j]@ by {
                assert(tickets.deep_view()[j] == tickets@[j]@);
            }
        }
        tickets.push(duplicate_ticket(&c.tickets[i]));
        proof {
            assert forall|j: int| 0 <= j < tickets@.len() implies tickets.deep_view()[j]
                == c@.tickets.take(i + 1)[j] by {
                assert(tickets.deep_view()[j] == tickets@[j]@);
                if j < i as int {
                    assert(tickets@[j] == pre[j]);
                    assert(pre[j]@ == pre_dv[j]);
                }
            }
            assert(tickets.deep_view() =~= c@.tickets.take(i + 1));
        }
        i = i + 1;
    }
    proof {
        assert(c@.tickets.take(n as int) =~= c@.tickets);
    }
    let r = CategoryData { name: c.name.clone(), tickets, modified_at: c.modified_at };
    proof {
        assert(r@ =~= c@);
    }
    r
}

/// Whether category `a` must come after category `x` in the whole-store
/// listing.
fn cat_key_gt(a: &CategoryData, x: &CategoryData) -> (r: bool)
    ensures
        r == (cat_key_fn()(a@) > cat_key_fn()(x@)),
{
    a.modified_at > x.modified_at
}

/// Copies the categories into a list sorted ascending by their own
/// modification timestamp, stably.
pub fn sorted_categories(cats: &Vec<CategoryData>) -> (r: Vec<CategoryData>)
    ensures
        r.deep_view() == sort_by_key(cats.deep_view(), cat_key_fn()),
{
    let ghost v0 = cats.deep_view();
    let n = cats.len();
    let mut out: Vec<CategoryData> = Vec::new();
    let mut i: usize = 0;
    proof {
        assert(out.deep_view() =~= sort_by_key(v0.take(0), cat_key_fn()));
    }
    while i < n
        invariant
            n == cats.len(),
            v0 == cats.deep_view(),
            v0.len() == n as int,
            i <= n,
            out.deep_view() == sort_by_key(v0.take(i as int), cat_key_fn()),
        decreases n - i,
    {
        let ghost out0 = out.deep_view();
        proof {
            lemma_sort_by_key(v0.take(i as int), cat_key_fn());
            assert(out0.len() == v0.take(i as int).len());
            assert(cats.deep_view()[i as int] == cats@[i as int]@);
        }
        let x = duplicate_category(&cats[i]);
        proof {
            assert(x@ == v0[i as int]);
        }
        let mut p: usize = out.len();
        while p > 0 && cat_key_gt(&out[p - 1], &x)
            invariant
                p <= out.len(),
                out.deep_view() == out0,
                out@.len() == out0.len(),
                x@ == v0[i as int],
                forall|j: int|
                    p <= j < out0.len() ==> cat_key_fn()(out0[j]) > cat_key_fn()(x@),
            decreases p,
        {
            proof {
                assert(out.deep_view()[p - 1] == out@[p - 1]@);
            }
            p = p - 1;
        }
        proof {
            assert(sorted_by_key(out0, cat_key_fn()));
            if p > 0 {
                assert(out.deep_view()[p - 1] == out@[p - 1]@);
            }
            assert forall|j: int| 0 <= j < p implies cat_key_fn()(out0[j]) <= cat_key_fn()(
                x@,
            ) by {
                if p > 0 && j < p - 1 {
                    assert(cat_key_fn()(out0[j]) <= cat_key_fn()(out0[p - 1]));
                }
            }
        }
        let ghost ov_pre = out@;
        out.insert(p, x);
        proof {
            lemma_insert_by_key_at(out0, x@, cat_key_fn(), p as int);
            assert forall|j: int| 0 <= j < out@.len() implies out.deep_view()[j] == out0.insert(
                p as int,
                x@,
            )[j] by {
                assert(out.deep_view()[j] == out@[j]@);
                assert(out@ == ov_pre.insert(p as int, x));
                if j < p as int {
                    assert(out@[j] == ov_pre[j]);
                    assert(ov_pre[j]@ == out0[j]);
                } else if j == p as int {
                    assert(out@[j] == x);
                } else {
                    assert(out@[j] == ov_pre[j - 1]);
                    assert(ov_pre[j - 1]@ == out0[j - 1]);
                }
            }
            assert(out.deep_view() =~= out0.insert(p as int, x@));
            assert(v0.take(i + 1).drop_last() =~= v0.take(i as int));
            assert(v0.take(i + 1).last() == v0[i as int]);
            assert(out.deep_view() == sort_by_key(v0.take(i + 1), cat_key_fn()));
        }
        i = i + 1;
    }
    proof {
        assert(v0.take(n as int) =~= v0);
    }
    out
}

impl Ticket {
    /// Lists a category: one fully read node per ticket, ascending by
    /// modification timestamp, ties keeping their stored order.
    ///
    /// Fails on a ticket node — only categories can be listed — and on an
    /// absent category, the missing-path condition of the medium.
    pub fn collect(&self, store: &Store) -> (r: Result<Vec<Ticket>, TicketError>)
        requires
            node_wf(self@),
            store_wf(store@),
        ensures
            ({
                let n = self@;
                let ci = find_cat(store@.categories, n.category);
                if !n.is_dir {
                    r matches Err(e) && e@ == ErrorV::NotADirectory
                } else if ci < 0 {
                    r matches Err(e) && e@ == ErrorV::NotFound
                } else {
                    r matches Ok(v) && v.deep_view() == sort_by_key(
                        nodes_of(n.category, store@.categories[ci].tickets),
                        node_key_fn(),
                    )
                }
            }),
    {
        if !self.is_dir {
            return Err(TicketError::NotADirectory);
        }
        let ci = match find_category(&store.categories, &self.category) {
            None => {
                return Err(TicketError::NotFound);
            },
            Some(ci) => ci,
        };
        proof {
            assert(store.categories@[ci as int]@ == store.categories.deep_view()[ci as int]);
        }
        Ok(category_nodes(&self.category, &store.categories[ci]))
    }

    /// Moves this ticket to `dest`: into a destination category under its
    /// own id, or onto a concrete destination ticket path (a rename). The
    /// copy lands first and the source is deleted after, so a move onto
    /// the ticket's own path ends with the ticket gone — the recognized
    /// failure shape of copy-then-delete, not rolled back here.
    ///
    /// Fails when the source ticket or the destination category is absent
    /// — the missing-path conditions of the medium — and then changes
    /// nothing.
    pub fn move_(&self, dest: &Ticket, store: &mut Store, now: u64) -> (r: Result<
        (),
        TicketError,
    >)
        requires
            node_wf(self@),
            node_wf(dest@),
            !self@.is_dir,
            store_wf(old(store)@),
        ensures
            store_wf(final(store)@),
            ({
                let s0 = old(store)@;
                let sf = final(store)@;
                let n = self@;
                let d = dest@;
                let dst_id = if d.is_dir {
                    n.id->0
                } else {
                    d.id->0
                };
                if spec_movable(s0, n.category, n.id->0, d.category) {
                    r is Ok && sf == spec_move(s0, n.category, n.id->0, d.category, dst_id, now)
                } else {
                    r matches Err(e) && e@ == ErrorV::NotFound && sf == s0
                }
            }),
    {
        let ghost s0 = store@;
        let id = match &self.id {
            Some(id) => id,
            None => {
                proof {
                    assert(false);
                }
                return Err(TicketError::NotFound);
            },
        };
        let si = match find_category(&store.categories, &self.category) {
            None => {
                return Err(TicketError::NotFound);
            },
            Some(si) => si,
        };
        proof {
            assert(store.categories@[si as int]@ == store.categories.deep_view()[si as int]);
        }
        let ti = match find_ticket_pos(&store.categories[si].tickets, id) {
            None => {
                return Err(TicketError::NotFound);
            },
            Some(ti) => ti,
        };
        let di = match find_category(&store.categories, &dest.category) {
            None => {
                return Err(TicketError::NotFound);
            },
            Some(di) => di,
        };
        proof {
            assert(store.categories@[si as int].tickets@[ti as int]@ == s0.categories[
                si as int
            ].tickets[ti as int]);
        }
        let content = store.categories[si].tickets[ti].content.clone();
        let dst_id = if dest.is_dir {
            id
        } else {
            match &dest.id {
                Some(d) => d,
                None => {
                    proof {
                        assert(false);
                    }
                    return Err(TicketError::NotFound);
                },
            }
        };
        let ghost tv = TicketV { id: dst_id@, content: content@, modified_at: now };
        let ghost old_dts = s0.categories[di as int].tickets;
        let c = &mut store.categories[di];
        match find_ticket_pos(&c.tickets, dst_id) {
            Some(k) => {
                let slot = &mut c.tickets[k];
                slot.content = content;
                slot.modified_at = now;
                proof {
                    assert(c.tickets@[k as int]@ =~= tv);
                    assert(c.tickets.deep_view() =~= replace_ticket(old_dts, tv));
                }
            },
            None => {
                c.tickets.push(TicketFile { id: dst_id.clone(), content, modified_at: now });
                proof {
                    assert(c.tickets@[old_dts.len() as int]@ =~= tv);
                    assert(c.tickets.deep_view() =~= replace_ticket(old_dts, tv));
                }
            },
        }
        c.modified_at = now;
        proof {
            assert(c@ =~= CategoryV {
                name: s0.categories[di as int].name,
                tickets: replace_ticket(old_dts, tv),
                modified_at: now,
            });
        }
        proof {
            assert(store.categories.deep_view() =~= s0.categories.update(
                di as int,
                CategoryV {
                    name: s0.categories[di as int].name,
                    tickets: replace_ticket(old_dts, tv),
                    modified_at: now,
                },
            ));
            assert(store@ =~= spec_put(s0, dest@.category, tv, now));
            lemma_put_wf(s0, dest@.category, tv, now);
        }
        let ghost s1 = store@;
        proof {
            assert forall|a: int| 0 <= a < s1.categories.len() implies s1.categories[a].name
                == s0.categories[a].name by {}
            lemma_find_cat_names(s1.categories, s0.categories, self@.category);
            assert(find_cat(s1.categories, self@.category) == si as int);
            let old_sts = s0.categories[si as int].tickets;
            let new_sts = s1.categories[si as int].tickets;
            lemma_find_ticket(new_sts, self@.id->0);
            if find_ticket(new_sts, self@.id->0) < 0 {
                if si == di {
                    let kk = find_ticket(old_dts, tv.id);
                    if kk < 0 {
                        assert(new_sts[ti as int] == old_sts[ti as int]);
                        assert(new_sts[ti as int].id == self@.id->0);
                    } else {
                        if tv.id == self@.id->0 {
                            assert(kk == ti as int);
                            assert(new_sts[ti as int].id == tv.id);
                        } else {
                            lemma_find_ticket(old_dts, tv.id);
                            assert(old_sts[kk].id == tv.id);
                            assert(kk != ti as int);
                            assert(new_sts[ti as int] == old_sts[ti as int]);
                        }
                    }
                    assert(false);
                } else {
                    assert(s1.categories[si as int] == s0.categories[si as int]);
                    assert(new_sts[ti as int].id == self@.id->0);
                    assert(false);
                }
            }
        }
        let c2 = &mut store.categories[si];
        let ghost s1_sts = s1.categories[si as int].tickets;
        match find_ticket_pos(&c2.tickets, id) {
            None => {
                proof {
                    assert(false);
                }
                Err(TicketError::NotFound)
            },
            Some(k2) => {
                c2.tickets.remove(k2);
                c2.modified_at = now;
                proof {
                    assert(c2.tickets.deep_view() =~= s1_sts.remove(k2 as int));
                    assert(c2@ =~= CategoryV {
                        name: s1.categories[si as int].name,
                        tickets: s1_sts.remove(k2 as int),
                        modified_at: now,
                    });
                }
                proof {
                    assert(store.categories.deep_view() =~= s1.categories.update(
                        si as int,
                        CategoryV {
                            name: s1.categories[si as int].name,
                            tickets: s1_sts.remove(k2 as int),
                            modified_at: now,
                        },
                    ));
                    assert(without_ticket(s1_sts, self@.id->0) == s1_sts.remove(k2 as int));
                    assert(store@ =~= with_cat_tickets(
                        s1,
                        si as int,
                        without_ticket(s1_sts, self@.id->0),
                        now,
                    ));
                    assert(store@ =~= spec_move(
                        s0,
                        self@.category,
                        self@.id->0,
                        dest@.category,
                        tv.id,
                        now,
                    ));
                    lemma_remove_at_wf(s1, si as int, k2 as int, now);
                }
                Ok(())
            },
        }
    }

    /// Moves every child of this category into the destination category,
    /// one ticket move each, in stored order, ids preserved; the source
    /// directory itself stays behind, empty. The moves are per-child and
    /// not transactional; here the one mid-sequence failure — a vanished
    /// destination — is ruled out up front, so either nothing moves or
    /// everything does.
    ///
    /// Both nodes must be categories, else the matching wrong-kind error;
    /// an absent source, or an absent destination when there is anything
    /// to move, is the missing-path condition of the medium. On any
    /// failure nothing changes.
    #[verifier::rlimit(30)]
    pub fn move_all(&self, dest: &Ticket, store: &mut Store, now: u64) -> (r: Result<
        (),
        TicketError,
    >)
        requires
            node_wf(self@),
            node_wf(dest@),
            store_wf(old(store)@),
        ensures
            store_wf(final(store)@),
            ({
                let s0 = old(store)@;
                let sf = final(store)@;
                let n = self@;
                let d = dest@;
                let si = find_cat(s0.categories, n.category);
                if !n.is_dir {
                    r matches Err(e) && e@ == ErrorV::SourceNotADirectory && sf == s0
                } else if !d.is_dir {
                    r matches Err(e) && e@ == ErrorV::DestinationNotADirectory && sf == s0
                } else if si < 0 {
                    r matches Err(e) && e@ == ErrorV::NotFound && sf == s0
                } else if s0.categories[si].tickets.len() == 0 {
                    r is Ok && sf == s0
                } else if !has_cat(s0.categories, d.category) {
                    r matches Err(e) && e@ == ErrorV::NotFound && sf == s0
                } else {
                    r is Ok && sf == spec_move_children(
                        s0,
                        n.category,
                        d.category,
                        s0.categories[si].tickets,
                        now,
                    )
                }
            }),
    {
        if !self.is_dir {
            return Err(TicketError::SourceNotADirectory);
        }
        if !dest.is_dir {
            return Err(TicketError::DestinationNotADirectory);
        }
        let ghost s0 = store@;
        let ghost src_cat = self@.category;
        let ghost dst_cat = dest@.category;
        let si = match find_category(&store.categories, &self.category) {
            None => {
                return Err(TicketError::NotFound);
            },
            Some(si) => si,
        };
        proof {
            assert(store.categories@[si as int]@ == store.categories.deep_view()[si as int]);
        }
        let n = store.categories[si].tickets.len();
        if n == 0 {
            return Ok(());
        }
        if find_category(&store.categories, &dest.category).is_none() {
            return Err(TicketError::NotFound);
        }
        let ghost ts0 = s0.categories[si as int].tickets;
        proof {
            assert(store@.categories[si as int].tickets =~= ts0.skip(0));
        }
        let mut k: usize = 0;
        while k < n
            invariant
                node_wf(self@),
                node_wf(dest@),
                self@.is_dir,
                dest@.is_dir,
                src_cat == self@.category,
                dst_cat == dest@.category,
                n == ts0.len(),
                k <= n,
                store_wf(store@),
                0 <= si < store@.categories.len(),
                find_cat(store@.categories, src_cat) == si as int,
                store@.categories[si as int].tickets == ts0.skip(k as int),
                has_cat(store@.categories, dst_cat),
                spec_move_children(s0, src_cat, dst_cat, ts0, now) == spec_move_children(
                    store@,
                    src_cat,
                    dst_cat,
                    ts0.skip(k as int),
                    now,
                ),
            decreases n - k,
        {
            let ghost prev = store@;
            let ghost ts_prev = prev.categories[si as int].tickets;
            proof {
                assert(ts_prev.len() == ts0.len() - k);
                assert(ts0.skip(k as int)[0] == ts0[k as int]);
                assert(ts_prev[0] == ts0[k as int]);
                assert(ts_prev[0].id == ts0[k as int].id);
                assert(cat_wf(prev.categories[si as int]));
                assert(id_ok(ts_prev[0].id));
                assert(store.categories@[si as int]@ == store.categories.deep_view()[si as int]);
                assert(store.categories@[si as int].tickets@[0]@ == ts_prev[0]);
            }
            let child_id = store.categories[si].tickets[0].id.clone();
            let mut child_path = self.category.clone();
            child_path.append("/");
            child_path.append(child_id.as_str());
            let child = Ticket {
                path: child_path,
                id: Some(child_id),
                category: self.category.clone(),
                title: None,
                message: None,
                is_dir: false,
                modified_at: None,
            };
            proof {
                reveal_strlit("/");
                assert("/"@ =~= seq!['/']);
                assert(child@.id->0 == ts0[k as int].id);
                assert(child@.path =~= child@.category + seq!['/'] + child@.id->0);
                assert(node_wf(child@));
                lemma_find_ticket_at(ts_prev, ts0[k as int].id, 0);
                assert(spec_movable(prev, src_cat, ts0[k as int].id, dst_cat));
            }
            match child.move_(dest, store, now) {
                Ok(()) => {},
                Err(_) => {
                    proof {
                        assert(false);
                    }
                    return Err(TicketError::NotFound);
                },
            }
            proof {
                let cur = store@;
                assert(cur == spec_move(prev, src_cat, ts0[k as int].id, dst_cat, ts0[k as int].id, now));
                // One unfolding of the fold over the remaining children.
                assert(ts0.skip(k as int).drop_first() =~= ts0.skip(k as int + 1));
                assert(spec_move_children(prev, src_cat, dst_cat, ts0.skip(k as int), now)
                    == spec_move_children(cur, src_cat, dst_cat, ts0.skip(k as int + 1), now));
                // The source category now holds the remaining suffix.
                let tv = TicketV {
                    id: ts0[k as int].id,
                    content: ts_prev[0].content,
                    modified_at: now,
                };
                let s1 = spec_put(prev, dst_cat, tv, now);
                let di = find_cat(prev.categories, dst_cat);
                lemma_find_cat(prev.categories, dst_cat);
                assert(0 <= di < prev.categories.len());
                assert(s1.categories == prev.categories.update(
                    di,
                    CategoryV {
                        name: prev.categories[di].name,
                        tickets: replace_ticket(prev.categories[di].tickets, tv),
                        modified_at: now,
                    },
                ));
                assert(find_ticket(ts_prev, ts0[k as int].id) == 0);
                assert forall|a: int| 0 <= a < s1.categories.len() implies s1.categories[a].name
                    == prev.categories[a].name by {
                    if a != di {
                        assert(s1.categories[a] == prev.categories[a]);
                    }
                }
                lemma_find_cat_names(s1.categories, prev.categories, src_cat);
                lemma_find_cat_names(s1.categories, prev.categories, dst_cat);
                let si1 = find_cat(s1.categories, src_cat);
                assert(si1 == si as int);
                assert(cur == with_cat_tickets(
                    s1,
                    si1,
                    without_ticket(s1.categories[si1].tickets, ts0[k as int].id),
                    now,
                ));
                assert forall|a: int| 0 <= a < cur.categories.len() implies cur.categories[a].name
                    == s1.categories[a].name by {
                    if a != si1 {
                        assert(cur.categories[a] == s1.categories[a]);
                    }
                }
                lemma_find_cat_names(cur.categories, s1.categories, src_cat);
                lemma_find_cat_names(cur.categories, s1.categories, dst_cat);
                assert(find_cat(cur.categories, src_cat) == si as int);
                assert(has_cat(cur.categories, dst_cat));
                if di == si as int {
                    assert(s1.categories[si as int].tickets == replace_ticket(ts_prev, tv));
                    assert(replace_ticket(ts_prev, tv) == ts_prev.update(0, tv));
                    assert(ts_prev.update(0, tv)[0].id == ts0[k as int].id);
                    lemma_find_ticket_at(ts_prev.update(0, tv), ts0[k as int].id, 0);
                    assert(without_ticket(ts_prev.update(0, tv), ts0[k as int].id) == ts_prev
                        .update(0, tv)
                        .remove(0));
                    assert(ts_prev.update(0, tv).remove(0) =~= ts0.skip(k as int + 1));
                    assert(cur.categories[si as int].tickets =~= ts0.skip(k as int + 1));
                } else {
                    assert(s1.categories[si as int] == prev.categories[si as int]);
                    assert(without_ticket(ts_prev, ts0[k as int].id) == ts_prev.remove(0));
                    assert(ts_prev.remove(0) =~= ts0.skip(k as int + 1));
                    assert(cur.categories[si as int].tickets =~= ts0.skip(k as int + 1));
                }
            }
            k = k + 1;
        }
        proof {
            assert(ts0.skip(n as int).len() == 0);
            assert(store@ == spec_move_children(s0, src_cat, dst_cat, ts0, now));
        }
        Ok(())
    }
}

} // verus!
