//! The guest list and invites: guest CRUD with soft deletion, and the
//! invite facade — creation, full-replace update and deletion of invites
//! that group 1–2 guests each.
//!
//! As in the registry, the store's rows are modelled as in-memory record
//! sets. Reassigning a guest already linked to another invite is allowed
//! silently (the current permissive behaviour is preserved on purpose).

use vstd::prelude::*;
use vstd::string::StringExecFns;

use crate::CoreError;
use crate::text::hex_code8;
use crate::text::lex_le;
use crate::text::str_le;

verus! {

/// An individual person on the list, optionally linked to one invite.
#[derive(Debug)]
pub struct Guest {
    pub id: u64,
    pub name: String,
    pub email: String,
    pub relationship: String,
    pub sam_or_jonah: String,
    pub maybe: bool,
    pub unique_code: String,
    /// one of "single", "plus_one", "couple"
    pub invite_type: String,
    /// soft-delete flag: removed guests are excluded from pairing and
    /// from campaign recipient lists but not physically deleted
    pub removed: bool,
    pub invite_id: Option<u64>,
    pub created_at: i64,
    pub updated_at: i64,
}

/// A unit of correspondence grouping 1–2 guests.
#[derive(Debug)]
pub struct Invite {
    pub id: u64,
    /// random 8-hex-digit code
    pub unique_code: String,
    pub invite_type: String,
    pub created_at: i64,
    pub updated_at: i64,
}

/// Fields of a guest to be added to the list.
pub struct CreateGuestRequest {
    pub name: String,
    pub email: String,
    pub relationship: String,
    pub sam_or_jonah: String,
    pub maybe: bool,
    pub invite_type: String,
}

/// Admin request toggling a guest's soft-delete flag.
pub struct MarkRemovedRequest {
    pub removed: bool,
}

/// The guest and invite record sets, with fresh-id counters standing in
/// for the store's key generation.
pub struct GuestBook {
    pub guests: Vec<Guest>,
    pub invites: Vec<Invite>,
    pub next_guest_id: u64,
    pub next_invite_id: u64,
}

impl Clone for Guest {
    /// A field-for-field copy.
    fn clone(&self) -> (r: Self)
        ensures
            r == *self,
    {
        Guest {
            id: self.id,
            name: self.name.clone(),
            email: self.email.clone(),
            relationship: self.relationship.clone(),
            sam_or_jonah: self.sam_or_jonah.clone(),
            maybe: self.maybe,
            unique_code: self.unique_code.clone(),
            invite_type: self.invite_type.clone(),
            removed: self.removed,
            invite_id: self.invite_id,
            created_at: self.created_at,
            updated_at: self.updated_at,
        }
    }
}

impl Clone for Invite {
    /// A field-for-field copy.
    fn clone(&self) -> (r: Self)
        ensures
            r == *self,
    {
        Invite {
            id: self.id,
            unique_code: self.unique_code.clone(),
            invite_type: self.invite_type.clone(),
            created_at: self.created_at,
            updated_at: self.updated_at,
        }
    }
}

impl GuestBook {
    pub open spec fn has_guest(self, id: u64) -> bool {
        exists|i: int| 0 <= i < self.guests@.len() && self.guests@[i].id == id
    }

    pub open spec fn guest_index(self, id: u64) -> int {
        choose|i: int| 0 <= i < self.guests@.len() && self.guests@[i].id == id
    }

    /// The guest with id `id` (meaningful only when present).
    pub open spec fn guest_at(self, id: u64) -> Guest {
        self.guests@[self.guest_index(id)]
    }

    pub open spec fn has_invite(self, id: u64) -> bool {
        exists|i: int| 0 <= i < self.invites@.len() && self.invites@[i].id == id
    }

    pub open spec fn invite_index(self, id: u64) -> int {
        choose|i: int| 0 <= i < self.invites@.len() && self.invites@[i].id == id
    }

    /// The invite with id `id` (meaningful only when present).
    pub open spec fn invite_at(self, id: u64) -> Invite {
        self.invites@[self.invite_index(id)]
    }

    /// Record identity and referential integrity: ids are unique, stay
    /// below the fresh-id counters, and a linked guest's invite exists.
    pub open spec fn wf(self) -> bool {
        &&& (forall|i: int, j: int|
            0 <= i < j < self.guests@.len() ==> self.guests@[i].id != self.guests@[j].id)
        &&& (forall|i: int, j: int|
            0 <= i < j < self.invites@.len() ==> self.invites@[i].id != self.invites@[j].id)
        &&& (forall|i: int| 0 <= i < self.guests@.len() ==> self.guests@[i].id < self.next_guest_id)
        &&& (forall|i: int|
            0 <= i < self.invites@.len() ==> self.invites@[i].id < self.next_invite_id)
        &&& (forall|i: int|
            0 <= i < self.guests@.len() ==> match (#[trigger] self.guests@[i]).invite_id {
                Some(vid) => self.has_invite(vid),
                None => true,
            })
    }

    /// An empty guest book.
    pub fn new() -> (r: GuestBook)
        ensures
            r.wf(),
            r.guests@ == Seq::<Guest>::empty(),
            r.invites@ == Seq::<Invite>::empty(),
            r.next_guest_id == 0,
            r.next_invite_id == 0,
    {
        GuestBook { guests: Vec::new(), invites: Vec::new(), next_guest_id: 0, next_invite_id: 0 }
    }
}

/// `i` holds the id `id`, so it is the chosen guest index for `id`.
proof fn lemma_guest_index_is(b: GuestBook, id: u64, i: int)
    requires
        b.wf(),
        0 <= i < b.guests@.len(),
        b.guests@[i].id == id,
    ensures
        b.has_guest(id),
        b.guest_index(id) == i,
        b.guest_at(id) == b.guests@[i],
{
    assert(b.has_guest(id));
    let k = b.guest_index(id);
    if k != i {
        if k < i {
            assert(b.guests@[k].id != b.guests@[i].id);
        } else {
            assert(b.guests@[i].id != b.guests@[k].id);
        }
    }
}

/// `i` holds the id `id`, so it is the chosen invite index for `id`.
proof fn lemma_invite_index_is(b: GuestBook, id: u64, i: int)
    requires
        b.wf(),
        0 <= i < b.invites@.len(),
        b.invites@[i].id == id,
    ensures
        b.has_invite(id),
        b.invite_index(id) == i,
        b.invite_at(id) == b.invites@[i],
{
    assert(b.has_invite(id));
    let k = b.invite_index(id);
    if k != i {
        if k < i {
            assert(b.invites@[k].id != b.invites@[i].id);
        } else {
            assert(b.invites@[i].id != b.invites@[k].id);
        }
    }
}

/// The index of the guest with id `id`.
fn find_guest(guests: &Vec<Guest>, id: u64) -> (r: Option<usize>)
    ensures
        match r {
            Some(i) => i < guests@.len() && guests@[i as int].id == id,
            None => forall|i: int| 0 <= i < guests@.len() ==> guests@[i].id != id,
        },
{
    let mut i: usize = 0;
    while i < guests.len()
        invariant
            i <= guests@.len(),
            forall|j: int| 0 <= j < i ==> guests@[j].id != id,
        decreases guests@.len() - i,
    {
        if guests[i].id == id {
            return Some(i);
        }
        i = i + 1;
    }
    None
}

/// The index of the invite with id `id`.
fn find_invite(invites: &Vec<Invite>, id: u64) -> (r: Option<usize>)
    ensures
        match r {
            Some(i) => i < invites@.len() && invites@[i as int].id == id,
            None => forall|i: int| 0 <= i < invites@.len() ==> invites@[i].id != id,
        },
{
    let mut i: usize = 0;
    while i < invites.len()
        invariant
            i <= invites@.len(),
            forall|j: int| 0 <= j < i ==> invites@[j].id != id,
        decreases invites@.len() - i,
    {
        if invites[i].id == id {
            return Some(i);
        }
        i = i + 1;
    }
    None
}

/// Relies on `uuid::Uuid::new_v4` and its hyphenated `to_string` form
/// (32 lowercase hexadecimal digits and 4 hyphens): with the hyphens
/// removed, the first 8 hex digits serve as a guest's unique code.
#[verifier::external_body]
pub(crate) fn fresh_guest_code() -> (r: String)
    ensures
        hex_code8(r@),
{
    let mut s = uuid::Uuid::new_v4().to_string().replace("-", "");
    s.truncate(8);
    s
}

/// Relies on `rand::random::<u32>` and zero-padded lower-hex formatting
/// (`u32` always prints as at most 8 lowercase hex digits, left-padded
/// to 8): an invite's unique code is 8 random hex digits.
#[verifier::external_body]
fn fresh_invite_code() -> (r: String)
    ensures
        hex_code8(r@),
{
    format!("{:08x}", rand::random::<u32>())
}

impl GuestBook {
    /// Adds a guest with a fresh unique code, not removed and not yet
    /// linked to any invite; returns the persisted record.
    pub fn add_guest(&mut self, req: CreateGuestRequest, now: i64) -> (r: Guest)
        requires
            old(self).wf(),
            old(self).next_guest_id < u64::MAX,
        ensures
            final(self).wf(),
            final(self).invites == old(self).invites,
            final(self).next_invite_id == old(self).next_invite_id,
            final(self).next_guest_id == old(self).next_guest_id + 1,
            final(self).guests@ == old(self).guests@.push(r),
            r.id == old(self).next_guest_id,
            r.name == req.name && r.email == req.email && r.relationship == req.relationship,
            r.sam_or_jonah == req.sam_or_jonah && r.maybe == req.maybe,
            r.invite_type == req.invite_type,
            r.removed == false && r.invite_id is None,
            hex_code8(r.unique_code@),
            r.created_at == now && r.updated_at == now,
    {
        let unique_code = fresh_guest_code();
        let g = Guest {
            id: self.next_guest_id,
            name: req.name,
            email: req.email,
            relationship: req.relationship,
            sam_or_jonah: req.sam_or_jonah,
            maybe: req.maybe,
            unique_code,
            invite_type: req.invite_type,
            removed: false,
            invite_id: None,
            created_at: now,
            updated_at: now,
        };
        let ret = g.clone();
        self.guests.push(g);
        self.next_guest_id = self.next_guest_id + 1;
        proof {
            lemma_guest_refs_hold(*old(self), *self);
        }
        ret
    }

    /// The guest with id `id`, if any.
    pub fn get_guest(&self, id: u64) -> (r: Option<&Guest>)
        requires
            self.wf(),
        ensures
            match r {
                Some(g) => self.has_guest(id) && *g == self.guest_at(id),
                None => !self.has_guest(id),
            },
    {
        match find_guest(&self.guests, id) {
            Some(i) => {
                proof {
                    lemma_guest_index_is(*self, id, i as int);
                }
                Some(&self.guests[i])
            },
            None => None,
        }
    }

    /// Replaces a guest's editable fields; the unique code, soft-delete
    /// flag and invite link stay as they are.
    pub fn update_guest(&mut self, id: u64, req: CreateGuestRequest, now: i64) -> (r: Result<
        Guest,
        CoreError,
    >)
        requires
            old(self).wf(),
        ensures
            final(self).wf(),
            final(self).invites == old(self).invites,
            final(self).next_guest_id == old(self).next_guest_id,
            final(self).next_invite_id == old(self).next_invite_id,
            (r is Ok <==> old(self).has_guest(id)),
            match r {
                Ok(g) => {
                    let k = old(self).guest_index(id);
                    let prev = old(self).guests@[k];
                    &&& g == (Guest {
                        name: req.name,
                        email: req.email,
                        relationship: req.relationship,
                        sam_or_jonah: req.sam_or_jonah,
                        maybe: req.maybe,
                        invite_type: req.invite_type,
                        updated_at: now,
                        ..prev
                    })
                    &&& final(self).guests@ == old(self).guests@.update(k, g)
                },
                Err(e) => e == CoreError::NotFound && *final(self) == *old(self),
            },
    {
        let idx = match find_guest(&self.guests, id) {
            None => {
                return Err(CoreError::NotFound);
            },
            Some(i) => i,
        };
        proof {
            lemma_guest_index_is(*self, id, idx as int);
        }
        let mut g = self.guests[idx].clone();
        g.name = req.name;
        g.email = req.email;
        g.relationship = req.relationship;
        g.sam_or_jonah = req.sam_or_jonah;
        g.maybe = req.maybe;
        g.invite_type = req.invite_type;
        g.updated_at = now;
        let ret = g.clone();
        self.guests[idx] = g;
        proof {
            lemma_guest_refs_hold(*old(self), *self);
        }
        Ok(ret)
    }

    /// Physically removes the guest with id `id`, if present (unlike the
    /// soft-delete flag).
    pub fn delete_guest(&mut self, id: u64)
        requires
            old(self).wf(),
        ensures
            final(self).wf(),
            final(self).invites == old(self).invites,
            final(self).next_guest_id == old(self).next_guest_id,
            final(self).next_invite_id == old(self).next_invite_id,
            old(self).has_guest(id) ==> final(self).guests@ == old(self).guests@.remove(
                old(self).guest_index(id),
            ),
            !old(self).has_guest(id) ==> *final(self) == *old(self),
    {
        match find_guest(&self.guests, id) {
            None => {},
            Some(i) => {
                proof {
                    lemma_guest_index_is(*self, id, i as int);
                }
                self.guests.remove(i);
                proof {
                    lemma_guest_refs_hold_after_remove(*old(self), *self, i as int);
                }
            },
        }
    }

    /// Sets a guest's soft-delete flag.
    pub fn mark_guest_removed(&mut self, id: u64, req: &MarkRemovedRequest, now: i64) -> (r: Result<
        Guest,
        CoreError,
    >)
        requires
            old(self).wf(),
        ensures
            final(self).wf(),
            final(self).invites == old(self).invites,
            final(self).next_guest_id == old(self).next_guest_id,
            final(self).next_invite_id == old(self).next_invite_id,
            (r is Ok <==> old(self).has_guest(id)),
            match r {
                Ok(g) => {
                    let k = old(self).guest_index(id);
                    &&& g == (Guest { removed: req.removed, updated_at: now, ..old(self).guests@[k] })
                    &&& final(self).guests@ == old(self).guests@.update(k, g)
                },
                Err(e) => e == CoreError::NotFound && *final(self) == *old(self),
            },
    {
        let idx = match find_guest(&self.guests, id) {
            None => {
                return Err(CoreError::NotFound);
            },
            Some(i) => i,
        };
        proof {
            lemma_guest_index_is(*self, id, idx as int);
        }
        let mut g = self.guests[idx].clone();
        g.removed = req.removed;
        g.updated_at = now;
        let ret = g.clone();
        self.guests[idx] = g;
        proof {
            lemma_guest_refs_hold(*old(self), *self);
        }
        Ok(ret)
    }
}

/// Is `id` among `ids`?
fn id_in(ids: &Vec<u64>, id: u64) -> (r: bool)
    ensures
        r == ids@.contains(id),
{
    let mut i: usize = 0;
    while i < ids.len()
        invariant
            i <= ids@.len(),
            forall|j: int| 0 <= j < i ==> ids@[j] != id,
        decreases ids@.len() - i,
    {
        if ids[i] == id {
            return true;
        }
        i = i + 1;
    }
    false
}

/// How the guest record `g` is linked after an invite operation that
/// links the ids in `linked` to invite `id` and unlinks the rest of the
/// invite's previous guests when `unlink_rest` is set.
pub open spec fn relinked(g: Guest, linked: Seq<u64>, id: u64, unlink_rest: bool) -> Guest {
    if linked.contains(g.id) {
        Guest { invite_id: Some(id), ..g }
    } else if unlink_rest && g.invite_id == Some(id) {
        Guest { invite_id: None, ..g }
    } else {
        g
    }
}

impl GuestBook {
    /// Creates an invite for 1–2 guests: a fresh 8-hex-digit code is
    /// drawn, the invite row is created, and each referenced guest is
    /// linked to it — silently stealing guests already linked elsewhere,
    /// and silently ignoring ids that match no guest.
    pub fn create_invite(&mut self, guest_ids: &Vec<u64>, invite_type: String, now: i64) -> (r:
        Result<u64, CoreError>)
        requires
            old(self).wf(),
            old(self).next_invite_id < u64::MAX,
        ensures
            final(self).wf(),
            final(self).next_guest_id == old(self).next_guest_id,
            (r is Ok <==> 1 <= guest_ids@.len() <= 2),
            match r {
                Ok(id) => {
                    &&& id == old(self).next_invite_id
                    &&& final(self).next_invite_id == old(self).next_invite_id + 1
                    &&& final(self).invites@.len() == old(self).invites@.len() + 1
                    &&& (forall|j: int|
                        0 <= j < old(self).invites@.len() ==> final(self).invites@[j] == old(
                            self,
                        ).invites@[j])
                    &&& ({
                        let inv = final(self).invites@.last();
                        &&& inv.id == id
                        &&& inv.invite_type == invite_type
                        &&& hex_code8(inv.unique_code@)
                        &&& inv.created_at == now
                        &&& inv.updated_at == now
                    })
                    &&& final(self).guests@.len() == old(self).guests@.len()
                    &&& (forall|j: int|
                        0 <= j < old(self).guests@.len() ==> final(self).guests@[j] == relinked(
                            #[trigger] old(self).guests@[j],
                            guest_ids@,
                            id,
                            false,
                        ))
                },
                Err(e) => e == CoreError::InvalidArgument && *final(self) == *old(self),
            },
    {
        if guest_ids.len() < 1 || guest_ids.len() > 2 {
            return Err(CoreError::InvalidArgument);
        }
        let unique_code = fresh_invite_code();
        let id = self.next_invite_id;
        let inv = Invite { id, unique_code, invite_type, created_at: now, updated_at: now };
        self.invites.push(inv);
        self.next_invite_id = self.next_invite_id + 1;
        let ghost mid = *self;
        let mut j: usize = 0;
        while j < self.guests.len()
            invariant
                j <= self.guests@.len(),
                self.guests@.len() == mid.guests@.len(),
                self.invites == mid.invites,
                self.next_guest_id == mid.next_guest_id,
                self.next_invite_id == mid.next_invite_id,
                forall|k: int|
                    0 <= k < j ==> self.guests@[k] == relinked(
                        #[trigger] mid.guests@[k],
                        guest_ids@,
                        id,
                        false,
                    ),
                forall|k: int| j <= k < mid.guests@.len() ==> self.guests@[k] == mid.guests@[k],
            decreases mid.guests@.len() - j,
        {
            if id_in(guest_ids, self.guests[j].id) {
                self.guests[j].invite_id = Some(id);
            }
            j = j + 1;
        }
        proof {
            assert(mid.invites@[mid.invites@.len() - 1].id == id);
            assert(mid.has_invite(id));
            assert forall|w: int| 0 <= w < old(self).invites@.len() implies exists|w2: int|
                0 <= w2 < mid.invites@.len() && (#[trigger] mid.invites@[w2]).id == (
                #[trigger] old(self).invites@[w]).id by {
                assert(mid.invites@[w].id == old(self).invites@[w].id);
            }
            lemma_relink_wf(*old(self), mid, *self, guest_ids@, id, false);
        }
        Ok(id)
    }

    /// Updates an invite: its type is replaced, and its guest set is fully
    /// replaced — every guest currently pointing at it is unlinked, then
    /// exactly the 1–2 given guests are linked.
    pub fn update_invite(
        &mut self,
        id: u64,
        guest_ids: &Vec<u64>,
        invite_type: String,
        now: i64,
    ) -> (r: Result<(), CoreError>)
        requires
            old(self).wf(),
        ensures
            final(self).wf(),
            final(self).next_guest_id == old(self).next_guest_id,
            final(self).next_invite_id == old(self).next_invite_id,
            (r is Ok <==> (1 <= guest_ids@.len() <= 2 && old(self).has_invite(id))),
            match r {
                Ok(u) => {
                    let k = old(self).invite_index(id);
                    &&& final(self).invites@ == old(self).invites@.update(
                        k,
                        (Invite { invite_type: invite_type, updated_at: now, ..old(
                            self,
                        ).invites@[k] }),
                    )
                    &&& final(self).guests@.len() == old(self).guests@.len()
                    &&& (forall|j: int|
                        0 <= j < old(self).guests@.len() ==> final(self).guests@[j] == relinked(
                            #[trigger] old(self).guests@[j],
                            guest_ids@,
                            id,
                            true,
                        ))
                },
                Err(e) => {
                    &&& *final(self) == *old(self)
                    &&& ((e == CoreError::InvalidArgument) <==> !(1 <= guest_ids@.len() <= 2))
                    &&& ((e == CoreError::NotFound) <==> (1 <= guest_ids@.len() <= 2
                        && !old(self).has_invite(id)))
                },
            },
    {
        if guest_ids.len() < 1 || guest_ids.len() > 2 {
            return Err(CoreError::InvalidArgument);
        }
        let k = match find_invite(&self.invites, id) {
            None => {
                return Err(CoreError::NotFound);
            },
            Some(i) => i,
        };
        proof {
            lemma_invite_index_is(*self, id, k as int);
        }
        self.invites[k].invite_type = invite_type;
        self.invites[k].updated_at = now;
        let ghost mid = *self;
        let mut j: usize = 0;
        while j < self.guests.len()
            invariant
                j <= self.guests@.len(),
                self.guests@.len() == mid.guests@.len(),
                self.invites == mid.invites,
                self.next_guest_id == mid.next_guest_id,
                self.next_invite_id == mid.next_invite_id,
                forall|k2: int|
                    0 <= k2 < j ==> self.guests@[k2] == relinked(
                        #[trigger] mid.guests@[k2],
                        guest_ids@,
                        id,
                        true,
                    ),
                forall|k2: int| j <= k2 < mid.guests@.len() ==> self.guests@[k2] == mid.guests@[k2],
            decreases mid.guests@.len() - j,
        {
            if id_in(guest_ids, self.guests[j].id) {
                self.guests[j].invite_id = Some(id);
            } else {
                let drop_link = match self.guests[j].invite_id {
                    Some(x) => x == id,
                    None => false,
                };
                if drop_link {
                    self.guests[j].invite_id = None;
                }
            }
            j = j + 1;
        }
        proof {
            assert(mid.invites@[k as int].id == id);
            assert(mid.has_invite(id));
            assert forall|w: int| 0 <= w < old(self).invites@.len() implies exists|w2: int|
                0 <= w2 < mid.invites@.len() && (#[trigger] mid.invites@[w2]).id == (
                #[trigger] old(self).invites@[w]).id by {
                assert(mid.invites@[w].id == old(self).invites@[w].id);
            }
            lemma_relink_wf(*old(self), mid, *self, guest_ids@, id, true);
        }
        Ok(())
    }

    /// Deletes an invite: its guests are unlinked first, then the row is
    /// removed (never leaving dangling references).
    pub fn delete_invite(&mut self, id: u64)
        requires
            old(self).wf(),
        ensures
            final(self).wf(),
            final(self).next_guest_id == old(self).next_guest_id,
            final(self).next_invite_id == old(self).next_invite_id,
            final(self).guests@.len() == old(self).guests@.len(),
            forall|j: int|
                0 <= j < old(self).guests@.len() ==> final(self).guests@[j] == relinked(
                    #[trigger] old(self).guests@[j],
                    Seq::<u64>::empty(),
                    id,
                    true,
                ),
            old(self).has_invite(id) ==> final(self).invites@ == old(self).invites@.remove(
                old(self).invite_index(id),
            ),
            !old(self).has_invite(id) ==> final(self).invites == old(self).invites,
    {
        let ghost pre = *self;
        let mut j: usize = 0;
        while j < self.guests.len()
            invariant
                j <= self.guests@.len(),
                self.guests@.len() == pre.guests@.len(),
                self.invites == pre.invites,
                self.next_guest_id == pre.next_guest_id,
                self.next_invite_id == pre.next_invite_id,
                forall|k2: int|
                    0 <= k2 < j ==> self.guests@[k2] == relinked(
                        #[trigger] pre.guests@[k2],
                        Seq::<u64>::empty(),
                        id,
                        true,
                    ),
                forall|k2: int| j <= k2 < pre.guests@.len() ==> self.guests@[k2] == pre.guests@[k2],
            decreases pre.guests@.len() - j,
        {
            let drop_link = match self.guests[j].invite_id {
                Some(x) => x == id,
                None => false,
            };
            if drop_link {
                self.guests[j].invite_id = None;
            }
            proof {
                assert(Seq::<u64>::empty().contains(self.guests@[j as int].id) == false);
            }
            j = j + 1;
        }
        match find_invite(&self.invites, id) {
            None => {
                proof {
                    lemma_unlinked_refs_wf(pre, *self, id);
                }
            },
            Some(k) => {
                proof {
                    lemma_invite_index_is(pre, id, k as int);
                }
                self.invites.remove(k);
                proof {
                    lemma_unlinked_refs_wf_after_remove(pre, *self, id, k as int);
                }
            },
        }
    }

    /// The invite with id `id`, if any.
    pub fn get_invite(&self, id: u64) -> (r: Option<&Invite>)
        requires
            self.wf(),
        ensures
            match r {
                Some(v) => self.has_invite(id) && *v == self.invite_at(id),
                None => !self.has_invite(id),
            },
    {
        match find_invite(&self.invites, id) {
            Some(i) => {
                proof {
                    lemma_invite_index_is(*self, id, i as int);
                }
                Some(&self.invites[i])
            },
            None => None,
        }
    }
}

/// The guests eligible for pairing: not yet linked to an invite and not
/// soft-deleted, in stored order.
pub open spec fn unassigned(s: Seq<Guest>) -> Seq<Guest>
    decreases s.len(),
{
    if s.len() == 0 {
        Seq::empty()
    } else if s.last().invite_id is None && !s.last().removed {
        unassigned(s.drop_last()).push(s.last())
    } else {
        unassigned(s.drop_last())
    }
}

/// The guests linked to invite `id`, in stored order.
pub open spec fn linked_to(s: Seq<Guest>, id: u64) -> Seq<Guest>
    decreases s.len(),
{
    if s.len() == 0 {
        Seq::empty()
    } else if s.last().invite_id == Some(id) {
        linked_to(s.drop_last(), id).push(s.last())
    } else {
        linked_to(s.drop_last(), id)
    }
}

proof fn lemma_unassigned_take_step(s: Seq<Guest>, i: int)
    requires
        0 <= i < s.len(),
    ensures
        unassigned(s.take(i + 1)) == if s[i].invite_id is None && !s[i].removed {
            unassigned(s.take(i)).push(s[i])
        } else {
            unassigned(s.take(i))
        },
{
    assert(s.take(i + 1).drop_last() =~= s.take(i));
    assert(s.take(i + 1).last() == s[i]);
}

proof fn lemma_linked_to_take_step(s: Seq<Guest>, id: u64, i: int)
    requires
        0 <= i < s.len(),
    ensures
        linked_to(s.take(i + 1), id) == if s[i].invite_id == Some(id) {
            linked_to(s.take(i), id).push(s[i])
        } else {
            linked_to(s.take(i), id)
        },
{
    assert(s.take(i + 1).drop_last() =~= s.take(i));
    assert(s.take(i + 1).last() == s[i]);
}

impl GuestBook {
    /// Copies of the guests with no invite and not removed — the pairing
    /// heuristic's input — in stored order.
    pub fn unassigned_guests(&self) -> (r: Vec<Guest>)
        ensures
            r@ == unassigned(self.guests@),
    {
        let ghost s = self.guests@;
        let mut r: Vec<Guest> = Vec::new();
        let mut i: usize = 0;
        while i < self.guests.len()
            invariant
                i <= s.len(),
                s == self.guests@,
                r@ == unassigned(s.take(i as int)),
            decreases s.len() - i,
        {
            proof {
                lemma_unassigned_take_step(s, i as int);
            }
            let g = &self.guests[i];
            let eligible = match g.invite_id {
                Some(x) => false,
                None => !g.removed,
            };
            if eligible {
                r.push(g.clone());
            }
            i = i + 1;
        }
        proof {
            assert(s.take(s.len() as int) =~= s);
        }
        r
    }

    /// Copies of the guests linked to invite `id`, in stored order.
    pub fn guests_of_invite(&self, id: u64) -> (r: Vec<Guest>)
        ensures
            r@ == linked_to(self.guests@, id),
    {
        let ghost s = self.guests@;
        let mut r: Vec<Guest> = Vec::new();
        let mut i: usize = 0;
        while i < self.guests.len()
            invariant
                i <= s.len(),
                s == self.guests@,
                r@ == linked_to(s.take(i as int), id),
            decreases s.len() - i,
        {
            proof {
                lemma_linked_to_take_step(s, id, i as int);
            }
            let g = &self.guests[i];
            let here = match g.invite_id {
                Some(x) => x == id,
                None => false,
            };
            if here {
                r.push(g.clone());
            }
            i = i + 1;
        }
        proof {
            assert(s.take(s.len() as int) =~= s);
        }
        r
    }
}

impl GuestBook {
    /// The invite's guests as the admin surface presents them: the
    /// linked guests, ordered by name.
    pub fn guests_of_invite_by_name(&self, id: u64) -> (r: Vec<Guest>)
        ensures
            sorted_by_name(r@),
            r@.to_multiset() == linked_to(self.guests@, id).to_multiset(),
    {
        let members = self.guests_of_invite(id);
        sort_guests_by_name(&members)
    }
}

/// `s` is ordered by name.
pub open spec fn sorted_by_name(s: Seq<Guest>) -> bool {
    forall|i: int, j: int| 0 <= i < j < s.len() ==> lex_le(s[i].name@, s[j].name@)
}

/// Copies of the given guests ordered by name (character-wise, the
/// store's default presentation order for an invite's guests); guests of
/// equal name keep no particular order.
pub fn sort_guests_by_name(guests: &Vec<Guest>) -> (r: Vec<Guest>)
    ensures
        sorted_by_name(r@),
        r@.to_multiset() == guests@.to_multiset(),
{
    let mut rest: Vec<Guest> = Vec::new();
    let mut i: usize = 0;
    while i < guests.len()
        invariant
            i <= guests@.len(),
            rest@ == guests@.take(i as int),
        decreases guests@.len() - i,
    {
        rest.push(guests[i].clone());
        proof {
            assert(guests@.take(i as int).push(guests@[i as int]) =~= guests@.take(i as int + 1));
        }
        i = i + 1;
    }
    proof {
        assert(guests@.take(guests@.len() as int) =~= guests@);
    }
    let mut r: Vec<Guest> = Vec::new();
    proof {
        broadcast use vstd::seq_lib::group_to_multiset_ensures;

        assert(r@.to_multiset().add(rest@.to_multiset()) =~= guests@.to_multiset());
    }
    while rest.len() > 0
        invariant
            r@.to_multiset().add(rest@.to_multiset()) == guests@.to_multiset(),
            sorted_by_name(r@),
            forall|x: int, y: int|
                0 <= x < r@.len() && 0 <= y < rest@.len() ==> lex_le(
                    r@[x].name@,
                    rest@[y].name@,
                ),
        decreases rest@.len(),
    {
        let mut m: usize = 0;
        let mut q: usize = 1;
        proof {
            crate::text::lemma_lex_le_total(rest@[0].name@, rest@[0].name@);
        }
        while q < rest.len()
            invariant
                m < rest@.len(),
                q <= rest@.len(),
                rest@.len() > 0,
                forall|x: int| 0 <= x < q ==> lex_le(rest@[m as int].name@, rest@[x].name@),
            decreases rest@.len() - q,
        {
            if !str_le(rest[m].name.as_str(), rest[q].name.as_str()) {
                proof {
                    crate::text::lemma_lex_le_total(
                        rest@[m as int].name@,
                        rest@[q as int].name@,
                    );
                    assert forall|x: int|
                        0 <= x < q + 1 implies lex_le(
                        rest@[q as int].name@,
                        rest@[x].name@,
                    ) by {
                        if x < q {
                            crate::text::lemma_lex_le_trans(
                                rest@[q as int].name@,
                                rest@[m as int].name@,
                                rest@[x].name@,
                            );
                        } else {
                            crate::text::lemma_lex_le_total(
                                rest@[q as int].name@,
                                rest@[q as int].name@,
                            );
                        }
                    }
                }
                m = q;
            }
            q = q + 1;
        }
        let ghost r0 = r@;
        let ghost rest0 = rest@;
        let g = rest.remove(m);
        r.push(g);
        proof {
            broadcast use vstd::seq_lib::group_to_multiset_ensures;

            assert(rest0.contains(g)) by {
                assert(rest0[m as int] == g);
            }
            assert(rest0.to_multiset().count(g) > 0);
            assert(r@ == r0.push(g));
            assert(rest@ == rest0.remove(m as int));
            assert(r@.to_multiset() =~= r0.to_multiset().insert(g));
            assert(rest@.to_multiset() =~= rest0.to_multiset().remove(g));
            assert(r@.to_multiset().add(rest@.to_multiset()) =~= guests@.to_multiset());
            assert forall|x: int, y: int|
                0 <= x < r@.len() && 0 <= y < rest@.len() implies lex_le(
                r@[x].name@,
                rest@[y].name@,
            ) by {
                let sy = if y < m as int {
                    y
                } else {
                    y + 1
                };
                assert(rest@[y] == rest0[sy]);
                if x < r0.len() {
                    assert(r@[x] == r0[x]);
                    assert(lex_le(r0[x].name@, rest0[sy].name@));
                } else {
                    assert(r@[x] == g);
                    assert(lex_le(rest0[m as int].name@, rest0[sy].name@));
                }
            }
            assert forall|i2: int, j2: int|
                0 <= i2 < j2 < r@.len() implies lex_le(r@[i2].name@, r@[j2].name@) by {
                if j2 < r0.len() {
                    assert(r@[i2] == r0[i2] && r@[j2] == r0[j2]);
                } else {
                    assert(r@[j2] == g);
                    assert(r@[i2] == r0[i2]);
                    assert(lex_le(r0[i2].name@, rest0[m as int].name@));
                }
            }
        }
    }
    proof {
        broadcast use vstd::seq_lib::group_to_multiset_ensures;

        assert(r@.to_multiset() =~= guests@.to_multiset());
    }
    r
}

/// Does some not-removed guest point at invite `id`?
pub open spec fn has_active_guest(guests: Seq<Guest>, id: u64) -> bool {
    exists|i: int|
        0 <= i < guests.len() && guests[i].invite_id == Some(id) && !guests[i].removed
}

/// The ids of the invites a campaign goes to: those with at least one
/// not-removed guest, in stored order.
pub open spec fn active_invite_ids(invites: Seq<Invite>, guests: Seq<Guest>) -> Seq<u64>
    decreases invites.len(),
{
    if invites.len() == 0 {
        Seq::empty()
    } else if has_active_guest(guests, invites.last().id) {
        active_invite_ids(invites.drop_last(), guests).push(invites.last().id)
    } else {
        active_invite_ids(invites.drop_last(), guests)
    }
}

proof fn lemma_active_invite_ids_take_step(invites: Seq<Invite>, guests: Seq<Guest>, i: int)
    requires
        0 <= i < invites.len(),
    ensures
        active_invite_ids(invites.take(i + 1), guests) == if has_active_guest(
            guests,
            invites[i].id,
        ) {
            active_invite_ids(invites.take(i), guests).push(invites[i].id)
        } else {
            active_invite_ids(invites.take(i), guests)
        },
{
    assert(invites.take(i + 1).drop_last() =~= invites.take(i));
    assert(invites.take(i + 1).last() == invites[i]);
}

impl GuestBook {
    /// Is some not-removed guest linked to invite `id`?
    fn invite_has_active_guest(&self, id: u64) -> (r: bool)
        ensures
            r == has_active_guest(self.guests@, id),
    {
        let mut i: usize = 0;
        while i < self.guests.len()
            invariant
                i <= self.guests@.len(),
                forall|j: int|
                    0 <= j < i ==> !(self.guests@[j].invite_id == Some(id)
                        && !self.guests@[j].removed),
            decreases self.guests@.len() - i,
        {
            let g = &self.guests[i];
            let linked = match g.invite_id {
                Some(x) => x == id,
                None => false,
            };
            if linked && !g.removed {
                return true;
            }
            i = i + 1;
        }
        false
    }

    /// The ids of the invites with at least one not-removed guest — the
    /// recipients of a campaign send — in stored order.
    pub fn campaign_recipient_invites(&self) -> (r: Vec<u64>)
        ensures
            r@ == active_invite_ids(self.invites@, self.guests@),
    {
        let ghost s = self.invites@;
        let mut r: Vec<u64> = Vec::new();
        let mut i: usize = 0;
        while i < self.invites.len()
            invariant
                i <= s.len(),
                s == self.invites@,
                r@ == active_invite_ids(s.take(i as int), self.guests@),
            decreases s.len() - i,
        {
            proof {
                lemma_active_invite_ids_take_step(s, self.guests@, i as int);
            }
            let id = self.invites[i].id;
            if self.invite_has_active_guest(id) {
                r.push(id);
            }
            i = i + 1;
        }
        proof {
            assert(s.take(s.len() as int) =~= s);
        }
        r
    }

    /// Copies of the not-removed guests linked to invite `id`, in stored
    /// order — the recipients of that invite's email.
    pub fn active_guests_of_invite(&self, id: u64) -> (r: Vec<Guest>)
        ensures
            r@ == active_linked_to(self.guests@, id),
    {
        let ghost s = self.guests@;
        let mut r: Vec<Guest> = Vec::new();
        let mut i: usize = 0;
        while i < self.guests.len()
            invariant
                i <= s.len(),
                s == self.guests@,
                r@ == active_linked_to(s.take(i as int), id),
            decreases s.len() - i,
        {
            proof {
                lemma_active_linked_to_take_step(s, id, i as int);
            }
            let g = &self.guests[i];
            let here = match g.invite_id {
                Some(x) => x == id,
                None => false,
            };
            if here && !g.removed {
                r.push(g.clone());
            }
            i = i + 1;
        }
        proof {
            assert(s.take(s.len() as int) =~= s);
        }
        r
    }
}

/// The not-removed guests linked to invite `id`, in stored order.
pub open spec fn active_linked_to(s: Seq<Guest>, id: u64) -> Seq<Guest>
    decreases s.len(),
{
    if s.len() == 0 {
        Seq::empty()
    } else if s.last().invite_id == Some(id) && !s.last().removed {
        active_linked_to(s.drop_last(), id).push(s.last())
    } else {
        active_linked_to(s.drop_last(), id)
    }
}

proof fn lemma_active_linked_to_take_step(s: Seq<Guest>, id: u64, i: int)
    requires
        0 <= i < s.len(),
    ensures
        active_linked_to(s.take(i + 1), id) == if s[i].invite_id == Some(id) && !s[i].removed {
            active_linked_to(s.take(i), id).push(s[i])
        } else {
            active_linked_to(s.take(i), id)
        },
{
    assert(s.take(i + 1).drop_last() =~= s.take(i));
    assert(s.take(i + 1).last() == s[i]);
}

/// Pointwise relinking preserves well-formedness, provided the target
/// invite exists in the new book.
proof fn lemma_relink_wf(
    pre: GuestBook,
    mid: GuestBook,
    post: GuestBook,
    linked: Seq<u64>,
    id: u64,
    unlink_rest: bool,
)
    requires
        pre.wf(),
        mid.guests == pre.guests,
        mid.next_guest_id == pre.next_guest_id,
        post.invites == mid.invites,
        post.next_guest_id == mid.next_guest_id,
        post.next_invite_id == mid.next_invite_id,
        post.guests@.len() == pre.guests@.len(),
        forall|j: int|
            0 <= j < pre.guests@.len() ==> post.guests@[j] == relinked(
                #[trigger] pre.guests@[j],
                linked,
                id,
                unlink_rest,
            ),
        mid.has_invite(id),
        // the invites of `mid` carry every id the invites of `pre` carry
        forall|w: int|
            0 <= w < pre.invites@.len() ==> exists|w2: int|
                0 <= w2 < mid.invites@.len() && (#[trigger] mid.invites@[w2]).id == (
                #[trigger] pre.invites@[w]).id,
        forall|i: int, j: int|
            0 <= i < j < mid.invites@.len() ==> mid.invites@[i].id != mid.invites@[j].id,
        forall|i: int| 0 <= i < mid.invites@.len() ==> mid.invites@[i].id < mid.next_invite_id,
    ensures
        post.wf(),
{
    assert forall|i: int, j: int|
        0 <= i < j < post.guests@.len() implies post.guests@[i].id != post.guests@[j].id by {
        assert(post.guests@[i].id == pre.guests@[i].id);
        assert(post.guests@[j].id == pre.guests@[j].id);
        assert(pre.guests@[i].id != pre.guests@[j].id);
    }
    assert forall|i: int|
        0 <= i < post.guests@.len() implies (#[trigger] post.guests@[i]).id < post.next_guest_id
            && match post.guests@[i].invite_id {
            Some(vid) => post.has_invite(vid),
            None => true,
        } by {
        assert(post.guests@[i] == relinked(pre.guests@[i], linked, id, unlink_rest));
        match post.guests@[i].invite_id {
            Some(vid) => {
                if linked.contains(pre.guests@[i].id) {
                    assert(vid == id);
                    let w2 = choose|w2: int|
                        0 <= w2 < mid.invites@.len() && mid.invites@[w2].id == id;
                    assert(post.invites@[w2].id == id);
                } else {
                    assert(pre.guests@[i].invite_id == Some(vid));
                    assert(pre.has_invite(vid));
                    let w = choose|w: int| 0 <= w < pre.invites@.len() && pre.invites@[w].id == vid;
                    let w2 = choose|w2: int|
                        0 <= w2 < mid.invites@.len() && mid.invites@[w2].id == pre.invites@[w].id;
                    assert(post.invites@[w2].id == vid);
                }
            },
            None => {},
        }
    }
}

/// After unlinking every guest of invite `id`, the remaining references
/// stay valid even once that invite's row is gone.
proof fn lemma_unlinked_refs_wf(pre: GuestBook, post: GuestBook, id: u64)
    requires
        pre.wf(),
        post.invites == pre.invites,
        post.next_guest_id == pre.next_guest_id,
        post.next_invite_id == pre.next_invite_id,
        post.guests@.len() == pre.guests@.len(),
        forall|j: int|
            0 <= j < pre.guests@.len() ==> post.guests@[j] == relinked(
                #[trigger] pre.guests@[j],
                Seq::<u64>::empty(),
                id,
                true,
            ),
    ensures
        post.wf(),
{
    assert forall|i: int, j: int|
        0 <= i < j < post.guests@.len() implies post.guests@[i].id != post.guests@[j].id by {
        assert(post.guests@[i].id == pre.guests@[i].id);
        assert(post.guests@[j].id == pre.guests@[j].id);
        assert(pre.guests@[i].id != pre.guests@[j].id);
    }
    assert forall|i: int|
        0 <= i < post.guests@.len() implies (#[trigger] post.guests@[i]).id < post.next_guest_id
            && match post.guests@[i].invite_id {
            Some(vid) => post.has_invite(vid),
            None => true,
        } by {
        assert(post.guests@[i] == relinked(pre.guests@[i], Seq::<u64>::empty(), id, true));
        match post.guests@[i].invite_id {
            Some(vid) => {
                assert(pre.guests@[i].invite_id == Some(vid));
                assert(pre.has_invite(vid));
                let w = choose|w: int| 0 <= w < pre.invites@.len() && pre.invites@[w].id == vid;
                assert(post.invites@[w].id == vid);
            },
            None => {},
        }
    }
}

/// As above, but with the invite's row removed: no remaining guest points
/// at the removed id, so every reference finds its invite at a possibly
/// shifted index.
proof fn lemma_unlinked_refs_wf_after_remove(pre: GuestBook, post: GuestBook, id: u64, k: int)
    requires
        pre.wf(),
        0 <= k < pre.invites@.len(),
        pre.invites@[k].id == id,
        post.invites@ == pre.invites@.remove(k),
        post.next_guest_id == pre.next_guest_id,
        post.next_invite_id == pre.next_invite_id,
        post.guests@.len() == pre.guests@.len(),
        forall|j: int|
            0 <= j < pre.guests@.len() ==> post.guests@[j] == relinked(
                #[trigger] pre.guests@[j],
                Seq::<u64>::empty(),
                id,
                true,
            ),
    ensures
        post.wf(),
{
    assert forall|i: int, j: int|
        0 <= i < j < post.invites@.len() implies post.invites@[i].id != post.invites@[j].id by {
        let si = if i < k {
            i
        } else {
            i + 1
        };
        let sj = if j < k {
            j
        } else {
            j + 1
        };
        assert(post.invites@[i] == pre.invites@[si]);
        assert(post.invites@[j] == pre.invites@[sj]);
        assert(pre.invites@[si].id != pre.invites@[sj].id);
    }
    assert forall|i: int|
        0 <= i < post.invites@.len() implies (#[trigger] post.invites@[i]).id
            < post.next_invite_id by {
        let si = if i < k {
            i
        } else {
            i + 1
        };
        assert(post.invites@[i] == pre.invites@[si]);
    }
    assert forall|i: int, j: int|
        0 <= i < j < post.guests@.len() implies post.guests@[i].id != post.guests@[j].id by {
        assert(post.guests@[i].id == pre.guests@[i].id);
        assert(post.guests@[j].id == pre.guests@[j].id);
        assert(pre.guests@[i].id != pre.guests@[j].id);
    }
    assert forall|i: int|
        0 <= i < post.guests@.len() implies (#[trigger] post.guests@[i]).id < post.next_guest_id
            && match post.guests@[i].invite_id {
            Some(vid) => post.has_invite(vid),
            None => true,
        } by {
        assert(post.guests@[i] == relinked(pre.guests@[i], Seq::<u64>::empty(), id, true));
        match post.guests@[i].invite_id {
            Some(vid) => {
                assert(pre.guests@[i].invite_id == Some(vid));
                assert(vid != id);
                assert(pre.has_invite(vid));
                let w = choose|w: int| 0 <= w < pre.invites@.len() && pre.invites@[w].id == vid;
                assert(w != k);
                let w2 = if w < k {
                    w
                } else {
                    w - 1
                };
                assert(post.invites@[w2] == pre.invites@[w]);
            },
            None => {},
        }
    }
}

/// Invite references stay valid when the invite set does not shrink and
/// every guest's link is either unchanged or points at an invite of the
/// new book.
pub(crate) proof fn lemma_guest_refs_hold(pre: GuestBook, post: GuestBook)
    requires
        pre.wf(),
        post.invites == pre.invites,
        forall|i: int|
            0 <= i < post.guests@.len() ==> (#[trigger] post.guests@[i]).invite_id is None || (
            exists|j: int|
                0 <= j < pre.guests@.len() && post.guests@[i].invite_id == #[trigger] pre.guests@[j].invite_id),
    ensures
        forall|i: int|
            0 <= i < post.guests@.len() ==> match (#[trigger] post.guests@[i]).invite_id {
                Some(vid) => post.has_invite(vid),
                None => true,
            },
{
    assert forall|i: int|
        0 <= i < post.guests@.len() implies match (#[trigger] post.guests@[i]).invite_id {
        Some(vid) => post.has_invite(vid),
        None => true,
    } by {
        match post.guests@[i].invite_id {
            Some(vid) => {
                let j = choose|j: int|
                    0 <= j < pre.guests@.len() && post.guests@[i].invite_id
                        == pre.guests@[j].invite_id;
                assert(pre.has_invite(vid));
                let w = choose|w: int| 0 <= w < pre.invites@.len() && pre.invites@[w].id == vid;
                assert(post.invites@[w].id == vid);
            },
            None => {},
        }
    }
}

/// Removing a guest keeps the remaining guests' invite references valid
/// and their ids unique.
proof fn lemma_guest_refs_hold_after_remove(pre: GuestBook, post: GuestBook, k: int)
    requires
        pre.wf(),
        0 <= k < pre.guests@.len(),
        post.invites == pre.invites,
        post.next_guest_id == pre.next_guest_id,
        post.next_invite_id == pre.next_invite_id,
        post.guests@ == pre.guests@.remove(k),
    ensures
        post.wf(),
{
    assert forall|i: int, j: int|
        0 <= i < j < post.guests@.len() implies post.guests@[i].id != post.guests@[j].id by {
        let si = if i < k {
            i
        } else {
            i + 1
        };
        let sj = if j < k {
            j
        } else {
            j + 1
        };
        assert(post.guests@[i] == pre.guests@[si]);
        assert(post.guests@[j] == pre.guests@[sj]);
        assert(pre.guests@[si].id != pre.guests@[sj].id);
    }
    assert forall|i: int|
        0 <= i < post.guests@.len() implies (#[trigger] post.guests@[i]).id < post.next_guest_id
            && match post.guests@[i].invite_id {
            Some(vid) => post.has_invite(vid),
            None => true,
        } by {
        let si = if i < k {
            i
        } else {
            i + 1
        };
        assert(post.guests@[i] == pre.guests@[si]);
        match post.guests@[i].invite_id {
            Some(vid) => {
                assert(pre.has_invite(vid));
                let w = choose|w: int| 0 <= w < pre.invites@.len() && pre.invites@[w].id == vid;
                assert(post.invites@[w].id == vid);
            },
            None => {},
        }
    }
}

} // verus!
