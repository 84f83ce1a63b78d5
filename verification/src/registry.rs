//! The gift registry: items with cached funding state, the contribution
//! ledger operations, and the funding aggregator that recomputes an item's
//! `total_contributed` / `is_fully_funded` from the full contribution set
//! on every relevant mutation (never by incremental patching).
//!
//! The relational store's rows are modelled as in-memory record sets; the
//! well-formedness predicate [`Registry::wf`] carries the central
//! invariant: every item's cached total equals the sum of the amounts of
//! its non-rejected contributions, and its funded flag says whether that
//! total has reached the price.

use vstd::prelude::*;

use crate::CoreError;
use crate::clone_opt_string;
use crate::funding::RegistryContribution;
use crate::funding::Status;
use crate::funding::confirmed_total_for;
use crate::funding::confirmed_toward;
use crate::funding::counts_toward;
use crate::funding::lemma_total_bounds;
use crate::funding::lemma_total_push;
use crate::funding::lemma_total_remove;
use crate::funding::lemma_total_take_step;
use crate::funding::lemma_total_update;
use crate::funding::lemma_total_zero;
use crate::funding::total_for;

verus! {

/// A fundable registry item. `total_contributed` and `is_fully_funded`
/// are derived fields, cached on the record and kept consistent by
/// recomputation.
#[derive(Debug)]
pub struct HoneymoonItem {
    pub id: u64,
    pub category_id: Option<u64>,
    pub name: String,
    pub description: Option<String>,
    /// target price in cents
    pub price: u64,
    /// cached: sum of the amounts of this item's non-rejected contributions
    pub total_contributed: u128,
    /// cached: `total_contributed >= price`
    pub is_fully_funded: bool,
    pub display_order: i64,
    pub created_at: i64,
    pub updated_at: i64,
}

/// Fields of an item to be added to the registry.
pub struct CreateItemRequest {
    pub category_id: Option<u64>,
    pub name: String,
    pub description: Option<String>,
    /// target price in cents
    pub price: u64,
    pub display_order: i64,
}

/// Fields of a public contribution submission.
pub struct CreateContributionRequest {
    /// `None` submits a general gift, unallocated to any item
    pub item_id: Option<u64>,
    pub contributor_name: Option<String>,
    pub contributor_email: Option<String>,
    /// cents; must be positive
    pub amount: u64,
    pub is_anonymous: bool,
    pub message: Option<String>,
    pub purpose: Option<String>,
}

/// The public display projection of a contribution: the contributor's
/// email is never exposed, and the name is withheld on request.
#[derive(Debug)]
pub struct PublicContribution {
    pub display_name: String,
    /// cents
    pub amount: u64,
    pub message: Option<String>,
    pub created_at: i64,
}

/// The registry's record sets, with fresh-id counters standing in for the
/// store's key generation.
pub struct Registry {
    pub items: Vec<HoneymoonItem>,
    pub contributions: Vec<RegistryContribution>,
    pub next_item_id: u64,
    pub next_contribution_id: u64,
}

impl Registry {
    pub open spec fn has_item(self, id: u64) -> bool {
        exists|i: int| 0 <= i < self.items@.len() && self.items@[i].id == id
    }

    pub open spec fn item_index(self, id: u64) -> int {
        choose|i: int| 0 <= i < self.items@.len() && self.items@[i].id == id
    }

    /// The item with id `id` (meaningful only when `has_item(id)`).
    pub open spec fn item_at(self, id: u64) -> HoneymoonItem {
        self.items@[self.item_index(id)]
    }

    pub open spec fn has_contribution(self, id: u64) -> bool {
        exists|i: int| 0 <= i < self.contributions@.len() && self.contributions@[i].id == id
    }

    pub open spec fn contribution_index(self, id: u64) -> int {
        choose|i: int| 0 <= i < self.contributions@.len() && self.contributions@[i].id == id
    }

    /// The contribution with id `id` (meaningful only when present).
    pub open spec fn contribution_at(self, id: u64) -> RegistryContribution {
        self.contributions@[self.contribution_index(id)]
    }

    /// Record identity and referential integrity: ids are unique, stay
    /// below the fresh-id counters, amounts are positive, and every
    /// allocated contribution references an existing item.
    pub open spec fn wf_core(self) -> bool {
        &&& (forall|i: int, j: int|
            0 <= i < j < self.items@.len() ==> self.items@[i].id != self.items@[j].id)
        &&& (forall|i: int, j: int|
            0 <= i < j < self.contributions@.len() ==> self.contributions@[i].id
                != self.contributions@[j].id)
        &&& (forall|i: int|
            0 <= i < self.items@.len() ==> self.items@[i].id < self.next_item_id)
        &&& (forall|i: int|
            0 <= i < self.contributions@.len() ==> self.contributions@[i].id
                < self.next_contribution_id)
        &&& (forall|i: int| 0 <= i < self.contributions@.len() ==> self.contributions@[i].amount > 0)
        &&& (forall|i: int|
            0 <= i < self.contributions@.len() ==> match (#[trigger] self.contributions@[i]).item_id {
                Some(iid) => self.has_item(iid),
                None => true,
            })
    }

    /// The cached derived fields of the item at index `i` agree with the
    /// contribution set.
    pub open spec fn item_cache_ok(self, i: int) -> bool {
        &&& self.items@[i].total_contributed as int == total_for(
            self.contributions@,
            self.items@[i].id,
        )
        &&& self.items@[i].is_fully_funded == (self.items@[i].total_contributed
            >= self.items@[i].price as u128)
    }

    /// Every item's cached `total_contributed` equals the sum of the
    /// amounts of its non-rejected contributions, and `is_fully_funded`
    /// holds exactly when that total has reached the price. This is the
    /// registry's convergence law: it holds again after every completed
    /// operation, whatever sequence of creations, status changes and
    /// deletions came before.
    pub open spec fn caches_ok(self) -> bool {
        forall|i: int| 0 <= i < self.items@.len() ==> self.item_cache_ok(i)
    }

    pub open spec fn wf(self) -> bool {
        self.wf_core() && self.caches_ok()
    }
}

/// `post` is `pre` with only the two cached funding fields and the
/// update timestamp rewritten — exactly what one recompute of the
/// funding aggregator writes to an item's row.
pub open spec fn recomputed_item(pre: HoneymoonItem, post: HoneymoonItem, now: i64) -> bool {
    &&& post.id == pre.id
    &&& post.category_id == pre.category_id
    &&& post.name == pre.name
    &&& post.description == pre.description
    &&& post.price == pre.price
    &&& post.display_order == pre.display_order
    &&& post.created_at == pre.created_at
    &&& post.updated_at == now
}

/// The index of the item with id `id`.
fn find_item(items: &Vec<HoneymoonItem>, id: u64) -> (r: Option<usize>)
    ensures
        match r {
            Some(i) => i < items@.len() && items@[i as int].id == id,
            None => forall|i: int| 0 <= i < items@.len() ==> items@[i].id != id,
        },
{
    let mut i: usize = 0;
    while i < items.len()
        invariant
            i <= items@.len(),
            forall|j: int| 0 <= j < i ==> items@[j].id != id,
        decreases items@.len() - i,
    {
        if items[i].id == id {
            return Some(i);
        }
        i = i + 1;
    }
    None
}

/// The index of the contribution with id `id`.
fn find_contribution(contributions: &Vec<RegistryContribution>, id: u64) -> (r: Option<usize>)
    ensures
        match r {
            Some(i) => i < contributions@.len() && contributions@[i as int].id == id,
            None => forall|i: int| 0 <= i < contributions@.len() ==> contributions@[i].id != id,
        },
{
    let mut i: usize = 0;
    while i < contributions.len()
        invariant
            i <= contributions@.len(),
            forall|j: int| 0 <= j < i ==> contributions@[j].id != id,
        decreases contributions@.len() - i,
    {
        if contributions[i].id == id {
            return Some(i);
        }
        i = i + 1;
    }
    None
}

/// Whether `c` counts toward item `id`'s funded total.
fn counted_for(c: &RegistryContribution, id: u64) -> (r: bool)
    ensures
        r == counts_toward(*c, id),
{
    match c.item_id {
        Some(iid) => iid == id && c.status != Status::Rejected,
        None => false,
    }
}

/// The full-aggregate sum: the funded total of item `id` re-derived from
/// the whole contribution set.
fn sum_for(contributions: &Vec<RegistryContribution>, id: u64) -> (t: u128)
    ensures
        t as int == total_for(contributions@, id),
{
    let ghost s = contributions@;
    let mut t: u128 = 0;
    let mut i: usize = 0;
    while i < contributions.len()
        invariant
            i <= s.len(),
            s == contributions@,
            t as int == total_for(s.take(i as int), id),
        decreases s.len() - i,
    {
        proof {
            lemma_total_take_step(s, id, i as int);
            lemma_total_bounds(s.take(i as int), id);
            assert(s.take(i as int).len() == i);
            assert(t as int + u64::MAX as int <= i * (u64::MAX as int) + u64::MAX as int);
        }
        let c = &contributions[i];
        if counted_for(c, id) {
            t = t + c.amount as u128;
        }
        i = i + 1;
    }
    proof {
        assert(s.take(s.len() as int) =~= s);
    }
    t
}

/// The admin statistic: confirmed contributions only.
fn confirmed_sum_for(contributions: &Vec<RegistryContribution>, id: u64) -> (t: u128)
    ensures
        t as int == confirmed_total_for(contributions@, id),
{
    let ghost s = contributions@;
    let mut t: u128 = 0;
    let mut i: usize = 0;
    while i < contributions.len()
        invariant
            i <= s.len(),
            s == contributions@,
            t as int == confirmed_total_for(s.take(i as int), id),
        decreases s.len() - i,
    {
        proof {
            lemma_total_take_step(s, id, i as int);
            crate::funding::lemma_confirmed_total_bounds(s.take(i as int), id);
            assert(s.take(i as int).len() == i);
            assert(t as int + u64::MAX as int <= i * (u64::MAX as int) + u64::MAX as int);
        }
        let c = &contributions[i];
        let confirmed = match c.item_id {
            Some(iid) => iid == id && c.status == Status::Confirmed,
            None => false,
        };
        proof {
            assert(confirmed == confirmed_toward(s[i as int], id));
        }
        if confirmed {
            t = t + c.amount as u128;
        }
        i = i + 1;
    }
    proof {
        assert(s.take(s.len() as int) =~= s);
    }
    t
}

impl Registry {
    /// An empty registry.
    pub fn new() -> (r: Registry)
        ensures
            r.wf(),
            r.items@ == Seq::<HoneymoonItem>::empty(),
            r.contributions@ == Seq::<RegistryContribution>::empty(),
            r.next_item_id == 0,
            r.next_contribution_id == 0,
    {
        Registry { items: Vec::new(), contributions: Vec::new(), next_item_id: 0, next_contribution_id: 0 }
    }

    /// Recomputes the cached funding fields of the item at `idx` from the
    /// full contribution set, and touches its update timestamp. Not
    /// incremental, hence idempotent and immune to drift.
    fn recompute_at(&mut self, idx: usize, now: i64)
        requires
            idx < old(self).items@.len(),
        ensures
            final(self).contributions == old(self).contributions,
            final(self).next_item_id == old(self).next_item_id,
            final(self).next_contribution_id == old(self).next_contribution_id,
            final(self).items@.len() == old(self).items@.len(),
            forall|j: int|
                0 <= j < old(self).items@.len() && j != idx ==> final(self).items@[j] == old(
                    self,
                ).items@[j],
            ({
                let it = final(self).items@[idx as int];
                let prev = old(self).items@[idx as int];
                &&& it.id == prev.id
                &&& it.category_id == prev.category_id
                &&& it.name == prev.name
                &&& it.description == prev.description
                &&& it.price == prev.price
                &&& it.display_order == prev.display_order
                &&& it.created_at == prev.created_at
                &&& it.updated_at == now
                &&& it.total_contributed as int == total_for(old(self).contributions@, prev.id)
                &&& it.is_fully_funded == (it.total_contributed >= prev.price as u128)
            }),
    {
        proof {
            lemma_total_bounds(self.contributions@, self.items@[idx as int].id);
        }
        let total = sum_for(&self.contributions, self.items[idx].id);
        let funded = total >= self.items[idx].price as u128;
        self.items[idx].total_contributed = total;
        self.items[idx].is_fully_funded = funded;
        self.items[idx].updated_at = now;
    }

    /// Adds an item; its cached fields start consistent (nothing has been
    /// contributed to a fresh item).
    pub fn add_item(&mut self, req: CreateItemRequest, now: i64) -> (id: u64)
        requires
            old(self).wf(),
            old(self).next_item_id < u64::MAX,
        ensures
            final(self).wf(),
            id == old(self).next_item_id,
            final(self).next_item_id == old(self).next_item_id + 1,
            final(self).next_contribution_id == old(self).next_contribution_id,
            final(self).contributions == old(self).contributions,
            final(self).items@ == old(self).items@.push(
                (HoneymoonItem {
                    id,
                    category_id: req.category_id,
                    name: req.name,
                    description: req.description,
                    price: req.price,
                    total_contributed: 0,
                    is_fully_funded: req.price == 0,
                    display_order: req.display_order,
                    created_at: now,
                    updated_at: now,
                }),
            ),
    {
        let id = self.next_item_id;
        let item = HoneymoonItem {
            id,
            category_id: req.category_id,
            name: req.name,
            description: req.description,
            price: req.price,
            total_contributed: 0,
            is_fully_funded: req.price == 0,
            display_order: req.display_order,
            created_at: now,
            updated_at: now,
        };
        self.items.push(item);
        self.next_item_id = self.next_item_id + 1;
        proof {
            let post = *self;
            let prev = *old(self);
            assert forall|k: int| 0 <= k < post.contributions@.len() implies post.contributions@[k].item_id
                != Some(id) by {
                if post.contributions@[k].item_id == Some(id) {
                    assert(prev.has_item(id));
                }
            }
            lemma_total_zero(post.contributions@, id);
            assert forall|k: int|
                0 <= k < post.contributions@.len() implies match (#[trigger] post.contributions@[k]).item_id {
                Some(iid) => post.has_item(iid),
                None => true,
            } by {
                match post.contributions@[k].item_id {
                    Some(iid) => {
                        assert(prev.has_item(iid));
                        let w = choose|w: int|
                            0 <= w < prev.items@.len() && prev.items@[w].id == iid;
                        assert(post.items@[w].id == iid);
                    },
                    None => {},
                }
            }
            assert forall|i: int| 0 <= i < post.items@.len() implies post.item_cache_ok(i) by {
                if i < prev.items@.len() {
                    assert(prev.item_cache_ok(i));
                }
            }
        }
        id
    }

    /// Validated creation of a contribution (`status` starts `Pending`):
    /// an allocated contribution's item must exist and must not already be
    /// fully funded; a general gift (`item_id` of `None`) skips both checks
    /// and never affects any item's totals. On success the record is
    /// persisted and the item's cached totals recomputed.
    pub fn create_contribution(&mut self, req: CreateContributionRequest, now: i64) -> (r: Result<
        RegistryContribution,
        CoreError,
    >)
        requires
            old(self).wf(),
            req.amount > 0,
            old(self).next_contribution_id < u64::MAX,
        ensures
            final(self).wf(),
            final(self).next_item_id == old(self).next_item_id,
            (r is Ok <==> (req.item_id is None || (req.item_id matches Some(iid)
                && old(self).has_item(iid) && !old(self).item_at(iid).is_fully_funded))),
            match r {
                Ok(c) => {
                    &&& c == (RegistryContribution {
                        id: old(self).next_contribution_id,
                        item_id: req.item_id,
                        contributor_name: req.contributor_name,
                        contributor_email: req.contributor_email,
                        amount: req.amount,
                        status: Status::Pending,
                        is_anonymous: req.is_anonymous,
                        message: req.message,
                        purpose: req.purpose,
                        confirmed_at: None,
                        created_at: now,
                    })
                    &&& final(self).contributions@ == old(self).contributions@.push(c)
                    &&& final(self).next_contribution_id == old(self).next_contribution_id + 1
                    &&& (req.item_id is None ==> final(self).items == old(self).items)
                    &&& (req.item_id matches Some(iid) ==> {
                        &&& final(self).items@.len() == old(self).items@.len()
                        &&& (forall|j: int|
                            0 <= j < old(self).items@.len() && old(self).items@[j].id != iid
                                ==> final(self).items@[j] == old(self).items@[j])
                        &&& recomputed_item(
                            old(self).items@[old(self).item_index(iid)],
                            final(self).items@[old(self).item_index(iid)],
                            now,
                        )
                    })
                },
                Err(e) => {
                    &&& *final(self) == *old(self)
                    &&& ((e == CoreError::NotFound) <==> (req.item_id matches Some(iid)
                        && !old(self).has_item(iid)))
                    &&& ((e == CoreError::AlreadyFunded) <==> (req.item_id matches Some(iid)
                        && old(self).has_item(iid) && old(self).item_at(iid).is_fully_funded))
                },
            },
    {
        let item_idx: Option<usize> = match req.item_id {
            Some(iid) => {
                match find_item(&self.items, iid) {
                    None => {
                        return Err(CoreError::NotFound);
                    },
                    Some(i) => {
                        proof {
                            lemma_item_index_is(*self, iid, i as int);
                        }
                        if self.items[i].is_fully_funded {
                            return Err(CoreError::AlreadyFunded);
                        }
                        Some(i)
                    },
                }
            },
            None => None,
        };
        let c = RegistryContribution {
            id: self.next_contribution_id,
            item_id: req.item_id,
            contributor_name: req.contributor_name,
            contributor_email: req.contributor_email,
            amount: req.amount,
            status: Status::Pending,
            is_anonymous: req.is_anonymous,
            message: req.message,
            purpose: req.purpose,
            confirmed_at: None,
            created_at: now,
        };
        let ret = c.clone();
        self.contributions.push(c);
        self.next_contribution_id = self.next_contribution_id + 1;
        proof {
            lemma_ledger_push_keeps_caches(*old(self), *self, ret);
        }
        let ghost mid = *self;
        match item_idx {
            Some(i) => {
                proof {
                    assert forall|j: int|
                        0 <= j < mid.items@.len() && j != i as int implies #[trigger] mid.item_cache_ok(
                        j,
                    ) by {
                        if j < i as int {
                            assert(mid.items@[j].id != mid.items@[i as int].id);
                        } else {
                            assert(mid.items@[i as int].id != mid.items@[j].id);
                        }
                        assert(Some(mid.items@[j].id) != ret.item_id);
                    }
                }
                self.recompute_at(i, now);
                proof {
                    lemma_caches_after_recompute(mid, *self, i as int);
                }
            },
            None => {},
        }
        Ok(ret)
    }

    /// Admin status transition. `confirmed_at` is set to `now` if and only
    /// if the new status is `Confirmed`, and cleared otherwise; when the
    /// contribution is allocated to an item, that item's totals are
    /// recomputed regardless of whether the old and new status both
    /// counted (simplest-correct policy).
    pub fn update_contribution_status(
        &mut self,
        contribution_id: u64,
        new_status: Status,
        now: i64,
    ) -> (r: Result<(), CoreError>)
        requires
            old(self).wf(),
        ensures
            final(self).wf(),
            final(self).next_item_id == old(self).next_item_id,
            final(self).next_contribution_id == old(self).next_contribution_id,
            (r is Ok <==> old(self).has_contribution(contribution_id)),
            match r {
                Ok(u) => {
                    let k = old(self).contribution_index(contribution_id);
                    let prev_c = old(self).contributions@[k];
                    let new_c = (RegistryContribution {
                        status: new_status,
                        confirmed_at: if new_status == Status::Confirmed {
                            Some(now)
                        } else {
                            None
                        },
                        ..prev_c
                    });
                    &&& final(self).contributions@ == old(self).contributions@.update(k, new_c)
                    &&& (prev_c.item_id is None ==> final(self).items == old(self).items)
                    &&& (prev_c.item_id matches Some(iid) ==> {
                        &&& final(self).items@.len() == old(self).items@.len()
                        &&& (forall|j: int|
                            0 <= j < old(self).items@.len() && old(self).items@[j].id != iid
                                ==> final(self).items@[j] == old(self).items@[j])
                        &&& recomputed_item(
                            old(self).items@[old(self).item_index(iid)],
                            final(self).items@[old(self).item_index(iid)],
                            now,
                        )
                    })
                },
                Err(e) => e == CoreError::NotFound && *final(self) == *old(self),
            },
    {
        let idx = match find_contribution(&self.contributions, contribution_id) {
            None => {
                return Err(CoreError::NotFound);
            },
            Some(i) => i,
        };
        proof {
            lemma_contribution_index_is(*self, contribution_id, idx as int);
        }
        let mut c = self.contributions[idx].clone();
        c.status = new_status;
        c.confirmed_at = if new_status == Status::Confirmed {
            Some(now)
        } else {
            None
        };
        let item_ref = c.item_id;
        let ghost newc = c;
        self.contributions[idx] = c;
        proof {
            lemma_ledger_update_keeps_caches(*old(self), *self, idx as int, newc);
        }
        let ghost mid = *self;
        match item_ref {
            Some(iid) => {
                match find_item(&self.items, iid) {
                    Some(i) => {
                        proof {
                            lemma_item_index_is(*old(self), iid, i as int);
                            lemma_other_items_cached(mid, i as int, Some(iid));
                        }
                        self.recompute_at(i, now);
                        proof {
                            lemma_caches_after_recompute(mid, *self, i as int);
                        }
                    },
                    None => {
                        proof {
                            assert(mid.contributions@[idx as int].item_id == Some(iid));
                            assert(mid.has_item(iid));
                            let w = choose|w: int|
                                0 <= w < mid.items@.len() && mid.items@[w].id == iid;
                            assert(self.items@[w].id == iid);
                            assert(false);
                        }
                    },
                }
            },
            None => {},
        }
        Ok(())
    }

    /// Admin deletion. The record is physically removed; the item's totals
    /// are recomputed only when the removed contribution both had an item
    /// and counted toward it (a rejected contribution never contributed,
    /// so its deletion cannot change any total).
    pub fn delete_contribution(&mut self, contribution_id: u64, now: i64) -> (r: Result<
        (),
        CoreError,
    >)
        requires
            old(self).wf(),
        ensures
            final(self).wf(),
            final(self).next_item_id == old(self).next_item_id,
            final(self).next_contribution_id == old(self).next_contribution_id,
            (r is Ok <==> old(self).has_contribution(contribution_id)),
            match r {
                Ok(u) => {
                    let k = old(self).contribution_index(contribution_id);
                    let c = old(self).contributions@[k];
                    &&& final(self).contributions@ == old(self).contributions@.remove(k)
                    &&& (c.status == Status::Rejected ==> final(self).items == old(self).items)
                    &&& (c.item_id is None ==> final(self).items == old(self).items)
                    &&& (c.item_id matches Some(iid) ==> c.status != Status::Rejected ==> {
                        &&& final(self).items@.len() == old(self).items@.len()
                        &&& (forall|j: int|
                            0 <= j < old(self).items@.len() && old(self).items@[j].id != iid
                                ==> final(self).items@[j] == old(self).items@[j])
                        &&& recomputed_item(
                            old(self).items@[old(self).item_index(iid)],
                            final(self).items@[old(self).item_index(iid)],
                            now,
                        )
                        &&& total_for(final(self).contributions@, iid) == total_for(
                            old(self).contributions@,
                            iid,
                        ) - c.amount
                        &&& final(self).item_at(iid).total_contributed < old(self).item_at(
                            iid,
                        ).total_contributed
                    })
                },
                Err(e) => e == CoreError::NotFound && *final(self) == *old(self),
            },
    {
        let idx = match find_contribution(&self.contributions, contribution_id) {
            None => {
                return Err(CoreError::NotFound);
            },
            Some(i) => i,
        };
        proof {
            lemma_contribution_index_is(*self, contribution_id, idx as int);
        }
        let c = self.contributions.remove(idx);
        proof {
            lemma_ledger_remove_keeps_caches(*old(self), *self, idx as int);
        }
        let ghost mid = *self;
        let target: Option<u64> = match c.item_id {
            Some(iid) => if c.status != Status::Rejected {
                Some(iid)
            } else {
                None
            },
            None => None,
        };
        if let Some(iid) = target {
            match find_item(&self.items, iid) {
                Some(i) => {
                    proof {
                        lemma_item_index_is(*old(self), iid, i as int);
                        lemma_other_items_cached(mid, i as int, Some(iid));
                    }
                    self.recompute_at(i, now);
                    proof {
                        lemma_caches_after_recompute(mid, *self, i as int);
                        lemma_total_remove(old(self).contributions@, iid, idx as int);
                        lemma_item_index_is(*self, iid, i as int);
                        assert(old(self).item_cache_ok(i as int));
                        assert(self.item_cache_ok(i as int));
                    }
                },
                None => {
                    proof {
                        assert(old(self).contributions@[idx as int].item_id == Some(iid));
                        assert(old(self).has_item(iid));
                        let w = choose|w: int|
                            0 <= w < old(self).items@.len() && old(self).items@[w].id == iid;
                        assert(self.items@[w].id == iid);
                        assert(false);
                    }
                },
            }
        } else {
            proof {
                let prev = *old(self);
                assert forall|j: int| 0 <= j < self.items@.len() implies self.item_cache_ok(j) by {
                    lemma_total_remove(prev.contributions@, self.items@[j].id, idx as int);
                    assert(prev.item_cache_ok(j));
                }
            }
        }
        Ok(())
    }
}

/// The convergence law of the funding aggregator: in every well-formed
/// registry — and every operation of this module leaves the registry
/// well formed, whatever sequence of contribution creations, status
/// changes and deletions came before — an item's cached
/// `total_contributed` equals the sum of the amounts of its non-rejected
/// contributions, and `is_fully_funded` holds exactly when that total
/// has reached the price.
pub proof fn lemma_totals_converged(r: Registry, id: u64)
    requires
        r.wf(),
        r.has_item(id),
    ensures
        r.item_at(id).total_contributed as int == total_for(r.contributions@, id),
        r.item_at(id).is_fully_funded == (r.item_at(id).total_contributed >= r.item_at(
            id,
        ).price as u128),
{
    let k = r.item_index(id);
    assert(r.item_cache_ok(k));
}

/// `i` holds the id `id`, so it is the chosen item index for `id`.
proof fn lemma_item_index_is(r: Registry, id: u64, i: int)
    requires
        r.wf_core(),
        0 <= i < r.items@.len(),
        r.items@[i].id == id,
    ensures
        r.has_item(id),
        r.item_index(id) == i,
        r.item_at(id) == r.items@[i],
{
    assert(r.has_item(id));
    let k = r.item_index(id);
    if k != i {
        if k < i {
            assert(r.items@[k].id != r.items@[i].id);
        } else {
            assert(r.items@[i].id != r.items@[k].id);
        }
    }
}

/// `i` holds the id `id`, so it is the chosen contribution index for `id`.
proof fn lemma_contribution_index_is(r: Registry, id: u64, i: int)
    requires
        r.wf_core(),
        0 <= i < r.contributions@.len(),
        r.contributions@[i].id == id,
    ensures
        r.has_contribution(id),
        r.contribution_index(id) == i,
        r.contribution_at(id) == r.contributions@[i],
{
    assert(r.has_contribution(id));
    let k = r.contribution_index(id);
    if k != i {
        if k < i {
            assert(r.contributions@[k].id != r.contributions@[i].id);
        } else {
            assert(r.contributions@[i].id != r.contributions@[k].id);
        }
    }
}

/// Pushing a fresh pending contribution keeps every item's cache correct
/// except possibly the item it is allocated to, and keeps the core
/// invariants.
proof fn lemma_ledger_push_keeps_caches(pre: Registry, post: Registry, c: RegistryContribution)
    requires
        pre.wf(),
        pre.next_contribution_id < u64::MAX,
        c.id == pre.next_contribution_id,
        c.amount > 0,
        (c.item_id matches Some(iid) ==> pre.has_item(iid)),
        post.items == pre.items,
        post.contributions@ == pre.contributions@.push(c),
        post.next_item_id == pre.next_item_id,
        post.next_contribution_id == pre.next_contribution_id + 1,
    ensures
        post.wf_core(),
        forall|j: int|
            0 <= j < post.items@.len() && Some(post.items@[j].id) != c.item_id
                ==> #[trigger] post.item_cache_ok(j),
{
    assert forall|k: int|
        0 <= k < post.contributions@.len() implies match (#[trigger] post.contributions@[k]).item_id {
        Some(iid) => post.has_item(iid),
        None => true,
    } by {
        if k < pre.contributions@.len() {
            match pre.contributions@[k].item_id {
                Some(iid) => {
                    assert(pre.has_item(iid));
                    let w = choose|w: int| 0 <= w < pre.items@.len() && pre.items@[w].id == iid;
                    assert(post.items@[w].id == iid);
                },
                None => {},
            }
        } else {
            match c.item_id {
                Some(iid) => {
                    let w = choose|w: int| 0 <= w < pre.items@.len() && pre.items@[w].id == iid;
                    assert(post.items@[w].id == iid);
                },
                None => {},
            }
        }
    }
    assert forall|j: int|
        0 <= j < post.items@.len() && Some(post.items@[j].id) != c.item_id
            implies #[trigger] post.item_cache_ok(j) by {
        lemma_total_push(pre.contributions@, post.items@[j].id, c);
        assert(pre.item_cache_ok(j));
    }
}

/// After the funding aggregator has recomputed the item at `idx` against
/// the current contribution set, the whole registry is well formed again,
/// provided every other item's cache was already correct.
proof fn lemma_caches_after_recompute(mid: Registry, post: Registry, idx: int)
    requires
        mid.wf_core(),
        0 <= idx < mid.items@.len(),
        forall|j: int|
            0 <= j < mid.items@.len() && j != idx ==> #[trigger] mid.item_cache_ok(j),
        post.contributions == mid.contributions,
        post.next_item_id == mid.next_item_id,
        post.next_contribution_id == mid.next_contribution_id,
        post.items@.len() == mid.items@.len(),
        forall|j: int|
            0 <= j < mid.items@.len() && j != idx ==> post.items@[j] == mid.items@[j],
        post.items@[idx].id == mid.items@[idx].id,
        post.items@[idx].price == mid.items@[idx].price,
        post.items@[idx].total_contributed as int == total_for(
            mid.contributions@,
            mid.items@[idx].id,
        ),
        post.items@[idx].is_fully_funded == (post.items@[idx].total_contributed
            >= post.items@[idx].price as u128),
    ensures
        post.wf(),
{
    assert forall|i: int, j: int|
        0 <= i < j < post.items@.len() implies post.items@[i].id != post.items@[j].id by {
        assert(mid.items@[i].id != mid.items@[j].id);
        assert(post.items@[i].id == mid.items@[i].id);
        assert(post.items@[j].id == mid.items@[j].id);
    }
    assert forall|k: int|
        0 <= k < post.contributions@.len() implies match (#[trigger] post.contributions@[k]).item_id {
        Some(iid) => post.has_item(iid),
        None => true,
    } by {
        match post.contributions@[k].item_id {
            Some(iid) => {
                assert(mid.has_item(iid));
                let w = choose|w: int| 0 <= w < mid.items@.len() && mid.items@[w].id == iid;
                assert(post.items@[w].id == iid);
            },
            None => {},
        }
    }
    assert forall|j: int| 0 <= j < post.items@.len() implies post.item_cache_ok(j) by {
        if j != idx {
            assert(mid.item_cache_ok(j));
        }
    }
}

/// The name shown publicly for a contribution: the contributor's name,
/// or "Anonymous" when anonymity was requested or no name was given.
pub open spec fn display_name_of(c: RegistryContribution) -> Seq<char> {
    match c.contributor_name {
        Some(n) => if c.is_anonymous {
            "Anonymous"@
        } else {
            n@
        },
        None => "Anonymous"@,
    }
}

/// `p` is the public view of `c`: display name, amount, message and
/// creation time — and nothing else (in particular, no email).
pub open spec fn is_public_view(c: RegistryContribution, p: PublicContribution) -> bool {
    &&& p.display_name@ == display_name_of(c)
    &&& p.amount == c.amount
    &&& p.message == c.message
    &&& p.created_at == c.created_at
}

/// The subsequence of contributions shown publicly for item `id`: every
/// non-rejected contribution allocated to it, in order.
pub open spec fn public_source(s: Seq<RegistryContribution>, id: u64) -> Seq<RegistryContribution>
    decreases s.len(),
{
    if s.len() == 0 {
        Seq::empty()
    } else if counts_toward(s.last(), id) {
        public_source(s.drop_last(), id).push(s.last())
    } else {
        public_source(s.drop_last(), id)
    }
}

proof fn lemma_public_source_take_step(s: Seq<RegistryContribution>, id: u64, i: int)
    requires
        0 <= i < s.len(),
    ensures
        public_source(s.take(i + 1), id) == if counts_toward(s[i], id) {
            public_source(s.take(i), id).push(s[i])
        } else {
            public_source(s.take(i), id)
        },
{
    assert(s.take(i + 1).drop_last() =~= s.take(i));
    assert(s.take(i + 1).last() == s[i]);
}

impl Registry {
    /// The item with id `id`, if any.
    pub fn get_item(&self, id: u64) -> (r: Option<&HoneymoonItem>)
        requires
            self.wf(),
        ensures
            match r {
                Some(it) => self.has_item(id) && *it == self.item_at(id),
                None => !self.has_item(id),
            },
    {
        match find_item(&self.items, id) {
            Some(i) => {
                proof {
                    lemma_item_index_is(*self, id, i as int);
                }
                Some(&self.items[i])
            },
            None => None,
        }
    }

    /// The contribution with id `id`, if any.
    pub fn get_contribution(&self, id: u64) -> (r: Option<&RegistryContribution>)
        requires
            self.wf(),
        ensures
            match r {
                Some(c) => self.has_contribution(id) && *c == self.contribution_at(id),
                None => !self.has_contribution(id),
            },
    {
        match find_contribution(&self.contributions, id) {
            Some(i) => {
                proof {
                    lemma_contribution_index_is(*self, id, i as int);
                }
                Some(&self.contributions[i])
            },
            None => None,
        }
    }

    /// The admin-facing statistic for item `id`: the sum of the amounts
    /// of its confirmed contributions only.
    pub fn confirmed_total(&self, item_id: u64) -> (t: u128)
        ensures
            t as int == confirmed_total_for(self.contributions@, item_id),
    {
        confirmed_sum_for(&self.contributions, item_id)
    }

    /// The public display projection for item `id`: one record per
    /// non-rejected contribution, exposing the display name, amount,
    /// message and creation time; the contributor's email never leaves
    /// the ledger.
    pub fn public_contributions(&self, item_id: u64) -> (r: Vec<PublicContribution>)
        ensures
            r@.len() == public_source(self.contributions@, item_id).len(),
            forall|k: int|
                0 <= k < r@.len() ==> is_public_view(
                    public_source(self.contributions@, item_id)[k],
                    #[trigger] r@[k],
                ),
    {
        let ghost s = self.contributions@;
        let mut r: Vec<PublicContribution> = Vec::new();
        let mut i: usize = 0;
        while i < self.contributions.len()
            invariant
                i <= s.len(),
                s == self.contributions@,
                r@.len() == public_source(s.take(i as int), item_id).len(),
                forall|k: int|
                    0 <= k < r@.len() ==> is_public_view(
                        public_source(s.take(i as int), item_id)[k],
                        #[trigger] r@[k],
                    ),
            decreases s.len() - i,
        {
            proof {
                lemma_public_source_take_step(s, item_id, i as int);
            }
            let c = &self.contributions[i];
            if counted_for(c, item_id) {
                let display_name = if c.is_anonymous {
                    String::from_str("Anonymous")
                } else {
                    match &c.contributor_name {
                        Some(n) => n.clone(),
                        None => String::from_str("Anonymous"),
                    }
                };
                let p = PublicContribution {
                    display_name,
                    amount: c.amount,
                    message: crate::clone_opt_string(&c.message),
                    created_at: c.created_at,
                };
                r.push(p);
            }
            i = i + 1;
        }
        proof {
            assert(s.take(s.len() as int) =~= s);
        }
        r
    }
}

/// When every item whose id is not the target has a correct cache, so has
/// every item other than the target's index.
proof fn lemma_other_items_cached(r: Registry, idx: int, target: Option<u64>)
    requires
        r.wf_core(),
        0 <= idx < r.items@.len(),
        target == Some(r.items@[idx].id),
        forall|j: int|
            0 <= j < r.items@.len() && Some(r.items@[j].id) != target
                ==> #[trigger] r.item_cache_ok(j),
    ensures
        forall|j: int| 0 <= j < r.items@.len() && j != idx ==> #[trigger] r.item_cache_ok(j),
{
    assert forall|j: int|
        0 <= j < r.items@.len() && j != idx implies #[trigger] r.item_cache_ok(j) by {
        if j < idx {
            assert(r.items@[j].id != r.items@[idx].id);
        } else {
            assert(r.items@[idx].id != r.items@[j].id);
        }
    }
}

/// Replacing a contribution's status fields keeps the core invariants and
/// every cache except possibly that of the item it is allocated to.
proof fn lemma_ledger_update_keeps_caches(pre: Registry, post: Registry, k: int, c: RegistryContribution)
    requires
        pre.wf(),
        0 <= k < pre.contributions@.len(),
        c.id == pre.contributions@[k].id,
        c.item_id == pre.contributions@[k].item_id,
        c.amount == pre.contributions@[k].amount,
        post.items == pre.items,
        post.contributions@ == pre.contributions@.update(k, c),
        post.next_item_id == pre.next_item_id,
        post.next_contribution_id == pre.next_contribution_id,
    ensures
        post.wf_core(),
        forall|j: int|
            0 <= j < post.items@.len() && Some(post.items@[j].id) != c.item_id
                ==> #[trigger] post.item_cache_ok(j),
{
    assert forall|k2: int|
        0 <= k2 < post.contributions@.len() implies match (#[trigger] post.contributions@[k2]).item_id {
        Some(iid) => post.has_item(iid),
        None => true,
    } by {
        match post.contributions@[k2].item_id {
            Some(iid) => {
                assert(pre.contributions@[k2].item_id == Some(iid));
                assert(pre.has_item(iid));
                let w = choose|w: int| 0 <= w < pre.items@.len() && pre.items@[w].id == iid;
                assert(post.items@[w].id == iid);
            },
            None => {},
        }
    }
    assert forall|j: int|
        0 <= j < post.items@.len() && Some(post.items@[j].id) != c.item_id
            implies #[trigger] post.item_cache_ok(j) by {
        lemma_total_update(pre.contributions@, post.items@[j].id, k, c);
        assert(pre.item_cache_ok(j));
    }
}

/// Removing a contribution keeps the core invariants; every cache stays
/// correct except possibly that of the item the removed record counted
/// toward (removing a rejected or unallocated record changes no total).
proof fn lemma_ledger_remove_keeps_caches(pre: Registry, post: Registry, k: int)
    requires
        pre.wf(),
        0 <= k < pre.contributions@.len(),
        post.items == pre.items,
        post.contributions@ == pre.contributions@.remove(k),
        post.next_item_id == pre.next_item_id,
        post.next_contribution_id == pre.next_contribution_id,
    ensures
        post.wf_core(),
        forall|j: int|
            0 <= j < post.items@.len() && !counts_toward(
                pre.contributions@[k],
                post.items@[j].id,
            ) ==> #[trigger] post.item_cache_ok(j),
{
    assert forall|k2: int|
        0 <= k2 < post.contributions@.len() implies match (#[trigger] post.contributions@[k2]).item_id {
        Some(iid) => post.has_item(iid),
        None => true,
    } by {
        let src = if k2 < k {
            k2
        } else {
            k2 + 1
        };
        assert(post.contributions@[k2] == pre.contributions@[src]);
        match post.contributions@[k2].item_id {
            Some(iid) => {
                assert(pre.has_item(iid));
                let w = choose|w: int| 0 <= w < pre.items@.len() && pre.items@[w].id == iid;
                assert(post.items@[w].id == iid);
            },
            None => {},
        }
    }
    assert forall|i: int, j: int|
        0 <= i < j < post.contributions@.len() implies post.contributions@[i].id
            != post.contributions@[j].id by {
        let si = if i < k {
            i
        } else {
            i + 1
        };
        let sj = if j < k {
            j
        } else {
            j + 1
        };
        assert(post.contributions@[i] == pre.contributions@[si]);
        assert(post.contributions@[j] == pre.contributions@[sj]);
        assert(pre.contributions@[si].id != pre.contributions@[sj].id);
    }
    assert forall|k2: int|
        0 <= k2 < post.contributions@.len() implies (#[trigger] post.contributions@[k2]).id
            < post.next_contribution_id && post.contributions@[k2].amount > 0 by {
        let src = if k2 < k {
            k2
        } else {
            k2 + 1
        };
        assert(post.contributions@[k2] == pre.contributions@[src]);
    }
    assert forall|j: int|
        0 <= j < post.items@.len() && !counts_toward(pre.contributions@[k], post.items@[j].id)
            implies #[trigger] post.item_cache_ok(j) by {
        lemma_total_remove(pre.contributions@, post.items@[j].id, k);
        assert(pre.item_cache_ok(j));
    }
}

} // verus!
