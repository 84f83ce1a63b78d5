//! The contribution ledger's record type and the funded-total mathematics:
//! which contributions count toward an item's total, what that total is,
//! and how it moves under appending, updating and removing records.
//!
//! Amounts are exact decimals held in minor currency units (cents).

use vstd::prelude::*;

verus! {

/// Lifecycle status of a contribution. Only `Rejected` excludes a
/// contribution from the funded total; `Pending` counts identically to
/// `Confirmed` toward it.
#[derive(Clone, Copy, Debug, PartialEq, Eq, Structural)]
pub enum Status {
    Pending,
    Confirmed,
    Rejected,
}

/// A monetary pledge toward a registry item, or a general gift when
/// `item_id` is `None` (a general gift never affects any item's totals).
#[derive(Debug)]
pub struct RegistryContribution {
    pub id: u64,
    pub item_id: Option<u64>,
    pub contributor_name: Option<String>,
    pub contributor_email: Option<String>,
    /// cents; always positive
    pub amount: u64,
    pub status: Status,
    pub is_anonymous: bool,
    pub message: Option<String>,
    pub purpose: Option<String>,
    /// unix seconds; `Some` exactly while `status` is `Confirmed`
    pub confirmed_at: Option<i64>,
    /// unix seconds
    pub created_at: i64,
}

impl Clone for RegistryContribution {
    /// A field-for-field copy.
    fn clone(&self) -> (r: Self)
        ensures
            r == *self,
    {
        RegistryContribution {
            id: self.id,
            item_id: self.item_id,
            contributor_name: crate::clone_opt_string(&self.contributor_name),
            contributor_email: crate::clone_opt_string(&self.contributor_email),
            amount: self.amount,
            status: self.status,
            is_anonymous: self.is_anonymous,
            message: crate::clone_opt_string(&self.message),
            purpose: crate::clone_opt_string(&self.purpose),
            confirmed_at: self.confirmed_at,
            created_at: self.created_at,
        }
    }
}

/// Does `c` count toward the funded total of item `id`?
pub open spec fn counts_toward(c: RegistryContribution, id: u64) -> bool {
    c.item_id == Some(id) && c.status != Status::Rejected
}

/// Does `c` count toward the admin-facing confirmed-only total of item `id`?
pub open spec fn confirmed_toward(c: RegistryContribution, id: u64) -> bool {
    c.item_id == Some(id) && c.status == Status::Confirmed
}

/// The funded total of item `id`: the sum of the amounts of its
/// non-rejected contributions.
pub open spec fn total_for(s: Seq<RegistryContribution>, id: u64) -> int
    decreases s.len(),
{
    if s.len() == 0 {
        0
    } else {
        total_for(s.drop_last(), id) + if counts_toward(s.last(), id) {
            s.last().amount as int
        } else {
            0
        }
    }
}

/// The admin-facing total of item `id`: confirmed contributions only.
pub open spec fn confirmed_total_for(s: Seq<RegistryContribution>, id: u64) -> int
    decreases s.len(),
{
    if s.len() == 0 {
        0
    } else {
        confirmed_total_for(s.drop_last(), id) + if confirmed_toward(s.last(), id) {
            s.last().amount as int
        } else {
            0
        }
    }
}

pub proof fn lemma_total_bounds(s: Seq<RegistryContribution>, id: u64)
    ensures
        0 <= total_for(s, id) <= s.len() * (u64::MAX as int),
    decreases s.len(),
{
    if s.len() > 0 {
        lemma_total_bounds(s.drop_last(), id);
    }
}

pub proof fn lemma_confirmed_total_bounds(s: Seq<RegistryContribution>, id: u64)
    ensures
        0 <= confirmed_total_for(s, id) <= s.len() * (u64::MAX as int),
    decreases s.len(),
{
    if s.len() > 0 {
        lemma_confirmed_total_bounds(s.drop_last(), id);
    }
}

/// Step lemma for summing left to right.
pub proof fn lemma_total_take_step(s: Seq<RegistryContribution>, id: u64, i: int)
    requires
        0 <= i < s.len(),
    ensures
        total_for(s.take(i + 1), id) == total_for(s.take(i), id) + if counts_toward(s[i], id) {
            s[i].amount as int
        } else {
            0
        },
        confirmed_total_for(s.take(i + 1), id) == confirmed_total_for(s.take(i), id)
            + if confirmed_toward(s[i], id) {
            s[i].amount as int
        } else {
            0
        },
{
    assert(s.take(i + 1).drop_last() =~= s.take(i));
    assert(s.take(i + 1).last() == s[i]);
}

/// Appending a record adds its counted amount and nothing else.
pub proof fn lemma_total_push(s: Seq<RegistryContribution>, id: u64, c: RegistryContribution)
    ensures
        total_for(s.push(c), id) == total_for(s, id) + if counts_toward(c, id) {
            c.amount as int
        } else {
            0
        },
{
    assert(s.push(c).drop_last() =~= s);
}

/// Replacing the record at `i` exchanges its old counted amount for its
/// new one and leaves every other item's total alone.
pub proof fn lemma_total_update(s: Seq<RegistryContribution>, id: u64, i: int, c: RegistryContribution)
    requires
        0 <= i < s.len(),
    ensures
        total_for(s.update(i, c), id) == total_for(s, id) - (if counts_toward(s[i], id) {
            s[i].amount as int
        } else {
            0
        }) + if counts_toward(c, id) {
            c.amount as int
        } else {
            0
        },
    decreases s.len(),
{
    if i == s.len() - 1 {
        assert(s.update(i, c).drop_last() =~= s.drop_last());
        assert(s.update(i, c).last() == c);
    } else {
        assert(s.update(i, c).drop_last() =~= s.drop_last().update(i, c));
        assert(s.update(i, c).last() == s.last());
        lemma_total_update(s.drop_last(), id, i, c);
    }
}

/// Removing the record at `i` subtracts its counted amount; in particular
/// removing a rejected contribution, or one of another item, changes
/// nothing.
pub proof fn lemma_total_remove(s: Seq<RegistryContribution>, id: u64, i: int)
    requires
        0 <= i < s.len(),
    ensures
        total_for(s.remove(i), id) == total_for(s, id) - if counts_toward(s[i], id) {
            s[i].amount as int
        } else {
            0
        },
    decreases s.len(),
{
    if i == s.len() - 1 {
        assert(s.remove(i) =~= s.drop_last());
    } else {
        assert(s.remove(i).drop_last() =~= s.drop_last().remove(i));
        assert(s.remove(i).last() == s.last());
        lemma_total_remove(s.drop_last(), id, i);
    }
}

/// An item no contribution references has a zero total.
pub proof fn lemma_total_zero(s: Seq<RegistryContribution>, id: u64)
    requires
        forall|k: int| 0 <= k < s.len() ==> s[k].item_id != Some(id),
    ensures
        total_for(s, id) == 0,
        confirmed_total_for(s, id) == 0,
    decreases s.len(),
{
    if s.len() > 0 {
        lemma_total_zero(s.drop_last(), id);
    }
}

/// Rejecting a contribution removes exactly its amount from its item's
/// total, and confirming it again restores the total to what it was.
pub proof fn lemma_reject_then_reconfirm(s: Seq<RegistryContribution>, i: int, id: u64)
    requires
        0 <= i < s.len(),
        s[i].item_id == Some(id),
        s[i].status != Status::Rejected,
    ensures
        total_for(s.update(i, (RegistryContribution { status: Status::Rejected, ..s[i] })), id)
            == total_for(s, id) - s[i].amount,
        total_for(
            s.update(i, (RegistryContribution { status: Status::Rejected, ..s[i] })).update(
                i,
                (RegistryContribution { status: Status::Confirmed, ..s[i] }),
            ),
            id,
        ) == total_for(s, id),
{
    let rejected = RegistryContribution { status: Status::Rejected, ..s[i] };
    let confirmed = RegistryContribution { status: Status::Confirmed, ..s[i] };
    lemma_total_update(s, id, i, rejected);
    lemma_total_update(s.update(i, rejected), id, i, confirmed);
}

} // verus!
