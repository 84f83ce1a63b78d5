//! The invite pairing heuristic: a two-phase greedy, first-match-wins
//! partition of the unassigned guests into advisory groups of size 1 or 2.
//!
//! Phase one pairs couple-type guests that share a case-insensitive
//! last-name token (the final whitespace-delimited token of the name);
//! phase two emits every remaining guest as its own group. The output is
//! advisory: it mutates nothing and is consumed by the admin surface for
//! one-click invite creation.

use vstd::prelude::*;

use crate::guests::Guest;
use crate::text::eq_ignore_ascii_case;
use crate::text::couple_keys_match;
use crate::text::has_two_tokens;
use crate::text::last_token;
use crate::text::str_eq;

verus! {

/// A suggested invite group, as indices into the input guest list.
#[derive(Clone, Copy, Debug)]
pub struct GroupSuggestion {
    pub first: usize,
    pub second: Option<usize>,
}

/// How many slots of `g` hold index `i` (0, 1 or 2).
pub open spec fn group_count(g: GroupSuggestion, i: int) -> int {
    (if g.first as int == i {
        1int
    } else {
        0int
    }) + (match g.second {
        Some(s) => if s as int == i {
            1int
        } else {
            0int
        },
        None => 0int,
    })
}

/// How many slots of all of `groups` hold index `i`.
pub open spec fn occurrences(groups: Seq<GroupSuggestion>, i: int) -> int
    decreases groups.len(),
{
    if groups.len() == 0 {
        0
    } else {
        occurrences(groups.drop_last(), i) + group_count(groups.last(), i)
    }
}

/// May `a` and `b` share an invite suggestion? Both must be couple-type
/// and share a case-insensitive last-name token.
pub open spec fn couple_match(a: Guest, b: Guest) -> bool {
    &&& a.invite_type@ == "couple"@
    &&& b.invite_type@ == "couple"@
    &&& has_two_tokens(a.name@)
    &&& has_two_tokens(b.name@)
    &&& eq_ignore_ascii_case(last_token(a.name@), last_token(b.name@))
}

/// A well-formed group over `guests`: indices in range, and a pair only
/// joins two guests the couple rule allows, scanning forward.
pub open spec fn group_ok(g: GroupSuggestion, guests: Seq<Guest>) -> bool {
    &&& (g.first as int) < guests.len()
    &&& match g.second {
        Some(s) => (s as int) < guests.len() && g.first < s && couple_match(
            guests[g.first as int],
            guests[s as int],
        ),
        None => true,
    }
}

/// The first-match-wins partner choice: the first position at or after
/// `j` holding an unused guest the couple rule lets guest `i` pair with.
pub open spec fn first_partner_from(guests: Seq<Guest>, used: Seq<bool>, i: int, j: int) -> Option<
    int,
>
    decreases guests.len() - j,
{
    if j < 0 || j >= guests.len() {
        None
    } else if !used[j] && couple_match(guests[i], guests[j]) {
        Some(j)
    } else {
        first_partner_from(guests, used, i, j + 1)
    }
}

/// The couple-pairing pass from position `i` on: guests are visited in
/// order; each unused one is paired with its first eligible later
/// partner, both marked used. Yields the emitted pairs and the final
/// used-flags.
pub open spec fn greedy_pairs_from(guests: Seq<Guest>, used: Seq<bool>, i: int) -> (
    Seq<GroupSuggestion>,
    Seq<bool>,
)
    decreases guests.len() - i,
{
    if i < 0 || i >= guests.len() {
        (Seq::empty(), used)
    } else if !used[i] {
        match first_partner_from(guests, used, i, i + 1) {
            Some(j) => {
                let marked = used.update(i, true).update(j, true);
                let rest = greedy_pairs_from(guests, marked, i + 1);
                (
                    seq![(GroupSuggestion { first: i as usize, second: Some(j as usize) })]
                        + rest.0,
                    rest.1,
                )
            },
            None => greedy_pairs_from(guests, used, i + 1),
        }
    } else {
        greedy_pairs_from(guests, used, i + 1)
    }
}

/// The singles pass: every guest the pairing pass left unused becomes
/// its own group, in input order.
pub open spec fn greedy_singles_from(used: Seq<bool>, i: int) -> Seq<GroupSuggestion>
    decreases used.len() - i,
{
    if i < 0 || i >= used.len() {
        Seq::empty()
    } else if !used[i] {
        seq![(GroupSuggestion { first: i as usize, second: None })] + greedy_singles_from(
            used,
            i + 1,
        )
    } else {
        greedy_singles_from(used, i + 1)
    }
}

/// The whole two-phase greedy suggestion list: the first-match-wins
/// couple pairs in increasing order of their first index, then the
/// remaining guests as singletons in input order.
pub open spec fn greedy_groups(guests: Seq<Guest>) -> Seq<GroupSuggestion> {
    let phase1 = greedy_pairs_from(guests, Seq::new(guests.len(), |x: int| false), 0);
    phase1.0 + greedy_singles_from(phase1.1, 0)
}

/// With no eligible partner at or after `from`, the choice is `None`.
proof fn lemma_first_partner_none(guests: Seq<Guest>, used: Seq<bool>, i: int, from: int)
    requires
        0 <= from,
        forall|b: int|
            from <= b < guests.len() && !used[b] ==> !couple_match(guests[i], guests[b]),
    ensures
        first_partner_from(guests, used, i, from) is None,
    decreases guests.len() - from,
{
    if from < guests.len() {
        lemma_first_partner_none(guests, used, i, from + 1);
    }
}

pub proof fn lemma_couple_match_sym(a: Guest, b: Guest)
    ensures
        couple_match(a, b) == couple_match(b, a),
{
}

proof fn lemma_occurrences_push(groups: Seq<GroupSuggestion>, g: GroupSuggestion, i: int)
    ensures
        occurrences(groups.push(g), i) == occurrences(groups, i) + group_count(g, i),
{
    assert(groups.push(g).drop_last() =~= groups);
}

proof fn lemma_occurrences_at_least_one(groups: Seq<GroupSuggestion>, k: int, x: int)
    requires
        0 <= k < groups.len(),
        group_count(groups[k], x) >= 1,
        forall|k2: int| 0 <= k2 < groups.len() ==> group_count(#[trigger] groups[k2], x) >= 0,
    ensures
        occurrences(groups, x) >= 1,
    decreases groups.len(),
{
    if k == groups.len() - 1 {
        lemma_occurrences_nonneg(groups.drop_last(), x);
    } else {
        lemma_occurrences_at_least_one(groups.drop_last(), k, x);
    }
}

proof fn lemma_occurrences_nonneg(groups: Seq<GroupSuggestion>, x: int)
    ensures
        occurrences(groups, x) >= 0,
    decreases groups.len(),
{
    if groups.len() > 0 {
        lemma_occurrences_nonneg(groups.drop_last(), x);
    }
}

/// Two distinct groups both holding `x` put `x`'s occurrence count at 2
/// or more.
proof fn lemma_occurrences_at_least_two(groups: Seq<GroupSuggestion>, k1: int, k2: int, x: int)
    requires
        0 <= k1 < k2 < groups.len(),
        group_count(groups[k1], x) >= 1,
        group_count(groups[k2], x) >= 1,
    ensures
        occurrences(groups, x) >= 2,
    decreases groups.len(),
{
    assert forall|k: int| 0 <= k < groups.len() implies group_count(#[trigger] groups[k], x)
        >= 0 by {}
    if k2 == groups.len() - 1 {
        lemma_occurrences_at_least_one(groups.drop_last(), k1, x);
    } else {
        lemma_occurrences_at_least_two(groups.drop_last(), k1, k2, x);
    }
}

/// The first unused couple-type guest after `i` whose last-name token
/// matches guest `i`'s, if any — the first-match-wins choice itself.
fn find_partner(guests: &Vec<Guest>, used: &Vec<bool>, i: usize) -> (r: Option<usize>)
    requires
        used@.len() == guests@.len(),
        i < guests@.len(),
    ensures
        match r {
            Some(j) => {
                &&& i < j < guests@.len()
                &&& !used@[j as int]
                &&& couple_match(guests@[i as int], guests@[j as int])
                &&& first_partner_from(guests@, used@, i as int, i as int + 1) == Some(j as int)
            },
            None => {
                &&& (forall|b: int|
                    i < b < guests@.len() && !used@[b] ==> !couple_match(
                        guests@[i as int],
                        guests@[b],
                    ))
                &&& first_partner_from(guests@, used@, i as int, i as int + 1) is None
            },
        },
{
    let gi = &guests[i];
    if !str_eq(gi.invite_type.as_str(), "couple") {
        proof {
            lemma_first_partner_none(guests@, used@, i as int, i as int + 1);
        }
        return None;
    }
    let n = guests.len();
    let mut j: usize = i + 1;
    while j < n
        invariant
            i < j <= n,
            n == guests@.len(),
            used@.len() == n,
            guests@[i as int].invite_type@ == "couple"@,
            forall|b: int|
                i < b < j && !used@[b] ==> !couple_match(guests@[i as int], guests@[b]),
            first_partner_from(guests@, used@, i as int, i as int + 1) == first_partner_from(
                guests@,
                used@,
                i as int,
                j as int,
            ),
        decreases n - j,
    {
        if !used[j] {
            let gj = &guests[j];
            if str_eq(gj.invite_type.as_str(), "couple") {
                if couple_keys_match(guests[i].name.as_str(), gj.name.as_str()) {
                    return Some(j);
                }
            }
        }
        j = j + 1;
    }
    None
}

/// Partitions the guest list into advisory invite groups of size 1 or 2:
/// exactly the two-phase greedy, first-match-wins suggestion list
/// [`greedy_groups`].
///
/// In consequence: every input index appears in exactly one returned
/// group; a pair joins only two couple-type guests sharing a
/// case-insensitive last-name token (earlier index first); and no two
/// guests left in single groups could have been paired — the greedy pass
/// is maximal. These corollaries are stated and proved as well.
pub fn pair_guests(guests: &Vec<Guest>) -> (groups: Vec<GroupSuggestion>)
    ensures
        groups@ == greedy_groups(guests@),
        forall|k: int| 0 <= k < groups@.len() ==> group_ok(#[trigger] groups@[k], guests@),
        forall|i: int| 0 <= i < guests@.len() ==> occurrences(groups@, i) == 1,
        forall|k1: int, k2: int|
            0 <= k1 < groups@.len() && 0 <= k2 < groups@.len() && k1 != k2 && (
            #[trigger] groups@[k1]).second is None && (#[trigger] groups@[k2]).second is None
                ==> !couple_match(
                guests@[groups@[k1].first as int],
                guests@[groups@[k2].first as int],
            ),
{
    let n = guests.len();
    let ghost used0 = Seq::new(guests@.len(), |x: int| false);
    let mut used: Vec<bool> = Vec::new();
    let mut t: usize = 0;
    while t < n
        invariant
            t <= n,
            used@.len() == t,
            forall|x: int| 0 <= x < t ==> used@[x] == false,
        decreases n - t,
    {
        used.push(false);
        t = t + 1;
    }
    let mut groups: Vec<GroupSuggestion> = Vec::new();
    proof {
        assert(used@ =~= used0);
        assert(groups@ + greedy_pairs_from(guests@, used0, 0).0 =~= greedy_pairs_from(
            guests@,
            used0,
            0,
        ).0);
    }
    let mut i: usize = 0;
    while i < n
        invariant
            i <= n,
            n == guests@.len(),
            used@.len() == n,
            used0 == Seq::new(guests@.len(), |x: int| false),
            greedy_pairs_from(guests@, used0, 0).0 == groups@ + greedy_pairs_from(
                guests@,
                used@,
                i as int,
            ).0,
            greedy_pairs_from(guests@, used0, 0).1 == greedy_pairs_from(
                guests@,
                used@,
                i as int,
            ).1,
            forall|x: int|
                0 <= x < n ==> occurrences(groups@, x) == (if used@[x] {
                    1int
                } else {
                    0int
                }),
            forall|k: int| 0 <= k < groups@.len() ==> group_ok(#[trigger] groups@[k], guests@),
            forall|k: int| 0 <= k < groups@.len() ==> (#[trigger] groups@[k]).second is Some,
            forall|a: int, b: int|
                0 <= a < i && a < b < n && !used@[a] && !used@[b] ==> !couple_match(
                    guests@[a],
                    guests@[b],
                ),
        decreases n - i,
    {
        if !used[i] {
            match find_partner(guests, &used, i) {
                Some(j) => {
                    let g = GroupSuggestion { first: i, second: Some(j) };
                    proof {
                        assert forall|x: int|
                            0 <= x < n implies occurrences(groups@.push(g), x) == occurrences(
                            groups@,
                            x,
                        ) + group_count(g, x) by {
                            lemma_occurrences_push(groups@, g, x);
                        }
                        let marked = used@.update(i as int, true).update(j as int, true);
                        let rest = greedy_pairs_from(guests@, marked, i as int + 1);
                        assert(greedy_pairs_from(guests@, used@, i as int).0 =~= seq![g] + rest.0);
                        assert(groups@ + (seq![g] + rest.0) =~= groups@.push(g) + rest.0);
                    }
                    groups.push(g);
                    used[i] = true;
                    used[j] = true;
                },
                None => {},
            }
        }
        i = i + 1;
    }
    let ghost used1 = used@;
    let ghost phase1 = greedy_pairs_from(guests@, used0, 0);
    proof {
        assert(greedy_pairs_from(guests@, used@, n as int).0 =~= Seq::<GroupSuggestion>::empty());
        assert(groups@ + Seq::<GroupSuggestion>::empty() =~= groups@);
        assert(phase1.0 == groups@);
        assert(phase1.1 == used1);
        assert(greedy_groups(guests@) =~= groups@ + greedy_singles_from(used1, 0));
    }
    let mut i2: usize = 0;
    while i2 < n
        invariant
            i2 <= n,
            n == guests@.len(),
            used@.len() == n,
            used1.len() == n,
            greedy_groups(guests@) == groups@ + greedy_singles_from(used1, i2 as int),
            forall|x: int|
                0 <= x < n ==> occurrences(groups@, x) == (if used@[x] {
                    1int
                } else {
                    0int
                }),
            forall|x: int| 0 <= x < n && used1[x] ==> used@[x],
            forall|x: int| i2 <= x < n ==> used@[x] == used1[x],
            forall|x: int| 0 <= x < i2 ==> used@[x],
            forall|k: int| 0 <= k < groups@.len() ==> group_ok(#[trigger] groups@[k], guests@),
            forall|k: int|
                0 <= k < groups@.len() && (#[trigger] groups@[k]).second is None
                    ==> !used1[groups@[k].first as int],
            forall|a: int, b: int|
                0 <= a < b < n && !used1[a] && !used1[b] ==> !couple_match(guests@[a], guests@[b]),
        decreases n - i2,
    {
        if !used[i2] {
            let g = GroupSuggestion { first: i2, second: None };
            proof {
                assert forall|x: int|
                    0 <= x < n implies occurrences(groups@.push(g), x) == occurrences(groups@, x)
                    + group_count(g, x) by {
                    lemma_occurrences_push(groups@, g, x);
                }
                assert(greedy_singles_from(used1, i2 as int) =~= seq![g] + greedy_singles_from(
                    used1,
                    i2 as int + 1,
                ));
                assert(groups@ + (seq![g] + greedy_singles_from(used1, i2 as int + 1))
                    =~= groups@.push(g) + greedy_singles_from(used1, i2 as int + 1));
            }
            groups.push(g);
            used[i2] = true;
        }
        i2 = i2 + 1;
    }
    proof {
        assert(greedy_singles_from(used1, n as int) =~= Seq::<GroupSuggestion>::empty());
        assert(groups@ + Seq::<GroupSuggestion>::empty() =~= groups@);
    }
    proof {
        assert forall|k1: int, k2: int|
            0 <= k1 < groups@.len() && 0 <= k2 < groups@.len() && k1 != k2 && (
            #[trigger] groups@[k1]).second is None && (#[trigger] groups@[k2]).second is None
            implies !couple_match(
            guests@[groups@[k1].first as int],
            guests@[groups@[k2].first as int],
        ) by {
            let f1 = groups@[k1].first as int;
            let f2 = groups@[k2].first as int;
            if f1 == f2 {
                if k1 < k2 {
                    lemma_occurrences_at_least_two(groups@, k1, k2, f1);
                } else {
                    lemma_occurrences_at_least_two(groups@, k2, k1, f1);
                }
                assert(occurrences(groups@, f1) == 1);
                assert(false);
            } else if f1 < f2 {
                assert(!couple_match(guests@[f1], guests@[f2]));
            } else {
                assert(!couple_match(guests@[f2], guests@[f1]));
                lemma_couple_match_sym(guests@[f1], guests@[f2]);
            }
        }
    }
    groups
}

/// Expands index groups into groups of guest records, for display and
/// one-click invite creation.
pub fn expand_groups(guests: &Vec<Guest>, groups: &Vec<GroupSuggestion>) -> (r: Vec<Vec<Guest>>)
    requires
        forall|k: int| 0 <= k < groups@.len() ==> group_ok(#[trigger] groups@[k], guests@),
    ensures
        r@.len() == groups@.len(),
        forall|k: int|
            0 <= k < groups@.len() ==> (#[trigger] r@[k])@ == match groups@[k].second {
                Some(s) => seq![guests@[groups@[k].first as int], guests@[s as int]],
                None => seq![guests@[groups@[k].first as int]],
            },
{
    let mut r: Vec<Vec<Guest>> = Vec::new();
    let mut k: usize = 0;
    while k < groups.len()
        invariant
            k <= groups@.len(),
            forall|k2: int| 0 <= k2 < groups@.len() ==> group_ok(#[trigger] groups@[k2], guests@),
            r@.len() == k,
            forall|k2: int|
                0 <= k2 < k ==> (#[trigger] r@[k2])@ == match groups@[k2].second {
                    Some(s) => seq![guests@[groups@[k2].first as int], guests@[s as int]],
                    None => seq![guests@[groups@[k2].first as int]],
                },
        decreases groups@.len() - k,
    {
        let g = groups[k];
        let mut members: Vec<Guest> = Vec::new();
        members.push(guests[g.first].clone());
        match g.second {
            Some(s) => {
                members.push(guests[s].clone());
                proof {
                    assert(members@ =~= seq![
                        guests@[g.first as int],
                        guests@[s as int],
                    ]);
                }
            },
            None => {
                proof {
                    assert(members@ =~= seq![guests@[g.first as int]]);
                }
            },
        }
        r.push(members);
        k = k + 1;
    }
    r
}

} // verus!
