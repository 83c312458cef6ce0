//! How fast the validator set can change.
use vstd::prelude::*;

use crate::bytes::ValidatorId;
use crate::epoch::{
    admitted, all_admitted, all_dismissed, beyond, change_limit, member_change, member_index,
    refreshed, restaked, stakes, synced, StakingValidator, Transition,
};
use crate::validator::{
    active_stake, count_active, distinct_ids, fresh_validator, is_member, ValidatorInfo,
};

verus! {

/// What a validator brings to a set: its stake, and the part of it that counts.
pub struct Place {
    pub stake: int,
    pub weight: int,
}

/// The place that `v` takes.
pub open spec fn place(v: ValidatorInfo) -> Place {
    Place {
        stake: v.stake as int,
        weight: if v.active() {
            v.stake as int
        } else {
            0
        },
    }
}

/// The place of `id` in `s`; an empty one where it is not listed.
pub open spec fn place_of(s: Seq<ValidatorInfo>, id: ValidatorId) -> Place {
    if is_member(s, id) {
        place(s[member_index(s, id)])
    } else {
        Place { stake: 0, weight: 0 }
    }
}

/// The distance between two numbers.
pub open spec fn apart(a: int, b: int) -> int {
    if a >= b {
        a - b
    } else {
        b - a
    }
}

/// How far a validator moves: by its stake, or by the part of it that counts.
pub open spec fn shift(a: Place, b: Place) -> int {
    if apart(a.stake, b.stake) >= apart(a.weight, b.weight) {
        apart(a.stake, b.stake)
    } else {
        apart(a.weight, b.weight)
    }
}

/// How far the validators of `before` moved: those that left by all their stake,
/// those that came back by the stake that counts again, the others by what their
/// stake grew or shrank.
pub open spec fn moved_stake(before: Seq<ValidatorInfo>, after: Seq<ValidatorInfo>) -> int
    decreases before.len(),
{
    if before.len() == 0 {
        0
    } else {
        moved_stake(before.drop_last(), after) + shift(
            place(before.last()),
            place_of(after, before.last().id),
        )
    }
}

/// What `v` adds to the stake of those that were not in `before`.
pub open spec fn newcomer(v: ValidatorInfo, before: Seq<ValidatorInfo>) -> int {
    if is_member(before, v.id) {
        0
    } else {
        v.stake as int
    }
}

/// The stake of the validators of `after` that were not in `before`.
pub open spec fn joined_stake(after: Seq<ValidatorInfo>, before: Seq<ValidatorInfo>) -> int
    decreases after.len(),
{
    if after.len() == 0 {
        0
    } else {
        joined_stake(after.drop_last(), before) + newcomer(after.last(), before)
    }
}

/// How much the set changed: by validators that joined, that left, that became
/// active again, and by stake that grew or shrank.
pub open spec fn set_change(before: Seq<ValidatorInfo>, after: Seq<ValidatorInfo>) -> int {
    moved_stake(before, after) + joined_stake(after, before)
}

/// At an epoch boundary the set changes by at most a third of the active stake, once
/// there are four active validators and any stake to speak of.
pub proof fn validator_set_changes_slowly(
    before: Seq<ValidatorInfo>,
    staking: Seq<StakingValidator>,
)
    requires
        distinct_ids(before),
        count_active(before) >= 4,
        3 <= active_stake(before) <= u128::MAX,
    ensures
        3 * set_change(before, synced(before, staking).validators) <= active_stake(before),
{
    let limit = change_limit(before);
    let grown = all_admitted(Transition { validators: before, changed: 0 }, limit, staking);
    admission_bounded(before, limit, staking);
    let list = grown.validators;
    assert(list.take(list.len() as int) =~= list);
    dismissal_bounded(before, limit, staking, grown, list.len() as int);
}

/// `t` comes from `before` by changes within the limit.
spec fn bounded(before: Seq<ValidatorInfo>, limit: u128, t: Transition) -> bool {
    &&& distinct_ids(t.validators)
    &&& set_change(before, t.validators) <= t.changed <= limit
}

proof fn placed_at(s: Seq<ValidatorInfo>, i: int)
    requires
        distinct_ids(s),
        0 <= i < s.len(),
    ensures
        is_member(s, s[i].id),
        member_index(s, s[i].id) == i,
        place_of(s, s[i].id) == place(s[i]),
{
    let at = member_index(s, s[i].id);
    assert(s[i].id == s[i].id);
    if at < i {
        assert(s[at].id != s[i].id);
    } else if i < at {
        assert(s[i].id != s[at].id);
    }
}

proof fn moved_step(
    before: Seq<ValidatorInfo>,
    s: Seq<ValidatorInfo>,
    r: Seq<ValidatorInfo>,
    id: ValidatorId,
)
    requires
        distinct_ids(before),
        forall|x: ValidatorId| x != id ==> #[trigger] place_of(s, x) == place_of(r, x),
    ensures
        moved_stake(before, r) <= moved_stake(before, s) + if is_member(before, id) {
            shift(place_of(s, id), place_of(r, id))
        } else {
            0
        },
    decreases before.len(),
{
    if before.len() > 0 {
        let shorter = before.drop_last();
        let last = before.last();
        assert(distinct_ids(shorter)) by {
            assert forall|a: int, b: int| 0 <= a < b < shorter.len() implies (
            #[trigger] shorter[a]).id != (#[trigger] shorter[b]).id by {
                assert(before[a].id != before[b].id);
            }
        }
        moved_step(shorter, s, r, id);
        if is_member(shorter, id) {
            let i = choose|i: int| 0 <= i < shorter.len() && (#[trigger] shorter[i]).id == id;
            assert(before[i].id == id);
            assert(before[i].id != before[before.len() - 1].id);
        }
        if last.id == id {
            assert(before[before.len() - 1].id == id);
        } else {
            assert(place_of(s, last.id) == place_of(r, last.id));
        }
    }
}

/// Where `id` stands in `s` as it did before, the step from `s` to `r` adds just how far
/// it moves.
proof fn moved_exactly(
    before: Seq<ValidatorInfo>,
    s: Seq<ValidatorInfo>,
    r: Seq<ValidatorInfo>,
    id: ValidatorId,
)
    requires
        distinct_ids(before),
        forall|x: ValidatorId| x != id ==> #[trigger] place_of(s, x) == place_of(r, x),
        unmoved(before, s, id),
    ensures
        moved_stake(before, r) == moved_stake(before, s) + if is_member(before, id) {
            shift(place_of(s, id), place_of(r, id))
        } else {
            0
        },
    decreases before.len(),
{
    if before.len() > 0 {
        let shorter = before.drop_last();
        let last = before.last();
        assert(distinct_ids(shorter)) by {
            assert forall|a: int, b: int| 0 <= a < b < shorter.len() implies (
            #[trigger] shorter[a]).id != (#[trigger] shorter[b]).id by {
                assert(before[a].id != before[b].id);
            }
        }
        assert forall|i: int| 0 <= i < shorter.len() && (#[trigger] shorter[i]).id == id implies place(
            shorter[i],
        ) == place_of(s, id) by {
            assert(before[i] == shorter[i]);
        }
        moved_exactly(shorter, s, r, id);
        if is_member(shorter, id) {
            let i = choose|i: int| 0 <= i < shorter.len() && (#[trigger] shorter[i]).id == id;
            assert(before[i].id == id);
            assert(before[i].id != before[before.len() - 1].id);
        }
        if last.id == id {
            assert(before[before.len() - 1].id == id);
        } else {
            assert(place_of(s, last.id) == place_of(r, last.id));
            if is_member(before, id) {
                let i = choose|i: int| 0 <= i < before.len() && (#[trigger] before[i]).id == id;
                assert(shorter[i].id == id);
            }
        }
    }
}

/// `id` stands in `s` as it did in `before`, if it was there.
spec fn unmoved(before: Seq<ValidatorInfo>, s: Seq<ValidatorInfo>, id: ValidatorId) -> bool {
    forall|i: int|
        0 <= i < before.len() && (#[trigger] before[i]).id == id ==> place(before[i]) == place_of(
            s,
            id,
        )
}

proof fn joined_update(
    s: Seq<ValidatorInfo>,
    at: int,
    v: ValidatorInfo,
    before: Seq<ValidatorInfo>,
)
    requires
        0 <= at < s.len(),
    ensures
        joined_stake(s.update(at, v), before) == joined_stake(s, before) - newcomer(s[at], before)
            + newcomer(v, before),
    decreases s.len(),
{
    if at == s.len() - 1 {
        assert(s.update(at, v).drop_last() =~= s.drop_last());
    } else {
        joined_update(s.drop_last(), at, v, before);
        assert(s.update(at, v).drop_last() =~= s.drop_last().update(at, v));
    }
}

proof fn joined_without(s: Seq<ValidatorInfo>, at: int, before: Seq<ValidatorInfo>)
    requires
        0 <= at < s.len(),
    ensures
        joined_stake(s.remove(at), before) == joined_stake(s, before) - newcomer(s[at], before),
    decreases s.len(),
{
    if at == s.len() - 1 {
        assert(s.remove(at) =~= s.drop_last());
    } else {
        joined_without(s.drop_last(), at, before);
        assert(s.remove(at).drop_last() =~= s.drop_last().remove(at));
    }
}

proof fn nothing_changed(before: Seq<ValidatorInfo>, n: int)
    requires
        distinct_ids(before),
        0 <= n <= before.len(),
    ensures
        moved_stake(before.take(n), before) == 0,
        joined_stake(before.take(n), before) == 0,
    decreases n,
{
    if n > 0 {
        nothing_changed(before, n - 1);
        let list = before.take(n);
        assert(list.drop_last() =~= before.take(n - 1));
        assert(list.last() == before[n - 1]);
        placed_at(before, n - 1);
    }
}

proof fn refreshed_bounded(
    before: Seq<ValidatorInfo>,
    s: Seq<ValidatorInfo>,
    id: ValidatorId,
    stake: u128,
)
    requires
        distinct_ids(before),
        distinct_ids(s),
        is_member(s, id),
    ensures
        distinct_ids(refreshed(s, id, stake)),
        set_change(before, refreshed(s, id, stake)) <= set_change(before, s) + member_change(
            s[member_index(s, id)],
            stake,
        ),
        is_member(before, id) && unmoved(before, s, id) ==> set_change(
            before,
            refreshed(s, id, stake),
        ) == set_change(before, s) + member_change(s[member_index(s, id)], stake),
{
    let r = refreshed(s, id, stake);
    let at = member_index(s, id);
    assert(0 <= at < s.len() && s[at].id == id);
    assert forall|i: int, j: int| 0 <= i < j < r.len() implies (#[trigger] r[i]).id != (
    #[trigger] r[j]).id by {
        assert(s[i].id != s[j].id);
    }
    assert forall|i: int| 0 <= i < s.len() && i != at implies (#[trigger] s[i]).id != id by {
        placed_at(s, i);
    }
    assert(r =~= s.update(at, r[at]));
    assert forall|x: ValidatorId| x != id implies #[trigger] place_of(s, x) == place_of(r, x) by {
        if is_member(s, x) {
            let i = choose|i: int| 0 <= i < s.len() && (#[trigger] s[i]).id == x;
            assert(r[i] == s[i]);
            placed_at(s, i);
            placed_at(r, i);
        } else if is_member(r, x) {
            let i = choose|i: int| 0 <= i < r.len() && (#[trigger] r[i]).id == x;
            assert(s[i].id == x);
        }
    }
    placed_at(s, at);
    placed_at(r, at);
    moved_step(before, s, r, id);
    if unmoved(before, s, id) {
        moved_exactly(before, s, r, id);
    }
    joined_update(s, at, r[at], before);
}

proof fn pushed_bounded(
    before: Seq<ValidatorInfo>,
    s: Seq<ValidatorInfo>,
    id: ValidatorId,
    stake: u128,
)
    requires
        distinct_ids(before),
        distinct_ids(s),
        !is_member(s, id),
    ensures
        distinct_ids(s.push(fresh_validator(id, stake))),
        set_change(before, s.push(fresh_validator(id, stake))) <= set_change(before, s) + stake,
        !is_member(before, id) ==> set_change(before, s.push(fresh_validator(id, stake)))
            == set_change(before, s) + stake,
{
    let v = fresh_validator(id, stake);
    let r = s.push(v);
    assert(r[s.len() as int] == v);
    assert forall|i: int, j: int| 0 <= i < j < r.len() implies (#[trigger] r[i]).id != (
    #[trigger] r[j]).id by {
        if j < s.len() {
            assert(s[i].id != s[j].id);
        } else {
            assert(s[i].id != id);
        }
    }
    assert forall|x: ValidatorId| x != id implies #[trigger] place_of(s, x) == place_of(r, x) by {
        if is_member(s, x) {
            let i = choose|i: int| 0 <= i < s.len() && (#[trigger] s[i]).id == x;
            assert(r[i] == s[i]);
            placed_at(s, i);
            placed_at(r, i);
        } else if is_member(r, x) {
            let i = choose|i: int| 0 <= i < r.len() && (#[trigger] r[i]).id == x;
            assert(s[i].id == x);
        }
    }
    placed_at(r, s.len() as int);
    moved_step(before, s, r, id);
    if !is_member(before, id) {
        moved_exactly(before, s, r, id);
    }
    assert(r.drop_last() =~= s);
}

proof fn removed_bounded(before: Seq<ValidatorInfo>, s: Seq<ValidatorInfo>, at: int)
    requires
        distinct_ids(before),
        distinct_ids(s),
        0 <= at < s.len(),
    ensures
        distinct_ids(s.remove(at)),
        set_change(before, s.remove(at)) <= set_change(before, s) + s[at].stake,
        is_member(before, s[at].id) && unmoved(before, s, s[at].id) ==> set_change(
            before,
            s.remove(at),
        ) == set_change(before, s) + s[at].stake,
        !is_member(s.remove(at), s[at].id),
{
    let r = s.remove(at);
    let id = s[at].id;
    assert forall|i: int, j: int| 0 <= i < j < r.len() implies (#[trigger] r[i]).id != (
    #[trigger] r[j]).id by {
        let i0 = if i < at {
            i
        } else {
            i + 1
        };
        let j0 = if j < at {
            j
        } else {
            j + 1
        };
        assert(s[i0].id != s[j0].id);
    }
    assert forall|i: int| 0 <= i < s.len() && i != at implies (#[trigger] s[i]).id != id by {
        if i < at {
            assert(s[i].id != s[at].id);
        } else {
            assert(s[at].id != s[i].id);
        }
    }
    assert forall|x: ValidatorId| x != id implies #[trigger] place_of(s, x) == place_of(r, x) by {
        if is_member(s, x) {
            let i = choose|i: int| 0 <= i < s.len() && (#[trigger] s[i]).id == x;
            let k = if i < at {
                i
            } else {
                i - 1
            };
            assert(r[k] == s[i]);
            placed_at(s, i);
            placed_at(r, k);
        } else if is_member(r, x) {
            let i = choose|i: int| 0 <= i < r.len() && (#[trigger] r[i]).id == x;
            let k = if i < at {
                i
            } else {
                i + 1
            };
            assert(s[k].id == x);
        }
    }
    assert(!is_member(r, id)) by {
        if is_member(r, id) {
            let i = choose|i: int| 0 <= i < r.len() && (#[trigger] r[i]).id == id;
            let k = if i < at {
                i
            } else {
                i + 1
            };
            assert(s[k].id == id);
        }
    }
    placed_at(s, at);
    moved_step(before, s, r, id);
    if unmoved(before, s, id) {
        moved_exactly(before, s, r, id);
    }
    joined_without(s, at, before);
}

proof fn admission_bounded(
    before: Seq<ValidatorInfo>,
    limit: u128,
    staking: Seq<StakingValidator>,
)
    requires
        distinct_ids(before),
        0 < limit < u128::MAX,
    ensures
        bounded(
            before,
            limit,
            all_admitted(Transition { validators: before, changed: 0 }, limit, staking),
        ),
    decreases staking.len(),
{
    let start = Transition { validators: before, changed: 0 };
    if staking.len() == 0 {
        nothing_changed(before, before.len() as int);
        assert(before.take(before.len() as int) =~= before);
    } else {
        let shorter = staking.drop_last();
        let sv = staking.last();
        admission_bounded(before, limit, shorter);
        let t = all_admitted(start, limit, shorter);
        if sv.is_active && is_member(t.validators, sv.id) {
            refreshed_bounded(before, t.validators, sv.id, sv.total_stake);
        } else if sv.is_active {
            pushed_bounded(before, t.validators, sv.id, sv.total_stake);
        }
        assert(bounded(before, limit, admitted(t, limit, sv)));
    }
}

proof fn dismissal_bounded(
    before: Seq<ValidatorInfo>,
    limit: u128,
    staking: Seq<StakingValidator>,
    grown: Transition,
    n: int,
)
    requires
        distinct_ids(before),
        0 < limit < u128::MAX,
        bounded(before, limit, grown),
        0 <= n <= grown.validators.len(),
    ensures
        ({
            let list = grown.validators;
            let t = all_dismissed(grown, limit, staking, list.take(n));
            &&& bounded(before, limit, t)
            &&& forall|i: int| n <= i < list.len() ==> t.validators.contains(#[trigger] list[i])
        }),
    decreases n,
{
    let list = grown.validators;
    if n == 0 {
        assert(list.take(0).len() == 0);
    } else {
        dismissal_bounded(before, limit, staking, grown, n - 1);
        let prefix = list.take(n);
        assert(prefix.drop_last() =~= list.take(n - 1));
        let v = list[n - 1];
        assert(prefix.last() == v);
        let t = all_dismissed(grown, limit, staking, list.take(n - 1));
        let s = t.validators;
        assert(s.contains(v));
        if !stakes(staking, v.id) && !beyond(t.changed, v.stake, limit) {
            let k = choose|k: int| 0 <= k < s.len() && s[k] == v;
            placed_at(s, k);
            removed_bounded(before, s, k);
            let fewer = s.remove(k);
            assert forall|i: int| n <= i < list.len() implies fewer.contains(#[trigger] list[i]) by {
                let j = choose|j: int| 0 <= j < s.len() && s[j] == list[i];
                assert(list[n - 1].id != list[i].id);
                let j1 = if j < k {
                    j
                } else {
                    j - 1
                };
                assert(fewer[j1] == list[i]);
            }
        }
    }
}

/// The stake of `id` in the staking contract, by the last active entry for it; nothing
/// where it has none.
pub open spec fn staked_by(staking: Seq<StakingValidator>, id: ValidatorId) -> Option<u128>
    decreases staking.len(),
{
    if staking.len() == 0 {
        None
    } else if staking.last().is_active && staking.last().id == id {
        Some(staking.last().total_stake)
    } else {
        staked_by(staking.drop_last(), id)
    }
}

/// Where `id` stands once `staking` has been followed: with the stake that it has there,
/// all of which counts, and otherwise as in `before`.
pub open spec fn standing(
    before: Seq<ValidatorInfo>,
    staking: Seq<StakingValidator>,
    id: ValidatorId,
) -> Place {
    match staked_by(staking, id) {
        Some(stake) => Place { stake: stake as int, weight: stake as int },
        None => place_of(before, id),
    }
}

/// How much the active entries of the staking contract ask to change: by those that
/// join, that become active again, and whose stake grew or shrank.
pub open spec fn asked_in(before: Seq<ValidatorInfo>, staking: Seq<StakingValidator>) -> int
    decreases staking.len(),
{
    if staking.len() == 0 {
        0
    } else {
        let rest = staking.drop_last();
        let sv = staking.last();
        let stake = sv.total_stake as int;
        asked_in(before, rest) + if sv.is_active {
            shift(standing(before, rest, sv.id), Place { stake, weight: stake })
        } else {
            0
        }
    }
}

/// The stake of the validators of `list` that no longer stake.
pub open spec fn leaving(list: Seq<ValidatorInfo>, staking: Seq<StakingValidator>) -> int
    decreases list.len(),
{
    if list.len() == 0 {
        0
    } else {
        leaving(list.drop_last(), staking) + if stakes(staking, list.last().id) {
            0
        } else {
            list.last().stake as int
        }
    }
}

/// How much the staking contract asks the set to change, all told.
pub open spec fn asked_change(before: Seq<ValidatorInfo>, staking: Seq<StakingValidator>) -> int {
    asked_in(before, staking) + leaving(before, staking)
}

/// Where all that the staking contract asks for, the validators that join, that leave,
/// that become active again and the stake that grew or shrank, is within a third of the
/// active stake, nothing of it is put off: after the epoch boundary the members of the
/// set are exactly the active validators of the contract, all of them active, each with
/// its stake there.
pub proof fn set_follows_staking_within_limit(
    before: Seq<ValidatorInfo>,
    staking: Seq<StakingValidator>,
)
    requires
        distinct_ids(before),
        3 * asked_change(before, staking) <= active_stake(before) <= u128::MAX,
    ensures
        ({
            let after = synced(before, staking).validators;
            &&& distinct_ids(after)
            &&& forall|id: ValidatorId| #[trigger] is_member(after, id) <==> stakes(staking, id)
            &&& forall|i: int|
                0 <= i < after.len() ==> (#[trigger] after[i]).active() && staked_by(
                    staking,
                    after[i].id,
                ) == Some(after[i].stake)
        }),
{
    set_settles(before, staking);
}

/// While there are fewer than four active validators, or no stake to speak of, the set
/// follows the staking contract without a limit: after the epoch boundary its members
/// are exactly the active validators of the contract, all of them active, each with its
/// stake there.
pub proof fn bootstrapping_set_follows_staking(
    before: Seq<ValidatorInfo>,
    staking: Seq<StakingValidator>,
)
    requires
        distinct_ids(before),
        count_active(before) < 4 || active_stake(before) < 3,
    ensures
        ({
            let after = synced(before, staking).validators;
            &&& distinct_ids(after)
            &&& forall|id: ValidatorId| #[trigger] is_member(after, id) <==> stakes(staking, id)
            &&& forall|i: int|
                0 <= i < after.len() ==> (#[trigger] after[i]).active() && staked_by(
                    staking,
                    after[i].id,
                ) == Some(after[i].stake)
        }),
{
    set_settles(before, staking);
}

proof fn set_settles(before: Seq<ValidatorInfo>, staking: Seq<StakingValidator>)
    requires
        distinct_ids(before),
        change_limit(before) == u128::MAX || change_limit(before) == 0 || asked_change(before, staking)
            <= change_limit(before),
    ensures
        ({
            let after = synced(before, staking).validators;
            &&& distinct_ids(after)
            &&& forall|id: ValidatorId| #[trigger] is_member(after, id) <==> stakes(staking, id)
            &&& forall|i: int|
                0 <= i < after.len() ==> (#[trigger] after[i]).active() && staked_by(
                    staking,
                    after[i].id,
                ) == Some(after[i].stake)
        }),
{
    leaving_grows(before, staking, 0);
    let limit = change_limit(before);
    let grown = all_admitted(Transition { validators: before, changed: 0 }, limit, staking);
    admission_settles(before, limit, staking);
    let list = grown.validators;
    assert(list.take(list.len() as int) =~= list);
    leaving_is_asked(before, limit, staking);
    dismissal_settles(limit, staking, grown, list.len() as int);
    let after = synced(before, staking).validators;
    assert forall|i: int| 0 <= i < after.len() implies (#[trigger] after[i]).active() && staked_by(
        staking,
        after[i].id,
    ) == Some(after[i].stake) by {
        let v = after[i];
        assert(list.contains(v) && stakes(staking, v.id));
        staked_where_active(staking, v.id);
        let k = choose|k: int| 0 <= k < list.len() && list[k] == v;
        placed_at(list, k);
        assert(settled_at(list, v.id, staked_by(staking, v.id)->0));
        let j = choose|j: int|
            0 <= j < list.len() && (#[trigger] list[j]).id == v.id && list[j].active()
                && list[j].stake == staked_by(staking, v.id)->0;
        placed_at(list, j);
    }
    assert forall|id: ValidatorId| #[trigger] is_member(after, id) <==> stakes(staking, id) by {
        if is_member(after, id) {
            let i = choose|i: int| 0 <= i < after.len() && (#[trigger] after[i]).id == id;
            staked_where_active(staking, id);
            assert(staked_by(staking, after[i].id) is Some);
        }
        if stakes(staking, id) {
            staked_where_active(staking, id);
            assert(settled_at(list, id, staked_by(staking, id)->0));
            let j = choose|j: int|
                0 <= j < list.len() && (#[trigger] list[j]).id == id && list[j].active()
                    && list[j].stake == staked_by(staking, id)->0;
            assert(after.contains(list[j]));
            let i = choose|i: int| 0 <= i < after.len() && after[i] == list[j];
            assert(after[i].id == id);
        }
    }
}

/// `id` is active in `s`, with the given stake.
spec fn settled_at(s: Seq<ValidatorInfo>, id: ValidatorId, stake: u128) -> bool {
    exists|i: int|
        0 <= i < s.len() && (#[trigger] s[i]).id == id && s[i].active() && s[i].stake == stake
}

proof fn staked_where_active(staking: Seq<StakingValidator>, id: ValidatorId)
    ensures
        stakes(staking, id) <==> staked_by(staking, id) is Some,
    decreases staking.len(),
{
    if staking.len() > 0 {
        let shorter = staking.drop_last();
        let last = staking.last();
        staked_where_active(shorter, id);
        if last.is_active && last.id == id {
            assert(staking[staking.len() - 1].is_active);
        }
        if stakes(shorter, id) {
            let i = choose|i: int|
                0 <= i < shorter.len() && (#[trigger] shorter[i]).is_active && shorter[i].id == id;
            assert(staking[i].is_active && staking[i].id == id);
        }
        if stakes(staking, id) && !(last.is_active && last.id == id) {
            let i = choose|i: int|
                0 <= i < staking.len() && (#[trigger] staking[i]).is_active && staking[i].id == id;
            assert(shorter[i].is_active && shorter[i].id == id);
        }
    }
}

proof fn admission_settles(
    before: Seq<ValidatorInfo>,
    limit: u128,
    staking: Seq<StakingValidator>,
)
    requires
        distinct_ids(before),
        limit == u128::MAX || limit == 0 || asked_in(before, staking) <= limit,
    ensures
        ({
            let t = all_admitted(Transition { validators: before, changed: 0 }, limit, staking);
            &&& distinct_ids(t.validators)
            &&& limit == u128::MAX || limit == 0 || t.changed == asked_in(before, staking)
            &&& forall|id: ValidatorId| #[trigger]
                place_of(t.validators, id) == standing(before, staking, id)
            &&& forall|id: ValidatorId| #[trigger]
                staked_by(staking, id) is Some ==> settled_at(
                    t.validators,
                    id,
                    staked_by(staking, id)->0,
                )
        }),
    decreases staking.len(),
{
    let start = Transition { validators: before, changed: 0 };
    if staking.len() > 0 {
        let shorter = staking.drop_last();
        let sv = staking.last();
        admission_settles(before, limit, shorter);
        let t = all_admitted(start, limit, shorter);
        let s = t.validators;
        let r = admitted(t, limit, sv).validators;
        assert(place_of(s, sv.id) == standing(before, shorter, sv.id));
        if sv.is_active {
            if is_member(s, sv.id) {
                refreshed_bounded(before, s, sv.id, sv.total_stake);
                let at = member_index(s, sv.id);
                assert(0 <= at < s.len() && s[at].id == sv.id);
                assert(r[at].id == sv.id && r[at].active() && r[at].stake == sv.total_stake);
            } else {
                pushed_bounded(before, s, sv.id, sv.total_stake);
                assert(r[s.len() as int] == fresh_validator(sv.id, sv.total_stake));
            }
            assert(settled_at(r, sv.id, sv.total_stake));
            assert forall|id: ValidatorId| #[trigger] place_of(r, id) == standing(
                before,
                staking,
                id,
            ) by {
                assert(place_of(s, id) == standing(before, shorter, id));
                only_one_moves(s, r, sv.id, sv.total_stake, id);
            }
        }
        assert forall|id: ValidatorId| #[trigger] staked_by(staking, id) is Some implies settled_at(
            r,
            id,
            staked_by(staking, id)->0,
        ) by {
            if !(sv.is_active && sv.id == id) {
                let stake = staked_by(shorter, id)->0;
                assert(settled_at(s, id, stake));
                let i = choose|i: int|
                    0 <= i < s.len() && (#[trigger] s[i]).id == id && s[i].active() && s[i].stake
                        == stake;
                assert(r[i] == s[i]);
            }
        }
    }
}

/// Where `r` is `s` but for `id`, which is active in it with `stake`, it is the only one
/// that stands elsewhere.
proof fn only_one_moves(
    s: Seq<ValidatorInfo>,
    r: Seq<ValidatorInfo>,
    id: ValidatorId,
    stake: u128,
    x: ValidatorId,
)
    requires
        distinct_ids(s),
        distinct_ids(r),
        is_member(s, id) ==> r == refreshed(s, id, stake),
        !is_member(s, id) ==> r == s.push(fresh_validator(id, stake)),
    ensures
        x != id ==> place_of(r, x) == place_of(s, x),
        x == id ==> place_of(r, x) == (Place { stake: stake as int, weight: stake as int }),
{
    if is_member(s, x) {
        let i = choose|i: int| 0 <= i < s.len() && (#[trigger] s[i]).id == x;
        placed_at(s, i);
        assert(r[i].id == x);
        placed_at(r, i);
    } else {
        if is_member(r, x) {
            let i = choose|i: int| 0 <= i < r.len() && (#[trigger] r[i]).id == x;
            placed_at(r, i);
            if i < s.len() {
                assert(s[i].id == x);
            }
        }
        if x == id {
            assert(r[s.len() as int] == fresh_validator(id, stake));
            placed_at(r, s.len() as int);
        }
    }
}

/// Those that were in the set before stay in their places while others join after them,
/// and those that no longer stake stay as they were.
proof fn admission_keeps_places(
    before: Seq<ValidatorInfo>,
    limit: u128,
    staking: Seq<StakingValidator>,
)
    ensures
        ({
            let s = all_admitted(
                Transition { validators: before, changed: 0 },
                limit,
                staking,
            ).validators;
            &&& before.len() <= s.len()
            &&& forall|i: int|
                0 <= i < before.len() ==> {
                    &&& (#[trigger] s[i]).id == before[i].id
                    &&& !stakes(staking, s[i].id) ==> s[i] == before[i]
                }
            &&& forall|i: int|
                before.len() <= i < s.len() ==> stakes(staking, (#[trigger] s[i]).id)
        }),
    decreases staking.len(),
{
    if staking.len() > 0 {
        let shorter = staking.drop_last();
        let sv = staking.last();
        admission_keeps_places(before, limit, shorter);
        assert(staking[staking.len() - 1] == sv);
        assert forall|id: ValidatorId| stakes(shorter, id) implies #[trigger] stakes(
            staking,
            id,
        ) by {
            let i = choose|i: int|
                0 <= i < shorter.len() && (#[trigger] shorter[i]).is_active && shorter[i].id == id;
            assert(staking[i].is_active && staking[i].id == id);
        }
        let t = all_admitted(Transition { validators: before, changed: 0 }, limit, shorter);
        let r = admitted(t, limit, sv).validators;
        assert forall|i: int| 0 <= i < before.len() implies ({
            &&& (#[trigger] r[i]).id == before[i].id
            &&& !stakes(staking, r[i].id) ==> r[i] == before[i]
        }) by {
            assert(t.validators[i].id == before[i].id);
        }
        assert forall|i: int| before.len() <= i < r.len() implies stakes(
            staking,
            (#[trigger] r[i]).id,
        ) by {
            if i < t.validators.len() {
                assert(stakes(shorter, t.validators[i].id));
            }
        }
    }
}

/// The stake that leaves is that of the validators from before that no longer stake.
proof fn leaving_is_asked(
    before: Seq<ValidatorInfo>,
    limit: u128,
    staking: Seq<StakingValidator>,
)
    ensures
        leaving(
            all_admitted(Transition { validators: before, changed: 0 }, limit, staking).validators,
            staking,
        ) == leaving(before, staking),
{
    let s = all_admitted(Transition { validators: before, changed: 0 }, limit, staking).validators;
    admission_keeps_places(before, limit, staking);
    leaving_of_prefix(before, s, staking, before.len() as int);
    assert(before.take(before.len() as int) =~= before);
    leaving_of_rest(before.len() as int, s, staking, s.len() as int);
    assert(s.take(s.len() as int) =~= s);
}

proof fn leaving_of_prefix(
    before: Seq<ValidatorInfo>,
    s: Seq<ValidatorInfo>,
    staking: Seq<StakingValidator>,
    n: int,
)
    requires
        0 <= n <= before.len() <= s.len(),
        forall|i: int|
            0 <= i < before.len() ==> {
                &&& (#[trigger] s[i]).id == before[i].id
                &&& !stakes(staking, s[i].id) ==> s[i] == before[i]
            },
    ensures
        leaving(s.take(n), staking) == leaving(before.take(n), staking),
    decreases n,
{
    if n > 0 {
        leaving_of_prefix(before, s, staking, n - 1);
        assert(s.take(n).drop_last() =~= s.take(n - 1));
        assert(before.take(n).drop_last() =~= before.take(n - 1));
        assert(s[n - 1].id == before[n - 1].id);
    }
}

proof fn leaving_of_rest(
    from: int,
    s: Seq<ValidatorInfo>,
    staking: Seq<StakingValidator>,
    n: int,
)
    requires
        0 <= from <= n <= s.len(),
        forall|i: int| from <= i < s.len() ==> stakes(staking, (#[trigger] s[i]).id),
    ensures
        leaving(s.take(n), staking) == leaving(s.take(from), staking),
    decreases n - from,
{
    if n > from {
        leaving_of_rest(from, s, staking, n - 1);
        assert(s.take(n).drop_last() =~= s.take(n - 1));
        assert(stakes(staking, s[n - 1].id));
    }
}

proof fn leaving_grows(list: Seq<ValidatorInfo>, staking: Seq<StakingValidator>, n: int)
    requires
        0 <= n <= list.len(),
    ensures
        0 <= leaving(list.take(n), staking) <= leaving(list, staking),
    decreases list.len(),
{
    if list.len() > 0 {
        let shorter = list.drop_last();
        if n < list.len() {
            leaving_grows(shorter, staking, n);
            assert(shorter.take(n) =~= list.take(n));
        } else {
            leaving_grows(shorter, staking, shorter.len() as int);
            assert(shorter.take(shorter.len() as int) =~= shorter);
            assert(list.take(n) =~= list);
        }
    } else {
        assert(list.take(n) =~= list);
    }
}

/// Where all that leaves is within the limit, nobody is put off.
proof fn dismissal_fits(
    limit: u128,
    staking: Seq<StakingValidator>,
    grown: Transition,
    n: int,
)
    requires
        limit == u128::MAX || limit == 0 || grown.changed + leaving(grown.validators, staking)
            <= limit,
        0 < n <= grown.validators.len(),
    ensures
        ({
            let list = grown.validators;
            let t = all_dismissed(grown, limit, staking, list.take(n - 1));
            &&& limit == u128::MAX || limit == 0 || t.changed == grown.changed + leaving(
                list.take(n - 1),
                staking,
            )
            &&& stakes(staking, list[n - 1].id) || !beyond(t.changed, list[n - 1].stake, limit)
        }),
    decreases n,
{
    let list = grown.validators;
    assert(list.take(n).drop_last() =~= list.take(n - 1));
    leaving_grows(list, staking, n);
    if n > 1 {
        dismissal_fits(limit, staking, grown, n - 1);
        leaving_grows(list, staking, n - 1);
        assert(list.take(n - 1).drop_last() =~= list.take(n - 2));
    } else {
        assert(list.take(0).len() == 0);
    }
}

/// `s` holds those of `list` that stake, and of the others those from place `n` on.
spec fn thinned(
    s: Seq<ValidatorInfo>,
    list: Seq<ValidatorInfo>,
    staking: Seq<StakingValidator>,
    n: int,
) -> bool {
    &&& distinct_ids(s)
    &&& forall|k: int|
        0 <= k < s.len() ==> list.contains(#[trigger] s[k]) && (stakes(staking, s[k].id)
            || list.skip(n).contains(s[k]))
    &&& forall|i: int|
        0 <= i < list.len() && (stakes(staking, (#[trigger] list[i]).id) || n <= i) ==> s.contains(
            list[i],
        )
}

proof fn thinned_by_one(
    s: Seq<ValidatorInfo>,
    r: Seq<ValidatorInfo>,
    list: Seq<ValidatorInfo>,
    staking: Seq<StakingValidator>,
    n: int,
)
    requires
        distinct_ids(list),
        0 < n <= list.len(),
        thinned(s, list, staking, n - 1),
        r == if stakes(staking, list[n - 1].id) {
            s
        } else {
            s.remove(member_index(s, list[n - 1].id))
        },
    ensures
        thinned(r, list, staking, n),
{
    let v = list[n - 1];
    assert(s.contains(v));
    let at = choose|at: int| 0 <= at < s.len() && s[at] == v;
    placed_at(s, at);
    let leaves = !stakes(staking, v.id);
    if leaves {
        removed_bounded(s, s, at);
    }
    assert forall|k: int| 0 <= k < r.len() implies list.contains(#[trigger] r[k]) && (stakes(
        staking,
        r[k].id,
    ) || list.skip(n).contains(r[k])) by {
        let k0 = if leaves && k >= at {
            k + 1
        } else {
            k
        };
        assert(r[k] == s[k0]);
        if !stakes(staking, r[k].id) {
            placed_at(s, k0);
            let rest = list.skip(n - 1);
            assert(rest.contains(s[k0]));
            let j = choose|j: int| 0 <= j < rest.len() && rest[j] == s[k0];
            assert(rest[0] == v);
            assert(list.skip(n)[j - 1] == rest[j]);
        }
    }
    assert forall|i: int|
        0 <= i < list.len() && (stakes(staking, (#[trigger] list[i]).id) || n <= i) implies r.contains(
        list[i],
    ) by {
        assert(s.contains(list[i]));
        let j = choose|j: int| 0 <= j < s.len() && s[j] == list[i];
        if leaves {
            if n <= i {
                assert(list[n - 1].id != list[i].id);
            }
            let j1 = if j < at {
                j
            } else {
                j - 1
            };
            assert(r[j1] == list[i]);
        } else {
            assert(r[j] == list[i]);
        }
    }
}

proof fn dismissal_settles(
    limit: u128,
    staking: Seq<StakingValidator>,
    grown: Transition,
    n: int,
)
    requires
        limit == u128::MAX || limit == 0 || grown.changed + leaving(grown.validators, staking)
            <= limit,
        distinct_ids(grown.validators),
        0 <= n <= grown.validators.len(),
    ensures
        thinned(
            all_dismissed(grown, limit, staking, grown.validators.take(n)).validators,
            grown.validators,
            staking,
            n,
        ),
    decreases n,
{
    let list = grown.validators;
    if n == 0 {
        assert(list.take(0).len() == 0);
        assert(list.skip(0) =~= list);
    } else {
        dismissal_settles(limit, staking, grown, n - 1);
        let prefix = list.take(n);
        assert(prefix.drop_last() =~= list.take(n - 1));
        assert(prefix.last() == list[n - 1]);
        dismissal_fits(limit, staking, grown, n);
        let s = all_dismissed(grown, limit, staking, list.take(n - 1)).validators;
        let r = all_dismissed(grown, limit, staking, prefix).validators;
        thinned_by_one(s, r, list, staking, n);
    }
}

/// The staking contract lists no validator as active twice.
pub open spec fn actives_distinct(staking: Seq<StakingValidator>) -> bool {
    forall|i: int, j: int|
        0 <= i < j < staking.len() && (#[trigger] staking[i]).is_active && (
        #[trigger] staking[j]).is_active ==> staking[i].id != staking[j].id
}

/// Nothing is put off that still fits: of what the staking contract asks for, only
/// changes that would have taken the whole change beyond a third of the active stake
/// wait for the next epoch. The amount that a transition reports is how much the set
/// changed.
pub proof fn only_what_exceeds_the_limit_waits(
    before: Seq<ValidatorInfo>,
    staking: Seq<StakingValidator>,
)
    requires
        distinct_ids(before),
        actives_distinct(staking),
        count_active(before) >= 4,
        3 <= active_stake(before) <= u128::MAX,
    ensures
        ({
            let after = synced(before, staking).validators;
            let change = set_change(before, after);
            &&& synced(before, staking).changed == change
            &&& forall|k: int|
                0 <= k < staking.len() && (#[trigger] staking[k]).is_active ==> {
                    let stake = staking[k].total_stake as int;
                    let asked = shift(
                        place_of(before, staking[k].id),
                        Place { stake, weight: stake },
                    );
                    ||| exists|i: int|
                        0 <= i < after.len() && (#[trigger] after[i]).id == staking[k].id
                            && after[i].active() && after[i].stake == stake
                    ||| 3 * (change + asked) > active_stake(before)
                }
            &&& forall|i: int|
                0 <= i < before.len() && !stakes(staking, (#[trigger] before[i]).id) ==> !is_member(
                    after,
                    before[i].id,
                ) || 3 * (change + before[i].stake) > active_stake(before)
        }),
{
    let limit = change_limit(before);
    let grown = all_admitted(Transition { validators: before, changed: 0 }, limit, staking);
    admission_is_exact(before, limit, staking);
    admission_keeps_places(before, limit, staking);
    let list = grown.validators;
    let n = list.len() as int;
    assert(list.take(n) =~= list);
    dismissal_orders(limit, staking, grown, n);
    dismissal_is_exact(before, limit, staking, n);
    let after = synced(before, staking).validators;
    let change = set_change(before, after);
    assert forall|k: int| 0 <= k < staking.len() && (#[trigger] staking[k]).is_active implies ({
        let stake = staking[k].total_stake as int;
        let asked = shift(place_of(before, staking[k].id), Place { stake, weight: stake });
        ||| exists|i: int|
            0 <= i < after.len() && (#[trigger] after[i]).id == staking[k].id && after[i].active()
                && after[i].stake == stake
        ||| 3 * (change + asked) > active_stake(before)
    }) by {
        let sv = staking[k];
        assert(taken_or_beyond(before, limit, grown, sv));
        if settled_at(list, sv.id, sv.total_stake) {
            let j = choose|j: int|
                0 <= j < list.len() && (#[trigger] list[j]).id == sv.id && list[j].active()
                    && list[j].stake == sv.total_stake;
            assert(stakes(staking, list[j].id));
            assert(after.contains(list[j]));
            let i = choose|i: int| 0 <= i < after.len() && after[i] == list[j];
            assert(after[i].id == sv.id);
        }
    }
    assert forall|i: int|
        0 <= i < before.len() && !stakes(staking, (#[trigger] before[i]).id) implies !is_member(
        after,
        before[i].id,
    ) || 3 * (change + before[i].stake) > active_stake(before) by {
        assert(list[i].id == before[i].id && list[i] == before[i]);
    }
}

/// `sv` was taken over, or its change would have gone beyond the limit.
spec fn taken_or_beyond(
    before: Seq<ValidatorInfo>,
    limit: u128,
    t: Transition,
    sv: StakingValidator,
) -> bool {
    let stake = sv.total_stake as int;
    ||| settled_at(t.validators, sv.id, sv.total_stake)
    ||| t.changed + shift(place_of(before, sv.id), Place { stake, weight: stake }) > limit
}

proof fn admission_is_exact(
    before: Seq<ValidatorInfo>,
    limit: u128,
    staking: Seq<StakingValidator>,
)
    requires
        distinct_ids(before),
        actives_distinct(staking),
        0 < limit < u128::MAX,
    ensures
        ({
            let t = all_admitted(Transition { validators: before, changed: 0 }, limit, staking);
            &&& distinct_ids(t.validators)
            &&& t.changed == set_change(before, t.validators)
            &&& t.changed <= limit
            &&& forall|id: ValidatorId|
                staked_by(staking, id) is None ==> #[trigger] place_of(t.validators, id) == place_of(
                    before,
                    id,
                ) && (is_member(t.validators, id) <==> is_member(before, id))
            &&& forall|k: int|
                0 <= k < staking.len() && (#[trigger] staking[k]).is_active ==> taken_or_beyond(
                    before,
                    limit,
                    t,
                    staking[k],
                )
        }),
    decreases staking.len(),
{
    let start = Transition { validators: before, changed: 0 };
    if staking.len() == 0 {
        nothing_changed(before, before.len() as int);
        assert(before.take(before.len() as int) =~= before);
    } else {
        let shorter = staking.drop_last();
        let sv = staking.last();
        assert forall|i: int, j: int|
            0 <= i < j < shorter.len() && (#[trigger] shorter[i]).is_active && (
            #[trigger] shorter[j]).is_active implies shorter[i].id != shorter[j].id by {
            assert(staking[i].id != staking[j].id);
        }
        admission_is_exact(before, limit, shorter);
        let t = all_admitted(start, limit, shorter);
        let r = all_admitted(start, limit, staking);
        if sv.is_active {
            staked_where_active(shorter, sv.id);
            assert(staked_by(shorter, sv.id) is None) by {
                if stakes(shorter, sv.id) {
                    let i = choose|i: int|
                        0 <= i < shorter.len() && (#[trigger] shorter[i]).is_active
                            && shorter[i].id == sv.id;
                    assert(staking[i].id != staking[staking.len() - 1].id);
                }
            }
            assert(place_of(t.validators, sv.id) == place_of(before, sv.id));
            one_more_taken(before, limit, t, r, sv);
        }
        assert forall|id: ValidatorId| staked_by(staking, id) is None implies #[trigger] place_of(
            r.validators,
            id,
        ) == place_of(before, id) && (is_member(r.validators, id) <==> is_member(before, id)) by {
            assert(staked_by(shorter, id) is None);
            assert(place_of(t.validators, id) == place_of(before, id));
        }
        assert forall|k: int|
            0 <= k < staking.len() && (#[trigger] staking[k]).is_active implies taken_or_beyond(
            before,
            limit,
            r,
            staking[k],
        ) by {
            if k < shorter.len() {
                assert(shorter[k] == staking[k]);
                assert(taken_or_beyond(before, limit, t, shorter[k]));
                if sv.is_active {
                    assert(staking[k].id != staking[staking.len() - 1].id);
                    assert(keeps_settled(t.validators, r.validators, sv.id));
                }
            }
        }
    }
}

/// Who is settled in `s` is settled in `r`, but for `id`.
spec fn keeps_settled(s: Seq<ValidatorInfo>, r: Seq<ValidatorInfo>, id: ValidatorId) -> bool {
    forall|x: ValidatorId, stake: u128|
        x != id && settled_at(s, x, stake) ==> #[trigger] settled_at(r, x, stake)
}

proof fn one_more_taken(
    before: Seq<ValidatorInfo>,
    limit: u128,
    t: Transition,
    r: Transition,
    sv: StakingValidator,
)
    requires
        distinct_ids(before),
        distinct_ids(t.validators),
        t.changed == set_change(before, t.validators),
        t.changed <= limit,
        0 < limit < u128::MAX,
        sv.is_active,
        r == admitted(t, limit, sv),
        place_of(t.validators, sv.id) == place_of(before, sv.id),
        is_member(t.validators, sv.id) <==> is_member(before, sv.id),
    ensures
        distinct_ids(r.validators),
        r.changed == set_change(before, r.validators),
        t.changed <= r.changed <= limit,
        forall|id: ValidatorId|
            id != sv.id ==> #[trigger] place_of(r.validators, id) == place_of(t.validators, id) && (
            is_member(r.validators, id) <==> is_member(t.validators, id)),
        taken_or_beyond(before, limit, r, sv),
        keeps_settled(t.validators, r.validators, sv.id),
{
    let s = t.validators;
    let q = r.validators;
    let stake = sv.total_stake;
    assert(unmoved(before, s, sv.id)) by {
        assert forall|i: int| 0 <= i < before.len() && (#[trigger] before[i]).id == sv.id implies place(
            before[i],
        ) == place_of(s, sv.id) by {
            placed_at(before, i);
        }
    }
    if is_member(s, sv.id) {
        refreshed_bounded(before, s, sv.id, stake);
        let at = member_index(s, sv.id);
        assert(0 <= at < s.len() && s[at].id == sv.id);
        if q == refreshed(s, sv.id, stake) {
            assert(q[at].id == sv.id && q[at].active() && q[at].stake == stake);
            assert(settled_at(q, sv.id, stake));
        }
    } else {
        pushed_bounded(before, s, sv.id, stake);
        if q == s.push(fresh_validator(sv.id, stake)) {
            assert(q[s.len() as int] == fresh_validator(sv.id, stake));
            assert(settled_at(q, sv.id, stake));
        }
    }
    if q != s {
        assert forall|id: ValidatorId| id != sv.id implies #[trigger] place_of(q, id) == place_of(
            s,
            id,
        ) && (is_member(q, id) <==> is_member(s, id)) by {
            only_one_moves(s, q, sv.id, stake, id);
            if is_member(s, id) {
                let i = choose|i: int| 0 <= i < s.len() && (#[trigger] s[i]).id == id;
                assert(q[i].id == id);
            }
            if is_member(q, id) {
                let i = choose|i: int| 0 <= i < q.len() && (#[trigger] q[i]).id == id;
                assert(s[i].id == id);
            }
        }
        assert forall|x: ValidatorId, y: u128|
            x != sv.id && settled_at(s, x, y) implies #[trigger] settled_at(q, x, y) by {
            let i = choose|i: int|
                0 <= i < s.len() && (#[trigger] s[i]).id == x && s[i].active() && s[i].stake == y;
            assert(q[i] == s[i]);
        }
    }
}

/// Those that leave leave gaps: the others stay, and stay in their order.
proof fn dismissal_orders(limit: u128, staking: Seq<StakingValidator>, grown: Transition, n: int)
    requires
        distinct_ids(grown.validators),
        0 <= n <= grown.validators.len(),
    ensures
        ({
            let list = grown.validators;
            let s = all_dismissed(grown, limit, staking, list.take(n)).validators;
            in_order(s, list) && forall|i: int|
                0 <= i < list.len() && (stakes(staking, (#[trigger] list[i]).id) || n <= i)
                    ==> s.contains(list[i])
        }),
    decreases n,
{
    let list = grown.validators;
    if n == 0 {
        assert(list.take(0).len() == 0);
        assert forall|a: int| 0 <= a < list.len() implies list.contains(#[trigger] list[a]) by {
            placed_at(list, a);
        }
        assert forall|a: int, b: int| 0 <= a < b < list.len() implies member_index(
            list,
            (#[trigger] list[a]).id,
        ) < member_index(list, (#[trigger] list[b]).id) by {
            placed_at(list, a);
            placed_at(list, b);
        }
    } else {
        dismissal_orders(limit, staking, grown, n - 1);
        let prefix = list.take(n);
        assert(prefix.drop_last() =~= list.take(n - 1));
        assert(prefix.last() == list[n - 1]);
        let t = all_dismissed(grown, limit, staking, list.take(n - 1));
        let s = t.validators;
        assert(s.contains(list[n - 1]));
        let k = choose|k: int| 0 <= k < s.len() && s[k] == list[n - 1];
        placed_at(s, k);
        if !stakes(staking, list[n - 1].id) && !beyond(t.changed, list[n - 1].stake, limit) {
            gap_keeps_order(s, list, k);
            let r = s.remove(k);
            assert forall|i: int|
                0 <= i < list.len() && (stakes(staking, (#[trigger] list[i]).id) || n <= i) implies r.contains(
                list[i],
            ) by {
                assert(s.contains(list[i]));
                let j = choose|j: int| 0 <= j < s.len() && s[j] == list[i];
                if n <= i {
                    assert(list[n - 1].id != list[i].id);
                }
                let j1 = if j < k {
                    j
                } else {
                    j - 1
                };
                assert(r[j1] == list[i]);
            }
        }
    }
}

/// The validators of `s` are from `list`, in its order.
spec fn in_order(s: Seq<ValidatorInfo>, list: Seq<ValidatorInfo>) -> bool {
    &&& distinct_ids(s)
    &&& forall|a: int| 0 <= a < s.len() ==> list.contains(#[trigger] s[a])
    &&& forall|a: int, b: int|
        0 <= a < b < s.len() ==> member_index(list, (#[trigger] s[a]).id) < member_index(
            list,
            (#[trigger] s[b]).id,
        )
}

proof fn gap_keeps_order(s: Seq<ValidatorInfo>, list: Seq<ValidatorInfo>, k: int)
    requires
        in_order(s, list),
        0 <= k < s.len(),
    ensures
        in_order(s.remove(k), list),
{
    let r = s.remove(k);
    removed_bounded(s, s, k);
    assert forall|a: int| 0 <= a < r.len() implies list.contains(#[trigger] r[a]) by {
        let a0 = if a < k {
            a
        } else {
            a + 1
        };
        assert(list.contains(s[a0]));
    }
    assert forall|a: int, b: int| 0 <= a < b < r.len() implies member_index(
        list,
        (#[trigger] r[a]).id,
    ) < member_index(list, (#[trigger] r[b]).id) by {
        let a0 = if a < k {
            a
        } else {
            a + 1
        };
        let b0 = if b < k {
            b
        } else {
            b + 1
        };
        assert(member_index(list, s[a0].id) < member_index(list, s[b0].id));
    }
}

proof fn dismissal_is_exact(
    before: Seq<ValidatorInfo>,
    limit: u128,
    staking: Seq<StakingValidator>,
    n: int,
)
    requires
        distinct_ids(before),
        0 < limit < u128::MAX,
        ({
            let grown = all_admitted(Transition { validators: before, changed: 0 }, limit, staking);
            &&& distinct_ids(grown.validators)
            &&& grown.changed == set_change(before, grown.validators)
            &&& grown.changed <= limit
            &&& 0 <= n <= grown.validators.len()
        }),
    ensures
        ({
            let grown = all_admitted(Transition { validators: before, changed: 0 }, limit, staking);
            let list = grown.validators;
            let t = all_dismissed(grown, limit, staking, list.take(n));
            &&& t.changed == set_change(before, t.validators)
            &&& grown.changed <= t.changed <= limit
            &&& forall|i: int|
                0 <= i < n && !stakes(staking, (#[trigger] list[i]).id) ==> !is_member(
                    t.validators,
                    list[i].id,
                ) || t.changed + list[i].stake > limit
        }),
    decreases n,
{
    let grown = all_admitted(Transition { validators: before, changed: 0 }, limit, staking);
    let list = grown.validators;
    if n == 0 {
        assert(list.take(0).len() == 0);
    } else {
        dismissal_is_exact(before, limit, staking, n - 1);
        dismissal_orders(limit, staking, grown, n - 1);
        let prefix = list.take(n);
        assert(prefix.drop_last() =~= list.take(n - 1));
        let v = list[n - 1];
        assert(prefix.last() == v);
        let t = all_dismissed(grown, limit, staking, list.take(n - 1));
        let r = all_dismissed(grown, limit, staking, prefix);
        let s = t.validators;
        assert(s.contains(v));
        let k = choose|k: int| 0 <= k < s.len() && s[k] == v;
        placed_at(s, k);
        if !stakes(staking, v.id) {
            admission_keeps_places(before, limit, staking);
            assert(n - 1 < before.len() && before[n - 1] == v);
            assert(unmoved(before, s, v.id)) by {
                assert forall|i: int|
                    0 <= i < before.len() && (#[trigger] before[i]).id == v.id implies place(
                    before[i],
                ) == place_of(s, v.id) by {
                    placed_at(before, i);
                    placed_at(before, n - 1);
                }
            }
            removed_bounded(before, s, k);
        }
        assert forall|i: int| 0 <= i < n && !stakes(staking, (#[trigger] list[i]).id) implies !is_member(
            r.validators,
            list[i].id,
        ) || r.changed + list[i].stake > limit by {
            if i < n - 1 {
                if is_member(r.validators, list[i].id) {
                    let a = choose|a: int|
                        0 <= a < r.validators.len() && (#[trigger] r.validators[a]).id
                            == list[i].id;
                    let a0 = if r.validators == s || a < k {
                        a
                    } else {
                        a + 1
                    };
                    assert(s[a0].id == list[i].id);
                }
            }
        }
    }
}

/// The staking contract has `id` as active with `stake`.
pub open spec fn offers(staking: Seq<StakingValidator>, id: ValidatorId, stake: u128) -> bool {
    exists|k: int|
        0 <= k < staking.len() && (#[trigger] staking[k]).is_active && staking[k].id == id
            && staking[k].total_stake == stake
}

/// `v` stands as `was`, or has taken over what the staking contract has for it: then it
/// is active, and its record of missed blocks starts anew where it was not active.
pub open spec fn took_over(
    v: ValidatorInfo,
    was: ValidatorInfo,
    staking: Seq<StakingValidator>,
) -> bool {
    v == was || v.id == was.id && v.active() && offers(staking, v.id, v.stake) && v.missed_blocks
        == if was.active() {
        was.missed_blocks
    } else {
        0
    }
}

/// An epoch boundary keeps the order of the set: the validators that were in it come
/// first, in the order that they had, each as it was or with what the staking contract
/// has for it. Those that join come after them, active, with their stake there and no
/// missed blocks.
pub proof fn set_keeps_its_order(before: Seq<ValidatorInfo>, staking: Seq<StakingValidator>)
    requires
        distinct_ids(before),
    ensures
        ({
            let after = synced(before, staking).validators;
            &&& forall|a: int|
                0 <= a < after.len() ==> {
                    let v = #[trigger] after[a];
                    if is_member(before, v.id) {
                        took_over(v, before[member_index(before, v.id)], staking)
                    } else {
                        v.active() && v.missed_blocks == 0 && offers(staking, v.id, v.stake)
                    }
                }
            &&& forall|a: int, b: int|
                0 <= a < b < after.len() && is_member(before, (#[trigger] after[b]).id) ==> {
                    &&& is_member(before, (#[trigger] after[a]).id)
                    &&& member_index(before, after[a].id) < member_index(before, after[b].id)
                }
        }),
{
    let limit = change_limit(before);
    let grown = all_admitted(Transition { validators: before, changed: 0 }, limit, staking);
    let list = grown.validators;
    let n = list.len() as int;
    assert(list.take(n) =~= list);
    admission_takes_over(before, limit, staking);
    dismissal_orders(limit, staking, grown, n);
    let after = synced(before, staking).validators;
    assert forall|a: int| 0 <= a < after.len() implies ({
        let v = #[trigger] after[a];
        if is_member(before, v.id) {
            took_over(v, before[member_index(before, v.id)], staking)
        } else {
            v.active() && v.missed_blocks == 0 && offers(staking, v.id, v.stake)
        }
    }) by {
        listed_where(before, list, staking, after[a]);
    }
    assert forall|a: int, b: int|
        0 <= a < b < after.len() && is_member(before, (#[trigger] after[b]).id) implies ({
        &&& is_member(before, (#[trigger] after[a]).id)
        &&& member_index(before, after[a].id) < member_index(before, after[b].id)
    }) by {
        listed_where(before, list, staking, after[a]);
        listed_where(before, list, staking, after[b]);
        let at = member_index(list, after[a].id);
        assert(member_index(list, after[a].id) < member_index(list, after[b].id));
        placed_at(before, at);
    }
}

proof fn listed_where(
    before: Seq<ValidatorInfo>,
    list: Seq<ValidatorInfo>,
    staking: Seq<StakingValidator>,
    v: ValidatorInfo,
)
    requires
        distinct_ids(before),
        distinct_ids(list),
        list.contains(v),
        grown_from(list, before, staking),
    ensures
        ({
            let at = member_index(list, v.id);
            &&& 0 <= at < list.len()
            &&& list[at] == v
            &&& at < before.len() ==> is_member(before, v.id) && member_index(before, v.id) == at
                && took_over(v, before[at], staking)
            &&& at >= before.len() ==> !is_member(before, v.id) && v.active() && v.missed_blocks
                == 0 && offers(staking, v.id, v.stake)
        }),
{
    let k = choose|k: int| 0 <= k < list.len() && list[k] == v;
    placed_at(list, k);
    if k < before.len() {
        assert(took_over(list[k], before[k], staking));
        assert(before[k].id == v.id);
        placed_at(before, k);
    } else if is_member(before, v.id) {
        let i = choose|i: int| 0 <= i < before.len() && (#[trigger] before[i]).id == v.id;
        assert(took_over(list[i], before[i], staking));
        assert(list[i].id != list[k].id);
    }
}

/// `list` is `before`, each as it was or taken over, and those that joined after it.
spec fn grown_from(
    list: Seq<ValidatorInfo>,
    before: Seq<ValidatorInfo>,
    staking: Seq<StakingValidator>,
) -> bool {
    &&& before.len() <= list.len()
    &&& forall|i: int|
        0 <= i < before.len() ==> took_over(#[trigger] list[i], before[i], staking)
    &&& forall|i: int|
        before.len() <= i < list.len() ==> (#[trigger] list[i]).active() && list[i].missed_blocks
            == 0 && offers(staking, list[i].id, list[i].stake)
}

proof fn admission_takes_over(
    before: Seq<ValidatorInfo>,
    limit: u128,
    staking: Seq<StakingValidator>,
)
    requires
        distinct_ids(before),
    ensures
        ({
            let list = all_admitted(
                Transition { validators: before, changed: 0 },
                limit,
                staking,
            ).validators;
            distinct_ids(list) && grown_from(list, before, staking)
        }),
    decreases staking.len(),
{
    if staking.len() > 0 {
        let shorter = staking.drop_last();
        let sv = staking.last();
        admission_takes_over(before, limit, shorter);
        assert(staking[staking.len() - 1] == sv);
        assert forall|id: ValidatorId, stake: u128| offers(shorter, id, stake) implies #[trigger] offers(
            staking,
            id,
            stake,
        ) by {
            let k = choose|k: int|
                0 <= k < shorter.len() && (#[trigger] shorter[k]).is_active && shorter[k].id == id
                    && shorter[k].total_stake == stake;
            assert(staking[k] == shorter[k]);
        }
        let t = all_admitted(Transition { validators: before, changed: 0 }, limit, shorter);
        let s = t.validators;
        let r = admitted(t, limit, sv).validators;
        if sv.is_active {
            assert(offers(staking, sv.id, sv.total_stake));
            if is_member(s, sv.id) {
                refreshed_bounded(s, s, sv.id, sv.total_stake);
            } else {
                pushed_bounded(s, s, sv.id, sv.total_stake);
            }
        }
        assert forall|i: int| 0 <= i < before.len() implies took_over(
            #[trigger] r[i],
            before[i],
            staking,
        ) by {
            assert(took_over(s[i], before[i], shorter));
        }
        assert forall|i: int| before.len() <= i < r.len() implies (#[trigger] r[i]).active()
            && r[i].missed_blocks == 0 && offers(staking, r[i].id, r[i].stake) by {
            if i < s.len() {
                assert(s[i].active());
            }
        }
    }
}

/// Taking over the stakes of the staking contract changes stakes alone: each validator
/// has the stake that the contract has for it, or keeps its own where the contract has
/// none, and nobody joins, leaves, or changes status.
pub proof fn restake_takes_over_stakes(s: Seq<ValidatorInfo>, staking: Seq<StakingValidator>)
    ensures
        restaked(s, staking).len() == s.len(),
        forall|i: int|
            0 <= i < s.len() ==> {
                let v = #[trigger] restaked(s, staking)[i];
                &&& v.id == s[i].id
                &&& v.status == s[i].status
                &&& v.missed_blocks == s[i].missed_blocks
                &&& v.stake == match staked_by(staking, s[i].id) {
                    Some(stake) => stake,
                    None => s[i].stake,
                }
            },
    decreases staking.len(),
{
    if staking.len() > 0 {
        restake_takes_over_stakes(s, staking.drop_last());
    }
}

} // verus!
