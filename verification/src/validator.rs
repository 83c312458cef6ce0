//! The validator set: stake, activity and the two-thirds quorum.
use vstd::prelude::*;

use crate::bytes::{same_hash, ValidatorId};

verus! {

/// Whether a validator takes part in consensus.
#[derive(Clone, Copy, Debug, PartialEq, Eq, Structural)]
pub enum ValidatorStatus {
    Active,
    Jailed,
}

/// A validator as the consensus engine knows it.
#[derive(Clone, Copy, Debug)]
pub struct ValidatorInfo {
    pub id: ValidatorId,
    pub stake: u128,
    pub status: ValidatorStatus,
    pub missed_blocks: u64,
}

/// A validator that has just joined.
pub open spec fn fresh_validator(id: ValidatorId, stake: u128) -> ValidatorInfo {
    ValidatorInfo { id, stake, status: ValidatorStatus::Active, missed_blocks: 0 }
}

impl ValidatorInfo {
    /// A validator that has just joined, active and with no missed blocks.
    pub fn new(id: ValidatorId, stake: u128) -> (v: Self)
        ensures
            v == fresh_validator(id, stake),
    {
        ValidatorInfo { id, stake, status: ValidatorStatus::Active, missed_blocks: 0 }
    }

    pub open spec fn active(self) -> bool {
        self.status == ValidatorStatus::Active
    }

    /// Whether the validator takes part in consensus.
    pub fn is_active(&self) -> (active: bool)
        ensures
            active == self.active(),
    {
        self.status == ValidatorStatus::Active
    }
}

/// The stake of the active validators of `s` that are among `ids`.
pub open spec fn stake_in(s: Seq<ValidatorInfo>, ids: Set<ValidatorId>) -> nat
    decreases s.len(),
{
    if s.len() == 0 {
        0
    } else {
        stake_in(s.drop_last(), ids) + if s.last().active() && ids.contains(s.last().id) {
            s.last().stake as nat
        } else {
            0
        }
    }
}

/// The stake of all active validators.
pub open spec fn active_stake(s: Seq<ValidatorInfo>) -> nat {
    stake_in(s, Set::full())
}

/// The stake of all validators, active or not.
pub open spec fn whole_stake(s: Seq<ValidatorInfo>) -> nat
    decreases s.len(),
{
    if s.len() == 0 {
        0
    } else {
        whole_stake(s.drop_last()) + s.last().stake as nat
    }
}

/// How many validators are active.
pub open spec fn count_active(s: Seq<ValidatorInfo>) -> nat
    decreases s.len(),
{
    if s.len() == 0 {
        0
    } else {
        count_active(s.drop_last()) + if s.last().active() {
            1nat
        } else {
            0
        }
    }
}

/// `ids` hold more than two thirds of the active stake.
pub open spec fn quorum(s: Seq<ValidatorInfo>, ids: Set<ValidatorId>) -> bool {
    3 * stake_in(s, ids) > 2 * active_stake(s)
}

/// `id` is an active validator of `s`.
pub open spec fn is_active_in(s: Seq<ValidatorInfo>, id: ValidatorId) -> bool {
    exists|i: int| 0 <= i < s.len() && (#[trigger] s[i]).id == id && s[i].active()
}

/// `id` is a validator of `s`.
pub open spec fn is_member(s: Seq<ValidatorInfo>, id: ValidatorId) -> bool {
    exists|i: int| 0 <= i < s.len() && (#[trigger] s[i]).id == id
}

/// No validator is listed twice.
pub open spec fn distinct_ids(s: Seq<ValidatorInfo>) -> bool {
    forall|i: int, j: int| 0 <= i < j < s.len() ==> (#[trigger] s[i]).id != (#[trigger] s[j]).id
}

/// `s` with the missed-block counter of `id` set to `n`.
pub open spec fn with_missed(s: Seq<ValidatorInfo>, id: ValidatorId, n: u64) -> Seq<ValidatorInfo> {
    Seq::new(
        s.len(),
        |i: int|
            if s[i].id == id {
                ValidatorInfo { missed_blocks: n, ..s[i] }
            } else {
                s[i]
            },
    )
}

/// `s` with the stake of `id` set to `stake`.
pub open spec fn with_stake(s: Seq<ValidatorInfo>, id: ValidatorId, stake: u128) -> Seq<
    ValidatorInfo,
> {
    Seq::new(
        s.len(),
        |i: int|
            if s[i].id == id {
                ValidatorInfo { stake, ..s[i] }
            } else {
                s[i]
            },
    )
}

/// A larger set of validators holds at least as much stake.
pub proof fn stake_monotone(s: Seq<ValidatorInfo>, a: Set<ValidatorId>, b: Set<ValidatorId>)
    requires
        a.subset_of(b),
    ensures
        stake_in(s, a) <= stake_in(s, b),
    decreases s.len(),
{
    if s.len() > 0 {
        stake_monotone(s.drop_last(), a, b);
    }
}

/// Stake adds up: counting two groups counts their common members twice.
pub proof fn stake_inclusion_exclusion(
    s: Seq<ValidatorInfo>,
    a: Set<ValidatorId>,
    b: Set<ValidatorId>,
)
    ensures
        stake_in(s, a) + stake_in(s, b) == stake_in(s, a.union(b)) + stake_in(s, a.intersect(b)),
    decreases s.len(),
{
    if s.len() > 0 {
        stake_inclusion_exclusion(s.drop_last(), a, b);
    }
}

/// No stake is held by nobody.
pub proof fn stake_of_none(s: Seq<ValidatorInfo>)
    ensures
        stake_in(s, Set::empty()) == 0,
    decreases s.len(),
{
    if s.len() > 0 {
        stake_of_none(s.drop_last());
    }
}

/// Any two quorums share validators with more than a third of the active stake.
/// So two different blocks can both gather a quorum only if validators with more
/// than a third of the stake back both.
pub proof fn quorums_intersect(s: Seq<ValidatorInfo>, a: Set<ValidatorId>, b: Set<ValidatorId>)
    requires
        quorum(s, a),
        quorum(s, b),
    ensures
        3 * stake_in(s, a.intersect(b)) > active_stake(s),
{
    stake_inclusion_exclusion(s, a, b);
    stake_monotone(s, a.union(b), Set::full());
}

/// Two groups without a common member cannot both be quorums.
pub proof fn disjoint_groups_share_no_quorum(
    s: Seq<ValidatorInfo>,
    a: Set<ValidatorId>,
    b: Set<ValidatorId>,
)
    requires
        a.disjoint(b),
        quorum(s, a),
    ensures
        !quorum(s, b),
{
    if quorum(s, b) {
        quorums_intersect(s, a, b);
        assert(a.intersect(b) =~= Set::empty());
        stake_of_none(s);
    }
}

/// Adding validators to a quorum leaves it a quorum.
pub proof fn quorum_monotone(s: Seq<ValidatorInfo>, a: Set<ValidatorId>, b: Set<ValidatorId>)
    requires
        quorum(s, a),
        a.subset_of(b),
    ensures
        quorum(s, b),
{
    stake_monotone(s, a, b);
}

/// No group holds more stake than all validators together.
pub proof fn stake_within_whole(s: Seq<ValidatorInfo>, ids: Set<ValidatorId>)
    ensures
        stake_in(s, ids) <= whole_stake(s),
    decreases s.len(),
{
    if s.len() > 0 {
        stake_within_whole(s.drop_last(), ids);
    }
}

/// The first validators hold no more stake than all of them.
pub proof fn whole_stake_of_prefix(s: Seq<ValidatorInfo>, n: int)
    requires
        0 <= n <= s.len(),
    ensures
        whole_stake(s.take(n)) <= whole_stake(s),
        n < s.len() ==> whole_stake(s.take(n)) + s[n].stake <= whole_stake(s),
    decreases s.len(),
{
    if n < s.len() {
        assert(s.drop_last().take(n) =~= s.take(n));
        whole_stake_of_prefix(s.drop_last(), n);
    } else {
        assert(s.take(n) =~= s);
    }
}

/// The validators that consensus counts with.
#[derive(Debug)]
pub struct ValidatorSet {
    pub validators: Vec<ValidatorInfo>,
}

impl View for ValidatorSet {
    type V = Seq<ValidatorInfo>;

    open spec fn view(&self) -> Seq<ValidatorInfo> {
        self.validators@
    }
}

/// A set that the engine can count with: nobody is listed twice, and the stakes
/// add up within bounds.
pub open spec fn countable(s: Seq<ValidatorInfo>) -> bool {
    &&& distinct_ids(s)
    &&& whole_stake(s) <= u128::MAX
}

impl ValidatorSet {
    pub open spec fn wf(&self) -> bool {
        countable(self@)
    }

    /// The set of the given validators.
    pub fn new(validators: Vec<ValidatorInfo>) -> (set: Self)
        ensures
            set@ == validators@,
    {
        ValidatorSet { validators }
    }

    /// All validators, active or not.
    pub fn all(&self) -> (all: &Vec<ValidatorInfo>)
        ensures
            all@ == self@,
    {
        &self.validators
    }

    /// How many validators are active.
    pub fn active_count(&self) -> (n: usize)
        ensures
            n == count_active(self@),
    {
        let mut n: usize = 0;
        let mut i: usize = 0;
        while i < self.validators.len()
            invariant
                i <= self@.len(),
                n == count_active(self@.take(i as int)),
                n <= i,
            decreases self@.len() - i,
        {
            if self.validators[i].is_active() {
                n += 1;
            }
            i += 1;
            assert(self@.take(i as int).drop_last() =~= self@.take(i - 1));
        }
        assert(self@.take(i as int) =~= self@);
        n
    }

    /// The stake of all active validators.
    pub fn total_active_stake(&self) -> (total: u128)
        requires
            self.wf(),
        ensures
            total == active_stake(self@),
    {
        let mut total: u128 = 0;
        let mut i: usize = 0;
        while i < self.validators.len()
            invariant
                i <= self@.len(),
                self.wf(),
                total == active_stake(self@.take(i as int)),
                total <= whole_stake(self@.take(i as int)),
            decreases self@.len() - i,
        {
            proof {
                whole_stake_of_prefix(self@, i as int);
                assert(self@.take(i + 1).drop_last() =~= self@.take(i as int));
                stake_within_whole(self@.take(i + 1), Set::full());
            }
            if self.validators[i].is_active() {
                total += self.validators[i].stake;
            }
            i += 1;
        }
        assert(self@.take(i as int) =~= self@);
        total
    }

    /// Whether `id` is an active validator.
    pub fn is_active_validator(&self, id: &ValidatorId) -> (active: bool)
        ensures
            active == is_active_in(self@, *id),
    {
        let mut i: usize = 0;
        while i < self.validators.len()
            invariant
                i <= self@.len(),
                forall|j: int|
                    0 <= j < i ==> !((#[trigger] self@[j]).id == *id && self@[j].active()),
            decreases self@.len() - i,
        {
            if same_hash(&self.validators[i].id, id) && self.validators[i].is_active() {
                return true;
            }
            i += 1;
        }
        false
    }

    /// The stake of the active validators among `ids`, each counted once.
    pub fn stake_of(&self, ids: &Vec<ValidatorId>) -> (stake: u128)
        requires
            self.wf(),
        ensures
            stake == stake_in(self@, ids@.to_set()),
    {
        let mut stake: u128 = 0;
        let mut i: usize = 0;
        while i < self.validators.len()
            invariant
                i <= self@.len(),
                self.wf(),
                stake == stake_in(self@.take(i as int), ids@.to_set()),
                stake <= whole_stake(self@.take(i as int)),
            decreases self@.len() - i,
        {
            proof {
                whole_stake_of_prefix(self@, i as int);
                assert(self@.take(i + 1).drop_last() =~= self@.take(i as int));
                stake_within_whole(self@.take(i + 1), ids@.to_set());
            }
            if self.validators[i].is_active() && contains_id(ids, &self.validators[i].id) {
                stake += self.validators[i].stake;
            }
            i += 1;
        }
        assert(self@.take(i as int) =~= self@);
        stake
    }

    /// Whether `ids` hold more than two thirds of the active stake.
    pub fn has_quorum(&self, ids: &Vec<ValidatorId>) -> (enough: bool)
        requires
            self.wf(),
        ensures
            enough == quorum(self@, ids@.to_set()),
            enough <==> 3 * stake_in(self@, ids@.to_set()) > 2 * active_stake(self@),
    {
        let total = self.total_active_stake();
        let stake = self.stake_of(ids);
        let third = total / 3;
        let rest = total % 3;
        stake > third * 2 + (rest * 2) / 3
    }

    /// Where `id` is listed.
    pub fn find(&self, id: &ValidatorId) -> (at: Option<usize>)
        ensures
            at matches Some(i) ==> i < self@.len() && self@[i as int].id == *id,
            at is None ==> !is_member(self@, *id),
    {
        let mut i: usize = 0;
        while i < self.validators.len()
            invariant
                i <= self@.len(),
                forall|j: int| 0 <= j < i ==> (#[trigger] self@[j]).id != *id,
            decreases self@.len() - i,
        {
            if same_hash(&self.validators[i].id, id) {
                return Some(i);
            }
            i += 1;
        }
        None
    }

    /// Sets the missed-block counter of `id`, if it is listed.
    pub fn set_missed(&mut self, id: &ValidatorId, missed: u64)
        requires
            old(self).wf(),
        ensures
            final(self).wf(),
            final(self)@ == with_missed(old(self)@, *id, missed),
    {
        let ghost before = self@;
        match self.find(id) {
            Some(i) => {
                let v = ValidatorInfo { missed_blocks: missed, ..self.validators[i] };
                self.validators.set(i, v);
            },
            None => {},
        }
        assert(self@ =~= with_missed(before, *id, missed));
        proof {
            with_missed_keeps_stake(before, *id, missed);
        }
    }

    /// Sets the stake of `id`, if it is listed.
    pub fn set_stake(&mut self, id: &ValidatorId, stake: u128)
        requires
            distinct_ids(old(self)@),
        ensures
            final(self)@ == with_stake(old(self)@, *id, stake),
    {
        let ghost before = self@;
        match self.find(id) {
            Some(i) => {
                let v = ValidatorInfo { stake, ..self.validators[i] };
                self.validators.set(i, v);
            },
            None => {},
        }
        assert(self@ =~= with_stake(before, *id, stake));
    }
}

/// Whether the engine can count with the given validators.
pub fn is_countable(validators: &Vec<ValidatorInfo>) -> (ok: bool)
    ensures
        ok == countable(validators@),
{
    let ghost s = validators@;
    let mut total: u128 = 0;
    let mut i: usize = 0;
    assert(s.take(0).len() == 0);
    while i < validators.len()
        invariant
            i <= s.len(),
            s == validators@,
            total == whole_stake(s.take(i as int)),
            forall|a: int, b: int|
                0 <= a < b < i ==> (#[trigger] s[a]).id != (#[trigger] s[b]).id,
        decreases s.len() - i,
    {
        let mut j: usize = 0;
        while j < i
            invariant
                j <= i,
                i < s.len(),
                s == validators@,
                forall|a: int| 0 <= a < j ==> (#[trigger] s[a]).id != s[i as int].id,
            decreases i - j,
        {
            if same_hash(&validators[j].id, &validators[i].id) {
                assert(!distinct_ids(s));
                return false;
            }
            j += 1;
        }
        proof {
            let next = s.take(i + 1);
            assert(next.drop_last() =~= s.take(i as int));
            assert(next.last() == s[i as int]);
            whole_stake_of_prefix(s, i + 1);
        }
        if validators[i].stake > u128::MAX - total {
            return false;
        }
        total = total + validators[i].stake;
        i += 1;
    }
    assert(s.take(i as int) =~= s);
    true
}

/// Whether `id` is among `ids`.
pub fn contains_id(ids: &Vec<ValidatorId>, id: &ValidatorId) -> (found: bool)
    ensures
        found == ids@.contains(*id),
        found == ids@.to_set().contains(*id),
{
    let mut i: usize = 0;
    while i < ids.len()
        invariant
            i <= ids@.len(),
            forall|j: int| 0 <= j < i ==> ids@[j] != *id,
        decreases ids@.len() - i,
    {
        if same_hash(&ids[i], id) {
            assert(ids@[i as int] == *id);
            return true;
        }
        i += 1;
    }
    false
}

/// Setting a missed-block counter changes no stake, no status and no identity, so
/// neither who may propose nor what a quorum is.
pub proof fn with_missed_keeps_stake(s: Seq<ValidatorInfo>, id: ValidatorId, n: u64)
    ensures
        with_missed(s, id, n).len() == s.len(),
        forall|i: int|
            0 <= i < s.len() ==> (#[trigger] with_missed(s, id, n)[i]).id == s[i].id && with_missed(
                s,
                id,
                n,
            )[i].stake == s[i].stake && with_missed(s, id, n)[i].status == s[i].status,
        whole_stake(with_missed(s, id, n)) == whole_stake(s),
        count_active(with_missed(s, id, n)) == count_active(s),
        forall|ids: Set<ValidatorId>| #[trigger]
            stake_in(with_missed(s, id, n), ids) == stake_in(s, ids),
        forall|ids: Set<ValidatorId>| #[trigger]
            quorum(with_missed(s, id, n), ids) == quorum(s, ids),
        distinct_ids(s) ==> distinct_ids(with_missed(s, id, n)),
    decreases s.len(),
{
    let t = with_missed(s, id, n);
    if s.len() > 0 {
        with_missed_keeps_stake(s.drop_last(), id, n);
        assert(t.drop_last() =~= with_missed(s.drop_last(), id, n));
        assert forall|ids: Set<ValidatorId>| #[trigger] stake_in(t, ids) == stake_in(s, ids) by {
            assert(stake_in(t.drop_last(), ids) == stake_in(s.drop_last(), ids));
        }
    }
    assert(active_stake(t) == active_stake(s));
    assert forall|ids: Set<ValidatorId>| #[trigger] quorum(t, ids) == quorum(s, ids) by {
        assert(stake_in(t, ids) == stake_in(s, ids));
    }
    if distinct_ids(s) {
        assert forall|i: int, j: int| 0 <= i < j < t.len() implies (#[trigger] t[i]).id != (
        #[trigger] t[j]).id by {
            assert(s[i].id != s[j].id);
        }
    }
}

} // verus!
