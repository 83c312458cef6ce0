//! Intents: which solution goes into a block, and how it is encoded.
use vstd::bytes::*;
use vstd::prelude::*;

use crate::bytes::{append_bytes, ValidatorId};
use crate::slashing::{system_call, system_operation};
use crate::types::{views, Action, ActionView, OperationView, UserOperation};

verus! {

/// How many blocks an intent is open for.
pub const INTENT_WINDOW: u64 = 500;

/// How many blocks external solvers have before the built-in one may step in.
pub const BUILTIN_SOLVER_DELAY: u64 = 2;

/// A condition that a solution has to meet.
#[derive(Debug)]
pub enum Constraint {
    MinBalance { account: ValidatorId, min_amount: u128 },
    MaxSpend { account: ValidatorId, max_amount: u128 },
    RequireTransfer { from: ValidatorId, to: ValidatorId, min_amount: u128 },
    /// `method` is the name in UTF-8.
    RequireCall { target: ValidatorId, method: Vec<u8> },
    CrossChainSwap {
        input_amount: u128,
        min_output: u128,
        destination_chain: u64,
        destination_address: Vec<u8>,
        output_token: Vec<u8>,
    },
    /// A condition that only its own verifier contract can check; it is counted
    /// but not encoded.
    Custom,
}

pub enum ConstraintView {
    MinBalance { account: ValidatorId, min_amount: u128 },
    MaxSpend { account: ValidatorId, max_amount: u128 },
    RequireTransfer { from: ValidatorId, to: ValidatorId, min_amount: u128 },
    RequireCall { target: ValidatorId, method: Seq<u8> },
    CrossChainSwap {
        input_amount: u128,
        min_output: u128,
        destination_chain: u64,
        destination_address: Seq<u8>,
        output_token: Seq<u8>,
    },
    Custom,
}

impl View for Constraint {
    type V = ConstraintView;

    open spec fn view(&self) -> ConstraintView {
        match self {
            Constraint::MinBalance { account, min_amount } => ConstraintView::MinBalance {
                account: *account,
                min_amount: *min_amount,
            },
            Constraint::MaxSpend { account, max_amount } => ConstraintView::MaxSpend {
                account: *account,
                max_amount: *max_amount,
            },
            Constraint::RequireTransfer { from, to, min_amount } => ConstraintView::RequireTransfer {
                from: *from,
                to: *to,
                min_amount: *min_amount,
            },
            Constraint::RequireCall { target, method } => ConstraintView::RequireCall {
                target: *target,
                method: method@,
            },
            Constraint::CrossChainSwap {
                input_amount,
                min_output,
                destination_chain,
                destination_address,
                output_token,
            } => ConstraintView::CrossChainSwap {
                input_amount: *input_amount,
                min_output: *min_output,
                destination_chain: *destination_chain,
                destination_address: destination_address@,
                output_token: output_token@,
            },
            Constraint::Custom => ConstraintView::Custom,
        }
    }
}

/// What a user wants done, without saying how.
#[derive(Debug)]
pub struct Intent {
    pub id: u64,
    pub sender: ValidatorId,
    pub max_fee: u128,
    pub expiry_height: u64,
    pub constraints: Vec<Constraint>,
}

/// How a solver would do it.
#[derive(Debug)]
pub struct Solution {
    pub solver: ValidatorId,
    pub claimed_tip: u128,
    pub operations: Vec<UserOperation>,
}

/// For how many blocks an intent has been open.
pub open spec fn blocks_pending(current_height: u64, expiry_height: u64) -> int {
    let opened = if expiry_height >= INTENT_WINDOW {
        expiry_height - INTENT_WINDOW
    } else {
        0
    };
    if current_height >= opened {
        current_height - opened
    } else {
        0
    }
}

/// The built-in solver may step in.
pub open spec fn builtin_allowed(current_height: u64, expiry_height: u64) -> bool {
    blocks_pending(current_height, expiry_height) >= BUILTIN_SOLVER_DELAY
}

/// Whether the built-in solver may step in.
pub fn builtin_solver_allowed(current_height: u64, expiry_height: u64) -> (allowed: bool)
    ensures
        allowed == builtin_allowed(current_height, expiry_height),
{
    current_height.saturating_sub(expiry_height.saturating_sub(INTENT_WINDOW))
        >= BUILTIN_SOLVER_DELAY
}

/// Picks the solution to put into a block: an external one where there is one, and
/// the built-in solver's only after external solvers had their time.
pub fn choose_solution(
    external: Option<Solution>,
    builtin: Option<Solution>,
    current_height: u64,
    expiry_height: u64,
) -> (chosen: Option<Solution>)
    ensures
        chosen == if external is Some {
            external
        } else if builtin_allowed(current_height, expiry_height) {
            builtin
        } else {
            None
        },
{
    if external.is_some() {
        external
    } else if builtin_solver_allowed(current_height, expiry_height) {
        builtin
    } else {
        None
    }
}

/// The transfers among `actions`, in order.
pub open spec fn transfers_of(actions: Seq<ActionView>) -> Seq<(ValidatorId, u128)>
    decreases actions.len(),
{
    if actions.len() == 0 {
        Seq::empty()
    } else {
        let rest = transfers_of(actions.drop_last());
        match actions.last() {
            ActionView::Transfer { to, amount } => rest.push((to, amount)),
            _ => rest,
        }
    }
}

/// The transfers of all `operations`, in order.
pub open spec fn all_transfers(operations: Seq<OperationView>) -> Seq<(ValidatorId, u128)>
    decreases operations.len(),
{
    if operations.len() == 0 {
        Seq::empty()
    } else {
        all_transfers(operations.drop_last()) + transfers_of(operations.last().actions)
    }
}

/// The encoding of transfers: the recipient, then the amount, of each.
pub open spec fn transfer_bytes(transfers: Seq<(ValidatorId, u128)>) -> Seq<u8>
    decreases transfers.len(),
{
    if transfers.len() == 0 {
        Seq::empty()
    } else {
        transfer_bytes(transfers.drop_last()) + (transfers.last().0@ + spec_u128_to_le_bytes(
            transfers.last().1,
        ))
    }
}

/// The encoding of a constraint: a byte for its kind, then its fields.
pub open spec fn constraint_bytes(c: ConstraintView) -> Seq<u8> {
    match c {
        ConstraintView::MinBalance { account, min_amount } => seq![0u8] + account@
            + spec_u128_to_le_bytes(min_amount),
        ConstraintView::MaxSpend { account, max_amount } => seq![1u8] + account@
            + spec_u128_to_le_bytes(max_amount),
        ConstraintView::RequireTransfer { from, to, min_amount } => seq![2u8] + from@ + to@
            + spec_u128_to_le_bytes(min_amount),
        ConstraintView::RequireCall { target, method } => seq![3u8] + target@
            + spec_u32_to_le_bytes(method.len() as u32) + method,
        ConstraintView::CrossChainSwap {
            input_amount,
            min_output,
            destination_chain,
            destination_address,
            output_token,
        } => seq![4u8] + spec_u128_to_le_bytes(input_amount) + spec_u128_to_le_bytes(min_output)
            + spec_u64_to_le_bytes(destination_chain) + destination_address + output_token,
        ConstraintView::Custom => Seq::empty(),
    }
}

/// The encoding of constraints, one after the other.
pub open spec fn all_constraint_bytes(constraints: Seq<ConstraintView>) -> Seq<u8>
    decreases constraints.len(),
{
    if constraints.len() == 0 {
        Seq::empty()
    } else {
        all_constraint_bytes(constraints.drop_last()) + constraint_bytes(constraints.last())
    }
}

/// The arguments of the call that fulfils an intent: the intent, the solver and
/// its tip, the counted transfers, the counted constraints.
pub open spec fn fulfill_args(
    id: u64,
    constraints: Seq<ConstraintView>,
    solver: ValidatorId,
    claimed_tip: u128,
    operations: Seq<OperationView>,
) -> Seq<u8> {
    let transfers = all_transfers(operations);
    spec_u64_to_le_bytes(id) + solver@ + spec_u128_to_le_bytes(claimed_tip) + spec_u32_to_le_bytes(
        transfers.len() as u32,
    ) + transfer_bytes(transfers) + spec_u32_to_le_bytes(constraints.len() as u32)
        + all_constraint_bytes(constraints)
}

/// The counts of a solution and of its intent fit into their four bytes.
pub open spec fn encodable(intent: Intent, solution: Solution) -> bool {
    &&& all_transfers(views(solution.operations@)).len() <= u32::MAX
    &&& intent.constraints@.len() <= u32::MAX
    &&& forall|i: int|
        0 <= i < intent.constraints@.len() ==> ((#[trigger] intent.constraints@[i])@
            matches ConstraintView::RequireCall { method, .. } ==> method.len() <= u32::MAX)
}

/// The operation that fulfils an intent.
pub open spec fn fulfill_call(
    intent_address: ValidatorId,
    intent: Intent,
    solution: Solution,
) -> OperationView {
    system_call(
        intent.sender,
        intent_address,
        "fulfill"@,
        fulfill_args(
            intent.id,
            views(intent.constraints@),
            solution.solver,
            solution.claimed_tip,
            views(solution.operations@),
        ),
        intent.max_fee,
    )
}

proof fn transfers_prefix(operations: Seq<OperationView>, n: int)
    requires
        0 <= n <= operations.len(),
    ensures
        all_transfers(operations.take(n)).len() <= all_transfers(operations).len(),
    decreases operations.len(),
{
    if n < operations.len() {
        assert(operations.drop_last().take(n) =~= operations.take(n));
        transfers_prefix(operations.drop_last(), n);
    } else {
        assert(operations.take(n) =~= operations);
    }
}

proof fn action_transfers_prefix(actions: Seq<ActionView>, n: int)
    requires
        0 <= n <= actions.len(),
    ensures
        transfers_of(actions.take(n)).len() <= transfers_of(actions).len(),
    decreases actions.len(),
{
    if n < actions.len() {
        assert(actions.drop_last().take(n) =~= actions.take(n));
        action_transfers_prefix(actions.drop_last(), n);
    } else {
        assert(actions.take(n) =~= actions);
    }
}

proof fn transfer_bytes_push(transfers: Seq<(ValidatorId, u128)>, to: ValidatorId, amount: u128)
    ensures
        transfer_bytes(transfers.push((to, amount))) == transfer_bytes(transfers) + (to@
            + spec_u128_to_le_bytes(amount)),
{
    assert(transfers.push((to, amount)).drop_last() =~= transfers);
}

/// Appends the transfers among `actions` and returns how many there are by now.
fn append_transfers(
    out: &mut Vec<u8>,
    actions: &Vec<Action>,
    count: u32,
    Ghost(done): Ghost<Seq<(ValidatorId, u128)>>,
) -> (now: u32)
    requires
        old(out)@ == transfer_bytes(done),
        count == done.len(),
        done.len() + transfers_of(views(actions@)).len() <= u32::MAX,
    ensures
        final(out)@ == transfer_bytes(done + transfers_of(views(actions@))),
        now == done.len() + transfers_of(views(actions@)).len(),
{
    let ghost shown = views(actions@);
    let mut count: u32 = count;
    let mut i: usize = 0;
    assert(done + transfers_of(shown.take(0)) =~= done);
    while i < actions.len()
        invariant
            i <= actions@.len(),
            shown == views(actions@),
            out@ == transfer_bytes(done + transfers_of(shown.take(i as int))),
            count == done.len() + transfers_of(shown.take(i as int)).len(),
            done.len() + transfers_of(shown).len() <= u32::MAX,
        decreases actions@.len() - i,
    {
        proof {
            let next = shown.take(i + 1);
            assert(next.drop_last() =~= shown.take(i as int));
            assert(next.last() == actions@[i as int]@);
            action_transfers_prefix(shown, i + 1);
        }
        if let Action::Transfer { to, amount } = &actions[i] {
            proof {
                let sofar = done + transfers_of(shown.take(i as int));
                transfer_bytes_push(sofar, *to, *amount);
                assert(done + transfers_of(shown.take(i + 1)) =~= sofar.push((*to, *amount)));
            }
            let ghost before = out@;
            append_bytes(out, to.as_slice());
            append_bytes(out, u128_to_le_bytes(*amount).as_slice());
            assert(out@ =~= before + (to@ + spec_u128_to_le_bytes(*amount)));
            count += 1;
        } else {
            assert(transfers_of(shown.take(i + 1)) == transfers_of(shown.take(i as int)));
        }
        i += 1;
    }
    assert(shown.take(i as int) =~= shown);
    count
}

/// How many of `actions` are transfers, or more than `most`.
fn count_transfers(actions: &Vec<Action>, most: u32) -> (count: Option<u32>)
    ensures
        match count {
            Some(n) => n == transfers_of(views(actions@)).len() && n <= most,
            None => transfers_of(views(actions@)).len() > most,
        },
{
    let ghost shown = views(actions@);
    let mut count: u32 = 0;
    let mut i: usize = 0;
    assert(shown.take(0).len() == 0);
    while i < actions.len()
        invariant
            i <= actions@.len(),
            shown == views(actions@),
            count == transfers_of(shown.take(i as int)).len(),
            count <= most,
        decreases actions@.len() - i,
    {
        proof {
            let next = shown.take(i + 1);
            assert(next.drop_last() =~= shown.take(i as int));
            assert(next.last() == actions@[i as int]@);
            action_transfers_prefix(shown, i + 1);
        }
        if let Action::Transfer { .. } = &actions[i] {
            if count == most {
                return None;
            }
            count += 1;
        }
        i += 1;
    }
    assert(shown.take(i as int) =~= shown);
    Some(count)
}

/// Whether the counts of a solution and of its intent fit into their four bytes.
pub fn is_encodable(intent: &Intent, solution: &Solution) -> (ok: bool)
    ensures
        ok == encodable(*intent, *solution),
{
    let ghost operations = views(solution.operations@);
    let mut left: u32 = u32::MAX;
    let mut i: usize = 0;
    assert(operations.take(0).len() == 0);
    while i < solution.operations.len()
        invariant
            i <= solution.operations@.len(),
            operations == views(solution.operations@),
            left + all_transfers(operations.take(i as int)).len() == u32::MAX,
        decreases solution.operations@.len() - i,
    {
        proof {
            let next = operations.take(i + 1);
            assert(next.drop_last() =~= operations.take(i as int));
            assert(next.last() == solution.operations@[i as int]@);
            transfers_prefix(operations, i + 1);
        }
        match count_transfers(&solution.operations[i].actions, left) {
            Some(n) => {
                left = left - n;
            },
            None => {
                return false;
            },
        }
        i += 1;
    }
    assert(operations.take(i as int) =~= operations);
    if intent.constraints.len() as u64 > u32::MAX as u64 {
        return false;
    }
    let mut j: usize = 0;
    while j < intent.constraints.len()
        invariant
            j <= intent.constraints@.len(),
            forall|k: int|
                0 <= k < j ==> ((#[trigger] intent.constraints@[k])@
                    matches ConstraintView::RequireCall { method, .. } ==> method.len()
                    <= u32::MAX),
        decreases intent.constraints@.len() - j,
    {
        if let Constraint::RequireCall { method, .. } = &intent.constraints[j] {
            if method.len() as u64 > u32::MAX as u64 {
                assert(intent.constraints@[j as int]@ matches ConstraintView::RequireCall {
                    method,
                    ..
                } && method.len() > u32::MAX);
                return false;
            }
        }
        j += 1;
    }
    true
}

/// Appends the encoding of a constraint.
fn append_constraint(out: &mut Vec<u8>, c: &Constraint)
    requires
        c@ matches ConstraintView::RequireCall { method, .. } ==> method.len() <= u32::MAX,
    ensures
        final(out)@ == old(out)@ + constraint_bytes(c@),
{
    let ghost before = out@;
    match c {
        Constraint::MinBalance { account, min_amount } => {
            out.push(0);
            append_bytes(out, account.as_slice());
            append_bytes(out, u128_to_le_bytes(*min_amount).as_slice());
        },
        Constraint::MaxSpend { account, max_amount } => {
            out.push(1);
            append_bytes(out, account.as_slice());
            append_bytes(out, u128_to_le_bytes(*max_amount).as_slice());
        },
        Constraint::RequireTransfer { from, to, min_amount } => {
            out.push(2);
            append_bytes(out, from.as_slice());
            append_bytes(out, to.as_slice());
            append_bytes(out, u128_to_le_bytes(*min_amount).as_slice());
        },
        Constraint::RequireCall { target, method } => {
            out.push(3);
            append_bytes(out, target.as_slice());
            append_bytes(out, u32_to_le_bytes(method.len() as u32).as_slice());
            append_bytes(out, method.as_slice());
        },
        Constraint::CrossChainSwap {
            input_amount,
            min_output,
            destination_chain,
            destination_address,
            output_token,
        } => {
            out.push(4);
            append_bytes(out, u128_to_le_bytes(*input_amount).as_slice());
            append_bytes(out, u128_to_le_bytes(*min_output).as_slice());
            append_bytes(out, u64_to_le_bytes(*destination_chain).as_slice());
            append_bytes(out, destination_address.as_slice());
            append_bytes(out, output_token.as_slice());
        },
        Constraint::Custom => {},
    }
    assert(out@ =~= before + constraint_bytes(c@));
}

/// Builds the operation that fulfils an intent.
pub fn fulfill_operation(intent_address: ValidatorId, intent: &Intent, solution: &Solution) -> (op:
    UserOperation)
    requires
        encodable(*intent, *solution),
    ensures
        op@ == fulfill_call(intent_address, *intent, *solution),
{
    let ghost operations = views(solution.operations@);
    let ghost constraints = views(intent.constraints@);
    let mut transfers: Vec<u8> = Vec::new();
    let mut count: u32 = 0;
    let mut i: usize = 0;
    assert(operations.take(0).len() == 0);
    while i < solution.operations.len()
        invariant
            i <= solution.operations@.len(),
            operations == views(solution.operations@),
            all_transfers(operations).len() <= u32::MAX,
            transfers@ == transfer_bytes(all_transfers(operations.take(i as int))),
            count == all_transfers(operations.take(i as int)).len(),
        decreases solution.operations@.len() - i,
    {
        proof {
            let next = operations.take(i + 1);
            assert(next.drop_last() =~= operations.take(i as int));
            assert(next.last() == solution.operations@[i as int]@);
            transfers_prefix(operations, i + 1);
        }
        count = append_transfers(
            &mut transfers,
            &solution.operations[i].actions,
            count,
            Ghost(all_transfers(operations.take(i as int))),
        );
        i += 1;
    }
    assert(operations.take(i as int) =~= operations);
    let mut encoded: Vec<u8> = Vec::new();
    let mut j: usize = 0;
    assert(constraints.take(0).len() == 0);
    while j < intent.constraints.len()
        invariant
            j <= intent.constraints@.len(),
            constraints == views(intent.constraints@),
            encodable(*intent, *solution),
            encoded@ == all_constraint_bytes(constraints.take(j as int)),
        decreases intent.constraints@.len() - j,
    {
        proof {
            let next = constraints.take(j + 1);
            assert(next.drop_last() =~= constraints.take(j as int));
            assert(next.last() == intent.constraints@[j as int]@);
        }
        append_constraint(&mut encoded, &intent.constraints[j]);
        j += 1;
    }
    assert(constraints.take(j as int) =~= constraints);
    let mut args = u64_to_le_bytes(intent.id);
    append_bytes(&mut args, solution.solver.as_slice());
    append_bytes(&mut args, u128_to_le_bytes(solution.claimed_tip).as_slice());
    append_bytes(&mut args, u32_to_le_bytes(count).as_slice());
    append_bytes(&mut args, transfers.as_slice());
    append_bytes(&mut args, u32_to_le_bytes(intent.constraints.len() as u32).as_slice());
    append_bytes(&mut args, encoded.as_slice());
    system_operation(
        intent.sender,
        intent_address,
        "fulfill".to_string(),
        args,
        intent.max_fee,
    )
}

} // verus!
