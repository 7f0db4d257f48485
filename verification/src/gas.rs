//! Gas: the budget estimated from the cost of a trial run, and the coins
//! chosen to pay.

use vstd::prelude::*;
use crate::error::ResolveError;
use crate::ident::{Address, ObjectId, ObjectRef};
use crate::snapshot::{ChainSnapshot, ObjectContents, OwnedObjectInfo, SnapshotView};

verus! {

/// What the execution of a transaction cost.
#[derive(Clone, Copy, Debug, PartialEq, Eq)]
pub struct GasCostSummary {
    pub computation_cost: u64,
    pub storage_cost: u64,
    pub storage_rebate: u64,
    pub non_refundable_storage_fee: u64,
}

/// The number of gas units, at the reference price, that an estimate adds
/// to the measured cost.
pub const GAS_SAFE_OVERHEAD: u64 = 1000;

/// The budget estimated from the cost of a trial run.
///
/// A margin of `GAS_SAFE_OVERHEAD` units at the reference price is added to
/// the computation cost, and to the net cost where that is higher: the
/// computation cost plus the storage cost less the rebate, or zero where
/// the rebate exceeds both.
pub open spec fn estimated_budget(summary: GasCostSummary, reference_gas_price: u64) -> int {
    let overhead = GAS_SAFE_OVERHEAD * reference_gas_price;
    let net = summary.computation_cost + summary.storage_cost - summary.storage_rebate;
    let with_computation = summary.computation_cost + overhead;
    let with_storage = (if net < 0 {
        0
    } else {
        net
    }) + overhead;
    if with_computation >= with_storage {
        with_computation
    } else {
        with_storage
    }
}

/// The estimate never lies under the computation cost with its margin.
pub proof fn lemma_estimate_covers_computation(summary: GasCostSummary, reference_gas_price: u64)
    ensures
        estimated_budget(summary, reference_gas_price) >= summary.computation_cost
            + GAS_SAFE_OVERHEAD * reference_gas_price,
{
}

/// Computes [`estimated_budget`] in 128 bits, where it always fits.
fn wide_gas_budget_estimate(summary: &GasCostSummary, reference_gas_price: u64) -> (estimate: u128)
    ensures
        estimate == estimated_budget(*summary, reference_gas_price),
{
    let overhead: u128 = (GAS_SAFE_OVERHEAD as u128) * (reference_gas_price as u128);
    let with_computation: u128 = summary.computation_cost as u128 + overhead;
    let gross: u128 = summary.computation_cost as u128 + summary.storage_cost as u128;
    let net: u128 = if gross >= summary.storage_rebate as u128 {
        gross - summary.storage_rebate as u128
    } else {
        0
    };
    let with_storage: u128 = net + overhead;
    if with_computation >= with_storage {
        with_computation
    } else {
        with_storage
    }
}

/// Estimates the budget from the cost of a trial run, where it fits in 64
/// bits.
pub fn checked_gas_budget_estimate(summary: &GasCostSummary, reference_gas_price: u64) -> (budget:
    Option<u64>)
    ensures
        match budget {
            Some(estimate) => estimate == estimated_budget(*summary, reference_gas_price),
            None => estimated_budget(*summary, reference_gas_price) > u64::MAX,
        },
{
    let estimate = wide_gas_budget_estimate(summary, reference_gas_price);
    if estimate <= u64::MAX as u128 {
        Some(estimate as u64)
    } else {
        None
    }
}

/// Estimates the budget from the cost of a trial run.
pub fn estimate_gas_budget_from_gas_cost(
    gas_cost_summary: &GasCostSummary,
    reference_gas_price: u64,
) -> (budget: u64)
    requires
        estimated_budget(*gas_cost_summary, reference_gas_price) <= u64::MAX,
    ensures
        budget == estimated_budget(*gas_cost_summary, reference_gas_price),
        budget >= gas_cost_summary.computation_cost + GAS_SAFE_OVERHEAD * reference_gas_price,
{
    wide_gas_budget_estimate(gas_cost_summary, reference_gas_price) as u64
}

/// The gas coin behind an entry of the index of owned objects, with its
/// balance: the entry must be typed as a gas coin and must not be one of
/// `input_objects`, and the latest version of its object must be a gas
/// coin.
pub open spec fn gas_coin_of(
    snapshot: SnapshotView,
    info: OwnedObjectInfo,
    input_objects: Seq<ObjectId>,
) -> Option<(ObjectRef, u64)> {
    if info.is_gas_coin && !input_objects.contains(info.object_id) {
        match snapshot.latest(info.object_id) {
            Some(object) => match object.contents {
                ObjectContents::GasCoin { balance } => Some((object.reference(), balance)),
                _ => None,
            },
            None => None,
        }
    } else {
        None
    }
}

/// Whether one of `coins` is the object `id`.
pub open spec fn holds_coin(coins: Seq<(ObjectRef, u64)>, id: ObjectId) -> bool {
    exists|i: int| 0 <= i < coins.len() && (#[trigger] coins[i]).0.id == id
}

/// The gas coins behind `infos`, in their order. An object that the index
/// lists more than once counts where it is listed first.
pub open spec fn gas_coins_among(
    snapshot: SnapshotView,
    infos: Seq<OwnedObjectInfo>,
    input_objects: Seq<ObjectId>,
) -> Seq<(ObjectRef, u64)>
    decreases infos.len(),
{
    if infos.len() == 0 {
        Seq::empty()
    } else {
        let earlier = gas_coins_among(snapshot, infos.drop_last(), input_objects);
        match gas_coin_of(snapshot, infos.last(), input_objects) {
            Some(coin) => if holds_coin(earlier, coin.0.id) {
                earlier
            } else {
                earlier.push(coin)
            },
            None => earlier,
        }
    }
}

/// The gas coins of `owner` that are free to pay for a transaction with
/// the inputs `input_objects`, in the order of the index.
pub open spec fn eligible_gas_coins(
    snapshot: SnapshotView,
    owner: Address,
    input_objects: Seq<ObjectId>,
) -> Seq<(ObjectRef, u64)> {
    gas_coins_among(snapshot, snapshot.owned_by(owner), input_objects)
}

/// The sum of the balances of `coins`.
pub open spec fn total_value(coins: Seq<(ObjectRef, u64)>) -> int
    decreases coins.len(),
{
    if coins.len() == 0 {
        0
    } else {
        total_value(coins.drop_last()) + coins.last().1
    }
}

/// The references of `coins`.
pub open spec fn coin_references(coins: Seq<(ObjectRef, u64)>) -> Seq<ObjectRef> {
    Seq::new(coins.len(), |i: int| coins[i].0)
}

/// Whether the first `count` of `coins` may be taken, given that at most
/// `max_gas_payment_objects` may pay.
pub open spec fn may_take(coins: Seq<(ObjectRef, u64)>, max_gas_payment_objects: u32, count: int)
    -> bool {
    0 <= count <= coins.len() && count <= max_gas_payment_objects
}

/// Whether taking the first `count` of `coins` is the selection for
/// `budget`: they cover the budget, and no fewer do.
pub open spec fn is_selection(
    coins: Seq<(ObjectRef, u64)>,
    budget: u64,
    max_gas_payment_objects: u32,
    count: int,
) -> bool {
    &&& may_take(coins, max_gas_payment_objects, count)
    &&& total_value(coins.take(count)) >= budget
    &&& forall|fewer: int| 0 <= fewer < count ==> total_value(#[trigger] coins.take(fewer)) < budget
}

/// Whether no number of `coins` that may be taken covers `budget`.
pub open spec fn cannot_cover(coins: Seq<(ObjectRef, u64)>, budget: u64, max_gas_payment_objects: u32)
    -> bool {
    forall|count: int|
        may_take(coins, max_gas_payment_objects, count) ==> total_value(
            #[trigger] coins.take(count),
        ) < budget
}

/// Every gas coin behind `infos` is the latest version of an object that
/// is none of `input_objects`.
pub proof fn lemma_gas_coins_avoid_inputs(
    snapshot: SnapshotView,
    infos: Seq<OwnedObjectInfo>,
    input_objects: Seq<ObjectId>,
)
    requires
        snapshot.consistent(),
    ensures
        forall|i: int|
            0 <= i < gas_coins_among(snapshot, infos, input_objects).len()
                ==> !input_objects.contains(
                (#[trigger] gas_coins_among(snapshot, infos, input_objects)[i]).0.id,
            ),
    decreases infos.len(),
{
    if infos.len() > 0 {
        lemma_gas_coins_avoid_inputs(snapshot, infos.drop_last(), input_objects);
        let info = infos.last();
        let earlier = gas_coins_among(snapshot, infos.drop_last(), input_objects);
        let coins = gas_coins_among(snapshot, infos, input_objects);
        assert forall|i: int| 0 <= i < coins.len() implies !input_objects.contains(
            (#[trigger] coins[i]).0.id,
        ) by {
            if i < earlier.len() {
                assert(coins[i] == earlier[i]);
            } else {
                let version = choose|version: u64|
                    snapshot.is_latest_version(info.object_id, version);
                assert(snapshot.objects.contains_key((info.object_id, version)));
                assert(snapshot.latest(info.object_id)->0.id == info.object_id);
                assert(coins[i].0.id == info.object_id);
            }
        }
    }
}

/// No object stands twice among the gas coins behind `infos`.
pub proof fn lemma_gas_coins_are_distinct(
    snapshot: SnapshotView,
    infos: Seq<OwnedObjectInfo>,
    input_objects: Seq<ObjectId>,
)
    ensures
        forall|i: int, j: int|
            0 <= i < j < gas_coins_among(snapshot, infos, input_objects).len() ==> (
            #[trigger] gas_coins_among(snapshot, infos, input_objects)[i]).0.id != (
            #[trigger] gas_coins_among(snapshot, infos, input_objects)[j]).0.id,
    decreases infos.len(),
{
    if infos.len() > 0 {
        lemma_gas_coins_are_distinct(snapshot, infos.drop_last(), input_objects);
        let earlier = gas_coins_among(snapshot, infos.drop_last(), input_objects);
        let coins = gas_coins_among(snapshot, infos, input_objects);
        assert forall|i: int, j: int| 0 <= i < j < coins.len() implies (#[trigger] coins[i]).0.id
            != (#[trigger] coins[j]).0.id by {
            assert(coins[i] == earlier[i]);
            if j < earlier.len() {
                assert(coins[j] == earlier[j]);
            } else {
                assert(!holds_coin(earlier, coins[j].0.id));
            }
        }
    }
}

/// Whether `id` is one of `ids`.
pub fn contains_id(ids: &Vec<ObjectId>, id: &ObjectId) -> (found: bool)
    ensures
        found == ids@.contains(*id),
{
    let mut i: usize = 0;
    while i < ids.len()
        invariant
            i <= ids.len(),
            forall|j: int| 0 <= j < i ==> ids@[j] != *id,
        decreases ids.len() - i,
    {
        if ids[i] == *id {
            return true;
        }
        i += 1;
    }
    false
}

/// Computes [`holds_coin`].
pub fn holds_coin_with_id(coins: &Vec<(ObjectRef, u64)>, id: &ObjectId) -> (found: bool)
    ensures
        found == holds_coin(coins@, *id),
{
    let mut i: usize = 0;
    while i < coins.len()
        invariant
            i <= coins.len(),
            forall|j: int| 0 <= j < i ==> coins@[j].0.id != *id,
        decreases coins.len() - i,
    {
        if coins[i].0.id == *id {
            return true;
        }
        i += 1;
    }
    false
}

/// Lists the gas coins of `owner` that are free to pay for a transaction
/// with the inputs `input_objects`, each once and with its balance.
pub fn gas_coins(reader: &ChainSnapshot, owner: Address, input_objects: &Vec<ObjectId>) -> (coins:
    Vec<(ObjectRef, u64)>)
    ensures
        coins@ == eligible_gas_coins(reader@, owner, input_objects@),
{
    let infos = reader.account_owned_objects_info(&owner);
    let mut coins: Vec<(ObjectRef, u64)> = Vec::new();
    let mut i: usize = 0;
    proof {
        assert(infos@.take(0) =~= Seq::<OwnedObjectInfo>::empty());
    }
    while i < infos.len()
        invariant
            i <= infos@.len(),
            coins@ == gas_coins_among(reader@, infos@.take(i as int), input_objects@),
        decreases infos@.len() - i,
    {
        let info = infos[i];
        proof {
            assert(infos@.take(i + 1).drop_last() =~= infos@.take(i as int));
            assert(infos@.take(i + 1).last() == info);
        }
        if info.is_gas_coin && !contains_id(input_objects, &info.object_id) {
            match reader.get_object(&info.object_id) {
                Some(object) => match object.contents {
                    ObjectContents::GasCoin { balance } => {
                        if !holds_coin_with_id(&coins, &object.id) {
                            coins.push((object.compute_object_reference(), balance));
                        }
                    },
                    _ => {},
                },
                None => {},
            }
        }
        i += 1;
    }
    proof {
        assert(infos@.take(i as int) =~= infos@);
    }
    coins
}

/// Takes coins from the front of `coins` until they cover `budget`, at
/// most `max_gas_payment_objects` of them. Returns `None` where the coins
/// that may be taken do not cover the budget.
pub fn select_coins(
    coins: &Vec<(ObjectRef, u64)>,
    budget: u64,
    max_gas_payment_objects: u32,
) -> (selected: Option<Vec<ObjectRef>>)
    ensures
        match selected {
            Some(references) => is_selection(
                coins@,
                budget,
                max_gas_payment_objects,
                references@.len() as int,
            ) && references@ == coin_references(coins@.take(references@.len() as int)),
            None => cannot_cover(coins@, budget, max_gas_payment_objects),
        },
{
    let mut selected: Vec<ObjectRef> = Vec::new();
    let mut value: u128 = 0;
    let mut i: usize = 0;
    proof {
        assert(coins@.take(0) =~= Seq::<(ObjectRef, u64)>::empty());
        assert(selected@ =~= coin_references(coins@.take(0)));
    }
    while value < budget as u128 && i < coins.len() && i < max_gas_payment_objects as usize
        invariant
            may_take(coins@, max_gas_payment_objects, i as int),
            value == total_value(coins@.take(i as int)),
            selected@ == coin_references(coins@.take(i as int)),
            forall|fewer: int|
                0 <= fewer < i ==> total_value(#[trigger] coins@.take(fewer)) < budget,
        decreases coins@.len() - i,
    {
        let coin = coins[i];
        proof {
            assert(coins@.take(i + 1).drop_last() =~= coins@.take(i as int));
            assert(coins@.take(i + 1).last() == coin);
        }
        selected.push(coin.0);
        value = value + coin.1 as u128;
        i += 1;
        proof {
            assert(selected@ =~= coin_references(coins@.take(i as int)));
        }
    }
    if value >= budget as u128 {
        Some(selected)
    } else {
        None
    }
}

/// Chooses the coins that pay for a transaction: the gas coins of `owner`
/// that are none of `input_objects`, each once, in the order of the index,
/// from the first on until they cover `budget`, and at most
/// `max_gas_payment_objects` of them.
pub fn select_gas(
    reader: &ChainSnapshot,
    owner: Address,
    budget: u64,
    max_gas_payment_objects: u32,
    input_objects: &Vec<ObjectId>,
) -> (selected: Result<Vec<ObjectRef>, ResolveError>)
    ensures
        match selected {
            Ok(references) => {
                &&& is_selection(
                    eligible_gas_coins(reader@, owner, input_objects@),
                    budget,
                    max_gas_payment_objects,
                    references@.len() as int,
                )
                &&& references@ == coin_references(
                    eligible_gas_coins(reader@, owner, input_objects@).take(
                        references@.len() as int,
                    ),
                )
                &&& forall|i: int|
                    0 <= i < references@.len() ==> !input_objects@.contains(
                        (#[trigger] references@[i]).id,
                    )
                &&& forall|i: int, j: int|
                    0 <= i < j < references@.len() ==> (#[trigger] references@[i]).id != (
                    #[trigger] references@[j]).id
            },
            Err(error) => {
                &&& cannot_cover(
                    eligible_gas_coins(reader@, owner, input_objects@),
                    budget,
                    max_gas_payment_objects,
                )
                &&& error == ResolveError::InsufficientResources { owner, budget }
            },
        },
{
    let coins = gas_coins(reader, owner, input_objects);
    match select_coins(&coins, budget, max_gas_payment_objects) {
        Some(references) => {
            proof {
                reader.lemma_view_consistent();
                lemma_gas_coins_avoid_inputs(reader@, reader@.owned_by(owner), input_objects@);
                lemma_gas_coins_are_distinct(reader@, reader@.owned_by(owner), input_objects@);
                assert forall|i: int| 0 <= i < references@.len() implies (
                #[trigger] references@[i]) == coins@[i].0 by {
                    assert(references@[i] == coins@.take(references@.len() as int)[i].0);
                    assert(coins@.take(references@.len() as int)[i] == coins@[i]);
                }
            }
            Ok(references)
        },
        None => Err(ResolveError::InsufficientResources { owner, budget }),
    }
}

} // verus!
