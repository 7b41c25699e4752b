//! Rewards, targets and the chain of blocks.

use crate::sha256::zero_hash;
use crate::types::block::{after_coinbase, block_reward, created_outputs, input_hashes, is_authorized,
    spent_hashes, spent_value, transactions_verdict, BlockHeader, BlockView, Utxos};
use crate::types::blockchain::{adjusted_target, block_verdict, next_target};
use crate::types::transaction::{lemma_total_value_concat, total_value, TransactionView};
use crate::time::Timestamp;
use crate::util::merkle_root;
use vstd::arithmetic::div_mod::{lemma_div_denominator, lemma_div_is_ordered_by_denominator};
use vstd::arithmetic::power2::{lemma_pow2_pos, lemma_pow2_strictly_increases, lemma_pow2_unfold,
    pow2};
use vstd::prelude::*;

verus! {

/// The reward halves after every 210 blocks, rounded down.
pub proof fn law_reward_halves(height: nat)
    ensures
        block_reward(height + crate::HALVING_INTERVAL as nat) == block_reward(height) / 2,
        block_reward(height + 210) == block_reward(height) / 2,
{
    let n = height / crate::HALVING_INTERVAL as nat;
    let start = (crate::INITIAL_REWARD * 100_000_000) as nat;
    assert((height + crate::HALVING_INTERVAL as nat) / crate::HALVING_INTERVAL as nat == n + 1);
    lemma_pow2_unfold(n + 1);
    lemma_pow2_pos(n);
    lemma_div_denominator(start as int, pow2(n) as int, 2);
}

/// The first blocks create 50 coins of 10^8 base units each.
pub proof fn law_first_rewards(height: nat)
    requires
        height < 210,
    ensures
        block_reward(height) == 5_000_000_000,
{
    let start = (crate::INITIAL_REWARD * 100_000_000) as nat;
    vstd::arithmetic::power2::lemma2_to64();
    assert(height / crate::HALVING_INTERVAL as nat == 0);
    assert(start == 5_000_000_000 && start / 1 == start);
}

/// No block may create more than an earlier one.
pub proof fn law_reward_never_grows(earlier: nat, later: nat)
    requires
        earlier <= later,
    ensures
        block_reward(later) <= block_reward(earlier),
{
    let interval = crate::HALVING_INTERVAL as nat;
    let (a, b) = (earlier / interval, later / interval);
    let start = (crate::INITIAL_REWARD * 100_000_000) as nat;
    assert(a <= b);
    lemma_pow2_pos(a);
    if a < b {
        lemma_pow2_strictly_increases(a, b);
        lemma_div_is_ordered_by_denominator(start as int, pow2(a) as int, pow2(b) as int);
    }
}

/// An adjusted target is at least a quarter of the target before and at most four
/// times as large, and never easier than the easiest target.
pub proof fn law_target_is_bounded(blocks: Seq<BlockView>, target: nat)
    requires
        target <= crate::easiest_target()@,
    ensures
        target / 4 <= adjusted_target(blocks, target) <= target * 4,
        adjusted_target(blocks, target) <= crate::easiest_target()@,
{
}

/// Between two adjustments the target stays.
pub proof fn law_target_stays_within_an_interval(blocks: Seq<BlockView>, target: nat)
    requires
        blocks.len() as int % crate::DIFFICULTY_UPDATE_INTERVAL as int != 0,
    ensures
        adjusted_target(blocks, target) == target,
{
}

/// The adjusted target depends on the blocks of the last interval only, whatever
/// came before them.
pub proof fn law_target_depends_on_the_last_interval(
    a: Seq<BlockView>,
    b: Seq<BlockView>,
    target: nat,
)
    requires
        a.len() > 0,
        b.len() > 0,
        a.len() % 50 == 0,
        b.len() % 50 == 0,
        a.skip(a.len() - 50) == b.skip(b.len() - 50),
    ensures
        adjusted_target(a, target) == adjusted_target(b, target),
{
    let (x, y) = (a.skip(a.len() - 50), b.skip(b.len() - 50));
    assert(x[0] == a[a.len() - 50] && y[0] == b[b.len() - 50]);
    assert(x[49] == a.last() && y[49] == b.last());
}

/// If the first and the last block of an interval are 500 seconds apart, which is
/// the time that the interval should take, the target stays.
pub proof fn law_ideal_interval_keeps_the_target(blocks: Seq<BlockView>, target: nat)
    requires
        blocks.len() > 0,
        blocks.len() % 50 == 0,
        target <= crate::easiest_target()@,
        blocks[blocks.len() - 1].header.timestamp.elapsed_since(
            blocks[blocks.len() - 50].header.timestamp,
        ) == 500,
    ensures
        adjusted_target(blocks, target) == target,
{
    law_ideal_time_keeps_the_target(target);
}

/// At the end of an interval the target moves in proportion to the seconds between
/// the first and the last block of the interval, of which there should be 500. It
/// falls to a quarter at most, rises to four times as much at most, and not above
/// the easiest target.
pub proof fn law_target_moves_in_proportion(blocks: Seq<BlockView>, target: nat, seconds: int)
    requires
        blocks.len() > 0,
        blocks.len() % 50 == 0,
        seconds == blocks[blocks.len() - 1].header.timestamp.elapsed_since(
            blocks[blocks.len() - 50].header.timestamp,
        ),
    ensures
        ({
            let new = adjusted_target(blocks, target);
            let easiest = crate::easiest_target()@;
            let raw = (target * seconds) / 500;
            &&& raw < target / 4 ==> new == if target / 4 < easiest { target / 4 } else { easiest }
            &&& raw > target * 4 ==> new == if target * 4 < easiest { target * 4 } else { easiest }
            &&& target / 4 <= raw <= target * 4 && raw >= easiest ==> new == easiest
            &&& target / 4 <= raw <= target * 4 && raw < easiest ==> 500 * new <= target * seconds
                < 500 * (new + 1)
        }),
{
    law_next_target(target, seconds);
}

/// The target that follows a target moves in proportion to the seconds that the last
/// blocks took, of which there should be 500, within the same bounds.
pub proof fn law_next_target(target: nat, seconds: int)
    ensures
        ({
            let new = next_target(target, seconds);
            let easiest = crate::easiest_target()@;
            let raw = (target * seconds) / 500;
            &&& raw < target / 4 ==> new == if target / 4 < easiest { target / 4 } else { easiest }
            &&& raw > target * 4 ==> new == if target * 4 < easiest { target * 4 } else { easiest }
            &&& target / 4 <= raw <= target * 4 && raw >= easiest ==> new == easiest
            &&& target / 4 <= raw <= target * 4 && raw < easiest ==> 500 * new <= target * seconds
                < 500 * (new + 1)
        }),
{
    let product = target * seconds;
    assert(500 * (product / 500) <= product < 500 * (product / 500 + 1));
}

/// The easiest target is 2 to the power of 240, less one.
pub proof fn law_easiest_target()
    ensures
        crate::easiest_target()@ + 1
            == 0x1_0000_0000_0000_0000_0000_0000_0000nat * crate::u256::half_range(),
{
}

/// If the blocks of an interval took the time that they should, the target stays.
pub proof fn law_ideal_time_keeps_the_target(target: nat)
    requires
        target <= crate::easiest_target()@,
    ensures
        next_target(
            target,
            (crate::IDEAL_BLOCK_TIME * crate::DIFFICULTY_UPDATE_INTERVAL) as int,
        ) == target,
{
    let n = (crate::IDEAL_BLOCK_TIME * crate::DIFFICULTY_UPDATE_INTERVAL) as int;
    assert(n == 500);
    assert((target * 500) / 500 == target);
}

/// The slower the blocks of an interval were, the easier the next target is.
pub proof fn law_slower_is_easier(target: nat, elapsed: int, longer: int)
    requires
        elapsed <= longer,
    ensures
        next_target(target, elapsed) <= next_target(target, longer),
{
    let t = target as int;
    assert(t * elapsed <= t * longer) by (nonlinear_arith)
        requires
            t >= 0,
            elapsed <= longer,
    ;
    let n = (crate::IDEAL_BLOCK_TIME * crate::DIFFICULTY_UPDATE_INTERVAL) as int;
    assert(n == 500);
    let (a, b) = (t * elapsed, t * longer);
    assert(a / 500 <= b / 500);
}

/// Whether every block was fit to be appended to those before it.
pub open spec fn is_chain(blocks: Seq<BlockView>) -> bool {
    forall|i: int|
        0 <= i < blocks.len() ==> block_verdict(#[trigger] blocks.take(i), blocks[i]) is Ok
}

/// A chain stays a chain when a block that is fit for it is appended.
pub proof fn law_chain_stays_a_chain(blocks: Seq<BlockView>, block: BlockView)
    requires
        is_chain(blocks),
        block_verdict(blocks, block) is Ok,
    ensures
        is_chain(blocks.push(block)),
{
    let longer = blocks.push(block);
    assert forall|i: int| 0 <= i < longer.len() implies block_verdict(
        #[trigger] longer.take(i),
        longer[i],
    ) is Ok by {
        if i < blocks.len() {
            assert(longer.take(i) =~= blocks.take(i));
        } else {
            assert(longer.take(i) =~= blocks);
        }
    }
}

/// Every block of a chain refers to its predecessor, the first to the zero hash.
/// All but the first meet their targets and carry the Merkle root of their
/// transactions.
pub proof fn law_blocks_are_linked(blocks: Seq<BlockView>, i: int)
    requires
        is_chain(blocks),
        0 <= i < blocks.len(),
    ensures
        blocks[i].header.prev_block_hash == if i == 0 {
            zero_hash()
        } else {
            blocks[i - 1].id()
        },
        i > 0 ==> blocks[i].header.meets_target(),
        i > 0 ==> blocks[i].header.merkle_root == merkle_root(blocks[i].transactions),
{
    assert(block_verdict(blocks.take(i), blocks[i]) is Ok);
    if i > 0 {
        assert(blocks.take(i).last() == blocks[i - 1]);
    }
}

/// Later blocks of a chain carry later timestamps.
pub proof fn law_timestamps_increase(blocks: Seq<BlockView>, i: int, j: int)
    requires
        is_chain(blocks),
        0 <= i < j < blocks.len(),
    ensures
        blocks[j].header.timestamp.is_after(blocks[i].header.timestamp),
    decreases j - i,
{
    assert(block_verdict(blocks.take(j), blocks[j]) is Ok);
    assert(blocks.take(j).last() == blocks[j - 1]);
    if i < j - 1 {
        law_timestamps_increase(blocks, i, j - 1);
    }
}

/// Mining changes the nonce and the timestamp of a header at most.
pub proof fn law_mining_keeps_the_block(
    start: BlockHeader,
    steps: nat,
    renewed: Timestamp,
    found: bool,
    end: BlockHeader,
)
    requires
        start.mining_ends(steps, renewed, found, end),
    ensures
        end == (BlockHeader { nonce: end.nonce, timestamp: end.timestamp, ..start }),
        end.timestamp == start.timestamp || end.timestamp == renewed,
        found <==> end.meets_target(),
{
    if !found {
        assert(!start.candidate(steps, renewed).meets_target());
    }
}

/// A search that begins where an unsuccessful one ended tries the headers that
/// follow, as one longer search does.
pub proof fn law_mining_resumes(
    start: BlockHeader,
    steps: nat,
    more: nat,
    found: bool,
    middle: BlockHeader,
    end: BlockHeader,
)
    requires
        start.nonce + steps + more <= u64::MAX,
        start.mining_ends(steps, start.timestamp, false, middle),
        middle.mining_ends(more, start.timestamp, found, end),
    ensures
        start.mining_ends(steps + more, start.timestamp, found, end),
{
    let t = start.timestamp;
    assert forall|k: nat| k <= more implies #[trigger] middle.candidate(k, t) == start.candidate(
        steps + k,
        t,
    ) by {
    }
    assert forall|j: nat| j <= steps implies !(#[trigger] start.candidate(j, t)).meets_target() by {
    }
    if found {
        let k = choose|k: nat|
            {
                &&& k <= more
                &&& end == #[trigger] middle.candidate(k, t)
                &&& end.meets_target()
                &&& forall|j: nat| j < k ==> !(#[trigger] middle.candidate(j, t)).meets_target()
            };
        assert(end == start.candidate(steps + k, t));
        assert forall|j: nat| j < steps + k implies !(#[trigger] start.candidate(
            j,
            t,
        )).meets_target() by {
            if j > steps {
                assert(middle.candidate((j - steps) as nat, t) == start.candidate(j, t));
            }
        }
    } else {
        assert(middle.candidate(more, t) == start.candidate(steps + more, t));
        assert forall|j: nat| j <= steps + more implies !(#[trigger] start.candidate(
            j,
            t,
        )).meets_target() by {
            if j > steps {
                assert(middle.candidate((j - steps) as nat, t) == start.candidate(j, t));
            }
        }
    }
}

/// The outputs of several transactions are worth what those of the first are, and
/// what those of the others are.
proof fn lemma_created_first(transactions: Seq<TransactionView>)
    requires
        transactions.len() > 0,
    ensures
        total_value(created_outputs(transactions)) == total_value(transactions[0].outputs)
            + total_value(created_outputs(transactions.skip(1))),
    decreases transactions.len(),
{
    let rest = transactions.skip(1);
    lemma_total_value_concat(
        created_outputs(transactions.drop_last()),
        transactions.last().outputs,
    );
    if transactions.len() == 1 {
        assert(transactions.drop_last() =~= Seq::empty());
        assert(created_outputs(transactions.drop_last()) =~= Seq::empty());
        assert(rest =~= Seq::empty());
    } else {
        assert(transactions.drop_last().skip(1) =~= rest.drop_last());
        assert(rest.last() == transactions.last());
        lemma_created_first(transactions.drop_last());
        lemma_total_value_concat(created_outputs(rest.drop_last()), rest.last().outputs);
    }
}

/// A block that passes the check of its transactions spends no output twice and
/// creates exactly the reward: its outputs are worth what it spends and the
/// reward.
pub proof fn law_verified_block_creates_the_reward(
    transactions: Seq<TransactionView>,
    height: nat,
    utxos: Utxos,
)
    requires
        transactions_verdict(transactions, height, utxos) is Ok,
    ensures
        spent_hashes(after_coinbase(transactions)).no_duplicates(),
        total_value(created_outputs(transactions)) == spent_value(
            spent_hashes(after_coinbase(transactions)),
            utxos,
        ) + block_reward(height),
{
    lemma_created_first(transactions);
}

/// In a block that passes the check of its transactions, every transaction after
/// the coinbase is signed by the owners of what it spends, and creates no more
/// than it spends.
pub proof fn law_verified_transactions_are_authorized(
    transactions: Seq<TransactionView>,
    height: nat,
    utxos: Utxos,
    t: int,
)
    requires
        transactions_verdict(transactions, height, utxos) is Ok,
        1 <= t < transactions.len(),
    ensures
        is_authorized(transactions[t], utxos),
        total_value(transactions[t].outputs) <= spent_value(
            input_hashes(transactions[t].inputs),
            utxos,
        ),
{
}

} // verus!
