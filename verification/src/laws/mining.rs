//! A miner and its node.

use crate::crypto::PublicKey;
use crate::laws::chain::law_mining_keeps_the_block;
use crate::laws::node::{law_mined_template_is_accepted, takes_authorized};
use crate::miner::{round_ends, MinerView, ROUND_STEPS};
use crate::network::MessageView;
use crate::time::Timestamp;
use crate::types::block::{BlockHeader, BlockView};
use crate::types::blockchain::ChainView;
use vstd::arithmetic::div_mod::{lemma_fundamental_div_mod, lemma_fundamental_div_mod_converse,
    lemma_small_mod};
use vstd::prelude::*;

verus! {

/// A miner asks for a template when it is idle, and asks about its template, and
/// no other, while it is mining.
pub proof fn law_miner_watches_its_template(miner: MinerView, template: BlockView)
    requires
        miner.current_template == Some(template),
    ensures
        miner.request() == Some(
            if miner.mining {
                MessageView::ValidateTemplate(template)
            } else {
                MessageView::FetchTemplate(miner.public_key)
            },
        ),
{
}

/// Whether a header with another nonce and time in its place is above its target.
pub open spec fn misses(header: BlockHeader, nonce: u64, time: Timestamp) -> bool {
    let tried = BlockHeader { nonce, timestamp: time, ..header };
    tried.id().0@ > tried.target@
}

/// A search that does not pass the last nonce tries one nonce after the other, and
/// ends at the first with which the hash of the header is at most the target. If
/// there is none, it has tried as many as it was given steps.
pub proof fn law_search_tries_every_nonce(
    start: BlockHeader,
    steps: nat,
    renewed: Timestamp,
    found: bool,
    end: BlockHeader,
    nonce: u64,
)
    requires
        start.mining_ends(steps, renewed, found, end),
        start.nonce + steps <= u64::MAX,
    ensures
        end == (BlockHeader { nonce: end.nonce, ..start }),
        start.nonce <= end.nonce <= start.nonce + steps,
        start.nonce <= nonce < end.nonce ==> misses(start, nonce, start.timestamp),
        found ==> end.id().0@ <= end.target@,
        !found ==> end.nonce == start.nonce + steps && end.id().0@ > end.target@,
{
    let i = nonce - start.nonce;
    if found {
        let k = choose|k: nat|
            {
                &&& k <= steps
                &&& end == #[trigger] start.candidate(k, renewed)
                &&& end.meets_target()
                &&& forall|j: nat|
                    j < k ==> !(#[trigger] start.candidate(j, renewed)).meets_target()
            };
        assert(end.nonce == start.nonce + k);
    } else {
        assert(!start.candidate(steps, renewed).meets_target());
    }
    if start.nonce <= nonce < end.nonce {
        let tried = start.candidate(i as nat, renewed);
        assert(!tried.meets_target());
        assert(tried == BlockHeader { nonce, timestamp: start.timestamp, ..start });
    }
}

/// A search that passes the last nonce has tried all nonces that were left with the
/// old time, and goes on from nonce zero with the renewed time, one nonce after the
/// other.
pub proof fn law_search_goes_round(
    start: BlockHeader,
    steps: nat,
    renewed: Timestamp,
    found: bool,
    end: BlockHeader,
    nonce: u64,
)
    requires
        start.mining_ends(steps, renewed, found, end),
        steps <= u64::MAX < start.nonce + steps,
        forall|n: u64| start.nonce <= n ==> #[trigger] misses(start, n, start.timestamp),
    ensures
        end == (BlockHeader { nonce: end.nonce, timestamp: renewed, ..start }),
        end.nonce <= start.nonce + steps - u64::MAX - 1,
        nonce < end.nonce ==> misses(start, nonce, renewed),
        found ==> end.id().0@ <= end.target@,
        !found ==> end.nonce == start.nonce + steps - u64::MAX - 1 && end.id().0@ > end.target@,
{
    assert forall|j: nat| start.nonce + j <= u64::MAX implies !(#[trigger] start.candidate(
        j,
        start.timestamp,
    )).meets_target() by {
        assert(misses(start, (start.nonce + j) as u64, start.timestamp));
        assert(start.candidate(j, start.timestamp) == BlockHeader {
            nonce: (start.nonce + j) as u64,
            timestamp: start.timestamp,
            ..start
        });
    }
    law_mining_renews_the_time(start, steps, renewed, found, end);
    let i = (nonce + u64::MAX + 1 - start.nonce) as nat;
    if found {
        let k = choose|k: nat|
            {
                &&& k <= steps
                &&& end == #[trigger] start.candidate(k, renewed)
                &&& end.meets_target()
                &&& forall|j: nat|
                    j < k ==> !(#[trigger] start.candidate(j, renewed)).meets_target()
            };
        assert(start.nonce + k <= u64::MAX ==> end == start.candidate(k, start.timestamp));
        assert(end.nonce == start.nonce + k - u64::MAX - 1);
    } else {
        assert(!start.candidate(steps, renewed).meets_target());
    }
    if nonce < end.nonce {
        let tried = start.candidate(i, renewed);
        assert(!tried.meets_target());
        assert(tried == BlockHeader { nonce, timestamp: renewed, ..start });
    }
}

/// Mining in a range walks the range in a circle: the header that it tries after a
/// number of steps has the nonce that is as many places further, counted round.
pub proof fn law_range_is_a_circle(header: BlockHeader, i: nat, start: u64, end: u64)
    requires
        start <= header.nonce < end,
    ensures
        ({
            let tried = header.range_candidate(i, start, end);
            &&& tried == (BlockHeader { nonce: tried.nonce, ..header })
            &&& tried.nonce == start + (header.nonce - start + i) % (end - start)
        }),
    decreases i,
{
    let n = end - start;
    let place = header.nonce - start;
    if i == 0 {
        lemma_small_mod(place as nat, n as nat);
    } else {
        law_range_is_a_circle(header, (i - 1) as nat, start, end);
        let before = (place + i - 1) % n;
        lemma_mod_step(place + i - 1, n);
    }
}

/// The remainder of the next number.
proof fn lemma_mod_step(a: int, n: int)
    requires
        a >= 0,
        n > 0,
    ensures
        (a + 1) % n == if a % n + 1 < n { a % n + 1 } else { 0 },
{
    let (q, r) = (a / n, a % n);
    lemma_fundamental_div_mod(a, n);
    if r + 1 < n {
        lemma_fundamental_div_mod_converse(a + 1, n, q, r + 1);
    } else {
        assert(n * q + n == n * (q + 1)) by (nonlinear_arith);
        assert((q + 1) * n == n * (q + 1)) by (nonlinear_arith);
        assert(q * n == n * q) by (nonlinear_arith);
        lemma_fundamental_div_mod_converse(a + 1, n, q + 1, 0);
    }
}

/// Mining in a range from a nonce below the range counts up to the end of the range.
/// From the last nonce of the range, or one behind it, it goes to the start.
pub proof fn law_range_is_entered(header: BlockHeader, i: nat, start: u64, end: u64)
    ensures
        header.nonce + i < end ==> header.range_candidate(i, start, end) == (BlockHeader {
            nonce: (header.nonce + i) as u64,
            ..header
        }),
        header.nonce + 1 >= end ==> header.range_candidate(1, start, end) == (BlockHeader {
            nonce: start,
            ..header
        }),
        header.range_candidate(0, start, end) == header,
    decreases i,
{
    reveal_with_fuel(BlockHeader::range_candidate, 2);
    if i > 0 && header.nonce + i < end {
        law_range_is_entered(header, (i - 1) as nat, start, end);
    }
}

/// A search in a range that has been walked for a while goes on as one that begins
/// there.
pub proof fn law_range_goes_on(header: BlockHeader, i: nat, j: nat, start: u64, end: u64)
    ensures
        header.range_candidate(i + j, start, end) == header.range_candidate(
            i,
            start,
            end,
        ).range_candidate(j, start, end),
    decreases j,
{
    if j > 0 {
        law_range_goes_on(header, i, (j - 1) as nat, start, end);
    }
}

/// An idle miner asks for a template for its key. One that is mining without a
/// template asks nothing.
pub proof fn law_idle_miner_asks_for_work(miner: MinerView)
    ensures
        !miner.mining ==> miner.request() == Some(MessageView::FetchTemplate(miner.public_key)),
        miner.mining && miner.current_template is None ==> miner.request() is None,
{
}

/// A round of mining is a search of 10000 steps.
pub proof fn law_round_of_mining(start: BlockHeader, found: bool, end: BlockHeader, nonce: u64)
    requires
        round_ends(start, found, end),
        start.nonce + 10_000 <= u64::MAX,
    ensures
        end == (BlockHeader { nonce: end.nonce, ..start }),
        start.nonce <= end.nonce <= start.nonce + 10_000,
        start.nonce <= nonce < end.nonce ==> misses(start, nonce, start.timestamp),
        found ==> end.id().0@ <= end.target@,
        !found ==> end.nonce == start.nonce + 10_000 && end.id().0@ > end.target@,
{
    let renewed = choose|renewed: Timestamp|
        {
            &&& #[trigger] start.mining_ends(ROUND_STEPS as nat, renewed, found, end)
            &&& renewed.is_clock_time()
        };
    law_search_tries_every_nonce(start, 10_000, renewed, found, end, nonce);
}

/// A search that goes on after the last nonce goes on from nonce zero, and what it
/// ends with carries the renewed time.
pub proof fn law_mining_renews_the_time(
    start: BlockHeader,
    steps: nat,
    renewed: Timestamp,
    found: bool,
    end: BlockHeader,
)
    requires
        start.mining_ends(steps, renewed, found, end),
        steps <= u64::MAX < start.nonce + steps,
        forall|j: nat|
            start.nonce + j <= u64::MAX ==> !(#[trigger] start.candidate(
                j,
                start.timestamp,
            )).meets_target(),
    ensures
        end.timestamp == renewed,
        end.nonce <= start.nonce + steps - u64::MAX - 1,
{
    if found {
        let k = choose|k: nat|
            {
                &&& k <= steps
                &&& end == #[trigger] start.candidate(k, renewed)
                &&& end.meets_target()
                &&& forall|j: nat|
                    j < k ==> !(#[trigger] start.candidate(j, renewed)).meets_target()
            };
        assert(start.nonce + k <= u64::MAX ==> end == start.candidate(k, start.timestamp));
    }
}

/// What a search for a proof of work finds is accepted by the node that made the
/// template, as long as its chain does not change, the block is later than the last
/// one, and the waiting transactions that it takes are signed by the owners of
/// what they spend.
pub proof fn law_found_block_is_accepted(
    chain: ChainView,
    pubkey: PublicKey,
    made: Timestamp,
    made_id: u128,
    steps: nat,
    renewed: Timestamp,
    end: BlockHeader,
)
    requires
        chain.template(pubkey, made, made_id) is Some,
        chain.template(pubkey, made, made_id).unwrap().header.mining_ends(
            steps,
            renewed,
            true,
            end,
        ),
        chain.blocks.len() > 0 ==> end.timestamp.is_after(chain.blocks.last().header.timestamp),
        takes_authorized(chain),
    ensures
        chain.acceptance(
            BlockView { header: end, ..chain.template(pubkey, made, made_id).unwrap() },
        ) is Ok,
{
    let template = chain.template(pubkey, made, made_id).unwrap();
    law_mining_keeps_the_block(template.header, steps, renewed, true, end);
    law_mined_template_is_accepted(chain, pubkey, made, made_id, end);
}

} // verus!
