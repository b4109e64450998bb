//! From what peers send to what queries answer with.

use vstd::prelude::*;

use crate::hexadecimal::{hex32, hex_of, hex_text, prefixed};
use crate::json::Value;
use crate::protocol::{self, Bytes32, CoinState, HeaderBlock};
use crate::types::{
    records_view, AdditionsAndRemovals, BlockRecord, Coin, CoinRecord, CoinSpend, CoinView, MempoolInclusion,
    RecordView, SpendView, TxStatus,
};

verus! {

/// The record a coin state stands for. A height that is not known is zero.
pub open spec fn record_of(state: CoinState) -> RecordView {
    RecordView {
        coin: CoinView::of(state.coin),
        confirmed_block_index: match state.created_height {
            Some(height) => height,
            None => 0,
        },
        spent_block_index: match state.spent_height {
            Some(height) => height,
            None => 0,
        },
        spent: state.spent_height is Some,
        coinbase: false,
        timestamp: 0,
    }
}

/// The records `states` stand for, in order.
pub open spec fn records_of(states: Seq<CoinState>) -> Seq<RecordView> {
    states.map_values(|s: CoinState| record_of(s))
}

/// The record a coin state stands for.
pub fn coin_state_to_record(state: &CoinState) -> (record: CoinRecord)
    ensures
        record@ == record_of(*state),
{
    CoinRecord {
        coin: Coin::from_protocol(&state.coin),
        confirmed_block_index: match state.created_height {
            Some(height) => height,
            None => 0,
        },
        spent_block_index: match state.spent_height {
            Some(height) => height,
            None => 0,
        },
        spent: state.spent_height.is_some(),
        coinbase: false,
        timestamp: 0,
    }
}

/// The records `states` stand for.
pub fn coin_states_to_records(states: &[CoinState]) -> (records: Vec<CoinRecord>)
    ensures
        records_view(records@) == records_of(states@),
{
    let mut records: Vec<CoinRecord> = Vec::new();
    let mut i: usize = 0;
    while i < states.len()
        invariant
            i <= states.len(),
            records_view(records@) == records_of(states@.take(i as int)),
        decreases states.len() - i,
    {
        let record = coin_state_to_record(&states[i]);
        assert(records_view(records@.push(record)) =~= records_view(records@).push(record@));
        assert(states@.take(i + 1) =~= states@.take(i as int).push(states@[i as int]));
        assert(records_of(states@.take(i + 1)) =~= records_of(states@.take(i as int)).push(
            record_of(states@[i as int]),
        ));
        records.push(record);
        i = i + 1;
    }
    assert(states@.take(i as int) =~= states@);
    records
}

/// A spend in hex.
pub fn make_coin_spend(coin: &protocol::Coin, puzzle: &[u8], solution: &[u8]) -> (spend: CoinSpend)
    ensures
        spend@ == (SpendView {
            coin: CoinView::of(*coin),
            puzzle_reveal: prefixed(puzzle@),
            solution: prefixed(solution@),
        }),
{
    CoinSpend {
        coin: Coin::from_protocol(coin),
        puzzle_reveal: hex_text(puzzle),
        solution: hex_text(solution),
    }
}

/// Whether `read` is what an acknowledgement says. Only status one is admission.
pub open spec fn is_status_of(read: TxStatus, status: u8, error: Option<String>) -> bool {
    &&& read.error == error
    &&& read.success == (status == 1)
    &&& read.inclusion == if status == 1 {
        MempoolInclusion::Admitted
    } else if status == 2 {
        MempoolInclusion::NotAdmitted
    } else if status == 3 {
        MempoolInclusion::Failed
    } else {
        MempoolInclusion::Unknown
    }
    &&& read.status@ == if status == 1 {
        "SUCCESS"@
    } else if status == 2 {
        "PENDING"@
    } else if status == 3 {
        "FAILED"@
    } else {
        "UNKNOWN"@
    }
}

/// Reads the acknowledgement of a pushed transaction. Only status one is admission.
pub fn ack_to_tx_status(status: u8, error: Option<String>) -> (read: TxStatus)
    ensures
        is_status_of(read, status, error),
{
    if status == 1 {
        TxStatus {
            status: String::from_str("SUCCESS"),
            success: true,
            inclusion: MempoolInclusion::Admitted,
            error,
        }
    } else if status == 2 {
        TxStatus {
            status: String::from_str("PENDING"),
            success: false,
            inclusion: MempoolInclusion::NotAdmitted,
            error,
        }
    } else if status == 3 {
        TxStatus {
            status: String::from_str("FAILED"),
            success: false,
            inclusion: MempoolInclusion::Failed,
            error,
        }
    } else {
        TxStatus {
            status: String::from_str("UNKNOWN"),
            success: false,
            inclusion: MempoolInclusion::Unknown,
            error,
        }
    }
}

/// A coin that the block at `height` created.
pub open spec fn created_record(
    coin: protocol::Coin,
    height: u32,
    coinbase: bool,
    timestamp: u64,
) -> RecordView {
    RecordView {
        coin: CoinView::of(coin),
        confirmed_block_index: height,
        spent_block_index: 0,
        spent: false,
        coinbase,
        timestamp,
    }
}

/// A coin that the block at `height` spent.
pub open spec fn spent_record(coin: protocol::Coin, height: u32) -> RecordView {
    RecordView {
        coin: CoinView::of(coin),
        confirmed_block_index: 0,
        spent_block_index: height,
        spent: true,
        coinbase: false,
        timestamp: 0,
    }
}

/// `coins` as created by the block at `height`.
pub open spec fn created_records(
    coins: Seq<protocol::Coin>,
    height: u32,
    coinbase: bool,
    timestamp: u64,
) -> Seq<RecordView> {
    coins.map_values(|c: protocol::Coin| created_record(c, height, coinbase, timestamp))
}

/// `coins` as spent by the block at `height`.
pub open spec fn spent_records(coins: Seq<protocol::Coin>, height: u32) -> Seq<RecordView> {
    coins.map_values(|c: protocol::Coin| spent_record(c, height))
}

/// Records `coins` as created by the block at `height`.
pub fn record_created(coins: &[protocol::Coin], height: u32, coinbase: bool, timestamp: u64) -> (
    records: Vec<CoinRecord>)
    ensures
        records_view(records@) == created_records(coins@, height, coinbase, timestamp),
{
    let mut records: Vec<CoinRecord> = Vec::new();
    let mut i: usize = 0;
    while i < coins.len()
        invariant
            i <= coins.len(),
            records_view(records@) == created_records(
                coins@.take(i as int),
                height,
                coinbase,
                timestamp,
            ),
        decreases coins.len() - i,
    {
        let record = CoinRecord {
            coin: Coin::from_protocol(&coins[i]),
            confirmed_block_index: height,
            spent_block_index: 0,
            spent: false,
            coinbase,
            timestamp,
        };
        assert(records_view(records@.push(record)) =~= records_view(records@).push(record@));
        assert(created_records(coins@.take(i + 1), height, coinbase, timestamp)
            =~= created_records(coins@.take(i as int), height, coinbase, timestamp).push(
            created_record(coins@[i as int], height, coinbase, timestamp),
        ));
        records.push(record);
        i = i + 1;
    }
    assert(coins@.take(i as int) =~= coins@);
    records
}

/// Records `coins` as spent by the block at `height`.
pub fn record_spent(coins: &[protocol::Coin], height: u32) -> (records: Vec<CoinRecord>)
    ensures
        records_view(records@) == spent_records(coins@, height),
{
    let mut records: Vec<CoinRecord> = Vec::new();
    let mut i: usize = 0;
    while i < coins.len()
        invariant
            i <= coins.len(),
            records_view(records@) == spent_records(coins@.take(i as int), height),
        decreases coins.len() - i,
    {
        let record = CoinRecord {
            coin: Coin::from_protocol(&coins[i]),
            confirmed_block_index: 0,
            spent_block_index: height,
            spent: true,
            coinbase: false,
            timestamp: 0,
        };
        assert(records_view(records@.push(record)) =~= records_view(records@).push(record@));
        assert(spent_records(coins@.take(i + 1), height) =~= spent_records(
            coins@.take(i as int),
            height,
        ).push(spent_record(coins@[i as int], height)));
        records.push(record);
        i = i + 1;
    }
    assert(coins@.take(i as int) =~= coins@);
    records
}

/// The coins a reply lists by puzzle hash, in order.
pub open spec fn listed(groups: Seq<(Bytes32, Vec<protocol::Coin>)>) -> Seq<protocol::Coin>
    decreases groups.len(),
{
    if groups.len() == 0 {
        Seq::empty()
    } else {
        listed(groups.drop_last()) + groups.last().1@
    }
}

/// The coins a reply sends for the ids it lists, in order. An id that comes without a coin is left
/// out.
pub open spec fn sent(answers: Seq<(Bytes32, Option<protocol::Coin>)>) -> Seq<protocol::Coin>
    decreases answers.len(),
{
    if answers.len() == 0 {
        Seq::empty()
    } else {
        match answers.last().1 {
            Some(coin) => sent(answers.drop_last()).push(coin),
            None => sent(answers.drop_last()),
        }
    }
}

/// Lists the coins of a reply that groups them by puzzle hash.
fn list_coins(groups: &[(Bytes32, Vec<protocol::Coin>)]) -> (coins: Vec<protocol::Coin>)
    ensures
        coins@ == listed(groups@),
{
    let mut coins: Vec<protocol::Coin> = Vec::new();
    let mut i: usize = 0;
    while i < groups.len()
        invariant
            i <= groups.len(),
            coins@ == listed(groups@.take(i as int)),
        decreases groups.len() - i,
    {
        let group = &groups[i].1;
        let ghost before = coins@;
        let mut j: usize = 0;
        assert(before + group@.take(0) =~= before);
        while j < group.len()
            invariant
                j <= group.len(),
                coins@ == before + group@.take(j as int),
            decreases group.len() - j,
        {
            assert(before + group@.take(j + 1) =~= (before + group@.take(j as int)).push(
                group@[j as int],
            ));
            coins.push(group[j]);
            j = j + 1;
        }
        assert(group@.take(j as int) =~= group@);
        assert(groups@.take(i + 1).drop_last() =~= groups@.take(i as int));
        i = i + 1;
    }
    assert(groups@.take(i as int) =~= groups@);
    coins
}

/// Lists the coins of a reply that sends one for each id, where it has it.
fn list_sent(answers: &[(Bytes32, Option<protocol::Coin>)]) -> (coins: Vec<protocol::Coin>)
    ensures
        coins@ == sent(answers@),
{
    let mut coins: Vec<protocol::Coin> = Vec::new();
    let mut i: usize = 0;
    while i < answers.len()
        invariant
            i <= answers.len(),
            coins@ == sent(answers@.take(i as int)),
        decreases answers.len() - i,
    {
        assert(answers@.take(i + 1).drop_last() =~= answers@.take(i as int));
        if let Some(coin) = answers[i].1 {
            coins.push(coin);
        }
        i = i + 1;
    }
    assert(answers@.take(i as int) =~= answers@);
    coins
}

/// What a block at `height` added and removed, as two peer replies list it: the coins it created by
/// puzzle hash, and the coins it spent by id.
pub fn additions_removals_to_response(
    additions: &[(Bytes32, Vec<protocol::Coin>)],
    removals: &[(Bytes32, Option<protocol::Coin>)],
    height: u32,
) -> (response: AdditionsAndRemovals)
    ensures
        records_view(response.additions@) == created_records(listed(additions@), height, false, 0),
        records_view(response.removals@) == spent_records(sent(removals@), height),
{
    let added = list_coins(additions);
    let removed = list_sent(removals);
    AdditionsAndRemovals {
        additions: record_created(added.as_slice(), height, false, 0),
        removals: record_spent(removed.as_slice(), height),
    }
}

/// The record a header block stands for. Weight and iterations are kept to 64 bits.
pub fn header_block_to_block_record(block: &HeaderBlock) -> (record: BlockRecord)
    ensures
        record.header_hash@ == prefixed(block.header_hash@),
        record.height == block.height,
        record.weight == block.weight as u64,
        record.prev_hash@ == prefixed(block.prev_hash@),
        record.total_iters == block.total_iters as u64,
        record.signage_point_index == block.signage_point_index,
        record.farmer_puzzle_hash@ == prefixed(block.farmer_puzzle_hash@),
        record.pool_puzzle_hash@ == prefixed(block.pool_puzzle_hash@),
        record.timestamp == block.timestamp,
        record.fees == block.fees,
        record.extra is Null,
{
    BlockRecord {
        header_hash: hex32(&block.header_hash),
        height: block.height,
        weight: #[verifier::truncate] (block.weight as u64),
        prev_hash: hex32(&block.prev_hash),
        total_iters: #[verifier::truncate] (block.total_iters as u64),
        signage_point_index: block.signage_point_index,
        farmer_puzzle_hash: hex32(&block.farmer_puzzle_hash),
        pool_puzzle_hash: hex32(&block.pool_puzzle_hash),
        timestamp: block.timestamp,
        fees: block.fees,
        extra: Value::Null,
    }
}

/// Every coin of every group is listed, group after group.
pub proof fn law_every_listed_coin_is_told(
    groups: Seq<(Bytes32, Vec<protocol::Coin>)>,
    hash: Bytes32,
    coins: Vec<protocol::Coin>,
)
    ensures
        listed(Seq::empty()).len() == 0,
        listed(groups.push((hash, coins))) == listed(groups) + coins@,
{
    assert(groups.push((hash, coins)).drop_last() =~= groups);
}

/// Every id that comes with a coin is told by that coin, in order, and one that comes without is
/// left out.
pub proof fn law_every_sent_coin_is_told(
    answers: Seq<(Bytes32, Option<protocol::Coin>)>,
    id: Bytes32,
    coin: protocol::Coin,
)
    ensures
        sent(Seq::empty()).len() == 0,
        sent(answers.push((id, Some(coin)))) == sent(answers).push(coin),
        sent(answers.push((id, None))) == sent(answers),
{
    assert(answers.push((id, Some(coin))).drop_last() =~= answers);
    assert(answers.push((id, None)).drop_last() =~= answers);
}

/// A coin state is told by a record of the same coin, created where the state says and spent exactly
/// if and where the state says; states are told one by one, in order.
pub proof fn law_record_tells_the_state(states: Seq<CoinState>, i: int)
    requires
        0 <= i < states.len(),
    ensures
        records_of(states).len() == states.len(),
        ({
            let record = records_of(states)[i];
            let state = states[i];
            &&& record == record_of(state)
            &&& record.spent <==> state.spent_height is Some
            &&& state.spent_height matches Some(height) ==> record.spent_block_index == height
            &&& state.spent_height is None ==> record.spent_block_index == 0
            &&& state.created_height matches Some(height) ==> record.confirmed_block_index
                == height
            &&& state.created_height is None ==> record.confirmed_block_index == 0
            &&& record.coin.parent_coin_info == "0x"@ + hex_of(state.coin.parent_coin_info@)
            &&& record.coin.puzzle_hash == "0x"@ + hex_of(state.coin.puzzle_hash@)
            &&& record.coin.amount == state.coin.amount
            &&& !record.coinbase && record.timestamp == 0
        }),
{
}

/// Status one is admission and success, and no other is; two is pending, three has failed, and of
/// any other nothing is known. A stated reason is kept.
pub proof fn law_acknowledgement_is_told_as_it_is(
    read: TxStatus,
    status: u8,
    error: Option<String>,
)
    requires
        is_status_of(read, status, error),
    ensures
        read.success <==> status == 1,
        read.inclusion is Admitted <==> status == 1,
        read.inclusion is NotAdmitted <==> status == 2,
        read.inclusion is Failed <==> status == 3,
        read.status@ == "SUCCESS"@ <==> status == 1,
        read.status@ == "PENDING"@ <==> status == 2,
        read.status@ == "FAILED"@ <==> status == 3,
        status == 0 || status > 3 ==> read.status@ == "UNKNOWN"@ && read.inclusion is Unknown,
        read.error == error,
{
    reveal_strlit("SUCCESS");
    reveal_strlit("PENDING");
    reveal_strlit("FAILED");
    reveal_strlit("UNKNOWN");
    assert("SUCCESS"@[0] == 'S' && "PENDING"@[0] == 'P' && "FAILED"@[0] == 'F');
    assert("UNKNOWN"@[0] == 'U');
}

/// Coins that a block created come back one by one and in order, at its height and unspent.
pub proof fn law_created_coins_come_back_unspent(
    coins: &[protocol::Coin],
    height: u32,
    coinbase: bool,
    timestamp: u64,
    records: Vec<CoinRecord>,
)
    requires
        call_ensures(record_created, (coins, height, coinbase, timestamp), records),
    ensures
        records@.len() == coins@.len(),
        forall|i: int|
            0 <= i < coins@.len() ==> {
                let record = #[trigger] records@[i];
                &&& !record.spent && record.spent_block_index == 0
                &&& record.confirmed_block_index == height
                &&& record.coinbase == coinbase
                &&& record.timestamp == timestamp
                &&& record.coin.parent_coin_info@ == "0x"@ + hex_of(coins@[i].parent_coin_info@)
                &&& record.coin.puzzle_hash@ == "0x"@ + hex_of(coins@[i].puzzle_hash@)
                &&& record.coin.amount == coins@[i].amount
            },
{
    let views = records_view(records@);
    assert(views.len() == records@.len());
    assert forall|i: int| 0 <= i < coins@.len() implies views[i] == (#[trigger] records@[i])@ by {}
}

/// Coins that a block spent come back one by one and in order, as spent at its height.
pub proof fn law_spent_coins_come_back_spent(
    coins: &[protocol::Coin],
    height: u32,
    records: Vec<CoinRecord>,
)
    requires
        call_ensures(record_spent, (coins, height), records),
    ensures
        records@.len() == coins@.len(),
        forall|i: int|
            0 <= i < coins@.len() ==> {
                let record = #[trigger] records@[i];
                &&& record.spent && record.spent_block_index == height
                &&& record.confirmed_block_index == 0
                &&& !record.coinbase && record.timestamp == 0
                &&& record.coin.parent_coin_info@ == "0x"@ + hex_of(coins@[i].parent_coin_info@)
                &&& record.coin.puzzle_hash@ == "0x"@ + hex_of(coins@[i].puzzle_hash@)
                &&& record.coin.amount == coins@[i].amount
            },
{
    let views = records_view(records@);
    assert(views.len() == records@.len());
    assert forall|i: int| 0 <= i < coins@.len() implies views[i] == (#[trigger] records@[i])@ by {}
}

/// A header block is told field by field, its hashes in hex, and numbers that fit are told as they
/// are.
pub proof fn law_a_header_block_is_told_field_by_field(block: HeaderBlock, record: BlockRecord)
    requires
        call_ensures(header_block_to_block_record, (&block,), record),
        block.weight <= u64::MAX,
        block.total_iters <= u64::MAX,
    ensures
        record.height == block.height,
        record.header_hash@ == "0x"@ + hex_of(block.header_hash@),
        record.prev_hash@ == "0x"@ + hex_of(block.prev_hash@),
        record.farmer_puzzle_hash@ == "0x"@ + hex_of(block.farmer_puzzle_hash@),
        record.pool_puzzle_hash@ == "0x"@ + hex_of(block.pool_puzzle_hash@),
        record.weight == block.weight,
        record.total_iters == block.total_iters,
        record.signage_point_index == block.signage_point_index,
        record.timestamp == block.timestamp,
        record.fees == block.fees,
{
}

} // verus!
