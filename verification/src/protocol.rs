//! The wire-level values the peer protocol speaks in, held as plain data.

use vstd::prelude::*;

verus! {

/// Thirty-two bytes: a coin id, a puzzle hash or a header hash.
#[derive(Clone, Copy, Debug, Eq)]
pub struct Bytes32 {
    pub bytes: [u8; 32],
}

impl View for Bytes32 {
    type V = Seq<u8>;

    open spec fn view(&self) -> Seq<u8> {
        self.bytes@
    }
}

impl PartialEq for Bytes32 {
    fn eq(&self, other: &Self) -> (same: bool) {
        let mut i: usize = 0;
        while i < 32
            invariant
                i <= 32,
                forall|j: int| 0 <= j < i ==> self.bytes@[j] == other.bytes@[j],
            decreases 32 - i,
        {
            if self.bytes[i] != other.bytes[i] {
                return false;
            }
            i = i + 1;
        }
        assert(self.bytes@ =~= other.bytes@);
        assert(self.bytes =~= other.bytes);
        true
    }
}

impl vstd::std_specs::cmp::PartialEqSpecImpl for Bytes32 {
    open spec fn obeys_eq_spec() -> bool {
        true
    }

    open spec fn eq_spec(&self, other: &Self) -> bool {
        *self == *other
    }
}

/// Equal bytes are the same value.
pub broadcast proof fn lemma_bytes32_ext(a: Bytes32, b: Bytes32)
    requires
        #[trigger] a@ == #[trigger] b@,
    ensures
        a == b,
{
    assert(a.bytes =~= b.bytes);
}

impl Bytes32 {
    /// The value made of `bytes`.
    pub fn new(bytes: [u8; 32]) -> (made: Self)
        ensures
            made.bytes == bytes,
            made@ == bytes@,
    {
        Bytes32 { bytes }
    }
}

/// A coin: what it was made from, what locks it, and how much it holds.
#[derive(Clone, Copy, Debug, PartialEq, Eq)]
pub struct Coin {
    pub parent_coin_info: Bytes32,
    pub puzzle_hash: Bytes32,
    pub amount: u64,
}

/// What `chia_protocol::Coin::coin_id` returns for a coin's three fields.
pub uninterp spec fn coin_identity(parent: Seq<u8>, puzzle_hash: Seq<u8>, amount: u64) -> Seq<u8>;

impl Coin {
    /// The coin's id, as a value.
    pub open spec fn id(self) -> Bytes32 {
        choose|id: Bytes32|
            #[trigger] id@ == coin_identity(self.parent_coin_info@, self.puzzle_hash@, self.amount)
    }

    /// The coin's id: the hash of its parent, puzzle hash and amount.
    pub fn coin_id(&self) -> (id: Bytes32)
        ensures
            id == self.id(),
            id@ == coin_identity(self.parent_coin_info@, self.puzzle_hash@, self.amount),
    {
        let id = hashed_coin(self);
        proof {
            lemma_bytes32_ext(id, self.id());
        }
        id
    }
}

/// Calls `chia_protocol::Coin::coin_id`, which hashes the parent id, the puzzle hash and the
/// amount. The claim is that the result is a function of those three alone.
#[verifier::external_body]
fn hashed_coin(coin: &Coin) -> (id: Bytes32)
    ensures
        id@ == coin_identity(coin.parent_coin_info@, coin.puzzle_hash@, coin.amount),
{
    let parent = chia_protocol::Bytes32::new(coin.parent_coin_info.bytes);
    let puzzle_hash = chia_protocol::Bytes32::new(coin.puzzle_hash.bytes);
    Bytes32 { bytes: chia_protocol::Coin::new(parent, puzzle_hash, coin.amount).coin_id().to_bytes() }
}

/// Where a coin stands on the chain: the heights it was created and spent at, where known.
#[derive(Clone, Copy, Debug, PartialEq, Eq)]
pub struct CoinState {
    pub coin: Coin,
    pub spent_height: Option<u32>,
    pub created_height: Option<u32>,
}

/// A spend of a coin: the program that locked it and what that program was run on.
#[derive(Debug, PartialEq, Eq)]
pub struct CoinSpend {
    pub coin: Coin,
    pub puzzle_reveal: Vec<u8>,
    pub solution: Vec<u8>,
}

/// Spends that stand or fall together, and the signature over all of them.
#[derive(Debug, PartialEq, Eq)]
pub struct SpendBundle {
    pub coin_spends: Vec<CoinSpend>,
    pub aggregated_signature: [u8; 96],
}

/// A peer's answer to a question for the spend of a coin.
#[derive(Debug, PartialEq, Eq)]
pub struct PuzzleSolution {
    /// The coin the answer is about. The coin itself is not part of the answer.
    pub coin_name: Bytes32,
    pub puzzle: Vec<u8>,
    pub solution: Vec<u8>,
}

/// One page of a walk through the coins at some puzzle hashes.
#[derive(Debug, PartialEq, Eq)]
pub struct PuzzleStatePage {
    pub coin_states: Vec<CoinState>,
    /// The block the page goes up to.
    pub height: u32,
    pub header_hash: Bytes32,
    pub is_finished: bool,
}

/// What the header of a block says of it.
#[derive(Debug, PartialEq, Eq)]
pub struct HeaderBlock {
    pub header_hash: Bytes32,
    pub height: u32,
    pub weight: u128,
    pub prev_hash: Bytes32,
    pub total_iters: u128,
    pub signage_point_index: u8,
    pub farmer_puzzle_hash: Bytes32,
    pub pool_puzzle_hash: Bytes32,
    /// Only a transaction block carries one.
    pub timestamp: Option<u64>,
    pub fees: Option<u64>,
}

/// Which coins a puzzle-hash read asks for.
#[derive(Clone, Copy, Debug, PartialEq, Eq, Structural)]
pub struct CoinStateFilters {
    pub include_spent: bool,
    pub include_unspent: bool,
    pub include_hinted: bool,
    pub min_amount: u64,
}

} // verus!
