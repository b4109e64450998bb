//! The two unsolicited messages a session is followed for, as they stand on the wire.

use vstd::prelude::*;

use chia_traits::Streamable;

use crate::protocol::{Bytes32, Coin, CoinState};

verus! {

/// `n` as four bytes, most significant first.
pub open spec fn be_u32(n: u32) -> Seq<u8> {
    seq![
        (n / 0x100_0000) as u8,
        (n / 0x1_0000 % 0x100) as u8,
        (n / 0x100 % 0x100) as u8,
        (n % 0x100) as u8,
    ]
}

/// `n` as eight bytes, most significant first.
pub open spec fn be_u64(n: u64) -> Seq<u8> {
    be_u32((n / 0x1_0000_0000) as u32) + be_u32((n % 0x1_0000_0000) as u32)
}

/// A height that may be unknown: a zero byte, or a one byte and the height.
pub open spec fn wire_height(height: Option<u32>) -> Seq<u8> {
    match height {
        None => seq![0u8],
        Some(h) => seq![1u8] + be_u32(h),
    }
}

/// A coin state on the wire.
pub open spec fn wire_state(state: CoinState) -> Seq<u8> {
    state.coin.parent_coin_info@ + state.coin.puzzle_hash@ + be_u64(state.coin.amount)
        + wire_height(state.spent_height) + wire_height(state.created_height)
}

/// Coin states on the wire, one after another.
pub open spec fn wire_states(states: Seq<CoinState>) -> Seq<u8>
    decreases states.len(),
{
    if states.len() == 0 {
        Seq::empty()
    } else {
        wire_state(states[0]) + wire_states(states.drop_first())
    }
}

/// A `CoinStateUpdate`: what changed at a height, and the last block it agrees with.
pub struct CoinStateUpdate {
    pub height: u32,
    pub fork_height: u32,
    pub peak_hash: Bytes32,
    pub items: Vec<CoinState>,
}

/// A `CoinStateUpdate` on the wire.
pub open spec fn wire_update(
    height: u32,
    fork_height: u32,
    peak_hash: Bytes32,
    items: Seq<CoinState>,
) -> Seq<u8> {
    be_u32(height) + be_u32(fork_height) + peak_hash@ + be_u32(items.len() as u32) + wire_states(
        items,
    )
}

/// What is read of a `NewPeakWallet`: the peak announced.
#[derive(Clone, Copy)]
pub struct NewPeak {
    pub header_hash: Bytes32,
    pub height: u32,
}

/// Decodes a `NewPeakWallet` with `chia_traits::Streamable::from_bytes`.
///
/// The message is fifty-six bytes: the header hash, the height, sixteen bytes of weight and four
/// of the fork point, each number most significant byte first. Anything of another length is an
/// error, and nothing else is. The weight and the fork point are dropped.
#[verifier::external_body]
pub(crate) fn decode_new_peak(data: &[u8]) -> (peak: Option<NewPeak>)
    ensures
        peak is Some <==> data@.len() == 56,
        peak matches Some(p) ==> p.header_hash@ == data@.subrange(0, 32) && be_u32(p.height)
            == data@.subrange(32, 36),
{
    match chia_protocol::NewPeakWallet::from_bytes(data) {
        Ok(message) => Some(
            NewPeak {
                header_hash: Bytes32 { bytes: message.header_hash.to_bytes() },
                height: message.height,
            },
        ),
        Err(_) => None,
    }
}

fn state_from_parts(
    parent: [u8; 32],
    puzzle_hash: [u8; 32],
    amount: u64,
    spent_height: Option<u32>,
    created_height: Option<u32>,
) -> (state: CoinState)
    ensures
        state.coin.parent_coin_info.bytes == parent,
        state.coin.puzzle_hash.bytes == puzzle_hash,
        state.coin.amount == amount,
        state.spent_height == spent_height,
        state.created_height == created_height,
{
    CoinState {
        coin: Coin {
            parent_coin_info: Bytes32 { bytes: parent },
            puzzle_hash: Bytes32 { bytes: puzzle_hash },
            amount,
        },
        spent_height,
        created_height,
    }
}

/// Decodes a `CoinStateUpdate` with `chia_traits::Streamable::from_bytes`.
///
/// The message is the two heights, the peak hash, the number of items and the items, written one
/// after another with nothing between or behind. What decodes is exactly what would be written so.
#[verifier::external_body]
pub(crate) fn decode_coin_state_update(data: &[u8]) -> (update: Option<CoinStateUpdate>)
    ensures
        match update {
            Some(u) => u.items@.len() <= u32::MAX && data@ == wire_update(
                u.height,
                u.fork_height,
                u.peak_hash,
                u.items@,
            ),
            None => forall|height: u32, fork: u32, hash: Bytes32, items: Seq<CoinState>|
                items.len() <= u32::MAX ==> data@ != #[trigger] wire_update(
                    height,
                    fork,
                    hash,
                    items,
                ),
        },
{
    let message = chia_protocol::CoinStateUpdate::from_bytes(data).ok()?;
    let items = message.items.iter().map(
        |s| state_from_parts(s.coin.parent_coin_info.to_bytes(), s.coin.puzzle_hash.to_bytes(), s.coin.amount, s.spent_height, s.created_height),
    );
    Some(
        CoinStateUpdate {
            height: message.height,
            fork_height: message.fork_height,
            peak_hash: Bytes32 { bytes: message.peak_hash.to_bytes() },
            items: items.collect(),
        },
    )
}

proof fn lemma_same_prefix(a: Seq<u8>, x: Seq<u8>, b: Seq<u8>, y: Seq<u8>)
    requires
        a + x == b + y,
        a.len() == b.len(),
    ensures
        a == b,
        x == y,
{
    assert(a =~= (a + x).take(a.len() as int));
    assert(b =~= (b + y).take(b.len() as int));
    assert(x =~= (a + x).skip(a.len() as int));
    assert(y =~= (b + y).skip(b.len() as int));
}

proof fn lemma_be_u32(m: u32, n: u32)
    requires
        be_u32(m) == be_u32(n),
    ensures
        m == n,
{
    let a = be_u32(m);
    let b = be_u32(n);
    assert(a[0] == b[0] && a[1] == b[1] && a[2] == b[2] && a[3] == b[3]);
}

proof fn lemma_be_u64(m: u64, n: u64)
    requires
        be_u64(m) == be_u64(n),
    ensures
        m == n,
{
    let (mh, ml) = ((m / 0x1_0000_0000) as u32, (m % 0x1_0000_0000) as u32);
    let (nh, nl) = ((n / 0x1_0000_0000) as u32, (n % 0x1_0000_0000) as u32);
    lemma_same_prefix(be_u32(mh), be_u32(ml), be_u32(nh), be_u32(nl));
    lemma_be_u32(mh, nh);
    lemma_be_u32(ml, nl);
}

proof fn lemma_wire_height(a: Option<u32>, x: Seq<u8>, b: Option<u32>, y: Seq<u8>)
    requires
        wire_height(a) + x == wire_height(b) + y,
    ensures
        a == b,
        x == y,
{
    assert((wire_height(a) + x)[0] == wire_height(a)[0]);
    assert((wire_height(b) + y)[0] == wire_height(b)[0]);
    assert(wire_height(a)[0] == (if a is Some { 1u8 } else { 0u8 }));
    assert(wire_height(b)[0] == (if b is Some { 1u8 } else { 0u8 }));
    lemma_same_prefix(wire_height(a), x, wire_height(b), y);
    if a is Some {
        lemma_same_prefix(seq![1u8], be_u32(a->0), seq![1u8], be_u32(b->0));
        lemma_be_u32(a->0, b->0);
    }
}

proof fn lemma_wire_state(a: CoinState, x: Seq<u8>, b: CoinState, y: Seq<u8>)
    requires
        wire_state(a) + x == wire_state(b) + y,
    ensures
        a == b,
        x == y,
{
    let (pa, pb) = (a.coin.parent_coin_info@, b.coin.parent_coin_info@);
    let (ha, hb) = (a.coin.puzzle_hash@, b.coin.puzzle_hash@);
    let (na, nb) = (be_u64(a.coin.amount), be_u64(b.coin.amount));
    let (sa, sb) = (wire_height(a.spent_height), wire_height(b.spent_height));
    let (ca, cb) = (wire_height(a.created_height), wire_height(b.created_height));
    assert(wire_state(a) + x =~= pa + (ha + (na + (sa + (ca + x)))));
    assert(wire_state(b) + y =~= pb + (hb + (nb + (sb + (cb + y)))));
    lemma_same_prefix(pa, ha + (na + (sa + (ca + x))), pb, hb + (nb + (sb + (cb + y))));
    lemma_same_prefix(ha, na + (sa + (ca + x)), hb, nb + (sb + (cb + y)));
    lemma_same_prefix(na, sa + (ca + x), nb, sb + (cb + y));
    lemma_wire_height(a.spent_height, ca + x, b.spent_height, cb + y);
    lemma_wire_height(a.created_height, x, b.created_height, y);
    lemma_be_u64(a.coin.amount, b.coin.amount);
    crate::protocol::lemma_bytes32_ext(a.coin.parent_coin_info, b.coin.parent_coin_info);
    crate::protocol::lemma_bytes32_ext(a.coin.puzzle_hash, b.coin.puzzle_hash);
}

proof fn lemma_wire_states(a: Seq<CoinState>, b: Seq<CoinState>)
    requires
        a.len() == b.len(),
        wire_states(a) == wire_states(b),
    ensures
        a == b,
    decreases a.len(),
{
    if a.len() > 0 {
        lemma_wire_state(a[0], wire_states(a.drop_first()), b[0], wire_states(b.drop_first()));
        lemma_wire_states(a.drop_first(), b.drop_first());
        assert(a =~= seq![a[0]] + a.drop_first());
        assert(b =~= seq![b[0]] + b.drop_first());
    } else {
        assert(a =~= b);
    }
}

/// One sequence of bytes spells at most one update: what a message says is not open to reading.
pub proof fn law_wire_update_is_unambiguous(
    height: u32,
    fork: u32,
    hash: Bytes32,
    items: Seq<CoinState>,
    other_height: u32,
    other_fork: u32,
    other_hash: Bytes32,
    other_items: Seq<CoinState>,
)
    requires
        items.len() <= u32::MAX,
        other_items.len() <= u32::MAX,
        wire_update(height, fork, hash, items) == wire_update(
            other_height,
            other_fork,
            other_hash,
            other_items,
        ),
    ensures
        height == other_height,
        fork == other_fork,
        hash == other_hash,
        items == other_items,
{
    let (a, b) = (be_u32(height), be_u32(other_height));
    let (c, d) = (be_u32(fork), be_u32(other_fork));
    let (e, f) = (be_u32(items.len() as u32), be_u32(other_items.len() as u32));
    let (s, t) = (wire_states(items), wire_states(other_items));
    assert(wire_update(height, fork, hash, items) =~= a + (c + (hash@ + (e + s))));
    assert(wire_update(other_height, other_fork, other_hash, other_items) =~= b + (d + (other_hash@
        + (f + t))));
    lemma_same_prefix(a, c + (hash@ + (e + s)), b, d + (other_hash@ + (f + t)));
    lemma_same_prefix(c, hash@ + (e + s), d, other_hash@ + (f + t));
    lemma_same_prefix(hash@, e + s, other_hash@, f + t);
    lemma_same_prefix(e, s, f, t);
    lemma_be_u32(height, other_height);
    lemma_be_u32(fork, other_fork);
    lemma_be_u32(items.len() as u32, other_items.len() as u32);
    crate::protocol::lemma_bytes32_ext(hash, other_hash);
    lemma_wire_states(items, other_items);
}

} // verus!
