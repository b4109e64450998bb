//! A spend bundle, from the hex callers write to the bytes peers take.

use vstd::prelude::*;

use crate::hexadecimal::{parse_bytes32, parse_hex, read_bytes32, read_hex};
use crate::protocol;
use crate::types::{spends_view, ChiaQueryError, CoinSpend, ErrorView, SpendBundle, SpendView};

verus! {

/// What `chia_bls::Signature::from_bytes` makes of ninety-six bytes: nothing to object to, or the
/// text of the error.
pub uninterp spec fn signature_check(bytes: Seq<u8>) -> Result<(), Seq<char>>;

/// Calls `chia_bls::Signature::from_bytes`, which fails unless the bytes are a point of the right
/// group. The claim is that the outcome, the error's text with it, is a function of the bytes.
#[verifier::external_body]
fn check_signature(bytes: &[u8; 96]) -> (outcome: Result<(), String>)
    ensures
        match outcome {
            Ok(()) => signature_check(bytes@) == Ok::<(), Seq<char>>(()),
            Err(e) => signature_check(bytes@) == Err::<(), Seq<char>>(e@),
        },
{
    match chia_bls::Signature::from_bytes(bytes) {
        Ok(_) => Ok(()),
        Err(e) => Err(format!("{e}")),
    }
}

/// A spend as bytes.
#[verifier::ext_equal]
pub struct WireSpend {
    pub parent_coin_info: Seq<u8>,
    pub puzzle_hash: Seq<u8>,
    pub amount: u64,
    pub puzzle_reveal: Seq<u8>,
    pub solution: Seq<u8>,
}

/// `spend` as bytes.
pub open spec fn wire_spend(spend: protocol::CoinSpend) -> WireSpend {
    WireSpend {
        parent_coin_info: spend.coin.parent_coin_info@,
        puzzle_hash: spend.coin.puzzle_hash@,
        amount: spend.coin.amount,
        puzzle_reveal: spend.puzzle_reveal@,
        solution: spend.solution@,
    }
}

/// `spends` as bytes, in order.
pub open spec fn wire_spends(spends: Seq<protocol::CoinSpend>) -> Seq<WireSpend> {
    spends.map_values(|s: protocol::CoinSpend| wire_spend(s))
}

/// What a spend reads as: the first field that does not read decides the error.
pub open spec fn read_spend(spend: SpendView) -> Result<WireSpend, ErrorView> {
    match read_bytes32(spend.coin.parent_coin_info) {
        Err(e) => Err(e),
        Ok(parent_coin_info) => match read_bytes32(spend.coin.puzzle_hash) {
            Err(e) => Err(e),
            Ok(puzzle_hash) => match read_hex(spend.puzzle_reveal) {
                Err(e) => Err(e),
                Ok(puzzle_reveal) => match read_hex(spend.solution) {
                    Err(e) => Err(e),
                    Ok(solution) => Ok(
                        WireSpend {
                            parent_coin_info,
                            puzzle_hash,
                            amount: spend.coin.amount,
                            puzzle_reveal,
                            solution,
                        },
                    ),
                },
            },
        },
    }
}

/// What spends read as, up to the first that does not read.
pub open spec fn read_spends(spends: Seq<SpendView>) -> Result<Seq<WireSpend>, ErrorView>
    decreases spends.len(),
{
    if spends.len() == 0 {
        Ok(Seq::empty())
    } else {
        match read_spends(spends.drop_last()) {
            Err(e) => Err(e),
            Ok(read) => match read_spend(spends.last()) {
                Err(e) => Err(e),
                Ok(spend) => Ok(read.push(spend)),
            },
        }
    }
}

/// What a signature is taken for, once it has been checked.
pub open spec fn signature_read(checked: Result<(), Seq<char>>) -> Result<(), ErrorView> {
    match checked {
        Ok(()) => Ok(()),
        Err(e) => Err(ErrorView::InvalidRequest("bad BLS signature: "@ + e)),
    }
}

/// What a bundle reads as: its spends, then its signature.
pub open spec fn read_bundle(spends: Seq<SpendView>, signature: Seq<char>) -> Result<
    (Seq<WireSpend>, Seq<u8>),
    ErrorView,
> {
    match read_spends(spends) {
        Err(e) => Err(e),
        Ok(read) => match read_hex(signature) {
            Err(e) => Err(e),
            Ok(bytes) => if bytes.len() != 96 {
                Err(ErrorView::InvalidRequest("signature must be 96 bytes"@))
            } else {
                match signature_read(signature_check(bytes)) {
                    Err(e) => Err(e),
                    Ok(()) => Ok((read, bytes)),
                }
            },
        },
    }
}

/// Reads one spend.
pub fn to_protocol_spend(spend: &CoinSpend) -> (read: Result<protocol::CoinSpend, ChiaQueryError>)
    ensures
        match read {
            Ok(s) => read_spend(spend@) == Ok::<WireSpend, ErrorView>(wire_spend(s)),
            Err(e) => read_spend(spend@) == Err::<WireSpend, ErrorView>(e@),
        },
{
    let parent_coin_info = match parse_bytes32(spend.coin.parent_coin_info.as_str()) {
        Ok(read) => read,
        Err(e) => return Err(e),
    };
    let puzzle_hash = match parse_bytes32(spend.coin.puzzle_hash.as_str()) {
        Ok(read) => read,
        Err(e) => return Err(e),
    };
    let puzzle_reveal = match parse_hex(spend.puzzle_reveal.as_str()) {
        Ok(read) => read,
        Err(e) => return Err(e),
    };
    let solution = match parse_hex(spend.solution.as_str()) {
        Ok(read) => read,
        Err(e) => return Err(e),
    };
    let coin = protocol::Coin { parent_coin_info, puzzle_hash, amount: spend.coin.amount };
    Ok(protocol::CoinSpend { coin, puzzle_reveal, solution })
}

proof fn lemma_error_stays(spends: Seq<SpendView>, n: int)
    requires
        0 <= n <= spends.len(),
        read_spends(spends.take(n)) is Err,
    ensures
        read_spends(spends) == read_spends(spends.take(n)),
    decreases spends.len(),
{
    if n == spends.len() {
        assert(spends.take(n) =~= spends);
    } else {
        assert(spends.drop_last().take(n) =~= spends.take(n));
        lemma_error_stays(spends.drop_last(), n);
    }
}

/// Takes a checked signature, or says what is wrong with it.
pub fn take_signature(checked: Result<(), String>) -> (outcome: Result<(), ChiaQueryError>)
    ensures
        ({
            let check = match checked {
                Ok(()) => Ok::<(), Seq<char>>(()),
                Err(e) => Err::<(), Seq<char>>(e@),
            };
            match outcome {
                Ok(()) => signature_read(check) == Ok::<(), ErrorView>(()),
                Err(e) => signature_read(check) == Err::<(), ErrorView>(e@),
            }
        }),
{
    match checked {
        Ok(()) => Ok(()),
        Err(e) => {
            let message = String::from_str("bad BLS signature: ").concat(e.as_str());
            Err(ChiaQueryError::InvalidRequest(message))
        },
    }
}

/// Reads a bundle into what a peer takes.
pub fn to_protocol_spend_bundle(bundle: &SpendBundle) -> (read: Result<
    protocol::SpendBundle,
    ChiaQueryError,
>)
    ensures
        match read {
            Ok(b) => read_bundle(spends_view(bundle.coin_spends@), bundle.aggregated_signature@)
                == Ok::<(Seq<WireSpend>, Seq<u8>), ErrorView>(
                (wire_spends(b.coin_spends@), b.aggregated_signature@),
            ),
            Err(e) => read_bundle(spends_view(bundle.coin_spends@), bundle.aggregated_signature@)
                == Err::<(Seq<WireSpend>, Seq<u8>), ErrorView>(e@),
        },
{
    let ghost all = spends_view(bundle.coin_spends@);
    let mut coin_spends: Vec<protocol::CoinSpend> = Vec::new();
    let mut i: usize = 0;
    assert(wire_spends(coin_spends@) =~= Seq::<WireSpend>::empty());
    while i < bundle.coin_spends.len()
        invariant
            i <= bundle.coin_spends.len(),
            all == spends_view(bundle.coin_spends@),
            read_spends(all.take(i as int)) == Ok::<Seq<WireSpend>, ErrorView>(
                wire_spends(coin_spends@),
            ),
        decreases bundle.coin_spends.len() - i,
    {
        assert(all.take(i + 1).drop_last() =~= all.take(i as int));
        match to_protocol_spend(&bundle.coin_spends[i]) {
            Ok(spend) => {
                assert(wire_spends(coin_spends@.push(spend)) =~= wire_spends(coin_spends@).push(
                    wire_spend(spend),
                ));
                coin_spends.push(spend);
            },
            Err(e) => {
                proof {
                    lemma_error_stays(all, i + 1);
                }
                return Err(e);
            },
        }
        i = i + 1;
    }
    assert(all.take(i as int) =~= all);
    let bytes = match parse_hex(bundle.aggregated_signature.as_str()) {
        Ok(bytes) => bytes,
        Err(e) => return Err(e),
    };
    if bytes.len() != 96 {
        return Err(ChiaQueryError::InvalidRequest(String::from_str("signature must be 96 bytes")));
    }
    let mut aggregated_signature: [u8; 96] = [0u8;96];
    let mut j: usize = 0;
    while j < 96
        invariant
            j <= 96,
            bytes.len() == 96,
            forall|k: int| 0 <= k < j ==> aggregated_signature@[k] == bytes@[k],
        decreases 96 - j,
    {
        aggregated_signature[j] = bytes[j];
        j = j + 1;
    }
    assert(aggregated_signature@ =~= bytes@);
    let checked = check_signature(&aggregated_signature);
    match take_signature(checked) {
        Ok(()) => Ok(protocol::SpendBundle { coin_spends, aggregated_signature }),
        Err(e) => Err(e),
    }
}

/// A spend reads exactly if each of its texts does, and into the bytes they write.
pub proof fn law_a_spend_reads_field_by_field(spend: SpendView)
    ensures
        read_spend(spend) is Ok <==> read_bytes32(spend.coin.parent_coin_info) is Ok
            && read_bytes32(spend.coin.puzzle_hash) is Ok && read_hex(spend.puzzle_reveal) is Ok
            && read_hex(spend.solution) is Ok,
        read_spend(spend) matches Ok(read) ==> {
            &&& read_bytes32(spend.coin.parent_coin_info) == Ok::<Seq<u8>, ErrorView>(
                read.parent_coin_info,
            )
            &&& read_bytes32(spend.coin.puzzle_hash) == Ok::<Seq<u8>, ErrorView>(read.puzzle_hash)
            &&& read_hex(spend.puzzle_reveal) == Ok::<Seq<u8>, ErrorView>(read.puzzle_reveal)
            &&& read_hex(spend.solution) == Ok::<Seq<u8>, ErrorView>(read.solution)
            &&& read.amount == spend.coin.amount
        },
{
}

/// The bytes of a spend are those of its fields.
pub proof fn law_bytes_of_a_spend(spends: Seq<protocol::CoinSpend>, i: int)
    requires
        0 <= i < spends.len(),
    ensures
        wire_spends(spends).len() == spends.len(),
        wire_spends(spends)[i].parent_coin_info == spends[i].coin.parent_coin_info@,
        wire_spends(spends)[i].puzzle_hash == spends[i].coin.puzzle_hash@,
        wire_spends(spends)[i].amount == spends[i].coin.amount,
        wire_spends(spends)[i].puzzle_reveal == spends[i].puzzle_reveal@,
        wire_spends(spends)[i].solution == spends[i].solution@,
{
}

/// Every spend of a bundle is read, each in its place, and all of them must read: the first that
/// does not decides the error.
pub proof fn law_every_spend_of_a_bundle_is_read(spends: Seq<SpendView>, i: int)
    requires
        0 <= i < spends.len(),
    ensures
        read_spends(spends) is Ok <==> forall|k: int|
            0 <= k < spends.len() ==> read_spend(#[trigger] spends[k]) is Ok,
        read_spends(spends) matches Ok(read) ==> read.len() == spends.len() && read_spend(spends[i])
            == Ok::<WireSpend, ErrorView>(read[i]),
        read_spend(spends[i]) is Err && (forall|k: int|
            0 <= k < i ==> read_spend(#[trigger] spends[k]) is Ok) ==> read_spends(spends)
            is Err && read_spends(spends)->Err_0 == read_spend(spends[i])->Err_0,
    decreases spends.len(),
{
    let init = spends.drop_last();
    let last = spends.len() - 1;
    assert forall|k: int| 0 <= k < init.len() implies init[k] == spends[k] by {}
    if init.len() > 0 {
        let k = if i < init.len() {
            i
        } else {
            0
        };
        law_every_spend_of_a_bundle_is_read(init, k);
        if forall|k: int| 0 <= k < init.len() ==> read_spend(#[trigger] init[k]) is Ok {
            assert forall|k: int| 0 <= k < last implies read_spend(#[trigger] spends[k]) is Ok by {
                assert(read_spend(init[k]) is Ok);
            }
        } else {
            let k = choose|k: int| 0 <= k < init.len() && read_spend(#[trigger] init[k]) is Err;
            assert(read_spend(spends[k]) is Err);
        }
        if i < last {
            assert(init[i] == spends[i]);
        }
    }
    assert(spends[last] == spends.last());
}

/// A bundle reads exactly if all its spends do and its signature is ninety-six bytes of hex that
/// stand for a signature. It is then read whole: all the spends, and the signature.
pub proof fn law_a_bundle_is_read_whole(spends: Seq<SpendView>, signature: Seq<char>)
    ensures
        ({
            let read = read_bundle(spends, signature);
            let bytes = read_hex(signature)->Ok_0;
            &&& read is Ok <==> read_spends(spends) is Ok && read_hex(signature) is Ok
                && bytes.len() == 96 && signature_check(bytes) is Ok
            &&& read matches Ok(bundle) ==> read_spends(spends) == Ok::<Seq<WireSpend>, ErrorView>(
                bundle.0,
            ) && bundle.1 == bytes
            &&& read_spends(spends) matches Err(e) ==> read->Err_0 == e
            &&& read_spends(spends) is Ok ==> (read_hex(signature) matches Err(e) ==> read->Err_0
                == e)
            &&& read_spends(spends) is Ok && read_hex(signature) is Ok && bytes.len() != 96
                ==> read->Err_0 == ErrorView::InvalidRequest("signature must be 96 bytes"@)
            &&& read_spends(spends) is Ok && read_hex(signature) is Ok && bytes.len() == 96 ==> (
            signature_check(bytes) matches Err(e) ==> read->Err_0 == ErrorView::InvalidRequest(
                "bad BLS signature: "@ + e,
            ))
        }),
{
}

} // verus!
