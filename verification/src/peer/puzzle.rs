//! Whether a puzzle reveal can be the puzzle that locked a coin.
//!
//! A coin's puzzle hash is the tree hash of the puzzle that locks it, so a wrong reveal is refuted
//! on the spot, whatever any number of peers say. Nothing in the coin commits to the solution.

use vstd::prelude::*;

use crate::hexadecimal::{hex_text, parse_hex, prefixed, read_hex};
use crate::protocol::Bytes32;
use crate::types::{ChiaQueryError, CoinSpend, ErrorView, SpendView};

verus! {

/// What `clvm_utils::tree_hash_from_bytes` returns for a serialised program: its tree hash, or
/// the text of the error.
pub uninterp spec fn program_hash(program: Seq<u8>) -> Result<Seq<u8>, Seq<char>>;

/// Calls `clvm_utils::tree_hash_from_bytes`, which parses a serialised program and hashes its
/// tree. The claim is that the outcome, the error's text with it, is a function of the bytes.
#[verifier::external_body]
pub(crate) fn tree_hash(program: &[u8]) -> (hash: Result<Bytes32, String>)
    ensures
        match hash {
            Ok(h) => program_hash(program@) == Ok::<Seq<u8>, Seq<char>>(h@),
            Err(e) => program_hash(program@) == Err::<Seq<u8>, Seq<char>>(e@),
        },
{
    match clvm_utils::tree_hash_from_bytes(program) {
        Ok(hash) => Ok(Bytes32 { bytes: hash.to_bytes() }),
        Err(e) => Err(format!("{e}")),
    }
}

/// How a spend's reveal is judged once its tree hash is known.
pub open spec fn judged(
    spend: SpendView,
    expected: Seq<u8>,
    actual: Result<Seq<u8>, Seq<char>>,
) -> Result<(), ErrorView> {
    match actual {
        Err(e) => Err(ErrorView::PeerRejection("puzzle reveal is not valid CLVM: "@ + e)),
        Ok(hash) => if hash == expected {
            Ok(())
        } else {
            Err(
                ErrorView::PeerRejection(
                    "puzzle reveal hashes to "@ + prefixed(hash) + " but coin "@
                        + spend.coin.parent_coin_info + " is locked with "@
                        + spend.coin.puzzle_hash,
                ),
            )
        },
    }
}

/// How a spend's reveal is judged.
pub open spec fn reveal_check(spend: SpendView) -> Result<(), ErrorView> {
    match read_hex(spend.coin.puzzle_hash) {
        Err(e) => Err(e),
        Ok(expected) => match read_hex(spend.puzzle_reveal) {
            Err(e) => Err(e),
            Ok(program) => judged(spend, expected, program_hash(program)),
        },
    }
}

/// Whether two byte strings are the same.
fn same_bytes(a: &[u8], b: &[u8]) -> (same: bool)
    ensures
        same == (a@ == b@),
{
    if a.len() != b.len() {
        return false;
    }
    let mut i: usize = 0;
    while i < a.len()
        invariant
            i <= a.len(),
            a.len() == b.len(),
            forall|j: int| 0 <= j < i ==> a@[j] == b@[j],
        decreases a.len() - i,
    {
        if a[i] != b[i] {
            return false;
        }
        i = i + 1;
    }
    assert(a@ =~= b@);
    true
}

/// Judges a spend's reveal by its tree hash.
pub fn judge_reveal(spend: &CoinSpend, expected: &[u8], actual: Result<Bytes32, String>) -> (
    outcome: Result<(), ChiaQueryError>)
    ensures
        ({
            let hash = match actual {
                Ok(h) => Ok::<Seq<u8>, Seq<char>>(h@),
                Err(e) => Err::<Seq<u8>, Seq<char>>(e@),
            };
            match outcome {
                Ok(()) => judged(spend@, expected@, hash) == Ok::<(), ErrorView>(()),
                Err(e) => judged(spend@, expected@, hash) == Err::<(), ErrorView>(e@),
            }
        }),
{
    match actual {
        Err(e) => {
            let message = String::from_str("puzzle reveal is not valid CLVM: ").concat(e.as_str());
            Err(ChiaQueryError::PeerRejection(message))
        },
        Ok(hash) => if same_bytes(hash.bytes.as_slice(), expected) {
            Ok(())
        } else {
            let hashed = hex_text(hash.bytes.as_slice());
            let message = String::from_str("puzzle reveal hashes to ").concat(
                hashed.as_str(),
            ).concat(" but coin ").concat(spend.coin.parent_coin_info.as_str()).concat(
                " is locked with ",
            ).concat(spend.coin.puzzle_hash.as_str());
            Err(ChiaQueryError::PeerRejection(message))
        },
    }
}

/// Refutes a puzzle reveal that cannot belong to the coin it claims to unlock.
pub fn verify_reveal_against_puzzle_hash(spend: &CoinSpend) -> (outcome: Result<
    (),
    ChiaQueryError,
>)
    ensures
        match outcome {
            Ok(()) => reveal_check(spend@) == Ok::<(), ErrorView>(()),
            Err(e) => reveal_check(spend@) == Err::<(), ErrorView>(e@),
        },
{
    let expected = match parse_hex(spend.coin.puzzle_hash.as_str()) {
        Ok(expected) => expected,
        Err(e) => return Err(e),
    };
    let program = match parse_hex(spend.puzzle_reveal.as_str()) {
        Ok(program) => program,
        Err(e) => return Err(e),
    };
    let actual = tree_hash(program.as_slice());
    judge_reveal(spend, expected.as_slice(), actual)
}

/// A reveal passes exactly if it is hex of a program whose tree hash is the coin's puzzle hash. One
/// that is no program, or another one, is refuted as the peer's fault, and one that is not even hex
/// is an invalid request.
pub proof fn law_a_reveal_passes_exactly_if_it_hashes_to_the_puzzle_hash(
    spend: SpendView,
    expected: Seq<u8>,
    program: Seq<u8>,
)
    requires
        read_hex(spend.coin.puzzle_hash) == Ok::<Seq<u8>, ErrorView>(expected),
        read_hex(spend.puzzle_reveal) == Ok::<Seq<u8>, ErrorView>(program),
    ensures
        reveal_check(spend) is Ok <==> program_hash(program) == Ok::<Seq<u8>, Seq<char>>(expected),
        reveal_check(spend) is Err ==> reveal_check(spend)->Err_0 is PeerRejection,
        program_hash(program) matches Ok(hash) ==> hash != expected ==> reveal_check(spend)->Err_0
            == ErrorView::PeerRejection(
            "puzzle reveal hashes to "@ + ("0x"@ + crate::hexadecimal::hex_of(hash)) + " but coin "@
                + spend.coin.parent_coin_info + " is locked with "@ + spend.coin.puzzle_hash,
        ),
{
}

/// A spend whose puzzle hash or reveal is not hex does not pass.
pub proof fn law_a_reveal_that_is_not_hex_does_not_pass(spend: SpendView)
    ensures
        read_hex(spend.coin.puzzle_hash) is Err ==> reveal_check(spend) is Err
            && reveal_check(spend)->Err_0 == read_hex(spend.coin.puzzle_hash)->Err_0,
        read_hex(spend.coin.puzzle_hash) is Ok && read_hex(spend.puzzle_reveal) is Err
            ==> reveal_check(spend) is Err && reveal_check(spend)->Err_0 == read_hex(
            spend.puzzle_reveal,
        )->Err_0,
{
}

} // verus!
