//! Which mempool refusals are properties of the bundle, and which are properties of one node.
//!
//! Some reasons are facts about the bytes: every honest node says the same. The rest
//! are facts about the node that was asked, and are worth a second opinion. The list is an
//! allowlist: a reason nobody foresaw is not on it, and is asked about again.

use vstd::prelude::*;

use crate::text::{eq_ignore_ascii_case, trim};
use crate::types::TxStatus;

verus! {

/// The refusals that are properties of the bundle.
pub const BUNDLE_INTRINSIC_REFUSALS: [&'static str; 11] = [
    "BAD_AGGREGATE_SIGNATURE",
    "COIN_AMOUNT_NEGATIVE",
    "COIN_AMOUNT_EXCEEDS_MAXIMUM",
    "DUPLICATE_OUTPUT",
    "MINTING_COIN",
    "RESERVE_FEE_CONDITION_FAILED",
    "WRONG_PUZZLE_HASH",
    "ASSERT_MY_COIN_ID_FAILED",
    "ASSERT_MY_PARENT_ID_FAILED",
    "ASSERT_MY_PUZZLEHASH_FAILED",
    "ASSERT_MY_AMOUNT_FAILED",
];

/// Whether `reason`, without surrounding white space and whatever its case, is exactly one of the
/// listed names.
pub open spec fn is_intrinsic(reason: Seq<char>) -> bool {
    exists|i: int|
        0 <= i < 11 && crate::text::ascii_lowered(crate::text::trimmed(reason))
            == crate::text::ascii_lowered((#[trigger] BUNDLE_INTRINSIC_REFUSALS@[i])@)
}

/// Whether a stated refusal reason is a property of the bundle. The match is exact: a name inside
/// wider text does not count.
pub fn is_bundle_intrinsic_refusal(reason: &str) -> (intrinsic: bool)
    ensures
        intrinsic == is_intrinsic(reason@),
{
    let bare = trim(reason);
    let names = BUNDLE_INTRINSIC_REFUSALS;
    let mut i: usize = 0;
    while i < 11
        invariant
            i <= 11,
            bare@ == crate::text::trimmed(reason@),
            names == BUNDLE_INTRINSIC_REFUSALS,
            forall|j: int|
                0 <= j < i ==> crate::text::ascii_lowered(bare@)
                    != crate::text::ascii_lowered((#[trigger] BUNDLE_INTRINSIC_REFUSALS@[j])@),
        decreases 11 - i,
    {
        if eq_ignore_ascii_case(bare, names[i]) {
            assert(crate::text::ascii_lowered(bare@) == crate::text::ascii_lowered(
                BUNDLE_INTRINSIC_REFUSALS@[i as int]@,
            ));
            return true;
        }
        i = i + 1;
    }
    false
}

/// Whether no other peer could answer otherwise: the bundle was admitted, or it
/// was refused for what it is.
pub fn is_final(status: &TxStatus) -> (settled: bool)
    ensures
        settled == (status.inclusion is Admitted || (status.error matches Some(reason)
            && is_intrinsic(reason@))),
{
    if status.inclusion.is_admitted() {
        return true;
    }
    match &status.error {
        Some(reason) => is_bundle_intrinsic_refusal(reason.as_str()),
        None => false,
    }
}

/// How a reason is cased and what white space stands around it make no difference to what it is.
pub proof fn law_case_and_padding_make_no_difference(
    before: Seq<char>,
    reason: Seq<char>,
    after: Seq<char>,
)
    requires
        crate::text::is_blank(before),
        crate::text::is_blank(after),
    ensures
        is_intrinsic(before + reason + after) == is_intrinsic(reason),
        is_intrinsic(crate::text::ascii_lowered(reason)) == is_intrinsic(reason),
{
    crate::text::lemma_padding_is_trimmed(before, reason, after);
    crate::text::lemma_case_and_trimming(reason);
    crate::text::lemma_case_and_trimming(crate::text::trimmed(reason));
}

/// A refusal is a property of the bundle exactly if it reads, without the white space around it and
/// in lower case, as one of eleven names: nothing shorter, longer or besides.
pub proof fn law_refusals_that_are_properties_of_the_bundle(reason: Seq<char>)
    ensures
        is_intrinsic(reason) <==> {
            let bare = crate::text::ascii_lowered(crate::text::trimmed(reason));
            ||| bare == "bad_aggregate_signature"@
            ||| bare == "coin_amount_negative"@
            ||| bare == "coin_amount_exceeds_maximum"@
            ||| bare == "duplicate_output"@
            ||| bare == "minting_coin"@
            ||| bare == "reserve_fee_condition_failed"@
            ||| bare == "wrong_puzzle_hash"@
            ||| bare == "assert_my_coin_id_failed"@
            ||| bare == "assert_my_parent_id_failed"@
            ||| bare == "assert_my_puzzlehash_failed"@
            ||| bare == "assert_my_amount_failed"@
        },
{
    assert(crate::text::ascii_lowered("BAD_AGGREGATE_SIGNATURE"@) =~= "bad_aggregate_signature"@) by {
        reveal_strlit("BAD_AGGREGATE_SIGNATURE");
        reveal_strlit("bad_aggregate_signature");
    }
    assert(BUNDLE_INTRINSIC_REFUSALS@[0]@ == "BAD_AGGREGATE_SIGNATURE"@);
    assert(crate::text::ascii_lowered("COIN_AMOUNT_NEGATIVE"@) =~= "coin_amount_negative"@) by {
        reveal_strlit("COIN_AMOUNT_NEGATIVE");
        reveal_strlit("coin_amount_negative");
    }
    assert(BUNDLE_INTRINSIC_REFUSALS@[1]@ == "COIN_AMOUNT_NEGATIVE"@);
    assert(crate::text::ascii_lowered("COIN_AMOUNT_EXCEEDS_MAXIMUM"@) =~= "coin_amount_exceeds_maximum"@) by {
        reveal_strlit("COIN_AMOUNT_EXCEEDS_MAXIMUM");
        reveal_strlit("coin_amount_exceeds_maximum");
    }
    assert(BUNDLE_INTRINSIC_REFUSALS@[2]@ == "COIN_AMOUNT_EXCEEDS_MAXIMUM"@);
    assert(crate::text::ascii_lowered("DUPLICATE_OUTPUT"@) =~= "duplicate_output"@) by {
        reveal_strlit("DUPLICATE_OUTPUT");
        reveal_strlit("duplicate_output");
    }
    assert(BUNDLE_INTRINSIC_REFUSALS@[3]@ == "DUPLICATE_OUTPUT"@);
    assert(crate::text::ascii_lowered("MINTING_COIN"@) =~= "minting_coin"@) by {
        reveal_strlit("MINTING_COIN");
        reveal_strlit("minting_coin");
    }
    assert(BUNDLE_INTRINSIC_REFUSALS@[4]@ == "MINTING_COIN"@);
    assert(crate::text::ascii_lowered("RESERVE_FEE_CONDITION_FAILED"@) =~= "reserve_fee_condition_failed"@) by {
        reveal_strlit("RESERVE_FEE_CONDITION_FAILED");
        reveal_strlit("reserve_fee_condition_failed");
    }
    assert(BUNDLE_INTRINSIC_REFUSALS@[5]@ == "RESERVE_FEE_CONDITION_FAILED"@);
    assert(crate::text::ascii_lowered("WRONG_PUZZLE_HASH"@) =~= "wrong_puzzle_hash"@) by {
        reveal_strlit("WRONG_PUZZLE_HASH");
        reveal_strlit("wrong_puzzle_hash");
    }
    assert(BUNDLE_INTRINSIC_REFUSALS@[6]@ == "WRONG_PUZZLE_HASH"@);
    assert(crate::text::ascii_lowered("ASSERT_MY_COIN_ID_FAILED"@) =~= "assert_my_coin_id_failed"@) by {
        reveal_strlit("ASSERT_MY_COIN_ID_FAILED");
        reveal_strlit("assert_my_coin_id_failed");
    }
    assert(BUNDLE_INTRINSIC_REFUSALS@[7]@ == "ASSERT_MY_COIN_ID_FAILED"@);
    assert(crate::text::ascii_lowered("ASSERT_MY_PARENT_ID_FAILED"@) =~= "assert_my_parent_id_failed"@) by {
        reveal_strlit("ASSERT_MY_PARENT_ID_FAILED");
        reveal_strlit("assert_my_parent_id_failed");
    }
    assert(BUNDLE_INTRINSIC_REFUSALS@[8]@ == "ASSERT_MY_PARENT_ID_FAILED"@);
    assert(crate::text::ascii_lowered("ASSERT_MY_PUZZLEHASH_FAILED"@) =~= "assert_my_puzzlehash_failed"@) by {
        reveal_strlit("ASSERT_MY_PUZZLEHASH_FAILED");
        reveal_strlit("assert_my_puzzlehash_failed");
    }
    assert(BUNDLE_INTRINSIC_REFUSALS@[9]@ == "ASSERT_MY_PUZZLEHASH_FAILED"@);
    assert(crate::text::ascii_lowered("ASSERT_MY_AMOUNT_FAILED"@) =~= "assert_my_amount_failed"@) by {
        reveal_strlit("ASSERT_MY_AMOUNT_FAILED");
        reveal_strlit("assert_my_amount_failed");
    }
    assert(BUNDLE_INTRINSIC_REFUSALS@[10]@ == "ASSERT_MY_AMOUNT_FAILED"@);
}

/// A push is final exactly if the bundle was admitted, or was refused for a reason that is a property
/// of the bundle.
pub proof fn law_a_push_is_final_if_no_peer_could_say_otherwise(status: TxStatus, settled: bool)
    requires
        call_ensures(is_final, (&status,), settled),
    ensures
        status.inclusion is Admitted ==> settled,
        !(status.inclusion is Admitted) && status.error is None ==> !settled,
        !(status.inclusion is Admitted) && status.error is Some ==> (settled <==> is_intrinsic(
            status.error->0@,
        )),
{
}

} // verus!
