//! The bounds on what coinset may send.

use vstd::prelude::*;

use crate::text::{decimal, decimal_text};
use crate::types::{ChiaQueryError, ErrorView};

verus! {

/// The most bytes of a response that are read: many times what the largest honest one takes.
pub const MAX_RESPONSE_BYTES: usize = 268_435_456;

/// Whether an announced length is within the cap. One that is not announced is bounded as it
/// arrives.
pub fn content_length_within_cap(len: Option<u64>, cap: usize) -> (within: bool)
    ensures
        within == (len matches Some(n) ==> n <= cap),
{
    match len {
        Some(len) => len <= cap as u64,
        None => true,
    }
}

/// Refuses a response whose announced length is over the cap.
pub fn admit_content_length(len: Option<u64>, cap: usize) -> (admitted: Result<(), ChiaQueryError>)
    ensures
        match admitted {
            Ok(()) => len matches Some(n) ==> n <= cap,
            Err(e) => len is Some && len->0 > cap && e@ == ErrorView::CoinsetHttp(
                "coinset response Content-Length exceeds the "@ + decimal(cap as nat)
                    + "-byte cap"@,
            ),
        },
{
    if content_length_within_cap(len, cap) {
        Ok(())
    } else {
        let number = decimal_text(cap as u64);
        let message = String::from_str("coinset response Content-Length exceeds the ").concat(
            number.as_str(),
        ).concat("-byte cap");
        Err(ChiaQueryError::CoinsetHttp(message))
    }
}

/// Adds the next `chunk` bytes to those read, up to the cap.
pub fn accumulate_within_cap(current: usize, chunk: usize, cap: usize) -> (total: Result<
    usize,
    ChiaQueryError,
>)
    ensures
        match total {
            Ok(t) => t == current + chunk && t <= cap,
            Err(e) => (current + chunk > cap) && e@ == ErrorView::CoinsetHttp(
                "coinset response exceeded the "@ + decimal(cap as nat) + "-byte cap"@,
            ),
        },
{
    if current <= cap && chunk <= cap - current {
        Ok(current + chunk)
    } else {
        let number = decimal_text(cap as u64);
        let message = String::from_str("coinset response exceeded the ").concat(
            number.as_str(),
        ).concat("-byte cap");
        Err(ChiaQueryError::CoinsetHttp(message))
    }
}

/// A response is read exactly as far as the cap: one that announces more is refused, and so is the
/// chunk that would go past it. A chunk that just reaches the cap is read.
pub proof fn law_a_response_is_read_up_to_the_cap(
    len: Option<u64>,
    cap: usize,
    admitted: Result<(), ChiaQueryError>,
    current: usize,
    chunk: usize,
    total: Result<usize, ChiaQueryError>,
)
    requires
        call_ensures(admit_content_length, (len, cap), admitted),
        call_ensures(accumulate_within_cap, (current, chunk, cap), total),
    ensures
        admitted is Err <==> len is Some && len->0 > cap,
        total is Ok <==> current + chunk <= cap,
        total is Ok ==> total->Ok_0 == current + chunk,
        admitted is Err ==> admitted->Err_0@ is CoinsetHttp,
        total is Err ==> total->Err_0@ is CoinsetHttp,
{
}

} // verus!
