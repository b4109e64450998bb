//! Why a light-client read could not complete.
//!
//! Every reason means the same to a consumer: the peer could not reliably answer. None of them is
//! ever reported as an absence.

use vstd::prelude::*;

use crate::text::contains_ignore_ascii_case;

verus! {

/// Why a light-client read could not complete reliably.
#[derive(Debug, PartialEq, Eq)]
pub enum LightClientError {
    /// The peer could not be reached.
    Transport(String),
    /// The peer refused the request.
    Rejected(String),
    /// The peer's answer could not be understood.
    Malformed(String),
    /// The peer did not answer in time.
    Timeout,
    /// No peer was found.
    PeerDiscoveryFailed,
    /// The client follows no peer.
    NotConnected,
}

/// Why a chain source could not reliably answer.
#[derive(Debug, PartialEq, Eq)]
pub enum ChainSourceError {
    Transport(String),
    Malformed(String),
    Unsupported(&'static str),
    Timeout,
}

/// Whether a message names a timeout, whatever its case.
pub open spec fn names_timeout(message: Seq<char>) -> bool {
    let lower = crate::text::ascii_lowered(message);
    ||| crate::text::has_substring(lower, crate::text::ascii_lowered("timed out"@))
    ||| crate::text::has_substring(lower, crate::text::ascii_lowered("timeout"@))
}

/// The chain-source error a light-client error is reported as, over text.
pub enum ReportView {
    Transport(Seq<char>),
    Malformed(Seq<char>),
    Unsupported(Seq<char>),
    Timeout,
}

impl View for ChainSourceError {
    type V = ReportView;

    open spec fn view(&self) -> ReportView {
        match *self {
            ChainSourceError::Transport(m) => ReportView::Transport(m@),
            ChainSourceError::Malformed(m) => ReportView::Malformed(m@),
            ChainSourceError::Unsupported(m) => ReportView::Unsupported(m@),
            ChainSourceError::Timeout => ReportView::Timeout,
        }
    }
}

impl LightClientError {
    /// What this error is reported as. A transport failure that names a timeout is one.
    pub open spec fn report(self) -> ReportView {
        match self {
            LightClientError::Timeout => ReportView::Timeout,
            LightClientError::Transport(m) => if names_timeout(m@) {
                ReportView::Timeout
            } else {
                ReportView::Transport(m@)
            },
            LightClientError::Rejected(m) => ReportView::Transport(m@),
            LightClientError::Malformed(m) => ReportView::Malformed(m@),
            LightClientError::PeerDiscoveryFailed => ReportView::Transport(
                "peer discovery failed"@,
            ),
            LightClientError::NotConnected => ReportView::Transport(
                "light client is not connected"@,
            ),
        }
    }

    /// Whether `message` names a timeout.
    pub fn looks_like_timeout(message: &str) -> (found: bool)
        ensures
            found == names_timeout(message@),
    {
        contains_ignore_ascii_case(message, "timed out") || contains_ignore_ascii_case(
            message,
            "timeout",
        )
    }

    /// The error as a chain source reports it.
    pub fn into_chain_source_error(self) -> (error: ChainSourceError)
        ensures
            error@ == self.report(),
    {
        match self {
            LightClientError::Timeout => ChainSourceError::Timeout,
            LightClientError::Transport(message) => if LightClientError::looks_like_timeout(
                message.as_str(),
            ) {
                ChainSourceError::Timeout
            } else {
                ChainSourceError::Transport(message)
            },
            LightClientError::Rejected(message) => ChainSourceError::Transport(message),
            LightClientError::Malformed(message) => ChainSourceError::Malformed(message),
            LightClientError::PeerDiscoveryFailed => ChainSourceError::Transport(
                String::from_str("peer discovery failed"),
            ),
            LightClientError::NotConnected => ChainSourceError::Transport(
                String::from_str("light client is not connected"),
            ),
        }
    }

    /// The message shown for this error.
    pub open spec fn text(self) -> Seq<char> {
        match self {
            LightClientError::Transport(m) => "chia peer transport error: "@ + m@,
            LightClientError::Rejected(m) => "chia peer rejected the request: "@ + m@,
            LightClientError::Malformed(m) => "malformed chia peer response: "@ + m@,
            LightClientError::Timeout => "chia peer request timed out"@,
            LightClientError::PeerDiscoveryFailed => "chia peer discovery failed"@,
            LightClientError::NotConnected => "chia light client is not connected"@,
        }
    }

    /// The message shown for this error.
    pub fn message(&self) -> (message: String)
        ensures
            message@ == self.text(),
    {
        match self {
            LightClientError::Transport(m) => String::from_str(
                "chia peer transport error: ",
            ).concat(m.as_str()),
            LightClientError::Rejected(m) => String::from_str(
                "chia peer rejected the request: ",
            ).concat(m.as_str()),
            LightClientError::Malformed(m) => String::from_str(
                "malformed chia peer response: ",
            ).concat(m.as_str()),
            LightClientError::Timeout => String::from_str("chia peer request timed out"),
            LightClientError::PeerDiscoveryFailed => String::from_str(
                "chia peer discovery failed",
            ),
            LightClientError::NotConnected => String::from_str(
                "chia light client is not connected",
            ),
        }
    }
}

/// A failed read is reported as a timeout exactly if it is one, or if it is a failure of the
/// transport whose message names one in any case. What is malformed stays so, and everything else is
/// a failure of the transport.
pub proof fn law_timeouts_are_told_from_other_failures(error: LightClientError)
    ensures
        error.report() is Timeout <==> error is Timeout || (error matches LightClientError::Transport(m)
            && (crate::text::has_substring(crate::text::ascii_lowered(m@), "timed out"@)
            || crate::text::has_substring(crate::text::ascii_lowered(m@), "timeout"@))),
        error.report() is Malformed <==> error is Malformed,
        error matches LightClientError::Malformed(m) ==> error.report() == ReportView::Malformed(m@),
        error matches LightClientError::Rejected(m) ==> error.report() == ReportView::Transport(m@),
        error matches LightClientError::Transport(m) ==> error.report() is Timeout || error.report()
            == ReportView::Transport(m@),
        error is PeerDiscoveryFailed || error is NotConnected ==> error.report() is Transport,
        !(error.report() is Unsupported),
{
    reveal_strlit("timed out");
    reveal_strlit("timeout");
    assert(crate::text::ascii_lowered("timed out"@) =~= "timed out"@);
    assert(crate::text::ascii_lowered("timeout"@) =~= "timeout"@);
}

} // verus!
