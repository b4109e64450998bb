//! What became of a submitted spend bundle.

use vstd::prelude::*;

verus! {

/// The outcome of submitting a spend bundle, with the node's own reason where it gave one.
#[derive(Debug, PartialEq, Eq)]
pub enum SubmitOutcome {
    /// Admitted to the mempool.
    Accepted,
    /// Not admitted: held for an unknown parent, or below the fee floor.
    NotAdmitted { reason: Option<String> },
    /// Rejected by the node.
    Failed { reason: Option<String> },
    /// An unrecognised status. Never read as admission.
    Unknown { status: u8, reason: Option<String> },
}

impl SubmitOutcome {
    /// The outcome of an acknowledgement: one is admission, two is not admitted, three is rejected.
    pub open spec fn of_ack(status: u8, reason: Option<String>) -> SubmitOutcome {
        if status == 1 {
            SubmitOutcome::Accepted
        } else if status == 2 {
            SubmitOutcome::NotAdmitted { reason }
        } else if status == 3 {
            SubmitOutcome::Failed { reason }
        } else {
            SubmitOutcome::Unknown { status, reason }
        }
    }

    /// The outcome of an acknowledgement.
    pub fn from_ack(status: u8, reason: Option<String>) -> (outcome: Self)
        ensures
            outcome == SubmitOutcome::of_ack(status, reason),
    {
        match status {
            1 => SubmitOutcome::Accepted,
            2 => SubmitOutcome::NotAdmitted { reason },
            3 => SubmitOutcome::Failed { reason },
            _ => SubmitOutcome::Unknown { status, reason },
        }
    }

    /// Whether the bundle was admitted to the mempool.
    pub fn is_accepted(&self) -> (accepted: bool)
        ensures
            accepted == (*self is Accepted),
    {
        match self {
            SubmitOutcome::Accepted => true,
            _ => false,
        }
    }

    /// The reason a refusal carries.
    pub open spec fn stated(self) -> Option<String> {
        match self {
            SubmitOutcome::Accepted => None,
            SubmitOutcome::NotAdmitted { reason } => reason,
            SubmitOutcome::Failed { reason } => reason,
            SubmitOutcome::Unknown { status, reason } => reason,
        }
    }

    /// The node's own words for a refusal, where it gave any.
    pub fn reason(&self) -> (reason: Option<&str>)
        ensures
            reason is Some <==> self.stated() is Some,
            reason matches Some(words) ==> words@ == (self.stated()->0)@,
    {
        let stated = match self {
            SubmitOutcome::Accepted => return None,
            SubmitOutcome::NotAdmitted { reason } => reason,
            SubmitOutcome::Failed { reason } => reason,
            SubmitOutcome::Unknown { status: _, reason } => reason,
        };
        match stated {
            Some(words) => Some(words.as_str()),
            None => None,
        }
    }
}

/// Only one status byte means admission, and every refusal carries the node's own reason.
pub proof fn law_only_status_one_is_admission(status: u8, reason: Option<String>)
    ensures
        SubmitOutcome::of_ack(status, reason) is Accepted <==> status == 1,
        status != 1 ==> SubmitOutcome::of_ack(status, reason).stated() == reason,
{
}

/// Status two is not admitted, three has failed, and any other than one is unknown and told as it is.
pub proof fn law_every_other_status_is_told_apart(status: u8, reason: Option<String>)
    ensures
        SubmitOutcome::of_ack(status, reason) is NotAdmitted <==> status == 2,
        SubmitOutcome::of_ack(status, reason) is Failed <==> status == 3,
        SubmitOutcome::of_ack(status, reason) is Unknown <==> status == 0 || status > 3,
        status == 0 || status > 3 ==> SubmitOutcome::of_ack(status, reason)->Unknown_status
            == status,
        status == 1 ==> SubmitOutcome::of_ack(status, reason).stated() is None,
{
}

} // verus!
