//! The messages that the actors exchange, and the status that the
//! clearinghouse keeps for each claim.
use crate::remittance::{Remittance, RemittanceRecord, RemittanceView};
use crate::schema::{ClaimView, PayerClaim};
use vstd::prelude::*;

verus! {

/// A claim together with the single-use endpoint on which its submitter waits
/// for the remittance.
pub struct ClaimEnvelope<S> {
    pub claim: PayerClaim,
    pub response_tx: S,
}

/// From the biller to the clearinghouse.
pub enum ClaimMessage<S> {
    NewClaim(ClaimEnvelope<S>),
}

/// From the clearinghouse to a payer.
pub enum PayerMessage {
    Adjudicate(PayerClaim),
}

/// From a payer to the clearinghouse, and from the clearinghouse to the
/// submitter of the claim.
pub enum RemittanceMessage {
    Processed(Remittance),
}

/// Where a claim stands. Times are seconds since the start of the run.
pub enum ClaimStatus {
    Submitted { claim: PayerClaim, submitted_at: u64 },
    Remitted(RemittanceRecord),
}

/// A claim status as a mathematical value.
pub enum StatusView {
    Submitted { claim: ClaimView, submitted_at: u64 },
    Remitted { claim: ClaimView, remittance: RemittanceView, submitted_at: u64, remitted_at: u64 },
}

impl View for ClaimStatus {
    type V = StatusView;

    open spec fn view(&self) -> StatusView {
        match self {
            ClaimStatus::Submitted { claim, submitted_at } => StatusView::Submitted {
                claim: claim@,
                submitted_at: *submitted_at,
            },
            ClaimStatus::Remitted(record) => StatusView::Remitted {
                claim: record.spec_claim()@,
                remittance: record.spec_remittance()@,
                submitted_at: record.spec_submitted_at(),
                remitted_at: record.spec_remitted_at(),
            },
        }
    }
}

impl StatusView {
    /// The claim that the status is about.
    pub open spec fn claim(self) -> ClaimView {
        match self {
            StatusView::Submitted { claim, .. } => claim,
            StatusView::Remitted { claim, .. } => claim,
        }
    }
}

} // verus!
