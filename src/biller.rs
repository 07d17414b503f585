//! The biller: throttles incoming claims, attaches a response endpoint to
//! each, forwards them to the clearinghouse, and counts the remittances that
//! come back.
use crate::config::Config;
use crate::message::{ClaimEnvelope, ClaimMessage};
use crate::schema::PayerClaim;
use vstd::prelude::*;

verus! {

/// Why the biller stops with an error.
pub enum BillerError {
    /// The configured ingest period is zero.
    ConfigInvalid,
    /// The clearinghouse no longer receives claims.
    DownstreamGone,
}

/// What the biller does after an envelope was handed to the clearinghouse.
pub enum BillerStep {
    /// Wait for the next claim.
    Continue,
    /// All expected claims have been forwarded.
    Finished,
    /// Stop with this error.
    Failed(BillerError),
}

/// The biller's state: its ingest period, how many claims it expects, and how
/// many it has forwarded.
pub struct Biller {
    ingest_rate: u64,
    total_claims: usize,
    claims_sent: usize,
    verbose: bool,
}

impl Biller {
    pub closed spec fn spec_ingest_rate(&self) -> u64 {
        self.ingest_rate
    }

    pub closed spec fn spec_total_claims(&self) -> usize {
        self.total_claims
    }

    pub closed spec fn spec_claims_sent(&self) -> usize {
        self.claims_sent
    }

    pub closed spec fn spec_verbose(&self) -> bool {
        self.verbose
    }

    /// A biller for `total_claims` claims with the configuration's ingest
    /// period. A zero period is refused before any claim is taken.
    pub fn new(config: &Config, total_claims: usize) -> (r: Result<Biller, BillerError>)
        ensures
            r is Err <==> config.ingest_rate == 0,
            r matches Err(e) ==> e is ConfigInvalid,
            r matches Ok(b) ==> b.spec_ingest_rate() == config.ingest_rate && b.spec_total_claims()
                == total_claims && b.spec_claims_sent() == 0 && b.spec_verbose() == config.verbose,
    {
        if config.ingest_rate == 0 {
            return Err(BillerError::ConfigInvalid);
        }
        Ok(Biller { ingest_rate: config.ingest_rate, total_claims, claims_sent: 0, verbose: config.verbose })
    }

    /// Seconds between two forwarded claims.
    pub fn interval_secs(&self) -> (r: u64)
        ensures
            r == self.spec_ingest_rate(),
    {
        self.ingest_rate
    }

    pub fn claims_sent(&self) -> (r: usize)
        ensures
            r == self.spec_claims_sent(),
    {
        self.claims_sent
    }

    pub fn verbose(&self) -> (r: bool)
        ensures
            r == self.spec_verbose(),
    {
        self.verbose
    }

    /// Whether the biller takes another claim: it forwards exactly
    /// `total_claims` claims, and none once that many have gone out.
    pub fn wants_claim(&self) -> (r: bool)
        ensures
            r == (self.spec_claims_sent() < self.spec_total_claims()),
    {
        self.claims_sent < self.total_claims
    }

    /// Wraps the next claim with the endpoint on which its remittance is to
    /// come back, and counts it as sent. Only a biller that still wants a
    /// claim takes one.
    pub fn wrap_claim<S>(&mut self, claim: PayerClaim, response_tx: S) -> (r: ClaimMessage<S>)
        requires
            old(self).spec_claims_sent() < old(self).spec_total_claims(),
        ensures
            final(self).spec_claims_sent() == old(self).spec_claims_sent() + 1,
            final(self).spec_total_claims() == old(self).spec_total_claims(),
            final(self).spec_ingest_rate() == old(self).spec_ingest_rate(),
            final(self).spec_verbose() == old(self).spec_verbose(),
            r == (ClaimMessage::NewClaim(ClaimEnvelope { claim, response_tx })),
    {
        self.claims_sent = self.claims_sent + 1;
        ClaimMessage::NewClaim(ClaimEnvelope { claim, response_tx })
    }

    /// Decides what follows a forward attempt: a failed send ends the biller
    /// with `DownstreamGone`; otherwise it stops once it has forwarded the
    /// expected number of claims.
    pub fn after_forward(&self, forwarded: bool) -> (r: BillerStep)
        ensures
            !forwarded ==> r == BillerStep::Failed(BillerError::DownstreamGone),
            forwarded && self.spec_claims_sent() >= self.spec_total_claims() ==> r is Finished,
            forwarded && self.spec_claims_sent() < self.spec_total_claims() ==> r is Continue,
    {
        if !forwarded {
            BillerStep::Failed(BillerError::DownstreamGone)
        } else if self.claims_sent >= self.total_claims {
            BillerStep::Finished
        } else {
            BillerStep::Continue
        }
    }
}

/// The count of remittances that have come back, shared by the waiters of
/// all claims.
pub struct CompletionCounter {
    received: usize,
    total_claims: usize,
}

impl CompletionCounter {
    pub closed spec fn spec_received(&self) -> usize {
        self.received
    }

    pub closed spec fn spec_total_claims(&self) -> usize {
        self.total_claims
    }

    pub fn new(total_claims: usize) -> (r: Self)
        ensures
            r.spec_received() == 0,
            r.spec_total_claims() == total_claims,
    {
        CompletionCounter { received: 0, total_claims }
    }

    pub fn received(&self) -> (r: usize)
        ensures
            r == self.spec_received(),
    {
        self.received
    }

    /// Counts one more remittance. Returns whether the count has now reached
    /// the expected total, which is when shutdown is signalled; as the count
    /// only grows, that happens at most once.
    pub fn record(&mut self) -> (r: bool)
        requires
            old(self).spec_received() < usize::MAX,
        ensures
            final(self).spec_received() == old(self).spec_received() + 1,
            final(self).spec_total_claims() == old(self).spec_total_claims(),
            r == (final(self).spec_received() == final(self).spec_total_claims()),
    {
        self.received = self.received + 1;
        self.received == self.total_claims
    }
}

} // verus!
