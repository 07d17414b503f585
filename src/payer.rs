//! A payer: adjudicates each claim addressed to it after a random delay drawn
//! from its configured range.
use crate::remittance::{is_remittance_of, Remittance, ValidationMismatch};
use crate::schema::PayerClaim;
use rand::Rng;
use vstd::prelude::*;

verus! {

/// Relies on rand's `rng().random_range` over an inclusive range: the draw
/// lies within the range. It panics only on an empty range, which the
/// precondition rules out.
#[verifier::external_body]
fn uniform_secs(min: u64, max: u64) -> (r: u64)
    requires
        min <= max,
    ensures
        min <= r <= max,
{
    rand::rng().random_range(min..=max)
}

/// The work a payer does on one claim: the remittance it computed, and
/// whether that remittance balances against the claim. The remittance is
/// sent either way.
pub struct Adjudication {
    pub remittance: Remittance,
    pub validation: Result<(), ValidationMismatch>,
}

/// A payer identity with its processing delay range, in seconds.
pub struct Payer {
    payer_id: String,
    min_response_time_secs: u64,
    max_response_time_secs: u64,
    verbose: bool,
}

impl Payer {
    pub closed spec fn spec_payer_id(&self) -> Seq<char> {
        self.payer_id@
    }

    pub closed spec fn spec_min_secs(&self) -> u64 {
        self.min_response_time_secs
    }

    pub closed spec fn spec_max_secs(&self) -> u64 {
        self.max_response_time_secs
    }

    pub closed spec fn spec_verbose(&self) -> bool {
        self.verbose
    }

    /// Well-formed: the delay range is not empty.
    pub closed spec fn wf(&self) -> bool {
        self.min_response_time_secs <= self.max_response_time_secs
    }

    /// A payer whose delays lie in `[min_response_time_secs,
    /// max_response_time_secs]`, both ends included.
    pub fn new(
        payer_id: String,
        min_response_time_secs: u64,
        max_response_time_secs: u64,
        verbose: bool,
    ) -> (r: Self)
        requires
            min_response_time_secs <= max_response_time_secs,
        ensures
            r.wf(),
            r.spec_payer_id() == payer_id@,
            r.spec_min_secs() == min_response_time_secs,
            r.spec_max_secs() == max_response_time_secs,
            r.spec_verbose() == verbose,
    {
        Payer { payer_id, min_response_time_secs, max_response_time_secs, verbose }
    }

    pub fn payer_id(&self) -> (r: &str)
        ensures
            r@ == self.spec_payer_id(),
    {
        self.payer_id.as_str()
    }

    pub fn verbose(&self) -> (r: bool)
        ensures
            r == self.spec_verbose(),
    {
        self.verbose
    }

    /// A processing delay in seconds, drawn uniformly from the payer's range.
    pub fn random_delay(&self) -> (r: u64)
        requires
            self.wf(),
        ensures
            self.spec_min_secs() <= r <= self.spec_max_secs(),
    {
        uniform_secs(self.min_response_time_secs, self.max_response_time_secs)
    }

    /// Computes the remittance of a claim and validates it against the claim.
    pub fn adjudicate(&self, claim: &PayerClaim) -> (r: Adjudication)
        ensures
            is_remittance_of(r.remittance@, claim@),
            r.validation is Ok,
    {
        let remittance = Remittance::from_claim(claim);
        proof {
            crate::remittance::lemma_remittance_balances(remittance@, claim@);
        }
        let validation = remittance.validate_against_claim(claim);
        Adjudication { remittance, validation }
    }
}

} // verus!
