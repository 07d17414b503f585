//! Remittances: a payer's split of each billed service line into paid,
//! coinsurance, copay, deductible and not-allowed amounts.
//!
//! Remittance amounts are in hundredths of a cent, so that the fixed
//! percentage split of a charge given in cents is exact.
use crate::schema::{billed_amount, ClaimView, PayerClaim, ServiceLineView};
use vstd::prelude::*;

verus! {

/// Largest difference, in hundredths of a cent, between a line's remitted sum
/// and its billed amount that validation still accepts (one cent).
pub const VALIDATION_TOLERANCE: u128 = 100;

/// Share of the billed amount that the payer pays, in percent.
pub const PAID_PERCENT: u128 = 80;

/// Share of the billed amount charged to the patient as coinsurance, in percent.
pub const COINSURANCE_PERCENT: u128 = 10;

/// Share of the billed amount charged to the patient as copay, in percent.
pub const COPAY_PERCENT: u128 = 5;

/// Share of the billed amount applied to the patient's deductible, in percent.
pub const DEDUCTIBLE_PERCENT: u128 = 3;

/// Share of the billed amount that is not allowed, in percent.
pub const NOT_ALLOWED_PERCENT: u128 = 2;

/// The remittance of one service line; amounts in hundredths of a cent.
pub struct ServiceLineRemittance {
    pub service_line_id: String,
    pub payer_paid_amount: u128,
    pub coinsurance_amount: u128,
    pub copay_amount: u128,
    pub deductible_amount: u128,
    pub not_allowed_amount: u128,
}

/// A payer's answer to a claim: one line remittance per service line.
pub struct Remittance {
    pub claim_id: String,
    pub service_line_remittances: Vec<ServiceLineRemittance>,
}

/// A remittance as a mathematical value.
pub struct RemittanceView {
    pub claim_id: Seq<char>,
    pub lines: Seq<ServiceLineRemittance>,
}

impl View for Remittance {
    type V = RemittanceView;

    open spec fn view(&self) -> RemittanceView {
        RemittanceView { claim_id: self.claim_id@, lines: self.service_line_remittances@ }
    }
}

/// A remittance line that does not balance against its service line.
pub struct ValidationMismatch {
    pub service_line_id: String,
    /// The sum of the line's five amounts, capped at `u128::MAX`.
    pub remitted: u128,
    /// The billed amount of the service line.
    pub billed: u128,
}

/// The sum of the five amounts of a remittance line.
pub open spec fn line_sum(l: ServiceLineRemittance) -> int {
    l.payer_paid_amount + l.coinsurance_amount + l.copay_amount + l.deductible_amount
        + l.not_allowed_amount
}

/// `l` is the fixed percentage split of service line `s`.
pub open spec fn adjudicates(l: ServiceLineRemittance, s: ServiceLineView) -> bool {
    let total_cents = s.units * s.unit_charge_amount;
    &&& l.service_line_id@ == s.service_line_id
    &&& l.payer_paid_amount == total_cents * PAID_PERCENT
    &&& l.coinsurance_amount == total_cents * COINSURANCE_PERCENT
    &&& l.copay_amount == total_cents * COPAY_PERCENT
    &&& l.deductible_amount == total_cents * DEDUCTIBLE_PERCENT
    &&& l.not_allowed_amount == total_cents * NOT_ALLOWED_PERCENT
}

/// `r` is the remittance that the fixed percentage split makes of claim `c`.
pub open spec fn is_remittance_of(r: RemittanceView, c: ClaimView) -> bool {
    &&& r.claim_id == c.claim_id
    &&& r.lines.len() == c.service_lines.len()
    &&& forall|i: int| 0 <= i < r.lines.len() ==> adjudicates(#[trigger] r.lines[i], c.service_lines[i])
}

/// Line `i` of the remittance differs from line `i` of the claim by more than
/// the tolerance.
pub open spec fn line_mismatch(r: RemittanceView, c: ClaimView, i: int) -> bool {
    let d = line_sum(r.lines[i]) - billed_amount(c.service_lines[i]);
    d > VALIDATION_TOLERANCE || -d > VALIDATION_TOLERANCE
}

/// The number of line pairs that validation compares.
pub open spec fn paired_lines(r: RemittanceView, c: ClaimView) -> int {
    if r.lines.len() <= c.service_lines.len() {
        r.lines.len() as int
    } else {
        c.service_lines.len() as int
    }
}

/// Every compared line pair balances within the tolerance.
pub open spec fn balances(r: RemittanceView, c: ClaimView) -> bool {
    forall|i: int| 0 <= i < paired_lines(r, c) ==> !#[trigger] line_mismatch(r, c, i)
}

/// A split into the fixed percentages sums to the billed amount exactly.
pub proof fn lemma_split_sums_to_billed(l: ServiceLineRemittance, s: ServiceLineView)
    requires
        adjudicates(l, s),
    ensures
        line_sum(l) == billed_amount(s),
{
    let t = s.units * s.unit_charge_amount;
    assert(t * 80 + t * 10 + t * 5 + t * 3 + t * 2 == t * 100) by (nonlinear_arith);
    assert(s.units * s.unit_charge_amount * 100 == t * 100);
}

/// Every line of the remittance computed for a claim sums to that line's
/// billed amount, so such a remittance always passes validation against its
/// claim.
pub proof fn lemma_remittance_balances(r: RemittanceView, c: ClaimView)
    requires
        is_remittance_of(r, c),
    ensures
        forall|i: int|
            0 <= i < r.lines.len() ==> line_sum(#[trigger] r.lines[i]) == billed_amount(
                c.service_lines[i],
            ),
        balances(r, c),
{
    assert forall|i: int| 0 <= i < r.lines.len() implies line_sum(#[trigger] r.lines[i])
        == billed_amount(c.service_lines[i]) by {
        lemma_split_sums_to_billed(r.lines[i], c.service_lines[i]);
    }
}

impl Clone for ServiceLineRemittance {
    fn clone(&self) -> (r: Self)
        ensures
            r == *self,
    {
        ServiceLineRemittance {
            service_line_id: self.service_line_id.clone(),
            payer_paid_amount: self.payer_paid_amount,
            coinsurance_amount: self.coinsurance_amount,
            copay_amount: self.copay_amount,
            deductible_amount: self.deductible_amount,
            not_allowed_amount: self.not_allowed_amount,
        }
    }
}

impl Clone for Remittance {
    fn clone(&self) -> (r: Self)
        ensures
            r@ == self@,
    {
        let mut lines: Vec<ServiceLineRemittance> = Vec::new();
        let n = self.service_line_remittances.len();
        for i in 0..n
            invariant
                n == self.service_line_remittances@.len(),
                lines@.len() == i,
                forall|j: int| 0 <= j < i ==> #[trigger] lines@[j] == self.service_line_remittances@[j],
        {
            lines.push(self.service_line_remittances[i].clone());
        }
        assert(lines@ =~= self.service_line_remittances@);
        Remittance { claim_id: self.claim_id.clone(), service_line_remittances: lines }
    }
}

/// The split of one service line.
fn adjudicate_line(units: u32, unit_charge: u64) -> (r: (u128, u128, u128, u128, u128))
    ensures
        r.0 == units * unit_charge * PAID_PERCENT,
        r.1 == units * unit_charge * COINSURANCE_PERCENT,
        r.2 == units * unit_charge * COPAY_PERCENT,
        r.3 == units * unit_charge * DEDUCTIBLE_PERCENT,
        r.4 == units * unit_charge * NOT_ALLOWED_PERCENT,
{
    let u = units as u128;
    let c = unit_charge as u128;
    assert(u * c <= 0xffff_ffffu128 * 0xffff_ffff_ffff_ffffu128) by (nonlinear_arith)
        requires
            u <= 0xffff_ffffu128,
            c <= 0xffff_ffff_ffff_ffffu128,
    ;
    let total = u * c;
    (
        total * PAID_PERCENT,
        total * COINSURANCE_PERCENT,
        total * COPAY_PERCENT,
        total * DEDUCTIBLE_PERCENT,
        total * NOT_ALLOWED_PERCENT,
    )
}

/// The billed amount of a service line, in hundredths of a cent.
fn line_billed(units: u32, unit_charge: u64) -> (r: u128)
    ensures
        r == units * unit_charge * 100,
{
    let u = units as u128;
    let c = unit_charge as u128;
    assert(u * c <= 0xffff_ffffu128 * 0xffff_ffff_ffff_ffffu128) by (nonlinear_arith)
        requires
            u <= 0xffff_ffffu128,
            c <= 0xffff_ffff_ffff_ffffu128,
    ;
    u * c * 100
}

/// Sum of the five amounts of a line, capped at `u128::MAX`.
fn capped_line_sum(l: &ServiceLineRemittance) -> (r: u128)
    ensures
        r == if line_sum(*l) <= u128::MAX {
            line_sum(*l)
        } else {
            u128::MAX as int
        },
{
    l.payer_paid_amount.saturating_add(l.coinsurance_amount).saturating_add(
        l.copay_amount,
    ).saturating_add(l.deductible_amount).saturating_add(l.not_allowed_amount)
}

impl Remittance {
    /// The remittance of a claim under the fixed split: for each service line,
    /// in order, 80% paid, 10% coinsurance, 5% copay, 3% deductible and 2% not
    /// allowed of units times unit charge.
    pub fn from_claim(claim: &PayerClaim) -> (r: Remittance)
        ensures
            is_remittance_of(r@, claim@),
    {
        let mut lines: Vec<ServiceLineRemittance> = Vec::new();
        let n = claim.service_lines.len();
        for i in 0..n
            invariant
                n == claim.service_lines@.len(),
                lines@.len() == i,
                forall|j: int|
                    0 <= j < i ==> adjudicates(#[trigger] lines@[j], claim@.service_lines[j]),
        {
            let line = &claim.service_lines[i];
            let (paid, coinsurance, copay, deductible, not_allowed) = adjudicate_line(
                line.units,
                line.unit_charge_amount,
            );
            lines.push(
                ServiceLineRemittance {
                    service_line_id: line.service_line_id.clone(),
                    payer_paid_amount: paid,
                    coinsurance_amount: coinsurance,
                    copay_amount: copay,
                    deductible_amount: deductible,
                    not_allowed_amount: not_allowed,
                },
            );
        }
        Remittance { claim_id: claim.claim_id.clone(), service_line_remittances: lines }
    }

    /// Checks each remittance line against the service line at the same
    /// position (as far as both lists go): its five amounts must sum to the
    /// billed amount within one cent. Reports the first line that does not.
    pub fn validate_against_claim(&self, claim: &PayerClaim) -> (r: Result<(), ValidationMismatch>)
        ensures
            r is Ok <==> balances(self@, claim@),
            r matches Err(e) ==> exists|i: int|
                {
                    &&& 0 <= i < paired_lines(self@, claim@)
                    &&& #[trigger] line_mismatch(self@, claim@, i)
                    &&& forall|j: int| 0 <= j < i ==> !line_mismatch(self@, claim@, j)
                    &&& e.service_line_id@ == self@.lines[i].service_line_id@
                    &&& e.billed == billed_amount(claim@.service_lines[i])
                    &&& e.remitted == if line_sum(self@.lines[i]) <= u128::MAX {
                        line_sum(self@.lines[i])
                    } else {
                        u128::MAX as int
                    }
                },
    {
        let n = if self.service_line_remittances.len() <= claim.service_lines.len() {
            self.service_line_remittances.len()
        } else {
            claim.service_lines.len()
        };
        for i in 0..n
            invariant
                n == paired_lines(self@, claim@),
                n <= self.service_line_remittances@.len(),
                n <= claim.service_lines@.len(),
                forall|j: int| 0 <= j < i ==> !#[trigger] line_mismatch(self@, claim@, j),
        {
            let remit = &self.service_line_remittances[i];
            let line = &claim.service_lines[i];
            let billed = line_billed(line.units, line.unit_charge_amount);
            assert(claim@.service_lines[i as int] == line@);
            assert(self@.lines[i as int] == *remit);
            assert(billed <= 0xffff_ffffu128 * 0xffff_ffff_ffff_ffffu128 * 100) by (nonlinear_arith)
                requires
                    billed == line.units * line.unit_charge_amount * 100,
                    line.units <= 0xffff_ffffu128,
                    line.unit_charge_amount <= 0xffff_ffff_ffff_ffffu128,
            ;
            let sum = capped_line_sum(remit);
            let mismatch = if sum >= billed {
                sum - billed > VALIDATION_TOLERANCE
            } else {
                billed - sum > VALIDATION_TOLERANCE
            };
            if mismatch {
                assert(line_mismatch(self@, claim@, i as int));
                return Err(
                    ValidationMismatch {
                        service_line_id: remit.service_line_id.clone(),
                        remitted: sum,
                        billed,
                    },
                );
            }
            assert(!line_mismatch(self@, claim@, i as int));
        }
        Ok(())
    }
}

/// A claim's remittance, as recorded once it has arrived. Times are seconds
/// since the start of the run.
pub struct RemittanceRecord {
    claim: PayerClaim,
    pub remittance: Remittance,
    submitted_at: u64,
    remitted_at: u64,
}

impl RemittanceRecord {
    /// The claim that the remittance answers.
    pub closed spec fn spec_claim(&self) -> PayerClaim {
        self.claim
    }

    /// The recorded remittance.
    pub closed spec fn spec_remittance(&self) -> Remittance {
        self.remittance
    }

    /// When the claim was submitted.
    pub closed spec fn spec_submitted_at(&self) -> u64 {
        self.submitted_at
    }

    /// When the remittance was recorded.
    pub closed spec fn spec_remitted_at(&self) -> u64 {
        self.remitted_at
    }

    pub fn new(claim: PayerClaim, remittance: Remittance, submitted_at: u64, remitted_at: u64) -> (r:
        Self)
        ensures
            r.spec_claim() == claim,
            r.spec_remittance() == remittance,
            r.spec_submitted_at() == submitted_at,
            r.spec_remitted_at() == remitted_at,
    {
        RemittanceRecord { claim, remittance, submitted_at, remitted_at }
    }

    pub fn remittance(&self) -> (r: &Remittance)
        ensures
            *r == self.spec_remittance(),
    {
        &self.remittance
    }

    /// Seconds from submission to remittance; zero if the clock went back.
    pub fn elapsed(&self) -> (r: u64)
        ensures
            r == if self.spec_remitted_at() >= self.spec_submitted_at() {
                self.spec_remitted_at() - self.spec_submitted_at()
            } else {
                0
            },
    {
        self.remitted_at.saturating_sub(self.submitted_at)
    }

    pub fn patient_id(&self) -> (r: &str)
        ensures
            r@ == self.spec_claim()@.patient_member_id,
    {
        self.claim.insurance.patient_member_id.as_str()
    }

    pub fn payer_id(&self) -> (r: &str)
        ensures
            r@ == self.spec_claim()@.payer_id,
    {
        self.claim.insurance.payer_id.as_str()
    }
}

} // verus!
