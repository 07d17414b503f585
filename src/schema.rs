//! The claim record. The pipeline carries it whole; it reads only the claim
//! identifier, the insurance block and each service line's identifier, unit
//! count and unit charge. The view of a claim holds exactly those fields.
use vstd::prelude::*;

verus! {

/// The root record of a claim.
pub struct PayerClaim {
    pub claim_id: String,
    pub place_of_service_code: u32,
    pub insurance: Insurance,
    pub patient: Patient,
    pub organization: Organization,
    pub rendering_provider: Provider,
    pub service_lines: Vec<ServiceLine>,
}

/// The insurance block: which payer adjudicates the claim, and the patient's
/// member identifier with that payer.
pub struct Insurance {
    pub payer_id: String,
    pub patient_member_id: String,
}

#[derive(Clone, Debug)]
pub struct Patient {
    pub first_name: String,
    pub last_name: String,
    pub gender: String,
    pub dob: String,
    pub email: Option<String>,
    pub address: Option<Address>,
}

#[derive(Clone, Debug)]
pub struct Organization {
    pub name: String,
    pub billing_npi: Option<String>,
    pub ein: Option<String>,
    pub contact: Option<Contact>,
    pub address: Option<Address>,
}

#[derive(Clone, Debug)]
pub struct Provider {
    pub first_name: String,
    pub last_name: String,
    pub npi: String,
}

/// One billable item of a claim. `unit_charge_amount` is in cents.
pub struct ServiceLine {
    pub service_line_id: String,
    pub procedure_code: String,
    pub units: u32,
    pub details: String,
    pub unit_charge_currency: String,
    pub unit_charge_amount: u64,
    pub modifiers: Option<Vec<String>>,
    pub do_not_bill: Option<bool>,
}

#[derive(Clone, Debug)]
pub struct Address {
    pub street: Option<String>,
    pub city: Option<String>,
    pub state: Option<String>,
    pub zip: Option<String>,
    pub country: Option<String>,
}

#[derive(Clone, Debug)]
pub struct Contact {
    pub first_name: Option<String>,
    pub last_name: Option<String>,
    pub phone_number: Option<String>,
}

/// What the pipeline reads of a service line.
pub struct ServiceLineView {
    pub service_line_id: Seq<char>,
    pub units: u32,
    pub unit_charge_amount: u64,
}

/// What the pipeline reads of a claim.
pub struct ClaimView {
    pub claim_id: Seq<char>,
    pub payer_id: Seq<char>,
    pub patient_member_id: Seq<char>,
    pub service_lines: Seq<ServiceLineView>,
}

impl View for ServiceLine {
    type V = ServiceLineView;

    open spec fn view(&self) -> ServiceLineView {
        ServiceLineView {
            service_line_id: self.service_line_id@,
            units: self.units,
            unit_charge_amount: self.unit_charge_amount,
        }
    }
}

impl View for PayerClaim {
    type V = ClaimView;

    open spec fn view(&self) -> ClaimView {
        ClaimView {
            claim_id: self.claim_id@,
            payer_id: self.insurance.payer_id@,
            patient_member_id: self.insurance.patient_member_id@,
            service_lines: self.service_lines@.map_values(|l: ServiceLine| l@),
        }
    }
}

/// The billed amount of a service line, in hundredths of a cent:
/// units times unit charge.
pub open spec fn billed_amount(line: ServiceLineView) -> int {
    line.units * line.unit_charge_amount * 100
}

impl Clone for Insurance {
    fn clone(&self) -> (r: Self)
        ensures
            r == *self,
    {
        Insurance { payer_id: self.payer_id.clone(), patient_member_id: self.patient_member_id.clone() }
    }
}

impl Clone for ServiceLine {
    fn clone(&self) -> (r: Self)
        ensures
            r@ == self@,
    {
        ServiceLine {
            service_line_id: self.service_line_id.clone(),
            procedure_code: self.procedure_code.clone(),
            units: self.units,
            details: self.details.clone(),
            unit_charge_currency: self.unit_charge_currency.clone(),
            unit_charge_amount: self.unit_charge_amount,
            modifiers: self.modifiers.clone(),
            do_not_bill: self.do_not_bill,
        }
    }
}

impl Clone for PayerClaim {
    fn clone(&self) -> (r: Self)
        ensures
            r@ == self@,
    {
        let mut lines: Vec<ServiceLine> = Vec::new();
        let n = self.service_lines.len();
        for i in 0..n
            invariant
                n == self.service_lines@.len(),
                lines@.len() == i,
                forall|j: int| 0 <= j < i ==> #[trigger] lines@[j]@ == self.service_lines@[j]@,
        {
            lines.push(self.service_lines[i].clone());
        }
        let r = PayerClaim {
            claim_id: self.claim_id.clone(),
            place_of_service_code: self.place_of_service_code,
            insurance: self.insurance.clone(),
            patient: self.patient.clone(),
            organization: self.organization.clone(),
            rendering_provider: self.rendering_provider.clone(),
            service_lines: lines,
        };
        assert(r.service_lines@.map_values(|l: ServiceLine| l@) =~= self.service_lines@.map_values(
            |l: ServiceLine| l@,
        ));
        r
    }
}

} // verus!
