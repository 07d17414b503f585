use healthtechsim::biller::{Biller, BillerError, BillerStep, CompletionCounter};
use healthtechsim::clearinghouse::{ClaimRouting, Clearinghouse, RemittanceRouting};
use healthtechsim::config::Config;
use healthtechsim::message::{ClaimEnvelope, ClaimMessage, ClaimStatus, PayerMessage, RemittanceMessage};
use healthtechsim::payer::Payer;
use healthtechsim::reader::{claim_of_line, select_valid_claims};
use healthtechsim::remittance::{Remittance, ServiceLineRemittance};
use healthtechsim::reporter::{ar_aging, outstanding_by_bucket, outstanding_claims, patient_financials};
use healthtechsim::schema::{
    Address, Contact, Insurance, Organization, Patient, PayerClaim, Provider, ServiceLine,
};
use healthtechsim::table::KeyedTable;

/// Hundredths of a cent per dollar.
const DOLLAR: u128 = 10_000;

fn mock_claim() -> PayerClaim {
    PayerClaim {
        claim_id: "abc123".to_string(),
        place_of_service_code: 11,
        insurance: Insurance {
            payer_id: "medicare".to_string(),
            patient_member_id: "pmid456".to_string(),
        },
        patient: Patient {
            first_name: "Jane".to_string(),
            last_name: "Doe".to_string(),
            gender: "f".to_string(),
            dob: "1990-01-01".to_string(),
            email: Some("jane.doe@example.com".to_string()),
            address: Some(Address {
                street: Some("123 Main St".to_string()),
                city: Some("Metropolis".to_string()),
                state: Some("NY".to_string()),
                zip: Some("12345".to_string()),
                country: Some("USA".to_string()),
            }),
        },
        organization: Organization {
            name: "Health Inc".to_string(),
            billing_npi: Some("9876543210".to_string()),
            ein: Some("12-3456789".to_string()),
            contact: Some(Contact {
                first_name: Some("Bob".to_string()),
                last_name: Some("Jones".to_string()),
                phone_number: Some("555-1234".to_string()),
            }),
            address: Some(Address {
                street: Some("456 Health Ave".to_string()),
                city: Some("Gotham".to_string()),
                state: Some("CA".to_string()),
                zip: Some("67890".to_string()),
                country: Some("USA".to_string()),
            }),
        },
        rendering_provider: Provider {
            first_name: "Alice".to_string(),
            last_name: "Smith".to_string(),
            npi: "1234567890".to_string(),
        },
        service_lines: vec![ServiceLine {
            service_line_id: "sl1".to_string(),
            procedure_code: "99213".to_string(),
            units: 1,
            details: "Office visit".to_string(),
            unit_charge_currency: "USD".to_string(),
            unit_charge_amount: 15_000,
            modifiers: Some(vec!["A1".to_string(), "B2".to_string()]),
            do_not_bill: Some(true),
        }],
    }
}

fn claim_with(claim_id: &str, payer_id: &str) -> PayerClaim {
    let mut claim = mock_claim();
    claim.claim_id = claim_id.to_string();
    claim.insurance.payer_id = payer_id.to_string();
    claim
}

fn line(id: &str, paid: u128, coinsurance: u128, copay: u128, deductible: u128, not_allowed: u128) -> ServiceLineRemittance {
    ServiceLineRemittance {
        service_line_id: id.to_string(),
        payer_paid_amount: paid * DOLLAR,
        coinsurance_amount: coinsurance * DOLLAR,
        copay_amount: copay * DOLLAR,
        deductible_amount: deductible * DOLLAR,
        not_allowed_amount: not_allowed * DOLLAR,
    }
}

fn mock_remittance() -> Remittance {
    Remittance {
        claim_id: "abc123".to_string(),
        service_line_remittances: vec![line("sl1", 120, 15, 10, 5, 0), line("sl2", 80, 20, 0, 0, 0)],
    }
}

fn payers() -> KeyedTable<u32> {
    let mut payers = KeyedTable::new();
    payers.insert("medicare".to_string(), 1);
    payers.insert("united_health_group".to_string(), 2);
    payers.insert("anthem".to_string(), 3);
    payers
}

fn clearinghouse() -> Clearinghouse<u32, u32> {
    Clearinghouse::new(payers(), false)
}

fn envelope(claim: PayerClaim, response_tx: u32) -> ClaimEnvelope<u32> {
    ClaimEnvelope { claim, response_tx }
}

fn line_sum(l: &ServiceLineRemittance) -> u128 {
    l.payer_paid_amount + l.coinsurance_amount + l.copay_amount + l.deductible_amount + l.not_allowed_amount
}

fn config(ingest_rate: u64) -> Config {
    Config { file_path: "mock_path.json".to_string(), ingest_rate, verbose: false }
}

fn is_remitted(ch: &Clearinghouse<u32, u32>, claim_id: &str) -> bool {
    matches!(ch.history().get(&claim_id.to_string()), Some(ClaimStatus::Remitted(_)))
}

fn is_submitted(ch: &Clearinghouse<u32, u32>, claim_id: &str) -> bool {
    matches!(ch.history().get(&claim_id.to_string()), Some(ClaimStatus::Submitted { .. }))
}

/// Runs a claim through the clearinghouse and its payer, as the pipeline
/// does, and returns where its remittance went.
fn run_claim(ch: &mut Clearinghouse<u32, u32>, claim: PayerClaim, sink: u32, now: u64) -> Option<(u32, Remittance)> {
    match ch.handle_claim(envelope(claim, sink), now) {
        ClaimRouting::Forward { message: PayerMessage::Adjudicate(claim), .. } => {
            let payer = Payer::new("medicare".to_string(), 1, 2, false);
            let adjudication = payer.adjudicate(&claim);
            assert!(adjudication.validation.is_ok());
            match ch.handle_remittance(adjudication.remittance, now + 1) {
                RemittanceRouting::Deliver { response_tx, message: RemittanceMessage::Processed(r) } => Some((response_tx, r)),
                _ => None,
            }
        }
        ClaimRouting::UnknownPayer => None,
    }
}

#[test]
fn single_claim_happy_path() {
    let mut ch = clearinghouse();
    let mut counter = CompletionCounter::new(1);
    let (sink, remittance) = run_claim(&mut ch, mock_claim(), 7, 0).expect("remittance delivered");
    assert_eq!(sink, 7);
    assert_eq!(remittance.claim_id, "abc123");
    assert_eq!(remittance.service_line_remittances.len(), 1);
    let l = &remittance.service_line_remittances[0];
    assert_eq!(l.service_line_id, "sl1");
    assert_eq!(l.payer_paid_amount, 1_200_000);
    assert_eq!(l.coinsurance_amount, 150_000);
    assert_eq!(l.copay_amount, 75_000);
    assert_eq!(l.deductible_amount, 45_000);
    assert_eq!(l.not_allowed_amount, 30_000);
    assert_eq!(line_sum(l), 150 * DOLLAR);
    assert!(is_remitted(&ch, "abc123"));
    assert!(counter.record());
    assert_eq!(counter.received(), 1);
}

#[test]
fn two_payers() {
    let mut ch = clearinghouse();
    let mut counter = CompletionCounter::new(2);
    let (s1, r1) = run_claim(&mut ch, claim_with("medicare_claim", "medicare"), 1, 0).expect("first");
    assert!(!counter.record());
    let (s2, r2) = run_claim(&mut ch, claim_with("anthem_claim", "anthem"), 2, 0).expect("second");
    assert!(counter.record());
    assert_eq!((s1, r1.claim_id.as_str()), (1, "medicare_claim"));
    assert_eq!((s2, r2.claim_id.as_str()), (2, "anthem_claim"));
    assert!(is_remitted(&ch, "medicare_claim"));
    assert!(is_remitted(&ch, "anthem_claim"));
    assert_eq!(counter.received(), 2);
}

#[test]
fn unknown_payer() {
    let mut ch = clearinghouse();
    let counter = CompletionCounter::new(1);
    assert!(run_claim(&mut ch, claim_with("abc123", "unknown"), 1, 100).is_none());
    assert!(is_submitted(&ch, "abc123"));
    let aging = ar_aging(ch.history(), 130);
    assert_eq!(aging.len(), 1);
    assert_eq!(aging[0].payer_id, "unknown");
    assert_eq!(aging[0].buckets, vec![1, 0, 0, 0]);
    assert!(patient_financials(ch.history()).is_empty());
    assert_eq!(counter.received(), 0);
}

#[test]
fn malformed_input_lines_are_skipped() {
    let decoded = vec![
        Err("{bad}".to_string()),
        Ok(mock_claim()),
        Err("{bad}".to_string()),
    ];
    let claims = select_valid_claims(decoded);
    assert_eq!(claims.len(), 1);
    assert_eq!(claims[0].claim_id, "abc123");
    assert_eq!(claims[0].insurance.payer_id, "medicare");
    assert_eq!(claims[0].service_lines[0].unit_charge_amount, 15_000);
}

#[test]
fn clearinghouse_teardown() {
    let mut biller = match Biller::new(&config(1), 1) {
        Ok(b) => b,
        Err(_) => panic!("valid configuration"),
    };
    let message = biller.wrap_claim(mock_claim(), 0u32);
    let ClaimMessage::NewClaim(env) = message;
    assert_eq!(env.claim.claim_id, "abc123");
    assert!(matches!(biller.after_forward(false), BillerStep::Failed(BillerError::DownstreamGone)));
}

#[test]
fn duplicate_remittance() {
    let mut ch = clearinghouse();
    assert!(matches!(ch.handle_claim(envelope(mock_claim(), 9), 0), ClaimRouting::Forward { payer_tx: 1, .. }));
    let first = Remittance::from_claim(&mock_claim());
    let second = Remittance::from_claim(&mock_claim());
    match ch.handle_remittance(first, 5) {
        RemittanceRouting::Deliver { response_tx, message: RemittanceMessage::Processed(r) } => {
            assert_eq!(response_tx, 9);
            assert_eq!(r.claim_id, "abc123");
        }
        _ => panic!("first remittance is delivered"),
    }
    assert!(matches!(ch.handle_remittance(second, 6), RemittanceRouting::WrongState));
    match ch.history().get(&"abc123".to_string()) {
        Some(ClaimStatus::Remitted(record)) => assert_eq!(record.elapsed(), 5),
        _ => panic!("claim stays remitted"),
    }
}

#[test]
fn test_biller_invalid_config() {
    assert!(matches!(Biller::new(&config(0), 1), Err(BillerError::ConfigInvalid)));
}

#[test]
fn test_biller_clearinghouse_channel_dropped() {
    let mut biller = match Biller::new(&config(1), 1) {
        Ok(b) => b,
        Err(_) => panic!("valid configuration"),
    };
    let _ = biller.wrap_claim(mock_claim(), ());
    assert!(matches!(biller.after_forward(false), BillerStep::Failed(BillerError::DownstreamGone)));
}

#[test]
fn test_run_biller() {
    let mut biller = match Biller::new(&config(1), 1) {
        Ok(b) => b,
        Err(_) => panic!("valid configuration"),
    };
    assert_eq!(biller.interval_secs(), 1);
    let ClaimMessage::NewClaim(env) = biller.wrap_claim(mock_claim(), 3u8);
    assert_eq!(env.claim.claim_id, "abc123");
    assert_eq!(env.response_tx, 3);
    assert_eq!(biller.claims_sent(), 1);
    assert!(matches!(biller.after_forward(true), BillerStep::Finished));
}

#[test]
fn biller_continues_until_total() {
    let mut biller = match Biller::new(&config(2), 2) {
        Ok(b) => b,
        Err(_) => panic!("valid configuration"),
    };
    assert_eq!(biller.interval_secs(), 2);
    let _ = biller.wrap_claim(mock_claim(), ());
    assert!(matches!(biller.after_forward(true), BillerStep::Continue));
    let _ = biller.wrap_claim(mock_claim(), ());
    assert!(matches!(biller.after_forward(true), BillerStep::Finished));
}

#[test]
fn biller_with_no_expected_claims_takes_none() {
    let biller = match Biller::new(&config(1), 0) {
        Ok(b) => b,
        Err(_) => panic!("valid configuration"),
    };
    assert!(!biller.wants_claim());
    assert!(matches!(biller.after_forward(true), BillerStep::Finished));
}

#[test]
fn biller_stops_wanting_after_total() {
    let mut biller = match Biller::new(&config(1), 2) {
        Ok(b) => b,
        Err(_) => panic!("valid configuration"),
    };
    let mut forwarded = 0;
    while biller.wants_claim() {
        let _ = biller.wrap_claim(mock_claim(), ());
        forwarded += 1;
    }
    assert_eq!(forwarded, 2);
    assert_eq!(biller.claims_sent(), 2);
}

#[test]
fn completion_counter_fires_once() {
    let mut counter = CompletionCounter::new(2);
    assert!(!counter.record());
    assert!(counter.record());
    assert!(!counter.record());
    assert_eq!(counter.received(), 3);
}

#[test]
fn test_handle_claim_unknown_payer() {
    let mut ch = clearinghouse();
    let routing = ch.handle_claim(envelope(claim_with("abc123", "unknown_payer"), 4), 0);
    assert!(matches!(routing, ClaimRouting::UnknownPayer));
    assert!(is_submitted(&ch, "abc123"));
}

#[test]
fn test_handle_remittance_no_history() {
    let mut ch = clearinghouse();
    let mut remittance = mock_remittance();
    remittance.claim_id = "unknown_claim".to_string();
    assert!(matches!(ch.handle_remittance(remittance, 0), RemittanceRouting::NotFound));
    assert_eq!(ch.history().len(), 0);
}

#[test]
fn test_handle_remittance_wrong_state() {
    let mut ch = clearinghouse();
    let _ = ch.handle_claim(envelope(mock_claim(), 1), 0);
    assert!(matches!(ch.handle_remittance(mock_remittance(), 1), RemittanceRouting::Deliver { response_tx: 1, .. }));
    assert!(matches!(ch.handle_remittance(mock_remittance(), 2), RemittanceRouting::WrongState));
    assert!(is_remitted(&ch, "abc123"));
}

#[test]
fn test_run_clearinghouse() {
    let mut ch = clearinghouse();
    match ch.handle_claim(envelope(mock_claim(), 5), 0) {
        ClaimRouting::Forward { payer_tx, message: PayerMessage::Adjudicate(claim) } => {
            assert_eq!(payer_tx, 1);
            assert_eq!(claim.claim_id, "abc123");
            assert_eq!(claim.insurance.payer_id, "medicare");
        }
        ClaimRouting::UnknownPayer => panic!("Expected PayerMessage::Adjudicate"),
    }
    match ch.handle_remittance(mock_remittance(), 1) {
        RemittanceRouting::Deliver { response_tx, message: RemittanceMessage::Processed(r) } => {
            assert_eq!(response_tx, 5);
            assert_eq!(r.claim_id, "abc123");
        }
        _ => panic!("Expected RemittanceMessage::Processed"),
    }
}

#[test]
fn test_clearinghouse_multiple_claims() {
    let mut ch = clearinghouse();
    let _ = ch.handle_claim(envelope(mock_claim(), 1), 0);
    let _ = ch.handle_claim(envelope(claim_with("claim2", "medicare"), 2), 0);
    let mut remittance2 = mock_remittance();
    remittance2.claim_id = "claim2".to_string();
    assert!(matches!(ch.handle_remittance(remittance2, 1), RemittanceRouting::Deliver { response_tx: 2, .. }));
    assert!(matches!(ch.handle_remittance(mock_remittance(), 1), RemittanceRouting::Deliver { response_tx: 1, .. }));
}

#[test]
fn duplicate_claim_id_replaces_earlier_entry() {
    let mut ch = clearinghouse();
    let _ = ch.handle_claim(envelope(mock_claim(), 1), 0);
    let mut other = mock_claim();
    other.patient.first_name = "Other".to_string();
    let _ = ch.handle_claim(envelope(other, 2), 3);
    assert_eq!(ch.history().len(), 1);
    assert!(matches!(ch.handle_remittance(mock_remittance(), 4), RemittanceRouting::Deliver { response_tx: 2, .. }));
}

#[test]
fn test_run_payer() {
    let claim = mock_claim();
    let payer = Payer::new("medicare".to_string(), 1, 2, true);
    let adjudication = payer.adjudicate(&claim);
    let remittance = adjudication.remittance;
    assert!(adjudication.validation.is_ok());
    assert_eq!(remittance.claim_id, claim.claim_id);
    assert_eq!(remittance.service_line_remittances.len(), claim.service_lines.len());
    for (i, service_line) in claim.service_lines.iter().enumerate() {
        let l = &remittance.service_line_remittances[i];
        assert_eq!(l.service_line_id, service_line.service_line_id);
        assert!(l.payer_paid_amount > 0);
        assert!(l.coinsurance_amount > 0);
        assert!(l.copay_amount > 0);
        assert!(l.deductible_amount > 0);
        assert!(l.not_allowed_amount > 0);
        let billed = service_line.units as u128 * service_line.unit_charge_amount as u128 * 100;
        assert_eq!(line_sum(l), billed);
    }
}

#[test]
fn test_payer_invalid_claim() {
    let mut claim = mock_claim();
    for l in &mut claim.service_lines {
        l.unit_charge_amount = 0;
        l.units = 0;
    }
    let payer = Payer::new("medicare".to_string(), 1, 1, false);
    let adjudication = payer.adjudicate(&claim);
    assert_eq!(adjudication.remittance.claim_id, claim.claim_id);
    for l in &adjudication.remittance.service_line_remittances {
        assert_eq!(l.payer_paid_amount, 0);
        assert_eq!(l.coinsurance_amount, 0);
        assert_eq!(l.copay_amount, 0);
        assert_eq!(l.deductible_amount, 0);
        assert_eq!(l.not_allowed_amount, 0);
    }
}

#[test]
fn test_payer_empty_service_lines() {
    let mut claim = mock_claim();
    claim.service_lines.clear();
    let r = Remittance::from_claim(&claim);
    assert_eq!(r.claim_id, claim.claim_id);
    assert_eq!(r.service_line_remittances.len(), 0);
}

#[test]
fn test_payer_large_amounts() {
    let mut claim = mock_claim();
    for l in &mut claim.service_lines {
        l.unit_charge_amount = 100_000_000;
        l.units = 10;
    }
    let r = Remittance::from_claim(&claim);
    assert_eq!(r.claim_id, claim.claim_id);
    assert_eq!(line_sum(&r.service_line_remittances[0]), 10_000_000 * DOLLAR);
    assert!(r.validate_against_claim(&claim).is_ok());
}

#[test]
fn largest_charge_does_not_overflow() {
    let mut claim = mock_claim();
    claim.service_lines[0].units = u32::MAX;
    claim.service_lines[0].unit_charge_amount = u64::MAX;
    let r = Remittance::from_claim(&claim);
    let total = u32::MAX as u128 * u64::MAX as u128;
    assert_eq!(r.service_line_remittances[0].payer_paid_amount, total * 80);
    assert_eq!(line_sum(&r.service_line_remittances[0]), total * 100);
    assert!(r.validate_against_claim(&claim).is_ok());
}

#[test]
fn test_payer_response_time_range() {
    let payer = Payer::new("medicare".to_string(), 1, 2, false);
    let mut seen = [false; 3];
    for _ in 0..200 {
        let d = payer.random_delay();
        assert!((1..=2).contains(&d));
        seen[d as usize] = true;
    }
    assert!(seen[1] && seen[2], "both ends of the range are drawn");
    let fixed = Payer::new("medicare".to_string(), 5, 5, false);
    assert_eq!(fixed.random_delay(), 5);
    assert_eq!(fixed.payer_id(), "medicare");
}

#[test]
fn validation_reports_first_mismatch() {
    let claim = mock_claim();
    let mut r = mock_remittance();
    assert!(r.validate_against_claim(&claim).is_ok());
    r.service_line_remittances[0].copay_amount = 7 * DOLLAR;
    match r.validate_against_claim(&claim) {
        Err(e) => {
            assert_eq!(e.service_line_id, "sl1");
            assert_eq!(e.remitted, 147 * DOLLAR);
            assert_eq!(e.billed, 150 * DOLLAR);
        }
        Ok(()) => panic!("a copay of 7 leaves the line 3 dollars short"),
    }
    r.service_line_remittances[0].payer_paid_amount = 120 * DOLLAR - 100;
    r.service_line_remittances[0].copay_amount = 10 * DOLLAR;
    assert!(r.validate_against_claim(&claim).is_ok());
    r.service_line_remittances[0].payer_paid_amount = 120 * DOLLAR - 101;
    assert!(r.validate_against_claim(&claim).is_err());
}

#[test]
fn test_stream_claims_invalid_json() {
    let decoded = vec![
        Err("not a json".to_string()),
        Ok(mock_claim()),
        Err("{{ invalid json }}".to_string()),
    ];
    let claims = select_valid_claims(decoded);
    assert_eq!(claims.len(), 1);
    assert_eq!(claims[0].claim_id, "abc123");
}

#[test]
fn valid_lines_keep_file_order() {
    let decoded = vec![
        Ok(claim_with("a", "medicare")),
        Err("x".to_string()),
        Ok(claim_with("b", "anthem")),
        Ok(claim_with("c", "medicare")),
    ];
    let ids: Vec<String> = select_valid_claims(decoded).into_iter().map(|c| c.claim_id).collect();
    assert_eq!(ids, vec!["a", "b", "c"]);
}

#[test]
fn aging_buckets_by_age() {
    let mut ch = clearinghouse();
    let _ = ch.handle_claim(envelope(claim_with("c0", "unknown"), 0), 0);
    let _ = ch.handle_claim(envelope(claim_with("c1", "unknown"), 1), 100);
    let _ = ch.handle_claim(envelope(claim_with("c2", "other"), 2), 150);
    let _ = ch.handle_claim(envelope(claim_with("c3", "unknown"), 3), 200);
    let aging = ar_aging(ch.history(), 240);
    assert_eq!(aging.len(), 2);
    assert_eq!(aging[0].payer_id, "unknown");
    assert_eq!(aging[0].buckets, vec![1, 0, 1, 1]);
    assert_eq!(aging[1].payer_id, "other");
    assert_eq!(aging[1].buckets, vec![0, 1, 0, 0]);
    assert_eq!(outstanding_by_bucket(ch.history(), 240), vec![1, 1, 1, 1]);
    assert_eq!(outstanding_claims(ch.history()), 4);
}

#[test]
fn outstanding_totals_skip_remitted_claims() {
    let mut ch = clearinghouse();
    let _ = run_claim(&mut ch, claim_with("a", "medicare"), 1, 0);
    let _ = ch.handle_claim(envelope(claim_with("b", "unknown"), 2), 0);
    let _ = ch.handle_claim(envelope(claim_with("c", "unknown"), 3), 70);
    assert_eq!(outstanding_by_bucket(ch.history(), 100), vec![1, 1, 0, 0]);
    assert_eq!(outstanding_claims(ch.history()), 2);
}

#[test]
fn claim_of_line_keeps_only_decoded_claims() {
    assert!(claim_of_line(Err("{bad}".to_string())).is_none());
    let claim = claim_of_line(Ok(mock_claim())).expect("decoded line goes on");
    assert_eq!(claim.claim_id, "abc123");
}

#[test]
fn patient_totals_from_remitted_claims() {
    let mut ch = clearinghouse();
    let _ = run_claim(&mut ch, claim_with("a", "medicare"), 1, 0);
    let _ = run_claim(&mut ch, claim_with("b", "anthem"), 2, 0);
    let _ = ch.handle_claim(envelope(claim_with("c", "unknown"), 3), 0);
    let totals = patient_financials(ch.history());
    assert_eq!(totals.len(), 1);
    assert_eq!(totals[0].patient_member_id, "pmid456");
    assert_eq!(totals[0].copay, 2 * 75_000);
    assert_eq!(totals[0].coinsurance, 2 * 150_000);
    assert_eq!(totals[0].deductible, 2 * 45_000);
    let aging = ar_aging(ch.history(), 10);
    assert_eq!(aging.len(), 1);
    assert_eq!(aging[0].buckets, vec![1, 0, 0, 0]);
}

#[test]
fn remittance_record_accessors() {
    let mut ch = clearinghouse();
    let _ = ch.handle_claim(envelope(mock_claim(), 1), 10);
    let _ = ch.handle_remittance(Remittance::from_claim(&mock_claim()), 75);
    match ch.history().get(&"abc123".to_string()) {
        Some(ClaimStatus::Remitted(record)) => {
            assert_eq!(record.elapsed(), 65);
            assert_eq!(record.patient_id(), "pmid456");
            assert_eq!(record.payer_id(), "medicare");
            assert_eq!(record.remittance().service_line_remittances[0].copay_amount, 75_000);
        }
        _ => panic!("claim is remitted"),
    }
}

#[test]
fn test_remittance_amount_validation() {
    let mut ch = clearinghouse();
    let claim = mock_claim_with_charge(10_000, 2);
    let _ = run_claim(&mut ch, claim.clone(), 1, 0).expect("remittance delivered");
    match ch.history().get(&claim.claim_id) {
        Some(ClaimStatus::Remitted(record)) => {
            let remittance = record.remittance();
            assert!(remittance.validate_against_claim(&claim).is_ok(), "Remittance should validate against claim");
            assert_eq!(line_sum(&remittance.service_line_remittances[0]), 200 * DOLLAR, "Total remitted amount should equal billed amount");
        }
        _ => panic!("Claim should be remitted"),
    }
}

fn mock_claim_with_charge(unit_charge_amount: u64, units: u32) -> PayerClaim {
    let mut claim = mock_claim();
    claim.service_lines[0].unit_charge_amount = unit_charge_amount;
    claim.service_lines[0].units = units;
    claim
}

#[test]
fn test_claim_routing_to_correct_payer() {
    let mut ch = clearinghouse();
    match ch.handle_claim(envelope(claim_with("medicare_claim", "medicare"), 1), 0) {
        ClaimRouting::Forward { payer_tx, message: PayerMessage::Adjudicate(c) } => {
            assert_eq!(payer_tx, 1);
            assert_eq!(c.claim_id, "medicare_claim");
        }
        ClaimRouting::UnknownPayer => panic!("Medicare claim should be processed"),
    }
    match ch.handle_claim(envelope(claim_with("anthem_claim", "anthem"), 2), 0) {
        ClaimRouting::Forward { payer_tx, message: PayerMessage::Adjudicate(c) } => {
            assert_eq!(payer_tx, 3);
            assert_eq!(c.claim_id, "anthem_claim");
        }
        ClaimRouting::UnknownPayer => panic!("Anthem claim should be processed"),
    }
}

#[test]
fn test_unknown_payer_handling() {
    let mut ch = clearinghouse();
    let routing = ch.handle_claim(envelope(claim_with("abc123", "unknown_payer"), 1), 0);
    assert!(matches!(routing, ClaimRouting::UnknownPayer));
    let mut other = mock_remittance();
    other.claim_id = "other".to_string();
    assert!(matches!(ch.handle_remittance(other, 1), RemittanceRouting::NotFound));
    assert!(is_submitted(&ch, "abc123"), "Claim should be in Submitted status due to unknown payer");
}

#[test]
fn test_concurrent_claim_processing() {
    let mut ch = clearinghouse();
    let mut counter = CompletionCounter::new(5);
    let mut forwarded = Vec::new();
    for i in 0..5u32 {
        match ch.handle_claim(envelope(claim_with(&format!("claim_{}", i), "medicare"), 100 + i), 0) {
            ClaimRouting::Forward { message: PayerMessage::Adjudicate(c), .. } => forwarded.push(c),
            ClaimRouting::UnknownPayer => panic!("medicare is known"),
        }
    }
    let mut fired = 0;
    for (i, claim) in forwarded.iter().enumerate().rev() {
        match ch.handle_remittance(Remittance::from_claim(claim), 1) {
            RemittanceRouting::Deliver { response_tx, message: RemittanceMessage::Processed(r) } => {
                assert_eq!(response_tx, 100 + i as u32);
                assert_eq!(r.claim_id, format!("claim_{}", i));
                if counter.record() {
                    fired += 1;
                }
            }
            _ => panic!("Expected remittance notification"),
        }
    }
    assert_eq!(counter.received(), 5, "All 5 claims should be processed");
    assert_eq!(fired, 1);
    for i in 0..5 {
        assert!(is_remitted(&ch, &format!("claim_{}", i)), "Claim {} should be in history", i);
    }
}
