//! The reporter's two views of the claim history: how long open claims have
//! been waiting, by payer, and what each patient owes, from remitted claims.
use crate::clearinghouse::{status_views, Clearinghouse};
use crate::message::{ClaimStatus, StatusView};
use crate::remittance::ServiceLineRemittance;
use crate::table::KeyedTable;
use vstd::prelude::*;

verus! {

/// Width of one age bucket, in seconds.
pub const BUCKET_SECS: u64 = 60;

/// Number of age buckets; the last one is open-ended.
pub const AGING_BUCKETS: usize = 4;

/// Seconds from `submitted_at` to `now`; zero if the clock went back.
pub open spec fn age_at(now: u64, submitted_at: u64) -> u64 {
    if now >= submitted_at {
        (now - submitted_at) as u64
    } else {
        0
    }
}

/// The age bucket of an age: under a minute, under two, under three, or
/// three minutes and more.
pub open spec fn bucket_of(age_secs: u64) -> int {
    if age_secs < BUCKET_SECS {
        0
    } else if age_secs < 2 * BUCKET_SECS {
        1
    } else if age_secs < 3 * BUCKET_SECS {
        2
    } else {
        3
    }
}

/// The statuses of a history, in the order in which their claims arrived.
pub open spec fn statuses(t: KeyedTable<ClaimStatus>) -> Seq<StatusView> {
    t.keys().map_values(|k: Seq<char>| t@[k]@)
}

/// `s` is an open claim of payer `payer`.
pub open spec fn is_open_for(s: StatusView, payer: Seq<char>) -> bool {
    s matches StatusView::Submitted { claim, .. } && claim.payer_id == payer
}

/// `s` is an open claim of payer `payer` whose age at `now` falls in bucket `b`.
pub open spec fn ages_into(s: StatusView, payer: Seq<char>, b: int, now: u64) -> bool {
    s matches StatusView::Submitted { claim, submitted_at } && claim.payer_id == payer && bucket_of(
        age_at(now, submitted_at),
    ) == b
}

/// How many open claims of `payer` fall in bucket `b` at `now`.
pub open spec fn aging_count(ss: Seq<StatusView>, payer: Seq<char>, b: int, now: u64) -> nat
    decreases ss.len(),
{
    if ss.len() == 0 {
        0
    } else {
        aging_count(ss.drop_last(), payer, b, now) + if ages_into(ss.last(), payer, b, now) {
            1nat
        } else {
            0nat
        }
    }
}

/// One row of the aging report: a payer and its open claims per age bucket.
pub struct AgingRow {
    pub payer_id: String,
    pub buckets: Vec<usize>,
}

/// `rows` is the aging report of `ss` at `now`: one row per payer that has an
/// open claim, each with its count per bucket.
#[verifier::opaque]
pub open spec fn is_aging_report(rows: Seq<AgingRow>, ss: Seq<StatusView>, now: u64) -> bool {
    &&& forall|i: int, j: int|
        0 <= i < rows.len() && 0 <= j < rows.len() && i != j ==> #[trigger] rows[i].payer_id@
            != #[trigger] rows[j].payer_id@
    &&& forall|i: int|
        #![trigger rows[i]]
        0 <= i < rows.len() ==> exists|k: int|
            0 <= k < ss.len() && is_open_for(#[trigger] ss[k], rows[i].payer_id@)
    &&& forall|k: int|
        0 <= k < ss.len() && #[trigger] ss[k] is Submitted ==> exists|i: int|
            0 <= i < rows.len() && rows[i].payer_id@ == ss[k]->Submitted_claim.payer_id
    &&& forall|i: int|
        0 <= i < rows.len() ==> {
            &&& (#[trigger] rows[i]).buckets@.len() == AGING_BUCKETS
            &&& forall|b: int|
                0 <= b < AGING_BUCKETS ==> rows[i].buckets@[b] == aging_count(
                    ss,
                    rows[i].payer_id@,
                    b,
                    now,
                )
        }
}

proof fn lemma_aging_count_step(ss: Seq<StatusView>, i: int, payer: Seq<char>, b: int, now: u64)
    requires
        0 <= i < ss.len(),
    ensures
        aging_count(ss.take(i + 1), payer, b, now) == aging_count(ss.take(i), payer, b, now) + if ages_into(
            ss[i],
            payer,
            b,
            now,
        ) {
            1nat
        } else {
            0nat
        },
{
    assert(ss.take(i + 1).drop_last() =~= ss.take(i));
    assert(ss.take(i + 1).last() == ss[i]);
}

proof fn lemma_aging_count_none(ss: Seq<StatusView>, payer: Seq<char>, b: int, now: u64)
    requires
        forall|k: int| 0 <= k < ss.len() ==> !is_open_for(#[trigger] ss[k], payer),
    ensures
        aging_count(ss, payer, b, now) == 0,
    decreases ss.len(),
{
    if ss.len() > 0 {
        assert(forall|k: int| 0 <= k < ss.drop_last().len() ==> ss.drop_last()[k] == ss[k]);
        lemma_aging_count_none(ss.drop_last(), payer, b, now);
        assert(!is_open_for(ss[ss.len() - 1], payer));
    }
}

/// The age bucket of an age in seconds.
pub fn age_bucket(age_secs: u64) -> (r: usize)
    ensures
        r == bucket_of(age_secs),
{
    if age_secs < BUCKET_SECS {
        0
    } else if age_secs < 2 * BUCKET_SECS {
        1
    } else if age_secs < 3 * BUCKET_SECS {
        2
    } else {
        3
    }
}

fn position_of_payer(rows: &Vec<AgingRow>, payer_id: &String) -> (r: Option<usize>)
    ensures
        match r {
            Some(j) => j < rows@.len() && rows@[j as int].payer_id@ == payer_id@,
            None => forall|j: int| 0 <= j < rows@.len() ==> rows@[j].payer_id@ != payer_id@,
        },
{
    let n = rows.len();
    for j in 0..n
        invariant
            n == rows@.len(),
            forall|i: int| 0 <= i < j ==> rows@[i].payer_id@ != payer_id@,
    {
        if rows[j].payer_id == *payer_id {
            return Some(j);
        }
    }
    None
}

/// The step of the aging report over an entry that is not open.
#[verifier::rlimit(50)]
proof fn lemma_aging_skip(rows: Seq<AgingRow>, ss: Seq<StatusView>, i: int, now: u64)
    requires
        0 <= i < ss.len(),
        ss[i] is Remitted,
        is_aging_report(rows, ss.take(i), now),
    ensures
        is_aging_report(rows, ss.take(i + 1), now),
{
    reveal(is_aging_report);
    let prefix = ss.take(i);
    let next = ss.take(i + 1);
    assert(next[i] == ss[i]);
    assert forall|k: int| 0 <= k < i implies next[k] == prefix[k] by {}
    assert forall|jj: int, bb: int|
        0 <= jj < rows.len() && 0 <= bb < AGING_BUCKETS implies #[trigger] rows[jj].buckets@[bb]
        == aging_count(next, rows[jj].payer_id@, bb, now) by {
        lemma_aging_count_step(ss, i, rows[jj].payer_id@, bb, now);
    }
    assert forall|jj: int|
        #![trigger rows[jj]]
        0 <= jj < rows.len() implies exists|k: int|
            0 <= k < next.len() && is_open_for(#[trigger] next[k], rows[jj].payer_id@) by {
        let k = choose|k: int| 0 <= k < prefix.len() && is_open_for(#[trigger] prefix[k], rows[jj].payer_id@);
        assert(next[k] == prefix[k]);
    }
    assert forall|k: int|
        0 <= k < next.len() && #[trigger] next[k] is Submitted implies exists|jj: int|
            0 <= jj < rows.len() && rows[jj].payer_id@ == next[k]->Submitted_claim.payer_id by {
        assert(prefix[k] == next[k]);
    }
}

/// The step of the aging report over an open claim whose payer has a row.
#[verifier::rlimit(50)]
proof fn lemma_aging_count_into_row(
    before: Seq<AgingRow>,
    rows: Seq<AgingRow>,
    ss: Seq<StatusView>,
    i: int,
    j: int,
    b: int,
    now: u64,
)
    requires
        0 <= i < ss.len(),
        0 <= j < before.len(),
        0 <= b < AGING_BUCKETS,
        ss[i] is Submitted,
        before[j].payer_id@ == ss[i]->Submitted_claim.payer_id,
        b == bucket_of(age_at(now, ss[i]->Submitted_submitted_at)),
        is_aging_report(before, ss.take(i), now),
        rows.len() == before.len(),
        forall|jj: int| 0 <= jj < rows.len() && jj != j ==> #[trigger] rows[jj] == before[jj],
        rows[j].payer_id@ == before[j].payer_id@,
        rows[j].buckets@.len() == before[j].buckets@.len(),
        rows[j].buckets@[b] == before[j].buckets@[b] + 1,
        forall|bb: int| 0 <= bb < AGING_BUCKETS && bb != b ==> rows[j].buckets@[bb] == before[j].buckets@[bb],
    ensures
        is_aging_report(rows, ss.take(i + 1), now),
{
    reveal(is_aging_report);
    let prefix = ss.take(i);
    let next = ss.take(i + 1);
    assert forall|k: int| 0 <= k < i implies next[k] == prefix[k] by {}
    assert(next[i] == ss[i]);
    assert forall|jj: int, bb: int|
        0 <= jj < rows.len() && 0 <= bb < AGING_BUCKETS implies #[trigger] rows[jj].buckets@[bb]
        == aging_count(next, rows[jj].payer_id@, bb, now) by {
        lemma_aging_count_step(ss, i, rows[jj].payer_id@, bb, now);
        assert(before[jj].buckets@[bb] == aging_count(ss.take(i), before[jj].payer_id@, bb, now));
        if jj != j {
            assert(rows[jj] == before[jj]);
            assert(before[jj].payer_id@ != before[j].payer_id@);
        }
    }
    assert forall|jj: int|
        #![trigger rows[jj]]
        0 <= jj < rows.len() implies exists|k: int|
            0 <= k < next.len() && is_open_for(#[trigger] next[k], rows[jj].payer_id@) by {
        assert(before[jj].payer_id@ == rows[jj].payer_id@);
        let k = choose|k: int| 0 <= k < prefix.len() && is_open_for(#[trigger] prefix[k], before[jj].payer_id@);
        assert(next[k] == prefix[k]);
    }
    assert forall|k: int|
        0 <= k < next.len() && #[trigger] next[k] is Submitted implies exists|jj: int|
            0 <= jj < rows.len() && rows[jj].payer_id@ == next[k]->Submitted_claim.payer_id by {
        if k < i {
            assert(prefix[k] == next[k]);
            let jj = choose|jj: int|
                0 <= jj < before.len() && before[jj].payer_id@ == prefix[k]->Submitted_claim.payer_id;
            assert(rows[jj].payer_id@ == before[jj].payer_id@);
        } else {
            assert(rows[j].payer_id@ == next[k]->Submitted_claim.payer_id);
        }
    }
    assert forall|ii: int, jj: int|
        0 <= ii < rows.len() && 0 <= jj < rows.len() && ii != jj implies #[trigger] rows[ii].payer_id@
        != #[trigger] rows[jj].payer_id@ by {
        assert(before[ii].payer_id@ == rows[ii].payer_id@);
        assert(before[jj].payer_id@ == rows[jj].payer_id@);
        assert(before[ii].payer_id@ != before[jj].payer_id@);
    }
}

/// The step of the aging report over an open claim of a payer without a row.
#[verifier::rlimit(50)]
proof fn lemma_aging_new_row(
    before: Seq<AgingRow>,
    rows: Seq<AgingRow>,
    ss: Seq<StatusView>,
    i: int,
    b: int,
    now: u64,
)
    requires
        0 <= i < ss.len(),
        0 <= b < AGING_BUCKETS,
        ss[i] is Submitted,
        b == bucket_of(age_at(now, ss[i]->Submitted_submitted_at)),
        forall|jj: int| 0 <= jj < before.len() ==> before[jj].payer_id@ != ss[i]->Submitted_claim.payer_id,
        is_aging_report(before, ss.take(i), now),
        rows.len() == before.len() + 1,
        forall|jj: int| 0 <= jj < before.len() ==> #[trigger] rows[jj] == before[jj],
        rows[before.len() as int].payer_id@ == ss[i]->Submitted_claim.payer_id,
        rows[before.len() as int].buckets@ == seq![0usize, 0usize, 0usize, 0usize].update(b, 1usize),
    ensures
        is_aging_report(rows, ss.take(i + 1), now),
{
    reveal(is_aging_report);
    let prefix = ss.take(i);
    let next = ss.take(i + 1);
    let last = before.len() as int;
    let q = ss[i]->Submitted_claim.payer_id;
    assert forall|k: int| 0 <= k < i implies next[k] == prefix[k] by {}
    assert(next[i] == ss[i]);
    assert forall|k: int| 0 <= k < prefix.len() implies !is_open_for(#[trigger] prefix[k], q) by {
        if is_open_for(prefix[k], q) {
            assert(prefix[k] is Submitted);
            let jj = choose|jj: int|
                0 <= jj < before.len() && before[jj].payer_id@ == prefix[k]->Submitted_claim.payer_id;
        }
    }
    assert forall|jj: int, bb: int|
        0 <= jj < rows.len() && 0 <= bb < AGING_BUCKETS implies #[trigger] rows[jj].buckets@[bb]
        == aging_count(next, rows[jj].payer_id@, bb, now) by {
        lemma_aging_count_step(ss, i, rows[jj].payer_id@, bb, now);
        if jj == last {
            lemma_aging_count_none(prefix, q, bb, now);
        } else {
            assert(rows[jj] == before[jj]);
        }
    }
    assert forall|jj: int|
        #![trigger rows[jj]]
        0 <= jj < rows.len() implies exists|k: int|
            0 <= k < next.len() && is_open_for(#[trigger] next[k], rows[jj].payer_id@) by {
        if jj == last {
            assert(is_open_for(next[i], rows[jj].payer_id@));
        } else {
            assert(rows[jj] == before[jj]);
            let k = choose|k: int| 0 <= k < prefix.len() && is_open_for(#[trigger] prefix[k], before[jj].payer_id@);
            assert(next[k] == prefix[k]);
        }
    }
    assert forall|k: int|
        0 <= k < next.len() && #[trigger] next[k] is Submitted implies exists|jj: int|
            0 <= jj < rows.len() && rows[jj].payer_id@ == next[k]->Submitted_claim.payer_id by {
        if k < i {
            assert(prefix[k] == next[k]);
            let jj = choose|jj: int|
                0 <= jj < before.len() && before[jj].payer_id@ == prefix[k]->Submitted_claim.payer_id;
            assert(rows[jj] == before[jj]);
        } else {
            assert(rows[last].payer_id@ == q);
        }
    }
    assert forall|ii: int, jj: int|
        0 <= ii < rows.len() && 0 <= jj < rows.len() && ii != jj implies #[trigger] rows[ii].payer_id@
        != #[trigger] rows[jj].payer_id@ by {
        if ii != last && jj != last {
            assert(rows[ii] == before[ii] && rows[jj] == before[jj]);
            assert(before[ii].payer_id@ != before[jj].payer_id@);
        } else if ii == last {
            assert(rows[jj] == before[jj]);
        } else {
            assert(rows[ii] == before[ii]);
        }
    }
}

/// The aging report of the open claims of `history` at `now` (seconds since
/// the start of the run): for each payer with open claims, how many fall in
/// each age bucket. Remitted claims do not count.
#[verifier::rlimit(50)]
pub fn ar_aging(history: &KeyedTable<ClaimStatus>, now: u64) -> (r: Vec<AgingRow>)
    requires
        history.wf(),
    ensures
        is_aging_report(r@, statuses(*history), now),
{
    let ghost ss = statuses(*history);
    let mut rows: Vec<AgingRow> = Vec::new();
    let n = history.len();
    proof {
        reveal(is_aging_report);
    }
    for i in 0..n
        invariant
            n == ss.len(),
            ss == statuses(*history),
            history.wf(),
            is_aging_report(rows@, ss.take(i as int), now),
            forall|j: int, b: int|
                0 <= j < rows@.len() && 0 <= b < AGING_BUCKETS ==> #[trigger] rows@[j].buckets@[b]
                    <= i,
            forall|j: int| 0 <= j < rows@.len() ==> (#[trigger] rows@[j]).buckets@.len() == AGING_BUCKETS,
    {
        let ghost before = rows@;
        let (_, status) = history.entry_at(i);
        assert(status@ == ss[i as int]);
        match status {
            ClaimStatus::Submitted { claim, submitted_at } => {
                let b = age_bucket(now.saturating_sub(*submitted_at));
                let payer_id = &claim.insurance.payer_id;
                match position_of_payer(&rows, payer_id) {
                    Some(j) => {
                        let count = rows[j].buckets[b];
                        rows[j].buckets.set(b, count + 1);
                        proof {
                            assert(forall|jj: int| 0 <= jj < rows@.len() && jj != j ==> #[trigger] rows@[jj] == before[jj]);
                            lemma_aging_count_into_row(before, rows@, ss, i as int, j as int, b as int, now);
                        }
                    },
                    None => {
                        let mut buckets: Vec<usize> = Vec::new();
                        buckets.push(0);
                        buckets.push(0);
                        buckets.push(0);
                        buckets.push(0);
                        buckets.set(b, 1);
                        rows.push(AgingRow { payer_id: payer_id.clone(), buckets });
                        proof {
                            assert(rows@[before.len() as int].buckets@ =~= seq![0usize, 0usize, 0usize, 0usize].update(b as int, 1usize));
                            lemma_aging_new_row(before, rows@, ss, i as int, b as int, now);
                        }
                    },
                }
            },
            ClaimStatus::Remitted(_) => {
                proof {
                    lemma_aging_skip(rows@, ss, i as int, now);
                }
            },
        }
    }
    assert(ss.take(n as int) =~= ss);
    rows
}

/// The three amounts of a remittance line that fall to the patient.
pub enum PatientShare {
    Copay,
    Coinsurance,
    Deductible,
}

/// The amount of a remittance line that falls to the patient as `k`.
pub open spec fn share_of(l: ServiceLineRemittance, k: PatientShare) -> int {
    match k {
        PatientShare::Copay => l.copay_amount as int,
        PatientShare::Coinsurance => l.coinsurance_amount as int,
        PatientShare::Deductible => l.deductible_amount as int,
    }
}

/// The sum of share `k` over remittance lines.
pub open spec fn lines_share(lines: Seq<ServiceLineRemittance>, k: PatientShare) -> int
    decreases lines.len(),
{
    if lines.len() == 0 {
        0
    } else {
        lines_share(lines.drop_last(), k) + share_of(lines.last(), k)
    }
}

/// `s` is a remitted claim of patient `patient`.
pub open spec fn is_remitted_for(s: StatusView, patient: Seq<char>) -> bool {
    s matches StatusView::Remitted { claim, .. } && claim.patient_member_id == patient
}

/// The sum of share `k` over all remitted claims of `patient`.
pub open spec fn patient_share(ss: Seq<StatusView>, patient: Seq<char>, k: PatientShare) -> int
    decreases ss.len(),
{
    if ss.len() == 0 {
        0
    } else {
        patient_share(ss.drop_last(), patient, k) + if is_remitted_for(ss.last(), patient) {
            lines_share(ss.last()->Remitted_remittance.lines, k)
        } else {
            0
        }
    }
}

/// `x`, or `u128::MAX` if it is larger.
pub open spec fn capped(x: int) -> int {
    if x <= u128::MAX {
        x
    } else {
        u128::MAX as int
    }
}

/// What one patient owes from remitted claims, in hundredths of a cent; each
/// sum is capped at `u128::MAX`.
pub struct PatientTotals {
    pub patient_member_id: String,
    pub copay: u128,
    pub coinsurance: u128,
    pub deductible: u128,
}

/// `t` holds the capped sums of `ss` for its patient.
pub open spec fn totals_of(t: PatientTotals, ss: Seq<StatusView>) -> bool {
    &&& t.copay == capped(patient_share(ss, t.patient_member_id@, PatientShare::Copay))
    &&& t.coinsurance == capped(patient_share(ss, t.patient_member_id@, PatientShare::Coinsurance))
    &&& t.deductible == capped(patient_share(ss, t.patient_member_id@, PatientShare::Deductible))
}

/// `rows` is the patient summary of `ss`: one row per patient with a remitted
/// claim, each with that patient's totals.
#[verifier::opaque]
pub open spec fn is_patient_summary(rows: Seq<PatientTotals>, ss: Seq<StatusView>) -> bool {
    &&& forall|i: int, j: int|
        0 <= i < rows.len() && 0 <= j < rows.len() && i != j ==> #[trigger] rows[i].patient_member_id@
            != #[trigger] rows[j].patient_member_id@
    &&& forall|i: int|
        #![trigger rows[i]]
        0 <= i < rows.len() ==> exists|k: int|
            0 <= k < ss.len() && is_remitted_for(#[trigger] ss[k], rows[i].patient_member_id@)
    &&& forall|k: int|
        0 <= k < ss.len() && #[trigger] ss[k] is Remitted ==> exists|i: int|
            0 <= i < rows.len() && rows[i].patient_member_id@
                == ss[k]->Remitted_claim.patient_member_id
    &&& forall|i: int| 0 <= i < rows.len() ==> totals_of(#[trigger] rows[i], ss)
}

proof fn lemma_lines_share_nonneg(lines: Seq<ServiceLineRemittance>, k: PatientShare)
    ensures
        lines_share(lines, k) >= 0,
    decreases lines.len(),
{
    if lines.len() > 0 {
        lemma_lines_share_nonneg(lines.drop_last(), k);
    }
}

proof fn lemma_patient_share_nonneg(ss: Seq<StatusView>, p: Seq<char>, k: PatientShare)
    ensures
        patient_share(ss, p, k) >= 0,
    decreases ss.len(),
{
    if ss.len() > 0 {
        lemma_patient_share_nonneg(ss.drop_last(), p, k);
        lemma_lines_share_nonneg(ss.last()->Remitted_remittance.lines, k);
    }
}

proof fn lemma_patient_share_step(ss: Seq<StatusView>, i: int, p: Seq<char>, k: PatientShare)
    requires
        0 <= i < ss.len(),
    ensures
        patient_share(ss.take(i + 1), p, k) == patient_share(ss.take(i), p, k) + if is_remitted_for(
            ss[i],
            p,
        ) {
            lines_share(ss[i]->Remitted_remittance.lines, k)
        } else {
            0
        },
{
    assert(ss.take(i + 1).drop_last() =~= ss.take(i));
    assert(ss.take(i + 1).last() == ss[i]);
}

proof fn lemma_patient_share_none(ss: Seq<StatusView>, p: Seq<char>, k: PatientShare)
    requires
        forall|j: int| 0 <= j < ss.len() ==> !is_remitted_for(#[trigger] ss[j], p),
    ensures
        patient_share(ss, p, k) == 0,
    decreases ss.len(),
{
    if ss.len() > 0 {
        assert(forall|j: int| 0 <= j < ss.drop_last().len() ==> ss.drop_last()[j] == ss[j]);
        lemma_patient_share_none(ss.drop_last(), p, k);
        assert(!is_remitted_for(ss[ss.len() - 1], p));
    }
}

proof fn lemma_capped_add(x: int, y: int)
    requires
        x >= 0,
        y >= 0,
    ensures
        capped(capped(x) + y) == capped(x + y),
{
}

/// Adds the patient's shares of `lines` to running totals, capping each sum
/// at `u128::MAX`.
fn add_line_shares(totals: (u128, u128, u128), lines: &Vec<ServiceLineRemittance>) -> (r: (
    u128,
    u128,
    u128,
))
    ensures
        r.0 == capped(totals.0 + lines_share(lines@, PatientShare::Copay)),
        r.1 == capped(totals.1 + lines_share(lines@, PatientShare::Coinsurance)),
        r.2 == capped(totals.2 + lines_share(lines@, PatientShare::Deductible)),
{
    let (mut copay, mut coinsurance, mut deductible) = totals;
    let n = lines.len();
    for j in 0..n
        invariant
            n == lines@.len(),
            copay == capped(totals.0 + lines_share(lines@.take(j as int), PatientShare::Copay)),
            coinsurance == capped(
                totals.1 + lines_share(lines@.take(j as int), PatientShare::Coinsurance),
            ),
            deductible == capped(
                totals.2 + lines_share(lines@.take(j as int), PatientShare::Deductible),
            ),
    {
        let l = &lines[j];
        proof {
            let t = lines@.take(j + 1);
            assert(t.drop_last() =~= lines@.take(j as int));
            assert(t.last() == *l);
            lemma_lines_share_nonneg(lines@.take(j as int), PatientShare::Copay);
            lemma_lines_share_nonneg(lines@.take(j as int), PatientShare::Coinsurance);
            lemma_lines_share_nonneg(lines@.take(j as int), PatientShare::Deductible);
            lemma_capped_add(totals.0 + lines_share(lines@.take(j as int), PatientShare::Copay), l.copay_amount as int);
            lemma_capped_add(totals.1 + lines_share(lines@.take(j as int), PatientShare::Coinsurance), l.coinsurance_amount as int);
            lemma_capped_add(totals.2 + lines_share(lines@.take(j as int), PatientShare::Deductible), l.deductible_amount as int);
        }
        copay = copay.saturating_add(l.copay_amount);
        coinsurance = coinsurance.saturating_add(l.coinsurance_amount);
        deductible = deductible.saturating_add(l.deductible_amount);
    }
    assert(lines@.take(n as int) =~= lines@);
    (copay, coinsurance, deductible)
}

/// The step of the patient summary over an entry that is not remitted.
#[verifier::rlimit(50)]
proof fn lemma_summary_skip(rows: Seq<PatientTotals>, ss: Seq<StatusView>, i: int)
    requires
        0 <= i < ss.len(),
        ss[i] is Submitted,
        is_patient_summary(rows, ss.take(i)),
    ensures
        is_patient_summary(rows, ss.take(i + 1)),
{
    reveal(is_patient_summary);
    let prefix = ss.take(i);
    let next = ss.take(i + 1);
    assert(next[i] == ss[i]);
    assert forall|k: int| 0 <= k < i implies next[k] == prefix[k] by {}
    assert forall|jj: int| 0 <= jj < rows.len() implies totals_of(#[trigger] rows[jj], next) by {
        let p = rows[jj].patient_member_id@;
        lemma_patient_share_step(ss, i, p, PatientShare::Copay);
        lemma_patient_share_step(ss, i, p, PatientShare::Coinsurance);
        lemma_patient_share_step(ss, i, p, PatientShare::Deductible);
    }
    assert forall|jj: int|
        #![trigger rows[jj]]
        0 <= jj < rows.len() implies exists|k: int|
            0 <= k < next.len() && is_remitted_for(#[trigger] next[k], rows[jj].patient_member_id@) by {
        let k = choose|k: int|
            0 <= k < prefix.len() && is_remitted_for(#[trigger] prefix[k], rows[jj].patient_member_id@);
        assert(next[k] == prefix[k]);
    }
    assert forall|k: int|
        0 <= k < next.len() && #[trigger] next[k] is Remitted implies exists|jj: int|
            0 <= jj < rows.len() && rows[jj].patient_member_id@
                == next[k]->Remitted_claim.patient_member_id by {
        assert(prefix[k] == next[k]);
    }
}

/// The new totals of a patient once the lines of one more remitted claim
/// are added.
pub open spec fn totals_after(row: PatientTotals, old_row: PatientTotals, lines: Seq<ServiceLineRemittance>) -> bool {
    &&& row.copay == capped(old_row.copay + lines_share(lines, PatientShare::Copay))
    &&& row.coinsurance == capped(old_row.coinsurance + lines_share(lines, PatientShare::Coinsurance))
    &&& row.deductible == capped(old_row.deductible + lines_share(lines, PatientShare::Deductible))
}

/// The step of the patient summary over a remitted claim whose patient has a row.
#[verifier::rlimit(50)]
proof fn lemma_summary_into_row(
    before: Seq<PatientTotals>,
    rows: Seq<PatientTotals>,
    ss: Seq<StatusView>,
    i: int,
    j: int,
)
    requires
        0 <= i < ss.len(),
        0 <= j < before.len(),
        ss[i] is Remitted,
        before[j].patient_member_id@ == ss[i]->Remitted_claim.patient_member_id,
        is_patient_summary(before, ss.take(i)),
        rows.len() == before.len(),
        forall|jj: int| 0 <= jj < rows.len() && jj != j ==> #[trigger] rows[jj] == before[jj],
        rows[j].patient_member_id@ == before[j].patient_member_id@,
        totals_after(rows[j], before[j], ss[i]->Remitted_remittance.lines),
    ensures
        is_patient_summary(rows, ss.take(i + 1)),
{
    reveal(is_patient_summary);
    let prefix = ss.take(i);
    let next = ss.take(i + 1);
    assert(next[i] == ss[i]);
    assert forall|k: int| 0 <= k < i implies next[k] == prefix[k] by {}
    assert forall|jj: int| 0 <= jj < rows.len() implies totals_of(#[trigger] rows[jj], next) by {
        let p = rows[jj].patient_member_id@;
        lemma_patient_share_step(ss, i, p, PatientShare::Copay);
        lemma_patient_share_step(ss, i, p, PatientShare::Coinsurance);
        lemma_patient_share_step(ss, i, p, PatientShare::Deductible);
        assert(totals_of(before[jj], prefix));
        if jj != j {
            assert(rows[jj] == before[jj]);
            assert(before[jj].patient_member_id@ != before[j].patient_member_id@);
        } else {
            let lines = ss[i]->Remitted_remittance.lines;
            lemma_patient_share_nonneg(prefix, p, PatientShare::Copay);
            lemma_patient_share_nonneg(prefix, p, PatientShare::Coinsurance);
            lemma_patient_share_nonneg(prefix, p, PatientShare::Deductible);
            lemma_lines_share_nonneg(lines, PatientShare::Copay);
            lemma_lines_share_nonneg(lines, PatientShare::Coinsurance);
            lemma_lines_share_nonneg(lines, PatientShare::Deductible);
            lemma_capped_add(patient_share(prefix, p, PatientShare::Copay), lines_share(lines, PatientShare::Copay));
            lemma_capped_add(patient_share(prefix, p, PatientShare::Coinsurance), lines_share(lines, PatientShare::Coinsurance));
            lemma_capped_add(patient_share(prefix, p, PatientShare::Deductible), lines_share(lines, PatientShare::Deductible));
        }
    }
    assert forall|jj: int|
        #![trigger rows[jj]]
        0 <= jj < rows.len() implies exists|k: int|
            0 <= k < next.len() && is_remitted_for(#[trigger] next[k], rows[jj].patient_member_id@) by {
        assert(before[jj].patient_member_id@ == rows[jj].patient_member_id@);
        let k = choose|k: int|
            0 <= k < prefix.len() && is_remitted_for(#[trigger] prefix[k], before[jj].patient_member_id@);
        assert(next[k] == prefix[k]);
    }
    assert forall|k: int|
        0 <= k < next.len() && #[trigger] next[k] is Remitted implies exists|jj: int|
            0 <= jj < rows.len() && rows[jj].patient_member_id@
                == next[k]->Remitted_claim.patient_member_id by {
        if k < i {
            assert(prefix[k] == next[k]);
            let jj = choose|jj: int|
                0 <= jj < before.len() && before[jj].patient_member_id@
                    == prefix[k]->Remitted_claim.patient_member_id;
            assert(rows[jj].patient_member_id@ == before[jj].patient_member_id@);
        } else {
            assert(rows[j].patient_member_id@ == next[k]->Remitted_claim.patient_member_id);
        }
    }
    assert forall|ii: int, jj: int|
        0 <= ii < rows.len() && 0 <= jj < rows.len() && ii != jj implies #[trigger] rows[ii].patient_member_id@
        != #[trigger] rows[jj].patient_member_id@ by {
        assert(before[ii].patient_member_id@ == rows[ii].patient_member_id@);
        assert(before[jj].patient_member_id@ == rows[jj].patient_member_id@);
        assert(before[ii].patient_member_id@ != before[jj].patient_member_id@);
    }
}

/// The step of the patient summary over a remitted claim of a patient without
/// a row.
#[verifier::rlimit(50)]
proof fn lemma_summary_new_row(before: Seq<PatientTotals>, rows: Seq<PatientTotals>, ss: Seq<StatusView>, i: int)
    requires
        0 <= i < ss.len(),
        ss[i] is Remitted,
        forall|jj: int|
            0 <= jj < before.len() ==> before[jj].patient_member_id@
                != ss[i]->Remitted_claim.patient_member_id,
        is_patient_summary(before, ss.take(i)),
        rows.len() == before.len() + 1,
        forall|jj: int| 0 <= jj < before.len() ==> #[trigger] rows[jj] == before[jj],
        rows[before.len() as int].patient_member_id@ == ss[i]->Remitted_claim.patient_member_id,
        rows[before.len() as int].copay == capped(
            lines_share(ss[i]->Remitted_remittance.lines, PatientShare::Copay),
        ),
        rows[before.len() as int].coinsurance == capped(
            lines_share(ss[i]->Remitted_remittance.lines, PatientShare::Coinsurance),
        ),
        rows[before.len() as int].deductible == capped(
            lines_share(ss[i]->Remitted_remittance.lines, PatientShare::Deductible),
        ),
    ensures
        is_patient_summary(rows, ss.take(i + 1)),
{
    reveal(is_patient_summary);
    let prefix = ss.take(i);
    let next = ss.take(i + 1);
    let last = before.len() as int;
    let q = ss[i]->Remitted_claim.patient_member_id;
    assert(next[i] == ss[i]);
    assert forall|k: int| 0 <= k < i implies next[k] == prefix[k] by {}
    assert forall|k: int| 0 <= k < prefix.len() implies !is_remitted_for(#[trigger] prefix[k], q) by {
        if is_remitted_for(prefix[k], q) {
            assert(prefix[k] is Remitted);
            let jj = choose|jj: int|
                0 <= jj < before.len() && before[jj].patient_member_id@
                    == prefix[k]->Remitted_claim.patient_member_id;
        }
    }
    assert forall|jj: int| 0 <= jj < rows.len() implies totals_of(#[trigger] rows[jj], next) by {
        let p = rows[jj].patient_member_id@;
        lemma_patient_share_step(ss, i, p, PatientShare::Copay);
        lemma_patient_share_step(ss, i, p, PatientShare::Coinsurance);
        lemma_patient_share_step(ss, i, p, PatientShare::Deductible);
        if jj == last {
            lemma_patient_share_none(prefix, q, PatientShare::Copay);
            lemma_patient_share_none(prefix, q, PatientShare::Coinsurance);
            lemma_patient_share_none(prefix, q, PatientShare::Deductible);
        } else {
            assert(rows[jj] == before[jj]);
            assert(totals_of(before[jj], prefix));
        }
    }
    assert forall|jj: int|
        #![trigger rows[jj]]
        0 <= jj < rows.len() implies exists|k: int|
            0 <= k < next.len() && is_remitted_for(#[trigger] next[k], rows[jj].patient_member_id@) by {
        if jj == last {
            assert(is_remitted_for(next[i], rows[jj].patient_member_id@));
        } else {
            assert(rows[jj] == before[jj]);
            let k = choose|k: int|
                0 <= k < prefix.len() && is_remitted_for(#[trigger] prefix[k], before[jj].patient_member_id@);
            assert(next[k] == prefix[k]);
        }
    }
    assert forall|k: int|
        0 <= k < next.len() && #[trigger] next[k] is Remitted implies exists|jj: int|
            0 <= jj < rows.len() && rows[jj].patient_member_id@
                == next[k]->Remitted_claim.patient_member_id by {
        if k < i {
            assert(prefix[k] == next[k]);
            let jj = choose|jj: int|
                0 <= jj < before.len() && before[jj].patient_member_id@
                    == prefix[k]->Remitted_claim.patient_member_id;
            assert(rows[jj] == before[jj]);
        } else {
            assert(rows[last].patient_member_id@ == q);
        }
    }
    assert forall|ii: int, jj: int|
        0 <= ii < rows.len() && 0 <= jj < rows.len() && ii != jj implies #[trigger] rows[ii].patient_member_id@
        != #[trigger] rows[jj].patient_member_id@ by {
        if ii != last && jj != last {
            assert(rows[ii] == before[ii] && rows[jj] == before[jj]);
            assert(before[ii].patient_member_id@ != before[jj].patient_member_id@);
        } else if ii == last {
            assert(rows[jj] == before[jj]);
        } else {
            assert(rows[ii] == before[ii]);
        }
    }
}

fn position_of_patient(rows: &Vec<PatientTotals>, patient: &String) -> (r: Option<usize>)
    ensures
        match r {
            Some(j) => j < rows@.len() && rows@[j as int].patient_member_id@ == patient@,
            None => forall|j: int| 0 <= j < rows@.len() ==> rows@[j].patient_member_id@ != patient@,
        },
{
    let n = rows.len();
    for j in 0..n
        invariant
            n == rows@.len(),
            forall|i: int| 0 <= i < j ==> rows@[i].patient_member_id@ != patient@,
    {
        if rows[j].patient_member_id == *patient {
            return Some(j);
        }
    }
    None
}

/// The patient summary of `history`: for each patient with remitted claims,
/// the sums of copay, coinsurance and deductible over the lines of all their
/// remittances. Submitted claims do not count.
#[verifier::rlimit(50)]
pub fn patient_financials(history: &KeyedTable<ClaimStatus>) -> (r: Vec<PatientTotals>)
    requires
        history.wf(),
    ensures
        is_patient_summary(r@, statuses(*history)),
{
    let ghost ss = statuses(*history);
    let mut rows: Vec<PatientTotals> = Vec::new();
    let n = history.len();
    proof {
        reveal(is_patient_summary);
    }
    for i in 0..n
        invariant
            n == ss.len(),
            ss == statuses(*history),
            history.wf(),
            is_patient_summary(rows@, ss.take(i as int)),
    {
        let ghost before = rows@;
        let (_, status) = history.entry_at(i);
        assert(status@ == ss[i as int]);
        match status {
            ClaimStatus::Remitted(record) => {
                let patient = record.patient_id().to_owned();
                let lines = &record.remittance().service_line_remittances;
                match position_of_patient(&rows, &patient) {
                    Some(j) => {
                        let (copay, coinsurance, deductible) = add_line_shares(
                            (rows[j].copay, rows[j].coinsurance, rows[j].deductible),
                            lines,
                        );
                        rows.set(j, PatientTotals { patient_member_id: patient, copay, coinsurance, deductible });
                        proof {
                            lemma_summary_into_row(before, rows@, ss, i as int, j as int);
                        }
                    },
                    None => {
                        let (copay, coinsurance, deductible) = add_line_shares((0, 0, 0), lines);
                        rows.push(PatientTotals { patient_member_id: patient, copay, coinsurance, deductible });
                        proof {
                            lemma_summary_new_row(before, rows@, ss, i as int);
                        }
                    },
                }
            },
            ClaimStatus::Submitted { .. } => {
                proof {
                    lemma_summary_skip(rows@, ss, i as int);
                }
            },
        }
    }
    assert(ss.take(n as int) =~= ss);
    rows
}

/// An open claim counts in the aging report: in the row of its payer, in the
/// bucket of its age, there is at least one claim.
pub proof fn lemma_open_claim_is_aged(ss: Seq<StatusView>, k: int, now: u64)
    requires
        0 <= k < ss.len(),
        ss[k] is Submitted,
    ensures
        aging_count(
            ss,
            ss[k]->Submitted_claim.payer_id,
            bucket_of(age_at(now, ss[k]->Submitted_submitted_at)),
            now,
        ) >= 1,
    decreases ss.len(),
{
    if k < ss.len() - 1 {
        assert(ss.drop_last()[k] == ss[k]);
        lemma_open_claim_is_aged(ss.drop_last(), k, now);
    }
}

/// An open claim adds nothing to any patient's totals: taking it out of the
/// history leaves every patient's sums as they were.
pub proof fn lemma_open_claim_is_not_billed(ss: Seq<StatusView>, k: int, p: Seq<char>, share: PatientShare)
    requires
        0 <= k < ss.len(),
        ss[k] is Submitted,
    ensures
        patient_share(ss, p, share) == patient_share(ss.remove(k), p, share),
    decreases ss.len(),
{
    if k == ss.len() - 1 {
        assert(ss.remove(k) =~= ss.drop_last());
    } else {
        assert(ss.drop_last()[k] == ss[k]);
        lemma_open_claim_is_not_billed(ss.drop_last(), k, p, share);
        assert(ss.remove(k).drop_last() =~= ss.drop_last().remove(k));
        assert(ss.remove(k).last() == ss.last());
    }
}

/// An open claim of a history shows in the aging report: its status is one
/// of the history's statuses, and its payer's row counts at least one claim
/// in the bucket of its age.
pub proof fn lemma_open_claim_is_reported(t: KeyedTable<ClaimStatus>, id: Seq<char>, now: u64)
    requires
        t.wf(),
        t@.contains_key(id),
        t@[id]@ is Submitted,
    ensures
        exists|k: int| 0 <= k < statuses(t).len() && statuses(t)[k] == t@[id]@,
        aging_count(
            statuses(t),
            t@[id]@->Submitted_claim.payer_id,
            bucket_of(age_at(now, t@[id]@->Submitted_submitted_at)),
            now,
        ) >= 1,
{
    t.lemma_keys();
    let k = t.keys().index_of(id);
    assert(statuses(t)[k] == t@[id]@);
    lemma_open_claim_is_aged(statuses(t), k, now);
}

/// A claim that the clearinghouse holds as submitted, as a claim of an
/// unknown payer stays, shows in the aging report of the clearinghouse's
/// history under its payer and the bucket of its age.
pub proof fn lemma_submitted_claim_is_reported<S, P: Clone>(
    ch: Clearinghouse<S, P>,
    id: Seq<char>,
    now: u64,
)
    requires
        ch.wf(),
        ch@.history.contains_key(id),
        ch@.history[id] is Submitted,
    ensures
        aging_count(
            statuses(ch.history_table()),
            ch@.history[id]->Submitted_claim.payer_id,
            bucket_of(age_at(now, ch@.history[id]->Submitted_submitted_at)),
            now,
        ) >= 1,
{
    ch.lemma_history_view();
    let t = ch.history_table();
    assert(status_views(t@)[id] == t@[id]@);
    lemma_open_claim_is_reported(t, id, now);
}

/// `s` is an open claim whose age at `now` falls in bucket `b`, whatever its payer.
pub open spec fn open_in_bucket(s: StatusView, b: int, now: u64) -> bool {
    s matches StatusView::Submitted { submitted_at, .. } && bucket_of(age_at(now, submitted_at)) == b
}

/// How many open claims, of all payers, fall in bucket `b` at `now`.
pub open spec fn outstanding_count(ss: Seq<StatusView>, b: int, now: u64) -> nat
    decreases ss.len(),
{
    if ss.len() == 0 {
        0
    } else {
        outstanding_count(ss.drop_last(), b, now) + if open_in_bucket(ss.last(), b, now) {
            1nat
        } else {
            0nat
        }
    }
}

/// How many claims are open.
pub open spec fn submitted_count(ss: Seq<StatusView>) -> nat
    decreases ss.len(),
{
    if ss.len() == 0 {
        0
    } else {
        submitted_count(ss.drop_last()) + if ss.last() is Submitted {
            1nat
        } else {
            0nat
        }
    }
}

/// The bucket counts of all open claims add up to the number of open claims.
pub proof fn lemma_outstanding_buckets_sum(ss: Seq<StatusView>, now: u64)
    ensures
        outstanding_count(ss, 0, now) + outstanding_count(ss, 1, now) + outstanding_count(ss, 2, now)
            + outstanding_count(ss, 3, now) == submitted_count(ss),
    decreases ss.len(),
{
    if ss.len() > 0 {
        lemma_outstanding_buckets_sum(ss.drop_last(), now);
    }
}

/// Per age bucket, how many claims of `history` are open at `now`, over all
/// payers: the total row of the aging report.
pub fn outstanding_by_bucket(history: &KeyedTable<ClaimStatus>, now: u64) -> (r: Vec<usize>)
    requires
        history.wf(),
    ensures
        r@.len() == AGING_BUCKETS,
        forall|b: int| 0 <= b < AGING_BUCKETS ==> r@[b] == outstanding_count(statuses(*history), b, now),
{
    let ghost ss = statuses(*history);
    let mut counts: Vec<usize> = Vec::new();
    counts.push(0);
    counts.push(0);
    counts.push(0);
    counts.push(0);
    let n = history.len();
    for i in 0..n
        invariant
            n == ss.len(),
            ss == statuses(*history),
            history.wf(),
            counts@.len() == AGING_BUCKETS,
            forall|b: int|
                0 <= b < AGING_BUCKETS ==> #[trigger] counts@[b] == outstanding_count(ss.take(i as int), b, now),
            forall|b: int| 0 <= b < AGING_BUCKETS ==> #[trigger] counts@[b] <= i,
    {
        let (_, status) = history.entry_at(i);
        assert(status@ == ss[i as int]);
        assert forall|b: int| 0 <= b < AGING_BUCKETS implies outstanding_count(ss.take(i + 1), b, now)
            == outstanding_count(ss.take(i as int), b, now) + if open_in_bucket(ss[i as int], b, now) {
            1nat
        } else {
            0nat
        } by {
            assert(ss.take(i + 1).drop_last() =~= ss.take(i as int));
            assert(ss.take(i + 1).last() == ss[i as int]);
        }
        if let ClaimStatus::Submitted { submitted_at, .. } = status {
            let b = age_bucket(now.saturating_sub(*submitted_at));
            let count = counts[b];
            counts.set(b, count + 1);
        }
    }
    assert(ss.take(n as int) =~= ss);
    counts
}

/// How many claims of `history` are open.
pub fn outstanding_claims(history: &KeyedTable<ClaimStatus>) -> (r: usize)
    requires
        history.wf(),
    ensures
        r == submitted_count(statuses(*history)),
{
    let ghost ss = statuses(*history);
    let mut count: usize = 0;
    let n = history.len();
    for i in 0..n
        invariant
            n == ss.len(),
            ss == statuses(*history),
            history.wf(),
            count == submitted_count(ss.take(i as int)),
            count <= i,
    {
        let (_, status) = history.entry_at(i);
        assert(status@ == ss[i as int]);
        assert(ss.take(i + 1).drop_last() =~= ss.take(i as int));
        assert(ss.take(i + 1).last() == ss[i as int]);
        if let ClaimStatus::Submitted { .. } = status {
            count = count + 1;
        }
    }
    assert(ss.take(n as int) =~= ss);
    count
}

} // verus!
