//! The clearinghouse: routes each claim to the payer named in its insurance
//! block and each remittance back to the endpoint registered for its claim,
//! and keeps the status of every claim it has seen.
//!
//! Per claim identifier the status moves only from `Submitted` to `Remitted`:
//! a remittance for a claim that is already remitted, or for a claim that was
//! never submitted, changes nothing.
use crate::message::{ClaimEnvelope, ClaimStatus, PayerMessage, RemittanceMessage, StatusView};
use crate::remittance::{is_remittance_of, Remittance, RemittanceRecord, RemittanceView};
use crate::schema::{ClaimView, PayerClaim};
use crate::table::KeyedTable;
use vstd::prelude::*;

verus! {

/// The clearinghouse as a mathematical value: the status of each claim, the
/// response endpoint still registered for each claim, and the endpoint of
/// each known payer.
pub struct ClearinghouseView<S, P> {
    pub history: Map<Seq<char>, StatusView>,
    pub sinks: Map<Seq<char>, S>,
    pub payers: Map<Seq<char>, P>,
}

/// What to do with a claim that has been registered.
pub enum ClaimRouting<P> {
    /// Send the message on this payer endpoint.
    Forward { payer_tx: P, message: PayerMessage },
    /// No payer of that identifier is known; the claim stays submitted.
    UnknownPayer,
}

/// What to do with a remittance that has arrived.
pub enum RemittanceRouting<S> {
    /// The claim is now remitted: send the message on its response endpoint.
    Deliver { response_tx: S, message: RemittanceMessage },
    /// The claim was already remitted; the remittance is dropped.
    WrongState,
    /// No claim of that identifier was submitted; the remittance is dropped.
    NotFound,
}

/// The claim carried by a payer message.
pub open spec fn adjudicated_claim(m: PayerMessage) -> PayerClaim {
    match m {
        PayerMessage::Adjudicate(c) => c,
    }
}

/// The statuses of a status table, as values.
pub open spec fn status_views(t: Map<Seq<char>, ClaimStatus>) -> Map<Seq<char>, StatusView> {
    t.map_values(|s: ClaimStatus| s@)
}

/// The state after a claim's envelope is registered: the claim is submitted
/// at `now` and its response endpoint is stored, each replacing any earlier
/// one under the same identifier.
pub open spec fn claim_step<S, P>(
    v: ClearinghouseView<S, P>,
    c: ClaimView,
    response_tx: S,
    now: u64,
) -> ClearinghouseView<S, P> {
    ClearinghouseView {
        history: v.history.insert(c.claim_id, StatusView::Submitted { claim: c, submitted_at: now }),
        sinks: v.sinks.insert(c.claim_id, response_tx),
        payers: v.payers,
    }
}

/// The claim of identifier `id` is submitted and not yet remitted.
pub open spec fn is_submitted<S, P>(v: ClearinghouseView<S, P>, id: Seq<char>) -> bool {
    v.history.contains_key(id) && v.history[id] is Submitted
}

/// The state after a remittance arrives at `now`: a submitted claim becomes
/// remitted and its response endpoint is taken out; in any other case nothing
/// changes.
pub open spec fn remittance_step<S, P>(
    v: ClearinghouseView<S, P>,
    r: RemittanceView,
    now: u64,
) -> ClearinghouseView<S, P> {
    let id = r.claim_id;
    if is_submitted(v, id) {
        ClearinghouseView {
            history: v.history.insert(
                id,
                StatusView::Remitted {
                    claim: v.history[id]->Submitted_claim,
                    remittance: r,
                    submitted_at: v.history[id]->Submitted_submitted_at,
                    remitted_at: now,
                },
            ),
            sinks: v.sinks.remove(id),
            payers: v.payers,
        }
    } else {
        v
    }
}

/// `r` is how a registered claim `c` is routed: to a clone of its payer's
/// endpoint with the claim itself, or nowhere if its payer is unknown.
pub open spec fn routes_claim<P: Clone>(payers: Map<Seq<char>, P>, c: ClaimView, r: ClaimRouting<P>) -> bool {
    if payers.contains_key(c.payer_id) {
        &&& r matches ClaimRouting::Forward { payer_tx, message }
        &&& cloned(payers[c.payer_id], payer_tx)
        &&& adjudicated_claim(message)@ == c
    } else {
        r is UnknownPayer
    }
}

/// `out` is how remittance `rem` is routed in state `v`.
pub open spec fn routes_remittance<S, P>(
    v: ClearinghouseView<S, P>,
    rem: Remittance,
    out: RemittanceRouting<S>,
) -> bool {
    let id = rem.claim_id@;
    if !v.history.contains_key(id) {
        out is NotFound
    } else if v.history[id] is Remitted {
        out is WrongState
    } else {
        out == RemittanceRouting::Deliver {
            response_tx: v.sinks[id],
            message: RemittanceMessage::Processed(rem),
        }
    }
}

pub struct Clearinghouse<S, P> {
    payer_txs: KeyedTable<P>,
    biller_txs: KeyedTable<S>,
    history: KeyedTable<ClaimStatus>,
    verbose: bool,
}

impl<S, P> View for Clearinghouse<S, P> {
    type V = ClearinghouseView<S, P>;

    closed spec fn view(&self) -> ClearinghouseView<S, P> {
        ClearinghouseView {
            history: status_views(self.history@),
            sinks: self.biller_txs@,
            payers: self.payer_txs@,
        }
    }
}

impl<S, P: Clone> Clearinghouse<S, P> {
    /// Well-formed: each of the three tables holds one entry per key, and
    /// every submitted claim has its response endpoint registered.
    pub closed spec fn wf(&self) -> bool {
        &&& self.payer_txs.wf()
        &&& self.biller_txs.wf()
        &&& self.history.wf()
        &&& sinks_cover_submitted(self@)
    }

    /// A well-formed clearinghouse has the endpoint of every submitted claim,
    /// and has seen finitely many claims.
    pub proof fn lemma_wf_covers_submitted(&self)
        requires
            self.wf(),
        ensures
            sinks_cover_submitted(self@),
            self@.history.dom().finite(),
    {
        self.history.lemma_keys();
        assert(self@.history.dom() =~= self.history@.dom());
    }

    /// The status table, as the reporter reads it.
    pub closed spec fn history_table(&self) -> KeyedTable<ClaimStatus> {
        self.history
    }

    pub closed spec fn spec_verbose(&self) -> bool {
        self.verbose
    }

    /// The history of the view is the status table's.
    pub proof fn lemma_history_view(&self)
        ensures
            self@.history == status_views(self.history_table()@),
            self.wf() ==> self.history_table().wf(),
    {
    }

    /// A clearinghouse that knows the payers of `payer_txs` and has seen no
    /// claim.
    pub fn new(payer_txs: KeyedTable<P>, verbose: bool) -> (r: Self)
        requires
            payer_txs.wf(),
        ensures
            r.wf(),
            r@.payers == payer_txs@,
            r@.history == Map::<Seq<char>, StatusView>::empty(),
            r@.sinks == Map::<Seq<char>, S>::empty(),
            r.spec_verbose() == verbose,
    {
        let r = Clearinghouse { payer_txs, biller_txs: KeyedTable::new(), history: KeyedTable::new(), verbose };
        assert(status_views(r.history@) =~= Map::<Seq<char>, StatusView>::empty());
        assert(sinks_cover_submitted(r@));
        r
    }

    pub fn verbose(&self) -> (r: bool)
        ensures
            r == self.spec_verbose(),
    {
        self.verbose
    }

    pub fn history(&self) -> (r: &KeyedTable<ClaimStatus>)
        requires
            self.wf(),
        ensures
            *r == self.history_table(),
            r.wf(),
    {
        &self.history
    }

    /// Registers a claim's envelope: stores its response endpoint, records the
    /// claim as submitted at `now`, and says where to forward it.
    pub fn handle_claim(&mut self, envelope: ClaimEnvelope<S>, now: u64) -> (r: ClaimRouting<P>)
        requires
            old(self).wf(),
        ensures
            final(self).wf(),
            final(self).spec_verbose() == old(self).spec_verbose(),
            final(self)@ == claim_step(old(self)@, envelope.claim@, envelope.response_tx, now),
            routes_claim(old(self)@.payers, envelope.claim@, r),
    {
        let ghost old_history = self.history@;
        let ClaimEnvelope { claim, response_tx } = envelope;
        let claim_id = claim.claim_id.clone();
        let payer_id = claim.insurance.payer_id.clone();
        self.biller_txs.insert(claim_id.clone(), response_tx);
        let forwarded = claim.clone();
        let status = ClaimStatus::Submitted { claim, submitted_at: now };
        let ghost status_view = status@;
        self.history.insert(claim_id, status);
        assert(status_views(self.history@) =~= status_views(old_history).insert(
            claim_id@,
            status_view,
        ));
        assert forall|k: Seq<char>| #[trigger] is_submitted(self@, k) implies self@.sinks.contains_key(
            k,
        ) by {
            if k != claim_id@ {
                assert(is_submitted(old(self)@, k));
            }
        }
        match self.payer_txs.get(&payer_id) {
            Some(tx) => ClaimRouting::Forward {
                payer_tx: tx.clone(),
                message: PayerMessage::Adjudicate(forwarded),
            },
            None => ClaimRouting::UnknownPayer,
        }
    }

    /// Takes in a payer's remittance at `now`. A submitted claim becomes
    /// remitted and the remittance goes to the claim's response endpoint,
    /// which is then forgotten; otherwise the remittance is dropped.
    pub fn handle_remittance(&mut self, remittance: Remittance, now: u64) -> (r: RemittanceRouting<S>)
        requires
            old(self).wf(),
        ensures
            final(self).wf(),
            final(self).spec_verbose() == old(self).spec_verbose(),
            final(self)@ == remittance_step(old(self)@, remittance@, now),
            routes_remittance(old(self)@, remittance, r),
    {
        let ghost old_history = self.history@;
        let ghost old_sinks = self.biller_txs@;
        let claim_id = remittance.claim_id.clone();
        match self.history.get(&claim_id) {
            None => {
                return RemittanceRouting::NotFound;
            },
            Some(ClaimStatus::Remitted(_)) => {
                return RemittanceRouting::WrongState;
            },
            Some(ClaimStatus::Submitted { .. }) => {},
        }
        if let Some(ClaimStatus::Submitted { claim, submitted_at }) = self.history.remove(&claim_id) {
            let record = RemittanceRecord::new(claim, remittance.clone(), submitted_at, now);
            let status = ClaimStatus::Remitted(record);
            let ghost status_view = status@;
            self.history.insert(claim_id.clone(), status);
            assert(status_views(self.history@) =~= status_views(old_history).insert(
                claim_id@,
                status_view,
            ));
        }
        assert(is_submitted(old(self)@, claim_id@));
        let sink = self.biller_txs.remove(&claim_id);
        assert(self.biller_txs@ =~= old_sinks.remove(claim_id@));
        assert forall|k: Seq<char>| #[trigger] is_submitted(self@, k) implies self@.sinks.contains_key(
            k,
        ) by {
            assert(is_submitted(old(self)@, k));
        }
        RemittanceRouting::Deliver { response_tx: sink.unwrap(), message: RemittanceMessage::Processed(remittance) }
    }
}

/// The claims of a history that are remitted.
pub open spec fn remitted_ids(h: Map<Seq<char>, StatusView>) -> Set<Seq<char>> {
    h.dom().filter(|k: Seq<char>| h[k] is Remitted)
}

/// Every submitted claim still has its response endpoint registered.
pub open spec fn sinks_cover_submitted<S, P>(v: ClearinghouseView<S, P>) -> bool {
    forall|k: Seq<char>| #[trigger] is_submitted(v, k) ==> v.sinks.contains_key(k)
}

/// A remittance for a claim identifier that was never submitted is reported
/// as not found and changes nothing.
pub proof fn lemma_unknown_claim_remittance_is_noop<S, P>(
    v: ClearinghouseView<S, P>,
    rem: Remittance,
    now: u64,
    out: RemittanceRouting<S>,
)
    requires
        !v.history.contains_key(rem.claim_id@),
        routes_remittance(v, rem, out),
    ensures
        remittance_step(v, rem@, now) == v,
        out is NotFound,
{
}

/// Two remittances for the same submitted claim make one transition: the
/// first remits the claim with itself; the second finds the claim remitted,
/// is reported as in the wrong state, and changes nothing.
pub proof fn lemma_duplicate_remittance_transitions_once<S, P>(
    v: ClearinghouseView<S, P>,
    first: Remittance,
    t1: u64,
    second: Remittance,
    t2: u64,
    out: RemittanceRouting<S>,
)
    requires
        is_submitted(v, first.claim_id@),
        second.claim_id@ == first.claim_id@,
        routes_remittance(remittance_step(v, first@, t1), second, out),
    ensures
        remittance_step(v, first@, t1).history[first.claim_id@] is Remitted,
        remittance_step(v, first@, t1).history[first.claim_id@]->Remitted_remittance == first@,
        remittance_step(remittance_step(v, first@, t1), second@, t2) == remittance_step(
            v,
            first@,
            t1,
        ),
        out is WrongState,
{
}

/// The remittance for a claim goes to the endpoint that came with that
/// claim's envelope, and the endpoints registered for all other claims stay
/// as they were.
pub proof fn lemma_remittance_returns_to_its_envelope<S, P>(
    v: ClearinghouseView<S, P>,
    c: ClaimView,
    response_tx: S,
    t1: u64,
    rem: Remittance,
    t2: u64,
    out: RemittanceRouting<S>,
)
    requires
        rem.claim_id@ == c.claim_id,
        routes_remittance(claim_step(v, c, response_tx, t1), rem, out),
    ensures
        out == (RemittanceRouting::Deliver { response_tx, message: RemittanceMessage::Processed(rem) }),
        remittance_step(claim_step(v, c, response_tx, t1), rem@, t2).sinks == v.sinks.remove(
            c.claim_id,
        ),
{
    assert(claim_step(v, c, response_tx, t1).sinks.remove(c.claim_id) =~= v.sinks.remove(
        c.claim_id,
    ));
}

/// A claim whose payer is known is forwarded to that payer. Once the payer's
/// remittance for it arrives, the claim is remitted with that remittance, and
/// no later remittance for the same claim changes its status again.
pub proof fn lemma_known_payer_claim_is_remitted_once<S, P: Clone>(
    v: ClearinghouseView<S, P>,
    c: ClaimView,
    response_tx: S,
    t1: u64,
    route: ClaimRouting<P>,
    rem: RemittanceView,
    t2: u64,
    later: RemittanceView,
    t3: u64,
)
    requires
        v.payers.contains_key(c.payer_id),
        routes_claim(v.payers, c, route),
        is_remittance_of(rem, c),
        later.claim_id == c.claim_id,
    ensures
        (route matches ClaimRouting::Forward { message, .. } && adjudicated_claim(message)@ == c),
        remittance_step(claim_step(v, c, response_tx, t1), rem, t2).history[c.claim_id]
            == (StatusView::Remitted { claim: c, remittance: rem, submitted_at: t1, remitted_at: t2 }),
        remittance_step(remittance_step(claim_step(v, c, response_tx, t1), rem, t2), later, t3)
            == remittance_step(claim_step(v, c, response_tx, t1), rem, t2),
{
}

/// Registering a claim under a new identifier keeps every submitted claim's
/// endpoint registered and leaves the set of remitted claims as it was.
pub proof fn lemma_new_claim_keeps_remitted<S, P>(
    v: ClearinghouseView<S, P>,
    c: ClaimView,
    response_tx: S,
    now: u64,
)
    requires
        v.history.dom().finite(),
        sinks_cover_submitted(v),
        !v.history.contains_key(c.claim_id),
    ensures
        claim_step(v, c, response_tx, now).history.dom().finite(),
        sinks_cover_submitted(claim_step(v, c, response_tx, now)),
        remitted_ids(claim_step(v, c, response_tx, now).history) == remitted_ids(v.history),
{
    let v2 = claim_step(v, c, response_tx, now);
    assert(remitted_ids(v2.history) =~= remitted_ids(v.history));
    assert forall|k: Seq<char>| #[trigger] is_submitted(v2, k) implies v2.sinks.contains_key(k) by {
        if k != c.claim_id {
            assert(is_submitted(v, k));
        }
    }
}

/// Each remittance step that delivers to a submitter marks exactly one more
/// claim as remitted, and a step that delivers nothing marks none, as long as
/// every submitted claim has its endpoint registered. So a count of
/// deliveries that starts equal to the number of remitted claims stays equal
/// to it.
pub proof fn lemma_deliveries_count_remitted<S, P>(
    v: ClearinghouseView<S, P>,
    rem: Remittance,
    now: u64,
    out: RemittanceRouting<S>,
    delivered: nat,
)
    requires
        v.history.dom().finite(),
        sinks_cover_submitted(v),
        delivered == remitted_ids(v.history).len(),
        routes_remittance(v, rem, out),
    ensures
        remittance_step(v, rem@, now).history.dom().finite(),
        sinks_cover_submitted(remittance_step(v, rem@, now)),
        remitted_ids(remittance_step(v, rem@, now).history).len() == delivered + if out is Deliver {
            1nat
        } else {
            0nat
        },
{
    let id = rem.claim_id@;
    let v2 = remittance_step(v, rem@, now);
    if is_submitted(v, id) {
        assert(is_submitted(v, id));
        assert(v.sinks.contains_key(id));
        assert(remitted_ids(v2.history) =~= remitted_ids(v.history).insert(id));
        assert(!remitted_ids(v.history).contains(id));
        assert(remitted_ids(v.history).finite()) by {
            v.history.dom().lemma_len_filter(|k: Seq<char>| v.history[k] is Remitted);
        }
        assert forall|k: Seq<char>| #[trigger] is_submitted(v2, k) implies v2.sinks.contains_key(k) by {
            assert(is_submitted(v, k));
        }
    }
}

/// A claim whose payer is unknown is not forwarded and is recorded as
/// submitted. No remittance for another claim changes its status, so without
/// a remittance of its own it stays submitted.
pub proof fn lemma_unknown_payer_claim_stays_submitted<S, P: Clone>(
    v: ClearinghouseView<S, P>,
    c: ClaimView,
    response_tx: S,
    t1: u64,
    route: ClaimRouting<P>,
    other: RemittanceView,
    t2: u64,
)
    requires
        !v.payers.contains_key(c.payer_id),
        routes_claim(v.payers, c, route),
        other.claim_id != c.claim_id,
    ensures
        route is UnknownPayer,
        claim_step(v, c, response_tx, t1).history[c.claim_id] == (StatusView::Submitted {
            claim: c,
            submitted_at: t1,
        }),
        remittance_step(claim_step(v, c, response_tx, t1), other, t2).history[c.claim_id]
            == claim_step(v, c, response_tx, t1).history[c.claim_id],
{
}

/// The completion count and the remitted claims agree: every remitted claim
/// has either been counted by its waiter or has its remittance still in
/// flight to that waiter.
pub open spec fn completions_agree<S, P>(v: ClearinghouseView<S, P>, in_flight: nat, received: nat) -> bool {
    &&& v.history.dom().finite()
    &&& sinks_cover_submitted(v)
    &&& received + in_flight == remitted_ids(v.history).len()
}

/// At the start of a run nothing is remitted, in flight or counted.
pub proof fn lemma_completions_start<S, P>(v: ClearinghouseView<S, P>)
    requires
        v.history == Map::<Seq<char>, StatusView>::empty(),
    ensures
        completions_agree(v, 0, 0),
{
    assert(remitted_ids(v.history) =~= Set::<Seq<char>>::empty());
}

/// A claim under a new identifier keeps the count in agreement.
pub proof fn lemma_completions_new_claim<S, P>(
    v: ClearinghouseView<S, P>,
    c: ClaimView,
    response_tx: S,
    now: u64,
    in_flight: nat,
    received: nat,
)
    requires
        completions_agree(v, in_flight, received),
        !v.history.contains_key(c.claim_id),
    ensures
        completions_agree(claim_step(v, c, response_tx, now), in_flight, received),
{
    lemma_new_claim_keeps_remitted(v, c, response_tx, now);
}

/// A remittance step that delivers puts one more remittance in flight to its
/// waiter; a step that delivers nothing changes nothing.
pub proof fn lemma_completions_remittance<S, P>(
    v: ClearinghouseView<S, P>,
    rem: Remittance,
    now: u64,
    out: RemittanceRouting<S>,
    in_flight: nat,
    received: nat,
)
    requires
        completions_agree(v, in_flight, received),
        routes_remittance(v, rem, out),
    ensures
        completions_agree(
            remittance_step(v, rem@, now),
            in_flight + if out is Deliver {
                1nat
            } else {
                0nat
            },
            received,
        ),
{
    lemma_deliveries_count_remitted(v, rem, now, out, (received + in_flight) as nat);
}

/// A waiter that counts its remittance moves it from in flight to counted.
pub proof fn lemma_completions_waiter<S, P>(v: ClearinghouseView<S, P>, in_flight: nat, received: nat)
    requires
        completions_agree(v, in_flight, received),
        in_flight > 0,
    ensures
        completions_agree(v, (in_flight - 1) as nat, received + 1),
{
}

/// While the count agrees, it never exceeds the number of remitted claims,
/// and equals it whenever no remittance is in flight.
pub proof fn lemma_completions_bound<S, P>(v: ClearinghouseView<S, P>, in_flight: nat, received: nat)
    requires
        completions_agree(v, in_flight, received),
    ensures
        received <= remitted_ids(v.history).len(),
        in_flight == 0 ==> received == remitted_ids(v.history).len(),
{
}

} // verus!
