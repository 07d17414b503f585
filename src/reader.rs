//! The reader's rule: every line of the input is decoded on its own; lines
//! that decode to a claim go on to the biller in file order, and lines that
//! do not are skipped.
use crate::schema::PayerClaim;
use vstd::prelude::*;

verus! {

/// The claims among decoded lines, in order.
pub open spec fn valid_claims(lines: Seq<Result<PayerClaim, String>>) -> Seq<PayerClaim>
    decreases lines.len(),
{
    if lines.len() == 0 {
        Seq::empty()
    } else {
        let rest = valid_claims(lines.drop_last());
        match lines.last() {
            Ok(c) => rest.push(c),
            Err(_) => rest,
        }
    }
}

/// The claim that one decoded line sends on to the biller, if any: a line
/// that decoded goes on, a line that did not is skipped.
pub fn claim_of_line(decoded: Result<PayerClaim, String>) -> (r: Option<PayerClaim>)
    ensures
        r == match decoded {
            Ok(c) => Some(c),
            Err(_) => None::<PayerClaim>,
        },
{
    match decoded {
        Ok(claim) => Some(claim),
        Err(_) => None,
    }
}

/// Keeps the lines that decoded to a claim, in their order, and drops the
/// others.
pub fn select_valid_claims(decoded: Vec<Result<PayerClaim, String>>) -> (r: Vec<PayerClaim>)
    ensures
        r@ == valid_claims(decoded@),
{
    let ghost lines = decoded@;
    let mut out: Vec<PayerClaim> = Vec::new();
    for item in it: decoded.into_iter()
        invariant
            it.seq() == lines,
            out@ == valid_claims(lines.take(it.index() as int)),
    {
        let ghost i = it.index() as int;
        assert(lines.take(i + 1).drop_last() =~= lines.take(i));
        assert(lines.take(i + 1).last() == item);
        if let Some(claim) = claim_of_line(item) {
            out.push(claim);
        }
    }
    assert(lines.take(lines.len() as int) =~= lines);
    out
}

} // verus!
