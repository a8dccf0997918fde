//! Slot readiness: which of the configured relays can receive a bid for a
//! given slot, paired with the validator registration that matched.
//!
//! The per-relay fetches are transport work of the caller; resolution itself
//! is a pure function of the fetched results and is verified here.

use vstd::prelude::*;
use crate::types::{RelayError, Validator};

verus! {

/// A relay ready to receive bids for one slot: the index of the relay in
/// the configured endpoint list, and the validator registration that
/// matched the slot.
pub struct ReadyRelay {
    pub index: usize,
    pub validator: Validator,
}

/// The first registration of a feed whose slot matches, if any;
/// registrations are expected unique per slot, so the first is the match.
pub open spec fn spec_first_match(vs: Seq<Validator>, slot: u64) -> Option<Validator>
    decreases vs.len(),
{
    if vs.len() == 0 {
        None
    } else if vs.first().slot == slot {
        Some(vs.first())
    } else {
        spec_first_match(vs.drop_first(), slot)
    }
}

/// What readiness resolution returns: for every relay whose fetch
/// succeeded and whose feed holds a registration for the slot, one entry
/// pairing the relay's index with that registration, in index order.
pub open spec fn spec_resolve(responses: Seq<Result<Vec<Validator>, RelayError>>, slot: u64) -> Seq<ReadyRelay>
    decreases responses.len(),
{
    if responses.len() == 0 {
        Seq::empty()
    } else {
        let init = spec_resolve(responses.drop_last(), slot);
        match responses.last() {
            Ok(vs) => match spec_first_match(vs@, slot) {
                Some(v) => init.push(
                    ReadyRelay { index: (responses.len() - 1) as usize, validator: v },
                ),
                None => init,
            },
            Err(_) => init,
        }
    }
}

proof fn lemma_first_match_at(vs: Seq<Validator>, slot: u64, k: int)
    requires
        0 <= k < vs.len(),
        vs[k].slot == slot,
        forall|j: int| 0 <= j < k ==> vs[j].slot != slot,
    ensures
        spec_first_match(vs, slot) == Some(vs[k]),
    decreases k,
{
    if k > 0 {
        lemma_first_match_at(vs.drop_first(), slot, k - 1);
    }
}

proof fn lemma_first_match_none(vs: Seq<Validator>, slot: u64)
    requires
        forall|j: int| 0 <= j < vs.len() ==> vs[j].slot != slot,
    ensures
        spec_first_match(vs, slot) is None,
    decreases vs.len(),
{
    if vs.len() > 0 {
        lemma_first_match_none(vs.drop_first(), slot);
    }
}

/// Resolves slot readiness from the per-relay fetch results, `responses[i]`
/// being what the fetch from the relay with index `i` returned. A failed
/// fetch excludes only that relay; a feed with no registration for the slot
/// leaves its relay out as well.
pub fn resolve(responses: Vec<Result<Vec<Validator>, RelayError>>, slot: u64) -> (r: Vec<
    ReadyRelay,
>)
    ensures
        r@ == spec_resolve(responses@, slot),
{
    let ghost orig = responses@;
    let mut rest = responses;
    let mut out: Vec<ReadyRelay> = Vec::new();
    let mut i: usize = 0;
    let n = rest.len();
    while i < n
        invariant
            0 <= i <= n == orig.len(),
            rest@ == orig.subrange(i as int, n as int),
            out@ == spec_resolve(orig.subrange(0, i as int), slot),
        decreases n - i,
    {
        let resp = rest.remove(0);
        proof {
            assert(resp == orig[i as int]);
            assert(rest@ =~= orig.subrange(i + 1, n as int));
        }
        match resp {
            Err(_) => {
                proof {
                    lemma_resolve_step(orig, slot, i as int);
                }
            },
            Ok(mut vs) => {
                let mut j: usize = 0;
                while j < vs.len() && vs[j].slot != slot
                    invariant
                        0 <= j <= vs@.len(),
                        forall|t: int| 0 <= t < j ==> vs@[t].slot != slot,
                    decreases vs@.len() - j,
                {
                    j = j + 1;
                }
                if j < vs.len() {
                    proof {
                        lemma_first_match_at(vs@, slot, j as int);
                    }
                    let v = vs.swap_remove(j);
                    out.push(ReadyRelay { index: i, validator: v });
                    proof {
                        lemma_resolve_step(orig, slot, i as int);
                    }
                } else {
                    proof {
                        lemma_first_match_none(vs@, slot);
                        lemma_resolve_step(orig, slot, i as int);
                    }
                }
            },
        }
        i = i + 1;
    }
    proof {
        assert(orig.subrange(0, n as int) =~= orig);
    }
    out
}

/// Extending the resolved prefix by one response appends exactly the entry
/// that response yields.
proof fn lemma_resolve_step(orig: Seq<Result<Vec<Validator>, RelayError>>, slot: u64, i: int)
    requires
        0 <= i < orig.len(),
    ensures
        spec_resolve(orig.subrange(0, i + 1), slot) == (match orig[i] {
            Ok(vs) => match spec_first_match(vs@, slot) {
                Some(v) => spec_resolve(orig.subrange(0, i), slot).push(
                    ReadyRelay { index: i as usize, validator: v },
                ),
                None => spec_resolve(orig.subrange(0, i), slot),
            },
            Err(_) => spec_resolve(orig.subrange(0, i), slot),
        }),
{
    let pre = orig.subrange(0, i + 1);
    assert(pre.drop_last() =~= orig.subrange(0, i));
    assert(pre.last() == orig[i]);
}

/// The resolved set is exact: it lists, in strictly increasing index order,
/// precisely the relays whose fetch succeeded with a registration for the
/// slot, each paired with the first such registration of its feed.
pub proof fn lemma_resolve_exact(
    responses: Seq<Result<Vec<Validator>, RelayError>>,
    slot: u64,
)
    requires
        responses.len() <= usize::MAX,
    ensures
        forall|t: int|
            0 <= t < spec_resolve(responses, slot).len() ==> {
                let rr = #[trigger] spec_resolve(responses, slot)[t];
                &&& rr.index < responses.len()
                &&& responses[rr.index as int] matches Ok(vs)
                &&& spec_first_match(vs@, slot) == Some(rr.validator)
            },
        forall|t1: int, t2: int|
            0 <= t1 < t2 < spec_resolve(responses, slot).len()
                ==> #[trigger] spec_resolve(responses, slot)[t1].index
                < #[trigger] spec_resolve(responses, slot)[t2].index,
        forall|i: int|
            0 <= i < responses.len() ==> ((#[trigger] responses[i] matches Ok(vs)
                && spec_first_match(vs@, slot) is Some) ==> exists|t: int|
                0 <= t < spec_resolve(responses, slot).len()
                    && #[trigger] spec_resolve(responses, slot)[t].index == i),
    decreases responses.len(),
{
    if responses.len() > 0 {
        let n = responses.len() as int;
        let init = spec_resolve(responses.drop_last(), slot);
        let full = spec_resolve(responses, slot);
        assert(responses.drop_last().len() <= usize::MAX);
        lemma_resolve_exact(responses.drop_last(), slot);
        assert(responses.drop_last() =~= responses.subrange(0, n - 1));
        lemma_resolve_step(responses, slot, n - 1);
        assert(responses.subrange(0, n) =~= responses);
        let pushed = full.len() == init.len() + 1;
        match responses[n - 1] {
            Ok(vs) => {
                match spec_first_match(vs@, slot) {
                    Some(v) => {
                        assert(full == init.push(
                            ReadyRelay { index: (n - 1) as usize, validator: v },
                        ));
                    },
                    None => {
                        assert(full == init);
                    },
                }
            },
            Err(_) => {
                assert(full == init);
            },
        }
        assert(forall|t: int| 0 <= t < init.len() ==> #[trigger] full[t] == init[t]);
        assert forall|t: int| 0 <= t < full.len() implies {
            let rr = #[trigger] full[t];
            &&& rr.index < responses.len()
            &&& responses[rr.index as int] matches Ok(vs)
            &&& spec_first_match(vs@, slot) == Some(rr.validator)
        } by {
            if t < init.len() {
                assert(full[t] == init[t]);
                assert(init[t].index < n - 1);
                assert(responses.drop_last()[init[t].index as int] == responses[init[t].index as int]);
            } else {
                assert(pushed && t == init.len());
                assert(full[t].index == n - 1);
            }
        }
        assert forall|t1: int, t2: int| 0 <= t1 < t2 < full.len() implies #[trigger] full[t1].index
            < #[trigger] full[t2].index by {
            assert(full[t1] == init[t1]);
            assert(init[t1].index < n - 1);
            if t2 < init.len() {
                assert(full[t2] == init[t2]);
            } else {
                assert(full[t2].index == n - 1);
            }
        }
        assert forall|i: int|
            0 <= i < responses.len() && (#[trigger] responses[i] matches Ok(vs)
                && spec_first_match(vs@, slot) is Some) implies exists|t: int|
            0 <= t < full.len() && #[trigger] full[t].index == i by {
            if i < n - 1 {
                assert(responses.drop_last()[i] == responses[i]);
                let t0 = choose|t: int|
                    0 <= t < init.len() && #[trigger] init[t].index == i;
                assert(full[t0] == init[t0]);
                assert(0 <= t0 < full.len() && full[t0].index == i);
            } else {
                assert(pushed);
                assert(full[full.len() - 1].index == i);
            }
        }
    }
}

} // verus!
