//! GNOSIS minimal-knowledge contracts: discloses the parts of a decision
//! proof that a contract allows, and reports the parts it refused.
use vstd::prelude::*;
use crate::gnosis::proof_security::DecisionProof;
use crate::gnosis::relation::{ProvenanceSource, RelationProvenance};

verus! {

pub const MAX_DISCLOSURE_WORDS: usize = 8;
pub const GOAL: u32 = 1;
pub const EVIDENCE: u32 = 2;
pub const INFERENCE: u32 = 4;
pub const ACTION: u32 = 8;
pub const OUTCOME: u32 = 16;
pub const CONFIDENCE: u32 = 32;
pub const COST: u32 = 64;
pub const PROVENANCE: u32 = 128;

#[derive(Clone, Copy, Debug, PartialEq, Eq, Structural)]
pub struct DisclosureRequest {
    pub allowed_mask: u32,
    pub requested_mask: u32,
    pub contract_id: u64,
    pub principal_id: u64,
    pub provenance: RelationProvenance,
}

#[derive(Clone, Copy, Debug, PartialEq, Eq)]
pub struct Disclosure {
    pub values: [u32; 8],
    pub used: usize,
    pub mask: u32,
    pub contract_id: u64,
    pub provenance: RelationProvenance,
}

/// Whether `d` discloses nothing: no words, no mask, no contract and no
/// provenance.
pub open spec fn is_empty_disclosure(d: Disclosure) -> bool {
    &&& d.used == 0 && d.mask == 0 && d.contract_id == 0
    &&& d.provenance == (RelationProvenance { origin: 0, source: ProvenanceSource::Local, revision: 0 })
    &&& forall|i: int| 0 <= i < 8 ==> #[trigger] d.values@[i] == 0
}

impl Disclosure {
    pub fn empty() -> (d: Self)
        ensures
            is_empty_disclosure(d),
    {
        Disclosure {
            values: [0u32; 8],
            used: 0,
            mask: 0,
            contract_id: 0,
            provenance: RelationProvenance { origin: 0, source: ProvenanceSource::Local, revision: 0 },
        }
    }
}

#[derive(Clone, Copy, Debug, PartialEq, Eq, Structural)]
pub enum MkcStatus {
    Granted,
    Denied,
    Invalid,
}

#[derive(Clone, Copy, Debug, PartialEq, Eq)]
pub struct MkcResult {
    pub status: MkcStatus,
    pub disclosure: Disclosure,
    pub denied_mask: u32,
}

/// The proof's disclosable words, in disclosure order.
pub open spec fn proof_words(p: DecisionProof) -> Seq<u32> {
    seq![p.goal, p.evidence, p.inference, p.selected_action, p.expected_outcome, p.confidence_fixed, p.cost_fixed, p.provenance.revision as u32]
}

pub open spec fn bit_of(i: int) -> u32 {
    if i == 0 { GOAL } else if i == 1 { EVIDENCE } else if i == 2 { INFERENCE } else if i == 3 { ACTION } else if i == 4 { OUTCOME } else if i == 5 { CONFIDENCE } else if i == 6 { COST } else { PROVENANCE }
}

/// The granted words among the first `n`, in order.
pub open spec fn granted_words(p: DecisionProof, granted: u32, n: int) -> Seq<u32>
    decreases n,
{
    if n <= 0 {
        Seq::empty()
    } else {
        let prev = granted_words(p, granted, n - 1);
        if granted & bit_of(n - 1) != 0 { prev.push(proof_words(p)[n - 1]) } else { prev }
    }
}

proof fn lemma_granted_len(p: DecisionProof, granted: u32, n: int)
    requires
        0 <= n,
    ensures
        granted_words(p, granted, n).len() <= n,
    decreases n,
{
    if n > 0 {
        lemma_granted_len(p, granted, n - 1);
    }
}

fn put(d: &mut Disclosure, granted: u32, bit: u32, value: u32)
    requires
        old(d).used <= 8,
    ensures
        final(d).used <= 8,
        final(d).mask == old(d).mask && final(d).contract_id == old(d).contract_id && final(d).provenance == old(d).provenance,
        granted & bit != 0 && old(d).used < 8 ==> final(d).used == old(d).used + 1 && final(d).values@ == old(d).values@.update(old(d).used as int, value),
        !(granted & bit != 0 && old(d).used < 8) ==> final(d).used == old(d).used && final(d).values@ == old(d).values@,
{
    if granted & bit != 0 && d.used < MAX_DISCLOSURE_WORDS {
        d.values[d.used] = value;
        d.used = d.used + 1;
    }
}

/// Discloses the requested parts the contract allows, in a fixed order;
/// granted when nothing requested was refused, denied otherwise, invalid
/// without a contract, principal or provenance.
pub fn disclose(request: DisclosureRequest, proof: DecisionProof) -> (r: MkcResult)
    ensures
        (request.contract_id == 0 || request.principal_id == 0 || request.provenance.revision == 0 || proof.provenance.revision == 0)
            ==> r.status == MkcStatus::Invalid && is_empty_disclosure(r.disclosure) && r.denied_mask == 0,
        !(request.contract_id == 0 || request.principal_id == 0 || request.provenance.revision == 0 || proof.provenance.revision == 0) ==> {
            let granted = request.requested_mask & request.allowed_mask;
            let words = granted_words(proof, granted, 8);
            &&& r.denied_mask == request.requested_mask & !request.allowed_mask
            &&& r.status == (if r.denied_mask == 0 { MkcStatus::Granted } else { MkcStatus::Denied })
            &&& r.disclosure.mask == granted
            &&& r.disclosure.contract_id == request.contract_id
            &&& r.disclosure.provenance == request.provenance
            &&& r.disclosure.used == words.len()
            &&& r.disclosure.values@.subrange(0, words.len() as int) == words
        },
{
    let mut out = MkcResult { status: MkcStatus::Invalid, disclosure: Disclosure::empty(), denied_mask: 0 };
    let known = match request.provenance.source {
        ProvenanceSource::Local => true,
        ProvenanceSource::Remote => true,
        ProvenanceSource::Recovered => true,
    };
    let proof_known = match proof.provenance.source {
        ProvenanceSource::Local => true,
        ProvenanceSource::Remote => true,
        ProvenanceSource::Recovered => true,
    };
    if request.contract_id == 0 || request.principal_id == 0 || request.provenance.revision == 0 || !known
        || proof.provenance.revision == 0 || !proof_known {
        return out;
    }
    let granted = request.requested_mask & request.allowed_mask;
    out.denied_mask = request.requested_mask & !request.allowed_mask;
    out.disclosure.contract_id = request.contract_id;
    out.disclosure.provenance = request.provenance;
    out.disclosure.mask = granted;
    let words: [u32; 8] = [proof.goal, proof.evidence, proof.inference, proof.selected_action, proof.expected_outcome, proof.confidence_fixed, proof.cost_fixed, proof.provenance.revision as u32];
    let bits: [u32; 8] = [GOAL, EVIDENCE, INFERENCE, ACTION, OUTCOME, CONFIDENCE, COST, PROVENANCE];
    assert(words@ =~= proof_words(proof));
    let mut i: usize = 0;
    while i < 8
        invariant
            0 <= i <= 8,
            words@ == proof_words(proof),
            forall|j: int| 0 <= j < 8 ==> #[trigger] bits@[j] == bit_of(j),
            out.disclosure.used == granted_words(proof, granted, i as int).len(),
            out.disclosure.used <= i,
            out.disclosure.values@.subrange(0, out.disclosure.used as int) == granted_words(proof, granted, i as int),
            out.disclosure.mask == granted,
            out.disclosure.contract_id == request.contract_id,
            out.disclosure.provenance == request.provenance,
            out.denied_mask == request.requested_mask & !request.allowed_mask,
        decreases 8 - i,
    {
        let ghost before = out.disclosure.values@;
        put(&mut out.disclosure, granted, bits[i], words[i]);
        proof {
            let g = granted_words(proof, granted, i as int);
            if granted & bit_of(i as int) != 0 {
                assert(out.disclosure.values@.subrange(0, out.disclosure.used as int) =~= g.push(words@[i as int]));
            }
        }
        i = i + 1;
    }
    out.status = if out.denied_mask == 0 { MkcStatus::Granted } else { MkcStatus::Denied };
    out
}

/// Whether `w` is the word of one of the first `n` parts that was both
/// requested and allowed.
pub open spec fn word_of_granted_part(p: DecisionProof, requested: u32, allowed: u32, n: int, w: u32) -> bool {
    exists|i: int| 0 <= i < n && #[trigger] proof_words(p)[i] == w && requested & bit_of(i) != 0 && allowed & bit_of(i) != 0
}

proof fn lemma_granted_from(p: DecisionProof, requested: u32, allowed: u32, n: int)
    requires
        0 <= n <= 8,
    ensures
        forall|k: int| 0 <= k < granted_words(p, requested & allowed, n).len() ==> word_of_granted_part(
            p,
            requested,
            allowed,
            n,
            #[trigger] granted_words(p, requested & allowed, n)[k],
        ),
    decreases n,
{
    if n > 0 {
        lemma_granted_from(p, requested, allowed, n - 1);
        let g = requested & allowed;
        let b = bit_of(n - 1);
        assert((requested & allowed) & b != 0 ==> requested & b != 0 && allowed & b != 0) by (bit_vector);
        let prev = granted_words(p, g, n - 1);
        let cur = granted_words(p, g, n);
        assert forall|k: int| 0 <= k < cur.len() implies word_of_granted_part(p, requested, allowed, n, #[trigger] cur[k]) by {
            if k < prev.len() {
                assert(cur[k] == prev[k]);
                assert(word_of_granted_part(p, requested, allowed, n - 1, prev[k]));
                let i = choose|i: int| 0 <= i < n - 1 && #[trigger] proof_words(p)[i] == prev[k] && requested & bit_of(i) != 0 && allowed & bit_of(i) != 0;
                assert(proof_words(p)[i] == cur[k]);
            } else {
                assert(proof_words(p)[n - 1] == cur[k]);
            }
        }
    }
}

/// Nothing outside the contract is disclosed: each disclosed word is the
/// word of a part that was both requested and allowed, and there are at
/// most as many as parts.
pub proof fn law_disclosure_within_contract(p: DecisionProof, request: DisclosureRequest)
    ensures
        ({
            let words = granted_words(p, request.requested_mask & request.allowed_mask, 8);
            &&& words.len() <= 8
            &&& forall|k: int| 0 <= k < words.len() ==> word_of_granted_part(p, request.requested_mask, request.allowed_mask, 8, #[trigger] words[k])
        }),
{
    lemma_granted_len(p, request.requested_mask & request.allowed_mask, 8);
    lemma_granted_from(p, request.requested_mask, request.allowed_mask, 8);
}

/// The contract layer's own check: asking for the goal, the action and the
/// cost under a contract that allows only the goal and the action is
/// denied, discloses two words and reports the cost as refused.
pub fn self_test() -> (ok: bool)
    ensures
        ok,
{
    let p = RelationProvenance { origin: 1, source: ProvenanceSource::Local, revision: 9 };
    let proof = DecisionProof {
        goal: crate::gnosis::semantic::COMPLETE,
        evidence: crate::gnosis::semantic::EVIDENCE,
        inference: crate::gnosis::semantic::INFERENCE,
        constraint_mask: 1,
        alternatives: [crate::gnosis::semantic::EXECUTE; 8],
        alternative_count: 1,
        selected_action: crate::gnosis::semantic::EXECUTE,
        confidence_fixed: 9000,
        cost_fixed: 4,
        expected_outcome: crate::gnosis::semantic::COMPLETE,
        rationale: crate::gnosis::semantic::INFERENCE,
        provenance: p,
    };
    let request = DisclosureRequest {
        allowed_mask: GOAL | ACTION,
        requested_mask: GOAL | ACTION | COST,
        contract_id: 1,
        principal_id: 1,
        provenance: p,
    };
    let r = disclose(request, proof);
    proof {
        assert((1u32 | 8u32) == 9u32 && (9u32 | 64u32) == 73u32 && (73u32 & 9u32) == 9u32 && (73u32 & !9u32) == 64u32
            && (9u32 & 1u32) != 0 && (9u32 & 2u32) == 0 && (9u32 & 4u32) == 0 && (9u32 & 8u32) != 0
            && (9u32 & 16u32) == 0 && (9u32 & 32u32) == 0 && (9u32 & 64u32) == 0 && (9u32 & 128u32) == 0)
            by (bit_vector);
        reveal_with_fuel(granted_words, 9);
        assert(granted_words(proof, 9, 8).len() == 2);
    }
    r.status == MkcStatus::Denied && r.disclosure.used == 2 && r.denied_mask == COST
}

} // verus!
