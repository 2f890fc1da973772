//! The compliance rule engine: per-ticker requirement sets evaluated
//! with AND semantics inside a requirement and OR semantics across
//! requirements, plus the mutations that maintain the rule sets under
//! a complexity budget.
use vstd::prelude::*;
use crate::state::{spec_claim_key, Ledger};
use crate::types::{
    spec_condition_eq, spec_conditions_eq, Claim, ClaimType, Condition, ConditionType,
    IdentityId, TargetIdentity, Ticker, copy_condition, copy_id_vec,
};
use crate::vecmap::{assoc_get, spec_assoc_get};
use crate::{ERC1400_TRANSFER_FAILURE, ERC1400_TRANSFER_SUCCESS};

verus! {

/// One compliance requirement: a transfer satisfies it when the sender
/// meets every sender condition and the receiver every receiver
/// condition.
#[derive(Clone, Debug, PartialEq, Eq)]
pub struct ComplianceRequirement {
    pub sender_conditions: Vec<Condition>,
    pub receiver_conditions: Vec<Condition>,
    /// Identifier unique per ticker, assigned in increasing order and
    /// never reused.
    pub id: u32,
}

/// The compliance rule set of one asset.
#[derive(Clone, Debug, PartialEq, Eq)]
pub struct AssetCompliance {
    /// While set, every transfer passes without evaluation.
    pub paused: bool,
    pub requirements: Vec<ComplianceRequirement>,
}

impl Default for AssetCompliance {
    fn default() -> (r: Self)
        ensures
            r.paused == false,
            r.requirements@.len() == 0,
    {
        AssetCompliance { paused: false, requirements: Vec::new() }
    }
}

/// One condition together with its evaluation outcome.
#[derive(Clone, Debug, PartialEq, Eq)]
pub struct ConditionResult {
    pub condition: Condition,
    pub result: bool,
}

/// One requirement with the outcome of each of its conditions.
#[derive(Clone, Debug, PartialEq, Eq)]
pub struct ComplianceRequirementResult {
    pub sender_conditions: Vec<ConditionResult>,
    pub receiver_conditions: Vec<ConditionResult>,
    pub id: u32,
    /// Whether every evaluated condition of the requirement held.
    pub result: bool,
}

/// A full diagnostic report of one asset's rule set.
#[derive(Clone, Debug, PartialEq, Eq)]
pub struct AssetComplianceResult {
    pub paused: bool,
    pub requirements: Vec<ComplianceRequirementResult>,
    /// Whether some requirement was fully satisfied.
    pub result: bool,
}

/// Structural equality of two requirements.
pub open spec fn spec_requirement_eq(a: ComplianceRequirement, b: ComplianceRequirement) -> bool {
    a.id == b.id && spec_conditions_eq(a.sender_conditions@, b.sender_conditions@)
        && spec_conditions_eq(a.receiver_conditions@, b.receiver_conditions@)
}

/// Pointwise structural equality of two requirement lists.
pub open spec fn spec_requirements_eq(
    a: Seq<ComplianceRequirement>,
    b: Seq<ComplianceRequirement>,
) -> bool {
    a.len() == b.len() && forall|i: int|
        0 <= i < a.len() ==> spec_requirement_eq(#[trigger] a[i], b[i])
}

/// Copies one condition list.
pub fn copy_conditions(a: &Vec<Condition>) -> (r: Vec<Condition>)
    ensures
        spec_conditions_eq(r@, a@),
{
    let mut r: Vec<Condition> = Vec::new();
    let mut i: usize = 0;
    while i < a.len()
        invariant
            i <= a@.len(),
            r@.len() == i,
            forall|k: int| 0 <= k < i ==> spec_condition_eq(#[trigger] r@[k], a@[k]),
        decreases a@.len() - i,
    {
        r.push(copy_condition(&a[i]));
        i = i + 1;
    }
    r
}

/// Copies one requirement.
pub fn copy_requirement(a: &ComplianceRequirement) -> (r: ComplianceRequirement)
    ensures
        spec_requirement_eq(r, *a),
{
    ComplianceRequirement {
        sender_conditions: copy_conditions(&a.sender_conditions),
        receiver_conditions: copy_conditions(&a.receiver_conditions),
        id: a.id,
    }
}

impl Ledger {
    /// The issuers a condition draws claims from: its own list, or the
    /// ticker's default trusted issuers when it names none.
    pub open spec fn spec_cond_issuers(self, t: Ticker, cond: Condition) -> Seq<IdentityId> {
        if cond.issuers@.len() > 0 {
            cond.issuers@
        } else {
            self.spec_trusted(t)
        }
    }

    /// Whether any of `issuers` has attested exactly claim `c` of
    /// `target`.
    pub open spec fn spec_present_any(
        self,
        issuers: Seq<IdentityId>,
        target: IdentityId,
        c: Claim,
    ) -> bool {
        exists|i: int|
            0 <= i < issuers.len() && #[trigger] self.spec_has_claim(target, issuers[i], c)
    }

    /// Whether `did` satisfies `cond` for ticker `t`, with `pia` the
    /// asset's current primary issuance agent.
    pub open spec fn spec_condition_holds(
        self,
        t: Ticker,
        did: IdentityId,
        cond: Condition,
        pia: Option<IdentityId>,
    ) -> bool {
        let issuers = self.spec_cond_issuers(t, cond);
        match cond.condition_type {
            ConditionType::IsPresent(c) => self.spec_present_any(issuers, did, c),
            ConditionType::IsAbsent(c) => !self.spec_present_any(issuers, did, c),
            ConditionType::IsAnyOf(cs) => exists|j: int|
                0 <= j < cs@.len() && self.spec_present_any(issuers, did, #[trigger] cs@[j]),
            ConditionType::IsNoneOf(cs) => forall|j: int|
                0 <= j < cs@.len() ==> !self.spec_present_any(issuers, did, #[trigger] cs@[j]),
            ConditionType::IsIdentity(TargetIdentity::Specific(id)) => did == id,
            ConditionType::IsIdentity(TargetIdentity::PrimaryIssuanceAgent) => pia == Some(did),
        }
    }

    /// Whether `did` satisfies every condition in `conds`.
    pub open spec fn spec_conditions_hold(
        self,
        t: Ticker,
        did: IdentityId,
        conds: Seq<Condition>,
        pia: Option<IdentityId>,
    ) -> bool {
        forall|j: int|
            0 <= j < conds.len() ==> self.spec_condition_holds(t, did, #[trigger] conds[j], pia)
    }

    /// Whether a requirement is satisfied. A side whose identity is
    /// not supplied counts as vacuously satisfied.
    pub open spec fn spec_requirement_ok(
        self,
        t: Ticker,
        from: Option<IdentityId>,
        to: Option<IdentityId>,
        req: ComplianceRequirement,
        pia: Option<IdentityId>,
    ) -> bool {
        &&& (from is Some ==> self.spec_conditions_hold(
            t,
            from.unwrap(),
            req.sender_conditions@,
            pia,
        ))
        &&& (to is Some ==> self.spec_conditions_hold(
            t,
            to.unwrap(),
            req.receiver_conditions@,
            pia,
        ))
    }

    /// Whether some requirement of `t` is fully satisfied.
    pub open spec fn spec_any_requirement_ok(
        self,
        t: Ticker,
        from: Option<IdentityId>,
        to: Option<IdentityId>,
        pia: Option<IdentityId>,
    ) -> bool {
        exists|i: int|
            0 <= i < self.spec_requirements(t).len() && self.spec_requirement_ok(
                t,
                from,
                to,
                #[trigger] self.spec_requirements(t)[i],
                pia,
            )
    }

    /// The fail-fast verdict of the compliance engine: paused
    /// assets pass outright, otherwise some requirement must hold.
    pub open spec fn spec_verify_restriction(
        self,
        t: Ticker,
        from: Option<IdentityId>,
        to: Option<IdentityId>,
        pia: Option<IdentityId>,
    ) -> bool {
        self.spec_paused(t) || self.spec_any_requirement_ok(t, from, to, pia)
    }

    /// The default trusted claim issuers of `t`.
    pub fn trusted_claim_issuer(&self, t: &Ticker) -> (r: Vec<IdentityId>)
        ensures
            r@ == self.spec_trusted(*t),
    {
        match assoc_get(&self.trusted_issuers, t) {
            Some(v) => copy_id_vec(v),
            None => Vec::new(),
        }
    }

    /// Whether `issuer` has attested exactly claim `c` of `target`.
    fn has_claim_from(&self, target: &IdentityId, issuer: &IdentityId, c: &Claim) -> (r: bool)
        ensures
            r == self.spec_has_claim(*target, *issuer, *c),
    {
        let ct: ClaimType = c.claim_type();
        let scope: Option<IdentityId> = c.as_scope();
        match assoc_get(&self.claims, &((*target, *issuer), (ct, scope))) {
            Some(stored) => *stored == *c,
            None => false,
        }
    }

    /// Whether any of `issuers` has attested exactly claim `c` of
    /// `target`.
    fn present_any(&self, issuers: &Vec<IdentityId>, target: &IdentityId, c: &Claim) -> (r: bool)
        ensures
            r == self.spec_present_any(issuers@, *target, *c),
    {
        let mut i: usize = 0;
        while i < issuers.len()
            invariant
                i <= issuers@.len(),
                forall|k: int|
                    0 <= k < i ==> !#[trigger] self.spec_has_claim(*target, issuers@[k], *c),
            decreases issuers@.len() - i,
        {
            if self.has_claim_from(target, &issuers[i], c) {
                return true;
            }
            i = i + 1;
        }
        false
    }

    /// Whether `did` satisfies `cond` for `t`.
    fn condition_holds(
        &self,
        t: &Ticker,
        did: &IdentityId,
        cond: &Condition,
        pia: Option<IdentityId>,
    ) -> (r: bool)
        ensures
            r == self.spec_condition_holds(*t, *did, *cond, pia),
    {
        let issuers: Vec<IdentityId> = if cond.issuers.len() > 0 {
            copy_id_vec(&cond.issuers)
        } else {
            self.trusted_claim_issuer(t)
        };
        proof {
            assert(issuers@ == self.spec_cond_issuers(*t, *cond));
        }
        match &cond.condition_type {
            ConditionType::IsPresent(c) => self.present_any(&issuers, did, c),
            ConditionType::IsAbsent(c) => !self.present_any(&issuers, did, c),
            ConditionType::IsAnyOf(cs) => {
                let mut j: usize = 0;
                let mut found: bool = false;
                while j < cs.len()
                    invariant
                        j <= cs@.len(),
                        issuers@ == self.spec_cond_issuers(*t, *cond),
                        !found ==> forall|k: int|
                            0 <= k < j ==> !self.spec_present_any(issuers@, *did, #[trigger] cs@[k]),
                        found ==> exists|k: int|
                            0 <= k < cs@.len() && self.spec_present_any(
                                issuers@,
                                *did,
                                #[trigger] cs@[k],
                            ),
                    decreases cs@.len() - j,
                {
                    if self.present_any(&issuers, did, &cs[j]) {
                        found = true;
                    }
                    j = j + 1;
                }
                found
            },
            ConditionType::IsNoneOf(cs) => {
                let mut j: usize = 0;
                let mut none_found: bool = true;
                while j < cs.len()
                    invariant
                        j <= cs@.len(),
                        issuers@ == self.spec_cond_issuers(*t, *cond),
                        none_found ==> forall|k: int|
                            0 <= k < j ==> !self.spec_present_any(issuers@, *did, #[trigger] cs@[k]),
                        !none_found ==> exists|k: int|
                            0 <= k < cs@.len() && self.spec_present_any(
                                issuers@,
                                *did,
                                #[trigger] cs@[k],
                            ),
                    decreases cs@.len() - j,
                {
                    if self.present_any(&issuers, did, &cs[j]) {
                        none_found = false;
                    }
                    j = j + 1;
                }
                none_found
            },
            ConditionType::IsIdentity(TargetIdentity::Specific(id)) => *did == *id,
            ConditionType::IsIdentity(TargetIdentity::PrimaryIssuanceAgent) => {
                match pia {
                    Some(p) => p == *did,
                    None => false,
                }
            },
        }
    }

    /// Whether `did` satisfies every condition in `conds`.
    pub fn are_all_conditions_satisfied(
        &self,
        t: &Ticker,
        did: &IdentityId,
        conds: &Vec<Condition>,
        pia: Option<IdentityId>,
    ) -> (r: bool)
        ensures
            r == self.spec_conditions_hold(*t, *did, conds@, pia),
    {
        let mut j: usize = 0;
        while j < conds.len()
            invariant
                j <= conds@.len(),
                forall|k: int|
                    0 <= k < j ==> self.spec_condition_holds(*t, *did, #[trigger] conds@[k], pia),
            decreases conds@.len() - j,
        {
            if !self.condition_holds(t, did, &conds[j], pia) {
                return false;
            }
            j = j + 1;
        }
        true
    }

    /// Fail-fast compliance verdict for a transfer of `ticker`
    /// between the supplied parties. A missing party leaves that
    /// side's conditions vacuously satisfied. Returns the transfer
    /// success code exactly when a paused rule set or some fully
    /// satisfied requirement admits the transfer.
    pub fn verify_restriction(
        &self,
        ticker: &Ticker,
        from_did_opt: Option<IdentityId>,
        to_did_opt: Option<IdentityId>,
        primary_issuance_agent: Option<IdentityId>,
    ) -> (r: u8)
        ensures
            r == (if self.spec_verify_restriction(
                *ticker,
                from_did_opt,
                to_did_opt,
                primary_issuance_agent,
            ) {
                ERC1400_TRANSFER_SUCCESS
            } else {
                ERC1400_TRANSFER_FAILURE
            }),
    {
        let compliance: Option<&AssetCompliance> = assoc_get(&self.compliances, ticker);
        match compliance {
            None => ERC1400_TRANSFER_FAILURE,
            Some(ac) => {
                if ac.paused {
                    return ERC1400_TRANSFER_SUCCESS;
                }
                let reqs: &Vec<ComplianceRequirement> = &ac.requirements;
                proof {
                    assert(reqs@ == self.spec_requirements(*ticker));
                }
                let mut i: usize = 0;
                while i < reqs.len()
                    invariant
                        i <= reqs@.len(),
                        reqs@ == self.spec_requirements(*ticker),
                        forall|k: int|
                            0 <= k < i ==> !self.spec_requirement_ok(
                                *ticker,
                                from_did_opt,
                                to_did_opt,
                                #[trigger] reqs@[k],
                                primary_issuance_agent,
                            ),
                    decreases reqs@.len() - i,
                {
                    let req: &ComplianceRequirement = &reqs[i];
                    let sender_ok: bool = match from_did_opt {
                        Some(f) => self.are_all_conditions_satisfied(
                            ticker,
                            &f,
                            &req.sender_conditions,
                            primary_issuance_agent,
                        ),
                        None => true,
                    };
                    if sender_ok {
                        let receiver_ok: bool = match to_did_opt {
                            Some(tn) => self.are_all_conditions_satisfied(
                                ticker,
                                &tn,
                                &req.receiver_conditions,
                                primary_issuance_agent,
                            ),
                            None => true,
                        };
                        if receiver_ok {
                            proof {
                                assert(self.spec_requirement_ok(
                                    *ticker,
                                    from_did_opt,
                                    to_did_opt,
                                    reqs@[i as int],
                                    primary_issuance_agent,
                                ));
                            }
                            return ERC1400_TRANSFER_SUCCESS;
                        }
                    }
                    i = i + 1;
                }
                ERC1400_TRANSFER_FAILURE
            },
        }
    }

    /// Shape of one requirement's diagnostic entry: the requirement's
    /// conditions with their outcomes, and the requirement verdict.
    pub open spec fn spec_granular_req(
        self,
        t: Ticker,
        from: Option<IdentityId>,
        to: Option<IdentityId>,
        req: ComplianceRequirement,
        pia: Option<IdentityId>,
        rr: ComplianceRequirementResult,
    ) -> bool {
        &&& rr.id == req.id
        &&& rr.result == self.spec_requirement_ok(t, from, to, req, pia)
        &&& rr.sender_conditions@.len() == req.sender_conditions@.len()
        &&& forall|j: int|
            0 <= j < req.sender_conditions@.len() ==> spec_condition_eq(
                (#[trigger] rr.sender_conditions@[j]).condition,
                req.sender_conditions@[j],
            ) && rr.sender_conditions@[j].result == (from is Some ==> self.spec_condition_holds(
                t,
                from.unwrap(),
                req.sender_conditions@[j],
                pia,
            ))
        &&& rr.receiver_conditions@.len() == req.receiver_conditions@.len()
        &&& forall|j: int|
            0 <= j < req.receiver_conditions@.len() ==> spec_condition_eq(
                (#[trigger] rr.receiver_conditions@[j]).condition,
                req.receiver_conditions@[j],
            ) && rr.receiver_conditions@[j].result == (to is Some ==> self.spec_condition_holds(
                t,
                to.unwrap(),
                req.receiver_conditions@[j],
                pia,
            ))
    }

    /// Evaluates every condition of one side, returning each outcome
    /// and whether all of them held. A missing party reads as true.
    fn evaluate_conditions_granular(
        &self,
        t: &Ticker,
        did_opt: Option<IdentityId>,
        conds: &Vec<Condition>,
        pia: Option<IdentityId>,
    ) -> (r: (Vec<ConditionResult>, bool))
        ensures
            r.0@.len() == conds@.len(),
            forall|j: int|
                0 <= j < conds@.len() ==> spec_condition_eq(
                    (#[trigger] r.0@[j]).condition,
                    conds@[j],
                ) && r.0@[j].result == (did_opt is Some ==> self.spec_condition_holds(
                    *t,
                    did_opt.unwrap(),
                    conds@[j],
                    pia,
                )),
            r.1 == (did_opt is Some ==> self.spec_conditions_hold(
                *t,
                did_opt.unwrap(),
                conds@,
                pia,
            )),
    {
        let mut results: Vec<ConditionResult> = Vec::new();
        let mut all: bool = true;
        let mut j: usize = 0;
        while j < conds.len()
            invariant
                j <= conds@.len(),
                results@.len() == j,
                forall|k: int|
                    0 <= k < j ==> spec_condition_eq(
                        (#[trigger] results@[k]).condition,
                        conds@[k],
                    ) && results@[k].result == (did_opt is Some ==> self.spec_condition_holds(
                        *t,
                        did_opt.unwrap(),
                        conds@[k],
                        pia,
                    )),
                all == (did_opt is Some ==> forall|k: int|
                    0 <= k < j ==> self.spec_condition_holds(
                        *t,
                        did_opt.unwrap(),
                        #[trigger] conds@[k],
                        pia,
                    )),
            decreases conds@.len() - j,
        {
            let outcome: bool = match did_opt {
                Some(d) => self.condition_holds(t, &d, &conds[j], pia),
                None => true,
            };
            results.push(ConditionResult { condition: copy_condition(&conds[j]), result: outcome });
            all = all && outcome;
            j = j + 1;
        }
        (results, all)
    }

    /// Full diagnostic evaluation of the rule set of `ticker`: every
    /// condition of every requirement is evaluated regardless of
    /// earlier failures, and the overall verdict is the OR over
    /// requirements of the AND of their evaluated conditions. The
    /// paused flag is reported but does not force the verdict.
    pub fn granular_verify_restriction(
        &self,
        ticker: &Ticker,
        from_did_opt: Option<IdentityId>,
        to_did_opt: Option<IdentityId>,
        primary_issuance_agent: Option<IdentityId>,
    ) -> (r: AssetComplianceResult)
        ensures
            r.paused == self.spec_paused(*ticker),
            r.requirements@.len() == self.spec_requirements(*ticker).len(),
            forall|i: int|
                0 <= i < self.spec_requirements(*ticker).len() ==> self.spec_granular_req(
                    *ticker,
                    from_did_opt,
                    to_did_opt,
                    self.spec_requirements(*ticker)[i],
                    primary_issuance_agent,
                    #[trigger] r.requirements@[i],
                ),
            r.result == self.spec_any_requirement_ok(
                *ticker,
                from_did_opt,
                to_did_opt,
                primary_issuance_agent,
            ),
    {
        let compliance: Option<&AssetCompliance> = assoc_get(&self.compliances, ticker);
        match compliance {
            None => AssetComplianceResult { paused: false, requirements: Vec::new(), result: false },
            Some(ac) => {
                let reqs: &Vec<ComplianceRequirement> = &ac.requirements;
                proof {
                    assert(reqs@ == self.spec_requirements(*ticker));
                }
                let mut out: Vec<ComplianceRequirementResult> = Vec::new();
                let mut any: bool = false;
                let mut i: usize = 0;
                while i < reqs.len()
                    invariant
                        i <= reqs@.len(),
                        reqs@ == self.spec_requirements(*ticker),
                        out@.len() == i,
                        forall|k: int|
                            0 <= k < i ==> self.spec_granular_req(
                                *ticker,
                                from_did_opt,
                                to_did_opt,
                                reqs@[k],
                                primary_issuance_agent,
                                #[trigger] out@[k],
                            ),
                        any == exists|k: int|
                            0 <= k < i && self.spec_requirement_ok(
                                *ticker,
                                from_did_opt,
                                to_did_opt,
                                #[trigger] reqs@[k],
                                primary_issuance_agent,
                            ),
                    decreases reqs@.len() - i,
                {
                    let req: &ComplianceRequirement = &reqs[i];
                    let (sender_results, sender_ok): (Vec<ConditionResult>, bool) = self
                        .evaluate_conditions_granular(
                        ticker,
                        from_did_opt,
                        &req.sender_conditions,
                        primary_issuance_agent,
                    );
                    let (receiver_results, receiver_ok): (Vec<ConditionResult>, bool) = self
                        .evaluate_conditions_granular(
                        ticker,
                        to_did_opt,
                        &req.receiver_conditions,
                        primary_issuance_agent,
                    );
                    let ok: bool = sender_ok && receiver_ok;
                    out.push(
                        ComplianceRequirementResult {
                            sender_conditions: sender_results,
                            receiver_conditions: receiver_results,
                            id: req.id,
                            result: ok,
                        },
                    );
                    any = any || ok;
                    i = i + 1;
                }
                AssetComplianceResult { paused: ac.paused, requirements: out, result: any }
            },
        }
    }
}

} // verus!
