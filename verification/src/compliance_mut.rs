//! Mutations of the compliance rule sets: adding, removing, replacing
//! and changing requirements, pausing, and the trusted-issuer lists.
//! Every mutation that can increase evaluation cost validates the
//! complexity budget against the prospective rule set before any
//! write, so a rejected request leaves the state untouched.
use vstd::prelude::*;
use crate::compliance::{
    copy_requirement, spec_requirement_eq, spec_requirements_eq, AssetCompliance,
    ComplianceRequirement,
};
use crate::state::{lemma_wf_balances_frame, Ledger};
use crate::types::{spec_conditions_eq, Condition, ConditionType, Error, IdentityId, Ticker};
use crate::vecmap::{assoc_get, assoc_insert, assoc_take, spec_assoc_get};

verus! {

/// Worst-case claim-fetch cost of one condition: the number of claims
/// it names times the number of issuers consulted, counting at least
/// one issuer. A condition without explicit issuers consults the
/// ticker's `default_count` trusted issuers.
pub open spec fn spec_condition_complexity(cond: Condition, default_count: int) -> int {
    let claims: int = match cond.condition_type {
        ConditionType::IsPresent(..) => 1,
        ConditionType::IsAbsent(..) => 1,
        ConditionType::IsAnyOf(cs) => cs@.len() as int,
        ConditionType::IsNoneOf(cs) => cs@.len() as int,
        ConditionType::IsIdentity(..) => 1,
    };
    let count: int = if cond.issuers@.len() > 0 {
        cond.issuers@.len() as int
    } else {
        default_count
    };
    claims * (if count > 0 {
        count
    } else {
        1
    })
}

/// Cost of the first `k` conditions of a list.
pub open spec fn spec_conds_complexity_pre(conds: Seq<Condition>, default_count: int, k: int) -> int
    decreases k,
{
    if k <= 0 {
        0
    } else {
        spec_conds_complexity_pre(conds, default_count, k - 1) + spec_condition_complexity(
            conds[k - 1],
            default_count,
        )
    }
}

/// Cost of a whole condition list.
pub open spec fn spec_conds_complexity(conds: Seq<Condition>, default_count: int) -> int {
    spec_conds_complexity_pre(conds, default_count, conds.len() as int)
}

/// Cost of one requirement: both of its condition lists.
pub open spec fn spec_req_complexity(req: ComplianceRequirement, default_count: int) -> int {
    spec_conds_complexity(req.sender_conditions@, default_count) + spec_conds_complexity(
        req.receiver_conditions@,
        default_count,
    )
}

/// Cost of the first `k` requirements of a rule set.
pub open spec fn spec_reqs_complexity_pre(
    reqs: Seq<ComplianceRequirement>,
    default_count: int,
    k: int,
) -> int
    decreases k,
{
    if k <= 0 {
        0
    } else {
        spec_reqs_complexity_pre(reqs, default_count, k - 1) + spec_req_complexity(
            reqs[k - 1],
            default_count,
        )
    }
}

/// Cost of a whole rule set.
pub open spec fn spec_reqs_complexity(reqs: Seq<ComplianceRequirement>, default_count: int) -> int {
    spec_reqs_complexity_pre(reqs, default_count, reqs.len() as int)
}

proof fn lemma_condition_complexity_nonneg(cond: Condition, default_count: int)
    requires
        default_count >= 0,
    ensures
        spec_condition_complexity(cond, default_count) >= 0,
{
    let claims: int = match cond.condition_type {
        ConditionType::IsPresent(..) => 1,
        ConditionType::IsAbsent(..) => 1,
        ConditionType::IsAnyOf(cs) => cs@.len() as int,
        ConditionType::IsNoneOf(cs) => cs@.len() as int,
        ConditionType::IsIdentity(..) => 1,
    };
    let count: int = if cond.issuers@.len() > 0 {
        cond.issuers@.len() as int
    } else {
        default_count
    };
    let eff: int = if count > 0 {
        count
    } else {
        1
    };
    assert(claims * eff >= 0) by (nonlinear_arith)
        requires
            claims >= 0,
            eff >= 1,
    ;
}

/// Cost prefixes of a condition list grow with their length.
pub proof fn lemma_conds_pre_mono(conds: Seq<Condition>, default_count: int, k1: int, k2: int)
    requires
        default_count >= 0,
        0 <= k1 <= k2,
        k2 <= conds.len(),
    ensures
        spec_conds_complexity_pre(conds, default_count, k1) <= spec_conds_complexity_pre(
            conds,
            default_count,
            k2,
        ),
    decreases k2 - k1,
{
    if k1 < k2 {
        lemma_conds_pre_mono(conds, default_count, k1, k2 - 1);
        lemma_condition_complexity_nonneg(conds[k2 - 1], default_count);
    }
}

/// A requirement's cost is never negative.
pub proof fn lemma_req_complexity_nonneg(req: ComplianceRequirement, default_count: int)
    requires
        default_count >= 0,
    ensures
        spec_req_complexity(req, default_count) >= 0,
{
    lemma_conds_pre_mono(req.sender_conditions@, default_count, 0, req.sender_conditions@.len() as int);
    lemma_conds_pre_mono(
        req.receiver_conditions@,
        default_count,
        0,
        req.receiver_conditions@.len() as int,
    );
}

/// Cost prefixes of a rule set grow with their length.
pub proof fn lemma_reqs_pre_mono(
    reqs: Seq<ComplianceRequirement>,
    default_count: int,
    k1: int,
    k2: int,
)
    requires
        default_count >= 0,
        0 <= k1 <= k2,
        k2 <= reqs.len(),
    ensures
        spec_reqs_complexity_pre(reqs, default_count, k1) <= spec_reqs_complexity_pre(
            reqs,
            default_count,
            k2,
        ),
    decreases k2 - k1,
{
    if k1 < k2 {
        lemma_reqs_pre_mono(reqs, default_count, k1, k2 - 1);
        lemma_req_complexity_nonneg(reqs[k2 - 1], default_count);
    }
}

/// Cost of one condition, exactly as the specification counts it.
fn condition_complexity(cond: &Condition, default_count: usize) -> (r: u128)
    ensures
        r == spec_condition_complexity(*cond, default_count as int),
        r <= 0xffff_ffff_ffff_ffff_0000_0000_0000_0000u128,
{
    let claims: usize = match &cond.condition_type {
        ConditionType::IsPresent(..) => 1,
        ConditionType::IsAbsent(..) => 1,
        ConditionType::IsAnyOf(cs) => cs.len(),
        ConditionType::IsNoneOf(cs) => cs.len(),
        ConditionType::IsIdentity(..) => 1,
    };
    let count: usize = if cond.issuers.len() > 0 {
        cond.issuers.len()
    } else {
        default_count
    };
    let eff: usize = if count > 0 {
        count
    } else {
        1
    };
    proof {
        assert((claims as u128) * (eff as u128) <= 0xffff_ffff_ffff_ffff_0000_0000_0000_0000u128)
            by (nonlinear_arith)
            requires
                claims as u128 <= 0xffff_ffff_ffff_ffffu128,
                eff as u128 <= 0xffff_ffff_ffff_ffffu128,
        ;
    }
    (claims as u128) * (eff as u128)
}

/// Adds the cost of a condition list to `score`, failing as soon as
/// the running total leaves the budget.
fn conds_complexity_acc(
    conds: &Vec<Condition>,
    default_count: usize,
    max: u32,
    score: u128,
) -> (r: Option<u128>)
    requires
        score <= max,
    ensures
        match r {
            Some(s) => s == score + spec_conds_complexity(conds@, default_count as int) && s
                <= max,
            None => score + spec_conds_complexity(conds@, default_count as int) > max,
        },
{
    let mut cur: u128 = score;
    let mut j: usize = 0;
    while j < conds.len()
        invariant
            j <= conds@.len(),
            score <= max,
            cur == score + spec_conds_complexity_pre(conds@, default_count as int, j as int),
            cur <= max,
        decreases conds@.len() - j,
    {
        let term: u128 = condition_complexity(&conds[j], default_count);
        let next: u128 = cur + term;
        if next > max as u128 {
            proof {
                lemma_conds_pre_mono(
                    conds@,
                    default_count as int,
                    j + 1,
                    conds@.len() as int,
                );
            }
            return None;
        }
        cur = next;
        j = j + 1;
    }
    Some(cur)
}

/// Adds the cost of whole requirements to `score`, failing as soon as
/// the running total leaves the budget.
fn reqs_complexity_acc(
    reqs: &Vec<ComplianceRequirement>,
    default_count: usize,
    max: u32,
    score: u128,
) -> (r: Option<u128>)
    requires
        score <= max,
    ensures
        match r {
            Some(s) => s == score + spec_reqs_complexity(reqs@, default_count as int) && s <= max,
            None => score + spec_reqs_complexity(reqs@, default_count as int) > max,
        },
{
    let mut cur: u128 = score;
    let mut i: usize = 0;
    while i < reqs.len()
        invariant
            i <= reqs@.len(),
            score <= max,
            cur == score + spec_reqs_complexity_pre(reqs@, default_count as int, i as int),
            cur <= max,
        decreases reqs@.len() - i,
    {
        let ghost pre = cur;
        let with_sender: Option<u128> = conds_complexity_acc(
            &reqs[i].sender_conditions,
            default_count,
            max,
            cur,
        );
        match with_sender {
            None => {
                proof {
                    lemma_conds_pre_mono(
                        reqs@[i as int].receiver_conditions@,
                        default_count as int,
                        0,
                        reqs@[i as int].receiver_conditions@.len() as int,
                    );
                    lemma_reqs_pre_mono(reqs@, default_count as int, i + 1, reqs@.len() as int);
                }
                return None;
            },
            Some(s1) => {
                let with_receiver: Option<u128> = conds_complexity_acc(
                    &reqs[i].receiver_conditions,
                    default_count,
                    max,
                    s1,
                );
                match with_receiver {
                    None => {
                        proof {
                            lemma_reqs_pre_mono(
                                reqs@,
                                default_count as int,
                                i + 1,
                                reqs@.len() as int,
                            );
                        }
                        return None;
                    },
                    Some(s2) => {
                        cur = s2;
                    },
                }
            },
        }
        i = i + 1;
    }
    Some(cur)
}

/// There is a stored requirement with exactly these condition lists.
pub open spec fn spec_has_dup_conditions(
    reqs: Seq<ComplianceRequirement>,
    sender: Seq<Condition>,
    receiver: Seq<Condition>,
) -> bool {
    exists|i: int|
        0 <= i < reqs.len() && spec_conditions_eq((#[trigger] reqs[i]).sender_conditions@, sender)
            && spec_conditions_eq(reqs[i].receiver_conditions@, receiver)
}

/// The first `k` requirements with the given id removed, in order.
pub open spec fn spec_remove_id_pre(s: Seq<ComplianceRequirement>, id: u32, k: int) -> Seq<
    ComplianceRequirement,
>
    decreases k,
{
    if k <= 0 {
        Seq::empty()
    } else {
        spec_remove_id_pre(s, id, k - 1) + (if s[k - 1].id == id {
            Seq::empty()
        } else {
            seq![s[k - 1]]
        })
    }
}

/// The rule set with every requirement of the given id removed.
pub open spec fn spec_remove_id(s: Seq<ComplianceRequirement>, id: u32) -> Seq<
    ComplianceRequirement,
> {
    spec_remove_id_pre(s, id, s.len() as int)
}

/// Every requirement kept by the removal was already stored.
proof fn lemma_remove_id_pre_sub(s: Seq<ComplianceRequirement>, id: u32, k: int)
    requires
        0 <= k <= s.len(),
    ensures
        forall|j: int|
            0 <= j < spec_remove_id_pre(s, id, k).len() ==> exists|m: int|
                0 <= m < k && #[trigger] spec_remove_id_pre(s, id, k)[j] == s[m],
    decreases k,
{
    if k > 0 {
        lemma_remove_id_pre_sub(s, id, k - 1);
        assert forall|j: int| 0 <= j < spec_remove_id_pre(s, id, k).len() implies exists|m: int|
            0 <= m < k && #[trigger] spec_remove_id_pre(s, id, k)[j] == s[m] by {
            if j < spec_remove_id_pre(s, id, k - 1).len() {
                assert(spec_remove_id_pre(s, id, k)[j] == spec_remove_id_pre(s, id, k - 1)[j]);
                let m = choose|m: int|
                    0 <= m < k - 1 && spec_remove_id_pre(s, id, k - 1)[j] == s[m];
                assert(0 <= m < k && spec_remove_id_pre(s, id, k)[j] == s[m]);
            } else {
                assert(spec_remove_id_pre(s, id, k)[j] == s[k - 1]);
            }
        }
    }
}

/// Largest requirement id among the first `k`.
pub open spec fn spec_max_id_pre(s: Seq<ComplianceRequirement>, k: int) -> u32
    decreases k,
{
    if k <= 0 {
        0
    } else {
        let rest = spec_max_id_pre(s, k - 1);
        if s[k - 1].id > rest {
            s[k - 1].id
        } else {
            rest
        }
    }
}

/// Largest requirement id of a rule set.
pub open spec fn spec_max_id(s: Seq<ComplianceRequirement>) -> u32 {
    spec_max_id_pre(s, s.len() as int)
}

/// Every id among the first `k` is bounded by their maximum.
proof fn lemma_max_id_pre(s: Seq<ComplianceRequirement>, k: int)
    requires
        0 <= k <= s.len(),
    ensures
        forall|j: int| 0 <= j < k ==> (#[trigger] s[j]).id <= spec_max_id_pre(s, k),
    decreases k,
{
    if k > 0 {
        lemma_max_id_pre(s, k - 1);
    }
}

/// Two requirements of the list share an id.
pub open spec fn spec_has_dup_ids(s: Seq<ComplianceRequirement>) -> bool {
    exists|i: int, j: int| 0 <= i < j < s.len() && (#[trigger] s[i]).id == (#[trigger] s[j]).id
}

/// Index of the first requirement with the given id; the length when
/// none has it.
pub open spec fn spec_index_with_id(s: Seq<ComplianceRequirement>, id: u32) -> int
    decreases s.len(),
{
    if s.len() == 0 {
        0
    } else if s[0].id == id {
        0
    } else {
        1 + spec_index_with_id(s.drop_first(), id)
    }
}

/// Basic facts about the first index with a given id.
pub proof fn lemma_index_with_id(s: Seq<ComplianceRequirement>, id: u32)
    ensures
        0 <= spec_index_with_id(s, id) <= s.len(),
        spec_index_with_id(s, id) < s.len() ==> s[spec_index_with_id(s, id)].id == id,
        forall|j: int| 0 <= j < spec_index_with_id(s, id) ==> (#[trigger] s[j]).id != id,
    decreases s.len(),
{
    if s.len() > 0 && s[0].id != id {
        lemma_index_with_id(s.drop_first(), id);
        assert forall|j: int| 0 <= j < spec_index_with_id(s, id) implies (#[trigger] s[j]).id
            != id by {
            if j > 0 {
                assert(s.drop_first()[j - 1] == s[j]);
            }
        }
    }
}

proof fn lemma_index_with_id_is(s: Seq<ComplianceRequirement>, id: u32, i: int)
    requires
        0 <= i < s.len(),
        s[i].id == id,
        forall|j: int| 0 <= j < i ==> (#[trigger] s[j]).id != id,
    ensures
        spec_index_with_id(s, id) == i,
    decreases i,
{
    if i > 0 {
        assert forall|j: int| 0 <= j < i - 1 implies (#[trigger] s.drop_first()[j]).id != id by {
            assert(s.drop_first()[j] == s[j + 1]);
        }
        assert(s.drop_first()[i - 1] == s[i]);
        lemma_index_with_id_is(s.drop_first(), id, i - 1);
    }
}

proof fn lemma_index_with_id_absent(s: Seq<ComplianceRequirement>, id: u32)
    requires
        forall|j: int| 0 <= j < s.len() ==> (#[trigger] s[j]).id != id,
    ensures
        spec_index_with_id(s, id) == s.len(),
    decreases s.len(),
{
    if s.len() > 0 {
        assert forall|j: int| 0 <= j < s.drop_first().len() implies (#[trigger] s.drop_first()[
        j]).id != id by {
            assert(s.drop_first()[j] == s[j + 1]);
        }
        lemma_index_with_id_absent(s.drop_first(), id);
    }
}

impl Ledger {
    /// A copy of the compliance rule set of `t`; empty and unpaused
    /// when none was ever stored.
    pub fn asset_compliance(&self, t: &Ticker) -> (r: AssetCompliance)
        ensures
            r.paused == self.spec_paused(*t),
            crate::compliance::spec_requirements_eq(r.requirements@, self.spec_requirements(*t)),
    {
        match assoc_get(&self.compliances, t) {
            None => Default::default(),
            Some(ac) => {
                let mut requirements: Vec<ComplianceRequirement> = Vec::new();
                let mut i: usize = 0;
                while i < ac.requirements.len()
                    invariant
                        i <= ac.requirements@.len(),
                        requirements@.len() == i,
                        forall|k: int|
                            0 <= k < i ==> spec_requirement_eq(
                                #[trigger] requirements@[k],
                                ac.requirements@[k],
                            ),
                    decreases ac.requirements@.len() - i,
                {
                    requirements.push(copy_requirement(&ac.requirements[i]));
                    i = i + 1;
                }
                AssetCompliance { paused: ac.paused, requirements }
            },
        }
    }

    /// Id of the most recently stored requirement of `t`; zero when
    /// the rule set is empty.
    pub fn get_latest_requirement_id(&self, t: &Ticker) -> (r: u32)
        ensures
            r == (if self.spec_requirements(*t).len() > 0 {
                self.spec_requirements(*t).last().id
            } else {
                0u32
            }),
    {
        match assoc_get(&self.compliances, t) {
            None => 0,
            Some(ac) => {
                if ac.requirements.len() > 0 {
                    ac.requirements[ac.requirements.len() - 1].id
                } else {
                    0
                }
            },
        }
    }

    /// Highest requirement id assigned so far for `t`: the next
    /// insertion assigns one above it.
    pub fn requirement_id_counter(&self, t: &Ticker) -> (r: u32)
        ensures
            r == self.spec_counter(*t),
    {
        match assoc_get(&self.requirement_counter, t) {
            Some(c) => *c,
            None => 0,
        }
    }

    /// Count of default trusted issuers of `t`.
    fn trusted_issuer_count(&self, t: &Ticker) -> (r: usize)
        ensures
            r == self.spec_trusted(*t).len(),
    {
        match assoc_get(&self.trusted_issuers, t) {
            Some(v) => v.len(),
            None => 0,
        }
    }

    /// Re-establishes well-formedness after an operation that only
    /// rewrote the compliance maps of ticker `t`.
    proof fn lemma_wf_after_compliance_change(self, old_state: Ledger, t: Ticker)
        requires
            old_state.wf(),
            self.wf_unique(),
            self.balance_of@ == old_state.balance_of@,
            self.tokens@ == old_state.tokens@,
            self.tickers@ == old_state.tickers@,
            self.ownership@ == old_state.ownership@,
            self.scope_id_of@ == old_state.scope_id_of@,
            self.balance_at_scope@ == old_state.balance_at_scope@,
            self.aggregate_balance@ == old_state.aggregate_balance@,
            forall|t2: Ticker|
                t2 != t ==> spec_assoc_get(self.compliances@, t2) == spec_assoc_get(
                    old_state.compliances@,
                    t2,
                ) && spec_assoc_get(self.requirement_counter@, t2) == spec_assoc_get(
                    old_state.requirement_counter@,
                    t2,
                ),
            forall|j: int|
                0 <= j < self.spec_requirements(t).len() ==> (#[trigger] self.spec_requirements(
                    t,
                )[j]).id <= self.spec_counter(t),
        ensures
            self.wf(),
    {
        lemma_wf_balances_frame(old_state, self);
        crate::state::lemma_wf_ownership_frame(old_state, self);
        assert forall|t2: Ticker, j: int|
            0 <= j < self.spec_requirements(t2).len() implies (#[trigger] self.spec_requirements(
            t2,
        )[j]).id <= self.spec_counter(t2) by {
            if t2 != t {
                assert(self.spec_requirements(t2) == old_state.spec_requirements(t2));
                assert(self.spec_counter(t2) == old_state.spec_counter(t2));
                assert(old_state.spec_requirements(t2)[j].id <= old_state.spec_counter(t2));
            }
        }
    }

    /// Adds a compliance requirement to the rule set of `ticker`, with
    /// a fresh id. A requirement whose condition lists duplicate a
    /// stored one is accepted and changes nothing. A requirement that
    /// would push the rule set over the complexity budget is rejected
    /// and the state is left byte for byte unchanged.
    pub fn add_compliance_requirement(
        &mut self,
        did: IdentityId,
        ticker: Ticker,
        sender_conditions: Vec<Condition>,
        receiver_conditions: Vec<Condition>,
    ) -> (r: Result<(), Error>)
        requires
            old(self).wf(),
            old(self).spec_counter(ticker) < u32::MAX,
        ensures
            final(self).wf(),
            final(self).same_identity_state(*old(self)),
            final(self).same_registry(*old(self)),
            final(self).same_balances(*old(self)),
            final(self).same_portfolios(*old(self)),
            final(self).same_config(*old(self)),
            final(self).trusted_issuers@ == old(self).trusted_issuers@,
            !old(self).spec_is_owner(ticker, did) ==> r == Err::<(), Error>(Error::Unauthorized)
                && *final(self) == *old(self),
            old(self).spec_is_owner(ticker, did) && spec_has_dup_conditions(
                old(self).spec_requirements(ticker),
                sender_conditions@,
                receiver_conditions@,
            ) ==> r == Ok::<(), Error>(()) && *final(self) == *old(self),
            ({
                let dc = old(self).spec_trusted(ticker).len() as int;
                let total = spec_reqs_complexity(old(self).spec_requirements(ticker), dc)
                    + spec_conds_complexity(sender_conditions@, dc) + spec_conds_complexity(
                    receiver_conditions@,
                    dc,
                );
                &&& (old(self).spec_is_owner(ticker, did) && !spec_has_dup_conditions(
                    old(self).spec_requirements(ticker),
                    sender_conditions@,
                    receiver_conditions@,
                ) && total > old(self).max_condition_complexity ==> r == Err::<(), Error>(
                    Error::ComplianceRequirementTooComplex,
                ) && *final(self) == *old(self))
                &&& (old(self).spec_is_owner(ticker, did) && !spec_has_dup_conditions(
                    old(self).spec_requirements(ticker),
                    sender_conditions@,
                    receiver_conditions@,
                ) && total <= old(self).max_condition_complexity ==> r == Ok::<(), Error>(())
                    && final(self).spec_requirements(ticker) == old(self).spec_requirements(
                    ticker,
                ).push(
                    (ComplianceRequirement {
                        sender_conditions,
                        receiver_conditions,
                        id: (old(self).spec_counter(ticker) + 1) as u32,
                    }),
                ) && final(self).spec_counter(ticker) == old(self).spec_counter(ticker) + 1
                    && final(self).spec_paused(ticker) == old(self).spec_paused(ticker))
            }),
            forall|t2: Ticker|
                t2 != ticker ==> spec_assoc_get(final(self).compliances@, t2) == spec_assoc_get(
                    old(self).compliances@,
                    t2,
                ) && spec_assoc_get(final(self).requirement_counter@, t2) == spec_assoc_get(
                    old(self).requirement_counter@,
                    t2,
                ),
    {
        let ghost old_state = *old(self);
        if !self.is_owner(&ticker, did) {
            return Err(Error::Unauthorized);
        }
        // Duplicate condition lists change nothing.
        let mut is_dup: bool = false;
        match assoc_get(&self.compliances, &ticker) {
            None => {},
            Some(ac) => {
                let reqs: &Vec<ComplianceRequirement> = &ac.requirements;
                proof {
                    assert(reqs@ == self.spec_requirements(ticker));
                }
                let mut i: usize = 0;
                while i < reqs.len()
                    invariant
                        i <= reqs@.len(),
                        reqs@ == self.spec_requirements(ticker),
                        !is_dup ==> forall|k: int|
                            0 <= k < i ==> !(spec_conditions_eq(
                                (#[trigger] reqs@[k]).sender_conditions@,
                                sender_conditions@,
                            ) && spec_conditions_eq(
                                reqs@[k].receiver_conditions@,
                                receiver_conditions@,
                            )),
                        is_dup ==> spec_has_dup_conditions(
                            reqs@,
                            sender_conditions@,
                            receiver_conditions@,
                        ),
                    decreases reqs@.len() - i,
                {
                    if crate::types::eq_conditions(&reqs[i].sender_conditions, &sender_conditions)
                        && crate::types::eq_conditions(
                        &reqs[i].receiver_conditions,
                        &receiver_conditions,
                    ) {
                        is_dup = true;
                    }
                    i = i + 1;
                }
            },
        }
        if is_dup {
            return Ok(());
        }
        // Validate the prospective rule set against the budget before
        // any write.
        let dc: usize = self.trusted_issuer_count(&ticker);
        let max: u32 = self.max_condition_complexity;
        let base: Option<u128> = match assoc_get(&self.compliances, &ticker) {
            None => Some(0),
            Some(ac) => reqs_complexity_acc(&ac.requirements, dc, max, 0),
        };
        let total: Option<u128> = match base {
            None => None,
            Some(s0) => match conds_complexity_acc(&sender_conditions, dc, max, s0) {
                None => None,
                Some(s1) => conds_complexity_acc(&receiver_conditions, dc, max, s1),
            },
        };
        proof {
            lemma_conds_pre_mono(sender_conditions@, dc as int, 0, sender_conditions@.len() as int);
            lemma_conds_pre_mono(
                receiver_conditions@,
                dc as int,
                0,
                receiver_conditions@.len() as int,
            );
            lemma_reqs_pre_mono(
                self.spec_requirements(ticker),
                dc as int,
                0,
                self.spec_requirements(ticker).len() as int,
            );
        }
        if total.is_none() {
            return Err(Error::ComplianceRequirementTooComplex);
        }
        // All checks passed: commit.
        let counter: u32 = match assoc_get(&self.requirement_counter, &ticker) {
            Some(c) => *c,
            None => 0,
        };
        let new_id: u32 = counter + 1;
        let mut ac: AssetCompliance = match assoc_take(&mut self.compliances, &ticker) {
            Some(ac) => ac,
            None => Default::default(),
        };
        ac.requirements.push(
            ComplianceRequirement { sender_conditions, receiver_conditions, id: new_id },
        );
        assoc_insert(&mut self.compliances, ticker, ac);
        assoc_insert(&mut self.requirement_counter, ticker, new_id);
        proof {
            assert(final(self).spec_requirements(ticker) == old_state.spec_requirements(
                ticker,
            ).push(
                (ComplianceRequirement {
                    sender_conditions,
                    receiver_conditions,
                    id: new_id,
                }),
            ));
            assert forall|j: int|
                0 <= j < self.spec_requirements(ticker).len() implies (
            #[trigger] self.spec_requirements(ticker)[j]).id <= self.spec_counter(ticker) by {
                if j < old_state.spec_requirements(ticker).len() {
                    assert(old_state.spec_requirements(ticker)[j].id <= old_state.spec_counter(
                        ticker,
                    ));
                }
            }
            self.lemma_wf_after_compliance_change(old_state, ticker);
        }
        Ok(())
    }

    /// Checks a prospective rule set against the complexity budget.
    pub fn verify_compliance_complexity(
        &self,
        requirements: &Vec<ComplianceRequirement>,
        default_issuer_count: usize,
    ) -> (r: Result<(), Error>)
        ensures
            r == (if spec_reqs_complexity(requirements@, default_issuer_count as int)
                <= self.max_condition_complexity {
                Ok::<(), Error>(())
            } else {
                Err::<(), Error>(Error::ComplianceRequirementTooComplex)
            }),
    {
        match reqs_complexity_acc(requirements, default_issuer_count, self.max_condition_complexity, 0) {
            Some(_) => Ok(()),
            None => Err(Error::ComplianceRequirementTooComplex),
        }
    }

    /// Removes every requirement with the given id from the rule set
    /// of `ticker`; an id no stored requirement has is rejected.
    pub fn remove_compliance_requirement(
        &mut self,
        did: IdentityId,
        ticker: Ticker,
        id: u32,
    ) -> (r: Result<(), Error>)
        requires
            old(self).wf(),
        ensures
            final(self).wf(),
            final(self).same_identity_state(*old(self)),
            final(self).same_registry(*old(self)),
            final(self).same_balances(*old(self)),
            final(self).same_portfolios(*old(self)),
            final(self).same_config(*old(self)),
            final(self).trusted_issuers@ == old(self).trusted_issuers@,
            final(self).requirement_counter@ == old(self).requirement_counter@,
            !old(self).spec_is_owner(ticker, did) ==> r == Err::<(), Error>(Error::Unauthorized)
                && *final(self) == *old(self),
            old(self).spec_is_owner(ticker, did) && !(exists|i: int|
                0 <= i < old(self).spec_requirements(ticker).len() && (
                #[trigger] old(self).spec_requirements(ticker)[i]).id == id) ==> r == Err::<
                (),
                Error,
            >(Error::InvalidComplianceRequirementId) && *final(self) == *old(self),
            old(self).spec_is_owner(ticker, did) && (exists|i: int|
                0 <= i < old(self).spec_requirements(ticker).len() && (
                #[trigger] old(self).spec_requirements(ticker)[i]).id == id) ==> r == Ok::<
                (),
                Error,
            >(()) && final(self).spec_requirements(ticker) == spec_remove_id(
                old(self).spec_requirements(ticker),
                id,
            ) && final(self).spec_paused(ticker) == old(self).spec_paused(ticker),
            forall|t2: Ticker|
                t2 != ticker ==> spec_assoc_get(final(self).compliances@, t2) == spec_assoc_get(
                    old(self).compliances@,
                    t2,
                ),
    {
        let ghost old_state = *old(self);
        if !self.is_owner(&ticker, did) {
            return Err(Error::Unauthorized);
        }
        // Reject an unknown id before touching anything.
        let mut found: bool = false;
        match assoc_get(&self.compliances, &ticker) {
            None => {},
            Some(ac) => {
                let reqs: &Vec<ComplianceRequirement> = &ac.requirements;
                proof {
                    assert(reqs@ == self.spec_requirements(ticker));
                }
                let mut i: usize = 0;
                while i < reqs.len()
                    invariant
                        i <= reqs@.len(),
                        reqs@ == self.spec_requirements(ticker),
                        !found ==> forall|k: int| 0 <= k < i ==> (#[trigger] reqs@[k]).id != id,
                        found ==> exists|k: int|
                            0 <= k < reqs@.len() && (#[trigger] reqs@[k]).id == id,
                    decreases reqs@.len() - i,
                {
                    if reqs[i].id == id {
                        found = true;
                    }
                    i = i + 1;
                }
            },
        }
        if !found {
            return Err(Error::InvalidComplianceRequirementId);
        }
        let taken: Option<AssetCompliance> = assoc_take(&mut self.compliances, &ticker);
        match taken {
            None => {
                proof {
                    assert(false);
                }
                Err(Error::InvalidComplianceRequirementId)
            },
            Some(mut ac) => {
                let ghost orig = ac.requirements@;
                let mut rest: Vec<ComplianceRequirement> = ac.requirements;
                let mut kept: Vec<ComplianceRequirement> = Vec::new();
                while rest.len() > 0
                    invariant
                        rest@.len() <= orig.len(),
                        rest@ == orig.subrange(orig.len() - rest@.len(), orig.len() as int),
                        kept@ == spec_remove_id_pre(orig, id, orig.len() - rest@.len()),
                    decreases rest@.len(),
                {
                    let ghost consumed = orig.len() - rest@.len();
                    let head: ComplianceRequirement = rest.remove(0);
                    proof {
                        assert(head == orig[consumed as int]);
                        assert(rest@ =~= orig.subrange(consumed + 1, orig.len() as int));
                    }
                    if head.id != id {
                        kept.push(head);
                        proof {
                            assert(kept@ =~= spec_remove_id_pre(orig, id, consumed + 1));
                        }
                    } else {
                        proof {
                            assert(kept@ =~= spec_remove_id_pre(orig, id, consumed + 1));
                        }
                    }
                }
                proof {
                    assert(kept@ == spec_remove_id(orig, id));
                }
                ac.requirements = kept;
                assoc_insert(&mut self.compliances, ticker, ac);
                proof {
                    lemma_remove_id_pre_sub(orig, id, orig.len() as int);
                    assert forall|j: int|
                        0 <= j < self.spec_requirements(ticker).len() implies (
                    #[trigger] self.spec_requirements(ticker)[j]).id <= self.spec_counter(
                        ticker,
                    ) by {
                        let m = choose|m: int|
                            0 <= m < orig.len() && spec_remove_id_pre(
                                orig,
                                id,
                                orig.len() as int,
                            )[j] == orig[m];
                        assert(old_state.spec_requirements(ticker)[m].id <= old_state.spec_counter(
                            ticker,
                        ));
                    }
                    self.lemma_wf_after_compliance_change(old_state, ticker);
                }
                Ok(())
            },
        }
    }

    /// Replaces the whole rule set of `ticker`. Duplicate ids within
    /// the new set and rule sets over the complexity budget are
    /// rejected before any write.
    pub fn replace_asset_compliance(
        &mut self,
        did: IdentityId,
        ticker: Ticker,
        asset_compliance: Vec<ComplianceRequirement>,
    ) -> (r: Result<(), Error>)
        requires
            old(self).wf(),
        ensures
            final(self).wf(),
            final(self).same_identity_state(*old(self)),
            final(self).same_registry(*old(self)),
            final(self).same_balances(*old(self)),
            final(self).same_portfolios(*old(self)),
            final(self).same_config(*old(self)),
            final(self).trusted_issuers@ == old(self).trusted_issuers@,
            !old(self).spec_is_owner(ticker, did) ==> r == Err::<(), Error>(Error::Unauthorized)
                && *final(self) == *old(self),
            old(self).spec_is_owner(ticker, did) && spec_has_dup_ids(asset_compliance@) ==> r
                == Err::<(), Error>(Error::DuplicateComplianceRequirements) && *final(self)
                == *old(self),
            old(self).spec_is_owner(ticker, did) && !spec_has_dup_ids(asset_compliance@)
                && spec_reqs_complexity(
                asset_compliance@,
                old(self).spec_trusted(ticker).len() as int,
            ) > old(self).max_condition_complexity ==> r == Err::<(), Error>(
                Error::ComplianceRequirementTooComplex,
            ) && *final(self) == *old(self),
            old(self).spec_is_owner(ticker, did) && !spec_has_dup_ids(asset_compliance@)
                && spec_reqs_complexity(
                asset_compliance@,
                old(self).spec_trusted(ticker).len() as int,
            ) <= old(self).max_condition_complexity ==> r == Ok::<(), Error>(()) && final(self).spec_requirements(ticker) == asset_compliance@ && final(self).spec_paused(ticker)
                == old(self).spec_paused(ticker) && final(self).spec_counter(ticker) == (
            if spec_max_id(asset_compliance@) > old(self).spec_counter(ticker) {
                spec_max_id(asset_compliance@)
            } else {
                old(self).spec_counter(ticker)
            }),
            forall|t2: Ticker|
                t2 != ticker ==> spec_assoc_get(final(self).compliances@, t2) == spec_assoc_get(
                    old(self).compliances@,
                    t2,
                ) && spec_assoc_get(final(self).requirement_counter@, t2) == spec_assoc_get(
                    old(self).requirement_counter@,
                    t2,
                ),
    {
        let ghost old_state = *old(self);
        if !self.is_owner(&ticker, did) {
            return Err(Error::Unauthorized);
        }
        // Reject duplicate ids within the new set.
        let n: usize = asset_compliance.len();
        let mut i: usize = 0;
        #[verifier::loop_isolation(false)]
        while i < n
            invariant
                i <= n,
                n == asset_compliance@.len(),
                forall|a: int, b: int|
                    0 <= a < b < n && a < i ==> (#[trigger] asset_compliance@[a]).id != (
                    #[trigger] asset_compliance@[b]).id,
            decreases n - i,
        {
            let mut j: usize = i + 1;
            #[verifier::loop_isolation(false)]
            while j < n
                invariant
                    i < j <= n,
                    n == asset_compliance@.len(),
                    forall|b: int|
                        i < b < j ==> (#[trigger] asset_compliance@[b]).id != asset_compliance@[i as int].id,
                decreases n - j,
            {
                if asset_compliance[i].id == asset_compliance[j].id {
                    return Err(Error::DuplicateComplianceRequirements);
                }
                j = j + 1;
            }
            i = i + 1;
        }
        // Validate the budget before any write.
        let dc: usize = self.trusted_issuer_count(&ticker);
        let max: u32 = self.max_condition_complexity;
        if reqs_complexity_acc(&asset_compliance, dc, max, 0).is_none() {
            return Err(Error::ComplianceRequirementTooComplex);
        }
        // Commit: keep the id counter at least as large as every id
        // the new set carries, so ids assigned later stay fresh.
        let mut max_id: u32 = 0;
        let mut k: usize = 0;
        while k < asset_compliance.len()
            invariant
                k <= asset_compliance@.len(),
                max_id == spec_max_id_pre(asset_compliance@, k as int),
            decreases asset_compliance@.len() - k,
        {
            if asset_compliance[k].id > max_id {
                max_id = asset_compliance[k].id;
            }
            k = k + 1;
        }
        let counter: u32 = match assoc_get(&self.requirement_counter, &ticker) {
            Some(c) => *c,
            None => 0,
        };
        let new_counter: u32 = if max_id > counter {
            max_id
        } else {
            counter
        };
        let mut ac: AssetCompliance = match assoc_take(&mut self.compliances, &ticker) {
            Some(ac) => ac,
            None => Default::default(),
        };
        ac.requirements = asset_compliance;
        assoc_insert(&mut self.compliances, ticker, ac);
        assoc_insert(&mut self.requirement_counter, ticker, new_counter);
        proof {
            lemma_max_id_pre(
                final(self).spec_requirements(ticker),
                final(self).spec_requirements(ticker).len() as int,
            );
            self.lemma_wf_after_compliance_change(old_state, ticker);
        }
        Ok(())
    }

    /// Removes the whole rule set of `ticker`: afterwards no
    /// requirement is stored and evaluation is not paused. The id
    /// counter is kept, so removed ids are never reassigned.
    pub fn reset_asset_compliance(&mut self, did: IdentityId, ticker: Ticker) -> (r: Result<
        (),
        Error,
    >)
        requires
            old(self).wf(),
        ensures
            final(self).wf(),
            final(self).same_identity_state(*old(self)),
            final(self).same_registry(*old(self)),
            final(self).same_balances(*old(self)),
            final(self).same_portfolios(*old(self)),
            final(self).same_config(*old(self)),
            final(self).trusted_issuers@ == old(self).trusted_issuers@,
            final(self).requirement_counter@ == old(self).requirement_counter@,
            !old(self).spec_is_owner(ticker, did) ==> r == Err::<(), Error>(Error::Unauthorized)
                && *final(self) == *old(self),
            old(self).spec_is_owner(ticker, did) ==> r == Ok::<(), Error>(()) && final(self).spec_requirements(ticker).len() == 0 && !final(self).spec_paused(ticker),
            forall|t2: Ticker|
                t2 != ticker ==> spec_assoc_get(final(self).compliances@, t2) == spec_assoc_get(
                    old(self).compliances@,
                    t2,
                ),
    {
        let ghost old_state = *old(self);
        if !self.is_owner(&ticker, did) {
            return Err(Error::Unauthorized);
        }
        let _ = assoc_take(&mut self.compliances, &ticker);
        proof {
            self.lemma_wf_after_compliance_change(old_state, ticker);
        }
        Ok(())
    }

    /// Pauses or resumes compliance evaluation for `ticker`.
    pub fn pause_resume_asset_compliance(
        &mut self,
        did: IdentityId,
        ticker: Ticker,
        pause: bool,
    ) -> (r: Result<(), Error>)
        requires
            old(self).wf(),
        ensures
            final(self).wf(),
            final(self).same_identity_state(*old(self)),
            final(self).same_registry(*old(self)),
            final(self).same_balances(*old(self)),
            final(self).same_portfolios(*old(self)),
            final(self).same_config(*old(self)),
            final(self).trusted_issuers@ == old(self).trusted_issuers@,
            final(self).requirement_counter@ == old(self).requirement_counter@,
            !old(self).spec_is_owner(ticker, did) ==> r == Err::<(), Error>(Error::Unauthorized)
                && *final(self) == *old(self),
            old(self).spec_is_owner(ticker, did) ==> r == Ok::<(), Error>(()) && final(self).spec_paused(ticker) == pause && final(self).spec_requirements(ticker) == old(
                self,
            ).spec_requirements(ticker),
            forall|t2: Ticker|
                t2 != ticker ==> spec_assoc_get(final(self).compliances@, t2) == spec_assoc_get(
                    old(self).compliances@,
                    t2,
                ),
    {
        let ghost old_state = *old(self);
        if !self.is_owner(&ticker, did) {
            return Err(Error::Unauthorized);
        }
        let mut ac: AssetCompliance = match assoc_take(&mut self.compliances, &ticker) {
            Some(ac) => ac,
            None => Default::default(),
        };
        ac.paused = pause;
        assoc_insert(&mut self.compliances, ticker, ac);
        proof {
            assert forall|j: int|
                0 <= j < self.spec_requirements(ticker).len() implies (
            #[trigger] self.spec_requirements(ticker)[j]).id <= self.spec_counter(ticker) by {
                assert(old_state.spec_requirements(ticker)[j].id <= old_state.spec_counter(ticker));
            }
            self.lemma_wf_after_compliance_change(old_state, ticker);
        }
        Ok(())
    }

    /// Pauses compliance evaluation for `ticker`: while paused, every
    /// transfer passes the compliance engine.
    pub fn pause_asset_compliance(&mut self, did: IdentityId, ticker: Ticker) -> (r: Result<
        (),
        Error,
    >)
        requires
            old(self).wf(),
        ensures
            final(self).wf(),
            final(self).same_identity_state(*old(self)),
            final(self).same_registry(*old(self)),
            final(self).same_balances(*old(self)),
            final(self).same_portfolios(*old(self)),
            final(self).same_config(*old(self)),
            !old(self).spec_is_owner(ticker, did) ==> r == Err::<(), Error>(Error::Unauthorized)
                && *final(self) == *old(self),
            old(self).spec_is_owner(ticker, did) ==> r == Ok::<(), Error>(()) && final(self).spec_paused(ticker) && final(self).spec_requirements(ticker) == old(
                self,
            ).spec_requirements(ticker),
    {
        self.pause_resume_asset_compliance(did, ticker, true)
    }

    /// Resumes compliance evaluation for `ticker`.
    pub fn resume_asset_compliance(&mut self, did: IdentityId, ticker: Ticker) -> (r: Result<
        (),
        Error,
    >)
        requires
            old(self).wf(),
        ensures
            final(self).wf(),
            final(self).same_identity_state(*old(self)),
            final(self).same_registry(*old(self)),
            final(self).same_balances(*old(self)),
            final(self).same_portfolios(*old(self)),
            final(self).same_config(*old(self)),
            !old(self).spec_is_owner(ticker, did) ==> r == Err::<(), Error>(Error::Unauthorized)
                && *final(self) == *old(self),
            old(self).spec_is_owner(ticker, did) ==> r == Ok::<(), Error>(()) && !final(self).spec_paused(ticker) && final(self).spec_requirements(ticker) == old(
                self,
            ).spec_requirements(ticker),
    {
        self.pause_resume_asset_compliance(did, ticker, false)
    }

    /// Replaces the stored requirement carrying the id of
    /// `new_requirement` with `new_requirement`, keeping its position.
    /// An id above the most recently stored one, or one no stored
    /// requirement has, is rejected.
    pub fn change_compliance_requirement(
        &mut self,
        did: IdentityId,
        ticker: Ticker,
        new_requirement: ComplianceRequirement,
    ) -> (r: Result<(), Error>)
        requires
            old(self).wf(),
        ensures
            final(self).wf(),
            final(self).same_identity_state(*old(self)),
            final(self).same_registry(*old(self)),
            final(self).same_balances(*old(self)),
            final(self).same_portfolios(*old(self)),
            final(self).same_config(*old(self)),
            final(self).trusted_issuers@ == old(self).trusted_issuers@,
            final(self).requirement_counter@ == old(self).requirement_counter@,
            !old(self).spec_is_owner(ticker, did) ==> r == Err::<(), Error>(Error::Unauthorized)
                && *final(self) == *old(self),
            ({
                let reqs = old(self).spec_requirements(ticker);
                let latest: u32 = if reqs.len() > 0 {
                    reqs.last().id
                } else {
                    0u32
                };
                let idx = spec_index_with_id(reqs, new_requirement.id);
                let dc = old(self).spec_trusted(ticker).len() as int;
                &&& (old(self).spec_is_owner(ticker, did) && latest < new_requirement.id ==> r
                    == Err::<(), Error>(Error::InvalidComplianceRequirementId) && *final(self)
                    == *old(self))
                &&& (old(self).spec_is_owner(ticker, did) && latest >= new_requirement.id && idx
                    >= reqs.len() ==> r == Err::<(), Error>(Error::InvalidComplianceRequirementId)
                    && *final(self) == *old(self))
                &&& (old(self).spec_is_owner(ticker, did) && latest >= new_requirement.id && idx
                    < reqs.len() && spec_reqs_complexity(reqs.update(idx, new_requirement), dc)
                    > old(self).max_condition_complexity ==> r == Err::<(), Error>(
                    Error::ComplianceRequirementTooComplex,
                ) && *final(self) == *old(self))
                &&& (old(self).spec_is_owner(ticker, did) && latest >= new_requirement.id && idx
                    < reqs.len() && spec_reqs_complexity(reqs.update(idx, new_requirement), dc)
                    <= old(self).max_condition_complexity ==> r == Ok::<(), Error>(()) && final(self).spec_requirements(ticker) == reqs.update(idx, new_requirement) && final(self).spec_paused(ticker) == old(self).spec_paused(ticker))
            }),
            forall|t2: Ticker|
                t2 != ticker ==> spec_assoc_get(final(self).compliances@, t2) == spec_assoc_get(
                    old(self).compliances@,
                    t2,
                ),
    {
        let ghost old_state = *old(self);
        if !self.is_owner(&ticker, did) {
            return Err(Error::Unauthorized);
        }
        let latest: u32 = self.get_latest_requirement_id(&ticker);
        if latest < new_requirement.id {
            return Err(Error::InvalidComplianceRequirementId);
        }
        let ghost reqs_ghost = self.spec_requirements(ticker);
        // Locate the stored requirement with this id.
        let mut idx: usize = 0;
        let mut found: bool = false;
        match assoc_get(&self.compliances, &ticker) {
            None => {
                proof {
                    lemma_index_with_id_absent(reqs_ghost, new_requirement.id);
                }
                return Err(Error::InvalidComplianceRequirementId);
            },
            Some(ac) => {
                proof {
                    assert(ac.requirements@ == reqs_ghost);
                }
                idx = find_req_index(&ac.requirements, new_requirement.id);
                found = idx < ac.requirements.len();
            },
        }
        if !found {
            return Err(Error::InvalidComplianceRequirementId);
        }
        // Validate the budget of the prospective rule set.
        let dc: usize = self.trusted_issuer_count(&ticker);
        let max: u32 = self.max_condition_complexity;
        let within: bool = match assoc_get(&self.compliances, &ticker) {
            None => true,
            Some(ac) => reqs_complexity_sub(&ac.requirements, idx, &new_requirement, dc, max)
                .is_some(),
        };
        if !within {
            return Err(Error::ComplianceRequirementTooComplex);
        }
        let taken: Option<AssetCompliance> = assoc_take(&mut self.compliances, &ticker);
        match taken {
            None => {
                proof {
                    assert(false);
                }
                Err(Error::InvalidComplianceRequirementId)
            },
            Some(mut ac) => {
                ac.requirements.set(idx, new_requirement);
                assoc_insert(&mut self.compliances, ticker, ac);
                proof {
                    assert forall|j: int|
                        0 <= j < self.spec_requirements(ticker).len() implies (
                    #[trigger] self.spec_requirements(ticker)[j]).id <= self.spec_counter(
                        ticker,
                    ) by {
                        assert(old_state.spec_requirements(ticker)[reqs_ghost.len() - 1].id
                            <= old_state.spec_counter(ticker));
                        if j != idx {
                            assert(old_state.spec_requirements(ticker)[j].id
                                <= old_state.spec_counter(ticker));
                        }
                    }
                    self.lemma_wf_after_compliance_change(old_state, ticker);
                }
                Ok(())
            },
        }
    }
}

/// Structural equality of conditions is reflexive.
proof fn lemma_condition_eq_refl(c: Condition)
    ensures
        crate::types::spec_condition_eq(c, c),
{
    match c.condition_type {
        ConditionType::IsPresent(..) => {},
        ConditionType::IsAbsent(..) => {},
        ConditionType::IsAnyOf(..) => {},
        ConditionType::IsNoneOf(..) => {},
        ConditionType::IsIdentity(..) => {},
    }
}

/// Structurally equal conditions cost the same.
proof fn lemma_condition_complexity_eq(a: Condition, b: Condition, dc: int)
    requires
        crate::types::spec_condition_eq(a, b),
    ensures
        spec_condition_complexity(a, dc) == spec_condition_complexity(b, dc),
{
    match (a.condition_type, b.condition_type) {
        (ConditionType::IsAnyOf(x), ConditionType::IsAnyOf(y)) => {
            assert(x@.len() == y@.len());
        },
        (ConditionType::IsNoneOf(x), ConditionType::IsNoneOf(y)) => {
            assert(x@.len() == y@.len());
        },
        _ => {},
    }
}

/// Structurally equal condition lists cost the same.
proof fn lemma_conds_complexity_eq(a: Seq<Condition>, b: Seq<Condition>, dc: int, k: int)
    requires
        spec_conditions_eq(a, b),
        0 <= k <= a.len(),
    ensures
        spec_conds_complexity_pre(a, dc, k) == spec_conds_complexity_pre(b, dc, k),
    decreases k,
{
    if k > 0 {
        lemma_conds_complexity_eq(a, b, dc, k - 1);
        lemma_condition_complexity_eq(a[k - 1], b[k - 1], dc);
    }
}

/// Structurally equal rule sets cost the same.
proof fn lemma_reqs_complexity_eq(
    a: Seq<ComplianceRequirement>,
    b: Seq<ComplianceRequirement>,
    dc: int,
    k: int,
)
    requires
        spec_requirements_eq(a, b),
        0 <= k <= a.len(),
    ensures
        spec_reqs_complexity_pre(a, dc, k) == spec_reqs_complexity_pre(b, dc, k),
    decreases k,
{
    if k > 0 {
        lemma_reqs_complexity_eq(a, b, dc, k - 1);
        lemma_conds_complexity_eq(
            a[k - 1].sender_conditions@,
            b[k - 1].sender_conditions@,
            dc,
            a[k - 1].sender_conditions@.len() as int,
        );
        lemma_conds_complexity_eq(
            a[k - 1].receiver_conditions@,
            b[k - 1].receiver_conditions@,
            dc,
            a[k - 1].receiver_conditions@.len() as int,
        );
    }
}

/// Structurally equal rule sets bind each id at the same position.
proof fn lemma_index_with_id_eq(
    a: Seq<ComplianceRequirement>,
    b: Seq<ComplianceRequirement>,
    id: u32,
)
    requires
        spec_requirements_eq(a, b),
    ensures
        spec_index_with_id(a, id) == spec_index_with_id(b, id),
    decreases a.len(),
{
    if a.len() > 0 && a[0].id != id {
        assert forall|i: int|
            0 <= i < a.drop_first().len() implies spec_requirement_eq(
            #[trigger] a.drop_first()[i],
            b.drop_first()[i],
        ) by {
            assert(a.drop_first()[i] == a[i + 1] && b.drop_first()[i] == b[i + 1]);
        }
        lemma_index_with_id_eq(a.drop_first(), b.drop_first(), id);
    }
}

/// Index of the first requirement with the given id, or the count.
fn find_req_index(reqs: &Vec<ComplianceRequirement>, id: u32) -> (r: usize)
    ensures
        r == spec_index_with_id(reqs@, id),
{
    let mut i: usize = 0;
    while i < reqs.len()
        invariant
            i <= reqs@.len(),
            forall|k: int| 0 <= k < i ==> (#[trigger] reqs@[k]).id != id,
        decreases reqs@.len() - i,
    {
        if reqs[i].id == id {
            proof {
                lemma_index_with_id_is(reqs@, id, i as int);
            }
            return i;
        }
        i = i + 1;
    }
    proof {
        lemma_index_with_id_absent(reqs@, id);
    }
    reqs.len()
}

/// Adds the cost of the requirements with the one at `idx` replaced by
/// `new_req`, failing as soon as the running total leaves the budget.
fn reqs_complexity_sub(
    reqs: &Vec<ComplianceRequirement>,
    idx: usize,
    new_req: &ComplianceRequirement,
    default_count: usize,
    max: u32,
) -> (r: Option<u128>)
    requires
        idx < reqs@.len(),
    ensures
        match r {
            Some(s) => s == spec_reqs_complexity(
                reqs@.update(idx as int, *new_req),
                default_count as int,
            ) && s <= max,
            None => spec_reqs_complexity(reqs@.update(idx as int, *new_req), default_count as int)
                > max,
        },
{
    let ghost us = reqs@.update(idx as int, *new_req);
    let mut cur: u128 = 0;
    let mut i: usize = 0;
    while i < reqs.len()
        invariant
            i <= reqs@.len(),
            idx < reqs@.len(),
            us == reqs@.update(idx as int, *new_req),
            cur == spec_reqs_complexity_pre(us, default_count as int, i as int),
            cur <= max,
        decreases reqs@.len() - i,
    {
        let req: &ComplianceRequirement = if i == idx {
            new_req
        } else {
            &reqs[i]
        };
        proof {
            assert(*req == us[i as int]);
        }
        let with_sender: Option<u128> = conds_complexity_acc(
            &req.sender_conditions,
            default_count,
            max,
            cur,
        );
        match with_sender {
            None => {
                proof {
                    lemma_conds_pre_mono(
                        us[i as int].receiver_conditions@,
                        default_count as int,
                        0,
                        us[i as int].receiver_conditions@.len() as int,
                    );
                    lemma_reqs_pre_mono(us, default_count as int, i + 1, us.len() as int);
                }
                return None;
            },
            Some(s1) => {
                let with_receiver: Option<u128> = conds_complexity_acc(
                    &req.receiver_conditions,
                    default_count,
                    max,
                    s1,
                );
                match with_receiver {
                    None => {
                        proof {
                            lemma_reqs_pre_mono(us, default_count as int, i + 1, us.len() as int);
                        }
                        return None;
                    },
                    Some(s2) => {
                        cur = s2;
                    },
                }
            },
        }
        i = i + 1;
    }
    Some(cur)
}

/// The rule set after applying the first `k` entries of a change
/// batch: each entry replaces the stored requirement carrying its id,
/// in place, and is dropped when no stored requirement has it.
pub open spec fn spec_batch_changed(
    reqs: Seq<ComplianceRequirement>,
    news: Seq<ComplianceRequirement>,
    k: int,
) -> Seq<ComplianceRequirement>
    decreases k,
{
    if k <= 0 {
        reqs
    } else {
        let prev = spec_batch_changed(reqs, news, k - 1);
        let idx = spec_index_with_id(prev, news[k - 1].id);
        if idx < prev.len() {
            prev.update(idx, news[k - 1])
        } else {
            prev
        }
    }
}

/// Batch changes keep every id bounded by the same ceiling: a new
/// requirement lands only where its id was already stored.
proof fn lemma_batch_changed_ids(
    reqs: Seq<ComplianceRequirement>,
    news: Seq<ComplianceRequirement>,
    k: int,
    ceiling: u32,
)
    requires
        0 <= k <= news.len(),
        forall|j: int| 0 <= j < reqs.len() ==> (#[trigger] reqs[j]).id <= ceiling,
    ensures
        forall|j: int|
            0 <= j < spec_batch_changed(reqs, news, k).len() ==> (#[trigger] spec_batch_changed(
                reqs,
                news,
                k,
            )[j]).id <= ceiling,
        spec_batch_changed(reqs, news, k).len() == reqs.len(),
    decreases k,
{
    if k > 0 {
        lemma_batch_changed_ids(reqs, news, k - 1, ceiling);
        let prev = spec_batch_changed(reqs, news, k - 1);
        lemma_index_with_id(prev, news[k - 1].id);
        let idx = spec_index_with_id(prev, news[k - 1].id);
        if idx < prev.len() {
            assert(prev[idx].id == news[k - 1].id);
            assert forall|j: int|
                0 <= j < prev.update(idx, news[k - 1]).len() implies (#[trigger] prev.update(
                idx,
                news[k - 1],
            )[j]).id <= ceiling by {
                if j != idx {
                    assert(prev.update(idx, news[k - 1])[j] == prev[j]);
                }
            }
        }
    }
}

impl Ledger {
    /// Changes a batch of requirements in one request: each entry
    /// replaces the stored requirement carrying its id. A batch naming
    /// an id no stored requirement has is rejected whole, and the
    /// prospective rule set is validated against the complexity budget
    /// before any write.
    pub fn batch_change_compliance_requirement(
        &mut self,
        did: IdentityId,
        new_requirements: Vec<ComplianceRequirement>,
        ticker: Ticker,
    ) -> (r: Result<(), Error>)
        requires
            old(self).wf(),
        ensures
            final(self).wf(),
            final(self).same_identity_state(*old(self)),
            final(self).same_registry(*old(self)),
            final(self).same_balances(*old(self)),
            final(self).same_portfolios(*old(self)),
            final(self).same_config(*old(self)),
            final(self).trusted_issuers@ == old(self).trusted_issuers@,
            final(self).requirement_counter@ == old(self).requirement_counter@,
            !old(self).spec_is_owner(ticker, did) ==> r == Err::<(), Error>(Error::Unauthorized)
                && *final(self) == *old(self),
            ({
                let reqs = old(self).spec_requirements(ticker);
                let latest: u32 = if reqs.len() > 0 {
                    reqs.last().id
                } else {
                    0u32
                };
                let changed = spec_batch_changed(
                    reqs,
                    new_requirements@,
                    new_requirements@.len() as int,
                );
                let dc = old(self).spec_trusted(ticker).len() as int;
                let all_known = forall|i: int|
                    0 <= i < new_requirements@.len() ==> spec_index_with_id(
                        reqs,
                        (#[trigger] new_requirements@[i]).id,
                    ) < reqs.len();
                &&& (old(self).spec_is_owner(ticker, did) && !(exists|i: int|
                    0 <= i < new_requirements@.len() && (#[trigger] new_requirements@[i]).id
                        <= latest) ==> r == Err::<(), Error>(Error::InvalidComplianceRequirementId)
                    && *final(self) == *old(self))
                &&& (old(self).spec_is_owner(ticker, did) && (exists|i: int|
                    0 <= i < new_requirements@.len() && (#[trigger] new_requirements@[i]).id
                        <= latest) && !all_known ==> r == Err::<(), Error>(
                    Error::InvalidComplianceRequirementId,
                ) && *final(self) == *old(self))
                &&& (old(self).spec_is_owner(ticker, did) && (exists|i: int|
                    0 <= i < new_requirements@.len() && (#[trigger] new_requirements@[i]).id
                        <= latest) && all_known && spec_reqs_complexity(changed, dc) > old(
                    self,
                ).max_condition_complexity ==> r == Err::<(), Error>(
                    Error::ComplianceRequirementTooComplex,
                ) && *final(self) == *old(self))
                &&& (old(self).spec_is_owner(ticker, did) && (exists|i: int|
                    0 <= i < new_requirements@.len() && (#[trigger] new_requirements@[i]).id
                        <= latest) && all_known && spec_reqs_complexity(changed, dc) <= old(
                    self,
                ).max_condition_complexity ==> r == Ok::<(), Error>(()) && spec_requirements_eq(
                    final(self).spec_requirements(ticker),
                    changed,
                ) && final(self).spec_paused(ticker) == old(self).spec_paused(ticker))
            }),
            forall|t2: Ticker|
                t2 != ticker ==> spec_assoc_get(final(self).compliances@, t2) == spec_assoc_get(
                    old(self).compliances@,
                    t2,
                ),
    {
        let ghost old_state = *old(self);
        if !self.is_owner(&ticker, did) {
            return Err(Error::Unauthorized);
        }
        let latest: u32 = self.get_latest_requirement_id(&ticker);
        let mut any_known: bool = false;
        let mut i: usize = 0;
        #[verifier::loop_isolation(false)]
        while i < new_requirements.len()
            invariant
                i <= new_requirements@.len(),
                any_known == exists|k: int|
                    0 <= k < i && (#[trigger] new_requirements@[k]).id <= latest,
            decreases new_requirements@.len() - i,
        {
            if new_requirements[i].id <= latest {
                any_known = true;
            }
            i = i + 1;
        }
        if !any_known {
            return Err(Error::InvalidComplianceRequirementId);
        }
        let ghost orig = self.spec_requirements(ticker);
        // Every entry must name a stored requirement; an unknown id
        // rejects the whole batch before any write.
        match assoc_get(&self.compliances, &ticker) {
            None => {
                proof {
                    assert(orig.len() == 0);
                    assert(spec_index_with_id(orig, new_requirements@[0].id) == 0) by {
                        lemma_index_with_id(orig, new_requirements@[0].id);
                    }
                }
                return Err(Error::InvalidComplianceRequirementId);
            },
            Some(ac) => {
                proof {
                    assert(ac.requirements@ == orig);
                }
                let mut j: usize = 0;
                #[verifier::loop_isolation(false)]
                while j < new_requirements.len()
                    invariant
                        j <= new_requirements@.len(),
                        forall|k: int|
                            0 <= k < j ==> spec_index_with_id(
                                orig,
                                (#[trigger] new_requirements@[k]).id,
                            ) < orig.len(),
                    decreases new_requirements@.len() - j,
                {
                    let at: usize = find_req_index(&ac.requirements, new_requirements[j].id);
                    if at == ac.requirements.len() {
                        return Err(Error::InvalidComplianceRequirementId);
                    }
                    proof {
                        lemma_index_with_id(orig, new_requirements@[j as int].id);
                    }
                    j = j + 1;
                }
            },
        }
        // Build the prospective rule set on a working copy, so a
        // rejected budget leaves the stored state byte for byte as it
        // was.
        let mut working: Vec<ComplianceRequirement> = Vec::new();
        match assoc_get(&self.compliances, &ticker) {
            None => {},
            Some(ac) => {
                let mut k: usize = 0;
                while k < ac.requirements.len()
                    invariant
                        k <= ac.requirements@.len(),
                        working@.len() == k,
                        forall|j: int|
                            0 <= j < k ==> spec_requirement_eq(
                                #[trigger] working@[j],
                                ac.requirements@[j],
                            ),
                    decreases ac.requirements@.len() - k,
                {
                    working.push(copy_requirement(&ac.requirements[k]));
                    k = k + 1;
                }
            },
        }
        proof {
            assert(spec_requirements_eq(working@, orig));
        }
        let ghost news0 = new_requirements@;
        let mut rest: Vec<ComplianceRequirement> = new_requirements;
        while rest.len() > 0
            invariant
                rest@.len() <= news0.len(),
                rest@ == news0.subrange(news0.len() - rest@.len(), news0.len() as int),
                spec_requirements_eq(
                    working@,
                    spec_batch_changed(orig, news0, news0.len() - rest@.len()),
                ),
            decreases rest@.len(),
        {
            let ghost consumed = news0.len() - rest@.len();
            let ghost prev = spec_batch_changed(orig, news0, consumed as int);
            let head: ComplianceRequirement = rest.remove(0);
            proof {
                assert(head == news0[consumed as int]);
                assert(rest@ =~= news0.subrange(consumed + 1, news0.len() as int));
                lemma_index_with_id_eq(working@, prev, head.id);
                lemma_index_with_id(working@, head.id);
            }
            let idx: usize = find_req_index(&working, head.id);
            if idx < working.len() {
                proof {
                    lemma_condition_eq_refl_list(head.sender_conditions@);
                    lemma_condition_eq_refl_list(head.receiver_conditions@);
                }
                working.set(idx, head);
                proof {
                    assert forall|j: int|
                        0 <= j < working@.len() implies spec_requirement_eq(
                        #[trigger] working@[j],
                        spec_batch_changed(orig, news0, consumed + 1)[j],
                    ) by {
                        if j != idx {
                            assert(working@[j] == working@[j]);
                        }
                    }
                }
            } else {
                proof {
                    assert(spec_batch_changed(orig, news0, consumed + 1) == prev);
                }
            }
        }
        // Validate the prospective set against the budget.
        let dc: usize = self.trusted_issuer_count(&ticker);
        let max: u32 = self.max_condition_complexity;
        let ghost changed = spec_batch_changed(orig, news0, news0.len() as int);
        proof {
            lemma_reqs_complexity_eq(working@, changed, dc as int, working@.len() as int);
        }
        if reqs_complexity_acc(&working, dc, max, 0).is_none() {
            return Err(Error::ComplianceRequirementTooComplex);
        }
        let mut ac: AssetCompliance = match assoc_take(&mut self.compliances, &ticker) {
            Some(ac) => ac,
            None => Default::default(),
        };
        ac.requirements = working;
        assoc_insert(&mut self.compliances, ticker, ac);
        proof {
            assert forall|j: int|
                0 <= j < self.spec_requirements(ticker).len() implies (
            #[trigger] self.spec_requirements(ticker)[j]).id <= self.spec_counter(ticker) by {
                assert forall|m: int|
                    0 <= m < orig.len() implies (#[trigger] orig[m]).id <= old_state.spec_counter(
                    ticker,
                ) by {
                    assert(old_state.spec_requirements(ticker)[m].id <= old_state.spec_counter(
                        ticker,
                    ));
                }
                lemma_batch_changed_ids(
                    orig,
                    news0,
                    news0.len() as int,
                    old_state.spec_counter(ticker),
                );
                assert(spec_requirement_eq(self.spec_requirements(ticker)[j], changed[j]));
            }
            self.lemma_wf_after_compliance_change(old_state, ticker);
        }
        Ok(())
    }
}

/// Structural equality of condition lists is reflexive.
proof fn lemma_condition_eq_refl_list(a: Seq<Condition>)
    ensures
        spec_conditions_eq(a, a),
{
    assert forall|i: int| 0 <= i < a.len() implies crate::types::spec_condition_eq(
        #[trigger] a[i],
        a[i],
    ) by {
        lemma_condition_eq_refl(a[i]);
    }
}

/// The first `k` issuers of a list with one identity removed, in order.
pub open spec fn spec_remove_issuer_pre(s: Seq<IdentityId>, x: IdentityId, k: int) -> Seq<
    IdentityId,
>
    decreases k,
{
    if k <= 0 {
        Seq::empty()
    } else {
        spec_remove_issuer_pre(s, x, k - 1) + (if s[k - 1] == x {
            Seq::empty()
        } else {
            seq![s[k - 1]]
        })
    }
}

/// The issuer list with every occurrence of `x` removed.
pub open spec fn spec_remove_issuer(s: Seq<IdentityId>, x: IdentityId) -> Seq<IdentityId> {
    spec_remove_issuer_pre(s, x, s.len() as int)
}

/// The trusted-issuer list after applying the first `k` entries of a
/// batch: each is appended or filtered out in order.
pub open spec fn spec_batch_modified(
    trusted: Seq<IdentityId>,
    issuers: Seq<IdentityId>,
    is_add: bool,
    k: int,
) -> Seq<IdentityId>
    decreases k,
{
    if k <= 0 {
        trusted
    } else {
        let prev = spec_batch_modified(trusted, issuers, is_add, k - 1);
        if is_add {
            prev.push(issuers[k - 1])
        } else {
            spec_remove_issuer(prev, issuers[k - 1])
        }
    }
}

impl Ledger {
    /// First validation error of a trusted-issuer batch, checked
    /// against the current list: an entry whose presence equals the
    /// requested direction is an incorrect operation; an unregistered
    /// identity does not exist.
    pub open spec fn spec_batch_error_pre(
        self,
        t: Ticker,
        issuers: Seq<IdentityId>,
        is_add: bool,
        k: int,
    ) -> Option<Error>
        decreases k,
    {
        if k <= 0 {
            None
        } else {
            match self.spec_batch_error_pre(t, issuers, is_add, k - 1) {
                Some(e) => Some(e),
                None => {
                    if self.spec_trusted(t).contains(issuers[k - 1]) == is_add {
                        Some(Error::IncorrectOperationOnTrustedIssuer)
                    } else if !self.spec_identity_exists(issuers[k - 1]) {
                        Some(Error::DidNotExist)
                    } else {
                        None
                    }
                },
            }
        }
    }

    /// Once a batch has a first error, longer prefixes keep it.
    proof fn lemma_batch_error_extends(
        self,
        t: Ticker,
        issuers: Seq<IdentityId>,
        is_add: bool,
        k1: int,
        k2: int,
    )
        requires
            0 <= k1 <= k2,
            self.spec_batch_error_pre(t, issuers, is_add, k1) is Some,
        ensures
            self.spec_batch_error_pre(t, issuers, is_add, k2) == self.spec_batch_error_pre(
                t,
                issuers,
                is_add,
                k1,
            ),
        decreases k2 - k1,
    {
        if k1 < k2 {
            self.lemma_batch_error_extends(t, issuers, is_add, k1, k2 - 1);
        }
    }

    /// Whether `x` is among the default trusted issuers of `t`.
    fn trusted_contains(&self, t: &Ticker, x: &IdentityId) -> (r: bool)
        ensures
            r == self.spec_trusted(*t).contains(*x),
    {
        match assoc_get(&self.trusted_issuers, t) {
            None => false,
            Some(v) => {
                let mut i: usize = 0;
                #[verifier::loop_isolation(false)]
                while i < v.len()
                    invariant
                        i <= v@.len(),
                        forall|k: int| 0 <= k < i ==> v@[k] != *x,
                    decreases v@.len() - i,
                {
                    if v[i] == *x {
                        return true;
                    }
                    i = i + 1;
                }
                false
            },
        }
    }

    /// Rewrites the trusted-issuer list of `ticker` without any
    /// validation: appends `x`, or removes every occurrence of it.
    fn unsafe_modify_default_trusted_claim_issuer(
        &mut self,
        ticker: Ticker,
        x: IdentityId,
        is_add: bool,
    )
        requires
            old(self).wf(),
        ensures
            final(self).wf(),
            final(self).same_identity_state(*old(self)),
            final(self).same_registry(*old(self)),
            final(self).same_balances(*old(self)),
            final(self).same_portfolios(*old(self)),
            final(self).same_config(*old(self)),
            final(self).compliances@ == old(self).compliances@,
            final(self).requirement_counter@ == old(self).requirement_counter@,
            is_add ==> final(self).spec_trusted(ticker) == old(self).spec_trusted(ticker).push(x),
            !is_add ==> final(self).spec_trusted(ticker) == spec_remove_issuer(
                old(self).spec_trusted(ticker),
                x,
            ),
            forall|t2: Ticker|
                t2 != ticker ==> spec_assoc_get(final(self).trusted_issuers@, t2)
                    == spec_assoc_get(old(self).trusted_issuers@, t2),
    {
        let ghost old_state = *old(self);
        let taken: Option<Vec<IdentityId>> = assoc_take(&mut self.trusted_issuers, &ticker);
        let mut list: Vec<IdentityId> = match taken {
            Some(v) => v,
            None => Vec::new(),
        };
        let ghost orig = list@;
        if is_add {
            list.push(x);
        } else {
            let mut kept: Vec<IdentityId> = Vec::new();
            let mut rest: Vec<IdentityId> = list;
            while rest.len() > 0
                invariant
                    rest@.len() <= orig.len(),
                    rest@ == orig.subrange(orig.len() - rest@.len(), orig.len() as int),
                    kept@ == spec_remove_issuer_pre(orig, x, orig.len() - rest@.len()),
                decreases rest@.len(),
            {
                let ghost consumed = orig.len() - rest@.len();
                let head: IdentityId = rest.remove(0);
                proof {
                    assert(head == orig[consumed as int]);
                    assert(rest@ =~= orig.subrange(consumed + 1, orig.len() as int));
                }
                if head != x {
                    kept.push(head);
                }
                proof {
                    assert(kept@ =~= spec_remove_issuer_pre(orig, x, consumed + 1));
                }
            }
            list = kept;
        }
        assoc_insert(&mut self.trusted_issuers, ticker, list);
        proof {
            crate::state::lemma_wf_frame(old_state, *self);
        }
    }

    /// Adds or removes one default trusted issuer after validating the
    /// caller, the issuer's registration, and the direction of the
    /// operation against the current list.
    pub fn modify_default_trusted_claim_issuer(
        &mut self,
        did: IdentityId,
        ticker: Ticker,
        trusted_issuer: IdentityId,
        is_add: bool,
    ) -> (r: Result<(), Error>)
        requires
            old(self).wf(),
        ensures
            final(self).wf(),
            final(self).same_identity_state(*old(self)),
            final(self).same_registry(*old(self)),
            final(self).same_balances(*old(self)),
            final(self).same_portfolios(*old(self)),
            final(self).same_config(*old(self)),
            final(self).compliances@ == old(self).compliances@,
            final(self).requirement_counter@ == old(self).requirement_counter@,
            !old(self).spec_is_owner(ticker, did) ==> r == Err::<(), Error>(Error::Unauthorized)
                && *final(self) == *old(self),
            old(self).spec_is_owner(ticker, did) && !old(self).spec_identity_exists(
                trusted_issuer,
            ) ==> r == Err::<(), Error>(Error::DidNotExist) && *final(self) == *old(self),
            old(self).spec_is_owner(ticker, did) && old(self).spec_identity_exists(trusted_issuer)
                && old(self).spec_trusted(ticker).contains(trusted_issuer) == is_add ==> r
                == Err::<(), Error>(Error::IncorrectOperationOnTrustedIssuer) && *final(self)
                == *old(self),
            old(self).spec_is_owner(ticker, did) && old(self).spec_identity_exists(trusted_issuer)
                && old(self).spec_trusted(ticker).contains(trusted_issuer) != is_add ==> r
                == Ok::<(), Error>(()) && (if is_add {
                final(self).spec_trusted(ticker) == old(self).spec_trusted(ticker).push(
                    trusted_issuer,
                )
            } else {
                final(self).spec_trusted(ticker) == spec_remove_issuer(
                    old(self).spec_trusted(ticker),
                    trusted_issuer,
                )
            }),
            forall|t2: Ticker|
                t2 != ticker ==> spec_assoc_get(final(self).trusted_issuers@, t2)
                    == spec_assoc_get(old(self).trusted_issuers@, t2),
    {
        if !self.is_owner(&ticker, did) {
            return Err(Error::Unauthorized);
        }
        if !self.is_identity_exists(&trusted_issuer) {
            return Err(Error::DidNotExist);
        }
        if self.trusted_contains(&ticker, &trusted_issuer) == is_add {
            return Err(Error::IncorrectOperationOnTrustedIssuer);
        }
        self.unsafe_modify_default_trusted_claim_issuer(ticker, trusted_issuer, is_add);
        Ok(())
    }

    /// Adds one default trusted issuer; the rule set's cost with one
    /// more consulted issuer must stay within the budget.
    pub fn add_default_trusted_claim_issuer(
        &mut self,
        did: IdentityId,
        ticker: Ticker,
        trusted_issuer: IdentityId,
    ) -> (r: Result<(), Error>)
        requires
            old(self).wf(),
            old(self).spec_trusted(ticker).len() < usize::MAX,
        ensures
            final(self).wf(),
            final(self).same_identity_state(*old(self)),
            final(self).same_registry(*old(self)),
            final(self).same_balances(*old(self)),
            final(self).same_portfolios(*old(self)),
            final(self).same_config(*old(self)),
            final(self).compliances@ == old(self).compliances@,
            spec_reqs_complexity(
                old(self).spec_requirements(ticker),
                (old(self).spec_trusted(ticker).len() + 1) as int,
            ) > old(self).max_condition_complexity ==> r == Err::<(), Error>(
                Error::ComplianceRequirementTooComplex,
            ) && *final(self) == *old(self),
            spec_reqs_complexity(
                old(self).spec_requirements(ticker),
                (old(self).spec_trusted(ticker).len() + 1) as int,
            ) <= old(self).max_condition_complexity ==> {
                &&& (!old(self).spec_is_owner(ticker, did) ==> r == Err::<(), Error>(
                    Error::Unauthorized,
                ) && *final(self) == *old(self))
                &&& (old(self).spec_is_owner(ticker, did) && !old(self).spec_identity_exists(
                    trusted_issuer,
                ) ==> r == Err::<(), Error>(Error::DidNotExist) && *final(self) == *old(self))
                &&& (old(self).spec_is_owner(ticker, did) && old(self).spec_identity_exists(
                    trusted_issuer,
                ) && old(self).spec_trusted(ticker).contains(trusted_issuer) ==> r == Err::<
                    (),
                    Error,
                >(Error::IncorrectOperationOnTrustedIssuer) && *final(self) == *old(self))
                &&& (old(self).spec_is_owner(ticker, did) && old(self).spec_identity_exists(
                    trusted_issuer,
                ) && !old(self).spec_trusted(ticker).contains(trusted_issuer) ==> r == Ok::<
                    (),
                    Error,
                >(()) && final(self).spec_trusted(ticker) == old(self).spec_trusted(ticker).push(
                    trusted_issuer,
                ))
            },
    {
        let count: usize = self.trusted_issuer_count(&ticker);
        let prospective: usize = count + 1;
        let within: bool = match assoc_get(&self.compliances, &ticker) {
            None => true,
            Some(ac) => reqs_complexity_acc(
                &ac.requirements,
                prospective,
                self.max_condition_complexity,
                0,
            ).is_some(),
        };
        if !within {
            return Err(Error::ComplianceRequirementTooComplex);
        }
        self.modify_default_trusted_claim_issuer(did, ticker, trusted_issuer, true)
    }

    /// Removes one default trusted issuer.
    pub fn remove_default_trusted_claim_issuer(
        &mut self,
        did: IdentityId,
        ticker: Ticker,
        trusted_issuer: IdentityId,
    ) -> (r: Result<(), Error>)
        requires
            old(self).wf(),
        ensures
            final(self).wf(),
            final(self).same_identity_state(*old(self)),
            final(self).same_registry(*old(self)),
            final(self).same_balances(*old(self)),
            final(self).same_portfolios(*old(self)),
            final(self).same_config(*old(self)),
            final(self).compliances@ == old(self).compliances@,
            !old(self).spec_is_owner(ticker, did) ==> r == Err::<(), Error>(Error::Unauthorized)
                && *final(self) == *old(self),
            old(self).spec_is_owner(ticker, did) && !old(self).spec_identity_exists(
                trusted_issuer,
            ) ==> r == Err::<(), Error>(Error::DidNotExist) && *final(self) == *old(self),
            old(self).spec_is_owner(ticker, did) && old(self).spec_identity_exists(trusted_issuer)
                && !old(self).spec_trusted(ticker).contains(trusted_issuer) ==> r == Err::<
                (),
                Error,
            >(Error::IncorrectOperationOnTrustedIssuer) && *final(self) == *old(self),
            old(self).spec_is_owner(ticker, did) && old(self).spec_identity_exists(trusted_issuer)
                && old(self).spec_trusted(ticker).contains(trusted_issuer) ==> r == Ok::<
                (),
                Error,
            >(()) && final(self).spec_trusted(ticker) == spec_remove_issuer(
                old(self).spec_trusted(ticker),
                trusted_issuer,
            ),
    {
        self.modify_default_trusted_claim_issuer(did, ticker, trusted_issuer, false)
    }

    /// Adds or removes a batch of default trusted issuers. The whole
    /// batch is validated against the current list and the identity
    /// register before anything is written.
    pub fn batch_modify_default_trusted_claim_issuer(
        &mut self,
        did: IdentityId,
        ticker: Ticker,
        trusted_issuers: Vec<IdentityId>,
        is_add: bool,
    ) -> (r: Result<(), Error>)
        requires
            old(self).wf(),
        ensures
            final(self).wf(),
            final(self).same_identity_state(*old(self)),
            final(self).same_registry(*old(self)),
            final(self).same_balances(*old(self)),
            final(self).same_portfolios(*old(self)),
            final(self).same_config(*old(self)),
            final(self).compliances@ == old(self).compliances@,
            final(self).requirement_counter@ == old(self).requirement_counter@,
            trusted_issuers@.len() == 0 ==> r == Err::<(), Error>(Error::InvalidLength) && *final(self) == *old(self),
            trusted_issuers@.len() > 0 && !old(self).spec_is_owner(ticker, did) ==> r == Err::<
                (),
                Error,
            >(Error::Unauthorized) && *final(self) == *old(self),
            trusted_issuers@.len() > 0 && old(self).spec_is_owner(ticker, did) ==> match old(
                self,
            ).spec_batch_error_pre(ticker, trusted_issuers@, is_add, trusted_issuers@.len() as int) {
                Some(e) => r == Err::<(), Error>(e) && *final(self) == *old(self),
                None => r == Ok::<(), Error>(()) && final(self).spec_trusted(ticker)
                    == spec_batch_modified(
                    old(self).spec_trusted(ticker),
                    trusted_issuers@,
                    is_add,
                    trusted_issuers@.len() as int,
                ),
            },
            forall|t2: Ticker|
                t2 != ticker ==> spec_assoc_get(final(self).trusted_issuers@, t2)
                    == spec_assoc_get(old(self).trusted_issuers@, t2),
    {
        let ghost old_state = *old(self);
        if trusted_issuers.len() == 0 {
            return Err(Error::InvalidLength);
        }
        if !self.is_owner(&ticker, did) {
            return Err(Error::Unauthorized);
        }
        // Validate the whole batch before any write.
        let mut j: usize = 0;
        #[verifier::loop_isolation(false)]
        while j < trusted_issuers.len()
            invariant
                j <= trusted_issuers@.len(),
                self.spec_batch_error_pre(ticker, trusted_issuers@, is_add, j as int) is None,
            decreases trusted_issuers@.len() - j,
        {
            if self.trusted_contains(&ticker, &trusted_issuers[j]) == is_add {
                proof {
                    assert(self.spec_batch_error_pre(ticker, trusted_issuers@, is_add, j + 1)
                        == Some(Error::IncorrectOperationOnTrustedIssuer));
                    self.lemma_batch_error_extends(
                        ticker,
                        trusted_issuers@,
                        is_add,
                        j + 1,
                        trusted_issuers@.len() as int,
                    );
                }
                return Err(Error::IncorrectOperationOnTrustedIssuer);
            }
            if !self.is_identity_exists(&trusted_issuers[j]) {
                proof {
                    assert(self.spec_batch_error_pre(ticker, trusted_issuers@, is_add, j + 1)
                        == Some(Error::DidNotExist));
                    self.lemma_batch_error_extends(
                        ticker,
                        trusted_issuers@,
                        is_add,
                        j + 1,
                        trusted_issuers@.len() as int,
                    );
                }
                return Err(Error::DidNotExist);
            }
            j = j + 1;
        }
        // Apply each entry in order.
        let mut k: usize = 0;
        #[verifier::loop_isolation(false)]
        while k < trusted_issuers.len()
            invariant
                k <= trusted_issuers@.len(),
                self.wf(),
                self.same_identity_state(old_state),
                self.same_registry(old_state),
                self.same_balances(old_state),
                self.same_portfolios(old_state),
                self.same_config(old_state),
                self.compliances@ == old_state.compliances@,
                self.requirement_counter@ == old_state.requirement_counter@,
                self.spec_trusted(ticker) == spec_batch_modified(
                    old_state.spec_trusted(ticker),
                    trusted_issuers@,
                    is_add,
                    k as int,
                ),
                forall|t2: Ticker|
                    t2 != ticker ==> spec_assoc_get(self.trusted_issuers@, t2) == spec_assoc_get(
                        old_state.trusted_issuers@,
                        t2,
                    ),
            decreases trusted_issuers@.len() - k,
        {
            self.unsafe_modify_default_trusted_claim_issuer(ticker, trusted_issuers[k], is_add);
            k = k + 1;
        }
        Ok(())
    }

    /// Adds a batch of default trusted issuers; the rule set's cost
    /// with the batch's worth of further consulted issuers must stay
    /// within the budget.
    pub fn batch_add_default_trusted_claim_issuer(
        &mut self,
        did: IdentityId,
        trusted_issuers: Vec<IdentityId>,
        ticker: Ticker,
    ) -> (r: Result<(), Error>)
        requires
            old(self).wf(),
            old(self).spec_trusted(ticker).len() + trusted_issuers@.len() <= usize::MAX,
        ensures
            final(self).wf(),
            final(self).same_identity_state(*old(self)),
            final(self).same_registry(*old(self)),
            final(self).same_balances(*old(self)),
            final(self).same_portfolios(*old(self)),
            final(self).same_config(*old(self)),
            final(self).compliances@ == old(self).compliances@,
            spec_reqs_complexity(
                old(self).spec_requirements(ticker),
                (old(self).spec_trusted(ticker).len() + trusted_issuers@.len()) as int,
            ) > old(self).max_condition_complexity ==> r == Err::<(), Error>(
                Error::ComplianceRequirementTooComplex,
            ) && *final(self) == *old(self),
            spec_reqs_complexity(
                old(self).spec_requirements(ticker),
                (old(self).spec_trusted(ticker).len() + trusted_issuers@.len()) as int,
            ) <= old(self).max_condition_complexity ==> {
                &&& (trusted_issuers@.len() == 0 ==> r == Err::<(), Error>(Error::InvalidLength)
                    && *final(self) == *old(self))
                &&& (trusted_issuers@.len() > 0 && !old(self).spec_is_owner(ticker, did) ==> r
                    == Err::<(), Error>(Error::Unauthorized) && *final(self) == *old(self))
                &&& (trusted_issuers@.len() > 0 && old(self).spec_is_owner(ticker, did)
                    ==> match old(self).spec_batch_error_pre(
                    ticker,
                    trusted_issuers@,
                    true,
                    trusted_issuers@.len() as int,
                ) {
                    Some(e) => r == Err::<(), Error>(e) && *final(self) == *old(self),
                    None => r == Ok::<(), Error>(()) && final(self).spec_trusted(ticker)
                        == spec_batch_modified(
                        old(self).spec_trusted(ticker),
                        trusted_issuers@,
                        true,
                        trusted_issuers@.len() as int,
                    ),
                })
            },
    {
        let count: usize = self.trusted_issuer_count(&ticker);
        let prospective: usize = count + trusted_issuers.len();
        let within: bool = match assoc_get(&self.compliances, &ticker) {
            None => true,
            Some(ac) => reqs_complexity_acc(
                &ac.requirements,
                prospective,
                self.max_condition_complexity,
                0,
            ).is_some(),
        };
        if !within {
            return Err(Error::ComplianceRequirementTooComplex);
        }
        self.batch_modify_default_trusted_claim_issuer(did, ticker, trusted_issuers, true)
    }

    /// Removes a batch of default trusted issuers.
    pub fn batch_remove_default_trusted_claim_issuer(
        &mut self,
        did: IdentityId,
        trusted_issuers: Vec<IdentityId>,
        ticker: Ticker,
    ) -> (r: Result<(), Error>)
        requires
            old(self).wf(),
        ensures
            final(self).wf(),
            final(self).same_identity_state(*old(self)),
            final(self).same_registry(*old(self)),
            final(self).same_balances(*old(self)),
            final(self).same_portfolios(*old(self)),
            final(self).same_config(*old(self)),
            final(self).compliances@ == old(self).compliances@,
            trusted_issuers@.len() == 0 ==> r == Err::<(), Error>(Error::InvalidLength) && *final(self) == *old(self),
            trusted_issuers@.len() > 0 && !old(self).spec_is_owner(ticker, did) ==> r == Err::<
                (),
                Error,
            >(Error::Unauthorized) && *final(self) == *old(self),
            trusted_issuers@.len() > 0 && old(self).spec_is_owner(ticker, did) ==> match old(
                self,
            ).spec_batch_error_pre(
                ticker,
                trusted_issuers@,
                false,
                trusted_issuers@.len() as int,
            ) {
                Some(e) => r == Err::<(), Error>(e) && *final(self) == *old(self),
                None => r == Ok::<(), Error>(()) && final(self).spec_trusted(ticker)
                    == spec_batch_modified(
                    old(self).spec_trusted(ticker),
                    trusted_issuers@,
                    false,
                    trusted_issuers@.len() as int,
                ),
            },
    {
        self.batch_modify_default_trusted_claim_issuer(did, ticker, trusted_issuers, false)
    }
}

} // verus!
