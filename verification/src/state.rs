//! The ledger state: every storage map of the registry, the balance
//! ledger, the scope index and the compliance engine, together with
//! the well-formedness invariant that every operation preserves.
use vstd::prelude::*;
use crate::compliance::{AssetCompliance, ComplianceRequirement};
use crate::types::{
    AssetOwnershipRelation, Claim, ClaimType, IdentityId, PortfolioId, ScopeId, SecurityToken,
    Ticker, TickerRegistration, TickerRegistrationConfig,
};
use crate::vecmap::{
    assoc_contains, assoc_get, assoc_insert, spec_assoc_contains, spec_assoc_get,
    spec_keys_unique,
};

verus! {

/// Key a claim is stored under: target and issuer, then the claim's
/// kind and scope.
pub type ClaimKey = ((IdentityId, IdentityId), (ClaimType, Option<IdentityId>));

/// Storage key of a claim about `target` issued by `issuer`.
pub open spec fn spec_claim_key(target: IdentityId, issuer: IdentityId, c: Claim) -> ClaimKey {
    ((target, issuer), (c.spec_claim_type(), c.spec_scope()))
}

/// The whole persistent state of the transfer-compliance core.
///
/// Every map is an association list with distinct keys; an absent key
/// reads as the map's default (zero balance, no compliance, unfrozen).
pub struct Ledger {
    /// Registered identities; the value says whether the identity
    /// currently holds a valid credential (CDD).
    pub identities: Vec<(IdentityId, bool)>,
    /// Claims, keyed by target, issuer, claim kind and scope.
    pub claims: Vec<(ClaimKey, Claim)>,
    /// Ticker reservations.
    pub tickers: Vec<(Ticker, TickerRegistration)>,
    /// Created assets.
    pub tokens: Vec<(Ticker, SecurityToken)>,
    /// Ownership relation of an identity over a ticker.
    pub ownership: Vec<((IdentityId, Ticker), AssetOwnershipRelation)>,
    /// Frozen assets.
    pub frozen: Vec<(Ticker, bool)>,
    /// Name of each asset's current funding round.
    pub funding_round: Vec<(Ticker, Vec<u8>)>,
    /// Units issued in each asset's current funding round.
    pub issued_in_funding_round: Vec<(Ticker, u128)>,
    /// Validated security identifiers attached to each asset.
    pub identifiers: Vec<(Ticker, Vec<crate::identifier::Identifier>)>,
    /// Per-identity balance of each asset.
    pub balance_of: Vec<((Ticker, IdentityId), u128)>,
    /// Balance of an identity under a deduplication scope.
    pub balance_at_scope: Vec<((ScopeId, IdentityId), u128)>,
    /// Aggregate balance of all identities sharing a scope.
    pub aggregate_balance: Vec<((Ticker, ScopeId), u128)>,
    /// Scope an identity is bound to for a ticker.
    pub scope_id_of: Vec<((Ticker, IdentityId), ScopeId)>,
    /// User portfolios, with their names.
    pub portfolios: Vec<((IdentityId, u64), Vec<u8>)>,
    /// Next user portfolio number of an identity.
    pub next_portfolio_number: Vec<(IdentityId, u64)>,
    /// Per-portfolio balance of each asset.
    pub portfolio_balances: Vec<((PortfolioId, Ticker), u128)>,
    /// Portfolio balance that is locked and cannot be transferred.
    pub locked_assets: Vec<((PortfolioId, Ticker), u128)>,
    /// Assigned custodians; an unassigned portfolio is in the custody
    /// of its owner.
    pub custodians: Vec<(PortfolioId, IdentityId)>,
    /// Compliance rule set of each asset.
    pub compliances: Vec<(Ticker, AssetCompliance)>,
    /// Default trusted claim issuers of each asset.
    pub trusted_issuers: Vec<(Ticker, Vec<IdentityId>)>,
    /// Highest requirement id ever assigned for each ticker.
    pub requirement_counter: Vec<(Ticker, u32)>,
    /// Limits applied when tickers are registered.
    pub ticker_config: TickerRegistrationConfig,
    /// Longest accepted asset name.
    pub asset_name_max_length: usize,
    /// Longest accepted funding round name.
    pub funding_round_name_max_length: usize,
    /// Ceiling on the claim-fetch cost of one asset's rule set.
    pub max_condition_complexity: u32,
}

impl Ledger {
    /// Every storage map has distinct keys.
    pub open spec fn wf_unique(self) -> bool {
        &&& spec_keys_unique(self.identities@)
        &&& spec_keys_unique(self.claims@)
        &&& spec_keys_unique(self.tickers@)
        &&& spec_keys_unique(self.tokens@)
        &&& spec_keys_unique(self.ownership@)
        &&& spec_keys_unique(self.frozen@)
        &&& spec_keys_unique(self.funding_round@)
        &&& spec_keys_unique(self.issued_in_funding_round@)
        &&& spec_keys_unique(self.identifiers@)
        &&& spec_keys_unique(self.balance_of@)
        &&& spec_keys_unique(self.balance_at_scope@)
        &&& spec_keys_unique(self.aggregate_balance@)
        &&& spec_keys_unique(self.scope_id_of@)
        &&& spec_keys_unique(self.portfolios@)
        &&& spec_keys_unique(self.next_portfolio_number@)
        &&& spec_keys_unique(self.portfolio_balances@)
        &&& spec_keys_unique(self.locked_assets@)
        &&& spec_keys_unique(self.custodians@)
        &&& spec_keys_unique(self.compliances@)
        &&& spec_keys_unique(self.trusted_issuers@)
        &&& spec_keys_unique(self.requirement_counter@)
    }

    /// Requirement ids never exceed the ticker's id counter, so a
    /// freshly assigned id is new.
    pub open spec fn wf_requirement_ids(self) -> bool {
        forall|t: Ticker, j: int|
            0 <= j < self.spec_requirements(t).len() ==> (#[trigger] self.spec_requirements(t)[j]).id
                <= self.spec_counter(t)
    }

    /// Well-formed ledger state.
    pub open spec fn wf(self) -> bool {
        &&& self.wf_unique()
        &&& self.wf_requirement_ids()
        &&& self.wf_conservation()
        &&& self.wf_scopes()
        &&& self.wf_ownership()
    }

    /// Every owned relation names the ticker's current registrant, so
    /// at most one identity owns a ticker or its asset at a time.
    pub open spec fn wf_ownership(self) -> bool {
        forall|i: int|
            0 <= i < self.ownership@.len() && !((#[trigger] self.ownership@[i]).1 is NotOwned)
                ==> (match spec_assoc_get(self.tickers@, self.ownership@[i].0.1) {
                Some(reg) => reg.owner == self.ownership@[i].0.0,
                None => false,
            })
    }

    /// Balance conservation: for every ticker the per-identity
    /// balances sum to the recorded total supply.
    pub open spec fn wf_conservation(self) -> bool {
        forall|t: Ticker|
            #[trigger] spec_sum_balances_for(self.balance_of@, t) == self.spec_total_supply(t)
    }

    /// The scope index stays consistent:
    /// * a scope id is used by at most one ticker,
    /// * the balance recorded under a bound scope equals the
    ///   identity's ticker balance,
    /// * every aggregate equals the sum of the balances of the
    ///   identities bound to that scope, and
    /// * every recorded scope balance belongs to a current binding.
    pub open spec fn wf_scopes(self) -> bool {
        &&& self.wf_scope_relations()
        &&& forall|i: int|
            0 <= i < self.balance_at_scope@.len() && (#[trigger] self.balance_at_scope@[i]).1 != 0
                ==> self.spec_scope_entry_bound(
                self.balance_at_scope@[i].0.0,
                self.balance_at_scope@[i].0.1,
            )
    }

    /// Some ticker currently binds `d` to scope `s`.
    pub open spec fn spec_scope_entry_bound(self, s: ScopeId, d: IdentityId) -> bool {
        exists|t: Ticker| #[trigger] self.spec_scope_id_of(t, d) == Some(s)
    }

    /// The three value-level scope conditions.
    pub open spec fn wf_scope_relations(self) -> bool {
        &&& forall|i: int, j: int|
            0 <= i < self.scope_id_of@.len() && 0 <= j < self.scope_id_of@.len()
                && (#[trigger] self.scope_id_of@[i]).1 == (#[trigger] self.scope_id_of@[j]).1
                ==> self.scope_id_of@[i].0.0 == self.scope_id_of@[j].0.0
        &&& forall|i: int|
            0 <= i < self.scope_id_of@.len() ==> self.spec_balance_at_scope(
                (#[trigger] self.scope_id_of@[i]).1,
                self.scope_id_of@[i].0.1,
            ) == self.spec_balance(self.scope_id_of@[i].0.0, self.scope_id_of@[i].0.1)
        &&& forall|t: Ticker, s: ScopeId|
            #[trigger] self.spec_aggregate_balance(t, s) == spec_sum_scope_balances(
                self.scope_id_of@,
                self.balance_of@,
                t,
                s,
            )
    }

    /// Whether `did` is a registered identity.
    pub open spec fn spec_identity_exists(self, did: IdentityId) -> bool {
        spec_assoc_contains(self.identities@, did)
    }

    /// Whether `did` holds a valid credential.
    pub open spec fn spec_has_valid_cdd(self, did: IdentityId) -> bool {
        spec_assoc_get(self.identities@, did) == Some(true)
    }

    /// The stored claim about `target` from `issuer` with the kind and
    /// scope of `c`, when one exists.
    pub open spec fn spec_fetch_claim(
        self,
        target: IdentityId,
        issuer: IdentityId,
        c: Claim,
    ) -> Option<Claim> {
        spec_assoc_get(self.claims@, spec_claim_key(target, issuer, c))
    }

    /// Whether `issuer` has attested exactly the claim `c` of `target`.
    pub open spec fn spec_has_claim(self, target: IdentityId, issuer: IdentityId, c: Claim) -> bool {
        self.spec_fetch_claim(target, issuer, c) == Some(c)
    }

    /// The registration of a ticker, when one exists.
    pub open spec fn spec_ticker_registration(self, t: Ticker) -> Option<TickerRegistration> {
        spec_assoc_get(self.tickers@, t)
    }

    /// The created asset of a ticker, when one exists.
    pub open spec fn spec_token(self, t: Ticker) -> Option<SecurityToken> {
        spec_assoc_get(self.tokens@, t)
    }

    /// Whether an asset has been created for `t`.
    pub open spec fn spec_asset_exists(self, t: Ticker) -> bool {
        spec_assoc_contains(self.tokens@, t)
    }

    /// Recorded total supply of a ticker; zero before asset creation.
    pub open spec fn spec_total_supply(self, t: Ticker) -> u128 {
        match self.spec_token(t) {
            Some(tok) => tok.total_supply,
            None => 0,
        }
    }

    /// Ownership relation of `did` over `t`.
    pub open spec fn spec_ownership(self, did: IdentityId, t: Ticker) -> AssetOwnershipRelation {
        match spec_assoc_get(self.ownership@, (did, t)) {
            Some(r) => r,
            None => AssetOwnershipRelation::NotOwned,
        }
    }

    /// Whether `did` owns the ticker or the asset behind `t`.
    pub open spec fn spec_is_owner(self, t: Ticker, did: IdentityId) -> bool {
        self.spec_ownership(did, t) is TickerOwned || self.spec_ownership(did, t) is AssetOwned
    }

    /// Whether the asset is frozen.
    pub open spec fn spec_frozen(self, t: Ticker) -> bool {
        spec_assoc_get(self.frozen@, t) == Some(true)
    }

    /// Per-identity balance; zero when never credited.
    pub open spec fn spec_balance(self, t: Ticker, did: IdentityId) -> u128 {
        match spec_assoc_get(self.balance_of@, (t, did)) {
            Some(v) => v,
            None => 0,
        }
    }

    /// Balance recorded for `did` under scope `s`; zero by default.
    pub open spec fn spec_balance_at_scope(self, s: ScopeId, did: IdentityId) -> u128 {
        match spec_assoc_get(self.balance_at_scope@, (s, did)) {
            Some(v) => v,
            None => 0,
        }
    }

    /// Aggregate balance of scope `s` under ticker `t`; zero by default.
    pub open spec fn spec_aggregate_balance(self, t: Ticker, s: ScopeId) -> u128 {
        match spec_assoc_get(self.aggregate_balance@, (t, s)) {
            Some(v) => v,
            None => 0,
        }
    }

    /// The scope `did` is bound to for ticker `t`, when any.
    pub open spec fn spec_scope_id_of(self, t: Ticker, did: IdentityId) -> Option<ScopeId> {
        spec_assoc_get(self.scope_id_of@, (t, did))
    }

    /// Units issued in the ticker's current funding round; zero when
    /// never tracked.
    pub open spec fn spec_issued_in_round(self, t: Ticker) -> u128 {
        match spec_assoc_get(self.issued_in_funding_round@, t) {
            Some(v) => v,
            None => 0,
        }
    }

    /// Per-portfolio balance; zero when never credited.
    pub open spec fn spec_portfolio_balance(self, p: PortfolioId, t: Ticker) -> u128 {
        match spec_assoc_get(self.portfolio_balances@, (p, t)) {
            Some(v) => v,
            None => 0,
        }
    }

    /// Locked part of a portfolio balance; zero by default.
    pub open spec fn spec_locked(self, p: PortfolioId, t: Ticker) -> u128 {
        match spec_assoc_get(self.locked_assets@, (p, t)) {
            Some(v) => v,
            None => 0,
        }
    }

    /// Custodian of a portfolio: the assigned identity, else the owner.
    pub open spec fn spec_custodian(self, p: PortfolioId) -> IdentityId {
        match spec_assoc_get(self.custodians@, p) {
            Some(c) => c,
            None => p.did,
        }
    }

    /// Whether the portfolio exists: default portfolios always do,
    /// user portfolios once created.
    pub open spec fn spec_portfolio_exists(self, p: PortfolioId) -> bool {
        match p.kind {
            crate::types::PortfolioKind::Default => true,
            crate::types::PortfolioKind::User(num) => spec_assoc_contains(
                self.portfolios@,
                (p.did, num),
            ),
        }
    }

    /// Whether compliance checking is paused for `t`.
    pub open spec fn spec_paused(self, t: Ticker) -> bool {
        match spec_assoc_get(self.compliances@, t) {
            Some(ac) => ac.paused,
            None => false,
        }
    }

    /// The compliance requirements of `t`, oldest first.
    pub open spec fn spec_requirements(self, t: Ticker) -> Seq<ComplianceRequirement> {
        match spec_assoc_get(self.compliances@, t) {
            Some(ac) => ac.requirements@,
            None => Seq::empty(),
        }
    }

    /// The default trusted claim issuers of `t`.
    pub open spec fn spec_trusted(self, t: Ticker) -> Seq<IdentityId> {
        match spec_assoc_get(self.trusted_issuers@, t) {
            Some(v) => v@,
            None => Seq::empty(),
        }
    }

    /// Highest requirement id assigned so far for `t`.
    pub open spec fn spec_counter(self, t: Ticker) -> u32 {
        match spec_assoc_get(self.requirement_counter@, t) {
            Some(c) => c,
            None => 0,
        }
    }

    /// The identity and claim stores agree between `self` and `other`.
    pub open spec fn same_identity_state(self, other: Ledger) -> bool {
        self.identities@ == other.identities@ && self.claims@ == other.claims@
    }

    /// The registry maps agree between `self` and `other`.
    pub open spec fn same_registry(self, other: Ledger) -> bool {
        &&& self.tickers@ == other.tickers@
        &&& self.tokens@ == other.tokens@
        &&& self.ownership@ == other.ownership@
        &&& self.frozen@ == other.frozen@
        &&& self.funding_round@ == other.funding_round@
        &&& self.issued_in_funding_round@ == other.issued_in_funding_round@
        &&& self.identifiers@ == other.identifiers@
    }

    /// Every balance index agrees between `self` and `other`.
    pub open spec fn same_balances(self, other: Ledger) -> bool {
        &&& self.balance_of@ == other.balance_of@
        &&& self.balance_at_scope@ == other.balance_at_scope@
        &&& self.aggregate_balance@ == other.aggregate_balance@
        &&& self.scope_id_of@ == other.scope_id_of@
    }

    /// The portfolio maps agree between `self` and `other`.
    pub open spec fn same_portfolios(self, other: Ledger) -> bool {
        &&& self.portfolios@ == other.portfolios@
        &&& self.next_portfolio_number@ == other.next_portfolio_number@
        &&& self.portfolio_balances@ == other.portfolio_balances@
        &&& self.locked_assets@ == other.locked_assets@
        &&& self.custodians@ == other.custodians@
    }

    /// The compliance maps agree between `self` and `other`.
    pub open spec fn same_compliance(self, other: Ledger) -> bool {
        &&& self.compliances@ == other.compliances@
        &&& self.trusted_issuers@ == other.trusted_issuers@
        &&& self.requirement_counter@ == other.requirement_counter@
    }

    /// The configuration agrees between `self` and `other`.
    pub open spec fn same_config(self, other: Ledger) -> bool {
        &&& self.ticker_config == other.ticker_config
        &&& self.asset_name_max_length == other.asset_name_max_length
        &&& self.funding_round_name_max_length == other.funding_round_name_max_length
        &&& self.max_condition_complexity == other.max_condition_complexity
    }

    /// An empty ledger under the given limits.
    pub fn new(
        ticker_config: TickerRegistrationConfig,
        asset_name_max_length: usize,
        funding_round_name_max_length: usize,
        max_condition_complexity: u32,
    ) -> (r: Ledger)
        ensures
            r.wf(),
            r.identities@.len() == 0,
            r.claims@.len() == 0,
            r.tickers@.len() == 0,
            r.tokens@.len() == 0,
            r.balance_of@.len() == 0,
            r.compliances@.len() == 0,
            r.trusted_issuers@.len() == 0,
            r.ticker_config == ticker_config,
            r.asset_name_max_length == asset_name_max_length,
            r.funding_round_name_max_length == funding_round_name_max_length,
            r.max_condition_complexity == max_condition_complexity,
    {
        let r = Ledger {
            identities: Vec::new(),
            claims: Vec::new(),
            tickers: Vec::new(),
            tokens: Vec::new(),
            ownership: Vec::new(),
            frozen: Vec::new(),
            funding_round: Vec::new(),
            issued_in_funding_round: Vec::new(),
            identifiers: Vec::new(),
            balance_of: Vec::new(),
            balance_at_scope: Vec::new(),
            aggregate_balance: Vec::new(),
            scope_id_of: Vec::new(),
            portfolios: Vec::new(),
            next_portfolio_number: Vec::new(),
            portfolio_balances: Vec::new(),
            locked_assets: Vec::new(),
            custodians: Vec::new(),
            compliances: Vec::new(),
            trusted_issuers: Vec::new(),
            requirement_counter: Vec::new(),
            ticker_config,
            asset_name_max_length,
            funding_round_name_max_length,
            max_condition_complexity,
        };
        proof {
            assert forall|t: Ticker| #[trigger] spec_sum_balances_for(r.balance_of@, t)
                == r.spec_total_supply(t) by {
            }
            assert forall|t: Ticker, s: ScopeId| #[trigger] r.spec_aggregate_balance(t, s)
                == spec_sum_scope_balances(r.scope_id_of@, r.balance_of@, t, s) by {
            }
        }
        r
    }

    /// Registers an identity with a valid credential.
    pub fn register_identity(&mut self, did: IdentityId)
        requires
            old(self).wf(),
        ensures
            final(self).wf(),
            final(self).spec_identity_exists(did),
            final(self).spec_has_valid_cdd(did),
            forall|d2: IdentityId|
                d2 != did ==> spec_assoc_get(final(self).identities@, d2) == spec_assoc_get(
                    old(self).identities@,
                    d2,
                ),
            final(self).claims@ == old(self).claims@,
            final(self).same_registry(*old(self)),
            final(self).same_balances(*old(self)),
            final(self).same_portfolios(*old(self)),
            final(self).same_compliance(*old(self)),
            final(self).same_config(*old(self)),
    {
        assoc_insert(&mut self.identities, did, true);
        proof {
            lemma_wf_frame(*old(self), *self);
        }
    }

    /// Records a claim about `target`, attested by `issuer`,
    /// replacing any earlier claim of the same kind and scope from the
    /// same issuer.
    pub fn add_claim(&mut self, target: IdentityId, claim: Claim, issuer: IdentityId)
        requires
            old(self).wf(),
        ensures
            final(self).wf(),
            final(self).spec_has_claim(target, issuer, claim),
            forall|k2: ClaimKey|
                k2 != spec_claim_key(target, issuer, claim) ==> spec_assoc_get(
                    final(self).claims@,
                    k2,
                ) == spec_assoc_get(old(self).claims@, k2),
            final(self).identities@ == old(self).identities@,
            final(self).same_registry(*old(self)),
            final(self).same_balances(*old(self)),
            final(self).same_portfolios(*old(self)),
            final(self).same_compliance(*old(self)),
            final(self).same_config(*old(self)),
    {
        let ct: ClaimType = claim.claim_type();
        let scope: Option<IdentityId> = claim.as_scope();
        assoc_insert(&mut self.claims, ((target, issuer), (ct, scope)), claim);
        proof {
            lemma_wf_frame(*old(self), *self);
        }
    }

    /// Whether `did` is a registered identity.
    pub fn is_identity_exists(&self, did: &IdentityId) -> (r: bool)
        ensures
            r == self.spec_identity_exists(*did),
    {
        assoc_contains(&self.identities, did)
    }

    /// Whether `did` holds a valid credential.
    pub fn has_valid_cdd(&self, did: &IdentityId) -> (r: bool)
        ensures
            r == self.spec_has_valid_cdd(*did),
    {
        match assoc_get(&self.identities, did) {
            Some(v) => *v,
            None => false,
        }
    }

    /// Whether `did` owns the ticker or the asset behind `t`.
    pub fn is_owner(&self, t: &Ticker, did: IdentityId) -> (r: bool)
        ensures
            r == self.spec_is_owner(*t, did),
    {
        match assoc_get(&self.ownership, &(did, *t)) {
            Some(rel) => match rel {
                AssetOwnershipRelation::AssetOwned => true,
                AssetOwnershipRelation::TickerOwned => true,
                AssetOwnershipRelation::NotOwned => false,
            },
            None => false,
        }
    }

    /// Per-identity balance of `did` for ticker `t`.
    pub fn balance_of(&self, t: &Ticker, did: &IdentityId) -> (r: u128)
        ensures
            r == self.spec_balance(*t, *did),
    {
        match assoc_get(&self.balance_of, &(*t, *did)) {
            Some(v) => *v,
            None => 0,
        }
    }

    /// Recorded total supply of `t`; zero before asset creation.
    pub fn total_supply(&self, t: &Ticker) -> (r: u128)
        ensures
            r == self.spec_total_supply(*t),
    {
        match assoc_get(&self.tokens, t) {
            Some(tok) => tok.total_supply,
            None => 0,
        }
    }

    /// Units issued in the ticker's current funding round.
    pub fn issued_in_funding_round(&self, t: &Ticker) -> (r: u128)
        ensures
            r == self.spec_issued_in_round(*t),
    {
        match assoc_get(&self.issued_in_funding_round, t) {
            Some(v) => *v,
            None => 0,
        }
    }

    /// Whether the asset behind `t` is frozen.
    pub fn frozen(&self, t: &Ticker) -> (r: bool)
        ensures
            r == self.spec_frozen(*t),
    {
        match assoc_get(&self.frozen, t) {
            Some(v) => *v,
            None => false,
        }
    }

    /// Aggregate balance of scope `s` under ticker `t`.
    pub fn aggregate_balance_of(&self, t: &Ticker, s: &ScopeId) -> (r: u128)
        ensures
            r == self.spec_aggregate_balance(*t, *s),
    {
        match assoc_get(&self.aggregate_balance, &(*t, *s)) {
            Some(v) => *v,
            None => 0,
        }
    }

    /// Balance recorded for `did` under scope `s`.
    pub fn balance_of_at_scope(&self, s: &ScopeId, did: &IdentityId) -> (r: u128)
        ensures
            r == self.spec_balance_at_scope(*s, *did),
    {
        match assoc_get(&self.balance_at_scope, &(*s, *did)) {
            Some(v) => *v,
            None => 0,
        }
    }

    /// The scope `did` is bound to for `t`, when any.
    pub fn scope_id_of(&self, t: &Ticker, did: &IdentityId) -> (r: Option<ScopeId>)
        ensures
            r == self.spec_scope_id_of(*t, *did),
    {
        match assoc_get(&self.scope_id_of, &(*t, *did)) {
            Some(s) => Some(*s),
            None => None,
        }
    }
}

/// A state whose balance, scope, token and compliance maps are those
/// of a well-formed state, and whose maps all have distinct keys, is
/// well formed.
pub proof fn lemma_wf_frame(a: Ledger, b: Ledger)
    requires
        a.wf(),
        b.wf_unique(),
        b.balance_of@ == a.balance_of@,
        b.tokens@ == a.tokens@,
        b.tickers@ == a.tickers@,
        b.ownership@ == a.ownership@,
        b.scope_id_of@ == a.scope_id_of@,
        b.balance_at_scope@ == a.balance_at_scope@,
        b.aggregate_balance@ == a.aggregate_balance@,
        b.compliances@ == a.compliances@,
        b.requirement_counter@ == a.requirement_counter@,
    ensures
        b.wf(),
{
    assert forall|t: Ticker, j: int| 0 <= j < b.spec_requirements(t).len() implies (
    #[trigger] b.spec_requirements(t)[j]).id <= b.spec_counter(t) by {
        assert(b.spec_requirements(t) == a.spec_requirements(t));
        assert(a.spec_requirements(t)[j].id <= a.spec_counter(t));
    }
    lemma_wf_balances_frame(a, b);
    lemma_wf_ownership_frame(a, b);
}

/// The owned-by-registrant rule carries over unchanged registration
/// and ownership maps.
pub proof fn lemma_wf_ownership_frame(a: Ledger, b: Ledger)
    requires
        a.wf_ownership(),
        b.tickers@ == a.tickers@,
        b.ownership@ == a.ownership@,
    ensures
        b.wf_ownership(),
{
    assert forall|i: int|
        0 <= i < b.ownership@.len() && !((#[trigger] b.ownership@[i]).1 is NotOwned) implies (
    match spec_assoc_get(b.tickers@, b.ownership@[i].0.1) {
        Some(reg) => reg.owner == b.ownership@[i].0.0,
        None => false,
    }) by {
        assert(a.ownership@[i] == b.ownership@[i]);
        assert(!(a.ownership@[i].1 is NotOwned));
    }
}

/// A state that keeps a well-formed state's balance and scope maps,
/// and every total supply, keeps conservation and scope consistency,
/// whatever else moved.
pub proof fn lemma_wf_balances_frame(a: Ledger, b: Ledger)
    requires
        a.wf(),
        b.balance_of@ == a.balance_of@,
        forall|t: Ticker| #[trigger] b.spec_total_supply(t) == a.spec_total_supply(t),
        b.scope_id_of@ == a.scope_id_of@,
        b.balance_at_scope@ == a.balance_at_scope@,
        b.aggregate_balance@ == a.aggregate_balance@,
    ensures
        b.wf_conservation(),
        b.wf_scopes(),
{
    assert forall|t: Ticker| #[trigger] spec_sum_balances_for(b.balance_of@, t)
        == b.spec_total_supply(t) by {
        assert(spec_sum_balances_for(a.balance_of@, t) == a.spec_total_supply(t));
        assert(b.spec_total_supply(t) == a.spec_total_supply(t));
    }
    assert forall|i: int|
        0 <= i < b.scope_id_of@.len() implies b.spec_balance_at_scope(
        (#[trigger] b.scope_id_of@[i]).1,
        b.scope_id_of@[i].0.1,
    ) == b.spec_balance(b.scope_id_of@[i].0.0, b.scope_id_of@[i].0.1) by {
        assert(a.spec_balance_at_scope(a.scope_id_of@[i].1, a.scope_id_of@[i].0.1)
            == a.spec_balance(a.scope_id_of@[i].0.0, a.scope_id_of@[i].0.1));
    }
    assert forall|t: Ticker, s: ScopeId| #[trigger] b.spec_aggregate_balance(t, s)
        == spec_sum_scope_balances(b.scope_id_of@, b.balance_of@, t, s) by {
        assert(a.spec_aggregate_balance(t, s) == spec_sum_scope_balances(
            a.scope_id_of@,
            a.balance_of@,
            t,
            s,
        ));
    }
    assert forall|i: int|
        0 <= i < b.balance_at_scope@.len() && (#[trigger] b.balance_at_scope@[i]).1
            != 0 implies b.spec_scope_entry_bound(
        b.balance_at_scope@[i].0.0,
        b.balance_at_scope@[i].0.1,
    ) by {
        let s = a.balance_at_scope@[i].0.0;
        let d = a.balance_at_scope@[i].0.1;
        assert(a.spec_scope_entry_bound(s, d));
        let t = choose|t: Ticker| #[trigger] a.spec_scope_id_of(t, d) == Some(s);
        assert(b.spec_scope_id_of(t, d) == Some(s));
    }
}

/// Contribution of one balance entry to the sum of ticker `t`.
pub open spec fn spec_balance_contrib(e: ((Ticker, IdentityId), u128), t: Ticker) -> int {
    if e.0.0 == t {
        e.1 as int
    } else {
        0
    }
}

/// Sum of all per-identity balances recorded for ticker `t`.
pub open spec fn spec_sum_balances_for(s: Seq<((Ticker, IdentityId), u128)>, t: Ticker) -> int
    decreases s.len(),
{
    if s.len() == 0 {
        0
    } else {
        spec_sum_balances_for(s.drop_last(), t) + spec_balance_contrib(s.last(), t)
    }
}

/// Sum, over the scope bindings of ticker `t` to scope `s`, of the
/// bound identities' balances of `t`.
pub open spec fn spec_sum_scope_balances(
    bindings: Seq<((Ticker, IdentityId), ScopeId)>,
    balances: Seq<((Ticker, IdentityId), u128)>,
    t: Ticker,
    s: ScopeId,
) -> int
    decreases bindings.len(),
{
    if bindings.len() == 0 {
        0
    } else {
        spec_sum_scope_balances(bindings.drop_last(), balances, t, s) + (
        if bindings.last().0.0 == t && bindings.last().1 == s {
            (match spec_assoc_get(balances, (t, bindings.last().0.1)) {
                Some(v) => v as int,
                None => 0,
            })
        } else {
            0
        })
    }
}

} // verus!
