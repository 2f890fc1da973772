//! Core data model: identities, tickers, portfolios, claims and the
//! conditions of the compliance rule engine.
use vstd::prelude::*;

verus! {

/// Opaque 256-bit identifier of a ledger participant, split in two
/// machine words.
#[derive(Clone, Copy, Debug, PartialEq, Eq, Structural)]
pub struct IdentityId {
    pub hi: u128,
    pub lo: u128,
}

impl IdentityId {
    /// Identity whose numeric value is `v`.
    pub fn from_u128(v: u128) -> (r: IdentityId)
        ensures
            r == (IdentityId { hi: 0, lo: v }),
    {
        IdentityId { hi: 0, lo: v }
    }
}

/// Whether `b` is an ASCII hexadecimal digit.
pub open spec fn spec_is_hex_digit(b: u8) -> bool {
    (48 <= b <= 57) || (97 <= b <= 102) || (65 <= b <= 70)
}

/// Numeric value of one hexadecimal digit.
pub open spec fn spec_hex_digit_val(b: u8) -> int {
    if 48 <= b <= 57 {
        b - 48
    } else if 97 <= b <= 102 {
        b - 87
    } else if 65 <= b <= 70 {
        b - 55
    } else {
        0
    }
}

/// Number a big-endian string of hexadecimal digits spells.
pub open spec fn spec_hex_value(s: Seq<u8>) -> int
    decreases s.len(),
{
    if s.len() == 0 {
        0
    } else {
        spec_hex_value(s.drop_last()) * 16 + spec_hex_digit_val(s.last())
    }
}

/// Sixteen to the given power.
pub open spec fn spec_pow16(n: nat) -> int
    decreases n,
{
    if n == 0 {
        1
    } else {
        16 * spec_pow16((n - 1) as nat)
    }
}

proof fn lemma_pow16_mono(n1: nat, n2: nat)
    requires
        n1 <= n2,
    ensures
        1 <= spec_pow16(n1) <= spec_pow16(n2),
    decreases n2,
{
    if n2 > 0 {
        if n1 == n2 {
            lemma_pow16_mono(0, (n2 - 1) as nat);
        } else {
            lemma_pow16_mono(n1, (n2 - 1) as nat);
        }
    }
}

/// The value of a hexadecimal string is below sixteen to its length.
proof fn lemma_hex_value_bound(s: Seq<u8>)
    ensures
        0 <= spec_hex_value(s) < spec_pow16(s.len()),
    decreases s.len(),
{
    if s.len() > 0 {
        lemma_hex_value_bound(s.drop_last());
    }
}

/// The prefix every decentralized identity string starts with.
pub open spec fn spec_did_prefix_ok(s: Seq<u8>) -> bool {
    s.len() >= 9 && s[0] == 100 && s[1] == 105 && s[2] == 100 && s[3] == 58 && s[4] == 112 && s[5]
        == 111 && s[6] == 108 && s[7] == 121 && s[8] == 58
}

/// All bytes of `s` are hexadecimal digits.
pub open spec fn spec_all_hex(s: Seq<u8>) -> bool {
    forall|i: int| 0 <= i < s.len() ==> spec_is_hex_digit(#[trigger] s[i])
}

/// Parses one 32-digit big-endian hexadecimal chunk.
fn parse_hex_32(s: &[u8], start: usize) -> (r: Option<u128>)
    requires
        start + 32 <= s@.len(),
        s@.len() <= 100,
    ensures
        match r {
            Some(v) => spec_all_hex(s@.subrange(start as int, start + 32)) && v == spec_hex_value(
                s@.subrange(start as int, start + 32),
            ),
            None => !spec_all_hex(s@.subrange(start as int, start + 32)),
        },
{
    let ghost chunk = s@.subrange(start as int, start + 32);
    let mut acc: u128 = 0;
    let mut i: usize = 0;
    while i < 32
        invariant
            i <= 32,
            start + 32 <= s@.len(),
            s@.len() <= 100,
            chunk == s@.subrange(start as int, start + 32),
            acc == spec_hex_value(chunk.subrange(0, i as int)),
            spec_all_hex(chunk.subrange(0, i as int)),
        decreases 32 - i,
    {
        let b: u8 = s[start + i];
        proof {
            assert(chunk[i as int] == s@[start + i]);
        }
        let d: u8 = if 48 <= b && b <= 57 {
            b - 48
        } else if 97 <= b && b <= 102 {
            b - 87
        } else if 65 <= b && b <= 70 {
            b - 55
        } else {
            proof {
                assert(!spec_is_hex_digit(chunk[i as int]));
                assert(!spec_all_hex(chunk)) by {
                    assert(0 <= i < chunk.len() && !spec_is_hex_digit(chunk[i as int]));
                }
            }
            return None;
        };
        proof {
            let pre = chunk.subrange(0, i as int);
            let post = chunk.subrange(0, i + 1);
            assert(post.drop_last() =~= pre);
            assert(post.last() == chunk[i as int]);
            lemma_hex_value_bound(pre);
            lemma_pow16_mono(pre.len(), 31);
            assert(spec_pow16(31) == 0x1000_0000_0000_0000_0000_0000_0000_0000) by {
                reveal_with_fuel(spec_pow16, 32);
            }
            assert(acc * 16 + d < 0x1_0000_0000_0000_0000_0000_0000_0000_0000) by (nonlinear_arith)
                requires
                    0 <= acc < 0x1000_0000_0000_0000_0000_0000_0000_0000,
                    0 <= d < 16,
            ;
            assert forall|k: int| 0 <= k < post.len() implies spec_is_hex_digit(
                #[trigger] post[k],
            ) by {
                if k < i {
                    assert(post[k] == pre[k]);
                }
            }
        }
        acc = acc * 16 + (d as u128);
        i = i + 1;
    }
    proof {
        assert(chunk.subrange(0, 32) =~= chunk);
    }
    Some(acc)
}

impl IdentityId {
    /// Parses a textual decentralized identity of the shape
    /// `did:poly:` followed by 64 hexadecimal digits.
    pub fn from_did_bytes(s: &[u8]) -> (r: Option<IdentityId>)
        ensures
            match r {
                Some(id) => s@.len() == 73 && spec_did_prefix_ok(s@) && spec_all_hex(
                    s@.subrange(9, 73),
                ) && id.hi == spec_hex_value(s@.subrange(9, 41)) && id.lo == spec_hex_value(
                    s@.subrange(41, 73),
                ),
                None => !(s@.len() == 73 && spec_did_prefix_ok(s@) && spec_all_hex(
                    s@.subrange(9, 73),
                )),
            },
    {
        if s.len() != 73 {
            return None;
        }
        if !(s[0] == 100 && s[1] == 105 && s[2] == 100 && s[3] == 58 && s[4] == 112 && s[5] == 111
            && s[6] == 108 && s[7] == 121 && s[8] == 58) {
            return None;
        }
        let hi: u128 = match parse_hex_32(s, 9) {
            Some(v) => v,
            None => {
                proof {
                    if spec_all_hex(s@.subrange(9, 73)) {
                        lemma_all_hex_subrange(s@, 9, 41);
                    }
                }
                return None;
            },
        };
        let lo: u128 = match parse_hex_32(s, 41) {
            Some(v) => v,
            None => {
                proof {
                    if spec_all_hex(s@.subrange(9, 73)) {
                        lemma_all_hex_subrange(s@, 41, 73);
                    }
                }
                return None;
            },
        };
        proof {
            assert(spec_all_hex(s@.subrange(9, 73))) by {
                assert forall|i: int| 0 <= i < s@.subrange(9, 73).len() implies spec_is_hex_digit(
                    #[trigger] s@.subrange(9, 73)[i],
                ) by {
                    if i < 32 {
                        assert(s@.subrange(9, 73)[i] == s@.subrange(9, 41)[i]);
                    } else {
                        assert(s@.subrange(9, 73)[i] == s@.subrange(41, 73)[i - 32]);
                    }
                }
            }
        }
        Some(IdentityId { hi, lo })
    }
}

/// Hexadecimality of a wider range covers its inner chunks.
proof fn lemma_all_hex_subrange(s: Seq<u8>, a: int, b: int)
    requires
        s.len() == 73,
        9 <= a <= b <= 73,
        spec_all_hex(s.subrange(9, 73)),
    ensures
        spec_all_hex(s.subrange(a, b)),
{
    assert forall|i: int| 0 <= i < s.subrange(a, b).len() implies spec_is_hex_digit(
        #[trigger] s.subrange(a, b)[i],
    ) by {
        assert(s.subrange(a, b)[i] == s.subrange(9, 73)[a - 9 + i]);
    }
}

/// Deduplication scope grouping identities of one real-world investor.
pub type ScopeId = IdentityId;

/// Scope of a claim; in this model a scope is an identity-shaped key.
pub type Scope = IdentityId;

/// Credential record identifier carried by a due-diligence claim.
pub type CddId = IdentityId;

/// Fixed-width symbol naming an asset. Unused trailing bytes are NUL.
#[derive(Clone, Copy, Debug)]
pub struct Ticker {
    pub bytes: [u8; 12],
}

impl PartialEq for Ticker {
    fn eq(&self, other: &Ticker) -> (r: bool) {
        let mut i: usize = 0;
        let mut same: bool = true;
        while i < 12
            invariant
                i <= 12,
                same == (forall|k: int| 0 <= k < i ==> self.bytes@[k] == other.bytes@[k]),
            decreases 12 - i,
        {
            if self.bytes[i] != other.bytes[i] {
                same = false;
            }
            i = i + 1;
        }
        proof {
            if same {
                assert(self.bytes =~= other.bytes);
                assert(*self == *other);
            }
        }
        same
    }
}

impl Eq for Ticker {

}

impl vstd::std_specs::cmp::PartialEqSpecImpl for Ticker {
    open spec fn obeys_eq_spec() -> bool {
        true
    }

    open spec fn eq_spec(&self, other: &Ticker) -> bool {
        *self == *other
    }
}

/// First index of a NUL byte in `s`, or the length when none occurs.
pub open spec fn spec_first_nul(s: Seq<u8>, i: int) -> int
    decreases s.len() - i,
{
    if i < 0 || i >= s.len() {
        s.len() as int
    } else if s[i] == 0 {
        i
    } else {
        spec_first_nul(s, i + 1)
    }
}

/// `k` splits `s` into a printable ASCII prefix and an all-NUL suffix.
pub open spec fn spec_ascii_cut_ok(s: Seq<u8>, k: int) -> bool {
    0 <= k <= s.len() && (forall|i: int| 0 <= i < k ==> 32 <= #[trigger] s[i] <= 126) && (forall|
        i: int,
    | k <= i < s.len() ==> #[trigger] s[i] == 0)
}

/// A ticker is well formed when some cut splits it into a printable
/// ASCII prefix and an all-NUL suffix.
pub open spec fn spec_ticker_ascii_ok(s: Seq<u8>) -> bool {
    exists|k: int| spec_ascii_cut_ok(s, k)
}

impl Ticker {
    /// Builds a ticker from at most twelve bytes, padding with NUL.
    pub fn from_slice(s: &[u8]) -> (r: Option<Ticker>)
        ensures
            match r {
                Some(t) => s@.len() <= 12 && t.bytes@ == s@ + Seq::new((12 - s@.len()) as nat, |i: int| 0u8),
                None => s@.len() > 12,
            },
    {
        if s.len() > 12 {
            return None;
        }
        let mut bytes: [u8; 12] = [0; 12];
        let mut i: usize = 0;
        while i < s.len()
            invariant
                i <= s@.len() <= 12,
                forall|k: int| 0 <= k < i ==> bytes@[k] == s@[k],
                forall|k: int| i <= k < 12 ==> bytes@[k] == 0,
            decreases s@.len() - i,
        {
            bytes[i] = s[i];
            i = i + 1;
        }
        proof {
            assert(bytes@ =~= s@ + Seq::new((12 - s@.len()) as nat, |k: int| 0u8));
        }
        Some(Ticker { bytes })
    }

    /// Number of bytes before the first NUL.
    pub fn len(&self) -> (r: usize)
        ensures
            r == spec_first_nul(self.bytes@, 0),
    {
        let mut i: usize = 0;
        while i < 12
            invariant
                i <= 12,
                spec_first_nul(self.bytes@, 0) == spec_first_nul(self.bytes@, i as int),
            decreases 12 - i,
        {
            if self.bytes[i] == 0 {
                return i;
            }
            i = i + 1;
        }
        12
    }

    /// Whether the ticker is printable ASCII with an all-NUL tail.
    pub fn is_ascii_ok(&self) -> (r: bool)
        ensures
            r == spec_ticker_ascii_ok(self.bytes@),
    {
        let mut i: usize = 0;
        // Scan the printable prefix.
        while i < 12
            invariant_except_break
                i <= 12,
                forall|k: int| 0 <= k < i ==> 32 <= #[trigger] self.bytes@[k] <= 126,
            ensures
                i <= 12,
                forall|k: int| 0 <= k < i ==> 32 <= #[trigger] self.bytes@[k] <= 126,
                i < 12 ==> !(32 <= self.bytes@[i as int] <= 126),
            decreases 12 - i,
        {
            let b: u8 = self.bytes[i];
            if b < 32 || b > 126 {
                break;
            }
            i = i + 1;
        }
        if i == 12 {
            proof {
                assert(spec_ascii_cut_ok(self.bytes@, 12));
            }
            return true;
        }
        let ghost cut: int = i as int;
        // Everything after the first unprintable byte must be NUL.
        let mut j: usize = i;
        while j < 12
            invariant
                0 <= cut <= j <= 12,
                forall|k: int| 0 <= k < cut ==> 32 <= #[trigger] self.bytes@[k] <= 126,
                !(32 <= self.bytes@[cut] <= 126),
                forall|k: int| cut <= k < j ==> #[trigger] self.bytes@[k] == 0,
            decreases 12 - j,
        {
            if self.bytes[j] != 0 {
                proof {
                    let bad: int = j as int;
                    assert(self.bytes@[bad] != 0);
                    assert forall|k: int| !spec_ascii_cut_ok(self.bytes@, k) by {
                        if spec_ascii_cut_ok(self.bytes@, k) {
                            if k <= bad {
                                assert(self.bytes@[bad] == 0);
                            } else {
                                assert(32 <= self.bytes@[cut] <= 126);
                            }
                        }
                    }
                }
                return false;
            }
            j = j + 1;
        }
        proof {
            assert(spec_ascii_cut_ok(self.bytes@, cut));
        }
        true
    }
}

/// The default portfolio of an identity or one of its numbered ones.
#[derive(Clone, Copy, Debug, PartialEq, Eq, Structural)]
pub enum PortfolioKind {
    Default,
    User(u64),
}

/// A sub-ledger of one identity's holdings.
#[derive(Clone, Copy, Debug, PartialEq, Eq, Structural)]
pub struct PortfolioId {
    pub did: IdentityId,
    pub kind: PortfolioKind,
}

impl PortfolioId {
    /// The default portfolio of `did`.
    pub fn default_portfolio(did: IdentityId) -> (r: PortfolioId)
        ensures
            r == (PortfolioId { did, kind: PortfolioKind::Default }),
    {
        PortfolioId { did, kind: PortfolioKind::Default }
    }

    /// The user portfolio of `did` numbered `num`.
    pub fn user_portfolio(did: IdentityId, num: u64) -> (r: PortfolioId)
        ensures
            r == (PortfolioId { did, kind: PortfolioKind::User(num) }),
    {
        PortfolioId { did, kind: PortfolioKind::User(num) }
    }
}

/// Jurisdiction tag carried by a jurisdiction claim.
#[derive(Clone, Copy, Debug, PartialEq, Eq, Structural)]
pub enum CountryCode {
    CA,
    ES,
    GB,
    KP,
    US,
}

/// An assertion about an identity, made by an issuing identity.
#[derive(Clone, Copy, Debug, PartialEq, Eq, Structural)]
pub enum Claim {
    Accredited(Scope),
    Affiliate(Scope),
    BuyLockup(Scope),
    SellLockup(Scope),
    CustomerDueDiligence(CddId),
    KnowYourCustomer(Scope),
    Jurisdiction(CountryCode, Scope),
    Exempted(Scope),
    Blocked(Scope),
    NoData,
}

/// The kind of a claim, without its payload.
#[derive(Clone, Copy, Debug, PartialEq, Eq, Structural)]
pub enum ClaimType {
    Accredited,
    Affiliate,
    BuyLockup,
    SellLockup,
    CustomerDueDiligence,
    KnowYourCustomer,
    Jurisdiction,
    Exempted,
    Blocked,
    NoData,
}

impl Claim {
    /// The kind of this claim.
    pub open spec fn spec_claim_type(self) -> ClaimType {
        match self {
            Claim::Accredited(..) => ClaimType::Accredited,
            Claim::Affiliate(..) => ClaimType::Affiliate,
            Claim::BuyLockup(..) => ClaimType::BuyLockup,
            Claim::SellLockup(..) => ClaimType::SellLockup,
            Claim::CustomerDueDiligence(..) => ClaimType::CustomerDueDiligence,
            Claim::KnowYourCustomer(..) => ClaimType::KnowYourCustomer,
            Claim::Jurisdiction(..) => ClaimType::Jurisdiction,
            Claim::Exempted(..) => ClaimType::Exempted,
            Claim::Blocked(..) => ClaimType::Blocked,
            Claim::NoData => ClaimType::NoData,
        }
    }

    /// The kind of this claim.
    pub fn claim_type(&self) -> (r: ClaimType)
        ensures
            r == self.spec_claim_type(),
    {
        match self {
            Claim::Accredited(..) => ClaimType::Accredited,
            Claim::Affiliate(..) => ClaimType::Affiliate,
            Claim::BuyLockup(..) => ClaimType::BuyLockup,
            Claim::SellLockup(..) => ClaimType::SellLockup,
            Claim::CustomerDueDiligence(..) => ClaimType::CustomerDueDiligence,
            Claim::KnowYourCustomer(..) => ClaimType::KnowYourCustomer,
            Claim::Jurisdiction(..) => ClaimType::Jurisdiction,
            Claim::Exempted(..) => ClaimType::Exempted,
            Claim::Blocked(..) => ClaimType::Blocked,
            Claim::NoData => ClaimType::NoData,
        }
    }

    /// The scope of this claim, when its kind carries one.
    pub open spec fn spec_scope(self) -> Option<Scope> {
        match self {
            Claim::Accredited(s) => Some(s),
            Claim::Affiliate(s) => Some(s),
            Claim::BuyLockup(s) => Some(s),
            Claim::SellLockup(s) => Some(s),
            Claim::CustomerDueDiligence(..) => None,
            Claim::KnowYourCustomer(s) => Some(s),
            Claim::Jurisdiction(_, s) => Some(s),
            Claim::Exempted(s) => Some(s),
            Claim::Blocked(s) => Some(s),
            Claim::NoData => None,
        }
    }

    /// The scope of this claim, when its kind carries one.
    pub fn as_scope(&self) -> (r: Option<Scope>)
        ensures
            r == self.spec_scope(),
    {
        match self {
            Claim::Accredited(s) => Some(*s),
            Claim::Affiliate(s) => Some(*s),
            Claim::BuyLockup(s) => Some(*s),
            Claim::SellLockup(s) => Some(*s),
            Claim::CustomerDueDiligence(..) => None,
            Claim::KnowYourCustomer(s) => Some(*s),
            Claim::Jurisdiction(_, s) => Some(*s),
            Claim::Exempted(s) => Some(*s),
            Claim::Blocked(s) => Some(*s),
            Claim::NoData => None,
        }
    }

    /// Due-diligence claim with the zero credential record, which any
    /// due-diligence credential is allowed to stand for.
    pub fn make_cdd_wildcard() -> (r: Claim)
        ensures
            r == Claim::CustomerDueDiligence(IdentityId { hi: 0, lo: 0 }),
    {
        Claim::CustomerDueDiligence(IdentityId { hi: 0, lo: 0 })
    }
}

/// The identity a condition may pin a party to: a fixed one, or the
/// asset's current primary issuance agent, resolved at evaluation time.
#[derive(Clone, Copy, Debug, PartialEq, Eq, Structural)]
pub enum TargetIdentity {
    PrimaryIssuanceAgent,
    Specific(IdentityId),
}

/// Predicate shape of one condition.
#[derive(Clone, Debug, PartialEq, Eq)]
pub enum ConditionType {
    IsPresent(Claim),
    IsAbsent(Claim),
    IsAnyOf(Vec<Claim>),
    IsNoneOf(Vec<Claim>),
    IsIdentity(TargetIdentity),
}

/// A predicate over one party's claims, with the issuers whose claims
/// count; an empty issuer list defers to the asset's trusted issuers.
#[derive(Clone, Debug, PartialEq, Eq)]
pub struct Condition {
    pub issuers: Vec<IdentityId>,
    pub condition_type: ConditionType,
}

/// Structural equality of two condition shapes, over the views of the
/// claim lists.
pub open spec fn spec_condition_type_eq(a: ConditionType, b: ConditionType) -> bool {
    match (a, b) {
        (ConditionType::IsPresent(x), ConditionType::IsPresent(y)) => x == y,
        (ConditionType::IsAbsent(x), ConditionType::IsAbsent(y)) => x == y,
        (ConditionType::IsAnyOf(x), ConditionType::IsAnyOf(y)) => x@ == y@,
        (ConditionType::IsNoneOf(x), ConditionType::IsNoneOf(y)) => x@ == y@,
        (ConditionType::IsIdentity(x), ConditionType::IsIdentity(y)) => x == y,
        _ => false,
    }
}

/// Structural equality of two conditions.
pub open spec fn spec_condition_eq(a: Condition, b: Condition) -> bool {
    a.issuers@ == b.issuers@ && spec_condition_type_eq(a.condition_type, b.condition_type)
}

/// Pointwise structural equality of two condition lists.
pub open spec fn spec_conditions_eq(a: Seq<Condition>, b: Seq<Condition>) -> bool {
    a.len() == b.len() && forall|i: int|
        0 <= i < a.len() ==> spec_condition_eq(#[trigger] a[i], b[i])
}

/// Compares two identity lists for equality.
pub fn eq_id_vec(a: &Vec<IdentityId>, b: &Vec<IdentityId>) -> (r: bool)
    ensures
        r == (a@ =~= b@),
{
    if a.len() != b.len() {
        return false;
    }
    let mut i: usize = 0;
    while i < a.len()
        invariant
            i <= a@.len() == b@.len(),
            forall|k: int| 0 <= k < i ==> a@[k] == b@[k],
        decreases a@.len() - i,
    {
        if a[i] != b[i] {
            return false;
        }
        i = i + 1;
    }
    true
}

/// Compares two claim lists for equality.
pub fn eq_claim_vec(a: &Vec<Claim>, b: &Vec<Claim>) -> (r: bool)
    ensures
        r == (a@ =~= b@),
{
    if a.len() != b.len() {
        return false;
    }
    let mut i: usize = 0;
    while i < a.len()
        invariant
            i <= a@.len() == b@.len(),
            forall|k: int| 0 <= k < i ==> a@[k] == b@[k],
        decreases a@.len() - i,
    {
        if a[i] != b[i] {
            return false;
        }
        i = i + 1;
    }
    true
}

/// Compares two condition shapes structurally.
pub fn eq_condition_type(a: &ConditionType, b: &ConditionType) -> (r: bool)
    ensures
        r == spec_condition_type_eq(*a, *b),
{
    match (a, b) {
        (ConditionType::IsPresent(x), ConditionType::IsPresent(y)) => x == y,
        (ConditionType::IsAbsent(x), ConditionType::IsAbsent(y)) => x == y,
        (ConditionType::IsAnyOf(x), ConditionType::IsAnyOf(y)) => eq_claim_vec(x, y),
        (ConditionType::IsNoneOf(x), ConditionType::IsNoneOf(y)) => eq_claim_vec(x, y),
        (ConditionType::IsIdentity(x), ConditionType::IsIdentity(y)) => x == y,
        _ => false,
    }
}

/// Compares two conditions structurally.
pub fn eq_condition(a: &Condition, b: &Condition) -> (r: bool)
    ensures
        r == spec_condition_eq(*a, *b),
{
    eq_id_vec(&a.issuers, &b.issuers) && eq_condition_type(&a.condition_type, &b.condition_type)
}

/// Compares two condition lists structurally.
pub fn eq_conditions(a: &Vec<Condition>, b: &Vec<Condition>) -> (r: bool)
    ensures
        r == spec_conditions_eq(a@, b@),
{
    if a.len() != b.len() {
        return false;
    }
    let mut i: usize = 0;
    while i < a.len()
        invariant
            i <= a@.len() == b@.len(),
            forall|k: int| 0 <= k < i ==> spec_condition_eq(#[trigger] a@[k], b@[k]),
        decreases a@.len() - i,
    {
        if !eq_condition(&a[i], &b[i]) {
            return false;
        }
        i = i + 1;
    }
    true
}

/// Compares two byte strings for equality.
pub fn eq_u8_vec(a: &Vec<u8>, b: &Vec<u8>) -> (r: bool)
    ensures
        r == (a@ =~= b@),
{
    if a.len() != b.len() {
        return false;
    }
    let mut i: usize = 0;
    while i < a.len()
        invariant
            i <= a@.len() == b@.len(),
            forall|k: int| 0 <= k < i ==> a@[k] == b@[k],
        decreases a@.len() - i,
    {
        if a[i] != b[i] {
            return false;
        }
        i = i + 1;
    }
    true
}

/// Copies one claim list.
fn copy_claim_vec(a: &Vec<Claim>) -> (r: Vec<Claim>)
    ensures
        r@ == a@,
{
    let mut r: Vec<Claim> = Vec::new();
    let mut i: usize = 0;
    while i < a.len()
        invariant
            i <= a@.len(),
            r@ == a@.subrange(0, i as int),
        decreases a@.len() - i,
    {
        r.push(a[i]);
        proof {
            assert(r@ =~= a@.subrange(0, i + 1));
        }
        i = i + 1;
    }
    proof {
        assert(a@.subrange(0, a@.len() as int) =~= a@);
    }
    r
}

/// Copies one identity list.
pub fn copy_id_vec(a: &Vec<IdentityId>) -> (r: Vec<IdentityId>)
    ensures
        r@ == a@,
{
    let mut r: Vec<IdentityId> = Vec::new();
    let mut i: usize = 0;
    while i < a.len()
        invariant
            i <= a@.len(),
            r@ == a@.subrange(0, i as int),
        decreases a@.len() - i,
    {
        r.push(a[i]);
        proof {
            assert(r@ =~= a@.subrange(0, i + 1));
        }
        i = i + 1;
    }
    proof {
        assert(a@.subrange(0, a@.len() as int) =~= a@);
    }
    r
}

/// Copies one condition.
pub fn copy_condition(c: &Condition) -> (r: Condition)
    ensures
        spec_condition_eq(r, *c),
{
    let issuers: Vec<IdentityId> = copy_id_vec(&c.issuers);
    let condition_type: ConditionType = match &c.condition_type {
        ConditionType::IsPresent(x) => ConditionType::IsPresent(*x),
        ConditionType::IsAbsent(x) => ConditionType::IsAbsent(*x),
        ConditionType::IsAnyOf(x) => ConditionType::IsAnyOf(copy_claim_vec(x)),
        ConditionType::IsNoneOf(x) => ConditionType::IsNoneOf(copy_claim_vec(x)),
        ConditionType::IsIdentity(x) => ConditionType::IsIdentity(*x),
    };
    Condition { issuers, condition_type }
}

/// Ownership a single identity holds over a ticker.
#[derive(Clone, Copy, Debug, PartialEq, Eq, Structural)]
pub enum AssetOwnershipRelation {
    NotOwned,
    TickerOwned,
    AssetOwned,
}

impl Default for AssetOwnershipRelation {
    fn default() -> (r: Self)
        ensures
            r == AssetOwnershipRelation::NotOwned,
    {
        AssetOwnershipRelation::NotOwned
    }
}

/// A ticker reservation: who owns it and until when.
#[derive(Clone, Copy, Debug, PartialEq, Eq)]
pub struct TickerRegistration {
    pub owner: IdentityId,
    pub expiry: Option<u64>,
}

/// Limits applied when a ticker is registered.
#[derive(Clone, Copy, Debug, PartialEq, Eq)]
pub struct TickerRegistrationConfig {
    pub max_ticker_length: u8,
    pub registration_length: Option<u64>,
}

/// Availability of a ticker with respect to one identity.
#[derive(Clone, Copy, Debug, PartialEq, Eq, Structural)]
pub enum TickerRegistrationStatus {
    RegisteredByOther,
    Available,
    RegisteredByDid,
}

/// Broad classification of an asset.
#[derive(Clone, Debug, PartialEq, Eq)]
pub enum AssetType {
    EquityCommon,
    EquityPreferred,
    Commodity,
    FixedIncome,
    REIT,
    Fund,
    RevenueShareAgreement,
    StructuredProduct,
    Derivative,
    Custom(Vec<u8>),
}

impl Default for AssetType {
    fn default() -> (r: Self)
        ensures
            r == AssetType::EquityCommon,
    {
        AssetType::EquityCommon
    }
}

/// Metadata of a created asset.
#[derive(Clone, Debug, PartialEq, Eq)]
pub struct SecurityToken {
    pub name: Vec<u8>,
    pub total_supply: u128,
    pub owner_did: IdentityId,
    pub divisible: bool,
    pub asset_type: AssetType,
    pub primary_issuance_agent: Option<IdentityId>,
}

/// Every way a request can be rejected. All are per-request failures:
/// the state is left exactly as it was.
#[derive(Clone, Copy, Debug, PartialEq, Eq, Structural)]
pub enum Error {
    Unauthorized,
    DidNotExist,
    InvalidLength,
    InvalidComplianceRequirementId,
    IncorrectOperationOnTrustedIssuer,
    DuplicateComplianceRequirements,
    ComplianceRequirementTooComplex,
    AssetAlreadyCreated,
    TickerTooLong,
    TickerNotAscii,
    TickerAlreadyRegistered,
    TotalSupplyAboveLimit,
    NoSuchAsset,
    AlreadyFrozen,
    NotFrozen,
    BalanceOverflow,
    TotalSupplyOverflow,
    InvalidGranularity,
    InvalidTransfer,
    InsufficientBalance,
    SenderSameAsReceiver,
    AssetAlreadyDivisible,
    MaxLengthOfAssetNameExceeded,
    FundingRoundNameMaxLengthExceeded,
    InvalidAssetIdentifier,
    PortfolioDoesNotExist,
    InsufficientPortfolioBalance,
    DestinationIsSamePortfolio,
    PortfolioNameAlreadyInUse,
    UnauthorizedCustodian,
    InsufficientTokensLocked,
    PortfolioNotEmpty,
    DifferentIdentityPortfolios,
    SecondaryKeyNotAuthorizedForAsset,
}

} // verus!
