//! Signing keys: the signatories that act for an identity and the
//! permission subsets that bound what a secondary key may touch.
use vstd::prelude::*;
use crate::types::{eq_u8_vec, IdentityId, Ticker};
use crate::vecmap::EqKey;

verus! {

/// An account key, as an opaque 256-bit value.
#[derive(Clone, Copy, Debug, PartialEq, Eq, Structural)]
pub struct AccountId {
    pub hi: u128,
    pub lo: u128,
}

impl AccountId {
    /// Account with the given raw words.
    pub fn new(hi: u128, lo: u128) -> (r: AccountId)
        ensures
            r == (AccountId { hi, lo }),
    {
        AccountId { hi, lo }
    }
}

/// A subset of a permission domain: everything, or an explicit list.
#[derive(Clone, Debug, PartialEq, Eq)]
pub enum Subset<T> {
    All,
    Elems(Vec<T>),
}

impl<T: EqKey + Copy> Subset<T> {
    /// The empty subset.
    pub fn empty() -> (r: Subset<T>)
        ensures
            r is Elems && r->Elems_0@.len() == 0,
    {
        Subset::Elems(Vec::new())
    }

    /// The subset holding exactly one element.
    pub fn elem(x: T) -> (r: Subset<T>)
        ensures
            r is Elems && r->Elems_0@ == seq![x],
    {
        let mut v: Vec<T> = Vec::new();
        v.push(x);
        Subset::Elems(v)
    }

    /// `self` covers `other`: everything covers anything, and a list
    /// covers exactly the lists whose elements it contains.
    pub open spec fn spec_ge(self, other: Subset<T>) -> bool {
        if self is All {
            true
        } else if other is All {
            false
        } else {
            forall|i: int|
                0 <= i < other->Elems_0@.len() ==> self->Elems_0@.contains(
                    #[trigger] other->Elems_0@[i],
                )
        }
    }

    /// Whether `self` covers `other`.
    pub fn ge(&self, other: &Subset<T>) -> (r: bool)
        ensures
            r == self.spec_ge(*other),
    {
        match (self, other) {
            (Subset::All, _) => true,
            (Subset::Elems(_), Subset::All) => false,
            (Subset::Elems(a), Subset::Elems(b)) => {
                let mut i: usize = 0;
                while i < b.len()
                    invariant
                        *self == Subset::Elems(*a),
                        *other == Subset::Elems(*b),
                        i <= b@.len(),
                        forall|k: int| 0 <= k < i ==> a@.contains(#[trigger] b@[k]),
                    decreases b@.len() - i,
                {
                    let mut found: bool = false;
                    let mut j: usize = 0;
                    while j < a.len()
                        invariant
                            i < b@.len(),
                            j <= a@.len(),
                            found ==> a@.contains(b@[i as int]),
                            !found ==> forall|m: int| 0 <= m < j ==> a@[m] != b@[i as int],
                        decreases a@.len() - j,
                    {
                        if a[j].eq_key(&b[i]) {
                            found = true;
                            proof {
                                assert(a@[j as int] == b@[i as int]);
                            }
                        }
                        j = j + 1;
                    }
                    if !found {
                        proof {
                            assert(!a@.contains(b@[i as int]));
                            assert(0 <= i < other->Elems_0@.len() && !self->Elems_0@.contains(
                                other->Elems_0@[i as int],
                            ));
                        }
                        return false;
                    }
                    i = i + 1;
                }
                proof {
                    assert forall|k: int|
                        0 <= k < other->Elems_0@.len() implies self->Elems_0@.contains(
                        #[trigger] other->Elems_0@[k],
                    ) by {
                        assert(a@.contains(b@[k]));
                    }
                }
                true
            },
        }
    }
}

/// Some entry of `a` spells exactly `name`.
pub open spec fn spec_has_name(a: Seq<Vec<u8>>, name: Seq<u8>) -> bool {
    exists|j: int| 0 <= j < a.len() && (#[trigger] a[j])@ == name
}

/// A subset of the callable operations, named by byte strings.
#[derive(Clone, Debug, PartialEq, Eq)]
pub enum ExtrinsicPermissions {
    All,
    Elems(Vec<Vec<u8>>),
}

impl ExtrinsicPermissions {
    /// The empty subset.
    pub fn empty() -> (r: ExtrinsicPermissions)
        ensures
            r is Elems && r->Elems_0@.len() == 0,
    {
        ExtrinsicPermissions::Elems(Vec::new())
    }

    /// `self` covers `other`, comparing names by their bytes.
    pub open spec fn spec_ge(self, other: ExtrinsicPermissions) -> bool {
        if self is All {
            true
        } else if other is All {
            false
        } else {
            forall|i: int|
                0 <= i < other->Elems_0@.len() ==> spec_has_name(
                    self->Elems_0@,
                    (#[trigger] other->Elems_0@[i])@,
                )
        }
    }

    /// Whether `self` covers `other`.
    pub fn ge(&self, other: &ExtrinsicPermissions) -> (r: bool)
        ensures
            r == self.spec_ge(*other),
    {
        match (self, other) {
            (ExtrinsicPermissions::All, _) => true,
            (ExtrinsicPermissions::Elems(_), ExtrinsicPermissions::All) => false,
            (ExtrinsicPermissions::Elems(a), ExtrinsicPermissions::Elems(b)) => {
                let mut i: usize = 0;
                while i < b.len()
                    invariant
                        *self == ExtrinsicPermissions::Elems(*a),
                        *other == ExtrinsicPermissions::Elems(*b),
                        i <= b@.len(),
                        forall|k: int| 0 <= k < i ==> spec_has_name(a@, (#[trigger] b@[k])@),
                    decreases b@.len() - i,
                {
                    let mut found: bool = false;
                    let mut j: usize = 0;
                    while j < a.len()
                        invariant
                            i < b@.len(),
                            j <= a@.len(),
                            found ==> spec_has_name(a@, b@[i as int]@),
                            !found ==> forall|m: int|
                                0 <= m < j ==> (#[trigger] a@[m])@ != b@[i as int]@,
                        decreases a@.len() - j,
                    {
                        if eq_u8_vec(&a[j], &b[i]) {
                            found = true;
                            proof {
                                assert((a@[j as int])@ == (b@[i as int])@);
                            }
                        }
                        j = j + 1;
                    }
                    if !found {
                        proof {
                            assert(!spec_has_name(a@, b@[i as int]@));
                            assert(0 <= i < other->Elems_0@.len() && !spec_has_name(
                                self->Elems_0@,
                                other->Elems_0@[i as int]@,
                            ));
                        }
                        return false;
                    }
                    i = i + 1;
                }
                proof {
                    assert forall|k: int|
                        0 <= k < other->Elems_0@.len() implies spec_has_name(
                        self->Elems_0@,
                        (#[trigger] other->Elems_0@[k])@,
                    ) by {
                        assert(spec_has_name(a@, b@[k]@));
                    }
                }
                true
            },
        }
    }
}

/// The permissions of one signing key over assets, operations and
/// portfolios.
#[derive(Clone, Debug, PartialEq, Eq)]
pub struct Permissions {
    pub asset: Subset<Ticker>,
    pub extrinsic: ExtrinsicPermissions,
    pub portfolio: Subset<u64>,
}

impl Permissions {
    /// Permissions over nothing.
    pub fn empty() -> (r: Permissions)
        ensures
            r.asset is Elems && r.asset->Elems_0@.len() == 0,
            r.extrinsic is Elems && r.extrinsic->Elems_0@.len() == 0,
            r.portfolio is Elems && r.portfolio->Elems_0@.len() == 0,
    {
        Permissions {
            asset: Subset::empty(),
            extrinsic: ExtrinsicPermissions::empty(),
            portfolio: Subset::empty(),
        }
    }
}

impl Default for Permissions {
    /// Unrestricted permissions.
    fn default() -> (r: Self)
        ensures
            r.asset is All,
            r.extrinsic is All,
            r.portfolio is All,
    {
        Permissions {
            asset: Subset::All,
            extrinsic: ExtrinsicPermissions::All,
            portfolio: Subset::All,
        }
    }
}

/// A signer: an identity or an account key.
#[derive(Clone, Copy, Debug, PartialEq, Eq, Structural)]
pub enum Signatory {
    Identity(IdentityId),
    Account(AccountId),
}

impl Signatory {
    /// Whether this signatory is the given identity or the given key.
    pub fn eq_either(&self, other_identity: &IdentityId, other_key: &AccountId) -> (r: bool)
        ensures
            r == (match *self {
                Signatory::Identity(id) => id == *other_identity,
                Signatory::Account(key) => key == *other_key,
            }),
    {
        match self {
            Signatory::Account(key) => *key == *other_key,
            Signatory::Identity(id) => *id == *other_identity,
        }
    }

    /// This signatory as an identity, when it is one.
    pub fn as_identity(&self) -> (r: Option<IdentityId>)
        ensures
            r == (match *self {
                Signatory::Identity(id) => Some(id),
                Signatory::Account(..) => None::<IdentityId>,
            }),
    {
        match self {
            Signatory::Identity(id) => Some(*id),
            Signatory::Account(..) => None,
        }
    }

    /// This signatory as an account key, when it is one.
    pub fn as_account(&self) -> (r: Option<AccountId>)
        ensures
            r == (match *self {
                Signatory::Account(key) => Some(key),
                Signatory::Identity(..) => None::<AccountId>,
            }),
    {
        match self {
            Signatory::Account(key) => Some(*key),
            Signatory::Identity(..) => None,
        }
    }
}

/// A signing key: a signatory together with its permissions.
#[derive(Clone, Debug, PartialEq, Eq)]
pub struct SigningKey {
    pub signer: Signatory,
    pub permissions: Permissions,
}

impl SigningKey {
    /// Builds a signing key.
    pub fn new(signer: Signatory, permissions: Permissions) -> (r: SigningKey)
        ensures
            r.signer == signer,
            r.permissions == permissions,
    {
        SigningKey { signer, permissions }
    }

    /// A key-backed signing key without any permission.
    pub fn from_account_id(s: AccountId) -> (r: SigningKey)
        ensures
            r.signer == Signatory::Account(s),
            r.permissions.asset is Elems && r.permissions.asset->Elems_0@.len() == 0,
            r.permissions.extrinsic is Elems && r.permissions.extrinsic->Elems_0@.len() == 0,
            r.permissions.portfolio is Elems && r.permissions.portfolio->Elems_0@.len() == 0,
    {
        SigningKey { signer: Signatory::Account(s), permissions: Permissions::empty() }
    }

    /// Whether the key may touch the given asset.
    pub fn has_asset_permission(&self, asset: Ticker) -> (r: bool)
        ensures
            r == (match &self.permissions.asset {
                Subset::All => true,
                Subset::Elems(a) => a@.contains(asset),
            }),
    {
        let single: Subset<Ticker> = Subset::elem(asset);
        let r: bool = self.permissions.asset.ge(&single);
        proof {
            let b = single->Elems_0@;
            match &self.permissions.asset {
                Subset::All => {},
                Subset::Elems(a) => {
                    if r {
                        assert(a@.contains(b[0]));
                    } else {
                        if a@.contains(asset) {
                            assert forall|i: int| 0 <= i < b.len() implies a@.contains(
                                #[trigger] b[i],
                            ) by {
                                assert(b[i] == asset);
                            }
                        }
                    }
                },
            }
        }
        r
    }

    /// Whether the key may call the given operation.
    pub fn has_extrinsic_permission(&self, extrinsic: Vec<u8>) -> (r: bool)
        ensures
            r == (match &self.permissions.extrinsic {
                ExtrinsicPermissions::All => true,
                ExtrinsicPermissions::Elems(a) => exists|j: int|
                    0 <= j < a@.len() && (#[trigger] a@[j])@ == extrinsic@,
            }),
    {
        let ghost target = extrinsic@;
        let mut v: Vec<Vec<u8>> = Vec::new();
        v.push(extrinsic);
        let single = ExtrinsicPermissions::Elems(v);
        let r: bool = self.permissions.extrinsic.ge(&single);
        proof {
            let b = single->Elems_0@;
            assert(b.len() == 1 && b[0]@ == target);
            match &self.permissions.extrinsic {
                ExtrinsicPermissions::All => {},
                ExtrinsicPermissions::Elems(a) => {
                    if r {
                        assert(spec_has_name(a@, b[0]@));
                    } else {
                        if spec_has_name(a@, target) {
                            assert forall|i: int| 0 <= i < b.len() implies spec_has_name(
                                a@,
                                (#[trigger] b[i])@,
                            ) by {
                                assert(b[i]@ == target);
                            }
                        }
                    }
                },
            }
        }
        r
    }

    /// Whether the key may touch the given portfolio.
    pub fn has_portfolio_permission(&self, portfolio: u64) -> (r: bool)
        ensures
            r == (match &self.permissions.portfolio {
                Subset::All => true,
                Subset::Elems(a) => a@.contains(portfolio),
            }),
    {
        let single: Subset<u64> = Subset::elem(portfolio);
        let r: bool = self.permissions.portfolio.ge(&single);
        proof {
            let b = single->Elems_0@;
            match &self.permissions.portfolio {
                Subset::All => {},
                Subset::Elems(a) => {
                    if r {
                        assert(a@.contains(b[0]));
                    } else {
                        if a@.contains(portfolio) {
                            assert forall|i: int| 0 <= i < b.len() implies a@.contains(
                                #[trigger] b[i],
                            ) by {
                                assert(b[i] == portfolio);
                            }
                        }
                    }
                },
            }
        }
        r
    }

    /// Whether the key covers every permission in `them`.
    pub fn has_permissions(&self, them: &Permissions) -> (r: bool)
        ensures
            r == (self.permissions.asset.spec_ge(them.asset) && self.permissions.extrinsic.spec_ge(
                them.extrinsic,
            ) && self.permissions.portfolio.spec_ge(them.portfolio)),
    {
        self.permissions.asset.ge(&them.asset) && self.permissions.extrinsic.ge(&them.extrinsic)
            && self.permissions.portfolio.ge(&them.portfolio)
    }
}

} // verus!
