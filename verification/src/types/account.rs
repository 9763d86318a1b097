//! Account records.
//!
//! An account is a person or organisation, a savings group, or a protocol module.
//! Who may sign for it is a fact about the record, not about the address: the
//! address never changes, the authority does.

use crate::crypto::address::{key_address, Address};
use crate::crypto::hash::Hash32;
use crate::crypto::keys::PublicKey;
use crate::pay::reference::RequiresReference;
use crate::primitives::codec::{
    fault, Canonical, CodecError, CodecFault, Decode, Encode, Parsed, Reader,
};
use crate::primitives::ids::Height;
use crate::primitives::order::{
    bytes_less, lemma_lex_irreflexive, lemma_lex_total, lemma_lex_transitive, lex_less,
};
use crate::primitives::text;
use crate::primitives::wire;
use crate::types::group::{GroupAccount, GroupView};
use vstd::prelude::*;

verus! {

/// The fields of an [`Account`], as they follow each other on the wire.
type AccountFields = (
    Address,
    (
        u64,
        (AccountKind, (Option<TxPointer>, (AccountFlags, (Option<PublicKey>, Option<SignerList>)))),
    ),
);

/// One switch an account owner may set on their own record.
///
/// Flags are consensus: every node must agree on what each bit means, so the set
/// is closed and an unknown bit is refused.
#[derive(Debug, Clone, Copy, PartialEq, Eq, PartialOrd, Ord, Hash, Structural)]
#[non_exhaustive]
pub enum AccountFlag {
    /// Incoming transfers must carry a payment reference.
    RequireReference,
    /// The master key may no longer sign for this account.
    MasterKeyDisabled,
}

impl DeepView for AccountFlag {
    type V = AccountFlag;

    open spec fn deep_view(&self) -> AccountFlag {
        *self
    }
}

impl AccountFlag {
    /// The flag's bit.
    pub open spec fn mask(self) -> u32 {
        match self {
            AccountFlag::RequireReference => 1,
            AccountFlag::MasterKeyDisabled => 2,
        }
    }

    /// Every flag, in bit order.
    pub fn all() -> (flags: Vec<Self>)
        ensures
            flags@ == seq![AccountFlag::RequireReference, AccountFlag::MasterKeyDisabled],
    {
        let mut flags: Vec<Self> = Vec::new();
        flags.push(AccountFlag::RequireReference);
        flags.push(AccountFlag::MasterKeyDisabled);
        flags
    }

    /// This flag's bit in an [`AccountFlags`] word. Never renumber one: the bit is
    /// in the state tree.
    pub fn bit(self) -> (b: u32)
        ensures
            b == self.mask(),
    {
        match self {
            AccountFlag::RequireReference => 1,
            AccountFlag::MasterKeyDisabled => 2,
        }
    }

    /// The flag a single bit names, if any.
    pub fn from_bit(bit: u32) -> (r: Option<Self>)
        ensures
            match r {
                Some(flag) => flag.mask() == bit,
                None => forall|flag: AccountFlag| #[trigger] flag.mask() != bit,
            },
    {
        match bit {
            1 => Some(AccountFlag::RequireReference),
            2 => Some(AccountFlag::MasterKeyDisabled),
            _ => None,
        }
    }
}

/// The switches set on one account.
///
/// A word rather than a struct of booleans because it is encoded into state: a
/// word has one spelling.
#[derive(Debug, Clone, Copy, PartialEq, Eq)]
pub struct AccountFlags(u32);

/// Whether a word holds no bit that this version does not understand.
pub open spec fn known_bits(bits: u32) -> bool {
    bits <= 3
}

/// Whether a flag is set in a word.
pub open spec fn flag_set(bits: u32, flag: AccountFlag) -> bool {
    bits & flag.mask() != 0
}

/// A word with a flag set or cleared.
pub open spec fn flag_written(bits: u32, flag: AccountFlag, enabled: bool) -> u32 {
    if enabled {
        bits | flag.mask()
    } else {
        bits & !flag.mask()
    }
}

impl View for AccountFlags {
    type V = u32;

    closed spec fn view(&self) -> u32 {
        self.0
    }
}

impl DeepView for AccountFlags {
    type V = u32;

    open spec fn deep_view(&self) -> u32 {
        self@
    }
}

impl Default for AccountFlags {
    fn default() -> (f: Self)
        ensures
            f@ == 0,
    {
        AccountFlags(0)
    }
}

proof fn lemma_written_is_known(bits: u32, flag: AccountFlag, enabled: bool)
    requires
        known_bits(bits),
    ensures
        known_bits(flag_written(bits, flag, enabled)),
{
    let m = flag.mask();
    assert((bits | m) <= 3 && (bits & !m) <= 3) by (bit_vector)
        requires
            bits <= 3,
            m == 1 || m == 2,
    ;
}

/// Setting or clearing one flag does that, and leaves the other as it was.
pub proof fn law_flags_are_independent(
    bits: u32,
    flag: AccountFlag,
    enabled: bool,
    other: AccountFlag,
)
    requires
        known_bits(bits),
    ensures
        known_bits(flag_written(bits, flag, enabled)),
        flag_set(flag_written(bits, flag, enabled), flag) == enabled,
        other != flag ==> flag_set(flag_written(bits, flag, enabled), other) == flag_set(
            bits,
            other,
        ),
{
    lemma_written_is_known(bits, flag, enabled);
    let m = flag.mask();
    let o = other.mask();
    assert((bits | m) & m != 0 && (bits & !m) & m == 0) by (bit_vector)
        requires
            m == 1 || m == 2,
    ;
    if other != flag {
        assert(((bits | m) & o != 0) == (bits & o != 0) && ((bits & !m) & o != 0) == (bits & o
            != 0)) by (bit_vector)
            requires
                m == 1 && o == 2 || m == 2 && o == 1,
        ;
    }
}

impl AccountFlags {
    /// Every word holds known bits only.
    #[verifier::type_invariant]
    pub open spec fn well_formed(self) -> bool {
        known_bits(self@)
    }

    /// No flags set: what every account starts with.
    pub fn none() -> (f: Self)
        ensures
            f@ == 0,
    {
        AccountFlags(0)
    }

    /// Whether `flag` is set.
    pub fn is_set(self, flag: AccountFlag) -> (b: bool)
        ensures
            b == flag_set(self@, flag),
    {
        self.0 & flag.bit() != 0
    }

    /// A copy with `flag` set or cleared.
    pub fn with(self, flag: AccountFlag, enabled: bool) -> (f: Self)
        ensures
            f@ == flag_written(self@, flag, enabled),
    {
        proof {
            use_type_invariant(self);
            lemma_written_is_known(self.0, flag, enabled);
        }
        if enabled {
            AccountFlags(self.0 | flag.bit())
        } else {
            AccountFlags(self.0 & !flag.bit())
        }
    }

    /// The raw word.
    pub fn bits(self) -> (b: u32)
        ensures
            b == self@,
    {
        self.0
    }

    /// Parse a raw word, refusing any bit this version does not understand.
    ///
    /// Refusing rather than masking is the consensus-critical half: a node that
    /// masked an unknown bit away would compute a different state root than one
    /// that kept it.
    pub fn from_bits(bits: u32) -> (r: Option<Self>)
        ensures
            match r {
                Some(f) => known_bits(bits) && f@ == bits,
                None => !known_bits(bits),
            },
    {
        if bits <= 3 {
            Some(AccountFlags(bits))
        } else {
            None
        }
    }

    /// Whether transfers into this account must carry a payment reference.
    pub fn requires_reference(self) -> (r: RequiresReference)
        ensures
            (r == RequiresReference::Yes) == flag_set(self@, AccountFlag::RequireReference),
    {
        if self.is_set(AccountFlag::RequireReference) {
            RequiresReference::Yes
        } else {
            RequiresReference::No
        }
    }
}

/// Most keys one signer list may hold: a bound on the work an attacker can make a
/// validator do.
pub const MAX_SIGNERS: usize = 32;

/// Why a signing arrangement was refused.
#[derive(Debug, Clone, Copy, PartialEq, Eq, Structural)]
pub enum AuthorityError {
    /// A signer list with no signers.
    NoSigners,
    /// More than [`MAX_SIGNERS`].
    TooManySigners(usize),
    /// A signer appears twice, or the list is not in canonical order.
    UnsortedOrRepeatedSigners,
    /// A signer that can never contribute.
    ZeroWeight,
    /// A quorum of zero would let anyone sign.
    ZeroQuorum,
    /// A quorum no combination of signers can reach.
    UnreachableQuorum {
        /// The threshold asked for.
        quorum: u64,
        /// The most the list can ever produce.
        total: u64,
    },
}

impl AuthorityError {
    /// The sentence that describes this error.
    pub open spec fn text(self) -> Seq<char> {
        match self {
            AuthorityError::NoSigners => "a signer list must name at least one signer"@,
            AuthorityError::TooManySigners(n) => "a signer list may name at most 32 signers, got "@
                + text::decimal(n as nat),
            AuthorityError::UnsortedOrRepeatedSigners =>
                "signers must be sorted by public key and unique"@,
            AuthorityError::ZeroWeight => "a signer's weight must be greater than zero"@,
            AuthorityError::ZeroQuorum => "a quorum must be greater than zero"@,
            AuthorityError::UnreachableQuorum { quorum, total } => "quorum "@ + text::decimal(
                quorum as nat,
            ) + " exceeds the total signer weight "@ + text::decimal(total as nat),
        }
    }

    /// The sentence that describes this error.
    pub fn to_string(&self) -> (s: String)
        ensures
            s@ == self.text(),
    {
        match self {
            AuthorityError::NoSigners => String::from_str(
                "a signer list must name at least one signer",
            ),
            AuthorityError::TooManySigners(n) => {
                let mut s = String::from_str("a signer list may name at most 32 signers, got ");
                text::push_decimal(&mut s, *n as u128);
                s
            },
            AuthorityError::UnsortedOrRepeatedSigners => String::from_str(
                "signers must be sorted by public key and unique",
            ),
            AuthorityError::ZeroWeight => String::from_str(
                "a signer's weight must be greater than zero",
            ),
            AuthorityError::ZeroQuorum => String::from_str("a quorum must be greater than zero"),
            AuthorityError::UnreachableQuorum { quorum, total } => {
                let mut s = String::from_str("quorum ");
                text::push_decimal(&mut s, *quorum as u128);
                s.append(" exceeds the total signer weight ");
                text::push_decimal(&mut s, *total as u128);
                s
            },
        }
    }
}

/// One key on a signer list, and how much it counts for.
#[derive(Debug, Clone, Copy, PartialEq, Eq)]
pub struct Signer {
    /// The key entitled to contribute.
    pub key: PublicKey,
    /// How much this signature counts toward the quorum.
    pub weight: u32,
}

/// The mathematical view of a [`Signer`].
pub struct SignerView {
    pub key: Seq<u8>,
    pub weight: u32,
}

impl DeepView for Signer {
    type V = SignerView;

    open spec fn deep_view(&self) -> SignerView {
        SignerView {
            key: self.key.deep_view(),
            weight: self.weight.deep_view(),
        }
    }
}

/// An M-of-N signing arrangement for one account.
///
/// Weighted rather than a plain count: a person recovering an account may want
/// their agent plus one family member, or two family members. Signers are keys,
/// so authorisation is a pure function of one account record.
#[derive(Debug, PartialEq, Eq)]
pub struct SignerList {
    signers: Vec<Signer>,
    quorum: u32,
}

/// The mathematical view of a [`SignerList`].
pub struct SignersView {
    pub signers: Seq<SignerView>,
    pub quorum: u32,
}

impl View for SignerList {
    type V = SignersView;

    closed spec fn view(&self) -> SignersView {
        SignersView { signers: self.signers.deep_view(), quorum: self.quorum }
    }
}

impl DeepView for SignerList {
    type V = SignersView;

    open spec fn deep_view(&self) -> SignersView {
        self@
    }
}

impl Clone for SignerList {
    fn clone(&self) -> (r: Self)
        ensures
            r@ == self@,
    {
        proof {
            use_type_invariant(self);
        }
        let mut signers: Vec<Signer> = Vec::new();
        let mut i: usize = 0;
        while i < self.signers.len()
            invariant
                i <= self.signers@.len(),
                signers@ =~= self.signers@.take(i as int),
            decreases self.signers@.len() - i,
        {
            signers.push(self.signers[i]);
            i += 1;
        }
        assert(signers@ =~= self.signers@);
        assert(signers.deep_view() =~= self.signers.deep_view());
        SignerList { signers, quorum: self.quorum }
    }
}

/// Whether keys ascend strictly, so that none occurs twice.
pub open spec fn keys_ascend(signers: Seq<SignerView>) -> bool {
    forall|i: int, j: int|
        0 <= i < j < signers.len()
            ==> lex_less(#[trigger] signers[i].key, #[trigger] signers[j].key)
}

/// The weight of all the signers together.
pub open spec fn total_weight(signers: Seq<SignerView>) -> nat
    decreases signers.len(),
{
    if signers.len() == 0 {
        0
    } else {
        total_weight(signers.drop_last()) + signers.last().weight as nat
    }
}

/// The first rule that an arrangement breaks, if it breaks any.
pub open spec fn signer_complaint(signers: Seq<SignerView>, quorum: u32) -> Option<AuthorityError> {
    if signers.len() == 0 {
        Some(AuthorityError::NoSigners)
    } else if signers.len() > MAX_SIGNERS {
        Some(AuthorityError::TooManySigners(signers.len() as usize))
    } else if !keys_ascend(signers) {
        Some(AuthorityError::UnsortedOrRepeatedSigners)
    } else if exists|i: int| 0 <= i < signers.len() && (#[trigger] signers[i]).weight == 0 {
        Some(AuthorityError::ZeroWeight)
    } else if quorum == 0 {
        Some(AuthorityError::ZeroQuorum)
    } else if quorum > total_weight(signers) {
        Some(
            AuthorityError::UnreachableQuorum {
                quorum: quorum as u64,
                total: total_weight(signers) as u64,
            },
        )
    } else {
        None
    }
}

/// A signer put into a list after every one whose key is not greater.
pub open spec fn placed(sorted: Seq<SignerView>, x: SignerView) -> Seq<SignerView>
    decreases sorted.len(),
{
    if sorted.len() == 0 || !lex_less(x.key, sorted.last().key) {
        sorted.push(x)
    } else {
        placed(sorted.drop_last(), x).push(sorted.last())
    }
}

/// A list in the order of its keys.
pub open spec fn in_key_order(list: Seq<SignerView>) -> Seq<SignerView>
    decreases list.len(),
{
    if list.len() == 0 {
        Seq::empty()
    } else {
        placed(in_key_order(list.drop_last()), list.last())
    }
}

/// The weight that a key carries on a list.
pub open spec fn weight_on(signers: Seq<SignerView>, key: Seq<u8>) -> Option<u32>
    decreases signers.len(),
{
    if signers.len() == 0 {
        None
    } else if signers[0].key == key {
        Some(signers[0].weight)
    } else {
        weight_on(signers.drop_first(), key)
    }
}

/// The weight that keys gather together, if every one of them is on the list.
pub open spec fn weight_gathered(signers: Seq<SignerView>, keys: Seq<Seq<u8>>) -> Option<nat>
    decreases keys.len(),
{
    if keys.len() == 0 {
        Some(0)
    } else {
        match (weight_gathered(signers, keys.drop_last()), weight_on(signers, keys.last())) {
            (Some(sum), Some(weight)) => Some(sum + weight as nat),
            _ => None,
        }
    }
}

impl SignersView {
    /// Whether keys are all on the list and reach the quorum together.
    pub open spec fn satisfied(self, keys: Seq<Seq<u8>>) -> bool {
        match weight_gathered(self.signers, keys) {
            Some(sum) => sum >= self.quorum,
            None => false,
        }
    }
}

/// The views of some keys.
pub open spec fn key_views(keys: Seq<PublicKey>) -> Seq<Seq<u8>> {
    Seq::new(keys.len(), |i: int| keys[i]@)
}

proof fn lemma_placed(sorted: Seq<SignerView>, x: SignerView, p: int)
    requires
        0 <= p <= sorted.len(),
        p > 0 ==> !lex_less(x.key, sorted[p - 1].key),
        forall|j: int| p <= j < sorted.len() ==> lex_less(x.key, #[trigger] sorted[j].key),
    ensures
        placed(sorted, x) == sorted.insert(p, x),
    decreases sorted.len(),
{
    if p == sorted.len() {
        assert(sorted.insert(p, x) =~= sorted.push(x));
    } else {
        assert(lex_less(x.key, sorted[sorted.len() - 1].key));
        let shorter = sorted.drop_last();
        assert forall|j: int| p <= j < shorter.len() implies lex_less(
            x.key,
            #[trigger] shorter[j].key,
        ) by {
            assert(shorter[j] == sorted[j]);
        }
        lemma_placed(shorter, x, p);
        assert(shorter.insert(p, x).push(sorted.last()) =~= sorted.insert(p, x));
    }
}

impl SignerList {
    /// Every list obeys the rules.
    #[verifier::type_invariant]
    pub open spec fn well_formed(self) -> bool {
        signer_complaint(self@.signers, self@.quorum) is None
    }

    /// Build and validate a list, in whatever order the signers come.
    pub fn new(signers: Vec<Signer>, quorum: u32) -> (r: Result<Self, AuthorityError>)
        ensures
            match signer_complaint(in_key_order(signers.deep_view()), quorum) {
                Some(e) => r == Err::<SignerList, AuthorityError>(e),
                None => r matches Ok(list) && list@ == (SignersView {
                    signers: in_key_order(signers.deep_view()),
                    quorum,
                }),
            },
    {
        let mut sorted: Vec<Signer> = Vec::new();
        let ghost all = signers.deep_view();
        let mut i: usize = 0;
        assert(all.take(0) =~= Seq::empty());
        assert(sorted.deep_view() =~= Seq::empty());
        while i < signers.len()
            invariant
                i <= signers@.len(),
                all == signers.deep_view(),
                sorted@.len() == i,
                sorted.deep_view() == in_key_order(all.take(i as int)),
            decreases signers@.len() - i,
        {
            let x = signers[i];
            let mut p: usize = sorted.len();
            while p > 0 && bytes_less(x.key.as_bytes(), sorted[p - 1].key.as_bytes())
                invariant
                    p <= sorted@.len(),
                    x == signers@[i as int],
                    i < signers@.len(),
                    forall|j: int|
                        p <= j < sorted@.len() ==> lex_less(
                            x.key@,
                            #[trigger] sorted.deep_view()[j].key,
                        ),
                decreases p,
            {
                p -= 1;
            }
            let ghost before = sorted.deep_view();
            sorted.insert(p, x);
            proof {
                let v = x.deep_view();
                assert(p > 0 ==> !lex_less(v.key, before[p - 1].key));
                lemma_placed(before, v, p as int);
                assert(sorted.deep_view() =~= before.insert(p as int, v));
                assert(all.take(i as int + 1).drop_last() =~= all.take(i as int));
                assert(all.take(i as int + 1).last() == v);
            }
            i += 1;
        }
        assert(all.take(all.len() as int) =~= all);
        Self::from_sorted(sorted, quorum)
    }

    /// Validate an already-ordered list, refusing rather than reordering.
    ///
    /// This is what decoding uses. A decoder that sorted would give one list two
    /// encodings.
    fn from_sorted(signers: Vec<Signer>, quorum: u32) -> (r: Result<Self, AuthorityError>)
        ensures
            match signer_complaint(signers.deep_view(), quorum) {
                Some(e) => r == Err::<SignerList, AuthorityError>(e),
                None => r matches Ok(list) && list@ == (SignersView {
                    signers: signers.deep_view(),
                    quorum,
                }),
            },
    {
        let ghost all = signers.deep_view();
        if signers.len() == 0 {
            return Err(AuthorityError::NoSigners);
        }
        if signers.len() > MAX_SIGNERS {
            return Err(AuthorityError::TooManySigners(signers.len()));
        }
        let mut i: usize = 1;
        while i < signers.len()
            invariant
                1 <= i <= signers@.len() <= MAX_SIGNERS,
                all == signers.deep_view(),
                forall|j: int, k: int|
                    0 <= j < k < i ==> lex_less(#[trigger] all[j].key, #[trigger] all[k].key),
            decreases signers@.len() - i,
        {
            if !bytes_less(signers[i - 1].key.as_bytes(), signers[i].key.as_bytes()) {
                assert(!lex_less(all[i - 1].key, all[i as int].key));
                return Err(AuthorityError::UnsortedOrRepeatedSigners);
            }
            assert forall|j: int, k: int| 0 <= j < k < i + 1 implies lex_less(
                #[trigger] all[j].key,
                #[trigger] all[k].key,
            ) by {
                assert(lex_less(all[i - 1].key, all[i as int].key));
                if k == i && j < i - 1 {
                    lemma_lex_transitive(all[j].key, all[i - 1].key, all[i as int].key);
                }
            }
            i += 1;
        }
        let mut total: u64 = 0;
        let mut idle = false;
        let mut n: usize = 0;
        assert(all.take(0) =~= Seq::empty());
        while n < signers.len()
            invariant
                n <= signers@.len() <= MAX_SIGNERS,
                all == signers.deep_view(),
                total == total_weight(all.take(n as int)),
                total <= n * 0xffff_ffff,
                idle == exists|j: int| 0 <= j < n && (#[trigger] all[j]).weight == 0,
            decreases signers@.len() - n,
        {
            if signers[n].weight == 0 {
                idle = true;
                assert(all[n as int].weight == 0);
            }
            total += signers[n].weight as u64;
            assert(all.take(n as int + 1).drop_last() =~= all.take(n as int));
            assert(all.take(n as int + 1).last() == all[n as int]);
            n += 1;
        }
        assert(all.take(all.len() as int) =~= all);
        if idle {
            return Err(AuthorityError::ZeroWeight);
        }
        if quorum == 0 {
            return Err(AuthorityError::ZeroQuorum);
        }
        // A quorum above the total weight is a locked account that looks perfectly
        // well-formed.
        if quorum as u64 > total {
            return Err(AuthorityError::UnreachableQuorum { quorum: quorum as u64, total });
        }
        Ok(SignerList { signers, quorum })
    }

    /// The signers, sorted by public key.
    pub fn signers(&self) -> (s: &[Signer])
        ensures
            s.deep_view() == self@.signers,
    {
        let s = self.signers.as_slice();
        assert(s.deep_view() =~= self.signers.deep_view());
        s
    }

    /// The weight a transaction must gather.
    pub fn quorum(&self) -> (q: u32)
        ensures
            q == self@.quorum,
    {
        self.quorum
    }

    /// The weight `key` carries, or `None` if it is not on the list.
    pub fn weight_of(&self, key: &PublicKey) -> (w: Option<u32>)
        ensures
            w == weight_on(self@.signers, key@),
    {
        let ghost all = self@.signers;
        let mut i: usize = 0;
        assert(all.skip(0) =~= all);
        while i < self.signers.len()
            invariant
                i <= self.signers@.len(),
                all == self.signers.deep_view(),
                all == self@.signers,
                weight_on(all, key@) == weight_on(all.skip(i as int), key@),
            decreases self.signers@.len() - i,
        {
            assert(all.skip(i as int)[0] == all[i as int]);
            assert(all.skip(i as int).drop_first() =~= all.skip(i as int + 1));
            if self.signers[i].key == *key {
                return Some(self.signers[i].weight);
            }
            i += 1;
        }
        assert(all.skip(all.len() as int).len() == 0);
        None
    }

    /// Whether these keys together reach the quorum.
    ///
    /// A key that is not on the list disqualifies the whole attempt: an
    /// unrecognised signature changes a transaction's id without changing what it
    /// authorises.
    pub fn satisfied_by(&self, keys: &[PublicKey]) -> (b: bool)
        ensures
            b == self@.satisfied(key_views(keys@)),
    {
        let ghost all = key_views(keys@);
        let mut gathered: u64 = 0;
        let ghost mut sum: nat = 0;
        let mut i: usize = 0;
        assert(all.take(0) =~= Seq::empty());
        while i < keys.len()
            invariant
                i <= keys@.len(),
                all == key_views(keys@),
                weight_gathered(self@.signers, all.take(i as int)) == Some(sum),
                gathered == if sum <= u64::MAX {
                    sum
                } else {
                    u64::MAX as nat
                },
            decreases keys@.len() - i,
        {
            assert(all.take(i as int + 1).drop_last() =~= all.take(i as int));
            assert(all.take(i as int + 1).last() == keys@[i as int]@);
            match self.weight_of(&keys[i]) {
                Some(weight) => {
                    gathered = gathered.saturating_add(weight as u64);
                    proof {
                        sum = sum + weight as nat;
                    }
                },
                None => {
                    proof {
                        lemma_ungathered(self@.signers, all, i as int + 1);
                    }
                    return false;
                },
            }
            i += 1;
        }
        assert(all.take(all.len() as int) =~= all);
        gathered >= self.quorum as u64
    }
}

/// Keys of which some cannot be weighed cannot be weighed together with more.
proof fn lemma_ungathered(signers: Seq<SignerView>, keys: Seq<Seq<u8>>, k: int)
    requires
        0 <= k <= keys.len(),
        weight_gathered(signers, keys.take(k)) is None,
    ensures
        weight_gathered(signers, keys) is None,
    decreases keys.len() - k,
{
    if k == keys.len() {
        assert(keys.take(k) =~= keys);
    } else {
        assert(keys.take(k + 1).drop_last() =~= keys.take(k));
        lemma_ungathered(signers, keys, k + 1);
    }
}

/// What kind of thing owns an address.
#[derive(Debug, Clone, PartialEq, Eq)]
pub enum AccountKind {
    /// A person or organisation holding a single key.
    Individual {
        /// Revealed on first outbound transaction.
        public_key: Option<PublicKey>,
    },
    /// A savings group.
    Group(Box<GroupAccount>),
    /// A protocol-owned account. Has no key and can never sign; only module logic may move its
    /// balance.
    Module {
        /// Which module owns it.
        name: String,
    },
}

/// The mathematical view of a [`AccountKind`].
pub enum KindView {
    Individual { public_key: Option<Seq<u8>> },
    Group(GroupView),
    Module { name: Seq<char> },
}

impl DeepView for AccountKind {
    type V = KindView;

    open spec fn deep_view(&self) -> KindView {
        match *self {
            AccountKind::Individual { public_key } =>
                KindView::Individual { public_key: public_key.deep_view() },
            AccountKind::Group(group) => KindView::Group(group.deep_view()),
            AccountKind::Module { name } => KindView::Module { name: name.deep_view() },
        }
    }
}

/// Where a transaction sits: its id, and the block that carried it.
#[derive(Debug, Clone, Copy, PartialEq, Eq)]
pub struct TxPointer {
    /// The transaction's id.
    pub tx_id: Hash32,
    /// The block it was included in.
    pub height: Height,
}

impl DeepView for TxPointer {
    type V = TxPointer;

    open spec fn deep_view(&self) -> TxPointer {
        *self
    }
}

/// An account record as stored in state.
#[derive(Debug, Clone, PartialEq, Eq)]
pub struct Account {
    /// The account's address.
    pub address: Address,
    /// Next expected transaction sequence number.
    pub nonce: u64,
    /// What kind of account this is.
    pub kind: AccountKind,
    /// The last transaction to move this account's history pointer: the head of a provable history
    /// chain. `None` on an account that has never been party to a transaction.
    pub last_txn: Option<TxPointer>,
    /// Switches the owner has set on their own record.
    pub flags: AccountFlags,
    /// A day-to-day signing key, rotatable without changing the address.
    pub regular_key: Option<PublicKey>,
    /// An M-of-N arrangement that may sign for this account.
    pub signers: Option<SignerList>,
}

/// The mathematical view of a [`Account`].
pub struct AccountView {
    pub address: Address,
    pub nonce: u64,
    pub kind: KindView,
    pub last_txn: Option<TxPointer>,
    pub flags: u32,
    pub regular_key: Option<Seq<u8>>,
    pub signers: Option<SignersView>,
}

impl DeepView for Account {
    type V = AccountView;

    open spec fn deep_view(&self) -> AccountView {
        AccountView {
            address: self.address.deep_view(),
            nonce: self.nonce.deep_view(),
            kind: self.kind.deep_view(),
            last_txn: self.last_txn.deep_view(),
            flags: self.flags.deep_view(),
            regular_key: self.regular_key.deep_view(),
            signers: self.signers.deep_view(),
        }
    }
}

impl AccountView {
    /// A record of the given kind with nothing set on it.
    pub open spec fn fresh(address: Address, kind: KindView) -> AccountView {
        AccountView {
            address,
            nonce: 0,
            kind,
            last_txn: None,
            flags: 0,
            regular_key: None,
            signers: None,
        }
    }

    /// Whether this account is able to sign at all.
    pub open spec fn signs(self) -> bool {
        !(self.kind is Module)
    }

    /// Whether a key is the one that the address was derived from, and may sign.
    pub open spec fn master_may_sign(self, key: Seq<u8>) -> bool {
        !flag_set(self.flags, AccountFlag::MasterKeyDisabled) && key_address(key) == self.address
    }

    /// Whether a set of signing keys is entitled to act for the account: the master
    /// key alone, the regular key alone, or signers who reach the quorum.
    pub open spec fn authorised_by(self, keys: Seq<Seq<u8>>) -> bool {
        self.signs() && {
            ||| keys.len() == 1 && self.master_may_sign(keys[0])
            ||| keys.len() == 1 && self.regular_key == Some(keys[0])
            ||| keys.len() > 0 && self.signers is Some && self.signers->0.satisfied(keys)
        }
    }

    /// Whether some authority is left that could sign.
    pub open spec fn usable(self) -> bool {
        ||| !flag_set(self.flags, AccountFlag::MasterKeyDisabled)
        ||| self.regular_key is Some
        ||| self.signers is Some
    }
}

impl Account {
    /// A fresh individual account with no key revealed yet.
    pub fn individual(address: Address) -> (a: Self)
        ensures
            a.deep_view() == AccountView::fresh(
                address,
                KindView::Individual { public_key: None },
            ),
    {
        Account {
            address,
            nonce: 0,
            kind: AccountKind::Individual { public_key: None },
            last_txn: None,
            flags: AccountFlags::none(),
            regular_key: None,
            signers: None,
        }
    }

    /// An individual account with a known key.
    pub fn with_key(public_key: PublicKey) -> (a: Self)
        ensures
            a.deep_view() == AccountView::fresh(
                key_address(public_key@),
                KindView::Individual { public_key: Some(public_key@) },
            ),
    {
        Account {
            address: Address::from_public_key(&public_key),
            nonce: 0,
            kind: AccountKind::Individual { public_key: Some(public_key) },
            last_txn: None,
            flags: AccountFlags::none(),
            regular_key: None,
            signers: None,
        }
    }

    /// A group account at `address`.
    pub fn group(address: Address, group: GroupAccount) -> (a: Self)
        ensures
            a.deep_view() == AccountView::fresh(address, KindView::Group(group.deep_view())),
    {
        Account {
            address,
            nonce: 0,
            kind: AccountKind::Group(Box::new(group)),
            last_txn: None,
            flags: AccountFlags::none(),
            regular_key: None,
            signers: None,
        }
    }

    /// A protocol-owned account.
    pub fn module(address: Address, name: &str) -> (a: Self)
        ensures
            a.deep_view() == AccountView::fresh(address, KindView::Module { name: name@ }),
    {
        Account {
            address,
            nonce: 0,
            kind: AccountKind::Module { name: String::from_str(name) },
            last_txn: None,
            flags: AccountFlags::none(),
            regular_key: None,
            signers: None,
        }
    }

    /// The group record, if this is a group account.
    pub fn as_group(&self) -> (g: Option<&GroupAccount>)
        ensures
            match g {
                Some(g) => self.deep_view().kind == KindView::Group(g.deep_view()),
                None => !(self.deep_view().kind is Group),
            },
    {
        match &self.kind {
            AccountKind::Group(g) => Some(&**g),
            _ => None,
        }
    }

    /// Whether this account is able to sign transactions at all. Module accounts
    /// never can.
    pub fn can_sign(&self) -> (b: bool)
        ensures
            b == self.deep_view().signs(),
    {
        match &self.kind {
            AccountKind::Module { .. } => false,
            _ => true,
        }
    }

    /// Advance the nonce after a successful transaction.
    pub fn increment_nonce(&mut self)
        ensures
            final(self).deep_view() == (AccountView {
                nonce: if old(self).nonce == u64::MAX {
                    u64::MAX
                } else {
                    (old(self).nonce + 1) as u64
                },
                ..old(self).deep_view()
            }),
    {
        self.nonce = self.nonce.saturating_add(1);
    }

    /// Whether transfers into this account must carry a payment reference.
    pub fn requires_reference(&self) -> (r: RequiresReference)
        ensures
            (r == RequiresReference::Yes) == flag_set(
                self.deep_view().flags,
                AccountFlag::RequireReference,
            ),
    {
        self.flags.requires_reference()
    }

    /// Whether `key` is this account's master key and that key may still sign.
    pub fn master_key_may_sign(&self, key: &PublicKey) -> (b: bool)
        ensures
            b == self.deep_view().master_may_sign(key@),
    {
        !self.flags.is_set(AccountFlag::MasterKeyDisabled) && Address::from_public_key(key)
            == self.address
    }

    /// Whether this set of signing keys is entitled to act for the account.
    ///
    /// Exactly one authority must be satisfied; a mixture satisfies nothing.
    pub fn authorises(&self, keys: &[PublicKey]) -> (b: bool)
        ensures
            b == self.deep_view().authorised_by(key_views(keys@)),
    {
        if !self.can_sign() {
            return false;
        }
        let ghost views = key_views(keys@);
        if keys.len() == 1 {
            assert(views[0] == keys@[0]@);
            if self.master_key_may_sign(&keys[0]) {
                return true;
            }
            if let Some(regular) = &self.regular_key {
                if *regular == keys[0] {
                    return true;
                }
            }
        }
        match &self.signers {
            Some(list) => keys.len() > 0 && list.satisfied_by(keys),
            None => false,
        }
    }

    /// Whether some key can still sign for this account: the rule every change of
    /// authority is checked against.
    pub fn has_a_usable_authority(&self) -> (b: bool)
        ensures
            b == self.deep_view().usable(),
    {
        !self.flags.is_set(AccountFlag::MasterKeyDisabled) || self.regular_key.is_some()
            || self.signers.is_some()
    }
}

// ---------------------------------------------------------------------------
// Who may sign
// ---------------------------------------------------------------------------

/// A module account can never be made to sign.
pub proof fn law_module_accounts_never_sign(a: AccountView, keys: Seq<Seq<u8>>)
    requires
        a.kind is Module,
    ensures
        !a.authorised_by(keys),
{
}

/// Authorities do not mix: a key that is neither the master key nor the regular key
/// signs only with others from the signer list, and one that is not on the list
/// spoils every set of more than one.
pub proof fn law_an_unlisted_key_spoils_the_set(a: AccountView, keys: Seq<Seq<u8>>, i: int)
    requires
        0 <= i < keys.len(),
        keys.len() > 1,
        a.signers is Some ==> weight_on(a.signers->0.signers, keys[i]) is None,
    ensures
        !a.authorised_by(keys),
{
    if a.signers is Some {
        let list = a.signers->0.signers;
        assert(keys.take(i + 1).last() == keys[i]);
        assert(weight_gathered(list, keys.take(i + 1)) is None);
        lemma_ungathered(list, keys, i + 1);
    }
}

/// A disabled master key signs for nothing by itself, unless it was also made the
/// regular key or a signer.
pub proof fn law_disabling_the_master_key_neutralises_it(a: AccountView, key: Seq<u8>)
    requires
        flag_set(a.flags, AccountFlag::MasterKeyDisabled),
        a.regular_key != Some(key),
        a.signers is Some ==> weight_on(a.signers->0.signers, key) is None,
    ensures
        !a.authorised_by(seq![key]),
{
    if a.signers is Some {
        let list = a.signers->0.signers;
        assert(seq![key].drop_last() =~= Seq::empty());
        assert(seq![key].last() == key);
        assert(weight_gathered(list, seq![key]) is None);
    }
}

/// The keys of a signer list.
pub open spec fn listed_keys(signers: Seq<SignerView>) -> Seq<Seq<u8>> {
    Seq::new(signers.len(), |i: int| signers[i].key)
}

proof fn lemma_weight_on(signers: Seq<SignerView>, i: int)
    requires
        keys_ascend(signers),
        0 <= i < signers.len(),
    ensures
        weight_on(signers, signers[i].key) == Some(signers[i].weight),
    decreases signers.len(),
{
    if i > 0 {
        assert(lex_less(signers[0].key, signers[i].key));
        lemma_lex_irreflexive(signers[0].key);
        let rest = signers.drop_first();
        assert forall|j: int, k: int| 0 <= j < k < rest.len() implies lex_less(
            #[trigger] rest[j].key,
            #[trigger] rest[k].key,
        ) by {
            assert(rest[j] == signers[j + 1] && rest[k] == signers[k + 1]);
        }
        assert(rest[i - 1] == signers[i]);
        lemma_weight_on(rest, i - 1);
    }
}

proof fn lemma_all_signers_gather(signers: Seq<SignerView>, k: int)
    requires
        keys_ascend(signers),
        0 <= k <= signers.len(),
    ensures
        weight_gathered(signers, listed_keys(signers).take(k)) == Some(
            total_weight(signers.take(k)),
        ),
    decreases k,
{
    let keys = listed_keys(signers);
    if k == 0 {
        assert(keys.take(0).len() == 0);
        assert(signers.take(0).len() == 0);
    } else {
        lemma_all_signers_gather(signers, k - 1);
        lemma_weight_on(signers, k - 1);
        assert(keys.take(k).drop_last() =~= keys.take(k - 1));
        assert(keys.take(k).last() == signers[k - 1].key);
        assert(signers.take(k).drop_last() =~= signers.take(k - 1));
        assert(signers.take(k).last() == signers[k - 1]);
    }
}

/// Nobody is locked out by a rotated key or a signer list: where an account that
/// can sign has either, some set of keys is entitled to act for it.
pub proof fn law_a_set_authority_can_be_used(a: AccountView)
    requires
        a.signs(),
        a.signers is Some ==> signer_complaint(a.signers->0.signers, a.signers->0.quorum) is None,
        a.regular_key is Some || a.signers is Some,
    ensures
        exists|keys: Seq<Seq<u8>>| #[trigger] a.authorised_by(keys),
{
    if a.regular_key is Some {
        assert(a.authorised_by(seq![a.regular_key->0]));
    } else {
        let list = a.signers->0;
        let keys = listed_keys(list.signers);
        lemma_all_signers_gather(list.signers, list.signers.len() as int);
        assert(keys.take(list.signers.len() as int) =~= keys);
        assert(list.signers.take(list.signers.len() as int) =~= list.signers);
        assert(a.authorised_by(keys));
    }
}

proof fn lemma_placed_keeps(sorted: Seq<SignerView>, x: SignerView)
    ensures
        placed(sorted, x).to_multiset() =~= sorted.to_multiset().insert(x),
    decreases sorted.len(),
{
    broadcast use vstd::seq_lib::group_to_multiset_ensures;

    if sorted.len() > 0 && lex_less(x.key, sorted.last().key) {
        lemma_placed_keeps(sorted.drop_last(), x);
        assert(sorted =~= sorted.drop_last().push(sorted.last()));
    }
}

/// Whether keys ascend, where one may occur more than once.
pub open spec fn keys_do_not_descend(signers: Seq<SignerView>) -> bool {
    forall|i: int, j: int|
        0 <= i < j < signers.len() ==> !lex_less(
            #[trigger] signers[j].key,
            #[trigger] signers[i].key,
        )
}

proof fn lemma_placed_in_order(sorted: Seq<SignerView>, x: SignerView)
    requires
        keys_do_not_descend(sorted),
    ensures
        keys_do_not_descend(placed(sorted, x)),
        placed(sorted, x).len() == sorted.len() + 1,
        forall|k: int|
            0 <= k < placed(sorted, x).len() ==> #[trigger] placed(sorted, x)[k] == x
                || sorted.contains(placed(sorted, x)[k]),
    decreases sorted.len(),
{
    let out = placed(sorted, x);
    if sorted.len() == 0 || !lex_less(x.key, sorted.last().key) {
        assert forall|i: int, j: int| 0 <= i < j < out.len() implies !lex_less(
            #[trigger] out[j].key,
            #[trigger] out[i].key,
        ) by {
            if j == sorted.len() {
                let last = sorted.last();
                if lex_less(x.key, sorted[i].key) {
                    if i < sorted.len() - 1 {
                        assert(!lex_less(sorted[sorted.len() - 1].key, sorted[i].key));
                        lemma_lex_total(sorted[i].key, last.key);
                        if sorted[i].key != last.key {
                            lemma_lex_transitive(x.key, sorted[i].key, last.key);
                        }
                    }
                }
            }
        }
        assert forall|k: int| 0 <= k < out.len() implies #[trigger] out[k] == x || sorted.contains(
            out[k],
        ) by {
            if k < sorted.len() {
                assert(out[k] == sorted[k]);
            }
        }
    } else {
        let shorter = sorted.drop_last();
        let last = sorted.last();
        lemma_placed_in_order(shorter, x);
        let low = placed(shorter, x);
        assert(out == low.push(last));
        assert forall|i: int, j: int| 0 <= i < j < out.len() implies !lex_less(
            #[trigger] out[j].key,
            #[trigger] out[i].key,
        ) by {
            if j == low.len() {
                assert(low[i] == x || shorter.contains(low[i]));
                if low[i] == x {
                    if lex_less(last.key, x.key) {
                        lemma_lex_transitive(last.key, x.key, last.key);
                        lemma_lex_irreflexive(last.key);
                    }
                } else {
                    let m = choose|m: int| 0 <= m < shorter.len() && shorter[m] == low[i];
                    assert(!lex_less(sorted[sorted.len() - 1].key, sorted[m].key));
                }
            } else {
                assert(out[i] == low[i] && out[j] == low[j]);
            }
        }
        assert forall|k: int| 0 <= k < out.len() implies #[trigger] out[k] == x || sorted.contains(
            out[k],
        ) by {
            if k < low.len() {
                assert(out[k] == low[k]);
                if low[k] != x {
                    let m = choose|m: int| 0 <= m < shorter.len() && shorter[m] == low[k];
                    assert(sorted[m] == out[k]);
                }
            } else {
                assert(out[k] == sorted[sorted.len() - 1]);
            }
        }
    }
}

/// A list is built from the signers it was given and no others, whatever order they
/// came in, and holds them in the order of their keys.
pub proof fn law_signers_are_kept_in_key_order(list: Seq<SignerView>)
    ensures
        in_key_order(list).to_multiset() == list.to_multiset(),
        in_key_order(list).len() == list.len(),
        keys_do_not_descend(in_key_order(list)),
    decreases list.len(),
{
    broadcast use vstd::seq_lib::group_to_multiset_ensures;

    if list.len() > 0 {
        law_signers_are_kept_in_key_order(list.drop_last());
        lemma_placed_keeps(in_key_order(list.drop_last()), list.last());
        lemma_placed_in_order(in_key_order(list.drop_last()), list.last());
        assert(list =~= list.drop_last().push(list.last()));
    } else {
        assert(in_key_order(list) =~= list);
    }
}

// ---------------------------------------------------------------------------
// Who may sign
// ---------------------------------------------------------------------------

/// Which bit is whose: the lowest says that a reference is required, the next that the
/// master key may no longer sign, and no other is known. Setting a flag adds its bit
/// where it was clear, and clearing it takes it away where it was set.
pub proof fn law_every_flag_has_its_bit(bits: u32)
    ensures
        known_bits(bits) <==> bits < 4,
        flag_set(bits, AccountFlag::RequireReference) <==> bits % 2 == 1,
        flag_set(bits, AccountFlag::MasterKeyDisabled) <==> (bits / 2) % 2 == 1,
        flag_written(bits, AccountFlag::RequireReference, true) == bits + (1 - bits % 2),
        flag_written(bits, AccountFlag::RequireReference, false) == bits - bits % 2,
        flag_written(bits, AccountFlag::MasterKeyDisabled, true) == bits + 2 * (1 - (bits / 2)
            % 2),
        flag_written(bits, AccountFlag::MasterKeyDisabled, false) == bits - 2 * ((bits / 2) % 2),
{
    assert((bits & 1 != 0) == (bits % 2 == 1)) by (bit_vector);
    assert((bits & 2 != 0) == ((bits / 2) % 2 == 1)) by (bit_vector);
    assert((bits | 1) == bits + (1 - bits % 2)) by (bit_vector);
    assert((bits & !1u32) == bits - bits % 2) by (bit_vector);
    assert((bits | 2) == bits + 2 * (1 - (bits / 2) % 2)) by (bit_vector);
    assert((bits & !2u32) == bits - 2 * ((bits / 2) % 2)) by (bit_vector);
}

/// A key's weight is the weight of the first signer that has it.
pub proof fn law_a_key_weighs_what_its_signer_does(signers: Seq<SignerView>, key: Seq<u8>)
    ensures
        weight_on(signers, key) is None <==> forall|i: int|
            0 <= i < signers.len() ==> (#[trigger] signers[i]).key != key,
        forall|i: int|
            0 <= i < signers.len() && (#[trigger] signers[i]).key == key && (forall|j: int|
                0 <= j < i ==> (#[trigger] signers[j]).key != key) ==> weight_on(signers, key)
                == Some(signers[i].weight),
    decreases signers.len(),
{
    if signers.len() > 0 {
        let rest = signers.drop_first();
        law_a_key_weighs_what_its_signer_does(rest, key);
        assert forall|i: int| 0 <= i < rest.len() implies #[trigger] rest[i] == signers[i
            + 1] by {}
        if weight_on(signers, key) is None {
            assert forall|i: int| 0 <= i < signers.len() implies (#[trigger] signers[i]).key
                != key by {
                if i > 0 {
                    assert(rest[i - 1].key != key);
                }
            }
        }
        if forall|i: int| 0 <= i < signers.len() ==> (#[trigger] signers[i]).key != key {
            assert(signers[0].key != key);
            assert forall|i: int| 0 <= i < rest.len() implies (#[trigger] rest[i]).key != key by {
                assert(signers[i + 1].key != key);
            }
        }
        assert forall|i: int|
            0 <= i < signers.len() && (#[trigger] signers[i]).key == key && (forall|j: int|
                0 <= j < i ==> (#[trigger] signers[j]).key != key) implies weight_on(signers, key)
            == Some(signers[i].weight) by {
            if i > 0 {
                assert(signers[0].key != key);
                assert(rest[i - 1] == signers[i]);
                assert forall|j: int| 0 <= j < i - 1 implies (#[trigger] rest[j]).key != key by {
                    assert(signers[j + 1].key != key);
                }
            }
        }
    }
}

proof fn lemma_weight_is_the_sum(signers: Seq<SignerView>)
    ensures
        total_weight(signers) == signers.fold_left(0int, |t: int, s: SignerView| t + s.weight),
    decreases signers.len(),
{
    if signers.len() > 0 {
        lemma_weight_is_the_sum(signers.drop_last());
    }
}

/// When a list may sign for an account: one to thirty-two signers, by ascending key,
/// each of some weight, and a quorum that is not zero and that they reach together. The
/// first of these that fails, in that order, is the error.
pub proof fn law_when_signers_may_be_listed(signers: Seq<SignerView>, quorum: u32)
    ensures
        ({
            let sum = signers.fold_left(0int, |t: int, s: SignerView| t + s.weight);
            let ascending = forall|i: int, j: int|
                0 <= i < j < signers.len() ==> lex_less(
                    #[trigger] signers[i].key,
                    #[trigger] signers[j].key,
                );
            let weighty = forall|i: int|
                0 <= i < signers.len() ==> (#[trigger] signers[i]).weight > 0;
            signer_complaint(signers, quorum) == if signers.len() == 0 {
                Some(AuthorityError::NoSigners)
            } else if signers.len() > 32 {
                Some(AuthorityError::TooManySigners(signers.len() as usize))
            } else if !ascending {
                Some(AuthorityError::UnsortedOrRepeatedSigners)
            } else if !weighty {
                Some(AuthorityError::ZeroWeight)
            } else if quorum == 0 {
                Some(AuthorityError::ZeroQuorum)
            } else if quorum > sum {
                Some(
                    AuthorityError::UnreachableQuorum { quorum: quorum as u64, total: sum as u64 },
                )
            } else {
                None
            }
        }),
{
    lemma_weight_is_the_sum(signers);
    let weighty = forall|i: int| 0 <= i < signers.len() ==> (#[trigger] signers[i]).weight > 0;
    let weightless = exists|i: int| 0 <= i < signers.len() && (#[trigger] signers[i]).weight == 0;
    if weightless {
        let i = choose|i: int| 0 <= i < signers.len() && (#[trigger] signers[i]).weight == 0;
        assert(signers[i].weight == 0);
    }
    assert(weighty <==> !weightless);
}

proof fn lemma_what_keys_gather(signers: Seq<SignerView>, keys: Seq<Seq<u8>>)
    ensures
        weight_gathered(signers, keys) is Some <==> forall|i: int|
            0 <= i < keys.len() ==> weight_on(signers, #[trigger] keys[i]) is Some,
        weight_gathered(signers, keys) is Some ==> weight_gathered(signers, keys)->0
            == keys.fold_left(0int, |t: int, k: Seq<u8>| t + weight_on(signers, k)->0),
    decreases keys.len(),
{
    if keys.len() > 0 {
        let rest = keys.drop_last();
        lemma_what_keys_gather(signers, rest);
        if forall|i: int| 0 <= i < keys.len() ==> weight_on(signers, #[trigger] keys[i]) is Some {
            assert forall|i: int| 0 <= i < rest.len() implies weight_on(
                signers,
                #[trigger] rest[i],
            ) is Some by {
                assert(rest[i] == keys[i]);
            }
            assert(weight_on(signers, keys[keys.len() - 1]) is Some);
        }
        if weight_gathered(signers, keys) is Some {
            assert forall|i: int| 0 <= i < keys.len() implies weight_on(
                signers,
                #[trigger] keys[i],
            ) is Some by {
                if i < rest.len() {
                    assert(rest[i] == keys[i]);
                }
            }
        }
    }
}

/// Who may sign for an account: for a module nobody. For any other account the key that
/// its address is made of, alone, unless that key has been disabled; or the regular
/// key, alone; or keys that are all in the signer list and whose weights together reach
/// its quorum. The master key may sign whenever it is the one that the address is made
/// of and has not been disabled.
pub proof fn law_who_may_sign(a: AccountView, keys: Seq<Seq<u8>>)
    ensures
        a.authorised_by(keys) <==> {
            let alone = keys.len() == 1;
            let by_list = a.signers matches Some(list) && {
                &&& forall|i: int|
                    0 <= i < keys.len() ==> weight_on(list.signers, #[trigger] keys[i]) is Some
                &&& keys.fold_left(0int, |t: int, k: Seq<u8>| t + weight_on(list.signers, k)->0)
                    >= list.quorum
            };
            &&& !(a.kind is Module)
            &&& {
                ||| alone && (a.flags / 2) % 2 == 0 && key_address(keys[0]) == a.address
                ||| alone && a.regular_key == Some(keys[0])
                ||| keys.len() > 0 && by_list
            }
        },
        a.signs() <==> !(a.kind is Module),
        keys.len() > 0 ==> (a.master_may_sign(keys[0]) <==> (a.flags / 2) % 2 == 0 && key_address(
            keys[0],
        ) == a.address),
        a.usable() <==> (a.flags / 2) % 2 == 0 || a.regular_key is Some || a.signers is Some,
{
    law_every_flag_has_its_bit(a.flags);
    if let Some(list) = a.signers {
        lemma_what_keys_gather(list.signers, keys);
    }
}

/// What a new account holds: its address and its kind. Nothing has been signed, no flag
/// is set and no other key may sign.
pub proof fn law_a_new_account_is_bare(address: Address, kind: KindView)
    ensures
        AccountView::fresh(address, kind) == (AccountView {
            address,
            nonce: 0,
            kind,
            last_txn: None,
            flags: 0,
            regular_key: None,
            signers: None,
        }),
{
}

// ---------------------------------------------------------------------------
// Canonical encoding
// ---------------------------------------------------------------------------

/// The sentence that refuses a bit that names no flag.
pub open spec fn no_such_flag(bit: u32) -> Seq<char> {
    "no account flag is defined for bit 0x"@ + text::hex_number(bit as nat)
}

/// The sentence that refuses a word with unknown bits.
pub open spec fn unknown_flags(bits: u32) -> Seq<char> {
    "account flags carry unknown bits: 0x"@ + text::hex_number(bits as nat)
}

/// A flag travels as its bit, so a message that names a flag and the word that holds
/// it use one number.
impl Encode for AccountFlag {
    open spec fn bytes_of(v: AccountFlag) -> Seq<u8> {
        u32::bytes_of(v.mask())
    }

    fn encode(&self, out: &mut Vec<u8>) {
        self.bit().encode(out);
    }
}

impl Decode for AccountFlag {
    open spec fn parse(s: Seq<u8>) -> Parsed<AccountFlag> {
        u32::parse(s).and_then(
            |bit: u32, rest: Seq<u8>|
                if bit == 1 {
                    Parsed { value: Ok(AccountFlag::RequireReference), rest }
                } else if bit == 2 {
                    Parsed { value: Ok(AccountFlag::MasterKeyDisabled), rest }
                } else {
                    fault(CodecFault::Invalid(no_such_flag(bit)), rest)
                },
        )
    }

    fn decode(r: &mut Reader<'_>) -> (res: Result<Self, CodecError>) {
        let bit: u32 = u32::decode(r)?;
        match Self::from_bit(bit) {
            Some(flag) => Ok(flag),
            None => {
                assert(AccountFlag::RequireReference.mask() != bit);
                assert(AccountFlag::MasterKeyDisabled.mask() != bit);
                let mut reason = String::from_str("no account flag is defined for bit 0x");
                text::push_hex(&mut reason, bit);
                Err(CodecError::Invalid(reason))
            },
        }
    }
}

impl Canonical for AccountFlag {
    open spec fn valid(v: AccountFlag) -> bool {
        true
    }

    proof fn round_trip(v: AccountFlag, tail: Seq<u8>) {
        u32::round_trip(v.mask(), tail);
    }

    proof fn one_encoding(s: Seq<u8>) {
        u32::one_encoding(s);
    }
}

impl Encode for AccountFlags {
    open spec fn bytes_of(v: u32) -> Seq<u8> {
        u32::bytes_of(v)
    }

    fn encode(&self, out: &mut Vec<u8>) {
        self.0.encode(out);
    }
}

impl Decode for AccountFlags {
    open spec fn parse(s: Seq<u8>) -> Parsed<u32> {
        u32::parse(s).and_then(
            |bits: u32, rest: Seq<u8>|
                if known_bits(bits) {
                    Parsed { value: Ok(bits), rest }
                } else {
                    fault(CodecFault::Invalid(unknown_flags(bits)), rest)
                },
        )
    }

    fn decode(r: &mut Reader<'_>) -> (res: Result<Self, CodecError>) {
        let bits: u32 = u32::decode(r)?;
        match Self::from_bits(bits) {
            Some(flags) => Ok(flags),
            None => {
                let mut reason = String::from_str("account flags carry unknown bits: 0x");
                text::push_hex(&mut reason, bits);
                Err(CodecError::Invalid(reason))
            },
        }
    }
}

impl Canonical for AccountFlags {
    open spec fn valid(v: u32) -> bool {
        known_bits(v)
    }

    proof fn round_trip(v: u32, tail: Seq<u8>) {
        u32::round_trip(v, tail);
    }

    proof fn one_encoding(s: Seq<u8>) {
        u32::one_encoding(s);
    }
}

impl Encode for SignerList {
    open spec fn bytes_of(v: SignersView) -> Seq<u8> {
        <(Vec<Signer>, u32)>::bytes_of((v.signers, v.quorum))
    }

    fn encode(&self, out: &mut Vec<u8>) {
        broadcast use wire::lemma_concat_assoc;

        self.signers.encode(out);
        self.quorum.encode(out);
    }
}

/// A list is refused rather than repaired: sorting it here would give one
/// arrangement two encodings.
impl Decode for SignerList {
    open spec fn parse(s: Seq<u8>) -> Parsed<SignersView> {
        <(Vec<Signer>, u32)>::parse(s).and_then(
            |t: (Seq<SignerView>, u32), rest: Seq<u8>|
                match signer_complaint(t.0, t.1) {
                    None => Parsed {
                        value: Ok(SignersView { signers: t.0, quorum: t.1 }),
                        rest,
                    },
                    Some(e) => fault(CodecFault::Invalid(e.text()), rest),
                },
        )
    }

    fn decode(r: &mut Reader<'_>) -> (res: Result<Self, CodecError>) {
        let signers = Vec::<Signer>::decode(r)?;
        let quorum: u32 = u32::decode(r)?;
        match Self::from_sorted(signers, quorum) {
            Ok(list) => Ok(list),
            Err(e) => Err(CodecError::Invalid(e.to_string())),
        }
    }
}

impl Canonical for SignerList {
    open spec fn valid(v: SignersView) -> bool {
        &&& signer_complaint(v.signers, v.quorum) is None
        &&& <(Vec<Signer>, u32)>::valid((v.signers, v.quorum))
    }

    proof fn round_trip(v: SignersView, tail: Seq<u8>) {
        <(Vec<Signer>, u32)>::round_trip((v.signers, v.quorum), tail);
    }

    proof fn one_encoding(s: Seq<u8>) {
        <(Vec<Signer>, u32)>::one_encoding(s);
    }
}

/// An account record from its parts.
pub open spec fn account_of_parts(
    t: (
        Address,
        (u64, (KindView, (Option<TxPointer>, (u32, (Option<Seq<u8>>, Option<SignersView>))))),
    ),
) -> AccountView {
    AccountView {
        address: t.0,
        nonce: t.1.0,
        kind: t.1.1.0,
        last_txn: t.1.1.1.0,
        flags: t.1.1.1.1.0,
        regular_key: t.1.1.1.1.1.0,
        signers: t.1.1.1.1.1.1,
    }
}

impl Encode for Signer {
    open spec fn bytes_of(v: SignerView) -> Seq<u8> {
        <(PublicKey, u32)>::bytes_of((v.key, v.weight))
    }

    fn encode(&self, out: &mut Vec<u8>) {
        broadcast use wire::lemma_concat_assoc;

        self.key.encode(out);
        self.weight.encode(out);
    }
}

impl Decode for Signer {
    open spec fn parse(s: Seq<u8>) -> Parsed<SignerView> {
        <(PublicKey, u32)>::parse(s).map(
            |t: (Seq<u8>, u32)|
                SignerView { key: t.0, weight: t.1 },
        )
    }

    fn decode(r: &mut Reader<'_>) -> (res: Result<Self, CodecError>) {
        let key = PublicKey::decode(r)?;
        let weight: u32 = u32::decode(r)?;
        Ok(Signer { key, weight })
    }
}

impl Canonical for Signer {
    open spec fn valid(v: SignerView) -> bool {
        <(PublicKey, u32)>::valid((v.key, v.weight))
    }

    proof fn round_trip(v: SignerView, tail: Seq<u8>) {
        <(PublicKey, u32)>::round_trip((v.key, v.weight), tail);
    }

    proof fn one_encoding(s: Seq<u8>) {
        <(PublicKey, u32)>::one_encoding(s);
    }
}

impl Encode for AccountKind {
    open spec fn bytes_of(v: KindView) -> Seq<u8> {
        match v {
            KindView::Individual { public_key } => u8::bytes_of(0) + <Option<PublicKey>>::bytes_of(
                public_key,
            ),
            KindView::Group(group) => u8::bytes_of(1) + GroupAccount::bytes_of(
                group,
            ),
            KindView::Module { name } => u8::bytes_of(2) + String::bytes_of(
                name,
            ),
        }
    }

    fn encode(&self, out: &mut Vec<u8>) {
        match self {
            AccountKind::Individual { public_key } => wire::encode_tagged(0, public_key, out),
            AccountKind::Group(group) => wire::encode_tagged(1, &**group, out),
            AccountKind::Module { name } => wire::encode_tagged(2, name, out),
        }
    }
}

impl Decode for AccountKind {
    open spec fn parse(s: Seq<u8>) -> Parsed<KindView> {
        u8::parse(s).and_then(
            |tag: u8, rest: Seq<u8>|
                if tag == 0 {
                    <Option<PublicKey>>::parse(rest).map(
                        |t: Option<Seq<u8>>|
                            KindView::Individual { public_key: t },
                    )
                } else if tag == 1 {
                    GroupAccount::parse(rest).map(
                        |t: GroupView|
                            KindView::Group(t),
                    )
                } else if tag == 2 {
                    String::parse(rest).map(
                        |t: Seq<char>|
                            KindView::Module { name: t },
                    )
                } else {
                    fault(CodecFault::UnknownDiscriminant { tag, what: "AccountKind"@ }, rest)
                },
        )
    }

    fn decode(r: &mut Reader<'_>) -> (res: Result<Self, CodecError>) {
        let tag: u8 = u8::decode(r)?;
        match tag {
            0 => {
                let public_key = <Option<PublicKey>>::decode(r)?;
                Ok(AccountKind::Individual { public_key })
            },
            1 => {
                let group = GroupAccount::decode(r)?;
                Ok(AccountKind::Group(Box::new(group)))
            },
            2 => {
                let name = String::decode(r)?;
                Ok(AccountKind::Module { name })
            },
            _ => Err(CodecError::UnknownDiscriminant { tag, what: "AccountKind" }),
        }
    }
}

impl Canonical for AccountKind {
    open spec fn valid(v: KindView) -> bool {
        match v {
            KindView::Individual { public_key } => <Option<PublicKey>>::valid(public_key),
            KindView::Group(group) => GroupAccount::valid(group),
            KindView::Module { name } => String::valid(name),
        }
    }

    proof fn round_trip(v: KindView, tail: Seq<u8>) {
        match v {
            KindView::Individual { public_key } => {
                let t = public_key;
                wire::lemma_tagged_round_trip::<Option<PublicKey>>(0, t, tail);
            },
            KindView::Group(group) => {
                let t = group;
                wire::lemma_tagged_round_trip::<GroupAccount>(1, t, tail);
            },
            KindView::Module { name } => {
                let t = name;
                wire::lemma_tagged_round_trip::<String>(2, t, tail);
            },
        }
    }

    proof fn one_encoding(s: Seq<u8>) {
        u8::one_encoding(s);
        let rest = u8::parse(s).rest;
        if let Ok(tag) = u8::parse(s).value {
            if tag == 0 {
                if <Option<PublicKey>>::parse(rest).value is Ok {
                    wire::lemma_tagged_one_encoding::<Option<PublicKey>>(0, s);
                }
            } else if tag == 1 {
                if GroupAccount::parse(rest).value is Ok {
                    wire::lemma_tagged_one_encoding::<GroupAccount>(1, s);
                }
            } else if tag == 2 {
                if String::parse(rest).value is Ok {
                    wire::lemma_tagged_one_encoding::<String>(2, s);
                }
            }
        }
    }
}

impl Encode for TxPointer {
    open spec fn bytes_of(v: TxPointer) -> Seq<u8> {
        <(Hash32, Height)>::bytes_of((v.tx_id, v.height))
    }

    fn encode(&self, out: &mut Vec<u8>) {
        broadcast use wire::lemma_concat_assoc;

        self.tx_id.encode(out);
        self.height.encode(out);
    }
}

impl Decode for TxPointer {
    open spec fn parse(s: Seq<u8>) -> Parsed<TxPointer> {
        <(Hash32, Height)>::parse(s).map(
            |t: (Hash32, Height)|
                TxPointer { tx_id: t.0, height: t.1 },
        )
    }

    fn decode(r: &mut Reader<'_>) -> (res: Result<Self, CodecError>) {
        let tx_id = Hash32::decode(r)?;
        let height = Height::decode(r)?;
        Ok(TxPointer { tx_id, height })
    }
}

impl Canonical for TxPointer {
    open spec fn valid(v: TxPointer) -> bool {
        <(Hash32, Height)>::valid((v.tx_id, v.height))
    }

    proof fn round_trip(v: TxPointer, tail: Seq<u8>) {
        <(Hash32, Height)>::round_trip((v.tx_id, v.height), tail);
    }

    proof fn one_encoding(s: Seq<u8>) {
        <(Hash32, Height)>::one_encoding(s);
    }
}

impl Encode for Account {
    open spec fn bytes_of(v: AccountView) -> Seq<u8> {
        AccountFields::bytes_of(
            (v.address, (v.nonce, (v.kind, (v.last_txn, (v.flags, (v.regular_key, v.signers))))))
        )
    }

    fn encode(&self, out: &mut Vec<u8>) {
        broadcast use wire::lemma_concat_assoc;

        self.address.encode(out);
        self.nonce.encode(out);
        self.kind.encode(out);
        self.last_txn.encode(out);
        self.flags.encode(out);
        self.regular_key.encode(out);
        self.signers.encode(out);
    }
}

impl Decode for Account {
    open spec fn parse(s: Seq<u8>) -> Parsed<AccountView> {
        AccountFields::parse(s).map(
            |t: (
                Address,
                (
                    u64,
                    (KindView, (Option<TxPointer>, (u32, (Option<Seq<u8>>, Option<SignersView>)))),
                ),
            )|
                account_of_parts(t),
        ).and_then(
            |a: AccountView, rest: Seq<u8>|
                if a.usable() {
                    Parsed { value: Ok(a), rest }
                } else {
                    fault(
                        CodecFault::Invalid("account record has no key that could sign for it"@),
                        rest,
                    )
                },
        )
    }

    fn decode(r: &mut Reader<'_>) -> (res: Result<Self, CodecError>) {
        let address = Address::decode(r)?;
        let nonce: u64 = u64::decode(r)?;
        let kind = AccountKind::decode(r)?;
        let last_txn = Option::<TxPointer>::decode(r)?;
        let flags = AccountFlags::decode(r)?;
        let regular_key = Option::<PublicKey>::decode(r)?;
        let signers = Option::<SignerList>::decode(r)?;
        let account = Account { address, nonce, kind, last_txn, flags, regular_key, signers };
        // A record nobody can sign for is not a state this chain can produce.
        if !account.has_a_usable_authority() {
            return Err(
                CodecError::Invalid(
                    String::from_str("account record has no key that could sign for it"),
                ),
            );
        }
        Ok(account)
    }
}

impl Canonical for Account {
    open spec fn valid(v: AccountView) -> bool {
        v.usable()
            && AccountFields::valid(
                (
                    v.address,
                    (v.nonce, (v.kind, (v.last_txn, (v.flags, (v.regular_key, v.signers))))),
                )
            )
    }

    proof fn round_trip(v: AccountView, tail: Seq<u8>) {
        AccountFields::round_trip(
            (v.address, (v.nonce, (v.kind, (v.last_txn, (v.flags, (v.regular_key, v.signers)))))),
            tail,
        );
    }

    proof fn one_encoding(s: Seq<u8>) {
        AccountFields::one_encoding(s);
    }
}

} // verus!
