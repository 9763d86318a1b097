//! Votes, validator sets and commits.
//!
//! A commit carries precommits from more than two thirds of the voting power, and
//! that is what makes a header more than an unsupported claim.

use crate::crypto::address::{key_address, Address};
use crate::crypto::hash::{digest, hash, Domain, Hash32};
use crate::crypto::keys::{signed_by, PublicKey, SecretKey, Signature};
use crate::primitives::codec::{
    fault, Canonical, CodecError, CodecFault, Decode, Encode, Parsed, Reader,
};
use crate::primitives::country::CountryCode;
use crate::primitives::ids::{ChainId, Height, Round};
use crate::primitives::wire;
use crate::primitives::text;
use vstd::prelude::*;

verus! {

/// Which of the two votes of a round.
#[derive(Debug, Clone, Copy, PartialEq, Eq, Structural)]
pub enum VoteType {
    /// A first-round vote.
    Prevote,
    /// A vote that finalises.
    Precommit,
}

impl DeepView for VoteType {
    type V = VoteType;

    open spec fn deep_view(&self) -> VoteType {
        *self
    }
}

/// A validator's vote in one slot.
#[derive(Debug, Clone, PartialEq, Eq)]
pub struct Vote {
    /// Network the vote is for.
    pub chain_id: ChainId,
    /// Height voted at.
    pub height: Height,
    /// Round voted in.
    pub round: Round,
    /// Which vote it is.
    pub vote_type: VoteType,
    /// The block voted for, or `None` for nothing.
    pub block_id: Option<Hash32>,
    /// Who votes.
    pub validator: Address,
}

/// The mathematical view of a [`Vote`].
pub struct VoteView {
    pub chain_id: Seq<char>,
    pub height: Height,
    pub round: Round,
    pub vote_type: VoteType,
    pub block_id: Option<Hash32>,
    pub validator: Address,
}

impl DeepView for Vote {
    type V = VoteView;

    open spec fn deep_view(&self) -> VoteView {
        VoteView {
            chain_id: self.chain_id.deep_view(),
            height: self.height.deep_view(),
            round: self.round.deep_view(),
            vote_type: self.vote_type.deep_view(),
            block_id: self.block_id.deep_view(),
            validator: self.validator.deep_view(),
        }
    }
}

impl VoteView {
    /// The bytes a signature on this vote commits to.
    pub open spec fn document(self) -> Seq<u8> {
        Vote::bytes_of(self)
    }
}

impl Vote {
    /// The bytes a signature commits to.
    pub fn sign_doc(&self) -> (doc: Vec<u8>)
        ensures
            doc@ == self.deep_view().document(),
    {
        self.to_bytes()
    }

    /// Sign this vote.
    pub fn sign(self, key: &SecretKey) -> (v: SignedVote)
        ensures
            v.vote == self,
            v.signature.0 == crate::crypto::keys::signature_of(
                key@,
                digest(Domain::VoteSignDoc, self.deep_view().document()).0@,
            ),
    {
        let doc = self.sign_doc();
        let signature = key.sign(Domain::VoteSignDoc, doc.as_slice());
        SignedVote { vote: self, signature }
    }
}

/// A vote with its signature.
#[derive(Debug, Clone, PartialEq, Eq)]
pub struct SignedVote {
    /// The vote.
    pub vote: Vote,
    /// Signature over [`Vote::sign_doc`].
    pub signature: Signature,
}

/// The mathematical view of a [`SignedVote`].
pub struct SignedVoteView {
    pub vote: VoteView,
    pub signature: Signature,
}

impl DeepView for SignedVote {
    type V = SignedVoteView;

    open spec fn deep_view(&self) -> SignedVoteView {
        SignedVoteView {
            vote: self.vote.deep_view(),
            signature: self.signature.deep_view(),
        }
    }
}

/// Two votes that are claimed to conflict.
#[derive(Debug, Clone, PartialEq, Eq)]
pub struct Equivocation {
    /// Who is accused.
    pub validator: Address,
    /// One of the votes.
    pub first: SignedVote,
    /// The other.
    pub second: SignedVote,
}

/// The mathematical view of a [`Equivocation`].
pub struct EquivocationView {
    pub validator: Address,
    pub first: SignedVoteView,
    pub second: SignedVoteView,
}

impl DeepView for Equivocation {
    type V = EquivocationView;

    open spec fn deep_view(&self) -> EquivocationView {
        EquivocationView {
            validator: self.validator.deep_view(),
            first: self.first.deep_view(),
            second: self.second.deep_view(),
        }
    }
}

/// A member of a validator set.
#[derive(Debug, Clone, Copy, PartialEq, Eq)]
pub struct Validator {
    /// The key it signs blocks with.
    pub public_key: PublicKey,
    /// How much its vote weighs.
    pub voting_power: u64,
    /// Where it is.
    pub country: CountryCode,
}

/// The mathematical view of a [`Validator`].
pub struct ValidatorView {
    pub public_key: Seq<u8>,
    pub voting_power: u64,
    pub country: Seq<u8>,
}

impl DeepView for Validator {
    type V = ValidatorView;

    open spec fn deep_view(&self) -> ValidatorView {
        ValidatorView {
            public_key: self.public_key.deep_view(),
            voting_power: self.voting_power.deep_view(),
            country: self.country.deep_view(),
        }
    }
}

impl ValidatorView {
    /// The address of the validator's consensus key.
    pub open spec fn address(self) -> Address {
        key_address(self.public_key)
    }
}

impl Validator {
    /// A validator with a key, a weight and a country.
    pub fn new(public_key: PublicKey, voting_power: u64, country: CountryCode) -> (v: Self)
        ensures
            v == (Validator { public_key, voting_power, country }),
    {
        Validator { public_key, voting_power, country }
    }

    /// The address of this validator's consensus key.
    pub fn address(&self) -> (a: Address)
        ensures
            a == self.deep_view().address(),
    {
        Address::from_public_key(&self.public_key)
    }
}

/// Why a validator set was refused.
#[derive(Debug, Clone, Copy, PartialEq, Eq, Structural)]
pub enum ValidatorSetError {
    /// Nobody is in it.
    Empty,
    /// A validator carries no power.
    ZeroPower,
    /// A validator appears twice.
    Repeated,
    /// The powers do not add up to a 64-bit number.
    TooMuchPower,
}

/// The validators that sign at a height.
#[derive(Debug, PartialEq, Eq)]
pub struct ValidatorSet {
    validators: Vec<Validator>,
}

impl View for ValidatorSet {
    type V = Seq<ValidatorView>;

    closed spec fn view(&self) -> Seq<ValidatorView> {
        self.validators.deep_view()
    }
}

impl Clone for ValidatorSet {
    fn clone(&self) -> (r: Self)
        ensures
            r@ == self@,
    {
        proof {
            use_type_invariant(self);
        }
        let mut validators: Vec<Validator> = Vec::new();
        let mut i: usize = 0;
        while i < self.validators.len()
            invariant
                i <= self.validators@.len(),
                validators@ =~= self.validators@.take(i as int),
            decreases self.validators@.len() - i,
        {
            validators.push(self.validators[i]);
            i += 1;
        }
        assert(validators@ =~= self.validators@);
        assert(validators.deep_view() =~= self.validators.deep_view());
        ValidatorSet { validators }
    }
}

/// The power of all the validators together.
pub open spec fn power_sum(validators: Seq<ValidatorView>) -> nat
    decreases validators.len(),
{
    if validators.len() == 0 {
        0
    } else {
        power_sum(validators.drop_last()) + validators.last().voting_power as nat
    }
}

/// The first rule that a list of validators breaks, if it breaks any.
pub open spec fn set_complaint(validators: Seq<ValidatorView>) -> Option<ValidatorSetError> {
    if validators.len() == 0 {
        Some(ValidatorSetError::Empty)
    } else if exists|i: int| 0 <= i < validators.len() && (#[trigger] validators[i]).voting_power
        == 0 {
        Some(ValidatorSetError::ZeroPower)
    } else if exists|i: int, j: int|
        0 <= i < j < validators.len() && (#[trigger] validators[i]).address() == (
        #[trigger] validators[j]).address() {
        Some(ValidatorSetError::Repeated)
    } else if power_sum(validators) > u64::MAX {
        Some(ValidatorSetError::TooMuchPower)
    } else {
        None
    }
}

/// The place of the first validator with an address; past the last one if there is
/// none.
pub open spec fn bench(validators: Seq<ValidatorView>, address: Address) -> nat
    decreases validators.len(),
{
    if validators.len() == 0 {
        0
    } else if validators[0].address() == address {
        0
    } else {
        1 + bench(validators.drop_first(), address)
    }
}

/// The validator with an address, if the set has one.
pub open spec fn validator_at(
    validators: Seq<ValidatorView>,
    address: Address,
) -> Option<ValidatorView> {
    let i = bench(validators, address);
    if i < validators.len() {
        Some(validators[i as int])
    } else {
        None
    }
}

/// Looking a validator up finds the one with the address, and none only where there is
/// none.
pub proof fn law_lookup_finds_the_validator(validators: Seq<ValidatorView>, address: Address)
    requires
        forall|i: int, j: int|
            0 <= i < j < validators.len() ==> (#[trigger] validators[i]).address() != (
            #[trigger] validators[j]).address(),
    ensures
        match validator_at(validators, address) {
            Some(v) => validators.contains(v) && v.address() == address && forall|i: int|
                0 <= i < validators.len() && (#[trigger] validators[i]).address() == address
                    ==> validators[i] == v,
            None => forall|i: int|
                0 <= i < validators.len() ==> (#[trigger] validators[i]).address() != address,
        },
    decreases validators.len(),
{
    lemma_bench_is_first(validators, address);
    let k = bench(validators, address) as int;
    if k < validators.len() {
        assert(validators.contains(validators[k]));
        assert forall|i: int| 0 <= i < validators.len() && (#[trigger] validators[i]).address()
            == address implies validators[i] == validators[k] by {
            if i < k {
                assert(validators[i].address() != validators[k].address());
            } else if k < i {
                assert(validators[k].address() != validators[i].address());
            }
        }
    }
}

proof fn lemma_bench_is_first(validators: Seq<ValidatorView>, address: Address)
    ensures
        bench(validators, address) <= validators.len(),
        bench(validators, address) < validators.len() ==> validators[bench(
            validators,
            address,
        ) as int].address() == address,
        forall|i: int|
            0 <= i < bench(validators, address) ==> (#[trigger] validators[i]).address()
                != address,
    decreases validators.len(),
{
    if validators.len() > 0 && validators[0].address() != address {
        let rest = validators.drop_first();
        lemma_bench_is_first(rest, address);
        assert forall|i: int| 0 <= i < bench(validators, address) implies (
        #[trigger] validators[i]).address() != address by {
            if i > 0 {
                assert(rest[i - 1] == validators[i]);
            }
        }
    }
}

proof fn lemma_power_sum_grows(validators: Seq<ValidatorView>, k: int)
    requires
        0 <= k <= validators.len(),
    ensures
        power_sum(validators.take(k)) <= power_sum(validators),
    decreases validators.len() - k,
{
    if k == validators.len() {
        assert(validators.take(k) =~= validators);
    } else {
        assert(validators.take(k + 1).drop_last() =~= validators.take(k));
        lemma_power_sum_grows(validators, k + 1);
    }
}

impl ValidatorSet {
    /// Every set obeys the rules.
    #[verifier::type_invariant]
    pub open spec fn well_formed(self) -> bool {
        set_complaint(self@) is None
    }

    /// Form a set, refusing one that could not finalise anything.
    pub fn new(validators: Vec<Validator>) -> (r: Result<Self, ValidatorSetError>)
        ensures
            match set_complaint(validators.deep_view()) {
                Some(e) => r == Err::<ValidatorSet, ValidatorSetError>(e),
                None => r matches Ok(set) && set@ == validators.deep_view(),
            },
    {
        let ghost all = validators.deep_view();
        if validators.len() == 0 {
            return Err(ValidatorSetError::Empty);
        }
        let mut i: usize = 0;
        while i < validators.len()
            invariant
                i <= validators@.len(),
                0 < validators@.len(),
                all == validators.deep_view(),
                forall|j: int| 0 <= j < i ==> (#[trigger] all[j]).voting_power != 0,
            decreases validators@.len() - i,
        {
            if validators[i].voting_power == 0 {
                assert(all[i as int].voting_power == 0);
                return Err(ValidatorSetError::ZeroPower);
            }
            i += 1;
        }
        let mut addresses: Vec<Address> = Vec::new();
        let mut n: usize = 0;
        while n < validators.len()
            invariant
                n <= validators@.len(),
                0 < validators@.len(),
                all == validators.deep_view(),
                addresses@.len() == n,
                forall|j: int| 0 <= j < all.len() ==> (#[trigger] all[j]).voting_power != 0,
                forall|j: int| 0 <= j < n ==> #[trigger] addresses@[j] == all[j].address(),
                forall|j: int, k: int|
                    0 <= j < k < n ==> (#[trigger] all[j]).address() != (
                    #[trigger] all[k]).address(),
            decreases validators@.len() - n,
        {
            let address = validators[n].address();
            assert(address == all[n as int].address());
            let mut k: usize = 0;
            while k < n
                invariant
                    k <= n < validators@.len(),
                    all == validators.deep_view(),
                    addresses@.len() == n,
                    address == all[n as int].address(),
                    forall|j: int| 0 <= j < all.len() ==> (#[trigger] all[j]).voting_power != 0,
                    forall|j: int| 0 <= j < n ==> #[trigger] addresses@[j] == all[j].address(),
                    forall|j: int| 0 <= j < k ==> (#[trigger] all[j]).address() != address,
                decreases n - k,
            {
                if addresses[k] == address {
                    assert(all[k as int].address() == all[n as int].address());
                    return Err(ValidatorSetError::Repeated);
                }
                k += 1;
            }
            addresses.push(address);
            n += 1;
        }
        let mut total: u64 = 0;
        let mut m: usize = 0;
        assert(all.take(0) =~= Seq::empty());
        while m < validators.len()
            invariant
                m <= validators@.len(),
                0 < validators@.len(),
                all == validators.deep_view(),
                total == power_sum(all.take(m as int)),
                forall|j: int| 0 <= j < all.len() ==> (#[trigger] all[j]).voting_power != 0,
                forall|j: int, k: int|
                    0 <= j < k < all.len() ==> (#[trigger] all[j]).address() != (
                    #[trigger] all[k]).address(),
            decreases validators@.len() - m,
        {
            proof {
                assert(all.take(m as int + 1).drop_last() =~= all.take(m as int));
                assert(all.take(m as int + 1).last() == all[m as int]);
                lemma_power_sum_grows(all, m as int + 1);
            }
            match total.checked_add(validators[m].voting_power) {
                Some(sum) => {
                    total = sum;
                },
                None => {
                    return Err(ValidatorSetError::TooMuchPower);
                },
            }
            m += 1;
        }
        assert(all.take(all.len() as int) =~= all);
        Ok(ValidatorSet { validators })
    }

    /// The validators, in order.
    pub fn validators(&self) -> (v: &[Validator])
        ensures
            v.deep_view() == self@,
    {
        let v = self.validators.as_slice();
        assert(v.deep_view() =~= self.validators.deep_view());
        v
    }

    /// The validator with an address, if it is in the set.
    pub fn get(&self, address: &Address) -> (v: Option<&Validator>)
        ensures
            match v {
                Some(v) => validator_at(self@, *address) == Some(v.deep_view()),
                None => validator_at(self@, *address) is None,
            },
    {
        let ghost all = self@;
        let mut i: usize = 0;
        assert(all.skip(0) =~= all);
        while i < self.validators.len()
            invariant
                i <= self.validators@.len(),
                all == self.validators.deep_view(),
                all == self@,
                bench(all, *address) == i + bench(all.skip(i as int), *address),
            decreases self.validators@.len() - i,
        {
            assert(all.skip(i as int)[0] == all[i as int]);
            assert(all.skip(i as int).drop_first() =~= all.skip(i as int + 1));
            if self.validators[i].address() == *address {
                return Some(&self.validators[i]);
            }
            i += 1;
        }
        assert(all.skip(all.len() as int).len() == 0);
        None
    }

    /// The power of the whole set.
    pub fn total_power(&self) -> (p: u64)
        ensures
            p == power_sum(self@),
    {
        proof {
            use_type_invariant(self);
        }
        let ghost all = self@;
        let mut total: u64 = 0;
        let mut i: usize = 0;
        assert(all.take(0) =~= Seq::empty());
        while i < self.validators.len()
            invariant
                i <= self.validators@.len(),
                all == self.validators.deep_view(),
                power_sum(all) <= u64::MAX,
                total == power_sum(all.take(i as int)),
            decreases self.validators@.len() - i,
        {
            proof {
                assert(all.take(i as int + 1).drop_last() =~= all.take(i as int));
                assert(all.take(i as int + 1).last() == all[i as int]);
                lemma_power_sum_grows(all, i as int + 1);
            }
            total += self.validators[i].voting_power;
            i += 1;
        }
        assert(all.take(all.len() as int) =~= all);
        total
    }

    /// The digest that commits to the set.
    pub fn hash(&self) -> (h: Hash32)
        ensures
            h == digest(Domain::ValidatorSet, Vec::<Validator>::bytes_of(self@)),
    {
        hash(Domain::ValidatorSet, self.validators.to_bytes().as_slice())
    }
}

/// Why a commit does not finalise a block.
#[derive(Debug, Clone, Copy, PartialEq, Eq, Structural)]
pub enum CommitError {
    /// A vote is not a precommit for this block, at this height and round.
    WrongVote,
    /// A vote is by somebody who is not in the set.
    UnknownValidator,
    /// A validator's vote appears twice.
    RepeatedVote,
    /// A vote is not signed by the validator it names.
    BadSignature,
    /// The votes do not carry more than two thirds of the power.
    NoQuorum {
        /// Power that voted.
        have: u64,
        /// Power of the whole set.
        total: u64,
    },
}

impl CommitError {
    /// The sentence that describes this error.
    pub open spec fn text(self) -> Seq<char> {
        match self {
            CommitError::WrongVote => "a vote is not a precommit for this block"@,
            CommitError::UnknownValidator => "a vote is by somebody outside the validator set"@,
            CommitError::RepeatedVote => "a validator's vote appears twice"@,
            CommitError::BadSignature => "a vote's signature does not verify"@,
            CommitError::NoQuorum { have, total } =>
                "voting power "@ + text::decimal(have as nat) + " of "@
                    + text::decimal(total as nat) + " is no quorum"@,
        }
    }

    /// The sentence that describes this error.
    pub fn to_string(&self) -> (s: String)
        ensures
            s@ == self.text(),
    {
        match self {
            CommitError::WrongVote => String::from_str("a vote is not a precommit for this block"),
            CommitError::UnknownValidator => String::from_str(
                "a vote is by somebody outside the validator set",
            ),
            CommitError::RepeatedVote => String::from_str("a validator's vote appears twice"),
            CommitError::BadSignature => String::from_str("a vote's signature does not verify"),
            CommitError::NoQuorum { have, total } => {
                let mut s = String::from_str("voting power ");
                s.append(text::decimal_text(*have as u128).as_str());
                s.append(" of ");
                s.append(text::decimal_text(*total as u128).as_str());
                s.append(" is no quorum");
                s
            },
        }
    }
}

/// The precommits that finalise a block.
#[derive(Debug, Clone, PartialEq, Eq)]
pub struct Commit {
    /// The height finalised.
    pub height: Height,
    /// The round it was finalised in.
    pub round: Round,
    /// The block finalised.
    pub block_id: Hash32,
    /// The precommits.
    pub signatures: Vec<SignedVote>,
}

/// The mathematical view of a [`Commit`].
pub struct CommitView {
    pub height: Height,
    pub round: Round,
    pub block_id: Hash32,
    pub signatures: Seq<SignedVoteView>,
}

impl DeepView for Commit {
    type V = CommitView;

    open spec fn deep_view(&self) -> CommitView {
        CommitView {
            height: self.height.deep_view(),
            round: self.round.deep_view(),
            block_id: self.block_id.deep_view(),
            signatures: self.signatures.deep_view(),
        }
    }
}

impl CommitView {
    /// Whether a vote is a precommit for this block on the given chain.
    pub open spec fn counts(self, chain_id: Seq<char>, vote: VoteView) -> bool {
        &&& vote.chain_id == chain_id
        &&& vote.height == self.height
        &&& vote.round == self.round
        &&& vote.vote_type == VoteType::Precommit
        &&& vote.block_id == Some(self.block_id)
    }

    /// The power behind the first `n` votes, or the first fault among them.
    pub open spec fn tally(
        self,
        chain_id: Seq<char>,
        set: Seq<ValidatorView>,
        n: nat,
    ) -> Result<nat, CommitError>
        decreases n,
    {
        if n == 0 {
            Ok(0)
        } else {
            match self.tally(chain_id, set, (n - 1) as nat) {
                Err(e) => Err(e),
                Ok(sum) => {
                    let signed = self.signatures[n - 1];
                    if !self.counts(chain_id, signed.vote) {
                        Err(CommitError::WrongVote)
                    } else {
                        match validator_at(set, signed.vote.validator) {
                            None => Err(CommitError::UnknownValidator),
                            Some(v) => if exists|j: int|
                                0 <= j < n - 1 && (#[trigger] self.signatures[j]).vote.validator
                                    == signed.vote.validator {
                                Err(CommitError::RepeatedVote)
                            } else if !signed_by(
                                v.public_key,
                                Domain::VoteSignDoc,
                                signed.vote.document(),
                                signed.signature,
                            ) {
                                Err(CommitError::BadSignature)
                            } else {
                                Ok(sum + v.voting_power as nat)
                            },
                        }
                    }
                },
            }
        }
    }

    /// Why this commit does not finalise its block under a set, if it does not.
    pub open spec fn fault(
        self,
        chain_id: Seq<char>,
        set: Seq<ValidatorView>,
    ) -> Option<CommitError> {
        match self.tally(chain_id, set, self.signatures.len()) {
            Err(e) => Some(e),
            Ok(have) => if 3 * have > 2 * power_sum(set) {
                None
            } else {
                Some(CommitError::NoQuorum { have: have as u64, total: power_sum(set) as u64 })
            },
        }
    }
}

/// The power of the validators whose place is in a set of places.
pub open spec fn power_at(set: Seq<ValidatorView>, places: Set<int>) -> nat
    decreases set.len(),
{
    if set.len() == 0 {
        0
    } else {
        let last = set.len() - 1;
        power_at(set.drop_last(), places) + if places.contains(last as int) {
            set.last().voting_power as nat
        } else {
            0nat
        }
    }
}

proof fn lemma_power_at_is_bounded(set: Seq<ValidatorView>, places: Set<int>)
    ensures
        power_at(set, places) <= power_sum(set),
    decreases set.len(),
{
    if set.len() > 0 {
        lemma_power_at_is_bounded(set.drop_last(), places);
    }
}

proof fn lemma_power_at_insert(set: Seq<ValidatorView>, places: Set<int>, i: int)
    requires
        !places.contains(i),
    ensures
        0 <= i < set.len() ==> power_at(set, places.insert(i)) == power_at(set, places)
            + set[i].voting_power,
        !(0 <= i < set.len()) ==> power_at(set, places.insert(i)) == power_at(set, places),
    decreases set.len(),
{
    if set.len() > 0 {
        lemma_power_at_insert(set.drop_last(), places, i);
    }
}

proof fn lemma_bench(set: Seq<ValidatorView>, address: Address)
    ensures
        bench(set, address) <= set.len(),
        bench(set, address) < set.len() ==> set[bench(set, address) as int].address() == address,
    decreases set.len(),
{
    if set.len() > 0 && set[0].address() != address {
        lemma_bench(set.drop_first(), address);
    }
}

/// The places of the validators whose votes are among the first `n`.
pub open spec fn voters(c: CommitView, set: Seq<ValidatorView>, n: nat) -> Set<int> {
    Set::new(
        |i: int|
            exists|j: int|
                0 <= j < n && bench(set, (#[trigger] c.signatures[j]).vote.validator) == i,
    )
}

proof fn lemma_tally(c: CommitView, chain_id: Seq<char>, set: Seq<ValidatorView>, n: nat)
    requires
        n <= c.signatures.len(),
        c.tally(chain_id, set, n) is Ok,
    ensures
        c.tally(chain_id, set, n)->Ok_0 == power_at(set, voters(c, set, n)),
        c.tally(chain_id, set, n)->Ok_0 <= power_sum(set),
    decreases n,
{
    if n == 0 {
        assert(voters(c, set, 0) =~= Set::empty());
        lemma_power_at_empty(set);
    } else {
        let m = (n - 1) as nat;
        lemma_tally(c, chain_id, set, m);
        let who = c.signatures[n - 1].vote.validator;
        let i = bench(set, who) as int;
        lemma_bench(set, who);
        if voters(c, set, m).contains(i) {
            let j = choose|j: int|
                0 <= j < m && bench(set, (#[trigger] c.signatures[j]).vote.validator) == i;
            lemma_bench(set, c.signatures[j].vote.validator);
            assert(c.signatures[j].vote.validator == who);
        }
        assert(voters(c, set, n) =~= voters(c, set, m).insert(i)) by {
            assert forall|k: int| voters(c, set, n).contains(k) implies voters(
                c,
                set,
                m,
            ).insert(i).contains(k) by {
                let j = choose|j: int|
                    0 <= j < n && bench(set, (#[trigger] c.signatures[j]).vote.validator) == k;
                if j < m {
                    assert(voters(c, set, m).contains(k));
                }
            }
            assert forall|k: int| voters(c, set, m).insert(i).contains(k) implies voters(
                c,
                set,
                n,
            ).contains(k) by {
                if k == i {
                    assert(bench(set, c.signatures[n - 1].vote.validator) == k);
                } else {
                    let j = choose|j: int|
                        0 <= j < m && bench(set, (#[trigger] c.signatures[j]).vote.validator) == k;
                    assert(bench(set, c.signatures[j].vote.validator) == k);
                }
            }
        }
        lemma_power_at_insert(set, voters(c, set, m), i);
    }
    lemma_power_at_is_bounded(set, voters(c, set, n));
}

proof fn lemma_power_at_empty(set: Seq<ValidatorView>)
    ensures
        power_at(set, Set::empty()) == 0,
    decreases set.len(),
{
    if set.len() > 0 {
        lemma_power_at_empty(set.drop_last());
    }
}

proof fn lemma_fault_stays(c: CommitView, chain_id: Seq<char>, set: Seq<ValidatorView>, n: nat)
    requires
        n <= c.signatures.len(),
        c.tally(chain_id, set, n) is Err,
    ensures
        c.tally(chain_id, set, c.signatures.len()) == c.tally(chain_id, set, n),
    decreases c.signatures.len() - n,
{
    if n < c.signatures.len() {
        lemma_fault_stays(c, chain_id, set, n + 1);
    }
}

/// A quorum is a quorum of the set: what a verified commit carries is the power of
/// distinct validators, more than two thirds of it.
pub proof fn law_commits_carry_a_quorum(
    c: CommitView,
    chain_id: Seq<char>,
    set: Seq<ValidatorView>,
)
    requires
        c.fault(chain_id, set) is None,
    ensures
        3 * power_at(set, voters(c, set, c.signatures.len())) > 2 * power_sum(set),
{
    lemma_tally(c, chain_id, set, c.signatures.len());
}

proof fn lemma_power_is_the_sum(set: Seq<ValidatorView>)
    ensures
        power_sum(set) == set.fold_left(0int, |t: int, v: ValidatorView| t + v.voting_power),
    decreases set.len(),
{
    if set.len() > 0 {
        lemma_power_is_the_sum(set.drop_last());
    }
}

/// When validators make a set: there is one, each has some power, no two have one
/// address, and their power together fits in sixty-four bits. The first of these that
/// fails, in that order, is the error.
pub proof fn law_when_validators_make_a_set(set: Seq<ValidatorView>)
    ensures
        ({
            let sum = set.fold_left(0int, |t: int, v: ValidatorView| t + v.voting_power);
            let powerful = forall|i: int|
                0 <= i < set.len() ==> (#[trigger] set[i]).voting_power > 0;
            let apart = forall|i: int, j: int|
                0 <= i < j < set.len() ==> key_address((#[trigger] set[i]).public_key)
                    != key_address((#[trigger] set[j]).public_key);
            set_complaint(set) == if set.len() == 0 {
                Some(ValidatorSetError::Empty)
            } else if !powerful {
                Some(ValidatorSetError::ZeroPower)
            } else if !apart {
                Some(ValidatorSetError::Repeated)
            } else if sum > u64::MAX {
                Some(ValidatorSetError::TooMuchPower)
            } else {
                None
            }
        }),
{
    lemma_power_is_the_sum(set);
    let powerless = exists|i: int| 0 <= i < set.len() && (#[trigger] set[i]).voting_power == 0;
    let powerful = forall|i: int| 0 <= i < set.len() ==> (#[trigger] set[i]).voting_power > 0;
    assert(powerful <==> !powerless) by {
        if powerless {
            let i = choose|i: int| 0 <= i < set.len() && (#[trigger] set[i]).voting_power == 0;
            assert(set[i].voting_power == 0);
        }
    }
    let repeated = exists|i: int, j: int|
        0 <= i < j < set.len() && (#[trigger] set[i]).address() == (#[trigger] set[j]).address();
    let apart = forall|i: int, j: int|
        0 <= i < j < set.len() ==> key_address((#[trigger] set[i]).public_key) != key_address(
            (#[trigger] set[j]).public_key,
        );
    assert(apart <==> !repeated) by {
        if repeated {
            let (i, j) = choose|i: int, j: int|
                0 <= i < j < set.len() && (#[trigger] set[i]).address() == (
                #[trigger] set[j]).address();
            assert(key_address(set[i].public_key) == key_address(set[j].public_key));
        } else {
            assert forall|i: int, j: int| 0 <= i < j < set.len() implies key_address(
                (#[trigger] set[i]).public_key,
            ) != key_address((#[trigger] set[j]).public_key) by {
                assert(set[i].address() != set[j].address());
            }
        }
    }
}

/// How a commit's votes are weighed, one after another: a vote counts for the chain,
/// the height, the round and the block of the commit, and must be a precommit; its
/// author is in the set and has not voted before; and it is signed with the author's
/// key. Each that counts adds its author's power. The first that does not count, and
/// the first thing wrong with it, in that order, is the error.
pub proof fn law_how_votes_are_weighed(
    c: CommitView,
    chain_id: Seq<char>,
    set: Seq<ValidatorView>,
    n: nat,
)
    requires
        n < c.signatures.len(),
    ensures
        c.tally(chain_id, set, 0) == Ok::<nat, CommitError>(0),
        ({
            let vote = c.signatures[n as int].vote;
            let author = validator_at(set, vote.validator);
            let wanted = vote.chain_id == chain_id && vote.height == c.height && vote.round
                == c.round && vote.vote_type == VoteType::Precommit && vote.block_id == Some(
                c.block_id,
            );
            let again = exists|j: int|
                0 <= j < n && (#[trigger] c.signatures[j]).vote.validator == vote.validator;
            c.tally(chain_id, set, n + 1) == if c.tally(chain_id, set, n) is Err {
                c.tally(chain_id, set, n)
            } else if !wanted {
                Err(CommitError::WrongVote)
            } else if author is None {
                Err(CommitError::UnknownValidator)
            } else if again {
                Err(CommitError::RepeatedVote)
            } else if !signed_by(
                author->0.public_key,
                Domain::VoteSignDoc,
                Vote::bytes_of(vote),
                c.signatures[n as int].signature,
            ) {
                Err(CommitError::BadSignature)
            } else {
                Ok(c.tally(chain_id, set, n)->Ok_0 + author->0.voting_power as nat)
            }
        }),
{
}

spec fn power_voting(c: CommitView, set: Seq<ValidatorView>, n: nat) -> int {
    c.signatures.take(n as int).fold_left(
        0int,
        |t: int, s: SignedVoteView| t + validator_at(set, s.vote.validator)->0.voting_power,
    )
}

spec fn vote_holds(
    c: CommitView,
    chain_id: Seq<char>,
    set: Seq<ValidatorView>,
    s: SignedVoteView,
) -> bool {
    let vote = s.vote;
    &&& vote.chain_id == chain_id
    &&& vote.height == c.height
    &&& vote.round == c.round
    &&& vote.vote_type == VoteType::Precommit
    &&& vote.block_id == Some(c.block_id)
    &&& validator_at(set, vote.validator) matches Some(v) && signed_by(
        v.public_key,
        Domain::VoteSignDoc,
        Vote::bytes_of(vote),
        s.signature,
    )
}

proof fn lemma_what_the_votes_weigh(
    c: CommitView,
    chain_id: Seq<char>,
    set: Seq<ValidatorView>,
    n: nat,
)
    requires
        n <= c.signatures.len(),
    ensures
        c.tally(chain_id, set, n) is Ok <==> {
            &&& forall|i: int|
                0 <= i < n ==> vote_holds(c, chain_id, set, #[trigger] c.signatures[i])
            &&& forall|i: int, j: int|
                0 <= i < j < n ==> (#[trigger] c.signatures[i]).vote.validator != (
                #[trigger] c.signatures[j]).vote.validator
        },
        c.tally(chain_id, set, n) is Ok ==> c.tally(chain_id, set, n)->Ok_0 == power_voting(
            c,
            set,
            n,
        ),
    decreases n,
{
    if n > 0 {
        let m = (n - 1) as nat;
        lemma_what_the_votes_weigh(c, chain_id, set, m);
        assert(c.signatures.take(n as int).drop_last() =~= c.signatures.take(m as int));
        assert(c.signatures.take(n as int).last() == c.signatures[m as int]);
        let last = c.signatures[m as int];
        if c.tally(chain_id, set, n) is Ok {
            assert(vote_holds(c, chain_id, set, last));
            assert forall|i: int, j: int| 0 <= i < j < n implies (
            #[trigger] c.signatures[i]).vote.validator != (
            #[trigger] c.signatures[j]).vote.validator by {
                if j == m {
                    assert(c.signatures[i].vote.validator != last.vote.validator);
                }
            }
        }
        if c.tally(chain_id, set, m) is Ok && vote_holds(c, chain_id, set, last) && (forall|
            i: int,
            j: int,
        |
            0 <= i < j < n ==> (#[trigger] c.signatures[i]).vote.validator != (
            #[trigger] c.signatures[j]).vote.validator) {
            assert forall|j: int| 0 <= j < n - 1 implies (
            #[trigger] c.signatures[j]).vote.validator != last.vote.validator by {
                assert(c.signatures[j].vote.validator != c.signatures[m as int].vote.validator);
            }
        }
    }
}

/// When a commit holds: every vote in it is a precommit of the chain for its height,
/// its round and its block, by a validator of the set and signed with that validator's
/// key; no validator votes twice; and those who voted have more than two thirds of the
/// power of the set.
pub proof fn law_when_a_commit_holds(c: CommitView, chain_id: Seq<char>, set: Seq<ValidatorView>)
    ensures
        c.fault(chain_id, set) is None <==> {
            let have = c.signatures.fold_left(
                0int,
                |t: int, s: SignedVoteView| t + validator_at(set, s.vote.validator)->0.voting_power,
            );
            let total = set.fold_left(0int, |t: int, v: ValidatorView| t + v.voting_power);
            &&& forall|i: int|
                0 <= i < c.signatures.len() ==> {
                    let s = #[trigger] c.signatures[i];
                    &&& s.vote.chain_id == chain_id
                    &&& s.vote.height == c.height
                    &&& s.vote.round == c.round
                    &&& s.vote.vote_type == VoteType::Precommit
                    &&& s.vote.block_id == Some(c.block_id)
                    &&& validator_at(set, s.vote.validator) matches Some(v) && signed_by(
                        v.public_key,
                        Domain::VoteSignDoc,
                        Vote::bytes_of(s.vote),
                        s.signature,
                    )
                }
            &&& forall|i: int, j: int|
                0 <= i < j < c.signatures.len() ==> (#[trigger] c.signatures[i]).vote.validator
                    != (#[trigger] c.signatures[j]).vote.validator
            &&& 3 * have > 2 * total
        },
        c.fault(chain_id, set) matches Some(CommitError::NoQuorum { have, total }) ==> {
            let sum = set.fold_left(0int, |t: int, v: ValidatorView| t + v.voting_power);
            &&& sum <= u64::MAX ==> total == sum
            &&& c.tally(chain_id, set, c.signatures.len()) matches Ok(n) && (n <= u64::MAX ==> have
                == n)
        },
        c.tally(chain_id, set, c.signatures.len()) matches Err(e) ==> c.fault(chain_id, set)
            == Some(e),
{
    lemma_power_is_the_sum(set);
    lemma_what_the_votes_weigh(c, chain_id, set, c.signatures.len());
    assert(c.signatures.take(c.signatures.len() as int) =~= c.signatures);
    lemma_tally_is_no_quorum_error(c, chain_id, set, c.signatures.len());
}

/// Weighing the votes never ends in a want of power: that is only found at the end.
proof fn lemma_tally_is_no_quorum_error(
    c: CommitView,
    chain_id: Seq<char>,
    set: Seq<ValidatorView>,
    n: nat,
)
    ensures
        c.tally(chain_id, set, n) matches Err(e) ==> !(e is NoQuorum),
    decreases n,
{
    if n > 0 {
        lemma_tally_is_no_quorum_error(c, chain_id, set, (n - 1) as nat);
    }
}

impl Commit {
    /// A commit for a block.
    pub fn new(height: Height, round: Round, block_id: Hash32, signatures: Vec<SignedVote>) -> (c:
        Self)
        ensures
            c == (Commit { height, round, block_id, signatures }),
    {
        Commit { height, round, block_id, signatures }
    }

    /// Check that the votes are genuine and carry more than two thirds of the power.
    pub fn verify(&self, chain_id: &ChainId, validators: &ValidatorSet) -> (r: Result<
        (),
        CommitError,
    >)
        ensures
            match self.deep_view().fault(chain_id@, validators@) {
                None => r == Ok::<(), CommitError>(()),
                Some(e) => r == Err::<(), CommitError>(e),
            },
    {
        let ghost c = self.deep_view();
        let ghost set = validators@;
        let total: u64 = validators.total_power();
        let mut have: u64 = 0;
        let mut i: usize = 0;
        while i < self.signatures.len()
            invariant
                i <= self.signatures@.len(),
                c == self.deep_view(),
                set == validators@,
                c.signatures.len() == self.signatures@.len(),
                total == power_sum(set),
                c.tally(chain_id@, set, i as nat) == Ok::<nat, CommitError>(have as nat),
            decreases self.signatures@.len() - i,
        {
            let signed = &self.signatures[i];
            assert(signed.deep_view() == c.signatures[i as int]);
            let fault: Option<CommitError> = match self.weigh(i, chain_id, validators) {
                Ok(power) => {
                    proof {
                        lemma_tally(c, chain_id@, set, (i + 1) as nat);
                    }
                    have += power;
                    None
                },
                Err(e) => Some(e),
            };
            if let Some(e) = fault {
                proof {
                    lemma_fault_stays(c, chain_id@, set, (i + 1) as nat);
                }
                return Err(e);
            }
            i += 1;
        }
        if 3 * (have as u128) > 2 * (total as u128) {
            Ok(())
        } else {
            Err(CommitError::NoQuorum { have, total })
        }
    }

    /// The power that one vote adds, given that those before it are sound.
    fn weigh(&self, i: usize, chain_id: &ChainId, validators: &ValidatorSet) -> (r: Result<
        u64,
        CommitError,
    >)
        requires
            i < self.deep_view().signatures.len(),
            self.deep_view().tally(chain_id@, validators@, i as nat) is Ok,
        ensures
            match r {
                Ok(p) => self.deep_view().tally(chain_id@, validators@, (i + 1) as nat) == Ok::<
                    nat,
                    CommitError,
                >(self.deep_view().tally(chain_id@, validators@, i as nat)->Ok_0 + p as nat),
                Err(e) => self.deep_view().tally(chain_id@, validators@, (i + 1) as nat) == Err::<
                    nat,
                    CommitError,
                >(e),
            },
    {
        let ghost c = self.deep_view();
        let signed = &self.signatures[i];
        assert(signed.deep_view() == c.signatures[i as int]);
        let vote = &signed.vote;
        let same_block = match &vote.block_id {
            Some(id) => id.same(&self.block_id),
            None => false,
        };
        if vote.chain_id != *chain_id || vote.height != self.height || vote.round != self.round
            || vote.vote_type != VoteType::Precommit || !same_block {
            return Err(CommitError::WrongVote);
        }
        let validator = match validators.get(&vote.validator) {
            Some(v) => v,
            None => {
                return Err(CommitError::UnknownValidator);
            },
        };
        let mut j: usize = 0;
        while j < i
            invariant
                j <= i < self.signatures@.len(),
                c == self.deep_view(),
                vote.validator == c.signatures[i as int].vote.validator,
                c.counts(chain_id@, c.signatures[i as int].vote),
                c.tally(chain_id@, validators@, i as nat) is Ok,
                validator_at(validators@, vote.validator) is Some,
                forall|k: int|
                    0 <= k < j ==> (#[trigger] c.signatures[k]).vote.validator != vote.validator,
            decreases i - j,
        {
            assert(self.signatures@[j as int].deep_view() == c.signatures[j as int]);
            if self.signatures[j].vote.validator == vote.validator {
                return Err(CommitError::RepeatedVote);
            }
            j += 1;
        }
        let doc = vote.sign_doc();
        match validator.public_key.verify(Domain::VoteSignDoc, doc.as_slice(), &signed.signature) {
            Ok(()) => Ok(validator.voting_power),
            Err(_) => Err(CommitError::BadSignature),
        }
    }
}

// ---------------------------------------------------------------------------
// Canonical encoding
// ---------------------------------------------------------------------------

impl Encode for VoteType {
    open spec fn bytes_of(v: VoteType) -> Seq<u8> {
        match v {
            VoteType::Prevote => u8::bytes_of(0),
            VoteType::Precommit => u8::bytes_of(1),
        }
    }

    fn encode(&self, out: &mut Vec<u8>) {
        match self {
            VoteType::Prevote => 0u8.encode(out),
            VoteType::Precommit => 1u8.encode(out),
        }
    }
}

impl Decode for VoteType {
    open spec fn parse(s: Seq<u8>) -> Parsed<VoteType> {
        u8::parse(s).and_then(
            |tag: u8, rest: Seq<u8>|
                if tag == 0 {
                    Parsed { value: Ok(VoteType::Prevote), rest }
                } else if tag == 1 {
                    Parsed { value: Ok(VoteType::Precommit), rest }
                } else {
                    fault(CodecFault::UnknownDiscriminant { tag, what: "VoteType"@ }, rest)
                },
        )
    }

    fn decode(r: &mut Reader<'_>) -> (res: Result<Self, CodecError>) {
        let tag: u8 = u8::decode(r)?;
        match tag {
            0 => Ok(VoteType::Prevote),
            1 => Ok(VoteType::Precommit),
            _ => Err(CodecError::UnknownDiscriminant { tag, what: "VoteType" }),
        }
    }
}

impl Canonical for VoteType {
    open spec fn valid(v: VoteType) -> bool {
        match v {
            VoteType::Prevote => true,
            VoteType::Precommit => true,
        }
    }

    proof fn round_trip(v: VoteType, tail: Seq<u8>) {
        match v {
            VoteType::Prevote => {
                u8::round_trip(0, tail);
            },
            VoteType::Precommit => {
                u8::round_trip(1, tail);
            },
        }
    }

    proof fn one_encoding(s: Seq<u8>) {
        u8::one_encoding(s);
    }
}

impl Encode for Vote {
    open spec fn bytes_of(v: VoteView) -> Seq<u8> {
        <(ChainId, (Height, (Round, (VoteType, (Option<Hash32>, Address)))))>::bytes_of(
            (v.chain_id, (v.height, (v.round, (v.vote_type, (v.block_id, v.validator)))))
        )
    }

    fn encode(&self, out: &mut Vec<u8>) {
        broadcast use wire::lemma_concat_assoc;

        self.chain_id.encode(out);
        self.height.encode(out);
        self.round.encode(out);
        self.vote_type.encode(out);
        self.block_id.encode(out);
        self.validator.encode(out);
    }
}

impl Decode for Vote {
    open spec fn parse(s: Seq<u8>) -> Parsed<VoteView> {
        <(ChainId, (Height, (Round, (VoteType, (Option<Hash32>, Address)))))>::parse(s).map(
            |t: (Seq<char>, (Height, (Round, (VoteType, (Option<Hash32>, Address)))))|
                VoteView {
                    chain_id: t.0,
                    height: t.1.0,
                    round: t.1.1.0,
                    vote_type: t.1.1.1.0,
                    block_id: t.1.1.1.1.0,
                    validator: t.1.1.1.1.1,
                },
        )
    }

    fn decode(r: &mut Reader<'_>) -> (res: Result<Self, CodecError>) {
        let chain_id = ChainId::decode(r)?;
        let height = Height::decode(r)?;
        let round = Round::decode(r)?;
        let vote_type = VoteType::decode(r)?;
        let block_id = Option::<Hash32>::decode(r)?;
        let validator = Address::decode(r)?;
        Ok(Vote { chain_id, height, round, vote_type, block_id, validator })
    }
}

impl Canonical for Vote {
    open spec fn valid(v: VoteView) -> bool {
        <(ChainId, (Height, (Round, (VoteType, (Option<Hash32>, Address)))))>::valid(
            (v.chain_id, (v.height, (v.round, (v.vote_type, (v.block_id, v.validator)))))
        )
    }

    proof fn round_trip(v: VoteView, tail: Seq<u8>) {
        <(ChainId, (Height, (Round, (VoteType, (Option<Hash32>, Address)))))>::round_trip(
            (v.chain_id, (v.height, (v.round, (v.vote_type, (v.block_id, v.validator))))),
            tail,
        );
    }

    proof fn one_encoding(s: Seq<u8>) {
        <(ChainId, (Height, (Round, (VoteType, (Option<Hash32>, Address)))))>::one_encoding(s);
    }
}

/// The bytes of a signed vote.
#[verifier::opaque]
pub open spec fn signed_vote_bytes(v: SignedVoteView) -> Seq<u8> {
    <(Vote, Signature)>::bytes_of((v.vote, v.signature))
}

/// Reading a signed vote.
#[verifier::opaque]
pub open spec fn parse_signed_vote(s: Seq<u8>) -> Parsed<SignedVoteView> {
    <(Vote, Signature)>::parse(s).map(
        |t: (VoteView, Signature)| SignedVoteView { vote: t.0, signature: t.1 },
    )
}

/// Whether the wire format admits a signed vote.
#[verifier::opaque]
pub open spec fn signed_vote_valid(v: SignedVoteView) -> bool {
    <(Vote, Signature)>::valid((v.vote, v.signature))
}

impl Encode for SignedVote {
    open spec fn bytes_of(v: SignedVoteView) -> Seq<u8> {
        signed_vote_bytes(v)
    }

    fn encode(&self, out: &mut Vec<u8>) {
        broadcast use wire::lemma_concat_assoc;

        reveal(signed_vote_bytes);
        self.vote.encode(out);
        self.signature.encode(out);
    }
}

impl Decode for SignedVote {
    open spec fn parse(s: Seq<u8>) -> Parsed<SignedVoteView> {
        parse_signed_vote(s)
    }

    fn decode(r: &mut Reader<'_>) -> (res: Result<Self, CodecError>) {
        reveal(parse_signed_vote);
        let vote = Vote::decode(r)?;
        let signature = Signature::decode(r)?;
        Ok(SignedVote { vote, signature })
    }
}

impl Canonical for SignedVote {
    open spec fn valid(v: SignedVoteView) -> bool {
        signed_vote_valid(v)
    }

    proof fn round_trip(v: SignedVoteView, tail: Seq<u8>) {
        reveal(signed_vote_bytes);
        reveal(parse_signed_vote);
        reveal(signed_vote_valid);
        <(Vote, Signature)>::round_trip((v.vote, v.signature), tail);
    }

    proof fn one_encoding(s: Seq<u8>) {
        reveal(signed_vote_bytes);
        reveal(parse_signed_vote);
        reveal(signed_vote_valid);
        <(Vote, Signature)>::one_encoding(s);
    }
}

impl Encode for Equivocation {
    open spec fn bytes_of(v: EquivocationView) -> Seq<u8> {
        <(Address, (SignedVote, SignedVote))>::bytes_of((v.validator, (v.first, v.second)))
    }

    fn encode(&self, out: &mut Vec<u8>) {
        broadcast use wire::lemma_concat_assoc;

        self.validator.encode(out);
        self.first.encode(out);
        self.second.encode(out);
    }
}

impl Decode for Equivocation {
    open spec fn parse(s: Seq<u8>) -> Parsed<EquivocationView> {
        <(Address, (SignedVote, SignedVote))>::parse(s).map(
            |t: (Address, (SignedVoteView, SignedVoteView))|
                EquivocationView { validator: t.0, first: t.1.0, second: t.1.1 },
        )
    }

    fn decode(r: &mut Reader<'_>) -> (res: Result<Self, CodecError>) {
        let validator = Address::decode(r)?;
        let first = SignedVote::decode(r)?;
        let second = SignedVote::decode(r)?;
        Ok(Equivocation { validator, first, second })
    }
}

impl Canonical for Equivocation {
    open spec fn valid(v: EquivocationView) -> bool {
        <(Address, (SignedVote, SignedVote))>::valid((v.validator, (v.first, v.second)))
    }

    proof fn round_trip(v: EquivocationView, tail: Seq<u8>) {
        <(Address, (SignedVote, SignedVote))>::round_trip((v.validator, (v.first, v.second)), tail);
    }

    proof fn one_encoding(s: Seq<u8>) {
        <(Address, (SignedVote, SignedVote))>::one_encoding(s);
    }
}

impl Encode for Validator {
    open spec fn bytes_of(v: ValidatorView) -> Seq<u8> {
        <(PublicKey, (u64, CountryCode))>::bytes_of((v.public_key, (v.voting_power, v.country)))
    }

    fn encode(&self, out: &mut Vec<u8>) {
        broadcast use wire::lemma_concat_assoc;

        self.public_key.encode(out);
        self.voting_power.encode(out);
        self.country.encode(out);
    }
}

impl Decode for Validator {
    open spec fn parse(s: Seq<u8>) -> Parsed<ValidatorView> {
        <(PublicKey, (u64, CountryCode))>::parse(s).map(
            |t: (Seq<u8>, (u64, Seq<u8>))|
                ValidatorView { public_key: t.0, voting_power: t.1.0, country: t.1.1 },
        )
    }

    fn decode(r: &mut Reader<'_>) -> (res: Result<Self, CodecError>) {
        let public_key = PublicKey::decode(r)?;
        let voting_power: u64 = u64::decode(r)?;
        let country = CountryCode::decode(r)?;
        Ok(Validator { public_key, voting_power, country })
    }
}

impl Canonical for Validator {
    open spec fn valid(v: ValidatorView) -> bool {
        <(PublicKey, (u64, CountryCode))>::valid((v.public_key, (v.voting_power, v.country)))
    }

    proof fn round_trip(v: ValidatorView, tail: Seq<u8>) {
        <(PublicKey, (u64, CountryCode))>::round_trip(
            (v.public_key, (v.voting_power, v.country)),
            tail,
        );
    }

    proof fn one_encoding(s: Seq<u8>) {
        <(PublicKey, (u64, CountryCode))>::one_encoding(s);
    }
}

impl Encode for Commit {
    open spec fn bytes_of(v: CommitView) -> Seq<u8> {
        <(Height, (Round, (Hash32, Vec<SignedVote>)))>::bytes_of(
            (v.height, (v.round, (v.block_id, v.signatures)))
        )
    }

    fn encode(&self, out: &mut Vec<u8>) {
        broadcast use wire::lemma_concat_assoc;

        self.height.encode(out);
        self.round.encode(out);
        self.block_id.encode(out);
        self.signatures.encode(out);
    }
}

impl Decode for Commit {
    open spec fn parse(s: Seq<u8>) -> Parsed<CommitView> {
        <(Height, (Round, (Hash32, Vec<SignedVote>)))>::parse(s).map(
            |t: (Height, (Round, (Hash32, Seq<SignedVoteView>)))|
                CommitView { height: t.0, round: t.1.0, block_id: t.1.1.0, signatures: t.1.1.1 },
        )
    }

    fn decode(r: &mut Reader<'_>) -> (res: Result<Self, CodecError>) {
        let height = Height::decode(r)?;
        let round = Round::decode(r)?;
        let block_id = Hash32::decode(r)?;
        let signatures = Vec::<SignedVote>::decode(r)?;
        Ok(Commit { height, round, block_id, signatures })
    }
}

impl Canonical for Commit {
    open spec fn valid(v: CommitView) -> bool {
        <(Height, (Round, (Hash32, Vec<SignedVote>)))>::valid(
            (v.height, (v.round, (v.block_id, v.signatures)))
        )
    }

    proof fn round_trip(v: CommitView, tail: Seq<u8>) {
        <(Height, (Round, (Hash32, Vec<SignedVote>)))>::round_trip(
            (v.height, (v.round, (v.block_id, v.signatures))),
            tail,
        );
    }

    proof fn one_encoding(s: Seq<u8>) {
        <(Height, (Round, (Hash32, Vec<SignedVote>)))>::one_encoding(s);
    }
}

} // verus!
