//! Group accounts: chama, susu, stokvel, tontine, equb, ajo, VSLA.
//!
//! A savings group has a contribution schedule, a rotation order, a treasurer and
//! a member-by-member record of who paid on time. That record is the portable
//! credit signal, so every rule here guards it: one contribution per member per
//! cycle, one missed mark for each cycle that closes unpaid.

use crate::crypto::address::Address;
use crate::primitives::amount::Amount;
use crate::primitives::codec::{
    fault, Canonical, CodecError, CodecFault, Decode, Encode, Parsed, Reader,
};
use crate::primitives::denom::Denom;
use crate::primitives::ids::Height;
use crate::primitives::text;
use crate::primitives::wire;
use vstd::prelude::*;
use vstd::utf8::encode_utf8;

verus! {

/// The fields of a [`GroupAccount`], as they follow each other on the wire.
type GroupFields = (String, (Vec<Member>, (Contribution, (PayoutPolicy, (Quorum, (u64, Height))))));

/// Most members one group may hold.
///
/// A bound rather than a preference: every founding member is filed in the
/// transaction's touched addresses, and being filed creates an account record.
pub const MAX_GROUP_MEMBERS: usize = 100;

/// Longest permitted group name, in bytes.
pub const MAX_GROUP_NAME_LEN: usize = 64;

/// Errors from group account operations.
#[derive(Debug, Clone, PartialEq, Eq)]
pub enum GroupError {
    /// Fewer than two members. A group of one is not a group.
    TooFewMembers(usize),
    /// The same address appears twice in the membership.
    DuplicateMember,
    /// Not exactly one member holds the treasurer role.
    TreasurerCount(usize),
    /// The rotation order is not a permutation of the membership.
    InvalidRotationOrder,
    /// A quorum with a zero denominator, or requiring nobody or more than everyone.
    InvalidQuorum {
        /// Required share numerator.
        numerator: u32,
        /// Required share denominator.
        denominator: u32,
    },
    /// The named address is not a member of this group.
    NotAMember,
    /// The contribution amount was zero.
    ZeroContribution,
    /// The group name was empty or too long.
    InvalidName,
    /// More than [`MAX_GROUP_MEMBERS`].
    TooManyMembers(usize),
    /// A second contribution in one cycle.
    AlreadyContributed,
    /// The amount offered is not the amount the group agreed.
    WrongContributionAmount {
        /// What the group agreed.
        expected: String,
        /// What was offered.
        got: String,
    },
    /// A payout was requested before the cycle was due.
    CycleNotDue,
    /// A payout was requested with nothing to pay out.
    EmptyPot,
}

impl GroupError {
    /// The sentence that describes this error.
    pub open spec fn text(self) -> Seq<char> {
        match self {
            GroupError::TooFewMembers(n) =>
                "a group needs at least 2 members, got "@ + text::decimal(n as nat),
            GroupError::DuplicateMember => "duplicate member in group"@,
            GroupError::TreasurerCount(n) =>
                "a group must have exactly one treasurer, found "@ + text::decimal(n as nat),
            GroupError::InvalidRotationOrder =>
                "rotation order must list every member exactly once"@,
            GroupError::InvalidQuorum { numerator, denominator } =>
                "invalid quorum "@ + text::decimal(numerator as nat) + "/"@
                    + text::decimal(denominator as nat),
            GroupError::NotAMember => "address is not a member of this group"@,
            GroupError::ZeroContribution => "contribution amount must be greater than zero"@,
            GroupError::InvalidName => "group name must be 1..=64 bytes"@,
            GroupError::TooManyMembers(n) =>
                "a group may hold at most 100 members, got "@ + text::decimal(n as nat),
            GroupError::AlreadyContributed => "this member has already contributed for this cycle"@,
            GroupError::WrongContributionAmount { expected, got } =>
                "this group's contribution is "@ + expected@ + ", not "@ + got@,
            GroupError::CycleNotDue =>
                "the cycle is not due: not every member has paid and the period has not elapsed"@,
            GroupError::EmptyPot => "there is nothing in the pot to pay out"@,
        }
    }

    /// The sentence that describes this error.
    pub fn to_string(&self) -> (s: String)
        ensures
            s@ == self.text(),
    {
        match self {
            GroupError::TooFewMembers(n) => {
                let mut s = String::from_str("a group needs at least 2 members, got ");
                s.append(text::decimal_text(*n as u128).as_str());
                s
            },
            GroupError::DuplicateMember => String::from_str("duplicate member in group"),
            GroupError::TreasurerCount(n) => {
                let mut s = String::from_str("a group must have exactly one treasurer, found ");
                s.append(text::decimal_text(*n as u128).as_str());
                s
            },
            GroupError::InvalidRotationOrder => String::from_str(
                "rotation order must list every member exactly once",
            ),
            GroupError::InvalidQuorum { numerator, denominator } => {
                let mut s = String::from_str("invalid quorum ");
                s.append(text::decimal_text(*numerator as u128).as_str());
                s.append("/");
                s.append(text::decimal_text(*denominator as u128).as_str());
                s
            },
            GroupError::NotAMember => String::from_str("address is not a member of this group"),
            GroupError::ZeroContribution => String::from_str(
                "contribution amount must be greater than zero",
            ),
            GroupError::InvalidName => String::from_str("group name must be 1..=64 bytes"),
            GroupError::TooManyMembers(n) => {
                let mut s = String::from_str("a group may hold at most 100 members, got ");
                s.append(text::decimal_text(*n as u128).as_str());
                s
            },
            GroupError::AlreadyContributed => String::from_str(
                "this member has already contributed for this cycle",
            ),
            GroupError::WrongContributionAmount { expected, got } => {
                let mut s = String::from_str("this group's contribution is ");
                s.append(expected.as_str());
                s.append(", not ");
                s.append(got.as_str());
                s
            },
            GroupError::CycleNotDue => String::from_str(
                "the cycle is not due: not every member has paid and the period has not elapsed",
            ),
            GroupError::EmptyPot => String::from_str("there is nothing in the pot to pay out"),
        }
    }
}

/// A member's role within the group.
#[derive(Debug, Clone, Copy, PartialEq, Eq, Structural)]
pub enum Role {
    /// Holds operational responsibility for the pot. Exactly one per group.
    Treasurer,
    /// An ordinary contributing member.
    Member,
}

impl DeepView for Role {
    type V = Role;

    open spec fn deep_view(&self) -> Role {
        *self
    }
}

/// A member as named at group creation, before any history exists.
#[derive(Debug, Clone, Copy, PartialEq, Eq)]
pub struct FoundingMember {
    /// The prospective member's account.
    pub address: Address,
    /// The role they take on.
    pub role: Role,
}

impl DeepView for FoundingMember {
    type V = FoundingMember;

    open spec fn deep_view(&self) -> FoundingMember {
        *self
    }
}

impl FoundingMember {
    /// Name a founding member.
    pub fn new(address: Address, role: Role) -> (m: Self)
        ensures
            m == (FoundingMember { address, role }),
    {
        FoundingMember { address, role }
    }

    /// Promote to a full [`Member`] record joining at `cycle`.
    pub fn into_member(self, cycle: u64) -> (m: Member)
        ensures
            m == fresh_member(self.address, self.role, cycle),
    {
        Member::new(self.address, self.role, cycle)
    }
}

/// One member and their standing.
#[derive(Debug, Clone, Copy, PartialEq, Eq)]
pub struct Member {
    /// The member's account.
    pub address: Address,
    /// Their role.
    pub role: Role,
    /// Cycle number at which they joined.
    pub joined_cycle: u64,
    /// Contributions made on time.
    pub contributions_made: u64,
    /// Contributions missed.
    pub contributions_missed: u64,
    /// The cycle this member last paid into, if any.
    ///
    /// Cumulative counters cannot say whether this member has paid for the cycle now open, which is
    /// what decides whether a payout is due and whether a second payment is a duplicate.
    pub last_paid_cycle: Option<u64>,
}

impl DeepView for Member {
    type V = Member;

    open spec fn deep_view(&self) -> Member {
        *self
    }
}

/// A member with a clean record.
pub open spec fn fresh_member(address: Address, role: Role, cycle: u64) -> Member {
    Member {
        address,
        role,
        joined_cycle: cycle,
        contributions_made: 0,
        contributions_missed: 0,
        last_paid_cycle: None,
    }
}

/// A count that stops at the largest `u64`.
pub open spec fn capped_u64(n: int) -> u64 {
    if n <= u64::MAX {
        n as u64
    } else {
        u64::MAX
    }
}

impl Member {
    /// Whether this member has paid into a cycle.
    pub open spec fn paid(self, cycle: u64) -> bool {
        self.last_paid_cycle == Some(cycle)
    }

    /// The member's record once a cycle closes: a mark for one that did not pay.
    pub open spec fn after(self, closing: u64) -> Member {
        if self.paid(closing) {
            self
        } else {
            Member {
                contributions_missed: capped_u64(self.contributions_missed + 1),
                ..self
            }
        }
    }

    /// The member's record once it has paid into a cycle.
    pub open spec fn having_paid(self, cycle: u64) -> Member {
        Member {
            contributions_made: capped_u64(self.contributions_made + 1),
            last_paid_cycle: Some(cycle),
            ..self
        }
    }

    /// Contributions the member was due, on time or not.
    pub open spec fn due(self) -> u64 {
        capped_u64(self.contributions_made + self.contributions_missed)
    }

    /// A new member joining at `cycle` with a clean record.
    pub fn new(address: Address, role: Role, cycle: u64) -> (m: Self)
        ensures
            m == fresh_member(address, role, cycle),
    {
        Member {
            address,
            role,
            joined_cycle: cycle,
            contributions_made: 0,
            contributions_missed: 0,
            last_paid_cycle: None,
        }
    }

    /// Whether this member has already paid into `cycle`.
    pub fn has_paid(&self, cycle: u64) -> (b: bool)
        ensures
            b == self.paid(cycle),
    {
        match self.last_paid_cycle {
            Some(c) => c == cycle,
            None => false,
        }
    }

    /// Contributions this member was due, on time or not.
    pub fn contributions_due(&self) -> (n: u64)
        ensures
            n == self.due(),
    {
        self.contributions_made.saturating_add(self.contributions_missed)
    }

    /// On-time contribution rate in basis points, at most 10,000.
    ///
    /// `None` for a member with no obligations yet, which is different from a
    /// member with a perfect record.
    pub fn reliability_bps(&self) -> (r: Option<u32>)
        ensures
            match r {
                None => self.due() == 0,
                Some(bps) => {
                    &&& self.due() > 0
                    &&& bps == self.contributions_made * 10_000 / self.due() as int
                    &&& bps <= 10_000
                },
            },
    {
        let due: u64 = self.contributions_due();
        if due == 0 {
            return None;
        }
        let scaled: u128 = self.contributions_made as u128 * 10_000;
        let bps: u128 = scaled / due as u128;
        let ghost made = self.contributions_made;
        assert(bps <= 10_000) by (nonlinear_arith)
            requires
                scaled == made * 10_000,
                made <= due,
                due > 0,
                bps == scaled / due as u128,
        {
            assert(scaled <= due * 10_000);
            assert(scaled / due as u128 <= (due * 10_000) / due as int);
            assert((due * 10_000) / due as int == 10_000);
        }
        Some(bps as u32)
    }
}

/// What happens to the pot at the end of each cycle.
#[derive(Debug, Clone, PartialEq, Eq)]
pub enum PayoutPolicy {
    /// The whole pot goes to one member per cycle, in a fixed order.
    Rotation {
        /// Payout order: a permutation of the membership.
        order: Vec<Address>,
        /// Index into `order` of the next recipient.
        next: u32,
    },
    /// The pot accumulates and is lent out, rather than rotating.
    Accumulate,
}

/// The mathematical view of a [`PayoutPolicy`].
pub enum PolicyView {
    Rotation { order: Seq<Address>, next: u32 },
    Accumulate,
}

impl DeepView for PayoutPolicy {
    type V = PolicyView;

    open spec fn deep_view(&self) -> PolicyView {
        match *self {
            PayoutPolicy::Rotation { order, next } =>
                PolicyView::Rotation { order: order.deep_view(), next: next.deep_view() },
            PayoutPolicy::Accumulate => PolicyView::Accumulate,
        }
    }
}

/// The recurring obligation each member takes on.
#[derive(Debug, Clone, PartialEq, Eq)]
pub struct Contribution {
    /// Amount due each cycle.
    pub amount: Amount,
    /// Denomination, typically a local sovereign stablecoin.
    pub denom: Denom,
    /// Cycle length in blocks.
    pub period_blocks: u64,
}

/// The mathematical view of a [`Contribution`].
pub struct ContributionView {
    pub amount: Amount,
    pub denom: Seq<char>,
    pub period_blocks: u64,
}

impl DeepView for Contribution {
    type V = ContributionView;

    open spec fn deep_view(&self) -> ContributionView {
        ContributionView {
            amount: self.amount.deep_view(),
            denom: self.denom.deep_view(),
            period_blocks: self.period_blocks.deep_view(),
        }
    }
}

/// The share of members required to authorise an extraordinary withdrawal.
#[derive(Debug, Clone, Copy, PartialEq, Eq, Structural)]
pub struct Quorum {
    /// Numerator of the required share.
    pub numerator: u32,
    /// Denominator of the required share.
    pub denominator: u32,
}

impl DeepView for Quorum {
    type V = Quorum;

    open spec fn deep_view(&self) -> Quorum {
        *self
    }
}

impl Quorum {
    /// Whether the ratio asks for somebody, and for no more than everybody.
    pub open spec fn sound(self) -> bool {
        self.denominator != 0 && 0 < self.numerator <= self.denominator
    }

    /// The least whole number of approvals that is the required share of `total`,
    /// and never more than `total`.
    pub open spec fn share_of(self, total: nat) -> nat {
        if self.denominator == 0 {
            total
        } else {
            let exact = total * self.numerator as nat;
            let d = self.denominator as nat;
            let rounded_up = (exact + d - 1) as nat / d;
            if rounded_up < total {
                rounded_up
            } else {
                total
            }
        }
    }

    /// A two-thirds quorum, the common default.
    pub fn two_thirds() -> (q: Self)
        ensures
            q == (Quorum { numerator: 2, denominator: 3 }),
    {
        Quorum { numerator: 2, denominator: 3 }
    }

    /// Validate the ratio.
    pub fn validate(self) -> (r: Result<Self, GroupError>)
        ensures
            r == if self.sound() {
                Ok::<Quorum, GroupError>(self)
            } else {
                Err(
                    GroupError::InvalidQuorum {
                        numerator: self.numerator,
                        denominator: self.denominator,
                    },
                )
            },
    {
        if self.denominator == 0 || self.numerator > self.denominator || self.numerator == 0 {
            return Err(
                GroupError::InvalidQuorum {
                    numerator: self.numerator,
                    denominator: self.denominator,
                },
            );
        }
        Ok(self)
    }

    /// Number of approvals needed out of `total`, rounded up.
    pub fn required_of(self, total: usize) -> (n: usize)
        ensures
            n == self.share_of(total as nat),
    {
        if self.denominator == 0 {
            return total;
        }
        let wide: u128 = total as u128;
        let n: u128 = self.numerator as u128;
        let d: u128 = self.denominator as u128;
        assert(wide * n <= 0xffff_ffff_ffff_ffff * 0xffff_ffff) by (nonlinear_arith)
            requires
                wide <= 0xffff_ffff_ffff_ffff,
                n <= 0xffff_ffff,
        ;
        // Ceiling division, so a 2/3 quorum of 4 members is 3, not 2.
        let needed: u128 = (wide * n + (d - 1)) / d;
        if needed < wide {
            needed as usize
        } else {
            total
        }
    }
}

/// A savings group holding a shared pot under agreed rules.
#[derive(Debug, Clone, PartialEq, Eq)]
pub struct GroupAccount {
    /// Human-readable name, as the group knows itself.
    pub name: String,
    /// Members and their standing.
    pub members: Vec<Member>,
    /// The recurring obligation.
    pub contribution: Contribution,
    /// What happens to the pot each cycle.
    pub policy: PayoutPolicy,
    /// Approval share for extraordinary withdrawals.
    pub quorum: Quorum,
    /// Cycles completed since formation.
    pub cycle: u64,
    /// Height at which the cycle now open began.
    pub cycle_started: Height,
}

/// The mathematical view of a [`GroupAccount`].
pub struct GroupView {
    pub name: Seq<char>,
    pub members: Seq<Member>,
    pub contribution: ContributionView,
    pub policy: PolicyView,
    pub quorum: Quorum,
    pub cycle: u64,
    pub cycle_started: Height,
}

impl DeepView for GroupAccount {
    type V = GroupView;

    open spec fn deep_view(&self) -> GroupView {
        GroupView {
            name: self.name.deep_view(),
            members: self.members.deep_view(),
            contribution: self.contribution.deep_view(),
            policy: self.policy.deep_view(),
            quorum: self.quorum.deep_view(),
            cycle: self.cycle.deep_view(),
            cycle_started: self.cycle_started.deep_view(),
        }
    }
}

/// The addresses of the members, in order.
pub open spec fn addresses(members: Seq<Member>) -> Seq<Address> {
    Seq::new(members.len(), |i: int| members[i].address)
}

/// How many members hold the treasurer role.
pub open spec fn treasurers(members: Seq<Member>) -> nat
    decreases members.len(),
{
    if members.len() == 0 {
        0
    } else {
        treasurers(members.drop_last()) + if members.last().role == Role::Treasurer {
            1nat
        } else {
            0nat
        }
    }
}

/// The place of the first member with an address; past the last one if there is
/// none.
pub open spec fn seat(members: Seq<Member>, address: Address) -> nat
    decreases members.len(),
{
    if members.len() == 0 {
        0
    } else if members[0].address == address {
        0
    } else {
        1 + seat(members.drop_first(), address)
    }
}

/// Whether an order lists every member exactly once.
pub open spec fn rotates_over(order: Seq<Address>, members: Seq<Member>) -> bool {
    &&& order.no_duplicates()
    &&& order.to_set() == addresses(members).to_set()
}

/// The first structural rule that a group would break, if it would break any.
pub open spec fn group_complaint(
    name: Seq<char>,
    members: Seq<Member>,
    amount: Amount,
    policy: PolicyView,
    quorum: Quorum,
) -> Option<GroupError> {
    if encode_utf8(name).len() == 0 || encode_utf8(name).len() > MAX_GROUP_NAME_LEN {
        Some(GroupError::InvalidName)
    } else if members.len() < 2 {
        Some(GroupError::TooFewMembers(members.len() as usize))
    } else if members.len() > MAX_GROUP_MEMBERS {
        Some(GroupError::TooManyMembers(members.len() as usize))
    } else if amount.0 == 0 {
        Some(GroupError::ZeroContribution)
    } else if !addresses(members).no_duplicates() {
        Some(GroupError::DuplicateMember)
    } else if treasurers(members) != 1 {
        Some(GroupError::TreasurerCount(treasurers(members) as usize))
    } else if !quorum.sound() {
        Some(
            GroupError::InvalidQuorum {
                numerator: quorum.numerator,
                denominator: quorum.denominator,
            },
        )
    } else {
        match policy {
            PolicyView::Rotation { order, next } => if rotates_over(order, members) && next
                < order.len() {
                None
            } else {
                Some(GroupError::InvalidRotationOrder)
            },
            PolicyView::Accumulate => None,
        }
    }
}

impl GroupView {
    /// Whether a group obeys every structural rule.
    pub open spec fn sound(self) -> bool {
        group_complaint(
            self.name,
            self.members,
            self.contribution.amount,
            self.policy,
            self.quorum,
        ) is None
    }

    /// The group once the member in a seat has paid.
    pub open spec fn with_payment(self, i: int) -> GroupView {
        GroupView {
            members: self.members.update(i, self.members[i].having_paid(self.cycle)),
            ..self
        }
    }

    /// The group once the member in a seat has been marked as having missed.
    pub open spec fn with_miss(self, i: int) -> GroupView {
        GroupView {
            members: self.members.update(
                i,
                Member {
                    contributions_missed: capped_u64(self.members[i].contributions_missed + 1),
                    ..self.members[i]
                },
            ),
            ..self
        }
    }

    /// The group once the open cycle has been closed.
    pub open spec fn next_cycle(self, at: Height) -> GroupView {
        GroupView {
            members: Seq::new(self.members.len(), |i: int| self.members[i].after(self.cycle)),
            policy: self.policy.advanced(),
            cycle: capped_u64(self.cycle + 1),
            cycle_started: at,
            ..self
        }
    }

    /// Whether every member has paid into the open cycle.
    pub open spec fn all_paid(self) -> bool {
        forall|i: int| 0 <= i < self.members.len() ==> (#[trigger] self.members[i]).paid(self.cycle)
    }

    /// The height at which the open cycle's period expires.
    pub open spec fn period_end(self) -> u64 {
        capped_u64(self.cycle_started.0 + self.contribution.period_blocks)
    }
}

impl PolicyView {
    /// The policy once a cycle has been closed: the turn passes to the next.
    pub open spec fn advanced(self) -> PolicyView {
        match self {
            PolicyView::Rotation { order, next } => {
                let turn = if next == u32::MAX {
                    u32::MAX
                } else {
                    (next + 1) as u32
                };
                let seats = if 1 <= order.len() <= u32::MAX {
                    order.len() as u32
                } else {
                    1u32
                };
                PolicyView::Rotation { order, next: turn % seats }
            },
            PolicyView::Accumulate => PolicyView::Accumulate,
        }
    }

    /// Whose turn it is, where turns are taken.
    pub open spec fn recipient(self) -> Option<Address> {
        match self {
            PolicyView::Rotation { order, next } => if next < order.len() {
                Some(order[next as int])
            } else {
                None
            },
            PolicyView::Accumulate => None,
        }
    }
}

proof fn lemma_seat(members: Seq<Member>, address: Address)
    ensures
        seat(members, address) <= members.len(),
        seat(members, address) < members.len() ==> members[seat(members, address) as int].address
            == address,
        forall|i: int| 0 <= i < seat(members, address)
            ==> (#[trigger] members[i]).address != address,
    decreases members.len(),
{
    if members.len() > 0 && members[0].address != address {
        let rest = members.drop_first();
        lemma_seat(rest, address);
        assert forall|i: int| 0 <= i < seat(members, address) implies (
        #[trigger] members[i]).address != address by {
            if i > 0 {
                assert(members[i] == rest[i - 1]);
            }
        }
    }
}

proof fn lemma_seat_is(members: Seq<Member>, address: Address, i: int)
    requires
        0 <= i <= members.len(),
        i < members.len() ==> members[i].address == address,
        forall|j: int| 0 <= j < i ==> (#[trigger] members[j]).address != address,
    ensures
        seat(members, address) == i,
{
    lemma_seat(members, address);
    let k = seat(members, address) as int;
    if k < i {
        assert(members[k].address != address);
    }
}

/// The place of an address in a list, past its end if it is not there.
fn place_of(list: &[Address], address: &Address) -> (i: usize)
    ensures
        i <= list@.len(),
        i < list@.len() ==> list@[i as int] == *address,
        i == list@.len() ==> !list@.contains(*address),
{
    let mut i: usize = 0;
    while i < list.len()
        invariant
            i <= list@.len(),
            forall|j: int| 0 <= j < i ==> list@[j] != *address,
        decreases list@.len() - i,
    {
        if list[i] == *address {
            return i;
        }
        i += 1;
    }
    i
}

/// Whether no address occurs twice.
fn all_distinct(list: &[Address]) -> (b: bool)
    ensures
        b == list@.no_duplicates(),
{
    let mut i: usize = 0;
    while i < list.len()
        invariant
            i <= list@.len(),
            forall|j: int, k: int| 0 <= j < k < i ==> list@[j] != list@[k],
        decreases list@.len() - i,
    {
        let mut j: usize = 0;
        while j < i
            invariant
                j <= i < list@.len(),
                forall|k: int| 0 <= k < j ==> list@[k] != list@[i as int],
            decreases i - j,
        {
            if list[j] == list[i] {
                assert(list@[j as int] == list@[i as int]);
                return false;
            }
            j += 1;
        }
        i += 1;
    }
    true
}

/// Whether an order of the right length lists every one of some distinct addresses
/// exactly once.
fn is_rotation(order: &[Address], seats: &[Address]) -> (b: bool)
    requires
        seats@.no_duplicates(),
    ensures
        b == (order@.no_duplicates() && order@.to_set() == seats@.to_set()),
{
    proof {
        seats@.unique_seq_to_set();
    }
    if order.len() != seats.len() || !all_distinct(order) {
        proof {
            if order@.no_duplicates() && order@.to_set() == seats@.to_set() {
                order@.unique_seq_to_set();
            }
        }
        return false;
    }
    proof {
        order@.unique_seq_to_set();
    }
    let mut i: usize = 0;
    while i < order.len()
        invariant
            i <= order@.len(),
            forall|j: int| 0 <= j < i ==> seats@.contains(#[trigger] order@[j]),
        decreases order@.len() - i,
    {
        if place_of(seats, &order[i]) == seats.len() {
            proof {
                assert(order@.to_set().contains(order@[i as int]));
                assert(!seats@.to_set().contains(order@[i as int]));
            }
            return false;
        }
        i += 1;
    }
    proof {
        assert forall|a: Address| #[trigger] order@.to_set().contains(a) implies seats@.to_set()
            .contains(a) by {
            let k = choose|k: int| 0 <= k < order@.len() && order@[k] == a;
            assert(seats@.contains(order@[k]));
        }
        vstd::set_lib::lemma_subset_equality(order@.to_set(), seats@.to_set());
    }
    true
}

impl GroupAccount {
    /// Create a group, validating every structural rule. The error names the first
    /// rule violated.
    pub fn new(
        name: &str,
        members: Vec<Member>,
        contribution: Contribution,
        policy: PayoutPolicy,
        quorum: Quorum,
        opened_at: Height,
    ) -> (r: Result<Self, GroupError>)
        ensures
            match group_complaint(
                name@,
                members@,
                contribution.amount,
                policy.deep_view(),
                quorum,
            ) {
                Some(e) => r == Err::<GroupAccount, GroupError>(e),
                None => r matches Ok(g) && g.deep_view() == (GroupView {
                    name: name@,
                    members: members@,
                    contribution: contribution.deep_view(),
                    policy: policy.deep_view(),
                    quorum,
                    cycle: 0,
                    cycle_started: opened_at,
                }) && g.deep_view().sound(),
            },
    {
        let len = text::byte_len(name);
        if len == 0 || len > MAX_GROUP_NAME_LEN {
            return Err(GroupError::InvalidName);
        }
        if members.len() < 2 {
            return Err(GroupError::TooFewMembers(members.len()));
        }
        if members.len() > MAX_GROUP_MEMBERS {
            return Err(GroupError::TooManyMembers(members.len()));
        }
        if contribution.amount.is_zero() {
            return Err(GroupError::ZeroContribution);
        }
        // Duplicate members would let one person collect two payouts per cycle.
        let mut seats: Vec<Address> = Vec::new();
        let mut count: usize = 0;
        let mut i: usize = 0;
        assert(members@.take(0) =~= Seq::empty());
        while i < members.len()
            invariant
                i <= members@.len(),
                seats@ =~= addresses(members@.take(i as int)),
                count == treasurers(members@.take(i as int)),
                count <= i,
            decreases members@.len() - i,
        {
            seats.push(members[i].address);
            assert(members@.take(i as int + 1).drop_last() =~= members@.take(i as int));
            if members[i].role == Role::Treasurer {
                count += 1;
            }
            i += 1;
        }
        assert(members@.take(members@.len() as int) =~= members@);
        if !all_distinct(seats.as_slice()) {
            return Err(GroupError::DuplicateMember);
        }
        if count != 1 {
            return Err(GroupError::TreasurerCount(count));
        }
        let quorum = quorum.validate()?;
        if let PayoutPolicy::Rotation { order, next } = &policy {
            assert(order.deep_view() =~= order@);
            // Every member must appear exactly once, or somebody never gets paid.
            if !is_rotation(order.as_slice(), seats.as_slice()) {
                return Err(GroupError::InvalidRotationOrder);
            }
            if (*next as usize) >= order.len() {
                return Err(GroupError::InvalidRotationOrder);
            }
        }
        let group = GroupAccount {
            name: String::from_str(name),
            members,
            contribution,
            policy,
            quorum,
            cycle: 0,
            cycle_started: opened_at,
        };
        assert(group.members.deep_view() =~= members@);
        Ok(group)
    }

    /// Look up a member.
    pub fn member(&self, address: &Address) -> (m: Option<&Member>)
        ensures
            ({
                let members = self.deep_view().members;
                let i = seat(members, *address);
                match m {
                    Some(m) => i < members.len() && *m == members[i as int],
                    None => i == members.len(),
                }
            }),
    {
        let i = self.seat_of(address);
        if i < self.members.len() {
            Some(&self.members[i])
        } else {
            None
        }
    }

    fn seat_of(&self, address: &Address) -> (i: usize)
        ensures
            i == seat(self.deep_view().members, *address),
            i <= self.members@.len(),
            self.deep_view().members == self.members@,
    {
        assert(self.members.deep_view() =~= self.members@);
        let mut i: usize = 0;
        while i < self.members.len()
            invariant
                i <= self.members@.len(),
                self.deep_view().members == self.members@,
                forall|j: int| 0 <= j < i ==> (#[trigger] self.members@[j]).address != *address,
            decreases self.members@.len() - i,
        {
            if self.members[i].address == *address {
                proof {
                    lemma_seat_is(self.members@, *address, i as int);
                }
                return i;
            }
            i += 1;
        }
        proof {
            lemma_seat_is(self.members@, *address, i as int);
        }
        i
    }

    /// Whether `address` belongs to this group.
    pub fn is_member(&self, address: &Address) -> (b: bool)
        ensures
            b == addresses(self.deep_view().members).contains(*address),
    {
        let i = self.seat_of(address);
        proof {
            lemma_seat(self.members@, *address);
            let all = addresses(self.members@);
            if i < self.members@.len() {
                assert(all[i as int] == *address);
            } else if all.contains(*address) {
                let k = choose|k: int| 0 <= k < all.len() && all[k] == *address;
                assert(self.members@[k].address != *address);
            }
        }
        i < self.members.len()
    }

    /// The treasurer's address: the first member with the role, if there is one.
    ///
    /// Construction guarantees exactly one treasurer, but a corrupt record read
    /// from disk must not halt a node.
    pub fn treasurer(&self) -> (a: Option<Address>)
        ensures
            match a {
                Some(a) => exists|i: int|
                    {
                        &&& 0 <= i < self.deep_view().members.len()
                        &&& #[trigger] self.deep_view().members[i].role == Role::Treasurer
                        &&& self.deep_view().members[i].address == a
                        &&& forall|j: int|
                            0 <= j < i ==> #[trigger] self.deep_view().members[j].role
                                != Role::Treasurer
                    },
                None => forall|j: int|
                    0 <= j < self.deep_view().members.len()
                        ==> #[trigger] self.deep_view().members[j].role != Role::Treasurer,
            },
    {
        assert(self.members.deep_view() =~= self.members@);
        let ghost all = self.deep_view().members;
        let mut i: usize = 0;
        while i < self.members.len()
            invariant
                i <= self.members@.len(),
                all == self.members@,
                all == self.deep_view().members,
                forall|j: int| 0 <= j < i ==> #[trigger] all[j].role != Role::Treasurer,
            decreases self.members@.len() - i,
        {
            if self.members[i].role == Role::Treasurer {
                assert(all[i as int].role == Role::Treasurer);
                return Some(self.members[i].address);
            }
            i += 1;
        }
        None
    }

    /// The total due into the pot each cycle. Fails only when the multiplication
    /// overflows, which requires an absurd membership size.
    pub fn pot_per_cycle(&self) -> (r: Result<Amount, GroupError>)
        ensures
            ({
                let pot = self.contribution.amount.0 * self.deep_view().members.len();
                r == if pot <= u128::MAX {
                    Ok::<Amount, GroupError>(Amount(pot as u128))
                } else {
                    Err(GroupError::ZeroContribution)
                }
            }),
    {
        match self.contribution.amount.checked_mul(self.members.len() as u128) {
            Ok(pot) => Ok(pot),
            Err(_) => Err(GroupError::ZeroContribution),
        }
    }

    /// Record that `address` met this cycle's obligation.
    ///
    /// One contribution per member per cycle: paying ten times in one cycle must
    /// not buy a reliability record that was not earned.
    pub fn record_contribution(&mut self, address: &Address) -> (r: Result<(), GroupError>)
        ensures
            ({
                let before = old(self).deep_view();
                let i = seat(before.members, *address) as int;
                if i == before.members.len() {
                    &&& r == Err::<(), GroupError>(GroupError::NotAMember)
                    &&& final(self).deep_view() == before
                } else if before.members[i].paid(before.cycle) {
                    &&& r == Err::<(), GroupError>(GroupError::AlreadyContributed)
                    &&& final(self).deep_view() == before
                } else {
                    &&& r == Ok::<(), GroupError>(())
                    &&& final(self).deep_view() == before.with_payment(i)
                }
            }),
    {
        let i = self.seat_of(address);
        if i == self.members.len() {
            return Err(GroupError::NotAMember);
        }
        let mut member = self.members[i];
        if member.has_paid(self.cycle) {
            return Err(GroupError::AlreadyContributed);
        }
        member.contributions_made = member.contributions_made.saturating_add(1);
        member.last_paid_cycle = Some(self.cycle);
        let ghost before = self.deep_view();
        self.members.set(i, member);
        assert(self.members.deep_view() =~= before.with_payment(i as int).members);
        Ok(())
    }

    /// Whether every member has paid into the cycle now open.
    pub fn everyone_has_paid(&self) -> (b: bool)
        ensures
            b == self.deep_view().all_paid(),
    {
        assert(self.members.deep_view() =~= self.members@);
        let mut i: usize = 0;
        while i < self.members.len()
            invariant
                i <= self.members@.len(),
                self.deep_view().members == self.members@,
                self.deep_view().cycle == self.cycle,
                forall|j: int| 0 <= j < i ==> (#[trigger] self.members@[j]).paid(self.cycle),
            decreases self.members@.len() - i,
        {
            if !self.members[i].has_paid(self.cycle) {
                assert(!self.deep_view().members[i as int].paid(self.cycle));
                return false;
            }
            i += 1;
        }
        true
    }

    /// Whether a payout may be taken at `now`: either every member has met the
    /// obligation, or the agreed period has elapsed and the cycle closes with
    /// whatever was collected.
    pub fn payout_due(&self, now: Height) -> (b: bool)
        ensures
            b == (self.deep_view().all_paid() || now.0 >= self.deep_view().period_end()),
    {
        self.everyone_has_paid() || now.0 >= self.period_ends().0
    }

    /// The height at which the current cycle's period expires.
    pub fn period_ends(&self) -> (h: Height)
        ensures
            h.0 == self.deep_view().period_end(),
    {
        Height(self.cycle_started.0.saturating_add(self.contribution.period_blocks))
    }

    /// Record that `address` missed this cycle's obligation.
    pub fn record_missed(&mut self, address: &Address) -> (r: Result<(), GroupError>)
        ensures
            ({
                let before = old(self).deep_view();
                let i = seat(before.members, *address) as int;
                if i == before.members.len() {
                    &&& r == Err::<(), GroupError>(GroupError::NotAMember)
                    &&& final(self).deep_view() == before
                } else {
                    &&& r == Ok::<(), GroupError>(())
                    &&& final(self).deep_view() == before.with_miss(i)
                }
            }),
    {
        let i = self.seat_of(address);
        if i == self.members.len() {
            return Err(GroupError::NotAMember);
        }
        let mut member = self.members[i];
        member.contributions_missed = member.contributions_missed.saturating_add(1);
        let ghost before = self.deep_view();
        self.members.set(i, member);
        assert(self.members.deep_view() =~= before.with_miss(i as int).members);
        Ok(())
    }

    /// Who receives this cycle's pot, if the policy rotates.
    pub fn next_recipient(&self) -> (a: Option<Address>)
        ensures
            a == self.deep_view().policy.recipient(),
    {
        match &self.policy {
            PayoutPolicy::Rotation { order, next } => {
                assert(order.deep_view() =~= order@);
                if (*next as usize) < order.len() {
                    Some(order[*next as usize])
                } else {
                    None
                }
            },
            PayoutPolicy::Accumulate => None,
        }
    }

    /// Close the cycle, advancing the rotation. Anyone who did not pay into the
    /// cycle just closed missed it.
    pub fn advance_cycle(&mut self, at: Height)
        ensures
            final(self).deep_view() == old(self).deep_view().next_cycle(at),
    {
        let ghost before = self.deep_view();
        let closing: u64 = self.cycle;
        let mut i: usize = 0;
        assert(self.members.deep_view() =~= self.members@);
        while i < self.members.len()
            invariant
                i <= self.members@.len(),
                self.members@.len() == before.members.len(),
                closing == before.cycle,
                self.name.deep_view() == before.name,
                self.contribution.deep_view() == before.contribution,
                self.policy.deep_view() == before.policy,
                self.quorum == before.quorum,
                self.cycle == before.cycle,
                forall|j: int|
                    0 <= j < i ==> #[trigger] self.members@[j] == before.members[j].after(closing),
                forall|j: int|
                    i <= j < self.members@.len() ==> #[trigger] self.members@[j]
                        == before.members[j],
            decreases self.members@.len() - i,
        {
            let mut member = self.members[i];
            assert(member == before.members[i as int]);
            if !member.has_paid(closing) {
                member.contributions_missed = member.contributions_missed.saturating_add(1);
                self.members.set(i, member);
            }
            i += 1;
        }
        self.cycle_started = at;
        self.cycle = self.cycle.saturating_add(1);
        self.policy.advance();
        assert(self.members.deep_view() =~= before.next_cycle(at).members);
    }

    /// Approvals needed for an extraordinary withdrawal.
    pub fn approvals_required(&self) -> (n: usize)
        ensures
            n == self.quorum.share_of(self.deep_view().members.len()),
    {
        self.quorum.required_of(self.members.len())
    }
}

impl PayoutPolicy {
    /// Pass the turn to the next recipient.
    fn advance(&mut self)
        ensures
            final(self).deep_view() == old(self).deep_view().advanced(),
    {
        match self {
            PayoutPolicy::Rotation { order, next } => {
                let len: usize = order.len();
                let seats: u32 = if 1 <= len && len <= 0xffff_ffff {
                    len as u32
                } else {
                    1
                };
                *next = next.saturating_add(1) % seats;
            },
            PayoutPolicy::Accumulate => {},
        }
    }
}

// ---------------------------------------------------------------------------
// What every operation keeps
// ---------------------------------------------------------------------------

/// Two lists of members that differ only in their records.
pub open spec fn same_people(a: Seq<Member>, b: Seq<Member>) -> bool {
    &&& a.len() == b.len()
    &&& forall|i: int|
        0 <= i < a.len() ==> #[trigger] a[i].address == b[i].address && a[i].role == b[i].role
}

proof fn lemma_same_people_same_rules(a: Seq<Member>, b: Seq<Member>)
    requires
        same_people(a, b),
    ensures
        addresses(a) == addresses(b),
        treasurers(a) == treasurers(b),
    decreases a.len(),
{
    assert(addresses(a) =~= addresses(b)) by {
        assert forall|i: int| 0 <= i < a.len() implies addresses(a)[i] == addresses(b)[i] by {
            assert(a[i].address == b[i].address);
        }
    }
    if a.len() > 0 {
        let x = a.drop_last();
        let y = b.drop_last();
        assert forall|i: int| 0 <= i < x.len() implies #[trigger] x[i].address == y[i].address
            && x[i].role == y[i].role by {
            assert(a[i].address == b[i].address);
        }
        lemma_same_people_same_rules(x, y);
        assert(a[a.len() - 1].address == b[b.len() - 1].address);
    }
}

/// Paying in, being marked and closing a cycle change nobody's place in the group,
/// so a group that obeys the rules goes on obeying them.
pub proof fn law_operations_keep_the_rules(g: GroupView, i: int, at: Height)
    requires
        g.sound(),
        0 <= i < g.members.len(),
    ensures
        g.with_payment(i).sound(),
        g.with_miss(i).sound(),
        g.next_cycle(at).sound(),
{
    lemma_same_people_same_rules(g.members, g.with_payment(i).members);
    lemma_same_people_same_rules(g.members, g.with_miss(i).members);
    lemma_same_people_same_rules(g.members, g.next_cycle(at).members);
}

/// A member pays once into a cycle: a second payment in the same cycle is refused,
/// and the next cycle takes one again, as long as the count of cycles has not run
/// out.
pub proof fn law_one_contribution_per_cycle(g: GroupView, i: int, at: Height)
    requires
        0 <= i < g.members.len(),
    ensures
        g.with_payment(i).members[i].paid(g.with_payment(i).cycle),
        g.cycle < u64::MAX ==> !g.with_payment(i).next_cycle(at).members[i].paid(
            g.with_payment(i).next_cycle(at).cycle,
        ),
{
}

/// Every cycle that closes adds exactly one to what a member was due: a payment
/// if there was one, and otherwise a miss. Nobody's record can be bought or lost.
pub proof fn law_each_cycle_is_counted_once(g: GroupView, i: int, at: Height)
    requires
        0 <= i < g.members.len(),
        !g.members[i].paid(g.cycle),
        g.members[i].due() < u64::MAX,
    ensures
        g.next_cycle(at).members[i].due() == g.members[i].due() + 1,
        g.next_cycle(at).members[i].contributions_made == g.members[i].contributions_made,
        g.with_payment(i).next_cycle(at).members[i].due() == g.members[i].due() + 1,
        g.with_payment(i).next_cycle(at).members[i].contributions_missed
            == g.members[i].contributions_missed,
{
}

/// The group after a number of cycles in which nobody pays.
pub open spec fn after_cycles(g: GroupView, n: nat, at: Height) -> GroupView
    decreases n,
{
    if n == 0 {
        g
    } else {
        after_cycles(g, (n - 1) as nat, at).next_cycle(at)
    }
}

/// The turn passes round the order: after `n` cycles it is the turn of the one `n`
/// places on.
pub proof fn law_turns_go_round(g: GroupView, n: nat, at: Height)
    requires
        g.sound(),
        g.policy is Rotation,
    ensures
        ({
            let order = g.policy->Rotation_order;
            let next = g.policy->Rotation_next;
            &&& after_cycles(g, n, at).policy == (PolicyView::Rotation {
                order,
                next: ((next + n) % order.len() as int) as u32,
            })
            &&& after_cycles(g, n, at).policy.recipient() == Some(
                order[(next + n) % order.len() as int],
            )
            &&& after_cycles(g, n, at).sound()
        }),
    decreases n,
{
    let order = g.policy->Rotation_order;
    let next = g.policy->Rotation_next as int;
    let len = order.len() as int;
    order.unique_seq_to_set();
    addresses(g.members).unique_seq_to_set();
    assert(len == g.members.len());
    vstd::arithmetic::div_mod::lemma_mod_bound(next + n, len);
    if n == 0 {
        vstd::arithmetic::div_mod::lemma_small_mod(next as nat, len as nat);
    } else {
        let m = (n - 1) as nat;
        law_turns_go_round(g, m, at);
        let before = after_cycles(g, m, at);
        law_operations_keep_the_rules(before, 0, at);
        let turn = (next + m) % len;
        vstd::arithmetic::div_mod::lemma_mod_bound(next + m, len);
        vstd::arithmetic::div_mod::lemma_add_mod_noop(next + m, 1, len);
        vstd::arithmetic::div_mod::lemma_add_mod_noop(turn, 1, len);
        vstd::arithmetic::div_mod::lemma_mod_twice(next + m, len);
        assert((turn + 1) % len == (next + n) % len);
    }
}

/// Nobody waits for ever and nobody is paid twice: in as many cycles as the group
/// has members, each member has exactly one turn.
pub proof fn law_everyone_has_one_turn(g: GroupView, who: Address, at: Height)
    requires
        g.sound(),
        g.policy is Rotation,
        addresses(g.members).contains(who),
    ensures
        exists|n: nat|
            n < g.members.len()
                && #[trigger] after_cycles(g, n, at).policy.recipient() == Some(who),
        forall|n: nat, m: nat|
            n < g.members.len() && m < g.members.len() && #[trigger] after_cycles(
                g,
                n,
                at,
            ).policy.recipient() == Some(who) && #[trigger] after_cycles(
                g,
                m,
                at,
            ).policy.recipient() == Some(who) ==> n == m,
{
    let order = g.policy->Rotation_order;
    let next = g.policy->Rotation_next as int;
    let len = order.len() as int;
    order.unique_seq_to_set();
    addresses(g.members).unique_seq_to_set();
    assert(order.to_set().contains(who)) by {
        assert(addresses(g.members).to_set().contains(who));
    }
    let k = choose|k: int| 0 <= k < order.len() && order[k] == who;
    let n = (if k >= next {
        k - next
    } else {
        k - next + len
    }) as nat;
    law_turns_go_round(g, n, at);
    assert((next + n) % len == k) by {
        if k >= next {
            vstd::arithmetic::div_mod::lemma_small_mod(k as nat, len as nat);
        } else {
            vstd::arithmetic::div_mod::lemma_small_mod(k as nat, len as nat);
            vstd::arithmetic::div_mod::lemma_mod_add_multiples_vanish(k, len);
        }
    }
    assert forall|n: nat, m: nat|
        n < g.members.len() && m < g.members.len() && #[trigger] after_cycles(
            g,
            n,
            at,
        ).policy.recipient() == Some(who) && #[trigger] after_cycles(g, m, at).policy.recipient()
            == Some(who) implies n == m by {
        law_turns_go_round(g, n, at);
        law_turns_go_round(g, m, at);
        let a = (next + n) % len;
        let b = (next + m) % len;
        vstd::arithmetic::div_mod::lemma_mod_bound(next + n, len);
        vstd::arithmetic::div_mod::lemma_mod_bound(next + m, len);
        assert(order[a] == order[b]);
        assert(a == b);
        lemma_turn_determines(next, n as int, m as int, len);
    }
}

proof fn lemma_turn_determines(next: int, n: int, m: int, len: int)
    requires
        0 <= n < len,
        0 <= m < len,
        0 <= next,
        (next + n) % len == (next + m) % len,
    ensures
        n == m,
{
    vstd::arithmetic::div_mod::lemma_fundamental_div_mod(next + n, len);
    vstd::arithmetic::div_mod::lemma_fundamental_div_mod(next + m, len);
    let q = (next + n) / len - (next + m) / len;
    assert(n - m == len * q) by (nonlinear_arith)
        requires
            next + n == len * ((next + n) / len) + (next + n) % len,
            next + m == len * ((next + m) / len) + (next + m) % len,
            (next + n) % len == (next + m) % len,
            q == (next + n) / len - (next + m) / len,
    ;
    assert(q == 0) by (nonlinear_arith)
        requires
            n - m == len * q,
            -len < n - m < len,
            len > 0,
    ;
}

/// A quorum is never less than its share: the approvals it asks for are at least
/// the required fraction of the group, and never more than everybody.
pub proof fn law_quorum_reaches_its_share(q: Quorum, total: nat)
    requires
        q.sound(),
    ensures
        q.share_of(total) * q.denominator >= total * q.numerator,
        q.share_of(total) <= total,
        total > 0 ==> q.share_of(total) > 0,
{
    let exact = total * q.numerator as nat;
    let d = q.denominator as nat;
    let up = (exact + d - 1) as nat / d;
    vstd::arithmetic::div_mod::lemma_fundamental_div_mod(exact + d - 1, d as int);
    assert(up * d >= exact) by (nonlinear_arith)
        requires
            exact + d - 1 == d * up + (exact + d - 1) % d as int,
            (exact + d - 1) % d as int <= d - 1,
    ;
    assert(total * d >= exact) by (nonlinear_arith)
        requires
            exact == total * q.numerator as nat,
            q.numerator <= q.denominator,
            d == q.denominator as nat,
    ;
    assert(total > 0 ==> exact > 0) by (nonlinear_arith)
        requires
            exact == total * q.numerator as nat,
            q.numerator > 0,
    ;
    assert(exact > 0 ==> up > 0) by (nonlinear_arith)
        requires
            up * d >= exact,
            d > 0,
            up >= 0,
    ;
}

// ---------------------------------------------------------------------------
// What each operation does
// ---------------------------------------------------------------------------

/// Closing a cycle at a height starts the next one there. The period of the new cycle
/// is counted from that height, and until it is over nothing is due while somebody has
/// not paid.
pub proof fn law_closing_starts_the_next_cycle_there(g: GroupView, at: Height, now: Height)
    ensures
        ({
            let after = g.next_cycle(at);
            let end = at.0 + g.contribution.period_blocks;
            &&& after.cycle_started == at
            &&& after.cycle == if g.cycle == u64::MAX {
                g.cycle as int
            } else {
                g.cycle + 1
            }
            &&& after.period_end() == if end <= u64::MAX {
                end
            } else {
                u64::MAX as int
            }
            &&& now.0 < end && now.0 < u64::MAX && (exists|i: int|
                0 <= i < g.members.len() && (#[trigger] after.members[i]).last_paid_cycle != Some(
                    after.cycle,
                )) ==> !(after.all_paid() || now.0 >= after.period_end())
        }),
{
    let after = g.next_cycle(at);
    if exists|i: int|
        0 <= i < g.members.len() && (#[trigger] after.members[i]).last_paid_cycle != Some(
            after.cycle,
        ) {
        let i = choose|i: int|
            0 <= i < g.members.len() && (#[trigger] after.members[i]).last_paid_cycle != Some(
                after.cycle,
            );
        assert(!after.members[i].paid(after.cycle));
    }
}

/// What closing a cycle leaves of the group: the same people with the same payments,
/// one more miss for each who had not paid into it, and the name, the contribution and
/// the quorum as they were.
pub proof fn law_closing_marks_those_who_missed(g: GroupView, at: Height, i: int)
    requires
        0 <= i < g.members.len(),
    ensures
        ({
            let (before, after) = (g.members[i], g.next_cycle(at).members[i]);
            &&& after.address == before.address
            &&& after.role == before.role
            &&& after.joined_cycle == before.joined_cycle
            &&& after.contributions_made == before.contributions_made
            &&& after.last_paid_cycle == before.last_paid_cycle
            &&& after.contributions_missed == if before.last_paid_cycle == Some(g.cycle)
                || before.contributions_missed == u64::MAX {
                before.contributions_missed as int
            } else {
                before.contributions_missed + 1
            }
        }),
        g.next_cycle(at).members.len() == g.members.len(),
        g.next_cycle(at).name == g.name,
        g.next_cycle(at).contribution == g.contribution,
        g.next_cycle(at).quorum == g.quorum,
{
}

/// Closing a cycle passes the turn to the next in the order, and round to the first
/// after the last. The order itself never changes, and a pot that accumulates has no
/// turns.
pub proof fn law_closing_passes_the_turn(g: GroupView, at: Height)
    ensures
        g.policy is Accumulate ==> g.next_cycle(at).policy is Accumulate,
        g.policy matches PolicyView::Rotation { order, next } ==> (1 <= order.len() <= u32::MAX
            && next < order.len() ==> g.next_cycle(at).policy == (PolicyView::Rotation {
            order,
            next: (if next + 1 == order.len() {
                0int
            } else {
                next + 1
            }) as u32,
        })),
        g.policy matches PolicyView::Rotation { order, next } ==> (next < order.len()
            ==> g.policy.recipient() == Some(order[next as int])),
        g.policy matches PolicyView::Rotation { order, next } ==> (next >= order.len()
            ==> g.policy.recipient() is None),
        g.policy is Accumulate ==> g.policy.recipient() is None,
{
    if let PolicyView::Rotation { order, next } = g.policy {
        if 1 <= order.len() <= u32::MAX && next < order.len() {
            let seats = order.len() as u32;
            if next + 1 == order.len() {
                assert(seats % seats == 0);
            } else {
                vstd::arithmetic::div_mod::lemma_small_mod((next + 1) as nat, seats as nat);
            }
        }
    }
}

/// What paying changes: one more payment and the cycle paid into, for the member in the
/// seat, and nothing else of the group.
pub proof fn law_paying_is_recorded_for_the_payer(g: GroupView, i: int, j: int)
    requires
        0 <= i < g.members.len(),
        0 <= j < g.members.len(),
    ensures
        g.with_payment(i).members[j] == if i == j {
            Member {
                contributions_made: (if g.members[j].contributions_made == u64::MAX {
                    u64::MAX as int
                } else {
                    g.members[j].contributions_made + 1
                }) as u64,
                last_paid_cycle: Some(g.cycle),
                ..g.members[j]
            }
        } else {
            g.members[j]
        },
        g.with_payment(i) == (GroupView { members: g.with_payment(i).members, ..g }),
        g.with_payment(i).members.len() == g.members.len(),
{
}

/// What a missed mark changes: one more miss for the member in the seat, and nothing
/// else of the group.
pub proof fn law_a_miss_is_recorded_for_the_one_who_missed(g: GroupView, i: int, j: int)
    requires
        0 <= i < g.members.len(),
        0 <= j < g.members.len(),
    ensures
        g.with_miss(i).members[j] == if i == j {
            Member {
                contributions_missed: (if g.members[j].contributions_missed == u64::MAX {
                    u64::MAX as int
                } else {
                    g.members[j].contributions_missed + 1
                }) as u64,
                ..g.members[j]
            }
        } else {
            g.members[j]
        },
        g.with_miss(i) == (GroupView { members: g.with_miss(i).members, ..g }),
        g.with_miss(i).members.len() == g.members.len(),
{
}

/// A member has paid into a cycle when it is the last one they paid into. Everybody has
/// paid when each has paid into the open cycle. What a member was due is what they paid
/// and what they missed, and one who has just joined was due nothing.
pub proof fn law_who_has_paid(g: GroupView, m: Member, cycle: u64, address: Address, role: Role)
    ensures
        m.paid(cycle) <==> m.last_paid_cycle == Some(cycle),
        g.all_paid() <==> forall|i: int|
            0 <= i < g.members.len() ==> (#[trigger] g.members[i]).last_paid_cycle == Some(g.cycle),
        m.contributions_made + m.contributions_missed <= u64::MAX ==> m.due()
            == m.contributions_made + m.contributions_missed,
        m.contributions_made + m.contributions_missed > u64::MAX ==> m.due() == u64::MAX,
        fresh_member(address, role, cycle) == (Member {
            address,
            role,
            joined_cycle: cycle,
            contributions_made: 0,
            contributions_missed: 0,
            last_paid_cycle: None,
        }),
{
    if g.all_paid() {
        assert forall|i: int| 0 <= i < g.members.len() implies (
        #[trigger] g.members[i]).last_paid_cycle == Some(g.cycle) by {
            assert(g.members[i].paid(g.cycle));
        }
    }
}

/// When the open cycle's period ends: as many blocks after its start as were agreed, or
/// at the last height there is.
pub proof fn law_when_the_period_ends(g: GroupView)
    ensures
        g.cycle_started.0 + g.contribution.period_blocks <= u64::MAX ==> g.period_end()
            == g.cycle_started.0 + g.contribution.period_blocks,
        g.cycle_started.0 + g.contribution.period_blocks > u64::MAX ==> g.period_end() == u64::MAX,
{
}

/// A member's seat is the first that holds the address.
pub proof fn law_a_seat_is_the_first_with_the_address(members: Seq<Member>, address: Address)
    ensures
        seat(members, address) <= members.len(),
        seat(members, address) < members.len() ==> members[seat(
            members,
            address,
        ) as int].address == address,
        forall|i: int|
            0 <= i < seat(members, address) ==> (#[trigger] members[i]).address != address,
        addresses(members).len() == members.len(),
        forall|i: int|
            0 <= i < members.len() ==> #[trigger] addresses(members)[i] == members[i].address,
{
    lemma_seat(members, address);
}

/// The treasurers are the members who hold the role, each counted once.
pub proof fn law_treasurers_are_counted(members: Seq<Member>)
    ensures
        treasurers(members) == members.filter(|m: Member| m.role == Role::Treasurer).len(),
    decreases members.len(),
{
    reveal(Seq::filter);
    if members.len() > 0 {
        law_treasurers_are_counted(members.drop_last());
    }
}

/// When a group may be formed: a name of one to sixty-four bytes, two to a hundred
/// members, something to contribute, nobody twice, exactly one treasurer, a share that
/// asks for somebody and no more than everybody, and, where turns are taken, an order
/// that lists every member exactly once and begins inside itself. The first of these
/// that fails, in that order, is the error.
pub proof fn law_when_a_group_may_be_formed(
    name: Seq<char>,
    members: Seq<Member>,
    amount: Amount,
    policy: PolicyView,
    quorum: Quorum,
)
    ensures
        ({
            let heads = members.filter(|m: Member| m.role == Role::Treasurer).len();
            let named = 1 <= encode_utf8(name).len() <= 64;
            let distinct = forall|i: int, j: int|
                0 <= i < j < members.len() ==> (#[trigger] members[i]).address != (
                #[trigger] members[j]).address;
            let share = 1 <= quorum.numerator <= quorum.denominator;
            let turns = policy matches PolicyView::Rotation { order, next } ==> {
                &&& next < order.len()
                &&& order.len() == members.len()
                &&& forall|i: int|
                    0 <= i < members.len() ==> order.contains((#[trigger] members[i]).address)
            };
            group_complaint(name, members, amount, policy, quorum) == if !named {
                Some(GroupError::InvalidName)
            } else if members.len() < 2 {
                Some(GroupError::TooFewMembers(members.len() as usize))
            } else if members.len() > 100 {
                Some(GroupError::TooManyMembers(members.len() as usize))
            } else if amount.0 == 0 {
                Some(GroupError::ZeroContribution)
            } else if !distinct {
                Some(GroupError::DuplicateMember)
            } else if heads != 1 {
                Some(GroupError::TreasurerCount(heads as usize))
            } else if !share {
                Some(
                    GroupError::InvalidQuorum {
                        numerator: quorum.numerator,
                        denominator: quorum.denominator,
                    },
                )
            } else if !turns {
                Some(GroupError::InvalidRotationOrder)
            } else {
                None
            }
        }),
{
    law_treasurers_are_counted(members);
    let people = addresses(members);
    let distinct = forall|i: int, j: int|
        0 <= i < j < members.len() ==> (#[trigger] members[i]).address != (
        #[trigger] members[j]).address;
    assert(distinct <==> people.no_duplicates()) by {
        if distinct {
            assert forall|i: int, j: int|
                0 <= i < people.len() && 0 <= j < people.len() && i != j implies people[i]
                != people[j] by {
                if i < j {
                    assert(members[i].address != members[j].address);
                } else {
                    assert(members[j].address != members[i].address);
                }
            }
        }
        if people.no_duplicates() {
            assert forall|i: int, j: int| 0 <= i < j < members.len() implies (
            #[trigger] members[i]).address != (#[trigger] members[j]).address by {
                assert(people[i] != people[j]);
            }
        }
    }
    if people.no_duplicates() {
        if let PolicyView::Rotation { order, next } = policy {
            lemma_an_order_lists_everyone(order, members);
        }
    }
}

/// An order lists each of the members exactly once when it is as long as they are many
/// and has each of them in it.
proof fn lemma_an_order_lists_everyone(order: Seq<Address>, members: Seq<Member>)
    requires
        addresses(members).no_duplicates(),
    ensures
        rotates_over(order, members) <==> {
            &&& order.len() == members.len()
            &&& forall|i: int|
                0 <= i < members.len() ==> order.contains((#[trigger] members[i]).address)
        },
{
    let people = addresses(members);
    people.unique_seq_to_set();
    let each = forall|i: int|
        0 <= i < members.len() ==> order.contains((#[trigger] members[i]).address);
    if rotates_over(order, members) {
        order.unique_seq_to_set();
        assert forall|i: int| 0 <= i < members.len() implies order.contains(
            (#[trigger] members[i]).address,
        ) by {
            assert(people.to_set().contains(people[i]));
            assert(order.to_set().contains(people[i]));
        }
    }
    if order.len() == members.len() && each {
        assert(people.to_set().subset_of(order.to_set())) by {
            assert forall|a: Address| people.to_set().contains(a)
                implies #[trigger] order.to_set().contains(
                a,
            ) by {
                let i = choose|i: int| 0 <= i < people.len() && people[i] == a;
                assert(order.contains(members[i].address));
            }
        }
        order.lemma_cardinality_of_set();
        vstd::set_lib::lemma_len_subset(people.to_set(), order.to_set());
        vstd::set_lib::lemma_subset_equality(people.to_set(), order.to_set());
        order.lemma_no_dup_set_cardinality();
    }
}

/// The approvals a quorum asks for: the fewest that are the required share of the
/// group. One with no share to speak of asks for everybody.
pub proof fn law_a_quorum_asks_for_the_fewest(q: Quorum, total: nat, k: nat)
    ensures
        q.denominator == 0 ==> q.share_of(total) == total,
        q.sound() <==> 1 <= q.numerator <= q.denominator,
        q.sound() ==> q.share_of(total) * q.denominator >= total * q.numerator,
        q.sound() && k * q.denominator >= total * q.numerator ==> q.share_of(total) <= k,
        q.denominator > 0 && q.numerator > q.denominator ==> q.share_of(total) == total,
        q.denominator > 0 && q.numerator == 0 ==> q.share_of(total) == 0,
{
    if q.denominator > 0 {
        let exact = total * q.numerator as nat;
        let d = q.denominator as nat;
        let up = (exact + d - 1) as nat / d;
        vstd::arithmetic::div_mod::lemma_fundamental_div_mod(exact + d - 1, d as int);
        if q.sound() {
            law_quorum_reaches_its_share(q, total);
            if k * q.denominator >= total * q.numerator {
                assert(up <= k) by (nonlinear_arith)
                    requires
                        exact + d - 1 == d * up + (exact + d - 1) % d as int,
                        (exact + d - 1) % d as int >= 0,
                        k * d >= exact,
                        d > 0,
                ;
            }
        }
        if q.numerator > q.denominator {
            assert(up >= total) by (nonlinear_arith)
                requires
                    exact == total * q.numerator as nat,
                    q.numerator > q.denominator,
                    d == q.denominator as nat,
                    exact + d - 1 == d * up + (exact + d - 1) % d as int,
                    (exact + d - 1) % d as int <= d - 1,
                    d > 0,
            ;
        }
        if q.numerator == 0 {
            assert(exact == 0) by (nonlinear_arith)
                requires
                    exact == total * q.numerator as nat,
                    q.numerator == 0,
            ;
            vstd::arithmetic::div_mod::lemma_basic_div(d - 1, d as int);
        }
    }
}

// ---------------------------------------------------------------------------
// Canonical encoding
// ---------------------------------------------------------------------------

/// The sentence that refuses an over-large group.
pub open spec fn too_many_members(n: nat) -> Seq<char> {
    "a group may hold at most 100 members, got "@ + text::decimal(n)
}

/// A group record from its parts.
pub open spec fn group_of_parts(
    t: (Seq<char>, (Seq<Member>, (ContributionView, (PolicyView, (Quorum, (u64, Height)))))),
) -> GroupView {
    GroupView {
        name: t.0,
        members: t.1.0,
        contribution: t.1.1.0,
        policy: t.1.1.1.0,
        quorum: t.1.1.1.1.0,
        cycle: t.1.1.1.1.1.0,
        cycle_started: t.1.1.1.1.1.1,
    }
}

impl Encode for Role {
    open spec fn bytes_of(v: Role) -> Seq<u8> {
        match v {
            Role::Treasurer => u8::bytes_of(0),
            Role::Member => u8::bytes_of(1),
        }
    }

    fn encode(&self, out: &mut Vec<u8>) {
        match self {
            Role::Treasurer => 0u8.encode(out),
            Role::Member => 1u8.encode(out),
        }
    }
}

impl Decode for Role {
    open spec fn parse(s: Seq<u8>) -> Parsed<Role> {
        u8::parse(s).and_then(
            |tag: u8, rest: Seq<u8>|
                if tag == 0 {
                    Parsed { value: Ok(Role::Treasurer), rest }
                } else if tag == 1 {
                    Parsed { value: Ok(Role::Member), rest }
                } else {
                    fault(CodecFault::UnknownDiscriminant { tag, what: "Role"@ }, rest)
                },
        )
    }

    fn decode(r: &mut Reader<'_>) -> (res: Result<Self, CodecError>) {
        let tag: u8 = u8::decode(r)?;
        match tag {
            0 => Ok(Role::Treasurer),
            1 => Ok(Role::Member),
            _ => Err(CodecError::UnknownDiscriminant { tag, what: "Role" }),
        }
    }
}

impl Canonical for Role {
    open spec fn valid(v: Role) -> bool {
        match v {
            Role::Treasurer => true,
            Role::Member => true,
        }
    }

    proof fn round_trip(v: Role, tail: Seq<u8>) {
        match v {
            Role::Treasurer => {
                u8::round_trip(0, tail);
            },
            Role::Member => {
                u8::round_trip(1, tail);
            },
        }
    }

    proof fn one_encoding(s: Seq<u8>) {
        u8::one_encoding(s);
    }
}

impl Encode for FoundingMember {
    open spec fn bytes_of(v: FoundingMember) -> Seq<u8> {
        <(Address, Role)>::bytes_of((v.address, v.role))
    }

    fn encode(&self, out: &mut Vec<u8>) {
        broadcast use wire::lemma_concat_assoc;

        self.address.encode(out);
        self.role.encode(out);
    }
}

impl Decode for FoundingMember {
    open spec fn parse(s: Seq<u8>) -> Parsed<FoundingMember> {
        <(Address, Role)>::parse(s).map(
            |t: (Address, Role)|
                FoundingMember { address: t.0, role: t.1 },
        )
    }

    fn decode(r: &mut Reader<'_>) -> (res: Result<Self, CodecError>) {
        let address = Address::decode(r)?;
        let role = Role::decode(r)?;
        Ok(FoundingMember { address, role })
    }
}

impl Canonical for FoundingMember {
    open spec fn valid(v: FoundingMember) -> bool {
        <(Address, Role)>::valid((v.address, v.role))
    }

    proof fn round_trip(v: FoundingMember, tail: Seq<u8>) {
        <(Address, Role)>::round_trip((v.address, v.role), tail);
    }

    proof fn one_encoding(s: Seq<u8>) {
        <(Address, Role)>::one_encoding(s);
    }
}

impl Encode for Member {
    open spec fn bytes_of(v: Member) -> Seq<u8> {
        <(Address, (Role, (u64, (u64, (u64, Option<u64>)))))>::bytes_of(
            (
                v.address,
                (
                    v.role,
                    (
                        v.joined_cycle,
                        (v.contributions_made, (v.contributions_missed, v.last_paid_cycle)),
                    ),
                ),
            )
        )
    }

    fn encode(&self, out: &mut Vec<u8>) {
        broadcast use wire::lemma_concat_assoc;

        self.address.encode(out);
        self.role.encode(out);
        self.joined_cycle.encode(out);
        self.contributions_made.encode(out);
        self.contributions_missed.encode(out);
        self.last_paid_cycle.encode(out);
    }
}

impl Decode for Member {
    open spec fn parse(s: Seq<u8>) -> Parsed<Member> {
        <(Address, (Role, (u64, (u64, (u64, Option<u64>)))))>::parse(s).map(
            |t: (Address, (Role, (u64, (u64, (u64, Option<u64>)))))|
                Member {
                    address: t.0,
                    role: t.1.0,
                    joined_cycle: t.1.1.0,
                    contributions_made: t.1.1.1.0,
                    contributions_missed: t.1.1.1.1.0,
                    last_paid_cycle: t.1.1.1.1.1,
                },
        )
    }

    fn decode(r: &mut Reader<'_>) -> (res: Result<Self, CodecError>) {
        let address = Address::decode(r)?;
        let role = Role::decode(r)?;
        let joined_cycle: u64 = u64::decode(r)?;
        let contributions_made: u64 = u64::decode(r)?;
        let contributions_missed: u64 = u64::decode(r)?;
        let last_paid_cycle = Option::<u64>::decode(r)?;
        Ok(
            Member {
                address,
                role,
                joined_cycle,
                contributions_made,
                contributions_missed,
                last_paid_cycle,
            }
        )
    }
}

impl Canonical for Member {
    open spec fn valid(v: Member) -> bool {
        <(Address, (Role, (u64, (u64, (u64, Option<u64>)))))>::valid(
            (
                v.address,
                (
                    v.role,
                    (
                        v.joined_cycle,
                        (v.contributions_made, (v.contributions_missed, v.last_paid_cycle)),
                    ),
                ),
            )
        )
    }

    proof fn round_trip(v: Member, tail: Seq<u8>) {
        <(Address, (Role, (u64, (u64, (u64, Option<u64>)))))>::round_trip(
            (
                v.address,
                (
                    v.role,
                    (
                        v.joined_cycle,
                        (v.contributions_made, (v.contributions_missed, v.last_paid_cycle)),
                    ),
                ),
            ),
            tail,
        );
    }

    proof fn one_encoding(s: Seq<u8>) {
        <(Address, (Role, (u64, (u64, (u64, Option<u64>)))))>::one_encoding(s);
    }
}

impl Encode for Contribution {
    open spec fn bytes_of(v: ContributionView) -> Seq<u8> {
        <(Amount, (Denom, u64))>::bytes_of((v.amount, (v.denom, v.period_blocks)))
    }

    fn encode(&self, out: &mut Vec<u8>) {
        broadcast use wire::lemma_concat_assoc;

        self.amount.encode(out);
        self.denom.encode(out);
        self.period_blocks.encode(out);
    }
}

impl Decode for Contribution {
    open spec fn parse(s: Seq<u8>) -> Parsed<ContributionView> {
        <(Amount, (Denom, u64))>::parse(s).map(
            |t: (Amount, (Seq<char>, u64))|
                ContributionView { amount: t.0, denom: t.1.0, period_blocks: t.1.1 },
        )
    }

    fn decode(r: &mut Reader<'_>) -> (res: Result<Self, CodecError>) {
        let amount = Amount::decode(r)?;
        let denom = Denom::decode(r)?;
        let period_blocks: u64 = u64::decode(r)?;
        Ok(Contribution { amount, denom, period_blocks })
    }
}

impl Canonical for Contribution {
    open spec fn valid(v: ContributionView) -> bool {
        <(Amount, (Denom, u64))>::valid((v.amount, (v.denom, v.period_blocks)))
    }

    proof fn round_trip(v: ContributionView, tail: Seq<u8>) {
        <(Amount, (Denom, u64))>::round_trip((v.amount, (v.denom, v.period_blocks)), tail);
    }

    proof fn one_encoding(s: Seq<u8>) {
        <(Amount, (Denom, u64))>::one_encoding(s);
    }
}

impl Encode for Quorum {
    open spec fn bytes_of(v: Quorum) -> Seq<u8> {
        <(u32, u32)>::bytes_of((v.numerator, v.denominator))
    }

    fn encode(&self, out: &mut Vec<u8>) {
        broadcast use wire::lemma_concat_assoc;

        self.numerator.encode(out);
        self.denominator.encode(out);
    }
}

impl Decode for Quorum {
    open spec fn parse(s: Seq<u8>) -> Parsed<Quorum> {
        <(u32, u32)>::parse(s).map(
            |t: (u32, u32)|
                Quorum { numerator: t.0, denominator: t.1 },
        )
    }

    fn decode(r: &mut Reader<'_>) -> (res: Result<Self, CodecError>) {
        let numerator: u32 = u32::decode(r)?;
        let denominator: u32 = u32::decode(r)?;
        Ok(Quorum { numerator, denominator })
    }
}

impl Canonical for Quorum {
    open spec fn valid(v: Quorum) -> bool {
        <(u32, u32)>::valid((v.numerator, v.denominator))
    }

    proof fn round_trip(v: Quorum, tail: Seq<u8>) {
        <(u32, u32)>::round_trip((v.numerator, v.denominator), tail);
    }

    proof fn one_encoding(s: Seq<u8>) {
        <(u32, u32)>::one_encoding(s);
    }
}

impl Encode for PayoutPolicy {
    open spec fn bytes_of(v: PolicyView) -> Seq<u8> {
        match v {
            PolicyView::Rotation { order, next } =>
                u8::bytes_of(0) + <(Vec<Address>, u32)>::bytes_of(
                (order, next),
            ),
            PolicyView::Accumulate => u8::bytes_of(1),
        }
    }

    fn encode(&self, out: &mut Vec<u8>) {
        match self {
            PayoutPolicy::Rotation { order, next } => wire::encode_tagged2(0, order, next, out),
            PayoutPolicy::Accumulate => 1u8.encode(out),
        }
    }
}

impl Decode for PayoutPolicy {
    open spec fn parse(s: Seq<u8>) -> Parsed<PolicyView> {
        u8::parse(s).and_then(
            |tag: u8, rest: Seq<u8>|
                if tag == 0 {
                    <(Vec<Address>, u32)>::parse(rest).map(
                        |t: (Seq<Address>, u32)|
                            PolicyView::Rotation { order: t.0, next: t.1 },
                    )
                } else if tag == 1 {
                    Parsed { value: Ok(PolicyView::Accumulate), rest }
                } else {
                    fault(CodecFault::UnknownDiscriminant { tag, what: "PayoutPolicy"@ }, rest)
                },
        )
    }

    fn decode(r: &mut Reader<'_>) -> (res: Result<Self, CodecError>) {
        let tag: u8 = u8::decode(r)?;
        match tag {
            0 => {
                let (order, next) = <(Vec<Address>, u32)>::decode(r)?;
                Ok(PayoutPolicy::Rotation { order, next })
            },
            1 => Ok(PayoutPolicy::Accumulate),
            _ => Err(CodecError::UnknownDiscriminant { tag, what: "PayoutPolicy" }),
        }
    }
}

impl Canonical for PayoutPolicy {
    open spec fn valid(v: PolicyView) -> bool {
        match v {
            PolicyView::Rotation { order, next } => <(Vec<Address>, u32)>::valid((order, next)),
            PolicyView::Accumulate => true,
        }
    }

    proof fn round_trip(v: PolicyView, tail: Seq<u8>) {
        match v {
            PolicyView::Rotation { order, next } => {
                let t = (order, next);
                wire::lemma_tagged_round_trip::<(Vec<Address>, u32)>(0, t, tail);
            },
            PolicyView::Accumulate => {
                u8::round_trip(1, tail);
            },
        }
    }

    proof fn one_encoding(s: Seq<u8>) {
        u8::one_encoding(s);
        let rest = u8::parse(s).rest;
        if let Ok(tag) = u8::parse(s).value {
            if tag == 0 {
                if <(Vec<Address>, u32)>::parse(rest).value is Ok {
                    wire::lemma_tagged_one_encoding::<(Vec<Address>, u32)>(0, s);
                }
            }
        }
    }
}

impl Encode for GroupAccount {
    open spec fn bytes_of(v: GroupView) -> Seq<u8> {
        GroupFields::bytes_of(
            (
                v.name,
                (v.members, (v.contribution, (v.policy, (v.quorum, (v.cycle, v.cycle_started))))),
            )
        )
    }

    fn encode(&self, out: &mut Vec<u8>) {
        broadcast use wire::lemma_concat_assoc;

        self.name.encode(out);
        self.members.encode(out);
        self.contribution.encode(out);
        self.policy.encode(out);
        self.quorum.encode(out);
        self.cycle.encode(out);
        self.cycle_started.encode(out);
    }
}

impl Decode for GroupAccount {
    open spec fn parse(s: Seq<u8>) -> Parsed<GroupView> {
        GroupFields::parse(s).map(
            |t: (
                Seq<char>,
                (Seq<Member>, (ContributionView, (PolicyView, (Quorum, (u64, Height))))),
            )|
                group_of_parts(t),
        ).and_then(
            |g: GroupView, rest: Seq<u8>|
                if g.members.len() > MAX_GROUP_MEMBERS {
                    fault(CodecFault::Invalid(too_many_members(g.members.len())), rest)
                } else {
                    Parsed { value: Ok(g), rest }
                },
        )
    }

    fn decode(r: &mut Reader<'_>) -> (res: Result<Self, CodecError>) {
        let name = String::decode(r)?;
        let members = Vec::<Member>::decode(r)?;
        let contribution = Contribution::decode(r)?;
        let policy = PayoutPolicy::decode(r)?;
        let quorum = Quorum::decode(r)?;
        let cycle: u64 = u64::decode(r)?;
        let cycle_started = Height::decode(r)?;
        // A record this chain could never have produced is not accepted from a
        // database or a peer just because it parses.
        if members.len() > MAX_GROUP_MEMBERS {
            let mut reason = String::from_str("a group may hold at most 100 members, got ");
            text::push_decimal(&mut reason, members.len() as u128);
            return Err(CodecError::Invalid(reason));
        }
        Ok(GroupAccount { name, members, contribution, policy, quorum, cycle, cycle_started })
    }
}

impl Canonical for GroupAccount {
    open spec fn valid(v: GroupView) -> bool {
        v.members.len() <= MAX_GROUP_MEMBERS
            && GroupFields::valid(
                (
                    v.name,
                    (
                        v.members,
                        (v.contribution, (v.policy, (v.quorum, (v.cycle, v.cycle_started)))),
                    ),
                )
            )
    }

    proof fn round_trip(v: GroupView, tail: Seq<u8>) {
        GroupFields::round_trip(
            (
                v.name,
                (v.members, (v.contribution, (v.policy, (v.quorum, (v.cycle, v.cycle_started))))),
            ),
            tail,
        );
    }

    proof fn one_encoding(s: Seq<u8>) {
        GroupFields::one_encoding(s);
    }
}

} // verus!
