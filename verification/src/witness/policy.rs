//! Corroboration: turning several witnesses' observations into a checkpoint, or
//! refusing to.
//!
//! A stale wallet is in more danger, not less. So as its trusted header ages, this
//! module asks for more independent agreement, never less.

use crate::crypto::hash::Hash32;
use crate::primitives::codec::{Canonical, CodecError, Decode, Encode, Parsed, Reader};
use crate::primitives::ids::{ChainId, Height};
use crate::primitives::wire;
use crate::witness::audit::{note_country, note_log, Observation, ObservationView};
use crate::witness::error::{WitnessError, WitnessFault};
use crate::witness::head::LogId;
use vstd::prelude::*;

verus! {

/// The trusted root a wallet starts from: a chain, a height, and a block. Small enough for a QR
/// code.
#[derive(Debug, Clone, PartialEq, Eq)]
pub struct Checkpoint {
    /// Which network.
    pub chain_id: ChainId,
    /// Height of the checkpointed block.
    pub height: Height,
    /// Its block identifier.
    pub block_id: Hash32,
}

/// The mathematical view of a [`Checkpoint`].
pub struct CheckpointView {
    pub chain_id: Seq<char>,
    pub height: Height,
    pub block_id: Hash32,
}

impl DeepView for Checkpoint {
    type V = CheckpointView;

    open spec fn deep_view(&self) -> CheckpointView {
        CheckpointView {
            chain_id: self.chain_id.deep_view(),
            height: self.height.deep_view(),
            block_id: self.block_id.deep_view(),
        }
    }
}

/// How much agreement a wallet demands before it will adopt a checkpoint.
#[derive(Debug, Clone, Copy, PartialEq, Eq, Structural)]
pub struct Policy {
    /// Distinct witnesses that must agree.
    pub min_witnesses: usize,
    /// Distinct jurisdictions those witnesses must span.
    pub min_countries: usize,
}

/// The most independent agreement [`Policy::for_age`] will ever demand.
///
/// The cap exists because an unsatisfiable policy is a refusal dressed up as a rule.
pub const MAX_CORROBORATION: usize = 4;

/// How many witnesses, in how many jurisdictions, a header of an age asks for: two,
/// and one more for every trusting period, up to the cap.
pub open spec fn demanded(age_ms: u64, trusting_period_ms: u64) -> nat {
    let periods = if trusting_period_ms == 0 {
        0nat
    } else {
        (age_ms / trusting_period_ms) as nat
    };
    if periods + 2 <= MAX_CORROBORATION {
        periods + 2
    } else {
        MAX_CORROBORATION as nat
    }
}

impl Policy {
    /// Whether so many witnesses in so many jurisdictions are enough.
    pub open spec fn met_by(self, witnesses: nat, countries: nat) -> bool {
        witnesses >= self.min_witnesses && countries >= self.min_countries
    }

    /// The baseline: two witnesses in two jurisdictions. A single source is
    /// indistinguishable from no source, and collusion is cheapest under one legal
    /// authority.
    pub fn baseline() -> (p: Self)
        ensures
            p == (Policy { min_witnesses: 2, min_countries: 2 }),
    {
        Policy { min_witnesses: 2, min_countries: 2 }
    }

    /// The policy for a wallet whose trusted header is `age_ms` old.
    pub fn for_age(age_ms: u64, trusting_period_ms: u64) -> (p: Self)
        ensures
            p.min_witnesses == demanded(age_ms, trusting_period_ms),
            p.min_countries == demanded(age_ms, trusting_period_ms),
    {
        let periods: u64 = if trusting_period_ms == 0 {
            0
        } else {
            age_ms / trusting_period_ms
        };
        let extra: usize = if periods < 2 {
            periods as usize
        } else {
            2
        };
        Policy { min_witnesses: 2 + extra, min_countries: 2 + extra }
    }

    /// Whether a set of witnesses could ever satisfy this policy.
    pub fn satisfiable_by(&self, witnesses: usize, countries: usize) -> (b: bool)
        ensures
            b == self.met_by(witnesses as nat, countries as nat),
    {
        witnesses >= self.min_witnesses && countries >= self.min_countries
    }
}

/// Waiting never makes the bar easier, and it never rises past the cap: the demand
/// is at least the baseline and does not fall as a header ages.
pub proof fn law_staleness_raises_the_bar(age_ms: u64, older_ms: u64, trusting_period_ms: u64)
    requires
        age_ms <= older_ms,
    ensures
        2 <= demanded(age_ms, trusting_period_ms) <= demanded(older_ms, trusting_period_ms)
            <= MAX_CORROBORATION,
{
    if trusting_period_ms > 0 {
        vstd::arithmetic::div_mod::lemma_div_is_ordered(
            age_ms as int,
            older_ms as int,
            trusting_period_ms as int,
        );
    }
}

/// The views of some observations.
pub open spec fn seen(observations: Seq<Observation>) -> Seq<ObservationView> {
    Seq::new(observations.len(), |i: int| observations[i]@)
}

/// Whether two observations report different blocks at one height.
pub open spec fn disagree(a: ObservationView, b: ObservationView) -> bool {
    a.height == b.height && a.block_id != b.block_id
}

/// Whether a later observation disagrees with the one at a place.
pub open spec fn disputed(obs: Seq<ObservationView>, i: int) -> bool {
    exists|j: int| i < j < obs.len() && disagree(obs[i], #[trigger] obs[j])
}

/// The first disputed height from a place on, if there is one.
pub open spec fn dispute_from(obs: Seq<ObservationView>, i: nat) -> Option<u64>
    decreases obs.len() - i,
{
    if i >= obs.len() {
        None
    } else if disputed(obs, i as int) {
        Some(obs[i as int].height.0)
    } else {
        dispute_from(obs, i + 1)
    }
}

/// The operators that reported on a height, each once however often it answered.
pub open spec fn logs_at(obs: Seq<ObservationView>, height: Height) -> Set<LogId>
    decreases obs.len(),
{
    if obs.len() == 0 {
        Set::empty()
    } else {
        let before = logs_at(obs.drop_last(), height);
        if obs.last().height == height {
            before.insert(obs.last().log)
        } else {
            before
        }
    }
}

/// The jurisdictions that reported on a height.
pub open spec fn countries_at(obs: Seq<ObservationView>, height: Height) -> Set<[u8; 2]>
    decreases obs.len(),
{
    if obs.len() == 0 {
        Set::empty()
    } else {
        let before = countries_at(obs.drop_last(), height);
        if obs.last().height == height {
            before.insert(obs.last().country)
        } else {
            before
        }
    }
}

/// Whether a height has enough independent agreement behind it.
pub open spec fn backed(obs: Seq<ObservationView>, height: Height, policy: Policy) -> bool {
    policy.met_by(logs_at(obs, height).len(), countries_at(obs, height).len())
}

/// The most witnesses behind any of the first `n` reported heights.
pub open spec fn most_witnesses(obs: Seq<ObservationView>, n: nat) -> nat
    decreases n,
{
    if n == 0 {
        0
    } else {
        let here = logs_at(obs, obs[n - 1].height).len();
        let before = most_witnesses(obs, (n - 1) as nat);
        if here > before {
            here
        } else {
            before
        }
    }
}

/// The most jurisdictions behind any of the first `n` reported heights.
pub open spec fn most_countries(obs: Seq<ObservationView>, n: nat) -> nat
    decreases n,
{
    if n == 0 {
        0
    } else {
        let here = countries_at(obs, obs[n - 1].height).len();
        let before = most_countries(obs, (n - 1) as nat);
        if here > before {
            here
        } else {
            before
        }
    }
}

/// Whether a checkpoint is the highest height with enough agreement behind it, and
/// the block that was reported there.
pub open spec fn is_corroborated(
    cp: CheckpointView,
    chain_id: Seq<char>,
    obs: Seq<ObservationView>,
    policy: Policy,
) -> bool {
    &&& cp.chain_id == chain_id
    &&& exists|i: int|
        0 <= i < obs.len() && (#[trigger] obs[i]).height == cp.height && obs[i].block_id
            == cp.block_id
    &&& backed(obs, cp.height, policy)
    &&& forall|i: int|
        0 <= i < obs.len() && backed(obs, (#[trigger] obs[i]).height, policy) ==> obs[i].height.0
            <= cp.height.0
}

/// The operators and the jurisdictions behind a height.
fn count_at(observations: &[Observation], height: Height) -> (r: (usize, usize))
    ensures
        r.0 == logs_at(seen(observations@), height).len(),
        r.1 == countries_at(seen(observations@), height).len(),
{
    let ghost obs = seen(observations@);
    let mut logs: Vec<LogId> = Vec::new();
    let mut countries: Vec<[u8; 2]> = Vec::new();
    let mut i: usize = 0;
    assert(obs.take(0) =~= Seq::empty());
    assert(logs@.to_set() =~= Set::empty());
    assert(countries@.to_set() =~= Set::empty());
    while i < observations.len()
        invariant
            i <= observations@.len(),
            obs == seen(observations@),
            logs@.no_duplicates(),
            countries@.no_duplicates(),
            logs@.to_set() == logs_at(obs.take(i as int), height),
            countries@.to_set() == countries_at(obs.take(i as int), height),
        decreases observations@.len() - i,
    {
        assert(obs.take(i as int + 1).drop_last() =~= obs.take(i as int));
        assert(obs.take(i as int + 1).last() == observations@[i as int]@);
        let o = &observations[i];
        if o.height() == height {
            note_log(&mut logs, o.log());
            note_country(&mut countries, o.country());
        }
        i += 1;
    }
    assert(obs.take(obs.len() as int) =~= obs);
    proof {
        logs@.unique_seq_to_set();
        countries@.unique_seq_to_set();
    }
    (logs.len(), countries.len())
}

/// The first disputed height, if witnesses disagree anywhere.
fn find_dispute(observations: &[Observation]) -> (r: Option<u64>)
    ensures
        r == dispute_from(seen(observations@), 0),
{
    let ghost obs = seen(observations@);
    let mut i: usize = 0;
    while i < observations.len()
        invariant
            i <= observations@.len(),
            obs == seen(observations@),
            dispute_from(obs, 0) == dispute_from(obs, i as nat),
        decreases observations@.len() - i,
    {
        let a = &observations[i];
        let mut j: usize = i + 1;
        while j < observations.len()
            invariant
                i < j <= observations@.len(),
                obs == seen(observations@),
                a@ == obs[i as int],
                dispute_from(obs, 0) == dispute_from(obs, i as nat),
                forall|k: int| i < k < j ==> !disagree(obs[i as int], #[trigger] obs[k]),
            decreases observations@.len() - j,
        {
            let b = &observations[j];
            assert(b@ == obs[j as int]);
            if a.height() == b.height() && !a.block_id().same(&b.block_id()) {
                assert(disagree(obs[i as int], obs[j as int]));
                return Some(a.height().0);
            }
            j += 1;
        }
        assert(!disputed(obs, i as int));
        i += 1;
    }
    None
}

/// Combine verified observations into a checkpoint, or refuse.
///
/// The result is the highest height that meets `policy`. A disagreement anywhere
/// refuses everything: picking a winner among witnesses is the judgement a light
/// client is not equipped to make.
pub fn corroborate(chain_id: &ChainId, observations: &[Observation], policy: Policy) -> (r: Result<
    Checkpoint,
    WitnessError,
>)
    ensures
        ({
            let obs = seen(observations@);
            match r {
                Ok(cp) => {
                    &&& dispute_from(obs, 0) is None
                    &&& is_corroborated(cp.deep_view(), chain_id@, obs, policy)
                },
                Err(e) => match dispute_from(obs, 0) {
                    Some(height) => e.deep_view() == (WitnessFault::SplitView { height }),
                    None => {
                        &&& forall|i: int|
                            0 <= i < obs.len() ==> !backed(obs, (#[trigger] obs[i]).height, policy)
                        &&& e.deep_view() == (WitnessFault::NotCorroborated {
                            witnesses: most_witnesses(obs, obs.len()) as usize,
                            countries: most_countries(obs, obs.len()) as usize,
                            need_witnesses: policy.min_witnesses,
                            need_countries: policy.min_countries,
                        })
                    },
                },
            }
        }),
{
    let ghost obs = seen(observations@);
    if let Some(height) = find_dispute(observations) {
        return Err(WitnessError::SplitView { height });
    }
    let mut best_height = Height(0);
    let mut best_block = Hash32::zero();
    let mut found = false;
    let mut best_witnesses: usize = 0;
    let mut best_countries: usize = 0;
    let mut i: usize = 0;
    while i < observations.len()
        invariant
            i <= observations@.len(),
            obs == seen(observations@),
            best_witnesses == most_witnesses(obs, i as nat),
            best_countries == most_countries(obs, i as nat),
            found ==> backed(obs, best_height, policy) && exists|j: int|
                0 <= j < obs.len() && (#[trigger] obs[j]).height == best_height && obs[j].block_id
                    == best_block,
            found ==> forall|j: int|
                0 <= j < i && backed(obs, (#[trigger] obs[j]).height, policy) ==> obs[j].height.0
                    <= best_height.0,
            !found ==> forall|j: int|
                0 <= j < i ==> !backed(obs, (#[trigger] obs[j]).height, policy),
        decreases observations@.len() - i,
    {
        let candidate = &observations[i];
        assert(candidate@ == obs[i as int]);
        let (witnesses, countries) = count_at(observations, candidate.height());
        if witnesses > best_witnesses {
            best_witnesses = witnesses;
        }
        if countries > best_countries {
            best_countries = countries;
        }
        if policy.satisfiable_by(witnesses, countries) && (!found || candidate.height().0
            > best_height.0) {
            best_height = candidate.height();
            best_block = candidate.block_id();
            found = true;
            assert(obs[i as int].height == best_height && obs[i as int].block_id == best_block);
        }
        i += 1;
    }
    if found {
        Ok(
            Checkpoint {
                chain_id: chain_id.clone(),
                height: best_height,
                block_id: best_block,
            },
        )
    } else {
        Err(
            WitnessError::NotCorroborated {
                witnesses: best_witnesses,
                countries: best_countries,
                need_witnesses: policy.min_witnesses,
                need_countries: policy.min_countries,
            },
        )
    }
}

proof fn lemma_no_dispute(obs: Seq<ObservationView>, i: nat)
    requires
        dispute_from(obs, i) is None,
    ensures
        forall|k: int| i <= k < obs.len() ==> !#[trigger] disputed(obs, k),
    decreases obs.len() - i,
{
    if i < obs.len() {
        lemma_no_dispute(obs, i + 1);
    }
}

/// A checkpoint is never a side taken: where one is adopted, everybody who reported
/// on its height reported its block.
pub proof fn law_a_checkpoint_is_undisputed(
    cp: CheckpointView,
    chain_id: Seq<char>,
    obs: Seq<ObservationView>,
    policy: Policy,
    i: int,
)
    requires
        dispute_from(obs, 0) is None,
        is_corroborated(cp, chain_id, obs, policy),
        0 <= i < obs.len(),
        obs[i].height == cp.height,
    ensures
        obs[i].block_id == cp.block_id,
{
    lemma_no_dispute(obs, 0);
    let k = choose|k: int|
        0 <= k < obs.len() && (#[trigger] obs[k]).height == cp.height && obs[k].block_id
            == cp.block_id;
    if k < i {
        assert(!disputed(obs, k));
        assert(!disagree(obs[k], obs[i]));
    } else if i < k {
        assert(!disputed(obs, i));
        assert(!disagree(obs[i], obs[k]));
    }
}

/// The checkpoint is the same whatever order the observations come in, and whoever
/// combines them: two checkpoints from one undisputed set are one.
pub proof fn law_a_checkpoint_is_unique(
    a: CheckpointView,
    b: CheckpointView,
    chain_id: Seq<char>,
    obs: Seq<ObservationView>,
    policy: Policy,
)
    requires
        dispute_from(obs, 0) is None,
        is_corroborated(a, chain_id, obs, policy),
        is_corroborated(b, chain_id, obs, policy),
    ensures
        a == b,
{
    let i = choose|i: int|
        0 <= i < obs.len() && (#[trigger] obs[i]).height == a.height && obs[i].block_id
            == a.block_id;
    let j = choose|j: int|
        0 <= j < obs.len() && (#[trigger] obs[j]).height == b.height && obs[j].block_id
            == b.block_id;
    assert(obs[i].height.0 <= b.height.0);
    assert(obs[j].height.0 <= a.height.0);
    assert(a.height == b.height);
    law_a_checkpoint_is_undisputed(b, chain_id, obs, policy, i);
}

/// A stricter policy adopts nothing that a looser one would refuse.
pub proof fn law_stricter_policies_demand_more(
    obs: Seq<ObservationView>,
    height: Height,
    loose: Policy,
    strict: Policy,
)
    requires
        loose.min_witnesses <= strict.min_witnesses,
        loose.min_countries <= strict.min_countries,
        backed(obs, height, strict),
    ensures
        backed(obs, height, loose),
{
}

impl Encode for Checkpoint {
    open spec fn bytes_of(v: CheckpointView) -> Seq<u8> {
        <(ChainId, (Height, Hash32))>::bytes_of((v.chain_id, (v.height, v.block_id)))
    }

    fn encode(&self, out: &mut Vec<u8>) {
        broadcast use wire::lemma_concat_assoc;

        self.chain_id.encode(out);
        self.height.encode(out);
        self.block_id.encode(out);
    }
}

impl Decode for Checkpoint {
    open spec fn parse(s: Seq<u8>) -> Parsed<CheckpointView> {
        <(ChainId, (Height, Hash32))>::parse(s).map(
            |t: (Seq<char>, (Height, Hash32))|
                CheckpointView { chain_id: t.0, height: t.1.0, block_id: t.1.1 },
        )
    }

    fn decode(r: &mut Reader<'_>) -> (res: Result<Self, CodecError>) {
        let chain_id = ChainId::decode(r)?;
        let height = Height::decode(r)?;
        let block_id = Hash32::decode(r)?;
        Ok(Checkpoint { chain_id, height, block_id })
    }
}

impl Canonical for Checkpoint {
    open spec fn valid(v: CheckpointView) -> bool {
        <(ChainId, (Height, Hash32))>::valid((v.chain_id, (v.height, v.block_id)))
    }

    proof fn round_trip(v: CheckpointView, tail: Seq<u8>) {
        <(ChainId, (Height, Hash32))>::round_trip((v.chain_id, (v.height, v.block_id)), tail);
    }

    proof fn one_encoding(s: Seq<u8>) {
        <(ChainId, (Height, Hash32))>::one_encoding(s);
    }
}

} // verus!
