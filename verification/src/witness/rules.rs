//! What an auditing wallet accepts, rule by rule.
//!
//! The laws here say, in terms of what witnesses sign and what a wallet was shown, when
//! a head is genuine, when an observation or a growth proof is accepted, and what the
//! observations together support.

use crate::crypto::hash::{digest, Domain, Hash32};
use crate::crypto::keys::signed_by;
use crate::crypto::merkle::{climbed, grows, root_over};
use crate::primitives::codec::Encode;
use crate::primitives::ids::{Height, Timestamp};
use crate::witness::audit::{
    continuity_complaint, jurisdictions, logs_distinct, observe_complaint, witness_with,
    Observation, ObservationView, Remembered, WitnessView,
};
use crate::witness::error::{audited, WitnessError, WitnessFault};
use crate::witness::head::{
    law_an_identifier_is_its_digest, log_of, ConflictView, LogId, SignedHeadView,
    TreeHead,
};
use crate::witness::log::{
    entry_leaf, entry_leaves, follows, goes_forward, log_root, LogEntry, LogView,
};
use crate::witness::policy::{
    backed, countries_at, demanded, dispute_from, disputed, is_corroborated, logs_at,
    most_countries, most_witnesses, seen, CheckpointView, Policy,
};
use vstd::prelude::*;

verus! {

// ---------------------------------------------------------------------------
// Policies
// ---------------------------------------------------------------------------

/// How much corroboration is demanded of a wallet that has been away: of two while it
/// is within its trusting period, of three within twice that, and of four from then on.
/// Without a trusting period it is two.
pub proof fn law_how_much_is_demanded(age_ms: u64, trusting_period_ms: u64)
    ensures
        demanded(age_ms, trusting_period_ms) == if trusting_period_ms == 0 || age_ms
            < trusting_period_ms {
            2int
        } else if age_ms < 2 * trusting_period_ms {
            3
        } else {
            4
        },
{
    if trusting_period_ms > 0 {
        let (a, t) = (age_ms as int, trusting_period_ms as int);
        let q = a / t;
        vstd::arithmetic::div_mod::lemma_fundamental_div_mod(a, t);
        assert(q == 0 <==> a < t) by (nonlinear_arith)
            requires
                a == t * q + a % t,
                0 <= a % t < t,
                a >= 0,
                q >= 0,
        ;
        assert(q <= 1 <==> a < 2 * t) by (nonlinear_arith)
            requires
                a == t * q + a % t,
                0 <= a % t < t,
                a >= 0,
                q >= 0,
        ;
    }
}

/// A policy is met by enough witnesses in enough jurisdictions, and not by either alone.
pub proof fn law_when_a_policy_is_met(policy: Policy, witnesses: nat, countries: nat)
    ensures
        policy.met_by(witnesses, countries) <==> witnesses >= policy.min_witnesses && countries
            >= policy.min_countries,
{
}

/// Who saw a height: the logs, and the jurisdictions, of the observations of it.
pub proof fn law_who_saw_a_height(obs: Seq<ObservationView>, height: Height)
    ensures
        forall|log: LogId| #[trigger]
            logs_at(obs, height).contains(log) <==> exists|i: int|
                0 <= i < obs.len() && (#[trigger] obs[i]).height == height && obs[i].log == log,
        forall|country: [u8; 2]| #[trigger]
            countries_at(obs, height).contains(country) <==> exists|i: int|
                0 <= i < obs.len() && (#[trigger] obs[i]).height == height && obs[i].country
                    == country,
    decreases obs.len(),
{
    if obs.len() > 0 {
        let rest = obs.drop_last();
        law_who_saw_a_height(rest, height);
        let last = obs.len() - 1;
        assert forall|log: LogId| #[trigger] logs_at(obs, height).contains(log) <==> exists|i: int|
            0 <= i < obs.len() && (#[trigger] obs[i]).height == height && obs[i].log == log by {
            if logs_at(rest, height).contains(log) {
                let i = choose|i: int|
                    0 <= i < rest.len() && (#[trigger] rest[i]).height == height && rest[i].log
                        == log;
                assert(obs[i] == rest[i]);
            }
            if exists|i: int|
                0 <= i < obs.len() && (#[trigger] obs[i]).height == height && obs[i].log == log {
                let i = choose|i: int|
                    0 <= i < obs.len() && (#[trigger] obs[i]).height == height && obs[i].log
                        == log;
                if i < last {
                    assert(rest[i] == obs[i]);
                }
            }
            assert(obs[last] == obs.last());
        }
        assert forall|country: [u8; 2]| #[trigger]
            countries_at(obs, height).contains(country) <==> exists|i: int|
                0 <= i < obs.len() && (#[trigger] obs[i]).height == height && obs[i].country
                    == country by {
            if countries_at(rest, height).contains(country) {
                let i = choose|i: int|
                    0 <= i < rest.len() && (#[trigger] rest[i]).height == height && rest[i].country
                        == country;
                assert(obs[i] == rest[i]);
            }
            if exists|i: int|
                0 <= i < obs.len() && (#[trigger] obs[i]).height == height && obs[i].country
                    == country {
                let i = choose|i: int|
                    0 <= i < obs.len() && (#[trigger] obs[i]).height == height && obs[i].country
                        == country;
                if i < last {
                    assert(rest[i] == obs[i]);
                }
            }
            assert(obs[last] == obs.last());
        }
    }
}

proof fn lemma_where_the_dispute_is(obs: Seq<ObservationView>, from: nat)
    ensures
        dispute_from(obs, from) is None <==> forall|i: int|
            from <= i < obs.len() ==> !#[trigger] disputed(obs, i),
        dispute_from(obs, from) matches Some(h) ==> exists|i: int|
            from <= i < obs.len() && #[trigger] disputed(obs, i) && obs[i].height.0 == h && (
            forall|k: int| from <= k < i ==> !#[trigger] disputed(obs, k)),
    decreases obs.len() - from,
{
    if from < obs.len() {
        if disputed(obs, from as int) {
            assert(forall|k: int| from <= k < from ==> !#[trigger] disputed(obs, k));
        } else {
            lemma_where_the_dispute_is(obs, from + 1);
            if dispute_from(obs, from) is Some {
                let h = dispute_from(obs, from)->0;
                let i = choose|i: int|
                    from + 1 <= i < obs.len() && #[trigger] disputed(obs, i) && obs[i].height.0
                        == h && (forall|k: int| from + 1 <= k < i ==> !#[trigger] disputed(obs, k));
                assert(forall|k: int| from <= k < i ==> !#[trigger] disputed(obs, k));
            }
            if forall|i: int| from + 1 <= i < obs.len() ==> !#[trigger] disputed(obs, i) {
                assert forall|i: int| from <= i < obs.len() implies !#[trigger] disputed(
                    obs,
                    i,
                ) by {}
            }
        }
    }
}

/// When observations are in dispute: two of them show different blocks at one height,
/// and nothing else makes a dispute. The height named is that of the first observation
/// that a later one contradicts.
pub proof fn law_when_observations_are_in_dispute(obs: Seq<ObservationView>)
    ensures
        dispute_from(obs, 0) is None <==> forall|i: int, j: int|
            0 <= i < j < obs.len() && (#[trigger] obs[i]).height == (#[trigger] obs[j]).height
                ==> obs[i].block_id == obs[j].block_id,
        dispute_from(obs, 0) matches Some(h) ==> exists|i: int, j: int|
            {
                &&& 0 <= i < j < obs.len()
                &&& (#[trigger] obs[i]).height.0 == h
                &&& (#[trigger] obs[j]).height.0 == h
                &&& obs[i].block_id != obs[j].block_id
                &&& forall|k: int, l: int|
                    0 <= k < i && k < l < obs.len() && (#[trigger] obs[k]).height == (
                    #[trigger] obs[l]).height ==> obs[k].block_id == obs[l].block_id
            },
{
    lemma_where_the_dispute_is(obs, 0);
    if dispute_from(obs, 0) is None {
        assert forall|i: int, j: int|
            0 <= i < j < obs.len() && (#[trigger] obs[i]).height == (
            #[trigger] obs[j]).height implies obs[i].block_id == obs[j].block_id by {
            assert(!disputed(obs, i));
        }
    } else {
        let h = dispute_from(obs, 0)->0;
        let i = choose|i: int|
            0 <= i < obs.len() && #[trigger] disputed(obs, i) && obs[i].height.0 == h && (forall|
                k: int,
            |
                0 <= k < i ==> !#[trigger] disputed(obs, k));
        let j = choose|j: int|
            i < j < obs.len() && crate::witness::policy::disagree(obs[i], #[trigger] obs[j]);
        assert(obs[i].height == obs[j].height && obs[i].block_id != obs[j].block_id);
        assert forall|k: int, l: int|
            0 <= k < i && k < l < obs.len() && (#[trigger] obs[k]).height == (
            #[trigger] obs[l]).height implies obs[k].block_id == obs[l].block_id by {
            assert(!disputed(obs, k));
        }
    }
}

/// What a checkpoint is corroborated by: it is of the chain, somebody saw its block at
/// its height, that height was seen by as many logs and from as many jurisdictions as
/// the policy asks, and no greater height was.
pub proof fn law_what_corroborates_a_checkpoint(
    cp: CheckpointView,
    chain_id: Seq<char>,
    obs: Seq<ObservationView>,
    policy: Policy,
    height: Height,
)
    ensures
        backed(obs, height, policy) <==> logs_at(obs, height).len() >= policy.min_witnesses
            && countries_at(obs, height).len() >= policy.min_countries,
        is_corroborated(cp, chain_id, obs, policy) <==> {
            &&& cp.chain_id == chain_id
            &&& exists|i: int|
                0 <= i < obs.len() && (#[trigger] obs[i]).height == cp.height && obs[i].block_id
                    == cp.block_id
            &&& logs_at(obs, cp.height).len() >= policy.min_witnesses
            &&& countries_at(obs, cp.height).len() >= policy.min_countries
            &&& forall|i: int|
                0 <= i < obs.len() && (#[trigger] obs[i]).height.0 > cp.height.0 ==> logs_at(
                    obs,
                    obs[i].height,
                ).len() < policy.min_witnesses || countries_at(obs, obs[i].height).len()
                    < policy.min_countries
        },
{
    if is_corroborated(cp, chain_id, obs, policy) {
        assert forall|i: int|
            0 <= i < obs.len() && (#[trigger] obs[i]).height.0 > cp.height.0 implies logs_at(
            obs,
            obs[i].height,
        ).len() < policy.min_witnesses || countries_at(obs, obs[i].height).len()
            < policy.min_countries by {
            assert(!backed(obs, obs[i].height, policy));
        }
    }
}

/// The most witnesses, and the most jurisdictions, that any observed height has: no
/// height has more, and some height has as many, or there is none.
pub proof fn law_the_most_that_agree(obs: Seq<ObservationView>, n: nat)
    requires
        n <= obs.len(),
    ensures
        forall|i: int|
            0 <= i < n ==> logs_at(obs, (#[trigger] obs[i]).height).len() <= most_witnesses(obs, n),
        forall|i: int|
            0 <= i < n ==> countries_at(obs, (#[trigger] obs[i]).height).len() <= most_countries(
                obs,
                n,
            ),
        most_witnesses(obs, n) == 0 || exists|i: int|
            0 <= i < n && logs_at(obs, (#[trigger] obs[i]).height).len() == most_witnesses(obs, n),
        most_countries(obs, n) == 0 || exists|i: int|
            0 <= i < n && countries_at(obs, (#[trigger] obs[i]).height).len() == most_countries(
                obs,
                n,
            ),
    decreases n,
{
    if n > 0 {
        let m = (n - 1) as nat;
        law_the_most_that_agree(obs, m);
        let last = obs[m as int];
        if most_witnesses(obs, n) != 0 && most_witnesses(obs, n) == most_witnesses(obs, m) {
            let i = choose|i: int|
                0 <= i < m && logs_at(obs, (#[trigger] obs[i]).height).len() == most_witnesses(
                    obs,
                    m,
                );
            assert(logs_at(obs, obs[i].height).len() == most_witnesses(obs, n));
        }
        if most_countries(obs, n) != 0 && most_countries(obs, n) == most_countries(obs, m) {
            let i = choose|i: int|
                0 <= i < m && countries_at(obs, (#[trigger] obs[i]).height).len()
                    == most_countries(obs, m);
            assert(countries_at(obs, obs[i].height).len() == most_countries(obs, n));
        }
        assert(obs[m as int] == last);
    }
}

// ---------------------------------------------------------------------------
// Witnesses
// ---------------------------------------------------------------------------

/// Looking a witness up gives the first that keeps the log, and the jurisdictions of
/// witnesses are those that they are in.
pub proof fn law_lookup_finds_the_witness(witnesses: Seq<WitnessView>, log: LogId)
    ensures
        witness_with(witnesses, log) is None <==> forall|i: int|
            0 <= i < witnesses.len() ==> (#[trigger] witnesses[i]).log != log,
        witness_with(witnesses, log) matches Some(w) ==> exists|i: int|
            0 <= i < witnesses.len() && #[trigger] witnesses[i] == w && w.log == log && (forall|
                j: int,
            |
                0 <= j < i ==> (#[trigger] witnesses[j]).log != log),
        logs_distinct(witnesses) <==> forall|i: int, j: int|
            0 <= i < j < witnesses.len() ==> (#[trigger] witnesses[i]).log != (
            #[trigger] witnesses[j]).log,
    decreases witnesses.len(),
{
    if witnesses.len() > 0 {
        let rest = witnesses.drop_first();
        law_lookup_finds_the_witness(rest, log);
        if witnesses[0].log != log {
            if witness_with(rest, log) is Some {
                let w = witness_with(rest, log)->0;
                let i = choose|i: int|
                    0 <= i < rest.len() && #[trigger] rest[i] == w && w.log == log && (forall|
                        j: int,
                    |
                        0 <= j < i ==> (#[trigger] rest[j]).log != log);
                assert(witnesses[i + 1] == w);
                assert forall|j: int| 0 <= j < i + 1 implies (#[trigger] witnesses[j]).log
                    != log by {
                    if j > 0 {
                        assert(rest[j - 1].log != log);
                    }
                }
            } else {
                assert forall|i: int| 0 <= i < witnesses.len() implies (
                #[trigger] witnesses[i]).log != log by {
                    if i > 0 {
                        assert(rest[i - 1].log != log);
                    }
                }
            }
        } else {
            assert(witnesses[0] == witness_with(witnesses, log)->0);
        }
    }
}

/// The jurisdictions of witnesses are the ones that some witness is in.
pub proof fn law_jurisdictions_are_the_witnesses_own(witnesses: Seq<WitnessView>)
    ensures
        forall|country: [u8; 2]| #[trigger]
            jurisdictions(witnesses).contains(country) <==> exists|i: int|
                0 <= i < witnesses.len() && (#[trigger] witnesses[i]).country == country,
    decreases witnesses.len(),
{
    if witnesses.len() > 0 {
        let rest = witnesses.drop_last();
        law_jurisdictions_are_the_witnesses_own(rest);
        let last = witnesses.len() - 1;
        assert forall|country: [u8; 2]| #[trigger]
            jurisdictions(witnesses).contains(country) <==> exists|i: int|
                0 <= i < witnesses.len() && (#[trigger] witnesses[i]).country == country by {
            if jurisdictions(rest).contains(country) {
                let i = choose|i: int|
                    0 <= i < rest.len() && (#[trigger] rest[i]).country == country;
                assert(witnesses[i] == rest[i]);
            }
            if exists|i: int|
                0 <= i < witnesses.len() && (#[trigger] witnesses[i]).country == country {
                let i = choose|i: int|
                    0 <= i < witnesses.len() && (#[trigger] witnesses[i]).country == country;
                if i < last {
                    assert(rest[i] == witnesses[i]);
                }
            }
            assert(witnesses[last] == witnesses.last());
        }
    }
}

/// When a head is genuine under a key: the log that it names is the key's own, which is
/// the digest of the key, and the key signed the head's encoding, as a head and as
/// nothing else. The log is looked at first.
pub proof fn law_when_a_head_is_genuine(sth: SignedHeadView, key: Seq<u8>)
    ensures
        log_of(key)@ == digest(Domain::WitnessLogId, key),
        sth.head.document() == TreeHead::bytes_of(sth.head),
        sth.complaint(key) == if sth.head.log@ != digest(Domain::WitnessLogId, key) {
            Some(WitnessFault::LogMismatch)
        } else if !signed_by(
            key,
            Domain::TreeHeadSignDoc,
            TreeHead::bytes_of(sth.head),
            sth.signature,
        ) {
            Some(WitnessFault::BadSignature)
        } else {
            None
        },
{
    law_an_identifier_is_its_digest(digest(Domain::WitnessLogId, key), sth.head.log);
    law_an_identifier_is_its_digest(digest(Domain::WitnessLogId, key), log_of(key));
}

/// What convicts a witness: two heads, both genuine under its key, of one size and with
/// different roots. Anything short of that does not.
pub proof fn law_what_convicts_a_witness(e: ConflictView, key: Seq<u8>)
    ensures
        e.complaint(key) is None <==> {
            &&& e.a.complaint(key) is None
            &&& e.b.complaint(key) is None
            &&& e.a.head.size == e.b.head.size
            &&& e.a.head.root != e.b.head.root
        },
        e.a.complaint(key) is None && e.b.complaint(key) is None && e.complaint(key) is Some
            ==> e.complaint(key) == Some(WitnessFault::NotEquivocation),
        e.a.complaint(key) is Some ==> e.complaint(key) == e.a.complaint(key),
        e.a.complaint(key) is None && e.b.complaint(key) is Some ==> e.complaint(key)
            == e.b.complaint(key),
{
}

/// When an observation is accepted: the log is of a witness that is known, the head is
/// genuine under that witness's key and for this chain, and the proof is for the entry
/// at the place claimed in a tree of the head's size and leads to its root. The first of
/// these that fails, in that order, is the error.
pub proof fn law_when_an_observation_is_accepted(
    witnesses: Seq<WitnessView>,
    chain_id: Seq<char>,
    sth: SignedHeadView,
    index: u64,
    entry: LogEntry,
    proof_index: usize,
    proof_total: usize,
    siblings: Seq<Hash32>,
)
    ensures
        ({
            let known = witness_with(witnesses, sth.head.log);
            let head = sth.head;
            observe_complaint(
                witnesses,
                chain_id,
                sth,
                index,
                entry,
                proof_index,
                proof_total,
                siblings,
            ) == if known is None {
                Some(WitnessFault::UnknownWitness)
            } else if sth.complaint(known->0.key) is Some {
                sth.complaint(known->0.key)
            } else if head.chain_id != chain_id {
                Some(WitnessFault::WrongChain { got: head.chain_id, expected: chain_id })
            } else if proof_total != head.size || proof_index != index {
                Some(
                    WitnessFault::SizeMismatch { got: proof_total as u64, expected: head.size },
                )
            } else if index >= head.size || climbed(
                digest(Domain::WitnessEntry, LogEntry::bytes_of(entry)),
                index as int,
                head.size as nat,
                siblings,
            ) != Some(head.root) {
                Some(WitnessFault::BadInclusionProof)
            } else {
                None
            }
        }),
{
}

/// When a log is accepted as having only grown: it is of a witness that is known, the
/// head is genuine under that witness's key and of the log that is remembered, the tree
/// is no smaller, the proof is between the size remembered and the size shown, and it
/// holds. The first of these that fails, in that order, is the error.
pub proof fn law_when_growth_is_accepted(
    witnesses: Seq<WitnessView>,
    remembered: Remembered,
    sth: SignedHeadView,
    old_size: usize,
    new_size: usize,
    digests: Seq<Hash32>,
)
    ensures
        ({
            let known = witness_with(witnesses, sth.head.log);
            let head = sth.head;
            continuity_complaint(witnesses, remembered, sth, old_size, new_size, digests)
                == if known
                is None {
                Some(WitnessFault::UnknownWitness)
            } else if sth.complaint(known->0.key) is Some {
                sth.complaint(known->0.key)
            } else if head.log != remembered.log {
                Some(WitnessFault::LogMismatch)
            } else if head.size < remembered.size {
                Some(WitnessFault::SizeMismatch { got: head.size, expected: remembered.size })
            } else if old_size != remembered.size || new_size != head.size {
                Some(
                    WitnessFault::SizeMismatch { got: old_size as u64, expected: remembered.size },
                )
            } else if !grows(
                remembered.root,
                head.root,
                remembered.size as nat,
                head.size as nat,
                digests,
            ) {
                Some(WitnessFault::BadConsistencyProof)
            } else {
                None
            }
        }),
{
}

// ---------------------------------------------------------------------------
// Logs
// ---------------------------------------------------------------------------

/// A log goes forward in height and in time, both: an entry follows another when its
/// height is greater and it was observed later.
pub proof fn law_logs_go_forward(entries: Seq<LogEntry>, entry: LogEntry, last: LogEntry)
    ensures
        follows(entry, last) <==> entry.height.0 > last.height.0 && entry.observed_at.0
            > last.observed_at.0,
        goes_forward(entries) <==> forall|i: int, j: int|
            0 <= i < j < entries.len() ==> (#[trigger] entries[j]).height.0 > (
            #[trigger] entries[i]).height.0 && entries[j].observed_at.0 > entries[i].observed_at.0,
{
    if goes_forward(entries) {
        assert forall|i: int, j: int| 0 <= i < j < entries.len() implies (
        #[trigger] entries[j]).height.0 > (#[trigger] entries[i]).height.0
            && entries[j].observed_at.0 > entries[i].observed_at.0 by {
            assert(follows(entries[j], entries[i]));
        }
    }
}

/// What a head says of a log: whose it is, for which chain, how many entries it has, and
/// the root over the digests of their encodings, in their order.
pub proof fn law_a_head_speaks_of_the_whole_log(log: LogView, signed_at: Timestamp)
    ensures
        ({
            let head = log.head(signed_at);
            &&& head.log == log.log
            &&& head.chain_id == log.chain_id
            &&& log.entries.len() <= u64::MAX ==> head.size == log.entries.len()
            &&& head.signed_at == signed_at
            &&& head.root == root_over(
                Seq::new(
                    log.entries.len(),
                    |i: int| digest(Domain::WitnessEntry, LogEntry::bytes_of(log.entries[i])),
                ),
            )
        }),
        log_root(log.entries) == root_over(entry_leaves(log.entries)),
        forall|e: LogEntry| #[trigger]
            entry_leaf(e) == digest(Domain::WitnessEntry, LogEntry::bytes_of(e)),
{
    assert(entry_leaves(log.entries) =~= Seq::new(
        log.entries.len(),
        |i: int| digest(Domain::WitnessEntry, LogEntry::bytes_of(log.entries[i])),
    ));
}

/// An audit says nothing where all is well, and otherwise what is wrong; and observations
/// are looked at in the order they are given in.
pub proof fn law_audits_say_what_is_wrong(e: WitnessError, obs: Seq<Observation>, i: int)
    ensures
        audited(Ok(())) is None,
        audited(Err(e)) == Some(e.deep_view()),
        seen(obs).len() == obs.len(),
        0 <= i < obs.len() ==> seen(obs)[i] == obs[i]@,
{
}

} // verus!
