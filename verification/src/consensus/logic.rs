//! The round clock, committer rotation and winner derivation.
//!
//! Time is counted in unix seconds from the timestamp of the most recently
//! committed block. A clock that reads earlier than that timestamp counts
//! as no time elapsed.

use crate::config::consensus::ConsensusConfig;
use crate::types::{optional_bytes, ConsensusCommitment};
use vstd::prelude::*;

verus! {

/// Seconds elapsed since the last block.
pub open spec fn elapsed_since(now: u32, last_block_ts: u32) -> int {
    if now >= last_block_ts {
        now - last_block_ts
    } else {
        0
    }
}

/// The 1-based round that `now` falls in.
pub open spec fn round_at(now: u32, last_block_ts: u32, round_duration: u32) -> int {
    elapsed_since(now, last_block_ts) / (round_duration as int) + 1
}

/// Seconds since the current round began.
pub open spec fn phase_offset_at(now: u32, last_block_ts: u32, round_duration: u32) -> int {
    elapsed_since(now, last_block_ts) % (round_duration as int)
}

/// The second at which the current round began.
pub open spec fn round_start_at(now: u32, last_block_ts: u32, round_duration: u32) -> int {
    last_block_ts + (round_at(now, last_block_ts, round_duration) - 1) * round_duration
}

/// Whether `now` falls in the clearing phase that opens its round.
pub open spec fn in_clearing_phase(now: u32, last_block_ts: u32, config: ConsensusConfig) -> bool {
    phase_offset_at(now, last_block_ts, config.round_duration) < config.clearing_phase
}

/// The position, among `count` validators, of the committer of `round`.
pub open spec fn committer_index(round: int, count: int) -> int {
    (round - 1) % count
}

/// The byte strings held by a list of keys.
pub open spec fn keys_of(keys: Seq<Vec<u8>>) -> Seq<Seq<u8>> {
    Seq::new(keys.len(), |i: int| keys[i]@)
}

/// The committer of the round that `now` falls in: validators take turns in
/// list order. `None` when there are no validators.
pub open spec fn committer_at(
    now: u32,
    last_block_ts: u32,
    validators: Seq<Seq<u8>>,
    round_duration: u32,
) -> Option<Seq<u8>> {
    if validators.len() == 0 {
        None
    } else {
        Some(
            validators[committer_index(
                round_at(now, last_block_ts, round_duration),
                validators.len() as int,
            )],
        )
    }
}

/// The validator that a random integer elects: the one at that integer
/// modulo the number of validators. `None` when there are no validators.
pub open spec fn winner_of(random: u64, validators: Seq<Seq<u8>>) -> Option<Seq<u8>> {
    if validators.len() == 0 {
        None
    } else {
        Some(validators[random as int % validators.len() as int])
    }
}

fn elapsed(now: u32, last_block_ts: u32) -> (seconds: u32)
    ensures
        seconds == elapsed_since(now, last_block_ts),
{
    if now >= last_block_ts {
        now - last_block_ts
    } else {
        0
    }
}

/// The 1-based round that `now` falls in.
pub fn current_round(now: u32, last_block_ts: u32, config: &ConsensusConfig) -> (round: u64)
    requires
        config.wf(),
    ensures
        round == round_at(now, last_block_ts, config.round_duration),
{
    (elapsed(now, last_block_ts) / config.round_duration) as u64 + 1
}

/// Seconds since the current round began.
pub fn phase_offset(now: u32, last_block_ts: u32, config: &ConsensusConfig) -> (offset: u32)
    requires
        config.wf(),
    ensures
        offset == phase_offset_at(now, last_block_ts, config.round_duration),
        offset < config.round_duration,
{
    elapsed(now, last_block_ts) % config.round_duration
}

/// Whether `now` falls in the clearing phase that opens its round.
pub fn is_clearing_phase(now: u32, last_block_ts: u32, config: &ConsensusConfig) -> (clearing: bool)
    requires
        config.wf(),
    ensures
        clearing == in_clearing_phase(now, last_block_ts, *config),
{
    phase_offset(now, last_block_ts, config) < config.clearing_phase
}

/// The second at which the current round began. A proposal stamped earlier
/// belongs to a past round.
pub fn round_start(now: u32, last_block_ts: u32, config: &ConsensusConfig) -> (start: u32)
    requires
        config.wf(),
    ensures
        start == round_start_at(now, last_block_ts, config.round_duration),
        now >= last_block_ts ==> start <= now,
{
    let gone: u32 = elapsed(now, last_block_ts);
    let offset: u32 = gone % config.round_duration;
    proof {
        let d = config.round_duration as int;
        assert(gone as int == d * (gone as int / d) + gone as int % d) by (nonlinear_arith)
            requires
                d > 0,
        ;
        assert((gone as int / d) * d == d * (gone as int / d)) by (nonlinear_arith);
    }
    last_block_ts + (gone - offset)
}

/// The committer of the round that `now` falls in.
pub fn get_committing_validator(
    now: u32,
    last_block_ts: u32,
    validators: &Vec<Vec<u8>>,
    config: &ConsensusConfig,
) -> (committer: Option<Vec<u8>>)
    requires
        config.wf(),
    ensures
        crate::types::optional_bytes(committer) == committer_at(
            now,
            last_block_ts,
            keys_of(validators@),
            config.round_duration,
        ),
{
    if validators.len() == 0 {
        return None;
    }
    let round: u64 = current_round(now, last_block_ts, config);
    let index: usize = ((round - 1) % (validators.len() as u64)) as usize;
    Some(validators[index].clone())
}

/// The round winner that a commitment elects.
pub fn evaluate_commitment(commitment: &ConsensusCommitment, validators: &Vec<Vec<u8>>) -> (winner:
    Option<Vec<u8>>)
    ensures
        crate::types::optional_bytes(winner) == winner_of(
            commitment.random,
            keys_of(validators@),
        ),
{
    if validators.len() == 0 {
        return None;
    }
    let index: usize = (commitment.random % (validators.len() as u64)) as usize;
    Some(validators[index].clone())
}

/// Rounds follow one another without gaps: `k` whole rounds after the last
/// block the clock stands in round `k + 1`, at the very start of it.
pub proof fn lemma_round_after_whole_rounds(last_block_ts: u32, k: nat, round_duration: u32)
    requires
        round_duration > 0,
        last_block_ts + k * round_duration <= u32::MAX,
    ensures
        round_at((last_block_ts + k * round_duration) as u32, last_block_ts, round_duration) == k
            + 1,
        phase_offset_at((last_block_ts + k * round_duration) as u32, last_block_ts, round_duration)
            == 0,
{
    let d = round_duration as int;
    let e = k as int * d;
    assert(e >= 0) by (nonlinear_arith)
        requires
            e == k as int * d,
            d > 0,
            k >= 0,
    ;
    assert(e / d == k as int && e % d == 0) by (nonlinear_arith)
        requires
            e == k as int * d,
            d > 0,
    ;
}

/// Leader rotation: `k` whole rounds after the last block, the committer is
/// the validator at position `k` modulo the number of validators.
pub proof fn lemma_leader_rotation(
    last_block_ts: u32,
    k: nat,
    validators: Seq<Seq<u8>>,
    round_duration: u32,
)
    requires
        round_duration > 0,
        validators.len() > 0,
        last_block_ts + k * round_duration <= u32::MAX,
    ensures
        committer_at(
            (last_block_ts + k * round_duration) as u32,
            last_block_ts,
            validators,
            round_duration,
        ) == Some(validators[k as int % validators.len() as int]),
{
    lemma_round_after_whole_rounds(last_block_ts, k, round_duration);
}

/// Rotation is strictly round-robin: the committer of the next round is the
/// next validator in the list, the first following the last.
pub proof fn lemma_committer_advances(round: int, count: int)
    requires
        round >= 1,
        count > 0,
    ensures
        0 <= committer_index(round, count) < count,
        committer_index(round + 1, count) == if committer_index(round, count) + 1 == count {
            0
        } else {
            committer_index(round, count) + 1
        },
{
    let r = round - 1;
    assert(0 <= r % count < count && (r + 1) % count == if r % count + 1 == count {
        0
    } else {
        r % count + 1
    }) by (nonlinear_arith)
        requires
            r >= 0,
            count > 0,
    ;
}

/// The winner is always one of the validators.
pub proof fn lemma_winner_is_validator(random: u64, validators: Seq<Seq<u8>>)
    requires
        validators.len() > 0,
    ensures
        winner_of(random, validators).is_some(),
        validators.contains(winner_of(random, validators).unwrap()),
{
    let n = validators.len() as int;
    assert(0 <= random as int % n < n) by (nonlinear_arith)
        requires
            n > 0,
            random >= 0,
    ;
}

} // verus!
