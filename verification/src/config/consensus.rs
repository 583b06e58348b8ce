//! Timing and threshold of the consensus protocol.

use vstd::prelude::*;

verus! {

/// Length of a round in seconds.
pub const ROUND_DURATION: u32 = 60;

/// Length of the clearing phase that opens every round, in seconds.
pub const CLEARING_PHASE: u32 = 20;

/// Number of distinct validator commitments that seal a block.
pub const CONSENSUS_THRESHOLD: u32 = 3;

/// The three numbers that govern a node's consensus.
#[derive(Clone, Copy, Debug, PartialEq, Eq, Structural)]
pub struct ConsensusConfig {
    pub round_duration: u32,
    pub clearing_phase: u32,
    pub consensus_threshold: u32,
}

impl ConsensusConfig {
    /// A round has a positive length, and its clearing phase ends before it
    /// does.
    pub open spec fn wf(&self) -> bool {
        self.clearing_phase < self.round_duration
    }

    /// The configuration with the given numbers; `None` unless the clearing
    /// phase is shorter than the round.
    pub fn new(round_duration: u32, clearing_phase: u32, consensus_threshold: u32) -> (config:
        Option<ConsensusConfig>)
        ensures
            config == if clearing_phase < round_duration {
                Some(ConsensusConfig { round_duration, clearing_phase, consensus_threshold })
            } else {
                None
            },
    {
        if clearing_phase < round_duration {
            Some(ConsensusConfig { round_duration, clearing_phase, consensus_threshold })
        } else {
            None
        }
    }

    /// The configuration made of this module's constants.
    pub fn standard() -> (config: ConsensusConfig)
        ensures
            config.wf(),
            config == (ConsensusConfig {
                round_duration: ROUND_DURATION,
                clearing_phase: CLEARING_PHASE,
                consensus_threshold: CONSENSUS_THRESHOLD,
            }),
    {
        ConsensusConfig {
            round_duration: ROUND_DURATION,
            clearing_phase: CLEARING_PHASE,
            consensus_threshold: CONSENSUS_THRESHOLD,
        }
    }
}


/// Number of validators built into the local deployment.
pub const VALIDATOR_COUNT: u8 = 4;

/// The secret key of the built-in validator at `index` (0 to 3): 32 equal
/// bytes, `0x11` for the first validator, `0x22` for the second, and so on.
/// An index past the last validator counts as the last.
pub open spec fn validator_secret_bytes(index: u8) -> Seq<u8> {
    Seq::new(32, |i: int| secret_fill(index))
}

/// The byte that fills the secret key of the built-in validator at `index`.
pub open spec fn secret_fill(index: u8) -> u8 {
    if index == 0 {
        0x11
    } else if index == 1 {
        0x22
    } else if index == 2 {
        0x33
    } else {
        0x44
    }
}

/// The public key of built-in validator 1, in uncompressed SEC1 form.
pub open spec fn validator_1_key() -> Seq<u8> {
    seq![
        4, 79, 53, 91, 220, 183, 204, 10, 247, 40, 239, 60, 206,
        185, 97, 93, 144, 104, 75, 181, 178, 202, 95, 133, 154, 176,
        240, 183, 4, 7, 88, 113, 170, 56, 91, 107, 27, 142, 173,
        128, 156, 166, 116, 84, 217, 104, 63, 207, 43, 160, 52, 86,
        214, 254, 44, 74, 190, 43, 7, 240, 251, 219, 178, 241, 193,
    ]
}

/// The public key of built-in validator 2, in uncompressed SEC1 form.
pub open spec fn validator_2_key() -> Seq<u8> {
    seq![
        4, 70, 109, 127, 202, 229, 99, 229, 203, 9, 160, 209, 135,
        11, 181, 128, 52, 72, 4, 97, 120, 121, 161, 73, 73, 207,
        34, 40, 95, 27, 174, 63, 39, 103, 40, 23, 108, 60, 100,
        49, 248, 238, 218, 69, 56, 220, 55, 200, 101, 226, 120, 79,
        58, 158, 119, 208, 68, 243, 62, 64, 119, 151, 225, 39, 138,
    ]
}

/// The public key of built-in validator 3, in uncompressed SEC1 form.
pub open spec fn validator_3_key() -> Seq<u8> {
    seq![
        4, 60, 114, 173, 219, 79, 223, 9, 175, 148, 240, 201, 77,
        127, 233, 42, 56, 106, 126, 112, 207, 138, 29, 133, 145, 99,
        134, 187, 37, 53, 199, 177, 177, 59, 48, 107, 15, 224, 133,
        102, 93, 143, 193, 178, 138, 225, 103, 108, 211, 173, 110, 8,
        234, 237, 162, 37, 254, 56, 208, 218, 77, 229, 87, 3, 224,
    ]
}

/// The public key of built-in validator 4, in uncompressed SEC1 form.
pub open spec fn validator_4_key() -> Seq<u8> {
    seq![
        4, 44, 11, 124, 249, 83, 36, 160, 125, 5, 57, 139, 36,
        1, 116, 220, 12, 43, 228, 68, 217, 107, 21, 154, 166, 199,
        247, 177, 230, 104, 104, 9, 145, 174, 49, 169, 198, 113, 163,
        101, 67, 244, 108, 234, 143, 206, 105, 132, 96, 138, 163, 22,
        170, 4, 114, 167, 238, 208, 136, 71, 68, 2, 24, 203, 47,
    ]
}

/// The public key of the built-in validator at `index` (0 to 3). An index
/// past the last validator counts as the last.
pub open spec fn validator_key_bytes(index: u8) -> Seq<u8> {
    if index == 0 {
        validator_1_key()
    } else if index == 1 {
        validator_2_key()
    } else if index == 2 {
        validator_3_key()
    } else {
        validator_4_key()
    }
}

/// The public keys of the built-in validators, in order.
pub open spec fn default_validator_keys() -> Seq<Seq<u8>> {
    seq![validator_1_key(), validator_2_key(), validator_3_key(), validator_4_key()]
}

fn key_1() -> (key: Vec<u8>)
    ensures
        key@ == validator_1_key(),
{
    let key: Vec<u8> = vec![
        4, 79, 53, 91, 220, 183, 204, 10, 247, 40, 239, 60, 206,
        185, 97, 93, 144, 104, 75, 181, 178, 202, 95, 133, 154, 176,
        240, 183, 4, 7, 88, 113, 170, 56, 91, 107, 27, 142, 173,
        128, 156, 166, 116, 84, 217, 104, 63, 207, 43, 160, 52, 86,
        214, 254, 44, 74, 190, 43, 7, 240, 251, 219, 178, 241, 193,
    ];
    assert(key@ =~= validator_1_key());
    key
}

fn key_2() -> (key: Vec<u8>)
    ensures
        key@ == validator_2_key(),
{
    let key: Vec<u8> = vec![
        4, 70, 109, 127, 202, 229, 99, 229, 203, 9, 160, 209, 135,
        11, 181, 128, 52, 72, 4, 97, 120, 121, 161, 73, 73, 207,
        34, 40, 95, 27, 174, 63, 39, 103, 40, 23, 108, 60, 100,
        49, 248, 238, 218, 69, 56, 220, 55, 200, 101, 226, 120, 79,
        58, 158, 119, 208, 68, 243, 62, 64, 119, 151, 225, 39, 138,
    ];
    assert(key@ =~= validator_2_key());
    key
}

fn key_3() -> (key: Vec<u8>)
    ensures
        key@ == validator_3_key(),
{
    let key: Vec<u8> = vec![
        4, 60, 114, 173, 219, 79, 223, 9, 175, 148, 240, 201, 77,
        127, 233, 42, 56, 106, 126, 112, 207, 138, 29, 133, 145, 99,
        134, 187, 37, 53, 199, 177, 177, 59, 48, 107, 15, 224, 133,
        102, 93, 143, 193, 178, 138, 225, 103, 108, 211, 173, 110, 8,
        234, 237, 162, 37, 254, 56, 208, 218, 77, 229, 87, 3, 224,
    ];
    assert(key@ =~= validator_3_key());
    key
}

fn key_4() -> (key: Vec<u8>)
    ensures
        key@ == validator_4_key(),
{
    let key: Vec<u8> = vec![
        4, 44, 11, 124, 249, 83, 36, 160, 125, 5, 57, 139, 36,
        1, 116, 220, 12, 43, 228, 68, 217, 107, 21, 154, 166, 199,
        247, 177, 230, 104, 104, 9, 145, 174, 49, 169, 198, 113, 163,
        101, 67, 244, 108, 234, 143, 206, 105, 132, 96, 138, 163, 22,
        170, 4, 114, 167, 238, 208, 136, 71, 68, 2, 24, 203, 47,
    ];
    assert(key@ =~= validator_4_key());
    key
}

/// The secret key of the built-in validator at `index`.
pub fn validator_secret(index: u8) -> (secret: Vec<u8>)
    ensures
        secret@ == validator_secret_bytes(index),
{
    let fill: u8 = if index == 0 {
        0x11
    } else if index == 1 {
        0x22
    } else if index == 2 {
        0x33
    } else {
        0x44
    };
    let mut secret: Vec<u8> = Vec::new();
    let mut i: usize = 0;
    while i < 32
        invariant
            i <= 32,
            fill == secret_fill(index),
            secret@.len() == i,
            forall|n: int| 0 <= n < i ==> secret@[n] == fill,
        decreases 32 - i,
    {
        secret.push(fill);
        i += 1;
    }
    assert(secret@ =~= validator_secret_bytes(index));
    secret
}

/// The public key of the built-in validator at `index`.
pub fn validator_key(index: u8) -> (key: Vec<u8>)
    ensures
        key@ == validator_key_bytes(index),
{
    if index == 0 {
        key_1()
    } else if index == 1 {
        key_2()
    } else if index == 2 {
        key_3()
    } else {
        key_4()
    }
}

/// The public keys of the built-in validators, in order.
pub fn default_validators() -> (validators: Vec<Vec<u8>>)
    ensures
        crate::consensus::logic::keys_of(validators@) == default_validator_keys(),
{
    let mut validators: Vec<Vec<u8>> = Vec::new();
    validators.push(key_1());
    validators.push(key_2());
    validators.push(key_3());
    validators.push(key_4());
    assert(crate::consensus::logic::keys_of(validators@) =~= default_validator_keys());
    validators
}

} // verus!
