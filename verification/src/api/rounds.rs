//! The two protocols and the plan of their rounds: how many there are, what
//! each is called on the relay, and how its messages travel.

use vstd::prelude::*;
use crate::relay::{decimal, lemma_decimal_digits, lemma_decimal_injective, plain, push_decimal};

verus! {

/// The threshold and the number of shares of a session. With threshold `t`,
/// any `t + 1` of the `n` parties sign.
#[derive(Clone, Copy, PartialEq, Eq, Structural, Debug)]
pub struct Parameters {
    pub threshold: u16,
    pub share_count: u16,
}

impl Parameters {
    /// The threshold is positive and below the number of shares.
    pub open spec fn valid(self) -> bool {
        0 < self.threshold < self.share_count
    }

    /// The parameters for threshold `t` and `n` shares, if the threshold is
    /// positive and below `n`, and `n` is a number that a party index can
    /// take.
    pub fn new(t: usize, n: usize) -> (params: Option<Parameters>)
        ensures
            params == if 0 < t < n <= u16::MAX {
                Some(Parameters { threshold: t as u16, share_count: n as u16 })
            } else {
                None
            },
            params matches Some(p) ==> p.valid(),
    {
        if 0 < t && t < n && n <= 0xffff {
            Some(Parameters { threshold: t as u16, share_count: n as u16 })
        } else {
            None
        }
    }

    /// Whether the threshold is positive and below the number of shares.
    pub fn is_valid(&self) -> (valid: bool)
        ensures
            valid == self.valid(),
    {
        0 < self.threshold && self.threshold < self.share_count
    }
}

/// What a session is run for.
#[derive(Clone, Copy, PartialEq, Eq, Structural, Debug)]
pub enum Protocol {
    /// Distributed key generation, among all `n` parties.
    KeyGeneration,
    /// Threshold signing, among `t + 1` holders of key shares.
    Signing,
}

/// The letters that every round's name begins with.
pub open spec fn round_word() -> Seq<char> {
    seq!['r', 'o', 'u', 'n', 'd']
}

impl Protocol {
    /// The number of rounds.
    pub open spec fn rounds(self) -> nat {
        match self {
            Protocol::KeyGeneration => 5,
            Protocol::Signing => 10,
        }
    }

    /// The number in the name of the first round.
    pub open spec fn first_number(self) -> nat {
        match self {
            Protocol::KeyGeneration => 1,
            Protocol::Signing => 0,
        }
    }

    /// The number of parties that take part.
    pub open spec fn parties(self, params: Parameters) -> nat {
        match self {
            Protocol::KeyGeneration => params.share_count as nat,
            Protocol::Signing => (params.threshold + 1) as nat,
        }
    }

    /// Whether the messages of the round with this position, counted from
    /// zero, go from one party to one other; else they are broadcast.
    pub open spec fn direct(self, round: nat) -> bool {
        round == 2
    }

    /// Whether the messages of the round are secret shares, sealed for
    /// their receiver.
    pub open spec fn sealed(self, round: nat) -> bool {
        self == Protocol::KeyGeneration && round == 2
    }

    /// The name under which the round's messages are stored on the relay.
    pub open spec fn round_name(self, round: nat) -> Seq<char> {
        round_word() + decimal(round + self.first_number())
    }

    /// The number of rounds.
    pub fn round_count(self) -> (count: u8)
        ensures
            count == self.rounds(),
    {
        match self {
            Protocol::KeyGeneration => 5,
            Protocol::Signing => 10,
        }
    }

    /// The number of parties that take part.
    pub fn party_count(self, params: Parameters) -> (count: u32)
        ensures
            count == self.parties(params),
    {
        match self {
            Protocol::KeyGeneration => params.share_count as u32,
            Protocol::Signing => params.threshold as u32 + 1,
        }
    }

    /// Whether the round's messages go from one party to one other.
    pub fn is_direct(self, round: u8) -> (direct: bool)
        ensures
            direct == self.direct(round as nat),
    {
        round == 2
    }

    /// Whether the round's messages are sealed secret shares.
    pub fn is_sealed(self, round: u8) -> (sealed: bool)
        ensures
            sealed == self.sealed(round as nat),
    {
        match self {
            Protocol::KeyGeneration => round == 2,
            Protocol::Signing => false,
        }
    }

    /// The name under which the round's messages are stored on the relay.
    pub fn name_of_round(self, round: u8) -> (name: String)
        ensures
            name@ == self.round_name(round as nat),
    {
        proof {
            reveal_strlit("round");
        }
        let mut name = String::from_str("round");
        assert(name@ =~= round_word());
        let first: u16 = match self {
            Protocol::KeyGeneration => 1,
            Protocol::Signing => 0,
        };
        push_decimal(&mut name, round as u16 + first);
        name
    }
}

/// The names of the rounds are such that keys can be told apart by them,
/// and two rounds of a protocol have two names.
pub proof fn lemma_round_names(protocol: Protocol, round: nat, other: nat)
    ensures
        plain(protocol.round_name(round)),
        protocol.round_name(round) == protocol.round_name(other) ==> round == other,
{
    let number = round + protocol.first_number();
    let other_number = other + protocol.first_number();
    lemma_decimal_digits(number);
    lemma_decimal_digits(other_number);
    let name = protocol.round_name(round);
    assert forall|i: int| 0 <= i < name.len() implies #[trigger] name[i] != '-' by {
        if i >= 5 {
            assert(name[i] == decimal(number)[i - 5]);
        }
    }
    if name == protocol.round_name(other) {
        assert(decimal(number) =~= name.skip(5));
        assert(decimal(other_number) =~= protocol.round_name(other).skip(5));
        lemma_decimal_injective(number, other_number);
    }
}

} // verus!
