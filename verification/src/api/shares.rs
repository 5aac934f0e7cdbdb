//! The transport of secret shares between two parties: the symmetric key
//! that both derive from a shared curve point, and the sealing and opening
//! of a share under it.

use vstd::prelude::*;
use crate::common::{
    aes_decrypt, aes_encrypt_with_nonce, opened, sealed, AeadError, Sealed, AEAD,
    AES_KEY_BYTES_LEN,
};
use crate::relay::peer_at;
use crate::curv::arithmetic::{
    be_value, lemma_minimal_be_value, lemma_skip_leading_zeros, minimal_be, BigInt,
};

verus! {

/// `bytes` with zero bytes in front, `width` bytes in all.
pub open spec fn padded(bytes: Seq<u8>, width: nat) -> Seq<u8> {
    Seq::new((width - bytes.len()) as nat, |i: int| 0u8) + bytes
}

/// The symmetric key that two parties derive from the x-coordinate of the
/// curve point they share: the coordinate as 32 big-endian bytes. There is
/// none for a number that does not fit.
pub open spec fn share_key(secret: nat) -> Option<Seq<u8>> {
    if minimal_be(secret).len() <= AES_KEY_BYTES_LEN {
        Some(padded(minimal_be(secret), AES_KEY_BYTES_LEN as nat))
    } else {
        None
    }
}

/// A derived key is 32 bytes long and denotes the coordinate it came from.
pub proof fn lemma_share_key(secret: nat)
    requires
        share_key(secret) is Some,
    ensures
        share_key(secret)->0.len() == AES_KEY_BYTES_LEN,
        be_value(share_key(secret)->0) == secret,
{
    let short = minimal_be(secret);
    let key = share_key(secret)->0;
    let zeros = AES_KEY_BYTES_LEN - short.len();
    lemma_minimal_be_value(secret);
    lemma_skip_leading_zeros(key, zeros as int);
    assert(key.skip(zeros as int) =~= short);
}

/// The symmetric key for the x-coordinate `secret`, if it fits in 32 bytes.
pub fn derive_key(secret: &BigInt) -> (key: Option<Vec<u8>>)
    ensures
        key is Some == share_key(secret@) is Some,
        key matches Some(k) ==> Some(k@) == share_key(secret@),
{
    let short = BigInt::to_vec(secret);
    if short.len() > AES_KEY_BYTES_LEN {
        return None;
    }
    let mut key: Vec<u8> = Vec::new();
    let zeros = AES_KEY_BYTES_LEN - short.len();
    while key.len() < zeros
        invariant
            key@.len() <= zeros,
            forall|i: int| 0 <= i < key@.len() ==> key@[i] == 0,
        decreases zeros - key@.len(),
    {
        key.push(0u8);
    }
    let mut at: usize = 0;
    while at < short.len()
        invariant
            at <= short@.len(),
            zeros + short@.len() == AES_KEY_BYTES_LEN,
            key@.len() == zeros + at,
            forall|i: int| 0 <= i < zeros ==> key@[i] == 0,
            forall|i: int| 0 <= i < at ==> key@[zeros + i] == short@[i],
        decreases short@.len() - at,
    {
        key.push(short[at]);
        at = at + 1;
    }
    assert(key@ =~= padded(short@, AES_KEY_BYTES_LEN as nat));
    Some(key)
}

/// The share `share` sealed for the party with whom `secret` is shared,
/// under the nonce `nonce`.
pub open spec fn sealed_share(secret: nat, nonce: Seq<u8>, share: nat) -> Result<
    Sealed,
    AeadError,
> {
    match share_key(secret) {
        None => Err(AeadError::KeyLength),
        Some(key) => sealed(key, nonce, minimal_be(share)),
    }
}

/// The share that `pack` holds for the party with whom `secret` is shared.
pub open spec fn opened_share(secret: nat, pack: Sealed) -> Result<nat, AeadError> {
    match share_key(secret) {
        None => Err(AeadError::KeyLength),
        Some(key) => match opened(key, pack.tag, pack.ciphertext) {
            Ok(bytes) => Ok(be_value(bytes)),
            Err(error) => Err(error),
        },
    }
}

/// Seals `share` under the key derived from `secret`, with the given nonce.
/// The receiver, who derives the same key, opens the result to `share`.
pub fn seal_share(secret: &BigInt, nonce: Vec<u8>, share: &BigInt) -> (sealed: Result<
    AEAD,
    AeadError,
>)
    ensures
        match sealed_share(secret@, nonce@, share@) {
            Ok(pack) => sealed matches Ok(p) && p@ == pack && opened_share(secret@, pack) == Ok::<
                nat,
                AeadError,
            >(share@),
            Err(error) => sealed == Err::<AEAD, AeadError>(error),
        },
{
    match derive_key(secret) {
        None => Err(AeadError::KeyLength),
        Some(key) => {
            proof {
                lemma_share_key(secret@);
                lemma_minimal_be_value(share@);
            }
            let plaintext = BigInt::to_vec(share);
            aes_encrypt_with_nonce(key.as_slice(), nonce, plaintext.as_slice())
        },
    }
}

/// Opens `pack` under the key derived from `secret` and reads the share.
pub fn open_share(secret: &BigInt, pack: AEAD) -> (share: Result<BigInt, AeadError>)
    ensures
        match opened_share(secret@, pack@) {
            Ok(value) => share matches Ok(s) && s@ == value,
            Err(error) => share == Err::<BigInt, AeadError>(error),
        },
{
    match derive_key(secret) {
        None => Err(AeadError::KeyLength),
        Some(key) => match aes_decrypt(key.as_slice(), pack) {
            Ok(bytes) => Ok(BigInt::from_bytes_be(bytes.as_slice())),
            Err(error) => Err(error),
        },
    }
}

/// The numbers that a list of big integers denotes.
pub open spec fn values(list: Seq<BigInt>) -> Seq<nat> {
    list.map_values(|value: BigInt| value@)
}

/// The contents of a list of byte strings.
pub open spec fn byte_strings(list: Seq<Vec<u8>>) -> Seq<Seq<u8>> {
    list.map_values(|bytes: Vec<u8>| bytes@)
}

/// The contents of a list of sealed messages.
pub open spec fn packs(list: Seq<AEAD>) -> Seq<Sealed> {
    list.map_values(|pack: AEAD| pack@)
}

/// The share for the peer at `position`, sealed for it: the share at the
/// peer's index, under the key shared with the peer and the nonce at the
/// peer's position.
pub open spec fn sealed_for(
    party: nat,
    secrets: Seq<nat>,
    shares: Seq<nat>,
    nonces: Seq<Seq<u8>>,
    position: int,
) -> Result<Sealed, AeadError> {
    sealed_share(secrets[position], nonces[position], shares[peer_at(party, position as nat) - 1])
}

/// The first `count` peers' shares, each sealed for its receiver. The first
/// refusal ends it.
pub open spec fn sealed_shares(
    party: nat,
    secrets: Seq<nat>,
    shares: Seq<nat>,
    nonces: Seq<Seq<u8>>,
    count: nat,
) -> Result<Seq<Sealed>, AeadError>
    decreases count,
{
    if count == 0 {
        Ok(Seq::empty())
    } else {
        let position = (count - 1) as nat;
        match sealed_shares(party, secrets, shares, nonces, position) {
            Err(error) => Err(error),
            Ok(sealed) => match sealed_for(party, secrets, shares, nonces, position as int) {
                Ok(pack) => Ok(sealed.push(pack)),
                Err(error) => Err(error),
            },
        }
    }
}

/// The contents of a list of messages of which some could not be read as
/// sealed messages.
pub open spec fn read_packs(list: Seq<Option<AEAD>>) -> Seq<Option<Sealed>> {
    list.map_values(
        |pack: Option<AEAD>|
            match pack {
                Some(p) => Some(p@),
                None => None,
            },
    )
}

/// The share that the peer at `position` sealed for this party, if its
/// message could be read and opens under the key shared with that peer.
pub open spec fn opened_from(secrets: Seq<nat>, sealed: Seq<Option<Sealed>>, position: int)
    -> Option<nat> {
    match sealed[position] {
        Some(pack) => match opened_share(secrets[position], pack) {
            Ok(share) => Some(share),
            Err(_) => None,
        },
        None => None,
    }
}

/// The shares that the first `count` peers sealed for this party, or the
/// position of the first peer whose message could not be read or does not
/// open.
pub open spec fn opened_shares(secrets: Seq<nat>, sealed: Seq<Option<Sealed>>, count: nat)
    -> Result<Seq<nat>, nat>
    decreases count,
{
    if count == 0 {
        Ok(Seq::empty())
    } else {
        let position = (count - 1) as nat;
        match opened_shares(secrets, sealed, position) {
            Err(first) => Err(first),
            Ok(shares) => match opened_from(secrets, sealed, position as int) {
                Some(share) => Ok(shares.push(share)),
                None => Err(position),
            },
        }
    }
}

/// The sealed shares as a whole are the sealed share for each peer.
pub proof fn lemma_sealed_shares_each(
    party: nat,
    secrets: Seq<nat>,
    shares: Seq<nat>,
    nonces: Seq<Seq<u8>>,
    count: nat,
)
    requires
        sealed_shares(party, secrets, shares, nonces, count) is Ok,
    ensures
        sealed_shares(party, secrets, shares, nonces, count)->Ok_0.len() == count,
        forall|position: int|
            0 <= position < count ==> sealed_for(party, secrets, shares, nonces, position) == Ok::<
                Sealed,
                AeadError,
            >(#[trigger] sealed_shares(party, secrets, shares, nonces, count)->Ok_0[position]),
    decreases count,
{
    if count > 0 {
        lemma_sealed_shares_each(party, secrets, shares, nonces, (count - 1) as nat);
    }
}

/// Seals for each peer of `party` the share at the peer's index, under the
/// key shared with that peer. `secrets` and `nonces` hold one entry per peer
/// in ascending order of the peers, `shares` one entry per party.
pub fn seal_shares(
    party: u16,
    secrets: &Vec<BigInt>,
    shares: &Vec<BigInt>,
    nonces: &Vec<Vec<u8>>,
) -> (sealed: Result<Vec<AEAD>, AeadError>)
    requires
        1 <= party <= shares@.len(),
        secrets@.len() + 1 == shares@.len(),
        nonces@.len() == secrets@.len(),
    ensures
        match sealed_shares(
            party as nat,
            values(secrets@),
            values(shares@),
            byte_strings(nonces@),
            secrets@.len(),
        ) {
            Ok(list) => sealed matches Ok(s) && packs(s@) == list && list.len() == secrets@.len(),
            Err(error) => sealed == Err::<Vec<AEAD>, AeadError>(error),
        },
{
    let mut sealed: Vec<AEAD> = Vec::new();
    let mut position: usize = 0;
    assert(packs(sealed@) =~= Seq::<Sealed>::empty());
    while position < secrets.len()
        invariant
            1 <= party <= shares@.len(),
            secrets@.len() + 1 == shares@.len(),
            nonces@.len() == secrets@.len(),
            position <= secrets@.len(),
            sealed@.len() == position,
            sealed_shares(
                party as nat,
                values(secrets@),
                values(shares@),
                byte_strings(nonces@),
                position as nat,
            ) == Ok::<Seq<Sealed>, AeadError>(packs(sealed@)),
        decreases secrets@.len() - position,
    {
        let total = shares.len();
        assert(position + 2 <= total);
        let receiver: usize = if position + 1 < party as usize {
            position + 1
        } else {
            position + 2
        };
        let nonce = nonces[position].clone();
        let ghost before = packs(sealed@);
        match seal_share(&secrets[position], nonce, &shares[receiver - 1]) {
            Ok(pack) => {
                sealed.push(pack);
                assert(packs(sealed@) =~= before.push(pack@));
            },
            Err(error) => {
                proof {
                    lemma_sealing_stops(
                        party as nat,
                        values(secrets@),
                        values(shares@),
                        byte_strings(nonces@),
                        position as nat + 1,
                        secrets@.len(),
                    );
                }
                return Err(error);
            },
        }
        position = position + 1;
    }
    Ok(sealed)
}

/// A refusal among the first peers is the refusal of the whole.
proof fn lemma_sealing_stops(
    party: nat,
    secrets: Seq<nat>,
    shares: Seq<nat>,
    nonces: Seq<Seq<u8>>,
    count: nat,
    more: nat,
)
    requires
        count <= more,
        sealed_shares(party, secrets, shares, nonces, count) is Err,
    ensures
        sealed_shares(party, secrets, shares, nonces, more) == sealed_shares(
            party,
            secrets,
            shares,
            nonces,
            count,
        ),
    decreases more,
{
    if count < more {
        lemma_sealing_stops(party, secrets, shares, nonces, count, (more - 1) as nat);
    }
}

/// A message that does not open among the first peers' is the first such
/// of the whole.
proof fn lemma_opening_stops(
    secrets: Seq<nat>,
    sealed: Seq<Option<Sealed>>,
    count: nat,
    more: nat,
)
    requires
        count <= more,
        opened_shares(secrets, sealed, count) is Err,
    ensures
        opened_shares(secrets, sealed, more) == opened_shares(secrets, sealed, count),
    decreases more,
{
    if count < more {
        lemma_opening_stops(secrets, sealed, count, (more - 1) as nat);
    }
}

/// Opens what each peer sealed for this party, each under the key shared
/// with its sender: the shares in the order of the peers, or the position
/// of the first peer whose message could not be read (`None`) or does not
/// open.
pub fn open_shares(secrets: &Vec<BigInt>, sealed: &Vec<Option<AEAD>>) -> (shares: Result<
    Vec<BigInt>,
    usize,
>)
    requires
        secrets@.len() == sealed@.len(),
    ensures
        match opened_shares(values(secrets@), read_packs(sealed@), sealed@.len()) {
            Ok(list) => shares matches Ok(s) && values(s@) == list && list.len() == sealed@.len(),
            Err(first) => shares == Err::<Vec<BigInt>, usize>(first as usize) && first
                < sealed@.len(),
        },
{
    let mut shares: Vec<BigInt> = Vec::new();
    let mut position: usize = 0;
    assert(values(shares@) =~= Seq::<nat>::empty());
    while position < sealed.len()
        invariant
            secrets@.len() == sealed@.len(),
            position <= sealed@.len(),
            shares@.len() == position,
            opened_shares(values(secrets@), read_packs(sealed@), position as nat) == Ok::<
                Seq<nat>,
                nat,
            >(values(shares@)),
        decreases sealed@.len() - position,
    {
        let ghost before = values(shares@);
        let opened = match &sealed[position] {
            Some(pack) => match open_share(&secrets[position], pack.clone()) {
                Ok(share) => Some(share),
                Err(_) => None,
            },
            None => None,
        };
        match opened {
            Some(share) => {
                shares.push(share);
                assert(values(shares@) =~= before.push(share@));
            },
            None => {
                proof {
                    lemma_opening_stops(
                        values(secrets@),
                        read_packs(sealed@),
                        position as nat + 1,
                        sealed@.len(),
                    );
                }
                return Err(position);
            },
        }
        position = position + 1;
    }
    Ok(shares)
}

} // verus!
