//! What a party computes around the rounds of key generation and signing:
//! the message to sign, the answers of the relay, the list of a round's
//! messages in party order.

pub mod laws;
pub mod messages;
pub mod model;
pub mod rounds;
pub mod session;
pub mod shares;
pub mod signers;

use vstd::prelude::*;
use vstd::slice::slice_to_vec;
use vstd::string::StringSliceAdditionalSpecFns;
use crate::api::messages::{Event, EventView};
use crate::api::shares::{byte_strings, values};
use crate::common::{fresh_nonce, Entry, NONCE_BYTES_LEN};
use crate::curv::arithmetic::BigInt;

verus! {

/// The value of a hexadecimal digit given as an ASCII byte.
pub open spec fn hex_digit(c: u8) -> Option<nat> {
    if 0x30 <= c <= 0x39 {
        Some((c - 0x30) as nat)
    } else if 0x41 <= c <= 0x46 {
        Some((c - 0x41 + 10) as nat)
    } else if 0x61 <= c <= 0x66 {
        Some((c - 0x61 + 10) as nat)
    } else {
        None
    }
}

/// An even number of hexadecimal digits, in either case.
pub open spec fn is_hex(text: Seq<u8>) -> bool {
    &&& text.len() % 2 == 0
    &&& forall|i: int| 0 <= i < text.len() ==> hex_digit(#[trigger] text[i]) is Some
}

/// The bytes that the digit pairs of `text` denote.
pub open spec fn hex_bytes(text: Seq<u8>) -> Seq<u8> {
    Seq::new(
        text.len() / 2,
        |i: int| (hex_digit(text[2 * i])->0 * 16 + hex_digit(text[2 * i + 1])->0) as u8,
    )
}

/// The message that a string stands for: the bytes it spells in hexadecimal
/// if it is an even number of hexadecimal digits, else its own bytes.
pub open spec fn message_of(text: Seq<u8>) -> Seq<u8> {
    if is_hex(text) {
        hex_bytes(text)
    } else {
        text
    }
}

/// `hex::decode`: the bytes that the digit pairs denote, upper and lower
/// case alike; `None` on an odd length or a byte that is no hexadecimal
/// digit.
#[verifier::external_body]
fn hex_decode(data: &[u8]) -> (bytes: Option<Vec<u8>>)
    ensures
        bytes is Some == is_hex(data@),
        bytes matches Some(b) ==> b@ == hex_bytes(data@),
{
    match hex::decode(data) {
        Ok(bytes) => Some(bytes),
        Err(_) => None,
    }
}

/// The bytes to sign for `message_str`: its hexadecimal reading where it has
/// one, else the string's own bytes.
pub fn message_bytes(message_str: &str) -> (message: Vec<u8>)
    ensures
        message@ == message_of(message_str.spec_bytes()),
{
    let raw = message_str.as_bytes();
    match hex_decode(raw) {
        Some(bytes) => bytes,
        None => slice_to_vec(raw),
    }
}

/// Puts a party's own value among the values read from its peers, at the
/// place of its index, and appends the whole list to `new_vec`.
pub fn format_vec_from_reads<T>(
    ans_vec: Vec<T>,
    party_num: usize,
    value_i: T,
    new_vec: &mut Vec<T>,
)
    requires
        1 <= party_num <= ans_vec@.len() + 1,
    ensures
        final(new_vec)@ == old(new_vec)@ + ans_vec@.insert(party_num - 1, value_i),
{
    let mut all = ans_vec;
    all.insert(party_num - 1, value_i);
    new_vec.append(&mut all);
}

/// Leaving a party's value out of the full list and putting it back at the
/// party's index gives the full list again: every party that holds the
/// others' values in ascending order of their indices assembles the same
/// list.
pub proof fn lemma_same_list_at_every_party<T>(all: Seq<T>, party_num: int)
    requires
        1 <= party_num <= all.len(),
    ensures
        all.remove(party_num - 1).insert(party_num - 1, all[party_num - 1]) == all,
{
    assert(all.remove(party_num - 1).insert(party_num - 1, all[party_num - 1]) =~= all);
}

/// What `serde_json` reads from `text` as the relay's answer to a request
/// to store an entry, if it reads one: that the entry was stored, or not.
pub uninterp spec fn json_ack(text: Seq<char>) -> Option<Result<(), ()>>;

/// `serde_json::from_str` at the type `Result<(), ()>`: the answer that the
/// text spells in JSON, or `None` where the text is anything else. Claimed:
/// the result is a function of the text.
#[verifier::external_body]
fn parse_ack(text: &str) -> (ack: Option<Result<(), ()>>)
    ensures
        ack == json_ack(text@),
{
    match serde_json::from_str::<Result<(), ()>>(text) {
        Ok(ack) => Some(ack),
        Err(_) => None,
    }
}

/// What a session is told of the relay's answer to a request to store an
/// entry: that it was stored, or, where the relay was not reached, answered
/// anything else or refused, that the relay is lost.
pub open spec fn post_outcome(ack: Option<Result<(), ()>>) -> EventView {
    match ack {
        Some(Ok(_)) => EventView::Posted,
        _ => EventView::Lost,
    }
}

/// What a session is told of the relay's answer to a request for an
/// entry: the entry, or that there is none yet, which is no failure; where
/// the relay was not reached or answered anything else, that it is lost.
pub open spec fn get_outcome(answer: Option<Result<Entry, ()>>) -> EventView {
    match answer {
        Some(Ok(entry)) => EventView::Got(Some(entry.value@)),
        Some(Err(_)) => EventView::Got(None),
        None => EventView::Lost,
    }
}

/// The event for the relay's answer to a request to store an entry, `None`
/// standing for no answer or one that could not be read.
pub fn post_event(ack: Option<Result<(), ()>>) -> (event: Event)
    ensures
        event@ == post_outcome(ack),
{
    match ack {
        Some(Ok(_)) => Event::Posted,
        _ => Event::Lost,
    }
}

/// The event for the body of the relay's answer to a request to store an
/// entry, `None` standing for no answer.
pub fn read_post_reply(body: Option<&str>) -> (event: Event)
    ensures
        event@ == post_outcome(
            match body {
                Some(text) => json_ack(text@),
                None => None,
            },
        ),
{
    match body {
        Some(text) => post_event(parse_ack(text)),
        None => Event::Lost,
    }
}

/// The event for the relay's answer to a request for an entry, `None`
/// standing for no answer or one that could not be read.
pub fn get_event(answer: Option<Result<Entry, ()>>) -> (event: Event)
    ensures
        event@ == get_outcome(answer),
{
    match answer {
        Some(Ok(entry)) => Event::Got(Some(entry)),
        Some(Err(_)) => Event::Got(None),
        None => Event::Lost,
    }
}

/// The event that hands the secret shares a party dealt to its session,
/// with a fresh random nonce for each peer; `None` where the operating
/// system gave no random bytes. Whatever nonces were drawn, there is one
/// of twelve bytes for each peer. With no peer to seal for, nothing is
/// drawn and there is always an event.
pub fn deal(secrets: Vec<BigInt>, shares: Vec<BigInt>) -> (event: Option<Event>)
    ensures
        secrets@.len() == 0 ==> event is Some,
        event matches Some(e) ==> {
            &&& e@ is Shares
            &&& e@->Shares_secrets == values(secrets@)
            &&& e@->Shares_shares == values(shares@)
            &&& e@->Shares_nonces.len() == secrets@.len()
            &&& forall|i: int|
                0 <= i < secrets@.len() ==> (#[trigger] e@->Shares_nonces[i]).len()
                    == NONCE_BYTES_LEN
        },
{
    let mut nonces: Vec<Vec<u8>> = Vec::new();
    while nonces.len() < secrets.len()
        invariant
            nonces@.len() <= secrets@.len(),
            forall|i: int| 0 <= i < nonces@.len() ==> (#[trigger] nonces@[i])@.len() == NONCE_BYTES_LEN,
        decreases secrets@.len() - nonces@.len(),
    {
        match fresh_nonce() {
            Some(nonce) => {
                nonces.push(nonce);
            },
            None => {
                return None;
            },
        }
    }
    Some(Event::Shares { secrets, shares, nonces })
}

} // verus!
