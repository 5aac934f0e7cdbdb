//! What passes between a session and whoever runs it: what the session
//! asks for, what it is told, and how it can fail.

use vstd::prelude::*;
use crate::api::rounds::{Parameters, Protocol};
use crate::api::shares::{byte_strings, read_packs, values};
use crate::common::{Entry, Index, Sealed, AEAD};
use crate::curv::arithmetic::BigInt;
use crate::relay::{texts, value_of};

verus! {

/// Why a session ended without a result.
#[derive(Clone, Copy, PartialEq, Eq, Structural, Debug)]
pub enum Failure {
    /// The parameters do not fit each other or the parties present: the
    /// threshold is not below the number of shares, an index is out of
    /// range, or two signers hold the same share.
    Configuration,
    /// The relay was unreachable or its answer malformed.
    Transport,
    /// A message of `party` in the round at position `round`, counted from
    /// zero, did not stand up to verification.
    Verification { round: u8, party: u16 },
    /// What happened does not answer what the session asked for.
    Unexpected,
}

/// Who runs the session, and for what.
#[derive(Clone, Copy, PartialEq, Eq, Structural, Debug)]
pub struct Seat {
    pub protocol: Protocol,
    pub params: Parameters,
    /// The party's index in this session, counted from one.
    pub party: u16,
    /// The index of the party's key share, counted from one; in key
    /// generation the same as `party`.
    pub share_index: u16,
}

impl Seat {
    /// The number of parties in the session.
    pub open spec fn parties(self) -> nat {
        self.protocol.parties(self.params)
    }

    /// The parameters are valid, and the party and its share are among
    /// those that the parameters allow.
    pub open spec fn valid(self) -> bool {
        &&& self.params.valid()
        &&& 1 <= self.party <= self.parties()
        &&& 1 <= self.share_index <= self.params.share_count
        &&& self.protocol == Protocol::KeyGeneration ==> self.share_index == self.party
    }
}

/// The messages that a round starts from.
#[derive(Debug, PartialEq)]
pub enum Inbox {
    /// Nothing: the protocol's first round.
    Nothing,
    /// The messages of the round before, in the order of their senders.
    Texts(Vec<String>),
    /// The secret shares that the parties dealt to this one, in the order of
    /// the dealers.
    Shares(Vec<BigInt>),
    /// The places of the signers' shares, counted from zero, in the order
    /// of the signers.
    Signers(Vec<usize>),
}

/// What an inbox holds.
pub enum InboxView {
    Nothing,
    Texts(Seq<Seq<char>>),
    Shares(Seq<nat>),
    Signers(Seq<usize>),
}

impl View for Inbox {
    type V = InboxView;

    open spec fn view(&self) -> InboxView {
        match self {
            Inbox::Nothing => InboxView::Nothing,
            Inbox::Texts(list) => InboxView::Texts(texts(list@)),
            Inbox::Shares(list) => InboxView::Shares(values(list@)),
            Inbox::Signers(list) => InboxView::Signers(list@),
        }
    }
}

/// What a party stores on the relay.
#[derive(Debug, PartialEq)]
pub enum Payload {
    /// A message of the cryptographic layer, as text.
    Text(String),
    /// A sealed secret share.
    Pack(AEAD),
}

/// What a payload holds.
pub enum PayloadView {
    Text(Seq<char>),
    Pack(Sealed),
}

impl View for Payload {
    type V = PayloadView;

    open spec fn view(&self) -> PayloadView {
        match self {
            Payload::Text(text) => PayloadView::Text(text@),
            Payload::Pack(pack) => PayloadView::Pack(pack@),
        }
    }
}

/// The contents of a list of payloads.
pub open spec fn payloads(list: Seq<Payload>) -> Seq<PayloadView> {
    list.map_values(|payload: Payload| payload@)
}

/// A list of texts as payloads.
pub open spec fn text_payloads(list: Seq<Seq<char>>) -> Seq<PayloadView> {
    list.map_values(|text: Seq<char>| PayloadView::Text(text))
}

/// A list of sealed shares as payloads.
pub open spec fn pack_payloads(list: Seq<Sealed>) -> Seq<PayloadView> {
    list.map_values(|pack: Sealed| PayloadView::Pack(pack))
}

/// What the session asks to be done next.
#[derive(Debug, PartialEq)]
pub enum Action {
    /// Have the cryptographic layer check `inbox` and make this party's
    /// messages of the round at position `round`.
    Prepare { round: u8, inbox: Inbox },
    /// Store `payload` on the relay under `key`.
    Post { key: String, payload: Payload },
    /// Ask the relay for the entry under this key.
    Get(Index),
    /// Read the sealed shares out of these texts.
    Decode(Vec<String>),
    /// Have the cryptographic layer check `inbox`, the messages of the last
    /// round, and make the result.
    Conclude(Inbox),
    /// Nothing more: the session has ended with this result.
    Finished(String),
    /// Nothing more: the session has failed.
    Failed(Failure),
}

/// What a request of the session says.
pub enum ActionView {
    Prepare { round: u8, inbox: InboxView },
    Post { key: Seq<char>, payload: PayloadView },
    Get(Seq<char>),
    Decode(Seq<Seq<char>>),
    Conclude(InboxView),
    Finished(Seq<char>),
    Failed(Failure),
}

impl View for Action {
    type V = ActionView;

    open spec fn view(&self) -> ActionView {
        match self {
            Action::Prepare { round, inbox } => ActionView::Prepare { round: *round, inbox: inbox@ },
            Action::Post { key, payload } => ActionView::Post { key: key@, payload: payload@ },
            Action::Get(index) => ActionView::Get(index.key@),
            Action::Decode(list) => ActionView::Decode(texts(list@)),
            Action::Conclude(inbox) => ActionView::Conclude(inbox@),
            Action::Finished(output) => ActionView::Finished(output@),
            Action::Failed(failure) => ActionView::Failed(*failure),
        }
    }
}

/// What happened since the session last asked for something.
#[derive(Debug, PartialEq)]
pub enum Event {
    /// The cryptographic layer accepted the inbox and made this party's
    /// messages of the round: one to broadcast, or one for each peer in
    /// ascending order of the peers.
    Prepared(Vec<String>),
    /// The cryptographic layer accepted the inbox and dealt the secret
    /// shares: `shares` holds one for each party, `secrets` the x-coordinate
    /// of the curve point shared with each peer, `nonces` a fresh nonce for
    /// each peer.
    Shares { secrets: Vec<BigInt>, shares: Vec<BigInt>, nonces: Vec<Vec<u8>> },
    /// The cryptographic layer refused a message of the party with this
    /// index.
    Rejected(u16),
    /// The relay stored the entry.
    Posted,
    /// The relay answered the request: with the entry, or that it has none
    /// yet.
    Got(Option<Entry>),
    /// The sealed shares that the texts held, in the same order; `None` for
    /// a text that holds none.
    Decoded(Vec<Option<AEAD>>),
    /// The cryptographic layer accepted the last round and made the result.
    Concluded(String),
    /// The relay was unreachable or its answer malformed.
    Lost,
}

/// What an event says.
pub enum EventView {
    Prepared(Seq<Seq<char>>),
    Shares { secrets: Seq<nat>, shares: Seq<nat>, nonces: Seq<Seq<u8>> },
    Rejected(u16),
    Posted,
    Got(Option<Seq<char>>),
    Decoded(Seq<Option<Sealed>>),
    Concluded(Seq<char>),
    Lost,
}

impl View for Event {
    type V = EventView;

    open spec fn view(&self) -> EventView {
        match self {
            Event::Prepared(list) => EventView::Prepared(texts(list@)),
            Event::Shares { secrets, shares, nonces } => EventView::Shares {
                secrets: values(secrets@),
                shares: values(shares@),
                nonces: byte_strings(nonces@),
            },
            Event::Rejected(party) => EventView::Rejected(*party),
            Event::Posted => EventView::Posted,
            Event::Got(answer) => EventView::Got(value_of(*answer)),
            Event::Decoded(list) => EventView::Decoded(read_packs(list@)),
            Event::Concluded(output) => EventView::Concluded(output@),
            Event::Lost => EventView::Lost,
        }
    }
}

} // verus!
