//! What a session does, stated on plain values: the stages of a round and
//! the step from one to the next.

use vstd::prelude::*;
use crate::api::messages::{
    pack_payloads, text_payloads, ActionView, EventView, Failure, InboxView, PayloadView, Seat,
};
use crate::api::rounds::{Parameters, Protocol};
use crate::api::shares::{opened_shares, sealed_shares};
use crate::api::signers::signer_slots;
use crate::common::Sealed;
use crate::relay::{
    broadcast_key_text, decimal, p2p_key_text, peer_at, skip_self, PollView,
};

verus! {

/// What a party adds of its own to the messages it collects in a round:
/// nothing where the messages go from one party to one other, the message
/// that it broadcast, or the secret share that it dealt to itself.
pub enum OwnView {
    Nothing,
    Text(Seq<char>),
    Share(nat),
}

/// Where in a round a session stands, and what it holds there.
pub enum StageView {
    /// The cryptographic layer is making this party's messages.
    Preparing,
    /// One message is on its way to the relay, for `receiver` where the
    /// round's messages are direct; `rest` are those still to post, `own`
    /// what the party adds to what it will collect, `secrets` the
    /// x-coordinates that the keys of a sealed round derive from.
    Posting { rest: Seq<PayloadView>, receiver: u32, own: OwnView, secrets: Seq<nat> },
    /// The peers' messages are being collected.
    Collecting { poll: PollView, own: OwnView, secrets: Seq<nat> },
    /// The sealed shares are being read out of the collected texts.
    Decoding { own: OwnView, secrets: Seq<nat> },
    /// The cryptographic layer is checking the last round.
    Concluding,
    /// The session has ended with this result.
    Done(Seq<char>),
    /// The session has failed.
    Aborted(Failure),
}

/// What a session is made of.
pub struct SessionView {
    pub seat: Seat,
    pub uuid: Seq<char>,
    /// The position of the current round, counted from zero.
    pub round: u8,
    pub stage: StageView,
}

/// The failure that blames the peer at `position` for its message in `round`.
pub open spec fn blame(round: u8, party: u16, position: nat) -> Failure {
    Failure::Verification { round, party: peer_at(party as nat, position) as u16 }
}

/// The signers' places as a party of the first signing round knows them
/// once it holds what its peers announced: their places in the order of the
/// signers, with its own among them. A peer that announces no index of key
/// generation is blamed; two signers with the same share are a failure of
/// configuration.
pub open spec fn signer_set(seat: Seat, announced: Seq<Seq<char>>) -> Result<Seq<usize>, Failure> {
    match signer_slots(announced, seat.params.share_count, announced.len()) {
        Err(position) => Err(blame(0, seat.party, position)),
        Ok(slots) => {
            let all = slots.insert(seat.party - 1, (seat.share_index - 1) as usize);
            if all.no_duplicates() {
                Ok(all)
            } else {
                Err(Failure::Configuration)
            }
        },
    }
}

impl SessionView {
    /// The name of the current round on the relay.
    pub open spec fn round_name(self) -> Seq<char> {
        self.seat.protocol.round_name(self.round as nat)
    }

    /// Whether the current round's messages go from one party to one other.
    pub open spec fn direct(self) -> bool {
        self.seat.protocol.direct(self.round as nat)
    }

    /// Whether the current round's messages are sealed secret shares.
    pub open spec fn sealed(self) -> bool {
        self.seat.protocol.sealed(self.round as nat)
    }

    /// The key under which this party's message for `receiver` is stored.
    pub open spec fn key_to(self, receiver: nat) -> Seq<char> {
        if self.direct() {
            p2p_key_text(self.seat.party as nat, receiver, self.round_name(), self.uuid)
        } else {
            broadcast_key_text(self.seat.party as nat, self.round_name(), self.uuid)
        }
    }

    /// The session in another stage.
    pub open spec fn at(self, stage: StageView) -> SessionView {
        SessionView { stage, ..self }
    }

    /// The session, failed.
    pub open spec fn abort(self, failure: Failure) -> (SessionView, ActionView) {
        (self.at(StageView::Aborted(failure)), ActionView::Failed(failure))
    }

    /// The round whose messages a refusal in the current stage is about:
    /// while a round is prepared, the round before.
    pub open spec fn blamed_round(self) -> u8 {
        match self.stage {
            StageView::Preparing if self.round > 0 => (self.round - 1) as u8,
            _ => self.round,
        }
    }

    /// The session as it starts to post `outbox`.
    pub open spec fn post_all(self, outbox: Seq<PayloadView>, own: OwnView, secrets: Seq<nat>) -> (
        SessionView,
        ActionView,
    ) {
        if outbox.len() == 0 {
            self.abort(Failure::Unexpected)
        } else {
            let receiver = skip_self(self.seat.party as nat, 1);
            (
                self.at(
                    StageView::Posting {
                        rest: outbox.drop_first(),
                        receiver: receiver as u32,
                        own,
                        secrets,
                    },
                ),
                ActionView::Post { key: self.key_to(receiver), payload: outbox[0] },
            )
        }
    }

    /// The session after the cryptographic layer made `list` as this
    /// party's messages: one message in a broadcast round, one for each
    /// peer in a round of direct messages.
    pub open spec fn on_prepared(self, list: Seq<Seq<char>>) -> (SessionView, ActionView) {
        if self.sealed() {
            self.abort(Failure::Unexpected)
        } else if self.direct() {
            if list.len() + 1 == self.seat.parties() {
                self.post_all(text_payloads(list), OwnView::Nothing, Seq::empty())
            } else {
                self.abort(Failure::Unexpected)
            }
        } else {
            if list.len() == 1 {
                self.post_all(text_payloads(list), OwnView::Text(list[0]), Seq::empty())
            } else {
                self.abort(Failure::Unexpected)
            }
        }
    }

    /// The session after the cryptographic layer dealt the secret shares:
    /// each peer's share is sealed under the key shared with that peer, and
    /// only the sealed shares are posted.
    pub open spec fn on_shares(self, secrets: Seq<nat>, shares: Seq<nat>, nonces: Seq<Seq<u8>>) -> (
        SessionView,
        ActionView,
    ) {
        if !self.sealed() || shares.len() != self.seat.parties() || secrets.len() + 1
            != shares.len() || nonces.len() != secrets.len() {
            self.abort(Failure::Unexpected)
        } else {
            match sealed_shares(self.seat.party as nat, secrets, shares, nonces, secrets.len()) {
                Err(_) => self.abort(Failure::Unexpected),
                Ok(sealed) => self.post_all(
                    pack_payloads(sealed),
                    OwnView::Share(shares[self.seat.party - 1]),
                    secrets,
                ),
            }
        }
    }

    /// The session after the relay stored the message on its way: the next
    /// message goes out to the next peer, and when none is left the
    /// collection of the peers' messages begins.
    pub open spec fn on_posted(
        self,
        rest: Seq<PayloadView>,
        receiver: u32,
        own: OwnView,
        secrets: Seq<nat>,
    ) -> (SessionView, ActionView) {
        if rest.len() == 0 {
            self.collecting(
                PollView::start(
                    self.seat.party as nat,
                    self.seat.parties(),
                    self.round_name(),
                    self.uuid,
                    self.direct(),
                ),
                own,
                secrets,
            )
        } else if !self.direct() || receiver >= self.seat.parties() {
            self.abort(Failure::Unexpected)
        } else {
            let next = skip_self(self.seat.party as nat, (receiver + 1) as nat);
            if next > self.seat.parties() {
                self.abort(Failure::Unexpected)
            } else {
                (
                    self.at(
                        StageView::Posting {
                            rest: rest.drop_first(),
                            receiver: next as u32,
                            own,
                            secrets,
                        },
                    ),
                    ActionView::Post { key: self.key_to(next), payload: rest[0] },
                )
            }
        }
    }

    /// The session while it holds `poll`: it asks for the awaited entry, or,
    /// when every peer's message is there, goes on with them.
    pub open spec fn collecting(self, poll: PollView, own: OwnView, secrets: Seq<nat>) -> (
        SessionView,
        ActionView,
    ) {
        match poll.request() {
            Some(key) => (
                self.at(StageView::Collecting { poll, own, secrets }),
                ActionView::Get(key),
            ),
            None => self.collected(poll.answers, own, secrets),
        }
    }

    /// The session once it holds `answers`, a message from every peer:
    /// sealed shares are read out first; what the signers announced gives
    /// the list of signers; other messages go on to the next round as they
    /// are, a broadcast round's with this party's own among them.
    pub open spec fn collected(self, answers: Seq<Seq<char>>, own: OwnView, secrets: Seq<nat>) -> (
        SessionView,
        ActionView,
    ) {
        if answers.len() + 1 != self.seat.parties() {
            self.abort(Failure::Unexpected)
        } else if self.sealed() {
            (self.at(StageView::Decoding { own, secrets }), ActionView::Decode(answers))
        } else if self.seat.protocol == Protocol::Signing && self.round == 0 {
            match signer_set(self.seat, answers) {
                Ok(signers) => self.next_round(InboxView::Signers(signers)),
                Err(failure) => self.abort(failure),
            }
        } else {
            match own {
                OwnView::Text(text) => self.next_round(
                    InboxView::Texts(answers.insert(self.seat.party - 1, text)),
                ),
                OwnView::Nothing => self.next_round(InboxView::Texts(answers)),
                OwnView::Share(_) => self.abort(Failure::Unexpected),
            }
        }
    }

    /// The session after the sealed shares were read out of the collected
    /// texts: each is opened under the key shared with its sender, and the
    /// sender of the first that could not be read or does not open is
    /// blamed.
    pub open spec fn on_decoded(
        self,
        own: OwnView,
        secrets: Seq<nat>,
        sealed: Seq<Option<Sealed>>,
    ) -> (
        SessionView,
        ActionView,
    ) {
        match own {
            OwnView::Share(share) if sealed.len() == secrets.len() && sealed.len() + 1
                == self.seat.parties() => match opened_shares(secrets, sealed, sealed.len()) {
                Ok(shares) => self.next_round(
                    InboxView::Shares(shares.insert(self.seat.party - 1, share)),
                ),
                Err(position) => self.abort(blame(self.round, self.seat.party, position)),
            },
            _ => self.abort(Failure::Unexpected),
        }
    }

    /// The session as it enters the round after the current one, or, after
    /// the last round, the final check.
    pub open spec fn next_round(self, inbox: InboxView) -> (SessionView, ActionView) {
        if self.round + 1 < self.seat.protocol.rounds() {
            let round = (self.round + 1) as u8;
            (
                SessionView { round, stage: StageView::Preparing, ..self },
                ActionView::Prepare { round, inbox },
            )
        } else {
            (self.at(StageView::Concluding), ActionView::Conclude(inbox))
        }
    }

    /// The session after `event`, and what it asks for next.
    pub open spec fn step(self, event: EventView) -> (SessionView, ActionView) {
        match (self.stage, event) {
            (StageView::Done(output), _) => (self, ActionView::Finished(output)),
            (StageView::Aborted(failure), _) => (self, ActionView::Failed(failure)),
            (_, EventView::Lost) => self.abort(Failure::Transport),
            (StageView::Preparing, EventView::Prepared(list)) => self.on_prepared(list),
            (StageView::Preparing, EventView::Shares { secrets, shares, nonces }) => self.on_shares(
                secrets,
                shares,
                nonces,
            ),
            (StageView::Preparing, EventView::Rejected(party)) => self.abort(
                Failure::Verification { round: self.blamed_round(), party },
            ),
            (StageView::Concluding, EventView::Rejected(party)) => self.abort(
                Failure::Verification { round: self.blamed_round(), party },
            ),
            (
                StageView::Posting { rest, receiver, own, secrets },
                EventView::Posted,
            ) => self.on_posted(rest, receiver, own, secrets),
            (
                StageView::Collecting { poll, own, secrets },
                EventView::Got(answer),
            ) => self.collecting(poll.deliver(answer), own, secrets),
            (StageView::Decoding { own, secrets }, EventView::Decoded(sealed)) => self.on_decoded(
                own,
                secrets,
                sealed,
            ),
            (StageView::Concluding, EventView::Concluded(output)) => (
                self.at(StageView::Done(output)),
                ActionView::Finished(output),
            ),
            _ => self.abort(Failure::Unexpected),
        }
    }
}

/// The session of key generation for the party that signed up as `party`,
/// and its first request; `None` unless the parameters are valid and the
/// party is one of the `share_count` parties.
pub open spec fn keygen_start(params: Parameters, party: u16, uuid: Seq<char>) -> Option<
    (SessionView, ActionView),
> {
    let seat = Seat { protocol: Protocol::KeyGeneration, params, party, share_index: party };
    if seat.valid() {
        Some(
            (
                SessionView { seat, uuid, round: 0, stage: StageView::Preparing },
                ActionView::Prepare { round: 0, inbox: InboxView::Nothing },
            ),
        )
    } else {
        None
    }
}

/// The session of signing for the party that signed up as `party` and
/// holds the key share `share_index`, and its first request: to announce
/// that index. `None` unless the parameters are valid, the party is one of
/// the `threshold + 1` signers and the share one of the `share_count`.
pub open spec fn signing_start(
    params: Parameters,
    party: u16,
    share_index: u16,
    uuid: Seq<char>,
) -> Option<(SessionView, ActionView)> {
    let seat = Seat { protocol: Protocol::Signing, params, party, share_index };
    if seat.valid() {
        let announced = decimal(share_index as nat);
        Some(
            SessionView { seat, uuid, round: 0, stage: StageView::Preparing }.post_all(
                seq![PayloadView::Text(announced)],
                OwnView::Text(announced),
                Seq::empty(),
            ),
        )
    } else {
        None
    }
}

} // verus!
