//! One party's run of a protocol as a state machine. The machine takes what
//! happened (the relay's answers, the results of the cryptographic layer)
//! and says what to do next; it performs no input or output itself. Rounds
//! follow each other strictly: a party enters the next round only when it
//! has posted its own messages of the current one and holds a message from
//! every other party. The first failure ends the session for good.

use vstd::prelude::*;
use crate::api::messages::{
    pack_payloads, payloads, text_payloads, Action, Event, Failure, Inbox, Payload, PayloadView,
    Seat,
};
use crate::api::model::{blame, keygen_start, signing_start, OwnView, SessionView, StageView};
use crate::api::format_vec_from_reads;
use crate::api::rounds::{Parameters, Protocol};
use crate::api::shares::{byte_strings, open_shares, packs, read_packs, seal_shares, values};
use crate::api::signers::{distinct, read_signers};
use crate::common::{PartySignup, AEAD};
use crate::curv::arithmetic::BigInt;
use crate::relay::{
    broadcast_key, decimal, first_peer, p2p_key, poll_for_broadcasts, poll_for_p2p, push_decimal,
    texts, Poll,
};

verus! {

/// What a party adds of its own to the messages it collects in a round.
#[derive(Debug)]
enum Own {
    /// Nothing: the round's messages go from one party to one other.
    Nothing,
    /// The message that it broadcast.
    Text(String),
    /// The secret share that it dealt to itself.
    Share(BigInt),
}

impl View for Own {
    type V = OwnView;

    closed spec fn view(&self) -> OwnView {
        match self {
            Own::Nothing => OwnView::Nothing,
            Own::Text(text) => OwnView::Text(text@),
            Own::Share(share) => OwnView::Share(share@),
        }
    }
}

/// Where in a round the session stands.
#[derive(Debug)]
enum Stage {
    /// The cryptographic layer is making this party's messages.
    Preparing,
    /// One message is on its way to the relay; `rest` are those still to
    /// post, `receiver` the party that the one on its way is for.
    Posting { rest: Vec<Payload>, receiver: u32, own: Own, secrets: Vec<BigInt> },
    /// The peers' messages are being collected.
    Collecting { poll: Poll, own: Own, secrets: Vec<BigInt> },
    /// The sealed shares are being read out of the collected texts.
    Decoding { own: Own, secrets: Vec<BigInt> },
    /// The cryptographic layer is checking the last round.
    Concluding,
    /// The session has ended with this result.
    Done(String),
    /// The session has failed.
    Aborted(Failure),
}

impl View for Stage {
    type V = StageView;

    closed spec fn view(&self) -> StageView {
        match self {
            Stage::Preparing => StageView::Preparing,
            Stage::Posting { rest, receiver, own, secrets } => StageView::Posting {
                rest: payloads(rest@),
                receiver: *receiver,
                own: own@,
                secrets: values(secrets@),
            },
            Stage::Collecting { poll, own, secrets } => StageView::Collecting {
                poll: poll@,
                own: own@,
                secrets: values(secrets@),
            },
            Stage::Decoding { own, secrets } => StageView::Decoding {
                own: own@,
                secrets: values(secrets@),
            },
            Stage::Concluding => StageView::Concluding,
            Stage::Done(output) => StageView::Done(output@),
            Stage::Aborted(failure) => StageView::Aborted(*failure),
        }
    }
}

/// One party's run of key generation or of signing.
#[derive(Debug)]
pub struct Session {
    seat: Seat,
    uuid: String,
    round: u8,
    stage: Stage,
}

impl View for Session {
    type V = SessionView;

    closed spec fn view(&self) -> SessionView {
        SessionView { seat: self.seat, uuid: self.uuid@, round: self.round, stage: self.stage@ }
    }
}

fn to_text_payloads(list: Vec<String>) -> (outbox: Vec<Payload>)
    ensures
        payloads(outbox@) == text_payloads(texts(list@)),
{
    let mut outbox: Vec<Payload> = Vec::new();
    let mut at: usize = 0;
    while at < list.len()
        invariant
            at <= list@.len(),
            outbox@.len() == at,
            forall|i: int| 0 <= i < at ==> (#[trigger] outbox@[i])@ == PayloadView::Text(list@[i]@),
        decreases list@.len() - at,
    {
        outbox.push(Payload::Text(list[at].clone()));
        at = at + 1;
    }
    assert(payloads(outbox@) =~= text_payloads(texts(list@)));
    outbox
}

fn to_pack_payloads(list: Vec<AEAD>) -> (outbox: Vec<Payload>)
    ensures
        payloads(outbox@) == pack_payloads(packs(list@)),
{
    let mut outbox: Vec<Payload> = Vec::new();
    let mut at: usize = 0;
    while at < list.len()
        invariant
            at <= list@.len(),
            outbox@.len() == at,
            forall|i: int| 0 <= i < at ==> (#[trigger] outbox@[i])@ == PayloadView::Pack(list@[i]@),
        decreases list@.len() - at,
    {
        outbox.push(Payload::Pack(list[at].clone()));
        at = at + 1;
    }
    assert(payloads(outbox@) =~= pack_payloads(packs(list@)));
    outbox
}

impl Session {
    #[verifier::type_invariant]
    closed spec fn seated(&self) -> bool {
        self.seat.valid()
    }

    /// Starts key generation with the parameters `params` for the party
    /// that the relay admitted as `signup`. Fails on parameters that are
    /// not valid and on an index that is not one of the parties'.
    pub fn keygen(params: Parameters, signup: PartySignup) -> (start: Result<
        (Session, Action),
        Failure,
    >)
        ensures
            match keygen_start(params, signup.number, signup.uuid@) {
                Some(first) => start matches Ok(pair) && pair.0@ == first.0 && pair.1@ == first.1,
                None => start matches Err(failure) && failure == Failure::Configuration,
            },
    {
        let party = signup.number;
        let seat = Seat { protocol: Protocol::KeyGeneration, params, party, share_index: party };
        if params.is_valid() && 1 <= party && party <= params.share_count {
            Ok(
                (
                    Session { seat, uuid: signup.uuid, round: 0, stage: Stage::Preparing },
                    Action::Prepare { round: 0, inbox: Inbox::Nothing },
                ),
            )
        } else {
            Err(Failure::Configuration)
        }
    }

    /// Starts signing with the parameters `params` for the party that the
    /// relay admitted as `signup` and that holds the key share `party_id`.
    /// Fails on parameters that are not valid, on an index that is not one
    /// of the `threshold + 1` signers', and on a share that is not one of
    /// the `share_count`.
    pub fn signing(params: Parameters, signup: PartySignup, party_id: u16) -> (start: Result<
        (Session, Action),
        Failure,
    >)
        ensures
            match signing_start(params, signup.number, party_id, signup.uuid@) {
                Some(first) => start matches Ok(pair) && pair.0@ == first.0 && pair.1@ == first.1,
                None => start matches Err(failure) && failure == Failure::Configuration,
            },
    {
        let party = signup.number;
        let seat = Seat { protocol: Protocol::Signing, params, party, share_index: party_id };
        if params.is_valid() && 1 <= party && party <= params.threshold + 1 && 1 <= party_id
            && party_id <= params.share_count {
            let mut announced = String::new();
            push_decimal(&mut announced, party_id);
            assert(announced@ =~= decimal(party_id as nat));
            let mut outbox: Vec<Payload> = Vec::new();
            outbox.push(Payload::Text(announced.clone()));
            assert(payloads(outbox@) =~= seq![PayloadView::Text(announced@)]);
            let secrets: Vec<BigInt> = Vec::new();
            assert(values(secrets@) =~= Seq::<nat>::empty());
            let session = Session { seat, uuid: signup.uuid, round: 0, stage: Stage::Preparing };
            Ok(session.post_all(outbox, Own::Text(announced), secrets))
        } else {
            Err(Failure::Configuration)
        }
    }

    /// Who runs the session, and for what.
    pub fn seat(&self) -> (seat: Seat)
        ensures
            seat == self@.seat,
            seat.valid(),
    {
        proof {
            use_type_invariant(self);
        }
        self.seat
    }

    /// The position of the current round, counted from zero.
    pub fn round(&self) -> (round: u8)
        ensures
            round == self@.round,
    {
        self.round
    }

    /// Whether the session has ended, with a result or a failure.
    pub fn is_over(&self) -> (over: bool)
        ensures
            over == (self@.stage is Done || self@.stage is Aborted),
    {
        match &self.stage {
            Stage::Done(_) => true,
            Stage::Aborted(_) => true,
            _ => false,
        }
    }

    /// The failure that ended the session, if one did.
    pub fn failure(&self) -> (failure: Option<Failure>)
        ensures
            failure == match self@.stage {
                StageView::Aborted(f) => Some(f),
                _ => None,
            },
    {
        match &self.stage {
            Stage::Aborted(failure) => Some(*failure),
            _ => None,
        }
    }

    fn key_to(&self, receiver: u16) -> (key: String)
        ensures
            key@ == self@.key_to(receiver as nat),
    {
        let name = self.seat.protocol.name_of_round(self.round);
        if self.seat.protocol.is_direct(self.round) {
            p2p_key(self.seat.party, receiver, name.as_str(), self.uuid.as_str())
        } else {
            broadcast_key(self.seat.party, name.as_str(), self.uuid.as_str())
        }
    }

    fn abort(self, failure: Failure) -> (next: (Session, Action))
        ensures
            next.0@ == self@.abort(failure).0,
            next.1@ == self@.abort(failure).1,
    {
        proof {
            use_type_invariant(&self);
        }
        let Session { seat, uuid, round, stage: _ } = self;
        (Session { seat, uuid, round, stage: Stage::Aborted(failure) }, Action::Failed(failure))
    }

    fn post_all(self, outbox: Vec<Payload>, own: Own, secrets: Vec<BigInt>) -> (next: (
        Session,
        Action,
    ))
        ensures
            next.0@ == self@.post_all(payloads(outbox@), own@, values(secrets@)).0,
            next.1@ == self@.post_all(payloads(outbox@), own@, values(secrets@)).1,
    {
        proof {
            use_type_invariant(&self);
        }
        if outbox.len() == 0 {
            return self.abort(Failure::Unexpected);
        }
        let receiver = first_peer(self.seat.party, 1);
        let key = self.key_to(receiver as u16);
        let mut rest = outbox;
        let payload = rest.remove(0);
        assert(payloads(rest@) =~= payloads(outbox@).drop_first());
        let Session { seat, uuid, round, stage: _ } = self;
        (
            Session { seat, uuid, round, stage: Stage::Posting { rest, receiver, own, secrets } },
            Action::Post { key, payload },
        )
    }

    fn next_round(self, inbox: Inbox) -> (next: (Session, Action))
        ensures
            next.0@ == self@.next_round(inbox@).0,
            next.1@ == self@.next_round(inbox@).1,
    {
        proof {
            use_type_invariant(&self);
        }
        let Session { seat, uuid, round, stage: _ } = self;
        if round < seat.protocol.round_count() - 1 {
            let round = round + 1;
            (Session { seat, uuid, round, stage: Stage::Preparing }, Action::Prepare { round, inbox })
        } else {
            (Session { seat, uuid, round, stage: Stage::Concluding }, Action::Conclude(inbox))
        }
    }

    fn blame(&self, position: usize) -> (failure: Failure)
        requires
            position + 1 < self@.seat.parties(),
        ensures
            failure == blame(self@.round, self@.seat.party, position as nat),
    {
        proof {
            use_type_invariant(self);
        }
        let peer: usize = if position + 1 < self.seat.party as usize {
            position + 1
        } else {
            position + 2
        };
        Failure::Verification { round: self.round, party: peer as u16 }
    }

    fn collected(self, answers: Vec<String>, own: Own, secrets: Vec<BigInt>) -> (next: (
        Session,
        Action,
    ))
        ensures
            next.0@ == self@.collected(texts(answers@), own@, values(secrets@)).0,
            next.1@ == self@.collected(texts(answers@), own@, values(secrets@)).1,
    {
        proof {
            use_type_invariant(&self);
        }
        let parties = self.seat.protocol.party_count(self.seat.params);
        if answers.len() != (parties - 1) as usize {
            return self.abort(Failure::Unexpected);
        }
        if self.seat.protocol.is_sealed(self.round) {
            let Session { seat, uuid, round, stage: _ } = self;
            return (
                Session { seat, uuid, round, stage: Stage::Decoding { own, secrets } },
                Action::Decode(answers),
            );
        }
        let first_of_signing = match self.seat.protocol {
            Protocol::Signing => self.round == 0,
            Protocol::KeyGeneration => false,
        };
        if first_of_signing {
            match read_signers(&answers, self.seat.params.share_count) {
                Err(position) => {
                    let failure = self.blame(position);
                    self.abort(failure)
                },
                Ok(slots) => {
                    let mut all: Vec<usize> = Vec::new();
                    format_vec_from_reads(
                        slots,
                        self.seat.party as usize,
                        (self.seat.share_index - 1) as usize,
                        &mut all,
                    );
                    assert(all@ =~= slots@.insert(
                        self.seat.party - 1,
                        (self.seat.share_index - 1) as usize,
                    ));
                    if distinct(&all) {
                        self.next_round(Inbox::Signers(all))
                    } else {
                        self.abort(Failure::Configuration)
                    }
                },
            }
        } else {
            match own {
                Own::Text(text) => {
                    let mut all: Vec<String> = Vec::new();
                    format_vec_from_reads(answers, self.seat.party as usize, text, &mut all);
                    assert(texts(all@) =~= texts(answers@).insert(self.seat.party - 1, text@));
                    self.next_round(Inbox::Texts(all))
                },
                Own::Nothing => self.next_round(Inbox::Texts(answers)),
                Own::Share(_) => self.abort(Failure::Unexpected),
            }
        }
    }

    fn collecting(self, poll: Poll, own: Own, secrets: Vec<BigInt>) -> (next: (Session, Action))
        ensures
            next.0@ == self@.collecting(poll@, own@, values(secrets@)).0,
            next.1@ == self@.collecting(poll@, own@, values(secrets@)).1,
    {
        proof {
            use_type_invariant(&self);
        }
        match poll.request() {
            Some(index) => {
                let Session { seat, uuid, round, stage: _ } = self;
                (
                    Session { seat, uuid, round, stage: Stage::Collecting { poll, own, secrets } },
                    Action::Get(index),
                )
            },
            None => {
                let answers = poll.into_answers();
                self.collected(answers, own, secrets)
            },
        }
    }

    fn on_posted(self, rest: Vec<Payload>, receiver: u32, own: Own, secrets: Vec<BigInt>) -> (next:
        (Session, Action))
        ensures
            next.0@ == self@.on_posted(payloads(rest@), receiver, own@, values(secrets@)).0,
            next.1@ == self@.on_posted(payloads(rest@), receiver, own@, values(secrets@)).1,
    {
        proof {
            use_type_invariant(&self);
        }
        let parties = self.seat.protocol.party_count(self.seat.params);
        let direct = self.seat.protocol.is_direct(self.round);
        if rest.len() == 0 {
            let name = self.seat.protocol.name_of_round(self.round);
            let poll = if direct {
                poll_for_p2p(self.seat.party, parties as u16, name.as_str(), self.uuid.clone())
            } else {
                poll_for_broadcasts(self.seat.party, parties as u16, name.as_str(), self.uuid.clone())
            };
            return self.collecting(poll, own, secrets);
        }
        if !direct || receiver >= parties {
            return self.abort(Failure::Unexpected);
        }
        let next = first_peer(self.seat.party, receiver + 1);
        if next > parties {
            return self.abort(Failure::Unexpected);
        }
        let key = self.key_to(next as u16);
        let mut rest = rest;
        let ghost before = payloads(rest@);
        let payload = rest.remove(0);
        assert(payloads(rest@) =~= before.drop_first());
        let Session { seat, uuid, round, stage: _ } = self;
        (
            Session {
                seat,
                uuid,
                round,
                stage: Stage::Posting { rest, receiver: next, own, secrets },
            },
            Action::Post { key, payload },
        )
    }

    fn on_prepared(self, list: Vec<String>) -> (next: (Session, Action))
        ensures
            next.0@ == self@.on_prepared(texts(list@)).0,
            next.1@ == self@.on_prepared(texts(list@)).1,
    {
        proof {
            use_type_invariant(&self);
        }
        let parties = self.seat.protocol.party_count(self.seat.params);
        let secrets: Vec<BigInt> = Vec::new();
        assert(values(secrets@) =~= Seq::<nat>::empty());
        if self.seat.protocol.is_sealed(self.round) {
            self.abort(Failure::Unexpected)
        } else if self.seat.protocol.is_direct(self.round) {
            if list.len() == (parties - 1) as usize {
                let outbox = to_text_payloads(list);
                self.post_all(outbox, Own::Nothing, secrets)
            } else {
                self.abort(Failure::Unexpected)
            }
        } else {
            if list.len() == 1 {
                let own = list[0].clone();
                assert(own@ == texts(list@)[0]);
                let outbox = to_text_payloads(list);
                self.post_all(outbox, Own::Text(own), secrets)
            } else {
                self.abort(Failure::Unexpected)
            }
        }
    }

    fn on_shares(self, secrets: Vec<BigInt>, shares: Vec<BigInt>, nonces: Vec<Vec<u8>>) -> (next: (
        Session,
        Action,
    ))
        ensures
            next.0@ == self@.on_shares(values(secrets@), values(shares@), byte_strings(nonces@)).0,
            next.1@ == self@.on_shares(values(secrets@), values(shares@), byte_strings(nonces@)).1,
    {
        proof {
            use_type_invariant(&self);
        }
        let parties = self.seat.protocol.party_count(self.seat.params);
        if !self.seat.protocol.is_sealed(self.round) || shares.len() != parties as usize
            || secrets.len() != shares.len() - 1 || nonces.len() != secrets.len() {
            return self.abort(Failure::Unexpected);
        }
        match seal_shares(self.seat.party, &secrets, &shares, &nonces) {
            Err(_) => self.abort(Failure::Unexpected),
            Ok(sealed) => {
                let own = shares[(self.seat.party - 1) as usize].clone();
                let outbox = to_pack_payloads(sealed);
                self.post_all(outbox, Own::Share(own), secrets)
            },
        }
    }

    fn on_decoded(self, own: Own, secrets: Vec<BigInt>, sealed: Vec<Option<AEAD>>) -> (next: (
        Session,
        Action,
    ))
        ensures
            next.0@ == self@.on_decoded(own@, values(secrets@), read_packs(sealed@)).0,
            next.1@ == self@.on_decoded(own@, values(secrets@), read_packs(sealed@)).1,
    {
        proof {
            use_type_invariant(&self);
        }
        let parties = self.seat.protocol.party_count(self.seat.params);
        match own {
            Own::Share(share) => {
                if sealed.len() != secrets.len() || sealed.len() != (parties - 1) as usize {
                    return self.abort(Failure::Unexpected);
                }
                match open_shares(&secrets, &sealed) {
                    Ok(shares) => {
                        let mut all: Vec<BigInt> = Vec::new();
                        format_vec_from_reads(shares, self.seat.party as usize, share, &mut all);
                        assert(values(all@) =~= values(shares@).insert(
                            self.seat.party - 1,
                            share@,
                        ));
                        self.next_round(Inbox::Shares(all))
                    },
                    Err(position) => {
                        let failure = self.blame(position);
                        self.abort(failure)
                    },
                }
            },
            _ => self.abort(Failure::Unexpected),
        }
    }

    /// Takes what happened and says what to do next. A session that has
    /// ended stays as it is and repeats its last word.
    pub fn step(self, event: Event) -> (next: (Session, Action))
        ensures
            next.0@ == self@.step(event@).0,
            next.1@ == self@.step(event@).1,
    {
        proof {
            use_type_invariant(&self);
        }
        let Session { seat, uuid, round, stage } = self;
        match (stage, event) {
            (Stage::Done(output), _) => {
                let again = output.clone();
                (Session { seat, uuid, round, stage: Stage::Done(output) }, Action::Finished(again))
            },
            (Stage::Aborted(failure), _) => (
                Session { seat, uuid, round, stage: Stage::Aborted(failure) },
                Action::Failed(failure),
            ),
            (_, Event::Lost) => Session { seat, uuid, round, stage: Stage::Preparing }.abort(
                Failure::Transport,
            ),
            (Stage::Preparing, Event::Prepared(list)) => Session {
                seat,
                uuid,
                round,
                stage: Stage::Preparing,
            }.on_prepared(list),
            (Stage::Preparing, Event::Shares { secrets, shares, nonces }) => Session {
                seat,
                uuid,
                round,
                stage: Stage::Preparing,
            }.on_shares(secrets, shares, nonces),
            (Stage::Preparing, Event::Rejected(party)) => {
                let blamed = if round > 0 {
                    round - 1
                } else {
                    round
                };
                Session { seat, uuid, round, stage: Stage::Preparing }.abort(
                    Failure::Verification { round: blamed, party },
                )
            },
            (Stage::Concluding, Event::Rejected(party)) => Session {
                seat,
                uuid,
                round,
                stage: Stage::Preparing,
            }.abort(Failure::Verification { round, party }),
            (Stage::Posting { rest, receiver, own, secrets }, Event::Posted) => Session {
                seat,
                uuid,
                round,
                stage: Stage::Preparing,
            }.on_posted(rest, receiver, own, secrets),
            (Stage::Collecting { poll, own, secrets }, Event::Got(answer)) => {
                let poll = poll.deliver(answer);
                Session { seat, uuid, round, stage: Stage::Preparing }.collecting(
                    poll,
                    own,
                    secrets,
                )
            },
            (Stage::Decoding { own, secrets }, Event::Decoded(sealed)) => Session {
                seat,
                uuid,
                round,
                stage: Stage::Preparing,
            }.on_decoded(own, secrets, sealed),
            (Stage::Concluding, Event::Concluded(output)) => {
                let again = output.clone();
                (Session { seat, uuid, round, stage: Stage::Done(output) }, Action::Finished(again))
            },
            _ => Session { seat, uuid, round, stage: Stage::Preparing }.abort(Failure::Unexpected),
        }
    }
}

} // verus!
