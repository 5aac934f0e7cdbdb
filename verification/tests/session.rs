use gg18::api::rounds::{Parameters, Protocol};
use gg18::api::messages::{Action, Event, Failure, Inbox, Payload};
use gg18::api::session::Session;
use gg18::common::{fresh_nonce, Entry, Index, PartySignup, AEAD};
use gg18::curv::arithmetic::{from, BigInt};
use std::collections::HashMap;

fn params(threshold: u16, share_count: u16) -> Parameters {
    Parameters { threshold, share_count }
}

fn signup(number: u16) -> PartySignup {
    PartySignup { number, uuid: "sid".to_string() }
}

fn texts(list: &[&str]) -> Vec<String> {
    list.iter().map(|text| text.to_string()).collect()
}

fn found(value: &str) -> Event {
    Event::Got(Some(Entry { key: String::new(), value: value.to_string() }))
}

fn pack_to_text(pack: &AEAD) -> String {
    format!("{}:{}", hex::encode(&pack.ciphertext), hex::encode(&pack.tag))
}

fn text_to_pack(text: &str) -> Option<AEAD> {
    let (ciphertext, tag) = text.split_once(':')?;
    Some(AEAD { ciphertext: hex::decode(ciphertext).ok()?, tag: hex::decode(tag).ok()? })
}

fn shared_secret(one: u16, other: u16) -> BigInt {
    from(&[0x5a, one.min(other) as u8, one.max(other) as u8])
}

fn dealt_share(dealer: u16, receiver: u16) -> BigInt {
    from(&[0x01, dealer as u8, receiver as u8])
}

/// Stands for the cryptographic layer of one party in key generation: it
/// makes recognisable messages and records every inbox it is shown.
struct Dealer {
    party: u16,
    parties: u16,
    seen: Vec<Inbox>,
}

impl Dealer {
    fn prepare(&mut self, round: u8, inbox: Inbox) -> Event {
        self.seen.push(inbox);
        if round == 2 {
            let peers: Vec<u16> = (1..=self.parties).filter(|p| *p != self.party).collect();
            Event::Shares {
                secrets: peers.iter().map(|peer| shared_secret(self.party, *peer)).collect(),
                shares: (1..=self.parties).map(|to| dealt_share(self.party, to)).collect(),
                nonces: peers.iter().map(|_| fresh_nonce().unwrap()).collect(),
            }
        } else {
            Event::Prepared(vec![format!("message {} of party {}", round, self.party)])
        }
    }

    fn conclude(&mut self, inbox: Inbox) -> Event {
        self.seen.push(inbox);
        Event::Concluded(format!("bundle of party {}", self.party))
    }
}

/// Performs what a session asks for until it ends or needs an entry that
/// the relay does not hold yet.
fn run_key_generation(
    session: Session,
    action: Action,
    dealer: &mut Dealer,
    relay: &mut HashMap<String, String>,
) -> (Session, Action) {
    let mut session = session;
    let mut action = action;
    loop {
        let event = match action {
            Action::Prepare { round, inbox } => dealer.prepare(round, inbox),
            Action::Post { key, payload } => {
                let value = match payload {
                    Payload::Text(text) => text,
                    Payload::Pack(pack) => pack_to_text(&pack),
                };
                relay.insert(key, value);
                Event::Posted
            }
            Action::Get(Index { key }) => match relay.get(&key) {
                Some(value) => Event::Got(Some(Entry { key, value: value.clone() })),
                None => return (session, Action::Get(Index { key })),
            },
            Action::Decode(list) => {
                Event::Decoded(list.iter().map(|text| text_to_pack(text)).collect())
            }
            Action::Conclude(inbox) => dealer.conclude(inbox),
            Action::Finished(_) | Action::Failed(_) => return (session, action),
        };
        let next = session.step(event);
        session = next.0;
        action = next.1;
    }
}

#[test]
fn three_parties_generate_a_key_over_a_shared_relay() {
    let mut relay = HashMap::new();
    let mut dealers: Vec<Dealer> =
        (1..=3).map(|party| Dealer { party, parties: 3, seen: Vec::new() }).collect();
    let mut running: Vec<Option<(Session, Action)>> = (1..=3)
        .map(|party| Some(Session::keygen(params(1, 3), signup(party)).unwrap()))
        .collect();
    for _ in 0..20 {
        for at in 0..3 {
            let (session, action) = running[at].take().unwrap();
            running[at] = Some(run_key_generation(session, action, &mut dealers[at], &mut relay));
        }
    }
    for (at, state) in running.iter().enumerate() {
        let (session, action) = state.as_ref().unwrap();
        assert!(session.is_over());
        assert_eq!(session.failure(), None);
        assert_eq!(session.round(), 4);
        assert_eq!(action, &Action::Finished(format!("bundle of party {}", at + 1)));
    }
    for dealer in &dealers {
        let me = dealer.party;
        assert_eq!(dealer.seen.len(), 6);
        assert_eq!(dealer.seen[0], Inbox::Nothing);
        for (shown, round) in [(1usize, 0u8), (2, 1), (4, 3), (5, 4)] {
            let expected: Vec<String> =
                (1..=3).map(|party| format!("message {} of party {}", round, party)).collect();
            assert_eq!(dealer.seen[shown], Inbox::Texts(expected));
        }
        let expected: Vec<BigInt> = (1..=3).map(|from| dealt_share(from, me)).collect();
        assert_eq!(dealer.seen[3], Inbox::Shares(expected));
    }
    assert_eq!(relay.len(), 3 * 4 + 3 * 2);
    assert_eq!(relay["2-round1-sid"], "message 0 of party 2");
    assert_eq!(relay["3-round5-sid"], "message 4 of party 3");
    for (sender, receiver) in [(1, 2), (1, 3), (2, 1), (2, 3), (3, 1), (3, 2)] {
        let stored = &relay[&format!("{}-{}-round3-sid", sender, receiver)];
        let pack = text_to_pack(stored).unwrap();
        assert_eq!(pack.ciphertext.len(), 3 + 16);
        assert_eq!(
            gg18::api::shares::open_share(&shared_secret(sender, receiver), pack),
            Ok(dealt_share(sender, receiver))
        );
    }
}

#[test]
fn key_generation_starts_by_asking_for_the_first_message() {
    let (session, action) = Session::keygen(params(1, 3), signup(2)).unwrap();
    assert_eq!(action, Action::Prepare { round: 0, inbox: Inbox::Nothing });
    assert_eq!(session.round(), 0);
    assert!(!session.is_over());
    let seat = session.seat();
    assert_eq!(seat.protocol, Protocol::KeyGeneration);
    assert_eq!(seat.party, 2);
    assert_eq!(seat.share_index, 2);
    assert_eq!(seat.params, params(1, 3));
}

#[test]
fn key_generation_refuses_a_bad_configuration() {
    assert_eq!(Session::keygen(params(0, 3), signup(1)).err(), Some(Failure::Configuration));
    assert_eq!(Session::keygen(params(3, 3), signup(1)).err(), Some(Failure::Configuration));
    assert_eq!(Session::keygen(params(1, 3), signup(0)).err(), Some(Failure::Configuration));
    assert_eq!(Session::keygen(params(1, 3), signup(4)).err(), Some(Failure::Configuration));
    assert!(Session::keygen(params(1, 3), signup(3)).is_ok());
    assert!(Session::keygen(params(1, 2), signup(1)).is_ok());
}

#[test]
fn signing_refuses_a_bad_configuration() {
    assert_eq!(Session::signing(params(0, 3), signup(1), 1).err(), Some(Failure::Configuration));
    assert_eq!(Session::signing(params(1, 3), signup(0), 1).err(), Some(Failure::Configuration));
    assert_eq!(Session::signing(params(1, 3), signup(3), 1).err(), Some(Failure::Configuration));
    assert_eq!(Session::signing(params(1, 3), signup(1), 0).err(), Some(Failure::Configuration));
    assert_eq!(Session::signing(params(1, 3), signup(1), 4).err(), Some(Failure::Configuration));
    assert!(Session::signing(params(1, 3), signup(2), 3).is_ok());
    assert!(Session::signing(params(2, 3), signup(3), 1).is_ok());
}

#[test]
fn broadcast_round_posts_then_collects_then_moves_on() {
    let (session, _) = Session::keygen(params(1, 3), signup(2)).unwrap();
    let (session, action) = session.step(Event::Prepared(texts(&["mine"])));
    assert_eq!(
        action,
        Action::Post { key: "2-round1-sid".to_string(), payload: Payload::Text("mine".to_string()) }
    );
    let (session, action) = session.step(Event::Posted);
    assert_eq!(action, Action::Get(Index { key: "1-round1-sid".to_string() }));
    let (session, action) = session.step(Event::Got(None));
    assert_eq!(action, Action::Get(Index { key: "1-round1-sid".to_string() }));
    let (session, action) = session.step(found("first"));
    assert_eq!(action, Action::Get(Index { key: "3-round1-sid".to_string() }));
    assert_eq!(session.round(), 0);
    let (session, action) = session.step(found("third"));
    assert_eq!(
        action,
        Action::Prepare { round: 1, inbox: Inbox::Texts(texts(&["first", "mine", "third"])) }
    );
    assert_eq!(session.round(), 1);
}

fn through_two_rounds(party: u16) -> Session {
    let (mut session, _) = Session::keygen(params(1, 3), signup(party)).unwrap();
    for _ in 0..2 {
        session = session.step(Event::Prepared(texts(&["mine"]))).0;
        session = session.step(Event::Posted).0;
        session = session.step(found("a")).0;
        session = session.step(found("b")).0;
    }
    assert_eq!(session.round(), 2);
    session
}

fn deal(party: u16) -> Event {
    let peers: Vec<u16> = (1..=3).filter(|p| *p != party).collect();
    Event::Shares {
        secrets: peers.iter().map(|peer| shared_secret(party, *peer)).collect(),
        shares: (1..=3).map(|to| dealt_share(party, to)).collect(),
        nonces: peers.iter().map(|peer| vec![*peer as u8; 12]).collect(),
    }
}

#[test]
fn shares_are_posted_sealed_and_in_the_order_of_the_peers() {
    let session = through_two_rounds(2);
    let (session, action) = session.step(deal(2));
    let Action::Post { key, payload: Payload::Pack(pack) } = action else {
        panic!("a sealed share should be posted first");
    };
    assert_eq!(key, "2-1-round3-sid");
    assert_eq!(pack.tag, vec![1u8; 12]);
    assert_eq!(
        gg18::api::shares::open_share(&shared_secret(1, 2), pack),
        Ok(dealt_share(2, 1))
    );
    let (session, action) = session.step(Event::Posted);
    let Action::Post { key, payload: Payload::Pack(pack) } = action else {
        panic!("a sealed share should be posted second");
    };
    assert_eq!(key, "2-3-round3-sid");
    assert_eq!(pack.tag, vec![3u8; 12]);
    assert_eq!(
        gg18::api::shares::open_share(&shared_secret(2, 3), pack),
        Ok(dealt_share(2, 3))
    );
    let (_, action) = session.step(Event::Posted);
    assert_eq!(action, Action::Get(Index { key: "1-2-round3-sid".to_string() }));
}

fn collecting_shares(party: u16) -> (Session, Action) {
    let session = through_two_rounds(party);
    let session = session.step(deal(party)).0;
    let session = session.step(Event::Posted).0;
    let session = session.step(Event::Posted).0;
    let session = session.step(found("p")).0;
    session.step(found("q"))
}

#[test]
fn collected_shares_are_decoded_then_opened() {
    let (session, action) = collecting_shares(2);
    assert_eq!(action, Action::Decode(texts(&["p", "q"])));
    let from_one = gg18::api::shares::seal_share(
        &shared_secret(1, 2),
        vec![9u8; 12],
        &dealt_share(1, 2),
    )
    .unwrap();
    let from_three = gg18::api::shares::seal_share(
        &shared_secret(3, 2),
        vec![8u8; 12],
        &dealt_share(3, 2),
    )
    .unwrap();
    let (session, action) = session.step(Event::Decoded(vec![Some(from_one), Some(from_three)]));
    assert_eq!(
        action,
        Action::Prepare {
            round: 3,
            inbox: Inbox::Shares(vec![dealt_share(1, 2), dealt_share(2, 2), dealt_share(3, 2)]),
        }
    );
    assert_eq!(session.round(), 3);
}

#[test]
fn share_that_does_not_open_blames_its_sender() {
    let (session, _) = collecting_shares(1);
    let from_two = gg18::api::shares::seal_share(
        &shared_secret(1, 2),
        vec![9u8; 12],
        &dealt_share(2, 1),
    )
    .unwrap();
    let mut from_three = gg18::api::shares::seal_share(
        &shared_secret(1, 3),
        vec![8u8; 12],
        &dealt_share(3, 1),
    )
    .unwrap();
    from_three.ciphertext[1] ^= 0x10;
    let (session, action) = session.step(Event::Decoded(vec![Some(from_two), Some(from_three)]));
    let failure = Failure::Verification { round: 2, party: 3 };
    assert_eq!(action, Action::Failed(failure));
    assert_eq!(session.failure(), Some(failure));
}

#[test]
fn share_sealed_for_another_party_blames_its_sender() {
    let (session, _) = collecting_shares(3);
    let from_one = gg18::api::shares::seal_share(
        &shared_secret(1, 2),
        vec![9u8; 12],
        &dealt_share(1, 2),
    )
    .unwrap();
    let from_two = gg18::api::shares::seal_share(
        &shared_secret(2, 3),
        vec![8u8; 12],
        &dealt_share(2, 3),
    )
    .unwrap();
    let (_, action) = session.step(Event::Decoded(vec![Some(from_one), Some(from_two)]));
    assert_eq!(action, Action::Failed(Failure::Verification { round: 2, party: 1 }));
}

#[test]
fn unreadable_sealed_share_blames_its_sender() {
    let (session, _) = collecting_shares(2);
    let from_one = gg18::api::shares::seal_share(
        &shared_secret(1, 2),
        vec![9u8; 12],
        &dealt_share(1, 2),
    )
    .unwrap();
    let (session, action) = session.step(Event::Decoded(vec![Some(from_one), None]));
    assert_eq!(action, Action::Failed(Failure::Verification { round: 2, party: 3 }));
    assert!(session.is_over());
    let (session, _) = collecting_shares(2);
    let (_, action) = session.step(Event::Decoded(vec![None, None]));
    assert_eq!(action, Action::Failed(Failure::Verification { round: 2, party: 1 }));
}

#[test]
fn dealt_shares_come_with_a_nonce_for_each_peer() {
    let Event::Shares { secrets, shares, nonces } = deal(1) else {
        panic!("deal makes shares");
    };
    let event = gg18::api::deal(secrets.clone(), shares.clone()).unwrap();
    let Event::Shares { secrets: kept, shares: dealt, nonces: drawn } = event else {
        panic!("the event should hold the shares");
    };
    assert_eq!(kept, secrets);
    assert_eq!(dealt, shares);
    assert_eq!(drawn.len(), nonces.len());
    assert!(drawn.iter().all(|nonce| nonce.len() == 12));
    assert_ne!(drawn[0], drawn[1]);
    let session = through_two_rounds(1);
    let (_, action) = session.step(Event::Shares { secrets: kept, shares: dealt, nonces: drawn });
    assert!(matches!(action, Action::Post { payload: Payload::Pack(_), .. }));
}

#[test]
fn wrong_number_of_decoded_shares_is_unexpected() {
    let (session, _) = collecting_shares(2);
    let (_, action) = session.step(Event::Decoded(Vec::new()));
    assert_eq!(action, Action::Failed(Failure::Unexpected));
}

#[test]
fn text_in_the_round_of_shares_is_unexpected() {
    let session = through_two_rounds(1);
    let (_, action) = session.step(Event::Prepared(texts(&["a share in the clear", "another"])));
    assert_eq!(action, Action::Failed(Failure::Unexpected));
}

#[test]
fn shares_outside_their_round_are_unexpected() {
    let (session, _) = Session::keygen(params(1, 3), signup(1)).unwrap();
    let (_, action) = session.step(deal(1));
    assert_eq!(action, Action::Failed(Failure::Unexpected));
}

#[test]
fn ill_shaped_deal_is_unexpected() {
    for broken in 0..4 {
        let session = through_two_rounds(1);
        let Event::Shares { mut secrets, mut shares, mut nonces } = deal(1) else {
            panic!("deal makes shares");
        };
        match broken {
            0 => {
                secrets.pop();
            }
            1 => {
                shares.pop();
            }
            2 => {
                nonces.pop();
            }
            _ => nonces[0] = vec![0u8; 5],
        }
        let (_, action) = session.step(Event::Shares { secrets, shares, nonces });
        assert_eq!(action, Action::Failed(Failure::Unexpected));
    }
}

#[test]
fn refused_decommitment_ends_key_generation_with_the_party_named() {
    let session = through_two_rounds(1);
    let (session, action) = session.step(Event::Rejected(3));
    let failure = Failure::Verification { round: 1, party: 3 };
    assert_eq!(action, Action::Failed(failure));
    assert_eq!(session.failure(), Some(failure));
    assert_eq!(Protocol::KeyGeneration.name_of_round(1), "round2");
}

#[test]
fn refusal_in_the_first_round_names_that_round() {
    let (session, _) = Session::keygen(params(1, 3), signup(1)).unwrap();
    let (_, action) = session.step(Event::Rejected(1));
    assert_eq!(action, Action::Failed(Failure::Verification { round: 0, party: 1 }));
}

#[test]
fn failed_session_stays_failed() {
    let session = through_two_rounds(1);
    let (mut session, _) = session.step(Event::Rejected(2));
    let failure = Failure::Verification { round: 1, party: 2 };
    let later = vec![
        Event::Posted,
        Event::Prepared(texts(&["x"])),
        found("x"),
        Event::Got(None),
        Event::Concluded("result".to_string()),
        Event::Lost,
        Event::Rejected(1),
        deal(1),
        Event::Decoded(Vec::new()),
    ];
    for event in later {
        let next = session.step(event);
        assert_eq!(next.1, Action::Failed(failure));
        session = next.0;
        assert_eq!(session.failure(), Some(failure));
    }
}

#[test]
fn lost_relay_ends_the_session_in_every_stage() {
    let (session, _) = Session::keygen(params(1, 3), signup(1)).unwrap();
    assert_eq!(session.step(Event::Lost).1, Action::Failed(Failure::Transport));
    let (session, _) = Session::keygen(params(1, 3), signup(1)).unwrap();
    let (session, _) = session.step(Event::Prepared(texts(&["mine"])));
    assert_eq!(session.step(Event::Lost).1, Action::Failed(Failure::Transport));
    let (session, _) = Session::keygen(params(1, 3), signup(1)).unwrap();
    let (session, _) = session.step(Event::Prepared(texts(&["mine"])));
    let (session, _) = session.step(Event::Posted);
    assert_eq!(session.step(Event::Lost).1, Action::Failed(Failure::Transport));
    let (session, _) = collecting_shares(1);
    assert_eq!(session.step(Event::Lost).1, Action::Failed(Failure::Transport));
}

#[test]
fn event_that_answers_nothing_is_unexpected() {
    let (session, _) = Session::keygen(params(1, 3), signup(1)).unwrap();
    assert_eq!(session.step(Event::Posted).1, Action::Failed(Failure::Unexpected));
    let (session, _) = Session::keygen(params(1, 3), signup(1)).unwrap();
    assert_eq!(session.step(found("x")).1, Action::Failed(Failure::Unexpected));
    let (session, _) = Session::keygen(params(1, 3), signup(1)).unwrap();
    assert_eq!(
        session.step(Event::Concluded("early".to_string())).1,
        Action::Failed(Failure::Unexpected)
    );
    let (session, _) = Session::keygen(params(1, 3), signup(1)).unwrap();
    let (session, _) = session.step(Event::Prepared(texts(&["mine"])));
    assert_eq!(session.step(found("x")).1, Action::Failed(Failure::Unexpected));
    let (session, _) = Session::keygen(params(1, 3), signup(1)).unwrap();
    let (session, _) = session.step(Event::Prepared(texts(&["mine"])));
    assert_eq!(session.step(Event::Rejected(2)).1, Action::Failed(Failure::Unexpected));
}

#[test]
fn broadcast_round_takes_exactly_one_message() {
    let (session, _) = Session::keygen(params(1, 3), signup(1)).unwrap();
    assert_eq!(session.step(Event::Prepared(Vec::new())).1, Action::Failed(Failure::Unexpected));
    let (session, _) = Session::keygen(params(1, 3), signup(1)).unwrap();
    assert_eq!(
        session.step(Event::Prepared(texts(&["one", "two"]))).1,
        Action::Failed(Failure::Unexpected)
    );
}

fn announce(party: u16, share: u16) -> (Session, Action) {
    Session::signing(params(1, 3), signup(party), share).unwrap()
}

#[test]
fn signing_starts_by_announcing_the_share_index() {
    let (session, action) = announce(2, 3);
    assert_eq!(
        action,
        Action::Post { key: "2-round0-sid".to_string(), payload: Payload::Text("3".to_string()) }
    );
    assert_eq!(session.seat().protocol, Protocol::Signing);
    assert_eq!(session.seat().share_index, 3);
    let (_, action) = session.step(Event::Posted);
    assert_eq!(action, Action::Get(Index { key: "1-round0-sid".to_string() }));
}

#[test]
fn signers_one_and_two_build_the_same_list() {
    let (first, _) = announce(1, 1);
    let (first, _) = first.step(Event::Posted);
    let (_, action) = first.step(found("2"));
    assert_eq!(action, Action::Prepare { round: 1, inbox: Inbox::Signers(vec![0, 1]) });
    let (second, _) = announce(2, 2);
    let (second, _) = second.step(Event::Posted);
    let (_, action) = second.step(found("1"));
    assert_eq!(action, Action::Prepare { round: 1, inbox: Inbox::Signers(vec![0, 1]) });
}

#[test]
fn signers_one_and_three_build_another_list() {
    let (first, _) = announce(1, 1);
    let (first, _) = first.step(Event::Posted);
    let (_, action) = first.step(found("3"));
    assert_eq!(action, Action::Prepare { round: 1, inbox: Inbox::Signers(vec![0, 2]) });
    let (second, _) = announce(2, 3);
    let (second, _) = second.step(Event::Posted);
    let (_, action) = second.step(found("1"));
    assert_eq!(action, Action::Prepare { round: 1, inbox: Inbox::Signers(vec![0, 2]) });
}

#[test]
fn two_signers_with_one_share_are_a_failure_of_configuration() {
    let (session, _) = announce(1, 2);
    let (session, _) = session.step(Event::Posted);
    let (session, action) = session.step(found("2"));
    assert_eq!(action, Action::Failed(Failure::Configuration));
    assert_eq!(session.round(), 0);
}

#[test]
fn signer_that_announces_no_share_is_blamed() {
    for announced in ["0", "4", "three", "", "-1"] {
        let (session, _) = announce(1, 1);
        let (session, _) = session.step(Event::Posted);
        let (_, action) = session.step(found(announced));
        assert_eq!(action, Action::Failed(Failure::Verification { round: 0, party: 2 }));
    }
    let (session, _) = announce(2, 1);
    let (session, _) = session.step(Event::Posted);
    let (_, action) = session.step(found("x"));
    assert_eq!(action, Action::Failed(Failure::Verification { round: 0, party: 1 }));
}

/// Runs one signer to the end against a relay that already holds the other
/// signer's messages, and returns the result with every inbox shown to the
/// cryptographic layer.
fn run_signer(party: u16, share: u16, relay: &HashMap<String, String>) -> (Action, Vec<Inbox>) {
    let (mut session, mut action) = announce(party, share);
    let mut seen = Vec::new();
    let mut posted = Vec::new();
    loop {
        let event = match action {
            Action::Prepare { round, inbox } => {
                seen.push(inbox);
                Event::Prepared(vec![format!("{} says {}", party, round)])
            }
            Action::Post { key, payload } => {
                posted.push((key, payload));
                Event::Posted
            }
            Action::Get(Index { key }) => match relay.get(&key) {
                Some(value) => Event::Got(Some(Entry { key, value: value.clone() })),
                None => Event::Lost,
            },
            Action::Conclude(inbox) => {
                seen.push(inbox);
                Event::Concluded("r and s".to_string())
            }
            Action::Decode(_) => Event::Lost,
            Action::Finished(_) | Action::Failed(_) => break,
        };
        let next = session.step(event);
        session = next.0;
        action = next.1;
    }
    assert_eq!(posted.len(), 10);
    for (round, (key, _)) in posted.iter().enumerate() {
        let expected = if round == 2 {
            format!("{}-{}-round2-sid", party, 3 - party)
        } else {
            format!("{}-round{}-sid", party, round)
        };
        assert_eq!(key, &expected);
    }
    assert_eq!(session.round(), 9);
    (action, seen)
}

fn peer_messages(peer: u16, share: u16) -> HashMap<String, String> {
    let mut relay = HashMap::new();
    relay.insert(format!("{}-round0-sid", peer), share.to_string());
    for round in 1..10 {
        let key = if round == 2 {
            format!("{}-{}-round2-sid", peer, 3 - peer)
        } else {
            format!("{}-round{}-sid", peer, round)
        };
        relay.insert(key, format!("{} says {}", peer, round));
    }
    relay
}

#[test]
fn signer_goes_through_ten_rounds_to_a_signature() {
    let (action, seen) = run_signer(1, 1, &peer_messages(2, 3));
    assert_eq!(action, Action::Finished("r and s".to_string()));
    assert_eq!(seen.len(), 10);
    assert_eq!(seen[0], Inbox::Signers(vec![0, 2]));
    assert_eq!(seen[1], Inbox::Texts(texts(&["1 says 1", "2 says 1"])));
    assert_eq!(seen[2], Inbox::Texts(texts(&["2 says 2"])));
    for round in 3..10 {
        let expected = vec![format!("1 says {}", round), format!("2 says {}", round)];
        assert_eq!(seen[round], Inbox::Texts(expected));
    }
}

#[test]
fn second_signer_sees_the_same_lists_as_the_first() {
    let (_, first) = run_signer(1, 1, &peer_messages(2, 2));
    let (_, second) = run_signer(2, 2, &peer_messages(1, 1));
    assert_eq!(first[0], second[0]);
    assert_eq!(first[1], second[1]);
    for round in 3..10 {
        assert_eq!(first[round], second[round]);
    }
    assert_eq!(first[2], Inbox::Texts(texts(&["2 says 2"])));
    assert_eq!(second[2], Inbox::Texts(texts(&["1 says 2"])));
}

#[test]
fn signature_that_fails_the_final_check_is_never_returned() {
    let (mut session, mut action) = announce(1, 1);
    let relay = peer_messages(2, 2);
    loop {
        let event = match action {
            Action::Prepare { round, .. } => Event::Prepared(vec![format!("1 says {}", round)]),
            Action::Post { .. } => Event::Posted,
            Action::Get(Index { key }) => {
                Event::Got(Some(Entry { value: relay[&key].clone(), key }))
            }
            Action::Conclude(_) => Event::Rejected(2),
            _ => break,
        };
        let next = session.step(event);
        session = next.0;
        action = next.1;
    }
    assert_eq!(action, Action::Failed(Failure::Verification { round: 9, party: 2 }));
    let (_, action) = session.step(Event::Concluded("forged".to_string()));
    assert_eq!(action, Action::Failed(Failure::Verification { round: 9, party: 2 }));
}

#[test]
fn finished_session_repeats_its_result() {
    let (action, _) = run_signer(2, 3, &peer_messages(1, 1));
    assert_eq!(action, Action::Finished("r and s".to_string()));
    let (mut session, mut action) = announce(1, 1);
    let relay = peer_messages(2, 2);
    while !session.is_over() {
        let event = match action {
            Action::Prepare { .. } => Event::Prepared(texts(&["m"])),
            Action::Post { .. } => Event::Posted,
            Action::Get(Index { key }) => {
                Event::Got(Some(Entry { value: relay[&key].clone(), key }))
            }
            Action::Conclude(_) => Event::Concluded("sig".to_string()),
            _ => Event::Lost,
        };
        let next = session.step(event);
        session = next.0;
        action = next.1;
    }
    for event in [Event::Lost, Event::Rejected(1), Event::Posted] {
        let next = session.step(event);
        assert_eq!(next.1, Action::Finished("sig".to_string()));
        session = next.0;
        assert_eq!(session.failure(), None);
    }
}

#[test]
fn direct_round_takes_one_message_for_each_peer() {
    let (mut session, mut action) =
        Session::signing(params(2, 4), signup(2), 4).unwrap();
    let mut relay = HashMap::new();
    relay.insert("1-round0-sid".to_string(), "1".to_string());
    relay.insert("3-round0-sid".to_string(), "2".to_string());
    relay.insert("1-round1-sid".to_string(), "x".to_string());
    relay.insert("3-round1-sid".to_string(), "y".to_string());
    let mut posted = Vec::new();
    loop {
        let event = match action {
            Action::Prepare { round: 1, inbox } => {
                assert_eq!(inbox, Inbox::Signers(vec![0, 3, 1]));
                Event::Prepared(texts(&["to all"]))
            }
            Action::Prepare { round: 2, inbox } => {
                assert_eq!(inbox, Inbox::Texts(texts(&["x", "to all", "y"])));
                Event::Prepared(texts(&["for one", "for three"]))
            }
            Action::Post { key, payload } => {
                posted.push((key, payload));
                Event::Posted
            }
            Action::Get(Index { key }) => match relay.get(&key) {
                Some(value) => Event::Got(Some(Entry { key, value: value.clone() })),
                None => {
                    assert_eq!(key, "1-2-round2-sid");
                    break;
                }
            },
            other => panic!("unexpected {:?}", other),
        };
        let next = session.step(event);
        session = next.0;
        action = next.1;
    }
    assert_eq!(
        posted[2..],
        [
            ("2-1-round2-sid".to_string(), Payload::Text("for one".to_string())),
            ("2-3-round2-sid".to_string(), Payload::Text("for three".to_string())),
        ]
    );
}

#[test]
fn direct_round_refuses_another_number_of_messages() {
    let (mut session, mut action) = announce(1, 1);
    let relay = peer_messages(2, 2);
    while session.round() < 2 {
        let event = match action {
            Action::Prepare { .. } => Event::Prepared(texts(&["m"])),
            Action::Post { .. } => Event::Posted,
            Action::Get(Index { key }) => {
                Event::Got(Some(Entry { value: relay[&key].clone(), key }))
            }
            _ => Event::Lost,
        };
        let next = session.step(event);
        session = next.0;
        action = next.1;
    }
    let (_, action) = session.step(Event::Prepared(texts(&["one", "too many"])));
    assert_eq!(action, Action::Failed(Failure::Unexpected));
}

#[test]
fn deal_without_peers_draws_nothing_and_succeeds() {
    let event = gg18::api::deal(Vec::new(), vec![dealt_share(1, 1)]);
    assert_eq!(
        event,
        Some(Event::Shares {
            secrets: Vec::new(),
            shares: vec![dealt_share(1, 1)],
            nonces: Vec::new(),
        })
    );
}
