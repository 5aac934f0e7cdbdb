//! What holds of every session, whatever the relay and the other parties do.

use vstd::prelude::*;
use crate::api::messages::{
    pack_payloads, ActionView, EventView, Failure, InboxView, PayloadView, Seat,
};
use crate::api::model::{keygen_start, signing_start, OwnView, SessionView, StageView};
use crate::api::shares::{lemma_sealed_shares_each, sealed_for, sealed_shares};
use crate::api::rounds::{lemma_round_names, Protocol};
use crate::relay::{
    agrees, broadcast_key_text, kept_in, lemma_ask_agrees, lemma_broadcast_and_p2p_keys_differ,
    lemma_broadcast_keys_differ, lemma_p2p_keys_differ, lemma_peers_upto, lemma_start_wf,
    p2p_key_text, peer_at, peers_upto, within, PollView, Store,
};

verus! {

/// A session that has ended stays as it is, whatever happens: a failure is
/// final, and so is a result.
pub proof fn lemma_ended_stays_ended(session: SessionView, event: EventView)
    requires
        session.stage is Done || session.stage is Aborted,
    ensures
        session.step(event).0 == session,
        session.stage matches StageView::Aborted(failure) ==> session.step(event).1
            == ActionView::Failed(failure),
        session.stage matches StageView::Done(output) ==> session.step(event).1
            == ActionView::Finished(output),
{
}

/// A message that the cryptographic layer refuses ends the session at once,
/// with a failure that names the refused party and the round of its
/// message: while a round is prepared that is the round before, whose
/// messages are being checked.
pub proof fn lemma_refusal_ends_session(session: SessionView, party: u16)
    requires
        session.stage is Preparing || session.stage is Concluding,
    ensures
        session.step(EventView::Rejected(party)).0.stage == StageView::Aborted(
            Failure::Verification { round: session.blamed_round(), party },
        ),
        session.step(EventView::Rejected(party)).1 == ActionView::Failed(
            Failure::Verification { round: session.blamed_round(), party },
        ),
        session.stage is Preparing && session.round > 0 ==> session.blamed_round() + 1
            == session.round,
{
}

/// A session ends with a result only from the final check, and only when
/// the cryptographic layer accepted the last round: nothing is returned
/// that was not checked.
pub proof fn lemma_result_only_after_final_check(session: SessionView, event: EventView)
    requires
        session.step(event).0.stage is Done,
        !(session.stage is Done),
    ensures
        session.stage is Concluding,
        event matches EventView::Concluded(output) && session.step(event).0.stage
            == StageView::Done(output),
{
}

/// A failure of the relay ends a running session at once.
pub proof fn lemma_lost_relay_ends_session(session: SessionView)
    requires
        !(session.stage is Done),
        !(session.stage is Aborted),
    ensures
        session.step(EventView::Lost).0.stage == StageView::Aborted(Failure::Transport),
{
}

/// A step leaves the party where it is or moves it on by one round, and
/// never changes who runs the session or which session it is.
pub proof fn lemma_rounds_in_order(session: SessionView, event: EventView)
    ensures
        session.step(event).0.seat == session.seat,
        session.step(event).0.uuid == session.uuid,
        session.step(event).0.round == session.round || session.step(event).0.round
            == session.round + 1,
{
}

/// A party enters the next round only from the collection of the current
/// round's messages, and only when it holds a message from every other
/// party: while the relay lacks the awaited entry the party stays in the
/// round and asks again.
pub proof fn lemma_round_is_a_barrier(session: SessionView, event: EventView)
    requires
        session.seat.valid(),
        session.step(event).0.round != session.round || (session.step(event).0.stage is Concluding
            && !(session.stage is Concluding)),
    ensures
        session.stage is Collecting || session.stage is Decoding,
        session.stage matches StageView::Collecting { poll, .. } ==> event is Got && poll.deliver(
            event->Got_0,
        ).complete() && poll.deliver(event->Got_0).answers.len() + 1 == session.seat.parties(),
{
}

/// While a party collects and the relay does not hold the awaited entry,
/// the party asks for the same entry again.
pub proof fn lemma_absent_entry_is_asked_again(session: SessionView)
    requires
        session.stage matches StageView::Collecting { poll, .. } && !poll.complete(),
    ensures
        session.step(EventView::Got(None)).0 == session,
        session.step(EventView::Got(None)).1 == ActionView::Get(
            session.stage->Collecting_poll.request()->0,
        ),
{
}

/// A session posts its own messages before it collects: it asks the relay
/// for a peer's entry only when none of its own is left to post.
pub proof fn lemma_posts_before_collecting(session: SessionView, event: EventView)
    requires
        session.stage matches StageView::Posting { rest, .. } && rest.len() > 0,
    ensures
        !(session.step(event).0.stage is Collecting),
        !(session.step(event).1 is Get),
{
}

/// A secret share leaves the party that dealt it only sealed under the key
/// shared with its receiver: when the cryptographic layer hands over the
/// shares, the session either fails or queues, for each peer in turn, the
/// share at that peer's index sealed under that peer's key and nonce, and
/// nothing else. Its own share it keeps.
pub proof fn lemma_shares_leave_sealed(
    session: SessionView,
    secrets: Seq<nat>,
    shares: Seq<nat>,
    nonces: Seq<Seq<u8>>,
)
    requires
        session.stage is Preparing,
    ensures
        ({
            let event = EventView::Shares { secrets, shares, nonces };
            let next = session.step(event).0;
            let action = session.step(event).1;
            let party = session.seat.party as nat;
            next.stage is Aborted || {
                &&& next.stage is Posting
                &&& action is Post
                &&& next.stage->Posting_rest.len() + 1 == secrets.len()
                &&& next.stage->Posting_own == OwnView::Share(shares[party - 1])
                &&& sealed_for(party, secrets, shares, nonces, 0) is Ok
                &&& action->Post_payload == PayloadView::Pack(
                    sealed_for(party, secrets, shares, nonces, 0)->Ok_0,
                )
                &&& forall|position: int|
                    1 <= position < secrets.len() ==> {
                        &&& sealed_for(party, secrets, shares, nonces, position) is Ok
                        &&& #[trigger] next.stage->Posting_rest[position - 1] == PayloadView::Pack(
                            sealed_for(party, secrets, shares, nonces, position)->Ok_0,
                        )
                    }
            }
        }),
{
    let event = EventView::Shares { secrets, shares, nonces };
    let next = session.step(event).0;
    let party = session.seat.party as nat;
    if !(next.stage is Aborted) {
        let sealed = sealed_shares(party, secrets, shares, nonces, secrets.len())->Ok_0;
        lemma_sealed_shares_each(party, secrets, shares, nonces, secrets.len());
        let outbox = pack_payloads(sealed);
        assert(outbox.len() > 0);
        assert(outbox[0] == PayloadView::Pack(sealed[0]));
        let rest = next.stage->Posting_rest;
        assert(rest == outbox.drop_first());
        assert forall|position: int| 1 <= position < secrets.len() implies {
            &&& sealed_for(party, secrets, shares, nonces, position) is Ok
            &&& #[trigger] rest[position - 1] == PayloadView::Pack(
                sealed_for(party, secrets, shares, nonces, position)->Ok_0,
            )
        } by {
            assert(rest[position - 1] == outbox[position]);
            assert(outbox[position] == PayloadView::Pack(sealed[position]));
        }
    }
}

/// In a round of sealed shares nothing that the cryptographic layer gives
/// as text is posted.
pub proof fn lemma_no_text_in_sealed_round(session: SessionView, list: Seq<Seq<char>>)
    requires
        session.stage is Preparing,
        session.sealed(),
    ensures
        session.step(EventView::Prepared(list)).0.stage == StageView::Aborted(Failure::Unexpected),
{
}

/// The entries that the parties `1..=n` broadcast in a round, as `world`
/// holds them, in ascending order of the parties.
pub open spec fn broadcasts(n: nat, round: Seq<char>, uuid: Seq<char>, world: Store) -> Seq<
    Seq<char>,
> {
    Seq::new(n, |i: int| world[broadcast_key_text((i + 1) as nat, round, uuid)])
}

/// Every party ends a broadcast round with the same list: what a party
/// collected from its peers, with its own message as the relay stores it
/// put in at its own index, is the list of the entries of all parties in
/// ascending order, whichever party it is.
pub proof fn lemma_every_party_holds_the_same_list(
    party: nat,
    n: nat,
    round: Seq<char>,
    uuid: Seq<char>,
    world: Store,
)
    requires
        1 <= party <= n,
    ensures
        PollView::start(party, n, round, uuid, false).payloads(world, n).insert(
            party - 1,
            world[broadcast_key_text(party, round, uuid)],
        ) == broadcasts(n, round, uuid, world),
{
    let poll = PollView::start(party, n, round, uuid, false);
    lemma_peers_upto(party, n);
    let collected = poll.payloads(world, n);
    let all = collected.insert(party - 1, world[broadcast_key_text(party, round, uuid)]);
    assert(all.len() == n);
    assert forall|i: int| 0 <= i < n implies all[i] == broadcasts(n, round, uuid, world)[i] by {
        if i < party - 1 {
            assert(all[i] == collected[i]);
            assert(peers_upto(party, n)[i] == peer_at(party, i as nat));
        } else if i == party - 1 {
        } else {
            assert(all[i] == collected[i - 1]);
            assert(peers_upto(party, n)[i - 1] == peer_at(party, (i - 1) as nat));
        }
    }
    assert(all =~= broadcasts(n, round, uuid, world));
}

/// What a relay that holds `store` answers to the request of a session
/// that collects.
pub open spec fn answer(session: SessionView, store: Store) -> EventView {
    match session.stage {
        StageView::Collecting { poll, .. } => match poll.request() {
            Some(key) if store.contains_key(key) => EventView::Got(Some(store[key])),
            _ => EventView::Got(None),
        },
        _ => EventView::Got(None),
    }
}

/// The session after it asked the relay once for each of `stores`, the
/// relay's contents at the time of each request, for as long as it
/// collects; with the last thing it asked for.
pub open spec fn collect_run(start: (SessionView, ActionView), stores: Seq<Store>) -> (
    SessionView,
    ActionView,
)
    decreases stores.len(),
{
    if stores.len() == 0 {
        start
    } else {
        let before = collect_run(start, stores.drop_last());
        if before.0.stage is Collecting {
            before.0.step(answer(before.0, stores.last()))
        } else {
            before
        }
    }
}

/// A session that begins to collect a broadcast round whose messages go on
/// as they are, having posted its own message as `world` holds it.
pub open spec fn begins_broadcast_round(session: SessionView, world: Store) -> bool {
    &&& session.seat.valid()
    &&& !session.direct()
    &&& !session.sealed()
    &&& !(session.seat.protocol == Protocol::Signing && session.round == 0)
    &&& session.stage matches StageView::Collecting { poll, own, .. } && poll == PollView::start(
        session.seat.party as nat,
        session.seat.parties(),
        session.round_name(),
        session.uuid,
        false,
    ) && own == OwnView::Text(
        world[broadcast_key_text(session.seat.party as nat, session.round_name(), session.uuid)],
    )
}

/// The list that every party is shown after a broadcast round: the entries
/// of all parties of the session, in ascending order of the parties.
pub open spec fn round_list(session: SessionView, world: Store) -> InboxView {
    InboxView::Texts(
        broadcasts(session.seat.parties(), session.round_name(), session.uuid, world),
    )
}

/// The party still collects the round in agreement with `world`, or it has
/// left the round and is shown the list of all entries.
spec fn collects_or_left(
    origin: SessionView,
    now: (SessionView, ActionView),
    world: Store,
) -> bool {
    &&& now.0.seat == origin.seat
    &&& now.0.uuid == origin.uuid
    &&& if now.0.stage is Collecting {
        &&& now.0.round == origin.round
        &&& agrees(now.0.stage->Collecting_poll, world)
        &&& !now.0.stage->Collecting_poll.complete()
        &&& now.0.stage->Collecting_poll.party_num == origin.seat.party
        &&& now.0.stage->Collecting_poll.n == origin.seat.parties()
        &&& now.0.stage->Collecting_poll.round == origin.round_name()
        &&& now.0.stage->Collecting_poll.uuid == origin.uuid
        &&& !now.0.stage->Collecting_poll.direct
        &&& now.0.stage->Collecting_own == origin.stage->Collecting_own
    } else {
        now.1 == ActionView::Prepare { round: (origin.round + 1) as u8, inbox: round_list(origin, world) }
            || now.1 == ActionView::Conclude(round_list(origin, world))
    }
}

/// However the relay fills up while a party collects a broadcast round,
/// the party stays in the round until it holds every other party's
/// message, and what it is then shown is the list of all parties' entries
/// in ascending order of the parties: the same list at every party of the
/// session.
pub proof fn lemma_round_shows_the_same_list(
    session: SessionView,
    action: ActionView,
    stores: Seq<Store>,
    world: Store,
)
    requires
        begins_broadcast_round(session, world),
        within(stores, world),
    ensures
        ({
            let end = collect_run((session, action), stores);
            end.0.stage is Collecting || end.1 == ActionView::Prepare {
                round: (session.round + 1) as u8,
                inbox: round_list(session, world),
            } || end.1 == ActionView::Conclude(round_list(session, world))
        }),
{
    lemma_collect_run(session, action, stores, world);
}

/// While it asks the relay, a party that began a broadcast round collects
/// in agreement with `world` or has left with the list of all entries.
proof fn lemma_collect_run(
    session: SessionView,
    action: ActionView,
    stores: Seq<Store>,
    world: Store,
)
    requires
        begins_broadcast_round(session, world),
        within(stores, world),
    ensures
        collects_or_left(session, collect_run((session, action), stores), world),
    decreases stores.len(),
{
    let party = session.seat.party as nat;
    let n = session.seat.parties();
    if stores.len() == 0 {
        let poll = session.stage->Collecting_poll;
        lemma_start_wf(party, n, session.round_name(), session.uuid, false);
        if party == 1 {
            reveal_with_fuel(peers_upto, 2);
        }
        assert(poll.answers =~= poll.payloads(world, (poll.awaited - 1) as nat));
    } else {
        assert(within(stores.drop_last(), world)) by {
            assert forall|i: int| 0 <= i < stores.drop_last().len() implies kept_in(
                #[trigger] stores.drop_last()[i],
                world,
            ) by {
                assert(stores.drop_last()[i] == stores[i]);
            }
        }
        lemma_collect_run(session, action, stores.drop_last(), world);
        let before = collect_run((session, action), stores.drop_last());
        if before.0.stage is Collecting {
            let poll = before.0.stage->Collecting_poll;
            let store = stores.last();
            assert(kept_in(store, world));
            lemma_ask_agrees(poll, store, world);
            let asked = poll.ask(store);
            let after = before.0.step(answer(before.0, store));
            if asked.complete() {
                if asked.awaited == n + 2 {
                    assert(peers_upto(party, n + 1) == peers_upto(party, n));
                }
                assert(peers_upto(party, (asked.awaited - 1) as nat) == peers_upto(party, n));
                lemma_peers_upto(party, n);
                lemma_every_party_holds_the_same_list(
                    party,
                    n,
                    session.round_name(),
                    session.uuid,
                    world,
                );
                assert(asked.payloads(world, n) == PollView::start(
                    party,
                    n,
                    session.round_name(),
                    session.uuid,
                    false,
                ).payloads(world, n));
            }
        }
    }
}

/// The session after `events`, in their order, with the last thing it asked
/// for.
pub open spec fn run(start: (SessionView, ActionView), events: Seq<EventView>) -> (
    SessionView,
    ActionView,
)
    decreases events.len(),
{
    if events.len() == 0 {
        start
    } else {
        run(start, events.drop_last()).0.step(events.last())
    }
}

/// In a round of direct messages each peer gets the message made for it:
/// the message at a position of the outbox is stored under the key from
/// this party to the peer at that position, after the relay has stored all
/// those before it.
pub proof fn lemma_each_peer_gets_its_message(
    session: SessionView,
    outbox: Seq<PayloadView>,
    own: OwnView,
    secrets: Seq<nat>,
    position: nat,
)
    requires
        session.seat.valid(),
        session.direct(),
        outbox.len() + 1 == session.seat.parties(),
        position < outbox.len(),
    ensures
        ({
            let stored = Seq::new(position, |i: int| EventView::Posted);
            let now = run(session.post_all(outbox, own, secrets), stored);
            &&& now.1 == ActionView::Post {
                key: session.key_to(peer_at(session.seat.party as nat, position)),
                payload: outbox[position as int],
            }
            &&& now.0 == session.at(
                StageView::Posting {
                    rest: outbox.skip(position as int + 1),
                    receiver: peer_at(session.seat.party as nat, position) as u32,
                    own,
                    secrets,
                },
            )
        }),
    decreases position,
{
    let stored = Seq::new(position, |i: int| EventView::Posted);
    if position == 0 {
        assert(outbox.drop_first() =~= outbox.skip(1));
    } else {
        let before = (position - 1) as nat;
        lemma_each_peer_gets_its_message(session, outbox, own, secrets, before);
        assert(stored.drop_last() =~= Seq::new(before, |i: int| EventView::Posted));
        assert(outbox.skip(before as int + 1).drop_first() =~= outbox.skip(position as int + 1));
        assert(outbox.skip(before as int + 1)[0] == outbox[position as int]);
    }
}

/// The keys under which the session asked to store something, from its start
/// through `events`, in their order.
pub open spec fn posted_keys(start: (SessionView, ActionView), events: Seq<EventView>) -> Seq<
    Seq<char>,
>
    decreases events.len(),
{
    if events.len() == 0 {
        match start.1 {
            ActionView::Post { key, .. } => seq![key],
            _ => Seq::empty(),
        }
    } else {
        match run(start, events).1 {
            ActionView::Post { key, .. } => posted_keys(start, events.drop_last()).push(key),
            _ => posted_keys(start, events.drop_last()),
        }
    }
}

/// The round and the receiver of each message that the session asked to
/// store, from its start through `events`.
spec fn posted_places(start: (SessionView, ActionView), events: Seq<EventView>) -> Seq<(u8, u32)>
    decreases events.len(),
{
    let now = run(start, events).0;
    let place = (now.round, now.stage->Posting_receiver);
    if events.len() == 0 {
        if start.1 is Post {
            seq![place]
        } else {
            Seq::empty()
        }
    } else {
        if run(start, events).1 is Post {
            posted_places(start, events.drop_last()).push(place)
        } else {
            posted_places(start, events.drop_last())
        }
    }
}

/// The key under which the party in `seat` stores its message of the round
/// at position `round` for `receiver`.
spec fn key_at(seat: Seat, uuid: Seq<char>, place: (u8, u32)) -> Seq<char> {
    SessionView { seat, uuid, round: place.0, stage: StageView::Preparing }.key_to(place.1 as nat)
}

/// A number that grows with the round and, within a round, with the
/// receiver.
spec fn height(place: (u8, u32)) -> int {
    place.0 * 0x1_0000_0000 + place.1
}

/// A bound that no message stored so far reaches and every later one does.
spec fn frontier(session: SessionView) -> int {
    match session.stage {
        StageView::Preparing => height((session.round, 0)),
        StageView::Posting { receiver, .. } if session.direct() => height(
            (session.round, receiver),
        ) + 1,
        _ => height((session.round, 0)) + 0x1_0000_0000,
    }
}

/// One message was stored before the other: in an earlier round, or in
/// the same round of direct messages for an earlier receiver.
spec fn earlier(seat: Seat, one: (u8, u32), other: (u8, u32)) -> bool {
    one.0 < other.0 || (one.0 == other.0 && seat.protocol.direct(one.0 as nat) && one.1 < other.1)
}

/// The keys are those of the places, the places lie below the frontier
/// of the session, and each was stored before the next.
spec fn in_order(session: SessionView, keys: Seq<Seq<char>>, places: Seq<(u8, u32)>) -> bool {
    &&& keys.len() == places.len()
    &&& forall|i: int|
        0 <= i < keys.len() ==> #[trigger] keys[i] == key_at(session.seat, session.uuid, places[i])
    &&& forall|i: int| 0 <= i < places.len() ==> height(#[trigger] places[i]) < frontier(session)
    &&& forall|i: int, j: int|
        0 <= i < j < places.len() ==> earlier(session.seat, #[trigger] places[i], #[trigger] places[j])
}

/// A step keeps what was stored in order, with what it stores on top.
proof fn lemma_step_in_order(
    session: SessionView,
    event: EventView,
    keys: Seq<Seq<char>>,
    places: Seq<(u8, u32)>,
)
    requires
        session.seat.valid(),
        in_order(session, keys, places),
        session.stage matches StageView::Posting { receiver, .. } ==> receiver <= 0xffff,
    ensures
        ({
            let next = session.step(event);
            &&& next.0.stage matches StageView::Posting { receiver, .. } ==> receiver <= 0xffff
            &&& match next.1 {
                ActionView::Post { key, .. } => {
                    &&& next.0.stage is Posting
                    &&& in_order(
                        next.0,
                        keys.push(key),
                        places.push((next.0.round, next.0.stage->Posting_receiver)),
                    )
                },
                _ => in_order(next.0, keys, places),
            }
        }),
{
    let next = session.step(event);
    assert(next.0.seat == session.seat && next.0.uuid == session.uuid);
    if next.1 is Post {
        let place = (next.0.round, next.0.stage->Posting_receiver);
        let longer = places.push(place);
        assert forall|i: int, j: int| 0 <= i < j < longer.len() implies earlier(
            session.seat,
            #[trigger] longer[i],
            #[trigger] longer[j],
        ) by {
            if j < places.len() {
                assert(earlier(session.seat, places[i], places[j]));
            } else {
                assert(height(places[i]) < frontier(session));
            }
        }
        assert forall|i: int| 0 <= i < longer.len() implies height(#[trigger] longer[i])
            < frontier(next.0) by {
            if i < places.len() {
                assert(height(places[i]) < frontier(session));
            }
        }
    } else {
        assert forall|i: int| 0 <= i < places.len() implies height(#[trigger] places[i])
            < frontier(next.0) by {
            assert(height(places[i]) < frontier(session));
        }
    }
}

/// What a session stored from its start on is in order.
proof fn lemma_run_in_order(start: (SessionView, ActionView), events: Seq<EventView>)
    requires
        start.0.seat.valid(),
        start.1 is Post ==> start.0.stage is Posting && start.1->Post_key == start.0.key_to(
            start.0.stage->Posting_receiver as nat,
        ),
        start.0.stage matches StageView::Posting { receiver, .. } ==> receiver <= 0xffff
            && start.1 is Post,
    ensures
        run(start, events).0.seat == start.0.seat,
        run(start, events).0.uuid == start.0.uuid,
        run(start, events).0.stage matches StageView::Posting { receiver, .. } ==> receiver
            <= 0xffff,
        in_order(run(start, events).0, posted_keys(start, events), posted_places(start, events)),
    decreases events.len(),
{
    if events.len() > 0 {
        lemma_run_in_order(start, events.drop_last());
        let before = run(start, events.drop_last());
        lemma_step_in_order(
            before.0,
            events.last(),
            posted_keys(start, events.drop_last()),
            posted_places(start, events.drop_last()),
        );
    }
}

/// Two messages of which one was stored before the other have two keys.
proof fn lemma_places_have_their_keys(seat: Seat, uuid: Seq<char>, one: (u8, u32), other: (u8, u32))
    requires
        earlier(seat, one, other),
    ensures
        key_at(seat, uuid, one) != key_at(seat, uuid, other),
{
    let protocol = seat.protocol;
    let name = protocol.round_name(one.0 as nat);
    let other_name = protocol.round_name(other.0 as nat);
    lemma_round_names(protocol, one.0 as nat, other.0 as nat);
    lemma_round_names(protocol, other.0 as nat, one.0 as nat);
    let party = seat.party as nat;
    if key_at(seat, uuid, one) == key_at(seat, uuid, other) {
        if protocol.direct(one.0 as nat) {
            if protocol.direct(other.0 as nat) {
                lemma_p2p_keys_differ(
                    party,
                    one.1 as nat,
                    name,
                    party,
                    other.1 as nat,
                    other_name,
                    uuid,
                );
            } else {
                lemma_broadcast_and_p2p_keys_differ(
                    party,
                    other_name,
                    party,
                    one.1 as nat,
                    name,
                    uuid,
                );
            }
        } else {
            if protocol.direct(other.0 as nat) {
                lemma_broadcast_and_p2p_keys_differ(
                    party,
                    name,
                    party,
                    other.1 as nat,
                    other_name,
                    uuid,
                );
            } else {
                lemma_broadcast_keys_differ(party, name, party, other_name, uuid);
            }
        }
    }
}

/// A session writes each of its entries once: whatever happens, from the
/// start of key generation or of signing on, it never asks twice to store
/// something under the same key.
pub proof fn lemma_each_entry_is_written_once(
    start: (SessionView, ActionView),
    events: Seq<EventView>,
)
    requires
        Some(start) == keygen_start(start.0.seat.params, start.0.seat.party, start.0.uuid)
            || Some(start) == signing_start(
            start.0.seat.params,
            start.0.seat.party,
            start.0.seat.share_index,
            start.0.uuid,
        ),
    ensures
        posted_keys(start, events).no_duplicates(),
{
    lemma_run_in_order(start, events);
    let end = run(start, events).0;
    let keys = posted_keys(start, events);
    let places = posted_places(start, events);
    assert forall|i: int, j: int| 0 <= i < keys.len() && 0 <= j < keys.len() && i != j implies keys[i]
        != keys[j] by {
        if i < j {
            assert(earlier(end.seat, places[i], places[j]));
            lemma_places_have_their_keys(end.seat, end.uuid, places[i], places[j]);
        } else {
            assert(earlier(end.seat, places[j], places[i]));
            lemma_places_have_their_keys(end.seat, end.uuid, places[j], places[i]);
        }
    }
}

} // verus!
