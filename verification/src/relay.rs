//! The relay channel: how entries are keyed, and how one round's messages
//! are collected from the other parties.

use vstd::prelude::*;
use crate::common::{Entry, Index};

verus! {

/// The character of a decimal digit.
pub open spec fn digit(d: nat) -> char {
    if d == 0 {
        '0'
    } else if d == 1 {
        '1'
    } else if d == 2 {
        '2'
    } else if d == 3 {
        '3'
    } else if d == 4 {
        '4'
    } else if d == 5 {
        '5'
    } else if d == 6 {
        '6'
    } else if d == 7 {
        '7'
    } else if d == 8 {
        '8'
    } else {
        '9'
    }
}

/// A number in decimal, without leading zeros.
pub open spec fn decimal(n: nat) -> Seq<char>
    decreases n,
{
    if n < 10 {
        seq![digit(n)]
    } else {
        decimal(n / 10).push(digit(n % 10))
    }
}

/// The key of a broadcast: sender, round and session, joined by hyphens.
pub open spec fn broadcast_key_text(party: nat, round: Seq<char>, uuid: Seq<char>) -> Seq<char> {
    decimal(party) + seq!['-'] + round + seq!['-'] + uuid
}

/// The key of a point-to-point message: sender, receiver, round and session,
/// joined by hyphens.
pub open spec fn p2p_key_text(from: nat, to: nat, round: Seq<char>, uuid: Seq<char>) -> Seq<
    char,
> {
    decimal(from) + seq!['-'] + decimal(to) + seq!['-'] + round + seq!['-'] + uuid
}

fn digit_str(d: u16) -> (s: &'static str)
    requires
        d < 10,
    ensures
        s@ == seq![digit(d as nat)],
{
    proof {
        reveal_strlit("0");
        reveal_strlit("1");
        reveal_strlit("2");
        reveal_strlit("3");
        reveal_strlit("4");
        reveal_strlit("5");
        reveal_strlit("6");
        reveal_strlit("7");
        reveal_strlit("8");
        reveal_strlit("9");
    }
    let s = if d == 0 {
        "0"
    } else if d == 1 {
        "1"
    } else if d == 2 {
        "2"
    } else if d == 3 {
        "3"
    } else if d == 4 {
        "4"
    } else if d == 5 {
        "5"
    } else if d == 6 {
        "6"
    } else if d == 7 {
        "7"
    } else if d == 8 {
        "8"
    } else {
        "9"
    };
    assert(s@ =~= seq![digit(d as nat)]);
    s
}

/// Appends `n` in decimal to `text`.
pub fn push_decimal(text: &mut String, n: u16)
    ensures
        final(text)@ == old(text)@ + decimal(n as nat),
    decreases n,
{
    if n >= 10 {
        push_decimal(text, n / 10);
    }
    text.append(digit_str(n % 10));
    assert(text@ =~= old(text)@ + decimal(n as nat));
}

fn push_hyphen(text: &mut String)
    ensures
        final(text)@ == old(text)@ + seq!['-'],
{
    proof {
        reveal_strlit("-");
    }
    text.append("-");
    assert("-"@ =~= seq!['-']);
}

/// The key under which `party_num` broadcasts in `round` of session `sender_uuid`.
pub fn broadcast_key(party_num: u16, round: &str, sender_uuid: &str) -> (key: String)
    ensures
        key@ == broadcast_key_text(party_num as nat, round@, sender_uuid@),
{
    let mut key = String::new();
    push_decimal(&mut key, party_num);
    push_hyphen(&mut key);
    key.append(round);
    push_hyphen(&mut key);
    key.append(sender_uuid);
    assert(key@ =~= broadcast_key_text(party_num as nat, round@, sender_uuid@));
    key
}

/// The key under which `party_from` writes to `party_to` in `round` of
/// session `sender_uuid`.
pub fn p2p_key(party_from: u16, party_to: u16, round: &str, sender_uuid: &str) -> (key: String)
    ensures
        key@ == p2p_key_text(party_from as nat, party_to as nat, round@, sender_uuid@),
{
    let mut key = String::new();
    push_decimal(&mut key, party_from);
    push_hyphen(&mut key);
    push_decimal(&mut key, party_to);
    push_hyphen(&mut key);
    key.append(round);
    push_hyphen(&mut key);
    key.append(sender_uuid);
    assert(key@ =~= p2p_key_text(party_from as nat, party_to as nat, round@, sender_uuid@));
    key
}

/// The entry that party `party_num` stores on the relay to broadcast `data`
/// in `round`. Storing it again under the same round overwrites.
pub fn broadcast(party_num: u16, round: &str, data: String, sender_uuid: String) -> (entry: Entry)
    ensures
        entry.key@ == broadcast_key_text(party_num as nat, round@, sender_uuid@),
        entry.value == data,
{
    let key = broadcast_key(party_num, round, sender_uuid.as_str());
    Entry { key, value: data }
}

/// The entry that `party_from` stores on the relay to send `data` to
/// `party_to` alone in `round`.
pub fn sendp2p(
    party_from: u16,
    party_to: u16,
    round: &str,
    data: String,
    sender_uuid: String,
) -> (entry: Entry)
    ensures
        entry.key@ == p2p_key_text(party_from as nat, party_to as nat, round@, sender_uuid@),
        entry.value == data,
{
    let key = p2p_key(party_from, party_to, round, sender_uuid.as_str());
    Entry { key, value: data }
}

/// Whether a character is a decimal digit.
pub open spec fn is_digit(c: char) -> bool {
    c == '0' || c == '1' || c == '2' || c == '3' || c == '4' || c == '5' || c == '6' || c == '7'
        || c == '8' || c == '9'
}

/// A text without a hyphen.
pub open spec fn hyphen_free(text: Seq<char>) -> bool {
    forall|i: int| 0 <= i < text.len() ==> #[trigger] text[i] != '-'
}

/// A round name that keys can be told apart by: it holds no hyphen and
/// begins with something other than a digit.
pub open spec fn plain(round: Seq<char>) -> bool {
    &&& round.len() > 0
    &&& !is_digit(round[0])
    &&& hyphen_free(round)
}

/// A number in decimal is made of digits, at least one, and more than one
/// from ten on.
pub proof fn lemma_decimal_digits(n: nat)
    ensures
        decimal(n).len() >= 1,
        n >= 10 ==> decimal(n).len() >= 2,
        forall|i: int| 0 <= i < decimal(n).len() ==> is_digit(#[trigger] decimal(n)[i]),
        hyphen_free(decimal(n)),
    decreases n,
{
    if n >= 10 {
        lemma_decimal_digits(n / 10);
    }
}

/// Two numbers with the same decimal form are the same number.
pub proof fn lemma_decimal_injective(n: nat, m: nat)
    requires
        decimal(n) == decimal(m),
    ensures
        n == m,
    decreases n,
{
    lemma_decimal_digits(n);
    lemma_decimal_digits(m);
    if n >= 10 && m >= 10 {
        let front = decimal(n / 10);
        let other = decimal(m / 10);
        assert(decimal(n).drop_last() =~= front);
        assert(decimal(m).drop_last() =~= other);
        assert(decimal(n).last() == digit(n % 10));
        assert(decimal(m).last() == digit(m % 10));
        lemma_decimal_injective(n / 10, m / 10);
    } else if n < 10 && m < 10 {
        assert(decimal(n)[0] == digit(n));
        assert(decimal(m)[0] == digit(m));
    }
}

/// Two texts that agree, each made of a part without hyphen, a hyphen and
/// a rest, agree part by part.
pub proof fn lemma_split_at_hyphen(
    head: Seq<char>,
    rest: Seq<char>,
    other_head: Seq<char>,
    other_rest: Seq<char>,
)
    requires
        hyphen_free(head),
        hyphen_free(other_head),
        head + seq!['-'] + rest == other_head + seq!['-'] + other_rest,
    ensures
        head == other_head,
        rest == other_rest,
{
    let whole = head + seq!['-'] + rest;
    let other = other_head + seq!['-'] + other_rest;
    if head.len() < other_head.len() {
        assert(whole[head.len() as int] == '-');
        assert(other[head.len() as int] == other_head[head.len() as int]);
    } else if other_head.len() < head.len() {
        assert(other[other_head.len() as int] == '-');
        assert(whole[other_head.len() as int] == head[other_head.len() as int]);
    }
    assert(head.len() == other_head.len());
    assert forall|i: int| 0 <= i < head.len() implies head[i] == other_head[i] by {
        assert(whole[i] == head[i]);
        assert(other[i] == other_head[i]);
    }
    assert(head =~= other_head);
    assert(whole.len() == other.len());
    assert(rest.len() == other_rest.len());
    assert forall|i: int| 0 <= i < rest.len() implies rest[i] == other_rest[i] by {
        assert(whole[head.len() + 1 + i] == rest[i]);
        assert(other[other_head.len() + 1 + i] == other_rest[i]);
    }
    assert(rest =~= other_rest);
}

/// Within a session, broadcasts of two parties or of two rounds are stored
/// under two keys: no broadcast overwrites another.
pub proof fn lemma_broadcast_keys_differ(
    party: nat,
    round: Seq<char>,
    other_party: nat,
    other_round: Seq<char>,
    uuid: Seq<char>,
)
    requires
        plain(round),
        plain(other_round),
        broadcast_key_text(party, round, uuid) == broadcast_key_text(
            other_party,
            other_round,
            uuid,
        ),
    ensures
        party == other_party,
        round == other_round,
{
    lemma_decimal_digits(party);
    lemma_decimal_digits(other_party);
    let tail = round + seq!['-'] + uuid;
    let other_tail = other_round + seq!['-'] + uuid;
    assert(broadcast_key_text(party, round, uuid) =~= decimal(party) + seq!['-'] + tail);
    assert(broadcast_key_text(other_party, other_round, uuid) =~= decimal(other_party) + seq![
        '-',
    ] + other_tail);
    lemma_split_at_hyphen(decimal(party), tail, decimal(other_party), other_tail);
    lemma_decimal_injective(party, other_party);
    lemma_split_at_hyphen(round, uuid, other_round, uuid);
}

/// Within a session, direct messages of two senders, to two receivers or
/// of two rounds are stored under two keys.
pub proof fn lemma_p2p_keys_differ(
    from: nat,
    to: nat,
    round: Seq<char>,
    other_from: nat,
    other_to: nat,
    other_round: Seq<char>,
    uuid: Seq<char>,
)
    requires
        plain(round),
        plain(other_round),
        p2p_key_text(from, to, round, uuid) == p2p_key_text(
            other_from,
            other_to,
            other_round,
            uuid,
        ),
    ensures
        from == other_from,
        to == other_to,
        round == other_round,
{
    lemma_decimal_digits(from);
    lemma_decimal_digits(other_from);
    lemma_decimal_digits(to);
    lemma_decimal_digits(other_to);
    let tail = round + seq!['-'] + uuid;
    let other_tail = other_round + seq!['-'] + uuid;
    let middle = decimal(to) + seq!['-'] + tail;
    let other_middle = decimal(other_to) + seq!['-'] + other_tail;
    assert(p2p_key_text(from, to, round, uuid) =~= decimal(from) + seq!['-'] + middle);
    assert(p2p_key_text(other_from, other_to, other_round, uuid) =~= decimal(other_from) + seq![
        '-',
    ] + other_middle);
    lemma_split_at_hyphen(decimal(from), middle, decimal(other_from), other_middle);
    lemma_decimal_injective(from, other_from);
    lemma_split_at_hyphen(decimal(to), tail, decimal(other_to), other_tail);
    lemma_decimal_injective(to, other_to);
    lemma_split_at_hyphen(round, uuid, other_round, uuid);
}

/// Within a session, no direct message is stored under the key of a
/// broadcast.
pub proof fn lemma_broadcast_and_p2p_keys_differ(
    party: nat,
    round: Seq<char>,
    from: nat,
    to: nat,
    other_round: Seq<char>,
    uuid: Seq<char>,
)
    requires
        plain(round),
    ensures
        broadcast_key_text(party, round, uuid) != p2p_key_text(from, to, other_round, uuid),
{
    if broadcast_key_text(party, round, uuid) == p2p_key_text(from, to, other_round, uuid) {
        lemma_decimal_digits(party);
        lemma_decimal_digits(from);
        lemma_decimal_digits(to);
        let tail = round + seq!['-'] + uuid;
        let further = other_round + seq!['-'] + uuid;
        let middle = decimal(to) + seq!['-'] + further;
        assert(broadcast_key_text(party, round, uuid) =~= decimal(party) + seq!['-'] + tail);
        assert(p2p_key_text(from, to, other_round, uuid) =~= decimal(from) + seq!['-'] + middle);
        lemma_split_at_hyphen(decimal(party), tail, decimal(from), middle);
        lemma_split_at_hyphen(round, uuid, decimal(to), further);
        assert(is_digit(decimal(to)[0]));
    }
}

/// The parties `1..=bound` other than `party`, in ascending order.
pub open spec fn peers_upto(party: nat, bound: nat) -> Seq<nat>
    decreases bound,
{
    if bound == 0 {
        Seq::empty()
    } else if bound == party {
        peers_upto(party, (bound - 1) as nat)
    } else {
        peers_upto(party, (bound - 1) as nat).push(bound)
    }
}

/// The index of the peer of `party` at `position`, counted from zero, when
/// the peers stand in ascending order of their indices.
pub open spec fn peer_at(party: nat, position: nat) -> nat {
    if position + 1 < party {
        position + 1
    } else {
        position + 2
    }
}

/// The peers of a party among `1..=bound` are all the others, in ascending
/// order: one fewer than `bound` where the party is among them, each found
/// at its position by `peer_at`.
pub proof fn lemma_peers_upto(party: nat, bound: nat)
    ensures
        1 <= party <= bound ==> peers_upto(party, bound).len() == bound - 1,
        !(1 <= party <= bound) ==> peers_upto(party, bound).len() == bound,
        forall|position: int|
            0 <= position < peers_upto(party, bound).len() ==> #[trigger] peers_upto(
                party,
                bound,
            )[position] == if 1 <= party <= bound {
                peer_at(party, position as nat)
            } else {
                (position + 1) as nat
            },
    decreases bound,
{
    if bound > 0 {
        lemma_peers_upto(party, (bound - 1) as nat);
    }
}

/// The views of a list of texts.
pub open spec fn texts(list: Seq<String>) -> Seq<Seq<char>> {
    list.map_values(|text: String| text@)
}

/// What the relay holds: the value stored under each key.
pub type Store = Map<Seq<char>, Seq<char>>;

/// What a collection in progress is made of.
pub struct PollView {
    /// The collecting party.
    pub party_num: nat,
    /// The number of parties in the round.
    pub n: nat,
    pub round: Seq<char>,
    pub uuid: Seq<char>,
    /// Whether the round's messages are point-to-point.
    pub direct: bool,
    /// The party whose message is awaited; beyond `n` once all have arrived.
    pub awaited: nat,
    /// The messages that arrived, in the order of their senders.
    pub answers: Seq<Seq<char>>,
}

/// The first party from `from` on that is not `party`.
pub open spec fn skip_self(party: nat, from: nat) -> nat {
    if from == party {
        from + 1
    } else {
        from
    }
}

impl PollView {
    /// A collection that has received nothing yet.
    pub open spec fn start(
        party_num: nat,
        n: nat,
        round: Seq<char>,
        uuid: Seq<char>,
        direct: bool,
    ) -> PollView {
        PollView {
            party_num,
            n,
            round,
            uuid,
            direct,
            awaited: skip_self(party_num, 1),
            answers: Seq::empty(),
        }
    }

    /// The awaited party is a peer in range or one past the last, and one
    /// message is held from each peer before it.
    pub open spec fn wf(self) -> bool {
        &&& 1 <= self.awaited
        &&& self.awaited != self.party_num
        &&& self.awaited <= self.n + 1 || (self.awaited == self.n + 2 && self.party_num == self.n
            + 1)
        &&& self.answers.len() == peers_upto(self.party_num, (self.awaited - 1) as nat).len()
    }

    /// The key under which `party` stores its message of this round.
    pub open spec fn key_of(self, party: nat) -> Seq<char> {
        if self.direct {
            p2p_key_text(party, self.party_num, self.round, self.uuid)
        } else {
            broadcast_key_text(party, self.round, self.uuid)
        }
    }

    /// Every peer's message has arrived.
    pub open spec fn complete(self) -> bool {
        self.awaited > self.n
    }

    /// The key to ask the relay for next, if any message is still missing.
    pub open spec fn request(self) -> Option<Seq<char>> {
        if self.complete() {
            None
        } else {
            Some(self.key_of(self.awaited))
        }
    }

    /// The collection after the relay's answer to the current request:
    /// an absent entry changes nothing, a present one is taken as the awaited
    /// party's message.
    pub open spec fn deliver(self, answer: Option<Seq<char>>) -> PollView {
        match answer {
            Some(value) if !self.complete() => PollView {
                awaited: skip_self(self.party_num, self.awaited + 1),
                answers: self.answers.push(value),
                ..self
            },
            _ => self,
        }
    }

    /// The collection after asking a relay that holds `store` once.
    pub open spec fn ask(self, store: Store) -> PollView {
        match self.request() {
            Some(key) => self.deliver(
                if store.contains_key(key) {
                    Some(store[key])
                } else {
                    None
                },
            ),
            None => self,
        }
    }

    /// The collection after asking the relay once for each of `stores`, the
    /// relay's contents at the time of each request.
    pub open spec fn run(self, stores: Seq<Store>) -> PollView
        decreases stores.len(),
    {
        if stores.len() == 0 {
            self
        } else {
            self.run(stores.drop_last()).ask(stores.last())
        }
    }

    /// The messages of the peers `1..=bound` as `store` holds them, in
    /// ascending order of the senders.
    pub open spec fn payloads(self, store: Store, bound: nat) -> Seq<Seq<char>> {
        peers_upto(self.party_num, bound).map_values(|party: nat| store[self.key_of(party)])
    }
}

/// The value of an entry that the relay returned, if it returned one.
pub open spec fn value_of(answer: Option<Entry>) -> Option<Seq<char>> {
    match answer {
        Some(entry) => Some(entry.value@),
        None => None,
    }
}

/// The collection of one round's messages from the other parties: a state
/// that names the next entry to ask the relay for and takes the answers.
#[derive(Debug)]
pub struct Poll {
    party_num: u16,
    n: u16,
    round: String,
    uuid: String,
    direct: bool,
    awaited: u32,
    answers: Vec<String>,
}

impl View for Poll {
    type V = PollView;

    closed spec fn view(&self) -> PollView {
        PollView {
            party_num: self.party_num as nat,
            n: self.n as nat,
            round: self.round@,
            uuid: self.uuid@,
            direct: self.direct,
            awaited: self.awaited as nat,
            answers: texts(self.answers@),
        }
    }
}

/// The first party from `from` on that is not `party_num`.
pub fn first_peer(party_num: u16, from: u32) -> (next: u32)
    requires
        from <= 0x1_0000,
    ensures
        next == skip_self(party_num as nat, from as nat),
{
    if from == party_num as u32 {
        from + 1
    } else {
        from
    }
}

impl Poll {
    #[verifier::type_invariant]
    closed spec fn inv(&self) -> bool {
        self@.wf()
    }

    fn new(party_num: u16, n: u16, round: &str, sender_uuid: String, direct: bool) -> (poll: Poll)
        ensures
            poll@ == PollView::start(party_num as nat, n as nat, round@, sender_uuid@, direct),
            poll@.wf(),
    {
        let answers: Vec<String> = Vec::new();
        proof {
            assert(texts(answers@) =~= Seq::<Seq<char>>::empty());
            lemma_start_wf(party_num as nat, n as nat, round@, sender_uuid@, direct);
        }
        Poll {
            party_num,
            n,
            round: String::from_str(round),
            uuid: sender_uuid,
            direct,
            awaited: first_peer(party_num, 1),
            answers,
        }
    }

    /// Whether every peer's message has arrived.
    pub fn is_complete(&self) -> (done: bool)
        ensures
            done == self@.complete(),
    {
        self.awaited > self.n as u32
    }

    /// The entry to ask the relay for next; `None` once every peer's message
    /// has arrived.
    pub fn request(&self) -> (index: Option<Index>)
        ensures
            self@.wf(),
            index is Some == self@.request() is Some,
            index matches Some(i) ==> Some(i.key@) == self@.request(),
    {
        proof {
            use_type_invariant(self);
        }
        if self.awaited > self.n as u32 {
            None
        } else {
            let awaited = self.awaited as u16;
            let key = if self.direct {
                p2p_key(awaited, self.party_num, self.round.as_str(), self.uuid.as_str())
            } else {
                broadcast_key(awaited, self.round.as_str(), self.uuid.as_str())
            };
            Some(Index { key })
        }
    }

    /// Takes the relay's answer to the current request. An absent entry
    /// leaves the collection as it is, so the same request is made again; a
    /// present one is the awaited party's message.
    pub fn deliver(self, answer: Option<Entry>) -> (next: Poll)
        ensures
            next@ == self@.deliver(value_of(answer)),
            next@.wf(),
    {
        proof {
            use_type_invariant(&self);
            lemma_deliver_wf(self@, value_of(answer));
        }
        if self.awaited <= self.n as u32 {
            if let Some(entry) = answer {
                let Poll { party_num, n, round, uuid, direct, awaited, answers } = self;
                let ghost before = answers@;
                let mut answers = answers;
                answers.push(entry.value);
                proof {
                    assert(texts(answers@) =~= texts(before).push(entry.value@));
                }
                return Poll {
                    party_num,
                    n,
                    round,
                    uuid,
                    direct,
                    awaited: first_peer(party_num, awaited + 1),
                    answers,
                };
            }
        }
        self
    }

    /// The messages collected so far, in ascending order of their senders.
    pub fn into_answers(self) -> (answers: Vec<String>)
        ensures
            texts(answers@) == self@.answers,
            self@.wf(),
    {
        proof {
            use_type_invariant(&self);
        }
        self.answers
    }
}

/// The collection of the broadcasts of `round` by the `n` parties of session
/// `sender_uuid`, as seen by `party_num`.
pub fn poll_for_broadcasts(party_num: u16, n: u16, round: &str, sender_uuid: String) -> (poll:
    Poll)
    ensures
        poll@ == PollView::start(party_num as nat, n as nat, round@, sender_uuid@, false),
{
    Poll::new(party_num, n, round, sender_uuid, false)
}

/// The collection of the point-to-point messages that the other parties of
/// session `sender_uuid` address to `party_num` in `round`.
pub fn poll_for_p2p(party_num: u16, n: u16, round: &str, sender_uuid: String) -> (poll: Poll)
    ensures
        poll@ == PollView::start(party_num as nat, n as nat, round@, sender_uuid@, true),
{
    Poll::new(party_num, n, round, sender_uuid, true)
}

/// A collection that has received nothing is well formed.
pub proof fn lemma_start_wf(party_num: nat, n: nat, round: Seq<char>, uuid: Seq<char>, direct: bool)
    ensures
        PollView::start(party_num, n, round, uuid, direct).wf(),
{
    let start = PollView::start(party_num, n, round, uuid, direct);
    if party_num == 1 {
        reveal_with_fuel(peers_upto, 2);
        assert(peers_upto(1, 1) =~= Seq::<nat>::empty());
    } else {
        assert(peers_upto(party_num, 0) =~= Seq::<nat>::empty());
    }
}

/// Taking an answer keeps a collection well formed.
pub proof fn lemma_deliver_wf(poll: PollView, answer: Option<Seq<char>>)
    requires
        poll.wf(),
    ensures
        poll.deliver(answer).wf(),
{
    let next = poll.deliver(answer);
    if answer is Some && !poll.complete() {
        let a = poll.awaited;
        assert(peers_upto(poll.party_num, a) == peers_upto(poll.party_num, (a - 1) as nat).push(a));
        if a + 1 == poll.party_num {
            assert(peers_upto(poll.party_num, a + 1) == peers_upto(poll.party_num, a));
        }
    }
}

/// `world` holds every entry of `store`, with the same value.
pub open spec fn kept_in(store: Store, world: Store) -> bool {
    forall|key: Seq<char>| #[trigger]
        store.contains_key(key) ==> world.contains_key(key) && world[key] == store[key]
}

/// Every snapshot in `stores` holds only entries that `world` holds, with
/// the same values: an entry, once written, stays as it is.
pub open spec fn within(stores: Seq<Store>, world: Store) -> bool {
    forall|i: int| 0 <= i < stores.len() ==> kept_in(#[trigger] stores[i], world)
}

/// What a collection holds is what `world` stores for the peers before the
/// awaited one, and `world` stores an entry for each of them.
pub open spec fn agrees(poll: PollView, world: Store) -> bool {
    &&& poll.wf()
    &&& poll.answers == poll.payloads(world, (poll.awaited - 1) as nat)
    &&& forall|i: int|
        0 <= i < poll.answers.len() ==> world.contains_key(
            poll.key_of(#[trigger] peers_upto(poll.party_num, (poll.awaited - 1) as nat)[i]),
        )
}

/// Asking a relay whose entries are among those of `world` keeps a
/// collection in agreement with `world`.
pub proof fn lemma_ask_agrees(poll: PollView, store: Store, world: Store)
    requires
        agrees(poll, world),
        kept_in(store, world),
    ensures
        agrees(poll.ask(store), world),
{
    let next = poll.ask(store);
    if next != poll {
        let a = poll.awaited;
        let key = poll.key_of(a);
        assert(store.contains_key(key));
        assert(world.contains_key(key) && store[key] == world[key]);
        let before = peers_upto(poll.party_num, (a - 1) as nat);
        let after = peers_upto(poll.party_num, (next.awaited - 1) as nat);
        assert(peers_upto(poll.party_num, a) == before.push(a));
        if a + 1 == poll.party_num {
            assert(peers_upto(poll.party_num, a + 1) == peers_upto(poll.party_num, a));
        }
        assert(after == before.push(a));
        assert(next.answers =~= next.payloads(world, (next.awaited - 1) as nat));
        lemma_deliver_wf(poll, Some(store[key]));
        assert forall|i: int| 0 <= i < next.answers.len() implies world.contains_key(
            next.key_of(#[trigger] after[i]),
        ) by {
            if i < before.len() {
                assert(after[i] == before[i]);
            }
        }
    }
}

/// A collection asks again for the same entry as long as the relay does not
/// hold it: a round does not end before the awaited party has posted.
pub proof fn lemma_waits_while_absent(poll: PollView, store: Store)
    requires
        poll.request() matches Some(key) && !store.contains_key(key),
    ensures
        poll.ask(store) == poll,
        !poll.ask(store).complete(),
{
}

/// However the relay fills up while a party collects a round, what the party
/// holds at any moment are the messages of the peers before the awaited one,
/// in ascending order of their indices and without its own; once the
/// collection is complete these are the messages of all other parties, and
/// the relay holds an entry from each of them.
pub proof fn lemma_collects_in_order(
    party_num: nat,
    n: nat,
    round: Seq<char>,
    uuid: Seq<char>,
    direct: bool,
    stores: Seq<Store>,
    world: Store,
)
    requires
        within(stores, world),
    ensures
        ({
            let end = PollView::start(party_num, n, round, uuid, direct).run(stores);
            &&& agrees(end, world)
            &&& end.complete() ==> end.answers == end.payloads(world, n)
            &&& end.complete() ==> forall|i: int|
                0 <= i < peers_upto(party_num, n).len() ==> world.contains_key(
                    end.key_of(#[trigger] peers_upto(party_num, n)[i]),
                )
        }),
    decreases stores.len(),
{
    let start = PollView::start(party_num, n, round, uuid, direct);
    let end = start.run(stores);
    if stores.len() == 0 {
        lemma_start_wf(party_num, n, round, uuid, direct);
        if party_num == 1 {
            reveal_with_fuel(peers_upto, 2);
        }
        assert(start.answers =~= start.payloads(world, (start.awaited - 1) as nat));
    } else {
        assert(within(stores.drop_last(), world)) by {
            assert forall|i: int| 0 <= i < stores.drop_last().len() implies kept_in(
                #[trigger] stores.drop_last()[i],
                world,
            ) by {
                assert(stores.drop_last()[i] == stores[i]);
            }
        }
        lemma_collects_in_order(party_num, n, round, uuid, direct, stores.drop_last(), world);
        lemma_ask_agrees(start.run(stores.drop_last()), stores.last(), world);
    }
    lemma_run_keeps_fields(start, stores);
    if end.complete() {
        if end.awaited == n + 2 {
            assert(peers_upto(party_num, n + 1) == peers_upto(party_num, n));
        }
        assert(peers_upto(party_num, (end.awaited - 1) as nat) == peers_upto(party_num, n));
    }
}

/// Asking the relay changes neither the parties nor the round of a collection.
pub proof fn lemma_run_keeps_fields(poll: PollView, stores: Seq<Store>)
    ensures
        poll.run(stores).party_num == poll.party_num,
        poll.run(stores).n == poll.n,
        poll.run(stores).round == poll.round,
        poll.run(stores).uuid == poll.uuid,
        poll.run(stores).direct == poll.direct,
    decreases stores.len(),
{
    if stores.len() > 0 {
        lemma_run_keeps_fields(poll, stores.drop_last());
    }
}

} // verus!
