//! The first round of signing: every signer announces the index it has
//! held since key generation, and all build the same list of signers.

use vstd::prelude::*;
use crate::relay::texts;

verus! {

/// The unsigned number that `serde_json` reads from `text`, if it reads one.
pub uninterp spec fn json_number(text: Seq<char>) -> Option<u64>;

/// `serde_json::from_str` at the type `u64`: the number that the text
/// spells in JSON, or `None` where the text is anything else. Claimed: the
/// result is a function of the text.
#[verifier::external_body]
fn parse_number(text: &str) -> (number: Option<u64>)
    ensures
        number == json_number(text@),
{
    match serde_json::from_str::<u64>(text) {
        Ok(number) => Some(number),
        Err(_) => None,
    }
}

/// The place, counted from zero, of the signer that announced `index`, if
/// it announced one of the indices `1..=share_count` of key generation.
pub open spec fn signer_slot(index: Option<u64>, share_count: u16) -> Option<usize> {
    match index {
        Some(i) if 1 <= i <= share_count => Some((i - 1) as usize),
        _ => None,
    }
}

/// The place, counted from zero, of the signer that announced `index`;
/// `None` unless it is one of the indices `1..=share_count`.
pub fn signer_from(index: Option<u64>, share_count: u16) -> (slot: Option<usize>)
    ensures
        slot == signer_slot(index, share_count),
{
    match index {
        Some(i) => {
            if 1 <= i && i <= share_count as u64 {
                Some((i - 1) as usize)
            } else {
                None
            }
        },
        None => None,
    }
}

/// The places of the signers that sent the first `count` of `announced`,
/// or the position of the first text that announces no index of key
/// generation.
pub open spec fn signer_slots(announced: Seq<Seq<char>>, share_count: u16, count: nat) -> Result<
    Seq<usize>,
    nat,
>
    decreases count,
{
    if count == 0 {
        Ok(Seq::empty())
    } else {
        let position = (count - 1) as nat;
        match signer_slots(announced, share_count, position) {
            Err(first) => Err(first),
            Ok(slots) => match signer_slot(json_number(announced[position as int]), share_count) {
                Some(slot) => Ok(slots.push(slot)),
                None => Err(position),
            },
        }
    }
}

/// A text among the first that announces no index is the first such of
/// the whole.
proof fn lemma_reading_stops(announced: Seq<Seq<char>>, share_count: u16, count: nat, more: nat)
    requires
        count <= more,
        signer_slots(announced, share_count, count) is Err,
    ensures
        signer_slots(announced, share_count, more) == signer_slots(announced, share_count, count),
    decreases more,
{
    if count < more {
        lemma_reading_stops(announced, share_count, count, (more - 1) as nat);
    }
}

/// Reads the index that each peer announced: the signers' places in the
/// order of the peers, or the position of the first peer whose message
/// announces no index of key generation.
pub fn read_signers(announced: &Vec<String>, share_count: u16) -> (slots: Result<
    Vec<usize>,
    usize,
>)
    ensures
        match signer_slots(texts(announced@), share_count, announced@.len()) {
            Ok(list) => slots matches Ok(s) && s@ == list && list.len() == announced@.len(),
            Err(first) => slots == Err::<Vec<usize>, usize>(first as usize) && first
                < announced@.len(),
        },
{
    let mut slots: Vec<usize> = Vec::new();
    let mut position: usize = 0;
    while position < announced.len()
        invariant
            position <= announced@.len(),
            slots@.len() == position,
            signer_slots(texts(announced@), share_count, position as nat) == Ok::<
                Seq<usize>,
                nat,
            >(slots@),
        decreases announced@.len() - position,
    {
        let number = parse_number(announced[position].as_str());
        match signer_from(number, share_count) {
            Some(slot) => {
                slots.push(slot);
            },
            None => {
                proof {
                    lemma_reading_stops(
                        texts(announced@),
                        share_count,
                        position as nat + 1,
                        announced@.len(),
                    );
                }
                return Err(position);
            },
        }
        position = position + 1;
    }
    Ok(slots)
}

/// Whether no number occurs twice in `list`.
pub fn distinct(list: &Vec<usize>) -> (distinct: bool)
    ensures
        distinct == list@.no_duplicates(),
{
    let mut upper: usize = 0;
    while upper < list.len()
        invariant
            upper <= list@.len(),
            forall|a: int, b: int| 0 <= a < b < upper ==> list@[a] != list@[b],
        decreases list@.len() - upper,
    {
        let mut lower: usize = 0;
        while lower < upper
            invariant
                lower <= upper < list@.len(),
                forall|a: int| 0 <= a < lower ==> list@[a] != list@[upper as int],
            decreases upper - lower,
        {
            if list[lower] == list[upper] {
                return false;
            }
            lower = lower + 1;
        }
        upper = upper + 1;
    }
    assert forall|a: int, b: int|
        0 <= a < list@.len() && 0 <= b < list@.len() && a != b implies list@[a] != list@[b] by {
        if a < b {
        } else {
            assert(list@[b] != list@[a]);
        }
    }
    true
}

} // verus!
