use gg18::api::rounds::{Parameters, Protocol};
use gg18::api::messages::Event;
use gg18::api::{format_vec_from_reads, get_event, message_bytes, post_event, read_post_reply};
use gg18::common::{Entry, Index, Params, PartySignup};
use gg18::gg_2018::DLogStatement;
use gg18::curv::arithmetic::from;

#[test]
fn message_in_hexadecimal_is_decoded() {
    assert_eq!(message_bytes("deadbeef"), vec![0xde, 0xad, 0xbe, 0xef]);
    assert_eq!(message_bytes("DEADbeef"), vec![0xde, 0xad, 0xbe, 0xef]);
    assert_eq!(message_bytes("00ff"), vec![0x00, 0xff]);
    assert_eq!(message_bytes("0a"), vec![0x0a]);
}

#[test]
fn message_that_is_no_hexadecimal_is_taken_as_it_is() {
    assert_eq!(message_bytes("hello"), b"hello".to_vec());
    assert_eq!(message_bytes("abc"), b"abc".to_vec());
    assert_eq!(message_bytes("0x10"), b"0x10".to_vec());
    assert_eq!(message_bytes("de ad"), b"de ad".to_vec());
    assert_eq!(message_bytes("h\u{e9}llo"), "h\u{e9}llo".as_bytes().to_vec());
}

#[test]
fn empty_message_is_empty() {
    assert_eq!(message_bytes(""), Vec::<u8>::new());
}

#[test]
fn own_value_goes_to_the_place_of_the_party() {
    let mut all = Vec::new();
    format_vec_from_reads(vec!["a", "c"], 2, "b", &mut all);
    assert_eq!(all, vec!["a", "b", "c"]);
    let mut all = Vec::new();
    format_vec_from_reads(vec!["b", "c"], 1, "a", &mut all);
    assert_eq!(all, vec!["a", "b", "c"]);
    let mut all = Vec::new();
    format_vec_from_reads(vec!["a", "b"], 3, "c", &mut all);
    assert_eq!(all, vec!["a", "b", "c"]);
}

#[test]
fn own_value_alone_makes_a_list_of_one() {
    let mut all = Vec::new();
    format_vec_from_reads(Vec::new(), 1, 7u64, &mut all);
    assert_eq!(all, vec![7]);
}

#[test]
fn assembled_list_is_appended_to_what_was_there() {
    let mut all = vec![0u8];
    format_vec_from_reads(vec![1, 3], 2, 2, &mut all);
    assert_eq!(all, vec![0, 1, 2, 3]);
}

#[test]
fn every_party_assembles_the_same_list() {
    let full = vec!["one", "two", "three", "four"];
    for party in 1..=4usize {
        let mut others = full.clone();
        let own = others.remove(party - 1);
        let mut all = Vec::new();
        format_vec_from_reads(others, party, own, &mut all);
        assert_eq!(all, full);
    }
}

#[test]
fn stored_entry_is_reported_as_posted() {
    assert_eq!(post_event(Some(Ok(()))), Event::Posted);
    assert_eq!(read_post_reply(Some("{\"Ok\":null}")), Event::Posted);
}

#[test]
fn refusal_or_silence_of_the_relay_is_reported_as_lost() {
    assert_eq!(post_event(Some(Err(()))), Event::Lost);
    assert_eq!(post_event(None), Event::Lost);
    assert_eq!(read_post_reply(Some("{\"Err\":null}")), Event::Lost);
    assert_eq!(read_post_reply(Some("not json")), Event::Lost);
    assert_eq!(read_post_reply(Some("")), Event::Lost);
    assert_eq!(read_post_reply(None), Event::Lost);
}

#[test]
fn absent_entry_is_no_failure() {
    assert_eq!(get_event(Some(Err(()))), Event::Got(None));
}

#[test]
fn present_entry_is_handed_on() {
    let found = Entry { key: "1-round1-s".to_string(), value: "v".to_string() };
    assert_eq!(get_event(Some(Ok(found.clone()))), Event::Got(Some(found)));
}

#[test]
fn unreadable_answer_to_a_get_is_reported_as_lost() {
    assert_eq!(get_event(None), Event::Lost);
}

#[test]
fn parameters_need_a_positive_threshold_below_the_share_count() {
    assert_eq!(Parameters::new(1, 3), Some(Parameters { threshold: 1, share_count: 3 }));
    assert_eq!(Parameters::new(2, 3), Some(Parameters { threshold: 2, share_count: 3 }));
    assert_eq!(Parameters::new(0, 3), None);
    assert_eq!(Parameters::new(3, 3), None);
    assert_eq!(Parameters::new(4, 3), None);
    assert_eq!(Parameters::new(1, 1), None);
    assert_eq!(Parameters::new(0, 0), None);
    assert_eq!(Parameters::new(1, 65536), None);
    assert_eq!(
        Parameters::new(65534, 65535),
        Some(Parameters { threshold: 65534, share_count: 65535 })
    );
}

#[test]
fn validity_of_given_parameters() {
    assert!(Parameters { threshold: 1, share_count: 2 }.is_valid());
    assert!(!Parameters { threshold: 0, share_count: 2 }.is_valid());
    assert!(!Parameters { threshold: 2, share_count: 2 }.is_valid());
}

#[test]
fn key_generation_has_five_rounds_named_from_one() {
    let protocol = Protocol::KeyGeneration;
    assert_eq!(protocol.round_count(), 5);
    let names: Vec<String> = (0..5).map(|round| protocol.name_of_round(round)).collect();
    assert_eq!(names, vec!["round1", "round2", "round3", "round4", "round5"]);
}

#[test]
fn signing_has_ten_rounds_named_from_zero() {
    let protocol = Protocol::Signing;
    assert_eq!(protocol.round_count(), 10);
    assert_eq!(protocol.name_of_round(0), "round0");
    assert_eq!(protocol.name_of_round(9), "round9");
}

#[test]
fn third_round_is_direct_and_sealed_only_in_key_generation() {
    for round in 0..10u8 {
        assert_eq!(Protocol::KeyGeneration.is_direct(round), round == 2);
        assert_eq!(Protocol::Signing.is_direct(round), round == 2);
        assert_eq!(Protocol::KeyGeneration.is_sealed(round), round == 2);
        assert!(!Protocol::Signing.is_sealed(round));
    }
}

#[test]
fn all_parties_generate_and_threshold_plus_one_sign() {
    let params = Parameters { threshold: 2, share_count: 5 };
    assert_eq!(Protocol::KeyGeneration.party_count(params), 5);
    assert_eq!(Protocol::Signing.party_count(params), 3);
}

#[test]
fn records_hold_what_they_are_given() {
    let signup = PartySignup { number: 2, uuid: "sid".to_string() };
    assert_eq!(signup.clone(), signup);
    let index = Index { key: "k".to_string() };
    assert_eq!(index.key, "k");
    let params = Params { parties: "3".to_string(), threshold: "1".to_string() };
    assert_eq!(params.parties, "3");
    assert_eq!(params.threshold, "1");
    let statement = DLogStatement { N: from(&[35]), g: from(&[2]), ni: from(&[4]) };
    assert_eq!(statement.clone().N, from(&[35]));
    assert_eq!(statement.g, from(&[2]));
    assert_eq!(statement.ni, from(&[4]));
}
