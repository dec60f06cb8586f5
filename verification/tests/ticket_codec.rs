//! Tests for the invite ticket codec and the share-string format.

use topic_sync::ticket::{
    make_share_string, parse_share_string, share_string_for_topic, topic_from_ticket, Ticket,
};

fn fresh_key_hex() -> String {
    iroh::SecretKey::generate().public().to_string()
}

fn fresh_topic_hex() -> String {
    let topic = topic_sync::records::Topic::new_topic(
        String::from("demo"),
        String::from("owner"),
        None,
    );
    topic.topic_id
}

#[test]
fn ticket_round_trip() {
    let topic_hex = fresh_topic_hex();
    let a = fresh_key_hex();
    let b = fresh_key_hex();
    let t = Ticket::new(topic_hex.clone(), vec![a.clone(), b.clone()]).unwrap();
    let token = t.encode();
    let back = Ticket::decode(token.as_str()).unwrap();
    assert_eq!(back.topic, t.topic);
    assert_eq!(back.nodes, t.nodes);
}

#[test]
fn ticket_round_trip_via_law_function() {
    let topic_hex = fresh_topic_hex();
    let a = fresh_key_hex();
    let t = Ticket::new(topic_hex, vec![a]).unwrap();
    let back = Ticket::encode_then_decode(&t).unwrap();
    assert_eq!(back.topic, t.topic);
    assert_eq!(back.nodes, t.nodes);
}

#[test]
fn ticket_decode_is_case_insensitive() {
    let topic_hex = fresh_topic_hex();
    let a = fresh_key_hex();
    let t = Ticket::new(topic_hex, vec![a]).unwrap();
    let token = t.encode();
    assert!(token.chars().all(|c| !c.is_ascii_uppercase()));
    let upper = token.to_ascii_uppercase();
    let back = Ticket::decode(upper.as_str()).unwrap();
    assert_eq!(back.topic, t.topic);
    assert_eq!(back.nodes, t.nodes);
}

#[test]
fn ticket_token_matches_base32_of_json() {
    let topic_hex = fresh_topic_hex();
    let a = fresh_key_hex();
    let t = Ticket::new(topic_hex.clone(), vec![a.clone()]).unwrap();
    let json = t.to_bytes();
    let expected_json = format!("{{\"topic\":\"{}\",\"nodes\":[\"{}\"]}}", topic_hex, a);
    assert_eq!(String::from_utf8(json.clone()).unwrap(), expected_json);
    let expected_token = data_encoding::BASE32_NOPAD.encode(&json).to_ascii_lowercase();
    assert_eq!(t.encode(), expected_token);
}

#[test]
fn ticket_decode_rejects_junk() {
    assert!(Ticket::decode("not base32 at all!!").is_err());
    assert!(Ticket::decode("").is_err());
    // valid base32 of bytes that are not the ticket envelope
    let junk = data_encoding::BASE32_NOPAD.encode(b"{\"nope\":true}").to_ascii_lowercase();
    assert!(Ticket::decode(junk.as_str()).is_err());
}

#[test]
fn ticket_new_rejects_bad_ids() {
    let a = fresh_key_hex();
    assert!(Ticket::new(String::from("zz"), vec![a.clone()]).is_err());
    assert!(Ticket::new(String::from("abcd"), vec![a.clone()]).is_err());
    let topic_hex = fresh_topic_hex();
    assert!(Ticket::new(topic_hex.clone(), vec![String::from("1234")]).is_err());
    assert!(Ticket::new(topic_hex, vec![String::from("not hex either")]).is_err());
}

#[test]
fn ticket_new_accepts_uppercase_hex() {
    let topic_hex = fresh_topic_hex().to_ascii_uppercase();
    let a = fresh_key_hex();
    let t = Ticket::new(topic_hex.clone(), vec![a]).unwrap();
    // the stored topic bytes match the (case-folded) hex digits
    let rendered = t.topic.iter().map(|b| format!("{:02x}", b)).collect::<String>();
    assert_eq!(rendered, topic_hex.to_ascii_lowercase());
}

#[test]
fn share_string_round_trip() {
    let name = String::from("demo");
    let token = String::from("abc234");
    let s = make_share_string(&name, &token);
    assert_eq!(s, "demo:abc234");
    let (n, t) = parse_share_string(s.as_str()).unwrap();
    assert_eq!(n, "demo");
    assert_eq!(t, "abc234");
}

#[test]
fn share_string_needs_exactly_one_colon() {
    assert!(parse_share_string("nocolon").is_err());
    assert!(parse_share_string("a:b:c").is_err());
    assert!(parse_share_string("").is_err());
}

#[test]
fn share_string_for_topic_formats_name_and_token() {
    let owner = fresh_key_hex();
    let topic = topic_sync::records::Topic::new_topic(String::from("demo"), owner.clone(), None);
    let s = share_string_for_topic(&topic).unwrap();
    let (name, token) = parse_share_string(s.as_str()).unwrap();
    assert_eq!(name, "demo");
    let t = Ticket::decode(token.as_str()).unwrap();
    assert_eq!(t.nodes.len(), 1);
}

#[test]
fn share_string_needs_valid_peer_ids() {
    let topic = topic_sync::records::Topic::new_topic(
        String::from("demo"),
        String::from("not a key"),
        None,
    );
    assert!(share_string_for_topic(&topic).is_err());
}

#[test]
fn topic_from_ticket_appends_self() {
    let topic_hex = fresh_topic_hex();
    let a = fresh_key_hex();
    let b = fresh_key_hex();
    let me = fresh_key_hex();
    let t = Ticket::new(topic_hex.clone(), vec![a.clone(), b.clone()]).unwrap();
    let topic = topic_from_ticket(&t, String::from("demo"), me.clone()).unwrap();
    assert_eq!(topic.topic_id, topic_hex);
    assert_eq!(topic.name, "demo");
    assert_eq!(topic.owner, a);
    assert_eq!(topic.members, Some(vec![b, me]));
}

#[test]
fn topic_from_ticket_needs_an_owner() {
    let topic_hex = fresh_topic_hex();
    let t = Ticket::new(topic_hex, Vec::new()).unwrap();
    assert!(topic_from_ticket(&t, String::from("demo"), String::from("me")).is_err());
}

#[test]
fn secret_round_trip() {
    let s = topic_sync::secrets::create_secret();
    let bytes = topic_sync::secrets::decode_secret(s.as_str()).unwrap();
    assert_eq!(bytes.len(), 32);
    let again = topic_sync::secrets::encode_secret(&bytes);
    assert_eq!(again, s);
    assert!(topic_sync::secrets::decode_secret("lowercase???").is_err());
}
