use referral_list::env::{format_contact_line, parse_contact_line, Env};
use referral_list::holly::{Config, Message};
use referral_list::send::{encrypt_with_otp, pad_until_divisible_by_3, PostPayload};
use referral_list::text::{chars_of, find_from, parse_u64, split_ranges, u64_to_string};

#[test]
fn decimal_printing() {
    assert_eq!(u64_to_string(0), "0");
    assert_eq!(u64_to_string(7), "7");
    assert_eq!(u64_to_string(12345), "12345");
    assert_eq!(u64_to_string(u64::MAX), "18446744073709551615");
}

#[test]
fn decimal_parsing_matches_std() {
    for s in ["0", "42", "+7", "18446744073709551615", "", "x", "4x2", "-3",
        "18446744073709551616", "99999999999999999999999"] {
        assert_eq!(parse_u64(&chars_of(s)), s.parse::<u64>().ok(), "{s}");
    }
}

#[test]
fn splitting_finds_every_segment() {
    let r = split_ranges("a.bb..c", '.');
    let parts: Vec<&str> = r.iter().map(|&(x, y)| &"a.bb..c"[x..y]).collect();
    assert_eq!(parts, vec!["a", "bb", "", "c"]);
    let r = split_ranges("", '.');
    assert_eq!(r.len(), 1);
}

#[test]
fn substring_search_finds_first_match() {
    let h = chars_of("abcabc");
    let n = chars_of("bc");
    assert_eq!(find_from(&h, &n, 0), Some(1));
    assert_eq!(find_from(&h, &n, 2), Some(4));
    assert_eq!(find_from(&h, &n, 5), None);
    assert_eq!(find_from(&h, &chars_of("zz"), 0), None);
}

#[test]
fn padding_to_three() {
    assert_eq!(pad_until_divisible_by_3("".to_string()), "");
    assert_eq!(pad_until_divisible_by_3("a".to_string()), "a  ");
    assert_eq!(pad_until_divisible_by_3("ab".to_string()), "ab ");
    assert_eq!(pad_until_divisible_by_3("abc".to_string()), "abc");
}

#[test]
fn encryption_pads_masks_and_encodes() {
    // "hi" padded to "hi ", masked with the repeating key "k", encoded.
    assert_eq!(encrypt_with_otp("hi".to_string(), "k"), "AwJL");
    // An empty key yields the encoding of an empty ciphertext.
    assert_eq!(encrypt_with_otp("hi".to_string(), ""), "");
    // A key equal to the text masks it to zero bytes.
    assert_eq!(encrypt_with_otp("abc".to_string(), "abc"), "AAAA");
}

#[test]
fn payload_carries_its_body() {
    let p = PostPayload::new("cipher".to_string());
    assert_eq!(p.into_body(), "cipher");
}

#[test]
fn contact_lines_round_trip() {
    assert_eq!(parse_contact_line("guid-1,42"), Some(("guid-1".to_string(), 42)));
    assert_eq!(parse_contact_line("guid-1,42,extra"), Some(("guid-1".to_string(), 42)));
    assert_eq!(parse_contact_line("guid-1"), None);
    assert_eq!(parse_contact_line("guid-1,notanumber"), None);
    assert_eq!(parse_contact_line(",7"), Some(("".to_string(), 7)));
    let line = format_contact_line("guid-9", 314);
    assert_eq!(line, "guid-9,314");
    assert_eq!(parse_contact_line(&line), Some(("guid-9".to_string(), 314)));
}

#[test]
fn env_holds_its_values() {
    let e = Env::new(
        "user".to_string(),
        "pass".to_string(),
        "https://push".to_string(),
        "key".to_string(),
        "work".to_string(),
    );
    assert_eq!(e.church_username, "user");
    assert_eq!(e.working_path, "work");
}

#[test]
fn holly_data_is_plain() {
    let m = Message::new("me".to_string(), "hello".to_string(), "chat-9".to_string());
    assert_eq!(m.content, "hello");
    let c = Config {
        last_transfer_start: 5,
        zone_chats: vec![(1, "chat-1".to_string())],
        unassigned_chat: None,
        holly_socket: "127.0.0.1:8011".to_string(),
        name: "Holly".to_string(),
        blacklist: None,
    };
    assert_eq!(c.zone_chats[0].0, 1);
}
