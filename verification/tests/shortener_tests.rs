use url_shortener::registry::{parse_code_length, Registry, ReserveOutcome};
use url_shortener::shortener::UrlShortener;
use url_shortener::Error;

const ALPHABET: &str = "0123456789ABCDEFGHIJKLMNOPQRSTUVWXYZabcdefghijklmnopqrstuvwxyz";

#[test]
fn register_returns_four_char_alphanumeric_code() {
    let mut s = UrlShortener::new(Registry::new());
    let code = s.register("https://example.com").expect("registration on an empty registry");
    assert_eq!(code.len(), 4);
    assert!(code.chars().all(|c| c.is_ascii_alphanumeric()));
    // Nothing could collide, so the setting was never grown.
    assert_eq!(s.get_short_code_length(), 4);
}

#[test]
fn register_then_resolve_round_trips() {
    let mut s = UrlShortener::new(Registry::new());
    let code = s.register("https://example.com").expect("registration on an empty registry");
    let url = s.lookup(&code).expect("a code just handed out resolves");
    assert_eq!(url, "https://example.com");
}

#[test]
fn resolve_unknown_code_is_not_found() {
    let mut s = UrlShortener::new(Registry::new());
    assert!(matches!(s.lookup("zzzz"), Err(Error::NotFound)));
    let code = s.register("https://example.com").expect("registration on an empty registry");
    // A five-character code was never issued: only one four-character one was.
    assert!(matches!(s.lookup("zzzzz"), Err(Error::NotFound)));
    if code != "zzzz" {
        assert!(matches!(s.lookup("zzzz"), Err(Error::NotFound)));
    }
}

#[test]
fn registering_the_same_url_twice_gives_distinct_codes() {
    let mut s = UrlShortener::new(Registry::new());
    let c1 = s.register("https://example.com").expect("first registration");
    let c2 = s.register("https://example.com").expect("second registration");
    assert_ne!(c1, c2);
    assert_eq!(s.lookup(&c1).expect("first code resolves"), "https://example.com");
    assert_eq!(s.lookup(&c2).expect("second code resolves"), "https://example.com");
}

#[test]
fn registering_distinct_urls_gives_distinct_codes() {
    let mut s = UrlShortener::new(Registry::new());
    let c1 = s.register("https://example.com/a").expect("first registration");
    let c2 = s.register("https://example.com/b").expect("second registration");
    assert_ne!(c1, c2);
    assert_eq!(s.lookup(&c1).expect("first code resolves"), "https://example.com/a");
    assert_eq!(s.lookup(&c2).expect("second code resolves"), "https://example.com/b");
}

#[test]
fn repeated_resolution_is_stable() {
    let mut s = UrlShortener::new(Registry::new());
    let code = s.register("https://example.com").expect("registration on an empty registry");
    let first = s.lookup(&code).expect("first resolution");
    for _ in 0..5 {
        assert_eq!(s.lookup(&code).expect("later resolution"), first);
    }
}

#[test]
fn saturated_round_grows_the_length_setting() {
    // Fill the whole one-character keyspace, so that every candidate of the
    // first round collides: the setting must then grow to 2 and the next
    // round must hand out a two-character code.
    let mut reg = Registry::new();
    reg.write_code_length(1);
    for c in ALPHABET.chars() {
        let outcome = reg.try_reserve(&c.to_string(), "https://filler.example");
        assert_eq!(outcome, ReserveOutcome::Reserved);
    }
    let mut s = UrlShortener::new(reg);
    let code = s.register("https://example.com").expect("the grown keyspace has room");
    assert_eq!(code.len(), 2);
    assert_eq!(s.get_short_code_length(), 2);
    assert_eq!(s.lookup(&code).expect("the new code resolves"), "https://example.com");
}

#[test]
fn collisions_within_a_round_stay_invisible() {
    // With half the one-character keyspace taken, registrations keep
    // succeeding even when early candidates collide; a collision never
    // surfaces as an error.
    let mut reg = Registry::new();
    reg.write_code_length(1);
    for c in ALPHABET.chars().take(31) {
        assert_eq!(reg.try_reserve(&c.to_string(), "https://filler.example"), ReserveOutcome::Reserved);
    }
    let mut s = UrlShortener::new(reg);
    for i in 0..8 {
        let url = format!("https://example.com/{}", i);
        let code = s.register(&url).expect("registration with a part-filled keyspace");
        assert_eq!(s.lookup(&code).expect("the code resolves"), url);
    }
}

#[test]
fn default_length_setting_is_four() {
    let s = UrlShortener::new(Registry::new());
    assert_eq!(s.get_short_code_length(), 4);
}

#[test]
fn registry_reserve_conflicts_on_taken_code() {
    let mut reg = Registry::new();
    assert_eq!(reg.try_reserve("abcd", "https://one.example"), ReserveOutcome::Reserved);
    assert_eq!(reg.try_reserve("abcd", "https://two.example"), ReserveOutcome::Conflict);
    // The conflicting insert changed nothing: the first binding stands.
    assert_eq!(reg.lookup("abcd"), Some("https://one.example".to_string()));
}

#[test]
fn registry_lookup_misses_on_empty() {
    let reg = Registry::new();
    assert_eq!(reg.lookup("abcd"), None);
    assert_eq!(reg.read_code_length(), 4);
}

#[test]
fn registry_length_setting_round_trips() {
    let mut reg = Registry::new();
    reg.write_code_length(7);
    assert_eq!(reg.read_code_length(), 7);
}

#[test]
fn parse_code_length_reads_digit_strings() {
    assert_eq!(parse_code_length("7"), 7);
    assert_eq!(parse_code_length("007"), 7);
    assert_eq!(parse_code_length("0"), 0);
    assert_eq!(parse_code_length("4096"), 4096);
    let max = format!("{}", usize::MAX);
    assert_eq!(parse_code_length(&max), usize::MAX);
}

#[test]
fn parse_code_length_falls_back_to_the_default() {
    assert_eq!(parse_code_length(""), 4);
    assert_eq!(parse_code_length("abc"), 4);
    assert_eq!(parse_code_length("12x"), 4);
    assert_eq!(parse_code_length("-3"), 4);
    assert_eq!(parse_code_length("+7"), 4);
    assert_eq!(parse_code_length("drei"), 4);
    assert_eq!(parse_code_length("99999999999999999999999999"), 4);
}
