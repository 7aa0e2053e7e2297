use regex::Regex;
use ztln::location::{is_hex_char, is_word_char};
use ztln::Location;

fn relative(topic: Option<&str>, path: &str, steps: u64) -> Option<Location> {
    Some(Location::Relative { topic: topic.map(|t| t.to_string()), path: path.to_string(), steps })
}

fn absolute(short: &str) -> Option<Location> {
    Some(Location::Absolute { short: short.to_string() })
}

#[test]
fn relative_locations_are_read() {
    assert_eq!(relative(None, "HEAD", 0), Location::parse("HEAD"));
    assert_eq!(relative(None, "main", 0), Location::parse("main"));
    assert_eq!(relative(Some("topic1"), "main", 0), Location::parse("topic1/main"));
    assert_eq!(relative(Some("topic1"), "HEAD", 10), Location::parse("topic1/HEAD:-10"));
    assert_eq!(relative(None, "HEAD", 0), Location::parse("HEAD:-0"));
    assert_eq!(relative(None, "main", 2), Location::parse("main:-2"));
    assert_eq!(relative(None, "main", 7), Location::parse("main:-007"));
    assert_eq!(relative(Some("a_b"), "c_1", 1), Location::parse("a_b/c_1:-1"));
    assert_eq!(relative(Some("44a0f45f"), "44a0f45f", 0), Location::parse("44a0f45f/44a0f45f"));
    assert_eq!(relative(None, "44a0f45f", 1), Location::parse("44a0f45f:-1"));
    assert_eq!(relative(None, "44a0f45f2", 0), Location::parse("44a0f45f2"));
    assert_eq!(relative(None, "44a0f45g", 0), Location::parse("44a0f45g"));
}

#[test]
fn absolute_locations_are_read() {
    assert_eq!(absolute("44a0f45f"), Location::parse("44a0f45f"));
    assert_eq!(absolute("44A0F45F"), Location::parse("44A0F45F"));
    assert_eq!(absolute("00000000"), Location::parse("00000000"));
    assert_eq!(absolute("44a0f45f"), Location::parse("44a0f45f-22b6-4675-a277-e196d8881ca8"));
    assert_eq!(absolute("44a0F45f"), Location::parse("44a0F45f-22B6-4675-A277-E196D8881CA8"));
}

#[test]
fn other_expressions_are_no_locations() {
    let wrong = [
        "",
        " ",
        "tata:toto",
        "tata:+1",
        "tata:-",
        "tata:-1a",
        "tata:-1:-2",
        "tata:--1",
        "tata :-1",
        "44a0f45f-22b6",
        "44a0f45f-22b6-4675-a277-e196d8881ca",
        "44a0f45f-22b6-4675-a277-e196d8881ca8a",
        "44a0f45f-22b6-4675-a277e-196d8881ca8",
        "44a0f45f-22b6-4675-a277-e196d8881cag",
        "44a0f45f22b64675a277e196d8881ca8-abc",
        "tata/toto/tete",
        "/main",
        "topic/",
        "topic/:-1",
        "a-b",
        "a.b",
        "HEAD\n",
        "\nHEAD",
        "main:-1\n",
    ];
    for expression in wrong {
        assert_eq!(None, Location::parse(expression), "{:?}", expression);
    }
}

#[test]
fn steps_fit_in_64_bits() {
    assert_eq!(
        relative(None, "main", u64::MAX),
        Location::parse("main:-18446744073709551615")
    );
    assert_eq!(
        relative(None, "main", u64::MAX),
        Location::parse("main:-0000018446744073709551615")
    );
    assert_eq!(None, Location::parse("main:-18446744073709551616"));
    assert_eq!(None, Location::parse("main:-18446744073709551620"));
    assert_eq!(None, Location::parse("main:-99999999999999999999999999"));
    assert_eq!(relative(None, "main", 1844674407370955161), Location::parse("main:-1844674407370955161"));
}

#[test]
fn names_hold_the_word_characters_of_unicode() {
    assert_eq!(relative(None, "caf\u{e9}", 0), Location::parse("caf\u{e9}"));
    assert_eq!(
        relative(Some("\u{4e2d}\u{6587}"), "\u{0440}\u{0443}\u{0441}", 3),
        Location::parse("\u{4e2d}\u{6587}/\u{0440}\u{0443}\u{0441}:-3")
    );
    assert_eq!(relative(None, "\u{0663}", 0), Location::parse("\u{0663}"));
    assert_eq!(None, Location::parse("a\u{2014}b"));
    assert_eq!(None, Location::parse("\u{1F600}"));
    assert_eq!(None, Location::parse("main:-\u{0663}"));
    assert!(is_word_char('\u{e9}'));
    assert!(is_word_char('_'));
    assert!(is_word_char('\u{0301}'));
    assert!(!is_word_char('\u{2014}'));
    assert!(!is_word_char('\u{a0}'));
    assert!(!is_word_char('-'));
    assert!(!is_word_char('\u{7f}'));
}

#[test]
fn word_characters_of_ascii_are_letters_digits_and_underscore() {
    for code in 0u8..128 {
        let c = code as char;
        assert_eq!(c.is_ascii_alphanumeric() || c == '_', is_word_char(c), "{:?}", c);
        assert_eq!(c.is_ascii_hexdigit(), is_hex_char(c), "{:?}", c);
    }
    assert!(!is_hex_char('\u{ff11}'));
}

#[test]
fn locations_are_those_of_the_two_patterns() {
    let relative_pattern =
        Regex::new(r"^(?:(?P<topic>\w+)/)?(?P<path>\w+)(?::-(?P<modifier>\d+))?$").unwrap();
    let absolute_pattern = Regex::new(
        r"^(?P<subuuid>[[:xdigit:]]{8})(?:(?:-[[:xdigit:]]{4}){3}-[[:xdigit:]]{12})?$",
    )
    .unwrap();
    let expressions = [
        "HEAD", "main", "whatever", "topic1/main", "topic1/HEAD", "topic1/whatever",
        "whatever/main", "HEAD:-0", "main:-2", "topic1/main:-3", "topic1/HEAD:-10",
        "topic1/whatever:-1", "whatever/main:-0", "44a0f45f",
        "44a0f45f-22b6-4675-a277-e196d8881ca8", "", "tata:toto", "tata:+1", "44a0f45f-22b6",
        "tata/toto/tete", "a/b:-12", "a:-", "a:-x", "/a", "a/", "a//b", "a:b", "a:-1:-1",
        "caf\u{e9}/\u{4e2d}:-4", "a\u{2014}b", "_", "a b", "A0B1C2D3", "A0B1C2D", "A0B1C2D3E",
        "g0b1c2d3", "44A0F45F-22B6-4675-A277-E196D8881CA8", "44a0f45f-22b6-4675-a277-e196d8881ca",
        "44a0f45f_22b6_4675_a277_e196d8881ca8", "HEAD\n", "x\u{0301}", "\u{200d}", "1/2:-3",
    ];
    for expression in expressions {
        let parsed = Location::parse(expression);
        if absolute_pattern.is_match(expression) {
            let found = absolute_pattern.captures(expression).unwrap();
            assert_eq!(absolute(&found["subuuid"]), parsed, "{:?}", expression);
        } else if relative_pattern.is_match(expression) {
            let found = relative_pattern.captures(expression).unwrap();
            let steps = found.name("modifier").map_or(0, |m| m.as_str().parse::<u64>().unwrap());
            assert_eq!(
                relative(found.name("topic").map(|t| t.as_str()), &found["path"], steps),
                parsed,
                "{:?}",
                expression
            );
        } else {
            assert_eq!(None, parsed, "{:?}", expression);
        }
    }
}
