use playlist_sync::plex::matcher::character_replacement::{
    replace_characters, replace_in, replace_in_key,
};
use playlist_sync::plex::matcher::ComparisonKey;
use playlist_sync::text::{chars_of, contains, push_decimal, starts_with, string_of, trim};

fn chars(text: &str) -> Vec<char> {
    text.chars().collect()
}

#[test]
fn each_replacement_is_applied() {
    assert_eq!(replace_characters("don\u{2019}t"), "don't");
    assert_eq!(replace_characters("rock & roll"), "rock and roll");
    assert_eq!(replace_characters("jay-z"), "jay z");
    assert_eq!(replace_characters("(live)"), "live");
    assert_eq!(replace_characters("p.y.t."), "pyt");
}

#[test]
fn all_replacements_apply_to_one_text() {
    assert_eq!(
        replace_characters("a&b - c\u{2019}d (e.f.)"),
        "aandb   c'd ef"
    );
}

#[test]
fn other_characters_stay() {
    assert_eq!(replace_characters("plain text 123 '[]!"), "plain text 123 '[]!");
    assert_eq!(replace_characters(""), "");
    assert_eq!(replace_characters("beyonc\u{e9}"), "beyonc\u{e9}");
}

#[test]
fn character_replacement_is_idempotent_on_samples() {
    let samples = [
        "",
        "a&b",
        "&&&&",
        "don\u{2019}t stop - believin\u{2019} (live).",
        "((((",
        "and",
        "a-b-c",
        "....",
    ];
    for text in samples.iter() {
        let once = replace_characters(text);
        assert_eq!(replace_characters(&once), once, "{:?}", text);
    }
}

#[test]
fn replacements_apply_to_every_field_of_a_key() {
    let key = ComparisonKey::new("a&b", &vec!["jay-z".to_string(), "p.y.t.".to_string()]);
    let replaced = replace_in_key(&key);
    assert_eq!(replaced.track, chars("aandb"));
    assert_eq!(replaced.artist, vec![chars("jay z"), chars("pyt")]);
    assert_eq!(replace_in(&chars("(x)")), chars("x"));
}

#[test]
fn strings_and_characters_convert_both_ways() {
    assert_eq!(chars_of("h\u{e9}llo"), chars("h\u{e9}llo"));
    assert_eq!(string_of(&chars("h\u{e9}llo")), "h\u{e9}llo");
    assert_eq!(chars_of(""), Vec::<char>::new());
    assert_eq!(string_of(&Vec::new()), "");
}

#[test]
fn prefix_test_on_characters() {
    assert!(starts_with(&chars("hello world"), &chars("hello")));
    assert!(starts_with(&chars("hello"), &chars("hello")));
    assert!(starts_with(&chars("hello"), &chars("")));
    assert!(!starts_with(&chars("hello"), &chars("hello world")));
    assert!(!starts_with(&chars("hello"), &chars("help")));
    assert!(starts_with(&chars(""), &chars("")));
}

#[test]
fn substring_test_on_characters() {
    assert!(contains(&chars("an external hub"), &chars("external")));
    assert!(contains(&chars("external"), &chars("external")));
    assert!(contains(&chars("abc"), &chars("")));
    assert!(contains(&chars(""), &chars("")));
    assert!(!contains(&chars("extern"), &chars("external")));
    assert!(!contains(&chars("internal"), &chars("external")));
    assert!(contains(&chars("xxexternal"), &chars("external")));
}

#[test]
fn trim_removes_white_space_at_both_ends() {
    assert_eq!(trim(&chars("  sia \t\n")), chars("sia"));
    assert_eq!(trim(&chars("mark  ronson")), chars("mark  ronson"));
    assert_eq!(trim(&chars("   ")), chars(""));
    assert_eq!(trim(&chars("")), chars(""));
    assert_eq!(trim(&chars("\u{a0}x\u{2003}")), chars("x"));
    assert_eq!(trim(&chars(" a b ")), chars("a b"));
}

#[test]
fn numbers_are_written_in_decimal() {
    let mut out = String::from("n=");
    push_decimal(0, &mut out);
    assert_eq!(out, "n=0");
    let mut out = String::new();
    push_decimal(50, &mut out);
    assert_eq!(out, "50");
    let mut out = String::new();
    push_decimal(-7, &mut out);
    assert_eq!(out, "-7");
    let mut out = String::new();
    push_decimal(i32::MAX, &mut out);
    assert_eq!(out, "2147483647");
    let mut out = String::new();
    push_decimal(i32::MIN, &mut out);
    assert_eq!(out, "-2147483648");
    let mut out = String::new();
    push_decimal(1000, &mut out);
    assert_eq!(out, "1000");
}
