use command_dispatch::text::{chars_of, is_whitespace, scan_run, starts_with};
use command_dispatch::tokenizer::{tokenize, ParsedArgs, Tokenized};

fn matched(name: &str, rest: &str) -> Tokenized {
    Tokenized::Matched { command_name: name.to_string(), raw_remainder: rest.to_string() }
}

#[test]
fn tokenize_splits_name_and_remainder() {
    assert_eq!(tokenize("!!say hello world", "!!"), matched("say", "hello world"));
}

#[test]
fn tokenize_bare_prefix_gives_empty_name() {
    assert_eq!(tokenize("!!", "!!"), matched("", ""));
}

#[test]
fn tokenize_without_prefix_is_no_match() {
    assert_eq!(tokenize("say hello", "!!"), Tokenized::NoMatch);
    assert_eq!(tokenize("!say hello", "!!"), Tokenized::NoMatch);
    assert_eq!(tokenize("", "!!"), Tokenized::NoMatch);
    assert_eq!(tokenize("!", "!!"), Tokenized::NoMatch);
}

#[test]
fn tokenize_does_not_trim_before_the_prefix() {
    assert_eq!(tokenize(" !!say hello", "!!"), Tokenized::NoMatch);
}

#[test]
fn tokenize_prefix_is_case_sensitive() {
    assert_eq!(tokenize("Bot say hi", "bot "), Tokenized::NoMatch);
    assert_eq!(tokenize("bot say hi", "bot "), matched("say", "hi"));
}

#[test]
fn tokenize_name_without_remainder() {
    assert_eq!(tokenize("!!repeat", "!!"), matched("repeat", ""));
    assert_eq!(tokenize("!!repeat   ", "!!"), matched("repeat", ""));
}

#[test]
fn tokenize_whitespace_behind_prefix_gives_empty_name() {
    assert_eq!(tokenize("!! say hello", "!!"), matched("", "say hello"));
}

#[test]
fn tokenize_keeps_remainder_verbatim() {
    assert_eq!(tokenize("!!say \t hello   world  ", "!!"), matched("say", "hello   world  "));
    assert_eq!(tokenize("!!say\nfirst\nsecond", "!!"), matched("say", "first\nsecond"));
}

#[test]
fn tokenize_with_empty_prefix_matches_everything() {
    assert_eq!(tokenize("say hello", ""), matched("say", "hello"));
    assert_eq!(tokenize("", ""), matched("", ""));
}

#[test]
fn tokenize_counts_characters_not_bytes() {
    assert_eq!(tokenize("！！鳴く\u{3000}にゃー にゃー", "！！"), matched("鳴く", "にゃー にゃー"));
    assert_eq!(tokenize("é!sag äö ü", "é!"), matched("sag", "äö ü"));
}

#[test]
fn whitespace_agrees_with_std() {
    let mut code: u32 = 0;
    while code <= 0x10FFFF {
        if let Some(c) = char::from_u32(code) {
            assert_eq!(is_whitespace(c), c.is_whitespace(), "U+{:04X}", code);
        }
        code += 1;
    }
}

#[test]
fn whitespace_examples() {
    assert!(is_whitespace(' '));
    assert!(is_whitespace('\t'));
    assert!(is_whitespace('\n'));
    assert!(is_whitespace('\u{3000}'));
    assert!(is_whitespace('\u{A0}'));
    assert!(!is_whitespace('a'));
    assert!(!is_whitespace('\u{200B}'));
    assert!(!is_whitespace('\u{1F}'));
}

#[test]
fn chars_of_gives_every_character() {
    assert_eq!(chars_of("aé猫"), vec!['a', 'é', '猫']);
    assert_eq!(chars_of(""), Vec::<char>::new());
}

#[test]
fn starts_with_compares_characters() {
    assert!(starts_with(&chars_of("!!say"), &chars_of("!!")));
    assert!(starts_with(&chars_of("!!"), &chars_of("!!")));
    assert!(starts_with(&chars_of("abc"), &chars_of("")));
    assert!(!starts_with(&chars_of("!"), &chars_of("!!")));
    assert!(!starts_with(&chars_of("!?say"), &chars_of("!!")));
}

#[test]
fn scan_run_finds_the_end_of_a_run() {
    let text = chars_of("ab  cd");
    assert_eq!(scan_run(&text, 0, false), 2);
    assert_eq!(scan_run(&text, 2, true), 4);
    assert_eq!(scan_run(&text, 4, false), 6);
    assert_eq!(scan_run(&text, 6, false), 6);
    assert_eq!(scan_run(&text, 0, true), 0);
    assert_eq!(scan_run(&text, 2, false), 2);
}

#[test]
fn args_rest_is_the_raw_remainder() {
    let args = ParsedArgs::new("  hello   world ".to_string());
    assert_eq!(args.rest(), "  hello   world ");
    assert_eq!(ParsedArgs::new(String::new()).rest(), "");
}

#[test]
fn args_words_split_on_whitespace() {
    let args = ParsedArgs::new("hello   world\tfoo\u{3000}bar ".to_string());
    assert_eq!(args.words(), vec!["hello", "world", "foo", "bar"]);
}

#[test]
fn args_words_of_nothing() {
    assert_eq!(ParsedArgs::new(String::new()).words(), Vec::<String>::new());
    assert_eq!(ParsedArgs::new("  \n ".to_string()).words(), Vec::<String>::new());
}

#[test]
fn args_words_are_never_empty_and_hold_no_whitespace() {
    let args = ParsedArgs::new(" a  bb\n\nccc \t d".to_string());
    let found = args.words();
    assert_eq!(found.len(), 4);
    for word in &found {
        assert!(!word.is_empty());
        assert!(!word.chars().any(is_whitespace));
    }
}
