use patchbay::cli::{is_whitespace, parse_channel, split_args, trim_matches};
use patchbay::error::PatchbayError;
use patchbay::Action;

#[test]
fn split() {
    let s =
        "These are whitespace and \"quote delimited\" tokens with \'double and single\' quotes";
    assert_eq!(
        split_args(s),
        [
            "These",
            "are",
            "whitespace",
            "and",
            "quote delimited",
            "tokens",
            "with",
            "double and single",
            "quotes",
        ]
    );
}

#[test]
fn split_of_nothing_is_one_empty_token() {
    assert_eq!(split_args(""), [""]);
}

#[test]
fn split_keeps_empty_tokens_between_adjacent_separators() {
    assert_eq!(split_args("a  b "), ["a", "", "b", ""]);
}

#[test]
fn split_matches_the_standard_closure_split() {
    for s in [
        "connect 'USB Audio' 0 \"Built-in Output\" 1",
        "save \"my file.json",
        "'\"nested\"' \"'other'\"",
        "tab\tseparated\u{a0}and\u{3000}wide",
        "it's a 'b c'",
    ] {
        let mut quoted = false;
        let expected: Vec<&str> = s
            .split(|c: char| {
                if c == '"' || c == '\'' {
                    quoted = !quoted;
                }
                !quoted && c.is_whitespace()
            })
            .map(|t| t.trim_matches('"'))
            .map(|t| t.trim_matches('\''))
            .collect();
        assert_eq!(split_args(s), expected);
    }
}

#[test]
fn trim_matches_strips_both_ends_only() {
    assert_eq!(trim_matches("\"\"a\"b\"", '"'), "a\"b");
    assert_eq!(trim_matches("''''", '\''), "");
    assert_eq!(trim_matches("plain", '"'), "plain");
}

#[test]
fn whitespace_agrees_with_the_standard_library() {
    let mut n: u32 = 0;
    while n <= 0x11_0000 {
        if let Some(c) = char::from_u32(n) {
            assert_eq!(is_whitespace(c), c.is_whitespace());
        }
        n += 1;
    }
}

#[test]
fn channel_numbers_are_read_as_the_standard_library_reads_them() {
    for text in [
        "0", "3", "+7", "007", "65535", "65536", "99999999999999999999", "", "+", "-1", " 1", "1 ",
        "1a", "a1", "++1", "٣", "4294967296", "065535", "+65535", "+65536",
    ] {
        assert_eq!(parse_channel(text), text.parse::<u16>().ok());
    }
}

fn parts(command: &str, values: &[&str]) -> Result<Action, PatchbayError> {
    Action::from_parts(command, &values.iter().map(|v| v.to_string()).collect())
}

#[test]
fn commands_without_arguments() {
    assert_eq!(parts("list", &[]), Ok(Action::List));
    assert_eq!(parts("print", &[]), Ok(Action::Print));
    assert_eq!(parts("start", &[]), Ok(Action::Start));
    assert_eq!(parts("stop", &[]), Ok(Action::Stop));
    assert_eq!(parts("quit", &[]), Ok(Action::Quit));
}

#[test]
fn commands_with_one_argument() {
    assert_eq!(parts("host", &["ALSA"]), Ok(Action::Host("ALSA".to_string())));
    assert_eq!(parts("disconnect", &["uuid"]), Ok(Action::Disconnect("uuid".to_string())));
    assert_eq!(parts("save", &["foo/bar"]), Ok(Action::Save("foo/bar".to_string())));
    assert_eq!(parts("load", &["foo/bar"]), Ok(Action::Load("foo/bar".to_string())));
}

#[test]
fn connect_reads_both_channels() {
    assert_eq!(
        parts("connect", &["d1", "3", "d2", "2"]),
        Ok(Action::Connect("d1".to_string(), 3, "d2".to_string(), 2))
    );
}

#[test]
fn connect_with_a_bad_channel_is_refused() {
    assert_eq!(parts("connect", &["d1", "x", "d2", "2"]), Err(PatchbayError::InvalidChannel));
    assert_eq!(parts("connect", &["d1", "3", "d2", "65536"]), Err(PatchbayError::InvalidChannel));
}

#[test]
fn too_few_arguments_are_refused() {
    assert_eq!(parts("host", &[]), Err(PatchbayError::MissingArgument));
    assert_eq!(parts("connect", &["d1", "3", "d2"]), Err(PatchbayError::MissingArgument));
    assert_eq!(parts("disconnect", &[]), Err(PatchbayError::MissingArgument));
    assert_eq!(parts("save", &[]), Err(PatchbayError::MissingArgument));
    assert_eq!(parts("load", &[]), Err(PatchbayError::MissingArgument));
}

#[test]
fn an_alias_is_not_a_command_name() {
    assert_eq!(parts("ls", &[]), Err(PatchbayError::UnknownCommand));
    assert_eq!(parts("", &[]), Err(PatchbayError::UnknownCommand));
    assert_eq!(parts("List", &[]), Err(PatchbayError::UnknownCommand));
}

#[test]
fn channel_numbers_round_about_the_limit() {
    for n in 0u32..70000 {
        let text = n.to_string();
        assert_eq!(parse_channel(&text), text.parse::<u16>().ok());
        let signed = format!("+{}", n);
        assert_eq!(parse_channel(&signed), signed.parse::<u16>().ok());
        let padded = format!("000{}", n);
        assert_eq!(parse_channel(&padded), padded.parse::<u16>().ok());
    }
}

#[test]
fn short_texts_are_channel_numbers_only_if_the_standard_library_says_so() {
    let alphabet = ['0', '1', '9', '+', '-', ' ', 'a', '٣', '６'];
    let mut texts = vec![String::new()];
    for _ in 0..4 {
        let mut longer = Vec::new();
        for text in &texts {
            for c in alphabet {
                let mut next = text.clone();
                next.push(c);
                longer.push(next);
            }
        }
        for text in &longer {
            assert_eq!(parse_channel(text), text.parse::<u16>().ok());
        }
        texts = longer;
    }
}

#[test]
fn quotes_inside_a_token_are_kept() {
    assert_eq!(split_args("a\"b c\"d"), ["a\"b c\"d"]);
    assert_eq!(split_args("\"a b"), ["a b"]);
    assert_eq!(split_args("a b\""), ["a", "b"]);
    assert_eq!(split_args("\"\" ''"), ["", ""]);
    assert_eq!(split_args("'\"x\"'"), ["\"x\""]);
    assert_eq!(split_args("\"'x'\""), ["x"]);
}
