use novel_lang::chars::{whitespace, CharClass};
use novel_lang::parser;

fn every_char() -> impl Iterator<Item = char> {
    (0u32..=0x10FFFF).filter_map(char::from_u32)
}

#[test]
fn whitespace_is_the_unicode_property() {
    for c in every_char() {
        assert_eq!(whitespace(c), c.is_whitespace(), "{:?}", c);
    }
}

#[test]
fn classes_hold_what_they_name() {
    for c in every_char() {
        let line_break = c == '\r' || c == '\n';
        assert_eq!(CharClass::Blank.contains(c), c == ' ' || c == '\t');
        assert_eq!(CharClass::Space.contains(c), c == ' ' || c == '\t' || line_break);
        assert_eq!(CharClass::Identifier.contains(c), c.is_ascii_alphanumeric());
        assert_eq!(CharClass::Text.contains(c), !line_break && !"=[]".contains(c));
        assert_eq!(CharClass::Reference.contains(c), !line_break && !"=[]|".contains(c));
        assert_eq!(CharClass::Name.contains(c), !line_break);
    }
}

fn samples() -> Vec<&'static str> {
    vec![
        "",
        "abc",
        "abc def",
        "a1B2\u{e4}x",
        "  \t x",
        " \t\r\n\r \n x",
        "\n",
        "\r\n",
        "\rx",
        "\r",
        "x\n",
        "plain text | with = sign",
        "[[x]]",
        "\u{a0}x",
        "\u{e9}t\u{e9}",
        "0",
    ]
}

fn taken(input: &str, end: usize) -> String {
    input.chars().take(end).collect()
}

#[test]
fn identifier_agrees_with_alphanumeric1() {
    for input in samples() {
        let chars: Vec<char> = input.chars().collect();
        let ours = parser::identifier(&chars, 0).map(|(text, _)| text);
        let theirs = nom::character::complete::alphanumeric1::<&str, nom::error::Error<&str>>(input)
            .ok()
            .map(|(_, found)| found.to_string());
        assert_eq!(ours, theirs, "{:?}", input);
    }
}

#[test]
fn space_runs_agree_with_multispace0() {
    for input in samples() {
        let chars: Vec<char> = input.chars().collect();
        let ours = taken(input, parser::scan(&chars, 0, CharClass::Space));
        let (_, theirs) =
            nom::character::complete::multispace0::<&str, nom::error::Error<&str>>(input).unwrap();
        assert_eq!(ours, theirs, "{:?}", input);
    }
}

#[test]
fn blank_runs_agree_with_space0() {
    for input in samples() {
        let chars: Vec<char> = input.chars().collect();
        let ours = taken(input, parser::scan(&chars, 0, CharClass::Blank));
        let (_, theirs) =
            nom::character::complete::space0::<&str, nom::error::Error<&str>>(input).unwrap();
        assert_eq!(ours, theirs, "{:?}", input);
    }
}

#[test]
fn line_break_agrees_with_line_ending() {
    for input in samples() {
        let chars: Vec<char> = input.chars().collect();
        let ours = taken(input, parser::line_break(&chars, 0));
        let theirs = nom::character::complete::line_ending::<&str, nom::error::Error<&str>>(input)
            .map(|(_, found)| found)
            .unwrap_or("");
        assert_eq!(ours, theirs, "{:?}", input);
    }
}

#[test]
fn trimmed_agrees_with_trim() {
    for input in samples() {
        let chars: Vec<char> = input.chars().collect();
        assert_eq!(parser::trimmed(&chars, 0, chars.len()), input.trim(), "{:?}", input);
    }
    let input = "\u{2003}\u{3000} a \u{200b} b \u{85}\u{2028}";
    let chars: Vec<char> = input.chars().collect();
    assert_eq!(parser::trimmed(&chars, 0, chars.len()), input.trim());
    assert_eq!(parser::trimmed(&chars, 0, chars.len()), "a \u{200b} b");
}
