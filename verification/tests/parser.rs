use novel_lang::chars::CharClass;
use novel_lang::grammar::Version;
use novel_lang::metadata::Metadata;
use novel_lang::parser;
use novel_lang::parser::ParseError;
use novel_lang::types::{File, Reference, RichText, RichTextPart, Scene, SceneItem, Value};

const V: Version = Version::DoubleBracket;

fn chars(s: &str) -> Vec<char> {
    s.chars().collect()
}

fn text(s: &str) -> RichText {
    RichText(vec![RichTextPart::Text(s.to_string())])
}

fn reference(referent: &str, alias: Option<&str>) -> Reference {
    Reference { referent: referent.to_string(), alias: alias.map(|a| a.to_string()) }
}

fn only_scene(input: &str) -> Scene {
    let mut parsed = parser::file(input).unwrap();
    assert_eq!(parsed.scenes.len(), 1);
    parsed.scenes.pop().unwrap()
}

fn items_of(body: &str) -> Vec<SceneItem> {
    only_scene(&format!("== S ==\n{}", body)).items
}

#[test]
fn empty_input_is_an_empty_file() {
    let expected = File { title: None, subtitle: None, frontmatter: None, scenes: vec![] };
    assert_eq!(parser::file(""), Ok(expected));
}

#[test]
fn whitespace_alone_is_an_empty_file() {
    let expected = File { title: None, subtitle: None, frontmatter: None, scenes: vec![] };
    assert_eq!(parser::file(" \n\t\r\n  "), Ok(expected));
}

#[test]
fn frontmatter_alone_is_a_file_without_scenes() {
    let parsed = parser::file("---\nT: My Title\nS: Sub\n---\n").unwrap();
    assert!(parsed.scenes.is_empty());
    assert_eq!(parsed.title, None);
    assert_eq!(parsed.subtitle, None);
    let frontmatter = parsed.frontmatter.unwrap();
    assert_eq!(frontmatter.len(), 2);
    assert_eq!(frontmatter.get("T"), Some(&Value::RichText(text("My Title"))));
    assert_eq!(frontmatter.get("S"), Some(&Value::RichText(text("Sub"))));
    assert_eq!(frontmatter.get("X"), None);
}

#[test]
fn frontmatter_may_be_empty_and_end_the_input() {
    let parsed = parser::file("---\n---").unwrap();
    assert_eq!(parsed.frontmatter, Some(Metadata::new()));
    assert!(parsed.scenes.is_empty());
    let parsed = parser::file("---\r\nT: x\r\n---\r\n").unwrap();
    assert_eq!(parsed.frontmatter.unwrap().get("T"), Some(&Value::RichText(text("x"))));
}

#[test]
fn unclosed_frontmatter_fails_the_whole_file() {
    assert_eq!(parser::file("---\nT: My Title\n"), Err(ParseError {}));
    assert_eq!(parser::file("---\nT: My Title\n== Scene ==\nfoo"), Err(ParseError {}));
    assert_eq!(parser::file("---"), Err(ParseError {}));
    assert_eq!(parser::file("---\n"), Err(ParseError {}));
    assert_eq!(parser::file("---\nT: x\n\n---\n"), Err(ParseError {}));
    assert_eq!(parser::file("---\nT: x\n ---\n"), Err(ParseError {}));
    assert_eq!(parser::file("---\nT: x\n----\n"), Err(ParseError {}));
}

#[test]
fn a_fence_is_a_line_of_its_own() {
    let parsed = parser::file("--- a title").unwrap();
    assert_eq!(parsed.frontmatter, None);
    assert_eq!(parsed.title, Some("--- a title".to_string()));
}

#[test]
fn last_entry_of_a_key_wins() {
    let parsed = parser::file("---\nT: first\nS: sub\nT: second\n---\n").unwrap();
    let frontmatter = parsed.frontmatter.unwrap();
    assert_eq!(frontmatter.len(), 2);
    assert_eq!(frontmatter.get("T"), Some(&Value::RichText(text("second"))));
    assert_eq!(frontmatter.get("S"), Some(&Value::RichText(text("sub"))));
}

#[test]
fn entry_with_empty_value_and_padding() {
    let parsed = parser::file("---\nkey:\nother \t:\t  padded \n---\n").unwrap();
    let frontmatter = parsed.frontmatter.unwrap();
    assert_eq!(frontmatter.get("key"), Some(&Value::RichText(RichText(vec![]))));
    assert_eq!(frontmatter.get("other"), Some(&Value::RichText(text("padded "))));
}

#[test]
fn title_and_subtitle_are_free_form_lines() {
    let parsed = parser::file("My [Play] = 1\nA subtitle\n\n== S ==\nHello").unwrap();
    assert_eq!(parsed.title, Some("My [Play] = 1".to_string()));
    assert_eq!(parsed.subtitle, Some("A subtitle".to_string()));
    assert_eq!(parsed.frontmatter, None);
    assert_eq!(parsed.scenes.len(), 1);
}

#[test]
fn title_without_subtitle() {
    let parsed = parser::file("Title\n\n== S ==\nHello").unwrap();
    assert_eq!(parsed.title, Some("Title".to_string()));
    assert_eq!(parsed.subtitle, None);
    assert_eq!(parsed.scenes.len(), 1);
    let parsed = parser::file("Title\r\n== S ==\nHello").unwrap();
    assert_eq!(parsed.title, Some("Title".to_string()));
    assert_eq!(parsed.subtitle, None);
    let parsed = parser::file("Only a title").unwrap();
    assert_eq!(parsed.title, Some("Only a title".to_string()));
    assert!(parsed.scenes.is_empty());
}

#[test]
fn title_after_frontmatter() {
    let parsed = parser::file("---\na: b\n---\nTitle\nSub\n== S ==\nx").unwrap();
    assert_eq!(parsed.title, Some("Title".to_string()));
    assert_eq!(parsed.subtitle, Some("Sub".to_string()));
    assert_eq!(parsed.frontmatter.unwrap().len(), 1);
}

#[test]
fn a_blank_first_line_is_no_title() {
    let parsed = parser::file("\n== S ==\nHello").unwrap();
    assert_eq!(parsed.title, None);
    assert_eq!(parsed.scenes.len(), 1);
    assert_eq!(parser::file("\nTitle\n== S ==\nHello"), Err(ParseError {}));
    assert_eq!(parser::file("One\nTwo\nThree\n== S ==\nHello"), Err(ParseError {}));
}

#[test]
fn named_scene_with_one_item() {
    let scene = only_scene("== Name ==\nHello");
    assert_eq!(scene.name, Some("Name".to_string()));
    assert_eq!(scene.items, vec![SceneItem::ActionBlock(text("Hello"))]);
    assert_eq!(scene.meta, Metadata::new());
}

#[test]
fn header_without_content_has_no_name() {
    let scene = only_scene("====\nHello");
    assert_eq!(scene.name, None);
    assert_eq!(scene.items.len(), 1);
}

#[test]
fn header_name_is_trimmed() {
    assert_eq!(
        only_scene("==\t The  Long Name \u{a0}==\nx").name,
        Some("The  Long Name".to_string())
    );
    assert_eq!(only_scene("==   ==\nx").name, Some("".to_string()));
    assert_eq!(only_scene("==a==\r\nx").name, Some("a".to_string()));
    assert_eq!(only_scene("== a = b ==\nx").name, Some("a = b".to_string()));
}

#[test]
fn header_stands_on_one_line() {
    assert_eq!(parser::file("== Name\n==\nHello"), Err(ParseError {}));
    assert_eq!(parser::file("== Name =="), Err(ParseError {}));
    assert_eq!(parser::file("== Name == \nHello"), Err(ParseError {}));
    assert_eq!(parser::file("== Name ===\nHello"), Err(ParseError {}));
    assert_eq!(parser::file("= Name ==\nHello").map(|f| f.scenes.len()), Ok(0));
}

#[test]
fn scene_without_items_fails() {
    assert_eq!(parser::file("== Name ==\n"), Err(ParseError {}));
    assert_eq!(parser::file("== Name ==\n\n\n"), Err(ParseError {}));
    assert_eq!(parser::file("== Name ==\nkey: value\n"), Err(ParseError {}));
    assert_eq!(parser::file("== A ==\n== B ==\nx"), Err(ParseError {}));
}

#[test]
fn scene_metadata_follows_the_header() {
    let scene = only_scene("== S ==\nSummary: They meet\nPlace: [[Rome|the city]]\n\nHello");
    assert_eq!(scene.meta.len(), 2);
    assert_eq!(scene.meta.get("Summary"), Some(&Value::RichText(text("They meet"))));
    assert_eq!(
        scene.meta.get("Place"),
        Some(&Value::RichText(RichText(vec![RichTextPart::Reference(reference(
            "Rome",
            Some("the city")
        ))])))
    );
    assert_eq!(scene.items, vec![SceneItem::ActionBlock(text("Hello"))]);
}

#[test]
fn metadata_needs_a_key_and_a_colon() {
    let scene = only_scene("== S ==\nHello world: x");
    assert_eq!(scene.meta.len(), 0);
    assert_eq!(scene.items, vec![SceneItem::ActionBlock(text("Hello world: x"))]);
    let scene = only_scene("== S ==\n\nkey: x");
    assert_eq!(scene.meta.len(), 0);
    assert_eq!(scene.items, vec![SceneItem::ActionBlock(text("key: x"))]);
}

#[test]
fn tagged_action_line_in_a_scene() {
    assert_eq!(
        items_of("#BGM some text"),
        vec![SceneItem::TaggedAction("BGM".to_string(), text("some text"))]
    );
    assert_eq!(
        items_of("#sfx2 \t"),
        vec![SceneItem::TaggedAction("sfx2".to_string(), RichText(vec![]))]
    );
}

#[test]
fn a_tag_needs_a_blank_behind_it() {
    assert_eq!(items_of("#BGM"), vec![SceneItem::ActionBlock(text("#BGM"))]);
    assert_eq!(items_of("# BGM x"), vec![SceneItem::ActionBlock(text("# BGM x"))]);
    assert_eq!(items_of("#B-G x"), vec![SceneItem::ActionBlock(text("#B-G x"))]);
}

#[test]
fn comment_takes_the_rest_of_the_line() {
    assert_eq!(items_of("// a secret"), vec![SceneItem::SpoilerBlock(text("a secret"))]);
    assert_eq!(items_of("//"), vec![SceneItem::SpoilerBlock(RichText(vec![]))]);
    assert_eq!(
        items_of("//a\n// b"),
        vec![SceneItem::SpoilerBlock(text("a")), SceneItem::SpoilerBlock(text("b"))]
    );
}

#[test]
fn dialogue_block_of_two_lines() {
    assert_eq!(
        items_of("[Alice]\nHello\nGoodbye"),
        vec![SceneItem::DialogueBlock {
            speaker: reference("Alice", None),
            block: vec![text("Hello"), text("Goodbye")],
        }]
    );
}

#[test]
fn dialogue_speaker_may_have_an_alias() {
    assert_eq!(
        items_of("[Alice Smith|A]\r\n(softly)\r\nHello"),
        vec![SceneItem::DialogueBlock {
            speaker: reference("Alice Smith", Some("A")),
            block: vec![text("(softly)"), text("Hello")],
        }]
    );
}

#[test]
fn dialogue_needs_a_line() {
    assert_eq!(parser::file("== S ==\n[Alice]"), Err(ParseError {}));
    assert_eq!(parser::file("== S ==\n[Alice]\n"), Err(ParseError {}));
    assert_eq!(parser::file("== S ==\n[Alice]\n\nHello"), Err(ParseError {}));
    assert_eq!(parser::file("== S ==\n[Alice] Hello"), Err(ParseError {}));
    assert_eq!(parser::file("== S ==\n[]\nHello"), Err(ParseError {}));
}

#[test]
fn a_blank_line_ends_a_block() {
    assert_eq!(
        items_of("[Alice]\nHello\n\nShe leaves.\nThe door shuts.\n\n\n#BGM rain\n"),
        vec![
            SceneItem::DialogueBlock {
                speaker: reference("Alice", None),
                block: vec![text("Hello")],
            },
            SceneItem::ActionBlock(RichText(vec![
                RichTextPart::Text("She leaves.".to_string()),
                RichTextPart::Text("The door shuts.".to_string()),
            ])),
            SceneItem::TaggedAction("BGM".to_string(), text("rain")),
        ]
    );
}

#[test]
fn a_block_takes_the_lines_that_follow_whatever_they_start_with() {
    assert_eq!(
        items_of("Hello\n#BGM rain\n// note"),
        vec![SceneItem::ActionBlock(RichText(vec![
            RichTextPart::Text("Hello".to_string()),
            RichTextPart::Text("#BGM rain".to_string()),
            RichTextPart::Text("// note".to_string()),
        ]))]
    );
    assert_eq!(
        items_of("Hello\n   \nmore"),
        vec![SceneItem::ActionBlock(RichText(vec![
            RichTextPart::Text("Hello".to_string()),
            RichTextPart::Text("   ".to_string()),
            RichTextPart::Text("more".to_string()),
        ]))]
    );
}

#[test]
fn items_are_separated_by_line_feeds() {
    assert_eq!(
        items_of("// a\n\n   \t\r\n  // b"),
        vec![SceneItem::SpoilerBlock(text("a")), SceneItem::SpoilerBlock(text("b"))]
    );
    assert_eq!(parser::file("== S ==\n// a\r\n// b"), Err(ParseError {}));
}

#[test]
fn inline_reference_with_alias() {
    let expected = RichText(vec![RichTextPart::Reference(reference("Alice", Some("A")))]);
    let items = items_of("[[Alice|A]]");
    assert_eq!(items, vec![SceneItem::ActionBlock(expected)]);
    match &items[0] {
        SceneItem::ActionBlock(found) => assert_eq!(found.as_string(), "A"),
        other => panic!("{:?}", other),
    }
}

#[test]
fn inline_references_among_text() {
    assert_eq!(
        items_of("See [[Bob]] and [[Carol|her]]| now"),
        vec![SceneItem::ActionBlock(RichText(vec![
            RichTextPart::Text("See ".to_string()),
            RichTextPart::Reference(reference("Bob", None)),
            RichTextPart::Text(" and ".to_string()),
            RichTextPart::Reference(reference("Carol", Some("her"))),
            RichTextPart::Text("| now".to_string()),
        ]))]
    );
}

#[test]
fn malformed_references_end_the_text() {
    assert_eq!(parser::file("== S ==\nSee [[Bob"), Err(ParseError {}));
    assert_eq!(parser::file("== S ==\nSee [[Bob|]]"), Err(ParseError {}));
    assert_eq!(parser::file("== S ==\nSee [[a|b|c]]"), Err(ParseError {}));
    assert_eq!(parser::file("== S ==\nSee [[a[b]]"), Err(ParseError {}));
    assert_eq!(parser::file("== S ==\nSee [[]]"), Err(ParseError {}));
    assert_eq!(parser::file("== S ==\nSee ]"), Err(ParseError {}));
}

#[test]
fn scenes_follow_one_another() {
    let input = "\n\n== One ==\nfirst\n\n====\nsecond\n\n\n== Three ==\r\n// x\n  \n";
    let parsed = parser::file(input).unwrap();
    assert_eq!(parsed.scenes.len(), 3);
    assert_eq!(parsed.scenes[0].name, Some("One".to_string()));
    assert_eq!(parsed.scenes[0].items, vec![SceneItem::ActionBlock(text("first"))]);
    assert_eq!(parsed.scenes[1].name, None);
    assert_eq!(parsed.scenes[1].items, vec![SceneItem::ActionBlock(text("second"))]);
    assert_eq!(parsed.scenes[2].name, Some("Three".to_string()));
    assert_eq!(parsed.scenes[2].items, vec![SceneItem::SpoilerBlock(text("x"))]);
}

#[test]
fn trailing_content_is_an_error() {
    assert_eq!(parser::file("== S ==\nHello\n\n= stray"), Err(ParseError {}));
    assert_eq!(parser::file("== S ==\nx = 5"), Err(ParseError {}));
    assert_eq!(parser::file("== S ==\nHello\r\n\r\nmore"), Err(ParseError {}));
}

#[test]
fn text_outside_ascii_is_kept() {
    let scene = only_scene(
        "== Szene \u{e4}\u{1f600} ==\n[\u{c9}lise]\n\
         Gr\u{fc}\u{df} dich \u{2014} [[\u{6771}\u{4eac}|T\u{14d}ky\u{14d}]]",
    );
    assert_eq!(scene.name, Some("Szene \u{e4}\u{1f600}".to_string()));
    assert_eq!(
        scene.items,
        vec![SceneItem::DialogueBlock {
            speaker: reference("\u{c9}lise", None),
            block: vec![RichText(vec![
                RichTextPart::Text("Gr\u{fc}\u{df} dich \u{2014} ".to_string()),
                RichTextPart::Reference(reference("\u{6771}\u{4eac}", Some("T\u{14d}ky\u{14d}"))),
            ])],
        }]
    );
}

#[test]
fn parsing_twice_gives_equal_files() {
    let input = "---\nT: x\n---\nTitle\n== A ==\nk: v\n\n[B|b]\nhi [[c]]\n\n#t u\n";
    let first = parser::file(input);
    let second = parser::file(input);
    assert!(first.is_ok());
    assert_eq!(first, second);
    assert_eq!(parser::file("== A"), parser::file("== A"));
}

#[test]
fn parse_of_characters_agrees_with_parse_of_text() {
    let input = "== A ==\nHello [[B]]";
    assert_eq!(parser::parse(V, &chars(input)), parser::file(input));
    assert_eq!(novel_lang::strings::chars_of("a\u{e4}b"), vec!['a', '\u{e4}', 'b']);
}

#[test]
fn rules_stop_where_they_should() {
    let s = chars("ab1_ [[x|y]]z\r\nq");
    assert_eq!(parser::identifier(&s, 0), Some(("ab1".to_string(), 3)));
    assert_eq!(parser::identifier(&s, 3), None);
    assert_eq!(parser::scan(&s, 3, CharClass::Text), 5);
    assert_eq!(parser::scan(&s, 4, CharClass::Blank), 5);
    assert_eq!(parser::scan(&s, 5, CharClass::Blank), 5);
    assert_eq!(
        parser::rich_text_part_reference(V, &s, 5),
        Some((RichTextPart::Reference(reference("x", Some("y"))), 12))
    );
    assert_eq!(parser::rich_text_part_reference(V, &s, 6), None);
    assert_eq!(parser::rich_text_part_text(&s, 5), None);
    assert_eq!(parser::reference(&s, 7), Some((reference("x", Some("y")), 10)));
    assert_eq!(parser::reference(&s, 9), Some((reference("y", None), 10)));
    assert_eq!(parser::reference(&s, 10), None);
    assert_eq!(parser::line_break(&s, 13), 2);
    assert_eq!(parser::line_break(&s, 14), 1);
    assert_eq!(parser::line_break(&s, 12), 0);
    assert_eq!(parser::line_break(&s, 16), 0);
    assert_eq!(parser::line(&s, 0), ("ab1_ [[x|y]]z".to_string(), 15));
    assert_eq!(parser::line(&s, 15), ("q".to_string(), 16));
    assert_eq!(parser::line(&s, 16), ("".to_string(), 16));
    let (found, end) = parser::rich_text(V, &s, 0);
    assert_eq!(end, 13);
    assert_eq!(found.0.len(), 3);
    assert_eq!(parser::rich_text(V, &s, 13), (RichText(vec![]), 13));
    assert_eq!(novel_lang::strings::text_of(&s, 1, 3), "b1");
    assert_eq!(parser::trimmed(&s, 3, 5), "_");
    assert_eq!(parser::trimmed(&s, 4, 5), "");
    assert_eq!(parser::trimmed(&s, 12, 16), "z\r\nq");
}

#[test]
fn a_lone_carriage_return_breaks_no_line() {
    let s = chars("a\rb\nc");
    assert_eq!(parser::line(&s, 0), ("a\rb".to_string(), 4));
    assert_eq!(parser::line_break(&s, 1), 0);
    assert_eq!(parser::rich_text(V, &s, 0), (text("a"), 1));
}

#[test]
fn merge_lines_joins_in_order() {
    let merged = parser::merge_lines(vec![text("a"), RichText(vec![]), text("b"), text("c")]);
    assert_eq!(
        merged,
        RichText(vec![
            RichTextPart::Text("a".to_string()),
            RichTextPart::Text("b".to_string()),
            RichTextPart::Text("c".to_string()),
        ])
    );
    assert_eq!(parser::merge_lines(vec![]), RichText(vec![]));
}

#[test]
fn item_rules_allow_leading_blanks() {
    let s = chars(" \t// x");
    assert_eq!(parser::comment(V, &s, 0), Some((SceneItem::SpoilerBlock(text("x")), 6)));
    assert_eq!(parser::scene_item(V, &s, 0), Some((SceneItem::SpoilerBlock(text("x")), 6)));
    let s = chars("  #a b");
    assert_eq!(
        parser::tagged_action_line(V, &s, 0),
        Some((SceneItem::TaggedAction("a".to_string(), text("b")), 6))
    );
    assert_eq!(parser::dialogue_block(V, &s, 0), None);
    assert_eq!(parser::action_block(V, &s, 0), Some((SceneItem::ActionBlock(text("  #a b")), 6)));
    assert_eq!(parser::fence(&chars("---\nx"), 0), Some(4));
    assert_eq!(parser::fence(&chars("--- \nx"), 0), None);
    assert_eq!(parser::heading(&chars(" x"), 0), None);
    assert_eq!(parser::heading(&chars("==x"), 0), None);
    assert_eq!(parser::heading(&chars("=x\ny"), 0), Some(("=x".to_string(), 3)));
}

#[test]
fn single_bracket_version_reads_references_in_single_brackets() {
    let single = Version::SingleBracket;
    let parsed = parser::file_with(single, "== S ==\n[Alice|A]").unwrap();
    let expected = RichText(vec![RichTextPart::Reference(reference("Alice", Some("A")))]);
    assert_eq!(parsed.scenes[0].items, vec![SceneItem::ActionBlock(expected)]);
    match &parsed.scenes[0].items[0] {
        SceneItem::ActionBlock(found) => assert_eq!(found.as_string(), "A"),
        other => panic!("{:?}", other),
    }
    let parsed = parser::file_with(single, "== S ==\nSee [Bob] and [Carol|her]").unwrap();
    assert_eq!(
        parsed.scenes[0].items,
        vec![SceneItem::ActionBlock(RichText(vec![
            RichTextPart::Text("See ".to_string()),
            RichTextPart::Reference(reference("Bob", None)),
            RichTextPart::Text(" and ".to_string()),
            RichTextPart::Reference(reference("Carol", Some("her"))),
        ]))]
    );
    assert_eq!(parser::file_with(single, "== S ==\n[[Alice|A]]"), Err(ParseError {}));
    assert_eq!(parser::file("== S ==\n[Alice|A]"), Err(ParseError {}));
}

#[test]
fn single_bracket_version_still_reads_a_speaker_first() {
    let single = Version::SingleBracket;
    let input = "== S ==\n[Alice]\nHello [Bob]\n\n[Alice] waves";
    let parsed = parser::file_with(single, input).unwrap();
    assert_eq!(
        parsed.scenes[0].items,
        vec![
            SceneItem::DialogueBlock {
                speaker: reference("Alice", None),
                block: vec![RichText(vec![
                    RichTextPart::Text("Hello ".to_string()),
                    RichTextPart::Reference(reference("Bob", None)),
                ])],
            },
            SceneItem::ActionBlock(RichText(vec![
                RichTextPart::Reference(reference("Alice", None)),
                RichTextPart::Text(" waves".to_string()),
            ])),
        ]
    );
}

#[test]
fn versions_agree_on_text_without_references() {
    let input = "---\nT: x\n---\nTitle\n== A ==\nk: v\n\n[B|b]\nhi\n\n#t u\n// c\n";
    let double = parser::file_with(Version::DoubleBracket, input);
    assert!(double.is_ok());
    assert_eq!(parser::file_with(Version::SingleBracket, input), double);
    assert_eq!(parser::file(input), double);
    assert_eq!(Version::default(), Version::DoubleBracket);
    assert_eq!(Version::SingleBracket.reference_brackets(), 1);
    assert_eq!(Version::DoubleBracket.reference_brackets(), 2);
}
