use novel_lang::metadata::Metadata;
use novel_lang::parser;
use novel_lang::player::{
    play, play_item, play_rich_text, play_scene, play_value, playable, Cue,
};
use novel_lang::types::{
    File, FormattingTag, Reference, RichText, RichTextPart, Scene, SceneItem, Value,
};

fn plain(s: &str) -> RichTextPart {
    RichTextPart::Text(s.to_string())
}

fn link(referent: &str, alias: Option<&str>) -> RichTextPart {
    RichTextPart::Reference(Reference {
        referent: referent.to_string(),
        alias: alias.map(|a| a.to_string()),
    })
}

fn say(s: &str) -> Cue {
    Cue::Line(s.to_string())
}

#[test]
fn rich_text_plays_one_line_per_part() {
    let rich_text = RichText(vec![
        plain("Meet "),
        link("alice", Some("Alice")),
        RichTextPart::FormattedSection(
            FormattingTag::Bold,
            RichText(vec![plain("now"), link("bob", None)]),
        ),
        plain(""),
    ]);
    assert_eq!(play_rich_text(&rich_text), vec!["Meet ", "alice", "now", "bob", ""]);
    assert_eq!(play_rich_text(&RichText(vec![])), Vec::<String>::new());
}

#[test]
fn value_plays_lists_between_brackets() {
    let value = Value::List(vec![
        Value::RichText(RichText(vec![plain("a"), plain("b")])),
        Value::List(vec![]),
        Value::RichText(RichText(vec![link("r", Some("z"))])),
    ]);
    assert_eq!(play_value(&value), vec!["[", "a", "b", "[", "]", "r", "]"]);
    assert_eq!(play_value(&Value::RichText(RichText(vec![plain("x")]))), vec!["x"]);
}

#[test]
fn items_play_by_their_kind() {
    let rich_text = || RichText(vec![plain("x"), link("r", Some("a"))]);
    assert_eq!(play_item(&SceneItem::ActionBlock(rich_text())), vec!["x", "r"]);
    assert_eq!(play_item(&SceneItem::TaggedAction("BGM".to_string(), rich_text())), vec!["x", "r"]);
    assert_eq!(play_item(&SceneItem::SpoilerBlock(rich_text())), Vec::<String>::new());
    let dialogue = |alias: Option<&str>| SceneItem::DialogueBlock {
        speaker: Reference { referent: "alice".to_string(), alias: alias.map(|a| a.to_string()) },
        block: vec![rich_text(), RichText(vec![]), RichText(vec![plain("y")])],
    };
    assert_eq!(play_item(&dialogue(None)), vec!["alice", "x", "r", "y"]);
    assert_eq!(play_item(&dialogue(Some("Alice"))), vec!["Alice", "x", "r", "y"]);
}

#[test]
fn scene_pauses_after_each_item() {
    let scene = Scene {
        name: Some("ignored".to_string()),
        meta: Metadata::new(),
        items: vec![
            SceneItem::ActionBlock(RichText(vec![plain("a"), plain("b")])),
            SceneItem::SpoilerBlock(RichText(vec![plain("hidden")])),
            SceneItem::TaggedAction("t".to_string(), RichText(vec![plain("c")])),
        ],
    };
    assert_eq!(
        play_scene(&scene),
        vec![say("a"), say("b"), Cue::Pause, Cue::Pause, say("c"), Cue::Pause]
    );
    let empty = Scene { name: None, meta: Metadata::new(), items: vec![] };
    assert_eq!(play_scene(&empty), Vec::<Cue>::new());
}

#[test]
fn file_plays_its_opening_and_its_scenes() {
    let input = "---\nS: the [[sub]]\nT: the title\nX: unused\n---\nHeading\nSecond\n\
                 == One ==\nfirst\n\n[A|a]\nhi\n\n== Two ==\n// hidden\n";
    let file = parser::file(input).unwrap();
    assert!(playable(&file));
    assert_eq!(
        play(file),
        vec![
            say("Heading"),
            say("Second"),
            say("the title"),
            say("the "),
            say("sub"),
            say("first"),
            Cue::Pause,
            say("a"),
            say("hi"),
            Cue::Pause,
            Cue::Pause,
        ]
    );
}

#[test]
fn empty_file_plays_nothing() {
    let file = parser::file("").unwrap();
    assert!(playable(&file));
    assert_eq!(play(file), Vec::<Cue>::new());
}

#[test]
fn reserved_items_cannot_be_played() {
    let file = |item: SceneItem| File {
        title: None,
        subtitle: None,
        frontmatter: None,
        scenes: vec![
            Scene { name: None, meta: Metadata::new(), items: vec![] },
            Scene {
                name: None,
                meta: Metadata::new(),
                items: vec![SceneItem::SpoilerBlock(RichText(vec![])), item],
            },
        ],
    };
    let reference = Reference { referent: "r".to_string(), alias: None };
    assert!(!playable(&file(SceneItem::Cont(reference))));
    assert!(!playable(&file(SceneItem::If(RichText(vec![]), vec![]))));
    assert!(playable(&file(SceneItem::ActionBlock(RichText(vec![])))));
}

#[test]
fn cues_compare_by_content() {
    assert_eq!(say("a"), say("a"));
    assert_ne!(say("a"), say("b"));
    assert_ne!(say(""), Cue::Pause);
    assert_eq!(Cue::Pause, Cue::Pause);
}
