use novel_lang::metadata::Metadata;
use novel_lang::types::{
    File, FormattingTag, Reference, RichText, RichTextPart, Scene, SceneItem, Value,
};

fn plain(s: &str) -> RichTextPart {
    RichTextPart::Text(s.to_string())
}

fn link(referent: &str, alias: Option<&str>) -> RichTextPart {
    RichTextPart::Reference(Reference {
        referent: referent.to_string(),
        alias: alias.map(|a| a.to_string()),
    })
}

fn sample() -> RichText {
    RichText(vec![
        plain("Meet "),
        link("alice", Some("Alice")),
        plain(" & "),
        link("bob", None),
        RichTextPart::FormattedSection(
            FormattingTag::Bold,
            RichText(vec![
                plain(" now"),
                RichTextPart::FormattedSection(
                    FormattingTag::Other("glow".to_string()),
                    RichText(vec![plain("!"), link("x", Some(""))]),
                ),
            ]),
        ),
    ])
}

#[test]
fn merge_keeps_left_then_right() {
    let merged = RichText(vec![plain("a"), plain("b")]).merge(RichText(vec![link("c", None)]));
    assert_eq!(merged, RichText(vec![plain("a"), plain("b"), link("c", None)]));
}

#[test]
fn merge_is_associative_on_samples() {
    let a = || RichText(vec![plain("a"), link("r", Some("s"))]);
    let b = || RichText(vec![]);
    let c = || sample();
    assert_eq!(a().merge(b()).merge(c()), a().merge(b().merge(c())));
    assert_eq!(c().merge(a()).merge(c()), c().merge(a().merge(c())));
}

#[test]
fn empty_rich_text_is_the_identity_of_merge() {
    assert_eq!(RichText(vec![]).merge(sample()), sample());
    assert_eq!(sample().merge(RichText(vec![])), sample());
    assert_eq!(RichText(vec![]).merge(RichText(vec![])), RichText(vec![]));
}

#[test]
fn parenthetical_is_decided_by_the_first_part() {
    assert!(RichText(vec![plain("(softly)")]).is_parenthetical());
    assert!(RichText(vec![plain("("), plain("x")]).is_parenthetical());
    assert!(!RichText(vec![plain(" (softly)")]).is_parenthetical());
    assert!(!RichText(vec![plain("")]).is_parenthetical());
    assert!(!RichText(vec![plain(""), plain("(x)")]).is_parenthetical());
    assert!(!RichText(vec![]).is_parenthetical());
    assert!(!RichText(vec![link("(a", Some("(b")), plain("(x)")]).is_parenthetical());
    assert!(!RichText(vec![RichTextPart::FormattedSection(
        FormattingTag::Italic,
        RichText(vec![plain("(x)")])
    )])
    .is_parenthetical());
    assert!(!RichText(vec![plain("\u{ff08}x")]).is_parenthetical());
}

#[test]
fn as_string_flattens_the_tree() {
    assert_eq!(sample().as_string(), "Meet Alice & bob now!");
    assert_eq!(RichText(vec![]).as_string(), "");
    assert_eq!(RichText(vec![link("target", None)]).as_string(), "target");
}

#[test]
fn alias_wins_whatever_the_referent() {
    let with = |referent: &str| RichText(vec![plain("<"), link(referent, Some("A")), plain(">")]);
    assert_eq!(with("Alice").as_string(), "<A>");
    assert_eq!(with("Bob").as_string(), with("Alice").as_string());
    assert_eq!(RichText(vec![link("Alice", Some(""))]).as_string(), "");
}

#[test]
fn as_string_of_a_merge_is_the_two_strings() {
    let left = sample();
    let right = RichText(vec![plain(" end")]);
    let expected = format!("{}{}", left.as_string(), right.as_string());
    assert_eq!(left.merge(right).as_string(), expected);
}

#[test]
fn value_as_string_joins_a_list() {
    let value = Value::List(vec![
        Value::RichText(RichText(vec![plain("a")])),
        Value::List(vec![Value::RichText(sample()), Value::List(vec![])]),
        Value::RichText(RichText(vec![link("r", Some("z"))])),
    ]);
    assert_eq!(value.as_string(), "aMeet Alice & bob now!z");
    assert_eq!(Value::RichText(sample()).as_string(), "Meet Alice & bob now!");
    assert_eq!(Value::List(vec![]).as_string(), "");
}

#[test]
fn equality_is_structural() {
    assert_eq!(sample(), sample());
    assert_ne!(sample(), RichText(vec![]));
    assert_ne!(RichText(vec![plain("a")]), RichText(vec![plain("b")]));
    assert_ne!(RichText(vec![plain("a")]), RichText(vec![link("a", None)]));
    assert_ne!(RichText(vec![link("a", None)]), RichText(vec![link("a", Some("a"))]));
    assert_ne!(RichText(vec![plain("a")]), RichText(vec![plain("a"), plain("")]));
    assert_ne!(FormattingTag::Bold, FormattingTag::Italic);
    assert_ne!(FormattingTag::Other("a".to_string()), FormattingTag::Other("b".to_string()));
    assert_eq!(FormattingTag::BoldItalic, FormattingTag::BoldItalic);
    assert_eq!(FormattingTag::Underline, FormattingTag::Underline);
    assert_eq!(FormattingTag::Strikethrough, FormattingTag::Strikethrough);
    let bold = |s: &str| {
        RichTextPart::FormattedSection(FormattingTag::Bold, RichText(vec![plain(s)]))
    };
    assert_eq!(bold("x"), bold("x"));
    assert_ne!(bold("x"), bold("y"));
    assert_ne!(
        bold("x"),
        RichTextPart::FormattedSection(FormattingTag::Italic, RichText(vec![plain("x")]))
    );
    assert_ne!(
        Value::List(vec![Value::RichText(sample())]),
        Value::List(vec![Value::RichText(sample()), Value::List(vec![])])
    );
    assert_ne!(Value::List(vec![]), Value::RichText(RichText(vec![])));
    assert_eq!(
        Value::List(vec![Value::RichText(sample())]),
        Value::List(vec![Value::RichText(sample())])
    );
}

fn items() -> Vec<SceneItem> {
    vec![
        SceneItem::ActionBlock(sample()),
        SceneItem::DialogueBlock {
            speaker: Reference { referent: "a".to_string(), alias: None },
            block: vec![sample(), RichText(vec![])],
        },
        SceneItem::SpoilerBlock(sample()),
        SceneItem::TaggedAction("t".to_string(), sample()),
        SceneItem::Cont(Reference { referent: "a".to_string(), alias: Some("b".to_string()) }),
        SceneItem::If(sample(), vec![SceneItem::If(RichText(vec![]), vec![])]),
    ]
}

#[test]
fn items_compare_by_variant_and_content() {
    let all = items();
    for (i, a) in all.iter().enumerate() {
        for (j, b) in all.iter().enumerate() {
            assert_eq!(a == b, i == j);
        }
    }
    assert_ne!(
        SceneItem::If(sample(), vec![]),
        SceneItem::If(sample(), vec![SceneItem::SpoilerBlock(sample())])
    );
    assert_ne!(
        SceneItem::DialogueBlock {
            speaker: Reference { referent: "a".to_string(), alias: None },
            block: vec![sample()],
        },
        SceneItem::DialogueBlock {
            speaker: Reference { referent: "b".to_string(), alias: None },
            block: vec![sample()],
        }
    );
    assert_ne!(
        SceneItem::TaggedAction("t".to_string(), sample()),
        SceneItem::TaggedAction("u".to_string(), sample())
    );
}

fn document() -> File {
    let mut meta = Metadata::new();
    meta.insert("k".to_string(), Value::RichText(sample()));
    let mut front = Metadata::new();
    front.insert("T".to_string(), Value::List(vec![Value::RichText(sample())]));
    File {
        title: Some("t".to_string()),
        subtitle: None,
        frontmatter: Some(front),
        scenes: vec![
            Scene { name: Some("n".to_string()), meta, items: items() },
            Scene { name: None, meta: Metadata::new(), items: vec![] },
        ],
    }
}

#[test]
fn clones_are_equal_to_what_they_copy() {
    let file = document();
    assert_eq!(file.clone(), file);
    assert_eq!(file.scenes[0].clone(), file.scenes[0]);
    for item in items() {
        assert_eq!(item.clone(), item);
    }
    assert_eq!(sample().clone(), sample());
    let value = Value::List(vec![Value::RichText(sample()), Value::List(vec![])]);
    assert_eq!(value.clone(), value);
    let reference = Reference { referent: "a".to_string(), alias: Some("b".to_string()) };
    assert_eq!(reference.clone(), reference);
    let tag = FormattingTag::Other("x".to_string());
    assert_eq!(tag.clone(), tag);
    assert_eq!(FormattingTag::Underline.clone(), FormattingTag::Underline);
}

#[test]
fn files_compare_field_by_field() {
    let file = document();
    let mut other = document();
    other.title = None;
    assert_ne!(file, other);
    let mut other = document();
    other.subtitle = Some("".to_string());
    assert_ne!(file, other);
    let mut other = document();
    other.frontmatter = None;
    assert_ne!(file, other);
    let mut other = document();
    other.frontmatter = Some(Metadata::new());
    assert_ne!(file, other);
    let mut other = document();
    other.scenes.pop();
    assert_ne!(file, other);
    let mut other = document();
    other.scenes[1].name = Some("".to_string());
    assert_ne!(file, other);
    let mut other = document();
    other.scenes[0].items.pop();
    assert_ne!(file, other);
    let mut other = document();
    other.scenes[0].meta.insert("k".to_string(), Value::List(vec![]));
    assert_ne!(file, other);
    assert_eq!(file, document());
}
