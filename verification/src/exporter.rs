//! The renderer: a document as HTML.
//!
//! The markup that comes out is stated here as a function of the tree, element by element.
//! Text and attribute values that come from the document are escaped by `hypertext`; the
//! elements around them are written out as they stand.

use vstd::prelude::*;
use vstd::std_specs::iter::IteratorSpec;
use vstd::string::*;
use crate::model::{
    displayed, opens_parenthetical, FileView, ItemView, PartView, SceneView, TagView, ValueView,
};
use crate::strings::single;
use crate::types::{
    lemma_list_view, optional_text, views, File, FormattingTag, RichText, RichTextPart, Scene,
    SceneItem, Value,
};

verus! {

/// What stands for the character `c` in escaped text: an entity for `&`, `<` and `>`, and in
/// an attribute value for `"` too; the character itself otherwise.
pub open spec fn escaped_char(c: char, in_attribute: bool) -> Seq<char> {
    if c == '&' {
        "&amp;"@
    } else if c == '<' {
        "&lt;"@
    } else if c == '>' {
        "&gt;"@
    } else if c == '"' && in_attribute {
        "&quot;"@
    } else {
        seq![c]
    }
}

/// `text` escaped, character by character.
pub open spec fn escaped(text: Seq<char>, in_attribute: bool) -> Seq<char>
    decreases text.len(),
{
    if text.len() == 0 {
        Seq::empty()
    } else {
        escaped(text.drop_last(), in_attribute) + escaped_char(text.last(), in_attribute)
    }
}

/// The lowercase equivalent of `text`, as `str::to_lowercase` gives it.
pub uninterp spec fn lowercase(text: Seq<char>) -> Seq<char>;

/// `hypertext::Renderable::render` on a `str` gives the string as the content of a node. It
/// hands the string to `html_escape::encode_text`: `&`, `<` and `>` become `&amp;`, `&lt;` and
/// `&gt;`, every other character stays.
#[verifier::external_body]
fn escape_text(text: &str) -> (r: String)
    ensures
        r@ == escaped(text@, false),
{
    hypertext::Renderable::<hypertext::context::Node>::render(text).into_inner()
}

/// `hypertext::Renderable::render_to` on a `str`, into the buffer of an attribute value, appends
/// the string as the value of an attribute between double quotes. It hands the string to
/// `html_escape::encode_double_quoted_attribute_to_string`: `&`, `<`, `>` and `"` become
/// `&amp;`, `&lt;`, `&gt;` and `&quot;`, every other character stays. The buffer starts empty.
#[verifier::external_body]
fn escape_attribute(text: &str) -> (r: String)
    ensures
        r@ == escaped(text@, true),
{
    let mut buffer = hypertext::Buffer::new();
    hypertext::Renderable::<hypertext::context::AttributeValue>::render_to(
        text,
        buffer.as_attribute_buffer(),
    );
    buffer.rendered().into_inner()
}

/// `str::to_lowercase` gives the lowercase equivalent of a string, which depends on the string
/// alone.
#[verifier::external_body]
fn to_lowercase(text: &str) -> (r: String)
    ensures
        r@ == lowercase(text@),
{
    text.to_lowercase()
}

/// An attribute: a space, the name, and the value between double quotes. The value stands as
/// given: it is escaped already.
pub open spec fn attribute_html(name: Seq<char>, value: Seq<char>) -> Seq<char> {
    " "@ + name + "=\""@ + value + "\""@
}

/// An element: its opening tag with its attributes, its content, and its closing tag.
pub open spec fn element_html(
    name: Seq<char>,
    attributes: Seq<char>,
    content: Seq<char>,
) -> Seq<char> {
    "<"@ + name + attributes + ">"@ + content + "</"@ + name + ">"@
}

/// A `div` of the class `class`.
pub open spec fn div_html(class: Seq<char>, content: Seq<char>) -> Seq<char> {
    element_html("div"@, attribute_html("class"@, class), content)
}

/// The placeholder that stands where nothing is rendered yet.
pub open spec fn placeholder_html() -> Seq<char> {
    div_html("todo"@, Seq::empty())
}

/// The `span` that holds a rich text.
pub open spec fn span_html(content: Seq<char>) -> Seq<char> {
    element_html("span"@, attribute_html("class"@, "rich-text"@), content)
}

/// One part as HTML: text escaped; a reference as a link to its referent that shows what is
/// displayed for it; a formatted section as its rich text inside the element of its tag, or the
/// placeholder where the tag is an `Other`.
pub open spec fn part_html(part: PartView) -> Seq<char>
    decreases part,
{
    match part {
        PartView::Text(text) => escaped(text, false),
        PartView::Reference(reference) => element_html(
            "a"@,
            attribute_html("class"@, "reference"@) + attribute_html(
                "href"@,
                escaped(reference.referent, true),
            ),
            escaped(displayed(reference), false),
        ),
        PartView::FormattedSection(tag, inner) => {
            let content = span_html(parts_html(inner));
            match tag {
                TagView::Bold => element_html("strong"@, Seq::empty(), content),
                TagView::Italic => element_html("em"@, Seq::empty(), content),
                TagView::BoldItalic => element_html(
                    "strong"@,
                    Seq::empty(),
                    element_html("em"@, Seq::empty(), content),
                ),
                TagView::Underline => element_html("u"@, Seq::empty(), content),
                TagView::Strikethrough => element_html("del"@, Seq::empty(), content),
                TagView::Other(_) => placeholder_html(),
            }
        },
    }
}

/// The parts of a rich text as HTML, one after another.
pub open spec fn parts_html(parts: Seq<PartView>) -> Seq<char>
    decreases parts,
{
    if parts.len() == 0 {
        Seq::empty()
    } else {
        parts_html(parts.drop_last()) + part_html(parts.last())
    }
}

/// A rich text as HTML: its parts inside a `span`.
pub open spec fn rich_text_html(parts: Seq<PartView>) -> Seq<char> {
    span_html(parts_html(parts))
}

/// A value as HTML: its rich text, or the values of a list inside a `div`.
pub open spec fn value_html(value: ValueView) -> Seq<char>
    decreases value,
{
    match value {
        ValueView::RichText(parts) => rich_text_html(parts),
        ValueView::List(values) => div_html("value_list"@, values_html(values)),
    }
}

/// Values as HTML, one after another.
pub open spec fn values_html(values: Seq<ValueView>) -> Seq<char>
    decreases values,
{
    if values.len() == 0 {
        Seq::empty()
    } else {
        values_html(values.drop_last()) + value_html(values.last())
    }
}

/// What is shown for a speaker: `CONT'D` for the speaker `&`, the speaker's name otherwise.
pub open spec fn contd(speaker: Seq<char>) -> Seq<char> {
    if speaker == seq!['&'] {
        "CONT'D"@
    } else {
        speaker
    }
}

/// The lines of a dialogue as HTML: each a `div`, marked where the line opens a parenthetical.
pub open spec fn dialogue_html(block: Seq<Seq<PartView>>) -> Seq<char>
    decreases block.len(),
{
    if block.len() == 0 {
        Seq::empty()
    } else {
        dialogue_html(block.drop_last()) + div_html(
            "scene-item-dialogue"@ + escaped(
                if opens_parenthetical(block.last()) {
                    " parenthetical"@
                } else {
                    ""@
                },
                true,
            ),
            rich_text_html(block.last()),
        )
    }
}

/// A tagged action as HTML, given its tag in lowercase: a `div` whose class names the
/// lowercase tag, with the tag and the content inside.
pub open spec fn tagged_action_html(
    tag: Seq<char>,
    lowered: Seq<char>,
    text: Seq<PartView>,
) -> Seq<char> {
    div_html(
        escaped("scene-item-tagged-action tag-"@ + lowered, true),
        div_html("scene-item-tagged-action-tag"@, escaped(tag, false)) + div_html(
            "scene-item-tagged-action-content"@,
            rich_text_html(text),
        ),
    )
}

/// An item as HTML.
pub open spec fn item_html(item: ItemView) -> Seq<char> {
    match item {
        ItemView::ActionBlock(text) => div_html("scene-item-action-line"@, rich_text_html(text)),
        ItemView::DialogueBlock { speaker, block } => element_html(
            "a"@,
            attribute_html("class"@, "scene-item-new-current-speaker"@) + attribute_html(
                "href"@,
                "#"@,
            ),
            escaped(contd(speaker.referent), false),
        ) + dialogue_html(block),
        ItemView::SpoilerBlock(text) => div_html("scene-item-comment"@, rich_text_html(text)),
        ItemView::TaggedAction(tag, text) => tagged_action_html(tag, lowercase(tag), text),
        ItemView::Cont(_) => placeholder_html(),
        ItemView::If(_, _) => placeholder_html(),
    }
}

/// Items as HTML, one after another.
pub open spec fn items_html(items: Seq<ItemView>) -> Seq<char>
    decreases items.len(),
{
    if items.len() == 0 {
        Seq::empty()
    } else {
        items_html(items.drop_last()) + item_html(items.last())
    }
}

/// The decimal digit for `d`.
pub open spec fn digit(d: nat) -> char {
    if d == 0 {
        '0'
    } else if d == 1 {
        '1'
    } else if d == 2 {
        '2'
    } else if d == 3 {
        '3'
    } else if d == 4 {
        '4'
    } else if d == 5 {
        '5'
    } else if d == 6 {
        '6'
    } else if d == 7 {
        '7'
    } else if d == 8 {
        '8'
    } else {
        '9'
    }
}

/// `n` in decimal digits.
pub open spec fn decimal(n: nat) -> Seq<char>
    decreases n,
{
    if n < 10 {
        seq![digit(n)]
    } else {
        decimal(n / 10).push(digit(n % 10))
    }
}

/// `name` with an underscore in place of each space.
pub open spec fn underscored(name: Seq<char>) -> Seq<char> {
    Seq::new(
        name.len(),
        |i: int|
            if name[i] == ' ' {
                '_'
            } else {
                name[i]
            },
    )
}

/// The heading of the scene at position `index`: its number, counted from one, and its name;
/// a scene without a name is called by its number.
pub open spec fn scene_heading(name: Option<Seq<char>>, index: nat) -> Seq<char> {
    decimal(index + 1) + ". "@ + match name {
        Some(name) => name,
        None => "Scene "@ + decimal(index + 1),
    }
}

/// The anchor of a scene: its name with underscores for spaces, nothing for a scene without a
/// name.
pub open spec fn scene_anchor(name: Option<Seq<char>>) -> Seq<char> {
    match name {
        Some(name) => underscored(name),
        None => Seq::empty(),
    }
}

/// The scene at position `index` as HTML: a `div` with the heading, an empty marker that
/// carries the anchor, and the items.
pub open spec fn scene_html(scene: SceneView, index: nat) -> Seq<char> {
    div_html(
        "scene"@,
        div_html("scene-name"@, escaped(scene_heading(scene.name, index), false)) + element_html(
            "div"@,
            attribute_html("class"@, "marker"@) + attribute_html(
                "id"@,
                escaped(scene_anchor(scene.name), true),
            ),
            Seq::empty(),
        ) + div_html("scene-items"@, items_html(scene.items)),
    )
}

/// Scenes as HTML, one after another, each at its position.
pub open spec fn scenes_html(scenes: Seq<SceneView>) -> Seq<char>
    decreases scenes.len(),
{
    if scenes.len() == 0 {
        Seq::empty()
    } else {
        scenes_html(scenes.drop_last()) + scene_html(scenes.last(), (scenes.len() - 1) as nat)
    }
}

/// A heading of the header as HTML: a `div` of the given class with the text escaped; nothing
/// where there is no heading.
pub open spec fn heading_html(class: Seq<char>, heading: Option<Seq<char>>) -> Seq<char> {
    match heading {
        Some(text) => div_html(class, escaped(text, false)),
        None => Seq::empty(),
    }
}

/// The frontmatter's value under the one-letter key `key` as HTML: a `div` of the given class
/// with the value; nothing where the frontmatter, or the key in it, is missing.
pub open spec fn frontmatter_html(file: FileView, class: Seq<char>, key: char) -> Seq<char> {
    match file.frontmatter {
        Some(entries) => if entries.contains_key(seq![key]) {
            div_html(class, value_html(entries[seq![key]]))
        } else {
            Seq::empty()
        },
        None => Seq::empty(),
    }
}

/// The header of a file as HTML. A file with a title, a subtitle or frontmatter has one: a
/// `div` with the title, the subtitle, and the frontmatter's values under `T` and under `S`,
/// each where there is one.
pub open spec fn header_html(file: FileView) -> Seq<char> {
    if file.title is None && file.subtitle is None && file.frontmatter is None {
        Seq::empty()
    } else {
        div_html(
            "header"@,
            heading_html("header-title"@, file.title) + heading_html(
                "header-subtitle"@,
                file.subtitle,
            ) + frontmatter_html(file, "header-title"@, 'T') + frontmatter_html(
                file,
                "header-subtitle"@,
                'S',
            ),
        )
    }
}

/// A file as HTML: a `body` with a `main` that holds the header and the scenes.
pub open spec fn file_html(file: FileView) -> Seq<char> {
    element_html(
        "body"@,
        Seq::empty(),
        element_html("main"@, Seq::empty(), header_html(file) + scenes_html(file.scenes)),
    )
}

/// A scene as an outline shows it: the scene without its items.
pub open spec fn outlined(scene: SceneView) -> SceneView {
    SceneView { name: scene.name, meta: scene.meta, items: Seq::empty() }
}

/// The outline of a file as HTML: the file as HTML with the items of every scene left out.
pub open spec fn outline_html(file: FileView) -> Seq<char> {
    file_html(
        FileView {
            title: file.title,
            subtitle: file.subtitle,
            frontmatter: file.frontmatter,
            scenes: file.scenes.map_values(|scene: SceneView| outlined(scene)),
        },
    )
}

/// An attribute with the value `value`, which is escaped already.
pub fn attribute(name: &str, value: &str) -> (r: String)
    ensures
        r@ == attribute_html(name@, value@),
{
    let mut out = String::new();
    out.append(" ");
    out.append(name);
    out.append("=\"");
    out.append(value);
    out.append("\"");
    assert(out@ =~= attribute_html(name@, value@));
    out
}

/// An element with the attributes and the content given.
pub fn element(name: &str, attributes: &str, content: &str) -> (r: String)
    ensures
        r@ == element_html(name@, attributes@, content@),
{
    let mut out = String::new();
    out.append("<");
    out.append(name);
    out.append(attributes);
    out.append(">");
    out.append(content);
    out.append("</");
    out.append(name);
    out.append(">");
    assert(out@ =~= element_html(name@, attributes@, content@));
    out
}

/// A `div` of the class `class` with the content given.
pub fn div(class: &str, content: &str) -> (r: String)
    ensures
        r@ == div_html(class@, content@),
{
    let attributes = attribute("class", class);
    element("div", attributes.as_str(), content)
}

/// What is shown for a speaker: `CONT'D` for the speaker `&`, the speaker's name otherwise.
pub fn format_contd(speaker_string: &str) -> (r: &str)
    ensures
        r@ == contd(speaker_string@),
{
    if speaker_string.to_owned() == single('&') {
        return "CONT'D";
    }
    speaker_string
}

/// `n` in decimal digits.
pub fn decimal_string(n: usize) -> (r: String)
    ensures
        r@ == decimal(n as nat),
    decreases n,
{
    let d = n % 10;
    let c = if d == 0 {
        '0'
    } else if d == 1 {
        '1'
    } else if d == 2 {
        '2'
    } else if d == 3 {
        '3'
    } else if d == 4 {
        '4'
    } else if d == 5 {
        '5'
    } else if d == 6 {
        '6'
    } else if d == 7 {
        '7'
    } else if d == 8 {
        '8'
    } else {
        '9'
    };
    let mut out = if n < 10 {
        String::new()
    } else {
        decimal_string(n / 10)
    };
    out.push(c);
    assert(n < 10 ==> out@ =~= seq![digit(n as nat)]);
    out
}

/// `name` with an underscore in place of each space.
pub fn underscore(name: &str) -> (r: String)
    ensures
        r@ == underscored(name@),
{
    let mut out = String::new();
    for c in it: name.chars()
        invariant
            it.seq() == name@,
            out@ == underscored(it.seq().take(it.index() as int)),
    {
        let ghost before = it.seq().take(it.index() as int);
        if c == ' ' {
            out.push('_');
        } else {
            out.push(c);
        }
        assert(out@ =~= underscored(it.seq().take(it.index() + 1)));
    }
    assert(name@.take(name@.len() as int) =~= name@);
    out
}

/// One part as HTML.
pub fn r_rich_text_part(rich_text_part: &RichTextPart) -> (r: String)
    ensures
        r@ == part_html(rich_text_part@),
    decreases rich_text_part,
{
    proof {
        reveal_strlit("");
    }
    match rich_text_part {
        RichTextPart::Text(text) => escape_text(text.as_str()),
        RichTextPart::Reference(reference) => {
            let mut attributes = attribute("class", "reference");
            let href = attribute("href", escape_attribute(reference.referent.as_str()).as_str());
            attributes.append(href.as_str());
            let shown = match &reference.alias {
                Some(alias) => escape_text(alias.as_str()),
                None => escape_text(reference.referent.as_str()),
            };
            element("a", attributes.as_str(), shown.as_str())
        },
        RichTextPart::FormattedSection(formatting_tag, rich_text) => {
            let content = r_rich_text(rich_text);
            match formatting_tag {
                FormattingTag::Bold => element("strong", "", content.as_str()),
                FormattingTag::Italic => element("em", "", content.as_str()),
                FormattingTag::BoldItalic => {
                    let inner = element("em", "", content.as_str());
                    element("strong", "", inner.as_str())
                },
                FormattingTag::Underline => element("u", "", content.as_str()),
                FormattingTag::Strikethrough => element("del", "", content.as_str()),
                FormattingTag::Other(_) => div("todo", ""),
            }
        },
    }
}

/// A rich text as HTML.
pub fn r_rich_text(rich_text: &RichText) -> (r: String)
    ensures
        r@ == rich_text_html(rich_text@),
    decreases rich_text,
{
    let mut content = String::new();
    let mut i: usize = 0;
    while i < rich_text.0.len()
        invariant
            i <= rich_text.0.len(),
            content@ == parts_html(rich_text@.take(i as int)),
        decreases rich_text.0.len() - i,
    {
        proof {
            assert(rich_text@.take(i + 1).drop_last() =~= rich_text@.take(i as int));
            assert(rich_text@.take(i + 1).last() == rich_text.0[i as int]@);
            assert(parts_html(rich_text@.take(i + 1)) == parts_html(rich_text@.take(i as int))
                + part_html(rich_text.0[i as int]@));
        }
        let part = r_rich_text_part(&rich_text.0[i]);
        content.append(part.as_str());
        i += 1;
    }
    assert(rich_text@.take(i as int) =~= rich_text@);
    let class = attribute("class", "rich-text");
    element("span", class.as_str(), content.as_str())
}

/// A value as HTML.
pub fn r_value(value: &Value) -> (r: String)
    ensures
        r@ == value_html(value@),
    decreases value,
{
    match value {
        Value::RichText(rich_text) => r_rich_text(rich_text),
        Value::List(values) => {
            let ghost inner = value@->List_0;
            proof {
                lemma_list_view(*values);
            }
            let mut content = String::new();
            let mut i: usize = 0;
            while i < values.len()
                invariant
                    i <= values.len(),
                    value is List,
                    *values == value->List_0,
                    inner == value@->List_0,
                    content@ == values_html(inner.take(i as int)),
                decreases values.len() - i,
            {
                proof {
                    lemma_list_view(*values);
                    assert(inner.take(i + 1).drop_last() =~= inner.take(i as int));
                    assert(inner.take(i + 1).last() == values[i as int]@);
                }
                let item = r_value(&values[i]);
                content.append(item.as_str());
                i += 1;
            }
            assert(inner.take(i as int) =~= inner);
            div("value_list", content.as_str())
        },
    }
}

/// The lines of a dialogue as HTML.
fn r_dialogue(block: &Vec<RichText>) -> (r: String)
    ensures
        r@ == dialogue_html(views(block@)),
{
    let ghost all = views(block@);
    let mut out = String::new();
    let mut i: usize = 0;
    while i < block.len()
        invariant
            i <= block.len(),
            all == views(block@),
            out@ == dialogue_html(all.take(i as int)),
        decreases block.len() - i,
    {
        proof {
            assert(all.take(i + 1).drop_last() =~= all.take(i as int));
            assert(all.take(i + 1).last() == block[i as int]@);
        }
        let rich_text = &block[i];
        let mut class = String::new();
        class.append("scene-item-dialogue");
        let mark = if rich_text.is_parenthetical() {
            escape_attribute(" parenthetical")
        } else {
            escape_attribute("")
        };
        class.append(mark.as_str());
        let line = div(class.as_str(), r_rich_text(rich_text).as_str());
        out.append(line.as_str());
        i += 1;
    }
    assert(all.take(i as int) =~= all);
    out
}

/// A tagged action as HTML, given its tag in lowercase.
pub fn r_tagged_action(tag: &str, lowered: &str, rich_text: &RichText) -> (r: String)
    ensures
        r@ == tagged_action_html(tag@, lowered@, rich_text@),
{
    let mut class = String::new();
    class.append("scene-item-tagged-action tag-");
    class.append(lowered);
    let mut content = div("scene-item-tagged-action-tag", escape_text(tag).as_str());
    let text = div("scene-item-tagged-action-content", r_rich_text(rich_text).as_str());
    content.append(text.as_str());
    div(escape_attribute(class.as_str()).as_str(), content.as_str())
}

/// An item as HTML.
pub fn r_item(scene_item: &SceneItem) -> (r: String)
    ensures
        r@ == item_html(scene_item@),
{
    proof {
        reveal_strlit("");
    }
    match scene_item {
        SceneItem::ActionBlock(rich_text) => div(
            "scene-item-action-line",
            r_rich_text(rich_text).as_str(),
        ),
        SceneItem::DialogueBlock { speaker, block } => {
            let mut attributes = attribute("class", "scene-item-new-current-speaker");
            attributes.append(attribute("href", "#").as_str());
            let shown = escape_text(format_contd(speaker.referent.as_str()));
            let mut out = element("a", attributes.as_str(), shown.as_str());
            out.append(r_dialogue(block).as_str());
            out
        },
        SceneItem::SpoilerBlock(rich_text) => div(
            "scene-item-comment",
            r_rich_text(rich_text).as_str(),
        ),
        SceneItem::TaggedAction(tag, rich_text) => {
            let lowered = to_lowercase(tag.as_str());
            r_tagged_action(tag.as_str(), lowered.as_str(), rich_text)
        },
        SceneItem::Cont(_) => div("todo", ""),
        SceneItem::If(_, _) => div("todo", ""),
    }
}

/// The scene at position `idx` as HTML.
pub fn r_scene(scene: &Scene, idx: usize) -> (r: String)
    requires
        idx < usize::MAX,
    ensures
        r@ == scene_html(scene@, idx as nat),
{
    proof {
        reveal_strlit("");
    }
    let number = decimal_string(idx + 1);
    let mut heading = String::new();
    heading.append(number.as_str());
    heading.append(". ");
    let anchor = match &scene.name {
        Some(name) => {
            heading.append(name.as_str());
            underscore(name.as_str())
        },
        None => {
            heading.append("Scene ");
            heading.append(number.as_str());
            String::new()
        },
    };
    assert(heading@ =~= scene_heading(scene@.name, idx as nat));
    let ghost items = scene@.items;
    let mut content = String::new();
    let mut i: usize = 0;
    while i < scene.items.len()
        invariant
            i <= scene.items.len(),
            items == scene@.items,
            content@ == items_html(items.take(i as int)),
        decreases scene.items.len() - i,
    {
        proof {
            assert(items.take(i + 1).drop_last() =~= items.take(i as int));
            assert(items.take(i + 1).last() == scene.items[i as int]@);
        }
        let item = r_item(&scene.items[i]);
        content.append(item.as_str());
        i += 1;
    }
    assert(items.take(i as int) =~= items);
    let mut marker = attribute("class", "marker");
    marker.append(attribute("id", escape_attribute(anchor.as_str()).as_str()).as_str());
    let mut out = div("scene-name", escape_text(heading.as_str()).as_str());
    out.append(element("div", marker.as_str(), "").as_str());
    out.append(div("scene-items", content.as_str()).as_str());
    div("scene", out.as_str())
}

/// A heading of the header as HTML.
fn r_heading(class: &str, heading: &Option<String>) -> (r: String)
    ensures
        r@ == heading_html(class@, optional_text(*heading)),
{
    match heading {
        Some(text) => div(class, escape_text(text.as_str()).as_str()),
        None => String::new(),
    }
}

/// The frontmatter's value under the one-letter key `key` as HTML.
fn r_frontmatter(file: &File, class: &str, key: char) -> (r: String)
    ensures
        r@ == frontmatter_html(file@, class@, key),
{
    let name = single(key);
    let found = match &file.frontmatter {
        Some(entries) => entries.get(name.as_str()),
        None => None,
    };
    match found {
        Some(value) => div(class, r_value(value).as_str()),
        None => String::new(),
    }
}

/// The header of a file as HTML.
fn r_header(file: &File) -> (r: String)
    ensures
        r@ == header_html(file@),
{
    if file.title.is_none() && file.subtitle.is_none() && file.frontmatter.is_none() {
        return String::new();
    }
    let mut content = r_heading("header-title", &file.title);
    content.append(r_heading("header-subtitle", &file.subtitle).as_str());
    content.append(r_frontmatter(file, "header-title", 'T').as_str());
    content.append(r_frontmatter(file, "header-subtitle", 'S').as_str());
    div("header", content.as_str())
}

/// The outline of a file as HTML: its header, and of each scene the heading and the marker.
pub fn export_html_outline(file: &File) -> (r: String)
    ensures
        r@ == outline_html(file@),
{
    let mut scenes: Vec<Scene> = Vec::new();
    let mut i: usize = 0;
    while i < file.scenes.len()
        invariant
            i <= file.scenes.len(),
            scenes.len() == i,
            forall|k: int| 0 <= k < i ==> scenes[k]@ == outlined(file.scenes[k]@),
        decreases file.scenes.len() - i,
    {
        let scene = &file.scenes[i];
        let name = match &scene.name {
            Some(name) => Some(name.clone()),
            None => None,
        };
        let bare = Scene { name, meta: scene.meta.clone(), items: Vec::new() };
        assert(bare@.items =~= Seq::<ItemView>::empty());
        scenes.push(bare);
        i += 1;
    }
    let title = match &file.title {
        Some(text) => Some(text.clone()),
        None => None,
    };
    let subtitle = match &file.subtitle {
        Some(text) => Some(text.clone()),
        None => None,
    };
    let frontmatter = match &file.frontmatter {
        Some(entries) => Some(entries.clone()),
        None => None,
    };
    let outline = File { title, subtitle, frontmatter, scenes };
    assert(outline@.scenes =~= file@.scenes.map_values(|scene: SceneView| outlined(scene)));
    export_html(&outline)
}

/// A file as HTML.
pub fn export_html(file: &File) -> (r: String)
    ensures
        r@ == file_html(file@),
{
    proof {
        reveal_strlit("");
    }
    let mut content = r_header(file);
    let ghost header = content@;
    let ghost all = file@.scenes;
    let mut i: usize = 0;
    assert(content@ =~= header + scenes_html(all.take(0)));
    while i < file.scenes.len()
        invariant
            i <= file.scenes.len(),
            all == file@.scenes,
            content@ == header + scenes_html(all.take(i as int)),
        decreases file.scenes.len() - i,
    {
        proof {
            assert(all.take(i + 1).drop_last() =~= all.take(i as int));
            assert(all.take(i + 1).last() == file.scenes[i as int]@);
        }
        let scene = r_scene(&file.scenes[i], i);
        content.append(scene.as_str());
        assert(content@ =~= header + scenes_html(all.take(i + 1)));
        i += 1;
    }
    assert(all.take(i as int) =~= all);
    let main = element("main", "", content.as_str());
    element("body", "", main.as_str())
}

} // verus!
