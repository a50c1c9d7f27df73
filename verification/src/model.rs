//! The document tree as contracts see it.
//!
//! Each node type of the tree has a mathematical counterpart here, made of `Seq`, `Map` and
//! `Option`. The executable types map onto these through their views, and every contract of
//! the library is stated over them.

use vstd::prelude::*;

verus! {

/// A reference: the target it names and, optionally, the text displayed in its place.
pub struct ReferenceView {
    pub referent: Seq<char>,
    pub alias: Option<Seq<char>>,
}

/// A formatting tag.
pub enum TagView {
    Bold,
    Italic,
    BoldItalic,
    Underline,
    Strikethrough,
    Other(Seq<char>),
}

/// One span of rich text. A rich text is a `Seq<PartView>`.
pub enum PartView {
    Text(Seq<char>),
    Reference(ReferenceView),
    FormattedSection(TagView, Seq<PartView>),
}

/// A metadata value.
pub enum ValueView {
    RichText(Seq<PartView>),
    List(Seq<ValueView>),
}

/// One item of a scene.
pub enum ItemView {
    ActionBlock(Seq<PartView>),
    DialogueBlock { speaker: ReferenceView, block: Seq<Seq<PartView>> },
    SpoilerBlock(Seq<PartView>),
    TaggedAction(Seq<char>, Seq<PartView>),
    Cont(ReferenceView),
    If(Seq<PartView>, Seq<ItemView>),
}

/// A scene: its name, its metadata and its items in screenplay order.
pub struct SceneView {
    pub name: Option<Seq<char>>,
    pub meta: Map<Seq<char>, ValueView>,
    pub items: Seq<ItemView>,
}

/// A whole document.
pub struct FileView {
    pub title: Option<Seq<char>>,
    pub subtitle: Option<Seq<char>>,
    pub frontmatter: Option<Map<Seq<char>, ValueView>>,
    pub scenes: Seq<SceneView>,
}

/// The text that stands for a reference where it is displayed: its alias if it has one, its
/// referent otherwise.
pub open spec fn displayed(reference: ReferenceView) -> Seq<char> {
    match reference.alias {
        Some(alias) => alias,
        None => reference.referent,
    }
}

/// The plain text of one part: a text part gives its text, a reference what is displayed for
/// it, a formatted section the plain text of its content.
pub open spec fn plain_part(part: PartView) -> Seq<char>
    decreases part,
{
    match part {
        PartView::Text(text) => text,
        PartView::Reference(reference) => displayed(reference),
        PartView::FormattedSection(_, inner) => plain_text(inner),
    }
}

/// The plain text of a rich text: the plain texts of its parts, in order, one after another.
pub open spec fn plain_text(parts: Seq<PartView>) -> Seq<char>
    decreases parts,
{
    if parts.len() == 0 {
        Seq::empty()
    } else {
        plain_text(parts.drop_last()) + plain_part(parts.last())
    }
}

/// The plain text of a value: that of its rich text, or those of a list's values one after
/// another.
pub open spec fn plain_value(value: ValueView) -> Seq<char>
    decreases value,
{
    match value {
        ValueView::RichText(parts) => plain_text(parts),
        ValueView::List(values) => plain_values(values),
    }
}

/// The plain texts of `values`, in order, one after another.
pub open spec fn plain_values(values: Seq<ValueView>) -> Seq<char>
    decreases values,
{
    if values.len() == 0 {
        Seq::empty()
    } else {
        plain_values(values.drop_last()) + plain_value(values.last())
    }
}

/// Whether a rich text opens a parenthetical: its first part is text that begins with `(`.
pub open spec fn opens_parenthetical(parts: Seq<PartView>) -> bool {
    parts.len() > 0 && match parts[0] {
        PartView::Text(text) => text.len() > 0 && text[0] == '(',
        _ => false,
    }
}

} // verus!
