//! The document tree.
//!
//! These are the values that a parse produces and that a renderer or a player reads. Each has a
//! view in [`crate::model`].

use vstd::prelude::*;
use vstd::string::*;
use crate::metadata::Metadata;
use crate::model::{
    opens_parenthetical, plain_part, plain_text, plain_value, plain_values, FileView, ItemView,
    PartView, ReferenceView, SceneView, TagView, ValueView,
};

verus! {

/// The key of a metadata entry, or the tag of an action.
pub type Identifier = String;

/// The name of a point on a timeline.
pub type TimelinePoint = String;

/// A named pointer: the target it names and, optionally, the text displayed in its place.
#[derive(Debug)]
pub struct Reference {
    pub referent: String,
    pub alias: Option<String>,
}

impl View for Reference {
    type V = ReferenceView;

    open spec fn view(&self) -> ReferenceView {
        ReferenceView {
            referent: self.referent@,
            alias: match self.alias {
                Some(alias) => Some(alias@),
                None => None,
            },
        }
    }
}

impl PartialEq for Reference {
    fn eq(&self, other: &Self) -> (r: bool) {
        let same_alias = match (&self.alias, &other.alias) {
            (Some(a), Some(b)) => *a == *b,
            (None, None) => true,
            _ => false,
        };
        self.referent == other.referent && same_alias
    }
}

impl vstd::std_specs::cmp::PartialEqSpecImpl for Reference {
    open spec fn obeys_eq_spec() -> bool {
        true
    }

    open spec fn eq_spec(&self, other: &Self) -> bool {
        self@ == other@
    }
}

impl Eq for Reference {

}

impl Clone for Reference {
    fn clone(&self) -> (r: Self)
        ensures
            r@ == self@,
    {
        Reference {
            referent: self.referent.clone(),
            alias: match &self.alias {
                Some(alias) => Some(alias.clone()),
                None => None,
            },
        }
    }
}

/// How a formatted section is set. `Other` keeps a tag that has no meaning of its own yet.
#[derive(Debug)]
pub enum FormattingTag {
    Bold,
    Italic,
    BoldItalic,
    Underline,
    Strikethrough,
    Other(String),
}

impl View for FormattingTag {
    type V = TagView;

    open spec fn view(&self) -> TagView {
        match self {
            FormattingTag::Bold => TagView::Bold,
            FormattingTag::Italic => TagView::Italic,
            FormattingTag::BoldItalic => TagView::BoldItalic,
            FormattingTag::Underline => TagView::Underline,
            FormattingTag::Strikethrough => TagView::Strikethrough,
            FormattingTag::Other(name) => TagView::Other(name@),
        }
    }
}

impl PartialEq for FormattingTag {
    fn eq(&self, other: &Self) -> (r: bool) {
        match (self, other) {
            (FormattingTag::Bold, FormattingTag::Bold) => true,
            (FormattingTag::Italic, FormattingTag::Italic) => true,
            (FormattingTag::BoldItalic, FormattingTag::BoldItalic) => true,
            (FormattingTag::Underline, FormattingTag::Underline) => true,
            (FormattingTag::Strikethrough, FormattingTag::Strikethrough) => true,
            (FormattingTag::Other(a), FormattingTag::Other(b)) => *a == *b,
            _ => false,
        }
    }
}

impl vstd::std_specs::cmp::PartialEqSpecImpl for FormattingTag {
    open spec fn obeys_eq_spec() -> bool {
        true
    }

    open spec fn eq_spec(&self, other: &Self) -> bool {
        self@ == other@
    }
}

impl Eq for FormattingTag {

}

impl Clone for FormattingTag {
    fn clone(&self) -> (r: Self)
        ensures
            r@ == self@,
    {
        match self {
            FormattingTag::Bold => FormattingTag::Bold,
            FormattingTag::Italic => FormattingTag::Italic,
            FormattingTag::BoldItalic => FormattingTag::BoldItalic,
            FormattingTag::Underline => FormattingTag::Underline,
            FormattingTag::Strikethrough => FormattingTag::Strikethrough,
            FormattingTag::Other(name) => FormattingTag::Other(name.clone()),
        }
    }
}

/// One span of rich text.
#[derive(Debug)]
pub enum RichTextPart {
    Text(String),
    Reference(Reference),
    FormattedSection(FormattingTag, RichText),
}

/// One logical span of inline-formatted prose: its parts in reading order.
#[derive(Debug)]
pub struct RichText(pub Vec<RichTextPart>);

impl View for RichTextPart {
    type V = PartView;

    open spec fn view(&self) -> PartView
        decreases self,
    {
        match self {
            RichTextPart::Text(text) => PartView::Text(text@),
            RichTextPart::Reference(reference) => PartView::Reference(reference@),
            RichTextPart::FormattedSection(tag, inner) => PartView::FormattedSection(tag@, inner@),
        }
    }
}

impl View for RichText {
    type V = Seq<PartView>;

    open spec fn view(&self) -> Seq<PartView>
        decreases self,
    {
        Seq::new(
            self.0@.len(),
            |i: int|
                if 0 <= i < self.0@.len() {
                    self.0[i]@
                } else {
                    arbitrary()
                },
        )
    }
}

impl PartialEq for RichTextPart {
    fn eq(&self, other: &Self) -> (r: bool)
        decreases self,
    {
        match (self, other) {
            (RichTextPart::Text(a), RichTextPart::Text(b)) => *a == *b,
            (RichTextPart::Reference(a), RichTextPart::Reference(b)) => *a == *b,
            (RichTextPart::FormattedSection(tag, inner), RichTextPart::FormattedSection(t, i)) => {
                *tag == *t && *inner == *i
            },
            _ => false,
        }
    }
}

impl vstd::std_specs::cmp::PartialEqSpecImpl for RichTextPart {
    open spec fn obeys_eq_spec() -> bool {
        true
    }

    open spec fn eq_spec(&self, other: &Self) -> bool {
        self@ == other@
    }
}

impl Eq for RichTextPart {

}

impl PartialEq for RichText {
    fn eq(&self, other: &Self) -> (r: bool)
        decreases self,
    {
        if self.0.len() != other.0.len() {
            assert(self@.len() != other@.len());
            return false;
        }
        let mut i: usize = 0;
        while i < self.0.len()
            invariant
                i <= self.0.len(),
                self.0.len() == other.0.len(),
                forall|k: int| 0 <= k < i ==> self.0[k]@ == other.0[k]@,
            decreases self.0.len() - i,
        {
            if !(self.0[i] == other.0[i]) {
                assert(self@[i as int] != other@[i as int]);
                return false;
            }
            i += 1;
        }
        assert(self@ =~= other@);
        true
    }
}

impl vstd::std_specs::cmp::PartialEqSpecImpl for RichText {
    open spec fn obeys_eq_spec() -> bool {
        true
    }

    open spec fn eq_spec(&self, other: &Self) -> bool {
        self@ == other@
    }
}

impl Eq for RichText {

}

impl Clone for RichTextPart {
    fn clone(&self) -> (r: Self)
        ensures
            r@ == self@,
        decreases self,
    {
        match self {
            RichTextPart::Text(text) => RichTextPart::Text(text.clone()),
            RichTextPart::Reference(reference) => RichTextPart::Reference(reference.clone()),
            RichTextPart::FormattedSection(tag, inner) => RichTextPart::FormattedSection(
                tag.clone(),
                inner.clone(),
            ),
        }
    }
}

impl Clone for RichText {
    fn clone(&self) -> (r: Self)
        ensures
            r@ == self@,
        decreases self,
    {
        let mut parts: Vec<RichTextPart> = Vec::new();
        let mut i: usize = 0;
        while i < self.0.len()
            invariant
                i <= self.0.len(),
                parts.len() == i,
                forall|k: int| 0 <= k < i ==> parts[k]@ == self.0[k]@,
            decreases self.0.len() - i,
        {
            parts.push(self.0[i].clone());
            i += 1;
        }
        let r = RichText(parts);
        assert(r@ =~= self@);
        r
    }
}

impl RichText {
    /// The concatenation of two rich texts: the parts of `self`, then those of `other`.
    pub fn merge(self, other: RichText) -> (r: Self)
        ensures
            r@ == self@ + other@,
    {
        let ghost left = self@;
        let ghost right = other@;
        let mut parts = self.0;
        let mut rest = other.0;
        parts.append(&mut rest);
        let r = RichText(parts);
        assert(r@ =~= left + right);
        r
    }

    /// Whether the rich text opens a parenthetical: its first part is text that begins with `(`.
    pub fn is_parenthetical(&self) -> (r: bool)
        ensures
            r == opens_parenthetical(self@),
    {
        if self.0.len() == 0 {
            return false;
        }
        match &self.0[0] {
            RichTextPart::Text(text) => {
                let text = text.as_str();
                !text.is_empty() && text.get_char(0) == '('
            },
            _ => false,
        }
    }

    /// The rich text without its formatting: text parts as they are, each reference by its alias
    /// or, where it has none, by its referent, and each formatted section by its content.
    pub fn as_string(&self) -> (r: String)
        ensures
            r@ == plain_text(self@),
        decreases self,
    {
        let mut out = String::new();
        let mut i: usize = 0;
        while i < self.0.len()
            invariant
                i <= self.0.len(),
                out@ == plain_text(self@.take(i as int)),
            decreases self.0.len() - i,
        {
            proof {
                assert(self@.take(i + 1).drop_last() =~= self@.take(i as int));
                assert(self@.take(i + 1).last() == self.0[i as int]@);
                assert(plain_text(self@.take(i + 1)) == plain_text(self@.take(i as int))
                    + plain_part(self.0[i as int]@));
            }
            match &self.0[i] {
                RichTextPart::Text(text) => {
                    out.append(text.as_str());
                },
                RichTextPart::Reference(reference) => {
                    match &reference.alias {
                        Some(alias) => out.append(alias.as_str()),
                        None => out.append(reference.referent.as_str()),
                    }
                },
                RichTextPart::FormattedSection(_, inner) => {
                    let inner_text = inner.as_string();
                    out.append(inner_text.as_str());
                },
            }
            i += 1;
        }
        assert(self@.take(i as int) =~= self@);
        out
    }
}

/// A metadata value: a rich text, or a list of values.
#[derive(Debug)]
pub enum Value {
    RichText(RichText),
    List(Vec<Value>),
}

impl View for Value {
    type V = ValueView;

    open spec fn view(&self) -> ValueView
        decreases self,
    {
        match self {
            Value::RichText(rich_text) => ValueView::RichText(rich_text@),
            Value::List(values) => ValueView::List(
                Seq::new(
                    values@.len(),
                    |i: int|
                        if 0 <= i < values@.len() {
                            values[i]@
                        } else {
                            arbitrary()
                        },
                ),
            ),
        }
    }
}

/// The view of a list, entry by entry.
pub proof fn lemma_list_view(values: Vec<Value>)
    ensures
        Value::List(values)@ is List,
        Value::List(values)@->List_0.len() == values@.len(),
        forall|i: int|
            0 <= i < values@.len() ==> #[trigger] Value::List(values)@->List_0[i] == values[i]@,
{
    reveal_with_fuel(<Value as View>::view, 2);
}

impl PartialEq for Value {
    fn eq(&self, other: &Self) -> (r: bool)
        decreases self,
    {
        match (self, other) {
            (Value::RichText(a), Value::RichText(b)) => *a == *b,
            (Value::List(a), Value::List(b)) => {
                proof {
                    lemma_list_view(*a);
                    lemma_list_view(*b);
                }
                if a.len() != b.len() {
                    assert(self@->List_0.len() != other@->List_0.len());
                    return false;
                }
                let mut i: usize = 0;
                while i < a.len()
                    invariant
                        i <= a.len(),
                        a.len() == b.len(),
                        self is List,
                        other is List,
                        *a == self->List_0,
                        *b == other->List_0,
                        forall|k: int| 0 <= k < i ==> a[k]@ == b[k]@,
                    decreases a.len() - i,
                {
                    proof {
                        lemma_list_view(*a);
                        lemma_list_view(*b);
                    }
                    if !(a[i] == b[i]) {
                        assert(self@->List_0[i as int] != other@->List_0[i as int]);
                        return false;
                    }
                    i += 1;
                }
                assert(self@->List_0 =~= other@->List_0);
                true
            },
            _ => false,
        }
    }
}

impl vstd::std_specs::cmp::PartialEqSpecImpl for Value {
    open spec fn obeys_eq_spec() -> bool {
        true
    }

    open spec fn eq_spec(&self, other: &Self) -> bool {
        self@ == other@
    }
}

impl Eq for Value {

}

impl Clone for Value {
    fn clone(&self) -> (r: Self)
        ensures
            r@ == self@,
        decreases self,
    {
        match self {
            Value::RichText(rich_text) => Value::RichText(rich_text.clone()),
            Value::List(values) => {
                let mut copies: Vec<Value> = Vec::new();
                let mut i: usize = 0;
                while i < values.len()
                    invariant
                        i <= values.len(),
                        copies.len() == i,
                        self is List,
                        *values == self->List_0,
                        forall|k: int| 0 <= k < i ==> copies[k]@ == values[k]@,
                    decreases values.len() - i,
                {
                    copies.push(values[i].clone());
                    i += 1;
                }
                let r = Value::List(copies);
                proof {
                    lemma_list_view(copies);
                    lemma_list_view(*values);
                }
                assert(r@->List_0 =~= self@->List_0);
                r
            },
        }
    }
}

impl Value {
    /// The value without its formatting: the plain text of a rich text, or the plain texts of a
    /// list's values one after another.
    pub fn as_string(&self) -> (r: String)
        ensures
            r@ == plain_value(self@),
        decreases self,
    {
        match self {
            Value::RichText(rich_text) => rich_text.as_string(),
            Value::List(values) => {
                let ghost views = self@->List_0;
                proof {
                    lemma_list_view(*values);
                }
                let mut out = String::new();
                let mut i: usize = 0;
                while i < values.len()
                    invariant
                        i <= values.len(),
                        self is List,
                        *values == self->List_0,
                        views == self@->List_0,
                        out@ == plain_values(views.take(i as int)),
                    decreases values.len() - i,
                {
                    proof {
                        lemma_list_view(*values);
                        assert(views.take(i + 1).drop_last() =~= views.take(i as int));
                        assert(views.take(i + 1).last() == values[i as int]@);
                    }
                    let text = values[i].as_string();
                    out.append(text.as_str());
                    i += 1;
                }
                assert(views.take(i as int) =~= views);
                out
            },
        }
    }
}

/// The views of the elements of `items`, in order.
pub open spec fn views<T: View>(items: Seq<T>) -> Seq<T::V> {
    Seq::new(items.len(), |i: int| items[i]@)
}

/// Whether two lists of rich texts are equal line by line.
fn same_lines(a: &Vec<RichText>, b: &Vec<RichText>) -> (r: bool)
    ensures
        r == (views(a@) == views(b@)),
{
    if a.len() != b.len() {
        assert(views(a@).len() != views(b@).len());
        return false;
    }
    let mut i: usize = 0;
    while i < a.len()
        invariant
            i <= a.len(),
            a.len() == b.len(),
            forall|k: int| 0 <= k < i ==> a[k]@ == b[k]@,
        decreases a.len() - i,
    {
        if !(a[i] == b[i]) {
            assert(views(a@)[i as int] != views(b@)[i as int]);
            return false;
        }
        i += 1;
    }
    assert(views(a@) =~= views(b@));
    true
}

/// A copy of a list of rich texts.
fn copy_lines(lines: &Vec<RichText>) -> (r: Vec<RichText>)
    ensures
        views(r@) == views(lines@),
{
    let mut copies: Vec<RichText> = Vec::new();
    let mut i: usize = 0;
    while i < lines.len()
        invariant
            i <= lines.len(),
            copies.len() == i,
            forall|k: int| 0 <= k < i ==> copies[k]@ == lines[k]@,
        decreases lines.len() - i,
    {
        copies.push(lines[i].clone());
        i += 1;
    }
    assert(views(copies@) =~= views(lines@));
    copies
}

/// One item of a scene. No rule of the grammar yields `Cont` or `If` yet: a parse never holds
/// one, and a consumer of the tree still has to provide for both.
#[derive(Debug)]
pub enum SceneItem {
    ActionBlock(RichText),
    DialogueBlock { speaker: Reference, block: Vec<RichText> },
    SpoilerBlock(RichText),
    TaggedAction(String, RichText),
    Cont(Reference),
    If(RichText, Vec<SceneItem>),
}

impl View for SceneItem {
    type V = ItemView;

    open spec fn view(&self) -> ItemView
        decreases self,
    {
        match self {
            SceneItem::ActionBlock(rich_text) => ItemView::ActionBlock(rich_text@),
            SceneItem::DialogueBlock { speaker, block } => ItemView::DialogueBlock {
                speaker: speaker@,
                block: views(block@),
            },
            SceneItem::SpoilerBlock(rich_text) => ItemView::SpoilerBlock(rich_text@),
            SceneItem::TaggedAction(tag, rich_text) => ItemView::TaggedAction(tag@, rich_text@),
            SceneItem::Cont(reference) => ItemView::Cont(reference@),
            SceneItem::If(condition, items) => ItemView::If(
                condition@,
                Seq::new(
                    items@.len(),
                    |i: int|
                        if 0 <= i < items@.len() {
                            items[i]@
                        } else {
                            arbitrary()
                        },
                ),
            ),
        }
    }
}

/// The view of a conditional's items, item by item.
pub proof fn lemma_if_view(condition: RichText, items: Vec<SceneItem>)
    ensures
        SceneItem::If(condition, items)@ == ItemView::If(condition@, views(items@)),
{
    reveal_with_fuel(<SceneItem as View>::view, 2);
    assert(SceneItem::If(condition, items)@->If_1 =~= views(items@));
}

impl PartialEq for SceneItem {
    fn eq(&self, other: &Self) -> (r: bool)
        decreases self,
    {
        match (self, other) {
            (SceneItem::ActionBlock(a), SceneItem::ActionBlock(b)) => *a == *b,
            (
                SceneItem::DialogueBlock { speaker, block },
                SceneItem::DialogueBlock { speaker: s, block: b },
            ) => *speaker == *s && same_lines(block, b),
            (SceneItem::SpoilerBlock(a), SceneItem::SpoilerBlock(b)) => *a == *b,
            (SceneItem::TaggedAction(tag, a), SceneItem::TaggedAction(t, b)) => *tag == *t && *a
                == *b,
            (SceneItem::Cont(a), SceneItem::Cont(b)) => *a == *b,
            (SceneItem::If(condition, a), SceneItem::If(c, b)) => {
                proof {
                    lemma_if_view(*condition, *a);
                    lemma_if_view(*c, *b);
                }
                if !(*condition == *c) {
                    return false;
                }
                if a.len() != b.len() {
                    assert(views(a@).len() != views(b@).len());
                    return false;
                }
                let mut i: usize = 0;
                while i < a.len()
                    invariant
                        i <= a.len(),
                        a.len() == b.len(),
                        self is If,
                        *a == self->If_1,
                        self@ == ItemView::If(condition@, views(a@)),
                        other@ == ItemView::If(c@, views(b@)),
                        forall|k: int| 0 <= k < i ==> a[k]@ == b[k]@,
                    decreases a.len() - i,
                {
                    if !(a[i] == b[i]) {
                        assert(views(a@)[i as int] != views(b@)[i as int]);
                        return false;
                    }
                    i += 1;
                }
                assert(views(a@) =~= views(b@));
                true
            },
            _ => false,
        }
    }
}

impl vstd::std_specs::cmp::PartialEqSpecImpl for SceneItem {
    open spec fn obeys_eq_spec() -> bool {
        true
    }

    open spec fn eq_spec(&self, other: &Self) -> bool {
        self@ == other@
    }
}

impl Eq for SceneItem {

}

impl Clone for SceneItem {
    fn clone(&self) -> (r: Self)
        ensures
            r@ == self@,
        decreases self,
    {
        match self {
            SceneItem::ActionBlock(rich_text) => SceneItem::ActionBlock(rich_text.clone()),
            SceneItem::DialogueBlock { speaker, block } => SceneItem::DialogueBlock {
                speaker: speaker.clone(),
                block: copy_lines(block),
            },
            SceneItem::SpoilerBlock(rich_text) => SceneItem::SpoilerBlock(rich_text.clone()),
            SceneItem::TaggedAction(tag, rich_text) => SceneItem::TaggedAction(
                tag.clone(),
                rich_text.clone(),
            ),
            SceneItem::Cont(reference) => SceneItem::Cont(reference.clone()),
            SceneItem::If(condition, items) => {
                let mut copies: Vec<SceneItem> = Vec::new();
                let mut i: usize = 0;
                while i < items.len()
                    invariant
                        i <= items.len(),
                        copies.len() == i,
                        self is If,
                        *items == self->If_1,
                        forall|k: int| 0 <= k < i ==> copies[k]@ == items[k]@,
                    decreases items.len() - i,
                {
                    copies.push(items[i].clone());
                    i += 1;
                }
                let r = SceneItem::If(condition.clone(), copies);
                proof {
                    lemma_if_view(*condition, *items);
                    lemma_if_view(r->If_0, copies);
                    assert(views(copies@) =~= views(items@));
                }
                r
            },
        }
    }
}

/// A named or anonymous block of items with its own metadata.
#[derive(Debug)]
pub struct Scene {
    pub name: Option<String>,
    pub meta: Metadata,
    pub items: Vec<SceneItem>,
}

/// The view of an optional string.
pub open spec fn optional_text(text: Option<String>) -> Option<Seq<char>> {
    match text {
        Some(text) => Some(text@),
        None => None,
    }
}

impl View for Scene {
    type V = SceneView;

    open spec fn view(&self) -> SceneView {
        SceneView { name: optional_text(self.name), meta: self.meta@, items: views(self.items@) }
    }
}

/// Whether two optional strings are equal.
fn same_text(a: &Option<String>, b: &Option<String>) -> (r: bool)
    ensures
        r == (optional_text(*a) == optional_text(*b)),
{
    match (a, b) {
        (Some(a), Some(b)) => *a == *b,
        (None, None) => true,
        _ => false,
    }
}

/// A copy of an optional string.
fn copy_text(text: &Option<String>) -> (r: Option<String>)
    ensures
        optional_text(r) == optional_text(*text),
{
    match text {
        Some(text) => Some(text.clone()),
        None => None,
    }
}

impl PartialEq for Scene {
    fn eq(&self, other: &Self) -> (r: bool) {
        if !same_text(&self.name, &other.name) || !(self.meta == other.meta) {
            return false;
        }
        if self.items.len() != other.items.len() {
            assert(self@.items.len() != other@.items.len());
            return false;
        }
        let mut i: usize = 0;
        while i < self.items.len()
            invariant
                i <= self.items.len(),
                self.items.len() == other.items.len(),
                forall|k: int| 0 <= k < i ==> self.items[k]@ == other.items[k]@,
            decreases self.items.len() - i,
        {
            if !(self.items[i] == other.items[i]) {
                assert(self@.items[i as int] != other@.items[i as int]);
                return false;
            }
            i += 1;
        }
        assert(self@.items =~= other@.items);
        true
    }
}

impl vstd::std_specs::cmp::PartialEqSpecImpl for Scene {
    open spec fn obeys_eq_spec() -> bool {
        true
    }

    open spec fn eq_spec(&self, other: &Self) -> bool {
        self@ == other@
    }
}

impl Eq for Scene {

}

impl Clone for Scene {
    fn clone(&self) -> (r: Self)
        ensures
            r@ == self@,
    {
        let mut items: Vec<SceneItem> = Vec::new();
        let mut i: usize = 0;
        while i < self.items.len()
            invariant
                i <= self.items.len(),
                items.len() == i,
                forall|k: int| 0 <= k < i ==> items[k]@ == self.items[k]@,
            decreases self.items.len() - i,
        {
            items.push(self.items[i].clone());
            i += 1;
        }
        let r = Scene { name: copy_text(&self.name), meta: self.meta.clone(), items };
        assert(r@.items =~= self@.items);
        r
    }
}

/// A whole document: the root of the tree.
#[derive(Debug)]
pub struct File {
    pub title: Option<String>,
    pub subtitle: Option<String>,
    pub frontmatter: Option<Metadata>,
    pub scenes: Vec<Scene>,
}

impl View for File {
    type V = FileView;

    open spec fn view(&self) -> FileView {
        FileView {
            title: optional_text(self.title),
            subtitle: optional_text(self.subtitle),
            frontmatter: match self.frontmatter {
                Some(frontmatter) => Some(frontmatter@),
                None => None,
            },
            scenes: views(self.scenes@),
        }
    }
}

impl PartialEq for File {
    fn eq(&self, other: &Self) -> (r: bool) {
        let same_frontmatter = match (&self.frontmatter, &other.frontmatter) {
            (Some(a), Some(b)) => *a == *b,
            (None, None) => true,
            _ => false,
        };
        if !same_text(&self.title, &other.title) || !same_text(&self.subtitle, &other.subtitle)
            || !same_frontmatter {
            return false;
        }
        if self.scenes.len() != other.scenes.len() {
            assert(self@.scenes.len() != other@.scenes.len());
            return false;
        }
        let mut i: usize = 0;
        while i < self.scenes.len()
            invariant
                i <= self.scenes.len(),
                self.scenes.len() == other.scenes.len(),
                forall|k: int| 0 <= k < i ==> self.scenes[k]@ == other.scenes[k]@,
            decreases self.scenes.len() - i,
        {
            if !(self.scenes[i] == other.scenes[i]) {
                assert(self@.scenes[i as int] != other@.scenes[i as int]);
                return false;
            }
            i += 1;
        }
        assert(self@.scenes =~= other@.scenes);
        true
    }
}

impl vstd::std_specs::cmp::PartialEqSpecImpl for File {
    open spec fn obeys_eq_spec() -> bool {
        true
    }

    open spec fn eq_spec(&self, other: &Self) -> bool {
        self@ == other@
    }
}

impl Eq for File {

}

impl Clone for File {
    fn clone(&self) -> (r: Self)
        ensures
            r@ == self@,
    {
        let mut scenes: Vec<Scene> = Vec::new();
        let mut i: usize = 0;
        while i < self.scenes.len()
            invariant
                i <= self.scenes.len(),
                scenes.len() == i,
                forall|k: int| 0 <= k < i ==> scenes[k]@ == self.scenes[k]@,
            decreases self.scenes.len() - i,
        {
            scenes.push(self.scenes[i].clone());
            i += 1;
        }
        let r = File {
            title: copy_text(&self.title),
            subtitle: copy_text(&self.subtitle),
            frontmatter: match &self.frontmatter {
                Some(frontmatter) => Some(frontmatter.clone()),
                None => None,
            },
            scenes,
        };
        assert(r@.scenes =~= self@.scenes);
        r
    }
}

} // verus!
