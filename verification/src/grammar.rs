//! The grammar of the markup.
//!
//! The grammar is a set of rules over a sequence of characters `s` and a position `i` in it. A
//! rule that may fail gives `None`, or the value it recognises together with the position where
//! it stops; a rule that cannot fail gives the pair itself. Alternatives are tried in the order
//! written and the first that matches is taken; a repetition takes as many elements as match.
//!
//! ```text
//! file         = [frontmatter] [heading [heading]] spaces {scene spaces} end-of-input
//! frontmatter  = fence [key-value {LF key-value} line-break] fence
//! fence        = "---" (line-break | end-of-input)
//! heading      = line               ; not starting with a space character nor with "=="
//! scene        = header key-value-list spaces scene-item {LF spaces scene-item}
//! header       = "==" [name] "==" line-break
//! key-value    = identifier blanks ":" blanks rich-text
//! scene-item   = comment | tagged-action | dialogue | action
//! comment      = blanks "//" blanks rich-text
//! tagged-action= blanks "#" identifier blank blanks rich-text
//! dialogue     = "[" reference "]" line-break block
//! action       = block
//! block        = text-line {line-break text-line}
//! text-line    = rich-text          ; with at least one part
//! rich-text    = {open reference close | text}
//! reference    = referent ["|" alias]
//! ```
//!
//! What `open` and `close` are depends on the version of the grammar: see [`Version`].

use vstd::prelude::*;
use crate::chars::{is_line_break, is_space, is_whitespace, CharClass};
use crate::metadata::entries_map;
use crate::model::{FileView, ItemView, PartView, ReferenceView, SceneView, ValueView};

verus! {

/// A version of the grammar. The versions differ in how an inline reference is delimited; all
/// else they share. Each rule that depends on the version takes it as its first argument and
/// looks its delimiters up by it.
#[derive(Debug, Clone, Copy, PartialEq, Eq, Structural)]
pub enum Version {
    /// An inline reference stands between `[` and `]`.
    SingleBracket,
    /// An inline reference stands between `[[` and `]]`. This is the current version.
    DoubleBracket,
}

impl Version {
    /// How many brackets open, and how many close, an inline reference.
    pub open spec fn brackets(self) -> int {
        match self {
            Version::SingleBracket => 1,
            Version::DoubleBracket => 2,
        }
    }

    /// The current version.
    pub open spec fn current() -> Version {
        Version::DoubleBracket
    }

    /// How many brackets open, and how many close, an inline reference.
    pub fn reference_brackets(self) -> (n: usize)
        ensures
            n == self.brackets(),
    {
        match self {
            Version::SingleBracket => 1,
            Version::DoubleBracket => 2,
        }
    }
}

impl Default for Version {
    fn default() -> (r: Self)
        ensures
            r == Version::current(),
    {
        Version::DoubleBracket
    }
}

/// The character at position `i` of `s` is `c`.
pub open spec fn at(s: Seq<char>, i: int, c: char) -> bool {
    0 <= i < s.len() && s[i] == c
}

/// Where the longest run of characters of `class` that starts at `i` stops.
pub open spec fn run(s: Seq<char>, i: int, class: CharClass) -> int
    decreases s.len() - i,
{
    if 0 <= i < s.len() && class.holds(s[i]) {
        run(s, i + 1, class)
    } else {
        i
    }
}

/// A run stops at the first character outside the class, or at the end of the input.
pub proof fn lemma_run(s: Seq<char>, i: int, class: CharClass)
    requires
        0 <= i <= s.len(),
    ensures
        i <= run(s, i, class) <= s.len(),
        forall|k: int| i <= k < run(s, i, class) ==> class.holds(#[trigger] s[k]),
        run(s, i, class) < s.len() ==> !class.holds(s[run(s, i, class)]),
    decreases s.len() - i,
{
    if i < s.len() && class.holds(s[i]) {
        lemma_run(s, i + 1, class);
    }
}

/// The length of the line break that starts at `i`: 1 for a line feed, 2 for a carriage return
/// with a line feed, 0 where no line break starts.
pub open spec fn line_break(s: Seq<char>, i: int) -> int {
    if at(s, i, '\n') {
        1
    } else if at(s, i, '\r') && at(s, i + 1, '\n') {
        2
    } else {
        0
    }
}

/// A metadata key or an action tag: one or more identifier characters.
pub open spec fn identifier(s: Seq<char>, i: int) -> Option<(Seq<char>, int)> {
    let j = run(s, i, CharClass::Identifier);
    if j > i {
        Some((s.subrange(i, j), j))
    } else {
        None
    }
}

/// A reference body: a referent, then optionally `|` and an alias, each one or more reference
/// characters. A `|` that no alias follows is not part of the reference.
pub open spec fn reference(s: Seq<char>, i: int) -> Option<(ReferenceView, int)> {
    let j = run(s, i, CharClass::Reference);
    let k = run(s, j + 1, CharClass::Reference);
    if j <= i {
        None
    } else if at(s, j, '|') && k > j + 1 {
        Some((ReferenceView { referent: s.subrange(i, j), alias: Some(s.subrange(j + 1, k)) }, k))
    } else {
        Some((ReferenceView { referent: s.subrange(i, j), alias: None }, j))
    }
}

/// As many characters `c` stand at `i` as the version has brackets on each side of an inline
/// reference.
pub open spec fn delimiter(v: Version, s: Seq<char>, i: int, c: char) -> bool {
    at(s, i, c) && (v.brackets() == 2 ==> at(s, i + 1, c))
}

/// An inline reference: a reference body between opening and closing brackets, as many on each
/// side as the version has.
pub open spec fn rich_text_part_reference(
    v: Version,
    s: Seq<char>,
    i: int,
) -> Option<(PartView, int)> {
    if delimiter(v, s, i, '[') {
        match reference(s, i + v.brackets()) {
            Some((body, j)) => if delimiter(v, s, j, ']') {
                Some((PartView::Reference(body), j + v.brackets()))
            } else {
                None
            },
            None => None,
        }
    } else {
        None
    }
}

/// A run of plain text: one or more text characters, as many as there are.
pub open spec fn rich_text_part_text(s: Seq<char>, i: int) -> Option<(PartView, int)> {
    let j = run(s, i, CharClass::Text);
    if j > i {
        Some((PartView::Text(s.subrange(i, j)), j))
    } else {
        None
    }
}

/// One part of a rich text: an inline reference or, failing that, a run of plain text.
pub open spec fn rich_text_part(v: Version, s: Seq<char>, i: int) -> Option<(PartView, int)> {
    match rich_text_part_reference(v, s, i) {
        Some(found) => Some(found),
        None => rich_text_part_text(s, i),
    }
}

/// A part lies inside the input and is not empty.
pub proof fn lemma_rich_text_part(v: Version, s: Seq<char>, i: int)
    ensures
        rich_text_part(v, s, i) matches Some((_, j)) ==> 0 <= i < j <= s.len(),
{
    if 0 <= i <= s.len() {
        lemma_run(s, i, CharClass::Text);
    }
    if delimiter(v, s, i, '[') {
        let a = i + v.brackets();
        lemma_run(s, a, CharClass::Reference);
        let j = run(s, a, CharClass::Reference);
        if j + 1 <= s.len() {
            lemma_run(s, j + 1, CharClass::Reference);
        }
    }
}

/// Inline text: the parts that follow one another from `i`, as many as there are. Where no part
/// starts at `i` the rich text is empty and stops at `i`.
pub open spec fn rich_text(v: Version, s: Seq<char>, i: int) -> (Seq<PartView>, int)
    decreases s.len() - i,
    via rich_text_decreases
{
    match rich_text_part(v, s, i) {
        Some((part, j)) => {
            let (rest, k) = rich_text(v, s, j);
            (seq![part] + rest, k)
        },
        None => (Seq::empty(), i),
    }
}

#[via_fn]
proof fn rich_text_decreases(v: Version, s: Seq<char>, i: int) {
    lemma_rich_text_part(v, s, i);
}

/// A rich text lies inside the input, and it is empty exactly where it consumes nothing.
pub proof fn lemma_rich_text(v: Version, s: Seq<char>, i: int)
    requires
        0 <= i <= s.len(),
    ensures
        i <= rich_text(v, s, i).1 <= s.len(),
        rich_text(v, s, i).0.len() == 0 <==> rich_text(v, s, i).1 == i,
    decreases s.len() - i,
{
    lemma_rich_text_part(v, s, i);
    match rich_text_part(v, s, i) {
        Some((_, j)) => lemma_rich_text(v, s, j),
        None => {},
    }
}

/// A line of a block: a rich text of at least one part.
pub open spec fn text_line(v: Version, s: Seq<char>, i: int) -> Option<(Seq<PartView>, int)> {
    let (parts, j) = rich_text(v, s, i);
    if parts.len() > 0 {
        Some((parts, j))
    } else {
        None
    }
}

/// The lines that follow a line that stopped at `i`: each after one line break. The list stops
/// before a line break that no line follows.
pub open spec fn more_text_lines(v: Version, s: Seq<char>, i: int) -> (Seq<Seq<PartView>>, int)
    decreases s.len() - i,
    via more_text_lines_decreases
{
    if line_break(s, i) > 0 {
        match text_line(v, s, i + line_break(s, i)) {
            Some((line, j)) => {
                let (rest, k) = more_text_lines(v, s, j);
                (seq![line] + rest, k)
            },
            None => (Seq::empty(), i),
        }
    } else {
        (Seq::empty(), i)
    }
}

#[via_fn]
proof fn more_text_lines_decreases(v: Version, s: Seq<char>, i: int) {
    if line_break(s, i) > 0 {
        lemma_rich_text(v, s, i + line_break(s, i));
    }
}

/// The lines after a line lie inside the input.
pub proof fn lemma_more_text_lines(v: Version, s: Seq<char>, i: int)
    requires
        0 <= i <= s.len(),
    ensures
        i <= more_text_lines(v, s, i).1 <= s.len(),
    decreases s.len() - i,
{
    if line_break(s, i) > 0 {
        lemma_rich_text(v, s, i + line_break(s, i));
        match text_line(v, s, i + line_break(s, i)) {
            Some((_, j)) => lemma_more_text_lines(v, s, j),
            None => {},
        }
    }
}

/// A block: one line, and the lines that follow it.
pub open spec fn rich_text_block(
    v: Version,
    s: Seq<char>,
    i: int,
) -> Option<(Seq<Seq<PartView>>, int)> {
    match text_line(v, s, i) {
        Some((line, j)) => {
            let (rest, k) = more_text_lines(v, s, j);
            Some((seq![line] + rest, k))
        },
        None => None,
    }
}

/// A block lies inside the input, is not empty and holds at least one line.
pub proof fn lemma_rich_text_block(v: Version, s: Seq<char>, i: int)
    requires
        0 <= i <= s.len(),
    ensures
        rich_text_block(v, s, i) matches Some((lines, j)) ==> i < j <= s.len() && lines.len() > 0,
{
    lemma_rich_text(v, s, i);
    match text_line(v, s, i) {
        Some((_, j)) => lemma_more_text_lines(v, s, j),
        None => {},
    }
}

/// The lines of a block as one rich text: the parts of the first line, then those of the
/// second, and so on.
pub open spec fn merged(lines: Seq<Seq<PartView>>) -> Seq<PartView>
    decreases lines.len(),
{
    if lines.len() == 0 {
        Seq::empty()
    } else {
        merged(lines.drop_last()) + lines.last()
    }
}

/// A comment: `//` and the rest of the line as rich text. Blanks may stand before and after the
/// two slashes.
pub open spec fn comment(v: Version, s: Seq<char>, i: int) -> Option<(ItemView, int)> {
    let a = run(s, i, CharClass::Blank);
    if at(s, a, '/') && at(s, a + 1, '/') {
        let (text, j) = rich_text(v, s, run(s, a + 2, CharClass::Blank));
        Some((ItemView::SpoilerBlock(text), j))
    } else {
        None
    }
}

/// A tagged action: `#`, a tag, at least one blank, and the rest of the line as rich text.
/// Blanks may stand before the `#`.
pub open spec fn tagged_action_line(v: Version, s: Seq<char>, i: int) -> Option<(ItemView, int)> {
    let a = run(s, i, CharClass::Blank);
    if at(s, a, '#') {
        match identifier(s, a + 1) {
            Some((tag, b)) => {
                let c = run(s, b, CharClass::Blank);
                if c > b {
                    let (text, j) = rich_text(v, s, c);
                    Some((ItemView::TaggedAction(tag, text), j))
                } else {
                    None
                }
            },
            None => None,
        }
    } else {
        None
    }
}

/// A dialogue: the speaker as a reference body between `[` and `]`, a line break, and a block
/// with the lines spoken.
pub open spec fn dialogue_block(v: Version, s: Seq<char>, i: int) -> Option<(ItemView, int)> {
    if at(s, i, '[') {
        match reference(s, i + 1) {
            Some((speaker, j)) => {
                if at(s, j, ']') && line_break(s, j + 1) > 0 {
                    match rich_text_block(v, s, j + 1 + line_break(s, j + 1)) {
                        Some((block, k)) => Some((ItemView::DialogueBlock { speaker, block }, k)),
                        None => None,
                    }
                } else {
                    None
                }
            },
            None => None,
        }
    } else {
        None
    }
}

/// An action: a block, its lines merged into one rich text.
pub open spec fn action_block(v: Version, s: Seq<char>, i: int) -> Option<(ItemView, int)> {
    match rich_text_block(v, s, i) {
        Some((lines, j)) => Some((ItemView::ActionBlock(merged(lines)), j)),
        None => None,
    }
}

/// One item of a scene: the first of comment, tagged action, dialogue and action that matches.
pub open spec fn scene_item(v: Version, s: Seq<char>, i: int) -> Option<(ItemView, int)> {
    match comment(v, s, i) {
        Some(found) => Some(found),
        None => match tagged_action_line(v, s, i) {
            Some(found) => Some(found),
            None => match dialogue_block(v, s, i) {
                Some(found) => Some(found),
                None => action_block(v, s, i),
            },
        },
    }
}

/// An item lies inside the input and is not empty.
pub proof fn lemma_scene_item(v: Version, s: Seq<char>, i: int)
    requires
        0 <= i <= s.len(),
    ensures
        scene_item(v, s, i) matches Some((_, j)) ==> i < j <= s.len(),
{
    lemma_run(s, i, CharClass::Blank);
    let a = run(s, i, CharClass::Blank);
    if at(s, a, '/') && at(s, a + 1, '/') {
        lemma_run(s, a + 2, CharClass::Blank);
        lemma_rich_text(v, s, run(s, a + 2, CharClass::Blank));
    }
    if at(s, a, '#') {
        lemma_run(s, a + 1, CharClass::Identifier);
        let b = run(s, a + 1, CharClass::Identifier);
        lemma_run(s, b, CharClass::Blank);
        lemma_rich_text(v, s, run(s, b, CharClass::Blank));
    }
    if at(s, i, '[') {
        lemma_run(s, i + 1, CharClass::Reference);
        let j = run(s, i + 1, CharClass::Reference);
        if j + 1 <= s.len() {
            lemma_run(s, j + 1, CharClass::Reference);
        }
        match reference(s, i + 1) {
            Some((_, j)) => {
                if at(s, j, ']') && line_break(s, j + 1) > 0 {
                    lemma_rich_text_block(v, s, j + 1 + line_break(s, j + 1));
                }
            },
            None => {},
        }
    }
    lemma_rich_text_block(v, s, i);
}

/// The items that follow an item that stopped at `i`: each after one line feed and any space
/// characters behind it. The list stops before a line feed that no item follows.
pub open spec fn more_scene_items(v: Version, s: Seq<char>, i: int) -> (Seq<ItemView>, int)
    decreases s.len() - i,
    via more_scene_items_decreases
{
    if at(s, i, '\n') {
        match scene_item(v, s, run(s, i + 1, CharClass::Space)) {
            Some((item, j)) => {
                let (rest, k) = more_scene_items(v, s, j);
                (seq![item] + rest, k)
            },
            None => (Seq::empty(), i),
        }
    } else {
        (Seq::empty(), i)
    }
}

#[via_fn]
proof fn more_scene_items_decreases(v: Version, s: Seq<char>, i: int) {
    if at(s, i, '\n') {
        lemma_run(s, i + 1, CharClass::Space);
        lemma_scene_item(v, s, run(s, i + 1, CharClass::Space));
    }
}

/// The items after an item lie inside the input.
pub proof fn lemma_more_scene_items(v: Version, s: Seq<char>, i: int)
    requires
        0 <= i <= s.len(),
    ensures
        i <= more_scene_items(v, s, i).1 <= s.len(),
    decreases s.len() - i,
{
    if at(s, i, '\n') {
        lemma_run(s, i + 1, CharClass::Space);
        lemma_scene_item(v, s, run(s, i + 1, CharClass::Space));
        match scene_item(v, s, run(s, i + 1, CharClass::Space)) {
            Some((_, j)) => lemma_more_scene_items(v, s, j),
            None => {},
        }
    }
}

/// The items of a scene: one item, and the items that follow it.
pub open spec fn scene_items(v: Version, s: Seq<char>, i: int) -> Option<(Seq<ItemView>, int)> {
    match scene_item(v, s, i) {
        Some((item, j)) => {
            let (rest, k) = more_scene_items(v, s, j);
            Some((seq![item] + rest, k))
        },
        None => None,
    }
}

/// A list of items lies inside the input and holds at least one item.
pub proof fn lemma_scene_items(v: Version, s: Seq<char>, i: int)
    requires
        0 <= i <= s.len(),
    ensures
        scene_items(v, s, i) matches Some((items, j)) ==> i < j <= s.len() && items.len() > 0,
{
    lemma_scene_item(v, s, i);
    match scene_item(v, s, i) {
        Some((_, j)) => lemma_more_scene_items(v, s, j),
        None => {},
    }
}

/// A metadata value: a rich text.
pub open spec fn value(v: Version, s: Seq<char>, i: int) -> (ValueView, int) {
    let (text, j) = rich_text(v, s, i);
    (ValueView::RichText(text), j)
}

/// A metadata entry: a key, `:` and the rest of the line as the value. Blanks may stand before
/// and after the colon.
pub open spec fn key_value(
    v: Version,
    s: Seq<char>,
    i: int,
) -> Option<((Seq<char>, ValueView), int)> {
    match identifier(s, i) {
        Some((key, a)) => {
            let b = run(s, a, CharClass::Blank);
            if at(s, b, ':') {
                let (v, j) = value(v, s, run(s, b + 1, CharClass::Blank));
                Some(((key, v), j))
            } else {
                None
            }
        },
        None => None,
    }
}

/// An entry lies inside the input and is not empty.
pub proof fn lemma_key_value(v: Version, s: Seq<char>, i: int)
    ensures
        key_value(v, s, i) matches Some((_, j)) ==> 0 <= i < j <= s.len(),
{
    if 0 <= i <= s.len() {
        lemma_run(s, i, CharClass::Identifier);
        let a = run(s, i, CharClass::Identifier);
        lemma_run(s, a, CharClass::Blank);
        let b = run(s, a, CharClass::Blank);
        if at(s, b, ':') {
            lemma_run(s, b + 1, CharClass::Blank);
            lemma_rich_text(v, s, run(s, b + 1, CharClass::Blank));
        }
    }
}

/// The entries that follow an entry that stopped at `i`: each after one line feed. The list
/// stops before a line feed that no entry follows.
pub open spec fn more_key_values(v: Version, s: Seq<char>, i: int) -> (
    Seq<(Seq<char>, ValueView)>,
    int,
)
    decreases s.len() - i,
    via more_key_values_decreases
{
    if at(s, i, '\n') {
        match key_value(v, s, i + 1) {
            Some((entry, j)) => {
                let (rest, k) = more_key_values(v, s, j);
                (seq![entry] + rest, k)
            },
            None => (Seq::empty(), i),
        }
    } else {
        (Seq::empty(), i)
    }
}

#[via_fn]
proof fn more_key_values_decreases(v: Version, s: Seq<char>, i: int) {
    lemma_key_value(v, s, i + 1);
}

/// The entries of a metadata list, in the order written: none, or one and those that follow it.
pub open spec fn key_values(v: Version, s: Seq<char>, i: int) -> (
    Seq<(Seq<char>, ValueView)>,
    int,
) {
    match key_value(v, s, i) {
        Some((entry, j)) => {
            let (rest, k) = more_key_values(v, s, j);
            (seq![entry] + rest, k)
        },
        None => (Seq::empty(), i),
    }
}

/// A list of entries lies inside the input, and it is empty exactly where it consumes nothing.
pub proof fn lemma_key_values(v: Version, s: Seq<char>, i: int)
    requires
        0 <= i <= s.len(),
    ensures
        i <= more_key_values(v, s, i).1 <= s.len(),
        i <= key_values(v, s, i).1 <= s.len(),
        key_values(v, s, i).0.len() == 0 <==> key_values(v, s, i).1 == i,
    decreases s.len() - i, 1int,
{
    lemma_key_value(v, s, i);
    lemma_key_value(v, s, i + 1);
    if at(s, i, '\n') {
        match key_value(v, s, i + 1) {
            Some((_, j)) => lemma_more_key_values(v, s, j),
            None => {},
        }
    }
    match key_value(v, s, i) {
        Some((_, j)) => lemma_more_key_values(v, s, j),
        None => {},
    }
}

/// The entries after an entry lie inside the input.
pub proof fn lemma_more_key_values(v: Version, s: Seq<char>, i: int)
    requires
        0 <= i <= s.len(),
    ensures
        i <= more_key_values(v, s, i).1 <= s.len(),
    decreases s.len() - i, 0int,
{
    lemma_key_value(v, s, i + 1);
    if at(s, i, '\n') {
        match key_value(v, s, i + 1) {
            Some((_, j)) => lemma_more_key_values(v, s, j),
            None => {},
        }
    }
}

/// A metadata list: its entries as a map. Of two entries with one key the later one stays.
pub open spec fn key_value_list(v: Version, s: Seq<char>, i: int) -> (
    Map<Seq<char>, ValueView>,
    int,
) {
    let (entries, j) = key_values(v, s, i);
    (entries_map(entries), j)
}

/// Where the name in a scene's header stops: at the first `==`, at a line break character, or at
/// the end of the input.
pub open spec fn name_end(s: Seq<char>, i: int) -> int
    decreases s.len() - i,
{
    if 0 <= i < s.len() && !is_line_break(s[i]) && !(at(s, i, '=') && at(s, i + 1, '=')) {
        name_end(s, i + 1)
    } else {
        i
    }
}

/// The name in a header lies inside the input and holds no line break.
pub proof fn lemma_name_end(s: Seq<char>, i: int)
    requires
        0 <= i <= s.len(),
    ensures
        i <= name_end(s, i) <= s.len(),
        forall|k: int| i <= k < name_end(s, i) ==> !is_line_break(#[trigger] s[k]),
    decreases s.len() - i,
{
    if i < s.len() && !is_line_break(s[i]) && !(at(s, i, '=') && at(s, i + 1, '=')) {
        lemma_name_end(s, i + 1);
    }
}

/// `text` without the whitespace at its start.
pub open spec fn trim_start(text: Seq<char>) -> Seq<char>
    decreases text.len(),
{
    if text.len() > 0 && is_whitespace(text.first()) {
        trim_start(text.drop_first())
    } else {
        text
    }
}

/// `text` without the whitespace at its end.
pub open spec fn trim_end(text: Seq<char>) -> Seq<char>
    decreases text.len(),
{
    if text.len() > 0 && is_whitespace(text.last()) {
        trim_end(text.drop_last())
    } else {
        text
    }
}

/// `text` without the whitespace at its start and at its end.
pub open spec fn trim(text: Seq<char>) -> Seq<char> {
    trim_end(trim_start(text))
}

/// A scene's header: `==`, the name, `==` and a line break, all on one line. The name is what
/// stands between the two marks, trimmed; where nothing stands between them the scene has no
/// name.
pub open spec fn scene_header(s: Seq<char>, i: int) -> Option<(Option<Seq<char>>, int)> {
    let a = i + 2;
    let b = name_end(s, a);
    if at(s, i, '=') && at(s, i + 1, '=') && at(s, b, '=') && at(s, b + 1, '=') && line_break(
        s,
        b + 2,
    ) > 0 {
        let name = if b > a {
            Some(trim(s.subrange(a, b)))
        } else {
            None
        };
        Some((name, b + 2 + line_break(s, b + 2)))
    } else {
        None
    }
}

/// A scene: its header, its metadata list, any space characters, and its items.
pub open spec fn scene(v: Version, s: Seq<char>, i: int) -> Option<(SceneView, int)> {
    match scene_header(s, i) {
        Some((name, a)) => {
            let (meta, b) = key_value_list(v, s, a);
            match scene_items(v, s, run(s, b, CharClass::Space)) {
                Some((items, j)) => Some((SceneView { name, meta, items }, j)),
                None => None,
            }
        },
        None => None,
    }
}

/// A scene lies inside the input, is not empty and holds at least one item.
pub proof fn lemma_scene(v: Version, s: Seq<char>, i: int)
    ensures
        scene(v, s, i) matches Some((found, j)) ==> 0 <= i < j <= s.len() && found.items.len() > 0,
{
    if at(s, i, '=') && at(s, i + 1, '=') {
        lemma_name_end(s, i + 2);
        match scene_header(s, i) {
            Some((_, a)) => {
                lemma_key_values(v, s, a);
                let b = key_values(v, s, a).1;
                lemma_run(s, b, CharClass::Space);
                lemma_scene_items(v, s, run(s, b, CharClass::Space));
            },
            None => {},
        }
    }
}

/// The scenes of a file: as many as follow one another from `i`, with any space characters
/// after each.
pub open spec fn scenes(v: Version, s: Seq<char>, i: int) -> (Seq<SceneView>, int)
    decreases s.len() - i,
    via scenes_decreases
{
    match scene(v, s, i) {
        Some((found, j)) => {
            let (rest, k) = scenes(v, s, run(s, j, CharClass::Space));
            (seq![found] + rest, k)
        },
        None => (Seq::empty(), i),
    }
}

#[via_fn]
proof fn scenes_decreases(v: Version, s: Seq<char>, i: int) {
    lemma_scene(v, s, i);
    match scene(v, s, i) {
        Some((_, j)) => lemma_run(s, j, CharClass::Space),
        None => {},
    }
}

/// A fence: a line that holds `---` and nothing else. The position given is where the next line
/// starts.
pub open spec fn fence(s: Seq<char>, i: int) -> Option<int> {
    if at(s, i, '-') && at(s, i + 1, '-') && at(s, i + 2, '-') && (i + 3 == s.len() || line_break(
        s,
        i + 3,
    ) > 0) {
        Some(i + 3 + line_break(s, i + 3))
    } else {
        None
    }
}

/// The frontmatter of a file. A file that does not start with a fence has none: the rule gives
/// `Some((None, 0))`. A file that does has its frontmatter between that fence and a second one:
/// a metadata list and, unless the list is empty, a line break behind it. Where the list is not
/// followed so the rule fails, and the file with it.
pub open spec fn frontmatter(
    v: Version,
    s: Seq<char>,
) -> Option<(Option<Map<Seq<char>, ValueView>>, int)> {
    match fence(s, 0) {
        Some(a) => {
            let (entries, b) = key_values(v, s, a);
            let n = if entries.len() > 0 {
                line_break(s, b)
            } else {
                0
            };
            match fence(s, b + n) {
                Some(c) => if entries.len() > 0 && n == 0 {
                    None
                } else {
                    Some((Some(entries_map(entries)), c))
                },
                None => None,
            }
        },
        None => Some((None, 0)),
    }
}

/// Where the line that holds position `i` stops: at the first line break at or after `i`, or at
/// the end of the input.
pub open spec fn line_end(s: Seq<char>, i: int) -> int
    decreases s.len() - i,
{
    if 0 <= i < s.len() && line_break(s, i) == 0 {
        line_end(s, i + 1)
    } else {
        i
    }
}

/// A line stops inside the input, and no line break starts inside it.
pub proof fn lemma_line_end(s: Seq<char>, i: int)
    requires
        0 <= i <= s.len(),
    ensures
        i <= line_end(s, i) <= s.len(),
        forall|k: int| i <= k < line_end(s, i) ==> #[trigger] line_break(s, k) == 0,
    decreases s.len() - i,
{
    if i < s.len() && line_break(s, i) == 0 {
        lemma_line_end(s, i + 1);
    }
}

/// A line: the characters up to the next line break or the end of the input. The position
/// given is past the line break.
pub open spec fn line(s: Seq<char>, i: int) -> (Seq<char>, int) {
    let j = line_end(s, i);
    (s.subrange(i, j), j + line_break(s, j))
}

/// A heading that the grammar recognises is as a parse gives it, and stops inside the input.
pub proof fn lemma_heading(s: Seq<char>, i: int)
    requires
        0 <= i <= s.len(),
    ensures
        heading(s, i) matches Some((text, j)) ==> parsed_heading(text) && i < j <= s.len(),
{
    lemma_line_end(s, i);
    if heading(s, i) is Some {
        let text = s.subrange(i, line_end(s, i));
        lemma_line_end(s, i + 1);
        assert forall|k: int| 0 <= k < text.len() implies #[trigger] text[k] != '\n' by {
            assert(line_break(s, i + k) == 0);
        }
    }
}

/// A heading: a line that starts neither with a space character nor with `==`. A file's title
/// and its subtitle are headings.
pub open spec fn heading(s: Seq<char>, i: int) -> Option<(Seq<char>, int)> {
    if 0 <= i < s.len() && !is_space(s[i]) && !(at(s, i, '=') && at(s, i + 1, '=')) {
        Some(line(s, i))
    } else {
        None
    }
}

/// A whole file: the frontmatter if there is one, a title and a subtitle if there are any, and
/// the scenes, with space characters before and after each, up to the end of the input. Where
/// anything is left after the last scene the rule fails.
pub open spec fn file(v: Version, s: Seq<char>) -> Option<FileView> {
    match frontmatter(v, s) {
        Some((frontmatter, a)) => {
            let title = heading(s, a);
            let b = match title {
                Some((_, b)) => b,
                None => a,
            };
            let subtitle = if title is Some {
                heading(s, b)
            } else {
                None
            };
            let c = match subtitle {
                Some((_, c)) => c,
                None => b,
            };
            let (found, j) = scenes(v, s, run(s, c, CharClass::Space));
            if j == s.len() {
                Some(
                    FileView {
                        title: match title {
                            Some((text, _)) => Some(text),
                            None => None,
                        },
                        subtitle: match subtitle {
                            Some((text, _)) => Some(text),
                            None => None,
                        },
                        frontmatter,
                        scenes: found,
                    },
                )
            } else {
                None
            }
        },
        None => None,
    }
}

/// `text` holds characters of `class` only.
pub open spec fn all_of(text: Seq<char>, class: CharClass) -> bool {
    forall|k: int| 0 <= k < text.len() ==> class.holds(#[trigger] text[k])
}

/// `text` is not empty and holds characters of `class` only.
pub open spec fn word(text: Seq<char>, class: CharClass) -> bool {
    text.len() > 0 && all_of(text, class)
}

/// A scene's name as a parse gives it: it holds no line break, and no whitespace stands at its
/// start or at its end.
pub open spec fn parsed_name(name: Seq<char>) -> bool {
    all_of(name, CharClass::Name) && (name.len() > 0 ==> !is_whitespace(name.first())
        && !is_whitespace(name.last()))
}

/// What is left of a text without the whitespace at its start holds characters of the text
/// only, and does not start with whitespace.
pub proof fn lemma_trim_start(text: Seq<char>, class: CharClass)
    requires
        all_of(text, class),
    ensures
        all_of(trim_start(text), class),
        trim_start(text).len() > 0 ==> !is_whitespace(trim_start(text).first()),
    decreases text.len(),
{
    if text.len() > 0 && is_whitespace(text.first()) {
        let tail = text.drop_first();
        assert forall|k: int| 0 <= k < tail.len() implies class.holds(#[trigger] tail[k]) by {
            assert(tail[k] == text[k + 1]);
        }
        lemma_trim_start(tail, class);
    }
}

/// What is left of a text without the whitespace at its end holds characters of the text only,
/// starts as the text does, and does not end with whitespace.
pub proof fn lemma_trim_end(text: Seq<char>, class: CharClass)
    requires
        all_of(text, class),
    ensures
        all_of(trim_end(text), class),
        trim_end(text).len() > 0 ==> !is_whitespace(trim_end(text).last()) && trim_end(
            text,
        ).first() == text.first(),
    decreases text.len(),
{
    if text.len() > 0 && is_whitespace(text.last()) {
        let front = text.drop_last();
        assert forall|k: int| 0 <= k < front.len() implies class.holds(#[trigger] front[k]) by {
            assert(front[k] == text[k]);
        }
        lemma_trim_end(front, class);
        if front.len() > 0 {
            assert(front.first() == text.first());
        }
    }
}

/// What is left of a line after trimming is a name as a parse gives it.
pub proof fn lemma_trim(text: Seq<char>)
    requires
        all_of(text, CharClass::Name),
    ensures
        parsed_name(trim(text)),
{
    lemma_trim_start(text, CharClass::Name);
    lemma_trim_end(trim_start(text), CharClass::Name);
}

/// A reference as a parse gives it: its referent is a word of reference characters, and so is
/// its alias where it has one. Neither is ever empty.
pub open spec fn parsed_reference(reference: ReferenceView) -> bool {
    word(reference.referent, CharClass::Reference) && match reference.alias {
        Some(alias) => word(alias, CharClass::Reference),
        None => true,
    }
}

/// A rich text as a parse gives it: each part is a word of text characters, or a reference as
/// a parse gives it. No part is a formatted section.
pub open spec fn parsed_rich_text(parts: Seq<PartView>) -> bool {
    forall|i: int|
        0 <= i < parts.len() ==> match #[trigger] parts[i] {
            PartView::Text(text) => word(text, CharClass::Text),
            PartView::Reference(reference) => parsed_reference(reference),
            PartView::FormattedSection(_, _) => false,
        }
}

/// An item as a parse gives it: an action, a dialogue of at least one line, a spoiler or a
/// tagged action, made of rich texts and references as a parse gives them; a tag is a word of
/// identifier characters. It is never a `Cont` nor an `If`.
pub open spec fn parsed_item(item: ItemView) -> bool {
    match item {
        ItemView::ActionBlock(text) => parsed_rich_text(text) && text.len() > 0,
        ItemView::DialogueBlock { speaker, block } => parsed_reference(speaker) && block.len() > 0
            && forall|i: int|
            0 <= i < block.len() ==> parsed_rich_text(#[trigger] block[i]) && block[i].len() > 0,
        ItemView::SpoilerBlock(text) => parsed_rich_text(text),
        ItemView::TaggedAction(tag, text) => word(tag, CharClass::Identifier) && parsed_rich_text(
            text,
        ),
        ItemView::Cont(_) => false,
        ItemView::If(_, _) => false,
    }
}

/// A metadata entry as a parse gives it: its key is a word of identifier characters, and its
/// value is a rich text as a parse gives it, never a list.
pub open spec fn parsed_entry(key: Seq<char>, value: ValueView) -> bool {
    word(key, CharClass::Identifier) && match value {
        ValueView::RichText(text) => parsed_rich_text(text),
        ValueView::List(_) => false,
    }
}

/// Metadata as a parse gives it: each of its entries is as a parse gives it.
pub open spec fn parsed_metadata(entries: Map<Seq<char>, ValueView>) -> bool {
    forall|key: Seq<char>| #[trigger] entries.contains_key(key) ==> parsed_entry(key, entries[key])
}

/// A scene as a parse gives it: it holds at least one item, and its name, where it has one,
/// its metadata and each of its items are as a parse gives them.
pub open spec fn parsed_scene(scene: SceneView) -> bool {
    &&& scene.name matches Some(name) ==> parsed_name(name)
    &&& scene.items.len() > 0
    &&& parsed_metadata(scene.meta)
    &&& forall|i: int| 0 <= i < scene.items.len() ==> parsed_item(#[trigger] scene.items[i])
}

/// A heading as a parse gives it: it is not empty, does not start with a space character, and
/// holds no line feed.
pub open spec fn parsed_heading(text: Seq<char>) -> bool {
    &&& text.len() > 0
    &&& !is_space(text.first())
    &&& forall|k: int| 0 <= k < text.len() ==> #[trigger] text[k] != '\n'
}

/// A file as a parse gives it: its title and its subtitle, its frontmatter and each of its
/// scenes are as a parse gives them, each where the file has any; and it has no subtitle
/// without a title.
pub open spec fn parsed_file(file: FileView) -> bool {
    &&& file.title matches Some(text) ==> parsed_heading(text)
    &&& file.subtitle matches Some(text) ==> parsed_heading(text) && file.title is Some
    &&& file.frontmatter matches Some(entries) ==> parsed_metadata(entries)
    &&& forall|i: int| 0 <= i < file.scenes.len() ==> parsed_scene(#[trigger] file.scenes[i])
}

/// Entries that are each as a parse gives them make metadata as a parse gives it.
pub proof fn lemma_entries_parsed(entries: Seq<(Seq<char>, ValueView)>)
    requires
        forall|k: int|
            0 <= k < entries.len() ==> parsed_entry((#[trigger] entries[k]).0, entries[k].1),
    ensures
        parsed_metadata(entries_map(entries)),
    decreases entries.len(),
{
    if entries.len() > 0 {
        let front = entries.drop_last();
        assert forall|k: int| 0 <= k < front.len() implies parsed_entry(
            (#[trigger] front[k]).0,
            front[k].1,
        ) by {
            assert(front[k] == entries[k]);
        }
        lemma_entries_parsed(front);
        assert(parsed_entry(entries[entries.len() - 1].0, entries[entries.len() - 1].1));
    }
}

/// An entry that the grammar recognises is as a parse gives it.
pub proof fn lemma_key_value_parsed(v: Version, s: Seq<char>, i: int)
    ensures
        key_value(v, s, i) matches Some((entry, _)) ==> parsed_entry(entry.0, entry.1),
{
    if 0 <= i <= s.len() {
        lemma_run(s, i, CharClass::Identifier);
        let a = run(s, i, CharClass::Identifier);
        lemma_run(s, a, CharClass::Blank);
        let b = run(s, a, CharClass::Blank);
        if at(s, b, ':') {
            lemma_run(s, b + 1, CharClass::Blank);
            lemma_rich_text_parsed(v, s, run(s, b + 1, CharClass::Blank));
        }
    }
}

/// The entries after an entry are as a parse gives them.
pub proof fn lemma_more_key_values_parsed(v: Version, s: Seq<char>, i: int)
    requires
        0 <= i <= s.len(),
    ensures
        forall|k: int|
            0 <= k < more_key_values(v, s, i).0.len() ==> parsed_entry(
                (#[trigger] more_key_values(v, s, i).0[k]).0,
                more_key_values(v, s, i).0[k].1,
            ),
    decreases s.len() - i,
{
    if at(s, i, '\n') {
        lemma_key_value(v, s, i + 1);
        lemma_key_value_parsed(v, s, i + 1);
        match key_value(v, s, i + 1) {
            Some((entry, j)) => {
                lemma_more_key_values_parsed(v, s, j);
                let rest = more_key_values(v, s, j).0;
                let all = more_key_values(v, s, i).0;
                assert forall|k: int| 0 <= k < all.len() implies parsed_entry(
                    (#[trigger] all[k]).0,
                    all[k].1,
                ) by {
                    if k > 0 {
                        assert(all[k] == rest[k - 1]);
                    }
                }
            },
            None => {},
        }
    }
}

/// A metadata list that the grammar recognises is as a parse gives it.
pub proof fn lemma_key_value_list_parsed(v: Version, s: Seq<char>, i: int)
    requires
        0 <= i <= s.len(),
    ensures
        parsed_metadata(key_value_list(v, s, i).0),
{
    lemma_key_value(v, s, i);
    lemma_key_value_parsed(v, s, i);
    match key_value(v, s, i) {
        Some((entry, j)) => {
            lemma_more_key_values_parsed(v, s, j);
            let rest = more_key_values(v, s, j).0;
            let all = seq![entry] + rest;
            assert forall|k: int| 0 <= k < all.len() implies parsed_entry(
                (#[trigger] all[k]).0,
                all[k].1,
            ) by {
                if k > 0 {
                    assert(all[k] == rest[k - 1]);
                }
            }
            lemma_entries_parsed(all);
        },
        None => {
            lemma_entries_parsed(Seq::empty());
        },
    }
}

/// A reference body that the grammar recognises is as a parse gives it.
pub proof fn lemma_reference_parsed(s: Seq<char>, i: int)
    requires
        0 <= i <= s.len(),
    ensures
        reference(s, i) matches Some((found, _)) ==> parsed_reference(found),
{
    lemma_run(s, i, CharClass::Reference);
    let j = run(s, i, CharClass::Reference);
    if j + 1 <= s.len() {
        lemma_run(s, j + 1, CharClass::Reference);
    }
}

/// A rich text that the grammar recognises is as a parse gives it.
pub proof fn lemma_rich_text_parsed(v: Version, s: Seq<char>, i: int)
    requires
        0 <= i <= s.len(),
    ensures
        parsed_rich_text(rich_text(v, s, i).0),
    decreases s.len() - i,
{
    lemma_rich_text_part(v, s, i);
    match rich_text_part(v, s, i) {
        Some((part, j)) => {
            lemma_rich_text_parsed(v, s, j);
            lemma_run(s, i, CharClass::Text);
            if delimiter(v, s, i, '[') {
                lemma_reference_parsed(s, i + v.brackets());
            }
            let rest = rich_text(v, s, j).0;
            let all = rich_text(v, s, i).0;
            assert forall|k: int| 0 <= k < all.len() implies match #[trigger] all[k] {
                PartView::Text(text) => word(text, CharClass::Text),
                PartView::Reference(reference) => parsed_reference(reference),
                PartView::FormattedSection(_, _) => false,
            } by {
                if k > 0 {
                    assert(all[k] == rest[k - 1]);
                }
            }
        },
        None => {},
    }
}

/// The lines after a line are as a parse gives them, and none is empty.
pub proof fn lemma_more_text_lines_parsed(v: Version, s: Seq<char>, i: int)
    requires
        0 <= i <= s.len(),
    ensures
        forall|k: int|
            0 <= k < more_text_lines(v, s, i).0.len() ==> parsed_rich_text(
                #[trigger] more_text_lines(v, s, i).0[k],
            ) && more_text_lines(v, s, i).0[k].len() > 0,
    decreases s.len() - i,
{
    if line_break(s, i) > 0 {
        let a = i + line_break(s, i);
        lemma_rich_text(v, s, a);
        lemma_rich_text_parsed(v, s, a);
        match text_line(v, s, a) {
            Some((line, j)) => {
                lemma_more_text_lines_parsed(v, s, j);
                let rest = more_text_lines(v, s, j).0;
                let all = more_text_lines(v, s, i).0;
                assert forall|k: int| 0 <= k < all.len() implies parsed_rich_text(#[trigger] all[k])
                    && all[k].len() > 0 by {
                    if k > 0 {
                        assert(all[k] == rest[k - 1]);
                    }
                }
            },
            None => {},
        }
    }
}

/// The lines of a block are as a parse gives them, and none is empty.
pub proof fn lemma_rich_text_block_parsed(v: Version, s: Seq<char>, i: int)
    requires
        0 <= i <= s.len(),
    ensures
        rich_text_block(v, s, i) matches Some((lines, _)) ==> lines.len() > 0 && forall|k: int|
            0 <= k < lines.len() ==> parsed_rich_text(#[trigger] lines[k]) && lines[k].len() > 0,
{
    lemma_rich_text(v, s, i);
    lemma_rich_text_parsed(v, s, i);
    match text_line(v, s, i) {
        Some((line, j)) => {
            lemma_more_text_lines_parsed(v, s, j);
            let rest = more_text_lines(v, s, j).0;
            let all = seq![line] + rest;
            assert forall|k: int| 0 <= k < all.len() implies parsed_rich_text(#[trigger] all[k])
                && all[k].len() > 0 by {
                if k > 0 {
                    assert(all[k] == rest[k - 1]);
                }
            }
        },
        None => {},
    }
}

/// Lines as a parse gives them merge into a rich text as a parse gives it, and one that is not
/// empty where there is at least one line and no line is empty.
pub proof fn lemma_merged_parsed(lines: Seq<Seq<PartView>>)
    requires
        forall|k: int|
            0 <= k < lines.len() ==> parsed_rich_text(#[trigger] lines[k]) && lines[k].len() > 0,
    ensures
        parsed_rich_text(merged(lines)),
        lines.len() > 0 ==> merged(lines).len() > 0,
    decreases lines.len(),
{
    if lines.len() > 0 {
        let front = lines.drop_last();
        assert forall|k: int| 0 <= k < front.len() implies parsed_rich_text(#[trigger] front[k])
            && front[k].len() > 0 by {
            assert(front[k] == lines[k]);
        }
        lemma_merged_parsed(front);
        let all = merged(lines);
        let last = lines.last();
        assert(parsed_rich_text(last));
        assert forall|k: int| 0 <= k < all.len() implies match #[trigger] all[k] {
            PartView::Text(text) => word(text, CharClass::Text),
            PartView::Reference(reference) => parsed_reference(reference),
            PartView::FormattedSection(_, _) => false,
        } by {
            if k < merged(front).len() {
                assert(all[k] == merged(front)[k]);
            } else {
                assert(all[k] == last[k - merged(front).len()]);
            }
        }
    }
}

/// An item that the grammar recognises is as a parse gives it.
pub proof fn lemma_scene_item_parsed(v: Version, s: Seq<char>, i: int)
    requires
        0 <= i <= s.len(),
    ensures
        scene_item(v, s, i) matches Some((item, _)) ==> parsed_item(item),
{
    lemma_run(s, i, CharClass::Blank);
    let a = run(s, i, CharClass::Blank);
    if at(s, a, '/') && at(s, a + 1, '/') {
        lemma_run(s, a + 2, CharClass::Blank);
        lemma_rich_text_parsed(v, s, run(s, a + 2, CharClass::Blank));
    } else if tagged_action_line(v, s, i) is Some {
        lemma_run(s, a + 1, CharClass::Identifier);
        let b = run(s, a + 1, CharClass::Identifier);
        lemma_run(s, b, CharClass::Blank);
        lemma_rich_text_parsed(v, s, run(s, b, CharClass::Blank));
    } else if dialogue_block(v, s, i) is Some {
        lemma_run(s, i + 1, CharClass::Reference);
        lemma_reference_parsed(s, i + 1);
        let k = run(s, i + 1, CharClass::Reference);
        if k + 1 <= s.len() {
            lemma_run(s, k + 1, CharClass::Reference);
        }
        match reference(s, i + 1) {
            Some((_, j)) => lemma_rich_text_block_parsed(v, s, j + 1 + line_break(s, j + 1)),
            None => {},
        }
    } else {
        lemma_rich_text_block_parsed(v, s, i);
        match rich_text_block(v, s, i) {
            Some((lines, _)) => lemma_merged_parsed(lines),
            None => {},
        }
    }
}

/// The items after an item are as a parse gives them.
pub proof fn lemma_more_scene_items_parsed(v: Version, s: Seq<char>, i: int)
    requires
        0 <= i <= s.len(),
    ensures
        forall|k: int|
            0 <= k < more_scene_items(v, s, i).0.len() ==> parsed_item(
                #[trigger] more_scene_items(v, s, i).0[k],
            ),
    decreases s.len() - i,
{
    if at(s, i, '\n') {
        lemma_run(s, i + 1, CharClass::Space);
        let a = run(s, i + 1, CharClass::Space);
        lemma_scene_item(v, s, a);
        lemma_scene_item_parsed(v, s, a);
        match scene_item(v, s, a) {
            Some((item, j)) => {
                lemma_more_scene_items_parsed(v, s, j);
                let rest = more_scene_items(v, s, j).0;
                let all = more_scene_items(v, s, i).0;
                assert forall|k: int| 0 <= k < all.len() implies parsed_item(#[trigger] all[k]) by {
                    if k > 0 {
                        assert(all[k] == rest[k - 1]);
                    }
                }
            },
            None => {},
        }
    }
}

/// A scene that the grammar recognises is as a parse gives it.
pub proof fn lemma_scene_parsed(v: Version, s: Seq<char>, i: int)
    ensures
        scene(v, s, i) matches Some((found, _)) ==> parsed_scene(found),
{
    lemma_scene(v, s, i);
    if at(s, i, '=') && at(s, i + 1, '=') {
        lemma_name_end(s, i + 2);
        match scene_header(s, i) {
            Some((_, a)) => {
                lemma_trim(s.subrange(i + 2, name_end(s, i + 2)));
                lemma_key_values(v, s, a);
                lemma_key_value_list_parsed(v, s, a);
                let b = key_values(v, s, a).1;
                lemma_run(s, b, CharClass::Space);
                let c = run(s, b, CharClass::Space);
                lemma_scene_item(v, s, c);
                lemma_scene_item_parsed(v, s, c);
                match scene_item(v, s, c) {
                    Some((item, j)) => {
                        lemma_more_scene_items_parsed(v, s, j);
                        let rest = more_scene_items(v, s, j).0;
                        let all = seq![item] + rest;
                        assert forall|k: int| 0 <= k < all.len() implies parsed_item(
                            #[trigger] all[k],
                        ) by {
                            if k > 0 {
                                assert(all[k] == rest[k - 1]);
                            }
                        }
                    },
                    None => {},
                }
            },
            None => {},
        }
    }
}

/// The scenes that the grammar recognises are as a parse gives them.
pub proof fn lemma_scenes_parsed(v: Version, s: Seq<char>, i: int)
    requires
        0 <= i <= s.len(),
    ensures
        forall|k: int|
            0 <= k < scenes(v, s, i).0.len() ==> parsed_scene(#[trigger] scenes(v, s, i).0[k]),
    decreases s.len() - i,
{
    lemma_scene(v, s, i);
    lemma_scene_parsed(v, s, i);
    match scene(v, s, i) {
        Some((found, j)) => {
            lemma_run(s, j, CharClass::Space);
            lemma_scenes_parsed(v, s, run(s, j, CharClass::Space));
            let rest = scenes(v, s, run(s, j, CharClass::Space)).0;
            let all = scenes(v, s, i).0;
            assert forall|k: int| 0 <= k < all.len() implies parsed_scene(#[trigger] all[k]) by {
                if k > 0 {
                    assert(all[k] == rest[k - 1]);
                }
            }
        },
        None => {},
    }
}

/// Every scene of a file that the grammar recognises holds at least one item; no item is a
/// `Cont` or an `If`; no referent is empty.
pub proof fn lemma_file_parsed(v: Version, s: Seq<char>)
    ensures
        file(v, s) matches Some(found) ==> parsed_file(found),
{
    match frontmatter(v, s) {
        Some((_, a)) => {
            if file(v, s) is Some {
                match fence(s, 0) {
                    Some(start) => lemma_key_value_list_parsed(v, s, start),
                    None => {},
                }
                let title = heading(s, a);
                lemma_heading(s, a);
                let b = match title {
                    Some((_, b)) => b,
                    None => a,
                };
                let subtitle = if title is Some {
                    heading(s, b)
                } else {
                    None
                };
                lemma_heading(s, b);
                let c = match subtitle {
                    Some((_, c)) => c,
                    None => b,
                };
                lemma_run(s, c, CharClass::Space);
                lemma_scenes_parsed(v, s, run(s, c, CharClass::Space));
            }
        },
        None => {},
    }
}

} // verus!
