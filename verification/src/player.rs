//! Playback: a document as the sequence of lines to show and pauses to make.
//!
//! Nothing here prints or waits. Each function gives what a player shows, in order; a caller
//! prints each line and, at each pause, waits for its audience.

use vstd::prelude::*;
use vstd::std_specs::iter::IteratorSpec;
use vstd::string::*;
use crate::model::{displayed, FileView, ItemView, PartView, SceneView, ValueView};
use crate::strings::single;
use crate::grammar::{parsed_file, parsed_item, parsed_scene};
use crate::types::{
    lemma_list_view, optional_text, views, File, RichText, RichTextPart, Scene, SceneItem, Value,
};

verus! {

/// One step of a playback.
#[derive(Debug)]
pub enum Cue {
    /// A line to show.
    Line(String),
    /// The player waits here: an item has been shown in full.
    Pause,
}

/// A [`Cue`] as contracts see it.
pub enum CueView {
    Line(Seq<char>),
    Pause,
}

impl View for Cue {
    type V = CueView;

    open spec fn view(&self) -> CueView {
        match self {
            Cue::Line(text) => CueView::Line(text@),
            Cue::Pause => CueView::Pause,
        }
    }
}

impl PartialEq for Cue {
    fn eq(&self, other: &Self) -> (r: bool) {
        match (self, other) {
            (Cue::Line(a), Cue::Line(b)) => *a == *b,
            (Cue::Pause, Cue::Pause) => true,
            _ => false,
        }
    }
}

impl vstd::std_specs::cmp::PartialEqSpecImpl for Cue {
    open spec fn obeys_eq_spec() -> bool {
        true
    }

    open spec fn eq_spec(&self, other: &Self) -> bool {
        self@ == other@
    }
}

impl Eq for Cue {

}

/// The lines of one part: a text part is one line, a reference one line that holds its
/// referent, a formatted section the lines of its content.
pub open spec fn part_lines(part: PartView) -> Seq<Seq<char>>
    decreases part,
{
    match part {
        PartView::Text(text) => seq![text],
        PartView::Reference(reference) => seq![reference.referent],
        PartView::FormattedSection(_, inner) => rich_text_lines(inner),
    }
}

/// The lines of a rich text: those of its parts, in order.
pub open spec fn rich_text_lines(parts: Seq<PartView>) -> Seq<Seq<char>>
    decreases parts,
{
    if parts.len() == 0 {
        Seq::empty()
    } else {
        rich_text_lines(parts.drop_last()) + part_lines(parts.last())
    }
}

/// The lines of a value: those of its rich text, or, for a list, a line `[`, the lines of its
/// values in order, and a line `]`.
pub open spec fn value_lines(value: ValueView) -> Seq<Seq<char>>
    decreases value,
{
    match value {
        ValueView::RichText(parts) => rich_text_lines(parts),
        ValueView::List(values) => seq![seq!['[']] + values_lines(values) + seq![seq![']']],
    }
}

/// The lines of `values`, in order.
pub open spec fn values_lines(values: Seq<ValueView>) -> Seq<Seq<char>>
    decreases values,
{
    if values.len() == 0 {
        Seq::empty()
    } else {
        values_lines(values.drop_last()) + value_lines(values.last())
    }
}

/// The lines of the rich texts of `block`, in order.
pub open spec fn block_lines(block: Seq<Seq<PartView>>) -> Seq<Seq<char>>
    decreases block.len(),
{
    if block.len() == 0 {
        Seq::empty()
    } else {
        block_lines(block.drop_last()) + rich_text_lines(block.last())
    }
}

/// Whether an item can be played: all can but `Cont` and `If`, for which playback is not
/// defined.
pub open spec fn can_play_item(item: ItemView) -> bool {
    !(item is Cont) && !(item is If)
}

/// The lines of an item. An action or a tagged action gives the lines of its rich text; a
/// dialogue a line with what is displayed for its speaker, then the lines spoken; a spoiler
/// gives nothing. Neither does a `Cont` or an `If`: the player takes neither.
pub open spec fn item_lines(item: ItemView) -> Seq<Seq<char>> {
    match item {
        ItemView::ActionBlock(text) => rich_text_lines(text),
        ItemView::DialogueBlock { speaker, block } => seq![displayed(speaker)] + block_lines(
            block,
        ),
        ItemView::SpoilerBlock(_) => Seq::empty(),
        ItemView::TaggedAction(_, text) => rich_text_lines(text),
        ItemView::Cont(_) => Seq::empty(),
        ItemView::If(_, _) => Seq::empty(),
    }
}

/// `lines` as cues.
pub open spec fn line_cues(lines: Seq<Seq<char>>) -> Seq<CueView> {
    Seq::new(lines.len(), |i: int| CueView::Line(lines[i]))
}

/// The cues of `items`: for each item in order its lines, then a pause.
pub open spec fn items_cues(items: Seq<ItemView>) -> Seq<CueView>
    decreases items.len(),
{
    if items.len() == 0 {
        Seq::empty()
    } else {
        items_cues(items.drop_last()) + line_cues(item_lines(items.last())) + seq![CueView::Pause]
    }
}

/// Whether a scene can be played: each of its items can.
pub open spec fn can_play_scene(scene: SceneView) -> bool {
    forall|i: int| 0 <= i < scene.items.len() ==> can_play_item(#[trigger] scene.items[i])
}

/// The cues of `scenes`: those of the items of each scene, in order.
pub open spec fn scenes_cues(scenes: Seq<SceneView>) -> Seq<CueView>
    decreases scenes.len(),
{
    if scenes.len() == 0 {
        Seq::empty()
    } else {
        scenes_cues(scenes.drop_last()) + items_cues(scenes.last().items)
    }
}

/// Whether a file can be played: each of its scenes can.
pub open spec fn can_play(file: FileView) -> bool {
    forall|i: int| 0 <= i < file.scenes.len() ==> can_play_scene(#[trigger] file.scenes[i])
}

/// A file as a parse gives it can be played.
pub proof fn lemma_parsed_file_can_play(file: FileView)
    requires
        parsed_file(file),
    ensures
        can_play(file),
{
    assert forall|i: int| 0 <= i < file.scenes.len() implies can_play_scene(
        #[trigger] file.scenes[i],
    ) by {
        let scene = file.scenes[i];
        assert(parsed_scene(scene));
        assert forall|k: int| 0 <= k < scene.items.len() implies can_play_item(
            #[trigger] scene.items[k],
        ) by {
            assert(parsed_item(scene.items[k]));
        }
    }
}

/// The lines of the frontmatter's value under the one-letter key `key`; none where the
/// frontmatter, or the key in it, is missing.
pub open spec fn frontmatter_lines(file: FileView, key: char) -> Seq<Seq<char>> {
    match file.frontmatter {
        Some(entries) => if entries.contains_key(seq![key]) {
            value_lines(entries[seq![key]])
        } else {
            Seq::empty()
        },
        None => Seq::empty(),
    }
}

/// The line of an optional heading.
pub open spec fn heading_lines(heading: Option<Seq<char>>) -> Seq<Seq<char>> {
    match heading {
        Some(text) => seq![text],
        None => Seq::empty(),
    }
}

/// The lines that open a playback: the title and the subtitle, each where the file has one,
/// then the frontmatter's values under `T` and under `S`.
pub open spec fn opening_lines(file: FileView) -> Seq<Seq<char>> {
    heading_lines(file.title) + heading_lines(file.subtitle) + frontmatter_lines(file, 'T')
        + frontmatter_lines(file, 'S')
}

/// The cues of a file: its opening lines, then the cues of its scenes.
pub open spec fn file_cues(file: FileView) -> Seq<CueView> {
    line_cues(opening_lines(file)) + scenes_cues(file.scenes)
}

/// The lines of a rich text.
pub fn play_rich_text(rich_text: &RichText) -> (lines: Vec<String>)
    ensures
        views(lines@) == rich_text_lines(rich_text@),
    decreases rich_text,
{
    let mut lines: Vec<String> = Vec::new();
    let mut i: usize = 0;
    assert(views(lines@) =~= rich_text_lines(rich_text@.take(0)));
    while i < rich_text.0.len()
        invariant
            i <= rich_text.0.len(),
            views(lines@) == rich_text_lines(rich_text@.take(i as int)),
        decreases rich_text.0.len() - i,
    {
        proof {
            assert(rich_text@.take(i + 1).drop_last() =~= rich_text@.take(i as int));
            assert(rich_text@.take(i + 1).last() == rich_text.0[i as int]@);
            assert(rich_text_lines(rich_text@.take(i + 1)) == rich_text_lines(
                rich_text@.take(i as int),
            ) + part_lines(rich_text.0[i as int]@));
        }
        let ghost before = views(lines@);
        match &rich_text.0[i] {
            RichTextPart::Text(text) => {
                lines.push(text.clone());
                assert(views(lines@) =~= before + seq![text@]);
            },
            RichTextPart::Reference(reference) => {
                lines.push(reference.referent.clone());
                assert(views(lines@) =~= before + seq![reference.referent@]);
            },
            RichTextPart::FormattedSection(_, inner) => {
                let mut more = play_rich_text(inner);
                let ghost added = views(more@);
                lines.append(&mut more);
                assert(views(lines@) =~= before + added);
            },
        }
        i += 1;
    }
    assert(rich_text@.take(i as int) =~= rich_text@);
    lines
}

/// The lines of a value.
pub fn play_value(value: &Value) -> (lines: Vec<String>)
    ensures
        views(lines@) == value_lines(value@),
    decreases value,
{
    match value {
        Value::RichText(rich_text) => play_rich_text(rich_text),
        Value::List(values) => {
            let ghost inner = value@->List_0;
            proof {
                lemma_list_view(*values);
            }
            let mut lines: Vec<String> = Vec::new();
            lines.push(single('['));
            let mut i: usize = 0;
            assert(views(lines@) =~= seq![seq!['[']] + values_lines(inner.take(0)));
            while i < values.len()
                invariant
                    i <= values.len(),
                    value is List,
                    *values == value->List_0,
                    inner == value@->List_0,
                    views(lines@) == seq![seq!['[']] + values_lines(inner.take(i as int)),
                decreases values.len() - i,
            {
                proof {
                    lemma_list_view(*values);
                    assert(inner.take(i + 1).drop_last() =~= inner.take(i as int));
                    assert(inner.take(i + 1).last() == values[i as int]@);
                }
                let ghost before = views(lines@);
                let mut more = play_value(&values[i]);
                let ghost added = views(more@);
                lines.append(&mut more);
                assert(views(lines@) =~= before + added);
                assert(views(lines@) =~= seq![seq!['[']] + values_lines(inner.take(i + 1)));
                i += 1;
            }
            assert(inner.take(i as int) =~= inner);
            let ghost before = views(lines@);
            lines.push(single(']'));
            assert(views(lines@) =~= before + seq![seq![']']]);
            lines
        },
    }
}

/// The lines of the rich texts of a block.
fn play_block(block: &Vec<RichText>) -> (lines: Vec<String>)
    ensures
        views(lines@) == block_lines(views(block@)),
{
    let ghost all = views(block@);
    let mut lines: Vec<String> = Vec::new();
    let mut i: usize = 0;
    assert(views(lines@) =~= block_lines(all.take(0)));
    while i < block.len()
        invariant
            i <= block.len(),
            all == views(block@),
            views(lines@) == block_lines(all.take(i as int)),
        decreases block.len() - i,
    {
        proof {
            assert(all.take(i + 1).drop_last() =~= all.take(i as int));
            assert(all.take(i + 1).last() == block[i as int]@);
        }
        let ghost before = views(lines@);
        let mut more = play_rich_text(&block[i]);
        let ghost added = views(more@);
        lines.append(&mut more);
        assert(views(lines@) =~= before + added);
        i += 1;
    }
    assert(all.take(i as int) =~= all);
    lines
}

/// The lines of an item.
pub fn play_item(item: &SceneItem) -> (lines: Vec<String>)
    requires
        can_play_item(item@),
    ensures
        views(lines@) == item_lines(item@),
{
    match item {
        SceneItem::ActionBlock(rich_text) => play_rich_text(rich_text),
        SceneItem::DialogueBlock { speaker, block } => {
            let mut lines: Vec<String> = Vec::new();
            match &speaker.alias {
                Some(alias) => lines.push(alias.clone()),
                None => lines.push(speaker.referent.clone()),
            }
            let ghost before = views(lines@);
            assert(before =~= seq![displayed(speaker@)]);
            let mut more = play_block(block);
            let ghost added = views(more@);
            lines.append(&mut more);
            assert(views(lines@) =~= before + added);
            lines
        },
        SceneItem::SpoilerBlock(_) => {
            let lines: Vec<String> = Vec::new();
            assert(views(lines@) =~= Seq::<Seq<char>>::empty());
            lines
        },
        SceneItem::TaggedAction(_, rich_text) => play_rich_text(rich_text),
        SceneItem::Cont(_) => Vec::new(),
        SceneItem::If(_, _) => Vec::new(),
    }
}

/// Appends `lines` to `cues`, each as a line to show.
fn push_lines(cues: &mut Vec<Cue>, lines: Vec<String>)
    ensures
        views(final(cues)@) == views(old(cues)@) + line_cues(views(lines@)),
{
    let ghost before = views(cues@);
    let ghost all = views(lines@);
    assert(views(cues@) =~= before + line_cues(all.take(0)));
    for line in it: lines
        invariant
            views(it.seq()) == all,
            views(cues@) == before + line_cues(all.take(it.index() as int)),
    {
        let ghost so_far = views(cues@);
        let ghost shown = CueView::Line(line@);
        cues.push(Cue::Line(line));
        proof {
            assert(views(cues@) =~= so_far.push(shown));
            assert(line_cues(all.take(it.index() + 1)) =~= line_cues(
                all.take(it.index() as int),
            ).push(shown));
        }
    }
    assert(all.take(all.len() as int) =~= all);
}

/// Appends the cues of the items of `scene` to `cues`.
fn push_scene(cues: &mut Vec<Cue>, scene: &Scene)
    requires
        can_play_scene(scene@),
    ensures
        views(final(cues)@) == views(old(cues)@) + items_cues(scene@.items),
{
    let ghost before = views(cues@);
    let ghost items = scene@.items;
    let mut i: usize = 0;
    assert(views(cues@) =~= before + items_cues(items.take(0)));
    while i < scene.items.len()
        invariant
            i <= scene.items.len(),
            items == scene@.items,
            can_play_scene(scene@),
            views(cues@) == before + items_cues(items.take(i as int)),
        decreases scene.items.len() - i,
    {
        proof {
            assert(items.take(i + 1).drop_last() =~= items.take(i as int));
            assert(items.take(i + 1).last() == scene.items[i as int]@);
            assert(can_play_item(scene@.items[i as int]));
        }
        let ghost so_far = views(cues@);
        let lines = play_item(&scene.items[i]);
        push_lines(cues, lines);
        let ghost shown = views(cues@);
        cues.push(Cue::Pause);
        assert(views(cues@) =~= shown + seq![CueView::Pause]);
        assert(views(cues@) =~= before + items_cues(items.take(i + 1)));
        i += 1;
    }
    assert(items.take(i as int) =~= items);
}

/// The cues of a scene: for each item in order its lines, then a pause.
pub fn play_scene(scene: &Scene) -> (cues: Vec<Cue>)
    requires
        can_play_scene(scene@),
    ensures
        views(cues@) == items_cues(scene@.items),
{
    let mut cues: Vec<Cue> = Vec::new();
    push_scene(&mut cues, scene);
    assert(views(cues@) =~= items_cues(scene@.items));
    cues
}

/// The lines of the frontmatter's value under the one-letter key `key`.
fn play_frontmatter(file: &File, key: char) -> (lines: Vec<String>)
    ensures
        views(lines@) == frontmatter_lines(file@, key),
{
    let name = single(key);
    let found = match &file.frontmatter {
        Some(entries) => entries.get(name.as_str()),
        None => None,
    };
    match found {
        Some(value) => play_value(value),
        None => {
            let lines: Vec<String> = Vec::new();
            assert(views(lines@) =~= Seq::<Seq<char>>::empty());
            lines
        },
    }
}

/// The line of an optional heading.
fn play_heading(heading: &Option<String>) -> (lines: Vec<String>)
    ensures
        views(lines@) == heading_lines(optional_text(*heading)),
{
    let mut lines: Vec<String> = Vec::new();
    match heading {
        Some(text) => {
            lines.push(text.clone());
            assert(views(lines@) =~= seq![text@]);
        },
        None => {
            assert(views(lines@) =~= Seq::<Seq<char>>::empty());
        },
    }
    lines
}

/// The cues of a file: its opening lines, then for each item of each scene its lines and a
/// pause.
pub fn play(file: File) -> (cues: Vec<Cue>)
    requires
        can_play(file@),
    ensures
        views(cues@) == file_cues(file@),
{
    let mut lines = play_heading(&file.title);
    let ghost title = views(lines@);
    let mut subtitle = play_heading(&file.subtitle);
    let ghost second = views(subtitle@);
    lines.append(&mut subtitle);
    let mut first = play_frontmatter(&file, 'T');
    let ghost third = views(first@);
    lines.append(&mut first);
    let mut last = play_frontmatter(&file, 'S');
    let ghost fourth = views(last@);
    lines.append(&mut last);
    assert(views(lines@) =~= title + second + third + fourth);
    let mut cues: Vec<Cue> = Vec::new();
    push_lines(&mut cues, lines);
    let ghost opening = views(cues@);
    assert(opening =~= line_cues(opening_lines(file@)));
    let ghost all = file@.scenes;
    let mut i: usize = 0;
    assert(views(cues@) =~= opening + scenes_cues(all.take(0)));
    while i < file.scenes.len()
        invariant
            i <= file.scenes.len(),
            all == file@.scenes,
            can_play(file@),
            views(cues@) == opening + scenes_cues(all.take(i as int)),
        decreases file.scenes.len() - i,
    {
        proof {
            assert(all.take(i + 1).drop_last() =~= all.take(i as int));
            assert(all.take(i + 1).last() == file.scenes[i as int]@);
            assert(can_play_scene(file@.scenes[i as int]));
        }
        push_scene(&mut cues, &file.scenes[i]);
        assert(views(cues@) =~= opening + scenes_cues(all.take(i + 1)));
        i += 1;
    }
    assert(all.take(i as int) =~= all);
    cues
}

/// Whether a file can be played: whether no item of its scenes is a `Cont` or an `If`.
pub fn playable(file: &File) -> (r: bool)
    ensures
        r == can_play(file@),
{
    let mut i: usize = 0;
    while i < file.scenes.len()
        invariant
            i <= file.scenes.len(),
            forall|k: int| 0 <= k < i ==> can_play_scene(#[trigger] file@.scenes[k]),
        decreases file.scenes.len() - i,
    {
        let scene = &file.scenes[i];
        let mut j: usize = 0;
        while j < scene.items.len()
            invariant
                j <= scene.items.len(),
                i < file.scenes.len(),
                scene == &file.scenes[i as int],
                forall|k: int| 0 <= k < j ==> can_play_item(#[trigger] scene@.items[k]),
            decreases scene.items.len() - j,
        {
            match &scene.items[j] {
                SceneItem::Cont(_) | SceneItem::If(_, _) => {
                    assert(!can_play_item(file@.scenes[i as int].items[j as int]));
                    return false;
                },
                _ => {},
            }
            j += 1;
        }
        assert(can_play_scene(file@.scenes[i as int]));
        i += 1;
    }
    true
}

} // verus!
