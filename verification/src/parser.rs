//! The parser: from the text of a document to its tree.
//!
//! Every function here is the executable counterpart of the rule of the same name in
//! [`crate::grammar`], and its contract says that it computes what the rule gives. The input is
//! held as a slice of characters and positions index into it.

use vstd::prelude::*;
use vstd::std_specs::iter::IteratorSpec;
use crate::chars::{whitespace, CharClass};
use crate::grammar;
use crate::grammar::Version;
use crate::metadata::{entries_map, Metadata};
use crate::model::{ItemView, PartView, SceneView, ValueView};
use crate::player::{can_play, lemma_parsed_file_can_play};
use crate::strings::{chars_of, text_of};
use crate::types::{
    optional_text, views, File, Reference, RichText, RichTextPart, Scene, SceneItem, Value,
};

verus! {

/// The one way a parse fails: the text is not a document of the grammar.
#[derive(Debug, Clone, Copy, PartialEq, Eq, Structural)]
pub struct ParseError {}

/// What a function found agrees with what a rule gives: both fail, or both hold the same value
/// and stop at the same position.
pub open spec fn agrees<T: View>(found: Option<(T, usize)>, rule: Option<(T::V, int)>) -> bool {
    match (found, rule) {
        (Some((value, j)), Some((expected, k))) => value@ == expected && j == k,
        (None, None) => true,
        _ => false,
    }
}

/// Whether the character at `i` is `c`.
fn at(s: &[char], i: usize, c: char) -> (r: bool)
    ensures
        r == grammar::at(s@, i as int, c),
{
    i < s.len() && s[i] == c
}

/// Whether the characters at `i` and behind it are both `c`.
fn at_pair(s: &[char], i: usize, c: char) -> (r: bool)
    ensures
        r == (grammar::at(s@, i as int, c) && grammar::at(s@, i + 1, c)),
{
    i < s.len() && s[i] == c && i + 1 < s.len() && s[i + 1] == c
}

/// Where the run of characters of `class` that starts at `i` stops.
pub fn scan(s: &[char], i: usize, class: CharClass) -> (j: usize)
    requires
        i <= s.len(),
    ensures
        j == grammar::run(s@, i as int, class),
        i <= j <= s.len(),
{
    let mut j = i;
    while j < s.len() && class.contains(s[j])
        invariant
            i <= j <= s.len(),
            grammar::run(s@, i as int, class) == grammar::run(s@, j as int, class),
        decreases s.len() - j,
    {
        j += 1;
    }
    j
}

/// The length of the line break that starts at `i`, 0 where none starts.
pub fn line_break(s: &[char], i: usize) -> (n: usize)
    ensures
        n == grammar::line_break(s@, i as int),
        i + n <= s.len() || n == 0,
{
    if i < s.len() && s[i] == '\n' {
        1
    } else if i < s.len() && s[i] == '\r' && i + 1 < s.len() && s[i + 1] == '\n' {
        2
    } else {
        0
    }
}

/// A metadata key or an action tag.
pub fn identifier(s: &[char], i: usize) -> (r: Option<(String, usize)>)
    requires
        i <= s.len(),
    ensures
        agrees(r, grammar::identifier(s@, i as int)),
        r matches Some((_, j)) ==> i < j <= s.len(),
{
    let j = scan(s, i, CharClass::Identifier);
    if j > i {
        Some((text_of(s, i, j), j))
    } else {
        None
    }
}

/// A reference body: a referent and, optionally, an alias.
pub fn reference(s: &[char], i: usize) -> (r: Option<(Reference, usize)>)
    requires
        i <= s.len(),
    ensures
        agrees(r, grammar::reference(s@, i as int)),
        r matches Some((_, j)) ==> i < j <= s.len(),
{
    let j = scan(s, i, CharClass::Reference);
    if j == i {
        return None;
    }
    if at(s, j, '|') {
        let k = scan(s, j + 1, CharClass::Reference);
        if k > j + 1 {
            let found = Reference { referent: text_of(s, i, j), alias: Some(text_of(s, j + 1, k)) };
            return Some((found, k));
        }
    }
    Some((Reference { referent: text_of(s, i, j), alias: None }, j))
}

/// Whether as many characters `c` stand at `i` as the version has brackets on each side of an
/// inline reference.
fn delimiter(v: Version, s: &[char], i: usize, c: char) -> (r: bool)
    ensures
        r == grammar::delimiter(v, s@, i as int, c),
{
    match v {
        Version::SingleBracket => at(s, i, c),
        Version::DoubleBracket => at_pair(s, i, c),
    }
}

/// An inline reference: a reference body between brackets.
pub fn rich_text_part_reference(
    v: Version,
    s: &[char],
    i: usize,
) -> (r: Option<(RichTextPart, usize)>)
    requires
        i <= s.len(),
    ensures
        agrees(r, grammar::rich_text_part_reference(v, s@, i as int)),
        r matches Some((_, j)) ==> i < j <= s.len(),
{
    if !delimiter(v, s, i, '[') {
        return None;
    }
    let n = v.reference_brackets();
    match reference(s, i + n) {
        Some((body, j)) => {
            if delimiter(v, s, j, ']') {
                Some((RichTextPart::Reference(body), j + n))
            } else {
                None
            }
        },
        None => None,
    }
}

/// A run of plain text.
pub fn rich_text_part_text(s: &[char], i: usize) -> (r: Option<(RichTextPart, usize)>)
    requires
        i <= s.len(),
    ensures
        agrees(r, grammar::rich_text_part_text(s@, i as int)),
        r matches Some((_, j)) ==> i < j <= s.len(),
{
    let j = scan(s, i, CharClass::Text);
    if j > i {
        Some((RichTextPart::Text(text_of(s, i, j)), j))
    } else {
        None
    }
}

/// One part of a rich text.
pub fn rich_text_part(v: Version, s: &[char], i: usize) -> (r: Option<(RichTextPart, usize)>)
    requires
        i <= s.len(),
    ensures
        agrees(r, grammar::rich_text_part(v, s@, i as int)),
        r matches Some((_, j)) ==> i < j <= s.len(),
{
    match rich_text_part_reference(v, s, i) {
        Some(found) => Some(found),
        None => rich_text_part_text(s, i),
    }
}

/// Inline text: the parts that follow one another from `i`.
pub fn rich_text(v: Version, s: &[char], i: usize) -> (r: (RichText, usize))
    requires
        i <= s.len(),
    ensures
        r.0@ == grammar::rich_text(v, s@, i as int).0,
        r.1 == grammar::rich_text(v, s@, i as int).1,
        i <= r.1 <= s.len(),
{
    let mut parts: Vec<RichTextPart> = Vec::new();
    let mut j = i;
    loop
        invariant
            i <= j <= s.len(),
            grammar::rich_text(v, s@, i as int).0 == views(parts@) + grammar::rich_text(
                v,
                s@,
                j as int,
            ).0,
            grammar::rich_text(v, s@, i as int).1 == grammar::rich_text(v, s@, j as int).1,
        decreases s.len() - j,
    {
        match rich_text_part(v, s, j) {
            Some((part, k)) => {
                let ghost before = views(parts@);
                parts.push(part);
                proof {
                    let rest = grammar::rich_text(v, s@, k as int).0;
                    assert(before + (seq![part@] + rest) =~= views(parts@) + rest);
                }
                j = k;
            },
            None => {
                let found = RichText(parts);
                assert(found@ =~= views(parts@) + Seq::<PartView>::empty());
                return (found, j);
            },
        }
    }
}

/// A block: one or more lines of at least one part each.
pub fn rich_text_block(v: Version, s: &[char], i: usize) -> (r: Option<(Vec<RichText>, usize)>)
    requires
        i <= s.len(),
    ensures
        match grammar::rich_text_block(v, s@, i as int) {
            Some((lines, k)) => r matches Some((found, j)) && views(found@) == lines && j == k,
            None => r is None,
        },
        r matches Some((found, j)) ==> i < j <= s.len() && found.len() > 0,
{
    let (first, end) = rich_text(v, s, i);
    if first.0.len() == 0 {
        return None;
    }
    proof {
        grammar::lemma_rich_text(v, s@, i as int);
    }
    let mut lines: Vec<RichText> = Vec::new();
    lines.push(first);
    let mut j = end;
    assert(views(lines@) =~= seq![first@]);
    loop
        invariant
            i < j <= s.len(),
            lines.len() > 0,
            grammar::rich_text_block(v, s@, i as int) == Some(
                (
                    views(lines@) + grammar::more_text_lines(v, s@, j as int).0,
                    grammar::more_text_lines(v, s@, j as int).1,
                ),
            ),
        decreases s.len() - j,
    {
        let n = line_break(s, j);
        if n == 0 {
            assert(views(lines@) + Seq::<Seq<PartView>>::empty() =~= views(lines@));
            return Some((lines, j));
        }
        let (line, k) = rich_text(v, s, j + n);
        if line.0.len() == 0 {
            assert(views(lines@) + Seq::<Seq<PartView>>::empty() =~= views(lines@));
            return Some((lines, j));
        }
        proof {
            grammar::lemma_rich_text(v, s@, j + n);
        }
        let ghost before = views(lines@);
        lines.push(line);
        proof {
            let rest = grammar::more_text_lines(v, s@, k as int).0;
            assert(before + (seq![line@] + rest) =~= views(lines@) + rest);
        }
        j = k;
    }
}

/// The lines of a block as one rich text.
pub fn merge_lines(lines: Vec<RichText>) -> (r: RichText)
    ensures
        r@ == grammar::merged(views(lines@)),
{
    let ghost all = views(lines@);
    let mut merged = RichText(Vec::new());
    for line in it: lines
        invariant
            views(it.seq()) == all,
            merged@ == grammar::merged(all.take(it.index() as int)),
    {
        proof {
            assert(all.take(it.index() + 1).drop_last() =~= all.take(it.index() as int));
        }
        merged = merged.merge(line);
    }
    assert(all.take(all.len() as int) =~= all);
    merged
}

/// A comment: `//` and the rest of the line.
pub fn comment(v: Version, s: &[char], i: usize) -> (r: Option<(SceneItem, usize)>)
    requires
        i <= s.len(),
    ensures
        agrees(r, grammar::comment(v, s@, i as int)),
        r matches Some((_, j)) ==> i < j <= s.len(),
{
    let a = scan(s, i, CharClass::Blank);
    if !at_pair(s, a, '/') {
        return None;
    }
    let b = scan(s, a + 2, CharClass::Blank);
    let (text, j) = rich_text(v, s, b);
    Some((SceneItem::SpoilerBlock(text), j))
}

/// A tagged action: `#`, a tag, at least one blank, and the rest of the line.
pub fn tagged_action_line(v: Version, s: &[char], i: usize) -> (r: Option<(SceneItem, usize)>)
    requires
        i <= s.len(),
    ensures
        agrees(r, grammar::tagged_action_line(v, s@, i as int)),
        r matches Some((_, j)) ==> i < j <= s.len(),
{
    let a = scan(s, i, CharClass::Blank);
    if !at(s, a, '#') {
        return None;
    }
    match identifier(s, a + 1) {
        Some((tag, b)) => {
            let c = scan(s, b, CharClass::Blank);
            if c > b {
                let (text, j) = rich_text(v, s, c);
                Some((SceneItem::TaggedAction(tag, text), j))
            } else {
                None
            }
        },
        None => None,
    }
}

/// A dialogue: the speaker between `[` and `]`, a line break, and the lines spoken.
pub fn dialogue_block(v: Version, s: &[char], i: usize) -> (r: Option<(SceneItem, usize)>)
    requires
        i <= s.len(),
    ensures
        agrees(r, grammar::dialogue_block(v, s@, i as int)),
        r matches Some((_, j)) ==> i < j <= s.len(),
{
    if !at(s, i, '[') {
        return None;
    }
    match reference(s, i + 1) {
        Some((speaker, j)) => {
            if !at(s, j, ']') {
                return None;
            }
            let n = line_break(s, j + 1);
            if n == 0 {
                return None;
            }
            match rich_text_block(v, s, j + 1 + n) {
                Some((block, k)) => Some((SceneItem::DialogueBlock { speaker, block }, k)),
                None => None,
            }
        },
        None => None,
    }
}

/// An action: a block, its lines merged into one rich text.
pub fn action_block(v: Version, s: &[char], i: usize) -> (r: Option<(SceneItem, usize)>)
    requires
        i <= s.len(),
    ensures
        agrees(r, grammar::action_block(v, s@, i as int)),
        r matches Some((_, j)) ==> i < j <= s.len(),
{
    match rich_text_block(v, s, i) {
        Some((lines, j)) => Some((SceneItem::ActionBlock(merge_lines(lines)), j)),
        None => None,
    }
}

/// One item of a scene: the first of comment, tagged action, dialogue and action that matches.
pub fn scene_item(v: Version, s: &[char], i: usize) -> (r: Option<(SceneItem, usize)>)
    requires
        i <= s.len(),
    ensures
        agrees(r, grammar::scene_item(v, s@, i as int)),
        r matches Some((_, j)) ==> i < j <= s.len(),
{
    match comment(v, s, i) {
        Some(found) => Some(found),
        None => match tagged_action_line(v, s, i) {
            Some(found) => Some(found),
            None => match dialogue_block(v, s, i) {
                Some(found) => Some(found),
                None => action_block(v, s, i),
            },
        },
    }
}

/// The items of a scene: one or more.
pub fn scene_items(v: Version, s: &[char], i: usize) -> (r: Option<(Vec<SceneItem>, usize)>)
    requires
        i <= s.len(),
    ensures
        match grammar::scene_items(v, s@, i as int) {
            Some((items, k)) => r matches Some((found, j)) && views(found@) == items && j == k,
            None => r is None,
        },
        r matches Some((found, j)) ==> i < j <= s.len() && found.len() > 0,
{
    let mut items: Vec<SceneItem> = Vec::new();
    let mut j = match scene_item(v, s, i) {
        Some((first, j)) => {
            items.push(first);
            assert(views(items@) =~= seq![first@]);
            j
        },
        None => {
            return None;
        },
    };
    loop
        invariant
            i < j <= s.len(),
            items.len() > 0,
            grammar::scene_items(v, s@, i as int) == Some(
                (
                    views(items@) + grammar::more_scene_items(v, s@, j as int).0,
                    grammar::more_scene_items(v, s@, j as int).1,
                ),
            ),
        decreases s.len() - j,
    {
        if !at(s, j, '\n') {
            assert(views(items@) + Seq::<ItemView>::empty() =~= views(items@));
            return Some((items, j));
        }
        match scene_item(v, s, scan(s, j + 1, CharClass::Space)) {
            Some((item, k)) => {
                let ghost before = views(items@);
                items.push(item);
                proof {
                    let rest = grammar::more_scene_items(v, s@, k as int).0;
                    assert(before + (seq![item@] + rest) =~= views(items@) + rest);
                }
                j = k;
            },
            None => {
                assert(views(items@) + Seq::<ItemView>::empty() =~= views(items@));
                return Some((items, j));
            },
        }
    }
}

/// A metadata value: a rich text.
pub fn value(v: Version, s: &[char], i: usize) -> (r: (Value, usize))
    requires
        i <= s.len(),
    ensures
        r.0@ == grammar::value(v, s@, i as int).0,
        r.1 == grammar::value(v, s@, i as int).1,
        i <= r.1 <= s.len(),
{
    let (text, j) = rich_text(v, s, i);
    (Value::RichText(text), j)
}

/// A metadata entry: a key, `:` and the rest of the line as the value.
pub fn key_value(v: Version, s: &[char], i: usize) -> (r: Option<((String, Value), usize)>)
    requires
        i <= s.len(),
    ensures
        match grammar::key_value(v, s@, i as int) {
            Some((entry, k)) => r matches Some((found, j)) && found.0@ == entry.0 && found.1@
                == entry.1 && j == k,
            None => r is None,
        },
        r matches Some((_, j)) ==> i < j <= s.len(),
{
    match identifier(s, i) {
        Some((key, a)) => {
            let b = scan(s, a, CharClass::Blank);
            if !at(s, b, ':') {
                return None;
            }
            let (found, j) = value(v, s, scan(s, b + 1, CharClass::Blank));
            Some(((key, found), j))
        },
        None => None,
    }
}

/// A metadata list: its entries as a mapping. The list stops where it starts exactly when it
/// has no entry.
pub fn key_value_list(v: Version, s: &[char], i: usize) -> (r: (Metadata, usize))
    requires
        i <= s.len(),
    ensures
        r.0@ == grammar::key_value_list(v, s@, i as int).0,
        r.1 == grammar::key_value_list(v, s@, i as int).1,
        i <= r.1 <= s.len(),
        r.1 == i <==> grammar::key_values(v, s@, i as int).0.len() == 0,
{
    proof {
        grammar::lemma_key_values(v, s@, i as int);
    }
    let mut entries = Metadata::new();
    let ghost mut seen: Seq<(Seq<char>, ValueView)> = Seq::empty();
    let mut j = match key_value(v, s, i) {
        Some(((key, found), j)) => {
            proof {
                seen = seen.push((key@, found@));
                assert(seen.drop_last() =~= Seq::<(Seq<char>, ValueView)>::empty());
                assert(entries_map(seen.drop_last()) == Map::<Seq<char>, ValueView>::empty());
            }
            entries.insert(key, found);
            j
        },
        None => {
            return (entries, i);
        },
    };
    loop
        invariant
            i < j <= s.len(),
            entries@ == entries_map(seen),
            grammar::key_values(v, s@, i as int) == (
                seen + grammar::more_key_values(v, s@, j as int).0,
                grammar::more_key_values(v, s@, j as int).1,
            ),
        decreases s.len() - j,
    {
        if !at(s, j, '\n') {
            assert(seen + Seq::<(Seq<char>, ValueView)>::empty() =~= seen);
            return (entries, j);
        }
        match key_value(v, s, j + 1) {
            Some(((key, found), k)) => {
                proof {
                    let rest = grammar::more_key_values(v, s@, k as int).0;
                    let entry = (key@, found@);
                    assert(seen + (seq![entry] + rest) =~= seen.push(entry) + rest);
                    assert(seen.push(entry).drop_last() =~= seen);
                    seen = seen.push(entry);
                }
                entries.insert(key, found);
                j = k;
            },
            None => {
                assert(seen + Seq::<(Seq<char>, ValueView)>::empty() =~= seen);
                return (entries, j);
            },
        }
    }
}

/// Where the name in a scene's header stops.
fn name_end(s: &[char], i: usize) -> (j: usize)
    requires
        i <= s.len(),
    ensures
        j == grammar::name_end(s@, i as int),
        i <= j <= s.len(),
{
    let mut j = i;
    while j < s.len() && s[j] != '\r' && s[j] != '\n' && !at_pair(s, j, '=')
        invariant
            i <= j <= s.len(),
            grammar::name_end(s@, i as int) == grammar::name_end(s@, j as int),
        decreases s.len() - j,
    {
        j += 1;
    }
    j
}

/// The characters of `s` from `from` up to `to` without the whitespace at both ends.
pub fn trimmed(s: &[char], from: usize, to: usize) -> (r: String)
    requires
        from <= to <= s.len(),
    ensures
        r@ == grammar::trim(s@.subrange(from as int, to as int)),
{
    let mut a = from;
    while a < to && whitespace(s[a])
        invariant
            from <= a <= to <= s.len(),
            grammar::trim_start(s@.subrange(from as int, to as int)) == grammar::trim_start(
                s@.subrange(a as int, to as int),
            ),
        decreases to - a,
    {
        proof {
            assert(s@.subrange(a as int, to as int).drop_first() =~= s@.subrange(
                a + 1,
                to as int,
            ));
        }
        a += 1;
    }
    let mut b = to;
    while b > a && whitespace(s[b - 1])
        invariant
            a <= b <= to <= s.len(),
            grammar::trim_end(s@.subrange(a as int, to as int)) == grammar::trim_end(
                s@.subrange(a as int, b as int),
            ),
        decreases b - a,
    {
        proof {
            assert(s@.subrange(a as int, b as int).drop_last() =~= s@.subrange(
                a as int,
                b - 1,
            ));
        }
        b -= 1;
    }
    text_of(s, a, b)
}

/// A scene's header: the name between two `==` marks, on a line of its own.
pub fn scene_header(s: &[char], i: usize) -> (r: Option<(Option<String>, usize)>)
    requires
        i <= s.len(),
    ensures
        match grammar::scene_header(s@, i as int) {
            Some((name, k)) => r matches Some((found, j)) && optional_text(found) == name && j
                == k,
            None => r is None,
        },
        r matches Some((_, j)) ==> i < j <= s.len(),
{
    if !at_pair(s, i, '=') {
        return None;
    }
    let a = i + 2;
    let b = name_end(s, a);
    if !at_pair(s, b, '=') {
        return None;
    }
    let n = line_break(s, b + 2);
    if n == 0 {
        return None;
    }
    let name = if b > a {
        Some(trimmed(s, a, b))
    } else {
        None
    };
    Some((name, b + 2 + n))
}

/// A scene: its header, its metadata, and its items.
pub fn scene(v: Version, s: &[char], i: usize) -> (r: Option<(Scene, usize)>)
    requires
        i <= s.len(),
    ensures
        agrees(r, grammar::scene(v, s@, i as int)),
        r matches Some((_, j)) ==> i < j <= s.len(),
{
    match scene_header(s, i) {
        Some((name, a)) => {
            let (meta, b) = key_value_list(v, s, a);
            match scene_items(v, s, scan(s, b, CharClass::Space)) {
                Some((items, j)) => Some((Scene { name, meta, items }, j)),
                None => None,
            }
        },
        None => None,
    }
}

/// The scenes of a file, with the space characters behind each.
pub fn scenes(v: Version, s: &[char], i: usize) -> (r: (Vec<Scene>, usize))
    requires
        i <= s.len(),
    ensures
        views(r.0@) == grammar::scenes(v, s@, i as int).0,
        r.1 == grammar::scenes(v, s@, i as int).1,
        i <= r.1 <= s.len(),
{
    let mut found: Vec<Scene> = Vec::new();
    let mut j = i;
    loop
        invariant
            i <= j <= s.len(),
            grammar::scenes(v, s@, i as int).0 == views(found@) + grammar::scenes(
                v,
                s@,
                j as int,
            ).0,
            grammar::scenes(v, s@, i as int).1 == grammar::scenes(v, s@, j as int).1,
        decreases s.len() - j,
    {
        match scene(v, s, j) {
            Some((next, k)) => {
                let ghost before = views(found@);
                found.push(next);
                let after = scan(s, k, CharClass::Space);
                proof {
                    let rest = grammar::scenes(v, s@, after as int).0;
                    assert(before + (seq![next@] + rest) =~= views(found@) + rest);
                }
                j = after;
            },
            None => {
                assert(views(found@) + Seq::<SceneView>::empty() =~= views(found@));
                return (found, j);
            },
        }
    }
}

/// A fence: a line that holds `---` and nothing else.
pub fn fence(s: &[char], i: usize) -> (r: Option<usize>)
    requires
        i <= s.len(),
    ensures
        match grammar::fence(s@, i as int) {
            Some(k) => r matches Some(j) && j == k && i < j <= s.len(),
            None => r is None,
        },
{
    if !at_pair(s, i, '-') {
        return None;
    }
    if !at(s, i + 2, '-') {
        return None;
    }
    let n = line_break(s, i + 3);
    if n > 0 || i + 3 == s.len() {
        Some(i + 3 + n)
    } else {
        None
    }
}

/// The frontmatter of a file, and where the rest of the file starts. A file without
/// frontmatter gives `Some((None, 0))`; one whose frontmatter is not closed gives `None`.
pub fn frontmatter(v: Version, s: &[char]) -> (r: Option<(Option<Metadata>, usize)>)
    ensures
        match grammar::frontmatter(v, s@) {
            Some((Some(entries), k)) => r matches Some((Some(found), j)) && found@ == entries
                && j == k,
            Some((None, k)) => r matches Some((None, j)) && j == k,
            None => r is None,
        },
        r matches Some((_, j)) ==> j <= s.len(),
{
    match fence(s, 0) {
        Some(a) => {
            let (entries, b) = key_value_list(v, s, a);
            let n = if b > a {
                line_break(s, b)
            } else {
                0
            };
            if b > a && n == 0 {
                return None;
            }
            match fence(s, b + n) {
                Some(c) => Some((Some(entries), c)),
                None => None,
            }
        },
        None => Some((None, 0)),
    }
}

/// Where the line that holds position `i` stops.
fn line_end(s: &[char], i: usize) -> (j: usize)
    requires
        i <= s.len(),
    ensures
        j == grammar::line_end(s@, i as int),
        i <= j <= s.len(),
{
    let mut j = i;
    while j < s.len() && line_break(s, j) == 0
        invariant
            i <= j <= s.len(),
            grammar::line_end(s@, i as int) == grammar::line_end(s@, j as int),
        decreases s.len() - j,
    {
        j += 1;
    }
    j
}

/// A line: the characters up to the next line break or the end of the input.
pub fn line(s: &[char], i: usize) -> (r: (String, usize))
    requires
        i <= s.len(),
    ensures
        r.0@ == grammar::line(s@, i as int).0,
        r.1 == grammar::line(s@, i as int).1,
        i <= r.1 <= s.len(),
{
    let j = line_end(s, i);
    (text_of(s, i, j), j + line_break(s, j))
}

/// A heading: a line that starts neither with a space character nor with `==`.
pub fn heading(s: &[char], i: usize) -> (r: Option<(String, usize)>)
    requires
        i <= s.len(),
    ensures
        agrees(r, grammar::heading(s@, i as int)),
        r matches Some((_, j)) ==> i <= j <= s.len(),
{
    if i < s.len() && !CharClass::Space.contains(s[i]) && !at_pair(s, i, '=') {
        Some(line(s, i))
    } else {
        None
    }
}

/// Parses a document held as characters.
pub fn parse(v: Version, s: &[char]) -> (r: Result<File, ParseError>)
    ensures
        match grammar::file(v, s@) {
            Some(tree) => r matches Ok(found) && found@ == tree,
            None => r is Err,
        },
        r matches Ok(found) ==> grammar::parsed_file(found@) && can_play(found@),
{
    proof {
        grammar::lemma_file_parsed(v, s@);
        match grammar::file(v, s@) {
            Some(tree) => lemma_parsed_file_can_play(tree),
            None => {},
        }
    }
    let (frontmatter, a) = match frontmatter(v, s) {
        Some(found) => found,
        None => {
            return Err(ParseError {});
        },
    };
    let (title, b) = match heading(s, a) {
        Some((text, b)) => (Some(text), b),
        None => (None, a),
    };
    let (subtitle, c) = if title.is_some() {
        match heading(s, b) {
            Some((text, c)) => (Some(text), c),
            None => (None, b),
        }
    } else {
        (None, b)
    };
    let (scenes, j) = scenes(v, s, scan(s, c, CharClass::Space));
    if j == s.len() {
        Ok(File { title, subtitle, frontmatter, scenes })
    } else {
        Err(ParseError {})
    }
}

/// Parses a document in the version `v` of the grammar: the whole of `input` or nothing.
///
/// The result is the tree that [`grammar::file`] gives for the characters of `input`, and an
/// error exactly where that rule fails. A tree that comes out of a parse has at least one item
/// in each scene, holds no empty referent, and can be played.
pub fn file_with(v: Version, input: &str) -> (r: Result<File, ParseError>)
    ensures
        match grammar::file(v, input@) {
            Some(tree) => r matches Ok(found) && found@ == tree,
            None => r is Err,
        },
        r matches Ok(found) ==> grammar::parsed_file(found@) && can_play(found@),
{
    let chars = chars_of(input);
    parse(v, chars.as_slice())
}

/// Parses a document in the current version of the grammar: the whole of `input` or nothing.
///
/// The result is the tree that [`grammar::file`] gives for the characters of `input`, and an
/// error exactly where that rule fails. A tree that comes out of a parse has at least one item
/// in each scene, holds no empty referent, and can be played.
pub fn file(input: &str) -> (r: Result<File, ParseError>)
    ensures
        match grammar::file(Version::current(), input@) {
            Some(tree) => r matches Ok(found) && found@ == tree,
            None => r is Err,
        },
        r matches Ok(found) ==> grammar::parsed_file(found@) && can_play(found@),
{
    file_with(Version::DoubleBracket, input)
}

} // verus!
