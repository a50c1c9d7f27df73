//! Laws of the library: what holds of every input, stated over the library's own contracts.

use vstd::prelude::*;
use crate::chars::CharClass;
use crate::grammar;
use crate::grammar::Version;
use crate::model::{plain_part, plain_text, PartView, ReferenceView};
use crate::parser::{file, file_with, ParseError};
use crate::types::{File, RichText};

verus! {

/// Parsing is deterministic: whatever two parses of one text return, both fail or both give
/// the same tree.
pub proof fn file_is_deterministic(
    input: &str,
    first: Result<File, ParseError>,
    second: Result<File, ParseError>,
)
    requires
        call_ensures(file, (input,), first),
        call_ensures(file, (input,), second),
    ensures
        first is Ok <==> second is Ok,
        first matches Ok(a) ==> second matches Ok(b) && a@ == b@,
{
}

/// Parsing is deterministic in every version of the grammar, and depends on the characters of
/// the text alone: whatever the parses of two texts with the same characters return, both
/// fail or both give the same tree.
pub proof fn file_with_is_deterministic(
    v: Version,
    input: &str,
    again: &str,
    first: Result<File, ParseError>,
    second: Result<File, ParseError>,
)
    requires
        input@ == again@,
        call_ensures(file_with, (v, input), first),
        call_ensures(file_with, (v, again), second),
    ensures
        first is Ok <==> second is Ok,
        first matches Ok(a) ==> second matches Ok(b) && a@ == b@,
{
}

/// To parse without naming a version is to parse in the current one.
pub proof fn file_is_the_current_version(
    input: &str,
    first: Result<File, ParseError>,
    second: Result<File, ParseError>,
)
    requires
        call_ensures(file, (input,), first),
        call_ensures(file_with, (Version::current(), input), second),
    ensures
        first is Ok <==> second is Ok,
        first matches Ok(a) ==> second matches Ok(b) && a@ == b@,
{
}

/// Merging is associative: to merge `a` with `b` and the result with `c` gives the rich text
/// that merging `a` with the merge of `b` and `c` gives.
pub proof fn merge_is_associative(
    a: RichText,
    b: RichText,
    c: RichText,
    ab: RichText,
    bc: RichText,
    left: RichText,
    right: RichText,
)
    requires
        call_ensures(RichText::merge, (a, b), ab),
        call_ensures(RichText::merge, (ab, c), left),
        call_ensures(RichText::merge, (b, c), bc),
        call_ensures(RichText::merge, (a, bc), right),
    ensures
        left@ == right@,
{
    assert((a@ + b@) + c@ =~= a@ + (b@ + c@));
}

/// The empty rich text is the identity of merging, on either side.
pub proof fn merge_has_identity(a: RichText, empty: RichText, left: RichText, right: RichText)
    requires
        empty@.len() == 0,
        call_ensures(RichText::merge, (empty, a), left),
        call_ensures(RichText::merge, (a, empty), right),
    ensures
        left@ == a@,
        right@ == a@,
{
    assert(empty@ + a@ =~= a@);
    assert(a@ + empty@ =~= a@);
}

/// The plain text of two rich texts one after the other is the plain text of the first, then
/// that of the second.
pub proof fn plain_text_of_concatenation(a: Seq<PartView>, b: Seq<PartView>)
    ensures
        plain_text(a + b) == plain_text(a) + plain_text(b),
    decreases b.len(),
{
    if b.len() == 0 {
        assert(a + b =~= a);
        assert(plain_text(a) + plain_text(b) =~= plain_text(a));
    } else {
        plain_text_of_concatenation(a, b.drop_last());
        assert((a + b).drop_last() =~= a + b.drop_last());
        assert((a + b).last() == b.last());
        assert((plain_text(a) + plain_text(b.drop_last())) + plain_part(b.last()) =~= plain_text(a)
            + (plain_text(b.drop_last()) + plain_part(b.last())));
    }
}

/// The plain text of a rich text of one part is the plain text of that part.
pub proof fn plain_text_of_one(part: PartView)
    ensures
        plain_text(seq![part]) == plain_part(part),
{
    let one = seq![part];
    assert(one.len() == 1);
    assert(one.last() == part);
    assert(one.drop_last().len() == 0);
    assert(plain_text(one.drop_last()) =~= Seq::<char>::empty());
    assert(plain_text(one) =~= plain_part(part));
}

/// The plain text of a merge is the plain text of its left side, then that of its right side.
pub proof fn as_string_of_merge(
    a: RichText,
    b: RichText,
    merged: RichText,
    shown: String,
)
    requires
        call_ensures(RichText::merge, (a, b), merged),
        call_ensures(RichText::as_string, (&merged,), shown),
    ensures
        shown@ == plain_text(a@) + plain_text(b@),
{
    plain_text_of_concatenation(a@, b@);
}

/// The plain text is a function of the tree: two rich texts with one view have one plain text.
pub proof fn as_string_is_a_function(a: RichText, b: RichText, shown: String, other: String)
    requires
        a@ == b@,
        call_ensures(RichText::as_string, (&a,), shown),
        call_ensures(RichText::as_string, (&b,), other),
    ensures
        shown@ == other@,
{
}

/// Where a reference has an alias the alias stands for it in the plain text, whatever its
/// referent is: between the plain text of what precedes the reference and that of what follows
/// it stands the alias.
pub proof fn alias_wins(
    before: Seq<PartView>,
    referent: Seq<char>,
    alias: Seq<char>,
    after: Seq<PartView>,
)
    ensures
        plain_text(
            before + seq![PartView::Reference(ReferenceView { referent, alias: Some(alias) })]
                + after,
        ) == plain_text(before) + alias + plain_text(after),
{
    let part = PartView::Reference(ReferenceView { referent, alias: Some(alias) });
    plain_text_of_concatenation(before + seq![part], after);
    plain_text_of_concatenation(before, seq![part]);
    plain_text_of_one(part);
}

/// Where a reference has no alias its referent stands for it in the plain text.
pub proof fn referent_stands_without_alias(
    before: Seq<PartView>,
    referent: Seq<char>,
    after: Seq<PartView>,
)
    ensures
        plain_text(
            before + seq![PartView::Reference(ReferenceView { referent, alias: None })] + after,
        ) == plain_text(before) + referent + plain_text(after),
{
    let part = PartView::Reference(ReferenceView { referent, alias: None });
    plain_text_of_concatenation(before + seq![part], after);
    plain_text_of_concatenation(before, seq![part]);
    plain_text_of_one(part);
}

/// A header with nothing between its two marks gives a scene without a name.
pub proof fn header_without_name(s: Seq<char>, i: int)
    requires
        grammar::at(s, i, '=') && grammar::at(s, i + 1, '='),
        grammar::at(s, i + 2, '=') && grammar::at(s, i + 3, '='),
        grammar::line_break(s, i + 4) > 0,
    ensures
        grammar::scene_header(s, i) == Some(
            (None::<Seq<char>>, i + 4 + grammar::line_break(s, i + 4)),
        ),
{
}

/// A header with anything between its two marks gives a scene with a name: what stands
/// between the marks, trimmed.
pub proof fn header_with_name(s: Seq<char>, i: int)
    requires
        grammar::scene_header(s, i) is Some,
        !(grammar::at(s, i + 2, '=') && grammar::at(s, i + 3, '=')),
    ensures
        grammar::scene_header(s, i) matches Some((Some(name), _)) && name == grammar::trim(
            s.subrange(i + 2, grammar::name_end(s, i + 2)),
        ),
{
    grammar::lemma_name_end(s, i + 2);
}

/// A scene that parses holds at least one item.
pub proof fn scene_holds_an_item(v: Version, s: Seq<char>, i: int)
    ensures
        grammar::scene(v, s, i) matches Some((found, _)) ==> found.items.len() > 0,
{
    grammar::lemma_scene(v, s, i);
}

/// In a file that parses every scene holds at least one item, no referent is empty, and no
/// item is a `Cont` or an `If`.
pub proof fn file_is_as_parsed(v: Version, s: Seq<char>)
    ensures
        grammar::file(v, s) matches Some(found) ==> grammar::parsed_file(found),
{
    grammar::lemma_file_parsed(v, s);
}

/// A file that starts with a fence and holds no second one does not parse: frontmatter that
/// is not closed fails the whole file.
pub proof fn unclosed_frontmatter_fails(v: Version, s: Seq<char>)
    requires
        grammar::fence(s, 0) is Some,
        forall|i: int| 0 < i ==> grammar::fence(s, i) is None,
    ensures
        grammar::file(v, s) is None,
{
    let a = grammar::fence(s, 0)->0;
    grammar::lemma_key_values(v, s, a);
}

/// A file that does not start with a fence has no frontmatter, whether it parses or not.
pub proof fn no_fence_no_frontmatter(v: Version, s: Seq<char>)
    requires
        grammar::fence(s, 0) is None,
    ensures
        grammar::file(v, s) matches Some(found) ==> found.frontmatter is None,
{
}

/// A file that parses with frontmatter starts with a fence and holds a second one.
pub proof fn frontmatter_is_fenced(v: Version, s: Seq<char>)
    requires
        grammar::file(v, s) matches Some(found) && found.frontmatter is Some,
    ensures
        grammar::fence(s, 0) is Some,
        exists|i: int| 0 < i && grammar::fence(s, i) is Some,
{
    let a = grammar::fence(s, 0)->0;
    grammar::lemma_key_values(v, s, a);
    let (entries, b) = grammar::key_values(v, s, a);
    let n = if entries.len() > 0 {
        grammar::line_break(s, b)
    } else {
        0
    };
    assert(grammar::fence(s, b + n) is Some);
}

/// The empty text parses, to a file without title, subtitle, frontmatter or scenes.
pub proof fn empty_text_is_an_empty_file(v: Version)
    ensures
        grammar::file(v, Seq::empty()) matches Some(found) && found.title is None
            && found.subtitle is None && found.frontmatter is None && found.scenes.len() == 0,
{
    let s = Seq::<char>::empty();
    assert(grammar::run(s, 0, CharClass::Space) == 0);
    assert(grammar::scene(v, s, 0) is None);
}

/// A text that holds frontmatter, or none, and nothing but space characters behind it parses,
/// to a file with that frontmatter and without title, subtitle or scenes.
pub proof fn frontmatter_alone_is_a_file(v: Version, s: Seq<char>)
    requires
        grammar::frontmatter(v, s) matches Some((_, a)) && grammar::run(s, a, CharClass::Space)
            == s.len(),
    ensures
        match (grammar::frontmatter(v, s), grammar::file(v, s)) {
            (Some((entries, _)), Some(found)) => found.frontmatter == entries && found.title
                is None && found.subtitle is None && found.scenes.len() == 0,
            _ => false,
        },
{
    match grammar::frontmatter(v, s) {
        Some((_, a)) => {
            match grammar::fence(s, 0) {
                Some(start) => grammar::lemma_key_values(v, s, start),
                None => {},
            }
            grammar::lemma_run(s, a, CharClass::Space);
            assert(grammar::heading(s, a) is None);
            assert(grammar::scene(v, s, s.len() as int) is None);
        },
        None => {},
    }
}

/// No bracket opens in `s`.
pub open spec fn without_brackets(s: Seq<char>) -> bool {
    forall|k: int| 0 <= k < s.len() ==> #[trigger] s[k] != '['
}

/// Inline text without an opening bracket reads the same in every version of the grammar.
pub proof fn rich_text_without_brackets(v: Version, w: Version, s: Seq<char>, i: int)
    requires
        without_brackets(s),
    ensures
        grammar::rich_text(v, s, i) == grammar::rich_text(w, s, i),
    decreases s.len() - i,
{
    grammar::lemma_rich_text_part(v, s, i);
    match grammar::rich_text_part(v, s, i) {
        Some((_, j)) => rich_text_without_brackets(v, w, s, j),
        None => {},
    }
}

/// The lines after a line, where no bracket opens, read the same in every version.
pub proof fn more_text_lines_without_brackets(v: Version, w: Version, s: Seq<char>, i: int)
    requires
        without_brackets(s),
    ensures
        grammar::more_text_lines(v, s, i) == grammar::more_text_lines(w, s, i),
    decreases s.len() - i,
{
    let n = grammar::line_break(s, i);
    if n > 0 {
        rich_text_without_brackets(v, w, s, i + n);
        grammar::lemma_rich_text(v, s, i + n);
        match grammar::text_line(v, s, i + n) {
            Some((_, j)) => more_text_lines_without_brackets(v, w, s, j),
            None => {},
        }
    }
}

/// An item without an opening bracket reads the same in every version.
pub proof fn scene_item_without_brackets(v: Version, w: Version, s: Seq<char>, i: int)
    requires
        without_brackets(s),
        0 <= i <= s.len(),
    ensures
        grammar::scene_item(v, s, i) == grammar::scene_item(w, s, i),
{
    let blank = CharClass::Blank;
    let a = grammar::run(s, i, blank);
    rich_text_without_brackets(v, w, s, grammar::run(s, a + 2, blank));
    match grammar::identifier(s, a + 1) {
        Some((_, b)) => rich_text_without_brackets(v, w, s, grammar::run(s, b, blank)),
        None => {},
    }
    rich_text_without_brackets(v, w, s, i);
    grammar::lemma_rich_text(v, s, i);
    match grammar::text_line(v, s, i) {
        Some((_, j)) => more_text_lines_without_brackets(v, w, s, j),
        None => {},
    }
}

/// The items after an item, where no bracket opens, read the same in every version.
pub proof fn more_scene_items_without_brackets(v: Version, w: Version, s: Seq<char>, i: int)
    requires
        without_brackets(s),
        0 <= i <= s.len(),
    ensures
        grammar::more_scene_items(v, s, i) == grammar::more_scene_items(w, s, i),
    decreases s.len() - i,
{
    if grammar::at(s, i, '\n') {
        let a = grammar::run(s, i + 1, CharClass::Space);
        grammar::lemma_run(s, i + 1, CharClass::Space);
        scene_item_without_brackets(v, w, s, a);
        grammar::lemma_scene_item(v, s, a);
        match grammar::scene_item(v, s, a) {
            Some((_, j)) => more_scene_items_without_brackets(v, w, s, j),
            None => {},
        }
    }
}

/// A metadata entry without an opening bracket reads the same in every version.
pub proof fn key_value_without_brackets(v: Version, w: Version, s: Seq<char>, i: int)
    requires
        without_brackets(s),
    ensures
        grammar::key_value(v, s, i) == grammar::key_value(w, s, i),
{
    let blank = CharClass::Blank;
    match grammar::identifier(s, i) {
        Some((_, a)) => {
            let b = grammar::run(s, a, blank);
            rich_text_without_brackets(v, w, s, grammar::run(s, b + 1, blank));
        },
        None => {},
    }
}

/// The entries after an entry, where no bracket opens, read the same in every version.
pub proof fn more_key_values_without_brackets(v: Version, w: Version, s: Seq<char>, i: int)
    requires
        without_brackets(s),
    ensures
        grammar::more_key_values(v, s, i) == grammar::more_key_values(w, s, i),
    decreases s.len() - i,
{
    if grammar::at(s, i, '\n') {
        key_value_without_brackets(v, w, s, i + 1);
        grammar::lemma_key_value(v, s, i + 1);
        match grammar::key_value(v, s, i + 1) {
            Some((_, j)) => more_key_values_without_brackets(v, w, s, j),
            None => {},
        }
    }
}

/// A metadata list without an opening bracket reads the same in every version.
pub proof fn key_values_without_brackets(v: Version, w: Version, s: Seq<char>, i: int)
    requires
        without_brackets(s),
    ensures
        grammar::key_values(v, s, i) == grammar::key_values(w, s, i),
{
    key_value_without_brackets(v, w, s, i);
    match grammar::key_value(v, s, i) {
        Some((_, j)) => more_key_values_without_brackets(v, w, s, j),
        None => {},
    }
}

/// A scene without an opening bracket reads the same in every version.
pub proof fn scene_without_brackets(v: Version, w: Version, s: Seq<char>, i: int)
    requires
        without_brackets(s),
    ensures
        grammar::scene(v, s, i) == grammar::scene(w, s, i),
{
    match grammar::scene_header(s, i) {
        Some((_, a)) => {
            grammar::lemma_name_end(s, i + 2);
            key_values_without_brackets(v, w, s, a);
            grammar::lemma_key_values(v, s, a);
            let b = grammar::key_values(v, s, a).1;
            let c = grammar::run(s, b, CharClass::Space);
            grammar::lemma_run(s, b, CharClass::Space);
            scene_item_without_brackets(v, w, s, c);
            grammar::lemma_scene_item(v, s, c);
            match grammar::scene_item(v, s, c) {
                Some((_, j)) => more_scene_items_without_brackets(v, w, s, j),
                None => {},
            }
        },
        None => {},
    }
}

/// The scenes of a text without an opening bracket read the same in every version.
pub proof fn scenes_without_brackets(v: Version, w: Version, s: Seq<char>, i: int)
    requires
        without_brackets(s),
    ensures
        grammar::scenes(v, s, i) == grammar::scenes(w, s, i),
    decreases s.len() - i,
{
    scene_without_brackets(v, w, s, i);
    grammar::lemma_scene(v, s, i);
    match grammar::scene(v, s, i) {
        Some((_, j)) => {
            grammar::lemma_run(s, j, CharClass::Space);
            scenes_without_brackets(v, w, s, grammar::run(s, j, CharClass::Space));
        },
        None => {},
    }
}

/// The versions of the grammar differ in their inline references alone: a text in which no
/// bracket opens parses to the same file, or fails, in every version.
pub proof fn versions_agree_without_brackets(v: Version, w: Version, s: Seq<char>)
    requires
        without_brackets(s),
    ensures
        grammar::file(v, s) == grammar::file(w, s),
{
    match grammar::fence(s, 0) {
        Some(a) => key_values_without_brackets(v, w, s, a),
        None => {},
    }
    match grammar::frontmatter(v, s) {
        Some((_, a)) => {
            let title = grammar::heading(s, a);
            let b = match title {
                Some((_, b)) => b,
                None => a,
            };
            let subtitle = if title is Some {
                grammar::heading(s, b)
            } else {
                None
            };
            let c = match subtitle {
                Some((_, c)) => c,
                None => b,
            };
            scenes_without_brackets(v, w, s, grammar::run(s, c, CharClass::Space));
        },
        None => {},
    }
}

} // verus!
