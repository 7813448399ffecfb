//! What holds of places in sources, and of diagnostics that have been located.
use crate::diagnostic;
use crate::diagnostic::{Category, Diagnostic, DiagnosticView, Range};
use crate::files;
use crate::files::ROOT;
use vstd::prelude::*;

verus! {

/// The indices at which a text holds a newline.
pub open spec fn newlines(s: Seq<char>) -> Set<int> {
    Set::new(|i: int| 0 <= i < s.len() && s[i] == '\n')
}

/// The line behind a text is one more than the number of newlines in it.
pub proof fn law_newlines_make_lines(s: Seq<char>)
    ensures
        newlines(s).finite(),
        diagnostic::line_after(s) == 1 + newlines(s).len(),
    decreases s.len(),
{
    if s.len() == 0 {
        assert(newlines(s) =~= Set::empty());
    } else {
        let front = s.drop_last();
        let last = s.len() - 1;
        law_newlines_make_lines(front);
        if s.last() == '\n' {
            assert(newlines(s) =~= newlines(front).insert(last));
            assert(!newlines(front).contains(last));
        } else {
            assert(newlines(s) =~= newlines(front));
        }
    }
}

/// Each part of a text adds its own newlines to the line.
pub proof fn law_lines_add_up(a: Seq<char>, b: Seq<char>)
    ensures
        diagnostic::line_after(a + b) == diagnostic::line_after(a) + diagnostic::line_after(b) - 1,
    decreases b.len(),
{
    if b.len() == 0 {
        assert(a + b =~= a);
    } else {
        law_lines_add_up(a, b.drop_last());
        assert((a + b).drop_last() =~= a + b.drop_last());
    }
}

/// A character takes one UTF-16 unit, or two if its code is beyond sixteen bits; a text takes
/// what its parts take.
pub proof fn law_units_add_up(a: Seq<char>, b: Seq<char>, c: char)
    ensures
        diagnostic::utf16_len(Seq::empty()) == 0,
        diagnostic::utf16_len(seq![c]) == (if (c as int) <= 0xFFFF {
            1int
        } else {
            2
        }),
        diagnostic::utf16_len(a + b) == diagnostic::utf16_len(a) + diagnostic::utf16_len(b),
    decreases b.len(),
{
    assert(seq![c].drop_last() =~= Seq::empty());
    assert(diagnostic::utf16_len(seq![c].drop_last()) == 0);
    if b.len() == 0 {
        assert(a + b =~= a);
    } else {
        law_units_add_up(a, b.drop_last(), c);
        assert((a + b).drop_last() =~= a + b.drop_last());
    }
}

/// The column behind a text counts the UTF-16 units behind its last newline, from one.
pub proof fn law_columns_start_behind_newlines(before: Seq<char>, line: Seq<char>)
    requires
        before.len() == 0 || before.last() == '\n',
        !line.contains('\n'),
    ensures
        diagnostic::column_after(before + line) == 1 + diagnostic::utf16_len(line),
    decreases line.len(),
{
    if line.len() == 0 {
        assert(before + line =~= before);
    } else {
        let front = line.drop_last();
        assert(line.contains(line.last()));
        assert forall|i: int| 0 <= i < front.len() implies front[i] != '\n' by {
            assert(line.contains(line[i]));
        }
        law_columns_start_behind_newlines(before, front);
        assert((before + line).drop_last() =~= before + front);
    }
}

/// `n` characters of `s` stand before the UTF-16 offset `offset`: no fewer reach it, and they
/// reach it themselves or are all there are.
pub open spec fn stand_before(s: Seq<char>, offset: int, n: int) -> bool {
    &&& 0 <= n <= s.len()
    &&& n > 0 ==> diagnostic::utf16_len(s.take(n - 1)) < offset
    &&& n < s.len() ==> diagnostic::utf16_len(s.take(n)) >= offset
}

/// An offset names the place behind the characters that stand before it: an offset at or
/// before the start names the start, one inside a surrogate pair the place behind the pair,
/// and one behind the end the end.
pub proof fn law_offsets_name_places(s: Seq<char>, offset: i64, n: int)
    requires
        offset <= usize::MAX,
        stand_before(s, offset as int, n),
    ensures
        diagnostic::text_before_offset(s, offset) == s.take(n),
        diagnostic::countable(s, offset) ==> {
            &&& diagnostic::position_of(s, offset).line == diagnostic::line_after(s.take(n))
            &&& diagnostic::position_of(s, offset).column == diagnostic::column_after(s.take(n))
        },
        diagnostic::countable(s, offset) <==> forall|m: int|
            0 <= m <= n ==> diagnostic::line_after(#[trigger] s.take(m)) <= u32::MAX
                && diagnostic::column_after(s.take(m)) <= u32::MAX,
{
    let target = diagnostic::offset_target(offset);
    assert(target == if offset < 0 {
        0int
    } else {
        offset as int
    });
    assert forall|m: int| 0 <= m < n implies diagnostic::utf16_len(#[trigger] s.take(m)) < target by {
        lemma_units_keep_order(s, m, n - 1);
    }
    assert(diagnostic::reaches(s, target, n));
    let k = diagnostic::chars_before(s, offset);
    diagnostic::lemma_reaches(s, target);
    assert(diagnostic::reaches(s, target, k));
    diagnostic::lemma_reaches_once(s, target, n, k);
    if diagnostic::countable(s, offset) {
        assert(diagnostic::line_after(s.take(n)) <= u32::MAX);
    }
}

proof fn lemma_units_keep_order(s: Seq<char>, m: int, n: int)
    requires
        0 <= m <= n <= s.len(),
    ensures
        diagnostic::utf16_len(s.take(m)) <= diagnostic::utf16_len(s.take(n)),
    decreases n - m,
{
    if m < n {
        lemma_units_keep_order(s, m, n - 1);
        assert(s.take(n).drop_last() =~= s.take(n - 1));
    }
}

/// For every offset there are characters that stand before it.
pub proof fn law_every_offset_has_a_place(s: Seq<char>, offset: int) -> (n: int)
    ensures
        stand_before(s, offset, n),
{
    lemma_place_from(s, offset, 0)
}

proof fn lemma_place_from(s: Seq<char>, offset: int, n: int) -> (r: int)
    requires
        0 <= n <= s.len(),
        n > 0 ==> diagnostic::utf16_len(s.take(n - 1)) < offset,
    ensures
        stand_before(s, offset, r),
    decreases s.len() - n,
{
    if n < s.len() && diagnostic::utf16_len(s.take(n)) < offset {
        lemma_place_from(s, offset, n + 1)
    } else {
        n
    }
}

/// Places in a source of fewer than 2^31 characters can always be counted.
pub proof fn law_short_sources_can_be_counted(s: Seq<char>, offset: i64)
    requires
        s.len() < 0x8000_0000,
    ensures
        diagnostic::countable(s, offset),
{
    let k = diagnostic::chars_before(s, offset);
    diagnostic::lemma_reaches(s, diagnostic::offset_target(offset));
    assert(diagnostic::reaches(s, diagnostic::offset_target(offset), k));
    assert forall|m: int| 0 <= m <= k implies diagnostic::line_after(#[trigger] s.take(m))
        <= u32::MAX && diagnostic::column_after(s.take(m)) <= u32::MAX by {
        lemma_places_are_bounded(s.take(m));
    }
}

proof fn lemma_places_are_bounded(s: Seq<char>)
    ensures
        diagnostic::line_after(s) <= 1 + s.len(),
        diagnostic::column_after(s) <= 1 + 2 * s.len(),
    decreases s.len(),
{
    if s.len() > 0 {
        lemma_places_are_bounded(s.drop_last());
    }
}

/// Diagnostics can always be located in sources of fewer than 2^31 characters.
pub proof fn law_short_sources_can_be_located_in(
    d: DiagnosticView,
    map: Map<Seq<char>, Seq<char>>,
)
    requires
        forall|path: Seq<char>| #[trigger]
            map.contains_key(path) ==> map[path].len() < 0x8000_0000,
    ensures
        diagnostic::locatable(d, map),
    decreases d,
{
    if let Some(path) = d.file_name {
        if map.contains_key(path) {
            law_short_sources_can_be_counted(map[path], d.pos);
            law_short_sources_can_be_counted(map[path], d.end);
        }
    }
    assert forall|i: int| 0 <= i < d.message_chain.len() implies diagnostic::locatable(
        #[trigger] d.message_chain[i],
        map,
    ) by {
        law_short_sources_can_be_located_in(d.message_chain[i], map);
    }
    assert forall|i: int| 0 <= i < d.related_information.len() implies diagnostic::locatable(
        #[trigger] d.related_information[i],
        map,
    ) by {
        law_short_sources_can_be_located_in(d.related_information[i], map);
    }
}

/// A diagnostic can be located exactly if its own offsets can be counted, where its file is
/// held, and all that explain it can be located.
pub proof fn law_what_can_be_located(d: DiagnosticView, map: Map<Seq<char>, Seq<char>>)
    ensures
        diagnostic::locatable(d, map) <==> {
            &&& d.file_name matches Some(path) ==> map.contains_key(path) ==> diagnostic::countable(
                map[path],
                d.pos,
            ) && diagnostic::countable(map[path], d.end)
            &&& diagnostic::all_locatable(d.message_chain, map)
            &&& diagnostic::all_locatable(d.related_information, map)
        },
        diagnostic::all_locatable(d.message_chain, map) <==> forall|i: int|
            0 <= i < d.message_chain.len() ==> diagnostic::locatable(
                #[trigger] d.message_chain[i],
                map,
            ),
{
    reveal_with_fuel(diagnostic::locatable, 2);
}

/// Lists of diagnostics can always be located in sources of fewer than 2^31 characters.
pub proof fn law_lists_can_be_located(
    list: Seq<DiagnosticView>,
    map: Map<Seq<char>, Seq<char>>,
)
    requires
        forall|path: Seq<char>| #[trigger]
            map.contains_key(path) ==> map[path].len() < 0x8000_0000,
    ensures
        diagnostic::all_locatable(list, map),
{
    assert forall|i: int| 0 <= i < list.len() implies diagnostic::locatable(
        #[trigger] list[i],
        map,
    ) by {
        law_short_sources_can_be_located_in(list[i], map);
    }
}

/// A path below `/app/` becomes the rest of it, and any other stays as it is.
pub proof fn law_names_become_local(name: Seq<char>, path: Seq<char>)
    ensures
        diagnostic::local_name("/app/"@ + name) == name,
        !"/app/"@.is_prefix_of(path) ==> diagnostic::local_name(path) == path,
{
    reveal_strlit("/app");
    reveal_strlit("/app/");
    assert(files::below(ROOT@) =~= "/app/"@);
    let whole = "/app/"@ + name;
    assert("/app/"@ =~= whole.subrange(0, 5));
    assert(whole.skip(5) =~= name);
}

/// What a located diagnostic is: its range is that of its offsets in the source of its file,
/// where that is held, and else what it was; its name is local; and all else, down to the
/// diagnostics that explain it, which are located in the same way, is as it was.
pub proof fn law_located_diagnostics(d: DiagnosticView, map: Map<Seq<char>, Seq<char>>)
    ensures
        ({
            let e = diagnostic::enriched(d, map);
            &&& e.pos == d.pos
            &&& e.end == d.end
            &&& e.code == d.code
            &&& e.category == d.category
            &&& e.text == d.text
            &&& e.file_name is Some <==> d.file_name is Some
            &&& d.file_name matches Some(path) ==> e.file_name == Some(
                diagnostic::local_name(path),
            )
            &&& e.range == match d.file_name {
                Some(path) if map.contains_key(path) => Some(
                    Range {
                        start: diagnostic::position_of(map[path], d.pos),
                        end: diagnostic::position_of(map[path], d.end),
                    },
                ),
                _ => d.range,
            }
            &&& e.message_chain.len() == d.message_chain.len()
            &&& e.related_information.len() == d.related_information.len()
            &&& forall|i: int|
                0 <= i < d.message_chain.len() ==> #[trigger] e.message_chain[i]
                    == diagnostic::enriched(d.message_chain[i], map)
            &&& forall|i: int|
                0 <= i < d.related_information.len() ==> #[trigger] e.related_information[i]
                    == diagnostic::enriched(d.related_information[i], map)
        }),
{
    reveal_with_fuel(diagnostic::enriched, 2);
}

/// Lists are located one by one, in order, and the views of a list are those of its
/// diagnostics.
pub proof fn law_lists_are_located_one_by_one(
    list: Seq<Diagnostic>,
    views: Seq<DiagnosticView>,
    map: Map<Seq<char>, Seq<char>>,
)
    ensures
        diagnostic::all_enriched(views, map).len() == views.len(),
        forall|i: int|
            0 <= i < views.len() ==> #[trigger] diagnostic::all_enriched(views, map)[i]
                == diagnostic::enriched(views[i], map),
        diagnostic::diagnostic_views(list).len() == list.len(),
        forall|i: int|
            0 <= i < list.len() ==> #[trigger] diagnostic::diagnostic_views(list)[i] == list[i]@,
{
}

/// The view of a diagnostic holds all its fields.
pub proof fn law_views_hold_all(d: Diagnostic)
    ensures
        d@.pos == d.pos,
        d@.end == d.end,
        d@.range == d.range,
        d@.code == d.code,
        d@.category == d.category,
        d@.text == d.text@,
        d.file_name is None <==> d@.file_name is None,
        d.file_name matches Some(name) ==> d@.file_name == Some(name@),
        d@.message_chain.len() == d.message_chain@.len(),
        d@.related_information.len() == d.related_information@.len(),
        forall|i: int|
            0 <= i < d.message_chain@.len() ==> #[trigger] d@.message_chain[i]
                == d.message_chain@[i]@,
        forall|i: int|
            0 <= i < d.related_information@.len() ==> #[trigger] d@.related_information[i]
                == d.related_information@[i]@,
{
    reveal_with_fuel(<Diagnostic as View>::view, 2);
}

/// The compiler's numbers for categories.
pub proof fn law_numbers_of_categories(code: i64)
    ensures
        Category::of_code(code) == Category::Warning <==> code == 0,
        Category::of_code(code) == Category::Error <==> code == 1,
        Category::of_code(code) == Category::Suggestion <==> code == 2,
        Category::of_code(code) == Category::Message <==> code < 0 || code > 2,
{
}

} // verus!
