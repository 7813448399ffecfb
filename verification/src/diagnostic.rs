//! Diagnostics, and where they point in the sources of a session.
use crate::files;
use crate::files::{Files, ROOT};
use crate::text::{chars_of, starts_with};
use vstd::prelude::*;
use vstd::string::*;
use vstd::utf8::*;

verus! {

/// How serious a diagnostic is.
#[derive(Debug, Clone, Copy, PartialEq, Eq, Structural)]
pub enum Category {
    Warning,
    Error,
    Suggestion,
    Message,
}

impl Default for Category {
    fn default() -> (r: Category)
        ensures
            r == Category::Error,
    {
        Category::Error
    }
}

impl Category {
    /// Whether this is an error.
    pub fn is_error(self) -> (r: bool)
        ensures
            r == (self is Error),
    {
        match self {
            Category::Error => true,
            _ => false,
        }
    }

    /// The category that the compiler's number `code` stands for.
    pub open spec fn of_code(code: i64) -> Category {
        if code == 0 {
            Category::Warning
        } else if code == 1 {
            Category::Error
        } else if code == 2 {
            Category::Suggestion
        } else {
            Category::Message
        }
    }

    /// The category that the compiler's number `code` stands for.
    pub fn from_code(code: i64) -> (r: Category)
        ensures
            r == Category::of_code(code),
    {
        match code {
            0 => Category::Warning,
            1 => Category::Error,
            2 => Category::Suggestion,
            _ => Category::Message,
        }
    }
}

/// A place in a source text; both numbers count from one, the column in UTF-16 units.
#[derive(Debug, Clone, Copy, PartialEq, Eq, Structural)]
pub struct Position {
    pub line: u32,
    pub column: u32,
}

/// A stretch of source text.
#[derive(Debug, Clone, Copy, PartialEq, Eq, Structural)]
pub struct Range {
    pub start: Position,
    pub end: Position,
}

/// A message of the compiler, with the messages that explain it.
#[derive(Debug)]
pub struct Diagnostic {
    pub file_name: Option<String>,
    pub pos: i64,
    pub end: i64,
    pub range: Option<Range>,
    pub code: i32,
    pub category: Category,
    pub text: String,
    pub message_chain: Vec<Diagnostic>,
    pub related_information: Vec<Diagnostic>,
}

/// A diagnostic with its texts as sequences of characters.
#[verifier::ext_equal]
pub struct DiagnosticView {
    pub file_name: Option<Seq<char>>,
    pub pos: i64,
    pub end: i64,
    pub range: Option<Range>,
    pub code: i32,
    pub category: Category,
    pub text: Seq<char>,
    pub message_chain: Seq<DiagnosticView>,
    pub related_information: Seq<DiagnosticView>,
}

impl View for Diagnostic {
    type V = DiagnosticView;

    open spec fn view(&self) -> DiagnosticView
        decreases self,
    {
        DiagnosticView {
            file_name: match self.file_name {
                Some(name) => Some(name@),
                None => None,
            },
            pos: self.pos,
            end: self.end,
            range: self.range,
            code: self.code,
            category: self.category,
            text: self.text@,
            message_chain: Seq::new(
                self.message_chain@.len(),
                |i: int|
                    if 0 <= i < self.message_chain@.len() {
                        self.message_chain@[i].view()
                    } else {
                        arbitrary()
                    },
            ),
            related_information: Seq::new(
                self.related_information@.len(),
                |i: int|
                    if 0 <= i < self.related_information@.len() {
                        self.related_information@[i].view()
                    } else {
                        arbitrary()
                    },
            ),
        }
    }
}

impl Clone for Diagnostic {
    fn clone(&self) -> (r: Diagnostic)
        ensures
            r@ == self@,
        decreases self,
    {
        let mut message_chain: Vec<Diagnostic> = Vec::new();
        let mut i: usize = 0;
        while i < self.message_chain.len()
            invariant
                i <= self.message_chain.len(),
                message_chain@.len() == i,
                forall|j: int|
                    0 <= j < i ==> (#[trigger] message_chain@[j])@ == self.message_chain@[j]@,
            decreases self.message_chain.len() - i,
        {
            message_chain.push(self.message_chain[i].clone());
            i += 1;
        }
        let mut related_information: Vec<Diagnostic> = Vec::new();
        let mut i: usize = 0;
        while i < self.related_information.len()
            invariant
                i <= self.related_information.len(),
                related_information@.len() == i,
                forall|j: int|
                    0 <= j < i ==> (#[trigger] related_information@[j])@
                        == self.related_information@[j]@,
            decreases self.related_information.len() - i,
        {
            related_information.push(self.related_information[i].clone());
            i += 1;
        }
        let r: Diagnostic = Diagnostic {
            file_name: self.file_name.clone(),
            pos: self.pos,
            end: self.end,
            range: self.range,
            code: self.code,
            category: self.category,
            text: self.text.clone(),
            message_chain,
            related_information,
        };
        reveal_with_fuel(<Diagnostic as View>::view, 2);
        assert(r@.file_name == self@.file_name);
        assert(r@.message_chain =~= self@.message_chain);
        assert(r@.related_information =~= self@.related_information);
        r
    }
}

impl Diagnostic {
    /// Whether this is an error.
    pub fn is_error(&self) -> (r: bool)
        ensures
            r == (self.category is Error),
    {
        self.category.is_error()
    }
}

/// How many UTF-16 units a character takes.
pub open spec fn utf16_width(c: char) -> nat {
    if (c as u32) < 0x1_0000 {
        1
    } else {
        2
    }
}

/// How many UTF-16 units a text takes.
pub open spec fn utf16_len(s: Seq<char>) -> nat
    decreases s.len(),
{
    if s.len() == 0 {
        0
    } else {
        utf16_len(s.drop_last()) + utf16_width(s.last())
    }
}

/// The line behind `s`: one more than the newlines in it.
pub open spec fn line_after(s: Seq<char>) -> nat
    decreases s.len(),
{
    if s.len() == 0 {
        1
    } else {
        line_after(s.drop_last()) + if s.last() == '\n' {
            1nat
        } else {
            0nat
        }
    }
}

/// The column behind `s`: one more than the UTF-16 units since its last newline.
pub open spec fn column_after(s: Seq<char>) -> nat
    decreases s.len(),
{
    if s.len() == 0 || s.last() == '\n' {
        1
    } else {
        column_after(s.drop_last()) + utf16_width(s.last())
    }
}

/// `n` is the number of characters of `s` before the UTF-16 offset `target`: as few as
/// reach it, or all of them.
pub open spec fn reaches(s: Seq<char>, target: nat, n: int) -> bool {
    &&& 0 <= n <= s.len()
    &&& utf16_len(s.take(n)) >= target || n == s.len()
    &&& forall|m: int| 0 <= m < n ==> utf16_len(#[trigger] s.take(m)) < target
}

/// The UTF-16 offset that a diagnostic's signed offset means.
pub open spec fn offset_target(offset: i64) -> nat {
    (if offset < 0 {
        0i64
    } else {
        offset
    }) as usize as nat
}

/// The number of characters before a diagnostic's offset.
pub open spec fn chars_before(s: Seq<char>, offset: i64) -> int {
    choose|n: int| reaches(s, offset_target(offset), n)
}

/// The text before a diagnostic's offset.
pub open spec fn text_before_offset(s: Seq<char>, offset: i64) -> Seq<char> {
    s.take(chars_before(s, offset))
}

/// The place of a diagnostic's offset.
pub open spec fn position_of(s: Seq<char>, offset: i64) -> Position {
    Position {
        line: line_after(text_before_offset(s, offset)) as u32,
        column: column_after(text_before_offset(s, offset)) as u32,
    }
}

/// On the way to a diagnostic's offset neither the line nor the column outgrows its type.
pub open spec fn countable(s: Seq<char>, offset: i64) -> bool {
    forall|m: int|
        0 <= m <= chars_before(s, offset) ==> line_after(#[trigger] s.take(m)) <= u32::MAX
            && column_after(s.take(m)) <= u32::MAX
}

/// Some number of characters reaches an offset.
pub proof fn lemma_reaches(s: Seq<char>, target: nat)
    ensures
        exists|n: int| reaches(s, target, n),
{
    lemma_reaches_from(s, target, 0);
}

proof fn lemma_reaches_from(s: Seq<char>, target: nat, n: int)
    requires
        0 <= n <= s.len(),
        forall|m: int| 0 <= m < n ==> utf16_len(#[trigger] s.take(m)) < target,
    ensures
        exists|n: int| reaches(s, target, n),
    decreases s.len() - n,
{
    if utf16_len(s.take(n)) >= target || n == s.len() {
        assert(reaches(s, target, n));
    } else {
        lemma_reaches_from(s, target, n + 1);
    }
}

/// Only one number of characters reaches an offset.
pub proof fn lemma_reaches_once(s: Seq<char>, target: nat, n: int, k: int)
    requires
        reaches(s, target, n),
        reaches(s, target, k),
    ensures
        n == k,
{
    if n < k {
        assert(utf16_len(s.take(n)) < target);
    }
    if k < n {
        assert(utf16_len(s.take(k)) < target);
    }
}

/// A text takes no more UTF-16 units than UTF-8 bytes.
proof fn lemma_utf16_len(s: Seq<char>, n: int)
    requires
        0 <= n <= s.len(),
    ensures
        utf16_len(s.take(n)) <= encode_utf8(s).len(),
{
    lemma_utf16_front(s, n);
}

/// The UTF-16 units of a text, counted from the front.
spec fn utf16_front(s: Seq<char>) -> nat
    decreases s.len(),
{
    if s.len() == 0 {
        0
    } else {
        utf16_width(s[0]) + utf16_front(s.drop_first())
    }
}

proof fn lemma_front_is_back(s: Seq<char>)
    ensures
        utf16_front(s) == utf16_len(s),
    decreases s.len(),
{
    if s.len() > 0 {
        lemma_front_is_back(s.drop_first());
        lemma_front_is_back(s.drop_last());
        if s.len() > 1 {
            lemma_front_is_back(s.drop_first().drop_last());
            assert(s.drop_first().drop_last() =~= s.drop_last().drop_first());
        } else {
            assert(s.drop_first() =~= Seq::empty());
            assert(s.drop_last() =~= Seq::empty());
        }
    }
}

proof fn lemma_utf16_front(s: Seq<char>, n: int)
    requires
        0 <= n <= s.len(),
    ensures
        utf16_len(s.take(n)) <= encode_utf8(s).len(),
    decreases s.len(),
{
    lemma_front_is_back(s.take(n));
    if n > 0 {
        lemma_front_is_back(s.drop_first().take(n - 1));
        lemma_utf16_front(s.drop_first(), n - 1);
        assert(s.take(n).drop_first() =~= s.drop_first().take(n - 1));
        char_is_scalar(s[0]);
    }
}

/// The place that a UTF-16 offset into `source` names, unless it lies so far in that the
/// line or the column outgrows its type.
pub fn locate(source: &str, utf16_offset: i64) -> (r: Option<Position>)
    ensures
        match r {
            Some(position) => countable(source@, utf16_offset) && position == position_of(
                source@,
                utf16_offset,
            ),
            None => !countable(source@, utf16_offset),
        },
{
    let target: usize = (if utf16_offset < 0 {
        0i64
    } else {
        utf16_offset
    }) as usize;
    let bytes: &[u8] = source.as_bytes();
    let chars: Vec<char> = chars_of(source);
    let ghost n = chars_before(source@, utf16_offset);
    proof {
        lemma_reaches(source@, target as nat);
        assert(reaches(source@, target as nat, n));
    }
    let mut units: usize = 0;
    let mut line: u32 = 1;
    let mut column: u32 = 1;
    let mut i: usize = 0;
    assert(source@.take(0) =~= Seq::empty());
    while i < chars.len() && units < target
        invariant
            chars@ == source@,
            bytes@ == encode_utf8(source@),
            n == chars_before(source@, utf16_offset),
            reaches(source@, target as nat, n),
            i <= n,
            units == utf16_len(source@.take(i as int)),
            line == line_after(source@.take(i as int)),
            column == column_after(source@.take(i as int)),
            forall|m: int| 0 <= m < i ==> utf16_len(#[trigger] source@.take(m)) < target,
            forall|m: int|
                0 <= m <= i ==> line_after(#[trigger] source@.take(m)) <= u32::MAX && column_after(
                    source@.take(m),
                ) <= u32::MAX,
        decreases chars.len() - i,
    {
        let c: char = chars[i];
        proof {
            let next = source@.take(i + 1);
            assert(next.drop_last() =~= source@.take(i as int));
            assert(next.last() == c);
            lemma_utf16_len(source@, i + 1);
            assert(i < n);
            assert(bytes@.len() == bytes.len());
        }
        let width: usize = if (c as u32) < 0x1_0000 {
            1
        } else {
            2
        };
        units += width;
        if c == '\n' {
            if line == u32::MAX {
                assert(line_after(source@.take(i + 1)) > u32::MAX);
                return None;
            }
            line += 1;
            column = 1;
        } else {
            if column > u32::MAX - width as u32 {
                assert(column_after(source@.take(i + 1)) > u32::MAX);
                return None;
            }
            column += width as u32;
        }
        i += 1;
    }
    proof {
        assert(reaches(source@, target as nat, i as int));
        lemma_reaches_once(source@, target as nat, n, i as int);
    }
    Some(Position { line, column })
}

/// The place that a UTF-16 offset into `source` names. An offset before the start means
/// the start, one behind the end means the end, and one inside a surrogate pair means
/// the place behind the pair.
pub fn position_at(source: &str, utf16_offset: i64) -> (r: Position)
    requires
        countable(source@, utf16_offset),
    ensures
        r == position_of(source@, utf16_offset),
{
    locate(source, utf16_offset).unwrap()
}

/// `a` is not behind `b`.
pub open spec fn not_behind(a: Position, b: Position) -> bool {
    a.line < b.line || a.line == b.line && a.column <= b.column
}

/// A later offset never names an earlier place.
pub proof fn law_offsets_keep_order(s: Seq<char>, a: i64, b: i64)
    requires
        offset_target(a) <= offset_target(b),
        countable(s, b),
    ensures
        not_behind(position_of(s, a), position_of(s, b)),
        countable(s, a),
{
    let (x, y) = (chars_before(s, a), chars_before(s, b));
    lemma_reaches(s, offset_target(a));
    lemma_reaches(s, offset_target(b));
    assert(reaches(s, offset_target(a), x));
    assert(reaches(s, offset_target(b), y));
    if y < x {
        assert(utf16_len(s.take(y)) < offset_target(a));
    }
    lemma_places_grow(s, x, y);
    assert(line_after(s.take(y)) <= u32::MAX && column_after(s.take(y)) <= u32::MAX);
    assert(line_after(s.take(x)) <= u32::MAX && column_after(s.take(x)) <= u32::MAX);
}

proof fn lemma_places_grow(s: Seq<char>, x: int, y: int)
    requires
        0 <= x <= y <= s.len(),
    ensures
        line_after(s.take(x)) < line_after(s.take(y)) || line_after(s.take(x)) == line_after(
            s.take(y),
        ) && column_after(s.take(x)) <= column_after(s.take(y)),
    decreases y - x,
{
    if x < y {
        lemma_places_grow(s, x, y - 1);
        assert(s.take(y).drop_last() =~= s.take(y - 1));
    }
}

/// Every source starts at line one, column one, and what lies before it counts as there.
pub proof fn law_start_of_source(s: Seq<char>, offset: i64)
    requires
        offset <= 0,
    ensures
        countable(s, offset),
        position_of(s, offset) == (Position { line: 1, column: 1 }),
{
    lemma_reaches(s, 0);
    assert(reaches(s, 0, chars_before(s, offset)));
    if chars_before(s, offset) > 0 {
        assert(utf16_len(s.take(0)) < 0);
    }
    assert(s.take(0) =~= Seq::empty());
}

/// What lies at or behind the end of a source counts as its end.
pub proof fn law_end_of_source(s: Seq<char>, offset: i64)
    requires
        offset_target(offset) >= utf16_len(s),
    ensures
        text_before_offset(s, offset) == s,
{
    let n = chars_before(s, offset);
    lemma_reaches(s, offset_target(offset));
    assert(reaches(s, offset_target(offset), n));
    if n < s.len() {
        lemma_units_grow(s, n);
    }
    assert(s.take(s.len() as int) =~= s);
}

proof fn lemma_units_grow(s: Seq<char>, n: int)
    requires
        0 <= n < s.len(),
    ensures
        utf16_len(s.take(n)) < utf16_len(s),
    decreases s.len() - n,
{
    assert(s.take(n + 1).drop_last() =~= s.take(n));
    if n + 1 < s.len() {
        lemma_units_grow(s, n + 1);
    } else {
        assert(s.take(n + 1) =~= s);
    }
}

/// A path relative to the root, where it lies below the root.
pub open spec fn local_name(path: Seq<char>) -> Seq<char> {
    if files::below(ROOT@).is_prefix_of(path) {
        path.skip(files::below(ROOT@).len() as int)
    } else {
        path
    }
}

/// The range of a diagnostic in the source that it points to, where that is known.
pub open spec fn located(d: DiagnosticView, map: Map<Seq<char>, Seq<char>>) -> Option<Range> {
    match d.file_name {
        Some(path) => if map.contains_key(path) {
            Some(
                Range {
                    start: position_of(map[path], d.pos),
                    end: position_of(map[path], d.end),
                },
            )
        } else {
            d.range
        },
        None => d.range,
    }
}

/// A diagnostic, and all that explain it, with ranges in the sources of `map` and with
/// paths relative to the root.
pub open spec fn enriched(d: DiagnosticView, map: Map<Seq<char>, Seq<char>>) -> DiagnosticView
    decreases d,
{
    DiagnosticView {
        file_name: match d.file_name {
            Some(path) => Some(local_name(path)),
            None => None,
        },
        range: located(d, map),
        message_chain: Seq::new(
            d.message_chain.len(),
            |i: int|
                if 0 <= i < d.message_chain.len() {
                    enriched(d.message_chain[i], map)
                } else {
                    arbitrary()
                },
        ),
        related_information: Seq::new(
            d.related_information.len(),
            |i: int|
                if 0 <= i < d.related_information.len() {
                    enriched(d.related_information[i], map)
                } else {
                    arbitrary()
                },
        ),
        ..d
    }
}

/// Every offset of a diagnostic, and of all that explain it, can be located in its source.
pub open spec fn locatable(d: DiagnosticView, map: Map<Seq<char>, Seq<char>>) -> bool
    decreases d,
{
    &&& d.file_name matches Some(path) ==> map.contains_key(path) ==> countable(map[path], d.pos)
        && countable(map[path], d.end)
    &&& forall|i: int|
        0 <= i < d.message_chain.len() ==> locatable(#[trigger] d.message_chain[i], map)
    &&& forall|i: int|
        0 <= i < d.related_information.len() ==> locatable(
            #[trigger] d.related_information[i],
            map,
        )
}

/// Locates a diagnostic, and all that explain it, in the sources of a session, and makes
/// their paths relative to the root.
pub fn enrich(diagnostic: &mut Diagnostic, files: &Files)
    requires
        files.wf(),
        locatable(old(diagnostic)@, files@),
    ensures
        final(diagnostic)@ == enriched(old(diagnostic)@, files@),
    decreases *old(diagnostic),
{
    let full: Option<String> = diagnostic.file_name.clone();
    proof {
        lemma_views(*diagnostic);
        lemma_children(diagnostic@, files@);
    }
    if let Some(full) = full {
        if let Some(source) = files.get(full.as_str()) {
            diagnostic.range = Some(
                Range {
                    start: position_at(source.as_str(), diagnostic.pos),
                    end: position_at(source.as_str(), diagnostic.end),
                },
            );
        }
        let mut prefix: Vec<char> = chars_of(ROOT);
        prefix.push('/');
        let chars: Vec<char> = chars_of(full.as_str());
        if starts_with(&chars, &prefix) {
            let name: String = full.as_str().substring_char(prefix.len(), chars.len()).to_owned();
            diagnostic.file_name = Some(name);
        }
    }
    enrich_all(&mut diagnostic.message_chain, files);
    enrich_all(&mut diagnostic.related_information, files);
    proof {
        lemma_views(*diagnostic);
        assert(diagnostic@ =~= enriched(old(diagnostic)@, files@));
    }
}

/// The views of diagnostics.
pub open spec fn diagnostic_views(list: Seq<Diagnostic>) -> Seq<DiagnosticView> {
    Seq::new(list.len(), |i: int| list[i]@)
}

/// Diagnostics, each located.
pub open spec fn all_enriched(
    list: Seq<DiagnosticView>,
    map: Map<Seq<char>, Seq<char>>,
) -> Seq<DiagnosticView> {
    Seq::new(list.len(), |i: int| enriched(list[i], map))
}

/// Every one of `list` can be located.
pub open spec fn all_locatable(
    list: Seq<DiagnosticView>,
    map: Map<Seq<char>, Seq<char>>,
) -> bool {
    forall|i: int| 0 <= i < list.len() ==> locatable(#[trigger] list[i], map)
}

proof fn lemma_views(d: Diagnostic)
    ensures
        d@.message_chain == diagnostic_views(d.message_chain@),
        d@.related_information == diagnostic_views(d.related_information@),
{
    reveal_with_fuel(<Diagnostic as View>::view, 2);
    assert(d@.message_chain =~= diagnostic_views(d.message_chain@));
    assert(d@.related_information =~= diagnostic_views(d.related_information@));
}

proof fn lemma_children(d: DiagnosticView, map: Map<Seq<char>, Seq<char>>)
    ensures
        enriched(d, map).message_chain == all_enriched(d.message_chain, map),
        enriched(d, map).related_information == all_enriched(d.related_information, map),
        locatable(d, map) ==> all_locatable(d.message_chain, map),
        locatable(d, map) ==> all_locatable(d.related_information, map),
{
    reveal_with_fuel(enriched, 2);
    reveal_with_fuel(locatable, 2);
    assert(enriched(d, map).message_chain =~= all_enriched(d.message_chain, map));
    assert(enriched(d, map).related_information =~= all_enriched(d.related_information, map));
}

/// Locates every diagnostic of a list.
pub fn enrich_all(list: &mut Vec<Diagnostic>, files: &Files)
    requires
        files.wf(),
        all_locatable(diagnostic_views(old(list)@), files@),
    ensures
        diagnostic_views(final(list)@) == all_enriched(diagnostic_views(old(list)@), files@),
    decreases *old(list),
{
    let ghost start = *list;
    let mut i: usize = 0;
    while i < list.len()
        invariant
            files.wf(),
            start == *old(list),
            all_locatable(diagnostic_views(start@), files@),
            i <= list@.len(),
            list@.len() == start@.len(),
            forall|j: int| i <= j < list@.len() ==> list@[j] == start@[j],
            forall|j: int|
                0 <= j < i ==> (#[trigger] list@[j])@ == enriched(start@[j]@, files@),
        decreases list.len() - i,
    {
        assert(locatable(diagnostic_views(start@)[i as int], files@));
        assert(decreases_to!(start => start[i as int]));
        enrich(&mut list[i], files);
        i += 1;
    }
    assert(diagnostic_views(list@) =~= all_enriched(diagnostic_views(start@), files@));
}

/// Whether a diagnostic, and all that explain it, can be located.
pub fn is_locatable(diagnostic: &Diagnostic, files: &Files) -> (r: bool)
    requires
        files.wf(),
    ensures
        r == locatable(diagnostic@, files@),
    decreases diagnostic,
{
    proof {
        lemma_views(*diagnostic);
        lemma_children(diagnostic@, files@);
    }
    if let Some(full) = &diagnostic.file_name {
        if let Some(source) = files.get(full.as_str()) {
            if locate(source.as_str(), diagnostic.pos).is_none() {
                return false;
            }
            if locate(source.as_str(), diagnostic.end).is_none() {
                return false;
            }
        }
    }
    are_locatable(&diagnostic.message_chain, files) && are_locatable(
        &diagnostic.related_information,
        files,
    )
}

/// Whether every diagnostic of a list can be located.
pub fn are_locatable(list: &Vec<Diagnostic>, files: &Files) -> (r: bool)
    requires
        files.wf(),
    ensures
        r == all_locatable(diagnostic_views(list@), files@),
    decreases list,
{
    let mut i: usize = 0;
    while i < list.len()
        invariant
            files.wf(),
            i <= list@.len(),
            forall|j: int| 0 <= j < i ==> locatable(#[trigger] diagnostic_views(list@)[j], files@),
        decreases list.len() - i,
    {
        assert(decreases_to!(list => list[i as int]));
        if !is_locatable(&list[i], files) {
            assert(!locatable(diagnostic_views(list@)[i as int], files@));
            return false;
        }
        i += 1;
    }
    true
}

} // verus!
