//! Text as sequences of characters.
use vstd::prelude::*;
use vstd::string::*;
use vstd::utf8::*;

verus! {

/// What `String::from_utf8_lossy` makes of `bytes`.
pub uninterp spec fn lossy_text(bytes: Seq<u8>) -> Seq<char>;

/// Calls `String::from_utf8_lossy`. The result depends on the bytes alone, and bytes
/// that are valid UTF-8 come back as the text they encode. What stands in for an
/// invalid sequence is not stated.
#[verifier::external_body]
pub(crate) fn utf8_lossy(bytes: &[u8]) -> (r: String)
    ensures
        r@ == lossy_text(bytes@),
        valid_utf8(bytes@) ==> r@ == decode_utf8(bytes@),
{
    String::from_utf8_lossy(bytes).into_owned()
}

/// The characters of `s`, in order.
pub fn chars_of(s: &str) -> (r: Vec<char>)
    ensures
        r@ == s@,
{
    let mut out: Vec<char> = Vec::new();
    for c in it: s.chars()
        invariant
            out@ == s@.take(it.index()),
            it.seq() == s@,
    {
        out.push(c);
        assert(s@.take(it.index() + 1) =~= s@.take(it.index()).push(c));
    }
    assert(s@.take(s@.len() as int) =~= s@);
    out
}

/// Whether two texts are the same.
pub fn same_text(a: &str, b: &str) -> (r: bool)
    ensures
        r == (a@ == b@),
{
    let x: &[u8] = a.as_bytes();
    let y: &[u8] = b.as_bytes();
    proof {
        encode_utf8_decode_utf8(a@);
        encode_utf8_decode_utf8(b@);
    }
    if x.len() != y.len() {
        return false;
    }
    let mut i: usize = 0;
    while i < x.len()
        invariant
            i <= x.len(),
            x.len() == y.len(),
            x@ == encode_utf8(a@),
            y@ == encode_utf8(b@),
            forall|j: int| 0 <= j < i ==> x@[j] == y@[j],
        decreases x.len() - i,
    {
        if x[i] != y[i] {
            return false;
        }
        i += 1;
    }
    assert(x@ =~= y@);
    true
}

/// `a` followed by `b`.
pub fn joined(a: &str, b: &str) -> (r: String)
    ensures
        r@ == a@ + b@,
{
    let mut out: String = a.to_owned();
    out.append(b);
    out
}

/// Whether `prefix` is how `s` starts.
pub fn starts_with(s: &Vec<char>, prefix: &Vec<char>) -> (r: bool)
    ensures
        r == prefix@.is_prefix_of(s@),
{
    if prefix.len() > s.len() {
        return false;
    }
    let mut i: usize = 0;
    while i < prefix.len()
        invariant
            i <= prefix.len() <= s.len(),
            forall|j: int| 0 <= j < i ==> prefix@[j] == s@[j],
        decreases prefix.len() - i,
    {
        if prefix[i] != s[i] {
            assert(s@.subrange(0, prefix@.len() as int)[i as int] == s@[i as int]);
            return false;
        }
        i += 1;
    }
    assert(prefix@ =~= s@.subrange(0, prefix@.len() as int));
    true
}

/// `path` without the slashes it ends in.
pub open spec fn trimmed(path: Seq<char>) -> Seq<char>
    decreases path.len(),
{
    if path.len() > 0 && path.last() == '/' {
        trimmed(path.drop_last())
    } else {
        path
    }
}

/// The characters of `path` without the slashes it ends in.
pub fn trim_slashes(path: &str) -> (r: Vec<char>)
    ensures
        r@ == trimmed(path@),
{
    let mut out: Vec<char> = chars_of(path);
    while out.len() > 0 && out[out.len() - 1] == '/'
        invariant
            trimmed(out@) == trimmed(path@),
        decreases out.len(),
    {
        let ghost before = out@;
        out.pop();
        assert(out@ =~= before.drop_last());
    }
    out
}

/// Where the first slash at or behind `from` stands.
pub fn find_slash(s: &Vec<char>, from: usize) -> (r: Option<usize>)
    requires
        from <= s.len(),
    ensures
        match r {
            Some(i) => {
                &&& from <= i < s.len()
                &&& s@[i as int] == '/'
                &&& forall|j: int| from <= j < i ==> s@[j] != '/'
            },
            None => forall|j: int| from <= j < s.len() ==> s@[j] != '/',
        },
{
    let mut i: usize = from;
    while i < s.len()
        invariant
            from <= i <= s.len(),
            forall|j: int| from <= j < i ==> s@[j] != '/',
        decreases s.len() - i,
    {
        if s[i] == '/' {
            return Some(i);
        }
        i += 1;
    }
    None
}

/// The order of texts: by the first character in which they differ, a proper prefix
/// before what it is a prefix of. It is the order of their UTF-8 encodings.
pub open spec fn text_before(a: Seq<char>, b: Seq<char>) -> bool
    decreases a.len(),
{
    if b.len() == 0 {
        false
    } else if a.len() == 0 {
        true
    } else if a[0] != b[0] {
        a[0] < b[0]
    } else {
        text_before(a.drop_first(), b.drop_first())
    }
}

/// `texts` is in ascending order, and nothing occurs twice.
pub open spec fn ascending(texts: Seq<Seq<char>>) -> bool {
    forall|i: int, j: int|
        0 <= i < j < texts.len() ==> text_before(#[trigger] texts[i], #[trigger] texts[j])
}

/// The texts that strings hold.
pub open spec fn views(strings: Seq<String>) -> Seq<Seq<char>> {
    Seq::new(strings.len(), |i: int| strings[i]@)
}

/// No text comes before itself.
pub proof fn law_order_irreflexive(a: Seq<char>)
    ensures
        !text_before(a, a),
    decreases a.len(),
{
    if a.len() > 0 {
        law_order_irreflexive(a.drop_first());
    }
}

/// Of two different texts one comes before the other.
pub proof fn law_order_total(a: Seq<char>, b: Seq<char>)
    ensures
        a == b || text_before(a, b) || text_before(b, a),
    decreases a.len(),
{
    if a.len() > 0 && b.len() > 0 && a[0] == b[0] {
        law_order_total(a.drop_first(), b.drop_first());
        if a.drop_first() == b.drop_first() {
            assert(a =~= seq![a[0]] + a.drop_first());
            assert(b =~= seq![b[0]] + b.drop_first());
        }
    } else if a.len() == 0 && b.len() == 0 {
        assert(a =~= b);
    }
}

/// The order of texts is transitive.
pub proof fn law_order_transitive(a: Seq<char>, b: Seq<char>, c: Seq<char>)
    requires
        text_before(a, b),
        text_before(b, c),
    ensures
        text_before(a, c),
    decreases a.len(),
{
    if a.len() > 0 && b.len() > 0 && c.len() > 0 && a[0] == b[0] && b[0] == c[0] {
        law_order_transitive(a.drop_first(), b.drop_first(), c.drop_first());
    }
}

/// Ascending sequences of the same texts are the same.
pub proof fn lemma_ascending_unique(a: Seq<Seq<char>>, b: Seq<Seq<char>>)
    requires
        ascending(a),
        ascending(b),
        forall|t: Seq<char>| a.contains(t) == b.contains(t),
    ensures
        a == b,
    decreases a.len(),
{
    if a.len() == 0 {
        if b.len() > 0 {
            assert(b.contains(b[0]));
        }
        assert(a =~= b);
    } else {
        assert(a.contains(a[0]));
        let k = b.index_of(a[0]);
        assert(b.contains(b[0]));
        let m = a.index_of(b[0]);
        if k > 0 {
            assert(text_before(b[0], b[k]));
            if m > 0 {
                assert(text_before(a[0], a[m]));
                law_order_transitive(a[0], b[0], a[0]);
            }
            law_order_irreflexive(a[0]);
        }
        assert(a[0] == b[0]);
        let (x, y) = (a.drop_first(), b.drop_first());
        assert(ascending(x)) by {
            assert forall|i: int, j: int| 0 <= i < j < x.len() implies text_before(
                #[trigger] x[i],
                #[trigger] x[j],
            ) by {
                assert(text_before(a[i + 1], a[j + 1]));
            }
        }
        assert(ascending(y)) by {
            assert forall|i: int, j: int| 0 <= i < j < y.len() implies text_before(
                #[trigger] y[i],
                #[trigger] y[j],
            ) by {
                assert(text_before(b[i + 1], b[j + 1]));
            }
        }
        assert forall|t: Seq<char>| x.contains(t) == y.contains(t) by {
            lemma_tail_contains(a, t);
            lemma_tail_contains(b, t);
            assert(a.contains(t) == b.contains(t));
        }
        lemma_ascending_unique(x, y);
        assert(a =~= seq![a[0]] + x);
        assert(b =~= seq![b[0]] + y);
    }
}

proof fn lemma_tail_contains(a: Seq<Seq<char>>, t: Seq<char>)
    requires
        ascending(a),
        a.len() > 0,
    ensures
        a.drop_first().contains(t) == (a.contains(t) && t != a[0]),
{
    let x = a.drop_first();
    if x.contains(t) {
        let k = x.index_of(t);
        assert(a[k + 1] == t);
        assert(text_before(a[0], a[k + 1]));
        law_order_irreflexive(t);
    }
    if a.contains(t) && t != a[0] {
        let k = a.index_of(t);
        assert(x[k - 1] == t);
    }
}

/// What has no slash at its end keeps all of it.
pub proof fn lemma_trimmed_twice(path: Seq<char>)
    ensures
        trimmed(trimmed(path)) == trimmed(path),
    decreases path.len(),
{
    if path.len() > 0 && path.last() == '/' {
        lemma_trimmed_twice(path.drop_last());
    }
}

/// Whether `a` comes before `b`.
pub fn comes_before(a: &str, b: &str) -> (r: bool)
    ensures
        r == text_before(a@, b@),
{
    let x: Vec<char> = chars_of(a);
    let y: Vec<char> = chars_of(b);
    let mut i: usize = 0;
    assert(x@.skip(0) =~= x@);
    assert(y@.skip(0) =~= y@);
    while i < x.len() && i < y.len()
        invariant
            x@ == a@,
            y@ == b@,
            i <= x.len(),
            i <= y.len(),
            text_before(x@, y@) == text_before(x@.skip(i as int), y@.skip(i as int)),
        decreases x.len() - i,
    {
        if x[i] != y[i] {
            let (c, d): (char, char) = (x[i], y[i]);
            assert(x@.skip(i as int)[0] == c);
            assert(y@.skip(i as int)[0] == d);
            return c < d;
        }
        assert(x@.skip(i as int).drop_first() =~= x@.skip(i + 1));
        assert(y@.skip(i as int).drop_first() =~= y@.skip(i + 1));
        i += 1;
    }
    i < y.len()
}

/// Puts `item` in its place in `sorted`, unless it is there already.
pub fn insert_sorted(sorted: &mut Vec<String>, item: String)
    requires
        ascending(views(old(sorted)@)),
    ensures
        ascending(views(final(sorted)@)),
        views(final(sorted)@).to_set() == views(old(sorted)@).to_set().insert(item@),
{
    let ghost before = views(sorted@);
    let mut at: usize = 0;
    while at < sorted.len() && comes_before(sorted[at].as_str(), item.as_str())
        invariant
            at <= sorted.len(),
            views(sorted@) == before,
            forall|j: int| 0 <= j < at ==> text_before(#[trigger] before[j], item@),
        decreases sorted.len() - at,
    {
        at += 1;
    }
    if at < sorted.len() && same_text(sorted[at].as_str(), item.as_str()) {
        assert(before[at as int] == item@);
        assert(before.to_set() =~= before.to_set().insert(item@));
        return;
    }
    sorted.insert(at, item);
    proof {
        let after = views(sorted@);
        assert(after =~= before.insert(at as int, item@));
        if at < before.len() {
            law_order_total(before[at as int], item@);
        }
        assert forall|i: int, j: int| 0 <= i < j < after.len() implies text_before(
            #[trigger] after[i],
            #[trigger] after[j],
        ) by {
            if i == at {
                if j - 1 > at {
                    assert(text_before(before[at as int], before[j - 1]));
                    law_order_transitive(item@, before[at as int], before[j - 1]);
                }
            } else if j < at {
                assert(text_before(before[i], before[j]));
            } else if j == at {
                assert(text_before(before[i], item@));
            } else if i < at {
                assert(text_before(before[i], before[j - 1]));
            } else {
                assert(text_before(before[i - 1], before[j - 1]));
            }
        }
        assert forall|t: Seq<char>| after.to_set().contains(t) == before.to_set().insert(
            item@,
        ).contains(t) by {
            if before.contains(t) {
                let k = before.index_of(t);
                if k < at {
                    assert(after[k] == t);
                } else {
                    assert(after[k + 1] == t);
                }
            }
            if t == item@ {
                assert(after[at as int] == t);
            }
            if after.contains(t) && t != item@ {
                let k = after.index_of(t);
                if k < at {
                    assert(before[k] == t);
                } else {
                    assert(before[k - 1] == t);
                }
            }
        }
        assert(after.to_set() =~= before.to_set().insert(item@));
    }
}

/// `text` is what `bytes` say, exactly where they are valid UTF-8.
pub open spec fn reads(bytes: Seq<u8>, text: Seq<char>) -> bool {
    &&& text == lossy_text(bytes)
    &&& valid_utf8(bytes) ==> text == decode_utf8(bytes)
}

/// The characters with the Unicode property `White_Space`.
pub open spec fn white_space(c: char) -> bool {
    ||| '\u{9}' <= c <= '\u{d}'
    ||| c == ' '
    ||| c == '\u{85}'
    ||| c == '\u{a0}'
    ||| c == '\u{1680}'
    ||| '\u{2000}' <= c <= '\u{200a}'
    ||| c == '\u{2028}'
    ||| c == '\u{2029}'
    ||| c == '\u{202f}'
    ||| c == '\u{205f}'
    ||| c == '\u{3000}'
}

/// `char::is_whitespace` tells whether a character has the Unicode property `White_Space`.
pub assume_specification[ char::is_whitespace ](c: char) -> (r: bool)
    ensures
        r == white_space(c),
;

/// `s` without white space at its start.
pub open spec fn stripped_front(s: Seq<char>) -> Seq<char>
    decreases s.len(),
{
    if s.len() > 0 && white_space(s[0]) {
        stripped_front(s.skip(1))
    } else {
        s
    }
}

/// `s` without white space at its end.
pub open spec fn stripped_back(s: Seq<char>) -> Seq<char>
    decreases s.len(),
{
    if s.len() > 0 && white_space(s.last()) {
        stripped_back(s.drop_last())
    } else {
        s
    }
}

/// `s` without white space at its start and at its end.
pub open spec fn stripped(s: Seq<char>) -> Seq<char> {
    stripped_back(stripped_front(s))
}

/// `s` without white space at its start and at its end.
pub fn strip(s: &str) -> (r: String)
    ensures
        r@ == stripped(s@),
{
    let chars: Vec<char> = chars_of(s);
    let mut start: usize = 0;
    assert(chars@.skip(0) =~= chars@);
    while start < chars.len() && chars[start].is_whitespace()
        invariant
            start <= chars.len(),
            chars@ == s@,
            stripped_front(s@) == stripped_front(chars@.skip(start as int)),
        decreases chars.len() - start,
    {
        assert(chars@.skip(start as int).skip(1) =~= chars@.skip(start + 1));
        start += 1;
    }
    let ghost front = chars@.skip(start as int);
    let mut end: usize = chars.len();
    assert(chars@.subrange(start as int, end as int) =~= front);
    while start < end && chars[end - 1].is_whitespace()
        invariant
            start <= end <= chars.len(),
            chars@ == s@,
            stripped_back(front) == stripped_back(chars@.subrange(start as int, end as int)),
        decreases end,
    {
        assert(chars@.subrange(start as int, end as int).drop_last() =~= chars@.subrange(
            start as int,
            end - 1,
        ));
        end -= 1;
    }
    s.substring_char(start, end).to_owned()
}

/// Trimming takes away slashes at the end, all of them, and nothing else.
pub proof fn law_only_slashes_are_trimmed(path: Seq<char>)
    ensures
        trimmed(path).len() <= path.len(),
        path.take(trimmed(path).len() as int) == trimmed(path),
        forall|i: int| trimmed(path).len() <= i < path.len() ==> path[i] == '/',
        trimmed(path).len() > 0 ==> trimmed(path)[trimmed(path).len() - 1] != '/',
    decreases path.len(),
{
    if path.len() > 0 && path.last() == '/' {
        let front = path.drop_last();
        law_only_slashes_are_trimmed(front);
        assert forall|i: int| trimmed(path).len() <= i < path.len() implies path[i] == '/' by {
            if i < front.len() {
                assert(front[i] == path[i]);
            }
        }
        assert(path.take(trimmed(path).len() as int) =~= front.take(trimmed(path).len() as int));
    } else {
        assert(path.take(path.len() as int) =~= path);
    }
}

/// The first `k` characters of two texts are the same.
pub open spec fn agree(a: Seq<char>, b: Seq<char>, k: int) -> bool {
    &&& 0 <= k <= a.len()
    &&& k <= b.len()
    &&& forall|i: int| 0 <= i < k ==> a[i] == b[i]
}

/// The order of two texts is that of the first characters in which they differ; where one of
/// them ends first, it comes first.
pub proof fn law_first_difference_decides(a: Seq<char>, b: Seq<char>, k: int)
    requires
        agree(a, b, k),
    ensures
        k < a.len() && k < b.len() && a[k] != b[k] ==> text_before(a, b) == ((a[k] as int) < (
        b[k] as int)),
        k == a.len() && k < b.len() ==> text_before(a, b),
        k == b.len() ==> !text_before(a, b),
    decreases k,
{
    if k > 0 {
        let (x, y) = (a.drop_first(), b.drop_first());
        assert(a[0] == b[0]);
        assert forall|i: int| 0 <= i < k - 1 implies x[i] == y[i] by {
            assert(a[i + 1] == b[i + 1]);
        }
        law_first_difference_decides(x, y, k - 1);
    }
}

/// The texts of strings are their texts, one for one and in order; they ascend if each comes
/// before all that follow it.
pub proof fn law_views_are_texts(strings: Seq<String>)
    ensures
        views(strings).len() == strings.len(),
        forall|i: int| 0 <= i < strings.len() ==> #[trigger] views(strings)[i] == strings[i]@,
        ascending(views(strings)) <==> forall|i: int, j: int|
            0 <= i < j < strings.len() ==> text_before(
                (#[trigger] strings[i])@,
                (#[trigger] strings[j])@,
            ),
{
    let v = views(strings);
    if ascending(v) {
        assert forall|i: int, j: int| 0 <= i < j < strings.len() implies text_before(
            (#[trigger] strings[i])@,
            (#[trigger] strings[j])@,
        ) by {
            assert(text_before(v[i], v[j]));
        }
    }
}

/// Bytes are read as the text that they encode, if they are valid UTF-8; and always as the
/// same text.
pub proof fn law_valid_bytes_are_read(text: Seq<char>, read: Seq<char>, bytes: Seq<u8>)
    requires
        reads(bytes, read),
    ensures
        read == lossy_text(bytes),
        bytes == encode_utf8(text) ==> read == text,
{
    encode_utf8_valid_utf8(text);
    encode_utf8_decode_utf8(text);
}

/// `s` from `i` to `j` is what is left when white space is taken off both ends.
pub open spec fn is_core(s: Seq<char>, i: int, j: int) -> bool {
    &&& 0 <= i <= j <= s.len()
    &&& forall|k: int| 0 <= k < i ==> white_space(#[trigger] s[k])
    &&& forall|k: int| j <= k < s.len() ==> white_space(#[trigger] s[k])
    &&& i < j ==> !white_space(s[i]) && !white_space(s[j - 1])
}

/// Stripping takes away the white space at both ends, all of it, and nothing else.
pub proof fn law_only_white_space_is_stripped(s: Seq<char>, i: int, j: int)
    requires
        is_core(s, i, j),
    ensures
        stripped(s) == s.subrange(i, j),
    decreases s.len(),
{
    if s.len() > 0 && white_space(s[0]) {
        let t = s.skip(1);
        if i == 0 {
            assert(j == 0);
            assert forall|k: int| 0 <= k < t.len() implies white_space(#[trigger] t[k]) by {
                assert(t[k] == s[k + 1]);
            }
            assert(is_core(t, 0, 0));
            law_only_white_space_is_stripped(t, 0, 0);
            assert(s.subrange(i, j) =~= t.subrange(0, 0));
        } else {
            assert forall|k: int| 0 <= k < i - 1 implies white_space(#[trigger] t[k]) by {
                assert(t[k] == s[k + 1]);
            }
            assert forall|k: int| j - 1 <= k < t.len() implies white_space(#[trigger] t[k]) by {
                assert(t[k] == s[k + 1]);
            }
            assert(is_core(t, i - 1, j - 1));
            law_only_white_space_is_stripped(t, i - 1, j - 1);
            assert(s.subrange(i, j) =~= t.subrange(i - 1, j - 1));
        }
    } else {
        lemma_stripped_back(s, i, j);
    }
}

proof fn lemma_stripped_back(s: Seq<char>, i: int, j: int)
    requires
        is_core(s, i, j),
        s.len() > 0 ==> !white_space(s[0]),
    ensures
        stripped_back(s) == s.subrange(i, j),
    decreases s.len(),
{
    if i > 0 {
        assert(white_space(s[0]));
    }
    if s.len() > 0 && white_space(s.last()) {
        let t = s.drop_last();
        if j == s.len() {
            assert(i < j ==> !white_space(s[j - 1]));
        }
        assert(j < s.len());
        assert forall|k: int| j <= k < t.len() implies white_space(#[trigger] t[k]) by {
            assert(t[k] == s[k]);
        }
        if t.len() > 0 {
            assert(t[0] == s[0]);
        }
        lemma_stripped_back(t, i, j);
        assert(s.subrange(i, j) =~= t.subrange(i, j));
    } else {
        if j < s.len() {
            assert(white_space(s[s.len() - 1]));
        }
        assert(s.subrange(i, j) =~= s);
    }
}

/// The codes of the characters that are white space.
pub proof fn law_codes_of_white_space(c: char)
    ensures
        white_space(c) <==> {
            let code = c as int;
            ||| 0x9 <= code <= 0xd
            ||| code == 0x20
            ||| code == 0x85
            ||| code == 0xa0
            ||| code == 0x1680
            ||| 0x2000 <= code <= 0x200a
            ||| 0x2028 <= code <= 0x2029
            ||| code == 0x202f
            ||| code == 0x205f
            ||| code == 0x3000
        },
{
}

} // verus!
