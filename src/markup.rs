//! Cursor markup in test texts: a `<|>` marker stands for a cursor offset,
//! two of them for a range, and `<tag>`/`</tag>` pairs mark spans.
use vstd::prelude::*;
use vstd::string::StringSliceAdditionalSpecFns;
use vstd::utf8::{decode_utf8, encode_utf8, encode_utf8_decode_utf8};
use crate::pattern::{chars_of, find_from, first_occurrence, is_first_occurrence, stands_at};
use crate::text::TextRange;

verus! {

pub const CURSOR_MARKER: &'static str = "<|>";

/// The characters of the cursor marker.
pub open spec fn cursor_marker() -> Seq<char> {
    seq!['<', '|', '>']
}

/// The number of bytes of the UTF-8 encoding of `s`.
pub open spec fn utf8_len(s: Seq<char>) -> nat {
    encode_utf8(s).len()
}

/// `text` without the marker that starts at character `c`.
pub open spec fn marker_removed(text: Seq<char>, c: int) -> Seq<char> {
    text.subrange(0, c) + text.subrange(c + 3, text.len() as int)
}

/// Where the first marker of `text` stands, as a byte offset, and the text
/// without it; none where there is no marker.
pub open spec fn offset_extracted(text: Seq<char>) -> Option<(nat, Seq<char>)> {
    match first_occurrence(text, cursor_marker()) {
        Some(c) => Some((utf8_len(text.subrange(0, c)), marker_removed(text, c))),
        None => None,
    }
}

/// The second marker does not stand before where the first one stood: it
/// does not span the join that removing the first one made.
pub open spec fn markers_in_order(text: Seq<char>) -> bool {
    match first_occurrence(text, cursor_marker()) {
        Some(c) => match first_occurrence(marker_removed(text, c), cursor_marker()) {
            Some(d) => c <= d,
            None => true,
        },
        None => true,
    }
}

/// The span between the first two markers of `text`, in bytes, and the text
/// without both; none where there are fewer than two.
pub open spec fn range_extracted(text: Seq<char>) -> Option<(nat, nat, Seq<char>)> {
    match offset_extracted(text) {
        Some((start, once)) => match offset_extracted(once) {
            Some((end, twice)) => Some((start, end, twice)),
            None => None,
        },
        None => None,
    }
}

/// Encoding distributes over concatenation.
pub proof fn lemma_encode_concat(a: Seq<char>, b: Seq<char>)
    ensures
        encode_utf8(a + b) == encode_utf8(a) + encode_utf8(b),
    decreases a.len(),
{
    if a.len() == 0 {
        assert(a + b == b);
        assert(encode_utf8(a) + encode_utf8(b) == encode_utf8(b));
    } else {
        lemma_encode_concat(a.drop_first(), b);
        assert((a + b).drop_first() == a.drop_first() + b);
        assert((a + b)[0] == a[0]);
    }
}

/// A prefix encodes to no more bytes than the whole.
pub proof fn lemma_prefix_utf8_len(s: Seq<char>, i: int, j: int)
    requires
        0 <= i <= j <= s.len(),
    ensures
        utf8_len(s.subrange(0, i)) <= utf8_len(s.subrange(0, j)),
{
    lemma_encode_concat(s.subrange(0, i), s.subrange(i, j));
    assert(s.subrange(0, i) + s.subrange(i, j) == s.subrange(0, j));
}

/// Removing a marker shortens the encoding.
proof fn lemma_removed_shorter(text: Seq<char>, c: int)
    requires
        0 <= c,
        c + 3 <= text.len(),
    ensures
        utf8_len(marker_removed(text, c)) <= utf8_len(text),
{
    let a = text.subrange(0, c);
    let m = text.subrange(c, c + 3);
    let b = text.subrange(c + 3, text.len() as int);
    lemma_encode_concat(a, b);
    lemma_encode_concat(a, m);
    lemma_encode_concat(a + m, b);
    assert(a + m + b == text);
}

/// The offset of the first marker and the text without it.
fn try_extract_offset(text: &str) -> (r: Option<(u32, String)>)
    requires
        text.spec_bytes().len() <= u32::MAX,
    ensures
        match offset_extracted(text@) {
            Some((off, rest)) => r.is_some() && r.unwrap().0 == off && r.unwrap().1@ == rest,
            None => r.is_none(),
        },
{
    let chars = chars_of(text);
    let marker: Vec<char> = vec!['<', '|', '>'];
    assert(marker@.subrange(0, 3) == cursor_marker());
    assert(chars@.subrange(0, chars@.len() as int) == chars@);
    let c = find_from(&chars, 0, &marker, 0, 3)?;
    proof {
        let fc = first_occurrence(text@, cursor_marker()).unwrap();
        assert(is_first_occurrence(text@, cursor_marker(), fc));
        lemma_prefix_utf8_len(text@, c as int, text@.len() as int);
        assert(text@.subrange(0, text@.len() as int) == text@);
    }
    let n = text.unicode_len();
    let before = text.substring_char(0, c);
    let after = text.substring_char(c + 3, n);
    let offset = before.len() as u32;
    let mut rest = String::from_str(before);
    rest.append(after);
    Some((offset, rest))
}

/// The offset of the first marker and the text without it.
pub fn extract_offset(text: &str) -> (r: (u32, String))
    requires
        offset_extracted(text@).is_some(),
        text.spec_bytes().len() <= u32::MAX,
    ensures
        offset_extracted(text@) == Some((r.0 as nat, r.1@)),
{
    match try_extract_offset(text) {
        Some(result) => result,
        None => (0, String::new()),
    }
}

/// The span between the first two markers and the text without both.
fn try_extract_range(text: &str) -> (r: Option<(TextRange, String)>)
    requires
        text.spec_bytes().len() <= u32::MAX,
        markers_in_order(text@),
    ensures
        match range_extracted(text@) {
            Some((start, end, rest)) => r.is_some() && r.unwrap().0.start == start && r.unwrap().0.end == end
                && r.unwrap().1@ == rest,
            None => r.is_none(),
        },
{
    let (start, once) = try_extract_offset(text)?;
    proof {
        let c = first_occurrence(text@, cursor_marker()).unwrap();
        assert(is_first_occurrence(text@, cursor_marker(), c));
        lemma_removed_shorter(text@, c);
        if let Some(d) = first_occurrence(once@, cursor_marker()) {
            assert(is_first_occurrence(once@, cursor_marker(), d));
            lemma_prefix_utf8_len(once@, c, d);
            assert(once@.subrange(0, c) == text@.subrange(0, c));
        }
    }
    let (end, twice) = try_extract_offset(once.as_str())?;
    Some((TextRange::new(start, end), twice))
}

/// The span between the first two markers and the text without both.
pub fn extract_range(text: &str) -> (r: (TextRange, String))
    requires
        range_extracted(text@).is_some(),
        markers_in_order(text@),
        text.spec_bytes().len() <= u32::MAX,
    ensures
        range_extracted(text@) == Some((r.0.start as nat, r.0.end as nat, r.1@)),
{
    match try_extract_range(text) {
        Some(result) => result,
        None => (TextRange::new(0, 0), String::new()),
    }
}

/// A selection: a span, or a bare cursor offset.
#[derive(Clone, Copy, Debug, PartialEq, Eq, Structural)]
pub enum RangeOrOffset {
    Range(TextRange),
    Offset(u32),
}

impl From<RangeOrOffset> for TextRange {
    fn from(selection: RangeOrOffset) -> (r: TextRange) {
        match selection {
            RangeOrOffset::Range(it) => it,
            RangeOrOffset::Offset(it) => TextRange { start: it, end: it },
        }
    }
}

impl vstd::std_specs::convert::FromSpecImpl<RangeOrOffset> for TextRange {
    open spec fn obeys_from_spec() -> bool {
        true
    }

    open spec fn from_spec(selection: RangeOrOffset) -> TextRange {
        match selection {
            RangeOrOffset::Range(it) => it,
            RangeOrOffset::Offset(it) => TextRange { start: it, end: it },
        }
    }
}

/// The span between two markers where the text has two, else the offset of
/// its one marker; the text without them.
pub fn extract_range_or_offset(text: &str) -> (r: (RangeOrOffset, String))
    requires
        offset_extracted(text@).is_some(),
        markers_in_order(text@),
        text.spec_bytes().len() <= u32::MAX,
    ensures
        match range_extracted(text@) {
            Some((start, end, rest)) => r.0 == RangeOrOffset::Range(TextRange { start: start as u32, end: end as u32 })
                && r.1@ == rest,
            None => match r.0 {
                RangeOrOffset::Offset(o) => offset_extracted(text@) == Some((o as nat, r.1@)),
                RangeOrOffset::Range(_) => false,
            },
        },
{
    if let Some((range, rest)) = try_extract_range(text) {
        return (RangeOrOffset::Range(range), rest);
    }
    let (offset, rest) = extract_offset(text);
    (RangeOrOffset::Offset(offset), rest)
}

/// `text` with a marker inserted at byte `offset`.
pub fn add_cursor(text: &str, offset: u32) -> (r: String)
    requires
        vstd::utf8::is_char_boundary(text.spec_bytes(), offset as int),
    ensures
        r@ == decode_utf8(text.spec_bytes().subrange(0, offset as int)) + cursor_marker() + decode_utf8(
            text.spec_bytes().subrange(offset as int, text.spec_bytes().len() as int),
        ),
{
    let (before, after) = text.split_at(offset as usize);
    proof {
        encode_utf8_decode_utf8(before@);
        encode_utf8_decode_utf8(after@);
        reveal_strlit("<|>");
    }
    let mut r = String::from_str(before);
    r.append(CURSOR_MARKER);
    r.append(after);
    r
}

/// `a` comes no later than `b` when ranges are ordered by start, then end.
pub open spec fn range_le(a: TextRange, b: TextRange) -> bool {
    a.start < b.start || (a.start == b.start && a.end <= b.end)
}

/// The ranges are ordered by start, then end.
pub open spec fn ranges_sorted(s: Seq<TextRange>) -> bool {
    forall|i: int, j: int| 0 <= i < j < s.len() ==> range_le(#[trigger] s[i], #[trigger] s[j])
}

/// The ranges ordered by start, then end.
fn sort_ranges(v: &Vec<TextRange>) -> (r: Vec<TextRange>)
    ensures
        ranges_sorted(r@),
        r@.to_multiset() == v@.to_multiset(),
{
    let mut out: Vec<TextRange> = Vec::new();
    let mut k: usize = 0;
    assert(out@ == v@.subrange(0, 0));
    while k < v.len()
        invariant
            k <= v@.len(),
            ranges_sorted(out@),
            out@.to_multiset() == v@.subrange(0, k as int).to_multiset(),
        decreases v@.len() - k,
    {
        let x = v[k];
        let mut pos: usize = 0;
        while pos < out.len() && range_le_exec(&out[pos], &x)
            invariant
                pos <= out@.len(),
                forall|i: int| 0 <= i < pos ==> range_le(#[trigger] out@[i], x),
            decreases out@.len() - pos,
        {
            pos = pos + 1;
        }
        let ghost before = out@;
        out.insert(pos, x);
        proof {
            before.insert_ensures(pos as int, x);
            assert forall|i: int, j: int| 0 <= i < j < out@.len() implies range_le(#[trigger] out@[i], #[trigger] out@[j]) by {
                if j < pos {
                    assert(out@[i] == before[i] && out@[j] == before[j]);
                } else if j == pos {
                    assert(out@[i] == before[i]);
                } else if i < pos {
                    assert(out@[i] == before[i] && out@[j] == before[j - 1]);
                    assert(range_le(before[i], x));
                    assert(!range_le(before[pos as int], x));
                    assert(range_le(before[pos as int], before[j - 1]) || pos == j - 1);
                } else if i == pos {
                    assert(out@[j] == before[j - 1]);
                    assert(!range_le(before[pos as int], x));
                    assert(range_le(before[pos as int], before[j - 1]) || pos == j - 1);
                } else {
                    assert(out@[i] == before[i - 1] && out@[j] == before[j - 1]);
                }
            }
            assert(v@.subrange(0, k + 1) == v@.subrange(0, k as int).push(x));
            vstd::seq_lib::to_multiset_insert(before, pos as int, x);
            vstd::seq_lib::to_multiset_build(v@.subrange(0, k as int), x);
        }
        k = k + 1;
    }
    assert(v@.subrange(0, k as int) == v@);
    out
}

fn range_le_exec(a: &TextRange, b: &TextRange) -> (r: bool)
    ensures
        r == range_le(*a, *b),
{
    a.start < b.start || (a.start == b.start && a.end <= b.end)
}

/// `s` starts with `p`.
pub open spec fn starts_with(s: Seq<char>, p: Seq<char>) -> bool {
    p.len() <= s.len() && s.subrange(0, p.len() as int) == p
}

/// The opening tag `<tag>`.
pub open spec fn open_tag(tag: Seq<char>) -> Seq<char> {
    seq!['<'] + tag + seq!['>']
}

/// The closing tag `</tag>`.
pub open spec fn close_tag(tag: Seq<char>) -> Seq<char> {
    seq!['<', '/'] + tag + seq!['>']
}

/// Reads `t` on from a state where `res` is the text kept so far, `stack`
/// the byte offsets of the tags still open, and `ranges` the spans closed so
/// far in closing order. Gives the spans and the text without tags; none
/// where a `<` starts no tag, a tag closes none, or one stays open.
pub open spec fn tags_scanned(
    t: Seq<char>,
    tag: Seq<char>,
    res: Seq<char>,
    stack: Seq<u32>,
    ranges: Seq<TextRange>,
) -> Option<(Seq<TextRange>, Seq<char>)>
    decreases t.len(),
{
    match first_occurrence(t, seq!['<']) {
        None => if stack.len() == 0 {
            Some((ranges, res + t))
        } else {
            None
        },
        Some(i) => if 0 <= i < t.len() {
            let kept = res + t.subrange(0, i);
            let rest = t.subrange(i, t.len() as int);
            if starts_with(rest, open_tag(tag)) {
                tags_scanned(
                    rest.subrange(open_tag(tag).len() as int, rest.len() as int),
                    tag,
                    kept,
                    stack.push(utf8_len(kept) as u32),
                    ranges,
                )
            } else if starts_with(rest, close_tag(tag)) && stack.len() > 0 {
                tags_scanned(
                    rest.subrange(close_tag(tag).len() as int, rest.len() as int),
                    tag,
                    kept,
                    stack.drop_last(),
                    ranges.push(TextRange { start: stack.last(), end: utf8_len(kept) as u32 }),
                )
            } else {
                None
            }
        } else {
            None
        },
    }
}

/// Where `j` is the first `<` of `t` and an opening tag stands there, the
/// scan goes on after it with the tag's offset pushed.
proof fn lemma_scan_open(t: Seq<char>, tag: Seq<char>, res: Seq<char>, stack: Seq<u32>, ranges: Seq<TextRange>, j: int)
    requires
        is_first_occurrence(t, seq!['<'], j),
        starts_with(t.subrange(j, t.len() as int), open_tag(tag)),
    ensures
        tags_scanned(t, tag, res, stack, ranges) == tags_scanned(
            t.subrange(j + open_tag(tag).len(), t.len() as int),
            tag,
            res + t.subrange(0, j),
            stack.push(utf8_len(res + t.subrange(0, j)) as u32),
            ranges,
        ),
{
    let c = first_occurrence(t, seq!['<']).unwrap();
    assert(is_first_occurrence(t, seq!['<'], c));
    assert(c == j);
    let rest = t.subrange(j, t.len() as int);
    assert(rest.subrange(open_tag(tag).len() as int, rest.len() as int) == t.subrange(j + open_tag(tag).len(), t.len() as int));
}

/// Where `j` is the first `<` of `t`, no opening tag but a closing one
/// stands there, and a tag is open, the scan goes on after it with the span
/// closed.
proof fn lemma_scan_close(t: Seq<char>, tag: Seq<char>, res: Seq<char>, stack: Seq<u32>, ranges: Seq<TextRange>, j: int)
    requires
        is_first_occurrence(t, seq!['<'], j),
        !starts_with(t.subrange(j, t.len() as int), open_tag(tag)),
        starts_with(t.subrange(j, t.len() as int), close_tag(tag)),
        stack.len() > 0,
    ensures
        tags_scanned(t, tag, res, stack, ranges) == tags_scanned(
            t.subrange(j + close_tag(tag).len(), t.len() as int),
            tag,
            res + t.subrange(0, j),
            stack.drop_last(),
            ranges.push(TextRange { start: stack.last(), end: utf8_len(res + t.subrange(0, j)) as u32 }),
        ),
{
    let c = first_occurrence(t, seq!['<']).unwrap();
    assert(is_first_occurrence(t, seq!['<'], c));
    assert(c == j);
    let rest = t.subrange(j, t.len() as int);
    assert(rest.subrange(close_tag(tag).len() as int, rest.len() as int) == t.subrange(j + close_tag(tag).len(), t.len() as int));
}

/// Where `j` is the first `<` of `t` and neither tag may stand there, the
/// scan fails.
proof fn lemma_scan_stray(t: Seq<char>, tag: Seq<char>, res: Seq<char>, stack: Seq<u32>, ranges: Seq<TextRange>, j: int)
    requires
        is_first_occurrence(t, seq!['<'], j),
        !starts_with(t.subrange(j, t.len() as int), open_tag(tag)),
        !(starts_with(t.subrange(j, t.len() as int), close_tag(tag)) && stack.len() > 0),
    ensures
        tags_scanned(t, tag, res, stack, ranges).is_none(),
{
    let c = first_occurrence(t, seq!['<']).unwrap();
    assert(is_first_occurrence(t, seq!['<'], c));
    assert(c == j);
}

/// Moving `k` characters from the unread text to the kept one, and then
/// skipping `m` more, keeps the byte count within bounds.
proof fn lemma_scan_bytes(res: Seq<char>, t: Seq<char>, k: int, m: int)
    requires
        0 <= k <= k + m <= t.len(),
    ensures
        utf8_len(res + t.subrange(0, k)) + utf8_len(t.subrange(k + m, t.len() as int)) <= utf8_len(res) + utf8_len(t),
        utf8_len(res) <= utf8_len(res + t.subrange(0, k)),
{
    let a = t.subrange(0, k);
    let b = t.subrange(k, k + m);
    let c = t.subrange(k + m, t.len() as int);
    lemma_encode_concat(res, a);
    lemma_encode_concat(a, b);
    lemma_encode_concat(a + b, c);
    assert(a + b + c == t);
}

/// `prefix`, then `tag`, then `>`.
fn tag_chars(prefix: Vec<char>, tag: &Vec<char>) -> (r: Vec<char>)
    ensures
        r@ == prefix@ + tag@ + seq!['>'],
{
    let mut r = prefix;
    let ghost start = r@;
    let mut i: usize = 0;
    while i < tag.len()
        invariant
            i <= tag@.len(),
            r@ == start + tag@.subrange(0, i as int),
        decreases tag@.len() - i,
    {
        r.push(tag[i]);
        i = i + 1;
    }
    assert(tag@.subrange(0, i as int) == tag@);
    r.push('>');
    r
}

/// Extracts the spans marked by `<tag>` and `</tag>` pairs: the spans, in
/// bytes of the text without tags and ordered by start then end, and that
/// text.
pub fn extract_ranges(text: &str, tag: &str) -> (r: (Vec<TextRange>, String))
    requires
        text.spec_bytes().len() <= u32::MAX,
        tags_scanned(text@, tag@, Seq::empty(), Seq::empty(), Seq::empty()).is_some(),
    ensures
        match tags_scanned(text@, tag@, Seq::empty(), Seq::empty(), Seq::empty()) {
            Some((ranges, rest)) => r.1@ == rest && ranges_sorted(r.0@) && r.0@.to_multiset() == ranges.to_multiset(),
            None => false,
        },
{
    let chars = chars_of(text);
    let tagc = chars_of(tag);
    let open = tag_chars(vec!['<'], &tagc);
    let close = tag_chars(vec!['<', '/'], &tagc);
    let lt: Vec<char> = vec!['<'];
    assert(lt@.subrange(0, 1) == seq!['<']);
    assert(open@.subrange(0, open@.len() as int) == open@);
    assert(close@.subrange(0, close@.len() as int) == close@);
    let n = chars.len();
    let ghost goal = tags_scanned(text@, tag@, Seq::empty(), Seq::empty(), Seq::empty());
    let mut p: usize = 0;
    let mut res = String::new();
    let mut stack: Vec<u32> = Vec::new();
    let mut ranges: Vec<TextRange> = Vec::new();
    proof {
        assert(chars@.subrange(0, n as int) == chars@);
        assert(res@ + chars@ == chars@);
        lemma_encode_concat(res@, chars@);
    }
    loop
        invariant
            n == chars@.len(),
            chars@ == text@,
            p <= n,
            open@ == open_tag(tag@),
            close@ == close_tag(tag@),
            lt@.len() == 1,
            lt@.subrange(0, 1) == seq!['<'],
            open@.subrange(0, open@.len() as int) == open@,
            close@.subrange(0, close@.len() as int) == close@,
            tags_scanned(chars@.subrange(p as int, n as int), tag@, res@, stack@, ranges@) == goal,
            goal.is_some(),
            goal == tags_scanned(text@, tag@, Seq::empty(), Seq::empty(), Seq::empty()),
            utf8_len(res@) + utf8_len(chars@.subrange(p as int, n as int)) <= text.spec_bytes().len(),
            text.spec_bytes().len() <= u32::MAX,
            forall|k: int| 0 <= k < stack@.len() ==> #[trigger] stack@[k] <= utf8_len(res@),
        decreases n - p,
    {
        let ghost t = chars@.subrange(p as int, n as int);
        match find_from(&chars, p, &lt, 0, 1) {
            None => {
                let ghost res_before = res@;
                proof {
                    assert(first_occurrence(t, seq!['<']).is_none());
                    assert(stack@.len() == 0);
                    assert(goal == Some((ranges@, res_before + t)));
                }
                res.append(text.substring_char(p, n));
                assert(res@ == res_before + t);
                let sorted = sort_ranges(&ranges);
                return (sorted, res);
            },
            Some(i) => {
                let ghost j = i - p;
                let ghost rest = t.subrange(j, t.len() as int);
                proof {
                    let fj = first_occurrence(t, seq!['<']).unwrap();
                    assert(is_first_occurrence(t, seq!['<'], fj));
                    assert(t.subrange(0, j) == chars@.subrange(p as int, i as int));
                    assert(rest == chars@.subrange(i as int, n as int));
                }
                let ghost res_before = res@;
                let ghost kept = res@ + t.subrange(0, j);
                res.append(text.substring_char(p, i));
                assert(res@ == kept);
                let off = res.as_str().len() as u32;
                let ol = open.len();
                let cl = close.len();
                let is_open = ol <= n - i && stands_at(&chars, i, &open, 0, ol);
                let is_close = cl <= n - i && stands_at(&chars, i, &close, 0, cl);
                proof {
                    if ol <= n - i {
                        assert(rest.subrange(0, ol as int) == chars@.subrange(i as int, i + ol));
                    }
                    if cl <= n - i {
                        assert(rest.subrange(0, cl as int) == chars@.subrange(i as int, i + cl));
                    }
                    assert(is_open == starts_with(rest, open_tag(tag@)));
                    assert(is_close == starts_with(rest, close_tag(tag@)));
                }
                if is_open {
                    proof {
                        lemma_scan_open(t, tag@, res_before, stack@, ranges@, j);
                        lemma_scan_bytes(res_before, t, j, ol as int);
                        assert(t.subrange(j + ol, t.len() as int) == chars@.subrange(i + ol, n as int));
                    }
                    stack.push(off);
                    p = i + ol;
                } else if is_close && stack.len() > 0 {
                    proof {
                        lemma_scan_close(t, tag@, res_before, stack@, ranges@, j);
                        lemma_scan_bytes(res_before, t, j, cl as int);
                        assert(t.subrange(j + cl, t.len() as int) == chars@.subrange(i + cl, n as int));
                    }
                    let from = stack[stack.len() - 1];
                    stack.pop();
                    ranges.push(TextRange::new(from, off));
                    p = i + cl;
                } else {
                    proof {
                        lemma_scan_stray(t, tag@, res_before, stack@, ranges@, j);
                    }
                    return (Vec::new(), String::new());
                }
            },
        }
    }
}

} // verus!
