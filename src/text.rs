//! Whitespace handling on lines of text: trimming, splitting into words and
//! splitting on the pipe delimiter.
use vstd::prelude::*;
use vstd::string::StrSliceExecFns;
use vstd::string::StringExecFns;

verus! {

/// The characters with the Unicode `White_Space` property.
pub open spec fn is_ws(c: char) -> bool {
    let u = c as u32;
    (0x9 <= u && u <= 0xd) || u == 0x20 || u == 0x85 || u == 0xa0 || u == 0x1680 || (0x2000 <= u
        && u <= 0x200a) || u == 0x2028 || u == 0x2029 || u == 0x202f || u == 0x205f || u == 0x3000
}

/// The first index at or after `i` that holds no whitespace, or the length.
pub open spec fn skip_ws(s: Seq<char>, i: int) -> int
    decreases s.len() - i,
{
    if i < 0 || i >= s.len() {
        s.len() as int
    } else if is_ws(s[i]) {
        skip_ws(s, i + 1)
    } else {
        i
    }
}

/// The first index at or after `i` that holds whitespace, or the length.
pub open spec fn skip_word(s: Seq<char>, i: int) -> int
    decreases s.len() - i,
{
    if i < 0 || i >= s.len() {
        s.len() as int
    } else if is_ws(s[i]) {
        i
    } else {
        skip_word(s, i + 1)
    }
}

/// One past the last non-whitespace character before index `j`, or zero.
pub open spec fn trailing_end(s: Seq<char>, j: int) -> int
    decreases j,
{
    if j <= 0 || j > s.len() {
        0
    } else if is_ws(s[j - 1]) {
        trailing_end(s, j - 1)
    } else {
        j
    }
}

/// `s` without its leading and trailing whitespace.
pub open spec fn trimmed(s: Seq<char>) -> Seq<char> {
    let a = skip_ws(s, 0);
    if a >= s.len() {
        Seq::empty()
    } else {
        s.subrange(a, trailing_end(s, s.len() as int))
    }
}

/// The maximal runs of non-whitespace characters of `s` from index `i` on.
pub open spec fn words_from(s: Seq<char>, i: int) -> Seq<Seq<char>>
    decreases s.len() - i,
    via words_from_decreases
{
    if i < 0 || i >= s.len() {
        Seq::empty()
    } else {
        let a = skip_ws(s, i);
        if a >= s.len() {
            Seq::empty()
        } else {
            let b = skip_word(s, a);
            seq![s.subrange(a, b)] + words_from(s, b)
        }
    }
}

#[via_fn]
proof fn words_from_decreases(s: Seq<char>, i: int) {
    if 0 <= i < s.len() {
        lemma_skip_ws_bounds(s, i);
        let a = skip_ws(s, i);
        if a < s.len() {
            lemma_skip_word_bounds(s, a);
        }
    }
}

/// The whitespace-separated words of `s`, in order.
pub open spec fn words(s: Seq<char>) -> Seq<Seq<char>> {
    words_from(s, 0)
}

/// The delimiter between pipeline segments, a bar with one space each side,
/// starts at index `i` of `s`.
pub open spec fn bar_at(s: Seq<char>, i: int) -> bool {
    0 <= i && i + 3 <= s.len() && s[i] == ' ' && s[i + 1] == '|' && s[i + 2] == ' '
}

/// The segments of `s` between delimiters, scanning from `i` with the current
/// segment begun at `start`; each delimiter found ends a segment and scanning
/// goes on after it.
pub open spec fn segments_from(s: Seq<char>, start: int, i: int) -> Seq<Seq<char>>
    decreases s.len() - i,
{
    if i < 0 || i + 3 > s.len() {
        seq![s.subrange(start, s.len() as int)]
    } else if bar_at(s, i) {
        seq![s.subrange(start, i)] + segments_from(s, i + 3, i + 3)
    } else {
        segments_from(s, start, i + 1)
    }
}

/// `s` split on every delimiter, leftmost first.
pub open spec fn segments(s: Seq<char>) -> Seq<Seq<char>> {
    segments_from(s, 0, 0)
}

pub proof fn lemma_skip_ws_bounds(s: Seq<char>, i: int)
    requires
        0 <= i <= s.len(),
    ensures
        i <= skip_ws(s, i) <= s.len(),
        skip_ws(s, i) < s.len() ==> !is_ws(s[skip_ws(s, i)]),
    decreases s.len() - i,
{
    if i < s.len() && is_ws(s[i]) {
        lemma_skip_ws_bounds(s, i + 1);
    }
}

pub proof fn lemma_skip_word_ge(s: Seq<char>, i: int)
    requires
        0 <= i <= s.len(),
    ensures
        i <= skip_word(s, i) <= s.len(),
        skip_word(s, i) < s.len() ==> is_ws(s[skip_word(s, i)]),
    decreases s.len() - i,
{
    if i < s.len() && !is_ws(s[i]) {
        lemma_skip_word_ge(s, i + 1);
    }
}

pub proof fn lemma_skip_word_bounds(s: Seq<char>, i: int)
    requires
        0 <= i < s.len(),
        !is_ws(s[i]),
    ensures
        i < skip_word(s, i) <= s.len(),
{
    lemma_skip_word_ge(s, i + 1);
}

pub proof fn lemma_trailing_end_bounds(s: Seq<char>, j: int, k: int)
    requires
        0 <= k < j <= s.len(),
        !is_ws(s[k]),
    ensures
        k < trailing_end(s, j) <= j,
    decreases j,
{
    if is_ws(s[j - 1]) {
        lemma_trailing_end_bounds(s, j - 1, k);
    }
}

/// The trimmed text is a contiguous part of the text.
pub proof fn lemma_trimmed_is_part(s: Seq<char>) -> (ab: (int, int))
    ensures
        0 <= ab.0 <= ab.1 <= s.len(),
        trimmed(s) == s.subrange(ab.0, ab.1),
{
    lemma_skip_ws_bounds(s, 0);
    let a = skip_ws(s, 0);
    if a >= s.len() {
        assert(trimmed(s) =~= s.subrange(0, 0));
        (0, 0)
    } else {
        lemma_trailing_end_bounds(s, s.len() as int, a);
        (a, trailing_end(s, s.len() as int))
    }
}

/// Scanning text in which no delimiter starts at or after `i` gives the rest
/// of the text from `start` as the one remaining segment.
pub proof fn lemma_scan_rest(s: Seq<char>, start: int, i: int)
    requires
        0 <= i,
        forall|j: int| i <= j ==> !bar_at(s, j),
    ensures
        segments_from(s, start, i) == seq![s.subrange(start, s.len() as int)],
    decreases s.len() - i,
{
    if i + 3 <= s.len() {
        lemma_scan_rest(s, start, i + 1);
    }
}

/// Scanning moves over positions where no delimiter starts.
pub proof fn lemma_scan_skip(s: Seq<char>, start: int, i: int, m: int)
    requires
        0 <= i <= m,
        m + 3 <= s.len(),
        forall|j: int| i <= j < m ==> !bar_at(s, j),
    ensures
        segments_from(s, start, i) == segments_from(s, start, m),
    decreases m - i,
{
    if i < m {
        lemma_scan_skip(s, start, i + 1, m);
    }
}

/// Text in which no delimiter occurs, trimmed, is one segment.
pub proof fn lemma_no_bar_one_segment(s: Seq<char>)
    requires
        forall|j: int| !bar_at(s, j),
    ensures
        segments(trimmed(s)).len() == 1,
{
    let (a, b) = lemma_trimmed_is_part(s);
    let t = trimmed(s);
    assert forall|j: int| 0 <= j implies !bar_at(t, j) by {
        if bar_at(t, j) {
            assert(bar_at(s, a + j));
        }
    }
    lemma_scan_rest(t, 0, 0);
}

/// The delimiter between segments.
pub open spec fn delimiter() -> Seq<char> {
    seq![' ', '|', ' ']
}

/// The segments `segs` written one after another with a delimiter between
/// each two.
pub open spec fn joined(segs: Seq<Seq<char>>) -> Seq<char>
    decreases segs.len(),
{
    if segs.len() == 0 {
        Seq::empty()
    } else if segs.len() == 1 {
        segs[0]
    } else {
        segs[0] + delimiter() + joined(segs.drop_first())
    }
}

/// No bar character occurs in `s`.
pub open spec fn no_bar_char(s: Seq<char>) -> bool {
    forall|k: int| 0 <= k < s.len() ==> s[k] != '|'
}

/// Some character of `s` is no whitespace.
pub open spec fn has_word(s: Seq<char>) -> bool {
    exists|k: int| 0 <= k < s.len() && !is_ws(s[k])
}

/// Splitting joined segments that hold no bar character gives them back.
pub proof fn lemma_segments_of_joined(pre: Seq<char>, q: Seq<Seq<char>>)
    requires
        q.len() >= 1,
        forall|j: int| 0 <= j < q.len() ==> no_bar_char(#[trigger] q[j]),
    ensures
        segments_from(pre + joined(q), pre.len() as int, pre.len() as int) == q,
    decreases q.len(),
{
    let s = pre + joined(q);
    let p = pre.len() as int;
    assert(no_bar_char(q[0]));
    if q.len() == 1 {
        assert(s == pre + q[0]);
        assert forall|j: int| p <= j implies !bar_at(s, j) by {
            if bar_at(s, j) {
                assert(s[j + 1] == q[0][j + 1 - p]);
            }
        }
        lemma_scan_rest(s, p, p);
        assert(s.subrange(p, s.len() as int) =~= q[0]);
        assert(seq![q[0]] =~= q);
    } else {
        let rest = q.drop_first();
        let m = p + q[0].len();
        let pre2 = pre + q[0] + delimiter();
        assert(s =~= pre2 + joined(rest));
        assert forall|j: int| p <= j < m implies !bar_at(s, j) by {
            if bar_at(s, j) {
                if j + 1 < m {
                    assert(s[j + 1] == q[0][j + 1 - p]);
                } else {
                    assert(s[j + 1] == ' ');
                }
            }
        }
        lemma_scan_skip(s, p, p, m);
        assert(bar_at(s, m));
        assert forall|j: int| 0 <= j < rest.len() implies no_bar_char(#[trigger] rest[j]) by {
            assert(rest[j] == q[j + 1]);
        }
        lemma_segments_of_joined(pre2, rest);
        assert(s.subrange(p, m) =~= q[0]);
        assert(seq![q[0]] + rest =~= q);
    }
}

/// The joined text ends with the last segment.
pub proof fn lemma_joined_last(q: Seq<Seq<char>>)
    requires
        q.len() >= 2,
    ensures
        joined(q) == joined(q.drop_last()) + delimiter() + q.last(),
    decreases q.len(),
{
    if q.len() == 2 {
        assert(q.drop_first() =~= seq![q[1]]);
        assert(q.drop_last() =~= seq![q[0]]);
        assert(joined(q.drop_first()) == q[1]);
        assert(joined(q.drop_last()) == q[0]);
        assert(joined(q) =~= joined(q.drop_last()) + delimiter() + q.last());
    } else {
        lemma_joined_last(q.drop_first());
        assert(q.drop_first().drop_last() =~= q.drop_last().drop_first());
        assert(joined(q.drop_last()) == q[0] + delimiter() + joined(q.drop_last().drop_first()));
        assert(joined(q) =~= joined(q.drop_last()) + delimiter() + q.last());
    }
}

/// Cutting the joined text short at the front cuts its first segment.
pub proof fn lemma_joined_cut_first(q: Seq<Seq<char>>, a: int)
    requires
        q.len() >= 1,
        0 <= a <= q[0].len(),
    ensures
        joined(q.update(0, q[0].subrange(a, q[0].len() as int))) == joined(q).subrange(
            a,
            joined(q).len() as int,
        ),
{
    let q1 = q.update(0, q[0].subrange(a, q[0].len() as int));
    if q.len() == 1 {
        assert(joined(q1) =~= joined(q).subrange(a, joined(q).len() as int));
    } else {
        assert(q1.drop_first() =~= q.drop_first());
        assert(joined(q1) =~= joined(q).subrange(a, joined(q).len() as int));
    }
}

/// Cutting the joined text short at the back by `c` cuts its last segment.
pub proof fn lemma_joined_cut_last(q: Seq<Seq<char>>, c: int)
    requires
        q.len() >= 1,
        0 <= c <= q.last().len(),
    ensures
        joined(q).len() >= q.last().len(),
        joined(q.update(q.len() - 1, q.last().subrange(0, q.last().len() - c))) == joined(
            q,
        ).subrange(0, joined(q).len() - c),
    decreases q.len(),
{
    let q1 = q.update(q.len() - 1, q.last().subrange(0, q.last().len() - c));
    if q.len() == 1 {
        assert(joined(q1) =~= joined(q).subrange(0, joined(q).len() - c));
    } else {
        let rest = q.drop_first();
        lemma_joined_cut_last(rest, c);
        assert(q1.drop_first() =~= rest.update(rest.len() - 1, rest.last().subrange(
            0,
            rest.last().len() - c,
        )));
        assert(joined(q1) =~= joined(q).subrange(0, joined(q).len() - c));
    }
}

/// Leading whitespace is skipped alike in text that goes on past a word.
pub proof fn lemma_skip_ws_prefix(p: Seq<char>, r: Seq<char>, i: int, k: int)
    requires
        0 <= i <= k < p.len(),
        !is_ws(p[k]),
    ensures
        skip_ws(p + r, i) == skip_ws(p, i),
    decreases k - i,
{
    if is_ws(p[i]) {
        lemma_skip_ws_prefix(p, r, i + 1, k);
    }
}

/// Trailing whitespace is found alike in text that has more in front.
pub proof fn lemma_trailing_end_suffix(r: Seq<char>, p: Seq<char>, j: int, k: int)
    requires
        0 <= k < j <= p.len(),
        !is_ws(p[k]),
    ensures
        trailing_end(r + p, r.len() + j) == r.len() + trailing_end(p, j),
    decreases j,
{
    if is_ws(p[j - 1]) {
        lemma_trailing_end_suffix(r, p, j - 1, k);
    }
}

/// Everything after the trailing end is whitespace.
pub proof fn lemma_trailing_end_ws(s: Seq<char>, j: int)
    requires
        0 <= j <= s.len(),
    ensures
        0 <= trailing_end(s, j) <= j,
        forall|k: int| trailing_end(s, j) <= k < j ==> is_ws(#[trigger] s[k]),
    decreases j,
{
    if j > 0 && is_ws(s[j - 1]) {
        lemma_trailing_end_ws(s, j - 1);
    }
}

proof fn lemma_skip_ws_shift(s: Seq<char>, a: int, i: int)
    requires
        0 <= a <= i <= s.len(),
    ensures
        skip_ws(s.subrange(a, s.len() as int), i - a) == skip_ws(s, i) - a,
    decreases s.len() - i,
{
    if i < s.len() && is_ws(s[i]) {
        lemma_skip_ws_shift(s, a, i + 1);
    }
}

proof fn lemma_skip_word_shift(s: Seq<char>, a: int, i: int)
    requires
        0 <= a <= i <= s.len(),
    ensures
        skip_word(s.subrange(a, s.len() as int), i - a) == skip_word(s, i) - a,
    decreases s.len() - i,
{
    if i < s.len() && !is_ws(s[i]) {
        lemma_skip_word_shift(s, a, i + 1);
    }
}

/// The words of a tail of the text are the words of the text from there on.
proof fn lemma_words_shift(s: Seq<char>, a: int, i: int)
    requires
        0 <= a <= i <= s.len(),
    ensures
        words_from(s.subrange(a, s.len() as int), i - a) == words_from(s, i),
    decreases s.len() - i,
{
    let x = s.subrange(a, s.len() as int);
    if i < s.len() {
        lemma_skip_ws_shift(s, a, i);
        lemma_skip_ws_bounds(s, i);
        let w = skip_ws(s, i);
        if w < s.len() {
            lemma_skip_word_shift(s, a, w);
            lemma_skip_word_bounds(s, w);
            let b = skip_word(s, w);
            lemma_words_shift(s, a, b);
            assert(x.subrange(w - a, b - a) =~= s.subrange(w, b));
        }
    }
}

/// Leading whitespace does not change the words.
pub proof fn lemma_words_drop_leading(s: Seq<char>)
    ensures
        words(s.subrange(skip_ws(s, 0), s.len() as int)) == words(s),
{
    lemma_skip_ws_bounds(s, 0);
    let a = skip_ws(s, 0);
    lemma_words_shift(s, a, a);
    if a < s.len() {
        assert(skip_ws(s, a) == a);
    }
}

proof fn lemma_skip_ws_cut(s: Seq<char>, b: int, i: int)
    requires
        0 <= i <= b <= s.len(),
        forall|k: int| b <= k < s.len() ==> is_ws(#[trigger] s[k]),
    ensures
        (skip_ws(s, i) < b && skip_ws(s.subrange(0, b), i) == skip_ws(s, i)) || (skip_ws(
            s.subrange(0, b),
            i,
        ) == b && skip_ws(s, i) == s.len()),
    decreases s.len() - i,
{
    if i < b {
        if is_ws(s[i]) {
            lemma_skip_ws_cut(s, b, i + 1);
        }
    } else {
        lemma_skip_ws_rest(s, i);
    }
}

proof fn lemma_skip_ws_rest(s: Seq<char>, i: int)
    requires
        0 <= i <= s.len(),
        forall|k: int| i <= k < s.len() ==> is_ws(#[trigger] s[k]),
    ensures
        skip_ws(s, i) == s.len(),
    decreases s.len() - i,
{
    if i < s.len() {
        lemma_skip_ws_rest(s, i + 1);
    }
}

proof fn lemma_skip_word_cut(s: Seq<char>, b: int, i: int)
    requires
        0 <= i <= b <= s.len(),
        b < s.len() ==> is_ws(s[b]),
    ensures
        skip_word(s.subrange(0, b), i) == skip_word(s, i),
        skip_word(s, i) <= b,
    decreases b - i,
{
    if i < b && !is_ws(s[i]) {
        lemma_skip_word_cut(s, b, i + 1);
    }
}

proof fn lemma_words_cut(s: Seq<char>, b: int, i: int)
    requires
        0 <= i <= b <= s.len(),
        forall|k: int| b <= k < s.len() ==> is_ws(#[trigger] s[k]),
    ensures
        words_from(s.subrange(0, b), i) == words_from(s, i),
    decreases s.len() - i,
{
    let x = s.subrange(0, b);
    lemma_skip_ws_cut(s, b, i);
    lemma_skip_ws_bounds(s, i);
    let w = skip_ws(s, i);
    if i < b && w < b {
        lemma_skip_word_cut(s, b, w);
        lemma_skip_word_bounds(s, w);
        let e = skip_word(s, w);
        lemma_words_cut(s, b, e);
        assert(x.subrange(w, e) =~= s.subrange(w, e));
    } else if i == b && i < s.len() {
        assert(is_ws(s[i]));
    }
}

/// Trailing whitespace does not change the words.
pub proof fn lemma_words_drop_trailing(s: Seq<char>)
    ensures
        words(s.subrange(0, trailing_end(s, s.len() as int))) == words(s),
{
    lemma_trailing_end_ws(s, s.len() as int);
    lemma_words_cut(s, trailing_end(s, s.len() as int), 0);
}

/// Whether `c` is whitespace.
pub fn is_blank(c: char) -> (r: bool)
    ensures
        r == is_ws(c),
{
    let u = c as u32;
    (0x9 <= u && u <= 0xd) || u == 0x20 || u == 0x85 || u == 0xa0 || u == 0x1680 || (0x2000 <= u
        && u <= 0x200a) || u == 0x2028 || u == 0x2029 || u == 0x202f || u == 0x205f || u == 0x3000
}

/// The first index at or after `i` that holds no whitespace.
fn scan_ws(s: &str, n: usize, i: usize) -> (r: usize)
    requires
        n == s@.len(),
        i <= n,
    ensures
        r == skip_ws(s@, i as int),
{
    let mut j = i;
    while j < n && is_blank(s.get_char(j))
        invariant
            n == s@.len(),
            i <= j <= n,
            skip_ws(s@, j as int) == skip_ws(s@, i as int),
        decreases n - j,
    {
        j = j + 1;
    }
    j
}

/// The first index at or after `i` that holds whitespace.
fn scan_word(s: &str, n: usize, i: usize) -> (r: usize)
    requires
        n == s@.len(),
        i <= n,
    ensures
        r == skip_word(s@, i as int),
{
    let mut j = i;
    while j < n && !is_blank(s.get_char(j))
        invariant
            n == s@.len(),
            i <= j <= n,
            skip_word(s@, j as int) == skip_word(s@, i as int),
        decreases n - j,
    {
        j = j + 1;
    }
    j
}

/// `s` without its leading and trailing whitespace.
pub fn trim(s: &str) -> (r: String)
    ensures
        r@ == trimmed(s@),
{
    let n = s.unicode_len();
    let a = scan_ws(s, n, 0);
    proof {
        lemma_skip_ws_bounds(s@, 0);
    }
    if a >= n {
        return String::new();
    }
    let mut j = n;
    while j > a && is_blank(s.get_char(j - 1))
        invariant
            n == s@.len(),
            a < n,
            !is_ws(s@[a as int]),
            a < j <= n,
            trailing_end(s@, j as int) == trailing_end(s@, n as int),
        decreases j,
    {
        j = j - 1;
    }
    String::from_str(s.substring_char(a, j))
}

/// The whitespace-separated words of `s`, in order.
pub fn split_words(s: &str) -> (r: Vec<String>)
    ensures
        r.deep_view() == words(s@),
{
    let n = s.unicode_len();
    let mut out: Vec<String> = Vec::new();
    let mut i: usize = 0;
    loop
        invariant
            n == s@.len(),
            i <= n,
            out.deep_view() + words_from(s@, i as int) == words(s@),
        decreases n - i,
    {
        let a = scan_ws(s, n, i);
        proof {
            lemma_skip_ws_bounds(s@, i as int);
        }
        if a >= n {
            assert(words_from(s@, i as int) =~= Seq::<Seq<char>>::empty());
            assert(out.deep_view() =~= out.deep_view() + words_from(s@, i as int));
            return out;
        }
        let b = scan_word(s, n, a);
        proof {
            lemma_skip_word_bounds(s@, a as int);
        }
        let w = String::from_str(s.substring_char(a, b));
        let ghost before = out.deep_view();
        out.push(w);
        proof {
            assert(out.deep_view() =~= before.push(s@.subrange(a as int, b as int)));
            assert(words_from(s@, i as int) == seq![s@.subrange(a as int, b as int)] + words_from(
                s@,
                b as int,
            ));
            assert(before + words_from(s@, i as int) =~= out.deep_view() + words_from(
                s@,
                b as int,
            ));
        }
        i = b;
    }
}

/// `s` split on every delimiter, leftmost first.
pub fn split_segments(s: &str) -> (r: Vec<String>)
    ensures
        r.deep_view() == segments(s@),
        r.len() >= 1,
{
    let n = s.unicode_len();
    let mut out: Vec<String> = Vec::new();
    let mut start: usize = 0;
    let mut i: usize = 0;
    loop
        invariant
            n == s@.len(),
            start <= i,
            i <= n,
            out.deep_view() + segments_from(s@, start as int, i as int) == segments(s@),
        decreases n - i,
    {
        let ghost before = out.deep_view();
        if n - i < 3 {
            let w = String::from_str(s.substring_char(start, n));
            out.push(w);
            proof {
                assert(out.deep_view() =~= before.push(s@.subrange(start as int, n as int)));
                assert(before + segments_from(s@, start as int, i as int) =~= out.deep_view());
            }
            return out;
        }
        if s.get_char(i) == ' ' && s.get_char(i + 1) == '|' && s.get_char(i + 2) == ' ' {
            let w = String::from_str(s.substring_char(start, i));
            out.push(w);
            proof {
                assert(bar_at(s@, i as int));
                assert(out.deep_view() =~= before.push(s@.subrange(start as int, i as int)));
                assert(before + segments_from(s@, start as int, i as int) =~= out.deep_view()
                    + segments_from(s@, i + 3, i + 3));
            }
            start = i + 3;
            i = i + 3;
        } else {
            i = i + 1;
        }
    }
}

} // verus!
