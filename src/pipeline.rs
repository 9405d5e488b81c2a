//! Parsing one line of input into the stages of a pipeline.
use vstd::prelude::*;
use crate::text::{
    bar_at, delimiter, has_word, joined, lemma_joined_cut_first, lemma_joined_cut_last,
    lemma_joined_last, lemma_no_bar_one_segment, lemma_segments_of_joined, lemma_skip_ws_bounds,
    lemma_skip_ws_prefix, lemma_trailing_end_bounds, lemma_trailing_end_suffix,
    lemma_words_drop_leading, lemma_words_drop_trailing, is_ws, no_bar_char, skip_ws, trailing_end,
    segments, split_segments, split_words, trim, trimmed, words};

verus! {

/// One segment of a pipeline: a program name and its arguments.
pub struct Stage {
    pub program: String,
    pub args: Vec<String>,
}

/// The program name a segment of text gives: its first word, or empty.
pub open spec fn program_of(seg: Seq<char>) -> Seq<char> {
    if words(seg).len() == 0 {
        Seq::empty()
    } else {
        words(seg)[0]
    }
}

/// The arguments a segment of text gives: every word after the first.
pub open spec fn args_of(seg: Seq<char>) -> Seq<Seq<char>> {
    if words(seg).len() == 0 {
        Seq::empty()
    } else {
        words(seg).drop_first()
    }
}

/// The segments of text, one per stage, that a line of input holds.
pub open spec fn line_segments(line: Seq<char>) -> Seq<Seq<char>> {
    segments(trimmed(line))
}

impl Stage {
    /// This stage is what the segment of text `seg` describes.
    pub open spec fn describes(&self, seg: Seq<char>) -> bool {
        &&& self.program@ == program_of(seg)
        &&& self.args.deep_view() == args_of(seg)
    }

    /// The stage that one segment of text describes.
    pub fn from_segment(seg: &str) -> (r: Stage)
        ensures
            r.describes(seg@),
    {
        let mut w = split_words(seg);
        if w.len() == 0 {
            let args: Vec<String> = Vec::new();
            proof {
                assert(args.deep_view() =~= Seq::<Seq<char>>::empty());
            }
            return Stage { program: String::new(), args };
        }
        let ghost all = w.deep_view();
        let program = w.remove(0);
        proof {
            assert(all[0] == program@);
            assert(w.deep_view() =~= all.drop_first());
        }
        Stage { program, args: w }
    }
}

/// The pipeline that one line of input describes: the trimmed line split on
/// the delimiter, each segment a stage in order. An empty line gives one
/// stage with an empty program name.
pub fn parse(line: &str) -> (r: Vec<Stage>)
    ensures
        r.len() == line_segments(line@).len(),
        r.len() >= 1,
        forall|k: int| 0 <= k < r.len() ==> #[trigger] r[k].describes(line_segments(line@)[k]),
{
    let t = trim(line);
    let segs = split_segments(t.as_str());
    let ghost sv = segs.deep_view();
    let mut out: Vec<Stage> = Vec::new();
    let mut k: usize = 0;
    while k < segs.len()
        invariant
            sv == segs.deep_view(),
            sv == line_segments(line@),
            k <= segs.len(),
            out.len() == k,
            forall|j: int| 0 <= j < k ==> #[trigger] out[j].describes(sv[j]),
        decreases segs.len() - k,
    {
        let st = Stage::from_segment(segs[k].as_str());
        assert(segs[k as int]@ == sv[k as int]);
        out.push(st);
        k = k + 1;
    }
    out
}

/// A line in which the delimiter does not occur describes a pipeline of
/// exactly one stage.
pub proof fn lemma_no_delimiter_one_stage(line: Seq<char>)
    requires
        forall|j: int| !bar_at(line, j),
    ensures
        line_segments(line).len() == 1,
{
    lemma_no_bar_one_segment(line);
}

/// A line made of segments joined by the delimiter, where no segment holds a
/// bar character and each holds a word, describes one stage per segment, in
/// the order of the line: stage `j` is what segment `j` describes.
pub proof fn lemma_delimiters_give_stages(segs: Seq<Seq<char>>)
    requires
        segs.len() >= 1,
        forall|j: int| 0 <= j < segs.len() ==> no_bar_char(#[trigger] segs[j]),
        forall|j: int| 0 <= j < segs.len() ==> has_word(#[trigger] segs[j]),
    ensures
        line_segments(joined(segs)).len() == segs.len(),
        forall|j: int|
            0 <= j < segs.len() ==> program_of(#[trigger] line_segments(joined(segs))[j])
                == program_of(segs[j]) && args_of(line_segments(joined(segs))[j]) == args_of(
                segs[j],
            ),
{
    let line = joined(segs);
    let n = segs.len() as int;
    let s0 = segs[0];
    let sk = segs[n - 1];
    assert(has_word(s0));
    assert(has_word(sk));
    let k0 = choose|k: int| 0 <= k < s0.len() && !is_ws(s0[k]);
    let kk = choose|k: int| 0 <= k < sk.len() && !is_ws(sk[k]);
    lemma_skip_ws_bounds(s0, 0);
    let a = skip_ws(s0, 0);
    if n >= 2 {
        let tail = delimiter() + joined(segs.drop_first());
        assert(line =~= s0 + tail);
        lemma_skip_ws_prefix(s0, tail, 0, k0);
    }
    assert(skip_ws(line, 0) == a);
    assert(a < s0.len()) by {
        if a >= s0.len() {
            lemma_skip_ws_stops(s0, 0, k0);
        }
    }
    let front = line.subrange(0, line.len() - sk.len());
    if n >= 2 {
        lemma_joined_last(segs);
    }
    assert(line =~= front + sk);
    lemma_trailing_end_suffix(front, sk, sk.len() as int, kk);
    lemma_trailing_end_bounds(sk, sk.len() as int, kk);
    let te = trailing_end(sk, sk.len() as int);
    let c = sk.len() - te;
    let e = line.len() - c;
    assert(trailing_end(line, line.len() as int) == e);
    assert(trimmed(line) == line.subrange(a, e));
    let q1 = segs.update(0, s0.subrange(a, s0.len() as int));
    lemma_joined_cut_first(segs, a);
    if n == 1 {
        lemma_trailing_end_bounds(s0, s0.len() as int, a);
    }
    let last1 = q1[n - 1];
    let q2 = q1.update(n - 1, last1.subrange(0, last1.len() - c));
    lemma_joined_cut_last(q1, c);
    assert(joined(q2) =~= trimmed(line));
    assert forall|j: int| 0 <= j < q2.len() implies no_bar_char(#[trigger] q2[j]) by {
        assert(no_bar_char(segs[j]));
    }
    lemma_segments_of_joined(Seq::empty(), q2);
    assert(Seq::<char>::empty() + joined(q2) =~= joined(q2));
    assert(line_segments(line) == q2);
    assert forall|j: int| 0 <= j < n implies words(#[trigger] q2[j]) == words(segs[j]) by {
        if n == 1 {
            let x = s0.subrange(a, s0.len() as int);
            assert(s0 =~= s0.subrange(0, a) + x);
            lemma_trailing_end_suffix(s0.subrange(0, a), x, x.len() as int, 0);
            lemma_words_drop_trailing(x);
            lemma_words_drop_leading(s0);
        } else if j == 0 {
            lemma_words_drop_leading(s0);
        } else if j == n - 1 {
            lemma_words_drop_trailing(sk);
        }
    }
}

/// Skipping whitespace stops at or before any character that is none.
proof fn lemma_skip_ws_stops(s: Seq<char>, i: int, k: int)
    requires
        0 <= i <= k < s.len(),
        !is_ws(s[k]),
    ensures
        skip_ws(s, i) <= k,
    decreases k - i,
{
    if is_ws(s[i]) {
        lemma_skip_ws_stops(s, i + 1, k);
    }
}

} // verus!
