//! Tracking which terminal lines are new between two captures of a pane.

use crate::text::{chars_equal, chars_of, join, join_from, lines, split_lines, string_from_chars};
use vstd::prelude::*;

verus! {

/// The last `k` lines of `old` are the first `k` lines of `new`.
pub open spec fn overlap_matches(old: Seq<Seq<char>>, new: Seq<Seq<char>>, k: int) -> bool {
    old.subrange(old.len() - k, old.len() as int) == new.take(k)
}

/// The largest `j` in `1..=k` with `overlap_matches(old, new, j)`, or 0.
pub open spec fn overlap_upto(old: Seq<Seq<char>>, new: Seq<Seq<char>>, k: int) -> int
    decreases k,
{
    if k <= 0 {
        0
    } else if overlap_matches(old, new, k) {
        k
    } else {
        overlap_upto(old, new, k - 1)
    }
}

/// The length of the longest suffix of `old` that is a prefix of `new`.
pub open spec fn overlap_len(old: Seq<Seq<char>>, new: Seq<Seq<char>>) -> int {
    let max = if old.len() < new.len() {
        old.len() as int
    } else {
        new.len() as int
    };
    overlap_upto(old, new, max)
}

/// The number of leading positions at which `a` and `b` agree, from `i` on.
pub open spec fn shared_from(a: Seq<Seq<char>>, b: Seq<Seq<char>>, i: int) -> int
    decreases a.len() - i,
{
    if 0 <= i < a.len() && i < b.len() && a[i] == b[i] {
        shared_from(a, b, i + 1)
    } else {
        i
    }
}

/// The length of the longest common prefix of `a` and `b`.
pub open spec fn shared_prefix_len(a: Seq<Seq<char>>, b: Seq<Seq<char>>) -> int {
    shared_from(a, b, 0)
}

/// The lines of `current` that were not visible in `previous`, joined by
/// line feeds: nothing on the first capture; after the longest overlap of
/// the end of `previous` with the start of `current` where they overlap;
/// else after their common prefix.
pub open spec fn fresh_text(previous: Seq<Seq<char>>, current: Seq<Seq<char>>) -> Seq<char> {
    if previous.len() == 0 {
        Seq::empty()
    } else {
        let o = overlap_len(previous, current);
        let start = if o > 0 {
            o
        } else {
            shared_prefix_len(previous, current)
        };
        join(current.skip(start), seq!['\n'])
    }
}

/// The overlap found searching down from `k` lies in `0..=k`, matches where
/// it is positive, and no larger length up to `k` matches.
pub proof fn lemma_overlap_upto(old: Seq<Seq<char>>, new: Seq<Seq<char>>, k: int)
    ensures
        0 <= overlap_upto(old, new, k),
        k >= 0 ==> overlap_upto(old, new, k) <= k,
        overlap_upto(old, new, k) > 0 ==> overlap_matches(old, new, overlap_upto(old, new, k)),
        forall|j: int| overlap_upto(old, new, k) < j <= k ==> !overlap_matches(old, new, j),
    decreases k,
{
    if k > 0 && !overlap_matches(old, new, k) {
        lemma_overlap_upto(old, new, k - 1);
    }
}

/// [`overlap_len`] is the longest suffix of `old` that is a prefix of `new`.
pub proof fn lemma_overlap_len(old: Seq<Seq<char>>, new: Seq<Seq<char>>)
    ensures
        0 <= overlap_len(old, new) <= old.len(),
        overlap_len(old, new) <= new.len(),
        overlap_len(old, new) > 0 ==> overlap_matches(old, new, overlap_len(old, new)),
        forall|j: int|
            overlap_len(old, new) < j <= old.len() && j <= new.len() ==> !overlap_matches(
                old,
                new,
                j,
            ),
{
    let max = if old.len() < new.len() {
        old.len() as int
    } else {
        new.len() as int
    };
    lemma_overlap_upto(old, new, max);
}

proof fn lemma_shared_from(a: Seq<Seq<char>>, b: Seq<Seq<char>>, i: int)
    requires
        0 <= i,
    ensures
        i <= shared_from(a, b, i),
        i <= a.len() && i <= b.len() ==> shared_from(a, b, i) <= a.len() && shared_from(a, b, i)
            <= b.len(),
    decreases a.len() - i,
{
    if 0 <= i < a.len() && i < b.len() && a[i] == b[i] {
        lemma_shared_from(a, b, i + 1);
    }
}

/// The common prefix lies within both sequences.
pub proof fn lemma_shared_prefix_len(a: Seq<Seq<char>>, b: Seq<Seq<char>>)
    ensures
        0 <= shared_prefix_len(a, b) <= a.len(),
        shared_prefix_len(a, b) <= b.len(),
{
    lemma_shared_from(a, b, 0);
}

/// Counting agreeing positions from `i` on: every position from `i` up to
/// the count agrees, and the count stops at the end of a sequence or at a
/// position where they differ.
proof fn lemma_shared_from_agrees(a: Seq<Seq<char>>, b: Seq<Seq<char>>, i: int)
    requires
        0 <= i <= a.len(),
        i <= b.len(),
    ensures
        i <= shared_from(a, b, i) <= a.len(),
        shared_from(a, b, i) <= b.len(),
        forall|j: int| i <= j < shared_from(a, b, i) ==> #[trigger] a[j] == b[j],
        shared_from(a, b, i) == a.len() || shared_from(a, b, i) == b.len() || a[shared_from(
            a,
            b,
            i,
        )] != b[shared_from(a, b, i)],
    decreases a.len() - i,
{
    if i < a.len() && i < b.len() && a[i] == b[i] {
        lemma_shared_from_agrees(a, b, i + 1);
    }
}

/// The common prefix is the longest one: `a` and `b` agree on their first
/// `shared_prefix_len(a, b)` lines, and after them one of the two ends or
/// the next lines differ. So after a capture that does not overlap the
/// previous one, the fresh text holds every line from the first line that
/// differs.
pub proof fn lemma_shared_prefix_is_longest(a: Seq<Seq<char>>, b: Seq<Seq<char>>)
    ensures
        ({
            let k = shared_prefix_len(a, b);
            &&& 0 <= k <= a.len()
            &&& k <= b.len()
            &&& a.take(k) == b.take(k)
            &&& (k == a.len() || k == b.len() || a[k] != b[k])
        }),
{
    lemma_shared_from_agrees(a, b, 0);
    let k = shared_prefix_len(a, b);
    assert(a.take(k) =~= b.take(k));
}

/// Whether the last `k` lines of `old` are the first `k` lines of `new`.
fn lines_overlap(old: &Vec<Vec<char>>, new: &Vec<Vec<char>>, k: usize) -> (r: bool)
    requires
        k <= old@.len(),
        k <= new@.len(),
    ensures
        r == overlap_matches(old.deep_view(), new.deep_view(), k as int),
{
    let ghost o = old.deep_view();
    let ghost w = new.deep_view();
    let base = old.len() - k;
    for t in 0..k
        invariant
            k <= old@.len(),
            k <= new@.len(),
            base == old@.len() - k,
            base + k == old@.len(),
            old@.len() <= usize::MAX,
            o == old.deep_view(),
            w == new.deep_view(),
            forall|j: int| 0 <= j < t ==> o[base + j] == w[j],
    {
        proof {
            crate::text::lemma_char_vec_deep_view(old@[base + t]);
            crate::text::lemma_char_vec_deep_view(new@[t as int]);
        }
        if !chars_equal(old[base + t].as_slice(), new[t].as_slice()) {
            assert(o.subrange(base as int, o.len() as int)[t as int] != w.take(k as int)[t as int]);
            return false;
        }
    }
    assert(o.subrange(base as int, o.len() as int) =~= w.take(k as int));
    true
}

/// The length of the longest suffix of `old` that is a prefix of `new`.
pub fn suffix_prefix_overlap(old: &Vec<Vec<char>>, new: &Vec<Vec<char>>) -> (r: usize)
    ensures
        r == overlap_len(old.deep_view(), new.deep_view()),
{
    let maximum = if old.len() < new.len() {
        old.len()
    } else {
        new.len()
    };
    let mut length = maximum;
    while length > 0
        invariant
            length <= maximum,
            maximum <= old@.len(),
            maximum <= new@.len(),
            maximum == (if old@.len() < new@.len() {
                old@.len()
            } else {
                new@.len()
            }),
            overlap_len(old.deep_view(), new.deep_view()) == overlap_upto(
                old.deep_view(),
                new.deep_view(),
                length as int,
            ),
        decreases length,
    {
        if lines_overlap(old, new, length) {
            return length;
        }
        length = length - 1;
    }
    0
}

/// The length of the longest common prefix of `a` and `b`.
fn shared_prefix(a: &Vec<Vec<char>>, b: &Vec<Vec<char>>) -> (r: usize)
    ensures
        r == shared_prefix_len(a.deep_view(), b.deep_view()),
{
    let mut i: usize = 0;
    let ghost x = a.deep_view();
    let ghost y = b.deep_view();
    while i < a.len() && i < b.len()
        invariant
            x == a.deep_view(),
            y == b.deep_view(),
            i <= a@.len(),
            shared_prefix_len(x, y) == shared_from(x, y, i as int),
        decreases a@.len() - i,
    {
        proof {
            crate::text::lemma_char_vec_deep_view(a@[i as int]);
            crate::text::lemma_char_vec_deep_view(b@[i as int]);
        }
        if !chars_equal(a[i].as_slice(), b[i].as_slice()) {
            return i;
        }
        i = i + 1;
    }
    i
}

/// Remembers the lines of the last capture of a pane, to tell which lines of
/// the next capture are new.
pub struct CaptureTracker {
    previous: Vec<Vec<char>>,
}

impl View for CaptureTracker {
    type V = Seq<Seq<char>>;

    closed spec fn view(&self) -> Seq<Seq<char>> {
        self.previous.deep_view()
    }
}

impl CaptureTracker {
    /// A tracker that has seen nothing yet.
    pub fn new() -> (t: CaptureTracker)
        ensures
            t@ == Seq::<Seq<char>>::empty(),
    {
        let t = CaptureTracker { previous: Vec::new() };
        assert(t@ =~= Seq::<Seq<char>>::empty());
        t
    }

    /// Records a capture and returns the text of its lines that are new
    /// since the previous capture (see [`fresh_text`]).
    pub fn observe(&mut self, capture: &str) -> (fresh: String)
        ensures
            final(self)@ == lines(capture@),
            fresh@ == fresh_text(old(self)@, lines(capture@)),
    {
        let chars = chars_of(capture);
        let current = split_lines(chars.as_slice());
        if self.previous.len() == 0 {
            self.previous = current;
            return String::new();
        }
        proof {
            lemma_overlap_len(self.previous.deep_view(), current.deep_view());
            lemma_shared_prefix_len(self.previous.deep_view(), current.deep_view());
        }
        let overlap = suffix_prefix_overlap(&self.previous, &current);
        let start = if overlap > 0 {
            overlap
        } else {
            shared_prefix(&self.previous, &current)
        };
        let newline = vec!['\n'];
        assert(newline@ =~= seq!['\n']);
        let fresh = join_from(&current, start, newline.as_slice());
        self.previous = current;
        string_from_chars(fresh.as_slice())
    }
}

impl Default for CaptureTracker {
    fn default() -> (t: CaptureTracker)
        ensures
            t@ == Seq::<Seq<char>>::empty(),
    {
        CaptureTracker::new()
    }
}

/// Seeing the same capture twice in a row yields no new text the second
/// time, whatever was seen before.
pub proof fn lemma_repeated_capture_is_not_fresh(capture: Seq<char>)
    ensures
        fresh_text(lines(capture), lines(capture)) == Seq::<char>::empty(),
{
    let l = lines(capture);
    if l.len() > 0 {
        assert(overlap_matches(l, l, l.len() as int)) by {
            assert(l.subrange(0, l.len() as int) =~= l.take(l.len() as int));
        }
        assert(overlap_len(l, l) == l.len());
        assert(l.skip(l.len() as int) =~= Seq::<Seq<char>>::empty());
    }
}

} // verus!
