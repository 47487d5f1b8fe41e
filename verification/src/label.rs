//! Normalisation of quota-window labels ("5h limit", "Weekly limit", ...).

use crate::text::{
    ascii_lower, chars_of, contains, contains_chars, is_alphanumeric, is_whitespace, join, join_from,
    lemma_char_vec_deep_view, lowercase_ascii, string_from_chars, char_is_alphanumeric,
    char_is_whitespace,
};
use vstd::string::StringExecFns;
use vstd::prelude::*;

verus! {

/// `s` without its leading non-alphanumeric characters.
pub open spec fn trim_start_non_alnum(s: Seq<char>) -> Seq<char>
    decreases s.len(),
{
    if s.len() > 0 && !char_is_alphanumeric(s[0]) {
        trim_start_non_alnum(s.drop_first())
    } else {
        s
    }
}

/// `s` without its trailing non-alphanumeric characters.
pub open spec fn trim_end_non_alnum(s: Seq<char>) -> Seq<char>
    decreases s.len(),
{
    if s.len() > 0 && !char_is_alphanumeric(s.last()) {
        trim_end_non_alnum(s.drop_last())
    } else {
        s
    }
}

/// `str::trim_matches(|c| !c.is_alphanumeric())`.
pub open spec fn trim_non_alnum(s: Seq<char>) -> Seq<char> {
    trim_end_non_alnum(trim_start_non_alnum(s))
}

/// Scanning `s` from the left: the words already ended by whitespace, and
/// the word being read.
pub open spec fn word_scan(s: Seq<char>) -> (Seq<Seq<char>>, Seq<char>)
    decreases s.len(),
{
    if s.len() == 0 {
        (Seq::empty(), Seq::empty())
    } else {
        let prev = word_scan(s.drop_last());
        if char_is_whitespace(s.last()) {
            if prev.1.len() > 0 {
                (prev.0.push(prev.1), Seq::empty())
            } else {
                (prev.0, Seq::empty())
            }
        } else {
            (prev.0, prev.1.push(s.last()))
        }
    }
}

/// `str::split_whitespace`: the maximal non-empty runs of non-whitespace.
pub open spec fn words(s: Seq<char>) -> Seq<Seq<char>> {
    let st = word_scan(s);
    if st.1.len() > 0 {
        st.0.push(st.1)
    } else {
        st.0
    }
}

/// The label trimmed of non-alphanumeric characters at both ends, its words
/// joined by single spaces, in ASCII lower case.
pub open spec fn collapsed_label(label: Seq<char>) -> Seq<char> {
    join(words(trim_non_alnum(label)), seq![' ']).map_values(|c: char| ascii_lower(c))
}

/// The normalised label: every label that mentions "weekly" is the weekly
/// window, every other label that mentions "5h" or "5 h" the five-hour window.
pub open spec fn normalized_label(label: Seq<char>) -> Seq<char> {
    let n = collapsed_label(label);
    if contains(n, "weekly"@) {
        "weekly limit"@
    } else if contains(n, "5h"@) || contains(n, "5 h"@) {
        "5h limit"@
    } else {
        n
    }
}

/// The characters of `s` strictly between its first and last alphanumeric
/// characters, both included.
fn trim_chars(s: &[char]) -> (r: Vec<char>)
    ensures
        r@ == trim_non_alnum(s@),
{
    let n = s.len();
    let mut start: usize = 0;
    assert(s@.skip(0) =~= s@);
    while start < n && !is_alphanumeric(s[start])
        invariant
            n == s@.len(),
            start <= n,
            trim_start_non_alnum(s@) == trim_start_non_alnum(s@.skip(start as int)),
        decreases n - start,
    {
        assert(s@.skip(start as int).drop_first() =~= s@.skip(start + 1));
        start = start + 1;
    }
    assert(trim_start_non_alnum(s@) == s@.subrange(start as int, n as int)) by {
        assert(s@.skip(start as int) =~= s@.subrange(start as int, n as int));
    }
    let mut end: usize = n;
    while end > start && !is_alphanumeric(s[end - 1])
        invariant
            n == s@.len(),
            start <= end <= n,
            trim_non_alnum(s@) == trim_end_non_alnum(s@.subrange(start as int, end as int)),
        decreases end,
    {
        assert(s@.subrange(start as int, end as int).drop_last() =~= s@.subrange(
            start as int,
            end - 1,
        ));
        end = end - 1;
    }
    let mut r: Vec<char> = Vec::new();
    for i in start..end
        invariant
            n == s@.len(),
            start <= end <= n,
            r@ == s@.subrange(start as int, i as int),
    {
        r.push(s[i]);
        assert(s@.subrange(start as int, i + 1) =~= s@.subrange(start as int, i as int).push(
            s@[i as int],
        ));
    }
    r
}

/// `str::split_whitespace`.
fn split_words(s: &[char]) -> (res: Vec<Vec<char>>)
    ensures
        res.deep_view() == words(s@),
{
    let mut done: Vec<Vec<char>> = Vec::new();
    let mut cur: Vec<char> = Vec::new();
    let n = s.len();
    for i in 0..n
        invariant
            n == s@.len(),
            (done.deep_view(), cur@) == word_scan(s@.take(i as int)),
    {
        assert(s@.take(i + 1).drop_last() =~= s@.take(i as int));
        let c = s[i];
        if is_whitespace(c) {
            if cur.len() > 0 {
                let ghost before = done.deep_view();
                let word = cur;
                proof {
                    lemma_char_vec_deep_view(word);
                }
                done.push(word);
                assert(done.deep_view() =~= before.push(word@));
                cur = Vec::new();
            }
        } else {
            cur.push(c);
        }
    }
    assert(s@.take(n as int) =~= s@);
    if cur.len() > 0 {
        let ghost before = done.deep_view();
        let word = cur;
        proof {
            lemma_char_vec_deep_view(word);
        }
        done.push(word);
        assert(done.deep_view() =~= before.push(word@));
    }
    done
}

/// Normalises a quota-window label (see [`normalized_label`]).
pub fn normalize_label(label: &str) -> (r: String)
    ensures
        r@ == normalized_label(label@),
{
    let chars = chars_of(label);
    let trimmed = trim_chars(chars.as_slice());
    let parts = split_words(trimmed.as_slice());
    let space = vec![' '];
    let joined = join_from(&parts, 0, space.as_slice());
    proof {
        assert(parts.deep_view().skip(0) =~= parts.deep_view());
        assert(space@ =~= seq![' ']);
    }
    let lowered = lowercase_ascii(joined.as_slice());
    let weekly = chars_of("weekly");
    let five_h = chars_of("5h");
    let five_space_h = chars_of("5 h");
    if contains_chars(lowered.as_slice(), weekly.as_slice()) {
        String::from_str("weekly limit")
    } else if contains_chars(lowered.as_slice(), five_h.as_slice()) || contains_chars(
        lowered.as_slice(),
        five_space_h.as_slice(),
    ) {
        String::from_str("5h limit")
    } else {
        string_from_chars(lowered.as_slice())
    }
}


// ---------------------------------------------------------------------------
// Normalising twice changes nothing
// ---------------------------------------------------------------------------

/// An alphanumeric character is no whitespace.
pub proof fn lemma_alphanumeric_not_whitespace(c: char)
    ensures
        char_is_alphanumeric(c) ==> !char_is_whitespace(c),
{
}

/// A word: non-empty, without whitespace.
pub open spec fn clean_word(w: Seq<char>) -> bool {
    w.len() > 0 && forall|i: int| 0 <= i < w.len() ==> !char_is_whitespace(#[trigger] w[i])
}

/// A label in normal form: empty or from an alphanumeric character to an
/// alphanumeric character, its words separated by single spaces, in ASCII
/// lower case.
pub open spec fn canonical_label(s: Seq<char>) -> bool {
    &&& (s.len() == 0 || (char_is_alphanumeric(s[0]) && char_is_alphanumeric(s.last())))
    &&& forall|i: int| 0 <= i < s.len() ==> #[trigger] s[i] == ' ' || !char_is_whitespace(s[i])
    &&& forall|i: int| 0 <= i < s.len() - 1 ==> !(#[trigger] s[i] == ' ' && s[i + 1] == ' ')
    &&& forall|i: int| 0 <= i < s.len() ==> ascii_lower(#[trigger] s[i]) == s[i]
}

proof fn lemma_trim_start(s: Seq<char>)
    ensures
        trim_start_non_alnum(s).len() == 0 || char_is_alphanumeric(trim_start_non_alnum(s)[0]),
    decreases s.len(),
{
    if s.len() > 0 && !char_is_alphanumeric(s[0]) {
        lemma_trim_start(s.drop_first());
    }
}

proof fn lemma_trim_end(u: Seq<char>)
    requires
        u.len() == 0 || char_is_alphanumeric(u[0]),
    ensures
        trim_end_non_alnum(u).len() == 0 || (char_is_alphanumeric(trim_end_non_alnum(u)[0])
            && char_is_alphanumeric(trim_end_non_alnum(u).last())),
    decreases u.len(),
{
    if u.len() > 0 && !char_is_alphanumeric(u.last()) {
        assert(u.len() > 1);
        assert(u.drop_last()[0] == u[0]);
        lemma_trim_end(u.drop_last());
    }
}

/// A label trimmed of non-alphanumeric characters is empty or begins and
/// ends with alphanumeric characters, and trimming such a label changes
/// nothing.
proof fn lemma_trim(s: Seq<char>)
    ensures
        trim_non_alnum(s).len() == 0 || (char_is_alphanumeric(trim_non_alnum(s)[0])
            && char_is_alphanumeric(trim_non_alnum(s).last())),
        (s.len() == 0 || (char_is_alphanumeric(s[0]) && char_is_alphanumeric(s.last())))
            ==> trim_non_alnum(s) == s,
{
    lemma_trim_start(s);
    lemma_trim_end(trim_start_non_alnum(s));
}

/// The words read so far are words, the word being read has no whitespace,
/// the first word begins with the first character where that is no
/// whitespace, and the word being read ends with the last character where
/// that is no whitespace.
proof fn lemma_word_scan(s: Seq<char>)
    ensures
        ({
            let (done, cur) = word_scan(s);
            &&& forall|k: int| 0 <= k < done.len() ==> clean_word(#[trigger] done[k])
            &&& forall|i: int| 0 <= i < cur.len() ==> !char_is_whitespace(#[trigger] cur[i])
            &&& (s.len() > 0 && !char_is_whitespace(s[0])) ==> ((done.len() > 0 && done[0].len() > 0
                && done[0][0] == s[0]) || (done.len() == 0 && cur.len() > 0 && cur[0] == s[0]))
            &&& (s.len() > 0 && !char_is_whitespace(s.last())) ==> (cur.len() > 0 && cur.last()
                == s.last())
        }),
    decreases s.len(),
{
    if s.len() > 0 {
        let p = s.drop_last();
        lemma_word_scan(p);
        let (done, cur) = word_scan(p);
        if p.len() > 0 {
            assert(p[0] == s[0]);
        }
        let (d2, c2) = word_scan(s);
        if char_is_whitespace(s.last()) {
            if cur.len() > 0 {
                assert(clean_word(cur));
                assert forall|k: int| 0 <= k < d2.len() implies clean_word(#[trigger] d2[k]) by {
                    if k < done.len() {
                        assert(d2[k] == done[k]);
                    }
                }
            }
        } else {
            assert forall|i: int| 0 <= i < c2.len() implies !char_is_whitespace(#[trigger] c2[i]) by {
                if i < cur.len() {
                    assert(c2[i] == cur[i]);
                }
            }
            if cur.len() > 0 {
                assert(c2[0] == cur[0]);
            }
        }
    }
}

/// Joining words: the first character of the first word, the last of the
/// last, only spaces and characters of the words, and no two spaces in a
/// row.
proof fn lemma_join_words(parts: Seq<Seq<char>>)
    requires
        forall|k: int| 0 <= k < parts.len() ==> clean_word(#[trigger] parts[k]),
    ensures
        ({
            let j = join(parts, seq![' ']);
            &&& parts.len() > 0 ==> (j.len() > 0 && j[0] == parts[0][0] && j.last()
                == parts.last().last())
            &&& forall|i: int| 0 <= i < j.len() ==> #[trigger] j[i] == ' ' || !char_is_whitespace(j[i])
            &&& forall|i: int| 0 <= i < j.len() - 1 ==> !(#[trigger] j[i] == ' ' && j[i + 1] == ' ')
        }),
    decreases parts.len(),
{
    let j = join(parts, seq![' ']);
    if parts.len() == 1 {
        assert(clean_word(parts[0]));
    } else if parts.len() > 1 {
        let init = parts.drop_last();
        assert forall|k: int| 0 <= k < init.len() implies clean_word(#[trigger] init[k]) by {
            assert(init[k] == parts[k]);
        }
        lemma_join_words(init);
        let a = join(init, seq![' ']);
        let w = parts.last();
        assert(clean_word(parts[parts.len() - 1]));
        assert(j == a + seq![' '] + w);
        assert(init[0] == parts[0]);
        assert(!char_is_whitespace(w[0]));
        assert(!char_is_whitespace(a.last())) by {
            assert(clean_word(init[init.len() - 1]));
            assert(init.last().last() == init.last()[init.last().len() - 1]);
        }
        assert forall|i: int| 0 <= i < j.len() implies #[trigger] j[i] == ' ' || !char_is_whitespace(
            j[i],
        ) by {
            if i < a.len() {
                assert(j[i] == a[i]);
            } else if i > a.len() {
                assert(j[i] == w[i - a.len() - 1]);
            }
        }
        assert forall|i: int| 0 <= i < j.len() - 1 implies !(#[trigger] j[i] == ' ' && j[i + 1]
            == ' ') by {
            if i < a.len() - 1 {
                assert(j[i] == a[i] && j[i + 1] == a[i + 1]);
            } else if i == a.len() - 1 {
                assert(j[i] == a.last());
            } else if i == a.len() {
                assert(j[i + 1] == w[0]);
            } else {
                assert(j[i + 1] == w[i + 1 - a.len() - 1]);
            }
        }
        assert(j.last() == w.last());
    }
}

/// Reading the first `i` characters of a string of words separated by single
/// spaces: after a space the words read so far join to the prefix without
/// that space, otherwise the words read and the word being read join to it.
proof fn lemma_join_prefix(s: Seq<char>, i: int)
    requires
        1 <= i <= s.len(),
        !char_is_whitespace(s[0]),
        forall|k: int| 0 <= k < s.len() ==> #[trigger] s[k] == ' ' || !char_is_whitespace(s[k]),
        forall|k: int| 0 <= k < s.len() - 1 ==> !(#[trigger] s[k] == ' ' && s[k + 1] == ' '),
    ensures
        ({
            let (d, c) = word_scan(s.take(i));
            if s[i - 1] == ' ' {
                c.len() == 0 && d.len() > 0 && join(d, seq![' ']) + seq![' '] == s.take(i)
            } else {
                c.len() > 0 && join(d.push(c), seq![' ']) == s.take(i)
            }
        }),
    decreases i,
{
    if i == 1 {
        let q = s.take(1);
        assert(q.drop_last() =~= Seq::<char>::empty());
        assert(q.last() == s[0]);
        assert(word_scan(q.drop_last()).0.len() == 0);
        assert(word_scan(q.drop_last()).1.len() == 0);
        assert(!char_is_whitespace(q.last()));
        let (d, c) = word_scan(q);
        assert(d.len() == 0);
        assert(c =~= seq![s[0]]);
        assert(d.push(c) =~= seq![seq![s[0]]]);
        assert(join(d.push(c), seq![' ']) == c);
        assert(q =~= seq![s[0]]);
    } else {
        let j = i - 1;
        lemma_join_prefix(s, j);
        let p = s.take(j);
        let q = s.take(i);
        assert(q.drop_last() =~= p);
        assert(q.last() == s[j]);
        let (d, c) = word_scan(p);
        let ch = s[j];
        if ch == ' ' {
            assert(s[j - 1] != ' ');
            assert(char_is_whitespace(' '));
            assert(q =~= p + seq![' ']);
            assert(d.push(c).len() > 0);
        } else {
            assert(!char_is_whitespace(ch));
            if s[j - 1] == ' ' {
                let d2 = d.push(seq![ch]);
                assert(d2.drop_last() =~= d);
                assert(join(d2, seq![' ']) == join(d, seq![' ']) + seq![' '] + seq![ch]);
                assert(q =~= join(d, seq![' ']) + seq![' '] + seq![ch]);
                assert(c.push(ch) =~= seq![ch]);
            } else {
                let d1 = d.push(c);
                let d2 = d.push(c.push(ch));
                assert(d1.drop_last() =~= d && d2.drop_last() =~= d);
                if d.len() == 0 {
                    assert(join(d2, seq![' ']) == c.push(ch));
                    assert(join(d1, seq![' ']) == c);
                } else {
                    assert(join(d2, seq![' ']) == join(d, seq![' ']) + seq![' '] + c.push(ch));
                    assert(join(d1, seq![' ']) == join(d, seq![' ']) + seq![' '] + c);
                }
                assert(q =~= join(d1, seq![' ']).push(ch));
                assert(join(d2, seq![' ']) =~= join(d1, seq![' ']).push(ch));
            }
        }
    }
}

/// A string of words separated by single spaces splits into words that join
/// back to it.
proof fn lemma_join_of_words(s: Seq<char>)
    requires
        s.len() == 0 || (!char_is_whitespace(s[0]) && !char_is_whitespace(s.last())),
        forall|i: int| 0 <= i < s.len() ==> #[trigger] s[i] == ' ' || !char_is_whitespace(s[i]),
        forall|i: int| 0 <= i < s.len() - 1 ==> !(#[trigger] s[i] == ' ' && s[i + 1] == ' '),
    ensures
        join(words(s), seq![' ']) == s,
{
    if s.len() > 0 {
        lemma_join_prefix(s, s.len() as int);
        assert(s.take(s.len() as int) =~= s);
        assert(s[s.len() - 1] == s.last());
        assert(char_is_whitespace(' '));
    } else {
        assert(words(s).len() == 0);
    }
}

/// ASCII lower case keeps alphanumeric characters alphanumeric, other
/// characters other than whitespace, and the space a space.
proof fn lemma_lower_char(c: char)
    ensures
        char_is_alphanumeric(c) ==> char_is_alphanumeric(ascii_lower(c)),
        !char_is_whitespace(c) ==> !char_is_whitespace(ascii_lower(c)),
        (ascii_lower(c) == ' ') == (c == ' '),
        ascii_lower(ascii_lower(c)) == ascii_lower(c),
{
}

/// Every collapsed label is in normal form.
proof fn lemma_collapsed_canonical(label: Seq<char>)
    ensures
        canonical_label(collapsed_label(label)),
{
    let t = trim_non_alnum(label);
    lemma_trim(label);
    let w = words(t);
    lemma_word_scan(t);
    let (done, cur) = word_scan(t);
    if t.len() > 0 {
        lemma_alphanumeric_not_whitespace(t[0]);
        lemma_alphanumeric_not_whitespace(t.last());
        assert(w == done.push(cur));
        assert forall|k: int| 0 <= k < w.len() implies clean_word(#[trigger] w[k]) by {
            if k < done.len() {
                assert(w[k] == done[k]);
            } else {
                assert(w[k] == cur);
            }
        }
        assert(w[0][0] == t[0]);
        assert(w.last().last() == t.last());
    } else {
        assert(word_scan(t).0.len() == 0 && word_scan(t).1.len() == 0);
        assert(w.len() == 0);
    }
    lemma_join_words(w);
    let j = join(w, seq![' ']);
    let n = collapsed_label(label);
    assert(n == j.map_values(|c: char| ascii_lower(c)));
    assert forall|i: int| 0 <= i < n.len() implies #[trigger] n[i] == ' ' || !char_is_whitespace(n[i])
        && ascii_lower(n[i]) == n[i] by {
        lemma_lower_char(j[i]);
    }
    assert forall|i: int| 0 <= i < n.len() - 1 implies !(#[trigger] n[i] == ' ' && n[i + 1] == ' ') by {
        lemma_lower_char(j[i]);
        lemma_lower_char(j[i + 1]);
    }
    assert forall|i: int| 0 <= i < n.len() implies ascii_lower(#[trigger] n[i]) == n[i] by {
        lemma_lower_char(j[i]);
    }
    if n.len() > 0 {
        lemma_lower_char(j[0]);
        lemma_lower_char(j.last());
        assert(n.last() == ascii_lower(j[j.len() - 1]));
    }
}

/// A label in normal form collapses to itself.
proof fn lemma_canonical_collapses_to_itself(s: Seq<char>)
    requires
        canonical_label(s),
    ensures
        collapsed_label(s) == s,
{
    lemma_trim(s);
    if s.len() > 0 {
        lemma_alphanumeric_not_whitespace(s[0]);
        lemma_alphanumeric_not_whitespace(s.last());
        assert(s.last() == s[s.len() - 1]);
    }
    lemma_join_of_words(s);
    assert(s.map_values(|c: char| ascii_lower(c)) =~= s);
}

proof fn lemma_fixed_labels()
    ensures
        canonical_label("weekly limit"@),
        canonical_label("5h limit"@),
        contains("weekly limit"@, "weekly"@),
        !contains("5h limit"@, "weekly"@),
        contains("5h limit"@, "5h"@),
{
    reveal_strlit("weekly limit");
    reveal_strlit("5h limit");
    reveal_strlit("weekly");
    reveal_strlit("5h");
    let a = "weekly limit"@;
    let b = "5h limit"@;
    assert(a =~= seq!['w', 'e', 'e', 'k', 'l', 'y', ' ', 'l', 'i', 'm', 'i', 't']);
    assert(b =~= seq!['5', 'h', ' ', 'l', 'i', 'm', 'i', 't']);
    assert(a.subrange(0, 6) =~= "weekly"@);
    assert(crate::text::occurs_at(a, "weekly"@, 0));
    assert(b.subrange(0, 2) =~= "5h"@);
    assert(crate::text::occurs_at(b, "5h"@, 0));
    assert forall|i: int| !crate::text::occurs_at(b, "weekly"@, i) by {
        if crate::text::occurs_at(b, "weekly"@, i) {
            assert(b.subrange(i, i + 6)[0] == "weekly"@[0]);
            assert(b[i] == 'w');
        }
    }
    assert forall|i: int| 0 <= i < a.len() implies #[trigger] a[i] == ' ' || !char_is_whitespace(a[i])
        by {}
    assert forall|i: int| 0 <= i < b.len() implies #[trigger] b[i] == ' ' || !char_is_whitespace(b[i])
        by {}
    assert forall|i: int| 0 <= i < a.len() implies ascii_lower(#[trigger] a[i]) == a[i] by {}
    assert forall|i: int| 0 <= i < b.len() implies ascii_lower(#[trigger] b[i]) == b[i] by {}
    assert forall|i: int| 0 <= i < a.len() - 1 implies !(#[trigger] a[i] == ' ' && a[i + 1] == ' ')
        by {}
    assert forall|i: int| 0 <= i < b.len() - 1 implies !(#[trigger] b[i] == ' ' && b[i + 1] == ' ')
        by {}
}

/// Normalising a normalised label changes nothing.
pub proof fn lemma_normalize_idempotent(label: Seq<char>)
    ensures
        normalized_label(normalized_label(label)) == normalized_label(label),
{
    let n = collapsed_label(label);
    lemma_fixed_labels();
    let r = normalized_label(label);
    if contains(n, "weekly"@) || contains(n, "5h"@) || contains(n, "5 h"@) {
        lemma_canonical_collapses_to_itself(r);
    } else {
        lemma_collapsed_canonical(label);
        lemma_canonical_collapses_to_itself(n);
    }
}

} // verus!
