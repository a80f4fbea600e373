//! Alignment of the labels that a shape asks for with the children of a phrase.

use vstd::prelude::*;
use crate::pattern::{count, covers, has_window, lemma_counted_occurs, texts, window_at, Sentence, Shape};
use crate::text::same_chars;

verus! {

/// Counts the words of `words` that spell `l`.
fn count_asked(words: &Vec<Vec<char>>, l: &Vec<char>) -> (r: usize)
    ensures
        r == count(texts(words@), l@),
{
    let mut r: usize = 0;
    let mut i: usize = 0;
    while i < words.len()
        invariant
            i <= words@.len(),
            r <= i,
            r == count(texts(words@).take(i as int), l@),
        decreases words@.len() - i,
    {
        proof {
            let t = texts(words@).take(i + 1);
            assert(t.drop_last() =~= texts(words@).take(i as int));
            assert(t.last() == words@[i as int]@);
        }
        if same_chars(&words[i], l) {
            r += 1;
        }
        i += 1;
    }
    assert(texts(words@).take(words@.len() as int) =~= texts(words@));
    r
}

/// Counts the children of phrase `p` whose label is `l`.
fn count_kids(s: &Sentence, p: usize, l: &Vec<char>) -> (r: usize)
    requires
        s.wf(),
        p < s.phrases@.len(),
    ensures
        r == count(s.kid_labels(p as int), l@),
{
    let node = &s.phrases[p];
    let mut r: usize = 0;
    let mut i: usize = 0;
    while i < node.children.len()
        invariant
            s.wf(),
            p < s.phrases@.len(),
            node == &s.phrases@[p as int],
            i <= node.children@.len(),
            r <= i,
            r == count(s.kid_labels(p as int).take(i as int), l@),
        decreases node.children@.len() - i,
    {
        let c: usize = node.children[i];
        proof {
            let t = s.kid_labels(p as int).take(i + 1);
            assert(t.drop_last() =~= s.kid_labels(p as int).take(i as int));
            assert(t.last() == s.phrases@[c as int].label@);
        }
        if same_chars(&s.phrases[c].label, l) {
            r += 1;
        }
        i += 1;
    }
    assert(s.kid_labels(p as int).take(node.children@.len() as int) =~= s.kid_labels(p as int));
    r
}

/// Whether the labels asked can be given to distinct children of phrase `p`, in any order.
pub fn aligns_any_order(s: &Sentence, p: usize, asked: &Vec<Vec<char>>) -> (r: bool)
    requires
        s.wf(),
        p < s.phrases@.len(),
    ensures
        r == covers(s.kid_labels(p as int), texts(asked@)),
{
    let ghost kids = s.kid_labels(p as int);
    let ghost want = texts(asked@);
    let mut i: usize = 0;
    while i < asked.len()
        invariant
            s.wf(),
            p < s.phrases@.len(),
            kids == s.kid_labels(p as int),
            want == texts(asked@),
            i <= asked@.len(),
            forall|j: int| 0 <= j < i ==> count(want, #[trigger] want[j]) <= count(kids, want[j]),
        decreases asked@.len() - i,
    {
        let a: usize = count_asked(asked, &asked[i]);
        let b: usize = count_kids(s, p, &asked[i]);
        assert(want[i as int] == asked@[i as int]@);
        if a > b {
            assert(!(count(want, want[i as int]) <= count(kids, want[i as int])));
            return false;
        }
        i += 1;
    }
    proof {
        assert forall|l: Seq<char>| #[trigger] count(want, l) <= count(kids, l) by {
            if count(want, l) > 0 {
                lemma_counted_occurs(want, l);
                let j = choose|j: int| 0 <= j < want.len() && #[trigger] want[j] == l;
                assert(count(want, want[j]) <= count(kids, want[j]));
            }
        }
    }
    true
}

/// Whether the labels asked are those of the children of phrase `p` from position `j` on.
fn aligns_at(s: &Sentence, p: usize, asked: &Vec<Vec<char>>, j: usize) -> (r: bool)
    requires
        s.wf(),
        p < s.phrases@.len(),
        j + asked@.len() <= s.phrases@[p as int].children@.len(),
    ensures
        r == window_at(s.kid_labels(p as int), texts(asked@), j as int),
{
    let node = &s.phrases[p];
    let n: usize = node.children.len();
    let ghost kids = s.kid_labels(p as int);
    let ghost want = texts(asked@);
    let mut x: usize = 0;
    while x < asked.len()
        invariant
            s.wf(),
            n == node.children@.len(),
            p < s.phrases@.len(),
            node == &s.phrases@[p as int],
            kids == s.kid_labels(p as int),
            want == texts(asked@),
            j + asked@.len() <= node.children@.len(),
            x <= asked@.len(),
            forall|y: int| 0 <= y < x ==> kids[j + y] == #[trigger] want[y],
        decreases asked@.len() - x,
    {
        let c: usize = node.children[j + x];
        assert(kids[j + x] == s.phrases@[c as int].label@);
        assert(want[x as int] == asked@[x as int]@);
        if !same_chars(&s.phrases[c].label, &asked[x]) {
            assert(kids.subrange(j as int, j + want.len())[x as int] == kids[j + x]);
            return false;
        }
        x += 1;
    }
    assert(kids.subrange(j as int, j + want.len()) =~= want);
    true
}

/// Whether the labels asked are those of consecutive children of phrase `p`, in order.
pub fn aligns_in_order(s: &Sentence, p: usize, asked: &Vec<Vec<char>>) -> (r: bool)
    requires
        s.wf(),
        p < s.phrases@.len(),
    ensures
        r == has_window(s.kid_labels(p as int), texts(asked@)),
{
    let node = &s.phrases[p];
    let n: usize = node.children.len();
    let m: usize = asked.len();
    let ghost kids = s.kid_labels(p as int);
    let ghost want = texts(asked@);
    if m > n {
        assert(forall|j: int| !window_at(kids, want, j));
        return false;
    }
    let last: usize = n - m;
    let mut j: usize = 0;
    while j < last
        invariant
            last == n - m,
            s.wf(),
            p < s.phrases@.len(),
            node == &s.phrases@[p as int],
            n == node.children@.len(),
            m == asked@.len(),
            m <= n,
            kids == s.kid_labels(p as int),
            want == texts(asked@),
            j <= last,
            forall|y: int| 0 <= y < j ==> !window_at(kids, want, y),
        decreases last - j,
    {
        if aligns_at(s, p, asked, j) {
            return true;
        }
        j += 1;
    }
    let r = aligns_at(s, p, asked, last);
    assert(!r ==> forall|y: int| !window_at(kids, want, y));
    r
}

/// Whether phrase `p` starts at token `pos` and has the shape asked for.
pub open spec fn node_fits(shape: Shape, s: Sentence, p: int, pos: int) -> bool {
    &&& s.phrases@[p].first == pos
    &&& pos <= s.phrases@[p].end
    &&& s.phrases@[p].label@ == shape.label@
    &&& if shape.any_order {
        covers(s.kid_labels(p), texts(shape.children@))
    } else {
        has_window(s.kid_labels(p), texts(shape.children@))
    }
}

/// Decides `node_fits`.
pub fn fits(shape: &Shape, s: &Sentence, p: usize, pos: usize) -> (r: bool)
    requires
        s.wf(),
        p < s.phrases@.len(),
    ensures
        r == node_fits(*shape, *s, p as int, pos as int),
{
    let node = &s.phrases[p];
    if node.first != pos || node.end < pos {
        return false;
    }
    if !same_chars(&node.label, &shape.label) {
        return false;
    }
    if shape.any_order {
        aligns_any_order(s, p, &shape.children)
    } else {
        aligns_in_order(s, p, &shape.children)
    }
}

} // verus!
