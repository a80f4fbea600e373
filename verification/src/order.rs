//! The order of what matching returns: matches by start and branch,
//! markers by capture point.

use vstd::prelude::*;
use crate::matcher::{
    math_marker, matches_at, matches_from, run, text_marker, try_phrases, MatchView,
};
use crate::pattern::{Branch, Definition, Marker, Sentence, StepKind};
use crate::tree::DocTree;

verus! {

/// The position of the step whose capture point gave the marker.
pub open spec fn capture_of(m: Marker) -> int {
    match m {
        Marker::Text { capture, .. } => capture as int,
        Marker::Math { capture, .. } => capture as int,
    }
}

/// Whether the markers come from steps between `i` and `n`, in the order of the steps.
pub open spec fn in_capture_order(ms: Seq<Marker>, i: int, n: int) -> bool {
    &&& forall|x: int| 0 <= x < ms.len() ==> i <= capture_of(#[trigger] ms[x]) < n
    &&& forall|x: int, y: int|
        0 <= x < y < ms.len() ==> capture_of(#[trigger] ms[x]) < capture_of(#[trigger] ms[y])
}

/// Whether `a` comes before `b`: it starts earlier, or at the same token with an earlier branch.
pub open spec fn comes_before(a: MatchView, b: MatchView) -> bool {
    a.start < b.start || (a.start == b.start && a.branch < b.branch)
}

/// Whether matches that start between `lo` and `hi` come by start and then by branch.
pub open spec fn in_match_order(ms: Seq<MatchView>, lo: int, hi: int) -> bool {
    &&& forall|x: int| 0 <= x < ms.len() ==> lo <= (#[trigger] ms[x]).start < hi
    &&& forall|x: int, y: int|
        0 <= x < y < ms.len() ==> comes_before(#[trigger] ms[x], #[trigger] ms[y])
}

/// The marker of step `i`, put before markers of later steps, keeps the order.
proof fn lemma_first_marker(head: Seq<Marker>, rest: Seq<Marker>, i: int, n: int)
    requires
        0 <= i < n,
        head.len() <= 1,
        head.len() == 1 ==> capture_of(head[0]) == i,
        in_capture_order(rest, i + 1, n),
    ensures
        in_capture_order(head + rest, i, n),
{
    let all = head + rest;
    assert forall|x: int| 0 <= x < all.len() implies i <= capture_of(#[trigger] all[x]) < n by {
        if x >= head.len() {
            assert(all[x] == rest[x - head.len()]);
        }
    }
    assert forall|x: int, y: int| 0 <= x < y < all.len() implies capture_of(#[trigger] all[x])
        < capture_of(#[trigger] all[y]) by {
        assert(all[y] == rest[y - head.len()]);
        if x >= head.len() {
            assert(all[x] == rest[x - head.len()]);
        }
    }
}

/// The markers of a match name steps of its branch, each step at most once,
/// in the order of the steps.
pub proof fn lemma_markers_in_capture_order(br: Branch, s: Sentence, t: DocTree, i: int, pos: int)
    requires
        0 <= i,
        br.steps@.len() <= usize::MAX,
    ensures
        run(br, s, t, i, pos) is Some ==> in_capture_order(
            run(br, s, t, i, pos)->0,
            i,
            br.steps@.len() as int,
        ),
    decreases br.steps@.len() - i, 1int, 0int,
{
    let n = br.steps@.len() as int;
    if i < n && run(br, s, t, i, pos) is Some {
        let step = br.steps@[i];
        match step.kind {
            StepKind::Phrase(_) => {
                lemma_phrase_markers_in_capture_order(br, s, t, i, pos, 0);
            },
            StepKind::Math(shape) => {
                lemma_markers_in_capture_order(br, s, t, i + 1, pos + 1);
                let node = crate::matcher::first_tagged(t, s.tokens@[pos].math->0 as int, shape)->0;
                lemma_first_marker(
                    math_marker(step, i, node),
                    run(br, s, t, i + 1, pos + 1)->0,
                    i,
                    n,
                );
            },
            _ => {
                lemma_markers_in_capture_order(br, s, t, i + 1, pos + 1);
                lemma_first_marker(
                    text_marker(step, i, pos, pos + 1),
                    run(br, s, t, i + 1, pos + 1)->0,
                    i,
                    n,
                );
            },
        }
    }
}

/// The same where step `i` is a phrase step that takes a phrase at `p` or later.
pub proof fn lemma_phrase_markers_in_capture_order(
    br: Branch,
    s: Sentence,
    t: DocTree,
    i: int,
    pos: int,
    p: int,
)
    requires
        0 <= i < br.steps@.len() <= usize::MAX,
        0 <= p,
    ensures
        try_phrases(br, s, t, i, pos, p) is Some ==> in_capture_order(
            try_phrases(br, s, t, i, pos, p)->0,
            i,
            br.steps@.len() as int,
        ),
    decreases br.steps@.len() - i, 0int, s.phrases@.len() - p,
{
    let n = br.steps@.len() as int;
    if p < s.phrases@.len() {
        let step = br.steps@[i];
        let end = s.phrases@[p].end as int;
        let rest = match step.kind {
            StepKind::Phrase(shape) => if crate::align::node_fits(shape, s, p, pos) {
                run(br, s, t, i + 1, end)
            } else {
                None
            },
            _ => None,
        };
        match rest {
            Some(r) => {
                lemma_markers_in_capture_order(br, s, t, i + 1, end);
                lemma_first_marker(text_marker(step, i, pos, end), r, i, n);
            },
            None => {
                lemma_phrase_markers_in_capture_order(br, s, t, i, pos, p + 1);
            },
        }
    }
}

/// The matches that start at one token come in the order of the branches.
pub proof fn lemma_matches_at_in_order(def: Definition, s: Sentence, t: DocTree, start: int, b: int)
    requires
        0 <= b,
    ensures
        in_match_order(matches_at(def, s, t, start, b), start, start + 1),
        forall|x: int|
            0 <= x < matches_at(def, s, t, start, b).len() ==> b <= (#[trigger] matches_at(
                def,
                s,
                t,
                start,
                b,
            )[x]).branch < def.branches@.len(),
    decreases def.branches@.len() - b,
{
    if b < def.branches@.len() {
        lemma_matches_at_in_order(def, s, t, start, b + 1);
        let head: Seq<MatchView> = match run(def.branches@[b], s, t, 0, start) {
            Some(ms) => seq![(MatchView { start: start, branch: b, markers: ms })],
            None => Seq::empty(),
        };
        let rest = matches_at(def, s, t, start, b + 1);
        let all = matches_at(def, s, t, start, b);
        assert(all == head + rest);
        assert forall|x: int| 0 <= x < all.len() implies start <= (#[trigger] all[x]).start < start
            + 1 && b <= all[x].branch < def.branches@.len() by {
            if x >= head.len() {
                assert(all[x] == rest[x - head.len()]);
            }
        }
        assert forall|x: int, y: int| 0 <= x < y < all.len() implies comes_before(
            #[trigger] all[x],
            #[trigger] all[y],
        ) by {
            assert(all[y] == rest[y - head.len()]);
            if x >= head.len() {
                assert(all[x] == rest[x - head.len()]);
            }
        }
    }
}

/// All matches of a definition come by ascending start, and those of one
/// start in the order of the branches.
pub proof fn lemma_matches_in_order(def: Definition, s: Sentence, t: DocTree, start: int)
    requires
        0 <= start,
    ensures
        in_match_order(matches_from(def, s, t, start), start, s.tokens@.len() as int),
    decreases s.tokens@.len() - start,
{
    if start < s.tokens@.len() {
        lemma_matches_at_in_order(def, s, t, start, 0);
        lemma_matches_in_order(def, s, t, start + 1);
        let head = matches_at(def, s, t, start, 0);
        let rest = matches_from(def, s, t, start + 1);
        let all = matches_from(def, s, t, start);
        assert(all == head + rest);
        assert forall|x: int| 0 <= x < all.len() implies start <= (#[trigger] all[x]).start
            < s.tokens@.len() by {
            if x >= head.len() {
                assert(all[x] == rest[x - head.len()]);
            } else {
                assert(all[x] == head[x]);
            }
        }
        assert forall|x: int, y: int| 0 <= x < y < all.len() implies comes_before(
            #[trigger] all[x],
            #[trigger] all[y],
        ) by {
            if y < head.len() {
                assert(all[x] == head[x] && all[y] == head[y]);
            } else if x < head.len() {
                assert(all[x] == head[x]);
                assert(all[y] == rest[y - head.len()]);
            } else {
                assert(all[x] == rest[x - head.len()]);
                assert(all[y] == rest[y - head.len()]);
            }
        }
    }
}

} // verus!
