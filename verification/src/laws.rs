//! What holds of every narrative model, whatever the tree and the configuration.

use vstd::prelude::*;
use crate::dnm::{
    class_policy, dnm_children_spans, dnm_children_text, dnm_spans, dnm_text, policy_of, unit_span, DnmConfig,
    Span, TagPolicy,
};
use crate::range::{leaf_children_text, leaf_text};
use crate::tree::DocTree;

verus! {

/// Without policies for classes no class name has one.
pub proof fn lemma_no_class_policy(cfg: DnmConfig, classes: Seq<Vec<char>>, from: int)
    requires
        cfg.class_policies@.len() == 0,
    ensures
        class_policy(cfg, classes, from) is None,
    decreases classes.len() - from,
{
    if 0 <= from < classes.len() {
        lemma_no_class_policy(cfg, classes, from + 1);
    }
}

/// With no policy for any tag name or class, the text of a subtree is the
/// content of its text leaves in document order, each normalized as the
/// configuration asks.
pub proof fn lemma_text_fidelity(t: DocTree, cfg: DnmConfig, n: int)
    requires
        cfg.name_policies@.len() == 0,
        cfg.class_policies@.len() == 0,
    ensures
        dnm_text(t, cfg, n) == leaf_text(t, n, cfg.normalize_unicode, cfg.normalize_whitespace),
    decreases t.nodes@.len() - n, 1int, 0int,
{
    if 0 <= n < t.nodes@.len() {
        lemma_no_class_policy(cfg, t.nodes@[n].classes@, 0);
        assert(policy_of(cfg, t.nodes@[n]) is None);
        if !t.nodes@[n].is_text {
            lemma_children_text_fidelity(t, cfg, n, 0);
        }
    }
}

/// The same of the children of a node from position `k` on.
pub proof fn lemma_children_text_fidelity(t: DocTree, cfg: DnmConfig, n: int, k: int)
    requires
        cfg.name_policies@.len() == 0,
        cfg.class_policies@.len() == 0,
    ensures
        dnm_children_text(t, cfg, n, k) == leaf_children_text(
            t,
            n,
            k,
            cfg.normalize_unicode,
            cfg.normalize_whitespace,
        ),
    decreases t.nodes@.len() - n, 0int, t.nodes@[n].children@.len() - k,
{
    if 0 <= n < t.nodes@.len() && 0 <= k < t.nodes@[n].children@.len() {
        let c = t.nodes@[n].children@[k] as int;
        if n < c < t.nodes@.len() {
            lemma_text_fidelity(t, cfg, c);
        }
        lemma_children_text_fidelity(t, cfg, n, k + 1);
    }
}

/// A subtree under `Skip` gives no character and no map entry, wherever its
/// text would start.
pub proof fn lemma_skip_gives_nothing(t: DocTree, cfg: DnmConfig, n: int, off: int)
    requires
        0 <= n < t.nodes@.len(),
        policy_of(cfg, t.nodes@[n]) == Some(TagPolicy::Skip),
    ensures
        dnm_text(t, cfg, n).len() == 0,
        dnm_spans(t, cfg, n, off).len() == 0,
{
}

/// A subtree under `NormalizeToLabel` gives exactly the label, and where the
/// map is kept, one entry that spans the label and names the node that bears
/// the policy.
pub proof fn lemma_label_is_exact(t: DocTree, cfg: DnmConfig, n: int, off: int, label: Vec<char>)
    requires
        0 <= n < t.nodes@.len(),
        policy_of(cfg, t.nodes@[n]) == Some(TagPolicy::NormalizeToLabel(label)),
    ensures
        dnm_text(t, cfg, n) == label@,
        dnm_spans(t, cfg, n, off) == unit_span(cfg, off, label@.len() as int, n),
        cfg.back_mapping ==> dnm_spans(t, cfg, n, off).len() == 1 && dnm_spans(t, cfg, n, off)[0]
            == (Span { start: off as usize, end: (off + label@.len()) as usize, node: n as usize }),
{
}

/// Whether `m` is `a` or lies below it.
pub open spec fn under(t: DocTree, a: int, m: int) -> bool
    decreases m,
{
    m == a || (0 <= m < t.nodes@.len() && match t.nodes@[m].parent {
        Some(p) => p < m && under(t, a, p as int),
        None => false,
    })
}

/// Whether the walk from `n` comes to `m`: `m` is `n`, or lies below it with
/// no policy and no text leaf on the way from `n` down to the parent of `m`.
pub open spec fn reaches(t: DocTree, cfg: DnmConfig, n: int, m: int) -> bool
    decreases m,
{
    m == n || (0 <= m < t.nodes@.len() && match t.nodes@[m].parent {
        Some(p) => p < m && policy_of(cfg, t.nodes@[p as int]) is None && !t.nodes@[p as int].is_text
            && reaches(t, cfg, n, p as int),
        None => false,
    })
}

/// What holds of a map entry of the subtree at `n` whose text runs from `lo` to `hi`.
pub open spec fn entry_ok(t: DocTree, cfg: DnmConfig, n: int, lo: int, hi: int, e: Span) -> bool {
    &&& lo <= e.start <= e.end <= hi
    &&& e.node < t.nodes@.len()
    &&& reaches(t, cfg, n, e.node as int)
    &&& policy_of(cfg, t.nodes@[e.node as int]) != Some(TagPolicy::Skip)
}

/// What holds of the map entries of one subtree together.
pub open spec fn entries_ok(t: DocTree, cfg: DnmConfig, n: int, lo: int, hi: int, es: Seq<Span>) -> bool {
    &&& forall|i: int| 0 <= i < es.len() ==> entry_ok(t, cfg, n, lo, hi, #[trigger] es[i])
    &&& forall|i: int, j: int| 0 <= i < j < es.len() ==> (#[trigger] es[i]).end <= (#[trigger] es[j]).start
}

/// A node lies after every node that it is under.
pub proof fn lemma_under_is_later(t: DocTree, a: int, m: int)
    requires
        under(t, a, m),
    ensures
        a <= m,
    decreases m,
{
    if m != a {
        lemma_under_is_later(t, a, t.nodes@[m].parent->0 as int);
    }
}

/// What the walk from a child comes to, the walk from its parent comes to
/// as well, where the parent bears no policy and is no text leaf.
pub proof fn lemma_reaches_from_parent(t: DocTree, cfg: DnmConfig, n: int, c: int, m: int)
    requires
        0 <= n < c < t.nodes@.len() <= usize::MAX,
        t.nodes@[c].parent == Some(n as usize),
        policy_of(cfg, t.nodes@[n]) is None,
        !t.nodes@[n].is_text,
        reaches(t, cfg, c, m),
    ensures
        reaches(t, cfg, n, m),
    decreases m,
{
    if m == c {
        assert(reaches(t, cfg, n, n));
        assert(t.nodes@[c].parent->0 as int == n);
    } else if m != n {
        let p = t.nodes@[m].parent->0 as int;
        assert(reaches(t, cfg, c, p));
        lemma_reaches_from_parent(t, cfg, n, c, p);
    }
}

/// Every map entry of a subtree lies within the text of the subtree and
/// names a node that the walk came to and that is not skipped; the entries
/// follow one another without overlap.
pub proof fn lemma_spans_are_sound(t: DocTree, cfg: DnmConfig, n: int, off: int)
    requires
        t.wf(),
        0 <= n < t.nodes@.len() <= usize::MAX,
        0 <= off,
        off + dnm_text(t, cfg, n).len() <= usize::MAX,
    ensures
        entries_ok(t, cfg, n, off, off + dnm_text(t, cfg, n).len(), dnm_spans(t, cfg, n, off)),
    decreases t.nodes@.len() - n, 1int, 0int,
{
    let node = t.nodes@[n];
    assert(reaches(t, cfg, n, n));
    if policy_of(cfg, node) is None && !node.is_text {
        lemma_children_spans_are_sound(t, cfg, n, 0, off);
    }
}

/// The same of the map entries of the children of a node from position `k` on.
pub proof fn lemma_children_spans_are_sound(t: DocTree, cfg: DnmConfig, n: int, k: int, off: int)
    requires
        t.wf(),
        0 <= n < t.nodes@.len() <= usize::MAX,
        policy_of(cfg, t.nodes@[n]) is None,
        !t.nodes@[n].is_text,
        0 <= k,
        0 <= off,
        off + dnm_children_text(t, cfg, n, k).len() <= usize::MAX,
    ensures
        entries_ok(
            t,
            cfg,
            n,
            off,
            off + dnm_children_text(t, cfg, n, k).len(),
            dnm_children_spans(t, cfg, n, k, off),
        ),
    decreases t.nodes@.len() - n, 0int, t.nodes@[n].children@.len() - k,
{
    if k < t.nodes@[n].children@.len() {
        let c = t.nodes@[n].children@[k] as int;
        let here = dnm_spans(t, cfg, c, off);
        let mid = off + dnm_text(t, cfg, c).len();
        let after = dnm_children_spans(t, cfg, n, k + 1, mid);
        let hi = off + dnm_children_text(t, cfg, n, k).len();
        assert(hi == mid + dnm_children_text(t, cfg, n, k + 1).len());
        lemma_spans_are_sound(t, cfg, c, off);
        lemma_children_spans_are_sound(t, cfg, n, k + 1, mid);
        let all = dnm_children_spans(t, cfg, n, k, off);
        assert(all == here + after);
        assert forall|i: int| 0 <= i < all.len() implies entry_ok(
            t,
            cfg,
            n,
            off,
            hi,
            #[trigger] all[i],
        ) by {
            if i < here.len() {
                assert(all[i] == here[i]);
                assert(entry_ok(t, cfg, c, off, mid, here[i]));
                lemma_reaches_from_parent(t, cfg, n, c, here[i].node as int);
            } else {
                assert(all[i] == after[i - here.len()]);
                assert(entry_ok(t, cfg, n, mid, hi, after[i - here.len()]));
            }
        }
        assert forall|i: int, j: int| 0 <= i < j < all.len() implies (#[trigger] all[i]).end <= (
        #[trigger] all[j]).start by {
            if j < here.len() {
                assert(all[i] == here[i] && all[j] == here[j]);
            } else if i < here.len() {
                assert(all[i] == here[i]);
                assert(all[j] == after[j - here.len()]);
                assert(entry_ok(t, cfg, c, off, mid, here[i]));
                assert(entry_ok(t, cfg, n, mid, hi, after[j - here.len()]));
            } else {
                assert(all[i] == after[i - here.len()]);
                assert(all[j] == after[j - here.len()]);
            }
        }
    }
}

/// On the way from a node that the walk from `root` came to, up to `root`,
/// no node other than that node itself bears a policy.
pub proof fn lemma_way_is_open(t: DocTree, cfg: DnmConfig, root: int, s: int, m: int)
    requires
        reaches(t, cfg, root, m),
        under(t, root, s),
        under(t, s, m),
        s != m,
    ensures
        policy_of(cfg, t.nodes@[s]) is None,
    decreases m,
{
    if m == root {
        lemma_under_is_later(t, root, s);
        lemma_under_is_later(t, s, m);
    } else {
        let p = t.nodes@[m].parent->0 as int;
        if s != p {
            lemma_way_is_open(t, cfg, root, s, p);
        }
    }
}

/// No map entry of a model leads into a skipped subtree: where `s` lies in
/// the subtree that the model was built from and is under `Skip`, no entry
/// names `s` or a node below it.
pub proof fn lemma_skip_is_isolated(t: DocTree, cfg: DnmConfig, root: int, s: int, i: int)
    requires
        t.wf(),
        0 <= root < t.nodes@.len() <= usize::MAX,
        dnm_text(t, cfg, root).len() <= usize::MAX,
        0 <= s < t.nodes@.len(),
        under(t, root, s),
        policy_of(cfg, t.nodes@[s]) == Some(TagPolicy::Skip),
        0 <= i < dnm_spans(t, cfg, root, 0).len(),
    ensures
        !under(t, s, dnm_spans(t, cfg, root, 0)[i].node as int),
{
    lemma_spans_are_sound(t, cfg, root, 0);
    let e = dnm_spans(t, cfg, root, 0)[i];
    assert(entry_ok(t, cfg, root, 0, dnm_text(t, cfg, root).len() as int, e));
    if under(t, s, e.node as int) && s != e.node {
        lemma_way_is_open(t, cfg, root, s, e.node as int);
    }
}

} // verus!
