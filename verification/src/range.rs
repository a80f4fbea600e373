//! Ranges of a narrative model: their text and the nodes behind them.

use vstd::prelude::*;
use crate::dnm::{Dnm, DnmRange, Span};
use crate::linearize::{linearize, math_text};
use crate::text::append_chars;
use crate::tree::DocTree;

verus! {

/// How a range is written out.
#[derive(Clone, Debug)]
pub enum Rendering {
    /// The text of the model itself.
    AsBuilt,
    /// The node behind the range, linearized as mathematics.
    Math,
    /// The node behind the range, as the plain content of its text leaves.
    Raw,
}

/// The position of the first entry at or after `from` whose range contains
/// the characters from `start` to `end`.
pub open spec fn covering_index(spans: Seq<Span>, start: int, end: int, from: int) -> Option<int>
    decreases spans.len() - from,
{
    if from < 0 || from >= spans.len() {
        None
    } else if spans[from].start <= start && end <= spans[from].end {
        Some(from)
    } else {
        covering_index(spans, start, end, from + 1)
    }
}

/// The position of the first entry at or after `from` that `node` produced.
pub open spec fn node_index(spans: Seq<Span>, node: int, from: int) -> Option<int>
    decreases spans.len() - from,
{
    if from < 0 || from >= spans.len() {
        None
    } else if spans[from].node == node {
        Some(from)
    } else {
        node_index(spans, node, from + 1)
    }
}

/// The content of the text leaves below `n`, in document order, each
/// normalized as the two flags ask.
pub open spec fn leaf_text(t: DocTree, n: int, unicode: bool, whitespace: bool) -> Seq<char>
    decreases t.nodes@.len() - n, 1int, 0int,
{
    if !(0 <= n < t.nodes@.len()) {
        Seq::empty()
    } else if t.nodes@[n].is_text {
        crate::dnm::normalized_with(t.nodes@[n].content@, unicode, whitespace)
    } else {
        leaf_children_text(t, n, 0, unicode, whitespace)
    }
}

/// The leaf text of the children of `n` from position `k` on.
pub open spec fn leaf_children_text(
    t: DocTree,
    n: int,
    k: int,
    unicode: bool,
    whitespace: bool,
) -> Seq<char>
    decreases t.nodes@.len() - n, 0int, t.nodes@[n].children@.len() - k,
{
    if !(0 <= n < t.nodes@.len()) || !(0 <= k < t.nodes@[n].children@.len()) {
        Seq::empty()
    } else {
        let c = t.nodes@[n].children@[k] as int;
        (if n < c < t.nodes@.len() {
            leaf_text(t, c, unicode, whitespace)
        } else {
            Seq::empty()
        }) + leaf_children_text(t, n, k + 1, unicode, whitespace)
    }
}

/// Appends the plain content of the text leaves below `node` to `out`.
pub fn raw_into(tree: &DocTree, node: usize, out: &mut Vec<char>)
    requires
        tree.wf(),
        node < tree.nodes@.len(),
    ensures
        final(out)@ == old(out)@ + leaf_text(*tree, node as int, false, false),
    decreases tree.nodes@.len() - node,
{
    let n = &tree.nodes[node];
    if n.is_text {
        append_chars(out, &n.content);
        return ;
    }
    let m: usize = n.children.len();
    let mut k: usize = 0;
    while k < m
        invariant
            tree.wf(),
            node < tree.nodes@.len(),
            n == &tree.nodes@[node as int],
            !n.is_text,
            m == n.children@.len(),
            k <= m,
            out@ + leaf_children_text(*tree, node as int, k as int, false, false) == old(out)@
                + leaf_text(*tree, node as int, false, false),
        decreases m - k,
    {
        let c: usize = n.children[k];
        let ghost before = out@;
        raw_into(tree, c, out);
        proof {
            let piece = leaf_text(*tree, c as int, false, false);
            let rest = leaf_children_text(*tree, node as int, k + 1, false, false);
            assert(leaf_children_text(*tree, node as int, k as int, false, false) == piece + rest);
            assert(out@ + rest =~= before + (piece + rest));
        }
        k += 1;
    }
    assert(out@ + leaf_children_text(*tree, node as int, m as int, false, false) =~= out@);
}

impl Dnm {
    /// Whether `r` is a range of this model's text.
    pub open spec fn holds(&self, r: DnmRange) -> bool {
        r.start <= r.end <= self.text@.len()
    }

    /// The node behind a range: the node of the first entry that contains it.
    pub open spec fn node_behind(&self, r: DnmRange) -> Option<usize> {
        match covering_index(self.spans@, r.start as int, r.end as int, 0) {
            Some(i) => Some(self.spans@[i].node),
            None => None,
        }
    }

    /// Decides `holds`.
    pub fn has_range(&self, r: &DnmRange) -> (b: bool)
        ensures
            b == self.holds(*r),
    {
        r.start <= r.end && r.end <= self.text.len()
    }

    /// The text of a range.
    pub fn serialize(&self, r: &DnmRange) -> (out: Vec<char>)
        requires
            self.holds(*r),
        ensures
            out@ == self.text@.subrange(r.start as int, r.end as int),
    {
        let mut out: Vec<char> = Vec::new();
        let mut i: usize = r.start;
        while i < r.end
            invariant
                r.start <= i <= r.end <= self.text@.len(),
                out@ == self.text@.subrange(r.start as int, i as int),
            decreases r.end - i,
        {
            out.push(self.text[i]);
            i += 1;
            assert(out@ =~= self.text@.subrange(r.start as int, i as int));
        }
        out
    }

    /// The node whose recorded unit contains the whole range. There is none
    /// where the range reaches over the border between two units, or where
    /// nothing was recorded for it.
    pub fn resolve_node(&self, r: &DnmRange) -> (node: Option<usize>)
        ensures
            node == self.node_behind(*r),
    {
        let mut i: usize = 0;
        while i < self.spans.len()
            invariant
                i <= self.spans@.len(),
                covering_index(self.spans@, r.start as int, r.end as int, 0) == covering_index(
                    self.spans@,
                    r.start as int,
                    r.end as int,
                    i as int,
                ),
            decreases self.spans@.len() - i,
        {
            let s = &self.spans[i];
            if s.start <= r.start && r.end <= s.end {
                return Some(s.node);
            }
            i += 1;
        }
        None
    }

    /// The range that was recorded for `node`, where one was.
    pub fn node_range(&self, node: usize) -> (r: Option<DnmRange>)
        ensures
            match node_index(self.spans@, node as int, 0) {
                Some(i) => r == Some(
                    (DnmRange { start: self.spans@[i].start, end: self.spans@[i].end }),
                ),
                None => r is None,
            },
    {
        let mut i: usize = 0;
        while i < self.spans.len()
            invariant
                i <= self.spans@.len(),
                node_index(self.spans@, node as int, 0) == node_index(
                    self.spans@,
                    node as int,
                    i as int,
                ),
            decreases self.spans@.len() - i,
        {
            let s = &self.spans[i];
            if s.node == node {
                return Some(DnmRange { start: s.start, end: s.end });
            }
            i += 1;
        }
        None
    }

    /// Writes a range out. `AsBuilt` gives the text of the range. `Math` and
    /// `Raw` go back to the node behind the range and write it anew, whatever
    /// the model's own policies made of it; where no node of `tree` is behind
    /// the range they give the text of the range too.
    pub fn serialize_as(&self, tree: &DocTree, r: &DnmRange, how: &Rendering) -> (out: Vec<char>)
        requires
            self.holds(*r),
            tree.wf(),
        ensures
            out@ == match (*how, self.node_behind(*r)) {
                (Rendering::Math, Some(n)) if n < tree.nodes@.len() => math_text(*tree, n as int),
                (Rendering::Raw, Some(n)) if n < tree.nodes@.len() => leaf_text(
                    *tree,
                    n as int,
                    false,
                    false,
                ),
                _ => self.text@.subrange(r.start as int, r.end as int),
            },
    {
        match how {
            Rendering::AsBuilt => self.serialize(r),
            Rendering::Math => match self.resolve_node(r) {
                Some(n) => {
                    if n < tree.nodes.len() {
                        linearize(tree, n)
                    } else {
                        self.serialize(r)
                    }
                },
                None => self.serialize(r),
            },
            Rendering::Raw => match self.resolve_node(r) {
                Some(n) => {
                    if n < tree.nodes.len() {
                        let mut out: Vec<char> = Vec::new();
                        raw_into(tree, n, &mut out);
                        assert(out@ =~= leaf_text(*tree, n as int, false, false));
                        out
                    } else {
                        self.serialize(r)
                    }
                },
                None => self.serialize(r),
            },
        }
    }
}

} // verus!
