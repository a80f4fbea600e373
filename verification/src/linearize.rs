//! The linearizer for mathematical subtrees: a tag-preserving flat text.

use vstd::prelude::*;
use crate::text::{append_chars, append_str, is_word};
use crate::tree::DocTree;

verus! {

/// The linear text of the subtree at `n`.
///
/// A text leaf gives its content. `semantics` is transparent, `annotation`
/// and `annotation-xml` give nothing, and any other element brackets the
/// text of its children between `<tag>` and `</tag>`.
pub open spec fn math_text(t: DocTree, n: int) -> Seq<char>
    decreases t.nodes@.len() - n, 1int, 0int,
{
    if !(0 <= n < t.nodes@.len()) {
        Seq::empty()
    } else {
        let node = t.nodes@[n];
        if node.is_text {
            node.content@
        } else if node.name@ == "semantics"@ {
            math_children_text(t, n, 0)
        } else if node.name@ == "annotation"@ || node.name@ == "annotation-xml"@ {
            Seq::empty()
        } else {
            "<"@ + node.name@ + ">"@ + math_children_text(t, n, 0) + "</"@ + node.name@ + ">"@
        }
    }
}

/// The linear texts of the children of `n` from position `k` on, in order.
pub open spec fn math_children_text(t: DocTree, n: int, k: int) -> Seq<char>
    decreases t.nodes@.len() - n, 0int, t.nodes@[n].children@.len() - k,
{
    if !(0 <= n < t.nodes@.len()) || !(0 <= k < t.nodes@[n].children@.len()) {
        Seq::empty()
    } else {
        let c = t.nodes@[n].children@[k] as int;
        (if n < c < t.nodes@.len() { math_text(t, c) } else { Seq::empty() }) + math_children_text(
            t,
            n,
            k + 1,
        )
    }
}

/// Linearizes the subtree at `node`.
pub fn linearize(tree: &DocTree, node: usize) -> (r: Vec<char>)
    requires
        tree.wf(),
        node < tree.nodes@.len(),
    ensures
        r@ == math_text(*tree, node as int),
{
    let mut out: Vec<char> = Vec::new();
    linearize_into(tree, node, &mut out);
    assert(Seq::<char>::empty() + math_text(*tree, node as int) =~= math_text(*tree, node as int));
    out
}

/// Appends the linear text of the subtree at `node` to `out`.
pub fn linearize_into(tree: &DocTree, node: usize, out: &mut Vec<char>)
    requires
        tree.wf(),
        node < tree.nodes@.len(),
    ensures
        final(out)@ == old(out)@ + math_text(*tree, node as int),
    decreases tree.nodes@.len() - node, 1int,
{
    let n = &tree.nodes[node];
    if n.is_text {
        append_chars(out, &n.content);
    } else if is_word(&n.name, "semantics") {
        linearize_children(tree, node, out);
    } else if is_word(&n.name, "annotation") || is_word(&n.name, "annotation-xml") {
        assert(out@ =~= old(out)@ + math_text(*tree, node as int));
    } else {
        append_str(out, "<");
        append_chars(out, &n.name);
        append_str(out, ">");
        linearize_children(tree, node, out);
        append_str(out, "</");
        append_chars(out, &n.name);
        append_str(out, ">");
        assert(out@ =~= old(out)@ + math_text(*tree, node as int));
    }
}

/// Appends the linear texts of the children of `node` to `out`.
fn linearize_children(tree: &DocTree, node: usize, out: &mut Vec<char>)
    requires
        tree.wf(),
        node < tree.nodes@.len(),
    ensures
        final(out)@ == old(out)@ + math_children_text(*tree, node as int, 0),
    decreases tree.nodes@.len() - node, 0int,
{
    let n = &tree.nodes[node];
    let m: usize = n.children.len();
    let mut k: usize = 0;
    while k < m
        invariant
            tree.wf(),
            node < tree.nodes@.len(),
            n == &tree.nodes@[node as int],
            m == n.children@.len(),
            k <= m,
            out@ + math_children_text(*tree, node as int, k as int) == old(out)@
                + math_children_text(*tree, node as int, 0),
        decreases m - k,
    {
        let c: usize = n.children[k];
        let ghost before = out@;
        linearize_into(tree, c, out);
        proof {
            let rest = math_children_text(*tree, node as int, k + 1);
            assert(math_children_text(*tree, node as int, k as int) == math_text(*tree, c as int)
                + rest);
            assert(out@ + rest =~= before + (math_text(*tree, c as int) + rest));
        }
        k += 1;
    }
    assert(out@ + math_children_text(*tree, node as int, m as int) =~= out@);
}

} // verus!
