//! Printable locations of nodes: the path from a root down to a node.

use vstd::prelude::*;
use crate::text::{append_chars, append_str};
use crate::tree::DocTree;

verus! {

/// The character of a decimal digit.
pub open spec fn digit(d: int) -> char {
    if d == 0 {
        '0'
    } else if d == 1 {
        '1'
    } else if d == 2 {
        '2'
    } else if d == 3 {
        '3'
    } else if d == 4 {
        '4'
    } else if d == 5 {
        '5'
    } else if d == 6 {
        '6'
    } else if d == 7 {
        '7'
    } else if d == 8 {
        '8'
    } else {
        '9'
    }
}

/// The decimal numeral of `k`, without leading zeros.
pub open spec fn decimal(k: int) -> Seq<char>
    decreases k,
{
    if k < 10 {
        seq![digit(k)]
    } else {
        decimal(k / 10).push(digit(k % 10))
    }
}

/// The position of `n` among the children of `p` at or after `from`, where it is one of them.
pub open spec fn child_position(t: DocTree, p: int, n: int, from: int) -> Option<int>
    decreases t.nodes@[p].children@.len() - from,
{
    if from < 0 || from >= t.nodes@[p].children@.len() {
        None
    } else if t.nodes@[p].children@[from] == n {
        Some(from)
    } else {
        child_position(t, p, n, from + 1)
    }
}

/// The path from `root` down to `n`: for `root` itself, or a node without a
/// parent, a slash and the tag name; for any other node the path of its
/// parent, a slash, the tag name and, in square brackets, its position among
/// the parent's children, counted from 1. The position is left out where the
/// parent does not list the node.
pub open spec fn locator(t: DocTree, root: int, n: int) -> Seq<char>
    decreases n,
{
    if !(0 <= n < t.nodes@.len()) {
        Seq::empty()
    } else {
        let own = "/"@ + t.nodes@[n].name@;
        match t.nodes@[n].parent {
            Some(p) => if n != root && p < n {
                match child_position(t, p as int, n, 0) {
                    Some(k) => locator(t, root, p as int) + own + "["@ + decimal(k + 1) + "]"@,
                    None => locator(t, root, p as int) + own,
                }
            } else {
                own
            },
            None => own,
        }
    }
}

/// The character of the decimal digit `d`.
fn digit_char(d: usize) -> (c: char)
    requires
        d < 10,
    ensures
        c == digit(d as int),
{
    if d == 0 {
        '0'
    } else if d == 1 {
        '1'
    } else if d == 2 {
        '2'
    } else if d == 3 {
        '3'
    } else if d == 4 {
        '4'
    } else if d == 5 {
        '5'
    } else if d == 6 {
        '6'
    } else if d == 7 {
        '7'
    } else if d == 8 {
        '8'
    } else {
        '9'
    }
}

/// Appends the decimal numeral of `k` to `out`.
pub fn push_decimal(out: &mut Vec<char>, k: usize)
    ensures
        final(out)@ == old(out)@ + decimal(k as int),
    decreases k,
{
    if k >= 10 {
        push_decimal(out, k / 10);
    }
    out.push(digit_char(k % 10));
    assert(out@ =~= old(out)@ + decimal(k as int));
}

/// Finds the position of `n` among the children of `p`.
pub fn find_child(tree: &DocTree, p: usize, n: usize) -> (r: Option<usize>)
    requires
        p < tree.nodes@.len(),
    ensures
        match r {
            Some(k) => k < usize::MAX && k < tree.nodes@[p as int].children@.len() && child_position(
                *tree,
                p as int,
                n as int,
                0,
            ) == Some(k as int),
            None => child_position(*tree, p as int, n as int, 0) is None,
        },
{
    let kids = &tree.nodes[p].children;
    let mut k: usize = 0;
    while k < kids.len()
        invariant
            p < tree.nodes@.len(),
            kids == &tree.nodes@[p as int].children,
            k <= kids@.len(),
            child_position(*tree, p as int, n as int, 0) == child_position(
                *tree,
                p as int,
                n as int,
                k as int,
            ),
        decreases kids@.len() - k,
    {
        if kids[k] == n {
            return Some(k);
        }
        k += 1;
    }
    None
}

/// Appends the path from `root` down to `node` to `out`.
pub fn locate_into(tree: &DocTree, root: usize, node: usize, out: &mut Vec<char>)
    ensures
        final(out)@ == old(out)@ + locator(*tree, root as int, node as int),
    decreases node,
{
    if node >= tree.nodes.len() {
        assert(out@ =~= old(out)@ + locator(*tree, root as int, node as int));
        return ;
    }
    let n = &tree.nodes[node];
    match n.parent {
        Some(p) => {
            if node != root && p < node {
                locate_into(tree, root, p, out);
                append_str(out, "/");
                append_chars(out, &n.name);
                match find_child(tree, p, node) {
                    Some(k) => {
                        append_str(out, "[");
                        push_decimal(out, k + 1);
                        append_str(out, "]");
                    },
                    None => {},
                }
                assert(out@ =~= old(out)@ + locator(*tree, root as int, node as int));
                return ;
            }
        },
        None => {},
    }
    append_str(out, "/");
    append_chars(out, &n.name);
    assert(out@ =~= old(out)@ + locator(*tree, root as int, node as int));
}

/// The path from `root` down to `node`.
pub fn serialize_node(tree: &DocTree, root: usize, node: usize) -> (r: Vec<char>)
    ensures
        r@ == locator(*tree, root as int, node as int),
{
    let mut out: Vec<char> = Vec::new();
    locate_into(tree, root, node, &mut out);
    assert(out@ =~= locator(*tree, root as int, node as int));
    out
}

} // verus!
