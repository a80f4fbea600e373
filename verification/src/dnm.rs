//! The narrative model of a document: its plain text, with a map from
//! character ranges back to the nodes that produced them.

use vstd::prelude::*;
use crate::laws::{entries_ok, lemma_spans_are_sound};
use crate::linearize::{linearize_into, math_text};
use crate::text::{append_chars, collapse_blanks, collapsed, same_chars, transliterate, unidecode_of};
use crate::tree::{DocNode, DocTree};

verus! {

/// A strategy that turns a subtree into text.
#[derive(Clone, Debug)]
pub enum Linearizer {
    /// The linearizer for mathematical subtrees.
    Math,
}

/// How the subtree of a tag or class contributes to the text.
#[derive(Clone, Debug)]
pub enum TagPolicy {
    /// The subtree gives no text and no map entry.
    Skip,
    /// The subtree gives exactly this label, mapped to its root as one unit.
    NormalizeToLabel(Vec<char>),
    /// The subtree gives the linearizer's output, mapped to its root as one unit.
    FunctionNormalize(Linearizer),
}

/// A policy for one tag name or one class.
#[derive(Clone, Debug)]
pub struct PolicyEntry {
    pub key: Vec<char>,
    pub policy: TagPolicy,
}

/// What a narrative model is built with. Of two entries with one key the
/// first counts.
#[derive(Clone, Debug)]
pub struct DnmConfig {
    pub name_policies: Vec<PolicyEntry>,
    pub class_policies: Vec<PolicyEntry>,
    pub normalize_whitespace: bool,
    pub normalize_unicode: bool,
    /// Kept for consumers that tokenize the text; the text itself does not depend on it.
    pub wrap_tokens: bool,
    pub back_mapping: bool,
}

/// A range of the text, `start` included and `end` excluded, and the node that produced it.
#[derive(Clone, Copy, PartialEq, Eq, Debug)]
pub struct Span {
    pub start: usize,
    pub end: usize,
    pub node: usize,
}

/// A range of a model's text, `start` included and `end` excluded.
#[derive(Clone, Copy, PartialEq, Eq, Debug)]
pub struct DnmRange {
    pub start: usize,
    pub end: usize,
}

/// The text of a document and its map back to the nodes.
#[derive(Clone, Debug)]
pub struct Dnm {
    /// The node that the model was built from.
    pub root: usize,
    pub text: Vec<char>,
    pub spans: Vec<Span>,
}

/// The position of the first entry for `key` at or after `from`.
pub open spec fn policy_index(entries: Seq<PolicyEntry>, key: Seq<char>, from: int) -> Option<int>
    decreases entries.len() - from,
{
    if from < 0 || from >= entries.len() {
        None
    } else if entries[from].key@ == key {
        Some(from)
    } else {
        policy_index(entries, key, from + 1)
    }
}

/// The policy of the first of the class names at or after `from` that has one.
pub open spec fn class_policy(cfg: DnmConfig, classes: Seq<Vec<char>>, from: int) -> Option<
    TagPolicy,
>
    decreases classes.len() - from,
{
    if from < 0 || from >= classes.len() {
        None
    } else {
        match policy_index(cfg.class_policies@, classes[from]@, 0) {
            Some(j) => Some(cfg.class_policies@[j].policy),
            None => class_policy(cfg, classes, from + 1),
        }
    }
}

/// The policy that holds at a node: the one for its tag name; where the
/// name has none, the one for the first of its class names that has one;
/// else none.
pub open spec fn policy_of(cfg: DnmConfig, node: DocNode) -> Option<TagPolicy> {
    match policy_index(cfg.name_policies@, node.name@, 0) {
        Some(i) => Some(cfg.name_policies@[i].policy),
        None => class_policy(cfg, node.classes@, 0),
    }
}

/// A text after transliteration, where `unicode` asks for it, and then the
/// collapse of blank runs, where `whitespace` asks for it.
pub open spec fn normalized_with(s: Seq<char>, unicode: bool, whitespace: bool) -> Seq<char> {
    let plain = if unicode {
        unidecode_of(s)
    } else {
        s
    };
    if whitespace {
        collapsed(plain)
    } else {
        plain
    }
}

/// The content of a text leaf as the configuration has it appear.
pub open spec fn normalized(cfg: DnmConfig, s: Seq<char>) -> Seq<char> {
    normalized_with(s, cfg.normalize_unicode, cfg.normalize_whitespace)
}

/// The text that the subtree at `n` contributes.
pub open spec fn dnm_text(t: DocTree, cfg: DnmConfig, n: int) -> Seq<char>
    decreases t.nodes@.len() - n, 1int, 0int,
{
    if !(0 <= n < t.nodes@.len()) {
        Seq::empty()
    } else {
        let node = t.nodes@[n];
        match policy_of(cfg, node) {
            Some(TagPolicy::Skip) => Seq::empty(),
            Some(TagPolicy::NormalizeToLabel(label)) => label@,
            Some(TagPolicy::FunctionNormalize(_)) => math_text(t, n),
            None => if node.is_text {
                normalized(cfg, node.content@)
            } else {
                dnm_children_text(t, cfg, n, 0)
            },
        }
    }
}

/// The text that the children of `n` from position `k` on contribute, in order.
pub open spec fn dnm_children_text(t: DocTree, cfg: DnmConfig, n: int, k: int) -> Seq<char>
    decreases t.nodes@.len() - n, 0int, t.nodes@[n].children@.len() - k,
{
    if !(0 <= n < t.nodes@.len()) || !(0 <= k < t.nodes@[n].children@.len()) {
        Seq::empty()
    } else {
        let c = t.nodes@[n].children@[k] as int;
        (if n < c < t.nodes@.len() {
            dnm_text(t, cfg, c)
        } else {
            Seq::empty()
        }) + dnm_children_text(t, cfg, n, k + 1)
    }
}

/// The map entry for a unit of `len` characters at `off` that node `n` produced.
pub open spec fn unit_span(cfg: DnmConfig, off: int, len: int, n: int) -> Seq<Span> {
    if cfg.back_mapping {
        seq![(Span { start: off as usize, end: (off + len) as usize, node: n as usize })]
    } else {
        Seq::empty()
    }
}

/// The map entries of the subtree at `n`, whose text starts at `off`.
pub open spec fn dnm_spans(t: DocTree, cfg: DnmConfig, n: int, off: int) -> Seq<Span>
    decreases t.nodes@.len() - n, 1int, 0int,
{
    if !(0 <= n < t.nodes@.len()) {
        Seq::empty()
    } else {
        let node = t.nodes@[n];
        match policy_of(cfg, node) {
            Some(TagPolicy::Skip) => Seq::empty(),
            Some(TagPolicy::NormalizeToLabel(label)) => unit_span(cfg, off, label@.len() as int, n),
            Some(TagPolicy::FunctionNormalize(_)) => unit_span(
                cfg,
                off,
                math_text(t, n).len() as int,
                n,
            ),
            None => if node.is_text {
                if normalized(cfg, node.content@).len() == 0 {
                    Seq::empty()
                } else {
                    unit_span(cfg, off, normalized(cfg, node.content@).len() as int, n)
                }
            } else {
                dnm_children_spans(t, cfg, n, 0, off)
            },
        }
    }
}

/// The map entries of the children of `n` from position `k` on, whose text starts at `off`.
pub open spec fn dnm_children_spans(t: DocTree, cfg: DnmConfig, n: int, k: int, off: int) -> Seq<
    Span,
>
    decreases t.nodes@.len() - n, 0int, t.nodes@[n].children@.len() - k,
{
    if !(0 <= n < t.nodes@.len()) || !(0 <= k < t.nodes@[n].children@.len()) {
        Seq::empty()
    } else {
        let c = t.nodes@[n].children@[k] as int;
        if n < c < t.nodes@.len() {
            dnm_spans(t, cfg, c, off) + dnm_children_spans(
                t,
                cfg,
                n,
                k + 1,
                off + dnm_text(t, cfg, c).len(),
            )
        } else {
            dnm_children_spans(t, cfg, n, k + 1, off)
        }
    }
}

/// Finds the first entry for `key`.
pub fn find_policy(entries: &Vec<PolicyEntry>, key: &Vec<char>) -> (r: Option<usize>)
    ensures
        match r {
            Some(i) => i < entries@.len() && policy_index(entries@, key@, 0) == Some(i as int),
            None => policy_index(entries@, key@, 0) is None,
        },
{
    let mut i: usize = 0;
    while i < entries.len()
        invariant
            i <= entries@.len(),
            policy_index(entries@, key@, 0) == policy_index(entries@, key@, i as int),
        decreases entries@.len() - i,
    {
        if same_chars(&entries[i].key, key) {
            return Some(i);
        }
        i += 1;
    }
    None
}

/// Resolves the policy that holds at `node`: the tag name is looked up
/// first, and the class names, in their order, only where the tag name has
/// no entry.
pub fn resolve<'a>(cfg: &'a DnmConfig, node: &DocNode) -> (r: Option<&'a TagPolicy>)
    ensures
        match r {
            Some(p) => policy_of(*cfg, *node) == Some(*p),
            None => policy_of(*cfg, *node) is None,
        },
{
    match find_policy(&cfg.name_policies, &node.name) {
        Some(i) => {
            return Some(&cfg.name_policies[i].policy);
        },
        None => {},
    }
    let mut k: usize = 0;
    while k < node.classes.len()
        invariant
            k <= node.classes@.len(),
            policy_of(*cfg, *node) == class_policy(*cfg, node.classes@, k as int),
        decreases node.classes@.len() - k,
    {
        match find_policy(&cfg.class_policies, &node.classes[k]) {
            Some(j) => {
                return Some(&cfg.class_policies[j].policy);
            },
            None => {},
        }
        k += 1;
    }
    None
}

/// Normalizes the content of a text leaf: transliteration first, where it
/// is asked for, then the collapse of blank runs, where that is asked for.
pub fn normalize(cfg: &DnmConfig, content: &Vec<char>) -> (r: Vec<char>)
    ensures
        r@ == normalized(*cfg, content@),
{
    let mut plain: Vec<char> = Vec::new();
    if cfg.normalize_unicode {
        plain = transliterate(content);
    } else {
        append_chars(&mut plain, content);
        assert(plain@ =~= content@);
    }
    if cfg.normalize_whitespace {
        collapse_blanks(&plain)
    } else {
        plain
    }
}

/// Records a unit that `node` produced and that starts at `start` and ends
/// where the text now ends.
fn record(cfg: &DnmConfig, spans: &mut Vec<Span>, start: usize, end: usize, node: usize)
    requires
        start <= end,
    ensures
        final(spans)@ == old(spans)@ + unit_span(*cfg, start as int, end - start, node as int),
{
    if cfg.back_mapping {
        spans.push(Span { start, end, node });
    }
    assert(spans@ =~= old(spans)@ + unit_span(*cfg, start as int, end - start, node as int));
}

/// Appends what the subtree at `node` contributes to `text` and `spans`.
pub fn build_into(
    tree: &DocTree,
    cfg: &DnmConfig,
    node: usize,
    text: &mut Vec<char>,
    spans: &mut Vec<Span>,
)
    requires
        tree.wf(),
        node < tree.nodes@.len(),
    ensures
        final(text)@ == old(text)@ + dnm_text(*tree, *cfg, node as int),
        final(spans)@ == old(spans)@ + dnm_spans(
            *tree,
            *cfg,
            node as int,
            old(text)@.len() as int,
        ),
    decreases tree.nodes@.len() - node, 1int,
{
    let n = &tree.nodes[node];
    let start: usize = text.len();
    match resolve(cfg, n) {
        Some(TagPolicy::Skip) => {
            assert(text@ =~= old(text)@ + dnm_text(*tree, *cfg, node as int));
            assert(spans@ =~= old(spans)@ + dnm_spans(*tree, *cfg, node as int, start as int));
        },
        Some(TagPolicy::NormalizeToLabel(label)) => {
            append_chars(text, label);
            record(cfg, spans, start, text.len(), node);
        },
        Some(TagPolicy::FunctionNormalize(Linearizer::Math)) => {
            linearize_into(tree, node, text);
            record(cfg, spans, start, text.len(), node);
        },
        None => {
            if n.is_text {
                let piece = normalize(cfg, &n.content);
                if piece.len() > 0 {
                    append_chars(text, &piece);
                    record(cfg, spans, start, text.len(), node);
                } else {
                    assert(text@ =~= old(text)@ + dnm_text(*tree, *cfg, node as int));
                    assert(spans@ =~= old(spans)@ + dnm_spans(
                        *tree,
                        *cfg,
                        node as int,
                        start as int,
                    ));
                }
            } else {
                build_children(tree, cfg, node, text, spans);
            }
        },
    }
}

/// Appends what the children of `node` contribute, in document order.
fn build_children(
    tree: &DocTree,
    cfg: &DnmConfig,
    node: usize,
    text: &mut Vec<char>,
    spans: &mut Vec<Span>,
)
    requires
        tree.wf(),
        node < tree.nodes@.len(),
    ensures
        final(text)@ == old(text)@ + dnm_children_text(*tree, *cfg, node as int, 0),
        final(spans)@ == old(spans)@ + dnm_children_spans(
            *tree,
            *cfg,
            node as int,
            0,
            old(text)@.len() as int,
        ),
    decreases tree.nodes@.len() - node, 0int,
{
    let n = &tree.nodes[node];
    let m: usize = n.children.len();
    let mut k: usize = 0;
    while k < m
        invariant
            tree.wf(),
            node < tree.nodes@.len(),
            n == &tree.nodes@[node as int],
            m == n.children@.len(),
            k <= m,
            text@ + dnm_children_text(*tree, *cfg, node as int, k as int) == old(text)@
                + dnm_children_text(*tree, *cfg, node as int, 0),
            spans@ + dnm_children_spans(*tree, *cfg, node as int, k as int, text@.len() as int)
                == old(spans)@ + dnm_children_spans(
                *tree,
                *cfg,
                node as int,
                0,
                old(text)@.len() as int,
            ),
        decreases m - k,
    {
        let c: usize = n.children[k];
        let ghost text_before = text@;
        let ghost spans_before = spans@;
        build_into(tree, cfg, c, text, spans);
        proof {
            let piece = dnm_text(*tree, *cfg, c as int);
            let rest = dnm_children_text(*tree, *cfg, node as int, k + 1);
            assert(dnm_children_text(*tree, *cfg, node as int, k as int) == piece + rest);
            assert(text@ + rest =~= text_before + (piece + rest));
            let here = dnm_spans(*tree, *cfg, c as int, text_before.len() as int);
            let after = dnm_children_spans(
                *tree,
                *cfg,
                node as int,
                k + 1,
                (text_before.len() + piece.len()) as int,
            );
            assert(dnm_children_spans(
                *tree,
                *cfg,
                node as int,
                k as int,
                text_before.len() as int,
            ) == here + after);
            assert(text@.len() == text_before.len() + piece.len());
            assert(spans@ + after =~= spans_before + (here + after));
        }
        k += 1;
    }
    assert(text@ + dnm_children_text(*tree, *cfg, node as int, m as int) =~= text@);
    assert(spans@ + dnm_children_spans(*tree, *cfg, node as int, m as int, text@.len() as int)
        =~= spans@);
}

/// Builds the narrative model of the subtree at `root`, depth first and in document order.
pub fn build(tree: &DocTree, root: usize, cfg: &DnmConfig) -> (r: Dnm)
    requires
        tree.wf(),
        root < tree.nodes@.len(),
    ensures
        r.root == root,
        r.text@ == dnm_text(*tree, *cfg, root as int),
        r.spans@ == dnm_spans(*tree, *cfg, root as int, 0),
        entries_ok(*tree, *cfg, root as int, 0, r.text@.len() as int, r.spans@),
{
    let mut text: Vec<char> = Vec::new();
    let mut spans: Vec<Span> = Vec::new();
    build_into(tree, cfg, root, &mut text, &mut spans);
    assert(text@ =~= dnm_text(*tree, *cfg, root as int));
    assert(spans@ =~= dnm_spans(*tree, *cfg, root as int, 0));
    let size: usize = tree.nodes.len();
    let length: usize = text.len();
    proof {
        lemma_spans_are_sound(*tree, *cfg, root as int, 0);
    }
    Dnm { root, text, spans }
}

} // verus!
