//! Matching of a named pattern against a parsed sentence.

use vstd::prelude::*;
use crate::align::{fits, node_fits};
use crate::pattern::{
    contains_word, in_set, Branch, Definition, Marker, Match, MatchError, MathShape, PatternFile,
    Sentence, Step, StepKind, Token,
};
use crate::range::{leaf_text, raw_into};
use crate::text::same_chars;
use crate::tree::DocTree;

verus! {

/// A match as contracts speak of it.
pub struct MatchView {
    pub start: int,
    pub branch: int,
    pub markers: Seq<Marker>,
}

impl View for Match {
    type V = MatchView;

    open spec fn view(&self) -> MatchView {
        MatchView { start: self.start as int, branch: self.branch as int, markers: self.markers@ }
    }
}

/// The views of a list of matches.
pub open spec fn views(ms: Seq<Match>) -> Seq<MatchView> {
    ms.map_values(|m: Match| m@)
}

/// Whether the node `n` is an element of the shape asked for.
pub open spec fn meets(t: DocTree, n: int, shape: MathShape) -> bool {
    &&& !t.nodes@[n].is_text
    &&& t.nodes@[n].name@ == shape.tag@
    &&& match shape.content {
        Some(c) => leaf_text(t, n, false, false) == c@,
        None => true,
    }
}

/// Decides `meets`.
pub fn has_shape(tree: &DocTree, node: usize, shape: &MathShape) -> (r: bool)
    requires
        tree.wf(),
        node < tree.nodes@.len(),
    ensures
        r == meets(*tree, node as int, *shape),
{
    let n = &tree.nodes[node];
    if n.is_text || !same_chars(&n.name, &shape.tag) {
        return false;
    }
    match &shape.content {
        Some(c) => {
            let mut out: Vec<char> = Vec::new();
            raw_into(tree, node, &mut out);
            assert(out@ =~= leaf_text(*tree, node as int, false, false));
            same_chars(&out, c)
        },
        None => true,
    }
}

/// The first element of the shape asked for in the subtree at `n`, in document order.
pub open spec fn first_tagged(t: DocTree, n: int, shape: MathShape) -> Option<int>
    decreases t.nodes@.len() - n, 1int, 0int,
{
    if !(0 <= n < t.nodes@.len()) {
        None
    } else if meets(t, n, shape) {
        Some(n)
    } else {
        first_tagged_below(t, n, 0, shape)
    }
}

/// The first element of the shape asked for below the children of `n` from position `k` on.
pub open spec fn first_tagged_below(t: DocTree, n: int, k: int, shape: MathShape) -> Option<int>
    decreases t.nodes@.len() - n, 0int, t.nodes@[n].children@.len() - k,
{
    if !(0 <= n < t.nodes@.len()) || !(0 <= k < t.nodes@[n].children@.len()) {
        None
    } else {
        let c = t.nodes@[n].children@[k] as int;
        let here = if n < c < t.nodes@.len() {
            first_tagged(t, c, shape)
        } else {
            None
        };
        match here {
            Some(m) => Some(m),
            None => first_tagged_below(t, n, k + 1, shape),
        }
    }
}

/// Finds the first element of the shape asked for in the subtree at `node`.
pub fn find_tagged(tree: &DocTree, node: usize, shape: &MathShape) -> (r: Option<usize>)
    requires
        tree.wf(),
    ensures
        match r {
            Some(m) => first_tagged(*tree, node as int, *shape) == Some(m as int),
            None => first_tagged(*tree, node as int, *shape) is None,
        },
    decreases tree.nodes@.len() - node,
{
    if node >= tree.nodes.len() {
        return None;
    }
    let n = &tree.nodes[node];
    if has_shape(tree, node, shape) {
        return Some(node);
    }
    let m: usize = n.children.len();
    let mut k: usize = 0;
    while k < m
        invariant
            tree.wf(),
            node < tree.nodes@.len(),
            n == &tree.nodes@[node as int],
            m == n.children@.len(),
            k <= m,
            first_tagged(*tree, node as int, *shape) == first_tagged_below(
                *tree,
                node as int,
                k as int,
                *shape,
            ),
        decreases m - k,
    {
        let c: usize = n.children[k];
        if node < c && c < tree.nodes.len() {
            match find_tagged(tree, c, shape) {
                Some(found) => {
                    return Some(found);
                },
                None => {},
            }
        }
        k += 1;
    }
    None
}

/// Whether a token meets a constraint on its text, lemma or part of speech.
pub open spec fn token_fits(kind: StepKind, tok: Token) -> bool {
    match kind {
        StepKind::Word(words) => in_set(words@, tok.text@),
        StepKind::Lemma(words) => in_set(words@, tok.lemma@),
        StepKind::Pos(words) => in_set(words@, tok.pos@),
        _ => false,
    }
}

/// The marker of step `i` over the tokens from `first` up to `end`, where the step captures.
pub open spec fn text_marker(step: Step, i: int, first: int, end: int) -> Seq<Marker> {
    if step.capture is Some {
        seq![(Marker::Text { capture: i as usize, first: first as usize, end: end as usize })]
    } else {
        Seq::empty()
    }
}

/// The marker of step `i` at the node `node`, where the step captures.
pub open spec fn math_marker(step: Step, i: int, node: int) -> Seq<Marker> {
    if step.capture is Some {
        seq![(Marker::Math { capture: i as usize, node: node as usize })]
    } else {
        Seq::empty()
    }
}

/// `ms` before the markers of the rest, where the rest is met.
pub open spec fn before(ms: Seq<Marker>, rest: Option<Seq<Marker>>) -> Option<Seq<Marker>> {
    match rest {
        Some(r) => Some(ms + r),
        None => None,
    }
}

/// The markers of the steps of `br` from `i` on, met from token `pos` on; none
/// where they cannot be met. A token step takes the token at `pos`. A phrase
/// step takes the tokens of the first phrase, in the order of the sentence's
/// phrases, that fits at `pos` and after which the rest of the branch is met.
pub open spec fn run(br: Branch, s: Sentence, t: DocTree, i: int, pos: int) -> Option<Seq<Marker>>
    decreases br.steps@.len() - i, 1int, 0int,
{
    if !(0 <= i < br.steps@.len()) {
        Some(Seq::empty())
    } else {
        let step = br.steps@[i];
        match step.kind {
            StepKind::Phrase(_) => try_phrases(br, s, t, i, pos, 0),
            StepKind::Math(shape) => if 0 <= pos < s.tokens@.len() {
                match s.tokens@[pos].math {
                    Some(root) => match first_tagged(t, root as int, shape) {
                        Some(node) => before(math_marker(step, i, node), run(br, s, t, i + 1, pos + 1)),
                        None => None,
                    },
                    None => None,
                }
            } else {
                None
            },
            _ => if 0 <= pos < s.tokens@.len() && token_fits(step.kind, s.tokens@[pos]) {
                before(text_marker(step, i, pos, pos + 1), run(br, s, t, i + 1, pos + 1))
            } else {
                None
            },
        }
    }
}

/// The markers of the steps of `br` from the phrase step `i` on, where that
/// step takes a phrase at position `p` or later.
pub open spec fn try_phrases(
    br: Branch,
    s: Sentence,
    t: DocTree,
    i: int,
    pos: int,
    p: int,
) -> Option<Seq<Marker>>
    decreases br.steps@.len() - i, 0int, s.phrases@.len() - p,
{
    if !(0 <= i < br.steps@.len()) || !(0 <= p < s.phrases@.len()) {
        None
    } else {
        let step = br.steps@[i];
        let rest = match step.kind {
            StepKind::Phrase(shape) => if node_fits(shape, s, p, pos) {
                run(br, s, t, i + 1, s.phrases@[p].end as int)
            } else {
                None
            },
            _ => None,
        };
        match rest {
            Some(r) => Some(text_marker(step, i, pos, s.phrases@[p].end as int) + r),
            None => try_phrases(br, s, t, i, pos, p + 1),
        }
    }
}

/// The matches of the branches of `def` from `b` on that start at token `start`.
pub open spec fn matches_at(def: Definition, s: Sentence, t: DocTree, start: int, b: int) -> Seq<
    MatchView,
>
    decreases def.branches@.len() - b,
{
    if !(0 <= b < def.branches@.len()) {
        Seq::empty()
    } else {
        (match run(def.branches@[b], s, t, 0, start) {
            Some(ms) => seq![(MatchView { start: start, branch: b, markers: ms })],
            None => Seq::empty(),
        }) + matches_at(def, s, t, start, b + 1)
    }
}

/// The matches of `def` that start at token `start` or later: by ascending
/// start, and for one start in the order of the branches.
pub open spec fn matches_from(def: Definition, s: Sentence, t: DocTree, start: int) -> Seq<
    MatchView,
>
    decreases s.tokens@.len() - start,
{
    if !(0 <= start < s.tokens@.len()) {
        Seq::empty()
    } else {
        matches_at(def, s, t, start, 0) + matches_from(def, s, t, start + 1)
    }
}

/// The position of the first definition named `name` at or after `from`.
pub open spec fn definition_index(defs: Seq<Definition>, name: Seq<char>, from: int) -> Option<int>
    decreases defs.len() - from,
{
    if from < 0 || from >= defs.len() {
        None
    } else if defs[from].name@ == name {
        Some(from)
    } else {
        definition_index(defs, name, from + 1)
    }
}

/// Puts the marker `m` before the markers of the rest.
fn put_before(m: Option<Marker>, rest: Vec<Marker>) -> (r: Vec<Marker>)
    ensures
        r@ == (match m {
            Some(x) => seq![x],
            None => Seq::empty(),
        }) + rest@,
{
    match m {
        Some(x) => {
            let mut out: Vec<Marker> = Vec::new();
            out.push(x);
            let mut i: usize = 0;
            while i < rest.len()
                invariant
                    i <= rest@.len(),
                    out@ == seq![x] + rest@.take(i as int),
                decreases rest@.len() - i,
            {
                out.push(rest[i]);
                i += 1;
                assert(out@ =~= seq![x] + rest@.take(i as int));
            }
            assert(rest@.take(rest@.len() as int) =~= rest@);
            out
        },
        None => {
            assert(Seq::<Marker>::empty() + rest@ =~= rest@);
            rest
        },
    }
}

/// Matches the steps of `br` from `i` on against the sentence from token `pos` on.
pub fn run_branch(br: &Branch, s: &Sentence, tree: &DocTree, i: usize, pos: usize) -> (r: Option<
    Vec<Marker>,
>)
    requires
        s.wf(),
        tree.wf(),
    ensures
        match r {
            Some(ms) => run(*br, *s, *tree, i as int, pos as int) == Some(ms@),
            None => run(*br, *s, *tree, i as int, pos as int) is None,
        },
    decreases br.steps@.len() - i, 1int,
{
    if i >= br.steps.len() {
        return Some(Vec::new());
    }
    let step = &br.steps[i];
    let captures: bool = step.capture.is_some();
    match &step.kind {
        StepKind::Phrase(shape) => run_phrases(br, s, tree, i, pos),
        StepKind::Math(shape) => {
            if pos >= s.tokens.len() {
                return None;
            }
            match s.tokens[pos].math {
                Some(root) => match find_tagged(tree, root, shape) {
                    Some(node) => match run_branch(br, s, tree, i + 1, pos + 1) {
                        Some(rest) => {
                            let m = if captures {
                                Some(Marker::Math { capture: i, node })
                            } else {
                                None
                            };
                            Some(put_before(m, rest))
                        },
                        None => None,
                    },
                    None => None,
                },
                None => None,
            }
        },
        kind => {
            if pos >= s.tokens.len() {
                return None;
            }
            let tok = &s.tokens[pos];
            let ok: bool = match kind {
                StepKind::Word(words) => contains_word(words, &tok.text),
                StepKind::Lemma(words) => contains_word(words, &tok.lemma),
                StepKind::Pos(words) => contains_word(words, &tok.pos),
                _ => false,
            };
            if !ok {
                return None;
            }
            match run_branch(br, s, tree, i + 1, pos + 1) {
                Some(rest) => {
                    let m = if captures {
                        Some(Marker::Text { capture: i, first: pos, end: pos + 1 })
                    } else {
                        None
                    };
                    Some(put_before(m, rest))
                },
                None => None,
            }
        },
    }
}

/// Tries the phrases of the sentence in turn for the phrase step `i`, and
/// goes on to the next phrase where the rest of the branch is not met.
fn run_phrases(br: &Branch, s: &Sentence, tree: &DocTree, i: usize, pos: usize) -> (r: Option<
    Vec<Marker>,
>)
    requires
        s.wf(),
        tree.wf(),
        i < br.steps@.len(),
    ensures
        match r {
            Some(ms) => try_phrases(*br, *s, *tree, i as int, pos as int, 0) == Some(ms@),
            None => try_phrases(*br, *s, *tree, i as int, pos as int, 0) is None,
        },
    decreases br.steps@.len() - i, 0int,
{
    let step = &br.steps[i];
    let captures: bool = step.capture.is_some();
    let ns: usize = br.steps.len();
    let mut p: usize = 0;
    while p < s.phrases.len()
        invariant
            s.wf(),
            tree.wf(),
            ns == br.steps@.len(),
            i < ns,
            step == &br.steps@[i as int],
            captures == (step.capture is Some),
            p <= s.phrases@.len(),
            try_phrases(*br, *s, *tree, i as int, pos as int, 0) == try_phrases(
                *br,
                *s,
                *tree,
                i as int,
                pos as int,
                p as int,
            ),
        decreases s.phrases@.len() - p,
    {
        match &step.kind {
            StepKind::Phrase(shape) => {
                if fits(shape, s, p, pos) {
                    let end: usize = s.phrases[p].end;
                    match run_branch(br, s, tree, i + 1, end) {
                        Some(rest) => {
                            let m = if captures {
                                Some(Marker::Text { capture: i, first: pos, end })
                            } else {
                                None
                            };
                            return Some(put_before(m, rest));
                        },
                        None => {},
                    }
                }
            },
            _ => {},
        }
        p += 1;
    }
    None
}

/// Finds the first definition named `name`.
pub fn find_definition(file: &PatternFile, name: &Vec<char>) -> (r: Option<usize>)
    ensures
        match r {
            Some(i) => i < file.definitions@.len() && definition_index(
                file.definitions@,
                name@,
                0,
            ) == Some(i as int),
            None => definition_index(file.definitions@, name@, 0) is None,
        },
{
    let mut i: usize = 0;
    while i < file.definitions.len()
        invariant
            i <= file.definitions@.len(),
            definition_index(file.definitions@, name@, 0) == definition_index(
                file.definitions@,
                name@,
                i as int,
            ),
        decreases file.definitions@.len() - i,
    {
        if same_chars(&file.definitions[i].name, name) {
            return Some(i);
        }
        i += 1;
    }
    None
}

/// All matches of a definition in a sentence: by ascending start, and for
/// one start in the order of the branches.
pub fn match_definition(def: &Definition, s: &Sentence, tree: &DocTree) -> (r: Vec<Match>)
    requires
        s.wf(),
        tree.wf(),
    ensures
        views(r@) == matches_from(*def, *s, *tree, 0),
{
    let mut out: Vec<Match> = Vec::new();
    let n: usize = s.tokens.len();
    let nb: usize = def.branches.len();
    let mut start: usize = 0;
    assert(views(out@) =~= Seq::empty());
    assert(views(out@) + matches_from(*def, *s, *tree, 0) =~= matches_from(*def, *s, *tree, 0));
    while start < n
        invariant
            s.wf(),
            tree.wf(),
            n == s.tokens@.len(),
            nb == def.branches@.len(),
            start <= n,
            views(out@) + matches_from(*def, *s, *tree, start as int) == matches_from(
                *def,
                *s,
                *tree,
                0,
            ),
        decreases n - start,
    {
        let ghost later = matches_from(*def, *s, *tree, start + 1);
        let mut b: usize = 0;
        assert(views(out@) + (matches_at(*def, *s, *tree, start as int, 0) + later) =~= views(out@)
            + matches_from(*def, *s, *tree, start as int));
        while b < nb
            invariant
                s.wf(),
                tree.wf(),
                start < n,
                n == s.tokens@.len(),
                nb == def.branches@.len(),
                b <= nb,
                later == matches_from(*def, *s, *tree, start + 1),
                views(out@) + (matches_at(*def, *s, *tree, start as int, b as int) + later)
                    == matches_from(*def, *s, *tree, 0),
            decreases nb - b,
        {
            let ghost old_views = views(out@);
            let ghost rest = matches_at(*def, *s, *tree, start as int, b + 1);
            match run_branch(&def.branches[b], s, tree, 0, start) {
                Some(markers) => {
                    let m = Match { start, branch: b, markers };
                    out.push(m);
                    proof {
                        assert(views(out@) =~= old_views.push(m@));
                        assert(views(out@) + (rest + later) =~= old_views + ((seq![m@] + rest)
                            + later));
                    }
                },
                None => {
                    assert(views(out@) + (rest + later) =~= old_views + ((Seq::<
                        MatchView,
                    >::empty() + rest) + later));
                },
            }
            b += 1;
        }
        assert(views(out@) + (matches_at(*def, *s, *tree, start as int, nb as int) + later)
            =~= views(out@) + later);
        start += 1;
    }
    assert(views(out@) + matches_from(*def, *s, *tree, n as int) =~= views(out@));
    out
}

/// What `match_sentence` returns for the pattern named `name`.
pub open spec fn matches_of(file: PatternFile, name: Seq<char>, s: Sentence, t: DocTree) -> Result<
    Seq<MatchView>,
    MatchError,
> {
    match definition_index(file.definitions@, name, 0) {
        Some(i) => Ok(matches_from(file.definitions@[i], s, t, 0)),
        None => Err(MatchError::UnknownPattern),
    }
}

/// Whether `r` is what `match_sentence` returns for the pattern named `name`.
pub open spec fn answers(
    r: Result<Vec<Match>, MatchError>,
    file: PatternFile,
    name: Seq<char>,
    s: Sentence,
    t: DocTree,
) -> bool {
    match r {
        Ok(ms) => matches_of(file, name, s, t) == Ok::<Seq<MatchView>, MatchError>(views(ms@)),
        Err(e) => matches_of(file, name, s, t) == Err::<Seq<MatchView>, MatchError>(e),
    }
}

/// Two answers to the same question are equal: both fail in the same way,
/// or both hold the same matches in the same order.
pub proof fn lemma_matching_is_determined(
    a: Result<Vec<Match>, MatchError>,
    b: Result<Vec<Match>, MatchError>,
    file: PatternFile,
    name: Seq<char>,
    s: Sentence,
    t: DocTree,
)
    requires
        answers(a, file, name, s, t),
        answers(b, file, name, s, t),
    ensures
        match (a, b) {
            (Ok(x), Ok(y)) => views(x@) == views(y@),
            (Err(e), Err(f)) => e == f,
            _ => false,
        },
{
}

/// Matches the pattern named `name` against a sentence. The file's first
/// definition of that name counts; where there is none, the error says so.
/// A pattern that nothing in the sentence meets gives an empty list.
pub fn match_sentence(file: &PatternFile, name: &Vec<char>, s: &Sentence, tree: &DocTree) -> (r:
    Result<Vec<Match>, MatchError>)
    requires
        s.wf(),
        tree.wf(),
    ensures
        answers(r, *file, name@, *s, *tree),
{
    match find_definition(file, name) {
        Some(i) => Ok(match_definition(&file.definitions[i], s, tree)),
        None => Err(MatchError::UnknownPattern),
    }
}

} // verus!
