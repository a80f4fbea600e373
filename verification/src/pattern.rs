//! Pattern definitions and parsed sentences.

use vstd::prelude::*;
use crate::dnm::DnmRange;
use crate::text::same_chars;

verus! {

/// The name and the descriptive tags of a capture point.
#[derive(Clone, Debug)]
pub struct PatternMarker {
    pub name: Vec<char>,
    pub tags: Vec<Vec<char>>,
}

/// The shape asked of a phrase node: its label and the labels of some of its children.
#[derive(Clone, Debug)]
pub struct Shape {
    pub label: Vec<char>,
    /// The labels asked of the children.
    pub children: Vec<Vec<char>>,
    /// Whether the children may stand in any order. Otherwise they are
    /// consecutive children, in this order.
    pub any_order: bool,
}

/// What is asked of an element in the mathematics of a token.
#[derive(Clone, Debug)]
pub struct MathShape {
    /// The tag name of the element.
    pub tag: Vec<char>,
    /// The plain content of the text leaves below the element, where it is asked for.
    pub content: Option<Vec<char>>,
}

/// What one step of a branch asks of the sentence.
#[derive(Clone, Debug)]
pub enum StepKind {
    /// The text of the next token is one of these.
    Word(Vec<Vec<char>>),
    /// The lemma of the next token is one of these.
    Lemma(Vec<Vec<char>>),
    /// The part-of-speech tag of the next token is one of these.
    Pos(Vec<Vec<char>>),
    /// The next token carries mathematics with an element of this shape.
    Math(MathShape),
    /// A phrase of this shape starts at the next token.
    Phrase(Shape),
}

/// A constraint, with its capture point where it has one.
#[derive(Clone, Debug)]
pub struct Step {
    pub kind: StepKind,
    pub capture: Option<PatternMarker>,
}

/// One alternative of a definition: constraints that are met one after the other.
#[derive(Clone, Debug)]
pub struct Branch {
    pub steps: Vec<Step>,
}

/// A named pattern: its alternatives in the order of their declaration.
#[derive(Clone, Debug)]
pub struct Definition {
    pub name: Vec<char>,
    pub branches: Vec<Branch>,
}

/// The named patterns that were loaded together.
#[derive(Clone, Debug)]
pub struct PatternFile {
    pub definitions: Vec<Definition>,
}

/// A token of a parsed sentence.
#[derive(Clone, Debug)]
pub struct Token {
    pub text: Vec<char>,
    pub lemma: Vec<char>,
    pub pos: Vec<char>,
    /// The root of the mathematics that the token stands for, in the document tree.
    pub math: Option<usize>,
}

/// A node of the phrase-structure tree. It spans the tokens from `first` up to `end`.
#[derive(Clone, Debug)]
pub struct PhraseNode {
    pub label: Vec<char>,
    pub first: usize,
    pub end: usize,
    pub children: Vec<usize>,
}

/// A parsed sentence: tokens, phrase-structure tree and the range of the
/// narrative model that the sentence covers.
#[derive(Clone, Debug)]
pub struct Sentence {
    pub tokens: Vec<Token>,
    pub phrases: Vec<PhraseNode>,
    pub range: DnmRange,
}

/// The result of one capture point.
#[derive(Clone, Copy, PartialEq, Eq, Debug)]
pub enum Marker {
    /// The tokens from `first` up to `end`.
    Text { capture: usize, first: usize, end: usize },
    /// A node of the mathematics of a token.
    Math { capture: usize, node: usize },
}

/// One way in which a branch of a pattern is met: where it starts, which
/// branch it is, and the markers of its capture points in the order of the
/// branch. A marker names its capture point by the position of the step.
#[derive(Clone, Debug)]
pub struct Match {
    pub start: usize,
    pub branch: usize,
    pub markers: Vec<Marker>,
}

/// Why no matching took place.
#[derive(Clone, Copy, PartialEq, Eq, Debug)]
pub enum MatchError {
    /// The file holds no pattern of the name asked for.
    UnknownPattern,
}

/// Why a set of definitions is no pattern file.
#[derive(Clone, Copy, PartialEq, Eq, Debug)]
pub enum PatternLoadError {
    /// The definition at this position has an empty name or no branch.
    Malformed(usize),
    /// The definition at this position has the name of an earlier one.
    Duplicate(usize),
}

/// The texts that a vector of words holds.
pub open spec fn texts(words: Seq<Vec<char>>) -> Seq<Seq<char>> {
    words.map_values(|w: Vec<char>| w@)
}

/// Whether `w` is one of `words`.
pub open spec fn in_set(words: Seq<Vec<char>>, w: Seq<char>) -> bool {
    exists|i: int| 0 <= i < words.len() && (#[trigger] words[i])@ == w
}

/// Decides `in_set`.
pub fn contains_word(words: &Vec<Vec<char>>, w: &Vec<char>) -> (r: bool)
    ensures
        r == in_set(words@, w@),
{
    let mut i: usize = 0;
    while i < words.len()
        invariant
            i <= words@.len(),
            forall|j: int| 0 <= j < i ==> (#[trigger] words@[j])@ != w@,
        decreases words@.len() - i,
    {
        if same_chars(&words[i], w) {
            return true;
        }
        i += 1;
    }
    false
}

/// How often `l` occurs among `labels`.
pub open spec fn count(labels: Seq<Seq<char>>, l: Seq<char>) -> nat
    decreases labels.len(),
{
    if labels.len() == 0 {
        0
    } else {
        count(labels.drop_last(), l) + if labels.last() == l {
            1nat
        } else {
            0nat
        }
    }
}

/// Whether the labels `asked` can be given to distinct members of `kids`,
/// whatever their order: no label is asked more often than it is there.
pub open spec fn covers(kids: Seq<Seq<char>>, asked: Seq<Seq<char>>) -> bool {
    forall|l: Seq<char>| #[trigger] count(asked, l) <= count(kids, l)
}

/// Whether the labels `asked` are those of consecutive members of `kids`, in order.
pub open spec fn has_window(kids: Seq<Seq<char>>, asked: Seq<Seq<char>>) -> bool {
    exists|j: int| window_at(kids, asked, j)
}

/// Whether the labels `asked` are those of the members of `kids` from position `j` on.
pub open spec fn window_at(kids: Seq<Seq<char>>, asked: Seq<Seq<char>>, j: int) -> bool {
    0 <= j && j + asked.len() <= kids.len() && kids.subrange(j, j + asked.len()) == asked
}

/// A label that is counted occurs.
pub proof fn lemma_counted_occurs(labels: Seq<Seq<char>>, l: Seq<char>)
    requires
        count(labels, l) > 0,
    ensures
        exists|i: int| 0 <= i < labels.len() && #[trigger] labels[i] == l,
    decreases labels.len(),
{
    if labels.len() > 0 {
        if labels.last() == l {
            assert(labels[labels.len() - 1] == l);
        } else {
            lemma_counted_occurs(labels.drop_last(), l);
            let i = choose|i: int| 0 <= i < labels.drop_last().len() && #[trigger] labels.drop_last()[i] == l;
            assert(labels[i] == l);
        }
    }
}

/// The count among two lists, one after the other, is the sum of the counts.
pub proof fn lemma_count_concat(a: Seq<Seq<char>>, b: Seq<Seq<char>>, l: Seq<char>)
    ensures
        count(a + b, l) == count(a, l) + count(b, l),
    decreases b.len(),
{
    if b.len() == 0 {
        assert(a + b =~= a);
    } else {
        assert((a + b).drop_last() =~= a + b.drop_last());
        assert((a + b).last() == b.last());
        lemma_count_concat(a, b.drop_last(), l);
    }
}

/// Labels that consecutive children meet in order are met in any order too.
pub proof fn lemma_window_covers(kids: Seq<Seq<char>>, asked: Seq<Seq<char>>)
    requires
        has_window(kids, asked),
    ensures
        covers(kids, asked),
{
    let j = choose|j: int| window_at(kids, asked, j);
    let pre = kids.subrange(0, j);
    let post = kids.subrange(j + asked.len(), kids.len() as int);
    assert(kids =~= (pre + asked) + post);
    assert forall|l: Seq<char>| #[trigger] count(asked, l) <= count(kids, l) by {
        lemma_count_concat(pre, asked, l);
        lemma_count_concat(pre + asked, post, l);
    }
}

/// The order in which two labels are asked does not count where any order
/// is allowed: children labelled `b` and `a` meet the labels `a` and `b`.
pub proof fn lemma_any_order_ignores_order(a: Seq<char>, b: Seq<char>)
    ensures
        covers(seq![b, a], seq![a, b]),
{
    let asked = seq![a, b];
    let kids = seq![b, a];
    assert forall|l: Seq<char>| #[trigger] count(asked, l) <= count(kids, l) by {
        lemma_count_of_two(a, b, l);
        lemma_count_of_two(b, a, l);
    }
}

/// The count of a label among two labels.
pub proof fn lemma_count_of_two(a: Seq<char>, b: Seq<char>, l: Seq<char>)
    ensures
        count(seq![a, b], l) == (if a == l {
            1nat
        } else {
            0nat
        }) + (if b == l {
            1nat
        } else {
            0nat
        }),
{
    assert(seq![a, b].drop_last() =~= seq![a]);
    assert(seq![a].drop_last() =~= Seq::<Seq<char>>::empty());
    assert(count(seq![a], l) == count(Seq::<Seq<char>>::empty(), l) + if a == l {
        1nat
    } else {
        0nat
    });
}

/// Whether the definition at `i` has a name and a branch, and no earlier
/// definition has its name.
pub open spec fn sound_at(defs: Seq<Definition>, i: int) -> bool {
    &&& !malformed_at(defs, i)
    &&& !duplicate_at(defs, i)
}

/// Whether the definition at `i` has an empty name or no branch.
pub open spec fn malformed_at(defs: Seq<Definition>, i: int) -> bool {
    defs[i].name@.len() == 0 || defs[i].branches@.len() == 0
}

/// Whether an earlier definition has the name of the definition at `i`.
pub open spec fn duplicate_at(defs: Seq<Definition>, i: int) -> bool {
    exists|j: int| 0 <= j < i && (#[trigger] defs[j]).name@ == defs[i].name@
}

impl PatternFile {
    /// Every definition has a name and a branch, and no two have one name.
    pub open spec fn wf(&self) -> bool {
        forall|i: int| 0 <= i < self.definitions@.len() ==> sound_at(self.definitions@, i)
    }

    /// Makes a pattern file of definitions. The error names the first
    /// definition that is not sound: malformed where it lacks a name or a
    /// branch, else a duplicate.
    pub fn load(defs: Vec<Definition>) -> (r: Result<PatternFile, PatternLoadError>)
        ensures
            match r {
                Ok(file) => file.definitions == defs && file.wf(),
                Err(PatternLoadError::Malformed(i)) => i < defs@.len() && malformed_at(
                    defs@,
                    i as int,
                ) && forall|j: int| 0 <= j < i ==> sound_at(defs@, j),
                Err(PatternLoadError::Duplicate(i)) => i < defs@.len() && !malformed_at(
                    defs@,
                    i as int,
                ) && duplicate_at(defs@, i as int) && forall|j: int|
                    0 <= j < i ==> sound_at(defs@, j),
            },
    {
        let mut i: usize = 0;
        while i < defs.len()
            invariant
                i <= defs@.len(),
                forall|j: int| 0 <= j < i ==> sound_at(defs@, j),
            decreases defs@.len() - i,
        {
            if defs[i].name.len() == 0 || defs[i].branches.len() == 0 {
                return Err(PatternLoadError::Malformed(i));
            }
            let mut j: usize = 0;
            while j < i
                invariant
                    j <= i < defs@.len(),
                    !malformed_at(defs@, i as int),
                    forall|y: int| 0 <= y < i ==> sound_at(defs@, y),
                    forall|x: int| 0 <= x < j ==> (#[trigger] defs@[x]).name@ != defs@[i as int].name@,
                decreases i - j,
            {
                if same_chars(&defs[j].name, &defs[i].name) {
                    assert(defs@[j as int].name@ == defs@[i as int].name@);
                    assert(duplicate_at(defs@, i as int));
                    return Err(PatternLoadError::Duplicate(i));
                }
                j += 1;
            }
            i += 1;
        }
        Ok(PatternFile { definitions: defs })
    }
}

impl Sentence {
    /// Every phrase spans tokens of the sentence and its children are phrases of the sentence.
    pub open spec fn wf(&self) -> bool {
        &&& forall|p: int|
            0 <= p < self.phrases@.len() ==> (#[trigger] self.phrases@[p]).end
                <= self.tokens@.len()
        &&& forall|p: int, j: int|
            0 <= p < self.phrases@.len() && 0 <= j < self.phrases@[p].children@.len()
                ==> #[trigger] self.phrases@[p].children@[j] < self.phrases@.len()
    }

    /// The labels of the children of phrase `p`, in order.
    pub open spec fn kid_labels(&self, p: int) -> Seq<Seq<char>> {
        Seq::new(
            self.phrases@[p].children@.len(),
            |j: int| self.phrases@[self.phrases@[p].children@[j] as int].label@,
        )
    }

    /// Decides `wf`.
    pub fn is_well_formed(&self) -> (r: bool)
        ensures
            r == self.wf(),
    {
        let n: usize = self.phrases.len();
        let mut p: usize = 0;
        while p < n
            invariant
                n == self.phrases@.len(),
                p <= n,
                forall|a: int| 0 <= a < p ==> (#[trigger] self.phrases@[a]).end <= self.tokens@.len(),
                forall|a: int, j: int|
                    0 <= a < p && 0 <= j < self.phrases@[a].children@.len()
                        ==> #[trigger] self.phrases@[a].children@[j] < n,
            decreases n - p,
        {
            let node = &self.phrases[p];
            if node.end > self.tokens.len() {
                return false;
            }
            let m: usize = node.children.len();
            let mut k: usize = 0;
            while k < m
                invariant
                    p < n,
                    n == self.phrases@.len(),
                    node == &self.phrases@[p as int],
                    m == node.children@.len(),
                    k <= m,
                    forall|j: int| 0 <= j < k ==> #[trigger] node.children@[j] < n,
                decreases m - k,
            {
                if node.children[k] >= n {
                    assert(!(self.phrases@[p as int].children@[k as int] < n));
                    return false;
                }
                k += 1;
            }
            p += 1;
        }
        true
    }
}

} // verus!
