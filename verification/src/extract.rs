//! Extraction of declarations: the located identifiers that the pattern
//! named `declaration` finds in the sentences of a document.

use vstd::prelude::*;
use crate::dnm::{build, dnm_spans, dnm_text, Dnm, DnmConfig, Linearizer, PolicyEntry, TagPolicy};
use crate::locate::{locator, serialize_node};
use crate::matcher::{
    definition_index, find_definition, match_definition, matches_from, views, MatchView,
};
use crate::pattern::{
    Branch, Definition, Marker, Match, MatchError, PatternFile, PatternMarker, Sentence,
};
use crate::text::{append_chars, append_str, chars_of, is_word, string_of};
use crate::tree::DocTree;

verus! {

/// The tags from position `k` on, each in single quotes, with a comma and a space between two.
pub open spec fn tags_text(tags: Seq<Vec<char>>, k: int) -> Seq<char>
    decreases tags.len() - k,
{
    if !(0 <= k < tags.len()) {
        Seq::empty()
    } else {
        (if k > 0 {
            ", "@
        } else {
            Seq::empty()
        }) + "'"@ + tags[k]@ + "'"@ + tags_text(tags, k + 1)
    }
}

/// A capture point in readable form: its name, then its tags in braces.
pub open spec fn marker_text(m: PatternMarker) -> Seq<char> {
    m.name@ + " {"@ + tags_text(m.tags@, 0) + "}"@
}

/// Writes a capture point in readable form.
pub fn get_pattern_marker_string(marker: &PatternMarker) -> (r: String)
    ensures
        r@ == marker_text(*marker),
{
    let mut out: Vec<char> = Vec::new();
    append_chars(&mut out, &marker.name);
    append_str(&mut out, " {");
    let ghost head = out@;
    let mut k: usize = 0;
    while k < marker.tags.len()
        invariant
            k <= marker.tags@.len(),
            head == marker.name@ + " {"@,
            out@ + tags_text(marker.tags@, k as int) == head + tags_text(marker.tags@, 0),
        decreases marker.tags@.len() - k,
    {
        let ghost before = out@;
        if k > 0 {
            append_str(&mut out, ", ");
        }
        append_str(&mut out, "'");
        append_chars(&mut out, &marker.tags[k]);
        append_str(&mut out, "'");
        proof {
            let rest = tags_text(marker.tags@, k + 1);
            let sep = if k > 0 {
                ", "@
            } else {
                Seq::<char>::empty()
            };
            assert(out@ =~= before + (sep + "'"@ + marker.tags@[k as int]@ + "'"@));
            assert(out@ + rest =~= before + (sep + "'"@ + marker.tags@[k as int]@ + "'"@ + rest));
        }
        k += 1;
    }
    assert(out@ + tags_text(marker.tags@, marker.tags@.len() as int) =~= out@);
    append_str(&mut out, "}");
    assert(out@ =~= marker_text(*marker));
    string_of(&out)
}

/// What is printed for a marker of a match of `br`: for a math marker whose
/// capture point is named `identifier`, the path from `root` to its node;
/// for any other marker nothing.
pub open spec fn printed(br: Branch, t: DocTree, root: int, m: Marker) -> Option<Seq<char>> {
    match m {
        Marker::Text { .. } => None,
        Marker::Math { capture, node } => if capture < br.steps@.len() {
            match br.steps@[capture as int].capture {
                Some(point) => if point.name@ == "identifier"@ {
                    Some(locator(t, root, node as int))
                } else {
                    None
                },
                None => None,
            }
        } else {
            None
        },
    }
}

/// Prints a marker of a match of `br`, relative to the root of the model `alt`.
pub fn print_marker(marker: &Marker, br: &Branch, tree: &DocTree, alt: &Dnm) -> (r: Option<
    String,
>)
    ensures
        match r {
            Some(s) => printed(*br, *tree, alt.root as int, *marker) == Some(s@),
            None => printed(*br, *tree, alt.root as int, *marker) is None,
        },
{
    match marker {
        Marker::Text { .. } => None,
        Marker::Math { capture, node } => {
            if *capture < br.steps.len() {
                match &br.steps[*capture].capture {
                    Some(point) => {
                        if is_word(&point.name, "identifier") {
                            let path = serialize_node(tree, alt.root, *node);
                            Some(string_of(&path))
                        } else {
                            None
                        }
                    },
                    None => None,
                }
            } else {
                None
            }
        },
    }
}

/// Whether the entry at `i` is for `key` and skips.
pub open spec fn skips(entries: Seq<PolicyEntry>, i: int, key: Seq<char>) -> bool {
    entries[i].key@ == key && entries[i].policy == TagPolicy::Skip
}

/// Whether the entry at `i` is for `key` and linearizes as mathematics.
pub open spec fn linearizes(entries: Seq<PolicyEntry>, i: int, key: Seq<char>) -> bool {
    entries[i].key@ == key && entries[i].policy == TagPolicy::FunctionNormalize(Linearizer::Math)
}

/// Whether the entry at `i` is for `key` and puts `label` in its place.
pub open spec fn labels(entries: Seq<PolicyEntry>, i: int, key: Seq<char>, label: Seq<char>) -> bool {
    entries[i].key@ == key && match entries[i].policy {
        TagPolicy::NormalizeToLabel(l) => l@ == label,
        _ => false,
    }
}

/// The configuration for printing: mathematics and equations are linearized,
/// citations become a label, and tables, headings, notes and the
/// bibliography are skipped. Blank runs are collapsed, and the map is kept.
pub open spec fn is_print_config(cfg: DnmConfig) -> bool {
    &&& cfg.name_policies@.len() == 4
    &&& linearizes(cfg.name_policies@, 0, "math"@)
    &&& labels(cfg.name_policies@, 1, "cite"@, "CitationElement"@)
    &&& skips(cfg.name_policies@, 2, "table"@)
    &&& skips(cfg.name_policies@, 3, "head"@)
    &&& cfg.class_policies@.len() == 5
    &&& linearizes(cfg.class_policies@, 0, "ltx_equation"@)
    &&& linearizes(cfg.class_policies@, 1, "ltx_equationgroup"@)
    &&& skips(cfg.class_policies@, 2, "ltx_note_mark"@)
    &&& skips(cfg.class_policies@, 3, "ltx_note_outer"@)
    &&& skips(cfg.class_policies@, 4, "ltx_bibliography"@)
    &&& cfg.normalize_whitespace
    &&& !cfg.normalize_unicode
    &&& !cfg.wrap_tokens
    &&& cfg.back_mapping
}

/// An entry that skips `key`.
fn skip_entry(key: &str) -> (e: PolicyEntry)
    ensures
        e.key@ == key@,
        e.policy == TagPolicy::Skip,
{
    PolicyEntry { key: chars_of(key), policy: TagPolicy::Skip }
}

/// An entry that linearizes `key` as mathematics.
fn math_entry(key: &str) -> (e: PolicyEntry)
    ensures
        e.key@ == key@,
        e.policy == TagPolicy::FunctionNormalize(Linearizer::Math),
{
    PolicyEntry { key: chars_of(key), policy: TagPolicy::FunctionNormalize(Linearizer::Math) }
}

/// Makes the configuration for printing.
pub fn print_config() -> (cfg: DnmConfig)
    ensures
        is_print_config(cfg),
{
    let mut names: Vec<PolicyEntry> = Vec::new();
    names.push(math_entry("math"));
    names.push(
        PolicyEntry {
            key: chars_of("cite"),
            policy: TagPolicy::NormalizeToLabel(chars_of("CitationElement")),
        },
    );
    names.push(skip_entry("table"));
    names.push(skip_entry("head"));
    let mut classes: Vec<PolicyEntry> = Vec::new();
    classes.push(math_entry("ltx_equation"));
    classes.push(math_entry("ltx_equationgroup"));
    classes.push(skip_entry("ltx_note_mark"));
    classes.push(skip_entry("ltx_note_outer"));
    classes.push(skip_entry("ltx_bibliography"));
    DnmConfig {
        name_policies: names,
        class_policies: classes,
        normalize_whitespace: true,
        normalize_unicode: false,
        wrap_tokens: false,
        back_mapping: true,
    }
}

/// Builds the model that is more readable for printing, from `root`, and
/// gives it with the configuration that it was built with.
pub fn get_alternative_dnm(tree: &DocTree, root: usize) -> (r: (Dnm, DnmConfig))
    requires
        tree.wf(),
        root < tree.nodes@.len(),
    ensures
        is_print_config(r.1),
        r.0.root == root,
        r.0.text@ == dnm_text(*tree, r.1, root as int),
        r.0.spans@ == dnm_spans(*tree, r.1, root as int, 0),
{
    let cfg = print_config();
    let d = build(tree, root, &cfg);
    (d, cfg)
}

/// What is printed for the markers of a match of `br` from position `k` on.
pub open spec fn printed_markers(br: Branch, t: DocTree, root: int, ms: Seq<Marker>, k: int) -> Seq<
    Seq<char>,
>
    decreases ms.len() - k,
{
    if !(0 <= k < ms.len()) {
        Seq::empty()
    } else {
        (match printed(br, t, root, ms[k]) {
            Some(s) => seq![s],
            None => Seq::empty(),
        }) + printed_markers(br, t, root, ms, k + 1)
    }
}

/// What is printed for the matches of `def` from position `k` on.
pub open spec fn printed_matches(
    def: Definition,
    t: DocTree,
    root: int,
    ms: Seq<MatchView>,
    k: int,
) -> Seq<Seq<char>>
    decreases ms.len() - k,
{
    if !(0 <= k < ms.len()) {
        Seq::empty()
    } else {
        (if 0 <= ms[k].branch < def.branches@.len() {
            printed_markers(def.branches@[ms[k].branch], t, root, ms[k].markers, 0)
        } else {
            Seq::empty()
        }) + printed_matches(def, t, root, ms, k + 1)
    }
}

/// What is printed for the sentences from position `k` on, in their order.
pub open spec fn printed_sentences(
    def: Definition,
    t: DocTree,
    root: int,
    sentences: Seq<Sentence>,
    k: int,
) -> Seq<Seq<char>>
    decreases sentences.len() - k,
{
    if !(0 <= k < sentences.len()) {
        Seq::empty()
    } else {
        printed_matches(def, t, root, matches_from(def, sentences[k], t, 0), 0)
            + printed_sentences(def, t, root, sentences, k + 1)
    }
}

/// The texts of a list of strings.
pub open spec fn lines(out: Seq<String>) -> Seq<Seq<char>> {
    out.map_values(|s: String| s@)
}

/// What `get_declarations` returns.
pub open spec fn declarations(
    file: PatternFile,
    t: DocTree,
    root: int,
    sentences: Seq<Sentence>,
) -> Result<Seq<Seq<char>>, MatchError> {
    if sentences.len() == 0 {
        Ok(Seq::empty())
    } else {
        match definition_index(file.definitions@, "declaration"@, 0) {
            Some(i) => Ok(printed_sentences(file.definitions@[i], t, root, sentences, 0)),
            None => Err(MatchError::UnknownPattern),
        }
    }
}

/// Appends what is printed for one match.
fn print_match(def: &Definition, tree: &DocTree, alt: &Dnm, m: &Match, out: &mut Vec<String>)
    ensures
        lines(final(out)@) == lines(old(out)@) + (if m.branch < def.branches@.len() {
            printed_markers(def.branches@[m.branch as int], *tree, alt.root as int, m.markers@, 0)
        } else {
            Seq::empty()
        }),
{
    if m.branch >= def.branches.len() {
        assert(lines(out@) + Seq::<Seq<char>>::empty() =~= lines(out@));
        return ;
    }
    let br = &def.branches[m.branch];
    let ghost root = alt.root as int;
    let mut k: usize = 0;
    assert(lines(out@) + printed_markers(*br, *tree, root, m.markers@, 0) =~= lines(old(out)@)
        + printed_markers(*br, *tree, root, m.markers@, 0));
    while k < m.markers.len()
        invariant
            k <= m.markers@.len(),
            root == alt.root as int,
            lines(out@) + printed_markers(*br, *tree, root, m.markers@, k as int) == lines(
                old(out)@,
            ) + printed_markers(*br, *tree, root, m.markers@, 0),
        decreases m.markers@.len() - k,
    {
        let ghost before = lines(out@);
        let ghost rest = printed_markers(*br, *tree, root, m.markers@, k + 1);
        match print_marker(&m.markers[k], br, tree, alt) {
            Some(s) => {
                out.push(s);
                assert(lines(out@) =~= before.push(s@));
                assert(lines(out@) + rest =~= before + (seq![s@] + rest));
            },
            None => {
                assert(lines(out@) + rest =~= before + (Seq::<Seq<char>>::empty() + rest));
            },
        }
        k += 1;
    }
    assert(lines(out@) + printed_markers(*br, *tree, root, m.markers@, m.markers@.len() as int)
        =~= lines(out@));
}

/// Appends what is printed for the matches of one sentence.
fn print_matches(def: &Definition, tree: &DocTree, alt: &Dnm, ms: &Vec<Match>, out: &mut Vec<String>)
    ensures
        lines(final(out)@) == lines(old(out)@) + printed_matches(
            *def,
            *tree,
            alt.root as int,
            views(ms@),
            0,
        ),
{
    let ghost root = alt.root as int;
    let ghost vs = views(ms@);
    let mut k: usize = 0;
    assert(lines(out@) + printed_matches(*def, *tree, root, vs, 0) =~= lines(old(out)@)
        + printed_matches(*def, *tree, root, vs, 0));
    while k < ms.len()
        invariant
            k <= ms@.len(),
            root == alt.root as int,
            vs == views(ms@),
            lines(out@) + printed_matches(*def, *tree, root, vs, k as int) == lines(old(out)@)
                + printed_matches(*def, *tree, root, vs, 0),
        decreases ms@.len() - k,
    {
        let ghost before = lines(out@);
        let ghost rest = printed_matches(*def, *tree, root, vs, k + 1);
        print_match(def, tree, alt, &ms[k], out);
        proof {
            assert(vs[k as int] == ms@[k as int]@);
            let here = if 0 <= vs[k as int].branch < def.branches@.len() {
                printed_markers(
                    def.branches@[vs[k as int].branch],
                    *tree,
                    root,
                    vs[k as int].markers,
                    0,
                )
            } else {
                Seq::<Seq<char>>::empty()
            };
            assert(lines(out@) == before + here);
            assert(lines(out@) + rest =~= before + (here + rest));
        }
        k += 1;
    }
    assert(lines(out@) + printed_matches(*def, *tree, root, vs, ms@.len() as int) =~= lines(out@));
}

/// The locations of the identifiers that the pattern named `declaration`
/// finds in the sentences of a document, sentence by sentence. The
/// locations are paths from `root`. Text markers are not printed. Without
/// sentences the list is empty, whatever the file holds; with sentences, a
/// file without that pattern is an error.
pub fn get_declarations(file: &PatternFile, tree: &DocTree, root: usize, sentences: &Vec<Sentence>)
    -> (r: Result<Vec<String>, MatchError>)
    requires
        tree.wf(),
        root < tree.nodes@.len(),
        forall|k: int| 0 <= k < sentences@.len() ==> (#[trigger] sentences@[k]).wf(),
    ensures
        match r {
            Ok(out) => declarations(*file, *tree, root as int, sentences@) == Ok::<
                Seq<Seq<char>>,
                MatchError,
            >(lines(out@)),
            Err(e) => declarations(*file, *tree, root as int, sentences@) == Err::<
                Seq<Seq<char>>,
                MatchError,
            >(e),
        },
        sentences@.len() == 0 ==> r is Ok && r->Ok_0@.len() == 0,
{
    let mut out: Vec<String> = Vec::new();
    assert(lines(out@) =~= Seq::empty());
    if sentences.len() == 0 {
        return Ok(out);
    }
    let name = chars_of("declaration");
    let i = match find_definition(file, &name) {
        Some(i) => i,
        None => {
            return Err(MatchError::UnknownPattern);
        },
    };
    let def = &file.definitions[i];
    let (alt, _) = get_alternative_dnm(tree, root);
    let mut k: usize = 0;
    assert(lines(out@) + printed_sentences(*def, *tree, root as int, sentences@, 0)
        =~= printed_sentences(*def, *tree, root as int, sentences@, 0));
    while k < sentences.len()
        invariant
            k <= sentences@.len(),
            tree.wf(),
            alt.root == root,
            forall|j: int| 0 <= j < sentences@.len() ==> (#[trigger] sentences@[j]).wf(),
            lines(out@) + printed_sentences(*def, *tree, root as int, sentences@, k as int)
                == printed_sentences(*def, *tree, root as int, sentences@, 0),
        decreases sentences@.len() - k,
    {
        let ghost before = lines(out@);
        let ghost rest = printed_sentences(*def, *tree, root as int, sentences@, k + 1);
        let ms = match_definition(def, &sentences[k], tree);
        print_matches(def, tree, &alt, &ms, &mut out);
        proof {
            let here = printed_matches(*def, *tree, root as int, views(ms@), 0);
            assert(lines(out@) + rest =~= before + (here + rest));
        }
        k += 1;
    }
    assert(lines(out@) + printed_sentences(
        *def,
        *tree,
        root as int,
        sentences@,
        sentences@.len() as int,
    ) =~= lines(out@));
    Ok(out)
}

} // verus!
