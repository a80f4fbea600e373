use llamapun::align::{aligns_any_order, aligns_in_order, fits};
use llamapun::dnm::DnmRange;
use llamapun::extract::{get_declarations, get_pattern_marker_string, print_marker};
use llamapun::extract::get_alternative_dnm as alt_model;
use llamapun::locate::{push_decimal, serialize_node};
use llamapun::matcher::{find_tagged, match_sentence, run_branch};
use llamapun::pattern::{
    contains_word, Branch, Definition, Marker, MatchError, MathShape, PatternFile, PatternLoadError,
    PatternMarker, PhraseNode,
    Sentence, Shape, Step, StepKind, Token,
};
use llamapun::text::{chars_of as cs, string_of};
use llamapun::tree::{DocNode, DocTree};

fn elem(name: &str, parent: Option<usize>, children: Vec<usize>) -> DocNode {
    DocNode { name: cs(name), classes: Vec::new(), is_text: false, content: Vec::new(), parent, children }
}

fn leaf(content: &str, parent: usize) -> DocNode {
    DocNode {
        name: cs("text"),
        classes: Vec::new(),
        is_text: true,
        content: cs(content),
        parent: Some(parent),
        children: Vec::new(),
    }
}

fn words(ws: &[&str]) -> Vec<Vec<char>> {
    ws.iter().map(|w| cs(w)).collect()
}

fn token(text: &str, pos: &str, math: Option<usize>) -> Token {
    Token { text: cs(text), lemma: cs(&text.to_lowercase()), pos: cs(pos), math }
}

fn phrase(label: &str, first: usize, end: usize, children: Vec<usize>) -> PhraseNode {
    PhraseNode { label: cs(label), first, end, children }
}

fn tagged(tag: &str) -> MathShape {
    MathShape { tag: cs(tag), content: None }
}

fn capture(name: &str, tags: &[&str]) -> Option<PatternMarker> {
    Some(PatternMarker { name: cs(name), tags: words(tags) })
}

// <p>Let <math><mi>x</mi></math> be a prime number.</p>
fn document() -> DocTree {
    DocTree {
        nodes: vec![
            elem("p", None, vec![1, 2, 5]),
            leaf("Let ", 0),
            elem("math", Some(0), vec![3]),
            elem("mi", Some(2), vec![4]),
            leaf("x", 3),
            leaf(" be a prime number.", 0),
        ],
    }
}

// (S (VB Let) (NP x) (VP (VB be) (NP (DT a) (JJ prime) (NN number))) (. .))
fn sentence() -> Sentence {
    Sentence {
        tokens: vec![
            token("Let", "VB", None),
            token("MathFormula", "NN", Some(2)),
            token("be", "VB", None),
            token("a", "DT", None),
            token("prime", "JJ", None),
            token("number", "NN", None),
            token(".", ".", None),
        ],
        phrases: vec![
            phrase("S", 0, 7, vec![1, 2, 3]),
            phrase("VB", 0, 1, vec![]),
            phrase("NP", 1, 2, vec![]),
            phrase("VP", 2, 6, vec![4, 5]),
            phrase("VB", 2, 3, vec![]),
            phrase("NP", 3, 6, vec![6, 7, 8]),
            phrase("DT", 3, 4, vec![]),
            phrase("JJ", 4, 5, vec![]),
            phrase("NN", 5, 6, vec![]),
        ],
        range: DnmRange { start: 0, end: 26 },
    }
}

fn declaration_file() -> PatternFile {
    PatternFile {
        definitions: vec![Definition {
            name: cs("declaration"),
            branches: vec![Branch {
                steps: vec![
                    Step { kind: StepKind::Word(words(&["Let", "Suppose"])), capture: None },
                    Step { kind: StepKind::Math(tagged("mi")), capture: capture("identifier", &["math"]) },
                ],
            }],
        }],
    }
}

#[test]
fn declaration_is_found_end_to_end() {
    let t = document();
    let s = sentence();
    assert!(t.is_well_formed());
    assert!(s.is_well_formed());
    let file = declaration_file();
    let ms = match_sentence(&file, &cs("declaration"), &s, &t).unwrap();
    assert_eq!(ms.len(), 1);
    assert_eq!(ms[0].start, 0);
    assert_eq!(ms[0].branch, 0);
    assert_eq!(ms[0].markers, vec![Marker::Math { capture: 1, node: 3 }]);
    let point = file.definitions[0].branches[0].steps[1].capture.as_ref().unwrap();
    assert_eq!(string_of(&point.name), "identifier");
    let out = get_declarations(&file, &t, 0, &vec![s]).unwrap();
    assert_eq!(out, vec!["/p/math[2]/mi[1]".to_string()]);
}

#[test]
fn no_sentences_give_no_output() {
    let t = document();
    let out = get_declarations(&declaration_file(), &t, 0, &Vec::new());
    assert_eq!(out, Ok(Vec::new()));
    let empty = PatternFile { definitions: Vec::new() };
    assert_eq!(get_declarations(&empty, &t, 0, &Vec::new()), Ok(Vec::new()));
}

#[test]
fn missing_pattern_is_an_error() {
    let t = document();
    let s = sentence();
    let file = declaration_file();
    assert_eq!(
        match_sentence(&file, &cs("definition"), &s, &t).err(),
        Some(MatchError::UnknownPattern)
    );
    let empty = PatternFile { definitions: Vec::new() };
    assert_eq!(get_declarations(&empty, &t, 0, &vec![s]), Err(MatchError::UnknownPattern));
}

#[test]
fn matching_twice_gives_the_same() {
    let t = document();
    let s = sentence();
    let file = declaration_file();
    let a = match_sentence(&file, &cs("declaration"), &s, &t).unwrap();
    let b = match_sentence(&file, &cs("declaration"), &s, &t).unwrap();
    assert_eq!(a.len(), b.len());
    for i in 0..a.len() {
        assert_eq!(a[i].start, b[i].start);
        assert_eq!(a[i].branch, b[i].branch);
        assert_eq!(a[i].markers, b[i].markers);
    }
}

#[test]
fn no_branch_met_gives_no_match() {
    let t = document();
    let mut s = sentence();
    s.tokens[0].text = cs("Take");
    let ms = match_sentence(&declaration_file(), &cs("declaration"), &s, &t).unwrap();
    assert!(ms.is_empty());
    let out = get_declarations(&declaration_file(), &t, 0, &vec![s]).unwrap();
    assert!(out.is_empty());
}

#[test]
fn any_order_shape_matches_swapped_children() {
    // a node with children [B, A]
    let s = Sentence {
        tokens: vec![token("u", "B", None), token("v", "A", None)],
        phrases: vec![phrase("X", 0, 2, vec![1, 2]), phrase("B", 0, 1, vec![]), phrase("A", 1, 2, vec![])],
        range: DnmRange { start: 0, end: 3 },
    };
    assert!(s.is_well_formed());
    let asked = words(&["A", "B"]);
    assert!(aligns_any_order(&s, 0, &asked));
    assert!(!aligns_in_order(&s, 0, &asked));
    assert!(aligns_in_order(&s, 0, &words(&["B", "A"])));
    assert!(aligns_in_order(&s, 0, &words(&["A"])));
    assert!(aligns_in_order(&s, 0, &words(&[])));
    assert!(!aligns_any_order(&s, 0, &words(&["A", "A"])));
    assert!(!aligns_any_order(&s, 0, &words(&["A", "B", "C"])));
    let any = Shape { label: cs("X"), children: words(&["A", "B"]), any_order: true };
    let ordered = Shape { label: cs("X"), children: words(&["A", "B"]), any_order: false };
    assert!(fits(&any, &s, 0, 0));
    assert!(!fits(&ordered, &s, 0, 0));
    assert!(!fits(&any, &s, 0, 1));
    assert!(!fits(&any, &s, 1, 0));
    let t = DocTree { nodes: Vec::new() };
    let file = PatternFile {
        definitions: vec![Definition {
            name: cs("pair"),
            branches: vec![
                Branch { steps: vec![Step { kind: StepKind::Phrase(ordered), capture: capture("o", &[]) }] },
                Branch { steps: vec![Step { kind: StepKind::Phrase(any), capture: capture("a", &[]) }] },
            ],
        }],
    };
    let ms = match_sentence(&file, &cs("pair"), &s, &t).unwrap();
    assert_eq!(ms.len(), 1);
    assert_eq!(ms[0].branch, 1);
    assert_eq!(ms[0].markers, vec![Marker::Text { capture: 0, first: 0, end: 2 }]);
}

#[test]
fn matches_come_by_start_then_by_branch() {
    let t = document();
    let s = sentence();
    let file = PatternFile {
        definitions: vec![Definition {
            name: cs("nouns"),
            branches: vec![
                Branch { steps: vec![Step { kind: StepKind::Pos(words(&["NN", "VB"])), capture: capture("w", &[]) }] },
                Branch { steps: vec![Step { kind: StepKind::Lemma(words(&["let", "number"])), capture: None }] },
            ],
        }],
    };
    let ms = match_sentence(&file, &cs("nouns"), &s, &t).unwrap();
    let keys: Vec<(usize, usize)> = ms.iter().map(|m| (m.start, m.branch)).collect();
    assert_eq!(keys, vec![(0, 0), (0, 1), (1, 0), (2, 0), (5, 0), (5, 1)]);
    assert_eq!(ms[0].markers, vec![Marker::Text { capture: 0, first: 0, end: 1 }]);
    assert!(ms[1].markers.is_empty());
    assert_eq!(ms[4].markers, vec![Marker::Text { capture: 0, first: 5, end: 6 }]);
}

#[test]
fn phrase_step_goes_back_to_a_later_phrase() {
    // two phrases start at token 0; only after the longer one the rest is met
    let s = Sentence {
        tokens: vec![token("a", "DT", None), token("b", "NN", None), token("c", "VB", None)],
        phrases: vec![phrase("NP", 0, 1, vec![]), phrase("NP", 0, 2, vec![])],
        range: DnmRange { start: 0, end: 5 },
    };
    let t = DocTree { nodes: Vec::new() };
    let br = Branch {
        steps: vec![
            Step {
                kind: StepKind::Phrase(Shape { label: cs("NP"), children: Vec::new(), any_order: false }),
                capture: capture("np", &[]),
            },
            Step { kind: StepKind::Word(words(&["c"])), capture: capture("verb", &[]) },
        ],
    };
    assert_eq!(
        run_branch(&br, &s, &t, 0, 0),
        Some(vec![
            Marker::Text { capture: 0, first: 0, end: 2 },
            Marker::Text { capture: 1, first: 2, end: 3 },
        ])
    );
    assert_eq!(run_branch(&br, &s, &t, 0, 1), None);
    assert_eq!(run_branch(&br, &s, &t, 2, 3), Some(Vec::new()));
}

#[test]
fn tagged_node_is_the_first_in_document_order() {
    let t = DocTree {
        nodes: vec![
            elem("math", None, vec![1, 4]),
            elem("mrow", Some(0), vec![2]),
            elem("mi", Some(1), vec![3]),
            leaf("mi", 2),
            elem("mi", Some(0), vec![]),
        ],
    };
    assert_eq!(find_tagged(&t, 0, &tagged("mi")), Some(2));
    assert_eq!(find_tagged(&t, 4, &tagged("mi")), Some(4));
    assert_eq!(find_tagged(&t, 3, &tagged("mi")), None);
    assert_eq!(find_tagged(&t, 0, &tagged("mn")), None);
    assert_eq!(find_tagged(&t, 0, &tagged("math")), Some(0));
    assert_eq!(find_tagged(&t, 7, &tagged("mi")), None);
    // with a content asked for, the first element that has it is found
    let u = DocTree {
        nodes: vec![
            elem("math", None, vec![1, 3]),
            elem("mi", Some(0), vec![2]),
            leaf("x", 1),
            elem("mrow", Some(0), vec![4]),
            elem("mi", Some(3), vec![5, 6]),
            leaf("y", 4),
            leaf("z", 4),
        ],
    };
    let with = |c: &str| MathShape { tag: cs("mi"), content: Some(cs(c)) };
    assert_eq!(find_tagged(&u, 0, &with("x")), Some(1));
    assert_eq!(find_tagged(&u, 0, &with("yz")), Some(4));
    assert_eq!(find_tagged(&u, 0, &with("y")), None);
    assert_eq!(find_tagged(&u, 0, &with("")), None);
    assert_eq!(find_tagged(&u, 0, &MathShape { tag: cs("math"), content: Some(cs("xyz")) }), Some(0));
}

#[test]
fn word_sets() {
    assert!(contains_word(&words(&["a", "b"]), &cs("b")));
    assert!(!contains_word(&words(&["a", "b"]), &cs("c")));
    assert!(!contains_word(&words(&[]), &cs("")));
}

#[test]
fn marker_string_lists_the_tags() {
    let m = PatternMarker { name: cs("identifier"), tags: words(&["math", "new"]) };
    assert_eq!(get_pattern_marker_string(&m), "identifier {'math', 'new'}");
    let n = PatternMarker { name: cs("x"), tags: Vec::new() };
    assert_eq!(get_pattern_marker_string(&n), "x {}");
    let o = PatternMarker { name: cs(""), tags: words(&["t"]) };
    assert_eq!(get_pattern_marker_string(&o), " {'t'}");
}

#[test]
fn only_identifier_math_markers_are_printed() {
    let t = document();
    let (alt, _) = alt_model(&t, 0);
    let br = Branch {
        steps: vec![
            Step { kind: StepKind::Math(tagged("mi")), capture: capture("identifier", &[]) },
            Step { kind: StepKind::Math(tagged("mi")), capture: capture("other", &[]) },
            Step { kind: StepKind::Math(tagged("mi")), capture: None },
        ],
    };
    assert_eq!(
        print_marker(&Marker::Math { capture: 0, node: 3 }, &br, &t, &alt),
        Some("/p/math[2]/mi[1]".to_string())
    );
    assert_eq!(print_marker(&Marker::Math { capture: 1, node: 3 }, &br, &t, &alt), None);
    assert_eq!(print_marker(&Marker::Math { capture: 2, node: 3 }, &br, &t, &alt), None);
    assert_eq!(print_marker(&Marker::Math { capture: 9, node: 3 }, &br, &t, &alt), None);
    assert_eq!(print_marker(&Marker::Text { capture: 0, first: 0, end: 1 }, &br, &t, &alt), None);
}

#[test]
fn paths_count_children_from_one() {
    let t = document();
    assert_eq!(string_of(&serialize_node(&t, 0, 0)), "/p");
    assert_eq!(string_of(&serialize_node(&t, 0, 4)), "/p/math[2]/mi[1]/text[1]");
    assert_eq!(string_of(&serialize_node(&t, 2, 3)), "/math/mi[1]");
    assert_eq!(string_of(&serialize_node(&t, 0, 17)), "");
    let mut kids = Vec::new();
    let mut nodes = vec![elem("ul", None, Vec::new())];
    for i in 1..=12 {
        kids.push(i);
        nodes.push(elem("li", Some(0), Vec::new()));
    }
    nodes[0].children = kids;
    let wide = DocTree { nodes };
    assert_eq!(string_of(&serialize_node(&wide, 0, 12)), "/ul/li[12]");
    assert_eq!(string_of(&serialize_node(&wide, 0, 10)), "/ul/li[10]");
}

#[test]
fn decimal_numerals() {
    let mut out = Vec::new();
    push_decimal(&mut out, 0);
    out.push(' ');
    push_decimal(&mut out, 7);
    out.push(' ');
    push_decimal(&mut out, 10);
    out.push(' ');
    push_decimal(&mut out, 4096);
    assert_eq!(string_of(&out), "0 7 10 4096");
}

#[test]
fn malformed_sentences_are_recognized() {
    let mut s = sentence();
    assert!(s.is_well_formed());
    s.phrases[0].end = 8;
    assert!(!s.is_well_formed());
    let mut u = sentence();
    u.phrases[3].children = vec![4, 9];
    assert!(!u.is_well_formed());
}

#[test]
fn pattern_files_are_checked_on_load() {
    let def = |name: &str, branches: usize| Definition {
        name: cs(name),
        branches: (0..branches).map(|_| Branch { steps: Vec::new() }).collect(),
    };
    let good = PatternFile::load(vec![def("a", 1), def("b", 2)]);
    assert_eq!(good.map(|f| f.definitions.len()).ok(), Some(2));
    assert_eq!(PatternFile::load(Vec::new()).map(|f| f.definitions.len()).ok(), Some(0));
    assert_eq!(
        PatternFile::load(vec![def("a", 1), def("", 1)]).err(),
        Some(PatternLoadError::Malformed(1))
    );
    assert_eq!(
        PatternFile::load(vec![def("a", 0), def("a", 1)]).err(),
        Some(PatternLoadError::Malformed(0))
    );
    assert_eq!(
        PatternFile::load(vec![def("a", 1), def("b", 1), def("a", 1)]).err(),
        Some(PatternLoadError::Duplicate(2))
    );
    assert_eq!(
        PatternFile::load(vec![def("a", 1), def("a", 0)]).err(),
        Some(PatternLoadError::Malformed(1))
    );
}

#[test]
fn first_definition_of_a_name_counts() {
    let t = document();
    let s = sentence();
    let mut file = declaration_file();
    file.definitions.push(Definition { name: cs("declaration"), branches: Vec::new() });
    let ms = match_sentence(&file, &cs("declaration"), &s, &t).unwrap();
    assert_eq!(ms.len(), 1);
    file.definitions.swap(0, 1);
    let none = match_sentence(&file, &cs("declaration"), &s, &t).unwrap();
    assert!(none.is_empty());
}

#[test]
fn sentences_are_printed_in_their_order() {
    let t = DocTree {
        nodes: vec![
            elem("p", None, vec![1, 3]),
            elem("math", Some(0), vec![2]),
            elem("mi", Some(1), vec![]),
            elem("math", Some(0), vec![4]),
            elem("mrow", Some(3), vec![5, 6]),
            elem("mn", Some(4), vec![]),
            elem("mi", Some(4), vec![]),
        ],
    };
    assert!(t.is_well_formed());
    let one = |math: usize| Sentence {
        tokens: vec![token("Let", "VB", None), token("f", "NN", Some(math)), token("Let", "VB", None), token("g", "NN", Some(1))],
        phrases: Vec::new(),
        range: DnmRange { start: 0, end: 0 },
    };
    let out = get_declarations(&declaration_file(), &t, 0, &vec![one(3), one(1)]).unwrap();
    assert_eq!(
        out,
        vec![
            "/p/math[2]/mrow[1]/mi[2]".to_string(),
            "/p/math[1]/mi[1]".to_string(),
            "/p/math[1]/mi[1]".to_string(),
            "/p/math[1]/mi[1]".to_string(),
        ]
    );
}
