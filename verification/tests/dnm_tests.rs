use llamapun::dnm::{build, find_policy, normalize, resolve, Dnm, DnmConfig, DnmRange, Linearizer, PolicyEntry, Span, TagPolicy};
use llamapun::extract::{get_alternative_dnm, print_config};
use llamapun::linearize::linearize;
use llamapun::range::Rendering;
use llamapun::text::{chars_of, collapse_blanks, is_word, same_chars, string_of};
use llamapun::tree::{DocNode, DocTree};

fn elem(name: &str, class: &str, parent: Option<usize>, children: Vec<usize>) -> DocNode {
    DocNode {
        name: chars_of(name),
        classes: class.split_whitespace().map(chars_of).collect(),
        is_text: false,
        content: Vec::new(),
        parent,
        children,
    }
}

fn leaf(content: &str, parent: usize) -> DocNode {
    DocNode {
        name: chars_of("text"),
        classes: Vec::new(),
        is_text: true,
        content: chars_of(content),
        parent: Some(parent),
        children: Vec::new(),
    }
}

fn plain(whitespace: bool, unicode: bool) -> DnmConfig {
    DnmConfig {
        name_policies: Vec::new(),
        class_policies: Vec::new(),
        normalize_whitespace: whitespace,
        normalize_unicode: unicode,
        wrap_tokens: false,
        back_mapping: true,
    }
}

fn mi_x() -> DocTree {
    DocTree { nodes: vec![elem("mi", "", None, vec![1]), leaf("x", 0)] }
}

fn semantics_tree() -> DocTree {
    DocTree {
        nodes: vec![
            elem("semantics", "", None, vec![1, 3]),
            elem("mi", "", Some(0), vec![2]),
            leaf("x", 1),
            elem("annotation", "", Some(0), vec![4]),
            leaf("ignored", 3),
        ],
    }
}

// <p>Let <math><mi>x</mi></math> be  a <cite>[1]</cite><table class="ltx_x">T</table>prime.</p>
fn paragraph() -> DocTree {
    DocTree {
        nodes: vec![
            elem("p", "", None, vec![1, 2, 5, 6, 8, 10]),
            leaf("Let ", 0),
            elem("math", "", Some(0), vec![3]),
            elem("mi", "", Some(2), vec![4]),
            leaf("x", 3),
            leaf(" be  a ", 0),
            elem("cite", "", Some(0), vec![7]),
            leaf("[1]", 6),
            elem("table", "ltx_x", Some(0), vec![9]),
            leaf("T", 8),
            leaf("prime.", 0),
        ],
    }
}

#[test]
fn chars_and_strings_round_trip() {
    let v = chars_of("a\u{e9}b");
    assert_eq!(v, vec!['a', '\u{e9}', 'b']);
    assert_eq!(string_of(&v), "a\u{e9}b".to_string());
    assert_eq!(string_of(&Vec::new()), String::new());
    assert!(same_chars(&v, &chars_of("a\u{e9}b")));
    assert!(!same_chars(&v, &chars_of("a\u{e9}")));
    assert!(!same_chars(&v, &chars_of("a\u{e9}c")));
    assert!(is_word(&chars_of("math"), "math"));
    assert!(!is_word(&chars_of("math"), "mat"));
}

#[test]
fn blank_runs_collapse_to_one_space() {
    assert_eq!(string_of(&collapse_blanks(&chars_of("a  \t\n b"))), "a b");
    assert_eq!(string_of(&collapse_blanks(&chars_of("  a "))), " a ");
    assert_eq!(string_of(&collapse_blanks(&chars_of(""))), "");
    assert_eq!(string_of(&collapse_blanks(&chars_of("\n\n"))), " ");
    assert_eq!(string_of(&collapse_blanks(&chars_of("abc"))), "abc");
}

#[test]
fn transliteration_is_applied_to_leaves() {
    let cfg = plain(false, true);
    assert_eq!(string_of(&normalize(&cfg, &chars_of("\u{e9}tude"))), "etude");
    assert_eq!(string_of(&normalize(&cfg, &chars_of("\u{c6}neid"))), "AEneid");
    let off = plain(false, false);
    assert_eq!(string_of(&normalize(&off, &chars_of("\u{e9}tude"))), "\u{e9}tude");
    let both = plain(true, true);
    assert_eq!(string_of(&normalize(&both, &chars_of("\u{e9}  t"))), "e t");
}

#[test]
fn linearize_single_identifier() {
    let t = mi_x();
    assert!(t.is_well_formed());
    assert_eq!(string_of(&linearize(&t, 0)), "<mi>x</mi>");
    assert_eq!(string_of(&linearize(&t, 1)), "x");
}

#[test]
fn linearize_drops_annotation_and_sees_through_semantics() {
    let t = semantics_tree();
    assert!(t.is_well_formed());
    assert_eq!(string_of(&linearize(&t, 0)), "<mi>x</mi>");
    assert_eq!(string_of(&linearize(&t, 3)), "");
}

#[test]
fn linearize_nested_rows() {
    let t = DocTree {
        nodes: vec![
            elem("mrow", "", None, vec![1, 3]),
            elem("mi", "", Some(0), vec![2]),
            leaf("a<b", 1),
            elem("annotation-xml", "", Some(0), vec![4]),
            elem("mn", "", Some(3), vec![]),
        ],
    };
    assert_eq!(string_of(&linearize(&t, 0)), "<mrow><mi>a<b</mi></mrow>");
}

#[test]
fn malformed_trees_are_recognized() {
    let mut t = mi_x();
    t.nodes[0].children = vec![0];
    assert!(!t.is_well_formed());
    let mut u = mi_x();
    u.nodes[0].children = vec![2];
    assert!(!u.is_well_formed());
    let mut w = mi_x();
    w.nodes[1].parent = Some(1);
    assert!(!w.is_well_formed());
    let mut x = mi_x();
    x.nodes[1].parent = None;
    assert!(!x.is_well_formed());
    let mut y = semantics_tree();
    y.nodes[2].parent = Some(0);
    assert!(!y.is_well_formed());
    assert!(DocTree { nodes: Vec::new() }.is_well_formed());
}

#[test]
fn text_without_policies_is_the_leaf_text() {
    let t = paragraph();
    assert!(t.is_well_formed());
    let d = build(&t, 0, &plain(false, false));
    assert_eq!(string_of(&d.text), "Let x be  a [1]Tprime.");
    assert_eq!(d.root, 0);
    assert_eq!(
        d.spans,
        vec![
            Span { start: 0, end: 4, node: 1 },
            Span { start: 4, end: 5, node: 4 },
            Span { start: 5, end: 12, node: 5 },
            Span { start: 12, end: 15, node: 7 },
            Span { start: 15, end: 16, node: 9 },
            Span { start: 16, end: 22, node: 10 },
        ]
    );
    let e = build(&t, 0, &plain(true, false));
    assert_eq!(string_of(&e.text), "Let x be a [1]Tprime.");
    assert_eq!(e.spans[2], Span { start: 5, end: 11, node: 5 });
}

#[test]
fn print_model_skips_labels_and_linearizes() {
    let t = paragraph();
    let (d, cfg) = get_alternative_dnm(&t, 0);
    assert_eq!(string_of(&d.text), "Let <math><mi>x</mi></math> be a CitationElementprime.");
    assert_eq!(
        d.spans,
        vec![
            Span { start: 0, end: 4, node: 1 },
            Span { start: 4, end: 27, node: 2 },
            Span { start: 27, end: 33, node: 5 },
            Span { start: 33, end: 48, node: 6 },
            Span { start: 48, end: 54, node: 10 },
        ]
    );
    assert_eq!(cfg.name_policies.len(), 4);
    assert_eq!(cfg.class_policies.len(), 5);
    assert!(cfg.normalize_whitespace && !cfg.normalize_unicode && !cfg.wrap_tokens && cfg.back_mapping);
    // nothing maps into the skipped table or into the labelled citation
    assert!(d.spans.iter().all(|s| s.node != 8 && s.node != 9 && s.node != 7));
    assert!(d.node_range(9).is_none());
    assert_eq!(d.node_range(6), Some(DnmRange { start: 33, end: 48 }));
}

#[test]
fn skipped_subtree_gives_no_text() {
    let t = paragraph();
    let cfg = print_config();
    let d = build(&t, 8, &cfg);
    assert!(d.text.is_empty());
    assert!(d.spans.is_empty());
}

#[test]
fn label_is_exact_and_maps_to_the_policy_node() {
    let t = paragraph();
    let cfg = print_config();
    let d = build(&t, 6, &cfg);
    assert_eq!(string_of(&d.text), "CitationElement");
    assert_eq!(d.spans, vec![Span { start: 0, end: 15, node: 6 }]);
}

#[test]
fn name_policy_goes_before_class_policy() {
    let t = DocTree {
        nodes: vec![elem("cite", "ltx_note_mark", None, vec![1]), leaf("c", 0)],
    };
    let cfg = print_config();
    match resolve(&cfg, &t.nodes[0]) {
        Some(TagPolicy::NormalizeToLabel(l)) => assert_eq!(string_of(l), "CitationElement"),
        _ => panic!("the name policy was not applied"),
    }
    assert_eq!(string_of(&build(&t, 0, &cfg).text), "CitationElement");
    let u = DocTree {
        nodes: vec![elem("span", "ltx_note_mark", None, vec![1]), leaf("c", 0)],
    };
    assert!(matches!(resolve(&cfg, &u.nodes[0]), Some(TagPolicy::Skip)));
    assert_eq!(string_of(&build(&u, 0, &cfg).text), "");
    let v = DocTree {
        nodes: vec![elem("span", "ltx_equation", None, vec![1]), leaf("c", 0)],
    };
    assert!(matches!(resolve(&cfg, &v.nodes[0]), Some(TagPolicy::FunctionNormalize(Linearizer::Math))));
    assert_eq!(string_of(&build(&v, 0, &cfg).text), "<span>c</span>");
    assert!(resolve(&cfg, &v.nodes[1]).is_none());
    // of several class names the first that has a policy counts
    let w = DocTree {
        nodes: vec![elem("div", "ltx_para ltx_bibliography ltx_equation", None, vec![1]), leaf("c", 0)],
    };
    assert!(matches!(resolve(&cfg, &w.nodes[0]), Some(TagPolicy::Skip)));
    let x = DocTree {
        nodes: vec![elem("div", "ltx_para ltx_equation ltx_bibliography", None, vec![1]), leaf("c", 0)],
    };
    assert_eq!(string_of(&build(&x, 0, &cfg).text), "<div>c</div>");
    let y = DocTree { nodes: vec![elem("div", "ltx_para", None, vec![1]), leaf("c", 0)] };
    assert!(resolve(&cfg, &y.nodes[0]).is_none());
}

#[test]
fn first_entry_for_a_key_counts() {
    let entries = vec![
        PolicyEntry { key: chars_of("a"), policy: TagPolicy::Skip },
        PolicyEntry { key: chars_of("b"), policy: TagPolicy::Skip },
        PolicyEntry { key: chars_of("a"), policy: TagPolicy::NormalizeToLabel(chars_of("A")) },
    ];
    assert_eq!(find_policy(&entries, &chars_of("a")), Some(0));
    assert_eq!(find_policy(&entries, &chars_of("b")), Some(1));
    assert_eq!(find_policy(&entries, &chars_of("c")), None);
}

#[test]
fn map_is_left_out_when_not_asked_for() {
    let t = paragraph();
    let mut cfg = print_config();
    cfg.back_mapping = false;
    let d = build(&t, 0, &cfg);
    assert_eq!(string_of(&d.text), "Let <math><mi>x</mi></math> be a CitationElementprime.");
    assert!(d.spans.is_empty());
}

#[test]
fn empty_leaves_and_childless_elements_give_nothing() {
    let t = DocTree {
        nodes: vec![elem("p", "", None, vec![1, 2]), leaf("", 0), elem("br", "", Some(0), vec![])],
    };
    let d = build(&t, 0, &plain(true, true));
    assert!(d.text.is_empty());
    assert!(d.spans.is_empty());
}

#[test]
fn ranges_serialize_and_resolve() {
    let t = paragraph();
    let (d, _) = get_alternative_dnm(&t, 0);
    let whole = DnmRange { start: 0, end: 54 };
    assert!(d.has_range(&whole));
    assert!(!d.has_range(&DnmRange { start: 0, end: 55 }));
    assert!(!d.has_range(&DnmRange { start: 3, end: 2 }));
    assert_eq!(string_of(&d.serialize(&DnmRange { start: 10, end: 20 })), "<mi>x</mi>");
    assert_eq!(string_of(&d.serialize(&DnmRange { start: 2, end: 2 })), "");
    assert_eq!(d.resolve_node(&DnmRange { start: 5, end: 9 }), Some(2));
    assert_eq!(d.resolve_node(&DnmRange { start: 4, end: 27 }), Some(2));
    // a range over the border between two units has no node
    assert_eq!(d.resolve_node(&DnmRange { start: 3, end: 5 }), None);
    assert_eq!(d.resolve_node(&whole), None);
    assert_eq!(d.node_range(2), Some(DnmRange { start: 4, end: 27 }));
    assert_eq!(d.node_range(3), None);
}

#[test]
fn ranges_are_written_anew_on_request() {
    let t = paragraph();
    let (d, _) = get_alternative_dnm(&t, 0);
    let math = DnmRange { start: 4, end: 27 };
    assert_eq!(string_of(&d.serialize_as(&t, &math, &Rendering::AsBuilt)), "<math><mi>x</mi></math>");
    assert_eq!(string_of(&d.serialize_as(&t, &math, &Rendering::Raw)), "x");
    assert_eq!(string_of(&d.serialize_as(&t, &math, &Rendering::Math)), "<math><mi>x</mi></math>");
    let cite = DnmRange { start: 33, end: 48 };
    assert_eq!(string_of(&d.serialize_as(&t, &cite, &Rendering::Raw)), "[1]");
    let border = DnmRange { start: 3, end: 5 };
    assert_eq!(string_of(&d.serialize_as(&t, &border, &Rendering::Raw)), " <");
    let other = Dnm { root: 0, text: chars_of("ab"), spans: vec![Span { start: 0, end: 2, node: 99 }] };
    assert_eq!(string_of(&other.serialize_as(&t, &DnmRange { start: 0, end: 1 }, &Rendering::Math)), "a");
}
