use std::rc::Rc;

use ambit::ast::{Expr, MatchExpr, Spec, SpecType, VariantExpr};
use ambit::strgen::PairTree;

const OS: &str = "testos";
const HOST: &str = "testhost";

fn results_in(spec: Spec, expected: Vec<&str>) {
    let yielded = spec.generate(OS, HOST);
    let expected: Vec<String> = expected.iter().map(|s| s.to_string()).collect();
    assert_eq!(yielded, expected);
}

fn incorrect_os() -> Expr {
    Expr::Os(vec!["no-such-os".to_owned()])
}

#[test]
fn basic_string() {
    results_in(Spec::from("abc"), vec!["abc"]);
}

#[test]
fn basic_variant() {
    results_in(
        Spec {
            string: Some("a".to_owned()),
            spectype: SpecType::variant_expr(vec![Spec::from("b"), Spec::from("c")], None),
        },
        vec!["ab", "ac"],
    )
}

#[test]
fn basic_match() {
    results_in(
        // Equivalent to `d{ incorrect-os: g, default: e }f`.
        Spec {
            string: Some("d".to_owned()),
            spectype: SpecType::match_expr(
                vec![(incorrect_os(), Spec::from("g")), (Expr::Any, Spec::from("e"))],
                Some(Spec::from("f")),
            ),
        },
        vec!["def"],
    )
}

#[test]
fn unresolvable_match() {
    results_in(
        // Equivalent to `d{ incorrect-os: g, }f`.
        Spec {
            string: Some("d".to_owned()),
            spectype: SpecType::match_expr(
                vec![(incorrect_os(), Spec::from("g"))],
                Some(Spec::from("f")),
            ),
        },
        // Since the match can't resolve to anything, there is nothing here.
        vec![],
    )
}

fn nested_variant_spec() -> Spec {
    // Equivalent to `a[b, c[d[e, f], g], h]i`.
    Spec {
        string: Some("a".to_owned()),
        spectype: SpecType::variant_expr(
            vec![
                Spec::from("b"),
                Spec {
                    string: Some("c".to_owned()),
                    spectype: SpecType::variant_expr(
                        vec![
                            Spec {
                                string: Some("d".to_owned()),
                                spectype: SpecType::variant_expr(
                                    vec![Spec::from("e"), Spec::from("f")],
                                    None,
                                ),
                            },
                            Spec::from("g"),
                        ],
                        None,
                    ),
                },
                Spec::from("h"),
            ],
            Some(Spec::from("i")),
        ),
    }
}

#[test]
fn nested_variant() {
    results_in(
        nested_variant_spec(),
        vec!["abi", "acdei", "acdfi", "acgi", "ahi"],
    )
}

fn adjacent_variants_spec() -> Spec {
    // Equivalent to `[a,b,c][d,e,f][g,h,i]`.
    Spec {
        string: None,
        spectype: SpecType::variant_expr(
            vec![Spec::from("a"), Spec::from("b"), Spec::from("c")],
            Some(Spec {
                spectype: SpecType::variant_expr(
                    vec![Spec::from("d"), Spec::from("e"), Spec::from("f")],
                    Some(Spec {
                        string: None,
                        spectype: SpecType::variant_expr(
                            vec![Spec::from("g"), Spec::from("h"), Spec::from("i")],
                            None,
                        ),
                    }),
                ),
                string: None,
            }),
        ),
    }
}

#[test]
fn adjacent_variants() {
    let mut res_vec = Vec::new();
    for i in ['a', 'b', 'c'].iter() {
        for j in ['d', 'e', 'f'].iter() {
            for k in ['g', 'h', 'i'].iter() {
                let s: String = [*i, *j, *k].iter().collect();
                res_vec.push(s);
            }
        }
    }
    let res_vec_str = res_vec.iter().map(|x| x.as_str()).collect();
    results_in(adjacent_variants_spec(), res_vec_str);
}

#[test]
fn adjacent_variants_order_is_row_major() {
    // The first list varies slowest: all 27 combinations, in order.
    let got = adjacent_variants_spec().generate(OS, HOST);
    assert_eq!(got.len(), 27);
    assert_eq!(got[0], "adg");
    assert_eq!(got[1], "adh");
    assert_eq!(got[3], "aeg");
    assert_eq!(got[9], "bdg");
    assert_eq!(got[26], "cfi");
}

#[test]
fn restart_reproduces_the_sequence() {
    // After exhaustion and restart, a generator reproduces its full
    // original sequence.
    let spec = adjacent_variants_spec();
    let mut iter = spec.str_iter(OS, HOST);
    let mut first_run = Vec::new();
    while let Some(s) = iter.next() {
        first_run.push(s);
    }
    iter.restart();
    let mut second_run = Vec::new();
    while let Some(s) = iter.next() {
        second_run.push(s);
    }
    assert_eq!(first_run.len(), 27);
    assert_eq!(first_run, second_run);
}

#[test]
fn generation_is_deterministic() {
    let spec = nested_variant_spec();
    assert_eq!(spec.generate(OS, HOST), spec.generate(OS, HOST));
}

#[test]
fn generated_count_matches_nr_of_options() {
    // For specs with no match node, the generator yields exactly
    // `nr_of_options` strings.
    let spec = adjacent_variants_spec();
    assert_eq!(spec.nr_of_options(), Some(27));
    assert_eq!(spec.generate(OS, HOST).len(), 27);
    let spec = nested_variant_spec();
    assert_eq!(spec.nr_of_options(), Some(5));
    assert_eq!(spec.generate(OS, HOST).len(), 5);
}

#[test]
fn match_selects_first_live_case_in_source_order() {
    let spec = Spec {
        string: None,
        spectype: SpecType::match_expr(
            vec![
                (Expr::Host(vec![HOST.to_owned()]), Spec::from("by-host")),
                (Expr::Os(vec![OS.to_owned()]), Spec::from("by-os")),
                (Expr::Any, Spec::from("by-default")),
            ],
            None,
        ),
    };
    results_in(spec, vec!["by-host"]);
}

#[test]
fn match_resolution_uses_the_given_environment() {
    let make = || Spec {
        string: None,
        spectype: SpecType::match_expr(
            vec![
                (Expr::Os(vec!["linux".to_owned()]), Spec::from("penguin")),
                (Expr::Any, Spec::from("other")),
            ],
            None,
        ),
    };
    assert_eq!(make().generate("linux", "h"), vec!["penguin".to_string()]);
    assert_eq!(make().generate("macos", "h"), vec!["other".to_string()]);
}

#[test]
fn resolve_picks_first_satisfied_case() {
    let m = MatchExpr {
        cases: vec![
            (incorrect_os(), Spec::from("skipped")),
            (Expr::Os(vec![OS.to_owned()]), Spec::from("taken")),
            (Expr::Any, Spec::from("late")),
        ],
    };
    assert_eq!(m.resolve(OS, HOST), Some(&Spec::from("taken")));
    let unresolved = MatchExpr { cases: vec![(incorrect_os(), Spec::from("skipped"))] };
    assert_eq!(unresolved.resolve(OS, HOST), None);
}

#[test]
fn is_true_checks_name_lists() {
    assert!(Expr::Any.is_true(OS, HOST));
    assert!(Expr::Os(vec!["other".to_owned(), OS.to_owned()]).is_true(OS, HOST));
    assert!(!Expr::Os(vec![HOST.to_owned()]).is_true(OS, HOST));
    assert!(Expr::Host(vec![HOST.to_owned()]).is_true(OS, HOST));
    assert!(!Expr::Host(vec![OS.to_owned()]).is_true(OS, HOST));
}

#[test]
fn nr_of_options_multiplies_and_sums() {
    // `[a, b[c,d]]e` denotes (1 + 2) * 1 = 3 options.
    let spec = Spec {
        string: None,
        spectype: SpecType::variant_expr(
            vec![
                Spec::from("a"),
                Spec {
                    string: Some("b".to_owned()),
                    spectype: SpecType::variant_expr(
                        vec![Spec::from("c"), Spec::from("d")],
                        None,
                    ),
                },
            ],
            Some(Spec::from("e")),
        ),
    };
    assert_eq!(spec.nr_of_options(), Some(3));
    assert_eq!(VariantExpr { specs: vec![Spec::from("x"), Spec::from("y")] }.nr_of_options(), Some(2));
    // A match contributes its continuation alone.
    let matched = Spec {
        string: None,
        spectype: SpecType::match_expr(
            vec![(Expr::Any, Spec::from("z"))],
            Some(Spec {
                string: None,
                spectype: SpecType::variant_expr(vec![Spec::from("p"), Spec::from("q")], None),
            }),
        ),
    };
    assert_eq!(matched.nr_of_options(), Some(2));
}

#[test]
fn flatten_concatenates_leaves() {
    let shared = Rc::new(PairTree::value("ab"));
    let tree = PairTree::pair(PairTree::rc(&shared), PairTree::pair(PairTree::value("c"), PairTree::rc(&shared)));
    assert_eq!(tree.flatten_to_string(), "abcab");
}
