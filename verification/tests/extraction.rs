use clap_config::{
    classify, get_args_types, ArgMatch, ArgSpec, Clap, CliType, Grammar, Matches, SubMatches,
    Value, ValueMap,
};

fn s(x: &str) -> String {
    x.to_string()
}

fn arg(name: &str, takes_value: bool, multiple: bool) -> ArgSpec {
    ArgSpec { name: s(name), takes_value, multiple }
}

fn empty_grammar(name: &str) -> Grammar {
    Grammar {
        name: s(name),
        opts: vec![],
        flags: vec![],
        positionals: vec![],
        subcommands: vec![],
    }
}

/// The grammar of the scenario tests: `--format <v>`, a repeatable `-v`
/// without a value, and a subcommand `sub` with a repeatable `-i <v>` and a
/// flag `-F`.
fn scenario_grammar() -> Grammar {
    Grammar {
        name: s("app"),
        opts: vec![arg("format", true, false)],
        flags: vec![arg("verbosity", false, true)],
        positionals: vec![],
        subcommands: vec![Grammar {
            name: s("sub"),
            opts: vec![arg("ids", true, true)],
            flags: vec![arg("flag", false, false)],
            positionals: vec![],
            subcommands: vec![],
        }],
    }
}

fn am(name: &str, values: Vec<&str>, occurrences: u64) -> ArgMatch {
    ArgMatch {
        name: s(name),
        values: values.into_iter().map(s).collect(),
        occurrences,
    }
}

fn get<'a>(m: &'a ValueMap, key: &str) -> Option<&'a Value> {
    m.entries.iter().find(|e| e.0 == key).map(|e| &e.1)
}

#[test]
fn classify_covers_all_four_pairs() {
    assert_eq!(classify(true, true), CliType::Multiple);
    assert_eq!(classify(true, false), CliType::Single);
    assert_eq!(classify(false, true), CliType::Count);
    assert_eq!(classify(false, false), CliType::Boolean);
}

#[test]
fn schema_of_scenario_grammar() {
    let t = get_args_types(&scenario_grammar());
    assert_eq!(t.entries.len(), 3);
    assert_eq!(t.entries[1], (s("format"), CliType::Single));
    assert_eq!(t.entries[2], (s("verbosity"), CliType::Count));
    match &t.entries[0] {
        (name, CliType::Subcommand(sub)) => {
            assert_eq!(name, "sub");
            assert_eq!(t.entries[0].0, s("sub"));
            assert_eq!(sub.entries.len(), 2);
            assert_eq!(sub.entries[0], (s("ids"), CliType::Multiple));
            assert_eq!(sub.entries[1], (s("flag"), CliType::Boolean));
        }
        other => panic!("expected a subcommand entry, got {:?}", other),
    }
}

#[test]
fn schema_name_collision_last_category_wins() {
    let g = Grammar {
        name: s("app"),
        opts: vec![arg("x", true, false)],
        flags: vec![arg("x", false, false)],
        positionals: vec![],
        subcommands: vec![],
    };
    let t = get_args_types(&g);
    assert_eq!(t.entries, vec![(s("x"), CliType::Boolean)]);
}

/// Scenario: `-vvv --format=json sub -i1 -i2 -i3` with subcommand field
/// `mode`.
fn scenario_matches() -> Matches {
    Matches {
        args: vec![am("format", vec!["json"], 1), am("verbosity", vec![], 3)],
        sub: Some(Box::new(SubMatches {
            name: s("sub"),
            matches: Matches {
                args: vec![am("ids", vec!["1", "2", "3"], 3)],
                sub: None,
            },
        })),
    }
}

#[test]
fn scenario_with_subcommand() {
    let clap = Clap::new(&scenario_grammar(), scenario_matches()).subcommand_field("mode");
    let out = clap.collect();

    assert_eq!(get(&out, "format"), Some(&Value::Str(s("json"))));
    assert_eq!(get(&out, "verbosity"), Some(&Value::Int(3)));
    assert_eq!(get(&out, "mode"), Some(&Value::Str(s("sub"))));
    match get(&out, "sub") {
        Some(Value::Table(sub)) => {
            assert_eq!(
                get(sub, "ids"),
                Some(&Value::Arr(vec![s("1"), s("2"), s("3")]))
            );
            assert_eq!(get(sub, "flag"), Some(&Value::Bool(false)));
            assert_eq!(sub.entries.len(), 2);
        }
        other => panic!("expected a nested table, got {:?}", other),
    }
    assert_eq!(out.entries.len(), 4);
}

#[test]
fn scenario_without_subcommand() {
    let matches = Matches { args: vec![], sub: None };
    let clap = Clap::new(&scenario_grammar(), matches).subcommand_field("mode");
    let out = clap.collect();

    assert_eq!(get(&out, "verbosity"), Some(&Value::Int(0)));
    assert_eq!(get(&out, "format"), None);
    assert_eq!(get(&out, "mode"), None);
    assert_eq!(get(&out, "sub"), None);
    assert_eq!(out.entries.len(), 1);
}

#[test]
fn collect_is_idempotent() {
    let clap = Clap::new(&scenario_grammar(), scenario_matches()).subcommand_field("mode");
    let first = clap.collect();
    let second = clap.collect();
    assert_eq!(first, second);
}

#[test]
fn empty_grammar_collects_nothing() {
    let clap = Clap::new(&empty_grammar("app"), Matches { args: vec![], sub: None });
    let out = clap.collect();
    assert_eq!(out.entries.len(), 0);
}

#[test]
fn multiple_with_no_values_is_omitted() {
    let g = Grammar {
        name: s("app"),
        opts: vec![arg("ids", true, true)],
        flags: vec![],
        positionals: vec![],
        subcommands: vec![],
    };
    let matches = Matches { args: vec![am("ids", vec![], 0)], sub: None };
    let out = Clap::new(&g, matches).collect();
    assert_eq!(out.entries.len(), 0);
}

#[test]
fn single_takes_first_value() {
    let g = Grammar {
        name: s("app"),
        opts: vec![arg("format", true, false)],
        flags: vec![],
        positionals: vec![],
        subcommands: vec![],
    };
    let matches = Matches {
        args: vec![am("format", vec!["json", "toml"], 2)],
        sub: None,
    };
    let out = Clap::new(&g, matches).collect();
    assert_eq!(out.entries, vec![(s("format"), Value::Str(s("json")))]);
}

#[test]
fn count_and_boolean_always_present() {
    let g = Grammar {
        name: s("app"),
        opts: vec![],
        flags: vec![arg("verbose", false, true), arg("force", false, false)],
        positionals: vec![],
        subcommands: vec![],
    };
    let out = Clap::new(&g, Matches { args: vec![], sub: None }).collect();
    assert_eq!(
        out.entries,
        vec![(s("verbose"), Value::Int(0)), (s("force"), Value::Bool(false))]
    );

    let supplied = Matches {
        args: vec![am("verbose", vec![], 2), am("force", vec![], 1)],
        sub: None,
    };
    let out = Clap::new(&g, supplied).collect();
    assert_eq!(
        out.entries,
        vec![(s("verbose"), Value::Int(2)), (s("force"), Value::Bool(true))]
    );
}

#[test]
fn uninvoked_subcommand_appears_nowhere() {
    let g = Grammar {
        name: s("app"),
        opts: vec![],
        flags: vec![],
        positionals: vec![],
        subcommands: vec![Grammar {
            name: s("sub"),
            opts: vec![],
            flags: vec![arg("count", false, true)],
            positionals: vec![],
            subcommands: vec![],
        }],
    };
    let out = Clap::new(&g, Matches { args: vec![], sub: None }).collect();
    assert_eq!(out.entries.len(), 0);
}

#[test]
fn invoked_subcommand_of_another_name_is_omitted() {
    let g = Grammar {
        name: s("app"),
        opts: vec![],
        flags: vec![],
        positionals: vec![],
        subcommands: vec![empty_grammar("this"), empty_grammar("that")],
    };
    let matches = Matches {
        args: vec![],
        sub: Some(Box::new(SubMatches {
            name: s("that"),
            matches: Matches { args: vec![], sub: None },
        })),
    };
    let out = Clap::new(&g, matches).collect();
    assert_eq!(get(&out, "this"), None);
    match get(&out, "that") {
        Some(Value::Table(t)) => assert_eq!(t.entries.len(), 0),
        other => panic!("expected a nested table, got {:?}", other),
    }
}

#[test]
fn synthetic_field_coexists_with_nested_tree() {
    let clap = Clap::new(&scenario_grammar(), scenario_matches()).subcommand_field("mode");
    let out = clap.collect();
    assert!(matches!(get(&out, "mode"), Some(Value::Str(v)) if v == "sub"));
    assert!(matches!(get(&out, "sub"), Some(Value::Table(_))));
}

#[test]
fn synthetic_field_replaces_colliding_key() {
    let clap = Clap::new(&scenario_grammar(), scenario_matches()).subcommand_field("format");
    let out = clap.collect();
    assert_eq!(get(&out, "format"), Some(&Value::Str(s("sub"))));
    assert_eq!(out.entries.len(), 3);
}

#[test]
fn no_synthetic_field_without_configuration() {
    let clap = Clap::new(&scenario_grammar(), scenario_matches());
    let out = clap.collect();
    assert_eq!(get(&out, "mode"), None);
    assert_eq!(out.entries.len(), 3);
}

#[test]
fn positionals_are_classified_too() {
    let g = Grammar {
        name: s("app"),
        opts: vec![],
        flags: vec![],
        positionals: vec![arg("input", true, false), arg("rest", true, true)],
        subcommands: vec![],
    };
    let matches = Matches {
        args: vec![am("input", vec!["a.txt"], 1), am("rest", vec!["b", "c"], 2)],
        sub: None,
    };
    let out = Clap::new(&g, matches).collect();
    assert_eq!(
        out.entries,
        vec![
            (s("input"), Value::Str(s("a.txt"))),
            (s("rest"), Value::Arr(vec![s("b"), s("c")])),
        ]
    );
}

#[test]
fn from_matches_takes_a_prebuilt_tree() {
    let t = get_args_types(&scenario_grammar());
    let clap = Clap::from_matches(t, scenario_matches());
    let out = clap.collect();
    assert_eq!(get(&out, "verbosity"), Some(&Value::Int(3)));
    assert_eq!(get(&out, "mode"), None);
}

#[test]
fn nested_subcommands_recurse() {
    let g = Grammar {
        name: s("app"),
        opts: vec![],
        flags: vec![],
        positionals: vec![],
        subcommands: vec![Grammar {
            name: s("outer"),
            opts: vec![],
            flags: vec![arg("loud", false, false)],
            positionals: vec![],
            subcommands: vec![Grammar {
                name: s("inner"),
                opts: vec![arg("level", true, false)],
                flags: vec![],
                positionals: vec![],
                subcommands: vec![],
            }],
        }],
    };
    let matches = Matches {
        args: vec![],
        sub: Some(Box::new(SubMatches {
            name: s("outer"),
            matches: Matches {
                args: vec![am("loud", vec![], 1)],
                sub: Some(Box::new(SubMatches {
                    name: s("inner"),
                    matches: Matches {
                        args: vec![am("level", vec!["9"], 1)],
                        sub: None,
                    },
                })),
            },
        })),
    };
    let out = Clap::new(&g, matches).subcommand_field("mode").collect();

    assert_eq!(get(&out, "mode"), Some(&Value::Str(s("outer"))));
    let outer = match get(&out, "outer") {
        Some(Value::Table(t)) => t,
        other => panic!("expected a nested table, got {:?}", other),
    };
    // only the outermost scope receives the synthetic key
    assert_eq!(get(outer, "mode"), None);
    assert_eq!(get(outer, "loud"), Some(&Value::Bool(true)));
    let inner = match get(outer, "inner") {
        Some(Value::Table(t)) => t,
        other => panic!("expected a nested table, got {:?}", other),
    };
    assert_eq!(get(inner, "level"), Some(&Value::Str(s("9"))));
    assert_eq!(inner.entries.len(), 1);
}
