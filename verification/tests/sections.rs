use beady::error::Error;
use beady::grammar::{Grammar, NodeKind};
use beady::kind::{Family, SectionType};
use beady::marked::{mark, Marked};
use beady::scenario;
use beady::section::{get_section, has_opening, line_of, split_label, Section};
use beady::statement::{clone_statements, Statement};
use beady::text::{ident_to_string, strip_prefix};
use beady::tree::ScenarioNode;

fn plain(text: &str) -> Statement {
    Statement::Plain(text.to_string())
}

fn block(label: &str, statements: Vec<Statement>) -> Statement {
    Statement::Block { label: label.to_string(), statements }
}

#[test]
fn all_lists_every_kind_once() {
    assert_eq!(
        SectionType::all(),
        [
            SectionType::Given,
            SectionType::When,
            SectionType::Then,
            SectionType::AndGiven,
            SectionType::AndWhen,
            SectionType::AndThen,
        ]
    );
}

#[test]
fn prefixes_and_names() {
    assert_eq!(SectionType::Given.prefix(), "given_");
    assert_eq!(SectionType::When.prefix(), "when_");
    assert_eq!(SectionType::Then.prefix(), "then_");
    assert_eq!(SectionType::AndGiven.prefix(), "and_given_");
    assert_eq!(SectionType::AndWhen.prefix(), "and_when_");
    assert_eq!(SectionType::AndThen.prefix(), "and_then_");
    for kind in SectionType::all() {
        assert_eq!(format!("{}_", kind.name()), kind.prefix());
    }
}

#[test]
fn families_labels_and_scopes() {
    assert_eq!(SectionType::Given.family(), Family::Given);
    assert_eq!(SectionType::AndGiven.family(), Family::Given);
    assert_eq!(SectionType::When.family(), Family::When);
    assert_eq!(SectionType::AndWhen.family(), Family::When);
    assert_eq!(SectionType::Then.family(), Family::Then);
    assert_eq!(SectionType::AndThen.family(), Family::Then);

    assert_eq!(SectionType::Given.narrative_label(), "   Given: ");
    assert_eq!(SectionType::When.narrative_label(), "    When: ");
    assert_eq!(SectionType::Then.narrative_label(), "    Then: ");
    assert_eq!(SectionType::AndGiven.narrative_label(), "     and: ");
    assert_eq!(SectionType::AndWhen.narrative_label(), "     and: ");
    assert_eq!(SectionType::AndThen.narrative_label(), "     and: ");

    assert_eq!(SectionType::Given.namespace(), "given");
    assert_eq!(SectionType::When.namespace(), "when");
    assert_eq!(SectionType::Then.namespace(), "then");
    assert_eq!(SectionType::AndGiven.namespace(), "and");
    assert_eq!(SectionType::AndWhen.namespace(), "and");
    assert_eq!(SectionType::AndThen.namespace(), "and");

    assert!(!SectionType::Given.is_continuation());
    assert!(!SectionType::When.is_continuation());
    assert!(!SectionType::Then.is_continuation());
    assert!(SectionType::AndGiven.is_continuation());
    assert!(SectionType::AndWhen.is_continuation());
    assert!(SectionType::AndThen.is_continuation());

    assert_eq!(Family::Given.name(), "given");
    assert_eq!(Family::When.name(), "when");
    assert_eq!(Family::Then.name(), "then");
}

#[test]
fn identifiers_are_read_as_words() {
    assert_eq!(ident_to_string("an_empty_vector"), "an empty vector");
    assert_eq!(ident_to_string("plain"), "plain");
    assert_eq!(ident_to_string(""), "");
    assert_eq!(ident_to_string("_a__B_"), " a  B ");
    assert_eq!(ident_to_string("größe_eins"), "größe eins");
}

#[test]
fn prefixes_are_stripped() {
    assert_eq!(strip_prefix("given_a", "given_"), Some("a".to_string()));
    assert_eq!(strip_prefix("given_", "given_"), Some(String::new()));
    assert_eq!(strip_prefix("given", "given_"), None);
    assert_eq!(strip_prefix("a_given_b", "given_"), None);
    assert_eq!(strip_prefix("anything", ""), Some("anything".to_string()));
    assert_eq!(strip_prefix("wört_er", "wört_"), Some("er".to_string()));
}

#[test]
fn labels_are_split_at_the_prefix() {
    assert_eq!(split_label("given_a_b"), Some((SectionType::Given, "a_b".to_string())));
    assert_eq!(split_label("when_a"), Some((SectionType::When, "a".to_string())));
    assert_eq!(split_label("then_a"), Some((SectionType::Then, "a".to_string())));
    assert_eq!(split_label("and_given_a"), Some((SectionType::AndGiven, "a".to_string())));
    assert_eq!(split_label("and_when_a"), Some((SectionType::AndWhen, "a".to_string())));
    assert_eq!(split_label("and_then_a"), Some((SectionType::AndThen, "a".to_string())));
    assert_eq!(split_label("then_"), Some((SectionType::Then, String::new())));
    assert_eq!(
        split_label("given_when_a"),
        Some((SectionType::Given, "when_a".to_string()))
    );
    assert_eq!(split_label("and_a"), None);
    assert_eq!(split_label("outer"), None);
    assert_eq!(split_label("Given_a"), None);
    assert_eq!(split_label("given"), None);
    assert_eq!(split_label(""), None);
}

#[test]
fn ordinary_statements_are_no_sections() {
    assert_eq!(get_section(&plain("let x = 1;")), Ok(None));
    assert_eq!(get_section(&plain("given_a")), Ok(None));
    assert_eq!(get_section(&block("outer", vec![plain("x;")])), Ok(None));
    assert_eq!(get_section(&block("and_so_on", vec![])), Ok(None));
}

#[test]
fn a_section_keeps_its_block_as_it_is() {
    let inner = vec![plain("a;"), block("when_b", vec![plain("c;")]), plain("d;")];
    let found = get_section(&block("given_some_thing", inner.clone())).unwrap().unwrap();
    assert_eq!(
        found,
        Section {
            section_type: SectionType::Given,
            ident: "some_thing".to_string(),
            statements: inner.clone(),
        }
    );
    assert_eq!(found.statements(), inner);
    assert_eq!(found.line(), "   Given: some thing");
    assert_eq!(clone_statements(&inner), inner);
}

#[test]
fn a_label_without_an_identifier_is_malformed() {
    for (label, kind, payload) in [
        ("given_", SectionType::Given, ""),
        ("when_1st", SectionType::When, "1st"),
        ("then_a-b", SectionType::Then, "a-b"),
        ("and_given_a b", SectionType::AndGiven, "a b"),
        ("and_when_type", SectionType::AndWhen, "type"),
        ("and_then__", SectionType::AndThen, "_"),
        ("given_a(b", SectionType::Given, "a(b"),
        ("given_(a)", SectionType::Given, "(a)"),
        ("when_a[", SectionType::When, "a["),
        ("then_{", SectionType::Then, "{"),
    ] {
        assert_eq!(
            get_section(&block(label, vec![plain("x;")])),
            Err(Error::MalformedSection { kind, payload: payload.to_string(), at: vec![] }),
            "{}",
            label
        );
    }
    for label in ["given_a", "when__a", "then_a1", "and_given_Ab", "and_when_größe", "and_then_r#type"] {
        assert!(matches!(get_section(&block(label, vec![])), Ok(Some(_))), "{}", label);
    }
}

#[test]
fn a_malformed_label_stops_the_build_where_it_stands() {
    let statements = vec![
        plain("x;"),
        block(
            "given_a",
            vec![
                plain("y;"),
                plain("z;"),
                block("when_", vec![block("then_b", vec![])]),
            ],
        ),
    ];
    assert_eq!(
        scenario("bad", &statements),
        Err(Error::MalformedSection {
            kind: SectionType::When,
            payload: String::new(),
            at: vec![1, 2],
        })
    );
}

#[test]
fn a_section_is_made_from_a_checked_payload() {
    assert_eq!(
        Section::new(SectionType::When, "a_b".to_string(), vec![plain("x;")], true),
        Ok(Section {
            section_type: SectionType::When,
            ident: "a_b".to_string(),
            statements: vec![plain("x;")],
        })
    );
    assert_eq!(
        Section::new(SectionType::When, "a b".to_string(), vec![plain("x;")], false),
        Err(Error::MalformedSection {
            kind: SectionType::When,
            payload: "a b".to_string(),
            at: vec![],
        })
    );
}

#[test]
fn lines_of_a_narrative() {
    assert_eq!(line_of(SectionType::Given, "a_b"), "   Given: a b");
    assert_eq!(line_of(SectionType::When, "a_b"), "    When: a b");
    assert_eq!(line_of(SectionType::Then, "a_b"), "    Then: a b");
    assert_eq!(line_of(SectionType::AndGiven, "a_b"), "     and: a b");
    assert_eq!(line_of(SectionType::AndWhen, "a_b"), "     and: a b");
    assert_eq!(line_of(SectionType::AndThen, "a_b"), "     and: a b");
}

#[test]
fn the_tree_keeps_source_order() {
    let statements = vec![
        plain("a;"),
        block(
            "given_x",
            vec![
                plain("b;"),
                block("when_y", vec![plain("c;")]),
                plain("d;"),
                block("and_given_z", vec![]),
                block("other", vec![plain("e;")]),
            ],
        ),
        plain("f;"),
    ];
    let tree =
        ScenarioNode::build(Grammar::Permissive, NodeKind::Scenario, "s".to_string(), &mark(&statements))
            .unwrap();
    assert_eq!(
        tree,
        ScenarioNode {
            kind: NodeKind::Scenario,
            ident: "s".to_string(),
            prologue: vec![plain("a;"), plain("f;")],
            children: vec![ScenarioNode {
                kind: NodeKind::Section(SectionType::Given),
                ident: "x".to_string(),
                prologue: vec![plain("b;"), plain("d;"), block("other", vec![plain("e;")])],
                children: vec![
                    ScenarioNode {
                        kind: NodeKind::Section(SectionType::When),
                        ident: "y".to_string(),
                        prologue: vec![plain("c;")],
                        children: vec![],
                    },
                    ScenarioNode {
                        kind: NodeKind::Section(SectionType::AndGiven),
                        ident: "z".to_string(),
                        prologue: vec![],
                        children: vec![],
                    },
                ],
            }],
        }
    );
}

#[test]
fn a_subtree_is_built_under_its_own_kind() {
    let statements = vec![plain("t;"), block("and_then_more", vec![plain("u;")])];
    let tree = ScenarioNode::build(
        Grammar::Strict,
        NodeKind::Section(SectionType::Then),
        "first".to_string(),
        &mark(&statements),
    )
    .unwrap();
    let procedures = tree.procedures();
    assert_eq!(procedures.len(), 1);
    assert_eq!(procedures[0].name, "more");
    assert_eq!(procedures[0].scope, vec!["then", "first", "and"]);
    assert_eq!(procedures[0].body, vec![plain("t;"), plain("u;")]);
    assert_eq!(procedures[0].narrative, "    Then: first\n     and: more\n");
}

#[test]
fn a_copy_of_a_statement_is_equal_to_it() {
    let statement = block(
        "given_a",
        vec![plain("x;"), block("inner", vec![plain("y;"), block("deep", vec![])])],
    );
    assert_eq!(statement.clone(), statement);
    assert_eq!(plain("z;").clone(), plain("z;"));
}

#[test]
fn opening_characters_are_found() {
    assert!(has_opening("a(b"));
    assert!(has_opening("["));
    assert!(has_opening("ab{"));
    assert!(!has_opening(""));
    assert!(!has_opening("a_b"));
    assert!(!has_opening("a)b]c}"));
}

#[test]
fn marking_keeps_every_statement_in_its_place() {
    let statements = vec![
        plain("a;"),
        block("outer", vec![block("given_inside", vec![])]),
        block(
            "given_x",
            vec![
                plain("b;"),
                block("then_", vec![block("and_then_y", vec![])]),
                block("when_y", vec![plain("c;"), block("given_z", vec![])]),
            ],
        ),
        block("when_1", vec![block("then_a", vec![])]),
    ];
    assert_eq!(
        mark(&statements),
        vec![
            Marked::Ordinary(plain("a;")),
            Marked::Ordinary(block("outer", vec![block("given_inside", vec![])])),
            Marked::Section {
                kind: SectionType::Given,
                ident: "x".to_string(),
                statements: vec![
                    Marked::Ordinary(plain("b;")),
                    Marked::Malformed {
                        kind: SectionType::Then,
                        payload: String::new(),
                        block: vec![block("and_then_y", vec![])],
                    },
                    Marked::Section {
                        kind: SectionType::When,
                        ident: "y".to_string(),
                        statements: vec![
                            Marked::Ordinary(plain("c;")),
                            Marked::Section {
                                kind: SectionType::Given,
                                ident: "z".to_string(),
                                statements: vec![],
                            },
                        ],
                    },
                ],
            },
            Marked::Malformed {
                kind: SectionType::When,
                payload: "1".to_string(),
                block: vec![block("then_a", vec![])],
            },
        ]
    );
    assert_eq!(mark(&vec![]), vec![]);
}
