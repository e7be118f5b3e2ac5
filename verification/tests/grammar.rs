use beady::error::Error;
use beady::grammar::{allowed, is_legal_child, legal_children, Grammar, NodeKind};
use beady::kind::SectionType;
use beady::kind::SectionType::{AndGiven, AndThen, AndWhen, Given, Then, When};
use beady::scenario_with;
use beady::statement::Statement;

fn plain(text: &str) -> Statement {
    Statement::Plain(text.to_string())
}

fn block(label: &str, statements: Vec<Statement>) -> Statement {
    Statement::Block { label: label.to_string(), statements }
}

fn nesting(
    grammar: Grammar,
    statements: &Vec<Statement>,
) -> Option<(String, SectionType, NodeKind, Vec<usize>)> {
    match scenario_with(grammar, "nesting", statements) {
        Err(Error::IllegalNesting { ident, kind, parent, grammar: reported, at }) => {
            assert_eq!(reported, grammar);
            Some((ident, kind, parent, at))
        }
        Err(other) => panic!("another fault: {:?}", other),
        Ok(_) => None,
    }
}

#[test]
fn invalid_sections() {
    // A `then` directly inside a `given`.
    let given_then = vec![block(
        "given_a",
        vec![plain("let a = 1;"), block("then_b", vec![plain("assert_eq!(a, 1);")])],
    )];
    // A `given` inside a `when`.
    let when_given = vec![block(
        "given_a",
        vec![block(
            "when_b",
            vec![block("given_c", vec![block("then_d", vec![])])],
        )],
    )];
    // A `given` inside a `then`.
    let then_given = vec![block(
        "given_a",
        vec![block("when_b", vec![block("then_c", vec![block("given_d", vec![])])])],
    )];
    // A `when` inside a `then`.
    let then_when = vec![block(
        "given_a",
        vec![block("when_b", vec![block("then_c", vec![block("when_d", vec![])])])],
    )];

    assert_eq!(
        nesting(Grammar::Strict, &given_then),
        Some((
            "b".to_string(),
            SectionType::Then,
            NodeKind::Section(SectionType::Given),
            vec![0, 1]
        ))
    );
    for grammar in [Grammar::Strict, Grammar::Permissive] {
        assert_eq!(
            nesting(grammar, &when_given),
            Some((
                "c".to_string(),
                SectionType::Given,
                NodeKind::Section(SectionType::When),
                vec![0, 0, 0]
            ))
        );
        assert_eq!(
            nesting(grammar, &then_given),
            Some((
                "d".to_string(),
                SectionType::Given,
                NodeKind::Section(SectionType::Then),
                vec![0, 0, 0, 0]
            ))
        );
        assert_eq!(
            nesting(grammar, &then_when),
            Some((
                "d".to_string(),
                SectionType::When,
                NodeKind::Section(SectionType::Then),
                vec![0, 0, 0, 0]
            ))
        );
    }
    assert_eq!(nesting(Grammar::Permissive, &given_then), None);
}

#[test]
fn only_given_stands_in_a_scenario() {
    for label in ["when_a", "then_a", "and_given_a", "and_when_a", "and_then_a"] {
        let statements = vec![plain("x;"), block(label, vec![])];
        for grammar in [Grammar::Strict, Grammar::Permissive] {
            let (ident, _, parent, at) = nesting(grammar, &statements).unwrap();
            assert_eq!(ident, "a");
            assert_eq!(parent, NodeKind::Scenario);
            assert_eq!(at, vec![1]);
        }
    }
    assert_eq!(nesting(Grammar::Strict, &vec![block("given_a", vec![])]), None);
}

#[test]
fn the_nesting_table() {
    let section = NodeKind::Section;
    let table = [
        (NodeKind::Scenario, vec![Given], vec![Given]),
        (section(Given), vec![When, Then, AndGiven], vec![When, AndGiven]),
        (section(AndGiven), vec![When, Then, AndGiven], vec![When, AndGiven]),
        (section(When), vec![Then, AndWhen], vec![Then, AndWhen]),
        (section(AndWhen), vec![Then, AndWhen], vec![Then, AndWhen]),
        (section(Then), vec![AndThen], vec![AndThen]),
        (section(AndThen), vec![AndThen], vec![AndThen]),
    ];
    for (parent, permissive, strict) in table {
        assert_eq!(legal_children(Grammar::Permissive, parent), permissive);
        assert_eq!(legal_children(Grammar::Strict, parent), strict);
        for child in SectionType::all() {
            assert_eq!(
                is_legal_child(Grammar::Permissive, parent, child),
                permissive.contains(&child)
            );
            assert_eq!(is_legal_child(Grammar::Strict, parent, child), strict.contains(&child));
        }
    }
}

#[test]
fn assertions_are_the_then_family() {
    assert!(!NodeKind::Scenario.is_assertion());
    assert!(!NodeKind::Section(SectionType::Given).is_assertion());
    assert!(!NodeKind::Section(SectionType::AndGiven).is_assertion());
    assert!(!NodeKind::Section(SectionType::When).is_assertion());
    assert!(!NodeKind::Section(SectionType::AndWhen).is_assertion());
    assert!(NodeKind::Section(SectionType::Then).is_assertion());
    assert!(NodeKind::Section(SectionType::AndThen).is_assertion());
}

#[test]
fn node_names() {
    assert_eq!(NodeKind::Scenario.name(), "scenario");
    assert_eq!(NodeKind::Section(SectionType::Given).name(), "given");
    assert_eq!(NodeKind::Section(SectionType::AndGiven).name(), "given");
    assert_eq!(NodeKind::Section(SectionType::When).name(), "when");
    assert_eq!(NodeKind::Section(SectionType::AndWhen).name(), "when");
    assert_eq!(NodeKind::Section(SectionType::Then).name(), "then");
    assert_eq!(NodeKind::Section(SectionType::AndThen).name(), "then");
}

#[test]
fn messages_name_what_is_allowed() {
    let section = NodeKind::Section;
    assert_eq!(
        allowed(Grammar::Permissive, NodeKind::Scenario),
        "Only \"given\" is allowed inside \"scenario\" section"
    );
    assert_eq!(
        allowed(Grammar::Permissive, section(SectionType::Given)),
        "Only \"when\", \"then\", or \"and_given\" are allowed inside \"given\" section"
    );
    assert_eq!(
        allowed(Grammar::Strict, section(SectionType::AndGiven)),
        "Only \"when\" or \"and_given\" are allowed inside \"given\" section"
    );
    assert_eq!(
        allowed(Grammar::Strict, section(SectionType::When)),
        "Only \"then\" or \"and_when\" are allowed inside \"when\" section"
    );
    assert_eq!(
        allowed(Grammar::Permissive, section(SectionType::AndThen)),
        "Only \"and_then\" is allowed inside \"then\" section"
    );
}

#[test]
fn faults_in_words() {
    let nested = Error::IllegalNesting {
        ident: "c".to_string(),
        kind: SectionType::Given,
        parent: NodeKind::Section(SectionType::AndWhen),
        grammar: Grammar::Permissive,
        at: vec![0, 1],
    };
    assert_eq!(
        nested.message(),
        "Only \"then\" or \"and_when\" are allowed inside \"when\" section"
    );
    assert_eq!(nested.at(), &vec![0, 1]);

    let malformed =
        Error::MalformedSection { kind: SectionType::AndThen, payload: "1".to_string(), at: vec![] };
    assert_eq!(malformed.message(), "\"1\" is not a valid name for a \"and_then\" section");
    assert_eq!(malformed.at(), &Vec::<usize>::new());

    let duplicate = Error::DuplicateSibling {
        ident: "x".to_string(),
        kind: SectionType::AndWhen,
        parent: NodeKind::Section(SectionType::When),
        at: vec![3],
    };
    assert_eq!(
        duplicate.message(),
        "Section \"and_when_x\" is already defined inside \"when\" section"
    );
    assert_eq!(duplicate.at(), &vec![3]);
}

#[test]
fn a_fault_is_located_from_outside_in() {
    let inner = Error::DuplicateSibling {
        ident: "x".to_string(),
        kind: SectionType::Then,
        parent: NodeKind::Section(SectionType::When),
        at: vec![2],
    };
    assert_eq!(
        inner.inside(5).inside(0),
        Error::DuplicateSibling {
            ident: "x".to_string(),
            kind: SectionType::Then,
            parent: NodeKind::Section(SectionType::When),
            at: vec![0, 5, 2],
        }
    );
    let malformed =
        Error::MalformedSection { kind: SectionType::Given, payload: String::new(), at: vec![] };
    assert_eq!(
        malformed.inside(7),
        Error::MalformedSection { kind: SectionType::Given, payload: String::new(), at: vec![7] }
    );
    let nested = Error::IllegalNesting {
        ident: "c".to_string(),
        kind: SectionType::Given,
        parent: NodeKind::Scenario,
        grammar: Grammar::Strict,
        at: vec![1],
    };
    assert_eq!(
        nested.inside(4),
        Error::IllegalNesting {
            ident: "c".to_string(),
            kind: SectionType::Given,
            parent: NodeKind::Scenario,
            grammar: Grammar::Strict,
            at: vec![4, 1],
        }
    );
}
