use beady::procedure::Procedure;
use beady::scenario;
use beady::statement::Statement;

fn plain(text: &str) -> Statement {
    Statement::Plain(text.to_string())
}

fn block(label: &str, statements: Vec<Statement>) -> Statement {
    Statement::Block { label: label.to_string(), statements }
}

fn strings(items: &[&str]) -> Vec<String> {
    items.iter().map(|s| s.to_string()).collect()
}

fn plains(items: &[&str]) -> Vec<Statement> {
    items.iter().map(|s| plain(s)).collect()
}

// The example from Catch2.
#[test]
fn vector_can_be_sized_and_resized() {
    let statements = vec![block(
        "given_an_empty_vector",
        vec![
            plain("let mut v = vec![];"),
            plain("assert!(v.is_empty());"),
            block(
                "when_an_element_is_pushed",
                vec![
                    plain("v.push(\"hello\");"),
                    block("then_the_size_changes", vec![plain("assert_eq!(v.len(), 1);")]),
                ],
            ),
        ],
    )];

    let procedures = scenario("vector_can_be_sized_and_resized", &statements).unwrap();

    assert_eq!(procedures.len(), 1);
    assert_eq!(
        procedures[0],
        Procedure {
            name: "the_size_changes".to_string(),
            scope: strings(&[
                "vector_can_be_sized_and_resized",
                "given",
                "an_empty_vector",
                "when",
                "an_element_is_pushed",
                "then",
            ]),
            body: plains(&[
                "let mut v = vec![];",
                "assert!(v.is_empty());",
                "v.push(\"hello\");",
                "assert_eq!(v.len(), 1);",
            ]),
            narrative: "Scenario: vector can be sized and resized\n   Given: an empty vector\n    When: an element is pushed\n    Then: the size changes\n"
                .to_string(),
        }
    );
}

#[test]
fn large_scenario() {
    let statements = vec![block(
        "given_an_empty_vector",
        vec![
            plain("let mut v = vec![];"),
            block(
                "when_an_element_is_pushed",
                vec![
                    plain("v.push(\"hullo\");"),
                    block("then_the_size_changes", vec![plain("assert_eq!(v.len(), 1);")]),
                    block(
                        "and_when_an_element_is_removed",
                        vec![
                            plain("v.pop();"),
                            block(
                                "then_the_size_changes",
                                vec![
                                    plain("assert_ne!(v.len(), 1);"),
                                    block(
                                        "and_then_the_vec_is_empty",
                                        vec![plain("assert!(v.is_empty());")],
                                    ),
                                ],
                            ),
                        ],
                    ),
                ],
            ),
            block(
                "and_given_a_vec_with_some_elements",
                vec![
                    plain("let other = vec![1, 2, 3];"),
                    block(
                        "when_the_vec_is_merged",
                        vec![
                            plain("v.extend(other);"),
                            block("then_the_size_changes", vec![plain("assert_eq!(v.len(), 3);")]),
                        ],
                    ),
                ],
            ),
        ],
    )];

    let procedures = scenario("large_scenario", &statements).unwrap();

    assert_eq!(procedures.len(), 3);

    assert_eq!(
        procedures[0],
        Procedure {
            name: "the_size_changes".to_string(),
            scope: strings(&[
                "large_scenario",
                "given",
                "an_empty_vector",
                "when",
                "an_element_is_pushed",
                "then",
            ]),
            body: plains(&["let mut v = vec![];", "v.push(\"hullo\");", "assert_eq!(v.len(), 1);"]),
            narrative: "Scenario: large scenario\n   Given: an empty vector\n    When: an element is pushed\n    Then: the size changes\n"
                .to_string(),
        }
    );

    // A `then` with an `and_then` inside is no procedure of its own: its
    // statements run on the way to the inner one.
    assert_eq!(
        procedures[1],
        Procedure {
            name: "the_vec_is_empty".to_string(),
            scope: strings(&[
                "large_scenario",
                "given",
                "an_empty_vector",
                "when",
                "an_element_is_pushed",
                "and",
                "an_element_is_removed",
                "then",
                "the_size_changes",
                "and",
            ]),
            body: plains(&[
                "let mut v = vec![];",
                "v.push(\"hullo\");",
                "v.pop();",
                "assert_ne!(v.len(), 1);",
                "assert!(v.is_empty());",
            ]),
            narrative: "Scenario: large scenario\n   Given: an empty vector\n    When: an element is pushed\n     and: an element is removed\n    Then: the size changes\n     and: the vec is empty\n"
                .to_string(),
        }
    );

    assert_eq!(
        procedures[2],
        Procedure {
            name: "the_size_changes".to_string(),
            scope: strings(&[
                "large_scenario",
                "given",
                "an_empty_vector",
                "and",
                "a_vec_with_some_elements",
                "when",
                "the_vec_is_merged",
                "then",
            ]),
            body: plains(&[
                "let mut v = vec![];",
                "let other = vec![1, 2, 3];",
                "v.extend(other);",
                "assert_eq!(v.len(), 3);",
            ]),
            narrative: "Scenario: large scenario\n   Given: an empty vector\n     and: a vec with some elements\n    When: the vec is merged\n    Then: the size changes\n"
                .to_string(),
        }
    );
}
