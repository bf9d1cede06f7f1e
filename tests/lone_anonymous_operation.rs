use juniper::ast::{
    Definition, Document, Field, Fragment, InlineFragment, Operation, OperationType, Selection, SourcePosition,
    Spanning,
};
use juniper::lone_anonymous_operation::{error_message, factory};
use juniper::validation::{visit_document, RuleError, ValidatorContext};

fn at(start: (usize, usize, usize), end: (usize, usize, usize)) -> (SourcePosition, SourcePosition) {
    (
        SourcePosition::new(start.0, start.1, start.2),
        SourcePosition::new(end.0, end.1, end.2),
    )
}

fn field(name: &str, start: (usize, usize, usize), end: (usize, usize, usize)) -> Selection {
    let (start, end) = at(start, end);
    Selection::Field(Spanning {
        item: Field { alias: None, name: name.to_owned(), selection_set: None },
        start,
        end,
    })
}

fn spread(name: &str, start: (usize, usize, usize), end: (usize, usize, usize)) -> Selection {
    let (start, end) = at(start, end);
    Selection::FragmentSpread(Spanning { item: name.to_owned(), start, end })
}

fn operation(
    operation_type: OperationType,
    name: Option<&str>,
    start: (usize, usize, usize),
    end: (usize, usize, usize),
    selection_set: Vec<Selection>,
) -> Definition {
    let (start, end) = at(start, end);
    Definition::Operation(Spanning {
        item: Operation { operation_type, name: name.map(|n| n.to_owned()), selection_set },
        start,
        end,
    })
}

fn fragment(
    name: &str,
    on: &str,
    start: (usize, usize, usize),
    end: (usize, usize, usize),
    selection_set: Vec<Selection>,
) -> Definition {
    let (start, end) = at(start, end);
    Definition::Fragment(Spanning {
        item: Fragment { name: name.to_owned(), type_condition: on.to_owned(), selection_set },
        start,
        end,
    })
}

fn run_rule(doc: &Document) -> Vec<RuleError> {
    let mut ctx = ValidatorContext::new();
    let mut rule = factory();
    visit_document(&mut rule, &mut ctx, doc);
    ctx.into_errors()
}

fn expect_passes_rule(doc: &Document) {
    assert_eq!(run_rule(doc), vec![]);
}

fn expect_fails_rule(doc: &Document, expected: &[RuleError]) {
    assert_eq!(run_rule(doc), expected);
}

// fragment fragA on Type { field }
#[test]
fn no_operations() {
    let doc = vec![fragment(
        "fragA",
        "Type",
        (11, 1, 10),
        (65, 3, 11),
        vec![field("field", (48, 2, 12), (53, 2, 17))],
    )];
    expect_passes_rule(&doc);
}

// { field }
#[test]
fn one_anon_operation() {
    let doc = vec![operation(
        OperationType::Query,
        None,
        (11, 1, 10),
        (42, 3, 11),
        vec![field("field", (25, 2, 12), (30, 2, 17))],
    )];
    expect_passes_rule(&doc);
}

// query Foo { field } query Bar { field }
#[test]
fn multiple_named_operations() {
    let doc = vec![
        operation(
            OperationType::Query,
            Some("Foo"),
            (11, 1, 10),
            (52, 3, 11),
            vec![field("field", (35, 2, 12), (40, 2, 17))],
        ),
        operation(
            OperationType::Query,
            Some("Bar"),
            (64, 5, 10),
            (105, 7, 11),
            vec![field("field", (88, 6, 12), (93, 6, 17))],
        ),
    ];
    expect_passes_rule(&doc);
}

// { ...Foo } fragment Foo on Type { field }
#[test]
fn anon_operation_with_fragment() {
    let doc = vec![
        operation(
            OperationType::Query,
            None,
            (11, 1, 10),
            (43, 3, 11),
            vec![spread("Foo", (25, 2, 12), (31, 2, 18))],
        ),
        fragment(
            "Foo",
            "Type",
            (54, 4, 10),
            (106, 6, 11),
            vec![field("field", (89, 5, 12), (94, 5, 17))],
        ),
    ];
    expect_passes_rule(&doc);
}

// { fieldA } { fieldB }
#[test]
fn multiple_anon_operations() {
    let doc = vec![
        operation(
            OperationType::Query,
            None,
            (11, 1, 10),
            (43, 3, 11),
            vec![field("fieldA", (25, 2, 12), (31, 2, 18))],
        ),
        operation(
            OperationType::Query,
            None,
            (54, 4, 10),
            (86, 6, 11),
            vec![field("fieldB", (68, 5, 12), (74, 5, 18))],
        ),
    ];
    expect_fails_rule(
        &doc,
        &[
            RuleError::new(error_message(), &[SourcePosition::new(11, 1, 10)]),
            RuleError::new(error_message(), &[SourcePosition::new(54, 4, 10)]),
        ],
    );
}

// { fieldA } mutation Foo { fieldB }
#[test]
fn anon_operation_with_a_mutation() {
    let doc = vec![
        operation(
            OperationType::Query,
            None,
            (11, 1, 10),
            (43, 3, 11),
            vec![field("fieldA", (25, 2, 12), (31, 2, 18))],
        ),
        operation(
            OperationType::Mutation,
            Some("Foo"),
            (54, 4, 10),
            (99, 6, 11),
            vec![field("fieldB", (81, 5, 12), (87, 5, 18))],
        ),
    ];
    expect_fails_rule(
        &doc,
        &[RuleError::new(error_message(), &[SourcePosition::new(11, 1, 10)])],
    );
}

#[test]
fn three_anonymous_operations_each_reported() {
    let doc = vec![
        operation(OperationType::Query, None, (0, 0, 0), (5, 0, 5), vec![]),
        fragment("F", "T", (6, 1, 0), (20, 1, 14), vec![]),
        operation(OperationType::Query, None, (21, 2, 0), (30, 2, 9), vec![]),
        operation(OperationType::Query, Some("Named"), (31, 3, 0), (50, 3, 19), vec![]),
        operation(OperationType::Mutation, None, (51, 4, 0), (70, 4, 19), vec![]),
    ];
    let errors = run_rule(&doc);
    assert_eq!(errors.len(), 3);
    assert_eq!(errors[0].locations, vec![SourcePosition::new(0, 0, 0)]);
    assert_eq!(errors[1].locations, vec![SourcePosition::new(21, 2, 0)]);
    assert_eq!(errors[2].locations, vec![SourcePosition::new(51, 4, 0)]);
    assert_eq!(
        errors[0].message,
        "This anonymous operation must be the only defined operation"
    );
}

#[test]
fn empty_document_passes() {
    let doc: Document = vec![];
    expect_passes_rule(&doc);
}

#[test]
fn errors_follow_earlier_reports() {
    let doc = vec![
        operation(OperationType::Query, None, (0, 0, 0), (5, 0, 5), vec![]),
        operation(OperationType::Query, None, (6, 1, 0), (9, 1, 3), vec![]),
    ];
    let mut ctx = ValidatorContext::new();
    ctx.report_error("earlier", &[SourcePosition::new(1, 2, 3)]);
    let mut rule = factory();
    visit_document(&mut rule, &mut ctx, &doc);
    assert_eq!(rule.operation_count, Some(2));
    let errors = ctx.into_errors();
    assert_eq!(errors.len(), 3);
    assert_eq!(errors[0], RuleError::new("earlier", &[SourcePosition::new(1, 2, 3)]));
    assert_eq!(errors[2].locations, vec![SourcePosition::new(6, 1, 0)]);
}

#[test]
fn validate_twice_reports_the_same_errors() {
    let doc = vec![
        operation(OperationType::Query, None, (0, 0, 0), (5, 0, 5), vec![]),
        operation(OperationType::Query, None, (6, 1, 0), (9, 1, 3), vec![]),
    ];
    let first = juniper::lone_anonymous_operation::validate(&doc);
    let second = juniper::lone_anonymous_operation::validate(&doc);
    assert_eq!(first.len(), 2);
    assert_eq!(first, second);
}

#[test]
fn nested_selections_are_walked() {
    let inner = Selection::InlineFragment(Spanning {
        item: InlineFragment {
            type_condition: Some("T".to_owned()),
            selection_set: vec![field("deep", (30, 3, 4), (34, 3, 8)), spread("F", (35, 3, 9), (39, 3, 13))],
        },
        start: SourcePosition::new(20, 2, 2),
        end: SourcePosition::new(40, 4, 0),
    });
    let outer = Selection::Field(Spanning {
        item: Field { alias: Some("a".to_owned()), name: "b".to_owned(), selection_set: Some(vec![inner]) },
        start: SourcePosition::new(10, 1, 2),
        end: SourcePosition::new(41, 4, 1),
    });
    let doc = vec![
        operation(OperationType::Query, None, (0, 0, 0), (42, 5, 0), vec![outer]),
        operation(OperationType::Query, None, (43, 6, 0), (50, 6, 7), vec![]),
    ];
    let errors = juniper::lone_anonymous_operation::validate(&doc);
    assert_eq!(
        errors,
        vec![
            RuleError::new(error_message(), &[SourcePosition::new(0, 0, 0)]),
            RuleError::new(error_message(), &[SourcePosition::new(43, 6, 0)]),
        ]
    );
}
