use juniper::ast::{Definition, Fragment, Operation, OperationType, SourcePosition, Spanning};
use juniper::executor::{select_operation, OperationError};

fn op(name: Option<&str>, at: usize) -> Definition {
    Definition::Operation(Spanning {
        item: Operation {
            operation_type: OperationType::Query,
            name: name.map(|n| n.to_owned()),
            selection_set: vec![],
        },
        start: SourcePosition::new(at, 0, at),
        end: SourcePosition::new(at + 1, 0, at + 1),
    })
}

fn frag(name: &str) -> Definition {
    Definition::Fragment(Spanning {
        item: Fragment { name: name.to_owned(), type_condition: "T".to_owned(), selection_set: vec![] },
        start: SourcePosition::new(0, 0, 0),
        end: SourcePosition::new(1, 0, 1),
    })
}

#[test]
fn only_operation_is_chosen_without_a_name() {
    let doc = vec![frag("F"), op(None, 5)];
    assert_eq!(select_operation(&doc, None), Ok(1));
}

#[test]
fn no_operation_is_an_error() {
    let doc = vec![frag("F")];
    assert_eq!(select_operation(&doc, None), Err(OperationError::NoOperationProvided));
    assert_eq!(select_operation(&vec![], None), Err(OperationError::NoOperationProvided));
}

#[test]
fn several_operations_need_a_name() {
    let doc = vec![op(Some("A"), 0), op(Some("B"), 10)];
    assert_eq!(select_operation(&doc, None), Err(OperationError::MultipleOperationsProvided));
    assert_eq!(select_operation(&doc, Some(&"B".to_string())), Ok(1));
}

#[test]
fn unknown_name_is_an_error() {
    let doc = vec![op(Some("A"), 0), op(None, 10), frag("B")];
    assert_eq!(
        select_operation(&doc, Some(&"B".to_string())),
        Err(OperationError::UnknownOperationName)
    );
}

#[test]
fn first_operation_of_a_name_is_chosen() {
    let doc = vec![op(None, 0), op(Some("A"), 10), op(Some("A"), 20)];
    assert_eq!(select_operation(&doc, Some(&"A".to_string())), Ok(1));
}
