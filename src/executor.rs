use vstd::prelude::*;
use crate::ast::{operation_count, Definition, Document};

verus! {

/// Why no operation of a document could be chosen for execution. Such an
/// error stops the execution before any field is resolved.
#[derive(Clone, Copy, Debug, PartialEq, Eq, Structural)]
pub enum OperationError {
    /// The document defines no operation.
    NoOperationProvided,
    /// The document defines several operations and no name was given.
    MultipleOperationsProvided,
    /// No operation of the document has the given name.
    UnknownOperationName,
}

/// Whether definition `j` of `doc` is an operation named `name`.
pub open spec fn named_at(doc: Seq<Definition>, j: int, name: Seq<char>) -> bool {
    match doc[j] {
        Definition::Operation(op) => match op.item.name {
            Some(m) => m@ == name,
            None => false,
        },
        Definition::Fragment(_) => false,
    }
}

/// Whether some operation of `doc` is named `name`.
pub open spec fn has_named(doc: Seq<Definition>, name: Seq<char>) -> bool {
    exists|j: int| 0 <= j < doc.len() && #[trigger] named_at(doc, j, name)
}

/// `i` is the first operation of `doc` named `name`.
pub open spec fn is_first_named(doc: Seq<Definition>, i: int, name: Seq<char>) -> bool {
    &&& 0 <= i < doc.len()
    &&& named_at(doc, i, name)
    &&& forall|j: int| 0 <= j < i ==> !#[trigger] named_at(doc, j, name)
}

pub open spec fn name_view(name: Option<&String>) -> Option<Seq<char>> {
    match name {
        Some(n) => Some(n@),
        None => None,
    }
}

/// Whether definition `i` is the operation to execute: the first one named
/// `name`, or, with no name, the only operation of the document.
pub open spec fn chosen_at(doc: Seq<Definition>, name: Option<Seq<char>>, i: int) -> bool {
    match name {
        Some(n) => is_first_named(doc, i, n),
        None => operation_count(doc) == 1 && 0 <= i < doc.len() && doc[i] is Operation,
    }
}

/// Whether `e` is the error for choosing with `name` among the operations of `doc`.
pub open spec fn refused(doc: Seq<Definition>, name: Option<Seq<char>>, e: OperationError) -> bool {
    match name {
        Some(n) => e == OperationError::UnknownOperationName && !has_named(doc, n),
        None => (operation_count(doc) == 0 && e == OperationError::NoOperationProvided) || (operation_count(doc)
            > 1 && e == OperationError::MultipleOperationsProvided),
    }
}

/// Chooses the operation to execute and returns its index among the
/// definitions: the first one with the given name, or, when no name is
/// given, the only operation of the document.
pub fn select_operation(doc: &Document, name: Option<&String>) -> (r: Result<usize, OperationError>)
    ensures
        r matches Ok(i) ==> chosen_at(doc@, name_view(name), i as int),
        r matches Err(e) ==> refused(doc@, name_view(name), e),
{
    match name {
        Some(n) => {
            let mut i: usize = 0;
            while i < doc.len()
                invariant
                    name == Some(n),
                    i <= doc@.len(),
                    forall|j: int| 0 <= j < i ==> !#[trigger] named_at(doc@, j, n@),
                decreases doc@.len() - i,
            {
                if let Definition::Operation(op) = &doc[i] {
                    if let Some(m) = &op.item.name {
                        if m.eq(n) {
                            proof {
                                assert(is_first_named(doc@, i as int, n@));
                            }
                            return Ok(i);
                        }
                    }
                }
                proof {
                    assert(!named_at(doc@, i as int, n@));
                }
                i = i + 1;
            }
            Err(OperationError::UnknownOperationName)
        },
        None => {
            let mut count: usize = 0;
            let mut first: usize = 0;
            let mut i: usize = 0;
            while i < doc.len()
                invariant
                    i <= doc@.len(),
                    count == operation_count(doc@.take(i as int)),
                    count <= i,
                    count >= 1 ==> first < i && doc@[first as int] is Operation,
                decreases doc@.len() - i,
            {
                proof {
                    assert(doc@.take(i + 1).drop_last() =~= doc@.take(i as int));
                }
                if let Definition::Operation(_) = &doc[i] {
                    if count == 0 {
                        first = i;
                    }
                    count = count + 1;
                }
                i = i + 1;
            }
            proof {
                assert(doc@.take(doc@.len() as int) =~= doc@);
            }
            if count == 0 {
                Err(OperationError::NoOperationProvided)
            } else if count > 1 {
                Err(OperationError::MultipleOperationsProvided)
            } else {
                Ok(first)
            }
        },
    }
}

} // verus!
