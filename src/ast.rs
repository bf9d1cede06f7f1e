use vstd::prelude::*;

verus! {

/// A position in query source, as the parser reports it: byte offset, line
/// and column.
#[derive(Clone, Copy, Debug, PartialEq, Eq, Structural)]
pub struct SourcePosition {
    pub index: usize,
    pub line: usize,
    pub col: usize,
}

impl SourcePosition {
    pub fn new(index: usize, line: usize, col: usize) -> (r: SourcePosition)
        ensures
            r == (SourcePosition { index, line, col }),
    {
        SourcePosition { index, line, col }
    }
}

/// A node of the document together with the source span it came from.
#[derive(Debug)]
pub struct Spanning<T> {
    pub item: T,
    pub start: SourcePosition,
    pub end: SourcePosition,
}

#[derive(Clone, Copy, Debug, PartialEq, Eq, Structural)]
pub enum OperationType {
    Query,
    Mutation,
}

/// One selection of a selection set. Nested selection sets are held by
/// fields and inline fragments.
#[derive(Debug)]
pub enum Selection {
    Field(Spanning<Field>),
    FragmentSpread(Spanning<String>),
    InlineFragment(Spanning<InlineFragment>),
}

#[derive(Debug)]
pub struct Field {
    pub alias: Option<String>,
    pub name: String,
    pub selection_set: Option<Vec<Selection>>,
}

#[derive(Debug)]
pub struct InlineFragment {
    pub type_condition: Option<String>,
    pub selection_set: Vec<Selection>,
}

#[derive(Debug)]
pub struct Operation {
    pub operation_type: OperationType,
    pub name: Option<String>,
    pub selection_set: Vec<Selection>,
}

#[derive(Debug)]
pub struct Fragment {
    pub name: String,
    pub type_condition: String,
    pub selection_set: Vec<Selection>,
}

#[derive(Debug)]
pub enum Definition {
    Operation(Spanning<Operation>),
    Fragment(Spanning<Fragment>),
}

/// A parsed document: its definitions in source order.
pub type Document = Vec<Definition>;

/// The number of operation definitions among `defs`.
pub open spec fn operation_count(defs: Seq<Definition>) -> nat
    decreases defs.len(),
{
    if defs.len() == 0 {
        0
    } else {
        operation_count(defs.drop_last()) + match defs.last() {
            Definition::Operation(_) => 1nat,
            Definition::Fragment(_) => 0nat,
        }
    }
}

} // verus!
