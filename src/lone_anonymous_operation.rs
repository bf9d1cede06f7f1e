use vstd::prelude::*;
use crate::ast::{
    operation_count, Definition, Document, Field, Fragment, InlineFragment, Operation, Selection, Spanning,
};
use crate::validation::{
    definition_events, definitions_events, document_events, field_children_events, lemma_run_concat,
    lemma_run_wrap, run_errors, run_state, selection_events, selections_events, visit_document, ErrorView,
    RuleError, ValidatorContext, VisitEvent, Visitor,
};

verus! {

/// The rule that an anonymous operation must be the only operation of its
/// document. It counts the operations when it enters the document and
/// reports each anonymous operation when there are two or more.
pub struct LoneAnonymousOperation {
    pub operation_count: Option<usize>,
}

pub fn factory() -> (r: LoneAnonymousOperation)
    ensures
        r.operation_count is None,
{
    LoneAnonymousOperation { operation_count: None }
}

pub open spec fn lone_anonymous_message() -> Seq<char> {
    "This anonymous operation must be the only defined operation"@
}

pub fn error_message() -> (r: &'static str)
    ensures
        r@ == lone_anonymous_message(),
{
    "This anonymous operation must be the only defined operation"
}

/// One error at the start of each anonymous operation among `defs`, in order.
pub open spec fn anonymous_operation_errors(defs: Seq<Definition>) -> Seq<ErrorView>
    decreases defs.len(),
{
    if defs.len() == 0 {
        Seq::empty()
    } else {
        anonymous_operation_errors(defs.drop_last()) + anonymous_error(defs.last())
    }
}

/// The error at the start of `d` if it is an anonymous operation; else none.
pub open spec fn anonymous_error(d: Definition) -> Seq<ErrorView> {
    match d {
        Definition::Operation(op) => if op.item.name is None {
            seq![(lone_anonymous_message(), seq![op.start])]
        } else {
            Seq::empty()
        },
        Definition::Fragment(_) => Seq::empty(),
    }
}

/// The state the rule is made in.
pub open spec fn fresh_rule() -> LoneAnonymousOperation {
    LoneAnonymousOperation { operation_count: None }
}

proof fn lemma_ignores_selection(s: LoneAnonymousOperation, n: usize, sel: Selection)
    requires
        s.operation_count == Some(n),
    ensures
        run_state(s, selection_events(sel)) == s,
        run_errors(s, selection_events(sel)) == Seq::<ErrorView>::empty(),
    decreases sel, 0nat,
{
    match sel {
        Selection::Field(f) => {
            let mid = field_children_events(f);
            match f.item.selection_set {
                Some(ss) => {
                    assert(decreases_to!(sel => ss));
                    lemma_ignores_selections(s, n, ss@, ss@.len() as int);
                },
                None => {},
            }
            lemma_run_wrap(s, VisitEvent::EnterField(f), mid, VisitEvent::ExitField(f));
            assert(run_errors(s, selection_events(sel)) =~= Seq::<ErrorView>::empty());
        },
        Selection::FragmentSpread(sp) => {
            let mid = Seq::<VisitEvent>::empty();
            lemma_run_wrap(s, VisitEvent::EnterFragmentSpread(sp), mid, VisitEvent::ExitFragmentSpread(sp));
            assert(seq![VisitEvent::EnterFragmentSpread(sp)] + mid + seq![VisitEvent::ExitFragmentSpread(sp)]
                =~= selection_events(sel));
            assert(run_errors(s, selection_events(sel)) =~= Seq::<ErrorView>::empty());
        },
        Selection::InlineFragment(inl) => {
            let ss = inl.item.selection_set;
            assert(decreases_to!(sel => ss));
            lemma_ignores_selections(s, n, ss@, ss@.len() as int);
            lemma_run_wrap(
                s,
                VisitEvent::EnterInlineFragment(inl),
                selections_events(ss@, ss@.len() as int),
                VisitEvent::ExitInlineFragment(inl),
            );
            assert(run_errors(s, selection_events(sel)) =~= Seq::<ErrorView>::empty());
        },
    }
}

proof fn lemma_ignores_selections(s: LoneAnonymousOperation, n: usize, ss: Seq<Selection>, k: int)
    requires
        s.operation_count == Some(n),
    ensures
        run_state(s, selections_events(ss, k)) == s,
        run_errors(s, selections_events(ss, k)) == Seq::<ErrorView>::empty(),
    decreases ss, k,
{
    if k <= 0 || k > ss.len() {
        assert(run_errors(s, Seq::<VisitEvent>::empty()) == Seq::<ErrorView>::empty());
    } else {
        lemma_ignores_selections(s, n, ss, k - 1);
        lemma_ignores_selection(s, n, ss[k - 1]);
        lemma_run_concat(s, selections_events(ss, k - 1), selection_events(ss[k - 1]));
        assert(run_errors(s, selections_events(ss, k)) =~= Seq::<ErrorView>::empty());
    }
}

proof fn lemma_definition(s: LoneAnonymousOperation, n: usize, d: Definition)
    requires
        s.operation_count == Some(n),
    ensures
        run_state(s, definition_events(d)) == s,
        n <= 1 ==> run_errors(s, definition_events(d)) == Seq::<ErrorView>::empty(),
        n > 1 ==> run_errors(s, definition_events(d)) == anonymous_error(d),
{
    match d {
        Definition::Operation(op) => {
            let ss = op.item.selection_set@;
            lemma_ignores_selections(s, n, ss, ss.len() as int);
            lemma_run_wrap(
                s,
                VisitEvent::EnterOperation(op),
                selections_events(ss, ss.len() as int),
                VisitEvent::ExitOperation(op),
            );
            assert(run_errors(s, definition_events(d)) =~= s.reports(VisitEvent::EnterOperation(op)));
            assert(Seq::<ErrorView>::empty() + s.reports(VisitEvent::EnterOperation(op))
                =~= s.reports(VisitEvent::EnterOperation(op)));
        },
        Definition::Fragment(f) => {
            let ss = f.item.selection_set@;
            lemma_ignores_selections(s, n, ss, ss.len() as int);
            lemma_run_wrap(
                s,
                VisitEvent::EnterFragment(f),
                selections_events(ss, ss.len() as int),
                VisitEvent::ExitFragment(f),
            );
            assert(run_errors(s, definition_events(d)) =~= Seq::<ErrorView>::empty());
        },
    }
}

proof fn lemma_definitions(s: LoneAnonymousOperation, n: usize, defs: Seq<Definition>)
    requires
        s.operation_count == Some(n),
    ensures
        run_state(s, definitions_events(defs)) == s,
        run_errors(s, definitions_events(defs)) == if n > 1 {
            anonymous_operation_errors(defs)
        } else {
            Seq::<ErrorView>::empty()
        },
    decreases defs.len(),
{
    if defs.len() > 0 {
        let front = definitions_events(defs.drop_last());
        let last = definition_events(defs.last());
        lemma_definitions(s, n, defs.drop_last());
        lemma_run_concat(s, front, last);
        lemma_definition(s, n, defs.last());
        if n > 1 {
            assert(run_errors(s, definitions_events(defs)) =~= anonymous_operation_errors(defs));
        } else {
            assert(run_errors(s, definitions_events(defs)) =~= Seq::<ErrorView>::empty());
        }
    } else {
        assert(run_errors(s, Seq::<VisitEvent>::empty()) == Seq::<ErrorView>::empty());
    }
}

/// Over a whole document, a fresh rule reports one error at the start of each
/// anonymous operation, in document order, when the document defines two or
/// more operations; and nothing when it defines at most one.
pub proof fn lemma_lone_anonymous_operation(doc: Seq<Definition>)
    requires
        doc.len() <= usize::MAX,
    ensures
        operation_count(doc) > 1 ==> run_errors(fresh_rule(), document_events(doc))
            == anonymous_operation_errors(doc),
        operation_count(doc) <= 1 ==> run_errors(fresh_rule(), document_events(doc))
            == Seq::<ErrorView>::empty(),
{
    lemma_operation_count_bound(doc);
    let v = fresh_rule();
    let first = seq![VisitEvent::EnterDocument(doc)];
    let defs = definitions_events(doc);
    let last = seq![VisitEvent::ExitDocument(doc)];
    let n = operation_count(doc) as usize;
    assert(first.drop_last() =~= Seq::<VisitEvent>::empty());
    assert(last.drop_last() =~= Seq::<VisitEvent>::empty());
    reveal_with_fuel(run_errors, 2);
    reveal_with_fuel(run_state, 2);
    let s = run_state(v, first);
    assert(s.operation_count == Some(n));
    assert(run_errors(v, first) =~= Seq::<ErrorView>::empty());
    lemma_run_concat(v, first, defs);
    lemma_definitions(s, n, doc);
    lemma_run_concat(v, first + defs, last);
    assert(run_errors(s, last) =~= Seq::<ErrorView>::empty());
    let r = run_errors(v, document_events(doc));
    if n > 1 {
        assert(r =~= anonymous_operation_errors(doc));
    } else {
        assert(r =~= Seq::<ErrorView>::empty());
    }
}

proof fn lemma_operation_count_bound(defs: Seq<Definition>)
    ensures
        operation_count(defs) <= defs.len(),
    decreases defs.len(),
{
    if defs.len() > 0 {
        lemma_operation_count_bound(defs.drop_last());
    }
}

impl Visitor for LoneAnonymousOperation {
    open spec fn step(self, e: VisitEvent) -> LoneAnonymousOperation {
        match e {
            VisitEvent::EnterDocument(doc) => LoneAnonymousOperation {
                operation_count: Some(operation_count(doc) as usize),
            },
            _ => self,
        }
    }

    open spec fn reports(self, e: VisitEvent) -> Seq<ErrorView> {
        match e {
            VisitEvent::EnterOperation(op) => match self.operation_count {
                Some(n) => if n > 1 && op.item.name is None {
                    seq![(lone_anonymous_message(), seq![op.start])]
                } else {
                    Seq::empty()
                },
                None => Seq::empty(),
            },
            _ => Seq::empty(),
        }
    }

    fn enter_document(&mut self, ctx: &mut ValidatorContext, doc: &Document) {
        let mut count: usize = 0;
        let mut i: usize = 0;
        while i < doc.len()
            invariant
                i <= doc.len(),
                count == operation_count(doc@.take(i as int)),
                count <= i,
            decreases doc.len() - i,
        {
            proof {
                assert(doc@.take(i + 1).drop_last() =~= doc@.take(i as int));
            }
            match &doc[i] {
                Definition::Operation(_) => {
                    count = count + 1;
                },
                Definition::Fragment(_) => {},
            }
            i = i + 1;
        }
        proof {
            assert(doc@.take(doc.len() as int) =~= doc@);
            assert(ctx.errs() + Seq::<ErrorView>::empty() =~= ctx.errs());
        }
        self.operation_count = Some(count);
    }

    fn exit_document(&mut self, ctx: &mut ValidatorContext, doc: &Document) {
        proof {
            assert(ctx.errs() + Seq::<ErrorView>::empty() =~= ctx.errs());
        }
    }

    fn enter_operation_definition(&mut self, ctx: &mut ValidatorContext, op: &Spanning<Operation>) {
        proof {
            assert(ctx.errs() + Seq::<ErrorView>::empty() =~= ctx.errs());
        }
        if let Some(operation_count) = self.operation_count {
            if operation_count > 1 && op.item.name.is_none() {
                let locations = [op.start];
                ctx.report_error(error_message(), &locations);
                proof {
                    assert(locations@ =~= seq![op.start]);
                    assert(old(ctx).errs().push((lone_anonymous_message(), seq![op.start]))
                        =~= old(ctx).errs() + seq![(lone_anonymous_message(), seq![op.start])]);
                }
            }
        }
    }

    fn exit_operation_definition(&mut self, ctx: &mut ValidatorContext, op: &Spanning<Operation>) {
        proof {
            assert(ctx.errs() + Seq::<ErrorView>::empty() =~= ctx.errs());
        }
    }

    fn enter_fragment_definition(&mut self, ctx: &mut ValidatorContext, f: &Spanning<Fragment>) {
        proof {
            assert(ctx.errs() + Seq::<ErrorView>::empty() =~= ctx.errs());
        }
    }

    fn exit_fragment_definition(&mut self, ctx: &mut ValidatorContext, f: &Spanning<Fragment>) {
        proof {
            assert(ctx.errs() + Seq::<ErrorView>::empty() =~= ctx.errs());
        }
    }

    fn enter_field(&mut self, ctx: &mut ValidatorContext, field: &Spanning<Field>) {
        proof {
            assert(ctx.errs() + Seq::<ErrorView>::empty() =~= ctx.errs());
        }
    }

    fn exit_field(&mut self, ctx: &mut ValidatorContext, field: &Spanning<Field>) {
        proof {
            assert(ctx.errs() + Seq::<ErrorView>::empty() =~= ctx.errs());
        }
    }

    fn enter_fragment_spread(&mut self, ctx: &mut ValidatorContext, spread: &Spanning<String>) {
        proof {
            assert(ctx.errs() + Seq::<ErrorView>::empty() =~= ctx.errs());
        }
    }

    fn exit_fragment_spread(&mut self, ctx: &mut ValidatorContext, spread: &Spanning<String>) {
        proof {
            assert(ctx.errs() + Seq::<ErrorView>::empty() =~= ctx.errs());
        }
    }

    fn enter_inline_fragment(&mut self, ctx: &mut ValidatorContext, inline: &Spanning<InlineFragment>) {
        proof {
            assert(ctx.errs() + Seq::<ErrorView>::empty() =~= ctx.errs());
        }
    }

    fn exit_inline_fragment(&mut self, ctx: &mut ValidatorContext, inline: &Spanning<InlineFragment>) {
        proof {
            assert(ctx.errs() + Seq::<ErrorView>::empty() =~= ctx.errs());
        }
    }
}

/// Validates a document against the rules, each in its own walk over the
/// document, and returns the errors in the order they were reported. An empty
/// result means the document may be executed.
pub fn validate(doc: &Document) -> (r: Vec<RuleError>)
    ensures
        r@.map_values(|e: RuleError| e@) == run_errors(fresh_rule(), document_events(doc@)),
        operation_count(doc@) > 1 ==> r@.map_values(|e: RuleError| e@) == anonymous_operation_errors(doc@),
        operation_count(doc@) <= 1 ==> r@.len() == 0,
{
    let n_definitions = doc.len();
    proof {
        assert(doc@.len() == n_definitions);
        lemma_lone_anonymous_operation(doc@);
    }
    let mut ctx = ValidatorContext::new();
    let mut rule = factory();
    visit_document(&mut rule, &mut ctx, doc);
    proof {
        assert(Seq::<ErrorView>::empty() + run_errors(fresh_rule(), document_events(doc@))
            =~= run_errors(fresh_rule(), document_events(doc@)));
    }
    ctx.into_errors()
}

/// Validating the same document twice reports the same errors: what
/// `validate` returns is determined by the document alone.
pub proof fn lemma_validate_deterministic(d1: Seq<Definition>, d2: Seq<Definition>)
    requires
        d1 == d2,
    ensures
        run_errors(fresh_rule(), document_events(d1)) == run_errors(fresh_rule(), document_events(d2)),
{
}

} // verus!
