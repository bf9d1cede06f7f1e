use vstd::prelude::*;
use crate::ast::{
    Definition, Document, Field, Fragment, InlineFragment, Operation, Selection, SourcePosition, Spanning,
};

verus! {

broadcast use vstd::std_specs::vec::group_vec_axioms;

/// A validation error: a message and the source positions it concerns.
#[derive(Debug)]
pub struct RuleError {
    pub message: String,
    pub locations: Vec<SourcePosition>,
}

/// What a reported error means: its message and its positions.
pub type ErrorView = (Seq<char>, Seq<SourcePosition>);

impl View for RuleError {
    type V = ErrorView;

    open spec fn view(&self) -> ErrorView {
        (self.message@, self.locations@)
    }
}

impl RuleError {
    pub fn new(message: &str, locations: &[SourcePosition]) -> (r: RuleError)
        ensures
            r@ == (message@, locations@),
    {
        RuleError { message: message.to_owned(), locations: vstd::slice::slice_to_vec(locations) }
    }
}

impl PartialEq for RuleError {
    fn eq(&self, o: &RuleError) -> (r: bool) {
        if self.message != o.message || self.locations.len() != o.locations.len() {
            return false;
        }
        let mut i: usize = 0;
        while i < self.locations.len()
            invariant
                self.locations.len() == o.locations.len(),
                i <= self.locations.len(),
                forall|j: int| 0 <= j < i ==> self.locations@[j] == o.locations@[j],
            decreases self.locations.len() - i,
        {
            if self.locations[i] != o.locations[i] {
                return false;
            }
            i = i + 1;
        }
        proof {
            assert(self.locations@ =~= o.locations@);
        }
        true
    }
}

impl vstd::std_specs::cmp::PartialEqSpecImpl for RuleError {
    open spec fn obeys_eq_spec() -> bool {
        true
    }

    open spec fn eq_spec(&self, o: &RuleError) -> bool {
        self@ == o@
    }
}

/// The state shared by the rules of one validation: the errors reported so
/// far, in the order they were reported.
pub struct ValidatorContext {
    errors: Vec<RuleError>,
}

impl ValidatorContext {
    pub closed spec fn errs(&self) -> Seq<ErrorView> {
        self.errors@.map_values(|e: RuleError| e@)
    }

    pub fn new() -> (r: ValidatorContext)
        ensures
            r.errs() == Seq::<ErrorView>::empty(),
    {
        let r = ValidatorContext { errors: Vec::new() };
        proof {
            assert(r.errs() =~= Seq::<ErrorView>::empty());
        }
        r
    }

    /// Appends an error with the given message and positions.
    pub fn report_error(&mut self, message: &str, locations: &[SourcePosition])
        ensures
            final(self).errs() == old(self).errs().push((message@, locations@)),
    {
        let e = RuleError::new(message, locations);
        self.errors.push(e);
        proof {
            assert(self.errs() =~= old(self).errs().push((message@, locations@)));
        }
    }

    /// The errors reported so far.
    pub fn into_errors(self) -> (r: Vec<RuleError>)
        ensures
            r@.map_values(|e: RuleError| e@) == self.errs(),
    {
        self.errors
    }
}

/// A step of the depth-first walk over a document, as seen by a rule.
pub enum VisitEvent {
    EnterDocument(Seq<Definition>),
    ExitDocument(Seq<Definition>),
    EnterOperation(Spanning<Operation>),
    ExitOperation(Spanning<Operation>),
    EnterFragment(Spanning<Fragment>),
    ExitFragment(Spanning<Fragment>),
    EnterField(Spanning<Field>),
    ExitField(Spanning<Field>),
    EnterFragmentSpread(Spanning<String>),
    ExitFragmentSpread(Spanning<String>),
    EnterInlineFragment(Spanning<InlineFragment>),
    ExitInlineFragment(Spanning<InlineFragment>),
}

/// A validation rule. Each hook is described by `step`, the rule's state after
/// the event, and `reports`, the errors it appends for the event.
pub trait Visitor: Sized {
    spec fn step(self, e: VisitEvent) -> Self;

    spec fn reports(self, e: VisitEvent) -> Seq<ErrorView>;

    fn enter_document(&mut self, ctx: &mut ValidatorContext, doc: &Document)
        ensures
            *final(self) == old(self).step(VisitEvent::EnterDocument(doc@)),
            final(ctx).errs() == old(ctx).errs() + old(self).reports(
                VisitEvent::EnterDocument(doc@),
            ),
    ;

    fn exit_document(&mut self, ctx: &mut ValidatorContext, doc: &Document)
        ensures
            *final(self) == old(self).step(VisitEvent::ExitDocument(doc@)),
            final(ctx).errs() == old(ctx).errs() + old(self).reports(
                VisitEvent::ExitDocument(doc@),
            ),
    ;

    fn enter_operation_definition(&mut self, ctx: &mut ValidatorContext, op: &Spanning<Operation>)
        ensures
            *final(self) == old(self).step(VisitEvent::EnterOperation(*op)),
            final(ctx).errs() == old(ctx).errs() + old(self).reports(
                VisitEvent::EnterOperation(*op),
            ),
    ;

    fn exit_operation_definition(&mut self, ctx: &mut ValidatorContext, op: &Spanning<Operation>)
        ensures
            *final(self) == old(self).step(VisitEvent::ExitOperation(*op)),
            final(ctx).errs() == old(ctx).errs() + old(self).reports(
                VisitEvent::ExitOperation(*op),
            ),
    ;

    fn enter_fragment_definition(&mut self, ctx: &mut ValidatorContext, f: &Spanning<Fragment>)
        ensures
            *final(self) == old(self).step(VisitEvent::EnterFragment(*f)),
            final(ctx).errs() == old(ctx).errs() + old(self).reports(
                VisitEvent::EnterFragment(*f),
            ),
    ;

    fn exit_fragment_definition(&mut self, ctx: &mut ValidatorContext, f: &Spanning<Fragment>)
        ensures
            *final(self) == old(self).step(VisitEvent::ExitFragment(*f)),
            final(ctx).errs() == old(ctx).errs() + old(self).reports(
                VisitEvent::ExitFragment(*f),
            ),
    ;

    fn enter_field(&mut self, ctx: &mut ValidatorContext, field: &Spanning<Field>)
        ensures
            *final(self) == old(self).step(VisitEvent::EnterField(*field)),
            final(ctx).errs() == old(ctx).errs() + old(self).reports(
                VisitEvent::EnterField(*field),
            ),
    ;

    fn exit_field(&mut self, ctx: &mut ValidatorContext, field: &Spanning<Field>)
        ensures
            *final(self) == old(self).step(VisitEvent::ExitField(*field)),
            final(ctx).errs() == old(ctx).errs() + old(self).reports(
                VisitEvent::ExitField(*field),
            ),
    ;

    fn enter_fragment_spread(&mut self, ctx: &mut ValidatorContext, spread: &Spanning<String>)
        ensures
            *final(self) == old(self).step(VisitEvent::EnterFragmentSpread(*spread)),
            final(ctx).errs() == old(ctx).errs() + old(self).reports(
                VisitEvent::EnterFragmentSpread(*spread),
            ),
    ;

    fn exit_fragment_spread(&mut self, ctx: &mut ValidatorContext, spread: &Spanning<String>)
        ensures
            *final(self) == old(self).step(VisitEvent::ExitFragmentSpread(*spread)),
            final(ctx).errs() == old(ctx).errs() + old(self).reports(
                VisitEvent::ExitFragmentSpread(*spread),
            ),
    ;

    fn enter_inline_fragment(&mut self, ctx: &mut ValidatorContext, inline: &Spanning<InlineFragment>)
        ensures
            *final(self) == old(self).step(VisitEvent::EnterInlineFragment(*inline)),
            final(ctx).errs() == old(ctx).errs() + old(self).reports(
                VisitEvent::EnterInlineFragment(*inline),
            ),
    ;

    fn exit_inline_fragment(&mut self, ctx: &mut ValidatorContext, inline: &Spanning<InlineFragment>)
        ensures
            *final(self) == old(self).step(VisitEvent::ExitInlineFragment(*inline)),
            final(ctx).errs() == old(ctx).errs() + old(self).reports(
                VisitEvent::ExitInlineFragment(*inline),
            ),
    ;
}

/// The events of one selection: entering it, the events of its nested
/// selections, then leaving it.
pub open spec fn selection_events(sel: Selection) -> Seq<VisitEvent>
    decreases sel, 0nat,
{
    match sel {
        Selection::Field(f) => seq![VisitEvent::EnterField(f)] + match f.item.selection_set {
            Some(ss) => selections_events(ss@, ss@.len() as int),
            None => Seq::empty(),
        } + seq![VisitEvent::ExitField(f)],
        Selection::FragmentSpread(sp) => seq![
            VisitEvent::EnterFragmentSpread(sp),
            VisitEvent::ExitFragmentSpread(sp),
        ],
        Selection::InlineFragment(inl) => seq![VisitEvent::EnterInlineFragment(inl)] + selections_events(
            inl.item.selection_set@,
            inl.item.selection_set@.len() as int,
        ) + seq![VisitEvent::ExitInlineFragment(inl)],
    }
}

/// The events of the selections nested in a field.
pub open spec fn field_children_events(f: Spanning<Field>) -> Seq<VisitEvent> {
    match f.item.selection_set {
        Some(ss) => selections_events(ss@, ss@.len() as int),
        None => Seq::empty(),
    }
}

/// The events of the first `n` selections of a selection set, in order.
pub open spec fn selections_events(ss: Seq<Selection>, n: int) -> Seq<VisitEvent>
    decreases ss, n,
{
    if n <= 0 || n > ss.len() {
        Seq::empty()
    } else {
        selections_events(ss, n - 1) + selection_events(ss[n - 1])
    }
}

/// The events of one definition: entering it, the events of its selection
/// set, then leaving it.
pub open spec fn definition_events(d: Definition) -> Seq<VisitEvent> {
    match d {
        Definition::Operation(op) => seq![VisitEvent::EnterOperation(op)] + selections_events(
            op.item.selection_set@,
            op.item.selection_set@.len() as int,
        ) + seq![VisitEvent::ExitOperation(op)],
        Definition::Fragment(f) => seq![VisitEvent::EnterFragment(f)] + selections_events(
            f.item.selection_set@,
            f.item.selection_set@.len() as int,
        ) + seq![VisitEvent::ExitFragment(f)],
    }
}

/// The events of a sequence of definitions, in document order.
pub open spec fn definitions_events(defs: Seq<Definition>) -> Seq<VisitEvent>
    decreases defs.len(),
{
    if defs.len() == 0 {
        Seq::empty()
    } else {
        definitions_events(defs.drop_last()) + definition_events(defs.last())
    }
}

/// The events of a whole document walk.
pub open spec fn document_events(doc: Seq<Definition>) -> Seq<VisitEvent> {
    seq![VisitEvent::EnterDocument(doc)] + definitions_events(doc) + seq![
        VisitEvent::ExitDocument(doc),
    ]
}

/// The state of a rule after it has seen the given events.
pub open spec fn run_state<V: Visitor>(v: V, evs: Seq<VisitEvent>) -> V
    decreases evs.len(),
{
    if evs.len() == 0 {
        v
    } else {
        run_state(v, evs.drop_last()).step(evs.last())
    }
}

/// The errors a rule reports over the given events, in order.
pub open spec fn run_errors<V: Visitor>(v: V, evs: Seq<VisitEvent>) -> Seq<ErrorView>
    decreases evs.len(),
{
    if evs.len() == 0 {
        Seq::empty()
    } else {
        run_errors(v, evs.drop_last()) + run_state(v, evs.drop_last()).reports(evs.last())
    }
}

proof fn lemma_run_push<V: Visitor>(v: V, evs: Seq<VisitEvent>, e: VisitEvent)
    ensures
        run_state(v, evs.push(e)) == run_state(v, evs).step(e),
        run_errors(v, evs.push(e)) == run_errors(v, evs) + run_state(v, evs).reports(e),
{
    assert(evs.push(e).drop_last() =~= evs);
}

/// Running a rule over two runs of events is running it over the first, then
/// over the second from the state the first left.
pub proof fn lemma_run_concat<V: Visitor>(v: V, a: Seq<VisitEvent>, b: Seq<VisitEvent>)
    ensures
        run_state(v, a + b) == run_state(run_state(v, a), b),
        run_errors(v, a + b) == run_errors(v, a) + run_errors(run_state(v, a), b),
    decreases b.len(),
{
    if b.len() == 0 {
        assert(a + b =~= a);
        assert(run_errors(v, a) + Seq::<ErrorView>::empty() =~= run_errors(v, a));
    } else {
        lemma_run_concat(v, a, b.drop_last());
        assert((a + b).drop_last() =~= a + b.drop_last());
        assert((a + b).last() == b.last());
        let w = run_state(v, a);
        assert(run_errors(v, a + b) =~= run_errors(v, a) + run_errors(w, b.drop_last())
            + run_state(w, b.drop_last()).reports(b.last()));
    }
}

/// Running a rule over one event, then `mid`, then another event.
pub proof fn lemma_run_wrap<V: Visitor>(v: V, e1: VisitEvent, mid: Seq<VisitEvent>, e2: VisitEvent)
    ensures
        run_state(v, seq![e1] + mid + seq![e2]) == run_state(v.step(e1), mid).step(e2),
        run_errors(v, seq![e1] + mid + seq![e2]) == v.reports(e1) + run_errors(v.step(e1), mid)
            + run_state(v.step(e1), mid).reports(e2),
{
    let a = seq![e1];
    let c = seq![e2];
    assert(a.drop_last() =~= Seq::<VisitEvent>::empty());
    assert(c.drop_last() =~= Seq::<VisitEvent>::empty());
    lemma_run_push(v, Seq::empty(), e1);
    assert(Seq::<VisitEvent>::empty().push(e1) =~= a);
    assert(run_errors(v, Seq::<VisitEvent>::empty()) == Seq::<ErrorView>::empty());
    assert(Seq::<ErrorView>::empty() + v.reports(e1) =~= v.reports(e1));
    lemma_run_concat(v, a, mid);
    lemma_run_concat(v, a + mid, c);
    let w = run_state(v.step(e1), mid);
    lemma_run_push(w, Seq::empty(), e2);
    assert(Seq::<VisitEvent>::empty().push(e2) =~= c);
    assert(run_errors(w, Seq::<VisitEvent>::empty()) == Seq::<ErrorView>::empty());
    assert(Seq::<ErrorView>::empty() + w.reports(e2) =~= w.reports(e2));
    assert(run_errors(v, a + mid + c) =~= v.reports(e1) + run_errors(v.step(e1), mid) + w.reports(e2));
}

/// Runs a rule over one selection and, depth first, the selections nested
/// in it.
pub fn visit_selection<V: Visitor>(v: &mut V, ctx: &mut ValidatorContext, sel: &Selection)
    ensures
        *final(v) == run_state(*old(v), selection_events(*sel)),
        final(ctx).errs() == old(ctx).errs() + run_errors(*old(v), selection_events(*sel)),
    decreases sel, 0nat,
{
    let ghost v0 = *v;
    let ghost e0 = ctx.errs();
    match sel {
        Selection::Field(f) => {
            v.enter_field(ctx, f);
            let ghost v1 = *v;
            let ghost e1 = ctx.errs();
            let ghost mid = field_children_events(*f);
            match &f.item.selection_set {
                Some(ss) => {
                    proof {
                        assert(decreases_to!(*sel => *ss));
                    }
                    visit_selections(v, ctx, ss);
                },
                None => {
                    proof {
                        assert(e1 + Seq::<ErrorView>::empty() =~= e1);
                    }
                },
            }
            v.exit_field(ctx, f);
            proof {
                lemma_run_wrap(v0, VisitEvent::EnterField(*f), mid, VisitEvent::ExitField(*f));
                assert(ctx.errs() =~= e0 + run_errors(v0, selection_events(*sel)));
            }
        },
        Selection::FragmentSpread(sp) => {
            v.enter_fragment_spread(ctx, sp);
            v.exit_fragment_spread(ctx, sp);
            proof {
                let mid = Seq::<VisitEvent>::empty();
                lemma_run_wrap(v0, VisitEvent::EnterFragmentSpread(*sp), mid, VisitEvent::ExitFragmentSpread(*sp));
                assert(seq![VisitEvent::EnterFragmentSpread(*sp)] + mid + seq![VisitEvent::ExitFragmentSpread(*sp)]
                    =~= selection_events(*sel));
                assert(ctx.errs() =~= e0 + run_errors(v0, selection_events(*sel)));
            }
        },
        Selection::InlineFragment(inl) => {
            v.enter_inline_fragment(ctx, inl);
            proof {
                assert(decreases_to!(*sel => inl.item.selection_set));
            }
            visit_selections(v, ctx, &inl.item.selection_set);
            v.exit_inline_fragment(ctx, inl);
            proof {
                let mid = selections_events(inl.item.selection_set@, inl.item.selection_set@.len() as int);
                lemma_run_wrap(v0, VisitEvent::EnterInlineFragment(*inl), mid, VisitEvent::ExitInlineFragment(*inl));
                assert(ctx.errs() =~= e0 + run_errors(v0, selection_events(*sel)));
            }
        },
    }
}

/// Runs a rule over a selection set, one selection after the other.
#[verifier::loop_isolation(false)]
pub fn visit_selections<V: Visitor>(v: &mut V, ctx: &mut ValidatorContext, ss: &Vec<Selection>)
    ensures
        *final(v) == run_state(*old(v), selections_events(ss@, ss@.len() as int)),
        final(ctx).errs() == old(ctx).errs() + run_errors(*old(v), selections_events(ss@, ss@.len() as int)),
    decreases ss, 1nat,
{
    let ghost v0 = *v;
    let ghost e0 = ctx.errs();
    let mut i: usize = 0;
    proof {
        assert(e0 + Seq::<ErrorView>::empty() =~= e0);
    }
    while i < ss.len()
        invariant
            i <= ss@.len(),
            *v == run_state(v0, selections_events(ss@, i as int)),
            ctx.errs() == e0 + run_errors(v0, selections_events(ss@, i as int)),
        decreases ss@.len() - i,
    {
        let ghost before = selections_events(ss@, i as int);
        let ghost e1 = ctx.errs();
        proof {
            assert(decreases_to!(*ss => ss@[i as int]));
        }
        visit_selection(v, ctx, &ss[i]);
        proof {
            lemma_run_concat(v0, before, selection_events(ss@[i as int]));
            assert(selections_events(ss@, i + 1) == before + selection_events(ss@[i as int]));
            assert(ctx.errs() =~= e0 + run_errors(v0, selections_events(ss@, i + 1)));
        }
        i = i + 1;
    }
}

/// Runs a rule over one definition and its selections.
pub fn visit_definition<V: Visitor>(v: &mut V, ctx: &mut ValidatorContext, d: &Definition)
    ensures
        *final(v) == run_state(*old(v), definition_events(*d)),
        final(ctx).errs() == old(ctx).errs() + run_errors(*old(v), definition_events(*d)),
{
    let ghost v0 = *v;
    let ghost e0 = ctx.errs();
    match d {
        Definition::Operation(op) => {
            v.enter_operation_definition(ctx, op);
            visit_selections(v, ctx, &op.item.selection_set);
            v.exit_operation_definition(ctx, op);
            proof {
                let mid = selections_events(op.item.selection_set@, op.item.selection_set@.len() as int);
                lemma_run_wrap(v0, VisitEvent::EnterOperation(*op), mid, VisitEvent::ExitOperation(*op));
                assert(ctx.errs() =~= e0 + run_errors(v0, definition_events(*d)));
            }
        },
        Definition::Fragment(f) => {
            v.enter_fragment_definition(ctx, f);
            visit_selections(v, ctx, &f.item.selection_set);
            v.exit_fragment_definition(ctx, f);
            proof {
                let mid = selections_events(f.item.selection_set@, f.item.selection_set@.len() as int);
                lemma_run_wrap(v0, VisitEvent::EnterFragment(*f), mid, VisitEvent::ExitFragment(*f));
                assert(ctx.errs() =~= e0 + run_errors(v0, definition_events(*d)));
            }
        },
    }
}

/// Runs one rule over a document in a single depth-first walk, appending what
/// it reports to `ctx`.
pub fn visit_document<V: Visitor>(v: &mut V, ctx: &mut ValidatorContext, doc: &Document)
    ensures
        *final(v) == run_state(*old(v), document_events(doc@)),
        final(ctx).errs() == old(ctx).errs() + run_errors(*old(v), document_events(doc@)),
{
    let ghost v0 = *v;
    let ghost e0 = ctx.errs();
    v.enter_document(ctx, doc);
    let ghost v1 = *v;
    let ghost e1 = ctx.errs();
    let mut i: usize = 0;
    proof {
        assert(doc@.take(0).len() == 0);
        assert(e1 + Seq::<ErrorView>::empty() =~= e1);
    }
    while i < doc.len()
        invariant
            i <= doc.len(),
            *v == run_state(v1, definitions_events(doc@.take(i as int))),
            ctx.errs() == e1 + run_errors(v1, definitions_events(doc@.take(i as int))),
        decreases doc.len() - i,
    {
        let ghost before = definitions_events(doc@.take(i as int));
        proof {
            assert(doc@.take(i + 1).drop_last() =~= doc@.take(i as int));
            assert(doc@.take(i + 1).last() == doc@[i as int]);
        }
        visit_definition(v, ctx, &doc[i]);
        proof {
            lemma_run_concat(v1, before, definition_events(doc@[i as int]));
            assert(ctx.errs() =~= e1 + run_errors(v1, definitions_events(doc@.take(i + 1))));
        }
        i = i + 1;
    }
    v.exit_document(ctx, doc);
    proof {
        assert(doc@.take(doc.len() as int) =~= doc@);
        lemma_run_wrap(v0, VisitEvent::EnterDocument(doc@), definitions_events(doc@), VisitEvent::ExitDocument(doc@));
        assert(ctx.errs() =~= e0 + run_errors(v0, document_events(doc@)));
    }
}

} // verus!
