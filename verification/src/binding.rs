//! Binding of outbound chains: references are resolved while a pipeline is
//! built, and cycles, runaway nesting and unusable filters fail the build.

use vstd::prelude::*;

use crate::error::FilterError;
use crate::text::concat3;
use crate::text::concat4;
use crate::text::concat5;
use crate::text::join;
use crate::text::joined;
use crate::text::list_contains;
use crate::text::same_text;
use crate::text::texts;

verus! {

/// Bound on the nesting of outbound chains.
pub const MAX_OUTBOUND_CHAIN_DEPTH: usize = 10;

/// The named chains being resolved, innermost last.
pub struct ResolutionStack {
    active: Vec<String>,
}

impl View for ResolutionStack {
    type V = Seq<Seq<char>>;

    closed spec fn view(&self) -> Seq<Seq<char>> {
        texts(self.active@)
    }
}

/// Where a name first stands in a list.
pub open spec fn position(names: Seq<Seq<char>>, name: Seq<char>) -> int
    decreases names.len(),
{
    if names.len() == 0 {
        0
    } else if names[0] == name {
        0
    } else {
        1 + position(names.skip(1), name)
    }
}

/// The message for a reference that closes a cycle: the names from the first
/// occurrence on, and the name again.
pub open spec fn cycle_text(names: Seq<Seq<char>>, name: Seq<char>) -> Seq<char> {
    "chain reference cycle detected: "@ + joined(
        names.skip(position(names, name)).push(name),
        " -> "@,
    )
}

proof fn lemma_position(names: Seq<Seq<char>>, name: Seq<char>, i: int)
    requires
        0 <= i < names.len(),
        names[i] == name,
        forall|k: int| 0 <= k < i ==> names[k] != name,
    ensures
        position(names, name) == i,
    decreases i,
{
    if i > 0 {
        let rest = names.skip(1);
        assert(names[0] != name);
        assert forall|k: int| 0 <= k < i - 1 implies rest[k] != name by {
            assert(rest[k] == names[k + 1]);
        }
        lemma_position(rest, name, i - 1);
    }
}

impl ResolutionStack {
    /// A stack without names.
    pub fn new() -> (r: ResolutionStack)
        ensures
            r@ == Seq::<Seq<char>>::empty(),
    {
        let r = ResolutionStack { active: Vec::new() };
        proof {
            assert(r@ =~= Seq::empty());
        }
        r
    }

    /// Enters a chain, or reports the cycle that entering it would close.
    pub fn enter(&mut self, name: &str) -> (r: Result<(), FilterError>)
        ensures
            r is Err <==> old(self)@.contains(name@),
            r is Ok ==> final(self)@ == old(self)@.push(name@),
            r matches Err(e) ==> final(self)@ == old(self)@ && e@ == cycle_text(
                old(self)@,
                name@,
            ),
    {
        let mut i: usize = 0;
        while i < self.active.len()
            invariant
                *self == *old(self),
                i <= self.active@.len(),
                forall|k: int| 0 <= k < i ==> #[trigger] self@[k] != name@,
            decreases self.active@.len() - i,
        {
            if same_text(self.active[i].as_str(), name) {
                let mut path: Vec<String> = Vec::new();
                let mut j: usize = i;
                proof {
                    assert(texts(path@) =~= self@.subrange(i as int, i as int));
                }
                while j < self.active.len()
                    invariant
                        *self == *old(self),
                        i <= j <= self.active@.len(),
                        texts(path@) == self@.subrange(i as int, j as int),
                    decreases self.active@.len() - j,
                {
                    let ghost before = path@;
                    path.push(self.active[j].clone());
                    proof {
                        assert(texts(path@) =~= texts(before).push(self@[j as int]));
                        assert(self@.subrange(i as int, j + 1) =~= self@.subrange(
                            i as int,
                            j as int,
                        ).push(self@[j as int]));
                    }
                    j += 1;
                }
                let ghost before = path@;
                path.push(name.to_owned());
                proof {
                    assert(self@[i as int] == name@);
                    lemma_position(self@, name@, i as int);
                    assert(self@.subrange(i as int, self@.len() as int) =~= self@.skip(i as int));
                    assert(texts(path@) =~= self@.skip(i as int).push(name@));
                }
                let mut message = "chain reference cycle detected: ".to_owned();
                message.push_str(join(&path, " -> ").as_str());
                return Err(FilterError::new(message));
            }
            i += 1;
        }
        proof {
            assert(!self@.contains(name@));
        }
        self.active.push(name.to_owned());
        proof {
            assert(self@ =~= old(self)@.push(name@));
        }
        Ok(())
    }

    /// Leaves the innermost chain.
    pub fn leave(&mut self)
        requires
            old(self)@.len() > 0,
        ensures
            final(self)@ == old(self)@.drop_last(),
    {
        self.active.pop();
        proof {
            assert(self@ =~= old(self)@.drop_last());
        }
    }

    /// The number of chains being resolved.
    pub fn depth(&self) -> (r: usize)
        ensures
            r == self@.len(),
    {
        self.active.len()
    }
}

/// A reference to a chain.
pub enum ChainRef {
    /// By name.
    Named(String),
    /// With its filters in place.
    Inline,
}

/// What binding a chain needs to know and keeps count of.
pub struct ChainBindingContext {
    /// Names of the top-level chains.
    pub chains: Vec<String>,
    /// How many outbound bindings deep this one is.
    pub outbound_depth: usize,
    /// Branch definitions counted so far in the whole build.
    pub branch_budget: usize,
    /// Whether ordering mistakes are only warned of.
    pub skip_pipeline_validation: bool,
}

/// What the configuration rules say of a chain's entries, each in words where
/// it objects. `branches` is the new count of branch definitions.
pub struct EntryVerdicts {
    /// On the number of filters.
    pub cardinality: Result<(), String>,
    /// On conditions.
    pub conditions: Result<(), String>,
    /// On clusters defined in place.
    pub inline_clusters: Result<(), String>,
    /// On branches.
    pub branches: Result<usize, String>,
}

/// What a bound pipeline holds that an outbound chain cannot.
pub struct BoundFacts {
    /// Filters below the HTTP layer.
    pub non_http_filters: Vec<String>,
    /// Filters that end a request themselves, at any depth.
    pub terminal_filters: Vec<String>,
    /// Mistakes in the order of the filters.
    pub ordering_errors: Vec<String>,
}

/// How a chain is called in messages.
pub open spec fn label_of(name: Option<Seq<char>>) -> Seq<char> {
    match name {
        Some(n) => n,
        None => "<inline>"@,
    }
}

/// The message for an outbound chain nested too deep.
pub open spec fn depth_text() -> Seq<char> {
    "outbound chain nesting depth exceeds maximum (10)"@
}

/// The name that a reference goes by, if it has one.
pub open spec fn ref_name(chain_ref: ChainRef) -> Option<Seq<char>> {
    match chain_ref {
        ChainRef::Named(name) => Some(name@),
        ChainRef::Inline => None,
    }
}

/// The names being resolved once a chain is entered. An inline chain has no name
/// to enter.
pub open spec fn entered(stack: Seq<Seq<char>>, name: Option<Seq<char>>) -> Seq<Seq<char>> {
    match name {
        Some(n) => stack.push(n),
        None => stack,
    }
}

/// The names being resolved once a chain is left.
pub open spec fn left(stack: Seq<Seq<char>>, name: Option<Seq<char>>) -> Seq<Seq<char>> {
    match name {
        Some(_) => stack.drop_last(),
        None => stack,
    }
}

/// Why a reference is not resolved, if it is not.
pub open spec fn resolve_error(
    ctx: ChainBindingContext,
    stack: Seq<Seq<char>>,
    chain_ref: ChainRef,
) -> Option<Seq<char>> {
    if ctx.outbound_depth >= MAX_OUTBOUND_CHAIN_DEPTH {
        Some(depth_text())
    } else {
        match chain_ref {
            ChainRef::Named(name) => if !texts(ctx.chains@).contains(name@) {
                Some("outbound chain references unknown chain '"@ + name@ + "'"@)
            } else if stack.contains(name@) {
                Some(cycle_text(stack, name@))
            } else {
                None
            },
            ChainRef::Inline => None,
        }
    }
}

/// The first objection of the configuration rules, if there is one.
pub open spec fn entries_error(v: EntryVerdicts) -> Option<Seq<char>> {
    match v.cardinality {
        Err(m) => Some(m@),
        Ok(()) => match v.conditions {
            Err(m) => Some(m@),
            Ok(()) => match v.inline_clusters {
                Err(m) => Some(m@),
                Ok(()) => match v.branches {
                    Err(m) => Some(m@),
                    Ok(_) => None,
                },
            },
        },
    }
}

/// The message for an outbound chain with filters below the HTTP layer.
pub open spec fn non_http_text(name: Option<Seq<char>>, filters: Seq<Seq<char>>) -> Seq<char> {
    "outbound chain '"@ + label_of(name) + "' contains TCP-level filter(s) ["@ + joined(
        filters,
        ", "@,
    ) + "] that an HTTP filtered sub-request cannot run"@
}

/// The message for an outbound chain with filters that end requests themselves.
pub open spec fn terminal_text(name: Option<Seq<char>>, filters: Seq<Seq<char>>) -> Seq<char> {
    "outbound chain '"@ + label_of(name) + "' contains terminal filter(s) ["@ + joined(
        filters,
        ", "@,
    )
        + "] that an HTTP filtered sub-request cannot run (it forwards to a resolved upstream and cannot surface a terminal response)"@
}

/// Why a bound pipeline is refused, if it is.
pub open spec fn pipeline_error(
    name: Option<Seq<char>>,
    facts: BoundFacts,
    skip_pipeline_validation: bool,
) -> Option<Seq<char>> {
    if facts.non_http_filters@.len() > 0 {
        Some(non_http_text(name, texts(facts.non_http_filters@)))
    } else if facts.terminal_filters@.len() > 0 {
        Some(terminal_text(name, texts(facts.terminal_filters@)))
    } else if !skip_pipeline_validation && facts.ordering_errors@.len() > 0 {
        Some(
            "outbound chain '"@ + label_of(name) + "' failed pipeline validation: "@ + joined(
                texts(facts.ordering_errors@),
                "; "@,
            ),
        )
    } else {
        None
    }
}

fn label(name: &Option<String>) -> (r: String)
    ensures
        r@ == label_of(crate::headers::opt_text(*name)),
{
    match name {
        Some(n) => n.clone(),
        None => "<inline>".to_owned(),
    }
}

impl ChainBindingContext {
    /// Resolves a reference: its name, where it has one, is entered on the
    /// stack. What is entered here is left in `finish_binding`.
    pub fn bind_chain(&self, stack: &mut ResolutionStack, chain_ref: &ChainRef) -> (r: Result<
        Option<String>,
        FilterError,
    >)
        ensures
            match resolve_error(*self, old(stack)@, *chain_ref) {
                Some(m) => r is Err && r->Err_0@ == m && final(stack)@ == old(stack)@,
                None => {
                    &&& r is Ok
                    &&& crate::headers::opt_text(r->Ok_0) == ref_name(*chain_ref)
                    &&& final(stack)@ == entered(old(stack)@, ref_name(*chain_ref))
                },
            },
    {
        if self.outbound_depth >= MAX_OUTBOUND_CHAIN_DEPTH {
            return Err(
                FilterError::from_text("outbound chain nesting depth exceeds maximum (10)"),
            );
        }
        match chain_ref {
            ChainRef::Named(name) => {
                if !list_contains(&self.chains, name.as_str()) {
                    return Err(
                        FilterError::new(
                            concat3(
                                "outbound chain references unknown chain '",
                                name.as_str(),
                                "'",
                            ),
                        ),
                    );
                }
                match stack.enter(name.as_str()) {
                    Ok(()) => Ok(Some(name.clone())),
                    Err(e) => Err(e),
                }
            },
            ChainRef::Inline => Ok(None),
        }
    }

    /// The count of branch definitions that a chain's own are added to. A named
    /// chain was counted with the whole configuration, so it is held against
    /// none.
    pub fn branch_baseline(&self, name: &Option<String>) -> (r: usize)
        ensures
            r == if *name is None {
                self.branch_budget
            } else {
                0
            },
    {
        match name {
            Some(_) => 0,
            None => self.branch_budget,
        }
    }

    /// Applies the configuration rules to a chain's entries. Only an inline
    /// chain adds to the count of branch definitions.
    pub fn validate_bound_entries(&mut self, name: &Option<String>, verdicts: EntryVerdicts) -> (r:
        Result<(), FilterError>)
        ensures
            match entries_error(verdicts) {
                Some(m) => r is Err && r->Err_0@ == m && *final(self) == *old(self),
                None => r is Ok && *final(self) == (ChainBindingContext {
                    branch_budget: if *name is None {
                        verdicts.branches->Ok_0
                    } else {
                        old(self).branch_budget
                    },
                    ..*old(self)
                }),
            },
    {
        match verdicts.cardinality {
            Err(m) => {
                return Err(FilterError::new(m));
            },
            Ok(()) => {},
        }
        match verdicts.conditions {
            Err(m) => {
                return Err(FilterError::new(m));
            },
            Ok(()) => {},
        }
        match verdicts.inline_clusters {
            Err(m) => {
                return Err(FilterError::new(m));
            },
            Ok(()) => {},
        }
        match verdicts.branches {
            Err(m) => Err(FilterError::new(m)),
            Ok(total) => {
                if name.is_none() {
                    self.branch_budget = total;
                }
                Ok(())
            },
        }
    }

    /// Refuses a pipeline with a filter below the HTTP layer.
    pub fn reject_non_http_filters(name: &Option<String>, facts: &BoundFacts) -> (r: Result<
        (),
        FilterError,
    >)
        ensures
            r is Err <==> facts.non_http_filters@.len() > 0,
            r matches Err(e) ==> e@ == non_http_text(
                crate::headers::opt_text(*name),
                texts(facts.non_http_filters@),
            ),
    {
        if facts.non_http_filters.len() > 0 {
            return Err(
                FilterError::new(
                    concat5(
                        "outbound chain '",
                        label(name).as_str(),
                        "' contains TCP-level filter(s) [",
                        join(&facts.non_http_filters, ", ").as_str(),
                        "] that an HTTP filtered sub-request cannot run",
                    ),
                ),
            );
        }
        Ok(())
    }

    /// Refuses a pipeline with a filter that ends requests itself.
    pub fn reject_terminal_filters(name: &Option<String>, facts: &BoundFacts) -> (r: Result<
        (),
        FilterError,
    >)
        ensures
            r is Err <==> facts.terminal_filters@.len() > 0,
            r matches Err(e) ==> e@ == terminal_text(
                crate::headers::opt_text(*name),
                texts(facts.terminal_filters@),
            ),
    {
        if facts.terminal_filters.len() > 0 {
            return Err(
                FilterError::new(
                    concat5(
                        "outbound chain '",
                        label(name).as_str(),
                        "' contains terminal filter(s) [",
                        join(&facts.terminal_filters, ", ").as_str(),
                        "] that an HTTP filtered sub-request cannot run (it forwards to a resolved upstream and cannot surface a terminal response)",
                    ),
                ),
            );
        }
        Ok(())
    }

    /// Holds a bound pipeline to the rules of outbound chains.
    pub fn enforce_bound_pipeline(&self, name: &Option<String>, facts: &BoundFacts) -> (r: Result<
        (),
        FilterError,
    >)
        ensures
            match pipeline_error(
                crate::headers::opt_text(*name),
                *facts,
                self.skip_pipeline_validation,
            ) {
                Some(m) => r is Err && r->Err_0@ == m,
                None => r is Ok,
            },
    {
        match ChainBindingContext::reject_non_http_filters(name, facts) {
            Err(e) => {
                return Err(e);
            },
            Ok(()) => {},
        }
        match ChainBindingContext::reject_terminal_filters(name, facts) {
            Err(e) => {
                return Err(e);
            },
            Ok(()) => {},
        }
        if !self.skip_pipeline_validation && facts.ordering_errors.len() > 0 {
            return Err(
                FilterError::new(
                    concat4(
                        "outbound chain '",
                        label(name).as_str(),
                        "' failed pipeline validation: ",
                        join(&facts.ordering_errors, "; ").as_str(),
                    ),
                ),
            );
        }
        Ok(())
    }

    /// Ends a binding whose pipeline was built, or failed to build: the name
    /// that was entered is left either way.
    pub fn finish_binding(
        &self,
        stack: &mut ResolutionStack,
        name: &Option<String>,
        built: Result<BoundFacts, FilterError>,
    ) -> (r: Result<(), FilterError>)
        requires
            *name is Some ==> old(stack)@.len() > 0,
        ensures
            final(stack)@ == left(old(stack)@, crate::headers::opt_text(*name)),
            match built {
                Err(e) => r is Err && r->Err_0@ == e@,
                Ok(facts) => match pipeline_error(
                    crate::headers::opt_text(*name),
                    facts,
                    self.skip_pipeline_validation,
                ) {
                    Some(m) => r is Err && r->Err_0@ == m,
                    None => r is Ok,
                },
            },
    {
        if name.is_some() {
            stack.leave();
        }
        match built {
            Err(e) => Err(e),
            Ok(facts) => self.enforce_bound_pipeline(name, &facts),
        }
    }

    /// The context in which the filters of a bound chain bind chains of their
    /// own: one level deeper.
    pub fn nested(self) -> (r: ChainBindingContext)
        requires
            self.outbound_depth < MAX_OUTBOUND_CHAIN_DEPTH,
        ensures
            r == (ChainBindingContext {
                outbound_depth: (self.outbound_depth + 1) as usize,
                ..self
            }),
    {
        ChainBindingContext {
            chains: self.chains,
            outbound_depth: self.outbound_depth + 1,
            branch_budget: self.branch_budget,
            skip_pipeline_validation: self.skip_pipeline_validation,
        }
    }
}

/// No chain is resolved inside itself: entering keeps the names on the stack
/// pairwise different.
pub proof fn law_no_chain_inside_itself(
    ctx: ChainBindingContext,
    stack: Seq<Seq<char>>,
    name: String,
)
    requires
        stack.no_duplicates(),
        resolve_error(ctx, stack, ChainRef::Named(name)) is None,
    ensures
        entered(stack, Some(name@)).no_duplicates(),
{
    let after = entered(stack, Some(name@));
    assert forall|i: int, j: int|
        0 <= i < after.len() && 0 <= j < after.len() && i != j implies after[i] != after[j] by {
        if i == stack.len() {
            assert(stack.contains(stack[j]));
        } else if j == stack.len() {
            assert(stack.contains(stack[i]));
        }
    }
}

/// A binding leaves the stack as it found it, whether its pipeline was accepted,
/// refused or not built at all.
pub proof fn law_stack_balanced(stack: Seq<Seq<char>>, chain_ref: ChainRef)
    ensures
        left(entered(stack, ref_name(chain_ref)), ref_name(chain_ref)) == stack,
{
    assert(left(entered(stack, ref_name(chain_ref)), ref_name(chain_ref)) =~= stack);
}

/// Nesting is bounded: below the deepest level no reference is resolved.
pub proof fn law_nesting_bounded(
    ctx: ChainBindingContext,
    stack: Seq<Seq<char>>,
    chain_ref: ChainRef,
)
    requires
        ctx.outbound_depth >= MAX_OUTBOUND_CHAIN_DEPTH,
    ensures
        resolve_error(ctx, stack, chain_ref) == Some(depth_text()),
{
}

/// A reference is resolved exactly where it is nested less than ten deep and is
/// inline, or names a top-level chain that is not being resolved already.
pub proof fn law_resolved_exactly(
    ctx: ChainBindingContext,
    stack: Seq<Seq<char>>,
    chain_ref: ChainRef,
)
    ensures
        resolve_error(ctx, stack, chain_ref) is None <==> ctx.outbound_depth < 10 && (chain_ref
            matches ChainRef::Named(name) ==> (exists|i: int|
            0 <= i < ctx.chains@.len() && (#[trigger] ctx.chains@[i])@ == name@) && (forall|i: int|
            0 <= i < stack.len() ==> #[trigger] stack[i] != name@)),
        chain_ref is Inline ==> ref_name(chain_ref) is None && entered(
            stack,
            ref_name(chain_ref),
        ) == stack,
        chain_ref matches ChainRef::Named(name) ==> ref_name(chain_ref) == Some(name@) && entered(
            stack,
            ref_name(chain_ref),
        ) == stack.push(name@),
{
    if let ChainRef::Named(name) = chain_ref {
        let known = texts(ctx.chains@);
        if known.contains(name@) {
            let i = choose|i: int| 0 <= i < known.len() && known[i] == name@;
            assert(ctx.chains@[i]@ == name@);
        }
        if exists|i: int| 0 <= i < ctx.chains@.len() && (#[trigger] ctx.chains@[i])@ == name@ {
            let i = choose|i: int|
                0 <= i < ctx.chains@.len() && (#[trigger] ctx.chains@[i])@ == name@;
            assert(known[i] == name@);
        }
        if stack.contains(name@) {
            let i = choose|i: int| 0 <= i < stack.len() && stack[i] == name@;
            assert(stack[i] == name@);
        }
    }
}

/// Of a reference that is refused the depth is named first, an unknown name
/// before a cycle, and a cycle by all names from the first occurrence on.
pub proof fn law_refused_references(
    ctx: ChainBindingContext,
    stack: Seq<Seq<char>>,
    name: String,
    i: int,
)
    requires
        ctx.outbound_depth < 10,
    ensures
        !texts(ctx.chains@).contains(name@) ==> resolve_error(ctx, stack, ChainRef::Named(name))
            == Some("outbound chain references unknown chain '"@ + name@ + "'"@),
        texts(ctx.chains@).contains(name@) && 0 <= i < stack.len() && stack[i] == name@ && (forall|
            k: int,
        |
            0 <= k < i ==> #[trigger] stack[k] != name@) ==> resolve_error(
            ctx,
            stack,
            ChainRef::Named(name),
        ) == Some(
            "chain reference cycle detected: "@ + joined(
                stack.subrange(i, stack.len() as int).push(name@),
                " -> "@,
            ),
        ),
{
    if 0 <= i < stack.len() && stack[i] == name@ && (forall|k: int|
        0 <= k < i ==> #[trigger] stack[k] != name@) {
        lemma_position(stack, name@, i);
        assert(stack.subrange(i, stack.len() as int) =~= stack.skip(i));
    }
}

/// A bound pipeline is accepted exactly where it has no filter below the HTTP
/// layer, none that ends requests, and no ordering mistake that counts; the three
/// are named in this order, with all offenders.
pub proof fn law_pipelines_accepted(name: Option<Seq<char>>, facts: BoundFacts, skip: bool)
    ensures
        pipeline_error(name, facts, skip) is None <==> facts.non_http_filters@.len() == 0
            && facts.terminal_filters@.len() == 0 && (skip || facts.ordering_errors@.len() == 0),
        facts.non_http_filters@.len() > 0 ==> pipeline_error(name, facts, skip) == Some(
            non_http_text(name, texts(facts.non_http_filters@)),
        ),
        facts.non_http_filters@.len() == 0 && facts.terminal_filters@.len() > 0 ==> pipeline_error(
            name,
            facts,
            skip,
        ) == Some(terminal_text(name, texts(facts.terminal_filters@))),
{
}

/// A chain's entries are accepted exactly where every rule accepts them; else the
/// first objection stands, in the order of the rules.
pub proof fn law_entries_accepted(v: EntryVerdicts)
    ensures
        entries_error(v) is None <==> v.cardinality is Ok && v.conditions is Ok
            && v.inline_clusters is Ok && v.branches is Ok,
        v.cardinality matches Err(m) ==> entries_error(v) == Some(m@),
        v.cardinality is Ok ==> (v.conditions matches Err(m) ==> entries_error(v) == Some(m@)),
        v.cardinality is Ok && v.conditions is Ok ==> (v.inline_clusters matches Err(m)
            ==> entries_error(v) == Some(m@)),
        v.cardinality is Ok && v.conditions is Ok && v.inline_clusters is Ok ==> (v.branches
            matches Err(m) ==> entries_error(v) == Some(m@)),
{
}

/// A binding that was begun and finished leaves the stack as it found it, however
/// its pipeline fared; one that was refused never touched it.
pub proof fn law_binding_leaves_no_trace(
    ctx: ChainBindingContext,
    stack: &mut ResolutionStack,
    chain_ref: ChainRef,
    begun: Result<Option<String>, FilterError>,
    later_stack: &mut ResolutionStack,
    name: Option<String>,
    built: Result<BoundFacts, FilterError>,
    finished: Result<(), FilterError>,
)
    requires
        call_ensures(ChainBindingContext::bind_chain, (&ctx, stack, &chain_ref), begun),
        begun is Ok ==> {
            &&& *old(later_stack) == *final(stack)
            &&& name == begun->Ok_0
            &&& call_ensures(
                ChainBindingContext::finish_binding,
                (&ctx, later_stack, &name, built),
                finished,
            )
        },
    ensures
        begun is Err ==> final(stack)@ == old(stack)@,
        begun is Ok ==> final(later_stack)@ == old(stack)@,
        begun is Ok && built is Err ==> finished is Err && finished->Err_0@ == built->Err_0@,
        begun is Ok && finished is Ok ==> built is Ok && built->Ok_0.non_http_filters@.len() == 0
            && built->Ok_0.terminal_filters@.len() == 0,
{
    law_resolved_exactly(ctx, old(stack)@, chain_ref);
    if begun is Ok {
        assert(left(entered(old(stack)@, ref_name(chain_ref)), ref_name(chain_ref)) =~= old(
            stack,
        )@);
    }
}

/// A chain that is being resolved cannot be entered again; left, it can.
pub proof fn law_enter_and_leave(
    stack: &mut ResolutionStack,
    name: &str,
    first: Result<(), FilterError>,
    again: &mut ResolutionStack,
    second: Result<(), FilterError>,
    leaving: &mut ResolutionStack,
)
    requires
        call_ensures(ResolutionStack::enter, (stack, name), first),
        first is Ok,
        *old(again) == *final(stack),
        call_ensures(ResolutionStack::enter, (again, name), second),
        *old(leaving) == *final(again),
        call_ensures(ResolutionStack::leave, (leaving,), ()),
    ensures
        second is Err,
        final(again)@ == old(again)@,
        final(leaving)@ == old(stack)@,
        final(stack)@.len() == old(stack)@.len() + 1,
{
    assert(final(stack)@.last() == name@);
    assert(final(stack)@.contains(name@));
    assert(final(leaving)@ =~= old(stack)@);
}

/// Only an inline chain counts against the budget of branch definitions: it is
/// held against what was counted so far and leaves the new count; a named chain is
/// held against nothing and leaves the count alone.
pub proof fn law_branches_counted_once(
    ctx: &mut ChainBindingContext,
    name: Option<String>,
    baseline: usize,
    verdicts: EntryVerdicts,
    r: Result<(), FilterError>,
)
    requires
        call_ensures(ChainBindingContext::branch_baseline, (&*old(ctx), &name), baseline),
        call_ensures(ChainBindingContext::validate_bound_entries, (ctx, &name, verdicts), r),
    ensures
        name is None ==> baseline == old(ctx).branch_budget,
        name is Some ==> baseline == 0,
        r is Err ==> *final(ctx) == *old(ctx),
        r is Ok && name is Some ==> *final(ctx) == *old(ctx),
        r is Ok && name is None ==> verdicts.branches == Ok::<usize, String>(
            final(ctx).branch_budget,
        ),
        r is Ok ==> verdicts.cardinality is Ok && verdicts.conditions is Ok
            && verdicts.inline_clusters is Ok && verdicts.branches is Ok,
        final(ctx).chains == old(ctx).chains,
        final(ctx).outbound_depth == old(ctx).outbound_depth,
        final(ctx).skip_pipeline_validation == old(ctx).skip_pipeline_validation,
{
}

/// Binding from inside a bound chain is one level deeper and the same otherwise.
pub proof fn law_nested_deeper(ctx: ChainBindingContext, r: ChainBindingContext)
    requires
        ctx.outbound_depth < 10,
        call_ensures(ChainBindingContext::nested, (ctx,), r),
    ensures
        r.outbound_depth == ctx.outbound_depth + 1,
        r.chains == ctx.chains,
        r.branch_budget == ctx.branch_budget,
        r.skip_pipeline_validation == ctx.skip_pipeline_validation,
{
}

/// What the refusals of a pipeline say: the chain by its name or as inline, and
/// every offending filter.
pub proof fn law_refusals_name_filters(name: Option<Seq<char>>, filters: Seq<Seq<char>>)
    ensures
        ({
            let called = if name is Some {
                name->0
            } else {
                "<inline>"@
            };
            &&& non_http_text(name, filters) == "outbound chain '"@ + called
                + "' contains TCP-level filter(s) ["@ + joined(filters, ", "@)
                + "] that an HTTP filtered sub-request cannot run"@
            &&& terminal_text(name, filters) == "outbound chain '"@ + called
                + "' contains terminal filter(s) ["@ + joined(filters, ", "@)
                + "] that an HTTP filtered sub-request cannot run (it forwards to a resolved upstream and cannot surface a terminal response)"@
        }),
{
}

/// The words for a chain nested too deep, and for a pipeline whose filters are out
/// of order: every mistake is named.
pub proof fn law_refused_nesting(
    ctx: ChainBindingContext,
    stack: Seq<Seq<char>>,
    chain_ref: ChainRef,
    name: Option<Seq<char>>,
    facts: BoundFacts,
)
    requires
        facts.non_http_filters@.len() == 0,
        facts.terminal_filters@.len() == 0,
    ensures
        ctx.outbound_depth >= 10 ==> resolve_error(ctx, stack, chain_ref) == Some(
            "outbound chain nesting depth exceeds maximum (10)"@,
        ),
        pipeline_error(name, facts, true) is None,
        facts.ordering_errors@.len() > 0 ==> pipeline_error(name, facts, false) == Some(
            "outbound chain '"@ + (if name is Some {
                name->0
            } else {
                "<inline>"@
            }) + "' failed pipeline validation: "@ + joined(texts(facts.ordering_errors@), "; "@),
        ),
{
}

} // verus!
