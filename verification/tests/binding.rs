//! Binding of outbound chains.

use praxis_filter::binding::{
    BoundFacts, ChainBindingContext, ChainRef, EntryVerdicts, ResolutionStack, MAX_OUTBOUND_CHAIN_DEPTH,
};
use praxis_filter::error::FilterError;

fn context(chains: &[&str]) -> ChainBindingContext {
    ChainBindingContext {
        chains: chains.iter().map(|c| (*c).to_owned()).collect(),
        outbound_depth: 0,
        branch_budget: 0,
        skip_pipeline_validation: false,
    }
}

fn named(name: &str) -> ChainRef {
    ChainRef::Named(name.to_owned())
}

fn clean() -> BoundFacts {
    BoundFacts {
        non_http_filters: Vec::new(),
        terminal_filters: Vec::new(),
        ordering_errors: Vec::new(),
    }
}

fn accepted(branches: usize) -> EntryVerdicts {
    EntryVerdicts {
        cardinality: Ok(()),
        conditions: Ok(()),
        inline_clusters: Ok(()),
        branches: Ok(branches),
    }
}

/// A configuration in which each chain binds the next one named.
fn build(ctx: ChainBindingContext, stack: &mut ResolutionStack, links: &[(&str, &str)], start: &str) -> Result<(), String> {
    let name = ctx.bind_chain(stack, &named(start)).map_err(|e| e.text())?;
    let inner = match links.iter().find(|(from, _)| *from == start) {
        Some((_, to)) => {
            let inner = ChainBindingContext {
                chains: ctx.chains.clone(),
                outbound_depth: ctx.outbound_depth,
                ..context(&[])
            };
            build(inner.nested(), stack, links, to)
        },
        None => Ok(()),
    };
    let built = inner.map(|()| clean()).map_err(FilterError::new);
    ctx.finish_binding(stack, &name, built).map_err(|e| e.text())
}

#[test]
fn binds_inline_outbound_chain() {
    let ctx = context(&[]);
    let mut stack = ResolutionStack::new();
    let name = ctx.bind_chain(&mut stack, &ChainRef::Inline).unwrap_or_else(|e| panic!("{e:?}"));
    assert!(name.is_none());
    assert_eq!(stack.depth(), 0, "an inline chain has no name to enter");
    assert!(ctx.finish_binding(&mut stack, &name, Ok(clean())).is_ok());
}

#[test]
fn binds_named_outbound_chain() {
    let ctx = context(&["shared"]);
    let mut stack = ResolutionStack::new();
    let name = ctx.bind_chain(&mut stack, &named("shared")).unwrap_or_else(|e| panic!("{e:?}"));
    assert_eq!(name.as_deref(), Some("shared"));
    assert_eq!(stack.depth(), 1);
    assert!(ctx.finish_binding(&mut stack, &name, Ok(clean())).is_ok());
    assert_eq!(stack.depth(), 0, "the name is left again");
}

#[test]
fn unknown_named_outbound_chain_errors() {
    let err = build(context(&[]), &mut ResolutionStack::new(), &[], "missing").unwrap_err();
    assert!(
        err.contains("unknown chain") && err.contains("missing"),
        "an outbound reference to an undefined chain must fail the build: {err}"
    );
}

#[test]
fn direct_cycle_rejected() {
    let mut stack = ResolutionStack::new();
    let err = build(context(&["a"]), &mut stack, &[("a", "a")], "a").unwrap_err();
    assert!(
        err.contains("cycle") && err.contains("a -> a"),
        "a chain that binds itself must be rejected as a cycle, not a depth error: {err}"
    );
    assert_eq!(stack.depth(), 0);
}

#[test]
fn indirect_cycle_rejected() {
    let mut stack = ResolutionStack::new();
    let err = build(context(&["a", "b"]), &mut stack, &[("a", "b"), ("b", "a")], "a").unwrap_err();
    assert!(
        err.contains("cycle") && err.contains("a -> b -> a"),
        "an a -> b -> a cycle across outbound chains must be reported as a cycle: {err}"
    );
    assert_eq!(err, "chain reference cycle detected: a -> b -> a");
    assert_eq!(stack.depth(), 0);
}

#[test]
fn cycles_start_where_the_name_was_entered() {
    let mut stack = ResolutionStack::new();
    for name in ["x", "a", "b"] {
        assert!(stack.enter(name).is_ok());
    }
    assert_eq!(
        stack.enter("a").err().unwrap().text(),
        "chain reference cycle detected: a -> b -> a"
    );
    assert_eq!(stack.depth(), 3);
    stack.leave();
    assert!(stack.enter("b").is_ok());
}

#[test]
fn excessive_nesting_rejected() {
    let names: Vec<String> = (0..=MAX_OUTBOUND_CHAIN_DEPTH).map(|i| format!("c{i}")).collect();
    let known: Vec<&str> = names.iter().map(String::as_str).collect();
    let links: Vec<(&str, &str)> = known.windows(2).map(|w| (w[0], w[1])).collect();
    let err = build(context(&known), &mut ResolutionStack::new(), &links, "c0").unwrap_err();
    assert!(
        err.contains("nesting depth"),
        "an outbound chain nested past the maximum depth must be rejected: {err}"
    );
    assert!(build(context(&known), &mut ResolutionStack::new(), &links[..9], "c0").is_ok());
}

#[test]
fn outbound_chain_ordering_violation_rejected() {
    let ctx = context(&[]);
    let facts = BoundFacts {
        ordering_errors: vec!["load_balancer without a preceding router".to_owned(), "late".to_owned()],
        ..clean()
    };
    let err = ctx.enforce_bound_pipeline(&None, &facts).err().expect("build should fail").text();
    assert!(
        err.contains("without a preceding router"),
        "an outbound chain whose load_balancer has no cluster selector must fail ordering \
         validation, not bind silently: {err}"
    );
    assert_eq!(
        err,
        "outbound chain '<inline>' failed pipeline validation: load_balancer without a preceding router; late"
    );
    let lenient = ChainBindingContext {
        skip_pipeline_validation: true,
        ..context(&[])
    };
    assert!(lenient.enforce_bound_pipeline(&None, &facts).is_ok());
}

#[test]
fn outbound_chain_with_tcp_filter_rejected() {
    let facts = BoundFacts {
        non_http_filters: vec!["tcp_access_log".to_owned()],
        terminal_filters: vec!["iterative_request_router".to_owned()],
        ..clean()
    };
    let err = context(&[])
        .enforce_bound_pipeline(&Some("outbound".to_owned()), &facts)
        .err()
        .expect("build should fail")
        .text();
    assert!(
        err.contains("tcp_access_log") && (err.contains("TCP") || err.contains("HTTP")),
        "a TCP-level filter in an HTTP outbound chain must be rejected at build time, not \
         silently skipped at runtime: {err}"
    );
    assert_eq!(
        err,
        "outbound chain 'outbound' contains TCP-level filter(s) [tcp_access_log] that an HTTP filtered sub-request cannot run"
    );
}

#[test]
fn outbound_chain_with_terminal_filter_rejected() {
    let facts = BoundFacts {
        terminal_filters: vec!["iterative_request_router".to_owned(), "static_response".to_owned()],
        ..clean()
    };
    let err = context(&[])
        .enforce_bound_pipeline(&None, &facts)
        .err()
        .expect("build should fail")
        .text();
    assert!(
        err.contains("terminal") && err.contains("iterative_request_router"),
        "a terminal filter in an outbound chain must be rejected at build time, not activate \
         and drop its terminal response at runtime: {err}"
    );
    assert!(err.contains("[iterative_request_router, static_response]"));
}

#[test]
fn outbound_bindings_share_total_branch_budget() {
    let ceiling = 256;
    let mut ctx = context(&[]);
    let verdict = |baseline: usize| EntryVerdicts {
        branches: if baseline + 144 > ceiling {
            Err(format!("total branch count {} exceeds maximum ({ceiling})", baseline + 144))
        } else {
            Ok(baseline + 144)
        },
        ..accepted(0)
    };
    let first = verdict(ctx.branch_baseline(&None));
    assert!(ctx.validate_bound_entries(&None, first).is_ok());
    let second = verdict(ctx.branch_baseline(&None));
    let err = ctx
        .validate_bound_entries(&None, second)
        .err()
        .expect("two 144-branch outbound bindings must exceed the shared 256-branch ceiling")
        .text();
    assert!(
        err.contains("total branch count") && err.contains("256"),
        "binding an outbound chain must not reset the total-branch budget: {err}"
    );
    assert_eq!(ctx.branch_budget, 144);
}

#[test]
fn skipped_validation_tolerates_ordering_errors() {
    let facts = BoundFacts {
        ordering_errors: vec!["load_balancer without a cluster selector".to_owned()],
        ..clean()
    };
    let mut ctx = context(&[]);
    assert!(ctx.enforce_bound_pipeline(&None, &facts).is_err());
    ctx.skip_pipeline_validation = true;
    assert!(ctx.enforce_bound_pipeline(&None, &facts).is_ok());
    let mut stack = ResolutionStack::new();
    assert!(ctx.finish_binding(&mut stack, &None, Ok(facts)).is_ok());
}

#[test]
fn reused_named_outbound_chain_counts_branches_once() {
    let mut ctx = context(&["shared"]);
    ctx.branch_budget = 3;
    let name = Some("shared".to_owned());
    assert_eq!(ctx.branch_baseline(&name), 0);
    for _ in 0..3 {
        assert!(ctx.validate_bound_entries(&name, accepted(90)).is_ok());
    }
    assert_eq!(ctx.branch_budget, 3);
}

#[test]
fn entry_rules_object_in_order() {
    let object = |m: &str| Err(m.to_owned());
    let mut ctx = context(&[]);
    let mut all = EntryVerdicts {
        cardinality: object("too many"),
        conditions: object("empty condition"),
        inline_clusters: object("endpoint"),
        branches: Err("branches".to_owned()),
    };
    assert_eq!(ctx.validate_bound_entries(&None, all).err().unwrap().text(), "too many");
    all = EntryVerdicts {
        conditions: object("empty condition"),
        inline_clusters: object("endpoint"),
        ..accepted(1)
    };
    assert_eq!(ctx.validate_bound_entries(&None, all).err().unwrap().text(), "empty condition");
    all = EntryVerdicts {
        inline_clusters: object("endpoint"),
        ..accepted(1)
    };
    assert_eq!(ctx.validate_bound_entries(&None, all).err().unwrap().text(), "endpoint");
    all = EntryVerdicts {
        branches: Err("branches".to_owned()),
        ..accepted(1)
    };
    assert_eq!(ctx.validate_bound_entries(&None, all).err().unwrap().text(), "branches");
    assert_eq!(ctx.branch_budget, 0);
}

#[test]
fn failed_builds_leave_the_stack_balanced() {
    let ctx = context(&["a"]);
    let mut stack = ResolutionStack::new();
    let name = ctx.bind_chain(&mut stack, &named("a")).unwrap_or_else(|e| panic!("{e:?}"));
    let err = ctx
        .finish_binding(&mut stack, &name, Err(FilterError::from_text("no such filter")))
        .err()
        .unwrap();
    assert_eq!(err.text(), "no such filter");
    assert_eq!(stack.depth(), 0);
}
