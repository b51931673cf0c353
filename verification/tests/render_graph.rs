use std::sync::atomic::{AtomicU32, Ordering};
use std::sync::{Arc, Mutex};

use chemengine::render::graph::{GraphError, PassContext, PassId, RenderGraph};

type Callback = Box<dyn FnMut(&PassContext) + Send>;
type Graph = RenderGraph<Callback>;

#[test]
fn empty_graph_compiles() {
    let mut g: Graph = RenderGraph::new();
    assert!(g.compile().is_ok());
    assert_eq!(g.execution_order(), Some(&[][..]));
}

#[test]
fn single_pass_executes() {
    let mut g: Graph = RenderGraph::new();
    let p = g.add_pass("only");
    let counter = Arc::new(AtomicU32::new(0));
    let c = counter.clone();
    g.set_pass_execute(p, Box::new(move |_ctx: &PassContext| {
        c.fetch_add(1, Ordering::SeqCst);
    }));
    g.compile().unwrap();
    g.execute(0);
    assert_eq!(counter.load(Ordering::SeqCst), 1);
}

#[test]
fn linear_chain() {
    let mut g: Graph = RenderGraph::new();
    let a = g.add_pass("A");
    let b = g.add_pass("B");
    let c = g.add_pass("C");
    g.add_edge(a, b);
    g.add_edge(b, c);
    let log = Arc::new(Mutex::new(Vec::<String>::new()));
    for (pass, name) in [(a, "A"), (b, "B"), (c, "C")] {
        let l = log.clone();
        g.set_pass_execute(pass, Box::new(move |_ctx: &PassContext| {
            l.lock().unwrap().push(name.to_string());
        }));
    }
    g.compile().unwrap();
    g.execute(0);
    let result = log.lock().unwrap().clone();
    assert_eq!(result, vec!["A", "B", "C"]);
}

#[test]
fn diamond_dependency() {
    let mut g: Graph = RenderGraph::new();
    let a = g.add_pass("A");
    let b = g.add_pass("B");
    let c = g.add_pass("C");
    let d = g.add_pass("D");
    g.add_edge(a, b);
    g.add_edge(a, c);
    g.add_edge(b, d);
    g.add_edge(c, d);
    g.compile().unwrap();
    let order = g.execution_order().unwrap();
    let pos = |id: PassId| order.iter().position(|&x| x == id).unwrap();
    assert!(pos(a) < pos(b));
    assert!(pos(a) < pos(c));
    assert!(pos(b) < pos(d));
    assert!(pos(c) < pos(d));
}

#[test]
fn cycle_detection() {
    let mut g: Graph = RenderGraph::new();
    let a = g.add_pass("A");
    let b = g.add_pass("B");
    let c = g.add_pass("C");
    g.add_edge(a, b);
    g.add_edge(b, c);
    g.add_edge(c, a);
    let err = g.compile().unwrap_err();
    assert!(matches!(err, GraphError::CycleDetected));
}

#[test]
fn implicit_dependency_from_resources() {
    let mut g: Graph = RenderGraph::new();
    let writer = g.add_pass("GBufferWrite");
    let reader = g.add_pass("LightingRead");
    g.set_pass_writes(writer, &["gbuffer"]);
    g.set_pass_reads(reader, &["gbuffer"]);
    let log = Arc::new(Mutex::new(Vec::<String>::new()));
    {
        let l = log.clone();
        g.set_pass_execute(writer, Box::new(move |_ctx: &PassContext| {
            l.lock().unwrap().push("write".into());
        }));
    }
    {
        let l = log.clone();
        g.set_pass_execute(reader, Box::new(move |_ctx: &PassContext| {
            l.lock().unwrap().push("read".into());
        }));
    }
    g.compile().unwrap();
    g.execute(0);
    let result = log.lock().unwrap().clone();
    assert_eq!(result, vec!["write", "read"]);
}

#[test]
fn resource_lifetime_tracking() {
    let mut g: Graph = RenderGraph::new();
    let a = g.add_pass("A");
    let b = g.add_pass("B");
    let c = g.add_pass("C");
    g.set_pass_writes(a, &["tex"]);
    g.set_pass_reads(b, &["tex"]);
    g.set_pass_reads(c, &["tex"]);
    g.add_edge(a, b);
    g.add_edge(b, c);
    g.compile().unwrap();
    let (first, last) = g.resource_lifetime("tex").unwrap();
    assert_eq!(first, a);
    assert_eq!(last, c);
}

#[test]
fn execution_callbacks_fire() {
    let mut g: Graph = RenderGraph::new();
    let a = g.add_pass("A");
    let b = g.add_pass("B");
    let c = g.add_pass("C");
    g.add_edge(a, b);
    g.add_edge(b, c);
    let counter = Arc::new(AtomicU32::new(0));
    for (pass, value) in [(a, 1u32), (b, 2), (c, 3)] {
        let ctr = counter.clone();
        g.set_pass_execute(pass, Box::new(move |ctx: &PassContext| {
            assert_eq!(ctx.frame_index, 42);
            let prev = ctr.fetch_add(value, Ordering::SeqCst);
            match value {
                1 => assert_eq!(prev, 0),
                2 => assert_eq!(prev, 1),
                3 => assert_eq!(prev, 3),
                _ => unreachable!(),
            }
        }));
    }
    g.compile().unwrap();
    g.execute(42);
    assert_eq!(counter.load(Ordering::SeqCst), 6);
}

#[test]
fn multiple_writers_conflict() {
    let mut g: Graph = RenderGraph::new();
    let a = g.add_pass("A");
    let b = g.add_pass("B");
    g.set_pass_writes(a, &["shared"]);
    g.set_pass_writes(b, &["shared"]);
    let err = g.compile().unwrap_err();
    assert!(matches!(err, GraphError::ResourceConflict { .. }));
}

#[test]
fn pass_count_and_edge_count() {
    let mut g: Graph = RenderGraph::new();
    assert_eq!(g.pass_count(), 0);
    assert_eq!(g.edge_count(), 0);
    let a = g.add_pass("A");
    let b = g.add_pass("B");
    let c = g.add_pass("C");
    assert_eq!(g.pass_count(), 3);
    g.add_edge(a, b);
    g.add_edge(b, c);
    assert_eq!(g.edge_count(), 2);
}

#[test]
fn edge_to_unknown_pass_is_reported() {
    let mut g: Graph = RenderGraph::new();
    let a = g.add_pass("A");
    g.add_edge(a, PassId(9));
    assert!(matches!(g.compile(), Err(GraphError::UnknownPass(p)) if p == PassId(9)));
    assert_eq!(g.execution_order(), None);
}

#[test]
fn ordered_writers_do_not_conflict() {
    let mut g: Graph = RenderGraph::new();
    let a = g.add_pass("A");
    let b = g.add_pass("B");
    g.set_pass_writes(a, &["shared"]);
    g.set_pass_writes(b, &["shared"]);
    g.add_edge(a, b);
    assert!(g.compile().is_ok());
    assert_eq!(g.execution_order(), Some(&[a, b][..]));
}

#[test]
fn execute_before_compile_runs_nothing() {
    let mut g: Graph = RenderGraph::new();
    let p = g.add_pass("P");
    let counter = Arc::new(AtomicU32::new(0));
    let c = counter.clone();
    g.set_pass_execute(p, Box::new(move |_ctx: &PassContext| {
        c.fetch_add(1, Ordering::SeqCst);
    }));
    g.execute(0);
    assert_eq!(counter.load(Ordering::SeqCst), 0);
}

#[test]
fn lifetime_of_unused_resource_is_none() {
    let mut g: Graph = RenderGraph::new();
    let a = g.add_pass("A");
    g.set_pass_writes(a, &["only_written"]);
    g.compile().unwrap();
    assert_eq!(g.resource_lifetime("only_written"), None);
    assert_eq!(g.resource_lifetime("absent"), None);
}

#[test]
fn ready_passes_join_the_back_of_the_queue() {
    let mut g: Graph = RenderGraph::new();
    let a = g.add_pass("A");
    let b = g.add_pass("B");
    let c = g.add_pass("C");
    let d = g.add_pass("D");
    g.add_edge(a, d);
    g.add_edge(b, c);
    g.compile().unwrap();
    assert_eq!(g.execution_order(), Some(&[a, b, d, c][..]));
}

#[test]
fn replaced_callback_is_the_one_that_runs() {
    let mut g: Graph = RenderGraph::new();
    let p = g.add_pass("only");
    let seen = Arc::new(Mutex::new(Vec::new()));
    let first = seen.clone();
    g.set_pass_execute(p, Box::new(move |_ctx: &PassContext| first.lock().unwrap().push(1)));
    let second = seen.clone();
    g.set_pass_execute(p, Box::new(move |_ctx: &PassContext| second.lock().unwrap().push(2)));
    g.compile().unwrap();
    g.execute(0);
    assert_eq!(*seen.lock().unwrap(), vec![2]);
}
