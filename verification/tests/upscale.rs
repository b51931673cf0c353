use chemengine::render::graph::{PassContext, RenderGraph};
use chemengine::render::upscale::{
    add_upscale_pass, LOWRES_COLOR, LOWRES_DEPTH, LOWRES_MOTION, PREV_COLOR, UPSCALED_COLOR,
};

type Graph = RenderGraph<Box<dyn FnMut(&PassContext) + Send>>;

#[test]
fn add_upscale_pass_registers_resources() {
    let mut g: Graph = RenderGraph::new();
    let id = add_upscale_pass(&mut g);
    assert_eq!(g.pass_count(), 1);
    assert!(g.compile().is_ok());
    let (first, last) = g.resource_lifetime(UPSCALED_COLOR).unwrap_or((id, id));
    assert_eq!(first, id);
    assert_eq!(last, id);
}

#[test]
fn add_upscale_pass_declares_four_reads_one_write() {
    let mut g: Graph = RenderGraph::new();
    let upstream = g.add_pass("upstream");
    g.set_pass_writes(upstream, &[LOWRES_COLOR, LOWRES_DEPTH, LOWRES_MOTION, PREV_COLOR]);
    let up_id = add_upscale_pass(&mut g);
    g.compile().unwrap();
    let order = g.execution_order().unwrap();
    let pos_up = order.iter().position(|&p| p == upstream).unwrap();
    let pos_ta = order.iter().position(|&p| p == up_id).unwrap();
    assert!(pos_up < pos_ta, "upstream must execute before upscale");
}

#[test]
fn upscale_output_feeds_a_later_reader() {
    let mut g: Graph = RenderGraph::new();
    let present = g.add_pass("present");
    g.set_pass_reads(present, &[UPSCALED_COLOR]);
    let up = add_upscale_pass(&mut g);
    g.compile().unwrap();
    assert_eq!(g.execution_order(), Some(&[up, present][..]));
    assert_eq!(g.resource_lifetime(UPSCALED_COLOR), Some((up, present)));
}
