use radiance::effect_node::{decimal_string, EffectError, EffectNode, EFFECT_HEADER, INTEGRAL_PERIOD};
use radiance::render::plan_passes;

#[test]
fn single_pass_program() {
    let node = EffectNode::new(1, "plain", "a\nb").unwrap();
    assert_eq!(node.n_buffers(), 1);
    assert_eq!(node.n_inputs(), 1);
    assert_eq!(node.source(0), format!("{}\n#line 1\na\nb\n", EFFECT_HEADER));
}

#[test]
fn buffershader_starts_a_new_pass() {
    let prog = "#property inputCount 2\nfirst\n#buffershader\nsecond";
    let node = EffectNode::new(2, "two", prog).unwrap();
    assert_eq!(node.n_inputs(), 2);
    assert_eq!(node.n_buffers(), 2);
    assert_eq!(node.source(0), format!("{}\n#line 1\n\nfirst\n", EFFECT_HEADER));
    assert_eq!(node.source(1), format!("{}\n#line 3\n\nsecond\n", EFFECT_HEADER));
    assert_eq!(node.passes_to_compile(), vec![0, 1]);
}

#[test]
fn property_errors() {
    assert!(matches!(EffectNode::new(3, "x", "#property inputCount"), Err(EffectError::PropertyParse)));
    assert!(matches!(EffectNode::new(3, "x", "#property"), Err(EffectError::PropertyParse)));
    assert!(matches!(EffectNode::new(3, "x", "#property inputCount two"), Err(EffectError::InvalidInputCount)));
}

#[test]
fn decimal_digits() {
    assert_eq!(decimal_string(0), "0");
    assert_eq!(decimal_string(407), "407");
}

#[test]
fn integral_advances_and_wraps() {
    let mut node = EffectNode::new(4, "x", "a").unwrap();
    node.set_intensity(500);
    node.pre_render(1000);
    assert_eq!(node.intensity_integral(), 500_000);
    node.pre_render(1000 + 2_048_000);
    assert_eq!(node.intensity_integral(), (500_000 + 2_048_000 * 500) % INTEGRAL_PERIOD);
    assert_eq!(node.shader_time(), 1000);
}

#[test]
fn compiled_pass_leaves_compile_list() {
    let mut node = EffectNode::new(5, "x", "a\n#buffershader\nb").unwrap();
    node.set_compiled(1, 42);
    assert_eq!(node.passes_to_compile(), vec![0]);
}

#[test]
fn passes_run_back_to_front_and_swap() {
    let shaders = vec![Some(10), None, Some(30)];
    let inputs = vec![Some(7)];
    let mut buffers = vec![100, 101, 102];
    let mut scratch = 200;
    let (plan, out) = plan_passes(&shaders, &inputs, &mut buffers, &mut scratch);
    let order: Vec<usize> = plan.iter().map(|p| p.pass).collect();
    assert_eq!(order, vec![2, 1, 0]);
    assert_eq!(plan[0].target, 200);
    assert_eq!(plan[1].target, 102);
    assert_eq!(plan[2].target, 101);
    assert_eq!(plan[1].shader, None);
    assert_eq!(plan[0].channels, vec![100, 101, 102]);
    assert_eq!(plan[2].channels, vec![100, 102, 200]);
    assert_eq!(buffers, vec![101, 102, 200]);
    assert_eq!(scratch, 100);
    assert_eq!(out, 101);
}

#[test]
fn second_frame_reads_first_frame_output() {
    let shaders = vec![None, None];
    let inputs = vec![None];
    let mut buffers = vec![1, 2];
    let mut scratch = 3;
    let (first, _) = plan_passes(&shaders, &inputs, &mut buffers, &mut scratch);
    let (second, _) = plan_passes(&shaders, &inputs, &mut buffers, &mut scratch);
    for k in 0..2 {
        let p = second[k].pass;
        let drawn = first.iter().find(|b| b.pass == p).unwrap().target;
        assert_eq!(second[k].channels[p], drawn);
    }
}

#[test]
fn earlier_time_wraps_elapsed_time() {
    let mut node = EffectNode::new(6, "x", "a").unwrap();
    node.set_intensity(500);
    node.pre_render(1000);
    assert_eq!(node.intensity_integral(), 500_000);
    node.pre_render(0);
    assert_eq!(node.intensity_integral(), 0);
    assert_eq!(node.name(), "x");
}

#[test]
fn input_count_accepts_plus_sign_and_refuses_minus() {
    let node = EffectNode::new(7, "x", "#property inputCount +3\nbody").unwrap();
    assert_eq!(node.n_inputs(), 3);
    assert!(matches!(EffectNode::new(7, "x", "#property inputCount -1"), Err(EffectError::InvalidInputCount)));
}
