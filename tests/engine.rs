use std::cell::Cell;

use wvr_render::filter::StageInput;
use wvr_render::stage::resolve_variable;
use wvr_render::{
    BufferFormat, BufferPrecision, Filter, InputSampler, MagnifyFilter, MinifyFilter,
    RGBAImageData, RenderBuffer, RenderStageConfig, SamplerFilters, ShaderView, Stage,
    UniformSource, VariableBinding,
};

#[derive(Clone, Copy, Debug, PartialEq)]
struct Tex {
    id: u32,
    format: BufferFormat,
    width: u32,
    height: u32,
}

type TestStage = Stage<f64, f64, (), f64>;
type TestView = ShaderView<Tex, u32, f64, f64, (), f64>;

fn shift(base: &f64, weight: &f64, reference: &f64) -> f64 {
    base + weight * reference
}

fn automate(curve: &f64, value: &f64) -> Option<f64> {
    if *curve != 0.0 {
        Some(value + curve)
    } else {
        None
    }
}

fn convert(value: &f64) -> Result<f64, String> {
    if value.is_nan() {
        Err("not a number".to_string())
    } else {
        Ok(*value)
    }
}

fn stage(name: &str, filter: &str, inputs: Vec<(&str, InputSampler)>) -> TestStage {
    Stage::new(
        name,
        BufferFormat::U8U8U8U8,
        filter,
        (),
        inputs.into_iter().map(|(k, v)| (k.to_string(), v)).collect(),
        Vec::new(),
        Vec::new(),
    )
}

fn filter(inputs: Vec<&str>) -> Filter<u32, f64> {
    Filter::new(
        Vec::new(),
        Vec::new(),
        inputs.into_iter().map(|s| s.to_string()).collect(),
        Vec::new(),
        "v".to_string(),
        "f".to_string(),
        1,
    )
}

fn view(stages: Vec<TestStage>, dynamic: bool, counter: &Cell<u32>) -> TestView {
    let alloc = |format: BufferFormat, width: u32, height: u32| {
        let id = counter.get();
        counter.set(id + 1);
        Ok::<Tex, String>(Tex { id, format, width, height })
    };
    ShaderView::new(
        (64, 32),
        dynamic,
        vec![("copy".to_string(), filter(vec!["iChannel0"]))],
        stages,
        stage("final", "copy", vec![("iChannel0", InputSampler::Linear("b".to_string()))]),
        &alloc,
    )
    .unwrap()
}

#[test]
fn offset_adds_weighted_reference() {
    let binding = VariableBinding {
        value: 2.0,
        automation: None,
        offset: Some(("level".to_string(), 0.5)),
    };
    let env = vec![("level".to_string(), 4.0)];
    assert_eq!(resolve_variable(&binding, &env, &shift, &automate), Some(4.0));
}

#[test]
fn unresolved_offset_keeps_base() {
    let binding = VariableBinding {
        value: 2.0,
        automation: None,
        offset: Some(("missing".to_string(), 0.5)),
    };
    let env = vec![("level".to_string(), 4.0)];
    assert_eq!(resolve_variable(&binding, &env, &shift, &automate), None);
}

#[test]
fn automation_runs_after_offset() {
    let binding = VariableBinding {
        value: 2.0,
        automation: Some(1.0),
        offset: Some(("level".to_string(), 0.5)),
    };
    let env = vec![("level".to_string(), 4.0)];
    assert_eq!(resolve_variable(&binding, &env, &shift, &automate), Some(5.0));
}

#[test]
fn automation_decides_change() {
    let env: Vec<(String, f64)> = Vec::new();
    let active = VariableBinding { value: 2.0, automation: Some(3.0), offset: None };
    assert_eq!(resolve_variable(&active, &env, &shift, &automate), Some(5.0));
    let idle = VariableBinding { value: 2.0, automation: Some(0.0), offset: None };
    assert_eq!(resolve_variable(&idle, &env, &shift, &automate), None);
}

#[test]
fn stage_update_rebuilds_changed_uniforms_only() {
    let config = RenderStageConfig {
        filter: "copy".to_string(),
        filter_mode_params: (),
        inputs: Vec::new(),
        variables: vec![
            (
                "gain".to_string(),
                VariableBinding {
                    value: 2.0,
                    automation: None,
                    offset: Some(("level".to_string(), 0.5)),
                },
            ),
            ("fixed".to_string(), VariableBinding { value: 7.0, automation: None, offset: None }),
        ],
        precision: BufferPrecision::F16,
    };
    let mut s: TestStage = Stage::from_config("a", config, &convert).unwrap();
    assert_eq!(s.get_buffer_format(), BufferFormat::F16F16F16F16);
    assert!(s.needs_new_buffers());
    assert_eq!(s.get_uniform_list()[0], ("gain".to_string(), 2.0));
    let env = vec![("level".to_string(), 4.0)];
    s.update(&env, &shift, &automate, &convert).unwrap();
    assert_eq!(s.get_uniform_list()[0], ("gain".to_string(), 4.0));
    assert_eq!(s.get_uniform_list()[1], ("fixed".to_string(), 7.0));
}

#[test]
fn stage_update_reports_conversion_error() {
    let mut s = stage("a", "copy", Vec::new());
    s.set_variable_value("gain", 1.0, &convert).unwrap();
    s.set_variable_offset("gain", Some(("level".to_string(), 1.0)));
    let env = vec![("level".to_string(), f64::NAN)];
    assert_eq!(s.update(&env, &shift, &automate, &convert), Err("not a number".to_string()));
}

#[test]
fn set_variable_value_keeps_automation() {
    let mut s = stage("a", "copy", Vec::new());
    s.set_variable_value("gain", 1.0, &convert).unwrap();
    s.set_variable_automation("gain", Some(2.0));
    s.set_variable_value("gain", 3.0, &convert).unwrap();
    let vars = s.get_variable_list();
    assert_eq!(vars.len(), 1);
    assert_eq!(vars[0].1.value, 3.0);
    assert_eq!(vars[0].1.automation, Some(2.0));
    assert_eq!(s.get_uniform_list()[0], ("gain".to_string(), 3.0));
    assert!(s.set_variable_value("gain", f64::NAN, &convert).is_err());
    assert_eq!(s.get_variable_list()[0].1.value, 3.0);
}

#[test]
fn precision_change_marks_buffers() {
    let mut s = stage("a", "copy", Vec::new());
    s.buffers_recreated();
    s.set_precision(BufferPrecision::U8);
    assert!(!s.needs_new_buffers());
    s.set_precision(BufferPrecision::F32);
    assert!(s.needs_new_buffers());
    assert_eq!(s.get_buffer_format(), BufferFormat::F32F32F32F32);
}

#[test]
fn every_stage_has_two_textures_at_resolution() {
    let counter = Cell::new(0);
    let v = view(vec![stage("a", "copy", Vec::new()), stage("b", "copy", Vec::new())], true, &counter);
    assert_eq!(v.get_render_buffers().len(), 2);
    for b in v.get_render_buffers() {
        assert_eq!(b.get_resolution(), (64, 32));
        assert_eq!(b.front().width, 64);
        assert_eq!(b.back().height, 32);
        assert_ne!(b.front().id, b.back().id);
    }
    assert_eq!(counter.get(), 4);
    assert!(!v.get_render_chain()[0].needs_new_buffers());
}

#[test]
fn front_alternates_with_draws() {
    let mut b = RenderBuffer::new(10u32, 11u32, (1, 1));
    for n in 1..=5 {
        b.rotate();
        let expected = if n % 2 == 0 { 10 } else { 11 };
        assert_eq!(*b.front(), expected);
    }
}

#[test]
fn fixed_resolution_ignores_resize() {
    let counter = Cell::new(0);
    let mut v = view(vec![stage("a", "copy", Vec::new())], false, &counter);
    let before: Vec<Tex> = v.get_render_buffers().iter().map(|b| *b.front()).collect();
    let alloc = |format: BufferFormat, width: u32, height: u32| {
        Ok::<Tex, String>(Tex { id: 99, format, width, height })
    };
    v.set_resolution((128, 128), &alloc).unwrap();
    assert_eq!(v.get_resolution(), (64, 32));
    assert_eq!(v.get_render_buffers()[0].get_resolution(), (64, 32));
    assert_eq!(*v.get_render_buffers()[0].front(), before[0]);
}

#[test]
fn dynamic_resize_reallocates_every_buffer() {
    let counter = Cell::new(0);
    let mut v = view(vec![stage("a", "copy", Vec::new()), stage("b", "copy", Vec::new())], true, &counter);
    let alloc = |format: BufferFormat, width: u32, height: u32| {
        Ok::<Tex, String>(Tex { id: 99, format, width, height })
    };
    v.set_resolution((128, 96), &alloc).unwrap();
    assert_eq!(v.get_resolution(), (128, 96));
    for b in v.get_render_buffers() {
        assert_eq!(b.get_resolution(), (128, 96));
        assert_eq!(b.front().id, 99);
    }
}

#[test]
fn failed_resize_keeps_graph() {
    let counter = Cell::new(0);
    let mut v = view(vec![stage("a", "copy", Vec::new())], true, &counter);
    let alloc = |_: BufferFormat, _: u32, _: u32| Err::<Tex, String>("out of memory".to_string());
    assert_eq!(v.set_resolution((128, 96), &alloc), Err("out of memory".to_string()));
    assert_eq!(v.get_resolution(), (64, 32));
    assert_eq!(v.get_render_buffers()[0].get_resolution(), (64, 32));
}

#[test]
fn failed_allocation_fails_construction() {
    let alloc = |_: BufferFormat, _: u32, _: u32| Err::<Tex, String>("no device".to_string());
    let r: Result<TestView, String> = ShaderView::new(
        (8, 8),
        true,
        Vec::new(),
        vec![stage("a", "copy", Vec::new())],
        stage("final", "copy", Vec::new()),
        &alloc,
    );
    assert_eq!(r.err(), Some("no device".to_string()));
}

#[test]
fn mutual_feedback_frame_completes() {
    let counter = Cell::new(0);
    let a = stage("a", "copy", vec![("iChannel0", InputSampler::Linear("b".to_string()))]);
    let b = stage("b", "copy", vec![("iChannel0", InputSampler::Linear("a".to_string()))]);
    let mut v = view(vec![a, b], true, &counter);
    let env: Vec<(String, f64)> = Vec::new();
    let alloc = |format: BufferFormat, width: u32, height: u32| {
        Ok::<Tex, String>(Tex { id: 50, format, width, height })
    };
    v.update(&env, &shift, &automate, &convert, &alloc).unwrap();
    for i in 0..2 {
        let s = &v.get_render_chain()[i];
        let plan = v.draw_plan(s).unwrap();
        assert_eq!(plan.filter, 0);
        let other = 1 - i;
        let filters = SamplerFilters { minify: MinifyFilter::Linear, magnify: MagnifyFilter::Linear };
        assert_eq!(
            plan.uniforms,
            vec![(
                "iChannel0".to_string(),
                UniformSource::Input(StageInput::Target { stage: other, filters })
            )]
        );
        let read = *v.get_render_buffers()[other].front();
        let written = *v.get_render_buffers()[i].back();
        assert_ne!(read.id, written.id);
        v.complete_stage_draw(i);
        assert_eq!(*v.get_render_buffers()[i].front(), written);
    }
    let final_plan = v.draw_plan(v.get_final_stage()).unwrap();
    assert_eq!(final_plan.uniforms.len(), 1);
}

#[test]
fn removing_a_stage_removes_its_buffer() {
    let counter = Cell::new(0);
    let mut v = view(
        vec![stage("a", "copy", Vec::new()), stage("b", "copy", Vec::new()), stage("c", "copy", Vec::new())],
        true,
        &counter,
    );
    let third = *v.get_render_buffers()[2].front();
    v.remove_render_stage(1);
    assert_eq!(v.get_render_buffers().len(), 2);
    assert_eq!(*v.get_render_buffers()[1].front(), third);
    assert_eq!(
        v.stage_index_list(),
        vec![("a".to_string(), 0), ("c".to_string(), 1)]
    );
}

#[test]
fn moving_a_stage_moves_its_buffer() {
    let counter = Cell::new(0);
    let mut v = view(
        vec![stage("a", "copy", Vec::new()), stage("b", "copy", Vec::new()), stage("c", "copy", Vec::new())],
        true,
        &counter,
    );
    let first = *v.get_render_buffers()[0].front();
    v.move_render_stage(0, 2);
    assert_eq!(*v.get_render_buffers()[2].front(), first);
    assert_eq!(
        v.stage_index_list(),
        vec![("b".to_string(), 0), ("c".to_string(), 1), ("a".to_string(), 2)]
    );
}

#[test]
fn added_stage_gets_buffers() {
    let counter = Cell::new(0);
    let mut v = view(vec![stage("a", "copy", Vec::new())], true, &counter);
    let alloc = |format: BufferFormat, width: u32, height: u32| {
        Ok::<Tex, String>(Tex { id: 7, format, width, height })
    };
    v.add_render_stage(stage("b", "copy", Vec::new()), &alloc).unwrap();
    assert_eq!(v.get_render_chain().len(), 2);
    assert_eq!(v.get_render_buffers()[1].front().id, 7);
    let failing = |_: BufferFormat, _: u32, _: u32| Err::<Tex, String>("full".to_string());
    assert!(v.add_render_stage(stage("c", "copy", Vec::new()), &failing).is_err());
    assert_eq!(v.get_render_chain().len(), 2);
}

#[test]
fn dirty_stage_gets_new_buffers_on_update() {
    let counter = Cell::new(0);
    let mut v = view(vec![stage("a", "copy", Vec::new()), stage("b", "copy", Vec::new())], true, &counter);
    let mut s = stage("a", "copy", Vec::new());
    s.set_precision(BufferPrecision::F32);
    v.replace_render_stage(0, s);
    let kept = *v.get_render_buffers()[1].front();
    let env: Vec<(String, f64)> = Vec::new();
    let alloc = |format: BufferFormat, width: u32, height: u32| {
        Ok::<Tex, String>(Tex { id: 77, format, width, height })
    };
    v.update(&env, &shift, &automate, &convert, &alloc).unwrap();
    assert_eq!(v.get_render_buffers()[0].front().id, 77);
    assert_eq!(v.get_render_buffers()[0].front().format, BufferFormat::F32F32F32F32);
    assert_eq!(*v.get_render_buffers()[1].front(), kept);
    assert!(!v.get_render_chain()[0].needs_new_buffers());
}

#[test]
fn input_precedence_target_environment_variable() {
    let counter = Cell::new(0);
    let mut s = stage(
        "a",
        "copy",
        vec![
            ("fromStage", InputSampler::Nearest("b".to_string())),
            ("fromEnv", InputSampler::Mipmaps("audio".to_string())),
            ("missing", InputSampler::Linear("nowhere".to_string())),
        ],
    );
    s.set_variable_value("fromEnv", 1.0, &convert).unwrap();
    s.set_variable_value("local", 2.0, &convert).unwrap();
    let mut v = view(vec![s, stage("b", "copy", Vec::new())], true, &counter);
    v.ingest("audio".to_string(), 0.25);
    let inputs = v.stage_inputs(&v.get_render_chain()[0]);
    assert_eq!(
        inputs,
        vec![
            (
                "fromStage".to_string(),
                StageInput::Target {
                    stage: 1,
                    filters: SamplerFilters {
                        minify: MinifyFilter::Nearest,
                        magnify: MagnifyFilter::Nearest
                    }
                }
            ),
            (
                "fromEnv".to_string(),
                StageInput::Environment {
                    index: 0,
                    filters: SamplerFilters {
                        minify: MinifyFilter::LinearMipmapLinear,
                        magnify: MagnifyFilter::Linear
                    }
                }
            ),
            ("local".to_string(), StageInput::Variable { index: 1 }),
        ]
    );
    assert!(v.needs_mipmaps(&"audio".to_string()));
    assert!(!v.needs_mipmaps(&"b".to_string()));
}

#[test]
fn filter_plan_prefers_stage_inputs_over_defaults() {
    let mut f = filter(vec!["iChannel0", "iChannel0", "speed"]);
    f.set_uniform("iTime".to_string(), 1.5, None);
    f.set_uniform("speed".to_string(), 3.0, None);
    let inputs = vec![
        ("speed".to_string(), StageInput::Variable { index: 4 }),
        ("unused".to_string(), StageInput::Variable { index: 5 }),
    ];
    let plan = f.uniform_plan(&inputs);
    assert_eq!(
        plan,
        vec![
            ("speed".to_string(), UniformSource::Input(StageInput::Variable { index: 4 })),
            ("iTime".to_string(), UniformSource::Default(0)),
        ]
    );
}

#[test]
fn failed_compile_keeps_program() {
    let mut f = filter(vec!["iChannel0"]);
    let failing = |_: &String, _: &String| Err::<u32, String>("0:1(1): error: bad".to_string());
    let r = f.update(None, Some("broken".to_string()), failing);
    assert_eq!(r, Err("0:1(1): error: bad".to_string()));
    assert_eq!(*f.get_program(), 1);
    assert_eq!(f.get_fragment_text(), "broken");
    let working = |v: &String, g: &String| Ok::<u32, String>((v.len() + g.len()) as u32);
    assert_eq!(f.update(None, Some("fixed!".to_string()), working), Ok(true));
    assert_eq!(*f.get_program(), 7);
    assert_eq!(f.update(None, None, working), Ok(false));
}

#[test]
fn screenshot_finds_first_stage_by_name() {
    let counter = Cell::new(0);
    let v = view(vec![stage("a", "copy", Vec::new()), stage("b", "copy", Vec::new())], true, &counter);
    assert_eq!(v.screenshot_stage(&"b".to_string()), Some(1));
    assert_eq!(v.screenshot_stage(&"zzz".to_string()), None);
}

#[test]
fn missing_filter_gives_no_plan() {
    let counter = Cell::new(0);
    let v = view(vec![stage("a", "nothing", Vec::new())], true, &counter);
    assert!(v.draw_plan(&v.get_render_chain()[0]).is_none());
}

#[test]
fn image_data_keeps_pixels() {
    let img = RGBAImageData::from_raw(vec![(1, 2, 3, 4)], 1, 1);
    assert_eq!(img.data, vec![(1, 2, 3, 4)]);
    assert_eq!((img.width, img.height), (1, 1));
}

#[test]
fn empty_graph_runs_a_frame() {
    let counter = Cell::new(0);
    let mut v = view(Vec::new(), true, &counter);
    let env: Vec<(String, f64)> = Vec::new();
    let alloc = |format: BufferFormat, width: u32, height: u32| {
        Ok::<Tex, String>(Tex { id: 1, format, width, height })
    };
    v.update(&env, &shift, &automate, &convert, &alloc).unwrap();
    v.set_resolution((10, 10), &alloc).unwrap();
    assert_eq!(v.get_resolution(), (10, 10));
    assert!(v.get_render_buffers().is_empty());
    assert!(v.stage_index_list().is_empty());
    assert_eq!(counter.get(), 0);
}

#[test]
fn same_input_name_is_replaced() {
    let mut s = stage("a", "copy", vec![("iChannel0", InputSampler::Linear("x".to_string()))]);
    s.set_input("iChannel0", InputSampler::Nearest("y".to_string()));
    s.set_input("iChannel1", InputSampler::Mipmaps("z".to_string()));
    let inputs = s.get_input_map();
    assert_eq!(inputs.len(), 2);
    assert!(matches!(&inputs[0].1, InputSampler::Nearest(n) if n == "y"));
    assert!(matches!(&inputs[1].1, InputSampler::Mipmaps(n) if n == "z"));
}

#[test]
fn unchanged_variables_do_not_fail() {
    let mut s = stage("a", "copy", Vec::new());
    s.set_variable_value("gain", 1.0, &convert).unwrap();
    s.set_variable_offset("gain", Some(("absent".to_string(), 1.0)));
    let env = vec![("other".to_string(), f64::NAN)];
    assert_eq!(s.update(&env, &shift, &automate, &convert), Ok(()));
    assert_eq!(s.get_uniform_list()[0], ("gain".to_string(), 1.0));
}
