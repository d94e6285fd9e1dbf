use voxel_game::renderer::instance::{
    accepts_size, plan_output, surface_format_index, OutputPlan, SurfaceStatus,
};
use voxel_game::fps::TargetFps;
use voxel_game::renderer::pipeline::{
    needs_recreate, valid_length, IndexBufferDescriptor, ShaderDataDescriptor,
};

#[test]
fn valid_length_pads_to_alignment() {
    assert_eq!(valid_length(0), 4);
    assert_eq!(valid_length(1), 4);
    assert_eq!(valid_length(4), 4);
    assert_eq!(valid_length(5), 8);
    assert_eq!(valid_length(8), 8);
    assert_eq!(valid_length(9), 12);
    assert_eq!(valid_length(64), 64);
    assert_eq!(valid_length(1001), 1004);
}

#[test]
fn target_fps_values() {
    assert_eq!(TargetFps::Value(60), TargetFps::Value(60));
    assert_ne!(TargetFps::Value(60), TargetFps::Unlimited);
}

#[test]
fn index_buffer_descriptor_clones() {
    let d = IndexBufferDescriptor { contents: vec![1, 2, 3, 4], content_len: 2 };
    let e = d.clone();
    assert_eq!(e.contents, vec![1, 2, 3, 4]);
    assert_eq!(e.content_len, 2);
}

#[test]
fn shader_descriptor_variants() {
    let s = ShaderDataDescriptor::RawData("fn main() {}");
    match s {
        ShaderDataDescriptor::RawData(text) => assert_eq!(text, "fn main() {}"),
        ShaderDataDescriptor::File(_) => panic!("wrong variant"),
    }
}

#[test]
fn surface_answers_decide_the_frame() {
    assert_eq!(plan_output(SurfaceStatus::Success), OutputPlan::Draw { reconfigure_after: false });
    assert_eq!(plan_output(SurfaceStatus::Suboptimal), OutputPlan::Draw { reconfigure_after: true });
    assert_eq!(plan_output(SurfaceStatus::Timeout), OutputPlan::Skip);
    assert_eq!(plan_output(SurfaceStatus::Occluded), OutputPlan::Skip);
    assert_eq!(plan_output(SurfaceStatus::Validation), OutputPlan::Skip);
    assert_eq!(plan_output(SurfaceStatus::Outdated), OutputPlan::ReconfigureAndSkip);
}

#[test]
fn surface_format_prefers_first_srgb() {
    assert_eq!(surface_format_index(&[false, true, true]), 1);
    assert_eq!(surface_format_index(&[true, false]), 0);
    assert_eq!(surface_format_index(&[false, false, false]), 0);
    assert_eq!(surface_format_index(&[false]), 0);
    assert_eq!(surface_format_index(&[false, false, false, true]), 3);
}

#[test]
fn zero_sized_window_is_passed_over() {
    assert!(accepts_size(800, 600));
    assert!(accepts_size(1, 1));
    assert!(!accepts_size(0, 600));
    assert!(!accepts_size(800, 0));
    assert!(!accepts_size(0, 0));
}

#[test]
fn buffer_grows_only_when_contents_do_not_fit() {
    assert!(!needs_recreate(0, 4));
    assert!(!needs_recreate(4, 4));
    assert!(needs_recreate(5, 4));
    assert!(!needs_recreate(100, 128));
    assert!(needs_recreate(129, 128));
}
