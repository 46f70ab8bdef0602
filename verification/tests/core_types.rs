use soorat::batch::MAX_SPRITES_PER_BATCH;
use soorat::capabilities::{DeviceLimits, SooratCapabilities};
use soorat::error::{decimal_string, RenderError};
use soorat::lights::{LightType, MAX_LIGHTS};
use soorat::pipeline::{plan_sprite_draws, DrawRun, FrameStats};
use soorat::postprocess::ToneMapMode;
use soorat::shadow::DEFAULT_SHADOW_MAP_SIZE;
use soorat::texture::check_rgba_upload;

#[test]
fn error_display() {
    let err = RenderError::AdapterNotFound;
    assert_eq!(err.to_string(), "GPU adapter not found");
}

#[test]
fn error_variants() {
    let errors = vec![
        RenderError::AdapterNotFound,
        RenderError::DeviceRequest("test".into()),
        RenderError::SurfaceConfig("test".into()),
        RenderError::SurfaceTexture("test".into()),
        RenderError::Shader("test".into()),
        RenderError::Pipeline("test".into()),
        RenderError::Texture("test".into()),
        RenderError::Model("test".into()),
        RenderError::Window("test".into()),
    ];
    for err in &errors {
        assert!(!err.to_string().is_empty());
    }
}

#[test]
fn error_is_send_sync() {
    fn assert_send<T: Send>() {}
    fn assert_sync<T: Sync>() {}
    assert_send::<RenderError>();
    assert_sync::<RenderError>();
}

#[test]
fn error_messages_exact() {
    assert_eq!(
        RenderError::Shader("bad".into()).to_string(),
        "shader compilation failed: bad"
    );
    assert_eq!(
        RenderError::Window("no display".into()).to_string(),
        "window creation failed: no display"
    );
    assert_eq!(RenderError::Other("custom error".into()).to_string(), "custom error");
    assert_eq!(
        RenderError::SurfaceTexture("lost".into()).to_string(),
        "surface texture acquisition failed: lost"
    );
}

#[test]
fn decimal_formatting() {
    assert_eq!(decimal_string(0), "0");
    assert_eq!(decimal_string(7), "7");
    assert_eq!(decimal_string(10), "10");
    assert_eq!(decimal_string(1920), "1920");
    assert_eq!(decimal_string(u64::MAX), u64::MAX.to_string());
}

#[test]
fn frame_stats_default() {
    let stats = FrameStats::default();
    assert_eq!(stats.draw_calls, 0);
    assert_eq!(stats.triangles, 0);
    assert_eq!(stats.sprites, 0);
}

#[test]
fn max_sprites_constant() {
    assert_eq!(MAX_SPRITES_PER_BATCH, 16383);
}

#[test]
fn tone_map_modes() {
    assert_eq!(ToneMapMode::Reinhard as u32, 0);
    assert_eq!(ToneMapMode::AcesFilmic as u32, 1);
}

#[test]
fn default_shadow_map_size() {
    assert_eq!(DEFAULT_SHADOW_MAP_SIZE, 2048);
}

#[test]
fn light_type_discriminants() {
    assert_eq!(LightType::Directional as u32, 0);
    assert_eq!(LightType::Point as u32, 1);
    assert_eq!(LightType::Spot as u32, 2);
    assert_eq!(MAX_LIGHTS, 8);
}

#[test]
fn soorat_requirements() {
    let good = DeviceLimits {
        max_texture_dimension_2d: 2048,
        max_uniform_buffer_size: 16384,
        max_bind_groups: 4,
    };
    assert!(good.meets_soorat_requirements());
    let small_textures = DeviceLimits { max_texture_dimension_2d: 2047, ..good };
    assert!(!small_textures.meets_soorat_requirements());
    let small_uniforms = DeviceLimits { max_uniform_buffer_size: 16383, ..good };
    assert!(!small_uniforms.meets_soorat_requirements());
    let few_groups = DeviceLimits { max_bind_groups: 3, ..good };
    assert!(!few_groups.meets_soorat_requirements());
}

#[test]
fn sprite_draws_grouped_by_texture() {
    let (runs, stats) = plan_sprite_draws(&[1, 1, 2, 2, 2, 1]);
    assert_eq!(
        runs,
        vec![
            DrawRun { texture_id: 1, first: 0, end: 2 },
            DrawRun { texture_id: 2, first: 2, end: 5 },
            DrawRun { texture_id: 1, first: 5, end: 6 },
        ]
    );
    assert_eq!(stats.draw_calls, 3);
    assert_eq!(stats.sprites, 6);
    assert_eq!(stats.triangles, 12);
}

#[test]
fn sprite_draws_empty_and_single_texture() {
    let (runs, stats) = plan_sprite_draws(&[]);
    assert!(runs.is_empty());
    assert_eq!((stats.draw_calls, stats.triangles, stats.sprites), (0, 0, 0));
    let (runs, stats) = plan_sprite_draws(&[9; 4]);
    assert_eq!(runs, vec![DrawRun { texture_id: 9, first: 0, end: 4 }]);
    assert_eq!(stats.draw_calls, 1);
}

#[test]
fn sprite_draw_triangles_capped_at_u16_limit() {
    let ids = vec![0u64; 16400];
    let (runs, stats) = plan_sprite_draws(&ids);
    assert_eq!(runs.len(), 1);
    assert_eq!(stats.sprites, 16400);
    assert_eq!(stats.triangles, 2 * 16383);
}

#[test]
fn rgba_upload_checks() {
    assert!(check_rgba_upload(&[0; 16], 2, 2).is_ok());
    match check_rgba_upload(&[], 0, 4) {
        Err(RenderError::Texture(m)) => assert_eq!(m, "zero-size texture"),
        other => panic!("unexpected {other:?}"),
    }
    match check_rgba_upload(&[0; 15], 2, 2) {
        Err(RenderError::Texture(m)) => {
            assert_eq!(m, "RGBA buffer size mismatch: expected 2x2x4=16, got 15")
        }
        other => panic!("unexpected {other:?}"),
    }
}
