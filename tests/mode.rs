use roc_ray_host::mode::{Effect, ModeState, PermissionError, Phase};

const DRAWS: [Effect; 8] = [
    Effect::DrawCircle,
    Effect::DrawCircleGradient,
    Effect::DrawRectangleGradientV,
    Effect::DrawRectangleGradientH,
    Effect::DrawText,
    Effect::DrawRectangle,
    Effect::DrawLine,
    Effect::DrawTextureRectangle,
];

fn rendering() -> ModeState {
    let mut m = ModeState::new();
    m.update(Effect::InitWindow).unwrap();
    m.update(Effect::EndInitWindow).unwrap();
    m
}

#[test]
fn starts_uninitialized() {
    let m = ModeState::new();
    assert_eq!(m.phase(), Phase::Uninitialized);
    assert!(!m.frame_open());
    assert_eq!(m.depth(), 0);
}

#[test]
fn window_init_only_before_rendering() {
    let mut m = ModeState::new();
    assert_eq!(m.update(Effect::InitWindow), Ok(()));
    assert_eq!(m.phase(), Phase::InitializingWindow);
    assert_eq!(m.update(Effect::InitWindow), Ok(()));
    assert_eq!(m.update(Effect::EndInitWindow), Ok(()));
    assert_eq!(m.phase(), Phase::Rendering);
    assert_eq!(
        m.update(Effect::InitWindow),
        Err(PermissionError { effect: Effect::InitWindow, phase: Phase::Rendering, frame_open: false })
    );
}

#[test]
fn end_init_without_window_is_refused() {
    let mut m = ModeState::new();
    assert_eq!(
        m.update(Effect::EndInitWindow),
        Err(PermissionError { effect: Effect::EndInitWindow, phase: Phase::Uninitialized, frame_open: false })
    );
    assert_eq!(m.phase(), Phase::Uninitialized);
    assert!(m.update(Effect::BeginDrawingFramebuffer).is_err());
}

#[test]
fn drawing_outside_frame_is_refused() {
    let mut m = ModeState::new();
    for e in DRAWS {
        assert!(m.update(e).is_err());
    }
    let mut m = rendering();
    for e in DRAWS {
        assert_eq!(
            m.update(e),
            Err(PermissionError { effect: e, phase: Phase::Rendering, frame_open: false })
        );
    }
}

#[test]
fn drawing_inside_frame_succeeds() {
    let mut m = rendering();
    m.update(Effect::BeginDrawingFramebuffer).unwrap();
    for e in DRAWS {
        assert_eq!(m.update(e), Ok(()));
    }
    m.update(Effect::EndDrawingFramebuffer).unwrap();
    assert!(m.update(Effect::DrawCircle).is_err());
}

#[test]
fn frame_cannot_open_twice_or_before_rendering() {
    let mut m = ModeState::new();
    assert!(m.update(Effect::BeginDrawingFramebuffer).is_err());
    let mut m = rendering();
    m.update(Effect::BeginDrawingFramebuffer).unwrap();
    assert!(m.update(Effect::BeginDrawingFramebuffer).is_err());
}

#[test]
fn scopes_pair_and_nest() {
    let mut m = rendering();
    assert!(m.update(Effect::BeginMode2D).is_err());
    m.update(Effect::BeginDrawingFramebuffer).unwrap();
    assert_eq!(m.update(Effect::BeginMode2D), Ok(()));
    assert!(m.update(Effect::BeginMode2D).is_err());
    assert_eq!(m.update(Effect::BeginDrawingTexture), Ok(()));
    assert_eq!(m.depth(), 2);
    // closing the outer scope first would overlap the two
    assert!(m.update(Effect::EndMode2D).is_err());
    // the frame cannot close with scopes open
    assert!(m.update(Effect::EndDrawingFramebuffer).is_err());
    assert_eq!(m.update(Effect::DrawLine), Ok(()));
    assert_eq!(m.update(Effect::EndDrawingTexture), Ok(()));
    assert_eq!(m.update(Effect::EndMode2D), Ok(()));
    assert_eq!(m.update(Effect::EndDrawingFramebuffer), Ok(()));
    assert!(!m.frame_open());
}

#[test]
fn end_scope_without_begin_is_refused() {
    let mut m = rendering();
    m.update(Effect::BeginDrawingFramebuffer).unwrap();
    assert!(m.update(Effect::EndMode2D).is_err());
    assert!(m.update(Effect::EndDrawingTexture).is_err());
}

#[test]
fn resource_effects_need_window() {
    let mut m = ModeState::new();
    assert!(m.update(Effect::LoadTexture).is_err());
    assert!(m.update(Effect::CreateCamera).is_err());
    m.update(Effect::InitWindow).unwrap();
    assert_eq!(m.update(Effect::LoadTexture), Ok(()));
    assert_eq!(m.update(Effect::LoadSound), Ok(()));
    assert_eq!(m.update(Effect::CreateCamera), Ok(()));
}

#[test]
fn anytime_effects_always_pass() {
    let mut m = ModeState::new();
    for e in [Effect::LogMsg, Effect::LoadFileToStr, Effect::SetTargetFPS, Effect::SetDrawFPS] {
        assert_eq!(m.update(e), Ok(()));
    }
    assert_eq!(m.phase(), Phase::Uninitialized);
}

#[test]
fn refused_effect_leaves_mode_unchanged() {
    let mut m = rendering();
    assert!(m.update(Effect::EndDrawingFramebuffer).is_err());
    assert_eq!(m.phase(), Phase::Rendering);
    assert!(!m.frame_open());
    assert_eq!(m.update(Effect::BeginDrawingFramebuffer), Ok(()));
}
