use roc_ray_host::heap::ResourceHeap;
use roc_ray_host::registry::{capacity_setting, parse_capacity, DeallocRouter, RegisterError, ResourceKind, Route};

#[test]
fn default_capacities() {
    assert_eq!(ResourceKind::Camera.default_capacity(), 100);
    assert_eq!(ResourceKind::Texture.default_capacity(), 1000);
    assert_eq!(ResourceKind::Sound.default_capacity(), 1000);
    assert_eq!(ResourceKind::RenderTexture.default_capacity(), 1000);
    assert_eq!(ResourceKind::Font.default_capacity(), 10);
}

#[test]
fn capacity_variable_names() {
    assert_eq!(ResourceKind::Camera.capacity_variable(), "ROC_RAY_MAX_CAMERAS_HEAP_SIZE");
    assert_eq!(ResourceKind::Texture.capacity_variable(), "ROC_RAY_MAX_TEXTURES_HEAP_SIZE");
    assert_eq!(ResourceKind::Font.capacity_variable(), "ROC_RAY_MAX_FONT_HEAP_SIZE");
}

#[test]
fn parse_capacity_reads_decimal() {
    assert_eq!(parse_capacity("0"), Some(0));
    assert_eq!(parse_capacity("250"), Some(250));
    assert_eq!(parse_capacity("+12"), Some(12));
    assert_eq!(parse_capacity("18446744073709551615"), Some(usize::MAX));
}

#[test]
fn parse_capacity_rejects_malformed() {
    assert_eq!(parse_capacity(""), None);
    assert_eq!(parse_capacity("+"), None);
    assert_eq!(parse_capacity("-3"), None);
    assert_eq!(parse_capacity("12a"), None);
    assert_eq!(parse_capacity(" 12"), None);
    assert_eq!(parse_capacity("18446744073709551616"), None);
}

#[test]
fn parse_capacity_agrees_with_std() {
    for s in ["7", "0042", "+9", "", "x", "99999999999999999999", "1_000"] {
        assert_eq!(parse_capacity(s), s.parse::<usize>().ok(), "input {:?}", s);
    }
}

#[test]
fn capacity_setting_falls_back_silently() {
    assert_eq!(capacity_setting(ResourceKind::Camera, None), 100);
    assert_eq!(capacity_setting(ResourceKind::Camera, Some("5")), 5);
    assert_eq!(capacity_setting(ResourceKind::Font, Some("lots")), 10);
    assert_eq!(capacity_setting(ResourceKind::Texture, Some("")), 1000);
}

#[test]
fn router_routes_to_owner_or_general() {
    let mut r = DeallocRouter::new();
    assert_eq!(r.register(ResourceKind::Camera, 100, 200), Ok(()));
    assert_eq!(r.register(ResourceKind::Texture, 200, 300), Ok(()));
    assert_eq!(r.route(100), Route::Heap(ResourceKind::Camera));
    assert_eq!(r.route(199), Route::Heap(ResourceKind::Camera));
    assert_eq!(r.route(200), Route::Heap(ResourceKind::Texture));
    assert_eq!(r.route(300), Route::General);
    assert_eq!(r.route(5), Route::General);
}

#[test]
fn router_refuses_overlap_duplicate_and_inverted() {
    let mut r = DeallocRouter::new();
    assert_eq!(r.register(ResourceKind::Sound, 100, 200), Ok(()));
    assert_eq!(r.register(ResourceKind::Font, 150, 250), Err(RegisterError::Overlap));
    assert_eq!(r.register(ResourceKind::Sound, 500, 600), Err(RegisterError::KindTaken));
    assert_eq!(r.register(ResourceKind::Music, 700, 600), Err(RegisterError::Inverted));
    assert_eq!(r.route(160), Route::Heap(ResourceKind::Sound));
}

#[test]
fn handles_route_only_to_their_heap() {
    let mut cams = ResourceHeap::new(0x10000, 16, 3).unwrap();
    let mut texs = ResourceHeap::new(0x20000, 16, 3).unwrap();
    let mut r = DeallocRouter::new();
    assert_eq!(r.register_heap(ResourceKind::Camera, &cams), Ok(()));
    assert_eq!(r.register_heap(ResourceKind::Texture, &texs), Ok(()));
    let c = cams.alloc_for(1u8).unwrap().addr();
    let t = texs.alloc_for(2u8).unwrap().addr();
    assert!(cams.in_range(c) && !texs.in_range(c));
    assert!(texs.in_range(t) && !cams.in_range(t));
    assert_eq!(r.route(c), Route::Heap(ResourceKind::Camera));
    assert_eq!(r.route(t), Route::Heap(ResourceKind::Texture));
}

#[test]
fn register_heap_refuses_overlapping_heap() {
    let a = ResourceHeap::<u8>::new(1000, 10, 10).unwrap();
    let b = ResourceHeap::<u8>::new(1050, 10, 10).unwrap();
    let mut r = DeallocRouter::new();
    assert_eq!(r.register_heap(ResourceKind::Camera, &a), Ok(()));
    assert_eq!(r.register_heap(ResourceKind::Texture, &b), Err(RegisterError::Overlap));
}
