use roc_ray_host::heap::{HeapError, Release, ResourceHeap};

#[test]
fn new_rejects_zero_stride() {
    assert!(matches!(ResourceHeap::<u32>::new(4096, 0, 4), Err(HeapError::Reserve)));
}

#[test]
fn new_rejects_region_past_address_space() {
    assert!(matches!(ResourceHeap::<u32>::new(usize::MAX - 10, 8, 2), Err(HeapError::Reserve)));
}

#[test]
fn new_lays_out_region() {
    let h = ResourceHeap::<u32>::new(4096, 16, 3).unwrap();
    assert_eq!(h.capacity(), 3);
    assert_eq!(h.base(), 4096);
    assert_eq!(h.end(), 4096 + 48);
}

#[test]
fn allocs_are_distinct_then_full() {
    let mut h = ResourceHeap::new(1000, 8, 4).unwrap();
    let mut addrs = Vec::new();
    for v in 0..4u32 {
        let handle = h.alloc_for(v).unwrap();
        assert!(!addrs.contains(&handle.addr()));
        addrs.push(handle.addr());
    }
    assert_eq!(addrs, vec![1000, 1008, 1016, 1024]);
    assert!(!h.has_free_slot());
    assert!(matches!(h.alloc_for(99), Err(HeapError::Full)));
}

#[test]
fn handles_are_in_range() {
    let mut h = ResourceHeap::new(2000, 32, 5).unwrap();
    for v in 0..5u8 {
        let handle = h.alloc_for(v).unwrap();
        assert!(h.in_range(handle.addr()));
    }
    assert!(!h.in_range(1999));
    assert!(!h.in_range(2000 + 5 * 32));
}

#[test]
fn dealloc_frees_after_last_reference() {
    let mut h = ResourceHeap::new(0x1000, 16, 1).unwrap();
    let a = h.alloc_for(String::from("texture")).unwrap().addr();
    assert!(h.retain(a));
    assert!(h.retain(a));
    // three references: two releases leave it live
    assert!(matches!(h.dealloc(a), Release::Retained));
    assert!(matches!(h.dealloc(a), Release::Retained));
    assert!(!h.has_free_slot());
    assert_eq!(h.get(a).map(|s| s.as_str()), Some("texture"));
    match h.dealloc(a) {
        Release::Freed(v) => assert_eq!(v, "texture"),
        other => panic!("expected the resource back, got {:?}", other),
    }
    assert!(h.has_free_slot());
    let b = h.alloc_for(String::from("again")).unwrap().addr();
    assert_eq!(a, b);
}

#[test]
fn dealloc_single_reference_frees() {
    let mut h = ResourceHeap::new(64, 8, 2).unwrap();
    let a = h.alloc_for(7u64).unwrap().addr();
    assert!(matches!(h.dealloc(a), Release::Freed(7)));
    assert!(matches!(h.dealloc(a), Release::NotLive));
}

#[test]
fn dealloc_ignores_foreign_and_misaligned_addresses() {
    let mut h = ResourceHeap::new(64, 8, 2).unwrap();
    let a = h.alloc_for(7u64).unwrap().addr();
    assert!(matches!(h.dealloc(a + 1), Release::NotLive));
    assert!(matches!(h.dealloc(8), Release::NotLive));
    assert!(matches!(h.dealloc(a + 8), Release::NotLive));
    assert_eq!(h.get(a), Some(&7));
}

#[test]
fn retain_refuses_free_slot() {
    let mut h = ResourceHeap::<u8>::new(64, 8, 2).unwrap();
    assert!(!h.retain(64));
    assert!(!h.retain(65));
}

#[test]
fn get_mut_changes_resource_in_place() {
    let mut h = ResourceHeap::new(64, 8, 2).unwrap();
    let a = h.alloc_for((1i32, 2i32)).unwrap().addr();
    if let Some(cam) = h.get_mut(a) {
        cam.0 = 10;
        cam.1 = 20;
    }
    assert_eq!(h.get(a), Some(&(10, 20)));
    assert!(h.get_mut(a + 8).is_none());
}

#[test]
fn capacity_one_heap_end_to_end() {
    let mut h = ResourceHeap::new(4096, 64, 1).unwrap();
    assert!(h.alloc_for("first").is_ok());
    assert!(matches!(h.alloc_for("second"), Err(HeapError::Full)));
}
