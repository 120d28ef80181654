use roc_ray_host::bridge::{MainToWorkerMsg, PeerState, WorkerToMainMsg};
use roc_ray_host::heap::ResourceHeap;
use roc_ray_host::host::{
    admit_alloc, frame_end_message, is_log_level, key_code, key_codes, mouse_button_code, normalize_line_endings, App, EffectError,
    ExitErrCode, KeyFlags,
};
use roc_ray_host::lifecycle::{LoopAction, LoopEvent, LoopPhase};
use roc_ray_host::mode::{Effect, ModeState, PermissionError, Phase};
use roc_ray_host::registry::ResourceKind;

#[test]
fn exit_codes_are_distinct() {
    assert_eq!(ExitErrCode::ExitEffectNotPermitted.code(), 1);
    assert_eq!(ExitErrCode::ExitHeapFull.code(), 2);
}

#[test]
fn log_levels() {
    assert!(is_log_level(0));
    assert!(is_log_level(7));
    assert!(!is_log_level(-1));
    assert!(!is_log_level(8));
}

#[test]
fn mouse_codes() {
    assert_eq!(mouse_button_code(true, true, true), 0);
    assert_eq!(mouse_button_code(false, true, true), 1);
    assert_eq!(mouse_button_code(false, false, true), 2);
    assert_eq!(mouse_button_code(false, false, false), 3);
}

#[test]
fn key_state_codes() {
    let k = |pressed, released, down, up| KeyFlags { pressed, released, down, up };
    assert_eq!(key_code(k(true, false, true, false)), 0);
    assert_eq!(key_code(k(false, true, false, true)), 1);
    assert_eq!(key_code(k(false, false, true, false)), 2);
    assert_eq!(key_code(k(false, false, false, true)), 3);
    assert_eq!(key_code(k(false, false, false, false)), 4);
    assert_eq!(key_codes(&vec![k(false, false, false, true), k(true, false, false, false)]), vec![3, 0]);
}

#[test]
fn capacity_one_texture_heap_fails_before_second_load() {
    let mut mode = ModeState::new();
    mode.update(Effect::InitWindow).unwrap();
    let mut textures = ResourceHeap::new(0x4000, 32, 1).unwrap();
    let mut native_loads = 0;
    for name in ["a.png", "b.png"] {
        match admit_alloc(&mut mode, Effect::LoadTexture, ResourceKind::Texture, &textures) {
            Ok(()) => {
                native_loads += 1;
                assert!(textures.alloc_for(name).is_ok());
            }
            Err(e) => {
                assert_eq!(e, EffectError::HeapFull(ResourceKind::Texture));
                assert_eq!(e.exit_code(), ExitErrCode::ExitHeapFull);
            }
        }
    }
    assert_eq!(native_loads, 1);
}

#[test]
fn alloc_effect_in_wrong_mode_is_not_permitted() {
    let mut mode = ModeState::new();
    let heap = ResourceHeap::<u8>::new(0x4000, 32, 1).unwrap();
    let e = admit_alloc(&mut mode, Effect::CreateCamera, ResourceKind::Camera, &heap).unwrap_err();
    assert_eq!(
        e,
        EffectError::NotPermitted(PermissionError {
            effect: Effect::CreateCamera,
            phase: Phase::Uninitialized,
            frame_open: false,
        })
    );
    assert_eq!(e.exit_code(), ExitErrCode::ExitEffectNotPermitted);
}

#[test]
fn app_frame_round() {
    let mut app = App::init();
    app.request(Effect::InitWindow).unwrap();
    app.request(Effect::EndInitWindow).unwrap();
    assert_eq!(app.advance(LoopEvent::FrameStart { close_requested: false }), LoopAction::RenderFrame);
    assert_eq!(app.receive(WorkerToMainMsg::PeerConnected(9)), None);
    assert_eq!(app.receive(WorkerToMainMsg::MessageReceived(9, vec![4, 2])), None);
    let snap = app.snapshot(1234, vec![3; 4], vec![3; 7]);
    assert_eq!(snap.frame_count, 0);
    assert_eq!(snap.timestamp_millis, 1234);
    assert_eq!(snap.peers, vec![(9, PeerState::Connected)]);
    assert_eq!(snap.messages.len(), 1);
    assert_eq!(snap.messages[0].data, vec![4, 2]);
    assert_eq!(snap.keys.len(), 4);
    assert_eq!(snap.mouse_buttons.len(), 7);
    app.request(Effect::BeginDrawingFramebuffer).unwrap();
    app.request(Effect::DrawCircle).unwrap();
    app.request(Effect::EndDrawingFramebuffer).unwrap();
    assert_eq!(app.advance(LoopEvent::TickSent { accepted: true }), LoopAction::NextFrame);
    let snap = app.snapshot(1250, Vec::new(), Vec::new());
    assert_eq!(snap.frame_count, 1);
    assert!(snap.messages.is_empty());
    assert_eq!(app.peer(9), Some(PeerState::Connected));
    assert!(app.request(Effect::DrawCircle).is_err());
}

#[test]
fn line_endings_are_normalized() {
    assert_eq!(normalize_line_endings("a\r\nb\r\n"), "a\nb\n");
    assert_eq!(normalize_line_endings("\r\r\n\n"), "\r\n\n");
    assert_eq!(normalize_line_endings("no breaks"), "no breaks");
    assert_eq!(normalize_line_endings(""), "");
}

#[test]
fn drain_handles_channel_messages_in_send_order() {
    let (tx, mut rx) = tokio::sync::mpsc::channel(16);
    tx.try_send(WorkerToMainMsg::PeerConnected(1)).unwrap();
    tx.try_send(WorkerToMainMsg::MessageReceived(1, b"hi".to_vec())).unwrap();
    tx.try_send(WorkerToMainMsg::Error(String::from("peer send failed"))).unwrap();
    tx.try_send(WorkerToMainMsg::PeerDisconnected(1)).unwrap();
    let mut app = App::init();
    let errors = app.drain(&mut rx);
    assert_eq!(errors, vec![String::from("peer send failed")]);
    assert_eq!(app.peer(1), Some(PeerState::Disconnected));
    let snap = app.snapshot(0, Vec::new(), Vec::new());
    assert_eq!(snap.messages.len(), 1);
    assert_eq!(snap.messages[0].data, b"hi".to_vec());
    assert!(app.drain(&mut rx).is_empty());
}

#[test]
fn end_frame_sends_one_tick_per_frame() {
    let (tx, mut rx) = tokio::sync::mpsc::channel(4);
    let mut app = App::init();
    assert_eq!(app.advance(LoopEvent::FrameStart { close_requested: false }), LoopAction::RenderFrame);
    assert_eq!(app.end_frame(&tx), LoopAction::NextFrame);
    assert_eq!(rx.try_recv(), Ok(MainToWorkerMsg::Tick));
    assert!(rx.try_recv().is_err());
    assert_eq!(app.lifecycle().ticks_sent(), 1);
    assert_eq!(app.lifecycle().frame_count(), 1);
}

#[test]
fn full_channel_begins_shutdown_and_stops_ticks() {
    let (tx, mut rx) = tokio::sync::mpsc::channel(1);
    tx.try_send(MainToWorkerMsg::Tick).unwrap();
    let mut app = App::init();
    app.advance(LoopEvent::FrameStart { close_requested: false });
    assert_eq!(app.end_frame(&tx), LoopAction::SendShutdown);
    assert_eq!(app.lifecycle().ticks_sent(), 0);
    // room again, but the loop has stopped: nothing more is sent
    assert_eq!(rx.try_recv(), Ok(MainToWorkerMsg::Tick));
    assert_eq!(app.end_frame(&tx), LoopAction::SendShutdown);
    assert!(rx.try_recv().is_err());
    assert_eq!(app.lifecycle().ticks_sent(), 0);
}

#[test]
fn closed_channel_begins_shutdown() {
    let (tx, rx) = tokio::sync::mpsc::channel::<MainToWorkerMsg>(4);
    drop(rx);
    let mut app = App::init();
    app.advance(LoopEvent::FrameStart { close_requested: false });
    assert_eq!(app.end_frame(&tx), LoopAction::SendShutdown);
}

#[test]
fn tick_only_while_running() {
    assert_eq!(frame_end_message(LoopPhase::Running), Some(MainToWorkerMsg::Tick));
    assert_eq!(frame_end_message(LoopPhase::SendingShutdown), None);
    assert_eq!(frame_end_message(LoopPhase::JoiningWorker), None);
    assert_eq!(frame_end_message(LoopPhase::ClosingWindow), None);
    assert_eq!(frame_end_message(LoopPhase::Closed), None);
}

#[test]
fn drain_hands_back_every_worker_error_in_order() {
    let (tx, mut rx) = tokio::sync::mpsc::channel(8);
    tx.try_send(WorkerToMainMsg::Error(String::from("one"))).unwrap();
    tx.try_send(WorkerToMainMsg::PeerConnected(3)).unwrap();
    tx.try_send(WorkerToMainMsg::Error(String::from("two"))).unwrap();
    let mut app = App::init();
    assert_eq!(app.drain(&mut rx), vec![String::from("one"), String::from("two")]);
    assert_eq!(app.peer(3), Some(PeerState::Connected));
}
