use phoenix::gpu::{
    Executor, check_response, control_queue_len, cursor_queue_len, is_version_1, negotiate_features, virtio_gpu_supported, executor_state, CmdGetDisplayInfo, CmdResourceCreate2D, CmdResourceDetachBacking, CmdResourceFlush,
    CmdResourceUnref, CmdSetScanout, CmdTransferToHost2D, Color, CursorCommand, CursorPosition, DisplayInfo,
    ExecutorState, GPUCommType, GPUControlQHeader, Image, LeRectangle, RawDisplayInfo, Rectangle, Resource2DFormat,
    RespOKDisplayInfo, DISPLAY_ENABLED, GPU_FLAG_FENCE, MAX_SCANOUTS,
};

#[test]
fn command_headers() {
    let h = GPUControlQHeader::new(GPUCommType::CmdSetScanout, GPU_FLAG_FENCE);
    assert_eq!(h.comm_type(), GPUCommType::CmdSetScanout);
    assert_eq!(GPUCommType::CmdSetScanout.code(), 0x0103);
    assert_eq!(GPUCommType::RespOKNoData.code(), 0x1100);
    assert_eq!(GPUCommType::try_from_code(0x0301).ok(), Some(GPUCommType::CmdMoveCursor));
    assert_eq!(GPUCommType::try_from_code(0x1205).ok(), Some(GPUCommType::RespErrInvalidParameter));
    let e = GPUCommType::try_from_code(0x9999).err().unwrap();
    assert_eq!(*e.value(), 0x9999);
    assert_eq!(e.enum_type(), "GPUCommType");
}

#[test]
fn rectangles_round_trip_through_the_wire_layout() {
    let r = Rectangle::new(1, 2, 640, 480);
    assert_eq!(Rectangle::from_le(&LeRectangle::from_rect(r)), r);
    assert_eq!(Rectangle::from_le(&LeRectangle::zero()), Rectangle::new(0, 0, 0, 0));
}

#[test]
fn commands_are_built() {
    let c = CmdGetDisplayInfo::new();
    let resp: &RespOKDisplayInfo = c.response();
    assert_eq!(DisplayInfo::all(resp, MAX_SCANOUTS).len(), MAX_SCANOUTS);
    let _ = CmdResourceCreate2D::new(1, Resource2DFormat::BytesRGBA, 640, 480, GPU_FLAG_FENCE);
    let _ = CmdResourceUnref::new(1);
    let _ = CmdSetScanout::new(0, 1, Rectangle::new(0, 0, 640, 480), GPU_FLAG_FENCE);
    let _ = CmdResourceFlush::new(1, Rectangle::new(0, 0, 640, 480), GPU_FLAG_FENCE);
    let _ = CmdTransferToHost2D::new(1, Rectangle::new(0, 0, 640, 480), 0, GPU_FLAG_FENCE);
    let _ = CmdResourceDetachBacking::new(1, GPU_FLAG_FENCE);
    let pos = CursorPosition::new(0, 10, 20);
    let _ = CursorCommand::new_update(pos, 2, 1, 1, 0);
    let _ = CursorCommand::new_move(pos, 0);
}

#[test]
fn display_information() {
    let raw = RawDisplayInfo::new(Rectangle::new(0, 0, 1024, 768), 1, 0);
    let d = DisplayInfo::from_raw(&raw);
    assert_eq!(d.rect, Rectangle::new(0, 0, 1024, 768));
    assert_eq!(d.flags, DISPLAY_ENABLED);
    let off = DisplayInfo::from_raw(&RawDisplayInfo::new(Rectangle::new(0, 0, 1, 1), 0, 0));
    assert_eq!(off.flags, 0);
    assert_eq!(DisplayInfo::one(vec![d, off], 1), Ok(off));
    assert!(DisplayInfo::one(vec![d], 1).is_err());
}

#[test]
fn images() {
    assert!(Image::new(0, 1, 32, 4097, 10).is_err());
    assert!(Image::new(5, 1, 32, 10, 10).is_err());
    assert!(Image::new(0, 1, 33, 10, 10).is_err());
    let mut img = Image::new(0, 1, 32, 640, 480).unwrap();
    assert!(img.virtio_compatible());
    assert_eq!(img.width(), 640);
    assert_eq!(img.height(), 480);
    assert_eq!(img.rect(), Rectangle::new(0, 0, 640, 480));
    assert_eq!(img.transfer_offset(Rectangle::new(2, 3, 1, 1)), (2 + 3 * 640) * 4);
    img.set_colors(0, &[Color(0x00ff_00ff), Color(7)]);
    let tiles = Image::new(2, 3, 12, 10, 5).unwrap();
    assert!(!tiles.virtio_compatible());
    assert_eq!(tiles.height(), 5);
    assert_eq!(tiles.transfer_offset(Rectangle::new(1, 1, 1, 1)), 11 * (2 + 3 * 2));
}

#[test]
fn executor_states() {
    assert_eq!(executor_state(0), ExecutorState::Finished);
    assert_eq!(executor_state(3), ExecutorState::Pending);
}

#[test]
fn gpu_device_checks() {
    assert!(virtio_gpu_supported(0x7472_6976, 1, 16, 1));
    assert!(!virtio_gpu_supported(0x7472_6977, 1, 16, 1));
    assert!(!virtio_gpu_supported(0x7472_6976, 2, 16, 1));
    assert!(!virtio_gpu_supported(0x7472_6976, 0, 16, 1));
    assert!(!virtio_gpu_supported(0x7472_6976, 1, 1, 1));
    assert!(!virtio_gpu_supported(0x7472_6976, 1, 16, 0));
}

#[test]
fn gpu_responses() {
    assert_eq!(check_response(48, 24, 0x1101, GPUCommType::RespOKDisplayInfo), Ok(()));
    assert_eq!(check_response(48, 24, 0x1100, GPUCommType::RespOKDisplayInfo), Err(()));
    assert_eq!(check_response(48, 24, 0x1200, GPUCommType::RespOKNoData), Err(()));
    assert_eq!(check_response(48, 24, 0x9999, GPUCommType::RespOKNoData), Err(()));
}

#[test]
fn executor_rounds() {
    let mut exec = Executor::new();
    let a = exec.spawn();
    let b = exec.spawn();
    assert_eq!((a, b), (0, 1));
    let polled = std::cell::RefCell::new(Vec::new());
    // The first future finishes at once; the second one doesn't.
    let state = exec.execute(|i| {
        polled.borrow_mut().push(i);
        i == a
    });
    assert_eq!(state, ExecutorState::Pending);
    assert_eq!(*polled.borrow(), vec![0, 1]);
    // Nothing is awake: nothing is polled.
    assert_eq!(exec.execute(|_| panic!("nothing should be polled")), ExecutorState::Pending);
    // Waking a finished future polls nothing either.
    exec.wake(a);
    assert_eq!(exec.execute(|_| panic!("a finished future should not be polled")), ExecutorState::Pending);
    exec.wake(b);
    assert_eq!(exec.execute(|i| i == b), ExecutorState::Finished);
}

#[test]
fn feature_negotiation() {
    // Only "any layout" is kept of the low word, and "version 1", "order platform" and
    // "notification data" of the high word.
    assert_eq!(negotiate_features(0xffff_ffff, 0xffff_ffff), (0x0800_0000, 0x51));
    assert_eq!(negotiate_features(0x0000_0001, 0x0000_0002), (0, 0));
    assert_eq!(negotiate_features(0x0800_0000, 0x0000_0011), (0x0800_0000, 0x11));
    assert!(is_version_1(0x11));
    assert!(!is_version_1(0x50));
}

#[test]
fn queue_lengths() {
    assert_eq!(control_queue_len(0), None);
    assert_eq!(control_queue_len(0x100), Some(0x100));
    assert_eq!(control_queue_len(0x1000), Some(0x1000));
    assert_eq!(control_queue_len(0x8000), Some(0x1000));
    assert_eq!(cursor_queue_len(0), 0);
    assert_eq!(cursor_queue_len(0x10), 0x10);
    assert_eq!(cursor_queue_len(0xffff_ffff), 0x1000);
}

#[test]
fn execute_polls_each_awake_future_once() {
    let mut exec = Executor::new();
    let a = exec.spawn();
    let b = exec.spawn();
    let polled = std::cell::RefCell::new(Vec::new());
    // `a` finishes, `b` does not.
    let state = exec.execute(|i: usize| {
        polled.borrow_mut().push(i);
        i == a
    });
    assert_eq!(state, ExecutorState::Pending);
    assert_eq!(*polled.borrow(), vec![a, b]);
    // Nothing is awake, so nothing is polled.
    polled.borrow_mut().clear();
    assert_eq!(exec.execute(|i: usize| { polled.borrow_mut().push(i); true }), ExecutorState::Pending);
    assert!(polled.borrow().is_empty());
    // Waking the finished future does not poll it again.
    exec.wake(a);
    exec.wake(b);
    assert_eq!(exec.execute(|i: usize| { polled.borrow_mut().push(i); true }), ExecutorState::Finished);
    assert_eq!(*polled.borrow(), vec![b]);
}
