use kernel::bootloader::{parse_multiboot_info, MultibootError, TAG_END, TAG_MMAP, TAG_MODULE};
use kernel::desktop::compositor::{present, Compositor, BACKGROUND, CURSOR_COLOR};
use kernel::desktop::window_server::{init_window_server, WindowServer};
use kernel::heap::{HeapState, LockedHeap};

fn put32(buf: &mut Vec<u8>, v: u32) {
    buf.extend_from_slice(&v.to_le_bytes());
}

#[test]
fn bump_allocation_aligns_and_advances() {
    let mut heap = HeapState { start: 0x1001, size: 0x100 };
    let allocator = LockedHeap::empty();
    assert_eq!(allocator.bump_alloc(&mut heap, 0x10, 0x10), Some(0x1010));
    assert_eq!(heap.start, 0x1020);
    assert_eq!(heap.size, 0x100);
    assert_eq!(allocator.bump_alloc(&mut heap, 0x200, 8), None);
    assert_eq!(heap.start, 0x1020);
}

#[test]
fn multiboot_walk() {
    assert_eq!(parse_multiboot_info(&[]), Err(MultibootError::NoInfo));

    let mut info = Vec::new();
    put32(&mut info, 0);
    put32(&mut info, 0);
    put32(&mut info, TAG_MODULE);
    put32(&mut info, 16);
    put32(&mut info, 0x1000);
    put32(&mut info, 0x2000);
    put32(&mut info, TAG_MMAP);
    put32(&mut info, 40);
    put32(&mut info, 24);
    put32(&mut info, 0);
    put32(&mut info, 1);
    put32(&mut info, 0);
    info.extend_from_slice(&0x100000u64.to_le_bytes());
    info.extend_from_slice(&0x10000u64.to_le_bytes());
    put32(&mut info, TAG_END);
    put32(&mut info, 8);
    assert_eq!(parse_multiboot_info(&info), Ok(()));

    let mut truncated = info.clone();
    truncated.truncate(20);
    assert_eq!(parse_multiboot_info(&truncated), Err(MultibootError::Malformed));

    let mut backwards = Vec::new();
    put32(&mut backwards, 0);
    put32(&mut backwards, 0);
    put32(&mut backwards, TAG_MODULE);
    put32(&mut backwards, 16);
    put32(&mut backwards, 0x2000);
    put32(&mut backwards, 0x1000);
    put32(&mut backwards, TAG_END);
    put32(&mut backwards, 8);
    assert_eq!(parse_multiboot_info(&backwards), Err(MultibootError::Malformed));
}

#[test]
fn composite_paints_windows_and_cursor() {
    let mut slot = None;
    init_window_server(&mut slot, 32, 16);
    let mut server = slot.unwrap();
    let a = server.create_window(4, 2, 8, 4, "a");
    let _b = server.create_window(-2, -1, 4, 3, "b");
    assert_eq!(server.get_visible_windows().len(), 2);
    let _ = a;

    let mut compositor = Compositor::new(32, 16);
    compositor.set_cursor_position(20, 10);
    compositor.composite(&server);
    let fb = compositor.framebuffer();
    assert_eq!(fb.len(), 32 * 16);
    assert_eq!(fb[0], 0);
    assert_eq!(fb[2 * 32 + 4], 0);
    assert_eq!(fb[15 * 32 + 0], BACKGROUND);
    assert_eq!(fb[10 * 32 + 20], CURSOR_COLOR);
    assert_eq!(fb[15 * 32 + 31], CURSOR_COLOR);
    assert_eq!(fb[9 * 32 + 19], BACKGROUND);

    let mut present_slot = Some(Compositor::new(4, 4));
    present(&mut present_slot, &server);
    assert_eq!(present_slot.unwrap().framebuffer()[0], CURSOR_COLOR);
}

#[test]
fn window_server_is_created_once() {
    let mut slot: Option<WindowServer> = None;
    init_window_server(&mut slot, 640, 480);
    init_window_server(&mut slot, 800, 600);
    assert_eq!(slot.unwrap().screen_size(), (640, 480));
}
