use framework::frame::{AcquireOutcome, PresentOutcome, RenderFrame};
use framework::swapchain::{
    choose_extent, choose_image_count, choose_image_usage, choose_present_mode,
    choose_surface_format, ColorFormat, ColorSpaceKind, PresentModeKind, RenderSwapchain,
};

fn ok_tick(frame: &mut RenderFrame, image_index: u32) -> u64 {
    assert!(!frame.needs_recreate());
    let acquired = frame
        .wait_for_next_frame(AcquireOutcome::Ready { image_index, suboptimal: false })
        .unwrap();
    assert_eq!(acquired, Some(image_index));
    frame.queue_submit_and_present(PresentOutcome::Completed).unwrap()
}

#[test]
fn submissions_are_strictly_increasing() {
    let mut frame = RenderFrame::new(3, (800, 600));
    let mut seqs = Vec::new();
    for tick in 0..5u32 {
        seqs.push(ok_tick(&mut frame, tick % 3));
    }
    assert_eq!(seqs, vec![0, 1, 2, 3, 4]);
}

#[test]
fn staleness_recovery() {
    let mut frame = RenderFrame::new(3, (800, 600));
    // ticks 1 and 2 succeed
    assert_eq!(ok_tick(&mut frame, 0), 0);
    assert_eq!(ok_tick(&mut frame, 1), 1);
    // tick 3: the platform reports the surface stale; the tick is skipped,
    // nothing is submitted, and the surface is marked for recreation
    let skipped = frame.wait_for_next_frame(AcquireOutcome::OutOfDate).unwrap();
    assert_eq!(skipped, None);
    assert!(frame.needs_recreate());
    assert_eq!(frame.get_frames_submitted(), 2);
    // exactly one recreate clears the mark
    frame.recreate(3, Some((1024, 768)), 800, 600);
    assert!(!frame.needs_recreate());
    // tick 4 succeeds with the next sequence number
    assert_eq!(ok_tick(&mut frame, 0), 2);
}

#[test]
fn suboptimal_acquire_marks_stale_after_the_tick() {
    let mut frame = RenderFrame::new(2, (100, 100));
    let acquired = frame
        .wait_for_next_frame(AcquireOutcome::Ready { image_index: 1, suboptimal: true })
        .unwrap();
    assert_eq!(acquired, Some(1));
    assert!(frame.needs_recreate());
    // the frame still submits and presents
    assert_eq!(frame.queue_submit_and_present(PresentOutcome::Completed).unwrap(), 0);
    assert!(frame.needs_recreate());
}

#[test]
fn out_of_date_present_marks_stale_but_still_counts() {
    let mut frame = RenderFrame::new(2, (100, 100));
    frame
        .wait_for_next_frame(AcquireOutcome::Ready { image_index: 0, suboptimal: false })
        .unwrap();
    assert_eq!(frame.queue_submit_and_present(PresentOutcome::OutOfDate).unwrap(), 0);
    assert!(frame.needs_recreate());
    assert_eq!(frame.get_frames_submitted(), 1);
}

#[test]
fn acquire_failure_is_fatal() {
    let mut frame = RenderFrame::new(2, (100, 100));
    assert!(frame.wait_for_next_frame(AcquireOutcome::Failed).is_err());
}

#[test]
fn acquire_with_missing_framebuffer_is_fatal() {
    let mut frame = RenderFrame::new(2, (100, 100));
    let r = frame.wait_for_next_frame(AcquireOutcome::Ready { image_index: 9, suboptimal: false });
    assert!(r.is_err());
}

#[test]
fn present_failure_is_fatal_and_counts_nothing() {
    let mut frame = RenderFrame::new(2, (100, 100));
    frame
        .wait_for_next_frame(AcquireOutcome::Ready { image_index: 0, suboptimal: false })
        .unwrap();
    assert!(frame.queue_submit_and_present(PresentOutcome::Failed).is_err());
    assert_eq!(frame.get_frames_submitted(), 0);
}

#[test]
fn current_framebuffer_follows_acquire() {
    let mut frame = RenderFrame::new(3, (100, 100));
    frame
        .wait_for_next_frame(AcquireOutcome::Ready { image_index: 2, suboptimal: false })
        .unwrap();
    assert_eq!(frame.ref_current_framebuffer(), 2);
    assert!(frame.ref_current_framebuffer() < frame.get_framebuffer_count());
}

#[test]
fn present_mode_preference_order() {
    let offered = vec![PresentModeKind::Fifo, PresentModeKind::Mailbox, PresentModeKind::Immediate];
    assert_eq!(choose_present_mode(&offered), PresentModeKind::Mailbox);
    let offered = vec![PresentModeKind::Fifo, PresentModeKind::FifoRelaxed];
    assert_eq!(choose_present_mode(&offered), PresentModeKind::FifoRelaxed);
    assert_eq!(choose_present_mode(&vec![]), PresentModeKind::Fifo);
    let offered = vec![PresentModeKind::Other, PresentModeKind::Fifo];
    assert_eq!(choose_present_mode(&offered), PresentModeKind::Fifo);
}

#[test]
fn image_count_is_triple_buffered_within_limits() {
    assert_eq!(choose_image_count(2, Some(5)), 3);
    assert_eq!(choose_image_count(4, Some(8)), 4);
    assert_eq!(choose_image_count(1, Some(2)), 2);
    assert_eq!(choose_image_count(2, None), 2);
    assert_eq!(choose_image_count(3, Some(3)), 3);
}

#[test]
fn platform_extent_wins() {
    assert_eq!(choose_extent(Some((1920, 1080)), 640, 480), (1920, 1080));
    assert_eq!(choose_extent(None, 640, 480), (640, 480));
}

#[test]
fn surface_format_picks_first_bgra_srgb_pair() {
    let offered = vec![
        (ColorFormat::Other, ColorSpaceKind::SrgbNonLinear),
        (ColorFormat::B8G8R8A8Unorm, ColorSpaceKind::Other),
        (ColorFormat::B8G8R8A8Unorm, ColorSpaceKind::SrgbNonLinear),
        (ColorFormat::B8G8R8A8Unorm, ColorSpaceKind::SrgbNonLinear),
    ];
    assert_eq!(choose_surface_format(&offered), Some(2));
    let offered = vec![(ColorFormat::Other, ColorSpaceKind::Other)];
    assert_eq!(choose_surface_format(&offered), None);
}

#[test]
fn image_usage_flags_follow_support() {
    let u = choose_image_usage(true, false);
    assert!(u.color_attachment && u.transfer_src && !u.transfer_dst);
    let u = choose_image_usage(false, false);
    assert!(u.color_attachment && !u.transfer_src && !u.transfer_dst);
}

#[test]
fn swapchain_recreate_resets_current_image() {
    let mut sc = RenderSwapchain::new(3, (800, 600));
    sc.record_acquire(2);
    assert_eq!(sc.get_current_frame(), 2);
    sc.recreate(2, None, 1024, 768);
    assert_eq!(sc.get_current_frame(), 0);
    assert_eq!(sc.get_max_frame_in_flight(), 2);
}
