use eat::follow::{append_ops, apply_scroll_pure, follow_load_ops, max_offset, rotate_ops, tick_interval, FollowView, PollTimer, Rewrap};
use eat::header::{follow_mount_header, format_clock, snapshot_header, HeaderCounts, TopLineCache};
use eat::snapshot::SnapshotView;
use eat::viewer::{body_height, load_ops, page_height, reflow_on_ambiguous_width, ViewAction, ViewOp, ViewerKey};
use eat::watch::{classify, drain_into_buffer, head_changed, DrainAction, DrainEvent, DrainOutcome, DrainState, FileDelta, FileStat};
use eat::wheel::WheelAccel;

#[test]
fn scroll_up_from_follow_enters_pause() {
    let (off, foll) = apply_scroll_pure(0, -1, 100);
    assert_eq!(off, 1);
    assert!(!foll);
}

#[test]
fn scroll_down_to_zero_resumes_follow() {
    let (off, foll) = apply_scroll_pure(1, 1, 100);
    assert_eq!(off, 0);
    assert!(foll);
}

#[test]
fn scroll_clamps_at_max() {
    // Up past the top of the content: the offset stays at its limit.
    let (off, foll) = apply_scroll_pure(50, -1000, 50);
    assert_eq!(off, 50);
    assert!(!foll);
}

#[test]
fn scroll_clamps_at_zero() {
    // Down past the end: the offset stays at 0, and the view follows again.
    let (off, foll) = apply_scroll_pure(3, 100, 100);
    assert_eq!(off, 0);
    assert!(foll);
}

#[test]
fn scroll_zero_delta_is_noop() {
    let (off, foll) = apply_scroll_pure(7, 0, 100);
    assert_eq!(off, 7);
    assert!(!foll);
}

// --- drain ---

/// A file as the drain sees it.
struct File {
    stat: Option<FileStat>,
    bytes: Vec<u8>,
}

impl File {
    fn new(bytes: &[u8]) -> File {
        File { stat: Some(FileStat { size: bytes.len() as u64, id: 1, mtime_ns: 1 }), bytes: bytes.to_vec() }
    }

    fn write(&mut self, bytes: &[u8]) {
        let stat = self.stat.as_mut().unwrap();
        stat.size = bytes.len() as u64;
        stat.mtime_ns += 1;
        self.bytes = bytes.to_vec();
    }

    fn state(&self) -> DrainState {
        DrainState::new(self.stat, self.bytes.clone())
    }

    /// One tick over a buffer.
    fn drain(&self, state: &mut DrainState, buffer: &mut Vec<u8>) -> DrainOutcome {
        let mut event = DrainEvent::Looked(self.stat);
        loop {
            event = match drain_into_buffer(state, event) {
                DrainAction::Sample(stat) => DrainEvent::Sampled(stat, self.bytes.clone()),
                DrainAction::Reload => {
                    *buffer = self.bytes.clone();
                    DrainEvent::Reloaded
                }
                DrainAction::Append { from, to } => {
                    buffer.extend_from_slice(&self.bytes[from as usize..to as usize]);
                    DrainEvent::Appended(true)
                }
                DrainAction::Finish(outcome) => return outcome,
            };
        }
    }
}

#[test]
fn drain_idle_when_file_unchanged() {
    let f = File::new(b"a\nb\nc\n");
    let mut state = f.state();
    let mut buffer = f.bytes.clone();
    assert_eq!(f.drain(&mut state, &mut buffer), DrainOutcome::Idle);
    assert_eq!(buffer, b"a\nb\nc\n");
}

#[test]
fn drain_grew_appends_new_bytes() {
    let mut f = File::new(b"a\nb\nc\n");
    let mut state = f.state();
    let mut buffer = f.bytes.clone();
    f.write(b"a\nb\nc\nd\ne\n");
    assert_eq!(f.drain(&mut state, &mut buffer), DrainOutcome::Grew);
    assert_eq!(buffer, b"a\nb\nc\nd\ne\n");
    // The state has caught up.
    assert_eq!(state.last.size, 10);
    assert_eq!(f.drain(&mut state, &mut buffer), DrainOutcome::Idle);
}

#[test]
fn drain_rotated_on_shrink() {
    let mut f = File::new(b"old1\nold2\nold3\n");
    let mut state = f.state();
    let mut buffer = f.bytes.clone();
    f.write(b"new\n");
    assert_eq!(f.drain(&mut state, &mut buffer), DrainOutcome::Rotated);
    assert_eq!(state.last.size, 4);
    assert_eq!(buffer, b"new\n");
}

#[test]
fn drain_rotated_on_inode_change() {
    let mut f = File::new(b"old1\nold2\n");
    let mut state = f.state();
    let mut buffer = f.bytes.clone();
    f.stat.as_mut().unwrap().id = 2;
    assert_eq!(f.drain(&mut state, &mut buffer), DrainOutcome::Rotated);
}

#[test]
fn drain_idle_when_file_missing() {
    let f = File { stat: None, bytes: vec![] };
    let mut state = f.state();
    assert_eq!(state.last, FileStat { size: 0, id: 0, mtime_ns: 0 });
    let mut buffer = vec![];
    assert_eq!(f.drain(&mut state, &mut buffer), DrainOutcome::Idle);
}

#[test]
fn drain_rotated_on_same_size_in_place_rewrite() {
    // Length and identity are unchanged, so only the start of the file shows
    // that the old contents are gone.
    let mut f = File::new(b"aaa\nbbb\n");
    let mut state = f.state();
    let mut buffer = f.bytes.clone();
    f.write(b"xxx\nyyy\n");
    assert_eq!(f.drain(&mut state, &mut buffer), DrainOutcome::Rotated);
    assert_eq!(buffer, b"xxx\nyyy\n");
}

#[test]
fn drain_rotated_on_truncate_then_longer_rewrite() {
    // It grew, so it looks like an append, but its start is another one.
    let mut f = File::new(b"aaa\n");
    let mut state = f.state();
    let mut buffer = f.bytes.clone();
    f.write(b"xxx\nyyy\nzzz\n");
    assert_eq!(f.drain(&mut state, &mut buffer), DrainOutcome::Rotated);
    assert_eq!(buffer, b"xxx\nyyy\nzzz\n");
}

#[test]
fn a_failed_append_is_not_tried_again() {
    let mut f = File::new(b"a");
    let mut state = f.state();
    f.write(b"ab");
    let stat = f.stat.unwrap();
    assert_eq!(drain_into_buffer(&mut state, DrainEvent::Looked(Some(stat))), DrainAction::Sample(stat));
    assert_eq!(drain_into_buffer(&mut state, DrainEvent::Sampled(stat, b"ab".to_vec())), DrainAction::Append { from: 1, to: 2 });
    assert_eq!(drain_into_buffer(&mut state, DrainEvent::Appended(false)), DrainAction::Finish(DrainOutcome::Idle));
    assert_eq!(drain_into_buffer(&mut state, DrainEvent::Looked(Some(stat))), DrainAction::Finish(DrainOutcome::Idle));
    // A touch changes the time alone: there is nothing to do.
    let touched = FileStat { mtime_ns: 99, ..stat };
    assert!(touched.differs(&stat));
    assert_eq!(classify(&stat, &touched, false), FileDelta::Idle);
    assert!(!head_changed(b"", b"x"));
    assert!(head_changed(b"xy", b"x"));
}

#[test]
fn bytes_that_came_after_the_look_wait_for_the_next_tick() {
    let mut f = File::new(b"ab");
    let mut state = f.state();
    let mut buffer = f.bytes.clone();
    f.write(b"abcd");
    // Two more bytes come between the look and the read.
    f.bytes = b"abcdef".to_vec();
    assert_eq!(f.drain(&mut state, &mut buffer), DrainOutcome::Grew);
    assert_eq!(buffer, b"abcd");
    assert_eq!(state.last.size, 4);
    f.write(b"abcdef");
    assert_eq!(f.drain(&mut state, &mut buffer), DrainOutcome::Grew);
    assert_eq!(buffer, b"abcdef");
}

#[test]
fn a_file_is_polled_at_its_interval() {
    let mut timer = PollTimer::new(5 * SECOND);
    // The view wakes thirty times a second, and the file is polled every 30 s.
    let mut polls = Vec::new();
    for n in 0..3_000u64 {
        let now = 5 * SECOND + n * 33_000_000;
        if timer.poll(now, 30_000) {
            polls.push(now);
        }
    }
    assert_eq!(polls.len(), 3);
    assert!(polls[0] >= 35 * SECOND && polls[1] - polls[0] >= 30 * SECOND && polls[2] - polls[1] >= 30 * SECOND);
    let mut timer = PollTimer::new(10);
    assert!(!timer.poll(0, 0));
    assert!(timer.poll(10, 0));
    assert!(!timer.poll(u64::MAX, u64::MAX));
    assert_eq!(timer.last_poll, 10);
}

// --- header ---

#[test]
fn header_following_shows_logical_line() {
    let h = follow_mount_header("/tmp/foo.log", 0, true, 250, HeaderCounts { top_line: 77, total_lines: 100 });
    assert!(h.contains("[following]"), "got: {h}");
    assert!(h.contains("250ms"));
    assert!(h.contains("line 77/100"), "got: {h}");
}

#[test]
fn header_paused_shows_logical_line() {
    let h = follow_mount_header("/tmp/foo.log", 0, false, 100, HeaderCounts { top_line: 12, total_lines: 100 });
    assert!(h.contains("[paused]"), "got: {h}");
    assert!(h.contains("line 12/100"), "got: {h}");
}

#[test]
fn headers_read_in_full() {
    assert_eq!(
        follow_mount_header("x", 86_399, false, 30_000, HeaderCounts { top_line: -1, total_lines: 0 }),
        "x [paused] line -1/0 @ 23:59:59  (30000ms arrows/g/G/PgUp/PgDn scroll, w wrap, q)"
    );
    assert_eq!(snapshot_header("a/b", 3_661, false), "a/b @ 01:01:01  (q exit, r reload, w wrap, arrows/g/G/PgUp/PgDn scroll)");
    assert_eq!(
        snapshot_header("a/b", 0, true),
        "a/b @ 00:00:00  [modified on disk]  (q exit, r reload, w wrap, arrows/g/G/PgUp/PgDn scroll)"
    );
    for secs in [0u64, 59, 60, 3599, 3600, 86_400, 1_700_000_000, u64::MAX] {
        let want = format!("{:02}:{:02}:{:02}", (secs / 3600) % 24, (secs / 60) % 60, secs % 60);
        assert_eq!(format_clock(secs), want);
    }
}

#[test]
fn top_line_cache_recomputes_on_scroll_and_content() {
    let mut cache = TopLineCache::default();
    assert_eq!(cache.get(0, 1), None);
    assert_eq!(cache.fill(0, 1, 0), 1);
    assert_eq!(cache.get(0, 1), Some(1));
    assert_eq!(cache.get(2, 1), None);
    assert_eq!(cache.fill(2, 1, 2), 3);
    assert_eq!(cache.get(2, 1), Some(3));
    assert_eq!(cache.get(0, 1), None);
    // Another generation of the text: a stale entry cannot survive.
    assert_eq!(cache.get(2, 2), None);
    assert_eq!(cache.fill(4, 2, 4), 5);
    assert_eq!(cache.get(4, 2), Some(5));
}

// --- follow view ---

fn ops(action: ViewAction) -> Vec<ViewOp> {
    match action {
        ViewAction::Do(ops) => ops,
        other => panic!("{other:?}"),
    }
}

#[test]
fn keys_move_the_follow_view() {
    let mut v = FollowView::new(true);
    assert_eq!(ops(v.key(ViewerKey::ScrollLines(-1), 10, 100, 0)), [ViewOp::ScrollY(-1)]);
    assert_eq!((v.pause_offset, v.following), (1, false));
    assert_eq!(ops(v.key(ViewerKey::ScrollPages(-1), 10, 100, 0)), [ViewOp::ScrollY(-9)]);
    assert_eq!(v.pause_offset, 10);
    assert_eq!(v.scroll_y(100, 10), 80);
    assert_eq!(ops(v.key(ViewerKey::ToTop, 10, 100, 0)), [ViewOp::ScrollY(-100)]);
    assert_eq!(v.pause_offset, 90);
    assert_eq!(v.scroll_y(100, 10), 0);
    assert_eq!(ops(v.key(ViewerKey::ScrollColumns(4), 10, 100, 0)), [ViewOp::ScrollX(4)]);
    assert_eq!(ops(v.key(ViewerKey::Reload, 10, 100, 0)), []);
    assert_eq!(ops(v.key(ViewerKey::Copy, 10, 100, 0)), [ViewOp::Copy]);
    assert_eq!(ops(v.key(ViewerKey::SelectAll, 10, 100, 0)), [ViewOp::SelectAll]);
    assert!(!v.following);
    assert_eq!(ops(v.key(ViewerKey::ToBottom, 10, 100, 0)), [ViewOp::CursorToEnd, ViewOp::ScrollToTail]);
    assert_eq!((v.pause_offset, v.following), (0, true));
    assert!(matches!(v.key(ViewerKey::Quit, 10, 100, 0), ViewAction::Quit));
    // A file shorter than the screen has nothing above.
    v.key(ViewerKey::ScrollLines(-5), 10, 3, 0);
    assert!(v.following);
}

#[test]
fn the_wheel_keeps_in_step() {
    let mut v = FollowView::new(true);
    let mut w = WheelAccel::default();
    v.wheel(&mut w, 5, 0, 90);
    assert_eq!(w, WheelAccel::default());
    v.wheel(&mut w, 5, -3, 90);
    assert_eq!((v.pause_offset, v.following), (3, false));
    assert_eq!(w.last_tick, Some(5));
    v.wheel(&mut w, 6, 4, 90);
    assert!(v.following);
}

#[test]
fn a_wrap_toggle_is_anchored_in_the_next_frame() {
    let mut v = FollowView::new(true);
    assert_eq!(ops(v.key(ViewerKey::ToggleWrap, 10, 100, 7)), [ViewOp::SetWordWrap(false), ViewOp::Rerender]);
    assert_eq!(v.take_rewrap(), Some(Rewrap::Tail));
    assert_eq!(v.take_rewrap(), None);
    assert_eq!(v.reanchor_tail(), [ViewOp::CursorToEnd, ViewOp::ScrollToTail, ViewOp::Rerender]);
    v.key(ViewerKey::ScrollLines(-20), 10, 100, 0);
    v.key(ViewerKey::ToggleWrap, 10, 100, 41);
    assert_eq!(v.take_rewrap(), Some(Rewrap::Line { top_logical: 41, old_scroll_y: 70 }));
    assert_eq!(FollowView::anchor_ops(41), [ViewOp::CursorToLine(40)]);
    // 50 rows are left, so the text area stands at the last one.
    assert_eq!(v.reanchor_line(70, 40, 50, 10), [ViewOp::ScrollY(-9), ViewOp::Rerender]);
    assert!(v.following);
    assert_eq!(v.reanchor_line(70, 30, 200, 10), [ViewOp::ScrollY(-40), ViewOp::Rerender]);
    assert_eq!((v.pause_offset, v.scroll_y(200, 10)), (160, 30));
}

#[test]
fn new_text_scrolls_a_view_that_follows() {
    let mut v = FollowView::new(false);
    assert_eq!(v.drained(DrainOutcome::Idle), []);
    assert_eq!(v.drained(DrainOutcome::Grew), [ViewOp::CursorToEnd, ViewOp::ScrollToTail, ViewOp::Rerender]);
    v.scroll(-1, 5);
    assert_eq!(v.drained(DrainOutcome::Rotated), [ViewOp::Rerender]);
    assert_eq!(tick_interval(20), 20);
    assert_eq!(tick_interval(250), 33);
    assert_eq!(max_offset(3, 10), 0);
    assert_eq!(
        rotate_ops(true, true),
        [ViewOp::SetReadOnly(false), ViewOp::ReadFile, ViewOp::SetMargin(true), ViewOp::SetReadOnly(true)]
    );
    assert_eq!(rotate_ops(false, true), []);
    assert_eq!(
        append_ops(true),
        [ViewOp::SetReadOnly(false), ViewOp::CursorToEnd, ViewOp::WriteRaw, ViewOp::SetReadOnly(true)]
    );
    assert_eq!(append_ops(false), []);
}

// --- snapshot view ---

const SECOND: u64 = 1_000_000_000;

#[test]
fn the_snapshot_view_notes_a_change_on_disk() {
    let stat = FileStat { size: 1, id: 1, mtime_ns: 1 };
    let other = FileStat { size: 2, id: 1, mtime_ns: 2 };
    let mut v = SnapshotView::new("f", true, Some(stat), 10 * SECOND, 0);
    assert!(!v.check_due(11 * SECOND));
    assert!(v.check_due(12 * SECOND));
    assert!(!v.check_due(0));
    assert!(!v.checked("f", Some(stat), 12 * SECOND, 2));
    assert_eq!(v.header, snapshot_header("f", 0, false));
    assert!(v.checked("f", Some(other), 14 * SECOND, 4));
    assert_eq!(v.header, snapshot_header("f", 4, true));
    assert!(!v.checked("f", None, 16 * SECOND, 6));
    assert_eq!(v.header, snapshot_header("f", 4, true));
    assert!(v.checked("f", Some(stat), 18 * SECOND, 8));
    assert_eq!(v.header, snapshot_header("f", 8, false));
    v.checked("f", None, 20 * SECOND, 10);
    assert!(v.file_changed);
    v.reloaded("f", None, 21 * SECOND, 11);
    assert_eq!(v.header, snapshot_header("f", 11, false));
    // Of a file that could not be looked at nothing is known.
    assert!(!v.checked("f", Some(other), 23 * SECOND, 13));
}

#[test]
fn keys_move_the_snapshot_view() {
    let mut v = SnapshotView::new("f", true, None, 0, 0);
    assert_eq!(ops(v.key(ViewerKey::ScrollPages(2), 10, 100)), [ViewOp::ScrollY(18)]);
    assert_eq!(ops(v.key(ViewerKey::ScrollPages(2), 1, 100)), [ViewOp::ScrollY(2)]);
    assert_eq!(ops(v.key(ViewerKey::ScrollLines(3), 10, 100)), [ViewOp::ScrollY(3)]);
    assert_eq!(ops(v.key(ViewerKey::ScrollColumns(-3), 10, 100)), [ViewOp::ScrollX(-3)]);
    assert_eq!(ops(v.key(ViewerKey::ToTop, 10, 100)), [ViewOp::ScrollY(-100)]);
    assert_eq!(ops(v.key(ViewerKey::ToBottom, 10, 100)), [ViewOp::CursorToEnd, ViewOp::ScrollToTail]);
    assert_eq!(ops(v.key(ViewerKey::ToggleWrap, 10, 100)), [ViewOp::SetWordWrap(false), ViewOp::Rerender]);
    assert!(!v.wrap);
    assert!(matches!(v.key(ViewerKey::Quit, 10, 100), ViewAction::Quit));
    assert!(matches!(v.key(ViewerKey::Reload, 10, 100), ViewAction::Reload));
    assert_eq!(
        v.reload_ops(true, false),
        [ViewOp::SetReadOnly(false), ViewOp::ReadFile, ViewOp::SetMargin(false), ViewOp::SetWordWrap(false), ViewOp::SetReadOnly(true)]
    );
    assert_eq!(v.reload_ops(false, false), []);
    assert_eq!(
        load_ops(true, true),
        [ViewOp::ReadFile, ViewOp::SetLanguage, ViewOp::SetMargin(true), ViewOp::SetWordWrap(true), ViewOp::SetReadOnly(true)]
    );
    assert_eq!(
        follow_load_ops(false, true),
        [
            ViewOp::ReadFile,
            ViewOp::SetLanguage,
            ViewOp::SetMargin(false),
            ViewOp::SetWordWrap(true),
            ViewOp::SetReadOnly(true),
            ViewOp::CursorToEnd,
            ViewOp::ScrollToTail
        ]
    );
    assert_eq!((body_height(0), body_height(2), body_height(24)), (1, 1, 23));
    assert_eq!((page_height(1), page_height(2), page_height(23)), (1, 1, 22));
    assert!(reflow_on_ambiguous_width(2) && !reflow_on_ambiguous_width(1));
}
