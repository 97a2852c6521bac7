//! The snapshot view: a file as it was read, with a note when it changes on
//! disk.
use crate::header::{snapshot_header, snapshot_header_text};
use crate::viewer::{page_height, page_rows, CoordType, ViewAction, ViewOp, ViewerKey};
use crate::watch::FileStat;
use vstd::prelude::*;

verus! {

/// How often the file on disk is looked at, in nanoseconds.
pub const DISK_CHECK_INTERVAL_NS: u64 = 2_000_000_000;

/// The state of the snapshot view. Points in time are in nanoseconds.
#[derive(Debug)]
pub struct SnapshotView {
    pub wrap: bool,
    /// What the file system said of the file when it was read.
    pub captured: Option<FileStat>,
    pub file_changed: bool,
    pub last_check: u64,
    pub header: String,
}

/// Whether a file changed since it was read: something about it differs, or it
/// is gone. Of one that could not be looked at before, nothing is known.
pub open spec fn disk_changed(captured: Option<FileStat>, now: Option<FileStat>) -> bool {
    match (captured, now) {
        (Some(a), Some(b)) => a != b,
        (Some(_), None) => true,
        _ => false,
    }
}

/// What a key does, where it does not close the view or read the file again.
pub open spec fn snapshot_ops(key: ViewerKey, wrap: bool, body: int, visual_lines: int) -> Seq<
    ViewOp,
> {
    match key {
        ViewerKey::Copy => seq![ViewOp::Copy],
        ViewerKey::SelectAll => seq![ViewOp::SelectAll],
        ViewerKey::ToggleWrap => seq![ViewOp::SetWordWrap(!wrap), ViewOp::Rerender],
        ViewerKey::ScrollLines(d) => seq![ViewOp::ScrollY(d)],
        ViewerKey::ScrollPages(p) => seq![ViewOp::ScrollY((p * page_rows(body)) as CoordType)],
        ViewerKey::ScrollColumns(d) => seq![ViewOp::ScrollX(d)],
        ViewerKey::ToTop => seq![ViewOp::ScrollY((-visual_lines) as CoordType)],
        ViewerKey::ToBottom => seq![ViewOp::CursorToEnd, ViewOp::ScrollToTail],
        ViewerKey::Quit => seq![],
        ViewerKey::Reload => seq![],
    }
}

/// Whether the distances that a key moves by are numbers of the machine.
pub open spec fn key_fits(key: ViewerKey, body: int, visual_lines: int) -> bool {
    &&& key matches ViewerKey::ScrollPages(p) ==> isize::MIN <= p * page_rows(body) <= isize::MAX
    &&& visual_lines >= 0
}

/// What reads a file again in the view.
pub open spec fn reload(opened: bool, show_numbers: bool, wrap: bool) -> Seq<ViewOp> {
    if opened {
        seq![
            ViewOp::SetReadOnly(false),
            ViewOp::ReadFile,
            ViewOp::SetMargin(show_numbers),
            ViewOp::SetWordWrap(wrap),
            ViewOp::SetReadOnly(true),
        ]
    } else {
        Seq::empty()
    }
}

/// Whether it is time to look at the file on disk.
pub open spec fn look_due(last_check: int, now: int) -> bool {
    now - last_check >= DISK_CHECK_INTERVAL_NS
}

impl SnapshotView {
    /// Whether the header says what the view knows of the file on disk.
    pub open spec fn shows_its_state(self, label: Seq<char>) -> bool {
        exists|secs: u64| #[trigger]
            snapshot_header_text(label, secs as int, self.file_changed) == self.header@
    }

    /// The view of a file that was just read; `stat` is what the file system
    /// says of it, `secs` the time of day.
    pub fn new(label: &str, wrap: bool, stat: Option<FileStat>, now: u64, secs: u64) -> (v:
        SnapshotView)
        ensures
            v.wrap == wrap,
            v.captured == stat,
            !v.file_changed,
            v.last_check == now,
            v.header@ == snapshot_header_text(label@, secs as int, false),
            v.shows_its_state(label@),
    {
        SnapshotView {
            wrap,
            captured: stat,
            file_changed: false,
            last_check: now,
            header: snapshot_header(label, secs, false),
        }
    }

    /// What the view does about a key.
    pub fn key(&mut self, key: ViewerKey, body: CoordType, visual_lines: CoordType) -> (action:
        ViewAction)
        requires
            key_fits(key, body as int, visual_lines as int),
        ensures
            match key {
                ViewerKey::Quit => action is Quit,
                ViewerKey::Reload => action is Reload,
                _ => action matches ViewAction::Do(ops) && ops@ == snapshot_ops(
                    key,
                    old(self).wrap,
                    body as int,
                    visual_lines as int,
                ),
            },
            final(self).wrap == (if key == ViewerKey::ToggleWrap {
                !old(self).wrap
            } else {
                old(self).wrap
            }),
            final(self).captured == old(self).captured,
            final(self).file_changed == old(self).file_changed,
            final(self).last_check == old(self).last_check,
            final(self).header == old(self).header,
    {
        match key {
            ViewerKey::Quit => ViewAction::Quit,
            ViewerKey::Reload => ViewAction::Reload,
            ViewerKey::Copy => ViewAction::Do(vec![ViewOp::Copy]),
            ViewerKey::SelectAll => ViewAction::Do(vec![ViewOp::SelectAll]),
            ViewerKey::ToggleWrap => {
                self.wrap = !self.wrap;
                ViewAction::Do(vec![ViewOp::SetWordWrap(self.wrap), ViewOp::Rerender])
            },
            ViewerKey::ScrollLines(d) => ViewAction::Do(vec![ViewOp::ScrollY(d)]),
            ViewerKey::ScrollPages(p) => {
                let page = page_height(body);
                ViewAction::Do(vec![ViewOp::ScrollY(p * page)])
            },
            ViewerKey::ScrollColumns(d) => ViewAction::Do(vec![ViewOp::ScrollX(d)]),
            ViewerKey::ToTop => {
                let d = -visual_lines;
                ViewAction::Do(vec![ViewOp::ScrollY(d)])
            },
            ViewerKey::ToBottom => ViewAction::Do(
                vec![ViewOp::CursorToEnd, ViewOp::ScrollToTail],
            ),
        }
    }

    /// What reads the file again; nothing where it cannot be opened.
    pub fn reload_ops(&self, opened: bool, show_numbers: bool) -> (ops: Vec<ViewOp>)
        ensures
            ops@ == reload(opened, show_numbers, self.wrap),
            ops@ == (if opened {
                seq![
                    ViewOp::SetReadOnly(false),
                    ViewOp::ReadFile,
                    ViewOp::SetMargin(show_numbers),
                    ViewOp::SetWordWrap(self.wrap),
                    ViewOp::SetReadOnly(true),
                ]
            } else {
                Seq::<ViewOp>::empty()
            }),
    {
        if opened {
            vec![
                ViewOp::SetReadOnly(false),
                ViewOp::ReadFile,
                ViewOp::SetMargin(show_numbers),
                ViewOp::SetWordWrap(self.wrap),
                ViewOp::SetReadOnly(true),
            ]
        } else {
            Vec::new()
        }
    }

    /// The file was read again, and the screen is drawn again: the view starts
    /// over from what the file system says of the file now.
    pub fn reloaded(&mut self, label: &str, stat: Option<FileStat>, now: u64, secs: u64)
        ensures
            final(self).wrap == old(self).wrap,
            final(self).captured == stat,
            !final(self).file_changed,
            final(self).last_check == now,
            final(self).header@ == snapshot_header_text(label@, secs as int, false),
            final(self).shows_its_state(label@),
    {
        self.captured = stat;
        self.file_changed = false;
        self.last_check = now;
        self.header = snapshot_header(label, secs, false);
    }

    /// Whether it is time to look at the file on disk.
    pub fn check_due(&self, now: u64) -> (due: bool)
        ensures
            due == look_due(self.last_check as int, now as int),
            due == (now - self.last_check >= DISK_CHECK_INTERVAL_NS),
    {
        now >= self.last_check && now - self.last_check >= DISK_CHECK_INTERVAL_NS
    }

    /// The file on disk was looked at; returns whether the screen is drawn
    /// again, which is where the news changed.
    pub fn checked(&mut self, label: &str, stat: Option<FileStat>, now: u64, secs: u64) -> (rerender:
        bool)
        ensures
            final(self).wrap == old(self).wrap,
            final(self).captured == old(self).captured,
            final(self).last_check == now,
            final(self).file_changed == disk_changed(old(self).captured, stat),
            rerender == (final(self).file_changed != old(self).file_changed),
            final(self).header@ == (if rerender {
                snapshot_header_text(label@, secs as int, final(self).file_changed)
            } else {
                old(self).header@
            }),
            old(self).shows_its_state(label@) ==> final(self).shows_its_state(label@),
    {
        self.last_check = now;
        let changed = match (self.captured, stat) {
            (Some(a), Some(b)) => a != b,
            (Some(_), None) => true,
            _ => false,
        };
        if changed != self.file_changed {
            self.file_changed = changed;
            self.header = snapshot_header(label, secs, changed);
            assert(snapshot_header_text(label@, secs as int, self.file_changed) == self.header@);
            true
        } else {
            false
        }
    }
}

/// A file counts as changed exactly where it was looked at when it was read, and
/// is gone now or differs in its length, its identity or its time.
pub proof fn when_a_file_counts_as_changed(captured: Option<FileStat>, now: Option<FileStat>)
    ensures
        disk_changed(captured, now) <==> captured is Some && (now is None || now->0.size
            != captured->0.size || now->0.id != captured->0.id || now->0.mtime_ns
            != captured->0.mtime_ns),
{
}

/// What each key does in the snapshot view: a line key scrolls by its lines, a
/// page key by pages of one row less than the body has, a column key sideways;
/// the top is as far up as there are rows, the bottom is the end of the file;
/// wrapping turns to what it was not; and copying and selecting do just that.
pub proof fn what_each_key_does(wrap: bool, body: int, visual_lines: int, n: CoordType)
    requires
        body >= 2,
    ensures
        snapshot_ops(ViewerKey::ScrollLines(n), wrap, body, visual_lines) == seq![
            ViewOp::ScrollY(n),
        ],
        snapshot_ops(ViewerKey::ScrollPages(n), wrap, body, visual_lines) == seq![
            ViewOp::ScrollY((n * (body - 1)) as CoordType),
        ],
        snapshot_ops(ViewerKey::ScrollColumns(n), wrap, body, visual_lines) == seq![
            ViewOp::ScrollX(n),
        ],
        snapshot_ops(ViewerKey::ToTop, wrap, body, visual_lines) == seq![
            ViewOp::ScrollY((-visual_lines) as CoordType),
        ],
        snapshot_ops(ViewerKey::ToBottom, wrap, body, visual_lines) == seq![
            ViewOp::CursorToEnd,
            ViewOp::ScrollToTail,
        ],
        snapshot_ops(ViewerKey::ToggleWrap, wrap, body, visual_lines) == seq![
            ViewOp::SetWordWrap(!wrap),
            ViewOp::Rerender,
        ],
        snapshot_ops(ViewerKey::Copy, wrap, body, visual_lines) == seq![ViewOp::Copy],
        snapshot_ops(ViewerKey::SelectAll, wrap, body, visual_lines) == seq![ViewOp::SelectAll],
{
}

/// The file on disk is looked at again once two seconds have passed.
pub proof fn the_file_is_looked_at_every_two_seconds(last_check: int, now: int)
    ensures
        look_due(last_check, now) <==> now >= last_check + 2_000_000_000,
{
}

/// A reload reads the file and keeps the numbers and the wrapping as they are; one
/// that could not be opened leaves the buffer as it is.
pub proof fn a_reload_keeps_how_the_file_is_shown(show_numbers: bool, wrap: bool)
    ensures
        reload(true, show_numbers, wrap) == seq![
            ViewOp::SetReadOnly(false),
            ViewOp::ReadFile,
            ViewOp::SetMargin(show_numbers),
            ViewOp::SetWordWrap(wrap),
            ViewOp::SetReadOnly(true),
        ],
        reload(false, show_numbers, wrap).len() == 0,
{
}

} // verus!
