//! The follow view: a file that grows, with the view at its end until the
//! reader scrolls up, and again once they come back down.
//!
//! `pause_offset` is how many rows the view stands above the live bottom. The
//! view follows exactly where that is zero.
use crate::viewer::{load_ops, page_height, page_rows, CoordType, ViewAction, ViewOp, ViewerKey};
use crate::watch::DrainOutcome;
use crate::wheel::{ScrollDir, WheelAccel};
use vstd::prelude::*;

verus! {

/// How often the view wakes to draw, in milliseconds: thirty times a second, or
/// as often as the file is polled where that is more. The file is polled only
/// where that is due.
pub fn tick_interval(poll_ms: u64) -> (tick_ms: u64)
    ensures
        tick_ms == tick(poll_ms as int),
        tick_ms == (if poll_ms < 33 {
            poll_ms
        } else {
            33
        }),
{
    if poll_ms < 33 {
        poll_ms
    } else {
        33
    }
}

/// When a followed file was last polled, in nanoseconds.
#[derive(Debug, Clone, Copy, PartialEq, Eq, Structural)]
pub struct PollTimer {
    pub last_poll: u64,
}

impl PollTimer {
    /// Whether the file is to be polled: the interval has passed since it last
    /// was.
    pub open spec fn due(self, now: u64, poll_ms: u64) -> bool {
        now - self.last_poll >= poll_ms * 1_000_000
    }

    /// The timer of a file that was just read.
    pub fn new(now: u64) -> (timer: PollTimer)
        ensures
            timer.last_poll == now,
    {
        PollTimer { last_poll: now }
    }

    /// Whether the file is to be polled now; it then counts as polled.
    pub fn poll(&mut self, now: u64, poll_ms: u64) -> (due: bool)
        ensures
            due == old(self).due(now, poll_ms),
            final(self).last_poll == (if due {
                now
            } else {
                old(self).last_poll
            }),
    {
        let due = now >= self.last_poll && (now - self.last_poll) as u128 >= poll_ms as u128
            * 1_000_000;
        if due {
            self.last_poll = now;
        }
        due
    }
}

/// The times at which a file is polled, of the times at which the view wakes.
pub open spec fn polls(timer: PollTimer, wakes: Seq<u64>, poll_ms: u64) -> Seq<u64>
    decreases wakes.len(),
{
    if wakes.len() == 0 {
        Seq::empty()
    } else {
        let rest = wakes.drop_first();
        if timer.due(wakes[0], poll_ms) {
            seq![wakes[0]] + polls(PollTimer { last_poll: wakes[0] }, rest, poll_ms)
        } else {
            polls(timer, rest, poll_ms)
        }
    }
}

/// However often the view wakes, two polls are never closer together than the
/// interval that was asked for, nor is the first one to when the file was read.
pub proof fn polls_keep_their_distance(timer: PollTimer, wakes: Seq<u64>, poll_ms: u64, i: int)
    requires
        0 <= i < polls(timer, wakes, poll_ms).len(),
    ensures
        ({
            let p = polls(timer, wakes, poll_ms);
            let before = if i == 0 {
                timer.last_poll
            } else {
                p[i - 1]
            };
            p[i] - before >= poll_ms * 1_000_000
        }),
    decreases wakes.len(),
{
    let rest = wakes.drop_first();
    if timer.due(wakes[0], poll_ms) {
        if i > 0 {
            polls_keep_their_distance(PollTimer { last_poll: wakes[0] }, rest, poll_ms, i - 1);
        }
    } else {
        polls_keep_their_distance(timer, rest, poll_ms, i);
    }
}

/// What loads a file into the follow view for the first time, and shows its
/// end.
pub fn follow_load_ops(show_numbers: bool, wrap: bool) -> (ops: Vec<ViewOp>)
    ensures
        ops@ == first_load(show_numbers, wrap),
        ops@ == seq![
            ViewOp::ReadFile,
            ViewOp::SetLanguage,
            ViewOp::SetMargin(show_numbers),
            ViewOp::SetWordWrap(wrap),
            ViewOp::SetReadOnly(true),
            ViewOp::CursorToEnd,
            ViewOp::ScrollToTail,
        ],
{
    let mut ops = load_ops(show_numbers, wrap);
    ops.push(ViewOp::CursorToEnd);
    ops.push(ViewOp::ScrollToTail);
    ops
}

/// `n` moved into the range from `low` to `high`.
pub open spec fn clamped(n: int, low: int, high: int) -> int {
    if n < low {
        low
    } else if n > high {
        high
    } else {
        n
    }
}

/// Applies a scroll distance, positive towards the bottom, to the offset above
/// the bottom; returns the new offset and whether the view follows.
pub fn apply_scroll_pure(pause_offset: CoordType, delta: CoordType, max_offset: CoordType) -> (r: (
    CoordType,
    bool,
))
    requires
        isize::MIN <= pause_offset - delta <= isize::MAX,
        0 <= max_offset,
    ensures
        r.0 == clamped(pause_offset - delta, 0, max_offset as int),
        0 <= r.0 <= max_offset,
        r.1 == (r.0 == 0),
{
    let n = pause_offset - delta;
    let offset: CoordType = if n < 0 {
        0
    } else if n > max_offset {
        max_offset
    } else {
        n
    };
    (offset, offset == 0)
}

/// What to show again once a wrap toggle has taken effect.
#[derive(Debug, Clone, Copy, PartialEq, Eq, Structural)]
pub enum Rewrap {
    /// The end of the file.
    Tail,
    /// The line, counted from 1, that stood at the top, and the row that it
    /// stood at.
    Line { top_logical: CoordType, old_scroll_y: CoordType },
}

/// The state of the follow view.
#[derive(Debug, Clone, Copy, PartialEq, Eq, Structural)]
pub struct FollowView {
    pub following: bool,
    pub pause_offset: CoordType,
    pub wrap: bool,
    pub pending_rewrap: Option<Rewrap>,
}

/// The row at the top of the view.
pub open spec fn top_row(visual_lines: int, body: int, pause_offset: int) -> int {
    if visual_lines - body - pause_offset > 0 {
        visual_lines - body - pause_offset
    } else {
        0
    }
}

/// How far above the bottom the view can stand.
pub open spec fn offset_limit(visual_lines: int, body: int) -> int {
    top_row(visual_lines, body, 0)
}

/// How far above the bottom the view can stand.
pub fn max_offset(visual_lines: CoordType, body: CoordType) -> (limit: CoordType)
    requires
        isize::MIN <= visual_lines - body <= isize::MAX,
    ensures
        limit == offset_limit(visual_lines as int, body as int),
        limit >= 0,
{
    let n = visual_lines - body;
    if n > 0 {
        n
    } else {
        0
    }
}

/// How far down a key scrolls, where it scrolls by a distance.
pub open spec fn key_distance(key: ViewerKey, body: int, visual_lines: int) -> Option<int> {
    match key {
        ViewerKey::ScrollLines(d) => Some(d as int),
        ViewerKey::ScrollPages(p) => Some(p * page_rows(body)),
        ViewerKey::ToTop => Some(-visual_lines),
        _ => None,
    }
}

/// What a key does, where it does not close the view.
pub open spec fn follow_ops(key: ViewerKey, wrap: bool, body: int, visual_lines: int) -> Seq<
    ViewOp,
> {
    match key {
        ViewerKey::Copy => seq![ViewOp::Copy],
        ViewerKey::SelectAll => seq![ViewOp::SelectAll],
        ViewerKey::ToggleWrap => seq![ViewOp::SetWordWrap(!wrap), ViewOp::Rerender],
        ViewerKey::ScrollLines(d) => seq![ViewOp::ScrollY(d)],
        ViewerKey::ScrollPages(p) => seq![ViewOp::ScrollY((p * page_rows(body)) as CoordType)],
        ViewerKey::ScrollColumns(d) => seq![ViewOp::ScrollX(d)],
        ViewerKey::ToTop => seq![ViewOp::ScrollY((-visual_lines) as CoordType)],
        ViewerKey::ToBottom => seq![ViewOp::CursorToEnd, ViewOp::ScrollToTail],
        // The file is followed, so there is nothing to read again.
        ViewerKey::Reload => seq![],
        ViewerKey::Quit => seq![],
    }
}

/// What the view does once a tick was drained.
pub open spec fn drained_ops(following: bool, outcome: DrainOutcome) -> Seq<ViewOp> {
    if outcome == DrainOutcome::Idle {
        Seq::empty()
    } else if following {
        seq![ViewOp::CursorToEnd, ViewOp::ScrollToTail, ViewOp::Rerender]
    } else {
        seq![ViewOp::Rerender]
    }
}

/// How often the view wakes to draw, in milliseconds.
pub open spec fn tick(poll_ms: int) -> int {
    if poll_ms < 33 {
        poll_ms
    } else {
        33
    }
}

/// What loads a file into the view.
pub open spec fn first_load(show_numbers: bool, wrap: bool) -> Seq<ViewOp> {
    seq![
        ViewOp::ReadFile,
        ViewOp::SetLanguage,
        ViewOp::SetMargin(show_numbers),
        ViewOp::SetWordWrap(wrap),
        ViewOp::SetReadOnly(true),
        ViewOp::CursorToEnd,
        ViewOp::ScrollToTail,
    ]
}

/// What loads a file again that was replaced.
pub open spec fn load_again(opened: bool, show_numbers: bool) -> Seq<ViewOp> {
    if opened {
        seq![
            ViewOp::SetReadOnly(false),
            ViewOp::ReadFile,
            ViewOp::SetMargin(show_numbers),
            ViewOp::SetReadOnly(true),
        ]
    } else {
        Seq::empty()
    }
}

/// What appends new bytes.
pub open spec fn append(read: bool) -> Seq<ViewOp> {
    if read {
        seq![
            ViewOp::SetReadOnly(false),
            ViewOp::CursorToEnd,
            ViewOp::WriteRaw,
            ViewOp::SetReadOnly(true),
        ]
    } else {
        Seq::empty()
    }
}

impl FollowView {
    /// The view after a key. `top_logical` is the line at its top.
    pub open spec fn after_key(
        self,
        key: ViewerKey,
        body: int,
        visual_lines: int,
        top_logical: CoordType,
    ) -> FollowView {
        match key {
            ViewerKey::ToggleWrap => FollowView {
                wrap: !self.wrap,
                pending_rewrap: Some(
                    if self.following {
                        Rewrap::Tail
                    } else {
                        Rewrap::Line {
                            top_logical,
                            old_scroll_y: top_row(
                                visual_lines,
                                body,
                                self.pause_offset as int,
                            ) as CoordType,
                        }
                    },
                ),
                ..self
            },
            ViewerKey::ToBottom => self.at_tail(),
            _ => match key_distance(key, body, visual_lines) {
                Some(d) => self.scrolled(d, offset_limit(visual_lines, body)),
                None => self,
            },
        }
    }

    /// The view follows exactly where it stands at the bottom.
    pub open spec fn wf(self) -> bool {
        &&& self.pause_offset >= 0
        &&& self.following == (self.pause_offset == 0)
    }

    /// The view of a file that was just read, at its end.
    pub fn new(wrap: bool) -> (v: FollowView)
        ensures
            v.wf(),
            v == (FollowView { following: true, pause_offset: 0, wrap, pending_rewrap: None }),
    {
        FollowView { following: true, pause_offset: 0, wrap, pending_rewrap: None }
    }

    /// The view after scrolling by a distance.
    pub open spec fn scrolled(self, delta: int, limit: int) -> FollowView {
        let offset = clamped(self.pause_offset - delta, 0, limit);
        FollowView { following: offset == 0, pause_offset: offset as CoordType, ..self }
    }

    /// The view at the end of the file.
    pub open spec fn at_tail(self) -> FollowView {
        FollowView { following: true, pause_offset: 0, ..self }
    }

    /// Scrolls by a distance, positive towards the bottom.
    pub fn scroll(&mut self, delta: CoordType, limit: CoordType)
        requires
            isize::MIN <= old(self).pause_offset - delta <= isize::MAX,
            0 <= limit,
        ensures
            final(self).wf(),
            *final(self) == old(self).scrolled(delta as int, limit as int),
    {
        let (offset, following) = apply_scroll_pure(self.pause_offset, delta, limit);
        self.pause_offset = offset;
        self.following = following;
    }

    /// The wheel turned: the text area scrolls by `raw` on its own, and the
    /// view keeps in step with it.
    pub fn wheel(&mut self, accel: &mut WheelAccel, now: u64, raw: CoordType, limit: CoordType)
        requires
            old(self).wf(),
            old(accel).wf(),
            isize::MIN <= old(self).pause_offset - raw <= isize::MAX,
            0 <= limit,
        ensures
            final(self).wf(),
            final(accel).wf(),
            raw == 0 ==> *final(self) == *old(self) && *final(accel) == *old(accel),
            raw != 0 ==> *final(self) == old(self).scrolled(raw as int, limit as int)
                && *final(accel) == old(accel).turned(
                now,
                if raw < 0 {
                    ScrollDir::Up
                } else {
                    ScrollDir::Down
                },
            ),
    {
        if raw != 0 {
            let dir = if raw < 0 {
                ScrollDir::Up
            } else {
                ScrollDir::Down
            };
            let _ = accel.lines(now, dir);
            self.scroll(raw, limit);
        }
    }

    /// Takes the pending wrap toggle, at the start of a frame.
    pub fn take_rewrap(&mut self) -> (rewrap: Option<Rewrap>)
        ensures
            rewrap == old(self).pending_rewrap,
            *final(self) == (FollowView { pending_rewrap: None, ..*old(self) }),
    {
        let rewrap = self.pending_rewrap;
        self.pending_rewrap = None;
        rewrap
    }

    /// Shows the end of the file again, after a wrap toggle.
    pub fn reanchor_tail(&mut self) -> (ops: Vec<ViewOp>)
        ensures
            final(self).wf(),
            *final(self) == old(self).at_tail(),
            ops@ == seq![ViewOp::CursorToEnd, ViewOp::ScrollToTail, ViewOp::Rerender],
    {
        self.pause_offset = 0;
        self.following = true;
        vec![ViewOp::CursorToEnd, ViewOp::ScrollToTail, ViewOp::Rerender]
    }

    /// Finds the row that the line at the top has after a wrap toggle: moves
    /// the cursor there.
    pub fn anchor_ops(top_logical: CoordType) -> (ops: Vec<ViewOp>)
        requires
            top_logical > isize::MIN,
        ensures
            ops@ == seq![ViewOp::CursorToLine((top_logical - 1) as CoordType)],
    {
        let line = top_logical - 1;
        vec![ViewOp::CursorToLine(line)]
    }

    /// Shows the line again that stood at the top before a wrap toggle:
    /// `new_top` is the row that it has now, of `new_total`. The text area kept
    /// the row that it stood at, as far as there are rows.
    pub fn reanchor_line(
        &mut self,
        old_scroll_y: CoordType,
        new_top: CoordType,
        new_total: CoordType,
        body: CoordType,
    ) -> (ops: Vec<ViewOp>)
        requires
            0 <= new_top,
            0 <= new_total,
            isize::MIN <= new_total - body <= isize::MAX,
            isize::MIN <= new_total - body - new_top,
        ensures
            final(self).wf(),
            final(self).pause_offset == top_row(new_total as int, body as int, new_top as int),
            final(self).wrap == old(self).wrap,
            final(self).pending_rewrap == old(self).pending_rewrap,
            ops@ == seq![
                ViewOp::ScrollY((new_top - kept_row(old_scroll_y as int, new_total as int)) as CoordType),
                ViewOp::Rerender,
            ],
    {
        let last: CoordType = if new_total > 0 {
            new_total - 1
        } else {
            0
        };
        let kept: CoordType = if old_scroll_y < 0 {
            0
        } else if old_scroll_y > last {
            last
        } else {
            old_scroll_y
        };
        let n = new_total - body - new_top;
        self.pause_offset = if n > 0 {
            n
        } else {
            0
        };
        self.following = self.pause_offset == 0;
        let delta = new_top - kept;
        vec![ViewOp::ScrollY(delta), ViewOp::Rerender]
    }

    /// What the view does about a key. `top_logical` is the line, counted from
    /// 1, at the top of the view; it matters where wrapping is toggled while
    /// paused.
    pub fn key(
        &mut self,
        key: ViewerKey,
        body: CoordType,
        visual_lines: CoordType,
        top_logical: CoordType,
    ) -> (action: ViewAction)
        requires
            old(self).wf(),
            visual_lines >= 0,
            isize::MIN <= visual_lines - body <= isize::MAX,
            isize::MIN <= visual_lines - body - old(self).pause_offset,
            key_distance(key, body as int, visual_lines as int) matches Some(d) ==> isize::MIN <= d
                <= isize::MAX && isize::MIN <= old(self).pause_offset - d <= isize::MAX,
        ensures
            final(self).wf(),
            match key {
                ViewerKey::Quit => action is Quit,
                _ => action matches ViewAction::Do(ops) && ops@ == follow_ops(
                    key,
                    old(self).wrap,
                    body as int,
                    visual_lines as int,
                ),
            },
            *final(self) == match key {
                ViewerKey::ToggleWrap => (FollowView {
                    wrap: !old(self).wrap,
                    pending_rewrap: Some(
                        if old(self).following {
                            Rewrap::Tail
                        } else {
                            (Rewrap::Line {
                                top_logical,
                                old_scroll_y: top_row(
                                    visual_lines as int,
                                    body as int,
                                    old(self).pause_offset as int,
                                ) as CoordType,
                            })
                        },
                    ),
                    ..*old(self)
                }),
                ViewerKey::ToBottom => old(self).at_tail(),
                _ => match key_distance(key, body as int, visual_lines as int) {
                    Some(d) => old(self).scrolled(
                        d,
                        offset_limit(visual_lines as int, body as int),
                    ),
                    None => *old(self),
                },
            },
            *final(self) == old(self).after_key(
                key,
                body as int,
                visual_lines as int,
                top_logical,
            ),
    {
        let limit = max_offset(visual_lines, body);
        match key {
            ViewerKey::Quit => ViewAction::Quit,
            ViewerKey::Copy => ViewAction::Do(vec![ViewOp::Copy]),
            ViewerKey::SelectAll => ViewAction::Do(vec![ViewOp::SelectAll]),
            ViewerKey::Reload => ViewAction::Do(Vec::new()),
            ViewerKey::ToggleWrap => {
                self.wrap = !self.wrap;
                self.pending_rewrap = Some(
                    if self.following {
                        Rewrap::Tail
                    } else {
                        Rewrap::Line { top_logical, old_scroll_y: self.scroll_y(visual_lines, body) }
                    },
                );
                ViewAction::Do(vec![ViewOp::SetWordWrap(self.wrap), ViewOp::Rerender])
            },
            ViewerKey::ScrollLines(d) => {
                self.scroll(d, limit);
                ViewAction::Do(vec![ViewOp::ScrollY(d)])
            },
            ViewerKey::ScrollPages(p) => {
                let d = p * page_height(body);
                self.scroll(d, limit);
                ViewAction::Do(vec![ViewOp::ScrollY(d)])
            },
            ViewerKey::ScrollColumns(d) => ViewAction::Do(vec![ViewOp::ScrollX(d)]),
            ViewerKey::ToTop => {
                let d = -visual_lines;
                self.scroll(d, limit);
                ViewAction::Do(vec![ViewOp::ScrollY(d)])
            },
            ViewerKey::ToBottom => {
                self.pause_offset = 0;
                self.following = true;
                ViewAction::Do(vec![ViewOp::CursorToEnd, ViewOp::ScrollToTail])
            },
        }
    }

    /// What the view does once a tick was drained: where something came, it is
    /// drawn again, at the end of the file where it follows. While it is paused,
    /// what is in sight stays where it is.
    pub fn drained(&self, outcome: DrainOutcome) -> (ops: Vec<ViewOp>)
        ensures
            ops@ == drained_ops(self.following, outcome),
            ops@ == (if outcome == DrainOutcome::Idle {
                Seq::<ViewOp>::empty()
            } else if self.following {
                seq![ViewOp::CursorToEnd, ViewOp::ScrollToTail, ViewOp::Rerender]
            } else {
                seq![ViewOp::Rerender]
            }),
    {
        if outcome == DrainOutcome::Idle {
            Vec::new()
        } else if self.following {
            vec![ViewOp::CursorToEnd, ViewOp::ScrollToTail, ViewOp::Rerender]
        } else {
            vec![ViewOp::Rerender]
        }
    }

    /// The row at the top of the view.
    pub fn scroll_y(&self, visual_lines: CoordType, body: CoordType) -> (row: CoordType)
        requires
            isize::MIN <= visual_lines - body <= isize::MAX,
            isize::MIN <= visual_lines - body - self.pause_offset <= isize::MAX,
        ensures
            row == top_row(visual_lines as int, body as int, self.pause_offset as int),
    {
        let n = visual_lines - body - self.pause_offset;
        if n > 0 {
            n
        } else {
            0
        }
    }
}

/// The row that the text area keeps across a wrap toggle.
pub open spec fn kept_row(old_scroll_y: int, new_total: int) -> int {
    clamped(
        old_scroll_y,
        0,
        if new_total > 0 {
            new_total - 1
        } else {
            0
        },
    )
}

/// What loads a file again that was replaced while it was followed; nothing
/// where it cannot be opened.
pub fn rotate_ops(opened: bool, show_numbers: bool) -> (ops: Vec<ViewOp>)
    ensures
        ops@ == load_again(opened, show_numbers),
        ops@ == (if opened {
            seq![
                ViewOp::SetReadOnly(false),
                ViewOp::ReadFile,
                ViewOp::SetMargin(show_numbers),
                ViewOp::SetReadOnly(true),
            ]
        } else {
            Seq::<ViewOp>::empty()
        }),
{
    if opened {
        vec![
            ViewOp::SetReadOnly(false),
            ViewOp::ReadFile,
            ViewOp::SetMargin(show_numbers),
            ViewOp::SetReadOnly(true),
        ]
    } else {
        Vec::new()
    }
}

/// What appends new bytes at the end; nothing where they could not be read.
pub fn append_ops(read: bool) -> (ops: Vec<ViewOp>)
    ensures
        ops@ == append(read),
        ops@ == (if read {
            seq![
                ViewOp::SetReadOnly(false),
                ViewOp::CursorToEnd,
                ViewOp::WriteRaw,
                ViewOp::SetReadOnly(true),
            ]
        } else {
            Seq::<ViewOp>::empty()
        }),
{
    if read {
        vec![
            ViewOp::SetReadOnly(false),
            ViewOp::CursorToEnd,
            ViewOp::WriteRaw,
            ViewOp::SetReadOnly(true),
        ]
    } else {
        Vec::new()
    }
}

/// Scrolling down to the bottom, or past it, resumes following.
pub proof fn reaching_the_bottom_resumes_following(v: FollowView, delta: int, limit: int)
    requires
        v.wf(),
        0 <= limit <= isize::MAX,
        delta >= v.pause_offset,
    ensures
        v.scrolled(delta, limit) == v.at_tail(),
{
}

/// Scrolling up pauses, wherever there is anything above; it never goes past
/// the top.
pub proof fn scrolling_up_pauses(v: FollowView, delta: int, limit: int)
    requires
        v.wf(),
        0 < limit <= isize::MAX,
        delta < 0,
    ensures
        !v.scrolled(delta, limit).following,
        0 < v.scrolled(delta, limit).pause_offset <= limit,
{
}

/// A wrap toggle keeps the line at the top of a paused view there: from the row
/// that the text area kept, the view scrolls to the row that the line has now,
/// and its offset puts the top of the view at that row, where the rows below it
/// fill the screen.
pub proof fn a_wrap_toggle_keeps_the_top_line(
    old_scroll_y: int,
    new_top: int,
    new_total: int,
    body: int,
)
    requires
        0 <= new_top,
        new_top + body <= new_total,
    ensures
        kept_row(old_scroll_y, new_total) + (new_top - kept_row(old_scroll_y, new_total))
            == new_top,
        top_row(new_total, body, top_row(new_total, body, new_top)) == new_top,
{
}

/// A poll is due exactly where the whole interval has passed since the last one.
pub proof fn a_poll_is_due_after_the_interval(timer: PollTimer, now: u64, poll_ms: u64)
    ensures
        timer.due(now, poll_ms) <==> now >= timer.last_poll + 1_000_000 * poll_ms,
{
}

/// A view that wakes once the interval has passed polls then, and does not wait
/// for a later time.
pub proof fn a_poll_that_is_due_is_made(timer: PollTimer, wakes: Seq<u64>, poll_ms: u64, k: int)
    requires
        0 <= k < wakes.len(),
        wakes[k] >= timer.last_poll + 1_000_000 * poll_ms,
        forall|j: int| 0 <= j < k ==> #[trigger] wakes[j] < timer.last_poll + 1_000_000 * poll_ms,
    ensures
        polls(timer, wakes, poll_ms).len() > 0,
        polls(timer, wakes, poll_ms)[0] == wakes[k],
        polls(timer, wakes, poll_ms).drop_first() == polls(
            PollTimer { last_poll: wakes[k] },
            wakes.skip(k + 1),
            poll_ms,
        ),
    decreases wakes.len(),
{
    let rest = wakes.drop_first();
    if k > 0 {
        assert(wakes[0] < timer.last_poll + 1_000_000 * poll_ms);
        assert forall|j: int| 0 <= j < k - 1 implies #[trigger] rest[j] < timer.last_poll
            + 1_000_000 * poll_ms by {
            assert(rest[j] == wakes[j + 1]);
        }
        a_poll_that_is_due_is_made(timer, rest, poll_ms, k - 1);
        assert(rest.skip(k) =~= wakes.skip(k + 1));
    } else {
        assert(rest =~= wakes.skip(1));
        let after = polls(PollTimer { last_poll: wakes[0] }, rest, poll_ms);
        assert((seq![wakes[0]] + after).drop_first() =~= after);
    }
}

/// Scrolling moves the view by just the distance, as far as there is room: it
/// stops at the bottom and at the top. Nothing but its place changes, and it
/// follows exactly where it is at the bottom.
pub proof fn scrolling_moves_by_the_distance(v: FollowView, delta: int, limit: int)
    requires
        0 <= limit <= isize::MAX,
    ensures
        ({
            let s = v.scrolled(delta, limit);
            let to = v.pause_offset - delta;
            &&& 0 <= to <= limit ==> s.pause_offset == to
            &&& to < 0 ==> s.pause_offset == 0
            &&& to > limit ==> s.pause_offset == limit
            &&& s.following <==> s.pause_offset == 0
            &&& s.wrap == v.wrap
            &&& s.pending_rewrap == v.pending_rewrap
        }),
{
}

/// The end of the file is where the view follows; nothing else changes on the way
/// there.
pub proof fn at_the_end_of_the_file_the_view_follows(v: FollowView)
    ensures
        v.at_tail().following,
        v.at_tail().pause_offset == 0,
        v.at_tail().wrap == v.wrap,
        v.at_tail().pending_rewrap == v.pending_rewrap,
{
}

/// The rows above the view, those in it and those below it are all there are,
/// where they fill the screen; where they do not, the view stands at the first
/// row.
pub proof fn the_rows_above_in_and_below_the_view(visual_lines: int, body: int, pause_offset: int)
    ensures
        visual_lines >= body + pause_offset ==> top_row(visual_lines, body, pause_offset) + body
            + pause_offset == visual_lines,
        visual_lines < body + pause_offset ==> top_row(visual_lines, body, pause_offset) == 0,
        visual_lines >= body ==> offset_limit(visual_lines, body) == visual_lines - body,
        visual_lines < body ==> offset_limit(visual_lines, body) == 0,
{
}

/// How far each key scrolls: a line key by its lines, a page key by pages of one
/// row less than the body has, and the top key by all the rows there are; the
/// other keys do not scroll by a distance.
pub proof fn how_far_each_key_scrolls(key: ViewerKey, body: int, visual_lines: int)
    requires
        body >= 2,
    ensures
        match key {
            ViewerKey::ScrollLines(n) => key_distance(key, body, visual_lines) == Some(n as int),
            ViewerKey::ScrollPages(n) => key_distance(key, body, visual_lines) == Some(
                n * (body - 1),
            ),
            ViewerKey::ToTop => key_distance(key, body, visual_lines) == Some(-visual_lines),
            _ => key_distance(key, body, visual_lines) is None,
        },
{
}

/// The top key shows the first row, from wherever the view stands.
pub proof fn the_top_key_shows_the_first_row(v: FollowView, body: int, visual_lines: int)
    requires
        v.wf(),
        0 <= body <= visual_lines <= isize::MAX,
    ensures
        ({
            let d = key_distance(ViewerKey::ToTop, body, visual_lines)->0;
            let up = v.scrolled(d, offset_limit(visual_lines, body));
            top_row(visual_lines, body, up.pause_offset as int) == 0
        }),
{
}

/// What each key asks of the text area in the follow view: the same distance that
/// the view moves by; the end of the file for the bottom key; the other wrapping
/// for the wrap key; and nothing for the reload key, since a followed file is read
/// as it grows.
pub proof fn what_each_key_asks_for(wrap: bool, body: int, visual_lines: int, n: CoordType)
    requires
        body >= 2,
    ensures
        follow_ops(ViewerKey::ScrollLines(n), wrap, body, visual_lines) == seq![ViewOp::ScrollY(n)],
        follow_ops(ViewerKey::ScrollPages(n), wrap, body, visual_lines) == seq![
            ViewOp::ScrollY((n * (body - 1)) as CoordType),
        ],
        follow_ops(ViewerKey::ScrollColumns(n), wrap, body, visual_lines) == seq![
            ViewOp::ScrollX(n),
        ],
        follow_ops(ViewerKey::ToTop, wrap, body, visual_lines) == seq![
            ViewOp::ScrollY((-visual_lines) as CoordType),
        ],
        follow_ops(ViewerKey::ToBottom, wrap, body, visual_lines) == seq![
            ViewOp::CursorToEnd,
            ViewOp::ScrollToTail,
        ],
        follow_ops(ViewerKey::ToggleWrap, wrap, body, visual_lines) == seq![
            ViewOp::SetWordWrap(!wrap),
            ViewOp::Rerender,
        ],
        follow_ops(ViewerKey::Copy, wrap, body, visual_lines) == seq![ViewOp::Copy],
        follow_ops(ViewerKey::SelectAll, wrap, body, visual_lines) == seq![ViewOp::SelectAll],
        follow_ops(ViewerKey::Reload, wrap, body, visual_lines) == Seq::<ViewOp>::empty(),
{
}

/// The row that the text area keeps is the one it had, where there is such a row,
/// and otherwise the nearest one that there is.
pub proof fn the_row_that_is_kept(old_scroll_y: int, new_total: int)
    ensures
        0 <= old_scroll_y < new_total ==> kept_row(old_scroll_y, new_total) == old_scroll_y,
        old_scroll_y < 0 ==> kept_row(old_scroll_y, new_total) == 0,
        old_scroll_y >= new_total > 0 ==> kept_row(old_scroll_y, new_total) == new_total - 1,
        old_scroll_y >= 0 >= new_total ==> kept_row(old_scroll_y, new_total) == 0,
{
}

/// Whatever comes is drawn, and while the view follows, the end of the file is
/// shown with it; while it is paused nothing scrolls; and where nothing came,
/// nothing is done.
pub proof fn what_comes_is_shown(outcome: DrainOutcome)
    ensures
        drained_ops(true, DrainOutcome::Idle).len() == 0,
        drained_ops(false, DrainOutcome::Idle).len() == 0,
        outcome == DrainOutcome::Grew || outcome == DrainOutcome::Rotated ==> {
            &&& drained_ops(true, outcome) == seq![
                ViewOp::CursorToEnd,
                ViewOp::ScrollToTail,
                ViewOp::Rerender,
            ]
            &&& drained_ops(false, outcome) == seq![ViewOp::Rerender]
        },
{
}

/// The view wakes as often as it polls, and at least about thirty times a second.
pub proof fn the_view_wakes_often_enough(poll_ms: int)
    ensures
        tick(poll_ms) <= poll_ms,
        tick(poll_ms) <= 33,
        tick(poll_ms) == poll_ms || tick(poll_ms) == 33,
{
}

/// A file is read before anything is done with it, and cannot be written to once
/// it is shown. A first load wraps and numbers lines as asked for and shows the end
/// of the file; a later one keeps the wrapping; new bytes go behind the last
/// character; and what could not be opened or read leaves the buffer as it is.
pub proof fn a_buffer_is_filled_and_closed_again(show_numbers: bool, wrap: bool)
    ensures
        first_load(show_numbers, wrap) == seq![
            ViewOp::ReadFile,
            ViewOp::SetLanguage,
            ViewOp::SetMargin(show_numbers),
            ViewOp::SetWordWrap(wrap),
            ViewOp::SetReadOnly(true),
            ViewOp::CursorToEnd,
            ViewOp::ScrollToTail,
        ],
        load_again(true, show_numbers) == seq![
            ViewOp::SetReadOnly(false),
            ViewOp::ReadFile,
            ViewOp::SetMargin(show_numbers),
            ViewOp::SetReadOnly(true),
        ],
        append(true) == seq![
            ViewOp::SetReadOnly(false),
            ViewOp::CursorToEnd,
            ViewOp::WriteRaw,
            ViewOp::SetReadOnly(true),
        ],
        load_again(false, show_numbers).len() == 0,
        append(false).len() == 0,
{
}

/// What each key does to the view. The keys that scroll move it by their
/// distance, as far as there is room; the bottom key takes it to the end of the
/// file; the wrap key turns the wrapping and leaves the view where it is, to show
/// again the end of the file where it follows, and otherwise the line at its top;
/// and the other keys change nothing.
pub proof fn what_each_key_does_to_the_view(
    v: FollowView,
    key: ViewerKey,
    body: int,
    visual_lines: int,
    top_logical: CoordType,
)
    requires
        v.wf(),
        2 <= body <= visual_lines <= isize::MAX,
    ensures
        ({
            let w = v.after_key(key, body, visual_lines, top_logical);
            let room = visual_lines - body;
            let moved = |d: int|
                if v.pause_offset - d < 0 {
                    0
                } else if v.pause_offset - d > room {
                    room
                } else {
                    v.pause_offset - d
                };
            &&& w.wf()
            &&& match key {
                ViewerKey::ScrollLines(n) => w.pause_offset == moved(n as int) && w.wrap == v.wrap
                    && w.pending_rewrap == v.pending_rewrap,
                ViewerKey::ScrollPages(n) => w.pause_offset == moved(n * (body - 1)) && w.wrap
                    == v.wrap && w.pending_rewrap == v.pending_rewrap,
                ViewerKey::ToTop => w.pause_offset == room && w.wrap == v.wrap && w.pending_rewrap
                    == v.pending_rewrap,
                ViewerKey::ToBottom => w.pause_offset == 0 && w.following && w.wrap == v.wrap
                    && w.pending_rewrap == v.pending_rewrap,
                ViewerKey::ToggleWrap => {
                    &&& w.wrap == !v.wrap
                    &&& w.following == v.following && w.pause_offset == v.pause_offset
                    &&& v.following ==> w.pending_rewrap == Some(Rewrap::Tail)
                    &&& !v.following && v.pause_offset <= room ==> w.pending_rewrap == Some(
                        Rewrap::Line {
                            top_logical,
                            old_scroll_y: (room - v.pause_offset) as CoordType,
                        },
                    )
                },
                _ => w == v,
            }
        }),
{
}

} // verus!
