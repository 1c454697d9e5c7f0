//! What the system tells of its windows and screens, and what it is asked for.
//!
//! Lengths are counted in thousandths of a logical px.

use crate::geometry::{Frame, Monitor, MonitorView, NotchMetrics, Rect, Scale};
use crate::text::{append_str, chars_of, owned, same_text, string_of};
use vstd::prelude::*;

verus! {

/// How far a window may miss the display's edges and still count as covering
/// it; some players are a px off.
pub const COVER_SLACK: i64 = 2_000;

/// How far a screen's frame may miss the monitor that it shows.
pub const SCREEN_SLACK: i64 = 1_000;

/// The mouse cursors that the webview asks for.
#[derive(Debug, Clone, Copy, PartialEq, Eq, Structural)]
pub enum CursorShape {
    PointingHand,
    OpenHand,
    ClosedHand,
    IBeam,
    Arrow,
}

/// A window as the system's list gives it.
#[derive(Debug, Clone, Copy, PartialEq, Eq, Structural)]
pub struct WindowInfo {
    /// Zero for an ordinary application window.
    pub layer: Option<i64>,
    /// The process that it belongs to.
    pub owner: Option<i64>,
    pub bounds: Option<Rect>,
}

/// A screen as the system describes it; its frames start at the bottom left.
#[derive(Debug, Clone, Copy, PartialEq, Eq, Structural)]
pub struct ScreenFrame {
    pub frame: Rect,
    /// What the menu bar and the Dock leave free.
    pub visible: Rect,
    /// How far the cutout reaches down; zero where there is none.
    pub top_inset: i64,
    /// The width that the cutout leaves free on its left.
    pub left_width: i64,
    /// The width that the cutout leaves free on its right.
    pub right_width: i64,
}

/// Why a folder was not opened in an editor.
#[derive(Debug)]
pub enum EditorError {
    Unknown(String),
    Failed { app: String, path: String },
}

/// The cursor that a name stands for.
pub open spec fn shape_of(name: Seq<char>) -> CursorShape {
    if name == "pointer"@ {
        CursorShape::PointingHand
    } else if name == "grab"@ {
        CursorShape::OpenHand
    } else if name == "grabbing"@ {
        CursorShape::ClosedHand
    } else if name == "text"@ {
        CursorShape::IBeam
    } else {
        CursorShape::Arrow
    }
}

/// The cursor that a name stands for; an unknown one is the arrow.
pub fn cursor_shape(name: &str) -> (res: CursorShape)
    ensures
        res == shape_of(name@),
{
    if same_text(name, "pointer") {
        CursorShape::PointingHand
    } else if same_text(name, "grab") {
        CursorShape::OpenHand
    } else if same_text(name, "grabbing") {
        CursorShape::ClosedHand
    } else if same_text(name, "text") {
        CursorShape::IBeam
    } else {
        CursorShape::Arrow
    }
}

/// The application behind an editor's name.
pub open spec fn editor_name(editor: Seq<char>) -> Option<Seq<char>> {
    if editor == "code"@ {
        Some("Visual Studio Code"@)
    } else if editor == "cursor"@ {
        Some("Cursor"@)
    } else {
        None
    }
}

/// The application behind an editor's name.
pub fn editor_app(editor: &str) -> (res: Result<String, EditorError>)
    ensures
        match res {
            Ok(app) => editor_name(editor@) == Some(app@),
            Err(error) => {
                &&& editor_name(editor@) is None
                &&& error matches EditorError::Unknown(name) && name@ == editor@
            },
        },
{
    if same_text(editor, "code") {
        Ok(owned("Visual Studio Code"))
    } else if same_text(editor, "cursor") {
        Ok(owned("Cursor"))
    } else {
        Err(EditorError::Unknown(owned(editor)))
    }
}

/// What comes of having the system open `path` in `app`.
pub fn editor_outcome(app: &str, path: &str, opened: bool) -> (res: Result<(), EditorError>)
    ensures
        match res {
            Ok(()) => opened,
            Err(error) => {
                &&& !opened
                &&& error matches EditorError::Failed { app: a, path: p } && a@ == app@ && p@
                    == path@
            },
        },
{
    if opened {
        Ok(())
    } else {
        Err(EditorError::Failed { app: owned(app), path: owned(path) })
    }
}

/// What the user is told.
pub open spec fn editor_message(error: EditorError) -> Seq<char> {
    match error {
        EditorError::Unknown(editor) => "unknown editor "@ + editor@,
        EditorError::Failed { app, path } => app@ + " could not open "@ + path@,
    }
}

impl EditorError {
    /// What the user is told.
    pub fn message(&self) -> (res: String)
        ensures
            res@ == editor_message(*self),
    {
        match self {
            EditorError::Unknown(editor) => {
                let mut text = chars_of("unknown editor ");
                append_str(&mut text, editor.as_str());
                string_of(text.as_slice())
            },
            EditorError::Failed { app, path } => {
                let mut text = chars_of(app.as_str());
                append_str(&mut text, " could not open ");
                append_str(&mut text, path.as_str());
                string_of(text.as_slice())
            },
        }
    }
}

/// Whether two lengths or positions are at most `slack` apart.
pub open spec fn near(a: int, b: int, slack: int) -> bool {
    -slack <= a - b <= slack
}

/// Whether a length in thousandths of a logical px is that of `px` on a monitor,
/// up to the slack.
pub open spec fn is_logical(length: int, px: int, scale: Scale, slack: int) -> bool {
    -slack * scale.num <= length * scale.num - px * scale.den * 1000 <= slack * scale.num
}

/// Whether a window lies over a monitor, up to the slack.
pub open spec fn covers(bounds: Rect, frame: Frame) -> bool {
    let slack = COVER_SLACK as int;
    &&& is_logical(bounds.x as int, frame.x as int, frame.scale, slack)
    &&& is_logical(bounds.y as int, frame.y as int, frame.scale, slack)
    &&& is_logical(bounds.width as int, frame.width as int, frame.scale, slack)
    &&& is_logical(bounds.height as int, frame.height as int, frame.scale, slack)
}

/// Whether a window is an ordinary one of another process that covers `frame`.
pub open spec fn is_cover(window: WindowInfo, frame: Frame, own_pid: u32) -> bool {
    &&& window.layer == Some(0i64)
    &&& window.owner != Some(own_pid as i64)
    &&& window.bounds matches Some(bounds) && covers(bounds, frame)
}

fn fits(length: i128, px: i64, scale: Scale, slack: i64) -> (res: bool)
    requires
        -0x2_0000_0000_0000_0000 <= length <= 0x2_0000_0000_0000_0000,
        -0x8000_0000 <= px <= 0xffff_ffff,
        0 <= slack <= 2_000,
    ensures
        res == is_logical(length as int, px as int, scale, slack as int),
{
    let num = scale.num as i128;
    let den = scale.den as i128;
    assert(-0x2_0000_0000_0000_0000 * 0xffff_ffff <= length * num <= 0x2_0000_0000_0000_0000
        * 0xffff_ffff) by (nonlinear_arith)
        requires
            -0x2_0000_0000_0000_0000 <= length <= 0x2_0000_0000_0000_0000,
            0 <= num <= 0xffff_ffff,
    ;
    assert(-0x8000_0000 * 0xffff_ffff <= px * den <= 0xffff_ffff * 0xffff_ffff)
        by (nonlinear_arith)
        requires
            -0x8000_0000 <= px <= 0xffff_ffff,
            0 <= den <= 0xffff_ffff,
    ;
    assert(0 <= slack * num <= 2_000 * 0xffff_ffff) by (nonlinear_arith)
        requires
            0 <= slack <= 2_000,
            0 <= num <= 0xffff_ffff,
    ;
    assert(-slack * num == -(slack * num)) by (nonlinear_arith);
    let gap: i128 = length * num - px as i128 * den * 1000;
    let limit: i128 = slack as i128 * num;
    -limit <= gap && gap <= limit
}

/// True while a window covers the whole of `frame`: full-screen video, a game, a
/// presentation. `frame` is logical, top-left based, the space the window list
/// reports bounds in.
///
/// The menu bar, the Dock, the wallpaper and the notch itself are no ordinary
/// windows, and do not count.
pub fn fullscreen_over(frame: Frame, windows: &Vec<WindowInfo>, own_pid: u32) -> (res: bool)
    ensures
        res == (frame.width > 0 && frame.height > 0 && exists|i: int|
            0 <= i < windows@.len() && is_cover(#[trigger] windows@[i], frame, own_pid)),
{
    if frame.width == 0 || frame.height == 0 {
        return false;
    }
    for i in 0..windows.len()
        invariant
            frame.width > 0,
            frame.height > 0,
            forall|j: int| 0 <= j < i ==> !is_cover(#[trigger] windows@[j], frame, own_pid),
    {
        let window = windows[i];
        let ordinary = match window.layer {
            Some(layer) => layer == 0,
            None => false,
        };
        let own = match window.owner {
            Some(owner) => owner == own_pid as i64,
            None => false,
        };
        if let Some(bounds) = window.bounds {
            let scale = frame.scale;
            if ordinary && !own && fits(bounds.x as i128, frame.x as i64, scale, COVER_SLACK)
                && fits(bounds.y as i128, frame.y as i64, scale, COVER_SLACK) && fits(
                bounds.width as i128,
                frame.width as i64,
                scale,
                COVER_SLACK,
            ) && fits(bounds.height as i128, frame.height as i64, scale, COVER_SLACK) {
                assert(is_cover(windows@[i as int], frame, own_pid));
                return true;
            }
        }
    }
    false
}

/// How far the top of a screen lies below that of the first one. Screens are
/// placed upward from the bottom of the first, monitors downward from its top.
pub open spec fn top_of(first: Rect, frame: Rect) -> int {
    first.height - (frame.y + frame.height)
}

/// Whether a screen shows a monitor: its frame is the monitor's, in place and
/// size, up to the slack.
pub open spec fn shows(first: Rect, frame: Rect, monitor: MonitorView) -> bool {
    let slack = SCREEN_SLACK as int;
    &&& is_logical(frame.x as int, monitor.x as int, monitor.scale, slack)
    &&& is_logical(top_of(first, frame), monitor.y as int, monitor.scale, slack)
    &&& is_logical(frame.width as int, monitor.width as int, monitor.scale, slack)
    &&& is_logical(frame.height as int, monitor.height as int, monitor.scale, slack)
}

/// The first screen that shows `monitor`, matched by its frame. The first of
/// `screens` is the one that the others are placed by.
pub fn matching_screen(monitor: &Monitor, screens: &Vec<ScreenFrame>) -> (res: Option<usize>)
    ensures
        match res {
            Some(i) => {
                &&& i < screens@.len()
                &&& shows(screens@[0].frame, screens@[i as int].frame, monitor@)
                &&& forall|j: int|
                    0 <= j < i ==> !shows(
                        screens@[0].frame,
                        #[trigger] screens@[j].frame,
                        monitor@,
                    )
            },
            None => forall|j: int|
                0 <= j < screens@.len() ==> !shows(
                    screens@[0].frame,
                    #[trigger] screens@[j].frame,
                    monitor@,
                ),
        },
{
    for i in 0..screens.len()
        invariant
            forall|j: int|
                0 <= j < i ==> !shows(
                    screens@[0].frame,
                    #[trigger] screens@[j].frame,
                    monitor@,
                ),
    {
        let first = screens[0].frame;
        let frame = screens[i].frame;
        let top: i128 = first.height as i128 - (frame.y as i128 + frame.height as i128);
        let scale = monitor.scale;
        if fits(frame.x as i128, monitor.x as i64, scale, SCREEN_SLACK) && fits(
            top,
            monitor.y as i64,
            scale,
            SCREEN_SLACK,
        ) && fits(frame.width as i128, monitor.width as i64, scale, SCREEN_SLACK) && fits(
            frame.height as i128,
            monitor.height as i64,
            scale,
            SCREEN_SLACK,
        ) {
            return Some(i);
        }
    }
    None
}

/// Two screens that show one monitor lie over each other: neither their left
/// nor their top edges are more than twice the slack apart. So of screens that
/// stand beside or above each other, only the right one is found.
pub proof fn law_shown_once(first: Rect, one: Rect, other: Rect, monitor: MonitorView)
    requires
        monitor.scale.num > 0,
        shows(first, one, monitor),
        shows(first, other, monitor),
    ensures
        near(one.x as int, other.x as int, 2 * SCREEN_SLACK),
        near(top_of(first, one), top_of(first, other), 2 * SCREEN_SLACK),
{
    lemma_near(one.x as int, other.x as int, monitor.x as int, monitor.scale);
    lemma_near(top_of(first, one), top_of(first, other), monitor.y as int, monitor.scale);
}

proof fn lemma_near(a: int, b: int, px: int, scale: Scale)
    requires
        scale.num > 0,
        is_logical(a, px, scale, SCREEN_SLACK as int),
        is_logical(b, px, scale, SCREEN_SLACK as int),
    ensures
        near(a, b, 2 * SCREEN_SLACK),
{
    let num = scale.num as int;
    let place = px * scale.den * 1000;
    assert(-2_000 <= a - b <= 2_000) by (nonlinear_arith)
        requires
            num > 0,
            -1_000 * num <= a * num - place <= 1_000 * num,
            -1_000 * num <= b * num - place <= 1_000 * num,
    ;
}

/// The width of a cutout: what the areas beside it leave of the screen, or a
/// usual one where that makes no sense.
pub open spec fn cutout_width(screen: ScreenFrame) -> int {
    let width = screen.frame.width - screen.left_width - screen.right_width;
    if 80_000 <= width < 400_000 {
        width
    } else {
        200_000
    }
}

/// The height of the menu bar: what is not visible at the top of the screen, or
/// nothing where that makes no sense.
pub open spec fn bar_height(screen: ScreenFrame) -> int {
    let height = (screen.frame.y + screen.frame.height) - (screen.visible.y
        + screen.visible.height);
    if 0 <= height < 60_000 {
        height
    } else {
        0
    }
}

/// The sizes of a screen's cutout and menu bar; none where the screen is not
/// known.
pub open spec fn metrics_of(screen: Option<ScreenFrame>) -> NotchMetrics {
    match screen {
        Some(screen) => if screen.top_inset > 0 {
            NotchMetrics {
                has_notch: true,
                notch_width: cutout_width(screen) as i64,
                notch_height: screen.top_inset,
                menu_bar_height: screen.top_inset,
            }
        } else {
            NotchMetrics {
                has_notch: false,
                notch_width: 0,
                notch_height: 0,
                menu_bar_height: bar_height(screen) as i64,
            }
        },
        None => NotchMetrics {
            has_notch: false,
            notch_width: 0,
            notch_height: 0,
            menu_bar_height: 0,
        },
    }
}

/// Reads notch and menu bar sizes from a screen.
pub fn notch_metrics(screen: Option<ScreenFrame>) -> (res: NotchMetrics)
    ensures
        res == metrics_of(screen),
{
    let screen = match screen {
        Some(screen) => screen,
        None => {
            return NotchMetrics::default();
        },
    };
    if screen.top_inset > 0 {
        let width: i128 = screen.frame.width as i128 - screen.left_width as i128
            - screen.right_width as i128;
        return NotchMetrics {
            has_notch: true,
            notch_width: if 80_000 <= width && width < 400_000 {
                width as i64
            } else {
                200_000
            },
            notch_height: screen.top_inset,
            menu_bar_height: screen.top_inset,
        };
    }
    let height: i128 = (screen.frame.y as i128 + screen.frame.height as i128) - (
    screen.visible.y as i128 + screen.visible.height as i128);
    let mut metrics = NotchMetrics::default();
    if 0 <= height && height < 60_000 {
        metrics.menu_bar_height = height as i64;
    }
    metrics
}

/// A window of the notch's own process never covers a display, nor does one
/// that is not ordinary.
pub proof fn law_own_windows_do_not_cover(window: WindowInfo, frame: Frame, own_pid: u32)
    requires
        window.owner == Some(own_pid as i64) || window.layer != Some(0i64),
    ensures
        !is_cover(window, frame, own_pid),
{
}

/// A window of another process that lies exactly over a display covers it.
pub proof fn law_exact_cover_counts(window: WindowInfo, frame: Frame, own_pid: u32)
    requires
        window.layer == Some(0i64),
        window.owner != Some(own_pid as i64),
        window.bounds matches Some(bounds) && {
            &&& bounds.x * frame.scale.num == frame.x * frame.scale.den * 1000
            &&& bounds.y * frame.scale.num == frame.y * frame.scale.den * 1000
            &&& bounds.width * frame.scale.num == frame.width * frame.scale.den * 1000
            &&& bounds.height * frame.scale.num == frame.height * frame.scale.den * 1000
        },
    ensures
        is_cover(window, frame, own_pid),
{
    let num = frame.scale.num;
    assert(-COVER_SLACK * num <= 0 <= COVER_SLACK * num) by (nonlinear_arith)
        requires
            num >= 0,
    ;
}

/// A screen has a cutout exactly when something is inset at its top; the
/// cutout's width is then from 80 to 400 px, and the menu bar is as high as the
/// cutout. Without one, the menu bar is less than 60 px high.
pub proof fn law_metrics_make_sense(screen: ScreenFrame)
    ensures
        metrics_of(Some(screen)).has_notch == (screen.top_inset > 0),
        metrics_of(Some(screen)).has_notch ==> {
            &&& 80_000 <= metrics_of(Some(screen)).notch_width < 400_000
            &&& metrics_of(Some(screen)).menu_bar_height == metrics_of(Some(screen)).notch_height
        },
        !metrics_of(Some(screen)).has_notch ==> {
            &&& 0 <= metrics_of(Some(screen)).menu_bar_height < 60_000
            &&& metrics_of(Some(screen)).notch_width == 0
        },
{
}

/// A window covers a display exactly when it is an ordinary one of another
/// process and each of its left edge, its top edge, its width and its height is
/// within two logical px of the display's.
pub proof fn law_cover_misses_no_edge(window: WindowInfo, frame: Frame, own_pid: u32)
    ensures
        is_cover(window, frame, own_pid) <==> {
            let num = frame.scale.num as int;
            let den = frame.scale.den as int;
            &&& window.layer == Some(0i64)
            &&& window.owner != Some(own_pid as i64)
            &&& window.bounds is Some
            &&& -2_000 * num <= window.bounds->0.x * num - frame.x * den * 1000 <= 2_000 * num
            &&& -2_000 * num <= window.bounds->0.y * num - frame.y * den * 1000 <= 2_000 * num
            &&& -2_000 * num <= window.bounds->0.width * num - frame.width * den * 1000 <= 2_000
                * num
            &&& -2_000 * num <= window.bounds->0.height * num - frame.height * den * 1000 <= 2_000
                * num
        },
{
}

/// On a display whose px are logical ones, a window that is off by more than
/// two px on any side, or in its size, does not cover it: one that leaves room
/// for the menu bar or the Dock is not full-screen.
pub proof fn law_zoomed_window_does_not_cover(
    window: WindowInfo,
    bounds: Rect,
    frame: Frame,
    own_pid: u32,
)
    requires
        window.bounds == Some(bounds),
        frame.scale.num == frame.scale.den,
        frame.scale.num > 0,
        ({
            let left = bounds.x - 1000 * frame.x;
            let top = bounds.y - 1000 * frame.y;
            let right = (bounds.x + bounds.width) - 1000 * (frame.x + frame.width);
            let bottom = (bounds.y + bounds.height) - 1000 * (frame.y + frame.height);
            ||| left < -2_000 || left > 2_000
            ||| top < -2_000 || top > 2_000
            ||| right < -4_000 || right > 4_000
            ||| bottom < -4_000 || bottom > 4_000
        }),
    ensures
        !is_cover(window, frame, own_pid),
{
    law_cover_misses_no_edge(window, frame, own_pid);
    if is_cover(window, frame, own_pid) {
        lemma_off_by(bounds.x as int, frame.x as int, frame.scale.num as int);
        lemma_off_by(bounds.y as int, frame.y as int, frame.scale.num as int);
        lemma_off_by(bounds.width as int, frame.width as int, frame.scale.num as int);
        lemma_off_by(bounds.height as int, frame.height as int, frame.scale.num as int);
    }
}

proof fn lemma_off_by(length: int, px: int, num: int)
    requires
        num > 0,
        -2_000 * num <= length * num - px * num * 1000 <= 2_000 * num,
    ensures
        -2_000 <= length - 1000 * px <= 2_000,
{
    let off = length - 1000 * px;
    assert(off * num == length * num - px * num * 1000) by (nonlinear_arith)
        requires
            off == length - 1000 * px,
    ;
    assert(-2_000 <= off <= 2_000) by (nonlinear_arith)
        requires
            num > 0,
            -2_000 * num <= off * num <= 2_000 * num,
    ;
}

/// Moving a window and the display by as many px, at whatever scale, does not
/// change whether the one covers the other.
pub proof fn law_cover_moves_with_the_display(
    window: WindowInfo,
    moved: WindowInfo,
    frame: Frame,
    other: Frame,
    own_pid: u32,
    right: int,
    down: int,
)
    requires
        window.bounds is Some && moved.bounds is Some,
        moved.layer == window.layer && moved.owner == window.owner,
        moved.bounds->0.width == window.bounds->0.width,
        moved.bounds->0.height == window.bounds->0.height,
        other.width == frame.width && other.height == frame.height && other.scale == frame.scale,
        other.x == frame.x + right,
        other.y == frame.y + down,
        (moved.bounds->0.x - window.bounds->0.x) * frame.scale.num == right * frame.scale.den * 1000,
        (moved.bounds->0.y - window.bounds->0.y) * frame.scale.num == down * frame.scale.den * 1000,
    ensures
        is_cover(moved, other, own_pid) == is_cover(window, frame, own_pid),
{
    let num = frame.scale.num as int;
    let den = frame.scale.den as int;
    lemma_moved(window.bounds->0.x as int, moved.bounds->0.x as int, frame.x as int, right, num, den);
    lemma_moved(window.bounds->0.y as int, moved.bounds->0.y as int, frame.y as int, down, num, den);
}

proof fn lemma_moved(a: int, b: int, px: int, by: int, num: int, den: int)
    requires
        (b - a) * num == by * den * 1000,
    ensures
        b * num - (px + by) * den * 1000 == a * num - px * den * 1000,
{
    assert(b * num - (px + by) * den * 1000 == a * num - px * den * 1000) by (nonlinear_arith)
        requires
            (b - a) * num == by * den * 1000,
    ;
}

/// A screen shows a monitor exactly when its left edge, its top edge, its width
/// and its height are within one logical px of the monitor's. Its top is where
/// the first screen's height leaves it, measured from the bottom up.
pub proof fn law_shown_monitor_is_in_place(first: Rect, frame: Rect, monitor: MonitorView)
    ensures
        shows(first, frame, monitor) <==> {
            let num = monitor.scale.num as int;
            let den = monitor.scale.den as int;
            let top = first.height - frame.y - frame.height;
            &&& -1_000 * num <= frame.x * num - monitor.x * den * 1000 <= 1_000 * num
            &&& -1_000 * num <= top * num - monitor.y * den * 1000 <= 1_000 * num
            &&& -1_000 * num <= frame.width * num - monitor.width * den * 1000 <= 1_000 * num
            &&& -1_000 * num <= frame.height * num - monitor.height * den * 1000 <= 1_000 * num
        },
{
}

/// The cutout is as high as what is inset, and as wide as what the areas beside
/// it leave, where that is from 80 to 400 px: the three fill the screen. Without
/// a cutout the menu bar and what is visible fill the screen to its top, where
/// that makes the menu bar less than 60 px high.
pub proof fn law_metrics_fill_the_screen(screen: ScreenFrame)
    ensures
        ({
            let metrics = metrics_of(Some(screen));
            let beside = screen.left_width + screen.right_width;
            let top = screen.frame.y + screen.frame.height;
            let visible = screen.visible.y + screen.visible.height;
            &&& screen.top_inset > 0 ==> metrics.notch_height == screen.top_inset
            &&& screen.top_inset > 0 ==> if 80_000 <= screen.frame.width - beside < 400_000 {
                beside + metrics.notch_width == screen.frame.width
            } else {
                metrics.notch_width == 200_000
            }
            &&& screen.top_inset <= 0 ==> metrics.notch_height == 0
            &&& screen.top_inset <= 0 ==> if visible <= top < visible + 60_000 {
                visible + metrics.menu_bar_height == top
            } else {
                metrics.menu_bar_height == 0
            }
        }),
        metrics_of(None) == (NotchMetrics {
            has_notch: false,
            notch_width: 0,
            notch_height: 0,
            menu_bar_height: 0,
        }),
{
}

/// Each cursor but the arrow has one name, and no name but those four gives
/// another than the arrow.
pub proof fn law_cursors_have_one_name(name: Seq<char>)
    ensures
        shape_of(name) == CursorShape::PointingHand <==> name == "pointer"@,
        shape_of(name) == CursorShape::OpenHand <==> name == "grab"@,
        shape_of(name) == CursorShape::ClosedHand <==> name == "grabbing"@,
        shape_of(name) == CursorShape::IBeam <==> name == "text"@,
{
    reveal_strlit("pointer");
    reveal_strlit("grab");
    reveal_strlit("grabbing");
    reveal_strlit("text");
    assert("pointer"@.len() == 7 && "grab"@.len() == 4 && "grabbing"@.len() == 8 && "text"@.len()
        == 4);
    assert("grab"@[0] != "text"@[0]);
}

/// No editor but the two that are known has an application.
pub proof fn law_editors_are_known_by_name(editor: Seq<char>)
    ensures
        editor_name(editor) == Some("Visual Studio Code"@) <==> editor == "code"@,
        editor_name(editor) == Some("Cursor"@) <==> editor == "cursor"@,
        editor_name(editor) is None <==> editor != "code"@ && editor != "cursor"@,
{
    reveal_strlit("code");
    reveal_strlit("cursor");
    reveal_strlit("Visual Studio Code");
    reveal_strlit("Cursor");
    assert("code"@.len() == 4 && "cursor"@.len() == 6);
    assert("Visual Studio Code"@.len() == 18 && "Cursor"@.len() == 6);
}

} // verus!
