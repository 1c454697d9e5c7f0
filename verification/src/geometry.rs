//! Where the notch sits, what of its window takes the mouse, and what the
//! cursor does there.
//!
//! Lengths in logical px, and positions in the cursor's own coordinates, come
//! in thousandths. What has to be divided by a monitor's scale is kept as a
//! fraction.

use crate::lyrics::{copy_text, text_view};
use crate::text::{owned, same_text};
use vstd::arithmetic::div_mod::lemma_fundamental_div_mod;
use vstd::prelude::*;

verus! {

/// Fixed size of the transparent host window, in thousandths of a logical px.
/// The visible notch animates inside it; everything outside the hit rect is
/// click-through.
pub const WINDOW_WIDTH: i64 = 640_000;

pub const WINDOW_HEIGHT: i64 = 280_000;

/// How many px of a monitor a logical px is: `num / den`.
#[derive(Debug, Clone, Copy, PartialEq, Eq, Structural)]
pub struct Scale {
    pub num: u32,
    pub den: u32,
}

#[derive(Debug, PartialEq)]
pub struct ScreenInfo {
    pub platform: String,
    pub has_notch: bool,
    pub notch_width: i64,
    pub notch_height: i64,
    pub menu_bar_height: i64,
    pub display_name: String,
    /// Something is covering this display end to end. Screens with a cutout
    /// ignore it: the notch is drawn in space the video never gets anyway.
    pub fullscreen: bool,
}

/// The sizes of a screen's cutout and menu bar.
#[derive(Debug, Clone, Copy, PartialEq, Eq, Structural)]
pub struct NotchMetrics {
    pub has_notch: bool,
    pub notch_width: i64,
    pub notch_height: i64,
    pub menu_bar_height: i64,
}

/// Where the window's top-left corner sits in the cursor's coordinates, at `x`
/// and `y / parts`, and how many of those units a logical px is.
#[derive(Debug, Clone, Copy, PartialEq, Eq, Structural)]
pub struct Placement {
    pub x: i128,
    pub y: i128,
    pub parts: u32,
    pub scale: Scale,
}

#[derive(Debug, Clone, Copy, PartialEq, Eq, Structural)]
pub struct Rect {
    pub x: i64,
    pub y: i64,
    pub width: i64,
    pub height: i64,
}

/// A rectangle in whole px of the desktop.
#[derive(Debug, Clone, Copy, PartialEq, Eq, Structural)]
pub struct PixelRect {
    pub x: i32,
    pub y: i32,
    pub width: i32,
    pub height: i32,
}

/// A place within the window, at `x / parts` and `y / parts` thousandths of a
/// logical px.
#[derive(Debug, Clone, Copy, PartialEq, Eq, Structural)]
pub struct Point {
    pub x: i64,
    pub y: i64,
    pub parts: i64,
}

/// The frame of a monitor: what the px of its place and size come to once they
/// are divided by the scale.
#[derive(Debug, Clone, Copy, PartialEq, Eq, Structural)]
pub struct Frame {
    pub x: i32,
    pub y: i32,
    pub width: u32,
    pub height: u32,
    pub scale: Scale,
}

/// A monitor, placed and sized in its own px.
#[derive(Debug, PartialEq)]
pub struct Monitor {
    pub name: Option<String>,
    /// The name that the user knows it by, where it has one.
    pub label: Option<String>,
    pub x: i32,
    pub y: i32,
    pub width: u32,
    pub height: u32,
    pub scale: Scale,
}

/// The systems that place windows differently.
#[derive(Debug, Clone, Copy, PartialEq, Eq, Structural)]
pub enum Desktop {
    /// Windows and the cursor are placed in logical px.
    Logical,
    /// Windows and the cursor are placed in the monitors' px.
    Physical,
}

/// A frame at `x` and `y / parts` logical px; its size is in thousandths of one.
#[derive(Debug, Clone, Copy, PartialEq, Eq, Structural)]
pub struct LogicalFrame {
    pub x: i128,
    pub y: i128,
    pub parts: u32,
    pub width: i64,
    pub height: i64,
}

/// A frame in whole px of the desktop.
#[derive(Debug, Clone, Copy, PartialEq, Eq, Structural)]
pub struct PhysicalFrame {
    pub x: i32,
    pub y: i32,
    pub width: u32,
    pub height: u32,
}

/// Where the window has to go.
#[derive(Debug, Clone, Copy, PartialEq, Eq, Structural)]
pub enum WindowFrame {
    Logical(LogicalFrame),
    Physical(PhysicalFrame),
}

/// What a screen holds.
#[verifier::ext_equal]
pub struct ScreenView {
    pub platform: Seq<char>,
    pub has_notch: bool,
    pub notch_width: i64,
    pub notch_height: i64,
    pub menu_bar_height: i64,
    pub display_name: Seq<char>,
    pub fullscreen: bool,
}

/// What a monitor holds.
#[verifier::ext_equal]
pub struct MonitorView {
    pub name: Option<Seq<char>>,
    pub label: Option<Seq<char>>,
    pub x: i32,
    pub y: i32,
    pub width: u32,
    pub height: u32,
    pub scale: Scale,
}

/// By what monitors are told apart.
#[verifier::ext_equal]
pub struct Signature {
    pub name: Option<Seq<char>>,
    pub x: i32,
    pub y: i32,
    pub width: u32,
    pub height: u32,
    pub scale: Scale,
}

impl View for ScreenInfo {
    type V = ScreenView;

    open spec fn view(&self) -> ScreenView {
        ScreenView {
            platform: self.platform@,
            has_notch: self.has_notch,
            notch_width: self.notch_width,
            notch_height: self.notch_height,
            menu_bar_height: self.menu_bar_height,
            display_name: self.display_name@,
            fullscreen: self.fullscreen,
        }
    }
}

impl View for Monitor {
    type V = MonitorView;

    open spec fn view(&self) -> MonitorView {
        MonitorView {
            name: text_view(self.name),
            label: text_view(self.label),
            x: self.x,
            y: self.y,
            width: self.width,
            height: self.height,
            scale: self.scale,
        }
    }
}

impl MonitorView {
    pub open spec fn signature(self) -> Signature {
        Signature {
            name: self.name,
            x: self.x,
            y: self.y,
            width: self.width,
            height: self.height,
            scale: self.scale,
        }
    }
}

/// Whether two scales are the same number, however they are written.
pub open spec fn same_scale(a: Scale, b: Scale) -> bool {
    a.num * b.den == b.num * a.den
}

/// Whether two monitors cannot be told apart.
pub open spec fn same_signature(a: Signature, b: Signature) -> bool {
    &&& a.name == b.name
    &&& a.x == b.x && a.y == b.y
    &&& a.width == b.width && a.height == b.height
    &&& same_scale(a.scale, b.scale)
}

/// Whether two lists hold the same monitors, in the same places and order.
pub open spec fn same_displays(a: Seq<Signature>, b: Seq<Signature>) -> bool {
    &&& a.len() == b.len()
    &&& forall|i: int| 0 <= i < a.len() ==> same_signature(#[trigger] a[i], b[i])
}

/// The signatures of all monitors.
pub open spec fn monitor_signatures(monitors: Seq<Monitor>) -> Seq<Signature> {
    Seq::new(monitors.len(), |i: int| monitors[i]@.signature())
}

/// What stands before the window was placed.
pub open spec fn no_screen() -> ScreenView {
    ScreenView {
        platform: Seq::empty(),
        has_notch: false,
        notch_width: 0,
        notch_height: 0,
        menu_bar_height: 0,
        display_name: Seq::empty(),
        fullscreen: false,
    }
}

impl Default for ScreenInfo {
    fn default() -> (res: Self)
        ensures
            res@ == no_screen(),
    {
        let res = ScreenInfo {
            platform: String::new(),
            has_notch: false,
            notch_width: 0,
            notch_height: 0,
            menu_bar_height: 0,
            display_name: String::new(),
            fullscreen: false,
        };
        assert(res@ =~= no_screen());
        res
    }
}

impl Clone for ScreenInfo {
    fn clone(&self) -> (res: Self)
        ensures
            res@ == self@,
    {
        ScreenInfo {
            platform: self.platform.clone(),
            has_notch: self.has_notch,
            notch_width: self.notch_width,
            notch_height: self.notch_height,
            menu_bar_height: self.menu_bar_height,
            display_name: self.display_name.clone(),
            fullscreen: self.fullscreen,
        }
    }
}

impl Clone for Monitor {
    fn clone(&self) -> (res: Self)
        ensures
            res@ == self@,
    {
        Monitor {
            name: copy_text(&self.name),
            label: copy_text(&self.label),
            x: self.x,
            y: self.y,
            width: self.width,
            height: self.height,
            scale: self.scale,
        }
    }
}

impl Default for NotchMetrics {
    fn default() -> (res: Self)
        ensures
            res == (NotchMetrics {
                has_notch: false,
                notch_width: 0,
                notch_height: 0,
                menu_bar_height: 0,
            }),
    {
        NotchMetrics { has_notch: false, notch_width: 0, notch_height: 0, menu_bar_height: 0 }
    }
}

/// `n / d` to the nearest integer; halves go away from zero.
pub open spec fn rounded(n: int, d: int) -> int {
    if n >= 0 {
        (2 * n + d) / (2 * d)
    } else {
        -((-2 * n + d) / (2 * d))
    }
}

/// The nearest value that `i32` holds.
pub open spec fn as_i32(n: int) -> i32 {
    if n < i32::MIN {
        i32::MIN
    } else if n > i32::MAX {
        i32::MAX
    } else {
        n as i32
    }
}

/// The nearest value that `u32` holds.
pub open spec fn as_u32(n: int) -> u32 {
    if n < 0 {
        0
    } else if n > u32::MAX {
        u32::MAX
    } else {
        n as u32
    }
}

fn round(n: i128, d: i128) -> (res: i128)
    requires
        -0x1_0000_0000_0000_0000_0000_0000_0000 < n < 0x1_0000_0000_0000_0000_0000_0000_0000,
        0 < d < 0x1_0000_0000_0000,
    ensures
        res == rounded(n as int, d as int),
        n >= 0 ==> 0 <= res <= n + 1,
        n < 0 ==> n - 1 <= res <= 0,
{
    if n >= 0 {
        let res = (2 * n + d) / (2 * d);
        assert(0 <= (2 * n + d) / (2 * d as int) <= n + 1) by (nonlinear_arith)
            requires
                n >= 0,
                d > 0,
        ;
        res
    } else {
        let res = (-2 * n + d) / (2 * d);
        assert(0 <= (-2 * n + d) / (2 * d as int) <= -n + 1) by (nonlinear_arith)
            requires
                n < 0,
                d > 0,
        ;
        -res
    }
}

fn to_i32(n: i128) -> (res: i32)
    ensures
        res == as_i32(n as int),
{
    if n < i32::MIN as i128 {
        i32::MIN
    } else if n > i32::MAX as i128 {
        i32::MAX
    } else {
        n as i32
    }
}

fn to_u32(n: i128) -> (res: u32)
    ensures
        res == as_u32(n as int),
{
    if n < 0 {
        0
    } else if n > u32::MAX as i128 {
        u32::MAX
    } else {
        n as u32
    }
}

/// The scale of a monitor whose logical px are its own.
pub open spec fn plain_scale() -> Scale {
    Scale { num: 1, den: 1 }
}

/// Whether a scale is one: neither zero nor without a denominator.
pub open spec fn is_scale(scale: Scale) -> bool {
    scale.num > 0 && scale.den > 0
}

/// The logical, top-left based frame of a monitor.
pub open spec fn frame_of(monitor: MonitorView) -> Frame {
    Frame {
        x: monitor.x,
        y: monitor.y,
        width: monitor.width,
        height: monitor.height,
        scale: monitor.scale,
    }
}

/// The left edge of the window on a logical desktop: in the middle of the
/// monitor, in whole logical px.
pub open spec fn logical_left(monitor: MonitorView) -> int {
    let num = monitor.scale.num as int;
    let den = monitor.scale.den as int;
    rounded(2 * (monitor.x * den) + monitor.width * den - 640 * num, 2 * num)
}

/// The width of the window in px of the monitor.
pub open spec fn physical_width(monitor: MonitorView) -> int {
    rounded(640 * monitor.scale.num, monitor.scale.den as int)
}

/// The left edge of the window on a physical desktop: in the middle of the
/// monitor, in whole px of it.
pub open spec fn physical_left(monitor: MonitorView) -> int {
    rounded(2 * monitor.x + monitor.width - physical_width(monitor), 2)
}

/// Where the window goes: to the top of the monitor, in its middle.
pub open spec fn window_frame(desktop: Desktop, monitor: MonitorView) -> WindowFrame {
    match desktop {
        Desktop::Logical => WindowFrame::Logical(
            LogicalFrame {
                x: logical_left(monitor) as i128,
                y: (monitor.y * monitor.scale.den) as i128,
                parts: monitor.scale.num,
                width: WINDOW_WIDTH,
                height: WINDOW_HEIGHT,
            },
        ),
        Desktop::Physical => WindowFrame::Physical(
            PhysicalFrame {
                x: as_i32(physical_left(monitor)),
                y: monitor.y,
                width: as_u32(physical_width(monitor)),
                height: as_u32(rounded(280 * monitor.scale.num, monitor.scale.den as int)),
            },
        ),
    }
}

/// Where the window then sits in the cursor's coordinates.
pub open spec fn placement_of(desktop: Desktop, monitor: MonitorView) -> Placement {
    match desktop {
        Desktop::Logical => Placement {
            x: logical_left(monitor) as i128,
            y: (monitor.y * monitor.scale.den) as i128,
            parts: monitor.scale.num,
            scale: plain_scale(),
        },
        Desktop::Physical => Placement {
            x: physical_left(monitor) as i128,
            y: monitor.y as i128,
            parts: 1,
            scale: monitor.scale,
        },
    }
}

/// What the notch's geometry holds.
#[verifier::ext_equal]
pub struct GeometryView {
    pub placement: Option<Placement>,
    pub hidden: bool,
    /// The size of the interactive area, in thousandths of a logical px.
    pub hit_width: int,
    pub hit_height: int,
    pub screen: ScreenView,
    /// The monitors when the window was last placed.
    pub monitors: Seq<Signature>,
    /// Logical, top-left based frame of the monitor the notch sits on.
    pub monitor_rect: Option<Frame>,
}

/// The notch's geometry.
#[derive(Debug)]
pub struct Geometry {
    placement: Option<Placement>,
    hidden: bool,
    hit_width: i64,
    hit_height: i64,
    screen: ScreenInfo,
    monitors: Vec<Monitor>,
    monitor_rect: Option<Frame>,
}

impl View for Geometry {
    type V = GeometryView;

    closed spec fn view(&self) -> GeometryView {
        GeometryView {
            placement: self.placement,
            hidden: self.hidden,
            hit_width: self.hit_width as int,
            hit_height: self.hit_height as int,
            screen: self.screen@,
            monitors: monitor_signatures(self.monitors@),
            monitor_rect: self.monitor_rect,
        }
    }
}

/// What a placement on a monitor keeps: its scale is one, its fraction has a
/// denominator, at most one of the two is not plain, and it lies no further out
/// than monitors can.
pub open spec fn is_placement(placement: Placement) -> bool {
    &&& is_scale(placement.scale)
    &&& placement.parts > 0
    &&& placement.parts == 1 || placement.scale == plain_scale()
    &&& -0x8_0000_0000_0000_0000 <= placement.x <= 0x8_0000_0000_0000_0000
    &&& -0x1_0000_0000_0000_0000 <= placement.y <= 0x1_0000_0000_0000_0000
}

/// What every geometry keeps: the interactive area fits in the window, the
/// window lies on a monitor, and a screen with a cutout is not covered.
pub open spec fn valid(geometry: GeometryView) -> bool {
    &&& 0 <= geometry.hit_width <= WINDOW_WIDTH
    &&& 0 <= geometry.hit_height <= WINDOW_HEIGHT
    &&& geometry.placement matches Some(placement) ==> is_placement(placement)
    &&& geometry.screen.has_notch ==> !geometry.screen.fullscreen
}

/// `value` kept between zero and `most`.
pub open spec fn within(value: int, most: int) -> int {
    if value < 0 {
        0
    } else if value > most {
        most
    } else {
        value
    }
}

/// The placement of a window that is shown.
pub open spec fn shown_placement(geometry: GeometryView) -> Option<Placement> {
    if geometry.hidden {
        None
    } else {
        geometry.placement
    }
}

/// How far right of the window's corner a place is, in thousandths of the
/// cursor's units.
pub open spec fn right_of(placement: Placement, x: int) -> int {
    x - 1000 * placement.x
}

/// How far below the window's corner a place is, in parts of a thousandth of
/// the cursor's units.
pub open spec fn below(placement: Placement, y: int) -> int {
    y * placement.parts - 1000 * placement.y
}

/// The parts that a thousandth of a logical px has below the corner.
pub open spec fn parts_of(placement: Placement) -> int {
    placement.scale.num * placement.parts
}

/// Whether a place in the cursor's coordinates lies in the hit rect: `hit_width`
/// wide and centered in the window, and from one logical px above its top down
/// to `hit_height`.
pub open spec fn hits(geometry: GeometryView, placement: Placement, x: int, y: int) -> bool {
    let across = right_of(placement, x) * placement.scale.den;
    let down = below(placement, y) * placement.scale.den;
    &&& (WINDOW_WIDTH - geometry.hit_width) * placement.scale.num <= 2 * across
    &&& 2 * across <= (WINDOW_WIDTH + geometry.hit_width) * placement.scale.num
    &&& -1000 * parts_of(placement) <= down
    &&& down <= geometry.hit_height * parts_of(placement)
}

/// A place in the cursor's coordinates as one within the window, where it lies
/// in the hit rect.
pub open spec fn located(geometry: GeometryView, x: int, y: int) -> Option<Point> {
    match shown_placement(geometry) {
        Some(placement) => if hits(geometry, placement, x, y) {
            let down = below(placement, y) * placement.scale.den;
            Some(
                Point {
                    x: (right_of(placement, x) * placement.scale.den * placement.parts) as i64,
                    y: if down < 0 {
                        0
                    } else {
                        down as i64
                    },
                    parts: parts_of(placement) as i64,
                },
            )
        } else {
            None
        },
        None => None,
    }
}

/// The hit rect in the cursor's own coordinates, in whole units.
pub open spec fn hit_rect(geometry: GeometryView) -> Option<PixelRect> {
    match shown_placement(geometry) {
        Some(placement) => {
            let num = placement.scale.num as int;
            let den = placement.scale.den as int;
            Some(
                PixelRect {
                    x: as_i32(
                        rounded(
                            2000 * (placement.x * den) + (WINDOW_WIDTH - geometry.hit_width) * num,
                            2000 * den,
                        ),
                    ),
                    y: as_i32(rounded(placement.y as int, placement.parts as int)),
                    width: as_i32(rounded(geometry.hit_width * num, 1000 * den)),
                    height: as_i32(rounded(geometry.hit_height * num, 1000 * den)),
                },
            )
        },
        None => None,
    }
}

/// The screen with what is now known of it being covered. A cutout is out of
/// the video's way already, so it never collapses.
pub open spec fn covered_screen(screen: ScreenView, fullscreen: bool) -> ScreenView {
    ScreenView { fullscreen: fullscreen && !screen.has_notch, ..screen }
}

pub open spec fn screen_view(screen: Option<ScreenInfo>) -> Option<ScreenView> {
    match screen {
        Some(screen) => Some(screen@),
        None => None,
    }
}

/// The screen that a monitor gives.
pub open spec fn screen_of(
    platform: Seq<char>,
    monitor: MonitorView,
    metrics: NotchMetrics,
    covered: bool,
) -> ScreenView {
    ScreenView {
        platform,
        has_notch: metrics.has_notch,
        notch_width: metrics.notch_width,
        notch_height: metrics.notch_height,
        menu_bar_height: metrics.menu_bar_height,
        display_name: match monitor.label {
            Some(label) => label,
            None => Seq::empty(),
        },
        fullscreen: !metrics.has_notch && covered,
    }
}

/// What placing the window asks of the shell.
#[derive(Debug)]
pub struct PlaceStep {
    pub frame: WindowFrame,
    /// The interactive area to clip the window to, and the scale, once the
    /// notch has told its size.
    pub hit_region: Option<(i64, i64, Scale)>,
    /// The screen to announce, when it changed.
    pub announced: Option<ScreenInfo>,
}

fn same_option(a: &Option<String>, b: &Option<String>) -> (res: bool)
    ensures
        res == (text_view(*a) == text_view(*b)),
{
    match (a, b) {
        (Some(a), Some(b)) => same_text(a.as_str(), b.as_str()),
        (None, None) => true,
        _ => false,
    }
}

fn same_screen(a: &ScreenInfo, b: &ScreenInfo) -> (res: bool)
    ensures
        res == (a@ == b@),
{
    same_text(a.platform.as_str(), b.platform.as_str()) && a.has_notch == b.has_notch
        && a.notch_width == b.notch_width && a.notch_height == b.notch_height && a.menu_bar_height
        == b.menu_bar_height && same_text(a.display_name.as_str(), b.display_name.as_str())
        && a.fullscreen == b.fullscreen
}

fn same_monitor(a: &Monitor, b: &Monitor) -> (res: bool)
    ensures
        res == same_signature(a@.signature(), b@.signature()),
{
    proof {
        lemma_px(a.scale.num as int, b.scale.den as int);
        lemma_px(b.scale.num as int, a.scale.den as int);
    }
    same_option(&a.name, &b.name) && a.x == b.x && a.y == b.y && a.width == b.width && a.height
        == b.height && a.scale.num as i128 * b.scale.den as i128 == b.scale.num as i128
        * a.scale.den as i128
}

/// Whether two lists name the same monitors, in the same places and order.
pub fn same_monitors(a: &Vec<Monitor>, b: &Vec<Monitor>) -> (res: bool)
    ensures
        res == same_displays(monitor_signatures(a@), monitor_signatures(b@)),
{
    let ghost left = monitor_signatures(a@);
    let ghost right = monitor_signatures(b@);
    assert(left.len() == a@.len() && right.len() == b@.len());
    if a.len() != b.len() {
        return false;
    }
    for i in 0..a.len()
        invariant
            a@.len() == b@.len(),
            left == monitor_signatures(a@),
            right == monitor_signatures(b@),
            forall|j: int| 0 <= j < i ==> same_signature(#[trigger] left[j], right[j]),
    {
        if !same_monitor(&a[i], &b[i]) {
            assert(!same_signature(left[i as int], right[i as int]));
            return false;
        }
    }
    true
}

/// Whether a monitor has the label that the user chose.
pub open spec fn is_wanted(monitor: Monitor, display: Option<Seq<char>>) -> bool {
    display is Some && monitor@.label == display
}

/// The monitor that the notch attaches to: the first with the label that the
/// user chose, else the primary one, else the first.
pub open spec fn target(
    display: Option<Seq<char>>,
    monitors: Seq<Monitor>,
    primary: Option<Monitor>,
    res: Option<Monitor>,
) -> bool {
    if exists|i: int| 0 <= i < monitors.len() && is_wanted(#[trigger] monitors[i], display) {
        exists|i: int|
            {
                &&& 0 <= i < monitors.len()
                &&& is_wanted(#[trigger] monitors[i], display)
                &&& forall|j: int| 0 <= j < i ==> !is_wanted(#[trigger] monitors[j], display)
                &&& res is Some && res->0@ == monitors[i]@
            }
    } else if primary is Some {
        res is Some && res->0@ == primary->0@
    } else if monitors.len() > 0 {
        res is Some && res->0@ == monitors[0]@
    } else {
        res is None
    }
}

/// The monitor that the notch attaches to.
pub fn target_monitor(
    display: &Option<String>,
    monitors: &Vec<Monitor>,
    primary: Option<Monitor>,
) -> (res: Option<Monitor>)
    ensures
        target(text_view(*display), monitors@, primary, res),
{
    if display.is_some() {
        for i in 0..monitors.len()
            invariant
                display is Some,
                forall|j: int|
                    0 <= j < i ==> !is_wanted(#[trigger] monitors@[j], text_view(*display)),
        {
            if same_option(&monitors[i].label, display) {
                assert(is_wanted(monitors@[i as int], text_view(*display)));
                return Some(monitors[i].clone());
            }
        }
    }
    match primary {
        Some(monitor) => Some(monitor),
        None => {
            if monitors.len() > 0 {
                Some(monitors[0].clone())
            } else {
                None
            }
        },
    }
}

/// `length * num` for a length within the window.
fn scaled(length: i64, num: u32) -> (res: i128)
    requires
        0 <= length <= 1_280_000,
    ensures
        res == length * num,
        0 <= res <= 1_280_000 * 0xffff_ffff,
{
    assert(0 <= length * num <= 1_280_000 * 0xffff_ffff) by (nonlinear_arith)
        requires
            0 <= length <= 1_280_000,
            0 <= num <= 0xffff_ffff,
    ;
    length as i128 * num as i128
}

/// `value * by`, where both are bounded.
fn times(value: i128, by: u32) -> (res: i128)
    requires
        -0x4000_0000_0000_0000_0000 <= value <= 0x4000_0000_0000_0000_0000,
    ensures
        res == value * by,
        -0x4000_0000_0000_0000_0000_0000_0000 <= res <= 0x4000_0000_0000_0000_0000_0000_0000,
{
    assert(-0x4000_0000_0000_0000_0000 * 0x1_0000_0000 <= value * by <= 0x4000_0000_0000_0000_0000
        * 0x1_0000_0000) by (nonlinear_arith)
        requires
            -0x4000_0000_0000_0000_0000 <= value <= 0x4000_0000_0000_0000_0000,
            0 <= by <= 0x1_0000_0000,
    ;
    value * by as i128
}

fn clamp(value: i64, most: i64) -> (res: i64)
    requires
        most >= 0,
    ensures
        res == within(value as int, most as int),
{
    if value < 0 {
        0
    } else if value > most {
        most
    } else {
        value
    }
}

/// The scale of a monitor whose logical px are its own.
pub fn unscaled() -> (res: Scale)
    ensures
        res == plain_scale(),
{
    Scale { num: 1, den: 1 }
}

/// The logical frame of a monitor.
pub fn monitor_frame(monitor: &Monitor) -> (res: Frame)
    ensures
        res == frame_of(monitor@),
{
    Frame {
        x: monitor.x,
        y: monitor.y,
        width: monitor.width,
        height: monitor.height,
        scale: monitor.scale,
    }
}

/// Where the window goes on a monitor, and where it then sits in the cursor's
/// coordinates.
pub fn place_on(desktop: Desktop, monitor: &Monitor) -> (res: (WindowFrame, Placement))
    requires
        is_scale(monitor.scale),
    ensures
        res.0 == window_frame(desktop, monitor@),
        res.1 == placement_of(desktop, monitor@),
        is_placement(res.1),
{
    let num = monitor.scale.num;
    let den = monitor.scale.den;
    match desktop {
        Desktop::Logical => {
            let left = times(monitor.x as i128, den);
            let across = times(monitor.width as i128, den);
            let y = times(monitor.y as i128, den);
            proof {
                lemma_px(monitor.x as int, den as int);
                lemma_px(monitor.y as int, den as int);
                lemma_px(monitor.width as int, den as int);
            }
            let x = round(2 * left + across - 640 * num as i128, 2 * num as i128);
            let frame = LogicalFrame {
                x,
                y,
                parts: num,
                width: WINDOW_WIDTH,
                height: WINDOW_HEIGHT,
            };
            (WindowFrame::Logical(frame), Placement { x, y, parts: num, scale: unscaled() })
        },
        Desktop::Physical => {
            let width = round(640 * num as i128, den as i128);
            let x = round(2 * monitor.x as i128 + monitor.width as i128 - width, 2);
            let frame = PhysicalFrame {
                x: to_i32(x),
                y: monitor.y,
                width: to_u32(width),
                height: to_u32(round(280 * num as i128, den as i128)),
            };
            (
                WindowFrame::Physical(frame),
                Placement { x, y: monitor.y as i128, parts: 1, scale: monitor.scale },
            )
        },
    }
}

proof fn lemma_px(px: int, den: int)
    requires
        -0x8000_0000 <= px <= 0xffff_ffff,
        0 <= den <= 0xffff_ffff,
    ensures
        -0x8000_0000 * 0xffff_ffff <= px * den <= 0xffff_ffff * 0xffff_ffff,
{
    assert(-0x8000_0000 * 0xffff_ffff <= px * den <= 0xffff_ffff * 0xffff_ffff)
        by (nonlinear_arith)
        requires
            -0x8000_0000 <= px <= 0xffff_ffff,
            0 <= den <= 0xffff_ffff,
    ;
}

impl Default for Geometry {
    fn default() -> (res: Self)
        ensures
            res@ == (GeometryView {
                placement: None,
                hidden: false,
                hit_width: 0,
                hit_height: 0,
                screen: no_screen(),
                monitors: Seq::empty(),
                monitor_rect: None,
            }),
    {
        let res = Geometry {
            placement: None,
            hidden: false,
            hit_width: 0,
            hit_height: 0,
            screen: ScreenInfo::default(),
            monitors: Vec::new(),
            monitor_rect: None,
        };
        assert(res@.monitors =~= Seq::empty());
        res
    }
}

impl Geometry {
    #[verifier::type_invariant]
    spec fn stays_valid(self) -> bool {
        valid(self@)
    }

    pub fn screen(&self) -> (res: ScreenInfo)
        ensures
            res@ == self@.screen,
    {
        self.screen.clone()
    }

    /// The monitor frame to test for full-screen windows.
    pub fn monitor_rect(&self) -> (res: Option<Frame>)
        ensures
            res == self@.monitor_rect,
    {
        self.monitor_rect
    }

    pub fn set_hidden(&mut self, hidden: bool)
        ensures
            final(self)@ == (GeometryView { hidden, ..old(self)@ }),
    {
        proof {
            use_type_invariant(&*self);
        }
        self.hidden = hidden;
    }

    /// Records what the display is doing; hands back the screen to announce
    /// when that changed.
    pub fn set_fullscreen(&mut self, fullscreen: bool) -> (res: Option<ScreenInfo>)
        ensures
            final(self)@ == (GeometryView {
                screen: covered_screen(old(self)@.screen, fullscreen),
                ..old(self)@
            }),
            screen_view(res) == (if final(self)@.screen == old(self)@.screen {
                None
            } else {
                Some(final(self)@.screen)
            }),
    {
        proof {
            use_type_invariant(&*self);
        }
        let fullscreen = fullscreen && !self.screen.has_notch;
        if self.screen.fullscreen == fullscreen {
            return None;
        }
        let mut screen = self.screen.clone();
        screen.fullscreen = fullscreen;
        self.screen = screen.clone();
        Some(screen)
    }

    /// Records the interactive area, `width` x `height` and centered at the top
    /// edge of the window, and hands back the scale that the window stands at.
    pub fn store_hit_rect(&mut self, width: i64, height: i64) -> (res: Scale)
        ensures
            final(self)@ == (GeometryView {
                hit_width: within(width as int, WINDOW_WIDTH as int),
                hit_height: within(height as int, WINDOW_HEIGHT as int),
                ..old(self)@
            }),
            res == (match old(self)@.placement {
                Some(placement) => placement.scale,
                None => plain_scale(),
            }),
    {
        proof {
            use_type_invariant(&*self);
        }
        self.hit_width = clamp(width, WINDOW_WIDTH);
        self.hit_height = clamp(height, WINDOW_HEIGHT);
        match self.placement {
            Some(placement) => placement.scale,
            None => unscaled(),
        }
    }

    fn shown(&self) -> (res: Option<Placement>)
        ensures
            res == shown_placement(self@),
    {
        if self.hidden {
            None
        } else {
            self.placement
        }
    }

    /// The hit rect in the cursor's own coordinates: where a drop has to be
    /// caught on Windows.
    pub fn hit_rect_on_screen(&self) -> (res: Option<PixelRect>)
        ensures
            res == hit_rect(self@),
    {
        proof {
            use_type_invariant(self);
        }
        let placement = match self.shown() {
            Some(placement) => placement,
            None => {
                return None;
            },
        };
        let num = placement.scale.num;
        let den = placement.scale.den;
        let left = times(placement.x, den);
        let ghost far: int = 0x8_0000_0000_0000_0000;
        assert(-far * 0xffff_ffff <= placement.x * den <= far * 0xffff_ffff) by (nonlinear_arith)
            requires
                -far <= placement.x <= far,
                0 <= den <= 0xffff_ffff,
        ;
        let margin = scaled(WINDOW_WIDTH - self.hit_width, num);
        Some(
            PixelRect {
                x: to_i32(round(2000 * left + margin, 2000 * den as i128)),
                y: to_i32(round(placement.y, placement.parts as i128)),
                width: to_i32(round(scaled(self.hit_width, num), 1000 * den as i128)),
                height: to_i32(round(scaled(self.hit_height, num), 1000 * den as i128)),
            },
        )
    }

    /// Whether a drop has to be caught, and where: only while something is being
    /// dragged in over a window that is shown.
    pub fn catch_area(&self, dragging_in: bool) -> (res: (bool, PixelRect))
        ensures
            match hit_rect(self@) {
                Some(rect) => res == (dragging_in, rect),
                None => res == (false, PixelRect { x: 0, y: 0, width: 0, height: 0 }),
            },
    {
        match self.hit_rect_on_screen() {
            Some(rect) => (dragging_in, rect),
            None => (false, PixelRect { x: 0, y: 0, width: 0, height: 0 }),
        }
    }

    /// Converts a cursor position to window-local logical px, returning it only
    /// when it falls inside the hit rect.
    pub fn locate(&self, x: i64, y: i64) -> (res: Option<Point>)
        ensures
            res == located(self@, x as int, y as int),
    {
        proof {
            use_type_invariant(self);
        }
        let placement = match self.shown() {
            Some(placement) => placement,
            None => {
                return None;
            },
        };
        let num = placement.scale.num;
        let den = placement.scale.den;
        let parts = placement.parts;
        let across = times(x as i128 - 1000 * placement.x, den);
        if !(scaled(WINDOW_WIDTH - self.hit_width, num) <= 2 * across && 2 * across <= scaled(
            WINDOW_WIDTH + self.hit_width,
            num,
        )) {
            return None;
        }
        proof {
            lemma_whole_parts(placement, y as int);
        }
        let offset: i128 = times(y as i128, parts) - 1000 * placement.y;
        let down: i128 = if den == 1 {
            offset
        } else {
            times(offset, den)
        };
        let all: i128 = num as i128 * parts as i128;
        assert(all == parts_of(placement));
        let lift: i128 = 1000 * all;
        let depth = scaled(self.hit_height, all as u32);
        if !(-lift <= down && down <= depth) {
            return None;
        }
        proof {
            lemma_point_fits(self@, placement, across as int);
        }
        Some(
            Point {
                x: (across * parts as i128) as i64,
                y: if down < 0 {
                    0
                } else {
                    down as i64
                },
                parts: all as i64,
            },
        )
    }

    /// Whether displays were added, removed or rearranged since the window was
    /// placed.
    pub fn displays_changed(&self, monitors: &Vec<Monitor>) -> (res: bool)
        ensures
            res == !same_displays(self@.monitors, monitor_signatures(monitors@)),
    {
        !same_monitors(&self.monitors, monitors)
    }

    /// Moves the window to the top center of a monitor and refreshes the screen
    /// metrics.
    pub fn place_window(
        &mut self,
        desktop: Desktop,
        platform: &str,
        monitor: &Monitor,
        metrics: NotchMetrics,
        covered: bool,
        monitors: Vec<Monitor>,
    ) -> (res: PlaceStep)
        requires
            is_scale(monitor.scale),
        ensures
            final(self)@ == (GeometryView {
                placement: Some(placement_of(desktop, monitor@)),
                screen: screen_of(platform@, monitor@, metrics, covered),
                monitors: monitor_signatures(monitors@),
                monitor_rect: Some(frame_of(monitor@)),
                ..old(self)@
            }),
            res.frame == window_frame(desktop, monitor@),
            res.hit_region == (if old(self)@.hit_width > 0 {
                Some(
                    (
                        old(self)@.hit_width as i64,
                        old(self)@.hit_height as i64,
                        placement_of(desktop, monitor@).scale,
                    ),
                )
            } else {
                None
            }),
            screen_view(res.announced) == (if final(self)@.screen == old(self)@.screen {
                None
            } else {
                Some(final(self)@.screen)
            }),
    {
        proof {
            use_type_invariant(&*self);
        }
        let (frame, placement) = place_on(desktop, monitor);
        let screen = ScreenInfo {
            platform: owned(platform),
            has_notch: metrics.has_notch,
            notch_width: metrics.notch_width,
            notch_height: metrics.notch_height,
            menu_bar_height: metrics.menu_bar_height,
            display_name: match &monitor.label {
                Some(label) => label.clone(),
                None => String::new(),
            },
            fullscreen: !metrics.has_notch && covered,
        };
        assert(screen@ =~= screen_of(platform@, monitor@, metrics, covered));
        let hit_region = if self.hit_width > 0 {
            Some((self.hit_width, self.hit_height, placement.scale))
        } else {
            None
        };
        self.placement = Some(placement);
        self.monitors = monitors;
        self.monitor_rect = Some(monitor_frame(monitor));
        let announced = if same_screen(&self.screen, &screen) {
            None
        } else {
            Some(screen.clone())
        };
        self.screen = screen;
        PlaceStep { frame, hit_region, announced }
    }
}

/// Either the parts or the scale are plain, so their product is no larger than
/// one of them, and neither is what they are multiplied with.
proof fn lemma_whole_parts(placement: Placement, y: int)
    requires
        is_placement(placement),
        i64::MIN <= y <= i64::MAX,
    ensures
        1 <= parts_of(placement) <= 0xffff_ffff,
        placement.scale.den != 1 ==> -0x4000_0000_0000_0000_0000 <= below(placement, y)
            <= 0x4000_0000_0000_0000_0000,
        placement.parts == 1 ==> y * placement.parts == y,
        placement.scale.den == 1 ==> below(placement, y) * placement.scale.den == below(
            placement,
            y,
        ),
{
    let num = placement.scale.num as int;
    let parts = placement.parts as int;
    if parts == 1 {
        assert(num * parts == num) by (nonlinear_arith)
            requires
                parts == 1,
        ;
        assert(y * parts == y) by (nonlinear_arith)
            requires
                parts == 1,
        ;
    } else {
        assert(num * parts == parts) by (nonlinear_arith)
            requires
                num == 1,
        ;
    }
}

/// What lies in the hit rect is within the window.
proof fn lemma_point_fits(geometry: GeometryView, placement: Placement, across: int)
    requires
        valid(geometry),
        is_placement(placement),
        (WINDOW_WIDTH - geometry.hit_width) * placement.scale.num <= 2 * across,
        2 * across <= (WINDOW_WIDTH + geometry.hit_width) * placement.scale.num,
    ensures
        0 <= across * placement.parts <= 640_000 * parts_of(placement),
        0 <= geometry.hit_height * parts_of(placement) <= 640_000 * parts_of(placement),
{
    let num = placement.scale.num as int;
    let parts = placement.parts as int;
    let low = WINDOW_WIDTH - geometry.hit_width;
    let high = WINDOW_WIDTH + geometry.hit_width;
    let height = geometry.hit_height;
    assert(0 <= across <= 640_000 * num) by (nonlinear_arith)
        requires
            0 <= low,
            high <= 1_280_000,
            num > 0,
            low * num <= 2 * across <= high * num,
    ;
    assert(0 <= across * parts <= 640_000 * (num * parts)) by (nonlinear_arith)
        requires
            0 <= across <= 640_000 * num,
            parts > 0,
            num > 0,
    ;
    let all = num * parts;
    assert(all > 0) by (nonlinear_arith)
        requires
            num > 0,
            parts > 0,
            all == num * parts,
    ;
    assert(0 <= height * all <= 640_000 * all) by (nonlinear_arith)
        requires
            0 <= height <= 640_000,
            all > 0,
    ;
}

/// Follows the cursor from one look at it to the next.
#[derive(Debug)]
pub struct CursorTracker {
    inside: bool,
    was_down: bool,
    last_pointer: Option<Point>,
    /// A press that began outside the notch and is still held is how a drag
    /// from another window looks from here.
    press_began_outside: bool,
}

/// What a tracker holds.
#[verifier::ext_equal]
pub struct TrackerView {
    pub inside: bool,
    pub was_down: bool,
    pub last_pointer: Option<Point>,
    pub press_began_outside: bool,
}

/// What a look at the cursor gives to announce, in this order.
#[derive(Debug, Clone, Copy, PartialEq, Eq, Structural)]
pub struct CursorStep {
    /// Whether the cursor is over the notch, when that changed.
    pub hover: Option<bool>,
    /// Where it is, when it moved.
    pub pointer: Option<Point>,
    /// Whether a button went down outside the notch.
    pub outside_click: bool,
    /// Whether the button that was down was let go.
    pub release: bool,
    /// Whether something is being dragged in from elsewhere.
    pub dragging_in: bool,
}

impl View for CursorTracker {
    type V = TrackerView;

    closed spec fn view(&self) -> TrackerView {
        TrackerView {
            inside: self.inside,
            was_down: self.was_down,
            last_pointer: self.last_pointer,
            press_began_outside: self.press_began_outside,
        }
    }
}

/// A tracker that has not looked yet.
pub open spec fn untracked() -> TrackerView {
    TrackerView {
        inside: false,
        was_down: false,
        last_pointer: None,
        press_began_outside: false,
    }
}

/// Whether two points, where there are any, are one place, however they are
/// written.
pub open spec fn same_place(a: Option<Point>, b: Option<Point>) -> bool {
    match (a, b) {
        (Some(a), Some(b)) => a.x * b.parts == b.x * a.parts && a.y * b.parts == b.y * a.parts,
        (None, None) => true,
        _ => false,
    }
}

/// The tracker after a look: `pointer` is where the cursor is within the notch,
/// and `down` whether a button is held.
pub open spec fn looked(tracker: TrackerView, pointer: Option<Point>, down: bool) -> TrackerView {
    TrackerView {
        inside: pointer is Some,
        was_down: down,
        last_pointer: pointer,
        press_began_outside: down && if tracker.was_down {
            tracker.press_began_outside
        } else {
            pointer is None
        },
    }
}

/// What a look gives to announce.
pub open spec fn noticed(tracker: TrackerView, pointer: Option<Point>, down: bool) -> CursorStep {
    CursorStep {
        hover: if tracker.inside == pointer is Some {
            None
        } else {
            Some(pointer is Some)
        },
        pointer: if same_place(pointer, tracker.last_pointer) {
            None
        } else {
            pointer
        },
        outside_click: down && !tracker.was_down && pointer is None,
        release: tracker.was_down && !down,
        dragging_in: down && pointer is Some && looked(
            tracker,
            pointer,
            down,
        ).press_began_outside,
    }
}

impl Default for CursorTracker {
    fn default() -> (res: Self)
        ensures
            res@ == untracked(),
    {
        CursorTracker {
            inside: false,
            was_down: false,
            last_pointer: None,
            press_began_outside: false,
        }
    }
}

/// Whether `a / b` is `c / d`, written without division.
fn same_ratio(a: i64, b: i64, c: i64, d: i64) -> (res: bool)
    ensures
        res == (a * d == c * b),
{
    let ghost most: int = 0x8000_0000_0000_0000;
    assert(-most * most <= a * d <= most * most && -most * most <= c * b <= most * most)
        by (nonlinear_arith)
        requires
            -most <= a <= most,
            -most <= b <= most,
            -most <= c <= most,
            -most <= d <= most,
    ;
    a as i128 * d as i128 == c as i128 * b as i128
}

fn same_point(a: Option<Point>, b: Option<Point>) -> (res: bool)
    ensures
        res == same_place(a, b),
{
    match (a, b) {
        (Some(a), Some(b)) => same_ratio(a.x, a.parts, b.x, b.parts) && same_ratio(
            a.y,
            a.parts,
            b.y,
            b.parts,
        ),
        (None, None) => true,
        _ => false,
    }
}

impl CursorTracker {
    /// Takes one look at the cursor: `pointer` is where it is within the notch,
    /// and `down` whether a button is held.
    pub fn look(&mut self, pointer: Option<Point>, down: bool) -> (res: CursorStep)
        ensures
            final(self)@ == looked(old(self)@, pointer, down),
            res == noticed(old(self)@, pointer, down),
    {
        let inside = pointer.is_some();
        let hover = if inside != self.inside {
            self.inside = inside;
            Some(inside)
        } else {
            None
        };
        let moved = if same_point(pointer, self.last_pointer) {
            None
        } else {
            pointer
        };
        self.last_pointer = pointer;
        let pressed = down && !self.was_down;
        if pressed {
            self.press_began_outside = !inside;
        }
        let release = self.was_down && !down;
        if !down {
            self.press_began_outside = false;
        }
        self.was_down = down;
        CursorStep {
            hover,
            pointer: moved,
            outside_click: pressed && !inside,
            release,
            dragging_in: down && self.press_began_outside && inside,
        }
    }
}

proof fn lemma_rounded_size(n: int, d: int)
    requires
        d > 0,
    ensures
        n >= 0 ==> 0 <= rounded(n, d) <= n + 1,
        n < 0 ==> n - 1 <= rounded(n, d) <= 0,
{
    if n >= 0 {
        assert(0 <= (2 * n + d) / (2 * d) <= n + 1) by (nonlinear_arith)
            requires
                n >= 0,
                d > 0,
        ;
    } else {
        assert(0 <= (-2 * n + d) / (2 * d) <= -n + 1) by (nonlinear_arith)
            requires
                n < 0,
                d > 0,
        ;
    }
}

/// Wherever the window goes, it lies on a monitor.
proof fn lemma_placement(desktop: Desktop, monitor: MonitorView)
    requires
        is_scale(monitor.scale),
    ensures
        is_placement(placement_of(desktop, monitor)),
{
    let num = monitor.scale.num as int;
    let den = monitor.scale.den as int;
    lemma_px(monitor.x as int, den);
    lemma_px(monitor.y as int, den);
    lemma_px(monitor.width as int, den);
    lemma_rounded_size(2 * (monitor.x * den) + monitor.width * den - 640 * num, 2 * num);
    lemma_rounded_size(640 * num, den);
    lemma_rounded_size(2 * monitor.x + monitor.width - physical_width(monitor), 2);
}

/// A geometry is valid before the window is placed.
pub proof fn law_geometry_begins_valid()
    ensures
        valid(
            GeometryView {
                placement: None,
                hidden: false,
                hit_width: 0,
                hit_height: 0,
                screen: no_screen(),
                monitors: Seq::empty(),
                monitor_rect: None,
            },
        ),
{
}

/// Whatever the notch tells of its size, whatever covers the display and
/// wherever the window goes, a geometry stays valid.
pub proof fn law_geometry_stays_valid(
    geometry: GeometryView,
    width: int,
    height: int,
    fullscreen: bool,
    desktop: Desktop,
    platform: Seq<char>,
    monitor: MonitorView,
    metrics: NotchMetrics,
)
    requires
        valid(geometry),
        is_scale(monitor.scale),
    ensures
        valid(
            GeometryView {
                hit_width: within(width, WINDOW_WIDTH as int),
                hit_height: within(height, WINDOW_HEIGHT as int),
                ..geometry
            },
        ),
        valid(GeometryView { screen: covered_screen(geometry.screen, fullscreen), ..geometry }),
        valid(
            GeometryView {
                placement: Some(placement_of(desktop, monitor)),
                screen: screen_of(platform, monitor, metrics, fullscreen),
                ..geometry
            },
        ),
{
    lemma_placement(desktop, monitor);
}

/// A window that is hidden, or not placed yet, takes the mouse nowhere.
pub proof fn law_hidden_notch_takes_no_mouse(geometry: GeometryView, x: int, y: int)
    requires
        geometry.hidden || geometry.placement is None,
    ensures
        located(geometry, x, y) is None,
        hit_rect(geometry) is None,
{
}

/// A screen with a cutout never counts as covered, whatever covers it, and a
/// screen without one counts as covered exactly while something covers it.
pub proof fn law_cutout_is_never_covered(screen: ScreenView, fullscreen: bool)
    ensures
        covered_screen(screen, fullscreen).fullscreen == (fullscreen && !screen.has_notch),
        covered_screen(covered_screen(screen, fullscreen), fullscreen) == covered_screen(
            screen,
            fullscreen,
        ),
{
}

/// A located point lies within the hit rect: across the window no further from
/// its middle than half the rect's width, and down it no further than the
/// rect's height.
pub proof fn law_located_points_lie_in_the_hit_rect(geometry: GeometryView, x: int, y: int)
    requires
        valid(geometry),
        located(geometry, x, y) is Some,
        i64::MIN <= y <= i64::MAX,
    ensures
        ({
            let point = located(geometry, x, y)->0;
            &&& point.parts > 0
            &&& (WINDOW_WIDTH - geometry.hit_width) * point.parts <= 2 * point.x <= (WINDOW_WIDTH
                + geometry.hit_width) * point.parts
            &&& 0 <= point.y <= geometry.hit_height * point.parts
        }),
{
    let placement = shown_placement(geometry)->0;
    let num = placement.scale.num as int;
    let parts = placement.parts as int;
    let across = right_of(placement, x) * placement.scale.den;
    let low = WINDOW_WIDTH - geometry.hit_width;
    let high = WINDOW_WIDTH + geometry.hit_width;
    lemma_whole_parts(placement, y);
    lemma_point_fits(geometry, placement, across);
    assert(low * (num * parts) <= 2 * (across * parts) <= high * (num * parts))
        by (nonlinear_arith)
        requires
            parts > 0,
            low * num <= 2 * across <= high * num,
    ;
}

/// At the plain scale, on a monitor that is not scaled either, a point is where
/// the cursor is, measured from the window's corner.
pub proof fn law_plain_scale_keeps_distances(geometry: GeometryView, x: int, y: int)
    requires
        valid(geometry),
        located(geometry, x, y) is Some,
        i64::MIN <= y <= i64::MAX,
        geometry.placement->0.scale == plain_scale(),
        geometry.placement->0.parts == 1,
    ensures
        located(geometry, x, y)->0.parts == 1,
        located(geometry, x, y)->0.x == x - 1000 * geometry.placement->0.x,
        y >= 1000 * geometry.placement->0.y ==> located(geometry, x, y)->0.y == y - 1000
            * geometry.placement->0.y,
{
    let placement = geometry.placement->0;
    let across = right_of(placement, x) * placement.scale.den;
    lemma_whole_parts(placement, y);
    lemma_point_fits(geometry, placement, across);
    assert(across == right_of(placement, x));
    assert(across * placement.parts == across);
}

proof fn lemma_rounded(n: int, d: int)
    requires
        d > 0,
    ensures
        -d <= 2 * (d * rounded(n, d)) - 2 * n <= d,
{
    if n >= 0 {
        lemma_fundamental_div_mod(2 * n + d, 2 * d);
        let q = (2 * n + d) / (2 * d);
        assert((2 * d) * q == 2 * (d * q)) by (nonlinear_arith);
    } else {
        lemma_fundamental_div_mod(-2 * n + d, 2 * d);
        let q = (-2 * n + d) / (2 * d);
        assert((2 * d) * q == 2 * (d * q)) by (nonlinear_arith);
        assert(d * (-q) == -(d * q)) by (nonlinear_arith);
    }
}

/// The window is in the middle of its monitor, up to a px on either side: of
/// the monitor's own px, or of logical ones.
pub proof fn law_window_is_centered(monitor: MonitorView)
    requires
        is_scale(monitor.scale),
    ensures
        ({
            let left = physical_left(monitor) - monitor.x;
            let right = monitor.width - left - physical_width(monitor);
            -1 <= left - right <= 1
        }),
        ({
            let num = monitor.scale.num as int;
            let den = monitor.scale.den as int;
            let left = logical_left(monitor) * num - monitor.x * den;
            let right = monitor.width * den - left - 640 * num;
            -num <= left - right <= num
        }),
{
    let num = monitor.scale.num as int;
    let den = monitor.scale.den as int;
    lemma_rounded(2 * monitor.x + monitor.width - physical_width(monitor), 2);
    let n = 2 * (monitor.x * den) + monitor.width * den - 640 * num;
    lemma_rounded(n, 2 * num);
    let x = rounded(n, 2 * num);
    assert((2 * num) * x == 2 * (x * num)) by (nonlinear_arith);
}

/// Hovering is announced when the cursor enters or leaves, and at no other
/// time: two looks at one place announce nothing the second time.
pub proof fn law_resting_cursor_is_silent(tracker: TrackerView, pointer: Option<Point>, down: bool)
    ensures
        ({
            let step = noticed(looked(tracker, pointer, down), pointer, down);
            &&& step.hover is None
            &&& step.pointer is None
            &&& !step.outside_click
            &&& !step.release
        }),
{
}

/// A click counts as outside only where the cursor is not over the notch, and
/// never together with a release or a drag into the notch.
pub proof fn law_outside_click_is_outside(tracker: TrackerView, pointer: Option<Point>, down: bool)
    ensures
        noticed(tracker, pointer, down).outside_click ==> {
            &&& pointer is None
            &&& !noticed(tracker, pointer, down).release
            &&& !noticed(tracker, pointer, down).dragging_in
            &&& noticed(tracker, pointer, down).pointer is None
        },
{
}

/// A press that began over the notch is no drag into it, however it goes on;
/// one that began outside is one for as long as it is held over the notch.
pub proof fn law_drag_in_begins_outside(
    tracker: TrackerView,
    first: Option<Point>,
    later: Option<Point>,
)
    requires
        !tracker.was_down,
    ensures
        noticed(looked(tracker, first, true), later, true).dragging_in == (first is None && later is Some),
{
}

/// The cursor is found exactly where the notch is: in a window that is placed and
/// not hidden, no further from the window's middle than half the notch's width,
/// and from one logical px above the window's top down to the notch's height. All
/// of it is measured in logical px, of which the cursor's units make
/// `num / den`.
pub proof fn law_cursor_is_found_where_the_notch_is(geometry: GeometryView, x: int, y: int)
    ensures
        located(geometry, x, y) is Some <==> {
            let at = geometry.placement->0;
            let num = at.scale.num as int;
            let den = at.scale.den as int;
            let across = (x - 1000 * at.x) * den;
            let down = (y * at.parts - 1000 * at.y) * den;
            &&& !geometry.hidden
            &&& geometry.placement is Some
            &&& (640_000 - geometry.hit_width) * num <= 2 * across
            &&& 2 * across <= (640_000 + geometry.hit_width) * num
            &&& -1000 * (num * at.parts) <= down
            &&& down <= geometry.hit_height * (num * at.parts)
        },
{
}

/// A located point is as far from the window's corner, in logical px, as the
/// cursor is in its own units, at the scale of the window; above the window it is
/// at its top edge.
pub proof fn law_located_points_are_to_scale(geometry: GeometryView, x: int, y: int)
    requires
        valid(geometry),
        located(geometry, x, y) is Some,
        i64::MIN <= y <= i64::MAX,
    ensures
        ({
            let at = geometry.placement->0;
            let point = located(geometry, x, y)->0;
            let across = (x - 1000 * at.x) * at.scale.den;
            let down = (y * at.parts - 1000 * at.y) * at.scale.den;
            &&& point.parts == at.scale.num * at.parts
            &&& point.x == across * at.parts
            &&& down >= 0 ==> point.y == down
            &&& down < 0 ==> point.y == 0
        }),
{
    let at = geometry.placement->0;
    let across = right_of(at, x) * at.scale.den;
    lemma_whole_parts(at, y);
    lemma_point_fits(geometry, at, across);
}

/// The hit rect on the screen is the one that the cursor is found in, to the
/// nearest px, wherever the desktop can tell it.
pub proof fn law_hit_rect_is_where_the_cursor_is_found(geometry: GeometryView)
    requires
        valid(geometry),
        hit_rect(geometry) is Some,
    ensures
        ({
            let at = geometry.placement->0;
            let rect = hit_rect(geometry)->0;
            let num = at.scale.num as int;
            let den = at.scale.den as int;
            let left = 2000 * (at.x * den) + (640_000 - geometry.hit_width) * num;
            let width = geometry.hit_width * num;
            let height = geometry.hit_height * num;
            &&& !geometry.hidden
            &&& i32::MIN < rect.x < i32::MAX ==> -2000 * den <= 2 * ((2000 * den) * rect.x) - 2
                * left <= 2000 * den
            &&& i32::MIN < rect.y < i32::MAX ==> -at.parts <= 2 * (at.parts * rect.y) - 2 * at.y
                <= at.parts
            &&& rect.width < i32::MAX ==> -1000 * den <= 2 * ((1000 * den) * rect.width) - 2 * width
                <= 1000 * den
            &&& rect.height < i32::MAX ==> -1000 * den <= 2 * ((1000 * den) * rect.height) - 2
                * height <= 1000 * den
        }),
{
    let at = geometry.placement->0;
    let num = at.scale.num as int;
    let den = at.scale.den as int;
    let width = geometry.hit_width;
    let height = geometry.hit_height;
    assert(width * num >= 0) by (nonlinear_arith)
        requires
            width >= 0,
            num > 0,
    ;
    assert(height * num >= 0) by (nonlinear_arith)
        requires
            height >= 0,
            num > 0,
    ;
    lemma_rounded(2000 * (at.x * den) + (640_000 - width) * num, 2000 * den);
    lemma_rounded(at.y as int, at.parts as int);
    lemma_rounded(width * num, 1000 * den);
    lemma_rounded(height * num, 1000 * den);
    lemma_rounded_size(width * num, 1000 * den);
    lemma_rounded_size(height * num, 1000 * den);
}

/// The window goes to the very top of its monitor and in its middle, at 640 by
/// 280 logical px: on a logical desktop as such, on a physical one in as many px
/// as the scale makes of them. Where it sits for the cursor is where it went.
pub proof fn law_window_sits_at_the_top(monitor: MonitorView)
    requires
        is_scale(monitor.scale),
    ensures
        ({
            let num = monitor.scale.num as int;
            let den = monitor.scale.den as int;
            let frame = window_frame(Desktop::Logical, monitor)->Logical_0;
            let at = placement_of(Desktop::Logical, monitor);
            let left = frame.x * num - monitor.x * den;
            let right = monitor.width * den - left - 640 * num;
            &&& window_frame(Desktop::Logical, monitor) is Logical
            &&& frame.width == 640_000 && frame.height == 280_000
            &&& frame.y * num == (monitor.y * den) * frame.parts
            &&& -num <= left - right <= num
            &&& at.x == frame.x && at.y == frame.y && at.parts == frame.parts
            &&& at.scale.num == 1 && at.scale.den == 1
        }),
        ({
            let num = monitor.scale.num as int;
            let den = monitor.scale.den as int;
            let frame = window_frame(Desktop::Physical, monitor)->Physical_0;
            let at = placement_of(Desktop::Physical, monitor);
            let left = frame.x - monitor.x;
            let right = monitor.width - left - frame.width;
            &&& window_frame(Desktop::Physical, monitor) is Physical
            &&& frame.y == monitor.y
            &&& frame.width < u32::MAX ==> -den <= 2 * (den * frame.width) - 2 * (640 * num) <= den
            &&& frame.height < u32::MAX ==> -den <= 2 * (den * frame.height) - 2 * (280 * num)
                <= den
            &&& frame.width < u32::MAX && i32::MIN < frame.x < i32::MAX ==> -1 <= left - right <= 1
            &&& i32::MIN < frame.x < i32::MAX ==> at.x == frame.x
            &&& at.y == frame.y && at.parts == 1 && at.scale == monitor.scale
        }),
{
    let num = monitor.scale.num as int;
    let den = monitor.scale.den as int;
    law_window_is_centered(monitor);
    lemma_placement(Desktop::Logical, monitor);
    lemma_placement(Desktop::Physical, monitor);
    lemma_px(monitor.x as int, den);
    lemma_px(monitor.y as int, den);
    lemma_px(monitor.width as int, den);
    lemma_rounded_size(2 * (monitor.x * den) + monitor.width * den - 640 * num, 2 * num);
    lemma_rounded_size(640 * num, den);
    lemma_rounded_size(280 * num, den);
    lemma_rounded_size(2 * monitor.x + monitor.width - physical_width(monitor), 2);
    lemma_rounded(640 * num, den);
    lemma_rounded(280 * num, den);
}

/// A frame is the monitor's own, in place, size and scale.
pub proof fn law_frames_are_the_monitors(monitor: MonitorView)
    ensures
        frame_of(monitor).x == monitor.x,
        frame_of(monitor).y == monitor.y,
        frame_of(monitor).width == monitor.width,
        frame_of(monitor).height == monitor.height,
        frame_of(monitor).scale == monitor.scale,
{
}

/// A size is kept as it is where it fits in the window, and brought to the
/// nearer end where it does not.
pub proof fn law_sizes_are_clamped(value: int, most: int)
    requires
        most >= 0,
    ensures
        0 <= value <= most ==> within(value, most) == value,
        value < 0 ==> within(value, most) == 0,
        value > most ==> within(value, most) == most,
{
}

/// The notch attaches to the first monitor with the label that was chosen; where
/// none has it, or none was chosen, to the primary one; where there is none, to
/// the first.
pub proof fn law_notch_attaches_to_the_chosen_monitor(
    display: Option<Seq<char>>,
    monitors: Seq<Monitor>,
    primary: Option<Monitor>,
    res: Option<Monitor>,
    i: int,
)
    requires
        target(display, monitors, primary, res),
    ensures
        display is Some && 0 <= i < monitors.len() && monitors[i]@.label == display && (forall|
            j: int,
        |
            0 <= j < i ==> (#[trigger] monitors[j])@.label != display) ==> res is Some && res->0@
            == monitors[i]@,
        display is None || (forall|j: int|
            0 <= j < monitors.len() ==> (#[trigger] monitors[j])@.label != display) ==> {
            &&& primary is Some ==> res is Some && res->0@ == primary->0@
            &&& primary is None && monitors.len() > 0 ==> res is Some && res->0@ == monitors[0]@
            &&& primary is None && monitors.len() == 0 ==> res is None
        },
{
    if display is Some && 0 <= i < monitors.len() && monitors[i]@.label == display && (forall|
        j: int,
    |
        0 <= j < i ==> (#[trigger] monitors[j])@.label != display) {
        assert(is_wanted(monitors[i], display));
        let k = choose|k: int|
            {
                &&& 0 <= k < monitors.len()
                &&& is_wanted(#[trigger] monitors[k], display)
                &&& forall|j: int| 0 <= j < k ==> !is_wanted(#[trigger] monitors[j], display)
                &&& res is Some && res->0@ == monitors[k]@
            };
        if k < i {
            assert(monitors[k]@.label != display);
        } else if i < k {
            assert(!is_wanted(monitors[i], display));
        }
    }
}

/// Displays have changed exactly when there are more or fewer, or one of them has
/// another name, place, size or scale; its label plays no part.
pub proof fn law_displays_are_told_by_name_place_and_size(a: Seq<Monitor>, b: Seq<Monitor>)
    ensures
        same_displays(monitor_signatures(a), monitor_signatures(b)) <==> {
            &&& a.len() == b.len()
            &&& forall|i: int|
                0 <= i < a.len() ==> {
                    &&& text_view((#[trigger] a[i]).name) == text_view(b[i].name)
                    &&& a[i].x == b[i].x && a[i].y == b[i].y
                    &&& a[i].width == b[i].width && a[i].height == b[i].height
                    &&& a[i].scale.num * b[i].scale.den == b[i].scale.num * a[i].scale.den
                }
        },
{
    let left = monitor_signatures(a);
    let right = monitor_signatures(b);
    if same_displays(left, right) {
        assert forall|i: int| 0 <= i < a.len() implies {
            &&& text_view((#[trigger] a[i]).name) == text_view(b[i].name)
            &&& a[i].x == b[i].x && a[i].y == b[i].y
            &&& a[i].width == b[i].width && a[i].height == b[i].height
            &&& a[i].scale.num * b[i].scale.den == b[i].scale.num * a[i].scale.den
        } by {
            assert(same_signature(left[i], right[i]));
        }
    }
}

/// What is told of a screen are the platform, the monitor's label and what the
/// system says of its cutout and menu bar; it counts as covered exactly where
/// something covers it and there is no cutout.
pub proof fn law_screens_repeat_their_metrics(
    platform: Seq<char>,
    monitor: MonitorView,
    metrics: NotchMetrics,
    covered: bool,
)
    ensures
        ({
            let screen = screen_of(platform, monitor, metrics, covered);
            &&& screen.platform == platform
            &&& screen.has_notch == metrics.has_notch
            &&& screen.notch_width == metrics.notch_width
            &&& screen.notch_height == metrics.notch_height
            &&& screen.menu_bar_height == metrics.menu_bar_height
            &&& monitor.label matches Some(label) ==> screen.display_name == label
            &&& monitor.label is None ==> screen.display_name.len() == 0
            &&& screen.fullscreen <==> covered && !metrics.has_notch
        }),
{
}

/// Covering a screen changes nothing else about it.
pub proof fn law_covering_changes_nothing_else(screen: ScreenView, fullscreen: bool)
    ensures
        ({
            let after = covered_screen(screen, fullscreen);
            &&& after.platform == screen.platform && after.display_name == screen.display_name
            &&& after.has_notch == screen.has_notch && after.notch_width == screen.notch_width
            &&& after.notch_height == screen.notch_height
            &&& after.menu_bar_height == screen.menu_bar_height
        }),
{
}

/// Of two looks at the cursor, the second tells what changed since the first, and
/// nothing else: hovering where it came over the notch or left it, where it is
/// when that is over the notch and elsewhere than before, a click outside where a
/// button went down off the notch, and a release where it came up.
pub proof fn law_looks_tell_what_changed(
    tracker: TrackerView,
    before: Option<Point>,
    was_down: bool,
    now: Option<Point>,
    down: bool,
)
    ensures
        ({
            let step = noticed(looked(tracker, before, was_down), now, down);
            let moved = before is None || now->0.x * before->0.parts != before->0.x * now->0.parts
                || now->0.y * before->0.parts != before->0.y * now->0.parts;
            &&& before is None && now is Some ==> step.hover == Some(true)
            &&& before is Some && now is None ==> step.hover == Some(false)
            &&& (before is Some) == (now is Some) ==> step.hover is None
            &&& now is Some && moved ==> step.pointer == now
            &&& now is None || !moved ==> step.pointer is None
            &&& step.outside_click <==> down && !was_down && now is None
            &&& step.release <==> was_down && !down
        }),
{
}

/// A press that began outside is a drag into the notch while it is held over it,
/// however often it leaves and comes back; once it is let go, it is over.
pub proof fn law_drag_lasts_while_held(
    tracker: TrackerView,
    first: Option<Point>,
    second: Option<Point>,
    third: Option<Point>,
    fourth: Option<Point>,
)
    requires
        !tracker.was_down,
    ensures
        ({
            let one = looked(tracker, first, true);
            let two = looked(one, second, true);
            let three = looked(two, third, false);
            &&& noticed(two, third, true).dragging_in <==> first is None && third is Some
            &&& !noticed(two, third, false).dragging_in
            &&& !three.press_began_outside
            &&& !noticed(three, fourth, false).dragging_in
        }),
{
}

} // verus!
