use bangs::geometry::{
    monitor_frame, place_on, same_monitors, target_monitor, CursorTracker, Desktop, Frame, Geometry,
    LogicalFrame, Monitor, NotchMetrics, PhysicalFrame, PixelRect, Placement, Point, Rect, Scale,
    ScreenInfo, WindowFrame,
};
use bangs::platform::{
    cursor_shape, editor_app, editor_outcome, fullscreen_over, matching_screen, notch_metrics,
    CursorShape, ScreenFrame, WindowInfo,
};

fn monitor(x: i32, y: i32, width: u32, height: u32, dpi: u32) -> Monitor {
    Monitor {
        name: Some("Monitor #1".into()),
        label: Some("Studio".into()),
        x,
        y,
        width,
        height,
        scale: scale(dpi),
    }
}

fn scale(dpi: u32) -> Scale {
    Scale { num: dpi, den: 96 }
}

fn plain() -> Scale {
    Scale { num: 1, den: 1 }
}

/// A place in whole thousandths of a logical px, in parts.
fn point(x: i64, y: i64, parts: i64) -> Option<Point> {
    Some(Point { x: x * parts, y: y * parts, parts })
}

/// Where a window was placed, in thousandths of the cursor's units.
fn corner(placement: Placement) -> (i128, i128) {
    (1000 * placement.x, 1000 * placement.y / i128::from(placement.parts))
}

fn labelled(label: &str, x: i32) -> Monitor {
    Monitor { label: Some(label.into()), ..monitor(x, 0, 1920, 1080, 96) }
}

fn notch() -> NotchMetrics {
    NotchMetrics {
        has_notch: true,
        notch_width: 200_000,
        notch_height: 32_000,
        menu_bar_height: 32_000,
    }
}

fn place(geometry: &mut Geometry, desktop: Desktop, monitor: &Monitor) -> Option<ScreenInfo> {
    geometry
        .place_window(
            desktop,
            "windows",
            monitor,
            NotchMetrics::default(),
            false,
            vec![monitor.clone()],
        )
        .announced
}

#[test]
fn logical_windows_are_centered_in_whole_px() {
    // 3024 x 1964 at twice the scale is 1512 logical px wide.
    let (frame, placement) = place_on(Desktop::Logical, &monitor(0, 0, 3024, 1964, 192));
    assert_eq!(
        frame,
        WindowFrame::Logical(LogicalFrame {
            x: 436,
            y: 0,
            parts: 192,
            width: 640_000,
            height: 280_000
        })
    );
    assert_eq!((placement.x, placement.y, placement.scale), (436, 0, plain()));
    // Half a px goes away from zero.
    let (_, placement) = place_on(Desktop::Logical, &monitor(0, -5, 1281, 800, 96));
    assert_eq!(corner(placement), (321_000, -5_000));
    let (_, placement) = place_on(Desktop::Logical, &monitor(-1281, 3, 1281, 800, 192));
    assert_eq!(corner(placement), (-640_000, 1_500));
    // A third of a px is kept as it is.
    let (_, placement) = place_on(Desktop::Logical, &monitor(0, 1, 3000, 2000, 288));
    assert_eq!((placement.x, placement.y * 3), (180, i128::from(placement.parts)));
}

#[test]
fn physical_windows_are_scaled() {
    let (frame, placement) = place_on(Desktop::Physical, &monitor(1920, -20, 2560, 1440, 144));
    assert_eq!(
        frame,
        WindowFrame::Physical(PhysicalFrame { x: 2720, y: -20, width: 960, height: 420 })
    );
    assert_eq!(corner(placement), (2_720_000, -20_000));
    assert_eq!(placement.scale, scale(144));
    // 640 x 280 at 125 percent.
    let (frame, _) = place_on(Desktop::Physical, &monitor(0, 0, 1921, 1080, 120));
    assert_eq!(
        frame,
        WindowFrame::Physical(PhysicalFrame { x: 561, y: 0, width: 800, height: 350 })
    );
    // And at 110 percent, which is no whole number of dots per inch.
    let odd = Monitor { scale: Scale { num: 11, den: 10 }, ..monitor(0, 0, 1704, 1080, 96) };
    let (frame, _) = place_on(Desktop::Physical, &odd);
    assert_eq!(
        frame,
        WindowFrame::Physical(PhysicalFrame { x: 500, y: 0, width: 704, height: 308 })
    );
}

#[test]
fn monitor_frames_keep_their_scale() {
    assert_eq!(
        monitor_frame(&monitor(-3, 5, 3024, 1964, 192)),
        Frame { x: -3, y: 5, width: 3024, height: 1964, scale: scale(192) }
    );
}

#[test]
fn the_cursor_is_found_in_the_hit_rect() {
    let mut geometry = Geometry::default();
    assert_eq!(geometry.locate(0, 0), None);
    assert_eq!(geometry.store_hit_rect(200_000, 32_000), plain());
    place(&mut geometry, Desktop::Logical, &monitor(0, 0, 1640, 900, 96));
    // The window starts at 500, the hit rect spans 720 to 920.
    assert_eq!(geometry.locate(719_999, 0), None);
    assert_eq!(geometry.locate(720_000, 0), point(220_000, 0, 96));
    assert_eq!(geometry.locate(920_000, 32_000), point(420_000, 32_000, 96));
    assert_eq!(geometry.locate(920_001, 0), None);
    assert_eq!(geometry.locate(800_000, 32_001), None);
    // One px above the edge still counts.
    assert_eq!(geometry.locate(800_000, -1_000), point(300_000, 0, 96));
    assert_eq!(geometry.locate(800_000, -1_001), None);

    geometry.set_hidden(true);
    assert_eq!(geometry.locate(800_000, 0), None);
    geometry.set_hidden(false);
    assert!(geometry.locate(800_000, 0).is_some());
}

#[test]
fn the_cursor_is_scaled_on_physical_desktops() {
    let mut geometry = Geometry::default();
    geometry.store_hit_rect(640_000, 280_000);
    place(&mut geometry, Desktop::Physical, &monitor(0, 0, 1960, 1080, 144));
    assert_eq!(geometry.store_hit_rect(640_000, 280_000), scale(144));
    // The window starts at 500 and is 960 wide.
    assert_eq!(geometry.locate(500_000, 0), point(0, 0, 144));
    assert_eq!(geometry.locate(800_000, 150_000), point(200_000, 100_000, 144));
    assert_eq!(geometry.locate(1_460_000, 420_000), point(640_000, 280_000, 144));
    assert_eq!(geometry.locate(1_461_000, 0), None);
    // One px is two thirds of a logical px, and no less.
    assert_eq!(
        geometry.locate(501_000, 1_000),
        Some(Point { x: 96_000, y: 96_000, parts: 144 })
    );
}

#[test]
fn hit_rects_are_clamped() {
    let mut geometry = Geometry::default();
    geometry.store_hit_rect(-5, 999_000);
    let step = geometry.place_window(
        Desktop::Logical,
        "macos",
        &monitor(0, 0, 1640, 900, 96),
        notch(),
        false,
        Vec::new(),
    );
    assert_eq!(step.hit_region, None);
    geometry.store_hit_rect(999_000, 999_000);
    let step = geometry.place_window(
        Desktop::Logical,
        "macos",
        &monitor(0, 0, 1640, 900, 96),
        notch(),
        false,
        Vec::new(),
    );
    assert_eq!(step.hit_region, Some((640_000, 280_000, plain())));
}

#[test]
fn drops_are_caught_over_the_hit_rect() {
    let mut geometry = Geometry::default();
    let nowhere = PixelRect { x: 0, y: 0, width: 0, height: 0 };
    assert_eq!(geometry.catch_area(true), (false, nowhere));
    geometry.store_hit_rect(201_000, 32_000);
    place(&mut geometry, Desktop::Physical, &monitor(0, 7, 1960, 1080, 144));
    // 500 + (640 - 201) / 2 * 1.5 = 829.25, 201 * 1.5 = 301.5
    let rect = PixelRect { x: 829, y: 7, width: 302, height: 48 };
    assert_eq!(geometry.hit_rect_on_screen(), Some(rect));
    assert_eq!(geometry.catch_area(true), (true, rect));
    assert_eq!(geometry.catch_area(false), (false, rect));
    geometry.set_hidden(true);
    assert_eq!(geometry.hit_rect_on_screen(), None);
}

#[test]
fn screens_are_announced_when_they_change() {
    let mut geometry = Geometry::default();
    assert_eq!(geometry.screen(), ScreenInfo::default());
    assert_eq!(geometry.monitor_rect(), None);
    let first = monitor(0, 0, 1920, 1080, 96);
    let screen = place(&mut geometry, Desktop::Physical, &first).unwrap();
    assert_eq!(screen.platform, "windows");
    assert_eq!(screen.display_name, "Studio");
    assert_eq!(geometry.screen(), screen);
    assert!(place(&mut geometry, Desktop::Physical, &first).is_none());
    assert_eq!(
        geometry.monitor_rect(),
        Some(Frame { x: 0, y: 0, width: 1920, height: 1080, scale: scale(96) })
    );
    assert!(!geometry.displays_changed(&vec![first]));
    assert!(geometry.displays_changed(&vec![monitor(0, 0, 1920, 1080, 120)]));
    assert!(geometry.displays_changed(&Vec::new()));
}

#[test]
fn covering_collapses_screens_without_a_cutout() {
    let mut geometry = Geometry::default();
    place(&mut geometry, Desktop::Physical, &monitor(0, 0, 1920, 1080, 96));
    assert!(geometry.set_fullscreen(true).unwrap().fullscreen);
    assert!(geometry.set_fullscreen(true).is_none());
    assert!(!geometry.set_fullscreen(false).unwrap().fullscreen);

    let step = geometry.place_window(
        Desktop::Logical,
        "macos",
        &monitor(0, 0, 1920, 1080, 96),
        notch(),
        true,
        Vec::new(),
    );
    let screen = step.announced.unwrap();
    assert!(screen.has_notch && !screen.fullscreen);
    assert!(geometry.set_fullscreen(true).is_none());
    assert!(!geometry.screen().fullscreen);
}

#[test]
fn the_notch_attaches_to_the_chosen_monitor() {
    let monitors = vec![labelled("A", 0), labelled("B", 1), labelled("B", 2)];
    let at = |display: Option<&str>, primary: Option<Monitor>| {
        target_monitor(&display.map(str::to_string), &monitors, primary).map(|one| one.x)
    };
    assert_eq!(at(Some("B"), Some(labelled("A", 0))), Some(1));
    assert_eq!(at(Some("C"), Some(labelled("P", 9))), Some(9));
    assert_eq!(at(None, Some(labelled("P", 9))), Some(9));
    assert_eq!(at(None, None), Some(0));
    assert!(target_monitor(&None, &Vec::new(), None).is_none());
    // A monitor without a label is not taken for one without a choice.
    let nameless = vec![Monitor { label: None, ..labelled("", 5) }];
    assert_eq!(target_monitor(&None, &nameless, Some(labelled("P", 9))).unwrap().x, 9);
}

#[test]
fn monitors_are_told_apart() {
    let one = || vec![monitor(0, 0, 1920, 1080, 96)];
    assert!(same_monitors(&one(), &one()));
    assert!(!same_monitors(&one(), &Vec::new()));
    assert!(!same_monitors(&one(), &vec![Monitor { name: None, ..one().remove(0) }]));
    assert!(!same_monitors(&one(), &vec![monitor(1, 0, 1920, 1080, 96)]));
    assert!(!same_monitors(&one(), &vec![monitor(0, 0, 1920, 1080, 192)]));
    // One scale may be written in several ways.
    assert!(same_monitors(&one(), &vec![Monitor { scale: plain(), ..one().remove(0) }]));
    // The label is no part of it.
    assert!(same_monitors(&one(), &vec![Monitor { label: None, ..one().remove(0) }]));
}

#[test]
fn hovering_is_told_at_the_edges() {
    let mut tracker = CursorTracker::default();
    let here = point(1, 2, 1);
    let there = point(3, 2, 1);
    let step = tracker.look(None, false);
    assert_eq!((step.hover, step.pointer), (None, None));
    let step = tracker.look(here, false);
    assert_eq!((step.hover, step.pointer), (Some(true), here));
    let step = tracker.look(here, false);
    assert_eq!((step.hover, step.pointer), (None, None));
    let step = tracker.look(there, false);
    assert_eq!((step.hover, step.pointer), (None, there));
    // The same place, written in other parts.
    let step = tracker.look(point(3, 2, 96), false);
    assert_eq!((step.hover, step.pointer), (None, None));
    let step = tracker.look(None, false);
    assert_eq!((step.hover, step.pointer), (Some(false), None));
}

#[test]
fn clicks_are_told_by_where_they_begin() {
    let mut tracker = CursorTracker::default();
    let here = point(1, 2, 1);
    let step = tracker.look(None, true);
    assert!(step.outside_click && !step.dragging_in && !step.release);
    // Held and moved onto the notch: a drag from elsewhere.
    let step = tracker.look(here, true);
    assert!(!step.outside_click && step.dragging_in);
    let step = tracker.look(here, false);
    assert!(step.release && !step.dragging_in);
    // Begun on the notch: none, wherever it goes.
    assert!(!tracker.look(here, true).dragging_in);
    assert!(!tracker.look(None, true).outside_click);
    assert!(!tracker.look(here, true).dragging_in);
}

fn window(layer: i64, owner: i64, bounds: Rect) -> WindowInfo {
    WindowInfo { layer: Some(layer), owner: Some(owner), bounds: Some(bounds) }
}

#[test]
fn covering_windows_are_found() {
    let frame = Frame { x: 0, y: 0, width: 3024, height: 1964, scale: scale(192) };
    let rect = Rect { x: 0, y: 0, width: 1_512_000, height: 982_000 };
    let off = |x: i64, width: i64| Rect { x, width, ..rect };
    let over = |windows: Vec<WindowInfo>| fullscreen_over(frame, &windows, 7);
    assert!(over(vec![window(0, 1, rect)]));
    assert!(over(vec![window(0, 1, off(2_000, 1_510_000))]));
    assert!(!over(vec![window(0, 1, off(2_001, 1_512_000))]));
    assert!(!over(vec![window(25, 1, rect)]));
    assert!(!over(vec![window(0, 7, rect)]));
    assert!(over(vec![window(25, 1, rect), window(0, 2, rect)]));
    assert!(!over(vec![WindowInfo { bounds: None, ..window(0, 1, rect) }]));
    assert!(over(vec![WindowInfo { owner: None, ..window(0, 1, rect) }]));
    assert!(!over(vec![WindowInfo { layer: None, ..window(0, 1, rect) }]));
    assert!(!over(Vec::new()));
    let empty = Frame { width: 0, ..frame };
    assert!(!fullscreen_over(empty, &vec![window(0, 1, Rect { width: 0, ..rect })], 7));
}

fn screen(frame: Rect, visible: Rect, top_inset: i64, side: i64) -> ScreenFrame {
    ScreenFrame { frame, visible, top_inset, left_width: side, right_width: side }
}

#[test]
fn cutouts_are_measured() {
    let frame = Rect { x: 0, y: 0, width: 1_512_000, height: 982_000 };
    let visible = Rect { height: 950_000, ..frame };
    let metrics = notch_metrics(Some(screen(frame, visible, 32_000, 663_500)));
    assert!(metrics.has_notch);
    assert_eq!(metrics.notch_width, 185_000);
    assert_eq!((metrics.notch_height, metrics.menu_bar_height), (32_000, 32_000));
    // Sides that leave too little, or too much.
    assert_eq!(notch_metrics(Some(screen(frame, visible, 32_000, 716_001))).notch_width, 200_000);
    assert_eq!(notch_metrics(Some(screen(frame, visible, 32_000, 556_000))).notch_width, 200_000);

    let metrics = notch_metrics(Some(screen(frame, visible, 0, 0)));
    assert!(!metrics.has_notch);
    assert_eq!((metrics.notch_width, metrics.menu_bar_height), (0, 32_000));
    let low = Rect { height: 922_000, ..frame };
    assert_eq!(notch_metrics(Some(screen(frame, low, 0, 0))).menu_bar_height, 0);
    assert_eq!(notch_metrics(None), NotchMetrics::default());
}

#[test]
fn screens_are_matched_by_their_frames() {
    let screens: Vec<ScreenFrame> = [(0, 1_440_000), (1_440_000, 1_512_500), (1_440_000, 1_512_000)]
        .iter()
        .map(|&(x, width)| {
            let frame = Rect { x, y: 0, width, height: 982_000 };
            screen(frame, frame, 0, 0)
        })
        .collect();
    assert_eq!(matching_screen(&monitor(2880, 0, 3024, 1964, 192), &screens), Some(1));
    assert_eq!(matching_screen(&monitor(0, 0, 3024, 1964, 192), &screens), None);
    // Two px of the monitor are one logical px, and that is the slack.
    assert_eq!(matching_screen(&monitor(2, 2, 2882, 1966, 192), &screens), Some(0));
    assert_eq!(matching_screen(&monitor(3, 0, 2880, 1964, 192), &screens), None);
    assert_eq!(matching_screen(&monitor(0, 3, 2880, 1964, 192), &screens), None);
    assert_eq!(matching_screen(&monitor(0, 0, 2880, 1964, 192), &Vec::new()), None);
}

#[test]
fn stacked_screens_are_told_apart() {
    // The second stands above the first, the third below it.
    let screens: Vec<ScreenFrame> = [0, 1_080_000, -1_080_000]
        .iter()
        .map(|&y| {
            let frame = Rect { x: 0, y, width: 1_920_000, height: 1_080_000 };
            screen(frame, frame, 0, 0)
        })
        .collect();
    assert_eq!(matching_screen(&monitor(0, 0, 1920, 1080, 96), &screens), Some(0));
    assert_eq!(matching_screen(&monitor(0, -1080, 1920, 1080, 96), &screens), Some(1));
    assert_eq!(matching_screen(&monitor(0, 1080, 1920, 1080, 96), &screens), Some(2));
    assert_eq!(matching_screen(&monitor(0, 500, 1920, 1080, 96), &screens), None);

    // A smaller screen, on top of the first and flush with its left edge.
    let low = Rect { x: 0, y: 0, width: 1_512_000, height: 982_000 };
    let high = Rect { x: 0, y: 982_000, width: 1_920_000, height: 1_080_000 };
    let screens = vec![screen(low, low, 0, 0), screen(high, high, 0, 0)];
    assert_eq!(matching_screen(&monitor(0, -1080, 1920, 1080, 96), &screens), Some(1));
    assert_eq!(matching_screen(&monitor(0, 0, 3024, 1964, 192), &screens), Some(0));
}

#[test]
fn cursors_have_names() {
    assert_eq!(cursor_shape("pointer"), CursorShape::PointingHand);
    assert_eq!(cursor_shape("grab"), CursorShape::OpenHand);
    assert_eq!(cursor_shape("grabbing"), CursorShape::ClosedHand);
    assert_eq!(cursor_shape("text"), CursorShape::IBeam);
    assert_eq!(cursor_shape("default"), CursorShape::Arrow);
    assert_eq!(cursor_shape(""), CursorShape::Arrow);
}

#[test]
fn editors_have_names() {
    assert_eq!(editor_app("code").unwrap(), "Visual Studio Code");
    assert_eq!(editor_app("cursor").unwrap(), "Cursor");
    assert_eq!(editor_app("vim").unwrap_err().message(), "unknown editor vim");
    assert!(editor_outcome("Cursor", "/tmp", true).is_ok());
    assert_eq!(
        editor_outcome("Cursor", "/tmp", false).unwrap_err().message(),
        "Cursor could not open /tmp"
    );
}
