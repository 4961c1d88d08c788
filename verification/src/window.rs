//! Where the main window goes: saving its frame, and restoring it on the next launch.
use vstd::prelude::*;

use crate::config::{WindowGeometry, POINT};

verus! {

/// Size of the window without a saved frame, in points.
pub const DEFAULT_WIDTH: i64 = 1280;

pub const DEFAULT_HEIGHT: i64 = 760;

/// Smallest size of the window, in points.
pub const MIN_WIDTH: i64 = 640;

pub const MIN_HEIGHT: i64 = 400;

/// Height of the titlebar, in points.
pub const TITLEBAR_HEIGHT: i64 = 28;

/// Width of the piece of the titlebar that must be visible, in points.
pub const GRAB_WIDTH: i64 = 120;

/// A rectangle in the units of [`POINT`].
#[derive(Clone, Copy, Debug, PartialEq, Eq, Structural)]
pub struct Rect {
    pub x: i64,
    pub y: i64,
    pub width: i64,
    pub height: i64,
}

/// The primary display.
#[derive(Clone, Copy, Debug, PartialEq, Eq, Structural)]
pub struct Display {
    pub bounds: Rect,
    /// Size of the part that windows can use.
    pub usable_width: i64,
    pub usable_height: i64,
}

/// Where the window goes.
#[derive(Clone, Copy, Debug, PartialEq, Eq, Structural)]
pub enum Placement {
    At(Rect),
    /// In the middle of the display.
    Centered { width: i64, height: i64 },
}

/// The nearest whole point; halfway values go away from zero.
pub open spec fn whole(v: int) -> int {
    if v >= 0 {
        (v + POINT / 2) / (POINT as int) * POINT
    } else {
        -((-v + POINT / 2) / (POINT as int) * POINT)
    }
}

/// Whether rounding a length to whole points stays within what can be stored.
pub open spec fn storable(v: i64) -> bool {
    -0x7fff_ffff_ffff_0000 <= v <= 0x7fff_ffff_ffff_0000
}

/// The nearest whole point.
fn to_whole(v: i64) -> (res: i64)
    requires
        storable(v),
    ensures
        res == whole(v as int),
{
    if v >= 0 {
        (v + 32_768) / 65_536 * 65_536
    } else {
        -((-v + 32_768) / 65_536 * 65_536)
    }
}

/// The frame that is saved for a window with these bounds.
pub open spec fn saved_frame(bounds: Rect) -> Option<WindowGeometry> {
    if whole(bounds.width as int) >= POINT && whole(bounds.height as int) >= POINT {
        Some(
            WindowGeometry {
                x: whole(bounds.x as int) as i64,
                y: whole(bounds.y as int) as i64,
                width: whole(bounds.width as int) as i64,
                height: whole(bounds.height as int) as i64,
            },
        )
    } else {
        None
    }
}

/// The frame to save for a window with these bounds: in whole points, and none for a window
/// without a size.
pub fn saved_geometry(bounds: Rect) -> (res: Option<WindowGeometry>)
    requires
        storable(bounds.x),
        storable(bounds.y),
        storable(bounds.width),
        storable(bounds.height),
    ensures
        res == saved_frame(bounds),
        res is Some == (whole(bounds.width as int) >= POINT && whole(bounds.height as int)
            >= POINT),
        res is Some ==> {
            &&& res->0.x == whole(bounds.x as int)
            &&& res->0.y == whole(bounds.y as int)
            &&& res->0.width == whole(bounds.width as int)
            &&& res->0.height == whole(bounds.height as int)
        },
{
    let geometry = WindowGeometry {
        x: to_whole(bounds.x),
        y: to_whole(bounds.y),
        width: to_whole(bounds.width),
        height: to_whole(bounds.height),
    };
    if geometry.width < POINT || geometry.height < POINT {
        None
    } else {
        Some(geometry)
    }
}

/// A saved length made to fit in the usable part of the display, but not below the smallest.
pub open spec fn fitted(saved: int, usable: int, smallest: int) -> int {
    let fits = if saved < usable {
        saved
    } else {
        usable
    };
    if fits < smallest {
        smallest
    } else {
        fits
    }
}

/// How much of the stretch from `a` over `len` lies in the stretch from `b` over `room`; negative
/// when they are apart.
pub open spec fn shared_length(a: int, len: int, b: int, room: int) -> int {
    let from = if a < b {
        b
    } else {
        a
    };
    let to = if a + len < b + room {
        a + len
    } else {
        b + room
    };
    to - from
}

/// Whether a piece of the titlebar that can be grabbed is on the display.
pub open spec fn grabbable(window: Rect, display: Rect) -> bool {
    &&& shared_length(
        window.x as int,
        window.width as int,
        display.x as int,
        display.width as int,
    ) >= GRAB_WIDTH * POINT
    &&& 2 * shared_length(
        window.y as int,
        TITLEBAR_HEIGHT * POINT,
        display.y as int,
        display.height as int,
    ) >= TITLEBAR_HEIGHT * POINT
}

/// Where the window goes: to its saved frame, as far as that fits on the display and its titlebar
/// can be reached, and else to the middle.
pub open spec fn placement(saved: Option<WindowGeometry>, display: Option<Display>) -> Placement {
    match (saved, display) {
        (Some(saved), Some(display)) => {
            let width = fitted(
                saved.width as int,
                display.usable_width as int,
                MIN_WIDTH * POINT,
            );
            let height = fitted(
                saved.height as int,
                display.usable_height as int,
                MIN_HEIGHT * POINT,
            );
            let window = Rect {
                x: saved.x,
                y: saved.y,
                width: width as i64,
                height: height as i64,
            };
            if grabbable(window, display.bounds) {
                Placement::At(window)
            } else {
                Placement::Centered { width: width as i64, height: height as i64 }
            }
        },
        _ => Placement::Centered {
            width: (DEFAULT_WIDTH * POINT) as i64,
            height: (DEFAULT_HEIGHT * POINT) as i64,
        },
    }
}

/// A saved length made to fit in the usable part of the display, but not below the smallest.
fn fit(saved: i64, usable: i64, smallest: i64) -> (res: i64)
    ensures
        res == fitted(saved as int, usable as int, smallest as int),
{
    let fits: i64 = if saved < usable {
        saved
    } else {
        usable
    };
    if fits < smallest {
        smallest
    } else {
        fits
    }
}

/// How much of one stretch lies in the other.
fn overlap(a: i64, len: i64, b: i64, room: i64) -> (res: i128)
    ensures
        res == shared_length(a as int, len as int, b as int, room as int),
        -0x4_0000_0000_0000_0000 < res < 0x4_0000_0000_0000_0000,
{
    let from: i128 = if a < b {
        b as i128
    } else {
        a as i128
    };
    let first: i128 = a as i128 + len as i128;
    let second: i128 = b as i128 + room as i128;
    let to: i128 = if first < second {
        first
    } else {
        second
    };
    to - from
}

/// Where the window goes at the start.
pub fn initial_bounds(saved: Option<WindowGeometry>, display: Option<Display>) -> (res: Placement)
    ensures
        res == placement(saved, display),
{
    let (saved, display) = match (saved, display) {
        (Some(saved), Some(display)) => (saved, display),
        _ => {
            return Placement::Centered { width: 1280 * 65_536, height: 760 * 65_536 };
        },
    };
    let width: i64 = fit(saved.width, display.usable_width, 640 * 65_536);
    let height: i64 = fit(saved.height, display.usable_height, 400 * 65_536);
    let window = Rect { x: saved.x, y: saved.y, width, height };
    let across: i128 = overlap(window.x, width, display.bounds.x, display.bounds.width);
    let down: i128 = overlap(window.y, 28 * 65_536, display.bounds.y, display.bounds.height);
    if across < 120 * 65_536 || 2 * down < 28 * 65_536 {
        Placement::Centered { width, height }
    } else {
        Placement::At(window)
    }
}

/// The window is never smaller than its smallest size, and where its frame is restored its
/// titlebar can be reached.
pub proof fn lemma_window_is_usable(saved: Option<WindowGeometry>, display: Option<Display>)
    ensures
        match placement(saved, display) {
            Placement::At(window) => {
                &&& window.width >= MIN_WIDTH * POINT
                &&& window.height >= MIN_HEIGHT * POINT
                &&& display is Some && grabbable(window, display->0.bounds)
            },
            Placement::Centered { width, height } => width >= MIN_WIDTH * POINT && height
                >= MIN_HEIGHT * POINT,
        },
{
}

/// A saved frame that fits where it was saved is restored as it is.
pub proof fn lemma_saved_frame_is_restored(saved: WindowGeometry, display: Display)
    requires
        MIN_WIDTH * POINT <= saved.width <= display.usable_width,
        MIN_HEIGHT * POINT <= saved.height <= display.usable_height,
        grabbable(
            Rect { x: saved.x, y: saved.y, width: saved.width, height: saved.height },
            display.bounds,
        ),
    ensures
        placement(Some(saved), Some(display)) == Placement::At(
            Rect { x: saved.x, y: saved.y, width: saved.width, height: saved.height },
        ),
{
}

/// A length is rounded to the nearest whole point, and a half goes away from zero.
pub proof fn lemma_nearest_point(v: int, n: int)
    ensures
        whole(v) % 65_536 == 0,
        -32_768 <= whole(v) - v <= 32_768,
        whole(-v) == -whole(v),
        whole(65_536 * n) == 65_536 * n,
        n >= 0 ==> whole(65_536 * n + 32_768) == 65_536 * (n + 1),
        n <= 0 ==> whole(65_536 * n - 32_768) == 65_536 * (n - 1),
{
}

/// What is saved of a window is within half a point of where it is. A window of less than half a
/// point is not saved, and any other is.
pub proof fn lemma_saved_frame_is_where_the_window_is(bounds: Rect)
    requires
        storable(bounds.x),
        storable(bounds.y),
        storable(bounds.width),
        storable(bounds.height),
    ensures
        saved_frame(bounds) is Some <==> bounds.width >= 32_768 && bounds.height >= 32_768,
        saved_frame(bounds) is Some ==> {
            let saved = saved_frame(bounds)->0;
            &&& -32_768 <= saved.x - bounds.x <= 32_768
            &&& -32_768 <= saved.y - bounds.y <= 32_768
            &&& -32_768 <= saved.width - bounds.width <= 32_768
            &&& -32_768 <= saved.height - bounds.height <= 32_768
            &&& saved.x % 65_536 == 0 && saved.y % 65_536 == 0
            &&& saved.width % 65_536 == 0 && saved.height % 65_536 == 0
        },
{
    lemma_nearest_point(bounds.x as int, 0);
    lemma_nearest_point(bounds.y as int, 0);
    lemma_nearest_point(bounds.width as int, 0);
    lemma_nearest_point(bounds.height as int, 0);
}

/// Whether a piece of this length, from `a` on, lies in the stretch from `from` over `len`.
pub open spec fn lies_in(a: int, piece: int, from: int, len: int) -> bool {
    from <= a && a + piece <= from + len
}

/// A window can be grabbed exactly when a piece of its titlebar is on the display that is 120
/// points wide and half as high as the titlebar, which is 14 points.
pub proof fn lemma_when_a_window_can_be_grabbed(window: Rect, display: Rect)
    ensures
        grabbable(window, display) <==> {
            &&& exists|a: int|
                #[trigger] lies_in(a, 7_864_320, window.x as int, window.width as int)
                    && lies_in(a, 7_864_320, display.x as int, display.width as int)
            &&& exists|a: int|
                #[trigger] lies_in(a, 917_504, window.y as int, 1_835_008) && lies_in(
                    a,
                    917_504,
                    display.y as int,
                    display.height as int,
                )
        },
{
    let left = if window.x < display.x {
        display.x as int
    } else {
        window.x as int
    };
    let top = if window.y < display.y {
        display.y as int
    } else {
        window.y as int
    };
    if grabbable(window, display) {
        assert(lies_in(left, 7_864_320, window.x as int, window.width as int));
        assert(lies_in(left, 7_864_320, display.x as int, display.width as int));
        assert(lies_in(top, 917_504, window.y as int, 1_835_008));
        assert(lies_in(top, 917_504, display.y as int, display.height as int));
    }
}

/// Without a saved frame or a display the window has 1280 by 760 points. With both it has its saved
/// size, cut to what the display has room for, but 640 by 400 points at least; and it goes to its
/// saved place exactly when it can be grabbed there.
pub proof fn lemma_restored_size(saved: WindowGeometry, display: Display)
    ensures
        placement(None, Some(display)) == (Placement::Centered {
            width: 83_886_080,
            height: 49_807_360,
        }),
        placement(Some(saved), None) == (Placement::Centered {
            width: 83_886_080,
            height: 49_807_360,
        }),
        ({
            let (width, height) = match placement(Some(saved), Some(display)) {
                Placement::At(window) => (window.width, window.height),
                Placement::Centered { width, height } => (width, height),
            };
            &&& width >= 41_943_040 && height >= 26_214_400
            &&& width > 41_943_040 ==> width <= saved.width && width <= display.usable_width
            &&& height > 26_214_400 ==> height <= saved.height && height <= display.usable_height
            &&& 41_943_040 <= saved.width <= display.usable_width ==> width == saved.width
            &&& 26_214_400 <= saved.height <= display.usable_height ==> height == saved.height
            &&& 41_943_040 <= display.usable_width <= saved.width ==> width
                == display.usable_width
            &&& 26_214_400 <= display.usable_height <= saved.height ==> height
                == display.usable_height
            &&& placement(Some(saved), Some(display)) is At <==> grabbable(
                Rect { x: saved.x, y: saved.y, width, height },
                display.bounds,
            )
            &&& placement(Some(saved), Some(display)) is At ==> (placement(
                Some(saved),
                Some(display),
            )->At_0).x == saved.x && (placement(Some(saved), Some(display))->At_0).y == saved.y
        }),
{
}

}
