//! Where content that is higher than the screen ends up on the screen, and
//! which part of the screen a click belongs to.
use vstd::prelude::*;
use crate::inspector::{Click, ClickButton, Position};

verus! {

/// A rectangular area of the screen, counted in characters.
#[derive(Debug, Clone, Copy, PartialEq, Eq)]
pub struct Area {
    /// The column of the upper left corner.
    pub x: u16,
    /// The line of the upper left corner.
    pub y: u16,
    pub width: u16,
    pub height: u16,
}

impl Area {
    /// The first column to the right of the area, which is never counted
    /// beyond the biggest column.
    pub open spec fn right(self) -> int {
        if self.x + self.width > u16::MAX {
            u16::MAX as int
        } else {
            self.x + self.width
        }
    }

    /// The first line below the area, which is never counted beyond the
    /// biggest line.
    pub open spec fn bottom(self) -> int {
        if self.y + self.height > u16::MAX {
            u16::MAX as int
        } else {
            self.y + self.height
        }
    }

    /// Whether the position `p` lies within the area.
    pub open spec fn holds(self, p: Position) -> bool {
        self.x <= p.x < self.right() && self.y <= p.y < self.bottom()
    }

    /// The area that this area and `other` have in common. It has no width
    /// or no height where they have nothing in common.
    pub open spec fn common(self, other: Area) -> Area {
        let x = if self.x >= other.x {
            self.x
        } else {
            other.x
        };
        let y = if self.y >= other.y {
            self.y
        } else {
            other.y
        };
        let right = if self.right() <= other.right() {
            self.right()
        } else {
            other.right()
        };
        let bottom = if self.bottom() <= other.bottom() {
            self.bottom()
        } else {
            other.bottom()
        };
        Area {
            x,
            y,
            width: if right >= x {
                (right - x) as u16
            } else {
                0
            },
            height: if bottom >= y {
                (bottom - y) as u16
            } else {
                0
            },
        }
    }
}

/// The area that `a` and `b` have in common.
///
/// Wraps `ratatui::layout::Rect::intersection`. The contract claims what
/// its source computes: the common area starts at the greater of the two
/// left columns and of the two upper lines, and ends at the lesser of the
/// two right columns and of the two lower lines, each of which is counted
/// with saturation; its width and height are zero where it would end
/// before it starts.
#[verifier::external_body]
fn intersection(a: Area, b: Area) -> (common: Area)
    ensures
        common == a.common(b),
{
    let first = ratatui::layout::Rect { x: a.x, y: a.y, width: a.width, height: a.height };
    let second = ratatui::layout::Rect { x: b.x, y: b.y, width: b.width, height: b.height };
    let common = first.intersection(second);
    Area { x: common.x, y: common.y, width: common.width, height: common.height }
}

/// Whether the position `p` lies within the area `a`.
///
/// Wraps `ratatui::layout::Rect::contains`. The contract claims what its
/// source computes: the position is not left of or above the area, and it
/// is left of the right column and above the lower line of the area, which
/// are counted with saturation.
#[verifier::external_body]
fn contains(a: Area, p: Position) -> (yes: bool)
    ensures
        yes == a.holds(p),
{
    let area = ratatui::layout::Rect { x: a.x, y: a.y, width: a.width, height: a.height };
    area.contains(ratatui::layout::Position { x: p.x, y: p.y })
}

/// Whether `click` is a click of the left button within `area`.
pub open spec fn clicked_left(area: Area, click: Option<Click>) -> bool {
    click is Some && click->0.button == ClickButton::Left && area.holds(click->0.pos)
}

/// Whether `click` is a click of the left button within `area`.
pub fn is_clicked_left(area: &Area, click: Option<Click>) -> (yes: bool)
    ensures
        yes == clicked_left(*area, click),
{
    match click {
        Some(click) => match click.button {
            ClickButton::Left => contains(*area, click.pos),
            _ => false,
        },
        None => false,
    }
}

/// Where a widget ends up on a screen that shows scrolled content.
#[derive(Debug, Clone, Copy, PartialEq, Eq)]
pub enum Placement {
    /// The widget lies above or below the screen.
    Hidden,
    /// All lines of the widget are on the screen, in the given area.
    Whole(Area),
    /// Only some lines of the widget are on the screen.
    Clipped {
        /// The area of the screen that shows the widget.
        overlap: Area,
        /// The line of the widget that the first line of `overlap` shows.
        first_line: u16,
        /// The width at which the widget is to be drawn before its lines
        /// are brought to the screen.
        width: u16,
    },
}

/// The line of the screen on which content of the line `y` ends up when
/// the content is scrolled up by `scroll` lines.
pub open spec fn scrolled_line(y: u16, scroll: i32) -> int {
    y - scroll
}

/// Where a widget that is drawn to `area` of the content ends up on a
/// screen of `frame_width` columns and `frame_height` lines, when the
/// content is scrolled up by `scroll` lines.
pub open spec fn placement_of(frame_width: u16, frame_height: u16, scroll: i32, area: Area) -> Placement {
    let top = scrolled_line(area.y, scroll);
    let end = top + area.height;
    if end <= 0 || top >= frame_height {
        Placement::Hidden
    } else if 0 <= top && end <= frame_height {
        Placement::Whole(Area { x: area.x, y: top as u16, width: area.width, height: area.height })
    } else {
        let frame = Area { x: 0, y: 0, width: frame_width, height: frame_height };
        let shown = Area {
            x: area.x,
            y: if top > 0 {
                top as u16
            } else {
                0
            },
            width: area.width,
            height: if top < 0 {
                (area.height + top) as u16
            } else {
                area.height
            },
        };
        let overlap = frame.common(shown);
        Placement::Clipped {
            overlap,
            first_line: (overlap.y - top) as u16,
            width: if frame_width >= area.x {
                (frame_width - area.x) as u16
            } else {
                0
            },
        }
    }
}

/// Works out where a widget that is drawn to `area` of the content ends up
/// on the screen. What is shown of a clipped widget lies on the screen, and
/// the lines and columns that are shown exist in the widget. Of a widget
/// to the right of the screen no column is shown.
pub fn place(frame_width: u16, frame_height: u16, scroll: i32, area: Area) -> (placement: Placement)
    ensures
        placement == placement_of(frame_width, frame_height, scroll, area),
        match placement {
            Placement::Hidden => true,
            Placement::Whole(shown) => shown.y + shown.height <= frame_height,
            Placement::Clipped { overlap, first_line, width } => {
                &&& overlap.width > 0 ==> overlap.x + overlap.width <= frame_width
                &&& overlap.y + overlap.height <= frame_height
                &&& first_line + overlap.height <= area.height
                &&& overlap.width <= width
            },
        },
{
    let top: i64 = area.y as i64 - scroll as i64;
    let end: i64 = top + area.height as i64;
    if end <= 0 || top >= frame_height as i64 {
        return Placement::Hidden;
    }
    if 0 <= top && end <= frame_height as i64 {
        return Placement::Whole(
            Area { x: area.x, y: top as u16, width: area.width, height: area.height },
        );
    }
    let frame = Area { x: 0, y: 0, width: frame_width, height: frame_height };
    let shown = Area {
        x: area.x,
        y: if top > 0 {
            top as u16
        } else {
            0
        },
        width: area.width,
        // The lines that were cut off at the top are not shown.
        height: if top < 0 {
            (area.height as i64 + top) as u16
        } else {
            area.height
        },
    };
    let overlap = intersection(frame, shown);
    Placement::Clipped {
        overlap,
        first_line: (overlap.y as i64 - top) as u16,
        width: if frame_width >= area.x {
            frame_width - area.x
        } else {
            0
        },
    }
}

/// The line below the lowest widget, after a widget was drawn to `area`.
pub fn lowest_line(next_y: u16, area: Area) -> (lowest: u16)
    ensures
        lowest == if next_y >= area.bottom() {
            next_y as int
        } else {
            area.bottom()
        },
{
    let bottom = if area.height > u16::MAX - area.y {
        u16::MAX
    } else {
        area.y + area.height
    };
    if next_y >= bottom {
        next_y
    } else {
        bottom
    }
}

/// The scroll value with which the lowest widget just touches the bottom
/// of the screen; zero if the widgets do not reach the bottom.
pub fn max_scroll(next_y: u16, frame_height: u16) -> (scroll: i32)
    ensures
        scroll == if next_y >= frame_height {
            next_y - frame_height
        } else {
            0
        },
{
    if next_y >= frame_height {
        (next_y - frame_height) as i32
    } else {
        0
    }
}

/// The scroll value after scrolling by `by` lines: content is never
/// scrolled down below its first line.
pub fn scrolled(scroll: i32, by: i32) -> (now: i32)
    ensures
        now == if scroll + by < 0 {
            0
        } else if scroll + by > i32::MAX {
            i32::MAX as int
        } else {
            scroll + by
        },
{
    let sum: i64 = scroll as i64 + by as i64;
    if sum < 0 {
        0
    } else if sum > i32::MAX as i64 {
        i32::MAX
    } else {
        sum as i32
    }
}

} // verus!
