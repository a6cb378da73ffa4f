use embassy_inspect::inspector::{Click, ClickButton, Position};
use embassy_inspect::screen::{
    is_clicked_left, lowest_line, max_scroll, place, scrolled, Area, Placement,
};
use ratatui::buffer::Buffer;
use ratatui::layout::Rect;
use ratatui::text::Text;
use ratatui::widgets::Widget;

/// A view onto scrolled content, which is drawn to a buffer of its own first.
struct ScrollView {
    buf: Buffer,
    scroll: i32,
    next_y: u16,
}

fn sv_area(rect: Rect) -> Area {
    Area { x: rect.x, y: rect.y, width: rect.width, height: rect.height }
}

fn sv_rect(area: Area) -> Rect {
    Rect { x: area.x, y: area.y, width: area.width, height: area.height }
}

impl ScrollView {
    fn new(width: u16, height: u16, scroll: i32) -> Self {
        ScrollView { buf: Buffer::empty(Rect::new(0, 0, width, height)), scroll, next_y: 0 }
    }

    fn render_widget<W: Widget>(&mut self, widget: W, area: Rect) -> Rect {
        self.next_y = lowest_line(self.next_y, sv_area(area));
        let frame = self.buf.area;
        match place(frame.width, frame.height, self.scroll, sv_area(area)) {
            Placement::Hidden => Rect::new(0, 0, 0, 0),
            Placement::Whole(shown) => {
                widget.render(sv_rect(shown), &mut self.buf);
                sv_rect(shown)
            }
            Placement::Clipped { overlap, first_line, width } => {
                let mut drawn = Buffer::empty(Rect::new(0, 0, width, area.height));
                widget.render(drawn.area, &mut drawn);
                if overlap.width > 0 {
                    for line in 0..overlap.height {
                        let to = frame.width as usize * (overlap.y + line) as usize
                            + overlap.x as usize;
                        let from = width as usize * (first_line + line) as usize;
                        self.buf.content[to..][..overlap.width as usize]
                            .clone_from_slice(&drawn.content[from..][..overlap.width as usize]);
                    }
                }
                sv_rect(overlap)
            }
        }
    }

    fn render(self, area: Rect, buf: &mut Buffer) {
        let overlap = area.intersection(Rect {
            x: area.x,
            y: area.y,
            width: self.buf.area.width,
            height: self.buf.area.height,
        });
        for (dst_row, src_row) in overlap.rows().zip(self.buf.area.rows()) {
            for (dst_col, src_col) in dst_row.columns().zip(src_row.columns()) {
                buf[dst_col.as_position()] = self.buf[src_col.as_position()].clone();
            }
        }
    }
}

fn draw_to_scroll_view(scroll_view: &mut ScrollView) {
    for y in 0..6 {
        let widget = Text::raw(format!("{}:\nABC\nDEF", y));

        let area = Rect::new(y, y * 3, 3, 3);
        scroll_view.render_widget(widget, area);
    }
}

#[test]
fn only_full_widgets() {
    let mut main_buf = Buffer::empty(Rect::new(0, 0, 6, 6));

    let mut scroll_view = ScrollView::new(6, 6, 0);
    draw_to_scroll_view(&mut scroll_view);

    scroll_view.render(main_buf.area, &mut main_buf);

    assert_eq!(
        main_buf,
        Buffer::with_lines(vec![
            "0:    ",
            "ABC   ",
            "DEF   ",
            " 1:   ",
            " ABC  ",
            " DEF  ",
        ])
    );
}

#[test]
fn widget_split() {
    let mut main_buf = Buffer::empty(Rect::new(0, 0, 6, 6));

    let mut scroll_view = ScrollView::new(6, 6, 1);
    draw_to_scroll_view(&mut scroll_view);

    scroll_view.render(main_buf.area, &mut main_buf);

    assert_eq!(
        main_buf,
        Buffer::with_lines(vec![
            "ABC   ",
            "DEF   ",
            " 1:   ",
            " ABC  ",
            " DEF  ",
            "  2:  ",
        ])
    );
}

#[test]
fn negative_scroll() {
    let mut main_buf = Buffer::empty(Rect::new(0, 0, 6, 6));

    let mut scroll_view = ScrollView::new(6, 6, -1);
    draw_to_scroll_view(&mut scroll_view);

    scroll_view.render(main_buf.area, &mut main_buf);

    assert_eq!(
        main_buf,
        Buffer::with_lines(vec![
            "      ",
            "0:    ",
            "ABC   ",
            "DEF   ",
            " 1:   ",
            " ABC  ",
        ])
    );
}

#[test]
fn x_cutoff() {
    let mut main_buf = Buffer::empty(Rect::new(0, 0, 2, 6));

    let mut scroll_view = ScrollView::new(2, 6, 0);
    draw_to_scroll_view(&mut scroll_view);

    scroll_view.render(main_buf.area, &mut main_buf);

    assert_eq!(
        main_buf,
        Buffer::with_lines(vec![
            "0:",
            "AB",
            "DE",
            " 1",
            " A",
            " D",
        ])
    );
}

#[test]
fn offset_scroll_view_render() {
    let mut main_buf = Buffer::empty(Rect::new(0, 0, 6, 6));

    let mut scroll_view = ScrollView::new(6, 6, 1);
    draw_to_scroll_view(&mut scroll_view);

    scroll_view.render(Rect::new(2, 2, 3, 3), &mut main_buf);

    assert_eq!(
        main_buf,
        Buffer::with_lines(vec![
            "      ",
            "      ",
            "  ABC ",
            "  DEF ",
            "   1: ",
            "      ",
        ])
    );
}

#[test]
fn main_buffer_offset() {
    let mut main_buf = Buffer::empty(Rect::new(2, 2, 6, 6));

    let mut scroll_view = ScrollView::new(6, 6, 1);
    draw_to_scroll_view(&mut scroll_view);

    scroll_view.render(main_buf.area, &mut main_buf);

    let mut target = Buffer::with_lines(vec![
        "ABC   ",
        "DEF   ",
        " 1:   ",
        " ABC  ",
        " DEF  ",
        "  2:  ",
    ]);
    target.area = Rect::new(2, 2, 6, 6);

    assert_eq!(main_buf, target);
}

fn at(x: u16, y: u16, width: u16, height: u16) -> Area {
    Area { x, y, width, height }
}

#[test]
fn widgets_above_and_below_the_screen_are_hidden() {
    assert_eq!(place(10, 5, 3, at(0, 0, 4, 3)), Placement::Hidden);
    assert_eq!(place(10, 5, 0, at(0, 5, 4, 3)), Placement::Hidden);
    assert_eq!(place(10, 5, -5, at(0, 0, 4, 3)), Placement::Hidden);
    assert_eq!(place(10, 5, 0, at(0, 2, 4, 0)), Placement::Whole(at(0, 2, 4, 0)));
    assert_eq!(place(10, 5, i32::MIN, at(0, 0, 4, 3)), Placement::Hidden);
    assert_eq!(place(10, 5, i32::MAX, at(0, u16::MAX, 4, 3)), Placement::Hidden);
}

#[test]
fn widgets_on_the_screen_are_moved_by_the_scroll() {
    assert_eq!(place(10, 5, 0, at(1, 2, 4, 3)), Placement::Whole(at(1, 2, 4, 3)));
    assert_eq!(place(10, 5, 2, at(1, 2, 4, 3)), Placement::Whole(at(1, 0, 4, 3)));
    assert_eq!(place(10, 5, -2, at(1, 0, 4, 3)), Placement::Whole(at(1, 2, 4, 3)));
    assert_eq!(place(10, 5, 0, at(8, 0, 4, 5)), Placement::Whole(at(8, 0, 4, 5)));
}

#[test]
fn clipped_widgets_show_the_lines_on_the_screen() {
    // Cut off at the top: the first two lines of the widget are not shown.
    assert_eq!(
        place(10, 5, 3, at(1, 1, 4, 4)),
        Placement::Clipped { overlap: at(1, 0, 4, 2), first_line: 2, width: 9 }
    );
    // Cut off at the bottom.
    assert_eq!(
        place(10, 5, 0, at(1, 3, 4, 4)),
        Placement::Clipped { overlap: at(1, 3, 4, 2), first_line: 0, width: 9 }
    );
    // Cut off at the top, at the bottom and at the right.
    assert_eq!(
        place(10, 5, 2, at(7, 0, 6, 9)),
        Placement::Clipped { overlap: at(7, 0, 3, 5), first_line: 2, width: 3 }
    );
    // To the right of the screen.
    assert_eq!(
        place(10, 5, 0, at(12, 3, 4, 4)),
        Placement::Clipped { overlap: at(12, 3, 0, 2), first_line: 0, width: 0 }
    );
}

#[test]
fn clicks_belong_to_the_area_they_lie_in() {
    let area = at(2, 3, 4, 2);
    let click = |x: u16, y: u16, button: ClickButton| {
        Some(Click { pos: Position { x, y }, button })
    };
    assert!(is_clicked_left(&area, click(2, 3, ClickButton::Left)));
    assert!(is_clicked_left(&area, click(5, 4, ClickButton::Left)));
    assert!(!is_clicked_left(&area, click(6, 4, ClickButton::Left)));
    assert!(!is_clicked_left(&area, click(5, 5, ClickButton::Left)));
    assert!(!is_clicked_left(&area, click(1, 3, ClickButton::Left)));
    assert!(!is_clicked_left(&area, click(2, 2, ClickButton::Left)));
    assert!(!is_clicked_left(&area, click(3, 3, ClickButton::Right)));
    assert!(!is_clicked_left(&area, click(3, 3, ClickButton::Middle)));
    assert!(!is_clicked_left(&area, None));
    assert!(!is_clicked_left(&at(0, 0, 0, 0), click(0, 0, ClickButton::Left)));
    let edge = at(u16::MAX - 1, 0, 5, 1);
    assert!(is_clicked_left(&edge, click(u16::MAX - 1, 0, ClickButton::Left)));
    assert!(!is_clicked_left(&edge, click(u16::MAX, 0, ClickButton::Left)));
}

#[test]
fn scrolling_stays_within_the_content() {
    assert_eq!(scrolled(0, 3), 3);
    assert_eq!(scrolled(3, -2), 1);
    assert_eq!(scrolled(3, -5), 0);
    assert_eq!(scrolled(i32::MAX, 1), i32::MAX);
    assert_eq!(scrolled(i32::MIN, i32::MIN), 0);
    assert_eq!(max_scroll(10, 4), 6);
    assert_eq!(max_scroll(4, 4), 0);
    assert_eq!(max_scroll(3, 4), 0);
    assert_eq!(lowest_line(0, at(0, 2, 1, 3)), 5);
    assert_eq!(lowest_line(7, at(0, 2, 1, 3)), 7);
    assert_eq!(lowest_line(7, at(0, u16::MAX, 1, 3)), u16::MAX);
}
