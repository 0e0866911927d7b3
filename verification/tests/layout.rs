//! Where the parts of a frame stand on terminals of many sizes.

use zenmon::app::types::{PaneFocus, Rect};
use zenmon::view::frame::frame_areas;
use zenmon::view::layout::{body_layout, popup_rect, scroll_offset, BodyLayout};

fn rect(x: u16, y: u16, width: u16, height: u16) -> Rect {
    Rect { x, y, width, height }
}

#[test]
fn a_wide_terminal_is_cut_into_header_panes_and_hints() {
    let a = frame_areas(rect(0, 0, 120, 30), PaneFocus::Master, false);
    assert!(!a.compact);
    assert_eq!(a.line0, rect(0, 0, 120, 1));
    assert_eq!(a.line1, rect(0, 1, 120, 1));
    assert_eq!(a.body, rect(0, 2, 120, 27));
    assert_eq!(a.hint, rect(0, 29, 120, 1));
    assert_eq!(
        a.panes,
        BodyLayout::Split { master: rect(0, 2, 48, 27), detail: rect(48, 2, 72, 27) }
    );
    assert_eq!(a.heading, rect(49, 3, 70, 2));
    assert_eq!(a.detail_body, rect(49, 5, 70, 23));
}

#[test]
fn a_narrow_terminal_shows_one_pane_under_one_line() {
    let a = frame_areas(rect(0, 0, 60, 20), PaneFocus::Detail, true);
    assert!(a.compact);
    assert_eq!(a.line0, rect(0, 0, 60, 1));
    assert_eq!(a.line1.height, 0);
    assert_eq!(a.body, rect(0, 1, 60, 18));
    assert_eq!(a.hint, rect(0, 19, 60, 1));
    assert_eq!(a.panes, BodyLayout::Single { pane: a.body, focus: PaneFocus::Detail });
    assert_eq!(a.heading, rect(1, 2, 58, 3));
    assert_eq!(a.detail_body, rect(1, 5, 58, 13));
}

#[test]
fn the_rows_use_up_every_terminal_that_has_room() {
    for (x, y) in [(0, 0), (3, 5)] {
        for width in [20, 89, 90, 91, 133, 240] {
            for height in 3..80 {
                let area = rect(x, y, width, height);
                let a = frame_areas(area, PaneFocus::Master, false);
                let header = if width < 90 { 1 } else { 2 };
                assert_eq!(a.line0, rect(x, y, width, 1));
                assert_eq!(a.line1, rect(x, y + 1, width, header - 1));
                assert_eq!(a.body, rect(x, y + header, width, height - header - 1));
                assert_eq!(a.hint, rect(x, y + height - 1, width, 1));
            }
        }
    }
}

#[test]
fn the_panes_share_every_width() {
    for x in [0u16, 7] {
        for width in 90u16..1000 {
            let share = ((width as u32 * 40 + 50) / 100) as u16;
            assert_eq!(
                body_layout(rect(x, 2, width, 10), PaneFocus::Master),
                BodyLayout::Split {
                    master: rect(x, 2, share, 10),
                    detail: rect(x + share, 2, width - share, 10),
                }
            );
        }
    }
}

#[test]
fn nothing_reaches_out_of_a_terminal_without_room() {
    for height in 0..4 {
        for width in [1, 50, 100] {
            let area = rect(0, 0, width, height);
            let a = frame_areas(area, PaneFocus::Master, true);
            for r in [a.line0, a.line1, a.body, a.hint] {
                assert!(r.y + r.height <= height);
                assert_eq!(r.width, width);
            }
            assert_eq!(a.palette.len(), 3);
            assert_eq!(a.scout.len(), 5);
        }
    }
}

#[test]
fn the_rows_of_the_popups_follow_each_other() {
    let a = frame_areas(rect(0, 0, 120, 30), PaneFocus::Master, false);
    let p = popup_rect(a.body, 54, 16, 24, 6).unwrap();
    assert_eq!(p, rect(33, 7, 54, 16));
    assert_eq!(a.palette, vec![rect(34, 8, 52, 1), rect(34, 9, 52, 12), rect(34, 21, 52, 1)]);
    assert_eq!(a.scout.iter().map(|r| r.height).collect::<Vec<_>>(), vec![1, 1, 1, 10, 1]);
    assert_eq!(popup_rect(rect(0, 0, 10, 10), 54, 16, 24, 6), None);
}

#[test]
fn a_list_scrolls_only_past_its_last_row() {
    assert_eq!(scroll_offset(0, 10), 0);
    assert_eq!(scroll_offset(7, 10), 0);
    assert_eq!(scroll_offset(8, 10), 1);
    assert_eq!(scroll_offset(3, 2), 0);
}
