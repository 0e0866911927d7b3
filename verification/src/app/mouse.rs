//! Pointer input: wheel and clicks, and the geometry that turns a screen position
//! back into a list index.
use vstd::prelude::*;

use crate::app::network_pane::NetworkModel;
use crate::app::state::{App, AppModel};
use crate::app::tree_pane::PaneModel;
use crate::app::types::{MouseEvent, Overlay, PaneFocus, Rect, Space};

verus! {

/// Whether the tab at `i` was drawn around a cell.
pub open spec fn tab_holds(rects: Seq<Option<Rect>>, i: int, col: u16, row: u16) -> bool {
    rects[i] matches Some(r) && r.holds(col, row)
}

/// The space tab that a click hits.
pub open spec fn tab_at(rects: Seq<Option<Rect>>, col: u16, row: u16) -> Option<usize> {
    if tab_holds(rects, 0, col, row) {
        Some(0usize)
    } else if tab_holds(rects, 1, col, row) {
        Some(1usize)
    } else {
        None
    }
}

/// The space tab that a click at a cell hits.
pub fn space_tab_hit(rects: &[Option<Rect>; 2], col: u16, row: u16) -> (r: Option<usize>)
    ensures
        r == tab_at(rects@, col, row),
{
    if let Some(r) = rects[0] {
        if r.contains(col, row) {
            return Some(0);
        }
    }
    if let Some(r) = rects[1] {
        if r.contains(col, row) {
            return Some(1);
        }
    }
    None
}

/// The list item that a click on a row hits: not above the first item, not below
/// the list, and not past the last item.
pub open spec fn item_at(
    rect: Rect,
    click_row: u16,
    scroll_offset: usize,
    total_items: nat,
    first_item_row: u16,
) -> Option<nat> {
    if click_row < first_item_row || click_row >= rect.y + rect.height {
        None
    } else {
        let idx = (click_row - first_item_row) + scroll_offset;
        if idx < total_items {
            Some(idx as nat)
        } else {
            None
        }
    }
}

/// The list item that a click on a row hits.
///
/// `first_item_row` is the screen row of the first drawn item, `scroll_offset` the
/// number of items skipped before it.
pub fn list_hit(
    rect: Rect,
    click_row: u16,
    scroll_offset: usize,
    total_items: usize,
    first_item_row: u16,
) -> (r: Option<usize>)
    ensures
        match r {
            Some(i) => item_at(rect, click_row, scroll_offset, total_items as nat, first_item_row)
                == Some(i as nat) && i < total_items,
            None => item_at(rect, click_row, scroll_offset, total_items as nat, first_item_row)
                is None,
        },
{
    let bottom: u32 = rect.y as u32 + rect.height as u32;
    if click_row < first_item_row || click_row as u32 >= bottom {
        return None;
    }
    let row_in_list: usize = (click_row - first_item_row) as usize;
    if scroll_offset >= total_items || row_in_list >= total_items - scroll_offset {
        return None;
    }
    Some(row_in_list + scroll_offset)
}

impl AppModel {
    /// After the wheel turned by one step, with parity to the arrow keys.
    pub open spec fn wheeled(self, down: bool) -> AppModel {
        match self.space {
            Space::Traffic => AppModel { pane: self.pane.stepped(down), ..self },
            Space::Network => AppModel { network: self.network.stepped(down), ..self },
        }
    }

    /// After a click in the list of the Traffic space.
    pub open spec fn traffic_clicked(self, rect: Rect, row: u16) -> AppModel {
        let fresh = AppModel { pane: self.pane.refreshed(), ..self };
        match item_at(
            rect,
            row,
            self.list_scroll_offset,
            fresh.pane.rows.len(),
            self.list_first_item_row,
        ) {
            Some(i) => AppModel {
                pane: PaneModel { selected: i as usize, detail_scroll: 0, ..fresh.pane },
                pane_focus: PaneFocus::Detail,
                ..fresh
            },
            None => fresh,
        }
    }

    /// After a click in the list of the Network space. A header leaves the
    /// selection alone.
    pub open spec fn network_clicked(self, rect: Rect, row: u16) -> AppModel {
        match item_at(
            rect,
            row,
            self.list_scroll_offset,
            self.network_click_map.len(),
            self.list_first_item_row,
        ) {
            Some(i) => match self.network_click_map[i as int] {
                Some(sel) => AppModel {
                    network: NetworkModel {
                        network_selected: sel,
                        node_detail_scroll: 0,
                        ..self.network
                    },
                    pane_focus: PaneFocus::Detail,
                    ..self
                },
                None => self,
            },
            None => self,
        }
    }

    /// After a click: on a tab it goes to that space, in the list it selects the row
    /// under it and goes to its detail.
    pub open spec fn clicked(self, col: u16, row: u16) -> AppModel {
        match tab_at(self.space_tab_rects, col, row) {
            Some(i) => self.went(
                if i == 0 {
                    Space::Traffic
                } else {
                    Space::Network
                },
            ),
            None => match self.list_rect {
                None => self,
                Some(rect) => if !rect.holds(col, row) {
                    self
                } else {
                    match self.space {
                        Space::Traffic => self.traffic_clicked(rect, row),
                        Space::Network => self.network_clicked(rect, row),
                    }
                },
            },
        }
    }

    /// After the pointer did something. Nothing happens while a text is typed or an
    /// overlay is in front: those are driven by the keyboard.
    pub open spec fn pointed(self, ev: MouseEvent) -> AppModel {
        if self.typing() || self.overlay != Overlay::Closed {
            self
        } else {
            match ev {
                MouseEvent::LeftDown { column, row } => self.clicked(column, row),
                MouseEvent::ScrollUp => self.wheeled(false),
                MouseEvent::ScrollDown => self.wheeled(true),
                MouseEvent::Other => self,
            }
        }
    }
}

impl App {
    /// The pointer did something.
    pub fn handle_mouse(&mut self, ev: MouseEvent)
        ensures
            final(self)@ == old(self)@.pointed(ev),
    {
        if self.is_text_input_active() || self.overlay != Overlay::Closed {
            return;
        }
        match ev {
            MouseEvent::LeftDown { column, row } => self.handle_click(column, row),
            MouseEvent::ScrollUp => self.wheel(false),
            MouseEvent::ScrollDown => self.wheel(true),
            MouseEvent::Other => {},
        }
    }

    /// Move the selection of the active space by one step.
    pub fn wheel(&mut self, down: bool)
        ensures
            final(self)@ == old(self)@.wheeled(down),
    {
        match self.space {
            Space::Traffic => self.pane.move_tree_selection(down),
            Space::Network => self.network.move_network_selection(down),
        }
    }

    /// A click at a cell.
    pub fn handle_click(&mut self, col: u16, row: u16)
        ensures
            final(self)@ == old(self)@.clicked(col, row),
    {
        if let Some(idx) = space_tab_hit(&self.space_tab_rects, col, row) {
            self.space = if idx == 0 {
                Space::Traffic
            } else {
                Space::Network
            };
            self.pane_focus = PaneFocus::Master;
            return;
        }
        let rect = match self.list_rect {
            Some(rect) => rect,
            None => {
                return;
            },
        };
        if !rect.contains(col, row) {
            return;
        }
        match self.space {
            Space::Traffic => self.click_traffic(rect, row),
            Space::Network => self.click_network(rect, row),
        }
    }

    fn click_traffic(&mut self, rect: Rect, row: u16)
        ensures
            final(self)@ == old(self)@.traffic_clicked(rect, row),
    {
        self.pane.refresh_tree_rows();
        let total: usize = self.pane.tree_rows().len();
        assert(total == self@.pane.rows.len());
        if let Some(idx) = list_hit(
            rect,
            row,
            self.list_scroll_offset,
            total,
            self.list_first_item_row,
        ) {
            self.pane.selected = idx;
            self.pane.detail_scroll = 0;
            // Drill into the detail: nothing to see where both panes show, but the
            // intended action on a narrow terminal.
            self.pane_focus = PaneFocus::Detail;
        }
    }

    fn click_network(&mut self, rect: Rect, row: u16)
        ensures
            final(self)@ == old(self)@.network_clicked(rect, row),
    {
        let total: usize = self.network_click_map.len();
        if let Some(i) = list_hit(
            rect,
            row,
            self.list_scroll_offset,
            total,
            self.list_first_item_row,
        ) {
            if let Some(sel) = self.network_click_map[i] {
                self.network.network_selected = sel;
                self.network.node_detail_scroll = 0;
                self.pane_focus = PaneFocus::Detail;
            }
        }
    }
}

} // verus!
