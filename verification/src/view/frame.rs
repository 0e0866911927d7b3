//! A whole frame: the header, the active space, the hint bar, and what is in front.
use vstd::prelude::*;

use crate::app::state::{App, AppModel};
use crate::app::types::{Overlay, PaneFocus, Rect, Space, TWO_PANE_MIN_WIDTH};
use crate::text::texts;
use crate::view::chrome::{header_paints, hint_paint, render_hint_bar, tabs};
use crate::view::detail::{DetailModel, DetailTexts};
use crate::view::layout::{
    asked, body_layout, cut, fills, has_room, on_screen, popup, popup_rect, row_top, side_by_side,
    stack, BodyLayout, Row,
};
use crate::view::network::{link_models, Link, LinkModel};
use crate::view::popups::{
    doctor_paints, editor_paints, help_paints, load_paints, palette_paints, picker_paints,
    render_help_overlay, save_paints, scout_paints,
};
use crate::view::style::{append, nothing, paint, paints_of, Paint, PaintModel};

verus! {

/// What a frame shows that is worked out elsewhere.
pub struct FrameTexts {
    /// The total message rate.
    pub total_rate: String,
    pub detail: DetailTexts,
    /// The observed topology.
    pub links: Vec<Link>,
    /// The current value of each field that can be plotted.
    pub field_values: Vec<String>,
}

/// What is worked out elsewhere, as a mathematical value.
pub struct FrameModel {
    pub total_rate: Seq<char>,
    pub detail: DetailModel,
    pub links: Seq<LinkModel>,
    pub field_values: Seq<Seq<char>>,
}

impl View for FrameTexts {
    type V = FrameModel;

    open spec fn view(&self) -> FrameModel {
        FrameModel {
            total_rate: self.total_rate@,
            detail: self.detail@,
            links: link_models(self.links@),
            field_values: texts(self.field_values@),
        }
    }
}

/// Where the parts of a frame stand.
pub struct FrameAreas {
    /// Too narrow for the second header line.
    pub compact: bool,
    pub line0: Rect,
    pub line1: Rect,
    pub body: Rect,
    pub hint: Rect,
    pub panes: BodyLayout,
    /// The two parts of the detail of a key.
    pub heading: Rect,
    pub detail_body: Rect,
    /// The rows inside the palette and the port switcher.
    pub palette: Vec<Rect>,
    pub scout: Vec<Rect>,
}

/// The rows of a frame: the header, the body and the hints.
pub open spec fn frame_rows(compact: bool) -> Seq<Row> {
    seq![
        Row::Length(
            if compact {
                1
            } else {
                2
            },
        ),
        Row::Fill,
        Row::Length(1),
    ]
}

/// The lines of the header.
pub open spec fn header_rows(compact: bool) -> Seq<Row> {
    seq![
        Row::Length(1),
        Row::Length(
            if compact {
                0
            } else {
                1
            },
        ),
    ]
}

/// The parts of the detail of a key.
pub open spec fn detail_rows(contract: bool) -> Seq<Row> {
    seq![
        Row::Length(
            if contract {
                3
            } else {
                2
            },
        ),
        Row::Fill,
    ]
}

/// The rows inside the palette.
pub open spec fn palette_rows() -> Seq<Row> {
    seq![Row::Length(1), Row::Fill, Row::Length(1)]
}

/// The rows inside the port switcher.
pub open spec fn scout_rows() -> Seq<Row> {
    seq![Row::Length(1), Row::Length(1), Row::Length(1), Row::Fill, Row::Length(1)]
}

/// The inside of a popup over a body; the body where there is no room for it.
pub open spec fn popup_inside(body: Rect, w: u16, h: u16, min_w: u16, min_h: u16) -> Rect {
    match popup(body, w, h, min_w, min_h) {
        Some(p) => p.inside(),
        None => body,
    }
}

impl FrameAreas {
    /// The pane that shows the detail.
    pub open spec fn detail_pane(self) -> Rect {
        match self.panes {
            BodyLayout::Split { master, detail } => detail,
            BodyLayout::Single { pane, focus } => pane,
        }
    }

    /// Whether the areas are those of a terminal. The lines are as wide as it. Where it
    /// has room, the header stands at the top, the hints at the bottom, and the body
    /// takes what is left; and so on inside.
    pub open spec fn fits(self, area: Rect, focus: PaneFocus, contract: bool) -> bool {
        let rows = cut(area, frame_rows(self.compact));
        let inside = self.detail_pane().inside();
        let palette = popup_inside(self.body, 54, 16, 24, 6);
        let scout = popup_inside(self.body, 58, 16, 20, 8);
        &&& self.compact == (area.width < TWO_PANE_MIN_WIDTH)
        &&& self.line0.x == area.x && self.line0.width == area.width
        &&& self.line1.x == area.x && self.line1.width == area.width
        &&& self.body.x == area.x && self.body.width == area.width
        &&& self.hint.x == area.x && self.hint.width == area.width
        &&& has_room(area, frame_rows(self.compact)) ==> {
            &&& self.body == rows[1]
            &&& self.hint == rows[2]
            &&& self.line0 == cut(rows[0], header_rows(self.compact))[0]
            &&& self.line1 == cut(rows[0], header_rows(self.compact))[1]
        }
        &&& self.compact ==> self.panes == (BodyLayout::Single { pane: self.body, focus })
        &&& !self.compact ==> self.panes is Split
        &&& !self.compact && on_screen(self.body) ==> self.panes == side_by_side(self.body)
        &&& has_room(inside, detail_rows(contract)) ==> self.heading == cut(
            inside,
            detail_rows(contract),
        )[0] && self.detail_body == cut(inside, detail_rows(contract))[1]
        &&& self.palette@.len() == 3
        &&& has_room(palette, palette_rows()) ==> self.palette@ == cut(palette, palette_rows())
        &&& self.scout@.len() == 5
        &&& has_room(scout, scout_rows()) ==> self.scout@ == cut(scout, scout_rows())
    }
}

/// Cut a terminal into the parts of a frame; `contract` says whether a key's heading
/// has a line for its contract.
pub fn frame_areas(area: Rect, focus: PaneFocus, contract: bool) -> (a: FrameAreas)
    ensures
        a.fits(area, focus, contract),
{
    let compact = area.width < TWO_PANE_MIN_WIDTH;
    let header_h: u16 = if compact {
        1
    } else {
        2
    };
    let wanted = vec![Row::Length(header_h), Row::Fill, Row::Length(1)];
    assert(wanted@ =~= frame_rows(compact));
    let rows = stack(area, &wanted);
    let header = rows[0];
    let body = rows[1];
    let hint = rows[2];
    let second: u16 = if compact {
        0
    } else {
        1
    };
    let wanted = vec![Row::Length(1), Row::Length(second)];
    assert(wanted@ =~= header_rows(compact));
    let lines = stack(header, &wanted);
    let line0 = lines[0];
    let line1 = lines[1];
    proof {
        if has_room(area, frame_rows(compact)) {
            lemma_header_has_room(area, compact);
        }
    }
    let panes = body_layout(body, focus);
    let detail = match panes {
        BodyLayout::Split { master, detail } => detail,
        BodyLayout::Single { pane, focus } => pane,
    };
    let heading_h: u16 = if contract {
        3
    } else {
        2
    };
    let wanted = vec![Row::Length(heading_h), Row::Fill];
    assert(wanted@ =~= detail_rows(contract));
    let parts = stack(detail.inner(), &wanted);
    let inside_palette = match popup_rect(body, 54, 16, 24, 6) {
        Some(p) => p.inner(),
        None => body,
    };
    let inside_scout = match popup_rect(body, 58, 16, 20, 8) {
        Some(p) => p.inner(),
        None => body,
    };
    let wanted = vec![Row::Length(1), Row::Fill, Row::Length(1)];
    assert(wanted@ =~= palette_rows());
    let palette = stack(inside_palette, &wanted);
    let wanted = vec![
        Row::Length(1),
        Row::Length(1),
        Row::Length(1),
        Row::Fill,
        Row::Length(1),
    ];
    assert(wanted@ =~= scout_rows());
    let scout = stack(inside_scout, &wanted);
    FrameAreas {
        compact,
        line0,
        line1,
        body,
        hint,
        panes,
        heading: parts[0],
        detail_body: parts[1],
        palette,
        scout,
    }
}

proof fn lemma_header_has_room(area: Rect, compact: bool)
    requires
        has_room(area, frame_rows(compact)),
    ensures
        has_room(cut(area, frame_rows(compact))[0], header_rows(compact)),
{
    reveal_with_fuel(asked, 4);
    reveal_with_fuel(fills, 4);
    let rows = header_rows(compact);
    assert(rows.drop_last().drop_last() =~= Seq::empty());
}

/// Where a terminal has room for them, the header, the body and the hints stand one
/// below the other and use it up.
pub proof fn law_a_frame_uses_up_the_terminal(area: Rect, a: FrameAreas, focus: PaneFocus, contract: bool)
    requires
        a.fits(area, focus, contract),
        has_room(area, frame_rows(a.compact)),
    ensures
        a.line0.y == area.y,
        a.line0.height == 1,
        a.line1.y == area.y + 1,
        a.body.y == a.line1.y + a.line1.height,
        a.hint.y == a.body.y + a.body.height,
        a.hint.height == 1,
        a.hint.y + a.hint.height == area.y + area.height,
{
    let rows = frame_rows(a.compact);
    lemma_header_has_room(area, a.compact);
    reveal_with_fuel(row_top, 4);
    reveal_with_fuel(asked, 4);
    assert(rows.drop_last().drop_last().drop_last() =~= Seq::empty());
}

impl AppModel {
    /// With the tabs of the header noted for the pointer.
    pub open spec fn header_drawn(self, line0: Rect) -> AppModel {
        AppModel { space_tab_rects: seq![tabs(self, line0).0, tabs(self, line0).1], ..self }
    }

    /// With the master list noted for the pointer.
    pub open spec fn master_drawn(self, area: Rect, now: u64) -> AppModel {
        match self.space {
            Space::Traffic => self.traffic_drawn(area),
            Space::Network => self.network_drawn(area, now),
        }
    }

    /// The master pane of the active space, once it was noted for the pointer.
    pub open spec fn master_paints(self, area: Rect, t: FrameModel, now: u64) -> Seq<PaintModel> {
        match self.space {
            Space::Traffic => self.traffic_master(area, t.detail.rates, now),
            Space::Network => self.network_master(area, now),
        }
    }

    /// The detail pane of the active space.
    pub open spec fn detail_paints(
        self,
        area: Rect,
        heading: Rect,
        body: Rect,
        t: FrameModel,
        now: u64,
    ) -> Seq<PaintModel> {
        match self.space {
            Space::Traffic => self.traffic_detail(area, heading, body, t.detail, now),
            Space::Network => self.network_detail(area, t.links, now),
        }
    }

    /// With the active space drawn.
    pub open spec fn space_drawn(self, panes: BodyLayout, now: u64) -> AppModel {
        match panes {
            BodyLayout::Split { master, detail } => self.master_drawn(master, now),
            BodyLayout::Single { pane, focus } => match focus {
                PaneFocus::Master => self.master_drawn(pane, now),
                PaneFocus::Detail => self,
            },
        }
    }

    /// The active space, once it was noted for the pointer.
    pub open spec fn space_paints(self, a: FrameAreas, t: FrameModel, now: u64) -> Seq<PaintModel> {
        match a.panes {
            BodyLayout::Split { master, detail } => self.master_paints(master, t, now)
                + self.detail_paints(detail, a.heading, a.detail_body, t, now),
            BodyLayout::Single { pane, focus } => match focus {
                PaneFocus::Master => self.master_paints(pane, t, now),
                PaneFocus::Detail => self.detail_paints(pane, a.heading, a.detail_body, t, now),
            },
        }
    }

    /// What is in front.
    pub open spec fn overlay_paints(self, a: FrameAreas, t: FrameModel) -> Seq<PaintModel> {
        match self.overlay {
            Overlay::Closed => Seq::empty(),
            Overlay::Help => help_paints(self.help_scroll, a.body),
            Overlay::Doctor => doctor_paints(self.doctor, a.body),
            Overlay::Palette => palette_paints(self.palette, a.body, a.palette@),
            Overlay::ScoutPort => scout_paints(self.scout, self.connection, a.body, a.scout@),
            Overlay::PlotPicker => picker_paints(self, t.field_values, a.body),
            Overlay::Publish => editor_paints(self.publish, a.body),
            Overlay::ProfileSave => save_paints(self, a.body),
            Overlay::ProfileLoad => load_paints(self, a.body),
        }
    }

    /// After a frame was drawn.
    pub open spec fn drawn(self, a: FrameAreas, now: u64) -> AppModel {
        self.toast_expired(now).header_drawn(a.line0).space_drawn(a.panes, now)
    }

    /// A frame, once it was noted for the pointer where things are.
    pub open spec fn frame_paints(self, a: FrameAreas, t: FrameModel, now: u64) -> Seq<PaintModel> {
        let settled = self.toast_expired(now);
        let after = self.drawn(a, now);
        header_paints(settled, a.line0, a.line1, a.compact, t.total_rate) + after.space_paints(
            a,
            t,
            now,
        ) + seq![hint_paint(after.space, a.hint)] + after.overlay_paints(a, t)
    }
}

impl App {
    fn render_master(&mut self, area: Rect, t: &FrameTexts, now: u64) -> (v: Vec<Paint>)
        ensures
            final(self)@ == old(self)@.master_drawn(area, now),
            paints_of(v@) == final(self)@.master_paints(area, t@, now),
    {
        match self.space {
            Space::Traffic => self.render_traffic_master(area, &t.detail.rates, now),
            Space::Network => {
                let ghost before = self@;
                let v = self.render_network_master(area, now);
                assert(self@.network_master(area, now) == before.network_master(area, now));
                v
            },
        }
    }

    fn render_detail(&self, area: Rect, a: &FrameAreas, t: &FrameTexts, now: u64) -> (v: Vec<Paint>)
        ensures
            paints_of(v@) == self@.detail_paints(area, a.heading, a.detail_body, t@, now),
    {
        match self.space {
            Space::Traffic => self.render_traffic_detail(
                area,
                a.heading,
                a.detail_body,
                &t.detail,
                now,
            ),
            Space::Network => self.render_network_detail(area, &t.links, now),
        }
    }

    fn render_space(&mut self, a: &FrameAreas, t: &FrameTexts, now: u64) -> (v: Vec<Paint>)
        ensures
            final(self)@ == old(self)@.space_drawn(a.panes, now),
            paints_of(v@) == final(self)@.space_paints(*a, t@, now),
    {
        match a.panes {
            BodyLayout::Split { master, detail } => {
                let mut v = self.render_master(master, t, now);
                append(&mut v, self.render_detail(detail, a, t, now));
                v
            },
            BodyLayout::Single { pane, focus } => match focus {
                PaneFocus::Master => self.render_master(pane, t, now),
                PaneFocus::Detail => self.render_detail(pane, a, t, now),
            },
        }
    }

    fn render_overlay(&self, a: &FrameAreas, t: &FrameTexts) -> (v: Vec<Paint>)
        requires
            a.palette@.len() == 3,
            a.scout@.len() == 5,
        ensures
            paints_of(v@) == self@.overlay_paints(*a, t@),
    {
        match self.overlay {
            Overlay::Closed => nothing(),
            Overlay::Help => render_help_overlay(self.help_scroll, a.body),
            Overlay::Doctor => self.render_doctor_overlay(a.body),
            Overlay::Palette => self.render_palette_overlay(a.body, &a.palette),
            Overlay::ScoutPort => self.render_scout_port_modal(a.body, &a.scout),
            Overlay::PlotPicker => self.render_plot_picker(&t.field_values, a.body),
            Overlay::Publish => self.render_publish_editor(a.body),
            Overlay::ProfileSave => self.render_profile_save(a.body),
            Overlay::ProfileLoad => self.render_profile_load(a.body),
        }
    }

    /// A frame in given areas. A toast that was shown long enough is taken down, and
    /// where things are drawn is noted for the pointer.
    pub fn render_in(&mut self, a: &FrameAreas, t: &FrameTexts, now: u64) -> (v: Vec<Paint>)
        requires
            a.palette@.len() == 3,
            a.scout@.len() == 5,
        ensures
            final(self)@ == old(self)@.drawn(*a, now),
            paints_of(v@) == old(self)@.frame_paints(*a, t@, now),
    {
        let ghost before = self@;
        self.expire_toast(now);
        let mut v = self.render_header(a.line0, a.line1, a.compact, t.total_rate.as_str());
        append(&mut v, self.render_space(a, t, now));
        paint(&mut v, render_hint_bar(self.space, a.hint));
        append(&mut v, self.render_overlay(a, t));
        assert(paints_of(v@) =~= before.frame_paints(*a, t@, now));
        v
    }

    /// A frame for a terminal of a size.
    pub fn render(&mut self, area: Rect, t: &FrameTexts, now: u64) -> (v: Vec<Paint>)
        ensures
            exists|a: FrameAreas|
                #![trigger a.fits(area, old(self)@.pane_focus, t@.detail.contract is Some)]
                {
                    &&& a.fits(area, old(self)@.pane_focus, t@.detail.contract is Some)
                    &&& final(self)@ == old(self)@.drawn(a, now)
                    &&& paints_of(v@) == old(self)@.frame_paints(a, t@, now)
                },
    {
        let a = frame_areas(area, self.pane_focus, t.detail.contract.is_some());
        let v = self.render_in(&a, t, now);
        assert(a.fits(area, old(self)@.pane_focus, t@.detail.contract is Some));
        v
    }
}

} // verus!
