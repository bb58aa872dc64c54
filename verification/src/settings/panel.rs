//! Drawing of the settings panel.

use vstd::prelude::*;
use vstd::string::*;

use crate::render;
use crate::render::{print, print_times, put, BorderStyle, Color, Draw, DrawOp};
use crate::settings;
use crate::settings::{origin, Settings};

verus! {

#[verifier::allow_in_spec]
pub fn panel_bg() -> Color
    returns
        (Color::Rgb { r: 16, g: 18, b: 24 }),
{
    Color::Rgb { r: 16, g: 18, b: 24 }
}

#[verifier::allow_in_spec]
pub fn focus_bg() -> Color
    returns
        (Color::Rgb { r: 26, g: 32, b: 44 }),
{
    Color::Rgb { r: 26, g: 32, b: 44 }
}

#[verifier::allow_in_spec]
pub fn section_fg() -> Color
    returns
        (Color::Rgb { r: 75, g: 90, b: 110 }),
{
    Color::Rgb { r: 75, g: 90, b: 110 }
}

#[verifier::allow_in_spec]
pub fn label_fg() -> Color
    returns
        (Color::Rgb { r: 190, g: 200, b: 212 }),
{
    Color::Rgb { r: 190, g: 200, b: 212 }
}

#[verifier::allow_in_spec]
pub fn dim_fg() -> Color
    returns
        (Color::Rgb { r: 90, g: 98, b: 110 }),
{
    Color::Rgb { r: 90, g: 98, b: 110 }
}

#[verifier::allow_in_spec]
pub fn accent() -> Color
    returns
        (Color::Rgb { r: 102, g: 217, b: 239 }),
{
    Color::Rgb { r: 102, g: 217, b: 239 }
}

#[verifier::allow_in_spec]
pub fn divider_fg() -> Color
    returns
        (Color::Rgb { r: 36, g: 42, b: 52 }),
{
    Color::Rgb { r: 36, g: 42, b: 52 }
}

#[verifier::allow_in_spec]
pub fn warn_fg() -> Color
    returns
        (Color::Rgb { r: 255, g: 110, b: 110 }),
{
    Color::Rgb { r: 255, g: 110, b: 110 }
}

#[verifier::allow_in_spec]
pub fn backdrop_bg() -> Color
    returns
        (Color::Rgb { r: 4, g: 5, b: 8 }),
{
    Color::Rgb { r: 4, g: 5, b: 8 }
}

/// A text of `n` equal characters.
pub open spec fn run_of(c: char, n: nat) -> Seq<char> {
    Seq::new(n, |i: int| c)
}

fn repeat_char(c: char, n: usize) -> (r: String)
    ensures
        r@ == run_of(c, n as nat),
{
    let mut out = String::new();
    let mut i: usize = 0;
    while i < n
        invariant
            i <= n,
            out@ == run_of(c, i as nat),
        decreases n - i,
    {
        out.push(c);
        i += 1;
        assert(out@ =~= run_of(c, i as nat));
    }
    out
}

// ─── Pieces ────────────────────────────────────────────────

/// A text at a cell.
pub open spec fn text_at(x: int, y: int, bg: Color, fg: Color, bold: bool, s: Seq<char>) -> Seq<Draw> {
    if bold {
        seq![
            Draw::MoveTo(x as u16, y as u16),
            Draw::Background(bg),
            Draw::Foreground(fg),
            Draw::Bold,
            Draw::Print(s),
            Draw::ResetAttributes,
        ]
    } else {
        seq![
            Draw::MoveTo(x as u16, y as u16),
            Draw::Background(bg),
            Draw::Foreground(fg),
            Draw::Print(s),
        ]
    }
}

fn put_text(ops: &mut Vec<DrawOp>, x: u16, y: u16, bg: Color, fg: Color, bold: bool, s: &str)
    ensures
        render::drawn(final(ops)@) == render::drawn(old(ops)@) + text_at(
            x as int,
            y as int,
            bg,
            fg,
            bold,
            s@,
        ),
{
    put(ops, DrawOp::MoveTo(x, y));
    put(ops, DrawOp::Background(bg));
    put(ops, DrawOp::Foreground(fg));
    if bold {
        put(ops, DrawOp::Bold);
    }
    print(ops, s);
    if bold {
        put(ops, DrawOp::ResetAttributes);
    }
    assert(render::drawn(ops@) =~= render::drawn(old(ops)@) + text_at(
        x as int,
        y as int,
        bg,
        fg,
        bold,
        s@,
    ));
}

/// A divider of the panel.
pub open spec fn divider(x: int, y: int) -> Seq<Draw> {
    text_at(x, y, panel_bg(), divider_fg(), false, run_of('─', 44))
}

fn put_divider(ops: &mut Vec<DrawOp>, x: u16, y: u16)
    ensures
        render::drawn(final(ops)@) == render::drawn(old(ops)@) + divider(x as int, y as int),
{
    let line = repeat_char('─', 44);
    put_text(ops, x, y, panel_bg(), divider_fg(), false, line.as_str());
}

/// The background of an item and the mark of the one that has the focus.
pub open spec fn item_ground(x: int, y: int, focused: bool) -> Seq<Draw> {
    seq![
        Draw::MoveTo((x - 1) as u16, y as u16),
        Draw::Background(
            if focused {
                focus_bg()
            } else {
                panel_bg()
            },
        ),
    ] + render::repeated(" "@, 46) + if focused {
        seq![
            Draw::MoveTo((x - 1) as u16, y as u16),
            Draw::Background(focus_bg()),
            Draw::Foreground(accent()),
            Draw::Print("▎›"@),
        ]
    } else {
        seq![]
    }
}

fn put_ground(ops: &mut Vec<DrawOp>, x: u16, y: u16, focused: bool)
    requires
        x >= 1,
    ensures
        render::drawn(final(ops)@) == render::drawn(old(ops)@) + item_ground(
            x as int,
            y as int,
            focused,
        ),
{
    put(ops, DrawOp::MoveTo(x - 1, y));
    put(
        ops,
        DrawOp::Background(
            if focused {
                focus_bg()
            } else {
                panel_bg()
            },
        ),
    );
    print_times(ops, " ", 46);
    if focused {
        put(ops, DrawOp::MoveTo(x - 1, y));
        put(ops, DrawOp::Background(focus_bg()));
        put(ops, DrawOp::Foreground(accent()));
        print(ops, "▎›");
    }
    assert(render::drawn(ops@) =~= render::drawn(old(ops)@) + item_ground(
        x as int,
        y as int,
        focused,
    ));
}

/// A tag of `len` cells that ends at the right edge.
pub open spec fn tag_at(xr: int, y: int, bg: Color, fg: Color, tag: Seq<char>, len: int) -> Seq<Draw> {
    text_at(xr - len, y, bg, fg, false, tag)
}

/// The label of an item.
pub open spec fn item_label(
    x: int,
    y: int,
    focused: bool,
    plain_fg: Color,
    hot_fg: Color,
    icon: Option<bool>,
    name: Seq<char>,
) -> Seq<Draw> {
    seq![
        Draw::MoveTo(
            (if focused {
                x + 3
            } else {
                x + 1
            }) as u16,
            y as u16,
        ),
        Draw::Background(
            if focused {
                focus_bg()
            } else {
                panel_bg()
            },
        ),
    ] + (match icon {
        Some(true) => seq![Draw::Foreground(accent()), Draw::Print("●"@), Draw::Print(" "@)],
        Some(false) => seq![Draw::Foreground(dim_fg()), Draw::Print("○"@), Draw::Print(" "@)],
        None => seq![],
    }) + (if focused {
        seq![Draw::Foreground(hot_fg), Draw::Bold, Draw::Print(name), Draw::ResetAttributes]
    } else {
        seq![Draw::Foreground(plain_fg), Draw::Print(name)]
    })
}

fn put_label(
    ops: &mut Vec<DrawOp>,
    x: u16,
    y: u16,
    focused: bool,
    plain_fg: Color,
    hot_fg: Color,
    icon: Option<bool>,
    name: &str,
)
    requires
        x < 0xfff0,
    ensures
        render::drawn(final(ops)@) == render::drawn(old(ops)@) + item_label(
            x as int,
            y as int,
            focused,
            plain_fg,
            hot_fg,
            icon,
            name@,
        ),
{
    let nx: u16 = if focused {
        x + 3
    } else {
        x + 1
    };
    put(ops, DrawOp::MoveTo(nx, y));
    put(
        ops,
        DrawOp::Background(
            if focused {
                focus_bg()
            } else {
                panel_bg()
            },
        ),
    );
    match icon {
        Some(sel) => {
            if sel {
                put(ops, DrawOp::Foreground(accent()));
                print(ops, "●");
            } else {
                put(ops, DrawOp::Foreground(dim_fg()));
                print(ops, "○");
            }
            print(ops, " ");
        },
        None => {},
    }
    if focused {
        put(ops, DrawOp::Foreground(hot_fg));
        put(ops, DrawOp::Bold);
        print(ops, name);
        put(ops, DrawOp::ResetAttributes);
    } else {
        put(ops, DrawOp::Foreground(plain_fg));
        print(ops, name);
    }
    assert(render::drawn(ops@) =~= render::drawn(old(ops)@) + item_label(
        x as int,
        y as int,
        focused,
        plain_fg,
        hot_fg,
        icon,
        name@,
    ));
}

// ─── Items ─────────────────────────────────────────────────

pub open spec fn ground_color(focused: bool) -> Color {
    if focused {
        focus_bg()
    } else {
        panel_bg()
    }
}

/// A border style: a dot for the one in force, which is tagged `active`.
pub open spec fn border_drawn(o: Seq<Draw>, s: Settings, x: int, oy: int, item: int, name: Seq<char>, style: BorderStyle) -> Seq<Draw> {
    let y = oy + settings::item_row(item);
    let f = s.focused == item;
    let sel = s.border_style == style;
    let o = o + item_ground(x, y, f);
    let o = o + item_label(x, y, f, label_fg(), Color::White, Some(sel), name);
    if sel {
        o + tag_at(x + 44, y, ground_color(f), accent(), "active"@, 6)
    } else {
        o
    }
}

/// A switch, tagged with its value.
pub open spec fn toggle_drawn(o: Seq<Draw>, s: Settings, x: int, oy: int, item: int, name: Seq<char>, value: bool) -> Seq<Draw> {
    let y = oy + settings::item_row(item);
    let f = s.focused == item;
    let o = o + item_ground(x, y, f);
    let o = o + item_label(x, y, f, label_fg(), Color::White, None, name);
    if value {
        o + tag_at(x + 44, y, ground_color(f), accent(), "ON"@, 2)
    } else {
        o + tag_at(x + 44, y, ground_color(f), dim_fg(), "OFF"@, 3)
    }
}

/// The item that closes the panel.
pub open spec fn close_drawn(o: Seq<Draw>, s: Settings, x: int, oy: int) -> Seq<Draw> {
    let y = oy + 16;
    let f = s.focused == 8;
    let o = o + item_ground(x, y, f);
    let o = o + item_label(x, y, f, dim_fg(), warn_fg(), None, "Close Settings"@);
    o + tag_at(x + 44, y, ground_color(f), dim_fg(), "q / Esc"@, 7)
}

/// The first `k` rows of the panel's background.
pub open spec fn panel_rows(o: Seq<Draw>, ox: int, oy: int, k: nat) -> Seq<Draw>
    decreases k,
{
    if k == 0 {
        o
    } else {
        panel_rows(o, ox, oy, (k - 1) as nat) + seq![
            Draw::MoveTo(ox as u16, (oy + k - 1) as u16),
            Draw::Background(panel_bg()),
            Draw::Print(run_of(' ', 52)),
        ]
    }
}

/// The panel on top of what was drawn before. On a screen that is too small
/// nothing is drawn.
pub open spec fn panel_drawn(o: Seq<Draw>, s: Settings, tw: u16, th: u16, broadcast: bool) -> Seq<Draw> {
    if tw < 56 || th < 22 {
        o
    } else {
        let (ox, oy) = settings::panel_origin(tw, th);
        let x = ox + 4;
        let o = o + seq![Draw::Background(backdrop_bg()), Draw::ClearAll];
        let o = panel_rows(o, ox, oy, 20);
        let o = o + text_at(x, oy + 1, panel_bg(), Color::White, true, "Settings"@);
        let o = o + text_at(
            x,
            oy + 2,
            panel_bg(),
            dim_fg(),
            false,
            "j/k move  Enter apply  1-5 border  q close"@,
        );
        let o = o + text_at(x, oy + 4, panel_bg(), section_fg(), true, "BORDER STYLE"@);
        let o = border_drawn(o, s, x, oy, 0, "Single"@, BorderStyle::Single);
        let o = border_drawn(o, s, x, oy, 1, "Rounded"@, BorderStyle::Rounded);
        let o = border_drawn(o, s, x, oy, 2, "Heavy"@, BorderStyle::Heavy);
        let o = border_drawn(o, s, x, oy, 3, "Double"@, BorderStyle::Double);
        let o = border_drawn(o, s, x, oy, 4, "None"@, BorderStyle::Blank);
        let o = o + divider(x, oy + 10);
        let o = o + text_at(x, oy + 11, panel_bg(), section_fg(), true, "DISPLAY"@);
        let o = toggle_drawn(o, s, x, oy, 5, "Status Bar"@, s.show_status_bar);
        let o = toggle_drawn(o, s, x, oy, 6, "Tab Bar"@, s.show_tab_bar);
        let o = toggle_drawn(o, s, x, oy, 7, "Broadcast"@, broadcast);
        let o = o + divider(x, oy + 15);
        let o = close_drawn(o, s, x, oy);
        o + seq![Draw::ResetColor, Draw::ResetAttributes]
    }
}

fn item_bg(focused: bool) -> (r: Color)
    ensures
        r == ground_color(focused),
{
    if focused {
        focus_bg()
    } else {
        panel_bg()
    }
}

impl Settings {
    fn item_border(
        &self,
        ops: &mut Vec<DrawOp>,
        x: u16,
        oy: u16,
        item: usize,
        name: &str,
        style: BorderStyle,
    )
        requires
            4 <= x < 0xff00,
            oy < 0xff00,
            item < 5,
        ensures
            render::drawn(final(ops)@) == border_drawn(
                render::drawn(old(ops)@),
                *self,
                x as int,
                oy as int,
                item as int,
                name@,
                style,
            ),
    {
        let y: u16 = oy + 5 + item as u16;
        let f = self.focused == item;
        let sel = self.border_style == style;
        put_ground(ops, x, y, f);
        put_label(ops, x, y, f, label_fg(), Color::White, Some(sel), name);
        if sel {
            put_text(ops, x + 44 - 6, y, item_bg(f), accent(), false, "active");
        }
    }

    fn item_toggle(
        &self,
        ops: &mut Vec<DrawOp>,
        x: u16,
        oy: u16,
        item: usize,
        label: &str,
        value: bool,
    )
        requires
            4 <= x < 0xff00,
            oy < 0xff00,
            5 <= item < 8,
        ensures
            render::drawn(final(ops)@) == toggle_drawn(
                render::drawn(old(ops)@),
                *self,
                x as int,
                oy as int,
                item as int,
                label@,
                value,
            ),
    {
        let y: u16 = oy + 7 + item as u16;
        let f = self.focused == item;
        put_ground(ops, x, y, f);
        put_label(ops, x, y, f, label_fg(), Color::White, None, label);
        if value {
            put_text(ops, x + 44 - 2, y, item_bg(f), accent(), false, "ON");
        } else {
            put_text(ops, x + 44 - 3, y, item_bg(f), dim_fg(), false, "OFF");
        }
    }

    fn item_close(&self, ops: &mut Vec<DrawOp>, x: u16, oy: u16)
        requires
            4 <= x < 0xff00,
            oy < 0xff00,
        ensures
            render::drawn(final(ops)@) == close_drawn(
                render::drawn(old(ops)@),
                *self,
                x as int,
                oy as int,
            ),
    {
        let y: u16 = oy + 16;
        let f = self.focused == 8;
        put_ground(ops, x, y, f);
        put_label(ops, x, y, f, dim_fg(), warn_fg(), None, "Close Settings");
        put_text(ops, x + 44 - 7, y, item_bg(f), dim_fg(), false, "q / Esc");
    }

    fn panel_background(&self, ops: &mut Vec<DrawOp>, ox: u16, oy: u16)
        requires
            oy < 0xff00,
        ensures
            render::drawn(final(ops)@) == panel_rows(
                render::drawn(old(ops)@),
                ox as int,
                oy as int,
                20,
            ),
    {
        let blank = repeat_char(' ', 52);
        let mut dy: u16 = 0;
        while dy < 20
            invariant
                dy <= 20,
                oy < 0xff00,
                blank@ == run_of(' ', 52),
                render::drawn(ops@) == panel_rows(
                    render::drawn(old(ops)@),
                    ox as int,
                    oy as int,
                    dy as nat,
                ),
            decreases 20 - dy,
        {
            let ghost before = render::drawn(ops@);
            put(ops, DrawOp::MoveTo(ox, oy + dy));
            put(ops, DrawOp::Background(panel_bg()));
            print(ops, blank.as_str());
            dy += 1;
            assert(render::drawn(ops@) =~= before + seq![
                Draw::MoveTo(ox, (oy + dy - 1) as u16),
                Draw::Background(panel_bg()),
                Draw::Print(run_of(' ', 52)),
            ]);
        }
    }

    /// Draws the settings panel.
    pub fn render_overlay(&self, ops: &mut Vec<DrawOp>, tw: u16, th: u16, broadcast: bool)
        ensures
            render::drawn(final(ops)@) == panel_drawn(
                render::drawn(old(ops)@),
                *self,
                tw,
                th,
                broadcast,
            ),
    {
        if tw < 56 || th < 22 {
            return;
        }
        let (ox, oy) = origin(tw, th);
        let x: u16 = ox + 4;
        put(ops, DrawOp::Background(backdrop_bg()));
        put(ops, DrawOp::ClearAll);
        assert(render::drawn(ops@) =~= render::drawn(old(ops)@) + seq![
            Draw::Background(backdrop_bg()),
            Draw::ClearAll,
        ]);
        self.panel_background(ops, ox, oy);
        put_text(ops, x, oy + 1, panel_bg(), Color::White, true, "Settings");
        put_text(
            ops,
            x,
            oy + 2,
            panel_bg(),
            dim_fg(),
            false,
            "j/k move  Enter apply  1-5 border  q close",
        );
        put_text(ops, x, oy + 4, panel_bg(), section_fg(), true, "BORDER STYLE");
        self.item_border(ops, x, oy, 0, "Single", BorderStyle::Single);
        self.item_border(ops, x, oy, 1, "Rounded", BorderStyle::Rounded);
        self.item_border(ops, x, oy, 2, "Heavy", BorderStyle::Heavy);
        self.item_border(ops, x, oy, 3, "Double", BorderStyle::Double);
        self.item_border(ops, x, oy, 4, "None", BorderStyle::Blank);
        put_divider(ops, x, oy + 10);
        put_text(ops, x, oy + 11, panel_bg(), section_fg(), true, "DISPLAY");
        self.item_toggle(ops, x, oy, 5, "Status Bar", self.show_status_bar);
        self.item_toggle(ops, x, oy, 6, "Tab Bar", self.show_tab_bar);
        self.item_toggle(ops, x, oy, 7, "Broadcast", broadcast);
        put_divider(ops, x, oy + 15);
        self.item_close(ops, x, oy);
        let ghost before = render::drawn(ops@);
        put(ops, DrawOp::ResetColor);
        put(ops, DrawOp::ResetAttributes);
        assert(render::drawn(ops@) =~= before + seq![Draw::ResetColor, Draw::ResetAttributes]);
    }
}

} // verus!
