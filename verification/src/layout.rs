use vstd::prelude::*;

verus! {

// ---------------------------------------------------------------------------
// Window messages
// ---------------------------------------------------------------------------

/// The low 16 bits of a message parameter.
pub fn loword(value: u32) -> (r: u16)
    ensures
        r == value % 0x10000,
{
    let r = (value & 0xFFFF) as u16;
    assert((value & 0xFFFF) == value % 0x10000) by (bit_vector);
    r
}

/// The high 16 bits of a message parameter.
pub fn hiword(value: u32) -> (r: u16)
    ensures
        r == value / 0x10000,
{
    let r = ((value >> 16) & 0xFFFF) as u16;
    assert(((value >> 16) & 0xFFFF) == value / 0x10000) by (bit_vector);
    r
}

/// A message parameter is its high word followed by its low word.
pub proof fn lemma_words_recombine(value: u32)
    ensures
        (value / 0x10000) * 0x10000 + value % 0x10000 == value,
{
    assert((value / 0x10000) * 0x10000 + value % 0x10000 == value) by (nonlinear_arith);
}

/// A colour as Windows packs it: red in the low byte, then green, then blue.
pub fn rgb(r: u8, g: u8, b: u8) -> (c: u32)
    ensures
        c == r as int + 0x100 * (g as int) + 0x10000 * (b as int),
{
    let c = (r as u32) | ((g as u32) << 8) | ((b as u32) << 16);
    assert((r as u32) | ((g as u32) << 8) | ((b as u32) << 16) == r as u32 + 0x100 * (g as u32) + 0x10000 * (b as u32)) by (bit_vector);
    c
}

/// Whether a list-view item state shows a ticked checkbox: its state image
/// (bits 12 to 15) is the second one.
pub fn list_view_checked_state(raw_state: u32) -> (b: bool)
    ensures
        b == ((raw_state / 0x1000) % 16 == 2),
{
    assert(((raw_state & 0xF000) >> 12) == (raw_state / 0x1000) % 16) by (bit_vector);
    ((raw_state & 0xF000) >> 12) == 2
}

/// What a list-view item change asks for.
pub struct ItemChange {
    /// The checkbox of the row changed.
    pub checkbox: bool,
    /// The row became selected or focused.
    pub focus: bool,
}

/// Reads a list-view item change: whether its state changed (`changed` has
/// the state bit), whether the checkbox image differs between the old and
/// new states, and whether the row gained the selection or the focus.
pub fn item_change(changed: u32, new_state: u32, old_state: u32) -> (r: ItemChange)
    ensures
        r.checkbox == ((changed & 0x8) != 0 && ((new_state ^ old_state) & 0xF000) != 0),
        r.focus == ((changed & 0x8) != 0 && ((new_state ^ old_state) & 0x3) != 0 && (new_state & 0x3) != 0),
{
    let state_changed = (changed & 0x8) != 0;
    ItemChange {
        checkbox: state_changed && ((new_state ^ old_state) & 0xF000) != 0,
        focus: state_changed && ((new_state ^ old_state) & 0x3) != 0 && (new_state & 0x3) != 0,
    }
}

// ---------------------------------------------------------------------------
// Where the controls go
// ---------------------------------------------------------------------------

/// A control's place: its corner, width and height (each at least 1).
#[derive(PartialEq, Eq, Structural)]
pub struct Bounds {
    pub x: i32,
    pub y: i32,
    pub width: i32,
    pub height: i32,
}

/// A control's place from a corner and a size, no side under 1.
pub open spec fn place(x: int, y: int, w: int, h: int) -> Bounds {
    Bounds { x: x as i32, y: y as i32, width: (if w < 1 { 1 } else { w }) as i32, height: (if h < 1 { 1 } else { h }) as i32 }
}

fn bounds(x: i32, y: i32, width: i32, height: i32) -> (b: Bounds)
    ensures
        b == place(x as int, y as int, width as int, height as int),
{
    Bounds { x, y, width: if width < 1 { 1 } else { width }, height: if height < 1 { 1 } else { height } }
}

pub open spec fn at_least(v: int, lo: int) -> int {
    if v < lo { lo } else { v }
}

/// The places of the checklist window's controls. The rules table is the
/// only edit surface: its cells are edited in place, and no editor stands
/// beside it.
pub struct CheckLayout {
    pub title_label: Bounds,
    pub hint_label: Bounds,
    pub search_label: Bounds,
    pub search: Bounds,
    pub list_status_label: Bounds,
    pub list: Bounds,
    pub cancel_button: Bounds,
    pub confirm_button: Bounds,
}

/// The checklist window's layout for a client area of `cw` by `ch`: at
/// least 720 by 520; the search and the rules table across the full width,
/// `Cancel` and `Save and select` fixed at the bottom right.
pub open spec fn check_layout_spec(cw: int, ch: int) -> CheckLayout {
    let width = at_least(cw, 720);
    let height = at_least(ch, 520);
    let pad = 18int;
    let full_w = width - pad * 2;
    let button_w = 150int;
    let button_h = 36int;
    let button_y = height - pad - button_h;
    let confirm_w = 170int;
    let confirm_x = width - pad - confirm_w;
    let cancel_x = confirm_x - 18 - button_w;
    let list_top = 154int;
    CheckLayout {
        title_label: place(pad, 18, 220, 32),
        hint_label: place(pad + 234, 24, full_w - 234, 24),
        search_label: place(pad, 66, full_w, 22),
        search: place(pad, 90, full_w, 30),
        list_status_label: place(pad, 128, full_w, 22),
        list: place(pad, list_top, full_w, button_y - list_top - 12),
        cancel_button: place(cancel_x, button_y, button_w, button_h),
        confirm_button: place(confirm_x, button_y, confirm_w, button_h),
    }
}

/// Lays out the checklist window for a client area `client_width` by
/// `client_height`.
pub fn check_layout(client_width: i32, client_height: i32) -> (r: CheckLayout)
    ensures
        r == check_layout_spec(client_width as int, client_height as int),
{
    let width: i32 = if client_width < 720 { 720 } else { client_width };
    let height: i32 = if client_height < 520 { 520 } else { client_height };
    let pad: i32 = 18;
    let full_w: i32 = width - pad * 2;
    let button_w: i32 = 150;
    let button_h: i32 = 36;
    let button_y: i32 = height - pad - button_h;
    let confirm_w: i32 = 170;
    let confirm_x: i32 = width - pad - confirm_w;
    let cancel_x: i32 = confirm_x - 18 - button_w;
    let list_top: i32 = 154;
    CheckLayout {
        title_label: bounds(pad, 18, 220, 32),
        hint_label: bounds(pad + 234, 24, full_w - 234, 24),
        search_label: bounds(pad, 66, full_w, 22),
        search: bounds(pad, 90, full_w, 30),
        list_status_label: bounds(pad, 128, full_w, 22),
        list: bounds(pad, list_top, full_w, button_y - list_top - 12),
        cancel_button: bounds(cancel_x, button_y, button_w, button_h),
        confirm_button: bounds(confirm_x, button_y, confirm_w, button_h),
    }
}

/// The places of the list-box picker window's controls.
pub struct PickerLayout {
    pub search: Bounds,
    pub list: Bounds,
    pub title_edit: Bounds,
    pub content_edit: Bounds,
    pub tags_edit: Bounds,
    pub status_edit: Bounds,
    pub save_button: Bounds,
    pub cancel_button: Bounds,
    pub confirm_button: Bounds,
}

/// The list-box picker's layout for a client area of `cw` by `ch`: at
/// least 480 by 320.
pub open spec fn picker_layout_spec(cw: int, ch: int) -> PickerLayout {
    let width = at_least(cw, 480);
    let height = at_least(ch, 320);
    let pad = 18int;
    let button_w = 140int;
    let button_h = 34int;
    let button_y = height - pad - button_h;
    let confirm_x = width - pad - button_w;
    let cancel_x = confirm_x - 18 - button_w;
    let editor_x = at_least(width * 3 / 5, 360);
    let editor_w = at_least(width - editor_x - pad, 260);
    let list_w = at_least(editor_x - pad * 2, 260);
    PickerLayout {
        search: place(pad, 50, list_w, 30),
        list: place(pad, 92, list_w, button_y - 108),
        title_edit: place(editor_x, 74, editor_w, 30),
        content_edit: place(editor_x, 136, editor_w, at_least(button_y - 262, 120)),
        tags_edit: place(editor_x, button_y - 164, editor_w, 30),
        status_edit: place(editor_x, button_y - 102, editor_w, 30),
        save_button: place(editor_x, button_y - 52, button_w, button_h),
        cancel_button: place(cancel_x, button_y, button_w, button_h),
        confirm_button: place(confirm_x, button_y, button_w, button_h),
    }
}

/// Lays out the list-box picker window.
pub fn picker_layout(client_width: i32, client_height: i32) -> (r: PickerLayout)
    requires
        client_width <= i32::MAX / 3,
    ensures
        r == picker_layout_spec(client_width as int, client_height as int),
{
    let width: i32 = if client_width < 480 { 480 } else { client_width };
    let height: i32 = if client_height < 320 { 320 } else { client_height };
    let pad: i32 = 18;
    let button_w: i32 = 140;
    let button_h: i32 = 34;
    let button_y: i32 = height - pad - button_h;
    let confirm_x: i32 = width - pad - button_w;
    let cancel_x: i32 = confirm_x - 18 - button_w;
    let e: i32 = width * 3 / 5;
    let editor_x: i32 = if e < 360 { 360 } else { e };
    let ew: i32 = width - editor_x - pad;
    let editor_w: i32 = if ew < 260 { 260 } else { ew };
    let lw: i32 = editor_x - pad * 2;
    let list_w: i32 = if lw < 260 { 260 } else { lw };
    let ch: i32 = button_y - 262;
    PickerLayout {
        search: bounds(pad, 50, list_w, 30),
        list: bounds(pad, 92, list_w, button_y - 108),
        title_edit: bounds(editor_x, 74, editor_w, 30),
        content_edit: bounds(editor_x, 136, editor_w, if ch < 120 { 120 } else { ch }),
        tags_edit: bounds(editor_x, button_y - 164, editor_w, 30),
        status_edit: bounds(editor_x, button_y - 102, editor_w, 30),
        save_button: bounds(editor_x, button_y - 52, button_w, button_h),
        cancel_button: bounds(cancel_x, button_y, button_w, button_h),
        confirm_button: bounds(confirm_x, button_y, button_w, button_h),
    }
}

// Label colours
// ---------------------------------------------------------------------------

pub open spec fn color(r: int, g: int, b: int) -> u32 {
    (r + 0x100 * g + 0x10000 * b) as u32
}

/// Which kind of text a static control of the checklist holds.
pub enum LabelKind {
    Heading,
    Hint,
    Plain,
}

/// The text colour of a static control: headings dark blue, hints grey,
/// the rest near black.
pub fn static_text_color(kind: LabelKind) -> (c: u32)
    ensures
        c == match kind {
            LabelKind::Heading => color(18, 34, 58),
            LabelKind::Hint => color(82, 91, 105),
            LabelKind::Plain => color(48, 52, 58),
        },
{
    match kind {
        LabelKind::Heading => rgb(18, 34, 58),
        LabelKind::Hint => rgb(82, 91, 105),
        LabelKind::Plain => rgb(48, 52, 58),
    }
}

} // verus!
