//! What the terminal client's screen shows, and where: a list of items that the
//! caller paints one after the other.
use vstd::prelude::*;
use ratatui::layout::{Constraint, Layout};
use vstd::string::*;
use crate::app::{ElemId, Rect};
use crate::decimal::{nearest, Decimal, Quantity};
use crate::encoder::CropMode;
use crate::number::all_digits;
use crate::slot::SlotState;
use crate::text::{chars_of, string_of, sub_chars, texts};

verus! {

// ---------------------------------------------------------------- geometry
/// A number of cells as a coordinate.
pub open spec fn cell(n: int) -> u16 {
    if n < 0 {
        0
    } else if n > 65535 {
        65535
    } else {
        n as u16
    }
}

/// The part of the screen at a position with a size.
pub open spec fn rect_of(x: int, y: int, w: int, h: int) -> Rect {
    Rect { x: cell(x), y: cell(y), width: cell(w), height: cell(h) }
}

/// `n`, or zero where it is below zero.
pub open spec fn above_zero(n: int) -> int {
    if n < 0 {
        0
    } else {
        n
    }
}

/// The larger of two numbers.
pub open spec fn larger(a: int, b: int) -> int {
    if a < b {
        b
    } else {
        a
    }
}

/// The smaller of two numbers.
pub open spec fn smaller(a: int, b: int) -> int {
    if a < b {
        a
    } else {
        b
    }
}

/// What is inside a border.
pub open spec fn inner_of(r: Rect) -> Rect {
    Rect {
        x: cell(smaller(r.x + 1, r.x + r.width)),
        y: cell(smaller(r.y + 1, r.y + r.height)),
        width: cell(above_zero(r.width - 2)),
        height: cell(above_zero(r.height - 2)),
    }
}

fn to_cell(n: i32) -> (r: u16)
    ensures
        r == cell(n as int),
{
    if n < 0 {
        0
    } else if n > 65535 {
        65535
    } else {
        n as u16
    }
}

pub(crate) fn rect_at(x: i32, y: i32, w: i32, h: i32) -> (r: Rect)
    ensures
        r == rect_of(x as int, y as int, w as int, h as int),
{
    Rect { x: to_cell(x), y: to_cell(y), width: to_cell(w), height: to_cell(h) }
}

fn not_below_zero(n: i32) -> (r: i32)
    ensures
        r == above_zero(n as int),
{
    if n < 0 {
        0
    } else {
        n
    }
}

/// What is inside a border around an area.
pub fn inner(a: Rect) -> (r: Rect)
    ensures
        r == inner_of(a),
{
    let (x, y, w, h): (i32, i32, i32, i32) = (
        a.x as i32,
        a.y as i32,
        a.width as i32,
        a.height as i32,
    );
    Rect {
        x: to_cell(
            if w < 1 {
                x + w
            } else {
                x + 1
            },
        ),
        y: to_cell(
            if h < 1 {
                y + h
            } else {
                y + 1
            },
        ),
        width: to_cell(not_below_zero(w - 2)),
        height: to_cell(not_below_zero(h - 2)),
    }
}

/// The middle of an area, of a size if that fits.
pub open spec fn centered_of(a: Rect, w: int, h: int) -> Rect {
    let w = smaller(w, a.width as int);
    let h = smaller(h, a.height as int);
    rect_of(a.x + (a.width - w) / 2, a.y + (a.height - h) / 2, w, h)
}

/// The middle of an area, of a size if that fits.
pub fn centered(a: Rect, w: u16, h: u16) -> (r: Rect)
    ensures
        r == centered_of(a, w as int, h as int),
{
    let w: u16 = if w < a.width {
        w
    } else {
        a.width
    };
    let h: u16 = if h < a.height {
        h
    } else {
        a.height
    };
    rect_at(
        a.x as i32 + ((a.width - w) / 2) as i32,
        a.y as i32 + ((a.height - h) / 2) as i32,
        w as i32,
        h as i32,
    )
}

/// A share of an area.
#[derive(Clone, Copy, PartialEq, Eq, Structural, Debug)]
pub enum Part {
    /// So many cells.
    Length(u16),
    /// At least so many cells, and what is left over.
    Min(u16),
    /// Such a fraction.
    Ratio(u32, u32),
}

/// The cells that a part takes, where `slack` cells are left over for the one
/// part that can grow.
pub open spec fn part_size(p: Part, slack: int) -> int {
    match p {
        Part::Length(n) => n as int,
        Part::Min(n) => n + slack,
        Part::Ratio(a, b) => 0,
    }
}

/// The cells that parts take together.
pub open spec fn parts_size(parts: Seq<Part>, slack: int) -> int
    decreases parts.len(),
{
    if parts.len() == 0 {
        0
    } else {
        parts_size(parts.drop_last(), slack) + part_size(parts.last(), slack)
    }
}

/// Whether all parts are lengths but one, which can grow.
pub open spec fn one_grows(parts: Seq<Part>) -> bool {
    exists|k: int|
        {
            &&& 0 <= k < parts.len()
            &&& #[trigger] parts[k] is Min
            &&& forall|i: int| 0 <= i < parts.len() && i != k ==> #[trigger] parts[i] is Length
        }
}

/// Where an area begins along a direction.
pub open spec fn along_start(horizontal: bool, a: Rect) -> int {
    if horizontal {
        a.x as int
    } else {
        a.y as int
    }
}

/// The cells of an area along a direction. None lies beyond the largest position.
pub open spec fn along_size(horizontal: bool, a: Rect) -> int {
    let size = if horizontal {
        a.width as int
    } else {
        a.height as int
    };
    smaller(size, 65535 - along_start(horizontal, a))
}

/// Whether a rectangle is as an area across a direction, and inside it along.
pub open spec fn is_slice(horizontal: bool, area: Rect, r: Rect) -> bool {
    &&& horizontal ==> r.y == area.y && r.height == area.height && r.x + r.width <= u16::MAX
    &&& !horizontal ==> r.x == area.x && r.width == area.width && r.y + r.height <= u16::MAX
    &&& along_start(horizontal, area) <= along_start(horizontal, r)
    &&& along_start(horizontal, r) + along_size(horizontal, r) <= along_start(horizontal, area)
        + along_size(horizontal, area)
}

/// Whether parts are two halves or four quarters.
pub open spec fn equal_shares(parts: Seq<Part>) -> bool {
    &&& parts.len() == 2 || parts.len() == 4
    &&& forall|i: int| 0 <= i < parts.len() ==> #[trigger] parts[i] == Part::Ratio(1, parts.len() as u32)
}

/// Where the `i`-th of `n` equal shares of an area begins: at the nearest cell.
pub open spec fn share_start(horizontal: bool, area: Rect, i: int, n: int) -> int {
    along_start(horizontal, area) + nearest(i * along_size(horizontal, area), n)
}

/// Whether rectangles are a split of an area in parts. Each is a slice of it.
/// Where one part can grow and there is room for all, they stand one after the
/// other from the start, and that part takes what is left over. Halves and
/// quarters stand one after the other, each from the cell nearest to where its
/// share begins to the cell nearest to where it ends.
pub open spec fn is_split(horizontal: bool, area: Rect, parts: Seq<Part>, r: Seq<Rect>) -> bool {
    let slack = along_size(horizontal, area) - parts_size(parts, 0);
    &&& r.len() == parts.len()
    &&& forall|i: int| 0 <= i < r.len() ==> is_slice(horizontal, area, #[trigger] r[i])
    &&& one_grows(parts) && slack >= 0 ==> forall|i: int|
        0 <= i < r.len() ==> along_start(horizontal, #[trigger] r[i]) == along_start(
            horizontal,
            area,
        ) + parts_size(parts.take(i), slack) && along_size(horizontal, r[i]) == part_size(
            parts[i],
            slack,
        )
    &&& equal_shares(parts) ==> forall|i: int|
        0 <= i < r.len() ==> along_start(horizontal, #[trigger] r[i]) == share_start(
            horizontal,
            area,
            i,
            parts.len() as int,
        ) && along_start(horizontal, r[i]) + along_size(horizontal, r[i]) == share_start(
            horizontal,
            area,
            i + 1,
            parts.len() as int,
        )
}

/// `ratatui::layout::Layout::split`, with the default flex, margin and spacing:
/// there is one rectangle for each part, a slice of the area; where one part can
/// grow and there is room for all, and where the parts are halves or quarters,
/// their places are fixed. How the parts share the area in any other case is not
/// stated: ratatui calls some such results indeterminate, and its solver walks
/// hash maps.
#[verifier::external_body]
pub(crate) fn split(horizontal: bool, area: Rect, parts: &Vec<Part>) -> (r: Vec<Rect>)
    ensures
        is_split(horizontal, area, parts@, r@),
{
    let parts = parts.iter().map(|p| match p {
        Part::Length(n) => Constraint::Length(*n),
        Part::Min(n) => Constraint::Min(*n),
        Part::Ratio(a, b) => Constraint::Ratio(*a, *b),
    });
    let area = ratatui::layout::Rect { x: area.x, y: area.y, width: area.width, height: area.height };
    let cut = match horizontal {
        true => Layout::horizontal(parts).split(area),
        false => Layout::vertical(parts).split(area),
    };
    cut.iter().map(|r| Rect { x: r.x, y: r.y, width: r.width, height: r.height }).collect()
}

// ---------------------------------------------------------------- items
/// The colours that things are painted in, by what they mean.
#[derive(Clone, Copy, PartialEq, Eq, Structural, Debug)]
pub enum Tone {
    Accent,
    Video,
    Audio,
    Val,
    Amber,
    Eta,
    Fail,
    Good,
    Label,
    Strong,
    Dim,
    /// That of a slot's state.
    State(SlotState),
}

/// How something that can be clicked looks.
#[derive(Clone, Copy, PartialEq, Eq, Structural, Debug)]
pub enum Look {
    Disabled,
    /// Selected, or with the keyboard.
    Active,
    Hover,
    Plain,
}

/// How something looks.
pub open spec fn look_of(enabled: bool, active: bool, hover: bool) -> Look {
    if !enabled {
        Look::Disabled
    } else if active {
        Look::Active
    } else if hover {
        Look::Hover
    } else {
        Look::Plain
    }
}

/// How something looks.
pub fn look(enabled: bool, active: bool, hover: bool) -> (r: Look)
    ensures
        r == look_of(enabled, active, hover),
{
    if !enabled {
        Look::Disabled
    } else if active {
        Look::Active
    } else if hover {
        Look::Hover
    } else {
        Look::Plain
    }
}

/// Something to paint.
pub enum Item {
    /// A frame with a title.
    Group { area: Rect, title: String },
    /// A line of text.
    Label { area: Rect, text: String, tone: Tone },
    /// A choice.
    Chip { area: Rect, id: ElemId, label: String, look: Look },
    /// A button of one line.
    Button { area: Rect, id: ElemId, label: String, look: Look },
    /// A large button with a frame.
    BoxButton { area: Rect, id: ElemId, label: String, tone: Tone, look: Look },
    /// A text field, and where its cursor is, if it has the keyboard.
    Field { area: Rect, id: ElemId, text: String, look: Look, cursor: Option<u16> },
    /// A picture of a crop.
    Glyph { area: Rect, id: ElemId, mode: CropMode, look: Look, selected: bool },
    /// Large digits, in three lines.
    Digits { area: Rect, top: String, mid: String, low: String },
    /// A tab with a name and a state.
    Tab { area: Rect, id: ElemId, name: String, state: SlotState, look: Look },
    /// The file in progress, and how it goes.
    File { area: Rect, name: String, name_tone: Tone, note: String, note_tone: Tone },
    /// A name and a value.
    Pair { area: Rect, line: u16, key: String, value: String, tone: Tone },
    /// Text over several lines, scrolled.
    Wrapped { area: Rect, text: String, scroll: u16 },
    /// What a dialog says, over several lines without blanks at their start.
    Message { area: Rect, text: String, tone: Tone },
    /// A bar that fills as time goes by: how far it is, from 0 to 1, and what
    /// stands on it.
    Gauge { area: Rect, done: Decimal, label: String },
    /// What went wrong.
    Problem { area: Rect, text: String },
    /// A dialog with a title, over everything else.
    Dialog { area: Rect, title: String, tone: Tone },
    /// An entry of the explorer.
    Entry { area: Rect, id: ElemId, text: String, tone: Tone, look: Look },
    /// An invisible thing to click.
    Spot { area: Rect, id: ElemId },
}

/// The contents of an [`Item`].
pub enum ItemView {
    Group { area: Rect, title: Seq<char> },
    Label { area: Rect, text: Seq<char>, tone: Tone },
    Chip { area: Rect, id: ElemId, label: Seq<char>, look: Look },
    Button { area: Rect, id: ElemId, label: Seq<char>, look: Look },
    BoxButton { area: Rect, id: ElemId, label: Seq<char>, tone: Tone, look: Look },
    Field { area: Rect, id: ElemId, text: Seq<char>, look: Look, cursor: Option<u16> },
    Glyph { area: Rect, id: ElemId, mode: CropMode, look: Look, selected: bool },
    Digits { area: Rect, top: Seq<char>, mid: Seq<char>, low: Seq<char> },
    Tab { area: Rect, id: ElemId, name: Seq<char>, state: SlotState, look: Look },
    File { area: Rect, name: Seq<char>, name_tone: Tone, note: Seq<char>, note_tone: Tone },
    Pair { area: Rect, line: u16, key: Seq<char>, value: Seq<char>, tone: Tone },
    Wrapped { area: Rect, text: Seq<char>, scroll: u16 },
    Message { area: Rect, text: Seq<char>, tone: Tone },
    Gauge { area: Rect, done: Quantity, label: Seq<char> },
    Problem { area: Rect, text: Seq<char> },
    Dialog { area: Rect, title: Seq<char>, tone: Tone },
    Entry { area: Rect, id: ElemId, text: Seq<char>, tone: Tone, look: Look },
    Spot { area: Rect, id: ElemId },
}

impl Item {
    pub open spec fn view(&self) -> ItemView {
        match self {
            Item::Group { area, title } => ItemView::Group { area: *area, title: title@ },
            Item::Label { area, text, tone } => ItemView::Label {
                area: *area,
                text: text@,
                tone: *tone,
            },
            Item::Chip { area, id, label, look } => ItemView::Chip {
                area: *area,
                id: *id,
                label: label@,
                look: *look,
            },
            Item::Button { area, id, label, look } => ItemView::Button {
                area: *area,
                id: *id,
                label: label@,
                look: *look,
            },
            Item::BoxButton { area, id, label, tone, look } => ItemView::BoxButton {
                area: *area,
                id: *id,
                label: label@,
                tone: *tone,
                look: *look,
            },
            Item::Field { area, id, text, look, cursor } => ItemView::Field {
                area: *area,
                id: *id,
                text: text@,
                look: *look,
                cursor: *cursor,
            },
            Item::Glyph { area, id, mode, look, selected } => ItemView::Glyph {
                area: *area,
                id: *id,
                mode: *mode,
                look: *look,
                selected: *selected,
            },
            Item::Digits { area, top, mid, low } => ItemView::Digits {
                area: *area,
                top: top@,
                mid: mid@,
                low: low@,
            },
            Item::Tab { area, id, name, state, look } => ItemView::Tab {
                area: *area,
                id: *id,
                name: name@,
                state: *state,
                look: *look,
            },
            Item::File { area, name, name_tone, note, note_tone } => ItemView::File {
                area: *area,
                name: name@,
                name_tone: *name_tone,
                note: note@,
                note_tone: *note_tone,
            },
            Item::Pair { area, line, key, value, tone } => ItemView::Pair {
                area: *area,
                line: *line,
                key: key@,
                value: value@,
                tone: *tone,
            },
            Item::Wrapped { area, text, scroll } => ItemView::Wrapped {
                area: *area,
                text: text@,
                scroll: *scroll,
            },
            Item::Message { area, text, tone } => ItemView::Message {
                area: *area,
                text: text@,
                tone: *tone,
            },
            Item::Gauge { area, done, label } => ItemView::Gauge {
                area: *area,
                done: done@,
                label: label@,
            },
            Item::Problem { area, text } => ItemView::Problem { area: *area, text: text@ },
            Item::Dialog { area, title, tone } => ItemView::Dialog {
                area: *area,
                title: title@,
                tone: *tone,
            },
            Item::Entry { area, id, text, tone, look } => ItemView::Entry {
                area: *area,
                id: *id,
                text: text@,
                tone: *tone,
                look: *look,
            },
            Item::Spot { area, id } => ItemView::Spot { area: *area, id: *id },
        }
    }
}

/// The contents of some items.
pub open spec fn items_of(v: Seq<Item>) -> Seq<ItemView> {
    Seq::new(v.len(), |i: int| v[i]@)
}

/// Appends an item.
pub(crate) fn paint(v: &mut Vec<Item>, e: Item)
    ensures
        items_of(final(v)@) == items_of(old(v)@).push(e@),
{
    let ghost before = items_of(v@);
    v.push(e);
    assert(items_of(v@) =~= before.push(e@));
}

pub(crate) fn nothing() -> (r: Vec<Item>)
    ensures
        items_of(r@) == Seq::<ItemView>::empty(),
{
    let r: Vec<Item> = Vec::new();
    assert(items_of(r@) =~= Seq::<ItemView>::empty());
    r
}

/// What can be clicked of an item: nothing where it is disabled.
pub open spec fn spot_of(i: ItemView) -> Option<(Rect, ElemId)> {
    match i {
        ItemView::Chip { area, id, look, .. } => if look == Look::Disabled {
            None
        } else {
            Some((area, id))
        },
        ItemView::Button { area, id, look, .. } => if look == Look::Disabled {
            None
        } else {
            Some((area, id))
        },
        ItemView::BoxButton { area, id, look, .. } => if look == Look::Disabled {
            None
        } else {
            Some((area, id))
        },
        ItemView::Field { area, id, look, .. } => if look == Look::Disabled {
            None
        } else {
            Some((area, id))
        },
        ItemView::Glyph { area, id, look, .. } => if look == Look::Disabled {
            None
        } else {
            Some((area, id))
        },
        ItemView::Tab { area, id, .. } => Some((area, id)),
        ItemView::Entry { area, id, .. } => Some((area, id)),
        ItemView::Spot { area, id } => Some((area, id)),
        _ => None,
    }
}

/// What can be clicked among some items, in their order.
pub open spec fn spots_of(v: Seq<ItemView>) -> Seq<(Rect, ElemId)>
    decreases v.len(),
{
    if v.len() == 0 {
        Seq::empty()
    } else {
        match spot_of(v.last()) {
            Some(s) => spots_of(v.drop_last()).push(s),
            None => spots_of(v.drop_last()),
        }
    }
}

fn spot(i: &Item) -> (r: Option<(Rect, ElemId)>)
    ensures
        r == spot_of(i@),
{
    match i {
        Item::Chip { area, id, look, .. } => if *look == Look::Disabled {
            None
        } else {
            Some((*area, *id))
        },
        Item::Button { area, id, look, .. } => if *look == Look::Disabled {
            None
        } else {
            Some((*area, *id))
        },
        Item::BoxButton { area, id, look, .. } => if *look == Look::Disabled {
            None
        } else {
            Some((*area, *id))
        },
        Item::Field { area, id, look, .. } => if *look == Look::Disabled {
            None
        } else {
            Some((*area, *id))
        },
        Item::Glyph { area, id, look, .. } => if *look == Look::Disabled {
            None
        } else {
            Some((*area, *id))
        },
        Item::Tab { area, id, .. } => Some((*area, *id)),
        Item::Entry { area, id, .. } => Some((*area, *id)),
        Item::Spot { area, id } => Some((*area, *id)),
        _ => None,
    }
}

/// What can be clicked among some items.
pub fn hotspots(items: &Vec<Item>) -> (r: Vec<(Rect, ElemId)>)
    ensures
        r@ == spots_of(items_of(items@)),
{
    let ghost all = items_of(items@);
    let mut r: Vec<(Rect, ElemId)> = Vec::new();
    assert(all.take(0) =~= Seq::empty());
    let mut i: usize = 0;
    while i < items.len()
        invariant
            i <= items@.len(),
            all == items_of(items@),
            r@ == spots_of(all.take(i as int)),
        decreases items@.len() - i,
    {
        assert(all.take(i + 1).drop_last() =~= all.take(i as int));
        assert(all.take(i + 1).last() == items@[i as int]@);
        match spot(&items[i]) {
            Some(s) => {
                r.push(s);
            },
            None => {},
        }
        i += 1;
    }
    assert(all.take(items@.len() as int) =~= all);
    r
}

// ---------------------------------------------------------------- texts
/// The width of a choice with a label.
pub open spec fn chip_width(label: Seq<char>) -> int {
    label.len() as int + 4
}

/// The width of a choice with a label.
pub fn cw(label: &str) -> (r: u16)
    requires
        label@.len() + 4 <= u16::MAX,
    ensures
        r == chip_width(label@),
{
    let c = chars_of(label);
    (c.len() + 4) as u16
}

/// The rows of a large digit.
pub open spec fn digit_row(d: int, row: int) -> Seq<char> {
    if row == 0 {
        if d == 1 || d == 4 {
            "   "@
        } else {
            " _ "@
        }
    } else if row == 1 {
        if d == 0 {
            "| |"@
        } else if d == 1 || d == 7 {
            "  |"@
        } else if d == 2 || d == 3 {
            " _|"@
        } else if d == 5 || d == 6 {
            "|_ "@
        } else {
            "|_|"@
        }
    } else {
        if d == 1 || d == 4 || d == 7 {
            "  |"@
        } else if d == 2 {
            "|_ "@
        } else if d == 3 || d == 5 || d == 9 {
            " _|"@
        } else {
            "|_|"@
        }
    }
}

/// The value of a digit; zero for other characters.
pub open spec fn digit_or_zero(c: char) -> int {
    if '0' <= c <= '9' {
        c as int - '0' as int
    } else {
        0
    }
}

/// A row of large digits, with a column between them.
pub open spec fn digits_row(s: Seq<char>, row: int) -> Seq<char>
    decreases s.len(),
{
    if s.len() == 0 {
        Seq::empty()
    } else if s.len() == 1 {
        digit_row(digit_or_zero(s.last()), row)
    } else {
        digits_row(s.drop_last(), row) + " "@ + digit_row(digit_or_zero(s.last()), row)
    }
}

fn segment(d: u8, row: u8) -> (r: &'static str)
    requires
        d < 10,
        row < 3,
    ensures
        r@ == digit_row(d as int, row as int),
{
    if row == 0 {
        if d == 1 || d == 4 {
            "   "
        } else {
            " _ "
        }
    } else if row == 1 {
        if d == 0 {
            "| |"
        } else if d == 1 || d == 7 {
            "  |"
        } else if d == 2 || d == 3 {
            " _|"
        } else if d == 5 || d == 6 {
            "|_ "
        } else {
            "|_|"
        }
    } else {
        if d == 1 || d == 4 || d == 7 {
            "  |"
        } else if d == 2 {
            "|_ "
        } else if d == 3 || d == 5 || d == 9 {
            " _|"
        } else {
            "|_|"
        }
    }
}

fn row_of_digits(s: &Vec<char>, row: u8) -> (r: String)
    requires
        row < 3,
    ensures
        r@ == digits_row(s@, row as int),
{
    let mut r = String::new();
    let mut i: usize = 0;
    assert(s@.take(0) =~= Seq::empty());
    while i < s.len()
        invariant
            i <= s@.len(),
            row < 3,
            r@ == digits_row(s@.take(i as int), row as int),
        decreases s@.len() - i,
    {
        assert(s@.take(i + 1).drop_last() =~= s@.take(i as int));
        let c = s[i];
        let d: u8 = if c >= '0' && c <= '9' {
            (c as u32 - '0' as u32) as u8
        } else {
            0
        };
        if i > 0 {
            r.append(" ");
        }
        r.append(segment(d, row));
        i += 1;
    }
    assert(s@.take(s@.len() as int) =~= s@);
    r
}

/// Large digits of three rows: three columns for a digit, and one between digits.
pub fn big_digits(s: &str) -> (r: [String; 3])
    ensures
        r@[0]@ == digits_row(s@, 0),
        r@[1]@ == digits_row(s@, 1),
        r@[2]@ == digits_row(s@, 2),
{
    let c = chars_of(s);
    [row_of_digits(&c, 0), row_of_digits(&c, 1), row_of_digits(&c, 2)]
}

/// Where the part of a text that a field shows begins.
pub open spec fn field_start(len: int, cursor: int, width: int) -> int {
    let cur = smaller(cursor, len);
    if width > 0 && cur > width {
        cur - width
    } else {
        0
    }
}

/// The part of a text that a field of a width shows, behind a space.
pub open spec fn field_shows(s: Seq<char>, cursor: int, area: Rect) -> Seq<char> {
    let w = above_zero(area.width - 2);
    let start = field_start(s.len() as int, cursor, w);
    seq![' '] + s.subrange(start, smaller(start + w, s.len() as int))
}

/// Where the cursor of a field is.
pub open spec fn field_cursor(s: Seq<char>, cursor: int, area: Rect) -> u16 {
    let w = above_zero(area.width - 2);
    let cur = smaller(cursor, s.len() as int);
    let start = field_start(s.len() as int, cursor, w);
    cell(smaller(area.x + 1 + (cur - start), area.x + above_zero(area.width - 1)))
}

/// A text field.
pub open spec fn field_item(
    area: Rect,
    id: ElemId,
    value: Seq<char>,
    focused: bool,
    cursor: int,
    hover: bool,
    enabled: bool,
) -> ItemView {
    ItemView::Field {
        area,
        id,
        text: field_shows(value, cursor, area),
        look: look_of(enabled, focused, hover),
        cursor: if focused {
            Some(field_cursor(value, cursor, area))
        } else {
            None
        },
    }
}

/// A text field with the part of its text that fits.
pub fn text_field(
    area: Rect,
    id: ElemId,
    value: &str,
    focused: bool,
    cursor: usize,
    hover: bool,
    enabled: bool,
) -> (r: Item)
    ensures
        r@ == field_item(area, id, value@, focused, cursor as int, hover, enabled),
{
    let c = chars_of(value);
    let n = c.len();
    let w: usize = if area.width >= 2 {
        (area.width - 2) as usize
    } else {
        0
    };
    let cur: usize = if cursor < n {
        cursor
    } else {
        n
    };
    let start: usize = if w > 0 && cur > w {
        cur - w
    } else {
        0
    };
    let end: usize = if n - start < w {
        n
    } else {
        start + w
    };
    let vis = sub_chars(c.as_slice(), start, end);
    let mut line: Vec<char> = Vec::new();
    line.push(' ');
    line.extend_from_slice(vis.as_slice());
    assert(line@ =~= field_shows(value@, cursor as int, area));
    let at: Option<u16> = if focused {
        let last: i32 = area.x as i32 + (if area.width >= 1 {
            area.width as i32 - 1
        } else {
            0
        });
        let shift: usize = cur - start;
        let x: i32 = if shift < 70000 {
            area.x as i32 + 1 + shift as i32
        } else {
            last
        };
        Some(
            to_cell(
                if x < last {
                    x
                } else {
                    last
                },
            ),
        )
    } else {
        None
    };
    Item::Field {
        area,
        id,
        text: string_of(line.as_slice()),
        look: look(enabled, focused, hover),
        cursor: at,
    }
}

// ---------------------------------------------------------------- rows of choices
/// What a row of choices chooses.
#[derive(Clone, Copy, PartialEq, Eq, Structural, Debug)]
pub enum Row {
    Codecs,
    Encoders,
    Presets,
    Bitrates,
}

/// The choice at a position of a row.
pub open spec fn row_id(row: Row, i: int) -> ElemId {
    match row {
        Row::Codecs => ElemId::Codec(i as usize),
        Row::Encoders => ElemId::Encoders((i + 1) as usize),
        Row::Presets => ElemId::Preset(i as usize),
        Row::Bitrates => ElemId::Bitrate(i as usize),
    }
}

/// Where the choice at a position begins.
pub open spec fn chip_x(labels: Seq<Seq<char>>, x: int, gap: int, i: int) -> int
    decreases i,
{
    if i <= 0 {
        x
    } else {
        chip_x(labels, x, gap, i - 1) + chip_width(labels[i - 1]) + gap
    }
}

/// The three bands of the picture of a crop: which are kept.
pub open spec fn bands_of(mode: CropMode) -> Seq<bool> {
    match mode {
        CropMode::NoCrop => seq![true, true, true],
        CropMode::Centered => seq![false, true, false],
        CropMode::OneThird => seq![false, true, true],
    }
}

/// The three bands of the picture of a crop: which are kept.
pub fn crop_bands(mode: CropMode) -> (r: Vec<bool>)
    ensures
        r@ == bands_of(mode),
{
    let r = match mode {
        CropMode::NoCrop => vec![true, true, true],
        CropMode::Centered => vec![false, true, false],
        CropMode::OneThird => vec![false, true, true],
    };
    assert(r@ =~= bands_of(mode));
    r
}

/// A row of choices.
pub open spec fn chips(
    row: Row,
    labels: Seq<Seq<char>>,
    x: int,
    y: int,
    gap: int,
    selected: int,
    hover: Option<ElemId>,
    enabled: bool,
) -> Seq<ItemView> {
    Seq::new(
        labels.len(),
        |i: int|
            ItemView::Chip {
                area: rect_of(chip_x(labels, x, gap, i), y, chip_width(labels[i]), 1),
                id: row_id(row, i),
                label: labels[i],
                look: look_of(enabled, selected == i, hover == Some(row_id(row, i))),
            },
    )
}

fn id_in_row(row: Row, i: usize) -> (r: ElemId)
    requires
        i < 100,
    ensures
        r == row_id(row, i as int),
{
    match row {
        Row::Codecs => ElemId::Codec(i),
        Row::Encoders => ElemId::Encoders(i + 1),
        Row::Presets => ElemId::Preset(i),
        Row::Bitrates => ElemId::Bitrate(i),
    }
}

pub(crate) fn is_hover(hover: Option<ElemId>, id: ElemId) -> (r: bool)
    ensures
        r == (hover == Some(id)),
{
    match hover {
        Some(h) => h == id,
        None => false,
    }
}

pub(crate) fn paint_chips(
    v: &mut Vec<Item>,
    row: Row,
    labels: &Vec<String>,
    x: u16,
    y: i32,
    gap: u8,
    selected: usize,
    hover: Option<ElemId>,
    enabled: bool,
)
    requires
        labels@.len() < 100,
        forall|i: int| 0 <= i < labels@.len() ==> (#[trigger] labels@[i])@.len() < 100,
    ensures
        items_of(final(v)@) == items_of(old(v)@) + chips(
            row,
            texts(labels@),
            x as int,
            y as int,
            gap as int,
            selected as int,
            hover,
            enabled,
        ),
{
    let ghost before = items_of(v@);
    let ghost ls = texts(labels@);
    let ghost want = chips(
        row,
        ls,
        x as int,
        y as int,
        gap as int,
        selected as int,
        hover,
        enabled,
    );
    assert(items_of(v@) =~= before + want.take(0));
    let mut at: i32 = x as i32;
    let mut i: usize = 0;
    while i < labels.len()
        invariant
            i <= labels@.len() < 100,
            ls == texts(labels@),
            forall|j: int| 0 <= j < labels@.len() ==> (#[trigger] labels@[j])@.len() < 100,
            want == chips(
                row,
                ls,
                x as int,
                y as int,
                gap as int,
                selected as int,
                hover,
                enabled,
            ),
            at == chip_x(ls, x as int, gap as int, i as int),
            0 <= at <= 65535 + i * 400,
            items_of(v@) == before + want.take(i as int),
        decreases labels@.len() - i,
    {
        assert(ls[i as int] == labels@[i as int]@);
        assert(labels@[i as int]@.len() < 100);
        let w: i32 = cw(labels[i].as_str()) as i32;
        let id = id_in_row(row, i);
        let ghost now = items_of(v@);
        let e = Item::Chip {
            area: rect_at(at, y, w, 1),
            id,
            label: labels[i].clone(),
            look: look(enabled, selected == i, is_hover(hover, id)),
        };
        assert(e@ == want[i as int]);
        paint(v, e);
        assert(before + want.take(i + 1) =~= now.push(want[i as int]));
        at = at + w + gap as i32;
        i += 1;
    }
    assert(want.take(labels@.len() as int) =~= want);
}

// ---------------------------------------------------------------- laws
/// A dialog in the middle of an area does not reach out of it.
pub proof fn dialog_is_inside(a: Rect, w: int, h: int)
    requires
        0 <= w,
        0 <= h,
        a.x + a.width <= u16::MAX,
        a.y + a.height <= u16::MAX,
    ensures
        a.x <= centered_of(a, w, h).x,
        centered_of(a, w, h).x + centered_of(a, w, h).width <= a.x + a.width,
        a.y <= centered_of(a, w, h).y,
        centered_of(a, w, h).y + centered_of(a, w, h).height <= a.y + a.height,
{
}

/// The cursor of a field stays in the field, however long its text is.
pub proof fn cursor_stays_in_its_field(s: Seq<char>, cursor: int, area: Rect)
    requires
        0 <= cursor,
        area.width >= 1,
        area.x + area.width <= u16::MAX,
    ensures
        area.x <= field_cursor(s, cursor, area) < area.x + area.width,
{
}

/// A text with a zero in place of whatever is no digit.
pub open spec fn zeroed(s: Seq<char>) -> Seq<char> {
    Seq::new(
        s.len(),
        |i: int|
            if '0' <= s[i] <= '9' {
                s[i]
            } else {
                '0'
            },
    )
}

/// A character that is no digit shows as a zero.
pub proof fn other_characters_show_as_zero(s: Seq<char>, row: int)
    ensures
        digits_row(s, row) == digits_row(zeroed(s), row),
    decreases s.len(),
{
    if s.len() > 0 {
        assert(zeroed(s).drop_last() =~= zeroed(s.drop_last()));
        other_characters_show_as_zero(s.drop_last(), row);
    }
}

proof fn lemma_digit_row(d: int, row: int)
    ensures
        digit_row(d, row).len() == 3,
        forall|i: int|
            0 <= i < 3 ==> {
                let c = #[trigger] digit_row(d, row)[i];
                c == ' ' || c == '_' || c == '|'
            },
{
    reveal_strlit("   ");
    reveal_strlit(" _ ");
    reveal_strlit("| |");
    reveal_strlit("  |");
    reveal_strlit(" _|");
    reveal_strlit("|_ ");
    reveal_strlit("|_|");
}

/// The rows of large digits have one length, three columns for a digit and one
/// between digits, and are drawn with spaces, underscores and bars.
pub proof fn digits_have_their_columns(s: Seq<char>, row: int)
    ensures
        digits_row(s, row).len() == if s.len() == 0 {
            0
        } else {
            4 * s.len() - 1
        },
        forall|i: int|
            0 <= i < digits_row(s, row).len() ==> {
                let c = #[trigger] digits_row(s, row)[i];
                c == ' ' || c == '_' || c == '|'
            },
    decreases s.len(),
{
    reveal_strlit(" ");
    if s.len() > 0 {
        let d = digit_row(digit_or_zero(s.last()), row);
        lemma_digit_row(digit_or_zero(s.last()), row);
        digits_have_their_columns(s.drop_last(), row);
        if s.len() > 1 {
            let rest = digits_row(s.drop_last(), row);
            let all = digits_row(s, row);
            assert forall|i: int| 0 <= i < all.len() implies {
                let c = #[trigger] all[i];
                c == ' ' || c == '_' || c == '|'
            } by {
                if i < rest.len() {
                    assert(all[i] == rest[i]);
                } else if i > rest.len() {
                    assert(all[i] == d[i - rest.len() - 1]);
                }
            }
        }
    }
}

proof fn lemma_digits_differ(a: int, b: int)
    requires
        0 <= a < 10,
        0 <= b < 10,
        digit_row(a, 0) == digit_row(b, 0),
        digit_row(a, 1) == digit_row(b, 1),
        digit_row(a, 2) == digit_row(b, 2),
    ensures
        a == b,
{
    reveal_strlit("   ");
    reveal_strlit(" _ ");
    reveal_strlit("| |");
    reveal_strlit("  |");
    reveal_strlit(" _|");
    reveal_strlit("|_ ");
    reveal_strlit("|_|");
    let r = |d: int, row: int, i: int| digit_row(d, row)[i];
    assert(r(a, 0, 1) == r(b, 0, 1));
    assert(r(a, 1, 0) == r(b, 1, 0) && r(a, 1, 1) == r(b, 1, 1) && r(a, 1, 2) == r(b, 1, 2));
    assert(r(a, 2, 0) == r(b, 2, 0) && r(a, 2, 1) == r(b, 2, 1) && r(a, 2, 2) == r(b, 2, 2));
}

/// Different digits look different.
pub proof fn different_digits_look_different(s: Seq<char>, t: Seq<char>)
    requires
        all_digits(s),
        all_digits(t),
        s != t,
    ensures
        digits_row(s, 0) != digits_row(t, 0) || digits_row(s, 1) != digits_row(t, 1) || digits_row(
            s,
            2,
        ) != digits_row(t, 2),
    decreases s.len(),
{
    digits_have_their_columns(s, 0);
    digits_have_their_columns(t, 0);
    if s.len() == t.len() && s.len() > 0 {
        let (a, b) = (digit_or_zero(s.last()), digit_or_zero(t.last()));
        assert('0' <= s[s.len() - 1] <= '9' && '0' <= t[t.len() - 1] <= '9');
        let same = digits_row(s, 0) == digits_row(t, 0) && digits_row(s, 1) == digits_row(t, 1)
            && digits_row(s, 2) == digits_row(t, 2);
        if same {
            lemma_last_digit(s, t, 0);
            lemma_last_digit(s, t, 1);
            lemma_last_digit(s, t, 2);
            lemma_digits_differ(a, b);
            assert(s.last() == t.last());
            assert(s =~= s.drop_last().push(s.last()));
            assert(t =~= t.drop_last().push(t.last()));
            different_digits_look_different(s.drop_last(), t.drop_last());
        }
    } else if s.len() == t.len() {
        assert(s =~= t);
    }
}

proof fn lemma_last_digit(s: Seq<char>, t: Seq<char>, row: int)
    requires
        s.len() == t.len(),
        s.len() > 0,
        digits_row(s, row) == digits_row(t, row),
    ensures
        digit_row(digit_or_zero(s.last()), row) == digit_row(digit_or_zero(t.last()), row),
        digits_row(s.drop_last(), row) == digits_row(t.drop_last(), row),
{
    reveal_strlit(" ");
    let (a, b) = (digit_row(digit_or_zero(s.last()), row), digit_row(digit_or_zero(t.last()), row));
    lemma_digit_row(digit_or_zero(s.last()), row);
    lemma_digit_row(digit_or_zero(t.last()), row);
    if s.len() > 1 {
        digits_have_their_columns(s.drop_last(), row);
        digits_have_their_columns(t.drop_last(), row);
        let (p, q) = (digits_row(s.drop_last(), row), digits_row(t.drop_last(), row));
        let (x, y) = (digits_row(s, row), digits_row(t, row));
        assert(x.take(p.len() as int) =~= p);
        assert(y.take(p.len() as int) =~= q);
        assert(x.skip(p.len() as int + 1) =~= a);
        assert(y.skip(p.len() as int + 1) =~= b);
    } else {
        assert(s.drop_last() =~= t.drop_last());
    }
}

/// Where one part can grow and there is room for all, and where the parts are
/// halves or quarters, there is only one way to split an area.
pub proof fn split_is_determined(
    horizontal: bool,
    area: Rect,
    parts: Seq<Part>,
    a: Seq<Rect>,
    b: Seq<Rect>,
)
    requires
        is_split(horizontal, area, parts, a),
        is_split(horizontal, area, parts, b),
        equal_shares(parts) || (one_grows(parts) && parts_size(parts, 0) <= along_size(
            horizontal,
            area,
        )),
    ensures
        a == b,
{
    assert forall|i: int| 0 <= i < a.len() implies a[i] == b[i] by {
        assert(is_slice(horizontal, area, a[i]) && is_slice(horizontal, area, b[i]));
        assert(along_start(horizontal, a[i]) == along_start(horizontal, b[i]));
        assert(along_size(horizontal, a[i]) == along_size(horizontal, b[i]));
    }
    assert(a =~= b);
}

/// Halves and quarters follow each other and fill the area, and each has room
/// where there is a cell for each.
pub proof fn shares_fill_the_area(horizontal: bool, area: Rect, parts: Seq<Part>, r: Seq<Rect>)
    requires
        is_split(horizontal, area, parts, r),
        equal_shares(parts),
    ensures
        along_start(horizontal, r[0]) == along_start(horizontal, area),
        forall|i: int, j: int|
            0 <= i && j == i + 1 && j < r.len() ==> along_start(horizontal, #[trigger] r[i])
                + along_size(horizontal, r[i]) == along_start(horizontal, #[trigger] r[j]),
        along_start(horizontal, r.last()) + along_size(horizontal, r.last()) == along_start(
            horizontal,
            area,
        ) + along_size(horizontal, area),
        along_size(horizontal, area) >= parts.len() ==> forall|i: int|
            0 <= i < r.len() ==> along_size(horizontal, #[trigger] r[i]) >= 1,
{
    let size = along_size(horizontal, area);
    let n = parts.len() as int;
    assert(r[n - 1] == r.last());
    if n == 2 {
        lemma_share(size, 0, 2);
        lemma_share(size, 1, 2);
    } else {
        lemma_share(size, 0, 4);
        lemma_share(size, 1, 4);
        lemma_share(size, 2, 4);
        lemma_share(size, 3, 4);
    }
    assert forall|i: int|
        size >= n && 0 <= i < r.len() implies along_size(horizontal, #[trigger] r[i]) >= 1 by {
        assert(i == 0 || i == 1 || i == 2 || i == 3);
    }
}

proof fn lemma_share(size: int, i: int, n: int)
    requires
        size >= 0,
        n == 2 || n == 4,
        0 <= i < n,
    ensures
        nearest(0 * size, n) == 0,
        nearest(n * size, n) == size,
        size >= n ==> nearest((i + 1) * size, n) > nearest(i * size, n),
{
    assert(0 * size == 0);
    assert(n / (2 * n) == 0) by (nonlinear_arith)
        requires
            n > 0,
    ;
    assert((i + 1) * size == i * size + size) by (nonlinear_arith);
    assert(i * size >= 0) by (nonlinear_arith)
        requires
            i >= 0,
            size >= 0,
    ;
    assert(n * size == if n == 2 {
        2 * size
    } else {
        4 * size
    });
}

/// A border takes one cell on each side.
pub proof fn border_takes_one_cell(r: Rect)
    requires
        r.x + r.width <= u16::MAX,
        r.y + r.height <= u16::MAX,
    ensures
        r.width >= 2 ==> inner_of(r).x == r.x + 1 && inner_of(r).width == r.width - 2,
        r.height >= 2 ==> inner_of(r).y == r.y + 1 && inner_of(r).height == r.height - 2,
        r.width < 2 ==> inner_of(r).width == 0,
        r.height < 2 ==> inner_of(r).height == 0,
{
}

/// A dialog has the size that it asks for where that fits, and stands in the middle: the
/// space on both sides differs by no more than one cell.
pub proof fn dialog_is_in_the_middle(a: Rect, w: int, h: int)
    requires
        0 <= w,
        0 <= h,
        a.x + a.width <= u16::MAX,
        a.y + a.height <= u16::MAX,
    ensures
        ({
            let r = centered_of(a, w, h);
            let left = r.x - a.x;
            let right = a.x + a.width - (r.x + r.width);
            let above = r.y - a.y;
            let below = a.y + a.height - (r.y + r.height);
            &&& w <= a.width ==> r.width == w
            &&& w > a.width ==> r.width == a.width
            &&& h <= a.height ==> r.height == h
            &&& h > a.height ==> r.height == a.height
            &&& 0 <= right - left <= 1
            &&& 0 <= below - above <= 1
        }),
{
}

/// What is disabled looks disabled; what is enabled looks chosen where it is, and marked
/// where the mouse is on it.
pub proof fn looks_tell_what_can_be_done(enabled: bool, active: bool, hover: bool)
    ensures
        look_of(enabled, active, hover) == Look::Disabled <==> !enabled,
        look_of(enabled, active, hover) == Look::Active <==> enabled && active,
        look_of(enabled, active, hover) == Look::Hover <==> enabled && !active && hover,
        look_of(enabled, active, hover) == Look::Plain <==> enabled && !active && !hover,
{
}

/// Buttons, choices, fields and pictures can be clicked where they stand unless they are
/// disabled; tabs, entries and spots always; and nothing else.
pub proof fn enabled_things_can_be_clicked(i: ItemView, v: Seq<ItemView>)
    ensures
        (match i {
            ItemView::Chip { area, id, look, .. } => spot_of(i) == if look == Look::Disabled {
                None
            } else {
                Some((area, id))
            },
            ItemView::Button { area, id, look, .. } => spot_of(i) == if look == Look::Disabled {
                None
            } else {
                Some((area, id))
            },
            ItemView::BoxButton { area, id, look, .. } => spot_of(i) == if look == Look::Disabled {
                None
            } else {
                Some((area, id))
            },
            ItemView::Field { area, id, look, .. } => spot_of(i) == if look == Look::Disabled {
                None
            } else {
                Some((area, id))
            },
            ItemView::Glyph { area, id, look, .. } => spot_of(i) == if look == Look::Disabled {
                None
            } else {
                Some((area, id))
            },
            ItemView::Tab { area, id, .. } => spot_of(i) == Some((area, id)),
            ItemView::Entry { area, id, .. } => spot_of(i) == Some((area, id)),
            ItemView::Spot { area, id } => spot_of(i) == Some((area, id)),
            _ => spot_of(i) is None,
        }),
        spot_of(i) is None ==> spots_of(v.push(i)) == spots_of(v),
        spot_of(i) matches Some(s) ==> spots_of(v.push(i)) == spots_of(v).push(s),
        spots_of(Seq::empty()).len() == 0,
{
    assert(v.push(i).drop_last() =~= v);
}

/// A large digit is drawn with seven strokes, each for its digits.
pub proof fn digits_are_drawn_with_seven_strokes(d: int)
    requires
        0 <= d <= 9,
    ensures
        digit_row(d, 0)[1] == '_' <==> d != 1 && d != 4,
        digit_row(d, 1)[0] == '|' <==> d == 0 || d == 4 || d == 5 || d == 6 || d == 8 || d == 9,
        digit_row(d, 1)[1] == '_' <==> d != 0 && d != 1 && d != 7,
        digit_row(d, 1)[2] == '|' <==> d != 5 && d != 6,
        digit_row(d, 2)[0] == '|' <==> d == 0 || d == 2 || d == 6 || d == 8,
        digit_row(d, 2)[1] == '_' <==> d != 1 && d != 4 && d != 7,
        digit_row(d, 2)[2] == '|' <==> d != 2,
        digit_row(d, 0)[0] == ' ' && digit_row(d, 0)[2] == ' ',
        digits_row(seq![(48 + d) as char], 0) == digit_row(d, 0),
        digits_row(seq![(48 + d) as char], 1) == digit_row(d, 1),
        digits_row(seq![(48 + d) as char], 2) == digit_row(d, 2),
{
    reveal_strlit("   ");
    reveal_strlit(" _ ");
    reveal_strlit("| |");
    reveal_strlit("  |");
    reveal_strlit(" _|");
    reveal_strlit("|_ ");
    reveal_strlit("|_|");
}

/// Large digits stand side by side with a column between them.
pub proof fn digits_stand_side_by_side(s: Seq<char>, c: char, row: int)
    requires
        s.len() > 0,
    ensures
        digits_row(s.push(c), row) == digits_row(s, row) + seq![' '] + digit_row(
            digit_or_zero(c),
            row,
        ),
        '0' <= c <= '9' ==> digit_or_zero(c) == c as int - 48,
{
    reveal_strlit(" ");
    assert(" "@ =~= seq![' ']);
    assert(s.push(c).drop_last() =~= s);
}

/// A field shows all of its text where that fits, and else as many characters as fit, up
/// to the cursor or from the beginning. The cursor stands at its character.
pub proof fn field_shows_what_is_at_the_cursor(s: Seq<char>, cursor: int, area: Rect)
    requires
        0 <= cursor <= s.len(),
        area.width >= 3,
        area.x + area.width <= u16::MAX,
    ensures
        s.len() <= area.width - 2 ==> field_shows(s, cursor, area) == seq![' '] + s && field_cursor(
            s,
            cursor,
            area,
        ) == area.x + 1 + cursor,
        cursor <= area.width - 2 && s.len() > area.width - 2 ==> field_shows(s, cursor, area) == seq![
            ' ',
        ] + s.take(area.width - 2) && field_cursor(s, cursor, area) == area.x + 1 + cursor,
        cursor > area.width - 2 ==> field_shows(s, cursor, area) == seq![' '] + s.subrange(
            cursor - (area.width - 2),
            cursor,
        ) && field_cursor(s, cursor, area) == area.x + area.width - 1,
{
    assert(s.subrange(0, s.len() as int) =~= s);
    if s.len() > area.width - 2 {
        assert(s.subrange(0, area.width - 2) =~= s.take(area.width - 2));
    }
}

/// A field looks chosen while it has the keyboard, and only then it has a cursor.
pub proof fn field_with_the_keyboard_has_the_cursor(
    area: Rect,
    id: ElemId,
    value: Seq<char>,
    focused: bool,
    cursor: int,
    hover: bool,
    enabled: bool,
)
    ensures
        field_item(area, id, value, focused, cursor, hover, enabled) matches ItemView::Field {
            area: r,
            id: e,
            text,
            look,
            cursor: c,
        } && r == area && e == id && text == field_shows(value, cursor, area) && (look
            == Look::Disabled <==> !enabled) && (look == Look::Active <==> enabled && focused) && (c
            is Some <==> focused) && (focused ==> c == Some(field_cursor(value, cursor, area))),
{
}

/// The choices of a row stand one after the other, each as wide as its label and four
/// cells, and the chosen one looks chosen.
pub proof fn choices_stand_one_after_the_other(
    row: Row,
    labels: Seq<Seq<char>>,
    x: int,
    y: int,
    gap: int,
    selected: int,
    hover: Option<ElemId>,
    enabled: bool,
    i: int,
)
    requires
        0 <= i < labels.len(),
    ensures
        chip_x(labels, x, gap, 0) == x,
        chip_x(labels, x, gap, i + 1) == chip_x(labels, x, gap, i) + labels[i].len() + 4 + gap,
        chips(row, labels, x, y, gap, selected, hover, enabled).len() == labels.len(),
        chips(row, labels, x, y, gap, selected, hover, enabled)[i] matches ItemView::Chip {
            area,
            id,
            label,
            look,
        } && label == labels[i] && id == row_id(row, i) && area == rect_of(
            chip_x(labels, x, gap, i),
            y,
            labels[i].len() as int + 4,
            1,
        ) && (look == Look::Disabled <==> !enabled) && (look == Look::Active <==> enabled && selected
            == i),
        i < 100 ==> row_id(Row::Codecs, i) == ElemId::Codec(i as usize) && row_id(Row::Encoders, i)
            == ElemId::Encoders((i + 1) as usize) && row_id(Row::Presets, i) == ElemId::Preset(
            i as usize,
        ) && row_id(Row::Bitrates, i) == ElemId::Bitrate(i as usize),
{
}

/// The picture of a crop shows which thirds of the picture are kept.
pub proof fn crop_picture_shows_what_is_kept(mode: CropMode)
    ensures
        bands_of(mode).len() == 3,
        bands_of(mode)[1],
        bands_of(mode)[0] <==> mode == CropMode::NoCrop,
        bands_of(mode)[2] <==> mode != CropMode::Centered,
{
}

/// A number of cells is held in the range of a coordinate.
pub proof fn cells_are_held_in_range(n: int)
    ensures
        0 <= n <= 65535 ==> cell(n) == n,
        n < 0 ==> cell(n) == 0,
        n > 65535 ==> cell(n) == 65535,
{
}

/// Parts that stand one after the other with one that grows: a part of a length has that
/// length, and the one that grows takes what the others leave.
pub proof fn part_that_grows_takes_the_rest(
    horizontal: bool,
    area: Rect,
    before: u16,
    least: u16,
    behind: u16,
    r: Seq<Rect>,
)
    requires
        is_split(
            horizontal,
            area,
            seq![Part::Length(before), Part::Min(least), Part::Length(behind)],
            r,
        ),
        before + least + behind <= along_size(horizontal, area),
    ensures
        along_start(horizontal, r[0]) == along_start(horizontal, area),
        along_size(horizontal, r[0]) == before,
        along_start(horizontal, r[1]) == along_start(horizontal, area) + before,
        along_size(horizontal, r[1]) == along_size(horizontal, area) - before - behind,
        along_size(horizontal, r[2]) == behind,
        along_start(horizontal, r[2]) + behind == along_start(horizontal, area) + along_size(
            horizontal,
            area,
        ),
{
    let parts = seq![Part::Length(before), Part::Min(least), Part::Length(behind)];
    let slack = along_size(horizontal, area) - (before + least + behind);
    assert(parts[1] is Min);
    assert(one_grows(parts));
    lemma_sizes_add_up(parts, 0, 0);
    lemma_sizes_add_up(parts, 0, 1);
    lemma_sizes_add_up(parts, 0, 2);
    lemma_sizes_add_up(parts, slack, 0);
    lemma_sizes_add_up(parts, slack, 1);
    assert(along_start(horizontal, r[0]) == along_start(horizontal, area) + parts_size(
        parts.take(0),
        slack,
    ));
    assert(along_size(horizontal, r[1]) == part_size(parts[1], slack));
    assert(along_size(horizontal, r[2]) == part_size(parts[2], slack));
}

/// The sizes of the first parts, one after the other.
pub(crate) proof fn lemma_sizes_add_up(parts: Seq<Part>, slack: int, i: int)
    requires
        0 <= i < parts.len(),
    ensures
        parts_size(parts.take(0), slack) == 0,
        parts_size(parts.take(i + 1), slack) == parts_size(parts.take(i), slack) + part_size(
            parts[i],
            slack,
        ),
        parts_size(parts.take(parts.len() as int), slack) == parts_size(parts, slack),
{
    assert(parts.take(i + 1).drop_last() =~= parts.take(i));
    assert(parts.take(i + 1).last() == parts[i]);
    assert(parts.take(parts.len() as int) =~= parts);
}

} // verus!
