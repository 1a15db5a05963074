//! The rest of the terminal client's screen: the slots, the explorer and the
//! dialogs, and the screen as a whole.
use vstd::prelude::*;
use vstd::string::*;
use crate::app::{elem_exists, App, AppView, ElemId, Focus, Mode, Rect};
use crate::decimal::{zero, Decimal};
use crate::encoder::{StreamSummary, SummaryView};
use crate::explorer::{ExKind, Explorer, ExplorerView};
use crate::format::{eta_of, fmt_eta, fmt_percent, percent_text, share_done, share_of};
use crate::input::all_exist;
use crate::number::{dec, print_u64};
use crate::path::{join, joined};
use crate::progress::{Progress, ProgressView};
use crate::screen::{
    config_items, crop_items, draw_config, folder_items, is_config, local_items, mode_items,
    queue_items, remote_items, row_items, row_labels, status_items,
};
use crate::session::{count_running, Session, SessionView};
use crate::slot::{Slot, SlotState, SlotView, SLOTS};
use crate::start::{is_dir_excluded, is_file_excluded};
use crate::text::{chars_of, concat2, concat3, string_of, sub_chars};
use crate::ui::{
    above_zero, along_size, along_start, centered, centered_of, equal_shares, inner, inner_of,
    is_hover, is_split, items_of, larger, lemma_sizes_add_up, look, look_of, nothing, one_grows,
    paint, part_that_grows_takes_the_rest, rect_at, rect_of, smaller, split, spot_of, spots_of,
    Item, ItemView, Look, Part, Row, Tone,
};

verus! {

// ---------------------------------------------------------------- tabs
/// The tab of a slot.
pub open spec fn tab_item(a: AppView, s: SessionView, area: Rect, i: int) -> ItemView {
    ItemView::Tab {
        area,
        id: ElemId::Tab(i as usize),
        name: "encode"@ + dec(i + 1),
        state: s.slots[i].state,
        look: look_of(true, a.selected_tab == i, a.hover == Some(ElemId::Tab(i as usize))),
    }
}

/// The tabs of all slots.
pub open spec fn tab_items(a: AppView, s: SessionView, cols: Seq<Rect>) -> Seq<ItemView> {
    Seq::new(SLOTS as nat, |i: int| tab_item(a, s, cols[i], i))
}

/// Lays the tabs out in an area that is shared in a given way.
pub fn lay_out_tabs(app: &App, s: &Session, cols: &Vec<Rect>) -> (r: Vec<Item>)
    requires
        s.wf(),
        cols@.len() == SLOTS,
    ensures
        items_of(r@) == tab_items(app@, s@, cols@),
{
    let mut v = nothing();
    let ghost want = tab_items(app@, s@, cols@);
    assert(items_of(v@) =~= want.take(0));
    let mut i: usize = 0;
    while i < SLOTS
        invariant
            i <= SLOTS,
            s.wf(),
            cols@.len() == SLOTS,
            want == tab_items(app@, s@, cols@),
            items_of(v@) == want.take(i as int),
        decreases SLOTS - i,
    {
        let id = ElemId::Tab(i);
        let e = Item::Tab {
            area: cols[i],
            id,
            name: concat2("encode", print_u64(i as u64 + 1).as_str()),
            state: s.slot(i).state,
            look: look(true, app.selected_tab == i, is_hover(app.hover, id)),
        };
        paint(&mut v, e);
        assert(want.take(i + 1) =~= want.take(i as int).push(want[i as int]));
        i += 1;
    }
    assert(want.take(SLOTS as int) =~= want);
    v
}

// ---------------------------------------------------------------- pairs
/// `n` spaces.
pub open spec fn spaces(n: int) -> Seq<char> {
    Seq::new(above_zero(n) as nat, |i: int| ' ')
}

/// A key, right-aligned in a width, with a colon.
pub open spec fn key_text(key: Seq<char>, width: int) -> Seq<char> {
    spaces(width - key.len()) + key + ": "@
}

/// A value; a dash where it is empty.
pub open spec fn value_text(val: Seq<char>) -> Seq<char> {
    if val.len() == 0 {
        "—"@
    } else {
        val
    }
}

/// A line with a key and a value.
pub open spec fn kv_item(
    area: Rect,
    line: int,
    key: Seq<char>,
    val: Seq<char>,
    width: int,
    tone: Tone,
) -> ItemView {
    ItemView::Pair {
        area,
        line: line as u16,
        key: key_text(key, width),
        value: value_text(val),
        tone,
    }
}

/// A line with a key and a value.
pub fn kv_line(area: Rect, line: u16, key: &str, val: &str, width: u8, tone: Tone) -> (r: Item)
    ensures
        r@ == kv_item(area, line as int, key@, val@, width as int, tone),
{
    let k = chars_of(key);
    let mut t: Vec<char> = Vec::new();
    let mut n: usize = k.len();
    assert(t@ =~= spaces(0));
    while n < width as usize
        invariant
            k@.len() <= n,
            n <= width || n == k@.len(),
            t@ == spaces(n - k@.len()),
        decreases width - n,
    {
        t.push(' ');
        n += 1;
        assert(t@ =~= spaces(n - k@.len()));
    }
    assert(t@ =~= spaces(width - k@.len()));
    let text = concat3(string_of(t.as_slice()).as_str(), key, ": ");
    let v = if chars_of(val).len() == 0 {
        "—".to_string()
    } else {
        val.to_string()
    };
    Item::Pair { area, line, key: text, value: v, tone }
}

// ---------------------------------------------------------------- streams
/// What is shown of the video of a file, in its frame.
pub open spec fn video_items(area: Rect, title: Seq<char>, m: SummaryView, rate: Tone) -> Seq<
    ItemView,
> {
    let r = inner_of(area);
    seq![
        ItemView::Group { area, title },
        kv_item(r, 0, "Codec"@, m.v_codec, 7, Tone::Video),
        kv_item(r, 1, "Res"@, m.v_res, 7, Tone::Video),
        kv_item(r, 2, "FPS"@, m.v_fps, 7, Tone::Video),
        kv_item(r, 3, "Bits"@, m.v_bits, 7, Tone::Video),
        kv_item(r, 4, "Bitrate"@, m.v_bitrate, 7, rate),
        kv_item(r, 5, "Dur"@, m.dur_str, 7, Tone::Amber),
    ]
}

/// What is shown of the audio of a file, in its frame.
pub open spec fn audio_items(area: Rect, title: Seq<char>, m: SummaryView, rate: Tone) -> Seq<
    ItemView,
> {
    let r = inner_of(area);
    seq![
        ItemView::Group { area, title },
        kv_item(r, 0, "Codec"@, m.a_codec, 7, Tone::Audio),
        kv_item(r, 1, "Channels"@, m.a_layout, 7, Tone::Audio),
        kv_item(r, 2, "Sample"@, m.a_rate, 7, Tone::Audio),
        kv_item(r, 3, "Bitrate"@, m.a_bitrate, 7, rate),
    ]
}

fn paint_video(v: &mut Vec<Item>, area: Rect, title: &str, m: &StreamSummary, rate: Tone)
    ensures
        items_of(final(v)@) == items_of(old(v)@) + video_items(area, title@, m@, rate),
{
    let ghost before = items_of(v@);
    let r = inner(area);
    paint(v, Item::Group { area, title: title.to_string() });
    paint(v, kv_line(r, 0, "Codec", m.v_codec.as_str(), 7, Tone::Video));
    paint(v, kv_line(r, 1, "Res", m.v_res.as_str(), 7, Tone::Video));
    paint(v, kv_line(r, 2, "FPS", m.v_fps.as_str(), 7, Tone::Video));
    paint(v, kv_line(r, 3, "Bits", m.v_bits.as_str(), 7, Tone::Video));
    paint(v, kv_line(r, 4, "Bitrate", m.v_bitrate.as_str(), 7, rate));
    paint(v, kv_line(r, 5, "Dur", m.dur_str.as_str(), 7, Tone::Amber));
    assert(items_of(v@) =~= before + video_items(area, title@, m@, rate));
}

fn paint_audio(v: &mut Vec<Item>, area: Rect, title: &str, m: &StreamSummary, rate: Tone)
    ensures
        items_of(final(v)@) == items_of(old(v)@) + audio_items(area, title@, m@, rate),
{
    let ghost before = items_of(v@);
    let r = inner(area);
    paint(v, Item::Group { area, title: title.to_string() });
    paint(v, kv_line(r, 0, "Codec", m.a_codec.as_str(), 7, Tone::Audio));
    paint(v, kv_line(r, 1, "Channels", m.a_layout.as_str(), 7, Tone::Audio));
    paint(v, kv_line(r, 2, "Sample", m.a_rate.as_str(), 7, Tone::Audio));
    paint(v, kv_line(r, 3, "Bitrate", m.a_bitrate.as_str(), 7, rate));
    assert(items_of(v@) =~= before + audio_items(area, title@, m@, rate));
}

// ---------------------------------------------------------------- progress
/// The progress of a slot before any was reported.
pub open spec fn no_progress() -> ProgressView {
    ProgressView {
        frame: ""@,
        fps: ""@,
        q: ""@,
        size: ""@,
        time: ""@,
        bitrate: ""@,
        speed: ""@,
        time_sec: zero(),
        speed_val: zero(),
    }
}

/// The progress of a slot.
pub open spec fn progress_in(s: SlotView) -> ProgressView {
    match s.progress {
        Some(p) => p,
        None => no_progress(),
    }
}

/// How far a file is, out of how much.
pub open spec fn elapsed_text(p: ProgressView, dur: Seq<char>) -> Seq<char> {
    value_text(p.time) + " / "@ + dur
}

/// How the encoding goes. `left` and `right` are the two columns of the frame.
pub open spec fn progress_items(s: SlotView, area: Rect, left: Rect, right: Rect) -> Seq<ItemView> {
    let p = progress_in(s);
    let r = inner_of(area);
    seq![
        ItemView::Group { area, title: "PROGRESS"@ },
        kv_item(left, 0, "Frame"@, p.frame, 9, Tone::Val),
        kv_item(left, 1, "FPS"@, p.fps, 9, Tone::Val),
        kv_item(left, 2, "Q"@, p.q, 9, Tone::Val),
        kv_item(left, 3, "Size"@, p.size, 9, Tone::Val),
        kv_item(right, 0, "Time"@, elapsed_text(p, s.streams.dur_str), 9, Tone::Val),
        kv_item(right, 1, "Bitrate"@, p.bitrate, 9, Tone::Val),
        kv_item(right, 2, "Speed"@, p.speed, 9, Tone::Amber),
        kv_item(
            right,
            3,
            "ETA"@,
            eta_of(s.streams.duration, p.time_sec, p.speed_val),
            9,
            Tone::Eta,
        ),
        ItemView::Gauge {
            area: rect_of(
                r.x as int,
                r.y + above_zero(r.height - 1),
                r.width as int,
                1,
            ),
            done: share_of(p.time_sec, s.streams.duration),
            label: percent_text(share_of(p.time_sec, s.streams.duration)),
        },
    ]
}

pub(crate) fn blank_progress() -> (r: Progress)
    ensures
        r.wf(),
        r@ == no_progress(),
{
    Progress {
        frame: "".to_string(),
        fps: "".to_string(),
        q: "".to_string(),
        size: "".to_string(),
        time: "".to_string(),
        bitrate: "".to_string(),
        speed: "".to_string(),
        time_sec: Decimal::zero(),
        speed_val: Decimal::zero(),
    }
}

fn paint_progress_of(
    v: &mut Vec<Item>,
    s: &Slot,
    p: &Progress,
    area: Rect,
    left: Rect,
    right: Rect,
)
    requires
        s.wf(),
        p.wf(),
        p@ == progress_in(s@),
    ensures
        items_of(final(v)@) == items_of(old(v)@) + progress_items(s@, area, left, right),
{
    let ghost before = items_of(v@);
    let r = inner(area);
    let eta = fmt_eta(&s.streams.duration, &p.time_sec, &p.speed_val);
    let done = if chars_of(p.time.as_str()).len() == 0 {
        "—".to_string()
    } else {
        p.time.clone()
    };
    let elapsed = concat3(done.as_str(), " / ", s.streams.dur_str.as_str());
    paint(v, Item::Group { area, title: "PROGRESS".to_string() });
    paint(v, kv_line(left, 0, "Frame", p.frame.as_str(), 9, Tone::Val));
    paint(v, kv_line(left, 1, "FPS", p.fps.as_str(), 9, Tone::Val));
    paint(v, kv_line(left, 2, "Q", p.q.as_str(), 9, Tone::Val));
    paint(v, kv_line(left, 3, "Size", p.size.as_str(), 9, Tone::Val));
    paint(v, kv_line(right, 0, "Time", elapsed.as_str(), 9, Tone::Val));
    paint(v, kv_line(right, 1, "Bitrate", p.bitrate.as_str(), 9, Tone::Val));
    paint(v, kv_line(right, 2, "Speed", p.speed.as_str(), 9, Tone::Amber));
    paint(v, kv_line(right, 3, "ETA", eta.as_str(), 9, Tone::Eta));
    let down: i32 = if r.height >= 1 {
        r.height as i32 - 1
    } else {
        0
    };
    let share = share_done(&p.time_sec, &s.streams.duration);
    let label = fmt_percent(&share);
    paint(
        v,
        Item::Gauge {
            area: rect_at(r.x as i32, r.y as i32 + down, r.width as i32, 1),
            done: share,
            label,
        },
    );
    assert(items_of(v@) =~= before + progress_items(s@, area, left, right));
}

fn paint_progress(v: &mut Vec<Item>, s: &Slot, area: Rect, left: Rect, right: Rect)
    requires
        s.wf(),
    ensures
        items_of(final(v)@) == items_of(old(v)@) + progress_items(s@, area, left, right),
{
    match &s.progress {
        Some(p) => paint_progress_of(v, s, p, area, left, right),
        None => {
            let p = blank_progress();
            paint_progress_of(v, s, &p, area, left, right)
        },
    }
}

// ---------------------------------------------------------------- the keys
/// The keys that ffmpeg understands: a place to type them, and buttons.
pub open spec fn key_items(a: AppView, area: Rect) -> Seq<ItemView> {
    let w = smaller(above_zero(area.width - 20), 46);
    let x = area.x + 1 + w + 1;
    let y = area.y as int;
    seq![
        ItemView::Entry {
            area: rect_of(area.x + 1, y, w, 1),
            id: ElemId::KeyZone,
            text: if a.focus == Focus::KeyZone {
                " ● keyboard active — press  q  +  -"@
            } else {
                " click here and type  (q + -)"@
            },
            tone: Tone::Dim,
            look: look_of(true, a.focus == Focus::KeyZone, a.hover == Some(ElemId::KeyZone)),
        },
        key_button(a, x, y, "q"@, ElemId::KeyBtn(113)),
        key_button(a, x + 4, y, "+"@, ElemId::KeyBtn(43)),
        key_button(a, x + 8, y, "-"@, ElemId::KeyBtn(45)),
    ]
}

/// A button for a key.
pub open spec fn key_button(a: AppView, x: int, y: int, label: Seq<char>, id: ElemId) -> ItemView {
    ItemView::Button {
        area: rect_of(x, y, 3, 1),
        id,
        label,
        look: look_of(true, false, a.hover == Some(id)),
    }
}

fn button_for(app: &App, x: i32, y: i32, label: &str, id: ElemId) -> (r: Item)
    ensures
        r@ == key_button(app@, x as int, y as int, label@, id),
{
    Item::Button {
        area: rect_at(x, y, 3, 1),
        id,
        label: label.to_string(),
        look: look(true, false, is_hover(app.hover, id)),
    }
}

fn paint_keys(v: &mut Vec<Item>, app: &App, area: Rect)
    ensures
        items_of(final(v)@) == items_of(old(v)@) + key_items(app@, area),
{
    let ghost before = items_of(v@);
    let room: i32 = area.width as i32 - 20;
    let w: i32 = if room < 0 {
        0
    } else if room < 46 {
        room
    } else {
        46
    };
    let y: i32 = area.y as i32;
    let x: i32 = area.x as i32 + 1 + w + 1;
    let on = app.focus == Focus::KeyZone;
    paint(
        v,
        Item::Entry {
            area: rect_at(area.x as i32 + 1, y, w, 1),
            id: ElemId::KeyZone,
            text: if on {
                " ● keyboard active — press  q  +  -".to_string()
            } else {
                " click here and type  (q + -)".to_string()
            },
            tone: Tone::Dim,
            look: look(true, on, is_hover(app.hover, ElemId::KeyZone)),
        },
    );
    paint(v, button_for(app, x, y, "q", ElemId::KeyBtn(113)));
    paint(v, button_for(app, x + 4, y, "+", ElemId::KeyBtn(43)));
    paint(v, button_for(app, x + 8, y, "-", ElemId::KeyBtn(45)));
    assert(items_of(v@) =~= before + key_items(app@, area));
}

// ---------------------------------------------------------------- the slot
/// The file in a slot, and how it goes.
pub open spec fn file_items(s: SlotView, area: Rect, y: u16) -> Seq<ItemView> {
    seq![
        ItemView::File {
            area: rect_of(area.x + 1, y as int, above_zero(area.width - 2), 1),
            name: if s.name.len() == 0 {
                "idle"@
            } else {
                s.name
            },
            name_tone: if s.name.len() == 0 {
                Tone::State(SlotState::Idle)
            } else {
                Tone::Val
            },
            note: if s.name.len() == 0 || s.state == SlotState::Idle {
                ""@
            } else {
                "  "@ + s.state.spec_label()
            },
            note_tone: Tone::State(s.state),
        },
    ]
}

/// What a slot writes.
pub open spec fn output_items(s: SlotView, area: Rect, y: u16) -> Seq<ItemView> {
    if s.name.len() > 0 && s.info.len() > 0 {
        seq![
            ItemView::Label {
                area: rect_of(area.x + 1, y as int, above_zero(area.width - 2), 1),
                text: "Output: "@ + s.info,
                tone: Tone::Dim,
            },
        ]
    } else {
        seq![]
    }
}

/// The command of a slot.
pub open spec fn command_items(a: AppView, s: SlotView, area: Rect) -> Seq<ItemView> {
    seq![ItemView::Group { area, title: "Command"@ }] + if s.cmdline.len() > 0 {
        seq![
            ItemView::Wrapped {
                area: inner_of(area),
                text: s.cmdline,
                scroll: a.cmd_scroll as u16,
            },
        ]
    } else {
        seq![]
    }
}

/// The end of a text, of at most 1500 characters.
pub open spec fn tail_of(s: Seq<char>) -> Seq<char> {
    if s.len() > 1500 {
        s.skip(s.len() - 1500)
    } else {
        s
    }
}

/// The keys of a slot that runs, or what went wrong in one that failed.
pub open spec fn foot_items(a: AppView, s: SlotView, area: Rect) -> Seq<ItemView> {
    if s.state == SlotState::Running {
        key_items(a, area)
    } else if s.state is Fail && s.output.len() > 0 {
        seq![ItemView::Problem { area, text: tail_of(s.output) }]
    } else {
        seq![]
    }
}

/// All of a slot. `rows` are the rows of the area, `cols` the four parts of the
/// row for the streams, `halves` the two parts of the row for the progress.
pub open spec fn slot_items(
    a: AppView,
    s: SlotView,
    area: Rect,
    rows: Seq<Rect>,
    cols: Seq<Rect>,
    halves: Seq<Rect>,
) -> Seq<ItemView> {
    file_items(s, area, rows[0].y) + output_items(s, area, rows[1].y) + command_items(
        a,
        s,
        rows[2],
    ) + video_items(cols[0], "VIDEO · SOURCE"@, s.streams, Tone::Video) + video_items(
        cols[1],
        "VIDEO · TARGET"@,
        s.target,
        Tone::Amber,
    ) + audio_items(cols[2], "AUDIO · SOURCE"@, s.streams, Tone::Audio) + audio_items(
        cols[3],
        "AUDIO · TARGET"@,
        s.target,
        Tone::Amber,
    ) + progress_items(s, rows[4], halves[0], halves[1]) + foot_items(a, s, rows[5])
}

fn paint_head(v: &mut Vec<Item>, s: &Slot, area: Rect, y0: u16, y1: u16)
    ensures
        items_of(final(v)@) == items_of(old(v)@) + file_items(s@, area, y0) + output_items(
            s@,
            area,
            y1,
        ),
{
    let ghost before = items_of(v@);
    let w: i32 = if area.width >= 2 {
        area.width as i32 - 2
    } else {
        0
    };
    let x: i32 = area.x as i32 + 1;
    let named = chars_of(s.name.as_str()).len() > 0;
    let informed = chars_of(s.info.as_str()).len() > 0;
    let note = if !named || s.state == SlotState::Idle {
        "".to_string()
    } else {
        concat2("  ", s.state.label().as_str())
    };
    paint(
        v,
        Item::File {
            area: rect_at(x, y0 as i32, w, 1),
            name: if named {
                s.name.clone()
            } else {
                "idle".to_string()
            },
            name_tone: if named {
                Tone::Val
            } else {
                Tone::State(SlotState::Idle)
            },
            note,
            note_tone: Tone::State(s.state),
        },
    );
    assert(items_of(v@) =~= before + file_items(s@, area, y0));
    let ghost mid = items_of(v@);
    if named && informed {
        paint(
            v,
            Item::Label {
                area: rect_at(x, y1 as i32, w, 1),
                text: concat2("Output: ", s.info.as_str()),
                tone: Tone::Dim,
            },
        );
    }
    assert(items_of(v@) =~= mid + output_items(s@, area, y1));
}

fn paint_command(v: &mut Vec<Item>, app: &App, s: &Slot, area: Rect)
    ensures
        items_of(final(v)@) == items_of(old(v)@) + command_items(app@, s@, area),
{
    let ghost before = items_of(v@);
    paint(v, Item::Group { area, title: "Command".to_string() });
    if chars_of(s.cmdline.as_str()).len() > 0 {
        paint(
            v,
            Item::Wrapped {
                area: inner(area),
                text: s.cmdline.clone(),
                scroll: app.cmd_scroll,
            },
        );
    }
    assert(items_of(v@) =~= before + command_items(app@, s@, area));
}

fn paint_foot(v: &mut Vec<Item>, app: &App, s: &Slot, area: Rect)
    ensures
        items_of(final(v)@) == items_of(old(v)@) + foot_items(app@, s@, area),
{
    let ghost before = items_of(v@);
    match s.state {
        SlotState::Running => {
            paint_keys(v, app, area);
        },
        SlotState::Fail(_) => {
            let c = chars_of(s.output.as_str());
            let n = c.len();
            if n > 0 {
                let text = if n > 1500 {
                    let t = sub_chars(c.as_slice(), n - 1500, n);
                    assert(t@ =~= tail_of(s@.output));
                    string_of(t.as_slice())
                } else {
                    s.output.clone()
                };
                paint(v, Item::Problem { area, text });
            }
            assert(items_of(v@) =~= before + foot_items(app@, s@, area));
        },
        SlotState::Idle => {
            assert(items_of(v@) =~= before + foot_items(app@, s@, area));
        },
    }
}

/// Lays a slot out in an area that is shared in a given way.
pub fn lay_out_slot(
    app: &App,
    s: &Slot,
    area: Rect,
    rows: &Vec<Rect>,
    cols: &Vec<Rect>,
    halves: &Vec<Rect>,
) -> (r: Vec<Item>)
    requires
        s.wf(),
        rows@.len() == 6,
        cols@.len() == 4,
        halves@.len() == 2,
    ensures
        items_of(r@) == slot_items(app@, s@, area, rows@, cols@, halves@),
{
    let mut v = nothing();
    paint_head(&mut v, s, area, rows[0].y, rows[1].y);
    paint_command(&mut v, app, s, rows[2]);
    paint_video(&mut v, cols[0], "VIDEO · SOURCE", &s.streams, Tone::Video);
    paint_video(&mut v, cols[1], "VIDEO · TARGET", &s.target, Tone::Amber);
    paint_audio(&mut v, cols[2], "AUDIO · SOURCE", &s.streams, Tone::Audio);
    paint_audio(&mut v, cols[3], "AUDIO · TARGET", &s.target, Tone::Amber);
    paint_progress(&mut v, s, rows[4], halves[0], halves[1]);
    paint_foot(&mut v, app, s, rows[5]);
    assert(items_of(v@) =~= slot_items(app@, s@, area, rows@, cols@, halves@));
    v
}

/// The rows of a slot.
pub open spec fn slot_rows() -> Seq<Part> {
    seq![
        Part::Length(1),
        Part::Length(1),
        Part::Length(4),
        Part::Length(8),
        Part::Length(8),
        Part::Min(1),
    ]
}

/// Four equal parts.
pub open spec fn quarters() -> Seq<Part> {
    seq![Part::Ratio(1, 4), Part::Ratio(1, 4), Part::Ratio(1, 4), Part::Ratio(1, 4)]
}

/// Two equal parts.
pub open spec fn two_halves() -> Seq<Part> {
    seq![Part::Ratio(1, 2), Part::Ratio(1, 2)]
}

/// Where the numbers of the progress stand in its frame: above the gauge.
pub open spec fn numbers_area(frame: Rect) -> Rect {
    let r = inner_of(frame);
    rect_of(r.x as int, r.y as int, r.width as int, above_zero(r.height - 2))
}

/// Whether items are those of a slot in an area, split in some way.
pub open spec fn is_slot(v: Seq<ItemView>, a: AppView, s: SlotView, area: Rect) -> bool {
    exists|rows: Seq<Rect>, cols: Seq<Rect>, halves: Seq<Rect>|
        {
            &&& is_split(false, area, slot_rows(), rows)
            &&& is_split(true, rows[3], quarters(), cols)
            &&& is_split(true, numbers_area(rows[4]), two_halves(), halves)
            &&& v == #[trigger] slot_items(a, s, area, rows, cols, halves)
        }
}

/// Lays the selected slot out in an area.
pub fn draw_slot(app: &App, s: &Session, area: Rect) -> (r: Vec<Item>)
    requires
        app.wf(),
        s.wf(),
    ensures
        is_slot(items_of(r@), app@, s@.slots[app@.selected_tab], area),
{
    let slot = s.slot(app.selected_tab);
    let in_rows = vec![
        Part::Length(1),
        Part::Length(1),
        Part::Length(4),
        Part::Length(8),
        Part::Length(8),
        Part::Min(1),
    ];
    assert(in_rows@ =~= slot_rows());
    let rows = split(false, area, &in_rows);
    let in_cols = four();
    let cols = split(true, rows[3], &in_cols);
    let p = inner(rows[4]);
    let h: i32 = if p.height >= 2 {
        p.height as i32 - 2
    } else {
        0
    };
    let in_halves = vec![Part::Ratio(1, 2), Part::Ratio(1, 2)];
    assert(in_halves@ =~= two_halves());
    let halves = split(
        true,
        rect_at(p.x as i32, p.y as i32, p.width as i32, h),
        &in_halves,
    );
    let r = lay_out_slot(app, slot, area, &rows, &cols, &halves);
    assert(items_of(r@) == slot_items(app@, slot@, area, rows@, cols@, halves@));
    r
}

fn four() -> (r: Vec<Part>)
    ensures
        r@ == quarters(),
{
    let r = vec![Part::Ratio(1, 4), Part::Ratio(1, 4), Part::Ratio(1, 4), Part::Ratio(1, 4)];
    assert(r@ =~= quarters());
    r
}

/// Whether items are the tabs in an area, split in some way.
pub open spec fn is_tabs(v: Seq<ItemView>, a: AppView, s: SessionView, area: Rect) -> bool {
    exists|cols: Seq<Rect>|
        is_split(true, area, quarters(), cols) && v == #[trigger] tab_items(a, s, cols)
}

/// Lays the tabs out in an area.
pub fn draw_tabs(app: &App, s: &Session, area: Rect) -> (r: Vec<Item>)
    requires
        s.wf(),
    ensures
        is_tabs(items_of(r@), app@, s@, area),
{
    let parts = four();
    let cols = split(true, area, &parts);
    let r = lay_out_tabs(app, s, &cols);
    assert(items_of(r@) == tab_items(app@, s@, cols@));
    r
}

// ---------------------------------------------------------------- the explorer
/// Whether an entry of the explorer is ticked: it is not left out. Only where a
/// folder is picked can anything be left out.
pub open spec fn is_ticked(a: AppView, ex: ExplorerView, i: int) -> bool {
    let path = joined(a.platform, ex.cwd, ex.entries[i].0);
    if ex.kind == ExKind::File {
        true
    } else if ex.entries[i].1 {
        !is_dir_excluded(a, path)
    } else {
        !is_file_excluded(a, path)
    }
}

/// The text of an entry of the explorer.
pub open spec fn entry_text(a: AppView, ex: ExplorerView, i: int) -> Seq<char> {
    let name = ex.entries[i].0;
    let mark = if is_ticked(a, ex, i) {
        "x"@
    } else {
        " "@
    };
    if ex.kind == ExKind::Dir {
        if ex.entries[i].1 {
            "  ["@ + mark + "] 📁 "@ + name
        } else {
            "  ["@ + mark + "] "@ + name
        }
    } else if ex.entries[i].1 {
        "  📁 "@ + name
    } else {
        "     "@ + name
    }
}

/// An entry of the explorer, on a line of the list. Where a folder is picked it
/// has a box to tick.
pub open spec fn entry_items(a: AppView, ex: ExplorerView, list: Rect, i: int, line: int) -> Seq<
    ItemView,
> {
    let area = rect_of(list.x as int, list.y + 1 + line, list.width as int, 1);
    seq![
        ItemView::Entry {
            area,
            id: ElemId::ExRow(i as usize),
            text: entry_text(a, ex, i),
            tone: if !is_ticked(a, ex, i) {
                Tone::Dim
            } else if ex.entries[i].1 {
                Tone::Video
            } else {
                Tone::Val
            },
            look: look_of(
                true,
                ex.selected == i,
                a.hover == Some(ElemId::ExRow(i as usize)) || a.hover == Some(
                    ElemId::ExCheck(i as usize),
                ),
            ),
        },
    ] + if ex.kind == ExKind::Dir {
        seq![
            ItemView::Spot {
                area: rect_of(area.x + 2, area.y as int, 4, 1),
                id: ElemId::ExCheck(i as usize),
            },
        ]
    } else {
        seq![]
    }
}

/// The first `n` entries from `start` on.
pub open spec fn list_items(a: AppView, ex: ExplorerView, list: Rect, start: int, n: int) -> Seq<
    ItemView,
>
    decreases n,
{
    if n <= 0 {
        Seq::empty()
    } else {
        list_items(a, ex, list, start, n - 1) + entry_items(a, ex, list, start + n - 1, n - 1)
    }
}

/// The explorer. `parts` are how the inside of its frame is shared.
pub open spec fn explorer_items(
    a: AppView,
    ex: ExplorerView,
    area: Rect,
    parts: Seq<Rect>,
) -> Seq<ItemView> {
    let m = explorer_frame(area);
    let b = inner_of(m);
    let list = parts[1];
    let start = smaller(ex.scroll, ex.entries.len() as int);
    let shown = smaller(above_zero(list.height - 1), ex.entries.len() - start);
    let open = if ex.kind == ExKind::File {
        "[ Choose file ]"@
    } else {
        "[ Use this folder ]"@
    };
    seq![
        ItemView::Dialog {
            area: m,
            title: if ex.kind == ExKind::File {
                " Pick ffmpeg "@
            } else {
                " Pick source folder "@
            },
            tone: Tone::Accent,
        },
        ItemView::Label { area: parts[0], text: " "@ + ex.cwd, tone: Tone::Amber },
        ItemView::Entry {
            area: rect_of(list.x as int, list.y as int, list.width as int, 1),
            id: ElemId::ExUp,
            text: "  📁 .."@,
            tone: Tone::Dim,
            look: look_of(true, false, a.hover == Some(ElemId::ExUp)),
        },
    ] + list_items(a, ex, list, start, shown) + seq![
        ItemView::Button {
            area: rect_of(b.x + 1, parts[2].y as int, open.len() as int, 1),
            id: ElemId::ExOpen,
            label: open,
            look: look_of(true, false, a.hover == Some(ElemId::ExOpen)),
        },
        ItemView::Button {
            area: rect_of(above_zero(b.x + b.width - 15), parts[2].y as int, 14, 1),
            id: ElemId::ExCancel,
            label: "[ Cancel ]"@,
            look: look_of(true, false, a.hover == Some(ElemId::ExCancel)),
        },
    ]
}

/// Where the explorer is: in the middle, over three quarters of the area.
pub open spec fn explorer_frame(area: Rect) -> Rect {
    centered_of(
        area,
        larger(area.width * 3 / 4, 50),
        larger(area.height * 3 / 4, 14),
    )
}

fn ticked(app: &App, ex: &Explorer, i: usize) -> (r: bool)
    requires
        app.wf(),
        i < ex.entries@.len(),
    ensures
        r == is_ticked(app@, ex@, i as int),
{
    if ex.kind == ExKind::File {
        return true;
    }
    let path = join(app.platform, ex.cwd.as_str(), ex.entries[i].0.as_str());
    if ex.entries[i].1 {
        !app.dir_excluded(path.as_str())
    } else {
        !app.file_excluded(path.as_str())
    }
}

fn text_of_entry(app: &App, ex: &Explorer, i: usize, tick: bool) -> (r: String)
    requires
        i < ex.entries@.len(),
        tick == is_ticked(app@, ex@, i as int),
    ensures
        r@ == entry_text(app@, ex@, i as int),
{
    let mark = if tick {
        "x"
    } else {
        " "
    };
    let name = ex.entries[i].0.as_str();
    if ex.kind == ExKind::Dir {
        let mut t = concat3(
            "  [",
            mark,
            if ex.entries[i].1 {
                "] 📁 "
            } else {
                "] "
            },
        );
        t.append(name);
        t
    } else if ex.entries[i].1 {
        concat2("  📁 ", name)
    } else {
        concat2("     ", name)
    }
}

fn paint_entry(v: &mut Vec<Item>, app: &App, ex: &Explorer, list: Rect, i: usize, line: u16)
    requires
        app.wf(),
        i < ex.entries@.len(),
    ensures
        items_of(final(v)@) == items_of(old(v)@) + entry_items(
            app@,
            ex@,
            list,
            i as int,
            line as int,
        ),
{
    let ghost before = items_of(v@);
    let area = rect_at(list.x as i32, list.y as i32 + 1 + line as i32, list.width as i32, 1);
    let tick = ticked(app, ex, i);
    paint(
        v,
        Item::Entry {
            area,
            id: ElemId::ExRow(i),
            text: text_of_entry(app, ex, i, tick),
            tone: if !tick {
                Tone::Dim
            } else if ex.entries[i].1 {
                Tone::Video
            } else {
                Tone::Val
            },
            look: look(
                true,
                ex.selected == i,
                is_hover(app.hover, ElemId::ExRow(i)) || is_hover(app.hover, ElemId::ExCheck(i)),
            ),
        },
    );
    if ex.kind == ExKind::Dir {
        paint(
            v,
            Item::Spot {
                area: rect_at(area.x as i32 + 2, area.y as i32, 4, 1),
                id: ElemId::ExCheck(i),
            },
        );
    }
    assert(items_of(v@) =~= before + entry_items(app@, ex@, list, i as int, line as int));
}

fn paint_list(v: &mut Vec<Item>, app: &App, ex: &Explorer, list: Rect)
    requires
        app.wf(),
    ensures
        ({
            let start = smaller(ex@.scroll, ex@.entries.len() as int);
            let shown = smaller(above_zero(list.height - 1), ex@.entries.len() - start);
            items_of(final(v)@) == items_of(old(v)@) + list_items(app@, ex@, list, start, shown)
        }),
{
    let ghost before = items_of(v@);
    let n = ex.entries.len();
    let start: usize = if ex.scroll < n {
        ex.scroll
    } else {
        n
    };
    let room: u16 = if list.height >= 1 {
        list.height - 1
    } else {
        0
    };
    let mut k: u16 = 0;
    assert(items_of(v@) =~= before + list_items(app@, ex@, list, start as int, 0));
    while k < room && (k as usize) < n - start
        invariant
            app.wf(),
            n == ex@.entries.len(),
            start <= n,
            k <= room,
            k <= n - start,
            items_of(v@) == before + list_items(app@, ex@, list, start as int, k as int),
        decreases room - k,
    {
        let ghost now = items_of(v@);
        paint_entry(v, app, ex, list, start + k as usize, k);
        assert(items_of(v@) =~= before + list_items(app@, ex@, list, start as int, k + 1));
        k += 1;
    }
}

/// Lays the explorer out, with the inside of its frame shared in a given way.
pub fn lay_out_explorer(app: &App, ex: &Explorer, area: Rect, parts: &Vec<Rect>) -> (r: Vec<Item>)
    requires
        app.wf(),
        parts@.len() == 3,
    ensures
        items_of(r@) == explorer_items(app@, ex@, area, parts@),
{
    let mut v = nothing();
    let m = explorer_area(area);
    let b = inner(m);
    let list = parts[1];
    let file = ex.kind == ExKind::File;
    paint(
        &mut v,
        Item::Dialog {
            area: m,
            title: if file {
                " Pick ffmpeg ".to_string()
            } else {
                " Pick source folder ".to_string()
            },
            tone: Tone::Accent,
        },
    );
    paint(
        &mut v,
        Item::Label { area: parts[0], text: concat2(" ", ex.cwd.as_str()), tone: Tone::Amber },
    );
    paint(
        &mut v,
        Item::Entry {
            area: rect_at(list.x as i32, list.y as i32, list.width as i32, 1),
            id: ElemId::ExUp,
            text: "  📁 ..".to_string(),
            tone: Tone::Dim,
            look: look(true, false, is_hover(app.hover, ElemId::ExUp)),
        },
    );
    paint_list(&mut v, app, ex, list);
    let open = if file {
        "[ Choose file ]"
    } else {
        "[ Use this folder ]"
    };
    proof {
        reveal_strlit("[ Choose file ]");
        reveal_strlit("[ Use this folder ]");
        assert("[ Choose file ]"@.len() == 15 && "[ Use this folder ]"@.len() == 19);
    }
    let w: i32 = chars_of(open).len() as i32;
    let edge: i32 = b.x as i32 + b.width as i32 - 15;
    paint(
        &mut v,
        Item::Button {
            area: rect_at(b.x as i32 + 1, parts[2].y as i32, w, 1),
            id: ElemId::ExOpen,
            label: open.to_string(),
            look: look(true, false, is_hover(app.hover, ElemId::ExOpen)),
        },
    );
    paint(
        &mut v,
        Item::Button {
            area: rect_at(
                if edge < 0 {
                    0
                } else {
                    edge
                },
                parts[2].y as i32,
                14,
                1,
            ),
            id: ElemId::ExCancel,
            label: "[ Cancel ]".to_string(),
            look: look(true, false, is_hover(app.hover, ElemId::ExCancel)),
        },
    );
    assert(items_of(v@) =~= explorer_items(app@, ex@, area, parts@));
    v
}

fn explorer_area(area: Rect) -> (r: Rect)
    ensures
        r == explorer_frame(area),
{
    let w: u32 = area.width as u32 * 3 / 4;
    let h: u32 = area.height as u32 * 3 / 4;
    centered(
        area,
        if w < 50 {
            50
        } else {
            w as u16
        },
        if h < 14 {
            14
        } else {
            h as u16
        },
    )
}

/// The rows of the explorer.
pub open spec fn explorer_rows() -> Seq<Part> {
    seq![Part::Length(1), Part::Min(3), Part::Length(1)]
}

/// Whether items are those of the explorer, where it is open, with its frame
/// split in some way.
pub open spec fn is_explorer(v: Seq<ItemView>, a: AppView, area: Rect) -> bool {
    match a.explorer {
        Some(ex) => exists|parts: Seq<Rect>|
            {
                &&& is_split(false, inner_of(explorer_frame(area)), explorer_rows(), parts)
                &&& v == #[trigger] explorer_items(a, ex, area, parts)
            },
        None => v.len() == 0,
    }
}

/// Lays the explorer out, where it is open.
pub fn draw_explorer(app: &App, area: Rect) -> (r: Vec<Item>)
    requires
        app.wf(),
    ensures
        is_explorer(items_of(r@), app@, area),
{
    match &app.explorer {
        Some(ex) => {
            let b = inner(explorer_area(area));
            let in_rows = vec![Part::Length(1), Part::Min(3), Part::Length(1)];
            assert(in_rows@ =~= explorer_rows());
            let parts = split(false, b, &in_rows);
            let r = lay_out_explorer(app, ex, area, &parts);
            assert(items_of(r@) == explorer_items(app@, ex@, area, parts@));
            r
        },
        None => nothing(),
    }
}

// ---------------------------------------------------------------- dialogs
/// The question whether to leave.
pub open spec fn confirm_items(a: AppView, s: SessionView, area: Rect) -> Seq<ItemView> {
    let m = centered_of(area, 56, 8);
    let b = inner_of(m);
    let y = b.y + b.height - 1;
    if a.confirm_exit {
        seq![
            ItemView::Dialog { area: m, title: " Quit? "@, tone: Tone::Amber },
            ItemView::Message {
                area: rect_of(
                    b.x as int,
                    b.y as int,
                    b.width as int,
                    above_zero(b.height - 2),
                ),
                text: "There are "@ + dec(count_running(s.slots))
                    + " ffmpeg process(es) running. If you quit they'll be closed cleanly (q) — it may take a few seconds."@,
                tone: Tone::Val,
            },
            ItemView::Button {
                area: rect_of(b.x + 1, y, 14, 1),
                id: ElemId::ConfirmYes,
                label: "[ Yes, quit ]"@,
                look: look_of(true, false, a.hover == Some(ElemId::ConfirmYes)),
            },
            ItemView::Button {
                area: rect_of(b.x + 18, y, 14, 1),
                id: ElemId::ConfirmNo,
                label: "[ No, stay ]"@,
                look: look_of(true, false, a.hover == Some(ElemId::ConfirmNo)),
            },
        ]
    } else {
        seq![]
    }
}

/// The notice that the client is closing.
pub open spec fn closing_items(a: AppView, s: SessionView, area: Rect) -> Seq<ItemView> {
    let m = centered_of(area, 50, 5);
    if a.closing {
        seq![
            ItemView::Dialog { area: m, title: " Closing… "@, tone: Tone::Accent },
            ItemView::Message {
                area: inner_of(m),
                text: "Waiting for "@ + dec(count_running(s.slots))
                    + " process(es) to close (q, clean shutdown)…"@,
                tone: Tone::Val,
            },
        ]
    } else {
        seq![]
    }
}

fn paint_confirm(v: &mut Vec<Item>, app: &App, s: &Session, area: Rect)
    requires
        s.wf(),
    ensures
        items_of(final(v)@) == items_of(old(v)@) + confirm_items(app@, s@, area),
{
    let ghost before = items_of(v@);
    if app.confirm_exit {
        let m = centered(area, 56, 8);
        let b = inner(m);
        let y: i32 = b.y as i32 + b.height as i32 - 1;
        let h: i32 = if b.height >= 2 {
            b.height as i32 - 2
        } else {
            0
        };
        paint(v, Item::Dialog { area: m, title: " Quit? ".to_string(), tone: Tone::Amber });
        paint(
            v,
            Item::Message {
                area: rect_at(b.x as i32, b.y as i32, b.width as i32, h),
                text: concat3(
                    "There are ",
                    print_u64(s.running_count() as u64).as_str(),
                    " ffmpeg process(es) running. If you quit they'll be closed cleanly (q) — it may take a few seconds.",
                ),
                tone: Tone::Val,
            },
        );
        paint(
            v,
            Item::Button {
                area: rect_at(b.x as i32 + 1, y, 14, 1),
                id: ElemId::ConfirmYes,
                label: "[ Yes, quit ]".to_string(),
                look: look(true, false, is_hover(app.hover, ElemId::ConfirmYes)),
            },
        );
        paint(
            v,
            Item::Button {
                area: rect_at(b.x as i32 + 18, y, 14, 1),
                id: ElemId::ConfirmNo,
                label: "[ No, stay ]".to_string(),
                look: look(true, false, is_hover(app.hover, ElemId::ConfirmNo)),
            },
        );
    }
    assert(items_of(v@) =~= before + confirm_items(app@, s@, area));
}

fn paint_closing(v: &mut Vec<Item>, app: &App, s: &Session, area: Rect)
    requires
        s.wf(),
    ensures
        items_of(final(v)@) == items_of(old(v)@) + closing_items(app@, s@, area),
{
    let ghost before = items_of(v@);
    if app.closing {
        let m = centered(area, 50, 5);
        paint(v, Item::Dialog { area: m, title: " Closing… ".to_string(), tone: Tone::Accent });
        paint(
            v,
            Item::Message {
                area: inner(m),
                text: concat3(
                    "Waiting for ",
                    print_u64(s.running_count() as u64).as_str(),
                    " process(es) to close (q, clean shutdown)…",
                ),
                tone: Tone::Val,
            },
        );
    }
    assert(items_of(v@) =~= before + closing_items(app@, s@, area));
}

// ---------------------------------------------------------------- the whole screen
/// The button in the corner that closes the client, where there is room for it.
pub open spec fn close_items(a: AppView, area: Rect) -> Seq<ItemView> {
    if area.width >= 6 {
        seq![
            ItemView::Button {
                area: rect_of(area.x + area.width - 5, area.y as int, 3, 1),
                id: ElemId::TitleClose,
                label: "[x]"@,
                look: look_of(true, false, a.hover == Some(ElemId::TitleClose)),
            },
        ]
    } else {
        seq![]
    }
}

/// Whether the inside of the window is too small for the client.
pub open spec fn is_too_small(area: Rect) -> bool {
    inner_of(area).width < 60 || inner_of(area).height < 20
}

/// The rows of the screen.
pub open spec fn screen_rows() -> Seq<Part> {
    seq![Part::Length(12), Part::Length(3), Part::Min(1)]
}

/// Whether items are the whole screen of a size, split in some way.
pub open spec fn is_screen(v: Seq<ItemView>, a: AppView, s: SessionView, area: Rect) -> bool {
    let body = inner_of(area);
    if is_too_small(area) {
        v == close_items(a, area) + seq![
            ItemView::Label {
                area: body,
                text: "Enlarge the terminal (min. 62x22)."@,
                tone: Tone::Fail,
            },
        ]
    } else {
        exists|
            rows: Seq<Rect>,
            config: Seq<ItemView>,
            tabs: Seq<ItemView>,
            slot: Seq<ItemView>,
            ex: Seq<ItemView>,
        |
            {
                &&& #[trigger] is_split(false, body, screen_rows(), rows)
                &&& is_config(config, a, s, rows[0])
                &&& is_tabs(tabs, a, s, rows[1])
                &&& is_slot(slot, a, s.slots[a.selected_tab], rows[2])
                &&& is_explorer(ex, a, body)
                &&& v == #[trigger] screen_of(a, s, area, config, tabs, slot, ex)
            }
    }
}

/// The parts of the screen, one over the other.
pub open spec fn screen_of(
    a: AppView,
    s: SessionView,
    area: Rect,
    config: Seq<ItemView>,
    tabs: Seq<ItemView>,
    slot: Seq<ItemView>,
    ex: Seq<ItemView>,
) -> Seq<ItemView> {
    let body = inner_of(area);
    close_items(a, area) + config + tabs + slot + ex + confirm_items(a, s, body) + closing_items(
        a,
        s,
        body,
    )
}

fn append_items(v: &mut Vec<Item>, mut more: Vec<Item>)
    ensures
        items_of(final(v)@) == items_of(old(v)@) + items_of(more@),
{
    let ghost before = items_of(v@);
    let ghost added = items_of(more@);
    v.append(&mut more);
    assert(items_of(v@) =~= before + added);
}

/// Lays the whole screen out.
pub fn draw(app: &App, s: &Session, area: Rect) -> (r: Vec<Item>)
    requires
        app.wf(),
        s.wf(),
        s@.queue.len() + SLOTS <= usize::MAX,
    ensures
        is_screen(items_of(r@), app@, s@, area),
{
    let mut v = nothing();
    if area.width >= 6 {
        paint(
            &mut v,
            Item::Button {
                area: rect_at(area.x as i32 + area.width as i32 - 5, area.y as i32, 3, 1),
                id: ElemId::TitleClose,
                label: "[x]".to_string(),
                look: look(true, false, is_hover(app.hover, ElemId::TitleClose)),
            },
        );
    }
    assert(items_of(v@) =~= close_items(app@, area));
    let body = inner(area);
    if body.width < 60 || body.height < 20 {
        paint(
            &mut v,
            Item::Label {
                area: body,
                text: "Enlarge the terminal (min. 62x22).".to_string(),
                tone: Tone::Fail,
            },
        );
        assert(items_of(v@) =~= close_items(app@, area) + seq![
            ItemView::Label {
                area: body,
                text: "Enlarge the terminal (min. 62x22)."@,
                tone: Tone::Fail,
            },
        ]);
        return v;
    }
    let in_rows = vec![Part::Length(12), Part::Length(3), Part::Min(1)];
    assert(in_rows@ =~= screen_rows());
    let rows = split(false, body, &in_rows);
    let config = draw_config(app, s, rows[0]);
    let ghost c = items_of(config@);
    append_items(&mut v, config);
    let tabs = draw_tabs(app, s, rows[1]);
    let ghost t = items_of(tabs@);
    append_items(&mut v, tabs);
    let slot = draw_slot(app, s, rows[2]);
    let ghost p = items_of(slot@);
    append_items(&mut v, slot);
    let ex = draw_explorer(app, body);
    let ghost e = items_of(ex@);
    append_items(&mut v, ex);
    paint_confirm(&mut v, app, s, body);
    paint_closing(&mut v, app, s, body);
    assert(items_of(v@) =~= screen_of(app@, s@, area, c, t, p, e));
    v
}

// ---------------------------------------------------------------- laws
/// Whether something sets how files are encoded, or starts that.
pub open spec fn is_setting(id: ElemId) -> bool {
    match id {
        ElemId::ModeLocal => true,
        ElemId::ModeRemote => true,
        ElemId::FieldFfmpeg => true,
        ElemId::BrowseFfmpeg => true,
        ElemId::FieldSrc => true,
        ElemId::BrowseSrc => true,
        ElemId::Play => true,
        ElemId::Crop(_) => true,
        ElemId::Codec(_) => true,
        ElemId::Preset(_) => true,
        ElemId::Bitrate(_) => true,
        _ => false,
    }
}

/// Whether something may be clicked: it exists, it is no setting while files are
/// encoded, and it does not stop what was not started.
pub open spec fn may_click(id: ElemId, running: bool) -> bool {
    &&& elem_exists(id)
    &&& running ==> !is_setting(id)
    &&& !running ==> id != ElemId::Stop
}

spec fn fair_item(i: ItemView, running: bool) -> bool {
    spot_of(i) matches Some(s) ==> may_click(s.1, running)
}

#[verifier::opaque]
spec fn fair(v: Seq<ItemView>, running: bool) -> bool {
    forall|i: int| 0 <= i < v.len() ==> fair_item(#[trigger] v[i], running)
}

proof fn lemma_fair_spots(v: Seq<ItemView>, running: bool)
    requires
        fair(v, running),
    ensures
        forall|i: int|
            0 <= i < spots_of(v).len() ==> may_click((#[trigger] spots_of(v)[i]).1, running),
    decreases v.len(),
{
    reveal(fair);
    if v.len() > 0 {
        let rest = v.drop_last();
        assert forall|i: int| 0 <= i < rest.len() implies fair_item(#[trigger] rest[i], running) by {
            assert(rest[i] == v[i]);
        }
        lemma_fair_spots(rest, running);
        assert(v.last() == v[v.len() - 1]);
        assert(fair_item(v[v.len() - 1], running));
        assert forall|i: int| 0 <= i < spots_of(v).len() implies may_click(
            (#[trigger] spots_of(v)[i]).1,
            running,
        ) by {
            if i < spots_of(rest).len() {
                assert(spots_of(v)[i] == spots_of(rest)[i]);
            }
        }
    }
}

proof fn lemma_fair_sum(a: Seq<ItemView>, b: Seq<ItemView>, running: bool)
    requires
        fair(a, running),
        fair(b, running),
    ensures
        fair(a + b, running),
{
    reveal(fair);
    assert forall|i: int| 0 <= i < (a + b).len() implies fair_item(#[trigger] (a + b)[i], running) by {
        if i < a.len() {
            assert((a + b)[i] == a[i]);
        } else {
            assert((a + b)[i] == b[i - a.len()]);
        }
    }
}

proof fn lemma_fair_row(a: AppView, s: SessionView, area: Rect, row: Row)
    ensures
        fair(row_items(a, s, area, row), s.running),
{
    reveal(fair);
    assert(row_labels(row).len() <= 7);
    assert(fair(row_items(a, s, area, row), s.running));
}

proof fn lemma_fair_fields(a: AppView, s: SessionView, top: Seq<Rect>, area: Rect, y: u16)
    ensures
        fair(queue_items(a, s, top, y), s.running),
        fair(mode_items(a, s, area), s.running),
        fair(local_items(a, s, area), s.running),
        fair(remote_items(a, area), s.running),
        fair(folder_items(a, s, area, y), s.running),
        fair(crop_items(a, s, area), s.running),
        fair(status_items(a, area, y), s.running),
{
    reveal(fair);
}

proof fn lemma_fair_config(a: AppView, s: SessionView, area: Rect, v: Seq<ItemView>)
    requires
        is_config(v, a, s, area),
    ensures
        fair(v, s.running),
{
    let run = s.running;
    let (rows, top, cols) = choose|rows: Seq<Rect>, top: Seq<Rect>, cols: Seq<Rect>|
        v == #[trigger] config_items(a, s, area, rows, top, cols);
    let p0 = queue_items(a, s, top, rows[0].y);
    let p1 = mode_items(a, s, top[3]);
    let p2 = if a.mode == Mode::Local {
        local_items(a, s, top[3])
    } else {
        remote_items(a, top[3])
    };
    let p3 = folder_items(a, s, area, rows[1].y);
    let p4 = crop_items(a, s, cols[0]);
    let p5 = row_items(a, s, cols[1], Row::Codecs);
    let p6 = row_items(a, s, cols[2], Row::Encoders);
    let p7 = row_items(a, s, cols[3], Row::Presets);
    let p8 = row_items(a, s, cols[4], Row::Bitrates);
    let p9 = status_items(a, area, rows[3].y);
    lemma_fair_fields(a, s, top, top[3], rows[0].y);
    lemma_fair_fields(a, s, top, area, rows[1].y);
    lemma_fair_fields(a, s, top, cols[0], rows[0].y);
    lemma_fair_fields(a, s, top, area, rows[3].y);
    lemma_fair_row(a, s, cols[1], Row::Codecs);
    lemma_fair_row(a, s, cols[2], Row::Encoders);
    lemma_fair_row(a, s, cols[3], Row::Presets);
    lemma_fair_row(a, s, cols[4], Row::Bitrates);
    lemma_fair_sum(p0, p1, run);
    lemma_fair_sum(p0 + p1, p2, run);
    lemma_fair_sum(p0 + p1 + p2, p3, run);
    lemma_fair_sum(p0 + p1 + p2 + p3, p4, run);
    lemma_fair_sum(p0 + p1 + p2 + p3 + p4, p5, run);
    lemma_fair_sum(p0 + p1 + p2 + p3 + p4 + p5, p6, run);
    lemma_fair_sum(p0 + p1 + p2 + p3 + p4 + p5 + p6, p7, run);
    lemma_fair_sum(p0 + p1 + p2 + p3 + p4 + p5 + p6 + p7, p8, run);
    lemma_fair_sum(p0 + p1 + p2 + p3 + p4 + p5 + p6 + p7 + p8, p9, run);
}

proof fn lemma_fair_list(a: AppView, ex: ExplorerView, list: Rect, start: int, n: int, run: bool)
    ensures
        fair(list_items(a, ex, list, start, n), run),
    decreases n,
{
    reveal(fair);
    if n > 0 {
        lemma_fair_list(a, ex, list, start, n - 1, run);
        lemma_fair_sum(
            list_items(a, ex, list, start, n - 1),
            entry_items(a, ex, list, start + n - 1, n - 1),
            run,
        );
    }
}

proof fn lemma_fair_explorer(a: AppView, area: Rect, v: Seq<ItemView>, run: bool)
    requires
        is_explorer(v, a, area),
    ensures
        fair(v, run),
{
    match a.explorer {
        Some(ex) => {
            let parts = choose|parts: Seq<Rect>| v == #[trigger] explorer_items(a, ex, area, parts);
            let list = parts[1];
            let start = smaller(ex.scroll, ex.entries.len() as int);
            let shown = smaller(above_zero(list.height - 1), ex.entries.len() - start);
            let mid = list_items(a, ex, list, start, shown);
            let all = explorer_items(a, ex, area, parts);
            lemma_fair_list(a, ex, list, start, shown, run);
            reveal(fair);
            assert forall|i: int| 0 <= i < all.len() implies fair_item(#[trigger] all[i], run) by {
                if 3 <= i < 3 + mid.len() {
                    assert(all[i] == mid[i - 3]);
                }
            }
        },
        None => {
            reveal(fair);
        },
    }
}

proof fn lemma_fair_slot(a: AppView, s: SlotView, area: Rect, v: Seq<ItemView>, run: bool)
    requires
        is_slot(v, a, s, area),
    ensures
        fair(v, run),
{
    let (rows, cols, halves) = choose|rows: Seq<Rect>, cols: Seq<Rect>, halves: Seq<Rect>|
        v == #[trigger] slot_items(a, s, area, rows, cols, halves);
    let p0 = file_items(s, area, rows[0].y);
    let p1 = output_items(s, area, rows[1].y);
    let p2 = command_items(a, s, rows[2]);
    let p3 = video_items(cols[0], "VIDEO · SOURCE"@, s.streams, Tone::Video);
    let p4 = video_items(cols[1], "VIDEO · TARGET"@, s.target, Tone::Amber);
    let p5 = audio_items(cols[2], "AUDIO · SOURCE"@, s.streams, Tone::Audio);
    let p6 = audio_items(cols[3], "AUDIO · TARGET"@, s.target, Tone::Amber);
    let p7 = progress_items(s, rows[4], halves[0], halves[1]);
    let p8 = foot_items(a, s, rows[5]);
    assert(fair(p0, run) && fair(p1, run) && fair(p2, run) && fair(p3, run) && fair(p4, run) && fair(
        p5,
        run,
    ) && fair(p6, run) && fair(p7, run) && fair(p8, run)) by {
        reveal(fair);
    }
    lemma_fair_sum(p0, p1, run);
    lemma_fair_sum(p0 + p1, p2, run);
    lemma_fair_sum(p0 + p1 + p2, p3, run);
    lemma_fair_sum(p0 + p1 + p2 + p3, p4, run);
    lemma_fair_sum(p0 + p1 + p2 + p3 + p4, p5, run);
    lemma_fair_sum(p0 + p1 + p2 + p3 + p4 + p5, p6, run);
    lemma_fair_sum(p0 + p1 + p2 + p3 + p4 + p5 + p6, p7, run);
    lemma_fair_sum(p0 + p1 + p2 + p3 + p4 + p5 + p6 + p7, p8, run);
}

proof fn lemma_fair_tabs(a: AppView, s: SessionView, area: Rect, v: Seq<ItemView>, run: bool)
    requires
        is_tabs(v, a, s, area),
    ensures
        fair(v, run),
{
    reveal(fair);
}

proof fn lemma_fair_edges(a: AppView, s: SessionView, area: Rect, run: bool)
    ensures
        fair(close_items(a, area), run),
        fair(confirm_items(a, s, area), run),
        fair(closing_items(a, s, area), run),
{
    reveal(fair);
}

proof fn lemma_fair_parts(
    a: AppView,
    s: SessionView,
    area: Rect,
    config: Seq<ItemView>,
    tabs: Seq<ItemView>,
    slot: Seq<ItemView>,
    ex: Seq<ItemView>,
)
    requires
        fair(config, s.running),
        fair(tabs, s.running),
        fair(slot, s.running),
        fair(ex, s.running),
    ensures
        fair(screen_of(a, s, area, config, tabs, slot, ex), s.running),
{
    let run = s.running;
    let body = inner_of(area);
    let close = close_items(a, area);
    let confirm = confirm_items(a, s, body);
    let closing = closing_items(a, s, body);
    lemma_fair_edges(a, s, area, run);
    lemma_fair_edges(a, s, body, run);
    lemma_fair_sum(close, config, run);
    lemma_fair_sum(close + config, tabs, run);
    lemma_fair_sum(close + config + tabs, slot, run);
    lemma_fair_sum(close + config + tabs + slot, ex, run);
    lemma_fair_sum(close + config + tabs + slot + ex, confirm, run);
    lemma_fair_sum(close + config + tabs + slot + ex + confirm, closing, run);
}

/// All that can be clicked on a screen exists. While files are encoded, no
/// setting can be clicked; while none is, there is nothing to stop.
pub proof fn only_what_may_be_clicked_is_offered(
    v: Seq<ItemView>,
    a: AppView,
    s: SessionView,
    area: Rect,
)
    requires
        is_screen(v, a, s, area),
    ensures
        forall|i: int|
            0 <= i < spots_of(v).len() ==> may_click((#[trigger] spots_of(v)[i]).1, s.running),
        all_exist(spots_of(v)),
{
    let run = s.running;
    let body = inner_of(area);
    if !is_too_small(area) {
        let (rows, config, tabs, slot, ex) = choose|
            rows: Seq<Rect>,
            config: Seq<ItemView>,
            tabs: Seq<ItemView>,
            slot: Seq<ItemView>,
            ex: Seq<ItemView>,
        |
            {
                &&& #[trigger] is_split(false, body, screen_rows(), rows)
                &&& is_config(config, a, s, rows[0])
                &&& is_tabs(tabs, a, s, rows[1])
                &&& is_slot(slot, a, s.slots[a.selected_tab], rows[2])
                &&& is_explorer(ex, a, body)
                &&& v == #[trigger] screen_of(a, s, area, config, tabs, slot, ex)
            };
        lemma_fair_config(a, s, rows[0], config);
        lemma_fair_tabs(a, s, rows[1], tabs, run);
        lemma_fair_slot(a, s.slots[a.selected_tab], rows[2], slot, run);
        lemma_fair_explorer(a, body, ex, run);
        lemma_fair_parts(a, s, area, config, tabs, slot, ex);
    } else {
        assert(fair(v, run)) by {
            reveal(fair);
        }
    }
    lemma_fair_spots(v, run);
}

/// There is a tab for each slot, with its number and its state; the one that is shown
/// looks chosen.
pub proof fn tabs_show_their_slots(a: AppView, s: SessionView, cols: Seq<Rect>, i: int)
    requires
        0 <= i < 4,
    ensures
        tab_items(a, s, cols).len() == 4,
        tab_items(a, s, cols)[i] matches ItemView::Tab { area, id, name, state, look } && area
            == cols[i] && id == ElemId::Tab(i as usize) && name == "encode"@ + dec(i + 1) && state
            == s.slots[i].state && (look == Look::Active <==> a.selected_tab == i) && look
            != Look::Disabled,
{
}

/// A key stands at the right end of its column, with a colon behind it, and a value that
/// is missing shows as a dash.
pub proof fn keys_are_aligned(
    area: Rect,
    line: u16,
    key: Seq<char>,
    val: Seq<char>,
    width: int,
    tone: Tone,
)
    requires
        key.len() <= width,
    ensures
        kv_item(area, line as int, key, val, width, tone) matches ItemView::Pair {
            area: r,
            line: l,
            key: k,
            value,
            tone: t,
        } && r == area && l == line && t == tone && k.len() == width + 2 && k.skip(
            width - key.len(),
        ) == key + ": "@ && (forall|i: int| 0 <= i < width - key.len() ==> #[trigger] k[i] == ' ')
            && (val.len() > 0 ==> value == val) && (val.len() == 0 ==> value == "—"@),
{
    reveal_strlit(": ");
    let k = key_text(key, width);
    assert(k.skip(width - key.len()) =~= key + ": "@);
}

/// Whether an item shows a value under a key on a line.
pub open spec fn shows_value(i: ItemView, line: int, key: Seq<char>, val: Seq<char>) -> bool {
    match i {
        ItemView::Pair { line: l, key: k, value, .. } => {
            &&& l == line
            &&& exists|n: int| 0 <= n <= k.len() && k.skip(n) == key + ": "@
            &&& val.len() > 0 ==> value == val
            &&& val.len() == 0 ==> value == "—"@
        },
        _ => false,
    }
}

proof fn lemma_value_is_shown(
    area: Rect,
    line: u16,
    key: Seq<char>,
    val: Seq<char>,
    width: int,
    tone: Tone,
)
    ensures
        shows_value(kv_item(area, line as int, key, val, width, tone), line as int, key, val),
{
    let k = key_text(key, width);
    let n = spaces(width - key.len()).len() as int;
    assert(k.skip(n) =~= key + ": "@);
    assert(0 <= n <= k.len());
    match kv_item(area, line as int, key, val, width, tone) {
        ItemView::Pair { line: l, key: t, value, .. } => {
            assert(l == line);
            assert(t.skip(n) == key + ": "@);
        },
        _ => {},
    }
}

/// What is known of the streams of a file is shown, each under its name.
pub proof fn streams_are_shown(area: Rect, title: Seq<char>, m: SummaryView, rate: Tone)
    ensures
        ({
            let v = video_items(area, title, m, rate);
            &&& v.len() == 7
            &&& v[0] == (ItemView::Group { area, title })
            &&& shows_value(v[1], 0, "Codec"@, m.v_codec)
            &&& shows_value(v[2], 1, "Res"@, m.v_res)
            &&& shows_value(v[3], 2, "FPS"@, m.v_fps)
            &&& shows_value(v[4], 3, "Bits"@, m.v_bits)
            &&& shows_value(v[5], 4, "Bitrate"@, m.v_bitrate)
            &&& shows_value(v[6], 5, "Dur"@, m.dur_str)
        }),
        ({
            let u = audio_items(area, title, m, rate);
            &&& u.len() == 5
            &&& u[0] == (ItemView::Group { area, title })
            &&& shows_value(u[1], 0, "Codec"@, m.a_codec)
            &&& shows_value(u[2], 1, "Channels"@, m.a_layout)
            &&& shows_value(u[3], 2, "Sample"@, m.a_rate)
            &&& shows_value(u[4], 3, "Bitrate"@, m.a_bitrate)
        }),
{
    let r = inner_of(area);
    lemma_value_is_shown(r, 0, "Codec"@, m.v_codec, 7, Tone::Video);
    lemma_value_is_shown(r, 1, "Res"@, m.v_res, 7, Tone::Video);
    lemma_value_is_shown(r, 2, "FPS"@, m.v_fps, 7, Tone::Video);
    lemma_value_is_shown(r, 3, "Bits"@, m.v_bits, 7, Tone::Video);
    lemma_value_is_shown(r, 4, "Bitrate"@, m.v_bitrate, 7, rate);
    lemma_value_is_shown(r, 5, "Dur"@, m.dur_str, 7, Tone::Amber);
    lemma_value_is_shown(r, 0, "Codec"@, m.a_codec, 7, Tone::Audio);
    lemma_value_is_shown(r, 1, "Channels"@, m.a_layout, 7, Tone::Audio);
    lemma_value_is_shown(r, 2, "Sample"@, m.a_rate, 7, Tone::Audio);
    lemma_value_is_shown(r, 3, "Bitrate"@, m.a_bitrate, 7, rate);
}

/// How a file goes is shown, each number under its name, with a bar that is as full as
/// the file is far.
pub proof fn progress_is_shown(s: SlotView, area: Rect, left: Rect, right: Rect)
    requires
        s.progress is Some,
    ensures
        ({
            let p = s.progress->Some_0;
            let v = progress_items(s, area, left, right);
            let passed = if p.time.len() == 0 {
                "—"@
            } else {
                p.time
            };
            &&& v.len() == 10
            &&& v[0] == (ItemView::Group { area, title: "PROGRESS"@ })
            &&& shows_value(v[1], 0, "Frame"@, p.frame)
            &&& shows_value(v[2], 1, "FPS"@, p.fps)
            &&& shows_value(v[3], 2, "Q"@, p.q)
            &&& shows_value(v[4], 3, "Size"@, p.size)
            &&& shows_value(v[5], 0, "Time"@, passed + " / "@ + s.streams.dur_str)
            &&& shows_value(v[6], 1, "Bitrate"@, p.bitrate)
            &&& shows_value(v[7], 2, "Speed"@, p.speed)
            &&& shows_value(
                v[8],
                3,
                "ETA"@,
                eta_of(s.streams.duration, p.time_sec, p.speed_val),
            )
            &&& v[9] matches ItemView::Gauge { done, label, .. } && done == share_of(
                p.time_sec,
                s.streams.duration,
            ) && label == percent_text(done)
        }),
{
    let p = progress_in(s);
    lemma_value_is_shown(left, 0, "Frame"@, p.frame, 9, Tone::Val);
    lemma_value_is_shown(left, 1, "FPS"@, p.fps, 9, Tone::Val);
    lemma_value_is_shown(left, 2, "Q"@, p.q, 9, Tone::Val);
    lemma_value_is_shown(left, 3, "Size"@, p.size, 9, Tone::Val);
    lemma_value_is_shown(
        right,
        0,
        "Time"@,
        elapsed_text(p, s.streams.dur_str),
        9,
        Tone::Val,
    );
    lemma_value_is_shown(right, 1, "Bitrate"@, p.bitrate, 9, Tone::Val);
    lemma_value_is_shown(right, 2, "Speed"@, p.speed, 9, Tone::Amber);
    lemma_value_is_shown(
        right,
        3,
        "ETA"@,
        eta_of(s.streams.duration, p.time_sec, p.speed_val),
        9,
        Tone::Eta,
    );
}

/// The buttons for the keys send their own characters.
pub proof fn key_buttons_send_their_keys(a: AppView, area: Rect, i: int)
    requires
        0 <= i < 3,
    ensures
        key_items(a, area).len() == 4,
        key_items(a, area)[0] matches ItemView::Entry { id, look, .. } && id == ElemId::KeyZone && (
        look == Look::Active <==> a.focus == Focus::KeyZone),
        key_items(a, area)[i + 1] matches ItemView::Button { id, label, look, .. } && label == seq![
            if i == 0 {
                'q'
            } else if i == 1 {
                '+'
            } else {
                '-'
            },
        ] && (id matches ElemId::KeyBtn(b) && b as int == label[0] as int) && look
            != Look::Disabled,
{
    reveal_strlit("q");
    reveal_strlit("+");
    reveal_strlit("-");
    assert("q"@ =~= seq!['q']);
    assert("+"@ =~= seq!['+']);
    assert("-"@ =~= seq!['-']);
}

/// A slot shows its file and its state, or that it is idle, and what it writes.
pub proof fn slot_shows_its_file(s: SlotView, area: Rect, y: u16)
    ensures
        file_items(s, area, y).len() == 1,
        file_items(s, area, y)[0] matches ItemView::File { name, note, note_tone, .. } && (s.name.len()
            > 0 ==> name == s.name) && (s.name.len() == 0 ==> name == "idle"@ && note == ""@) && (
        s.name.len() > 0 && s.state != SlotState::Idle ==> note == "  "@ + s.state.spec_label())
            && (s.state == SlotState::Idle ==> note == ""@) && note_tone == Tone::State(s.state),
        s.name.len() > 0 && s.info.len() > 0 ==> output_items(s, area, y).len() == 1 && (
        output_items(s, area, y)[0] matches ItemView::Label { text, .. } && text == "Output: "@
            + s.info),
        s.name.len() == 0 || s.info.len() == 0 ==> output_items(s, area, y).len() == 0,
{
}

/// A slot shows its command from the line on that was scrolled to, and nothing where it
/// has none.
pub proof fn slot_shows_its_command(a: AppView, s: SlotView, area: Rect)
    requires
        0 <= a.cmd_scroll <= u16::MAX,
    ensures
        command_items(a, s, area)[0] == (ItemView::Group { area, title: "Command"@ }),
        s.cmdline.len() == 0 ==> command_items(a, s, area).len() == 1,
        s.cmdline.len() > 0 ==> command_items(a, s, area).len() == 2 && (command_items(a, s, area)[1]
            matches ItemView::Wrapped { area: r, text, scroll } && r == inner_of(area) && text
            == s.cmdline && scroll == a.cmd_scroll),
{
}

/// Keys are offered while ffmpeg runs; where it failed, the end of what it wrote is
/// shown, up to 1500 characters.
pub proof fn slot_ends_in_keys_or_problems(a: AppView, s: SlotView, area: Rect)
    ensures
        s.state == SlotState::Running ==> foot_items(a, s, area) == key_items(a, area),
        s.state is Fail && s.output.len() > 0 ==> foot_items(a, s, area).len() == 1 && (foot_items(
            a,
            s,
            area,
        )[0] matches ItemView::Problem { text, .. } && (s.output.len() <= 1500 ==> text == s.output)
            && (s.output.len() > 1500 ==> text.len() == 1500 && text == s.output.skip(
            s.output.len() - 1500,
        ))),
        s.state is Fail && s.output.len() == 0 ==> foot_items(a, s, area).len() == 0,
        s.state == SlotState::Idle ==> foot_items(a, s, area).len() == 0,
{
}

/// An entry of the explorer has a mark where a folder is picked: a cross unless the entry
/// is left out. A folder has a picture.
pub proof fn entries_show_what_is_left_out(a: AppView, ex: ExplorerView, list: Rect, i: int, line: int)
    requires
        0 <= i < ex.entries.len(),
        i <= usize::MAX,
    ensures
        ({
            let e = ex.entries[i];
            let path = joined(a.platform, ex.cwd, e.0);
            let left_out = if e.1 {
                is_dir_excluded(a, path)
            } else {
                is_file_excluded(a, path)
            };
            let v = entry_items(a, ex, list, i, line);
            &&& v[0] matches ItemView::Entry { id, text, look, .. } && id == ElemId::ExRow(
                i as usize,
            ) && (look == Look::Active <==> ex.selected == i) && (ex.kind == ExKind::Dir && e.1
                && left_out ==> text == "  ["@ + " "@ + "] 📁 "@ + e.0) && (ex.kind == ExKind::Dir
                && e.1 && !left_out ==> text == "  ["@ + "x"@ + "] 📁 "@ + e.0) && (ex.kind
                == ExKind::Dir && !e.1 && left_out ==> text == "  ["@ + " "@ + "] "@ + e.0) && (
            ex.kind == ExKind::Dir && !e.1 && !left_out ==> text == "  ["@ + "x"@ + "] "@ + e.0) && (
            ex.kind == ExKind::File && e.1 ==> text == "  📁 "@ + e.0) && (ex.kind == ExKind::File
                && !e.1 ==> text == "     "@ + e.0)
            &&& ex.kind == ExKind::Dir ==> v.len() == 2 && (v[1] matches ItemView::Spot { id, .. }
                && id == ElemId::ExCheck(i as usize))
            &&& ex.kind == ExKind::File ==> v.len() == 1
        }),
{
}

/// The explorer takes three quarters of the area, and fifty by fourteen cells at least
/// where there is room.
pub proof fn explorer_takes_three_quarters(area: Rect)
    requires
        area.x + area.width <= u16::MAX,
        area.y + area.height <= u16::MAX,
    ensures
        area.width >= 67 ==> 4 * explorer_frame(area).width <= 3 * area.width < 4 * (explorer_frame(
            area,
        ).width + 1),
        50 <= area.width < 67 ==> explorer_frame(area).width == 50,
        area.width < 50 ==> explorer_frame(area).width == area.width,
        area.height >= 19 ==> 4 * explorer_frame(area).height <= 3 * area.height < 4 * (
        explorer_frame(area).height + 1),
        14 <= area.height < 19 ==> explorer_frame(area).height == 14,
        area.height < 14 ==> explorer_frame(area).height == area.height,
{
}

/// The explorer shows its folder, a way up, the entries from the one on that was scrolled
/// to, as far as there are lines, and two buttons.
pub proof fn explorer_shows_its_folder(a: AppView, ex: ExplorerView, area: Rect, parts: Seq<Rect>)
    requires
        0 <= ex.scroll <= ex.entries.len(),
    ensures
        ({
            let v = explorer_items(a, ex, area, parts);
            let lines = if parts[1].height == 0 {
                0
            } else {
                parts[1].height - 1
            };
            let rest = ex.entries.len() - ex.scroll;
            let n = if lines < rest {
                lines
            } else {
                rest
            };
            &&& v.len() == 5 + list_items(a, ex, parts[1], ex.scroll, n).len()
            &&& v.subrange(3, v.len() - 2) == list_items(a, ex, parts[1], ex.scroll, n)
            &&& v[0] matches ItemView::Dialog { area: m, title, .. } && m == explorer_frame(area)
                && title == (if ex.kind == ExKind::File {
                " Pick ffmpeg "@
            } else {
                " Pick source folder "@
            })
            &&& v[1] matches ItemView::Label { text, .. } && text == " "@ + ex.cwd
            &&& v[2] matches ItemView::Entry { id, text, .. } && id == ElemId::ExUp && text
                == "  📁 .."@
            &&& v[v.len() - 2] matches ItemView::Button { id, label, look, .. } && id
                == ElemId::ExOpen && label == (if ex.kind == ExKind::File {
                "[ Choose file ]"@
            } else {
                "[ Use this folder ]"@
            }) && look != Look::Disabled
            &&& v[v.len() - 1] matches ItemView::Button { id, label, look, .. } && id
                == ElemId::ExCancel && label == "[ Cancel ]"@ && look != Look::Disabled
        }),
        list_items(a, ex, parts[1], ex.scroll, 0).len() == 0,
        list_items(a, ex, parts[1], ex.scroll, 1) == entry_items(a, ex, parts[1], ex.scroll, 0),
{
    let v = explorer_items(a, ex, area, parts);
    let n = smaller(above_zero(parts[1].height - 1), ex.entries.len() - ex.scroll);
    assert(v.subrange(3, v.len() - 2) =~= list_items(a, ex, parts[1], ex.scroll, n));
    reveal_with_fuel(list_items, 2);
    assert(list_items(a, ex, parts[1], ex.scroll, 1) =~= entry_items(
        a,
        ex,
        parts[1],
        ex.scroll,
        0,
    ));
}

/// The entries of the explorer stand on lines of their own, one below the other.
pub proof fn entries_stand_on_their_lines(a: AppView, ex: ExplorerView, list: Rect, start: int, n: int)
    requires
        n > 0,
    ensures
        list_items(a, ex, list, start, n) == list_items(a, ex, list, start, n - 1) + entry_items(
            a,
            ex,
            list,
            start + (n - 1),
            n - 1,
        ),
        list.y + n <= u16::MAX ==> (entry_items(a, ex, list, start + (n - 1), n - 1)[0]
            matches ItemView::Entry { area, .. } && area.y == list.y + n && area.x == list.x
            && area.width == list.width && area.height == 1),
{
}

/// Whoever wants to leave while files are encoded is asked, and told how many there are.
pub proof fn leaving_is_asked_about(a: AppView, s: SessionView, area: Rect)
    ensures
        !a.confirm_exit ==> confirm_items(a, s, area).len() == 0,
        a.confirm_exit ==> ({
            let v = confirm_items(a, s, area);
            &&& v.len() == 4
            &&& v[0] matches ItemView::Dialog { area: m, title, .. } && m == centered_of(
                area,
                56,
                8,
            ) && title == " Quit? "@
            &&& v[1] matches ItemView::Message { text, .. } && text == "There are "@ + dec(
                count_running(s.slots),
            )
                + " ffmpeg process(es) running. If you quit they'll be closed cleanly (q) — it may take a few seconds."@
            &&& v[2] matches ItemView::Button { id, label, look, .. } && id == ElemId::ConfirmYes
                && label == "[ Yes, quit ]"@ && look != Look::Disabled
            &&& v[3] matches ItemView::Button { id, label, look, .. } && id == ElemId::ConfirmNo
                && label == "[ No, stay ]"@ && look != Look::Disabled
        }),
        !a.closing ==> closing_items(a, s, area).len() == 0,
        a.closing ==> ({
            let v = closing_items(a, s, area);
            &&& v.len() == 2
            &&& v[0] matches ItemView::Dialog { area: m, title, .. } && m == centered_of(
                area,
                50,
                5,
            ) && title == " Closing… "@
            &&& v[1] matches ItemView::Message { text, .. } && text == "Waiting for "@ + dec(
                count_running(s.slots),
            ) + " process(es) to close (q, clean shutdown)…"@
        }),
{
}

/// The button that closes the client stands in the upper right corner.
pub proof fn close_button_is_in_the_corner(a: AppView, area: Rect)
    requires
        area.x + area.width <= u16::MAX,
    ensures
        area.width < 6 ==> close_items(a, area).len() == 0,
        area.width >= 6 ==> close_items(a, area).len() == 1 && (close_items(a, area)[0]
            matches ItemView::Button { area: r, id, label, look } && id == ElemId::TitleClose
            && label == "[x]"@ && look != Look::Disabled && r.y == area.y && r.x + r.width == area.x
            + area.width - 2 && r.width == 3 && r.height == 1),
{
}

/// The client needs 62 columns and 22 lines; a smaller terminal shows that, and the
/// button that closes the client.
pub proof fn terminal_can_be_too_small(v: Seq<ItemView>, a: AppView, s: SessionView, area: Rect)
    requires
        is_screen(v, a, s, area),
        area.x + area.width <= u16::MAX,
        area.y + area.height <= u16::MAX,
    ensures
        is_too_small(area) <==> area.width < 62 || area.height < 22,
        area.width < 62 || area.height < 22 ==> v.len() == close_items(a, area).len() + 1 && (
        v.last() matches ItemView::Label { text, .. } && text
            == "Enlarge the terminal (min. 62x22)."@),
{
}

/// A slot has six rows: its file, what it writes, the command, the streams, the progress,
/// and what is left.
pub proof fn slot_has_its_rows(area: Rect, rows: Seq<Rect>)
    requires
        is_split(false, area, slot_rows(), rows),
        area.y + area.height <= u16::MAX,
        area.height >= 23,
    ensures
        rows.len() == 6,
        rows[0].y == area.y && rows[0].height == 1,
        rows[1].y == area.y + 1 && rows[1].height == 1,
        rows[2].y == area.y + 2 && rows[2].height == 4,
        rows[3].y == area.y + 6 && rows[3].height == 8,
        rows[4].y == area.y + 14 && rows[4].height == 8,
        rows[5].y == area.y + 22 && rows[5].height == area.height - 22,
{
    let p = slot_rows();
    let slack = area.height - 23;
    lemma_sizes_add_up(p, 0, 0);
    lemma_sizes_add_up(p, 0, 1);
    lemma_sizes_add_up(p, 0, 2);
    lemma_sizes_add_up(p, 0, 3);
    lemma_sizes_add_up(p, 0, 4);
    lemma_sizes_add_up(p, 0, 5);
    lemma_sizes_add_up(p, slack, 0);
    lemma_sizes_add_up(p, slack, 1);
    lemma_sizes_add_up(p, slack, 2);
    lemma_sizes_add_up(p, slack, 3);
    lemma_sizes_add_up(p, slack, 4);
    assert(p[5] is Min);
    assert(one_grows(p));
    assert(along_size(false, area) == area.height);
    assert(along_start(false, rows[0]) == area.y && along_start(false, rows[1]) == area.y + 1
        && along_start(false, rows[2]) == area.y + 2 && along_start(false, rows[3]) == area.y + 6
        && along_start(false, rows[4]) == area.y + 14 && along_start(false, rows[5]) == area.y
        + 22);
    assert(along_size(false, rows[0]) == 1 && along_size(false, rows[1]) == 1 && along_size(
        false,
        rows[2],
    ) == 4 && along_size(false, rows[3]) == 8 && along_size(false, rows[4]) == 8 && along_size(
        false,
        rows[5],
    ) == 1 + slack);
}

/// The screen has twelve lines of settings, three of tabs, and the slot below; the
/// explorer has a line for its folder, its list, and a line of buttons.
pub proof fn screen_has_its_rows(area: Rect, rows: Seq<Rect>, frame: Rect, parts: Seq<Rect>)
    requires
        is_split(false, area, screen_rows(), rows),
        area.y + area.height <= u16::MAX,
        area.height >= 16,
        is_split(false, frame, explorer_rows(), parts),
        frame.y + frame.height <= u16::MAX,
        frame.height >= 5,
    ensures
        rows.len() == 3,
        rows[0].y == area.y && rows[0].height == 12,
        rows[1].y == area.y + 12 && rows[1].height == 3,
        rows[2].y == area.y + 15 && rows[2].height == area.height - 15,
        parts.len() == 3,
        parts[0].y == frame.y && parts[0].height == 1,
        parts[1].y == frame.y + 1 && parts[1].height == frame.height - 2,
        parts[2].y == frame.y + frame.height - 1 && parts[2].height == 1,
{
    let p = screen_rows();
    let slack = area.height - 16;
    lemma_sizes_add_up(p, 0, 0);
    lemma_sizes_add_up(p, 0, 1);
    lemma_sizes_add_up(p, 0, 2);
    lemma_sizes_add_up(p, slack, 0);
    lemma_sizes_add_up(p, slack, 1);
    assert(p[2] is Min);
    assert(one_grows(p));
    assert(along_size(false, area) == area.height);
    assert(along_start(false, rows[0]) == area.y && along_start(false, rows[1]) == area.y + 12
        && along_start(false, rows[2]) == area.y + 15);
    assert(along_size(false, rows[0]) == 12 && along_size(false, rows[1]) == 3 && along_size(
        false,
        rows[2],
    ) == 1 + slack);
    part_that_grows_takes_the_rest(false, frame, 1, 3, 1, parts);
}

/// The streams share their row in quarters, the numbers of the progress in halves, and
/// above the bar a line is left free.
pub proof fn rows_are_shared_evenly(frame: Rect)
    requires
        frame.x + frame.width <= u16::MAX,
        frame.y + frame.height <= u16::MAX,
        frame.width >= 2,
        frame.height >= 4,
    ensures
        quarters().len() == 4,
        two_halves().len() == 2,
        equal_shares(quarters()),
        equal_shares(two_halves()),
        numbers_area(frame).x == frame.x + 1,
        numbers_area(frame).y == frame.y + 1,
        numbers_area(frame).width == frame.width - 2,
        numbers_area(frame).height == frame.height - 4,
{
}

/// A slot shows its file, the command, the streams of the source and of the output, the
/// progress, and keys or problems, in this order.
pub proof fn slot_shows_source_and_output(
    a: AppView,
    s: SlotView,
    area: Rect,
    rows: Seq<Rect>,
    cols: Seq<Rect>,
    halves: Seq<Rect>,
)
    ensures
        ({
            let v = slot_items(a, s, area, rows, cols, halves);
            let j = 1 + output_items(s, area, rows[1].y).len() as int;
            let k = j + command_items(a, s, rows[2]).len() as int;
            &&& v.take(1) == file_items(s, area, rows[0].y)
            &&& v.subrange(1, j) == output_items(s, area, rows[1].y)
            &&& v.subrange(j, k) == command_items(a, s, rows[2])
            &&& v.subrange(k, k + 7) == video_items(
                cols[0],
                "VIDEO · SOURCE"@,
                s.streams,
                Tone::Video,
            )
            &&& v.subrange(k + 7, k + 14) == video_items(
                cols[1],
                "VIDEO · TARGET"@,
                s.target,
                Tone::Amber,
            )
            &&& v.subrange(k + 14, k + 19) == audio_items(
                cols[2],
                "AUDIO · SOURCE"@,
                s.streams,
                Tone::Audio,
            )
            &&& v.subrange(k + 19, k + 24) == audio_items(
                cols[3],
                "AUDIO · TARGET"@,
                s.target,
                Tone::Amber,
            )
            &&& v.subrange(k + 24, k + 34) == progress_items(s, rows[4], halves[0], halves[1])
            &&& v.skip(k + 34) == foot_items(a, s, rows[5])
        }),
{
    let v = slot_items(a, s, area, rows, cols, halves);
    let j = 1 + output_items(s, area, rows[1].y).len() as int;
    let k = j + command_items(a, s, rows[2]).len() as int;
    let vs = video_items(cols[0], "VIDEO · SOURCE"@, s.streams, Tone::Video);
    let vt = video_items(cols[1], "VIDEO · TARGET"@, s.target, Tone::Amber);
    let us = audio_items(cols[2], "AUDIO · SOURCE"@, s.streams, Tone::Audio);
    let ut = audio_items(cols[3], "AUDIO · TARGET"@, s.target, Tone::Amber);
    assert(v.take(1) =~= file_items(s, area, rows[0].y));
    assert(v.subrange(1, j) =~= output_items(s, area, rows[1].y));
    assert(v.subrange(j, k) =~= command_items(a, s, rows[2]));
    assert(v.subrange(k, k + 7) =~= vs);
    assert(v.subrange(k + 7, k + 14) =~= vt);
    assert(v.subrange(k + 14, k + 19) =~= us);
    assert(v.subrange(k + 19, k + 24) =~= ut);
    assert(v.subrange(k + 24, k + 34) =~= progress_items(s, rows[4], halves[0], halves[1]));
    assert(v.skip(k + 34) =~= foot_items(a, s, rows[5]));
}

/// The slot that is shown is the one whose tab is chosen, and what lies above other
/// things is painted after them: the explorer above the slot, and the dialogs above all.
pub proof fn dialogs_lie_above_all(
    a: AppView,
    s: SessionView,
    area: Rect,
    config: Seq<ItemView>,
    tabs: Seq<ItemView>,
    slot: Seq<ItemView>,
    ex: Seq<ItemView>,
)
    ensures
        ({
            let v = screen_of(a, s, area, config, tabs, slot, ex);
            let body = inner_of(area);
            let n = v.len() as int;
            let c = closing_items(a, s, body).len() as int;
            let q = confirm_items(a, s, body).len() as int;
            let e = ex.len() as int;
            &&& v.skip(n - c) == closing_items(a, s, body)
            &&& v.subrange(n - c - q, n - c) == confirm_items(a, s, body)
            &&& v.subrange(n - c - q - e, n - c - q) == ex
            &&& v.subrange(n - c - q - e - slot.len(), n - c - q - e) == slot
            &&& n == close_items(a, area).len() + config.len() + tabs.len() + slot.len() + e + q + c
        }),
        forall|v: Seq<ItemView>|
            !is_too_small(area) && is_screen(v, a, s, area) ==> exists|
                rows: Seq<Rect>,
                i: int,
                j: int,
            |
                #[trigger] is_split(false, inner_of(area), screen_rows(), rows) && #[trigger] is_slot(
                    v.subrange(i, j),
                    a,
                    s.slots[a.selected_tab],
                    rows[2],
                ),
{
    let v = screen_of(a, s, area, config, tabs, slot, ex);
    lemma_screen_parts(a, s, area, config, tabs, slot, ex);
    assert forall|w: Seq<ItemView>|
        !is_too_small(area) && is_screen(w, a, s, area) implies exists|
        rows: Seq<Rect>,
        i: int,
        j: int,
    |
        #[trigger] is_split(false, inner_of(area), screen_rows(), rows) && #[trigger] is_slot(
            w.subrange(i, j),
            a,
            s.slots[a.selected_tab],
            rows[2],
        ) by {
        let (rows, c, t, l, x) = choose|
            rows: Seq<Rect>,
            c: Seq<ItemView>,
            t: Seq<ItemView>,
            l: Seq<ItemView>,
            x: Seq<ItemView>,
        |
            {
                &&& #[trigger] is_split(false, inner_of(area), screen_rows(), rows)
                &&& is_config(c, a, s, rows[0])
                &&& is_tabs(t, a, s, rows[1])
                &&& is_slot(l, a, s.slots[a.selected_tab], rows[2])
                &&& is_explorer(x, a, inner_of(area))
                &&& w == #[trigger] screen_of(a, s, area, c, t, l, x)
            };
        lemma_screen_parts(a, s, area, c, t, l, x);
        let i = close_items(a, area).len() + c.len() + t.len() as int;
        assert(w.subrange(i, i + l.len() as int) == l);
        assert(is_slot(w.subrange(i, i + l.len() as int), a, s.slots[a.selected_tab], rows[2]));
    }
}

proof fn lemma_screen_parts(
    a: AppView,
    s: SessionView,
    area: Rect,
    config: Seq<ItemView>,
    tabs: Seq<ItemView>,
    slot: Seq<ItemView>,
    ex: Seq<ItemView>,
)
    ensures
        ({
            let v = screen_of(a, s, area, config, tabs, slot, ex);
            let body = inner_of(area);
            let n = v.len() as int;
            let c = closing_items(a, s, body).len() as int;
            let q = confirm_items(a, s, body).len() as int;
            let e = ex.len() as int;
            let i = close_items(a, area).len() + config.len() + tabs.len() as int;
            &&& n == i + slot.len() + e + q + c
            &&& v.skip(n - c) == closing_items(a, s, body)
            &&& v.subrange(n - c - q, n - c) == confirm_items(a, s, body)
            &&& v.subrange(n - c - q - e, n - c - q) == ex
            &&& v.subrange(i, i + slot.len() as int) == slot
        }),
{
    let v = screen_of(a, s, area, config, tabs, slot, ex);
    let body = inner_of(area);
    let n = v.len() as int;
    let c = closing_items(a, s, body).len() as int;
    let q = confirm_items(a, s, body).len() as int;
    let e = ex.len() as int;
    let i = close_items(a, area).len() + config.len() + tabs.len() as int;
    assert(v.skip(n - c) =~= closing_items(a, s, body));
    assert(v.subrange(n - c - q, n - c) =~= confirm_items(a, s, body));
    assert(v.subrange(n - c - q - e, n - c - q) =~= ex);
    assert(v.subrange(i, i + slot.len() as int) =~= slot);
}

} // verus!
