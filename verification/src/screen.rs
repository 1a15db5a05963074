//! The settings on the terminal client's screen.
use vstd::prelude::*;
use vstd::string::*;
use crate::app::{App, AppView, ElemId, Focus, Mode, Rect};
use crate::encoder::CropMode;
use crate::number::{dec, print_u64};
use crate::session::{Session, SessionView};
use crate::slot::SLOTS;
use crate::start::files_left;
use crate::text::{chars_of, texts};
use crate::ui::{
    above_zero, along_size, along_start, big_digits, chip_width, chips,
    choices_stand_one_after_the_other, cw, digits_row, field_item, field_shows, inner, inner_of,
    is_hover, is_split, items_of, larger, lemma_sizes_add_up, look, look_of, nothing, one_grows,
    paint, paint_chips, rect_at, rect_of, row_id, smaller, split, text_field, Item, ItemView, Look,
    Part, Row, Tone,
};

verus! {

// ---------------------------------------------------------------- the settings
/// The large buttons, and how much is left to do.
pub open spec fn queue_items(
    a: AppView,
    s: SessionView,
    top: Seq<Rect>,
    y: u16,
) -> Seq<ItemView> {
    let q = inner_of(top[5]);
    let n = dec(files_left(a, s));
    seq![
        ItemView::BoxButton {
            area: rect_of(top[0].x as int, y as int, 9, 5),
            id: ElemId::Play,
            label: "▶"@,
            tone: Tone::Good,
            look: look_of(!s.running, false, a.hover == Some(ElemId::Play)),
        },
        ItemView::BoxButton {
            area: rect_of(top[1].x as int, y as int, 9, 5),
            id: ElemId::Stop,
            label: "■"@,
            tone: Tone::Fail,
            look: look_of(s.running, false, a.hover == Some(ElemId::Stop)),
        },
        ItemView::Group { area: top[5], title: "QUEUE"@ },
        ItemView::Digits {
            area: rect_of(q.x as int, q.y as int, above_zero(q.width - 1), q.height as int),
            top: digits_row(n, 0),
            mid: digits_row(n, 1),
            low: digits_row(n, 2),
        },
    ]
}

/// The choice between encoding here and at a daemon.
pub open spec fn mode_items(a: AppView, s: SessionView, area: Rect) -> Seq<ItemView> {
    let m = inner_of(area);
    let lw = chip_width("Local"@);
    let rw = chip_width("Remote"@);
    let x = m.x + 1;
    seq![
        ItemView::Group { area, title: "MODE"@ },
        ItemView::Chip {
            area: rect_of(x, m.y as int, lw, 1),
            id: ElemId::ModeLocal,
            label: "Local"@,
            look: look_of(
                !s.running,
                a.mode == Mode::Local,
                a.hover == Some(ElemId::ModeLocal),
            ),
        },
        ItemView::Chip {
            area: rect_of(x + lw + 1, m.y as int, rw, 1),
            id: ElemId::ModeRemote,
            label: "Remote"@,
            look: look_of(
                !s.running,
                a.mode == Mode::Daemon,
                a.hover == Some(ElemId::ModeRemote),
            ),
        },
    ] + if a.mode == Mode::Daemon {
        if a.connected {
            seq![
                ItemView::Label {
                    area: rect_of(x + lw + 1 + rw + 2, m.y as int, 14, 1),
                    text: "● connected"@,
                    tone: Tone::Good,
                },
            ]
        } else {
            seq![
                ItemView::Label {
                    area: rect_of(x + lw + 1 + rw + 2, m.y as int, 16, 1),
                    text: "○ not connected"@,
                    tone: Tone::Dim,
                },
            ]
        }
    } else {
        seq![]
    }
}

/// The field for ffmpeg.
pub open spec fn local_items(a: AppView, s: SessionView, area: Rect) -> Seq<ItemView> {
    let m = inner_of(area);
    let right = m.x + m.width;
    let x = m.x + 1;
    let y = m.y + 1;
    let fw = above_zero(right - (x + 8 + 5 + 2));
    seq![
        ItemView::Label { area: rect_of(x, y, 8, 1), text: "ffmpeg:"@, tone: Tone::Label },
        field_item(
            rect_of(x + 8, y, fw, 1),
            ElemId::FieldFfmpeg,
            a.ffmpeg,
            a.focus == Focus::Ffmpeg,
            a.edit_cursor,
            a.hover == Some(ElemId::FieldFfmpeg),
            !s.running,
        ),
        ItemView::Button {
            area: rect_of(x + 8 + fw + 1, y, 5, 1),
            id: ElemId::BrowseFfmpeg,
            label: "[…]"@,
            look: look_of(!s.running, false, a.hover == Some(ElemId::BrowseFfmpeg)),
        },
    ]
}

/// The fields for the daemon.
pub open spec fn remote_items(a: AppView, area: Rect) -> Seq<ItemView> {
    let m = inner_of(area);
    let right = m.x + m.width;
    let x = m.x + 1;
    let y = m.y + 1;
    let half = larger(above_zero(right - (x + 8 + 8 + 14 + 4)) / 2, 8);
    seq![
        ItemView::Label { area: rect_of(x, y, 8, 1), text: "server:"@, tone: Tone::Label },
        field_item(
            rect_of(x + 8, y, half, 1),
            ElemId::FieldServer,
            a.daemon_addr,
            a.focus == Focus::Server,
            a.edit_cursor,
            a.hover == Some(ElemId::FieldServer),
            !a.connected,
        ),
        ItemView::Label {
            area: rect_of(x + 8 + half + 1, y, 8, 1),
            text: "token:"@,
            tone: Tone::Label,
        },
        field_item(
            rect_of(x + 8 + half + 1 + 8, y, half, 1),
            ElemId::FieldToken,
            a.token,
            a.focus == Focus::Token,
            a.edit_cursor,
            a.hover == Some(ElemId::FieldToken),
            !a.connected,
        ),
        ItemView::Button {
            area: rect_of(x + 8 + half + 1 + 8 + half + 1, y, 14, 1),
            id: ElemId::ConnectBtn,
            label: if a.connected {
                "Disconnect"@
            } else {
                "Connect"@
            },
            look: look_of(true, false, a.hover == Some(ElemId::ConnectBtn)),
        },
    ]
}

/// The row for the source folder.
pub open spec fn folder_items(a: AppView, s: SessionView, area: Rect, y: u16) -> Seq<ItemView> {
    let x = area.x + 1;
    let fw = above_zero(smaller(area.x + area.width, 65535) - (x + 9 + 5 + 2));
    seq![
        ItemView::Label { area: rect_of(x, y as int, 9, 1), text: "Folder:"@, tone: Tone::Label },
        field_item(
            rect_of(x + 9, y as int, fw, 1),
            ElemId::FieldSrc,
            a.src_dir,
            a.focus == Focus::Src,
            a.edit_cursor,
            a.hover == Some(ElemId::FieldSrc),
            !s.running,
        ),
        ItemView::Button {
            area: rect_of(x + 9 + fw + 1, y as int, 5, 1),
            id: ElemId::BrowseSrc,
            label: "[…]"@,
            look: look_of(!s.running, false, a.hover == Some(ElemId::BrowseSrc)),
        },
    ]
}

/// The picture of a crop at a position.
pub open spec fn glyph_item(
    a: AppView,
    s: SessionView,
    area: Rect,
    i: int,
    mode: CropMode,
    id: ElemId,
) -> ItemView {
    let r = inner_of(area);
    ItemView::Glyph {
        area: rect_of(
            r.x + i * (r.width as int / 3),
            r.y as int,
            r.width as int / 3,
            smaller(r.height as int, 3),
        ),
        id,
        mode,
        look: look_of(!s.running, a.crop == mode, a.hover == Some(id)),
        selected: a.crop == mode,
    }
}

/// The choice of the crop.
pub open spec fn crop_items(a: AppView, s: SessionView, area: Rect) -> Seq<ItemView> {
    seq![
        ItemView::Group { area, title: "CROP"@ },
        glyph_item(a, s, area, 0, CropMode::Centered, ElemId::Crop(1)),
        glyph_item(a, s, area, 1, CropMode::OneThird, ElemId::Crop(2)),
        glyph_item(a, s, area, 2, CropMode::NoCrop, ElemId::Crop(3)),
    ]
}

/// The labels of a row of choices.
pub open spec fn row_labels(row: Row) -> Seq<Seq<char>> {
    match row {
        Row::Codecs => seq!["H264"@, "H265"@, "AV1"@],
        Row::Encoders => seq!["1"@, "2"@, "3"@, "4"@],
        Row::Presets => seq!["p1"@, "p2"@, "p3"@, "p4"@, "p5"@, "p6"@, "p7"@],
        Row::Bitrates => seq!["10k/8k"@, "8k/6k"@, "6k/4k"@, "4k/2k"@],
    }
}

/// The title of a row of choices.
pub open spec fn row_title(row: Row) -> Seq<char> {
    match row {
        Row::Codecs => "CODEC"@,
        Row::Encoders => "ENCODERS"@,
        Row::Presets => "PRESET"@,
        Row::Bitrates => "BITRATE"@,
    }
}

/// The position that is chosen in a row.
pub open spec fn row_choice(a: AppView, row: Row) -> int {
    match row {
        Row::Codecs => a.codec_idx,
        Row::Encoders => a.parallel - 1,
        Row::Presets => a.preset_idx,
        Row::Bitrates => a.bitrate_idx,
    }
}

/// A row of choices in its frame. How many are encoded at once can be chosen at
/// any time; the rest only while nothing is being encoded.
pub open spec fn row_items(a: AppView, s: SessionView, area: Rect, row: Row) -> Seq<ItemView> {
    let r = inner_of(area);
    seq![ItemView::Group { area, title: row_title(row) }] + chips(
        row,
        row_labels(row),
        r.x as int,
        r.y + r.height as int / 2,
        if row == Row::Codecs || row == Row::Encoders {
            1
        } else {
            0
        },
        row_choice(a, row),
        a.hover,
        row == Row::Encoders || !s.running,
    )
}

/// What went wrong, if anything did.
pub open spec fn status_items(a: AppView, area: Rect, y: u16) -> Seq<ItemView> {
    if a.status_msg.len() > 0 {
        seq![
            ItemView::Label {
                area: rect_of(area.x + 1, y as int, above_zero(area.width - 2), 1),
                text: a.status_msg,
                tone: Tone::Fail,
            },
        ]
    } else {
        seq![]
    }
}

/// All of the settings. `rows`, `top` and `cols` are how the area is shared: the
/// rows, the parts of the first row, and the parts of the third.
pub open spec fn config_items(
    a: AppView,
    s: SessionView,
    area: Rect,
    rows: Seq<Rect>,
    top: Seq<Rect>,
    cols: Seq<Rect>,
) -> Seq<ItemView> {
    queue_items(a, s, top, rows[0].y) + mode_items(a, s, top[3]) + (if a.mode == Mode::Local {
        local_items(a, s, top[3])
    } else {
        remote_items(a, top[3])
    }) + folder_items(a, s, area, rows[1].y) + crop_items(a, s, cols[0]) + row_items(
        a,
        s,
        cols[1],
        Row::Codecs,
    ) + row_items(a, s, cols[2], Row::Encoders) + row_items(a, s, cols[3], Row::Presets)
        + row_items(a, s, cols[4], Row::Bitrates) + status_items(a, area, rows[3].y)
}

fn paint_queue(v: &mut Vec<Item>, app: &App, s: &Session, top: &Vec<Rect>, y: u16)
    requires
        s.wf(),
        s@.queue.len() + SLOTS <= usize::MAX,
        top@.len() == 6,
    ensures
        items_of(final(v)@) == items_of(old(v)@) + queue_items(app@, s@, top@, y),
{
    let ghost before = items_of(v@);
    let run = s.is_running();
    paint(
        v,
        Item::BoxButton {
            area: rect_at(top[0].x as i32, y as i32, 9, 5),
            id: ElemId::Play,
            label: "▶".to_string(),
            tone: Tone::Good,
            look: look(!run, false, is_hover(app.hover, ElemId::Play)),
        },
    );
    paint(
        v,
        Item::BoxButton {
            area: rect_at(top[1].x as i32, y as i32, 9, 5),
            id: ElemId::Stop,
            label: "■".to_string(),
            tone: Tone::Fail,
            look: look(run, false, is_hover(app.hover, ElemId::Stop)),
        },
    );
    paint(v, Item::Group { area: top[5], title: "QUEUE".to_string() });
    let q = inner(top[5]);
    let n = app.queue_len(s);
    let d = big_digits(print_u64(n as u64).as_str());
    let w: i32 = if q.width >= 1 {
        q.width as i32 - 1
    } else {
        0
    };
    paint(
        v,
        Item::Digits {
            area: rect_at(q.x as i32, q.y as i32, w, q.height as i32),
            top: d[0].clone(),
            mid: d[1].clone(),
            low: d[2].clone(),
        },
    );
    assert(items_of(v@) =~= before + queue_items(app@, s@, top@, y));
}

fn paint_mode(v: &mut Vec<Item>, app: &App, s: &Session, area: Rect)
    ensures
        items_of(final(v)@) == items_of(old(v)@) + mode_items(app@, s@, area),
{
    let ghost before = items_of(v@);
    proof {
        reveal_strlit("Local");
        reveal_strlit("Remote");
        assert("Local"@.len() == 5 && "Remote"@.len() == 6);
    }
    let run = s.is_running();
    let m = inner(area);
    let x: i32 = m.x as i32 + 1;
    let y: i32 = m.y as i32;
    let lw: i32 = cw("Local") as i32;
    let rw: i32 = cw("Remote") as i32;
    paint(v, Item::Group { area, title: "MODE".to_string() });
    paint(
        v,
        Item::Chip {
            area: rect_at(x, y, lw, 1),
            id: ElemId::ModeLocal,
            label: "Local".to_string(),
            look: look(!run, app.mode == Mode::Local, is_hover(app.hover, ElemId::ModeLocal)),
        },
    );
    paint(
        v,
        Item::Chip {
            area: rect_at(x + lw + 1, y, rw, 1),
            id: ElemId::ModeRemote,
            label: "Remote".to_string(),
            look: look(!run, app.mode == Mode::Daemon, is_hover(app.hover, ElemId::ModeRemote)),
        },
    );
    if app.mode == Mode::Daemon {
        if app.connected {
            paint(
                v,
                Item::Label {
                    area: rect_at(x + lw + 1 + rw + 2, y, 14, 1),
                    text: "● connected".to_string(),
                    tone: Tone::Good,
                },
            );
        } else {
            paint(
                v,
                Item::Label {
                    area: rect_at(x + lw + 1 + rw + 2, y, 16, 1),
                    text: "○ not connected".to_string(),
                    tone: Tone::Dim,
                },
            );
        }
    }
    assert(items_of(v@) =~= before + mode_items(app@, s@, area));
}

fn paint_local(v: &mut Vec<Item>, app: &App, s: &Session, area: Rect)
    ensures
        items_of(final(v)@) == items_of(old(v)@) + local_items(app@, s@, area),
{
    let ghost before = items_of(v@);
    let run = s.is_running();
    let m = inner(area);
    let right: i32 = m.x as i32 + m.width as i32;
    let x: i32 = m.x as i32 + 1;
    let y: i32 = m.y as i32 + 1;
    let room: i32 = right - (x + 8 + 5 + 2);
    let fw: i32 = if room < 0 {
        0
    } else {
        room
    };
    paint(
        v,
        Item::Label {
            area: rect_at(x, y, 8, 1),
            text: "ffmpeg:".to_string(),
            tone: Tone::Label,
        },
    );
    paint(
        v,
        text_field(
            rect_at(x + 8, y, fw, 1),
            ElemId::FieldFfmpeg,
            app.ffmpeg.as_str(),
            app.focus == Focus::Ffmpeg,
            app.edit_cursor,
            is_hover(app.hover, ElemId::FieldFfmpeg),
            !run,
        ),
    );
    paint(
        v,
        Item::Button {
            area: rect_at(x + 8 + fw + 1, y, 5, 1),
            id: ElemId::BrowseFfmpeg,
            label: "[…]".to_string(),
            look: look(!run, false, is_hover(app.hover, ElemId::BrowseFfmpeg)),
        },
    );
    assert(items_of(v@) =~= before + local_items(app@, s@, area));
}

fn paint_remote(v: &mut Vec<Item>, app: &App, area: Rect)
    ensures
        items_of(final(v)@) == items_of(old(v)@) + remote_items(app@, area),
{
    let ghost before = items_of(v@);
    let m = inner(area);
    let right: i32 = m.x as i32 + m.width as i32;
    let x: i32 = m.x as i32 + 1;
    let y: i32 = m.y as i32 + 1;
    let room: i32 = right - (x + 8 + 8 + 14 + 4);
    let part: i32 = if room < 0 {
        0
    } else {
        room / 2
    };
    let half: i32 = if part < 8 {
        8
    } else {
        part
    };
    paint(
        v,
        Item::Label {
            area: rect_at(x, y, 8, 1),
            text: "server:".to_string(),
            tone: Tone::Label,
        },
    );
    paint(
        v,
        text_field(
            rect_at(x + 8, y, half, 1),
            ElemId::FieldServer,
            app.daemon_addr.as_str(),
            app.focus == Focus::Server,
            app.edit_cursor,
            is_hover(app.hover, ElemId::FieldServer),
            !app.connected,
        ),
    );
    paint(
        v,
        Item::Label {
            area: rect_at(x + 8 + half + 1, y, 8, 1),
            text: "token:".to_string(),
            tone: Tone::Label,
        },
    );
    paint(
        v,
        text_field(
            rect_at(x + 8 + half + 1 + 8, y, half, 1),
            ElemId::FieldToken,
            app.token.as_str(),
            app.focus == Focus::Token,
            app.edit_cursor,
            is_hover(app.hover, ElemId::FieldToken),
            !app.connected,
        ),
    );
    paint(
        v,
        Item::Button {
            area: rect_at(x + 8 + half + 1 + 8 + half + 1, y, 14, 1),
            id: ElemId::ConnectBtn,
            label: if app.connected {
                "Disconnect".to_string()
            } else {
                "Connect".to_string()
            },
            look: look(true, false, is_hover(app.hover, ElemId::ConnectBtn)),
        },
    );
    assert(items_of(v@) =~= before + remote_items(app@, area));
}

fn paint_folder(v: &mut Vec<Item>, app: &App, s: &Session, area: Rect, y: u16)
    ensures
        items_of(final(v)@) == items_of(old(v)@) + folder_items(app@, s@, area, y),
{
    let ghost before = items_of(v@);
    let run = s.is_running();
    let x: i32 = area.x as i32 + 1;
    let y0: i32 = y as i32;
    let edge: i32 = area.x as i32 + area.width as i32;
    let right: i32 = if edge < 65535 {
        edge
    } else {
        65535
    };
    let room: i32 = right - (x + 9 + 5 + 2);
    let fw: i32 = if room < 0 {
        0
    } else {
        room
    };
    paint(
        v,
        Item::Label {
            area: rect_at(x, y0, 9, 1),
            text: "Folder:".to_string(),
            tone: Tone::Label,
        },
    );
    paint(
        v,
        text_field(
            rect_at(x + 9, y0, fw, 1),
            ElemId::FieldSrc,
            app.src_dir.as_str(),
            app.focus == Focus::Src,
            app.edit_cursor,
            is_hover(app.hover, ElemId::FieldSrc),
            !run,
        ),
    );
    paint(
        v,
        Item::Button {
            area: rect_at(x + 9 + fw + 1, y0, 5, 1),
            id: ElemId::BrowseSrc,
            label: "[…]".to_string(),
            look: look(!run, false, is_hover(app.hover, ElemId::BrowseSrc)),
        },
    );
    assert(items_of(v@) =~= before + folder_items(app@, s@, area, y));
}

fn glyph(app: &App, s: &Session, area: Rect, i: u8, mode: CropMode, id: ElemId) -> (r: Item)
    requires
        i < 3,
    ensures
        r@ == glyph_item(app@, s@, area, i as int, mode, id),
{
    let r = inner(area);
    let w: i32 = (r.width / 3) as i32;
    let shift: i32 = match i {
        0 => 0,
        1 => w,
        _ => 2 * w,
    };
    proof {
        let (k, third, by) = (i as int, w as int, shift as int);
        assert(by == k * third) by (nonlinear_arith)
            requires
                (k == 0 && by == 0) || (k == 1 && by == third) || (k == 2 && by == 2 * third),
        ;
    }
    let h: i32 = if r.height < 3 {
        r.height as i32
    } else {
        3
    };
    Item::Glyph {
        area: rect_at(r.x as i32 + shift, r.y as i32, w, h),
        id,
        mode,
        look: look(!s.is_running(), app.crop == mode, is_hover(app.hover, id)),
        selected: app.crop == mode,
    }
}

fn paint_crop(v: &mut Vec<Item>, app: &App, s: &Session, area: Rect)
    ensures
        items_of(final(v)@) == items_of(old(v)@) + crop_items(app@, s@, area),
{
    let ghost before = items_of(v@);
    paint(v, Item::Group { area, title: "CROP".to_string() });
    paint(v, glyph(app, s, area, 0, CropMode::Centered, ElemId::Crop(1)));
    paint(v, glyph(app, s, area, 1, CropMode::OneThird, ElemId::Crop(2)));
    paint(v, glyph(app, s, area, 2, CropMode::NoCrop, ElemId::Crop(3)));
    assert(items_of(v@) =~= before + crop_items(app@, s@, area));
}

fn labels_of(row: Row) -> (r: Vec<String>)
    ensures
        texts(r@) == row_labels(row),
        r@.len() < 10,
        forall|i: int| 0 <= i < r@.len() ==> (#[trigger] r@[i])@.len() < 100,
{
    match row {
        Row::Codecs => {
            let r = vec!["H264".to_string(), "H265".to_string(), "AV1".to_string()];
            proof {
                reveal_strlit("H264");
                reveal_strlit("H265");
                reveal_strlit("AV1");
                assert("H264"@.len() == 4 && "H265"@.len() == 4 && "AV1"@.len() == 3);
            }
            assert(texts(r@) =~= row_labels(row));
            r
        },
        Row::Encoders => {
            let r = vec!["1".to_string(), "2".to_string(), "3".to_string(), "4".to_string()];
            proof {
                reveal_strlit("1");
                reveal_strlit("2");
                reveal_strlit("3");
                reveal_strlit("4");
                assert("1"@.len() == 1 && "2"@.len() == 1 && "3"@.len() == 1 && "4"@.len() == 1);
            }
            assert(texts(r@) =~= row_labels(row));
            r
        },
        Row::Presets => {
            let r = vec![
                "p1".to_string(),
                "p2".to_string(),
                "p3".to_string(),
                "p4".to_string(),
                "p5".to_string(),
                "p6".to_string(),
                "p7".to_string(),
            ];
            proof {
                reveal_strlit("p1");
                reveal_strlit("p2");
                reveal_strlit("p3");
                reveal_strlit("p4");
                reveal_strlit("p5");
                reveal_strlit("p6");
                reveal_strlit("p7");
                assert("p1"@.len() == 2 && "p2"@.len() == 2 && "p3"@.len() == 2 && "p4"@.len() == 2);
                assert("p5"@.len() == 2 && "p6"@.len() == 2 && "p7"@.len() == 2);
            }
            assert(texts(r@) =~= row_labels(row));
            r
        },
        Row::Bitrates => {
            let r = vec![
                "10k/8k".to_string(),
                "8k/6k".to_string(),
                "6k/4k".to_string(),
                "4k/2k".to_string(),
            ];
            proof {
                reveal_strlit("10k/8k");
                reveal_strlit("8k/6k");
                reveal_strlit("6k/4k");
                reveal_strlit("4k/2k");
                assert("10k/8k"@.len() == 6 && "8k/6k"@.len() == 5);
                assert("6k/4k"@.len() == 5 && "4k/2k"@.len() == 5);
            }
            assert(texts(r@) =~= row_labels(row));
            r
        },
    }
}

fn paint_row(v: &mut Vec<Item>, app: &App, s: &Session, area: Rect, row: Row)
    requires
        app.wf(),
    ensures
        items_of(final(v)@) == items_of(old(v)@) + row_items(app@, s@, area, row),
{
    let ghost before = items_of(v@);
    let r = inner(area);
    let title = match row {
        Row::Codecs => "CODEC",
        Row::Encoders => "ENCODERS",
        Row::Presets => "PRESET",
        Row::Bitrates => "BITRATE",
    };
    paint(v, Item::Group { area, title: title.to_string() });
    let chosen: usize = match row {
        Row::Codecs => app.codec_idx,
        Row::Encoders => app.parallel - 1,
        Row::Presets => app.preset_idx,
        Row::Bitrates => app.bitrate_idx,
    };
    let gap: u8 = if row == Row::Codecs || row == Row::Encoders {
        1
    } else {
        0
    };
    let labels = labels_of(row);
    paint_chips(
        v,
        row,
        &labels,
        r.x,
        r.y as i32 + (r.height / 2) as i32,
        gap,
        chosen,
        app.hover,
        row == Row::Encoders || !s.is_running(),
    );
    assert(items_of(v@) =~= before + row_items(app@, s@, area, row));
}

fn paint_status(v: &mut Vec<Item>, app: &App, area: Rect, y: u16)
    ensures
        items_of(final(v)@) == items_of(old(v)@) + status_items(app@, area, y),
{
    let ghost before = items_of(v@);
    if chars_of(app.status_msg.as_str()).len() > 0 {
        let w: i32 = if area.width >= 2 {
            area.width as i32 - 2
        } else {
            0
        };
        paint(
            v,
            Item::Label {
                area: rect_at(area.x as i32 + 1, y as i32, w, 1),
                text: app.status_msg.clone(),
                tone: Tone::Fail,
            },
        );
    }
    assert(items_of(v@) =~= before + status_items(app@, area, y));
}

/// Lays all of the settings out in an area that is shared in a given way.
pub fn lay_out_config(
    app: &App,
    s: &Session,
    area: Rect,
    rows: &Vec<Rect>,
    top: &Vec<Rect>,
    cols: &Vec<Rect>,
) -> (r: Vec<Item>)
    requires
        s.wf(),
        s@.queue.len() + SLOTS <= usize::MAX,
        app.wf(),
        rows@.len() == 4,
        top@.len() == 6,
        cols@.len() == 5,
    ensures
        items_of(r@) == config_items(app@, s@, area, rows@, top@, cols@),
{
    let mut v = nothing();
    paint_queue(&mut v, app, s, top, rows[0].y);
    paint_mode(&mut v, app, s, top[3]);
    if app.mode == Mode::Local {
        paint_local(&mut v, app, s, top[3]);
    } else {
        paint_remote(&mut v, app, top[3]);
    }
    paint_folder(&mut v, app, s, area, rows[1].y);
    paint_crop(&mut v, app, s, cols[0]);
    paint_row(&mut v, app, s, cols[1], Row::Codecs);
    paint_row(&mut v, app, s, cols[2], Row::Encoders);
    paint_row(&mut v, app, s, cols[3], Row::Presets);
    paint_row(&mut v, app, s, cols[4], Row::Bitrates);
    paint_status(&mut v, app, area, rows[3].y);
    assert(items_of(v@) =~= config_items(app@, s@, area, rows@, top@, cols@));
    v
}

/// The rows of the settings.
pub open spec fn config_rows() -> Seq<Part> {
    seq![Part::Length(5), Part::Length(1), Part::Length(5), Part::Min(0)]
}

/// The parts of the first row of the settings.
pub open spec fn config_top() -> Seq<Part> {
    seq![
        Part::Length(10),
        Part::Length(10),
        Part::Length(1),
        Part::Min(40),
        Part::Length(1),
        Part::Length(18),
    ]
}

/// The parts of the third row of the settings.
pub open spec fn config_cols() -> Seq<Part> {
    seq![
        Part::Min(24),
        Part::Length(27),
        Part::Length(25),
        Part::Length(44),
        Part::Length(39),
    ]
}

/// Whether items are the settings in an area, split in some way.
pub open spec fn is_config(v: Seq<ItemView>, a: AppView, s: SessionView, area: Rect) -> bool {
    exists|rows: Seq<Rect>, top: Seq<Rect>, cols: Seq<Rect>|
        {
            &&& is_split(false, area, config_rows(), rows)
            &&& is_split(true, rows[0], config_top(), top)
            &&& is_split(true, rows[2], config_cols(), cols)
            &&& v == #[trigger] config_items(a, s, area, rows, top, cols)
        }
}

/// Lays all of the settings out in an area.
pub fn draw_config(app: &App, s: &Session, area: Rect) -> (r: Vec<Item>)
    requires
        s.wf(),
        s@.queue.len() + SLOTS <= usize::MAX,
        app.wf(),
    ensures
        is_config(items_of(r@), app@, s@, area),
{
    let in_rows = vec![Part::Length(5), Part::Length(1), Part::Length(5), Part::Min(0)];
    assert(in_rows@ =~= config_rows());
    let rows = split(false, area, &in_rows);
    let in_top = vec![
        Part::Length(10),
        Part::Length(10),
        Part::Length(1),
        Part::Min(40),
        Part::Length(1),
        Part::Length(18),
    ];
    assert(in_top@ =~= config_top());
    let top = split(true, rows[0], &in_top);
    let in_cols = vec![
        Part::Min(24),
        Part::Length(27),
        Part::Length(25),
        Part::Length(44),
        Part::Length(39),
    ];
    assert(in_cols@ =~= config_cols());
    let cols = split(true, rows[2], &in_cols);
    let r = lay_out_config(app, s, area, &rows, &top, &cols);
    assert(items_of(r@) == config_items(app@, s@, area, rows@, top@, cols@));
    r
}

// ---------------------------------------------------------------- laws
/// Files can be started while none is being encoded, and stopped while some are. The
/// large number tells how many are left.
pub proof fn queue_can_be_started_and_stopped(
    a: AppView,
    s: SessionView,
    top: Seq<Rect>,
    y: u16,
)
    ensures
        queue_items(a, s, top, y).len() == 4,
        queue_items(a, s, top, y)[0] matches ItemView::BoxButton { id, label, tone, look, .. } && id
            == ElemId::Play && label == "▶"@ && tone == Tone::Good && (look == Look::Disabled
            <==> s.running),
        queue_items(a, s, top, y)[1] matches ItemView::BoxButton { id, label, tone, look, .. } && id
            == ElemId::Stop && label == "■"@ && tone == Tone::Fail && (look == Look::Disabled
            <==> !s.running),
        queue_items(a, s, top, y)[2] == (ItemView::Group { area: top[5], title: "QUEUE"@ }),
        queue_items(a, s, top, y)[3] matches ItemView::Digits { top: t, mid, low, .. } && t
            == digits_row(dec(files_left(a, s)), 0) && mid == digits_row(dec(files_left(a, s)), 1)
            && low == digits_row(dec(files_left(a, s)), 2),
{
}

/// The mode that is set looks chosen, and can be changed while nothing is encoded. Where
/// a daemon encodes, it is told whether there is a connection.
pub proof fn mode_is_shown(a: AppView, s: SessionView, area: Rect)
    ensures
        mode_items(a, s, area)[0] == (ItemView::Group { area, title: "MODE"@ }),
        mode_items(a, s, area)[1] matches ItemView::Chip { id, label, look, .. } && id
            == ElemId::ModeLocal && label == "Local"@ && (look == Look::Disabled <==> s.running)
            && (look == Look::Active <==> !s.running && a.mode == Mode::Local),
        mode_items(a, s, area)[2] matches ItemView::Chip { id, label, look, .. } && id
            == ElemId::ModeRemote && label == "Remote"@ && (look == Look::Disabled <==> s.running)
            && (look == Look::Active <==> !s.running && a.mode == Mode::Daemon),
        a.mode == Mode::Local ==> mode_items(a, s, area).len() == 3,
        a.mode == Mode::Daemon ==> mode_items(a, s, area).len() == 4 && (mode_items(a, s, area)[3]
            matches ItemView::Label { text, tone, .. } && text == (if a.connected {
            "● connected"@
        } else {
            "○ not connected"@
        }) && tone == (if a.connected {
            Tone::Good
        } else {
            Tone::Dim
        })),
{
}

/// The fields show their settings. Those of a local client and the source folder can be
/// changed while nothing is encoded, those of a daemon while there is no connection.
pub proof fn fields_show_their_settings(a: AppView, s: SessionView, area: Rect, y: u16)
    ensures
        local_items(a, s, area)[0] matches ItemView::Label { text, .. } && text == "ffmpeg:"@,
        local_items(a, s, area)[1] matches ItemView::Field { area: r, id, text, look, cursor } && id
            == ElemId::FieldFfmpeg && text == field_shows(a.ffmpeg, a.edit_cursor, r) && (look
            == Look::Disabled <==> s.running) && (cursor is Some <==> a.focus == Focus::Ffmpeg),
        local_items(a, s, area)[2] matches ItemView::Button { id, label, look, .. } && id
            == ElemId::BrowseFfmpeg && label == "[…]"@ && (look == Look::Disabled <==> s.running),
        remote_items(a, area)[0] matches ItemView::Label { text, .. } && text == "server:"@,
        remote_items(a, area)[1] matches ItemView::Field { area: r, id, text, look, cursor } && id
            == ElemId::FieldServer && text == field_shows(a.daemon_addr, a.edit_cursor, r) && (look
            == Look::Disabled <==> a.connected) && (cursor is Some <==> a.focus == Focus::Server),
        remote_items(a, area)[2] matches ItemView::Label { text, .. } && text == "token:"@,
        remote_items(a, area)[3] matches ItemView::Field { area: r, id, text, look, cursor } && id
            == ElemId::FieldToken && text == field_shows(a.token, a.edit_cursor, r) && (look
            == Look::Disabled <==> a.connected) && (cursor is Some <==> a.focus == Focus::Token),
        remote_items(a, area)[4] matches ItemView::Button { id, label, look, .. } && id
            == ElemId::ConnectBtn && label == (if a.connected {
            "Disconnect"@
        } else {
            "Connect"@
        }) && look != Look::Disabled,
        folder_items(a, s, area, y)[0] matches ItemView::Label { text, .. } && text == "Folder:"@,
        folder_items(a, s, area, y)[1] matches ItemView::Field {
            area: r,
            id,
            text,
            look,
            cursor,
        } && id == ElemId::FieldSrc && text == field_shows(a.src_dir, a.edit_cursor, r) && (look
            == Look::Disabled <==> s.running) && (cursor is Some <==> a.focus == Focus::Src),
        folder_items(a, s, area, y)[2] matches ItemView::Button { id, label, look, .. } && id
            == ElemId::BrowseSrc && label == "[…]"@ && (look == Look::Disabled <==> s.running),
{
}

/// The crop that is set looks chosen, and stands third by third beside the others.
pub proof fn crops_are_offered(a: AppView, s: SessionView, area: Rect, i: int)
    requires
        0 <= i <= 2,
    ensures
        crop_items(a, s, area).len() == 4,
        crop_items(a, s, area)[0] == (ItemView::Group { area, title: "CROP"@ }),
        crop_items(a, s, area)[i + 1] matches ItemView::Glyph {
            area: r,
            id,
            mode,
            look,
            selected,
        } && {
            let m = inner_of(area);
            &&& id == ElemId::Crop((i + 1) as u8)
            &&& mode == if i == 0 {
                CropMode::Centered
            } else if i == 1 {
                CropMode::OneThird
            } else {
                CropMode::NoCrop
            }
            &&& selected <==> a.crop == mode
            &&& look == Look::Disabled <==> s.running
            &&& look == Look::Active <==> !s.running && a.crop == mode
            &&& r.width == m.width as int / 3
            &&& m.x + m.width <= u16::MAX ==> r.x == m.x + i * (m.width as int / 3)
            &&& r.y == m.y
            &&& r.height <= 3
        },
{
    let m = inner_of(area);
    assert(0 <= i * (m.width as int / 3) <= m.width) by (nonlinear_arith)
        requires
            0 <= i <= 2,
            m.width >= 0,
    ;
}

/// The rows of choices offer the codecs, how many are encoded at once, the presets and
/// the rates; what is set looks chosen. How many are encoded at once can be changed at any
/// time.
pub proof fn choices_are_offered(a: AppView, s: SessionView, area: Rect, row: Row, i: int)
    requires
        0 <= i < row_labels(row).len(),
    ensures
        row_labels(Row::Codecs) == seq!["H264"@, "H265"@, "AV1"@],
        row_labels(Row::Encoders) == seq!["1"@, "2"@, "3"@, "4"@],
        row_labels(Row::Presets) == seq!["p1"@, "p2"@, "p3"@, "p4"@, "p5"@, "p6"@, "p7"@],
        row_labels(Row::Bitrates) == seq!["10k/8k"@, "8k/6k"@, "6k/4k"@, "4k/2k"@],
        row_title(Row::Codecs) == "CODEC"@,
        row_title(Row::Encoders) == "ENCODERS"@,
        row_title(Row::Presets) == "PRESET"@,
        row_title(Row::Bitrates) == "BITRATE"@,
        row_items(a, s, area, row)[0] == (ItemView::Group { area, title: row_title(row) }),
        row_items(a, s, area, row)[i + 1] matches ItemView::Chip { id, label, look, .. } && label
            == row_labels(row)[i] && id == row_id(row, i) && (look == Look::Disabled <==> s.running
            && row != Row::Encoders) && (look == Look::Active <==> (row == Row::Encoders
            || !s.running) && match row {
            Row::Codecs => a.codec_idx == i,
            Row::Encoders => a.parallel == i + 1,
            Row::Presets => a.preset_idx == i,
            Row::Bitrates => a.bitrate_idx == i,
        }),
{
    let r = inner_of(area);
    choices_stand_one_after_the_other(
        row,
        row_labels(row),
        r.x as int,
        r.y + r.height as int / 2,
        if row == Row::Codecs || row == Row::Encoders {
            1
        } else {
            0
        },
        row_choice(a, row),
        a.hover,
        row == Row::Encoders || !s.running,
        i,
    );
}

/// What went wrong is told, and nothing where nothing did.
pub proof fn problems_are_told(a: AppView, area: Rect, y: u16)
    ensures
        a.status_msg.len() == 0 ==> status_items(a, area, y).len() == 0,
        a.status_msg.len() > 0 ==> status_items(a, area, y).len() == 1 && (status_items(
            a,
            area,
            y,
        )[0] matches ItemView::Label { text, tone, .. } && text == a.status_msg && tone
            == Tone::Fail),
{
}

/// The settings have four rows: five lines, one, five, and what is left.
pub proof fn settings_have_their_rows(area: Rect, rows: Seq<Rect>)
    requires
        is_split(false, area, config_rows(), rows),
        area.y + area.height <= u16::MAX,
        area.height >= 11,
    ensures
        rows.len() == 4,
        rows[0].y == area.y && rows[0].height == 5,
        rows[1].y == area.y + 5 && rows[1].height == 1,
        rows[2].y == area.y + 6 && rows[2].height == 5,
        rows[3].y == area.y + 11 && rows[3].height == area.height - 11,
{
    let p = config_rows();
    let slack = area.height - 11;
    lemma_sizes_add_up(p, 0, 0);
    lemma_sizes_add_up(p, 0, 1);
    lemma_sizes_add_up(p, 0, 2);
    lemma_sizes_add_up(p, 0, 3);
    lemma_sizes_add_up(p, slack, 0);
    lemma_sizes_add_up(p, slack, 1);
    lemma_sizes_add_up(p, slack, 2);
    assert(p[3] is Min);
    assert(one_grows(p));
    assert(along_size(false, area) == area.height);
    assert(along_start(false, rows[0]) == area.y && along_start(false, rows[1]) == area.y + 5
        && along_start(false, rows[2]) == area.y + 6 && along_start(false, rows[3]) == area.y + 11);
    assert(along_size(false, rows[0]) == 5 && along_size(false, rows[1]) == 1 && along_size(
        false,
        rows[2],
    ) == 5 && along_size(false, rows[3]) == slack);
}

/// The first row of the settings has the two buttons, ten columns each, the mode, and the
/// queue, of eighteen columns, at the right end.
pub proof fn first_row_is_shared(area: Rect, top: Seq<Rect>)
    requires
        is_split(true, area, config_top(), top),
        area.x + area.width <= u16::MAX,
        area.width >= 80,
    ensures
        top.len() == 6,
        top[0].x == area.x && top[0].width == 10,
        top[1].x == area.x + 10 && top[1].width == 10,
        top[3].x == area.x + 21 && top[3].width == area.width - 40,
        top[5].x == area.x + area.width - 18 && top[5].width == 18,
{
    let p = config_top();
    let slack = area.width - 80;
    lemma_sizes_add_up(p, 0, 0);
    lemma_sizes_add_up(p, 0, 1);
    lemma_sizes_add_up(p, 0, 2);
    lemma_sizes_add_up(p, 0, 3);
    lemma_sizes_add_up(p, 0, 4);
    lemma_sizes_add_up(p, 0, 5);
    lemma_sizes_add_up(p, slack, 0);
    lemma_sizes_add_up(p, slack, 1);
    lemma_sizes_add_up(p, slack, 2);
    lemma_sizes_add_up(p, slack, 3);
    lemma_sizes_add_up(p, slack, 4);
    assert(p[3] is Min);
    assert(one_grows(p));
    assert(along_size(true, area) == area.width);
    assert(along_start(true, top[0]) == area.x && along_start(true, top[1]) == area.x + 10
        && along_start(true, top[3]) == area.x + 21 && along_start(true, top[5]) == area.x + 62
        + slack);
    assert(along_size(true, top[0]) == 10 && along_size(true, top[1]) == 10 && along_size(
        true,
        top[3],
    ) == 40 + slack && along_size(true, top[5]) == 18);
}

/// The third row of the settings has the crop, which takes what is left, the codec, how
/// many are encoded at once, the preset and the rate.
pub proof fn third_row_is_shared(area: Rect, cols: Seq<Rect>)
    requires
        is_split(true, area, config_cols(), cols),
        area.x + area.width <= u16::MAX,
        area.width >= 159,
    ensures
        cols.len() == 5,
        cols[0].x == area.x && cols[0].width == area.width - 135,
        cols[1].x == cols[0].x + cols[0].width && cols[1].width == 27,
        cols[2].x == cols[1].x + 27 && cols[2].width == 25,
        cols[3].x == cols[2].x + 25 && cols[3].width == 44,
        cols[4].x == cols[3].x + 44 && cols[4].width == 39,
{
    let p = config_cols();
    let slack = area.width - 159;
    lemma_sizes_add_up(p, 0, 0);
    lemma_sizes_add_up(p, 0, 1);
    lemma_sizes_add_up(p, 0, 2);
    lemma_sizes_add_up(p, 0, 3);
    lemma_sizes_add_up(p, 0, 4);
    lemma_sizes_add_up(p, slack, 0);
    lemma_sizes_add_up(p, slack, 1);
    lemma_sizes_add_up(p, slack, 2);
    lemma_sizes_add_up(p, slack, 3);
    assert(p[0] is Min);
    assert(one_grows(p));
    assert(along_size(true, area) == area.width);
    assert(along_start(true, cols[0]) == area.x && along_start(true, cols[1]) == area.x + 24 + slack
        && along_start(true, cols[2]) == area.x + 51 + slack && along_start(true, cols[3]) == area.x
        + 76 + slack && along_start(true, cols[4]) == area.x + 120 + slack);
    assert(along_size(true, cols[0]) == 24 + slack && along_size(true, cols[1]) == 27
        && along_size(true, cols[2]) == 25 && along_size(true, cols[3]) == 44 && along_size(
        true,
        cols[4],
    ) == 39);
}

/// The settings show, one after the other, the queue, the mode with its fields, the
/// source folder, the choices in their columns, and what went wrong.
pub proof fn settings_are_complete(
    a: AppView,
    s: SessionView,
    area: Rect,
    rows: Seq<Rect>,
    top: Seq<Rect>,
    cols: Seq<Rect>,
)
    ensures
        ({
            let v = config_items(a, s, area, rows, top, cols);
            let k = 4 + mode_items(a, s, top[3]).len() as int;
            let m = if a.mode == Mode::Local {
                k + 3
            } else {
                k + 5
            };
            &&& v.take(4) == queue_items(a, s, top, rows[0].y)
            &&& v.subrange(4, k) == mode_items(a, s, top[3])
            &&& a.mode == Mode::Local ==> v.subrange(k, m) == local_items(a, s, top[3])
            &&& a.mode == Mode::Daemon ==> v.subrange(k, m) == remote_items(a, top[3])
            &&& v.subrange(m, m + 3) == folder_items(a, s, area, rows[1].y)
            &&& v.subrange(m + 3, m + 7) == crop_items(a, s, cols[0])
            &&& v.subrange(m + 7, m + 11) == row_items(a, s, cols[1], Row::Codecs)
            &&& v.subrange(m + 11, m + 16) == row_items(a, s, cols[2], Row::Encoders)
            &&& v.subrange(m + 16, m + 24) == row_items(a, s, cols[3], Row::Presets)
            &&& v.subrange(m + 24, m + 29) == row_items(a, s, cols[4], Row::Bitrates)
            &&& v.skip(m + 29) == status_items(a, area, rows[3].y)
        }),
{
    let v = config_items(a, s, area, rows, top, cols);
    let k = 4 + mode_items(a, s, top[3]).len() as int;
    let m = if a.mode == Mode::Local {
        k + 3
    } else {
        k + 5
    };
    assert(v.take(4) =~= queue_items(a, s, top, rows[0].y));
    assert(v.subrange(4, k) =~= mode_items(a, s, top[3]));
    if a.mode == Mode::Local {
        assert(v.subrange(k, m) =~= local_items(a, s, top[3]));
    } else {
        assert(v.subrange(k, m) =~= remote_items(a, top[3]));
    }
    assert(v.subrange(m, m + 3) =~= folder_items(a, s, area, rows[1].y));
    assert(v.subrange(m + 3, m + 7) =~= crop_items(a, s, cols[0]));
    assert(v.subrange(m + 7, m + 11) =~= row_items(a, s, cols[1], Row::Codecs));
    assert(v.subrange(m + 11, m + 16) =~= row_items(a, s, cols[2], Row::Encoders));
    assert(v.subrange(m + 16, m + 24) =~= row_items(a, s, cols[3], Row::Presets));
    assert(v.subrange(m + 24, m + 29) =~= row_items(a, s, cols[4], Row::Bitrates));
    assert(v.skip(m + 29) =~= status_items(a, area, rows[3].y));
}

} // verus!
