//! What the keyboard and the mouse do to the terminal client.
use vstd::prelude::*;
use vstd::string::*;
use crate::app::{
    add_effect, backspaced, blur_effects, blurred, choose_step, clicked, confirmed_step, deleted,
    effects_of, elem_exists, enter_step, field_text, focus_effects, focused_on, is_field, is_step,
    is_text_field, key_effects, next_focus, no_effects, only_app, quit_step, toggle_effects,
    typed_into, up_step, App, AppView, Effect, ElemId, Focus, Key, Mode, Rect, Step,
};
use crate::ui::smaller;
use crate::explorer::{scrolled_by_one, selected_down, selected_up, ExKind, ExplorerView};
use crate::session::{count_running, Session, SessionView};

verus! {

// ---------------------------------------------------------------- keys
/// What a key does while the explorer is open.
pub open spec fn explorer_key_step(a: AppView, s: SessionView, ex: ExplorerView, k: Key) -> Step {
    match k {
        Key::Char(c) => if c == ' ' && ex.selected < ex.entries.len() && ex.kind == ExKind::Dir {
            Step { app: a, session: s, effects: toggle_effects(a.platform, ex, ex.selected) }
        } else {
            only_app(a, s)
        },
        Key::Up => only_app(AppView { explorer: Some(selected_up(ex)), ..a }, s),
        Key::Down => only_app(AppView { explorer: Some(selected_down(ex)), ..a }, s),
        Key::Enter => if ex.selected < ex.entries.len() && ex.entries[ex.selected].1 {
            enter_step(a, s, ex, ex.selected)
        } else {
            choose_step(a, s, ex)
        },
        Key::Backspace => up_step(a, s, ex),
        Key::Left => up_step(a, s, ex),
        Key::Esc => only_app(AppView { explorer: None, ..a }, s),
        _ => only_app(a, s),
    }
}

/// What a key does while a text field has the keyboard.
pub open spec fn field_key_step(a: AppView, s: SessionView, k: Key, ctrl: bool) -> Step {
    let len = field_text(a, a.focus).len() as int;
    match k {
        Key::Char(c) => if ctrl {
            only_app(a, s)
        } else {
            only_app(typed_into(a, c), s)
        },
        Key::Backspace => only_app(backspaced(a), s),
        Key::Delete => only_app(deleted(a), s),
        Key::Left => only_app(
            AppView {
                edit_cursor: if a.edit_cursor > 0 {
                    a.edit_cursor - 1
                } else {
                    0
                },
                ..a
            },
            s,
        ),
        Key::Right => only_app(AppView { edit_cursor: smaller(a.edit_cursor + 1, len), ..a }, s),
        Key::Home => only_app(AppView { edit_cursor: 0, ..a }, s),
        Key::End => only_app(AppView { edit_cursor: len, ..a }, s),
        Key::Enter => Step { app: blurred(a), session: s, effects: blur_effects(a) },
        Key::Esc => Step { app: blurred(a), session: s, effects: blur_effects(a) },
        Key::Tab => tab_step(a, s),
        _ => only_app(a, s),
    }
}

/// What the tabulator key does.
pub open spec fn tab_step(a: AppView, s: SessionView) -> Step {
    let f = next_focus(a.mode, a.connected, a.focus);
    Step { app: focused_on(a, f), session: s, effects: focus_effects(a, f) }
}

/// What a key does while no field has the keyboard.
pub open spec fn plain_key_step(a: AppView, s: SessionView, k: Key) -> Step {
    match k {
        Key::Esc => quit_step(a, s),
        Key::Tab => tab_step(a, s),
        Key::Char('1') => only_app(AppView { selected_tab: 0, ..a }, s),
        Key::Char('2') => only_app(AppView { selected_tab: 1, ..a }, s),
        Key::Char('3') => only_app(AppView { selected_tab: 2, ..a }, s),
        Key::Char('4') => only_app(AppView { selected_tab: 3, ..a }, s),
        _ => only_app(a, s),
    }
}

/// Whether a key asks to leave, wherever the keyboard goes.
pub open spec fn is_quit_key(k: Key, ctrl: bool) -> bool {
    ctrl && (k == Key::Char('q') || k == Key::Char('c'))
}

/// Whether a key is one that ffmpeg understands.
pub open spec fn is_ffmpeg_key(k: Key) -> bool {
    k == Key::Char('q') || k == Key::Char('+') || k == Key::Char('-')
}

/// What a key that is pressed does.
pub open spec fn key_step(a: AppView, s: SessionView, k: Key, ctrl: bool) -> Step {
    if is_quit_key(k, ctrl) {
        quit_step(a, s)
    } else if a.explorer is Some {
        explorer_key_step(a, s, a.explorer->Some_0, k)
    } else if a.confirm_exit {
        if k == Key::Char('s') || k == Key::Char('y') || k == Key::Enter {
            confirmed_step(a, s)
        } else if k == Key::Char('n') || k == Key::Esc {
            only_app(AppView { confirm_exit: false, ..a }, s)
        } else {
            only_app(a, s)
        }
    } else if a.closing {
        only_app(a, s)
    } else if a.focus == Focus::KeyZone && is_ffmpeg_key(k) {
        Step {
            app: a,
            session: s,
            effects: key_effects(a, s, a.selected_tab, seq![k->Char_0]),
        }
    } else if a.focus == Focus::KeyZone && k == Key::Esc {
        only_app(blurred(a), s)
    } else if is_field(a.focus) {
        field_key_step(a, s, k, ctrl)
    } else {
        plain_key_step(a, s, k)
    }
}

impl App {
    fn explorer_space(&self, s: &Session) -> (r: Vec<Effect>)
        requires
            self@.explorer is Some,
        ensures
            effects_of(r@) == explorer_key_step(
                self@,
                s@,
                self@.explorer->Some_0,
                Key::Char(' '),
            ).effects,
    {
        let mut r = no_effects();
        match &self.explorer {
            Some(ex) => {
                if ex.selected < ex.entries.len() && ex.kind == ExKind::Dir {
                    add_effect(&mut r, self.toggle_effect(ex, ex.selected));
                    assert(effects_of(r@) =~= toggle_effects(
                        self@.platform,
                        ex@,
                        ex@.selected,
                    ));
                }
            },
            None => {},
        }
        r
    }

    fn explorer_move(&mut self, down: bool)
        requires
            old(self).wf(),
            old(self)@.explorer is Some,
        ensures
            final(self).wf(),
            final(self)@ == (AppView {
                explorer: Some(
                    if down {
                        selected_down(old(self)@.explorer->Some_0)
                    } else {
                        selected_up(old(self)@.explorer->Some_0)
                    },
                ),
                ..old(self)@
            }),
    {
        match self.explorer.take() {
            Some(mut ex) => {
                if down {
                    ex.select_down();
                } else {
                    ex.select_up();
                }
                self.explorer = Some(ex);
            },
            None => {},
        }
    }

    fn explorer_enter(&mut self, s: &Session) -> (r: Vec<Effect>)
        requires
            old(self).wf(),
            s.wf(),
            old(self)@.explorer is Some,
        ensures
            final(self).wf(),
            is_step(
                explorer_key_step(old(self)@, s@, old(self)@.explorer->Some_0, Key::Enter),
                final(self)@,
                s@,
                r@,
            ),
    {
        let at: Option<usize> = match &self.explorer {
            Some(ex) => if ex.selected < ex.entries.len() && ex.entries[ex.selected].1 {
                Some(ex.selected)
            } else {
                None
            },
            None => None,
        };
        match at {
            Some(i) => self.click_row(s, i),
            None => self.explorer_confirm(s),
        }
    }

    fn explorer_key(&mut self, s: &Session, k: Key) -> (r: Vec<Effect>)
        requires
            old(self).wf(),
            s.wf(),
            old(self)@.explorer is Some,
        ensures
            final(self).wf(),
            is_step(
                explorer_key_step(old(self)@, s@, old(self)@.explorer->Some_0, k),
                final(self)@,
                s@,
                r@,
            ),
    {
        match k {
            Key::Char(c) => {
                if c == ' ' {
                    self.explorer_space(s)
                } else {
                    no_effects()
                }
            },
            Key::Up => {
                self.explorer_move(false);
                no_effects()
            },
            Key::Down => {
                self.explorer_move(true);
                no_effects()
            },
            Key::Enter => self.explorer_enter(s),
            Key::Backspace => self.explorer_up(s),
            Key::Left => self.explorer_up(s),
            Key::Esc => {
                self.explorer = None;
                no_effects()
            },
            _ => no_effects(),
        }
    }

    fn field_key(&mut self, s: &Session, k: Key, ctrl: bool) -> (r: Vec<Effect>)
        requires
            old(self).wf(),
            s.wf(),
        ensures
            final(self).wf(),
            is_step(field_key_step(old(self)@, s@, k, ctrl), final(self)@, s@, r@),
    {
        match k {
            Key::Char(c) => {
                if !ctrl {
                    self.field_insert(c);
                }
            },
            Key::Backspace => {
                self.field_backspace();
            },
            Key::Delete => {
                self.field_delete();
            },
            Key::Left => {
                if self.edit_cursor > 0 {
                    self.edit_cursor = self.edit_cursor - 1;
                }
            },
            Key::Right => {
                let len = self.focused_text().len();
                self.edit_cursor =
                if self.edit_cursor < len {
                    self.edit_cursor + 1
                } else {
                    len
                };
            },
            Key::Home => {
                self.edit_cursor = 0;
            },
            Key::End => {
                self.edit_cursor = self.focused_text().len();
            },
            Key::Enter => {
                return self.blur();
            },
            Key::Esc => {
                return self.blur();
            },
            Key::Tab => {
                return self.cycle_focus();
            },
            _ => {},
        }
        no_effects()
    }

    fn plain_key(&mut self, s: &Session, k: Key) -> (r: Vec<Effect>)
        requires
            old(self).wf(),
            s.wf(),
        ensures
            final(self).wf(),
            is_step(plain_key_step(old(self)@, s@, k), final(self)@, s@, r@),
    {
        match k {
            Key::Esc => {
                return self.request_quit(s);
            },
            Key::Tab => {
                return self.cycle_focus();
            },
            Key::Char('1') => {
                self.selected_tab = 0;
            },
            Key::Char('2') => {
                self.selected_tab = 1;
            },
            Key::Char('3') => {
                self.selected_tab = 2;
            },
            Key::Char('4') => {
                self.selected_tab = 3;
            },
            _ => {},
        }
        no_effects()
    }

    /// Does what a key that is pressed asks for.
    pub fn handle_key(&mut self, s: &mut Session, k: Key, ctrl: bool) -> (r: Vec<Effect>)
        requires
            old(self).wf(),
            old(s).wf(),
        ensures
            final(self).wf(),
            final(s).wf(),
            final(s).platform() == old(s).platform(),
            is_step(key_step(old(self)@, old(s)@, k, ctrl), final(self)@, final(s)@, r@),
    {
        if ctrl && (k == Key::Char('q') || k == Key::Char('c')) {
            return self.request_quit(s);
        }
        if self.explorer.is_some() {
            return self.explorer_key(s, k);
        }
        if self.confirm_exit {
            if k == Key::Char('s') || k == Key::Char('y') || k == Key::Enter {
                return self.confirm_quit(s);
            }
            if k == Key::Char('n') || k == Key::Esc {
                self.confirm_exit = false;
            }
            return no_effects();
        }
        if self.closing {
            return no_effects();
        }
        if self.focus == Focus::KeyZone {
            match k {
                Key::Char(c) => {
                    if c == 'q' || c == '+' || c == '-' {
                        let mut key = String::new();
                        key.push(c);
                        assert(key@ =~= seq![c]);
                        return self.daemon_key(s, self.selected_tab, key.as_str());
                    }
                },
                Key::Esc => {
                    self.focus = Focus::Nowhere;
                    return no_effects();
                },
                _ => {},
            }
        }
        if is_text_field(self.focus) {
            return self.field_key(s, k, ctrl);
        }
        self.plain_key(s, k)
    }
}

// ---------------------------------------------------------------- the mouse
/// Whether a cell lies in a part of the screen.
pub open spec fn covers(r: Rect, col: int, row: int) -> bool {
    r.x <= col < r.x + r.width && r.y <= row < r.y + r.height
}

/// The topmost thing at a cell among the first `n`: the last one put there.
pub open spec fn hit_among(hs: Seq<(Rect, ElemId)>, col: int, row: int, n: int) -> Option<ElemId>
    decreases n,
{
    if n <= 0 {
        None
    } else if covers(hs[n - 1].0, col, row) {
        Some(hs[n - 1].1)
    } else {
        hit_among(hs, col, row, n - 1)
    }
}

/// The topmost thing at a cell.
pub fn hit(hs: &Vec<(Rect, ElemId)>, col: u16, row: u16) -> (r: Option<ElemId>)
    ensures
        r == hit_among(hs@, col as int, row as int, hs@.len() as int),
{
    let mut n: usize = hs.len();
    while n > 0
        invariant
            n <= hs@.len(),
            hit_among(hs@, col as int, row as int, hs@.len() as int) == hit_among(
                hs@,
                col as int,
                row as int,
                n as int,
            ),
        decreases n,
    {
        let r = hs[n - 1].0;
        let (c, w, x): (u32, u32, u32) = (col as u32, r.width as u32, r.x as u32);
        let (l, h, y): (u32, u32, u32) = (row as u32, r.height as u32, r.y as u32);
        if c >= x && c < x + w && l >= y && l < y + h {
            return Some(hs[n - 1].1);
        }
        n -= 1;
    }
    None
}

/// What the mouse does.
#[derive(Clone, Copy, PartialEq, Eq, Structural, Debug)]
pub enum Mouse {
    Moved,
    /// The left button is pressed.
    Down,
    ScrollUp,
    ScrollDown,
    Other,
}

/// What a click on nothing does: a field that has the keyboard loses it and is
/// kept.
pub open spec fn click_outside(a: AppView, s: SessionView) -> Step {
    Step { app: blurred(a), session: s, effects: blur_effects(a) }
}

/// The state after scrolling up or down.
pub open spec fn scrolled(a: AppView, down: bool) -> AppView {
    match a.explorer {
        Some(ex) => AppView { explorer: Some(scrolled_by_one(ex, down)), ..a },
        None => AppView {
            cmd_scroll: if down {
                smaller(a.cmd_scroll + 1, u16::MAX as int)
            } else if a.cmd_scroll > 0 {
                a.cmd_scroll - 1
            } else {
                0
            },
            ..a
        },
    }
}

/// What the mouse does, with the topmost thing under it.
pub open spec fn mouse_step(
    a: AppView,
    s: SessionView,
    ids: Seq<Seq<char>>,
    m: Mouse,
    under: Option<ElemId>,
) -> Step {
    match m {
        Mouse::Moved => only_app(AppView { hover: under, ..a }, s),
        Mouse::Down => match under {
            Some(id) => clicked(a, s, ids, id),
            None => click_outside(a, s),
        },
        Mouse::ScrollUp => only_app(scrolled(a, false), s),
        Mouse::ScrollDown => only_app(scrolled(a, true), s),
        Mouse::Other => only_app(a, s),
    }
}

/// Whether everything on a screen exists.
pub open spec fn all_exist(hs: Seq<(Rect, ElemId)>) -> bool {
    forall|i: int| 0 <= i < hs.len() ==> elem_exists((#[trigger] hs[i]).1)
}

proof fn lemma_hit_exists(hs: Seq<(Rect, ElemId)>, col: int, row: int, n: int)
    requires
        all_exist(hs),
        n <= hs.len(),
    ensures
        hit_among(hs, col, row, n) matches Some(id) ==> elem_exists(id),
    decreases n,
{
    if n > 0 && !covers(hs[n - 1].0, col, row) {
        lemma_hit_exists(hs, col, row, n - 1);
    }
}

impl App {
    fn scroll(&mut self, down: bool)
        requires
            old(self).wf(),
        ensures
            final(self).wf(),
            final(self)@ == scrolled(old(self)@, down),
    {
        match self.explorer.take() {
            Some(mut ex) => {
                ex.scroll_by_one(down);
                self.explorer = Some(ex);
            },
            None => {
                if down {
                    if self.cmd_scroll < u16::MAX {
                        self.cmd_scroll = self.cmd_scroll + 1;
                    }
                } else if self.cmd_scroll > 0 {
                    self.cmd_scroll = self.cmd_scroll - 1;
                }
            },
        }
    }

    /// Does what the mouse asks for on a screen with things to click.
    pub fn handle_mouse(
        &mut self,
        s: &mut Session,
        hotspots: &Vec<(Rect, ElemId)>,
        m: Mouse,
        col: u16,
        row: u16,
    ) -> (r: Vec<Effect>)
        requires
            old(self).wf(),
            old(s).wf(),
            all_exist(hotspots@),
        ensures
            final(self).wf(),
            final(s).wf(),
            final(s).platform() == old(s).platform(),
            is_step(
                mouse_step(
                    old(self)@,
                    old(s)@,
                    old(s).job_order(),
                    m,
                    hit_among(hotspots@, col as int, row as int, hotspots@.len() as int),
                ),
                final(self)@,
                final(s)@,
                r@,
            ),
    {
        match m {
            Mouse::Moved => {
                self.hover = hit(hotspots, col, row);
                no_effects()
            },
            Mouse::Down => {
                proof {
                    lemma_hit_exists(
                        hotspots@,
                        col as int,
                        row as int,
                        hotspots@.len() as int,
                    );
                }
                match hit(hotspots, col, row) {
                    Some(id) => self.dispatch(s, id),
                    None => self.blur(),
                }
            },
            Mouse::ScrollUp => {
                self.scroll(false);
                no_effects()
            },
            Mouse::ScrollDown => {
                self.scroll(true);
                no_effects()
            },
            Mouse::Other => no_effects(),
        }
    }
}

// ---------------------------------------------------------------- laws
/// What was put on the screen last is what is hit, so a dialog over the rest of
/// the screen gets the clicks.
pub proof fn last_put_is_hit(hs: Seq<(Rect, ElemId)>, r: Rect, id: ElemId, col: int, row: int)
    requires
        covers(r, col, row),
    ensures
        hit_among(hs.push((r, id)), col, row, hs.len() as int + 1) == Some(id),
{
    assert(hs.push((r, id))[hs.len() as int] == (r, id));
}

/// What is hit covers the cell.
pub proof fn hit_covers(hs: Seq<(Rect, ElemId)>, col: int, row: int, n: int)
    requires
        0 <= n <= hs.len(),
    ensures
        match hit_among(hs, col, row, n) {
            Some(id) => exists|i: int| 0 <= i < n && covers((#[trigger] hs[i]).0, col, row) && hs[i].1 == id,
            None => forall|i: int| 0 <= i < n ==> !covers((#[trigger] hs[i]).0, col, row),
        },
    decreases n,
{
    if n > 0 {
        if covers(hs[n - 1].0, col, row) {
            assert(hs[n - 1].1 == hit_among(hs, col, row, n)->Some_0);
        } else {
            hit_covers(hs, col, row, n - 1);
        }
    }
}

/// While the explorer is open, no key but the one to leave reaches anything
/// behind it.
pub proof fn explorer_keeps_the_keyboard(a: AppView, s: SessionView, k: Key)
    requires
        a.explorer is Some,
    ensures
        ({
            let st = key_step(a, s, k, false);
            &&& st.session == s
            &&& st.app.mode == a.mode
            &&& st.app.token == a.token
            &&& st.app.daemon_addr == a.daemon_addr
            &&& st.app.should_quit == a.should_quit
            &&& st.app.selected_tab == a.selected_tab
        }),
{
}

/// Leaving while local jobs run always asks first.
pub proof fn leaving_asks_first(a: AppView, s: SessionView, k: Key, ctrl: bool)
    requires
        a.mode == Mode::Local,
        count_running(s.slots) > 0,
        !a.should_quit,
    ensures
        !key_step(a, s, k, ctrl).app.should_quit,
{
}

/// Typing a character and taking it back leaves the field as it was.
pub proof fn backspace_undoes_typing(a: AppView, c: char)
    requires
        is_field(a.focus),
        0 <= a.edit_cursor <= field_text(a, a.focus).len(),
        a.edit_cursor < usize::MAX,
    ensures
        backspaced(typed_into(a, c)) == a,
{
    let s = field_text(a, a.focus);
    let t = s.insert(a.edit_cursor, c);
    assert(field_text(typed_into(a, c), a.focus) =~= t);
    assert(t.remove(a.edit_cursor) =~= s);
}

/// A digit from 1 to 4 shows the tab with that number, and no other character does
/// anything where no field has the keyboard.
pub proof fn digits_pick_the_tabs(a: AppView, s: SessionView, c: char)
    requires
        a.explorer is None,
        !a.confirm_exit,
        !a.closing,
        a.focus == Focus::Nowhere,
    ensures
        '1' <= c <= '4' ==> key_step(a, s, Key::Char(c), false) == (Step {
            app: AppView { selected_tab: c as int - '1' as int, ..a },
            session: s,
            effects: seq![],
        }),
        !('1' <= c <= '4') ==> key_step(a, s, Key::Char(c), false) == (Step {
            app: a,
            session: s,
            effects: seq![],
        }),
        key_step(a, s, Key::Esc, false) == quit_step(a, s),
        key_step(a, s, Key::Tab, false).app == focused_on(
            a,
            next_focus(a.mode, a.connected, a.focus),
        ),
{
}

/// The question whether to leave takes y, s and Enter for yes, n and Esc for no, and
/// nothing else.
pub proof fn question_takes_two_answers(a: AppView, s: SessionView, k: Key)
    requires
        a.explorer is None,
        a.confirm_exit,
    ensures
        k == Key::Char('y') || k == Key::Char('s') || k == Key::Enter ==> key_step(a, s, k, false)
            == confirmed_step(a, s),
        k == Key::Char('n') || k == Key::Esc ==> key_step(a, s, k, false) == (Step {
            app: AppView { confirm_exit: false, ..a },
            session: s,
            effects: seq![],
        }),
        k != Key::Char('y') && k != Key::Char('s') && k != Key::Enter && k != Key::Char('n') && k
            != Key::Esc ==> key_step(a, s, k, false) == (Step {
            app: a,
            session: s,
            effects: seq![],
        }),
{
}

/// Control with q or c asks to leave, whatever has the keyboard.
pub proof fn control_keys_leave(a: AppView, s: SessionView)
    ensures
        key_step(a, s, Key::Char('q'), true) == quit_step(a, s),
        key_step(a, s, Key::Char('c'), true) == quit_step(a, s),
{
}

/// The keys q, + and - go to the ffmpeg of the tab that is shown where the keyboard
/// goes to it; Esc takes the keyboard away from it.
pub proof fn ffmpeg_gets_its_keys(a: AppView, s: SessionView, c: char)
    requires
        a.explorer is None,
        !a.confirm_exit,
        !a.closing,
        a.focus == Focus::KeyZone,
    ensures
        c == 'q' || c == '+' || c == '-' ==> key_step(a, s, Key::Char(c), false) == (Step {
            app: a,
            session: s,
            effects: key_effects(a, s, a.selected_tab, seq![c]),
        }),
        key_step(a, s, Key::Esc, false).app == blurred(a),
{
}

/// A field takes every character that is typed without control; the arrows move its
/// cursor by one, Home and End to its ends, and Enter and Esc leave it.
pub proof fn field_takes_the_keys(a: AppView, s: SessionView, c: char)
    requires
        a.explorer is None,
        !a.confirm_exit,
        !a.closing,
        is_field(a.focus),
        0 <= a.edit_cursor <= field_text(a, a.focus).len(),
    ensures
        ({
            let len = field_text(a, a.focus).len() as int;
            &&& key_step(a, s, Key::Char(c), false).app == typed_into(a, c)
            &&& c != 'q' && c != 'c' ==> key_step(a, s, Key::Char(c), true).app == a
            &&& key_step(a, s, Key::Backspace, false).app == backspaced(a)
            &&& key_step(a, s, Key::Delete, false).app == deleted(a)
            &&& a.edit_cursor > 0 ==> key_step(a, s, Key::Left, false).app.edit_cursor
                == a.edit_cursor - 1
            &&& a.edit_cursor == 0 ==> key_step(a, s, Key::Left, false).app.edit_cursor == 0
            &&& a.edit_cursor < len ==> key_step(a, s, Key::Right, false).app.edit_cursor
                == a.edit_cursor + 1
            &&& a.edit_cursor == len ==> key_step(a, s, Key::Right, false).app.edit_cursor == len
            &&& key_step(a, s, Key::Home, false).app.edit_cursor == 0
            &&& key_step(a, s, Key::End, false).app.edit_cursor == len
            &&& key_step(a, s, Key::Enter, false).app == blurred(a)
            &&& key_step(a, s, Key::Esc, false).app == blurred(a)
            &&& key_step(a, s, Key::Enter, false).effects == blur_effects(a)
            &&& key_step(a, s, Key::Esc, false).effects == blur_effects(a)
        }),
{
}

/// In the explorer the arrows move what is selected, Enter goes into a folder or takes
/// what is selected, Backspace goes up, Esc closes it, and the space bar marks what is
/// selected where a folder is to be picked.
pub proof fn explorer_takes_the_keys(a: AppView, s: SessionView)
    requires
        a.explorer is Some,
        0 <= a.explorer->Some_0.selected < a.explorer->Some_0.entries.len(),
    ensures
        ({
            let ex = a.explorer->Some_0;
            let e = ex.entries[ex.selected];
            let down = key_step(a, s, Key::Down, false).app.explorer;
            let up = key_step(a, s, Key::Up, false).app.explorer;
            &&& ex.selected + 1 < ex.entries.len() ==> (down matches Some(d) && d.selected
                == ex.selected + 1)
            &&& ex.selected + 1 == ex.entries.len() ==> (down matches Some(d) && d.selected
                == ex.selected)
            &&& ex.selected > 0 ==> (up matches Some(u) && u.selected == ex.selected - 1)
            &&& ex.selected == 0 ==> (up matches Some(u) && u.selected == 0)
            &&& e.1 ==> key_step(a, s, Key::Enter, false) == enter_step(a, s, ex, ex.selected)
            &&& !e.1 ==> key_step(a, s, Key::Enter, false) == choose_step(a, s, ex)
            &&& key_step(a, s, Key::Backspace, false) == up_step(a, s, ex)
            &&& key_step(a, s, Key::Left, false) == up_step(a, s, ex)
            &&& key_step(a, s, Key::Esc, false).app == (AppView { explorer: None, ..a })
            &&& ex.kind == ExKind::Dir ==> key_step(a, s, Key::Char(' '), false).effects
                == toggle_effects(a.platform, ex, ex.selected)
            &&& ex.kind == ExKind::File ==> key_step(a, s, Key::Char(' '), false).effects.len()
                == 0
        }),
{
}

/// The mouse: what lies under it is marked, a click does what is under it asks for, a
/// click on nothing takes the keyboard away, and the wheel scrolls by one.
pub proof fn mouse_does_what_is_under_it(
    a: AppView,
    s: SessionView,
    ids: Seq<Seq<char>>,
    id: ElemId,
)
    ensures
        mouse_step(a, s, ids, Mouse::Moved, Some(id)).app == (AppView { hover: Some(id), ..a }),
        mouse_step(a, s, ids, Mouse::Moved, None).app == (AppView { hover: None, ..a }),
        mouse_step(a, s, ids, Mouse::Down, Some(id)) == clicked(a, s, ids, id),
        mouse_step(a, s, ids, Mouse::Down, None) == (Step {
            app: blurred(a),
            session: s,
            effects: blur_effects(a),
        }),
        mouse_step(a, s, ids, Mouse::Other, Some(id)) == (Step {
            app: a,
            session: s,
            effects: seq![],
        }),
        a.explorer is None && 0 <= a.cmd_scroll < u16::MAX ==> mouse_step(
            a,
            s,
            ids,
            Mouse::ScrollDown,
            None,
        ).app.cmd_scroll == a.cmd_scroll + 1,
        a.explorer is None && a.cmd_scroll > 0 ==> mouse_step(
            a,
            s,
            ids,
            Mouse::ScrollUp,
            None,
        ).app.cmd_scroll == a.cmd_scroll - 1,
        a.explorer matches Some(ex) ==> (0 < ex.scroll && ex.scroll + 1 < ex.entries.len() ==> (
        mouse_step(a, s, ids, Mouse::ScrollDown, None).app.explorer matches Some(d) && d.scroll
            == ex.scroll + 1) && (mouse_step(
            a,
            s,
            ids,
            Mouse::ScrollUp,
            None,
        ).app.explorer matches Some(u) && u.scroll == ex.scroll - 1)),
{
}

/// A cell lies in a part of the screen from its first row and column up to, but not at,
/// the end of its width and height.
pub proof fn cells_lie_in_their_part(r: Rect, col: int, row: int)
    ensures
        covers(r, col, row) <==> r.x <= col && col <= r.x + r.width - 1 && r.y <= row && row <= r.y
            + r.height - 1,
{
}

} // verus!
