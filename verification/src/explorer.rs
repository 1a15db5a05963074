//! The file explorer: a folder's entries, in order, and moving between folders.
//!
//! Reading the folder is the caller's part.
use vstd::prelude::*;
use vstd::string::*;
use crate::order::{arranged, keys_of, lemma_order_of, order_of, positions, sort_order};
use crate::path::{join, joined, parent, parent_of, Platform};
use crate::text::{chars_of, lemma_texts_push, lower_text, lowercase, texts};
use crate::walk::{arrange, is_video, video};

verus! {

/// What the explorer is for.
#[derive(Clone, Copy, PartialEq, Eq, Structural, Debug)]
pub enum ExKind {
    /// To pick ffmpeg.
    File,
    /// To pick the folder with the videos.
    Dir,
}

/// An entry that was found in a folder: its name and whether it is a folder.
pub struct Listed {
    pub name: String,
    pub is_dir: bool,
}

/// The names and kinds of some entries.
pub open spec fn listing_of(l: Seq<Listed>) -> Seq<(Seq<char>, bool)> {
    Seq::new(l.len(), |i: int| (l[i].name@, l[i].is_dir))
}

/// Whether an entry is shown: hidden ones are not, and where a folder is picked
/// only folders and videos are.
pub open spec fn is_shown(pl: Platform, kind: ExKind, e: (Seq<char>, bool)) -> bool {
    &&& !(e.0.len() > 0 && e.0[0] == '.')
    &&& e.1 || kind == ExKind::File || is_video(pl, e.0)
}

/// The names among some entries that are shown and are folders, or are not.
pub open spec fn names_in(
    pl: Platform,
    kind: ExKind,
    l: Seq<(Seq<char>, bool)>,
    dirs: bool,
) -> Seq<Seq<char>>
    decreases l.len(),
{
    if l.len() == 0 {
        Seq::empty()
    } else {
        let rest = names_in(pl, kind, l.drop_last(), dirs);
        if l.last().1 == dirs && is_shown(pl, kind, l.last()) {
            rest.push(l.last().0)
        } else {
            rest
        }
    }
}

/// A text's place in the order of texts.
pub open spec fn text_key(s: Seq<char>) -> Seq<u32> {
    Seq::new(s.len(), |i: int| s[i] as u32)
}

/// The places of some names; upper and lower case count the same.
pub open spec fn name_keys(names: Seq<Seq<char>>) -> Seq<Seq<u32>> {
    Seq::new(names.len(), |i: int| text_key(lower_text(names[i])))
}

/// Names in order.
pub open spec fn sorted_names(names: Seq<Seq<char>>) -> Seq<Seq<char>> {
    arranged(names, order_of(name_keys(names)))
}

/// Names with their kind.
pub open spec fn tagged(names: Seq<Seq<char>>, dirs: bool) -> Seq<(Seq<char>, bool)> {
    Seq::new(names.len(), |i: int| (names[i], dirs))
}

/// What the explorer shows of a folder: its folders and then its files, each in
/// order.
pub open spec fn shown_entries(
    pl: Platform,
    kind: ExKind,
    l: Seq<(Seq<char>, bool)>,
) -> Seq<(Seq<char>, bool)> {
    tagged(sorted_names(names_in(pl, kind, l, true)), true) + tagged(
        sorted_names(names_in(pl, kind, l, false)),
        false,
    )
}

/// The explorer.
pub struct Explorer {
    pub kind: ExKind,
    pub cwd: String,
    /// Names, and whether they are folders.
    pub entries: Vec<(String, bool)>,
    pub selected: usize,
    pub scroll: usize,
}

/// The contents of an [`Explorer`].
pub struct ExplorerView {
    pub kind: ExKind,
    pub cwd: Seq<char>,
    pub entries: Seq<(Seq<char>, bool)>,
    pub selected: int,
    pub scroll: int,
}

/// The names and kinds that the explorer holds.
pub open spec fn entries_view(e: Seq<(String, bool)>) -> Seq<(Seq<char>, bool)> {
    Seq::new(e.len(), |i: int| (e[i].0@, e[i].1))
}

fn key_of_name(name: &str) -> (r: Vec<u32>)
    ensures
        r@ == text_key(lower_text(name@)),
{
    let l = lowercase(name);
    let c = chars_of(l.as_str());
    let mut r: Vec<u32> = Vec::new();
    let mut i: usize = 0;
    while i < c.len()
        invariant
            i <= c@.len(),
            r@ =~= text_key(c@).take(i as int),
        decreases c@.len() - i,
    {
        r.push(c[i] as u32);
        i += 1;
    }
    assert(text_key(c@).take(c@.len() as int) =~= text_key(c@));
    r
}

fn sort_names(names: &Vec<String>) -> (r: Vec<String>)
    ensures
        texts(r@) == sorted_names(texts(names@)),
{
    let mut keys: Vec<Vec<u32>> = Vec::new();
    let ghost want = name_keys(texts(names@));
    let mut i: usize = 0;
    while i < names.len()
        invariant
            i <= names@.len(),
            want == name_keys(texts(names@)),
            keys@.len() == i,
            forall|j: int| 0 <= j < i ==> (#[trigger] keys@[j])@ == want[j],
        decreases names@.len() - i,
    {
        keys.push(key_of_name(names[i].as_str()));
        i += 1;
    }
    assert(keys_of(keys@) =~= want);
    let order = sort_order(&keys);
    proof {
        lemma_order_of(want, positions(order@));
        assert forall|j: int| 0 <= j < order@.len() implies (#[trigger] order@[j])
            < names@.len() by {
            assert(positions(order@)[j] == order@[j]);
        }
    }
    arrange(names, &order)
}

fn hidden(name: &str) -> (r: bool)
    ensures
        r == (name@.len() > 0 && name@[0] == '.'),
{
    let c = chars_of(name);
    c.len() > 0 && c[0] == '.'
}

fn pick_names(pl: Platform, kind: ExKind, listing: &Vec<Listed>, dirs: bool) -> (r: Vec<String>)
    ensures
        texts(r@) == names_in(pl, kind, listing_of(listing@), dirs),
{
    let ghost all = listing_of(listing@);
    let mut r: Vec<String> = Vec::new();
    assert(all.take(0) =~= Seq::empty());
    assert(texts(r@) =~= Seq::empty());
    let mut i: usize = 0;
    while i < listing.len()
        invariant
            i <= listing@.len(),
            all == listing_of(listing@),
            texts(r@) == names_in(pl, kind, all.take(i as int), dirs),
        decreases listing@.len() - i,
    {
        let e = &listing[i];
        assert(all.take(i + 1).drop_last() =~= all.take(i as int));
        assert(all.take(i + 1).last() == (e.name@, e.is_dir));
        if e.is_dir == dirs && !hidden(e.name.as_str()) && (e.is_dir || kind == ExKind::File
            || video(pl, e.name.as_str())) {
            let t = e.name.clone();
            proof {
                lemma_texts_push(r@, t);
            }
            r.push(t);
        }
        i += 1;
    }
    assert(all.take(listing@.len() as int) =~= all);
    r
}

fn push_tagged(out: &mut Vec<(String, bool)>, names: &Vec<String>, dirs: bool)
    ensures
        entries_view(final(out)@) == entries_view(old(out)@) + tagged(texts(names@), dirs),
{
    let ghost before = entries_view(out@);
    let ghost want = tagged(texts(names@), dirs);
    assert(entries_view(out@) =~= before + want.take(0));
    let mut i: usize = 0;
    while i < names.len()
        invariant
            i <= names@.len(),
            want == tagged(texts(names@), dirs),
            entries_view(out@) == before + want.take(i as int),
        decreases names@.len() - i,
    {
        let ghost now = entries_view(out@);
        let pair = (names[i].clone(), dirs);
        out.push(pair);
        assert(entries_view(out@) =~= now.push(want[i as int]));
        assert(now.push(want[i as int]) =~= before + want.take(i + 1));
        i += 1;
    }
    assert(want.take(names@.len() as int) =~= want);
}

/// The folder that the explorer opens in for a path: the path itself, or the one
/// that holds it.
pub open spec fn start_folder_of(pl: Platform, start: Seq<char>, is_dir: bool) -> Seq<char> {
    if is_dir {
        start
    } else {
        match parent_of(pl, start) {
            Some(p) => p,
            None => "."@,
        }
    }
}

/// The folder that the explorer opens in for a path.
pub fn start_folder(pl: Platform, start: &str, is_dir: bool) -> (r: String)
    ensures
        r@ == start_folder_of(pl, start@, is_dir),
{
    if is_dir {
        return start.to_string();
    }
    match parent(pl, start) {
        Some(p) => p,
        None => ".".to_string(),
    }
}

impl Explorer {
    pub open spec fn view(&self) -> ExplorerView {
        ExplorerView {
            kind: self.kind,
            cwd: self.cwd@,
            entries: entries_view(self.entries@),
            selected: self.selected as int,
            scroll: self.scroll as int,
        }
    }

    /// Opens the explorer in a folder with some entries.
    pub fn open(pl: Platform, kind: ExKind, cwd: &str, listing: &Vec<Listed>) -> (r: Explorer)
        ensures
            r@ == (ExplorerView {
                kind,
                cwd: cwd@,
                entries: shown_entries(pl, kind, listing_of(listing@)),
                selected: 0,
                scroll: 0,
            }),
    {
        let mut ex = Explorer {
            kind,
            cwd: cwd.to_string(),
            entries: Vec::new(),
            selected: 0,
            scroll: 0,
        };
        ex.refresh(pl, cwd, listing);
        ex
    }

    /// Shows the entries of the folder that `cwd` names.
    pub fn refresh(&mut self, pl: Platform, cwd: &str, listing: &Vec<Listed>)
        ensures
            final(self)@ == (ExplorerView {
                kind: old(self)@.kind,
                cwd: cwd@,
                entries: shown_entries(pl, old(self)@.kind, listing_of(listing@)),
                selected: 0,
                scroll: 0,
            }),
    {
        let dirs = sort_names(&pick_names(pl, self.kind, listing, true));
        let files = sort_names(&pick_names(pl, self.kind, listing, false));
        let mut entries: Vec<(String, bool)> = Vec::new();
        assert(entries_view(entries@) =~= Seq::empty());
        push_tagged(&mut entries, &dirs, true);
        push_tagged(&mut entries, &files, false);
        assert(entries_view(entries@) =~= shown_entries(pl, self.kind, listing_of(listing@)));
        self.cwd = cwd.to_string();
        self.entries = entries;
        self.selected = 0;
        self.scroll = 0;
    }

    /// Goes into the folder at a position. True where the explorer has moved and
    /// the new folder is to be read.
    pub fn enter(&mut self, pl: Platform, idx: usize) -> (r: bool)
        ensures
            r == is_folder(old(self)@, idx as int),
            final(self)@ == if r {
                ExplorerView {
                    cwd: joined(pl, old(self)@.cwd, old(self)@.entries[idx as int].0),
                    ..old(self)@
                }
            } else {
                old(self)@
            },
    {
        if idx < self.entries.len() && self.entries[idx].1 {
            let cwd = join(pl, self.cwd.as_str(), self.entries[idx].0.as_str());
            self.cwd = cwd;
            true
        } else {
            false
        }
    }

    /// Goes to the folder above. True where the explorer has moved and the new
    /// folder is to be read.
    pub fn go_up(&mut self, pl: Platform) -> (r: bool)
        ensures
            r == (parent_of(pl, old(self)@.cwd) is Some),
            final(self)@ == match parent_of(pl, old(self)@.cwd) {
                Some(p) => ExplorerView { cwd: p, ..old(self)@ },
                None => old(self)@,
            },
    {
        match parent(pl, self.cwd.as_str()) {
            Some(p) => {
                self.cwd = p;
                true
            },
            None => false,
        }
    }
}

/// The explorer with the entry above selected.
pub open spec fn selected_up(ex: ExplorerView) -> ExplorerView {
    if ex.selected > 0 {
        ExplorerView {
            selected: ex.selected - 1,
            scroll: if ex.selected - 1 < ex.scroll {
                ex.selected - 1
            } else {
                ex.scroll
            },
            ..ex
        }
    } else {
        ex
    }
}

/// The explorer with the entry below selected.
pub open spec fn selected_down(ex: ExplorerView) -> ExplorerView {
    if ex.selected + 1 < ex.entries.len() {
        ExplorerView { selected: ex.selected + 1, ..ex }
    } else {
        ex
    }
}

/// The explorer scrolled by one entry.
pub open spec fn scrolled_by_one(ex: ExplorerView, down: bool) -> ExplorerView {
    if down {
        if ex.scroll + 1 < ex.entries.len() {
            ExplorerView { scroll: ex.scroll + 1, ..ex }
        } else {
            ex
        }
    } else if ex.scroll > 0 {
        ExplorerView { scroll: ex.scroll - 1, ..ex }
    } else {
        ex
    }
}

impl Explorer {
    /// Selects the entry above, and keeps it in sight.
    pub fn select_up(&mut self)
        ensures
            final(self)@ == selected_up(old(self)@),
    {
        if self.selected > 0 {
            self.selected = self.selected - 1;
            if self.selected < self.scroll {
                self.scroll = self.selected;
            }
        }
    }

    /// Selects the entry below.
    pub fn select_down(&mut self)
        ensures
            final(self)@ == selected_down(old(self)@),
    {
        let n = self.entries.len();
        if self.selected < n && n - self.selected > 1 {
            self.selected = self.selected + 1;
        }
    }

    /// Scrolls by one entry.
    pub fn scroll_by_one(&mut self, down: bool)
        ensures
            final(self)@ == scrolled_by_one(old(self)@, down),
    {
        let n = self.entries.len();
        if down {
            if self.scroll < n && n - self.scroll > 1 {
                self.scroll = self.scroll + 1;
            }
        } else if self.scroll > 0 {
            self.scroll = self.scroll - 1;
        }
    }
}

/// Whether there is a folder at a position.
pub open spec fn is_folder(ex: ExplorerView, i: int) -> bool {
    0 <= i < ex.entries.len() && ex.entries[i].1
}

// ---------------------------------------------------------------- laws
/// Folders come before files.
pub proof fn folders_come_first(pl: Platform, kind: ExKind, l: Seq<(Seq<char>, bool)>, i: int, j: int)
    requires
        0 <= i < j < shown_entries(pl, kind, l).len(),
        shown_entries(pl, kind, l)[j].1,
    ensures
        shown_entries(pl, kind, l)[i].1,
{
}

proof fn lemma_names_in(
    pl: Platform,
    kind: ExKind,
    l: Seq<(Seq<char>, bool)>,
    dirs: bool,
    n: Seq<char>,
)
    ensures
        names_in(pl, kind, l, dirs).contains(n) <==> l.contains((n, dirs)) && is_shown(
            pl,
            kind,
            (n, dirs),
        ),
    decreases l.len(),
{
    if l.len() > 0 {
        let less = l.drop_last();
        let e = l.last();
        lemma_names_in(pl, kind, less, dirs, n);
        assert(less.push(e) =~= l);
        let (a, b) = (names_in(pl, kind, less, dirs), names_in(pl, kind, l, dirs));
        if less.contains((n, dirs)) {
            let i = choose|i: int| 0 <= i < less.len() && less[i] == (n, dirs);
            assert(l[i] == (n, dirs));
        }
        if l.contains((n, dirs)) && e != (n, dirs) {
            let i = choose|i: int| 0 <= i < l.len() && l[i] == (n, dirs);
            assert(less[i] == (n, dirs));
        }
        if e == (n, dirs) {
            assert(l[l.len() - 1] == (n, dirs));
        }
        if a.contains(n) {
            let i = choose|i: int| 0 <= i < a.len() && a[i] == n;
            assert(b[i] == n);
        }
        if b.contains(n) && !(e == (n, dirs)) {
            let i = choose|i: int| 0 <= i < b.len() && b[i] == n;
            if i < a.len() {
                assert(a[i] == n);
            } else {
                assert(b[i] == e.0);
                assert(e.1 == dirs);
            }
        }
        if e == (n, dirs) && is_shown(pl, kind, e) {
            assert(b[b.len() - 1] == n);
        }
    }
}

/// The explorer shows what a folder holds: all its folders and, where ffmpeg is to be
/// picked, all its files; where a folder is to be picked, only its videos. What begins
/// with a dot is hidden.
pub proof fn explorer_shows_what_a_folder_holds(
    pl: Platform,
    kind: ExKind,
    l: Seq<(Seq<char>, bool)>,
    n: Seq<char>,
)
    requires
        n.len() > 0,
    ensures
        shown_entries(pl, kind, l).contains((n, true)) <==> l.contains((n, true)) && n[0] != '.',
        kind == ExKind::File ==> (shown_entries(pl, kind, l).contains((n, false)) <==> l.contains(
            (n, false),
        ) && n[0] != '.'),
        kind == ExKind::Dir ==> (shown_entries(pl, kind, l).contains((n, false)) <==> l.contains(
            (n, false),
        ) && n[0] != '.' && is_video(pl, n)),
{
    lemma_names_in(pl, kind, l, true, n);
    lemma_names_in(pl, kind, l, false, n);
    let (d, f) = (names_in(pl, kind, l, true), names_in(pl, kind, l, false));
    lemma_sorted_holds(d, n);
    lemma_sorted_holds(f, n);
    let (sd, sf) = (sorted_names(d), sorted_names(f));
    let all = shown_entries(pl, kind, l);
    assert(all.len() == sd.len() + sf.len());
    if sd.contains(n) {
        let i = choose|i: int| 0 <= i < sd.len() && sd[i] == n;
        assert(all[i] == (n, true));
    }
    if sf.contains(n) {
        let i = choose|i: int| 0 <= i < sf.len() && sf[i] == n;
        assert(all[sd.len() + i] == (n, false));
    }
    if all.contains((n, true)) {
        let i = choose|i: int| 0 <= i < all.len() && all[i] == (n, true);
        assert(i < sd.len());
        assert(sd[i] == n);
    }
    if all.contains((n, false)) {
        let i = choose|i: int| 0 <= i < all.len() && all[i] == (n, false);
        assert(i >= sd.len());
        assert(sf[i - sd.len()] == n);
    }
}

proof fn lemma_sorted_holds(names: Seq<Seq<char>>, n: Seq<char>)
    ensures
        sorted_names(names).contains(n) <==> names.contains(n),
{
    let keys = name_keys(names);
    let o = order_of(keys);
    crate::order::order_is_sorted(keys);
    crate::order::sorting_keeps_all(keys, o, names.len() as int);
    let s = sorted_names(names);
    if names.contains(n) {
        let i = choose|i: int| 0 <= i < names.len() && names[i] == n;
        assert(o.to_set().contains(i));
        let k = choose|k: int| 0 <= k < o.len() && o[k] == i;
        assert(s[k] == n);
    }
    if s.contains(n) {
        let k = choose|k: int| 0 <= k < s.len() && s[k] == n;
        assert(names[o[k]] == n);
    }
}

/// The explorer lists names in their order, upper and lower case alike.
pub proof fn names_are_listed_in_order(names: Seq<Seq<char>>, i: int, j: int)
    requires
        0 <= i < j < names.len(),
    ensures
        ({
            let s = sorted_names(names);
            let key = |n: Seq<char>| Seq::new(lower_text(n).len(), |k: int| lower_text(n)[k] as u32);
            &&& s.len() == names.len()
            &&& crate::order::before(key(s[i]), key(s[j])) || key(s[i]) == key(s[j])
        }),
{
    let keys = name_keys(names);
    let o = order_of(keys);
    crate::order::order_is_sorted(keys);
    assert(crate::order::goes_before(keys, o[i], o[j]));
    let s = sorted_names(names);
    assert(keys[o[i]] =~= Seq::new(lower_text(s[i]).len(), |k: int| lower_text(s[i])[k] as u32));
    assert(keys[o[j]] =~= Seq::new(lower_text(s[j]).len(), |k: int| lower_text(s[j])[k] as u32));
}

/// The explorer opens in the folder that it is given, or in the one that holds the file
/// that it is given.
pub proof fn explorer_opens_in_the_folder(pl: Platform, start: Seq<char>)
    ensures
        start_folder_of(pl, start, true) == start,
        parent_of(pl, start) matches Some(d) ==> start_folder_of(pl, start, false) == d,
        parent_of(pl, start) is None ==> start_folder_of(pl, start, false) == "."@,
{
}

/// What is selected moves by one, stays among the entries, and stays in sight when it
/// moves up.
pub proof fn selection_moves_by_one(ex: ExplorerView)
    requires
        0 <= ex.selected < ex.entries.len(),
        0 <= ex.scroll <= ex.selected,
    ensures
        selected_up(ex).selected == if ex.selected > 0 {
            ex.selected - 1
        } else {
            0
        },
        selected_up(ex).scroll <= selected_up(ex).selected,
        selected_down(ex).selected == if ex.selected + 1 < ex.entries.len() {
            ex.selected + 1
        } else {
            ex.selected
        },
        selected_down(ex).scroll == ex.scroll,
        selected_up(ex).cwd == ex.cwd && selected_down(ex).cwd == ex.cwd,
        selected_up(ex).entries == ex.entries && selected_down(ex).entries == ex.entries,
        ex.selected + 1 < ex.entries.len() && ex.scroll < ex.selected ==> selected_up(
            selected_down(ex),
        ) == ex,
{
}

} // verus!
