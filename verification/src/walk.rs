//! Finding the videos of a folder and of all the folders in it.
//!
//! Reading directories is the caller's part: a [`Walk`] says which folder to
//! read next and takes in what was found there.
use vstd::prelude::*;
use vstd::string::*;
use crate::encoder::{out_dir_of, out_path_of, output_lands_beside_its_source, EXTENSIONS};
use crate::order::{
    arranged, before, first_difference_decides, goes_before, keys_of, lemma_order_of, order_is_sorted,
    order_of, positions,
    sort_order, sorting_keeps_all,
};
use crate::path::{
    begins_at_root, extension, extension_of, file_name, file_name_of, is_plain_name,
    home, home_is_kept, is_rooted, is_sep, joined, joined_name_is_last, lemma_last_dot, names,
    names_of, plain_prefix, prefix_form, prefix_len, stem_of, takes_names, Platform,
};
use crate::text::{
    ascii_lower, char_texts, chars_are, chars_of, lemma_texts_push, lower_text, lowercase, text_eq,
    texts, to_lower,
};

verus! {

/// What a directory entry is.
#[derive(Clone, Copy, PartialEq, Eq, Structural, Debug)]
pub enum EntryKind {
    Dir,
    File,
    Other,
}

/// A directory entry: its whole path and what it is.
pub struct Entry {
    pub path: String,
    pub kind: EntryKind,
}

/// The entries' paths and kinds.
pub open spec fn entries_of(v: Seq<Entry>) -> Seq<(Seq<char>, EntryKind)> {
    Seq::new(v.len(), |i: int| (v[i].path@, v[i].kind))
}

/// Whether an extension, already in lower case, is one of a video.
pub open spec fn is_video_ext(ext: Seq<char>) -> bool {
    ext == "mp4"@ || ext == "mkv"@ || ext == "avi"@ || ext == "mov"@
}

/// Whether a path names a video, by its extension in whatever case.
pub open spec fn is_video(pl: Platform, path: Seq<char>) -> bool {
    extension_of(pl, path) matches Some(e) && is_video_ext(lower_text(e))
}

/// Whether a folder is one that output goes to, by its name in whatever case.
pub open spec fn is_output_dir(pl: Platform, path: Seq<char>) -> bool {
    file_name_of(pl, path) matches Some(n) && ascii_lower(n) == "reencoded"@
}

/// Whether a lower-case extension is one of a video.
pub fn video_ext(ext: &str) -> (r: bool)
    ensures
        r == is_video_ext(ext@),
{
    let mut i: usize = 0;
    while i < EXTENSIONS.len()
        invariant
            i <= 4,
            i > 0 ==> ext@ != "mp4"@,
            i > 1 ==> ext@ != "mkv"@,
            i > 2 ==> ext@ != "avi"@,
            i > 3 ==> ext@ != "mov"@,
        decreases 4 - i,
    {
        if text_eq(ext, EXTENSIONS[i]) {
            return true;
        }
        i += 1;
    }
    false
}

/// Whether a path names a video.
pub fn video(pl: Platform, path: &str) -> (r: bool)
    ensures
        r == is_video(pl, path@),
{
    match extension(pl, path) {
        Some(e) => video_ext(lowercase(e.as_str()).as_str()),
        None => false,
    }
}

/// Whether a folder is one that output goes to. Such folders are not searched,
/// so what has been encoded is not encoded again.
pub fn output_dir(pl: Platform, path: &str) -> (r: bool)
    ensures
        r == is_output_dir(pl, path@),
{
    match file_name(pl, path) {
        Some(n) => {
            let c = chars_of(n.as_str());
            let l = to_lower(c.as_slice());
            chars_are(l.as_slice(), "reencoded")
        },
        None => false,
    }
}

/// The folders among some entries that are searched.
pub open spec fn dirs_in(pl: Platform, es: Seq<(Seq<char>, EntryKind)>) -> Seq<Seq<char>>
    decreases es.len(),
{
    if es.len() == 0 {
        Seq::empty()
    } else {
        let rest = dirs_in(pl, es.drop_last());
        let e = es.last();
        if e.1 == EntryKind::Dir && !is_output_dir(pl, e.0) {
            rest.push(e.0)
        } else {
            rest
        }
    }
}

/// The videos among some entries.
pub open spec fn videos_in(pl: Platform, es: Seq<(Seq<char>, EntryKind)>) -> Seq<Seq<char>>
    decreases es.len(),
{
    if es.len() == 0 {
        Seq::empty()
    } else {
        let rest = videos_in(pl, es.drop_last());
        let e = es.last();
        if e.1 == EntryKind::File && is_video(pl, e.0) {
            rest.push(e.0)
        } else {
            rest
        }
    }
}

/// A search under way.
pub struct Walk {
    platform: Platform,
    pending: Vec<String>,
    found: Vec<String>,
}

impl Walk {
    /// Whose path notation is searched.
    pub closed spec fn platform(&self) -> Platform {
        self.platform
    }

    /// The folders still to be read.
    pub closed spec fn pending(&self) -> Seq<Seq<char>> {
        texts(self.pending@)
    }

    /// The videos found so far.
    pub closed spec fn found(&self) -> Seq<Seq<char>> {
        texts(self.found@)
    }

    /// Begins a search at a folder.
    pub fn start(platform: Platform, dir: &str) -> (r: Walk)
        ensures
            r.platform() == platform,
            r.pending() == seq![dir@],
            r.found() == Seq::<Seq<char>>::empty(),
    {
        let mut pending: Vec<String> = Vec::new();
        pending.push(dir.to_string());
        let r = Walk { platform, pending, found: Vec::new() };
        assert(r.pending() =~= seq![dir@]);
        assert(r.found() =~= Seq::<Seq<char>>::empty());
        r
    }

    /// The folder to read next; nothing where the search is over.
    pub fn next_dir(&mut self) -> (r: Option<String>)
        ensures
            final(self).platform() == old(self).platform(),
            final(self).found() == old(self).found(),
            match r {
                Some(d) => old(self).pending().len() > 0 && d@ == old(self).pending().last()
                    && final(self).pending() == old(self).pending().drop_last(),
                None => old(self).pending().len() == 0 && final(self).pending() == old(
                    self,
                ).pending(),
            },
    {
        let ghost was = self.pending();
        let r = self.pending.pop();
        if r.is_some() {
            assert(self.pending() =~= was.drop_last());
        }
        r
    }

    /// Takes in the entries of one folder.
    pub fn take_in(&mut self, entries: &Vec<Entry>)
        ensures
            final(self).platform() == old(self).platform(),
            final(self).pending() == old(self).pending() + dirs_in(
                old(self).platform(),
                entries_of(entries@),
            ),
            final(self).found() == old(self).found() + videos_in(
                old(self).platform(),
                entries_of(entries@),
            ),
    {
        let ghost es = entries_of(entries@);
        let ghost pl = self.platform;
        let ghost p0 = self.pending();
        let ghost f0 = self.found();
        assert(es.take(0) =~= Seq::empty());
        assert(p0 + dirs_in(pl, es.take(0)) =~= p0);
        assert(f0 + videos_in(pl, es.take(0)) =~= f0);
        let mut i: usize = 0;
        while i < entries.len()
            invariant
                i <= entries@.len(),
                es == entries_of(entries@),
                pl == self.platform,
                self.pending() == p0 + dirs_in(pl, es.take(i as int)),
                self.found() == f0 + videos_in(pl, es.take(i as int)),
            decreases entries@.len() - i,
        {
            let e = &entries[i];
            assert(es.take(i + 1).drop_last() =~= es.take(i as int));
            assert(es.take(i + 1).last() == (e.path@, e.kind));
            let ghost p1 = self.pending();
            let ghost f1 = self.found();
            if e.kind == EntryKind::Dir {
                if !output_dir(self.platform, e.path.as_str()) {
                    let t = e.path.clone();
                    proof {
                        lemma_texts_push(self.pending@, t);
                    }
                    self.pending.push(t);
                    assert(self.pending() =~= p0 + dirs_in(pl, es.take(i as int)).push(e.path@));
                }
            } else if e.kind == EntryKind::File {
                if video(self.platform, e.path.as_str()) {
                    let t = e.path.clone();
                    proof {
                        lemma_texts_push(self.found@, t);
                    }
                    self.found.push(t);
                    assert(self.found() =~= f0 + videos_in(pl, es.take(i as int)).push(e.path@));
                }
            }
            i += 1;
        }
        assert(es.take(entries@.len() as int) =~= es);
    }
}

// ---------------------------------------------------------------- sorting
/// The places of the characters of a name.
pub open spec fn char_keys(n: Seq<char>) -> Seq<u32> {
    Seq::new(n.len(), |i: int| (n[i] as u32 + 5) as u32)
}

/// What kind of name comes first: `.`, then `..`, then all others.
pub open spec fn name_rank(n: Seq<char>) -> u32 {
    if n == seq!['.'] {
        2
    } else if n == seq!['.', '.'] {
        3
    } else {
        4
    }
}

/// The places of some names. A name that ends comes before one that goes on.
pub open spec fn names_key(names: Seq<Seq<char>>) -> Seq<u32>
    decreases names.len(),
{
    if names.len() == 0 {
        seq![]
    } else {
        names_key(names.drop_last()) + seq![name_rank(names.last())] + char_keys(names.last())
    }
}

/// A path's place in the order of paths: paths are ordered name by name, so a
/// folder stands before everything in it.
pub open spec fn path_key(pl: Platform, path: Seq<char>) -> Seq<u32> {
    let prefix = plain_prefix(pl, path);
    (if prefix.len() > 0 {
        seq![0u32] + char_keys(prefix)
    } else {
        seq![]
    }) + (if is_rooted(pl, path) {
        seq![1u32]
    } else {
        seq![]
    }) + names_key(names_of(pl, path))
}

/// The places of some paths.
pub open spec fn path_keys(pl: Platform, paths: Seq<Seq<char>>) -> Seq<Seq<u32>> {
    Seq::new(paths.len(), |i: int| path_key(pl, paths[i]))
}

fn char_key(c: char) -> (r: u32)
    ensures
        r == c as u32 + 5,
{
    c as u32 + 5
}

fn push_keys(v: &mut Vec<u32>, n: &[char])
    ensures
        final(v)@ == old(v)@ + char_keys(n@),
{
    let ghost before = v@;
    let mut i: usize = 0;
    while i < n.len()
        invariant
            i <= n@.len(),
            v@ =~= before + char_keys(n@).take(i as int),
        decreases n@.len() - i,
    {
        v.push(char_key(n[i]));
        i += 1;
    }
    assert(char_keys(n@).take(n@.len() as int) =~= char_keys(n@));
}

fn rank_of(n: &[char]) -> (r: u32)
    ensures
        r == name_rank(n@),
{
    if n.len() == 1 && n[0] == '.' {
        assert(n@ =~= seq!['.']);
        2
    } else if n.len() == 2 && n[0] == '.' && n[1] == '.' {
        assert(n@ =~= seq!['.', '.']);
        3
    } else {
        4
    }
}

fn key_of_path(pl: Platform, path: &str) -> (r: Vec<u32>)
    ensures
        r@ == path_key(pl, path@),
{
    let c = chars_of(path);
    let mut r: Vec<u32> = Vec::new();
    let prefix = prefix_form(pl, c.as_slice());
    if prefix.len() > 0 {
        r.push(0);
        push_keys(&mut r, prefix.as_slice());
    }
    if begins_at_root(pl, c.as_slice()) {
        r.push(1);
    }
    let ghost head = r@;
    let v = names(pl, c.as_slice());
    let ghost all = char_texts(v@);
    assert(all.take(0) =~= seq![]);
    let mut i: usize = 0;
    while i < v.len()
        invariant
            i <= v@.len(),
            all == char_texts(v@),
            r@ =~= head + names_key(all.take(i as int)),
        decreases v@.len() - i,
    {
        assert(all.take(i + 1).drop_last() =~= all.take(i as int));
        r.push(rank_of(v[i].as_slice()));
        push_keys(&mut r, v[i].as_slice());
        i += 1;
    }
    assert(all.take(v@.len() as int) =~= all);
    assert(r@ =~= path_key(pl, path@));
    r
}

/// Copies strings in the order of a list of positions.
pub fn arrange(items: &Vec<String>, order: &Vec<usize>) -> (r: Vec<String>)
    requires
        forall|i: int| 0 <= i < order@.len() ==> (#[trigger] order@[i]) < items@.len(),
    ensures
        texts(r@) == arranged(texts(items@), positions(order@)),
{
    let mut r: Vec<String> = Vec::new();
    let ghost want = arranged(texts(items@), positions(order@));
    assert(texts(r@) =~= want.take(0));
    let mut i: usize = 0;
    while i < order.len()
        invariant
            i <= order@.len(),
            forall|j: int| 0 <= j < order@.len() ==> (#[trigger] order@[j]) < items@.len(),
            want == arranged(texts(items@), positions(order@)),
            texts(r@) == want.take(i as int),
        decreases order@.len() - i,
    {
        assert(order@[i as int] < items@.len());
        let t = items[order[i]].clone();
        proof {
            lemma_texts_push(r@, t);
            assert(want.take(i + 1) =~= want.take(i as int).push(want[i as int]));
        }
        r.push(t);
        i += 1;
    }
    assert(want.take(order@.len() as int) =~= want);
    r
}

/// The videos that a search found, sorted by path.
pub fn find_videos(walk: &Walk) -> (r: Vec<String>)
    ensures
        texts(r@) == arranged(
            walk.found(),
            order_of(path_keys(walk.platform(), walk.found())),
        ),
{
    let mut keys: Vec<Vec<u32>> = Vec::new();
    let ghost want = path_keys(walk.platform(), walk.found());
    let mut i: usize = 0;
    while i < walk.found.len()
        invariant
            i <= walk.found@.len(),
            want == path_keys(walk.platform(), walk.found()),
            keys@.len() == i,
            forall|j: int| 0 <= j < i ==> (#[trigger] keys@[j])@ == want[j],
        decreases walk.found@.len() - i,
    {
        keys.push(key_of_path(walk.platform, walk.found[i].as_str()));
        i += 1;
    }
    assert(keys_of(keys@) =~= want);
    let order = sort_order(&keys);
    proof {
        lemma_order_of(want, positions(order@));
        assert forall|j: int| 0 <= j < order@.len() implies (#[trigger] order@[j])
            < walk.found@.len() by {
            assert(positions(order@)[j] == order@[j]);
        }
    }
    arrange(&walk.found, &order)
}

// ---------------------------------------------------------------- laws
/// Everything that is found is a video.
pub proof fn only_videos_are_found(pl: Platform, es: Seq<(Seq<char>, EntryKind)>)
    ensures
        forall|i: int|
            0 <= i < videos_in(pl, es).len() ==> is_video(pl, #[trigger] videos_in(pl, es)[i]),
    decreases es.len(),
{
    if es.len() > 0 {
        only_videos_are_found(pl, es.drop_last());
        let (all, rest) = (videos_in(pl, es), videos_in(pl, es.drop_last()));
        assert forall|i: int| 0 <= i < all.len() implies is_video(pl, #[trigger] all[i]) by {
            if i < rest.len() {
                assert(all[i] == rest[i]);
            }
        }
    }
}

/// Every video among the entries of a folder is found.
pub proof fn all_videos_are_found(pl: Platform, es: Seq<(Seq<char>, EntryKind)>, i: int)
    requires
        0 <= i < es.len(),
        es[i].1 == EntryKind::File,
        is_video(pl, es[i].0),
    ensures
        videos_in(pl, es).contains(es[i].0),
    decreases es.len(),
{
    let rest = videos_in(pl, es.drop_last());
    if i < es.len() - 1 {
        all_videos_are_found(pl, es.drop_last(), i);
        assert(es.drop_last()[i] == es[i]);
        let k = rest.index_of(es[i].0);
        assert(videos_in(pl, es)[k] == es[i].0);
    } else {
        assert(videos_in(pl, es).last() == es[i].0);
    }
}

/// No folder that output goes to is ever searched.
pub proof fn output_is_not_searched(pl: Platform, es: Seq<(Seq<char>, EntryKind)>)
    ensures
        forall|i: int|
            0 <= i < dirs_in(pl, es).len() ==> !is_output_dir(pl, #[trigger] dirs_in(pl, es)[i]),
    decreases es.len(),
{
    if es.len() > 0 {
        output_is_not_searched(pl, es.drop_last());
        let (all, rest) = (dirs_in(pl, es), dirs_in(pl, es.drop_last()));
        assert forall|i: int| 0 <= i < all.len() implies !is_output_dir(pl, #[trigger] all[i]) by {
            if i < rest.len() {
                assert(all[i] == rest[i]);
            }
        }
    }
}

/// What is read in each folder.
pub type Tree = spec_fn(Seq<char>) -> Seq<(Seq<char>, EntryKind)>;

/// A search, the folders still to be read and the videos found, after
/// [`Walk::next_dir`] has given its next folder, where there is one, and
/// [`Walk::take_in`] has taken in what is read there.
pub open spec fn search_step(
    pl: Platform,
    tree: Tree,
    w: (Seq<Seq<char>>, Seq<Seq<char>>),
) -> (Seq<Seq<char>>, Seq<Seq<char>>) {
    if w.0.len() == 0 {
        w
    } else {
        let es = tree(w.0.last());
        (w.0.drop_last() + dirs_in(pl, es), w.1 + videos_in(pl, es))
    }
}

/// A search that began at a folder, after `n` steps.
pub open spec fn searched(pl: Platform, tree: Tree, dir: Seq<char>, n: nat) -> (
    Seq<Seq<char>>,
    Seq<Seq<char>>,
)
    decreases n,
{
    if n == 0 {
        (seq![dir], seq![])
    } else {
        search_step(pl, tree, searched(pl, tree, dir, (n - 1) as nat))
    }
}

/// Whether a folder holds another that is searched.
pub open spec fn opens(pl: Platform, tree: Tree, a: Seq<char>, b: Seq<char>) -> bool {
    !is_output_dir(pl, b) && tree(a).contains((b, EntryKind::Dir))
}

/// Whether a folder holds a video.
pub open spec fn holds_video(pl: Platform, tree: Tree, d: Seq<char>, v: Seq<char>) -> bool {
    is_video(pl, v) && tree(d).contains((v, EntryKind::File))
}

/// Whether a list of folders leads from one to the next.
pub open spec fn is_way(pl: Platform, tree: Tree, way: Seq<Seq<char>>) -> bool {
    &&& way.len() > 0
    &&& forall|i: int, j: int|
        0 <= i && j == i + 1 && j < way.len() ==> opens(pl, tree, #[trigger] way[i], #[trigger] way[j])
}

/// Whether a folder lies in another, at whatever depth, and outside of folders
/// for output.
pub open spec fn is_reached(pl: Platform, tree: Tree, dir: Seq<char>, d: Seq<char>) -> bool {
    exists|way: Seq<Seq<char>>| #[trigger]
        is_way(pl, tree, way) && way[0] == dir && way.last() == d
}

proof fn lemma_dirs_in(pl: Platform, es: Seq<(Seq<char>, EntryKind)>, d: Seq<char>)
    ensures
        dirs_in(pl, es).contains(d) <==> !is_output_dir(pl, d) && es.contains((d, EntryKind::Dir)),
    decreases es.len(),
{
    if es.len() > 0 {
        let (all, rest) = (dirs_in(pl, es), dirs_in(pl, es.drop_last()));
        lemma_dirs_in(pl, es.drop_last(), d);
        lemma_contains_last(es, (d, EntryKind::Dir));
        if all != rest {
            lemma_contains_last(all, d);
            assert(all.drop_last() =~= rest);
        }
    }
}

proof fn lemma_videos_in(pl: Platform, es: Seq<(Seq<char>, EntryKind)>, v: Seq<char>)
    ensures
        videos_in(pl, es).contains(v) <==> is_video(pl, v) && es.contains((v, EntryKind::File)),
    decreases es.len(),
{
    if es.len() > 0 {
        let (all, rest) = (videos_in(pl, es), videos_in(pl, es.drop_last()));
        lemma_videos_in(pl, es.drop_last(), v);
        lemma_contains_last(es, (v, EntryKind::File));
        if all != rest {
            lemma_contains_last(all, v);
            assert(all.drop_last() =~= rest);
        }
    }
}

proof fn lemma_contains_last<A>(s: Seq<A>, x: A)
    requires
        s.len() > 0,
    ensures
        s.contains(x) <==> s.drop_last().contains(x) || s.last() == x,
{
    if s.contains(x) {
        let i = s.index_of(x);
        if i < s.len() - 1 {
            assert(s.drop_last()[i] == x);
        }
    }
    if s.drop_last().contains(x) {
        let i = s.drop_last().index_of(x);
        assert(s[i] == x);
    }
    assert(s[s.len() - 1] == s.last());
}

proof fn lemma_contains_sum<A>(a: Seq<A>, b: Seq<A>, x: A)
    ensures
        (a + b).contains(x) <==> a.contains(x) || b.contains(x),
{
    if a.contains(x) {
        assert((a + b)[a.index_of(x)] == x);
    }
    if b.contains(x) {
        assert((a + b)[a.len() + b.index_of(x)] == x);
    }
    if (a + b).contains(x) {
        let i = (a + b).index_of(x);
        if i < a.len() {
            assert(a[i] == x);
        } else {
            assert(b[i - a.len()] == x);
        }
    }
}

/// The folders that have been read after `n` steps.
spec fn read_so_far(pl: Platform, tree: Tree, dir: Seq<char>, n: nat) -> Set<Seq<char>>
    decreases n,
{
    if n == 0 {
        Set::empty()
    } else {
        let rest = read_so_far(pl, tree, dir, (n - 1) as nat);
        let w = searched(pl, tree, dir, (n - 1) as nat);
        if w.0.len() == 0 {
            rest
        } else {
            rest.insert(w.0.last())
        }
    }
}

proof fn lemma_way_goes_on(
    pl: Platform,
    tree: Tree,
    dir: Seq<char>,
    a: Seq<char>,
    b: Seq<char>,
)
    requires
        is_reached(pl, tree, dir, a),
        opens(pl, tree, a, b),
    ensures
        is_reached(pl, tree, dir, b),
{
    let way = choose|way: Seq<Seq<char>>| #[trigger]
        is_way(pl, tree, way) && way[0] == dir && way.last() == a;
    let on = way.push(b);
    assert forall|i: int, j: int| 0 <= i && j == i + 1 && j < on.len() implies opens(
        pl,
        tree,
        #[trigger] on[i],
        #[trigger] on[j],
    ) by {
        if j < way.len() {
            assert(on[i] == way[i] && on[j] == way[j]);
        } else {
            assert(on[i] == way.last());
        }
    }
    assert(is_way(pl, tree, on));
}

proof fn lemma_search(pl: Platform, tree: Tree, dir: Seq<char>, n: nat)
    ensures
        ({
            let w = searched(pl, tree, dir, n);
            let done = read_so_far(pl, tree, dir, n);
            &&& done.contains(dir) || w.0.contains(dir)
            &&& forall|d: Seq<char>| #[trigger] w.0.contains(d) ==> is_reached(pl, tree, dir, d)
            &&& forall|d: Seq<char>| #[trigger] done.contains(d) ==> is_reached(pl, tree, dir, d)
            &&& forall|d: Seq<char>, e: Seq<char>|
                done.contains(d) && #[trigger] opens(pl, tree, d, e) ==> done.contains(e)
                    || w.0.contains(e)
            &&& forall|v: Seq<char>| #[trigger]
                w.1.contains(v) <==> exists|d: Seq<char>|
                    done.contains(d) && #[trigger] holds_video(pl, tree, d, v)
        }),
    decreases n,
{
    let w = searched(pl, tree, dir, n);
    let done = read_so_far(pl, tree, dir, n);
    if n == 0 {
        assert(w.0[0] == dir);
        let way = seq![dir];
        assert(is_way(pl, tree, way) && way[0] == dir && way.last() == dir);
        assert forall|d: Seq<char>| #[trigger] w.0.contains(d) implies is_reached(
            pl,
            tree,
            dir,
            d,
        ) by {
            assert(d == dir);
        }
    } else {
        let m = (n - 1) as nat;
        lemma_search(pl, tree, dir, m);
        let v = searched(pl, tree, dir, m);
        let before = read_so_far(pl, tree, dir, m);
        if v.0.len() > 0 {
            let at = v.0.last();
            let es = tree(at);
            lemma_contains_last(v.0, at);
            assert(v.0.contains(at));
            assert forall|d: Seq<char>| #[trigger] w.0.contains(d) implies is_reached(
                pl,
                tree,
                dir,
                d,
            ) by {
                lemma_contains_sum(v.0.drop_last(), dirs_in(pl, es), d);
                lemma_contains_last(v.0, d);
                lemma_dirs_in(pl, es, d);
                if dirs_in(pl, es).contains(d) {
                    assert(opens(pl, tree, at, d));
                    lemma_way_goes_on(pl, tree, dir, at, d);
                } else {
                    assert(v.0.contains(d));
                }
            }
            assert forall|d: Seq<char>| #[trigger] done.contains(d) implies is_reached(
                pl,
                tree,
                dir,
                d,
            ) by {
                if d != at {
                    assert(before.contains(d));
                }
            }
            lemma_contains_last(v.0, dir);
            lemma_contains_sum(v.0.drop_last(), dirs_in(pl, es), dir);
            assert forall|d: Seq<char>, e: Seq<char>|
                done.contains(d) && #[trigger] opens(pl, tree, d, e) implies done.contains(e)
                || w.0.contains(e) by {
                lemma_contains_last(v.0, e);
                lemma_contains_sum(v.0.drop_last(), dirs_in(pl, es), e);
                lemma_dirs_in(pl, es, e);
                if d != at {
                    assert(before.contains(d));
                }
            }
            assert forall|x: Seq<char>| #[trigger]
                w.1.contains(x) <==> exists|d: Seq<char>|
                    done.contains(d) && #[trigger] holds_video(pl, tree, d, x) by {
                lemma_contains_sum(v.1, videos_in(pl, es), x);
                lemma_videos_in(pl, es, x);
                if v.1.contains(x) {
                    let d = choose|d: Seq<char>|
                        before.contains(d) && #[trigger] holds_video(pl, tree, d, x);
                    assert(done.contains(d) && holds_video(pl, tree, d, x));
                }
                if videos_in(pl, es).contains(x) {
                    assert(done.contains(at) && holds_video(pl, tree, at, x));
                }
                if exists|d: Seq<char>|
                    done.contains(d) && #[trigger] holds_video(pl, tree, d, x) {
                    let d = choose|d: Seq<char>|
                        done.contains(d) && #[trigger] holds_video(pl, tree, d, x);
                    if d != at {
                        assert(before.contains(d) && holds_video(pl, tree, d, x));
                        assert(v.1.contains(x));
                    }
                }
            }
        }
    }
}

/// Once no folder is left to be read, a search has found exactly the videos of
/// the folder it began at and of all the folders in it, at whatever depth, but
/// for folders that output goes to.
pub proof fn search_finds_all_videos(pl: Platform, tree: Tree, dir: Seq<char>, n: nat)
    requires
        searched(pl, tree, dir, n).0.len() == 0,
    ensures
        forall|v: Seq<char>| #[trigger]
            searched(pl, tree, dir, n).1.contains(v) <==> exists|d: Seq<char>|
                is_reached(pl, tree, dir, d) && #[trigger] holds_video(pl, tree, d, v),
{
    lemma_search(pl, tree, dir, n);
    let w = searched(pl, tree, dir, n);
    let done = read_so_far(pl, tree, dir, n);
    assert forall|d: Seq<char>| is_reached(pl, tree, dir, d) implies #[trigger] done.contains(d) by {
        let way = choose|way: Seq<Seq<char>>| #[trigger]
            is_way(pl, tree, way) && way[0] == dir && way.last() == d;
        lemma_way_is_read(pl, tree, dir, n, way, way.len() - 1);
    }
    assert forall|v: Seq<char>| #[trigger]
        w.1.contains(v) <==> exists|d: Seq<char>|
            is_reached(pl, tree, dir, d) && #[trigger] holds_video(pl, tree, d, v) by {
        if w.1.contains(v) {
            let d = choose|d: Seq<char>|
                done.contains(d) && #[trigger] holds_video(pl, tree, d, v);
            assert(is_reached(pl, tree, dir, d) && holds_video(pl, tree, d, v));
        }
        if exists|d: Seq<char>|
            is_reached(pl, tree, dir, d) && #[trigger] holds_video(pl, tree, d, v) {
            let d = choose|d: Seq<char>|
                is_reached(pl, tree, dir, d) && #[trigger] holds_video(pl, tree, d, v);
            assert(done.contains(d) && holds_video(pl, tree, d, v));
        }
    }
}

proof fn lemma_way_is_read(
    pl: Platform,
    tree: Tree,
    dir: Seq<char>,
    n: nat,
    way: Seq<Seq<char>>,
    i: int,
)
    requires
        searched(pl, tree, dir, n).0.len() == 0,
        is_way(pl, tree, way),
        way[0] == dir,
        0 <= i < way.len(),
    ensures
        read_so_far(pl, tree, dir, n).contains(way[i]),
    decreases i,
{
    lemma_search(pl, tree, dir, n);
    if i > 0 {
        lemma_way_is_read(pl, tree, dir, n, way, i - 1);
        assert(opens(pl, tree, way[i - 1], way[i]));
    }
}

/// Whether every path is read once: in one folder, and there in one place.
pub open spec fn lists_once(tree: Tree) -> bool {
    forall|d: Seq<char>, i: int, e: Seq<char>, j: int|
        0 <= i < tree(d).len() && 0 <= j < tree(e).len() && (#[trigger] tree(d)[i]).0 == (
        #[trigger] tree(e)[j]).0 ==> d == e && i == j
}

/// Whether a path is read in a folder.
pub open spec fn is_listed(tree: Tree, d: Seq<char>, path: Seq<char>) -> bool {
    exists|i: int| 0 <= i < tree(d).len() && (#[trigger] tree(d)[i]).0 == path
}

proof fn lemma_listed_once(pl: Platform, tree: Tree, d: Seq<char>, n: int)
    requires
        lists_once(tree),
        0 <= n <= tree(d).len(),
    ensures
        dirs_in(pl, tree(d).take(n)).no_duplicates(),
        videos_in(pl, tree(d).take(n)).no_duplicates(),
        forall|x: Seq<char>| #[trigger]
            dirs_in(pl, tree(d).take(n)).contains(x) ==> exists|i: int|
                0 <= i < n && (#[trigger] tree(d)[i]).0 == x,
        forall|x: Seq<char>| #[trigger]
            videos_in(pl, tree(d).take(n)).contains(x) ==> exists|i: int|
                0 <= i < n && (#[trigger] tree(d)[i]).0 == x,
    decreases n,
{
    let es = tree(d).take(n);
    if n > 0 {
        lemma_listed_once(pl, tree, d, n - 1);
        let rest = tree(d).take(n - 1);
        assert(es.drop_last() =~= rest);
        let e = tree(d)[n - 1];
        assert(es.last() == e);
        lemma_push_once(tree, d, n, dirs_in(pl, rest));
        lemma_push_once(tree, d, n, videos_in(pl, rest));
    }
}

proof fn lemma_push_once(tree: Tree, d: Seq<char>, n: int, v: Seq<Seq<char>>)
    requires
        lists_once(tree),
        0 < n <= tree(d).len(),
        v.no_duplicates(),
        forall|x: Seq<char>| #[trigger]
            v.contains(x) ==> exists|i: int| 0 <= i < n - 1 && (#[trigger] tree(d)[i]).0 == x,
    ensures
        v.push(tree(d)[n - 1].0).no_duplicates(),
        forall|x: Seq<char>| #[trigger]
            v.push(tree(d)[n - 1].0).contains(x) ==> exists|i: int|
                0 <= i < n && (#[trigger] tree(d)[i]).0 == x,
        forall|x: Seq<char>| #[trigger]
            v.contains(x) ==> exists|i: int| 0 <= i < n && (#[trigger] tree(d)[i]).0 == x,
{
    let new = tree(d)[n - 1].0;
    assert(!v.contains(new)) by {
        if v.contains(new) {
            let i = choose|i: int| 0 <= i < n - 1 && (#[trigger] tree(d)[i]).0 == new;
            assert(tree(d)[i].0 == tree(d)[n - 1].0);
        }
    }
    let all = v.push(new);
    assert forall|i: int, j: int| 0 <= i < all.len() && 0 <= j < all.len() && i != j implies all[i]
        != all[j] by {
        if i < v.len() {
            assert(v.contains(v[i]));
        }
        if j < v.len() {
            assert(v.contains(v[j]));
        }
    }
    assert forall|x: Seq<char>| #[trigger] all.contains(x) implies exists|i: int|
        0 <= i < n && (#[trigger] tree(d)[i]).0 == x by {
        lemma_contains_last(all, x);
        assert(all.drop_last() =~= v);
        if v.contains(x) {
            let i = choose|i: int| 0 <= i < n - 1 && (#[trigger] tree(d)[i]).0 == x;
            assert(tree(d)[i].0 == x);
        } else {
            assert(tree(d)[n - 1].0 == x);
        }
    }
}

proof fn lemma_no_duplicates_sum(a: Seq<Seq<char>>, b: Seq<Seq<char>>)
    requires
        a.no_duplicates(),
        b.no_duplicates(),
        forall|x: Seq<char>| #[trigger] b.contains(x) ==> !a.contains(x),
    ensures
        (a + b).no_duplicates(),
{
    let all = a + b;
    assert forall|i: int, j: int| 0 <= i < all.len() && 0 <= j < all.len() && i != j implies all[i]
        != all[j] by {
        if i < a.len() {
            assert(all[i] == a[i] && a.contains(a[i]));
        } else {
            assert(all[i] == b[i - a.len()] && b.contains(b[i - a.len()]));
        }
        if j < a.len() {
            assert(all[j] == a[j] && a.contains(a[j]));
        } else {
            assert(all[j] == b[j - a.len()] && b.contains(b[j - a.len()]));
        }
    }
}

proof fn lemma_search_once(pl: Platform, tree: Tree, dir: Seq<char>, n: nat)
    requires
        lists_once(tree),
        forall|d: Seq<char>| !#[trigger] is_listed(tree, d, dir),
    ensures
        ({
            let w = searched(pl, tree, dir, n);
            let done = read_so_far(pl, tree, dir, n);
            &&& w.0.no_duplicates()
            &&& w.1.no_duplicates()
            &&& forall|d: Seq<char>| #[trigger] w.0.contains(d) ==> !done.contains(d)
            &&& forall|d: Seq<char>|
                d != dir && (#[trigger] w.0.contains(d) || done.contains(d)) ==> exists|e: Seq<char>|
                    done.contains(e) && #[trigger] is_listed(tree, e, d)
            &&& forall|v: Seq<char>| #[trigger]
                w.1.contains(v) ==> exists|e: Seq<char>|
                    done.contains(e) && #[trigger] is_listed(tree, e, v)
        }),
    decreases n,
{
    let w = searched(pl, tree, dir, n);
    let done = read_so_far(pl, tree, dir, n);
    if n == 0 {
        assert forall|d: Seq<char>| #[trigger] w.0.contains(d) implies d == dir by {}
    } else {
        let m = (n - 1) as nat;
        lemma_search_once(pl, tree, dir, m);
        let v = searched(pl, tree, dir, m);
        let before = read_so_far(pl, tree, dir, m);
        if v.0.len() > 0 {
            let at = v.0.last();
            let es = tree(at);
            let left = v.0.drop_last();
            let (ds, vs) = (dirs_in(pl, es), videos_in(pl, es));
            assert(es.take(es.len() as int) =~= es);
            lemma_listed_once(pl, tree, at, es.len() as int);
            lemma_contains_last(v.0, at);
            assert(!before.contains(at));
            assert(!left.contains(at)) by {
                if left.contains(at) {
                    let i = left.index_of(at);
                    assert(v.0[i] == at && v.0[v.0.len() - 1] == at);
                }
            }
            // What is read here was read nowhere before.
            assert forall|x: Seq<char>, e: Seq<char>|
                is_listed(tree, at, x) && #[trigger] is_listed(tree, e, x) implies e == at by {
                let i = choose|i: int| 0 <= i < tree(at).len() && (#[trigger] tree(at)[i]).0 == x;
                let j = choose|j: int| 0 <= j < tree(e).len() && (#[trigger] tree(e)[j]).0 == x;
                assert(tree(at)[i].0 == tree(e)[j].0);
            }
            assert forall|x: Seq<char>| #[trigger] ds.contains(x) implies is_listed(
                tree,
                at,
                x,
            ) && !left.contains(x) && !done.contains(x) by {
                let i = choose|i: int| 0 <= i < es.len() && (#[trigger] tree(at)[i]).0 == x;
                assert(tree(at)[i].0 == x);
                assert(is_listed(tree, at, x));
                lemma_contains_last(v.0, x);
                if left.contains(x) || before.contains(x) {
                    assert(v.0.contains(x) || before.contains(x));
                    let e = choose|e: Seq<char>|
                        before.contains(e) && #[trigger] is_listed(tree, e, x);
                    assert(e == at);
                }
                if x == at && at != dir {
                    let e = choose|e: Seq<char>|
                        before.contains(e) && #[trigger] is_listed(tree, e, x);
                    assert(e == at);
                }
            }
            assert forall|x: Seq<char>| #[trigger] vs.contains(x) implies is_listed(
                tree,
                at,
                x,
            ) && !v.1.contains(x) by {
                let i = choose|i: int| 0 <= i < es.len() && (#[trigger] tree(at)[i]).0 == x;
                assert(tree(at)[i].0 == x);
                assert(is_listed(tree, at, x));
                if v.1.contains(x) {
                    let e = choose|e: Seq<char>|
                        before.contains(e) && #[trigger] is_listed(tree, e, x);
                    assert(e == at);
                }
            }
            assert(left.no_duplicates());
            lemma_no_duplicates_sum(left, ds);
            lemma_no_duplicates_sum(v.1, vs);
            assert forall|d: Seq<char>| #[trigger] w.0.contains(d) implies !done.contains(d) by {
                lemma_contains_sum(left, ds, d);
                lemma_contains_last(v.0, d);
                if left.contains(d) {
                    assert(v.0.contains(d));
                }
            }
            assert forall|d: Seq<char>|
                d != dir && (#[trigger] w.0.contains(d) || done.contains(d)) implies exists|
                e: Seq<char>,
            |
                done.contains(e) && #[trigger] is_listed(tree, e, d) by {
                lemma_contains_sum(left, ds, d);
                lemma_contains_last(v.0, d);
                if ds.contains(d) {
                    assert(done.contains(at) && is_listed(tree, at, d));
                } else {
                    assert(v.0.contains(d) || before.contains(d));
                    let e = choose|e: Seq<char>|
                        before.contains(e) && #[trigger] is_listed(tree, e, d);
                    assert(done.contains(e) && is_listed(tree, e, d));
                }
            }
            assert forall|x: Seq<char>| #[trigger] w.1.contains(x) implies exists|e: Seq<char>|
                done.contains(e) && #[trigger] is_listed(tree, e, x) by {
                lemma_contains_sum(v.1, vs, x);
                if vs.contains(x) {
                    assert(done.contains(at) && is_listed(tree, at, x));
                } else {
                    let e = choose|e: Seq<char>|
                        before.contains(e) && #[trigger] is_listed(tree, e, x);
                    assert(done.contains(e) && is_listed(tree, e, x));
                }
            }
        }
    }
}

/// Where every path is read once, and the folder where a search begins in no
/// other, each video is found once.
pub proof fn each_video_is_found_once(pl: Platform, tree: Tree, dir: Seq<char>, n: nat)
    requires
        lists_once(tree),
        forall|d: Seq<char>| !#[trigger] is_listed(tree, d, dir),
    ensures
        searched(pl, tree, dir, n).1.no_duplicates(),
{
    lemma_search_once(pl, tree, dir, n);
}

/// Videos are listed in the order of paths. Where each was found once, each is
/// listed once; and where no two of them have the same names, they are listed in
/// strictly ascending order.
pub proof fn videos_are_listed_in_order(pl: Platform, found: Seq<Seq<char>>)
    ensures
        ({
            let keys = path_keys(pl, found);
            let r = arranged(found, order_of(keys));
            &&& r.len() == found.len()
            &&& forall|v: Seq<char>| #[trigger] r.contains(v) <==> found.contains(v)
            &&& forall|i: int, j: int|
                0 <= i < j < r.len() ==> before(
                    path_key(pl, #[trigger] r[i]),
                    path_key(pl, #[trigger] r[j]),
                ) || path_key(pl, r[i]) == path_key(pl, r[j])
            &&& keys.no_duplicates() ==> forall|i: int, j: int|
                0 <= i < j < r.len() ==> before(
                    path_key(pl, #[trigger] r[i]),
                    path_key(pl, #[trigger] r[j]),
                )
            &&& found.no_duplicates() ==> r.no_duplicates()
        }),
{
    let keys = path_keys(pl, found);
    let o = order_of(keys);
    let r = arranged(found, o);
    let n = found.len() as int;
    order_is_sorted(keys);
    sorting_keeps_all(keys, o, n);
    assert forall|i: int| 0 <= i < n implies #[trigger] r[i] == found[o[i]] && 0 <= o[i] < n by {}
    assert forall|i: int, j: int| 0 <= i < j < r.len() implies before(
        path_key(pl, #[trigger] r[i]),
        path_key(pl, #[trigger] r[j]),
    ) || (path_key(pl, r[i]) == path_key(pl, r[j]) && !keys.no_duplicates()) by {
        assert(goes_before(keys, o[i], o[j]));
        assert(keys[o[i]] == path_key(pl, r[i]) && keys[o[j]] == path_key(pl, r[j]));
        assert(o[i] != o[j]);
    }
    assert forall|v: Seq<char>| #[trigger] r.contains(v) <==> found.contains(v) by {
        if r.contains(v) {
            let i = r.index_of(v);
            assert(found[o[i]] == v);
        }
        if found.contains(v) {
            let k = found.index_of(v);
            assert(o.to_set().contains(k));
            let i = choose|i: int| 0 <= i < o.len() && o[i] == k;
            assert(r[i] == v);
        }
    }
    if found.no_duplicates() {
        assert forall|i: int, j: int| 0 <= i < r.len() && 0 <= j < r.len() && i != j implies r[i]
            != r[j] by {
            assert(o[i] != o[j]);
            assert(found[o[i]] != found[o[j]]);
        }
    }
}

/// Whether a path is that of an entry of a folder: a name joined to it.
pub open spec fn is_entry(pl: Platform, d: Seq<char>, path: Seq<char>) -> bool {
    exists|name: Seq<char>|
        is_plain_name(pl, name) && prefix_len(pl, name) == 0 && path == #[trigger] joined(
            pl,
            d,
            name,
        )
}

/// Whether what is read in folders are their entries.
pub open spec fn reads_entries(pl: Platform, tree: Tree) -> bool {
    forall|d: Seq<char>, i: int|
        0 <= i < tree(d).len() ==> is_entry(pl, d, (#[trigger] tree(d)[i]).0)
}

/// Some entries without the folders that output goes to.
pub open spec fn without_outputs(
    pl: Platform,
    es: Seq<(Seq<char>, EntryKind)>,
) -> Seq<(Seq<char>, EntryKind)>
    decreases es.len(),
{
    if es.len() == 0 {
        seq![]
    } else {
        let rest = without_outputs(pl, es.drop_last());
        if es.last().1 == EntryKind::Dir && is_output_dir(pl, es.last().0) {
            rest
        } else {
            rest.push(es.last())
        }
    }
}

proof fn lemma_without_outputs(pl: Platform, es: Seq<(Seq<char>, EntryKind)>)
    ensures
        dirs_in(pl, without_outputs(pl, es)) == dirs_in(pl, es),
        videos_in(pl, without_outputs(pl, es)) == videos_in(pl, es),
    decreases es.len(),
{
    if es.len() > 0 {
        lemma_without_outputs(pl, es.drop_last());
        let all = without_outputs(pl, es);
        if !(es.last().1 == EntryKind::Dir && is_output_dir(pl, es.last().0)) {
            assert(all.drop_last() =~= without_outputs(pl, es.drop_last()));
        }
    }
}

/// What holds of every folder a search comes to.
spec fn is_inside(pl: Platform, dir: Seq<char>, d: Seq<char>) -> bool {
    &&& takes_names(pl, d)
    &&& takes_names(pl, home(pl, d))
    &&& home(pl, d).len() >= home(pl, dir).len()
    &&& d == dir || (!is_output_dir(pl, d) && home(pl, d) == d)
}

/// What holds of every video a search finds.
spec fn is_found_inside(pl: Platform, dir: Seq<char>, f: Seq<char>) -> bool {
    exists|d: Seq<char>| #[trigger] is_inside(pl, dir, d) && is_entry(pl, d, f)
}

proof fn lemma_search_stays_inside(pl: Platform, tree: Tree, dir: Seq<char>, n: nat)
    requires
        takes_names(pl, dir),
        takes_names(pl, home(pl, dir)),
        reads_entries(pl, tree),
    ensures
        forall|d: Seq<char>| #[trigger]
            searched(pl, tree, dir, n).0.contains(d) ==> is_inside(pl, dir, d),
        forall|f: Seq<char>| #[trigger]
            searched(pl, tree, dir, n).1.contains(f) ==> is_found_inside(pl, dir, f),
    decreases n,
{
    let w = searched(pl, tree, dir, n);
    if n > 0 {
        let v = searched(pl, tree, dir, (n - 1) as nat);
        lemma_search_stays_inside(pl, tree, dir, (n - 1) as nat);
        if v.0.len() > 0 {
            let at = v.0.last();
            let es = tree(at);
            lemma_contains_last(v.0, at);
            assert(v.0.contains(at));
            assert forall|d: Seq<char>| #[trigger] w.0.contains(d) implies is_inside(
                pl,
                dir,
                d,
            ) by {
                lemma_contains_sum(v.0.drop_last(), dirs_in(pl, es), d);
                lemma_contains_last(v.0, d);
                lemma_dirs_in(pl, es, d);
                if dirs_in(pl, es).contains(d) {
                    let i = es.index_of((d, EntryKind::Dir));
                    assert(is_entry(pl, at, tree(at)[i].0));
                    let name = choose|name: Seq<char>|
                        is_plain_name(pl, name) && prefix_len(pl, name) == 0 && d
                            == #[trigger] joined(pl, at, name);
                    joined_name_is_last(pl, at, name);
                } else {
                    assert(v.0.contains(d));
                }
            }
            assert forall|f: Seq<char>| #[trigger] w.1.contains(f) implies is_found_inside(
                pl,
                dir,
                f,
            ) by {
                lemma_contains_sum(v.1, videos_in(pl, es), f);
                lemma_videos_in(pl, es, f);
                if videos_in(pl, es).contains(f) {
                    let i = es.index_of((f, EntryKind::File));
                    assert(is_entry(pl, at, tree(at)[i].0));
                    assert(is_inside(pl, dir, at));
                } else {
                    assert(v.1.contains(f));
                }
            }
        }
    } else {
        assert forall|d: Seq<char>| #[trigger] w.0.contains(d) implies is_inside(pl, dir, d) by {
            assert(d == dir);
        }
    }
}

proof fn lemma_output_name_has_no_drive(pl: Platform, name: Seq<char>)
    requires
        is_plain_name(pl, name),
        prefix_len(pl, name) == 0,
    ensures
        prefix_len(pl, stem_of(name) + ".mp4"@) == 0,
{
    reveal_strlit(".mp4");
    lemma_last_dot(name);
    let stem = stem_of(name);
    let t = stem + ".mp4"@;
    assert(!is_sep(pl, name[0]));
    assert(stem.len() >= 1);
    assert(t[0] == name[0]);
    if stem.len() == 1 {
        assert(t[1] == ".mp4"@[0]);
    } else {
        assert(t[1] == name[1]);
    }
}

/// Where the output of a found video goes is no folder that is searched, nor is
/// the output a video that was found.
proof fn lemma_output_is_elsewhere(
    pl: Platform,
    dir: Seq<char>,
    f: Seq<char>,
    d: Seq<char>,
    g: Seq<char>,
)
    requires
        is_found_inside(pl, dir, f),
        is_inside(pl, dir, d),
        is_entry(pl, d, g),
    ensures
        d != out_dir_of(pl, f),
        g != out_path_of(pl, f),
{
    let e = choose|e: Seq<char>| #[trigger] is_inside(pl, dir, e) && is_entry(pl, e, f);
    let name = choose|name: Seq<char>|
        is_plain_name(pl, name) && prefix_len(pl, name) == 0 && f == #[trigger] joined(pl, e, name);
    joined_name_is_last(pl, e, name);
    lemma_output_name_has_no_drive(pl, name);
    assert(!stem_of(name).contains('/')) by {
        lemma_last_dot(name);
        assert forall|i: int| 0 <= i < stem_of(name).len() implies stem_of(name)[i] != '/' by {
            assert(!is_sep(pl, name[i]));
        }
    }
    output_lands_beside_its_source(pl, f);
    let out = out_dir_of(pl, f);
    reveal_strlit("reencoded");
    let word = "reencoded"@;
    assert(is_plain_name(pl, word)) by {
        assert(seq!['.'].len() == 1 && seq!['.', '.'].len() == 2);
        assert forall|i: int| 0 <= i < word.len() implies !is_sep(pl, #[trigger] word[i]) by {}
    }
    home_is_kept(pl, e);
    joined_name_is_last(pl, home(pl, e), word);
    assert(ascii_lower(word) =~= word);
    assert(is_output_dir(pl, out));
    let other = choose|other: Seq<char>|
        is_plain_name(pl, other) && prefix_len(pl, other) == 0 && g == #[trigger] joined(
            pl,
            d,
            other,
        );
    joined_name_is_last(pl, d, other);
}

/// What has been encoded is never found as a source. Where the outputs of all
/// the videos that a search found are made, the same search finds the same
/// videos again, and none of the outputs. Making outputs changes what is read in
/// the folders they go to; elsewhere it can only add such a folder.
pub proof fn outputs_are_never_sources(
    pl: Platform,
    before: Tree,
    after: Tree,
    dir: Seq<char>,
    n: nat,
)
    requires
        takes_names(pl, dir),
        takes_names(pl, home(pl, dir)),
        reads_entries(pl, before),
        searched(pl, before, dir, n).0.len() == 0,
        forall|d: Seq<char>|
            (forall|f: Seq<char>|
                searched(pl, before, dir, n).1.contains(f) ==> d != #[trigger] out_dir_of(pl, f))
                ==> without_outputs(pl, #[trigger] after(d)) == without_outputs(pl, before(d)),
    ensures
        searched(pl, after, dir, n) == searched(pl, before, dir, n),
        forall|f: Seq<char>|
            searched(pl, before, dir, n).1.contains(f) ==> !searched(pl, after, dir, n).1.contains(
                #[trigger] out_path_of(pl, f),
            ),
{
    lemma_search_stays_inside(pl, before, dir, n);
    let found = searched(pl, before, dir, n).1;
    lemma_same_search(pl, before, after, dir, found, n);
    assert forall|f: Seq<char>| found.contains(f) implies !found.contains(
        #[trigger] out_path_of(pl, f),
    ) by {
        let g = out_path_of(pl, f);
        if found.contains(g) {
            assert(is_found_inside(pl, dir, g));
            let d = choose|d: Seq<char>| #[trigger] is_inside(pl, dir, d) && is_entry(pl, d, g);
            lemma_output_is_elsewhere(pl, dir, f, d, g);
        }
    }
}

proof fn lemma_same_search(
    pl: Platform,
    before: Tree,
    after: Tree,
    dir: Seq<char>,
    found: Seq<Seq<char>>,
    k: nat,
)
    requires
        takes_names(pl, dir),
        takes_names(pl, home(pl, dir)),
        reads_entries(pl, before),
        forall|f: Seq<char>| #[trigger] found.contains(f) ==> is_found_inside(pl, dir, f),
        forall|d: Seq<char>|
            (forall|f: Seq<char>| found.contains(f) ==> d != #[trigger] out_dir_of(pl, f))
                ==> without_outputs(pl, #[trigger] after(d)) == without_outputs(pl, before(d)),
    ensures
        searched(pl, after, dir, k) == searched(pl, before, dir, k),
    decreases k,
{
    if k > 0 {
        lemma_same_search(pl, before, after, dir, found, (k - 1) as nat);
        lemma_search_stays_inside(pl, before, dir, (k - 1) as nat);
        let w = searched(pl, before, dir, (k - 1) as nat);
        if w.0.len() > 0 {
            let at = w.0.last();
            lemma_contains_last(w.0, at);
            assert(w.0.contains(at));
            assert forall|f: Seq<char>| found.contains(f) implies at != #[trigger] out_dir_of(
                pl,
                f,
            ) by {
                lemma_folder_is_elsewhere(pl, dir, f, at);
            }
            lemma_without_outputs(pl, after(at));
            lemma_without_outputs(pl, before(at));
        }
    }
}

proof fn lemma_folder_is_elsewhere(pl: Platform, dir: Seq<char>, f: Seq<char>, d: Seq<char>)
    requires
        is_found_inside(pl, dir, f),
        is_inside(pl, dir, d),
    ensures
        d != out_dir_of(pl, f),
{
    reveal_strlit("x");
    let name = "x"@;
    assert(is_plain_name(pl, name)) by {
        assert(name[0] == 'x');
        assert(seq!['.'][0] == '.' && seq!['.', '.'].len() == 2);
    }
    assert(is_entry(pl, d, joined(pl, d, name)));
    lemma_output_is_elsewhere(pl, dir, f, d, joined(pl, d, name));
}

/// A video is known by one of four extensions, in whatever case: mp4, mkv, avi and
/// mov. Nothing else is a video, and neither is a name without an extension.
pub proof fn videos_are_known_by_their_extension(
    pl: Platform,
    dir: Seq<char>,
    stem: Seq<char>,
    ext: Seq<char>,
)
    requires
        takes_names(pl, dir),
        stem.len() > 0,
        ext.len() > 0,
        !ext.contains('.'),
        is_plain_name(pl, stem + seq!['.'] + ext),
        prefix_len(pl, stem + seq!['.'] + ext) == 0,
        crate::text::all_ascii(ext),
    ensures
        ({
            let e = ascii_lower(ext);
            is_video(pl, joined(pl, dir, stem + seq!['.'] + ext)) <==> e == "mp4"@ || e == "mkv"@ || e
                == "avi"@ || e == "mov"@
        }),
{
    let name = stem + seq!['.'] + ext;
    joined_name_is_last(pl, dir, name);
    crate::path::name_is_cut_at_its_last_dot(stem, ext);
}

/// Folders that output goes to are named reencoded, in whatever case, and no others
/// are.
pub proof fn output_folders_are_known_by_their_name(pl: Platform, dir: Seq<char>, name: Seq<char>)
    requires
        takes_names(pl, dir),
        is_plain_name(pl, name),
        prefix_len(pl, name) == 0,
    ensures
        is_output_dir(pl, joined(pl, dir, name)) <==> ascii_lower(name) == "reencoded"@,
{
    joined_name_is_last(pl, dir, name);
}

/// Every folder among the entries is searched, but for those that output goes to.
pub proof fn all_folders_are_searched(pl: Platform, es: Seq<(Seq<char>, EntryKind)>, i: int)
    requires
        0 <= i < es.len(),
        es[i].1 == EntryKind::Dir,
        !is_output_dir(pl, es[i].0),
    ensures
        dirs_in(pl, es).contains(es[i].0),
    decreases es.len(),
{
    let rest = dirs_in(pl, es.drop_last());
    if i < es.len() - 1 {
        assert(es.drop_last()[i] == es[i]);
        all_folders_are_searched(pl, es.drop_last(), i);
        let k = choose|k: int| 0 <= k < rest.len() && rest[k] == es[i].0;
        assert(dirs_in(pl, es)[k] == es[i].0);
    } else {
        assert(dirs_in(pl, es).last() == es[i].0);
    }
}

/// Only files are found as videos, and only folders are searched.
pub proof fn kinds_are_kept_apart(pl: Platform, es: Seq<(Seq<char>, EntryKind)>, p: Seq<char>)
    ensures
        videos_in(pl, es).contains(p) ==> es.contains((p, EntryKind::File)),
        dirs_in(pl, es).contains(p) ==> es.contains((p, EntryKind::Dir)),
    decreases es.len(),
{
    if es.len() > 0 {
        let less = es.drop_last();
        kinds_are_kept_apart(pl, less, p);
        lemma_contains_more(less, es.last(), (p, EntryKind::File));
        lemma_contains_more(less, es.last(), (p, EntryKind::Dir));
        assert(less.push(es.last()) =~= es);
        lemma_found_was_there(videos_in(pl, less), es.last().0, p);
        lemma_found_was_there(dirs_in(pl, less), es.last().0, p);
    }
}

proof fn lemma_contains_more(
    a: Seq<(Seq<char>, EntryKind)>,
    x: (Seq<char>, EntryKind),
    y: (Seq<char>, EntryKind),
)
    ensures
        a.contains(y) ==> a.push(x).contains(y),
        a.push(x).contains(x),
{
    let b = a.push(x);
    assert(b[a.len() as int] == x);
    if a.contains(y) {
        let i = choose|i: int| 0 <= i < a.len() && a[i] == y;
        assert(b[i] == y);
    }
}

proof fn lemma_found_was_there(a: Seq<Seq<char>>, x: Seq<char>, y: Seq<char>)
    ensures
        a.push(x).contains(y) ==> a.contains(y) || x == y,
{
    let b = a.push(x);
    if b.contains(y) && x != y {
        let i = choose|i: int| 0 <= i < b.len() && b[i] == y;
        assert(a[i] == y);
    }
}

/// Paths are ordered name by name: of two names in the same folder the one whose
/// characters come first does, and a folder comes before what it holds.
pub proof fn names_decide_the_order(
    folder: Seq<Seq<char>>,
    shared: Seq<char>,
    x: char,
    y: char,
    a: Seq<char>,
    b: Seq<char>,
)
    requires
        x < y,
        shared.len() > 0,
        shared[0] != '.',
    ensures
        ({
            let first = shared + seq![x] + a;
            let second = shared + seq![y] + b;
            &&& before(names_key(folder.push(first)), names_key(folder.push(second)))
            &&& before(names_key(folder.push(shared)), names_key(folder.push(first)))
            &&& before(names_key(folder), names_key(folder.push(first)))
        }),
{
    let first = shared + seq![x] + a;
    let second = shared + seq![y] + b;
    assert(first[0] == shared[0] && second[0] == shared[0]);
    assert(folder.push(first).drop_last() =~= folder);
    assert(folder.push(second).drop_last() =~= folder);
    assert(folder.push(shared).drop_last() =~= folder);
    let p = names_key(folder) + seq![4u32] + char_keys(shared);
    let (kx, ky) = ((x as u32 + 5) as u32, (y as u32 + 5) as u32);
    assert(names_key(folder.push(first)) =~= p + seq![kx] + char_keys(a));
    assert(names_key(folder.push(second)) =~= p + seq![ky] + char_keys(b));
    assert(names_key(folder.push(shared)) =~= p);
    first_difference_decides(p, kx, ky, char_keys(a), char_keys(b));
    let rest = char_keys(first);
    assert(names_key(folder.push(first)) =~= names_key(folder) + seq![4u32] + rest);
    first_difference_decides(names_key(folder), 4, 5, rest, rest);
}

} // verus!
