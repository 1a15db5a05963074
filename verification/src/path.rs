//! Paths as text: the last name, its stem and extension, the parent and joining.
//! Both the Unix and the Windows notation are understood; the platform is an
//! argument, so a client can also handle the paths of the other side.
use vstd::prelude::*;
use vstd::string::*;
use crate::text::{char_texts, chars_of, string_of, sub_chars};

verus! {

/// Whose path notation a text is in.
#[derive(Clone, Copy, PartialEq, Eq, Structural, Debug)]
pub enum Platform {
    Unix,
    Windows,
}

/// Whether `c` separates the names of a path.
pub open spec fn is_sep(p: Platform, c: char) -> bool {
    c == '/' || (p == Platform::Windows && c == '\\')
}

/// Decides [`is_sep`].
pub fn sep(p: Platform, c: char) -> (r: bool)
    ensures
        r == is_sep(p, c),
{
    c == '/' || (p == Platform::Windows && c == '\\')
}

/// The separator a path is joined with.
pub open spec fn main_sep(p: Platform) -> char {
    match p {
        Platform::Unix => '/',
        Platform::Windows => '\\',
    }
}

/// Whether a Windows path is a verbatim one (`\\?\`). In those only the backslash
/// separates, and a dot is a name like any other.
pub open spec fn is_verbatim(p: Platform, s: Seq<char>) -> bool {
    &&& p == Platform::Windows
    &&& s.len() >= 4
    &&& s[0] == '\\'
    &&& s[1] == '\\'
    &&& s[2] == '?'
    &&& s[3] == '\\'
}

/// Whether `c` separates the names of a path that is verbatim or not.
pub open spec fn cuts(p: Platform, v: bool, c: char) -> bool {
    is_sep(p, c) && (v ==> c == '\\')
}

/// The first separator at or after `i`, or the length of `s`.
pub open spec fn sep_from(p: Platform, v: bool, s: Seq<char>, i: int) -> int
    decreases s.len() - i,
{
    if i < 0 || i >= s.len() {
        s.len() as int
    } else if cuts(p, v, s[i]) {
        i
    } else {
        sep_from(p, v, s, i + 1)
    }
}

/// Whether a character is an ASCII letter.
pub open spec fn is_letter(c: char) -> bool {
    ('a' <= c <= 'z') || ('A' <= c <= 'Z')
}

/// Whether a drive (`C:`) stands in `s` at `i`.
pub open spec fn drive_at(s: Seq<char>, i: int) -> bool {
    s.len() >= i + 2 && is_letter(s[i]) && s[i + 1] == ':'
}

/// Where the share behind a server that begins at `i` ends; where the server ends
/// if there is no share.
pub open spec fn share_end(p: Platform, v: bool, s: Seq<char>, i: int) -> int {
    let server = sep_from(p, v, s, i);
    let share = sep_from(p, v, s, server + 1);
    if share > server + 1 {
        share
    } else {
        server
    }
}

/// How much of a Windows path is its prefix: a drive (`C:`), a server and a share
/// (`\\server\share`), a device (`\\.\COM1`), or a verbatim drive, share or name
/// (`\\?\C:`, `\\?\UNC\server\share`, `\\?\name`). Unix paths have none.
pub open spec fn prefix_len(p: Platform, s: Seq<char>) -> int {
    if p == Platform::Unix {
        0
    } else if is_verbatim(p, s) {
        if s.len() >= 8 && s[4] == 'U' && s[5] == 'N' && s[6] == 'C' && is_sep(p, s[7]) {
            share_end(p, true, s, 8)
        } else if drive_at(s, 4) && (s.len() == 6 || is_sep(p, s[6])) {
            6
        } else {
            sep_from(p, true, s, 4)
        }
    } else if s.len() >= 2 && is_sep(p, s[0]) && is_sep(p, s[1]) {
        if s.len() >= 4 && s[2] == '.' && is_sep(p, s[3]) {
            sep_from(p, false, s, 4)
        } else {
            let server = sep_from(p, false, s, 2);
            let share = share_end(p, false, s, 2);
            if server > 2 && share > server {
                share
            } else {
                0
            }
        }
    } else if drive_at(s, 0) {
        2
    } else {
        0
    }
}

/// Whether a root separator follows the prefix.
pub open spec fn has_root(p: Platform, s: Seq<char>) -> bool {
    prefix_len(p, s) < s.len() && is_sep(p, s[prefix_len(p, s)])
}

/// How much of `s` is prefix and root: the part that no name belongs to.
pub open spec fn root_len(p: Platform, s: Seq<char>) -> int {
    prefix_len(p, s) + if has_root(p, s) {
        1int
    } else {
        0int
    }
}

/// `s` without what stands for nothing at its end: separators and `.` names.
/// The first `root` characters are kept whatever they are, and in verbatim paths
/// the `.` names too.
pub open spec fn clean(p: Platform, v: bool, s: Seq<char>, root: int) -> Seq<char>
    decreases s.len(),
{
    if s.len() <= root || s.len() == 0 {
        s
    } else if cuts(p, v, s.last()) {
        clean(p, v, s.drop_last(), root)
    } else if !v && s.last() == '.' && s.len() - 1 > 0 && s.len() - 1 >= root && cuts(
        p,
        v,
        s[s.len() - 2],
    ) {
        clean(p, v, s.drop_last(), root)
    } else {
        s
    }
}

/// A path without what stands for nothing at its end.
pub open spec fn tidy(p: Platform, s: Seq<char>) -> Seq<char> {
    clean(p, is_verbatim(p, s), s, root_len(p, s))
}

/// Where the last name of `s` begins.
pub open spec fn name_start(p: Platform, v: bool, s: Seq<char>, root: int) -> int
    decreases s.len(),
{
    if s.len() <= root || s.len() == 0 {
        s.len() as int
    } else if cuts(p, v, s.last()) {
        s.len() as int
    } else {
        name_start(p, v, s.drop_last(), root)
    }
}

/// The directory that holds what `s` names; nothing for a root or an empty path.
#[verifier::opaque]
pub open spec fn parent_of(p: Platform, s: Seq<char>) -> Option<Seq<char>> {
    let v = is_verbatim(p, s);
    let root = root_len(p, s);
    let c = tidy(p, s);
    if c.len() <= root {
        None
    } else {
        Some(clean(p, v, c.take(name_start(p, v, c, root)), root))
    }
}

/// The last of the names of `s`, `.` and `..` among them.
#[verifier::opaque]
pub open spec fn last_name(p: Platform, s: Seq<char>) -> Seq<char> {
    let c = tidy(p, s);
    c.skip(name_start(p, is_verbatim(p, s), c, root_len(p, s)))
}

/// The last name of `s`; nothing where that is a root, `.` or `..`.
pub open spec fn file_name_of(p: Platform, s: Seq<char>) -> Option<Seq<char>> {
    let name = last_name(p, s);
    if parent_of(p, s) is None || name == seq!['.'] || name == seq!['.', '.'] {
        None
    } else {
        Some(name)
    }
}

/// The last position of a dot in `s`, or -1.
pub open spec fn last_dot(s: Seq<char>) -> int
    decreases s.len(),
{
    if s.len() == 0 {
        -1
    } else if s.last() == '.' {
        s.len() - 1
    } else {
        last_dot(s.drop_last())
    }
}

/// A file name without its extension. A leading dot starts no extension.
pub open spec fn stem_of(name: Seq<char>) -> Seq<char> {
    if last_dot(name) <= 0 {
        name
    } else {
        name.take(last_dot(name))
    }
}

/// The extension of a file name: what follows its last dot.
pub open spec fn extension_of_name(name: Seq<char>) -> Option<Seq<char>> {
    if last_dot(name) <= 0 {
        None
    } else {
        Some(name.skip(last_dot(name) + 1))
    }
}

/// The stem of the last name of `s`.
pub open spec fn file_stem_of(p: Platform, s: Seq<char>) -> Option<Seq<char>> {
    match file_name_of(p, s) {
        Some(n) => Some(stem_of(n)),
        None => None,
    }
}

/// The extension of the last name of `s`.
pub open spec fn extension_of(p: Platform, s: Seq<char>) -> Option<Seq<char>> {
    match file_name_of(p, s) {
        Some(n) => extension_of_name(n),
        None => None,
    }
}

/// The names of a path behind its root.
pub open spec fn names_of(p: Platform, s: Seq<char>) -> Seq<Seq<char>>
    decreases s.len(),
{
    match parent_of(p, s) {
        Some(d) => if d.len() < s.len() {
            names_of(p, d).push(last_name(p, s))
        } else {
            seq![]
        },
        None => seq![],
    }
}

/// Names with a separator before each.
pub open spec fn listed(p: Platform, names: Seq<Seq<char>>) -> Seq<char>
    decreases names.len(),
{
    if names.len() == 0 {
        seq![]
    } else {
        listed(p, names.drop_last()) + seq![main_sep(p)] + names.last()
    }
}

/// Names after one more name has been followed: `.` stays, `..` goes up.
pub open spec fn followed(names: Seq<Seq<char>>, name: Seq<char>) -> Seq<Seq<char>> {
    if name == seq!['.'] {
        names
    } else if name == seq!['.', '.'] {
        if names.len() > 0 && names.last() != seq!['.'] && names.last() != seq!['.', '.'] {
            names.drop_last()
        } else {
            names
        }
    } else {
        names.push(name)
    }
}

/// Names after more names have been followed.
pub open spec fn followed_all(names: Seq<Seq<char>>, more: Seq<Seq<char>>) -> Seq<Seq<char>>
    decreases more.len(),
{
    if more.len() == 0 {
        names
    } else {
        followed(followed_all(names, more.drop_last()), more.last())
    }
}

/// A name seen from a verbatim directory: its names are followed at once.
pub open spec fn joined_verbatim(p: Platform, dir: Seq<char>, name: Seq<char>) -> Seq<char> {
    let from = if has_root(p, name) {
        seq![]
    } else {
        names_of(p, dir)
    };
    let names = followed_all(from, names_of(p, name));
    dir.take(prefix_len(p, dir)) + if names.len() == 0 && (has_root(p, dir) || has_root(p, name)) {
        seq![main_sep(p)]
    } else {
        listed(p, names)
    }
}

/// `name` seen from the directory `dir`. A rooted name stands for itself.
#[verifier::opaque]
pub open spec fn joined(p: Platform, dir: Seq<char>, name: Seq<char>) -> Seq<char> {
    if prefix_len(p, name) > 0 || (p == Platform::Unix && has_root(p, name)) {
        name
    } else if is_verbatim(p, dir) && name.len() > 0 {
        joined_verbatim(p, dir, name)
    } else if has_root(p, name) {
        dir.take(prefix_len(p, dir)) + name
    } else if dir.len() == 0 || is_sep(p, dir.last()) || (dir.len() == 2 && prefix_len(p, dir)
        == 2) {
        dir + name
    } else {
        dir + seq![main_sep(p)] + name
    }
}

/// A prefix as it is compared: with the one separator, and the drive in upper case.
pub open spec fn plain_prefix(p: Platform, s: Seq<char>) -> Seq<char> {
    let v = is_verbatim(p, s);
    let n = prefix_len(p, s);
    Seq::new(
        n as nat,
        |i: int|
            if cuts(p, v, s[i]) {
                main_sep(p)
            } else if i == n - 2 && drive_at(s, i) && (n == 2 || (v && n == 6)) {
                upper_letter(s[i])
            } else {
                s[i]
            },
    )
}

/// A letter in upper case.
pub open spec fn upper_letter(c: char) -> char {
    if 'a' <= c <= 'z' {
        (c as u32 - 32) as char
    } else {
        c
    }
}

/// Whether a path begins at a root. A server with a share, and a device, has one
/// though no separator follows.
pub open spec fn is_rooted(p: Platform, s: Seq<char>) -> bool {
    has_root(p, s) || (prefix_len(p, s) > 2 && !is_verbatim(p, s))
}

/// A path as it is compared: two paths are the same where this is. Separators
/// that are doubled or stand at the end, and `.` names, make no difference.
pub open spec fn plain_form(p: Platform, s: Seq<char>) -> Seq<char> {
    let names = names_of(p, s);
    plain_prefix(p, s) + if is_rooted(p, s) {
        if names.len() == 0 {
            seq![main_sep(p)]
        } else {
            listed(p, names)
        }
    } else {
        if names.len() == 0 {
            seq![]
        } else {
            listed(p, names).skip(1)
        }
    }
}

// ---------------------------------------------------------------- facts
proof fn lemma_sep_from(p: Platform, v: bool, s: Seq<char>, i: int)
    requires
        0 <= i,
    ensures
        i <= s.len() ==> i <= sep_from(p, v, s, i),
        sep_from(p, v, s, i) <= s.len(),
        sep_from(p, v, s, i) < s.len() ==> i <= sep_from(p, v, s, i) && cuts(
            p,
            v,
            s[sep_from(p, v, s, i)],
        ),
    decreases s.len() - i,
{
    if i < s.len() && !cuts(p, v, s[i]) {
        lemma_sep_from(p, v, s, i + 1);
    }
}

proof fn lemma_share_end(p: Platform, v: bool, s: Seq<char>, i: int)
    requires
        0 <= i <= s.len(),
    ensures
        i <= sep_from(p, v, s, i) <= share_end(p, v, s, i) <= s.len(),
        share_end(p, v, s, i) < s.len() ==> cuts(p, v, s[share_end(p, v, s, i)]),
{
    lemma_sep_from(p, v, s, i);
    lemma_sep_from(p, v, s, sep_from(p, v, s, i) + 1);
}

pub proof fn lemma_root_len(p: Platform, s: Seq<char>)
    ensures
        0 <= prefix_len(p, s) <= root_len(p, s) <= s.len(),
        is_verbatim(p, s) ==> prefix_len(p, s) >= 4,
{
    if s.len() >= 8 {
        lemma_share_end(p, true, s, 8);
    }
    if s.len() >= 4 {
        lemma_sep_from(p, true, s, 4);
        lemma_sep_from(p, false, s, 4);
    }
    if s.len() >= 2 {
        lemma_share_end(p, false, s, 2);
    }
}

pub proof fn lemma_name_start(p: Platform, v: bool, s: Seq<char>, root: int)
    requires
        0 <= root <= s.len(),
    ensures
        root <= name_start(p, v, s, root) <= s.len(),
        forall|i: int| name_start(p, v, s, root) <= i < s.len() ==> !cuts(p, v, #[trigger] s[i]),
    decreases s.len(),
{
    if s.len() > root && !cuts(p, v, s.last()) {
        lemma_name_start(p, v, s.drop_last(), root);
        assert forall|i: int| name_start(p, v, s, root) <= i < s.len() implies !cuts(
            p,
            v,
            #[trigger] s[i],
        ) by {
            if i < s.len() - 1 {
                assert(s[i] == s.drop_last()[i]);
            }
        }
    }
}

pub proof fn lemma_clean(p: Platform, v: bool, s: Seq<char>, root: int)
    requires
        0 <= root <= s.len(),
    ensures
        root <= clean(p, v, s, root).len() <= s.len(),
        clean(p, v, s, root) == s.take(clean(p, v, s, root).len() as int),
        clean(p, v, clean(p, v, s, root), root) == clean(p, v, s, root),
        clean(p, v, s, root).len() > root ==> !cuts(p, v, clean(p, v, s, root).last()),
    decreases s.len(),
{
    if s.len() > root && (cuts(p, v, s.last()) || (!v && s.last() == '.' && s.len() - 1 > 0
        && s.len() - 1 >= root && cuts(p, v, s[s.len() - 2]))) {
        lemma_clean(p, v, s.drop_last(), root);
        let n = clean(p, v, s, root).len() as int;
        assert(s.drop_last().take(n) =~= s.take(n));
    } else {
        assert(s.take(s.len() as int) =~= s);
    }
}

pub proof fn lemma_last_dot(s: Seq<char>)
    ensures
        -1 <= last_dot(s) < s.len(),
    decreases s.len(),
{
    if s.len() > 0 && s.last() != '.' {
        lemma_last_dot(s.drop_last());
    }
}

/// A parent is shorter than what it holds, and begins it.
pub proof fn lemma_parent_is_shorter(p: Platform, s: Seq<char>)
    ensures
        parent_of(p, s) matches Some(d) ==> root_len(p, s) <= d.len() < s.len() && d == s.take(
            d.len() as int,
        ) && clean(p, is_verbatim(p, s), d, root_len(p, s)) == d,
{
    reveal(parent_of);
    let v = is_verbatim(p, s);
    let root = root_len(p, s);
    lemma_root_len(p, s);
    lemma_clean(p, v, s, root);
    let c = tidy(p, s);
    if c.len() > root {
        lemma_name_start(p, v, c, root);
        lemma_name_start(p, v, c.drop_last(), root);
        let k = name_start(p, v, c, root);
        assert(k < c.len());
        lemma_clean(p, v, c.take(k), root);
        let d = clean(p, v, c.take(k), root);
        assert(d =~= s.take(d.len() as int));
    }
}

/// A file name holds no separator, whatever path it was taken from.
pub proof fn file_name_has_no_separator(p: Platform, s: Seq<char>)
    ensures
        file_name_of(p, s) matches Some(n) ==> forall|i: int|
            0 <= i < n.len() ==> !cuts(p, is_verbatim(p, s), #[trigger] n[i]),
{
    reveal(last_name);
    let v = is_verbatim(p, s);
    let root = root_len(p, s);
    lemma_root_len(p, s);
    lemma_clean(p, v, s, root);
    let c = tidy(p, s);
    lemma_name_start(p, v, c, root);
    let k = name_start(p, v, c, root);
    assert forall|i: int| 0 <= i < c.skip(k).len() implies !cuts(p, v, #[trigger] c.skip(k)[i]) by {
        assert(c.skip(k)[i] == c[k + i]);
    }
}

/// Whether a text can be the name of a file: it is not empty, not `.` or `..`,
/// and holds no separator.
pub open spec fn is_plain_name(p: Platform, n: Seq<char>) -> bool {
    &&& n.len() > 0
    &&& n != seq!['.']
    &&& n != seq!['.', '.']
    &&& forall|i: int| 0 <= i < n.len() ==> !is_sep(p, #[trigger] n[i])
}

proof fn lemma_name_start_of(p: Platform, v: bool, d: Seq<char>, n: Seq<char>, root: int)
    requires
        0 <= root <= d.len(),
        d.len() == root || cuts(p, v, d.last()),
        forall|i: int| 0 <= i < n.len() ==> !cuts(p, v, #[trigger] n[i]),
    ensures
        name_start(p, v, d + n, root) == d.len(),
    decreases n.len(),
{
    if n.len() == 0 {
        assert(d + n =~= d);
    } else {
        assert((d + n).drop_last() =~= d + n.drop_last());
        assert((d + n).last() == n.last());
        lemma_name_start_of(p, v, d, n.drop_last(), root);
    }
}

/// Whether a prefix ends where it does whatever follows it. Behind `\\?\UNC\server`
/// a name would be taken for the share.
pub open spec fn is_closed(p: Platform, s: Seq<char>) -> bool {
    prefix_len(p, s.take(prefix_len(p, s)) + seq!['\\', 'x']) == prefix_len(p, s)
}

/// Whether a name that is joined to `dir` is a name in it. That is not so where
/// it becomes a part of the prefix, as the share does behind `\\server`.
pub open spec fn takes_names(p: Platform, dir: Seq<char>) -> bool {
    p == Platform::Unix || if is_verbatim(p, dir) {
        has_root(p, dir) && is_closed(p, dir)
    } else {
        dir.len() >= 2 && is_sep(p, dir[0]) && is_sep(p, dir[1]) && (dir.len() == 2 || !is_sep(
            p,
            dir[2],
        )) ==> {
            ||| prefix_len(p, dir) > 0 && has_root(p, dir)
            ||| prefix_len(p, dir) == 0 && sep_from(p, false, dir, 2) < dir.len() - 1
        }
    }
}

/// A folder as its name stands in the paths of what it holds: without what stands
/// for nothing at its end; and a verbatim one with its names written anew.
pub open spec fn home(p: Platform, dir: Seq<char>) -> Seq<char> {
    if is_verbatim(p, dir) {
        let names = names_of(p, dir);
        dir.take(prefix_len(p, dir)) + if names.len() == 0 {
            seq!['\\']
        } else {
            listed(p, names)
        }
    } else {
        tidy(p, dir)
    }
}

/// Whether `s` is what `t` begins with.
pub open spec fn is_start(s: Seq<char>, t: Seq<char>) -> bool {
    s.len() <= t.len() && forall|k: int| 0 <= k < s.len() ==> #[trigger] t[k] == s[k]
}

proof fn lemma_same_sep(p: Platform, v: bool, s: Seq<char>, t: Seq<char>, i: int)
    requires
        0 <= i,
        is_start(s, t),
        sep_from(p, v, s, i) < s.len() || sep_from(p, v, t, i) < s.len(),
    ensures
        sep_from(p, v, t, i) == sep_from(p, v, s, i),
    decreases t.len() - i,
{
    lemma_sep_from(p, v, t, i);
    if i < s.len() {
        assert(t[i] == s[i]);
        if !cuts(p, v, s[i]) {
            lemma_same_sep(p, v, s, t, i + 1);
        }
    }
}

proof fn lemma_same_share(p: Platform, v: bool, s: Seq<char>, t: Seq<char>, i: int)
    requires
        0 <= i <= s.len(),
        is_start(s, t),
        share_end(p, v, t, i) < s.len(),
    ensures
        sep_from(p, v, s, i) == sep_from(p, v, t, i),
        share_end(p, v, s, i) == share_end(p, v, t, i),
{
    lemma_share_end(p, v, t, i);
    lemma_same_sep(p, v, s, t, i);
    let a = sep_from(p, v, t, i);
    lemma_sep_from(p, v, s, a + 1);
    lemma_sep_from(p, v, t, a + 1);
    if sep_from(p, v, t, a + 1) > a + 1 {
        lemma_same_sep(p, v, s, t, a + 1);
    } else if a + 1 < s.len() {
        assert(t[a + 1] == s[a + 1]);
        assert(sep_from(p, v, t, a + 1) == a + 1);
        lemma_same_sep(p, v, s, t, a + 1);
    }
}

/// The start of a path that holds its root has the same root.
proof fn lemma_same_root(p: Platform, s: Seq<char>, t: Seq<char>)
    requires
        is_start(s, t),
        root_len(p, t) <= s.len(),
        root_len(p, t) < t.len(),
    ensures
        is_verbatim(p, s) == is_verbatim(p, t),
        prefix_len(p, s) == prefix_len(p, t),
        root_len(p, s) == root_len(p, t),
{
    lemma_root_len(p, t);
    let n = prefix_len(p, t);
    if s.len() > 0 {
        assert(t[0] == s[0]);
    }
    if s.len() > 1 {
        assert(t[1] == s[1]);
    }
    if s.len() > 3 {
        assert(t[2] == s[2] && t[3] == s[3]);
    }
    if p == Platform::Windows {
        if is_verbatim(p, t) {
            if s.len() > 7 {
                assert(t[4] == s[4] && t[5] == s[5] && t[6] == s[6] && t[7] == s[7]);
            }
            if s.len() > 5 {
                assert(t[4] == s[4] && t[5] == s[5]);
            }
            if s.len() > 6 {
                assert(t[6] == s[6]);
            }
            if t.len() >= 8 && t[4] == 'U' && t[5] == 'N' && t[6] == 'C' && is_sep(p, t[7]) {
                lemma_share_end(p, true, t, 8);
                lemma_same_share(p, true, s, t, 8);
            } else if drive_at(t, 4) && (t.len() == 6 || is_sep(p, t[6])) {
                assert(has_root(p, t));
            } else {
                lemma_sep_from(p, true, t, 4);
                lemma_same_sep(p, true, s, t, 4);
            }
        } else if t.len() >= 2 && is_sep(p, t[0]) && is_sep(p, t[1]) {
            if t.len() >= 4 && t[2] == '.' && is_sep(p, t[3]) {
                lemma_sep_from(p, false, t, 4);
                lemma_same_sep(p, false, s, t, 4);
            } else {
                lemma_share_end(p, false, t, 2);
                if n > 0 {
                    lemma_same_share(p, false, s, t, 2);
                } else if s.len() >= 2 {
                    lemma_share_end(p, false, s, 2);
                    let a = sep_from(p, false, s, 2);
                    lemma_sep_from(p, false, s, a + 1);
                    lemma_sep_from(p, false, t, a + 1);
                    if a > 2 && share_end(p, false, s, 2) > a {
                        lemma_same_sep(p, false, s, t, 2);
                        assert(t[a + 1] == s[a + 1]);
                        assert(!cuts(p, false, s[a + 1]));
                        lemma_sep_from(p, false, t, a + 2);
                        assert(share_end(p, false, t, 2) > a);
                    }
                }
            }
        }
    }
    assert(prefix_len(p, s) == n);
    if n < s.len() {
        assert(t[n] == s[n]);
    }
}

/// A parent has nothing at its end that stands for nothing, and the root of what
/// it holds.
pub proof fn parent_is_tidy(p: Platform, s: Seq<char>)
    ensures
        parent_of(p, s) matches Some(d) ==> tidy(p, d) == d && root_len(p, d) == root_len(p, s)
            && is_verbatim(p, d) == is_verbatim(p, s) && prefix_len(p, d) == prefix_len(p, s),
{
    lemma_parent_is_shorter(p, s);
    if let Some(d) = parent_of(p, s) {
        assert forall|k: int| 0 <= k < d.len() implies #[trigger] s[k] == d[k] by {
            assert(d[k] == s.take(d.len() as int)[k]);
        }
        lemma_same_root(p, d, s);
    }
}

proof fn lemma_join_keeps_root(p: Platform, dir: Seq<char>, d: Seq<char>, name: Seq<char>)
    requires
        is_plain_name(p, name),
        prefix_len(p, name) == 0,
        takes_names(p, dir),
        !is_verbatim(p, dir),
        d == if dir.len() == 0 || is_sep(p, dir.last()) || (dir.len() == 2 && prefix_len(p, dir)
            == 2) {
            dir
        } else {
            dir + seq![main_sep(p)]
        },
    ensures
        is_verbatim(p, d + name) == is_verbatim(p, dir),
        prefix_len(p, d + name) == prefix_len(p, dir),
        root_len(p, d + name) == root_len(p, dir),
{
    let t = d + name;
    assert forall|k: int| 0 <= k < dir.len() implies #[trigger] t[k] == dir[k] by {}
    assert forall|k: int| d.len() <= k < t.len() implies !is_sep(p, #[trigger] t[k]) by {
        assert(t[k] == name[k - d.len()]);
    }
    lemma_root_len(p, dir);
    if dir.len() == 0 {
        assert(t =~= name);
    } else if p == Platform::Windows {
        assert(t[0] == dir[0]);
        if dir.len() == 1 {
            if d == dir {
                assert(t[1] == name[0]);
            } else {
                assert(t[1] == main_sep(p));
            }
        } else {
            assert(t[1] == dir[1]);
            if dir.len() > 2 && is_sep(p, dir[0]) && is_sep(p, dir[1]) {
                assert(t[2] == dir[2]);
                if is_sep(p, dir[2]) {
                    assert(sep_from(p, false, t, 2) == 2);
                    assert(sep_from(p, false, dir, 2) == 2);
                } else {
                    lemma_sep_from(p, false, dir, 3);
                    if dir.len() > 3 {
                        assert(t[3] == dir[3]);
                    }
                    if prefix_len(p, dir) > 0 {
                        lemma_share_end(p, false, dir, 2);
                        lemma_same_sep(p, false, dir, t, 2);
                        if dir.len() >= 4 && dir[2] == '.' && is_sep(p, dir[3]) {
                            lemma_same_sep(p, false, dir, t, 4);
                        } else {
                            lemma_same_sep(p, false, dir, t, sep_from(p, false, dir, 2) + 1);
                        }
                    } else {
                        let a = sep_from(p, false, dir, 2);
                        lemma_sep_from(p, false, dir, 2);
                        lemma_sep_from(p, false, dir, a + 1);
                        if dir.len() >= 4 && dir[2] == '.' && is_sep(p, dir[3]) {
                            lemma_sep_from(p, false, dir, 4);
                        }
                        assert(sep_from(p, false, dir, a + 1) == a + 1);
                        lemma_same_sep(p, false, dir, t, 2);
                        lemma_same_sep(p, false, dir, t, a + 1);
                    }
                }
            }
        }
        assert(is_verbatim(p, t) == is_verbatim(p, dir));
        assert(prefix_len(p, t) == prefix_len(p, dir));
    }
    let n = prefix_len(p, dir);
    if dir.len() > 0 {
        if n < dir.len() {
            assert(t[n] == dir[n]);
        } else {
            assert(t[n] == name[0]);
        }
    }
}

proof fn lemma_joined_plain(p: Platform, dir: Seq<char>, name: Seq<char>)
    requires
        is_plain_name(p, name),
        prefix_len(p, name) == 0,
        takes_names(p, dir),
        !is_verbatim(p, dir),
    ensures
        last_name(p, joined(p, dir, name)) == name,
        parent_of(p, joined(p, dir, name)) == Some(tidy(p, dir)),
        takes_names(p, joined(p, dir, name)),
        !is_verbatim(p, joined(p, dir, name)),
        tidy(p, joined(p, dir, name)) == joined(p, dir, name),
        joined(p, dir, name).len() > dir.len(),
{
    reveal(last_name);
    reveal(parent_of);
    reveal(joined);
    let s = joined(p, dir, name);
    let d = if dir.len() == 0 || is_sep(p, dir.last()) || (dir.len() == 2 && prefix_len(p, dir)
        == 2) {
        dir
    } else {
        dir + seq![main_sep(p)]
    };
    assert(!is_sep(p, name[0]));
    assert(s =~= d + name);
    lemma_join_keeps_root(p, dir, d, name);
    lemma_root_len(p, dir);
    let root = root_len(p, s);
    assert(!is_verbatim(p, s));
    assert(s.last() == name.last());
    if name.len() >= 2 {
        assert(s[s.len() - 2] == name[name.len() - 2]);
    } else {
        assert(name =~= seq![name[0]]);
    }
    assert(clean(p, false, s, root) == s);
    lemma_name_start_of(p, false, d, name, root);
    assert(s.skip(d.len() as int) =~= name);
    assert(s.take(d.len() as int) =~= d);
    if d != dir {
        assert(is_sep(p, d.last()));
        assert(d.drop_last() =~= dir);
    }
    if dir.len() > 2 {
        assert(s[0] == dir[0] && s[1] == dir[1] && s[2] == dir[2]);
        if p == Platform::Windows && is_sep(p, dir[0]) && is_sep(p, dir[1]) && !is_sep(p, dir[2])
            && prefix_len(p, dir) == 0 {
            assert(is_start(dir, s));
            lemma_same_sep(p, false, dir, s, 2);
        }
    }
}

/// Whether a text can be a name in a verbatim path.
spec fn is_verbatim_name(n: Seq<char>) -> bool {
    n.len() > 0 && forall|i: int| 0 <= i < n.len() ==> #[trigger] n[i] != '\\'
}

/// Whether a text is a verbatim prefix that ends where it does.
spec fn is_closed_prefix(s: Seq<char>) -> bool {
    &&& is_verbatim(Platform::Windows, s)
    &&& prefix_len(Platform::Windows, s + seq!['\\', 'x']) == s.len()
}

proof fn lemma_closed(s: Seq<char>, t: Seq<char>)
    requires
        is_closed_prefix(s),
        t.len() > s.len(),
        is_start(s, t),
        t[s.len() as int] == '\\',
    ensures
        is_verbatim(Platform::Windows, t),
        t.len() == s.len() + 1 || t[s.len() as int + 1] != '\\' ==> {
            &&& prefix_len(Platform::Windows, t) == s.len()
            &&& root_len(Platform::Windows, t) == s.len() + 1
        },
{
    let p = Platform::Windows;
    let n = s.len() as int;
    let w = s + seq!['\\', 'x'];
    let e = s + seq!['\\'];
    assert(t[0] == s[0] && t[1] == s[1] && t[2] == s[2] && t[3] == s[3]);
    assert(w[0] == s[0] && w[1] == s[1] && w[2] == s[2] && w[3] == s[3]);
    assert(w[n] == '\\' && w[n + 1] == 'x');
    assert(is_start(e, w));
    assert forall|k: int| 0 <= k < e.len() implies #[trigger] t[k] == e[k] by {
        if k < n {
            assert(t[k] == s[k]);
        }
    }
    assert(is_start(e, t));
    lemma_root_len(p, w);
    assert forall|k: int| 0 <= k <= n implies #[trigger] t[k] == w[k] by {
        assert(t[k] == e[k] && w[k] == e[k]);
    }
    if w.len() >= 8 && w[4] == 'U' && w[5] == 'N' && w[6] == 'C' && is_sep(p, w[7]) {
        assert(n >= 7);
        lemma_share_end(p, true, w, 8);
        let a = sep_from(p, true, w, 8);
        lemma_sep_from(p, true, w, a + 1);
        lemma_sep_from(p, true, w, 8);
        if a == n {
            assert(sep_from(p, true, w, n + 1) > n + 1) by {
                lemma_sep_from(p, true, w, n + 2);
            }
            assert(false);
        }
        if a > n {
            assert(false);
        }
        assert(sep_from(p, true, w, a + 1) == n);
        lemma_same_sep(p, true, e, w, 8);
        lemma_same_sep(p, true, e, w, a + 1);
        lemma_same_sep(p, true, e, t, 8);
        lemma_same_sep(p, true, e, t, a + 1);
        assert(t[4] == w[4] && t[5] == w[5] && t[6] == w[6] && t[7] == w[7]);
    } else if drive_at(w, 4) && (w.len() == 6 || is_sep(p, w[6])) {
        assert(n == 6);
        assert(t[4] == w[4] && t[5] == w[5] && t[6] == w[6]);
        if t.len() >= 8 && t[4] == 'U' && t[5] == 'N' {
            assert(false);
        }
    } else {
        lemma_same_sep(p, true, e, w, 4);
        lemma_same_sep(p, true, e, t, 4);
        assert(t[4] == w[4]);
        if n > 4 {
            assert(t[5] == w[5]);
        }
        if n > 5 {
            assert(t[6] == w[6]);
        }
        if n > 6 {
            assert(t[7] == w[7]);
        }
    }
}

proof fn lemma_listed(names: Seq<Seq<char>>)
    requires
        names.len() > 0,
        forall|i: int| 0 <= i < names.len() ==> is_verbatim_name(#[trigger] names[i]),
    ensures
        ({
            let t = listed(Platform::Windows, names);
            &&& t.len() >= 2
            &&& t[0] == '\\'
            &&& t[1] != '\\'
            &&& t.last() != '\\'
        }),
    decreases names.len(),
{
    let p = Platform::Windows;
    let rest = names.drop_last();
    let t = listed(p, names);
    let last = names[names.len() - 1];
    assert(last == names.last());
    assert(is_verbatim_name(last));
    assert(t.last() == last.last());
    assert(last[last.len() - 1] != '\\');
    if rest.len() > 0 {
        assert forall|i: int| 0 <= i < rest.len() implies is_verbatim_name(#[trigger] rest[i]) by {
            assert(rest[i] == names[i]);
        }
        lemma_listed(rest);
        assert(t[0] == listed(p, rest)[0] && t[1] == listed(p, rest)[1]);
    } else {
        assert(t =~= seq!['\\'] + last);
        assert(t[1] == last[0]);
    }
}

/// A verbatim path that is written of a prefix and names has these names.
proof fn lemma_written(s: Seq<char>, names: Seq<Seq<char>>)
    requires
        is_closed_prefix(s),
        names.len() > 0,
        forall|i: int| 0 <= i < names.len() ==> is_verbatim_name(#[trigger] names[i]),
    ensures
        ({
            let p = Platform::Windows;
            let t = s + listed(p, names);
            &&& is_verbatim(p, t)
            &&& prefix_len(p, t) == s.len()
            &&& has_root(p, t)
            &&& t.take(s.len() as int) == s
            &&& last_name(p, t) == names.last()
            &&& parent_of(p, t) == Some(
                s + if names.len() == 1 {
                    seq!['\\']
                } else {
                    listed(p, names.drop_last())
                },
            )
            &&& names_of(p, t) == names
        }),
    decreases names.len(),
{
    reveal(parent_of);
    reveal(last_name);
    let p = Platform::Windows;
    let t = s + listed(p, names);
    let n = s.len() as int;
    let rest = names.drop_last();
    let name = names[names.len() - 1];
    assert(name == names.last() && is_verbatim_name(name));
    lemma_listed(names);
    assert(t[n] == listed(p, names)[0] && t[n + 1] == listed(p, names)[1]);
    lemma_closed(s, t);
    assert(t.take(n) =~= s);
    let root = n + 1;
    assert(root_len(p, t) == root);
    assert(t.last() == listed(p, names).last());
    assert(clean(p, true, t, root) == t);
    let d = s + listed(p, rest) + seq!['\\'];
    assert(t =~= d + name);
    assert(d.last() == '\\');
    lemma_name_start_of(p, true, d, name, root);
    assert(t.skip(d.len() as int) =~= name);
    assert(t.take(d.len() as int) =~= d);
    if rest.len() == 0 {
        assert(d =~= s + seq!['\\']);
        let up = s + seq!['\\'];
        assert(clean(p, true, d, root) == d);
        lemma_closed(s, up);
        assert(parent_of(p, up) is None) by {
            assert(tidy(p, up) == up);
        }
        assert(names_of(p, up) =~= seq![]);
        assert(names =~= seq![].push(name));
    } else {
        assert forall|i: int| 0 <= i < rest.len() implies is_verbatim_name(#[trigger] rest[i]) by {
            assert(rest[i] == names[i]);
        }
        lemma_listed(rest);
        let up = s + listed(p, rest);
        assert(d.drop_last() =~= up);
        assert(up.last() == listed(p, rest).last());
        assert(clean(p, true, up, root) == up);
        lemma_written(s, rest);
        assert(names =~= rest.push(name));
    }
}

/// The names of a verbatim path are names.
proof fn lemma_names_are_names(s: Seq<char>)
    requires
        is_verbatim(Platform::Windows, s),
    ensures
        forall|i: int|
            0 <= i < names_of(Platform::Windows, s).len() ==> is_verbatim_name(
                #[trigger] names_of(Platform::Windows, s)[i],
            ),
    decreases s.len(),
{
    let p = Platform::Windows;
    lemma_parent_is_shorter(p, s);
    if let Some(d) = parent_of(p, s) {
        parent_is_tidy(p, s);
        lemma_names_are_names(d);
        let all = names_of(p, s);
        let rest = names_of(p, d);
        reveal(last_name);
        reveal(parent_of);
        let root = root_len(p, s);
        lemma_root_len(p, s);
        lemma_clean(p, true, s, root);
        let c = tidy(p, s);
        lemma_name_start(p, true, c, root);
        lemma_name_start(p, true, c.drop_last(), root);
        let k = name_start(p, true, c, root);
        assert(k < c.len());
        assert forall|i: int| 0 <= i < c.skip(k).len() implies #[trigger] c.skip(k)[i]
            != '\\' by {
            assert(c.skip(k)[i] == c[k + i]);
            assert(!cuts(p, true, c[k + i]));
        }
        assert forall|i: int| 0 <= i < all.len() implies is_verbatim_name(#[trigger] all[i]) by {
            if i < rest.len() {
                assert(all[i] == rest[i]);
            }
        }
    }
}

/// The names of a plain name are itself.
proof fn lemma_plain_name_is_one(p: Platform, name: Seq<char>)
    requires
        is_plain_name(p, name),
        prefix_len(p, name) == 0,
    ensures
        names_of(p, name) == seq![name],
{
    reveal(joined);
    let none = Seq::<char>::empty();
    lemma_joined_plain(p, none, name);
    assert(!is_sep(p, name[0]));
    assert(joined(p, none, name) =~= name);
    assert(tidy(p, none) == none);
    lemma_parent_is_shorter(p, none);
    assert(names_of(p, none) =~= seq![]);
    assert(seq![].push(name) =~= seq![name]);
}

/// A folder that takes names is at home where it is written anew.
pub proof fn home_is_kept(p: Platform, dir: Seq<char>)
    requires
        takes_names(p, dir),
    ensures
        home(p, home(p, dir)) == home(p, dir),
        is_verbatim(p, home(p, dir)) == is_verbatim(p, dir),
        is_verbatim(p, dir) ==> takes_names(p, home(p, dir)),
        names_of(p, home(p, dir)) == names_of(p, dir),
        plain_form(p, home(p, dir)) == plain_form(p, dir),
        parent_of(p, dir) matches Some(d) ==> takes_names(p, d) || !is_verbatim(p, dir),
        match parent_of(p, dir) {
            Some(d) => parent_of(p, home(p, dir)) == Some(home(p, d)),
            None => parent_of(p, home(p, dir)) is None,
        },
{
    let h = home(p, dir);
    let n = prefix_len(p, dir);
    lemma_root_len(p, dir);
    if is_verbatim(p, dir) {
        let s = dir.take(n);
        let names = names_of(p, dir);
        assert(s[0] == dir[0] && s[1] == dir[1] && s[2] == dir[2] && s[3] == dir[3]);
        assert(is_closed_prefix(s));
        lemma_names_are_names(dir);
        lemma_parent_is_shorter(p, dir);
        if names.len() == 0 {
            assert(h =~= s + seq!['\\']);
            lemma_closed(s, h);
            assert(h.take(n) =~= s);
            assert(h[n] == '\\');
            reveal(parent_of);
            assert(tidy(p, h) == h);
            assert(names_of(p, h) =~= seq![]);
        } else {
            lemma_written(s, names);
            let d = parent_of(p, dir).unwrap();
            parent_is_tidy(p, dir);
            assert(d.take(n) =~= s);
            assert(names_of(p, d) =~= names.drop_last());
            assert(takes_names(p, d)) by {
                assert(d[n] == dir[n]);
            }
        }
        assert(h.take(n) =~= s);
        assert(plain_prefix(p, h) =~= plain_prefix(p, dir)) by {
            assert forall|i: int| 0 <= i < n implies #[trigger] h[i] == dir[i] by {
                assert(h[i] == h.take(n)[i] && dir[i] == dir.take(n)[i]);
            }
        }
    } else {
        lemma_tidy_is_same(p, dir);
        if parent_of(p, dir) is Some {
            parent_is_tidy(p, dir);
        }
    }
}

/// What stands for nothing at the end of a path makes no difference.
proof fn lemma_tidy_is_same(p: Platform, s: Seq<char>)
    ensures
        tidy(p, tidy(p, s)) == tidy(p, s),
        is_verbatim(p, tidy(p, s)) == is_verbatim(p, s),
        root_len(p, tidy(p, s)) == root_len(p, s),
        parent_of(p, tidy(p, s)) == parent_of(p, s),
        names_of(p, tidy(p, s)) == names_of(p, s),
        plain_form(p, tidy(p, s)) == plain_form(p, s),
{
    let c = tidy(p, s);
    let root = root_len(p, s);
    lemma_root_len(p, s);
    lemma_clean(p, is_verbatim(p, s), s, root);
    assert forall|k: int| 0 <= k < c.len() implies #[trigger] s[k] == c[k] by {
        assert(c[k] == s.take(c.len() as int)[k]);
    }
    if root < s.len() {
        lemma_same_root(p, c, s);
    } else {
        assert(c =~= s);
    }
    reveal(parent_of);
    reveal(last_name);
    lemma_parent_is_shorter(p, s);
    lemma_parent_is_shorter(p, c);
    assert(names_of(p, c) =~= names_of(p, s));
    assert(plain_prefix(p, c) =~= plain_prefix(p, s)) by {
        let n = prefix_len(p, s);
        assert forall|i: int| 0 <= i < n implies #[trigger] s[i] == c[i] by {}
    }
}

/// A plain name that is joined to a folder is the last name of the path, and the
/// folder is its parent. The path is in turn one that names can be joined to.
pub proof fn joined_name_is_last(p: Platform, dir: Seq<char>, name: Seq<char>)
    requires
        is_plain_name(p, name),
        prefix_len(p, name) == 0,
        takes_names(p, dir),
    ensures
        file_name_of(p, joined(p, dir, name)) == Some(name),
        last_name(p, joined(p, dir, name)) == name,
        parent_of(p, joined(p, dir, name)) == Some(home(p, dir)),
        takes_names(p, joined(p, dir, name)),
        home(p, joined(p, dir, name)) == joined(p, dir, name),
        joined(p, dir, name).len() > home(p, dir).len(),
{
    if is_verbatim(p, dir) {
        reveal(joined);
        let n = prefix_len(p, dir);
        lemma_root_len(p, dir);
        let s = dir.take(n);
        assert(s[0] == dir[0] && s[1] == dir[1] && s[2] == dir[2] && s[3] == dir[3]);
        assert(is_closed_prefix(s));
        let names = names_of(p, dir);
        lemma_names_are_names(dir);
        lemma_plain_name_is_one(p, name);
        assert(!is_sep(p, name[0]));
        let all = names.push(name);
        assert(is_verbatim_name(name)) by {
            assert forall|i: int| 0 <= i < name.len() implies #[trigger] name[i] != '\\' by {
                assert(!is_sep(p, name[i]));
            }
        }
        assert forall|i: int| 0 <= i < all.len() implies is_verbatim_name(#[trigger] all[i]) by {
            if i < names.len() {
                assert(all[i] == names[i]);
            }
        }
        let one = seq![name];
        assert(one.drop_last() =~= seq![]);
        assert(followed_all(names, one) == all) by {
            reveal_with_fuel(followed_all, 2);
            assert(one.last() == name);
        }
        let t = s + listed(p, all);
        assert(joined(p, dir, name) == t);
        lemma_written(s, all);
        assert(all.drop_last() =~= names);
        assert(home(p, t) =~= t);
    } else {
        lemma_joined_plain(p, dir, name);
        lemma_root_len(p, dir);
        lemma_clean(p, is_verbatim(p, dir), dir, root_len(p, dir));
    }
}

// ---------------------------------------------------------------- operations
fn letter(c: char) -> (r: bool)
    ensures
        r == is_letter(c),
{
    (c >= 'a' && c <= 'z') || (c >= 'A' && c <= 'Z')
}

fn verbatim(p: Platform, s: &[char]) -> (r: bool)
    ensures
        r == is_verbatim(p, s@),
{
    p == Platform::Windows && s.len() >= 4 && s[0] == '\\' && s[1] == '\\' && s[2] == '?' && s[3]
        == '\\'
}

fn cut(p: Platform, v: bool, c: char) -> (r: bool)
    ensures
        r == cuts(p, v, c),
{
    sep(p, c) && (!v || c == '\\')
}

fn find_sep(p: Platform, v: bool, s: &[char], from: usize) -> (r: usize)
    ensures
        r == sep_from(p, v, s@, from as int),
{
    let mut i: usize = from;
    while i < s.len() && !cut(p, v, s[i])
        invariant
            from <= i,
            sep_from(p, v, s@, from as int) == sep_from(p, v, s@, i as int),
        decreases s@.len() - i,
    {
        i += 1;
    }
    if i > s.len() {
        s.len()
    } else {
        i
    }
}

fn find_share(p: Platform, v: bool, s: &[char], from: usize) -> (r: usize)
    requires
        from <= s@.len(),
    ensures
        r == share_end(p, v, s@, from as int),
{
    proof {
        lemma_sep_from(p, v, s@, from as int);
    }
    let server = find_sep(p, v, s, from);
    if server < s.len() {
        let share = find_sep(p, v, s, server + 1);
        if share > server + 1 {
            return share;
        }
    }
    server
}

fn prefix_end(p: Platform, s: &[char]) -> (r: usize)
    ensures
        r == prefix_len(p, s@),
        r <= s@.len(),
{
    proof {
        lemma_root_len(p, s@);
    }
    if p == Platform::Unix {
        0
    } else if verbatim(p, s) {
        if s.len() >= 8 && s[4] == 'U' && s[5] == 'N' && s[6] == 'C' && sep(p, s[7]) {
            find_share(p, true, s, 8)
        } else if s.len() >= 6 && letter(s[4]) && s[5] == ':' && (s.len() == 6 || sep(p, s[6])) {
            6
        } else {
            find_sep(p, true, s, 4)
        }
    } else if s.len() >= 2 && sep(p, s[0]) && sep(p, s[1]) {
        if s.len() >= 4 && s[2] == '.' && sep(p, s[3]) {
            find_sep(p, false, s, 4)
        } else {
            let server = find_sep(p, false, s, 2);
            let share = find_share(p, false, s, 2);
            if server > 2 && share > server {
                share
            } else {
                0
            }
        }
    } else if s.len() >= 2 && letter(s[0]) && s[1] == ':' {
        2
    } else {
        0
    }
}

fn rooted(p: Platform, s: &[char]) -> (r: bool)
    ensures
        r == has_root(p, s@),
{
    let k = prefix_end(p, s);
    k < s.len() && sep(p, s[k])
}

fn root_end(p: Platform, s: &[char]) -> (r: usize)
    ensures
        r == root_len(p, s@),
        r <= s@.len(),
{
    proof {
        lemma_root_len(p, s@);
    }
    let k = prefix_end(p, s);
    if k < s.len() && sep(p, s[k]) {
        k + 1
    } else {
        k
    }
}

fn clean_end(p: Platform, v: bool, s: &[char], end: usize, root: usize) -> (r: usize)
    requires
        root <= end <= s@.len(),
    ensures
        root <= r <= end,
        s@.take(r as int) == clean(p, v, s@.take(end as int), root as int),
{
    let mut n: usize = end;
    while n > root && (cut(p, v, s[n - 1]) || (!v && s[n - 1] == '.' && n > 1 && cut(
        p,
        v,
        s[n - 2],
    )))
        invariant
            root <= n <= end <= s@.len(),
            clean(p, v, s@.take(end as int), root as int) == clean(
                p,
                v,
                s@.take(n as int),
                root as int,
            ),
        decreases n,
    {
        assert(s@.take(n as int).drop_last() =~= s@.take(n - 1));
        n -= 1;
    }
    n
}

fn name_begin(p: Platform, v: bool, s: &[char], end: usize, root: usize) -> (r: usize)
    requires
        root <= end <= s@.len(),
    ensures
        root <= r <= end,
        r == name_start(p, v, s@.take(end as int), root as int),
{
    let mut n: usize = end;
    while n > root && !cut(p, v, s[n - 1])
        invariant
            root <= n <= end <= s@.len(),
            name_start(p, v, s@.take(end as int), root as int) == name_start(
                p,
                v,
                s@.take(n as int),
                root as int,
            ),
        decreases n,
    {
        assert(s@.take(n as int).drop_last() =~= s@.take(n - 1));
        n -= 1;
    }
    n
}

/// The parent of a path and its last name.
fn taken_apart(p: Platform, s: &[char]) -> (r: Option<(Vec<char>, Vec<char>)>)
    ensures
        match r {
            Some((d, n)) => parent_of(p, s@) == Some(d@) && last_name(p, s@) == n@ && d@.len()
                < s@.len(),
            None => parent_of(p, s@) is None,
        },
{
    proof {
        reveal(parent_of);
        reveal(last_name);
        lemma_parent_is_shorter(p, s@);
    }
    let v = verbatim(p, s);
    let root = root_end(p, s);
    assert(s@.take(s@.len() as int) =~= s@);
    let end = clean_end(p, v, s, s.len(), root);
    if end == root {
        return None;
    }
    let k = name_begin(p, v, s, end, root);
    assert(s@.take(end as int).take(k as int) =~= s@.take(k as int));
    let d = clean_end(p, v, s, k, root);
    let up = sub_chars(s, 0, d);
    assert(up@ =~= s@.take(d as int));
    let name = sub_chars(s, k, end);
    assert(name@ =~= s@.take(end as int).skip(k as int));
    Some((up, name))
}

/// The directory that holds what a path names.
pub fn parent(p: Platform, path: &str) -> (r: Option<String>)
    ensures
        match r {
            Some(d) => parent_of(p, path@) == Some(d@),
            None => parent_of(p, path@) is None,
        },
{
    let s = chars_of(path);
    match taken_apart(p, s.as_slice()) {
        Some((d, n)) => Some(string_of(d.as_slice())),
        None => None,
    }
}

/// The last name of a path.
pub fn file_name(p: Platform, path: &str) -> (r: Option<String>)
    ensures
        match r {
            Some(n) => file_name_of(p, path@) == Some(n@),
            None => file_name_of(p, path@) is None,
        },
{
    let s = chars_of(path);
    match taken_apart(p, s.as_slice()) {
        Some((d, n)) => if is_dot(&n) || is_dots(&n) {
            None
        } else {
            Some(string_of(n.as_slice()))
        },
        None => None,
    }
}

fn is_dot(n: &Vec<char>) -> (r: bool)
    ensures
        r == (n@ == seq!['.']),
{
    if n.len() == 1 && n[0] == '.' {
        assert(n@ =~= seq!['.']);
        true
    } else {
        false
    }
}

fn is_dots(n: &Vec<char>) -> (r: bool)
    ensures
        r == (n@ == seq!['.', '.']),
{
    if n.len() == 2 && n[0] == '.' && n[1] == '.' {
        assert(n@ =~= seq!['.', '.']);
        true
    } else {
        false
    }
}

fn find_last_dot(s: &[char]) -> (r: Option<usize>)
    ensures
        match r {
            Some(k) => last_dot(s@) == k && k < s@.len(),
            None => last_dot(s@) == -1,
        },
{
    let mut n: usize = s.len();
    assert(s@.take(n as int) =~= s@);
    while n > 0
        invariant
            n <= s@.len(),
            last_dot(s@) == last_dot(s@.take(n as int)),
        decreases n,
    {
        if s[n - 1] == '.' {
            return Some(n - 1);
        }
        assert(s@.take(n as int).drop_last() =~= s@.take(n - 1));
        n -= 1;
    }
    None
}

/// The last name of a path without its extension.
pub fn file_stem(p: Platform, path: &str) -> (r: Option<String>)
    ensures
        match r {
            Some(n) => file_stem_of(p, path@) == Some(n@),
            None => file_stem_of(p, path@) is None,
        },
{
    match file_name(p, path) {
        None => None,
        Some(name) => {
            let s = chars_of(name.as_str());
            match find_last_dot(s.as_slice()) {
                Some(k) if k > 0 => {
                    let v = sub_chars(s.as_slice(), 0, k);
                    assert(v@ =~= s@.take(k as int));
                    Some(string_of(v.as_slice()))
                },
                _ => Some(name),
            }
        },
    }
}

/// The extension of the last name of a path.
pub fn extension(p: Platform, path: &str) -> (r: Option<String>)
    ensures
        match r {
            Some(e) => extension_of(p, path@) == Some(e@),
            None => extension_of(p, path@) is None,
        },
{
    match file_name(p, path) {
        None => None,
        Some(name) => {
            let s = chars_of(name.as_str());
            match find_last_dot(s.as_slice()) {
                Some(k) if k > 0 => {
                    let end = s.len();
                    let v = sub_chars(s.as_slice(), k + 1, end);
                    assert(v@ =~= s@.skip(k + 1));
                    Some(string_of(v.as_slice()))
                },
                _ => None,
            }
        },
    }
}

/// The names of a path behind its root.
pub fn names(p: Platform, path: &[char]) -> (r: Vec<Vec<char>>)
    ensures
        char_texts(r@) == names_of(p, path@),
    decreases path@.len(),
{
    match taken_apart(p, path) {
        Some((d, n)) => {
            let mut r = names(p, d.as_slice());
            let ghost before = char_texts(r@);
            r.push(n);
            assert(char_texts(r@) =~= before.push(n@));
            r
        },
        None => {
            let r: Vec<Vec<char>> = Vec::new();
            assert(char_texts(r@) =~= seq![]);
            r
        },
    }
}

fn list_names(p: Platform, v: &Vec<Vec<char>>) -> (r: Vec<char>)
    ensures
        r@ == listed(p, char_texts(v@)),
{
    let ghost all = char_texts(v@);
    let mut r: Vec<char> = Vec::new();
    let mut i: usize = 0;
    assert(all.take(0) =~= seq![]);
    while i < v.len()
        invariant
            i <= v@.len(),
            all == char_texts(v@),
            r@ == listed(p, all.take(i as int)),
        decreases v@.len() - i,
    {
        assert(all.take(i + 1).drop_last() =~= all.take(i as int));
        let ghost before = r@;
        r.push(
            match p {
                Platform::Unix => '/',
                Platform::Windows => '\\',
            },
        );
        r.extend_from_slice(v[i].as_slice());
        assert(r@ =~= before + seq![main_sep(p)] + v@[i as int]@);
        i += 1;
    }
    assert(all.take(v@.len() as int) =~= all);
    r
}

fn follow(names: &mut Vec<Vec<char>>, name: Vec<char>)
    ensures
        char_texts(final(names)@) == followed(char_texts(old(names)@), name@),
{
    let ghost before = char_texts(names@);
    if is_dot(&name) {
        return;
    }
    if is_dots(&name) {
        let n = names.len();
        if n > 0 && !is_dot(&names[n - 1]) && !is_dots(&names[n - 1]) {
            assert(before.last() == names@[n - 1]@);
            let gone = names.pop();
            assert(char_texts(names@) =~= before.drop_last());
        } else if n > 0 {
            assert(before.last() == names@[n - 1]@);
        }
        return;
    }
    names.push(name);
    assert(char_texts(names@) =~= before.push(name@));
}

fn join_verbatim(p: Platform, dir: &[char], name: &[char]) -> (r: Vec<char>)
    ensures
        r@ == joined_verbatim(p, dir@, name@),
{
    proof {
        lemma_root_len(p, dir@);
    }
    let at_root = rooted(p, name);
    let mut all: Vec<Vec<char>> = Vec::new();
    assert(char_texts(all@) =~= seq![]);
    if !at_root {
        all = names(p, dir);
    }
    let ghost from = char_texts(all@);
    let more = names(p, name);
    let ghost new = char_texts(more@);
    assert(new.take(0) =~= seq![]);
    let mut i: usize = 0;
    while i < more.len()
        invariant
            i <= more@.len(),
            new == char_texts(more@),
            char_texts(all@) == followed_all(from, new.take(i as int)),
        decreases more@.len() - i,
    {
        assert(new.take(i + 1).drop_last() =~= new.take(i as int));
        let n = sub_chars(more[i].as_slice(), 0, more[i].len());
        assert(n@ =~= more@[i as int]@);
        follow(&mut all, n);
        i += 1;
    }
    assert(new.take(more@.len() as int) =~= new);
    let k = prefix_end(p, dir);
    let mut r = sub_chars(dir, 0, k);
    assert(r@ =~= dir@.take(k as int));
    if all.len() == 0 && (rooted(p, dir) || at_root) {
        r.push(
            match p {
                Platform::Unix => '/',
                Platform::Windows => '\\',
            },
        );
        assert(r@ =~= joined_verbatim(p, dir@, name@));
    } else {
        let tail = list_names(p, &all);
        r.extend_from_slice(tail.as_slice());
        assert(r@ =~= joined_verbatim(p, dir@, name@));
    }
    r
}

/// A name seen from a directory.
pub fn join(p: Platform, dir: &str, name: &str) -> (r: String)
    ensures
        r@ == joined(p, dir@, name@),
{
    proof {
        reveal(joined);
        lemma_root_len(p, dir@);
    }
    let d = chars_of(dir);
    let n = chars_of(name);
    let np = prefix_end(p, n.as_slice());
    let rooted = np < n.len() && sep(p, n[np]);
    if np > 0 || (p == Platform::Unix && rooted) {
        return string_of(n.as_slice());
    }
    if verbatim(p, d.as_slice()) && n.len() > 0 {
        let r = join_verbatim(p, d.as_slice(), n.as_slice());
        return string_of(r.as_slice());
    }
    let dp = prefix_end(p, d.as_slice());
    let mut out: Vec<char> = Vec::new();
    if rooted {
        out = sub_chars(d.as_slice(), 0, dp);
        assert(out@ =~= d@.take(dp as int));
    } else {
        out = sub_chars(d.as_slice(), 0, d.len());
        assert(out@ =~= d@);
        if !(d.len() == 0 || sep(p, d[d.len() - 1]) || (d.len() == 2 && dp == 2)) {
            out.push(
                match p {
                    Platform::Unix => '/',
                    Platform::Windows => '\\',
                },
            );
            assert(out@ =~= d@ + seq![main_sep(p)]);
        }
    }
    out.extend_from_slice(n.as_slice());
    assert(out@ =~= joined(p, dir@, name@));
    string_of(out.as_slice())
}

fn upper(c: char) -> (r: char)
    ensures
        r == upper_letter(c),
{
    if c >= 'a' && c <= 'z' {
        (c as u8 - 32) as char
    } else {
        c
    }
}

/// The prefix of a path as it is compared.
pub fn prefix_form(p: Platform, s: &[char]) -> (r: Vec<char>)
    ensures
        r@ == plain_prefix(p, s@),
{
    proof {
        lemma_root_len(p, s@);
    }
    let v = verbatim(p, s);
    let n = prefix_end(p, s);
    let mut r: Vec<char> = Vec::new();
    let mut i: usize = 0;
    while i < n
        invariant
            i <= n <= s@.len(),
            v == is_verbatim(p, s@),
            n == prefix_len(p, s@),
            r@ =~= plain_prefix(p, s@).take(i as int),
        decreases n - i,
    {
        let c = if cut(p, v, s[i]) {
            match p {
                Platform::Unix => '/',
                Platform::Windows => '\\',
            }
        } else if n - i == 2 && letter(s[i]) && s[i + 1] == ':' && (n == 2 || (v && n == 6)) {
            upper(s[i])
        } else {
            s[i]
        };
        r.push(c);
        i += 1;
    }
    assert(plain_prefix(p, s@).take(n as int) =~= plain_prefix(p, s@));
    r
}

/// Whether a path begins at a root.
pub fn begins_at_root(p: Platform, s: &[char]) -> (r: bool)
    ensures
        r == is_rooted(p, s@),
{
    rooted(p, s) || (prefix_end(p, s) > 2 && !verbatim(p, s))
}

/// A path as it is compared.
pub fn form(p: Platform, path: &str) -> (r: String)
    ensures
        r@ == plain_form(p, path@),
{
    let s = chars_of(path);
    let mut r = prefix_form(p, s.as_slice());
    let all = names(p, s.as_slice());
    let tail = list_names(p, &all);
    if begins_at_root(p, s.as_slice()) {
        if all.len() == 0 {
            r.push(
                match p {
                    Platform::Unix => '/',
                    Platform::Windows => '\\',
                },
            );
        } else {
            r.extend_from_slice(tail.as_slice());
        }
    } else if all.len() > 0 {
        assert(tail@.len() >= 1);
        let rest = sub_chars(tail.as_slice(), 1, tail.len());
        assert(rest@ =~= tail@.skip(1));
        r.extend_from_slice(rest.as_slice());
    }
    assert(r@ =~= plain_form(p, path@));
    string_of(r.as_slice())
}

proof fn lemma_last_dot_is(a: Seq<char>, b: Seq<char>)
    requires
        !b.contains('.'),
    ensures
        last_dot(a + seq!['.'] + b) == a.len(),
    decreases b.len(),
{
    let s = a + seq!['.'] + b;
    if b.len() == 0 {
        assert(s.last() == '.');
    } else {
        assert(s.last() == b.last());
        assert(b.contains(b.last()));
        assert(s.drop_last() =~= a + seq!['.'] + b.drop_last());
        assert(!b.drop_last().contains('.')) by {
            if b.drop_last().contains('.') {
                let i = choose|i: int| 0 <= i < b.len() - 1 && b.drop_last()[i] == '.';
                assert(b[i] == '.');
            }
        }
        lemma_last_dot_is(a, b.drop_last());
    }
}

proof fn lemma_no_dot(s: Seq<char>)
    requires
        !s.contains('.'),
    ensures
        last_dot(s) == -1,
    decreases s.len(),
{
    if s.len() > 0 {
        assert(s.contains(s.last()));
        assert(!s.drop_last().contains('.')) by {
            if s.drop_last().contains('.') {
                let i = choose|i: int| 0 <= i < s.len() - 1 && s.drop_last()[i] == '.';
                assert(s[i] == '.');
            }
        }
        lemma_no_dot(s.drop_last());
    }
}

/// A name is cut at its last dot: what stands before it is the stem, and what stands
/// behind it the extension. A name without a dot, or with none but its first
/// character, has no extension.
pub proof fn name_is_cut_at_its_last_dot(stem: Seq<char>, ext: Seq<char>)
    requires
        stem.len() > 0,
        !ext.contains('.'),
    ensures
        stem_of(stem + seq!['.'] + ext) == stem,
        extension_of_name(stem + seq!['.'] + ext) == Some(ext),
        stem_of(ext) == ext,
        extension_of_name(ext) is None,
        stem_of(seq!['.'] + ext) == seq!['.'] + ext,
        extension_of_name(seq!['.'] + ext) is None,
{
    let n = stem + seq!['.'] + ext;
    lemma_last_dot_is(stem, ext);
    assert(n.take(stem.len() as int) =~= stem);
    assert(n.skip(stem.len() as int + 1) =~= ext);
    lemma_no_dot(ext);
    lemma_last_dot_is(Seq::empty(), ext);
    assert(Seq::<char>::empty() + seq!['.'] + ext =~= seq!['.'] + ext);
}

/// Paths are joined with a slash, or with a backslash on Windows, and nothing else is
/// put between them; a path that begins at the root stands for itself on Unix.
pub proof fn paths_are_joined_with_a_separator(dir: Seq<char>, name: Seq<char>)
    requires
        dir.len() > 0,
        name.len() > 0,
        name[0] != '/',
        name[0] != '\\',
    ensures
        dir.last() != '/' ==> joined(Platform::Unix, dir, name) == dir + seq!['/'] + name,
        dir.last() == '/' ==> joined(Platform::Unix, dir, name) == dir + name,
        joined(Platform::Unix, dir, seq!['/'] + name) == seq!['/'] + name,
        is_sep(Platform::Unix, '/') && !is_sep(Platform::Unix, '\\'),
        is_sep(Platform::Windows, '/') && is_sep(Platform::Windows, '\\'),
{
    reveal(joined);
    assert((seq!['/'] + name)[0] == '/');
}

} // verus!
