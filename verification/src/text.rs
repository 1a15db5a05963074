//! Text primitives: the string operations the rest of the crate is written in,
//! each stated over the sequence of characters a string holds.
use vstd::prelude::*;
use vstd::string::*;

verus! {

/// `String::push` appends the one character it is given.
pub assume_specification[ String::push ](s: &mut String, c: char)
    ensures
        final(s)@ == old(s)@.push(c),
;

/// The text that `String::from_utf8_lossy` reads from bytes.
pub uninterp spec fn lossy_text(b: Seq<u8>) -> Seq<char>;

/// `String::from_utf8_lossy`: bytes that are UTF-8 give the text they encode.
/// Where other bytes get their replacement characters is left to the name.
#[verifier::external_body]
pub(crate) fn text_of_bytes(b: &[u8]) -> (r: String)
    ensures
        r@ == lossy_text(b@),
        vstd::utf8::valid_utf8(b@) ==> r@ == vstd::utf8::decode_utf8(b@),
{
    String::from_utf8_lossy(b).into_owned()
}

/// Whether every character of a text is ASCII.
pub open spec fn all_ascii(s: Seq<char>) -> bool {
    forall|i: int| 0 <= i < s.len() ==> (#[trigger] s[i] as int) < 128
}

/// The text that bytes hold, with replacement characters where they are no UTF-8.
pub open spec fn decoded(b: Seq<u8>) -> Seq<char> {
    if vstd::utf8::valid_utf8(b) {
        vstd::utf8::decode_utf8(b)
    } else {
        lossy_text(b)
    }
}

/// The text that `str::to_lowercase` gives.
pub uninterp spec fn lowercase_of(s: Seq<char>) -> Seq<char>;

/// `str::to_lowercase`: in ASCII text the letters A to Z become a to z. What
/// Unicode says of other letters is left to the name.
#[verifier::external_body]
pub(crate) fn lowercase(s: &str) -> (r: String)
    ensures
        r@ == lowercase_of(s@),
        all_ascii(s@) ==> r@ == ascii_lower(s@),
{
    s.to_lowercase()
}

/// A text in lower case.
pub open spec fn lower_text(s: Seq<char>) -> Seq<char> {
    if all_ascii(s) {
        ascii_lower(s)
    } else {
        lowercase_of(s)
    }
}

/// The text that `str::to_uppercase` gives.
pub uninterp spec fn uppercase_of(s: Seq<char>) -> Seq<char>;

/// `str::to_uppercase`: in ASCII text the letters a to z become A to Z. What
/// Unicode says of other letters is left to the name.
#[verifier::external_body]
pub(crate) fn uppercase(s: &str) -> (r: String)
    ensures
        r@ == uppercase_of(s@),
        all_ascii(s@) ==> r@ == ascii_upper(s@),
{
    s.to_uppercase()
}

/// A text in upper case.
pub open spec fn upper_text(s: Seq<char>) -> Seq<char> {
    if all_ascii(s) {
        ascii_upper(s)
    } else {
        uppercase_of(s)
    }
}

// ---------------------------------------------------------------- sequences
/// The texts held by a sequence of strings.
pub open spec fn texts(v: Seq<String>) -> Seq<Seq<char>> {
    Seq::new(v.len(), |i: int| v[i]@)
}

/// A text that may be missing.
pub open spec fn text_in(s: Option<String>) -> Option<Seq<char>> {
    match s {
        Some(t) => Some(t@),
        None => None,
    }
}

/// The texts held by a sequence of character vectors.
pub open spec fn char_texts(v: Seq<Vec<char>>) -> Seq<Seq<char>> {
    Seq::new(v.len(), |i: int| v[i]@)
}

pub proof fn lemma_texts_push(v: Seq<String>, s: String)
    ensures
        texts(v.push(s)) == texts(v).push(s@),
{
    assert(texts(v.push(s)) =~= texts(v).push(s@));
}

pub proof fn lemma_char_texts_push(v: Seq<Vec<char>>, s: Vec<char>)
    ensures
        char_texts(v.push(s)) == char_texts(v).push(s@),
{
    assert(char_texts(v.push(s)) =~= char_texts(v).push(s@));
}

/// The characters of a string, as a vector.
pub fn chars_of(s: &str) -> (r: Vec<char>)
    ensures
        r@ == s@,
{
    let mut r: Vec<char> = Vec::new();
    for c in it: s.chars()
        invariant
            r@ =~= s@.take(it.index() as int),
            it.seq() == s@,
    {
        r.push(c);
    }
    r
}

/// The string made of the given characters.
pub fn string_of(v: &[char]) -> (r: String)
    ensures
        r@ == v@,
{
    let mut r: String = String::new();
    let mut i: usize = 0;
    while i < v.len()
        invariant
            i <= v@.len(),
            r@ =~= v@.take(i as int),
        decreases v@.len() - i,
    {
        r.push(v[i]);
        i += 1;
    }
    assert(v@.take(v@.len() as int) =~= v@);
    r
}

/// A copy of part of a character slice.
pub fn sub_chars(v: &[char], from: usize, to: usize) -> (r: Vec<char>)
    requires
        from <= to <= v@.len(),
    ensures
        r@ == v@.subrange(from as int, to as int),
{
    let mut r: Vec<char> = Vec::new();
    let mut i: usize = from;
    while i < to
        invariant
            from <= i <= to <= v@.len(),
            r@ =~= v@.subrange(from as int, i as int),
        decreases to - i,
    {
        r.push(v[i]);
        i += 1;
    }
    r
}

/// Whether two character slices hold the same text.
pub fn chars_eq(a: &[char], b: &[char]) -> (r: bool)
    ensures
        r == (a@ == b@),
{
    if a.len() != b.len() {
        return false;
    }
    let mut i: usize = 0;
    while i < a.len()
        invariant
            i <= a@.len() == b@.len(),
            forall|j: int| 0 <= j < i ==> a@[j] == b@[j],
        decreases a@.len() - i,
    {
        if a[i] != b[i] {
            return false;
        }
        i += 1;
    }
    assert(a@ =~= b@);
    true
}

/// Whether two strings hold the same text.
pub fn text_eq(a: &str, b: &str) -> (r: bool)
    ensures
        r == (a@ == b@),
{
    let x = a.as_bytes();
    let y = b.as_bytes();
    proof {
        vstd::utf8::encode_utf8_decode_utf8(a@);
        vstd::utf8::encode_utf8_decode_utf8(b@);
    }
    if x.len() != y.len() {
        return false;
    }
    let mut i: usize = 0;
    while i < x.len()
        invariant
            i <= x@.len() == y@.len(),
            x@ == vstd::utf8::encode_utf8(a@),
            y@ == vstd::utf8::encode_utf8(b@),
            forall|j: int| 0 <= j < i ==> x@[j] == y@[j],
        decreases x@.len() - i,
    {
        if x[i] != y[i] {
            return false;
        }
        i += 1;
    }
    assert(x@ =~= y@);
    true
}

/// Whether a character vector holds the text of a string.
pub fn chars_are(a: &[char], b: &str) -> (r: bool)
    ensures
        r == (a@ == b@),
{
    let c = chars_of(b);
    chars_eq(a, c.as_slice())
}

/// The concatenation of two strings.
pub fn concat2(a: &str, b: &str) -> (r: String)
    ensures
        r@ == a@ + b@,
{
    let mut r = String::new();
    r.append(a);
    r.append(b);
    assert(r@ =~= a@ + b@);
    r
}

/// The concatenation of three strings.
pub fn concat3(a: &str, b: &str, c: &str) -> (r: String)
    ensures
        r@ == a@ + b@ + c@,
{
    let mut r = concat2(a, b);
    r.append(c);
    r
}

/// Whether a list of strings holds the text `t`.
pub fn holds_text(v: &Vec<String>, t: &str) -> (r: bool)
    ensures
        r == texts(v@).contains(t@),
{
    let mut i: usize = 0;
    while i < v.len()
        invariant
            i <= v@.len(),
            forall|j: int| 0 <= j < i ==> v@[j]@ != t@,
        decreases v@.len() - i,
    {
        if text_eq(v[i].as_str(), t) {
            assert(texts(v@)[i as int] == t@);
            return true;
        }
        i += 1;
    }
    false
}

// ---------------------------------------------------------------- white space
/// Unicode white space, the characters that trimming removes.
pub open spec fn is_white(c: char) -> bool {
    ||| '\u{9}' <= c <= '\u{d}'
    ||| c == ' '
    ||| c == '\u{85}'
    ||| c == '\u{a0}'
    ||| c == '\u{1680}'
    ||| '\u{2000}' <= c <= '\u{200a}'
    ||| c == '\u{2028}'
    ||| c == '\u{2029}'
    ||| c == '\u{202f}'
    ||| c == '\u{205f}'
    ||| c == '\u{3000}'
}

/// Decides [`is_white`].
pub fn white(c: char) -> (r: bool)
    ensures
        r == is_white(c),
{
    (c >= '\u{9}' && c <= '\u{d}') || c == ' ' || c == '\u{85}' || c == '\u{a0}' || c == '\u{1680}'
        || (c >= '\u{2000}' && c <= '\u{200a}') || c == '\u{2028}' || c == '\u{2029}'
        || c == '\u{202f}' || c == '\u{205f}' || c == '\u{3000}'
}

/// `s` without its leading white space.
pub open spec fn trim_start(s: Seq<char>) -> Seq<char>
    decreases s.len(),
{
    if s.len() > 0 && is_white(s[0]) {
        trim_start(s.drop_first())
    } else {
        s
    }
}

/// `s` without its trailing white space.
pub open spec fn trim_end(s: Seq<char>) -> Seq<char>
    decreases s.len(),
{
    if s.len() > 0 && is_white(s.last()) {
        trim_end(s.drop_last())
    } else {
        s
    }
}

/// `s` without white space at either end.
pub open spec fn trim(s: Seq<char>) -> Seq<char> {
    trim_end(trim_start(s))
}

/// Removes white space at both ends.
pub fn trim_chars(s: &[char]) -> (r: Vec<char>)
    ensures
        r@ == trim(s@),
{
    let mut lo: usize = 0;
    let mut hi: usize = s.len();
    assert(s@.skip(0) =~= s@);
    while lo < hi && white(s[lo])
        invariant
            lo <= hi == s@.len(),
            trim_start(s@) == trim_start(s@.skip(lo as int)),
        decreases hi - lo,
    {
        assert(s@.skip(lo as int).drop_first() =~= s@.skip(lo + 1));
        lo += 1;
    }
    let ghost t = trim_start(s@);
    assert(t == s@.skip(lo as int));
    assert(t =~= s@.subrange(lo as int, hi as int));
    while lo < hi && white(s[hi - 1])
        invariant
            lo <= hi <= s@.len(),
            trim_end(t) == trim_end(s@.subrange(lo as int, hi as int)),
        decreases hi - lo,
    {
        assert(s@.subrange(lo as int, hi as int).drop_last() =~= s@.subrange(lo as int, hi - 1));
        hi -= 1;
    }
    sub_chars(s, lo, hi)
}

// ---------------------------------------------------------------- searching
/// The first position at or after `i` that holds `c`, or the length of `s`.
pub open spec fn find_from(s: Seq<char>, c: char, i: int) -> int
    decreases s.len() - i,
{
    if i < 0 || i >= s.len() {
        s.len() as int
    } else if s[i] == c {
        i
    } else {
        find_from(s, c, i + 1)
    }
}

pub proof fn lemma_find_from(s: Seq<char>, c: char, i: int)
    requires
        0 <= i <= s.len(),
    ensures
        i <= find_from(s, c, i) <= s.len(),
        find_from(s, c, i) < s.len() ==> s[find_from(s, c, i)] == c,
        forall|j: int| i <= j < find_from(s, c, i) ==> s[j] != c,
    decreases s.len() - i,
{
    if i < s.len() && s[i] != c {
        lemma_find_from(s, c, i + 1);
    }
}

/// Finds the first `c` at or after `from`.
pub fn find_char(s: &[char], c: char, from: usize) -> (r: usize)
    requires
        from <= s@.len(),
    ensures
        r == find_from(s@, c, from as int),
        from <= r <= s@.len(),
{
    let mut i: usize = from;
    while i < s.len() && s[i] != c
        invariant
            from <= i <= s@.len(),
            find_from(s@, c, from as int) == find_from(s@, c, i as int),
        decreases s@.len() - i,
    {
        i += 1;
    }
    i
}

/// `s` cut at its first `c`, or nothing where it holds none.
pub open spec fn split_once(s: Seq<char>, c: char) -> Option<(Seq<char>, Seq<char>)> {
    let k = find_from(s, c, 0);
    if k < s.len() {
        Some((s.take(k), s.skip(k + 1)))
    } else {
        None
    }
}

/// Cuts a text at its first `c`.
pub fn split_once_chars(s: &[char], c: char) -> (r: Option<(Vec<char>, Vec<char>)>)
    ensures
        match r {
            Some(p) => split_once(s@, c) == Some((p.0@, p.1@)),
            None => split_once(s@, c) is None,
        },
{
    let k = find_char(s, c, 0);
    if k < s.len() {
        let a = sub_chars(s, 0, k);
        let b = sub_chars(s, k + 1, s.len());
        assert(a@ =~= s@.take(k as int));
        assert(b@ =~= s@.skip(k + 1));
        Some((a, b))
    } else {
        None
    }
}

/// The pieces of `s` between its occurrences of `c`.
pub open spec fn split(s: Seq<char>, c: char) -> Seq<Seq<char>>
    decreases s.len(),
{
    let k = find_from(s, c, 0);
    if 0 <= k < s.len() {
        seq![s.take(k)] + split(s.skip(k + 1), c)
    } else {
        seq![s]
    }
}

/// Cuts a text at every `c`.
pub fn split_chars(s: &[char], c: char) -> (r: Vec<Vec<char>>)
    ensures
        char_texts(r@) == split(s@, c),
        r@.len() >= 1,
{
    let mut r: Vec<Vec<char>> = Vec::new();
    let mut at: usize = 0;
    assert(s@.skip(0) =~= s@);
    assert(char_texts(r@) + split(s@.skip(0), c) =~= split(s@, c));
    loop
        invariant
            at <= s@.len(),
            char_texts(r@) + split(s@.skip(at as int), c) == split(s@, c),
        decreases s@.len() - at,
    {
        let k = find_char(s, c, at);
        let ghost before = char_texts(r@);
        let ghost tail = s@.skip(at as int);
        proof {
            lemma_find_skip(s@, c, at as int);
            lemma_find_from(tail, c, 0);
        }
        let piece = sub_chars(s, at, k);
        assert(piece@ =~= tail.take(k - at));
        proof {
            lemma_char_texts_push(r@, piece);
        }
        r.push(piece);
        if k == s.len() {
            assert(tail.take(k - at) =~= tail);
            assert(char_texts(r@) =~= before + seq![tail]);
            return r;
        }
        assert(tail.skip(k - at + 1) =~= s@.skip(k + 1));
        assert(char_texts(r@) + split(s@.skip(k + 1), c) =~= before + (seq![tail.take(k - at)]
            + split(s@.skip(k + 1), c)));
        at = k + 1;
    }
}

pub proof fn lemma_find_skip(s: Seq<char>, c: char, i: int)
    requires
        0 <= i <= s.len(),
    ensures
        find_from(s.skip(i), c, 0) == find_from(s, c, i) - i,
{
    lemma_find_shift(s, c, i, 0);
}

proof fn lemma_find_shift(s: Seq<char>, c: char, i: int, j: int)
    requires
        0 <= i <= s.len(),
        0 <= j <= s.len() - i,
    ensures
        find_from(s.skip(i), c, j) == find_from(s, c, i + j) - i,
    decreases s.len() - i - j,
{
    if j < s.len() - i {
        lemma_find_shift(s, c, i, j + 1);
    }
}

/// One line without the carriage return of a two-character line ending.
pub open spec fn strip_cr(s: Seq<char>) -> Seq<char> {
    if s.len() > 0 && s.last() == '\r' {
        s.drop_last()
    } else {
        s
    }
}

/// The lines of a text. A line ends at a line feed, or at a carriage return
/// and a line feed; the last line needs no ending.
pub open spec fn lines(s: Seq<char>) -> Seq<Seq<char>>
    decreases s.len(),
{
    if s.len() == 0 {
        Seq::empty()
    } else {
        let k = find_from(s, '\n', 0);
        if 0 <= k < s.len() {
            seq![strip_cr(s.take(k))] + lines(s.skip(k + 1))
        } else {
            seq![s]
        }
    }
}

/// Cuts a text into its lines.
pub fn lines_of(s: &[char]) -> (r: Vec<Vec<char>>)
    ensures
        char_texts(r@) == lines(s@),
{
    let mut r: Vec<Vec<char>> = Vec::new();
    let mut at: usize = 0;
    assert(s@.skip(0) =~= s@);
    assert(char_texts(r@) + lines(s@.skip(0)) =~= lines(s@));
    while at < s.len()
        invariant
            at <= s@.len(),
            char_texts(r@) + lines(s@.skip(at as int)) == lines(s@),
        decreases s@.len() - at,
    {
        let k = find_char(s, '\n', at);
        let ghost before = char_texts(r@);
        let ghost tail = s@.skip(at as int);
        proof {
            lemma_find_skip(s@, '\n', at as int);
            lemma_find_from(tail, '\n', 0);
        }
        if k < s.len() {
            let end = if k > at && s[k - 1] == '\r' {
                k - 1
            } else {
                k
            };
            let piece = sub_chars(s, at, end);
            assert(piece@ =~= strip_cr(tail.take(k - at)));
            proof {
                lemma_char_texts_push(r@, piece);
            }
            r.push(piece);
            assert(tail.skip(k - at + 1) =~= s@.skip(k + 1));
            assert(char_texts(r@) + lines(s@.skip(k + 1)) =~= before + (seq![
                strip_cr(tail.take(k - at)),
            ] + lines(s@.skip(k + 1))));
            at = k + 1;
        } else {
            let piece = sub_chars(s, at, k);
            assert(piece@ =~= tail);
            proof {
                lemma_char_texts_push(r@, piece);
            }
            r.push(piece);
            assert(s@.skip(k as int) =~= Seq::<char>::empty());
            assert(char_texts(r@) + lines(s@.skip(k as int)) =~= before + seq![tail]);
            at = k;
        }
    }
    assert(s@.skip(at as int) =~= Seq::<char>::empty());
    assert(char_texts(r@) + lines(s@.skip(at as int)) =~= char_texts(r@));
    r
}

/// The first white position at or after `i`, or the length of `s`.
pub open spec fn white_from(s: Seq<char>, i: int) -> int
    decreases s.len() - i,
{
    if i < 0 || i >= s.len() {
        s.len() as int
    } else if is_white(s[i]) {
        i
    } else {
        white_from(s, i + 1)
    }
}

/// The words of a text: its longest runs without white space.
pub open spec fn words(s: Seq<char>) -> Seq<Seq<char>>
    decreases s.len(),
{
    if s.len() == 0 {
        Seq::empty()
    } else if is_white(s[0]) {
        words(s.drop_first())
    } else {
        let k = white_from(s, 0);
        if 0 < k <= s.len() {
            seq![s.take(k)] + words(s.skip(k))
        } else {
            Seq::empty()
        }
    }
}

proof fn lemma_white_shift(s: Seq<char>, i: int, j: int)
    requires
        0 <= i <= s.len(),
        0 <= j <= s.len() - i,
    ensures
        white_from(s.skip(i), j) == white_from(s, i + j) - i,
        i + j <= white_from(s, i + j) <= s.len(),
    decreases s.len() - i - j,
{
    if j < s.len() - i {
        lemma_white_shift(s, i, j + 1);
    }
}

/// Cuts a text into its words.
pub fn words_of(s: &[char]) -> (r: Vec<Vec<char>>)
    ensures
        char_texts(r@) == words(s@),
{
    let mut r: Vec<Vec<char>> = Vec::new();
    let mut at: usize = 0;
    assert(s@.skip(0) =~= s@);
    assert(char_texts(r@) + words(s@.skip(0)) =~= words(s@));
    while at < s.len()
        invariant
            at <= s@.len(),
            char_texts(r@) + words(s@.skip(at as int)) == words(s@),
        decreases s@.len() - at,
    {
        let ghost tail = s@.skip(at as int);
        if white(s[at]) {
            assert(tail.drop_first() =~= s@.skip(at + 1));
            at += 1;
        } else {
            let mut k: usize = at;
            while k < s.len() && !white(s[k])
                invariant
                    at <= k <= s@.len(),
                    white_from(s@, at as int) == white_from(s@, k as int),
                decreases s@.len() - k,
            {
                k += 1;
            }
            proof {
                lemma_white_shift(s@, at as int, 0);
                lemma_white_shift(s@, at as int, 1);
            }
            let ghost before = char_texts(r@);
            let piece = sub_chars(s, at, k);
            assert(piece@ =~= tail.take(k - at));
            proof {
                lemma_char_texts_push(r@, piece);
            }
            r.push(piece);
            assert(tail.skip(k - at) =~= s@.skip(k as int));
            assert(char_texts(r@) + words(s@.skip(k as int)) =~= before + (seq![
                tail.take(k - at),
            ] + words(s@.skip(k as int))));
            at = k;
        }
    }
    assert(s@.skip(at as int) =~= Seq::<char>::empty());
    assert(char_texts(r@) + words(s@.skip(at as int)) =~= char_texts(r@));
    r
}

/// Whether `p` stands in `s` at position `i`.
pub open spec fn stands_at(s: Seq<char>, p: Seq<char>, i: int) -> bool {
    0 <= i && i + p.len() <= s.len() && s.subrange(i, i + p.len()) == p
}

/// Whether `p` stands anywhere in `s`.
pub open spec fn contains_text(s: Seq<char>, p: Seq<char>) -> bool {
    exists|i: int| stands_at(s, p, i)
}

/// Decides whether `p` stands in `s` at position `i`.
pub fn stands_here(s: &[char], p: &[char], i: usize) -> (r: bool)
    requires
        i <= s@.len(),
    ensures
        r == stands_at(s@, p@, i as int),
{
    let n = s.len();
    if p.len() > n - i {
        return false;
    }
    let mut j: usize = 0;
    while j < p.len()
        invariant
            j <= p@.len(),
            n == s@.len(),
            i + p@.len() <= s@.len(),
            forall|m: int| 0 <= m < j ==> s@[i + m] == p@[m],
        decreases p@.len() - j,
    {
        if s[i + j] != p[j] {
            assert(s@.subrange(i as int, i + p@.len())[j as int] != p@[j as int]);
            return false;
        }
        j += 1;
    }
    assert(s@.subrange(i as int, i + p@.len()) =~= p@);
    true
}

/// Whether `s` ends with `p`.
pub open spec fn ends_with(s: Seq<char>, p: Seq<char>) -> bool {
    stands_at(s, p, s.len() - p.len())
}

/// Decides whether a text ends with another.
pub fn has_end(s: &[char], p: &str) -> (r: bool)
    ensures
        r == ends_with(s@, p@),
{
    let q = chars_of(p);
    s.len() >= q.len() && stands_here(s, q.as_slice(), s.len() - q.len())
}

/// Decides whether a text holds another.
pub fn has_text(s: &[char], p: &str) -> (r: bool)
    ensures
        r == contains_text(s@, p@),
{
    let q = chars_of(p);
    let mut i: usize = 0;
    loop
        invariant
            i <= s@.len(),
            q@ == p@,
            forall|j: int| 0 <= j < i ==> !stands_at(s@, p@, j),
        decreases s@.len() - i,
    {
        if stands_here(s, q.as_slice(), i) {
            return true;
        }
        if i == s.len() {
            return false;
        }
        i += 1;
    }
}

/// Whether `s` begins with `p`.
pub open spec fn begins(s: Seq<char>, p: Seq<char>) -> bool {
    stands_at(s, p, 0)
}

/// Decides whether a text begins with another.
pub fn begins_with(s: &[char], p: &str) -> (r: bool)
    ensures
        r == begins(s@, p@),
{
    let q = chars_of(p);
    stands_here(s, q.as_slice(), 0)
}

/// `s` without the leading characters that are `a` or `b`.
pub open spec fn trim_start_of(s: Seq<char>, a: char, b: char) -> Seq<char>
    decreases s.len(),
{
    if s.len() > 0 && (s[0] == a || s[0] == b) {
        trim_start_of(s.drop_first(), a, b)
    } else {
        s
    }
}

/// `s` without the trailing characters that are `a`.
pub open spec fn trim_end_of(s: Seq<char>, a: char) -> Seq<char>
    decreases s.len(),
{
    if s.len() > 0 && s.last() == a {
        trim_end_of(s.drop_last(), a)
    } else {
        s
    }
}

/// Removes leading `a` and `b`.
pub fn cut_start(s: &[char], a: char, b: char) -> (r: Vec<char>)
    ensures
        r@ == trim_start_of(s@, a, b),
{
    let mut lo: usize = 0;
    assert(s@.skip(0) =~= s@);
    while lo < s.len() && (s[lo] == a || s[lo] == b)
        invariant
            lo <= s@.len(),
            trim_start_of(s@, a, b) == trim_start_of(s@.skip(lo as int), a, b),
        decreases s@.len() - lo,
    {
        assert(s@.skip(lo as int).drop_first() =~= s@.skip(lo + 1));
        lo += 1;
    }
    let r = sub_chars(s, lo, s.len());
    assert(r@ =~= s@.skip(lo as int));
    r
}

/// Removes trailing `a`.
pub fn cut_end(s: &[char], a: char) -> (r: Vec<char>)
    ensures
        r@ == trim_end_of(s@, a),
{
    let mut hi: usize = s.len();
    assert(s@.take(s@.len() as int) =~= s@);
    while hi > 0 && s[hi - 1] == a
        invariant
            hi <= s@.len(),
            trim_end_of(s@, a) == trim_end_of(s@.take(hi as int), a),
        decreases hi,
    {
        assert(s@.take(hi as int).drop_last() =~= s@.take(hi - 1));
        hi -= 1;
    }
    let r = sub_chars(s, 0, hi);
    assert(r@ =~= s@.take(hi as int));
    r
}

// ---------------------------------------------------------------- letter case
/// The ASCII upper-case form of a character.
pub open spec fn upper(c: char) -> char {
    if 'a' <= c <= 'z' {
        (c as u8 - 32) as u8 as char
    } else {
        c
    }
}

/// The ASCII lower-case form of a character.
pub open spec fn lower(c: char) -> char {
    if 'A' <= c <= 'Z' {
        (c as u8 + 32) as u8 as char
    } else {
        c
    }
}

/// `s` with its ASCII letters in upper case.
pub open spec fn ascii_upper(s: Seq<char>) -> Seq<char> {
    Seq::new(s.len(), |i: int| upper(s[i]))
}

/// `s` with its ASCII letters in lower case.
pub open spec fn ascii_lower(s: Seq<char>) -> Seq<char> {
    Seq::new(s.len(), |i: int| lower(s[i]))
}

/// Puts the ASCII letters of a text in upper case.
pub fn to_upper(s: &[char]) -> (r: Vec<char>)
    ensures
        r@ == ascii_upper(s@),
{
    let mut r: Vec<char> = Vec::new();
    let mut i: usize = 0;
    while i < s.len()
        invariant
            i <= s@.len(),
            r@ =~= ascii_upper(s@).take(i as int),
        decreases s@.len() - i,
    {
        let c = s[i];
        let u = if c >= 'a' && c <= 'z' {
            (c as u8 - 32) as char
        } else {
            c
        };
        r.push(u);
        i += 1;
    }
    assert(ascii_upper(s@).take(s@.len() as int) =~= ascii_upper(s@));
    r
}

/// Puts the ASCII letters of a text in lower case.
pub fn to_lower(s: &[char]) -> (r: Vec<char>)
    ensures
        r@ == ascii_lower(s@),
{
    let mut r: Vec<char> = Vec::new();
    let mut i: usize = 0;
    while i < s.len()
        invariant
            i <= s@.len(),
            r@ =~= ascii_lower(s@).take(i as int),
        decreases s@.len() - i,
    {
        let c = s[i];
        let u = if c >= 'A' && c <= 'Z' {
            (c as u8 + 32) as char
        } else {
            c
        };
        r.push(u);
        i += 1;
    }
    assert(ascii_lower(s@).take(s@.len() as int) =~= ascii_lower(s@));
    r
}

// ---------------------------------------------------------------- laws
/// Whether a text holds nothing but white space.
pub open spec fn all_white(s: Seq<char>) -> bool {
    forall|i: int| 0 <= i < s.len() ==> is_white(#[trigger] s[i])
}

/// Whether a text holds no white space.
pub open spec fn no_white(s: Seq<char>) -> bool {
    forall|i: int| 0 <= i < s.len() ==> !is_white(#[trigger] s[i])
}

/// Whether a text neither begins nor ends with white space.
pub open spec fn is_trimmed(s: Seq<char>) -> bool {
    s.len() > 0 ==> !is_white(s[0]) && !is_white(s.last())
}

proof fn lemma_trim_start_drops(a: Seq<char>, s: Seq<char>)
    requires
        all_white(a),
        s.len() > 0 ==> !is_white(s[0]),
    ensures
        trim_start(a + s) == s,
    decreases a.len(),
{
    let t = a + s;
    if a.len() > 0 {
        assert(t[0] == a[0]);
        assert(t.drop_first() =~= a.drop_first() + s);
        assert forall|i: int| 0 <= i < a.drop_first().len() implies is_white(
            #[trigger] a.drop_first()[i],
        ) by {
            assert(a.drop_first()[i] == a[i + 1]);
        }
        lemma_trim_start_drops(a.drop_first(), s);
    } else {
        assert(t =~= s);
    }
}

proof fn lemma_trim_end_drops(s: Seq<char>, b: Seq<char>)
    requires
        all_white(b),
        s.len() > 0 ==> !is_white(s.last()),
    ensures
        trim_end(s + b) == s,
    decreases b.len(),
{
    let t = s + b;
    if b.len() > 0 {
        assert(t.last() == b.last());
        assert(t.drop_last() =~= s + b.drop_last());
        lemma_trim_end_drops(s, b.drop_last());
    } else {
        assert(t =~= s);
    }
}

/// Trimming takes the white space at both ends away, and nothing else.
pub proof fn white_ends_are_trimmed(a: Seq<char>, s: Seq<char>, b: Seq<char>)
    requires
        all_white(a),
        all_white(b),
        is_trimmed(s),
    ensures
        trim(a + s + b) == s,
        trim(s) == s,
{
    if s.len() > 0 {
        assert((s + b)[0] == s[0]);
        assert(a + s + b =~= a + (s + b));
        lemma_trim_start_drops(a, s + b);
        lemma_trim_end_drops(s, b);
    } else {
        let w = a + b;
        assert(a + s + b =~= w + Seq::<char>::empty());
        assert forall|i: int| 0 <= i < w.len() implies is_white(#[trigger] w[i]) by {
            if i < a.len() {
                assert(w[i] == a[i]);
            } else {
                assert(w[i] == b[i - a.len()]);
            }
        }
        lemma_trim_start_drops(w, Seq::empty());
        assert(s =~= Seq::<char>::empty());
    }
    assert(Seq::<char>::empty() + s =~= s);
    assert(s + Seq::<char>::empty() =~= s);
    lemma_trim_start_drops(Seq::empty(), s);
    lemma_trim_end_drops(s, Seq::empty());
}

/// White space is what Unicode calls so: a letter or a digit is none.
pub proof fn letters_and_digits_are_not_white(c: char)
    ensures
        '!' <= c <= '~' ==> !is_white(c),
        c == ' ' || c == '\t' || c == '\r' || c == '\n' ==> is_white(c),
{
}

proof fn lemma_find_is(s: Seq<char>, c: char, i: int, k: int)
    requires
        0 <= i <= k < s.len(),
        s[k] == c,
        forall|j: int| i <= j < k ==> #[trigger] s[j] != c,
    ensures
        find_from(s, c, i) == k,
    decreases k - i,
{
    if i < k {
        lemma_find_is(s, c, i + 1, k);
    }
}

proof fn lemma_find_none(s: Seq<char>, c: char, i: int)
    requires
        0 <= i <= s.len(),
        !s.contains(c),
    ensures
        find_from(s, c, i) == s.len(),
    decreases s.len() - i,
{
    if i < s.len() {
        assert(s.contains(s[i]));
        lemma_find_none(s, c, i + 1);
    }
}

/// A text is cut at its first mark: what stands before it and behind it comes out.
pub proof fn text_is_cut_at_its_first_mark(a: Seq<char>, c: char, b: Seq<char>)
    requires
        !a.contains(c),
    ensures
        split_once(a + seq![c] + b, c) == Some((a, b)),
        split_once(a, c) is None,
        split(a + seq![c] + b, c) == seq![a] + split(b, c),
        split(a, c) == seq![a],
{
    let s = a + seq![c] + b;
    assert(s[a.len() as int] == c);
    assert forall|j: int| 0 <= j < a.len() implies #[trigger] s[j] != c by {
        assert(s[j] == a[j]);
        assert(a.contains(a[j]));
    }
    lemma_find_is(s, c, 0, a.len() as int);
    lemma_find_none(a, c, 0);
    assert(s.take(a.len() as int) =~= a);
    assert(s.skip(a.len() as int + 1) =~= b);
}

/// A line ends at a line feed, or at a carriage return before one; the rest of the
/// text is cut in the same way.
pub proof fn lines_end_at_line_feeds(a: Seq<char>, rest: Seq<char>)
    requires
        !a.contains('\n'),
    ensures
        a.len() == 0 || a.last() != '\r' ==> lines(a + seq!['\n'] + rest) == seq![a] + lines(rest),
        lines(a + seq!['\r', '\n'] + rest) == seq![a] + lines(rest),
        a.len() > 0 ==> lines(a) == seq![a],
        lines(Seq::<char>::empty()).len() == 0,
{
    let s = a + seq!['\n'] + rest;
    assert(s[a.len() as int] == '\n');
    assert forall|j: int| 0 <= j < a.len() implies #[trigger] s[j] != '\n' by {
        assert(s[j] == a[j]);
        assert(a.contains(a[j]));
    }
    lemma_find_is(s, '\n', 0, a.len() as int);
    assert(s.take(a.len() as int) =~= a);
    assert(s.skip(a.len() as int + 1) =~= rest);
    let t = a + seq!['\r', '\n'] + rest;
    let k = a.len() as int + 1;
    assert(t[k] == '\n');
    assert forall|j: int| 0 <= j < k implies #[trigger] t[j] != '\n' by {
        if j < a.len() {
            assert(t[j] == a[j]);
            assert(a.contains(a[j]));
        }
    }
    lemma_find_is(t, '\n', 0, k);
    assert(t.take(k) =~= a.push('\r'));
    assert(t.take(k).drop_last() =~= a);
    assert(t.skip(k + 1) =~= rest);
    lemma_find_none(a, '\n', 0);
}

proof fn lemma_white_is(s: Seq<char>, i: int, k: int)
    requires
        0 <= i <= k <= s.len(),
        k < s.len() ==> is_white(s[k]),
        forall|j: int| i <= j < k ==> !is_white(#[trigger] s[j]),
    ensures
        white_from(s, i) == k,
    decreases k - i,
{
    if i < k {
        lemma_white_is(s, i + 1, k);
    }
}

/// White space parts the words of a text.
pub proof fn words_are_parted_by_white_space(w: Seq<char>, c: char, rest: Seq<char>)
    requires
        w.len() > 0,
        no_white(w),
        is_white(c),
    ensures
        words(w + seq![c] + rest) == seq![w] + words(rest),
        words(seq![c] + rest) == words(rest),
        words(w) == seq![w],
        words(Seq::<char>::empty()).len() == 0,
{
    let s = w + seq![c] + rest;
    let k = w.len() as int;
    assert(s[0] == w[0] && s[k] == c);
    assert forall|j: int| 0 <= j < k implies !is_white(#[trigger] s[j]) by {
        assert(s[j] == w[j]);
    }
    lemma_white_is(s, 0, k);
    assert(s.take(k) =~= w);
    assert(s.skip(k) =~= seq![c] + rest);
    let t = seq![c] + rest;
    assert(t[0] == c);
    assert(t.drop_first() =~= rest);
    lemma_white_is(w, 0, k);
    assert(w.take(k) =~= w);
    assert(w.skip(k) =~= Seq::<char>::empty());
    reveal_with_fuel(words, 2);
    assert(words(t) == words(rest));
    assert(words(Seq::<char>::empty()) =~= Seq::<Seq<char>>::empty());
    assert(seq![w] + Seq::<Seq<char>>::empty() =~= seq![w]);
}

/// A text stands where it was put in, at the start and at the end as well.
pub proof fn text_stands_where_it_was_put(a: Seq<char>, p: Seq<char>, b: Seq<char>)
    ensures
        stands_at(a + p + b, p, a.len() as int),
        contains_text(a + p + b, p),
        begins(p + b, p),
        ends_with(a + p, p),
{
    assert((a + p + b).subrange(a.len() as int, (a.len() + p.len()) as int) =~= p);
    assert(stands_at(a + p + b, p, a.len() as int));
    assert((p + b).subrange(0, p.len() as int) =~= p);
    assert((a + p).subrange(a.len() as int, (a.len() + p.len()) as int) =~= p);
}

/// A text that begins with another begins with its characters, and one that ends
/// with another ends with its characters.
pub proof fn found_text_is_there(s: Seq<char>, p: Seq<char>)
    ensures
        begins(s, p) ==> s.len() >= p.len() && s.take(p.len() as int) == p,
        ends_with(s, p) ==> s.len() >= p.len() && s.skip(s.len() - p.len()) == p,
        contains_text(s, p) ==> exists|a: Seq<char>, b: Seq<char>| s == #[trigger] (a + p + b),
{
    if begins(s, p) {
        assert(s.take(p.len() as int) =~= s.subrange(0, p.len() as int));
    }
    if ends_with(s, p) {
        assert(s.skip(s.len() - p.len()) =~= s.subrange(s.len() - p.len(), s.len() as int));
    }
    if contains_text(s, p) {
        let i = choose|i: int| stands_at(s, p, i);
        let (a, b) = (s.take(i), s.skip(i + p.len()));
        assert(a + p + b =~= s);
    }
}

/// Leading characters are taken away as long as they are the ones named.
pub proof fn named_characters_are_cut(n: nat, a: char, s: Seq<char>)
    requires
        s.len() > 0 ==> s[0] != a && s.last() != a,
    ensures
        trim_start_of(Seq::new(n, |i: int| a) + s, a, a) == s,
        trim_end_of(s + Seq::new(n, |i: int| a), a) == s,
    decreases n,
{
    let m = Seq::new(n, |i: int| a);
    if n > 0 {
        let less = Seq::new((n - 1) as nat, |i: int| a);
        assert((m + s)[0] == a && (s + m).last() == a);
        assert((m + s).drop_first() =~= less + s);
        assert((s + m).drop_last() =~= s + less);
        named_characters_are_cut((n - 1) as nat, a, s);
    } else {
        assert(m + s =~= s && s + m =~= s);
    }
}

/// Case changes letters from A to Z only, and each to its own counterpart.
pub proof fn case_changes_letters_only(c: char)
    ensures
        'A' <= c <= 'Z' ==> lower(c) as int == c as int + 32 && upper(c) == c,
        'a' <= c <= 'z' ==> upper(c) as int == c as int - 32 && lower(c) == c,
        !('A' <= c <= 'Z') && !('a' <= c <= 'z') ==> lower(c) == c && upper(c) == c,
{
}

} // verus!
