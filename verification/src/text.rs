//! Character-level helpers shared by the parsers and formatters: whitespace,
//! trimming, line and word splitting, integer parsing and formatting.
//!
//! Everything here works on sequences of `char`; the spec functions say what
//! the corresponding `str` operations of the standard library compute.
use vstd::prelude::*;

verus! {

// ── Conversions between `str`, `String` and `Vec<char>` ─────────────────────

/// Appends one character to a `String` (`String::push`).
///
/// Trusted: `String::push` appends exactly the given character; Verus's
/// standard library gives `String` a view as its sequence of characters.
#[verifier::external_body]
pub(crate) fn push_char(s: &mut String, c: char)
    ensures
        final(s)@ == old(s)@.push(c),
{
    s.push(c);
}

/// The characters of `s`, in order.
pub fn chars_of(s: &str) -> (r: Vec<char>)
    ensures
        r@ == s@,
{
    let mut r: Vec<char> = Vec::new();
    for c in it: s.chars()
        invariant
            r@ == it.seq().take(it.index() as int),
    {
        r.push(c);
    }
    r
}

/// A `String` holding exactly the characters of `v`.
pub fn string_of(v: &Vec<char>) -> (r: String)
    ensures
        r@ == v@,
{
    let mut r = String::new();
    let mut i: usize = 0;
    while i < v.len()
        invariant
            i <= v.len(),
            r@ == v@.take(i as int),
        decreases v.len() - i,
    {
        push_char(&mut r, v[i]);
        i += 1;
        assert(v@.take(i as int) == v@.take(i - 1).push(v@[i - 1]));
    }
    assert(v@.take(v.len() as int) == v@);
    r
}

/// A `String` holding the characters of `s`.
pub fn string_from(s: &str) -> (r: String)
    ensures
        r@ == s@,
{
    s.to_owned()
}

/// Appends the characters of `v` to `out`.
pub fn append_chars(out: &mut Vec<char>, v: &Vec<char>)
    ensures
        final(out)@ == old(out)@ + v@,
{
    let mut i: usize = 0;
    while i < v.len()
        invariant
            i <= v.len(),
            out@ == old(out)@ + v@.take(i as int),
        decreases v.len() - i,
    {
        out.push(v[i]);
        i += 1;
        assert(v@.take(i as int) == v@.take(i - 1).push(v@[i - 1]));
    }
    assert(v@.take(v.len() as int) == v@);
}

/// Appends the characters of `s` to `out`.
pub fn append_str(out: &mut Vec<char>, s: &str)
    ensures
        final(out)@ == old(out)@ + s@,
{
    let v = chars_of(s);
    append_chars(out, &v);
}

/// The views of a sequence of strings.
pub open spec fn views(v: Seq<String>) -> Seq<Seq<char>> {
    v.map_values(|s: String| s@)
}

/// The views of a sequence of character vectors.
pub open spec fn cviews(v: Seq<Vec<char>>) -> Seq<Seq<char>> {
    v.map_values(|s: Vec<char>| s@)
}

/// Turns a vector of character vectors into a vector of strings.
pub fn strings_of(v: &Vec<Vec<char>>) -> (r: Vec<String>)
    ensures
        views(r@) == cviews(v@),
{
    let mut r: Vec<String> = Vec::new();
    let mut i: usize = 0;
    while i < v.len()
        invariant
            i <= v.len(),
            views(r@) == cviews(v@).take(i as int),
        decreases v.len() - i,
    {
        let s = string_of(&v[i]);
        let ghost before = r@;
        r.push(s);
        i += 1;
        assert(views(r@) =~= views(before).push(v@[i - 1]@));
        assert(views(r@) =~= cviews(v@).take(i as int));
    }
    assert(cviews(v@).take(v.len() as int) == cviews(v@));
    r
}

// ── Whitespace and trimming ─────────────────────────────────────────────────

/// `char::is_whitespace`: the Unicode `White_Space` property.
pub open spec fn is_ws(c: char) -> bool {
    let u = c as u32;
    ||| 0x9 <= u <= 0xD
    ||| u == 0x20
    ||| u == 0x85
    ||| u == 0xA0
    ||| u == 0x1680
    ||| 0x2000 <= u <= 0x200A
    ||| u == 0x2028
    ||| u == 0x2029
    ||| u == 0x202F
    ||| u == 0x205F
    ||| u == 0x3000
}

/// Whether `c` is Unicode whitespace.
pub fn is_whitespace(c: char) -> (b: bool)
    ensures
        b == is_ws(c),
{
    let u = c as u32;
    (0x9 <= u && u <= 0xD) || u == 0x20 || u == 0x85 || u == 0xA0 || u == 0x1680 || (0x2000
        <= u && u <= 0x200A) || u == 0x2028 || u == 0x2029 || u == 0x202F || u == 0x205F || u
        == 0x3000
}

/// `str::trim_start`: drops the leading whitespace.
pub open spec fn trim_start(s: Seq<char>) -> Seq<char>
    decreases s.len(),
{
    if s.len() > 0 && is_ws(s[0]) {
        trim_start(s.drop_first())
    } else {
        s
    }
}

/// `str::trim_end`: drops the trailing whitespace.
pub open spec fn trim_end(s: Seq<char>) -> Seq<char>
    decreases s.len(),
{
    if s.len() > 0 && is_ws(s.last()) {
        trim_end(s.drop_last())
    } else {
        s
    }
}

/// `str::trim`: drops leading and trailing whitespace.
pub open spec fn trim(s: Seq<char>) -> Seq<char> {
    trim_end(trim_start(s))
}

proof fn lemma_trim_start_skip(s: Seq<char>, i: int)
    requires
        0 <= i <= s.len(),
        forall|j: int| 0 <= j < i ==> is_ws(#[trigger] s[j]),
    ensures
        trim_start(s) == trim_start(s.skip(i)),
    decreases i,
{
    if i > 0 {
        assert(s.skip(1) == s.drop_first());
        lemma_trim_start_skip(s.drop_first(), i - 1);
        assert(s.drop_first().skip(i - 1) == s.skip(i));
    } else {
        assert(s.skip(0) == s);
    }
}

proof fn lemma_trim_end_take(s: Seq<char>, k: int)
    requires
        0 <= k <= s.len(),
        forall|j: int| k <= j < s.len() ==> is_ws(#[trigger] s[j]),
    ensures
        trim_end(s) == trim_end(s.take(k)),
    decreases s.len() - k,
{
    if k < s.len() {
        lemma_trim_end_take(s.drop_last(), k);
        assert(s.drop_last().take(k) == s.take(k));
    } else {
        assert(s.take(k) == s);
    }
}

/// The whitespace-trimmed characters of `v`.
pub fn trim_chars(v: &Vec<char>) -> (r: Vec<char>)
    ensures
        r@ == trim(v@),
{
    let mut start: usize = 0;
    while start < v.len() && is_whitespace(v[start])
        invariant
            start <= v.len(),
            forall|j: int| 0 <= j < start ==> is_ws(#[trigger] v@[j]),
        decreases v.len() - start,
    {
        start += 1;
    }
    proof {
        lemma_trim_start_skip(v@, start as int);
    }
    let ghost rest = v@.skip(start as int);
    assert(trim_start(rest) == rest);
    let mut end: usize = v.len();
    while end > start && is_whitespace(v[end - 1])
        invariant
            start <= end <= v.len(),
            rest == v@.skip(start as int),
            forall|j: int| end - start <= j < rest.len() ==> is_ws(#[trigger] rest[j]),
        decreases end,
    {
        end -= 1;
    }
    proof {
        lemma_trim_end_take(rest, end - start);
    }
    let ghost kept = rest.take(end - start);
    assert(kept.len() == 0 || !is_ws(kept.last()));
    assert(trim_end(kept) == kept);
    let mut r: Vec<char> = Vec::new();
    let mut i: usize = start;
    while i < end
        invariant
            start <= i <= end <= v.len(),
            r@ == v@.subrange(start as int, i as int),
        decreases end - i,
    {
        r.push(v[i]);
        i += 1;
        assert(r@ == v@.subrange(start as int, i as int));
    }
    assert(r@ == kept);
    r
}

// ── Splitting into lines and words ──────────────────────────────────────────

/// The lines of `s` ended so far by a `'\n'` (without it), and the text after
/// the last `'\n'`.
pub open spec fn line_pieces(s: Seq<char>) -> (Seq<Seq<char>>, Seq<char>)
    decreases s.len(),
{
    if s.len() == 0 {
        (seq![], seq![])
    } else {
        let (done, cur) = line_pieces(s.drop_last());
        if s.last() == '\n' {
            (done.push(cur), seq![])
        } else {
            (done, cur.push(s.last()))
        }
    }
}

/// Drops one trailing carriage return.
pub open spec fn strip_cr(l: Seq<char>) -> Seq<char> {
    if l.len() > 0 && l.last() == '\r' {
        l.drop_last()
    } else {
        l
    }
}

/// `str::lines`: split at `"\n"` or `"\r\n"`; a final line ending is
/// optional and yields no empty last line.
pub open spec fn lines(s: Seq<char>) -> Seq<Seq<char>> {
    let (done, cur) = line_pieces(s);
    done.map_values(|l: Seq<char>| strip_cr(l)) + if cur.len() > 0 {
        seq![cur]
    } else {
        seq![]
    }
}

/// The lines of `v`, as `str::lines` splits them.
pub fn lines_of(v: &Vec<char>) -> (r: Vec<Vec<char>>)
    ensures
        cviews(r@) == lines(v@),
{
    let mut done: Vec<Vec<char>> = Vec::new();
    let mut cur: Vec<char> = Vec::new();
    let mut i: usize = 0;
    while i < v.len()
        invariant
            i <= v.len(),
            cviews(done@) == line_pieces(v@.take(i as int)).0.map_values(
                |l: Seq<char>| strip_cr(l),
            ),
            cur@ == line_pieces(v@.take(i as int)).1,
        decreases v.len() - i,
    {
        let c = v[i];
        assert(v@.take(i + 1).drop_last() == v@.take(i as int));
        if c == '\n' {
            let ghost raw = cur@;
            let mut line = cur;
            if line.len() > 0 && line[line.len() - 1] == '\r' {
                line.pop();
            }
            assert(line@ == strip_cr(raw));
            let ghost before = cviews(done@);
            done.push(line);
            assert(cviews(done@) =~= before.push(strip_cr(raw)));
            cur = Vec::new();
        } else {
            cur.push(c);
        }
        i += 1;
        assert(cviews(done@) =~= line_pieces(v@.take(i as int)).0.map_values(
            |l: Seq<char>| strip_cr(l),
        ));
    }
    assert(v@.take(v.len() as int) == v@);
    let ghost before = cviews(done@);
    let ghost last = cur@;
    if cur.len() > 0 {
        done.push(cur);
        assert(cviews(done@) =~= before.push(last));
    }
    assert(cviews(done@) =~= lines(v@));
    done
}

/// Words ended so far by whitespace, and the word being read.
pub open spec fn word_pieces(s: Seq<char>) -> (Seq<Seq<char>>, Seq<char>)
    decreases s.len(),
{
    if s.len() == 0 {
        (seq![], seq![])
    } else {
        let (done, cur) = word_pieces(s.drop_last());
        if is_ws(s.last()) {
            if cur.len() > 0 {
                (done.push(cur), seq![])
            } else {
                (done, seq![])
            }
        } else {
            (done, cur.push(s.last()))
        }
    }
}

/// `str::split_whitespace`: the maximal runs of non-whitespace characters.
pub open spec fn words(s: Seq<char>) -> Seq<Seq<char>> {
    let (done, cur) = word_pieces(s);
    if cur.len() > 0 {
        done.push(cur)
    } else {
        done
    }
}

/// The whitespace-separated words of `v`.
pub fn words_of(v: &Vec<char>) -> (r: Vec<Vec<char>>)
    ensures
        cviews(r@) == words(v@),
{
    let mut done: Vec<Vec<char>> = Vec::new();
    let mut cur: Vec<char> = Vec::new();
    let mut i: usize = 0;
    while i < v.len()
        invariant
            i <= v.len(),
            cviews(done@) == word_pieces(v@.take(i as int)).0,
            cur@ == word_pieces(v@.take(i as int)).1,
        decreases v.len() - i,
    {
        let c = v[i];
        assert(v@.take(i + 1).drop_last() == v@.take(i as int));
        let ghost before = cviews(done@);
        let ghost word = cur@;
        if is_whitespace(c) {
            if cur.len() > 0 {
                done.push(cur);
                assert(cviews(done@) =~= before.push(word));
            }
            cur = Vec::new();
        } else {
            cur.push(c);
        }
        i += 1;
    }
    assert(v@.take(v.len() as int) == v@);
    let ghost before = cviews(done@);
    let ghost word = cur@;
    if cur.len() > 0 {
        done.push(cur);
        assert(cviews(done@) =~= before.push(word));
    }
    done
}

// ── Searching and joining ───────────────────────────────────────────────────

/// The index of the first `c` in `s` at or after `i`.
pub open spec fn find_from(s: Seq<char>, c: char, i: int) -> Option<int>
    decreases s.len() - i,
{
    if i < 0 || i >= s.len() {
        None
    } else if s[i] == c {
        Some(i)
    } else {
        find_from(s, c, i + 1)
    }
}

/// The index of the first `c` in `s` (`str::find`, counted in characters).
pub open spec fn find_char(s: Seq<char>, c: char) -> Option<int> {
    find_from(s, c, 0)
}

proof fn lemma_find_from_found(s: Seq<char>, c: char, i: int)
    requires
        0 <= i,
    ensures
        find_from(s, c, i) matches Some(k) ==> i <= k < s.len() && s[k] == c,
    decreases s.len() - i,
{
    if i < s.len() && s[i] != c {
        lemma_find_from_found(s, c, i + 1);
    }
}

proof fn lemma_find_from_first(s: Seq<char>, c: char, i: int, k: int)
    requires
        0 <= i <= k < s.len(),
        s[k] == c,
        forall|j: int| i <= j < k ==> s[j] != c,
    ensures
        find_from(s, c, i) == Some(k),
    decreases k - i,
{
    if i < k {
        lemma_find_from_first(s, c, i + 1, k);
    }
}

/// The first `c` in `s` is found where it is.
pub proof fn lemma_find_char_first(s: Seq<char>, c: char, k: int)
    requires
        0 <= k < s.len(),
        s[k] == c,
        forall|j: int| 0 <= j < k ==> s[j] != c,
    ensures
        find_char(s, c) == Some(k),
{
    lemma_find_from_first(s, c, 0, k);
}

/// The index of the first `c` in `v`, if any.
pub fn find_in(v: &Vec<char>, c: char) -> (r: Option<usize>)
    ensures
        match r {
            Some(k) => find_char(v@, c) == Some(k as int) && k < v.len() && v@[k as int] == c,
            None => find_char(v@, c) is None,
        },
{
    let mut i: usize = 0;
    while i < v.len()
        invariant
            i <= v.len(),
            find_char(v@, c) == find_from(v@, c, i as int),
        decreases v.len() - i,
    {
        if v[i] == c {
            return Some(i);
        }
        i += 1;
    }
    None
}

/// The characters of `v` from `lo` up to `hi`.
pub fn slice_chars(v: &Vec<char>, lo: usize, hi: usize) -> (r: Vec<char>)
    requires
        lo <= hi <= v.len(),
    ensures
        r@ == v@.subrange(lo as int, hi as int),
{
    let mut r: Vec<char> = Vec::new();
    let mut i: usize = lo;
    while i < hi
        invariant
            lo <= i <= hi <= v.len(),
            r@ == v@.subrange(lo as int, i as int),
        decreases hi - i,
    {
        r.push(v[i]);
        i += 1;
        assert(r@ =~= v@.subrange(lo as int, i as int));
    }
    r
}

/// Whether `c` occurs in `v`.
pub fn contains_char(v: &Vec<char>, c: char) -> (r: bool)
    ensures
        r == v@.contains(c),
{
    let mut i: usize = 0;
    while i < v.len()
        invariant
            i <= v.len(),
            forall|j: int| 0 <= j < i ==> v@[j] != c,
        decreases v.len() - i,
    {
        if v[i] == c {
            assert(v@[i as int] == c);
            return true;
        }
        i += 1;
    }
    false
}

/// `parts.join(sep)`.
pub open spec fn join(parts: Seq<Seq<char>>, sep: Seq<char>) -> Seq<char>
    decreases parts.len(),
{
    if parts.len() == 0 {
        seq![]
    } else if parts.len() == 1 {
        parts[0]
    } else {
        join(parts.drop_last(), sep) + sep + parts.last()
    }
}

/// `p` occurs in `t` as a contiguous stretch.
pub open spec fn has_part(t: Seq<char>, p: Seq<char>) -> bool {
    exists|i: int| 0 <= i && i + p.len() <= t.len() && #[trigger] t.subrange(i, i + p.len()) == p
}

/// Every part occurs, whole, in the parts joined.
pub proof fn lemma_join_has_part(parts: Seq<Seq<char>>, sep: Seq<char>, k: int)
    requires
        0 <= k < parts.len(),
    ensures
        has_part(join(parts, sep), parts[k]),
    decreases parts.len(),
{
    let p = parts[k];
    let j = join(parts, sep);
    if parts.len() == 1 {
        let i: int = 0;
        assert(j.subrange(i, i + p.len()) =~= p);
    } else if k == parts.len() - 1 {
        let head = join(parts.drop_last(), sep) + sep;
        assert(j =~= head + p);
        let i = head.len() as int;
        assert(j.subrange(i, i + p.len()) =~= p);
    } else {
        let front = join(parts.drop_last(), sep);
        assert(parts.drop_last()[k] == p);
        lemma_join_has_part(parts.drop_last(), sep, k);
        let i = choose|i: int| 0 <= i && i + p.len() <= front.len() && #[trigger] front.subrange(i, i + p.len()) == p;
        assert(j =~= front + (sep + parts.last()));
        assert(j.subrange(i, i + p.len()) =~= front.subrange(i, i + p.len()));
    }
}

/// The parts joined with `sep` between consecutive ones.
pub fn join_chars(parts: &Vec<Vec<char>>, sep: &str) -> (r: Vec<char>)
    ensures
        r@ == join(cviews(parts@), sep@),
{
    let mut r: Vec<char> = Vec::new();
    let mut i: usize = 0;
    while i < parts.len()
        invariant
            i <= parts.len(),
            r@ == join(cviews(parts@).take(i as int), sep@),
        decreases parts.len() - i,
    {
        let ghost before = cviews(parts@).take(i as int);
        assert(cviews(parts@).take(i + 1).drop_last() =~= before);
        if i > 0 {
            append_str(&mut r, sep);
        } else {
            assert(r@ =~= seq![]);
        }
        append_chars(&mut r, &parts[i]);
        i += 1;
        assert(r@ =~= join(cviews(parts@).take(i as int), sep@));
    }
    assert(cviews(parts@).take(parts.len() as int) =~= cviews(parts@));
    r
}

// ── UTF-8 lengths ───────────────────────────────────────────────────────────

/// Bytes of the UTF-8 encoding of `c` (`char::len_utf8`).
pub open spec fn utf8_width(c: char) -> nat {
    let u = c as u32;
    if u < 0x80 {
        1
    } else if u < 0x800 {
        2
    } else if u < 0x10000 {
        3
    } else {
        4
    }
}

/// Bytes of the UTF-8 encoding of `s` (`str::len`).
pub open spec fn utf8_len(s: Seq<char>) -> nat
    decreases s.len(),
{
    if s.len() == 0 {
        0
    } else {
        utf8_len(s.drop_last()) + utf8_width(s.last())
    }
}

pub proof fn lemma_utf8_len_concat(a: Seq<char>, b: Seq<char>)
    ensures
        utf8_len(a + b) == utf8_len(a) + utf8_len(b),
    decreases b.len(),
{
    if b.len() == 0 {
        assert(a + b =~= a);
    } else {
        lemma_utf8_len_concat(a, b.drop_last());
        assert((a + b).drop_last() =~= a + b.drop_last());
    }
}

pub proof fn lemma_utf8_len_bounds(s: Seq<char>)
    ensures
        s.len() <= utf8_len(s) <= 4 * s.len(),
    decreases s.len(),
{
    if s.len() > 0 {
        lemma_utf8_len_bounds(s.drop_last());
    }
}

/// The UTF-8 width of one character.
pub fn char_width(c: char) -> (r: usize)
    ensures
        r == utf8_width(c),
{
    let u = c as u32;
    if u < 0x80 {
        1
    } else if u < 0x800 {
        2
    } else if u < 0x10000 {
        3
    } else {
        4
    }
}

/// The UTF-8 length of `v`, as `str::len` counts it (wide enough that no
/// length overflows it).
pub fn utf8_length(v: &Vec<char>) -> (r: u128)
    ensures
        r == utf8_len(v@),
        r <= 4 * v.len(),
{
    proof {
        lemma_utf8_len_bounds(v@);
    }
    let mut n: u128 = 0;
    let mut i: usize = 0;
    while i < v.len()
        invariant
            i <= v.len(),
            n == utf8_len(v@.take(i as int)),
            n <= 4 * i,
        decreases v.len() - i,
    {
        assert(v@.take(i + 1).drop_last() =~= v@.take(i as int));
        n = n + char_width(v[i]) as u128;
        i += 1;
    }
    assert(v@.take(v.len() as int) =~= v@);
    n
}

/// What `trim_start` leaves: `s` past its leading whitespace.
pub proof fn lemma_trim_start_shape(s: Seq<char>)
    ensures
        exists|k: int|
            0 <= k <= s.len() && trim_start(s) == s.skip(k) && (forall|j: int|
                0 <= j < k ==> is_ws(#[trigger] s[j])) && (k < s.len() ==> !is_ws(s[k])),
    decreases s.len(),
{
    if s.len() > 0 && is_ws(s[0]) {
        lemma_trim_start_shape(s.drop_first());
        let k = choose|k: int|
            0 <= k <= s.drop_first().len() && trim_start(s.drop_first()) == s.drop_first().skip(k)
                && (forall|j: int| 0 <= j < k ==> is_ws(#[trigger] s.drop_first()[j])) && (k
                < s.drop_first().len() ==> !is_ws(s.drop_first()[k]));
        assert(s.drop_first().skip(k) =~= s.skip(k + 1));
        assert forall|j: int| 0 <= j < k + 1 implies is_ws(#[trigger] s[j]) by {
            if j > 0 {
                assert(s[j] == s.drop_first()[j - 1]);
            }
        }
    } else {
        assert(s.skip(0) =~= s);
    }
}

/// What `trim_end` leaves: `s` before its trailing whitespace.
pub proof fn lemma_trim_end_shape(s: Seq<char>)
    ensures
        exists|m: int|
            0 <= m <= s.len() && trim_end(s) == s.take(m) && (forall|j: int|
                m <= j < s.len() ==> is_ws(#[trigger] s[j])) && (m > 0 ==> !is_ws(s[m - 1])),
    decreases s.len(),
{
    if s.len() > 0 && is_ws(s.last()) {
        lemma_trim_end_shape(s.drop_last());
        let m = choose|m: int|
            0 <= m <= s.drop_last().len() && trim_end(s.drop_last()) == s.drop_last().take(m)
                && (forall|j: int| m <= j < s.drop_last().len() ==> is_ws(#[trigger] s.drop_last()[j]))
                && (m > 0 ==> !is_ws(s.drop_last()[m - 1]));
        assert(s.drop_last().take(m) =~= s.take(m));
        assert forall|j: int| m <= j < s.len() implies is_ws(#[trigger] s[j]) by {
            if j < s.len() - 1 {
                assert(s[j] == s.drop_last()[j]);
            }
        }
    } else {
        assert(s.take(s.len() as int) =~= s);
    }
}

/// A trimmed text neither starts nor ends with whitespace, and is empty
/// exactly when the text is all whitespace.
pub proof fn lemma_trim_shape(s: Seq<char>)
    ensures
        trim(s).len() > 0 ==> !is_ws(trim(s)[0]) && !is_ws(trim(s).last()),
        trim(s).len() == 0 <==> forall|j: int| 0 <= j < s.len() ==> is_ws(#[trigger] s[j]),
        trim(s).len() <= s.len(),
{
    lemma_trim_start_shape(s);
    let k = choose|k: int|
        0 <= k <= s.len() && trim_start(s) == s.skip(k) && (forall|j: int|
            0 <= j < k ==> is_ws(#[trigger] s[j])) && (k < s.len() ==> !is_ws(s[k]));
    let t = s.skip(k);
    lemma_trim_end_shape(t);
    let m = choose|m: int|
        0 <= m <= t.len() && trim_end(t) == t.take(m) && (forall|j: int|
            m <= j < t.len() ==> is_ws(#[trigger] t[j])) && (m > 0 ==> !is_ws(t[m - 1]));
    if m > 0 {
        assert(trim(s)[0] == s[k]);
        assert(trim(s).last() == t[m - 1]);
    }
    if trim(s).len() == 0 {
        assert forall|j: int| 0 <= j < s.len() implies is_ws(#[trigger] s[j]) by {
            if j >= k {
                assert(s[j] == t[j - k]);
            }
        }
    }
    if forall|j: int| 0 <= j < s.len() ==> is_ws(#[trigger] s[j]) {
        if m > 0 {
            assert(t[m - 1] == s[k + m - 1]);
        }
    }
}

/// Every character of a trimmed text is one of the text's.
pub proof fn lemma_trim_sub(s: Seq<char>)
    ensures
        forall|q: int| 0 <= q < trim(s).len() ==> s.contains(#[trigger] trim(s)[q]),
{
    lemma_trim_start_shape(s);
    let k = choose|k: int|
        0 <= k <= s.len() && trim_start(s) == s.skip(k) && (forall|j: int|
            0 <= j < k ==> is_ws(#[trigger] s[j])) && (k < s.len() ==> !is_ws(s[k]));
    let t = s.skip(k);
    lemma_trim_end_shape(t);
    let m = choose|m: int|
        0 <= m <= t.len() && trim_end(t) == t.take(m) && (forall|j: int|
            m <= j < t.len() ==> is_ws(#[trigger] t[j])) && (m > 0 ==> !is_ws(t[m - 1]));
    assert forall|q: int| 0 <= q < trim(s).len() implies s.contains(#[trigger] trim(s)[q]) by {
        assert(trim(s)[q] == s[k + q]);
    }
}

/// A text that starts with a non-whitespace character keeps it first when
/// trimmed.
pub proof fn lemma_trim_name_head(s: Seq<char>)
    requires
        s.len() > 0,
        !is_ws(s[0]),
    ensures
        trim(s).len() > 0,
        trim(s)[0] == s[0],
{
    assert(trim_start(s) == s);
    lemma_trim_end_shape(s);
    let m = choose|m: int|
        0 <= m <= s.len() && trim_end(s) == s.take(m) && (forall|j: int|
            m <= j < s.len() ==> is_ws(#[trigger] s[j])) && (m > 0 ==> !is_ws(s[m - 1]));
    if m == 0 {
        assert(is_ws(s[0]));
    }
}

/// A text that neither starts nor ends with whitespace trims to itself.
pub proof fn lemma_trim_fixed(s: Seq<char>)
    requires
        s.len() > 0 ==> !is_ws(s[0]) && !is_ws(s.last()),
    ensures
        trim(s) == s,
{
    assert(trim_start(s) == s);
    assert(trim_end(s) == s);
}

// ── Non-whitespace content ──────────────────────────────────────────────────

/// The characters of `s` that are not whitespace, in order.
pub open spec fn nonws(s: Seq<char>) -> Seq<char>
    decreases s.len(),
{
    if s.len() == 0 {
        seq![]
    } else if is_ws(s.last()) {
        nonws(s.drop_last())
    } else {
        nonws(s.drop_last()).push(s.last())
    }
}

pub proof fn lemma_nonws_concat(a: Seq<char>, b: Seq<char>)
    ensures
        nonws(a + b) == nonws(a) + nonws(b),
    decreases b.len(),
{
    if b.len() == 0 {
        assert(a + b =~= a);
        assert(nonws(a) + nonws(b) =~= nonws(a));
    } else {
        lemma_nonws_concat(a, b.drop_last());
        assert((a + b).drop_last() =~= a + b.drop_last());
        assert((a + b).last() == b.last());
        if !is_ws(b.last()) {
            assert(nonws(a) + nonws(b.drop_last()).push(b.last()) =~= (nonws(a) + nonws(b.drop_last())).push(
                b.last(),
            ));
        }
    }
}

pub proof fn lemma_nonws_all_ws(s: Seq<char>)
    requires
        forall|j: int| 0 <= j < s.len() ==> is_ws(#[trigger] s[j]),
    ensures
        nonws(s) == Seq::<char>::empty(),
    decreases s.len(),
{
    if s.len() > 0 {
        assert forall|j: int| 0 <= j < s.drop_last().len() implies is_ws(#[trigger] s.drop_last()[j]) by {
            assert(s.drop_last()[j] == s[j]);
        }
        lemma_nonws_all_ws(s.drop_last());
        assert(is_ws(s[s.len() - 1]));
    }
}

/// Trimming drops whitespace only.
pub proof fn lemma_nonws_trim(s: Seq<char>)
    ensures
        nonws(trim(s)) == nonws(s),
{
    lemma_trim_start_shape(s);
    let k = choose|k: int|
        0 <= k <= s.len() && trim_start(s) == s.skip(k) && (forall|j: int|
            0 <= j < k ==> is_ws(#[trigger] s[j])) && (k < s.len() ==> !is_ws(s[k]));
    let t = s.skip(k);
    lemma_trim_end_shape(t);
    let m = choose|m: int|
        0 <= m <= t.len() && trim_end(t) == t.take(m) && (forall|j: int|
            m <= j < t.len() ==> is_ws(#[trigger] t[j])) && (m > 0 ==> !is_ws(t[m - 1]));
    assert(s =~= s.take(k) + t);
    assert(t =~= t.take(m) + t.skip(m));
    assert forall|j: int| 0 <= j < s.take(k).len() implies is_ws(#[trigger] s.take(k)[j]) by {
        assert(s.take(k)[j] == s[j]);
    }
    assert forall|j: int| 0 <= j < t.skip(m).len() implies is_ws(#[trigger] t.skip(m)[j]) by {
        assert(t.skip(m)[j] == t[j + m]);
    }
    lemma_nonws_all_ws(s.take(k));
    lemma_nonws_all_ws(t.skip(m));
    lemma_nonws_concat(s.take(k), t);
    lemma_nonws_concat(t.take(m), t.skip(m));
    assert(nonws(s) =~= nonws(t));
    assert(nonws(t) =~= nonws(t.take(m)));
}

} // verus!
