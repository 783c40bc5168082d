//! Reading the size of an instruction out of `objdump -D` output.
use vstd::prelude::*;
use crate::text::{
    is_ws, join, word_pieces, lemma_find_char_first, lemma_trim_end_shape, trim_start, trim_end,
    chars_of, cviews, find_char, find_in, lines, lines_of, slice_chars, trim, trim_chars, words,
    words_of,
};

verus! {

/// The number of hex byte pairs in one disassembly line
/// (`"   8000100:\t01 d0       \tbne.n\t0x8000104"` has 2): the words of
/// the column between the first and second tab after the first `:`.
pub open spec fn line_byte_count(line: Seq<char>) -> Option<u32> {
    match find_char(line, ':') {
        None => None,
        Some(k) => {
            let after = line.skip(k + 1);
            match find_char(after, '\t') {
                None => None,
                Some(t1) => {
                    let rest = after.skip(t1 + 1);
                    match find_char(rest, '\t') {
                        None => None,
                        Some(t2) => {
                            let col = trim(rest.take(t2));
                            if col.len() == 0 {
                                None
                            } else {
                                let c = words(col).len() as u32;
                                if c > 0 {
                                    Some(c)
                                } else {
                                    None
                                }
                            }
                        },
                    }
                },
            }
        },
    }
}

/// The byte count of the first line that shows one.
pub open spec fn first_byte_count(ls: Seq<Seq<char>>) -> Option<u32>
    decreases ls.len(),
{
    if ls.len() == 0 {
        None
    } else {
        match line_byte_count(ls[0]) {
            Some(c) => Some(c),
            None => first_byte_count(ls.drop_first()),
        }
    }
}

/// The characters of `v` after index `k`.
fn tail_after(v: &Vec<char>, k: usize) -> (r: Vec<char>)
    requires
        k < v.len(),
    ensures
        r@ == v@.skip(k + 1),
{
    let r = slice_chars(v, k + 1, v.len());
    assert(r@ =~= v@.skip(k + 1));
    r
}

fn line_count(line: &Vec<char>) -> (r: Option<u32>)
    ensures
        r == line_byte_count(line@),
{
    let k = match find_in(line, ':') {
        None => return None,
        Some(k) => k,
    };
    let after = tail_after(line, k);
    let t1 = match find_in(&after, '\t') {
        None => return None,
        Some(t) => t,
    };
    let rest = tail_after(&after, t1);
    let t2 = match find_in(&rest, '\t') {
        None => return None,
        Some(t) => t,
    };
    let col_raw = slice_chars(&rest, 0, t2);
    assert(col_raw@ =~= rest@.take(t2 as int));
    let col = trim_chars(&col_raw);
    if col.len() == 0 {
        return None;
    }
    let ws = words_of(&col);
    let c = ws.len() as u32;
    if c > 0 {
        Some(c)
    } else {
        None
    }
}

/// The byte count of the first instruction in `objdump -D` output, if any
/// line shows one.
pub fn parse_objdump_byte_count(output: &str) -> (r: Option<u32>)
    ensures
        r == first_byte_count(lines(output@)),
{
    let text = chars_of(output);
    let ls = lines_of(&text);
    let mut i: usize = 0;
    assert(cviews(ls@).skip(0) =~= cviews(ls@));
    while i < ls.len()
        invariant
            i <= ls.len(),
            cviews(ls@) == lines(output@),
            first_byte_count(lines(output@)) == first_byte_count(cviews(ls@).skip(i as int)),
        decreases ls.len() - i,
    {
        let ghost rest = cviews(ls@).skip(i as int);
        assert(rest[0] == ls@[i as int]@);
        assert(rest.drop_first() =~= cviews(ls@).skip(i + 1));
        match line_count(&ls[i]) {
            Some(c) => {
                return Some(c);
            },
            None => {},
        }
        i += 1;
    }
    None
}

/// The byte count read from the output is that of the first line showing
/// one: the lines before it show none, and the lines after it play no part.
pub proof fn lemma_byte_count_is_first_line(ls: Seq<Seq<char>>)
    ensures
        first_byte_count(ls) matches Some(c) ==> exists|i: int|
            0 <= i < ls.len() && line_byte_count(#[trigger] ls[i]) == Some(c) && forall|j: int|
                0 <= j < i ==> line_byte_count(#[trigger] ls[j]) is None,
        first_byte_count(ls) is None ==> forall|i: int| 0 <= i < ls.len() ==> line_byte_count(#[trigger] ls[i]) is None,
    decreases ls.len(),
{
    if ls.len() > 0 {
        let rest = ls.drop_first();
        lemma_byte_count_is_first_line(rest);
        if line_byte_count(ls[0]) is None {
            if let Some(c) = first_byte_count(rest) {
                let i = choose|i: int|
                    0 <= i < rest.len() && line_byte_count(#[trigger] rest[i]) == Some(c) && forall|j: int|
                        0 <= j < i ==> line_byte_count(#[trigger] rest[j]) is None;
                assert(ls[i + 1] == rest[i]);
                assert forall|j: int| 0 <= j < i + 1 implies line_byte_count(#[trigger] ls[j]) is None by {
                    if j > 0 {
                        assert(ls[j] == rest[j - 1]);
                    }
                }
            } else {
                assert forall|i: int| 0 <= i < ls.len() implies line_byte_count(#[trigger] ls[i]) is None by {
                    if i > 0 {
                        assert(ls[i] == rest[i - 1]);
                    }
                }
            }
        }
    }
}

/// A line that shows a byte count decides the count whatever lines follow
/// it; a line that shows none leaves the count to the lines after it.
pub proof fn lemma_first_line_decides(l: Seq<char>, rest: Seq<Seq<char>>)
    ensures
        line_byte_count(l) is Some ==> first_byte_count(seq![l] + rest) == line_byte_count(l),
        line_byte_count(l) is None ==> first_byte_count(seq![l] + rest) == first_byte_count(rest),
{
    assert((seq![l] + rest)[0] == l);
    assert((seq![l] + rest).drop_first() =~= rest);
}

/// A byte column: non-empty and with no whitespace.
pub open spec fn is_column(c: Seq<char>) -> bool {
    c.len() > 0 && forall|j: int| 0 <= j < c.len() ==> !is_ws(#[trigger] c[j])
}

proof fn lemma_word_pieces_append(y: Seq<char>, w: Seq<char>)
    requires
        forall|j: int| 0 <= j < w.len() ==> !is_ws(#[trigger] w[j]),
    ensures
        word_pieces(y + w) == (word_pieces(y).0, word_pieces(y).1 + w),
    decreases w.len(),
{
    if w.len() == 0 {
        assert(y + w =~= y);
        assert(word_pieces(y).1 + w =~= word_pieces(y).1);
    } else {
        let wl = w.drop_last();
        assert forall|j: int| 0 <= j < wl.len() implies !is_ws(#[trigger] wl[j]) by {
            assert(wl[j] == w[j]);
        }
        lemma_word_pieces_append(y, wl);
        assert((y + w).drop_last() =~= y + wl);
        assert((y + w).last() == w.last());
        assert(!is_ws(w[w.len() - 1]));
        assert((word_pieces(y).1 + wl).push(w.last()) =~= word_pieces(y).1 + w);
    }
}

proof fn lemma_columns_joined(cols: Seq<Seq<char>>)
    requires
        cols.len() > 0,
        forall|i: int| 0 <= i < cols.len() ==> is_column(#[trigger] cols[i]),
    ensures
        word_pieces(join(cols, " "@)) == (cols.drop_last(), cols.last()),
        join(cols, " "@).len() > 0,
        join(cols, " "@)[0] == cols[0][0],
        join(cols, " "@).last() == cols.last().last(),
        forall|i: int| 0 <= i < join(cols, " "@).len() ==> #[trigger] join(cols, " "@)[i] != '\t',
    decreases cols.len(),
{
    reveal_strlit(" ");
    let j = join(cols, " "@);
    let w = cols.last();
    assert(is_column(cols[cols.len() - 1]));
    if cols.len() == 1 {
        assert(word_pieces(Seq::<char>::empty()) == (Seq::<Seq<char>>::empty(), Seq::<char>::empty()));
        lemma_word_pieces_append(Seq::<char>::empty(), w);
        assert(Seq::<char>::empty() + w =~= w);
        assert(cols.drop_last() =~= Seq::<Seq<char>>::empty());
        assert(Seq::<char>::empty() + w =~= w);
        assert forall|i: int| 0 <= i < j.len() implies #[trigger] j[i] != '\t' by {
            assert(!is_ws(w[i]));
        }
    } else {
        let dl = cols.drop_last();
        assert forall|i: int| 0 <= i < dl.len() implies is_column(#[trigger] dl[i]) by {
            assert(dl[i] == cols[i]);
        }
        lemma_columns_joined(dl);
        let front = join(dl, " "@);
        let sp = front + " "@;
        assert(sp.drop_last() =~= front);
        assert(sp.last() == ' ');
        assert(is_ws(' '));
        assert(word_pieces(sp) == (dl.drop_last().push(dl.last()), Seq::<char>::empty()));
        assert(dl.drop_last().push(dl.last()) =~= dl);
        lemma_word_pieces_append(sp, w);
        assert(j == sp + w);
        assert(Seq::<char>::empty() + w =~= w);
        assert(j[0] == front[0]);
        assert(dl[0] == cols[0]);
        assert forall|i: int| 0 <= i < j.len() implies #[trigger] j[i] != '\t' by {
            if i < front.len() {
                assert(j[i] == front[i]);
            } else if i > front.len() {
                assert(j[i] == w[i - front.len() - 1]);
                assert(!is_ws(w[i - front.len() - 1]));
            }
        }
    }
}

proof fn lemma_trim_padded(j: Seq<char>, pad: Seq<char>)
    requires
        j.len() > 0,
        !is_ws(j[0]),
        !is_ws(j.last()),
        forall|i: int| 0 <= i < pad.len() ==> #[trigger] pad[i] == ' ',
    ensures
        trim(j + pad) == j,
{
    let s = j + pad;
    assert(trim_start(s) == s);
    lemma_trim_end_shape(s);
    let m = choose|m: int|
        0 <= m <= s.len() && trim_end(s) == s.take(m) && (forall|q: int|
            m <= q < s.len() ==> is_ws(#[trigger] s[q])) && (m > 0 ==> !is_ws(s[m - 1]));
    assert(is_ws(' '));
    if m < j.len() {
        assert(s[j.len() - 1] == j.last());
    }
    if m > j.len() {
        assert(s[m - 1] == pad[m - 1 - j.len()]);
    }
    assert(s.take(m) =~= j);
}

/// A disassembly line `ADDR:\tB1 B2 ... Bk<spaces>\tINSN`, its byte columns
/// separated by single spaces, shows `k` bytes: the count is the number
/// of byte columns, whatever the address and the instruction text.
pub proof fn lemma_line_counts_columns(addr: Seq<char>, cols: Seq<Seq<char>>, pad: Seq<char>, insn: Seq<char>)
    requires
        !addr.contains(':'),
        0 < cols.len() <= u32::MAX,
        forall|i: int| 0 <= i < cols.len() ==> is_column(#[trigger] cols[i]),
        forall|i: int| 0 <= i < pad.len() ==> #[trigger] pad[i] == ' ',
    ensures
        line_byte_count(addr + ":\t"@ + join(cols, " "@) + pad + "\t"@ + insn) == Some(cols.len() as u32),
{
    reveal_strlit(":\t");
    reveal_strlit("\t");
    lemma_columns_joined(cols);
    let j = join(cols, " "@);
    let line = addr + ":\t"@ + j + pad + "\t"@ + insn;
    let k = addr.len() as int;
    assert(line[k] == ':');
    assert forall|q: int| 0 <= q < k implies line[q] != ':' by {
        assert(line[q] == addr[q]);
        if addr[q] == ':' {
            assert(addr.contains(':'));
        }
    }
    lemma_find_char_first(line, ':', k);
    let after = line.skip(k + 1);
    assert(after =~= "\t"@ + (j + pad + "\t"@ + insn));
    lemma_find_char_first(after, '\t', 0);
    let rest = after.skip(1);
    assert(rest =~= (j + pad) + ("\t"@ + insn));
    let t2 = (j.len() + pad.len()) as int;
    assert(rest[t2] == '\t');
    assert forall|q: int| 0 <= q < t2 implies rest[q] != '\t' by {
        if q < j.len() {
            assert(rest[q] == j[q]);
        } else {
            assert(rest[q] == pad[q - j.len()]);
        }
    }
    lemma_find_char_first(rest, '\t', t2);
    assert(rest.take(t2) =~= j + pad);
    assert(cols[0].len() > 0 && !is_ws(cols[0][0]));
    let w = cols.last();
    assert(is_column(cols[cols.len() - 1]));
    assert(!is_ws(w[w.len() - 1]));
    lemma_trim_padded(j, pad);
    assert(cols.drop_last().push(cols.last()) =~= cols);
}

} // verus!
