//! Splitting documents into chunks for embedding.
use vstd::prelude::*;
use crate::text::{
    nonws, lemma_nonws_concat, lemma_nonws_all_ws, lemma_nonws_trim, utf8_width, lemma_trim_fixed, lemma_trim_shape, lemma_utf8_len_concat, lemma_utf8_len_bounds, append_chars, append_str, chars_of, cviews, is_ws, slice_chars, strings_of, trim, trim_chars,
    utf8_len, utf8_length, views, join,
};

verus! {

/// The size a document chunk aims at, in bytes.
pub const CHUNK_CHARS: usize = 600;

/// The pieces split off so far at `"\n\n"` (left to right, not
/// overlapping), and the text after the last split.
pub open spec fn para_pieces(s: Seq<char>) -> (Seq<Seq<char>>, Seq<char>)
    decreases s.len(),
{
    if s.len() == 0 {
        (seq![], seq![])
    } else {
        let (done, cur) = para_pieces(s.drop_last());
        if s.last() == '\n' && cur.len() > 0 && cur.last() == '\n' {
            (done.push(cur.drop_last()), seq![])
        } else {
            (done, cur.push(s.last()))
        }
    }
}

/// `str::split("\n\n")`.
pub open spec fn paragraphs(s: Seq<char>) -> Seq<Seq<char>> {
    let (done, cur) = para_pieces(s);
    done.push(cur)
}

/// A paragraph longer than the limit, cut every `max` characters.
pub open spec fn hard_split(p: Seq<char>, max: nat) -> Seq<Seq<char>>
    decreases p.len(),
{
    if p.len() == 0 || max == 0 {
        seq![]
    } else if p.len() <= max {
        seq![p]
    } else {
        seq![p.take(max as int)] + hard_split(p.skip(max as int), max)
    }
}

/// One paragraph taken into the chunks done so far and the chunk being
/// filled: whitespace-only paragraphs are skipped; the open chunk is closed
/// when the paragraph would take it (with its `"\n\n"`) past `max` bytes; a
/// paragraph over `max` bytes is cut into chunks of its own, the others are
/// added to the open chunk.
pub open spec fn chunk_step(state: (Seq<Seq<char>>, Seq<char>), piece: Seq<char>, max: nat) -> (Seq<Seq<char>>, Seq<char>) {
    let (chunks, current) = state;
    let para = trim(piece);
    if para.len() == 0 {
        state
    } else {
        let (chunks1, current1) = if utf8_len(current) + utf8_len(para) + 2 > max && current.len() > 0 {
            (chunks.push(trim(current)), seq![])
        } else {
            (chunks, current)
        };
        if utf8_len(para) > max {
            (chunks1 + hard_split(para, max), current1)
        } else if current1.len() > 0 {
            (chunks1, current1 + seq!['\n', '\n'] + para)
        } else {
            (chunks1, para)
        }
    }
}

/// All the paragraphs taken in, in order.
pub open spec fn chunk_fold(pieces: Seq<Seq<char>>, max: nat) -> (Seq<Seq<char>>, Seq<char>)
    decreases pieces.len(),
{
    if pieces.len() == 0 {
        (seq![], seq![])
    } else {
        chunk_step(chunk_fold(pieces.drop_last(), max), pieces.last(), max)
    }
}

/// The chunks of `text`: the closed chunks, then the open one when it holds
/// more than whitespace; a text with no chunk that is not blank is one
/// chunk, trimmed.
pub open spec fn chunks_of(text: Seq<char>, max: nat) -> Seq<Seq<char>> {
    let (chunks, current) = chunk_fold(paragraphs(text), max);
    let all = if trim(current).len() > 0 {
        chunks.push(trim(current))
    } else {
        chunks
    };
    if all.len() == 0 && trim(text).len() > 0 {
        all.push(trim(text))
    } else {
        all
    }
}

/// Splits `v` at `"\n\n"`.
fn split_paragraphs(v: &Vec<char>) -> (r: Vec<Vec<char>>)
    ensures
        cviews(r@) == paragraphs(v@),
{
    let mut done: Vec<Vec<char>> = Vec::new();
    let mut cur: Vec<char> = Vec::new();
    let mut i: usize = 0;
    while i < v.len()
        invariant
            i <= v.len(),
            cviews(done@) == para_pieces(v@.take(i as int)).0,
            cur@ == para_pieces(v@.take(i as int)).1,
        decreases v.len() - i,
    {
        assert(v@.take(i + 1).drop_last() =~= v@.take(i as int));
        let c = v[i];
        if c == '\n' && cur.len() > 0 && cur[cur.len() - 1] == '\n' {
            let ghost before = cviews(done@);
            let mut piece = cur;
            piece.pop();
            let ghost pv = piece@;
            done.push(piece);
            assert(cviews(done@) =~= before.push(pv));
            cur = Vec::new();
        } else {
            cur.push(c);
        }
        i += 1;
    }
    assert(v@.take(v.len() as int) =~= v@);
    let ghost before = cviews(done@);
    let ghost last = cur@;
    done.push(cur);
    assert(cviews(done@) =~= before.push(last));
    done
}

/// Appends the pieces of `para` cut every `max` characters.
fn push_hard_split(chunks: &mut Vec<Vec<char>>, para: &Vec<char>, max: usize)
    requires
        max > 0,
    ensures
        cviews(final(chunks)@) == cviews(old(chunks)@) + hard_split(para@, max as nat),
{
    let mut i: usize = 0;
    assert(para@.skip(0) =~= para@);
    while i < para.len()
        invariant
            i <= para.len(),
            max > 0,
            cviews(old(chunks)@) + hard_split(para@, max as nat) == cviews(chunks@) + hard_split(
                para@.skip(i as int),
                max as nat,
            ),
        decreases para.len() - i,
    {
        let rest = para.len() - i;
        let end = if rest < max { para.len() } else { i + max };
        let piece = slice_chars(para, i, end);
        let ghost r = para@.skip(i as int);
        let ghost before = cviews(chunks@);
        let ghost pv = piece@;
        chunks.push(piece);
        assert(cviews(chunks@) =~= before.push(pv));
        if rest <= max {
            assert(pv =~= r);
            assert(hard_split(r, max as nat) == seq![r]);
            assert(para@.skip(end as int).len() == 0);
        } else {
            assert(pv =~= r.take(max as int));
            assert(r.skip(max as int) =~= para@.skip(end as int));
            assert(before.push(pv) + hard_split(para@.skip(end as int), max as nat) =~= before + (
            seq![pv] + hard_split(para@.skip(end as int), max as nat)));
        }
        i = end;
    }
    assert(hard_split(para@.skip(i as int), max as nat) == Seq::<Seq<char>>::empty());
    assert(cviews(chunks@) + Seq::<Seq<char>>::empty() =~= cviews(chunks@));
}

/// Splits `text` into chunks of about `max_chars` bytes at paragraph
/// boundaries (`"\n\n"`), hard-splitting paragraphs that are longer.
pub fn chunk_text(text: &str, max_chars: usize) -> (r: Vec<String>)
    requires
        max_chars > 0 || trim(text@).len() == 0,
    ensures
        views(r@) == chunks_of(text@, max_chars as nat),
{
    if max_chars == 0 {
        proof {
            lemma_blank_has_no_chunks(text@, 0);
        }
        let none: Vec<String> = Vec::new();
        assert(views(none@) =~= Seq::<Seq<char>>::empty());
        return none;
    }
    let chars = chars_of(text);
    let pieces = split_paragraphs(&chars);
    let mut chunks: Vec<Vec<char>> = Vec::new();
    let mut current: Vec<char> = Vec::new();
    let mut i: usize = 0;
    while i < pieces.len()
        invariant
            i <= pieces.len(),
            max_chars > 0,
            cviews(pieces@) == paragraphs(text@),
            (cviews(chunks@), current@) == chunk_fold(cviews(pieces@).take(i as int), max_chars as nat),
        decreases pieces.len() - i,
    {
        assert(cviews(pieces@).take(i + 1).drop_last() =~= cviews(pieces@).take(i as int));
        assert(cviews(pieces@).take(i + 1).last() == pieces@[i as int]@);
        let para = trim_chars(&pieces[i]);
        if para.len() > 0 {
            let cur_len = utf8_length(&current);
            let para_len = utf8_length(&para);
            if cur_len + para_len + 2 > max_chars as u128 && current.len() > 0 {
                let ghost before = cviews(chunks@);
                let closed = trim_chars(&current);
                let ghost cv = closed@;
                chunks.push(closed);
                assert(cviews(chunks@) =~= before.push(cv));
                current = Vec::new();
            }
            if para_len > max_chars as u128 {
                push_hard_split(&mut chunks, &para, max_chars);
            } else if current.len() > 0 {
                append_str(&mut current, "\n\n");
                proof {
                    reveal_strlit("\n\n");
                    assert("\n\n"@ =~= seq!['\n', '\n']);
                }
                append_chars(&mut current, &para);
            } else {
                current = para;
            }
        }
        i += 1;
    }
    assert(cviews(pieces@).take(pieces.len() as int) =~= cviews(pieces@));
    let last = trim_chars(&current);
    if last.len() > 0 {
        let ghost before = cviews(chunks@);
        let ghost lv = last@;
        chunks.push(last);
        assert(cviews(chunks@) =~= before.push(lv));
    }
    if chunks.len() == 0 {
        let whole = trim_chars(&chars);
        if whole.len() > 0 {
            let ghost before = cviews(chunks@);
            let ghost wv = whole@;
            chunks.push(whole);
            assert(cviews(chunks@) =~= before.push(wv));
        }
    }
    strings_of(&chunks)
}

/// Every character of `s` is whitespace.
pub open spec fn all_ws(s: Seq<char>) -> bool {
    forall|j: int| 0 <= j < s.len() ==> is_ws(#[trigger] s[j])
}

/// The chunks so far all hold between 1 and `max` characters, and the open
/// chunk is trimmed and at most `max` bytes long.
spec fn state_ok(st: (Seq<Seq<char>>, Seq<char>), max: nat) -> bool {
    &&& forall|i: int| 0 <= i < st.0.len() ==> 0 < #[trigger] st.0[i].len() <= max
    &&& st.1.len() > 0 ==> !is_ws(st.1[0]) && !is_ws(st.1.last()) && utf8_len(st.1) <= max
}

proof fn lemma_hard_split_sizes(p: Seq<char>, max: nat)
    requires
        max > 0,
    ensures
        forall|i: int| 0 <= i < hard_split(p, max).len() ==> 0 < #[trigger] hard_split(p, max)[i].len() <= max,
        p.len() > 0 ==> hard_split(p, max).len() > 0,
    decreases p.len(),
{
    if p.len() > max {
        lemma_hard_split_sizes(p.skip(max as int), max);
        let rest = hard_split(p.skip(max as int), max);
        assert forall|i: int| 0 <= i < hard_split(p, max).len() implies 0 < #[trigger] hard_split(p, max)[i].len() <= max by {
            if i > 0 {
                assert(hard_split(p, max)[i] == rest[i - 1]);
            }
        }
    }
}

proof fn lemma_step_ok(st: (Seq<Seq<char>>, Seq<char>), piece: Seq<char>, max: nat)
    requires
        max > 0,
        state_ok(st, max),
    ensures
        state_ok(chunk_step(st, piece, max), max),
        trim(piece).len() > 0 ==> chunk_step(st, piece, max).0.len() > 0 || chunk_step(st, piece, max).1.len() > 0,
        st.0.len() > 0 || st.1.len() > 0 ==> chunk_step(st, piece, max).0.len() > 0 || chunk_step(st, piece, max).1.len() > 0,
        chunk_step(st, piece, max).0.len() >= st.0.len(),
{
    let (chunks, current) = st;
    let para = trim(piece);
    lemma_trim_shape(piece);
    if para.len() > 0 {
        let flush = utf8_len(current) + utf8_len(para) + 2 > max && current.len() > 0;
        if current.len() > 0 {
            lemma_trim_fixed(current);
            lemma_utf8_len_bounds(current);
        }
        let chunks1 = if flush { chunks.push(trim(current)) } else { chunks };
        let current1: Seq<char> = if flush { seq![] } else { current };
        assert forall|i: int| 0 <= i < chunks1.len() implies 0 < #[trigger] chunks1[i].len() <= max by {
            if i < chunks.len() {
                assert(chunks1[i] == chunks[i]);
            }
        }
        if utf8_len(para) > max {
            lemma_hard_split_sizes(para, max);
            let hs = hard_split(para, max);
            let out = chunks1 + hs;
            assert forall|i: int| 0 <= i < out.len() implies 0 < #[trigger] out[i].len() <= max by {
                if i < chunks1.len() {
                    assert(out[i] == chunks1[i]);
                } else {
                    assert(out[i] == hs[i - chunks1.len()]);
                }
            }
        } else if current1.len() > 0 {
            let sep = seq!['\n', '\n'];
            lemma_utf8_len_concat(current1, sep);
            lemma_utf8_len_concat(current1 + sep, para);
            assert(sep.drop_last() =~= seq!['\n']);
            assert(seq!['\n'].drop_last() =~= Seq::<char>::empty());
            assert(utf8_len(Seq::<char>::empty()) == 0);
            assert(utf8_width('\n') == 1);
            assert(utf8_len(seq!['\n']) == utf8_len(Seq::<char>::empty()) + utf8_width('\n'));
            assert(utf8_len(sep) == utf8_len(seq!['\n']) + utf8_width('\n'));
            assert(utf8_len(sep) == 2);
            let joined = current1 + sep + para;
            assert(joined[0] == current1[0]);
            assert(joined.last() == para.last());
        }
    }
}

proof fn lemma_fold_ok(pieces: Seq<Seq<char>>, max: nat)
    requires
        max > 0,
    ensures
        state_ok(chunk_fold(pieces, max), max),
        (exists|i: int| 0 <= i < pieces.len() && trim(#[trigger] pieces[i]).len() > 0) ==> (chunk_fold(
            pieces,
            max,
        ).0.len() > 0 || chunk_fold(pieces, max).1.len() > 0),
        (forall|i: int| 0 <= i < pieces.len() ==> trim(#[trigger] pieces[i]).len() == 0) ==> chunk_fold(
            pieces,
            max,
        ) == (Seq::<Seq<char>>::empty(), Seq::<char>::empty()),
    decreases pieces.len(),
{
    if pieces.len() > 0 {
        let prev = pieces.drop_last();
        lemma_fold_ok(prev, max);
        lemma_step_ok(chunk_fold(prev, max), pieces.last(), max);
        if exists|i: int| 0 <= i < pieces.len() && trim(#[trigger] pieces[i]).len() > 0 {
            let i = choose|i: int| 0 <= i < pieces.len() && trim(#[trigger] pieces[i]).len() > 0;
            if i < pieces.len() - 1 {
                assert(trim(prev[i]).len() > 0);
            }
        }
        if forall|i: int| 0 <= i < pieces.len() ==> trim(#[trigger] pieces[i]).len() == 0 {
            assert forall|i: int| 0 <= i < prev.len() implies trim(#[trigger] prev[i]).len() == 0 by {
                assert(prev[i] == pieces[i]);
            }
            assert(trim(pieces[pieces.len() - 1]).len() == 0);
        }
    } else {
        assert(chunk_fold(pieces, max) == (Seq::<Seq<char>>::empty(), Seq::<char>::empty()));
    }
}

/// All the pieces that `"\n\n"` splits off are whitespace exactly when the
/// whole text is.
proof fn lemma_paragraphs_ws(s: Seq<char>)
    ensures
        all_ws(s) <==> (forall|i: int| 0 <= i < para_pieces(s).0.len() ==> all_ws(#[trigger] para_pieces(s).0[i])) && all_ws(para_pieces(s).1),
    decreases s.len(),
{
    if s.len() > 0 {
        let p = s.drop_last();
        lemma_paragraphs_ws(p);
        let (done, cur) = para_pieces(p);
        let c = s.last();
        assert(s =~= p.push(c));
        if c == '\n' && cur.len() > 0 && cur.last() == '\n' {
            let nd = done.push(cur.drop_last());
            assert(cur =~= cur.drop_last().push(c));
            if all_ws(s) {
                assert forall|j: int| 0 <= j < p.len() implies is_ws(#[trigger] p[j]) by {
                    assert(p[j] == s[j]);
                }
                assert forall|j: int| 0 <= j < cur.drop_last().len() implies is_ws(#[trigger] cur.drop_last()[j]) by {
                    assert(cur.drop_last()[j] == cur[j]);
                }
                assert forall|i: int| 0 <= i < nd.len() implies all_ws(#[trigger] nd[i]) by {
                    if i < done.len() {
                        assert(nd[i] == done[i]);
                    }
                }
            }
            if (forall|i: int| 0 <= i < nd.len() ==> all_ws(#[trigger] nd[i])) {
                assert forall|i: int| 0 <= i < done.len() implies all_ws(#[trigger] done[i]) by {
                    assert(nd[i] == done[i]);
                }
                assert(all_ws(nd[done.len() as int]));
                assert forall|j: int| 0 <= j < cur.len() implies is_ws(#[trigger] cur[j]) by {
                    if j < cur.len() - 1 {
                        assert(cur[j] == cur.drop_last()[j]);
                    }
                }
                assert forall|j: int| 0 <= j < s.len() implies is_ws(#[trigger] s[j]) by {
                    if j < p.len() {
                        assert(s[j] == p[j]);
                    }
                }
            }
        } else {
            let nc = cur.push(c);
            if all_ws(s) {
                assert forall|j: int| 0 <= j < p.len() implies is_ws(#[trigger] p[j]) by {
                    assert(p[j] == s[j]);
                }
                assert(is_ws(s[s.len() - 1]));
                assert forall|j: int| 0 <= j < nc.len() implies is_ws(#[trigger] nc[j]) by {
                    if j < cur.len() {
                        assert(nc[j] == cur[j]);
                    }
                }
            }
            if all_ws(nc) && (forall|i: int| 0 <= i < done.len() ==> all_ws(#[trigger] done[i])) {
                assert forall|j: int| 0 <= j < cur.len() implies is_ws(#[trigger] cur[j]) by {
                    assert(nc[j] == cur[j]);
                }
                assert(is_ws(nc[cur.len() as int]));
                assert forall|j: int| 0 <= j < s.len() implies is_ws(#[trigger] s[j]) by {
                    if j < p.len() {
                        assert(s[j] == p[j]);
                    }
                }
            }
        }
    }
}

/// Every chunk holds at least one and at most `max` characters, and a text
/// has no chunk exactly when it is blank.
pub proof fn lemma_chunk_sizes(text: Seq<char>, max: nat)
    requires
        max > 0,
    ensures
        forall|i: int| 0 <= i < chunks_of(text, max).len() ==> 0 < #[trigger] chunks_of(text, max)[i].len() <= max,
        chunks_of(text, max).len() == 0 <==> trim(text).len() == 0,
{
    let pieces = paragraphs(text);
    lemma_fold_ok(pieces, max);
    lemma_paragraphs_ws(text);
    lemma_trim_shape(text);
    let (chunks, current) = chunk_fold(pieces, max);
    let (done, cur) = para_pieces(text);
    assert forall|i: int| 0 <= i < pieces.len() implies (trim(#[trigger] pieces[i]).len() == 0 <==> all_ws(pieces[i])) by {
        lemma_trim_shape(pieces[i]);
    }
    if current.len() > 0 {
        lemma_trim_fixed(current);
        lemma_utf8_len_bounds(current);
    }
    let all = if trim(current).len() > 0 { chunks.push(trim(current)) } else { chunks };
    assert forall|i: int| 0 <= i < all.len() implies 0 < #[trigger] all[i].len() <= max by {
        if i < chunks.len() {
            assert(all[i] == chunks[i]);
        }
    }
    if trim(text).len() > 0 {
        assert(!all_ws(text));
        assert(!(forall|i: int| 0 <= i < pieces.len() ==> all_ws(#[trigger] pieces[i]))) by {
            if forall|i: int| 0 <= i < pieces.len() ==> all_ws(#[trigger] pieces[i]) {
                assert forall|i: int| 0 <= i < done.len() implies all_ws(#[trigger] done[i]) by {
                    assert(pieces[i] == done[i]);
                }
                assert(all_ws(pieces[done.len() as int]));
            }
        }
        let i = choose|i: int| 0 <= i < pieces.len() && !all_ws(#[trigger] pieces[i]);
        assert(trim(pieces[i]).len() > 0);
        assert(all.len() > 0);
    } else {
        assert(all_ws(text));
        assert forall|i: int| 0 <= i < pieces.len() implies trim(#[trigger] pieces[i]).len() == 0 by {
            if i < done.len() {
                assert(pieces[i] == done[i]);
                assert(all_ws(done[i]));
            }
        }
        assert(trim(Seq::<char>::empty()) == Seq::<char>::empty());
    }
}

/// Splitting at `"\n\n"` drops only newlines.
proof fn lemma_paragraphs_nonws(s: Seq<char>)
    ensures
        nonws(para_pieces(s).0.flatten() + para_pieces(s).1) == nonws(s),
        nonws(paragraphs(s).flatten()) == nonws(s),
    decreases s.len(),
{
    let (done, cur) = para_pieces(s);
    if s.len() == 0 {
        assert(done.flatten() + cur =~= Seq::<char>::empty());
    } else {
        let p = s.drop_last();
        let c = s.last();
        lemma_paragraphs_nonws(p);
        let (d0, c0) = para_pieces(p);
        assert(s =~= p + seq![c]);
        lemma_nonws_concat(p, seq![c]);
        lemma_nonws_concat(d0.flatten(), c0);
        if c == '\n' && c0.len() > 0 && c0.last() == '\n' {
            d0.lemma_flatten_push(c0.drop_last());
            assert(c0 =~= c0.drop_last() + seq![c]);
            lemma_nonws_concat(c0.drop_last(), seq![c]);
            lemma_nonws_concat(d0.flatten(), c0.drop_last());
            assert(is_ws('\n'));
            assert(nonws(seq![c]) =~= Seq::<char>::empty()) by {
                assert(seq![c].drop_last() =~= Seq::<char>::empty());
            }
            assert(done.flatten() + cur =~= d0.flatten() + c0.drop_last());
        } else {
            assert(d0.flatten() + c0.push(c) =~= (d0.flatten() + c0) + seq![c]);
            lemma_nonws_concat(d0.flatten() + c0, seq![c]);
            lemma_nonws_concat(d0.flatten(), c0.push(c));
        }
    }
    done.lemma_flatten_push(cur);
}

/// The pieces of a hard split, put back together, are the paragraph.
proof fn lemma_hard_split_flatten(p: Seq<char>, max: nat)
    requires
        max > 0,
    ensures
        hard_split(p, max).flatten() == p,
    decreases p.len(),
{
    if p.len() == 0 {
        assert(hard_split(p, max).flatten() =~= p);
    } else if p.len() <= max {
        hard_split(p, max).lemma_flatten_singleton();
    } else {
        lemma_hard_split_flatten(p.skip(max as int), max);
        vstd::seq_lib::lemma_flatten_concat(seq![p.take(max as int)], hard_split(p.skip(max as int), max));
        seq![p.take(max as int)].lemma_flatten_singleton();
        assert(p.take(max as int) + p.skip(max as int) =~= p);
    }
}

/// One step of the fold keeps the non-whitespace content: what the state
/// held, then what the piece holds.
proof fn lemma_step_nonws(st: (Seq<Seq<char>>, Seq<char>), piece: Seq<char>, max: nat)
    requires
        max > 0,
    ensures
        nonws(chunk_step(st, piece, max).0.flatten() + chunk_step(st, piece, max).1) == nonws(
            st.0.flatten() + st.1,
        ) + nonws(piece),
{
    let (chunks, current) = st;
    let para = trim(piece);
    lemma_nonws_trim(piece);
    lemma_nonws_concat(chunks.flatten(), current);
    if para.len() == 0 {
        assert(nonws(para) =~= Seq::<char>::empty());
        assert(nonws(st.0.flatten() + st.1) + nonws(piece) =~= nonws(st.0.flatten() + st.1));
    } else {
        let flush = utf8_len(current) + utf8_len(para) + 2 > max && current.len() > 0;
        let chunks1 = if flush { chunks.push(trim(current)) } else { chunks };
        let current1: Seq<char> = if flush { seq![] } else { current };
        chunks.lemma_flatten_push(trim(current));
        lemma_nonws_trim(current);
        lemma_nonws_concat(chunks.flatten(), trim(current));
        lemma_nonws_concat(chunks1.flatten(), current1);
        assert(nonws(chunks1.flatten() + current1) == nonws(chunks.flatten() + current)) by {
            if flush {
                assert(nonws(chunks1.flatten()) + nonws(current1) =~= nonws(chunks1.flatten()));
            }
        }
        let (c2, cur2) = chunk_step(st, piece, max);
        if utf8_len(para) > max {
            assert(current1.len() == 0);
            lemma_hard_split_flatten(para, max);
            vstd::seq_lib::lemma_flatten_concat(chunks1, hard_split(para, max));
            assert(c2.flatten() + cur2 =~= chunks1.flatten() + para);
            lemma_nonws_concat(chunks1.flatten(), para);
            assert(nonws(chunks1.flatten() + current1) =~= nonws(chunks1.flatten()) + nonws(current1));
            assert(nonws(current1) =~= Seq::<char>::empty());
        } else if current1.len() > 0 {
            let sep = seq!['\n', '\n'];
            assert(c2.flatten() + cur2 =~= (chunks1.flatten() + current1) + (sep + para));
            lemma_nonws_concat(chunks1.flatten() + current1, sep + para);
            lemma_nonws_concat(sep, para);
            assert(is_ws('\n'));
            lemma_nonws_all_ws(sep);
            assert(Seq::<char>::empty() + nonws(para) =~= nonws(para));
        } else {
            assert(c2.flatten() + cur2 =~= chunks1.flatten() + para);
            lemma_nonws_concat(chunks1.flatten(), para);
            assert(nonws(current1) =~= Seq::<char>::empty());
            assert(nonws(chunks1.flatten()) + nonws(current1) =~= nonws(chunks1.flatten()));
        }
    }
}

proof fn lemma_fold_nonws(pieces: Seq<Seq<char>>, max: nat)
    requires
        max > 0,
    ensures
        nonws(chunk_fold(pieces, max).0.flatten() + chunk_fold(pieces, max).1) == nonws(pieces.flatten()),
    decreases pieces.len(),
{
    if pieces.len() == 0 {
        assert(chunk_fold(pieces, max).0.flatten() + chunk_fold(pieces, max).1 =~= Seq::<char>::empty());
        assert(pieces.flatten() =~= Seq::<char>::empty());
    } else {
        let prev = pieces.drop_last();
        lemma_fold_nonws(prev, max);
        lemma_step_nonws(chunk_fold(prev, max), pieces.last(), max);
        assert(pieces =~= prev.push(pieces.last()));
        prev.lemma_flatten_push(pieces.last());
        lemma_nonws_concat(prev.flatten(), pieces.last());
    }
}

/// Chunking loses, adds and reorders no character other than whitespace:
/// the chunks, put together in order, hold the text's non-whitespace
/// characters in their order.
pub proof fn lemma_chunks_keep_text(text: Seq<char>, max: nat)
    requires
        max > 0,
    ensures
        nonws(chunks_of(text, max).flatten()) == nonws(text),
{
    let pieces = paragraphs(text);
    lemma_paragraphs_nonws(text);
    lemma_fold_nonws(pieces, max);
    let (chunks, current) = chunk_fold(pieces, max);
    lemma_nonws_concat(chunks.flatten(), current);
    lemma_nonws_trim(current);
    let all = if trim(current).len() > 0 {
        chunks.push(trim(current))
    } else {
        chunks
    };
    chunks.lemma_flatten_push(trim(current));
    lemma_nonws_concat(chunks.flatten(), trim(current));
    if trim(current).len() == 0 {
        assert(nonws(trim(current)) =~= Seq::<char>::empty());
        assert(nonws(chunks.flatten()) + nonws(current) =~= nonws(chunks.flatten()));
    }
    assert(nonws(all.flatten()) == nonws(text));
    if all.len() == 0 && trim(text).len() > 0 {
        all.lemma_flatten_push(trim(text));
        assert(all.flatten() =~= Seq::<char>::empty());
        assert(all.push(trim(text)).flatten() =~= trim(text));
        lemma_nonws_trim(text);
    }
}

proof fn lemma_fold_blank(pieces: Seq<Seq<char>>, max: nat)
    requires
        forall|i: int| 0 <= i < pieces.len() ==> trim(#[trigger] pieces[i]).len() == 0,
    ensures
        chunk_fold(pieces, max) == (Seq::<Seq<char>>::empty(), Seq::<char>::empty()),
    decreases pieces.len(),
{
    if pieces.len() > 0 {
        let prev = pieces.drop_last();
        assert forall|i: int| 0 <= i < prev.len() implies trim(#[trigger] prev[i]).len() == 0 by {
            assert(prev[i] == pieces[i]);
        }
        lemma_fold_blank(prev, max);
        assert(trim(pieces[pieces.len() - 1]).len() == 0);
    }
}

/// A blank text has no chunk, whatever the limit.
proof fn lemma_blank_has_no_chunks(text: Seq<char>, max: nat)
    requires
        trim(text).len() == 0,
    ensures
        chunks_of(text, max) == Seq::<Seq<char>>::empty(),
{
    lemma_trim_shape(text);
    lemma_paragraphs_ws(text);
    let (done, cur) = para_pieces(text);
    let pieces = paragraphs(text);
    assert(all_ws(text));
    assert forall|i: int| 0 <= i < pieces.len() implies trim(#[trigger] pieces[i]).len() == 0 by {
        lemma_trim_shape(pieces[i]);
        if i < done.len() {
            assert(pieces[i] == done[i]);
            assert(all_ws(done[i]));
        } else {
            assert(pieces[i] == cur);
        }
    }
    lemma_fold_blank(pieces, max);
    assert(trim(Seq::<char>::empty()) == Seq::<char>::empty());
}

/// `p` holds no blank-line separator `"\n\n"`.
pub open spec fn no_blank_line(p: Seq<char>) -> bool {
    forall|i: int| 0 <= i && i + 1 < p.len() ==> !(#[trigger] p[i] == '\n' && p[i + 1] == '\n')
}

/// The pieces split off so far and the open piece, joined back with the
/// separators, give the text; no piece holds a separator, and no piece
/// split off ends with a newline (the separator found is the leftmost).
spec fn pieces_ok(s: Seq<char>) -> bool {
    let (done, cur) = para_pieces(s);
    &&& join(done.push(cur), "\n\n"@) == s
    &&& no_blank_line(cur)
    &&& forall|i: int| 0 <= i < done.len() ==> no_blank_line(#[trigger] done[i])
    &&& forall|i: int| 0 <= i < done.len() ==> !(done[i].len() > 0 && #[trigger] done[i].last() == '\n')
}

proof fn lemma_pieces_ok(s: Seq<char>)
    ensures
        pieces_ok(s),
    decreases s.len(),
{
    reveal_strlit("\n\n");
    let (done, cur) = para_pieces(s);
    if s.len() == 0 {
        assert(done.push(cur) =~= seq![Seq::<char>::empty()]);
        assert(join(done.push(cur), "\n\n"@) =~= s);
    } else {
        let p = s.drop_last();
        let c = s.last();
        lemma_pieces_ok(p);
        let (d0, c0) = para_pieces(p);
        assert(s =~= p.push(c));
        assert(d0.push(c0).drop_last() =~= d0);
        if c == '\n' && c0.len() > 0 && c0.last() == '\n' {
            let piece = c0.drop_last();
            assert(c0 =~= piece.push('\n'));
            let nd = d0.push(piece);
            assert(nd.push(Seq::<char>::empty()).drop_last() =~= nd);
            assert(nd.drop_last() =~= d0);
            if d0.len() == 0 {
                assert(join(nd, "\n\n"@) == piece);
                assert(join(nd.push(Seq::<char>::empty()), "\n\n"@) =~= piece + "\n\n"@);
                assert(join(d0.push(c0), "\n\n"@) == c0);
                assert(s =~= piece + "\n\n"@);
                assert(join(done.push(cur), "\n\n"@) == s);
            } else {
                assert(join(nd, "\n\n"@) == join(d0, "\n\n"@) + "\n\n"@ + piece);
                assert(join(d0.push(c0), "\n\n"@) == join(d0, "\n\n"@) + "\n\n"@ + c0);
                assert(join(nd.push(Seq::<char>::empty()), "\n\n"@) =~= join(nd, "\n\n"@) + "\n\n"@);
                assert(s =~= join(d0, "\n\n"@) + "\n\n"@ + c0 + seq!['\n']);
                assert(join(done.push(cur), "\n\n"@) =~= s);
            }
            assert forall|i: int| 0 <= i && i + 1 < piece.len() implies !(#[trigger] piece[i] == '\n' && piece[i + 1] == '\n') by {
                assert(piece[i] == c0[i] && piece[i + 1] == c0[i + 1]);
            }
            if piece.len() > 0 && piece.last() == '\n' {
                assert(c0[piece.len() - 1] == '\n' && c0[piece.len() as int] == '\n');
            }
            assert forall|i: int| 0 <= i < nd.len() implies no_blank_line(#[trigger] nd[i]) by {
                if i < d0.len() {
                    assert(nd[i] == d0[i]);
                }
            }
            assert forall|i: int| 0 <= i < nd.len() implies !(nd[i].len() > 0 && #[trigger] nd[i].last() == '\n') by {
                if i < d0.len() {
                    assert(nd[i] == d0[i]);
                }
            }
            assert(no_blank_line(Seq::<char>::empty()));
        } else {
            let nc = c0.push(c);
            assert(d0.push(nc).drop_last() =~= d0);
            if d0.len() == 0 {
                assert(join(d0.push(nc), "\n\n"@) == nc);
                assert(join(d0.push(c0), "\n\n"@) == c0);
                assert(join(done.push(cur), "\n\n"@) =~= s);
            } else {
                assert(join(d0.push(nc), "\n\n"@) == join(d0, "\n\n"@) + "\n\n"@ + nc);
                assert(join(d0.push(c0), "\n\n"@) == join(d0, "\n\n"@) + "\n\n"@ + c0);
                assert(join(d0, "\n\n"@) + "\n\n"@ + nc =~= (join(d0, "\n\n"@) + "\n\n"@ + c0).push(c));
                assert(join(done.push(cur), "\n\n"@) =~= s);
            }
            assert forall|i: int| 0 <= i && i + 1 < nc.len() implies !(#[trigger] nc[i] == '\n' && nc[i + 1] == '\n') by {
                if i + 1 < c0.len() {
                    assert(nc[i] == c0[i] && nc[i + 1] == c0[i + 1]);
                } else {
                    assert(nc[i] == c0.last());
                }
            }
        }
    }
}

/// Paragraphs are `str::split("\n\n")`: joined back with the separator
/// they give the text; none holds a separator; and each separator is the
/// leftmost one, so no paragraph before the last ends with a newline.
pub proof fn lemma_paragraphs_split(s: Seq<char>)
    ensures
        join(paragraphs(s), "\n\n"@) == s,
        forall|i: int| 0 <= i < paragraphs(s).len() ==> no_blank_line(#[trigger] paragraphs(s)[i]),
        forall|i: int|
            0 <= i < paragraphs(s).len() - 1 ==> !(paragraphs(s)[i].len() > 0 && #[trigger] paragraphs(s)[i].last()
                == '\n'),
{
    lemma_pieces_ok(s);
    let (done, cur) = para_pieces(s);
    assert forall|i: int| 0 <= i < paragraphs(s).len() implies no_blank_line(#[trigger] paragraphs(s)[i]) by {
        if i < done.len() {
            assert(paragraphs(s)[i] == done[i]);
        }
    }
    assert forall|i: int| 0 <= i < paragraphs(s).len() - 1 implies !(paragraphs(s)[i].len() > 0
        && #[trigger] paragraphs(s)[i].last() == '\n') by {
        assert(paragraphs(s)[i] == done[i]);
    }
}

proof fn lemma_single_paragraph(s: Seq<char>)
    requires
        no_blank_line(s),
    ensures
        para_pieces(s) == (Seq::<Seq<char>>::empty(), s),
    decreases s.len(),
{
    if s.len() > 0 {
        let p = s.drop_last();
        assert forall|i: int| 0 <= i && i + 1 < p.len() implies !(#[trigger] p[i] == '\n' && p[i + 1] == '\n') by {
            assert(p[i] == s[i] && p[i + 1] == s[i + 1]);
        }
        lemma_single_paragraph(p);
        if p.len() > 0 {
            assert(s[p.len() - 1] == p.last());
        }
        assert(p.push(s.last()) =~= s);
    }
}

/// A text with no blank line that fits in the limit is one chunk: the
/// text, trimmed, with its single line breaks kept as written.
pub proof fn lemma_one_paragraph_one_chunk(t: Seq<char>, max: nat)
    requires
        no_blank_line(t),
        trim(t).len() > 0,
        utf8_len(trim(t)) <= max,
    ensures
        chunks_of(t, max) == seq![trim(t)],
{
    lemma_single_paragraph(t);
    let pieces = paragraphs(t);
    assert(pieces =~= seq![t]);
    assert(pieces.drop_last() =~= Seq::<Seq<char>>::empty());
    lemma_trim_shape(t);
    lemma_trim_fixed(trim(t));
    let st = chunk_fold(pieces, max);
    assert(chunk_fold(pieces.drop_last(), max) == (Seq::<Seq<char>>::empty(), Seq::<char>::empty()));
    assert(pieces.last() == t);
    assert(st == chunk_step((Seq::<Seq<char>>::empty(), Seq::<char>::empty()), t, max));
    assert(st == (Seq::<Seq<char>>::empty(), trim(t)));
    assert(seq![trim(t)] =~= Seq::<Seq<char>>::empty().push(trim(t)));
}

} // verus!
