//! Byte codec for cached snapshots.
//!
//! The cache holds immutable serialized snapshots of passages, not live
//! objects. This module fixes the snapshot format: little-endian integers,
//! length-prefixed character and item lists, and a leading tag byte per
//! payload kind. Encoding and decoding are verified against one another:
//! decoding an encoded value yields the value back, and a decoder accepts a
//! payload only by reading it exactly as the format says.

use vstd::prelude::*;
use vstd::bytes::{
    spec_u16_to_le_bytes, spec_u16_from_le_bytes, spec_u32_to_le_bytes, spec_u32_from_le_bytes,
    lemma_auto_spec_u16_to_from_le_bytes, lemma_auto_spec_u32_to_from_le_bytes, u16_from_le_bytes,
    u16_to_le_bytes, u32_from_le_bytes, u32_to_le_bytes,
};
use vstd::slice::slice_subrange;
use vstd::utf8::is_scalar;
use crate::corpora::{
    Corpus, Translation, TransData, Book, Verse, Chapter, TorahPortion, Passage, TranslationM, TransDataM, BookM, XrefSrcCt, XrefCt, VerseM, ChapterM, TorahPortionM,
    PassageM,
};

verus! {

/// Relies on `char::from_u32`: it returns the character with the given code
/// point exactly when the code point is a Unicode scalar value (not a
/// surrogate and at most 0x10FFFF), and `None` otherwise.
pub assume_specification[ char::from_u32 ](u: u32) -> (r: Option<char>)
    ensures
        r is Some <==> is_scalar(u),
        r matches Some(c) ==> c as u32 == u,
;

/// Relies on `String::push`: it appends the given character to the end of
/// the string.
pub assume_specification[ String::push ](s: &mut String, c: char)
    ensures
        final(s)@ == old(s)@.push(c),
;

/// A text can be length-prefixed with a four-byte count.
pub open spec fn str_ok(s: Seq<char>) -> bool {
    s.len() <= u32::MAX
}

/// The unsigned carrier of an `i16`, shifted so that the order of the
/// signed values is kept.
pub open spec fn shift_i16(x: i16) -> u16 {
    (x as int + 0x8000) as u16
}

/// Inverse of `shift_i16`.
pub open spec fn unshift_i16(u: u16) -> i16 {
    (u as int - 0x8000) as i16
}

/// The unsigned carrier of an `i32`, shifted so that the order of the
/// signed values is kept.
pub open spec fn shift_i32(x: i32) -> u32 {
    (x as int + 0x80000000) as u32
}

/// Inverse of `shift_i32`.
pub open spec fn unshift_i32(u: u32) -> i32 {
    (u as int - 0x80000000) as i32
}

/// Encoding of a `u16`: two bytes, little endian.
pub open spec fn enc_u16(x: u16) -> Seq<u8> {
    spec_u16_to_le_bytes(x)
}

/// Encoding of a `u32`: four bytes, little endian.
pub open spec fn enc_u32(x: u32) -> Seq<u8> {
    spec_u32_to_le_bytes(x)
}

/// Encoding of an `i16` through its shifted carrier.
pub open spec fn enc_i16(x: i16) -> Seq<u8> {
    enc_u16(shift_i16(x))
}

/// Encoding of an `i32` through its shifted carrier.
pub open spec fn enc_i32(x: i32) -> Seq<u8> {
    enc_u32(shift_i32(x))
}

/// Encoding of a character: its code point as a `u32`.
pub open spec fn enc_char(c: char) -> Seq<u8> {
    enc_u32(c as u32)
}

/// Concatenated encodings of the items of `s`, each encoded by `f`.
pub open spec fn enc_list<T>(s: Seq<T>, f: spec_fn(T) -> Seq<u8>) -> Seq<u8>
    decreases s.len(),
{
    if s.len() == 0 {
        Seq::empty()
    } else {
        enc_list(s.drop_last(), f) + f(s.last())
    }
}

/// A list encoding splits at its first item.
pub proof fn lemma_enc_list_first<T>(s: Seq<T>, f: spec_fn(T) -> Seq<u8>)
    requires
        s.len() > 0,
    ensures
        enc_list(s, f) == f(s[0]) + enc_list(s.drop_first(), f),
    decreases s.len(),
{
    if s.len() == 1 {
        assert(s.drop_last() =~= Seq::empty());
        assert(s.drop_first() =~= Seq::empty());
        assert(enc_list(s, f) =~= f(s[0]) + enc_list(s.drop_first(), f));
    } else {
        let pre = s.drop_last();
        lemma_enc_list_first(pre, f);
        assert(pre.drop_first() =~= s.drop_first().drop_last());
        assert(s.drop_first().last() == s.last());
        assert(enc_list(s, f) == (f(s[0]) + enc_list(pre.drop_first(), f)) + f(s.last()));
        assert(enc_list(s.drop_first(), f) == enc_list(pre.drop_first(), f) + f(s.last()));
        assert((f(s[0]) + enc_list(pre.drop_first(), f)) + f(s.last()) =~= f(s[0]) + (enc_list(
            pre.drop_first(),
            f,
        ) + f(s.last())));
    }
}

/// Encoding of a text: a four-byte character count, then each character.
pub open spec fn enc_str(s: Seq<char>) -> Seq<u8> {
    enc_u32(s.len() as u32) + enc_list(s, |c: char| enc_char(c))
}

/// The bytes of `part` stand in `b` at position `i`.
pub open spec fn has_at(b: Seq<u8>, i: int, part: Seq<u8>) -> bool {
    0 <= i && i + part.len() <= b.len() && b.subrange(i, i + part.len()) == part
}

/// A match of a concatenation is a match of each part in turn.
pub proof fn lemma_has_at_split(b: Seq<u8>, i: int, p: Seq<u8>, q: Seq<u8>)
    requires
        has_at(b, i, p + q),
    ensures
        has_at(b, i, p),
        has_at(b, i + p.len(), q),
{
    let whole = p + q;
    assert(b.subrange(i, i + p.len()) =~= whole.subrange(0, p.len() as int));
    assert(whole.subrange(0, p.len() as int) =~= p);
    assert(b.subrange(i + p.len(), i + whole.len()) =~= whole.subrange(
        p.len() as int,
        whole.len() as int,
    ));
    assert(whole.subrange(p.len() as int, whole.len() as int) =~= q);
}

/// Decoded `u16` and next position, if two bytes are available.
pub open spec fn dec_u16(b: Seq<u8>, i: int) -> Option<(u16, int)> {
    if 0 <= i && i + 2 <= b.len() {
        Some((spec_u16_from_le_bytes(b.subrange(i, i + 2)), i + 2))
    } else {
        None
    }
}

/// Decoded `u32` and next position, if four bytes are available.
pub open spec fn dec_u32(b: Seq<u8>, i: int) -> Option<(u32, int)> {
    if 0 <= i && i + 4 <= b.len() {
        Some((spec_u32_from_le_bytes(b.subrange(i, i + 4)), i + 4))
    } else {
        None
    }
}

/// Decoded `i16` through its shifted carrier.
pub open spec fn dec_i16(b: Seq<u8>, i: int) -> Option<(i16, int)> {
    match dec_u16(b, i) {
        Some((u, j)) => Some((unshift_i16(u), j)),
        None => None,
    }
}

/// Decoded `i32` through its shifted carrier.
pub open spec fn dec_i32(b: Seq<u8>, i: int) -> Option<(i32, int)> {
    match dec_u32(b, i) {
        Some((u, j)) => Some((unshift_i32(u), j)),
        None => None,
    }
}

/// Decoded character: a `u32` that must be a Unicode scalar value.
pub open spec fn dec_char(b: Seq<u8>, i: int) -> Option<(char, int)> {
    match dec_u32(b, i) {
        Some((u, j)) => if is_scalar(u) {
            Some((u as char, j))
        } else {
            None
        },
        None => None,
    }
}

/// Decoded list of `n` items, each decoded by `g`.
pub open spec fn dec_list<T>(
    b: Seq<u8>,
    i: int,
    n: nat,
    g: spec_fn(Seq<u8>, int) -> Option<(T, int)>,
) -> Option<(Seq<T>, int)>
    decreases n,
{
    if n == 0 {
        Some((Seq::empty(), i))
    } else {
        match g(b, i) {
            Some((x, j)) => match dec_list(b, j, (n - 1) as nat, g) {
                Some((s, k)) => Some((seq![x] + s, k)),
                None => None,
            },
            None => None,
        }
    }
}

/// Decoded text: a four-byte character count, then that many characters.
pub open spec fn dec_str(b: Seq<u8>, i: int) -> Option<(Seq<char>, int)> {
    match dec_u32(b, i) {
        Some((n, j)) => dec_list(b, j, n as nat, |b: Seq<u8>, i: int| dec_char(b, i)),
        None => None,
    }
}

/// A `u16` encoding found in a buffer decodes to the encoded value.
pub proof fn lemma_dec_u16_at(b: Seq<u8>, i: int, x: u16)
    requires
        has_at(b, i, enc_u16(x)),
    ensures
        dec_u16(b, i) == Some((x, i + 2)),
{
    lemma_auto_spec_u16_to_from_le_bytes();
}

/// A `u32` encoding found in a buffer decodes to the encoded value.
pub proof fn lemma_dec_u32_at(b: Seq<u8>, i: int, x: u32)
    requires
        has_at(b, i, enc_u32(x)),
    ensures
        dec_u32(b, i) == Some((x, i + 4)),
{
    lemma_auto_spec_u32_to_from_le_bytes();
}

/// An `i16` encoding found in a buffer decodes to the encoded value.
pub proof fn lemma_dec_i16_at(b: Seq<u8>, i: int, x: i16)
    requires
        has_at(b, i, enc_i16(x)),
    ensures
        dec_i16(b, i) == Some((x, i + 2)),
{
    lemma_dec_u16_at(b, i, shift_i16(x));
}

/// An `i32` encoding found in a buffer decodes to the encoded value.
pub proof fn lemma_dec_i32_at(b: Seq<u8>, i: int, x: i32)
    requires
        has_at(b, i, enc_i32(x)),
    ensures
        dec_i32(b, i) == Some((x, i + 4)),
{
    lemma_dec_u32_at(b, i, shift_i32(x));
}

/// A character encoding found in a buffer decodes to the encoded character.
pub proof fn lemma_dec_char_at(b: Seq<u8>, i: int, c: char)
    requires
        has_at(b, i, enc_char(c)),
    ensures
        dec_char(b, i) == Some((c, i + 4)),
{
    lemma_dec_u32_at(b, i, c as u32);
    vstd::utf8::char_is_scalar(c);
    vstd::utf8::char_u32_cast(c, c as u32);
}

/// A list encoding found in a buffer decodes to the encoded items, given
/// that each valid item's encoding decodes to that item and every item of
/// the list is valid.
pub proof fn lemma_dec_list_at<T>(
    b: Seq<u8>,
    i: int,
    s: Seq<T>,
    ok: spec_fn(T) -> bool,
    f: spec_fn(T) -> Seq<u8>,
    g: spec_fn(Seq<u8>, int) -> Option<(T, int)>,
)
    requires
        forall|j: int, x: T|
            ok(x) && #[trigger] has_at(b, j, f(x)) ==> g(b, j) == Some((x, j + f(x).len())),
        forall|k: int| 0 <= k < s.len() ==> ok(#[trigger] s[k]),
        has_at(b, i, enc_list(s, f)),
    ensures
        dec_list(b, i, s.len(), g) == Some((s, i + enc_list(s, f).len())),
    decreases s.len(),
{
    if s.len() == 0 {
        assert(dec_list(b, i, 0, g) == Some((Seq::<T>::empty(), i)));
        assert(s =~= Seq::<T>::empty());
    } else {
        lemma_enc_list_first(s, f);
        lemma_has_at_split(b, i, f(s[0]), enc_list(s.drop_first(), f));
        let j = i + f(s[0]).len();
        assert(forall|k: int|
            0 <= k < s.drop_first().len() ==> ok(#[trigger] s.drop_first()[k]));
        lemma_dec_list_at(b, j, s.drop_first(), ok, f, g);
        assert(g(b, i) == Some((s[0], j)));
        assert(seq![s[0]] + s.drop_first() =~= s);
    }
}

/// A text encoding found in a buffer decodes to the encoded text.
pub proof fn lemma_dec_str_at(b: Seq<u8>, i: int, s: Seq<char>)
    requires
        str_ok(s),
        has_at(b, i, enc_str(s)),
    ensures
        dec_str(b, i) == Some((s, i + enc_str(s).len())),
{
    let f = |c: char| enc_char(c);
    let g = |b: Seq<u8>, i: int| dec_char(b, i);
    lemma_auto_spec_u32_to_from_le_bytes();
    lemma_has_at_split(b, i, enc_u32(s.len() as u32), enc_list(s, f));
    lemma_dec_u32_at(b, i, s.len() as u32);
    assert forall|j: int, x: char| #[trigger] has_at(b, j, f(x)) implies g(b, j) == Some(
        (x, j + f(x).len()),
    ) by {
        lemma_auto_spec_u32_to_from_le_bytes();
        lemma_dec_char_at(b, j, x);
    }
    lemma_dec_list_at(b, i + 4, s, |c: char| true, f, g);
}

/// Tag byte opening a serialized verse passage.
pub const TAG_VERSE: u8 = 1;

/// Tag byte opening a serialized chapter passage.
pub const TAG_CHAPTER: u8 = 2;

/// Tag byte opening a serialized torah-portion passage.
pub const TAG_PORTION: u8 = 3;

/// The lengths of the integer encodings.
pub proof fn lemma_enc_int_lens()
    ensures
        forall|x: u16| (#[trigger] enc_u16(x)).len() == 2,
        forall|x: u32| (#[trigger] enc_u32(x)).len() == 4,
{
    lemma_auto_spec_u16_to_from_le_bytes();
    lemma_auto_spec_u32_to_from_le_bytes();
}

/// The byte standing for each corpus.
pub open spec fn corpus_tag(c: Corpus) -> u8 {
    match c {
        Corpus::Bible => 0,
        Corpus::Talmud => 1,
        Corpus::Josephus => 2,
        Corpus::Enoch => 3,
        Corpus::Apocrypha => 4,
    }
}

/// Encoding of a corpus: its one tag byte.
pub open spec fn enc_corpus(c: Corpus) -> Seq<u8> {
    seq![corpus_tag(c)]
}

/// Decoded corpus, if the byte at `i` is a corpus tag.
pub open spec fn dec_corpus(b: Seq<u8>, i: int) -> Option<(Corpus, int)> {
    if 0 <= i < b.len() {
        if b[i] == 0 {
            Some((Corpus::Bible, i + 1))
        } else if b[i] == 1 {
            Some((Corpus::Talmud, i + 1))
        } else if b[i] == 2 {
            Some((Corpus::Josephus, i + 1))
        } else if b[i] == 3 {
            Some((Corpus::Enoch, i + 1))
        } else if b[i] == 4 {
            Some((Corpus::Apocrypha, i + 1))
        } else {
            None
        }
    } else {
        None
    }
}

/// A corpus encoding found in a buffer decodes to the encoded corpus.
pub proof fn lemma_dec_corpus_at(b: Seq<u8>, i: int, c: Corpus)
    requires
        has_at(b, i, enc_corpus(c)),
    ensures
        dec_corpus(b, i) == Some((c, i + 1)),
{
    assert(b.subrange(i, i + 1)[0] == b[i]);
}

/// A translation can be serialized.
pub open spec fn translation_ok(t: TranslationM) -> bool {
    str_ok(t.translation)
}

/// Encoding of a translation.
pub open spec fn enc_translation(t: TranslationM) -> Seq<u8> {
    enc_i16(t.trans_id) + enc_str(t.translation)
}

/// Decoded translation.
pub open spec fn dec_translation(b: Seq<u8>, i: int) -> Option<(TranslationM, int)> {
    match dec_i16(b, i) {
        Some((id, j)) => match dec_str(b, j) {
            Some((nm, k)) => Some((TranslationM { trans_id: id, translation: nm }, k)),
            None => None,
        },
        None => None,
    }
}

/// A translation encoding found in a buffer decodes to the encoded value.
pub proof fn lemma_dec_translation_at(b: Seq<u8>, i: int, t: TranslationM)
    requires
        translation_ok(t),
        has_at(b, i, enc_translation(t)),
    ensures
        dec_translation(b, i) == Some((t, i + enc_translation(t).len())),
{
    lemma_enc_int_lens();
    lemma_has_at_split(b, i, enc_i16(t.trans_id), enc_str(t.translation));
    lemma_dec_i16_at(b, i, t.trans_id);
    lemma_dec_str_at(b, i + 2, t.translation);
}

/// Encoding of the per-source cross-reference counters.
pub open spec fn enc_xref_src(x: XrefSrcCt) -> Seq<u8> {
    enc_i32(x.xpl_ref) + enc_i32(x.sim_top)
}

/// Decoded per-source cross-reference counters.
pub open spec fn dec_xref_src(b: Seq<u8>, i: int) -> Option<(XrefSrcCt, int)> {
    match dec_i32(b, i) {
        Some((xpl, j)) => match dec_i32(b, j) {
            Some((sim, k)) => Some((XrefSrcCt { xpl_ref: xpl, sim_top: sim }, k)),
            None => None,
        },
        None => None,
    }
}

/// A per-source counter encoding decodes to the encoded value.
pub proof fn lemma_dec_xref_src_at(b: Seq<u8>, i: int, x: XrefSrcCt)
    requires
        has_at(b, i, enc_xref_src(x)),
    ensures
        dec_xref_src(b, i) == Some((x, i + enc_xref_src(x).len())),
{
    lemma_enc_int_lens();
    lemma_has_at_split(b, i, enc_i32(x.xpl_ref), enc_i32(x.sim_top));
    lemma_dec_i32_at(b, i, x.xpl_ref);
    lemma_dec_i32_at(b, i + 4, x.sim_top);
}

/// Encoding of the full cross-reference summary.
pub open spec fn enc_xref(x: XrefCt) -> Seq<u8> {
    enc_xref_src(x.passages) + enc_xref_src(x.notes) + enc_xref_src(x.videos)
}

/// Decoded cross-reference summary.
pub open spec fn dec_xref(b: Seq<u8>, i: int) -> Option<(XrefCt, int)> {
    match dec_xref_src(b, i) {
        Some((p, j)) => match dec_xref_src(b, j) {
            Some((n, k)) => match dec_xref_src(b, k) {
                Some((v, m)) => Some((XrefCt { passages: p, notes: n, videos: v }, m)),
                None => None,
            },
            None => None,
        },
        None => None,
    }
}

/// A cross-reference summary encoding decodes to the encoded value.
pub proof fn lemma_dec_xref_at(b: Seq<u8>, i: int, x: XrefCt)
    requires
        has_at(b, i, enc_xref(x)),
    ensures
        dec_xref(b, i) == Some((x, i + enc_xref(x).len())),
{
    lemma_enc_int_lens();
    lemma_has_at_split(b, i, enc_xref_src(x.passages) + enc_xref_src(x.notes), enc_xref_src(
        x.videos,
    ));
    lemma_has_at_split(b, i, enc_xref_src(x.passages), enc_xref_src(x.notes));
    lemma_dec_xref_src_at(b, i, x.passages);
    lemma_dec_xref_src_at(b, i + 8, x.notes);
    lemma_dec_xref_src_at(b, i + 16, x.videos);
}

/// A book can be serialized.
pub open spec fn book_ok(bk: BookM) -> bool {
    str_ok(bk.name)
}

/// Encoding of a book.
pub open spec fn enc_book(bk: BookM) -> Seq<u8> {
    enc_corpus(bk.corpus) + enc_i16(bk.book_id) + enc_str(bk.name)
}

/// Decoded book.
pub open spec fn dec_book(b: Seq<u8>, i: int) -> Option<(BookM, int)> {
    match dec_corpus(b, i) {
        Some((c, j)) => match dec_i16(b, j) {
            Some((id, k)) => match dec_str(b, k) {
                Some((nm, m)) => Some((BookM { corpus: c, book_id: id, name: nm }, m)),
                None => None,
            },
            None => None,
        },
        None => None,
    }
}

/// A book encoding found in a buffer decodes to the encoded book.
pub proof fn lemma_dec_book_at(b: Seq<u8>, i: int, bk: BookM)
    requires
        book_ok(bk),
        has_at(b, i, enc_book(bk)),
    ensures
        dec_book(b, i) == Some((bk, i + enc_book(bk).len())),
{
    lemma_enc_int_lens();
    lemma_has_at_split(b, i, enc_corpus(bk.corpus) + enc_i16(bk.book_id), enc_str(bk.name));
    lemma_has_at_split(b, i, enc_corpus(bk.corpus), enc_i16(bk.book_id));
    lemma_dec_corpus_at(b, i, bk.corpus);
    lemma_dec_i16_at(b, i + 1, bk.book_id);
    lemma_dec_str_at(b, i + 3, bk.name);
}

/// A verse can be serialized.
pub open spec fn verse_ok(v: VerseM) -> bool {
    &&& str_ok(v.name)
    &&& book_ok(v.book)
    &&& str_ok(v.chapter_no)
    &&& str_ok(v.text)
    &&& str_ok(v.html)
}

/// Encoding of a verse.
pub open spec fn enc_verse(v: VerseM) -> Seq<u8> {
    enc_str(v.name) + enc_book(v.book) + enc_str(v.chapter_no) + enc_i16(v.verse_no) + enc_str(
        v.text,
    ) + enc_str(v.html) + enc_xref(v.xref_ct)
}

/// Decoded verse.
pub open spec fn dec_verse(b: Seq<u8>, i: int) -> Option<(VerseM, int)> {
    match dec_str(b, i) {
        Some((name, i1)) => match dec_book(b, i1) {
            Some((book, i2)) => match dec_str(b, i2) {
                Some((chapter_no, i3)) => match dec_i16(b, i3) {
                    Some((verse_no, i4)) => match dec_str(b, i4) {
                        Some((text, i5)) => match dec_str(b, i5) {
                            Some((html, i6)) => match dec_xref(b, i6) {
                                Some((xref_ct, i7)) => Some(
                                    (
                                        VerseM {
                                            name,
                                            book,
                                            chapter_no,
                                            verse_no,
                                            text,
                                            html,
                                            xref_ct,
                                        },
                                        i7,
                                    ),
                                ),
                                None => None,
                            },
                            None => None,
                        },
                        None => None,
                    },
                    None => None,
                },
                None => None,
            },
            None => None,
        },
        None => None,
    }
}

/// A verse encoding found in a buffer decodes to the encoded verse.
pub proof fn lemma_dec_verse_at(b: Seq<u8>, i: int, v: VerseM)
    requires
        verse_ok(v),
        has_at(b, i, enc_verse(v)),
    ensures
        dec_verse(b, i) == Some((v, i + enc_verse(v).len())),
{
    lemma_enc_int_lens();
    let p1 = enc_str(v.name);
    let p2 = enc_book(v.book);
    let p3 = enc_str(v.chapter_no);
    let p4 = enc_i16(v.verse_no);
    let p5 = enc_str(v.text);
    let p6 = enc_str(v.html);
    let p7 = enc_xref(v.xref_ct);
    lemma_has_at_split(b, i, p1 + p2 + p3 + p4 + p5 + p6, p7);
    lemma_has_at_split(b, i, p1 + p2 + p3 + p4 + p5, p6);
    lemma_has_at_split(b, i, p1 + p2 + p3 + p4, p5);
    lemma_has_at_split(b, i, p1 + p2 + p3, p4);
    lemma_has_at_split(b, i, p1 + p2, p3);
    lemma_has_at_split(b, i, p1, p2);
    let i1 = i + p1.len();
    let i2 = i1 + p2.len();
    let i3 = i2 + p3.len();
    let i4 = i3 + p4.len();
    let i5 = i4 + p5.len();
    let i6 = i5 + p6.len();
    lemma_dec_str_at(b, i, v.name);
    lemma_dec_book_at(b, i1, v.book);
    lemma_dec_str_at(b, i2, v.chapter_no);
    lemma_dec_i16_at(b, i3, v.verse_no);
    lemma_dec_str_at(b, i4, v.text);
    lemma_dec_str_at(b, i5, v.html);
    lemma_dec_xref_at(b, i6, v.xref_ct);
}

/// Encoding of a counted list: a four-byte item count, then each item.
pub open spec fn enc_counted<T>(s: Seq<T>, f: spec_fn(T) -> Seq<u8>) -> Seq<u8> {
    enc_u32(s.len() as u32) + enc_list(s, f)
}

/// Decoded counted list.
pub open spec fn dec_counted<T>(
    b: Seq<u8>,
    i: int,
    g: spec_fn(Seq<u8>, int) -> Option<(T, int)>,
) -> Option<(Seq<T>, int)> {
    match dec_u32(b, i) {
        Some((n, j)) => dec_list(b, j, n as nat, g),
        None => None,
    }
}

/// A counted-list encoding decodes to the encoded items, given that each
/// valid item's encoding decodes to that item and every item is valid.
pub proof fn lemma_dec_counted_at<T>(
    b: Seq<u8>,
    i: int,
    s: Seq<T>,
    ok: spec_fn(T) -> bool,
    f: spec_fn(T) -> Seq<u8>,
    g: spec_fn(Seq<u8>, int) -> Option<(T, int)>,
)
    requires
        forall|j: int, x: T|
            ok(x) && #[trigger] has_at(b, j, f(x)) ==> g(b, j) == Some((x, j + f(x).len())),
        forall|k: int| 0 <= k < s.len() ==> ok(#[trigger] s[k]),
        s.len() <= u32::MAX,
        has_at(b, i, enc_counted(s, f)),
    ensures
        dec_counted(b, i, g) == Some((s, i + enc_counted(s, f).len())),
{
    lemma_enc_int_lens();
    lemma_has_at_split(b, i, enc_u32(s.len() as u32), enc_list(s, f));
    lemma_dec_u32_at(b, i, s.len() as u32);
    lemma_dec_list_at(b, i + 4, s, ok, f, g);
}

/// The translation data of a passage can be serialized.
pub open spec fn trans_data_ok(d: TransDataM) -> bool {
    &&& translation_ok(d.selected)
    &&& str_ok(d.footnote)
    &&& str_ok(d.url)
    &&& d.available.len() <= u32::MAX
    &&& forall|k: int| 0 <= k < d.available.len() ==> translation_ok(#[trigger] d.available[k])
}

/// Encoding of a passage's translation data.
pub open spec fn enc_trans_data(d: TransDataM) -> Seq<u8> {
    enc_translation(d.selected) + enc_str(d.footnote) + enc_str(d.url) + enc_counted(
        d.available,
        |t: TranslationM| enc_translation(t),
    )
}

/// Decoded translation data.
pub open spec fn dec_trans_data(b: Seq<u8>, i: int) -> Option<(TransDataM, int)> {
    match dec_translation(b, i) {
        Some((selected, i1)) => match dec_str(b, i1) {
            Some((footnote, i2)) => match dec_str(b, i2) {
                Some((url, i3)) => match dec_counted(
                    b,
                    i3,
                    |b: Seq<u8>, i: int| dec_translation(b, i),
                ) {
                    Some((available, i4)) => Some(
                        (TransDataM { selected, footnote, url, available }, i4),
                    ),
                    None => None,
                },
                None => None,
            },
            None => None,
        },
        None => None,
    }
}

/// A translation-data encoding decodes to the encoded value.
pub proof fn lemma_dec_trans_data_at(b: Seq<u8>, i: int, d: TransDataM)
    requires
        trans_data_ok(d),
        has_at(b, i, enc_trans_data(d)),
    ensures
        dec_trans_data(b, i) == Some((d, i + enc_trans_data(d).len())),
{
    lemma_enc_int_lens();
    let f = |t: TranslationM| enc_translation(t);
    let g = |b: Seq<u8>, i: int| dec_translation(b, i);
    let p1 = enc_translation(d.selected);
    let p2 = enc_str(d.footnote);
    let p3 = enc_str(d.url);
    let p4 = enc_counted(d.available, f);
    lemma_has_at_split(b, i, p1 + p2 + p3, p4);
    lemma_has_at_split(b, i, p1 + p2, p3);
    lemma_has_at_split(b, i, p1, p2);
    let i1 = i + p1.len();
    let i2 = i1 + p2.len();
    let i3 = i2 + p3.len();
    lemma_dec_translation_at(b, i, d.selected);
    lemma_dec_str_at(b, i1, d.footnote);
    lemma_dec_str_at(b, i2, d.url);
    assert forall|j: int, x: TranslationM|
        translation_ok(x) && #[trigger] has_at(b, j, f(x)) implies g(b, j) == Some(
        (x, j + f(x).len()),
    ) by {
        lemma_dec_translation_at(b, j, x);
    }
    lemma_dec_counted_at(
        b,
        i3,
        d.available,
        |t: TranslationM| translation_ok(t),
        f,
        g,
    );
}

/// A chapter can be serialized.
pub open spec fn chapter_ok(c: ChapterM) -> bool {
    &&& str_ok(c.name)
    &&& book_ok(c.book)
    &&& str_ok(c.chapter_no)
    &&& c.verses.len() <= u32::MAX
    &&& forall|k: int| 0 <= k < c.verses.len() ==> verse_ok(#[trigger] c.verses[k])
}

/// Encoding of a chapter.
pub open spec fn enc_chapter(c: ChapterM) -> Seq<u8> {
    enc_str(c.name) + enc_book(c.book) + enc_str(c.chapter_no) + enc_xref(c.xref_ct) + enc_counted(
        c.verses,
        |v: VerseM| enc_verse(v),
    )
}

/// Decoded chapter.
pub open spec fn dec_chapter(b: Seq<u8>, i: int) -> Option<(ChapterM, int)> {
    match dec_str(b, i) {
        Some((name, i1)) => match dec_book(b, i1) {
            Some((book, i2)) => match dec_str(b, i2) {
                Some((chapter_no, i3)) => match dec_xref(b, i3) {
                    Some((xref_ct, i4)) => match dec_counted(
                        b,
                        i4,
                        |b: Seq<u8>, i: int| dec_verse(b, i),
                    ) {
                        Some((verses, i5)) => Some(
                            (ChapterM { name, book, chapter_no, xref_ct, verses }, i5),
                        ),
                        None => None,
                    },
                    None => None,
                },
                None => None,
            },
            None => None,
        },
        None => None,
    }
}

/// A chapter encoding found in a buffer decodes to the encoded chapter.
pub proof fn lemma_dec_chapter_at(b: Seq<u8>, i: int, c: ChapterM)
    requires
        chapter_ok(c),
        has_at(b, i, enc_chapter(c)),
    ensures
        dec_chapter(b, i) == Some((c, i + enc_chapter(c).len())),
{
    lemma_enc_int_lens();
    let f = |v: VerseM| enc_verse(v);
    let g = |b: Seq<u8>, i: int| dec_verse(b, i);
    let p1 = enc_str(c.name);
    let p2 = enc_book(c.book);
    let p3 = enc_str(c.chapter_no);
    let p4 = enc_xref(c.xref_ct);
    let p5 = enc_counted(c.verses, f);
    lemma_has_at_split(b, i, p1 + p2 + p3 + p4, p5);
    lemma_has_at_split(b, i, p1 + p2 + p3, p4);
    lemma_has_at_split(b, i, p1 + p2, p3);
    lemma_has_at_split(b, i, p1, p2);
    let i1 = i + p1.len();
    let i2 = i1 + p2.len();
    let i3 = i2 + p3.len();
    let i4 = i3 + p4.len();
    lemma_dec_str_at(b, i, c.name);
    lemma_dec_book_at(b, i1, c.book);
    lemma_dec_str_at(b, i2, c.chapter_no);
    lemma_dec_xref_at(b, i3, c.xref_ct);
    assert forall|j: int, x: VerseM| verse_ok(x) && #[trigger] has_at(b, j, f(x)) implies g(b, j)
        == Some((x, j + f(x).len())) by {
        lemma_dec_verse_at(b, j, x);
    }
    lemma_dec_counted_at(b, i4, c.verses, |v: VerseM| verse_ok(v), f, g);
}

/// A torah portion can be serialized.
pub open spec fn portion_ok(p: TorahPortionM) -> bool {
    &&& str_ok(p.name)
    &&& str_ok(p.location)
    &&& p.chapters.len() <= u32::MAX
    &&& forall|k: int| 0 <= k < p.chapters.len() ==> chapter_ok(#[trigger] p.chapters[k])
}

/// Encoding of a torah portion.
pub open spec fn enc_portion(p: TorahPortionM) -> Seq<u8> {
    enc_i16(p.portion_id) + enc_str(p.name) + enc_str(p.location) + enc_counted(
        p.chapters,
        |c: ChapterM| enc_chapter(c),
    )
}

/// Decoded torah portion.
pub open spec fn dec_portion(b: Seq<u8>, i: int) -> Option<(TorahPortionM, int)> {
    match dec_i16(b, i) {
        Some((portion_id, i1)) => match dec_str(b, i1) {
            Some((name, i2)) => match dec_str(b, i2) {
                Some((location, i3)) => match dec_counted(
                    b,
                    i3,
                    |b: Seq<u8>, i: int| dec_chapter(b, i),
                ) {
                    Some((chapters, i4)) => Some(
                        (TorahPortionM { portion_id, name, location, chapters }, i4),
                    ),
                    None => None,
                },
                None => None,
            },
            None => None,
        },
        None => None,
    }
}

/// A portion encoding found in a buffer decodes to the encoded portion.
pub proof fn lemma_dec_portion_at(b: Seq<u8>, i: int, p: TorahPortionM)
    requires
        portion_ok(p),
        has_at(b, i, enc_portion(p)),
    ensures
        dec_portion(b, i) == Some((p, i + enc_portion(p).len())),
{
    lemma_enc_int_lens();
    let f = |c: ChapterM| enc_chapter(c);
    let g = |b: Seq<u8>, i: int| dec_chapter(b, i);
    let p1 = enc_i16(p.portion_id);
    let p2 = enc_str(p.name);
    let p3 = enc_str(p.location);
    let p4 = enc_counted(p.chapters, f);
    lemma_has_at_split(b, i, p1 + p2 + p3, p4);
    lemma_has_at_split(b, i, p1 + p2, p3);
    lemma_has_at_split(b, i, p1, p2);
    let i1 = i + p1.len();
    let i2 = i1 + p2.len();
    let i3 = i2 + p3.len();
    lemma_dec_i16_at(b, i, p.portion_id);
    lemma_dec_str_at(b, i1, p.name);
    lemma_dec_str_at(b, i2, p.location);
    assert forall|j: int, x: ChapterM| chapter_ok(x) && #[trigger] has_at(b, j, f(x)) implies g(
        b,
        j,
    ) == Some((x, j + f(x).len())) by {
        lemma_dec_chapter_at(b, j, x);
    }
    lemma_dec_counted_at(b, i3, p.chapters, |c: ChapterM| chapter_ok(c), f, g);
}

/// A verse passage can be serialized.
pub open spec fn passage_verse_ok(p: PassageM<VerseM>) -> bool {
    verse_ok(p.pass) && trans_data_ok(p.translations)
}

/// A chapter passage can be serialized.
pub open spec fn passage_chapter_ok(p: PassageM<ChapterM>) -> bool {
    chapter_ok(p.pass) && trans_data_ok(p.translations)
}

/// A portion passage can be serialized.
pub open spec fn passage_portion_ok(p: PassageM<TorahPortionM>) -> bool {
    portion_ok(p.pass) && trans_data_ok(p.translations)
}

/// Serialized snapshot of a verse passage.
pub open spec fn enc_passage_verse(p: PassageM<VerseM>) -> Seq<u8> {
    seq![TAG_VERSE] + enc_verse(p.pass) + enc_trans_data(p.translations)
}

/// Serialized snapshot of a chapter passage.
pub open spec fn enc_passage_chapter(p: PassageM<ChapterM>) -> Seq<u8> {
    seq![TAG_CHAPTER] + enc_chapter(p.pass) + enc_trans_data(p.translations)
}

/// Serialized snapshot of a torah-portion passage.
pub open spec fn enc_passage_portion(p: PassageM<TorahPortionM>) -> Seq<u8> {
    seq![TAG_PORTION] + enc_portion(p.pass) + enc_trans_data(p.translations)
}

/// The verse passage a whole payload deserializes to, if any: the payload
/// must open with the verse tag and be consumed exactly.
pub open spec fn dec_payload_verse(b: Seq<u8>) -> Option<PassageM<VerseM>> {
    if b.len() >= 1 && b[0] == TAG_VERSE {
        match dec_verse(b, 1) {
            Some((v, j)) => match dec_trans_data(b, j) {
                Some((d, k)) => if k == b.len() {
                    Some(PassageM { pass: v, translations: d })
                } else {
                    None
                },
                None => None,
            },
            None => None,
        }
    } else {
        None
    }
}

/// The chapter passage a whole payload deserializes to, if any.
pub open spec fn dec_payload_chapter(b: Seq<u8>) -> Option<PassageM<ChapterM>> {
    if b.len() >= 1 && b[0] == TAG_CHAPTER {
        match dec_chapter(b, 1) {
            Some((c, j)) => match dec_trans_data(b, j) {
                Some((d, k)) => if k == b.len() {
                    Some(PassageM { pass: c, translations: d })
                } else {
                    None
                },
                None => None,
            },
            None => None,
        }
    } else {
        None
    }
}

/// The torah-portion passage a whole payload deserializes to, if any.
pub open spec fn dec_payload_portion(b: Seq<u8>) -> Option<PassageM<TorahPortionM>> {
    if b.len() >= 1 && b[0] == TAG_PORTION {
        match dec_portion(b, 1) {
            Some((p, j)) => match dec_trans_data(b, j) {
                Some((d, k)) => if k == b.len() {
                    Some(PassageM { pass: p, translations: d })
                } else {
                    None
                },
                None => None,
            },
            None => None,
        }
    } else {
        None
    }
}

/// Round trip for verse passages: deserializing a serialized snapshot gives
/// the snapshot value back.
pub proof fn lemma_roundtrip_verse(p: PassageM<VerseM>)
    requires
        passage_verse_ok(p),
    ensures
        dec_payload_verse(enc_passage_verse(p)) == Some(p),
{
    let b = enc_passage_verse(p);
    assert(has_at(b, 0, b)) by {
        assert(b.subrange(0, b.len() as int) =~= b);
    }
    lemma_has_at_split(b, 0, seq![TAG_VERSE] + enc_verse(p.pass), enc_trans_data(p.translations));
    lemma_has_at_split(b, 0, seq![TAG_VERSE], enc_verse(p.pass));
    assert(b[0] == TAG_VERSE) by {
        assert(b.subrange(0, 1)[0] == b[0]);
    }
    lemma_dec_verse_at(b, 1, p.pass);
    lemma_dec_trans_data_at(b, 1 + enc_verse(p.pass).len() as int, p.translations);
}

/// Round trip for chapter passages.
pub proof fn lemma_roundtrip_chapter(p: PassageM<ChapterM>)
    requires
        passage_chapter_ok(p),
    ensures
        dec_payload_chapter(enc_passage_chapter(p)) == Some(p),
{
    let b = enc_passage_chapter(p);
    assert(has_at(b, 0, b)) by {
        assert(b.subrange(0, b.len() as int) =~= b);
    }
    lemma_has_at_split(b, 0, seq![TAG_CHAPTER] + enc_chapter(p.pass), enc_trans_data(
        p.translations,
    ));
    lemma_has_at_split(b, 0, seq![TAG_CHAPTER], enc_chapter(p.pass));
    assert(b[0] == TAG_CHAPTER) by {
        assert(b.subrange(0, 1)[0] == b[0]);
    }
    lemma_dec_chapter_at(b, 1, p.pass);
    lemma_dec_trans_data_at(b, 1 + enc_chapter(p.pass).len() as int, p.translations);
}

/// Round trip for torah-portion passages.
pub proof fn lemma_roundtrip_portion(p: PassageM<TorahPortionM>)
    requires
        passage_portion_ok(p),
    ensures
        dec_payload_portion(enc_passage_portion(p)) == Some(p),
{
    let b = enc_passage_portion(p);
    assert(has_at(b, 0, b)) by {
        assert(b.subrange(0, b.len() as int) =~= b);
    }
    lemma_has_at_split(b, 0, seq![TAG_PORTION] + enc_portion(p.pass), enc_trans_data(
        p.translations,
    ));
    lemma_has_at_split(b, 0, seq![TAG_PORTION], enc_portion(p.pass));
    assert(b[0] == TAG_PORTION) by {
        assert(b.subrange(0, 1)[0] == b[0]);
    }
    lemma_dec_portion_at(b, 1, p.pass);
    lemma_dec_trans_data_at(b, 1 + enc_portion(p.pass).len() as int, p.translations);
}


/// Appends the bytes of `b` to `out`.
fn append_bytes(out: &mut Vec<u8>, b: &[u8])
    ensures
        final(out)@ == old(out)@ + b@,
{
    let ghost pre = out@;
    out.extend_from_slice(b);
    proof {
        assert forall|i: int| 0 <= i < out@.len() implies out@[i] == (pre + b@)[i] by {
            if i >= pre.len() {
                assert(cloned::<u8>(b@[i - pre.len()], out@[i]));
            }
        }
        assert(out@ =~= pre + b@);
    }
}

/// Appends the encoding of a `u16`.
fn emit_u16(out: &mut Vec<u8>, x: u16)
    ensures
        final(out)@ == old(out)@ + enc_u16(x),
{
    let b = u16_to_le_bytes(x);
    append_bytes(out, b.as_slice());
}

/// Appends the encoding of a `u32`.
fn emit_u32(out: &mut Vec<u8>, x: u32)
    ensures
        final(out)@ == old(out)@ + enc_u32(x),
{
    let b = u32_to_le_bytes(x);
    append_bytes(out, b.as_slice());
}

/// Appends the encoding of an `i16`.
fn emit_i16(out: &mut Vec<u8>, x: i16)
    ensures
        final(out)@ == old(out)@ + enc_i16(x),
{
    let u: u16 = ((x as i32) + 0x8000) as u16;
    proof {
        assert(u == shift_i16(x));
    }
    emit_u16(out, u);
}

/// Appends the encoding of an `i32`.
fn emit_i32(out: &mut Vec<u8>, x: i32)
    ensures
        final(out)@ == old(out)@ + enc_i32(x),
{
    let u: u32 = ((x as i64) + 0x80000000i64) as u32;
    proof {
        assert(u == shift_i32(x));
    }
    emit_u32(out, u);
}

/// Appends the encoding of a text.
#[verifier::loop_isolation(false)]
fn emit_str(out: &mut Vec<u8>, s: &str)
    requires
        str_ok(s@),
    ensures
        final(out)@ == old(out)@ + enc_str(s@),
{
    let ghost f = |c: char| enc_char(c);
    let n = s.unicode_len();
    emit_u32(out, n as u32);
    let ghost base = out@;
    let mut i: usize = 0;
    while i < n
        invariant
            i <= n,
            n == s@.len(),
            out@ == base + enc_list(s@.take(i as int), f),
        decreases n - i,
    {
        let c = s.get_char(i);
        proof {
            let next = s@.take(i as int + 1);
            assert(next.drop_last() =~= s@.take(i as int));
            assert(next.last() == s@[i as int]);
        }
        emit_u32(out, c as u32);
        proof {
            let next = s@.take(i as int + 1);
            assert(next.drop_last() =~= s@.take(i as int));
            assert(f(next.last()) == enc_char(s@[i as int]));
            assert(enc_list(next, f) == enc_list(next.drop_last(), f) + f(next.last()));
            assert(out@ =~= base + enc_list(next, f));
        }
        i = i + 1;
    }
    proof {
        assert(s@.take(n as int) =~= s@);
    }
}

/// Appends the tag byte of a corpus.
fn emit_corpus(out: &mut Vec<u8>, c: &Corpus)
    ensures
        final(out)@ == old(out)@ + enc_corpus(*c),
{
    let t: u8 = match c {
        Corpus::Bible => 0,
        Corpus::Talmud => 1,
        Corpus::Josephus => 2,
        Corpus::Enoch => 3,
        Corpus::Apocrypha => 4,
    };
    out.push(t);
    proof {
        assert(out@ =~= old(out)@ + enc_corpus(*c));
    }
}

/// Appends the encoding of a translation.
fn emit_translation(out: &mut Vec<u8>, t: &Translation)
    requires
        translation_ok(t@),
    ensures
        final(out)@ == old(out)@ + enc_translation(t@),
{
    emit_i16(out, t.trans_id);
    emit_str(out, t.translation.as_str());
    proof {
        assert(out@ =~= old(out)@ + enc_translation(t@));
    }
}

/// Appends the encoding of per-source counters.
fn emit_xref_src(out: &mut Vec<u8>, x: &XrefSrcCt)
    ensures
        final(out)@ == old(out)@ + enc_xref_src(*x),
{
    emit_i32(out, x.xpl_ref);
    emit_i32(out, x.sim_top);
    proof {
        assert(out@ =~= old(out)@ + enc_xref_src(*x));
    }
}

/// Appends the encoding of a cross-reference summary.
fn emit_xref(out: &mut Vec<u8>, x: &XrefCt)
    ensures
        final(out)@ == old(out)@ + enc_xref(*x),
{
    emit_xref_src(out, &x.passages);
    emit_xref_src(out, &x.notes);
    emit_xref_src(out, &x.videos);
    proof {
        assert(out@ =~= old(out)@ + enc_xref(*x));
    }
}

/// Appends the encoding of a book.
fn emit_book(out: &mut Vec<u8>, bk: &Book)
    requires
        book_ok(bk@),
    ensures
        final(out)@ == old(out)@ + enc_book(bk@),
{
    emit_corpus(out, &bk.corpus);
    emit_i16(out, bk.book_id);
    emit_str(out, bk.name.as_str());
    proof {
        assert(out@ =~= old(out)@ + enc_book(bk@));
    }
}

/// Appends the encoding of a verse.
fn emit_verse(out: &mut Vec<u8>, v: &Verse)
    requires
        verse_ok(v@),
    ensures
        final(out)@ == old(out)@ + enc_verse(v@),
{
    emit_str(out, v.name.as_str());
    emit_book(out, &v.book);
    emit_str(out, v.chapter_no.as_str());
    emit_i16(out, v.verse_no);
    emit_str(out, v.text.as_str());
    emit_str(out, v.html.as_str());
    emit_xref(out, &v.xref_ct);
    proof {
        assert(out@ =~= old(out)@ + enc_verse(v@));
    }
}

/// Appends the encoding of the available-translations list.
#[verifier::loop_isolation(false)]
fn emit_translations(out: &mut Vec<u8>, ts: &Vec<Translation>)
    requires
        ts@.len() <= u32::MAX,
        forall|k: int| 0 <= k < ts@.len() ==> translation_ok((#[trigger] ts@[k])@),
    ensures
        final(out)@ == old(out)@ + enc_counted(
            ts@.map_values(|t: Translation| t@),
            |t: TranslationM| enc_translation(t),
        ),
{
    let ghost f = |t: TranslationM| enc_translation(t);
    let ghost tm = ts@.map_values(|t: Translation| t@);
    emit_u32(out, ts.len() as u32);
    let ghost base = out@;
    let n = ts.len();
    let mut i: usize = 0;
    while i < n
        invariant
            i <= n,
            n == ts@.len(),
            tm == ts@.map_values(|t: Translation| t@),
            tm.len() == n,
            forall|k: int| 0 <= k < ts@.len() ==> translation_ok((#[trigger] ts@[k])@),
            out@ == base + enc_list(tm.take(i as int), f),
        decreases n - i,
    {
        proof {
            let next = tm.take(i as int + 1);
            assert(next.drop_last() =~= tm.take(i as int));
            assert(next.last() == tm[i as int]);
        }
        proof {
            assert(tm[i as int] == ts@[i as int]@);
        }
        emit_translation(out, &ts[i]);
        proof {
            let next = tm.take(i as int + 1);
            assert(next.drop_last() =~= tm.take(i as int));
            assert(f(next.last()) == enc_translation(tm[i as int]));
            assert(enc_list(next, f) == enc_list(next.drop_last(), f) + f(next.last()));
            assert(out@ =~= base + enc_list(next, f));
        }
        i = i + 1;
    }
    proof {
        assert(tm.take(n as int) =~= tm);
        assert(out@ =~= old(out)@ + enc_counted(tm, f));
    }
}

/// Appends the encoding of a passage's translation data.
fn emit_trans_data(out: &mut Vec<u8>, d: &TransData)
    requires
        trans_data_ok(d@),
    ensures
        final(out)@ == old(out)@ + enc_trans_data(d@),
{
    emit_translation(out, &d.selected);
    emit_str(out, d.footnote.as_str());
    emit_str(out, d.url.as_str());
    proof {
        assert forall|k: int| 0 <= k < d.available@.len() implies translation_ok(
            (#[trigger] d.available@[k])@,
        ) by {
            assert(d@.available[k] == d.available@[k]@);
        }
    }
    emit_translations(out, &d.available);
    proof {
        assert(out@ =~= old(out)@ + enc_trans_data(d@));
    }
}

/// Appends the encoding of the verse list of a chapter.
#[verifier::loop_isolation(false)]
fn emit_verses(out: &mut Vec<u8>, vs: &Vec<Verse>)
    requires
        vs@.len() <= u32::MAX,
        forall|k: int| 0 <= k < vs@.len() ==> verse_ok((#[trigger] vs@[k])@),
    ensures
        final(out)@ == old(out)@ + enc_counted(
            vs@.map_values(|v: Verse| v@),
            |v: VerseM| enc_verse(v),
        ),
{
    let ghost f = |v: VerseM| enc_verse(v);
    let ghost vm = vs@.map_values(|v: Verse| v@);
    emit_u32(out, vs.len() as u32);
    let ghost base = out@;
    let n = vs.len();
    let mut i: usize = 0;
    while i < n
        invariant
            i <= n,
            n == vs@.len(),
            vm == vs@.map_values(|v: Verse| v@),
            vm.len() == n,
            forall|k: int| 0 <= k < vs@.len() ==> verse_ok((#[trigger] vs@[k])@),
            out@ == base + enc_list(vm.take(i as int), f),
        decreases n - i,
    {
        proof {
            let next = vm.take(i as int + 1);
            assert(next.drop_last() =~= vm.take(i as int));
            assert(next.last() == vm[i as int]);
        }
        proof {
            assert(vm[i as int] == vs@[i as int]@);
        }
        emit_verse(out, &vs[i]);
        proof {
            let next = vm.take(i as int + 1);
            assert(next.drop_last() =~= vm.take(i as int));
            assert(f(next.last()) == enc_verse(vm[i as int]));
            assert(enc_list(next, f) == enc_list(next.drop_last(), f) + f(next.last()));
            assert(out@ =~= base + enc_list(next, f));
        }
        i = i + 1;
    }
    proof {
        assert(vm.take(n as int) =~= vm);
        assert(out@ =~= old(out)@ + enc_counted(vm, f));
    }
}

/// Appends the encoding of a chapter.
fn emit_chapter(out: &mut Vec<u8>, c: &Chapter)
    requires
        chapter_ok(c@),
    ensures
        final(out)@ == old(out)@ + enc_chapter(c@),
{
    emit_str(out, c.name.as_str());
    emit_book(out, &c.book);
    emit_str(out, c.chapter_no.as_str());
    emit_xref(out, &c.xref_ct);
    proof {
        assert forall|k: int| 0 <= k < c.verses@.len() implies verse_ok(
            (#[trigger] c.verses@[k])@,
        ) by {
            assert(c@.verses[k] == c.verses@[k]@);
        }
    }
    emit_verses(out, &c.verses);
    proof {
        assert(out@ =~= old(out)@ + enc_chapter(c@));
    }
}

/// Appends the encoding of the chapter list of a portion.
#[verifier::loop_isolation(false)]
fn emit_chapters(out: &mut Vec<u8>, cs: &Vec<Chapter>)
    requires
        cs@.len() <= u32::MAX,
        forall|k: int| 0 <= k < cs@.len() ==> chapter_ok((#[trigger] cs@[k])@),
    ensures
        final(out)@ == old(out)@ + enc_counted(
            cs@.map_values(|c: Chapter| c@),
            |c: ChapterM| enc_chapter(c),
        ),
{
    let ghost f = |c: ChapterM| enc_chapter(c);
    let ghost cm = cs@.map_values(|c: Chapter| c@);
    emit_u32(out, cs.len() as u32);
    let ghost base = out@;
    let n = cs.len();
    let mut i: usize = 0;
    while i < n
        invariant
            i <= n,
            n == cs@.len(),
            cm == cs@.map_values(|c: Chapter| c@),
            cm.len() == n,
            forall|k: int| 0 <= k < cs@.len() ==> chapter_ok((#[trigger] cs@[k])@),
            out@ == base + enc_list(cm.take(i as int), f),
        decreases n - i,
    {
        proof {
            let next = cm.take(i as int + 1);
            assert(next.drop_last() =~= cm.take(i as int));
            assert(next.last() == cm[i as int]);
        }
        proof {
            assert(cm[i as int] == cs@[i as int]@);
        }
        emit_chapter(out, &cs[i]);
        proof {
            let next = cm.take(i as int + 1);
            assert(next.drop_last() =~= cm.take(i as int));
            assert(f(next.last()) == enc_chapter(cm[i as int]));
            assert(enc_list(next, f) == enc_list(next.drop_last(), f) + f(next.last()));
            assert(out@ =~= base + enc_list(next, f));
        }
        i = i + 1;
    }
    proof {
        assert(cm.take(n as int) =~= cm);
        assert(out@ =~= old(out)@ + enc_counted(cm, f));
    }
}

/// Appends the encoding of a torah portion.
fn emit_portion(out: &mut Vec<u8>, p: &TorahPortion)
    requires
        portion_ok(p@),
    ensures
        final(out)@ == old(out)@ + enc_portion(p@),
{
    emit_i16(out, p.portion_id);
    emit_str(out, p.name.as_str());
    emit_str(out, p.location.as_str());
    proof {
        assert forall|k: int| 0 <= k < p.chapters@.len() implies chapter_ok(
            (#[trigger] p.chapters@[k])@,
        ) by {
            assert(p@.chapters[k] == p.chapters@[k]@);
        }
    }
    emit_chapters(out, &p.chapters);
    proof {
        assert(out@ =~= old(out)@ + enc_portion(p@));
    }
}

/// Serializes a verse passage into its snapshot bytes.
pub fn encode_passage_verse(p: &Passage<Verse>) -> (out: Vec<u8>)
    requires
        passage_verse_ok(p@),
    ensures
        out@ == enc_passage_verse(p@),
{
    let mut out: Vec<u8> = Vec::new();
    out.push(TAG_VERSE);
    emit_verse(&mut out, &p.pass);
    emit_trans_data(&mut out, &p.translations);
    proof {
        assert(out@ =~= enc_passage_verse(p@));
    }
    out
}

/// Serializes a chapter passage into its snapshot bytes.
pub fn encode_passage_chapter(p: &Passage<Chapter>) -> (out: Vec<u8>)
    requires
        passage_chapter_ok(p@),
    ensures
        out@ == enc_passage_chapter(p@),
{
    let mut out: Vec<u8> = Vec::new();
    out.push(TAG_CHAPTER);
    emit_chapter(&mut out, &p.pass);
    emit_trans_data(&mut out, &p.translations);
    proof {
        assert(out@ =~= enc_passage_chapter(p@));
    }
    out
}

/// Serializes a torah-portion passage into its snapshot bytes.
pub fn encode_passage_portion(p: &Passage<TorahPortion>) -> (out: Vec<u8>)
    requires
        passage_portion_ok(p@),
    ensures
        out@ == enc_passage_portion(p@),
{
    let mut out: Vec<u8> = Vec::new();
    out.push(TAG_PORTION);
    emit_portion(&mut out, &p.pass);
    emit_trans_data(&mut out, &p.translations);
    proof {
        assert(out@ =~= enc_passage_portion(p@));
    }
    out
}

/// Concatenation of byte or character sequences is associative.
pub broadcast proof fn lemma_seq_add_assoc<T>(a: Seq<T>, b: Seq<T>, c: Seq<T>)
    ensures
        #![trigger a + (b + c)]
        (a + b) + c == a + (b + c),
{
    assert((a + b) + c =~= a + (b + c));
}

/// The empty sequence is a left identity of concatenation.
pub broadcast proof fn lemma_seq_add_empty_left<T>(a: Seq<T>, b: Seq<T>)
    requires
        a.len() == 0,
    ensures
        #[trigger] (a + b) == b,
{
    assert(a + b =~= b);
}

/// Reads a `u16` at `i`.
fn read_u16(b: &Vec<u8>, i: usize) -> (r: Option<(u16, usize)>)
    ensures
        r matches Some((x, j)) ==> (dec_u16(b@, i as int) == Some((x, j as int)) && i <= j
            <= b@.len()),
        r is None ==> dec_u16(b@, i as int) is None,
{
    if b.len() >= 2 && i <= b.len() - 2 {
        let s = slice_subrange(b.as_slice(), i, i + 2);
        let x = u16_from_le_bytes(s);
        Some((x, i + 2))
    } else {
        None
    }
}

/// Reads a `u32` at `i`.
fn read_u32(b: &Vec<u8>, i: usize) -> (r: Option<(u32, usize)>)
    ensures
        r matches Some((x, j)) ==> (dec_u32(b@, i as int) == Some((x, j as int)) && i <= j
            <= b@.len()),
        r is None ==> dec_u32(b@, i as int) is None,
{
    if b.len() >= 4 && i <= b.len() - 4 {
        let s = slice_subrange(b.as_slice(), i, i + 4);
        let x = u32_from_le_bytes(s);
        Some((x, i + 4))
    } else {
        None
    }
}

/// Reads an `i16` at `i`.
fn read_i16(b: &Vec<u8>, i: usize) -> (r: Option<(i16, usize)>)
    ensures
        r matches Some((x, j)) ==> (dec_i16(b@, i as int) == Some((x, j as int)) && i <= j
            <= b@.len()),
        r is None ==> dec_i16(b@, i as int) is None,
{
    match read_u16(b, i) {
        Some((u, j)) => {
            let x: i16 = ((u as i32) - 0x8000) as i16;
            proof {
                assert(x == unshift_i16(u));
            }
            Some((x, j))
        },
        None => None,
    }
}

/// Reads an `i32` at `i`.
fn read_i32(b: &Vec<u8>, i: usize) -> (r: Option<(i32, usize)>)
    ensures
        r matches Some((x, j)) ==> (dec_i32(b@, i as int) == Some((x, j as int)) && i <= j
            <= b@.len()),
        r is None ==> dec_i32(b@, i as int) is None,
{
    match read_u32(b, i) {
        Some((u, j)) => {
            let x: i32 = ((u as i64) - 0x80000000i64) as i32;
            proof {
                assert(x == unshift_i32(u));
            }
            Some((x, j))
        },
        None => None,
    }
}

/// Reads a character at `i`.
fn read_char(b: &Vec<u8>, i: usize) -> (r: Option<(char, usize)>)
    ensures
        r matches Some((c, j)) ==> (dec_char(b@, i as int) == Some((c, j as int)) && i <= j
            <= b@.len()),
        r is None ==> dec_char(b@, i as int) is None,
{
    match read_u32(b, i) {
        Some((u, j)) => match char::from_u32(u) {
            Some(c) => {
                proof {
                    vstd::utf8::char_u32_cast(c, u);
                }
                Some((c, j))
            },
            None => None,
        },
        None => None,
    }
}

/// Reads a length-prefixed text at `i`.
#[verifier::loop_isolation(false)]
fn read_string(b: &Vec<u8>, i: usize) -> (r: Option<(String, usize)>)
    ensures
        r matches Some((s, j)) ==> (dec_str(b@, i as int) == Some((s@, j as int)) && i <= j
            <= b@.len()),
        r is None ==> dec_str(b@, i as int) is None,
{
    broadcast use lemma_seq_add_assoc, lemma_seq_add_empty_left;

    let ghost g = |bb: Seq<u8>, ii: int| dec_char(bb, ii);
    match read_u32(b, i) {
        None => None,
        Some((n, j0)) => {
            let mut acc = String::new();
            let mut j = j0;
            let mut k: u32 = 0;
            while k < n
                invariant
                    k <= n,
                    i <= j0 <= j <= b@.len(),
                    dec_list(b@, j as int, (n - k) as nat, g) matches Some((t, e))
                        ==> dec_list(b@, j0 as int, n as nat, g) == Some((acc@ + t, e)),
                    dec_list(b@, j as int, (n - k) as nat, g) is None ==> dec_list(
                        b@,
                        j0 as int,
                        n as nat,
                        g,
                    ) is None,
                decreases n - k,
            {
                match read_char(b, j) {
                    None => {
                        return None;
                    },
                    Some((c, j2)) => {
                        proof {
                            assert(g(b@, j as int) == Some((c, j2 as int)));
                            assert(acc@.push(c) =~= acc@ + seq![c]);
                        }
                        acc.push(c);
                        j = j2;
                        k = k + 1;
                    },
                }
            }
            Some((acc, j))
        },
    }
}

/// Reads a corpus tag byte at `i`.
fn read_corpus(b: &Vec<u8>, i: usize) -> (r: Option<(Corpus, usize)>)
    ensures
        r matches Some((c, j)) ==> (dec_corpus(b@, i as int) == Some((c, j as int)) && i <= j
            <= b@.len()),
        r is None ==> dec_corpus(b@, i as int) is None,
{
    if i < b.len() {
        let t = b[i];
        if t == 0 {
            Some((Corpus::Bible, i + 1))
        } else if t == 1 {
            Some((Corpus::Talmud, i + 1))
        } else if t == 2 {
            Some((Corpus::Josephus, i + 1))
        } else if t == 3 {
            Some((Corpus::Enoch, i + 1))
        } else if t == 4 {
            Some((Corpus::Apocrypha, i + 1))
        } else {
            None
        }
    } else {
        None
    }
}

/// Reads a translation at `i`.
fn read_translation(b: &Vec<u8>, i: usize) -> (r: Option<(Translation, usize)>)
    ensures
        r matches Some((t, j)) ==> (dec_translation(b@, i as int) == Some((t@, j as int)) && i <= j
            <= b@.len()),
        r is None ==> dec_translation(b@, i as int) is None,
{
    match read_i16(b, i) {
        None => None,
        Some((trans_id, j1)) => match read_string(b, j1) {
            None => None,
            Some((translation, j2)) => Some((Translation { trans_id, translation }, j2)),
        },
    }
}

/// Reads per-source counters at `i`.
fn read_xref_src(b: &Vec<u8>, i: usize) -> (r: Option<(XrefSrcCt, usize)>)
    ensures
        r matches Some((x, j)) ==> (dec_xref_src(b@, i as int) == Some((x, j as int)) && i <= j
            <= b@.len()),
        r is None ==> dec_xref_src(b@, i as int) is None,
{
    match read_i32(b, i) {
        None => None,
        Some((xpl_ref, j1)) => match read_i32(b, j1) {
            None => None,
            Some((sim_top, j2)) => Some((XrefSrcCt { xpl_ref, sim_top }, j2)),
        },
    }
}

/// Reads a cross-reference summary at `i`.
fn read_xref(b: &Vec<u8>, i: usize) -> (r: Option<(XrefCt, usize)>)
    ensures
        r matches Some((x, j)) ==> (dec_xref(b@, i as int) == Some((x, j as int)) && i <= j
            <= b@.len()),
        r is None ==> dec_xref(b@, i as int) is None,
{
    match read_xref_src(b, i) {
        None => None,
        Some((passages, j1)) => match read_xref_src(b, j1) {
            None => None,
            Some((notes, j2)) => match read_xref_src(b, j2) {
                None => None,
                Some((videos, j3)) => Some((XrefCt { passages, notes, videos }, j3)),
            },
        },
    }
}

/// Reads a book at `i`.
fn read_book(b: &Vec<u8>, i: usize) -> (r: Option<(Book, usize)>)
    ensures
        r matches Some((bk, j)) ==> (dec_book(b@, i as int) == Some((bk@, j as int)) && i <= j
            <= b@.len()),
        r is None ==> dec_book(b@, i as int) is None,
{
    match read_corpus(b, i) {
        None => None,
        Some((corpus, j1)) => match read_i16(b, j1) {
            None => None,
            Some((book_id, j2)) => match read_string(b, j2) {
                None => None,
                Some((name, j3)) => Some((Book { corpus, book_id, name }, j3)),
            },
        },
    }
}

/// Reads a verse at `i`.
fn read_verse(b: &Vec<u8>, i: usize) -> (r: Option<(Verse, usize)>)
    ensures
        r matches Some((v, j)) ==> (dec_verse(b@, i as int) == Some((v@, j as int)) && i <= j
            <= b@.len()),
        r is None ==> dec_verse(b@, i as int) is None,
{
    match read_string(b, i) {
        None => None,
        Some((name, i1)) => match read_book(b, i1) {
            None => None,
            Some((book, i2)) => match read_string(b, i2) {
                None => None,
                Some((chapter_no, i3)) => match read_i16(b, i3) {
                    None => None,
                    Some((verse_no, i4)) => match read_string(b, i4) {
                        None => None,
                        Some((text, i5)) => match read_string(b, i5) {
                            None => None,
                            Some((html, i6)) => match read_xref(b, i6) {
                                None => None,
                                Some((xref_ct, i7)) => Some(
                                    (
                                        Verse {
                                            name,
                                            book,
                                            chapter_no,
                                            verse_no,
                                            text,
                                            html,
                                            xref_ct,
                                        },
                                        i7,
                                    ),
                                ),
                            },
                        },
                    },
                },
            },
        },
    }
}

/// Reads a counted list of translations at `i`.
#[verifier::loop_isolation(false)]
fn read_translations(b: &Vec<u8>, i: usize) -> (r: Option<(Vec<Translation>, usize)>)
    ensures
        r matches Some((ts, j)) ==> (dec_counted(
            b@,
            i as int,
            |bb: Seq<u8>, ii: int| dec_translation(bb, ii),
        ) == Some((ts@.map_values(|t: Translation| t@), j as int)) && i <= j <= b@.len()),
        r is None ==> dec_counted(
            b@,
            i as int,
            |bb: Seq<u8>, ii: int| dec_translation(bb, ii),
        ) is None,
{
    broadcast use lemma_seq_add_assoc, lemma_seq_add_empty_left;

    let ghost g = |bb: Seq<u8>, ii: int| dec_translation(bb, ii);
    let ghost view_of = |t: Translation| t@;
    match read_u32(b, i) {
        None => None,
        Some((n, j0)) => {
            let mut acc: Vec<Translation> = Vec::new();
            let mut j = j0;
            let mut k: u32 = 0;
            while k < n
                invariant
                    k <= n,
                    i <= j0 <= j <= b@.len(),
                    dec_list(b@, j as int, (n - k) as nat, g) matches Some((t, e)) ==> dec_list(
                        b@,
                        j0 as int,
                        n as nat,
                        g,
                    ) == Some((acc@.map_values(view_of) + t, e)),
                    dec_list(b@, j as int, (n - k) as nat, g) is None ==> dec_list(
                        b@,
                        j0 as int,
                        n as nat,
                        g,
                    ) is None,
                decreases n - k,
            {
                match read_translation(b, j) {
                    None => {
                        return None;
                    },
                    Some((t, j2)) => {
                        proof {
                            assert(g(b@, j as int) == Some((t@, j2 as int)));
                            assert(acc@.push(t).map_values(view_of) =~= acc@.map_values(view_of)
                                + seq![t@]);
                        }
                        acc.push(t);
                        j = j2;
                        k = k + 1;
                    },
                }
            }
            proof {
                assert(acc@.map_values(view_of) =~= acc@.map_values(|t: Translation| t@));
            }
            Some((acc, j))
        },
    }
}

/// Reads a passage's translation data at `i`.
fn read_trans_data(b: &Vec<u8>, i: usize) -> (r: Option<(TransData, usize)>)
    ensures
        r matches Some((d, j)) ==> (dec_trans_data(b@, i as int) == Some((d@, j as int)) && i <= j
            <= b@.len()),
        r is None ==> dec_trans_data(b@, i as int) is None,
{
    match read_translation(b, i) {
        None => None,
        Some((selected, i1)) => match read_string(b, i1) {
            None => None,
            Some((footnote, i2)) => match read_string(b, i2) {
                None => None,
                Some((url, i3)) => match read_translations(b, i3) {
                    None => None,
                    Some((available, i4)) => Some(
                        (TransData { selected, footnote, url, available }, i4),
                    ),
                },
            },
        },
    }
}

/// Reads a counted list of verses at `i`.
#[verifier::loop_isolation(false)]
fn read_verses(b: &Vec<u8>, i: usize) -> (r: Option<(Vec<Verse>, usize)>)
    ensures
        r matches Some((vs, j)) ==> (dec_counted(
            b@,
            i as int,
            |bb: Seq<u8>, ii: int| dec_verse(bb, ii),
        ) == Some((vs@.map_values(|v: Verse| v@), j as int)) && i <= j <= b@.len()),
        r is None ==> dec_counted(b@, i as int, |bb: Seq<u8>, ii: int| dec_verse(bb, ii)) is None,
{
    broadcast use lemma_seq_add_assoc, lemma_seq_add_empty_left;

    let ghost g = |bb: Seq<u8>, ii: int| dec_verse(bb, ii);
    let ghost view_of = |v: Verse| v@;
    match read_u32(b, i) {
        None => None,
        Some((n, j0)) => {
            let mut acc: Vec<Verse> = Vec::new();
            let mut j = j0;
            let mut k: u32 = 0;
            while k < n
                invariant
                    k <= n,
                    i <= j0 <= j <= b@.len(),
                    dec_list(b@, j as int, (n - k) as nat, g) matches Some((t, e)) ==> dec_list(
                        b@,
                        j0 as int,
                        n as nat,
                        g,
                    ) == Some((acc@.map_values(view_of) + t, e)),
                    dec_list(b@, j as int, (n - k) as nat, g) is None ==> dec_list(
                        b@,
                        j0 as int,
                        n as nat,
                        g,
                    ) is None,
                decreases n - k,
            {
                match read_verse(b, j) {
                    None => {
                        return None;
                    },
                    Some((v, j2)) => {
                        proof {
                            assert(g(b@, j as int) == Some((v@, j2 as int)));
                            assert(acc@.push(v).map_values(view_of) =~= acc@.map_values(view_of)
                                + seq![v@]);
                        }
                        acc.push(v);
                        j = j2;
                        k = k + 1;
                    },
                }
            }
            proof {
                assert(acc@.map_values(view_of) =~= acc@.map_values(|v: Verse| v@));
            }
            Some((acc, j))
        },
    }
}

/// Reads a chapter at `i`.
fn read_chapter(b: &Vec<u8>, i: usize) -> (r: Option<(Chapter, usize)>)
    ensures
        r matches Some((c, j)) ==> (dec_chapter(b@, i as int) == Some((c@, j as int)) && i <= j
            <= b@.len()),
        r is None ==> dec_chapter(b@, i as int) is None,
{
    match read_string(b, i) {
        None => None,
        Some((name, i1)) => match read_book(b, i1) {
            None => None,
            Some((book, i2)) => match read_string(b, i2) {
                None => None,
                Some((chapter_no, i3)) => match read_xref(b, i3) {
                    None => None,
                    Some((xref_ct, i4)) => match read_verses(b, i4) {
                        None => None,
                        Some((verses, i5)) => Some(
                            (Chapter { name, book, chapter_no, xref_ct, verses }, i5),
                        ),
                    },
                },
            },
        },
    }
}

/// Reads a counted list of chapters at `i`.
#[verifier::loop_isolation(false)]
fn read_chapters(b: &Vec<u8>, i: usize) -> (r: Option<(Vec<Chapter>, usize)>)
    ensures
        r matches Some((cs, j)) ==> (dec_counted(
            b@,
            i as int,
            |bb: Seq<u8>, ii: int| dec_chapter(bb, ii),
        ) == Some((cs@.map_values(|c: Chapter| c@), j as int)) && i <= j <= b@.len()),
        r is None ==> dec_counted(b@, i as int, |bb: Seq<u8>, ii: int| dec_chapter(bb, ii)) is None,
{
    broadcast use lemma_seq_add_assoc, lemma_seq_add_empty_left;

    let ghost g = |bb: Seq<u8>, ii: int| dec_chapter(bb, ii);
    let ghost view_of = |c: Chapter| c@;
    match read_u32(b, i) {
        None => None,
        Some((n, j0)) => {
            let mut acc: Vec<Chapter> = Vec::new();
            let mut j = j0;
            let mut k: u32 = 0;
            while k < n
                invariant
                    k <= n,
                    i <= j0 <= j <= b@.len(),
                    dec_list(b@, j as int, (n - k) as nat, g) matches Some((t, e)) ==> dec_list(
                        b@,
                        j0 as int,
                        n as nat,
                        g,
                    ) == Some((acc@.map_values(view_of) + t, e)),
                    dec_list(b@, j as int, (n - k) as nat, g) is None ==> dec_list(
                        b@,
                        j0 as int,
                        n as nat,
                        g,
                    ) is None,
                decreases n - k,
            {
                match read_chapter(b, j) {
                    None => {
                        return None;
                    },
                    Some((c, j2)) => {
                        proof {
                            assert(g(b@, j as int) == Some((c@, j2 as int)));
                            assert(acc@.push(c).map_values(view_of) =~= acc@.map_values(view_of)
                                + seq![c@]);
                        }
                        acc.push(c);
                        j = j2;
                        k = k + 1;
                    },
                }
            }
            proof {
                assert(acc@.map_values(view_of) =~= acc@.map_values(|c: Chapter| c@));
            }
            Some((acc, j))
        },
    }
}

/// Reads a torah portion at `i`.
fn read_portion(b: &Vec<u8>, i: usize) -> (r: Option<(TorahPortion, usize)>)
    ensures
        r matches Some((p, j)) ==> (dec_portion(b@, i as int) == Some((p@, j as int)) && i <= j
            <= b@.len()),
        r is None ==> dec_portion(b@, i as int) is None,
{
    match read_i16(b, i) {
        None => None,
        Some((portion_id, i1)) => match read_string(b, i1) {
            None => None,
            Some((name, i2)) => match read_string(b, i2) {
                None => None,
                Some((location, i3)) => match read_chapters(b, i3) {
                    None => None,
                    Some((chapters, i4)) => Some(
                        (TorahPortion { portion_id, name, location, chapters }, i4),
                    ),
                },
            },
        },
    }
}

/// Deserializes a whole verse-passage snapshot. The payload must open with
/// the verse tag and be consumed exactly; anything else is corruption.
pub fn decode_passage_verse(b: &Vec<u8>) -> (r: Option<Passage<Verse>>)
    ensures
        r matches Some(p) ==> dec_payload_verse(b@) == Some(p@),
        r is None ==> dec_payload_verse(b@) is None,
{
    if b.len() < 1 || b[0] != TAG_VERSE {
        return None;
    }
    match read_verse(b, 1) {
        None => None,
        Some((pass, j1)) => match read_trans_data(b, j1) {
            None => None,
            Some((translations, j2)) => {
                if j2 == b.len() {
                    Some(Passage { pass, translations })
                } else {
                    None
                }
            },
        },
    }
}

/// Deserializes a whole chapter-passage snapshot.
pub fn decode_passage_chapter(b: &Vec<u8>) -> (r: Option<Passage<Chapter>>)
    ensures
        r matches Some(p) ==> dec_payload_chapter(b@) == Some(p@),
        r is None ==> dec_payload_chapter(b@) is None,
{
    if b.len() < 1 || b[0] != TAG_CHAPTER {
        return None;
    }
    match read_chapter(b, 1) {
        None => None,
        Some((pass, j1)) => match read_trans_data(b, j1) {
            None => None,
            Some((translations, j2)) => {
                if j2 == b.len() {
                    Some(Passage { pass, translations })
                } else {
                    None
                }
            },
        },
    }
}

/// Deserializes a whole torah-portion-passage snapshot.
pub fn decode_passage_portion(b: &Vec<u8>) -> (r: Option<Passage<TorahPortion>>)
    ensures
        r matches Some(p) ==> dec_payload_portion(b@) == Some(p@),
        r is None ==> dec_payload_portion(b@) is None,
{
    if b.len() < 1 || b[0] != TAG_PORTION {
        return None;
    }
    match read_portion(b, 1) {
        None => None,
        Some((pass, j1)) => match read_trans_data(b, j1) {
            None => None,
            Some((translations, j2)) => {
                if j2 == b.len() {
                    Some(Passage { pass, translations })
                } else {
                    None
                }
            },
        },
    }
}

} // verus!
