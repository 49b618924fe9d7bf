//! Entity model for the served corpora: value types for corpora, translations,
//! books, verses, chapters and Torah portions, together with their
//! mathematical models and well-formedness conditions.

use vstd::prelude::*;
use crate::errors::{CorpusError, ErrorKind};

verus! {

/// There are only a few corpora, so they can be enumerated.
#[derive(Clone, Copy, PartialEq, Eq, Structural, Debug)]
pub enum Corpus {
    Bible,
    Talmud,
    Josephus,
    Enoch,
    Apocrypha,
}

/// The code point of `c` with an ASCII upper-case letter folded to lower case.
pub open spec fn lower_cp(c: char) -> u32 {
    if 65 <= c as u32 && c as u32 <= 90 {
        (c as u32 + 32) as u32
    } else {
        c as u32
    }
}

/// Character-wise ASCII-case-insensitive equality of two texts.
pub open spec fn eq_ci(a: Seq<char>, b: Seq<char>) -> bool {
    &&& a.len() == b.len()
    &&& forall|i: int| 0 <= i < a.len() ==> lower_cp(a[i]) == lower_cp(#[trigger] b[i])
}

/// Compares two texts for equality up to ASCII case.
pub fn eq_ignore_ascii_case(s: &str, t: &str) -> (r: bool)
    ensures
        r == eq_ci(s@, t@),
{
    let sn = s.unicode_len();
    let tn = t.unicode_len();
    if sn != tn {
        return false;
    }
    let mut i: usize = 0;
    while i < sn
        invariant
            i <= sn,
            sn == s@.len(),
            sn == t@.len(),
            forall|k: int| 0 <= k < i ==> lower_cp(s@[k]) == lower_cp(#[trigger] t@[k]),
        decreases sn - i,
    {
        let a = s.get_char(i) as u32;
        let b = t.get_char(i) as u32;
        let la = if 65 <= a && a <= 90 { a + 32 } else { a };
        let lb = if 65 <= b && b <= 90 { b + 32 } else { b };
        if la != lb {
            return false;
        }
        i = i + 1;
    }
    true
}

impl Corpus {
    /// Parses a corpus from its name, ignoring ASCII case. An unrecognized
    /// name fails with a `ParseError`; it is never mapped to an existing
    /// corpus.
    pub fn from_name(corpus_name: &str) -> (r: Result<Self, CorpusError>)
        ensures
            r == Ok::<Corpus, CorpusError>(Corpus::Bible) <==> eq_ci(corpus_name@, "bible"@),
            r == Ok::<Corpus, CorpusError>(Corpus::Talmud) <==> eq_ci(corpus_name@, "talmud"@),
            r == Ok::<Corpus, CorpusError>(Corpus::Josephus) <==> eq_ci(corpus_name@, "josephus"@),
            r == Ok::<Corpus, CorpusError>(Corpus::Enoch) <==> eq_ci(corpus_name@, "enoch"@),
            r == Ok::<Corpus, CorpusError>(Corpus::Apocrypha) <==> eq_ci(corpus_name@, "apocrypha"@),
            r matches Err(e) ==> e.kind == ErrorKind::ParseError,
    {
        proof {
            reveal_strlit("bible");
            reveal_strlit("talmud");
            reveal_strlit("josephus");
            reveal_strlit("enoch");
            reveal_strlit("apocrypha");
            assert(lower_cp("bible"@[0]) != lower_cp("enoch"@[0]));
        }
        if eq_ignore_ascii_case(corpus_name, "bible") {
            Ok(Corpus::Bible)
        } else if eq_ignore_ascii_case(corpus_name, "talmud") {
            Ok(Corpus::Talmud)
        } else if eq_ignore_ascii_case(corpus_name, "josephus") {
            Ok(Corpus::Josephus)
        } else if eq_ignore_ascii_case(corpus_name, "enoch") {
            Ok(Corpus::Enoch)
        } else if eq_ignore_ascii_case(corpus_name, "apocrypha") {
            Ok(Corpus::Apocrypha)
        } else {
            Err(CorpusError::new(ErrorKind::ParseError, "unable to decipher corpus ", corpus_name))
        }
    }
}

/// The translation struct captures that there will often be more than one
/// translation for a given passage.
#[derive(Debug, PartialEq)]
pub struct Translation {
    /// a unique id for this translation
    pub trans_id: i16,
    /// the name of this translation
    pub translation: String,
}

/// Mathematical model of a `Translation`.
pub ghost struct TranslationM {
    pub trans_id: i16,
    pub translation: Seq<char>,
}

impl View for Translation {
    type V = TranslationM;

    open spec fn view(&self) -> TranslationM {
        TranslationM { trans_id: self.trans_id, translation: self.translation@ }
    }
}

impl Clone for Translation {
    fn clone(&self) -> (r: Self)
        ensures
            r == *self,
    {
        Translation { trans_id: self.trans_id, translation: self.translation.clone() }
    }
}

/// The TransData struct captures both the selected translation and the
/// available translations for a passage.
#[derive(Debug, PartialEq)]
pub struct TransData {
    /// the currently selected translation
    pub selected: Translation,
    /// a footnote to display about the translation and associated license
    pub footnote: String,
    /// a url to more information about the translation
    pub url: String,
    /// all available translations for the given passage
    pub available: Vec<Translation>,
}

/// Mathematical model of a `TransData`.
pub ghost struct TransDataM {
    pub selected: TranslationM,
    pub footnote: Seq<char>,
    pub url: Seq<char>,
    pub available: Seq<TranslationM>,
}

impl View for TransData {
    type V = TransDataM;

    open spec fn view(&self) -> TransDataM {
        TransDataM {
            selected: self.selected@,
            footnote: self.footnote@,
            url: self.url@,
            available: self.available@.map_values(|t: Translation| t@),
        }
    }
}

/// A passage's `available` list always includes the `selected` translation.
pub open spec fn trans_data_wf(t: TransDataM) -> bool {
    exists|i: int| 0 <= i < t.available.len() && #[trigger] t.available[i] == t.selected
}

impl Clone for TransData {
    fn clone(&self) -> (r: Self)
        ensures
            r@ == self@,
    {
        let available = self.available.clone();
        proof {
            assert forall|i: int| 0 <= i < self.available@.len() implies available@[i]
                == self.available@[i] by {
                assert(cloned::<Translation>(self.available[i], available[i]));
            }
            assert(available@ =~= self.available@);
        }
        TransData {
            selected: self.selected.clone(),
            footnote: self.footnote.clone(),
            url: self.url.clone(),
            available,
        }
    }
}

/// The Passage generic separates translation data from chapter and verse
/// structs: translation metadata is invariant across all verses of one
/// chapter or portion, so it is hoisted out of the repeated inner structure.
#[derive(Debug, PartialEq)]
pub struct Passage<T> {
    pub pass: T,
    pub translations: TransData,
}

/// Mathematical model of a `Passage`.
pub ghost struct PassageM<TV> {
    pub pass: TV,
    pub translations: TransDataM,
}

/// A Book (i.e. Genesis, Bava Batra, etc.) has a corpus, a unique book_id,
/// and a name.
#[derive(Debug, PartialEq)]
pub struct Book {
    pub corpus: Corpus,
    pub book_id: i16,
    pub name: String,
}

/// Mathematical model of a `Book`.
pub ghost struct BookM {
    pub corpus: Corpus,
    pub book_id: i16,
    pub name: Seq<char>,
}

impl View for Book {
    type V = BookM;

    open spec fn view(&self) -> BookM {
        BookM { corpus: self.corpus, book_id: self.book_id, name: self.name@ }
    }
}

impl Clone for Book {
    fn clone(&self) -> (r: Self)
        ensures
            r == *self,
    {
        Book { corpus: self.corpus, book_id: self.book_id, name: self.name.clone() }
    }
}

/// Counts of cross-references, both explicit and based on topic (semantic)
/// similarity, for one source.
#[derive(Clone, Copy, PartialEq, Eq, Structural, Debug)]
pub struct XrefSrcCt {
    /// count of explicit references, where a passage is named
    pub xpl_ref: i32,
    /// count of similar topics, where semantic similarity is high
    pub sim_top: i32,
}

/// Cross-reference counters are never negative.
pub open spec fn xref_src_wf(x: XrefSrcCt) -> bool {
    x.xpl_ref >= 0 && x.sim_top >= 0
}

/// Summarizes cross-references by source.
#[derive(Clone, Copy, PartialEq, Eq, Structural, Debug)]
pub struct XrefCt {
    /// references from other passages (bible, talmud, etc.)
    pub passages: XrefSrcCt,
    /// references from notes
    pub notes: XrefSrcCt,
    /// references from videos
    pub videos: XrefSrcCt,
}

/// All cross-reference counters are non-negative.
pub open spec fn xref_wf(x: XrefCt) -> bool {
    xref_src_wf(x.passages) && xref_src_wf(x.notes) && xref_src_wf(x.videos)
}

/// The Verse struct carries all the information about one verse so it can
/// be read or viewed, for example in the context of searching.
#[derive(Debug, PartialEq)]
pub struct Verse {
    pub name: String,
    pub book: Book,
    pub chapter_no: String,
    pub verse_no: i16,
    pub text: String,
    pub html: String,
    /// count of cross-references by source
    pub xref_ct: XrefCt,
}

/// Mathematical model of a `Verse`.
pub ghost struct VerseM {
    pub name: Seq<char>,
    pub book: BookM,
    pub chapter_no: Seq<char>,
    pub verse_no: i16,
    pub text: Seq<char>,
    pub html: Seq<char>,
    pub xref_ct: XrefCt,
}

impl View for Verse {
    type V = VerseM;

    open spec fn view(&self) -> VerseM {
        VerseM {
            name: self.name@,
            book: self.book@,
            chapter_no: self.chapter_no@,
            verse_no: self.verse_no,
            text: self.text@,
            html: self.html@,
            xref_ct: self.xref_ct,
        }
    }
}

/// A verse's counters are non-negative.
pub open spec fn verse_wf(v: VerseM) -> bool {
    xref_wf(v.xref_ct)
}

impl Clone for Verse {
    fn clone(&self) -> (r: Self)
        ensures
            r == *self,
    {
        Verse {
            name: self.name.clone(),
            book: self.book.clone(),
            chapter_no: self.chapter_no.clone(),
            verse_no: self.verse_no,
            text: self.text.clone(),
            html: self.html.clone(),
            xref_ct: self.xref_ct,
        }
    }
}

/// The Chapter struct carries all the information about a chapter so it can
/// be read.
#[derive(Debug, PartialEq)]
pub struct Chapter {
    pub name: String,
    pub book: Book,
    pub chapter_no: String,
    /// count of cross-references attributable to the chapter as a whole
    pub xref_ct: XrefCt,
    pub verses: Vec<Verse>,
}

/// Mathematical model of a `Chapter`.
pub ghost struct ChapterM {
    pub name: Seq<char>,
    pub book: BookM,
    pub chapter_no: Seq<char>,
    pub xref_ct: XrefCt,
    pub verses: Seq<VerseM>,
}

impl View for Chapter {
    type V = ChapterM;

    open spec fn view(&self) -> ChapterM {
        ChapterM {
            name: self.name@,
            book: self.book@,
            chapter_no: self.chapter_no@,
            xref_ct: self.xref_ct,
            verses: self.verses@.map_values(|v: Verse| v@),
        }
    }
}

/// The verses of a sequence are in strictly increasing verse-number order.
pub open spec fn verses_sorted(vs: Seq<VerseM>) -> bool {
    forall|i: int, j: int|
        0 <= i < j < vs.len() ==> (#[trigger] vs[i]).verse_no < (#[trigger] vs[j]).verse_no
}

/// Every verse of the sequence belongs to the given book and chapter.
pub open spec fn verses_of_chapter(vs: Seq<VerseM>, book: BookM, chapter_no: Seq<char>) -> bool {
    forall|i: int| 0 <= i < vs.len() ==> {
        &&& (#[trigger] vs[i]).book == book
        &&& vs[i].chapter_no == chapter_no
        &&& verse_wf(vs[i])
    }
}

/// A chapter's verses are sorted in strictly increasing verse-number order,
/// belong to the chapter, and its counters are non-negative.
pub open spec fn chapter_wf(c: ChapterM) -> bool {
    &&& xref_wf(c.xref_ct)
    &&& verses_sorted(c.verses)
    &&& verses_of_chapter(c.verses, c.book, c.chapter_no)
}

impl Clone for Chapter {
    fn clone(&self) -> (r: Self)
        ensures
            r@ == self@,
    {
        let verses = self.verses.clone();
        proof {
            assert forall|i: int| 0 <= i < self.verses@.len() implies verses@[i]
                == self.verses@[i] by {
                assert(cloned::<Verse>(self.verses[i], verses[i]));
            }
            assert(verses@ =~= self.verses@);
        }
        Chapter {
            name: self.name.clone(),
            book: self.book.clone(),
            chapter_no: self.chapter_no.clone(),
            xref_ct: self.xref_ct,
            verses,
        }
    }
}

/// A TorahPortion is similar to a passage, but it contains multiple chapters.
/// Boundary chapters may be cut short depending on where the portion starts
/// and stops.
#[derive(Debug, PartialEq)]
pub struct TorahPortion {
    /// the id of this torah portion
    pub portion_id: i16,
    /// the name of the torah portion, i.e. 'Shemot' or 'Haazinu'
    pub name: String,
    /// the location of the portion, i.e. 'Exodus 1:1 - 5:10'
    pub location: String,
    /// the chapters, where boundary chapters may hold fewer than the full
    /// set of verses
    pub chapters: Vec<Chapter>,
}

/// Mathematical model of a `TorahPortion`.
pub ghost struct TorahPortionM {
    pub portion_id: i16,
    pub name: Seq<char>,
    pub location: Seq<char>,
    pub chapters: Seq<ChapterM>,
}

impl View for TorahPortion {
    type V = TorahPortionM;

    open spec fn view(&self) -> TorahPortionM {
        TorahPortionM {
            portion_id: self.portion_id,
            name: self.name@,
            location: self.location@,
            chapters: self.chapters@.map_values(|c: Chapter| c@),
        }
    }
}

/// Every chapter of the portion is well formed.
pub open spec fn portion_wf(p: TorahPortionM) -> bool {
    forall|i: int| 0 <= i < p.chapters.len() ==> chapter_wf(#[trigger] p.chapters[i])
}

impl Clone for TorahPortion {
    fn clone(&self) -> (r: Self)
        ensures
            r@ == self@,
    {
        let chapters = self.chapters.clone();
        proof {
            assert forall|i: int| 0 <= i < self.chapters@.len() implies chapters@[i]@
                == self.chapters@[i]@ by {
                assert(cloned::<Chapter>(self.chapters[i], chapters[i]));
            }
            assert(chapters@.map_values(|c: Chapter| c@) =~= self.chapters@.map_values(
                |c: Chapter| c@,
            ));
        }
        TorahPortion {
            portion_id: self.portion_id,
            name: self.name.clone(),
            location: self.location.clone(),
            chapters,
        }
    }
}

/// The subsequence of `vs` whose verse numbers are at least `start`.
pub open spec fn verses_at_least(vs: Seq<VerseM>, start: i16) -> Seq<VerseM>
    decreases vs.len(),
{
    if vs.len() == 0 {
        Seq::empty()
    } else if vs.last().verse_no >= start {
        verses_at_least(vs.drop_last(), start) + seq![vs.last()]
    } else {
        verses_at_least(vs.drop_last(), start)
    }
}

/// The subsequence of `vs` whose verse numbers are at most `end`.
pub open spec fn verses_at_most(vs: Seq<VerseM>, end: i16) -> Seq<VerseM>
    decreases vs.len(),
{
    if vs.len() == 0 {
        Seq::empty()
    } else if vs.last().verse_no <= end {
        verses_at_most(vs.drop_last(), end) + seq![vs.last()]
    } else {
        verses_at_most(vs.drop_last(), end)
    }
}

/// Every verse retained by `verses_at_least` comes from the original
/// sequence and meets the bound; order and strict sortedness are preserved.
pub proof fn lemma_verses_at_least(vs: Seq<VerseM>, start: i16)
    ensures
        forall|x: VerseM|
            #[trigger] verses_at_least(vs, start).contains(x) ==> vs.contains(x) && x.verse_no
                >= start,
        verses_sorted(vs) ==> verses_sorted(verses_at_least(vs, start)),
    decreases vs.len(),
{
    if vs.len() > 0 {
        let pre = vs.drop_last();
        lemma_verses_at_least(pre, start);
        assert(forall|x: VerseM| pre.contains(x) ==> vs.contains(x));
        let r = verses_at_least(vs, start);
        let rp = verses_at_least(pre, start);
        if vs.last().verse_no >= start {
            assert(vs.contains(vs.last()));
            assert(forall|x: VerseM| #[trigger] r.contains(x) ==> rp.contains(x) || x == vs.last());
            if verses_sorted(vs) {
                assert forall|i: int, j: int| 0 <= i < j < r.len() implies (#[trigger] r[i]).verse_no
                    < (#[trigger] r[j]).verse_no by {
                    if j < r.len() - 1 {
                        assert(r[i] == rp[i] && r[j] == rp[j]);
                    } else {
                        assert(r[j] == vs.last());
                        assert(rp.contains(rp[i]));
                        assert(pre.contains(r[i]));
                        let k = choose|k: int| 0 <= k < pre.len() && pre[k] == r[i];
                        assert(vs[k] == pre[k]);
                        assert(vs[k].verse_no < vs[vs.len() - 1].verse_no);
                    }
                }
            }
        }
    }
}

/// Every verse retained by `verses_at_most` comes from the original
/// sequence and meets the bound; order and strict sortedness are preserved.
pub proof fn lemma_verses_at_most(vs: Seq<VerseM>, end: i16)
    ensures
        forall|x: VerseM|
            #[trigger] verses_at_most(vs, end).contains(x) ==> vs.contains(x) && x.verse_no <= end,
        verses_sorted(vs) ==> verses_sorted(verses_at_most(vs, end)),
    decreases vs.len(),
{
    if vs.len() > 0 {
        let pre = vs.drop_last();
        lemma_verses_at_most(pre, end);
        assert(forall|x: VerseM| pre.contains(x) ==> vs.contains(x));
        let r = verses_at_most(vs, end);
        let rp = verses_at_most(pre, end);
        if vs.last().verse_no <= end {
            assert(vs.contains(vs.last()));
            assert(forall|x: VerseM| #[trigger] r.contains(x) ==> rp.contains(x) || x == vs.last());
            if verses_sorted(vs) {
                assert forall|i: int, j: int| 0 <= i < j < r.len() implies (#[trigger] r[i]).verse_no
                    < (#[trigger] r[j]).verse_no by {
                    if j < r.len() - 1 {
                        assert(r[i] == rp[i] && r[j] == rp[j]);
                    } else {
                        assert(r[j] == vs.last());
                        assert(rp.contains(rp[i]));
                        assert(pre.contains(r[i]));
                        let k = choose|k: int| 0 <= k < pre.len() && pre[k] == r[i];
                        assert(vs[k] == pre[k]);
                        assert(vs[k].verse_no < vs[vs.len() - 1].verse_no);
                    }
                }
            }
        }
    }
}

impl Chapter {
    /// A copy of this chapter cut short at its beginning: it keeps exactly
    /// the verses whose number is at least `start_verse`, in their original
    /// order, while the chapter-level identity is unchanged.
    pub fn truncate_start(&self, start_verse: i16) -> (r: Chapter)
        ensures
            r@.name == self@.name,
            r@.book == self@.book,
            r@.chapter_no == self@.chapter_no,
            r@.xref_ct == self@.xref_ct,
            r@.verses == verses_at_least(self@.verses, start_verse),
            forall|i: int|
                0 <= i < r@.verses.len() ==> (#[trigger] r@.verses[i]).verse_no >= start_verse,
            chapter_wf(self@) ==> chapter_wf(r@),
    {
        let ghost vm = self@.verses;
        let mut kept: Vec<Verse> = Vec::new();
        let n = self.verses.len();
        let mut i: usize = 0;
        while i < n
            invariant
                i <= n,
                n == self.verses.len(),
                vm == self@.verses,
                vm.len() == n,
                kept@.map_values(|v: Verse| v@) == verses_at_least(vm.take(i as int), start_verse),
            decreases n - i,
        {
            let ghost prefix = vm.take(i as int);
            let ghost next = vm.take(i as int + 1);
            proof {
                assert(next.drop_last() =~= prefix);
                assert(next.last() == vm[i as int]);
            }
            if self.verses[i].verse_no >= start_verse {
                kept.push(self.verses[i].clone());
                proof {
                    assert(kept@.map_values(|v: Verse| v@) =~= verses_at_least(
                        prefix,
                        start_verse,
                    ) + seq![vm[i as int]]);
                }
            }
            i = i + 1;
        }
        proof {
            assert(vm.take(n as int) =~= vm);
            lemma_verses_at_least(vm, start_verse);
            if chapter_wf(self@) {
                assert forall|x: VerseM| vm.contains(x) implies verse_wf(x) && x.book
                    == self@.book && x.chapter_no == self@.chapter_no by {
                    let k = choose|k: int| 0 <= k < vm.len() && vm[k] == x;
                }
            }
        }
        let r = Chapter {
            name: self.name.clone(),
            book: self.book.clone(),
            chapter_no: self.chapter_no.clone(),
            xref_ct: self.xref_ct,
            verses: kept,
        };
        proof {
            let rv = r@.verses;
            assert forall|i: int| 0 <= i < rv.len() implies (#[trigger] rv[i]).verse_no
                >= start_verse by {
                assert(rv.contains(rv[i]));
            }
            if chapter_wf(self@) {
                assert forall|i: int| 0 <= i < rv.len() implies {
                    &&& (#[trigger] rv[i]).book == r@.book
                    &&& rv[i].chapter_no == r@.chapter_no
                    &&& verse_wf(rv[i])
                } by {
                    assert(rv.contains(rv[i]));
                    assert(vm.contains(rv[i]));
                }
            }
        }
        r
    }

    /// A copy of this chapter cut short at its end: it keeps exactly the
    /// verses whose number is at most `end_verse`, in their original order,
    /// while the chapter-level identity is unchanged.
    pub fn truncate_end(&self, end_verse: i16) -> (r: Chapter)
        ensures
            r@.name == self@.name,
            r@.book == self@.book,
            r@.chapter_no == self@.chapter_no,
            r@.xref_ct == self@.xref_ct,
            r@.verses == verses_at_most(self@.verses, end_verse),
            forall|i: int|
                0 <= i < r@.verses.len() ==> (#[trigger] r@.verses[i]).verse_no <= end_verse,
            chapter_wf(self@) ==> chapter_wf(r@),
    {
        let ghost vm = self@.verses;
        let mut kept: Vec<Verse> = Vec::new();
        let n = self.verses.len();
        let mut i: usize = 0;
        while i < n
            invariant
                i <= n,
                n == self.verses.len(),
                vm == self@.verses,
                vm.len() == n,
                kept@.map_values(|v: Verse| v@) == verses_at_most(vm.take(i as int), end_verse),
            decreases n - i,
        {
            let ghost prefix = vm.take(i as int);
            let ghost next = vm.take(i as int + 1);
            proof {
                assert(next.drop_last() =~= prefix);
                assert(next.last() == vm[i as int]);
            }
            if self.verses[i].verse_no <= end_verse {
                kept.push(self.verses[i].clone());
                proof {
                    assert(kept@.map_values(|v: Verse| v@) =~= verses_at_most(
                        prefix,
                        end_verse,
                    ) + seq![vm[i as int]]);
                }
            }
            i = i + 1;
        }
        proof {
            assert(vm.take(n as int) =~= vm);
            lemma_verses_at_most(vm, end_verse);
        }
        let r = Chapter {
            name: self.name.clone(),
            book: self.book.clone(),
            chapter_no: self.chapter_no.clone(),
            xref_ct: self.xref_ct,
            verses: kept,
        };
        proof {
            let rv = r@.verses;
            assert forall|i: int| 0 <= i < rv.len() implies (#[trigger] rv[i]).verse_no
                <= end_verse by {
                assert(rv.contains(rv[i]));
            }
            if chapter_wf(self@) {
                assert forall|i: int| 0 <= i < rv.len() implies {
                    &&& (#[trigger] rv[i]).book == r@.book
                    &&& rv[i].chapter_no == r@.chapter_no
                    &&& verse_wf(rv[i])
                } by {
                    assert(rv.contains(rv[i]));
                    assert(vm.contains(rv[i]));
                    let k = choose|k: int| 0 <= k < vm.len() && vm[k] == rv[i];
                }
            }
        }
        r
    }
}

impl TorahPortion {
    /// Assembles a portion from whole chapters and the portion's configured
    /// verse range: the first chapter is cut to the verses numbered at least
    /// `start_verse` and the last chapter to the verses numbered at most
    /// `end_verse`; chapters in between are kept whole. Truncation preserves
    /// each chapter's identity and well-formedness.
    pub fn from_range(
        portion_id: i16,
        name: String,
        location: String,
        chapters: Vec<Chapter>,
        start_verse: i16,
        end_verse: i16,
    ) -> (r: TorahPortion)
        ensures
            r@.portion_id == portion_id,
            r@.name == name@,
            r@.location == location@,
            r@.chapters.len() == chapters@.len(),
            forall|i: int|
                0 < i < chapters@.len() - 1 ==> #[trigger] r@.chapters[i] == chapters@[i]@,
            chapters@.len() == 1 ==> r@.chapters[0].verses == verses_at_most(
                verses_at_least(chapters@[0]@.verses, start_verse),
                end_verse,
            ),
            chapters@.len() > 1 ==> {
                &&& r@.chapters[0].verses == verses_at_least(chapters@[0]@.verses, start_verse)
                &&& r@.chapters[chapters@.len() - 1].verses == verses_at_most(
                    chapters@[chapters@.len() - 1]@.verses,
                    end_verse,
                )
                &&& r@.chapters[0].book == chapters@[0]@.book
                &&& r@.chapters[0].chapter_no == chapters@[0]@.chapter_no
                &&& r@.chapters[0].name == chapters@[0]@.name
            },
            forall|i: int, j: int|
                0 <= i < r@.chapters.len() && 0 <= j < (#[trigger] r@.chapters[i]).verses.len()
                    ==> i > 0 || (#[trigger] r@.chapters[i].verses[j]).verse_no >= start_verse,
            (forall|i: int| 0 <= i < chapters@.len() ==> chapter_wf(#[trigger] chapters@[i]@))
                ==> portion_wf(r@),
    {
        let mut chapters = chapters;
        let ghost orig = chapters@;
        let n = chapters.len();
        if n > 0 {
            let first = chapters[0].truncate_start(start_verse);
            let first = if n == 1 {
                first.truncate_end(end_verse)
            } else {
                first
            };
            chapters.set(0, first);
            if n > 1 {
                let last = chapters[n - 1].truncate_end(end_verse);
                chapters.set(n - 1, last);
            }
        }
        let r = TorahPortion { portion_id, name, location, chapters };
        proof {
            let cm = r@.chapters;
            if n > 0 {
                let base = orig[0]@.verses;
                lemma_verses_at_least(base, start_verse);
                if n == 1 {
                    lemma_verses_at_most(verses_at_least(base, start_verse), end_verse);
                }
                assert forall|j: int| 0 <= j < cm[0].verses.len() implies (
                #[trigger] cm[0].verses[j]).verse_no >= start_verse by {
                    assert(cm[0].verses.contains(cm[0].verses[j]));
                }
            }
            assert forall|i: int, j: int|
                0 <= i < cm.len() && 0 <= j < (#[trigger] cm[i]).verses.len() implies i > 0 || (
            #[trigger] cm[i].verses[j]).verse_no >= start_verse by {
                if i == 0 {
                    assert(cm[0].verses[j].verse_no >= start_verse);
                }
            }
        }
        r
    }
}

impl View for Passage<Verse> {
    type V = PassageM<VerseM>;

    open spec fn view(&self) -> PassageM<VerseM> {
        PassageM { pass: self.pass@, translations: self.translations@ }
    }
}

impl View for Passage<Chapter> {
    type V = PassageM<ChapterM>;

    open spec fn view(&self) -> PassageM<ChapterM> {
        PassageM { pass: self.pass@, translations: self.translations@ }
    }
}

impl View for Passage<TorahPortion> {
    type V = PassageM<TorahPortionM>;

    open spec fn view(&self) -> PassageM<TorahPortionM> {
        PassageM { pass: self.pass@, translations: self.translations@ }
    }
}

impl Clone for Passage<Verse> {
    fn clone(&self) -> (r: Self)
        ensures
            r@ == self@,
    {
        Passage { pass: self.pass.clone(), translations: self.translations.clone() }
    }
}

impl Clone for Passage<Chapter> {
    fn clone(&self) -> (r: Self)
        ensures
            r@ == self@,
    {
        Passage { pass: self.pass.clone(), translations: self.translations.clone() }
    }
}

impl Clone for Passage<TorahPortion> {
    fn clone(&self) -> (r: Self)
        ensures
            r@ == self@,
    {
        Passage { pass: self.pass.clone(), translations: self.translations.clone() }
    }
}

} // verus!
