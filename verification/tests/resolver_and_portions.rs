use corpora_store::corpora::{
    Book, Chapter, Corpus, TorahPortion, Verse, XrefCt, XrefSrcCt,
};
use corpora_store::errors::ErrorKind;
use corpora_store::resolver::{TranslationPriority, TranslationResolver};

fn zero_xref() -> XrefCt {
    let z = XrefSrcCt { xpl_ref: 0, sim_top: 0 };
    XrefCt { passages: z, notes: z, videos: z }
}

fn verse(book: Book, chapter_no: &str, verse_no: i16) -> Verse {
    Verse {
        name: format!("{} {}:{}", book.name, chapter_no, verse_no),
        book,
        chapter_no: chapter_no.to_string(),
        verse_no,
        text: "text".to_string(),
        html: "<p>text</p>".to_string(),
        xref_ct: zero_xref(),
    }
}

fn chapter(chapter_no: &str, verse_nos: &[i16]) -> Chapter {
    let book = Book { corpus: Corpus::Bible, book_id: 2, name: "Exodus".to_string() };
    let verses = verse_nos.iter().map(|&n| verse(book.clone(), chapter_no, n)).collect();
    Chapter {
        name: format!("Exodus {}", chapter_no),
        book,
        chapter_no: chapter_no.to_string(),
        xref_ct: zero_xref(),
        verses,
    }
}

#[test]
fn requested_translation_is_used_verbatim() {
    let resolver = TranslationResolver::new(vec![TranslationPriority { trans_id: 1, priority: 1 }]);
    // no existence check at this layer: a missing id surfaces downstream
    assert_eq!(resolver.resolve(Some(42)), Ok(42));
}

#[test]
fn default_translation_is_the_highest_priority_entry() {
    let resolver = TranslationResolver::new(vec![
        TranslationPriority { trans_id: 10, priority: 3 },
        TranslationPriority { trans_id: 20, priority: 1 },
        TranslationPriority { trans_id: 30, priority: 2 },
    ]);
    assert_eq!(resolver.resolve(None), Ok(20));
}

#[test]
fn default_translation_resolution_is_deterministic() {
    let resolver = TranslationResolver::new(vec![
        TranslationPriority { trans_id: 10, priority: 2 },
        TranslationPriority { trans_id: 20, priority: 2 },
    ]);
    // ties take the earliest entry, and repeated calls agree
    let first = resolver.resolve(None);
    assert_eq!(first, Ok(10));
    for _ in 0..5 {
        assert_eq!(resolver.resolve(None), first);
    }
}

#[test]
fn resolution_with_nothing_registered_fails() {
    let resolver = TranslationResolver::new(vec![]);
    match resolver.resolve(None) {
        Ok(_) => panic!("resolution must fail with nothing registered"),
        Err(e) => assert_eq!(e.kind, ErrorKind::ResolutionError),
    }
}

#[test]
fn truncation_keeps_only_verses_from_the_start_verse() {
    let ch = chapter("1", &[1, 2, 3, 4, 5, 6]);
    let cut = ch.truncate_start(4);
    let nos: Vec<i16> = cut.verses.iter().map(|v| v.verse_no).collect();
    assert_eq!(nos, vec![4, 5, 6]);
    // the chapter-level identity is unchanged
    assert_eq!(cut.name, ch.name);
    assert_eq!(cut.chapter_no, ch.chapter_no);
    assert_eq!(cut.book, ch.book);
}

#[test]
fn truncation_keeps_only_verses_up_to_the_end_verse() {
    let ch = chapter("5", &[1, 2, 3, 4, 5]);
    let cut = ch.truncate_end(2);
    let nos: Vec<i16> = cut.verses.iter().map(|v| v.verse_no).collect();
    assert_eq!(nos, vec![1, 2]);
}

#[test]
fn truncation_may_leave_no_verses() {
    let ch = chapter("1", &[1, 2, 3]);
    let cut = ch.truncate_start(9);
    assert!(cut.verses.is_empty());
}

#[test]
fn portion_range_cuts_first_and_last_chapters() {
    let chapters = vec![
        chapter("1", &[1, 2, 3, 4]),
        chapter("2", &[1, 2, 3]),
        chapter("3", &[1, 2, 3, 4, 5]),
    ];
    let p = TorahPortion::from_range(
        13,
        "Shemot".to_string(),
        "Exodus 1:3 - 3:2".to_string(),
        chapters,
        3,
        2,
    );
    assert_eq!(p.portion_id, 13);
    assert_eq!(p.chapters.len(), 3);
    let first: Vec<i16> = p.chapters[0].verses.iter().map(|v| v.verse_no).collect();
    assert_eq!(first, vec![3, 4]);
    let middle: Vec<i16> = p.chapters[1].verses.iter().map(|v| v.verse_no).collect();
    assert_eq!(middle, vec![1, 2, 3]);
    let last: Vec<i16> = p.chapters[2].verses.iter().map(|v| v.verse_no).collect();
    assert_eq!(last, vec![1, 2]);
}

#[test]
fn single_chapter_portion_is_cut_on_both_sides() {
    let chapters = vec![chapter("1", &[1, 2, 3, 4, 5, 6])];
    let p = TorahPortion::from_range(
        1,
        "Short".to_string(),
        "Exodus 1:2 - 1:4".to_string(),
        chapters,
        2,
        4,
    );
    let nos: Vec<i16> = p.chapters[0].verses.iter().map(|v| v.verse_no).collect();
    assert_eq!(nos, vec![2, 3, 4]);
}
