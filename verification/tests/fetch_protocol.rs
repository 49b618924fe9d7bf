use corpora_store::cache::Cache;
use corpora_store::corpora::{
    Book, Chapter, Corpus, Passage, TorahPortion, TransData, Translation, Verse, XrefCt, XrefSrcCt,
};
use corpora_store::errors::ErrorKind;
use corpora_store::fetch::{
    fetch_chapter, fetch_chapter_resolved, fetch_portion, fetch_portion_resolved, fetch_verse,
    fetch_verse_resolved, Store,
};
use corpora_store::resolver::{TranslationPriority, TranslationResolver};

fn zero_xref() -> XrefCt {
    let z = XrefSrcCt { xpl_ref: 0, sim_top: 0 };
    XrefCt { passages: z, notes: z, videos: z }
}

fn verse(book: Book, chapter_no: &str, verse_no: i16) -> Verse {
    Verse {
        name: format!("{} {}:{}", book.name, chapter_no, verse_no),
        book,
        chapter_no: chapter_no.to_string(),
        verse_no,
        text: "And God said".to_string(),
        html: "<p>And God said</p>".to_string(),
        xref_ct: zero_xref(),
    }
}

fn chapter(book: Book, chapter_no: &str, verse_nos: &[i16]) -> Chapter {
    let verses = verse_nos.iter().map(|&n| verse(book.clone(), chapter_no, n)).collect();
    Chapter {
        name: format!("{} {}", book.name, chapter_no),
        book,
        chapter_no: chapter_no.to_string(),
        xref_ct: zero_xref(),
        verses,
    }
}

fn genesis(book_id: i16) -> Book {
    Book { corpus: Corpus::Bible, book_id, name: "Genesis".to_string() }
}

fn trans_data(trans_id: i16) -> TransData {
    let selected = Translation { trans_id, translation: "KJV".to_string() };
    let other = Translation { trans_id: 99, translation: "YLT".to_string() };
    TransData {
        selected,
        footnote: "public domain".to_string(),
        url: "https://example.org/kjv".to_string(),
        available: vec![other, Translation { trans_id, translation: "KJV".to_string() }],
    }
}

fn sample_store() -> Store {
    let mut store = Store::new();
    store.verses.push(Passage { pass: verse(genesis(1), "22", 2), translations: trans_data(2) });
    store.verses.push(Passage { pass: verse(genesis(1), "22", 3), translations: trans_data(2) });
    store.chapters.push(Passage {
        pass: chapter(genesis(1), "22", &[1, 2, 3, 4]),
        translations: trans_data(2),
    });
    store.portions.push(Passage {
        pass: TorahPortion {
            portion_id: 13,
            name: "Shemot".to_string(),
            location: "Exodus 1:1 - 2:2".to_string(),
            chapters: vec![chapter(genesis(2), "1", &[1, 2, 3])],
        },
        translations: trans_data(2),
    });
    store
}

#[test]
fn fetched_verse_echoes_query_parameters() {
    let mut cache = Cache::new();
    let mut store = sample_store();
    let chapter_no = "22".to_string();
    let p = fetch_verse(&mut cache, &mut store, 1, &chapter_no, 2, 2).unwrap();
    assert_eq!(p.pass.book.book_id, 1);
    assert_eq!(p.pass.chapter_no, "22");
    assert_eq!(p.pass.verse_no, 2);
    assert_eq!(p.translations.selected.trans_id, 2);
    assert_eq!(store.query_count, 1);
}

#[test]
fn second_fetch_is_served_from_cache() {
    let mut cache = Cache::new();
    let mut store = sample_store();
    let chapter_no = "22".to_string();
    let first = fetch_verse(&mut cache, &mut store, 1, &chapter_no, 2, 2).unwrap();
    assert_eq!(store.query_count, 1);
    let second = fetch_verse(&mut cache, &mut store, 1, &chapter_no, 2, 2).unwrap();
    // the second call does not re-query the backing store
    assert_eq!(store.query_count, 1);
    // and returns the same passage, deserialized from the same snapshot
    assert_eq!(first, second);
}

#[test]
fn missing_verse_fails_with_not_found_and_caches_nothing() {
    let mut cache = Cache::new();
    let mut store = sample_store();
    let chapter_no = "22".to_string();
    let r = fetch_verse(&mut cache, &mut store, 1, &chapter_no, 7, 2);
    match r {
        Ok(_) => panic!("an absent row must not produce a verse"),
        Err(e) => assert_eq!(e.kind, ErrorKind::NotFound),
    }
    assert_eq!(store.query_count, 1);
    // absence was not cached: the next identical request queries the store again
    let r2 = fetch_verse(&mut cache, &mut store, 1, &chapter_no, 7, 2);
    assert!(r2.is_err());
    assert_eq!(store.query_count, 2);
}

#[test]
fn corrupted_cache_payload_is_reported_not_masked() {
    let mut cache = Cache::new();
    let mut store = sample_store();
    // the key fetch_verse computes for (book 1, chapter "22", verse 2, translation 2)
    cache.set("verse:1:22:2:2".to_string(), vec![0xFF, 0x00, 0x07], 86400);
    let chapter_no = "22".to_string();
    let r = fetch_verse(&mut cache, &mut store, 1, &chapter_no, 2, 2);
    match r {
        Ok(_) => panic!("a corrupt payload must not produce a verse"),
        Err(e) => assert_eq!(e.kind, ErrorKind::CacheCorruption),
    }
    // the store was never consulted: corruption is not masked by re-querying
    assert_eq!(store.query_count, 0);
}

#[test]
fn fetched_chapter_has_strictly_increasing_verse_numbers() {
    let mut cache = Cache::new();
    let mut store = sample_store();
    let chapter_no = "22".to_string();
    let p = fetch_chapter(&mut cache, &mut store, 1, &chapter_no, 2).unwrap();
    assert!(!p.pass.verses.is_empty());
    for w in p.pass.verses.windows(2) {
        assert!(w[0].verse_no < w[1].verse_no);
    }
    // the cached copy decodes to the same ordered chapter
    let again = fetch_chapter(&mut cache, &mut store, 1, &chapter_no, 2).unwrap();
    assert_eq!(store.query_count, 1);
    assert_eq!(p, again);
}

#[test]
fn fetched_portion_round_trips_through_the_cache() {
    let mut cache = Cache::new();
    let mut store = sample_store();
    let first = fetch_portion(&mut cache, &mut store, 13, 2).unwrap();
    let second = fetch_portion(&mut cache, &mut store, 13, 2).unwrap();
    assert_eq!(store.query_count, 1);
    assert_eq!(first, second);
    assert_eq!(first.pass.name, "Shemot");
}

#[test]
fn unspecified_translation_hits_the_default_translation_cache_entry() {
    let mut cache = Cache::new();
    let mut store = sample_store();
    let resolver = TranslationResolver::new(vec![
        TranslationPriority { trans_id: 99, priority: 5 },
        TranslationPriority { trans_id: 2, priority: 1 },
    ]);
    let chapter_no = "22".to_string();
    // no translation requested: resolves to id 2 (the lowest priority value)
    let a = fetch_verse_resolved(&mut cache, &mut store, &resolver, 1, &chapter_no, 2, None)
        .unwrap();
    assert_eq!(store.query_count, 1);
    // explicitly requesting the default id computes the same key: a cache hit
    let b = fetch_verse_resolved(&mut cache, &mut store, &resolver, 1, &chapter_no, 2, Some(2))
        .unwrap();
    assert_eq!(store.query_count, 1);
    assert_eq!(a, b);
}

#[test]
fn unresolvable_translation_fails_with_resolution_error() {
    let mut cache = Cache::new();
    let mut store = sample_store();
    let resolver = TranslationResolver::new(vec![]);
    let chapter_no = "22".to_string();
    let r = fetch_verse_resolved(&mut cache, &mut store, &resolver, 1, &chapter_no, 2, None);
    match r {
        Ok(_) => panic!("resolution must fail with nothing registered"),
        Err(e) => assert_eq!(e.kind, ErrorKind::ResolutionError),
    }
    assert_eq!(store.query_count, 0);
}

#[test]
fn passage_descriptors_expose_prefix_and_expiry() {
    assert_eq!(Passage::<Verse>::key_prefix(), "verse");
    assert_eq!(Passage::<Chapter>::key_prefix(), "chapter");
    assert_eq!(Passage::<TorahPortion>::key_prefix(), "torah_portion");
    assert_eq!(Passage::<Verse>::seconds_expiry(), 86400);
    assert_eq!(Passage::<Chapter>::seconds_expiry(), 86400);
    assert_eq!(Passage::<TorahPortion>::seconds_expiry(), 86400);
    assert!(Passage::<Verse>::query().contains("verse_struct"));
    assert!(Passage::<Chapter>::query().contains("chapter_struct"));
    assert!(Passage::<TorahPortion>::query().contains("torah_portion_struct"));
}

#[test]
fn resolved_chapter_and_portion_fetches_share_the_default_cache_entry() {
    let mut cache = Cache::new();
    let mut store = sample_store();
    let resolver = TranslationResolver::new(vec![TranslationPriority { trans_id: 2, priority: 1 }]);
    let chapter_no = "22".to_string();
    let a = fetch_chapter_resolved(&mut cache, &mut store, &resolver, 1, &chapter_no, None)
        .unwrap();
    let b = fetch_chapter_resolved(&mut cache, &mut store, &resolver, 1, &chapter_no, Some(2))
        .unwrap();
    assert_eq!(store.query_count, 1);
    assert_eq!(a, b);
    let c = fetch_portion_resolved(&mut cache, &mut store, &resolver, 13, None).unwrap();
    let d = fetch_portion_resolved(&mut cache, &mut store, &resolver, 13, Some(2)).unwrap();
    assert_eq!(store.query_count, 2);
    assert_eq!(c, d);
}
