//! Fetching passages through the read-through cache.
//!
//! The backing store is modeled as keyed row sets with a query counter, so
//! that what the protocol promises — a hit never re-queries the store, a
//! miss queries it exactly once, absence is never cached — is stated and
//! checked rather than assumed.

use vstd::prelude::*;
use crate::corpora::{
    Passage, Verse, Chapter, TorahPortion, PassageM, VerseM, ChapterM, TorahPortionM,
    trans_data_wf, verse_wf, chapter_wf, portion_wf,
};
use crate::errors::{CorpusError, ErrorKind};
use crate::codec::{
    enc_passage_verse, enc_passage_chapter, enc_passage_portion, dec_payload_verse,
    dec_payload_chapter, dec_payload_portion, encode_passage_verse, encode_passage_chapter,
    encode_passage_portion, decode_passage_verse, decode_passage_chapter, decode_passage_portion,
    passage_verse_ok, passage_chapter_ok, passage_portion_ok,
};
use crate::cache::{Cache, lookup, key_of, decimal, make_key, i16_to_decimal};

verus! {

/// All passage snapshots expire after one day.
pub const SECONDS_EXPIRY: u64 = 86400;

/// The first item of `s` satisfying `pred`, if any.
pub open spec fn find_first<T>(s: Seq<T>, pred: spec_fn(T) -> bool) -> Option<T>
    decreases s.len(),
{
    if s.len() == 0 {
        None
    } else if pred(s[0]) {
        Some(s[0])
    } else {
        find_first(s.drop_first(), pred)
    }
}

/// An item matched at `m`, with no earlier match, is what `find_first`
/// finds; whatever it finds satisfies the predicate.
pub proof fn lemma_find_first_found<T>(s: Seq<T>, pred: spec_fn(T) -> bool, m: int)
    requires
        0 <= m < s.len(),
        pred(s[m]),
        forall|j: int| 0 <= j < m ==> !pred(#[trigger] s[j]),
    ensures
        find_first(s, pred) == Some(s[m]),
    decreases s.len(),
{
    if m > 0 {
        let t = s.drop_first();
        assert(forall|j: int| 0 <= j < m - 1 ==> !pred(#[trigger] t[j]));
        lemma_find_first_found(t, pred, m - 1);
    }
}

/// With no match anywhere, `find_first` finds nothing.
pub proof fn lemma_find_first_absent<T>(s: Seq<T>, pred: spec_fn(T) -> bool)
    requires
        forall|j: int| 0 <= j < s.len() ==> !pred(#[trigger] s[j]),
    ensures
        find_first(s, pred) is None,
    decreases s.len(),
{
    if s.len() > 0 {
        lemma_find_first_absent(s.drop_first(), pred);
    }
}

/// Whatever `find_first` finds satisfies the predicate.
pub proof fn lemma_find_first_sound<T>(s: Seq<T>, pred: spec_fn(T) -> bool)
    ensures
        find_first(s, pred) matches Some(x) ==> pred(x),
    decreases s.len(),
{
    if s.len() > 0 && !pred(s[0]) {
        lemma_find_first_sound(s.drop_first(), pred);
    }
}

/// A verse row answers the query `(book, chapter, verse, translation)`.
pub open spec fn verse_row_matches(
    p: PassageM<VerseM>,
    book_id: i16,
    chapter_no: Seq<char>,
    verse_no: i16,
    trans_id: i16,
) -> bool {
    &&& p.pass.book.book_id == book_id
    &&& p.pass.chapter_no == chapter_no
    &&& p.pass.verse_no == verse_no
    &&& p.translations.selected.trans_id == trans_id
}

/// A chapter row answers the query `(book, chapter, translation)`.
pub open spec fn chapter_row_matches(
    p: PassageM<ChapterM>,
    book_id: i16,
    chapter_no: Seq<char>,
    trans_id: i16,
) -> bool {
    &&& p.pass.book.book_id == book_id
    &&& p.pass.chapter_no == chapter_no
    &&& p.translations.selected.trans_id == trans_id
}

/// A portion row answers the query `(portion, translation)`.
pub open spec fn portion_row_matches(p: PassageM<TorahPortionM>, portion_id: i16, trans_id: i16) -> bool {
    &&& p.pass.portion_id == portion_id
    &&& p.translations.selected.trans_id == trans_id
}

/// The verse row answering the query, if any.
pub open spec fn find_verse(
    s: Seq<PassageM<VerseM>>,
    book_id: i16,
    chapter_no: Seq<char>,
    verse_no: i16,
    trans_id: i16,
) -> Option<PassageM<VerseM>> {
    find_first(s, |p: PassageM<VerseM>| verse_row_matches(p, book_id, chapter_no, verse_no, trans_id))
}

/// The chapter row answering the query, if any.
pub open spec fn find_chapter(
    s: Seq<PassageM<ChapterM>>,
    book_id: i16,
    chapter_no: Seq<char>,
    trans_id: i16,
) -> Option<PassageM<ChapterM>> {
    find_first(s, |p: PassageM<ChapterM>| chapter_row_matches(p, book_id, chapter_no, trans_id))
}

/// The portion row answering the query, if any.
pub open spec fn find_portion(
    s: Seq<PassageM<TorahPortionM>>,
    portion_id: i16,
    trans_id: i16,
) -> Option<PassageM<TorahPortionM>> {
    find_first(s, |p: PassageM<TorahPortionM>| portion_row_matches(p, portion_id, trans_id))
}

/// A fetched verse echoes the query parameters in its identifying fields.
pub proof fn lemma_fetched_verse_echoes_query(
    s: Seq<PassageM<VerseM>>,
    book_id: i16,
    chapter_no: Seq<char>,
    verse_no: i16,
    trans_id: i16,
)
    ensures
        find_verse(s, book_id, chapter_no, verse_no, trans_id) matches Some(row) ==> {
            &&& row.pass.book.book_id == book_id
            &&& row.pass.chapter_no == chapter_no
            &&& row.pass.verse_no == verse_no
            &&& row.translations.selected.trans_id == trans_id
        },
{
    lemma_find_first_sound(
        s,
        |p: PassageM<VerseM>| verse_row_matches(p, book_id, chapter_no, verse_no, trans_id),
    );
}

/// Mathematical model of the backing store.
pub ghost struct StoreM {
    pub verses: Seq<PassageM<VerseM>>,
    pub chapters: Seq<PassageM<ChapterM>>,
    pub portions: Seq<PassageM<TorahPortionM>>,
    pub query_count: u64,
}

/// The backing store, modeled as keyed row sets. `query_count` counts the
/// queries the store has answered, so that contracts can say when the store
/// is and is not consulted.
pub struct Store {
    pub verses: Vec<Passage<Verse>>,
    pub chapters: Vec<Passage<Chapter>>,
    pub portions: Vec<Passage<TorahPortion>>,
    pub query_count: u64,
}

impl View for Store {
    type V = StoreM;

    open spec fn view(&self) -> StoreM {
        StoreM {
            verses: self.verses@.map_values(|p: Passage<Verse>| p@),
            chapters: self.chapters@.map_values(|p: Passage<Chapter>| p@),
            portions: self.portions@.map_values(|p: Passage<TorahPortion>| p@),
            query_count: self.query_count,
        }
    }
}

/// Every verse row is well formed and serializable, and the key tuple
/// `(book, chapter, verse, translation)` is unique across the store.
pub open spec fn verse_rows_wf(s: Seq<PassageM<VerseM>>) -> bool {
    &&& forall|i: int| 0 <= i < s.len() ==> {
        &&& passage_verse_ok(#[trigger] s[i])
        &&& verse_wf(s[i].pass)
        &&& trans_data_wf(s[i].translations)
    }
    &&& forall|i: int, j: int|
        0 <= i < j < s.len() ==> !verse_row_matches(
            #[trigger] s[j],
            (#[trigger] s[i]).pass.book.book_id,
            s[i].pass.chapter_no,
            s[i].pass.verse_no,
            s[i].translations.selected.trans_id,
        )
}

/// Every chapter row is well formed, non-empty and serializable, and the
/// key tuple `(book, chapter, translation)` is unique across the store.
pub open spec fn chapter_rows_wf(s: Seq<PassageM<ChapterM>>) -> bool {
    &&& forall|i: int| 0 <= i < s.len() ==> {
        &&& passage_chapter_ok(#[trigger] s[i])
        &&& chapter_wf(s[i].pass)
        &&& s[i].pass.verses.len() > 0
        &&& trans_data_wf(s[i].translations)
    }
    &&& forall|i: int, j: int|
        0 <= i < j < s.len() ==> !chapter_row_matches(
            #[trigger] s[j],
            (#[trigger] s[i]).pass.book.book_id,
            s[i].pass.chapter_no,
            s[i].translations.selected.trans_id,
        )
}

/// Every portion row is well formed and serializable, and the key tuple
/// `(portion, translation)` is unique across the store.
pub open spec fn portion_rows_wf(s: Seq<PassageM<TorahPortionM>>) -> bool {
    &&& forall|i: int| 0 <= i < s.len() ==> {
        &&& passage_portion_ok(#[trigger] s[i])
        &&& portion_wf(s[i].pass)
        &&& trans_data_wf(s[i].translations)
    }
    &&& forall|i: int, j: int|
        0 <= i < j < s.len() ==> !portion_row_matches(
            #[trigger] s[j],
            (#[trigger] s[i]).pass.portion_id,
            s[i].translations.selected.trans_id,
        )
}

impl Store {
    /// All rows are well formed and row keys are unique.
    pub open spec fn wf(&self) -> bool {
        &&& verse_rows_wf(self@.verses)
        &&& chapter_rows_wf(self@.chapters)
        &&& portion_rows_wf(self@.portions)
    }

    /// An empty store.
    pub fn new() -> (r: Store)
        ensures
            r@.verses.len() == 0,
            r@.chapters.len() == 0,
            r@.portions.len() == 0,
            r@.query_count == 0,
            r.wf(),
    {
        let r = Store { verses: Vec::new(), chapters: Vec::new(), portions: Vec::new(), query_count: 0 };
        proof {
            assert(r@.verses =~= Seq::<PassageM<VerseM>>::empty());
            assert(r@.chapters =~= Seq::<PassageM<ChapterM>>::empty());
            assert(r@.portions =~= Seq::<PassageM<TorahPortionM>>::empty());
        }
        r
    }
}

/// The cache key of a verse query.
pub open spec fn verse_key(book_id: i16, chapter_no: Seq<char>, verse_no: i16, trans_id: i16) -> Seq<char> {
    key_of(
        "verse"@,
        seq![
            decimal(book_id as int),
            chapter_no,
            decimal(verse_no as int),
            decimal(trans_id as int),
        ],
    )
}

/// The cache key of a chapter query.
pub open spec fn chapter_key(book_id: i16, chapter_no: Seq<char>, trans_id: i16) -> Seq<char> {
    key_of("chapter"@, seq![decimal(book_id as int), chapter_no, decimal(trans_id as int)])
}

/// The cache key of a torah-portion query.
pub open spec fn portion_key(portion_id: i16, trans_id: i16) -> Seq<char> {
    key_of("torah_portion"@, seq![decimal(portion_id as int), decimal(trans_id as int)])
}

impl Passage<Verse> {
    /// The parameterized store query of a verse passage. Column order is a
    /// contract between this template and the row mapping.
    pub fn query() -> &'static str {
        "SELECT vs.verse, t.trans_id, t.translation, t.footnote, t.url, tjz.available_trans
        FROM verse_struct vs
        INNER JOIN translations t ON vs.trans_id = t.trans_id
        INNER JOIN translations_jz tjz ON vs.book_id = tjz.book_id
        WHERE vs.book = $1 AND vs.chapter_no = $2 AND vs.verse_no = $3 AND vs.trans_id = $4"
    }

    /// The fixed per-type cache-key prefix, disambiguating types that share
    /// a cache namespace.
    pub fn key_prefix() -> (r: &'static str)
        ensures
            r@ == "verse"@,
    {
        "verse"
    }

    /// The fixed per-type expiry of a cached snapshot.
    pub fn seconds_expiry() -> (r: u64)
        ensures
            r == SECONDS_EXPIRY,
    {
        86400
    }
}

impl Passage<Chapter> {
    /// The parameterized store query of a chapter passage.
    pub fn query() -> &'static str {
        "SELECT ch.chapter, t.trans_id, t.translation, t.footnote, t.url, tjz.available_trans
        FROM chapter_struct ch
        INNER JOIN translations t ON ch.trans_id = t.trans_id
        INNER JOIN translations_jz tjz ON ch.book_id = tjz.book_id
        WHERE ch.book = $1 AND ch.chapter_no = $2 AND ch.trans_id = $3"
    }

    /// The fixed per-type cache-key prefix.
    pub fn key_prefix() -> (r: &'static str)
        ensures
            r@ == "chapter"@,
    {
        "chapter"
    }

    /// The fixed per-type expiry of a cached snapshot.
    pub fn seconds_expiry() -> (r: u64)
        ensures
            r == SECONDS_EXPIRY,
    {
        86400
    }
}

impl Passage<TorahPortion> {
    /// The parameterized store query of a torah-portion passage.
    pub fn query() -> &'static str {
        "SELECT torah_portion, t.trans_id, t.translation, t.footnote, t.url, tjz.available_trans
        FROM torah_portion_struct tps
        INNER JOIN translations t ON tps.trans_id = t.trans_id
        INNER JOIN translations_jz tjz ON tps.book_id = tjz.book_id
        WHERE tps.portion_id = $1 AND tps.trans_id = $2"
    }

    /// The fixed per-type cache-key prefix.
    pub fn key_prefix() -> (r: &'static str)
        ensures
            r@ == "torah_portion"@,
    {
        "torah_portion"
    }

    /// The fixed per-type expiry of a cached snapshot.
    pub fn seconds_expiry() -> (r: u64)
        ensures
            r == SECONDS_EXPIRY,
    {
        86400
    }
}

/// Finds the index of the verse row answering the query, scanning in store
/// order.
#[verifier::loop_isolation(false)]
fn find_verse_index(
    rows: &Vec<Passage<Verse>>,
    book_id: i16,
    chapter_no: &String,
    verse_no: i16,
    trans_id: i16,
) -> (r: Option<usize>)
    ensures
        r matches Some(ix) ==> (ix < rows@.len() && find_verse(
            rows@.map_values(|p: Passage<Verse>| p@),
            book_id,
            chapter_no@,
            verse_no,
            trans_id,
        ) == Some(rows@[ix as int]@)),
        r is None ==> find_verse(
            rows@.map_values(|p: Passage<Verse>| p@),
            book_id,
            chapter_no@,
            verse_no,
            trans_id,
        ) is None,
{
    let ghost rm = rows@.map_values(|p: Passage<Verse>| p@);
    let ghost pred = |p: PassageM<VerseM>| verse_row_matches(
        p,
        book_id,
        chapter_no@,
        verse_no,
        trans_id,
    );
    let n = rows.len();
    let mut i: usize = 0;
    while i < n
        invariant
            i <= n,
            n == rows@.len(),
            forall|j: int| 0 <= j < i ==> !pred(#[trigger] rm[j]),
        decreases n - i,
    {
        let row = &rows[i];
        if row.pass.book.book_id == book_id && row.pass.chapter_no == *chapter_no
            && row.pass.verse_no == verse_no && row.translations.selected.trans_id == trans_id {
            proof {
                lemma_find_first_found(rm, pred, i as int);
            }
            return Some(i);
        }
        i = i + 1;
    }
    proof {
        lemma_find_first_absent(rm, pred);
    }
    None
}

/// Fetches the verse identified by `(book, chapter, verse, translation)`
/// through the cache.
///
/// On a hit the snapshot is deserialized and returned without consulting
/// the store; a payload that does not deserialize is reported as
/// `CacheCorruption`, never masked by re-querying. On a miss the store is
/// queried exactly once: a missing row fails with `NotFound` and caches
/// nothing, and a found row is returned after its snapshot is cached under
/// the query's key with the fixed expiry.
pub fn fetch_verse(
    cache: &mut Cache,
    store: &mut Store,
    book_id: i16,
    chapter_no: &String,
    verse_no: i16,
    trans_id: i16,
) -> (r: Result<Passage<Verse>, CorpusError>)
    requires
        old(cache).wf(),
        old(store).wf(),
        old(store).query_count < u64::MAX,
    ensures
        final(cache).wf(),
        final(store).wf(),
        final(store)@.verses == old(store)@.verses,
        final(store)@.chapters == old(store)@.chapters,
        final(store)@.portions == old(store)@.portions,
        lookup(old(cache)@, verse_key(book_id, chapter_no@, verse_no, trans_id)) matches Some(
            payload,
        ) ==> {
            &&& final(store)@.query_count == old(store)@.query_count
            &&& final(cache)@ == old(cache)@
            &&& match dec_payload_verse(payload) {
                Some(p) => r matches Ok(rp) && rp@ == p,
                None => r matches Err(e) && e.kind == ErrorKind::CacheCorruption,
            }
        },
        lookup(old(cache)@, verse_key(book_id, chapter_no@, verse_no, trans_id)) is None ==> {
            &&& final(store)@.query_count == old(store)@.query_count + 1
            &&& match find_verse(old(store)@.verses, book_id, chapter_no@, verse_no, trans_id) {
                Some(row) => {
                    &&& r matches Ok(rp) && rp@ == row
                    &&& lookup(
                        final(cache)@,
                        verse_key(book_id, chapter_no@, verse_no, trans_id),
                    ) == Some(enc_passage_verse(row))
                    &&& forall|k2: Seq<char>|
                        k2 != verse_key(book_id, chapter_no@, verse_no, trans_id)
                            ==> #[trigger] lookup(final(cache)@, k2) == lookup(old(cache)@, k2)
                },
                None => {
                    &&& r matches Err(e) && e.kind == ErrorKind::NotFound
                    &&& final(cache)@ == old(cache)@
                },
            }
        },
{
    let parts = vec![
        i16_to_decimal(book_id),
        chapter_no.clone(),
        i16_to_decimal(verse_no),
        i16_to_decimal(trans_id),
    ];
    let key = make_key("verse", &parts);
    proof {
        assert(parts@.map_values(|p: String| p@) =~= seq![
            decimal(book_id as int),
            chapter_no@,
            decimal(verse_no as int),
            decimal(trans_id as int),
        ]);
        assert(key@ == verse_key(book_id, chapter_no@, verse_no, trans_id));
    }
    let hit = cache.get(&key);
    match hit {
        Some(payload) => {
            match decode_passage_verse(payload) {
                Some(p) => Ok(p),
                None => Err(
                    CorpusError::new(
                        ErrorKind::CacheCorruption,
                        "cached verse payload failed to deserialize under key ",
                        key.as_str(),
                    ),
                ),
            }
        },
        None => {
            store.query_count = store.query_count + 1;
            match find_verse_index(&store.verses, book_id, chapter_no, verse_no, trans_id) {
                Some(ix) => {
                    let row = store.verses[ix].clone();
                    proof {
                        assert(row@ == store@.verses[ix as int]);
                        assert(passage_verse_ok(store@.verses[ix as int]));
                    }
                    let bytes = encode_passage_verse(&row);
                    cache.set(key, bytes, SECONDS_EXPIRY);
                    Ok(row)
                },
                None => Err(
                    CorpusError::new(
                        ErrorKind::NotFound,
                        "no verse row answers the query under key ",
                        key.as_str(),
                    ),
                ),
            }
        },
    }
}

/// Finds the index of the chapter row answering the query.
#[verifier::loop_isolation(false)]
fn find_chapter_index(
    rows: &Vec<Passage<Chapter>>,
    book_id: i16,
    chapter_no: &String,
    trans_id: i16,
) -> (r: Option<usize>)
    ensures
        r matches Some(ix) ==> (ix < rows@.len() && find_chapter(
            rows@.map_values(|p: Passage<Chapter>| p@),
            book_id,
            chapter_no@,
            trans_id,
        ) == Some(rows@[ix as int]@)),
        r is None ==> find_chapter(
            rows@.map_values(|p: Passage<Chapter>| p@),
            book_id,
            chapter_no@,
            trans_id,
        ) is None,
{
    let ghost rm = rows@.map_values(|p: Passage<Chapter>| p@);
    let ghost pred = |p: PassageM<ChapterM>| chapter_row_matches(p, book_id, chapter_no@, trans_id);
    let n = rows.len();
    let mut i: usize = 0;
    while i < n
        invariant
            i <= n,
            n == rows@.len(),
            forall|j: int| 0 <= j < i ==> !pred(#[trigger] rm[j]),
        decreases n - i,
    {
        let row = &rows[i];
        if row.pass.book.book_id == book_id && row.pass.chapter_no == *chapter_no
            && row.translations.selected.trans_id == trans_id {
            proof {
                lemma_find_first_found(rm, pred, i as int);
            }
            return Some(i);
        }
        i = i + 1;
    }
    proof {
        lemma_find_first_absent(rm, pred);
    }
    None
}

/// Fetches the chapter identified by `(book, chapter, translation)` through
/// the cache, with the same protocol as `fetch_verse`.
pub fn fetch_chapter(
    cache: &mut Cache,
    store: &mut Store,
    book_id: i16,
    chapter_no: &String,
    trans_id: i16,
) -> (r: Result<Passage<Chapter>, CorpusError>)
    requires
        old(cache).wf(),
        old(store).wf(),
        old(store).query_count < u64::MAX,
    ensures
        final(cache).wf(),
        final(store).wf(),
        final(store)@.verses == old(store)@.verses,
        final(store)@.chapters == old(store)@.chapters,
        final(store)@.portions == old(store)@.portions,
        lookup(old(cache)@, chapter_key(book_id, chapter_no@, trans_id)) matches Some(payload)
            ==> {
            &&& final(store)@.query_count == old(store)@.query_count
            &&& final(cache)@ == old(cache)@
            &&& match dec_payload_chapter(payload) {
                Some(p) => r matches Ok(rp) && rp@ == p,
                None => r matches Err(e) && e.kind == ErrorKind::CacheCorruption,
            }
        },
        lookup(old(cache)@, chapter_key(book_id, chapter_no@, trans_id)) is None ==> {
            &&& final(store)@.query_count == old(store)@.query_count + 1
            &&& match find_chapter(old(store)@.chapters, book_id, chapter_no@, trans_id) {
                Some(row) => {
                    &&& r matches Ok(rp) && rp@ == row
                    &&& lookup(final(cache)@, chapter_key(book_id, chapter_no@, trans_id)) == Some(
                        enc_passage_chapter(row),
                    )
                    &&& forall|k2: Seq<char>|
                        k2 != chapter_key(book_id, chapter_no@, trans_id) ==> #[trigger] lookup(
                            final(cache)@,
                            k2,
                        ) == lookup(old(cache)@, k2)
                },
                None => {
                    &&& r matches Err(e) && e.kind == ErrorKind::NotFound
                    &&& final(cache)@ == old(cache)@
                },
            }
        },
{
    let parts = vec![i16_to_decimal(book_id), chapter_no.clone(), i16_to_decimal(trans_id)];
    let key = make_key("chapter", &parts);
    proof {
        assert(parts@.map_values(|p: String| p@) =~= seq![
            decimal(book_id as int),
            chapter_no@,
            decimal(trans_id as int),
        ]);
        assert(key@ == chapter_key(book_id, chapter_no@, trans_id));
    }
    let hit = cache.get(&key);
    match hit {
        Some(payload) => {
            match decode_passage_chapter(payload) {
                Some(p) => Ok(p),
                None => Err(
                    CorpusError::new(
                        ErrorKind::CacheCorruption,
                        "cached chapter payload failed to deserialize under key ",
                        key.as_str(),
                    ),
                ),
            }
        },
        None => {
            store.query_count = store.query_count + 1;
            match find_chapter_index(&store.chapters, book_id, chapter_no, trans_id) {
                Some(ix) => {
                    let row = store.chapters[ix].clone();
                    proof {
                        assert(row@ == store@.chapters[ix as int]);
                        assert(passage_chapter_ok(store@.chapters[ix as int]));
                    }
                    let bytes = encode_passage_chapter(&row);
                    cache.set(key, bytes, SECONDS_EXPIRY);
                    Ok(row)
                },
                None => Err(
                    CorpusError::new(
                        ErrorKind::NotFound,
                        "no chapter row answers the query under key ",
                        key.as_str(),
                    ),
                ),
            }
        },
    }
}

/// Finds the index of the portion row answering the query.
#[verifier::loop_isolation(false)]
fn find_portion_index(rows: &Vec<Passage<TorahPortion>>, portion_id: i16, trans_id: i16) -> (r:
    Option<usize>)
    ensures
        r matches Some(ix) ==> (ix < rows@.len() && find_portion(
            rows@.map_values(|p: Passage<TorahPortion>| p@),
            portion_id,
            trans_id,
        ) == Some(rows@[ix as int]@)),
        r is None ==> find_portion(
            rows@.map_values(|p: Passage<TorahPortion>| p@),
            portion_id,
            trans_id,
        ) is None,
{
    let ghost rm = rows@.map_values(|p: Passage<TorahPortion>| p@);
    let ghost pred = |p: PassageM<TorahPortionM>| portion_row_matches(p, portion_id, trans_id);
    let n = rows.len();
    let mut i: usize = 0;
    while i < n
        invariant
            i <= n,
            n == rows@.len(),
            forall|j: int| 0 <= j < i ==> !pred(#[trigger] rm[j]),
        decreases n - i,
    {
        let row = &rows[i];
        if row.pass.portion_id == portion_id && row.translations.selected.trans_id == trans_id {
            proof {
                lemma_find_first_found(rm, pred, i as int);
            }
            return Some(i);
        }
        i = i + 1;
    }
    proof {
        lemma_find_first_absent(rm, pred);
    }
    None
}

/// Fetches the torah portion identified by `(portion, translation)` through
/// the cache, with the same protocol as `fetch_verse`.
pub fn fetch_portion(cache: &mut Cache, store: &mut Store, portion_id: i16, trans_id: i16) -> (r:
    Result<Passage<TorahPortion>, CorpusError>)
    requires
        old(cache).wf(),
        old(store).wf(),
        old(store).query_count < u64::MAX,
    ensures
        final(cache).wf(),
        final(store).wf(),
        final(store)@.verses == old(store)@.verses,
        final(store)@.chapters == old(store)@.chapters,
        final(store)@.portions == old(store)@.portions,
        lookup(old(cache)@, portion_key(portion_id, trans_id)) matches Some(payload) ==> {
            &&& final(store)@.query_count == old(store)@.query_count
            &&& final(cache)@ == old(cache)@
            &&& match dec_payload_portion(payload) {
                Some(p) => r matches Ok(rp) && rp@ == p,
                None => r matches Err(e) && e.kind == ErrorKind::CacheCorruption,
            }
        },
        lookup(old(cache)@, portion_key(portion_id, trans_id)) is None ==> {
            &&& final(store)@.query_count == old(store)@.query_count + 1
            &&& match find_portion(old(store)@.portions, portion_id, trans_id) {
                Some(row) => {
                    &&& r matches Ok(rp) && rp@ == row
                    &&& lookup(final(cache)@, portion_key(portion_id, trans_id)) == Some(
                        enc_passage_portion(row),
                    )
                    &&& forall|k2: Seq<char>|
                        k2 != portion_key(portion_id, trans_id) ==> #[trigger] lookup(
                            final(cache)@,
                            k2,
                        ) == lookup(old(cache)@, k2)
                },
                None => {
                    &&& r matches Err(e) && e.kind == ErrorKind::NotFound
                    &&& final(cache)@ == old(cache)@
                },
            }
        },
{
    let parts = vec![i16_to_decimal(portion_id), i16_to_decimal(trans_id)];
    let key = make_key("torah_portion", &parts);
    proof {
        assert(parts@.map_values(|p: String| p@) =~= seq![
            decimal(portion_id as int),
            decimal(trans_id as int),
        ]);
        assert(key@ == portion_key(portion_id, trans_id));
    }
    let hit = cache.get(&key);
    match hit {
        Some(payload) => {
            match decode_passage_portion(payload) {
                Some(p) => Ok(p),
                None => Err(
                    CorpusError::new(
                        ErrorKind::CacheCorruption,
                        "cached portion payload failed to deserialize under key ",
                        key.as_str(),
                    ),
                ),
            }
        },
        None => {
            store.query_count = store.query_count + 1;
            match find_portion_index(&store.portions, portion_id, trans_id) {
                Some(ix) => {
                    let row = store.portions[ix].clone();
                    proof {
                        assert(row@ == store@.portions[ix as int]);
                        assert(passage_portion_ok(store@.portions[ix as int]));
                    }
                    let bytes = encode_passage_portion(&row);
                    cache.set(key, bytes, SECONDS_EXPIRY);
                    Ok(row)
                },
                None => Err(
                    CorpusError::new(
                        ErrorKind::NotFound,
                        "no torah portion row answers the query under key ",
                        key.as_str(),
                    ),
                ),
            }
        },
    }
}

/// Cache idempotence for verses: once a fetch has cached the snapshot of a
/// row under the query's key, a later fetch with identical parameters hits
/// that byte-identical snapshot and deserializes it to the same row — by
/// `fetch_verse`'s contract, without consulting the store again.
pub proof fn lemma_cache_idempotence_verse(
    c: Seq<crate::cache::CacheEntryM>,
    row: PassageM<VerseM>,
    book_id: i16,
    chapter_no: Seq<char>,
    verse_no: i16,
    trans_id: i16,
)
    requires
        passage_verse_ok(row),
        lookup(c, verse_key(book_id, chapter_no, verse_no, trans_id)) == Some(
            enc_passage_verse(row),
        ),
    ensures
        lookup(c, verse_key(book_id, chapter_no, verse_no, trans_id)) matches Some(payload)
            && dec_payload_verse(payload) == Some(row),
{
    crate::codec::lemma_roundtrip_verse(row);
}

/// Cache idempotence for chapters.
pub proof fn lemma_cache_idempotence_chapter(
    c: Seq<crate::cache::CacheEntryM>,
    row: PassageM<ChapterM>,
    book_id: i16,
    chapter_no: Seq<char>,
    trans_id: i16,
)
    requires
        passage_chapter_ok(row),
        lookup(c, chapter_key(book_id, chapter_no, trans_id)) == Some(enc_passage_chapter(row)),
    ensures
        lookup(c, chapter_key(book_id, chapter_no, trans_id)) matches Some(payload)
            && dec_payload_chapter(payload) == Some(row),
{
    crate::codec::lemma_roundtrip_chapter(row);
}

/// Cache idempotence for torah portions.
pub proof fn lemma_cache_idempotence_portion(
    c: Seq<crate::cache::CacheEntryM>,
    row: PassageM<TorahPortionM>,
    portion_id: i16,
    trans_id: i16,
)
    requires
        passage_portion_ok(row),
        lookup(c, portion_key(portion_id, trans_id)) == Some(enc_passage_portion(row)),
    ensures
        lookup(c, portion_key(portion_id, trans_id)) matches Some(payload) && dec_payload_portion(
            payload,
        ) == Some(row),
{
    crate::codec::lemma_roundtrip_portion(row);
}

/// Fetches a verse, resolving the translation first: resolution runs before
/// the cache key is computed, so a request with no translation and a
/// request naming the default id compute the same key and hit the same
/// cache entry.
pub fn fetch_verse_resolved(
    cache: &mut Cache,
    store: &mut Store,
    resolver: &crate::resolver::TranslationResolver,
    book_id: i16,
    chapter_no: &String,
    verse_no: i16,
    requested: Option<i16>,
) -> (r: Result<Passage<Verse>, CorpusError>)
    requires
        old(cache).wf(),
        old(store).wf(),
        old(store).query_count < u64::MAX,
    ensures
        final(cache).wf(),
        final(store).wf(),
        final(store)@.verses == old(store)@.verses,
        final(store)@.chapters == old(store)@.chapters,
        final(store)@.portions == old(store)@.portions,
        !crate::resolver::resolvable(resolver.priorities@, requested) ==> {
            &&& r matches Err(e) && e.kind == ErrorKind::ResolutionError
            &&& final(cache)@ == old(cache)@
            &&& final(store)@.query_count == old(store)@.query_count
        },
        crate::resolver::resolvable(resolver.priorities@, requested) ==> {
            let tid = crate::resolver::resolution_of(resolver.priorities@, requested);
            &&& (lookup(old(cache)@, verse_key(book_id, chapter_no@, verse_no, tid)) matches Some(
                payload,
            ) ==> {
                &&& final(store)@.query_count == old(store)@.query_count
                &&& final(cache)@ == old(cache)@
                &&& match dec_payload_verse(payload) {
                    Some(p) => r matches Ok(rp) && rp@ == p,
                    None => r matches Err(e) && e.kind == ErrorKind::CacheCorruption,
                }
            })
            &&& (lookup(old(cache)@, verse_key(book_id, chapter_no@, verse_no, tid)) is None
                ==> {
                &&& final(store)@.query_count == old(store)@.query_count + 1
                &&& match find_verse(old(store)@.verses, book_id, chapter_no@, verse_no, tid) {
                    Some(row) => {
                        &&& r matches Ok(rp) && rp@ == row
                        &&& lookup(
                            final(cache)@,
                            verse_key(book_id, chapter_no@, verse_no, tid),
                        ) == Some(enc_passage_verse(row))
                    },
                    None => {
                        &&& r matches Err(e) && e.kind == ErrorKind::NotFound
                        &&& final(cache)@ == old(cache)@
                    },
                }
            })
        },
{
    let tid = match resolver.resolve(requested) {
        Ok(tid) => tid,
        Err(e) => {
            return Err(e);
        },
    };
    fetch_verse(cache, store, book_id, chapter_no, verse_no, tid)
}

/// A successfully fetched chapter is well formed: its verses are in
/// strictly increasing verse-number order, and there is at least one.
pub proof fn lemma_fetched_chapter_is_sorted(
    s: Seq<PassageM<ChapterM>>,
    book_id: i16,
    chapter_no: Seq<char>,
    trans_id: i16,
)
    requires
        chapter_rows_wf(s),
    ensures
        find_chapter(s, book_id, chapter_no, trans_id) matches Some(row) ==> {
            &&& crate::corpora::verses_sorted(row.pass.verses)
            &&& row.pass.verses.len() > 0
        },
    decreases s.len(),
{
    let pred = |p: PassageM<ChapterM>| chapter_row_matches(p, book_id, chapter_no, trans_id);
    if s.len() > 0 {
        assert(chapter_wf(s[0].pass));
        if !pred(s[0]) {
            let t = s.drop_first();
            assert(forall|j: int| 0 <= j < t.len() ==> t[j] == #[trigger] s[j + 1]);
            lemma_fetched_chapter_is_sorted(t, book_id, chapter_no, trans_id);
        }
    }
}

/// Fetches a chapter, resolving the translation before the cache key is
/// computed, as `fetch_verse_resolved` does for verses.
pub fn fetch_chapter_resolved(
    cache: &mut Cache,
    store: &mut Store,
    resolver: &crate::resolver::TranslationResolver,
    book_id: i16,
    chapter_no: &String,
    requested: Option<i16>,
) -> (r: Result<Passage<Chapter>, CorpusError>)
    requires
        old(cache).wf(),
        old(store).wf(),
        old(store).query_count < u64::MAX,
    ensures
        final(cache).wf(),
        final(store).wf(),
        final(store)@.verses == old(store)@.verses,
        final(store)@.chapters == old(store)@.chapters,
        final(store)@.portions == old(store)@.portions,
        !crate::resolver::resolvable(resolver.priorities@, requested) ==> {
            &&& r matches Err(e) && e.kind == ErrorKind::ResolutionError
            &&& final(cache)@ == old(cache)@
            &&& final(store)@.query_count == old(store)@.query_count
        },
        crate::resolver::resolvable(resolver.priorities@, requested) ==> {
            let tid = crate::resolver::resolution_of(resolver.priorities@, requested);
            &&& (lookup(old(cache)@, chapter_key(book_id, chapter_no@, tid)) matches Some(payload)
                ==> {
                &&& final(store)@.query_count == old(store)@.query_count
                &&& final(cache)@ == old(cache)@
                &&& match dec_payload_chapter(payload) {
                    Some(p) => r matches Ok(rp) && rp@ == p,
                    None => r matches Err(e) && e.kind == ErrorKind::CacheCorruption,
                }
            })
            &&& (lookup(old(cache)@, chapter_key(book_id, chapter_no@, tid)) is None ==> {
                &&& final(store)@.query_count == old(store)@.query_count + 1
                &&& match find_chapter(old(store)@.chapters, book_id, chapter_no@, tid) {
                    Some(row) => {
                        &&& r matches Ok(rp) && rp@ == row
                        &&& lookup(final(cache)@, chapter_key(book_id, chapter_no@, tid)) == Some(
                            enc_passage_chapter(row),
                        )
                    },
                    None => {
                        &&& r matches Err(e) && e.kind == ErrorKind::NotFound
                        &&& final(cache)@ == old(cache)@
                    },
                }
            })
        },
{
    let tid = match resolver.resolve(requested) {
        Ok(tid) => tid,
        Err(e) => {
            return Err(e);
        },
    };
    fetch_chapter(cache, store, book_id, chapter_no, tid)
}

/// Fetches a torah portion, resolving the translation before the cache key
/// is computed, as `fetch_verse_resolved` does for verses.
pub fn fetch_portion_resolved(
    cache: &mut Cache,
    store: &mut Store,
    resolver: &crate::resolver::TranslationResolver,
    portion_id: i16,
    requested: Option<i16>,
) -> (r: Result<Passage<TorahPortion>, CorpusError>)
    requires
        old(cache).wf(),
        old(store).wf(),
        old(store).query_count < u64::MAX,
    ensures
        final(cache).wf(),
        final(store).wf(),
        final(store)@.verses == old(store)@.verses,
        final(store)@.chapters == old(store)@.chapters,
        final(store)@.portions == old(store)@.portions,
        !crate::resolver::resolvable(resolver.priorities@, requested) ==> {
            &&& r matches Err(e) && e.kind == ErrorKind::ResolutionError
            &&& final(cache)@ == old(cache)@
            &&& final(store)@.query_count == old(store)@.query_count
        },
        crate::resolver::resolvable(resolver.priorities@, requested) ==> {
            let tid = crate::resolver::resolution_of(resolver.priorities@, requested);
            &&& (lookup(old(cache)@, portion_key(portion_id, tid)) matches Some(payload) ==> {
                &&& final(store)@.query_count == old(store)@.query_count
                &&& final(cache)@ == old(cache)@
                &&& match dec_payload_portion(payload) {
                    Some(p) => r matches Ok(rp) && rp@ == p,
                    None => r matches Err(e) && e.kind == ErrorKind::CacheCorruption,
                }
            })
            &&& (lookup(old(cache)@, portion_key(portion_id, tid)) is None ==> {
                &&& final(store)@.query_count == old(store)@.query_count + 1
                &&& match find_portion(old(store)@.portions, portion_id, tid) {
                    Some(row) => {
                        &&& r matches Ok(rp) && rp@ == row
                        &&& lookup(final(cache)@, portion_key(portion_id, tid)) == Some(
                            enc_passage_portion(row),
                        )
                    },
                    None => {
                        &&& r matches Err(e) && e.kind == ErrorKind::NotFound
                        &&& final(cache)@ == old(cache)@
                    },
                }
            })
        },
{
    let tid = match resolver.resolve(requested) {
        Ok(tid) => tid,
        Err(e) => {
            return Err(e);
        },
    };
    fetch_portion(cache, store, portion_id, tid)
}

} // verus!
