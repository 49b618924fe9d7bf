use corpora_store::codec::{
    decode_passage_chapter, decode_passage_portion, decode_passage_verse, encode_passage_chapter,
    encode_passage_portion, encode_passage_verse,
};
use corpora_store::corpora::{
    Book, Chapter, Corpus, Passage, TorahPortion, TransData, Translation, Verse, XrefCt, XrefSrcCt,
};

fn xref(xpl: i32, sim: i32) -> XrefCt {
    XrefCt {
        passages: XrefSrcCt { xpl_ref: xpl, sim_top: sim },
        notes: XrefSrcCt { xpl_ref: 1, sim_top: 0 },
        videos: XrefSrcCt { xpl_ref: 0, sim_top: 2 },
    }
}

fn sample_verse() -> Verse {
    Verse {
        name: "Genesis 22:2".to_string(),
        book: Book { corpus: Corpus::Bible, book_id: 1, name: "Genesis".to_string() },
        chapter_no: "22".to_string(),
        verse_no: 2,
        text: "And he said, Take now thy son".to_string(),
        html: "<p>And he said, Take now thy son</p>".to_string(),
        xref_ct: xref(3, 5),
    }
}

fn sample_trans_data() -> TransData {
    TransData {
        selected: Translation { trans_id: 2, translation: "KJV".to_string() },
        footnote: "public domain".to_string(),
        url: "https://example.org/kjv".to_string(),
        available: vec![
            Translation { trans_id: 2, translation: "KJV".to_string() },
            Translation { trans_id: 7, translation: "Targum".to_string() },
        ],
    }
}

#[test]
fn verse_snapshot_round_trips() {
    let p = Passage { pass: sample_verse(), translations: sample_trans_data() };
    let bytes = encode_passage_verse(&p);
    let back = decode_passage_verse(&bytes).expect("a snapshot must deserialize");
    assert_eq!(p, back);
}

#[test]
fn verse_snapshot_survives_non_ascii_text() {
    let mut v = sample_verse();
    v.text = "בְּרֵאשִׁית βίβλος 📖".to_string();
    v.name = "בראשית 1:1".to_string();
    let p = Passage { pass: v, translations: sample_trans_data() };
    let bytes = encode_passage_verse(&p);
    let back = decode_passage_verse(&bytes).expect("a snapshot must deserialize");
    assert_eq!(p, back);
}

#[test]
fn chapter_snapshot_round_trips() {
    let book = Book { corpus: Corpus::Talmud, book_id: 5, name: "Bava Batra".to_string() };
    let verses = (1..=4)
        .map(|n| Verse {
            name: format!("Bava Batra 2a:{}", n),
            book: book.clone(),
            chapter_no: "2a".to_string(),
            verse_no: n,
            text: format!("line {}", n),
            html: format!("<p>line {}</p>", n),
            xref_ct: xref(0, 0),
        })
        .collect();
    let chapter = Chapter {
        name: "Bava Batra 2a".to_string(),
        book,
        chapter_no: "2a".to_string(),
        xref_ct: xref(1, 1),
        verses,
    };
    let p = Passage { pass: chapter, translations: sample_trans_data() };
    let bytes = encode_passage_chapter(&p);
    let back = decode_passage_chapter(&bytes).expect("a snapshot must deserialize");
    assert_eq!(p, back);
}

#[test]
fn portion_snapshot_round_trips() {
    let book = Book { corpus: Corpus::Bible, book_id: 2, name: "Exodus".to_string() };
    let chapter = Chapter {
        name: "Exodus 1".to_string(),
        book: book.clone(),
        chapter_no: "1".to_string(),
        xref_ct: xref(0, 0),
        verses: vec![Verse {
            name: "Exodus 1:1".to_string(),
            book,
            chapter_no: "1".to_string(),
            verse_no: 1,
            text: "Now these are the names".to_string(),
            html: "<p>Now these are the names</p>".to_string(),
            xref_ct: xref(0, 0),
        }],
    };
    let portion = TorahPortion {
        portion_id: 13,
        name: "Shemot".to_string(),
        location: "Exodus 1:1 - 6:1".to_string(),
        chapters: vec![chapter],
    };
    let p = Passage { pass: portion, translations: sample_trans_data() };
    let bytes = encode_passage_portion(&p);
    let back = decode_passage_portion(&bytes).expect("a snapshot must deserialize");
    assert_eq!(p, back);
}

#[test]
fn encoding_is_byte_deterministic() {
    let p = Passage { pass: sample_verse(), translations: sample_trans_data() };
    let a = encode_passage_verse(&p);
    let b = encode_passage_verse(&p);
    assert_eq!(a, b);
}

#[test]
fn truncated_snapshot_is_rejected() {
    let p = Passage { pass: sample_verse(), translations: sample_trans_data() };
    let mut bytes = encode_passage_verse(&p);
    bytes.pop();
    assert!(decode_passage_verse(&bytes).is_none());
}

#[test]
fn wrong_tag_is_rejected() {
    let p = Passage { pass: sample_verse(), translations: sample_trans_data() };
    let mut bytes = encode_passage_verse(&p);
    bytes[0] = 2;
    assert!(decode_passage_verse(&bytes).is_none());
}

#[test]
fn trailing_garbage_is_rejected() {
    let p = Passage { pass: sample_verse(), translations: sample_trans_data() };
    let mut bytes = encode_passage_verse(&p);
    bytes.push(0);
    assert!(decode_passage_verse(&bytes).is_none());
}

#[test]
fn snapshots_of_the_three_kinds_do_not_cross_decode() {
    let p = Passage { pass: sample_verse(), translations: sample_trans_data() };
    let bytes = encode_passage_verse(&p);
    assert!(decode_passage_chapter(&bytes).is_none());
    assert!(decode_passage_portion(&bytes).is_none());
}
