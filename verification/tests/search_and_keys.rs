use corpora_store::cache::{i16_to_decimal, make_key, Cache};
use corpora_store::qr::qr_url;
use corpora_store::search::{
    autocomplete_aggregate, fulltext_aggregate, kind_from_discriminator, normalize_query,
    rank_hits, Congregation, SearchHit, SearchKey, SearchKind, AUTOCOMP_CAP, FULLTEXT_CAP,
};

fn hit(score: i64, popularity: i64) -> SearchHit {
    SearchHit {
        kind: SearchKind::Verse,
        key: SearchKey::Passage { book_id: 1, chapter_no: "3".to_string(), verse_no: Some(16) },
        label: format!("hit {} {}", score, popularity),
        score,
        popularity,
    }
}

#[test]
fn congregation_label_concatenates_name_street_and_city() {
    let r = Congregation::rowfunc_autocomp(
        7,
        "Beth Israel".to_string(),
        Some("10 Main St".to_string()),
        Some("Boston".to_string()),
        0,
        0,
    );
    assert_eq!(r.label, "Beth Israel 10 Main St, Boston");
    assert_eq!(r.kind, SearchKind::Congregation);
    assert_eq!(r.key, SearchKey::Entity(7));
}

#[test]
fn congregation_label_without_address_is_the_bare_name() {
    let r = Congregation::rowfunc_autocomp(7, "Beth Israel".to_string(), None, None, 0, 0);
    assert_eq!(r.label, "Beth Israel");
    let r = Congregation::rowfunc_autocomp(
        7,
        "Beth Israel".to_string(),
        Some("10 Main St".to_string()),
        None,
        0,
        0,
    );
    assert_eq!(r.label, "Beth Israel");
}

#[test]
fn autocomplete_results_never_exceed_the_cap() {
    let rows: Vec<SearchHit> = (0..40).map(|i| hit(i, 0)).collect();
    let r = autocomplete_aggregate(rows);
    assert_eq!(r.len(), AUTOCOMP_CAP);
    // and the kept hits are the best-ranked ones, best first
    assert_eq!(r[0].score, 39);
    assert_eq!(r[AUTOCOMP_CAP - 1].score, 39 - (AUTOCOMP_CAP as i64 - 1));
}

#[test]
fn autocomplete_keeps_everything_under_the_cap() {
    let rows: Vec<SearchHit> = (0..5).map(|i| hit(i, 0)).collect();
    let r = autocomplete_aggregate(rows);
    assert_eq!(r.len(), 5);
}

#[test]
fn fulltext_results_never_exceed_the_cap() {
    let rows: Vec<SearchHit> = (0..80).map(|i| hit(i % 7, i)).collect();
    let r = fulltext_aggregate(rows);
    assert_eq!(r.len(), FULLTEXT_CAP);
}

#[test]
fn hits_are_ordered_by_score_then_popularity_descending() {
    let rows = vec![hit(1, 5), hit(3, 0), hit(1, 9), hit(3, 2), hit(2, 1)];
    let r = rank_hits(rows);
    let ranks: Vec<(i64, i64)> = r.iter().map(|h| (h.score, h.popularity)).collect();
    assert_eq!(ranks, vec![(3, 2), (3, 0), (2, 1), (1, 9), (1, 5)]);
}

#[test]
fn unknown_discriminator_falls_back_to_verse() {
    assert_eq!(kind_from_discriminator("congregation"), SearchKind::Congregation);
    assert_eq!(kind_from_discriminator("country"), SearchKind::Country);
    assert_eq!(kind_from_discriminator("state"), SearchKind::State);
    assert_eq!(kind_from_discriminator("city"), SearchKind::City);
    assert_eq!(kind_from_discriminator("chapter"), SearchKind::Chapter);
    assert_eq!(kind_from_discriminator("verse"), SearchKind::Verse);
    assert_eq!(kind_from_discriminator("gizmo"), SearchKind::Verse);
}

#[test]
fn query_normalization_builds_prefix_tsquery_syntax() {
    assert_eq!(normalize_query("beth isr"), "beth & isr:*");
    assert_eq!(normalize_query("x"), "x:*");
    assert_eq!(normalize_query("a  b"), "a & b:*");
    assert_eq!(normalize_query("  trailing  "), "trailing:*");
    assert_eq!(normalize_query(""), "");
    assert_eq!(normalize_query("   "), "");
}

#[test]
fn cache_keys_join_prefix_and_parts_with_the_separator() {
    let parts = vec!["1".to_string(), "22".to_string(), "2".to_string()];
    assert_eq!(make_key("verse", &parts), "verse:1:22:2");
    assert_eq!(make_key("chapter", &Vec::new()), "chapter");
}

#[test]
fn decimal_rendering_of_signed_ids() {
    assert_eq!(i16_to_decimal(0), "0");
    assert_eq!(i16_to_decimal(7), "7");
    assert_eq!(i16_to_decimal(15), "15");
    assert_eq!(i16_to_decimal(-3), "-3");
    assert_eq!(i16_to_decimal(32767), "32767");
    assert_eq!(i16_to_decimal(-32768), "-32768");
}

#[test]
fn cache_set_then_get_returns_the_payload() {
    let mut cache = Cache::new();
    cache.set("k1".to_string(), vec![1, 2, 3], 60);
    cache.set("k2".to_string(), vec![4], 60);
    assert_eq!(cache.get(&"k1".to_string()), Some(&vec![1, 2, 3]));
    assert_eq!(cache.get(&"k2".to_string()), Some(&vec![4]));
    assert_eq!(cache.get(&"k3".to_string()), None);
    // last writer wins with an idempotent overwrite
    cache.set("k1".to_string(), vec![9], 60);
    assert_eq!(cache.get(&"k1".to_string()), Some(&vec![9]));
}

#[test]
fn qr_urls_name_the_index_and_primary_key() {
    assert_eq!(qr_url("verse", "1:22:2"), "https://qrbible.app//verse/1:22:2");
}
