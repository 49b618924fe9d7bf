//! Polymorphic ranked search: free-text queries matched against
//! heterogeneous entity kinds and returned as one ordered, type-tagged
//! result list.
//!
//! The backing store supplies the ranking primitive; rows arrive with a
//! relevance score and a secondary popularity signal. The aggregator
//! normalizes the raw query into the store's text-search syntax, tags each
//! row with its kind, orders by score descending with ties broken by
//! popularity descending, and truncates to the mode's result cap.

use vstd::prelude::*;
use crate::corpora::eq_ci;

verus! {

/// Result cap of autocomplete mode.
pub const AUTOCOMP_CAP: usize = 15;

/// Result cap of full-text mode.
pub const FULLTEXT_CAP: usize = 50;

/// A city, as the search reads it: its geographic id and name. Coordinates
/// live with the store's own geographic types outside this crate.
#[derive(Debug, PartialEq)]
pub struct City {
    pub geo_id: i32,
    pub name: String,
}

/// A country or state, as the search reads it.
#[derive(Debug, PartialEq)]
pub struct Area {
    pub geo_id: i32,
    pub name: String,
}

/// A street address: a street string plus the city.
#[derive(Debug, PartialEq)]
pub struct Address {
    pub street: String,
    pub city: City,
}

/// A congregation: a church, synagogue, etc.
#[derive(Debug, PartialEq)]
pub struct Congregation {
    pub cong_id: i32,
    pub name: String,
    pub website: Option<String>,
    pub income: Option<u64>,
    pub address: Option<Address>,
}

/// The fixed set of entity kinds a search result can carry.
#[derive(Clone, Copy, PartialEq, Eq, Structural, Debug)]
pub enum SearchKind {
    Congregation,
    Country,
    State,
    City,
    Verse,
    Chapter,
}

/// A kind-specific primary key: a scalar id for lookup entities, or the
/// composite passage key, where the presence of a verse number tells a
/// verse hit from a chapter hit.
#[derive(Debug, PartialEq)]
pub enum SearchKey {
    Entity(i32),
    Passage { book_id: i16, chapter_no: String, verse_no: Option<i16> },
}

/// Mathematical model of a `SearchKey`.
pub ghost enum SearchKeyM {
    Entity(i32),
    Passage { book_id: i16, chapter_no: Seq<char>, verse_no: Option<i16> },
}

impl View for SearchKey {
    type V = SearchKeyM;

    open spec fn view(&self) -> SearchKeyM {
        match self {
            SearchKey::Entity(pk) => SearchKeyM::Entity(*pk),
            SearchKey::Passage { book_id, chapter_no, verse_no } => SearchKeyM::Passage {
                book_id: *book_id,
                chapter_no: chapter_no@,
                verse_no: *verse_no,
            },
        }
    }
}

/// One tagged search result: the kind, the kind-specific primary key, the
/// display label, and the store's ranking signals (the relevance score and
/// the referencing-popularity tie breaker).
#[derive(Debug, PartialEq)]
pub struct SearchHit {
    pub kind: SearchKind,
    pub key: SearchKey,
    pub label: String,
    pub score: i64,
    pub popularity: i64,
}

/// Mathematical model of a `SearchHit`.
pub ghost struct SearchHitM {
    pub kind: SearchKind,
    pub key: SearchKeyM,
    pub label: Seq<char>,
    pub score: i64,
    pub popularity: i64,
}

impl View for SearchHit {
    type V = SearchHitM;

    open spec fn view(&self) -> SearchHitM {
        SearchHitM {
            kind: self.kind,
            key: self.key@,
            label: self.label@,
            score: self.score,
            popularity: self.popularity,
        }
    }
}

/// `a` ranks at least as high as `b`: a higher relevance score, or an equal
/// score and at least the popularity.
pub open spec fn ranks_ge(a: SearchHitM, b: SearchHitM) -> bool {
    a.score > b.score || (a.score == b.score && a.popularity >= b.popularity)
}

/// The hits are ordered best first.
pub open spec fn ranked_desc(s: Seq<SearchHitM>) -> bool {
    forall|i: int, j: int| 0 <= i < j < s.len() ==> ranks_ge(#[trigger] s[i], #[trigger] s[j])
}

/// Maps the store's row-kind discriminator to a kind. An unrecognized
/// discriminator falls back to the most common kind, a verse, rather than
/// failing the whole batch; this deliberately keeps the store's historical
/// leniency.
pub fn kind_from_discriminator(s: &str) -> (r: SearchKind)
    ensures
        eq_ci(s@, "congregation"@) <==> r == SearchKind::Congregation,
        eq_ci(s@, "country"@) <==> r == SearchKind::Country,
        eq_ci(s@, "state"@) <==> r == SearchKind::State,
        eq_ci(s@, "city"@) <==> r == SearchKind::City,
        eq_ci(s@, "chapter"@) <==> r == SearchKind::Chapter,
        (!eq_ci(s@, "congregation"@) && !eq_ci(s@, "country"@) && !eq_ci(s@, "state"@) && !eq_ci(
            s@,
            "city"@,
        ) && !eq_ci(s@, "chapter"@)) ==> r == SearchKind::Verse,
    {
    proof {
        reveal_strlit("congregation");
        reveal_strlit("country");
        reveal_strlit("state");
        reveal_strlit("city");
        reveal_strlit("chapter");
        assert(crate::corpora::lower_cp("country"@[1]) != crate::corpora::lower_cp("chapter"@[1]));
    }
    if crate::corpora::eq_ignore_ascii_case(s, "congregation") {
        SearchKind::Congregation
    } else if crate::corpora::eq_ignore_ascii_case(s, "country") {
        SearchKind::Country
    } else if crate::corpora::eq_ignore_ascii_case(s, "state") {
        SearchKind::State
    } else if crate::corpora::eq_ignore_ascii_case(s, "city") {
        SearchKind::City
    } else if crate::corpora::eq_ignore_ascii_case(s, "chapter") {
        SearchKind::Chapter
    } else {
        SearchKind::Verse
    }
}

/// The display label of a composite entity: the entity name, then the
/// street and city when both are present, with no trailing separator when
/// address parts are missing.
pub open spec fn congregation_label_of(
    name: Seq<char>,
    street: Option<Seq<char>>,
    city: Option<Seq<char>>,
) -> Seq<char> {
    match (street, city) {
        (Some(st), Some(ct)) => name + seq![' '] + st + seq![',', ' '] + ct,
        _ => name,
    }
}

impl Congregation {
    /// The ranked prefix query of congregation autocomplete.
    pub fn query_autocomp() -> &'static str {
        "SELECT cs.cong_id, cs.name, cs.street_str, cs.city
        FROM congregation_search cs
        WHERE ts @@ to_tsquery('simple', $1)
        LIMIT 15"
    }

    /// Maps one congregation row into a tagged result. The display label
    /// concatenates the name with the street and city when both are
    /// present, otherwise it is the bare name.
    pub fn rowfunc_autocomp(
        pk: i32,
        name: String,
        street: Option<String>,
        city: Option<String>,
        score: i64,
        popularity: i64,
    ) -> (r: SearchHit)
        ensures
            r.kind == SearchKind::Congregation,
            r.key@ == SearchKeyM::Entity(pk),
            r.label@ == congregation_label_of(
                name@,
                match street {
                    Some(st) => Some(st@),
                    None => None,
                },
                match city {
                    Some(ct) => Some(ct@),
                    None => None,
                },
            ),
            r.score == score,
            r.popularity == popularity,
    {
        let ghost name0 = name@;
        let label = match (street, city) {
            (Some(st), Some(ct)) => {
                let mut label = name;
                label.push(' ');
                label.append(st.as_str());
                label.push(',');
                label.push(' ');
                label.append(ct.as_str());
                proof {
                    assert(label@ =~= congregation_label_of(name0, Some(st@), Some(ct@)));
                }
                label
            },
            _ => name,
        };
        SearchHit {
            kind: SearchKind::Congregation,
            key: SearchKey::Entity(pk),
            label,
            score,
            popularity,
        }
    }
}

/// The store's text-search form of a raw user-typed query, built character
/// by character: words are joined by the and-operator, and the final word
/// is turned into a prefix match. `in_word` says whether the previous
/// character extended a word; `any` whether any word has begun.
pub open spec fn normalized_from(s: Seq<char>, i: int, in_word: bool, any: bool) -> Seq<char>
    decreases s.len() - i,
{
    if i < 0 || i >= s.len() {
        if any {
            seq![':', '*']
        } else {
            Seq::empty()
        }
    } else if s[i] == ' ' {
        normalized_from(s, i + 1, false, any)
    } else {
        (if !in_word && any {
            seq![' ', '&', ' ']
        } else {
            Seq::empty()
        }) + seq![s[i]] + normalized_from(s, i + 1, true, true)
    }
}

/// The store's text-search form of a raw user-typed query: its words joined
/// by the and-operator, the last one as a prefix match. A query with no
/// word normalizes to the empty text.
pub open spec fn normalized_query(s: Seq<char>) -> Seq<char> {
    normalized_from(s, 0, false, false)
}

/// Normalizes a raw user-typed query into the store's text-search syntax.
#[verifier::loop_isolation(false)]
pub fn normalize_query(raw: &str) -> (r: String)
    ensures
        r@ == normalized_query(raw@),
{
    let n = raw.unicode_len();
    let mut out = String::new();
    let mut in_word = false;
    let mut any = false;
    let mut i: usize = 0;
    while i < n
        invariant
            i <= n,
            n == raw@.len(),
            normalized_query(raw@) == out@ + normalized_from(raw@, i as int, in_word, any),
        decreases n - i,
    {
        let c = raw.get_char(i);
        if c == ' ' {
            in_word = false;
        } else {
            if !in_word && any {
                out.push(' ');
                out.push('&');
                out.push(' ');
            }
            out.push(c);
            in_word = true;
            any = true;
        }
        proof {
            assert(normalized_query(raw@) =~= out@ + normalized_from(
                raw@,
                i as int + 1,
                in_word,
                any,
            ));
        }
        i = i + 1;
    }
    if any {
        out.push(':');
        out.push('*');
    }
    proof {
        assert(normalized_query(raw@) =~= out@);
    }
    out
}

/// Orders hits best first: by relevance score descending, ties broken by
/// popularity descending. The result is a permutation of the input.
#[verifier::loop_isolation(false)]
pub fn rank_hits(rows: Vec<SearchHit>) -> (r: Vec<SearchHit>)
    ensures
        ranked_desc(r@.map_values(|h: SearchHit| h@)),
        r@.map_values(|h: SearchHit| h@).to_multiset() == rows@.map_values(
            |h: SearchHit| h@,
        ).to_multiset(),
        r@.len() == rows@.len(),
{
    broadcast use vstd::seq_lib::group_to_multiset_ensures;

    let ghost view_of = |h: SearchHit| h@;
    let ghost input = rows@.map_values(view_of);
    let mut remaining = rows;
    let mut out: Vec<SearchHit> = Vec::new();
    while remaining.len() > 0
        invariant
            out@.map_values(view_of).to_multiset().add(
                remaining@.map_values(view_of).to_multiset(),
            ) == input.to_multiset(),
            out@.len() + remaining@.len() == input.len(),
            ranked_desc(out@.map_values(view_of)),
            forall|a: int, b: int|
                0 <= a < out@.len() && 0 <= b < remaining@.len() ==> ranks_ge(
                    #[trigger] out@.map_values(view_of)[a],
                    #[trigger] remaining@.map_values(view_of)[b],
                ),
        decreases remaining.len(),
    {
        let ghost rem = remaining@.map_values(view_of);
        let m = remaining.len();
        let mut mi: usize = 0;
        let mut t: usize = 1;
        while t < m
            invariant
                mi < t <= m,
                m == remaining@.len(),
                rem == remaining@.map_values(view_of),
                forall|j: int| 0 <= j < t ==> ranks_ge(rem[mi as int], #[trigger] rem[j]),
            decreases m - t,
        {
            let better = remaining[t].score > remaining[mi].score || (remaining[t].score
                == remaining[mi].score && remaining[t].popularity > remaining[mi].popularity);
            if better {
                mi = t;
            }
            t = t + 1;
        }
        let x = remaining.remove(mi);
        let ghost out_pre = out@.map_values(view_of);
        out.push(x);
        proof {
            assert(remaining@.map_values(view_of) =~= rem.remove(mi as int));
            assert(out@.map_values(view_of) =~= out_pre.push(x@));
            assert(out@.map_values(view_of).to_multiset().add(
                remaining@.map_values(view_of).to_multiset(),
            ) =~= input.to_multiset());
            let outm = out@.map_values(view_of);
            assert forall|a: int, b: int|
                0 <= a < b < outm.len() implies ranks_ge(#[trigger] outm[a], #[trigger] outm[b]) by {
                if b < outm.len() - 1 {
                    assert(outm[a] == out_pre[a] && outm[b] == out_pre[b]);
                } else {
                    assert(outm[b] == x@);
                    if a < outm.len() - 1 {
                        assert(ranks_ge(out_pre[a], rem[mi as int]));
                    }
                }
            }
            let remm = remaining@.map_values(view_of);
            assert forall|a: int, b: int|
                0 <= a < outm.len() && 0 <= b < remm.len() implies ranks_ge(
                #[trigger] outm[a],
                #[trigger] remm[b],
            ) by {
                let src = if b < mi as int {
                    b
                } else {
                    b + 1
                };
                assert(remm[b] == rem[src]);
                assert(ranks_ge(rem[mi as int], rem[src]));
                if a < outm.len() - 1 {
                    assert(ranks_ge(out_pre[a], rem[src]));
                } else {
                    assert(outm[a] == x@);
                    assert(x@ == rem[mi as int]);
                }
            }
        }
    }
    proof {
        assert(remaining@.map_values(view_of) =~= Seq::<SearchHitM>::empty());
        assert(out@.map_values(view_of).to_multiset() =~= input.to_multiset());
    }
    out
}

/// Keeps the first `cap` hits of an ordered result list.
pub fn truncate_hits(mut rows: Vec<SearchHit>, cap: usize) -> (r: Vec<SearchHit>)
    ensures
        r@ == if rows@.len() <= cap {
            rows@
        } else {
            rows@.take(cap as int)
        },
{
    rows.truncate(cap);
    rows
}

/// Aggregates ranked rows for autocomplete mode: orders by relevance score
/// descending with ties broken by popularity descending, and truncates to
/// the autocomplete cap. The result count never exceeds the cap, however
/// many matches the store reports.
pub fn autocomplete_aggregate(rows: Vec<SearchHit>) -> (r: Vec<SearchHit>)
    ensures
        r@.len() <= AUTOCOMP_CAP,
        ranked_desc(r@.map_values(|h: SearchHit| h@)),
        r@.len() == if rows@.len() <= AUTOCOMP_CAP {
            rows@.len() as int
        } else {
            AUTOCOMP_CAP as int
        },
        exists|full: Seq<SearchHitM>|
            {
                &&& #[trigger] full.to_multiset() == rows@.map_values(
                    |h: SearchHit| h@,
                ).to_multiset()
                &&& ranked_desc(full)
                &&& r@.map_values(|h: SearchHit| h@) == if full.len() <= AUTOCOMP_CAP {
                    full
                } else {
                    full.take(AUTOCOMP_CAP as int)
                }
            },
{
    let sorted = rank_hits(rows);
    let r = truncate_hits(sorted, AUTOCOMP_CAP);
    proof {
        let rm = r@.map_values(|h: SearchHit| h@);
        let sm = sorted@.map_values(|h: SearchHit| h@);
        assert forall|i: int, j: int| 0 <= i < j < rm.len() implies ranks_ge(
            #[trigger] rm[i],
            #[trigger] rm[j],
        ) by {
            assert(rm[i] == sm[i] && rm[j] == sm[j]);
        }
        assert(sm.to_multiset() == rows@.map_values(|h: SearchHit| h@).to_multiset());
    }
    r
}

/// Aggregates ranked rows for full-text mode: the same ordering, truncated
/// to the larger full-text cap.
pub fn fulltext_aggregate(rows: Vec<SearchHit>) -> (r: Vec<SearchHit>)
    ensures
        r@.len() <= FULLTEXT_CAP,
        ranked_desc(r@.map_values(|h: SearchHit| h@)),
        r@.len() == if rows@.len() <= FULLTEXT_CAP {
            rows@.len() as int
        } else {
            FULLTEXT_CAP as int
        },
        exists|full: Seq<SearchHitM>|
            {
                &&& #[trigger] full.to_multiset() == rows@.map_values(
                    |h: SearchHit| h@,
                ).to_multiset()
                &&& ranked_desc(full)
                &&& r@.map_values(|h: SearchHit| h@) == if full.len() <= FULLTEXT_CAP {
                    full
                } else {
                    full.take(FULLTEXT_CAP as int)
                }
            },
{
    let sorted = rank_hits(rows);
    let r = truncate_hits(sorted, FULLTEXT_CAP);
    proof {
        let rm = r@.map_values(|h: SearchHit| h@);
        let sm = sorted@.map_values(|h: SearchHit| h@);
        assert forall|i: int, j: int| 0 <= i < j < rm.len() implies ranks_ge(
            #[trigger] rm[i],
            #[trigger] rm[j],
        ) by {
            assert(rm[i] == sm[i] && rm[j] == sm[j]);
        }
        assert(sm.to_multiset() == rows@.map_values(|h: SearchHit| h@).to_multiset());
    }
    r
}

} // verus!
