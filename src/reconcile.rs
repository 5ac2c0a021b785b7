//! Matching of remote hits against a paper record, and the merge policy that
//! folds the first matching hit into the record.

use chrono::Datelike;
use vstd::prelude::*;
use vstd::string::*;
use crate::authors::{extract_authors_last_names, last_names};
use crate::model::{clone_opt, opt_view, pub_views, ArxivHit, DblpHit, Paper, PaperV, Publication, PublicationV};
use crate::stats::{bump, bump_count, UpdateStats};
use crate::similarity::{fits, meets, score_parts, similarity_score, views};
use crate::text::{join, lower_of, lowercase, normalized};

verus! {

/// What happened to the publication list of a record.
#[derive(Clone, Copy, Debug, PartialEq, Eq, Structural)]
pub enum PublicationChange {
    Unchanged,
    Added,
    Updated,
}

/// The changes one reconciliation made to a record.
#[derive(Clone, Copy, Debug, PartialEq, Eq, Structural)]
pub struct ChangeReport {
    pub authors_updated: bool,
    pub publication: PublicationChange,
}

impl ChangeReport {
    /// Whether anything changed.
    pub open spec fn changed_spec(&self) -> bool {
        self.authors_updated || self.publication != PublicationChange::Unchanged
    }

    /// Whether anything changed.
    #[verifier::when_used_as_spec(changed_spec)]
    pub fn changed(&self) -> (r: bool)
        ensures
            r == self.changed_spec(),
    {
        self.authors_updated || !matches!(self.publication, PublicationChange::Unchanged)
    }
}

/// The report of a reconciliation that changed nothing.
pub open spec fn no_change() -> ChangeReport {
    ChangeReport { authors_updated: false, publication: PublicationChange::Unchanged }
}

// ---- publication lookup by case-insensitive name

/// The index of the first publication whose lowercased name is `key`.
pub open spec fn find_key(pubs: Seq<PublicationV>, key: Seq<char>) -> Option<int>
    decreases pubs.len(),
{
    if pubs.len() == 0 {
        None
    } else {
        match find_key(pubs.drop_last(), key) {
            Some(k) => Some(k),
            None => if lower_of(pubs.last().name) == key {
                Some(pubs.len() - 1)
            } else {
                None
            },
        }
    }
}

/// At most one publication for each case-insensitive name.
pub open spec fn keys_unique(pubs: Seq<PublicationV>) -> bool {
    forall|i: int, j: int|
        0 <= i < j < pubs.len() ==> lower_of(#[trigger] pubs[i].name) != lower_of(
            #[trigger] pubs[j].name,
        )
}

pub proof fn lemma_find_key(pubs: Seq<PublicationV>, key: Seq<char>)
    ensures
        match find_key(pubs, key) {
            Some(k) => 0 <= k < pubs.len() && lower_of(pubs[k].name) == key,
            None => forall|i: int| 0 <= i < pubs.len() ==> lower_of(#[trigger] pubs[i].name) != key,
        },
    decreases pubs.len(),
{
    if pubs.len() > 0 {
        lemma_find_key(pubs.drop_last(), key);
        if find_key(pubs.drop_last(), key).is_none() {
            assert forall|i: int| 0 <= i < pubs.len() - 1 implies lower_of(
                #[trigger] pubs[i].name,
            ) != key by {
                assert(pubs.drop_last()[i] == pubs[i]);
            }
        }
    }
}

proof fn lemma_find_key_prefix(pubs: Seq<PublicationV>, key: Seq<char>, m: int)
    requires
        0 <= m <= pubs.len(),
        find_key(pubs.subrange(0, m), key).is_some(),
    ensures
        find_key(pubs, key) == find_key(pubs.subrange(0, m), key),
    decreases pubs.len(),
{
    if m == pubs.len() {
        assert(pubs.subrange(0, m) =~= pubs);
    } else {
        assert(pubs.drop_last().subrange(0, m) =~= pubs.subrange(0, m));
        lemma_find_key_prefix(pubs.drop_last(), key, m);
    }
}

proof fn lemma_pub_views_update(v: Seq<Publication>, k: int, x: Publication)
    requires
        0 <= k < v.len(),
    ensures
        pub_views(v.update(k, x)) == pub_views(v).update(k, x@),
{
    assert(pub_views(v.update(k, x)) =~= pub_views(v).update(k, x@));
}

proof fn lemma_pub_views_push(v: Seq<Publication>, x: Publication)
    ensures
        pub_views(v.push(x)) == pub_views(v).push(x@),
{
    assert(pub_views(v.push(x)) =~= pub_views(v).push(x@));
}

/// The index of the first publication whose lowercased name is `key`.
pub fn find_publication(pubs: &Vec<Publication>, key: &String) -> (r: Option<usize>)
    ensures
        match r {
            Some(k) => find_key(pub_views(pubs@), key@) == Some(k as int),
            None => find_key(pub_views(pubs@), key@) == None::<int>,
        },
{
    let ghost pv = pub_views(pubs@);
    let mut j: usize = 0;
    proof {
        assert(pv.subrange(0, 0) =~= Seq::<PublicationV>::empty());
    }
    while j < pubs.len()
        invariant
            pv == pub_views(pubs@),
            0 <= j <= pubs@.len(),
            find_key(pv.subrange(0, j as int), key@) == None::<int>,
        decreases pubs@.len() - j,
    {
        let name_key = lowercase(pubs[j].name.as_str());
        proof {
            assert(pv.subrange(0, j + 1).drop_last() =~= pv.subrange(0, j as int));
            assert(pv[j as int] == pubs@[j as int]@);
        }
        if name_key == *key {
            proof {
                lemma_find_key_prefix(pv, key@, j + 1);
            }
            return Some(j);
        }
        j = j + 1;
    }
    proof {
        assert(pv.subrange(0, pv.len() as int) =~= pv);
    }
    None
}

// ---- authors

/// The author field after a hit naming `names` is merged: set only when absent.
pub open spec fn filled_authors(current: Option<Seq<char>>, names: Seq<Seq<char>>) -> Option<
    Seq<char>,
> {
    if current.is_none() && names.len() > 0 {
        Some(last_names(join(names, seq![',', ' '])))
    } else {
        current
    }
}

/// The names joined by `", "`.
pub fn join_names(names: &Vec<String>) -> (r: String)
    ensures
        r@ == join(views(names@), seq![',', ' ']),
{
    let mut out = String::new();
    let mut i: usize = 0;
    while i < names.len()
        invariant
            0 <= i <= names@.len(),
            out@ == join(views(names@.subrange(0, i as int)), seq![',', ' ']),
        decreases names@.len() - i,
    {
        let ghost before = out@;
        proof {
            assert(views(names@.subrange(0, i + 1)) =~= views(names@.subrange(0, i as int)).push(
                names@[i as int]@,
            ));
            crate::text::lemma_join_push(
                views(names@.subrange(0, i as int)),
                seq![',', ' '],
                names@[i as int]@,
            );
        }
        if i > 0 {
            out.append(", ");
            proof {
                reveal_strlit(", ");
                assert(out@ =~= before + seq![',', ' ']);
            }
        }
        out.append(names[i].as_str());
        i = i + 1;
    }
    proof {
        assert(names@.subrange(0, names@.len() as int) =~= names@);
    }
    out
}

/// Sets the author field from `names` when it is absent and `names` is not empty.
fn fill_authors(paper: &mut Paper, names: &Vec<String>) -> (r: bool)
    ensures
        final(paper)@ == (PaperV {
            authors: filled_authors(old(paper)@.authors, views(names@)),
            ..old(paper)@
        }),
        r == (old(paper).authors.is_none() && names@.len() > 0),
{
    if paper.authors.is_none() && names.len() > 0 {
        let joined = join_names(names);
        paper.authors = Some(extract_authors_last_names(joined.as_str()));
        true
    } else {
        false
    }
}

// ---- preprint path

/// The calendar date of an RFC 3339 timestamp, as chrono parses it.
pub uninterp spec fn rfc3339_date(s: Seq<char>) -> Option<(i32, u32, u32)>;

/// Relies on chrono's `DateTime::parse_from_rfc3339` and the `year`, `month`
/// and `day` of `Datelike`: month in 1..=12, day in 1..=31.
#[verifier::external_body]
fn parse_rfc3339_date(s: &str) -> (r: Option<(i32, u32, u32)>)
    ensures
        r == rfc3339_date(s@),
        r matches Some((_, m, d)) ==> 1 <= m <= 12 && 1 <= d <= 31,
{
    match chrono::DateTime::parse_from_rfc3339(s) {
        Ok(t) => Some((t.year(), t.month(), t.day())),
        Err(_) => None,
    }
}

/// `s` without a trailing version suffix: `v` followed by digits (regex `v\d+$`).
pub uninterp spec fn without_version(s: Seq<char>) -> Seq<char>;

/// Relies on regex's `Regex::replace_all` with the pattern `v\d+$` and an empty replacement.
#[verifier::external_body]
fn strip_version(s: &str) -> (r: String)
    ensures
        r@ == without_version(s@),
{
    regex::Regex::new(r"v\d+$").unwrap().replace_all(s, "").into_owned()
}

/// `s` with every non-overlapping occurrence of `from`, left to right, replaced by `to`.
pub open spec fn replace_all(s: Seq<char>, from: Seq<char>, to: Seq<char>) -> Seq<char>
    decreases s.len(),
{
    if from.len() == 0 || s.len() < from.len() {
        s
    } else if s.subrange(0, from.len() as int) == from {
        to + replace_all(s.subrange(from.len() as int, s.len() as int), from, to)
    } else {
        seq![s[0]] + replace_all(s.drop_first(), from, to)
    }
}

/// Relies on `str::replace`: all non-overlapping matches of a non-empty
/// pattern, from the left, are replaced.
#[verifier::external_body]
fn replace_str(s: &str, from: &str, to: &str) -> (r: String)
    requires
        from@.len() > 0,
    ensures
        r@ == replace_all(s@, from@, to@),
{
    s.replace(from, to)
}

pub open spec fn http_prefix() -> Seq<char> {
    seq!['h', 't', 't', 'p', ':', '/', '/']
}

pub open spec fn https_prefix() -> Seq<char> {
    seq!['h', 't', 't', 'p', 's', ':', '/', '/']
}

/// The stored form of a preprint identifier: version suffix removed, secure scheme.
pub open spec fn clean_url(id: Seq<char>) -> Seq<char> {
    replace_all(without_version(id), http_prefix(), https_prefix())
}

/// The stored form of a preprint identifier URL.
pub fn clean_arxiv_url(id: &str) -> (r: String)
    ensures
        r@ == clean_url(id@),
{
    let bare = strip_version(id);
    proof {
        reveal_strlit("http://");
        reveal_strlit("https://");
        assert("http://"@ =~= http_prefix());
        assert("https://"@ =~= https_prefix());
    }
    replace_str(bare.as_str(), "http://", "https://")
}

pub open spec fn arxiv_name() -> Seq<char> {
    seq!['a', 'r', 'X', 'i', 'v']
}

/// The preprint publication a hit describes, when it has a parsable date and an identifier.
pub open spec fn arxiv_publication(hit: ArxivHit) -> Option<PublicationV> {
    match (hit.published, hit.id) {
        (Some(p), Some(id)) => match rfc3339_date(p@) {
            Some((y, m, d)) => Some(
                PublicationV {
                    name: arxiv_name(),
                    url: Some(clean_url(id@)),
                    year: Some(y),
                    month: Some(m),
                    day: Some(d),
                    dblp_key: None,
                    bibtex: None,
                },
            ),
            None => None,
        },
        _ => None,
    }
}

/// A record after a matching preprint hit is merged, and the report of it.
/// The preprint publication is replaced wholesale, or appended when absent.
pub open spec fn arxiv_merge(p: PaperV, hit: ArxivHit) -> (PaperV, ChangeReport) {
    let authors = filled_authors(p.authors, views(hit.authors@));
    let au = p.authors.is_none() && hit.authors@.len() > 0;
    match arxiv_publication(hit) {
        None => (
            PaperV { authors, ..p },
            ChangeReport { authors_updated: au, publication: PublicationChange::Unchanged },
        ),
        Some(np) => match find_key(p.publications, lower_of(arxiv_name())) {
            Some(k) => (
                PaperV { authors, publications: p.publications.update(k, np), ..p },
                ChangeReport {
                    authors_updated: au,
                    publication: if p.publications[k].url == np.url {
                        PublicationChange::Unchanged
                    } else {
                        PublicationChange::Updated
                    },
                },
            ),
            None => (
                PaperV { authors, publications: p.publications.push(np), ..p },
                ChangeReport { authors_updated: au, publication: PublicationChange::Added },
            ),
        },
    }
}

/// Merges a matching preprint hit into `paper`.
pub fn apply_arxiv_hit(paper: &mut Paper, hit: &ArxivHit) -> (r: ChangeReport)
    ensures
        (final(paper)@, r) == arxiv_merge(old(paper)@, *hit),
{
    let authors_updated = fill_authors(paper, &hit.authors);
    let date = match &hit.published {
        Some(p) => parse_rfc3339_date(p.as_str()),
        None => None,
    };
    let (y, m, d) = match date {
        Some(t) => t,
        None => {
            return ChangeReport { authors_updated, publication: PublicationChange::Unchanged };
        },
    };
    let id = match &hit.id {
        Some(id) => id,
        None => {
            return ChangeReport { authors_updated, publication: PublicationChange::Unchanged };
        },
    };
    let url = clean_arxiv_url(id.as_str());
    proof {
        reveal_strlit("arXiv");
    }
    let name = String::from_str("arXiv");
    let key = lowercase(name.as_str());
    let found = find_publication(&paper.publications, &key);
    proof {
        lemma_find_key(pub_views(paper.publications@), key@);
    }
    let same = match found {
        Some(k) => match &paper.publications[k].url {
            Some(old_url) => *old_url == url,
            None => false,
        },
        None => false,
    };
    let np = Publication {
        name,
        url: Some(url),
        year: Some(y),
        month: Some(m),
        day: Some(d),
        dblp_key: None,
        bibtex: None,
    };
    proof {
        assert(name@ =~= arxiv_name());
        assert(np@ == arxiv_publication(*hit).unwrap());
    }
    match found {
        Some(k) => {
            let ghost before = paper.publications@;
            paper.publications.set(k, np);
            proof {
                lemma_find_key(pub_views(before), key@);
                lemma_pub_views_update(before, k as int, np);
            }
            ChangeReport {
                authors_updated,
                publication: if same {
                    PublicationChange::Unchanged
                } else {
                    PublicationChange::Updated
                },
            }
        },
        None => {
            let ghost before = paper.publications@;
            paper.publications.push(np);
            proof {
                lemma_pub_views_push(before, np);
            }
            ChangeReport { authors_updated, publication: PublicationChange::Added }
        },
    }
}

// ---- indexed-venue path

/// The value of a string of ASCII decimal digits.
pub open spec fn digits_value(d: Seq<char>) -> int
    decreases d.len(),
{
    if d.len() == 0 {
        0
    } else {
        digits_value(d.drop_last()) * 10 + (d.last() as int - '0' as int)
    }
}

/// Whether `d` is a non-empty string of ASCII decimal digits.
pub open spec fn all_digits(d: Seq<char>) -> bool {
    d.len() > 0 && forall|j: int| 0 <= j < d.len() ==> '0' <= #[trigger] d[j] <= '9'
}

/// The `i32` that `s` spells: an optional `+` or `-` sign followed by decimal
/// digits, within range; `None` for anything else.
pub open spec fn i32_of(s: Seq<char>) -> Option<i32> {
    let neg = s.len() > 0 && s[0] == '-';
    let d = if s.len() > 0 && (s[0] == '-' || s[0] == '+') {
        s.drop_first()
    } else {
        s
    };
    let v = if neg {
        -digits_value(d)
    } else {
        digits_value(d)
    };
    if all_digits(d) && i32::MIN <= v <= i32::MAX {
        Some(v as i32)
    } else {
        None
    }
}

/// Relies on `str::parse::<i32>`: an optional sign and decimal digits, in range.
#[verifier::external_body]
fn parse_year(s: &str) -> (r: Option<i32>)
    ensures
        r == i32_of(s@),
{
    s.parse::<i32>().ok()
}

/// A field after a fill-if-absent merge.
pub open spec fn fill(current: Option<Seq<char>>, offered: Option<Seq<char>>) -> Option<Seq<char>> {
    if current.is_none() {
        offered
    } else {
        current
    }
}

/// The year a hit offers.
pub open spec fn hit_year(hit: DblpHit) -> Option<i32> {
    match hit.year {
        Some(y) => i32_of(y@),
        None => None,
    }
}

/// A record after a matching indexed hit is merged, with the citation text
/// fetched for it, and the report of it. An existing publication of the venue
/// only has its absent fields filled; otherwise a new one is appended.
pub open spec fn dblp_merge(p: PaperV, hit: DblpHit, bibtex: Option<Seq<char>>) -> (
    PaperV,
    ChangeReport,
) {
    let authors = filled_authors(p.authors, views(hit.authors@));
    let au = p.authors.is_none() && hit.authors@.len() > 0;
    match find_key(p.publications, lower_of(hit.venue@)) {
        Some(k) => {
            let q = p.publications[k];
            let q2 = PublicationV {
                url: fill(q.url, opt_view(hit.url)),
                dblp_key: fill(q.dblp_key, opt_view(hit.key)),
                bibtex: fill(q.bibtex, bibtex),
                ..q
            };
            let filled = (q.dblp_key.is_none() && hit.key.is_some()) || (q.bibtex.is_none()
                && bibtex.is_some()) || (q.url.is_none() && hit.url.is_some());
            (
                PaperV { authors, publications: p.publications.update(k, q2), ..p },
                ChangeReport {
                    authors_updated: au,
                    publication: if filled {
                        PublicationChange::Updated
                    } else {
                        PublicationChange::Unchanged
                    },
                },
            )
        },
        None => {
            let np = PublicationV {
                name: hit.venue@,
                url: opt_view(hit.url),
                year: hit_year(hit),
                month: None,
                day: None,
                dblp_key: opt_view(hit.key),
                bibtex,
            };
            (
                PaperV { authors, publications: p.publications.push(np), ..p },
                ChangeReport { authors_updated: au, publication: PublicationChange::Added },
            )
        },
    }
}

fn fill_opt(current: &Option<String>, offered: &Option<String>) -> (r: Option<String>)
    ensures
        opt_view(r) == fill(opt_view(*current), opt_view(*offered)),
{
    if current.is_none() {
        clone_opt(offered)
    } else {
        clone_opt(current)
    }
}

/// Merges a matching indexed hit, with the citation text fetched for it, into `paper`.
pub fn apply_dblp_hit(paper: &mut Paper, hit: &DblpHit, bibtex: Option<String>) -> (r:
    ChangeReport)
    ensures
        (final(paper)@, r) == dblp_merge(old(paper)@, *hit, opt_view(bibtex)),
{
    let authors_updated = fill_authors(paper, &hit.authors);
    let key = lowercase(hit.venue.as_str());
    let found = find_publication(&paper.publications, &key);
    proof {
        lemma_find_key(pub_views(paper.publications@), key@);
    }
    match found {
        Some(k) => {
            let q = &paper.publications[k];
            let filled = (q.dblp_key.is_none() && hit.key.is_some()) || (q.bibtex.is_none()
                && bibtex.is_some()) || (q.url.is_none() && hit.url.is_some());
            let q2 = Publication {
                name: q.name.clone(),
                url: fill_opt(&q.url, &hit.url),
                year: q.year,
                month: q.month,
                day: q.day,
                dblp_key: fill_opt(&q.dblp_key, &hit.key),
                bibtex: fill_opt(&q.bibtex, &bibtex),
            };
            let ghost before = paper.publications@;
            proof {
                assert(pub_views(before)[k as int] == before[k as int]@);
            }
            paper.publications.set(k, q2);
            proof {
                lemma_pub_views_update(before, k as int, q2);
            }
            ChangeReport {
                authors_updated,
                publication: if filled {
                    PublicationChange::Updated
                } else {
                    PublicationChange::Unchanged
                },
            }
        },
        None => {
            let year = match &hit.year {
                Some(y) => parse_year(y.as_str()),
                None => None,
            };
            let np = Publication {
                name: hit.venue.clone(),
                url: clone_opt(&hit.url),
                year,
                month: None,
                day: None,
                dblp_key: clone_opt(&hit.key),
                bibtex,
            };
            let ghost before = paper.publications@;
            paper.publications.push(np);
            proof {
                lemma_pub_views_push(before, np);
            }
            ChangeReport { authors_updated, publication: PublicationChange::Added }
        },
    }
}

// ---- choosing the hit

/// The least `k < n` with `ok(k)`.
pub open spec fn first_where(n: int, ok: spec_fn(int) -> bool) -> Option<int>
    decreases n,
{
    if n <= 0 {
        None
    } else {
        match first_where(n - 1, ok) {
            Some(k) => Some(k),
            None => if ok(n - 1) {
                Some(n - 1)
            } else {
                None
            },
        }
    }
}

proof fn lemma_first_where_extend(m: int, n: int, ok: spec_fn(int) -> bool)
    requires
        0 <= m <= n,
        first_where(m, ok).is_some(),
    ensures
        first_where(n, ok) == first_where(m, ok),
    decreases n - m,
{
    if n > m {
        lemma_first_where_extend(m, n - 1, ok);
    }
}

pub proof fn lemma_first_where(n: int, ok: spec_fn(int) -> bool)
    ensures
        match first_where(n, ok) {
            Some(k) => 0 <= k < n && ok(k) && forall|j: int| 0 <= j < k ==> !#[trigger] ok(j),
            None => forall|j: int| 0 <= j < n ==> !#[trigger] ok(j),
        },
    decreases n,
{
    if n > 0 {
        lemma_first_where(n - 1, ok);
    }
}

/// Whether a hit title reaches the threshold (in hundredths) against a record title.
pub open spec fn title_matches(hit_title: Seq<char>, title: Seq<char>, threshold: int) -> bool {
    fits(normalized(hit_title), normalized(title)) && meets(
        score_parts(normalized(hit_title), normalized(title)),
        threshold,
    )
}

pub open spec fn corr_name() -> Seq<char> {
    seq!['C', 'o', 'R', 'R']
}

/// Whether an indexed hit's venue names a real venue, not empty and not the
/// preprint mirror `CoRR`.
pub open spec fn venue_accepted(venue: Seq<char>) -> bool {
    venue.len() > 0 && venue != corr_name()
}

/// The first preprint hit that matches.
pub open spec fn first_arxiv(title: Seq<char>, hits: Seq<ArxivHit>, threshold: int) -> Option<int> {
    first_where(hits.len() as int, |k: int| title_matches(hits[k].title@, title, threshold))
}

/// The first indexed hit with an accepted venue that matches.
pub open spec fn first_dblp(title: Seq<char>, hits: Seq<DblpHit>, threshold: int) -> Option<int> {
    first_where(
        hits.len() as int,
        |k: int| venue_accepted(hits[k].venue@) && title_matches(hits[k].title@, title, threshold),
    )
}

/// Whether the hit title reaches `threshold` hundredths against `title`.
pub fn is_title_match(hit_title: &str, title: &str, threshold: u64) -> (r: bool)
    ensures
        r == title_matches(hit_title@, title@, threshold as int),
{
    match similarity_score(hit_title, title) {
        Some(score) => score.meets_percent(threshold),
        None => false,
    }
}

/// Whether an indexed hit's venue is neither empty nor `CoRR`.
pub fn is_venue_accepted(venue: &String) -> (r: bool)
    ensures
        r == venue_accepted(venue@),
{
    proof {
        reveal_strlit("CoRR");
    }
    let corr = String::from_str("CoRR");
    proof {
        assert(corr@ =~= corr_name());
    }
    venue.as_str().unicode_len() > 0 && *venue != corr
}

/// The index of the first preprint hit whose title matches `title`.
pub fn first_arxiv_match(title: &str, hits: &Vec<ArxivHit>, threshold: u64) -> (r: Option<usize>)
    ensures
        match r {
            Some(k) => first_arxiv(title@, hits@, threshold as int) == Some(k as int),
            None => first_arxiv(title@, hits@, threshold as int) == None::<int>,
        },
{
    let ghost ok = |k: int| title_matches(hits@[k].title@, title@, threshold as int);
    let mut j: usize = 0;
    while j < hits.len()
        invariant
            0 <= j <= hits@.len(),
            ok == (|k: int| title_matches(hits@[k].title@, title@, threshold as int)),
            first_where(j as int, ok) == None::<int>,
        decreases hits@.len() - j,
    {
        if is_title_match(hits[j].title.as_str(), title, threshold) {
            proof {
                lemma_first_where_extend(j + 1, hits@.len() as int, ok);
            }
            return Some(j);
        }
        j = j + 1;
    }
    None
}

/// The index of the first indexed hit with an accepted venue whose title matches `title`.
pub fn first_dblp_match(title: &str, hits: &Vec<DblpHit>, threshold: u64) -> (r: Option<usize>)
    ensures
        match r {
            Some(k) => first_dblp(title@, hits@, threshold as int) == Some(k as int),
            None => first_dblp(title@, hits@, threshold as int) == None::<int>,
        },
{
    let ghost ok = |k: int|
        venue_accepted(hits@[k].venue@) && title_matches(hits@[k].title@, title@, threshold as int);
    let mut j: usize = 0;
    while j < hits.len()
        invariant
            0 <= j <= hits@.len(),
            ok == (|k: int|
                venue_accepted(hits@[k].venue@) && title_matches(
                    hits@[k].title@,
                    title@,
                    threshold as int,
                )),
            first_where(j as int, ok) == None::<int>,
        decreases hits@.len() - j,
    {
        if is_venue_accepted(&hits[j].venue) && is_title_match(
            hits[j].title.as_str(),
            title,
            threshold,
        ) {
            proof {
                lemma_first_where_extend(j + 1, hits@.len() as int, ok);
            }
            return Some(j);
        }
        j = j + 1;
    }
    None
}

// ---- one source, one record

/// The counters after a reconciliation from the preprint source.
pub open spec fn counted_arxiv(s: UpdateStats, r: ChangeReport) -> UpdateStats {
    UpdateStats {
        arxiv_updates: bump(s.arxiv_updates, r.changed()),
        new_publications: bump(s.new_publications, r.publication == PublicationChange::Added),
        ..s
    }
}

/// The counters after a reconciliation from the indexed source.
pub open spec fn counted_dblp(s: UpdateStats, r: ChangeReport) -> UpdateStats {
    UpdateStats {
        dblp_updates: bump(s.dblp_updates, r.changed()),
        new_publications: bump(s.new_publications, r.publication == PublicationChange::Added),
        ..s
    }
}

/// Reconciles `paper` with the preprint hits, in their order: the first hit
/// whose title reaches `threshold` hundredths is merged; none matching leaves
/// the record as it is.
pub fn update_paper_from_arxiv(
    paper: &mut Paper,
    hits: &Vec<ArxivHit>,
    threshold: u64,
    stats: &mut UpdateStats,
) -> (r: ChangeReport)
    ensures
        match first_arxiv(old(paper).title@, hits@, threshold as int) {
            Some(k) => (final(paper)@, r) == arxiv_merge(old(paper)@, hits@[k]),
            None => final(paper)@ == old(paper)@ && r == no_change(),
        },
        *final(stats) == counted_arxiv(*old(stats), r),
{
    let found = first_arxiv_match(paper.title.as_str(), hits, threshold);
    proof {
        lemma_first_where(
            hits@.len() as int,
            |k: int| title_matches(hits@[k].title@, old(paper).title@, threshold as int),
        );
    }
    let r = match found {
        Some(k) => apply_arxiv_hit(paper, &hits[k]),
        None => ChangeReport { authors_updated: false, publication: PublicationChange::Unchanged },
    };
    stats.arxiv_updates = bump_count(stats.arxiv_updates, r.changed());
    stats.new_publications = bump_count(
        stats.new_publications,
        matches!(r.publication, PublicationChange::Added),
    );
    r
}

/// Merges the chosen indexed hit, with the citation text fetched for it, into
/// `paper`, and counts the result.
pub fn update_paper_from_dblp(
    paper: &mut Paper,
    hit: &DblpHit,
    bibtex: Option<String>,
    stats: &mut UpdateStats,
) -> (r: ChangeReport)
    ensures
        (final(paper)@, r) == dblp_merge(old(paper)@, *hit, opt_view(bibtex)),
        *final(stats) == counted_dblp(*old(stats), r),
{
    let r = apply_dblp_hit(paper, hit, bibtex);
    stats.dblp_updates = bump_count(stats.dblp_updates, r.changed());
    stats.new_publications = bump_count(
        stats.new_publications,
        matches!(r.publication, PublicationChange::Added),
    );
    r
}

// ---- laws of the merge policy

/// A record whose author field is set keeps it, whatever hit is merged.
pub proof fn lemma_authors_never_overwritten(
    p: PaperV,
    a: ArxivHit,
    d: DblpHit,
    bibtex: Option<Seq<char>>,
)
    requires
        p.authors.is_some(),
    ensures
        arxiv_merge(p, a).0.authors == p.authors,
        dblp_merge(p, d, bibtex).0.authors == p.authors,
{
}

/// An indexed-hit merge keeps every publication in place and leaves each
/// populated `url`, `dblp_key` and `bibtex` field as it was.
pub proof fn lemma_populated_fields_kept(p: PaperV, d: DblpHit, bibtex: Option<Seq<char>>)
    ensures
        ({
            let old_pubs = p.publications;
            let new_pubs = dblp_merge(p, d, bibtex).0.publications;
            &&& new_pubs.len() >= old_pubs.len()
            &&& forall|i: int|
                0 <= i < old_pubs.len() ==> {
                    &&& (#[trigger] old_pubs[i]).name == new_pubs[i].name
                    &&& old_pubs[i].url.is_some() ==> new_pubs[i].url == old_pubs[i].url
                    &&& old_pubs[i].dblp_key.is_some() ==> new_pubs[i].dblp_key
                        == old_pubs[i].dblp_key
                    &&& old_pubs[i].bibtex.is_some() ==> new_pubs[i].bibtex == old_pubs[i].bibtex
                }
        }),
{
    lemma_find_key(p.publications, lower_of(d.venue@));
}

/// Merging either kind of hit keeps at most one publication per
/// case-insensitive venue name; after an indexed-hit merge the hit's venue has one.
pub proof fn lemma_venues_stay_unique(
    p: PaperV,
    a: ArxivHit,
    d: DblpHit,
    bibtex: Option<Seq<char>>,
)
    requires
        keys_unique(p.publications),
    ensures
        keys_unique(arxiv_merge(p, a).0.publications),
        keys_unique(dblp_merge(p, d, bibtex).0.publications),
        find_key(dblp_merge(p, d, bibtex).0.publications, lower_of(d.venue@)).is_some(),
{
    let old_pubs = p.publications;
    lemma_find_key(old_pubs, lower_of(arxiv_name()));
    lemma_find_key(old_pubs, lower_of(d.venue@));
    let na = arxiv_merge(p, a).0.publications;
    let nd = dblp_merge(p, d, bibtex).0.publications;
    assert forall|i: int, j: int| 0 <= i < j < na.len() implies lower_of(#[trigger] na[i].name)
        != lower_of(#[trigger] na[j].name) by {
        if j == old_pubs.len() {
            assert(lower_of(na[j].name) == lower_of(arxiv_name()));
            assert(na[i] == old_pubs[i]);
        }
    }
    assert forall|i: int, j: int| 0 <= i < j < nd.len() implies lower_of(#[trigger] nd[i].name)
        != lower_of(#[trigger] nd[j].name) by {
        if j == old_pubs.len() {
            assert(nd[j].name == d.venue@);
            assert(nd[i] == old_pubs[i]);
        }
    }
    lemma_find_key(nd, lower_of(d.venue@));
    match find_key(old_pubs, lower_of(d.venue@)) {
        Some(k) => assert(lower_of(nd[k].name) == lower_of(d.venue@)),
        None => assert(lower_of(nd[old_pubs.len() as int].name) == lower_of(d.venue@)),
    }
}

} // verus!
