//! Title similarity: token-set overlap combined with edit distance.

use vstd::prelude::*;
use vstd::seq_lib::seq_to_set_is_finite;
use vstd::string::*;
use crate::text::{is_whitespace_char, is_ws, normalize_title, normalized, push_char, words};

verus! {

pub open spec fn min_nat(x: nat, y: nat) -> nat {
    if x <= y { x } else { y }
}

pub open spec fn max_nat(x: nat, y: nat) -> nat {
    if x >= y { x } else { y }
}

/// Levenshtein distance: the least number of single-character insertions,
/// deletions and substitutions that turn `a` into `b`.
pub open spec fn edit_distance(a: Seq<char>, b: Seq<char>) -> nat
    decreases a.len() + b.len(),
{
    if a.len() == 0 {
        b.len()
    } else if b.len() == 0 {
        a.len()
    } else {
        let del = edit_distance(a.drop_last(), b) + 1;
        let ins = edit_distance(a, b.drop_last()) + 1;
        let sub = edit_distance(a.drop_last(), b.drop_last()) + if a.last() == b.last() {
            0nat
        } else {
            1nat
        };
        min_nat(min_nat(del, ins), sub)
    }
}

pub proof fn lemma_edit_distance_symmetric(a: Seq<char>, b: Seq<char>)
    ensures
        edit_distance(a, b) == edit_distance(b, a),
    decreases a.len() + b.len(),
{
    if a.len() > 0 && b.len() > 0 {
        lemma_edit_distance_symmetric(a.drop_last(), b);
        lemma_edit_distance_symmetric(a, b.drop_last());
        lemma_edit_distance_symmetric(a.drop_last(), b.drop_last());
    }
}

pub proof fn lemma_edit_distance_self(a: Seq<char>)
    ensures
        edit_distance(a, a) == 0,
    decreases a.len(),
{
    if a.len() > 0 {
        lemma_edit_distance_self(a.drop_last());
    }
}

pub proof fn lemma_edit_distance_bounded(a: Seq<char>, b: Seq<char>)
    ensures
        edit_distance(a, b) <= max_nat(a.len(), b.len()),
    decreases a.len() + b.len(),
{
    if a.len() > 0 && b.len() > 0 {
        lemma_edit_distance_bounded(a.drop_last(), b.drop_last());
    }
}

/// Relies on levenshtein::levenshtein: the edit distance counted over characters.
#[verifier::external_body]
fn levenshtein_distance(a: &str, b: &str) -> (r: usize)
    ensures
        r == edit_distance(a@, b@),
{
    levenshtein::levenshtein(a, b)
}


/// The character sequences of a list of strings.
pub open spec fn views(v: Seq<String>) -> Seq<Seq<char>> {
    v.map_values(|x: String| x@)
}

proof fn lemma_words_len(s: Seq<char>)
    ensures
        words(s).len() <= s.len(),
    decreases s.len(),
{
    if s.len() > 0 {
        lemma_words_len(s.drop_last());
        crate::text::lemma_words_clean(s.drop_last());
        if s.len() >= 2 {
            assert(s.drop_last().last() == s[s.len() - 2]);
        }
    }
}

proof fn lemma_views_push(v: Seq<String>, x: String)
    ensures
        views(v.push(x)) == views(v).push(x@),
{
    assert(views(v.push(x)) =~= views(v).push(x@));
}

proof fn lemma_to_set_push(v: Seq<Seq<char>>, x: Seq<char>)
    ensures
        v.push(x).to_set() == v.to_set().insert(x),
{
    assert forall|y: Seq<char>| #[trigger] v.push(x).to_set().contains(y) == v.to_set().insert(
        x,
    ).contains(y) by {
        if v.push(x).contains(y) && y != x {
            let k = choose|k: int| 0 <= k < v.push(x).len() && v.push(x)[k] == y;
            assert(v[k] == y);
        }
        if v.contains(y) {
            let k = choose|k: int| 0 <= k < v.len() && v[k] == y;
            assert(v.push(x)[k] == y);
        }
        if y == x {
            assert(v.push(x)[v.len() as int] == y);
        }
    }
    assert(v.push(x).to_set() =~= v.to_set().insert(x));
}

/// Splits `s` into its whitespace-separated words.
pub fn split_words(s: &str) -> (r: Vec<String>)
    ensures
        views(r@) == words(s@),
{
    let n = s.unicode_len();
    let mut out: Vec<String> = Vec::new();
    let mut i: usize = 0;
    let mut prev_ws = true;
    while i < n
        invariant
            n == s@.len(),
            0 <= i <= n,
            views(out@) == words(s@.subrange(0, i as int)),
            prev_ws == (i == 0 || is_ws(s@[i - 1])),
        decreases n - i,
    {
        let c = s.get_char(i);
        let ghost pre = s@.subrange(0, i as int);
        let ghost cur = s@.subrange(0, i + 1);
        proof {
            assert(cur.drop_last() =~= pre);
            if i > 0 {
                assert(cur[cur.len() - 2] == s@[i - 1]);
            }
        }
        if is_whitespace_char(c) {
            prev_ws = true;
        } else if !prev_ws {
            proof {
                crate::text::lemma_words_clean(pre);
                assert(pre.last() == s@[i - 1]);
            }
            let ghost before = out@;
            let mut last = out.pop().unwrap();
            push_char(&mut last, c);
            out.push(last);
            proof {
                assert(views(out@) =~= views(before).update(
                    before.len() - 1,
                    views(before).last().push(c),
                ));
            }
        } else {
            let mut w = String::new();
            push_char(&mut w, c);
            proof {
                lemma_views_push(out@, w);
                assert(w@ =~= seq![c]);
            }
            out.push(w);
            prev_ws = false;
        }
        i = i + 1;
    }
    proof {
        assert(s@.subrange(0, n as int) =~= s@);
    }
    out
}

/// Whether some string of `v` spells `w`.
pub fn contains_word(v: &Vec<String>, w: &String) -> (r: bool)
    ensures
        r == views(v@).contains(w@),
{
    let mut j: usize = 0;
    while j < v.len()
        invariant
            0 <= j <= v@.len(),
            forall|k: int| 0 <= k < j ==> v@[k]@ != w@,
        decreases v@.len() - j,
    {
        if v[j] == *w {
            assert(views(v@)[j as int] == w@);
            return true;
        }
        j = j + 1;
    }
    proof {
        if views(v@).contains(w@) {
            let k = choose|k: int| 0 <= k < views(v@).len() && views(v@)[k] == w@;
            assert(v@[k]@ == w@);
        }
    }
    false
}

/// The strings of `ws` without repeats, first occurrences in order.
pub fn distinct_words(ws: &Vec<String>) -> (r: Vec<String>)
    ensures
        views(r@).no_duplicates(),
        views(r@).to_set() == views(ws@).to_set(),
        r@.len() <= ws@.len(),
{
    let mut out: Vec<String> = Vec::new();
    let mut i: usize = 0;
    while i < ws.len()
        invariant
            0 <= i <= ws@.len(),
            out@.len() <= i,
            views(out@).no_duplicates(),
            views(out@).to_set() == views(ws@.subrange(0, i as int)).to_set(),
        decreases ws@.len() - i,
    {
        let ghost pre = ws@.subrange(0, i as int);
        proof {
            assert(ws@.subrange(0, i + 1) =~= pre.push(ws@[i as int]));
            lemma_views_push(pre, ws@[i as int]);
            lemma_to_set_push(views(pre), ws@[i as int]@);
        }
        if !contains_word(&out, &ws[i]) {
            let w = ws[i].clone();
            let ghost before = out@;
            out.push(w);
            proof {
                lemma_views_push(before, w);
                lemma_to_set_push(views(before), w@);
                assert(views(out@).no_duplicates());
            }
        } else {
            proof {
                assert(views(out@).to_set().insert(ws@[i as int]@) =~= views(out@).to_set());
            }
        }
        i = i + 1;
    }
    proof {
        assert(ws@.subrange(0, ws@.len() as int) =~= ws@);
    }
    out
}

/// The distinct whitespace-separated tokens of `s`.
pub open spec fn token_set(s: Seq<char>) -> Set<Seq<char>> {
    words(s).to_set()
}

/// The four exact quantities a similarity score is built from, for two
/// already normalized titles: shared tokens, tokens in either, edit distance,
/// and the longer length.
pub open spec fn score_parts(a: Seq<char>, b: Seq<char>) -> (int, int, int, int) {
    (
        token_set(a).intersect(token_set(b)).len() as int,
        token_set(a).union(token_set(b)).len() as int,
        edit_distance(a, b) as int,
        max_nat(a.len(), b.len()) as int,
    )
}

/// The token-overlap ratio as numerator and denominator; zero when there are no tokens.
pub open spec fn jaccard_ratio(p: (int, int, int, int)) -> (int, int) {
    if p.1 == 0 { (0, 1) } else { (p.0, p.1) }
}

/// `1 - distance / longest` as numerator and denominator; zero when both are empty.
pub open spec fn edit_ratio(p: (int, int, int, int)) -> (int, int) {
    if p.3 == 0 { (0, 1) } else { (p.3 - p.2, p.3) }
}

/// Numerator of `0.7 * jaccard + 0.3 * edit similarity`.
pub open spec fn score_num(p: (int, int, int, int)) -> int {
    7 * jaccard_ratio(p).0 * edit_ratio(p).1 + 3 * edit_ratio(p).0 * jaccard_ratio(p).1
}

/// Denominator of `0.7 * jaccard + 0.3 * edit similarity`.
pub open spec fn score_den(p: (int, int, int, int)) -> int {
    10 * jaccard_ratio(p).1 * edit_ratio(p).1
}

/// Whether the score reaches `percent / 100`.
pub open spec fn meets(p: (int, int, int, int), percent: int) -> bool {
    100 * score_num(p) >= percent * score_den(p)
}

/// A similarity score, held as the exact parts it is computed from.
#[derive(Clone, Copy, Debug, PartialEq, Eq, Structural)]
pub struct Score {
    pub shared: usize,
    pub total: usize,
    pub distance: usize,
    pub longest: usize,
}

impl View for Score {
    type V = (int, int, int, int);

    open spec fn view(&self) -> (int, int, int, int) {
        (self.shared as int, self.total as int, self.distance as int, self.longest as int)
    }
}

impl Score {
    /// Parts in range: no more shared tokens than tokens, no larger distance than length.
    pub open spec fn wf(&self) -> bool {
        self.shared <= self.total && self.distance <= self.longest
    }

    /// Whether this score is at least `percent` hundredths.
    pub fn meets_percent(&self, percent: u64) -> (r: bool)
        requires
            self.wf(),
        ensures
            r == meets(self@, percent as int),
    {
        let jn: u128 = if self.total == 0 { 0 } else { self.shared as u128 };
        let jd: u128 = if self.total == 0 { 1 } else { self.total as u128 };
        let en: u128 = if self.longest == 0 { 0 } else { (self.longest - self.distance) as u128 };
        let ed: u128 = if self.longest == 0 { 1 } else { self.longest as u128 };
        let x: u128 = 70 * jn;
        let y: u128 = 30 * en;
        let qx: u128 = x / jd;
        let rx: u128 = x % jd;
        let qy: u128 = y / ed;
        let ry: u128 = y % ed;
        proof {
            vstd::arithmetic::div_mod::lemma_fundamental_div_mod(x as int, jd as int);
            vstd::arithmetic::div_mod::lemma_fundamental_div_mod(y as int, ed as int);
            assert(jd * qx == qx * jd && ed * qy == qy * ed) by (nonlinear_arith);
            lemma_threshold_split(
                x as int,
                y as int,
                jd as int,
                ed as int,
                percent as int,
                qx as int,
                rx as int,
                qy as int,
                ry as int,
            );
            assert(qx <= 70) by (nonlinear_arith)
                requires
                    x == qx * jd + rx,
                    x <= 70 * jd,
                    rx >= 0,
                    jd > 0,
            ;
            assert(qy <= 30) by (nonlinear_arith)
                requires
                    y == qy * ed + ry,
                    y <= 30 * ed,
                    ry >= 0,
                    ed > 0,
            ;
            assert(rx * ed < 0x1_0000_0000_0000_0000_0000_0000_0000_0000) by (nonlinear_arith)
                requires
                    rx < jd,
                    jd <= 0xffff_ffff_ffff_ffff,
                    ed <= 0xffff_ffff_ffff_ffff,
            ;
            assert((ed - ry) * jd < 0x1_0000_0000_0000_0000_0000_0000_0000_0000)
                by (nonlinear_arith)
                requires
                    ry < ed,
                    jd <= 0xffff_ffff_ffff_ffff,
                    ed <= 0xffff_ffff_ffff_ffff,
            ;
            assert(jaccard_ratio(self@) == (jn as int, jd as int));
            assert(edit_ratio(self@) == (en as int, ed as int));
            assert(x * ed + y * jd == 10 * (7 * jn * ed + 3 * en * jd)) by (nonlinear_arith)
                requires
                    x == 70 * jn,
                    y == 30 * en,
            ;
            assert(x * ed + y * jd == 10 * score_num(self@));
            assert(percent * jd * ed * 10 == percent * score_den(self@)) by (nonlinear_arith)
                requires
                    score_den(self@) == 10 * jd * ed,
            ;
        }
        let s: u128 = qx + qy;
        let p: u128 = percent as u128;
        if s >= p {
            true
        } else if s + 1 == p {
            rx * ed >= (ed - ry) * jd
        } else {
            false
        }
    }

    /// Whether the score is exactly one.
    pub open spec fn is_one(&self) -> bool {
        score_num(self@) == score_den(self@)
    }
}

proof fn lemma_threshold_split(
    x: int,
    y: int,
    jd: int,
    ed: int,
    p: int,
    qx: int,
    rx: int,
    qy: int,
    ry: int,
)
    requires
        jd > 0,
        ed > 0,
        x == qx * jd + rx,
        0 <= rx < jd,
        y == qy * ed + ry,
        0 <= ry < ed,
    ensures
        (x * ed + y * jd >= p * jd * ed) == (qx + qy >= p || (qx + qy + 1 == p && rx * ed >= (ed
            - ry) * jd)),
{
    let k = qx + qy - p;
    assert(x * ed + y * jd - p * jd * ed == k * (jd * ed) + rx * ed + ry * jd)
        by (nonlinear_arith)
        requires
            x == qx * jd + rx,
            y == qy * ed + ry,
            k == qx + qy - p,
    ;
    assert(0 <= rx * ed < jd * ed) by (nonlinear_arith)
        requires
            0 <= rx < jd,
            ed > 0,
    ;
    assert(0 <= ry * jd < ed * jd) by (nonlinear_arith)
        requires
            0 <= ry < ed,
            jd > 0,
    ;
    assert(jd * ed == ed * jd) by (nonlinear_arith);
    assert(jd * ed > 0) by (nonlinear_arith)
        requires
            jd > 0,
            ed > 0,
    ;
    let t = x * ed + y * jd - p * jd * ed;
    assert(p * jd * ed == p * (jd * ed)) by (nonlinear_arith);
    if k >= 0 {
        assert(k * (jd * ed) >= 0) by (nonlinear_arith)
            requires
                k >= 0,
                jd * ed > 0,
        ;
        assert(t >= 0);
    } else if k == -1 {
        assert(k * (jd * ed) == -(jd * ed)) by (nonlinear_arith)
            requires
                k == -1,
        ;
        assert((ed - ry) * jd == ed * jd - ry * jd) by (nonlinear_arith);
        assert((t >= 0) == (rx * ed >= (ed - ry) * jd));
    } else {
        assert(k * (jd * ed) <= -2 * (jd * ed)) by (nonlinear_arith)
            requires
                k <= -2,
                jd * ed > 0,
        ;
        assert(t < 0);
    }
}

proof fn lemma_fresh_in_prefix(v: Seq<Seq<char>>, k: int)
    requires
        v.no_duplicates(),
        0 <= k < v.len(),
    ensures
        !v.subrange(0, k).to_set().contains(v[k]),
        v.subrange(0, k + 1) == v.subrange(0, k).push(v[k]),
{
    assert(v.subrange(0, k + 1) =~= v.subrange(0, k).push(v[k]));
    if v.subrange(0, k).contains(v[k]) {
        let j = choose|j: int| 0 <= j < k && v.subrange(0, k)[j] == v[k];
        assert(v[j] == v[k]);
    }
}

/// The similarity of two already normalized titles.
pub fn similarity_of_normalized(a: &str, b: &str) -> (r: Score)
    requires
        a@.len() + b@.len() <= usize::MAX,
    ensures
        r@ == score_parts(a@, b@),
        r.wf(),
{
    let wa = split_words(a);
    let wb = split_words(b);
    let da = distinct_words(&wa);
    let db = distinct_words(&wb);
    let ghost va = views(da@);
    let ghost vb = views(db@);
    let ghost big_a = va.to_set();
    let ghost big_b = vb.to_set();
    proof {
        lemma_words_len(a@);
        lemma_words_len(b@);
        assert(views(wa@).len() == wa@.len());
        assert(va.len() == da@.len());
        assert(vb.len() == db@.len());
        seq_to_set_is_finite(va);
        seq_to_set_is_finite(vb);
        va.unique_seq_to_set();
        assert(va.subrange(0, 0).to_set() =~= Set::<Seq<char>>::empty());
        assert(vb.subrange(0, 0).to_set() =~= Set::<Seq<char>>::empty());
    }
    let mut shared: usize = 0;
    let ghost mut acc: Set<Seq<char>> = Set::empty();
    let mut k: usize = 0;
    while k < da.len()
        invariant
            0 <= k <= da@.len(),
            va == views(da@),
            vb == views(db@),
            big_b == vb.to_set(),
            va.no_duplicates(),
            acc.finite(),
            acc.len() == shared,
            shared <= k,
            acc == va.subrange(0, k as int).to_set().intersect(big_b),
        decreases da@.len() - k,
    {
        proof {
            lemma_fresh_in_prefix(va, k as int);
            lemma_to_set_push(va.subrange(0, k as int), va[k as int]);
        }
        if contains_word(&db, &da[k]) {
            shared = shared + 1;
            proof {
                acc = acc.insert(va[k as int]);
            }
        }
        proof {
            assert(acc =~= va.subrange(0, k + 1).to_set().intersect(big_b));
        }
        k = k + 1;
    }
    let mut total: usize = da.len();
    let ghost mut acc2: Set<Seq<char>> = big_a;
    let mut k: usize = 0;
    while k < db.len()
        invariant
            0 <= k <= db@.len(),
            va == views(da@),
            vb == views(db@),
            big_a == va.to_set(),
            vb.no_duplicates(),
            acc2.finite(),
            acc2.len() == total,
            total <= da@.len() + k,
            da@.len() <= total,
            shared <= da@.len(),
            da@.len() + db@.len() <= usize::MAX,
            acc2 == big_a.union(vb.subrange(0, k as int).to_set()),
        decreases db@.len() - k,
    {
        proof {
            lemma_fresh_in_prefix(vb, k as int);
            lemma_to_set_push(vb.subrange(0, k as int), vb[k as int]);
        }
        if !contains_word(&da, &db[k]) {
            total = total + 1;
            proof {
                acc2 = acc2.insert(vb[k as int]);
            }
        }
        proof {
            assert(acc2 =~= big_a.union(vb.subrange(0, k + 1).to_set()));
        }
        k = k + 1;
    }
    proof {
        assert(va.subrange(0, va.len() as int) =~= va);
        assert(vb.subrange(0, vb.len() as int) =~= vb);
        lemma_edit_distance_bounded(a@, b@);
    }
    let distance = levenshtein_distance(a, b);
    let la = a.unicode_len();
    let lb = b.unicode_len();
    let longest = if la >= lb { la } else { lb };
    Score { shared, total, distance, longest }
}

/// Whether two normalized titles are short enough for their score to be computed
/// in machine integers.
pub open spec fn fits(a: Seq<char>, b: Seq<char>) -> bool {
    a.len() + b.len() <= usize::MAX
}

/// The similarity of two raw titles: both are normalized, then compared.
/// `None` only when the normalized titles are too long to count together.
pub fn similarity_score(s1: &str, s2: &str) -> (r: Option<Score>)
    ensures
        fits(normalized(s1@), normalized(s2@)) ==> r.is_some() && r.unwrap()@ == score_parts(
            normalized(s1@),
            normalized(s2@),
        ) && r.unwrap().wf(),
        !fits(normalized(s1@), normalized(s2@)) ==> r.is_none(),
{
    let norm1 = normalize_title(s1);
    let norm2 = normalize_title(s2);
    let l1 = norm1.as_str().unicode_len();
    let l2 = norm2.as_str().unicode_len();
    if l1 > usize::MAX - l2 {
        None
    } else {
        Some(similarity_of_normalized(norm1.as_str(), norm2.as_str()))
    }
}

/// The score of two titles does not depend on their order.
pub proof fn lemma_score_symmetric(a: Seq<char>, b: Seq<char>)
    ensures
        score_parts(normalized(a), normalized(b)) == score_parts(normalized(b), normalized(a)),
        fits(normalized(a), normalized(b)) == fits(normalized(b), normalized(a)),
{
    let na = normalized(a);
    let nb = normalized(b);
    lemma_edit_distance_symmetric(na, nb);
    assert(token_set(na).intersect(token_set(nb)) =~= token_set(nb).intersect(token_set(na)));
    assert(token_set(na).union(token_set(nb)) =~= token_set(nb).union(token_set(na)));
}

/// Two equal titles that keep some text after normalization score exactly one.
pub proof fn lemma_score_identical(a: Seq<char>)
    requires
        normalized(a).len() > 0,
    ensures
        score_num(score_parts(normalized(a), normalized(a))) == score_den(
            score_parts(normalized(a), normalized(a)),
        ),
        score_num(score_parts(normalized(a), normalized(a))) > 0,
{
    let na = normalized(a);
    let p = score_parts(na, na);
    lemma_edit_distance_self(na);
    crate::text::lemma_collapse_has_word(crate::text::lower_of(crate::text::strip_symbols_spec(a)));
    let t = token_set(na);
    assert(t.intersect(t) =~= t);
    assert(t.union(t) =~= t);
    assert(t.contains(words(na)[0]));
    seq_to_set_is_finite(words(na));
    vstd::set_lib::lemma_set_empty_equivalency_len(t);
    assert(p.1 > 0);
    assert(p.0 == p.1);
    assert(p.2 == 0);
    assert(score_num(p) == 7 * p.1 * p.3 + 3 * p.3 * p.1);
    assert(score_num(p) == score_den(p)) by (nonlinear_arith)
        requires
            score_num(p) == 7 * p.1 * p.3 + 3 * p.3 * p.1,
            score_den(p) == 10 * p.1 * p.3,
    ;
    assert(score_num(p) > 0) by (nonlinear_arith)
        requires
            score_num(p) == 7 * p.1 * p.3 + 3 * p.3 * p.1,
            p.1 > 0,
            p.3 > 0,
    ;
}

/// Two titles that both normalize to nothing score zero.
pub proof fn lemma_score_empty(a: Seq<char>, b: Seq<char>)
    requires
        normalized(a).len() == 0,
        normalized(b).len() == 0,
    ensures
        score_num(score_parts(normalized(a), normalized(b))) == 0,
{
    let na = normalized(a);
    let nb = normalized(b);
    assert(words(na) =~= Seq::<Seq<char>>::empty());
    assert(words(nb) =~= Seq::<Seq<char>>::empty());
    assert(token_set(na) =~= Set::<Seq<char>>::empty());
    assert(token_set(nb) =~= Set::<Seq<char>>::empty());
    assert(token_set(na).union(token_set(nb)) =~= Set::<Seq<char>>::empty());
}

} // verus!
