//! Reduction of an author list to its surnames.

use vstd::prelude::*;
use vstd::string::*;
use crate::similarity::{split_words, views};
use crate::text::{join, lemma_join_push, push_char, words};

verus! {

/// Whether `c` separates two authors.
pub open spec fn is_delim(c: char) -> bool {
    c == ',' || c == ';' || c == '&'
}

/// The pieces of `s` between separators, empty pieces included, as `str::split` gives them.
pub open spec fn segments(s: Seq<char>) -> Seq<Seq<char>>
    decreases s.len(),
{
    if s.len() == 0 {
        seq![seq![]]
    } else {
        let p = segments(s.drop_last());
        if is_delim(s.last()) {
            p.push(seq![])
        } else {
            p.update(p.len() - 1, p.last().push(s.last()))
        }
    }
}

/// Whether `c` has the Unicode `Alphabetic` property.
pub uninterp spec fn alphabetic(c: char) -> bool;

/// `w` without its leading non-alphabetic characters.
pub open spec fn strip_front(w: Seq<char>) -> Seq<char>
    decreases w.len(),
{
    if w.len() > 0 && !alphabetic(w[0]) {
        strip_front(w.drop_first())
    } else {
        w
    }
}

/// `w` without its trailing non-alphabetic characters.
pub open spec fn strip_back(w: Seq<char>) -> Seq<char>
    decreases w.len(),
{
    if w.len() > 0 && !alphabetic(w.last()) {
        strip_back(w.drop_last())
    } else {
        w
    }
}

/// The surname of one author entry: its last word, trimmed of non-letters at both ends.
pub open spec fn surname(seg: Seq<char>) -> Seq<char> {
    if words(seg).len() == 0 {
        seq![]
    } else {
        strip_back(strip_front(words(seg).last()))
    }
}

/// The non-empty surnames of the entries of a segment list, in order.
pub open spec fn surnames(segs: Seq<Seq<char>>) -> Seq<Seq<char>> {
    segs.map_values(|g: Seq<char>| surname(g)).filter(|n: Seq<char>| n.len() > 0)
}

/// The canonical author field for a raw author list.
pub open spec fn last_names(s: Seq<char>) -> Seq<char> {
    join(surnames(segments(s)), seq![',', ' '])
}

/// Relies on `char::is_alphabetic`.
#[verifier::external_body]
fn is_alpha(c: char) -> (r: bool)
    ensures
        r == alphabetic(c),
{
    c.is_alphabetic()
}

/// The surname of one author entry.
pub fn surname_of(seg: &str) -> (r: String)
    ensures
        r@ == surname(seg@),
{
    let ws = split_words(seg);
    if ws.len() == 0 {
        return String::new();
    }
    proof {
        assert(views(ws@).last() == ws@.last()@);
    }
    let w = ws[ws.len() - 1].as_str();
    let n = w.unicode_len();
    let mut i: usize = 0;
    proof {
        assert(w@.subrange(0, n as int) =~= w@);
    }
    while i < n && !is_alpha(w.get_char(i))
        invariant
            n == w@.len(),
            0 <= i <= n,
            strip_front(w@) == strip_front(w@.subrange(i as int, n as int)),
        decreases n - i,
    {
        proof {
            assert(w@.subrange(i as int, n as int).drop_first() =~= w@.subrange(i + 1, n as int));
        }
        i = i + 1;
    }
    proof {
        if i == n {
            assert(w@.subrange(i as int, n as int).len() == 0);
        } else {
            assert(w@.subrange(i as int, n as int)[0] == w@[i as int]);
        }
    }
    let mut j: usize = n;
    while j > i && !is_alpha(w.get_char(j - 1))
        invariant
            n == w@.len(),
            0 <= i <= j <= n,
            strip_back(w@.subrange(i as int, n as int)) == strip_back(
                w@.subrange(i as int, j as int),
            ),
        decreases j,
    {
        proof {
            assert(w@.subrange(i as int, j as int).drop_last() =~= w@.subrange(
                i as int,
                j - 1,
            ));
        }
        j = j - 1;
    }
    proof {
        if j > i {
            assert(w@.subrange(i as int, j as int).last() == w@[j - 1]);
        }
    }
    String::from_str(w.substring_char(i, j))
}

proof fn lemma_surnames_push(segs: Seq<Seq<char>>, g: Seq<char>)
    ensures
        surnames(segs.push(g)) == if surname(g).len() > 0 {
            surnames(segs).push(surname(g))
        } else {
            surnames(segs)
        },
{
    let f = |g: Seq<char>| surname(g);
    let p = |n: Seq<char>| n.len() > 0;
    assert(segs.push(g).map_values(f) =~= segs.map_values(f).push(surname(g)));
    segs.map_values(f).lemma_filter_push(surname(g), p);
}

/// Appends `name` to `out` as the next entry of a `", "`-separated list.
fn append_surname(
    out: &mut String,
    have_any: bool,
    done: Ghost<Seq<Seq<char>>>,
    g: &String,
) -> (r: bool)
    requires
        old(out)@ == join(surnames(done@), seq![',', ' ']),
        have_any == (surnames(done@).len() > 0),
    ensures
        final(out)@ == join(surnames(done@.push(g@)), seq![',', ' ']),
        r == (surnames(done@.push(g@)).len() > 0),
{
    let name = surname_of(g.as_str());
    proof {
        lemma_surnames_push(done@, g@);
        lemma_join_push(surnames(done@), seq![',', ' '], name@);
    }
    if name.as_str().unicode_len() > 0 {
        let ghost before = out@;
        if have_any {
            out.append(", ");
            proof {
                reveal_strlit(", ");
                assert(out@ =~= before + seq![',', ' ']);
            }
        }
        out.append(name.as_str());
        true
    } else {
        have_any
    }
}

/// Reduces an author list (entries separated by `,`, `;` or `&`) to the
/// surnames of its entries, joined by `", "`.
pub fn extract_authors_last_names(authors_text: &str) -> (r: String)
    ensures
        r@ == last_names(authors_text@),
{
    let n = authors_text.unicode_len();
    let mut out = String::new();
    let mut seg = String::new();
    let mut have_any = false;
    let mut i: usize = 0;
    proof {
        assert(authors_text@.subrange(0, 0) =~= Seq::<char>::empty());
        assert(segments(Seq::<char>::empty()).drop_last() =~= Seq::<Seq<char>>::empty());
        assert(surnames(Seq::<Seq<char>>::empty()) =~= Seq::<Seq<char>>::empty());
    }
    while i < n
        invariant
            n == authors_text@.len(),
            0 <= i <= n,
            segments(authors_text@.subrange(0, i as int)).len() > 0,
            seg@ == segments(authors_text@.subrange(0, i as int)).last(),
            out@ == join(
                surnames(segments(authors_text@.subrange(0, i as int)).drop_last()),
                seq![',', ' '],
            ),
            have_any == (surnames(segments(authors_text@.subrange(0, i as int)).drop_last()).len()
                > 0),
        decreases n - i,
    {
        let c = authors_text.get_char(i);
        let ghost pre = authors_text@.subrange(0, i as int);
        let ghost cur = authors_text@.subrange(0, i + 1);
        let ghost sp = segments(pre);
        proof {
            assert(cur.drop_last() =~= pre);
            assert(sp.drop_last().push(sp.last()) =~= sp);
        }
        if c == ',' || c == ';' || c == '&' {
            have_any = append_surname(&mut out, have_any, Ghost(sp.drop_last()), &seg);
            seg = String::new();
            proof {
                assert(segments(cur) == sp.push(seq![]));
                assert(sp.push(seq![]).drop_last() =~= sp);
            }
        } else {
            push_char(&mut seg, c);
            proof {
                assert(segments(cur).drop_last() =~= sp.drop_last());
            }
        }
        i = i + 1;
    }
    let ghost all = segments(authors_text@);
    proof {
        assert(authors_text@.subrange(0, n as int) =~= authors_text@);
        assert(all.drop_last().push(all.last()) =~= all);
    }
    append_surname(&mut out, have_any, Ghost(all.drop_last()), &seg);
    out
}

} // verus!
