//! Title normalization: symbol removal, lowercasing and whitespace collapsing.

use vstd::prelude::*;
use vstd::string::*;

verus! {

/// Whether `c` has the Unicode `White_Space` property, the set that
/// `char::is_whitespace` and `str::split_whitespace` use.
pub open spec fn is_ws(c: char) -> bool {
    let u = c as u32;
    (0x09 <= u <= 0x0d) || u == 0x20 || u == 0x85 || u == 0xa0 || u == 0x1680 || (0x2000 <= u
        <= 0x200a) || u == 0x2028 || u == 0x2029 || u == 0x202f || u == 0x205f || u == 0x3000
}

/// Executable form of `is_ws`.
pub fn is_whitespace_char(c: char) -> (r: bool)
    ensures
        r == is_ws(c),
{
    let u = c as u32;
    (0x09 <= u && u <= 0x0d) || u == 0x20 || u == 0x85 || u == 0xa0 || u == 0x1680 || (0x2000
        <= u && u <= 0x200a) || u == 0x2028 || u == 0x2029 || u == 0x202f || u == 0x205f || u
        == 0x3000
}

/// The maximal runs of non-whitespace characters of `s`, in order.
pub open spec fn words(s: Seq<char>) -> Seq<Seq<char>>
    decreases s.len(),
{
    if s.len() == 0 {
        seq![]
    } else {
        let w = words(s.drop_last());
        let c = s.last();
        if is_ws(c) {
            w
        } else if s.len() >= 2 && !is_ws(s[s.len() - 2]) {
            w.update(w.len() - 1, w.last().push(c))
        } else {
            w.push(seq![c])
        }
    }
}

/// The pieces of `ws` with `sep` between neighbours.
pub open spec fn join(ws: Seq<Seq<char>>, sep: Seq<char>) -> Seq<char>
    decreases ws.len(),
{
    if ws.len() == 0 {
        seq![]
    } else if ws.len() == 1 {
        ws[0]
    } else {
        join(ws.drop_last(), sep) + sep + ws.last()
    }
}

/// `s` with each run of whitespace turned into one space and the ends trimmed.
pub open spec fn collapse(s: Seq<char>) -> Seq<char> {
    join(words(s), seq![' '])
}

/// Whether `c` is kept by the symbol-removal step: a regex word character
/// (`\w`) or whitespace (`\s`), in Unicode mode.
pub uninterp spec fn word_or_space(c: char) -> bool;

/// What `str::to_lowercase` returns for `s`.
pub uninterp spec fn lower_of(s: Seq<char>) -> Seq<char>;

/// `s` without its characters that are neither word characters nor whitespace.
pub open spec fn strip_symbols_spec(s: Seq<char>) -> Seq<char> {
    s.filter(|c: char| word_or_space(c))
}

/// The canonical comparison form of a title.
pub open spec fn normalized(s: Seq<char>) -> Seq<char> {
    collapse(lower_of(strip_symbols_spec(s)))
}

/// Relies on regex's `Regex::replace_all` with the class `[^\w\s]` and an empty
/// replacement: every character outside the class is deleted, the rest kept in order.
#[verifier::external_body]
fn strip_symbols(s: &str) -> (r: String)
    ensures
        r@ == s@.filter(|c: char| word_or_space(c)),
{
    regex::Regex::new(r"[^\w\s]").unwrap().replace_all(s, "").into_owned()
}

/// Relies on `str::to_lowercase`: the result depends on the characters alone.
#[verifier::external_body]
pub(crate) fn lowercase(s: &str) -> (r: String)
    ensures
        r@ == lower_of(s@),
{
    s.to_lowercase()
}

/// Relies on `String::push`: appends one character.
#[verifier::external_body]
pub(crate) fn push_char(s: &mut String, c: char)
    ensures
        final(s)@ == old(s)@.push(c),
{
    s.push(c)
}

proof fn lemma_join_extend_last(ws: Seq<Seq<char>>, sep: Seq<char>, c: char)
    requires
        ws.len() > 0,
    ensures
        join(ws.update(ws.len() - 1, ws.last().push(c)), sep) == join(ws, sep).push(c),
{
    let u = ws.update(ws.len() - 1, ws.last().push(c));
    if ws.len() > 1 {
        assert(u.drop_last() =~= ws.drop_last());
        assert(join(u, sep) =~= join(ws, sep).push(c));
    }
}

pub proof fn lemma_join_push(ws: Seq<Seq<char>>, sep: Seq<char>, w: Seq<char>)
    ensures
        join(ws.push(w), sep) == if ws.len() == 0 {
            w
        } else {
            join(ws, sep) + sep + w
        },
{
    assert(ws.push(w).drop_last() =~= ws);
}

/// The words of a non-empty sequence are non-empty and free of whitespace.
pub proof fn lemma_words_clean(s: Seq<char>)
    ensures
        forall|k: int| 0 <= k < words(s).len() ==> #[trigger] words(s)[k].len() > 0,
        forall|k: int, j: int|
            0 <= k < words(s).len() && 0 <= j < words(s)[k].len() ==> !is_ws(
                #[trigger] words(s)[k][j],
            ),
        s.len() > 0 && !is_ws(s.last()) ==> words(s).len() > 0,
    decreases s.len(),
{
    if s.len() > 0 {
        lemma_words_clean(s.drop_last());
        let w = words(s.drop_last());
        if s.len() >= 2 && !is_ws(s[s.len() - 2]) {
            assert(s.drop_last().last() == s[s.len() - 2]);
        }
    }
}

/// Collapsing a sequence that holds a non-whitespace character leaves a word.
pub proof fn lemma_collapse_has_word(s: Seq<char>)
    ensures
        collapse(s).len() > 0 ==> words(collapse(s)).len() > 0,
{
    lemma_words_clean(s);
    if collapse(s).len() > 0 {
        let ws = words(s);
        assert(ws.len() > 0);
        lemma_join_last(ws, seq![' ']);
        lemma_words_clean(collapse(s));
    }
}

proof fn lemma_join_last(ws: Seq<Seq<char>>, sep: Seq<char>)
    requires
        ws.len() > 0,
        ws.last().len() > 0,
    ensures
        join(ws, sep).len() > 0,
        join(ws, sep).last() == ws.last().last(),
{
}

proof fn lemma_words_push_space(s: Seq<char>)
    ensures
        words(s.push(' ')) == words(s),
{
    assert(s.push(' ').drop_last() =~= s);
    assert(is_ws(' '));
}

/// Appending a clean word after whitespace (or to nothing) adds exactly that word.
proof fn lemma_words_append_word(s: Seq<char>, w: Seq<char>)
    requires
        s.len() == 0 || is_ws(s.last()),
        w.len() > 0,
        forall|j: int| 0 <= j < w.len() ==> !is_ws(#[trigger] w[j]),
    ensures
        words(s + w) == words(s).push(w),
    decreases w.len(),
{
    let t = s + w;
    assert(t.drop_last() =~= s + w.drop_last());
    if w.len() == 1 {
        assert(w.drop_last() =~= Seq::<char>::empty());
        assert(s + w.drop_last() =~= s);
        if t.len() >= 2 {
            assert(t[t.len() - 2] == s.last());
        }
        assert(seq![w.last()] =~= w);
    } else {
        lemma_words_append_word(s, w.drop_last());
        assert(t[t.len() - 2] == w[w.len() - 2]);
        assert(t.last() == w.last());
        assert(w.drop_last().push(w.last()) =~= w);
        assert(words(s).push(w.drop_last()).update(
            words(s).len() as int,
            w.drop_last().push(w.last()),
        ) =~= words(s).push(w));
    }
}

proof fn lemma_words_of_join(ws: Seq<Seq<char>>)
    requires
        forall|k: int| 0 <= k < ws.len() ==> #[trigger] ws[k].len() > 0,
        forall|k: int, j: int| 0 <= k < ws.len() && 0 <= j < ws[k].len() ==> !is_ws(#[trigger] ws[k][j]),
    ensures
        words(join(ws, seq![' '])) == ws,
    decreases ws.len(),
{
    if ws.len() == 0 {
        assert(words(Seq::<char>::empty()) =~= ws);
    } else {
        let w = ws.last();
        assert(forall|j: int| 0 <= j < w.len() ==> !is_ws(#[trigger] w[j])) by {
            assert forall|j: int| 0 <= j < w.len() implies !is_ws(#[trigger] w[j]) by {
                assert(ws[ws.len() - 1][j] == w[j]);
            }
        }
        if ws.len() == 1 {
            lemma_words_append_word(Seq::<char>::empty(), w);
            assert(Seq::<char>::empty() + w =~= w);
            assert(words(Seq::<char>::empty()).push(w) =~= ws);
        } else {
            let dl = ws.drop_last();
            lemma_words_of_join(dl);
            let front = join(dl, seq![' ']);
            lemma_words_push_space(front);
            assert(front + seq![' '] =~= front.push(' '));
            lemma_words_append_word(front.push(' '), w);
            assert(dl.push(w) =~= ws);
        }
    }
}

/// Collapsing whitespace twice gives what collapsing once gives.
pub proof fn lemma_collapse_idempotent(s: Seq<char>)
    ensures
        collapse(collapse(s)) == collapse(s),
{
    lemma_words_clean(s);
    lemma_words_of_join(words(s));
}

/// A normalized title is already in collapsed form.
pub proof fn lemma_normalized_is_collapsed(s: Seq<char>)
    ensures
        collapse(normalized(s)) == normalized(s),
{
    lemma_collapse_idempotent(lower_of(strip_symbols_spec(s)));
}

/// Collapses whitespace: the words of `s` joined by single spaces.
pub fn collapse_whitespace(s: &str) -> (r: String)
    ensures
        r@ == collapse(s@),
{
    let n = s.unicode_len();
    let mut out = String::new();
    let mut i: usize = 0;
    let mut prev_ws = true;
    let mut have_word = false;
    while i < n
        invariant
            n == s@.len(),
            0 <= i <= n,
            out@ == join(words(s@.subrange(0, i as int)), seq![' ']),
            prev_ws == (i == 0 || is_ws(s@[i - 1])),
            have_word == (words(s@.subrange(0, i as int)).len() > 0),
        decreases n - i,
    {
        let c = s.get_char(i);
        let ghost pre = s@.subrange(0, i as int);
        let ghost cur = s@.subrange(0, i + 1);
        proof {
            assert(cur.drop_last() =~= pre);
            lemma_words_clean(pre);
        }
        if is_whitespace_char(c) {
            prev_ws = true;
        } else if !prev_ws {
            proof {
                assert(cur[cur.len() - 2] == s@[i - 1]);
                lemma_join_extend_last(words(pre), seq![' '], c);
            }
            push_char(&mut out, c);
        } else {
            proof {
                lemma_join_push(words(pre), seq![' '], seq![c]);
                if i > 0 {
                    assert(cur[cur.len() - 2] == s@[i - 1]);
                }
            }
            if have_word {
                push_char(&mut out, ' ');
            }
            push_char(&mut out, c);
            proof {
                if words(pre).len() == 0 {
                    assert(out@ =~= seq![c]);
                } else {
                    assert(out@ =~= join(words(pre), seq![' ']) + seq![' '] + seq![c]);
                }
            }
            prev_ws = false;
            have_word = true;
        }
        i = i + 1;
    }
    proof {
        assert(s@.subrange(0, n as int) =~= s@);
    }
    out
}

/// The canonical comparison form of a title: symbols removed, lowercased,
/// whitespace collapsed.
pub fn normalize_title(title: &str) -> (r: String)
    ensures
        r@ == normalized(title@),
{
    let stripped = strip_symbols(title);
    let lowered = lowercase(stripped.as_str());
    collapse_whitespace(lowered.as_str())
}

} // verus!
