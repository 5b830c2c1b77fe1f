use vstd::prelude::*;
use crate::text::{is_sep, is_ws, is_sep_char, is_ws_char, str_chars, chars_to_string};
use vstd::slice::slice_to_vec;

verus! {

// ---------------------------------------------------------------------------
// Trimming whitespace from the edges of a fragment
// ---------------------------------------------------------------------------

/// `w` with its leading whitespace characters removed.
pub open spec fn trim_start_ws(w: Seq<char>) -> Seq<char>
    decreases w.len(),
{
    if w.len() == 0 {
        w
    } else if is_ws(w[0]) {
        trim_start_ws(w.drop_first())
    } else {
        w
    }
}

/// `w` with its trailing whitespace characters removed.
pub open spec fn trim_end_ws(w: Seq<char>) -> Seq<char>
    decreases w.len(),
{
    if w.len() == 0 {
        w
    } else if is_ws(w.last()) {
        trim_end_ws(w.drop_last())
    } else {
        w
    }
}

/// `w` with whitespace removed from both edges.
pub open spec fn trim_ws(w: Seq<char>) -> Seq<char> {
    trim_end_ws(trim_start_ws(w))
}

pub proof fn lemma_trim_start_skip(w: Seq<char>, j: int)
    requires
        0 <= j <= w.len(),
        forall|i: int| 0 <= i < j ==> is_ws(#[trigger] w[i]),
        j < w.len() ==> !is_ws(w[j]),
    ensures
        trim_start_ws(w) == w.skip(j),
    decreases j,
{
    if j == 0 {
        assert(w.skip(0) =~= w);
    } else {
        lemma_trim_start_skip(w.drop_first(), j - 1);
        assert(w.drop_first().skip(j - 1) =~= w.skip(j));
    }
}

pub proof fn lemma_trim_end_take(w: Seq<char>, k: int)
    requires
        0 <= k <= w.len(),
        forall|i: int| k <= i < w.len() ==> is_ws(#[trigger] w[i]),
        k > 0 ==> !is_ws(w[k - 1]),
    ensures
        trim_end_ws(w) == w.take(k),
    decreases w.len(),
{
    if k == w.len() {
        assert(w.take(k) =~= w);
    } else {
        lemma_trim_end_take(w.drop_last(), k);
        assert(w.drop_last().take(k) =~= w.take(k));
    }
}

/// Trimming keeps only characters of `w`, in place: the result is a
/// contiguous piece of `w` whose edges are not whitespace.
pub proof fn lemma_trim_ws_props(w: Seq<char>)
    ensures
        trim_ws(w).len() <= w.len(),
        trim_ws(w).len() > 0 ==> !is_ws(trim_ws(w)[0]),
        trim_ws(w).len() > 0 ==> !is_ws(trim_ws(w).last()),
        forall|i: int|
            0 <= i < trim_ws(w).len() ==> exists|j: int|
                0 <= j < w.len() && #[trigger] trim_ws(w)[i] == w[j],
{
    lemma_trim_start_props(w);
    lemma_trim_end_props(trim_start_ws(w));
    let ts = trim_start_ws(w);
    let tw = trim_ws(w);
    assert forall|i: int| 0 <= i < tw.len() implies exists|j: int|
        0 <= j < w.len() && #[trigger] tw[i] == w[j] by {
        assert(tw[i] == ts[i]);
        assert(ts[i] == w[i + w.len() - ts.len()]);
    }
}

/// A fragment whose edges already carry no whitespace is its own trim.
pub proof fn lemma_trim_ws_noop(w: Seq<char>)
    requires
        w.len() > 0 ==> !is_ws(w[0]) && !is_ws(w.last()),
    ensures
        trim_ws(w) == w,
{
}

pub proof fn lemma_trim_start_props(w: Seq<char>)
    ensures
        trim_start_ws(w).len() <= w.len(),
        trim_start_ws(w).len() > 0 ==> !is_ws(trim_start_ws(w)[0]),
        forall|i: int|
            0 <= i < trim_start_ws(w).len() ==> #[trigger] trim_start_ws(w)[i] == w[i + w.len()
                - trim_start_ws(w).len()],
    decreases w.len(),
{
    if w.len() == 0 {
    } else if is_ws(w[0]) {
        lemma_trim_start_props(w.drop_first());
    } else {
    }
}

pub proof fn lemma_trim_end_props(w: Seq<char>)
    ensures
        trim_end_ws(w).len() <= w.len(),
        trim_end_ws(w).len() > 0 ==> !is_ws(trim_end_ws(w).last()),
        forall|i: int| 0 <= i < trim_end_ws(w).len() ==> #[trigger] trim_end_ws(w)[i] == w[i],
    decreases w.len(),
{
    if w.len() == 0 {
    } else if is_ws(w.last()) {
        lemma_trim_end_props(w.drop_last());
    } else {
    }
}

/// The trim of a character vector, as an owned vector.
pub fn trim_vec(w: &Vec<char>) -> (r: Vec<char>)
    ensures
        r@ == trim_ws(w@),
{
    let n = w.len();
    let mut lo: usize = 0;
    while lo < n && is_ws_char(w[lo])
        invariant
            lo <= n,
            n == w@.len(),
            forall|i: int| 0 <= i < lo ==> is_ws(#[trigger] w@[i]),
        decreases n - lo,
    {
        lo = lo + 1;
    }
    proof {
        lemma_trim_start_skip(w@, lo as int);
    }
    let mut hi: usize = n;
    while hi > lo && is_ws_char(w[hi - 1])
        invariant
            lo <= hi <= n,
            n == w@.len(),
            forall|i: int| hi <= i < n ==> is_ws(#[trigger] w@[i]),
        decreases hi,
    {
        hi = hi - 1;
    }
    proof {
        let ts = w@.skip(lo as int);
        assert(forall|i: int|
            hi - lo <= i < ts.len() ==> is_ws(#[trigger] ts[i]) && ts[i] == w@[i + lo]);
        lemma_trim_end_take(ts, hi - lo);
    }
    let mut r: Vec<char> = Vec::new();
    let mut i: usize = lo;
    while i < hi
        invariant
            lo <= i <= hi <= n,
            n == w@.len(),
            r@ == w@.subrange(lo as int, i as int),
        decreases hi - i,
    {
        let c = w[i];
        r.push(c);
        proof {
            assert(w@.subrange(lo as int, i + 1) =~= w@.subrange(lo as int, i as int).push(
                w@[i as int],
            ));
        }
        i = i + 1;
    }
    proof {
        assert(r@ =~= w@.skip(lo as int).take(hi - lo));
    }
    r
}

// ---------------------------------------------------------------------------
// Splitting text into words
// ---------------------------------------------------------------------------

/// The words that a finished fragment contributes: its trim if that is
/// non-empty, and nothing otherwise.
pub open spec fn emit_word(cur: Seq<char>) -> Seq<Seq<char>> {
    if trim_ws(cur).len() == 0 {
        Seq::empty()
    } else {
        seq![trim_ws(cur)]
    }
}

/// The words of `s` under the separator set `extras`, scanning left to
/// right with `cur` the fragment gathered so far: maximal runs of
/// non-separator characters, each trimmed of edge whitespace, empty
/// fragments discarded.
pub open spec fn words_rec(s: Seq<char>, extras: Seq<char>, cur: Seq<char>) -> Seq<Seq<char>>
    decreases s.len(),
{
    if s.len() == 0 {
        emit_word(cur)
    } else if is_sep(s[0], extras) {
        emit_word(cur) + words_rec(s.drop_first(), extras, Seq::empty())
    } else {
        words_rec(s.drop_first(), extras, cur.push(s[0]))
    }
}

/// The words of the text `s`: maximal non-empty runs of non-separator
/// characters, trimmed of edge whitespace, in left-to-right order.
pub open spec fn words_of(s: Seq<char>, extras: Seq<char>) -> Seq<Seq<char>> {
    words_rec(s, extras, Seq::empty())
}

/// Split `cadena` into words on the base separators together with the
/// characters of `extras`.
pub fn iter_words_ext(cadena: &str, extras: &[char]) -> (r: Vec<String>)
    ensures
        r.deep_view() == words_of(cadena@, extras@),
{
    let chars = str_chars(cadena);
    let ex: Vec<char> = slice_to_vec(extras);
    let mut out: Vec<String> = Vec::new();
    let mut cur: Vec<char> = Vec::new();
    let n = chars.len();
    let mut i: usize = 0;
    proof {
        assert(chars@.skip(0) =~= chars@);
        assert(out.deep_view() =~= Seq::<Seq<char>>::empty());
        assert(Seq::<Seq<char>>::empty() + words_rec(cadena@, extras@, Seq::empty())
            =~= words_of(cadena@, extras@));
    }
    while i < n
        invariant
            chars@ == cadena@,
            ex@ == extras@,
            i <= n,
            n == chars@.len(),
            words_of(cadena@, extras@) == out.deep_view() + words_rec(
                chars@.skip(i as int),
                extras@,
                cur@,
            ),
        decreases n - i,
    {
        let c = chars[i];
        proof {
            assert(chars@.skip(i as int)[0] == c);
            assert(chars@.skip(i as int).drop_first() =~= chars@.skip(i + 1));
        }
        if is_sep_char(c, &ex) {
            let ghost old_out = out.deep_view();
            let ghost old_cur = cur@;
            let t = trim_vec(&cur);
            if t.len() > 0 {
                let w = chars_to_string(&t);
                out.push(w);
                proof {
                    assert(out.deep_view() =~= old_out.push(trim_ws(old_cur)));
                    assert(old_out.push(trim_ws(old_cur)) =~= old_out + emit_word(old_cur));
                }
            } else {
                proof {
                    assert(old_out =~= old_out + emit_word(old_cur));
                }
            }
            cur = Vec::new();
            proof {
                assert((out.deep_view() + words_rec(chars@.skip(i + 1), extras@, cur@)) =~= old_out
                    + (emit_word(old_cur) + words_rec(chars@.skip(i + 1), extras@, Seq::empty())));
            }
        } else {
            cur.push(c);
        }
        i = i + 1;
    }
    proof {
        assert(chars@.skip(n as int) =~= Seq::<char>::empty());
    }
    let ghost old_out = out.deep_view();
    let ghost old_cur = cur@;
    let t = trim_vec(&cur);
    if t.len() > 0 {
        let w = chars_to_string(&t);
        out.push(w);
        proof {
            assert(out.deep_view() =~= old_out.push(trim_ws(old_cur)));
            assert(old_out.push(trim_ws(old_cur)) =~= old_out + emit_word(old_cur));
        }
    } else {
        proof {
            assert(out.deep_view() =~= old_out + emit_word(old_cur));
        }
    }
    out
}

/// Split `cadena` into words on the base separators alone.
pub fn iter_words(cadena: &str) -> (r: Vec<String>)
    ensures
        r.deep_view() == words_of(cadena@, Seq::empty()),
{
    let ex: Vec<char> = Vec::new();
    let r = iter_words_ext(cadena, ex.as_slice());
    r
}

// ---------------------------------------------------------------------------
// What every produced word looks like
// ---------------------------------------------------------------------------

/// A word as the splitter produces it: non-empty, whitespace-free at both
/// edges, and free of separator characters throughout.
pub open spec fn plain_word(w: Seq<char>, extras: Seq<char>) -> bool {
    &&& w.len() > 0
    &&& !is_ws(w[0])
    &&& !is_ws(w.last())
    &&& forall|i: int| 0 <= i < w.len() ==> !is_sep(#[trigger] w[i], extras)
}

pub proof fn lemma_words_rec_plain(s: Seq<char>, extras: Seq<char>, cur: Seq<char>)
    requires
        forall|i: int| 0 <= i < cur.len() ==> !is_sep(#[trigger] cur[i], extras),
    ensures
        forall|k: int|
            0 <= k < words_rec(s, extras, cur).len() ==> plain_word(
                #[trigger] words_rec(s, extras, cur)[k],
                extras,
            ),
    decreases s.len(),
{
    lemma_emit_word_plain(cur, extras);
    let ws = words_rec(s, extras, cur);
    if s.len() == 0 {
        assert forall|k: int| 0 <= k < ws.len() implies plain_word(ws[k], extras) by {
            assert(ws[k] == emit_word(cur)[k]);
        }
    } else if is_sep(s[0], extras) {
        lemma_words_rec_plain(s.drop_first(), extras, Seq::empty());
        let rest = words_rec(s.drop_first(), extras, Seq::empty());
        assert forall|k: int| 0 <= k < ws.len() implies plain_word(ws[k], extras) by {
            if k < emit_word(cur).len() {
                assert(ws[k] == emit_word(cur)[k]);
            } else {
                assert(ws[k] == rest[k - emit_word(cur).len()]);
            }
        }
    } else {
        assert(forall|i: int|
            0 <= i < cur.push(s[0]).len() ==> !is_sep(#[trigger] cur.push(s[0])[i], extras));
        lemma_words_rec_plain(s.drop_first(), extras, cur.push(s[0]));
        let rest = words_rec(s.drop_first(), extras, cur.push(s[0]));
        assert forall|k: int| 0 <= k < ws.len() implies plain_word(ws[k], extras) by {
            assert(ws[k] == rest[k]);
        }
    }
}

proof fn lemma_emit_word_plain(cur: Seq<char>, extras: Seq<char>)
    requires
        forall|i: int| 0 <= i < cur.len() ==> !is_sep(#[trigger] cur[i], extras),
    ensures
        forall|k: int|
            0 <= k < emit_word(cur).len() ==> plain_word(#[trigger] emit_word(cur)[k], extras),
{
    lemma_trim_ws_props(cur);
    let tw = trim_ws(cur);
    if tw.len() > 0 {
        assert forall|i: int| 0 <= i < tw.len() implies !is_sep(#[trigger] tw[i], extras) by {
            let j = choose|j: int| 0 <= j < cur.len() && tw[i] == cur[j];
            assert(!is_sep(cur[j], extras));
        }
        assert(emit_word(cur)[0] == tw);
    }
}

/// Every word of a split is a plain word: non-empty, whitespace-free at the
/// edges, separator-free throughout.
pub proof fn lemma_words_of_plain(s: Seq<char>, extras: Seq<char>)
    ensures
        forall|k: int|
            0 <= k < words_of(s, extras).len() ==> plain_word(
                #[trigger] words_of(s, extras)[k],
                extras,
            ),
{
    lemma_words_rec_plain(s, extras, Seq::empty());
}

} // verus!
