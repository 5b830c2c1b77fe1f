use vstd::prelude::*;
use crate::join::{interleave_spaces, joined_spaces};
use crate::split::{
    emit_word,
    lemma_trim_ws_noop,
    lemma_words_of_plain,
    plain_word,
    trim_ws,
    trim_start_ws,
    trim_end_ws,
    words_of,
    words_rec,
};
use crate::text::{
    concat_all,
    is_sep,
    is_ws,
    lemma_base_sep_is_ws,
    lemma_concat_all_add,
    lemma_concat_all_first,
    lemma_concat_all_pair,
    lemma_concat_all_single,
};

verus! {

// ---------------------------------------------------------------------------
// The substantive content of a text: what splitting must preserve
// ---------------------------------------------------------------------------

/// The characters of `s` that are neither whitespace nor separators, in
/// their original order.
pub open spec fn content(s: Seq<char>, extras: Seq<char>) -> Seq<char>
    decreases s.len(),
{
    if s.len() == 0 {
        Seq::empty()
    } else if is_ws(s[0]) || is_sep(s[0], extras) {
        content(s.drop_first(), extras)
    } else {
        seq![s[0]] + content(s.drop_first(), extras)
    }
}

proof fn lemma_content_add(a: Seq<char>, b: Seq<char>, extras: Seq<char>)
    ensures
        content(a + b, extras) == content(a, extras) + content(b, extras),
    decreases a.len(),
{
    if a.len() == 0 {
        assert(a + b =~= b);
        assert(content(a, extras) + content(b, extras) =~= content(b, extras));
    } else {
        assert((a + b)[0] == a[0]);
        assert((a + b).drop_first() =~= a.drop_first() + b);
        lemma_content_add(a.drop_first(), b, extras);
        if !(is_ws(a[0]) || is_sep(a[0], extras)) {
            assert(seq![a[0]] + (content(a.drop_first(), extras) + content(b, extras))
                =~= (seq![a[0]] + content(a.drop_first(), extras)) + content(b, extras));
        }
    }
}

proof fn lemma_content_single(c: char, extras: Seq<char>)
    ensures
        content(seq![c], extras) == if is_ws(c) || is_sep(c, extras) {
            Seq::<char>::empty()
        } else {
            seq![c]
        },
{
    assert(seq![c].drop_first() =~= Seq::<char>::empty());
    assert(content(Seq::<char>::empty(), extras) =~= Seq::<char>::empty());
    if !(is_ws(c) || is_sep(c, extras)) {
        assert(seq![c] + Seq::<char>::empty() =~= seq![c]);
    }
}

proof fn lemma_content_trim_start(w: Seq<char>, extras: Seq<char>)
    ensures
        content(trim_start_ws(w), extras) == content(w, extras),
    decreases w.len(),
{
    if w.len() == 0 {
    } else if is_ws(w[0]) {
        lemma_content_trim_start(w.drop_first(), extras);
    } else {
    }
}

proof fn lemma_content_trim_end(w: Seq<char>, extras: Seq<char>)
    ensures
        content(trim_end_ws(w), extras) == content(w, extras),
    decreases w.len(),
{
    if w.len() == 0 {
    } else if is_ws(w.last()) {
        lemma_content_trim_end(w.drop_last(), extras);
        assert(w =~= w.drop_last() + seq![w.last()]);
        lemma_content_add(w.drop_last(), seq![w.last()], extras);
        lemma_content_single(w.last(), extras);
        assert(content(w.drop_last(), extras) + Seq::<char>::empty() =~= content(
            w.drop_last(),
            extras,
        ));
    } else {
    }
}

proof fn lemma_content_trim(w: Seq<char>, extras: Seq<char>)
    ensures
        content(trim_ws(w), extras) == content(w, extras),
{
    lemma_content_trim_start(w, extras);
    lemma_content_trim_end(trim_start_ws(w), extras);
}

// ---------------------------------------------------------------------------
// The splitter preserves content
// ---------------------------------------------------------------------------

/// The content of every word of `ws`, laid end to end.
pub open spec fn words_content(ws: Seq<Seq<char>>, extras: Seq<char>) -> Seq<char> {
    concat_all(ws.map_values(|w: Seq<char>| content(w, extras)))
}

proof fn lemma_emit_word_content(cur: Seq<char>, extras: Seq<char>)
    ensures
        words_content(emit_word(cur), extras) == content(cur, extras),
{
    lemma_content_trim(cur, extras);
    if trim_ws(cur).len() == 0 {
        assert(emit_word(cur).map_values(|w: Seq<char>| content(w, extras))
            =~= Seq::<Seq<char>>::empty());
        assert(content(trim_ws(cur), extras) =~= Seq::<char>::empty());
    } else {
        assert(emit_word(cur).map_values(|w: Seq<char>| content(w, extras)) =~= seq![
            content(trim_ws(cur), extras),
        ]);
        lemma_concat_all_first(content(trim_ws(cur), extras), Seq::empty());
        assert(seq![content(trim_ws(cur), extras)] + Seq::<Seq<char>>::empty() =~= seq![
            content(trim_ws(cur), extras),
        ]);
        assert(content(trim_ws(cur), extras) + concat_all(Seq::empty()) =~= content(
            trim_ws(cur),
            extras,
        ));
    }
}

proof fn lemma_words_rec_content(s: Seq<char>, extras: Seq<char>, cur: Seq<char>)
    ensures
        words_content(words_rec(s, extras, cur), extras) == content(cur, extras) + content(
            s,
            extras,
        ),
    decreases s.len(),
{
    if s.len() == 0 {
        lemma_emit_word_content(cur, extras);
        assert(content(s, extras) =~= Seq::<char>::empty());
        assert(content(cur, extras) + Seq::<char>::empty() =~= content(cur, extras));
    } else if is_sep(s[0], extras) {
        lemma_words_rec_content(s.drop_first(), extras, Seq::empty());
        lemma_emit_word_content(cur, extras);
        let a = emit_word(cur);
        let b = words_rec(s.drop_first(), extras, Seq::empty());
        assert((a + b).map_values(|w: Seq<char>| content(w, extras)) =~= a.map_values(
            |w: Seq<char>| content(w, extras),
        ) + b.map_values(|w: Seq<char>| content(w, extras)));
        lemma_concat_all_add(
            a.map_values(|w: Seq<char>| content(w, extras)),
            b.map_values(|w: Seq<char>| content(w, extras)),
        );
        assert(content(Seq::empty(), extras) =~= Seq::<char>::empty());
        assert(Seq::<char>::empty() + content(s.drop_first(), extras) =~= content(
            s.drop_first(),
            extras,
        ));
        assert(content(cur, extras) + content(s.drop_first(), extras) =~= content(cur, extras)
            + content(s, extras));
    } else {
        lemma_words_rec_content(s.drop_first(), extras, cur.push(s[0]));
        assert(cur.push(s[0]) =~= cur + seq![s[0]]);
        lemma_content_add(cur, seq![s[0]], extras);
        lemma_content_single(s[0], extras);
        if is_ws(s[0]) {
            assert(content(cur, extras) + Seq::<char>::empty() =~= content(cur, extras));
        } else {
            assert((content(cur, extras) + seq![s[0]]) + content(s.drop_first(), extras)
                =~= content(cur, extras) + (seq![s[0]] + content(s.drop_first(), extras)));
        }
    }
}

proof fn lemma_joined_content(ws: Seq<Seq<char>>, extras: Seq<char>)
    ensures
        content(joined_spaces(ws), extras) == words_content(ws, extras),
    decreases ws.len(),
{
    if ws.len() == 0 {
        assert(ws.map_values(|w: Seq<char>| content(w, extras)) =~= Seq::<Seq<char>>::empty());
    } else if ws.len() == 1 {
        assert(interleave_spaces(ws) =~= seq![ws[0]]);
        lemma_concat_all_single(ws[0]);
        assert(ws.map_values(|w: Seq<char>| content(w, extras)) =~= seq![content(ws[0], extras)]);
        lemma_concat_all_single(content(ws[0], extras));
    } else {
        lemma_joined_content(ws.drop_first(), extras);
        let rest = interleave_spaces(ws.drop_first());
        lemma_concat_all_add(seq![ws[0], seq![' ']], rest);
        lemma_concat_all_pair(ws[0], seq![' ']);
        assert(joined_spaces(ws) == (ws[0] + seq![' ']) + joined_spaces(ws.drop_first()));
        lemma_content_add(ws[0] + seq![' '], joined_spaces(ws.drop_first()), extras);
        lemma_content_add(ws[0], seq![' '], extras);
        lemma_content_single(' ', extras);
        assert(content(ws[0], extras) + Seq::<char>::empty() =~= content(ws[0], extras));
        // the content of the whole word sequence unrolls the same way
        let m = ws.map_values(|w: Seq<char>| content(w, extras));
        assert(m =~= seq![content(ws[0], extras)] + ws.drop_first().map_values(
            |w: Seq<char>| content(w, extras),
        ));
        lemma_concat_all_first(
            content(ws[0], extras),
            ws.drop_first().map_values(|w: Seq<char>| content(w, extras)),
        );
    }
}

/// The splitter never yields an empty word, and joining its words with
/// single spaces reproduces exactly the non-whitespace, non-separator
/// content of the text, in original order.
pub proof fn lemma_splitter_reproduces_content(t: Seq<char>, extras: Seq<char>)
    ensures
        forall|k: int| 0 <= k < words_of(t, extras).len() ==> (#[trigger] words_of(t, extras)[k]).len() > 0,
        content(joined_spaces(words_of(t, extras)), extras) == content(t, extras),
{
    lemma_words_of_plain(t, extras);
    lemma_words_rec_content(t, extras, Seq::empty());
    lemma_joined_content(words_of(t, extras), extras);
    assert(content(Seq::empty(), extras) =~= Seq::<char>::empty());
    assert(Seq::<char>::empty() + content(t, extras) =~= content(t, extras));
}

// ---------------------------------------------------------------------------
// Splitting a joined word sequence gives the words back
// ---------------------------------------------------------------------------

proof fn lemma_words_rec_through_word(
    w: Seq<char>,
    rest: Seq<char>,
    extras: Seq<char>,
    cur: Seq<char>,
)
    requires
        forall|i: int| 0 <= i < w.len() ==> !is_sep(#[trigger] w[i], extras),
    ensures
        words_rec(w + rest, extras, cur) == words_rec(rest, extras, cur + w),
    decreases w.len(),
{
    if w.len() == 0 {
        assert(w + rest =~= rest);
        assert(cur + w =~= cur);
    } else {
        assert((w + rest)[0] == w[0]);
        assert((w + rest).drop_first() =~= w.drop_first() + rest);
        lemma_words_rec_through_word(w.drop_first(), rest, extras, cur.push(w[0]));
        assert(cur.push(w[0]) + w.drop_first() =~= cur + w);
    }
}

/// Splitting the single-space join of plain words recovers exactly those
/// words.
pub proof fn lemma_split_of_joined(ws: Seq<Seq<char>>)
    requires
        forall|k: int| 0 <= k < ws.len() ==> plain_word(#[trigger] ws[k], Seq::empty()),
    ensures
        words_of(joined_spaces(ws), Seq::empty()) == ws,
    decreases ws.len(),
{
    let e = Seq::<char>::empty();
    if ws.len() == 0 {
        assert(joined_spaces(ws) =~= Seq::<char>::empty());
        assert(words_of(Seq::empty(), e) =~= Seq::<Seq<char>>::empty());
    } else if ws.len() == 1 {
        let w = ws[0];
        assert(interleave_spaces(ws) =~= seq![w]);
        lemma_concat_all_single(w);
        lemma_words_rec_through_word(w, Seq::empty(), e, Seq::empty());
        assert(w + Seq::<char>::empty() =~= w);
        assert(Seq::<char>::empty() + w =~= w);
        lemma_trim_ws_noop(w);
        assert(emit_word(w) =~= seq![w]);
        assert(seq![w] =~= ws);
    } else {
        let w = ws[0];
        let rest = ws.drop_first();
        lemma_split_of_joined(rest);
        let jr = joined_spaces(rest);
        lemma_concat_all_add(seq![w, seq![' ']], interleave_spaces(rest));
        lemma_concat_all_pair(w, seq![' ']);
        assert(joined_spaces(ws) == (w + seq![' ']) + jr);
        assert((w + seq![' ']) + jr =~= w + (seq![' '] + jr));
        lemma_words_rec_through_word(w, seq![' '] + jr, e, Seq::empty());
        assert(Seq::<char>::empty() + w =~= w);
        // the space is a separator, so the gathered word is emitted
        assert((seq![' '] + jr)[0] == ' ');
        assert((seq![' '] + jr).drop_first() =~= jr);
        lemma_trim_ws_noop(w);
        assert(emit_word(w) =~= seq![w]);
        assert(words_of(joined_spaces(ws), e) == seq![w] + words_of(jr, e));
        assert(seq![w] + ws.drop_first() =~= ws);
    }
}

/// Collapsing separator runs to single spaces is idempotent: splitting and
/// rejoining an already space-joined text gives the same text.
pub proof fn lemma_sanitize_spaces_idempotent(t: Seq<char>)
    ensures
        joined_spaces(words_of(joined_spaces(words_of(t, Seq::empty())), Seq::empty()))
            == joined_spaces(words_of(t, Seq::empty())),
{
    lemma_words_of_plain(t, Seq::empty());
    lemma_split_of_joined(words_of(t, Seq::empty()));
}

// ---------------------------------------------------------------------------
// Round trip on already canonical text
// ---------------------------------------------------------------------------

/// A text whose only whitespace is the plain space, with no space at either
/// end and no two spaces in a row: the form the splitter-joiner pipeline
/// itself produces.
pub open spec fn canonical_text(t: Seq<char>) -> bool {
    &&& forall|i: int| 0 <= i < t.len() && is_ws(#[trigger] t[i]) ==> t[i] == ' '
    &&& (t.len() > 0 ==> t[0] != ' ' && t[t.len() - 1] != ' ')
    &&& forall|i: int| 0 <= i && i + 1 < t.len() ==> !(t[i] == ' ' && #[trigger] t[i + 1] == ' ')
}

/// The position of the first space of `t`, or its length if there is none.
spec fn find_sp(t: Seq<char>) -> int
    decreases t.len(),
{
    if t.len() == 0 {
        0
    } else if t[0] == ' ' {
        0
    } else {
        1 + find_sp(t.drop_first())
    }
}

proof fn lemma_find_sp(t: Seq<char>)
    ensures
        0 <= find_sp(t) <= t.len(),
        forall|i: int| 0 <= i < find_sp(t) ==> t[i] != ' ',
        find_sp(t) < t.len() ==> t[find_sp(t)] == ' ',
    decreases t.len(),
{
    if t.len() == 0 {
    } else if t[0] == ' ' {
    } else {
        lemma_find_sp(t.drop_first());
        assert forall|i: int| 0 <= i < find_sp(t) implies t[i] != ' ' by {
            if i > 0 {
                assert(t[i] == t.drop_first()[i - 1]);
            }
        }
    }
}

/// Splitting and rejoining canonical text reproduces it exactly; canonical
/// non-empty text has at least one word.
pub proof fn lemma_round_trip(t: Seq<char>)
    requires
        canonical_text(t),
    ensures
        joined_spaces(words_of(t, Seq::empty())) == t,
        t.len() > 0 ==> words_of(t, Seq::empty()).len() > 0,
    decreases t.len(),
{
    let e = Seq::<char>::empty();
    if t.len() == 0 {
        assert(words_of(t, e) =~= Seq::<Seq<char>>::empty());
        assert(joined_spaces(Seq::<Seq<char>>::empty()) =~= t);
    } else {
        lemma_find_sp(t);
        let k = find_sp(t);
        assert forall|i: int| 0 <= i < k implies !is_sep(t[i], e) by {
            lemma_base_sep_is_ws(t[i]);
            assert(is_ws(t[i]) ==> t[i] == ' ');
            assert(t[i] != ' ');
        }
        if k == t.len() {
            lemma_words_rec_through_word(t, Seq::empty(), e, Seq::empty());
            assert(t + Seq::<char>::empty() =~= t);
            assert(Seq::<char>::empty() + t =~= t);
            assert(!is_ws(t[0]) && !is_ws(t.last())) by {
                assert(t[0] != ' ' && t[t.len() - 1] != ' ');
            }
            lemma_trim_ws_noop(t);
            assert(emit_word(t) =~= seq![t]);
            assert(words_of(t, e) == seq![t]);
            assert(interleave_spaces(seq![t]) =~= seq![t]);
            lemma_concat_all_single(t);
        } else {
            // t = w0, a space, then a shorter canonical text
            assert(t[0] != ' ');
            assert(k > 0);
            let w0 = t.take(k);
            let t2 = t.skip(k + 1);
            assert(t =~= w0 + (seq![' '] + t2));
            assert(t2.len() > 0) by {
                assert(t[t.len() - 1] != ' ');
                assert(t[k] == ' ');
            }
            assert(canonical_text(t2)) by {
                assert(forall|i: int| 0 <= i < t2.len() ==> #[trigger] t2[i] == t[i + k + 1]);
                assert(t2[0] == t[k + 1]);
                assert(!(t[k] == ' ' && t[k + 1] == ' '));
                assert(t2[t2.len() - 1] == t[t.len() - 1]);
                assert forall|i: int| 0 <= i && i + 1 < t2.len() implies !(t2[i] == ' '
                    && #[trigger] t2[i + 1] == ' ') by {
                    assert(t2[i] == t[i + k + 1]);
                    assert(t2[i + 1] == t[i + k + 2]);
                }
            }
            assert forall|i: int| 0 <= i < w0.len() implies !is_sep(#[trigger] w0[i], e) by {
                assert(w0[i] == t[i]);
            }
            lemma_words_rec_through_word(w0, seq![' '] + t2, e, Seq::empty());
            assert(Seq::<char>::empty() + w0 =~= w0);
            assert((seq![' '] + t2)[0] == ' ');
            assert((seq![' '] + t2).drop_first() =~= t2);
            assert(!is_ws(w0[0]) && !is_ws(w0.last())) by {
                assert(w0[0] == t[0]);
                assert(w0.last() == t[k - 1]);
                assert(t[0] != ' ' && t[k - 1] != ' ');
            }
            lemma_trim_ws_noop(w0);
            assert(emit_word(w0) =~= seq![w0]);
            lemma_round_trip(t2);
            let ws2 = words_of(t2, e);
            assert(words_of(t, e) == seq![w0] + ws2);
            assert(ws2.len() > 0);
            let ws = seq![w0] + ws2;
            assert(ws.len() >= 2);
            assert(ws[0] == w0);
            assert(ws.drop_first() =~= ws2);
            assert(interleave_spaces(ws) == seq![w0, seq![' ']] + interleave_spaces(ws2));
            lemma_concat_all_add(seq![w0, seq![' ']], interleave_spaces(ws2));
            lemma_concat_all_pair(w0, seq![' ']);
            assert(joined_spaces(ws) == (w0 + seq![' ']) + joined_spaces(ws2));
            assert((w0 + seq![' ']) + t2 =~= t);
        }
    }
}

} // verus!
