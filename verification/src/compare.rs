use vstd::prelude::*;
use crate::split::{iter_words, lemma_words_of_plain, words_of};
use crate::text::{concat_all, first_lower, first_lower_char, str_chars};

verus! {

// ---------------------------------------------------------------------------
// Per-word character prefixes
// ---------------------------------------------------------------------------

/// The first `n` characters of `w` (all of `w` if it is shorter), each
/// replaced by the first character of its lowercase mapping.
pub open spec fn prefix_lowered(w: Seq<char>, n: int) -> Seq<char> {
    (if n <= w.len() {
        w.take(n)
    } else {
        w
    }).map_values(|c: char| first_lower(c))
}

/// For each word, the lowered first characters of its first `n` characters,
/// all words' contributions laid end to end.
pub open spec fn n_chars_of(ws: Seq<Seq<char>>, n: int) -> Seq<char> {
    concat_all(ws.map_values(|w: Seq<char>| prefix_lowered(w, n)))
}

/// Take the first `n` characters of every word, lowercased (first character
/// of the lowercase mapping), in order.
pub fn n_chars(word: &Vec<String>, n: usize) -> (r: Vec<char>)
    ensures
        r@ == n_chars_of(word.deep_view(), n as int),
{
    let ghost dv = word.deep_view();
    let mut r: Vec<char> = Vec::new();
    let mut i: usize = 0;
    proof {
        assert(dv.take(0).map_values(|w: Seq<char>| prefix_lowered(w, n as int))
            =~= Seq::<Seq<char>>::empty());
    }
    while i < word.len()
        invariant
            i <= word@.len(),
            dv == word.deep_view(),
            r@ == n_chars_of(dv.take(i as int), n as int),
        decreases word@.len() - i,
    {
        let cs = str_chars(word[i].as_str());
        let m = if n <= cs.len() {
            n
        } else {
            cs.len()
        };
        let mut piece: Vec<char> = Vec::new();
        let mut j: usize = 0;
        while j < m
            invariant
                j <= m,
                m == (if n as int <= cs@.len() {
                    n as int
                } else {
                    cs@.len() as int
                }),
                piece@ == cs@.take(m as int).map_values(|c: char| first_lower(c)).take(j as int),
            decreases m - j,
        {
            let lc = first_lower_char(cs[j]);
            piece.push(lc);
            proof {
                let full = cs@.take(m as int).map_values(|c: char| first_lower(c));
                assert(full.take(j + 1) =~= full.take(j as int).push(full[j as int]));
            }
            j = j + 1;
        }
        proof {
            let full = cs@.take(m as int).map_values(|c: char| first_lower(c));
            assert(full.take(m as int) =~= full);
            assert(cs@.take(cs@.len() as int) =~= cs@);
            assert(piece@ =~= prefix_lowered(dv[i as int], n as int));
        }
        let mut p = piece;
        r.append(&mut p);
        proof {
            assert(dv.take(i + 1).map_values(|w: Seq<char>| prefix_lowered(w, n as int))
                =~= dv.take(i as int).map_values(|w: Seq<char>| prefix_lowered(w, n as int)).push(
                prefix_lowered(dv[i as int], n as int),
            ));
            crate::text::lemma_concat_all_push(
                dv.take(i as int).map_values(|w: Seq<char>| prefix_lowered(w, n as int)),
                prefix_lowered(dv[i as int], n as int),
            );
        }
        i = i + 1;
    }
    proof {
        assert(dv.take(dv.len() as int) =~= dv);
    }
    r
}

// ---------------------------------------------------------------------------
// First-letter comparison
// ---------------------------------------------------------------------------

/// The lowered first letter of each word, in order.
pub open spec fn first_letters(ws: Seq<Seq<char>>) -> Seq<char> {
    ws.map_values(|w: Seq<char>| first_lower(w[0]))
}

/// With every word non-empty, taking one lowered character per word is
/// exactly the sequence of lowered first letters.
proof fn lemma_n_chars_one_is_first_letters(ws: Seq<Seq<char>>)
    requires
        forall|k: int| 0 <= k < ws.len() ==> (#[trigger] ws[k]).len() > 0,
    ensures
        n_chars_of(ws, 1) == first_letters(ws),
    decreases ws.len(),
{
    let m = ws.map_values(|w: Seq<char>| prefix_lowered(w, 1));
    if ws.len() == 0 {
        assert(m =~= Seq::<Seq<char>>::empty());
        assert(first_letters(ws) =~= Seq::<char>::empty());
    } else {
        lemma_n_chars_one_is_first_letters(ws.drop_last());
        assert(ws.drop_last().map_values(|w: Seq<char>| prefix_lowered(w, 1)) =~= m.drop_last());
        assert(m.last() == prefix_lowered(ws.last(), 1));
        assert(prefix_lowered(ws.last(), 1) =~= seq![first_lower(ws.last()[0])]);
        assert(first_letters(ws) =~= first_letters(ws.drop_last()) + seq![
            first_lower(ws.last()[0]),
        ]);
        assert(concat_all(m) =~= concat_all(m.drop_last()) + m.last());
    }
}

/// Whether two character vectors hold the same characters in the same order.
fn chars_eq(a: &Vec<char>, b: &Vec<char>) -> (r: bool)
    ensures
        r == (a@ == b@),
{
    if a.len() != b.len() {
        return false;
    }
    let mut i: usize = 0;
    while i < a.len()
        invariant
            i <= a@.len(),
            a@.len() == b@.len(),
            forall|j: int| 0 <= j < i ==> a@[j] == b@[j],
        decreases a@.len() - i,
    {
        if a[i] != b[i] {
            return false;
        }
        i = i + 1;
    }
    proof {
        assert(a@ =~= b@);
    }
    true
}

/// Compare two texts by words: true exactly when they split into the same
/// number of words and the lowered first letters of corresponding words
/// match, in order.
pub fn compare_first_letter(slice: &str, with: &str) -> (r: bool)
    ensures
        r == (first_letters(words_of(slice@, Seq::empty())) == first_letters(
            words_of(with@, Seq::empty()),
        )),
{
    let words1 = iter_words(slice);
    let words2 = iter_words(with);

    let first_chars1 = n_chars(&words1, 1);
    let first_chars2 = n_chars(&words2, 1);

    proof {
        lemma_words_of_plain(slice@, Seq::empty());
        lemma_words_of_plain(with@, Seq::empty());
        lemma_n_chars_one_is_first_letters(words_of(slice@, Seq::empty()));
        lemma_n_chars_one_is_first_letters(words_of(with@, Seq::empty()));
    }
    chars_eq(&first_chars1, &first_chars2)
}

} // verus!
