use vstd::prelude::*;
use crate::join::{interleave_spaces, space_join};
use crate::split::{iter_words, iter_words_ext, words_of};
use crate::text::{
    char_lower,
    char_upper,
    chars_to_string,
    concat_all,
    contains_char,
    lower_of,
    nfd_first,
    nfd_first_char,
    str_chars,
    upper_of,
};
use vstd::slice::slice_to_vec;

verus! {

// ---------------------------------------------------------------------------
// Spec models of the character-stream transforms
// ---------------------------------------------------------------------------

/// Each character replaced by the base character of its canonical
/// decomposition.
pub open spec fn nfd_map(s: Seq<char>) -> Seq<char> {
    s.map_values(|c: char| nfd_first(c))
}

/// Each character expanded to its full lowercase mapping.
pub open spec fn lower_all(s: Seq<char>) -> Seq<char> {
    concat_all(s.map_values(|c: char| lower_of(c)))
}

/// Each character expanded to its full uppercase mapping.
pub open spec fn upper_all(s: Seq<char>) -> Seq<char> {
    concat_all(s.map_values(|c: char| upper_of(c)))
}

/// The first character expanded to its uppercase mapping, every later
/// character to its lowercase mapping; an empty input stays empty.
pub open spec fn cap_first(s: Seq<char>) -> Seq<char> {
    if s.len() == 0 {
        Seq::empty()
    } else {
        upper_of(s[0]) + lower_all(s.drop_first())
    }
}

/// Each character that occurs in `matches` replaced by `to`, all others
/// passed through unchanged.
pub open spec fn replace_all(s: Seq<char>, matches: Seq<char>, to: char) -> Seq<char> {
    s.map_values(|c: char| if matches.contains(c) { to } else { c })
}

// ---------------------------------------------------------------------------
// Executable transforms
// ---------------------------------------------------------------------------

/// Replace every character of `chars` found in `matches` by `to`.
pub fn replace_chars(chars: Vec<char>, matches: &[char], to: char) -> (r: Vec<char>)
    ensures
        r@ == replace_all(chars@, matches@, to),
{
    let m: Vec<char> = slice_to_vec(matches);
    let mut r: Vec<char> = Vec::new();
    let mut i: usize = 0;
    while i < chars.len()
        invariant
            i <= chars@.len(),
            m@ == matches@,
            r@ == replace_all(chars@.take(i as int), matches@, to),
        decreases chars@.len() - i,
    {
        let c = chars[i];
        if contains_char(&m, c) {
            r.push(to);
        } else {
            r.push(c);
        }
        proof {
            assert(replace_all(chars@.take(i + 1), matches@, to) =~= r@);
        }
        i = i + 1;
    }
    proof {
        assert(chars@.take(chars@.len() as int) =~= chars@);
    }
    r
}

/// Strip diacritics from a stream of characters: each character becomes the
/// base character of its canonical decomposition.
pub fn rm_specials_char(word: Vec<char>) -> (r: Vec<char>)
    ensures
        r@ == nfd_map(word@),
{
    let mut r: Vec<char> = Vec::new();
    let mut i: usize = 0;
    while i < word.len()
        invariant
            i <= word@.len(),
            r@ == nfd_map(word@.take(i as int)),
        decreases word@.len() - i,
    {
        let c = word[i];
        let b = nfd_first_char(c);
        r.push(b);
        proof {
            assert(nfd_map(word@.take(i + 1)) =~= r@);
        }
        i = i + 1;
    }
    proof {
        assert(word@.take(word@.len() as int) =~= word@);
    }
    r
}

/// Strip diacritics from a sequence of word slices: the characters of all
/// the words in order, each replaced by its decomposition's base character.
pub fn rm_specials(word: &Vec<String>) -> (r: Vec<char>)
    ensures
        r@ == nfd_map(concat_all(word.deep_view())),
{
    let mut r: Vec<char> = Vec::new();
    let mut i: usize = 0;
    proof {
        assert(word.deep_view().take(0) =~= Seq::<Seq<char>>::empty());
        assert(nfd_map(Seq::<char>::empty()) =~= Seq::<char>::empty());
    }
    while i < word.len()
        invariant
            i <= word@.len(),
            r@ == nfd_map(concat_all(word.deep_view().take(i as int))),
        decreases word@.len() - i,
    {
        let ghost dv = word.deep_view();
        let cs = str_chars(word[i].as_str());
        let mapped = rm_specials_char(cs);
        let mut m = mapped;
        r.append(&mut m);
        proof {
            assert(dv.take(i + 1).drop_last() =~= dv.take(i as int));
            assert(dv.take(i + 1).last() == dv[i as int]);
            assert(nfd_map(concat_all(dv.take(i as int)) + dv[i as int]) =~= nfd_map(
                concat_all(dv.take(i as int)),
            ) + nfd_map(dv[i as int]));
        }
        i = i + 1;
    }
    proof {
        assert(word.deep_view().take(word.deep_view().len() as int) =~= word.deep_view());
    }
    r
}

/// Lowercase a stream of characters under the full case mapping, which may
/// expand a character to several.
pub fn chars_to_lower(chars: Vec<char>) -> (r: Vec<char>)
    ensures
        r@ == lower_all(chars@),
{
    let mut r: Vec<char> = Vec::new();
    let mut i: usize = 0;
    proof {
        assert(chars@.take(0).map_values(|c: char| lower_of(c)) =~= Seq::<Seq<char>>::empty());
    }
    while i < chars.len()
        invariant
            i <= chars@.len(),
            r@ == lower_all(chars@.take(i as int)),
        decreases chars@.len() - i,
    {
        let c = chars[i];
        let mut lc = char_lower(c);
        r.append(&mut lc);
        proof {
            assert(chars@.take(i + 1).map_values(|c: char| lower_of(c)) =~= chars@.take(
                i as int,
            ).map_values(|c: char| lower_of(c)).push(lower_of(chars@[i as int])));
            crate::text::lemma_concat_all_push(
                chars@.take(i as int).map_values(|c: char| lower_of(c)),
                lower_of(chars@[i as int]),
            );
        }
        i = i + 1;
    }
    proof {
        assert(chars@.take(chars@.len() as int) =~= chars@);
    }
    r
}

/// Uppercase a stream of characters under the full case mapping, which may
/// expand a character to several.
pub fn chars_to_upper(chars: Vec<char>) -> (r: Vec<char>)
    ensures
        r@ == upper_all(chars@),
{
    let mut r: Vec<char> = Vec::new();
    let mut i: usize = 0;
    proof {
        assert(chars@.take(0).map_values(|c: char| upper_of(c)) =~= Seq::<Seq<char>>::empty());
    }
    while i < chars.len()
        invariant
            i <= chars@.len(),
            r@ == upper_all(chars@.take(i as int)),
        decreases chars@.len() - i,
    {
        let c = chars[i];
        let mut uc = char_upper(c);
        r.append(&mut uc);
        proof {
            assert(chars@.take(i + 1).map_values(|c: char| upper_of(c)) =~= chars@.take(
                i as int,
            ).map_values(|c: char| upper_of(c)).push(upper_of(chars@[i as int])));
            crate::text::lemma_concat_all_push(
                chars@.take(i as int).map_values(|c: char| upper_of(c)),
                upper_of(chars@[i as int]),
            );
        }
        i = i + 1;
    }
    proof {
        assert(chars@.take(chars@.len() as int) =~= chars@);
    }
    r
}

/// Uppercase exactly the first character of the stream and lowercase every
/// later one, under the full case mappings.
pub fn first_char_to_upper_then_lower(chars: Vec<char>) -> (r: Vec<char>)
    ensures
        r@ == cap_first(chars@),
{
    if chars.len() == 0 {
        let r: Vec<char> = Vec::new();
        proof {
            assert(r@ =~= cap_first(chars@));
        }
        return r;
    }
    let mut r = char_upper(chars[0]);
    let mut i: usize = 1;
    proof {
        assert(chars@.subrange(1, 1).map_values(|c: char| lower_of(c))
            =~= Seq::<Seq<char>>::empty());
        assert(r@ =~= upper_of(chars@[0]) + lower_all(chars@.subrange(1, 1)));
    }
    while i < chars.len()
        invariant
            1 <= i <= chars@.len(),
            r@ == upper_of(chars@[0]) + lower_all(chars@.subrange(1, i as int)),
        decreases chars@.len() - i,
    {
        let c = chars[i];
        let mut lc = char_lower(c);
        r.append(&mut lc);
        proof {
            assert(chars@.subrange(1, i + 1).map_values(|c: char| lower_of(c)) =~= chars@.subrange(
                1,
                i as int,
            ).map_values(|c: char| lower_of(c)).push(lower_of(chars@[i as int])));
            crate::text::lemma_concat_all_push(
                chars@.subrange(1, i as int).map_values(|c: char| lower_of(c)),
                lower_of(chars@[i as int]),
            );
            assert(upper_of(chars@[0]) + (lower_all(chars@.subrange(1, i as int)) + lower_of(
                chars@[i as int],
            )) =~= (upper_of(chars@[0]) + lower_all(chars@.subrange(1, i as int))) + lower_of(
                chars@[i as int],
            ));
        }
        i = i + 1;
    }
    proof {
        assert(chars@.subrange(1, chars@.len() as int) =~= chars@.drop_first());
    }
    r
}

// ---------------------------------------------------------------------------
// The composed normalization pipelines
// ---------------------------------------------------------------------------

/// The characters of the word sequence `ws`, words separated by single
/// spaces, every character stripped of diacritics and then lowercased.
pub open spec fn sanitized(ws: Seq<Seq<char>>) -> Seq<char> {
    lower_all(nfd_map(concat_all(interleave_spaces(ws))))
}

/// Normalize `contents` for comparison: split into words on the base
/// separators and `seps`, rejoin with single spaces, strip diacritics, and
/// lowercase everything.
pub fn sanitize(contents: &str, seps: &[char]) -> (r: Vec<char>)
    ensures
        r@ == sanitized(words_of(contents@, seps@)),
{
    let words = iter_words_ext(contents, seps);
    let joined = space_join(words);
    let stripped = rm_specials(&joined);
    chars_to_lower(stripped)
}

/// The characters of the word sequence `ws`, words separated by single
/// spaces, each word's first character uppercased and the rest lowercased.
pub open spec fn capitalized(ws: Seq<Seq<char>>) -> Seq<char> {
    concat_all(interleave_spaces(ws).map_values(|w: Seq<char>| cap_first(w)))
}

/// Normalize `name` to capitalized words: split into words, rejoin with
/// single spaces, and capitalize the first character of every item while
/// lowercasing the rest.
pub fn sanitize_name_iter(name: &str) -> (r: Vec<char>)
    ensures
        r@ == capitalized(words_of(name@, Seq::empty())),
{
    let items = space_join(iter_words(name));
    let mut r: Vec<char> = Vec::new();
    let mut i: usize = 0;
    let ghost dv = items.deep_view();
    proof {
        assert(dv.take(0).map_values(|w: Seq<char>| cap_first(w)) =~= Seq::<Seq<char>>::empty());
    }
    while i < items.len()
        invariant
            i <= items@.len(),
            dv == items.deep_view(),
            r@ == concat_all(dv.take(i as int).map_values(|w: Seq<char>| cap_first(w))),
        decreases items@.len() - i,
    {
        let cs = str_chars(items[i].as_str());
        let mut capped = first_char_to_upper_then_lower(cs);
        r.append(&mut capped);
        proof {
            assert(dv.take(i + 1).map_values(|w: Seq<char>| cap_first(w)) =~= dv.take(
                i as int,
            ).map_values(|w: Seq<char>| cap_first(w)).push(cap_first(dv[i as int])));
            crate::text::lemma_concat_all_push(
                dv.take(i as int).map_values(|w: Seq<char>| cap_first(w)),
                cap_first(dv[i as int]),
            );
        }
        i = i + 1;
    }
    proof {
        assert(dv.take(dv.len() as int) =~= dv);
    }
    r
}

} // verus!
