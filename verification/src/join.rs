use vstd::prelude::*;
use crate::split::{iter_words, words_of};
use crate::text::concat_all;
use vstd::string::StringExecFns;

verus! {

// ---------------------------------------------------------------------------
// Interleaving words with single spaces
// ---------------------------------------------------------------------------

/// The word sequence `ws` with a single-space token between consecutive
/// words: word, space, word, ..., word; no space before the first word or
/// after the last, and an empty sequence stays empty.
pub open spec fn interleave_spaces(ws: Seq<Seq<char>>) -> Seq<Seq<char>>
    decreases ws.len(),
{
    if ws.len() == 0 {
        Seq::empty()
    } else if ws.len() == 1 {
        seq![ws[0]]
    } else {
        seq![ws[0], seq![' ']] + interleave_spaces(ws.drop_first())
    }
}

/// The words of `ws` joined into one character sequence with a single space
/// between consecutive words.
pub open spec fn joined_spaces(ws: Seq<Seq<char>>) -> Seq<char> {
    concat_all(interleave_spaces(ws))
}

// ---------------------------------------------------------------------------
// SpaceJoiner: a pull-based cursor over the interleaved sequence
// ---------------------------------------------------------------------------

/// A cursor that hands out the items of `interleave_spaces` one at a time:
/// each word of the underlying sequence in order, with a single space token
/// between consecutive words.
pub struct SpaceJoiner {
    words: Vec<String>,
    idx: usize,
    space_pending: bool,
}

impl SpaceJoiner {
    pub closed spec fn wf(self) -> bool {
        &&& self.idx <= self.words@.len()
        &&& (self.space_pending ==> self.idx < self.words@.len())
    }

    /// The items this cursor has yet to hand out.
    pub closed spec fn remaining(self) -> Seq<Seq<char>> {
        let rest = interleave_spaces(self.words.deep_view().skip(self.idx as int));
        if self.space_pending {
            seq![seq![' ']] + rest
        } else {
            rest
        }
    }

    pub fn new(words: Vec<String>) -> (r: SpaceJoiner)
        ensures
            r.wf(),
            r.remaining() == interleave_spaces(words.deep_view()),
    {
        let r = SpaceJoiner { words, idx: 0, space_pending: false };
        proof {
            assert(r.words.deep_view().skip(0) =~= r.words.deep_view());
        }
        r
    }

    /// Hand out the next item: `None` once nothing remains, else the first
    /// remaining item, which the cursor then drops.
    pub fn next(&mut self) -> (r: Option<String>)
        requires
            old(self).wf(),
        ensures
            final (self).wf(),
            old(self).remaining().len() == 0 ==> r is None && final (self).remaining() == old(
                self,
            ).remaining(),
            old(self).remaining().len() > 0 ==> (r matches Some(w) && w@ == old(
                self,
            ).remaining()[0] && final (self).remaining() == old(self).remaining().drop_first()),
    {
        let ghost dv = self.words.deep_view();
        let ghost oidx = self.idx as int;
        if self.space_pending {
            self.space_pending = false;
            let sp = String::from_str(" ");
            proof {
                reveal_strlit(" ");
                assert(sp@ =~= seq![' ']);
                assert(old(self).remaining().drop_first() =~= self.remaining());
            }
            Some(sp)
        } else if self.idx < self.words.len() {
            let w = self.words[self.idx].clone();
            self.idx = self.idx + 1;
            self.space_pending = self.idx < self.words.len();
            proof {
                let tail = dv.skip(oidx);
                assert(tail.len() == dv.len() - oidx);
                assert(tail[0] == dv[oidx]);
                assert(w@ == dv[oidx]);
                if oidx + 1 < dv.len() {
                    assert(tail.len() >= 2);
                    assert(interleave_spaces(tail) == seq![tail[0], seq![' ']]
                        + interleave_spaces(tail.drop_first()));
                    assert(tail.drop_first() =~= dv.skip(oidx + 1));
                    assert(interleave_spaces(tail).drop_first() =~= seq![seq![' ']]
                        + interleave_spaces(dv.skip(oidx + 1)));
                } else {
                    assert(tail.len() == 1);
                    assert(interleave_spaces(tail) =~= seq![tail[0]]);
                    assert(dv.skip(oidx + 1) =~= Seq::<Seq<char>>::empty());
                    assert(interleave_spaces(tail).drop_first()
                        =~= interleave_spaces(dv.skip(oidx + 1)));
                }
            }
            Some(w)
        } else {
            proof {
                assert(dv.skip(oidx) =~= Seq::<Seq<char>>::empty());
            }
            None
        }
    }
}

/// Interleave the given words with single-space tokens, materialized.
pub fn space_join(words: Vec<String>) -> (r: Vec<String>)
    ensures
        r.deep_view() == interleave_spaces(words.deep_view()),
{
    let ghost all = interleave_spaces(words.deep_view());
    let mut joiner = SpaceJoiner::new(words);
    let mut out: Vec<String> = Vec::new();
    let mut done = false;
    proof {
        assert(out.deep_view() + joiner.remaining() =~= all);
    }
    while !done
        invariant
            joiner.wf(),
            out.deep_view() + joiner.remaining() == all,
            done ==> joiner.remaining().len() == 0,
        decreases joiner.remaining().len() + (if done { 0int } else { 1int }),
    {
        let ghost orem = joiner.remaining();
        let ghost odv = out.deep_view();
        match joiner.next() {
            Some(w) => {
                out.push(w);
                proof {
                    assert(out.deep_view() =~= odv.push(orem[0]));
                    assert(odv.push(orem[0]) + orem.drop_first() =~= odv + orem);
                }
            },
            None => {
                done = true;
            },
        }
    }
    proof {
        assert(out.deep_view() =~= all);
    }
    out
}

/// The words of `string`, interleaved with single-space tokens.
pub fn sanitize_spaces_iter(string: &str) -> (r: Vec<String>)
    ensures
        r.deep_view() == interleave_spaces(words_of(string@, Seq::empty())),
{
    space_join(iter_words(string))
}

/// Concatenate a vector of strings into one string.
pub fn concat_strings(parts: &Vec<String>) -> (r: String)
    ensures
        r@ == concat_all(parts.deep_view()),
{
    let mut r = String::new();
    let mut i: usize = 0;
    proof {
        assert(parts.deep_view().take(0) =~= Seq::<Seq<char>>::empty());
    }
    while i < parts.len()
        invariant
            i <= parts@.len(),
            r@ == concat_all(parts.deep_view().take(i as int)),
        decreases parts@.len() - i,
    {
        let ghost dv = parts.deep_view();
        r.append(parts[i].as_str());
        proof {
            assert(dv.take(i + 1).drop_last() =~= dv.take(i as int));
            assert(dv.take(i + 1).last() == dv[i as int]);
        }
        i = i + 1;
    }
    proof {
        assert(parts.deep_view().take(parts.deep_view().len() as int) =~= parts.deep_view());
    }
    r
}

/// Collapse every run of separators in `string` into a single space, with
/// no space at either end: the words of `string` joined by single spaces.
pub fn sanitize_spaces(string: &str) -> (r: String)
    ensures
        r@ == joined_spaces(words_of(string@, Seq::empty())),
{
    let words = iter_words(string);
    let joinner = space_join(words);
    concat_strings(&joinner)
}

} // verus!
