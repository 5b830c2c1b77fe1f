use vstd::prelude::*;
use vstd::string::StrSliceExecFns;

verus! {

// ---------------------------------------------------------------------------
// Separator and whitespace predicates
// ---------------------------------------------------------------------------

/// The separator characters that word splitting always recognizes:
/// space, newline, tab and carriage return.
pub open spec fn is_base_sep(c: char) -> bool {
    c == ' ' || c == '\n' || c == '\t' || c == '\r'
}

/// A character is a separator if it is a base separator or one of the
/// caller-supplied extra separator characters.
pub open spec fn is_sep(c: char, extras: Seq<char>) -> bool {
    is_base_sep(c) || extras.contains(c)
}

/// The Unicode White_Space characters, the set that trimming removes from
/// the edges of a word fragment.
pub open spec fn is_ws(c: char) -> bool {
    ||| c == ' '
    ||| (0x09 <= c as u32 && c as u32 <= 0x0d)
    ||| c as u32 == 0x85
    ||| c as u32 == 0xa0
    ||| c as u32 == 0x1680
    ||| (0x2000 <= c as u32 && c as u32 <= 0x200a)
    ||| c as u32 == 0x2028
    ||| c as u32 == 0x2029
    ||| c as u32 == 0x202f
    ||| c as u32 == 0x205f
    ||| c as u32 == 0x3000
}

pub proof fn lemma_base_sep_is_ws(c: char)
    ensures
        is_base_sep(c) ==> is_ws(c),
{
}

pub fn is_ws_char(c: char) -> (r: bool)
    ensures
        r == is_ws(c),
{
    let u = c as u32;
    u == 0x20 || (0x09 <= u && u <= 0x0d) || u == 0x85 || u == 0xa0 || u == 0x1680 || (0x2000 <= u
        && u <= 0x200a) || u == 0x2028 || u == 0x2029 || u == 0x202f || u == 0x205f || u == 0x3000
}

pub fn is_base_sep_char(c: char) -> (r: bool)
    ensures
        r == is_base_sep(c),
{
    c == ' ' || c == '\n' || c == '\t' || c == '\r'
}

/// Whether a vector of characters contains the given character.
pub fn contains_char(v: &Vec<char>, c: char) -> (r: bool)
    ensures
        r == v@.contains(c),
{
    let mut i: usize = 0;
    while i < v.len()
        invariant
            i <= v@.len(),
            forall|j: int| 0 <= j < i ==> v@[j] != c,
        decreases v@.len() - i,
    {
        if v[i] == c {
            return true;
        }
        i = i + 1;
    }
    false
}

pub fn is_sep_char(c: char, extras: &Vec<char>) -> (r: bool)
    ensures
        r == is_sep(c, extras@),
{
    is_base_sep_char(c) || contains_char(extras, c)
}

// ---------------------------------------------------------------------------
// Concatenation of a sequence of character sequences
// ---------------------------------------------------------------------------

/// All the character sequences of `ws` laid end to end, in order.
pub open spec fn concat_all(ws: Seq<Seq<char>>) -> Seq<char>
    decreases ws.len(),
{
    if ws.len() == 0 {
        Seq::empty()
    } else {
        concat_all(ws.drop_last()) + ws.last()
    }
}

pub proof fn lemma_concat_all_push(ws: Seq<Seq<char>>, w: Seq<char>)
    ensures
        concat_all(ws.push(w)) == concat_all(ws) + w,
{
    assert(ws.push(w).drop_last() =~= ws);
    assert(ws.push(w).last() == w);
}

pub proof fn lemma_concat_all_add(a: Seq<Seq<char>>, b: Seq<Seq<char>>)
    ensures
        concat_all(a + b) == concat_all(a) + concat_all(b),
    decreases b.len(),
{
    if b.len() == 0 {
        assert(a + b =~= a);
        assert(concat_all(a) + concat_all(b) =~= concat_all(a));
    } else {
        lemma_concat_all_add(a, b.drop_last());
        assert((a + b).drop_last() =~= a + b.drop_last());
        assert((a + b).last() == b.last());
        assert((concat_all(a) + concat_all(b.drop_last())) + b.last() =~= concat_all(a)
            + concat_all(b));
    }
}

pub proof fn lemma_concat_all_single(w: Seq<char>)
    ensures
        concat_all(seq![w]) == w,
{
    assert(seq![w].drop_last() =~= Seq::<Seq<char>>::empty());
    assert(concat_all(Seq::<Seq<char>>::empty()) =~= Seq::<char>::empty());
    assert(Seq::<char>::empty() + w =~= w);
}

pub proof fn lemma_concat_all_pair(a: Seq<char>, b: Seq<char>)
    ensures
        concat_all(seq![a, b]) == a + b,
{
    assert(seq![a, b].drop_last() =~= seq![a]);
    lemma_concat_all_single(a);
}

pub proof fn lemma_concat_all_first(w: Seq<char>, ws: Seq<Seq<char>>)
    ensures
        concat_all(seq![w] + ws) == w + concat_all(ws),
{
    lemma_concat_all_add(seq![w], ws);
    assert(seq![w].drop_last() =~= Seq::<Seq<char>>::empty());
    assert(concat_all(Seq::<Seq<char>>::empty()) =~= Seq::<char>::empty());
    assert(concat_all(seq![w]) =~= w);
}

// ---------------------------------------------------------------------------
// Character-level outside calls
// ---------------------------------------------------------------------------

/// The first scalar value of the canonical (NFD) decomposition of a
/// character: the base character, with any combining marks dropped.
pub uninterp spec fn nfd_first(c: char) -> char;

/// Relies on unicode_normalization's UnicodeNormalization::nfd for char:
/// canonical decomposition, a fixed table lookup that depends on the
/// character alone and yields at least one scalar value for every character.
#[verifier::external_body]
pub(crate) fn nfd_first_char(c: char) -> (r: char)
    ensures
        r == nfd_first(c),
{
    unicode_normalization::UnicodeNormalization::nfd(c)
        .next()
        .expect("canonical decomposition yields at least one scalar")
}

/// The full Unicode lowercase mapping of a character, one or more characters.
pub uninterp spec fn lower_of(c: char) -> Seq<char>;

/// Relies on char::to_lowercase: the lowercase mapping of a character,
/// documented to yield one or more characters that depend on the character
/// alone (a character with no mapping yields itself).
#[verifier::external_body]
pub(crate) fn char_lower(c: char) -> (r: Vec<char>)
    ensures
        r@ == lower_of(c),
        r@.len() >= 1,
{
    c.to_lowercase().collect()
}

/// The full Unicode uppercase mapping of a character, one or more characters.
pub uninterp spec fn upper_of(c: char) -> Seq<char>;

/// Relies on char::to_uppercase: the uppercase mapping of a character,
/// documented to yield one or more characters that depend on the character
/// alone (a character with no mapping yields itself).
#[verifier::external_body]
pub(crate) fn char_upper(c: char) -> (r: Vec<char>)
    ensures
        r@ == upper_of(c),
        r@.len() >= 1,
{
    c.to_uppercase().collect()
}

/// The first character of the lowercase mapping of a character.
pub open spec fn first_lower(c: char) -> char {
    lower_of(c)[0]
}

pub(crate) fn first_lower_char(c: char) -> (r: char)
    ensures
        r == first_lower(c),
{
    let v = char_lower(c);
    v[0]
}

// ---------------------------------------------------------------------------
// Conversions between strings and character vectors
// ---------------------------------------------------------------------------

/// The characters of a string slice as a vector.
pub fn str_chars(s: &str) -> (r: Vec<char>)
    ensures
        r@ == s@,
{
    let n = s.unicode_len();
    let mut r: Vec<char> = Vec::new();
    let mut i: usize = 0;
    while i < n
        invariant
            n == s@.len(),
            i <= n,
            r@ == s@.take(i as int),
        decreases n - i,
    {
        let c = s.get_char(i);
        r.push(c);
        proof {
            assert(s@.take(i + 1) =~= s@.take(i as int).push(s@[i as int]));
        }
        i = i + 1;
    }
    proof {
        assert(s@.take(n as int) =~= s@);
    }
    r
}

/// Relies on String's FromIterator over char: collecting characters yields
/// the string of exactly those characters in order.
#[verifier::external_body]
pub(crate) fn chars_to_string(v: &Vec<char>) -> (r: String)
    ensures
        r@ == v@,
{
    v.iter().copied().collect()
}

} // verus!
