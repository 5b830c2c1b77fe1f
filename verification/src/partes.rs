use vstd::prelude::*;
use crate::text::chars_to_string;

verus! {

// ---------------------------------------------------------------------------
// Particle classification of name tokens
// ---------------------------------------------------------------------------

/// The kind of a scanned token: one of the four connector particles,
/// matched case-insensitively against a whole token, or a generic name part.
#[derive(Debug, Clone, Copy, PartialEq, Eq, Structural)]
pub enum Partes {
    De,
    La,
    Del,
    Y,
    Parte,
}

/// One scanned token: its classification and the text it covers.
#[derive(Debug)]
pub struct Token {
    pub kind: Partes,
    pub text: String,
}

/// The whitespace that the scanner skips between tokens: space, tab and
/// newline.
pub open spec fn is_tok_sep(c: char) -> bool {
    c == ' ' || c == '\t' || c == '\n'
}

/// The maximal runs of non-whitespace characters of `s`, scanning left to
/// right with `cur` the run gathered so far; the whitespace between runs is
/// consumed and never emitted.
pub open spec fn runs_rec(s: Seq<char>, cur: Seq<char>) -> Seq<Seq<char>>
    decreases s.len(),
{
    if s.len() == 0 {
        if cur.len() == 0 {
            Seq::empty()
        } else {
            seq![cur]
        }
    } else if is_tok_sep(s[0]) {
        if cur.len() == 0 {
            runs_rec(s.drop_first(), Seq::empty())
        } else {
            seq![cur] + runs_rec(s.drop_first(), Seq::empty())
        }
    } else {
        runs_rec(s.drop_first(), cur.push(s[0]))
    }
}

/// The maximal non-empty runs of non-whitespace characters of `s`, in order.
pub open spec fn token_runs(s: Seq<char>) -> Seq<Seq<char>> {
    runs_rec(s, Seq::empty())
}

/// Whether a whole run spells the particle "de", case-insensitively.
pub open spec fn matches_de(w: Seq<char>) -> bool {
    w.len() == 2 && (w[0] == 'd' || w[0] == 'D') && (w[1] == 'e' || w[1] == 'E')
}

/// Whether a whole run spells the particle "la", case-insensitively.
pub open spec fn matches_la(w: Seq<char>) -> bool {
    w.len() == 2 && (w[0] == 'l' || w[0] == 'L') && (w[1] == 'a' || w[1] == 'A')
}

/// Whether a whole run spells the particle "del", case-insensitively.
pub open spec fn matches_del(w: Seq<char>) -> bool {
    w.len() == 3 && (w[0] == 'd' || w[0] == 'D') && (w[1] == 'e' || w[1] == 'E') && (w[2] == 'l'
        || w[2] == 'L')
}

/// Whether a whole run spells the particle "y", case-insensitively.
pub open spec fn matches_y(w: Seq<char>) -> bool {
    w.len() == 1 && (w[0] == 'y' || w[0] == 'Y')
}

/// The classification of one maximal run: a particle keyword only when its
/// case-insensitive spelling covers the entire run (so "Delgado" is a
/// generic part, never "del" followed by a fragment), and the generic part
/// kind otherwise. There is no reject outcome.
pub open spec fn classify(w: Seq<char>) -> Partes {
    if matches_de(w) {
        Partes::De
    } else if matches_la(w) {
        Partes::La
    } else if matches_del(w) {
        Partes::Del
    } else if matches_y(w) {
        Partes::Y
    } else {
        Partes::Parte
    }
}

fn is_tok_sep_char(c: char) -> (r: bool)
    ensures
        r == is_tok_sep(c),
{
    c == ' ' || c == '\t' || c == '\n'
}

/// Classify one whole run of non-whitespace characters.
fn classify_run(w: &Vec<char>) -> (r: Partes)
    ensures
        r == classify(w@),
{
    if w.len() == 2 && (w[0] == 'd' || w[0] == 'D') && (w[1] == 'e' || w[1] == 'E') {
        Partes::De
    } else if w.len() == 2 && (w[0] == 'l' || w[0] == 'L') && (w[1] == 'a' || w[1] == 'A') {
        Partes::La
    } else if w.len() == 3 && (w[0] == 'd' || w[0] == 'D') && (w[1] == 'e' || w[1] == 'E') && (
    w[2] == 'l' || w[2] == 'L') {
        Partes::Del
    } else if w.len() == 1 && (w[0] == 'y' || w[0] == 'Y') {
        Partes::Y
    } else {
        Partes::Parte
    }
}

/// Scan `nombre` left to right into classified tokens: each maximal run of
/// non-whitespace characters becomes exactly one token covering the whole
/// run, whitespace is skipped, and a keyword wins over the generic part
/// pattern only when it matches the full run.
pub fn lex_partes(nombre: &str) -> (r: Vec<Token>)
    ensures
        r@.map_values(|t: Token| t.text@) == token_runs(nombre@),
        forall|k: int|
            0 <= k < r@.len() ==> (#[trigger] r@[k]).kind == classify(token_runs(nombre@)[k]),
{
    let chars = crate::text::str_chars(nombre);
    let mut out: Vec<Token> = Vec::new();
    let mut cur: Vec<char> = Vec::new();
    let n = chars.len();
    let mut i: usize = 0;
    proof {
        assert(chars@.skip(0) =~= chars@);
        assert(out@.map_values(|t: Token| t.text@) =~= Seq::<Seq<char>>::empty());
        assert(Seq::<Seq<char>>::empty() + runs_rec(nombre@, Seq::empty()) =~= token_runs(
            nombre@,
        ));
    }
    while i < n
        invariant
            chars@ == nombre@,
            i <= n,
            n == chars@.len(),
            token_runs(nombre@) == out@.map_values(|t: Token| t.text@) + runs_rec(
                chars@.skip(i as int),
                cur@,
            ),
            forall|k: int|
                0 <= k < out@.len() ==> (#[trigger] out@[k]).kind == classify(out@[k].text@),
        decreases n - i,
    {
        let c = chars[i];
        proof {
            assert(chars@.skip(i as int)[0] == c);
            assert(chars@.skip(i as int).drop_first() =~= chars@.skip(i + 1));
        }
        if is_tok_sep_char(c) {
            let ghost old_texts = out@.map_values(|t: Token| t.text@);
            let ghost old_cur = cur@;
            if cur.len() > 0 {
                let kind = classify_run(&cur);
                let text = chars_to_string(&cur);
                out.push(Token { kind, text });
                cur = Vec::new();
                proof {
                    assert(out@.map_values(|t: Token| t.text@) =~= old_texts.push(old_cur));
                    assert(old_texts.push(old_cur) + runs_rec(chars@.skip(i + 1), Seq::empty())
                        =~= old_texts + (seq![old_cur] + runs_rec(
                        chars@.skip(i + 1),
                        Seq::empty(),
                    )));
                }
            } else {
                proof {
                    assert(cur@ =~= Seq::<char>::empty());
                }
            }
        } else {
            cur.push(c);
        }
        i = i + 1;
    }
    proof {
        assert(chars@.skip(n as int) =~= Seq::<char>::empty());
    }
    let ghost old_texts = out@.map_values(|t: Token| t.text@);
    let ghost old_cur = cur@;
    if cur.len() > 0 {
        let kind = classify_run(&cur);
        let text = chars_to_string(&cur);
        out.push(Token { kind, text });
        proof {
            assert(out@.map_values(|t: Token| t.text@) =~= old_texts.push(old_cur));
            assert(old_texts.push(old_cur) =~= old_texts + seq![old_cur]);
        }
    } else {
        proof {
            assert(out@.map_values(|t: Token| t.text@) =~= old_texts
                + Seq::<Seq<char>>::empty());
        }
    }
    proof {
        let texts = out@.map_values(|t: Token| t.text@);
        assert forall|k: int| 0 <= k < out@.len() implies (#[trigger] out@[k]).kind == classify(
            token_runs(nombre@)[k],
        ) by {
            assert(token_runs(nombre@)[k] == texts[k]);
            assert(texts[k] == out@[k].text@);
        }
    }
    out
}

/// Every token covers a maximal run: non-empty and free of the scanner's
/// whitespace throughout.
pub proof fn lemma_token_runs_plain(s: Seq<char>)
    ensures
        forall|k: int|
            0 <= k < token_runs(s).len() ==> (#[trigger] token_runs(s)[k]).len() > 0 && forall|
                i: int,
            | 0 <= i < token_runs(s)[k].len() ==> !is_tok_sep(#[trigger] token_runs(s)[k][i]),
{
    lemma_runs_rec_plain(s, Seq::empty());
}

proof fn lemma_runs_rec_plain(s: Seq<char>, cur: Seq<char>)
    requires
        forall|i: int| 0 <= i < cur.len() ==> !is_tok_sep(#[trigger] cur[i]),
    ensures
        forall|k: int|
            0 <= k < runs_rec(s, cur).len() ==> (#[trigger] runs_rec(s, cur)[k]).len() > 0
                && forall|i: int|
                0 <= i < runs_rec(s, cur)[k].len() ==> !is_tok_sep(#[trigger] runs_rec(s, cur)[k][i]),
    decreases s.len(),
{
    let ws = runs_rec(s, cur);
    if s.len() == 0 {
    } else if is_tok_sep(s[0]) {
        lemma_runs_rec_plain(s.drop_first(), Seq::empty());
        let rest = runs_rec(s.drop_first(), Seq::empty());
        assert forall|k: int| 0 <= k < ws.len() implies (#[trigger] ws[k]).len() > 0 && forall|
            i: int,
        |
            0 <= i < ws[k].len() ==> !is_tok_sep(#[trigger] ws[k][i]) by {
            if cur.len() > 0 {
                if k == 0 {
                    assert(ws[k] == cur);
                } else {
                    assert(ws[k] == rest[k - 1]);
                }
            } else {
                assert(ws[k] == rest[k]);
            }
        }
    } else {
        assert(forall|i: int|
            0 <= i < cur.push(s[0]).len() ==> !is_tok_sep(#[trigger] cur.push(s[0])[i]));
        lemma_runs_rec_plain(s.drop_first(), cur.push(s[0]));
        let rest = runs_rec(s.drop_first(), cur.push(s[0]));
        assert forall|k: int| 0 <= k < ws.len() implies (#[trigger] ws[k]).len() > 0 && forall|
            i: int,
        |
            0 <= i < ws[k].len() ==> !is_tok_sep(#[trigger] ws[k][i]) by {
            assert(ws[k] == rest[k]);
        }
    }
}

} // verus!
