//! The pieces of text the command-line player speaks one after the other.

use vstd::prelude::*;

use crate::kokoro::{all_trimmed, is_terminal};
use crate::text::{
    chars_of, flat_words, is_ws, law_trim_idempotent, lemma_trim, lemma_words_leading_space,
    lemma_words_split, spec_trim, spec_words, string_of, trim_chars, trim_start, views,
};

verus! {

broadcast use vstd::string::group_string_axioms;

/// The pieces cut so far and the text since the last cut, scanning left to
/// right: every `.`, `!` or `?` ends a piece.
pub open spec fn split_state(s: Seq<char>) -> (Seq<Seq<char>>, Seq<char>)
    decreases s.len(),
{
    if s.len() == 0 {
        (Seq::empty(), Seq::empty())
    } else {
        let (parts, buf) = split_state(s.drop_last());
        let buf = buf.push(s.last());
        if is_terminal(s.last()) {
            let t = spec_trim(buf);
            (
                if t.len() > 0 {
                    parts.push(t)
                } else {
                    parts
                },
                Seq::empty(),
            )
        } else {
            (parts, buf)
        }
    }
}

/// The text cut after every `.`, `!` and `?`, each piece trimmed, empty pieces dropped.
pub open spec fn spec_split_sentences(s: Seq<char>) -> Seq<Seq<char>> {
    let (parts, buf) = split_state(s);
    let tail = spec_trim(buf);
    if tail.len() > 0 {
        parts.push(tail)
    } else {
        parts
    }
}

/// Cuts a text after every `.`, `!` and `?` (see `spec_split_sentences`).
pub fn split_sentences(text: &str) -> (res: Vec<String>)
    ensures
        views(res@) == spec_split_sentences(text@),
{
    let v = chars_of(text);
    let mut parts: Vec<String> = Vec::new();
    let mut buf: Vec<char> = Vec::new();
    let mut i: usize = 0;
    while i < v.len()
        invariant
            i <= v.len(),
            v@ == text@,
            split_state(v@.take(i as int)) == (views(parts@), buf@),
        decreases v.len() - i,
    {
        assert(v@.take(i + 1).drop_last() =~= v@.take(i as int));
        let ch = v[i];
        buf.push(ch);
        if ch == '.' || ch == '!' || ch == '?' {
            let s = trim_chars(&buf);
            if s.len() > 0 {
                let ghost old = parts@;
                parts.push(string_of(&s));
                assert(views(parts@) =~= views(old).push(s@));
            }
            buf = Vec::new();
        }
        i = i + 1;
    }
    assert(v@.take(v.len() as int) =~= v@);
    let tail = trim_chars(&buf);
    if tail.len() > 0 {
        let ghost old = parts@;
        parts.push(string_of(&tail));
        assert(views(parts@) =~= views(old).push(tail@));
    }
    parts
}

/// Neighbouring pieces joined in pairs with a space; an odd last piece stands alone.
pub open spec fn spec_pair_sentences(s: Seq<Seq<char>>) -> Seq<Seq<char>> {
    Seq::new(
        ((s.len() + 1) / 2) as nat,
        |i: int|
            if 2 * i + 1 < s.len() {
                s[2 * i] + " "@ + s[2 * i + 1]
            } else {
                s[2 * i]
            },
    )
}

/// The pieces spoken one after the other: sentences joined in pairs.
pub fn pair_sentences(sentences: &Vec<String>) -> (res: Vec<String>)
    ensures
        views(res@) == spec_pair_sentences(views(sentences@)),
{
    let n = sentences.len();
    let ghost sv = views(sentences@);
    let mut res: Vec<String> = Vec::new();
    let mut k: usize = 0;
    while k < n - k
        invariant
            k <= n,
            2 * k <= n + 1,
            n == sentences@.len(),
            sv == views(sentences@),
            sv.len() == n,
            views(res@) == spec_pair_sentences(sv).take(k as int),
        decreases n - k,
    {
        let i = 2 * k;
        let mut s = String::from_str(sentences[i].as_str());
        if i + 1 < n {
            s.append(" ");
            s.append(sentences[i + 1].as_str());
            assert(s@ == sv[i as int] + " "@ + sv[i + 1]);
        } else {
            assert(s@ == sv[i as int]);
        }
        assert(spec_pair_sentences(sv)[k as int] == s@);
        let ghost old = res@;
        res.push(s);
        assert(views(res@) =~= views(old).push(s@));
        assert(spec_pair_sentences(sv).take(k + 1) =~= spec_pair_sentences(sv).take(k as int).push(
            s@,
        ));
        k = k + 1;
    }
    assert(spec_pair_sentences(sv).take(k as int) =~= spec_pair_sentences(sv));
    res
}


proof fn lemma_split_state_trimmed(s: Seq<char>)
    ensures
        all_trimmed(split_state(s).0),
    decreases s.len(),
{
    if s.len() > 0 {
        lemma_split_state_trimmed(s.drop_last());
        let (parts, buf) = split_state(s.drop_last());
        let buf = buf.push(s.last());
        if is_terminal(s.last()) {
            let t = spec_trim(buf);
            law_trim_idempotent(buf);
            if t.len() > 0 {
                assert forall|i: int| 0 <= i < parts.push(t).len() implies (#[trigger] parts.push(
                    t,
                )[i]).len() > 0 && spec_trim(parts.push(t)[i]) == parts.push(t)[i] by {
                    if i < parts.len() {
                        assert(parts.push(t)[i] == parts[i]);
                    }
                }
            }
        }
    }
}

/// No piece is empty, and none starts or ends with white space.
pub proof fn law_split_sentences_trimmed(text: Seq<char>)
    ensures
        all_trimmed(spec_split_sentences(text)),
{
    lemma_split_state_trimmed(text);
    let (parts, buf) = split_state(text);
    let tail = spec_trim(buf);
    law_trim_idempotent(buf);
    if tail.len() > 0 {
        assert forall|i: int| 0 <= i < parts.push(tail).len() implies (#[trigger] parts.push(
            tail,
        )[i]).len() > 0 && spec_trim(parts.push(tail)[i]) == parts.push(tail)[i] by {
            if i < parts.len() {
                assert(parts.push(tail)[i] == parts[i]);
            }
        }
    }
}


/// A piece cut at a terminal: it ends with `.`, `!` or `?` and holds none
/// of them before its last character.
pub open spec fn cut_at_end(p: Seq<char>) -> bool {
    &&& p.len() > 0
    &&& (p.last() == '.' || p.last() == '!' || p.last() == '?')
    &&& forall|j: int| 0 <= j < p.len() - 1 ==> #[trigger] p[j] != '.' && p[j] != '!' && p[j] != '?'
}

/// A text that holds no `.`, `!` or `?`.
pub open spec fn no_terminal(p: Seq<char>) -> bool {
    forall|j: int| 0 <= j < p.len() ==> #[trigger] p[j] != '.' && p[j] != '!' && p[j] != '?'
}

/// Trimming a text that ends with a character other than white space keeps
/// that last character, and leaves a non-empty text.
proof fn lemma_trim_keeps_last(s: Seq<char>)
    requires
        s.len() > 0,
        !is_ws(s.last()),
    ensures
        trim_start(s).len() > 0,
        trim_start(s).last() == s.last(),
        spec_trim(s) == trim_start(s),
    decreases s.len(),
{
    if is_ws(s[0]) {
        assert(s.len() > 1);
        assert(s.skip(1).last() == s.last());
        lemma_trim_keeps_last(s.skip(1));
    }
}

/// Every cut piece ends at a terminal and holds no other; the text since the
/// last cut holds none.
proof fn lemma_split_state_cuts(s: Seq<char>)
    ensures
        forall|i: int| 0 <= i < split_state(s).0.len() ==> cut_at_end(#[trigger] split_state(s).0[i]),
        no_terminal(split_state(s).1),
    decreases s.len(),
{
    if s.len() > 0 {
        lemma_split_state_cuts(s.drop_last());
        let (parts, buf0) = split_state(s.drop_last());
        let buf = buf0.push(s.last());
        if is_terminal(s.last()) {
            let t = spec_trim(buf);
            lemma_trim_keeps_last(buf);
            let r = lemma_trim(buf);
            assert(t.last() == buf.last());
            assert(t[t.len() - 1] == buf[r.1 - 1]);
            if r.1 - 1 < buf.len() - 1 {
                assert(buf[r.1 - 1] == buf0[r.1 - 1]);
            }
            assert forall|j: int| 0 <= j < t.len() - 1 implies #[trigger] t[j] != '.' && t[j]
                != '!' && t[j] != '?' by {
                assert(t[j] == buf[r.0 + j]);
                assert(buf[r.0 + j] == buf0[r.0 + j]);
            }
            assert(cut_at_end(t));
            assert forall|i: int| 0 <= i < parts.push(t).len() implies cut_at_end(
                #[trigger] parts.push(t)[i],
            ) by {
                if i < parts.len() {
                    assert(parts.push(t)[i] == parts[i]);
                }
            }
        } else {
            assert forall|j: int| 0 <= j < buf.len() implies #[trigger] buf[j] != '.' && buf[j]
                != '!' && buf[j] != '?' by {
                if j < buf0.len() {
                    assert(buf[j] == buf0[j]);
                }
            }
        }
    }
}

/// Every `.`, `!` and `?` ends a piece: each piece but the last ends with one
/// of them, and no piece holds one before its last character.
pub proof fn law_split_sentences_cut_at_terminals(text: Seq<char>)
    ensures
        forall|i: int|
            0 <= i < spec_split_sentences(text).len() - 1 ==> cut_at_end(
                #[trigger] spec_split_sentences(text)[i],
            ),
        forall|i: int, j: int|
            0 <= i < spec_split_sentences(text).len() && 0 <= j < spec_split_sentences(text)[i].len()
                - 1 ==> #[trigger] spec_split_sentences(text)[i][j] != '.'
                && spec_split_sentences(text)[i][j] != '!' && spec_split_sentences(text)[i][j] != '?',
{
    lemma_split_state_cuts(text);
    let (parts, buf) = split_state(text);
    let tail = spec_trim(buf);
    let ps = spec_split_sentences(text);
    let r = lemma_trim(buf);
    assert forall|j: int| 0 <= j < tail.len() implies #[trigger] tail[j] != '.' && tail[j] != '!'
        && tail[j] != '?' by {
        assert(tail[j] == buf[r.0 + j]);
    }
    assert forall|i: int| 0 <= i < ps.len() implies (i < ps.len() - 1 ==> cut_at_end(#[trigger] ps[i]))
        && (forall|j: int| 0 <= j < ps[i].len() - 1 ==> #[trigger] ps[i][j] != '.' && ps[i][j] != '!'
        && ps[i][j] != '?') by {
        if i < parts.len() {
            assert(ps[i] == parts[i]);
            assert(cut_at_end(parts[i]));
        } else {
            assert(ps[i] == tail);
        }
    }
}

/// Speaking the pieces in pairs keeps every word of every piece, in order.
pub proof fn law_pairs_keep_words(s: Seq<Seq<char>>)
    ensures
        flat_words(spec_pair_sentences(s)) == flat_words(s),
    decreases s.len(),
{
    reveal_strlit(" ");
    let p = spec_pair_sentences(s);
    if s.len() == 0 {
        assert(p =~= Seq::<Seq<char>>::empty());
    } else if s.len() % 2 == 1 {
        let s1 = s.drop_last();
        law_pairs_keep_words(s1);
        assert(spec_pair_sentences(s1) =~= p.drop_last());
        assert(p.last() == s.last());
    } else {
        let s2 = s.take(s.len() - 2);
        law_pairs_keep_words(s2);
        assert(spec_pair_sentences(s2) =~= p.drop_last());
        let a = s[s.len() - 2];
        let b = s[s.len() - 1];
        assert(p.last() == a + " "@ + b);
        lemma_words_split(a, " "@ + b);
        assert(" "@ =~= seq![' ']);
        lemma_words_leading_space(' ', b);
        assert(a + " "@ + b =~= a + (" "@ + b));
        assert(s.drop_last().drop_last() =~= s2);
        assert(s.drop_last().last() == a);
        assert(flat_words(s.drop_last()) == flat_words(s2) + spec_words(a));
        assert(flat_words(s) == flat_words(s2) + spec_words(a) + spec_words(b));
        assert(Seq::<Seq<char>>::empty() + spec_words(b) =~= spec_words(b));
        assert(flat_words(s2) + (spec_words(a) + spec_words(b)) =~= flat_words(s2) + spec_words(a)
            + spec_words(b));
    }
}

} // verus!
