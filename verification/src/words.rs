//! Word-oriented text normalization: whitespace collapsing and title-casing
//! of personal names.

use vstd::prelude::*;
use crate::text::{
    chars_of, concat_chars, is_space, is_space_c, string_from_chars, subvec,
};

verus! {

/// Splitting state after reading a prefix: the completed words and the
/// partial word still being read.
pub open spec fn split_words_state(s: Seq<char>) -> (Seq<Seq<char>>, Seq<char>)
    decreases s.len(),
{
    if s.len() == 0 {
        (Seq::empty(), Seq::empty())
    } else {
        let prev = split_words_state(s.drop_last());
        let c = s.last();
        if is_space_c(c) {
            if prev.1.len() > 0 {
                (prev.0.push(prev.1), Seq::empty())
            } else {
                (prev.0, Seq::empty())
            }
        } else {
            (prev.0, prev.1.push(c))
        }
    }
}

/// The words of a text: its maximal runs of non-whitespace characters,
/// left to right.
pub open spec fn words_of(s: Seq<char>) -> Seq<Seq<char>> {
    let st = split_words_state(s);
    if st.1.len() > 0 {
        st.0.push(st.1)
    } else {
        st.0
    }
}

proof fn lemma_split_words_state_nonempty(s: Seq<char>)
    ensures
        forall|i: int|
            0 <= i < split_words_state(s).0.len() ==> #[trigger] split_words_state(
                s,
            ).0[i].len() > 0,
    decreases s.len(),
{
    if s.len() > 0 {
        lemma_split_words_state_nonempty(s.drop_last());
        let prev = split_words_state(s.drop_last());
        if is_space_c(s.last()) && prev.1.len() > 0 {
            assert forall|i: int| 0 <= i < split_words_state(s).0.len() implies #[trigger] split_words_state(
                s,
            ).0[i].len() > 0 by {
                if i < prev.0.len() {
                    assert(split_words_state(s).0[i] == prev.0[i]);
                } else {
                    assert(split_words_state(s).0[i] == prev.1);
                }
            }
        } else {
            assert(split_words_state(s).0 == prev.0);
        }
    }
}

/// Every word of a text is non-empty.
pub proof fn lemma_words_nonempty(s: Seq<char>)
    ensures
        forall|i: int| 0 <= i < words_of(s).len() ==> #[trigger] words_of(s)[i].len() > 0,
{
    lemma_split_words_state_nonempty(s);
}

/// Splits a character vector into its whitespace-delimited words.
pub fn split_words(v: &Vec<char>) -> (r: Vec<Vec<char>>)
    ensures
        r.deep_view() == words_of(v@),
{
    let mut ws: Vec<Vec<char>> = Vec::new();
    let mut cur: Vec<char> = Vec::new();
    let mut i: usize = 0;
    while i < v.len()
        invariant
            i <= v@.len(),
            ws.deep_view() == split_words_state(v@.take(i as int)).0,
            cur@ == split_words_state(v@.take(i as int)).1,
        decreases v@.len() - i,
    {
        let c = v[i];
        proof {
            assert(v@.take(i + 1 as int).drop_last() =~= v@.take(i as int));
            assert(v@.take(i + 1 as int).last() == v@[i as int]);
        }
        if is_space(c) {
            if cur.len() > 0 {
                let ghost old_ws = ws.deep_view();
                let ghost old_cur = cur@;
                ws.push(cur);
                cur = Vec::new();
                proof {
                    assert(ws.deep_view() =~~= old_ws.push(old_cur));
                }
            }
        } else {
            cur.push(c);
        }
        i += 1;
    }
    proof {
        assert(v@.take(v@.len() as int) =~= v@);
    }
    if cur.len() > 0 {
        let ghost old_ws = ws.deep_view();
        let ghost old_cur = cur@;
        ws.push(cur);
        proof {
            assert(ws.deep_view() =~~= old_ws.push(old_cur));
        }
    }
    ws
}

/// Words joined by single ASCII spaces.
pub open spec fn join_words(ws: Seq<Seq<char>>) -> Seq<char>
    decreases ws.len(),
{
    if ws.len() == 0 {
        Seq::empty()
    } else if ws.len() == 1 {
        ws[0]
    } else {
        join_words(ws.drop_last()) + seq![' '] + ws.last()
    }
}

/// Joins words with single ASCII spaces.
pub fn join_with_spaces(ws: &Vec<Vec<char>>) -> (r: Vec<char>)
    ensures
        r@ == join_words(ws.deep_view()),
{
    let mut r: Vec<char> = Vec::new();
    let mut i: usize = 0;
    while i < ws.len()
        invariant
            i <= ws@.len(),
            ws.deep_view().len() == ws@.len(),
            r@ == join_words(ws.deep_view().take(i as int)),
        decreases ws@.len() - i,
    {
        proof {
            assert(ws.deep_view().take(i + 1 as int).drop_last() =~= ws.deep_view().take(
                i as int,
            ));
            assert(ws.deep_view().take(i + 1 as int).last() == ws.deep_view()[i as int]);
            assert(ws.deep_view()[i as int] == ws@[i as int]@);
        }
        if i > 0 {
            r.push(' ');
        }
        let ghost before = r@;
        let w = &ws[i];
        let mut k: usize = 0;
        while k < w.len()
            invariant
                k <= w@.len(),
                r@ == before + w@.take(k as int),
            decreases w@.len() - k,
        {
            r.push(w[k]);
            proof {
                assert(w@.take(k + 1 as int) =~= w@.take(k as int).push(w@[k as int]));
                assert(before + w@.take(k + 1 as int) =~= (before + w@.take(k as int)).push(
                    w@[k as int],
                ));
            }
            k += 1;
        }
        proof {
            assert(w@.take(w@.len() as int) =~= w@);
            if i == 0 {
                assert(join_words(ws.deep_view().take(1)) == ws.deep_view()[0]);
                assert(r@ =~= ws.deep_view().take(1)[0]);
            } else {
                assert(r@ =~= join_words(ws.deep_view().take(i as int)) + seq![' '] + w@);
            }
        }
        i += 1;
    }
    proof {
        assert(ws.deep_view().take(ws.deep_view().len() as int) =~= ws.deep_view());
    }
    r
}

/// A text with every run of whitespace collapsed to a single ASCII space
/// and surrounding whitespace removed: its words joined by single spaces.
pub open spec fn normalize_spec(s: Seq<char>) -> Seq<char> {
    join_words(words_of(s))
}

/// Collapses every run of whitespace to one ASCII space and trims the ends.
pub fn normalize_chars(s: &str) -> (r: String)
    ensures
        r@ == normalize_spec(s@),
{
    let v = chars_of(s);
    let ws = split_words(&v);
    let j = join_with_spaces(&ws);
    string_from_chars(&j)
}

/// What `str::to_lowercase` returns for the given characters; the result
/// depends on the characters alone.
pub uninterp spec fn lower_of(s: Seq<char>) -> Seq<char>;

/// Relies on `str::to_lowercase`: Unicode lowercasing of the whole string,
/// a function of the characters alone.
#[verifier::external_body]
pub(crate) fn to_lowercase(s: &str) -> (r: String)
    ensures
        r@ == lower_of(s@),
{
    s.to_lowercase()
}

/// What `char::to_uppercase` returns for the given character; the result
/// depends on the character alone.
pub uninterp spec fn upper_of_char(c: char) -> Seq<char>;

/// Relies on `char::to_uppercase`: Unicode uppercasing of one character,
/// a function of the character alone.
#[verifier::external_body]
pub(crate) fn char_to_uppercase(c: char) -> (r: String)
    ensures
        r@ == upper_of_char(c),
{
    c.to_uppercase().collect()
}

/// A word in title case: first character uppercased, the rest lowercased.
pub open spec fn cap_word_spec(w: Seq<char>) -> Seq<char> {
    upper_of_char(w[0]) + lower_of(w.subrange(1, w.len() as int))
}

/// A name in title case: each word title-cased, joined by single spaces.
pub open spec fn cap_words_spec(s: Seq<char>) -> Seq<char> {
    join_words(words_of(s).map_values(|w: Seq<char>| cap_word_spec(w)))
}

/// Title-cases each whitespace-delimited word of a personal name.
pub fn capitalize_words(s: &str) -> (r: String)
    ensures
        r@ == cap_words_spec(s@),
{
    let v = chars_of(s);
    let ws = split_words(&v);
    proof {
        lemma_words_nonempty(s@);
    }
    let mut out: Vec<Vec<char>> = Vec::new();
    let mut i: usize = 0;
    while i < ws.len()
        invariant
            i <= ws@.len(),
            ws.deep_view() == words_of(v@),
            v@ == s@,
            ws.deep_view().len() == ws@.len(),
            forall|k: int| 0 <= k < words_of(s@).len() ==> #[trigger] words_of(s@)[k].len() > 0,
            out.deep_view() =~= words_of(s@).map_values(|w: Seq<char>| cap_word_spec(w)).take(
                i as int,
            ),
        decreases ws@.len() - i,
    {
        let w = &ws[i];
        proof {
            assert(ws.deep_view()[i as int] == ws@[i as int]@);
            assert(words_of(s@)[i as int].len() > 0);
        }
        let up = char_to_uppercase(w[0]);
        let tail = subvec(w, 1, w.len());
        let tail_s = string_from_chars(&tail);
        let low = to_lowercase(tail_s.as_str());
        let up_v = chars_of(up.as_str());
        let low_v = chars_of(low.as_str());
        let cap = concat_chars(&up_v, &low_v);
        let ghost old_out = out.deep_view();
        out.push(cap);
        proof {
            assert(out.deep_view() =~~= old_out.push(cap@));
            assert(cap@ == cap_word_spec(words_of(s@)[i as int]));
            let mapped = words_of(s@).map_values(|w: Seq<char>| cap_word_spec(w));
            assert(mapped.take(i + 1 as int) =~= mapped.take(i as int).push(mapped[i as int]));
        }
        i += 1;
    }
    proof {
        let mapped = words_of(s@).map_values(|w: Seq<char>| cap_word_spec(w));
        assert(mapped.take(mapped.len() as int) =~= mapped);
    }
    let j = join_with_spaces(&out);
    string_from_chars(&j)
}

} // verus!
