//! The substitution engine: rewrites every maximal run of word characters
//! that names a substitution macro, leaving everything else verbatim. A name
//! inside a longer identifier is not touched, and replacement text is never
//! re-scanned.

use crate::table::{pairs_lookup, pairs_map, unique_keys};
use crate::text::{
    is_word_char, lemma_word_len_is, lemma_word_len_le, push_char, word_char, word_len,
};
use vstd::prelude::*;
use vstd::string::StrSliceExecFns;
use vstd::string::StringExecFns;

verus! {

/// The line with every whole-word occurrence of a key of `m` replaced by its
/// value, in a single left-to-right pass.
pub open spec fn spec_subst(m: Map<Seq<char>, Seq<char>>, s: Seq<char>) -> Seq<char>
    decreases s.len(),
    via spec_subst_dec
{
    if s.len() == 0 {
        Seq::empty()
    } else if !is_word_char(s[0]) {
        seq![s[0]] + spec_subst(m, s.drop_first())
    } else {
        let k = word_len(s) as int;
        let w = s.take(k);
        (if m.contains_key(w) {
            m[w]
        } else {
            w
        }) + spec_subst(m, s.skip(k))
    }
}

#[via_fn]
proof fn spec_subst_dec(m: Map<Seq<char>, Seq<char>>, s: Seq<char>) {
    if s.len() > 0 && is_word_char(s[0]) {
        lemma_word_len_le(s);
    }
}

/// Every line of `lines` with the substitution map applied.
pub open spec fn spec_subst_all(m: Map<Seq<char>, Seq<char>>, lines: Seq<Seq<char>>) -> Seq<
    Seq<char>,
>
    decreases lines.len(),
{
    if lines.len() == 0 {
        Seq::empty()
    } else {
        seq![spec_subst(m, lines[0])] + spec_subst_all(m, lines.skip(1))
    }
}

/// Applies the substitution map held by `subs` to one line.
pub fn substitute(subs: &Vec<(String, String)>, line: &str) -> (r: String)
    requires
        unique_keys(subs@),
    ensures
        r@ == spec_subst(pairs_map(subs@), line@),
{
    let n = line.unicode_len();
    let mut r = String::new();
    let mut i: usize = 0;
    proof {
        assert(line@.skip(0) =~= line@);
    }
    while i < n
        invariant
            i <= n,
            n as nat == line@.len(),
            unique_keys(subs@),
            r@ + spec_subst(pairs_map(subs@), line@.skip(i as int)) == spec_subst(
                pairs_map(subs@),
                line@,
            ),
        decreases n - i,
    {
        let ghost pm = pairs_map(subs@);
        let ghost suffix = line@.skip(i as int);
        let ghost r0 = r@;
        let c = line.get_char(i);
        proof {
            assert(suffix[0] == line@[i as int]);
        }
        if !word_char(c) {
            push_char(&mut r, c);
            proof {
                assert(suffix.drop_first() =~= line@.skip(i as int + 1));
                assert(spec_subst(pm, suffix) == seq![c] + spec_subst(pm, suffix.drop_first()));
                assert(r@ =~= r0 + seq![c]);
                assert((r0 + seq![c]) + spec_subst(pm, line@.skip(i as int + 1)) =~= r0 + (
                seq![c] + spec_subst(pm, line@.skip(i as int + 1))));
            }
            i += 1;
        } else {
            let mut j: usize = i + 1;
            while j < n && word_char(line.get_char(j))
                invariant
                    i < j <= n,
                    n as nat == line@.len(),
                    forall|k: int| i <= k < j ==> is_word_char(line@[k]),
                decreases n - j,
            {
                j += 1;
            }
            let w = line.substring_char(i, j);
            proof {
                assert forall|k: int| 0 <= k < j - i implies is_word_char(suffix[k]) by {
                    assert(suffix[k] == line@[i + k]);
                }
                if j < n {
                    assert(suffix[j - i] == line@[j as int]);
                }
                lemma_word_len_is(suffix, j - i);
                assert(suffix.take(j - i) =~= line@.subrange(i as int, j as int));
                assert(suffix.skip(j - i) =~= line@.skip(j as int));
                assert(w@ == suffix.take(j - i));
                assert(spec_subst(pm, suffix) == (if pm.contains_key(w@) {
                    pm[w@]
                } else {
                    w@
                }) + spec_subst(pm, line@.skip(j as int)));
            }
            match pairs_lookup(subs, w) {
                Some(t) => {
                    r.append(t.as_str());
                    proof {
                        assert(r@ == r0 + pm[w@]);
                        assert((r0 + pm[w@]) + spec_subst(pm, line@.skip(j as int)) =~= r0 + (
                        pm[w@] + spec_subst(pm, line@.skip(j as int))));
                    }
                },
                None => {
                    r.append(w);
                    proof {
                        assert(r@ == r0 + w@);
                        assert((r0 + w@) + spec_subst(pm, line@.skip(j as int)) =~= r0 + (w@
                            + spec_subst(pm, line@.skip(j as int))));
                    }
                },
            }
            i = j;
        }
    }
    proof {
        assert(line@.skip(n as int) =~= Seq::<char>::empty());
        assert(r@ + spec_subst(pairs_map(subs@), Seq::<char>::empty()) =~= r@);
    }
    r
}

} // verus!
