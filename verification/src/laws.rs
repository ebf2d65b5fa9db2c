//! The library's general laws, stated and proved over the spec-level model.

use crate::engine::{
    is_directive, kw_define, kw_inclusion, kw_marker, kw_region_end, kw_region_start, kw_undef,
    spec_define, spec_run, spec_step, spec_undef, Model, PreprocessorError,
};
use crate::subst::{spec_subst, spec_subst_all};
use crate::text::{
    is_word_char, lemma_lines_concat, lemma_word_len_le, spec_join, spec_lines, spec_tokens,
    word_len,
};
use vstd::prelude::*;

verus! {

/// Defining a name as a flag and then as a substitution leaves the name in
/// exactly the substitution map, never in both categories.
pub proof fn lemma_flag_then_substitution(m: Model, toks1: Seq<Seq<char>>, toks2: Seq<Seq<char>>)
    requires
        toks1.len() == 2,
        toks2.len() >= 3,
        toks1[1] == toks2[1],
    ensures
        spec_define(m, toks1) is Ok,
        spec_define(spec_define(m, toks1).unwrap(), toks2) is Ok,
        spec_define(spec_define(m, toks1).unwrap(), toks2).unwrap().subs.contains_key(toks1[1]),
        !spec_define(spec_define(m, toks1).unwrap(), toks2).unwrap().flags.contains(toks1[1]),
{
}

/// Defining a name as a substitution and then passing it to the removal
/// handler leaves the binding untouched: removal targets the flag set only.
pub proof fn lemma_substitution_survives_undef(
    m: Model,
    toksd: Seq<Seq<char>>,
    toksu: Seq<Seq<char>>,
)
    requires
        toksd.len() >= 3,
        toksu.len() >= 2,
        toksu[1] == toksd[1],
    ensures
        spec_define(m, toksd) is Ok,
        spec_undef(spec_define(m, toksd).unwrap(), toksu) is Ok,
        spec_undef(spec_define(m, toksd).unwrap(), toksu).unwrap().subs == spec_define(
            m,
            toksd,
        ).unwrap().subs,
        spec_undef(spec_define(m, toksd).unwrap(), toksu).unwrap().subs.contains_key(toksd[1]),
        spec_undef(spec_define(m, toksd).unwrap(), toksu).unwrap().subs[toksd[1]] == spec_join(
            toksd.skip(2),
        ),
{
}

/// A region marker line never changes the state and never reaches the output.
pub proof fn lemma_region_marker_noop(m: Model, line: Seq<char>, existing: Set<Seq<char>>)
    requires
        is_directive(line),
        spec_tokens(line).len() >= 1,
        spec_tokens(line)[0] == kw_region_start() || spec_tokens(line)[0] == kw_region_end(),
    ensures
        spec_step(m, line, existing) == Ok::<(Model, Seq<char>), PreprocessorError>(
            (m, Seq::<char>::empty()),
        ),
{
    let t0 = spec_tokens(line)[0];
    reveal_strlit("#region");
    reveal_strlit("#endregion");
    reveal_strlit("#");
    reveal_strlit("#define");
    reveal_strlit("#undef");
    reveal_strlit("#in");
    reveal_strlit("clude");
    assert(kw_region_start().len() == 7);
    assert(kw_region_end().len() == 10);
    assert(kw_marker().len() == 1);
    assert(kw_define().len() == 7);
    assert(kw_undef().len() == 6);
    assert(kw_inclusion().len() == 8);
    if t0 == kw_region_start() {
        assert(kw_region_start()[1] == 'r');
        assert(kw_define()[1] == 'd');
        assert(t0 != kw_define());
        assert(t0 != kw_marker());
        assert(t0 != kw_undef());
        assert(t0 != kw_inclusion());
    } else {
        assert(t0 != kw_define());
        assert(t0 != kw_marker());
        assert(t0 != kw_undef());
        assert(t0 != kw_inclusion());
    }
}

/// With an empty substitution map, substitution keeps a line verbatim.
pub proof fn lemma_subst_empty_identity(s: Seq<char>)
    ensures
        spec_subst(Map::<Seq<char>, Seq<char>>::empty(), s) == s,
    decreases s.len(),
{
    let m = Map::<Seq<char>, Seq<char>>::empty();
    if s.len() == 0 {
        assert(spec_subst(m, s) =~= s);
    } else if !is_word_char(s[0]) {
        lemma_subst_empty_identity(s.drop_first());
        assert(seq![s[0]] + s.drop_first() =~= s);
    } else {
        lemma_word_len_le(s);
        let k = word_len(s) as int;
        lemma_subst_empty_identity(s.skip(k));
        assert(!m.contains_key(s.take(k)));
        assert(s.take(k) + s.skip(k) =~= s);
    }
}

/// A run over pure body text (no line starts with the directive marker)
/// succeeds, leaves the state unchanged, and emits exactly the input lines
/// with substitution applied and nothing else.
pub proof fn lemma_pure_body_run(m: Model, lines: Seq<Seq<char>>, existing: Set<Seq<char>>)
    requires
        forall|i: int| 0 <= i < lines.len() ==> !is_directive(#[trigger] lines[i]),
    ensures
        spec_run(m, lines, existing) == Ok::<(Model, Seq<char>), PreprocessorError>(
            (m, spec_subst_all(m.subs, lines).flatten()),
        ),
    decreases lines.len(),
{
    if lines.len() == 0 {
        assert(spec_subst_all(m.subs, lines).flatten() =~= Seq::<char>::empty());
    } else {
        assert(!is_directive(lines[0]));
        let frag = spec_subst(m.subs, lines[0]);
        assert(spec_step(m, lines[0], existing) == Ok::<(Model, Seq<char>), PreprocessorError>(
            (m, frag),
        ));
        assert forall|i: int| 0 <= i < lines.skip(1).len() implies !is_directive(
            #[trigger] lines.skip(1)[i],
        ) by {
            assert(lines.skip(1)[i] == lines[i + 1]);
        }
        lemma_pure_body_run(m, lines.skip(1), existing);
        let rest = spec_subst_all(m.subs, lines.skip(1));
        assert(spec_subst_all(m.subs, lines) == seq![frag] + rest);
        assert((seq![frag] + rest).drop_first() =~= rest);
        assert((seq![frag] + rest)[0] == frag);
        assert(spec_subst_all(m.subs, lines).flatten() == frag + rest.flatten());
    }
}

/// With an empty substitution map every line is kept verbatim.
pub proof fn lemma_subst_all_empty(lines: Seq<Seq<char>>)
    ensures
        spec_subst_all(Map::<Seq<char>, Seq<char>>::empty(), lines) == lines,
    decreases lines.len(),
{
    let m = Map::<Seq<char>, Seq<char>>::empty();
    if lines.len() == 0 {
        assert(spec_subst_all(m, lines) =~= lines);
    } else {
        lemma_subst_empty_identity(lines[0]);
        lemma_subst_all_empty(lines.skip(1));
        assert(seq![lines[0]] + lines.skip(1) =~= lines);
    }
}

/// Round trip: over a text none of whose lines starts with the directive
/// marker, a run with no substitution macros returns the input unchanged.
pub proof fn lemma_pure_body_round_trip(m: Model, input: Seq<char>, existing: Set<Seq<char>>)
    requires
        m.subs == Map::<Seq<char>, Seq<char>>::empty(),
        forall|i: int|
            0 <= i < spec_lines(input).len() ==> !is_directive(#[trigger] spec_lines(input)[i]),
    ensures
        spec_run(m, spec_lines(input), existing) == Ok::<(Model, Seq<char>), PreprocessorError>(
            (m, input),
        ),
{
    lemma_pure_body_run(m, spec_lines(input), existing);
    lemma_subst_all_empty(spec_lines(input));
    lemma_lines_concat(input);
}

} // verus!
