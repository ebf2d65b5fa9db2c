//! The directive classifier, the directive handlers and the run driver.

use crate::subst::{spec_subst, substitute};
use crate::table::{
    insert_name, insert_pair, names_contains, names_set, pairs_lookup, pairs_map, remove_name,
    remove_pair, unique_keys, unique_names,
};
use crate::text::{
    spec_join, spec_lines, spec_tokens, split_lines, str_views, string_views, tokens,
};
use crate::text::join_from;
use vstd::prelude::*;
use vstd::string::StrSliceExecFns;
use vstd::string::StringExecFns;

verus! {

/// The classified failures; each one aborts the whole run.
#[derive(Clone, Copy, Debug, PartialEq, Eq, Structural)]
pub enum PreprocessorError {
    /// A directive line with nothing after the marker.
    EmptyDirective,
    /// An inclusion directive whose path does not name a readable file.
    InvalidInclusion,
    /// A directive whose keyword is not known.
    UnrecognizedDirective,
}

/// What the driver must do after one processed line.
#[derive(Debug)]
pub enum LineAction {
    /// A body line: append this text to the output.
    Emit(String),
    /// A directive that was consumed with no output.
    Consumed,
    /// An inclusion directive: the caller must find out whether this path
    /// names a readable file and hand the answer to `resolve_inclusion`.
    CheckPath(String),
}

/// The mathematical state of the engine: flag names, substitution bindings,
/// and the recorded inclusion paths.
pub struct Model {
    pub flags: Set<Seq<char>>,
    pub subs: Map<Seq<char>, Seq<char>>,
    pub recorded: Set<Seq<char>>,
}

/// What one processed line asks of the driver, at the spec level.
pub enum StepPlan {
    Emit(Seq<char>),
    Consumed(Model),
    Check(Seq<char>),
    Fail(PreprocessorError),
}

/// A directive line starts with the marker character.
pub open spec fn is_directive(s: Seq<char>) -> bool {
    s.len() > 0 && s[0] == '#'
}

pub open spec fn kw_marker() -> Seq<char> {
    "#"@
}

pub open spec fn kw_define() -> Seq<char> {
    "#define"@
}

pub open spec fn kw_undef() -> Seq<char> {
    "#undef"@
}

pub open spec fn kw_inclusion() -> Seq<char> {
    "#in"@ + "clude"@
}

pub open spec fn kw_region_start() -> Seq<char> {
    "#region"@
}

pub open spec fn kw_region_end() -> Seq<char> {
    "#endregion"@
}

/// The definition handler's effect: two tokens make a flag, three or more
/// bind the name to the remaining tokens joined with single spaces; the name
/// leaves the other category either way.
pub open spec fn spec_define(m: Model, toks: Seq<Seq<char>>) -> Result<
    Model,
    PreprocessorError,
> {
    if toks.len() < 2 {
        Err(PreprocessorError::EmptyDirective)
    } else if toks.len() == 2 {
        Ok(
            Model {
                flags: m.flags.insert(toks[1]),
                subs: m.subs.remove(toks[1]),
                recorded: m.recorded,
            },
        )
    } else {
        Ok(
            Model {
                flags: m.flags.remove(toks[1]),
                subs: m.subs.insert(toks[1], spec_join(toks.skip(2))),
                recorded: m.recorded,
            },
        )
    }
}

/// The removal handler's effect: the name leaves the flag set only; a
/// substitution binding of the same name is deliberately kept.
pub open spec fn spec_undef(m: Model, toks: Seq<Seq<char>>) -> Result<Model, PreprocessorError> {
    if toks.len() < 2 {
        Err(PreprocessorError::EmptyDirective)
    } else {
        Ok(Model { flags: m.flags.remove(toks[1]), subs: m.subs, recorded: m.recorded })
    }
}

/// The bare path of an inclusion directive: the path token with its first and
/// last delimiter characters stripped.
pub open spec fn spec_bare_path(tok: Seq<char>) -> Seq<char> {
    tok.subrange(1, tok.len() - 1)
}

/// What one line asks of the driver: emit a body line after substitution,
/// consume a directive, validate an inclusion path, or fail.
pub open spec fn spec_plan(m: Model, line: Seq<char>) -> StepPlan {
    if !is_directive(line) {
        StepPlan::Emit(spec_subst(m.subs, line))
    } else {
        let toks = spec_tokens(line);
        if toks.len() == 0 {
            StepPlan::Fail(PreprocessorError::EmptyDirective)
        } else if toks[0] == kw_marker() {
            if toks.len() == 1 {
                StepPlan::Fail(PreprocessorError::EmptyDirective)
            } else {
                StepPlan::Fail(PreprocessorError::UnrecognizedDirective)
            }
        } else if toks[0] == kw_define() {
            match spec_define(m, toks) {
                Ok(m1) => StepPlan::Consumed(m1),
                Err(e) => StepPlan::Fail(e),
            }
        } else if toks[0] == kw_undef() {
            match spec_undef(m, toks) {
                Ok(m1) => StepPlan::Consumed(m1),
                Err(e) => StepPlan::Fail(e),
            }
        } else if toks[0] == kw_inclusion() {
            if toks.len() < 2 {
                StepPlan::Fail(PreprocessorError::EmptyDirective)
            } else if toks[1].len() < 2 {
                StepPlan::Fail(PreprocessorError::InvalidInclusion)
            } else {
                StepPlan::Check(spec_bare_path(toks[1]))
            }
        } else if toks[0] == kw_region_start() || toks[0] == kw_region_end() {
            StepPlan::Consumed(m)
        } else {
            StepPlan::Fail(PreprocessorError::UnrecognizedDirective)
        }
    }
}

/// One full step of the run: `spec_plan`, with inclusion paths resolved
/// against the set of paths that exist.
pub open spec fn spec_step(m: Model, line: Seq<char>, existing: Set<Seq<char>>) -> Result<
    (Model, Seq<char>),
    PreprocessorError,
> {
    match spec_plan(m, line) {
        StepPlan::Emit(t) => Ok((m, t)),
        StepPlan::Consumed(m1) => Ok((m1, Seq::empty())),
        StepPlan::Check(p) => if existing.contains(p) {
            Ok((Model { flags: m.flags, subs: m.subs, recorded: m.recorded.insert(p) }, Seq::empty()))
        } else {
            Err(PreprocessorError::InvalidInclusion)
        },
        StepPlan::Fail(e) => Err(e),
    }
}

/// The whole run: a single forward fold over the lines, concatenating the
/// emitted fragments, stopping at the first failure.
pub open spec fn spec_run(m: Model, lines: Seq<Seq<char>>, existing: Set<Seq<char>>) -> Result<
    (Model, Seq<char>),
    PreprocessorError,
>
    decreases lines.len(),
{
    if lines.len() == 0 {
        Ok((m, Seq::empty()))
    } else {
        match spec_step(m, lines[0], existing) {
            Err(e) => Err(e),
            Ok((m1, frag)) => match spec_run(m1, lines.skip(1), existing) {
                Err(e) => Err(e),
                Ok((m2, rest)) => Ok((m2, frag + rest)),
            },
        }
    }
}

impl PreprocessorError {
    /// A diagnostic text for the reporting sink.
    pub fn message(&self) -> (m: String)
        ensures
            *self is EmptyDirective ==> m@ == "Empty directive encountered!"@,
            *self is InvalidInclusion ==> m@ == "Tried to read a non-existant file!"@,
            *self is UnrecognizedDirective ==> m@ == "Not supported directive found!"@,
    {
        match *self {
            PreprocessorError::EmptyDirective => String::from_str("Empty directive encountered!"),
            PreprocessorError::InvalidInclusion => String::from_str(
                "Tried to read a non-existant file!",
            ),
            PreprocessorError::UnrecognizedDirective => String::from_str(
                "Not supported directive found!",
            ),
        }
    }
}

/// The engine: the input snapshot, the two macro categories and the recorded
/// inclusion paths.
#[derive(Debug)]
pub struct Preprocessor {
    pub input: String,
    pub definitions: Vec<String>,
    pub substitutions: Vec<(String, String)>,
    pub recorded: Vec<String>,
}

impl Preprocessor {
    /// The mathematical state this engine holds.
    pub open spec fn model(self) -> Model {
        Model {
            flags: names_set(self.definitions@),
            subs: pairs_map(self.substitutions@),
            recorded: names_set(self.recorded@),
        }
    }

    /// Well-formedness: no duplicates in the backing stores, and no name in
    /// both macro categories at once.
    pub open spec fn wf(self) -> bool {
        &&& unique_names(self.definitions@)
        &&& unique_keys(self.substitutions@)
        &&& unique_names(self.recorded@)
        &&& forall|x: Seq<char>|
            self.model().flags.contains(x) ==> !self.model().subs.contains_key(x)
    }

    /// A fresh engine over an input snapshot, with empty tables.
    pub fn new(input: String) -> (p: Self)
        ensures
            p.wf(),
            p.input == input,
            p.model().flags == Set::<Seq<char>>::empty(),
            p.model().subs == Map::<Seq<char>, Seq<char>>::empty(),
            p.model().recorded == Set::<Seq<char>>::empty(),
    {
        let p = Preprocessor {
            input,
            definitions: Vec::new(),
            substitutions: Vec::new(),
            recorded: Vec::new(),
        };
        proof {
            assert(names_set(p.definitions@) =~= Set::<Seq<char>>::empty());
            assert(names_set(p.recorded@) =~= Set::<Seq<char>>::empty());
        }
        p
    }

    /// The definition handler.
    pub fn process_define(&mut self, line: Vec<&str>) -> (r: Result<(), PreprocessorError>)
        requires
            old(self).wf(),
        ensures
            final(self).wf(),
            final(self).input == old(self).input,
            match spec_define(old(self).model(), str_views(line@)) {
                Ok(m1) => r is Ok && final(self).model() == m1,
                Err(e) => r == Err::<(), PreprocessorError>(e) && final(self).model() == old(self).model(),
            },
    {
        if line.len() < 2 {
            return Err(PreprocessorError::EmptyDirective);
        }
        let name = line[1];
        if line.len() == 2 {
            remove_pair(&mut self.substitutions, name);
            insert_name(&mut self.definitions, String::from_str(name));
            proof {
                assert(str_views(line@)[1] == name@);
                assert forall|x: Seq<char>| self.model().flags.contains(x) implies !self.model()
                    .subs.contains_key(x) by {}
            }
            Ok(())
        } else {
            remove_name(&mut self.definitions, name);
            let text = join_from(&line, 2);
            insert_pair(&mut self.substitutions, String::from_str(name), text);
            proof {
                assert(str_views(line@)[1] == name@);
                assert forall|x: Seq<char>| self.model().flags.contains(x) implies !self.model()
                    .subs.contains_key(x) by {}
            }
            Ok(())
        }
    }

    /// The removal handler: takes the name out of the flag set only.
    pub fn process_undef(&mut self, line: Vec<&str>) -> (r: Result<(), PreprocessorError>)
        requires
            old(self).wf(),
        ensures
            final(self).wf(),
            final(self).input == old(self).input,
            match spec_undef(old(self).model(), str_views(line@)) {
                Ok(m1) => r is Ok && final(self).model() == m1,
                Err(e) => r == Err::<(), PreprocessorError>(e) && final(self).model() == old(self).model(),
            },
    {
        if line.len() < 2 {
            return Err(PreprocessorError::EmptyDirective);
        }
        remove_name(&mut self.definitions, line[1]);
        proof {
            assert(str_views(line@)[1] == line@[1]@);
        }
        Ok(())
    }

    /// Records a validated inclusion path, or fails when the path does not
    /// name a readable file; `exists` is the collaborating file system's
    /// answer for this path.
    pub fn resolve_inclusion(&mut self, path: String, exists: bool) -> (r: Result<
        (),
        PreprocessorError,
    >)
        requires
            old(self).wf(),
        ensures
            final(self).wf(),
            final(self).input == old(self).input,
            exists ==> r is Ok && final(self).model() == (Model {
                flags: old(self).model().flags,
                subs: old(self).model().subs,
                recorded: old(self).model().recorded.insert(path@),
            }),
            !exists ==> r == Err::<(), PreprocessorError>(PreprocessorError::InvalidInclusion)
                && final(self).model() == old(self).model(),
    {
        if !exists {
            return Err(PreprocessorError::InvalidInclusion);
        }
        insert_name(&mut self.recorded, path);
        proof {
            assert forall|x: Seq<char>| self.model().flags.contains(x) implies !self.model()
                .subs.contains_key(x) by {
                assert(old(self).model().flags.contains(x));
            }
        }
        Ok(())
    }

    /// The line classifier: performs everything one line asks for except
    /// file-system validation, which the caller finishes through
    /// `resolve_inclusion`.
    pub fn process_line(&mut self, line: &str) -> (r: Result<LineAction, PreprocessorError>)
        requires
            old(self).wf(),
        ensures
            final(self).wf(),
            final(self).input == old(self).input,
            match spec_plan(old(self).model(), line@) {
                StepPlan::Emit(t) => (match r {
                    Ok(LineAction::Emit(s)) => s@ == t,
                    _ => false,
                }) && final(self).model() == old(self).model(),
                StepPlan::Consumed(m1) => (r matches Ok(LineAction::Consumed)) && final(self).model() == m1,
                StepPlan::Check(p) => (match r {
                    Ok(LineAction::CheckPath(s)) => s@ == p,
                    _ => false,
                }) && final(self).model() == old(self).model(),
                StepPlan::Fail(e) => r == Err::<LineAction, PreprocessorError>(e) && final(self).model() == old(self).model(),
            },
    {
        let n = line.unicode_len();
        if n == 0 || line.get_char(0) != '#' {
            let s = substitute(&self.substitutions, line);
            return Ok(LineAction::Emit(s));
        }
        let toks = tokens(line);
        let ghost tv = str_views(toks@);
        proof {
            assert(tv == spec_tokens(line@));
        }
        if toks.len() == 0 {
            return Err(PreprocessorError::EmptyDirective);
        }
        let t0 = toks[0];
        proof {
            assert(t0@ == tv[0]);
        }
        if crate::text::str_eq(t0, "#") {
            if toks.len() == 1 {
                return Err(PreprocessorError::EmptyDirective);
            }
            return Err(PreprocessorError::UnrecognizedDirective);
        }
        if crate::text::str_eq(t0, "#define") {
            return match self.process_define(toks) {
                Ok(u) => Ok(LineAction::Consumed),
                Err(e) => Err(e),
            };
        }
        if crate::text::str_eq(t0, "#undef") {
            return match self.process_undef(toks) {
                Ok(u) => Ok(LineAction::Consumed),
                Err(e) => Err(e),
            };
        }
        let mut kw_inc = String::from_str("#in");
        kw_inc.append("clude");
        proof {
            assert(kw_inc@ == kw_inclusion());
        }
        if crate::text::str_eq(t0, kw_inc.as_str()) {
            if toks.len() < 2 {
                return Err(PreprocessorError::EmptyDirective);
            }
            let ptok = toks[1];
            proof {
                assert(ptok@ == tv[1]);
            }
            let pl = ptok.unicode_len();
            if pl < 2 {
                return Err(PreprocessorError::InvalidInclusion);
            }
            let bare = String::from_str(ptok.substring_char(1, pl - 1));
            proof {
                assert(bare@ == spec_bare_path(tv[1]));
            }
            return Ok(LineAction::CheckPath(bare));
        }
        if crate::text::str_eq(t0, "#region") || crate::text::str_eq(t0, "#endregion") {
            return Ok(LineAction::Consumed);
        }
        Err(PreprocessorError::UnrecognizedDirective)
    }

    /// Whether a name currently stands in the flag set.
    pub fn is_defined(&self, name: &str) -> (r: bool)
        ensures
            r == self.model().flags.contains(name@),
    {
        names_contains(&self.definitions, name)
    }

    /// The replacement text currently bound to a name, if any.
    pub fn substitution_of(&self, name: &str) -> (r: Option<String>)
        requires
            self.wf(),
        ensures
            match r {
                Some(t) => self.model().subs.contains_key(name@) && t@ == self.model().subs[name@],
                None => !self.model().subs.contains_key(name@),
            },
    {
        pairs_lookup(&self.substitutions, name)
    }

    /// Whether an inclusion path has been validated and recorded.
    pub fn has_recorded(&self, path: &str) -> (r: bool)
        ensures
            r == self.model().recorded.contains(path@),
    {
        names_contains(&self.recorded, path)
    }

    /// The substitution engine over the current table, on one body line.
    pub fn apply_substitutions(&self, line: &str) -> (r: String)
        requires
            self.wf(),
        ensures
            r@ == spec_subst(self.model().subs, line@),
    {
        substitute(&self.substitutions, line)
    }

    /// The run driver: one forward pass over the input snapshot, where the
    /// paths in `existing` are those the collaborating file system can open.
    pub fn run(&mut self, existing: &Vec<String>) -> (r: Result<String, PreprocessorError>)
        requires
            old(self).wf(),
        ensures
            final(self).wf(),
            final(self).input == old(self).input,
            match spec_run(
                old(self).model(),
                spec_lines(old(self).input@),
                names_set(existing@),
            ) {
                Ok((m2, out)) => (match r {
                    Ok(s) => s@ == out,
                    Err(_) => false,
                }) && final(self).model() == m2,
                Err(e) => r == Err::<String, PreprocessorError>(e),
            },
    {
        let input = self.input.clone();
        let lines = split_lines(input.as_str());
        let ghost all = string_views(lines@);
        let ghost ex = names_set(existing@);
        let ghost m0 = self.model();
        let mut out = String::new();
        let mut li: usize = 0;
        proof {
            assert(all.skip(0) =~= all);
        }
        while li < lines.len()
            invariant
                li <= lines@.len(),
                self.wf(),
                self.input == old(self).input,
                all == string_views(lines@),
                ex == names_set(existing@),
                m0 == old(self).model(),
                all == spec_lines(old(self).input@),
                match spec_run(self.model(), all.skip(li as int), ex) {
                    Ok((m2, rest)) => match spec_run(m0, all, ex) {
                        Ok((m2b, outb)) => m2b == m2 && outb == out@ + rest,
                        Err(_) => false,
                    },
                    Err(e) => spec_run(m0, all, ex) == Err::<
                        (Model, Seq<char>),
                        PreprocessorError,
                    >(e),
                },
            decreases lines@.len() - li,
        {
            let ghost m_here = self.model();
            let ghost lv = lines@[li as int]@;
            proof {
                assert(all[li as int] == lv);
                assert(all.skip(li as int)[0] == lv);
                assert(all.skip(li as int).skip(1) =~= all.skip(li as int + 1));
            }
            let line = &lines[li];
            let ghost out0 = out@;
            match self.process_line(line.as_str()) {
                Err(e) => {
                    return Err(e);
                },
                Ok(a) => match a {
                    LineAction::Emit(t) => {
                        out.append(t.as_str());
                        proof {
                            assert(spec_step(m_here, lv, ex) == Ok::<
                                (Model, Seq<char>),
                                PreprocessorError,
                            >((m_here, t@)));
                            assert forall|rest: Seq<char>| true implies (out0 + t@) + rest == out0
                                + (t@ + rest) by {
                                assert((out0 + t@) + rest =~= out0 + (t@ + rest));
                            }
                        }
                    },
                    LineAction::Consumed => {
                        proof {
                            assert forall|rest: Seq<char>| true implies Seq::<
                                char,
                            >::empty() + rest == rest by {
                                assert(Seq::<char>::empty() + rest =~= rest);
                            }
                            assert(out@ + Seq::<char>::empty() =~= out@);
                        }
                    },
                    LineAction::CheckPath(p) => {
                        let ghost pv = p@;
                        let exists = names_contains(existing, p.as_str());
                        match self.resolve_inclusion(p, exists) {
                            Err(e) => {
                                return Err(e);
                            },
                            Ok(u) => {
                                proof {
                                    assert(spec_step(m_here, lv, ex) == Ok::<
                                        (Model, Seq<char>),
                                        PreprocessorError,
                                    >(
                                        (
                                            Model {
                                                flags: m_here.flags,
                                                subs: m_here.subs,
                                                recorded: m_here.recorded.insert(pv),
                                            },
                                            Seq::<char>::empty(),
                                        ),
                                    ));
                                    assert forall|rest: Seq<char>| true implies Seq::<
                                        char,
                                    >::empty() + rest == rest by {
                                        assert(Seq::<char>::empty() + rest =~= rest);
                                    }
                                    assert(out@ + Seq::<char>::empty() =~= out@);
                                }
                            },
                        }
                    },
                },
            }
            li += 1;
        }
        proof {
            assert(all.skip(lines@.len() as int) =~= Seq::<Seq<char>>::empty());
            assert(out@ + Seq::<char>::empty() =~= out@);
        }
        Ok(out)
    }
}

} // verus!
