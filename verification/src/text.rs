//! Character classes, whitespace tokenization, line splitting and joining.

use vstd::prelude::*;
use vstd::string::StrSliceExecFns;
use vstd::string::StringExecFns;

verus! {

/// The blank characters on which directive lines are tokenized.
pub open spec fn is_space(c: char) -> bool {
    c == ' ' || c == '\t' || c == '\n' || c == '\r' || c == '\u{b}' || c == '\u{c}'
}

/// Identifier characters; a substitution name only matches a maximal run of these.
pub open spec fn is_word_char(c: char) -> bool {
    ('a' <= c && c <= 'z') || ('A' <= c && c <= 'Z') || ('0' <= c && c <= '9') || c == '_'
}

/// Executable check for `is_space`.
pub fn space_char(c: char) -> (r: bool)
    ensures
        r == is_space(c),
{
    c == ' ' || c == '\t' || c == '\n' || c == '\r' || c == '\u{b}' || c == '\u{c}'
}

/// Executable check for `is_word_char`.
pub fn word_char(c: char) -> (r: bool)
    ensures
        r == is_word_char(c),
{
    let u = c as u32;
    (97 <= u && u <= 122) || (65 <= u && u <= 90) || (48 <= u && u <= 57) || c == '_'
}

/// Length of the maximal prefix of `s` made of non-blank characters.
pub open spec fn token_len(s: Seq<char>) -> nat
    decreases s.len(),
{
    if s.len() == 0 {
        0
    } else if is_space(s[0]) {
        0
    } else {
        (1 + token_len(s.drop_first())) as nat
    }
}

/// Length of the maximal prefix of `s` made of word characters.
pub open spec fn word_len(s: Seq<char>) -> nat
    decreases s.len(),
{
    if s.len() == 0 {
        0
    } else if !is_word_char(s[0]) {
        0
    } else {
        (1 + word_len(s.drop_first())) as nat
    }
}

/// Length of the maximal prefix of `s` that holds no newline.
pub open spec fn body_len(s: Seq<char>) -> nat
    decreases s.len(),
{
    if s.len() == 0 {
        0
    } else if s[0] == '\n' {
        0
    } else {
        (1 + body_len(s.drop_first())) as nat
    }
}

pub proof fn lemma_token_len_is(s: Seq<char>, j: int)
    requires
        0 <= j <= s.len(),
        forall|k: int| 0 <= k < j ==> !is_space(s[k]),
        j < s.len() ==> is_space(s[j]),
    ensures
        token_len(s) == j,
    decreases s.len(),
{
    if s.len() == 0 {
    } else if j == 0 {
    } else {
        assert forall|k: int| 0 <= k < j - 1 implies !is_space(s.drop_first()[k]) by {
            assert(s.drop_first()[k] == s[k + 1]);
        }
        if j - 1 < s.drop_first().len() {
            assert(s.drop_first()[j - 1] == s[j]);
        }
        lemma_token_len_is(s.drop_first(), j - 1);
    }
}

pub proof fn lemma_word_len_is(s: Seq<char>, j: int)
    requires
        0 <= j <= s.len(),
        forall|k: int| 0 <= k < j ==> is_word_char(s[k]),
        j < s.len() ==> !is_word_char(s[j]),
    ensures
        word_len(s) == j,
    decreases s.len(),
{
    if s.len() == 0 {
    } else if j == 0 {
    } else {
        assert forall|k: int| 0 <= k < j - 1 implies is_word_char(s.drop_first()[k]) by {
            assert(s.drop_first()[k] == s[k + 1]);
        }
        if j - 1 < s.drop_first().len() {
            assert(s.drop_first()[j - 1] == s[j]);
        }
        lemma_word_len_is(s.drop_first(), j - 1);
    }
}

pub proof fn lemma_body_len_is(s: Seq<char>, j: int)
    requires
        0 <= j <= s.len(),
        forall|k: int| 0 <= k < j ==> s[k] != '\n',
        j < s.len() ==> s[j] == '\n',
    ensures
        body_len(s) == j,
    decreases s.len(),
{
    if s.len() == 0 {
    } else if j == 0 {
    } else {
        assert forall|k: int| 0 <= k < j - 1 implies s.drop_first()[k] != '\n' by {
            assert(s.drop_first()[k] == s[k + 1]);
        }
        if j - 1 < s.drop_first().len() {
            assert(s.drop_first()[j - 1] == s[j]);
        }
        lemma_body_len_is(s.drop_first(), j - 1);
    }
}

pub proof fn lemma_token_len_le(s: Seq<char>)
    ensures
        token_len(s) <= s.len(),
    decreases s.len(),
{
    if s.len() == 0 {
    } else if is_space(s[0]) {
    } else {
        lemma_token_len_le(s.drop_first());
    }
}

pub proof fn lemma_word_len_le(s: Seq<char>)
    ensures
        word_len(s) <= s.len(),
    decreases s.len(),
{
    if s.len() == 0 {
    } else if !is_word_char(s[0]) {
    } else {
        lemma_word_len_le(s.drop_first());
    }
}

/// The whitespace-separated tokens of `s`, in order.
pub open spec fn spec_tokens(s: Seq<char>) -> Seq<Seq<char>>
    decreases s.len(),
    via spec_tokens_dec
{
    if s.len() == 0 {
        Seq::empty()
    } else if is_space(s[0]) {
        spec_tokens(s.drop_first())
    } else {
        seq![s.take(token_len(s) as int)] + spec_tokens(s.skip(token_len(s) as int))
    }
}

#[via_fn]
proof fn spec_tokens_dec(s: Seq<char>) {
    if s.len() > 0 && !is_space(s[0]) {
        lemma_token_len_le(s);
    }
}

/// The lines of `s`: maximal newline-free runs, each keeping its terminating
/// newline when one is present.
pub open spec fn spec_lines(s: Seq<char>) -> Seq<Seq<char>>
    decreases s.len(),
{
    if s.len() == 0 {
        Seq::empty()
    } else {
        let k = if body_len(s) < s.len() {
            body_len(s) + 1
        } else {
            s.len()
        };
        seq![s.take(k as int)] + spec_lines(s.skip(k as int))
    }
}

/// The tokens joined back together with single spaces.
pub open spec fn spec_join(ts: Seq<Seq<char>>) -> Seq<char>
    decreases ts.len(),
{
    if ts.len() == 0 {
        Seq::empty()
    } else if ts.len() == 1 {
        ts[0]
    } else {
        spec_join(ts.drop_last()) + seq![' '] + ts.last()
    }
}

/// The views of a sequence of string slices.
pub open spec fn str_views(ts: Seq<&str>) -> Seq<Seq<char>> {
    ts.map_values(|t: &str| t@)
}

/// The views of a sequence of owned strings.
pub open spec fn string_views(ts: Seq<String>) -> Seq<Seq<char>> {
    ts.map_values(|t: String| t@)
}

/// Splitting and then concatenating the lines gives the text back.
pub proof fn lemma_lines_concat(s: Seq<char>)
    ensures
        spec_lines(s).flatten() == s,
    decreases s.len(),
{
    if s.len() == 0 {
        assert(spec_lines(s).flatten() =~= s);
    } else {
        let k = if body_len(s) < s.len() {
            body_len(s) as int + 1
        } else {
            s.len() as int
        };
        let head = s.take(k);
        let rest = spec_lines(s.skip(k));
        lemma_lines_concat(s.skip(k));
        assert(spec_lines(s) == seq![head] + rest);
        assert((seq![head] + rest).drop_first() =~= rest);
        assert((seq![head] + rest)[0] == head);
        assert(spec_lines(s).flatten() == head + rest.flatten());
        assert(head + s.skip(k) =~= s);
    }
}

/// Character-by-character string equality.
pub fn str_eq(a: &str, b: &str) -> (r: bool)
    ensures
        r == (a@ == b@),
{
    let an = a.unicode_len();
    let bn = b.unicode_len();
    if an != bn {
        return false;
    }
    let mut i: usize = 0;
    while i < an
        invariant
            i <= an,
            an as nat == a@.len(),
            an as nat == b@.len(),
            forall|k: int| 0 <= k < i ==> a@[k] == b@[k],
        decreases an - i,
    {
        if a.get_char(i) != b.get_char(i) {
            return false;
        }
        i += 1;
    }
    proof {
        assert(a@ =~= b@);
    }
    true
}

/// The whitespace-separated tokens of a line, as slices of it.
pub fn tokens<'a>(s: &'a str) -> (r: Vec<&'a str>)
    ensures
        str_views(r@) == spec_tokens(s@),
{
    let n = s.unicode_len();
    let mut r: Vec<&'a str> = Vec::new();
    let mut i: usize = 0;
    proof {
        assert(s@.skip(0) =~= s@);
        assert(str_views(r@) =~= Seq::<Seq<char>>::empty());
        assert(str_views(r@) + spec_tokens(s@.skip(0)) =~= spec_tokens(s@));
    }
    while i < n
        invariant
            i <= n,
            n as nat == s@.len(),
            str_views(r@) + spec_tokens(s@.skip(i as int)) == spec_tokens(s@),
        decreases n - i,
    {
        let ghost suffix = s@.skip(i as int);
        if space_char(s.get_char(i)) {
            proof {
                assert(suffix[0] == s@[i as int]);
                assert(suffix.drop_first() =~= s@.skip(i as int + 1));
                assert(spec_tokens(suffix) == spec_tokens(s@.skip(i as int + 1)));
            }
            i += 1;
        } else {
            let mut j: usize = i + 1;
            while j < n && !space_char(s.get_char(j))
                invariant
                    i < j <= n,
                    n as nat == s@.len(),
                    forall|k: int| i <= k < j ==> !is_space(s@[k]),
                decreases n - j,
            {
                j += 1;
            }
            let tok = s.substring_char(i, j);
            proof {
                assert forall|k: int| 0 <= k < j - i implies !is_space(suffix[k]) by {
                    assert(suffix[k] == s@[i + k]);
                }
                if j < n {
                    assert(suffix[j - i] == s@[j as int]);
                }
                lemma_token_len_is(suffix, j - i);
                assert(!is_space(suffix[0]));
                assert(spec_tokens(suffix) == seq![suffix.take(j - i)] + spec_tokens(
                    suffix.skip(j - i),
                ));
                assert(suffix.take(j - i) =~= s@.subrange(i as int, j as int));
                assert(suffix.skip(j - i) =~= s@.skip(j as int));
            }
            let ghost old_r = r@;
            r.push(tok);
            proof {
                assert(str_views(r@) =~= str_views(old_r) + seq![tok@]);
                assert(str_views(old_r) + (seq![tok@] + spec_tokens(s@.skip(j as int))) =~= (
                str_views(old_r) + seq![tok@]) + spec_tokens(s@.skip(j as int)));
            }
            i = j;
        }
    }
    proof {
        assert(s@.skip(n as int) =~= Seq::<char>::empty());
        assert(str_views(r@) + spec_tokens(s@.skip(n as int)) =~= str_views(r@));
    }
    r
}

/// The lines of a text, each keeping its terminating newline if present.
pub fn split_lines(s: &str) -> (r: Vec<String>)
    ensures
        string_views(r@) == spec_lines(s@),
{
    let n = s.unicode_len();
    let mut r: Vec<String> = Vec::new();
    let mut i: usize = 0;
    proof {
        assert(s@.skip(0) =~= s@);
        assert(string_views(r@) =~= Seq::<Seq<char>>::empty());
        assert(string_views(r@) + spec_lines(s@.skip(0)) =~= spec_lines(s@));
    }
    while i < n
        invariant
            i <= n,
            n as nat == s@.len(),
            string_views(r@) + spec_lines(s@.skip(i as int)) == spec_lines(s@),
        decreases n - i,
    {
        let ghost suffix = s@.skip(i as int);
        let mut j: usize = i;
        while j < n && s.get_char(j) != '\n'
            invariant
                i <= j <= n,
                n as nat == s@.len(),
                forall|k: int| i <= k < j ==> s@[k] != '\n',
            decreases n - j,
        {
            j += 1;
        }
        proof {
            assert forall|k: int| 0 <= k < j - i implies suffix[k] != '\n' by {
                assert(suffix[k] == s@[i + k]);
            }
            if j < n {
                assert(suffix[j - i] == s@[j as int]);
            }
            lemma_body_len_is(suffix, j - i);
        }
        let end: usize = if j < n {
            j + 1
        } else {
            j
        };
        let line = String::from_str(s.substring_char(i, end));
        proof {
            assert(suffix.len() == n - i);
            assert(spec_lines(suffix) == seq![suffix.take(end - i)] + spec_lines(
                suffix.skip(end - i),
            ));
            assert(suffix.take(end - i) =~= s@.subrange(i as int, end as int));
            assert(suffix.skip(end - i) =~= s@.skip(end as int));
        }
        let ghost old_r = r@;
        r.push(line);
        proof {
            assert(string_views(r@) =~= string_views(old_r) + seq![line@]);
            assert(string_views(old_r) + (seq![line@] + spec_lines(s@.skip(end as int))) =~= (
            string_views(old_r) + seq![line@]) + spec_lines(s@.skip(end as int)));
        }
        i = end;
    }
    proof {
        assert(s@.skip(n as int) =~= Seq::<char>::empty());
        assert(string_views(r@) + spec_lines(s@.skip(n as int)) =~= string_views(r@));
    }
    r
}

/// Joins the tokens from index `from` on with single spaces.
pub fn join_from(toks: &Vec<&str>, from: usize) -> (r: String)
    requires
        from <= toks@.len(),
    ensures
        r@ == spec_join(str_views(toks@).skip(from as int)),
{
    let n = toks.len();
    let mut r = String::new();
    let mut i: usize = from;
    while i < n
        invariant
            from <= i <= n,
            n == toks@.len(),
            i > from ==> r@ == spec_join(str_views(toks@).subrange(from as int, i as int)),
            i == from ==> r@ == Seq::<char>::empty(),
        decreases n - i,
    {
        let ghost before = r@;
        if i > from {
            r.append(" ");
        }
        r.append(toks[i]);
        proof {
            reveal_strlit(" ");
            let part = str_views(toks@).subrange(from as int, i + 1);
            assert(part.last() == toks@[i as int]@);
            if i > from {
                assert(part.drop_last() =~= str_views(toks@).subrange(from as int, i as int));
                assert(" "@ =~= seq![' ']);
                assert(r@ == before + seq![' '] + toks@[i as int]@);
                assert(r@ == spec_join(part.drop_last()) + seq![' '] + part.last());
                assert(part.len() >= 2);
                assert(r@ == spec_join(part));
            } else {
                assert(part.len() == 1);
                assert(r@ =~= part[0]);
            }
        }
        i += 1;
    }
    proof {
        if n > from {
            assert(str_views(toks@).subrange(from as int, n as int) =~= str_views(
                toks@,
            ).skip(from as int));
        } else {
            assert(str_views(toks@).skip(from as int) =~= Seq::<Seq<char>>::empty());
        }
    }
    r
}

/// Relies on `String::push`: appends the given character at the end.
#[verifier::external_body]
pub(crate) fn push_char(s: &mut String, c: char)
    ensures
        final(s)@ == old(s)@.push(c),
{
    s.push(c)
}

} // verus!
