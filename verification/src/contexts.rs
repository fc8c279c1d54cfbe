//! The context list: names in a delimited string.
//!
//! Context names come in one string, separated by `,` or `;` (both occur in
//! the wild), with whitespace around a name stripped.  A list that resolves
//! to nothing is a configuration error, and so is an empty name between two
//! separators.

use vstd::prelude::*;
use crate::chars::{chars_to_string, str_to_chars};
use crate::errors::ConfigError;

verus! {

/// A context-list separator.
pub open spec fn is_sep(c: char) -> bool {
    c == ',' || c == ';'
}

/// Whitespace stripped around a name.
pub open spec fn is_space_char(c: char) -> bool {
    c == ' ' || c == '\t' || c == '\r' || c == '\n'
}

/// The first separator position in `s`, or `-1`.
pub open spec fn first_sep_pos(s: Seq<char>) -> int
    decreases s.len(),
{
    if s.len() == 0 {
        -1
    } else if is_sep(s[0]) {
        0
    } else {
        let r = first_sep_pos(s.skip(1));
        if r < 0 {
            -1
        } else {
            r + 1
        }
    }
}

proof fn lemma_first_sep_at(s: Seq<char>, k: int)
    requires
        0 <= k < s.len(),
        is_sep(s[k]),
        forall|j: int| 0 <= j < k ==> !is_sep(s[j]),
    ensures
        first_sep_pos(s) == k,
    decreases s.len(),
{
    if k > 0 {
        lemma_first_sep_at(s.skip(1), k - 1);
    }
}

proof fn lemma_first_sep_absent(s: Seq<char>)
    requires
        forall|j: int| 0 <= j < s.len() ==> !is_sep(s[j]),
    ensures
        first_sep_pos(s) == -1,
    decreases s.len(),
{
    if s.len() > 0 {
        lemma_first_sep_absent(s.skip(1));
    }
}

/// Leading whitespace removed.
pub open spec fn trim_front(s: Seq<char>) -> Seq<char>
    decreases s.len(),
{
    if s.len() > 0 && is_space_char(s[0]) {
        trim_front(s.skip(1))
    } else {
        s
    }
}

/// Trailing whitespace removed.
pub open spec fn trim_back(s: Seq<char>) -> Seq<char>
    decreases s.len(),
{
    if s.len() > 0 && is_space_char(s.last()) {
        trim_back(s.drop_last())
    } else {
        s
    }
}

/// Whitespace removed on both sides.
pub open spec fn trim(s: Seq<char>) -> Seq<char> {
    trim_back(trim_front(s))
}

proof fn lemma_trim_front_is(s: Seq<char>, k: int)
    requires
        0 <= k <= s.len(),
        forall|j: int| 0 <= j < k ==> is_space_char(s[j]),
        k == s.len() || !is_space_char(s[k]),
    ensures
        trim_front(s) == s.skip(k),
    decreases s.len(),
{
    if k == 0 {
        assert(s.skip(0) =~= s);
    } else {
        lemma_trim_front_is(s.skip(1), k - 1);
        assert(s.skip(1).skip(k - 1) =~= s.skip(k));
    }
}

proof fn lemma_trim_back_is(s: Seq<char>, k: int)
    requires
        0 <= k <= s.len(),
        forall|j: int| k <= j < s.len() ==> is_space_char(s[j]),
        k == 0 || !is_space_char(s[k - 1]),
    ensures
        trim_back(s) == s.take(k),
    decreases s.len(),
{
    if k == s.len() {
        assert(s.take(k) =~= s);
    } else {
        lemma_trim_back_is(s.drop_last(), k);
        assert(s.drop_last().take(k) =~= s.take(k));
    }
}

/// A sequence of nothing but whitespace trims to nothing, and one holding a
/// non-space character does not.
pub proof fn lemma_trim_empty_iff(s: Seq<char>)
    ensures
        (trim(s).len() == 0) <==> (forall|j: int| 0 <= j < s.len() ==> is_space_char(s[j])),
{
    if forall|j: int| 0 <= j < s.len() ==> is_space_char(s[j]) {
        lemma_trim_front_is(s, s.len() as int);
        assert(s.skip(s.len() as int) =~= Seq::<char>::empty());
    } else {
        let t = trim_front(s);
        lemma_trim_front_nonempty(s);
        lemma_trim_back_nonempty(t);
    }
}

proof fn lemma_trim_front_nonempty(s: Seq<char>)
    requires
        !(forall|j: int| 0 <= j < s.len() ==> is_space_char(s[j])),
    ensures
        trim_front(s).len() > 0,
        !is_space_char(trim_front(s)[0]),
    decreases s.len(),
{
    if s.len() > 0 && is_space_char(s[0]) {
        assert(exists|j: int| 0 <= j < s.len() && !is_space_char(s[j]));
        let j = choose|j: int| 0 <= j < s.len() && !is_space_char(s[j]);
        assert(s.skip(1)[j - 1] == s[j]);
        lemma_trim_front_nonempty(s.skip(1));
    }
}

proof fn lemma_trim_back_nonempty(t: Seq<char>)
    requires
        t.len() > 0,
        !is_space_char(t[0]),
    ensures
        trim_back(t).len() > 0,
    decreases t.len(),
{
    if is_space_char(t.last()) {
        assert(t.len() > 1);
        assert(t.drop_last()[0] == t[0]);
        lemma_trim_back_nonempty(t.drop_last());
    }
}

/// The separator-delimited segments of `s`; every separator splits, so
/// segments can be empty.
pub open spec fn split_contexts(s: Seq<char>) -> Seq<Seq<char>>
    decreases s.len(),
{
    let p = first_sep_pos(s);
    if p < 0 || p >= s.len() {
        seq![s]
    } else {
        seq![s.take(p)] + split_contexts(s.skip(p + 1))
    }
}

/// The trimmed names of a context list, in input order.
pub open spec fn context_names(s: Seq<char>) -> Seq<Seq<char>> {
    split_contexts(s).map_values(|seg: Seq<char>| trim(seg))
}

/// What parsing a context list yields: the trimmed names in input order,
/// or the configuration error the list deserves.
pub open spec fn spec_parse_contexts(s: Seq<char>) -> Result<Seq<Seq<char>>, ConfigError> {
    if trim(s).len() == 0 {
        Err(ConfigError::NoContexts)
    } else if exists|i: int| 0 <= i < context_names(s).len() && context_names(s)[i].len() == 0 {
        Err(ConfigError::EmptyContextName)
    } else {
        Ok(context_names(s))
    }
}

/// Whether a character is a separator, executed.
fn sep_char(c: char) -> (r: bool)
    ensures
        r == is_sep(c),
{
    c == ',' || c == ';'
}

/// Whether a character is stripped whitespace, executed.
fn space_char(c: char) -> (r: bool)
    ensures
        r == is_space_char(c),
{
    c == ' ' || c == '\t' || c == '\r' || c == '\n'
}

/// The largest `b` and smallest `a` with nothing but whitespace outside
/// `[a, b)` of `[start, end)`; `None` when the whole range is whitespace.
fn trim_range(cs: &Vec<char>, start: usize, end: usize) -> (r: Option<(usize, usize)>)
    requires
        start <= end <= cs@.len(),
    ensures
        match r {
            Some((a, b)) => start <= a < b <= end && !is_space_char(cs@[a as int])
                && !is_space_char(cs@[b - 1]) && (forall|j: int|
                start <= j < a ==> is_space_char(cs@[j])) && (forall|j: int|
                b <= j < end ==> is_space_char(cs@[j])),
            None => forall|j: int| start <= j < end ==> is_space_char(cs@[j]),
        },
{
    let mut a: usize = start;
    while a < end && space_char(cs[a])
        invariant
            start <= a <= end <= cs@.len(),
            forall|j: int| start <= j < a ==> is_space_char(cs@[j]),
        decreases end - a,
    {
        a = a + 1;
    }
    if a == end {
        return None;
    }
    let mut b: usize = end;
    while b > a && space_char(cs[b - 1])
        invariant
            start <= a < end <= cs@.len(),
            a <= b <= end,
            !is_space_char(cs@[a as int]),
            forall|j: int| b <= j < end ==> is_space_char(cs@[j]),
        decreases b,
    {
        b = b - 1;
    }
    if b == a {
        proof {
            assert(is_space_char(cs@[a as int]));
        }
        return None;
    }
    Some((a, b))
}

/// Parse a context list: names separated by `,` or `;`, whitespace around a
/// name stripped.  A list of nothing but whitespace resolves no contexts;
/// an empty name between separators is rejected.
pub fn parse_contexts(s: &str) -> (r: Result<Vec<String>, ConfigError>)
    ensures
        match r {
            Ok(names) => spec_parse_contexts(s@) == Ok::<_, ConfigError>(names.deep_view()),
            Err(e) => spec_parse_contexts(s@) == Err::<Seq<Seq<char>>, _>(e),
        },
{
    let cs = str_to_chars(s);
    let n = cs.len();
    match trim_range(&cs, 0, n) {
        None => {
            proof {
                lemma_trim_empty_iff(cs@);
            }
            return Err(ConfigError::NoContexts);
        },
        Some(_) => {
            proof {
                lemma_trim_empty_iff(cs@);
            }
        },
    }
    let mut acc: Vec<String> = Vec::new();
    let mut start: usize = 0;
    proof {
        assert(cs@.skip(0) =~= cs@);
        assert(acc.deep_view() =~= Seq::<Seq<char>>::empty());
        assert(Seq::<Seq<char>>::empty() + context_names(s@) =~= context_names(s@));
    }
    loop
        invariant
            0 <= start <= n == cs@.len(),
            cs@ == s@,
            trim(s@).len() > 0,
            context_names(s@) =~= acc.deep_view() + context_names(cs@.skip(start as int)),
            forall|i: int| 0 <= i < acc.deep_view().len() ==> acc.deep_view()[i].len() > 0,
        decreases n + 1 - start,
    {
        let ghost suffix = cs@.skip(start as int);
        let mut e: usize = start;
        while e < n && !sep_char(cs[e])
            invariant
                start <= e <= n == cs@.len(),
                forall|j: int| start <= j < e ==> !is_sep(cs@[j]),
            decreases n - e,
        {
            e = e + 1;
        }
        let ghost segment = cs@.subrange(start as int, e as int);
        proof {
            if e < n {
                assert(is_sep(cs@[e as int]));
                assert forall|j: int| 0 <= j < e - start implies !is_sep(suffix[j]) by {
                    assert(suffix[j] == cs@[start + j]);
                }
                assert(suffix[e - start] == cs@[e as int]);
                lemma_first_sep_at(suffix, e - start);
                assert(suffix.take(e - start) =~= segment);
                assert(suffix.skip(e - start + 1) =~= cs@.skip(e + 1));
                assert(split_contexts(suffix) == seq![segment] + split_contexts(cs@.skip(e + 1)));
            } else {
                assert forall|j: int| 0 <= j < suffix.len() implies !is_sep(suffix[j]) by {
                    assert(suffix[j] == cs@[start + j]);
                }
                lemma_first_sep_absent(suffix);
                assert(suffix =~= segment);
                assert(split_contexts(suffix) == seq![segment]);
            }
        }
        let ghost rest = if e < (n as usize) {
            cs@.skip(e + 1)
        } else {
            Seq::<char>::empty()
        };
        proof {
            if e < n {
                assert(context_names(suffix) =~= seq![trim(segment)] + context_names(rest));
            } else {
                assert(context_names(suffix) =~= seq![trim(segment)]);
            }
            assert(context_names(suffix)[0] == trim(segment));
            assert(context_names(s@)[acc.deep_view().len() as int] == trim(segment));
        }
        let trimmed = trim_range(&cs, start, e);
        let name = match trimmed {
            None => {
                proof {
                    assert forall|j: int| 0 <= j < segment.len() implies is_space_char(
                        segment[j],
                    ) by {
                        assert(segment[j] == cs@[start + j]);
                    }
                    lemma_trim_empty_iff(segment);
                    assert(context_names(s@)[acc.deep_view().len() as int].len() == 0);
                }
                return Err(ConfigError::EmptyContextName);
            },
            Some((a, b)) => {
                proof {
                    assert forall|j: int| 0 <= j < a - start implies is_space_char(segment[j]) by {
                        assert(segment[j] == cs@[start + j]);
                    }
                    if a - start < segment.len() {
                        assert(segment[a - start] == cs@[a as int]);
                    }
                    lemma_trim_front_is(segment, a - start);
                    let t = segment.skip(a - start);
                    assert forall|j: int| b - a <= j < t.len() implies is_space_char(t[j]) by {
                        assert(t[j] == cs@[start + (a - start) + j]);
                    }
                    assert(t[b - a - 1] == cs@[b - 1]);
                    lemma_trim_back_is(t, b - a);
                    assert(t.take(b - a) =~= cs@.subrange(a as int, b as int));
                    assert(trim(segment) == cs@.subrange(a as int, b as int));
                }
                chars_to_string(&cs, a, b)
            },
        };
        let ghost old_dv = acc.deep_view();
        acc.push(name);
        proof {
            assert(acc.deep_view() =~~= old_dv.push(name@));
        }
        if e < n {
            proof {
                assert(old_dv + (seq![trim(segment)] + context_names(rest)) =~= old_dv.push(
                    trim(segment),
                ) + context_names(rest));
                assert(context_names(s@) =~= acc.deep_view() + context_names(rest));
            }
            start = e + 1;
        } else {
            proof {
                assert(old_dv + seq![trim(segment)] =~= old_dv.push(trim(segment)));
                assert(context_names(s@) =~= acc.deep_view());
                assert(forall|i: int|
                    0 <= i < context_names(s@).len() ==> context_names(s@)[i].len() > 0);
                assert(spec_parse_contexts(s@) == Ok::<_, ConfigError>(acc.deep_view()));
            }
            return Ok(acc);
        }
    }
}

} // verus!
