//! The env-file format: `KEY=VALUE` lines, `#` comments, blank lines.
//!
//! A file defines one variable per line; a line that is blank, starts with
//! `#`, or has no `=` defines nothing.  The key is everything before the
//! first `=`, the value everything after it, both taken raw.  A later line
//! for the same key overrides an earlier one.

use vstd::prelude::*;
use crate::chars::{chars_to_string, str_to_chars};
use crate::vars::VarMap;

verus! {

/// The first position of `c` in `s`, or `-1` when `s` does not hold it.
pub open spec fn first_pos_char(s: Seq<char>, c: char) -> int
    decreases s.len(),
{
    if s.len() == 0 {
        -1
    } else if s[0] == c {
        0
    } else {
        let r = first_pos_char(s.skip(1), c);
        if r < 0 {
            -1
        } else {
            r + 1
        }
    }
}

proof fn lemma_first_pos_at(s: Seq<char>, c: char, k: int)
    requires
        0 <= k < s.len(),
        s[k] == c,
        forall|j: int| 0 <= j < k ==> s[j] != c,
    ensures
        first_pos_char(s, c) == k,
    decreases s.len(),
{
    if k > 0 {
        lemma_first_pos_at(s.skip(1), c, k - 1);
    }
}

proof fn lemma_first_pos_absent(s: Seq<char>, c: char)
    requires
        forall|j: int| 0 <= j < s.len() ==> s[j] != c,
    ensures
        first_pos_char(s, c) == -1,
    decreases s.len(),
{
    if s.len() > 0 {
        lemma_first_pos_absent(s.skip(1), c);
    }
}

/// What one line defines: nothing when blank, a comment, or without `=`;
/// otherwise the pair around the first `=`.
pub open spec fn line_entry(line: Seq<char>) -> Option<(Seq<char>, Seq<char>)> {
    if line.len() == 0 {
        None
    } else if line[0] == '#' {
        None
    } else {
        let eq = first_pos_char(line, '=');
        if eq < 0 {
            None
        } else {
            Some((line.take(eq), line.skip(eq + 1)))
        }
    }
}

pub open spec fn opt_seq(e: Option<(Seq<char>, Seq<char>)>) -> Seq<(Seq<char>, Seq<char>)> {
    match e {
        Some(kv) => seq![kv],
        None => Seq::empty(),
    }
}

/// The pairs a text defines, line by line, first line first.
pub open spec fn env_pairs(s: Seq<char>) -> Seq<(Seq<char>, Seq<char>)>
    decreases s.len(),
{
    let nl = first_pos_char(s, '\n');
    if nl < 0 || nl >= s.len() {
        opt_seq(line_entry(s))
    } else {
        opt_seq(line_entry(s.take(nl))) + env_pairs(s.skip(nl + 1))
    }
}

/// The map of a pair list, a later pair for a key winning.
pub open spec fn pairs_map(ps: Seq<(Seq<char>, Seq<char>)>) -> Map<Seq<char>, Seq<char>>
    decreases ps.len(),
{
    if ps.len() == 0 {
        Map::empty()
    } else {
        pairs_map(ps.drop_last()).insert(ps.last().0, ps.last().1)
    }
}

/// The variable map an env-file text defines.
pub open spec fn env_map_of(s: Seq<char>) -> Map<Seq<char>, Seq<char>> {
    pairs_map(env_pairs(s))
}

spec fn single(e: (Seq<char>, Seq<char>)) -> Map<Seq<char>, Seq<char>> {
    Map::empty().insert(e.0, e.1)
}

proof fn lemma_pairs_map_cons(e: (Seq<char>, Seq<char>), ps: Seq<(Seq<char>, Seq<char>)>)
    ensures
        pairs_map(seq![e] + ps) == single(e).union_prefer_right(pairs_map(ps)),
    decreases ps.len(),
{
    if ps.len() == 0 {
        assert(seq![e] + ps =~= seq![e]);
        assert(seq![e].drop_last() =~= Seq::<(Seq<char>, Seq<char>)>::empty());
        assert(pairs_map(seq![e].drop_last()) == pairs_map(Seq::<(Seq<char>, Seq<char>)>::empty()));
        assert(seq![e].last() == e);
        assert(pairs_map(seq![e]) == Map::empty().insert(e.0, e.1));
        assert(single(e).union_prefer_right(Map::empty()) =~= single(e));
    } else {
        lemma_pairs_map_cons(e, ps.drop_last());
        assert((seq![e] + ps).drop_last() =~= seq![e] + ps.drop_last());
        assert((seq![e] + ps).last() == ps.last());
        assert(single(e).union_prefer_right(pairs_map(ps.drop_last())).insert(
            ps.last().0,
            ps.last().1,
        ) =~= single(e).union_prefer_right(
            pairs_map(ps.drop_last()).insert(ps.last().0, ps.last().1),
        ));
    }
}

/// What one line of a character vector defines, executed.
fn parse_line(cs: &Vec<char>, start: usize, end: usize) -> (r: Option<(String, String)>)
    requires
        start <= end <= cs@.len(),
    ensures
        ({
            let line = cs@.subrange(start as int, end as int);
            match r {
                Some(kv) => line_entry(line) == Some((kv.0@, kv.1@)),
                None => line_entry(line) is None,
            }
        }),
{
    let ghost line = cs@.subrange(start as int, end as int);
    if start == end {
        return None;
    }
    if cs[start] == '#' {
        return None;
    }
    let mut i: usize = start;
    while i < end
        invariant
            start < end <= cs@.len(),
            start <= i <= end,
            line == cs@.subrange(start as int, end as int),
            cs@[start as int] != '#',
            forall|j: int| start <= j < i ==> cs@[j] != '=',
        decreases end - i,
    {
        if cs[i] == '=' {
            proof {
                assert(line.len() == end - start);
                assert(line[i - start] == cs@[i as int]);
                assert forall|j: int| 0 <= j < i - start implies line[j] != '=' by {
                    assert(line[j] == cs@[start + j]);
                }
                lemma_first_pos_at(line, '=', i - start);
            }
            let key = chars_to_string(cs, start, i);
            let value = chars_to_string(cs, i + 1, end);
            proof {
                assert(line.len() > 0);
                assert(line[0] == cs@[start as int]);
                assert(line.take(i - start) =~= cs@.subrange(start as int, i as int));
                assert(line.skip(i - start + 1) =~= cs@.subrange(i + 1, end as int));
            }
            return Some((key, value));
        }
        i = i + 1;
    }
    proof {
        lemma_first_pos_absent(line, '=');
    }
    None
}

/// Parse an env-file text into a variable map: `KEY=VALUE` per line, `#`
/// comments and blank lines ignored, a later line for a key winning.
pub fn parse_env_text(s: &str) -> (m: VarMap)
    ensures
        m@ == env_map_of(s@),
        m.wf(),
{
    let cs = str_to_chars(s);
    let n = cs.len();
    let mut m = VarMap::new();
    let mut start: usize = 0;
    proof {
        assert(cs@.skip(0) =~= cs@);
        assert(Map::<Seq<char>, Seq<char>>::empty().union_prefer_right(
            pairs_map(env_pairs(cs@)),
        ) =~= pairs_map(env_pairs(cs@)));
    }
    while start < n
        invariant
            0 <= start <= n == cs@.len(),
            cs@ == s@,
            m.wf(),
            env_map_of(s@) == m@.union_prefer_right(pairs_map(env_pairs(cs@.skip(start as int)))),
        decreases n - start,
    {
        let ghost suffix = cs@.skip(start as int);
        let mut end: usize = start;
        while end < n && cs[end] != '\n'
            invariant
                start <= end <= n == cs@.len(),
                forall|j: int| start <= j < end ==> cs@[j] != '\n',
            decreases n - end,
        {
            end = end + 1;
        }
        let entry = parse_line(&cs, start, end);
        let ghost line = cs@.subrange(start as int, end as int);
        proof {
            if end < n {
                lemma_first_pos_at(suffix, '\n', end - start);
                assert(suffix.take(end - start) =~= line);
                assert(suffix.skip(end - start + 1) =~= cs@.skip(end + 1));
                assert(env_pairs(suffix) == opt_seq(line_entry(line)) + env_pairs(
                    cs@.skip(end + 1),
                ));
            } else {
                lemma_first_pos_absent(suffix, '\n');
                assert(suffix =~= line);
                assert(env_pairs(suffix) == opt_seq(line_entry(line)));
            }
        }
        let ghost rest_pairs = if end < (n as usize) {
            env_pairs(cs@.skip(end + 1))
        } else {
            Seq::empty()
        };
        proof {
            if end >= n {
                assert(cs@.skip(n as int) =~= Seq::<char>::empty());
                assert(first_pos_char(Seq::<char>::empty(), '\n') == -1);
                assert(env_pairs(cs@.skip(n as int)) =~= Seq::<(Seq<char>, Seq<char>)>::empty());
            }
            match line_entry(line) {
                Some(kv) => {
                    lemma_pairs_map_cons(kv, rest_pairs);
                    assert(env_pairs(suffix) =~= seq![kv] + rest_pairs);
                    assert(m@.union_prefer_right(
                        single(kv).union_prefer_right(pairs_map(rest_pairs)),
                    ) =~= m@.union_prefer_right(single(kv)).union_prefer_right(
                        pairs_map(rest_pairs),
                    ));
                    assert(m@.union_prefer_right(single(kv)) =~= m@.insert(kv.0, kv.1));
                },
                None => {
                    assert(env_pairs(suffix) =~= rest_pairs);
                },
            }
        }
        match entry {
            Some((k, v)) => {
                m.insert(k, v);
            },
            None => {},
        }
        start = if end < n {
            end + 1
        } else {
            n
        };
    }
    proof {
        assert(cs@.skip(n as int) =~= Seq::<char>::empty());
        assert(env_pairs(Seq::<char>::empty()) =~= Seq::<(Seq<char>, Seq<char>)>::empty());
        assert(m@.union_prefer_right(Map::empty()) =~= m@);
    }
    m
}

} // verus!
