//! What a step exports through `$GITHUB_ENV`: `KEY=VALUE` lines and heredocs.
use crate::envmap::{
    env_entries, env_insert, env_len, insert_all, insert_entry, keys_distinct,
    lemma_insert_all_concat, lemma_insert_all_twice, lemma_lookup_insert_all, lookup,
};
use crate::text::{
    chars_of, find, find_chars, join, lemma_find_from, lemma_find_is, lemma_single_line,
    lemma_single_line_ended, lines, matches_at, split_lines, trim, trimmed, views,
};
use indexmap::IndexMap;
use vstd::prelude::*;

verus! {

/// The first index at or after `j` of a line equal to `delim`, or `ls.len()`.
pub open spec fn heredoc_end(ls: Seq<Seq<char>>, j: int, delim: Seq<char>) -> int
    decreases ls.len() - j,
{
    if j < 0 || j >= ls.len() {
        ls.len() as int
    } else if ls[j] == delim {
        j
    } else {
        heredoc_end(ls, j + 1, delim)
    }
}

pub proof fn lemma_heredoc_end(ls: Seq<Seq<char>>, j: int, delim: Seq<char>)
    requires
        0 <= j <= ls.len(),
    ensures
        j <= heredoc_end(ls, j, delim) <= ls.len(),
    decreases ls.len() - j,
{
    if j < ls.len() && ls[j] != delim {
        lemma_heredoc_end(ls, j + 1, delim);
    }
}

/// The value of a heredoc made of `ls[from..to]`: the lines joined by line
/// feeds, where a line feed is only put after text that is not empty so far.
pub open spec fn heredoc_value(ls: Seq<Seq<char>>, from: int, to: int) -> Seq<char>
    decreases to - from,
{
    if to <= from {
        Seq::empty()
    } else {
        let a = heredoc_value(ls, from, to - 1);
        (if a.len() == 0 {
            a
        } else {
            a.push('\n')
        }) + ls[to - 1]
    }
}

/// One assignment, or none when the key is empty.
pub open spec fn keyed(key: Seq<char>, value: Seq<char>) -> Seq<(Seq<char>, Seq<char>)> {
    if key.len() > 0 {
        seq![(key, value)]
    } else {
        Seq::empty()
    }
}

/// Whether a line of a `$GITHUB_ENV` file is a `KEY=VALUE` assignment: it
/// has a `=`, and no `<<` comes before it.
pub open spec fn is_assignment(line: Seq<char>) -> bool {
    find(line, seq!['=']) is Some && (find(line, seq!['<', '<']) is None || find(
        line,
        seq!['='],
    ).unwrap() < find(line, seq!['<', '<']).unwrap())
}

/// The assignments that the lines `ls[i..]` of a `$GITHUB_ENV` file make:
/// a line whose first `=` comes before any `<<` sets `KEY=VALUE`; else a line
/// with `KEY<<DELIM` starts a heredoc that runs to the line equal to `DELIM`;
/// other lines are ignored.
pub open spec fn assignments_from(ls: Seq<Seq<char>>, i: int) -> Seq<(Seq<char>, Seq<char>)>
    decreases ls.len() + 1 - i,
{
    if i < 0 || i >= ls.len() {
        Seq::empty()
    } else {
        let line = ls[i];
        if is_assignment(line) {
            let p = find(line, seq!['=']).unwrap();
            keyed(trim(line.subrange(0, p)), line.subrange(p + 1, line.len() as int))
                + assignments_from(ls, i + 1)
        } else if find(line, seq!['<', '<']) is Some {
            let p = find(line, seq!['<', '<']).unwrap();
            let key = trim(line.subrange(0, p));
            let delim = trim(line.subrange(p + 2, line.len() as int));
            let end = heredoc_end(ls, i + 1, delim);
            proof {
                lemma_heredoc_end(ls, i + 1, delim);
            }
            keyed(key, heredoc_value(ls, i + 1, end)) + assignments_from(ls, end + 1)
        } else {
            assignments_from(ls, i + 1)
        }
    }
}

/// The assignments, in order, that the text of a `$GITHUB_ENV` file makes.
pub open spec fn github_env_assignments(content: Seq<char>) -> Seq<(Seq<char>, Seq<char>)> {
    assignments_from(lines(content), 0)
}

proof fn lemma_insert_keyed(
    e: Seq<(Seq<char>, Seq<char>)>,
    key: Seq<char>,
    value: Seq<char>,
    rest: Seq<(Seq<char>, Seq<char>)>,
)
    ensures
        insert_all(e, keyed(key, value) + rest) == insert_all(
            if key.len() > 0 {
                insert_entry(e, key, value)
            } else {
                e
            },
            rest,
        ),
{
    lemma_insert_all_concat(e, keyed(key, value), rest);
    let one = keyed(key, value);
    if key.len() > 0 {
        assert(one.drop_last() =~= Seq::<(Seq<char>, Seq<char>)>::empty());
        assert(insert_all(e, one.drop_last()) == e);
        assert(insert_all(e, one) == insert_entry(e, key, value));
    } else {
        assert(insert_all(e, one) == e);
    }
}

/// Merges the `KEY=VALUE` and heredoc (`KEY<<DELIM` ... `DELIM`) lines that a
/// step wrote to `$GITHUB_ENV` into the accumulated environment.
pub fn merge_github_env(content: &str, env: &mut IndexMap<String, String>)
    ensures
        env_entries(*final(env)) == insert_all(
            env_entries(*old(env)),
            github_env_assignments(content@),
        ),
        keys_distinct(env_entries(*old(env))),
{
    env_len(env);
    let text_lines = split_lines(content);
    let ghost ls = views(text_lines@);
    let n = text_lines.len();
    let heredoc_mark: Vec<char> = vec!['<', '<'];
    let equals_mark: Vec<char> = vec!['='];
    assert(heredoc_mark@ =~= seq!['<', '<']);
    assert(equals_mark@ =~= seq!['=']);
    let mut i: usize = 0;
    while i < n
        invariant
            n == text_lines.len(),
            ls == views(text_lines@),
            ls == lines(content@),
            heredoc_mark@ == seq!['<', '<'],
            equals_mark@ == seq!['='],
            i <= n,
            insert_all(env_entries(*env), assignments_from(ls, i as int)) == insert_all(
                env_entries(*old(env)),
                github_env_assignments(content@),
            ),
        decreases n - i,
    {
        let line = text_lines[i].as_str();
        assert(line@ == ls[i as int]);
        let cs = chars_of(line);
        let heredoc_at = find_chars(&cs, &heredoc_mark);
        let equals_at = find_chars(&cs, &equals_mark);
        let assignment = match (equals_at, heredoc_at) {
            (Some(q), Some(h)) => q < h,
            (Some(_), None) => true,
            _ => false,
        };
        if assignment {
            let p = equals_at.unwrap();
            proof {
                lemma_find_from(cs@, equals_mark@, 0);
                assert(matches_at(cs@, equals_mark@, p as int));
                assert(p + 1 <= cs.len());
            }
            let key = trimmed(line.substring_char(0, p));
            let val = line.substring_char(p + 1, cs.len()).to_owned();
            proof {
                lemma_insert_keyed(env_entries(*env), key@, val@, assignments_from(ls, i + 1));
            }
            if !key.as_str().is_empty() {
                env_insert(env, key, val);
            }
            i += 1;
        } else if heredoc_at.is_some() {
            let p = heredoc_at.unwrap();
            proof {
                lemma_find_from(cs@, heredoc_mark@, 0);
                assert(matches_at(cs@, heredoc_mark@, p as int));
                assert(p + 2 <= cs.len());
            }
            let key = trimmed(line.substring_char(0, p));
            let delim = trimmed(line.substring_char(p + 2, cs.len()));
            let ghost i0 = i;
            let mut value = String::new();
            i += 1;
            while i < n && text_lines[i] != delim
                invariant
                    n == text_lines.len(),
                    ls == views(text_lines@),
                    i0 < i <= n,
                    heredoc_end(ls, i0 + 1, delim@) == heredoc_end(ls, i as int, delim@),
                    value@ == heredoc_value(ls, i0 + 1, i as int),
                decreases n - i,
            {
                if !value.as_str().is_empty() {
                    value.append("\n");
                    proof {
                        reveal_strlit("\n");
                    }
                }
                value.append(text_lines[i].as_str());
                proof {
                    assert(text_lines[i as int]@ == ls[i as int]);
                }
                i += 1;
            }
            proof {
                let end = heredoc_end(ls, i0 + 1, delim@);
                assert(end == i);
                lemma_insert_keyed(env_entries(*env), key@, value@, assignments_from(ls, end + 1));
            }
            if !key.as_str().is_empty() {
                env_insert(env, key, value);
            }
            if i < n {
                i += 1;
            }
        } else {
            i += 1;
        }
    }
}

proof fn lemma_assignment_line(line: Seq<char>, k: Seq<char>, v: Seq<char>)
    requires
        line == k + seq!['='] + v,
        trim(k).len() > 0,
        forall|j: int| 0 <= j < k.len() ==> #[trigger] k[j] != '=' && k[j] != '<',
    ensures
        assignments_from(seq![line], 0) == seq![(trim(k), v)],
{
    let n = k.len() as int;
    let ls = seq![line];
    assert(line.subrange(n, n + 1) =~= seq!['=']);
    assert forall|j: int| 0 <= j < n implies !matches_at(line, seq!['='], j) by {
        assert(line.subrange(j, j + 1)[0] == k[j]);
    }
    lemma_find_is(line, seq!['='], n);
    lemma_find_from(line, seq!['<', '<'], 0);
    if let Some(h) = find(line, seq!['<', '<']) {
        assert(line.subrange(h, h + 2)[0] == line[h]);
        if h < n {
            assert(line[h] == k[h]);
        }
        assert(h != n);
    }
    assert(is_assignment(line));
    assert(line.subrange(0, n) =~= k);
    assert(line.subrange(n + 1, line.len() as int) =~= v);
    assert(assignments_from(ls, 1) == Seq::<(Seq<char>, Seq<char>)>::empty());
    assert(assignments_from(ls, 0) =~= seq![(trim(k), v)]);
}

/// A step that writes one line `KEY=VALUE` to `$GITHUB_ENV` (with no `=` or
/// `<` in `KEY`; `VALUE` may hold anything but a line feed) sets the trimmed
/// `KEY` to `VALUE`, untrimmed, for every later step;
/// so does the line ended by a line feed, unless `VALUE` ends with a carriage
/// return, which the line ending then takes.
pub proof fn law_github_env_assignment(
    e: Seq<(Seq<char>, Seq<char>)>,
    k: Seq<char>,
    v: Seq<char>,
)
    requires
        trim(k).len() > 0,
        forall|j: int| 0 <= j < k.len() ==> #[trigger] k[j] != '=' && k[j] != '<' && k[j]
            != '\n',
        forall|j: int| 0 <= j < v.len() ==> #[trigger] v[j] != '\n',
    ensures
        github_env_assignments(k + seq!['='] + v) == seq![(trim(k), v)],
        lookup(insert_all(e, github_env_assignments(k + seq!['='] + v)), trim(k)) == Some(v),
        v.len() == 0 || v.last() != '\r' ==> github_env_assignments(k + seq!['='] + v + seq!['\n'])
            == seq![(trim(k), v)],
{
    let line = k + seq!['='] + v;
    let n = k.len() as int;
    assert forall|j: int| 0 <= j < line.len() implies line[j] != '\n' by {
        if j < n {
            assert(line[j] == k[j]);
        } else if j > n {
            assert(line[j] == v[j - n - 1]);
        }
    }
    lemma_single_line(line);
    lemma_assignment_line(line, k, v);
    lemma_lookup_insert_all(e, seq![(trim(k), v)], trim(k));
    if v.len() == 0 || v.last() != '\r' {
        if v.len() > 0 {
            assert(line.last() == v.last());
        }
        lemma_single_line_ended(line);
    }
}

/// Merging the same `$GITHUB_ENV` text twice leaves the environment as
/// merging it once does: the same entries, in the same order.
pub proof fn law_merge_twice_is_merge_once(e: Seq<(Seq<char>, Seq<char>)>, content: Seq<char>)
    requires
        keys_distinct(e),
    ensures
        insert_all(
            insert_all(e, github_env_assignments(content)),
            github_env_assignments(content),
        ) == insert_all(e, github_env_assignments(content)),
{
    lemma_insert_all_twice(e, github_env_assignments(content));
}

proof fn lemma_heredoc_end_at(ls: Seq<Seq<char>>, j: int, delim: Seq<char>, e: int)
    requires
        0 <= j <= e < ls.len(),
        ls[e] == delim,
        forall|x: int| j <= x < e ==> ls[x] != delim,
    ensures
        heredoc_end(ls, j, delim) == e,
    decreases e - j,
{
    if j < e {
        lemma_heredoc_end_at(ls, j + 1, delim, e);
    }
}

proof fn lemma_heredoc_join(ls: Seq<Seq<char>>, from: int, to: int)
    requires
        0 <= from <= to <= ls.len(),
        from < to ==> ls[from].len() > 0,
    ensures
        heredoc_value(ls, from, to) == join(ls.subrange(from, to), seq!['\n']),
        to > from ==> heredoc_value(ls, from, to).len() >= ls[from].len(),
    decreases to - from,
{
    if to > from {
        lemma_heredoc_join(ls, from, to - 1);
        let sub = ls.subrange(from, to);
        assert(sub.drop_last() =~= ls.subrange(from, to - 1));
        assert(sub.last() == ls[to - 1]);
        let a = heredoc_value(ls, from, to - 1);
        if to - 1 == from {
            assert(a =~= Seq::<char>::empty());
            assert(heredoc_value(ls, from, to) =~= ls[from]);
        } else {
            assert(a.len() > 0);
            assert(a.push('\n') + ls[to - 1] =~= a + seq!['\n'] + ls[to - 1]);
        }
    } else {
        assert(ls.subrange(from, to) =~= Seq::<Seq<char>>::empty());
    }
}

/// A heredoc `KEY<<DELIM` (with no `<` or `=` in `KEY`) whose first body line
/// is not empty sets the trimmed `KEY` to all the body lines, empty ones
/// included, joined by line feeds; the body ends at the first line equal to
/// the trimmed `DELIM`, and reading goes on after it.
pub proof fn law_github_env_heredoc(ls: Seq<Seq<char>>, key: Seq<char>, delim: Seq<char>, m: int)
    requires
        0 <= m,
        m + 1 < ls.len(),
        trim(key).len() > 0,
        forall|j: int| 0 <= j < key.len() ==> #[trigger] key[j] != '<' && key[j] != '=',
        ls[0] == key + seq!['<', '<'] + delim,
        ls[m + 1] == trim(delim),
        forall|j: int| 1 <= j <= m ==> #[trigger] ls[j] != trim(delim),
        m > 0 ==> ls[1].len() > 0,
    ensures
        assignments_from(ls, 0) == seq![(trim(key), join(ls.subrange(1, m + 1), seq!['\n']))]
            + assignments_from(ls, m + 2),
{
    let line = ls[0];
    let n = key.len() as int;
    assert(line.subrange(n, n + 2) =~= seq!['<', '<']);
    assert forall|j: int| 0 <= j < n implies !matches_at(line, seq!['<', '<'], j) by {
        assert(line.subrange(j, j + 2)[0] == key[j]);
    }
    lemma_find_is(line, seq!['<', '<'], n);
    lemma_find_from(line, seq!['='], 0);
    if let Some(q) = find(line, seq!['=']) {
        assert(line.subrange(q, q + 1)[0] == line[q]);
        if q < n {
            assert(line[q] == key[q]);
        }
        assert(line[n] == '<' && line[n + 1] == '<');
        assert(q > n);
    }
    assert(!is_assignment(line));
    assert(line.subrange(0, n) =~= key);
    assert(line.subrange(n + 2, line.len() as int) =~= delim);
    lemma_heredoc_end_at(ls, 1, trim(delim), m + 1);
    lemma_heredoc_join(ls, 1, m + 1);
}

} // verus!
