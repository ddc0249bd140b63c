use vstd::prelude::*;

verus! {

/// Unicode `White_Space`, the set that `char::is_whitespace` tests.
pub open spec fn is_ws(c: char) -> bool {
    ||| c == ' '
    ||| ('\u{9}' <= c && c <= '\u{d}')
    ||| c == '\u{85}'
    ||| c == '\u{a0}'
    ||| c == '\u{1680}'
    ||| ('\u{2000}' <= c && c <= '\u{200a}')
    ||| c == '\u{2028}'
    ||| c == '\u{2029}'
    ||| c == '\u{202f}'
    ||| c == '\u{205f}'
    ||| c == '\u{3000}'
}

/// `s` without its leading whitespace.
pub open spec fn trim_start(s: Seq<char>) -> Seq<char>
    decreases s.len(),
{
    if s.len() > 0 && is_ws(s[0]) {
        trim_start(s.drop_first())
    } else {
        s
    }
}

/// `s` without its trailing whitespace.
pub open spec fn trim_end(s: Seq<char>) -> Seq<char>
    decreases s.len(),
{
    if s.len() > 0 && is_ws(s.last()) {
        trim_end(s.drop_last())
    } else {
        s
    }
}

/// `s` without leading and trailing whitespace, as `str::trim` gives it.
pub open spec fn trim(s: Seq<char>) -> Seq<char> {
    trim_end(trim_start(s))
}

proof fn lemma_trim_start_shape(s: Seq<char>)
    ensures
        exists|m: int|
            0 <= m <= s.len() && trim_start(s) == s.subrange(m, s.len() as int) && (m == s.len()
                || !is_ws(s[m])),
    decreases s.len(),
{
    if s.len() > 0 && is_ws(s[0]) {
        lemma_trim_start_shape(s.drop_first());
        let m = choose|m: int|
            0 <= m <= s.drop_first().len() && trim_start(s.drop_first())
                == s.drop_first().subrange(m, s.drop_first().len() as int) && (m
                == s.drop_first().len() || !is_ws(s.drop_first()[m]));
        assert(s.drop_first().subrange(m, s.drop_first().len() as int) =~= s.subrange(
            m + 1,
            s.len() as int,
        ));
        if m < s.drop_first().len() {
            assert(s.drop_first()[m] == s[m + 1]);
        }
    } else {
        assert(s.subrange(0, s.len() as int) =~= s);
    }
}

proof fn lemma_trim_end_shape(s: Seq<char>)
    ensures
        exists|m: int|
            0 <= m <= s.len() && trim_end(s) == s.subrange(0, m) && (m == 0 || !is_ws(
                s[m - 1],
            )),
    decreases s.len(),
{
    if s.len() > 0 && is_ws(s.last()) {
        lemma_trim_end_shape(s.drop_last());
        let m = choose|m: int|
            0 <= m <= s.drop_last().len() && trim_end(s.drop_last()) == s.drop_last().subrange(
                0,
                m,
            ) && (m == 0 || !is_ws(s.drop_last()[m - 1]));
        assert(s.drop_last().subrange(0, m) =~= s.subrange(0, m));
        if m > 0 {
            assert(s.drop_last()[m - 1] == s[m - 1]);
        }
    } else {
        assert(s.subrange(0, s.len() as int) =~= s);
    }
}

/// Trimming twice is trimming once.
pub proof fn lemma_trim_idempotent(s: Seq<char>)
    ensures
        trim(trim(s)) == trim(s),
{
    let y = trim_start(s);
    lemma_trim_start_shape(s);
    lemma_trim_end_shape(y);
    let t = trim_end(y);
    let m = choose|m: int|
        0 <= m <= y.len() && trim_end(y) == y.subrange(0, m) && (m == 0 || !is_ws(y[m - 1]));
    let k = choose|k: int|
        0 <= k <= s.len() && trim_start(s) == s.subrange(k, s.len() as int) && (k == s.len()
            || !is_ws(s[k]));
    if m > 0 {
        assert(y.len() > 0);
        assert(y[0] == s[k]);
        assert(t[0] == y[0]);
        assert(trim_start(t) == t);
        assert(t.last() == y[m - 1]);
        assert(trim_end(t) == t);
    } else {
        assert(t =~= Seq::<char>::empty());
    }
}

/// Whether `c` is whitespace.
pub fn is_whitespace(c: char) -> (r: bool)
    ensures
        r == is_ws(c),
{
    c == ' ' || ('\u{9}' <= c && c <= '\u{d}') || c == '\u{85}' || c == '\u{a0}' || c
        == '\u{1680}' || ('\u{2000}' <= c && c <= '\u{200a}') || c == '\u{2028}' || c
        == '\u{2029}' || c == '\u{202f}' || c == '\u{205f}' || c == '\u{3000}'
}

/// The characters of `s`, in order.
pub fn chars_of(s: &str) -> (r: Vec<char>)
    ensures
        r@ == s@,
{
    let mut out: Vec<char> = Vec::new();
    for c in it: s.chars()
        invariant
            out@ == it.seq().take(it.index() as int),
    {
        out.push(c);
    }
    out
}

proof fn lemma_trim_start_skip(s: Seq<char>, i: int)
    requires
        0 <= i <= s.len(),
        forall|j: int| 0 <= j < i ==> is_ws(#[trigger] s[j]),
    ensures
        trim_start(s) == trim_start(s.subrange(i, s.len() as int)),
    decreases i,
{
    if i > 0 {
        lemma_trim_start_skip(s, i - 1);
        let t = s.subrange(i - 1, s.len() as int);
        assert(t.drop_first() =~= s.subrange(i, s.len() as int));
    } else {
        assert(s.subrange(0, s.len() as int) =~= s);
    }
}

proof fn lemma_trim_end_skip(s: Seq<char>, i: int)
    requires
        0 <= i <= s.len(),
        forall|j: int| i <= j < s.len() ==> is_ws(#[trigger] s[j]),
    ensures
        trim_end(s) == trim_end(s.subrange(0, i)),
    decreases s.len() - i,
{
    if i < s.len() {
        lemma_trim_end_skip(s, i + 1);
        let t = s.subrange(0, i + 1);
        assert(t.drop_last() =~= s.subrange(0, i));
    } else {
        assert(s.subrange(0, i) =~= s);
    }
}

/// The bounds `(a, b)` such that `trim(s) == s[a..b]`.
pub fn trim_bounds(cs: &Vec<char>) -> (r: (usize, usize))
    ensures
        r.0 <= r.1 <= cs.len(),
        trim(cs@) == cs@.subrange(r.0 as int, r.1 as int),
        trim_start(cs@) == cs@.subrange(r.0 as int, cs.len() as int),
{
    let n = cs.len();
    let mut a: usize = 0;
    while a < n && is_whitespace(cs[a])
        invariant
            a <= n == cs.len(),
            forall|j: int| 0 <= j < a ==> is_ws(#[trigger] cs@[j]),
        decreases n - a,
    {
        a += 1;
    }
    proof {
        lemma_trim_start_skip(cs@, a as int);
        let rest = cs@.subrange(a as int, n as int);
        if rest.len() > 0 {
            assert(rest[0] == cs@[a as int]);
        }
    }
    let mut b: usize = n;
    while b > a && is_whitespace(cs[b - 1])
        invariant
            a <= b <= n == cs.len(),
            forall|j: int| b <= j < n ==> is_ws(#[trigger] cs@[j]),
        decreases b - a,
    {
        b -= 1;
    }
    proof {
        let rest = cs@.subrange(a as int, n as int);
        lemma_trim_end_skip(rest, b - a);
        assert(rest.subrange(0, b - a) =~= cs@.subrange(a as int, b as int));
        let mid = cs@.subrange(a as int, b as int);
        if mid.len() > 0 {
            assert(mid.last() == cs@[b - 1]);
        }
    }
    (a, b)
}

/// `str::trim`: `s` without leading and trailing whitespace.
pub fn trimmed(s: &str) -> (r: String)
    ensures
        r@ == trim(s@),
{
    let cs = chars_of(s);
    let (a, b) = trim_bounds(&cs);
    s.substring_char(a, b).to_owned()
}


/// The index of the first line feed at or after `i`, or `s.len()` when there is none.
pub open spec fn next_nl(s: Seq<char>, i: int) -> int
    decreases s.len() - i,
{
    if i < 0 || i >= s.len() {
        s.len() as int
    } else if s[i] == '\n' {
        i
    } else {
        next_nl(s, i + 1)
    }
}

pub proof fn lemma_next_nl_bounds(s: Seq<char>, i: int)
    requires
        0 <= i <= s.len(),
    ensures
        i <= next_nl(s, i) <= s.len(),
        next_nl(s, i) < s.len() ==> s[next_nl(s, i)] == '\n',
        forall|j: int| i <= j < next_nl(s, i) ==> s[j] != '\n',
    decreases s.len() - i,
{
    if i < s.len() && s[i] != '\n' {
        lemma_next_nl_bounds(s, i + 1);
    }
}

/// A line that was ended by a line feed loses one carriage return before it.
pub open spec fn strip_cr(l: Seq<char>) -> Seq<char> {
    if l.len() > 0 && l.last() == '\r' {
        l.drop_last()
    } else {
        l
    }
}

/// The lines of `s[start..]`, as `str::lines` yields them.
pub open spec fn lines_from(s: Seq<char>, start: int) -> Seq<Seq<char>>
    decreases s.len() - start,
{
    if start < 0 || start >= s.len() {
        Seq::empty()
    } else {
        let e = next_nl(s, start);
        proof {
            lemma_next_nl_bounds(s, start);
        }
        if e < s.len() {
            seq![strip_cr(s.subrange(start, e))] + lines_from(s, e + 1)
        } else {
            seq![s.subrange(start, s.len() as int)]
        }
    }
}

/// The lines of `s`: split at each line feed, a carriage return right before
/// a line feed dropped, and no empty last line after a final line feed.
pub open spec fn lines(s: Seq<char>) -> Seq<Seq<char>> {
    lines_from(s, 0)
}

/// The views of a vector of strings.
pub open spec fn views(v: Seq<String>) -> Seq<Seq<char>> {
    v.map_values(|x: String| x@)
}

/// `str::lines`, collected.
pub fn split_lines(s: &str) -> (r: Vec<String>)
    ensures
        views(r@) == lines(s@),
{
    let cs = chars_of(s);
    let n = cs.len();
    let mut out: Vec<String> = Vec::new();
    let mut start: usize = 0;
    let mut j: usize = 0;
    while j < n
        invariant
            n == cs.len(),
            cs@ == s@,
            start <= j <= n,
            next_nl(s@, start as int) == next_nl(s@, j as int),
            lines(s@) == views(out@) + lines_from(s@, start as int),
        decreases n - j,
    {
        if cs[j] == '\n' {
            let end = if j > start && cs[j - 1] == '\r' {
                j - 1
            } else {
                j
            };
            let seg = s.substring_char(start, end).to_owned();
            proof {
                let whole = s@.subrange(start as int, j as int);
                assert(strip_cr(whole) =~= seg@);
                assert(lines_from(s@, start as int) == seq![strip_cr(whole)] + lines_from(
                    s@,
                    j + 1,
                ));
            }
            let ghost before = out@;
            out.push(seg);
            proof {
                assert(views(out@) =~= views(before).push(seg@));
                assert(views(out@) + lines_from(s@, j + 1) =~= views(before) + (seq![seg@]
                    + lines_from(s@, j + 1)));
            }
            start = j + 1;
        }
        j += 1;
    }
    if start < n {
        let seg = s.substring_char(start, n).to_owned();
        let ghost before = out@;
        out.push(seg);
        proof {
            assert(views(out@) =~= views(before).push(seg@));
            assert(lines_from(s@, start as int) == seq![s@.subrange(start as int, n as int)]);
            assert(views(out@) =~= views(before) + lines_from(s@, start as int));
        }
    } else {
        assert(views(out@) =~= views(out@) + lines_from(s@, start as int));
    }
    out
}

/// The first line of `s`, or nothing when `s` has no lines.
pub open spec fn first_line(s: Seq<char>) -> Seq<char> {
    if lines(s).len() > 0 {
        lines(s)[0]
    } else {
        Seq::empty()
    }
}

/// Whether `p` occurs in `s` at index `i`.
pub open spec fn matches_at(s: Seq<char>, p: Seq<char>, i: int) -> bool {
    0 <= i && i + p.len() <= s.len() && s.subrange(i, i + p.len()) == p
}

/// The first index at or after `i` where `p` occurs in `s`.
pub open spec fn find_from(s: Seq<char>, p: Seq<char>, i: int) -> Option<int>
    decreases s.len() + 1 - i,
{
    if i < 0 || i + p.len() > s.len() {
        None
    } else if matches_at(s, p, i) {
        Some(i)
    } else {
        find_from(s, p, i + 1)
    }
}

/// The first index where `p` occurs in `s`.
pub open spec fn find(s: Seq<char>, p: Seq<char>) -> Option<int> {
    find_from(s, p, 0)
}

pub proof fn lemma_find_from(s: Seq<char>, p: Seq<char>, i: int)
    requires
        0 <= i,
    ensures
        find_from(s, p, i) matches Some(k) ==> i <= k && matches_at(s, p, k) && forall|j: int|
            i <= j < k ==> !matches_at(s, p, j),
        find_from(s, p, i) is None ==> forall|j: int| i <= j ==> !matches_at(s, p, j),
    decreases s.len() + 1 - i,
{
    if i + p.len() <= s.len() && !matches_at(s, p, i) {
        lemma_find_from(s, p, i + 1);
    }
}

/// The first place where `p` occurs decides `find`.
pub proof fn lemma_find_is(s: Seq<char>, p: Seq<char>, m: int)
    requires
        matches_at(s, p, m),
        forall|j: int| 0 <= j < m ==> !matches_at(s, p, j),
    ensures
        find(s, p) == Some(m),
{
    lemma_find_from(s, p, 0);
    if let Some(k) = find(s, p) {
        if k < m {
            assert(!matches_at(s, p, k));
        } else if k > m {
            assert(!matches_at(s, p, m));
        }
    }
}

/// A text with no line feed is one line, or none when empty.
pub proof fn lemma_single_line(s: Seq<char>)
    requires
        s.len() > 0,
        forall|j: int| 0 <= j < s.len() ==> s[j] != '\n',
    ensures
        lines(s) == seq![s],
{
    lemma_next_nl_bounds(s, 0);
    assert(s.subrange(0, s.len() as int) =~= s);
}

/// A text with no line feed, ended by one, is one line, unless a carriage
/// return comes right before the line feed.
pub proof fn lemma_single_line_ended(s: Seq<char>)
    requires
        s.len() > 0,
        forall|j: int| 0 <= j < s.len() ==> s[j] != '\n',
        s.last() != '\r',
    ensures
        lines(s + seq!['\n']) == seq![s],
{
    let t = s + seq!['\n'];
    let n = s.len() as int;
    lemma_next_nl_bounds(t, 0);
    let e = next_nl(t, 0);
    if e < n {
        assert(t[e] == s[e]);
    }
    assert(t[n] == '\n');
    assert(e == n);
    assert(t.subrange(0, n) =~= s);
    assert(lines_from(t, n + 1) == Seq::<Seq<char>>::empty());
}

/// Whether `p` occurs in `cs` at index `i`.
pub fn occurs_at(cs: &Vec<char>, p: &Vec<char>, i: usize) -> (r: bool)
    requires
        i + p.len() <= cs.len(),
    ensures
        r == matches_at(cs@, p@, i as int),
{
    let mut k: usize = 0;
    while k < p.len()
        invariant
            i + p.len() <= cs.len(),
            k <= p.len(),
            forall|m: int| 0 <= m < k ==> cs@[i + m] == p@[m],
        decreases p.len() - k,
    {
        if cs[i + k] != p[k] {
            assert(cs@.subrange(i as int, i + p.len())[k as int] != p@[k as int]);
            return false;
        }
        k += 1;
    }
    assert(cs@.subrange(i as int, i + p.len()) =~= p@);
    true
}

/// The first index where `p` occurs in `cs`.
pub fn find_chars(cs: &Vec<char>, p: &Vec<char>) -> (r: Option<usize>)
    ensures
        r matches Some(k) ==> find(cs@, p@) == Some(k as int),
        r is None ==> find(cs@, p@) is None,
{
    if p.len() > cs.len() {
        return None;
    }
    let limit = cs.len() - p.len();
    let mut i: usize = 0;
    loop
        invariant
            p.len() <= cs.len(),
            limit == cs.len() - p.len(),
            i <= limit,
            find(cs@, p@) == find_from(cs@, p@, i as int),
        decreases limit - i,
    {
        if occurs_at(cs, p, i) {
            return Some(i);
        }
        if i == limit {
            assert(find_from(cs@, p@, i + 1) is None);
            return None;
        }
        i += 1;
    }
}

/// `str::contains` with a string pattern.
pub fn contains_str(s: &str, p: &str) -> (r: bool)
    ensures
        r == find(s@, p@) is Some,
{
    let cs = chars_of(s);
    let ps = chars_of(p);
    find_chars(&cs, &ps).is_some()
}


/// The decimal digit character for `d < 10`.
pub open spec fn digit_char(d: nat) -> char {
    (d + 48) as char
}

/// The decimal representation of `n`, without leading zeros.
pub open spec fn decimal(n: nat) -> Seq<char>
    decreases n,
{
    if n < 10 {
        seq![digit_char(n)]
    } else {
        decimal(n / 10).push(digit_char(n % 10))
    }
}

/// `n` written in decimal, as `n.to_string()` writes it.
pub fn decimal_string(n: u64) -> (r: String)
    ensures
        r@ == decimal(n as nat),
    decreases n,
{
    let mut s = if n >= 10 {
        decimal_string(n / 10)
    } else {
        String::new()
    };
    let d = (n % 10) as usize;
    let digits = "0123456789";
    proof {
        reveal_strlit("0123456789");
    }
    let ghost before = s@;
    s.append(digits.substring_char(d, d + 1));
    proof {
        assert(digits@.subrange(d as int, d + 1) =~= seq![digit_char(d as nat)]);
        if n >= 10 {
            assert(s@ =~= decimal((n / 10) as nat).push(digit_char((n % 10) as nat)));
        } else {
            assert(s@ =~= seq![digit_char(n as nat)]);
        }
    }
    s
}

/// The parts joined, with `sep` between each two.
pub open spec fn join(parts: Seq<Seq<char>>, sep: Seq<char>) -> Seq<char>
    decreases parts.len(),
{
    if parts.len() == 0 {
        Seq::empty()
    } else if parts.len() == 1 {
        parts[0]
    } else {
        join(parts.drop_last(), sep) + sep + parts.last()
    }
}

/// `[String]::join`: the parts joined, with `sep` between each two.
pub fn join_strings(parts: &Vec<String>, sep: &str) -> (r: String)
    ensures
        r@ == join(views(parts@), sep@),
{
    let mut out = String::new();
    let n = parts.len();
    let mut i: usize = 0;
    while i < n
        invariant
            n == parts.len(),
            i <= n,
            out@ == join(views(parts@).take(i as int), sep@),
        decreases n - i,
    {
        let ghost prev = views(parts@).take(i as int);
        let ghost next = views(parts@).take(i + 1);
        assert(next.drop_last() =~= prev);
        if i != 0 {
            out.append(sep);
        }
        out.append(parts[i].as_str());
        proof {
            if i == 0 {
                assert(prev =~= Seq::<Seq<char>>::empty());
                assert(out@ =~= next[0]);
            }
        }
        i += 1;
    }
    assert(views(parts@).take(n as int) =~= views(parts@));
    out
}

/// Whether two strings are equal.
pub fn same_text(a: &str, b: &str) -> (r: bool)
    ensures
        r == (a@ == b@),
{
    a.to_owned() == b.to_owned()
}

/// `Path::join` on Unix paths: a path that starts with `/` replaces the base;
/// otherwise a separator goes between the two unless the base is empty or
/// already ends with one.
pub open spec fn join_path(base: Seq<char>, rel: Seq<char>) -> Seq<char> {
    if rel.len() > 0 && rel[0] == '/' {
        rel
    } else if base.len() == 0 || base.last() == '/' {
        base + rel
    } else {
        base + seq!['/'] + rel
    }
}

/// `base.join(rel)` for Unix paths held as text.
pub fn join_paths(base: &str, rel: &str) -> (r: String)
    ensures
        r@ == join_path(base@, rel@),
{
    let rs = chars_of(rel);
    if rs.len() > 0 && rs[0] == '/' {
        return rel.to_owned();
    }
    let bs = chars_of(base);
    let mut out = base.to_owned();
    if bs.len() > 0 && bs[bs.len() - 1] != '/' {
        out.append("/");
        proof {
            reveal_strlit("/");
        }
    }
    out.append(rel);
    proof {
        if bs.len() > 0 && bs[bs.len() - 1] != '/' {
            assert(out@ =~= base@ + seq!['/'] + rel@);
        }
    }
    out
}

/// `s` without any line feeds at its end.
pub open spec fn trim_end_newlines(s: Seq<char>) -> Seq<char>
    decreases s.len(),
{
    if s.len() > 0 && s.last() == '\n' {
        trim_end_newlines(s.drop_last())
    } else {
        s
    }
}

/// `str::trim_end_matches('\n')`.
pub fn without_final_newlines(s: &str) -> (r: String)
    ensures
        r@ == trim_end_newlines(s@),
{
    let cs = chars_of(s);
    let mut b: usize = cs.len();
    assert(s@.subrange(0, b as int) =~= s@);
    while b > 0 && cs[b - 1] == '\n'
        invariant
            b <= cs.len(),
            trim_end_newlines(s@) == trim_end_newlines(s@.subrange(0, b as int)),
            cs@ == s@,
        decreases b,
    {
        proof {
            let t = s@.subrange(0, b as int);
            assert(t.drop_last() =~= s@.subrange(0, b - 1));
        }
        b -= 1;
    }
    proof {
        if b == cs.len() {
            assert(s@.subrange(0, b as int) =~= s@);
        }
    }
    s.substring_char(0, b).to_owned()
}

} // verus!
