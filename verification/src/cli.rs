//! Choices made from the command line: which step to start from, which
//! workflow file to load.
use crate::text::{chars_of, find, join_path, join_paths, same_text, views};
use crate::workflow::{step_label, Step};
use vstd::prelude::*;

verus! {

/// Whether `c` is an ASCII decimal digit.
pub open spec fn is_digit(c: char) -> bool {
    '0' <= c && c <= '9'
}

/// The number that a run of decimal digits writes.
pub open spec fn digits_value(ds: Seq<char>) -> nat
    decreases ds.len(),
{
    if ds.len() == 0 {
        0
    } else {
        digits_value(ds.drop_last()) * 10 + (ds.last() as nat - 48) as nat
    }
}

/// The digits of an unsigned number as text: without one leading `+`.
pub open spec fn unsigned_body(s: Seq<char>) -> Seq<char> {
    if s.len() > 0 && s[0] == '+' {
        s.drop_first()
    } else {
        s
    }
}

/// What `s.parse::<usize>()` gives: the number, when `s` is an optional `+`
/// followed by at least one decimal digit and the number fits.
pub open spec fn parsed_usize(s: Seq<char>) -> Option<nat> {
    let b = unsigned_body(s);
    if b.len() > 0 && (forall|i: int| 0 <= i < b.len() ==> is_digit(#[trigger] b[i]))
        && digits_value(b) <= usize::MAX {
        Some(digits_value(b))
    } else {
        None
    }
}

proof fn lemma_digits_grow(b: Seq<char>, j: int)
    requires
        0 <= j <= b.len(),
        forall|i: int| 0 <= i < b.len() ==> is_digit(#[trigger] b[i]),
    ensures
        digits_value(b.take(j)) <= digits_value(b),
    decreases b.len() - j,
{
    if j < b.len() {
        lemma_digits_grow(b, j + 1);
        assert(b.take(j + 1).drop_last() =~= b.take(j));
        assert(b.take(j + 1).last() == b[j]);
    } else {
        assert(b.take(j) =~= b);
    }
}

/// `s.parse::<usize>()`, as an option.
pub fn parse_usize(s: &str) -> (r: Option<usize>)
    ensures
        match parsed_usize(s@) {
            Some(n) => r == Some(n as usize),
            None => r is None,
        },
{
    let cs = chars_of(s);
    let n = cs.len();
    let start: usize = if n > 0 && cs[0] == '+' {
        1
    } else {
        0
    };
    let ghost b = unsigned_body(s@);
    assert(b =~= cs@.subrange(start as int, n as int));
    if start >= n {
        return None;
    }
    let mut acc: usize = 0;
    let mut i: usize = start;
    while i < n
        invariant
            start <= i <= n == cs.len(),
            cs@ == s@,
            b =~= cs@.subrange(start as int, n as int),
            b == unsigned_body(s@),
            forall|j: int| 0 <= j < i - start ==> is_digit(#[trigger] b[j]),
            acc == digits_value(b.take(i - start)),
        decreases n - i,
    {
        let c = cs[i];
        if !('0' <= c && c <= '9') {
            assert(b[i - start] == c);
            assert(!is_digit(b[i - start]));
            return None;
        }
        let d = ((c as u32) - 48) as usize;
        proof {
            assert(b.take(i - start + 1).drop_last() =~= b.take(i - start));
            assert(b.take(i - start + 1).last() == c);
            assert(d == c as nat - 48);
            assert(digits_value(b.take(i - start + 1)) == acc * 10 + d);
        }
        match acc.checked_mul(10) {
            Some(m) => match m.checked_add(d) {
                Some(v) => {
                    acc = v;
                },
                None => {
                    proof {
                        if forall|j: int| 0 <= j < b.len() ==> is_digit(#[trigger] b[j]) {
                            lemma_digits_grow(b, i - start + 1);
                        }
                    }
                    return None;
                },
            },
            None => {
                proof {
                    if forall|j: int| 0 <= j < b.len() ==> is_digit(#[trigger] b[j]) {
                        lemma_digits_grow(b, i - start + 1);
                    }
                }
                return None;
            },
        }
        i += 1;
    }
    assert(b.take(n - start) =~= b);
    Some(acc)
}

/// Names what `str::to_lowercase` returns: the Unicode lowercase form of the
/// text (mostly character by character, but a Greek capital sigma depends on
/// its neighbours).
pub uninterp spec fn lowercase(s: Seq<char>) -> Seq<char>;

/// Wraps `str::to_lowercase`.
#[verifier::external_body]
fn to_lowercase(s: &str) -> (r: String)
    ensures
        r@ == lowercase(s@),
{
    s.to_lowercase()
}

/// The first index of a text in which `needle` occurs.
pub open spec fn first_containing_from(hay: Seq<Seq<char>>, needle: Seq<char>, i: int) -> Option<
    int,
>
    decreases hay.len() - i,
{
    if i < 0 || i >= hay.len() {
        None
    } else if find(hay[i], needle) is Some {
        Some(i)
    } else {
        first_containing_from(hay, needle, i + 1)
    }
}

/// The first of `haystacks` that contains `needle`.
pub fn first_containing(haystacks: &Vec<String>, needle: &str) -> (r: Option<usize>)
    ensures
        match first_containing_from(views(haystacks@), needle@, 0) {
            Some(i) => r == Some(i as usize),
            None => r is None,
        },
{
    let n = haystacks.len();
    let mut i: usize = 0;
    while i < n
        invariant
            n == haystacks.len(),
            i <= n,
            first_containing_from(views(haystacks@), needle@, 0) == first_containing_from(
                views(haystacks@),
                needle@,
                i as int,
            ),
        decreases n - i,
    {
        assert(views(haystacks@)[i as int] == haystacks@[i as int]@);
        if crate::text::contains_str(haystacks[i].as_str(), needle) {
            return Some(i);
        }
        i += 1;
    }
    None
}

/// The first step whose name is `sel`.
pub open spec fn first_named_from(steps: Seq<Step>, sel: Seq<char>, i: int) -> Option<int>
    decreases steps.len() - i,
{
    if i < 0 || i >= steps.len() {
        None
    } else if steps[i].name matches Some(n) && n@ == sel {
        Some(i)
    } else {
        first_named_from(steps, sel, i + 1)
    }
}

proof fn lemma_first_named_bounds(steps: Seq<Step>, sel: Seq<char>, i: int)
    requires
        0 <= i,
    ensures
        first_named_from(steps, sel, i) matches Some(j) ==> i <= j < steps.len(),
    decreases steps.len() - i,
{
    if i < steps.len() && !(steps[i].name matches Some(n) && n@ == sel) {
        lemma_first_named_bounds(steps, sel, i + 1);
    }
}

proof fn lemma_first_containing_bounds(hay: Seq<Seq<char>>, needle: Seq<char>, i: int)
    requires
        0 <= i,
    ensures
        first_containing_from(hay, needle, i) matches Some(j) ==> i <= j < hay.len(),
    decreases hay.len() - i,
{
    if i < hay.len() && find(hay[i], needle) is None {
        lemma_first_containing_bounds(hay, needle, i + 1);
    }
}

/// The lowercased labels of the steps.
pub open spec fn lowered_labels(steps: Seq<Step>) -> Seq<Seq<char>> {
    Seq::new(steps.len(), |i: int| lowercase(step_label(steps[i], i)))
}

/// Why a `--from` selector picks no step.
#[derive(Debug)]
pub enum ResolveError {
    /// A step number outside `1..=len`.
    OutOfRange { n: usize, len: usize },
    /// Neither a number, nor a step name, nor part of a step label.
    NoMatch { selector: String },
}

/// Resolves a `--from` selector to a 0-based step index: a 1-based step
/// number; else the first step named exactly so; else the first step whose
/// label contains it, ignoring case.
pub fn resolve_step(steps: &Vec<Step>, sel: &str) -> (r: Result<usize, ResolveError>)
    requires
        steps.len() < usize::MAX,
    ensures
        match parsed_usize(sel@) {
            Some(n) => if 1 <= n <= steps.len() {
                r == Ok::<usize, ResolveError>((n - 1) as usize)
            } else {
                r matches Err(ResolveError::OutOfRange { n: m, len }) && m == n && len == steps.len()
            },
            None => match first_named_from(steps@, sel@, 0) {
                Some(i) => r == Ok::<usize, ResolveError>(i as usize),
                None => match first_containing_from(lowered_labels(steps@), lowercase(sel@), 0) {
                    Some(i) => r == Ok::<usize, ResolveError>(i as usize),
                    None => r matches Err(ResolveError::NoMatch { selector }) && selector@ == sel@,
                },
            },
        },
        r matches Ok(i) ==> i < steps.len(),
{
    proof {
        lemma_first_named_bounds(steps@, sel@, 0);
        lemma_first_containing_bounds(lowered_labels(steps@), lowercase(sel@), 0);
    }
    if let Some(n) = parse_usize(sel) {
        if n >= 1 && n <= steps.len() {
            return Ok(n - 1);
        }
        return Err(ResolveError::OutOfRange { n, len: steps.len() });
    }
    let n = steps.len();
    let mut i: usize = 0;
    while i < n
        invariant
            n == steps.len(),
            i <= n,
            parsed_usize(sel@) is None,
            first_named_from(steps@, sel@, 0) == first_named_from(steps@, sel@, i as int),
        decreases n - i,
    {
        if let Some(name) = &steps[i].name {
            if crate::text::same_text(name.as_str(), sel) {
                return Ok(i);
            }
        }
        i += 1;
    }
    let needle = to_lowercase(sel);
    let mut labels: Vec<String> = Vec::new();
    let mut j: usize = 0;
    while j < n
        invariant
            n == steps.len(),
            n < usize::MAX,
            j <= n,
            parsed_usize(sel@) is None,
            first_named_from(steps@, sel@, 0) is None,
            labels@.len() == j,
            forall|k: int| 0 <= k < j ==> (#[trigger] labels@[k])@ == lowercase(step_label(steps@[k], k)),
        decreases n - j,
    {
        let label = steps[j].label(j);
        labels.push(to_lowercase(label.as_str()));
        j += 1;
    }
    assert(views(labels@) =~= lowered_labels(steps@));
    match first_containing(&labels, needle.as_str()) {
        Some(k) => Ok(k),
        None => Err(ResolveError::NoMatch { selector: sel.to_owned() }),
    }
}


/// The index of the last `.` before position `i`.
pub open spec fn last_dot_before(s: Seq<char>, i: int) -> Option<int>
    decreases i,
{
    if i <= 0 || i > s.len() {
        None
    } else if s[i - 1] == '.' {
        Some(i - 1)
    } else {
        last_dot_before(s, i - 1)
    }
}

/// The extension of a file name, as `Path::extension` gives it: the text after
/// the last `.`, unless there is none, or the only one starts the name, or the
/// name is `..`.
pub open spec fn file_extension(name: Seq<char>) -> Option<Seq<char>> {
    if name == ".."@ {
        None
    } else {
        match last_dot_before(name, name.len() as int) {
            Some(d) => if d > 0 {
                Some(name.subrange(d + 1, name.len() as int))
            } else {
                None
            },
            None => None,
        }
    }
}

/// Whether a file name marks a workflow: its extension is `yml` or `yaml`.
pub open spec fn is_workflow_name(name: Seq<char>) -> bool {
    file_extension(name) == Some("yml"@) || file_extension(name) == Some("yaml"@)
}

/// Whether the file name `name` has the extension `yml` or `yaml`.
pub fn workflow_name(name: &str) -> (r: bool)
    ensures
        r == is_workflow_name(name@),
{
    if same_text(name, "..") {
        return false;
    }
    let cs = chars_of(name);
    let mut i: usize = cs.len();
    while i > 0 && cs[i - 1] != '.'
        invariant
            i <= cs.len(),
            cs@ == name@,
            last_dot_before(name@, name@.len() as int) == last_dot_before(name@, i as int),
        decreases i,
    {
        i -= 1;
    }
    if i <= 1 {
        return false;
    }
    let ext = name.substring_char(i, cs.len());
    same_text(ext, "yml") || same_text(ext, "yaml")
}

/// The paths, under `dir`, of the names that mark workflows, in order.
pub open spec fn workflow_paths(dir: Seq<char>, names: Seq<Seq<char>>) -> Seq<Seq<char>>
    decreases names.len(),
{
    if names.len() == 0 {
        Seq::empty()
    } else {
        workflow_paths(dir, names.drop_last()) + if is_workflow_name(names.last()) {
            seq![join_path(dir, names.last())]
        } else {
            Seq::empty()
        }
    }
}

/// Whether `a` comes before `b` in character order.
pub open spec fn text_lt(a: Seq<char>, b: Seq<char>) -> bool
    decreases a.len(),
{
    if a.len() == 0 {
        b.len() > 0
    } else if b.len() == 0 {
        false
    } else if a[0] != b[0] {
        a[0] < b[0]
    } else {
        text_lt(a.drop_first(), b.drop_first())
    }
}

/// Whether the texts are in order.
pub open spec fn texts_sorted(s: Seq<Seq<char>>) -> bool {
    forall|i: int, j: int| 0 <= i < j < s.len() ==> !text_lt(#[trigger] s[j], #[trigger] s[i])
}

pub proof fn lemma_text_lt_irreflexive(a: Seq<char>)
    ensures
        !text_lt(a, a),
    decreases a.len(),
{
    if a.len() > 0 {
        lemma_text_lt_irreflexive(a.drop_first());
    }
}

pub proof fn lemma_text_lt_transitive(a: Seq<char>, b: Seq<char>, c: Seq<char>)
    requires
        text_lt(a, b),
        text_lt(b, c),
    ensures
        text_lt(a, c),
    decreases a.len(),
{
    if a.len() > 0 && b.len() > 0 && c.len() > 0 && a[0] == b[0] && b[0] == c[0] {
        lemma_text_lt_transitive(a.drop_first(), b.drop_first(), c.drop_first());
    }
}

pub proof fn lemma_text_lt_total(a: Seq<char>, b: Seq<char>)
    ensures
        a != b ==> text_lt(a, b) || text_lt(b, a),
    decreases a.len(),
{
    if a.len() > 0 && b.len() > 0 && a[0] == b[0] {
        lemma_text_lt_total(a.drop_first(), b.drop_first());
        if a.drop_first() == b.drop_first() {
            assert(a =~= seq![a[0]] + a.drop_first());
            assert(b =~= seq![b[0]] + b.drop_first());
        }
    } else if a.len() == 0 && b.len() == 0 {
        assert(a =~= b);
    }
}

/// Whether `a` comes before `b` in character order.
pub fn text_less(a: &str, b: &str) -> (r: bool)
    ensures
        r == text_lt(a@, b@),
{
    let x = chars_of(a);
    let y = chars_of(b);
    let mut i: usize = 0;
    assert(a@.skip(0) =~= a@);
    assert(b@.skip(0) =~= b@);
    while i < x.len() && i < y.len() && x[i] == y[i]
        invariant
            i <= x.len(),
            i <= y.len(),
            x@ == a@,
            y@ == b@,
            text_lt(a@, b@) == text_lt(a@.skip(i as int), b@.skip(i as int)),
        decreases x.len() - i,
    {
        proof {
            assert(a@.skip(i as int).drop_first() =~= a@.skip(i + 1));
            assert(b@.skip(i as int).drop_first() =~= b@.skip(i + 1));
        }
        i += 1;
    }
    if i == x.len() {
        i < y.len()
    } else if i == y.len() {
        false
    } else {
        x[i] < y[i]
    }
}

/// The texts in character order.
pub fn sort_texts(items: Vec<String>) -> (r: Vec<String>)
    ensures
        texts_sorted(views(r@)),
        views(r@).to_multiset() == views(items@).to_multiset(),
{
    broadcast use vstd::seq_lib::group_to_multiset_ensures;

    let mut out: Vec<String> = Vec::new();
    let n = items.len();
    let mut k: usize = 0;
    while k < n
        invariant
            n == items.len(),
            k <= n,
            texts_sorted(views(out@)),
            views(out@).to_multiset() == views(items@).take(k as int).to_multiset(),
        decreases n - k,
    {
        let x = items[k].clone();
        let mut p: usize = 0;
        while p < out.len() && !text_less(x.as_str(), out[p].as_str())
            invariant
                p <= out.len(),
                forall|j: int| 0 <= j < p ==> !text_lt(x@, (#[trigger] out@[j])@),
            decreases out.len() - p,
        {
            p += 1;
        }
        let ghost before = views(out@);
        proof {
            assert forall|j: int| p <= j < before.len() implies !text_lt(
                #[trigger] before[j],
                x@,
            ) by {
                assert(before[p as int] == out@[p as int]@);
                if text_lt(before[j], x@) {
                    if j == p {
                        lemma_text_lt_transitive(x@, before[p as int], x@);
                        lemma_text_lt_irreflexive(x@);
                    } else {
                        lemma_text_lt_transitive(before[j], x@, before[p as int]);
                    }
                }
            }
        }
        out.insert(p, x);
        proof {
            let after = views(out@);
            assert(after =~= before.insert(p as int, x@));
            assert forall|i: int, j: int| 0 <= i < j < after.len() implies !text_lt(
                #[trigger] after[j],
                #[trigger] after[i],
            ) by {
                if j < p {
                    assert(after[i] == before[i] && after[j] == before[j]);
                } else if j == p {
                    assert(after[i] == before[i]);
                    assert(before[i] == out@[i]@);
                } else if i < p {
                    assert(after[i] == before[i] && after[j] == before[j - 1]);
                    assert(before[i] == out@[i]@);
                    if text_lt(before[j - 1], before[i]) {
                        lemma_text_lt_transitive(before[j - 1], before[i], x@);
                    }
                    lemma_text_lt_total(before[i], x@);
                } else if i == p {
                    assert(after[j] == before[j - 1]);
                } else {
                    assert(after[i] == before[i - 1] && after[j] == before[j - 1]);
                }
            }
            let t = views(items@).take(k + 1);
            assert(t =~= views(items@).take(k as int).push(x@));
            vstd::seq_lib::to_multiset_insert(before, p as int, x@);
            vstd::seq_lib::to_multiset_build(views(items@).take(k as int), x@);
        }
        k += 1;
    }
    assert(views(items@).take(n as int) =~= views(items@));
    out
}

/// Why no single workflow file could be picked.
#[derive(Debug)]
pub enum DiscoverError {
    /// No file with extension `yml` or `yaml`.
    NoWorkflows,
    /// More than one such file; their paths, in order.
    Multiple(Vec<String>),
}

/// Picks the workflow among the files `names` of `dir` (the files with the
/// extension `yml` or `yaml`): the one there is, or an error that says
/// there is none or lists them all, in order.
pub fn choose_workflow(dir: &str, names: Vec<String>) -> (r: Result<String, DiscoverError>)
    ensures
        ({
            let c = workflow_paths(dir@, views(names@));
            if c.len() == 0 {
                r matches Err(DiscoverError::NoWorkflows)
            } else if c.len() == 1 {
                r matches Ok(p) && p@ == c[0]
            } else {
                r matches Err(DiscoverError::Multiple(list)) && texts_sorted(views(list@))
                    && views(list@).to_multiset() == c.to_multiset()
            }
        }),
{
    let mut found: Vec<String> = Vec::new();
    let n = names.len();
    let mut i: usize = 0;
    while i < n
        invariant
            n == names.len(),
            i <= n,
            views(found@) == workflow_paths(dir@, views(names@).take(i as int)),
        decreases n - i,
    {
        let ghost before = views(found@);
        proof {
            let t = views(names@).take(i + 1);
            assert(t.drop_last() =~= views(names@).take(i as int));
            assert(t.last() == names@[i as int]@);
        }
        if workflow_name(names[i].as_str()) {
            found.push(join_paths(dir, names[i].as_str()));
            proof {
                assert(views(found@) =~= before + seq![join_path(dir@, names@[i as int]@)]);
            }
        } else {
            assert(views(found@) =~= before + Seq::<Seq<char>>::empty());
        }
        i += 1;
    }
    assert(views(names@).take(n as int) =~= views(names@));
    let ghost c = views(found@);
    let sorted = sort_texts(found);
    proof {
        broadcast use vstd::seq_lib::group_to_multiset_ensures;

        vstd::seq_lib::to_multiset_len(views(sorted@));
        vstd::seq_lib::to_multiset_len(c);
        assert(views(sorted@).len() == c.len());
    }
    if sorted.len() == 0 {
        Err(DiscoverError::NoWorkflows)
    } else if sorted.len() == 1 {
        proof {
            broadcast use vstd::seq_lib::group_to_multiset_ensures;

            assert(c.to_multiset().contains(views(sorted@)[0]));
            assert(c =~= seq![c[0]]);
            assert(views(sorted@)[0] == sorted@[0]@);
        }
        Ok(sorted[0].clone())
    } else {
        Err(DiscoverError::Multiple(sorted))
    }
}

} // verus!
