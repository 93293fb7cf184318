//! Reading and rewriting `.env` files: which variable a line assigns, whether
//! a file assigns a variable, and the file after one variable is set.
use vstd::prelude::*;
use crate::text;

verus! {

pub open spec fn export_prefix() -> Seq<char> {
    seq!['e', 'x', 'p', 'o', 'r', 't', ' ']
}

/// The text after a leading `export `, or the text itself.
pub open spec fn strip_export(t: Seq<char>) -> Seq<char> {
    if t.len() >= 7 && t.take(7) == export_prefix() {
        t.skip(7)
    } else {
        t
    }
}

/// The variable a line assigns: after leading white space and an optional
/// `export `, the text before the first `=` without trailing white space;
/// nothing where the line holds no `=`.
pub open spec fn env_line_name_spec(line: Seq<char>) -> Option<Seq<char>> {
    let t = strip_export(text::trim_start(line));
    let parts = text::split_char(t, '=');
    if parts.len() > 1 {
        Some(text::trim_end(parts[0]))
    } else {
        None
    }
}

/// The line assigns the variable `name`.
pub open spec fn names_variable(line: Seq<char>, name: Seq<char>) -> bool {
    env_line_name_spec(line) == Some(name)
}

/// Some line of `contents` assigns `name`.
pub open spec fn env_contains_name_spec(contents: Seq<char>, name: Seq<char>) -> bool {
    exists|i: int|
        0 <= i < text::lines(contents).len() && #[trigger] names_variable(
            text::lines(contents)[i],
            name,
        )
}

/// Index of the first line that assigns `name`.
pub open spec fn first_naming_line(ls: Seq<Seq<char>>, name: Seq<char>) -> Option<int>
    decreases ls.len(),
{
    if ls.len() == 0 {
        None
    } else {
        match first_naming_line(ls.drop_last(), name) {
            Some(k) => Some(k),
            None => if names_variable(ls.last(), name) {
                Some(ls.len() - 1)
            } else {
                None
            },
        }
    }
}

/// The lines that do not assign `name`.
pub open spec fn keeps(name: Seq<char>) -> spec_fn(Seq<char>) -> bool {
    |l: Seq<char>| !names_variable(l, name)
}

/// The lines after setting `name`: the first line that assigns it becomes
/// `replacement`, later ones are dropped, and where none does `replacement`
/// is added at the end. Every other line stays, in order.
pub open spec fn upsert_lines(ls: Seq<Seq<char>>, name: Seq<char>, replacement: Seq<char>) -> Seq<
    Seq<char>,
> {
    match first_naming_line(ls, name) {
        Some(k) => ls.take(k).push(replacement) + ls.skip(k + 1).filter(keeps(name)),
        None => ls.push(replacement),
    }
}

/// The assignment line `name=value`.
pub open spec fn assignment(name: Seq<char>, value: Seq<char>) -> Seq<char> {
    name + seq!['='] + value
}

/// The whole file after setting `name` to `value`: the lines joined by
/// newlines, ending in a newline.
pub open spec fn upserted_env(existing: Seq<char>, name: Seq<char>, value: Seq<char>) -> Seq<char> {
    text::join_with(upsert_lines(text::lines(existing), name, assignment(name, value)), '\n').push('\n')
}

pub proof fn lemma_first_naming_line_bounds(ls: Seq<Seq<char>>, name: Seq<char>)
    ensures
        first_naming_line(ls, name) matches Some(k) ==> 0 <= k < ls.len() && names_variable(
            ls[k],
            name,
        ) && forall|j: int| 0 <= j < k ==> !names_variable(#[trigger] ls[j], name),
        first_naming_line(ls, name) is None ==> forall|j: int|
            0 <= j < ls.len() ==> !names_variable(#[trigger] ls[j], name),
    decreases ls.len(),
{
    if ls.len() > 0 {
        lemma_first_naming_line_bounds(ls.drop_last(), name);
        assert forall|j: int| 0 <= j < ls.len() - 1 implies #[trigger] ls[j] == ls.drop_last()[j] by {}
    }
}

/// The first line that assigns `name` is the one at `k` where none before
/// it does.
proof fn lemma_first_naming_line_at(ls: Seq<Seq<char>>, name: Seq<char>, k: int)
    requires
        0 <= k < ls.len(),
        names_variable(ls[k], name),
        forall|j: int| 0 <= j < k ==> !names_variable(#[trigger] ls[j], name),
    ensures
        first_naming_line(ls, name) == Some(k),
    decreases ls.len(),
{
    if k < ls.len() - 1 {
        let init = ls.drop_last();
        assert forall|j: int| 0 <= j < k implies !names_variable(#[trigger] init[j], name) by {
            assert(init[j] == ls[j]);
        }
        lemma_first_naming_line_at(init, name, k);
    } else {
        lemma_first_naming_line_bounds(ls.drop_last(), name);
        if first_naming_line(ls.drop_last(), name) is Some {
            let k2 = first_naming_line(ls.drop_last(), name)->0;
            assert(ls.drop_last()[k2] == ls[k2]);
        }
    }
}

/// The lines that assign `name`.
pub open spec fn assigns(name: Seq<char>) -> spec_fn(Seq<char>) -> bool {
    |l: Seq<char>| names_variable(l, name)
}

proof fn lemma_filter_all(s: Seq<Seq<char>>, p: spec_fn(Seq<char>) -> bool)
    requires
        forall|i: int| 0 <= i < s.len() ==> p(#[trigger] s[i]),
    ensures
        s.filter(p) == s,
    decreases s.len(),
{
    reveal_with_fuel(Seq::<_>::filter, 1);
    if s.len() > 0 {
        let init = s.drop_last();
        assert forall|i: int| 0 <= i < init.len() implies p(#[trigger] init[i]) by {
            assert(init[i] == s[i]);
        }
        lemma_filter_all(init, p);
        assert(p(s[s.len() - 1]));
        assert(init.push(s.last()) =~= s);
    }
}

proof fn lemma_filter_none(s: Seq<Seq<char>>, p: spec_fn(Seq<char>) -> bool)
    requires
        forall|i: int| 0 <= i < s.len() ==> !p(#[trigger] s[i]),
    ensures
        s.filter(p) == Seq::<Seq<char>>::empty(),
    decreases s.len(),
{
    reveal_with_fuel(Seq::<_>::filter, 1);
    if s.len() > 0 {
        let init = s.drop_last();
        assert forall|i: int| 0 <= i < init.len() implies !p(#[trigger] init[i]) by {
            assert(init[i] == s[i]);
        }
        lemma_filter_none(init, p);
        assert(!p(s[s.len() - 1]));
    }
}

/// What holds of every line of `s` holds of every line of a filter of it,
/// and each satisfies the filter.
proof fn lemma_filter_keeps(
    s: Seq<Seq<char>>,
    p: spec_fn(Seq<char>) -> bool,
    q: spec_fn(Seq<char>) -> bool,
)
    requires
        forall|i: int| 0 <= i < s.len() ==> q(#[trigger] s[i]),
    ensures
        forall|i: int|
            0 <= i < s.filter(p).len() ==> q(#[trigger] s.filter(p)[i]) && p(s.filter(p)[i]),
    decreases s.len(),
{
    reveal_with_fuel(Seq::<_>::filter, 1);
    if s.len() > 0 {
        let init = s.drop_last();
        assert forall|i: int| 0 <= i < init.len() implies q(#[trigger] init[i]) by {
            assert(init[i] == s[i]);
        }
        lemma_filter_keeps(init, p, q);
        assert(q(s[s.len() - 1]));
        let f = s.filter(p);
        let g = init.filter(p);
        assert forall|i: int| 0 <= i < f.len() implies q(#[trigger] f[i]) && p(f[i]) by {
            if i < g.len() {
                assert(f[i] == g[i]);
            } else {
                assert(f[i] == s.last());
            }
        }
    }
}

/// An assignment to a well-formed variable name assigns that name, whatever
/// the value.
pub proof fn lemma_assignment_names_variable(name: Seq<char>, value: Seq<char>)
    requires
        crate::secrets::valid_env_name_spec(name),
    ensures
        names_variable(assignment(name, value), name),
{
    let line = assignment(name, value);
    assert(line[0] == name[0]);
    assert(!text::is_white_space(line[0]));
    assert(text::trim_start(line) == line);
    if line.len() >= 7 && line.take(7) == export_prefix() {
        if name.len() >= 7 {
            assert(line.take(7)[6] == name[6]);
        } else {
            let n = name.len() as int;
            assert(line[n] == '=');
            assert(line.take(7)[n] == line[n]);
        }
    }
    assert(strip_export(line) == line);
    assert(text::free_of(name, '='));
    text::lemma_split_char_append(name, value, '=');
    text::lemma_split_char_single(name, '=');
    text::lemma_split_char_nonempty(value, '=');
    assert(name + seq!['='] + value =~= line);
    let parts = text::split_char(line, '=');
    assert(parts[0] == name);
    assert(name.last() == name[name.len() - 1]);
    assert(text::trim_end(name) == name);
}

/// Setting a variable leaves exactly one line that assigns it, the new
/// assignment, and every other line of the file, in order.
#[verifier::rlimit(30)]
pub proof fn lemma_upsert_lines_assigns_once(ls: Seq<Seq<char>>, name: Seq<char>, value: Seq<char>)
    requires
        crate::secrets::valid_env_name_spec(name),
    ensures
        upsert_lines(ls, name, assignment(name, value)).filter(assigns(name)) == seq![
            assignment(name, value),
        ],
        upsert_lines(ls, name, assignment(name, value)).filter(keeps(name)) == ls.filter(
            keeps(name),
        ),
{
    let r = assignment(name, value);
    lemma_assignment_names_variable(name, value);
    lemma_first_naming_line_bounds(ls, name);
    reveal_with_fuel(Seq::<_>::filter, 1);
    match first_naming_line(ls, name) {
        Some(k) => {
            let a = ls.take(k);
            let rest = ls.skip(k + 1);
            let b = rest.filter(keeps(name));
            assert forall|i: int| 0 <= i < a.len() implies keeps(name)(#[trigger] a[i]) by {
                assert(a[i] == ls[i]);
            }
            lemma_filter_keeps(rest, keeps(name), |l: Seq<char>| true);
            assert forall|i: int| 0 <= i < b.len() implies !assigns(name)(#[trigger] b[i]) by {
                assert(keeps(name)(b[i]));
            }
            assert forall|i: int| 0 <= i < a.len() implies !assigns(name)(#[trigger] a[i]) by {
                assert(keeps(name)(a[i]));
            }
            lemma_filter_all(a, keeps(name));
            lemma_filter_none(a, assigns(name));
            lemma_filter_none(b, assigns(name));
            assert forall|i: int| 0 <= i < b.len() implies keeps(name)(#[trigger] b[i]) by {}
            lemma_filter_all(b, keeps(name));
            Seq::filter_distributes_over_add(a.push(r), b, assigns(name));
            Seq::filter_distributes_over_add(a.push(r), b, keeps(name));
            assert(a.push(r).drop_last() =~= a);
            assert(a.push(r).filter(assigns(name)) =~= seq![r]);
            assert(a.push(r).filter(keeps(name)) =~= a);
            assert(ls =~= a.push(ls[k]) + rest);
            Seq::filter_distributes_over_add(a.push(ls[k]), rest, keeps(name));
            assert(a.push(ls[k]).drop_last() =~= a);
            assert(a.push(ls[k]).filter(keeps(name)) =~= a);
            assert(upsert_lines(ls, name, r).filter(assigns(name)) =~= seq![r]);
        },
        None => {
            assert(ls.push(r).drop_last() =~= ls);
            lemma_filter_none(ls, assigns(name));
            assert(upsert_lines(ls, name, r).filter(assigns(name)) =~= seq![r]);
        },
    }
}

/// The shape of the rewritten lines: the replacement at `k`, and no other
/// line assigning `name`.
proof fn lemma_upsert_lines_shape(ls: Seq<Seq<char>>, name: Seq<char>, r: Seq<char>) -> (k: int)
    ensures
        0 <= k < upsert_lines(ls, name, r).len(),
        upsert_lines(ls, name, r)[k] == r,
        forall|j: int|
            0 <= j < upsert_lines(ls, name, r).len() && j != k ==> !names_variable(
                #[trigger] upsert_lines(ls, name, r)[j],
                name,
            ),
{
    lemma_first_naming_line_bounds(ls, name);
    let u = upsert_lines(ls, name, r);
    match first_naming_line(ls, name) {
        Some(k) => {
            let rest = ls.skip(k + 1);
            let b = rest.filter(keeps(name));
            lemma_filter_keeps(rest, keeps(name), |l: Seq<char>| true);
            assert forall|j: int| 0 <= j < u.len() && j != k implies !names_variable(
                #[trigger] u[j],
                name,
            ) by {
                if j < k {
                    assert(u[j] == ls[j]);
                } else {
                    assert(u[j] == b[j - k - 1]);
                    assert(keeps(name)(b[j - k - 1]));
                }
            }
            k
        },
        None => {
            ls.len() as int
        },
    }
}

/// Rewriting lines that already hold the assignment once, and no other line
/// assigning the variable, changes nothing.
proof fn lemma_upsert_lines_fixed(ls: Seq<Seq<char>>, name: Seq<char>, r: Seq<char>)
    requires
        names_variable(r, name),
    ensures
        upsert_lines(upsert_lines(ls, name, r), name, r) == upsert_lines(ls, name, r),
{
    let u = upsert_lines(ls, name, r);
    let k = lemma_upsert_lines_shape(ls, name, r);
    lemma_first_naming_line_at(u, name, k);
    let after = u.skip(k + 1);
    assert forall|i: int| 0 <= i < after.len() implies keeps(name)(#[trigger] after[i]) by {
        assert(after[i] == u[k + 1 + i]);
    }
    lemma_filter_all(after, keeps(name));
    assert(u.take(k).push(r) + after =~= u);
}

/// Every rewritten line comes from the file or is the replacement.
proof fn lemma_upsert_lines_from(
    ls: Seq<Seq<char>>,
    name: Seq<char>,
    r: Seq<char>,
    q: spec_fn(Seq<char>) -> bool,
)
    requires
        forall|i: int| 0 <= i < ls.len() ==> q(#[trigger] ls[i]),
        q(r),
    ensures
        forall|j: int|
            0 <= j < upsert_lines(ls, name, r).len() ==> q(#[trigger] upsert_lines(ls, name, r)[j]),
{
    lemma_first_naming_line_bounds(ls, name);
    let u = upsert_lines(ls, name, r);
    match first_naming_line(ls, name) {
        Some(k) => {
            let rest = ls.skip(k + 1);
            let b = rest.filter(keeps(name));
            assert forall|i: int| 0 <= i < rest.len() implies q(#[trigger] rest[i]) by {
                assert(rest[i] == ls[k + 1 + i]);
            }
            lemma_filter_keeps(rest, keeps(name), q);
            assert forall|j: int| 0 <= j < u.len() implies q(#[trigger] u[j]) by {
                if j < k {
                    assert(u[j] == ls[j]);
                } else if j > k {
                    assert(u[j] == b[j - k - 1]);
                }
            }
        },
        None => {
            assert forall|j: int| 0 <= j < u.len() implies q(#[trigger] u[j]) by {
                if j < ls.len() {
                    assert(u[j] == ls[j]);
                }
            }
        },
    }
}

proof fn lemma_assignment_free(name: Seq<char>, value: Seq<char>)
    requires
        crate::secrets::valid_env_name_spec(name),
        text::free_of(value, '\n'),
    ensures
        text::free_of(assignment(name, value), '\n'),
{
    let line = assignment(name, value);
    assert forall|i: int| 0 <= i < line.len() implies line[i] != '\n' by {
        if i < name.len() {
            assert(line[i] == name[i]);
        } else if i > name.len() {
            assert(line[i] == value[i - name.len() - 1]);
        }
    }
}

/// The file written after setting a variable reads back, line by line, as
/// the lines that were set, each without one trailing carriage return.
pub proof fn lemma_upserted_env_lines(existing: Seq<char>, name: Seq<char>, value: Seq<char>)
    requires
        crate::secrets::valid_env_name_spec(name),
        text::free_of(value, '\n'),
    ensures
        text::lines(upserted_env(existing, name, value)) == upsert_lines(
            text::lines(existing),
            name,
            assignment(name, value),
        ).map_values(|l: Seq<char>| text::strip_cr(l)),
{
    let r = assignment(name, value);
    let ls = text::lines(existing);
    text::lemma_lines_free(existing);
    lemma_assignment_free(name, value);
    lemma_upsert_lines_from(ls, name, r, |l: Seq<char>| text::free_of(l, '\n'));
    let u = upsert_lines(ls, name, r);
    let k = lemma_upsert_lines_shape(ls, name, r);
    text::lemma_lines_of_joined(u);
}

/// The lines before `pre.len()`, then `head`, written with newlines: what
/// comes first in a file when `head` starts a line after the lines `pre`.
pub open spec fn lines_then(pre: Seq<Seq<char>>, head: Seq<char>) -> Seq<char> {
    if pre.len() > 0 {
        text::join_with(pre, '\n') + seq!['\n'] + head
    } else {
        head
    }
}

/// Joining `pre`, `r` and `post` with newlines, and ending with one, writes
/// `r` right after the lines `pre`.
proof fn lemma_join_around(pre: Seq<Seq<char>>, r: Seq<char>, post: Seq<Seq<char>>)
    ensures
        text::join_with(pre + seq![r] + post, '\n').push('\n') == lines_then(pre, r) + (if post.len()
            > 0 {
            seq!['\n'] + text::join_with(post, '\n')
        } else {
            Seq::<char>::empty()
        }) + seq!['\n'],
{
    let tail = if post.len() > 0 {
        seq!['\n'] + text::join_with(post, '\n')
    } else {
        Seq::<char>::empty()
    };
    if post.len() > 0 {
        text::lemma_join_append(seq![r], post, '\n');
        assert(text::join_with(seq![r], '\n') == r);
    } else {
        assert(seq![r] + post =~= seq![r]);
    }
    assert(text::join_with(seq![r] + post, '\n') == r + tail);
    if pre.len() > 0 {
        assert(pre + seq![r] + post =~= pre + (seq![r] + post));
        text::lemma_join_append(pre, seq![r] + post, '\n');
    } else {
        assert(pre + seq![r] + post =~= seq![r] + post);
    }
    assert(text::join_with(pre + seq![r] + post, '\n').push('\n') =~= lines_then(pre, r) + tail
        + seq!['\n']);
}

/// A line `head` written after the lines `pre` and followed by a newline is
/// read back at index `pre.len()`, without one trailing carriage return.
proof fn lemma_read_line_after(pre: Seq<Seq<char>>, head: Seq<char>, rest: Seq<char>)
    requires
        forall|i: int| 0 <= i < pre.len() ==> text::free_of(#[trigger] pre[i], '\n'),
        text::free_of(head, '\n'),
    ensures
        pre.len() < text::lines(lines_then(pre, head) + seq!['\n'] + rest).len(),
        text::lines(lines_then(pre, head) + seq!['\n'] + rest)[pre.len() as int] == text::strip_cr(
            head,
        ),
{
    let a = lines_then(pre, head);
    text::lemma_split_char_append(a, rest, '\n');
    text::lemma_split_char_single(head, '\n');
    text::lemma_split_char_nonempty(rest, '\n');
    if pre.len() > 0 {
        text::lemma_split_join(pre, '\n');
        text::lemma_split_char_append(text::join_with(pre, '\n'), head, '\n');
    }
    let pieces = text::split_char(a + seq!['\n'] + rest, '\n');
    assert(pieces[pre.len() as int] == head);
    assert(pre.len() < pieces.len() - 1);
}

/// An assignment's line, without one trailing carriage return, still
/// assigns the variable.
proof fn lemma_assignment_line_names(name: Seq<char>, value: Seq<char>)
    requires
        crate::secrets::valid_env_name_spec(name),
    ensures
        names_variable(text::strip_cr(assignment(name, value)), name),
{
    let line = assignment(name, value);
    if value.len() > 0 && value.last() == '\r' {
        assert(line.drop_last() =~= assignment(name, value.drop_last()));
        lemma_assignment_names_variable(name, value.drop_last());
    } else {
        assert(line.last() != '\r');
        lemma_assignment_names_variable(name, value);
    }
}

/// The rewritten lines: before the assignment, the assignment, after it.
proof fn lemma_upsert_lines_around(ls: Seq<Seq<char>>, name: Seq<char>, value: Seq<char>) -> (k: int)
    requires
        crate::secrets::valid_env_name_spec(name),
        forall|i: int| 0 <= i < ls.len() ==> text::free_of(#[trigger] ls[i], '\n'),
    ensures
        0 <= k < upsert_lines(ls, name, assignment(name, value)).len(),
        upsert_lines(ls, name, assignment(name, value)) == upsert_lines(
            ls,
            name,
            assignment(name, value),
        ).take(k) + seq![assignment(name, value)] + upsert_lines(ls, name, assignment(name, value)).skip(
            k + 1,
        ),
        forall|i: int|
            0 <= i < k ==> text::free_of(
                #[trigger] upsert_lines(ls, name, assignment(name, value)).take(k)[i],
                '\n',
            ),
{
    let r = assignment(name, value);
    let u = upsert_lines(ls, name, r);
    lemma_assignment_names_variable(name, value);
    let k = lemma_upsert_lines_shape(ls, name, r);
    lemma_upsert_lines_from(ls, name, r, |l: Seq<char>| text::free_of(l, '\n') || l == r);
    let pre = u.take(k);
    assert forall|i: int| 0 <= i < k implies text::free_of(#[trigger] pre[i], '\n') by {
        assert(pre[i] == u[i]);
        assert(!names_variable(u[i], name));
    }
    assert(u =~= pre + seq![r] + u.skip(k + 1));
    k
}

/// After setting a variable, the file assigns it, whatever the value.
#[verifier::rlimit(40)]
pub proof fn lemma_upsert_read_after_write(existing: Seq<char>, name: Seq<char>, value: Seq<char>)
    requires
        crate::secrets::valid_env_name_spec(name),
    ensures
        env_contains_name_spec(upserted_env(existing, name, value), name),
{
    let r = assignment(name, value);
    let ls = text::lines(existing);
    text::lemma_lines_free(existing);
    let k = lemma_upsert_lines_around(ls, name, value);
    let u = upsert_lines(ls, name, r);
    let pre = u.take(k);
    let post = u.skip(k + 1);
    let tail = if post.len() > 0 {
        seq!['\n'] + text::join_with(post, '\n')
    } else {
        Seq::<char>::empty()
    };
    let file = upserted_env(existing, name, value);
    assert(file == lines_then(pre, r) + tail + seq!['\n']) by {
        lemma_join_around(pre, r, post);
    }
    // The assignment's first line: the value up to its first line break.
    text::lemma_first_index_of(value, '\n');
    let j = text::first_index_of(value, '\n');
    let head = assignment(name, value.take(j));
    lemma_assignment_free(name, value.take(j));
    assert(lines_then(pre, r) == lines_then(pre, head) + value.skip(j)) by {
        assert(r =~= head + value.skip(j));
        if pre.len() > 0 {
            assert(lines_then(pre, r) =~= lines_then(pre, head) + value.skip(j));
        }
    }
    let rest = if j < value.len() {
        value.skip(j + 1) + tail + seq!['\n']
    } else if post.len() > 0 {
        text::join_with(post, '\n') + seq!['\n']
    } else {
        Seq::<char>::empty()
    };
    assert(file == lines_then(pre, head) + seq!['\n'] + rest) by {
        if j < value.len() {
            assert(value.skip(j) =~= seq!['\n'] + value.skip(j + 1));
        } else {
            assert(value.skip(j) =~= Seq::<char>::empty());
        }
        assert(file =~= lines_then(pre, head) + seq!['\n'] + rest);
    }
    lemma_read_line_after(pre, head, rest);
    lemma_assignment_line_names(name, value.take(j));
    assert(names_variable(text::lines(file)[pre.len() as int], name));
}

/// Setting a variable twice to the same value writes what setting it once
/// does, where neither the value nor a line of the file that assigns another
/// variable, or none, ends in a carriage return.
#[verifier::rlimit(30)]
pub proof fn lemma_upsert_idempotent(existing: Seq<char>, name: Seq<char>, value: Seq<char>)
    requires
        crate::secrets::valid_env_name_spec(name),
        text::free_of(value, '\n'),
        text::strip_cr(value) == value,
        forall|k: int|
            0 <= k < text::lines(existing).len() && !names_variable(
                #[trigger] text::lines(existing)[k],
                name,
            ) ==> text::strip_cr(text::lines(existing)[k]) == text::lines(existing)[k],
    ensures
        upserted_env(upserted_env(existing, name, value), name, value) == upserted_env(
            existing,
            name,
            value,
        ),
{
    let r = assignment(name, value);
    let ls = text::lines(existing);
    lemma_assignment_names_variable(name, value);
    lemma_upserted_env_lines(existing, name, value);
    assert(text::strip_cr(r) == r) by {
        if value.len() > 0 {
            assert(r.last() == value.last());
        }
    }
    assert forall|i: int| 0 <= i < ls.len() implies names_variable(#[trigger] ls[i], name)
        || text::strip_cr(ls[i]) == ls[i] by {}
    lemma_upsert_lines_from(
        ls,
        name,
        r,
        |l: Seq<char>| names_variable(l, name) || text::strip_cr(l) == l,
    );
    let u = upsert_lines(ls, name, r);
    let k = lemma_upsert_lines_shape(ls, name, r);
    assert forall|j: int| 0 <= j < u.len() implies text::strip_cr(#[trigger] u[j]) == u[j] by {
        if j != k {
            assert(!names_variable(u[j], name));
        }
    }
    assert(u.map_values(|l: Seq<char>| text::strip_cr(l)) =~= u);
    lemma_upsert_lines_fixed(ls, name, r);
}

fn env_line_name_chars(line: &Vec<char>) -> (r: Option<Vec<char>>)
    ensures
        match r {
            Some(n) => env_line_name_spec(line@) == Some(n@),
            None => env_line_name_spec(line@) is None,
        },
{
    let t0 = text::trim_start_chars(line);
    let t = if t0.len() >= 7 && t0[0] == 'e' && t0[1] == 'x' && t0[2] == 'p' && t0[3] == 'o'
        && t0[4] == 'r' && t0[5] == 't' && t0[6] == ' ' {
        assert(t0@.take(7) =~= export_prefix());
        text::slice_chars(&t0, 7, t0.len())
    } else {
        assert(t0@.len() >= 7 ==> t0@.take(7)[0] == t0@[0] && t0@.take(7)[1] == t0@[1] && t0@.take(
            7,
        )[2] == t0@[2] && t0@.take(7)[3] == t0@[3] && t0@.take(7)[4] == t0@[4] && t0@.take(7)[5]
            == t0@[5] && t0@.take(7)[6] == t0@[6]);
        text::slice_chars(&t0, 0, t0.len())
    };
    assert(t@ =~= strip_export(t0@));
    let parts = text::split_on_char(&t, '=');
    assert(text::views(parts@).len() == parts.len());
    if parts.len() > 1 {
        assert(text::views(parts@)[0] == parts@[0]@);
        Some(text::trim_end_chars(&parts[0]))
    } else {
        None
    }
}

/// The variable that a line of an env file assigns, if any.
pub fn env_line_name(line: &str) -> (r: Option<String>)
    ensures
        match r {
            Some(n) => env_line_name_spec(line@) == Some(n@),
            None => env_line_name_spec(line@) is None,
        },
{
    let chars = text::chars_of(line);
    match env_line_name_chars(&chars) {
        Some(n) => Some(text::string_from_chars(n.as_slice())),
        None => None,
    }
}

fn names_variable_chars(line: &Vec<char>, name: &Vec<char>) -> (r: bool)
    ensures
        r == names_variable(line@, name@),
{
    match env_line_name_chars(line) {
        Some(n) => text::chars_equal(&n, name),
        None => false,
    }
}

/// Whether some line of `contents` assigns the variable `name`.
pub fn env_contains_name(contents: &str, name: &str) -> (r: bool)
    ensures
        r == env_contains_name_spec(contents@, name@),
{
    let chars = text::chars_of(contents);
    let name_chars = text::chars_of(name);
    let ls = text::lines_of(&chars);
    let ghost lv = text::lines(contents@);
    let mut k: usize = 0;
    while k < ls.len()
        invariant
            k <= ls.len(),
            text::views(ls@) == lv,
            lv.len() == ls.len(),
            lv == text::lines(contents@),
            name_chars@ == name@,
            forall|j: int| 0 <= j < k ==> !names_variable(#[trigger] lv[j], name@),
        decreases ls.len() - k,
    {
        assert(lv[k as int] == ls@[k as int]@);
        if names_variable_chars(&ls[k], &name_chars) {
            assert(names_variable(lv[k as int], name@));
            return true;
        }
        k = k + 1;
    }
    false
}

/// The contents of an env file after setting `name` to `value`.
#[verifier::rlimit(30)]
pub fn upsert_env_contents(existing: &str, name: &str, value: &str) -> (r: String)
    ensures
        r@ == upserted_env(existing@, name@, value@),
{
    let chars = text::chars_of(existing);
    let name_chars = text::chars_of(name);
    let value_chars = text::chars_of(value);
    let mut replacement: Vec<char> = Vec::new();
    text::push_all(&mut replacement, &name_chars);
    replacement.push('=');
    text::push_all(&mut replacement, &value_chars);
    assert(replacement@ =~= assignment(name@, value@));
    let ls = text::lines_of(&chars);
    let ghost lv = text::lines(existing@);
    let ghost repl = assignment(name@, value@);
    let mut out: Vec<Vec<char>> = Vec::new();
    let mut found = false;
    let mut i: usize = 0;
    assert(lv.take(0) =~= Seq::<Seq<char>>::empty());
    while i < ls.len()
        invariant
            i <= ls.len(),
            text::views(ls@) == lv,
            lv.len() == ls.len(),
            name_chars@ == name@,
            replacement@ == repl,
            found == (first_naming_line(lv.take(i as int), name@) is Some),
            !found ==> text::views(out@) == lv.take(i as int),
            found ==> (first_naming_line(lv.take(i as int), name@) matches Some(k) && 0 <= k < i
                && text::views(out@) == lv.take(k).push(repl) + lv.subrange(k + 1, i as int).filter(
                keeps(name@),
            )),
        decreases ls.len() - i,
    {
        let ghost before = out@;
        let ghost prefix = lv.take(i as int);
        assert(lv.take(i + 1).drop_last() =~= prefix);
        assert(lv.take(i + 1).last() == ls@[i as int]@);
        let matches = names_variable_chars(&ls[i], &name_chars);
        if matches {
            if !found {
                let line = text::slice_chars(&replacement, 0, replacement.len());
                assert(line@ =~= repl);
                out.push(line);
                found = true;
                assert(text::views(out@) =~= text::views(before).push(repl));
                assert(lv.subrange(i + 1, i + 1) =~= Seq::<Seq<char>>::empty());
                assert(lv.take(i as int) =~= prefix);
                assert(text::views(out@) =~= lv.take(i as int).push(repl) + lv.subrange(
                    i + 1,
                    i + 1,
                ).filter(keeps(name@)));
            } else {
                let ghost k = first_naming_line(prefix, name@)->0;
                assert(lv.subrange(k + 1, i + 1).drop_last() =~= lv.subrange(k + 1, i as int));
                reveal_with_fuel(Seq::<_>::filter, 1);
                assert(lv.subrange(k + 1, i + 1).filter(keeps(name@)) =~= lv.subrange(
                    k + 1,
                    i as int,
                ).filter(keeps(name@)));
            }
        } else {
            let line = text::slice_chars(&ls[i], 0, ls[i].len());
            assert(line@ =~= ls@[i as int]@);
            out.push(line);
            assert(text::views(out@) =~= text::views(before).push(lv[i as int]));
            if found {
                let ghost k = first_naming_line(prefix, name@)->0;
                assert(lv.subrange(k + 1, i + 1).drop_last() =~= lv.subrange(k + 1, i as int));
                reveal_with_fuel(Seq::<_>::filter, 1);
                assert(lv.subrange(k + 1, i + 1).filter(keeps(name@)) =~= lv.subrange(
                    k + 1,
                    i as int,
                ).filter(keeps(name@)).push(lv[i as int]));
            } else {
                assert(lv.take(i + 1) =~= prefix.push(lv[i as int]));
            }
        }
        i = i + 1;
    }
    assert(lv.take(ls.len() as int) =~= lv);
    if !found {
        let line = text::slice_chars(&replacement, 0, replacement.len());
        assert(line@ =~= repl);
        let ghost before = out@;
        out.push(line);
        assert(text::views(out@) =~= text::views(before).push(repl));
    } else {
        let ghost k = first_naming_line(lv, name@)->0;
        assert(lv.subrange(k + 1, lv.len() as int) =~= lv.skip(k + 1));
    }
    let mut joined = text::join_with_chars(&out, '\n');
    joined.push('\n');
    text::string_from_chars(joined.as_slice())
}

} // verus!
