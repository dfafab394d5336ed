//! Command strings.
//!
//! An Exec line is a command followed by space-separated arguments.
//! [`parse_command_string`] splits one into the command and its arguments;
//! the split and join specs here are shared with the desktop-entry handling
//! in [`crate::entry`].

use vstd::prelude::*;

use vstd::string::StrSliceExecFns;
use vstd::string::StringExecFns;

verus! {

/// The first position at or after `i` where `c` occurs in `s`, or `s.len()`
/// when it does not occur there.
pub open spec fn find_from<A>(s: Seq<A>, i: int, c: A) -> int
    recommends
        0 <= i <= s.len(),
    decreases s.len() - i,
{
    if i < 0 || i >= s.len() {
        s.len() as int
    } else if s[i] == c {
        i
    } else {
        find_from(s, i + 1, c)
    }
}

/// Where `find_from` points: past `i`, at an occurrence or the end, with
/// none of `c` in between.
pub proof fn lemma_find_from_props<A>(s: Seq<A>, i: int, c: A)
    requires
        0 <= i <= s.len(),
    ensures
        i <= find_from(s, i, c) <= s.len(),
        find_from(s, i, c) < s.len() ==> s[find_from(s, i, c)] == c,
        forall|k: int| i <= k < find_from(s, i, c) ==> s[k] != c,
    decreases s.len() - i,
{
    if i < s.len() && s[i] != c {
        lemma_find_from_props(s, i + 1, c);
    }
}

/// The parts of `s` from position `i` on, split on `sep`; the separator
/// belongs to no part, and `n` separators make `n + 1` parts.
pub open spec fn split_from(s: Seq<char>, i: int, sep: char) -> Seq<Seq<char>>
    recommends
        0 <= i <= s.len(),
    decreases s.len() - i,
{
    let j = find_from(s, i, sep);
    if i <= j < s.len() {
        seq![s.subrange(i, j)] + split_from(s, j + 1, sep)
    } else {
        seq![s.subrange(i, s.len() as int)]
    }
}

/// Is a part kept by Exec-line field stripping: everything but the
/// `%`-placeholders?
pub open spec fn keep_part(p: Seq<char>) -> bool {
    !(p.len() > 0 && p[0] == '%')
}

/// The kept parts, joined by single spaces; `started` says whether joined
/// text already stands to the left, so that a separator is owed first.
pub open spec fn join_kept(parts: Seq<Seq<char>>, started: bool) -> Seq<char>
    decreases parts.len(),
{
    if parts.len() == 0 {
        Seq::empty()
    } else if keep_part(parts[0]) {
        (if started {
            seq![' ']
        } else {
            Seq::<char>::empty()
        }) + parts[0] + join_kept(parts.drop_first(), true)
    } else {
        join_kept(parts.drop_first(), started)
    }
}

/// An Exec string with its `%`-placeholder arguments removed: split on
/// spaces, drop the parts that start with `%`, join the rest with spaces.
pub open spec fn strip_args_spec(s: Seq<char>) -> Seq<char> {
    join_kept(split_from(s, 0, ' '), false)
}

/// The first position at or after `from` where `c` occurs in `s`, or the
/// character count of `s` when it does not.
pub fn find_char(s: &str, from: usize, n: usize, c: char) -> (r: usize)
    requires
        n == s@.len(),
        from <= n,
    ensures
        r == find_from(s@, from as int, c),
        from <= r <= n,
    decreases n - from,
{
    proof {
        lemma_find_from_props(s@, from as int, c);
    }
    if from == n {
        n
    } else if s.get_char(from) == c {
        from
    } else {
        find_char(s, from + 1, n, c)
    }
}

/// Split a command string into the command and its arguments.
///
/// The string is split on single spaces; the first part is the command —
/// empty input gives an empty command — and the remaining parts are the
/// arguments, empty parts included.
pub fn parse_command_string(exec: &str) -> (r: (String, Vec<&str>))
    ensures
        ({
            let parts = split_from(exec@, 0, ' ');
            &&& r.0@ == parts[0]
            &&& r.1@.len() == parts.len() - 1
            &&& forall|x: int| 0 <= x < r.1@.len() ==> (#[trigger] r.1@[x])@ == parts[x + 1]
        }),
{
    let ghost parts = split_from(exec@, 0, ' ');
    let n = exec.unicode_len();
    let j0 = find_char(exec, 0, n, ' ');
    let cmd = String::from_str(exec.substring_char(0, j0));
    let mut args: Vec<&str> = Vec::new();
    if j0 == n {
        proof {
            assert(parts =~= seq![exec@.subrange(0, n as int)]);
        }
        return (cmd, args);
    }
    proof {
        assert(parts == seq![exec@.subrange(0, j0 as int)] + split_from(exec@, j0 as int + 1, ' '));
        assert(parts[0] == exec@.subrange(0, j0 as int));
    }
    let mut i: usize = j0 + 1;
    loop
        invariant_except_break
            n == exec@.len(),
            i <= n,
            parts == split_from(exec@, 0, ' '),
            parts.len() == 1 + args@.len() + split_from(exec@, i as int, ' ').len(),
            cmd@ == parts[0],
            forall|x: int| 0 <= x < args@.len() ==> (#[trigger] args@[x])@ == parts[x + 1],
            forall|y: int|
                0 <= y < split_from(exec@, i as int, ' ').len() ==> #[trigger] split_from(
                    exec@,
                    i as int,
                    ' ',
                )[y] == parts[1 + args@.len() + y],
        ensures
            parts == split_from(exec@, 0, ' '),
            parts.len() == 1 + args@.len(),
            cmd@ == parts[0],
            forall|x: int| 0 <= x < args@.len() ==> (#[trigger] args@[x])@ == parts[x + 1],
        decreases n - i,
    {
        let j = find_char(exec, i, n, ' ');
        let ghost rem = split_from(exec@, i as int, ' ');
        let ghost old_args = args@;
        let part = exec.substring_char(i, j);
        args.push(part);
        proof {
            assert(rem[0] == parts[1 + old_args.len() as int]);
            if j < n {
                assert(rem == seq![exec@.subrange(i as int, j as int)] + split_from(
                    exec@,
                    j as int + 1,
                    ' ',
                ));
                assert(rem[0] == exec@.subrange(i as int, j as int));
                assert forall|y: int|
                    0 <= y < split_from(exec@, j as int + 1, ' ').len() implies #[trigger] split_from(
                    exec@,
                    j as int + 1,
                    ' ',
                )[y] == parts[1 + args@.len() + y] by {
                    assert(rem[y + 1] == split_from(exec@, j as int + 1, ' ')[y]);
                }
            } else {
                assert(rem =~= seq![exec@.subrange(i as int, n as int)]);
                assert(rem[0] == exec@.subrange(i as int, n as int));
            }
        }
        if j == n {
            break;
        }
        i = j + 1;
    }
    (cmd, args)
}


} // verus!
