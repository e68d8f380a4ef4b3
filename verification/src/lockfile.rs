//! The version of a package as locked in a `Cargo.lock` text, so that every
//! result row records the exact GPU library it was built against.
//!
//! A lock file is a series of `[[package]]` blocks; within a block the `name`
//! line comes before the `version` line. Lines are compared after trimming.

use vstd::prelude::*;

use crate::chars::{chars_of, strip_chars, trimmed, unquoted};

verus! {

/// The lines of `s`: the pieces between line feeds. A carriage return that
/// ends a line stays in it; lines are only looked at trimmed, which removes it.
pub open spec fn lines_of(s: Seq<char>) -> Seq<Seq<char>>
    decreases s.len(),
{
    if s.len() == 0 {
        seq![Seq::<char>::empty()]
    } else if s.last() == '\n' {
        lines_of(s.drop_last()).push(Seq::<char>::empty())
    } else {
        let l = lines_of(s.drop_last());
        l.update(l.len() - 1, l.last().push(s.last()))
    }
}

pub open spec fn starts_with(s: Seq<char>, p: Seq<char>) -> bool {
    p.len() <= s.len() && s.take(p.len() as int) == p
}

/// `s` with every leading repetition of `p` removed, as `str::trim_start_matches` does.
pub open spec fn strip_all_prefix(s: Seq<char>, p: Seq<char>) -> Seq<char>
    decreases s.len(),
{
    if p.len() > 0 && starts_with(s, p) {
        strip_all_prefix(s.skip(p.len() as int), p)
    } else {
        s
    }
}

/// The line that names `package` in its block.
pub open spec fn name_line(package: Seq<char>) -> Seq<char> {
    "name = \""@ + package + "\""@
}

/// One trimmed line read in state (inside the package's block, version found).
/// Once a version is found nothing changes any more.
pub open spec fn scan_step(
    state: (bool, Option<Seq<char>>),
    t: Seq<char>,
    package: Seq<char>,
) -> (bool, Option<Seq<char>>) {
    if state.1 is Some {
        state
    } else if t == "[[package]]"@ {
        (false, None)
    } else if t == name_line(package) {
        (true, None)
    } else if state.0 && starts_with(t, "version = "@) {
        (true, Some(unquoted(strip_all_prefix(t, "version = "@))))
    } else {
        state
    }
}

/// The state after reading `lines` in order, each trimmed.
pub open spec fn scan_lines(lines: Seq<Seq<char>>, package: Seq<char>) -> (bool, Option<Seq<char>>)
    decreases lines.len(),
{
    if lines.len() == 0 {
        (false, None)
    } else {
        scan_step(scan_lines(lines.drop_last(), package), trimmed(lines.last()), package)
    }
}

/// The version locked for `package` in the lock text `lock`: from the first
/// `version = ` line that follows the line `name = "<package>"` within one
/// `[[package]]` block, the rest of the line without the prefix and the quotes.
pub open spec fn locked_version_spec(lock: Seq<char>, package: Seq<char>) -> Option<Seq<char>> {
    scan_lines(lines_of(lock), package).1
}

pub open spec fn opt_view(o: Option<String>) -> Option<Seq<char>> {
    match o {
        Some(s) => Some(s@),
        None => None,
    }
}

/// Whether `p` occurs in `v` at position `at`.
fn starts_at(v: &Vec<char>, at: usize, p: &Vec<char>) -> (r: bool)
    requires
        at <= v.len(),
    ensures
        r == starts_with(v@.skip(at as int), p@),
{
    if p.len() > v.len() - at {
        return false;
    }
    let mut k: usize = 0;
    while k < p.len()
        invariant
            at + p.len() <= v.len(),
            k <= p.len(),
            forall|j: int| 0 <= j < k ==> v@[at + j] == p@[j],
        decreases p.len() - k,
    {
        if v[at + k] != p[k] {
            proof {
                assert(v@.skip(at as int).take(p.len() as int)[k as int] != p@[k as int]);
            }
            return false;
        }
        k = k + 1;
    }
    assert(v@.skip(at as int).take(p.len() as int) =~= p@);
    true
}

/// Position after every leading repetition of `p` in `v`.
fn skip_all_prefix(v: &Vec<char>, p: &Vec<char>) -> (r: usize)
    requires
        p.len() > 0,
    ensures
        r <= v.len(),
        strip_all_prefix(v@, p@) == v@.skip(r as int),
{
    let mut at: usize = 0;
    assert(v@.skip(0) =~= v@);
    while starts_at(v, at, p)
        invariant
            p.len() > 0,
            at <= v.len(),
            strip_all_prefix(v@, p@) == strip_all_prefix(v@.skip(at as int), p@),
        decreases v.len() - at,
    {
        assert(v@.skip(at as int).skip(p.len() as int) =~= v@.skip(at + p.len()));
        at = at + p.len();
    }
    at
}

/// Reads one trimmed line.
fn scan_line(
    t: String,
    in_block: bool,
    found: Option<String>,
    header: &String,
    name: &String,
    prefix: &Vec<char>,
    package: Ghost<Seq<char>>,
) -> (r: (bool, Option<String>))
    requires
        header@ == "[[package]]"@,
        name@ == name_line(package@),
        prefix@ == "version = "@,
        prefix@.len() > 0,
    ensures
        (r.0, opt_view(r.1)) == scan_step((in_block, opt_view(found)), t@, package@),
{
    if found.is_some() {
        return (in_block, found);
    }
    if t == *header {
        return (false, None);
    }
    if t == *name {
        return (true, None);
    }
    if in_block {
        let tc = chars_of(t.as_str());
        if starts_at(&tc, 0, prefix) {
            proof {
                assert(tc@.skip(0) =~= tc@);
            }
            let at = skip_all_prefix(&tc, prefix);
            let value = strip_chars(&tc, at, tc.len(), true);
            proof {
                assert(tc@.subrange(at as int, tc@.len() as int) =~= tc@.skip(at as int));
            }
            return (true, Some(value));
        }
        proof {
            assert(tc@.skip(0) =~= tc@);
        }
    }
    (in_block, None)
}

/// The version locked for `package` in the lock text `lock`, if any.
pub fn locked_version(lock: &str, package: &str) -> (r: Option<String>)
    ensures
        opt_view(r) == locked_version_spec(lock@, package@),
{
    let chars = chars_of(lock);
    let header = "[[package]]".to_owned();
    let mut name = "name = \"".to_owned();
    name.append(package);
    name.append("\"");
    let prefix = chars_of("version = ");
    proof {
        reveal_strlit("version = ");
    }
    let ghost pkg = package@;
    let mut in_block = false;
    let mut found: Option<String> = None;
    let mut start: usize = 0;
    let mut i: usize = 0;
    let ghost mut done: Seq<Seq<char>> = Seq::empty();
    assert(chars@.take(0) =~= Seq::<char>::empty());
    assert(chars@.subrange(0, 0) =~= Seq::<char>::empty());
    while i < chars.len()
        invariant
            start <= i <= chars.len(),
            chars@ == lock@,
            pkg == package@,
            header@ == "[[package]]"@,
            name@ == name_line(pkg),
            prefix@ == "version = "@,
            prefix@.len() > 0,
            lines_of(chars@.take(i as int)) == done.push(chars@.subrange(start as int, i as int)),
            scan_lines(done, pkg) == (in_block, opt_view(found)),
        decreases chars.len() - i,
    {
        let ghost before = chars@.take(i as int);
        assert(chars@.take(i + 1).drop_last() =~= before);
        if chars[i] == '\n' {
            let ghost line = chars@.subrange(start as int, i as int);
            let t = strip_chars(&chars, start, i, false);
            let (b, f) = scan_line(t, in_block, found, &header, &name, &prefix, Ghost(pkg));
            in_block = b;
            found = f;
            proof {
                let nd = done.push(line);
                assert(nd.drop_last() =~= done);
                done = nd;
                assert(chars@.subrange(i + 1, i + 1) =~= Seq::<char>::empty());
            }
            start = i + 1;
        } else {
            proof {
                assert(chars@.subrange(start as int, i + 1) =~= chars@.subrange(
                    start as int,
                    i as int,
                ).push(chars@[i as int]));
            }
        }
        i = i + 1;
    }
    let t = strip_chars(&chars, start, chars.len(), false);
    let (_, f) = scan_line(t, in_block, found, &header, &name, &prefix, Ghost(pkg));
    proof {
        let all = done.push(chars@.subrange(start as int, chars@.len() as int));
        assert(all.drop_last() =~= done);
        assert(chars@.take(chars@.len() as int) =~= chars@);
    }
    f
}

} // verus!
