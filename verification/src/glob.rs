//! Glob patterns over tool names: `*` stands for any run of characters, `?` for
//! exactly one, and every other character for itself.

use vstd::prelude::*;

verus! {

/// Whether `name` is one of the names that `pattern` stands for.
pub open spec fn glob_matches(pattern: Seq<char>, name: Seq<char>) -> bool
    decreases pattern.len(), name.len(),
{
    if pattern.len() == 0 {
        name.len() == 0
    } else if pattern[0] == '*' {
        ||| glob_matches(pattern.skip(1), name)
        ||| name.len() > 0 && glob_matches(pattern, name.skip(1))
    } else {
        &&& name.len() > 0
        &&& pattern[0] == '?' || pattern[0] == name[0]
        &&& glob_matches(pattern.skip(1), name.skip(1))
    }
}

/// `*` in front of a pattern stands for any run of characters: the pattern
/// matches what is left of the name behind some such run.
pub proof fn law_star_is_any_run(pattern: Seq<char>, name: Seq<char>)
    requires
        pattern.len() > 0,
        pattern[0] == '*',
    ensures
        glob_matches(pattern, name) <==> exists|run: int|
            0 <= run <= name.len() && #[trigger] glob_matches(pattern.skip(1), name.skip(run)),
    decreases name.len(),
{
    let rest = pattern.skip(1);
    assert(name.skip(0) =~= name);
    if glob_matches(rest, name) {
        assert(glob_matches(rest, name.skip(0)));
    }
    if name.len() > 0 {
        law_star_is_any_run(pattern, name.skip(1));
        if glob_matches(pattern, name.skip(1)) {
            let run = choose|run: int|
                0 <= run <= name.skip(1).len() && #[trigger] glob_matches(
                    rest,
                    name.skip(1).skip(run),
                );
            assert(name.skip(1).skip(run) =~= name.skip(run + 1));
            assert(glob_matches(rest, name.skip(run + 1)));
        }
        if exists|run: int|
            0 <= run <= name.len() && #[trigger] glob_matches(rest, name.skip(run)) {
            let run = choose|run: int|
                0 <= run <= name.len() && #[trigger] glob_matches(rest, name.skip(run));
            if run > 0 {
                assert(name.skip(1).skip(run - 1) =~= name.skip(run));
                assert(glob_matches(rest, name.skip(1).skip(run - 1)));
            }
        }
    }
}

/// The pattern `*` alone matches every name.
pub proof fn law_star_matches_everything(name: Seq<char>)
    ensures
        glob_matches(seq!['*'], name),
{
    law_star_is_any_run(seq!['*'], name);
    assert(name.skip(name.len() as int).len() == 0);
    assert(seq!['*'].skip(1).len() == 0);
    assert(glob_matches(seq!['*'].skip(1), name.skip(name.len() as int)));
}

/// A pattern without wildcards matches itself and nothing else.
pub proof fn law_plain_pattern_matches_itself_only(pattern: Seq<char>, name: Seq<char>)
    requires
        !pattern.contains('*'),
        !pattern.contains('?'),
    ensures
        glob_matches(pattern, name) <==> pattern == name,
    decreases pattern.len(),
{
    if pattern.len() == 0 {
        assert(pattern == name <==> name.len() == 0) by {
            if name.len() == 0 {
                assert(pattern =~= name);
            }
        }
    } else {
        let rest = pattern.skip(1);
        assert(pattern.contains(pattern[0]));
        assert forall|c: char| rest.contains(c) implies pattern.contains(c) by {
            let i = choose|i: int| 0 <= i < rest.len() && rest[i] == c;
            assert(pattern[i + 1] == c);
        }
        if name.len() > 0 {
            law_plain_pattern_matches_itself_only(rest, name.skip(1));
            if rest == name.skip(1) && pattern[0] == name[0] {
                assert(pattern =~= seq![pattern[0]] + rest);
                assert(name =~= seq![name[0]] + name.skip(1));
            }
        }
    }
}

/// A plain text followed by `*` matches the names that start with the text.
pub proof fn law_prefix_pattern(prefix: Seq<char>, name: Seq<char>)
    requires
        !prefix.contains('*'),
        !prefix.contains('?'),
    ensures
        glob_matches(prefix.push('*'), name) <==> prefix.is_prefix_of(name),
    decreases prefix.len(),
{
    let pattern = prefix.push('*');
    if prefix.len() == 0 {
        assert(pattern =~= seq!['*']);
        law_star_matches_everything(name);
    } else {
        let rest = prefix.skip(1);
        assert(prefix.contains(prefix[0]));
        assert(pattern.skip(1) =~= rest.push('*'));
        assert forall|c: char| rest.contains(c) implies prefix.contains(c) by {
            let i = choose|i: int| 0 <= i < rest.len() && rest[i] == c;
            assert(prefix[i + 1] == c);
        }
        if name.len() > 0 {
            law_prefix_pattern(rest, name.skip(1));
            if prefix.is_prefix_of(name) {
                assert(rest =~= name.skip(1).subrange(0, rest.len() as int));
            }
            if prefix[0] == name[0] && rest.is_prefix_of(name.skip(1)) {
                assert(prefix =~= name.subrange(0, prefix.len() as int)) by {
                    assert forall|i: int| 0 <= i < prefix.len() implies prefix[i] == name[i] by {
                        if i > 0 {
                            assert(rest[i - 1] == name.skip(1)[i - 1]);
                        }
                    }
                }
            }
        }
    }
}

/// A pattern of one character matches every name where it is `*`, the names of one
/// character where it is `?`, and otherwise the name that it spells. A pattern
/// without characters matches the empty name alone.
pub proof fn law_single_characters(c: char, name: Seq<char>)
    ensures
        glob_matches(Seq::empty(), name) <==> name.len() == 0,
        c == '*' ==> glob_matches(seq![c], name),
        c == '?' ==> (glob_matches(seq![c], name) <==> name.len() == 1),
        c != '*' && c != '?' ==> (glob_matches(seq![c], name) <==> name == seq![c]),
{
    if c == '*' {
        law_star_matches_everything(name);
    } else {
        let rest = seq![c].skip(1);
        assert(rest.len() == 0);
        if name.len() > 0 {
            assert(glob_matches(rest, name.skip(1)) <==> name.len() == 1);
            if name.len() == 1 && name[0] == c {
                assert(name =~= seq![c]);
            }
        }
    }
}

/// Two patterns one after the other match a name exactly where the name can be cut
/// in two so that each matches its part. With the patterns of one character this
/// settles what every pattern matches.
pub proof fn law_patterns_in_a_row(first: Seq<char>, second: Seq<char>, name: Seq<char>)
    ensures
        glob_matches(first + second, name) <==> exists|cut: int|
            0 <= cut <= name.len() && #[trigger] glob_matches(first, name.take(cut))
                && glob_matches(second, name.skip(cut)),
    decreases first.len(), name.len(),
{
    let both = first + second;
    if first.len() == 0 {
        assert(both =~= second);
        assert(name.skip(0) =~= name);
        assert(glob_matches(first, name.take(0)));
    } else {
        let rest = first.skip(1);
        assert(both.skip(1) =~= rest + second);
        assert(both[0] == first[0]);
        law_patterns_in_a_row(rest, second, name);
        if name.len() > 0 {
            law_patterns_in_a_row(rest, second, name.skip(1));
            law_patterns_in_a_row(first, second, name.skip(1));
        }
        if glob_matches(both, name) {
            if first[0] == '*' && glob_matches(rest + second, name) {
                let cut = choose|cut: int|
                    0 <= cut <= name.len() && #[trigger] glob_matches(rest, name.take(cut))
                        && glob_matches(second, name.skip(cut));
                assert(glob_matches(first, name.take(cut)));
            } else if first[0] == '*' {
                let tail = name.skip(1);
                let cut = choose|cut: int|
                    0 <= cut <= tail.len() && #[trigger] glob_matches(first, tail.take(cut))
                        && glob_matches(second, tail.skip(cut));
                assert(name.take(cut + 1).skip(1) =~= tail.take(cut));
                assert(name.skip(cut + 1) =~= tail.skip(cut));
                assert(glob_matches(first, name.take(cut + 1)));
            } else {
                let tail = name.skip(1);
                let cut = choose|cut: int|
                    0 <= cut <= tail.len() && #[trigger] glob_matches(rest, tail.take(cut))
                        && glob_matches(second, tail.skip(cut));
                assert(name.take(cut + 1).skip(1) =~= tail.take(cut));
                assert(name.skip(cut + 1) =~= tail.skip(cut));
                assert(glob_matches(first, name.take(cut + 1)));
            }
        }
        if exists|cut: int|
            0 <= cut <= name.len() && #[trigger] glob_matches(first, name.take(cut))
                && glob_matches(second, name.skip(cut)) {
            let cut = choose|cut: int|
                0 <= cut <= name.len() && #[trigger] glob_matches(first, name.take(cut))
                    && glob_matches(second, name.skip(cut));
            let head = name.take(cut);
            if first[0] == '*' && glob_matches(rest, head) {
                assert(glob_matches(rest + second, name));
            } else {
                let tail = name.skip(1);
                assert(head.skip(1) =~= tail.take(cut - 1));
                assert(name.skip(cut) =~= tail.skip(cut - 1));
                if first[0] == '*' {
                    assert(glob_matches(first, tail.take(cut - 1)));
                } else {
                    assert(glob_matches(rest, tail.take(cut - 1)));
                }
            }
        }
    }
}

/// The characters of a text.
fn characters(text: &str) -> (chars: Vec<char>)
    ensures
        chars@ == text@,
{
    let mut chars: Vec<char> = Vec::new();
    for c in it: text.chars()
        invariant
            it.seq() == text@,
            chars@ == text@.take(it.index()),
    {
        chars.push(c);
        assert(text@.take(it.index() + 1) =~= text@.take(it.index()).push(c));
    }
    assert(text@.take(text@.len() as int) =~= text@);
    chars
}

/// Turns the row of the pattern behind a `*` into the row of the pattern that
/// starts with it.
fn put_star_before(n: &Vec<char>, row: &mut Vec<bool>, Ghost(pattern): Ghost<Seq<char>>)
    requires
        pattern.len() > 0,
        pattern[0] == '*',
        old(row)@.len() == n@.len() + 1,
        forall|k: int|
            0 <= k <= n@.len() ==> #[trigger] old(row)@[k] == glob_matches(
                pattern.skip(1),
                n@.skip(k),
            ),
    ensures
        final(row)@.len() == n@.len() + 1,
        forall|k: int|
            0 <= k <= n@.len() ==> #[trigger] final(row)@[k] == glob_matches(pattern, n@.skip(k)),
{
    let len: usize = n.len();
    let mut j: usize = len;
    assert(n@.skip(len as int).len() == 0);
    while j > 0
        invariant
            j <= len,
            len == n@.len(),
            row@.len() == len + 1,
            pattern.len() > 0,
            pattern[0] == '*',
            forall|k: int|
                0 <= k < j ==> #[trigger] row@[k] == glob_matches(pattern.skip(1), n@.skip(k)),
            forall|k: int|
                j <= k <= len ==> #[trigger] row@[k] == glob_matches(pattern, n@.skip(k)),
        decreases j,
    {
        j = j - 1;
        assert(n@.skip(j as int).skip(1) =~= n@.skip(j + 1));
        let here: bool = row[j] || row[j + 1];
        row.set(j, here);
    }
}

/// Turns the row of the pattern behind a character into the row of the pattern
/// that starts with it.
fn put_character_before(
    c: char,
    n: &Vec<char>,
    row: &mut Vec<bool>,
    Ghost(pattern): Ghost<Seq<char>>,
)
    requires
        pattern.len() > 0,
        pattern[0] == c,
        c != '*',
        old(row)@.len() == n@.len() + 1,
        forall|k: int|
            0 <= k <= n@.len() ==> #[trigger] old(row)@[k] == glob_matches(
                pattern.skip(1),
                n@.skip(k),
            ),
    ensures
        final(row)@.len() == n@.len() + 1,
        forall|k: int|
            0 <= k <= n@.len() ==> #[trigger] final(row)@[k] == glob_matches(pattern, n@.skip(k)),
{
    let len: usize = n.len();
    let mut j: usize = 0;
    while j < len
        invariant
            j <= len,
            len == n@.len(),
            row@.len() == len + 1,
            pattern.len() > 0,
            pattern[0] == c,
            c != '*',
            forall|k: int| 0 <= k < j ==> #[trigger] row@[k] == glob_matches(pattern, n@.skip(k)),
            forall|k: int|
                j <= k <= len ==> #[trigger] row@[k] == glob_matches(
                    pattern.skip(1),
                    n@.skip(k),
                ),
        decreases len - j,
    {
        assert(n@.skip(j as int).skip(1) =~= n@.skip(j + 1));
        let here: bool = (c == '?' || c == n[j]) && row[j + 1];
        row.set(j, here);
        j = j + 1;
    }
    assert(n@.skip(len as int).len() == 0);
    row.set(len, false);
}

/// Whether `pattern` matches `name`.
pub fn glob_match(pattern: &str, name: &str) -> (matched: bool)
    ensures
        matched == glob_matches(pattern@, name@),
{
    let p = characters(pattern);
    let n = characters(name);
    let len: usize = n.len();
    // row[j] tells whether the pattern from position i on matches the name from
    // position j on.
    let mut row: Vec<bool> = Vec::new();
    let mut j: usize = 0;
    while j < len
        invariant
            j <= len,
            len == n@.len(),
            row@.len() == j,
            forall|k: int| 0 <= k < j ==> !#[trigger] row@[k],
        decreases len - j,
    {
        row.push(false);
        j = j + 1;
    }
    row.push(true);
    let mut i: usize = p.len();
    assert(forall|k: int|
        0 <= k <= len ==> #[trigger] row@[k] == glob_matches(p@.skip(i as int), n@.skip(k)));
    while i > 0
        invariant
            i <= p@.len(),
            len == n@.len(),
            row@.len() == len + 1,
            forall|k: int|
                0 <= k <= len ==> #[trigger] row@[k] == glob_matches(
                    p@.skip(i as int),
                    n@.skip(k),
                ),
        decreases i,
    {
        i = i - 1;
        let c: char = p[i];
        let ghost here = p@.skip(i as int);
        assert(here.skip(1) =~= p@.skip(i + 1));
        if c == '*' {
            put_star_before(&n, &mut row, Ghost(here));
        } else {
            put_character_before(c, &n, &mut row, Ghost(here));
        }
    }
    assert(p@.skip(0) =~= pattern@);
    assert(n@.skip(0) =~= name@);
    row[0]
}

} // verus!
