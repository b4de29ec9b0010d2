//! Artifacts and functions related to the Red Hat Package Manager (RPM)
//! used in this tool's context.

use vstd::prelude::*;
use crate::text::{
    free_of, from_chars, is_digit, is_digit_char, join_chars, join_with, lemma_split_facts,
    lemma_split_join, split_chars, split_on, to_chars,
};

verus! {

/// Variants representing the result of an `rpm -qf xxx` for a file
/// detected to have been changed by `rkhunter`.
#[derive(Debug)]
pub enum RpmQueryOutcome {
    /// The base name of an installed RPM that provides the changed file.
    OwnedBy(String),
    /// The changed file, found not to be provided by any installed RPM.
    NotOwned(String),
}

/// When one or more changed files were found in the designated scan section,
/// we try finding which RPM owns them. This is the result of that
/// investigation: each list holds no name twice, in the order of first
/// appearance.
#[derive(Debug)]
pub struct FindRpmsOutcome {
    /// Base names of the RPMs claiming to own one or more changed files.
    pub rpms: Vec<String>,
    /// Changed files found NOT to be owned by any installed RPM.
    pub unclaimed_files: Vec<String>,
}

/// A piece of a package name that opens with a decimal digit: the version.
pub open spec fn starts_with_digit(p: Seq<char>) -> bool {
    p.len() > 0 && is_digit(p[0])
}

/// Index of the first piece that opens with a decimal digit, or the number
/// of pieces when none does.
pub open spec fn version_index(parts: Seq<Seq<char>>) -> nat
    decreases parts.len(),
{
    if parts.len() == 0 {
        0
    } else if starts_with_digit(parts[0]) {
        0
    } else {
        1 + version_index(parts.drop_first())
    }
}

/// The base name of a full RPM name `name-version-release.arch`: the pieces
/// between dashes that come before the first piece opening with a digit,
/// joined again by dashes. When there is no such piece, or the very first
/// piece is one, the whole name.
pub open spec fn rpm_base_name(full: Seq<char>) -> Seq<char> {
    let parts = split_on(full, '-');
    let k = version_index(parts);
    if k == 0 || k >= parts.len() {
        join_with(parts, '-')
    } else {
        join_with(parts.take(k as int), '-')
    }
}

pub proof fn lemma_version_index(parts: Seq<Seq<char>>, k: int)
    requires
        0 <= k <= parts.len(),
        forall|j: int| 0 <= j < k ==> !starts_with_digit(#[trigger] parts[j]),
        k == parts.len() || starts_with_digit(parts[k]),
    ensures
        version_index(parts) == k,
    decreases k,
{
    if k > 0 {
        let rest = parts.drop_first();
        assert forall|j: int| 0 <= j < k - 1 implies !starts_with_digit(#[trigger] rest[j]) by {
            assert(rest[j] == parts[j + 1]);
        }
        lemma_version_index(rest, k - 1);
    }
}

pub proof fn lemma_version_index_facts(parts: Seq<Seq<char>>)
    ensures
        version_index(parts) <= parts.len(),
        forall|j: int| 0 <= j < version_index(parts) ==> !starts_with_digit(#[trigger] parts[j]),
    decreases parts.len(),
{
    if parts.len() > 0 && !starts_with_digit(parts[0]) {
        let rest = parts.drop_first();
        lemma_version_index_facts(rest);
        assert forall|j: int| 0 <= j < version_index(parts) implies !starts_with_digit(
            #[trigger] parts[j],
        ) by {
            if j > 0 {
                assert(parts[j] == rest[j - 1]);
            }
        }
    }
}

/// RPM package naming syntax: name-version-release.arch. Assuming the
/// version starts with a decimal digit, removes it and the parts that follow,
/// returning the name only.
pub fn rpm_name(name: &str) -> (base: String)
    ensures
        base@ == rpm_base_name(name@),
{
    let chars = to_chars(name);
    let parts = split_chars(&chars, '-');
    let ghost views = parts@.map_values(|p: Vec<char>| p@);
    let n = parts.len();
    let mut k: usize = 0;
    let mut found = false;
    while k < n && !found
        invariant
            n == parts@.len(),
            views == parts@.map_values(|p: Vec<char>| p@),
            k <= n,
            forall|j: int| 0 <= j < k ==> !starts_with_digit(#[trigger] views[j]),
            found ==> k < n && starts_with_digit(views[k as int]),
        decreases n - k, (if found { 0int } else { 1int }),
    {
        let part = &parts[k];
        assert(views[k as int] == part@);
        if part.len() > 0 && is_digit_char(part[0]) {
            found = true;
        } else {
            k += 1;
        }
    }
    proof {
        lemma_version_index(views, k as int);
    }
    let count = if k == 0 || k == n {
        n
    } else {
        k
    };
    assert(views.take(n as int) =~= views);
    let joined = join_chars(&parts, count, '-');
    from_chars(&joined)
}

/// The base name is the whole name, or the part of it before the dash that
/// opens the version: the name is the base name, a dash, and the rest.
pub proof fn lemma_rpm_base_name_prefix(full: Seq<char>)
    ensures
        rpm_base_name(full) == full || ({
            let parts = split_on(full, '-');
            let k = version_index(parts);
            &&& 0 < k < parts.len()
            &&& full == rpm_base_name(full) + seq!['-'] + join_with(parts.skip(k as int), '-')
        }),
{
    let parts = split_on(full, '-');
    lemma_split_facts(full, '-');
    lemma_version_index_facts(parts);
    let k = version_index(parts);
    if 0 < k < parts.len() {
        lemma_join_split_at(parts, k as int, '-');
    }
}

/// Joining a list cut in two is joining each half and the halves.
pub proof fn lemma_join_split_at(parts: Seq<Seq<char>>, k: int, sep: char)
    requires
        0 < k < parts.len(),
    ensures
        join_with(parts, sep) == join_with(parts.take(k), sep) + seq![sep] + join_with(
            parts.skip(k),
            sep,
        ),
    decreases parts.len() - k,
{
    if k == parts.len() - 1 {
        assert(parts.take(k) =~= parts.drop_last());
        assert(parts.skip(k) =~= seq![parts.last()]);
    } else {
        lemma_join_split_at(parts.drop_last(), k, sep);
        assert(parts.drop_last().take(k) =~= parts.take(k));
        assert(parts.drop_last().skip(k) =~= parts.skip(k).drop_last());
        assert(parts.skip(k).last() == parts.last());
        let a = join_with(parts.take(k), sep);
        let b = join_with(parts.skip(k).drop_last(), sep);
        assert(a + seq![sep] + b + seq![sep] + parts.last() =~= a + seq![sep] + (b + seq![sep]
            + parts.last()));
    }
}

/// Taking the base name twice changes nothing.
pub proof fn lemma_rpm_name_idempotent(full: Seq<char>)
    ensures
        rpm_base_name(rpm_base_name(full)) == rpm_base_name(full),
{
    let parts = split_on(full, '-');
    lemma_split_facts(full, '-');
    lemma_version_index_facts(parts);
    let k = version_index(parts);
    if 0 < k < parts.len() {
        let name = parts.take(k as int);
        assert(free_of(name, '-')) by {
            assert forall|i: int, j: int| 0 <= i < name.len() && 0 <= j < name[i].len() implies name[i][j]
                != '-' by {
                assert(name[i] == parts[i]);
            }
        }
        lemma_split_join(name, '-');
        assert forall|j: int| 0 <= j < k implies !starts_with_digit(#[trigger] name[j]) by {
            assert(name[j] == parts[j]);
        }
        lemma_version_index(name, k as int);
    }
}

/// For a name made of dash-separated pieces none of which opens with a digit,
/// followed by a dash and a version that opens with a digit (and whatever
/// follows it), the base name is the name.
pub proof fn lemma_rpm_name_strips_version(name: Seq<Seq<char>>, tail: Seq<Seq<char>>)
    requires
        name.len() > 0,
        tail.len() > 0,
        free_of(name, '-'),
        free_of(tail, '-'),
        forall|j: int| 0 <= j < name.len() ==> !starts_with_digit(#[trigger] name[j]),
        starts_with_digit(tail[0]),
    ensures
        rpm_base_name(join_with(name + tail, '-')) == join_with(name, '-'),
{
    let parts = name + tail;
    assert(free_of(parts, '-')) by {
        assert forall|i: int, j: int| 0 <= i < parts.len() && 0 <= j < parts[i].len() implies parts[i][j]
            != '-' by {
            if i < name.len() {
                assert(parts[i] == name[i]);
            } else {
                assert(parts[i] == tail[i - name.len()]);
            }
        }
    }
    lemma_split_join(parts, '-');
    assert forall|j: int| 0 <= j < name.len() implies !starts_with_digit(#[trigger] parts[j]) by {
        assert(parts[j] == name[j]);
    }
    assert(parts[name.len() as int] == tail[0]);
    lemma_version_index(parts, name.len() as int);
    assert(parts.take(name.len() as int) =~= name);
}

/// The version is the first piece that opens with any decimal digit, `0`
/// to `9`, `0` included: for a name whose dash-separated pieces open with no
/// such digit, followed by pieces the first of which does, the base name is
/// the name.
pub proof fn lemma_rpm_name_strips_any_digit_version(name: Seq<Seq<char>>, tail: Seq<Seq<char>>)
    requires
        name.len() > 0,
        tail.len() > 0,
        free_of(name, '-'),
        free_of(tail, '-'),
        forall|j: int| 0 <= j < name.len() ==> (#[trigger] name[j]).len() == 0 || !('0' <= name[j][0] && name[j][0] <= '9'),
        tail[0].len() > 0,
        '0' <= tail[0][0] && tail[0][0] <= '9',
    ensures
        rpm_base_name(join_with(name + tail, '-')) == join_with(name, '-'),
{
    assert forall|j: int| 0 <= j < name.len() implies !starts_with_digit(#[trigger] name[j]) by {
        assert(name[j].len() == 0 || !('0' <= name[j][0] && name[j][0] <= '9'));
    }
    lemma_rpm_name_strips_version(name, tail);
}

} // verus!
