//! The decisions of the tool: which scan section to read, which files it
//! reports as changed, which packages own them, and the commands to run.

use vstd::prelude::*;
use crate::error::{IntErrorKind, MyError};
use crate::rpm::{rpm_base_name, rpm_name, FindRpmsOutcome, RpmQueryOutcome};
use vstd::string::StringExecFns;
use crate::text::{
    chars_eq, chars_of_all, contains, contains_chars, decimal, decimal_chars, ends_with,
    ends_with_chars, from_chars, lemma_parse_decimal, lines_chars, lossy_text, lowercase,
    parse_usize, parse_usize_chars, slice_chars, starts_with, starts_with_chars, text_lines,
    to_chars, to_lowercase, trim, trim_chars, trim_start, trim_start_chars, utf8_lossy, views_of,
};

verus! {

/// Error message: the offset argument has an unexpected form.
pub const INVALID_OFFSET: &'static str = "Invalid offset. Use 'last', 'last-1', 'last-2', and so on...";

/// Error message: the offset is larger than allowed.
pub const OFFSET_OOB: &'static str = "Out of bounds offset";

/// Error message: the log holds fewer scan sections than the offset asks.
pub const SCAN_SECTION_NOT_FOUND: &'static str = "No Start Scan marker found at designated offset. Break...";

/// Message fragment in `rpm -qf` output when the file is not owned by any RPM.
pub const UNCLAIMED_MARKER: &'static str = "is not owned by any package";

/// Marker of the line that opens a scan section.
pub const START_SCAN_MARKER: &'static str = "Start Rootkit Hunter Scan";

/// Marker of the line that closes a scan section.
pub const END_SCAN_MARKER: &'static str = "End Rootkit Hunter Scan";

/// Warning marker for an unexpected change of file properties.
pub const WARN_FILE_CHANGED_MARKER: &'static str = "Warning: The file properties have changed:";

/// What introduces the path on the line that follows a warning.
pub const FILE_PREFIX: &'static str = "File: ";

/// The offset that an already lowercased command line argument names:
/// `last` is 0, `last-N` is `N` for `N` from 1 on. An error is the reason `N`
/// failed to parse, or `None` for an argument of neither form (`last-0`
/// among them).
pub open spec fn named_offset(arg: Seq<char>) -> Result<usize, Option<IntErrorKind>> {
    if arg == "last"@ {
        Ok(0)
    } else if starts_with(arg, "last-"@) {
        match parse_usize(arg.skip("last-"@.len() as int)) {
            Ok(v) => if v == 0 {
                Err(None)
            } else {
                Ok(v)
            },
            Err(k) => Err(Some(k)),
        }
    } else {
        Err(None)
    }
}

/// `r` is what reading the lowercased argument `arg` gives when offsets up
/// to `max_offset` are allowed.
pub open spec fn offset_outcome(r: Result<usize, MyError>, arg: Seq<char>, max_offset: usize) -> bool {
    match named_offset(arg) {
        Ok(v) => if v > max_offset {
            r matches Err(MyError::Runtime(m)) && m@ == OFFSET_OOB@
        } else {
            r == Ok::<usize, MyError>(v)
        },
        Err(Some(k)) => r == Err::<usize, MyError>(MyError::Parse(k)),
        Err(None) => r matches Err(MyError::Runtime(m)) && m@ == INVALID_OFFSET@,
    }
}

/// The offset named by an argument that is already lowercased, checked
/// against `max_offset`.
pub fn checked_offset(arg: &str, max_offset: usize) -> (r: Result<usize, MyError>)
    ensures
        offset_outcome(r, arg@, max_offset),
{
    let a = to_chars(arg);
    let last = to_chars("last");
    let last_dash = to_chars("last-");
    let offset = if chars_eq(&a, &last) {
        0
    } else if starts_with_chars(&a, &last_dash) {
        let digits = slice_chars(&a, last_dash.len(), a.len());
        assert(digits@ =~= a@.skip("last-"@.len() as int));
        match parse_usize_chars(&digits) {
            Ok(0) => {
                return Err(MyError::Runtime(INVALID_OFFSET.to_owned()));
            },
            Ok(v) => v,
            Err(k) => {
                return Err(MyError::Parse(k));
            },
        }
    } else {
        return Err(MyError::Runtime(INVALID_OFFSET.to_owned()));
    };
    if offset > max_offset {
        Err(MyError::Runtime(OFFSET_OOB.to_owned()))
    } else {
        Ok(offset)
    }
}

/// Reads the command line arguments `args` (the program's name first): the
/// optional first argument names the scan section, `last` (the default) or
/// `last-N`, in any letter case, where `N` is a decimal number between 1 and
/// `max_offset`.
///
/// Returns an error if parsing the argument fails, the argument is not of the
/// expected form, or its number is greater than `max_offset`.
pub fn find_offset(args: Vec<String>, max_offset: usize) -> (r: Result<usize, MyError>)
    ensures
        args@.len() <= 1 ==> r == Ok::<usize, MyError>(0),
        args@.len() > 1 ==> offset_outcome(r, lowercase(args@[1]@), max_offset),
{
    if args.len() > 1 {
        let it = to_lowercase(args[1].as_str());
        checked_offset(it.as_str(), max_offset)
    } else {
        Ok(0)
    }
}

/// The answer that an already lowercased and trimmed reply gives to a
/// yes/no prompt: `y`/`yes` is yes, `n`/`no`/nothing is no, anything else
/// asks again (`None`).
pub open spec fn answer_of(reply: Seq<char>) -> Option<bool> {
    if reply == "y"@ || reply == "yes"@ {
        Some(true)
    } else if reply == "n"@ || reply == "no"@ || reply.len() == 0 {
        Some(false)
    } else {
        None
    }
}

/// The answer an already lowercased reply gives to a yes/no prompt.
pub fn answer_from_reply(reply: &str) -> (r: Option<bool>)
    ensures
        r == answer_of(reply@),
{
    let a = to_chars(reply);
    if chars_eq(&a, &to_chars("y")) || chars_eq(&a, &to_chars("yes")) {
        Some(true)
    } else if chars_eq(&a, &to_chars("n")) || chars_eq(&a, &to_chars("no")) || a.len() == 0 {
        Some(false)
    } else {
        None
    }
}

/// The answer that a line typed at a yes/no prompt gives (`None`: ask again),
/// with 'No' being the default.
pub fn yes_no_answer(input: &str) -> (r: Option<bool>)
    ensures
        r == answer_of(lowercase(trim(input@))),
{
    let chars = to_chars(input);
    let trimmed = from_chars(&trim_chars(&chars));
    let lowered = to_lowercase(trimmed.as_str());
    answer_from_reply(lowered.as_str())
}


/// Index of the `n`-th line (0 being the last one), counting from the end,
/// that contains `marker`.
pub open spec fn nth_marked_from_end(lines: Seq<Seq<char>>, marker: Seq<char>, n: nat) -> Option<
    nat,
>
    decreases lines.len(),
{
    if lines.len() == 0 {
        None
    } else if contains(lines.last(), marker) {
        if n == 0 {
            Some((lines.len() - 1) as nat)
        } else {
            nth_marked_from_end(lines.drop_last(), marker, (n - 1) as nat)
        }
    } else {
        nth_marked_from_end(lines.drop_last(), marker, n)
    }
}

/// Index of the first line at or after `i` that contains `marker`, or the
/// number of lines when there is none.
pub open spec fn first_marked_from(lines: Seq<Seq<char>>, marker: Seq<char>, i: int) -> int
    decreases lines.len() - i,
{
    if i >= lines.len() {
        lines.len() as int
    } else if contains(lines[i], marker) {
        i
    } else {
        first_marked_from(lines, marker, i + 1)
    }
}

/// The line names a file: after its leading white space it opens with `File: `.
pub open spec fn names_file(line: Seq<char>) -> bool {
    starts_with(trim_start(line), FILE_PREFIX@)
}

/// The path that a line naming a file holds, white space trimmed.
pub open spec fn named_path(line: Seq<char>) -> Seq<char> {
    trim(trim_start(line).skip(FILE_PREFIX@.len() as int))
}

/// A line of a section is reported when the line before it holds the
/// changed-properties warning, it does not hold that warning itself, and it
/// names a file: the paths so reported, in order.
pub open spec fn reported_paths(section: Seq<Seq<char>>) -> Seq<Seq<char>>
    decreases section.len(),
{
    if section.len() < 2 {
        seq![]
    } else {
        let before = reported_paths(section.drop_last());
        let n = section.len();
        if contains(section[n - 2], WARN_FILE_CHANGED_MARKER@) && !contains(
            section[n - 1],
            WARN_FILE_CHANGED_MARKER@,
        ) && names_file(section[n - 1]) {
            before.push(named_path(section[n - 1]))
        } else {
            before
        }
    }
}

/// The paths reported in the scan section at `offset` (0 being the last one)
/// of a log: the section runs from its start marker line up to, not
/// including, the first end marker line at or after it. `None` when the log
/// has no section at that offset.
pub open spec fn changed_files_in(lines: Seq<Seq<char>>, offset: nat) -> Option<Seq<Seq<char>>> {
    match nth_marked_from_end(lines, START_SCAN_MARKER@, offset) {
        None => None,
        Some(start) => Some(
            reported_paths(
                lines.subrange(
                    start as int,
                    first_marked_from(lines, END_SCAN_MARKER@, start as int),
                ),
            ),
        ),
    }
}

pub proof fn lemma_first_marked_from_bounds(lines: Seq<Seq<char>>, marker: Seq<char>, i: int)
    requires
        0 <= i <= lines.len(),
    ensures
        i <= first_marked_from(lines, marker, i) <= lines.len(),
    decreases lines.len() - i,
{
    if i < lines.len() && !contains(lines[i], marker) {
        lemma_first_marked_from_bounds(lines, marker, i + 1);
    }
}

pub proof fn lemma_nth_marked_bound(lines: Seq<Seq<char>>, marker: Seq<char>, n: nat)
    ensures
        nth_marked_from_end(lines, marker, n) matches Some(k) ==> k < lines.len() && contains(
            lines[k as int],
            marker,
        ),
    decreases lines.len(),
{
    if lines.len() > 0 {
        lemma_nth_marked_bound(lines.drop_last(), marker, if contains(lines.last(), marker) && n > 0 {
            (n - 1) as nat
        } else {
            n
        });
    }
}

/// Number of lines that contain `marker`.
pub open spec fn count_marked(lines: Seq<Seq<char>>, marker: Seq<char>) -> nat
    decreases lines.len(),
{
    if lines.len() == 0 {
        0
    } else {
        count_marked(lines.drop_last(), marker) + if contains(lines.last(), marker) {
            1nat
        } else {
            0nat
        }
    }
}

proof fn lemma_nth_marked_append(lines: Seq<Seq<char>>, extra: Seq<Seq<char>>, marker: Seq<char>, n: nat)
    ensures
        nth_marked_from_end(lines + extra, marker, n + count_marked(extra, marker))
            == nth_marked_from_end(lines, marker, n),
    decreases extra.len(),
{
    if extra.len() == 0 {
        assert(lines + extra =~= lines);
    } else {
        let all = lines + extra;
        assert(all.drop_last() =~= lines + extra.drop_last());
        assert(all.last() == extra.last());
        lemma_nth_marked_append(lines, extra.drop_last(), marker, n);
    }
}

proof fn lemma_first_marked_append(lines: Seq<Seq<char>>, extra: Seq<Seq<char>>, marker: Seq<char>, i: int)
    requires
        0 <= i,
        first_marked_from(lines, marker, i) < lines.len(),
    ensures
        first_marked_from(lines + extra, marker, i) == first_marked_from(lines, marker, i),
    decreases lines.len() - i,
{
    let all = lines + extra;
    assert(all[i] == lines[i]);
    if !contains(lines[i], marker) {
        lemma_first_marked_append(lines, extra, marker, i + 1);
    }
}

/// Appending more of the log (such as a newer scan section) keeps what an
/// older, closed section reports: its offset grows by the number of start
/// markers appended. So offset 0 is the last section, and the penultimate
/// one is `last-1`.
pub proof fn lemma_changed_files_after_append(lines: Seq<Seq<char>>, extra: Seq<Seq<char>>, offset: nat)
    requires
        nth_marked_from_end(lines, START_SCAN_MARKER@, offset) matches Some(start)
            && first_marked_from(lines, END_SCAN_MARKER@, start as int) < lines.len(),
    ensures
        changed_files_in(lines + extra, offset + count_marked(extra, START_SCAN_MARKER@))
            == changed_files_in(lines, offset),
{
    let start = nth_marked_from_end(lines, START_SCAN_MARKER@, offset)->0;
    lemma_nth_marked_append(lines, extra, START_SCAN_MARKER@, offset);
    lemma_first_marked_append(lines, extra, END_SCAN_MARKER@, start as int);
    lemma_nth_marked_bound(lines, START_SCAN_MARKER@, offset);
    lemma_first_marked_from_bounds(lines, END_SCAN_MARKER@, start as int);
    let end = first_marked_from(lines, END_SCAN_MARKER@, start as int);
    assert((lines + extra).subrange(start as int, end) =~= lines.subrange(start as int, end));
}

/// A log whose last line is the start of a section reports nothing for
/// offset 0: nothing follows the start marker.
pub proof fn lemma_open_section_at_end(lines: Seq<Seq<char>>)
    requires
        lines.len() > 0,
        contains(lines.last(), START_SCAN_MARKER@),
    ensures
        changed_files_in(lines, 0) == Some(Seq::<Seq<char>>::empty()),
{
    let start = (lines.len() - 1) as int;
    lemma_first_marked_from_bounds(lines, END_SCAN_MARKER@, start);
    let sec = lines.subrange(start, first_marked_from(lines, END_SCAN_MARKER@, start));
    assert(sec.len() <= 1);
}

/// The argument that the search for DNF history frames hands to `dnf
/// history info`, `last-N`, is read back as the offset `N` by the tool's own
/// argument reader, for `N` from 1 on.
pub proof fn lemma_frame_argument_reads_back(n: usize)
    requires
        n >= 1,
    ensures
        named_offset("last-"@ + decimal(n as nat)) == Ok::<usize, Option<IntErrorKind>>(n),
{
    reveal_strlit("last");
    reveal_strlit("last-");
    let arg = "last-"@ + decimal(n as nat);
    assert(arg.len() > "last"@.len());
    assert(arg.take("last-"@.len() as int) =~= "last-"@);
    assert(arg.skip("last-"@.len() as int) =~= decimal(n as nat));
    lemma_parse_decimal(n);
}

/// Every offset that reading an argument accepts is at most `max_offset`.
pub proof fn lemma_offset_within_bounds(r: Result<usize, MyError>, arg: Seq<char>, max_offset: usize)
    requires
        offset_outcome(r, arg, max_offset),
    ensures
        r matches Ok(v) ==> v <= max_offset,
{
}

/// Given the lines of the Rootkit Hunter log, returns the paths of the files
/// that caused a warning about changed properties in the scan section at
/// `offset` (0 being the last section of the log).
///
/// Returns an error when the log holds no scan section at that offset.
pub fn find_changed_files(lines: Vec<String>, offset: usize) -> (r: Result<Vec<String>, MyError>)
    ensures
        match changed_files_in(views_of(lines@), offset as nat) {
            None => r matches Err(MyError::Runtime(m)) && m@ == SCAN_SECTION_NOT_FOUND@,
            Some(paths) => r matches Ok(v) && views_of(v@) == paths,
        },
{
    let ls = chars_of_all(&lines);
    let ghost all = views_of(lines@);
    let start_marker = to_chars(START_SCAN_MARKER);
    let end_marker = to_chars(END_SCAN_MARKER);
    let warn_marker = to_chars(WARN_FILE_CHANGED_MARKER);
    let file_prefix = to_chars(FILE_PREFIX);
    let n = ls.len();

    // find the line index of the offset-th start marker, counting from the end
    let mut ndx = n;
    let mut count: usize = 0;
    let mut found = false;
    assert(all.take(n as int) =~= all);
    while ndx > 0 && !found
        invariant
            n == all.len(),
            all == ls@.map_values(|v: Vec<char>| v@),
            start_marker@ == START_SCAN_MARKER@,
            ndx <= n,
            count <= offset,
            !found ==> nth_marked_from_end(all, START_SCAN_MARKER@, offset as nat)
                == nth_marked_from_end(all.take(ndx as int), START_SCAN_MARKER@, (offset - count) as nat),
            found ==> 0 < ndx && nth_marked_from_end(all, START_SCAN_MARKER@, offset as nat) == Some(
                (ndx - 1) as nat,
            ),
        decreases ndx, (if found { 0int } else { 1int }),
    {
        let ghost prefix = all.take(ndx as int);
        assert(prefix.last() == all[ndx - 1]);
        assert(prefix.drop_last() =~= all.take(ndx - 1));
        if contains_chars(&ls[ndx - 1], &start_marker) {
            if count == offset {
                found = true;
            } else {
                count += 1;
                ndx -= 1;
            }
        } else {
            ndx -= 1;
        }
    }
    if !found {
        assert(all.take(0) =~= Seq::<Seq<char>>::empty());
        return Err(MyError::Runtime(SCAN_SECTION_NOT_FOUND.to_owned()));
    }
    let start = ndx - 1;
    proof {
        lemma_first_marked_from_bounds(all, END_SCAN_MARKER@, start as int);
    }

    // walk the section, reporting the file named right after each warning
    let mut changed_files: Vec<String> = Vec::new();
    let mut found_warning = false;
    let mut i = start;
    assert(all.subrange(start as int, start as int) =~= Seq::<Seq<char>>::empty());
    while i < n && !contains_chars(&ls[i], &end_marker)
        invariant
            n == all.len(),
            all == ls@.map_values(|v: Vec<char>| v@),
            end_marker@ == END_SCAN_MARKER@,
            warn_marker@ == WARN_FILE_CHANGED_MARKER@,
            file_prefix@ == FILE_PREFIX@,
            start <= i <= n,
            first_marked_from(all, END_SCAN_MARKER@, start as int) == first_marked_from(
                all,
                END_SCAN_MARKER@,
                i as int,
            ),
            found_warning == (i > start && contains(all[i - 1], WARN_FILE_CHANGED_MARKER@)),
            views_of(changed_files@) == reported_paths(all.subrange(start as int, i as int)),
        decreases n - i,
    {
        let line = &ls[i];
        let ghost sec = all.subrange(start as int, i + 1);
        assert(sec.drop_last() =~= all.subrange(start as int, i as int));
        assert(line@ == all[i as int]);
        let ghost before = views_of(changed_files@);
        if contains_chars(line, &warn_marker) {
            found_warning = true;
        } else {
            if found_warning {
                assert(sec[sec.len() - 2] == all[i - 1]);
                let trimmed = trim_start_chars(line);
                if starts_with_chars(&trimmed, &file_prefix) {
                    let rest = slice_chars(&trimmed, file_prefix.len(), trimmed.len());
                    assert(rest@ =~= trim_start(line@).skip(FILE_PREFIX@.len() as int));
                    let path = trim_chars(&rest);
                    changed_files.push(from_chars(&path));
                    assert(views_of(changed_files@) =~= before.push(named_path(line@)));
                }
            }
            found_warning = false;
        }
        i += 1;
    }
    proof {
        assert(first_marked_from(all, END_SCAN_MARKER@, i as int) == i);
    }
    Ok(changed_files)
}


/// What an `rpm -qf` of `file` that printed `output` tells: `Some(Ok(name))`
/// when it printed one line naming the package (`name` being its base name),
/// `Some(Err(file))` when its one line says that no package owns the file,
/// and `None` when the command failed or printed other than one line.
pub open spec fn query_fate(file: Seq<char>, output: Result<Vec<String>, MyError>) -> Option<
    Result<Seq<char>, Seq<char>>,
> {
    match output {
        Err(_) => None,
        Ok(lines) => if lines@.len() != 1 {
            None
        } else if ends_with(lines@[0]@, UNCLAIMED_MARKER@) {
            Some(Err(file))
        } else {
            Some(Ok(rpm_base_name(lines@[0]@)))
        },
    }
}

/// The error message for an `rpm -qf` of `file` that printed `count` lines.
pub open spec fn providers_message(file: Seq<char>, count: nat) -> Seq<char> {
    "Wasn't expecting more than 1 RPM providing `"@ + file + "`; found "@ + decimal(count)
        + ". Break.."@
}

/// The error that a failed `rpm -qf` of `file` that gave `output` yields.
pub open spec fn query_error(r: MyError, file: Seq<char>, output: Result<Vec<String>, MyError>) -> bool {
    match output {
        Err(e) => r == e,
        Ok(lines) => r matches MyError::Runtime(m) && m@ == providers_message(file, lines@.len()),
    }
}

/// Reads the result `output` of `rpm -qf file`, the query for the installed
/// RPM that provides `file`. There must be one and only one such RPM. Some
/// files are not provided by any RPM, e.g. some symlinks under `/usr/sbin`:
/// `rpm` then prints that the file is not owned by any package.
///
/// Returns the error of the command if it failed, or an error if it printed
/// other than one line. When an installed RPM owns the file, its base name is
/// kept, stripped of version, release, architecture.
pub fn rpm_query(file: &str, output: Result<Vec<String>, MyError>) -> (r: Result<
    RpmQueryOutcome,
    MyError,
>)
    ensures
        match query_fate(file@, output) {
            Some(Ok(name)) => r matches Ok(RpmQueryOutcome::OwnedBy(x)) && x@ == name,
            Some(Err(f)) => r matches Ok(RpmQueryOutcome::NotOwned(x)) && x@ == f,
            None => r matches Err(e) && query_error(e, file@, output),
        },
{
    match output {
        Ok(x) => {
            if x.len() != 1 {
                let mut msg = "Wasn't expecting more than 1 RPM providing `".to_owned();
                msg.append(file);
                msg.append("`; found ");
                msg.append(from_chars(&decimal_chars(x.len())).as_str());
                msg.append(". Break..");
                Err(MyError::Runtime(msg))
            } else {
                let line = to_chars(x[0].as_str());
                if ends_with_chars(&line, &to_chars(UNCLAIMED_MARKER)) {
                    Ok(RpmQueryOutcome::NotOwned(file.to_owned()))
                } else {
                    Ok(RpmQueryOutcome::OwnedBy(rpm_name(x[0].as_str())))
                }
            }
        },
        Err(x) => Err(x),
    }
}

/// `s` with later repetitions of an item dropped.
pub open spec fn dedup(s: Seq<Seq<char>>) -> Seq<Seq<char>>
    decreases s.len(),
{
    if s.len() == 0 {
        s
    } else {
        let d = dedup(s.drop_last());
        if d.contains(s.last()) {
            d
        } else {
            d.push(s.last())
        }
    }
}

/// No item occurs twice.
pub open spec fn no_repeats(s: Seq<Seq<char>>) -> bool {
    forall|i: int, j: int| 0 <= i < j < s.len() ==> s[i] != s[j]
}

pub proof fn lemma_dedup(s: Seq<Seq<char>>)
    ensures
        no_repeats(dedup(s)),
        forall|x: Seq<char>| dedup(s).contains(x) <==> s.contains(x),
    decreases s.len(),
{
    broadcast use vstd::seq_lib::group_seq_properties;

    if s.len() > 0 {
        let p = s.drop_last();
        let l = s.last();
        lemma_dedup(p);
        assert(s =~= p.push(l));
        let d = dedup(p);
        if !d.contains(l) {
            assert forall|i: int, j: int| 0 <= i < j < d.push(l).len() implies d.push(l)[i] != d.push(l)[j] by {
                if j == d.len() {
                    assert(d.push(l)[i] == d[i]);
                    assert(d.contains(d[i]));
                }
            }
        }
    }
}

/// The owned package names that the fates tell, in order.
pub open spec fn owned_names(fates: Seq<Option<Result<Seq<char>, Seq<char>>>>) -> Seq<Seq<char>>
    decreases fates.len(),
{
    if fates.len() == 0 {
        seq![]
    } else {
        let before = owned_names(fates.drop_last());
        match fates.last() {
            Some(Ok(name)) => before.push(name),
            _ => before,
        }
    }
}

/// The unclaimed files that the fates tell, in order.
pub open spec fn unclaimed_names(fates: Seq<Option<Result<Seq<char>, Seq<char>>>>) -> Seq<Seq<char>>
    decreases fates.len(),
{
    if fates.len() == 0 {
        seq![]
    } else {
        let before = unclaimed_names(fates.drop_last());
        match fates.last() {
            Some(Err(file)) => before.push(file),
            _ => before,
        }
    }
}

/// The fate of each query.
pub open spec fn fates_of(files: Seq<String>, outputs: Seq<Result<Vec<String>, MyError>>) -> Seq<
    Option<Result<Seq<char>, Seq<char>>>,
> {
    Seq::new(files.len(), |i: int| query_fate(files[i]@, outputs[i]))
}

/// Appends `item` to `list` unless it holds it already.
fn add_once(list: &mut Vec<String>, item: String)
    ensures
        views_of(final(list)@) == (if views_of(old(list)@).contains(item@) {
            views_of(old(list)@)
        } else {
            views_of(old(list)@).push(item@)
        }),
{
    let n = list.len();
    let ghost v = views_of(list@);
    for i in 0..n
        invariant
            n == list@.len(),
            v == views_of(list@),
            forall|k: int| 0 <= k < i ==> list@[k]@ != item@,
    {
        if list[i] == item {
            assert(v[i as int] == item@);
            return;
        }
    }
    assert(!v.contains(item@)) by {
        if v.contains(item@) {
            let k = choose|k: int| 0 <= k < v.len() && v[k] == item@;
            assert(list@[k]@ == item@);
        }
    }
    list.push(item);
    assert(views_of(list@) =~= v.push(item@));
}

/// `list` with `item` appended unless it holds it already.
pub open spec fn with_once(list: Seq<Seq<char>>, item: Seq<char>) -> Seq<Seq<char>> {
    if list.contains(item) {
        list
    } else {
        list.push(item)
    }
}

impl FindRpmsOutcome {
    /// An outcome with no package and no unclaimed file yet.
    pub fn new() -> (r: Self)
        ensures
            r.rpms@.len() == 0,
            r.unclaimed_files@.len() == 0,
    {
        FindRpmsOutcome { rpms: Vec::new(), unclaimed_files: Vec::new() }
    }

    /// Reads the result `output` of `rpm -qf file` into this outcome, as
    /// `rpm_query` does: the owning RPM's base name, or the unclaimed file, is
    /// added unless listed already. Returns the query's error if it failed,
    /// leaving the outcome as it was.
    pub fn record(&mut self, file: &str, output: Result<Vec<String>, MyError>) -> (r: Result<(), MyError>)
        ensures
            match query_fate(file@, output) {
                Some(Ok(name)) => r is Ok && views_of(final(self).rpms@) == with_once(
                    views_of(old(self).rpms@),
                    name,
                ) && final(self).unclaimed_files@ == old(self).unclaimed_files@,
                Some(Err(f)) => r is Ok && views_of(final(self).unclaimed_files@) == with_once(
                    views_of(old(self).unclaimed_files@),
                    f,
                ) && final(self).rpms@ == old(self).rpms@,
                None => (r matches Err(e) && query_error(e, file@, output))
                    && final(self).rpms@ == old(self).rpms@
                    && final(self).unclaimed_files@ == old(self).unclaimed_files@,
            },
    {
        match rpm_query(file, output) {
            Ok(RpmQueryOutcome::OwnedBy(x)) => {
                add_once(&mut self.rpms, x);
                Ok(())
            },
            Ok(RpmQueryOutcome::NotOwned(x)) => {
                add_once(&mut self.unclaimed_files, x);
                Ok(())
            },
            Err(x) => Err(x),
        }
    }
}

/// Given the changed `files` and the result of `rpm -qf` on each of them
/// (`outputs`, in the same order), returns the installed RPMs owning them and
/// the files no RPM owns, each listed once.
///
/// Returns the error of the first query that failed, as `rpm_query` does.
pub fn find_rpms(files: Vec<String>, outputs: Vec<Result<Vec<String>, MyError>>) -> (r: Result<
    FindRpmsOutcome,
    MyError,
>)
    requires
        files@.len() == outputs@.len(),
    ensures
        match r {
            Ok(o) => {
                &&& forall|i: int| 0 <= i < files@.len() ==> #[trigger] fates_of(files@, outputs@)[i] is Some
                &&& views_of(o.rpms@) == dedup(owned_names(fates_of(files@, outputs@)))
                &&& views_of(o.unclaimed_files@) == dedup(unclaimed_names(fates_of(files@, outputs@)))
                &&& no_repeats(views_of(o.rpms@))
                &&& no_repeats(views_of(o.unclaimed_files@))
                &&& forall|x: Seq<char>| views_of(o.rpms@).contains(x) <==> owned_names(
                    fates_of(files@, outputs@),
                ).contains(x)
                &&& forall|x: Seq<char>| views_of(o.unclaimed_files@).contains(x) <==> unclaimed_names(
                    fates_of(files@, outputs@),
                ).contains(x)
            },
            Err(e) => exists|i: int|
                0 <= i < files@.len() && (forall|j: int| 0 <= j < i ==> #[trigger] fates_of(files@, outputs@)[j] is Some)
                    && fates_of(files@, outputs@)[i] is None && query_error(e, files@[i]@, outputs@[i]),
        },
{
    let ghost fates = fates_of(files@, outputs@);
    let ghost outs = outputs@;
    let mut outcome = FindRpmsOutcome::new();
    let n = files.len();
    let mut i: usize = 0;
    assert(fates.take(0) =~= Seq::<Option<Result<Seq<char>, Seq<char>>>>::empty());
    assert(views_of(outcome.rpms@) =~= Seq::<Seq<char>>::empty());
    assert(views_of(outcome.unclaimed_files@) =~= Seq::<Seq<char>>::empty());
    for output in it: outputs
        invariant
            n == files@.len() == outs.len(),
            fates == fates_of(files@, outs),
            it.seq() == outs,
            i == it.index(),
            forall|j: int| 0 <= j < i ==> #[trigger] fates[j] is Some,
            views_of(outcome.rpms@) == dedup(owned_names(fates.take(i as int))),
            views_of(outcome.unclaimed_files@) == dedup(unclaimed_names(fates.take(i as int))),
    {
        assert(fates.take(i + 1).drop_last() =~= fates.take(i as int));
        assert(fates.take(i + 1).last() == fates[i as int]);
        assert(fates[i as int] == query_fate(files@[i as int]@, output));
        let ghost owned_before = owned_names(fates.take(i as int));
        let ghost unclaimed_before = unclaimed_names(fates.take(i as int));
        let ghost fate = fates[i as int];
        match outcome.record(files[i].as_str(), output) {
            Ok(()) => {
                proof {
                    match fate {
                        Some(Ok(name)) => {
                            assert(owned_names(fates.take(i + 1)) == owned_before.push(name));
                            assert(owned_before.push(name).drop_last() =~= owned_before);
                            assert(unclaimed_names(fates.take(i + 1)) == unclaimed_before);
                        },
                        Some(Err(f)) => {
                            assert(unclaimed_names(fates.take(i + 1)) == unclaimed_before.push(f));
                            assert(unclaimed_before.push(f).drop_last() =~= unclaimed_before);
                            assert(owned_names(fates.take(i + 1)) == owned_before);
                        },
                        None => {},
                    }
                }
            },
            Err(x) => {
                return Err(x);
            },
        }
        i += 1;
    }
    assert(fates.take(n as int) =~= fates);
    proof {
        lemma_dedup(owned_names(fates));
        lemma_dedup(unclaimed_names(fates));
    }
    Ok(outcome)
}


/// A command to run: the program, its arguments, and whether a failure
/// status makes the run fail (strict) or its output is read anyway
/// (lenient).
#[derive(Debug)]
pub struct CommandRequest {
    /// The program to invoke.
    pub program: String,
    /// Its arguments.
    pub args: Vec<String>,
    /// Whether a failure status is an error.
    pub strict: bool,
}

/// The characters of each string slice.
pub open spec fn str_views(strs: Seq<&str>) -> Seq<Seq<char>> {
    strs.map_values(|a: &str| a@)
}

fn request(cmd: &str, args: &[&str], strict: bool) -> (r: CommandRequest)
    ensures
        r.program@ == cmd@,
        views_of(r.args@) == str_views(args@),
        r.strict == strict,
{
    let mut v: Vec<String> = Vec::new();
    let n = args.len();
    for i in 0..n
        invariant
            n == args@.len(),
            views_of(v@) == str_views(args@.take(i as int)),
    {
        let ghost before = views_of(v@);
        v.push(args[i].to_owned());
        assert(args@.take(i + 1) =~= args@.take(i as int).push(args@[i as int]));
        assert(views_of(v@) =~= before.push(args@[i as int]@));
        assert(str_views(args@.take(i + 1)) =~= str_views(args@.take(i as int)).push(args@[i as int]@));
    }
    assert(args@.take(n as int) =~= args@);
    CommandRequest { program: cmd.to_owned(), args: v, strict }
}

/// Invokes a given `cmd` with argument(s): a failure status makes the run
/// an error with what the command sent to `stderr`.
pub fn run_cmd_strict(cmd: &str, args: &[&str]) -> (r: CommandRequest)
    ensures
        r.program@ == cmd@,
        views_of(r.args@) == str_views(args@),
        r.strict,
{
    request(cmd, args, true)
}

/// Invokes a given `cmd` with argument(s), reading its `stdout` even when it
/// reports a failure status: `rpm -qf` reports one for a file that no
/// package owns, and its output is then the expected answer.
pub fn run_cmd_lenient(cmd: &str, args: &[&str]) -> (r: CommandRequest)
    ensures
        r.program@ == cmd@,
        views_of(r.args@) == str_views(args@),
        !r.strict,
{
    request(cmd, args, false)
}

/// What running `request` gives, the command having ended with a success
/// status or not and written `stdout` and `stderr`: the lines of its
/// standard output, or, for a strict request that failed, an error holding
/// the program and the text of its standard error.
pub fn command_outcome(request: &CommandRequest, success: bool, stdout: &[u8], stderr: &[u8]) -> (r:
    Result<Vec<String>, MyError>)
    ensures
        (!success && request.strict) ==> (r matches Err(MyError::Command((c, e))) && c@
            == request.program@ && e@ == lossy_text(stderr@)),
        (success || !request.strict) ==> (r matches Ok(lines) && views_of(lines@) == text_lines(
            lossy_text(stdout@),
        )),
{
    if !success && request.strict {
        let err = utf8_lossy(stderr);
        return Err(MyError::Command((request.program.clone(), err)));
    }
    let out = utf8_lossy(stdout);
    let parts = lines_chars(&to_chars(out.as_str()));
    let mut lines: Vec<String> = Vec::new();
    let n = parts.len();
    let ghost pv = parts@.map_values(|p: Vec<char>| p@);
    for i in 0..n
        invariant
            n == parts@.len(),
            pv == parts@.map_values(|p: Vec<char>| p@),
            views_of(lines@) == pv.take(i as int),
    {
        let ghost before = views_of(lines@);
        lines.push(from_chars(&parts[i]));
        assert(views_of(lines@) =~= before.push(pv[i as int]));
        assert(pv.take(i + 1) =~= pv.take(i as int).push(pv[i as int]));
    }
    assert(pv.take(n as int) =~= pv);
    Ok(lines)
}

/// The command that brings `rkhunter`'s local database in sync with its
/// master and updates its file properties: `rkhunter --update --propupd`,
/// lenient.
pub fn rkhunter_update() -> (r: CommandRequest)
    ensures
        r.program@ == "rkhunter"@,
        views_of(r.args@) == seq!["--update"@, "--propupd"@],
        !r.strict,
{
    let r = request("rkhunter", &["--update", "--propupd"], false);
    assert(str_views(seq!["--update", "--propupd"]) =~= seq!["--update"@, "--propupd"@]);
    r
}

/// The command that updates `rkhunter`'s file properties for one RPM, given
/// its base name: `rkhunter --propupd <rpm>`, lenient.
pub fn rkhunter_propupd_rpm(rpm: &str) -> (r: CommandRequest)
    ensures
        r.program@ == "rkhunter"@,
        views_of(r.args@) == seq!["--propupd"@, rpm@],
        !r.strict,
{
    let r = request("rkhunter", &["--propupd", rpm], false);
    assert(str_views(seq!["--propupd", rpm]) =~= seq!["--propupd"@, rpm@]);
    r
}

/// The command that asks which installed RPM provides `file`: `rpm -qf
/// <file>`, lenient.
pub fn rpm_query_command(file: &str) -> (r: CommandRequest)
    ensures
        r.program@ == "rpm"@,
        views_of(r.args@) == seq!["-qf"@, file@],
        !r.strict,
{
    let r = run_cmd_lenient("rpm", &["-qf", file]);
    assert(str_views(seq!["-qf", file]) =~= seq!["-qf"@, file@]);
    r
}

/// The command that shows the DNF history frame named by `ndx` (such as
/// `last-2`): `dnf history info <ndx>`, lenient.
pub fn dnf_history_info_command(ndx: &str) -> (r: CommandRequest)
    ensures
        r.program@ == "dnf"@,
        views_of(r.args@) == seq!["history"@, "info"@, ndx@],
        !r.strict,
{
    let r = run_cmd_lenient("dnf", &["history", "info", ndx]);
    assert(str_views(seq!["history", "info", ndx]) =~= seq!["history"@, "info"@, ndx@]);
    r
}

} // verus!
