//! The table of executable bits that is kept beside the files, and the text
//! it is read from.

use vstd::prelude::*;
use vstd::slice::slice_subrange;
use vstd::string::*;
use crate::error::{SwhidError, SwhidErrorView};
use crate::permissions::{EntryExec, PermissionsSource};
use crate::seqs::{
    find_char, first_index, has_tail, head, last_index, lemma_first_index, lemma_last_index,
    lemma_tail_shorter, split_chars, tail,
};
use crate::text::{chars_are, chars_eq, chars_of, string_of};

verus! {

/// Whether `c` is white space, as Unicode has it.
pub open spec fn is_whitespace(c: char) -> bool {
    c == ' ' || ('\u{9}' <= c <= '\u{d}') || c == '\u{85}' || c == '\u{a0}' || c == '\u{1680}' || (
    '\u{2000}' <= c <= '\u{200a}') || c == '\u{2028}' || c == '\u{2029}' || c == '\u{202f}' || c
        == '\u{205f}' || c == '\u{3000}'
}

/// `s` without the white space in front of it.
pub open spec fn trim_start(s: Seq<char>) -> Seq<char>
    decreases s.len(),
{
    if s.len() > 0 && is_whitespace(s[0]) {
        trim_start(s.drop_first())
    } else {
        s
    }
}

/// `s` without the white space at its end.
pub open spec fn trim_end(s: Seq<char>) -> Seq<char>
    decreases s.len(),
{
    if s.len() > 0 && is_whitespace(s.last()) {
        trim_end(s.drop_last())
    } else {
        s
    }
}

/// `s` without the white space around it.
pub open spec fn trim(s: Seq<char>) -> Seq<char> {
    trim_end(trim_start(s))
}

/// Whether `s` begins with `p`.
pub open spec fn starts_with(s: Seq<char>, p: Seq<char>) -> bool {
    p.len() <= s.len() && s.take(p.len() as int) == p
}

/// The first place at which `p` stands in `s`, or `s.len()` where it stands
/// nowhere.
pub open spec fn first_match(s: Seq<char>, p: Seq<char>) -> int
    decreases s.len(),
{
    if s.len() == 0 || starts_with(s, p) {
        0
    } else {
        1 + first_match(s.drop_first(), p)
    }
}

/// Whether `p`, which is not empty, stands somewhere in `s`.
pub open spec fn contains_text(s: Seq<char>, p: Seq<char>) -> bool {
    first_match(s, p) < s.len()
}

/// `[[file]]`, the mark that begins a record.
pub open spec fn record_mark() -> Seq<char> {
    seq!['[', '[', 'f', 'i', 'l', 'e', ']', ']']
}

/// `path`, the key of the path of a record.
pub open spec fn path_key() -> Seq<char> {
    seq!['p', 'a', 't', 'h']
}

/// `executable`, the key of the bit of a record.
pub open spec fn executable_key() -> Seq<char> {
    seq!['e', 'x', 'e', 'c', 'u', 't', 'a', 'b', 'l', 'e']
}

/// `true`, the value of a bit that is set.
pub open spec fn true_text() -> Seq<char> {
    seq!['t', 'r', 'u', 'e']
}

/// What was read of a record so far.
pub struct RecordState {
    pub path: Option<Seq<char>>,
    pub executable: Option<bool>,
}

/// What a line, without the white space around it, adds to a record. A line
/// that begins with `path` gives the path: what stands between its first and
/// its last double quote, where it has two. A line that begins with
/// `executable` gives the bit, which is set where the line holds `true`.
/// Any other line adds nothing.
pub open spec fn read_line(state: RecordState, line: Seq<char>) -> RecordState {
    if starts_with(line, path_key()) {
        let first = first_index(line, '"');
        let last = last_index(line, '"');
        if first < line.len() && last > first {
            RecordState { path: Some(line.subrange(first + 1, last)), ..state }
        } else {
            state
        }
    } else if starts_with(line, executable_key()) {
        RecordState { executable: Some(contains_text(line, true_text())), ..state }
    } else {
        state
    }
}

/// What the lines of `text` add to a record, one after the other.
pub open spec fn read_lines(state: RecordState, text: Seq<char>) -> RecordState
    decreases text.len(),
    via read_lines_decreases
{
    let next = read_line(state, trim(head(text, '\n')));
    if has_tail(text, '\n') {
        read_lines(next, tail(text, '\n'))
    } else {
        next
    }
}

#[via_fn]
proof fn read_lines_decreases(state: RecordState, text: Seq<char>) {
    if has_tail(text, '\n') {
        lemma_tail_shorter(text, '\n');
    }
}

/// `path` with a `/` in place of each `\`.
pub open spec fn normalized(path: Seq<char>) -> Seq<char> {
    Seq::new(
        path.len(),
        |i: int|
            if path[i] == '\\' {
                '/'
            } else {
                path[i]
            },
    )
}

/// `..`, the segment that names the parent of a directory.
pub open spec fn parent_segment() -> Seq<char> {
    seq!['.', '.']
}

/// Whether one of the segments of `path`, which `/` parts, is `..`.
pub open spec fn has_parent_segment(path: Seq<char>) -> bool
    decreases path.len(),
    via has_parent_segment_decreases
{
    head(path, '/') == parent_segment() || (has_tail(path, '/') && has_parent_segment(
        tail(path, '/'),
    ))
}

#[via_fn]
proof fn has_parent_segment_decreases(path: Seq<char>) {
    if has_tail(path, '/') {
        lemma_tail_shorter(path, '/');
    }
}

/// Whether `path`, which is normalized, is absolute: it begins with `/`, or,
/// where drive letters count, holds a `:`.
pub open spec fn is_absolute(path: Seq<char>, drive_letters: bool) -> bool {
    (path.len() > 0 && path[0] == '/') || (drive_letters && path.contains(':'))
}

/// The path under which a record is kept: the path with `/` for `\`. A path
/// that is absolute, or that has a segment `..`, is a format error.
pub open spec fn checked_path(path: Seq<char>, drive_letters: bool) -> Result<
    Seq<char>,
    SwhidErrorView,
> {
    if is_absolute(normalized(path), drive_letters) {
        Err(SwhidErrorView::InvalidFormat("Manifest contains absolute path: "@ + path))
    } else if has_parent_segment(normalized(path)) {
        Err(SwhidErrorView::InvalidFormat("Manifest contains '..' in path: "@ + path))
    } else {
        Ok(normalized(path))
    }
}

/// The records that `text` holds, where `text` stands behind a mark. What
/// stands before the next mark is one record, which counts where it gives
/// both a path and a bit. The first path that is refused ends it.
pub open spec fn read_records(text: Seq<char>, drive_letters: bool) -> Result<
    Seq<(Seq<char>, bool)>,
    SwhidErrorView,
>
    decreases text.len(),
    via read_records_decreases
{
    let end = first_match(text, record_mark());
    let state = read_lines(RecordState { path: None, executable: None }, text.take(end));
    let found: Result<Seq<(Seq<char>, bool)>, SwhidErrorView> = if state.path is Some
        && state.executable is Some {
        match checked_path(state.path->Some_0, drive_letters) {
            Ok(p) => Ok(seq![(p, state.executable->Some_0)]),
            Err(e) => Err(e),
        }
    } else {
        Ok(Seq::empty())
    };
    match found {
        Err(e) => Err(e),
        Ok(one) => if end < text.len() {
            match read_records(text.skip(end + 8), drive_letters) {
                Ok(more) => Ok(one + more),
                Err(e) => Err(e),
            }
        } else {
            Ok(one)
        },
    }
}

#[via_fn]
proof fn read_records_decreases(text: Seq<char>, drive_letters: bool) {
    lemma_first_match(text, record_mark());
}

/// The table that `text` holds: the records behind its marks, and nothing
/// where it holds no mark.
pub open spec fn read_table(text: Seq<char>, drive_letters: bool) -> Result<
    Seq<(Seq<char>, bool)>,
    SwhidErrorView,
> {
    let start = first_match(text, record_mark());
    if start < text.len() {
        read_records(text.skip(start + 8), drive_letters)
    } else {
        Ok(Seq::empty())
    }
}

/// The bit that the table holds for `path`: that of the last record with
/// this path.
pub open spec fn lookup(table: Seq<(Seq<char>, bool)>, path: Seq<char>) -> Option<bool>
    decreases table.len(),
{
    if table.len() == 0 {
        None
    } else if table.last().0 == path {
        Some(table.last().1)
    } else {
        lookup(table.drop_last(), path)
    }
}

/// What `first_match` returns is in range; where it is a place of `s`, `p`
/// stands there, and it stands at no place before.
pub proof fn lemma_first_match(s: Seq<char>, p: Seq<char>)
    requires
        p.len() > 0,
    ensures
        0 <= first_match(s, p) <= s.len(),
        first_match(s, p) < s.len() ==> starts_with(s.skip(first_match(s, p)), p) && first_match(
            s,
            p,
        ) + p.len() <= s.len(),
        forall|j: int| 0 <= j < first_match(s, p) ==> !starts_with(#[trigger] s.skip(j), p),
    decreases s.len(),
{
    if s.len() == 0 {
    } else if starts_with(s, p) {
        assert(s.skip(0) =~= s);
    } else {
        let t = s.drop_first();
        lemma_first_match(t, p);
        let k = first_match(t, p);
        if k < t.len() {
            assert(s.skip(1 + k) =~= t.skip(k));
        }
        assert forall|j: int| 0 <= j < 1 + k implies !starts_with(#[trigger] s.skip(j), p) by {
            if j == 0 {
                assert(s.skip(0) =~= s);
            } else {
                assert(s.skip(j) =~= t.skip(j - 1));
            }
        }
    }
}

/// A place at which `p` stands, with no place before it at which it does,
/// is the first match; and where `p` stands nowhere, the length is.
pub proof fn lemma_first_match_is(s: Seq<char>, p: Seq<char>, k: int)
    requires
        p.len() > 0,
        0 <= k <= s.len(),
        forall|j: int| 0 <= j < k ==> !starts_with(#[trigger] s.skip(j), p),
        k < s.len() ==> starts_with(s.skip(k), p),
    ensures
        first_match(s, p) == k,
{
    lemma_first_match(s, p);
    let f = first_match(s, p);
    if f < k {
        assert(!starts_with(s.skip(f), p));
    } else if f > k {
        assert(starts_with(s.skip(k), p));
    }
}

/// A place that holds `x` with no `x` behind it is the last index; and where
/// `s` holds none, `-1` is.
pub proof fn lemma_last_index_is(s: Seq<char>, x: char, k: int)
    requires
        -1 <= k < s.len(),
        forall|j: int| k < j < s.len() ==> s[j] != x,
        0 <= k ==> s[k] == x,
    ensures
        last_index(s, x) == k,
{
    lemma_last_index(s, x);
    let l = last_index(s, x);
    if l < k {
        assert(s[k] == x);
    } else if l > k {
        assert(s[l] != x);
    }
}

/// Whether `c` is white space.
fn is_space(c: char) -> (r: bool)
    ensures
        r == is_whitespace(c),
{
    c == ' ' || (c >= '\u{9}' && c <= '\u{d}') || c == '\u{85}' || c == '\u{a0}' || c == '\u{1680}'
        || (c >= '\u{2000}' && c <= '\u{200a}') || c == '\u{2028}' || c == '\u{2029}' || c
        == '\u{202f}' || c == '\u{205f}' || c == '\u{3000}'
}

/// `s` without the white space around it.
fn trim_chars<'a>(s: &'a [char]) -> (r: &'a [char])
    ensures
        r@ == trim(s@),
{
    let mut start: usize = 0;
    assert(s@.skip(0) =~= s@);
    while start < s.len() && is_space(s[start])
        invariant
            start <= s.len(),
            trim_start(s@) == trim_start(s@.skip(start as int)),
        decreases s.len() - start,
    {
        assert(s@.skip(start as int).drop_first() =~= s@.skip(start + 1));
        start += 1;
    }
    let ghost front = s@.skip(start as int);
    assert(trim_start(s@) == front);
    let mut end: usize = s.len();
    assert(s@.subrange(start as int, end as int) =~= front);
    while end > start && is_space(s[end - 1])
        invariant
            start <= end <= s.len(),
            trim_end(front) == trim_end(s@.subrange(start as int, end as int)),
        decreases end,
    {
        assert(s@.subrange(start as int, end as int).drop_last() =~= s@.subrange(
            start as int,
            end - 1,
        ));
        end -= 1;
    }
    slice_subrange(s, start, end)
}

/// Whether `s` begins with `p`.
fn begins_with(s: &[char], p: &[char]) -> (r: bool)
    ensures
        r == starts_with(s@, p@),
{
    if p.len() > s.len() {
        return false;
    }
    let front = slice_subrange(s, 0, p.len());
    assert(front@ =~= s@.take(p@.len() as int));
    chars_eq(front, p)
}

/// The first place at which `p` stands in `s`.
fn find_text(s: &[char], p: &[char]) -> (r: usize)
    requires
        p@.len() > 0,
    ensures
        r == first_match(s@, p@),
{
    let mut i: usize = 0;
    while i < s.len()
        invariant
            i <= s.len(),
            p@.len() > 0,
            forall|j: int| 0 <= j < i ==> !starts_with(#[trigger] s@.skip(j), p@),
        decreases s.len() - i,
    {
        let from = slice_subrange(s, i, s.len());
        assert(from@ =~= s@.skip(i as int));
        if begins_with(from, p) {
            proof {
                lemma_first_match_is(s@, p@, i as int);
            }
            return i;
        }
        i += 1;
    }
    proof {
        lemma_first_match_is(s@, p@, i as int);
    }
    i
}

/// The last place at which `x` stands in `s`, where it stands anywhere.
fn find_last_char(s: &[char], x: char) -> (r: Option<usize>)
    ensures
        match r {
            Some(i) => i == last_index(s@, x),
            None => last_index(s@, x) == -1,
        },
{
    let mut i: usize = s.len();
    while i > 0
        invariant
            i <= s.len(),
            forall|j: int| i <= j < s.len() ==> s@[j] != x,
        decreases i,
    {
        if s[i - 1] == x {
            proof {
                lemma_last_index_is(s@, x, i - 1);
            }
            return Some(i - 1);
        }
        i -= 1;
    }
    proof {
        lemma_last_index_is(s@, x, -1);
    }
    None
}

/// What was read of a record so far.
struct RecordRead {
    path: Option<Vec<char>>,
    executable: Option<bool>,
}

impl View for RecordRead {
    type V = RecordState;

    closed spec fn view(&self) -> RecordState {
        RecordState {
            path: match self.path {
                Some(p) => Some(p@),
                None => None,
            },
            executable: self.executable,
        }
    }
}

/// Reads a line, without the white space around it, into a record.
fn read_record_line(state: RecordRead, line: &[char]) -> (r: RecordRead)
    ensures
        r@ == read_line(state@, line@),
{
    proof {
        reveal_strlit("path");
        reveal_strlit("executable");
        reveal_strlit("true");
        assert("path"@ =~= path_key());
        assert("executable"@ =~= executable_key());
        assert("true"@ =~= true_text());
    }
    let path_word = chars_of("path");
    let executable_word = chars_of("executable");
    let mut r = state;
    if begins_with(line, path_word.as_slice()) {
        let first = find_char(line, '"');
        proof {
            lemma_last_index(line@, '"');
        }
        match find_last_char(line, '"') {
            Some(last) => {
                if first < line.len() && last > first {
                    let mut path: Vec<char> = Vec::new();
                    let mut i: usize = first + 1;
                    while i < last
                        invariant
                            first + 1 <= i <= last < line.len(),
                            path@ == line@.subrange(first + 1, i as int),
                        decreases last - i,
                    {
                        path.push(line[i]);
                        i += 1;
                        assert(path@ =~= line@.subrange(first + 1, i as int));
                    }
                    r.path = Some(path);
                }
            },
            None => {},
        }
    } else if begins_with(line, executable_word.as_slice()) {
        let true_word = chars_of("true");
        let set = find_text(line, true_word.as_slice()) < line.len();
        r.executable = Some(set);
    }
    r
}

/// Reads the lines of a record.
fn read_record(text: &[char]) -> (r: RecordRead)
    ensures
        r@ == read_lines(RecordState { path: None, executable: None }, text@),
{
    let mut state = RecordRead { path: None, executable: None };
    let mut rest = text;
    loop
        invariant
            read_lines(RecordState { path: None, executable: None }, text@) == read_lines(
                state@,
                rest@,
            ),
        ensures
            state@ == read_lines(RecordState { path: None, executable: None }, text@),
        decreases rest@.len(),
    {
        let (line, next) = split_chars(rest, '\n');
        state = read_record_line(state, trim_chars(line));
        match next {
            Some(more) => {
                proof {
                    lemma_tail_shorter(rest@, '\n');
                }
                rest = more;
            },
            None => {
                break ;
            },
        }
    }
    state
}

/// `path` with a `/` in place of each `\`.
fn normalize_chars(path: &[char]) -> (r: Vec<char>)
    ensures
        r@ == normalized(path@),
{
    let mut r: Vec<char> = Vec::new();
    let mut i: usize = 0;
    while i < path.len()
        invariant
            i <= path.len(),
            r@ == normalized(path@).take(i as int),
        decreases path.len() - i,
    {
        let c = path[i];
        if c == '\\' {
            r.push('/');
        } else {
            r.push(c);
        }
        i += 1;
        assert(r@ =~= normalized(path@).take(i as int));
    }
    assert(normalized(path@).take(path.len() as int) =~= normalized(path@));
    r
}

/// `path` with a `/` in place of each `\`.
pub fn forward_slashes(path: &str) -> (r: String)
    ensures
        r@ == normalized(path@),
{
    let chars = chars_of(path);
    let plain = normalize_chars(chars.as_slice());
    string_of(plain.as_slice())
}

/// Whether one of the segments of `path` is `..`.
fn finds_parent_segment(path: &[char]) -> (r: bool)
    ensures
        r == has_parent_segment(path@),
{
    proof {
        reveal_strlit("..");
        assert(".."@ =~= parent_segment());
    }
    let mut rest = path;
    loop
        invariant
            ".."@ == parent_segment(),
            has_parent_segment(path@) == has_parent_segment(rest@),
        decreases rest@.len(),
    {
        let (segment, next) = split_chars(rest, '/');
        if chars_are(segment, "..") {
            return true;
        }
        match next {
            Some(more) => {
                proof {
                    lemma_tail_shorter(rest@, '/');
                }
                rest = more;
            },
            None => {
                return false;
            },
        }
    }
}

/// The path under which a record is kept.
fn check_path(path: &[char], drive_letters: bool) -> (r: Result<String, SwhidError>)
    ensures
        match r {
            Ok(p) => checked_path(path@, drive_letters) == Ok::<Seq<char>, SwhidErrorView>(p@),
            Err(e) => checked_path(path@, drive_letters) == Err::<Seq<char>, SwhidErrorView>(e@),
        },
{
    let plain = normalize_chars(path);
    proof {
        lemma_first_index(plain@, ':');
    }
    let absolute = (plain.len() > 0 && plain[0] == '/') || (drive_letters && find_char(
        plain.as_slice(),
        ':',
    ) < plain.len());
    if absolute {
        let shown = string_of(path);
        return Err(
            SwhidError::InvalidFormat(
                String::from_str("Manifest contains absolute path: ").concat(shown.as_str()),
            ),
        );
    }
    if finds_parent_segment(plain.as_slice()) {
        let shown = string_of(path);
        return Err(
            SwhidError::InvalidFormat(
                String::from_str("Manifest contains '..' in path: ").concat(shown.as_str()),
            ),
        );
    }
    Ok(string_of(plain.as_slice()))
}

/// The records that were read, in front of what the rest of the text gives.
pub open spec fn with_records(
    records: Seq<(Seq<char>, bool)>,
    rest: Result<Seq<(Seq<char>, bool)>, SwhidErrorView>,
) -> Result<Seq<(Seq<char>, bool)>, SwhidErrorView> {
    match rest {
        Ok(more) => Ok(records + more),
        Err(e) => Err(e),
    }
}

/// A table of executable bits, kept beside the files: for each path that it
/// lists, whether the file is executable.
pub struct ManifestPermissionsSource {
    records: Vec<(String, bool)>,
}

/// The views of records: each a path and a bit.
pub open spec fn records_view(records: Seq<(String, bool)>) -> Seq<(Seq<char>, bool)> {
    records.map_values(|r: (String, bool)| (r.0@, r.1))
}

impl View for ManifestPermissionsSource {
    type V = Seq<(Seq<char>, bool)>;

    closed spec fn view(&self) -> Seq<(Seq<char>, bool)> {
        records_view(self.records@)
    }
}

impl ManifestPermissionsSource {
    /// The path under which a record is kept: `path` with `/` for `\`. A
    /// path that is absolute, or that has a segment `..`, is a format error.
    pub fn normalize_path(path: &str, drive_letters: bool) -> (r: Result<String, SwhidError>)
        ensures
            match r {
                Ok(p) => checked_path(path@, drive_letters) == Ok::<Seq<char>, SwhidErrorView>(p@),
                Err(e) => checked_path(path@, drive_letters) == Err::<Seq<char>, SwhidErrorView>(
                    e@,
                ),
            },
    {
        let chars = chars_of(path);
        check_path(chars.as_slice(), drive_letters)
    }

    /// Reads a table. Where `drive_letters` is set, a path with a `:` in it
    /// counts as absolute.
    pub fn parse_with(toml: &str, drive_letters: bool) -> (r: Result<
        ManifestPermissionsSource,
        SwhidError,
    >)
        ensures
            match r {
                Ok(table) => read_table(toml@, drive_letters) == Ok::<
                    Seq<(Seq<char>, bool)>,
                    SwhidErrorView,
                >(table@),
                Err(e) => read_table(toml@, drive_letters) == Err::<
                    Seq<(Seq<char>, bool)>,
                    SwhidErrorView,
                >(e@),
            },
    {
        proof {
            reveal_strlit("[[file]]");
            assert("[[file]]"@ =~= record_mark());
        }
        let chars = chars_of(toml);
        let mark = chars_of("[[file]]");
        let mut records: Vec<(String, bool)> = Vec::new();
        assert(records_view(records@) =~= Seq::empty());
        let start = find_text(chars.as_slice(), mark.as_slice());
        if start == chars.len() {
            return Ok(ManifestPermissionsSource { records });
        }
        proof {
            lemma_first_match(chars@, mark@);
        }
        let mut rest = slice_subrange(chars.as_slice(), start + 8, chars.len());
        assert(rest@ =~= chars@.skip(start + 8));
        assert(with_records(records_view(records@), read_records(rest@, drive_letters))
            == read_records(rest@, drive_letters)) by {
            match read_records(rest@, drive_letters) {
                Ok(more) => {
                    assert(records_view(records@) + more =~= more);
                },
                Err(_) => {},
            }
        }
        loop
            invariant
                mark@ == record_mark(),
                read_table(toml@, drive_letters) == with_records(
                    records_view(records@),
                    read_records(rest@, drive_letters),
                ),
            decreases rest@.len(),
        {
            let end = find_text(rest, mark.as_slice());
            proof {
                lemma_first_match(rest@, mark@);
            }
            let section = slice_subrange(rest, 0, end);
            assert(section@ =~= rest@.take(end as int));
            let state = read_record(section);
            let ghost before = records_view(records@);
            let ghost mut one: Seq<(Seq<char>, bool)> = Seq::empty();
            match (state.path, state.executable) {
                (Some(path), Some(executable)) => {
                    match check_path(path.as_slice(), drive_letters) {
                        Ok(kept) => {
                            proof {
                                one = seq![(kept@, executable)];
                            }
                            records.push((kept, executable));
                        },
                        Err(e) => { return Err(e); },
                    }
                },
                _ => {},
            }
            assert(records_view(records@) =~= before + one);
            if end == rest.len() {
                assert(before + one =~= records_view(records@));
                return Ok(ManifestPermissionsSource { records });
            }
            let next = slice_subrange(rest, end + 8, rest.len());
            proof {
                assert(next@ =~= rest@.skip(end + 8));
                match read_records(next@, drive_letters) {
                    Ok(more) => {
                        assert(before + (one + more) =~= (before + one) + more);
                    },
                    Err(_) => {},
                }
            }
            rest = next;
        }
    }

    /// Reads a table: each record begins with `[[file]]` and gives, on lines
    /// of their own, `path = "..."` and `executable = true` or `false`. A
    /// drive letter does not make a path absolute.
    pub fn parse(toml: &str) -> (r: Result<ManifestPermissionsSource, SwhidError>)
        ensures
            match r {
                Ok(table) => read_table(toml@, false) == Ok::<Seq<(Seq<char>, bool)>, SwhidErrorView>(
                    table@,
                ),
                Err(e) => read_table(toml@, false) == Err::<Seq<(Seq<char>, bool)>, SwhidErrorView>(
                    e@,
                ),
            },
    {
        ManifestPermissionsSource::parse_with(toml, false)
    }

    /// What the table says of the file at `path`: the bit of the last record
    /// with this path, `/` standing for `\`; nothing where no record has it.
    pub fn executable(&self, path: &str) -> (r: EntryExec)
        ensures
            r == match lookup(self@, normalized(path@)) {
                Some(bit) => EntryExec::Known(bit),
                None => EntryExec::Unknown,
            },
    {
        let key = forward_slashes(path);
        let ghost table = self@;
        let mut i: usize = self.records.len();
        assert(table.take(i as int) =~= table);
        while i > 0
            invariant
                i <= self.records.len(),
                table == records_view(self.records@),
                key@ == normalized(path@),
                lookup(table, key@) == lookup(table.take(i as int), key@),
            decreases i,
        {
            let ghost upto = table.take(i as int);
            assert(upto.last() == (self.records@[i - 1].0@, self.records@[i - 1].1));
            assert(upto.drop_last() =~= table.take(i - 1));
            if self.records[i - 1].0 == key {
                return EntryExec::Known(self.records[i - 1].1);
            }
            i -= 1;
        }
        EntryExec::Unknown
    }
}

impl PermissionsSource for ManifestPermissionsSource {
    /// What the table says of the file at `path`: it always answers, with
    /// the bit of the last record that has this path, `/` standing for `\`,
    /// and with nothing where no record has it.
    fn executable_of(&self, path: &str) -> (r: Result<EntryExec, SwhidError>)
        ensures
            r matches Ok(exec) && exec == match lookup(self@, normalized(path@)) {
                Some(bit) => EntryExec::Known(bit),
                None => EntryExec::Unknown,
            },
    {
        Ok(self.executable(path))
    }
}

} // verus!
