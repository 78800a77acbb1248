//! Migration files: the `-- UP` and `-- DOWN` sections of a migration script, the
//! `YYYYMMDD_HHMMSS_name.sql` naming rule, checksums, and the decisions of applying
//! and rolling back migrations.
use vstd::prelude::*;

use crate::digest::{lower_hex, sha256, sha256_hex};
use crate::error::DbError;
use crate::text::{chars_of, concat2, push_char, str_eq};

verus! {

// ---------------------------------------------------------------------------
// Lines and markers
// ---------------------------------------------------------------------------

/// The index of the first `c` in `s`, or -1.
pub open spec fn find_char(s: Seq<char>, c: char) -> int
    decreases s.len(),
{
    if s.len() == 0 {
        -1
    } else if s[0] == c {
        0
    } else if find_char(s.drop_first(), c) < 0 {
        -1
    } else {
        find_char(s.drop_first(), c) + 1
    }
}

/// A line ended by a newline loses one carriage return before the newline.
pub open spec fn strip_cr(l: Seq<char>) -> Seq<char> {
    if l.len() > 0 && l.last() == '\r' {
        l.drop_last()
    } else {
        l
    }
}

/// The lines of a text as `str::lines` yields them: split at each `\n` (a `\r`
/// right before it is dropped too); no empty line after a final `\n`.
pub open spec fn text_lines(s: Seq<char>) -> Seq<Seq<char>>
    decreases s.len(),
{
    if s.len() == 0 {
        Seq::empty()
    } else {
        let i = find_char(s, '\n');
        if i < 0 {
            seq![s]
        } else {
            proof {
                lemma_find_char(s, '\n');
            }
            seq![strip_cr(s.take(i))] + text_lines(s.skip(i + 1))
        }
    }
}

/// `find_char` finds the first occurrence.
pub proof fn lemma_find_char(s: Seq<char>, c: char)
    ensures
        -1 <= find_char(s, c) < s.len(),
        find_char(s, c) >= 0 ==> s[find_char(s, c)] == c,
        forall|k: int|
            0 <= k < s.len() && (find_char(s, c) < 0 || k < find_char(s, c)) ==> s[k] != c,
    decreases s.len(),
{
    if s.len() > 0 && s[0] != c {
        lemma_find_char(s.drop_first(), c);
        assert forall|k: int|
            0 <= k < s.len() && (find_char(s, c) < 0 || k < find_char(s, c)) implies s[k] != c by {
            if k > 0 {
                assert(s[k] == s.drop_first()[k - 1]);
            }
        }
    }
}

/// Whether `c` is white space as `char::is_whitespace` has it (the Unicode
/// `White_Space` property).
pub open spec fn is_white_space(c: char) -> bool {
    ('\t' <= c && c <= '\r') || c == ' ' || c == '\u{85}' || c == '\u{a0}' || c == '\u{1680}'
        || ('\u{2000}' <= c && c <= '\u{200a}') || c == '\u{2028}' || c == '\u{2029}' || c
        == '\u{202f}' || c == '\u{205f}' || c == '\u{3000}'
}

/// `s` without its leading white space.
pub open spec fn trim_start(s: Seq<char>) -> Seq<char>
    decreases s.len(),
{
    if s.len() > 0 && is_white_space(s[0]) {
        trim_start(s.drop_first())
    } else {
        s
    }
}

/// Whether a line, once trimmed, starts with `marker`.
pub open spec fn is_marker_line(line: Seq<char>, marker: Seq<char>) -> bool {
    marker.is_prefix_of(trim_start(line))
}

/// The index of the first line that starts with `marker`, or -1.
pub open spec fn first_marker(lines: Seq<Seq<char>>, marker: Seq<char>) -> int
    decreases lines.len(),
{
    if lines.len() == 0 {
        -1
    } else if is_marker_line(lines[0], marker) {
        0
    } else if first_marker(lines.drop_first(), marker) < 0 {
        -1
    } else {
        first_marker(lines.drop_first(), marker) + 1
    }
}

/// Lines joined with `\n` between them.
pub open spec fn join_lines(lines: Seq<Seq<char>>) -> Seq<char>
    decreases lines.len(),
{
    if lines.len() == 0 {
        Seq::empty()
    } else if lines.len() == 1 {
        lines[0]
    } else {
        join_lines(lines.drop_last()) + seq!['\n'] + lines.last()
    }
}

/// Whether `sub` occurs in `s`.
pub open spec fn contains_text(s: Seq<char>, sub: Seq<char>) -> bool {
    exists|i: int| 0 <= i <= s.len() - sub.len() && #[trigger] s.subrange(i, i + sub.len()) == sub
}

/// The forward part of a migration script: the lines after the first `-- UP` line, up
/// to the first `-- DOWN` line when that comes later. A script that does not
/// mention `-- UP` at all, or has no line that starts with it, is all forward.
pub open spec fn up_section(content: Seq<char>) -> Seq<char> {
    let lines = text_lines(content);
    let up = first_marker(lines, "-- UP"@);
    let down = first_marker(lines, "-- DOWN"@);
    if !contains_text(content, "-- UP"@) {
        content
    } else if up >= 0 && down >= 0 && up < down {
        join_lines(lines.subrange(up + 1, down))
    } else if up >= 0 && (down < 0 || down < up) {
        join_lines(lines.subrange(up + 1, lines.len() as int))
    } else {
        content
    }
}

/// The rollback part of a migration script: the lines after the first `-- DOWN` line,
/// up to the first `-- UP` line when that comes later; empty without a `-- DOWN` line.
pub open spec fn down_section(content: Seq<char>) -> Seq<char> {
    let lines = text_lines(content);
    let down = first_marker(lines, "-- DOWN"@);
    let up = first_marker(lines, "-- UP"@);
    if down >= 0 && up >= 0 && down < up {
        join_lines(lines.subrange(down + 1, up))
    } else if down >= 0 && (up < 0 || up < down) {
        join_lines(lines.subrange(down + 1, lines.len() as int))
    } else {
        Seq::empty()
    }
}

/// `find_char` gives the position of the first occurrence, when there is one.
pub proof fn lemma_find_char_at(s: Seq<char>, c: char, k: int)
    requires
        0 <= k < s.len(),
        s[k] == c,
        forall|j: int| 0 <= j < k ==> s[j] != c,
    ensures
        find_char(s, c) == k,
{
    lemma_find_char(s, c);
}

pub proof fn lemma_find_char_none(s: Seq<char>, c: char)
    requires
        forall|j: int| 0 <= j < s.len() ==> s[j] != c,
    ensures
        find_char(s, c) == -1,
{
    lemma_find_char(s, c);
}

/// Splits a text into its lines (as `str::lines` does).
fn split_lines(s: &Vec<char>) -> (lines: Vec<Vec<char>>)
    ensures
        lines@.map_values(|l: Vec<char>| l@) == text_lines(s@),
{
    let mut lines: Vec<Vec<char>> = Vec::new();
    let mut cur: Vec<char> = Vec::new();
    let mut start: usize = 0;
    let n = s.len();
    assert(s@.skip(0) == s@);
    assert(lines@.map_values(|l: Vec<char>| l@) + text_lines(s@) =~= text_lines(s@));
    for i in 0..n
        invariant
            n == s.len(),
            start <= i,
            cur@ == s@.subrange(start as int, i as int),
            forall|j: int| start <= j < i ==> s@[j] != '\n',
            text_lines(s@) == lines@.map_values(|l: Vec<char>| l@) + text_lines(
                s@.skip(start as int),
            ),
    {
        if s[i] == '\n' {
            let ghost t = s@.skip(start as int);
            proof {
                lemma_find_char_at(t, '\n', i - start);
                assert(t.take(i - start) == cur@);
                assert(t.skip(i - start + 1) == s@.skip(i + 1));
            }
            let mut line = cur;
            let len = line.len();
            if len > 0 && line[len - 1] == '\r' {
                line.pop();
                assert(line@ == cur@.drop_last());
            }
            let ghost before = lines@.map_values(|l: Vec<char>| l@);
            lines.push(line);
            assert(lines@.map_values(|l: Vec<char>| l@) =~= before.push(strip_cr(cur@)));
            cur = Vec::new();
            start = i + 1;
            assert(cur@ =~= s@.subrange(start as int, (i + 1) as int));
        } else {
            cur.push(s[i]);
            assert(cur@ =~= s@.subrange(start as int, (i + 1) as int));
        }
    }
    let ghost t = s@.skip(start as int);
    if start < n {
        proof {
            lemma_find_char_none(t, '\n');
            assert(t == cur@);
        }
        let ghost before = lines@.map_values(|l: Vec<char>| l@);
        lines.push(cur);
        assert(lines@.map_values(|l: Vec<char>| l@) =~= before.push(t));
    } else {
        assert(t.len() == 0);
    }
    lines
}

/// The index of the first non-white-space character, and the trimmed text.
proof fn lemma_trim_start_skip(s: Seq<char>, k: int)
    requires
        0 <= k <= s.len(),
        forall|j: int| 0 <= j < k ==> is_white_space(s[j]),
    ensures
        trim_start(s) == trim_start(s.skip(k)),
    decreases k,
{
    if k > 0 {
        lemma_trim_start_skip(s.drop_first(), k - 1);
        assert(s.drop_first().skip(k - 1) == s.skip(k));
    } else {
        assert(s.skip(0) == s);
    }
}

pub(crate) fn white_space(c: char) -> (b: bool)
    ensures
        b == is_white_space(c),
{
    ('\t' <= c && c <= '\r') || c == ' ' || c == '\u{85}' || c == '\u{a0}' || c == '\u{1680}'
        || ('\u{2000}' <= c && c <= '\u{200a}') || c == '\u{2028}' || c == '\u{2029}' || c
        == '\u{202f}' || c == '\u{205f}' || c == '\u{3000}'
}

/// Whether a line, once trimmed, starts with `marker`.
fn marker_line(line: &Vec<char>, marker: &Vec<char>) -> (b: bool)
    ensures
        b == is_marker_line(line@, marker@),
{
    let n = line.len();
    let mut k: usize = 0;
    while k < n && white_space(line[k])
        invariant
            n == line.len(),
            k <= n,
            forall|j: int| 0 <= j < k ==> is_white_space(line@[j]),
        decreases n - k,
    {
        k = k + 1;
    }
    proof {
        lemma_trim_start_skip(line@, k as int);
        let t = line@.skip(k as int);
        assert(t.len() == 0 || !is_white_space(t[0]));
        assert(trim_start(t) == t);
    }
    if n - k < marker.len() {
        return false;
    }
    for j in 0..marker.len()
        invariant
            n == line.len(),
            k + marker.len() <= n,
            trim_start(line@) == line@.skip(k as int),
            forall|x: int| 0 <= x < j ==> marker@[x] == line@[k + x],
    {
        if marker[j] != line[k + j] {
            assert(trim_start(line@)[j as int] != marker@[j as int]);
            return false;
        }
    }
    assert(marker@ =~= trim_start(line@).subrange(0, marker@.len() as int));
    true
}

proof fn lemma_first_marker(lines: Seq<Seq<char>>, marker: Seq<char>)
    ensures
        -1 <= first_marker(lines, marker) < lines.len(),
        first_marker(lines, marker) >= 0 ==> is_marker_line(
            lines[first_marker(lines, marker)],
            marker,
        ),
        forall|k: int|
            0 <= k < lines.len() && (first_marker(lines, marker) < 0 || k < first_marker(
                lines,
                marker,
            )) ==> !is_marker_line(#[trigger] lines[k], marker),
    decreases lines.len(),
{
    if lines.len() > 0 && !is_marker_line(lines[0], marker) {
        lemma_first_marker(lines.drop_first(), marker);
        assert forall|k: int|
            0 <= k < lines.len() && (first_marker(lines, marker) < 0 || k < first_marker(
                lines,
                marker,
            )) implies !is_marker_line(#[trigger] lines[k], marker) by {
            if k > 0 {
                assert(lines[k] == lines.drop_first()[k - 1]);
            }
        }
    }
}

/// The index of the first line that starts with `marker`.
fn find_marker(lines: &Vec<Vec<char>>, marker: &Vec<char>) -> (r: Option<usize>)
    ensures
        match r {
            Some(k) => k == first_marker(lines@.map_values(|l: Vec<char>| l@), marker@) && k
                < lines.len(),
            None => first_marker(lines@.map_values(|l: Vec<char>| l@), marker@) == -1,
        },
{
    let ghost ls = lines@.map_values(|l: Vec<char>| l@);
    proof {
        lemma_first_marker(ls, marker@);
    }
    for k in 0..lines.len()
        invariant
            ls == lines@.map_values(|l: Vec<char>| l@),
            ls.len() == lines@.len(),
            forall|j: int| 0 <= j < k ==> !is_marker_line(#[trigger] ls[j], marker@),
            -1 <= first_marker(ls, marker@) < ls.len(),
            first_marker(ls, marker@) >= 0 ==> is_marker_line(ls[first_marker(ls, marker@)], marker@),
            forall|j: int|
                0 <= j < ls.len() && (first_marker(ls, marker@) < 0 || j < first_marker(
                    ls,
                    marker@,
                )) ==> !is_marker_line(#[trigger] ls[j], marker@),
    {
        if marker_line(&lines[k], marker) {
            assert(is_marker_line(ls[k as int], marker@));
            return Some(k);
        }
    }
    None
}

/// Joins `lines[a..b]` with `\n` between them.
fn join_range(lines: &Vec<Vec<char>>, a: usize, b: usize) -> (s: String)
    requires
        a <= b <= lines.len(),
    ensures
        s@ == join_lines(lines@.map_values(|l: Vec<char>| l@).subrange(a as int, b as int)),
{
    let ghost ls = lines@.map_values(|l: Vec<char>| l@);
    let mut s = String::new();
    for k in a..b
        invariant
            ls == lines@.map_values(|l: Vec<char>| l@),
            ls.len() == lines@.len(),
            b <= lines.len(),
            s@ == join_lines(ls.subrange(a as int, k as int)),
    {
        if k > a {
            push_char(&mut s, '\n');
        }
        let line = &lines[k];
        let ghost mid = s@;
        for j in 0..line.len()
            invariant
                s@ == mid + line@.take(j as int),
        {
            push_char(&mut s, line[j]);
            assert(line@.take(j + 1) == line@.take(j as int).push(line@[j as int]));
        }
        assert(line@.take(line.len() as int) == line@);
        let ghost sub = ls.subrange(a as int, k + 1);
        assert(sub.drop_last() == ls.subrange(a as int, k as int));
        assert(sub.last() == line@);
        if k == a {
            assert(sub.len() == 1);
            assert(s@ == join_lines(sub));
        }
    }
    s
}

/// Whether `sub` occurs in `s`.
fn contains_chars(s: &Vec<char>, sub: &Vec<char>) -> (b: bool)
    ensures
        b == contains_text(s@, sub@),
{
    if sub.len() > s.len() {
        return false;
    }
    let last = s.len() - sub.len();
    let mut i: usize = 0;
    while i <= last
        invariant
            last == s.len() - sub.len(),
            sub.len() <= s.len(),
            i <= last + 1,
            forall|k: int| 0 <= k < i ==> #[trigger] s@.subrange(k, k + sub@.len()) != sub@,
        decreases last + 1 - i,
    {
        let mut same = true;
        for j in 0..sub.len()
            invariant
                i <= last,
                last == s.len() - sub.len(),
                same <==> forall|x: int| 0 <= x < j ==> s@[i + x] == sub@[x],
        {
            if s[i + j] != sub[j] {
                same = false;
            }
        }
        if same {
            assert(s@.subrange(i as int, i + sub@.len()) =~= sub@);
            return true;
        }
        assert(s@.subrange(i as int, i + sub@.len())[0] == s@[i as int]);
        assert(!(s@.subrange(i as int, i + sub@.len()) =~= sub@));
        i = i + 1;
    }
    false
}

fn copy_text(s: &str) -> (r: String)
    ensures
        r@ == s@,
{
    String::from_str(s)
}

/// The forward SQL of a migration script (see [`up_section`]).
pub fn parse_up_section(content: &str) -> (r: String)
    ensures
        r@ == up_section(content@),
{
    let cs = chars_of(content);
    let up_marker = chars_of("-- UP");
    let down_marker = chars_of("-- DOWN");
    if !contains_chars(&cs, &up_marker) {
        return copy_text(content);
    }
    let lines = split_lines(&cs);
    let up = find_marker(&lines, &up_marker);
    let down = find_marker(&lines, &down_marker);
    match (up, down) {
        (Some(u), Some(d)) => {
            if u < d {
                join_range(&lines, u + 1, d)
            } else if d < u {
                join_range(&lines, u + 1, lines.len())
            } else {
                copy_text(content)
            }
        },
        (Some(u), None) => join_range(&lines, u + 1, lines.len()),
        _ => copy_text(content),
    }
}

/// The rollback SQL of a migration script (see [`down_section`]).
pub fn parse_down_section(content: &str) -> (r: String)
    ensures
        r@ == down_section(content@),
{
    let cs = chars_of(content);
    let up_marker = chars_of("-- UP");
    let down_marker = chars_of("-- DOWN");
    let lines = split_lines(&cs);
    let down = find_marker(&lines, &down_marker);
    let up = find_marker(&lines, &up_marker);
    match (down, up) {
        (Some(d), Some(u)) => {
            if d < u {
                join_range(&lines, d + 1, u)
            } else if u < d {
                join_range(&lines, d + 1, lines.len())
            } else {
                String::new()
            }
        },
        (Some(d), None) => join_range(&lines, d + 1, lines.len()),
        _ => String::new(),
    }
}

// ---------------------------------------------------------------------------
// The law of script sections
// ---------------------------------------------------------------------------

proof fn lemma_first_marker_at(lines: Seq<Seq<char>>, marker: Seq<char>, k: int)
    requires
        0 <= k < lines.len(),
        is_marker_line(lines[k], marker),
        forall|j: int| 0 <= j < k ==> !is_marker_line(#[trigger] lines[j], marker),
    ensures
        first_marker(lines, marker) == k,
{
    lemma_first_marker(lines, marker);
}

proof fn lemma_first_line_is_prefix(s: Seq<char>)
    requires
        text_lines(s).len() > 0,
    ensures
        text_lines(s)[0].is_prefix_of(s),
{
    let i = find_char(s, '\n');
    lemma_find_char(s, '\n');
    if i >= 0 {
        let l = s.take(i);
        assert(strip_cr(l).is_prefix_of(l));
    }
}

/// A migration script made of a `-- UP` line, the forward lines, a `-- DOWN` line and
/// the rollback lines (none of them a marker line) splits back into its two parts:
/// the forward part is the forward lines, the rollback part the rollback lines.
pub proof fn law_script_sections(content: Seq<char>, ups: Seq<Seq<char>>, downs: Seq<Seq<char>>)
    requires
        text_lines(content) == seq!["-- UP"@] + ups + seq!["-- DOWN"@] + downs,
        forall|i: int|
            0 <= i < ups.len() ==> !is_marker_line(#[trigger] ups[i], "-- UP"@)
                && !is_marker_line(ups[i], "-- DOWN"@),
        forall|i: int|
            0 <= i < downs.len() ==> !is_marker_line(#[trigger] downs[i], "-- UP"@)
                && !is_marker_line(downs[i], "-- DOWN"@),
    ensures
        up_section(content) == join_lines(ups),
        down_section(content) == join_lines(downs),
{
    reveal_strlit("-- UP");
    reveal_strlit("-- DOWN");
    let lines = text_lines(content);
    let up_m = "-- UP"@;
    let down_m = "-- DOWN"@;
    let d: int = ups.len() as int + 1;
    assert(lines[0] == up_m);
    assert(lines[d] == down_m);
    assert(trim_start(up_m) == up_m);
    assert(trim_start(down_m) == down_m);
    assert(is_marker_line(up_m, up_m)) by {
        assert(up_m.is_prefix_of(up_m));
    }
    assert(is_marker_line(down_m, down_m));
    assert(!is_marker_line(up_m, down_m));
    assert(!is_marker_line(down_m, up_m)) by {
        assert(down_m[3] != up_m[3]);
    }
    lemma_first_marker_at(lines, up_m, 0);
    assert forall|j: int| 0 <= j < d implies !is_marker_line(#[trigger] lines[j], down_m) by {
        if j > 0 {
            assert(lines[j] == ups[j - 1]);
        }
    }
    lemma_first_marker_at(lines, down_m, d);
    lemma_first_line_is_prefix(content);
    assert(content.subrange(0, up_m.len() as int) == up_m);
    let z: int = 0;
    assert(content.subrange(z, z + up_m.len()) == up_m);
    assert(0 <= content.len() - up_m.len());
    assert(contains_text(content, up_m));
    assert(lines.subrange(1, d) =~= ups);
    assert(lines.subrange(d + 1, lines.len() as int) =~= downs);
}

// ---------------------------------------------------------------------------
// Migration file names
// ---------------------------------------------------------------------------

/// Whether all characters of `s` are ASCII digits.
pub open spec fn all_digits(s: Seq<char>) -> bool {
    forall|i: int| 0 <= i < s.len() ==> '0' <= #[trigger] s[i] && s[i] <= '9'
}

/// The `(version, name)` of a migration file named `YYYYMMDD_HHMMSS_name.sql`:
/// the version is the file name without `.sql`, the name what follows the second `_`.
/// The error is the message of the refusal.
pub open spec fn migration_file_parts(f: Seq<char>) -> Result<(Seq<char>, Seq<char>), Seq<char>> {
    if !(".sql"@.is_suffix_of(f)) {
        Err("invalid migration filename: "@ + f)
    } else {
        let stem = f.take(f.len() - 4);
        let i1 = find_char(stem, '_');
        let rest = stem.skip(i1 + 1);
        let i2 = find_char(rest, '_');
        let bad = Err(
            "invalid migration filename format: "@ + f
                + ". Expected YYYYMMDD_HHMMSS_name.sql"@,
        );
        if i1 < 0 || i2 < 0 {
            bad
        } else if stem.take(i1).len() == 8 && all_digits(stem.take(i1)) && rest.take(i2).len()
            == 6 && all_digits(rest.take(i2)) {
            Ok((stem, rest.skip(i2 + 1)))
        } else {
            bad
        }
    }
}

fn find_char_in(s: &Vec<char>, from: usize, c: char) -> (r: Option<usize>)
    requires
        from <= s.len(),
    ensures
        match r {
            Some(k) => from <= k < s.len() && k - from == find_char(s@.skip(from as int), c),
            None => find_char(s@.skip(from as int), c) == -1,
        },
{
    for k in from..s.len()
        invariant
            from <= s.len(),
            forall|j: int| from <= j < k ==> s@[j] != c,
    {
        if s[k] == c {
            proof {
                lemma_find_char_at(s@.skip(from as int), c, k - from);
            }
            return Some(k);
        }
    }
    proof {
        lemma_find_char_none(s@.skip(from as int), c);
    }
    None
}

fn string_of(s: &Vec<char>, a: usize, b: usize) -> (r: String)
    requires
        a <= b <= s.len(),
    ensures
        r@ == s@.subrange(a as int, b as int),
{
    let mut r = String::new();
    for k in a..b
        invariant
            b <= s.len(),
            r@ == s@.subrange(a as int, k as int),
    {
        push_char(&mut r, s[k]);
        assert(s@.subrange(a as int, k + 1) == s@.subrange(a as int, k as int).push(s@[k as int]));
    }
    r
}

fn digits_in(s: &Vec<char>, a: usize, b: usize) -> (r: bool)
    requires
        a <= b <= s.len(),
    ensures
        r == all_digits(s@.subrange(a as int, b as int)),
{
    for k in a..b
        invariant
            b <= s.len(),
            forall|j: int| a <= j < k ==> '0' <= s@[j] && s@[j] <= '9',
    {
        if !('0' <= s[k] && s[k] <= '9') {
            assert(!('0' <= s@.subrange(a as int, b as int)[k - a] && s@.subrange(
                a as int,
                b as int,
            )[k - a] <= '9'));
            return false;
        }
    }
    true
}

/// Checks a migration file name against the `YYYYMMDD_HHMMSS_name.sql` rule and
/// splits it into its version (the name without `.sql`) and its name.
pub fn parse_migration_file_name(file_name: &str) -> (r: Result<(String, String), DbError>)
    ensures
        migration_file_parts(file_name@) matches Ok((v, n)) ==> (r matches Ok((rv, rn)) && rv@
            == v && rn@ == n),
        migration_file_parts(file_name@) matches Err(m) ==> (r matches Err(DbError::PoolError(e))
            && e@ == m),
{
    proof {
        reveal_strlit(".sql");
    }
    let f = chars_of(file_name);
    let n = f.len();
    let has_suffix = n >= 4 && f[n - 4] == '.' && f[n - 3] == 's' && f[n - 2] == 'q' && f[n - 1]
        == 'l';
    assert(has_suffix == ".sql"@.is_suffix_of(f@)) by {
        if n >= 4 {
            if ".sql"@.is_suffix_of(f@) {
                assert(f@.subrange(n - 4, n as int) == ".sql"@);
                assert(f@[n - 4] == f@.subrange(n - 4, n as int)[0]);
                assert(f@[n - 3] == f@.subrange(n - 4, n as int)[1]);
                assert(f@[n - 2] == f@.subrange(n - 4, n as int)[2]);
                assert(f@[n - 1] == f@.subrange(n - 4, n as int)[3]);
            }
            if has_suffix {
                assert(f@.subrange(n - 4, n as int) =~= ".sql"@);
            }
        }
    }
    if !has_suffix {
        return Err(DbError::PoolError(concat2("invalid migration filename: ", file_name)));
    }
    let stem_len = n - 4;
    let ghost stem = f@.take(stem_len as int);
    let mut bad = concat2("invalid migration filename format: ", file_name);
    bad.append(". Expected YYYYMMDD_HHMMSS_name.sql");
    let stem_v = {
        let mut v: Vec<char> = Vec::new();
        for k in 0..stem_len
            invariant
                stem_len <= f.len(),
                v@ == f@.take(k as int),
        {
            v.push(f[k]);
            assert(f@.take(k + 1) == f@.take(k as int).push(f@[k as int]));
        }
        v
    };
    assert(stem_v@ == stem);
    match find_char_in(&stem_v, 0, '_') {
        None => {
            assert(stem_v@.skip(0) == stem);
            Err(DbError::PoolError(bad))
        },
        Some(i1) => {
            assert(stem_v@.skip(0) == stem);
            let ghost rest = stem.skip(i1 + 1);
            match find_char_in(&stem_v, i1 + 1, '_') {
                None => Err(DbError::PoolError(bad)),
                Some(i2) => {
                    assert(stem.take(i1 as int) == stem_v@.subrange(0, i1 as int));
                    assert(rest.take(i2 - i1 - 1) == stem_v@.subrange(i1 + 1, i2 as int));
                    assert(rest.skip(i2 - i1) == stem_v@.subrange(i2 + 1, stem_len as int));
                    if i1 == 8 && digits_in(&stem_v, 0, i1) && i2 - i1 - 1 == 6 && digits_in(
                        &stem_v,
                        i1 + 1,
                        i2,
                    ) {
                        let version = string_of(&stem_v, 0, stem_len);
                        let name = string_of(&stem_v, i2 + 1, stem_len);
                        assert(stem_v@.subrange(0, stem_len as int) == stem);
                        Ok((version, name))
                    } else {
                        Err(DbError::PoolError(bad))
                    }
                },
            }
        },
    }
}

// ---------------------------------------------------------------------------
// Applying and rolling back
// ---------------------------------------------------------------------------

/// The checksum recorded for a migration script: the lowercase hexadecimal SHA-256
/// digest of its UTF-8 bytes.
pub fn migration_checksum(sql: &str) -> (r: String)
    ensures
        r@ == lower_hex(sha256(vstd::utf8::encode_utf8(sql@))),
{
    sha256_hex(sql)
}

/// What to do with a migration file whose checksum is `checksum`, given the checksum
/// recorded when it was applied (if it was): `Ok(true)` to apply it, `Ok(false)` to
/// skip it as already applied, or a migration error when the recorded checksum differs,
/// that is when an applied script was edited.
pub fn migration_action(version: &str, stored: Option<&str>, checksum: &str) -> (r: Result<
    bool,
    DbError,
>)
    ensures
        stored is None ==> r == Ok::<bool, DbError>(true),
        stored is Some && stored.unwrap()@ == checksum@ ==> r == Ok::<bool, DbError>(false),
        stored is Some && stored.unwrap()@ != checksum@ ==> (r matches Err(
            DbError::MigrationError(m),
        ) && m@ == "checksum mismatch for migration '"@ + version@ + "': expected "@
            + stored.unwrap()@ + ", got "@ + checksum@),
{
    match stored {
        None => Ok(true),
        Some(s) => {
            if str_eq(s, checksum) {
                Ok(false)
            } else {
                let mut m = concat2("checksum mismatch for migration '", version);
                m.append("': expected ");
                m.append(s);
                m.append(", got ");
                m.append(checksum);
                Err(DbError::MigrationError(m))
            }
        },
    }
}

/// The file that holds the migration `version`.
pub fn migration_file_name(version: &str) -> (r: String)
    ensures
        r@ == version@ + ".sql"@,
{
    concat2(version, ".sql")
}

/// Whether a text holds only white space (is empty once trimmed).
pub open spec fn is_blank(s: Seq<char>) -> bool {
    forall|i: int| 0 <= i < s.len() ==> is_white_space(#[trigger] s[i])
}

/// The rollback SQL of the script of migration `version`: its `-- DOWN` section, or an
/// error when that section is missing or blank.
pub fn rollback_sql(version: &str, content: &str) -> (r: Result<String, DbError>)
    ensures
        !is_blank(down_section(content@)) ==> (r matches Ok(s) && s@ == down_section(content@)),
        is_blank(down_section(content@)) ==> (r matches Err(DbError::PoolError(m)) && m@
            == "no -- DOWN section found in migration "@ + version@),
{
    let down = parse_down_section(content);
    let cs = chars_of(down.as_str());
    let mut blank = true;
    for i in 0..cs.len()
        invariant
            blank <==> forall|k: int| 0 <= k < i ==> is_white_space(#[trigger] cs@[k]),
    {
        if !white_space(cs[i]) {
            blank = false;
        }
    }
    if blank {
        Err(DbError::PoolError(concat2("no -- DOWN section found in migration ", version)))
    } else {
        Ok(down)
    }
}

/// The lines that the `migrate` command prints for the versions it applied.
pub open spec fn report_lines(applied: Seq<Seq<char>>) -> Seq<Seq<char>> {
    if applied.len() == 0 {
        seq!["No pending migrations."@]
    } else {
        applied.map_values(|v: Seq<char>| "Applied migration: "@ + v)
    }
}

/// What the `migrate` command prints: one line per applied version, or a line saying
/// that nothing was pending.
pub fn migrate_report(applied: &Vec<String>) -> (r: Vec<String>)
    ensures
        r@.map_values(|l: String| l@) == report_lines(applied@.map_values(|v: String| v@)),
{
    let ghost vs = applied@.map_values(|v: String| v@);
    let mut r: Vec<String> = Vec::new();
    if applied.len() == 0 {
        r.push(String::from_str("No pending migrations."));
        assert(r@.map_values(|l: String| l@) =~= seq!["No pending migrations."@]);
        return r;
    }
    for k in 0..applied.len()
        invariant
            vs == applied@.map_values(|v: String| v@),
            r@.map_values(|l: String| l@) == vs.take(k as int).map_values(
                |v: Seq<char>| "Applied migration: "@ + v,
            ),
    {
        let ghost before = r@;
        let line = concat2("Applied migration: ", applied[k].as_str());
        r.push(line);
        assert(r@ == before.push(line));
        assert(vs[k as int] == applied@[k as int]@);
        assert(vs.take(k + 1) == vs.take(k as int).push(vs[k as int]));
        assert(r@.map_values(|l: String| l@) =~= before.map_values(|l: String| l@).push(line@));
        assert(vs.take(k + 1).map_values(|v: Seq<char>| "Applied migration: "@ + v) =~= vs.take(
            k as int,
        ).map_values(|v: Seq<char>| "Applied migration: "@ + v).push(
            "Applied migration: "@ + vs[k as int],
        ));
    }
    assert(vs.take(applied.len() as int) == vs);
    r
}

/// The file that a version is kept in names that version back: for a version
/// `YYYYMMDD_HHMMSS_name`, the file `version.sql` reads as that version and name.
pub proof fn law_file_name_roundtrip(date: Seq<char>, time: Seq<char>, name: Seq<char>)
    requires
        date.len() == 8,
        all_digits(date),
        time.len() == 6,
        all_digits(time),
    ensures
        ({
            let version = date + "_"@ + time + "_"@ + name;
            migration_file_parts(version + ".sql"@) == Ok::<(Seq<char>, Seq<char>), Seq<char>>(
                (version, name),
            )
        }),
{
    reveal_strlit("_");
    reveal_strlit(".sql");
    let version = date + "_"@ + time + "_"@ + name;
    let f = version + ".sql"@;
    assert(f.subrange(f.len() - 4, f.len() as int) =~= ".sql"@);
    let stem = f.take(f.len() - 4);
    assert(stem =~= version);
    assert(version[8] == '_');
    assert forall|j: int| 0 <= j < 8 implies version[j] != '_' by {
        assert(version[j] == date[j]);
    }
    lemma_find_char_at(version, '_', 8);
    let rest = version.skip(9);
    assert(rest =~= time + "_"@ + name);
    assert(rest[6] == '_');
    assert forall|j: int| 0 <= j < 6 implies rest[j] != '_' by {
        assert(rest[j] == time[j]);
    }
    lemma_find_char_at(rest, '_', 6);
    assert(stem.take(8) =~= date);
    assert(rest.take(6) =~= time);
    assert(rest.skip(7) =~= name);
}

/// Whether `a` comes no later than `b` in the order of their characters (the order
/// of their UTF-8 bytes): the first differing character decides, and a text comes
/// before its extensions.
pub open spec fn text_le(a: Seq<char>, b: Seq<char>) -> bool
    decreases a.len(),
{
    if a.len() == 0 {
        true
    } else if b.len() == 0 {
        false
    } else if a[0] != b[0] {
        a[0] < b[0]
    } else {
        text_le(a.drop_first(), b.drop_first())
    }
}

/// Of two texts, one comes no later than the other.
pub proof fn lemma_text_le_total(a: Seq<char>, b: Seq<char>)
    ensures
        text_le(a, b) || text_le(b, a),
    decreases a.len(),
{
    if a.len() > 0 && b.len() > 0 && a[0] == b[0] {
        lemma_text_le_total(a.drop_first(), b.drop_first());
    }
}

/// The order of texts is transitive.
pub proof fn lemma_text_le_transitive(a: Seq<char>, b: Seq<char>, c: Seq<char>)
    requires
        text_le(a, b),
        text_le(b, c),
    ensures
        text_le(a, c),
    decreases a.len(),
{
    if a.len() > 0 && b.len() > 0 && c.len() > 0 && a[0] == b[0] && b[0] == c[0] {
        lemma_text_le_transitive(a.drop_first(), b.drop_first(), c.drop_first());
    }
}

fn string_le(a: &String, b: &String) -> (r: bool)
    ensures
        r == text_le(a@, b@),
{
    let x = chars_of(a.as_str());
    let y = chars_of(b.as_str());
    let mut k: usize = 0;
    assert(x@.skip(0) == x@);
    assert(y@.skip(0) == y@);
    while k < x.len() && k < y.len() && x[k] == y[k]
        invariant
            k <= x.len(),
            k <= y.len(),
            x@ == a@,
            y@ == b@,
            text_le(a@, b@) == text_le(x@.skip(k as int), y@.skip(k as int)),
        decreases x.len() - k,
    {
        assert(x@.skip(k as int).drop_first() == x@.skip(k + 1));
        assert(y@.skip(k as int).drop_first() == y@.skip(k + 1));
        assert(x@.skip(k as int)[0] == x@[k as int]);
        assert(y@.skip(k as int)[0] == y@[k as int]);
        k = k + 1;
    }
    if k == x.len() {
        return true;
    }
    if k == y.len() {
        return false;
    }
    assert(x@.skip(k as int)[0] == x@[k as int]);
    assert(y@.skip(k as int)[0] == y@[k as int]);
    x[k] < y[k]
}

/// Whether a directory entry is a migration script: its name has the extension `sql`
/// (it ends in `.sql` after a non-empty stem).
pub open spec fn is_script_name(n: Seq<char>) -> bool {
    n.len() > 4 && ".sql"@.is_suffix_of(n)
}

/// The names of the migration scripts among `names`, in their order.
pub open spec fn script_names(names: Seq<Seq<char>>) -> Seq<Seq<char>>
    decreases names.len(),
{
    if names.len() == 0 {
        seq![]
    } else if is_script_name(names.last()) {
        script_names(names.drop_last()).push(names.last())
    } else {
        script_names(names.drop_last())
    }
}

/// Whether texts are in order.
pub open spec fn sorted_texts(s: Seq<Seq<char>>) -> bool {
    forall|i: int, j: int| 0 <= i < j < s.len() ==> text_le(#[trigger] s[i], #[trigger] s[j])
}

fn script_name(n: &String) -> (b: bool)
    ensures
        b == is_script_name(n@),
{
    let f = chars_of(n.as_str());
    let k = f.len();
    proof {
        reveal_strlit(".sql");
    }
    let b = k > 4 && f[k - 4] == '.' && f[k - 3] == 's' && f[k - 2] == 'q' && f[k - 1] == 'l';
    proof {
        if k > 4 {
            if ".sql"@.is_suffix_of(f@) {
                assert(f@.subrange(k - 4, k as int) == ".sql"@);
                assert(f@[k - 4] == f@.subrange(k - 4, k as int)[0]);
                assert(f@[k - 3] == f@.subrange(k - 4, k as int)[1]);
                assert(f@[k - 2] == f@.subrange(k - 4, k as int)[2]);
                assert(f@[k - 1] == f@.subrange(k - 4, k as int)[3]);
            }
            if b {
                assert(f@.subrange(k - 4, k as int) =~= ".sql"@);
            }
        }
    }
    b
}

/// The migration scripts of a directory, given the names of its entries, in the order
/// in which they are applied: by name, character by character.
pub fn pending_order(names: Vec<String>) -> (r: Vec<String>)
    ensures
        sorted_texts(r@.map_values(|p: String| p@)),
        r@.map_values(|p: String| p@).to_multiset() == script_names(
            names@.map_values(|p: String| p@),
        ).to_multiset(),
{
    broadcast use vstd::seq_lib::group_to_multiset_ensures;

    let ghost ns = names@.map_values(|p: String| p@);
    let mut out: Vec<String> = Vec::new();
    let n = names.len();
    let mut k: usize = 0;
    while k < n
        invariant
            n == names.len(),
            k <= n,
            ns == names@.map_values(|p: String| p@),
            sorted_texts(out@.map_values(|p: String| p@)),
            out@.map_values(|p: String| p@).to_multiset() == script_names(ns.take(k as int)).to_multiset(),
        decreases n - k,
    {
        assert(ns.take(k + 1).drop_last() == ns.take(k as int));
        assert(ns.take(k + 1).last() == ns[k as int]);
        let x = names[k].clone();
        assert(x@ == ns[k as int]);
        if script_name(&x) {
            let ghost om = out@.map_values(|p: String| p@);
            let mut p: usize = 0;
            while p < out.len() && string_le(&out[p], &x)
                invariant
                    p <= out.len(),
                    om == out@.map_values(|q: String| q@),
                    forall|q: int| 0 <= q < p ==> text_le(#[trigger] om[q], x@),
                decreases out.len() - p,
            {
                p = p + 1;
            }
            proof {
                if p < out.len() {
                    lemma_text_le_total(om[p as int], x@);
                }
            }
            out.insert(p, x);
            let ghost nm = out@.map_values(|q: String| q@);
            assert(nm =~= om.insert(p as int, x@));
            assert forall|i: int, j: int| 0 <= i < j < nm.len() implies text_le(
                #[trigger] nm[i],
                #[trigger] nm[j],
            ) by {
                if j < p {
                    assert(nm[i] == om[i] && nm[j] == om[j]);
                } else if j == p {
                    assert(nm[i] == om[i]);
                } else if i < p {
                    assert(nm[i] == om[i] && nm[j] == om[j - 1]);
                    assert(text_le(om[i], x@));
                    assert(text_le(x@, om[p as int]));
                    if p < j - 1 {
                        assert(text_le(om[p as int], om[j - 1]));
                        lemma_text_le_transitive(x@, om[p as int], om[j - 1]);
                    }
                    lemma_text_le_transitive(om[i], x@, om[j - 1]);
                } else if i == p {
                    assert(nm[j] == om[j - 1]);
                    if p < j - 1 {
                        assert(text_le(om[p as int], om[j - 1]));
                        lemma_text_le_transitive(x@, om[p as int], om[j - 1]);
                    }
                } else {
                    assert(nm[i] == om[i - 1] && nm[j] == om[j - 1]);
                }
            }
            proof {
                vstd::seq_lib::to_multiset_insert(om, p as int, x@);
                vstd::seq_lib::to_multiset_build(script_names(ns.take(k as int)), x@);
            }
            assert(script_names(ns.take(k + 1)) == script_names(ns.take(k as int)).push(x@));
        } else {
            assert(script_names(ns.take(k + 1)) == script_names(ns.take(k as int)));
        }
        k = k + 1;
    }
    assert(ns.take(n as int) == ns);
    out
}

// ---------------------------------------------------------------------------
// Planning a run of pending migrations
// ---------------------------------------------------------------------------

/// A migration script: its file name and its text.
pub struct ScriptFile {
    pub file_name: String,
    pub content: String,
}

/// A recorded migration: its version and the checksum it was applied with.
pub struct AppliedMigration {
    pub version: String,
    pub checksum: String,
}

/// A migration to apply: its version, name and checksum (as they are recorded) and
/// its forward SQL.
pub struct PlannedMigration {
    pub version: String,
    pub name: String,
    pub checksum: String,
    pub up_sql: String,
}

/// The mathematical value of a [`PlannedMigration`].
pub struct PlannedModel {
    pub version: Seq<char>,
    pub name: Seq<char>,
    pub checksum: Seq<char>,
    pub up_sql: Seq<char>,
}

/// Why a run of migrations cannot be planned.
pub enum PlanFailure {
    /// A script's file name does not follow `YYYYMMDD_HHMMSS_name.sql`.
    BadName(Seq<char>),
    /// A script changed since it was applied.
    Mismatch(Seq<char>),
}

/// The checksum of a script: the lowercase hex SHA-256 digest of its UTF-8 text.
pub open spec fn script_checksum(content: Seq<char>) -> Seq<char> {
    lower_hex(sha256(vstd::utf8::encode_utf8(content)))
}

/// The checksum recorded for `version`: that of the first record of it.
pub open spec fn recorded_checksum(rec: Seq<(Seq<char>, Seq<char>)>, version: Seq<char>) -> Option<
    Seq<char>,
>
    decreases rec.len(),
{
    if rec.len() == 0 {
        None
    } else if rec[0].0 == version {
        Some(rec[0].1)
    } else {
        recorded_checksum(rec.drop_first(), version)
    }
}

/// The message of a changed script.
pub open spec fn mismatch_message(v: Seq<char>, stored: Seq<char>, checksum: Seq<char>) -> Seq<char> {
    "checksum mismatch for migration '"@ + v + "': expected "@ + stored + ", got "@ + checksum
}

/// The migrations to apply from the scripts `files`, taken in their order, given the
/// records `rec`: a script whose version is recorded with its checksum is skipped,
/// one recorded with another checksum stops the run, and any other is applied and
/// recorded (so a later script of the same version sees it). A script with a bad name
/// stops the run too.
pub open spec fn plan_from(files: Seq<(Seq<char>, Seq<char>)>, rec: Seq<(Seq<char>, Seq<char>)>) -> Result<
    Seq<PlannedModel>,
    PlanFailure,
>
    decreases files.len(),
{
    if files.len() == 0 {
        Ok(seq![])
    } else {
        let f = files[0];
        match migration_file_parts(f.0) {
            Err(m) => Err(PlanFailure::BadName(m)),
            Ok((v, n)) => {
                let c = script_checksum(f.1);
                match recorded_checksum(rec, v) {
                    Some(stored) => if stored == c {
                        plan_from(files.drop_first(), rec)
                    } else {
                        Err(PlanFailure::Mismatch(mismatch_message(v, stored, c)))
                    },
                    None => match plan_from(files.drop_first(), rec.push((v, c))) {
                        Ok(ps) => Ok(
                            seq![PlannedModel { version: v, name: n, checksum: c, up_sql: up_section(f.1) }]
                                + ps,
                        ),
                        Err(e) => Err(e),
                    },
                }
            },
        }
    }
}

/// The records that applying planned migrations adds.
pub open spec fn records_of(ps: Seq<PlannedModel>) -> Seq<(Seq<char>, Seq<char>)> {
    ps.map_values(|p: PlannedModel| (p.version, p.checksum))
}

/// The values of script files.
pub open spec fn files_model(v: Seq<ScriptFile>) -> Seq<(Seq<char>, Seq<char>)> {
    v.map_values(|f: ScriptFile| (f.file_name@, f.content@))
}

/// The values of records.
pub open spec fn records_model(v: Seq<AppliedMigration>) -> Seq<(Seq<char>, Seq<char>)> {
    v.map_values(|a: AppliedMigration| (a.version@, a.checksum@))
}

/// The value of a planned migration.
pub open spec fn planned_model(p: PlannedMigration) -> PlannedModel {
    PlannedModel { version: p.version@, name: p.name@, checksum: p.checksum@, up_sql: p.up_sql@ }
}

/// A plan with `done` before what `rest` gives.
pub open spec fn after(done: Seq<PlannedModel>, rest: Result<Seq<PlannedModel>, PlanFailure>) -> Result<
    Seq<PlannedModel>,
    PlanFailure,
> {
    match rest {
        Ok(ps) => Ok(done + ps),
        Err(e) => Err(e),
    }
}

/// Whether a planning result is the one that `p` describes: the same migrations, or
/// the refusal as an error (`PoolError` for a bad name, `MigrationError` for a changed
/// script) with its message.
pub open spec fn plan_result(
    r: Result<Vec<PlannedMigration>, DbError>,
    p: Result<Seq<PlannedModel>, PlanFailure>,
) -> bool {
    match p {
        Ok(ps) => r matches Ok(v) && v@.map_values(|q: PlannedMigration| planned_model(q)) == ps,
        Err(PlanFailure::BadName(m)) => r matches Err(DbError::PoolError(e)) && e@ == m,
        Err(PlanFailure::Mismatch(m)) => r matches Err(DbError::MigrationError(e)) && e@ == m,
    }
}

fn recorded_checksum_in(rec: &Vec<AppliedMigration>, version: &String) -> (r: Option<String>)
    ensures
        match r {
            Some(c) => recorded_checksum(records_model(rec@), version@) == Some(c@),
            None => recorded_checksum(records_model(rec@), version@) is None,
        },
{
    let ghost m = records_model(rec@);
    assert(m.skip(0) == m);
    for k in 0..rec.len()
        invariant
            m == records_model(rec@),
            m.len() == rec.len(),
            recorded_checksum(m, version@) == recorded_checksum(m.skip(k as int), version@),
    {
        let ghost rest = m.skip(k as int);
        assert(rest[0] == m[k as int]);
        assert(rest.drop_first() == m.skip(k + 1));
        if str_eq(rec[k].version.as_str(), version.as_str()) {
            return Some(rec[k].checksum.clone());
        }
    }
    assert(m.skip(rec.len() as int).len() == 0);
    None
}

/// Plans a run of pending migrations (see [`plan_from`]): the scripts, in the order in
/// which they are applied, and the migrations recorded so far. A bad file name is
/// refused as `parse_migration_file_name` refuses it, a changed script as
/// `migration_action` refuses it.
pub fn plan_pending(files: &Vec<ScriptFile>, recorded: Vec<AppliedMigration>) -> (r: Result<
    Vec<PlannedMigration>,
    DbError,
>)
    ensures
        plan_result(r, plan_from(files_model(files@), records_model(recorded@))),
{
    let ghost fm = files_model(files@);
    let ghost rec0 = records_model(recorded@);
    let mut rec = recorded;
    let mut out: Vec<PlannedMigration> = Vec::new();
    assert(fm.skip(0) == fm);
    assert(out@.map_values(|p: PlannedMigration| planned_model(p)) =~= Seq::<PlannedModel>::empty());
    for k in 0..files.len()
        invariant
            fm == files_model(files@),
            fm.len() == files.len(),
            rec0 == records_model(recorded@),
            plan_from(fm, rec0) == after(
                out@.map_values(|p: PlannedMigration| planned_model(p)),
                plan_from(fm.skip(k as int), records_model(rec@)),
            ),
    {
        let ghost rest = fm.skip(k as int);
        let ghost done = out@.map_values(|p: PlannedMigration| planned_model(p));
        assert(rest[0] == fm[k as int]);
        assert(rest.drop_first() == fm.skip(k + 1));
        let f = &files[k];
        assert(fm[k as int] == (f.file_name@, f.content@));
        let (version, name) = match parse_migration_file_name(f.file_name.as_str()) {
            Ok(p) => p,
            Err(e) => {
                assert(migration_file_parts(rest[0].0) is Err);
                assert(plan_from(rest, records_model(rec@)) == Err::<Seq<PlannedModel>, PlanFailure>(
                    PlanFailure::BadName(migration_file_parts(rest[0].0)->Err_0),
                ));
                return Err(e);
            },
        };
        let checksum = migration_checksum(f.content.as_str());
        match recorded_checksum_in(&rec, &version) {
            Some(stored) => {
                match migration_action(version.as_str(), Some(stored.as_str()), checksum.as_str()) {
                    Ok(_) => {},
                    Err(e) => {
                        assert(plan_from(rest, records_model(rec@)) == Err::<Seq<PlannedModel>, PlanFailure>(
                            PlanFailure::Mismatch(mismatch_message(version@, stored@, checksum@)),
                        ));
                        return Err(e);
                    },
                }
            },
            None => {
                let up_sql = parse_up_section(f.content.as_str());
                let ghost rm = records_model(rec@);
                rec.push(AppliedMigration { version: version.clone(), checksum: checksum.clone() });
                assert(records_model(rec@) =~= rm.push((version@, checksum@)));
                let p = PlannedMigration { version, name, checksum, up_sql };
                let ghost pm = planned_model(p);
                out.push(p);
                assert(out@.map_values(|q: PlannedMigration| planned_model(q)) =~= done.push(pm));
                proof {
                    match plan_from(fm.skip(k + 1), records_model(rec@)) {
                        Ok(ps) => {
                            assert(done + (seq![pm] + ps) =~= done.push(pm) + ps);
                        },
                        Err(_) => {},
                    }
                }
            },
        }
    }
    assert(fm.skip(files.len() as int).len() == 0);
    assert(out@.map_values(|p: PlannedMigration| planned_model(p)) + Seq::<PlannedModel>::empty()
        =~= out@.map_values(|p: PlannedMigration| planned_model(p)));
    Ok(out)
}

proof fn lemma_recorded_concat(
    a: Seq<(Seq<char>, Seq<char>)>,
    b: Seq<(Seq<char>, Seq<char>)>,
    v: Seq<char>,
)
    ensures
        recorded_checksum(a + b, v) == if recorded_checksum(a, v) is Some {
            recorded_checksum(a, v)
        } else {
            recorded_checksum(b, v)
        },
    decreases a.len(),
{
    if a.len() == 0 {
        assert(a + b =~= b);
    } else {
        assert((a + b)[0] == a[0]);
        assert((a + b).drop_first() =~= a.drop_first() + b);
        lemma_recorded_concat(a.drop_first(), b, v);
    }
}

/// Whether the script `f` has a good name and its version is recorded in `rec` with
/// its checksum.
pub open spec fn is_recorded(f: (Seq<char>, Seq<char>), rec: Seq<(Seq<char>, Seq<char>)>) -> bool {
    migration_file_parts(f.0) is Ok && recorded_checksum(rec, migration_file_parts(f.0)->Ok_0.0)
        == Some(script_checksum(f.1))
}

proof fn lemma_plan_records(
    files: Seq<(Seq<char>, Seq<char>)>,
    rec: Seq<(Seq<char>, Seq<char>)>,
    ps: Seq<PlannedModel>,
)
    requires
        plan_from(files, rec) == Ok::<Seq<PlannedModel>, PlanFailure>(ps),
    ensures
        forall|j: int| 0 <= j < files.len() ==> is_recorded(#[trigger] files[j], rec + records_of(ps)),
    decreases files.len(),
{
    if files.len() > 0 {
        let f = files[0];
        let (v, n) = migration_file_parts(f.0)->Ok_0;
        let c = script_checksum(f.1);
        let rest = files.drop_first();
        match recorded_checksum(rec, v) {
            Some(stored) => {
                lemma_plan_records(rest, rec, ps);
                lemma_recorded_concat(rec, records_of(ps), v);
                assert forall|j: int| 0 <= j < files.len() implies is_recorded(
                    #[trigger] files[j],
                    rec + records_of(ps),
                ) by {
                    if j > 0 {
                        assert(files[j] == rest[j - 1]);
                    }
                }
            },
            None => {
                let rec1 = rec.push((v, c));
                let ps1 = plan_from(rest, rec1)->Ok_0;
                let p0 = PlannedModel { version: v, name: n, checksum: c, up_sql: up_section(f.1) };
                assert(ps == seq![p0] + ps1);
                lemma_plan_records(rest, rec1, ps1);
                assert(records_of(ps) =~= seq![(v, c)] + records_of(ps1));
                assert(rec + records_of(ps) =~= rec1 + records_of(ps1));
                lemma_recorded_concat(rec, seq![(v, c)] + records_of(ps1), v);
                assert((seq![(v, c)] + records_of(ps1))[0] == (v, c));
                assert forall|j: int| 0 <= j < files.len() implies is_recorded(
                    #[trigger] files[j],
                    rec + records_of(ps),
                ) by {
                    if j > 0 {
                        assert(files[j] == rest[j - 1]);
                    }
                }
            },
        }
    }
}

proof fn lemma_plan_all_recorded(files: Seq<(Seq<char>, Seq<char>)>, rec: Seq<(Seq<char>, Seq<char>)>)
    requires
        forall|j: int| 0 <= j < files.len() ==> is_recorded(#[trigger] files[j], rec),
    ensures
        plan_from(files, rec) == Ok::<Seq<PlannedModel>, PlanFailure>(seq![]),
    decreases files.len(),
{
    if files.len() > 0 {
        assert(is_recorded(files[0], rec));
        let rest = files.drop_first();
        assert forall|j: int| 0 <= j < rest.len() implies is_recorded(#[trigger] rest[j], rec) by {
            assert(rest[j] == files[j + 1]);
        }
        lemma_plan_all_recorded(rest, rec);
    }
}

/// Running the pending migrations twice changes nothing the second time: once the
/// planned migrations are applied and recorded, planning the same scripts again
/// applies none.
pub proof fn law_pending_twice(files: Seq<(Seq<char>, Seq<char>)>, rec: Seq<(Seq<char>, Seq<char>)>)
    requires
        plan_from(files, rec) is Ok,
    ensures
        plan_from(files, rec + records_of(plan_from(files, rec)->Ok_0)) == Ok::<
            Seq<PlannedModel>,
            PlanFailure,
        >(seq![]),
{
    let ps = plan_from(files, rec)->Ok_0;
    lemma_plan_records(files, rec, ps);
    lemma_plan_all_recorded(files, rec + records_of(ps));
}

/// What rolling back does, given the last recorded version and the text of its script
/// (`None` when the file is missing).
pub enum RollbackStep {
    /// No migration is recorded: nothing to do.
    Nothing,
    /// Run `down_sql`, then delete the record of `version`.
    Undo { version: String, down_sql: String },
}

/// Decides a rollback: with no recorded migration there is nothing to do; the script
/// of the last one must exist (`migration file not found for rollback: <version>.sql`)
/// and have a `-- DOWN` section that is not blank (as [`rollback_sql`] says); then
/// that section is run and the version's record deleted.
pub fn rollback_step(last_version: Option<&str>, script: Option<&str>) -> (r: Result<
    RollbackStep,
    DbError,
>)
    ensures
        last_version is None ==> r matches Ok(RollbackStep::Nothing),
        last_version is Some && script is None ==> (r matches Err(DbError::PoolError(m)) && m@
            == "migration file not found for rollback: "@ + last_version.unwrap()@ + ".sql"@),
        last_version is Some && script is Some && is_blank(down_section(script.unwrap()@)) ==> (
        r matches Err(DbError::PoolError(m)) && m@ == "no -- DOWN section found in migration "@
            + last_version.unwrap()@),
        last_version is Some && script is Some && !is_blank(down_section(script.unwrap()@)) ==> (
        r matches Ok(RollbackStep::Undo { version, down_sql }) && version@
            == last_version.unwrap()@ && down_sql@ == down_section(script.unwrap()@)),
{
    match last_version {
        None => Ok(RollbackStep::Nothing),
        Some(v) => match script {
            None => {
                let file_name = migration_file_name(v);
                Err(DbError::PoolError(concat2("migration file not found for rollback: ", file_name.as_str())))
            },
            Some(c) => match rollback_sql(v, c) {
                Ok(down_sql) => Ok(RollbackStep::Undo { version: String::from_str(v), down_sql }),
                Err(e) => Err(e),
            },
        },
    }
}

} // verus!
