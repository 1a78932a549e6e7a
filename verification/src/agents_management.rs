//! The Kanbus section of AGENTS.md: finding, replacing and inserting it.

use vstd::prelude::*;
use vstd::string::*;

use crate::issue_update::{lowercase, unicode_lower};
use crate::text::{owned, push_char, trim, trim_ws};

verus! {

/// A section of lines: from its header line `start` up to, not including,
/// `end`.
pub struct SectionMatch {
    pub start: usize,
    pub end: usize,
}

/// The line without the '\r' and '\n' characters that end it.
pub open spec fn trim_line_end(s: Seq<char>) -> Seq<char>
    decreases s.len(),
{
    if s.len() > 0 && (s.last() == '\r' || s.last() == '\n') {
        trim_line_end(s.drop_last())
    } else {
        s
    }
}

/// The number of '#' characters a text starts with.
pub open spec fn leading_hashes(s: Seq<char>) -> nat
    decreases s.len(),
{
    if s.len() > 0 && s[0] == '#' {
        1 + leading_hashes(s.drop_first())
    } else {
        0
    }
}

/// The Markdown header of a line, as its level and its text: one to six
/// '#', then a space or a tab, then text that is not blank.
pub open spec fn header_of(line: Seq<char>) -> Option<(nat, Seq<char>)> {
    let t = trim_line_end(line);
    let n = leading_hashes(t);
    if n == 0 || n > 6 {
        None
    } else {
        let rest = t.subrange(n as int, t.len() as int);
        if rest.len() == 0 || !(rest[0] == ' ' || rest[0] == '\t') {
            None
        } else if trim_ws(rest).len() == 0 {
            None
        } else {
            Some((n, trim_ws(rest)))
        }
    }
}

proof fn lemma_leading_hashes(s: Seq<char>)
    ensures
        leading_hashes(s) <= s.len(),
        forall|i: int| 0 <= i < leading_hashes(s) ==> s[i] == '#',
        leading_hashes(s) < s.len() ==> s[leading_hashes(s) as int] != '#',
    decreases s.len(),
{
    if s.len() > 0 && s[0] == '#' {
        lemma_leading_hashes(s.drop_first());
        assert forall|i: int| 0 <= i < leading_hashes(s) implies s[i] == '#' by {
            if i > 0 {
                assert(s[i] == s.drop_first()[i - 1]);
            }
        }
        if leading_hashes(s) < s.len() {
            assert(s[leading_hashes(s) as int] == s.drop_first()[leading_hashes(s) - 1]);
        }
    }
}

proof fn lemma_leading_hashes_at(s: Seq<char>, n: int)
    requires
        0 <= n <= s.len(),
        forall|i: int| 0 <= i < n ==> s[i] == '#',
        n < s.len() ==> s[n] != '#',
    ensures
        leading_hashes(s) == n,
    decreases n,
{
    if n > 0 {
        assert forall|i: int| 0 <= i < n - 1 implies s.drop_first()[i] == '#' by {
            assert(s.drop_first()[i] == s[i + 1]);
        }
        if n < s.len() {
            assert(s.drop_first()[n - 1] == s[n]);
        }
        lemma_leading_hashes_at(s.drop_first(), n - 1);
    }
}

fn strip_line_end(line: &str) -> (r: String)
    ensures
        r@ == trim_line_end(line@),
{
    let mut n = line.unicode_len();
    assert(line@.subrange(0, n as int) =~= line@);
    while n > 0 && (line.get_char(n - 1) == '\r' || line.get_char(n - 1) == '\n')
        invariant
            n <= line@.len(),
            trim_line_end(line@) == trim_line_end(line@.subrange(0, n as int)),
        decreases n,
    {
        assert(line@.subrange(0, n as int).drop_last() =~= line@.subrange(0, n - 1));
        n -= 1;
    }
    assert(line@.subrange(0, n as int) =~= line@.subrange(0, n as int));
    owned(line.substring_char(0, n))
}

/// Parse a Markdown header line into its level and text.
pub fn parse_header(line: &str) -> (r: Option<(usize, String)>)
    ensures
        match header_of(line@) {
            Some((n, t)) => r matches Some((k, s)) && k == n && s@ == t,
            None => r is None,
        },
{
    proof {
        assert(line@.subrange(0, line@.len() as int) =~= line@);
    }
    let trimmed = strip_line_end(line);
    let len = trimmed.unicode_len();
    let mut count: usize = 0;
    while count < len && trimmed.get_char(count) == '#'
        invariant
            len == trimmed@.len(),
            count <= len,
            forall|i: int| 0 <= i < count ==> trimmed@[i] == '#',
        decreases len - count,
    {
        count += 1;
    }
    proof {
        lemma_leading_hashes_at(trimmed@, count as int);
    }
    if count == 0 || count > 6 {
        return None;
    }
    let rest = trimmed.substring_char(count, len);
    if rest.unicode_len() == 0 {
        return None;
    }
    let first = rest.get_char(0);
    if first != ' ' && first != '\t' {
        return None;
    }
    let text = trim(rest);
    if text.unicode_len() == 0 {
        return None;
    }
    Some((count, text))
}

/// Whether `s` contains `sub` somewhere.
pub open spec fn contains_text(s: Seq<char>, sub: Seq<char>) -> bool {
    exists|i: int| 0 <= i && i + sub.len() <= s.len() && #[trigger] s.subrange(i, i + sub.len()) == sub
}

fn contains_kanbus(s: &str) -> (r: bool)
    ensures
        r == contains_text(s@, "kanbus"@),
{
    let word = "kanbus";
    proof {
        reveal_strlit("kanbus");
    }
    let n = s.unicode_len();
    let m = word.unicode_len();
    if m > n {
        return false;
    }
    let mut i: usize = 0;
    while i <= n - m
        invariant
            n == s@.len(),
            word@ == "kanbus"@,
            m == word@.len(),
            m == 6,
            m <= n,
            i <= n - m + 1,
            forall|j: int| 0 <= j < i ==> #[trigger] s@.subrange(j, j + m) != word@,
        decreases n - m + 1 - i,
    {
        let piece = s.substring_char(i, i + m);
        if crate::text::equals(piece, word) {
            assert(piece@ == word@);
            assert(s@.subrange(i as int, i + "kanbus"@.len()) == "kanbus"@);
            return true;
        }
        i += 1;
    }
    false
}

/// Position of the first header line from `start` on whose level is at
/// most `level`, or the number of lines.
pub open spec fn section_end(lines: Seq<Seq<char>>, start: int, level: nat) -> int
    decreases lines.len() - start,
{
    if start >= lines.len() {
        lines.len() as int
    } else if header_of(lines[start]) matches Some((l, _)) && l <= level {
        start
    } else {
        section_end(lines, start + 1, level)
    }
}

/// Find where the section that starts before `start` ends.
pub fn find_section_end(lines: &Vec<String>, start: usize, level: usize) -> (r: usize)
    requires
        start <= lines@.len(),
    ensures
        r == section_end(lines.deep_view(), start as int, level as nat),
{
    let mut i = start;
    while i < lines.len()
        invariant
            start <= i <= lines@.len(),
            section_end(lines.deep_view(), start as int, level as nat) == section_end(lines.deep_view(), i as int, level as nat),
        decreases lines@.len() - i,
    {
        if let Some((next_level, _)) = parse_header(&lines[i]) {
            if next_level <= level {
                return i;
            }
        }
        i += 1;
    }
    i
}

/// Whether a header line names Kanbus: its text, lowercased, contains
/// "kanbus".
pub open spec fn is_kanbus_header(line: Seq<char>) -> bool {
    header_of(line) matches Some((_, t)) && contains_text(unicode_lower(t), "kanbus"@)
}

/// The Kanbus sections among the first `n` lines: each Kanbus header with
/// the end of its section.
pub open spec fn kanbus_sections(lines: Seq<Seq<char>>, n: int) -> Seq<(int, int)>
    decreases n,
{
    if n <= 0 {
        seq![]
    } else {
        let r = kanbus_sections(lines, n - 1);
        if is_kanbus_header(lines[n - 1]) {
            r.push((n - 1, section_end(lines, n, header_of(lines[n - 1])->Some_0.0)))
        } else {
            r
        }
    }
}

/// The sections as pairs of positions.
pub open spec fn section_view(sections: Seq<SectionMatch>) -> Seq<(int, int)> {
    sections.map_values(|s: SectionMatch| (s.start as int, s.end as int))
}

/// Find the sections of AGENTS.md whose header names Kanbus.
pub fn find_kanbus_sections(lines: &Vec<String>) -> (r: Vec<SectionMatch>)
    ensures
        section_view(r@) == kanbus_sections(lines.deep_view(), lines@.len() as int),
{
    let mut sections: Vec<SectionMatch> = Vec::new();
    let mut i: usize = 0;
    while i < lines.len()
        invariant
            i <= lines@.len(),
            section_view(sections@) == kanbus_sections(lines.deep_view(), i as int),
        decreases lines@.len() - i,
    {
        let ghost before = sections@;
        if let Some((level, text)) = parse_header(&lines[i]) {
            if contains_kanbus(&lowercase(&text)) {
                let end = find_section_end(lines, i + 1, level);
                sections.push(SectionMatch { start: i, end });
                assert(section_view(sections@) =~= section_view(before).push((i as int, end as int)));
            }
        }
        i += 1;
    }
    sections
}

/// Whether a position lies inside one of the sections.
pub open spec fn in_sections(index: int, sections: Seq<(int, int)>) -> bool {
    exists|k: int| 0 <= k < sections.len() && (#[trigger] sections[k]).0 <= index < sections[k].1
}

/// Whether a position lies inside one of the sections.
pub fn is_in_sections(index: usize, sections: &Vec<SectionMatch>) -> (r: bool)
    ensures
        r == in_sections(index as int, section_view(sections@)),
{
    let ghost v = section_view(sections@);
    let mut k: usize = 0;
    while k < sections.len()
        invariant
            k <= sections@.len(),
            v == section_view(sections@),
            forall|j: int| 0 <= j < k ==> !((#[trigger] v[j]).0 <= index < v[j].1),
        decreases sections@.len() - k,
    {
        if sections[k].start <= index && index < sections[k].end {
            assert(v[k as int].0 <= index < v[k as int].1);
            return true;
        }
        k += 1;
    }
    false
}

/// The first `n` lines with the lines inside the sections left out and
/// the new section put where the primary section started, and whether it
/// was put in.
pub open spec fn replaced_prefix(
    lines: Seq<Seq<char>>,
    sections: Seq<(int, int)>,
    primary_start: int,
    section: Seq<Seq<char>>,
    n: int,
) -> (Seq<Seq<char>>, bool)
    decreases n,
{
    if n <= 0 {
        (seq![], false)
    } else {
        let (out, inserted) = replaced_prefix(lines, sections, primary_start, section, n - 1);
        if in_sections(n - 1, sections) {
            if n - 1 == primary_start && !inserted {
                (out + section, true)
            } else {
                (out, inserted)
            }
        } else {
            (out.push(lines[n - 1]), inserted)
        }
    }
}

/// The lines with the Kanbus sections replaced by the new section.
pub open spec fn replaced_lines(
    lines: Seq<Seq<char>>,
    sections: Seq<(int, int)>,
    primary_start: int,
    section: Seq<Seq<char>>,
) -> Seq<Seq<char>> {
    let (out, inserted) = replaced_prefix(lines, sections, primary_start, section, lines.len() as int);
    if inserted {
        out
    } else {
        out + section
    }
}

/// The text of lines: each line followed by a newline (a lone newline for
/// no lines).
pub open spec fn joined_text(lines: Seq<Seq<char>>) -> Seq<char>
    decreases lines.len(),
{
    if lines.len() == 0 {
        seq!['\n']
    } else if lines.len() == 1 {
        lines[0].push('\n')
    } else {
        joined_text(lines.drop_last()) + lines.last().push('\n')
    }
}

/// Join lines with newlines, ending with one.
pub fn join_lines(lines: &Vec<String>) -> (r: String)
    ensures
        r@ == joined_text(lines.deep_view()),
{
    let mut out = String::new();
    let mut i: usize = 0;
    while i < lines.len()
        invariant
            i <= lines@.len(),
            i > 0 ==> out@ == joined_text(lines.deep_view().subrange(0, i as int)),
            i == 0 ==> out@ == Seq::<char>::empty(),
        decreases lines@.len() - i,
    {
        out.append(&lines[i]);
        push_char(&mut out, '\n');
        proof {
            assert(lines.deep_view().subrange(0, i + 1).drop_last() =~= lines.deep_view().subrange(0, i as int));
            if i == 0 {
                assert(out@ =~= joined_text(lines.deep_view().subrange(0, 1)));
            }
        }
        i += 1;
    }
    if lines.len() == 0 {
        push_char(&mut out, '\n');
        assert(out@ =~= seq!['\n']);
    } else {
        assert(lines.deep_view().subrange(0, lines@.len() as int) =~= lines.deep_view());
    }
    out
}

fn append_lines(out: &mut Vec<String>, more: &Vec<String>)
    ensures
        final(out).deep_view() == old(out).deep_view() + more.deep_view(),
{
    let ghost start = out.deep_view();
    let mut i: usize = 0;
    while i < more.len()
        invariant
            i <= more@.len(),
            out.deep_view() == start + more.deep_view().subrange(0, i as int),
        decreases more@.len() - i,
    {
        let ghost before = out.deep_view();
        out.push(more[i].clone());
        assert(out.deep_view() =~= before.push(more.deep_view()[i as int]));
        assert(more.deep_view().subrange(0, i + 1) =~= more.deep_view().subrange(0, i as int).push(more.deep_view()[i as int]));
        i += 1;
    }
    assert(more.deep_view().subrange(0, more@.len() as int) =~= more.deep_view());
}

/// Replace the Kanbus sections with `section_lines`, put where the primary
/// section started; the text of the result.
pub fn replace_sections(
    lines: &Vec<String>,
    sections: &Vec<SectionMatch>,
    primary: &SectionMatch,
    section_lines: &Vec<String>,
) -> (r: String)
    ensures
        r@ == joined_text(replaced_lines(lines.deep_view(), section_view(sections@), primary.start as int, section_lines.deep_view())),
{
    let ghost sv = section_view(sections@);
    let ghost lv = lines.deep_view();
    let ghost nv = section_lines.deep_view();
    let mut updated: Vec<String> = Vec::new();
    let mut inserted = false;
    let mut i: usize = 0;
    assert(updated.deep_view() =~= Seq::<Seq<char>>::empty());
    while i < lines.len()
        invariant
            i <= lines@.len(),
            sv == section_view(sections@),
            lv == lines.deep_view(),
            nv == section_lines.deep_view(),
            (updated.deep_view(), inserted) == replaced_prefix(lv, sv, primary.start as int, nv, i as int),
        decreases lines@.len() - i,
    {
        if is_in_sections(i, sections) {
            if i == primary.start && !inserted {
                append_lines(&mut updated, section_lines);
                inserted = true;
            }
        } else {
            let ghost before = updated.deep_view();
            updated.push(lines[i].clone());
            assert(updated.deep_view() =~= before.push(lv[i as int]));
        }
        i += 1;
    }
    if !inserted {
        append_lines(&mut updated, section_lines);
    }
    join_lines(&updated)
}

/// Position of the first top-level header from `start` on, or -1.
pub open spec fn first_top_header(lines: Seq<Seq<char>>, start: int) -> int
    decreases lines.len() - start,
{
    if start >= lines.len() {
        -1
    } else if header_of(lines[start]) matches Some((l, _)) && l == 1 {
        start
    } else {
        first_top_header(lines, start + 1)
    }
}

/// The first position from `start` on whose line is not blank, or the
/// number of lines.
pub open spec fn skip_blank(lines: Seq<Seq<char>>, start: int) -> int
    decreases lines.len() - start,
{
    if start >= lines.len() {
        lines.len() as int
    } else if trim_ws(lines[start]).len() == 0 {
        skip_blank(lines, start + 1)
    } else {
        start
    }
}

/// Where a new Kanbus section goes: after the first top-level header and
/// the blank lines that follow it; at the start without one.
pub open spec fn insert_index(lines: Seq<Seq<char>>) -> int {
    let h = first_top_header(lines, 0);
    if h < 0 {
        0
    } else {
        skip_blank(lines, h + 1)
    }
}

proof fn lemma_first_top_header(lines: Seq<Seq<char>>, start: int)
    requires
        0 <= start,
    ensures
        first_top_header(lines, start) == -1 || start <= first_top_header(lines, start) < lines.len(),
    decreases lines.len() - start,
{
    if start < lines.len() {
        lemma_first_top_header(lines, start + 1);
    }
}

proof fn lemma_skip_blank(lines: Seq<Seq<char>>, start: int)
    requires
        0 <= start <= lines.len(),
    ensures
        start <= skip_blank(lines, start) <= lines.len(),
    decreases lines.len() - start,
{
    if start < lines.len() {
        lemma_skip_blank(lines, start + 1);
    }
}

/// Find where a new Kanbus section goes.
pub fn find_insert_index(lines: &Vec<String>) -> (r: usize)
    ensures
        r == insert_index(lines.deep_view()),
        r <= lines@.len(),
{
    let ghost lv = lines.deep_view();
    let mut i: usize = 0;
    while i < lines.len()
        invariant
            i <= lines@.len(),
            lv == lines.deep_view(),
            first_top_header(lv, 0) == first_top_header(lv, i as int),
        decreases lines@.len() - i,
    {
        if let Some((level, _)) = parse_header(&lines[i]) {
            if level == 1 {
                let mut k = i + 1;
                while k < lines.len() && trim(&lines[k]).unicode_len() == 0
                    invariant
                        i + 1 <= k <= lines@.len(),
                        lv == lines.deep_view(),
                        skip_blank(lv, i + 1) == skip_blank(lv, k as int),
                    decreases lines@.len() - k,
                {
                    k += 1;
                }
                return k;
            }
        }
        i += 1;
    }
    0
}

/// The lines with the new section inserted: a blank line is put first when
/// the section would follow a header's text directly.
pub open spec fn inserted_lines(lines: Seq<Seq<char>>, section: Seq<Seq<char>>) -> Seq<Seq<char>> {
    let i = insert_index(lines);
    if 0 < i < lines.len() && trim_ws(lines[i]).len() > 0 {
        lines.subrange(0, i) + seq![seq![]] + section + lines.subrange(i, lines.len() as int)
    } else {
        lines.subrange(0, i) + section + lines.subrange(i, lines.len() as int)
    }
}

/// Insert the Kanbus section into AGENTS.md that has none; the text of the
/// result.
pub fn insert_kanbus_section(lines: &Vec<String>, section_lines: &Vec<String>) -> (r: String)
    ensures
        r@ == joined_text(inserted_lines(lines.deep_view(), section_lines.deep_view())),
{
    let ghost lv = lines.deep_view();
    let index = find_insert_index(lines);
    let mut updated: Vec<String> = Vec::new();
    let mut i: usize = 0;
    assert(updated.deep_view() =~= lv.subrange(0, 0));
    while i < index
        invariant
            i <= index <= lines@.len(),
            lv == lines.deep_view(),
            updated.deep_view() == lv.subrange(0, i as int),
        decreases index - i,
    {
        let ghost before = updated.deep_view();
        updated.push(lines[i].clone());
        assert(updated.deep_view() =~= before.push(lv[i as int]));
        assert(updated.deep_view() =~= lv.subrange(0, i + 1));
        i += 1;
    }
    if index > 0 && index < lines.len() && trim(&lines[index]).unicode_len() != 0 {
        let ghost before = updated.deep_view();
        updated.push(String::new());
        assert(updated.deep_view() =~= before.push(seq![]));
    }
    append_lines(&mut updated, section_lines);
    let mut j = index;
    let ghost mid = updated.deep_view();
    while j < lines.len()
        invariant
            index <= j <= lines@.len(),
            lv == lines.deep_view(),
            updated.deep_view() == mid + lv.subrange(index as int, j as int),
        decreases lines@.len() - j,
    {
        let ghost before = updated.deep_view();
        updated.push(lines[j].clone());
        assert(updated.deep_view() =~= before.push(lv[j as int]));
        assert(updated.deep_view() =~= mid + lv.subrange(index as int, j + 1));
        j += 1;
    }
    proof {
        if index > 0 && index < lv.len() && trim_ws(lv[index as int]).len() > 0 {
            assert(updated.deep_view() =~= lv.subrange(0, index as int) + seq![seq![]] + section_lines.deep_view()
                + lv.subrange(index as int, lv.len() as int));
        } else {
            assert(updated.deep_view() =~= lv.subrange(0, index as int) + section_lines.deep_view() + lv.subrange(
                index as int,
                lv.len() as int,
            ));
        }
    }
    join_lines(&updated)
}

/// The parts of a text between newlines.
pub open spec fn split_newlines(s: Seq<char>) -> Seq<Seq<char>>
    decreases s.len(),
{
    if s.len() == 0 {
        seq![seq![]]
    } else {
        let r = split_newlines(s.drop_last());
        if s.last() == '\n' {
            r.push(seq![])
        } else {
            r.update(r.len() - 1, r.last().push(s.last()))
        }
    }
}

proof fn lemma_split_newlines_nonempty(s: Seq<char>)
    ensures
        split_newlines(s).len() >= 1,
    decreases s.len(),
{
    if s.len() > 0 {
        lemma_split_newlines_nonempty(s.drop_last());
    }
}

/// A line without the '\r' of a "\r\n" ending.
pub open spec fn without_cr(line: Seq<char>) -> Seq<char> {
    if line.len() > 0 && line.last() == '\r' {
        line.drop_last()
    } else {
        line
    }
}

/// The lines of a text, as `str::lines` gives them: split at "\n" or
/// "\r\n", with no line after a final line ending.
pub open spec fn text_lines_of(s: Seq<char>) -> Seq<Seq<char>> {
    let parts = split_newlines(s);
    let kept = if parts.last().len() == 0 {
        parts.drop_last()
    } else {
        parts
    };
    Seq::new(kept.len(), |i: int| if i < kept.len() - 1 || (s.len() > 0 && s.last() == '\n') {
        without_cr(kept[i])
    } else {
        kept[i]
    })
}

fn strip_cr(line: String) -> (r: String)
    ensures
        r@ == without_cr(line@),
{
    let n = line.unicode_len();
    if n > 0 && line.get_char(n - 1) == '\r' {
        owned(line.as_str().substring_char(0, n - 1))
    } else {
        line
    }
}

/// The lines of a text, as `str::lines` gives them.
pub fn text_lines(s: &str) -> (r: Vec<String>)
    ensures
        r.deep_view() == text_lines_of(s@),
{
    let n = s.unicode_len();
    let mut parts: Vec<String> = Vec::new();
    let mut current = String::new();
    let mut i: usize = 0;
    while i < n
        invariant
            n == s@.len(),
            i <= n,
            parts.deep_view().push(current@) == split_newlines(s@.subrange(0, i as int)),
        decreases n - i,
    {
        let c = s.get_char(i);
        assert(s@.subrange(0, i + 1).drop_last() =~= s@.subrange(0, i as int));
        proof {
            lemma_split_newlines_nonempty(s@.subrange(0, i as int));
        }
        if c == '\n' {
            let ghost before = parts.deep_view();
            parts.push(current);
            current = String::new();
            assert(parts.deep_view() =~= before.push(split_newlines(s@.subrange(0, i as int)).last()));
            assert(parts.deep_view().push(current@) =~= split_newlines(s@.subrange(0, i + 1)));
        } else {
            push_char(&mut current, c);
            assert(parts.deep_view().push(current@) =~= split_newlines(s@.subrange(0, i + 1)));
        }
        i += 1;
    }
    assert(s@.subrange(0, n as int) =~= s@);
    let ghost all = parts.deep_view().push(current@);
    let ends_with_newline = n > 0 && s.get_char(n - 1) == '\n';
    if current.unicode_len() != 0 {
        parts.push(current);
        assert(parts.deep_view() =~= all);
    }
    let ghost kept = parts.deep_view();
    let k = parts.len();
    let mut out: Vec<String> = Vec::new();
    let mut rest = parts;
    let mut j: usize = 0;
    while j < k
        invariant
            j <= k,
            k == kept.len(),
            rest.deep_view() == kept.subrange(j as int, k as int),
            rest@.len() == k - j,
            out@.len() == j,
            forall|q: int| 0 <= q < j ==> (#[trigger] out.deep_view()[q]) == (if q < k - 1 || ends_with_newline {
                without_cr(kept[q])
            } else {
                kept[q]
            }),
        decreases k - j,
    {
        let ghost before = rest.deep_view();
        let ghost before_vec = rest@;
        let line = rest.remove(0);
        assert(before[0] == before_vec[0]@);
        assert(rest.deep_view() =~= before.drop_first());
        assert(rest.deep_view() =~= kept.subrange(j + 1, k as int));
        let fixed = if j + 1 < k || ends_with_newline {
            strip_cr(line)
        } else {
            line
        };
        let ghost out_before = out.deep_view();
        out.push(fixed);
        proof {
            assert(out.deep_view() =~= out_before.push(fixed@));
        }
        j += 1;
    }
    proof {
        assert(ends_with_newline == (s@.len() > 0 && s@.last() == '\n'));
        assert(out.deep_view() =~= text_lines_of(s@));
    }
    out
}

/// The lines of the Kanbus section of AGENTS.md.
pub open spec fn kanbus_section_spec() -> Seq<Seq<char>> {
    seq![
        "## Project management with Kanbus"@,
        ""@,
        "Use Kanbus for task management."@,
        "Why: Kanbus task management is MANDATORY here; every task must live in Kanbus."@,
        "When: Create/update the Kanbus task before coding; close it only after the change lands."@,
        "How: See CONTRIBUTING_AGENT.md for the Kanbus workflow, hierarchy, status rules, priorities, command examples, and the sins to avoid. Never inspect project/ or issue JSON directly (including with cat or jq); use Kanbus commands only."@,
        "Performance: Prefer kanbusr (Rust) when available; kanbus (Python) is equivalent but slower."@,
        "Warning: Editing project/ directly is a sin against The Way. Do not read or write anything in project/; work only through Kanbus."@,
        ""@,
    ]
}

fn push_line(v: &mut Vec<String>, line: &str)
    ensures
        final(v).deep_view() == old(v).deep_view().push(line@),
{
    let ghost before = v.deep_view();
    v.push(owned(line));
    assert(v.deep_view() =~= before.push(line@));
}

/// The lines of the Kanbus section of AGENTS.md.
pub fn kanbus_section_lines() -> (r: Vec<String>)
    ensures
        r.deep_view() == kanbus_section_spec(),
{
    let mut v: Vec<String> = Vec::new();
    push_line(&mut v, "## Project management with Kanbus");
    push_line(&mut v, "");
    push_line(&mut v, "Use Kanbus for task management.");
    push_line(&mut v, "Why: Kanbus task management is MANDATORY here; every task must live in Kanbus.");
    push_line(&mut v, "When: Create/update the Kanbus task before coding; close it only after the change lands.");
    push_line(
        &mut v,
        "How: See CONTRIBUTING_AGENT.md for the Kanbus workflow, hierarchy, status rules, priorities, command examples, and the sins to avoid. Never inspect project/ or issue JSON directly (including with cat or jq); use Kanbus commands only.",
    );
    push_line(&mut v, "Performance: Prefer kanbusr (Rust) when available; kanbus (Python) is equivalent but slower.");
    push_line(
        &mut v,
        "Warning: Editing project/ directly is a sin against The Way. Do not read or write anything in project/; work only through Kanbus.",
    );
    push_line(&mut v, "");
    assert(v.deep_view() =~= kanbus_section_spec());
    v
}

/// The canonical text of the Kanbus section.
pub fn kanbus_section_text() -> (r: String)
    ensures
        r@ == joined_text(kanbus_section_spec()),
{
    join_lines(&kanbus_section_lines())
}

/// The text of a new AGENTS.md: its title, a blank line, and the Kanbus
/// section.
pub fn build_new_agents_file() -> (r: String)
    ensures
        r@ == joined_text(seq!["# Agent Instructions"@, ""@] + kanbus_section_spec()),
{
    let mut v: Vec<String> = Vec::new();
    push_line(&mut v, "# Agent Instructions");
    push_line(&mut v, "");
    append_lines(&mut v, &kanbus_section_lines());
    assert(v.deep_view() =~= seq!["# Agent Instructions"@, ""@] + kanbus_section_spec());
    join_lines(&v)
}

} // verus!
