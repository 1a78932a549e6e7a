//! Human-readable display of one issue.

use vstd::prelude::*;
use vstd::string::*;

use crate::ids::{format_issue_key, issue_key_text};
use crate::issue_line::{
    colored, color_named, opt_config, owo_color_name, owo_fg_code, owo_name, paint, paint_named, paint_text,
    parse_color, priority_index, priority_text, signed_text, status_index, AnsiColor,
};
use crate::models::{IssueComment, IssueData, ProjectConfiguration};
use crate::text::{ascii_lower, equals, join3, owned, push_char, substring, to_ascii_lowercase};

verus! {

/// A color named in any ASCII case.
pub open spec fn color_named_any_case(name: Seq<char>) -> Option<AnsiColor> {
    color_named(ascii_lower(name))
}

fn parse_color_any_case(name: &str) -> (r: Option<AnsiColor>)
    ensures
        r == color_named_any_case(name@),
{
    parse_color(&to_ascii_lowercase(name))
}

/// Default status colors of the display.
pub open spec fn display_status_default(status: Seq<char>) -> Option<AnsiColor> {
    if status == "open"@ {
        Some(AnsiColor::Cyan)
    } else if status == "in_progress"@ {
        Some(AnsiColor::Blue)
    } else if status == "blocked"@ {
        Some(AnsiColor::Red)
    } else if status == "closed"@ {
        Some(AnsiColor::Green)
    } else if status == "deferred"@ {
        Some(AnsiColor::Yellow)
    } else {
        None
    }
}

/// Default priority colors of the display.
pub open spec fn display_priority_default(p: i32) -> Option<AnsiColor> {
    if p == 0 {
        Some(AnsiColor::Red)
    } else if p == 1 {
        Some(AnsiColor::BrightRed)
    } else if p == 2 {
        Some(AnsiColor::Yellow)
    } else if p == 3 {
        Some(AnsiColor::Blue)
    } else if p == 4 {
        Some(AnsiColor::White)
    } else {
        None
    }
}

/// Default type colors of the display.
pub open spec fn display_type_default(t: Seq<char>) -> Option<AnsiColor> {
    if t == "initiative"@ {
        Some(AnsiColor::BrightBlue)
    } else if t == "epic"@ {
        Some(AnsiColor::Magenta)
    } else if t == "task"@ {
        Some(AnsiColor::Cyan)
    } else if t == "sub-task"@ {
        Some(AnsiColor::BrightCyan)
    } else if t == "bug"@ {
        Some(AnsiColor::Red)
    } else if t == "story"@ {
        Some(AnsiColor::Yellow)
    } else if t == "chore"@ {
        Some(AnsiColor::Green)
    } else if t == "event"@ {
        Some(AnsiColor::BrightBlue)
    } else {
        None
    }
}

fn display_status_default_of(status: &str) -> (r: Option<AnsiColor>)
    ensures
        r == display_status_default(status@),
{
    if equals(status, "open") {
        Some(AnsiColor::Cyan)
    } else if equals(status, "in_progress") {
        Some(AnsiColor::Blue)
    } else if equals(status, "blocked") {
        Some(AnsiColor::Red)
    } else if equals(status, "closed") {
        Some(AnsiColor::Green)
    } else if equals(status, "deferred") {
        Some(AnsiColor::Yellow)
    } else {
        None
    }
}

fn display_type_default_of(t: &str) -> (r: Option<AnsiColor>)
    ensures
        r == display_type_default(t@),
{
    if equals(t, "initiative") {
        Some(AnsiColor::BrightBlue)
    } else if equals(t, "epic") {
        Some(AnsiColor::Magenta)
    } else if equals(t, "task") {
        Some(AnsiColor::Cyan)
    } else if equals(t, "sub-task") {
        Some(AnsiColor::BrightCyan)
    } else if equals(t, "bug") {
        Some(AnsiColor::Red)
    } else if equals(t, "story") {
        Some(AnsiColor::Yellow)
    } else if equals(t, "chore") {
        Some(AnsiColor::Green)
    } else if equals(t, "event") {
        Some(AnsiColor::BrightBlue)
    } else {
        None
    }
}

/// Status color of the display.
pub open spec fn display_status_color(status: Seq<char>, configuration: Option<ProjectConfiguration>) -> Option<AnsiColor> {
    match configuration {
        Some(c) => {
            let i = status_index(c.statuses@, status);
            if 0 <= i < c.statuses@.len() && c.statuses@[i].color is Some {
                color_named_any_case(c.statuses@[i].color->Some_0@)
            } else {
                display_status_default(status)
            }
        },
        None => display_status_default(status),
    }
}

/// Priority color of the display.
pub open spec fn display_priority_color(p: i32, configuration: Option<ProjectConfiguration>) -> Option<AnsiColor> {
    match configuration {
        Some(c) => {
            let i = priority_index(c.priorities@, p as u8);
            if 0 <= i < c.priorities@.len() && c.priorities@[i].1.color is Some {
                color_named_any_case(c.priorities@[i].1.color->Some_0@)
            } else {
                display_priority_default(p)
            }
        },
        None => display_priority_default(p),
    }
}

/// Type color of the display.
pub open spec fn display_type_color(t: Seq<char>, configuration: Option<ProjectConfiguration>) -> Option<AnsiColor> {
    match configuration {
        Some(c) => {
            let i = crate::text::index_in(crate::issue_line::colored_types(c.type_colors@), t);
            if i >= 0 {
                color_named_any_case(c.type_colors@[i].1@)
            } else {
                display_type_default(t)
            }
        },
        None => display_type_default(t),
    }
}

fn status_color(status: &str, configuration: Option<&ProjectConfiguration>) -> (r: Option<AnsiColor>)
    ensures
        r == display_status_color(status@, opt_config(configuration)),
{
    if let Some(c) = configuration {
        let mut i: usize = 0;
        assert(c.statuses@.subrange(0, c.statuses@.len() as int) =~= c.statuses@);
        while i < c.statuses.len()
            invariant
                i <= c.statuses@.len(),
                opt_config(configuration) == Some(*c),
                status_index(c.statuses@, status@) == (if status_index(c.statuses@.subrange(i as int, c.statuses@.len() as int), status@)
                    < 0 {
                    -1
                } else {
                    status_index(c.statuses@.subrange(i as int, c.statuses@.len() as int), status@) + i
                }),
            decreases c.statuses@.len() - i,
        {
            let ghost rest = c.statuses@.subrange(i as int, c.statuses@.len() as int);
            assert(rest[0] == c.statuses@[i as int]);
            assert(rest.drop_first() =~= c.statuses@.subrange(i + 1, c.statuses@.len() as int));
            if equals(&c.statuses[i].key, status) {
                assert(status_index(rest, status@) == 0);
                match &c.statuses[i].color {
                    Some(color) => {
                        return parse_color_any_case(color);
                    },
                    None => {
                        return display_status_default_of(status);
                    },
                }
            }
            i += 1;
        }
        assert(c.statuses@.subrange(i as int, c.statuses@.len() as int).len() == 0);
    }
    display_status_default_of(status)
}

fn priority_color(p: i32, configuration: Option<&ProjectConfiguration>) -> (r: Option<AnsiColor>)
    ensures
        r == display_priority_color(p, opt_config(configuration)),
{
    let fallback = if p == 0 {
        Some(AnsiColor::Red)
    } else if p == 1 {
        Some(AnsiColor::BrightRed)
    } else if p == 2 {
        Some(AnsiColor::Yellow)
    } else if p == 3 {
        Some(AnsiColor::Blue)
    } else if p == 4 {
        Some(AnsiColor::White)
    } else {
        None
    };
    if let Some(c) = configuration {
        let key = p as u8;
        let mut i: usize = 0;
        assert(c.priorities@.subrange(0, c.priorities@.len() as int) =~= c.priorities@);
        while i < c.priorities.len()
            invariant
                i <= c.priorities@.len(),
                opt_config(configuration) == Some(*c),
                key == p as u8,
                fallback == display_priority_default(p),
                priority_index(c.priorities@, key) == (if priority_index(c.priorities@.subrange(i as int, c.priorities@.len() as int), key) < 0 {
                    -1
                } else {
                    priority_index(c.priorities@.subrange(i as int, c.priorities@.len() as int), key) + i
                }),
            decreases c.priorities@.len() - i,
        {
            let ghost rest = c.priorities@.subrange(i as int, c.priorities@.len() as int);
            assert(rest[0] == c.priorities@[i as int]);
            assert(rest.drop_first() =~= c.priorities@.subrange(i + 1, c.priorities@.len() as int));
            if c.priorities[i].0 == key {
                assert(priority_index(rest, key) == 0);
                match &c.priorities[i].1.color {
                    Some(color) => {
                        return parse_color_any_case(color);
                    },
                    None => {
                        return fallback;
                    },
                }
            }
            i += 1;
        }
        assert(c.priorities@.subrange(i as int, c.priorities@.len() as int).len() == 0);
    }
    fallback
}

fn type_color(t: &str, configuration: Option<&ProjectConfiguration>) -> (r: Option<AnsiColor>)
    ensures
        r == display_type_color(t@, opt_config(configuration)),
{
    if let Some(c) = configuration {
        let mut names: Vec<String> = Vec::new();
        let mut i: usize = 0;
        while i < c.type_colors.len()
            invariant
                i <= c.type_colors@.len(),
                names.deep_view() == crate::issue_line::colored_types(c.type_colors@).subrange(0, i as int),
            decreases c.type_colors@.len() - i,
        {
            let ghost before = names.deep_view();
            names.push(c.type_colors[i].0.clone());
            assert(names.deep_view() =~= before.push(c.type_colors@[i as int].0@));
            assert(names.deep_view() =~= crate::issue_line::colored_types(c.type_colors@).subrange(0, i + 1));
            i += 1;
        }
        assert(crate::issue_line::colored_types(c.type_colors@).subrange(0, c.type_colors@.len() as int)
            =~= crate::issue_line::colored_types(c.type_colors@));
        proof {
            crate::text::lemma_index_in(names.deep_view(), t@);
        }
        if let Some(k) = crate::text::position(&names, t) {
            return parse_color_any_case(&c.type_colors[k].1);
        }
    }
    display_type_default_of(t)
}

/// Muted text: bright black when colors are on.
pub open spec fn dim_text(text: Seq<char>, use_color: bool) -> Seq<char> {
    if use_color {
        colored(text, owo_fg_code(owo_name(AnsiColor::BrightBlack)))
    } else {
        text
    }
}

fn dim(text: &str, use_color: bool) -> (r: String)
    ensures
        r@ == dim_text(text@, use_color),
{
    if use_color {
        paint_named(text, owo_color_name(AnsiColor::BrightBlack))
    } else {
        owned(text)
    }
}

/// Texts joined with a separator.
pub open spec fn joined(parts: Seq<Seq<char>>, sep: Seq<char>) -> Seq<char>
    decreases parts.len(),
{
    if parts.len() == 0 {
        seq![]
    } else if parts.len() == 1 {
        parts[0]
    } else {
        joined(parts.drop_last(), sep) + sep + parts.last()
    }
}

fn join_all(parts: &Vec<String>, sep: &str) -> (r: String)
    ensures
        r@ == joined(parts.deep_view(), sep@),
{
    let ghost pv = parts.deep_view();
    let mut out = String::new();
    let mut i: usize = 0;
    while i < parts.len()
        invariant
            i <= parts@.len(),
            pv == parts.deep_view(),
            out@ == joined(pv.subrange(0, i as int), sep@),
        decreases parts@.len() - i,
    {
        assert(pv.subrange(0, i + 1).drop_last() =~= pv.subrange(0, i as int));
        if i > 0 {
            out.append(sep);
        }
        out.append(&parts[i]);
        proof {
            if i == 0 {
                assert(out@ =~= pv.subrange(0, 1)[0]);
            }
        }
        i += 1;
    }
    assert(pv.subrange(0, parts@.len() as int) =~= pv);
    out
}

/// One row of the display: a muted label and a value, painted in its color
/// or muted when it is a placeholder.
pub open spec fn row_text(label: Seq<char>, value: Seq<char>, color: Option<AnsiColor>, muted: bool, use_color: bool) -> Seq<char> {
    dim_text(label, use_color) + " "@ + paint_text(
        value,
        if muted {
            Some(AnsiColor::BrightBlack)
        } else {
            color
        },
        use_color,
    )
}

fn row(label: &str, value: &str, color: Option<AnsiColor>, muted: bool, use_color: bool) -> (r: String)
    ensures
        r@ == row_text(label@, value@, color, muted, use_color),
{
    let final_color = if muted {
        Some(AnsiColor::BrightBlack)
    } else {
        color
    };
    join3(&dim(label, use_color), " ", &paint(value, final_color, use_color))
}

/// The comment's text, or nothing.
pub open spec fn comment_body(c: IssueComment) -> Seq<char> {
    match c.text {
        Some(t) => t@,
        None => seq![],
    }
}

/// The line of a comment: its short identifier in brackets (when it has
/// one), its author (or "unknown"), and its text.
pub open spec fn comment_line_text(c: IssueComment, use_color: bool) -> Seq<char> {
    let author = if c.author@.len() == 0 {
        "unknown"@
    } else {
        c.author@
    };
    let id = match c.id {
        Some(i) => i@,
        None => seq![],
    };
    let short = crate::ids::take_chars(id, 6);
    let label = dim_text(author + ":"@, use_color);
    if short.len() == 0 {
        "  "@ + label + " "@ + comment_body(c)
    } else {
        "  ["@ + short + "] "@ + label + " "@ + comment_body(c)
    }
}

fn comment_line(c: &IssueComment, use_color: bool) -> (r: String)
    ensures
        r@ == comment_line_text(*c, use_color),
{
    let mut author = if c.author.unicode_len() == 0 {
        owned("unknown")
    } else {
        c.author.clone()
    };
    author.append(":");
    let label = dim(&author, use_color);
    let id = match &c.id {
        Some(i) => i.clone(),
        None => String::new(),
    };
    let n = id.unicode_len();
    let short = if n <= 6 {
        id
    } else {
        substring(&id, 0, 6)
    };
    let body = match &c.text {
        Some(t) => t.clone(),
        None => String::new(),
    };
    let mut out = if short.unicode_len() == 0 {
        owned("  ")
    } else {
        join3("  [", &short, "] ")
    };
    out.append(&label);
    out.append(" ");
    out.append(&body);
    out
}

/// The labels of an issue joined by ", ", or "-".
pub open spec fn labels_text(labels: Seq<Seq<char>>) -> Seq<char> {
    if labels.len() == 0 {
        "-"@
    } else {
        joined(labels, ", "@)
    }
}

/// The dependency lines `  {type}: {target}`.
pub open spec fn dependency_lines(deps: Seq<crate::models::DependencyLink>) -> Seq<Seq<char>> {
    deps.map_values(|d: crate::models::DependencyLink| "  "@ + d.dependency_type@ + ": "@ + d.target@)
}

/// The comment lines.
pub open spec fn comment_lines(comments: Seq<IssueComment>, use_color: bool) -> Seq<Seq<char>> {
    comments.map_values(|c: IssueComment| comment_line_text(c, use_color))
}

/// An optional text, or "-".
pub open spec fn or_dash(o: Option<String>) -> Seq<char> {
    match o {
        Some(t) => t@,
        None => "-"@,
    }
}

/// The lines that show an issue.
pub open spec fn display_lines(
    issue: IssueData,
    configuration: Option<ProjectConfiguration>,
    use_color: bool,
    project_context: bool,
) -> Seq<Seq<char>> {
    display_rows(issue, configuration, use_color, project_context) + description_section(issue, use_color)
        + dependency_section(issue, use_color) + comment_section(issue, use_color)
}

/// The field rows of an issue's display.
pub open spec fn display_rows(
    issue: IssueData,
    configuration: Option<ProjectConfiguration>,
    use_color: bool,
    project_context: bool,
) -> Seq<Seq<char>> {
    seq![
        row_text("ID:"@, issue_key_text(issue.identifier@, project_context), None, false, use_color),
        row_text("Title:"@, issue.title@, None, false, use_color),
        row_text("Type:"@, issue.issue_type@, display_type_color(issue.issue_type@, configuration), false, use_color),
        row_text("Status:"@, issue.status@, display_status_color(issue.status@, configuration), false, use_color),
        row_text("Priority:"@, signed_text(issue.priority as int), display_priority_color(issue.priority, configuration), false, use_color),
        row_text("Assignee:"@, or_dash(issue.assignee), None, issue.assignee is None, use_color),
        row_text("Parent:"@, or_dash(issue.parent), None, issue.parent is None, use_color),
        row_text("Labels:"@, labels_text(issue.labels.deep_view()), None, issue.labels@.len() == 0, use_color),
    ]
}

/// The description section: a heading and the description, when there is one.
pub open spec fn description_section(issue: IssueData, use_color: bool) -> Seq<Seq<char>> {
    if issue.description@.len() > 0 {
        seq![dim_text("Description:"@, use_color), issue.description@]
    } else {
        seq![]
    }
}

/// The dependency section: a heading and one line per link, when there are any.
pub open spec fn dependency_section(issue: IssueData, use_color: bool) -> Seq<Seq<char>> {
    if issue.dependencies@.len() > 0 {
        seq![dim_text("Dependencies:"@, use_color)] + dependency_lines(issue.dependencies@)
    } else {
        seq![]
    }
}

/// The comment section: a heading and one line per comment, when there are any.
pub open spec fn comment_section(issue: IssueData, use_color: bool) -> Seq<Seq<char>> {
    if issue.comments@.len() > 0 {
        seq![dim_text("Comments:"@, use_color)] + comment_lines(issue.comments@, use_color)
    } else {
        seq![]
    }
}

/// In an issue's display, the line for its `k`-th dependency comes after
/// the eight field rows, the description section (two lines when there is a
/// description) and the "Dependencies:" heading, and is two spaces, the
/// dependency's type, ": " and its target, in that order.
pub proof fn lemma_dependency_display_lines(
    issue: IssueData,
    configuration: Option<ProjectConfiguration>,
    use_color: bool,
    project_context: bool,
)
    ensures
        forall|k: int|
            0 <= k < issue.dependencies@.len() ==> display_lines(issue, configuration, use_color, project_context)[8
                + (if issue.description@.len() > 0 { 2int } else { 0int }) + 1 + k] == seq![' ', ' ']
                + (#[trigger] issue.dependencies@[k]).dependency_type@ + seq![':', ' '] + issue.dependencies@[k].target@,
{
    reveal_strlit("  ");
    reveal_strlit(": ");
    let rows = display_rows(issue, configuration, use_color, project_context);
    let desc = description_section(issue, use_color);
    let deps = dependency_section(issue, use_color);
    let com = comment_section(issue, use_color);
    assert(rows.len() == 8);
    assert(desc.len() == (if issue.description@.len() > 0 { 2int } else { 0int }));
    assert forall|k: int| 0 <= k < issue.dependencies@.len() implies display_lines(
        issue,
        configuration,
        use_color,
        project_context,
    )[8 + (if issue.description@.len() > 0 { 2int } else { 0int }) + 1 + k] == seq![' ', ' ']
        + (#[trigger] issue.dependencies@[k]).dependency_type@ + seq![':', ' '] + issue.dependencies@[k].target@ by {
        let all = rows + desc + deps + com;
        assert(display_lines(issue, configuration, use_color, project_context) == all);
        let at = 8 + desc.len() + 1 + k;
        assert(all[at] == deps[1 + k]);
        assert(deps[1 + k] == dependency_lines(issue.dependencies@)[k]);
        assert("  "@ =~= seq![' ', ' ']);
        assert(": "@ =~= seq![':', ' ']);
    }
}

fn push_line(lines: &mut Vec<String>, line: String)
    ensures
        final(lines).deep_view() == old(lines).deep_view().push(line@),
{
    let ghost before = lines.deep_view();
    lines.push(line);
    assert(lines.deep_view() =~= before.push(line@));
}

fn or_dash_of(o: &Option<String>) -> (r: String)
    ensures
        r@ == or_dash(*o),
{
    match o {
        Some(t) => t.clone(),
        None => owned("-"),
    }
}

/// Format an issue for human-readable display: its fields, one per line,
/// followed by its description, dependencies and comments when it has any.
pub fn format_issue_for_display(
    issue: &IssueData,
    configuration: Option<&ProjectConfiguration>,
    use_color: bool,
    project_context: bool,
) -> (r: String)
    ensures
        r@ == joined(display_lines(*issue, opt_config(configuration), use_color, project_context), "\n"@),
{
    let mut lines = display_row_lines(issue, configuration, use_color, project_context);
    let ghost rows = lines.deep_view();
    let mut description = description_lines(issue, use_color);
    let mut dependencies = dependency_section_lines(issue, use_color);
    let mut comments = comment_section_lines(issue, use_color);
    let ghost d = description.deep_view();
    let ghost p = dependencies.deep_view();
    let ghost c = comments.deep_view();
    lines.append(&mut description);
    lines.append(&mut dependencies);
    lines.append(&mut comments);
    assert(lines.deep_view() =~= rows + d + p + c);
    join_all(&lines, "\n")
}

fn display_row_lines(
    issue: &IssueData,
    configuration: Option<&ProjectConfiguration>,
    use_color: bool,
    project_context: bool,
) -> (r: Vec<String>)
    ensures
        r.deep_view() == display_rows(*issue, opt_config(configuration), use_color, project_context),
{
    let labels = if issue.labels.len() == 0 {
        owned("-")
    } else {
        join_all(&issue.labels, ", ")
    };
    let mut lines: Vec<String> = Vec::new();
    push_line(&mut lines, row("ID:", &format_issue_key(&issue.identifier, project_context), None, false, use_color));
    push_line(&mut lines, row("Title:", &issue.title, None, false, use_color));
    push_line(&mut lines, row("Type:", &issue.issue_type, type_color(&issue.issue_type, configuration), false, use_color));
    push_line(&mut lines, row("Status:", &issue.status, status_color(&issue.status, configuration), false, use_color));
    let priority_label = priority_text(issue.priority);
    let priority_value = substring(&priority_label, 1, priority_label.unicode_len());
    assert(priority_value@ =~= signed_text(issue.priority as int));
    push_line(&mut lines, row("Priority:", &priority_value, priority_color(issue.priority, configuration), false, use_color));
    push_line(&mut lines, row("Assignee:", &or_dash_of(&issue.assignee), None, issue.assignee.is_none(), use_color));
    push_line(&mut lines, row("Parent:", &or_dash_of(&issue.parent), None, issue.parent.is_none(), use_color));
    push_line(&mut lines, row("Labels:", &labels, None, issue.labels.len() == 0, use_color));
    proof {
        reveal_strlit("-");
    }
    assert(lines.deep_view() =~= display_rows(*issue, opt_config(configuration), use_color, project_context));
    lines
}

fn description_lines(issue: &IssueData, use_color: bool) -> (r: Vec<String>)
    ensures
        r.deep_view() == description_section(*issue, use_color),
{
    let mut lines: Vec<String> = Vec::new();
    if issue.description.unicode_len() > 0 {
        push_line(&mut lines, dim("Description:", use_color));
        push_line(&mut lines, issue.description.clone());
    }
    assert(lines.deep_view() =~= description_section(*issue, use_color));
    lines
}

fn dependency_section_lines(issue: &IssueData, use_color: bool) -> (r: Vec<String>)
    ensures
        r.deep_view() == dependency_section(*issue, use_color),
{
    let mut lines: Vec<String> = Vec::new();
    if issue.dependencies.len() > 0 {
        push_line(&mut lines, dim("Dependencies:", use_color));
        let ghost head = lines.deep_view();
        let mut d: usize = 0;
        while d < issue.dependencies.len()
            invariant
                d <= issue.dependencies@.len(),
                lines.deep_view() == head + dependency_lines(issue.dependencies@).subrange(0, d as int),
            decreases issue.dependencies@.len() - d,
        {
            let dep = &issue.dependencies[d];
            let mut line = join3("  ", &dep.dependency_type, ": ");
            line.append(&dep.target);
            push_line(&mut lines, line);
            assert(lines.deep_view() =~= head + dependency_lines(issue.dependencies@).subrange(0, d + 1));
            d += 1;
        }
        assert(dependency_lines(issue.dependencies@).subrange(0, issue.dependencies@.len() as int) =~= dependency_lines(issue.dependencies@));
    }
    assert(lines.deep_view() =~= dependency_section(*issue, use_color));
    lines
}

fn comment_section_lines(issue: &IssueData, use_color: bool) -> (r: Vec<String>)
    ensures
        r.deep_view() == comment_section(*issue, use_color),
{
    let mut lines: Vec<String> = Vec::new();
    if issue.comments.len() > 0 {
        push_line(&mut lines, dim("Comments:", use_color));
        let ghost head = lines.deep_view();
        let mut k: usize = 0;
        while k < issue.comments.len()
            invariant
                k <= issue.comments@.len(),
                lines.deep_view() == head + comment_lines(issue.comments@, use_color).subrange(0, k as int),
            decreases issue.comments@.len() - k,
        {
            push_line(&mut lines, comment_line(&issue.comments[k], use_color));
            assert(lines.deep_view() =~= head + comment_lines(issue.comments@, use_color).subrange(0, k + 1));
            k += 1;
        }
        assert(comment_lines(issue.comments@, use_color).subrange(0, issue.comments@.len() as int) =~= comment_lines(issue.comments@, use_color));
    }
    assert(lines.deep_view() =~= comment_section(*issue, use_color));
    lines
}

} // verus!
