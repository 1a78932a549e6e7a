//! Single-line issue formatting for list output.

use vstd::prelude::*;
use vstd::string::*;

use crate::cli::{custom_text, custom_text_of};
use crate::ids::{format_issue_key, issue_key_text};
use crate::models::{IssueData, ProjectConfiguration};
use crate::text::{decimal, decimal_text, equals, join3, owned, push_char, utf8_len, utf8_width};

verus! {

/// Column widths for list output, in bytes.
#[derive(Debug, Clone, Copy)]
pub struct Widths {
    pub issue_type: usize,
    pub identifier: usize,
    pub parent: usize,
    pub status: usize,
    pub priority: usize,
}

/// Byte length of a text, capped at the largest `usize`.
pub open spec fn byte_width(s: Seq<char>) -> nat {
    if utf8_len(s) <= usize::MAX {
        utf8_len(s)
    } else {
        usize::MAX as nat
    }
}

/// The byte length of a text (capped at the largest `usize`).
pub fn byte_len(s: &str) -> (r: usize)
    ensures
        r == byte_width(s@),
{
    let n = s.unicode_len();
    let mut total: usize = 0;
    let mut capped = false;
    let mut i: usize = 0;
    while i < n
        invariant
            n == s@.len(),
            i <= n,
            !capped ==> total == utf8_len(s@.subrange(0, i as int)),
            capped ==> total == usize::MAX && utf8_len(s@.subrange(0, i as int)) > usize::MAX,
        decreases n - i,
    {
        let c = s.get_char(i);
        let w: usize = if (c as u32) < 0x80u32 {
            1
        } else if (c as u32) < 0x800u32 {
            2
        } else if (c as u32) < 0x10000u32 {
            3
        } else {
            4
        };
        assert(w == utf8_width(c));
        assert(s@.subrange(0, i + 1).drop_last() =~= s@.subrange(0, i as int));
        if !capped {
            if total > usize::MAX - w {
                total = usize::MAX;
                capped = true;
            } else {
                total = total + w;
            }
        }
        i += 1;
    }
    assert(s@.subrange(0, n as int) =~= s@);
    total
}

/// Decimal text of a signed number.
pub open spec fn signed_text(p: int) -> Seq<char> {
    if p < 0 {
        seq!['-'] + decimal_text((-p) as nat)
    } else {
        decimal_text(p as nat)
    }
}

/// The priority label `P{priority}`.
pub open spec fn priority_label(p: i32) -> Seq<char> {
    seq!['P'] + signed_text(p as int)
}

pub(crate) fn priority_text(p: i32) -> (r: String)
    ensures
        r@ == priority_label(p),
{
    let mut s = String::new();
    push_char(&mut s, 'P');
    if p < 0 {
        push_char(&mut s, '-');
        let magnitude: u64 = (-(p as i64)) as u64;
        s.append(&decimal(magnitude));
    } else {
        s.append(&decimal(p as u64));
    }
    s
}

/// The parent column: the parent's display key, or "-" without a parent.
pub open spec fn parent_display_text(parent: Option<String>, project_context: bool) -> Seq<char> {
    match parent {
        Some(p) => if p@ == "-"@ {
            p@
        } else {
            issue_key_text(p@, project_context)
        },
        None => "-"@,
    }
}

fn parent_display(parent: &Option<String>, project_context: bool) -> (r: String)
    ensures
        r@ == parent_display_text(*parent, project_context),
{
    match parent {
        Some(p) => if equals(p, "-") {
            p.clone()
        } else {
            format_issue_key(p, project_context)
        },
        None => owned("-"),
    }
}

/// The larger of two numbers.
pub open spec fn max_nat(a: nat, b: nat) -> nat {
    if a >= b {
        a
    } else {
        b
    }
}

/// Column widths fitting every issue of the list.
pub open spec fn widths_of(issues: Seq<IssueData>, project_context: bool) -> (nat, nat, nat, nat, nat)
    decreases issues.len(),
{
    if issues.len() == 0 {
        (1, 0, 0, 0, 0)
    } else {
        let w = widths_of(issues.drop_last(), project_context);
        let x = issues.last();
        (
            max_nat(w.0, 1),
            max_nat(w.1, byte_width(issue_key_text(x.identifier@, project_context))),
            max_nat(w.2, byte_width(parent_display_text(x.parent, project_context))),
            max_nat(w.3, byte_width(x.status@)),
            max_nat(w.4, byte_width(priority_label(x.priority))),
        )
    }
}

/// The widths as numbers.
pub open spec fn widths_view(w: Widths) -> (nat, nat, nat, nat, nat) {
    (w.issue_type as nat, w.identifier as nat, w.parent as nat, w.status as nat, w.priority as nat)
}

fn max_usize(a: usize, b: usize) -> (r: usize)
    ensures
        r == max_nat(a as nat, b as nat),
{
    if a >= b {
        a
    } else {
        b
    }
}

fn compute_widths_single(issue: &IssueData, project_context: bool) -> (r: Widths)
    ensures
        widths_view(r) == widths_of(seq![*issue], project_context),
{
    let widths = Widths {
        issue_type: 1,
        identifier: max_usize(0, byte_len(&format_issue_key(&issue.identifier, project_context))),
        parent: max_usize(0, byte_len(&parent_display(&issue.parent, project_context))),
        status: max_usize(0, byte_len(&issue.status)),
        priority: max_usize(0, byte_len(&priority_text(issue.priority))),
    };
    assert(seq![*issue].drop_last() =~= Seq::<IssueData>::empty());
    assert(widths_of(Seq::<IssueData>::empty(), project_context) == (1nat, 0nat, 0nat, 0nat, 0nat));
    assert(seq![*issue].last() == *issue);
    widths
}

/// Compute printable column widths for aligned normal-mode output.
pub fn compute_widths(issues: &[IssueData], project_context: bool) -> (r: Widths)
    ensures
        widths_view(r) == widths_of(issues@, project_context),
{
    let mut widths = Widths { issue_type: 1, identifier: 0, parent: 0, status: 0, priority: 0 };
    let mut i: usize = 0;
    while i < issues.len()
        invariant
            i <= issues@.len(),
            widths_view(widths) == widths_of(issues@.subrange(0, i as int), project_context),
        decreases issues@.len() - i,
    {
        let issue = &issues[i];
        assert(issues@.subrange(0, i + 1).drop_last() =~= issues@.subrange(0, i as int));
        assert(issues@.subrange(0, i + 1).last() == *issue);
        widths.issue_type = max_usize(widths.issue_type, 1);
        widths.status = max_usize(widths.status, byte_len(&issue.status));
        widths.priority = max_usize(widths.priority, byte_len(&priority_text(issue.priority)));
        widths.identifier = max_usize(widths.identifier, byte_len(&format_issue_key(&issue.identifier, project_context)));
        widths.parent = max_usize(widths.parent, byte_len(&parent_display(&issue.parent, project_context)));
        i += 1;
    }
    assert(issues@.subrange(0, issues@.len() as int) =~= issues@);
    widths
}

/// Terminal colors.
#[derive(Debug, Clone, Copy, PartialEq, Eq)]
pub enum AnsiColor {
    Black,
    Red,
    Green,
    Yellow,
    Blue,
    Magenta,
    Cyan,
    White,
    BrightBlack,
    BrightRed,
    BrightGreen,
    BrightYellow,
    BrightBlue,
    BrightMagenta,
    BrightCyan,
    BrightWhite,
}

/// The color a configuration names, if it is one of the sixteen.
pub open spec fn color_named(name: Seq<char>) -> Option<AnsiColor> {
if name == "black"@ {
        Some(AnsiColor::Black)
    } else if name == "red"@ {
        Some(AnsiColor::Red)
    } else if name == "green"@ {
        Some(AnsiColor::Green)
    } else if name == "yellow"@ {
        Some(AnsiColor::Yellow)
    } else if name == "blue"@ {
        Some(AnsiColor::Blue)
    } else if name == "magenta"@ {
        Some(AnsiColor::Magenta)
    } else if name == "cyan"@ {
        Some(AnsiColor::Cyan)
    } else if name == "white"@ {
        Some(AnsiColor::White)
    } else if name == "bright_black"@ {
        Some(AnsiColor::BrightBlack)
    } else if name == "bright_red"@ {
        Some(AnsiColor::BrightRed)
    } else if name == "bright_green"@ {
        Some(AnsiColor::BrightGreen)
    } else if name == "bright_yellow"@ {
        Some(AnsiColor::BrightYellow)
    } else if name == "bright_blue"@ {
        Some(AnsiColor::BrightBlue)
    } else if name == "bright_magenta"@ {
        Some(AnsiColor::BrightMagenta)
    } else if name == "bright_cyan"@ {
        Some(AnsiColor::BrightCyan)
    } else if name == "bright_white"@ {
        Some(AnsiColor::BrightWhite)
    } else {
        None
    }
}

/// Parse a color name.
pub fn parse_color(name: &str) -> (r: Option<AnsiColor>)
    ensures
        r == color_named(name@),
{
if equals(name, "black") {
        Some(AnsiColor::Black)
    } else if equals(name, "red") {
        Some(AnsiColor::Red)
    } else if equals(name, "green") {
        Some(AnsiColor::Green)
    } else if equals(name, "yellow") {
        Some(AnsiColor::Yellow)
    } else if equals(name, "blue") {
        Some(AnsiColor::Blue)
    } else if equals(name, "magenta") {
        Some(AnsiColor::Magenta)
    } else if equals(name, "cyan") {
        Some(AnsiColor::Cyan)
    } else if equals(name, "white") {
        Some(AnsiColor::White)
    } else if equals(name, "bright_black") {
        Some(AnsiColor::BrightBlack)
    } else if equals(name, "bright_red") {
        Some(AnsiColor::BrightRed)
    } else if equals(name, "bright_green") {
        Some(AnsiColor::BrightGreen)
    } else if equals(name, "bright_yellow") {
        Some(AnsiColor::BrightYellow)
    } else if equals(name, "bright_blue") {
        Some(AnsiColor::BrightBlue)
    } else if equals(name, "bright_magenta") {
        Some(AnsiColor::BrightMagenta)
    } else if equals(name, "bright_cyan") {
        Some(AnsiColor::BrightCyan)
    } else if equals(name, "bright_white") {
        Some(AnsiColor::BrightWhite)
    } else {
        None
    }
}

/// The foreground code of an `owo_colors` color name: its
/// `From<&str>` for `AnsiColors` reads these names, "purple" as magenta, and
/// any other name as white.
pub open spec fn owo_fg_code(name: Seq<char>) -> nat {
    if name == "black"@ {
        30
    } else if name == "red"@ {
        31
    } else if name == "green"@ {
        32
    } else if name == "yellow"@ {
        33
    } else if name == "blue"@ {
        34
    } else if name == "magenta"@ || name == "purple"@ {
        35
    } else if name == "cyan"@ {
        36
    } else if name == "white"@ {
        37
    } else if name == "bright black"@ {
        90
    } else if name == "bright red"@ {
        91
    } else if name == "bright green"@ {
        92
    } else if name == "bright yellow"@ {
        93
    } else if name == "bright blue"@ {
        94
    } else if name == "bright magenta"@ {
        95
    } else if name == "bright cyan"@ {
        96
    } else if name == "bright white"@ {
        97
    } else {
        37
    }
}

/// Text in a foreground color: the color's escape sequence, the text, and
/// the escape sequence that restores the default foreground.
pub open spec fn colored(text: Seq<char>, code: nat) -> Seq<char> {
    seq!['\x1b', '['] + decimal_text(code) + seq!['m'] + text + seq!['\x1b', '[', '3', '9', 'm']
}

/// Paint a text: `owo_colors::OwoColorize::color` with the `AnsiColors`
/// that the name gives, written out with `to_string`; the crate writes
/// `ESC [ {code} m`, the text, then `ESC [ 39 m`.
#[verifier::external_body]
pub(crate) fn paint_named(text: &str, name: &str) -> (r: String)
    ensures
        r@ == colored(text@, owo_fg_code(name@)),
{
    owo_colors::OwoColorize::color(&text, owo_colors::AnsiColors::from(name)).to_string()
}

/// The `owo_colors` name of a color.
pub open spec fn owo_name(c: AnsiColor) -> Seq<char> {
    match c {
        AnsiColor::Black => "black"@,
        AnsiColor::Red => "red"@,
        AnsiColor::Green => "green"@,
        AnsiColor::Yellow => "yellow"@,
        AnsiColor::Blue => "blue"@,
        AnsiColor::Magenta => "magenta"@,
        AnsiColor::Cyan => "cyan"@,
        AnsiColor::White => "white"@,
        AnsiColor::BrightBlack => "bright black"@,
        AnsiColor::BrightRed => "bright red"@,
        AnsiColor::BrightGreen => "bright green"@,
        AnsiColor::BrightYellow => "bright yellow"@,
        AnsiColor::BrightBlue => "bright blue"@,
        AnsiColor::BrightMagenta => "bright magenta"@,
        AnsiColor::BrightCyan => "bright cyan"@,
        AnsiColor::BrightWhite => "bright white"@,
    }
}

pub(crate) fn owo_color_name(c: AnsiColor) -> (r: &'static str)
    ensures
        r@ == owo_name(c),
{
    match c {
        AnsiColor::Black => "black",
        AnsiColor::Red => "red",
        AnsiColor::Green => "green",
        AnsiColor::Yellow => "yellow",
        AnsiColor::Blue => "blue",
        AnsiColor::Magenta => "magenta",
        AnsiColor::Cyan => "cyan",
        AnsiColor::White => "white",
        AnsiColor::BrightBlack => "bright black",
        AnsiColor::BrightRed => "bright red",
        AnsiColor::BrightGreen => "bright green",
        AnsiColor::BrightYellow => "bright yellow",
        AnsiColor::BrightBlue => "bright blue",
        AnsiColor::BrightMagenta => "bright magenta",
        AnsiColor::BrightCyan => "bright cyan",
        AnsiColor::BrightWhite => "bright white",
    }
}

/// Text shown in a color, or as it is when there is no color or colors are
/// off.
pub open spec fn paint_text(text: Seq<char>, color: Option<AnsiColor>, use_color: bool) -> Seq<char> {
    match (use_color, color) {
        (true, Some(c)) => colored(text, owo_fg_code(owo_name(c))),
        _ => text,
    }
}

pub(crate) fn paint(text: &str, color: Option<AnsiColor>, use_color: bool) -> (r: String)
    ensures
        r@ == paint_text(text@, color, use_color),
{
    match (use_color, color) {
        (true, Some(c)) => paint_named(text, owo_color_name(c)),
        _ => owned(text),
    }
}

/// Color of a status without configuration.
pub open spec fn default_status_color(status: Seq<char>) -> Option<AnsiColor> {
    if status == "open"@ {
        Some(AnsiColor::Cyan)
    } else if status == "in_progress"@ {
        Some(AnsiColor::Blue)
    } else if status == "blocked"@ {
        Some(AnsiColor::Red)
    } else if status == "closed"@ {
        Some(AnsiColor::Green)
    } else if status == "deferred"@ {
        Some(AnsiColor::Yellow)
    } else {
        Some(AnsiColor::White)
    }
}

fn default_status_color_of(status: &str) -> (r: Option<AnsiColor>)
    ensures
        r == default_status_color(status@),
{
    if equals(status, "open") {
        Some(AnsiColor::Cyan)
    } else if equals(status, "in_progress") {
        Some(AnsiColor::Blue)
    } else if equals(status, "blocked") {
        Some(AnsiColor::Red)
    } else if equals(status, "closed") {
        Some(AnsiColor::Green)
    } else if equals(status, "deferred") {
        Some(AnsiColor::Yellow)
    } else {
        Some(AnsiColor::White)
    }
}

/// Color of a priority without configuration.
pub open spec fn default_priority_color(p: i32) -> Option<AnsiColor> {
    if p == 0 {
        Some(AnsiColor::Red)
    } else if p == 1 {
        Some(AnsiColor::BrightRed)
    } else if p == 2 {
        Some(AnsiColor::Yellow)
    } else if p == 3 {
        Some(AnsiColor::Blue)
    } else {
        Some(AnsiColor::White)
    }
}

/// Color of an issue type without configuration.
pub open spec fn default_type_color(t: Seq<char>) -> Option<AnsiColor> {
    if t == "epic"@ {
        Some(AnsiColor::Magenta)
    } else if t == "initiative"@ {
        Some(AnsiColor::BrightMagenta)
    } else if t == "task"@ || t == "sub-task"@ {
        Some(AnsiColor::White)
    } else if t == "bug"@ {
        Some(AnsiColor::Red)
    } else if t == "story"@ {
        Some(AnsiColor::Cyan)
    } else if t == "chore"@ {
        Some(AnsiColor::Blue)
    } else if t == "event"@ {
        Some(AnsiColor::BrightBlue)
    } else {
        Some(AnsiColor::White)
    }
}

fn default_type_color_of(t: &str) -> (r: Option<AnsiColor>)
    ensures
        r == default_type_color(t@),
{
    if equals(t, "epic") {
        Some(AnsiColor::Magenta)
    } else if equals(t, "initiative") {
        Some(AnsiColor::BrightMagenta)
    } else if equals(t, "task") || equals(t, "sub-task") {
        Some(AnsiColor::White)
    } else if equals(t, "bug") {
        Some(AnsiColor::Red)
    } else if equals(t, "story") {
        Some(AnsiColor::Cyan)
    } else if equals(t, "chore") {
        Some(AnsiColor::Blue)
    } else if equals(t, "event") {
        Some(AnsiColor::BrightBlue)
    } else {
        Some(AnsiColor::White)
    }
}

/// Position of the first status with the given key, or -1.
pub open spec fn status_index(statuses: Seq<crate::models::StatusDefinition>, key: Seq<char>) -> int
    decreases statuses.len(),
{
    if statuses.len() == 0 {
        -1
    } else if statuses[0].key@ == key {
        0
    } else {
        let r = status_index(statuses.drop_first(), key);
        if r < 0 {
            -1
        } else {
            r + 1
        }
    }
}

/// The color of a status: the configured one when its definition names a
/// color, the default otherwise.
pub open spec fn status_color_of(status: Seq<char>, configuration: Option<ProjectConfiguration>) -> Option<AnsiColor> {
    match configuration {
        Some(c) => {
            let i = status_index(c.statuses@, status);
            if 0 <= i < c.statuses@.len() && c.statuses@[i].color is Some {
                color_named(c.statuses@[i].color->Some_0@)
            } else {
                default_status_color(status)
            }
        },
        None => default_status_color(status),
    }
}

fn status_color(status: &str, configuration: Option<&ProjectConfiguration>) -> (r: Option<AnsiColor>)
    ensures
        r == status_color_of(status@, crate::issue_line::opt_config(configuration)),
{
    if let Some(c) = configuration {
        let mut i: usize = 0;
        assert(c.statuses@.subrange(0, c.statuses@.len() as int) =~= c.statuses@);
        while i < c.statuses.len()
            invariant
                i <= c.statuses@.len(),
                opt_config(configuration) == Some(*c),
                status_index(c.statuses@, status@) == (if status_index(c.statuses@.subrange(i as int, c.statuses@.len() as int), status@)
                    < 0 {
                    -1
                } else {
                    status_index(c.statuses@.subrange(i as int, c.statuses@.len() as int), status@) + i
                }),
            decreases c.statuses@.len() - i,
        {
            let ghost rest = c.statuses@.subrange(i as int, c.statuses@.len() as int);
            assert(rest[0] == c.statuses@[i as int]);
            assert(rest.drop_first() =~= c.statuses@.subrange(i + 1, c.statuses@.len() as int));
            if equals(&c.statuses[i].key, status) {
                assert(status_index(rest, status@) == 0);
                assert(status_index(c.statuses@, status@) == i);
                match &c.statuses[i].color {
                    Some(color) => {
                        return parse_color(color);
                    },
                    None => {
                        return default_status_color_of(status);
                    },
                }
            }
            i += 1;
        }
        assert(c.statuses@.subrange(i as int, c.statuses@.len() as int).len() == 0);
    }
    default_status_color_of(status)
}

/// The optional configuration a reference points to.
pub open spec fn opt_config(o: Option<&ProjectConfiguration>) -> Option<ProjectConfiguration> {
    match o {
        Some(c) => Some(*c),
        None => None,
    }
}

/// Position of the first priority with the given value, or -1.
pub open spec fn priority_index(ps: Seq<(u8, crate::models::PriorityDefinition)>, key: u8) -> int
    decreases ps.len(),
{
    if ps.len() == 0 {
        -1
    } else if ps[0].0 == key {
        0
    } else {
        let r = priority_index(ps.drop_first(), key);
        if r < 0 {
            -1
        } else {
            r + 1
        }
    }
}

/// The color of a priority: the configured one for the priority's value
/// (taken modulo 256) when it names a color, the default otherwise.
pub open spec fn priority_color_of(p: i32, configuration: Option<ProjectConfiguration>) -> Option<AnsiColor> {
    match configuration {
        Some(c) => {
            let i = priority_index(c.priorities@, p as u8);
            if 0 <= i < c.priorities@.len() && c.priorities@[i].1.color is Some {
                color_named(c.priorities@[i].1.color->Some_0@)
            } else {
                default_priority_color(p)
            }
        },
        None => default_priority_color(p),
    }
}

fn priority_color(p: i32, configuration: Option<&ProjectConfiguration>) -> (r: Option<AnsiColor>)
    ensures
        r == priority_color_of(p, opt_config(configuration)),
{
    let fallback = if p == 0 {
        Some(AnsiColor::Red)
    } else if p == 1 {
        Some(AnsiColor::BrightRed)
    } else if p == 2 {
        Some(AnsiColor::Yellow)
    } else if p == 3 {
        Some(AnsiColor::Blue)
    } else {
        Some(AnsiColor::White)
    };
    if let Some(c) = configuration {
        let key = p as u8;
        let mut i: usize = 0;
        assert(c.priorities@.subrange(0, c.priorities@.len() as int) =~= c.priorities@);
        while i < c.priorities.len()
            invariant
                i <= c.priorities@.len(),
                opt_config(configuration) == Some(*c),
                key == p as u8,
                fallback == default_priority_color(p),
                priority_index(c.priorities@, key) == (if priority_index(c.priorities@.subrange(i as int, c.priorities@.len() as int), key) < 0 {
                    -1
                } else {
                    priority_index(c.priorities@.subrange(i as int, c.priorities@.len() as int), key) + i
                }),
            decreases c.priorities@.len() - i,
        {
            let ghost rest = c.priorities@.subrange(i as int, c.priorities@.len() as int);
            assert(rest[0] == c.priorities@[i as int]);
            assert(rest.drop_first() =~= c.priorities@.subrange(i + 1, c.priorities@.len() as int));
            if c.priorities[i].0 == key {
                assert(priority_index(rest, key) == 0);
                match &c.priorities[i].1.color {
                    Some(color) => {
                        return parse_color(color);
                    },
                    None => {
                        return fallback;
                    },
                }
            }
            i += 1;
        }
        assert(c.priorities@.subrange(i as int, c.priorities@.len() as int).len() == 0);
    }
    fallback
}

/// Issue types that have a color.
pub open spec fn colored_types(tc: Seq<(String, String)>) -> Seq<Seq<char>> {
    tc.map_values(|e: (String, String)| e.0@)
}

/// The color of an issue type: the configured one when the configuration
/// colors the type, the default otherwise.
pub open spec fn type_color_of(t: Seq<char>, configuration: Option<ProjectConfiguration>) -> Option<AnsiColor> {
    match configuration {
        Some(c) => {
            let i = crate::text::index_in(colored_types(c.type_colors@), t);
            if i >= 0 {
                color_named(c.type_colors@[i].1@)
            } else {
                default_type_color(t)
            }
        },
        None => default_type_color(t),
    }
}

fn type_color(t: &str, configuration: Option<&ProjectConfiguration>) -> (r: Option<AnsiColor>)
    ensures
        r == type_color_of(t@, opt_config(configuration)),
{
    if let Some(c) = configuration {
        let mut names: Vec<String> = Vec::new();
        let mut i: usize = 0;
        while i < c.type_colors.len()
            invariant
                i <= c.type_colors@.len(),
                names.deep_view() == colored_types(c.type_colors@).subrange(0, i as int),
            decreases c.type_colors@.len() - i,
        {
            let ghost before = names.deep_view();
            names.push(c.type_colors[i].0.clone());
            assert(names.deep_view() =~= before.push(c.type_colors@[i as int].0@));
            assert(names.deep_view() =~= colored_types(c.type_colors@).subrange(0, i + 1));
            i += 1;
        }
        assert(colored_types(c.type_colors@).subrange(0, c.type_colors@.len() as int) =~= colored_types(c.type_colors@));
        proof {
            crate::text::lemma_index_in(names.deep_view(), t@);
        }
        if let Some(k) = crate::text::position(&names, t) {
            return parse_color(&c.type_colors[k].1);
        }
    }
    default_type_color_of(t)
}

/// `n` spaces.
pub open spec fn spaces(n: nat) -> Seq<char> {
    Seq::new(n, |i: int| ' ')
}

/// A text padded with spaces on the right to `width` characters.
pub open spec fn pad(s: Seq<char>, width: nat) -> Seq<char> {
    if s.len() >= width {
        s
    } else {
        s + spaces((width - s.len()) as nat)
    }
}

fn pad_to(s: &str, width: usize) -> (r: String)
    ensures
        r@ == pad(s@, width as nat),
{
    let n = s.unicode_len();
    let mut out = owned(s);
    if n >= width {
        return out;
    }
    let mut k: usize = n;
    while k < width
        invariant
            n == s@.len(),
            n <= k <= width,
            out@ == s@ + spaces((k - n) as nat),
        decreases width - k,
    {
        push_char(&mut out, ' ');
        assert(out@ =~= s@ + spaces((k + 1 - n) as nat));
        k += 1;
    }
    out
}

/// ASCII lowercase letters made uppercase, every other character unchanged.
pub open spec fn ascii_upper_char(c: char) -> char {
    if 'a' <= c <= 'z' {
        ((c as u32) - 32) as char
    } else {
        c
    }
}

/// The first letter of an issue type, in uppercase, or a space.
pub open spec fn type_initial(t: Seq<char>) -> char {
    if t.len() == 0 {
        ' '
    } else {
        ascii_upper_char(t[0])
    }
}

fn type_initial_of(t: &str) -> (c: char)
    ensures
        c == type_initial(t@),
{
    if t.unicode_len() == 0 {
        return ' ';
    }
    let c = t.get_char(0);
    if 'a' <= c && c <= 'z' {
        let v: u8 = ((c as u32) - 32) as u8;
        v as char
    } else {
        c
    }
}

/// The issue has no parent to show.
pub open spec fn parent_is_dash(parent: Option<String>) -> bool {
    match parent {
        Some(p) => p@ == "-"@,
        None => true,
    }
}

/// A single-line summary of an issue: in porcelain mode its fields
/// separated by " | "; otherwise its project path (when tagged) followed by
/// aligned, optionally colored columns and the title.
pub open spec fn issue_line_text(
    issue: IssueData,
    w: (nat, nat, nat, nat, nat),
    porcelain: bool,
    project_context: bool,
    configuration: Option<ProjectConfiguration>,
    use_color: bool,
) -> Seq<char> {
    let id = issue_key_text(issue.identifier@, project_context);
    let parent = parent_display_text(issue.parent, project_context);
    if porcelain {
        seq![type_initial(issue.issue_type@)] + " | "@ + id + " | "@ + parent + " | "@ + issue.status@ + " | "@
            + priority_label(issue.priority) + " | "@ + issue.title@
    } else {
        let prefix = match custom_text(issue.custom@, "project_path"@) {
            Some(p) => p + " "@,
            None => seq![],
        };
        let type_part = paint_text(
            pad(seq![type_initial(issue.issue_type@)], w.0),
            type_color_of(issue.issue_type@, configuration),
            use_color,
        );
        let parent_plain = pad(parent, w.2);
        let parent_part = if parent_is_dash(issue.parent) && use_color {
            colored(parent_plain, owo_fg_code(owo_name(AnsiColor::BrightBlack)))
        } else {
            parent_plain
        };
        let status_part = paint_text(pad(issue.status@, w.3), status_color_of(issue.status@, configuration), use_color);
        let priority_part = paint_text(
            pad(priority_label(issue.priority), w.4),
            priority_color_of(issue.priority, configuration),
            use_color,
        );
        prefix + type_part + " "@ + pad(id, w.1) + " "@ + parent_part + " "@ + status_part + " "@ + priority_part + " "@
            + issue.title@
    }
}

/// The widths a line uses: those given, or those of the issue alone.
pub open spec fn line_widths(issue: IssueData, widths: Option<Widths>, project_context: bool) -> (nat, nat, nat, nat, nat) {
    match widths {
        Some(w) => widths_view(w),
        None => widths_of(seq![issue], project_context),
    }
}

/// Render a single-line summary of an issue. `use_color` says whether to
/// color the columns (the caller decides from the terminal and NO_COLOR when
/// the user does not).
pub fn format_issue_line(
    issue: &IssueData,
    widths: Option<&Widths>,
    porcelain: bool,
    project_context: bool,
    configuration: Option<&ProjectConfiguration>,
    use_color: bool,
) -> (r: String)
    ensures
        r@ == issue_line_text(
            *issue,
            line_widths(*issue, match widths {
                Some(w) => Some(*w),
                None => None,
            }, project_context),
            porcelain,
            project_context,
            opt_config(configuration),
            use_color,
        ),
{
    let formatted_identifier = format_issue_key(&issue.identifier, project_context);
    let parent_text = parent_display(&issue.parent, project_context);
    let initial = type_initial_of(&issue.issue_type);
    if porcelain {
        let mut out = String::new();
        push_char(&mut out, initial);
        out.append(" | ");
        out.append(&formatted_identifier);
        out.append(" | ");
        out.append(&parent_text);
        out.append(" | ");
        out.append(&issue.status);
        out.append(" | ");
        out.append(&priority_text(issue.priority));
        out.append(" | ");
        out.append(&issue.title);
        return out;
    }
    let computed = match widths {
        Some(w) => *w,
        None => compute_widths_single(issue, project_context),
    };
    let prefix = match custom_text_of(&issue.custom, "project_path") {
        Some(p) => {
            let mut x = p;
            x.append(" ");
            x
        },
        None => String::new(),
    };
    let mut initial_text = String::new();
    push_char(&mut initial_text, initial);
    let type_part = paint(&pad_to(&initial_text, computed.issue_type), type_color(&issue.issue_type, configuration), use_color);
    let identifier_part = pad_to(&formatted_identifier, computed.identifier);
    let parent_plain = pad_to(&parent_text, computed.parent);
    let dash = match &issue.parent {
        Some(p) => equals(p, "-"),
        None => true,
    };
    let parent_part = if dash && use_color {
        paint_named(&parent_plain, owo_color_name(AnsiColor::BrightBlack))
    } else {
        parent_plain
    };
    let status_part = paint(&pad_to(&issue.status, computed.status), status_color(&issue.status, configuration), use_color);
    let priority_part = paint(
        &pad_to(&priority_text(issue.priority), computed.priority),
        priority_color(issue.priority, configuration),
        use_color,
    );
    let mut out = prefix;
    out.append(&type_part);
    out.append(" ");
    out.append(&identifier_part);
    out.append(" ");
    out.append(&parent_part);
    out.append(" ");
    out.append(&status_part);
    out.append(" ");
    out.append(&priority_part);
    out.append(" ");
    out.append(&issue.title);
    out
}

} // verus!
