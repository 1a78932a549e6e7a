//! Command-line decisions: which commands check the project, alias
//! expansion, and the texts and errors the commands show.

use vstd::prelude::*;
use vstd::string::*;

use crate::dependencies::{blocked_by_text, has_link_of_type, is_blocked};
use crate::error::KanbusError;
use crate::models::{DependencyLink, FieldValue, IssueComment, IssueData, ProjectConfiguration};
use crate::text::{equals, has_prefix, join3, join_first, joined_with, owned, starts_with, trim, trim_ws};

verus! {

/// Lifecycle subcommands.
pub enum LifecycleCommands {
    /// Batch compact (summarize) issues based on lifecycle policies.
    Compact { all: bool, query: Option<String>, dry_run: bool, archived_only: bool, max_items: Option<usize> },
}

/// Setup subcommands.
pub enum SetupCommands {
    /// Ensure AGENTS.md includes the project guidance.
    Agents { force: bool },
}

/// File editing subcommands.
pub enum EditCommands {
    /// View file contents or list a directory.
    View { path: String, view_range: Option<Vec<i32>> },
    /// Replace exact text in a file.
    StrReplace { path: String, old_str: String, new_str: String },
    /// Create a new file with the given content.
    Create { path: String, file_text: String },
}

/// Commands of the command line.
pub enum Commands {
    /// Issue lifecycle management commands.
    Lifecycle { command: LifecycleCommands },
    /// Initialize a project in the current repository.
    Init { local: bool },
    /// Set up helper files.
    Setup { command: SetupCommands },
    /// List issues.
    List {
        status: Option<String>,
        issue_type: Option<String>,
        assignee: Option<String>,
        label: Option<String>,
        parent: Option<String>,
        sort: Option<String>,
        search: Option<String>,
        project: Vec<String>,
        no_local: bool,
        local_only: bool,
        limit: Option<usize>,
        all: bool,
        porcelain: bool,
        full_ids: bool,
    },
    /// List issues that are ready to work on.
    Ready { no_local: bool, local_only: bool },
    /// Show one issue.
    Show { identifier: String },
    /// Close an issue.
    Close { identifier: String },
    /// Repair the project structure.
    Repair { yes: bool },
    /// Edit files.
    Edit { command: EditCommands },
}

/// Parsed command line.
pub struct Cli {
    /// Beads compatibility mode.
    pub beads: bool,
    /// Disable policy guidance hooks for this command.
    pub no_guidance: bool,
    /// Disable all lifecycle hooks for this command.
    pub no_hooks: bool,
    pub command: Commands,
}

/// Output of a command run.
pub struct CommandOutput {
    pub stdout: String,
    pub stderr: String,
}

/// Commands that run before a project exists, or that repair or edit it,
/// are exempt from the project checks.
pub open spec fn exempt_command(command: Commands) -> bool {
    command is Init || command is Setup || command is Repair || command is Edit
}

/// The title of a new issue: the words given on the command line joined by
/// spaces; a blank title is refused.
pub fn create_title(words: &Vec<String>) -> (r: Result<String, KanbusError>)
    ensures
        ({
            let joined = joined_with(words.deep_view(), " "@);
            if trim_ws(joined).len() == 0 {
                r matches Err(e) && e is IssueOperation && e->IssueOperation_0@ == "title is required"@
            } else {
                r matches Ok(t) && t@ == joined
            }
        }),
{
    let joined = join_first(words, words.len(), " ");
    assert(words.deep_view().take(words@.len() as int) =~= words.deep_view());
    if trim(joined.as_str()).unicode_len() == 0 {
        return Err(KanbusError::IssueOperation(owned("title is required")));
    }
    Ok(joined)
}

/// Whether a new issue may be created where the project keeps its issues:
/// in Beads mode neither agent metadata nor a project-local issue can be
/// stored.
pub fn check_create_storage(beads_mode: bool, agent_present: bool, local: bool) -> (r: Result<(), KanbusError>)
    ensures
        beads_mode && agent_present ==> (r matches Err(e) && e is IssueOperation && e->IssueOperation_0@
            == "agent metadata requires native Kanbus issue storage"@),
        beads_mode && !agent_present && local ==> (r matches Err(e) && e is IssueOperation && e->IssueOperation_0@
            == "beads mode does not support local issues"@),
        !(beads_mode && (agent_present || local)) ==> r is Ok,
{
    if beads_mode {
        if let Err(e) = crate::agent_metadata::reject_agent_metadata_in_beads_mode(agent_present) {
            return Err(e);
        }
        if local {
            return Err(KanbusError::IssueOperation(owned("beads mode does not support local issues")));
        }
    }
    Ok(())
}

/// Whether the project version must be enforced before the command runs.
pub fn should_enforce_kanbus_version(command: &Commands) -> (r: bool)
    ensures
        r == !exempt_command(*command),
{
    match command {
        Commands::Init { .. } | Commands::Setup { .. } | Commands::Repair { .. } | Commands::Edit { .. } => false,
        _ => true,
    }
}

/// Whether the project structure is checked before the command runs.
pub fn should_check_project_structure(command: &Commands) -> (r: bool)
    ensures
        r == !exempt_command(*command),
{
    should_enforce_kanbus_version(command)
}

/// Error of a console control command that is no longer offered.
pub fn deprecated_console_control_error(command: &str) -> (e: KanbusError)
    ensures
        e is IssueOperation,
        e->IssueOperation_0@ == "`kbs console "@ + command@
            + "` is deprecated. UI control commands are being migrated to the pub/sub convention and are temporarily unavailable."@,
{
    KanbusError::IssueOperation(
        join3(
            "`kbs console ",
            command,
            "` is deprecated. UI control commands are being migrated to the pub/sub convention and are temporarily unavailable.",
        ),
    )
}

/// Error of the create option that is no longer offered.
pub fn deprecated_create_focus_error() -> (e: KanbusError)
    ensures
        e is IssueOperation,
        e->IssueOperation_0@
            == "`kbs create --focus` is deprecated. UI control commands are being migrated to the pub/sub convention and are temporarily unavailable."@,
{
    KanbusError::IssueOperation(
        owned(
            "`kbs create --focus` is deprecated. UI control commands are being migrated to the pub/sub convention and are temporarily unavailable.",
        ),
    )
}

/// The text value of a custom field, when the field is present and holds
/// text (the first entry with the key; keys do not repeat).
pub open spec fn custom_text(custom: Seq<(String, FieldValue)>, key: Seq<char>) -> Option<Seq<char>>
    decreases custom.len(),
{
    if custom.len() == 0 {
        None
    } else if custom[0].0@ == key {
        match custom[0].1 {
            FieldValue::Text(t) => Some(t@),
            _ => None,
        }
    } else {
        custom_text(custom.drop_first(), key)
    }
}

/// Look up the text value of a custom field.
pub fn custom_text_of(custom: &Vec<(String, FieldValue)>, key: &str) -> (r: Option<String>)
    ensures
        match r {
            Some(t) => custom_text(custom@, key@) == Some(t@),
            None => custom_text(custom@, key@) is None,
        },
{
    let mut i: usize = 0;
    assert(custom@.subrange(0, custom@.len() as int) =~= custom@);
    while i < custom.len()
        invariant
            i <= custom@.len(),
            custom_text(custom@, key@) == custom_text(custom@.subrange(i as int, custom@.len() as int), key@),
        decreases custom@.len() - i,
    {
        let ghost rest = custom@.subrange(i as int, custom@.len() as int);
        assert(rest[0] == custom@[i as int]);
        assert(rest.drop_first() =~= custom@.subrange(i + 1, custom@.len() as int));
        if equals(&custom[i].0, key) {
            return match &custom[i].1 {
                FieldValue::Text(t) => Some(t.clone()),
                _ => None,
            };
        }
        i += 1;
    }
    None
}

/// A ready issue's line: its project path (when tagged) and identifier.
pub open spec fn ready_line_text(issue: IssueData) -> Seq<char> {
    match custom_text(issue.custom@, "project_path"@) {
        Some(p) => p + " "@ + issue.identifier@,
        None => issue.identifier@,
    }
}

/// Format a ready issue for the ready listing.
pub fn format_ready_line(issue: &IssueData) -> (r: String)
    ensures
        r@ == ready_line_text(*issue),
{
    match custom_text_of(&issue.custom, "project_path") {
        Some(p) => join3(&p, " ", &issue.identifier),
        None => issue.identifier.clone(),
    }
}

/// Whether any dependency of the issue blocks it.
pub fn is_issue_blocked(issue: &IssueData) -> (r: bool)
    ensures
        r == has_link_of_type(issue.dependencies@, blocked_by_text()),
{
    is_blocked(issue)
}

/// Reword project-location errors from the daemon with a hint.
pub fn format_daemon_project_error(error: KanbusError) -> (r: KanbusError)
    ensures
        (error matches KanbusError::IssueOperation(m) && has_prefix(m@, "multiple projects found"@)) ==> (r is IssueOperation
            && r->IssueOperation_0@ == "multiple projects found. Run this command from a directory containing a single project/ folder."@),
        (error matches KanbusError::IssueOperation(m) && !has_prefix(m@, "multiple projects found"@) && m@ == "project not initialized"@)
            ==> (r is IssueOperation && r->IssueOperation_0@ == "project not initialized. Run \"kanbus init\" to create a project/ folder."@),
        !(error matches KanbusError::IssueOperation(m) && (has_prefix(m@, "multiple projects found"@) || m@
            == "project not initialized"@)) ==> r == error,
{
    match error {
        KanbusError::IssueOperation(message) => {
            if starts_with(&message, "multiple projects found") {
                KanbusError::IssueOperation(
                    owned("multiple projects found. Run this command from a directory containing a single project/ folder."),
                )
            } else if equals(&message, "project not initialized") {
                KanbusError::IssueOperation(owned("project not initialized. Run \"kanbus init\" to create a project/ folder."))
            } else {
                KanbusError::IssueOperation(message)
            }
        },
        other => other,
    }
}

/// The arguments with the first one after the program name expanded when it
/// is a listing alias.
pub open spec fn expanded_args(args: Seq<Seq<char>>) -> Seq<Seq<char>> {
    if args.len() < 2 {
        args
    } else {
        let first = args[1];
        let rest = args.subrange(2, args.len() as int);
        let head = seq![args[0]];
        if first == "issues"@ {
            head + seq!["list"@] + rest
        } else if first == "epics"@ {
            head + seq!["list"@, "--type"@, "epic"@] + rest
        } else if first == "tasks"@ {
            head + seq!["list"@, "--type"@, "task"@] + rest
        } else if first == "stories"@ {
            head + seq!["list"@, "--type"@, "story"@] + rest
        } else if first == "bugs"@ {
            head + seq!["list"@, "--type"@, "bug"@] + rest
        } else {
            args
        }
    }
}

fn push_arg(v: &mut Vec<String>, s: &str)
    ensures
        final(v).deep_view() == old(v).deep_view().push(s@),
{
    let ghost before = v.deep_view();
    v.push(owned(s));
    assert(v.deep_view() =~= before.push(s@));
}

/// Expand the listing aliases (`issues`, `epics`, `tasks`, `stories`,
/// `bugs`) into `list` with a type filter.
pub fn rewrite_alias_args(args: Vec<String>) -> (r: Vec<String>)
    ensures
        r.deep_view() == expanded_args(args.deep_view()),
{
    let ghost a = args.deep_view();
    if args.len() < 2 {
        return args;
    }
    let mut result: Vec<String> = Vec::new();
    push_arg(&mut result, &args[0]);
    let first = &args[1];
    let kind: Option<&str> = if equals(first, "issues") {
        Some("")
    } else if equals(first, "epics") {
        Some("epic")
    } else if equals(first, "tasks") {
        Some("task")
    } else if equals(first, "stories") {
        Some("story")
    } else if equals(first, "bugs") {
        Some("bug")
    } else {
        None
    };
    match kind {
        None => {
            return args;
        },
        Some(k) => {
            push_arg(&mut result, "list");
            if !equals(first, "issues") {
                push_arg(&mut result, "--type");
                push_arg(&mut result, k);
            }
        },
    }
    let ghost head = result.deep_view();
    let mut i: usize = 2;
    while i < args.len()
        invariant
            2 <= i <= args@.len(),
            a == args.deep_view(),
            result.deep_view() == head + a.subrange(2, i as int),
        decreases args@.len() - i,
    {
        push_arg(&mut result, &args[i]);
        assert(result.deep_view() =~= head + a.subrange(2, i + 1));
        i += 1;
    }
    proof {
        reveal_strlit("issues");
        reveal_strlit("epics");
        reveal_strlit("tasks");
        reveal_strlit("stories");
        reveal_strlit("bugs");
    }
    assert(result.deep_view() =~= expanded_args(a));
    result
}


/// Whether `links` has a link with the target and type of `link`.
pub open spec fn has_link_key(links: Seq<DependencyLink>, link: DependencyLink) -> bool {
    exists|i: int|
        0 <= i < links.len() && (#[trigger] links[i]).target@ == link.target@ && links[i].dependency_type@
            == link.dependency_type@
}

/// `base` followed by each link of `extra` whose target and type are not
/// there yet, in order.
pub open spec fn union_links(base: Seq<DependencyLink>, extra: Seq<DependencyLink>) -> Seq<DependencyLink>
    decreases extra.len(),
{
    if extra.len() == 0 {
        base
    } else {
        let b = union_links(base, extra.drop_last());
        if has_link_key(b, extra.last()) {
            b
        } else {
            b.push(extra.last())
        }
    }
}

/// The text a comment is shown with: its text, or nothing.
pub open spec fn comment_display(c: IssueComment) -> Seq<char> {
    match c.text {
        Some(t) => t@,
        None => seq![],
    }
}

/// Whether two comments are the same comment: the same identifier, or,
/// for comments without one, the same author, text and time.
pub open spec fn same_comment(a: IssueComment, b: IssueComment) -> bool {
    match (a.id, b.id) {
        (Some(x), Some(y)) => x@ == y@,
        (None, None) => a.author@ == b.author@ && comment_display(a) == comment_display(b) && a.created_at
            == b.created_at,
        _ => false,
    }
}

/// Whether `comments` holds the same comment as `c`.
pub open spec fn has_comment(comments: Seq<IssueComment>, c: IssueComment) -> bool {
    exists|i: int| 0 <= i < comments.len() && same_comment(#[trigger] comments[i], c)
}

/// `base` followed by each comment of `extra` that is not there yet.
pub open spec fn union_comments(base: Seq<IssueComment>, extra: Seq<IssueComment>) -> Seq<IssueComment>
    decreases extra.len(),
{
    if extra.len() == 0 {
        base
    } else {
        let b = union_comments(base, extra.drop_last());
        if has_comment(b, extra.last()) {
            b
        } else {
            b.push(extra.last())
        }
    }
}

/// `sorted` with `c` put after every comment no later than it.
pub open spec fn insert_by_time(sorted: Seq<IssueComment>, c: IssueComment) -> Seq<IssueComment>
    decreases sorted.len(),
{
    if sorted.len() == 0 {
        seq![c]
    } else if sorted.last().created_at <= c.created_at {
        sorted.push(c)
    } else {
        insert_by_time(sorted.drop_last(), c).push(sorted.last())
    }
}

/// The comments ordered by time, comments of equal time in their order
/// (a stable sort).
pub open spec fn sort_by_time(comments: Seq<IssueComment>) -> Seq<IssueComment>
    decreases comments.len(),
{
    if comments.len() == 0 {
        seq![]
    } else {
        insert_by_time(sort_by_time(comments.drop_last()), comments.last())
    }
}

/// Whether `custom` has the key `key`.
pub open spec fn has_custom_key(custom: Seq<(String, FieldValue)>, key: Seq<char>) -> bool {
    exists|i: int| 0 <= i < custom.len() && (#[trigger] custom[i]).0@ == key
}

/// `base` with each entry of `extra` whose key it lacks added at the end.
pub open spec fn union_custom(base: Seq<(String, FieldValue)>, extra: Seq<(String, FieldValue)>) -> Seq<
    (String, FieldValue),
>
    decreases extra.len(),
{
    if extra.len() == 0 {
        base
    } else {
        let b = union_custom(base, extra.drop_last());
        if has_custom_key(b, extra.last().0@) {
            b
        } else {
            b.push(extra.last())
        }
    }
}

fn link_key_in(links: &Vec<DependencyLink>, link: &DependencyLink) -> (r: bool)
    ensures
        r == has_link_key(links@, *link),
{
    let mut i: usize = 0;
    while i < links.len()
        invariant
            i <= links@.len(),
            forall|k: int|
                0 <= k < i ==> !((#[trigger] links@[k]).target@ == link.target@ && links@[k].dependency_type@
                    == link.dependency_type@),
        decreases links@.len() - i,
    {
        if equals(&links[i].target, &link.target) && equals(&links[i].dependency_type, &link.dependency_type) {
            return true;
        }
        i += 1;
    }
    false
}

fn same_comment_exec(a: &IssueComment, b: &IssueComment) -> (r: bool)
    ensures
        r == same_comment(*a, *b),
{
    match (&a.id, &b.id) {
        (Some(x), Some(y)) => equals(x, y),
        (None, None) => {
            let same_text = match (&a.text, &b.text) {
                (Some(x), Some(y)) => equals(x, y),
                (Some(x), None) => x.unicode_len() == 0,
                (None, Some(y)) => y.unicode_len() == 0,
                (None, None) => true,
            };
            proof {
                if a.text is Some && b.text is None {
                    assert(comment_display(*b) =~= seq![]);
                    if a.text->0@.len() == 0 {
                        assert(comment_display(*a) =~= seq![]);
                    }
                }
                if a.text is None && b.text is Some {
                    assert(comment_display(*a) =~= seq![]);
                    if b.text->0@.len() == 0 {
                        assert(comment_display(*b) =~= seq![]);
                    }
                }
            }
            equals(&a.author, &b.author) && same_text && a.created_at == b.created_at
        },
        _ => false,
    }
}

fn comment_in(comments: &Vec<IssueComment>, c: &IssueComment) -> (r: bool)
    ensures
        r == has_comment(comments@, *c),
{
    let mut i: usize = 0;
    while i < comments.len()
        invariant
            i <= comments@.len(),
            forall|k: int| 0 <= k < i ==> !same_comment(#[trigger] comments@[k], *c),
        decreases comments@.len() - i,
    {
        if same_comment_exec(&comments[i], c) {
            return true;
        }
        i += 1;
    }
    false
}

fn custom_key_in(custom: &Vec<(String, FieldValue)>, key: &String) -> (r: bool)
    ensures
        r == has_custom_key(custom@, key@),
{
    let mut i: usize = 0;
    while i < custom.len()
        invariant
            i <= custom@.len(),
            forall|k: int| 0 <= k < i ==> (#[trigger] custom@[k]).0@ != key@,
        decreases custom@.len() - i,
    {
        if equals(&custom[i].0, key) {
            return true;
        }
        i += 1;
    }
    false
}

fn insert_comment_by_time(sorted: Vec<IssueComment>, c: IssueComment) -> (r: Vec<IssueComment>)
    ensures
        r@ == insert_by_time(sorted@, c),
    decreases sorted@.len(),
{
    let mut v = sorted;
    if v.len() == 0 {
        v.push(c);
        return v;
    }
    if v[v.len() - 1].created_at <= c.created_at {
        v.push(c);
        return v;
    }
    let ghost before = v@;
    let last = v.pop().unwrap();
    assert(v@ =~= before.drop_last());
    let mut r = insert_comment_by_time(v, c);
    r.push(last);
    r
}

fn merge_links(base: Vec<DependencyLink>, extra: Vec<DependencyLink>) -> (r: Vec<DependencyLink>)
    ensures
        r@ == union_links(base@, extra@),
{
    let ghost all = extra@;
    let mut merged = base;
    let mut rest = extra;
    let mut i: usize = 0;
    let n = rest.len();
    assert(all.subrange(0, 0) =~= Seq::<DependencyLink>::empty());
    while i < n
        invariant
            n == all.len(),
            i <= n,
            rest@ == all.subrange(i as int, n as int),
            merged@ == union_links(base@, all.subrange(0, i as int)),
        decreases n - i,
    {
        assert(all.subrange(0, i + 1).drop_last() =~= all.subrange(0, i as int));
        let link = rest.remove(0);
        assert(rest@ =~= all.subrange(i + 1, n as int));
        if !link_key_in(&merged, &link) {
            merged.push(link);
        }
        i += 1;
    }
    assert(all.subrange(0, n as int) =~= all);
    merged
}

fn merge_comments(base: Vec<IssueComment>, extra: Vec<IssueComment>) -> (r: Vec<IssueComment>)
    ensures
        r@ == union_comments(base@, extra@),
{
    let ghost all = extra@;
    let mut merged = base;
    let mut rest = extra;
    let mut i: usize = 0;
    let n = rest.len();
    assert(all.subrange(0, 0) =~= Seq::<IssueComment>::empty());
    while i < n
        invariant
            n == all.len(),
            i <= n,
            rest@ == all.subrange(i as int, n as int),
            merged@ == union_comments(base@, all.subrange(0, i as int)),
        decreases n - i,
    {
        assert(all.subrange(0, i + 1).drop_last() =~= all.subrange(0, i as int));
        let c = rest.remove(0);
        assert(rest@ =~= all.subrange(i + 1, n as int));
        if !comment_in(&merged, &c) {
            merged.push(c);
        }
        i += 1;
    }
    assert(all.subrange(0, n as int) =~= all);
    merged
}

fn merge_custom(base: Vec<(String, FieldValue)>, extra: Vec<(String, FieldValue)>) -> (r: Vec<(String, FieldValue)>)
    ensures
        r@ == union_custom(base@, extra@),
{
    let ghost all = extra@;
    let mut merged = base;
    let mut rest = extra;
    let mut i: usize = 0;
    let n = rest.len();
    assert(all.subrange(0, 0) =~= Seq::<(String, FieldValue)>::empty());
    while i < n
        invariant
            n == all.len(),
            i <= n,
            rest@ == all.subrange(i as int, n as int),
            merged@ == union_custom(base@, all.subrange(0, i as int)),
        decreases n - i,
    {
        assert(all.subrange(0, i + 1).drop_last() =~= all.subrange(0, i as int));
        let entry = rest.remove(0);
        assert(rest@ =~= all.subrange(i + 1, n as int));
        if !custom_key_in(&merged, &entry.0) {
            merged.push(entry);
        }
        i += 1;
    }
    assert(all.subrange(0, n as int) =~= all);
    merged
}

fn sort_comments_by_time(comments: Vec<IssueComment>) -> (r: Vec<IssueComment>)
    ensures
        r@ == sort_by_time(comments@),
{
    let ghost all = comments@;
    let mut sorted: Vec<IssueComment> = Vec::new();
    let mut rest = comments;
    let mut k: usize = 0;
    let n = rest.len();
    assert(all.subrange(0, 0) =~= Seq::<IssueComment>::empty());
    while k < n
        invariant
            n == all.len(),
            k <= n,
            rest@ == all.subrange(k as int, n as int),
            sorted@ == sort_by_time(all.subrange(0, k as int)),
        decreases n - k,
    {
        let c = rest.remove(0);
        assert(rest@ =~= all.subrange(k + 1, n as int));
        assert(all.subrange(0, k + 1).drop_last() =~= all.subrange(0, k as int));
        sorted = insert_comment_by_time(sorted, c);
        k += 1;
    }
    assert(all.subrange(0, n as int) =~= all);
    sorted
}

/// Merge the Beads view of an issue with its project copy. The Beads view
/// stays the source of truth: project links, comments and custom fields it
/// lacks are added, comments are ordered by time (stably), and empty fields
/// are filled from the project copy.
pub fn merge_issue_views(beads: IssueData, project: IssueData) -> (r: IssueData)
    ensures
        r.identifier == beads.identifier,
        r.title == beads.title,
        r.issue_type == beads.issue_type,
        r.status == beads.status,
        r.priority == beads.priority,
        r.created_at == beads.created_at,
        r.agent == beads.agent,
        r.right_now_summary == beads.right_now_summary,
        r.right_now_updated_at == beads.right_now_updated_at,
        r.dependencies@ == union_links(beads.dependencies@, project.dependencies@),
        r.parent == (if beads.parent is None { project.parent } else { beads.parent }),
        r.comments@ == sort_by_time(union_comments(beads.comments@, project.comments@)),
        r.description == (if beads.description@.len() == 0 && project.description@.len() != 0 {
            project.description
        } else {
            beads.description
        }),
        r.labels == (if beads.labels@.len() == 0 && project.labels@.len() != 0 {
            project.labels
        } else {
            beads.labels
        }),
        r.assignee == (if beads.assignee is None { project.assignee } else { beads.assignee }),
        r.creator == (if beads.creator is None { project.creator } else { beads.creator }),
        r.custom@ == union_custom(beads.custom@, project.custom@),
        r.updated_at == (if project.updated_at > beads.updated_at { project.updated_at } else { beads.updated_at }),
        r.closed_at == (if beads.closed_at is None { project.closed_at } else { beads.closed_at }),
{
    let IssueData {
        identifier, title, description, issue_type, status, priority, assignee, creator, parent, labels,
        dependencies, comments, created_at, updated_at, closed_at, agent, right_now_summary,
        right_now_updated_at, custom,
    } = beads;
    let IssueData {
        description: p_description,
        assignee: p_assignee,
        creator: p_creator,
        parent: p_parent,
        labels: p_labels,
        dependencies: p_dependencies,
        comments: p_comments,
        updated_at: p_updated_at,
        closed_at: p_closed_at,
        custom: p_custom,
        ..
    } = project;
    let description = if description.unicode_len() == 0 && p_description.unicode_len() != 0 {
        p_description
    } else {
        description
    };
    let labels = if labels.len() == 0 && p_labels.len() != 0 {
        p_labels
    } else {
        labels
    };
    IssueData {
        identifier,
        title,
        description,
        issue_type,
        status,
        priority,
        assignee: if assignee.is_none() { p_assignee } else { assignee },
        creator: if creator.is_none() { p_creator } else { creator },
        parent: if parent.is_none() { p_parent } else { parent },
        labels,
        dependencies: merge_links(dependencies, p_dependencies),
        comments: sort_comments_by_time(merge_comments(comments, p_comments)),
        created_at,
        updated_at: if p_updated_at > updated_at { p_updated_at } else { updated_at },
        closed_at: if closed_at.is_none() { p_closed_at } else { closed_at },
        agent,
        right_now_summary,
        right_now_updated_at,
        custom: merge_custom(custom, p_custom),
    }
}

/// Whether the comments are in time order.
pub open spec fn in_time_order(comments: Seq<IssueComment>) -> bool {
    forall|i: int, j: int| 0 <= i < j < comments.len() ==> (#[trigger] comments[i]).created_at <= (#[trigger] comments[j]).created_at
}

proof fn lemma_insert_by_time(sorted: Seq<IssueComment>, c: IssueComment)
    requires
        in_time_order(sorted),
    ensures
        in_time_order(insert_by_time(sorted, c)),
        insert_by_time(sorted, c).to_multiset() == sorted.to_multiset().insert(c),
    decreases sorted.len(),
{
    broadcast use vstd::seq_lib::group_to_multiset_ensures;
    if sorted.len() == 0 {
        assert(insert_by_time(sorted, c) =~= seq![c]);
        assert(seq![c] =~= Seq::<IssueComment>::empty().push(c));
    } else if sorted.last().created_at <= c.created_at {
    } else {
        let d = sorted.drop_last();
        assert(in_time_order(d));
        lemma_insert_by_time(d, c);
        let inner = insert_by_time(d, c);
        let r = inner.push(sorted.last());
        assert forall|x: IssueComment| inner.to_multiset().contains(x) implies x.created_at <= sorted.last().created_at by {
            assert(d.to_multiset().insert(c).contains(x));
            if x != c {
                assert(d.to_multiset().contains(x));
                assert(d.contains(x));
                let k = choose|k: int| 0 <= k < d.len() && d[k] == x;
                assert(sorted[k] == x);
            }
        }
        assert forall|i: int, j: int| 0 <= i < j < r.len() implies (#[trigger] r[i]).created_at <= (#[trigger] r[j]).created_at by {
            if j == r.len() - 1 {
                assert(inner.contains(r[i]));
                assert(inner.to_multiset().contains(r[i]));
            } else {
                assert(r[i] == inner[i] && r[j] == inner[j]);
            }
        }
        assert(sorted =~= d.push(sorted.last()));
    }
}

/// Merged comments come out in time order, as a rearrangement of the
/// comments of both views: sorting by time orders any list of comments
/// and keeps each comment.
pub proof fn lemma_sort_by_time_orders(comments: Seq<IssueComment>)
    ensures
        in_time_order(sort_by_time(comments)),
        sort_by_time(comments).to_multiset() == comments.to_multiset(),
        sort_by_time(comments).len() == comments.len(),
    decreases comments.len(),
{
    broadcast use vstd::seq_lib::group_to_multiset_ensures;
    if comments.len() > 0 {
        let d = comments.drop_last();
        lemma_sort_by_time_orders(d);
        lemma_insert_by_time(sort_by_time(d), comments.last());
        assert(comments =~= d.push(comments.last()));
    }
    assert(sort_by_time(comments).len() == sort_by_time(comments).to_multiset().len());
}

/// The configuration lookup failed because there is no project, which
/// leaves Beads mode off rather than failing.
pub open spec fn no_project_error(e: KanbusError) -> bool {
    ||| e matches KanbusError::IssueOperation(m) && m@ == "project not initialized"@
    ||| e matches KanbusError::Io(m) && m@ == "configuration path lookup failed"@
}

/// Whether Beads mode is on, and whether the command-line flag forced it.
/// Without the flag, `configuration_path` is the outcome of looking up the
/// configuration file, and `load` reads the configuration at a path; the
/// mode is then the configuration's Beads compatibility.
pub fn resolve_beads_mode<F: FnOnce(&str) -> Result<ProjectConfiguration, KanbusError>>(
    beads_flag: bool,
    configuration_path: Result<String, KanbusError>,
    load: F,
) -> (r: Result<(bool, bool), KanbusError>)
    requires
        forall|p: &str| call_requires(load, (p,)),
    ensures
        beads_flag ==> r == Ok::<(bool, bool), KanbusError>((true, true)),
        !beads_flag ==> match configuration_path {
            Err(e) => if no_project_error(e) {
                r == Ok::<(bool, bool), KanbusError>((false, false))
            } else {
                r == Err::<(bool, bool), KanbusError>(e)
            },
            Ok(path) => exists|p: &str, loaded: Result<ProjectConfiguration, KanbusError>|
                p@ == path@ && #[trigger] call_ensures(load, (p,), loaded) && match loaded {
                    Ok(c) => r == Ok::<(bool, bool), KanbusError>((c.beads_compatibility, false)),
                    Err(e) => r == Err::<(bool, bool), KanbusError>(e),
                },
        },
{
    if beads_flag {
        return Ok((true, true));
    }
    let path = match configuration_path {
        Ok(path) => path,
        Err(e) => {
            let quiet = match &e {
                KanbusError::IssueOperation(m) => equals(m.as_str(), "project not initialized"),
                KanbusError::Io(m) => equals(m.as_str(), "configuration path lookup failed"),
                _ => false,
            };
            if quiet {
                return Ok((false, false));
            }
            return Err(e);
        },
    };
    let p = path.as_str();
    let loaded = load(p);
    proof {
        assert(call_ensures(load, (p,), loaded));
    }
    match loaded {
        Ok(c) => Ok((c.beads_compatibility, false)),
        Err(e) => Err(e),
    }
}

} // verus!
