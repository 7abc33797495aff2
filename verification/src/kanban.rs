//! The kanban board of the agent, driven through its command line: which
//! arguments each request passes to `hermes kanban`, how the command's outcome
//! is read, and the response handed back to the desktop app.
use vstd::prelude::*;
use crate::json::{json_parse, parse_json_text, JsonValue};

verus! {

/// A request to the agent's kanban board.
pub enum KanbanRequest {
    ListBoards { include_archived: Option<bool> },
    ListTasks { board: Option<String>, include_archived: Option<bool> },
    CreateTask {
        title: String,
        body: Option<String>,
        priority: Option<i32>,
        board: Option<String>,
    },
    CreateBoard { slug: String, name: Option<String> },
    Dispatch { board: Option<String> },
    MoveTask { task_id: String, target: String },
    CompleteTask { task_id: String },
    BlockTask { task_id: String, reason: Option<String> },
    UnblockTask { task_id: String },
    ArchiveTask { task_id: String },
    SpecifyTask { task_id: String },
    ReclaimTask { task_id: String },
}

/// The decimal digit `d` (0 to 9).
pub open spec fn digit_char(d: int) -> char {
    seq!['0', '1', '2', '3', '4', '5', '6', '7', '8', '9'][d]
}

/// The decimal digits of `n`, most significant first.
pub open spec fn digits(n: nat) -> Seq<char>
    decreases n,
{
    if n < 10 {
        seq![digit_char(n as int)]
    } else {
        digits(n / 10).push(digit_char((n % 10) as int))
    }
}

/// The decimal text of `n` (`i32::to_string`).
pub open spec fn decimal(n: int) -> Seq<char> {
    if n < 0 {
        seq!['-'] + digits((-n) as nat)
    } else {
        digits(n as nat)
    }
}

fn push_digits(out: &mut Vec<char>, n: u64)
    ensures
        final(out)@ == old(out)@ + digits(n as nat),
    decreases n,
{
    let table: [char; 10] = ['0', '1', '2', '3', '4', '5', '6', '7', '8', '9'];
    assert(table@ == seq!['0', '1', '2', '3', '4', '5', '6', '7', '8', '9']);
    if n >= 10 {
        push_digits(out, n / 10);
    }
    out.push(table[(n % 10) as usize]);
}

/// The decimal text of `n`.
pub fn decimal_string(n: i32) -> (s: String)
    ensures
        s@ == decimal(n as int),
{
    let mut v: Vec<char> = Vec::new();
    let wide: i64 = n as i64;
    if wide < 0 {
        v.push('-');
        push_digits(&mut v, (-wide) as u64);
    } else {
        push_digits(&mut v, wide as u64);
    }
    crate::text::string_of(&v)
}

/// The `kanban` subcommand of a request.
pub open spec fn kanban_sub(r: KanbanRequest) -> Seq<char> {
    match r {
        KanbanRequest::ListBoards { .. } => "list-boards"@,
        KanbanRequest::ListTasks { .. } => "list-tasks"@,
        KanbanRequest::CreateTask { .. } => "create-task"@,
        KanbanRequest::CreateBoard { .. } => "create-board"@,
        KanbanRequest::Dispatch { .. } => "dispatch"@,
        KanbanRequest::MoveTask { .. } => "move"@,
        KanbanRequest::CompleteTask { .. } => "complete"@,
        KanbanRequest::BlockTask { .. } => "block"@,
        KanbanRequest::UnblockTask { .. } => "unblock"@,
        KanbanRequest::ArchiveTask { .. } => "archive"@,
        KanbanRequest::SpecifyTask { .. } => "specify"@,
        KanbanRequest::ReclaimTask { .. } => "reclaim"@,
    }
}

/// `[flag, value]` where the option is given, nothing otherwise.
pub open spec fn opt_pair(flag: Seq<char>, value: Option<String>) -> Seq<Seq<char>> {
    match value {
        Some(v) => seq![flag, v@],
        None => seq![],
    }
}

/// `[flag]` where the switch is on (an absent switch is off).
pub open spec fn opt_switch(flag: Seq<char>, on: Option<bool>) -> Seq<Seq<char>> {
    if on == Some(true) {
        seq![flag]
    } else {
        seq![]
    }
}

/// The arguments that follow the subcommand.
pub open spec fn kanban_extra(r: KanbanRequest) -> Seq<Seq<char>> {
    match r {
        KanbanRequest::ListBoards { include_archived } => opt_switch("--archived"@, include_archived),
        KanbanRequest::ListTasks { board, include_archived } => opt_pair("--board"@, board)
            + opt_switch("--archived"@, include_archived),
        KanbanRequest::CreateTask { title, body, priority, board } => seq![title@] + opt_pair(
            "--body"@,
            body,
        ) + match priority {
            Some(p) => seq!["--priority"@, decimal(p as int)],
            None => seq![],
        } + opt_pair("--board"@, board),
        KanbanRequest::CreateBoard { slug, name } => seq![slug@] + opt_pair("--name"@, name),
        KanbanRequest::Dispatch { board } => opt_pair("--board"@, board),
        KanbanRequest::MoveTask { task_id, target } => seq![task_id@, target@],
        KanbanRequest::CompleteTask { task_id } => seq![task_id@],
        KanbanRequest::BlockTask { task_id, reason } => seq![task_id@] + opt_pair(
            "--reason"@,
            reason,
        ),
        KanbanRequest::UnblockTask { task_id } => seq![task_id@],
        KanbanRequest::ArchiveTask { task_id } => seq![task_id@],
        KanbanRequest::SpecifyTask { task_id } => seq![task_id@],
        KanbanRequest::ReclaimTask { task_id } => seq![task_id@],
    }
}

/// The arguments passed to `hermes`: `kanban`, the subcommand, its arguments,
/// `--profile <name>` where a profile is given, and `--json`.
pub open spec fn kanban_argv_of(r: KanbanRequest, profile: Option<String>) -> Seq<Seq<char>> {
    seq!["kanban"@, kanban_sub(r)] + kanban_extra(r) + opt_pair("--profile"@, profile) + seq![
        "--json"@,
    ]
}

/// The characters of each string.
pub open spec fn arg_views(v: Seq<String>) -> Seq<Seq<char>> {
    v.map_values(|s: String| s@)
}

fn push_arg(args: &mut Vec<String>, a: String)
    ensures
        arg_views(final(args)@) == arg_views(old(args)@) + seq![a@],
{
    args.push(a);
    assert(arg_views(final(args)@) =~= arg_views(old(args)@) + seq![a@]);
}

fn push_opt_pair(args: &mut Vec<String>, flag: &str, value: Option<String>)
    ensures
        arg_views(final(args)@) == arg_views(old(args)@) + opt_pair(flag@, value),
{
    match value {
        Some(v) => {
            let ghost v0 = v@;
            push_arg(args, String::from_str(flag));
            push_arg(args, v);
            assert(seq![flag@] + seq![v0] =~= seq![flag@, v0]);
        },
        None => {
            assert(arg_views(old(args)@) + opt_pair(flag@, value) =~= arg_views(old(args)@));
        },
    }
}

fn push_opt_switch(args: &mut Vec<String>, flag: &str, on: Option<bool>)
    ensures
        arg_views(final(args)@) == arg_views(old(args)@) + opt_switch(flag@, on),
{
    match on {
        Some(true) => {
            push_arg(args, String::from_str(flag));
        },
        _ => {
            assert(arg_views(old(args)@) + opt_switch(flag@, on) =~= arg_views(old(args)@));
        },
    }
}

/// The arguments to pass to `hermes` for a kanban request.
pub fn kanban_argv(request: KanbanRequest, profile: Option<String>) -> (args: Vec<String>)
    ensures
        arg_views(args@) == kanban_argv_of(request, profile),
{
    let ghost r = request;
    let mut args: Vec<String> = Vec::new();
    push_arg(&mut args, String::from_str("kanban"));
    let sub = match &request {
        KanbanRequest::ListBoards { .. } => "list-boards",
        KanbanRequest::ListTasks { .. } => "list-tasks",
        KanbanRequest::CreateTask { .. } => "create-task",
        KanbanRequest::CreateBoard { .. } => "create-board",
        KanbanRequest::Dispatch { .. } => "dispatch",
        KanbanRequest::MoveTask { .. } => "move",
        KanbanRequest::CompleteTask { .. } => "complete",
        KanbanRequest::BlockTask { .. } => "block",
        KanbanRequest::UnblockTask { .. } => "unblock",
        KanbanRequest::ArchiveTask { .. } => "archive",
        KanbanRequest::SpecifyTask { .. } => "specify",
        KanbanRequest::ReclaimTask { .. } => "reclaim",
    };
    push_arg(&mut args, String::from_str(sub));
    let ghost head = arg_views(args@);
    assert(head =~= seq!["kanban"@, kanban_sub(r)]);
    match request {
        KanbanRequest::ListBoards { include_archived } => {
            push_opt_switch(&mut args, "--archived", include_archived);
        },
        KanbanRequest::ListTasks { board, include_archived } => {
            push_opt_pair(&mut args, "--board", board);
            push_opt_switch(&mut args, "--archived", include_archived);
        },
        KanbanRequest::CreateTask { title, body, priority, board } => {
            push_arg(&mut args, title);
            push_opt_pair(&mut args, "--body", body);
            match priority {
                Some(p) => {
                    push_arg(&mut args, String::from_str("--priority"));
                    push_arg(&mut args, decimal_string(p));
                },
                None => {},
            }
            push_opt_pair(&mut args, "--board", board);
        },
        KanbanRequest::CreateBoard { slug, name } => {
            push_arg(&mut args, slug);
            push_opt_pair(&mut args, "--name", name);
        },
        KanbanRequest::Dispatch { board } => {
            push_opt_pair(&mut args, "--board", board);
        },
        KanbanRequest::MoveTask { task_id, target } => {
            push_arg(&mut args, task_id);
            push_arg(&mut args, target);
        },
        KanbanRequest::CompleteTask { task_id } => {
            push_arg(&mut args, task_id);
        },
        KanbanRequest::BlockTask { task_id, reason } => {
            push_arg(&mut args, task_id);
            push_opt_pair(&mut args, "--reason", reason);
        },
        KanbanRequest::UnblockTask { task_id } => {
            push_arg(&mut args, task_id);
        },
        KanbanRequest::ArchiveTask { task_id } => {
            push_arg(&mut args, task_id);
        },
        KanbanRequest::SpecifyTask { task_id } => {
            push_arg(&mut args, task_id);
        },
        KanbanRequest::ReclaimTask { task_id } => {
            push_arg(&mut args, task_id);
        },
    }
    assert(arg_views(args@) =~= head + kanban_extra(r));
    push_opt_pair(&mut args, "--profile", profile);
    push_arg(&mut args, String::from_str("--json"));
    args
}

/// How running the `hermes` command went.
pub enum CommandOutcome {
    /// The program was not found.
    NotFound,
    /// The program could not be started for another reason, given as text.
    SpawnFailed(String),
    /// The program ran; its exit status and its output as text.
    Finished { success: bool, stdout: String, stderr: String },
}

/// What a run of `hermes` gives back: its standard output where it succeeded,
/// else the reason it failed.
pub open spec fn command_result(o: CommandOutcome) -> Result<Seq<char>, Seq<char>> {
    match o {
        CommandOutcome::NotFound => Err("Hermes not installed"@),
        CommandOutcome::SpawnFailed(msg) => Err(msg@),
        CommandOutcome::Finished { success, stdout, stderr } => if success {
            Ok(stdout@)
        } else {
            Err(stderr@)
        },
    }
}

/// The output of a successful run of `hermes`, or the reason it failed.
pub fn hermes_output(outcome: CommandOutcome) -> (r: Result<String, String>)
    ensures
        match r {
            Ok(s) => command_result(outcome) == Ok::<Seq<char>, Seq<char>>(s@),
            Err(e) => command_result(outcome) == Err::<Seq<char>, Seq<char>>(e@),
        },
{
    match outcome {
        CommandOutcome::NotFound => Err(String::from_str("Hermes not installed")),
        CommandOutcome::SpawnFailed(msg) => Err(msg),
        CommandOutcome::Finished { success, stdout, stderr } => if success {
            Ok(stdout)
        } else {
            Err(stderr)
        },
    }
}

/// The answer to a kanban request.
pub struct KanbanResponse {
    pub success: bool,
    pub data: Option<JsonValue>,
    pub error: Option<String>,
}

impl KanbanResponse {
    /// The answer of a command that ran and printed `data`.
    pub fn succeeded(data: JsonValue) -> (r: KanbanResponse)
        ensures
            r.success,
            r.data == Some(data),
            r.error is None,
    {
        KanbanResponse { success: true, data: Some(data), error: None }
    }

    /// The answer of a command that failed for `reason`.
    pub fn failed(reason: String) -> (r: KanbanResponse)
        ensures
            !r.success,
            r.data is None,
            r.error matches Some(e) && e@ == reason@,
    {
        KanbanResponse { success: false, data: None, error: Some(reason) }
    }
}

/// The answer to a kanban request, from the outcome of its command (see
/// `hermes_output`): a command that failed gives an unsuccessful answer with
/// its reason; the output of one that succeeded is parsed as JSON and becomes
/// the data of a successful answer, or, where it is not JSON, the parse error
/// is returned instead of an answer.
pub fn kanban_response(run: Result<String, String>) -> (r: Result<KanbanResponse, String>)
    ensures
        match run {
            Err(reason) => r matches Ok(resp) && !resp.success && resp.data is None && (
            resp.error matches Some(e) && e@ == reason@),
            Ok(out) => match json_parse(out@) {
                Ok(v) => r matches Ok(resp) && resp.success && resp.data == Some(v)
                    && resp.error is None,
                Err(msg) => r matches Err(e) && e@ == msg,
            },
        },
{
    match run {
        Err(reason) => Ok(KanbanResponse::failed(reason)),
        Ok(out) => match parse_json_text(out.as_str()) {
            Ok(v) => Ok(KanbanResponse::succeeded(v)),
            Err(e) => Err(e),
        },
    }
}

// Laws of the kanban command line.

/// The value of a digit character.
pub open spec fn digit_value(c: char) -> int {
    (c as int) - ('0' as int)
}

/// The number that a string of decimal digits denotes.
pub open spec fn digits_value(s: Seq<char>) -> int
    decreases s.len(),
{
    if s.len() == 0 {
        0
    } else {
        digits_value(s.drop_last()) * 10 + digit_value(s.last())
    }
}

proof fn lemma_digit_value(d: int)
    requires
        0 <= d < 10,
    ensures
        digit_value(digit_char(d)) == d,
        '0' <= digit_char(d) <= '9',
{
    assert('0' as int == 48 && '1' as int == 49 && '2' as int == 50 && '3' as int == 51 && '4' as int
        == 52 && '5' as int == 53 && '6' as int == 54 && '7' as int == 55 && '8' as int == 56 && '9' as int == 57);
}

/// The decimal text of a number denotes that number, and is made of digits only.
pub proof fn lemma_digits_value(n: nat)
    ensures
        digits_value(digits(n)) == n,
        digits(n).len() > 0,
        forall|i: int| 0 <= i < digits(n).len() ==> '0' <= #[trigger] digits(n)[i] <= '9',
    decreases n,
{
    let table = seq!['0', '1', '2', '3', '4', '5', '6', '7', '8', '9'];
    assert(table[0] == '0' && table[1] == '1' && table[2] == '2' && table[3] == '3' && table[4]
        == '4' && table[5] == '5' && table[6] == '6' && table[7] == '7' && table[8] == '8'
        && table[9] == '9');
    if n < 10 {
        lemma_digit_value(n as int);
        assert(digits(n) =~= seq![digit_char(n as int)]);
        assert(digits(n).drop_last() =~= Seq::<char>::empty());
        assert(digits_value(digits(n)) == digits_value(digits(n).drop_last()) * 10 + digit_value(
            digits(n).last(),
        ));
    } else {
        lemma_digits_value(n / 10);
        lemma_digit_value((n % 10) as int);
        let d = digits(n);
        assert(d.drop_last() =~= digits(n / 10));
        assert(d.last() == digit_char((n % 10) as int));
        assert(digits_value(d) == digits_value(d.drop_last()) * 10 + digit_value(d.last()));
        assert(n == (n / 10) * 10 + n % 10);
        assert forall|i: int| 0 <= i < d.len() implies '0' <= #[trigger] d[i] <= '9' by {
            if i < d.len() - 1 {
                assert(d[i] == digits(n / 10)[i]);
            }
        }
    }
}

/// The arguments of every kanban request begin with `kanban` and the
/// subcommand and end with `--json`, just after `--profile <name>` where a
/// profile is given.
pub proof fn lemma_kanban_argv_shape(r: KanbanRequest, profile: Option<String>)
    ensures
        kanban_argv_of(r, profile).len() >= 3,
        kanban_argv_of(r, profile)[0] == "kanban"@,
        kanban_argv_of(r, profile)[1] == kanban_sub(r),
        kanban_argv_of(r, profile).last() == "--json"@,
        profile matches Some(p) ==> kanban_argv_of(r, profile)[kanban_argv_of(r, profile).len()
            - 3] == "--profile"@ && kanban_argv_of(r, profile)[kanban_argv_of(r, profile).len()
            - 2] == p@,
{
}

/// The exact command line of each kanban request (without a profile): the
/// subcommand, then its positional arguments, then each option that is given
/// with its flag in front of it, then `--json`. A board that is given always
/// follows `--board`; an option that is not given leaves no flag.
pub proof fn lemma_kanban_argv_exact(r: KanbanRequest)
    ensures
        r matches KanbanRequest::ListBoards { include_archived } ==> kanban_argv_of(r, None)
            == seq!["kanban"@, "list-boards"@] + (if include_archived == Some(true) {
            seq!["--archived"@]
        } else {
            seq![]
        }) + seq!["--json"@],
        r matches KanbanRequest::ListTasks { board: Some(b), include_archived }
            ==> kanban_argv_of(r, None) == seq!["kanban"@, "list-tasks"@, "--board"@, b@] + (
        if include_archived == Some(true) {
            seq!["--archived"@]
        } else {
            seq![]
        }) + seq!["--json"@],
        r matches KanbanRequest::ListTasks { board: None, include_archived }
            ==> kanban_argv_of(r, None) == seq!["kanban"@, "list-tasks"@] + (if include_archived
            == Some(true) {
            seq!["--archived"@]
        } else {
            seq![]
        }) + seq!["--json"@],
        r matches KanbanRequest::CreateTask { title, body, priority, board }
            ==> kanban_argv_of(r, None) == seq!["kanban"@, "create-task"@, title@] + (match body {
            Some(x) => seq!["--body"@, x@],
            None => seq![],
        }) + (match priority {
            Some(p) => seq!["--priority"@, decimal(p as int)],
            None => seq![],
        }) + (match board {
            Some(b) => seq!["--board"@, b@],
            None => seq![],
        }) + seq!["--json"@],
        r matches KanbanRequest::CreateBoard { slug, name: Some(n) } ==> kanban_argv_of(r, None)
            == seq!["kanban"@, "create-board"@, slug@, "--name"@, n@, "--json"@],
        r matches KanbanRequest::CreateBoard { slug, name: None } ==> kanban_argv_of(r, None)
            == seq!["kanban"@, "create-board"@, slug@, "--json"@],
        r matches KanbanRequest::Dispatch { board: Some(b) } ==> kanban_argv_of(r, None)
            == seq!["kanban"@, "dispatch"@, "--board"@, b@, "--json"@],
        r matches KanbanRequest::Dispatch { board: None } ==> kanban_argv_of(r, None)
            == seq!["kanban"@, "dispatch"@, "--json"@],
        r matches KanbanRequest::MoveTask { task_id, target } ==> kanban_argv_of(r, None)
            == seq!["kanban"@, "move"@, task_id@, target@, "--json"@],
        r matches KanbanRequest::CompleteTask { task_id } ==> kanban_argv_of(r, None)
            == seq!["kanban"@, "complete"@, task_id@, "--json"@],
        r matches KanbanRequest::BlockTask { task_id, reason: Some(x) } ==> kanban_argv_of(r, None)
            == seq!["kanban"@, "block"@, task_id@, "--reason"@, x@, "--json"@],
        r matches KanbanRequest::BlockTask { task_id, reason: None } ==> kanban_argv_of(r, None)
            == seq!["kanban"@, "block"@, task_id@, "--json"@],
        r matches KanbanRequest::UnblockTask { task_id } ==> kanban_argv_of(r, None)
            == seq!["kanban"@, "unblock"@, task_id@, "--json"@],
        r matches KanbanRequest::ArchiveTask { task_id } ==> kanban_argv_of(r, None)
            == seq!["kanban"@, "archive"@, task_id@, "--json"@],
        r matches KanbanRequest::SpecifyTask { task_id } ==> kanban_argv_of(r, None)
            == seq!["kanban"@, "specify"@, task_id@, "--json"@],
        r matches KanbanRequest::ReclaimTask { task_id } ==> kanban_argv_of(r, None)
            == seq!["kanban"@, "reclaim"@, task_id@, "--json"@],
{
    let a = kanban_argv_of(r, None);
    match r {
        KanbanRequest::ListBoards { include_archived } => {
            assert(a =~= seq!["kanban"@, "list-boards"@] + (if include_archived == Some(true) {
                seq!["--archived"@]
            } else {
                seq![]
            }) + seq!["--json"@]);
        },
        KanbanRequest::ListTasks { board, include_archived } => {
            let sw: Seq<Seq<char>> = if include_archived == Some(true) {
                seq!["--archived"@]
            } else {
                seq![]
            };
            match board {
                Some(b) => {
                    assert(a =~= seq!["kanban"@, "list-tasks"@, "--board"@, b@] + sw + seq![
                        "--json"@,
                    ]);
                },
                None => {
                    assert(a =~= seq!["kanban"@, "list-tasks"@] + sw + seq!["--json"@]);
                },
            }
        },
        KanbanRequest::CreateTask { title, body, priority, board } => {
            assert(a =~= seq!["kanban"@, "create-task"@, title@] + (match body {
                Some(x) => seq!["--body"@, x@],
                None => seq![],
            }) + (match priority {
                Some(p) => seq!["--priority"@, decimal(p as int)],
                None => seq![],
            }) + (match board {
                Some(b) => seq!["--board"@, b@],
                None => seq![],
            }) + seq!["--json"@]);
        },
        KanbanRequest::CreateBoard { slug, name } => {
            match name {
                Some(n) => {
                    assert(a =~= seq!["kanban"@, "create-board"@, slug@, "--name"@, n@, "--json"@]);
                },
                None => {
                    assert(a =~= seq!["kanban"@, "create-board"@, slug@, "--json"@]);
                },
            }
        },
        KanbanRequest::Dispatch { board } => {
            match board {
                Some(b) => {
                    assert(a =~= seq!["kanban"@, "dispatch"@, "--board"@, b@, "--json"@]);
                },
                None => {
                    assert(a =~= seq!["kanban"@, "dispatch"@, "--json"@]);
                },
            }
        },
        KanbanRequest::MoveTask { task_id, target } => {
            assert(a =~= seq!["kanban"@, "move"@, task_id@, target@, "--json"@]);
        },
        KanbanRequest::CompleteTask { task_id } => {
            assert(a =~= seq!["kanban"@, "complete"@, task_id@, "--json"@]);
        },
        KanbanRequest::BlockTask { task_id, reason } => {
            match reason {
                Some(x) => {
                    assert(a =~= seq!["kanban"@, "block"@, task_id@, "--reason"@, x@, "--json"@]);
                },
                None => {
                    assert(a =~= seq!["kanban"@, "block"@, task_id@, "--json"@]);
                },
            }
        },
        KanbanRequest::UnblockTask { task_id } => {
            assert(a =~= seq!["kanban"@, "unblock"@, task_id@, "--json"@]);
        },
        KanbanRequest::ArchiveTask { task_id } => {
            assert(a =~= seq!["kanban"@, "archive"@, task_id@, "--json"@]);
        },
        KanbanRequest::SpecifyTask { task_id } => {
            assert(a =~= seq!["kanban"@, "specify"@, task_id@, "--json"@]);
        },
        KanbanRequest::ReclaimTask { task_id } => {
            assert(a =~= seq!["kanban"@, "reclaim"@, task_id@, "--json"@]);
        },
    }
}

} // verus!
