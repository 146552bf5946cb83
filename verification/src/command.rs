//! Parsing of the command line into the commands the tool executes.
use crate::strutil::str_eq;
use vstd::prelude::*;

verus! {

/// Options of the stage command.
pub struct StageOptions {
    pub continuous: bool,
    pub project: Option<String>,
}

/// A project-management subcommand.
pub enum ProjectCommand {
    List,
    Create { name: String, description: Option<String> },
    Switch { name: String },
    Delete { name: String },
    Info { name: Option<String> },
    Rename { old_name: String, new_name: String },
}

/// A top-level command.
pub enum Command {
    Status,
    Stage(StageOptions),
    Config,
    Info,
    Project(ProjectCommand),
    Dashboard,
}

/// Mathematical model of the stage options.
pub ghost struct StageOptionsV {
    pub continuous: bool,
    pub project: Option<Seq<char>>,
}

/// Mathematical model of a project subcommand.
pub ghost enum ProjectCommandV {
    List,
    Create { name: Seq<char>, description: Option<Seq<char>> },
    Switch { name: Seq<char> },
    Delete { name: Seq<char> },
    Info { name: Option<Seq<char>> },
    Rename { old_name: Seq<char>, new_name: Seq<char> },
}

/// Mathematical model of a command.
pub ghost enum CommandV {
    Status,
    Stage(StageOptionsV),
    Config,
    Info,
    Project(ProjectCommandV),
    Dashboard,
}

/// The view of an optional string argument.
pub open spec fn opt_arg_view(o: Option<String>) -> Option<Seq<char>> {
    match o {
        Option::Some(s) => Some(s@),
        Option::None => None,
    }
}

impl View for StageOptions {
    type V = StageOptionsV;

    open spec fn view(&self) -> StageOptionsV {
        StageOptionsV { continuous: self.continuous, project: opt_arg_view(self.project) }
    }
}

impl View for ProjectCommand {
    type V = ProjectCommandV;

    open spec fn view(&self) -> ProjectCommandV {
        match self {
            ProjectCommand::List => ProjectCommandV::List,
            ProjectCommand::Create { name, description } => ProjectCommandV::Create {
                name: name@,
                description: opt_arg_view(*description),
            },
            ProjectCommand::Switch { name } => ProjectCommandV::Switch { name: name@ },
            ProjectCommand::Delete { name } => ProjectCommandV::Delete { name: name@ },
            ProjectCommand::Info { name } => ProjectCommandV::Info { name: opt_arg_view(*name) },
            ProjectCommand::Rename { old_name, new_name } => ProjectCommandV::Rename {
                old_name: old_name@,
                new_name: new_name@,
            },
        }
    }
}

impl View for Command {
    type V = CommandV;

    open spec fn view(&self) -> CommandV {
        match self {
            Command::Status => CommandV::Status,
            Command::Stage(o) => CommandV::Stage(o@),
            Command::Config => CommandV::Config,
            Command::Info => CommandV::Info,
            Command::Project(c) => CommandV::Project(c@),
            Command::Dashboard => CommandV::Dashboard,
        }
    }
}

/// The value following the first `--project` flag, if any.
pub open spec fn spec_project_flag(args: Seq<Seq<char>>, i: int) -> Option<Seq<char>>
    decreases args.len() - i,
{
    if i < 0 || i >= args.len() {
        None
    } else if args[i] == "--project"@ && i + 1 < args.len() {
        Some(args[i + 1])
    } else {
        spec_project_flag(args, i + 1)
    }
}

/// Whether some argument equals the given literal.
pub open spec fn spec_has_arg(args: Seq<Seq<char>>, lit: Seq<char>) -> bool {
    exists|i: int| 0 <= i < args.len() && args[i] == lit
}

/// The views of the argument list.
pub open spec fn arg_views(args: Seq<String>) -> Seq<Seq<char>> {
    args.map_values(|a: String| a@)
}

/// What the project subcommand arguments parse to.
pub open spec fn spec_parse_project_command(args: Seq<Seq<char>>) -> Option<CommandV> {
    if args.len() == 0 {
        Some(CommandV::Project(ProjectCommandV::List))
    } else if args[0] == "list"@ {
        Some(CommandV::Project(ProjectCommandV::List))
    } else if args[0] == "create"@ {
        if args.len() < 2 {
            None
        } else {
            let description = if args.len() > 2 {
                Some(join_spaced(args, 2))
            } else {
                None
            };
            Some(CommandV::Project(ProjectCommandV::Create { name: args[1], description }))
        }
    } else if args[0] == "switch"@ {
        if args.len() < 2 {
            None
        } else {
            Some(CommandV::Project(ProjectCommandV::Switch { name: args[1] }))
        }
    } else if args[0] == "delete"@ {
        if args.len() < 2 {
            None
        } else {
            Some(CommandV::Project(ProjectCommandV::Delete { name: args[1] }))
        }
    } else if args[0] == "info"@ {
        let name = if args.len() > 1 {
            Some(args[1])
        } else {
            None
        };
        Some(CommandV::Project(ProjectCommandV::Info { name }))
    } else if args[0] == "rename"@ {
        if args.len() < 3 {
            None
        } else {
            Some(
                CommandV::Project(
                    ProjectCommandV::Rename { old_name: args[1], new_name: args[2] },
                ),
            )
        }
    } else {
        None
    }
}

/// The arguments from `i` on, joined with single spaces.
pub open spec fn join_spaced(args: Seq<Seq<char>>, i: int) -> Seq<char>
    decreases args.len() - i,
{
    if i < 0 || i >= args.len() {
        Seq::empty()
    } else if i == args.len() - 1 {
        args[i]
    } else {
        args[i] + seq![' '] + join_spaced(args, i + 1)
    }
}

/// What a command line parses to: the first argument picks the command;
/// an empty or unknown command line parses to nothing.
pub open spec fn spec_parse_command(args: Seq<Seq<char>>) -> Option<CommandV> {
    if args.len() == 0 {
        None
    } else if args[0] == "status"@ {
        Some(CommandV::Status)
    } else if args[0] == "stage"@ {
        Some(
            CommandV::Stage(
                StageOptionsV {
                    continuous: spec_has_arg(args, "--continuous"@),
                    project: spec_project_flag(args, 0),
                },
            ),
        )
    } else if args[0] == "config"@ {
        Some(CommandV::Config)
    } else if args[0] == "info"@ {
        Some(CommandV::Info)
    } else if args[0] == "project"@ {
        spec_parse_project_command(args.drop_first())
    } else if args[0] == "dashboard"@ {
        Some(CommandV::Dashboard)
    } else {
        None
    }
}

/// The value following the first `--project` flag, if any.
pub fn extract_project_flag(args: &Vec<String>) -> (r: Option<String>)
    ensures
        opt_arg_view(r) == spec_project_flag(arg_views(args@), 0),
{
    let ghost av = arg_views(args@);
    let mut i: usize = 0;
    while i < args.len()
        invariant
            0 <= i <= args.len(),
            spec_project_flag(av, 0) == spec_project_flag(av, i as int),
        decreases args.len() - i,
    {
        if str_eq(args[i].as_str(), "--project") && i + 1 < args.len() {
            assert(av[i as int] == "--project"@);
            return Some(args[i + 1].clone());
        }
        assert(!(av[i as int] == "--project"@ && i + 1 < av.len()));
        i = i + 1;
    }
    None
}

fn has_arg(args: &Vec<String>, lit: &str) -> (r: bool)
    ensures
        r == spec_has_arg(arg_views(args@), lit@),
{
    let ghost av = arg_views(args@);
    let mut i: usize = 0;
    while i < args.len()
        invariant
            0 <= i <= args.len(),
            forall|j: int| 0 <= j < i ==> #[trigger] av[j] != lit@,
        decreases args.len() - i,
    {
        if str_eq(args[i].as_str(), lit) {
            assert(av[i as int] == lit@);
            return true;
        }
        assert(av[i as int] != lit@);
        i = i + 1;
    }
    false
}

fn join_args_spaced(args: &Vec<String>, from: usize) -> (r: String)
    requires
        from < args@.len(),
    ensures
        r@ == join_spaced(arg_views(args@), from as int),
{
    let ghost av = arg_views(args@);
    let total = args.len();
    assert(from < total);
    let mut out = crate::strutil::str_to_chars(args[from].as_str());
    let mut i: usize = from + 1;
    proof {
        if from as int == av.len() - 1 {
            assert(out@ == join_spaced(av, from as int));
        }
    }
    while i < args.len()
        invariant
            from < i <= args.len(),
            join_spaced(av, from as int) == out@ + tail_join(av, i as int),
        decreases args.len() - i,
    {
        out.push(' ');
        let ac = crate::strutil::str_to_chars(args[i].as_str());
        crate::strutil::push_chars(&mut out, &ac);
        proof {
            lemma_join_spaced_step(av, from as int, i as int);
        }
        i = i + 1;
    }
    crate::strutil::chars_to_string(&out)
}

/// What remains of a spaced join after the first `i - from` arguments.
pub open spec fn tail_join(args: Seq<Seq<char>>, i: int) -> Seq<char> {
    if i >= args.len() {
        Seq::empty()
    } else {
        seq![' '] + join_spaced(args, i)
    }
}

proof fn lemma_join_spaced_step(args: Seq<Seq<char>>, from: int, i: int)
    requires
        0 <= from < i <= args.len(),
    ensures
        i < args.len() ==> tail_join(args, i) == seq![' '] + args[i] + tail_join(args, i + 1),
        join_spaced(args, from) == join_spaced(args, from) + tail_join(args, args.len() as int),
{
    assert(join_spaced(args, from) + Seq::<char>::empty() =~= join_spaced(args, from));
    if i < args.len() {
        if i == args.len() - 1 {
            assert(tail_join(args, i) =~= seq![' '] + args[i] + tail_join(args, i + 1));
        } else {
            assert(tail_join(args, i) =~= seq![' '] + args[i] + tail_join(args, i + 1));
        }
    }
}

/// Parse the arguments of the `project` command.
fn parse_project_command(args: &Vec<String>, from: usize) -> (r: Option<Command>)
    requires
        from <= args@.len(),
    ensures
        opt_cmd_view(r) == spec_parse_project_command(arg_views(args@).skip(from as int)),
{
    let ghost av = arg_views(args@).skip(from as int);
    let n = args.len() - from;
    if n == 0 {
        return Some(Command::Project(ProjectCommand::List));
    }
    assert(av[0] == args@[from as int]@);
    if str_eq(args[from].as_str(), "list") {
        Some(Command::Project(ProjectCommand::List))
    } else if str_eq(args[from].as_str(), "create") {
        if n < 2 {
            return None;
        }
        assert(av[1] == args@[from + 1]@);
        let name = args[from + 1].clone();
        let description = if n > 2 {
            proof {
                assert(join_spaced(av, 2) == join_spaced(arg_views(args@), from + 2)) by {
                    lemma_join_skip(arg_views(args@), from as int, 2);
                }
            }
            Some(join_args_spaced(args, from + 2))
        } else {
            None
        };
        Some(Command::Project(ProjectCommand::Create { name, description }))
    } else if str_eq(args[from].as_str(), "switch") {
        if n < 2 {
            return None;
        }
        Some(Command::Project(ProjectCommand::Switch { name: args[from + 1].clone() }))
    } else if str_eq(args[from].as_str(), "delete") {
        if n < 2 {
            return None;
        }
        Some(Command::Project(ProjectCommand::Delete { name: args[from + 1].clone() }))
    } else if str_eq(args[from].as_str(), "info") {
        let name = if n > 1 {
            Some(args[from + 1].clone())
        } else {
            None
        };
        Some(Command::Project(ProjectCommand::Info { name }))
    } else if str_eq(args[from].as_str(), "rename") {
        if n < 3 {
            return None;
        }
        Some(
            Command::Project(
                ProjectCommand::Rename {
                    old_name: args[from + 1].clone(),
                    new_name: args[from + 2].clone(),
                },
            ),
        )
    } else {
        None
    }
}

proof fn lemma_join_skip(args: Seq<Seq<char>>, from: int, k: int)
    requires
        0 <= from,
        0 <= k,
        from + k <= args.len(),
    ensures
        join_spaced(args.skip(from), k) == join_spaced(args, from + k),
    decreases args.len() - from - k,
{
    if from + k < args.len() {
        lemma_join_skip(args, from, k + 1);
        assert(args.skip(from)[k] == args[from + k]);
    }
}

/// The view of an optionally parsed command.
pub open spec fn opt_cmd_view(o: Option<Command>) -> Option<CommandV> {
    match o {
        Option::Some(c) => Some(c@),
        Option::None => None,
    }
}

/// Parse a command line.
pub fn parse_command(args: &Vec<String>) -> (r: Option<Command>)
    ensures
        opt_cmd_view(r) == spec_parse_command(arg_views(args@)),
{
    let ghost av = arg_views(args@);
    if args.len() == 0 {
        return None;
    }
    assert(av[0] == args@[0]@);
    if str_eq(args[0].as_str(), "status") {
        Some(Command::Status)
    } else if str_eq(args[0].as_str(), "stage") {
        let continuous = has_arg(args, "--continuous");
        let project = extract_project_flag(args);
        Some(Command::Stage(StageOptions { continuous, project }))
    } else if str_eq(args[0].as_str(), "config") {
        Some(Command::Config)
    } else if str_eq(args[0].as_str(), "info") {
        Some(Command::Info)
    } else if str_eq(args[0].as_str(), "project") {
        proof {
            assert(av.skip(1) =~~= av.drop_first());
        }
        parse_project_command(args, 1)
    } else if str_eq(args[0].as_str(), "dashboard") {
        Some(Command::Dashboard)
    } else {
        None
    }
}

} // verus!
