use lazydraft::command::{parse_command, Command, ProjectCommand};

fn args(xs: &[&str]) -> Vec<String> {
    xs.iter().map(|s| s.to_string()).collect()
}

#[test]
fn parses_the_plain_commands() {
    assert!(matches!(parse_command(&args(&["status"])), Some(Command::Status)));
    assert!(matches!(parse_command(&args(&["config"])), Some(Command::Config)));
    assert!(matches!(parse_command(&args(&["info"])), Some(Command::Info)));
    assert!(matches!(parse_command(&args(&["dashboard"])), Some(Command::Dashboard)));
    assert!(parse_command(&args(&[])).is_none());
    assert!(parse_command(&args(&["bogus"])).is_none());
}

#[test]
fn parses_stage_options() {
    match parse_command(&args(&["stage", "--continuous", "--project", "blog"])) {
        Some(Command::Stage(o)) => {
            assert!(o.continuous);
            assert_eq!(o.project.as_deref(), Some("blog"));
        }
        _ => panic!("stage should parse"),
    }
    match parse_command(&args(&["stage"])) {
        Some(Command::Stage(o)) => {
            assert!(!o.continuous);
            assert!(o.project.is_none());
        }
        _ => panic!("stage should parse"),
    }
}

#[test]
fn parses_project_subcommands() {
    assert!(matches!(
        parse_command(&args(&["project"])),
        Some(Command::Project(ProjectCommand::List))
    ));
    assert!(matches!(
        parse_command(&args(&["project", "list"])),
        Some(Command::Project(ProjectCommand::List))
    ));
    match parse_command(&args(&["project", "create", "blog", "my", "site"])) {
        Some(Command::Project(ProjectCommand::Create { name, description })) => {
            assert_eq!(name, "blog");
            assert_eq!(description.as_deref(), Some("my site"));
        }
        _ => panic!("create should parse"),
    }
    assert!(parse_command(&args(&["project", "create"])).is_none());
    match parse_command(&args(&["project", "switch", "blog"])) {
        Some(Command::Project(ProjectCommand::Switch { name })) => assert_eq!(name, "blog"),
        _ => panic!("switch should parse"),
    }
    match parse_command(&args(&["project", "rename", "a", "b"])) {
        Some(Command::Project(ProjectCommand::Rename { old_name, new_name })) => {
            assert_eq!(old_name, "a");
            assert_eq!(new_name, "b");
        }
        _ => panic!("rename should parse"),
    }
    assert!(parse_command(&args(&["project", "rename", "a"])).is_none());
    match parse_command(&args(&["project", "info"])) {
        Some(Command::Project(ProjectCommand::Info { name })) => assert!(name.is_none()),
        _ => panic!("info should parse"),
    }
}
