use tally::cli::{AgentsCommand, Cli, CliError, Commands, KeyCommand, TeamsCommand};

#[test]
fn clap_parses_version() {
    let cli = Cli::try_parse_from(&["tally", "version"]).expect("parse 'tally version'");
    assert!(matches!(cli.command, Commands::Version));
}

#[test]
fn clap_parses_init_with_force() {
    let cli = Cli::try_parse_from(&["tally", "init", "--force"]).expect("parse 'tally init --force'");
    match cli.command {
        Commands::Init(args) => assert!(args.force),
        other => panic!("expected Init, got {:?}", other),
    }
}

#[test]
fn clap_parses_teams_status() {
    let cli = Cli::try_parse_from(&["tally", "teams", "status", "abc123"]).expect("parse teams status");
    match cli.command {
        Commands::Teams(TeamsCommand::Status { team_id }) => {
            assert_eq!(team_id, "abc123");
        }
        other => panic!("expected Teams::Status, got {:?}", other),
    }
}

#[test]
fn clap_parses_agents_register() {
    let cli = Cli::try_parse_from(&[
        "tally",
        "agents",
        "register",
        "--team",
        "T1",
        "--identity",
        "AAAA",
        "--context",
        "ctx-A",
    ])
    .expect("parse agents register");
    match cli.command {
        Commands::Agents(AgentsCommand::Register { team, identity, context }) => {
            assert_eq!(team, "T1");
            assert_eq!(identity, "AAAA");
            assert_eq!(context, "ctx-A");
        }
        other => panic!("expected Agents::Register, got {:?}", other),
    }
}

#[test]
fn clap_parses_agents_key_issue() {
    let cli = Cli::try_parse_from(&["tally", "agents", "key", "issue", "--team", "T1", "--identity", "AAAA"])
        .expect("parse agents key issue");
    match cli.command {
        Commands::Agents(AgentsCommand::Key(KeyCommand::Issue { team, identity })) => {
            assert_eq!(team, "T1");
            assert_eq!(identity, "AAAA");
        }
        other => panic!("expected Agents::Key::Issue, got {:?}", other),
    }
}

#[test]
fn clap_parses_agents_key_revoke() {
    let cli = Cli::try_parse_from(&["tally", "agents", "key", "revoke", "--team", "T1", "--identity", "AAAA"])
        .expect("parse agents key revoke");
    assert!(matches!(cli.command, Commands::Agents(AgentsCommand::Key(KeyCommand::Revoke { .. }))));
}

#[test]
fn clap_rejects_unknown_command() {
    let result = Cli::try_parse_from(&["tally", "bogus"]);
    assert!(result.is_err(), "unknown command should fail to parse; got: {:?}", result);
}

#[test]
fn cli_register_context_defaults() {
    let cli = Cli::try_parse_from(&["tally", "agents", "register", "--identity=ID", "--team", "T"]).unwrap();
    match cli.command {
        Commands::Agents(AgentsCommand::Register { team, identity, context }) => {
            assert_eq!(team, "T");
            assert_eq!(identity, "ID");
            assert_eq!(context, "default");
        }
        other => panic!("expected Agents::Register, got {:?}", other),
    }
}

#[test]
fn cli_unregister_requires_context() {
    let r = Cli::try_parse_from(&["tally", "agents", "unregister", "--team", "T", "--identity", "I"]);
    assert!(matches!(r, Err(CliError::MissingRequired(ref n)) if n == "context"));
}

#[test]
fn cli_teams_delete_force_after_operand() {
    let cli = Cli::try_parse_from(&["tally", "teams", "delete", "t-9", "--force"]).unwrap();
    match cli.command {
        Commands::Teams(TeamsCommand::Delete { team_id, force }) => {
            assert_eq!(team_id, "t-9");
            assert!(force);
        }
        other => panic!("expected Teams::Delete, got {:?}", other),
    }
}

#[test]
fn cli_errors() {
    assert!(matches!(Cli::try_parse_from(&["tally"]), Err(CliError::MissingSubcommand)));
    assert!(matches!(Cli::try_parse_from(&["tally", "--help"]), Err(CliError::DisplayHelp)));
    assert!(matches!(Cli::try_parse_from(&["tally", "-V"]), Err(CliError::DisplayVersion)));
    assert!(matches!(Cli::try_parse_from(&["tally", "init", "--force", "--force"]), Err(CliError::ArgumentConflict(_))));
    assert!(matches!(Cli::try_parse_from(&["tally", "init", "--force=yes"]), Err(CliError::UnexpectedValue(_))));
    assert!(matches!(Cli::try_parse_from(&["tally", "init", "extra"]), Err(CliError::UnknownArgument(_))));
    assert!(matches!(Cli::try_parse_from(&["tally", "teams", "status"]), Err(CliError::MissingRequired(_))));
    assert!(matches!(Cli::try_parse_from(&["tally", "agents", "key", "issue", "--team"]), Err(CliError::MissingValue(_))));
    assert!(matches!(Cli::try_parse_from(&["tally", "teams", "frobnicate", "x"]), Err(CliError::InvalidSubcommand(_))));
}

#[test]
fn cli_deploy_path() {
    let cli = Cli::try_parse_from(&["tally", "deploy", "--wrangler-toml", "conf/wrangler.toml"]).unwrap();
    match cli.command {
        Commands::Deploy(args) => assert_eq!(args.wrangler_toml.as_deref(), Some("conf/wrangler.toml")),
        other => panic!("expected Deploy, got {:?}", other),
    }
    let cli = Cli::try_parse_from(&["tally", "deploy"]).unwrap();
    match cli.command {
        Commands::Deploy(args) => assert!(args.wrangler_toml.is_none()),
        other => panic!("expected Deploy, got {:?}", other),
    }
}
