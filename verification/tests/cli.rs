use arbitrary::{Arbitrary, Unstructured};
use teamy_robocopy::cli::command::robocopy_logs_tui::{
    RobocopyLogsTuiArgs, TailAction, TailEvent, TailRequest, TailState,
};
use teamy_robocopy::cli::global_args::GlobalArgs;
use teamy_robocopy::cli::json_log_behaviour::JsonLogBehaviour;
use teamy_robocopy::cli::{Cli, Command};
use teamy_robocopy::logging::{default_filter_directives, Level, DEFAULT_EXTRA_FILTERS};

/// An arbitrary command line, field by field in declaration order.
fn arbitrary_cli(u: &mut Unstructured<'_>) -> arbitrary::Result<Cli> {
    let debug = bool::arbitrary(u)?;
    let json = Option::<String>::arbitrary(u)?;
    let console_pid = Option::<u32>::arbitrary(u)?;
    let _variant = u32::arbitrary(u)?;
    let robocopy_log_file_path = String::arbitrary(u)?;
    let skip_to_present = bool::arbitrary(u)?;
    Ok(Cli {
        global_args: GlobalArgs::new(debug, json, console_pid),
        command: Command::RobocopyLogsTui(RobocopyLogsTuiArgs {
            robocopy_log_file_path,
            skip_to_present,
        }),
    })
}

#[test]
fn fuzz_cli_args_consistency() {
    let mut data = vec![123u8; 1024];
    let mut rng = Unstructured::new(&data);

    for i in 0..50 {
        let cli = if let Ok(cli) = arbitrary_cli(&mut rng) {
            cli
        } else {
            data = vec![u8::try_from(i * 2).unwrap(); 1024];
            rng = Unstructured::new(&data);
            arbitrary_cli(&mut rng).expect("Failed to generate CLI instance")
        };

        let args1 = cli.to_args();
        let args2 = cli.to_args();

        assert_eq!(args1, args2, "CLI.to_args() should be deterministic for iteration {i}");
    }
}

fn cli(debug: bool, json: Option<&str>, pid: Option<u32>, path: &str) -> Cli {
    Cli {
        global_args: GlobalArgs::new(debug, json.map(str::to_string), pid),
        command: Command::RobocopyLogsTui(RobocopyLogsTuiArgs {
            robocopy_log_file_path: path.to_string(),
            skip_to_present: true,
        }),
    }
}

#[test]
fn arguments_in_order() {
    assert_eq!(cli(false, None, None, "log.txt").to_args(), vec!["robocopy-logs-tui", "log.txt"]);
    assert_eq!(
        cli(true, Some(""), Some(42), "a b").to_args(),
        vec!["--debug", "--json", "--console-pid", "42", "robocopy-logs-tui", "a b"]
    );
    assert_eq!(
        cli(false, Some("out.jsonl"), Some(0), "x").args(),
        vec!["--json", "out.jsonl", "--console-pid", "0", "robocopy-logs-tui", "x"]
    );
}

#[test]
fn invocation_on_one_line() {
    assert_eq!(
        cli(true, Some("o.json"), None, "log.txt").display_invocation("robo.exe"),
        "robo.exe --debug --json o.json robocopy-logs-tui log.txt"
    );
    assert_eq!(cli(false, None, None, "").display_invocation("x"), "x robocopy-logs-tui ");
}

#[test]
fn log_level_follows_debug() {
    assert_eq!(GlobalArgs::new(true, None, None).log_level(), Level::Debug);
    assert_eq!(GlobalArgs::new(false, None, None).log_level(), Level::Info);
    assert_eq!(GlobalArgs::default().log_level(), Level::Info);
    assert_eq!(GlobalArgs::default(), GlobalArgs::new(false, None, None));
    assert_eq!(
        RobocopyLogsTuiArgs::default(),
        RobocopyLogsTuiArgs { robocopy_log_file_path: String::new(), skip_to_present: false }
    );
}

#[test]
fn json_flag() {
    assert_eq!(GlobalArgs::new(false, None, None).json_log_behaviour(), JsonLogBehaviour::Disabled);
    assert_eq!(
        GlobalArgs::new(false, Some(String::new()), None).json_log_behaviour(),
        JsonLogBehaviour::AutomaticPath
    );
    let given = GlobalArgs::new(false, Some("a.jsonl".to_string()), None).json_log_behaviour();
    assert_eq!(given, JsonLogBehaviour::Path("a.jsonl".to_string()));
    assert_eq!(given.given_path(), Some(&"a.jsonl".to_string()));
    assert_eq!(JsonLogBehaviour::AutomaticPath.given_path(), None);
}

#[test]
fn invoke_decides_what_to_do() {
    let plan = cli(true, Some(""), None, "robocopy.log").invoke();
    assert_eq!(plan.log_level, Level::Debug);
    assert_eq!(plan.json_log, JsonLogBehaviour::AutomaticPath);
    assert_eq!(plan.request.path, "robocopy.log");
    assert!(plan.request.skip_to_present);
    let plan = Command::RobocopyLogsTui(RobocopyLogsTuiArgs::default())
        .invoke(&GlobalArgs::new(false, None, Some(7)));
    assert_eq!(plan.log_level, Level::Info);
    assert_eq!(plan.json_log, JsonLogBehaviour::Disabled);
    assert_eq!(plan.request.path, "");
    assert!(!plan.request.skip_to_present);
}

#[test]
fn filter_directives() {
    assert_eq!(default_filter_directives(Level::Info), "INFO,");
    assert_eq!(default_filter_directives(Level::Warn), "WARN,");
    assert_eq!(default_filter_directives(Level::Error), "ERROR,");
    assert_eq!(default_filter_directives(Level::Debug), format!("DEBUG,{DEFAULT_EXTRA_FILTERS}"));
    assert_eq!(default_filter_directives(Level::Trace), format!("TRACE,{DEFAULT_EXTRA_FILTERS}"));
}

#[test]
fn following_a_log_step_by_step() {
    let skipping = TailRequest { path: "x".to_string(), skip_to_present: true };
    let showing = TailRequest { path: "x".to_string(), skip_to_present: false };
    assert_eq!(skipping.start(), TailState::WaitingForFirstChunk);
    assert!(!skipping.start().polls());
    assert!(TailState::CatchingUp.polls());
    assert!(!TailState::Following.polls());
    assert_eq!(
        skipping.on_event(TailState::WaitingForFirstChunk, TailEvent::Chunk),
        (TailState::CatchingUp, TailAction::Accept)
    );
    // Without skipping, the records of the first chunk are shown at once.
    assert_eq!(
        showing.on_event(TailState::WaitingForFirstChunk, TailEvent::Chunk),
        (TailState::Following, TailAction::AcceptAndShow)
    );
    assert_eq!(
        skipping.on_event(TailState::CatchingUp, TailEvent::Chunk),
        (TailState::CatchingUp, TailAction::Accept)
    );
    assert_eq!(
        skipping.on_event(TailState::CatchingUp, TailEvent::NothingWaiting),
        (TailState::Following, TailAction::DrainUnshown)
    );
    assert_eq!(
        skipping.on_event(TailState::Following, TailEvent::Chunk),
        (TailState::Following, TailAction::AcceptAndShow)
    );
    assert_eq!(
        showing.on_event(TailState::Following, TailEvent::NothingWaiting),
        (TailState::Following, TailAction::Nothing)
    );
    assert_eq!(
        showing.on_event(TailState::WaitingForFirstChunk, TailEvent::NothingWaiting),
        (TailState::WaitingForFirstChunk, TailAction::Nothing)
    );
}
