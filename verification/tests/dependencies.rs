use rca::command::{copy_command, copy_names, CommandLine};
use rca::dependencies::{
    cargo_arguments, cargo_override_table, cargo_subcommand_list, check_system_binaries,
    copy_error, copy_errors, find_override, install_cargo_subcommands, install_command,
    install_rustup_components, install_tasks, run_tasks, rustup_arguments,
    rustup_component_list, rustup_override_table, system_binary_list, update,
    update_and_install_dependencies, update_tasks, DependencyError, Event, Installation, Kind,
    Next, Phase, PhaseStatus, Progress, Request, Status, Task, Waiting,
};

fn names(items: &[&str]) -> Vec<String> {
    items.iter().map(|s| s.to_string()).collect()
}

fn line(command: &CommandLine) -> String {
    let mut text = command.program.clone();
    for argument in &command.arguments {
        text.push(' ');
        text.push_str(argument);
    }
    text
}

fn asked(status: Status) -> String {
    match status {
        Status::Ask(Request::Probe(name)) => format!("probe {}", name),
        Status::Ask(Request::Run(command)) => format!("run {}", line(&command)),
        Status::Done(Ok(())) => "done ok".to_string(),
        Status::Done(Err(errors)) => format!("done {:?}", errors),
    }
}

fn phase_asked(status: PhaseStatus) -> String {
    match status {
        PhaseStatus::Ask(Request::Probe(name)) => format!("probe {}", name),
        PhaseStatus::Ask(Request::Run(command)) => format!("run {}", line(&command)),
        PhaseStatus::Done(Ok(())) => "done ok".to_string(),
        PhaseStatus::Done(Err(error)) => format!("done {:?}", error),
    }
}

#[test]
fn required_items_are_listed() {
    assert_eq!(rustup_component_list(), names(&["cargo-clippy", "rustfmt"]));
    assert_eq!(
        cargo_subcommand_list(),
        names(&[
            "cargo-outdated",
            "cargo-audit",
            "cargo-tarpaulin",
            "cargo-crev",
            "cargo-install-update",
            "cargo-expand",
            "cargo-modules",
            "tokei",
        ])
    );
    assert_eq!(system_binary_list(), names(&["git"]));
}

#[test]
fn override_tables_hold_the_special_cases() {
    let rustup = rustup_override_table();
    assert_eq!(rustup.len(), 1);
    assert_eq!(rustup[0].0, "rustfmt");
    let cargo = cargo_override_table();
    let listed: Vec<&str> = cargo.iter().map(|line| line.0.as_str()).collect();
    assert_eq!(listed, vec!["cargo-outdated", "cargo-install-update", "cargo-modules"]);
}

#[test]
fn find_override_takes_the_first_line_of_the_item() {
    let table = vec![
        ("a".to_string(), names(&["1"])),
        ("b".to_string(), names(&["2", "3"])),
        ("a".to_string(), names(&["4"])),
    ];
    assert_eq!(find_override(&table, "a"), Some(names(&["1"])));
    assert_eq!(find_override(&table, "b"), Some(names(&["2", "3"])));
    assert_eq!(find_override(&table, "c"), None);
    assert_eq!(find_override(&Vec::new(), "a"), None);
}

#[test]
fn rustup_arguments_follow_the_table() {
    assert_eq!(
        rustup_arguments("rustfmt"),
        names(&["component", "add", "rustfmt", "--toolchain", "stable"])
    );
    assert_eq!(rustup_arguments("cargo-clippy"), names(&["component", "add", "clippy"]));
    assert_eq!(rustup_arguments("a-b-c"), names(&["component", "add", "b"]));
    assert_eq!(rustup_arguments("cargo-"), names(&["component", "add", ""]));
}

#[test]
fn rustup_arguments_fall_back_to_the_name() {
    assert_eq!(rustup_arguments("miri"), names(&["component", "add", "miri"]));
    assert_eq!(rustup_arguments(""), names(&["component", "add", ""]));
}

#[test]
fn cargo_arguments_follow_the_table() {
    assert_eq!(
        cargo_arguments("cargo-outdated"),
        names(&["install", "--locked", "cargo-outdated"])
    );
    assert_eq!(cargo_arguments("cargo-install-update"), names(&["install", "cargo-update"]));
    assert_eq!(
        cargo_arguments("cargo-modules"),
        names(&["install", "cargo-modules", "--version", "0.5.14"])
    );
    assert_eq!(cargo_arguments("tokei"), names(&["install", "tokei"]));
    assert_eq!(cargo_arguments("cargo-audit"), names(&["install", "cargo-audit"]));
}

#[test]
fn install_command_depends_on_the_kind() {
    assert_eq!(
        line(&install_command(Kind::Rustup, "cargo-clippy").unwrap()),
        "rustup component add clippy"
    );
    assert_eq!(line(&install_command(Kind::Cargo, "tokei").unwrap()), "cargo install tokei");
    assert!(install_command(Kind::System, "git").is_none());
}

#[test]
fn copies_are_equal() {
    assert_eq!(copy_names(&names(&["a", "b"])), names(&["a", "b"]));
    let command = CommandLine { program: "git".to_string(), arguments: names(&["clone", "x"]) };
    assert_eq!(line(&copy_command(&command)), "git clone x");
    let error = DependencyError::ComponentInstallFailed(names(&["a"]));
    assert_eq!(format!("{:?}", copy_error(&error)), format!("{:?}", error));
    let errors = vec![DependencyError::UpdateFailed, error];
    assert_eq!(format!("{:?}", copy_errors(&errors)), format!("{:?}", errors));
}

#[test]
fn update_tasks_are_the_two_commands() {
    let tasks = update_tasks();
    assert_eq!(tasks.len(), 2);
    match &tasks[0] {
        Task::Run { name, command } => {
            assert_eq!(name, "rustup self update");
            assert_eq!(line(command), "rustup self update");
        }
        _ => panic!("the first task is a command"),
    }
    match &tasks[1] {
        Task::Run { name, command } => {
            assert_eq!(name, "rustup update");
            assert_eq!(line(command), "rustup update");
        }
        _ => panic!("the second task is a command"),
    }
}

#[test]
fn install_tasks_follow_the_kind() {
    let tasks = install_tasks(Kind::Cargo, &names(&["tokei"]));
    assert_eq!(tasks.len(), 1);
    assert!(matches!(&tasks[0], Task::Install { name, command }
        if name == "tokei" && line(command) == "cargo install tokei"));
    let tasks = install_tasks(Kind::System, &names(&["git", "sh"]));
    assert_eq!(tasks.len(), 2);
    assert!(matches!(&tasks[1], Task::Require { name } if name == "sh"));
}

#[test]
fn a_present_item_is_not_installed() {
    let tasks = install_tasks(Kind::Cargo, &names(&["tokei", "cargo-audit"]));
    let mut progress = Progress::new();
    let request = run_tasks(&tasks, &mut progress, Event::Start);
    assert!(matches!(request, Some(Request::Probe(name)) if name == "tokei"));
    assert!(matches!(progress.waiting, Waiting::Probe));
    let request = run_tasks(&tasks, &mut progress, Event::Probed(true));
    assert!(matches!(request, Some(Request::Probe(name)) if name == "cargo-audit"));
    assert_eq!(progress.position, 1);
    assert!(progress.failed.is_empty());
}

#[test]
fn a_missing_item_is_installed() {
    let tasks = install_tasks(Kind::Cargo, &names(&["tokei"]));
    let mut progress = Progress::new();
    run_tasks(&tasks, &mut progress, Event::Start);
    let request = run_tasks(&tasks, &mut progress, Event::Probed(false));
    assert!(matches!(request, Some(Request::Run(command))
        if line(&command) == "cargo install tokei"));
    assert_eq!(progress.position, 0);
    assert!(matches!(progress.waiting, Waiting::Launch));
    assert!(run_tasks(&tasks, &mut progress, Event::Launched(true)).is_none());
    assert_eq!(progress.position, 1);
    assert!(progress.failed.is_empty());
}

#[test]
fn a_failed_installation_is_recorded() {
    let tasks = install_tasks(Kind::Rustup, &names(&["cargo-clippy", "rustfmt"]));
    let mut progress = Progress::new();
    run_tasks(&tasks, &mut progress, Event::Start);
    run_tasks(&tasks, &mut progress, Event::Probed(false));
    let request = run_tasks(&tasks, &mut progress, Event::Launched(false));
    assert!(matches!(request, Some(Request::Probe(name)) if name == "rustfmt"));
    assert_eq!(progress.failed, names(&["cargo-clippy"]));
    run_tasks(&tasks, &mut progress, Event::Probed(false));
    assert!(run_tasks(&tasks, &mut progress, Event::Launched(false)).is_none());
    assert_eq!(progress.failed, names(&["cargo-clippy", "rustfmt"]));
    assert_eq!(progress.position, 2);
}

#[test]
fn a_missing_binary_fails_at_once() {
    let tasks = install_tasks(Kind::System, &names(&["git", "sh"]));
    let mut progress = Progress::new();
    run_tasks(&tasks, &mut progress, Event::Start);
    let request = run_tasks(&tasks, &mut progress, Event::Probed(false));
    assert!(matches!(request, Some(Request::Probe(name)) if name == "sh"));
    assert_eq!(progress.failed, names(&["git"]));
    assert!(run_tasks(&tasks, &mut progress, Event::Probed(true)).is_none());
    assert_eq!(progress.failed, names(&["git"]));
}

#[test]
fn an_answer_that_was_not_asked_for_changes_nothing() {
    let tasks = install_tasks(Kind::Cargo, &names(&["tokei"]));
    let mut progress = Progress::new();
    run_tasks(&tasks, &mut progress, Event::Start);
    let request = run_tasks(&tasks, &mut progress, Event::Launched(false));
    assert!(matches!(request, Some(Request::Probe(name)) if name == "tokei"));
    assert_eq!(progress.position, 0);
    assert!(progress.failed.is_empty());
    run_tasks(&tasks, &mut progress, Event::Probed(false));
    let request = run_tasks(&tasks, &mut progress, Event::Probed(true));
    assert!(matches!(request, Some(Request::Run(_))));
    let request = run_tasks(&tasks, &mut progress, Event::Start);
    assert!(matches!(request, Some(Request::Run(_))));
    assert_eq!(progress.position, 0);
}

#[test]
fn no_tasks_are_done_at_once() {
    let mut progress = Progress::new();
    assert!(run_tasks(&Vec::new(), &mut progress, Event::Start).is_none());
    assert_eq!(progress.position, 0);
}

#[test]
fn update_runs_both_commands() {
    let mut progress = Progress::new();
    assert_eq!(phase_asked(update(&mut progress, Event::Start)), "run rustup self update");
    assert_eq!(phase_asked(update(&mut progress, Event::Launched(true))), "run rustup update");
    assert_eq!(phase_asked(update(&mut progress, Event::Launched(true))), "done ok");
}

#[test]
fn update_fails_where_a_command_could_not_start() {
    let mut progress = Progress::new();
    update(&mut progress, Event::Start);
    assert_eq!(phase_asked(update(&mut progress, Event::Launched(false))), "run rustup update");
    assert_eq!(phase_asked(update(&mut progress, Event::Launched(true))), "done UpdateFailed");
    let mut progress = Progress::new();
    update(&mut progress, Event::Start);
    update(&mut progress, Event::Launched(true));
    assert_eq!(phase_asked(update(&mut progress, Event::Launched(false))), "done UpdateFailed");
}

#[test]
fn components_fail_with_their_names() {
    let components = names(&["cargo-clippy", "rustfmt"]);
    let mut progress = Progress::new();
    assert_eq!(
        phase_asked(install_rustup_components(&components, &mut progress, Event::Start)),
        "probe cargo-clippy"
    );
    assert_eq!(
        phase_asked(install_rustup_components(&components, &mut progress, Event::Probed(true))),
        "probe rustfmt"
    );
    assert_eq!(
        phase_asked(install_rustup_components(&components, &mut progress, Event::Probed(false))),
        "run rustup component add rustfmt --toolchain stable"
    );
    assert_eq!(
        phase_asked(install_rustup_components(
            &components,
            &mut progress,
            Event::Launched(false)
        )),
        "done ComponentInstallFailed([\"rustfmt\"])"
    );
}

#[test]
fn subcommands_fail_with_their_names() {
    let subcommands = names(&["tokei"]);
    let mut progress = Progress::new();
    install_cargo_subcommands(&subcommands, &mut progress, Event::Start);
    install_cargo_subcommands(&subcommands, &mut progress, Event::Probed(false));
    assert_eq!(
        phase_asked(install_cargo_subcommands(
            &subcommands,
            &mut progress,
            Event::Launched(false)
        )),
        "done SubcommandsInstallFailed([\"tokei\"])"
    );
    let mut progress = Progress::new();
    install_cargo_subcommands(&subcommands, &mut progress, Event::Start);
    assert_eq!(
        phase_asked(install_cargo_subcommands(&subcommands, &mut progress, Event::Probed(true))),
        "done ok"
    );
}

#[test]
fn binaries_fail_with_their_names() {
    let binaries = names(&["git", "sh"]);
    let mut progress = Progress::new();
    check_system_binaries(&binaries, &mut progress, Event::Start);
    check_system_binaries(&binaries, &mut progress, Event::Probed(false));
    assert_eq!(
        phase_asked(check_system_binaries(&binaries, &mut progress, Event::Probed(false))),
        "done SystemBinariesNotInstalled([\"git\", \"sh\"])"
    );
}

#[test]
fn installer_never_short_circuits() {
    let mut installation = Installation::new(names(&["A"]), Vec::new(), names(&["B"]));
    assert_eq!(asked(installation.step(Event::Start)), "run rustup self update");
    assert_eq!(asked(installation.step(Event::Launched(true))), "run rustup update");
    assert_eq!(asked(installation.step(Event::Launched(true))), "probe A");
    assert_eq!(asked(installation.step(Event::Probed(false))), "run rustup component add A");
    assert_eq!(asked(installation.step(Event::Launched(false))), "probe B");
    match installation.step(Event::Probed(false)) {
        Status::Done(Err(errors)) => {
            assert_eq!(errors.len(), 2);
            assert!(matches!(&errors[0], DependencyError::ComponentInstallFailed(failed)
                if *failed == names(&["A"])));
            assert!(matches!(&errors[1], DependencyError::SystemBinariesNotInstalled(missing)
                if *missing == names(&["B"])));
        }
        _ => panic!("both failures are reported"),
    }
    assert!(matches!(installation.phase, Phase::Finished));
}

#[test]
fn installer_reports_both_failures_among_many_items() {
    let mut installation = Installation::new(
        names(&["x", "A", "y"]),
        names(&["s1", "s2"]),
        names(&["b0", "B", "b2"]),
    );
    installation.step(Event::Start);
    installation.step(Event::Launched(true));
    assert_eq!(asked(installation.step(Event::Launched(false))), "probe x");
    assert_eq!(asked(installation.step(Event::Probed(true))), "probe A");
    assert_eq!(asked(installation.step(Event::Probed(false))), "run rustup component add A");
    assert_eq!(asked(installation.step(Event::Launched(false))), "probe y");
    assert_eq!(asked(installation.step(Event::Probed(false))), "run rustup component add y");
    assert_eq!(asked(installation.step(Event::Launched(true))), "probe s1");
    assert_eq!(asked(installation.step(Event::Probed(true))), "probe s2");
    assert_eq!(asked(installation.step(Event::Probed(true))), "probe b0");
    assert_eq!(asked(installation.step(Event::Probed(true))), "probe B");
    assert_eq!(asked(installation.step(Event::Probed(false))), "probe b2");
    match installation.step(Event::Probed(true)) {
        Status::Done(Err(errors)) => {
            assert_eq!(errors.len(), 3);
            assert!(matches!(&errors[0], DependencyError::UpdateFailed));
            assert!(matches!(&errors[1], DependencyError::ComponentInstallFailed(failed)
                if *failed == names(&["A"])));
            assert!(matches!(&errors[2], DependencyError::SystemBinariesNotInstalled(missing)
                if *missing == names(&["B"])));
        }
        _ => panic!("every failure is reported"),
    }
}

#[test]
fn installer_reports_every_phase_in_order() {
    let mut installation = Installation::new(names(&["c"]), names(&["s"]), names(&["b"]));
    installation.step(Event::Start);
    installation.step(Event::Launched(false));
    assert_eq!(asked(installation.step(Event::Launched(false))), "probe c");
    installation.step(Event::Probed(false));
    assert_eq!(asked(installation.step(Event::Launched(false))), "probe s");
    installation.step(Event::Probed(false));
    assert_eq!(asked(installation.step(Event::Launched(false))), "probe b");
    assert_eq!(
        asked(installation.step(Event::Probed(false))),
        "done [UpdateFailed, ComponentInstallFailed([\"c\"]), SubcommandsInstallFailed([\"s\"]), SystemBinariesNotInstalled([\"b\"])]"
    );
}

#[test]
fn installer_succeeds_where_nothing_fails() {
    let mut installation = Installation::new(names(&["c"]), names(&["s"]), names(&["b"]));
    installation.step(Event::Start);
    installation.step(Event::Launched(true));
    installation.step(Event::Launched(true));
    installation.step(Event::Probed(true));
    installation.step(Event::Probed(false));
    assert_eq!(asked(installation.step(Event::Launched(true))), "probe b");
    assert_eq!(asked(installation.step(Event::Probed(true))), "done ok");
    assert_eq!(asked(installation.step(Event::Start)), "done ok");
}

#[test]
fn installer_passes_over_empty_phases() {
    let mut installation = Installation::new(Vec::new(), Vec::new(), Vec::new());
    installation.step(Event::Start);
    installation.step(Event::Launched(true));
    assert_eq!(asked(installation.step(Event::Launched(false))), "done [UpdateFailed]");
    assert_eq!(asked(installation.step(Event::Launched(false))), "done [UpdateFailed]");
}

#[test]
fn standard_installation_holds_the_required_items() {
    let installation = Installation::standard();
    assert_eq!(installation.components, rustup_component_list());
    assert_eq!(installation.subcommands, cargo_subcommand_list());
    assert_eq!(installation.binaries, system_binary_list());
    assert!(matches!(installation.phase, Phase::Update));
    assert_eq!(installation.progress.position, 0);
    assert!(installation.errors.is_empty());
}

#[test]
fn driver_looks_for_the_binaries_itself() {
    let mut installation =
        Installation::new(Vec::new(), Vec::new(), names(&["sh", "no-such-binary-93b1f2"]));
    assert!(matches!(update_and_install_dependencies(&mut installation, None),
        Next::Run(command) if line(&command) == "rustup self update"));
    assert!(matches!(update_and_install_dependencies(&mut installation, Some(true)),
        Next::Run(command) if line(&command) == "rustup update"));
    match update_and_install_dependencies(&mut installation, Some(true)) {
        Next::Done(Err(errors)) => {
            assert_eq!(errors.len(), 1);
            assert!(matches!(&errors[0], DependencyError::SystemBinariesNotInstalled(missing)
                if *missing == names(&["no-such-binary-93b1f2"])));
        }
        _ => panic!("the missing binary is reported"),
    }
}

#[test]
fn driver_installs_only_what_is_missing() {
    let mut installation = Installation::new(
        names(&["sh", "no-such-component-93b1f2"]),
        names(&["no-such-subcommand-93b1f2", "sh"]),
        names(&["sh"]),
    );
    update_and_install_dependencies(&mut installation, None);
    update_and_install_dependencies(&mut installation, Some(true));
    assert!(matches!(update_and_install_dependencies(&mut installation, Some(true)),
        Next::Run(command) if line(&command) == "rustup component add such"));
    assert!(matches!(update_and_install_dependencies(&mut installation, Some(false)),
        Next::Run(command) if line(&command) == "cargo install no-such-subcommand-93b1f2"));
    match update_and_install_dependencies(&mut installation, Some(true)) {
        Next::Done(Err(errors)) => {
            assert_eq!(errors.len(), 1);
            assert!(matches!(&errors[0], DependencyError::ComponentInstallFailed(failed)
                if *failed == names(&["no-such-component-93b1f2"])));
        }
        _ => panic!("the failed component is reported"),
    }
}

#[test]
fn driver_repeats_the_command_until_it_is_answered() {
    let mut installation = Installation::new(Vec::new(), Vec::new(), Vec::new());
    update_and_install_dependencies(&mut installation, None);
    assert!(matches!(update_and_install_dependencies(&mut installation, None),
        Next::Run(command) if line(&command) == "rustup self update"));
    update_and_install_dependencies(&mut installation, Some(true));
    assert!(matches!(update_and_install_dependencies(&mut installation, Some(true)),
        Next::Done(Ok(()))));
}
