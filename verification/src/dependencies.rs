//! The toolchain that the analyses need: what is required, how a missing
//! item is installed, and the bookkeeping of every failure.

use crate::command::{copy_command, copy_names, CommandLine, Invocation};
use crate::text::{equal, from_chars, split, split_by, to_chars, views};
use vstd::prelude::*;

verus! {

/// The kinds of dependencies.
#[derive(Debug, Clone, Copy)]
pub enum Kind {
    /// Rustup component.
    Rustup,
    /// Cargo subcommand.
    Cargo,
    /// System binary.
    System,
}

/// A failure of one phase of the installation.
#[derive(Debug)]
pub enum DependencyError {
    /// Rustup or Cargo could not be updated.
    UpdateFailed,
    /// The Rustup components that could not be installed.
    ComponentInstallFailed(Vec<String>),
    /// The Cargo subcommands that could not be installed.
    SubcommandsInstallFailed(Vec<String>),
    /// The system binaries that are not installed or not on the search path.
    SystemBinariesNotInstalled(Vec<String>),
}

/// What a `DependencyError` says: the phase that failed and the names of the
/// items it failed for.
pub enum Failure {
    Update,
    Components(Seq<Seq<char>>),
    Subcommands(Seq<Seq<char>>),
    Binaries(Seq<Seq<char>>),
}

impl View for DependencyError {
    type V = Failure;

    open spec fn view(&self) -> Failure {
        match self {
            DependencyError::UpdateFailed => Failure::Update,
            DependencyError::ComponentInstallFailed(names) => Failure::Components(
                names.deep_view(),
            ),
            DependencyError::SubcommandsInstallFailed(names) => Failure::Subcommands(
                names.deep_view(),
            ),
            DependencyError::SystemBinariesNotInstalled(names) => Failure::Binaries(
                names.deep_view(),
            ),
        }
    }
}

impl DeepView for DependencyError {
    type V = Failure;

    open spec fn deep_view(&self) -> Failure {
        self@
    }
}

/// The Rustup components that the analyses need.
pub open spec fn rustup_components() -> Seq<Seq<char>> {
    seq!["cargo-clippy"@, "rustfmt"@]
}

/// The Cargo subcommands that the analyses need.
pub open spec fn cargo_subcommands() -> Seq<Seq<char>> {
    seq![
        "cargo-outdated"@,
        "cargo-audit"@,
        "cargo-tarpaulin"@,
        "cargo-crev"@,
        "cargo-install-update"@,
        "cargo-expand"@,
        "cargo-modules"@,
        "tokei"@,
    ]
}

/// The system binaries that the analyses need.
pub open spec fn system_binaries() -> Seq<Seq<char>> {
    seq!["git"@]
}

/// List of Rustup components to install.
pub fn rustup_component_list() -> (list: Vec<String>)
    ensures
        list.deep_view() == rustup_components(),
{
    let mut list: Vec<String> = Vec::new();
    list.push("cargo-clippy".to_owned());
    list.push("rustfmt".to_owned());
    assert(list.deep_view() =~= rustup_components());
    list
}

/// List of Cargo subcommands to install.
pub fn cargo_subcommand_list() -> (list: Vec<String>)
    ensures
        list.deep_view() == cargo_subcommands(),
{
    let mut list: Vec<String> = Vec::new();
    list.push("cargo-outdated".to_owned());
    list.push("cargo-audit".to_owned());
    list.push("cargo-tarpaulin".to_owned());
    list.push("cargo-crev".to_owned());
    list.push("cargo-install-update".to_owned());
    list.push("cargo-expand".to_owned());
    list.push("cargo-modules".to_owned());
    list.push("tokei".to_owned());
    assert(list.deep_view() =~= cargo_subcommands());
    list
}

/// List of system binaries to check.
pub fn system_binary_list() -> (list: Vec<String>)
    ensures
        list.deep_view() == system_binaries(),
{
    let mut list: Vec<String> = Vec::new();
    list.push("git".to_owned());
    assert(list.deep_view() =~= system_binaries());
    list
}

/// The name under which Rustup knows a component: what stands between the
/// first and the second hyphen of the item's name, or the whole name where it
/// has no hyphen.
pub open spec fn component_name(item: Seq<char>) -> Seq<char> {
    let pieces = split_by(item, "-"@);
    if pieces.len() >= 2 {
        pieces[1]
    } else {
        item
    }
}

/// A table of the items that are installed in a way of their own: the name
/// of each, and the arguments that install it.
pub type Overrides = Seq<(Seq<char>, Seq<Seq<char>>)>;

/// The components that `rustup` installs in a way of their own.
pub open spec fn rustup_overrides() -> Overrides {
    seq![("rustfmt"@, seq!["component"@, "add"@, "rustfmt"@, "--toolchain"@, "stable"@])]
}

/// The subcommands that `cargo` installs in a way of their own.
pub open spec fn cargo_overrides() -> Overrides {
    seq![
        ("cargo-outdated"@, seq!["install"@, "--locked"@, "cargo-outdated"@]),
        ("cargo-install-update"@, seq!["install"@, "cargo-update"@]),
        ("cargo-modules"@, seq!["install"@, "cargo-modules"@, "--version"@, "0.5.14"@]),
    ]
}

/// The arguments that a table holds for an item: those of its first line
/// with the name of the item.
pub open spec fn override_for(table: Overrides, item: Seq<char>) -> Option<Seq<Seq<char>>>
    decreases table.len(),
{
    if table.len() == 0 {
        None
    } else if table.first().0 == item {
        Some(table.first().1)
    } else {
        override_for(table.drop_first(), item)
    }
}

/// The arguments with which `rustup` installs a component: those of the
/// table, or else the addition of the component under its name.
pub open spec fn rustup_install_arguments(item: Seq<char>) -> Seq<Seq<char>> {
    match override_for(rustup_overrides(), item) {
        Some(arguments) => arguments,
        None => seq!["component"@, "add"@, component_name(item)],
    }
}

/// The arguments with which `cargo` installs a subcommand: those of the
/// table, or else the installation of the subcommand under its name.
pub open spec fn cargo_install_arguments(item: Seq<char>) -> Seq<Seq<char>> {
    match override_for(cargo_overrides(), item) {
        Some(arguments) => arguments,
        None => seq!["install"@, item],
    }
}

/// How a missing item of the given kind is installed. Nothing installs a
/// system binary.
pub open spec fn installation(kind: Kind, item: Seq<char>) -> Option<Invocation> {
    match kind {
        Kind::Rustup => Some(
            Invocation { program: "rustup"@, arguments: rustup_install_arguments(item) },
        ),
        Kind::Cargo => Some(
            Invocation { program: "cargo"@, arguments: cargo_install_arguments(item) },
        ),
        Kind::System => None,
    }
}

/// The table of the components that `rustup` installs in a way of their own.
pub fn rustup_override_table() -> (table: Vec<(String, Vec<String>)>)
    ensures
        table.deep_view() == rustup_overrides(),
{
    let mut rustfmt: Vec<String> = Vec::new();
    rustfmt.push("component".to_owned());
    rustfmt.push("add".to_owned());
    rustfmt.push("rustfmt".to_owned());
    rustfmt.push("--toolchain".to_owned());
    rustfmt.push("stable".to_owned());
    assert(rustfmt.deep_view() =~= seq![
        "component"@,
        "add"@,
        "rustfmt"@,
        "--toolchain"@,
        "stable"@,
    ]);
    let mut table: Vec<(String, Vec<String>)> = Vec::new();
    table.push(("rustfmt".to_owned(), rustfmt));
    assert(table.deep_view() =~= rustup_overrides());
    table
}

/// The table of the subcommands that `cargo` installs in a way of their own.
pub fn cargo_override_table() -> (table: Vec<(String, Vec<String>)>)
    ensures
        table.deep_view() == cargo_overrides(),
{
    let mut outdated: Vec<String> = Vec::new();
    outdated.push("install".to_owned());
    outdated.push("--locked".to_owned());
    outdated.push("cargo-outdated".to_owned());
    assert(outdated.deep_view() =~= seq!["install"@, "--locked"@, "cargo-outdated"@]);
    let mut update: Vec<String> = Vec::new();
    update.push("install".to_owned());
    update.push("cargo-update".to_owned());
    assert(update.deep_view() =~= seq!["install"@, "cargo-update"@]);
    let mut modules: Vec<String> = Vec::new();
    modules.push("install".to_owned());
    modules.push("cargo-modules".to_owned());
    modules.push("--version".to_owned());
    modules.push("0.5.14".to_owned());
    assert(modules.deep_view() =~= seq!["install"@, "cargo-modules"@, "--version"@, "0.5.14"@]);
    let mut table: Vec<(String, Vec<String>)> = Vec::new();
    table.push(("cargo-outdated".to_owned(), outdated));
    table.push(("cargo-install-update".to_owned(), update));
    table.push(("cargo-modules".to_owned(), modules));
    assert(table.deep_view() =~= cargo_overrides());
    table
}

/// Looks an item up in a table.
pub fn find_override(table: &Vec<(String, Vec<String>)>, item: &str) -> (arguments: Option<
    Vec<String>,
>)
    ensures
        arguments.deep_view() == override_for(table.deep_view(), item@),
{
    let name = to_chars(item);
    let mut i: usize = 0;
    assert(table.deep_view().skip(0) =~= table.deep_view());
    while i < table.len()
        invariant
            i <= table.len(),
            name@ == item@,
            override_for(table.deep_view(), item@) == override_for(
                table.deep_view().skip(i as int),
                item@,
            ),
        decreases table.len() - i,
    {
        let ghost rest = table.deep_view().skip(i as int);
        assert(rest.first() == table[i as int].deep_view());
        assert(rest.drop_first() =~= table.deep_view().skip(i + 1));
        let line = to_chars(table[i].0.as_str());
        if equal(line.as_slice(), name.as_slice()) {
            return Some(copy_names(&table[i].1));
        }
        i += 1;
    }
    None
}

/// The arguments with which `rustup` installs the component `item`.
pub fn rustup_arguments(item: &str) -> (arguments: Vec<String>)
    ensures
        arguments.deep_view() == rustup_install_arguments(item@),
{
    match find_override(&rustup_override_table(), item) {
        Some(arguments) => arguments,
        None => {
            let name = to_chars(item);
            let hyphen = to_chars("-");
            let pieces = split(name.as_slice(), hyphen.as_slice());
            let mut arguments: Vec<String> = Vec::new();
            arguments.push("component".to_owned());
            arguments.push("add".to_owned());
            if pieces.len() >= 2 {
                assert(views(pieces@)[1] == pieces@[1]@);
                arguments.push(from_chars(pieces[1]));
            } else {
                arguments.push(item.to_owned());
            }
            assert(arguments.deep_view() =~= rustup_install_arguments(item@));
            arguments
        },
    }
}

/// The arguments with which `cargo` installs the subcommand `item`.
pub fn cargo_arguments(item: &str) -> (arguments: Vec<String>)
    ensures
        arguments.deep_view() == cargo_install_arguments(item@),
{
    match find_override(&cargo_override_table(), item) {
        Some(arguments) => arguments,
        None => {
            let mut arguments: Vec<String> = Vec::new();
            arguments.push("install".to_owned());
            arguments.push(item.to_owned());
            assert(arguments.deep_view() =~= cargo_install_arguments(item@));
            arguments
        },
    }
}

/// The command that installs a missing item of the given kind.
pub fn install_command(kind: Kind, item: &str) -> (command: Option<CommandLine>)
    ensures
        command.is_some() == installation(kind, item@).is_some(),
        command matches Some(c) ==> c@ == installation(kind, item@)->0,
{
    match kind {
        Kind::Rustup => Some(
            CommandLine { program: "rustup".to_owned(), arguments: rustup_arguments(item) },
        ),
        Kind::Cargo => Some(
            CommandLine { program: "cargo".to_owned(), arguments: cargo_arguments(item) },
        ),
        Kind::System => None,
    }
}

/// One step of the installation.
#[derive(Debug)]
pub enum Task {
    /// A command that is run whatever the machine holds.
    Run { name: String, command: CommandLine },
    /// An item that is looked for, and installed by the command where it is
    /// missing.
    Install { name: String, command: CommandLine },
    /// An item that is looked for, and that nothing installs.
    Require { name: String },
}

/// The text of a `Task`.
pub enum Step {
    Run { name: Seq<char>, command: Invocation },
    Install { name: Seq<char>, command: Invocation },
    Require { name: Seq<char> },
}

impl Step {
    /// The name under which a failure of the step is reported.
    pub open spec fn name(self) -> Seq<char> {
        match self {
            Step::Run { name, .. } => name,
            Step::Install { name, .. } => name,
            Step::Require { name } => name,
        }
    }
}

impl View for Task {
    type V = Step;

    open spec fn view(&self) -> Step {
        match self {
            Task::Run { name, command } => Step::Run { name: name@, command: command@ },
            Task::Install { name, command } => Step::Install { name: name@, command: command@ },
            Task::Require { name } => Step::Require { name: name@ },
        }
    }
}

impl DeepView for Task {
    type V = Step;

    open spec fn deep_view(&self) -> Step {
        self@
    }
}

/// The answer that a phase waits for.
#[derive(Debug, Clone, Copy)]
pub enum Waiting {
    /// No request is open.
    Nothing,
    /// Whether the current item is present.
    Probe,
    /// Whether the current command could be started.
    Launch,
}

/// What happened outside since the last request.
#[derive(Debug, Clone, Copy)]
pub enum Event {
    /// Nothing yet: the phase begins.
    Start,
    /// The item that was looked for is present, or is not.
    Probed(bool),
    /// The command that was handed out could be started, or could not.
    Launched(bool),
}

/// How far a phase has come.
#[derive(Debug)]
pub struct Progress {
    /// The number of tasks that are settled.
    pub position: usize,
    /// The answer that the task at `position` waits for.
    pub waiting: Waiting,
    /// The names of the settled tasks that failed, in their order.
    pub failed: Vec<String>,
}

/// The text of a `Progress`.
pub struct ProgressState {
    pub position: nat,
    pub waiting: Waiting,
    pub failed: Seq<Seq<char>>,
}

impl View for Progress {
    type V = ProgressState;

    open spec fn view(&self) -> ProgressState {
        ProgressState {
            position: self.position as nat,
            waiting: self.waiting,
            failed: self.failed.deep_view(),
        }
    }
}

/// What a phase asks of its caller.
#[derive(Debug)]
pub enum Request {
    /// Look for the item of this name, and answer with `Event::Probed`.
    Probe(String),
    /// Start this command, and answer with `Event::Launched`.
    Run(CommandLine),
}

/// The text of a `Request`.
pub enum Asked {
    Probe(Seq<char>),
    Run(Invocation),
}

impl DeepView for Request {
    type V = Asked;

    open spec fn deep_view(&self) -> Asked {
        self@
    }
}

impl View for Request {
    type V = Asked;

    open spec fn view(&self) -> Asked {
        match self {
            Request::Probe(name) => Asked::Probe(name@),
            Request::Run(command) => Asked::Run(command@),
        }
    }
}

/// The progress once the current task is settled without a failure.
pub open spec fn passed(progress: ProgressState) -> ProgressState {
    ProgressState {
        position: progress.position + 1,
        waiting: Waiting::Nothing,
        failed: progress.failed,
    }
}

/// The progress once the current task is settled as failed.
pub open spec fn failed(progress: ProgressState, name: Seq<char>) -> ProgressState {
    ProgressState {
        position: progress.position + 1,
        waiting: Waiting::Nothing,
        failed: progress.failed.push(name),
    }
}

/// The progress after an event. An item that is present is settled; one that
/// is missing is installed where a command installs it, and has failed where
/// none does. A command that could be started settles its task; one that
/// could not has failed. An event that answers no open request changes nothing.
pub open spec fn absorbed(tasks: Seq<Step>, progress: ProgressState, event: Event) -> ProgressState {
    if progress.position >= tasks.len() {
        progress
    } else {
        let task = tasks[progress.position as int];
        match (progress.waiting, event) {
            (Waiting::Probe, Event::Probed(present)) => {
                if present {
                    passed(progress)
                } else if task is Install {
                    ProgressState { waiting: Waiting::Launch, ..progress }
                } else {
                    failed(progress, task.name())
                }
            },
            (Waiting::Launch, Event::Launched(started)) => {
                if started {
                    passed(progress)
                } else {
                    failed(progress, task.name())
                }
            },
            _ => progress,
        }
    }
}

/// What the task at the current position asks for, and the answer it then
/// waits for. Where every task is settled, nothing is asked.
pub open spec fn pending(tasks: Seq<Step>, progress: ProgressState) -> (Waiting, Option<Asked>) {
    if progress.position >= tasks.len() {
        (Waiting::Nothing, None)
    } else {
        match tasks[progress.position as int] {
            Step::Run { command, .. } => (Waiting::Launch, Some(Asked::Run(command))),
            Step::Install { name, command } => {
                if progress.waiting is Launch {
                    (Waiting::Launch, Some(Asked::Run(command)))
                } else {
                    (Waiting::Probe, Some(Asked::Probe(name)))
                }
            },
            Step::Require { name } => (Waiting::Probe, Some(Asked::Probe(name))),
        }
    }
}

/// The progress after an event, with its next request open.
pub open spec fn resumed(tasks: Seq<Step>, progress: ProgressState, event: Event) -> ProgressState {
    let after = absorbed(tasks, progress, event);
    ProgressState { waiting: pending(tasks, after).0, ..after }
}

/// The request that follows an event, if one does.
pub open spec fn asked(tasks: Seq<Step>, progress: ProgressState, event: Event) -> Option<Asked> {
    pending(tasks, absorbed(tasks, progress, event)).1
}

/// Takes a phase one event further: settles the current task as far as the
/// event answers its open request, and hands out the request that follows, or
/// nothing where every task is settled.
pub fn run_tasks(tasks: &Vec<Task>, progress: &mut Progress, event: Event) -> (request: Option<
    Request,
>)
    ensures
        final(progress)@ == resumed(tasks.deep_view(), old(progress)@, event),
        request.deep_view() == asked(tasks.deep_view(), old(progress)@, event),
{
    if progress.position < tasks.len() {
        let name: &String = match &tasks[progress.position] {
            Task::Run { name, .. } => name,
            Task::Install { name, .. } => name,
            Task::Require { name } => name,
        };
        let installs: bool = match &tasks[progress.position] {
            Task::Install { .. } => true,
            _ => false,
        };
        let ghost before = progress.failed.deep_view();
        match (progress.waiting, event) {
            (Waiting::Probe, Event::Probed(present)) => {
                if present {
                    progress.position = progress.position + 1;
                    progress.waiting = Waiting::Nothing;
                } else if installs {
                    progress.waiting = Waiting::Launch;
                } else {
                    progress.failed.push(name.clone());
                    assert(progress.failed.deep_view() =~= before.push(name@));
                    progress.position = progress.position + 1;
                    progress.waiting = Waiting::Nothing;
                }
            },
            (Waiting::Launch, Event::Launched(started)) => {
                if !started {
                    progress.failed.push(name.clone());
                    assert(progress.failed.deep_view() =~= before.push(name@));
                }
                progress.position = progress.position + 1;
                progress.waiting = Waiting::Nothing;
            },
            _ => {},
        }
    }
    assert(progress@ == absorbed(tasks.deep_view(), old(progress)@, event));
    if progress.position >= tasks.len() {
        progress.waiting = Waiting::Nothing;
        return None;
    }
    match &tasks[progress.position] {
        Task::Run { command, .. } => {
            progress.waiting = Waiting::Launch;
            Some(Request::Run(copy_command(command)))
        },
        Task::Install { name, command } => {
            match progress.waiting {
                Waiting::Launch => Some(Request::Run(copy_command(command))),
                _ => {
                    progress.waiting = Waiting::Probe;
                    Some(Request::Probe(name.clone()))
                },
            }
        },
        Task::Require { name } => {
            progress.waiting = Waiting::Probe;
            Some(Request::Probe(name.clone()))
        },
    }
}

/// The two commands that bring Rustup and Cargo up to date.
pub open spec fn update_steps() -> Seq<Step> {
    seq![
        Step::Run {
            name: "rustup self update"@,
            command: Invocation { program: "rustup"@, arguments: seq!["self"@, "update"@] },
        },
        Step::Run {
            name: "rustup update"@,
            command: Invocation { program: "rustup"@, arguments: seq!["update"@] },
        },
    ]
}

/// What is done for one required item: it is installed where something
/// installs items of its kind, and only looked for otherwise.
pub open spec fn step_for(kind: Kind, item: Seq<char>) -> Step {
    match installation(kind, item) {
        Some(command) => Step::Install { name: item, command },
        None => Step::Require { name: item },
    }
}

/// What is done for a list of required items of one kind, in their order.
pub open spec fn steps_for(kind: Kind, items: Seq<Seq<char>>) -> Seq<Step> {
    items.map_values(|item: Seq<char>| step_for(kind, item))
}

/// The tasks that bring Rustup and Cargo up to date.
pub fn update_tasks() -> (tasks: Vec<Task>)
    ensures
        tasks.deep_view() == update_steps(),
{
    let mut first: Vec<String> = Vec::new();
    first.push("self".to_owned());
    first.push("update".to_owned());
    assert(first.deep_view() =~= seq!["self"@, "update"@]);
    let mut second: Vec<String> = Vec::new();
    second.push("update".to_owned());
    assert(second.deep_view() =~= seq!["update"@]);
    let mut tasks: Vec<Task> = Vec::new();
    tasks.push(
        Task::Run {
            name: "rustup self update".to_owned(),
            command: CommandLine { program: "rustup".to_owned(), arguments: first },
        },
    );
    tasks.push(
        Task::Run {
            name: "rustup update".to_owned(),
            command: CommandLine { program: "rustup".to_owned(), arguments: second },
        },
    );
    assert(tasks.deep_view() =~= update_steps());
    tasks
}

/// The tasks for a list of required items of one kind.
pub fn install_tasks(kind: Kind, items: &Vec<String>) -> (tasks: Vec<Task>)
    ensures
        tasks.deep_view() == steps_for(kind, items.deep_view()),
{
    let mut tasks: Vec<Task> = Vec::new();
    let mut i: usize = 0;
    while i < items.len()
        invariant
            i <= items.len(),
            tasks.len() == i,
            forall|j: int| 0 <= j < i ==> tasks[j]@ == step_for(kind, items[j]@),
        decreases items.len() - i,
    {
        let task = match install_command(kind, items[i].as_str()) {
            Some(command) => Task::Install { name: items[i].clone(), command },
            None => Task::Require { name: items[i].clone() },
        };
        tasks.push(task);
        i += 1;
    }
    assert(tasks.deep_view() =~= steps_for(kind, items.deep_view()));
    tasks
}

/// What a phase hands back: a request, or its result once every task is
/// settled.
#[derive(Debug)]
pub enum PhaseStatus {
    Ask(Request),
    Done(Result<(), DependencyError>),
}

/// The text of a `PhaseStatus`.
pub enum PhaseReply {
    Ask(Asked),
    Done(Result<(), Failure>),
}

impl View for PhaseStatus {
    type V = PhaseReply;

    open spec fn view(&self) -> PhaseReply {
        match self {
            PhaseStatus::Ask(request) => PhaseReply::Ask(request@),
            PhaseStatus::Done(Ok(_)) => PhaseReply::Done(Ok(())),
            PhaseStatus::Done(Err(error)) => PhaseReply::Done(Err(error@)),
        }
    }
}

/// The result of a phase: a success where nothing failed, the failure
/// otherwise.
pub open spec fn verdict(failed: Seq<Seq<char>>, failure: Failure) -> Result<(), Failure> {
    if failed.len() == 0 {
        Ok(())
    } else {
        Err(failure)
    }
}

/// What a phase hands back after an event: the request that follows, or its
/// result where nothing follows.
pub open spec fn phase_reply(
    tasks: Seq<Step>,
    progress: ProgressState,
    event: Event,
    failure: spec_fn(Seq<Seq<char>>) -> Failure,
) -> PhaseReply {
    match asked(tasks, progress, event) {
        Some(request) => PhaseReply::Ask(request),
        None => {
            let names = resumed(tasks, progress, event).failed;
            PhaseReply::Done(verdict(names, failure(names)))
        },
    }
}

/// Updates Rustup and Cargo: both commands are run, and the phase fails where
/// one of them could not be started.
pub fn update(progress: &mut Progress, event: Event) -> (status: PhaseStatus)
    ensures
        final(progress)@ == resumed(update_steps(), old(progress)@, event),
        status@ == phase_reply(
            update_steps(),
            old(progress)@,
            event,
            |names: Seq<Seq<char>>| Failure::Update,
        ),
{
    let tasks = update_tasks();
    match run_tasks(&tasks, progress, event) {
        None => {
            if progress.failed.len() == 0 {
                PhaseStatus::Done(Ok(()))
            } else {
                PhaseStatus::Done(Err(DependencyError::UpdateFailed))
            }
        },
        Some(request) => PhaseStatus::Ask(request),
    }
}

/// Installs the required Rustup components that are missing, and fails with
/// the names of those whose installation could not be started.
pub fn install_rustup_components(
    components: &Vec<String>,
    progress: &mut Progress,
    event: Event,
) -> (status: PhaseStatus)
    ensures
        final(progress)@ == resumed(
            steps_for(Kind::Rustup, components.deep_view()),
            old(progress)@,
            event,
        ),
        status@ == phase_reply(
            steps_for(Kind::Rustup, components.deep_view()),
            old(progress)@,
            event,
            |names: Seq<Seq<char>>| Failure::Components(names),
        ),
{
    let tasks = install_tasks(Kind::Rustup, components);
    match run_tasks(&tasks, progress, event) {
        None => {
            if progress.failed.len() == 0 {
                PhaseStatus::Done(Ok(()))
            } else {
                PhaseStatus::Done(
                    Err(DependencyError::ComponentInstallFailed(copy_names(&progress.failed))),
                )
            }
        },
        Some(request) => PhaseStatus::Ask(request),
    }
}

/// Installs the required Cargo subcommands that are missing, and fails with
/// the names of those whose installation could not be started.
pub fn install_cargo_subcommands(
    subcommands: &Vec<String>,
    progress: &mut Progress,
    event: Event,
) -> (status: PhaseStatus)
    ensures
        final(progress)@ == resumed(
            steps_for(Kind::Cargo, subcommands.deep_view()),
            old(progress)@,
            event,
        ),
        status@ == phase_reply(
            steps_for(Kind::Cargo, subcommands.deep_view()),
            old(progress)@,
            event,
            |names: Seq<Seq<char>>| Failure::Subcommands(names),
        ),
{
    let tasks = install_tasks(Kind::Cargo, subcommands);
    match run_tasks(&tasks, progress, event) {
        None => {
            if progress.failed.len() == 0 {
                PhaseStatus::Done(Ok(()))
            } else {
                PhaseStatus::Done(
                    Err(DependencyError::SubcommandsInstallFailed(copy_names(&progress.failed))),
                )
            }
        },
        Some(request) => PhaseStatus::Ask(request),
    }
}

/// Looks for the required system binaries, and fails with the names of those
/// that are missing.
pub fn check_system_binaries(
    binaries: &Vec<String>,
    progress: &mut Progress,
    event: Event,
) -> (status: PhaseStatus)
    ensures
        final(progress)@ == resumed(
            steps_for(Kind::System, binaries.deep_view()),
            old(progress)@,
            event,
        ),
        status@ == phase_reply(
            steps_for(Kind::System, binaries.deep_view()),
            old(progress)@,
            event,
            |names: Seq<Seq<char>>| Failure::Binaries(names),
        ),
{
    let tasks = install_tasks(Kind::System, binaries);
    match run_tasks(&tasks, progress, event) {
        None => {
            if progress.failed.len() == 0 {
                PhaseStatus::Done(Ok(()))
            } else {
                PhaseStatus::Done(
                    Err(DependencyError::SystemBinariesNotInstalled(copy_names(&progress.failed))),
                )
            }
        },
        Some(request) => PhaseStatus::Ask(request),
    }
}

/// The phases of the installation, in their order.
#[derive(Debug, Clone, Copy)]
pub enum Phase {
    Update,
    Components,
    Subcommands,
    Binaries,
    Finished,
}

impl Phase {
    /// The place of the phase in the order.
    pub open spec fn rank(self) -> nat {
        match self {
            Phase::Update => 0,
            Phase::Components => 1,
            Phase::Subcommands => 2,
            Phase::Binaries => 3,
            Phase::Finished => 4,
        }
    }

    /// The phase that comes next.
    pub open spec fn following(self) -> Phase {
        match self {
            Phase::Update => Phase::Components,
            Phase::Components => Phase::Subcommands,
            Phase::Subcommands => Phase::Binaries,
            Phase::Binaries => Phase::Finished,
            Phase::Finished => Phase::Finished,
        }
    }

    /// The failure of the phase for the given names.
    pub open spec fn failure(self, names: Seq<Seq<char>>) -> Failure {
        match self {
            Phase::Update => Failure::Update,
            Phase::Components => Failure::Components(names),
            Phase::Subcommands => Failure::Subcommands(names),
            Phase::Binaries => Failure::Binaries(names),
            Phase::Finished => Failure::Update,
        }
    }
}

/// An installation under way: what is required, the phase it is in, how far
/// that phase has come, and the failures of the phases before it.
#[derive(Debug)]
pub struct Installation {
    pub components: Vec<String>,
    pub subcommands: Vec<String>,
    pub binaries: Vec<String>,
    pub phase: Phase,
    pub progress: Progress,
    pub errors: Vec<DependencyError>,
}

/// The text of an `Installation`.
pub struct InstallationState {
    pub components: Seq<Seq<char>>,
    pub subcommands: Seq<Seq<char>>,
    pub binaries: Seq<Seq<char>>,
    pub phase: Phase,
    pub progress: ProgressState,
    pub errors: Seq<Failure>,
}

impl View for Installation {
    type V = InstallationState;

    open spec fn view(&self) -> InstallationState {
        InstallationState {
            components: self.components.deep_view(),
            subcommands: self.subcommands.deep_view(),
            binaries: self.binaries.deep_view(),
            phase: self.phase,
            progress: self.progress@,
            errors: self.errors.deep_view(),
        }
    }
}

/// What the installation hands back: a request, or its result once every
/// phase is through.
#[derive(Debug)]
pub enum Status {
    Ask(Request),
    Done(Result<(), Vec<DependencyError>>),
}

/// The text of a `Status`.
pub enum Reply {
    Ask(Asked),
    Done(Result<(), Seq<Failure>>),
}

impl View for Status {
    type V = Reply;

    open spec fn view(&self) -> Reply {
        match self {
            Status::Ask(request) => Reply::Ask(request@),
            Status::Done(Ok(_)) => Reply::Done(Ok(())),
            Status::Done(Err(errors)) => Reply::Done(Err(errors.deep_view())),
        }
    }
}

/// The progress of a phase that has not begun.
pub open spec fn unbegun() -> ProgressState {
    ProgressState { position: 0, waiting: Waiting::Nothing, failed: Seq::empty() }
}

/// The state in which an installation of the given items begins.
pub open spec fn beginning(
    components: Seq<Seq<char>>,
    subcommands: Seq<Seq<char>>,
    binaries: Seq<Seq<char>>,
) -> InstallationState {
    InstallationState {
        components,
        subcommands,
        binaries,
        phase: Phase::Update,
        progress: unbegun(),
        errors: Seq::empty(),
    }
}

/// The result of the whole installation: a success where no phase failed, the
/// failures of the phases in their order otherwise.
pub open spec fn report(errors: Seq<Failure>) -> Result<(), Seq<Failure>> {
    if errors.len() == 0 {
        Ok(())
    } else {
        Err(errors)
    }
}

impl InstallationState {
    /// The tasks of the given phase.
    pub open spec fn steps_of(self, phase: Phase) -> Seq<Step> {
        match phase {
            Phase::Update => update_steps(),
            Phase::Components => steps_for(Kind::Rustup, self.components),
            Phase::Subcommands => steps_for(Kind::Cargo, self.subcommands),
            Phase::Binaries => steps_for(Kind::System, self.binaries),
            Phase::Finished => Seq::empty(),
        }
    }

    /// The tasks of the phase that the installation is in.
    pub open spec fn steps(self) -> Seq<Step> {
        self.steps_of(self.phase)
    }

    /// The state in which the next phase begins, once the current one has
    /// settled its tasks with the given failures.
    pub open spec fn closed(self, names: Seq<Seq<char>>) -> InstallationState {
        InstallationState {
            phase: self.phase.following(),
            progress: unbegun(),
            errors: if names.len() == 0 {
                self.errors
            } else {
                self.errors.push(self.phase.failure(names))
            },
            ..self
        }
    }

    /// The number of tasks in the given phase and in those after it.
    pub open spec fn tasks_from(self, phase: Phase) -> nat
        decreases 4 - phase.rank(),
    {
        if phase is Finished {
            0
        } else {
            self.steps_of(phase).len() + self.tasks_from(phase.following())
        }
    }

    /// The number of tasks that are not settled yet.
    pub open spec fn remaining(self) -> nat {
        if self.progress.position >= self.steps().len() {
            self.tasks_from(self.phase.following())
        } else {
            (self.tasks_from(self.phase) - self.progress.position) as nat
        }
    }

    /// Whether the event answers the request that is open.
    pub open spec fn answered_by(self, event: Event) -> bool {
        &&& self.progress.position < self.steps().len()
        &&& match (self.progress.waiting, event) {
            (Waiting::Probe, Event::Probed(_)) => true,
            (Waiting::Launch, Event::Launched(_)) => true,
            _ => false,
        }
    }
}

/// The installation after an event, and what it hands back. The current
/// phase goes on as far as the event takes it. A phase whose tasks are all
/// settled is closed, with its failure added to those before it where a task
/// failed, and the next phase begins, whatever the phases before it came to.
pub open spec fn stepped(state: InstallationState, event: Event) -> (InstallationState, Reply)
    decreases 4 - state.phase.rank(),
{
    if state.phase is Finished {
        (state, Reply::Done(report(state.errors)))
    } else {
        let progress = resumed(state.steps(), state.progress, event);
        match asked(state.steps(), state.progress, event) {
            Some(request) => (InstallationState { progress, ..state }, Reply::Ask(request)),
            None => stepped(state.closed(progress.failed), Event::Start),
        }
    }
}

/// A copy of a failure.
pub fn copy_error(error: &DependencyError) -> (copy: DependencyError)
    ensures
        copy@ == error@,
{
    match error {
        DependencyError::UpdateFailed => DependencyError::UpdateFailed,
        DependencyError::ComponentInstallFailed(names) => DependencyError::ComponentInstallFailed(
            copy_names(names),
        ),
        DependencyError::SubcommandsInstallFailed(names) => {
            DependencyError::SubcommandsInstallFailed(copy_names(names))
        },
        DependencyError::SystemBinariesNotInstalled(names) => {
            DependencyError::SystemBinariesNotInstalled(copy_names(names))
        },
    }
}

/// A copy of a list of failures.
pub fn copy_errors(errors: &Vec<DependencyError>) -> (copy: Vec<DependencyError>)
    ensures
        copy.deep_view() == errors.deep_view(),
{
    let mut copy: Vec<DependencyError> = Vec::new();
    let mut i: usize = 0;
    while i < errors.len()
        invariant
            i <= errors.len(),
            copy.len() == i,
            forall|j: int| 0 <= j < i ==> copy[j]@ == errors[j]@,
        decreases errors.len() - i,
    {
        copy.push(copy_error(&errors[i]));
        i += 1;
    }
    assert(copy.deep_view() =~= errors.deep_view());
    copy
}

impl Progress {
    /// The progress of a phase that has not begun.
    pub fn new() -> (progress: Progress)
        ensures
            progress@ == unbegun(),
    {
        let progress = Progress { position: 0, waiting: Waiting::Nothing, failed: Vec::new() };
        assert(progress.failed.deep_view() =~= Seq::<Seq<char>>::empty());
        progress
    }
}

impl Installation {
    /// An installation of the given items, before its first phase.
    pub fn new(components: Vec<String>, subcommands: Vec<String>, binaries: Vec<String>) -> (installation:
        Installation)
        ensures
            installation@ == beginning(
                components.deep_view(),
                subcommands.deep_view(),
                binaries.deep_view(),
            ),
    {
        let installation = Installation {
            components,
            subcommands,
            binaries,
            phase: Phase::Update,
            progress: Progress::new(),
            errors: Vec::new(),
        };
        assert(installation.errors.deep_view() =~= Seq::<Failure>::empty());
        installation
    }

    /// An installation of what the analyses need.
    pub fn standard() -> (installation: Installation)
        ensures
            installation@ == beginning(rustup_components(), cargo_subcommands(), system_binaries()),
    {
        Installation::new(rustup_component_list(), cargo_subcommand_list(), system_binary_list())
    }

    /// Takes the installation one event further. The four phases run in their
    /// order, and each of them runs whatever the ones before it came to; the
    /// result holds the failure of every phase that failed.
    pub fn step(&mut self, event: Event) -> (status: Status)
        ensures
            (final(self)@, status@) == stepped(old(self)@, event),
    {
        let mut current = event;
        loop
            invariant
                stepped(self@, current) == stepped(old(self)@, event),
            decreases 4 - self.phase.rank(),
        {
            let ghost before = self@;
            let ghost incoming = current;
            let status = match self.phase {
                Phase::Update => update(&mut self.progress, current),
                Phase::Components => install_rustup_components(
                    &self.components,
                    &mut self.progress,
                    current,
                ),
                Phase::Subcommands => install_cargo_subcommands(
                    &self.subcommands,
                    &mut self.progress,
                    current,
                ),
                Phase::Binaries => check_system_binaries(
                    &self.binaries,
                    &mut self.progress,
                    current,
                ),
                Phase::Finished => {
                    if self.errors.len() == 0 {
                        return Status::Done(Ok(()));
                    } else {
                        return Status::Done(Err(copy_errors(&self.errors)));
                    }
                },
            };
            match status {
                PhaseStatus::Ask(request) => {
                    return Status::Ask(request);
                },
                PhaseStatus::Done(result) => {
                    let ghost errors = self.errors.deep_view();
                    match result {
                        Ok(_) => {},
                        Err(error) => {
                            self.errors.push(error);
                            assert(self.errors.deep_view() =~= errors.push(error@));
                        },
                    }
                    self.phase =
                    match self.phase {
                        Phase::Update => Phase::Components,
                        Phase::Components => Phase::Subcommands,
                        Phase::Subcommands => Phase::Binaries,
                        _ => Phase::Finished,
                    };
                    self.progress = Progress::new();
                    current = Event::Start;
                    assert(self@ == before.closed(
                        resumed(before.steps(), before.progress, incoming).failed,
                    ));
                },
            }
        }
    }
}

/// What the caller of the installation has to do next: start a command, or
/// take the result.
#[derive(Debug)]
pub enum Next {
    Run(CommandLine),
    Done(Result<(), Vec<DependencyError>>),
}

impl View for Next {
    type V = Reply;

    open spec fn view(&self) -> Reply {
        match self {
            Next::Run(command) => Reply::Ask(Asked::Run(command@)),
            Next::Done(Ok(_)) => Reply::Done(Ok(())),
            Next::Done(Err(errors)) => Reply::Done(Err(errors.deep_view())),
        }
    }
}

/// The event that a caller's report stands for: how the command it was handed
/// went, or nothing where it was handed none yet.
pub open spec fn reported(launched: Option<bool>) -> Event {
    match launched {
        Some(started) => Event::Launched(started),
        None => Event::Start,
    }
}

/// The installation and the event it is about to take, after it took `event`
/// and then one answer of `probes` after the other.
pub open spec fn replayed(state: InstallationState, event: Event, probes: Seq<bool>) -> (
    InstallationState,
    Event,
)
    decreases probes.len(),
{
    if probes.len() == 0 {
        (state, event)
    } else {
        let (before, pending) = replayed(state, event, probes.drop_last());
        (stepped(before, pending).0, Event::Probed(probes.last()))
    }
}

/// Whether each answer of `probes` came after a request to look for an item.
pub open spec fn probing(state: InstallationState, event: Event, probes: Seq<bool>) -> bool
    decreases probes.len(),
{
    probes.len() == 0 || {
        let (before, pending) = replayed(state, event, probes.drop_last());
        &&& probing(state, event, probes.drop_last())
        &&& stepped(before, pending).1 matches Reply::Ask(Asked::Probe(_))
    }
}

/// The installation after `event` and the answers of `probes`, and what it
/// hands back then.
pub open spec fn driven(state: InstallationState, event: Event, probes: Seq<bool>) -> (
    InstallationState,
    Reply,
) {
    let (before, pending) = replayed(state, event, probes);
    stepped(before, pending)
}

/// No event brings settled tasks back, an event that answers the open request
/// settles a task unless a command follows for the same one, and after a
/// request the installation waits for the answer to it.
pub proof fn lemma_stepped_settles(state: InstallationState, event: Event)
    ensures
        ({
            let (after, reply) = stepped(state, event);
            &&& after.remaining() <= state.remaining()
            &&& state.answered_by(event) && !(reply matches Reply::Ask(Asked::Run(_)))
                ==> after.remaining() < state.remaining()
            &&& reply matches Reply::Ask(Asked::Probe(_)) ==> after.answered_by(Event::Probed(true))
            &&& reply matches Reply::Ask(Asked::Run(_)) ==> after.answered_by(Event::Launched(true))
            &&& reply is Done ==> after.phase is Finished
            &&& after.components == state.components
            &&& after.subcommands == state.subcommands
            &&& after.binaries == state.binaries
        }),
    decreases 4 - state.phase.rank(),
{
    if !(state.phase is Finished) {
        let progress = resumed(state.steps(), state.progress, event);
        if asked(state.steps(), state.progress, event) is None {
            let next = state.closed(progress.failed);
            lemma_stepped_settles(next, Event::Start);
            assert(next.steps_of(next.phase) == state.steps_of(next.phase));
            assert(next.tasks_from(next.phase.following()) == state.tasks_from(
                next.phase.following(),
            )) by {
                lemma_tasks_from_lists(state, next, next.phase.following());
            }
            assert(next.tasks_from(next.phase) == state.tasks_from(next.phase)) by {
                lemma_tasks_from_lists(state, next, next.phase);
            }
        } else {
            let after = InstallationState { progress, ..state };
            assert(after.tasks_from(state.phase) == state.tasks_from(state.phase)) by {
                lemma_tasks_from_lists(state, after, state.phase);
            }
            assert(after.tasks_from(state.phase.following()) == state.tasks_from(
                state.phase.following(),
            )) by {
                lemma_tasks_from_lists(state, after, state.phase.following());
            }
        }
    }
}

/// The installation never stops short: what it asks for and where it goes
/// does not depend on the failures so far, no failure is dropped, and the
/// failures that an event adds are the same whatever failed before.
pub proof fn lemma_failures_do_not_steer(
    state: InstallationState,
    other: InstallationState,
    event: Event,
)
    requires
        other == (InstallationState { errors: other.errors, ..state }),
    ensures
        ({
            let (after, reply) = stepped(state, event);
            let (after_other, reply_other) = stepped(other, event);
            let added = after.errors.skip(state.errors.len() as int);
            &&& after.errors == state.errors + added
            &&& after_other.errors == other.errors + added
            &&& after_other == (InstallationState { errors: after_other.errors, ..after })
            &&& reply is Ask ==> reply_other == reply
            &&& reply matches Reply::Done(result) ==> result == report(after.errors)
                && reply_other == Reply::Done(report(after_other.errors))
        }),
    decreases 4 - state.phase.rank(),
{
    let (after, reply) = stepped(state, event);
    let (after_other, reply_other) = stepped(other, event);
    if state.phase is Finished {
        assert(after.errors.skip(state.errors.len() as int) =~= Seq::<Failure>::empty());
        assert(state.errors + Seq::<Failure>::empty() =~= state.errors);
        assert(other.errors + Seq::<Failure>::empty() =~= other.errors);
    } else {
        let progress = resumed(state.steps(), state.progress, event);
        assert(other.steps() == state.steps());
        if asked(state.steps(), state.progress, event) is None {
            let next = state.closed(progress.failed);
            let next_other = other.closed(progress.failed);
            lemma_failures_do_not_steer(next, next_other, Event::Start);
            let added = after.errors.skip(next.errors.len() as int);
            assert(after.errors == next.errors + added);
            assert(after_other.errors == next_other.errors + added);
            if progress.failed.len() == 0 {
                assert(after.errors.skip(state.errors.len() as int) =~= added);
            } else {
                let failure = state.phase.failure(progress.failed);
                assert(after.errors.skip(state.errors.len() as int) =~= seq![failure] + added);
                assert(after.errors =~= state.errors + (seq![failure] + added));
                assert(after_other.errors =~= other.errors + (seq![failure] + added));
            }
        } else {
            assert(after.errors.skip(state.errors.len() as int) =~= Seq::<Failure>::empty());
            assert(state.errors + Seq::<Failure>::empty() =~= state.errors);
            assert(other.errors + Seq::<Failure>::empty() =~= other.errors);
        }
    }
}

impl Failure {
    /// Whether the failure is that of the phase and names the item.
    pub open spec fn blames(self, phase: Phase, name: Seq<char>) -> bool {
        match (self, phase) {
            (Failure::Components(names), Phase::Components) => names.contains(name),
            (Failure::Subcommands(names), Phase::Subcommands) => names.contains(name),
            (Failure::Binaries(names), Phase::Binaries) => names.contains(name),
            _ => false,
        }
    }
}

impl Phase {
    /// Whether the failure of the phase names the items that failed.
    pub open spec fn names_items(self) -> bool {
        self is Components || self is Subcommands || self is Binaries
    }
}

impl InstallationState {
    /// Whether the installation holds the failure of an item of a phase:
    /// among the failed tasks of the phase while it runs, and in the failure
    /// of the phase once it is closed.
    pub open spec fn remembers(self, phase: Phase, name: Seq<char>) -> bool {
        ||| self.phase == phase && self.progress.failed.contains(name)
        ||| exists|i: int|
            0 <= i < self.errors.len() && (#[trigger] self.errors[i]).blames(phase, name)
    }

    /// Whether the installation is at the task of this item in this phase.
    pub open spec fn at_item(self, phase: Phase, name: Seq<char>) -> bool {
        &&& self.phase == phase
        &&& self.progress.position < self.steps().len()
        &&& self.steps()[self.progress.position as int].name() == name
    }
}

/// The installation after it took one event after the other.
pub open spec fn run(start: InstallationState, events: Seq<Event>) -> InstallationState
    decreases events.len(),
{
    if events.len() == 0 {
        start
    } else {
        stepped(run(start, events.drop_last()), events.last()).0
    }
}

/// What the installation hands back for the last of the events.
pub open spec fn outcome(start: InstallationState, events: Seq<Event>) -> Reply {
    stepped(run(start, events.drop_last()), events.last()).1
}

/// An event leaves the failed tasks of a phase as they are, or adds one.
pub proof fn lemma_resumed_keeps_failed(tasks: Seq<Step>, progress: ProgressState, event: Event)
    ensures
        progress.failed.is_prefix_of(resumed(tasks, progress, event).failed),
{
    let after = resumed(tasks, progress, event).failed;
    assert(after == progress.failed || exists|name: Seq<char>|
        after == progress.failed.push(name)) by {
        if after != progress.failed {
            let name = tasks[progress.position as int].name();
            assert(after == progress.failed.push(name));
        }
    }
    assert(progress.failed.is_prefix_of(after));
}

/// A failure of an item is never lost: an installation that holds it, or
/// that comes to hold it with the event, holds it after the event.
pub proof fn lemma_stepped_remembers(
    state: InstallationState,
    event: Event,
    phase: Phase,
    name: Seq<char>,
)
    requires
        phase.names_items(),
        state.remembers(phase, name) || (state.phase == phase && resumed(
            state.steps(),
            state.progress,
            event,
        ).failed.contains(name)),
    ensures
        stepped(state, event).0.remembers(phase, name),
    decreases 4 - state.phase.rank(),
{
    if !(state.phase is Finished) {
        let progress = resumed(state.steps(), state.progress, event);
        lemma_resumed_keeps_failed(state.steps(), state.progress, event);
        if state.phase == phase && state.progress.failed.contains(name) {
            let at = choose|i: int|
                0 <= i < state.progress.failed.len() && state.progress.failed[i] == name;
            assert(progress.failed[at] == name);
            assert(progress.failed.contains(name));
        }
        let in_phase = state.phase == phase && progress.failed.contains(name);
        if !in_phase {
            assert(exists|i: int|
                0 <= i < state.errors.len() && (#[trigger] state.errors[i]).blames(phase, name));
        }
        if asked(state.steps(), state.progress, event) is None {
            let next = state.closed(progress.failed);
            if in_phase {
                let at = choose|i: int| 0 <= i < progress.failed.len() && progress.failed[i] == name;
                assert(progress.failed.len() > 0);
                let last = next.errors.len() - 1;
                assert(next.errors[last] == phase.failure(progress.failed));
                assert(next.errors[last].blames(phase, name));
            } else {
                let at = choose|i: int|
                    0 <= i < state.errors.len() && (#[trigger] state.errors[i]).blames(
                        phase,
                        name,
                    );
                assert(next.errors[at] == state.errors[at]);
                assert(next.errors[at].blames(phase, name));
            }
            assert(next.remembers(phase, name));
            lemma_stepped_remembers(next, Event::Start, phase, name);
        } else {
            let after = InstallationState { progress, ..state };
            if !in_phase {
                let at = choose|i: int|
                    0 <= i < state.errors.len() && (#[trigger] state.errors[i]).blames(
                        phase,
                        name,
                    );
                assert(after.errors[at].blames(phase, name));
            }
            assert(after.remembers(phase, name));
        }
    }
}

/// What an installation holds after some of the events, it holds after all
/// of them.
pub proof fn lemma_run_remembers(
    start: InstallationState,
    events: Seq<Event>,
    n: int,
    phase: Phase,
    name: Seq<char>,
)
    requires
        0 <= n <= events.len(),
        phase.names_items(),
        run(start, events.take(n)).remembers(phase, name),
    ensures
        run(start, events).remembers(phase, name),
    decreases events.len() - n,
{
    if n == events.len() {
        assert(events.take(n) =~= events);
    } else {
        assert(events.take(n + 1).drop_last() =~= events.take(n));
        lemma_stepped_remembers(run(start, events.take(n)), events[n], phase, name);
        lemma_run_remembers(start, events, n + 1, phase, name);
    }
}

/// The installation never short-circuits, however many items are required:
/// where the installation of a component could not be started and a system
/// binary is missing, the result holds both failures, the one of the
/// components with the component among its names and the one of the binaries
/// with the binary among its names, whatever else happened.
pub proof fn lemma_both_failures_are_reported(
    components: Seq<Seq<char>>,
    subcommands: Seq<Seq<char>>,
    binaries: Seq<Seq<char>>,
    events: Seq<Event>,
    failed_at: int,
    missing_at: int,
    component: Seq<char>,
    binary: Seq<char>,
)
    requires
        0 <= failed_at < events.len(),
        0 <= missing_at < events.len(),
        ({
            let state = run(
                beginning(components, subcommands, binaries),
                events.take(failed_at),
            );
            &&& state.at_item(Phase::Components, component)
            &&& state.progress.waiting is Launch
            &&& events[failed_at] == Event::Launched(false)
        }),
        ({
            let state = run(
                beginning(components, subcommands, binaries),
                events.take(missing_at),
            );
            &&& state.at_item(Phase::Binaries, binary)
            &&& state.progress.waiting is Probe
            &&& events[missing_at] == Event::Probed(false)
        }),
        outcome(beginning(components, subcommands, binaries), events) is Done,
    ensures
        outcome(beginning(components, subcommands, binaries), events) matches Reply::Done(
            Err(failures),
        ) && (exists|i: int|
            0 <= i < failures.len() && (#[trigger] failures[i]).blames(
                Phase::Components,
                component,
            )) && (exists|i: int|
            0 <= i < failures.len() && (#[trigger] failures[i]).blames(Phase::Binaries, binary)),
{
    let start = beginning(components, subcommands, binaries);
    let failing = run(start, events.take(failed_at));
    assert(events.take(failed_at + 1).drop_last() =~= events.take(failed_at));
    assert(run(start, events.take(failed_at + 1)) == stepped(failing, events[failed_at]).0);
    let recorded = resumed(failing.steps(), failing.progress, events[failed_at]).failed;
    assert(recorded == failing.progress.failed.push(component));
    assert(recorded[recorded.len() - 1] == component);
    lemma_stepped_remembers(failing, events[failed_at], Phase::Components, component);
    lemma_run_remembers(start, events, failed_at + 1, Phase::Components, component);

    let missing = run(start, events.take(missing_at));
    assert(events.take(missing_at + 1).drop_last() =~= events.take(missing_at));
    assert(run(start, events.take(missing_at + 1)) == stepped(missing, events[missing_at]).0);
    let noted = resumed(missing.steps(), missing.progress, events[missing_at]).failed;
    assert(missing.steps()[missing.progress.position as int] is Require);
    assert(noted == missing.progress.failed.push(binary));
    assert(noted[noted.len() - 1] == binary);
    lemma_stepped_remembers(missing, events[missing_at], Phase::Binaries, binary);
    lemma_run_remembers(start, events, missing_at + 1, Phase::Binaries, binary);

    let before = run(start, events.drop_last());
    lemma_stepped_settles(before, events.last());
    lemma_failures_do_not_steer(before, before, events.last());
    let end = run(start, events);
    assert(end == stepped(before, events.last()).0);
    assert(end.phase is Finished);
    assert(outcome(start, events) == Reply::Done(report(end.errors)));
    assert(outcome(start, events) matches Reply::Done(Err(failures)) && failures == end.errors);
    assert(exists|i: int|
        0 <= i < end.errors.len() && (#[trigger] end.errors[i]).blames(
            Phase::Components,
            component,
        ));
    assert(exists|i: int|
        0 <= i < end.errors.len() && (#[trigger] end.errors[i]).blames(Phase::Binaries, binary));
}

/// The number of tasks depends on the required items alone.
pub proof fn lemma_tasks_from_lists(a: InstallationState, b: InstallationState, phase: Phase)
    requires
        a.components == b.components,
        a.subcommands == b.subcommands,
        a.binaries == b.binaries,
    ensures
        a.tasks_from(phase) == b.tasks_from(phase),
    decreases 4 - phase.rank(),
{
    if !(phase is Finished) {
        lemma_tasks_from_lists(a, b, phase.following());
    }
}

/// `which::which` of the crate `which`: whether an executable of this name is
/// found on the search path. The answer depends on the machine, so nothing is
/// promised of it.
#[verifier::external_body]
fn is_installed(name: &str) -> (present: bool) {
    which::which(name).is_ok()
}

/// Installs and updates the toolchain, as far as that goes without starting
/// a command: looks for the items that the open requests name, and hands back
/// the next command to start, or the result once every phase is through. The
/// caller starts the command and calls again with `Some(started)`; the first
/// call takes `None`.
///
/// What comes back is what `Installation::step` gives for the caller's report
/// followed by the answers that the search for the items gave.
pub fn update_and_install_dependencies(installation: &mut Installation, launched: Option<bool>) -> (next:
    Next)
    ensures
        exists|probes: Seq<bool>|
            {
                &&& probing(old(installation)@, reported(launched), probes)
                &&& #[trigger] driven(old(installation)@, reported(launched), probes) == (
                    final(installation)@,
                    next@,
                )
            },
        final(installation)@.components == old(installation)@.components,
        final(installation)@.subcommands == old(installation)@.subcommands,
        final(installation)@.binaries == old(installation)@.binaries,
        old(installation)@.errors.is_prefix_of(final(installation)@.errors),
        final(installation)@.remaining() <= old(installation)@.remaining(),
        next matches Next::Run(_) ==> final(installation)@.answered_by(Event::Launched(true)),
        next matches Next::Done(_) ==> final(installation)@.phase is Finished,
{
    let mut event = match launched {
        Some(started) => Event::Launched(started),
        None => Event::Start,
    };
    let ghost mut probes: Seq<bool> = Seq::empty();
    loop
        invariant
            (installation@, event) == replayed(old(installation)@, reported(launched), probes),
            probing(old(installation)@, reported(launched), probes),
            probes.len() > 0 ==> installation@.answered_by(event),
            installation@.components == old(installation)@.components,
            installation@.subcommands == old(installation)@.subcommands,
            installation@.binaries == old(installation)@.binaries,
            old(installation)@.errors.is_prefix_of(installation@.errors),
            installation@.remaining() <= old(installation)@.remaining(),
        decreases
                installation@.remaining(),
                (if probes.len() > 0 {
                    0int
                } else {
                    1int
                }),
    {
        proof {
            lemma_stepped_settles(installation@, event);
            lemma_failures_do_not_steer(installation@, installation@, event);
        }
        match installation.step(event) {
            Status::Ask(Request::Probe(name)) => {
                let present = is_installed(name.as_str());
                event = Event::Probed(present);
                proof {
                    let ghost answered = probes;
                    probes = probes.push(present);
                    assert(probes.drop_last() =~= answered);
                }
            },
            Status::Ask(Request::Run(command)) => {
                let next = Next::Run(command);
                assert(driven(old(installation)@, reported(launched), probes) == (
                    installation@,
                    next@,
                ));
                return next;
            },
            Status::Done(result) => {
                let next = Next::Done(result);
                assert(driven(old(installation)@, reported(launched), probes) == (
                    installation@,
                    next@,
                ));
                return next;
            },
        }
    }
}

} // verus!
