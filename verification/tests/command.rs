use rmdev::command::clear::{Clear, RunAction, RunEvent, Stage};
use rmdev::command::{Cli, Commands};
use rmdev::signal::Signal;

fn clear(ci: bool, force: bool) -> Clear {
    Clear { target: "/r".to_string(), force, ci }
}

#[test]
fn run_without_the_table() {
    let args = clear(true, true);
    assert_eq!(args.run(Stage::Idle, RunEvent::Begin), (Stage::Scanning, RunAction::Scan));
    assert_eq!(
        args.run(Stage::Scanning, RunEvent::ScanDone),
        (Stage::Removing, RunAction::Remove { force: true })
    );
    assert_eq!(
        args.run(Stage::Removing, RunEvent::Removed(3)),
        (Stage::Finished, RunAction::Report(3))
    );
}

#[test]
fn run_with_the_table() {
    let args = clear(false, false);
    assert_eq!(args.run(Stage::Idle, RunEvent::Begin), (Stage::Scanning, RunAction::ScanBesideUi));
    assert_eq!(args.run(Stage::Scanning, RunEvent::ScanDone), (Stage::Waiting, RunAction::AwaitUi));
    assert_eq!(
        args.run(Stage::Waiting, RunEvent::UiClosed(0)),
        (Stage::Removing, RunAction::Remove { force: false })
    );
}

#[test]
fn run_stops_after_quit_or_failure_of_the_table() {
    let args = clear(false, true);
    assert_eq!(args.run(Stage::Waiting, RunEvent::UiClosed(1)), (Stage::Finished, RunAction::Stop));
    assert_eq!(args.run(Stage::Waiting, RunEvent::UiClosed(2)), (Stage::Finished, RunAction::Stop));
}

#[test]
fn run_hands_on_the_failure_of_the_root() {
    assert_eq!(
        clear(true, false).run(Stage::Scanning, RunEvent::ScanFailed),
        (Stage::Finished, RunAction::Fail)
    );
}

#[test]
fn run_ignores_what_does_not_belong() {
    let args = clear(true, false);
    assert_eq!(args.run(Stage::Idle, RunEvent::ScanDone), (Stage::Idle, RunAction::Ignore));
    assert_eq!(args.run(Stage::Finished, RunEvent::Begin), (Stage::Finished, RunAction::Ignore));
    assert_eq!(
        args.run(Stage::Scanning, RunEvent::UiClosed(0)),
        (Stage::Scanning, RunAction::Ignore)
    );
}

#[test]
fn summary_line() {
    assert_eq!(Clear::summary(0), "[RM] Clear 0 project cache.");
    assert_eq!(Clear::summary(2), "[RM] Clear 2 project cache.");
    assert_eq!(Clear::summary(1234567890), "[RM] Clear 1234567890 project cache.");
}

#[test]
fn cli_holds_the_command() {
    let cli = Cli { commands: Commands::Clear(clear(true, false)) };
    let Commands::Clear(args) = cli.commands;
    assert_eq!(args.target, "/r");
    assert!(args.ci);
    assert!(!args.force);
}

#[test]
fn signal_starts_at_zero() {
    assert_eq!(Signal::new().get(), 0);
    assert_eq!(Signal::default().get(), 0);
}

#[test]
fn signal_keeps_the_last_code() {
    let mut signal = Signal::new();
    signal.set(2);
    assert_eq!(signal.get(), 2);
    signal.set(1);
    assert_eq!(signal.get(), 1);
}
