//! What the commands print, and how they end.

use std::str::FromStr;

use local_transfer_core::browser::TransientDiscoveryKey;
use local_transfer_core::command::{
    after_install_interrupt, after_load, after_observe, after_start_browsing, after_write,
    conclude, device_output, execute, platform_label, CliError, Command, CommandStep, DeviceView,
};
use local_transfer_core::device_name::{DeviceName, DeviceNameError, DeviceNameValidationError};
use local_transfer_core::discover::{DiscoverArgs, DiscoveryCliError};
use local_transfer_core::identity::DeviceId;
use local_transfer_core::platform::Platform;
use local_transfer_core::LocalDeviceError;

const DEVICE_ID: &str = "f47ac10b-58cc-4372-a567-0e02b2c3d479";

fn device(platform: Platform) -> DeviceView {
    DeviceView {
        id: DeviceId::from_str(DEVICE_ID).unwrap(),
        name: DeviceName::new("Studio Workstation").unwrap(),
        platform,
    }
}

/// Runs the device command, and gives what it writes and how it ends.
fn run(loaded: Result<DeviceView, LocalDeviceError>) -> (String, String, bool) {
    let mut stdout = String::new();
    let mut loaded = Some(loaded);
    let mut step = execute(Command::Device);
    let result = loop {
        step = match step {
            CommandStep::LoadDevice => after_load(loaded.take().unwrap()),
            CommandStep::Write { output } => {
                stdout.push_str(&output);
                after_write(Ok(()))
            }
            CommandStep::Done(result) => break result,
            other => panic!("unexpected step {other:?}"),
        };
    };
    let end = conclude(result);
    (stdout, end.diagnostic, end.success)
}

#[test]
fn renders_device_id_name_and_platform() {
    assert_eq!(
        device_output(Ok(device(Platform::Linux))).unwrap(),
        "ID:       f47ac10b-58cc-4372-a567-0e02b2c3d479\n\
         Name:     Studio Workstation\n\
         Platform: Linux\n"
    );
}

#[test]
fn presents_human_facing_platform_labels() {
    assert_eq!(platform_label(Platform::MacOs), "macOS");
    assert_eq!(platform_label(Platform::Windows), "Windows");
    assert_eq!(platform_label(Platform::Linux), "Linux");
}

#[test]
fn load_errors_propagate_with_their_domain_cause() {
    let error = device_output(Err(LocalDeviceError::DeviceName(DeviceNameError::Validation(
        DeviceNameValidationError::Empty,
    ))))
    .unwrap_err();

    assert!(matches!(
        error,
        CliError::Load(LocalDeviceError::DeviceName(DeviceNameError::Validation(
            DeviceNameValidationError::Empty
        )))
    ));
}

#[test]
fn successful_application_execution_uses_stdout_and_returns_success() {
    let (stdout, stderr, success) = run(Ok(device(Platform::Linux)));

    assert!(success);
    assert!(!stdout.is_empty());
    assert!(stderr.is_empty());
}

#[test]
fn load_failure_uses_stderr_and_returns_failure() {
    let (stdout, diagnostic, success) = run(Err(LocalDeviceError::ConfigDirectoryUnavailable));

    assert!(!success);
    assert!(stdout.is_empty());
    assert!(diagnostic.contains("failed to load local device"));
    assert!(!diagnostic.contains("ConfigDirectoryUnavailable"));
}

#[test]
fn failures_are_described_in_words() {
    assert_eq!(
        conclude(Err(CliError::Load(LocalDeviceError::ConfigDirectoryUnavailable))).diagnostic,
        "error: failed to load local device: the local configuration directory is unavailable\n"
    );
    assert_eq!(
        conclude(Err(CliError::Output("closed".to_owned()))).diagnostic,
        "error: failed to write command output: closed\n"
    );
    assert_eq!(
        conclude(Err(CliError::Discovery(DiscoveryCliError::Output("closed".to_owned()))))
            .diagnostic,
        "error: failed to write command output: closed\n"
    );
}

#[test]
fn discovery_starts_only_with_an_interrupt_handler_and_a_browser() {
    let args = DiscoverArgs::default();
    let failed = || TransientDiscoveryKey::new("not a service name").unwrap_err();

    assert!(matches!(
        execute(Command::Discover(args)),
        CommandStep::InstallInterrupt { args: kept } if kept == args
    ));
    assert!(matches!(
        after_install_interrupt(args, Ok(())),
        CommandStep::StartBrowsing { args: kept } if kept == args
    ));
    assert!(matches!(
        after_start_browsing(args, Ok(())),
        CommandStep::Observe { args: kept } if kept == args
    ));
    assert!(matches!(after_observe(Ok(())), CommandStep::Done(Ok(()))));

    for (step, expected) in [
        (
            after_install_interrupt(args, Err("no signal".to_owned())),
            DiscoveryCliError::Interrupt("no signal".to_owned()),
        ),
        (after_start_browsing(args, Err(failed())), DiscoveryCliError::Start(failed())),
        (
            after_observe(Err(DiscoveryCliError::Shutdown(failed()))),
            DiscoveryCliError::Shutdown(failed()),
        ),
    ] {
        match step {
            CommandStep::Done(Err(error)) => assert_eq!(error, CliError::Discovery(expected)),
            other => panic!("expected a failure, got {other:?}"),
        }
    }
}

#[test]
fn output_that_cannot_be_written_fails_the_command() {
    match after_write(Err("closed".to_owned())) {
        CommandStep::Done(Err(error)) => {
            assert_eq!(error, CliError::Output("closed".to_owned()))
        }
        other => panic!("expected a failure, got {other:?}"),
    }
}
