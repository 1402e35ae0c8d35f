//! The commands of the program: what each prints, and how it ends.

use vstd::prelude::*;

use crate::browser::DiscoveryBrowserError;
use crate::device_name::DeviceName;
use crate::discover::{DiscoverArgs, DiscoveryCliError};
use crate::identity::DeviceId;
use crate::local_device;
use crate::local_device::{LocalDevice, LocalDeviceError};
use crate::platform::Platform;
use crate::text;
use crate::uuids;

verus! {

/// What the program is asked to do.
#[derive(Clone, Copy, Debug, PartialEq, Eq, Structural)]
pub enum Command {
    /// Show this installation's local device identity.
    Device,
    /// Observe transient, unauthenticated devices advertising on the local network.
    Discover(DiscoverArgs),
}

/// What is shown of the local device.
#[derive(Debug)]
pub struct DeviceView {
    /// The permanent identifier.
    pub id: DeviceId,
    /// The display name.
    pub name: DeviceName,
    /// The operating-system family.
    pub platform: Platform,
}

impl View for DeviceView {
    type V = local_device::LocalDeviceModel;

    open spec fn view(&self) -> local_device::LocalDeviceModel {
        local_device::LocalDeviceModel {
            id: self.id@,
            name: self.name@,
            platform: self.platform,
        }
    }
}

impl DeviceView {
    /// Shows a snapshot of the local device.
    pub fn of(device: &LocalDevice) -> (r: Self)
        ensures
            r@ == device@,
    {
        DeviceView {
            id: device.id(),
            name: device.name().clone(),
            platform: device.platform(),
        }
    }
}

/// A command failure. The description of an output failure is a text for display.
#[derive(Debug, PartialEq, Eq)]
pub enum CliError {
    /// The local device could not be loaded.
    Load(LocalDeviceError),
    /// Command output could not be written.
    Output(String),
    /// Discovery failed.
    Discovery(DiscoveryCliError),
}

impl CliError {
    /// The description of the failure.
    pub open spec fn text(self) -> Seq<char> {
        match self {
            CliError::Load(source) => "failed to load local device: "@ + source.text(),
            CliError::Output(source) => "failed to write command output: "@ + source@,
            CliError::Discovery(source) => source.text(),
        }
    }

    /// Describes the failure.
    pub fn message(&self) -> (s: String)
        ensures
            s@ == self.text(),
    {
        match self {
            CliError::Load(source) => String::from_str("failed to load local device: ").concat(
                source.message().as_str(),
            ),
            CliError::Output(source) => String::from_str("failed to write command output: ").concat(
                source.as_str(),
            ),
            CliError::Discovery(source) => source.message(),
        }
    }
}

/// What a platform is called in output.
pub open spec fn platform_name(platform: Platform) -> Seq<char> {
    match platform {
        Platform::MacOs => "macOS"@,
        Platform::Windows => "Windows"@,
        Platform::Linux => "Linux"@,
    }
}

/// Names a platform for output.
pub fn platform_label(platform: Platform) -> (s: &'static str)
    ensures
        s@ == platform_name(platform),
{
    match platform {
        Platform::MacOs => "macOS",
        Platform::Windows => "Windows",
        Platform::Linux => "Linux",
    }
}

/// What the device command prints.
pub open spec fn device_text(device: local_device::LocalDeviceModel) -> Seq<char> {
    "ID:       "@ + uuids::hyphenated(device.id) + "\nName:     "@ + device.name + "\nPlatform: "@
        + platform_name(device.platform) + "\n"@
}

/// Renders the output of the device command, or the failure to load the device.
pub fn device_output(loaded: Result<DeviceView, LocalDeviceError>) -> (r: Result<String, CliError>)
    ensures
        match loaded {
            Ok(device) => r is Ok && r->Ok_0@ == device_text(device@),
            Err(error) => r == Err::<String, CliError>(CliError::Load(error)),
        },
{
    match loaded {
        Ok(device) => Ok(
            String::from_str("ID:       ").concat(device.id.to_text().as_str()).concat(
                "\nName:     ",
            ).concat(device.name.as_str()).concat("\nPlatform: ").concat(
                platform_label(device.platform),
            ).concat("\n"),
        ),
        Err(error) => Err(CliError::Load(error)),
    }
}

/// A step of a command.
#[derive(Debug)]
pub enum CommandStep {
    /// Load the local device.
    LoadDevice,
    /// Write this output.
    Write { output: String },
    /// Let an interrupt of the user cancel the pass.
    InstallInterrupt { args: DiscoverArgs },
    /// Start to browse for the window of the arguments.
    StartBrowsing { args: DiscoverArgs },
    /// Run an observation pass and write its report.
    Observe { args: DiscoverArgs },
    /// The command is over.
    Done(Result<(), CliError>),
}

/// Whether a step of a command can follow another.
pub open spec fn follows(from: CommandStep, to: CommandStep) -> bool {
    match from {
        CommandStep::LoadDevice => to is Write || to matches CommandStep::Done(
            Err(CliError::Load(_)),
        ),
        CommandStep::Write { output: _ } => to == CommandStep::Done(Ok(()))
            || to matches CommandStep::Done(Err(CliError::Output(_))),
        CommandStep::InstallInterrupt { args } => to == (CommandStep::StartBrowsing { args })
            || to matches CommandStep::Done(
            Err(CliError::Discovery(DiscoveryCliError::Interrupt(_))),
        ),
        CommandStep::StartBrowsing { args } => to == (CommandStep::Observe { args })
            || to matches CommandStep::Done(Err(CliError::Discovery(DiscoveryCliError::Start(_)))),
        CommandStep::Observe { args: _ } => to == CommandStep::Done(Ok(()))
            || to matches CommandStep::Done(Err(CliError::Discovery(_))),
        CommandStep::Done(_) => false,
    }
}

/// Begins a command.
pub fn execute(command: Command) -> (r: CommandStep)
    ensures
        match command {
            Command::Device => r is LoadDevice,
            Command::Discover(args) => r == (CommandStep::InstallInterrupt { args }),
        },
{
    match command {
        Command::Device => CommandStep::LoadDevice,
        Command::Discover(args) => CommandStep::InstallInterrupt { args },
    }
}

/// Goes on after loading the local device. A device that cannot be loaded writes nothing.
pub fn after_load(loaded: Result<DeviceView, LocalDeviceError>) -> (r: CommandStep)
    ensures
        match loaded {
            Ok(device) => r matches CommandStep::Write { output } && output@ == device_text(
                device@,
            ),
            Err(error) => r == CommandStep::Done(Err(CliError::Load(error))),
        },
        follows(CommandStep::LoadDevice, r),
{
    match device_output(loaded) {
        Ok(output) => CommandStep::Write { output },
        Err(error) => CommandStep::Done(Err(error)),
    }
}

/// Ends after writing the output.
pub fn after_write(written: Result<(), String>) -> (r: CommandStep)
    ensures
        match written {
            Ok(_) => r == CommandStep::Done(Ok(())),
            Err(source) => r == CommandStep::Done(Err(CliError::Output(source))),
        },
        forall|output: String| #[trigger] follows(CommandStep::Write { output }, r),
{
    match written {
        Ok(_) => CommandStep::Done(Ok(())),
        Err(source) => CommandStep::Done(Err(CliError::Output(source))),
    }
}

/// Goes on after installing the interrupt handler. Without it nothing is started.
pub fn after_install_interrupt(args: DiscoverArgs, outcome: Result<(), String>) -> (r: CommandStep)
    ensures
        match outcome {
            Ok(_) => r == (CommandStep::StartBrowsing { args }),
            Err(source) => r == CommandStep::Done(
                Err(CliError::Discovery(DiscoveryCliError::Interrupt(source))),
            ),
        },
        follows(CommandStep::InstallInterrupt { args }, r),
{
    match outcome {
        Ok(_) => CommandStep::StartBrowsing { args },
        Err(source) => CommandStep::Done(
            Err(CliError::Discovery(DiscoveryCliError::Interrupt(source))),
        ),
    }
}

/// Goes on after starting to browse.
pub fn after_start_browsing(args: DiscoverArgs, outcome: Result<(), DiscoveryBrowserError>) -> (r:
    CommandStep)
    ensures
        match outcome {
            Ok(_) => r == (CommandStep::Observe { args }),
            Err(error) => r == CommandStep::Done(
                Err(CliError::Discovery(DiscoveryCliError::Start(error))),
            ),
        },
        follows(CommandStep::StartBrowsing { args }, r),
{
    match outcome {
        Ok(_) => CommandStep::Observe { args },
        Err(error) => CommandStep::Done(Err(CliError::Discovery(DiscoveryCliError::Start(error)))),
    }
}

/// Ends after an observation pass.
pub fn after_observe(outcome: Result<(), DiscoveryCliError>) -> (r: CommandStep)
    ensures
        match outcome {
            Ok(_) => r == CommandStep::Done(Ok(())),
            Err(error) => r == CommandStep::Done(Err(CliError::Discovery(error))),
        },
        forall|args: DiscoverArgs| #[trigger] follows(CommandStep::Observe { args }, r),
{
    match outcome {
        Ok(_) => CommandStep::Done(Ok(())),
        Err(error) => CommandStep::Done(Err(CliError::Discovery(error))),
    }
}

/// How a command ends.
#[derive(Debug, PartialEq, Eq)]
pub struct CommandEnd {
    /// Whether the exit status reports success.
    pub success: bool,
    /// What is written to standard error.
    pub diagnostic: String,
}

/// Decides how a command ends. A failure is described on standard error, in words.
pub fn conclude(result: Result<(), CliError>) -> (r: CommandEnd)
    ensures
        r.success == (result is Ok),
        r.diagnostic@ == (match result {
            Ok(_) => ""@,
            Err(error) => "error: "@ + error.text() + "\n"@,
        }),
{
    match result {
        Ok(_) => CommandEnd { success: true, diagnostic: String::from_str("") },
        Err(error) => CommandEnd {
            success: false,
            diagnostic: String::from_str("error: ").concat(error.message().as_str()).concat("\n"),
        },
    }
}

/// What the device command prints: the identifier, the display name and the platform,
/// each on a line of its own behind its label.
pub proof fn device_text_shows_the_device(device: local_device::LocalDeviceModel)
    requires
        device.id.len() == 16,
    ensures
        ({
            let s = device_text(device);
            let n = 57 + device.name.len() as int;
            let platform = match device.platform {
                Platform::MacOs => "macOS"@,
                Platform::Windows => "Windows"@,
                Platform::Linux => "Linux"@,
            };
            &&& s.len() == n + 12 + platform.len()
            &&& s.take(10) == "ID:       "@
            &&& s.subrange(10, 46) == uuids::hyphenated(device.id)
            &&& s.subrange(46, 57) == "\nName:     "@
            &&& s.subrange(57, n) == device.name
            &&& s.subrange(n, n + 11) == "\nPlatform: "@
            &&& s.subrange(n + 11, s.len() - 1) == platform
            &&& s.last() == '\n'
        }),
{
    reveal_strlit("ID:       ");
    reveal_strlit("\nName:     ");
    reveal_strlit("\nPlatform: ");
    reveal_strlit("\n");
    uuids::lemma_hyphenated_shape(device.id);
    let s = device_text(device);
    let n = 57 + device.name.len() as int;
    assert(s.take(10) =~= "ID:       "@);
    assert(s.subrange(10, 46) =~= uuids::hyphenated(device.id));
    assert(s.subrange(46, 57) =~= "\nName:     "@);
    assert(s.subrange(57, n) =~= device.name);
    assert(s.subrange(n, n + 11) =~= "\nPlatform: "@);
    assert(s.subrange(n + 11, s.len() - 1) =~= platform_name(device.platform));
}

/// The description of a failure names its cause.
pub proof fn failure_names_its_cause(error: CliError)
    ensures
        match error {
            CliError::Load(source) => text::mentions(error.text(), source.text()),
            CliError::Output(source) => text::mentions(error.text(), source@),
            CliError::Discovery(source) => error.text() == source.text(),
        },
{
    let none = Seq::<char>::empty();
    match error {
        CliError::Load(source) => text::lemma_mentions(
            "failed to load local device: "@,
            source.text(),
            none,
        ),
        CliError::Output(source) => text::lemma_mentions(
            "failed to write command output: "@,
            source@,
            none,
        ),
        CliError::Discovery(_) => {},
    }
}

/// Whether each step of a command follows the one before.
pub open spec fn is_run(steps: Seq<CommandStep>) -> bool {
    forall|i: int| 0 < i < steps.len() ==> follows(steps[i - 1], #[trigger] steps[i])
}

/// A device command that succeeds has loaded the device and written its output, in this
/// order. One that fails has failed to load the device and written nothing, or failed to
/// write.
pub proof fn device_command_writes_what_it_loaded(steps: Seq<CommandStep>)
    requires
        is_run(steps),
        steps.len() > 0,
        steps[0] is LoadDevice,
        steps.last() is Done,
    ensures
        steps.len() == 2 || steps.len() == 3,
        steps.len() == 2 <==> (steps.last() matches CommandStep::Done(Err(CliError::Load(_)))),
        steps.len() == 3 ==> steps[1] is Write,
        steps.last() == CommandStep::Done(Ok(())) ==> steps.len() == 3,
{
    assert(steps.len() > 1);
    assert(follows(steps[0], steps[1]));
    if steps.len() > 2 {
        assert(follows(steps[1], steps[2]));
        if steps.len() > 3 {
            assert(follows(steps[2], steps[3]));
        }
    }
}

/// A discovery command observes only with an interrupt handler and a browser, and for the
/// arguments that it was given; without either it ends before, with the reason.
pub proof fn discovery_observes_only_when_ready(steps: Seq<CommandStep>, args: DiscoverArgs)
    requires
        is_run(steps),
        steps.len() > 0,
        steps[0] == (CommandStep::InstallInterrupt { args }),
        steps.last() is Done,
    ensures
        2 <= steps.len() <= 4,
        steps.len() == 2 ==> (steps.last() matches CommandStep::Done(
            Err(CliError::Discovery(DiscoveryCliError::Interrupt(_))),
        )),
        steps.len() > 2 ==> steps[1] == (CommandStep::StartBrowsing { args }),
        steps.len() == 3 ==> (steps.last() matches CommandStep::Done(
            Err(CliError::Discovery(DiscoveryCliError::Start(_))),
        )),
        steps.len() == 4 ==> steps[2] == (CommandStep::Observe { args }),
        steps.last() == CommandStep::Done(Ok(())) ==> steps.len() == 4,
{
    assert(steps.len() > 1);
    assert(follows(steps[0], steps[1]));
    if steps.len() > 2 {
        assert(follows(steps[1], steps[2]));
        if steps.len() > 3 {
            assert(follows(steps[2], steps[3]));
            if steps.len() > 4 {
                assert(follows(steps[3], steps[4]));
            }
        }
    }
}

} // verus!
