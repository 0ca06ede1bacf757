//! What the engine asks of a Docker daemon to start a container, one
//! command at a time. [`Startup`] says which command comes next given how
//! the last one went; the program around this library sends the commands.

use crate::models::TaskRunState;
use crate::scheduler::{
    Exec, GetStateResponse, RegistryAuth, SchedulerError, StartContainerRequest,
    StartContainerResponse,
};
use crate::string_map::StringMap;
use crate::text::owned;
use vstd::prelude::*;
use vstd::string::*;
use vstd::utf8::encode_utf8;

verus! {

/// `base64::DecodeError`, the error that the base64 decoder reports.
#[verifier::external_type_specification]
#[verifier::external_body]
pub struct ExDecodeError(base64::DecodeError);

/// The bytes that the decoder makes of a text in the standard base64
/// alphabet; nothing where the decoder reports an error.
pub uninterp spec fn base64_decoded(text: Seq<char>) -> Option<Seq<u8>>;

/// The text that bytes read as UTF-8, with the replacement character
/// wherever they are not.
pub uninterp spec fn lossy_text(bytes: Seq<u8>) -> Seq<char>;

/// Wraps `base64::decode`. The contract names the result: the decoded
/// bytes, or the failure to decode, are a function of the text alone. The
/// decoder rounds the length of the text up to whole chunks of eight bytes
/// and panics where that overflows, which `requires` leaves out.
#[verifier::external_body]
fn decode_base64(text: &str) -> (r: Result<Vec<u8>, base64::DecodeError>)
    requires
        encode_utf8(text@).len() + 7 <= usize::MAX,
    ensures
        match r {
            Ok(bytes) => base64_decoded(text@) == Some(bytes@),
            Err(_) => base64_decoded(text@) is None,
        },
{
    base64::decode(text)
}

/// Wraps `String::from_utf8_lossy`. The contract names the result: the text
/// is a function of the bytes alone.
#[verifier::external_body]
fn utf8_lossy(bytes: &Vec<u8>) -> (r: String)
    ensures
        r@ == lossy_text(bytes@),
{
    String::from_utf8_lossy(bytes).into_owned()
}

/// An environment variable as the runtime takes it: the key, an equals
/// sign, the value.
pub open spec fn env_entry(key: Seq<char>, value: Seq<char>) -> Seq<char> {
    key + seq!['='] + value
}

/// Writes an environment variable as the runtime takes it.
pub fn format_env_var(key: &str, value: &str) -> (r: String)
    ensures
        r@ == env_entry(key@, value@),
{
    proof {
        reveal_strlit("=");
    }
    let r = String::from_str(key).concat("=").concat(value);
    assert("="@ =~= seq!['=']);
    r
}

/// The environment of a container: one entry per variable, in order.
pub open spec fn env_entries(variables: Seq<(Seq<char>, Seq<char>)>) -> Seq<Seq<char>> {
    Seq::new(variables.len(), |i: int| env_entry(variables[i].0, variables[i].1))
}

/// Writes the environment of a container.
pub fn environment(variables: &StringMap<String>) -> (r: Vec<String>)
    ensures
        r.deep_view() == env_entries(variables.deep_view()),
{
    let n: usize = variables.len();
    let mut r: Vec<String> = Vec::new();
    let mut i: usize = 0;
    while i < n
        invariant
            n == variables@.len(),
            i <= n,
            r@.len() == i,
            forall|j: int|
                0 <= j < i ==> (#[trigger] r@[j])@ == env_entries(variables.deep_view())[j],
        decreases n - i,
    {
        r.push(format_env_var(variables.key_at(i).as_str(), variables.value_at(i).as_str()));
        i += 1;
    }
    assert(r.deep_view() =~= env_entries(variables.deep_view()));
    r
}

/// The entrypoint that runs `script` in `shell`: the shell, `-c`, the script.
pub open spec fn shell_entrypoint(shell: Seq<char>, script: Seq<char>) -> Seq<Seq<char>> {
    seq![shell, "-c"@, script]
}

/// The entrypoint that runs the decoded script `script` in `shell`.
pub fn entrypoint_of(shell: &str, script: String) -> (r: Vec<String>)
    ensures
        r.deep_view() == shell_entrypoint(shell@, script@),
{
    let mut r: Vec<String> = Vec::new();
    r.push(owned(shell));
    r.push(owned("-c"));
    r.push(script);
    assert(r.deep_view() =~= shell_entrypoint(shell@, script@));
    r
}

/// Whether the script of `script` can be decoded: it is short enough for
/// the decoder and is base64.
pub open spec fn decodable(script: Exec) -> bool {
    encode_utf8(script.script@).len() + 7 <= usize::MAX && base64_decoded(
        script.script@,
    ) is Some
}

/// The request carries a script that cannot be decoded.
pub open spec fn undecodable(req: StartContainerRequest) -> bool {
    match req.entrypoint {
        Some(script) => !decodable(script),
        None => false,
    }
}

/// The entrypoint that runs the script of `script`, which is given in
/// base64, in its shell. A script that cannot be decoded is refused.
pub fn entrypoint(script: &Exec) -> (r: Result<Vec<String>, SchedulerError>)
    ensures
        match r {
            Ok(parts) => decodable(*script) && parts.deep_view() == shell_entrypoint(
                script.shell@,
                lossy_text(base64_decoded(script.script@)->Some_0),
            ),
            Err(e) => !decodable(*script) && e is Unknown,
        },
{
    if script.script.as_str().as_bytes().len() > usize::MAX - 7 {
        return Err(SchedulerError::Unknown(owned("the script is too long to decode")));
    }
    match decode_base64(script.script.as_str()) {
        Ok(bytes) => Ok(entrypoint_of(script.shell.as_str(), utf8_lossy(&bytes))),
        Err(_) => Err(SchedulerError::Unknown(owned("the script is not valid base64"))),
    }
}

/// What a container is created from.
#[derive(Debug, PartialEq, Eq)]
pub struct ContainerConfig {
    pub image: String,
    /// The environment, one `KEY=VALUE` entry per variable.
    pub env: Vec<String>,
    /// The entrypoint that replaces that of the image.
    pub entrypoint: Option<Vec<String>>,
    /// Expose the container's port and bind it to a free port of the host's
    /// loopback address.
    pub networking: bool,
}

/// The port that a container with networking exposes.
pub open spec fn container_port() -> Seq<char> {
    "8080/tcp"@
}

/// The address of the host that the port of a container is bound to.
pub open spec fn host_address() -> Seq<char> {
    "127.0.0.1"@
}

/// The port that a container with networking exposes.
pub fn exposed_port() -> (r: String)
    ensures
        r@ == container_port(),
{
    owned("8080/tcp")
}

/// The address of the host that the port of a container is bound to.
pub fn host_ip() -> (r: String)
    ensures
        r@ == host_address(),
{
    owned("127.0.0.1")
}

/// What the container of `req` is created from. A script that cannot be
/// decoded is refused.
pub fn container_config(req: &StartContainerRequest) -> (r: Result<ContainerConfig, SchedulerError>)
    ensures
        match r {
            Ok(config) => {
                &&& config.image@ == req.image_name@
                &&& config.env.deep_view() == env_entries(req.variables.deep_view())
                &&& config.networking == req.enable_networking
                &&& match req.entrypoint {
                    Some(script) => decodable(script) && config.entrypoint.deep_view() == Some(
                        shell_entrypoint(
                            script.shell@,
                            lossy_text(base64_decoded(script.script@)->Some_0),
                        ),
                    ),
                    None => config.entrypoint is None,
                }
            },
            Err(e) => undecodable(*req) && e is Unknown,
        },
{
    let entry = match &req.entrypoint {
        Some(script) => match entrypoint(script) {
            Ok(parts) => Some(parts),
            Err(e) => {
                return Err(e);
            },
        },
        None => None,
    };
    Ok(
        ContainerConfig {
            image: req.image_name.clone(),
            env: environment(&req.variables),
            entrypoint: entry,
            networking: req.enable_networking,
        },
    )
}

/// The status of a container, as the runtime reports it.
#[derive(Debug, Clone, Copy, PartialEq, Eq, Structural)]
pub enum ContainerStatus {
    /// The runtime gave no status.
    Empty,
    Created,
    Running,
    Paused,
    Restarting,
    Removing,
    Exited,
    Dead,
}

/// The state that a container's status and exit code stand for: a
/// container that is created waits, one that runs, is paused or restarts is
/// running, and one that has exited succeeded if its exit code is zero and
/// failed otherwise; a dead container failed.
pub open spec fn state_of(status: ContainerStatus, exit_code: Option<i64>) -> TaskRunState {
    match status {
        ContainerStatus::Empty => TaskRunState::Unknown,
        ContainerStatus::Created => TaskRunState::Waiting,
        ContainerStatus::Running => TaskRunState::Running,
        ContainerStatus::Paused => TaskRunState::Running,
        ContainerStatus::Restarting => TaskRunState::Running,
        ContainerStatus::Removing => TaskRunState::Unknown,
        ContainerStatus::Exited => if exit_code == Some(0i64) {
            TaskRunState::Success
        } else {
            TaskRunState::Failed
        },
        ContainerStatus::Dead => TaskRunState::Failed,
    }
}

/// The exit code of a container that is over, where the runtime gave one
/// that fits a byte.
pub open spec fn exit_code_of(status: ContainerStatus, exit_code: Option<i64>) -> Option<u8> {
    match exit_code {
        Some(code) => if state_of(status, exit_code).terminal() && 0 <= code <= 255 {
            Some(code as u8)
        } else {
            None
        },
        None => None,
    }
}

/// What the engine is told of a container with the status `status` and the
/// exit code `exit_code`.
pub fn container_state(status: ContainerStatus, exit_code: Option<i64>) -> (r: GetStateResponse)
    ensures
        r.state == state_of(status, exit_code),
        r.exit_code == exit_code_of(status, exit_code),
{
    let state = match status {
        ContainerStatus::Empty => TaskRunState::Unknown,
        ContainerStatus::Created => TaskRunState::Waiting,
        ContainerStatus::Running => TaskRunState::Running,
        ContainerStatus::Paused => TaskRunState::Running,
        ContainerStatus::Restarting => TaskRunState::Running,
        ContainerStatus::Removing => TaskRunState::Unknown,
        ContainerStatus::Exited => match exit_code {
            Some(0) => TaskRunState::Success,
            _ => TaskRunState::Failed,
        },
        ContainerStatus::Dead => TaskRunState::Failed,
    };
    let exit_code = match exit_code {
        Some(code) => if state.is_terminal() && 0 <= code && code <= 255 {
            Some(code as u8)
        } else {
            None
        },
        None => None,
    };
    GetStateResponse { exit_code, state }
}

/// The host side of a container's port, as the runtime reports it.
#[derive(Debug, PartialEq, Eq)]
pub struct PortBinding {
    pub host_ip: Option<String>,
    pub host_port: Option<String>,
}

/// Where the engine stands in starting a container.
#[derive(Debug, Clone, Copy, PartialEq, Eq, Structural)]
pub enum Step {
    /// Asked which local images match.
    ListImages,
    /// Asked for the image to be pulled.
    PullImage,
    /// Asked for a container of the same name to be removed.
    RemoveContainer,
    /// Asked for the container to be created.
    CreateContainer,
    /// Asked for the container to be started.
    StartContainer,
    /// Asked for the container's details.
    InspectContainer,
    /// Nothing more to ask.
    Done,
}

/// How the runtime answered the last command.
#[derive(Debug, PartialEq, Eq)]
pub enum Outcome {
    /// The images were listed; `present` says whether one matches.
    Listed { present: bool },
    /// The command went through, with nothing to report.
    Succeeded,
    /// The container was created, under `id` where the runtime gave one.
    Created { id: Option<String> },
    /// The container's details: the first host binding of its port, if any.
    Inspected { binding: Option<PortBinding> },
    /// The command failed; the text says how.
    Failed { why: String },
}

/// What to ask of the runtime.
#[derive(Debug, PartialEq, Eq)]
pub enum Command {
    ListImages { reference: String },
    PullImage { image: String, credentials: Option<RegistryAuth> },
    RemoveContainer { name: String },
    CreateContainer { name: String, config: ContainerConfig },
    StartContainer { name: String },
    InspectContainer { name: String },
    /// Nothing more: the start has ended so.
    Finish { result: Result<StartContainerResponse, SchedulerError> },
}

/// The step that follows `step` when the runtime answers with `outcome`:
/// the image is pulled only where it is asked for or absent; a container of
/// the same name is removed, whether or not that succeeds; then the
/// container is created, started and inspected. Any other failure, and any
/// answer that does not fit the step, ends the start.
pub open spec fn next_step(step: Step, outcome: Outcome) -> Step {
    match (step, outcome) {
        (Step::ListImages, Outcome::Listed { present }) => if present {
            Step::RemoveContainer
        } else {
            Step::PullImage
        },
        (Step::PullImage, Outcome::Succeeded) => Step::RemoveContainer,
        (Step::RemoveContainer, Outcome::Succeeded) => Step::CreateContainer,
        (Step::RemoveContainer, Outcome::Failed { .. }) => Step::CreateContainer,
        (Step::CreateContainer, Outcome::Created { .. }) => Step::StartContainer,
        (Step::StartContainer, Outcome::Succeeded) => Step::InspectContainer,
        _ => Step::Done,
    }
}

/// The address under which a container with networking is reached: the
/// host address, a colon, the host port.
pub open spec fn url_of(ip: Seq<char>, port: Seq<char>) -> Seq<char> {
    ip + seq![':'] + port
}

/// The start of one container.
#[derive(Debug, PartialEq, Eq)]
pub struct Startup {
    pub step: Step,
    /// The name the runtime gave the container, once it is created.
    pub scheduler_id: Option<String>,
}

impl Startup {
    /// The command that opens the start of the container of `req`: the
    /// image is pulled at once where that is asked for, and looked for
    /// locally otherwise.
    pub fn begin(req: &StartContainerRequest) -> (r: (Startup, Command))
        ensures
            r.0.scheduler_id is None,
            if req.always_pull {
                &&& r.0.step == Step::PullImage
                &&& r.1 matches Command::PullImage { image, credentials }
                &&& image@ == req.image_name@
                &&& credentials.is_some() == req.registry_auth.is_some()
                &&& credentials matches Some(c) ==> c.user@ == req.registry_auth->Some_0.user@
                    && c.pass@ == req.registry_auth->Some_0.pass@
            } else {
                &&& r.0.step == Step::ListImages
                &&& r.1 matches Command::ListImages { reference }
                &&& reference@ == req.image_name@
            },
    {
        if req.always_pull {
            (Startup { step: Step::PullImage, scheduler_id: None }, pull(req))
        } else {
            (
                Startup { step: Step::ListImages, scheduler_id: None },
                Command::ListImages { reference: req.image_name.clone() },
            )
        }
    }

    /// The command that follows, given how the runtime answered the last.
    pub fn advance(&mut self, req: &StartContainerRequest, outcome: Outcome) -> (r: Command)
        ensures
            final(self).step == (if next_step(old(self).step, outcome) == Step::CreateContainer
                && undecodable(*req) {
                Step::Done
            } else {
                next_step(old(self).step, outcome)
            }),
            final(self).scheduler_id.deep_view() == (match (old(self).step, outcome) {
                (Step::CreateContainer, Outcome::Created { id }) => id.deep_view(),
                _ => old(self).scheduler_id.deep_view(),
            }),
            match final(self).step {
                Step::ListImages => false,
                Step::PullImage => {
                    &&& r matches Command::PullImage { image, credentials }
                    &&& image@ == req.image_name@
                    &&& credentials.is_some() == req.registry_auth.is_some()
                    &&& credentials matches Some(c) ==> c.user@
                        == req.registry_auth->Some_0.user@ && c.pass@
                        == req.registry_auth->Some_0.pass@
                },
                Step::RemoveContainer => r matches Command::RemoveContainer { name } && name@
                    == req.name@,
                Step::CreateContainer => {
                    &&& r matches Command::CreateContainer { name, config }
                    &&& name@ == req.name@
                    &&& config.image@ == req.image_name@
                    &&& config.env.deep_view() == env_entries(req.variables.deep_view())
                    &&& config.networking == req.enable_networking
                    &&& match req.entrypoint {
                        Some(script) => config.entrypoint.deep_view() == Some(
                            shell_entrypoint(
                                script.shell@,
                                lossy_text(base64_decoded(script.script@)->Some_0),
                            ),
                        ),
                        None => config.entrypoint is None,
                    }
                },
                Step::StartContainer => r matches Command::StartContainer { name } && name@
                    == req.name@,
                Step::InspectContainer => r matches Command::InspectContainer { name } && name@
                    == req.name@,
                Step::Done => r matches Command::Finish { result } && if next_step(
                    old(self).step,
                    outcome,
                ) == Step::CreateContainer {
                    result matches Err(SchedulerError::Unknown(_))
                } else {
                    match (old(self).step, outcome) {
                    (Step::InspectContainer, Outcome::Inspected { binding }) => if !req.enable_networking {
                        &&& result matches Ok(response)
                        &&& response.scheduler_id.deep_view() == old(self).scheduler_id.deep_view()
                        &&& response.url is None
                    } else {
                        match binding {
                            Some(PortBinding { host_ip: Some(ip), host_port: Some(port) }) => {
                                &&& result matches Ok(response)
                                &&& response.scheduler_id.deep_view()
                                    == old(self).scheduler_id.deep_view()
                                &&& response.url matches Some(url)
                                &&& url@ == url_of(ip@, port@)
                            },
                            _ => result matches Err(SchedulerError::Unknown(why)) && why@
                                == "could not get networking settings"@,
                        }
                    },
                    (Step::PullImage, Outcome::Failed { why }) => result matches Err(
                        SchedulerError::NoSuchImage(text),
                    ) && text@ == why@,
                    (Step::Done, _) => result matches Err(SchedulerError::Unknown(_)),
                    (_, Outcome::Failed { why }) => result matches Err(
                        SchedulerError::Unknown(text),
                    ) && text@ == why@,
                    _ => result matches Err(SchedulerError::Unknown(_)),
                    }
                },
            },
    {
        let step = self.step;
        match (step, outcome) {
            (Step::ListImages, Outcome::Listed { present }) => {
                if present {
                    self.step = Step::RemoveContainer;
                    Command::RemoveContainer { name: req.name.clone() }
                } else {
                    self.step = Step::PullImage;
                    pull(req)
                }
            },
            (Step::PullImage, Outcome::Succeeded) => {
                self.step = Step::RemoveContainer;
                Command::RemoveContainer { name: req.name.clone() }
            },
            (Step::PullImage, Outcome::Failed { why }) => {
                self.step = Step::Done;
                Command::Finish { result: Err(SchedulerError::NoSuchImage(why)) }
            },
            (Step::RemoveContainer, Outcome::Succeeded) => self.create(req),
            (Step::RemoveContainer, Outcome::Failed { why }) => self.create(req),
            (Step::CreateContainer, Outcome::Created { id }) => {
                self.step = Step::StartContainer;
                self.scheduler_id = id;
                Command::StartContainer { name: req.name.clone() }
            },
            (Step::StartContainer, Outcome::Succeeded) => {
                self.step = Step::InspectContainer;
                Command::InspectContainer { name: req.name.clone() }
            },
            (Step::InspectContainer, Outcome::Inspected { binding }) => {
                self.step = Step::Done;
                let scheduler_id = match &self.scheduler_id {
                    Some(id) => Some(id.clone()),
                    None => None,
                };
                if !req.enable_networking {
                    Command::Finish { result: Ok(StartContainerResponse { scheduler_id, url: None }) }
                } else {
                    match binding {
                        Some(PortBinding { host_ip: Some(ip), host_port: Some(port) }) => {
                            proof {
                                reveal_strlit(":");
                            }
                            assert(":"@ =~= seq![':']);
                            let url = ip.concat(":").concat(port.as_str());
                            Command::Finish {
                                result: Ok(StartContainerResponse { scheduler_id, url: Some(url) }),
                            }
                        },
                        _ => Command::Finish {
                            result: Err(
                                SchedulerError::Unknown(owned("could not get networking settings")),
                            ),
                        },
                    }
                }
            },
            (Step::Done, _) => {
                self.step = Step::Done;
                Command::Finish {
                    result: Err(SchedulerError::Unknown(owned("the start has ended"))),
                }
            },
            (_, Outcome::Failed { why }) => {
                self.step = Step::Done;
                Command::Finish { result: Err(SchedulerError::Unknown(why)) }
            },
            _ => {
                self.step = Step::Done;
                Command::Finish {
                    result: Err(
                        SchedulerError::Unknown(owned("the runtime's answer does not fit the command")),
                    ),
                }
            },
        }
    }

    fn create(&mut self, req: &StartContainerRequest) -> (r: Command)
        ensures
            final(self).scheduler_id == old(self).scheduler_id,
            if undecodable(*req) {
                &&& final(self).step == Step::Done
                &&& r matches Command::Finish { result }
                &&& result matches Err(SchedulerError::Unknown(_))
            } else {
                &&& final(self).step == Step::CreateContainer
                &&& r matches Command::CreateContainer { name, config }
                &&& name@ == req.name@
                &&& config.image@ == req.image_name@
                &&& config.env.deep_view() == env_entries(req.variables.deep_view())
                &&& config.networking == req.enable_networking
                &&& match req.entrypoint {
                    Some(script) => config.entrypoint.deep_view() == Some(
                        shell_entrypoint(
                            script.shell@,
                            lossy_text(base64_decoded(script.script@)->Some_0),
                        ),
                    ),
                    None => config.entrypoint is None,
                }
            },
    {
        match container_config(req) {
            Ok(config) => {
                self.step = Step::CreateContainer;
                Command::CreateContainer { name: req.name.clone(), config }
            },
            Err(e) => {
                self.step = Step::Done;
                Command::Finish { result: Err(e) }
            },
        }
    }
}

fn pull(req: &StartContainerRequest) -> (r: Command)
    ensures
        r matches Command::PullImage { image, credentials } && image@ == req.image_name@
            && credentials.is_some() == req.registry_auth.is_some() && (credentials matches Some(c)
            ==> c.user@ == req.registry_auth->Some_0.user@ && c.pass@
            == req.registry_auth->Some_0.pass@),
{
    let credentials = match &req.registry_auth {
        Some(a) => Some(RegistryAuth { user: a.user.clone(), pass: a.pass.clone() }),
        None => None,
    };
    Command::PullImage { image: req.image_name.clone(), credentials }
}

} // verus!
