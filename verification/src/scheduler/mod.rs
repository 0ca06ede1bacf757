//! The scheduler: what the engine asks of a container runtime and what it
//! is told in return. The engine speaks to every runtime in these terms;
//! the program around this library carries the requests to the runtime.

pub mod docker;

use crate::conf::api::{Config, Docker};
use crate::models::TaskRunState;
use crate::string_map::StringMap;
use crate::text::owned;
use vstd::prelude::*;
use vstd::string::*;

verus! {

/// Why the scheduler could not do what it was asked.
#[derive(Debug, PartialEq, Eq)]
pub enum SchedulerError {
    /// The scheduler could not be set up; the text says why.
    FailedPrecondition(String),
    /// The runtime could not be reached.
    Connection(String),
    /// The runtime knows no container of the name.
    NoSuchContainer,
    /// The image could not be obtained.
    NoSuchImage(String),
    /// The runtime refused, for a reason of its own.
    Unknown(String),
}

impl SchedulerError {
    /// The error in words.
    pub open spec fn text(self) -> Seq<char> {
        match self {
            SchedulerError::FailedPrecondition(why) => "could not init scheduler; "@ + why@,
            SchedulerError::Connection(why) => "could not connect to scheduler; "@ + why@,
            SchedulerError::NoSuchContainer => "container not found"@,
            SchedulerError::NoSuchImage(why) => "docker image not found; "@ + why@,
            SchedulerError::Unknown(why) => "unexpected scheduler error occurred; "@ + why@,
        }
    }

    /// The error in words.
    pub fn message(&self) -> (r: String)
        ensures
            r@ == self.text(),
    {
        match self {
            SchedulerError::FailedPrecondition(why) => owned("could not init scheduler; ").concat(
                why.as_str(),
            ),
            SchedulerError::Connection(why) => owned("could not connect to scheduler; ").concat(
                why.as_str(),
            ),
            SchedulerError::NoSuchContainer => owned("container not found"),
            SchedulerError::NoSuchImage(why) => owned("docker image not found; ").concat(
                why.as_str(),
            ),
            SchedulerError::Unknown(why) => owned("unexpected scheduler error occurred; ").concat(
                why.as_str(),
            ),
        }
    }
}

/// A script that replaces the entrypoint of a container: the shell that
/// runs it and the script itself, base64-encoded.
#[derive(Debug, PartialEq, Eq)]
pub struct Exec {
    pub shell: String,
    pub script: String,
}

/// Credentials for the registry that holds an image.
#[derive(Debug, PartialEq, Eq)]
pub struct RegistryAuth {
    pub user: String,
    pub pass: String,
}

/// What the engine asks for when it starts a container.
#[derive(Debug, PartialEq, Eq)]
pub struct StartContainerRequest {
    /// The name that identifies the container.
    pub name: String,
    /// The image, with its repository and, where wanted, its tag.
    pub image_name: String,
    /// The environment variables of the container.
    pub variables: StringMap<String>,
    pub registry_auth: Option<RegistryAuth>,
    /// Pull the image even when it is present locally.
    pub always_pull: bool,
    /// Give the container a port that the engine can reach.
    pub enable_networking: bool,
    /// A script that replaces the entrypoint of the image.
    pub entrypoint: Option<Exec>,
}

/// What the scheduler answers when a container has started.
#[derive(Debug, PartialEq, Eq)]
pub struct StartContainerResponse {
    /// The name under which the scheduler knows the container, where it
    /// cannot use the name it was given.
    pub scheduler_id: Option<String>,
    /// Where the container can be reached; given only for containers with
    /// networking.
    pub url: Option<String>,
}

/// What the engine asks for when it stops a container.
#[derive(Debug, PartialEq, Eq)]
pub struct StopContainerRequest {
    /// The name that identifies the container.
    pub name: String,
    /// How many seconds the scheduler waits for the container to stop of its
    /// own before it kills it.
    pub timeout: i64,
}

/// What the engine asks for when it wants the state of a container.
#[derive(Debug, PartialEq, Eq)]
pub struct GetStateRequest {
    /// The name that identifies the container.
    pub name: String,
}

/// The state of a container.
#[derive(Debug, PartialEq, Eq)]
pub struct GetStateResponse {
    /// The exit code, once the container has exited.
    pub exit_code: Option<u8>,
    pub state: TaskRunState,
}

/// What the engine asks for when it wants the output of a container.
#[derive(Debug, PartialEq, Eq)]
pub struct GetLogsRequest {
    /// The name that identifies the container.
    pub name: String,
}

/// The wait before the state of a container is asked for again: twice the
/// wait before, at least one millisecond and at most `limit`.
pub open spec fn next_wait(previous: u64, limit: u64) -> u64 {
    if previous == 0 {
        if limit == 0 {
            0
        } else {
            1
        }
    } else if previous >= limit || previous * 2 >= limit {
        limit
    } else {
        (previous * 2) as u64
    }
}

/// Computes [`next_wait`].
pub fn next_poll_wait(previous: u64, limit: u64) -> (r: u64)
    ensures
        r == next_wait(previous, limit),
        r <= limit,
{
    if previous == 0 {
        if limit == 0 {
            0
        } else {
            1
        }
    } else if previous >= limit || previous >= limit - previous {
        limit
    } else {
        previous * 2
    }
}

/// The container runtimes that the engine can drive.
#[derive(Debug, Clone, Copy, PartialEq, Eq, Structural)]
pub enum SchedulerEngine {
    Docker,
}

/// The settings that the scheduler for `engine` is set up with.
pub fn init_scheduler(engine: SchedulerEngine, config: &Config) -> (r: Result<
    Docker,
    SchedulerError,
>)
    ensures
        match r {
            Ok(settings) => config.scheduler.docker == Some(settings),
            Err(e) => {
                &&& config.scheduler.docker is None
                &&& e matches SchedulerError::FailedPrecondition(why)
                &&& why@ == "docker engine settings not found in config"@
            },
        },
{
    match engine {
        SchedulerEngine::Docker => match config.scheduler.docker {
            Some(settings) => Ok(settings),
            None => Err(
                SchedulerError::FailedPrecondition(
                    owned("docker engine settings not found in config"),
                ),
            ),
        },
    }
}

} // verus!
