//! The logger of the shim: its level and where its records go.

use vstd::prelude::*;

use crate::text::texts;

verus! {

pub const SYSTEMD_JOURNAL_SOCKET: &'static str = "/run/systemd/journal/socket";

/// How much is logged.
#[derive(Clone, Copy, Debug, PartialEq, Eq, Structural)]
pub enum LogLevel {
    Debug,
    Info,
}

/// Where log records go.
#[derive(Clone, Copy, Debug, PartialEq, Eq, Structural)]
pub enum LogDestination {
    /// The systemd journal.
    Journal,
    /// The log pipe that containerd has opened for the shim.
    ContainerdPipe,
}

/// How the logger of the shim is set up.
#[derive(Debug)]
pub struct LoggerPlan {
    pub level: LogLevel,
    pub destination: LogDestination,
    /// The components that get a logger of their own.
    pub components: Vec<String>,
    /// Whether the log is to say that the journal is not there.
    pub warns_of_missing_journal: bool,
}

/// Decides how the logger of the shim is set up. systemd hosts receive a dedicated journal stream.
/// Minimal or immutable hosts do not provide journald; their shim diagnostics stay on containerd's
/// log pipe.
pub fn set_logger(is_debug: bool, journal_available: bool) -> (plan: LoggerPlan)
    ensures
        plan.level == if is_debug {
            LogLevel::Debug
        } else {
            LogLevel::Info
        },
        plan.destination == if journal_available {
            LogDestination::Journal
        } else {
            LogDestination::ContainerdPipe
        },
        texts(plan.components@) == seq!["agent"@, "runtimes"@, "hypervisor"@],
        plan.warns_of_missing_journal == !journal_available,
{
    let level = if is_debug {
        LogLevel::Debug
    } else {
        LogLevel::Info
    };
    let destination = if journal_available {
        LogDestination::Journal
    } else {
        LogDestination::ContainerdPipe
    };
    let mut components: Vec<String> = Vec::new();
    components.push("agent".to_owned());
    components.push("runtimes".to_owned());
    components.push("hypervisor".to_owned());
    assert(texts(components@) =~= seq!["agent"@, "runtimes"@, "hypervisor"@]);
    LoggerPlan { level, destination, components, warns_of_missing_journal: !journal_available }
}

/// The shim logs to the journal where there is one and else to the pipe of containerd, which the log
/// then says. It logs details only for debugging, and the agent, the runtimes and the hypervisor
/// have loggers of their own.
pub proof fn law_logger_uses_the_journal_where_there_is_one(
    is_debug: bool,
    journal_available: bool,
    plan: LoggerPlan,
)
    requires
        call_ensures(set_logger, (is_debug, journal_available), plan),
    ensures
        plan.level is Debug <==> is_debug,
        plan.destination is Journal <==> journal_available,
        plan.destination is ContainerdPipe <==> plan.warns_of_missing_journal,
        plan.components@.len() == 3,
        plan.components@[0]@ == "agent"@,
        plan.components@[1]@ == "runtimes"@,
        plan.components@[2]@ == "hypervisor"@,
        SYSTEMD_JOURNAL_SOCKET@ == "/run/systemd/journal/socket"@,
{
    let components = texts(plan.components@);
    assert(components.len() == plan.components@.len());
    assert(components[0] == plan.components@[0]@);
    assert(components[1] == plan.components@[1]@);
    assert(components[2] == plan.components@[2]@);
}

} // verus!
