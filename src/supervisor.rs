//! The decisions of the process supervisor, which runs a global package
//! install as a child process: the id and arguments of the install, and the
//! events and actions at its start, pause, resume and end.
use vstd::prelude::*;
use crate::event::ProgressEvent;

verus! {

/// The package spec `name@version`, or the name alone.
pub open spec fn package_spec_of(name: Seq<char>, version: Option<Seq<char>>) -> Seq<char> {
    match version {
        Some(v) => name + "@"@ + v,
        None => name,
    }
}

/// The package spec of an install; it is also the install's task id.
pub fn package_spec(name: &str, version: Option<&str>) -> (r: String)
    ensures
        r@ == package_spec_of(
            name@,
            match version {
                Some(v) => Some(v@),
                None => None,
            },
        ),
{
    match version {
        Some(v) => {
            let mut s = String::from_str(name);
            s.append("@");
            s.append(v);
            s
        },
        None => String::from_str(name),
    }
}

/// The arguments of `npm` for a global install of `spec`, with the registry
/// to install from where one is known.
pub fn install_args(spec: &str, registry: Option<&str>) -> (r: Vec<String>)
    ensures
        r@.len() == if registry is Some {
            5nat
        } else {
            3nat
        },
        r@[0]@ == "install"@,
        r@[1]@ == "-g"@,
        r@[2]@ == spec@,
        registry matches Some(reg) ==> r@[3]@ == "--registry"@ && r@[4]@ == reg@,
{
    let mut args: Vec<String> = Vec::new();
    args.push(String::from_str("install"));
    args.push(String::from_str("-g"));
    args.push(String::from_str(spec));
    if let Some(reg) = registry {
        args.push(String::from_str("--registry"));
        args.push(String::from_str(reg));
    }
    args
}

/// The event reported when an install starts.
pub fn started_event(id: &String) -> (r: ProgressEvent)
    ensures
        r.id@ == id@,
        r.progress == Some(10u32),
        r.status@ == "Installing "@ + id@ + "..."@,
        r.is_paused is None,
        r.finished is None,
        r.error is None,
{
    let mut status = String::from_str("Installing ");
    status.append(id.as_str());
    status.append("...");
    ProgressEvent::progress(id, 10, status.as_str())
}

/// The event reported when a pause (`paused`) or a resume reaches an install
/// whose process is known; none while its id is not yet known.
pub fn control_event(id: &String, pid: Option<u32>, paused: bool) -> (r: Option<ProgressEvent>)
    ensures
        pid is None ==> r is None,
        pid is Some ==> (r matches Some(e) && e.id@ == id@ && e.is_paused == Some(paused)
            && e.progress is None && e.finished is None && e.error is None && e.status@ == (
        if paused {
            "Paused"@
        } else {
            "Installing..."@
        })),
{
    match pid {
        None => None,
        Some(_) => {
            if paused {
                Some(ProgressEvent::pause_state(id, None, true, "Paused"))
            } else {
                Some(ProgressEvent::pause_state(id, None, false, "Installing..."))
            }
        },
    }
}

/// How a supervised install ended.
pub enum InstallEnd {
    /// The child process exited, successfully or not.
    Exited { success: bool },
    /// A cancel arrived before the child exited.
    Cancelled,
    /// The child process could not be started.
    SpawnFailed,
    /// The settings could not be read; the message says why.
    ConfigFailed(String),
}

/// What the supervisor does once an install has ended.
pub struct Settlement {
    /// The last event of the install.
    pub event: ProgressEvent,
    /// Whether the child's whole process tree is to be terminated.
    pub terminate_tree: bool,
}

/// Decides the last event of an install and whether its process tree is
/// terminated: a cancel terminates the tree and ends the task as finished
/// with a cancelled status; an exit reports success at 100 percent or an
/// error; a start that failed reports an error.
pub fn settle(id: &String, end: &InstallEnd) -> (r: Settlement)
    ensures
        r.event.id@ == id@,
        r.event.is_paused is None,
        r.terminate_tree == (end is Cancelled),
        match end {
            InstallEnd::Exited { success: true } => r.event.progress == Some(100u32)
                && r.event.finished == Some(true) && r.event.error is None
                && r.event.status@ == "Installed"@,
            InstallEnd::Exited { success: false } => r.event.progress is None
                && r.event.finished is None && (r.event.error matches Some(m) && m@
                == "Install failed"@),
            InstallEnd::Cancelled => r.event.progress is None && r.event.finished == Some(true)
                && r.event.error is None && r.event.status@ == "Cancelled"@,
            InstallEnd::SpawnFailed => r.event.progress is None && r.event.finished is None && (
            r.event.error matches Some(m) && m@ == "Could not start the installer"@),
            InstallEnd::ConfigFailed(e) => r.event.progress is None && r.event.finished is None
                && (r.event.error matches Some(m) && m@ == e@),
        },
{
    match end {
        InstallEnd::Exited { success } => {
            if *success {
                Settlement {
                    event: ProgressEvent::finished(id, Some(100), "Installed"),
                    terminate_tree: false,
                }
            } else {
                Settlement {
                    event: ProgressEvent::failed(
                        id,
                        None,
                        String::from_str("Install failed"),
                        "Install failed",
                    ),
                    terminate_tree: false,
                }
            }
        },
        InstallEnd::Cancelled => Settlement {
            event: ProgressEvent::finished(id, None, "Cancelled"),
            terminate_tree: true,
        },
        InstallEnd::SpawnFailed => Settlement {
            event: ProgressEvent::failed(
                id,
                None,
                String::from_str("Could not start the installer"),
                "Could not start the installer",
            ),
            terminate_tree: false,
        },
        InstallEnd::ConfigFailed(e) => Settlement {
            event: ProgressEvent::failed(id, None, e.clone(), e.as_str()),
            terminate_tree: false,
        },
    }
}

} // verus!
