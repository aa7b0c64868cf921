//! Typed state of one supervised service, as observed through the
//! supervisor's status command.

use crate::status_parse::{
    num64, opt_num32, parse_spec, parse_status_text, LogCapture, StatusCapture,
};
use crate::text::{last_field, last_nonempty_field, str_eq, trim_ws, trimmed_is};
use vstd::prelude::*;

verus! {

/// Classified condition of a supervised process.
///
/// `Unknown` covers status output that the parser could not classify even
/// though the status command itself exited successfully.
#[derive(Clone, Copy, Debug, PartialEq, Eq, Structural)]
pub enum ServiceStatus {
    Up,
    Down,
    Unknown,
}

/// Observed state of the companion log-writing process of a service.
#[derive(Clone, Debug)]
pub struct LogInfo {
    pub name: String,
    pub status: ServiceStatus,
    pub pid: Option<u32>,
    pub uptime: Option<u64>,
}

/// Observed state of one supervised service, with the state of its
/// companion log process when the supervisor reported one.
#[derive(Clone, Debug)]
pub struct ServiceInfo {
    pub name: String,
    pub status: ServiceStatus,
    pub pid: Option<u32>,
    pub uptime: Option<u64>,
    pub log: Option<LogInfo>,
}

/// Mathematical image of a `LogInfo`.
pub struct LogModel {
    pub name: Seq<char>,
    pub status: ServiceStatus,
    pub pid: Option<u32>,
    pub uptime: Option<u64>,
}

/// Mathematical image of a `ServiceInfo`.
pub struct InfoModel {
    pub name: Seq<char>,
    pub status: ServiceStatus,
    pub pid: Option<u32>,
    pub uptime: Option<u64>,
    pub log: Option<LogModel>,
}

impl View for LogInfo {
    type V = LogModel;

    open spec fn view(&self) -> LogModel {
        LogModel {
            name: self.name@,
            status: self.status,
            pid: self.pid,
            uptime: self.uptime,
        }
    }
}

impl View for ServiceInfo {
    type V = InfoModel;

    open spec fn view(&self) -> InfoModel {
        InfoModel {
            name: self.name@,
            status: self.status,
            pid: self.pid,
            uptime: self.uptime,
            log: match self.log {
                Some(l) => Some(l@),
                None => None,
            },
        }
    }
}

impl LogInfo {
    /// A log-process record with exactly the given fields.
    pub fn new(name: String, status: ServiceStatus, pid: Option<u32>, uptime: Option<u64>) -> (r:
        Self)
        ensures
            r@ == (LogModel { name: name@, status, pid, uptime }),
    {
        Self { name, status, pid, uptime }
    }

    /// Whether the process was reported as running.
    pub fn is_running(&self) -> (r: bool)
        ensures
            r == (self.status == ServiceStatus::Up),
    {
        self.status == ServiceStatus::Up
    }

    /// Where the log process keeps its directory: the last nonempty entry
    /// of its NUL-separated argument vector, read from the process table.
    /// `None` when this record carries no pid to introspect, or when the
    /// argument vector holds no nonempty entry.
    pub fn svlogd_log_directory(&self, cmdline: &str) -> (r: Option<String>)
        ensures
            self.pid is None ==> r is None,
            self.pid is Some ==> ({
                &&& r is Some <==> last_nonempty_field(cmdline@, '\0') is Some
                &&& (r matches Some(d) ==> d@ == last_nonempty_field(cmdline@, '\0')->Some_0)
            }),
    {
        if self.pid.is_none() {
            return None;
        }
        last_field(cmdline, '\0')
    }

    /// The log directory of this log process, decided from what the
    /// process table shows: `comm` is the content of the process's command
    /// name entry and `cmdline` its argument vector, either `None` when
    /// the read failed (the process may have exited in between — a normal
    /// race, not an error).  A directory is derived only from a running
    /// delegate of the known log-writer program.
    pub fn log_directory(&self, comm: Option<&str>, cmdline: Option<&str>) -> (r: Option<String>)
        ensures
            ({
                let m = log_directory_model(
                    self.status,
                    self.pid,
                    match comm {
                        Some(c) => Some(c@),
                        None => None,
                    },
                    match cmdline {
                        Some(l) => Some(l@),
                        None => None,
                    },
                );
                &&& (r is Some <==> m is Some)
                &&& (r matches Some(d) ==> d@ == m->Some_0)
            }),
    {
        if self.status != ServiceStatus::Up {
            return None;
        }
        if self.pid.is_none() {
            return None;
        }
        let c = match comm {
            Some(c) => c,
            None => {
                return None;
            },
        };
        if !comm_is_svlogd(c) {
            return None;
        }
        let l = match cmdline {
            Some(l) => l,
            None => {
                return None;
            },
        };
        self.svlogd_log_directory(l)
    }
}

/// The name of the log-writer program whose argument vector names the log
/// directory.
pub fn comm_is_svlogd(comm: &str) -> (r: bool)
    ensures
        r == (trim_ws(comm@) == "svlogd"@),
{
    trimmed_is(comm, "svlogd")
}

/// What the log locator returns: a directory only when the log process is
/// running with a known pid, its command name reads `svlogd` once trimmed,
/// and its argument vector holds a nonempty last entry.
pub open spec fn log_directory_model(
    status: ServiceStatus,
    pid: Option<u32>,
    comm: Option<Seq<char>>,
    cmdline: Option<Seq<char>>,
) -> Option<Seq<char>> {
    if status != ServiceStatus::Up {
        None
    } else if pid is None {
        None
    } else {
        match comm {
            None => None,
            Some(c) => if trim_ws(c) != "svlogd"@ {
                None
            } else {
                match cmdline {
                    None => None,
                    Some(l) => last_nonempty_field(l, '\0'),
                }
            },
        }
    }
}

impl ServiceInfo {
    /// A service record with exactly the given fields.
    pub fn new(
        name: String,
        status: ServiceStatus,
        pid: Option<u32>,
        uptime: Option<u64>,
        log: Option<LogInfo>,
    ) -> (r: Self)
        ensures
            r.name@ == name@,
            r.status == status,
            r.pid == pid,
            r.uptime == uptime,
            log is Some <==> r.log is Some,
            log is Some ==> r.log->Some_0@ == log->Some_0@,
    {
        Self { name, status, pid, uptime, log }
    }

    /// Whether the service was reported as running.
    pub fn is_running(&self) -> (r: bool)
        ensures
            r == (self.status == ServiceStatus::Up),
    {
        self.status == ServiceStatus::Up
    }

    /// The typed state of service `name`, decided from what the status
    /// command reported: whether it could be run with a zero exit status
    /// (`exit_ok`), and its captured output.
    ///
    /// A non-zero exit from a successfully launched command is a valid
    /// result, not an error: it reports the service as down.  Output in
    /// which the expected shape is nowhere found reports the state as
    /// unknown rather than failing: status text must never crash the
    /// caller.
    pub fn from_status_output(name: &str, exit_ok: bool, output: &str) -> (r: ServiceInfo)
        ensures
            r@ == status_model(name@, exit_ok, output@),
    {
        if !exit_ok {
            return ServiceInfo {
                name: name.to_owned(),
                status: ServiceStatus::Down,
                pid: None,
                uptime: None,
                log: None,
            };
        }
        match parse_status_text(output, name) {
            None => ServiceInfo {
                name: name.to_owned(),
                status: ServiceStatus::Unknown,
                pid: None,
                uptime: None,
                log: None,
            },
            Some(rs) => {
                let up = str_eq(rs.word.as_str(), "run");
                let st = if up {
                    ServiceStatus::Up
                } else {
                    ServiceStatus::Down
                };
                let log = match rs.log {
                    Some(rl) => {
                        let lup = str_eq(rl.word.as_str(), "run");
                        let lst = if lup {
                            ServiceStatus::Up
                        } else {
                            ServiceStatus::Down
                        };
                        Some(
                            LogInfo {
                                name: rl.name,
                                status: lst,
                                pid: if lup {
                                    rl.pid
                                } else {
                                    None
                                },
                                uptime: if lup {
                                    rl.uptime
                                } else {
                                    None
                                },
                            },
                        )
                    },
                    None => None,
                };
                ServiceInfo {
                    name: name.to_owned(),
                    status: st,
                    pid: if up {
                        rs.pid
                    } else {
                        None
                    },
                    uptime: if up {
                        rs.uptime
                    } else {
                        None
                    },
                    log,
                }
            },
        }
    }
}

/// How a captured status word is classified: the supervisor's token for a
/// running process means up, any other token means down.
pub open spec fn word_status(w: Seq<char>) -> ServiceStatus {
    if w == "run"@ {
        ServiceStatus::Up
    } else {
        ServiceStatus::Down
    }
}

/// The log sub-state a log-clause capture yields: numeric fields are kept
/// only for a running process, and only when their digits fit the field.
pub open spec fn log_model_from_capture(c: LogCapture) -> LogModel {
    let st = word_status(c.word);
    LogModel {
        name: c.name,
        status: st,
        pid: if st == ServiceStatus::Up {
            opt_num32(c.pid)
        } else {
            None
        },
        uptime: if st == ServiceStatus::Up {
            num64(c.uptime)
        } else {
            None
        },
    }
}

/// The state a whole-pattern capture yields.
pub open spec fn model_from_capture(name: Seq<char>, c: StatusCapture) -> InfoModel {
    let st = word_status(c.word);
    InfoModel {
        name,
        status: st,
        pid: if st == ServiceStatus::Up {
            opt_num32(c.pid)
        } else {
            None
        },
        uptime: if st == ServiceStatus::Up {
            num64(c.uptime)
        } else {
            None
        },
        log: match c.log {
            Some(lc) => Some(log_model_from_capture(lc)),
            None => None,
        },
    }
}

/// What `from_status_output` returns for every input: down with no fields
/// on a non-zero exit, unknown with no fields when the pattern matches
/// nowhere, and the captured state otherwise.
pub open spec fn status_model(name: Seq<char>, exit_ok: bool, out: Seq<char>) -> InfoModel {
    if !exit_ok {
        InfoModel { name, status: ServiceStatus::Down, pid: None, uptime: None, log: None }
    } else {
        match parse_spec(out, name) {
            None => InfoModel {
                name,
                status: ServiceStatus::Unknown,
                pid: None,
                uptime: None,
                log: None,
            },
            Some(c) => model_from_capture(name, c),
        }
    }
}

} // verus!
