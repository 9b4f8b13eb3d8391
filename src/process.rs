use vstd::prelude::*;

verus! {

/// The PID carried by a record whose PID was never set or could not be read.
pub const UNSET_PID: u64 = 0xFFFF_FFFF_FFFF_FFFF;

/// One observed process at snapshot time.
pub struct Process {
    command: String,
    pid: u64,
    mem: String,
    cpu: String,
}

/// The mathematical value of a [`Process`].
pub struct ProcessView {
    pub command: Seq<char>,
    pub pid: u64,
    pub mem: Seq<char>,
    pub cpu: Seq<char>,
}

impl View for Process {
    type V = ProcessView;

    closed spec fn view(&self) -> ProcessView {
        ProcessView { command: self.command@, pid: self.pid, mem: self.mem@, cpu: self.cpu@ }
    }
}

impl Clone for Process {
    fn clone(&self) -> (r: Self)
        ensures
            r@ == self@,
    {
        Process {
            command: self.command.clone(),
            pid: self.pid,
            mem: self.mem.clone(),
            cpu: self.cpu.clone(),
        }
    }
}

impl Process {
    /// An uninitialised record: empty texts and the unset PID.
    pub fn new() -> (r: Self)
        ensures
            r@ == (ProcessView { command: Seq::empty(), pid: UNSET_PID, mem: Seq::empty(), cpu: Seq::empty() }),
    {
        Process { command: String::new(), pid: UNSET_PID, mem: String::new(), cpu: String::new() }
    }

    /// A record with the given fields.
    pub fn from_parts(command: String, pid: u64, mem: String, cpu: String) -> (r: Self)
        ensures
            r@ == (ProcessView { command: command@, pid, mem: mem@, cpu: cpu@ }),
    {
        Process { command, pid, mem, cpu }
    }

    pub fn get_command(&self) -> (r: &str)
        ensures
            r@ == self@.command,
    {
        self.command.as_str()
    }

    pub fn get_pid(&self) -> (r: u64)
        ensures
            r == self@.pid,
    {
        self.pid
    }

    pub fn get_mem(&self) -> (r: &str)
        ensures
            r@ == self@.mem,
    {
        self.mem.as_str()
    }

    /// The CPU figure; empty where the listing format reports none.
    pub fn get_cpu(&self) -> (r: &str)
        ensures
            r@ == self@.cpu,
    {
        self.cpu.as_str()
    }
}

} // verus!
