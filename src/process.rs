//! Processes: their ID, display name and the targets of their open file
//! descriptors.

use vstd::prelude::*;
use vstd::string::StringSliceAdditionalSpecFns;
use crate::text::{field, field_of, find_line, find_line_from};

verus! {

/// The bytes of `Name`, the label of the name line of a `status` file.
pub open spec fn name_label() -> Seq<u8> {
    seq![78u8, 97u8, 109u8, 101u8]
}

/// The display name that a `status` file with the bytes `status` gives:
/// from column 5 of its first line that starts with `Name`, trimmed; empty
/// when there is no such line or it is too short.
pub open spec fn status_name(status: Seq<u8>) -> Seq<char> {
    match find_line(status, name_label(), 0) {
        Some(s) => field(status, s, 5),
        None => Seq::empty(),
    }
}

/// `s` names a process directory: it is made of ASCII digits only.
pub open spec fn is_pid_name(s: Seq<char>) -> bool {
    forall|i: int| 0 <= i < s.len() ==> '0' <= #[trigger] s[i] <= '9'
}

pub struct ProcessView {
    pub pid: Seq<char>,
    pub fds: Seq<Seq<char>>,
    pub name: Seq<char>,
}

#[derive(Debug)]
pub struct Process {
    pid: String,
    fds: Vec<String>,
    name: String,
}

impl View for Process {
    type V = ProcessView;

    closed spec fn view(&self) -> ProcessView {
        ProcessView {
            pid: self.pid@,
            fds: self.fds@.map_values(|f: String| f@),
            name: self.name@,
        }
    }
}

/// Whether the directory entry `s` of the process list is a process ID.
pub fn is_pid(s: &str) -> (r: bool)
    ensures
        r == is_pid_name(s@),
{
    let n = s.unicode_len();
    let mut i: usize = 0;
    while i < n
        invariant
            n == s@.len(),
            0 <= i <= n,
            forall|k: int| 0 <= k < i ==> '0' <= #[trigger] s@[k] <= '9',
        decreases n - i,
    {
        let c = s.get_char(i);
        if !('0' <= c && c <= '9') {
            return false;
        }
        i = i + 1;
    }
    true
}

impl Process {
    /// The process `pid`, whose open descriptors resolve to `fds`, named
    /// by the contents `status` of its `status` file.
    pub fn new(pid: String, fds: Vec<String>, status: &str) -> (r: Process)
        ensures
            r@.pid == pid@,
            r@.fds == fds@.map_values(|f: String| f@),
            r@.name == status_name(status.spec_bytes()),
    {
        let label: [u8; 4] = [78, 97, 109, 101];
        let name = match find_line_from(status, label.as_slice(), 0) {
            Some(s) => field_of(status, s, 5),
            None => String::new(),
        };
        Process { pid, fds, name }
    }

    pub fn get_pid(&self) -> (r: &str)
        ensures
            r@ == self@.pid,
    {
        self.pid.as_str()
    }

    pub fn get_fds(&self) -> (r: &[String])
        ensures
            r@.map_values(|f: String| f@) == self@.fds,
    {
        self.fds.as_slice()
    }

    pub fn get_name(&self) -> (r: &str)
        ensures
            r@ == self@.name,
    {
        self.name.as_str()
    }
}

} // verus!
