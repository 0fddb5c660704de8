//! The tracing calls of the operating system, one function each.
//!
//! Nothing in this file is proved. Each function hands its arguments to one
//! call and converts what comes back. What a call returns depends on the
//! traced process, so no contract here says anything about a result. Each
//! function asks for a process id above 0: to the system an id of 0 or below
//! names a group of processes, or all of them.

use crate::status::Observed;
use nix::errno::Errno;
use nix::libc::user_regs_struct;
use nix::sys::ptrace;
use nix::sys::signal::Signal;
use nix::sys::wait::{WaitPidFlag, WaitStatus};
use nix::unistd::Pid;
use vstd::prelude::*;

verus! {

/// `nix::errno::Errno`: the error number of a failed system call.
#[verifier::external_type_specification]
#[verifier::external_body]
pub struct ExErrno(Errno);

/// `nix::sys::wait::WaitPidFlag`: the options of a wait.
#[verifier::external_type_specification]
#[verifier::external_body]
pub struct ExWaitPidFlag(WaitPidFlag);

/// `libc::user_regs_struct`: the general-purpose registers of a stopped
/// process.
#[verifier::external_type_specification]
#[verifier::external_body]
pub struct ExUserRegs(user_regs_struct);

/// Calls `nix::sys::wait::waitpid` on the one process `pid` and tells the
/// variants of the result apart. A signal is handed on as its number. The
/// call blocks until the process changes state unless `options` says
/// otherwise. Nothing is claimed of the result.
#[verifier::external_body]
pub(crate) fn wait_for(pid: i32, options: Option<WaitPidFlag>) -> (seen: Result<Observed, Errno>)
    requires
        pid > 0,
{
    match nix::sys::wait::waitpid(Pid::from_raw(pid), options)? {
        WaitStatus::Exited(_, code) => Ok(Observed::Exited(code)),
        WaitStatus::Signaled(_, signal, _) => Ok(Observed::Signaled(signal as i32)),
        WaitStatus::Stopped(_, signal) => Ok(Observed::Stopped(signal as i32)),
        WaitStatus::PtraceEvent(_, _, _) => Ok(Observed::Other),
        WaitStatus::PtraceSyscall(_) => Ok(Observed::Other),
        WaitStatus::Continued(_) => Ok(Observed::Other),
        WaitStatus::StillAlive => Ok(Observed::Other),
    }
}

/// Calls `nix::sys::ptrace::getregs`: the registers of the stopped tracee
/// `pid`. Nothing is claimed of the result.
#[verifier::external_body]
pub(crate) fn read_registers(pid: i32) -> (registers: Result<user_regs_struct, Errno>)
    requires
        pid > 0,
{
    ptrace::getregs(Pid::from_raw(pid))
}

/// Calls `nix::sys::ptrace::setregs`: gives the stopped tracee `pid` the
/// registers `registers`. Nothing is claimed of the result.
#[verifier::external_body]
pub(crate) fn write_registers(pid: i32, registers: user_regs_struct) -> (done: Result<(), Errno>)
    requires
        pid > 0,
{
    ptrace::setregs(Pid::from_raw(pid), registers)
}

/// Picks the field `rip` of `libc::user_regs_struct`: the instruction
/// pointer among the registers.
#[verifier::external_body]
pub(crate) fn instruction_pointer(registers: &user_regs_struct) -> (ip: u64) {
    registers.rip
}

/// Sets the field `rip` of `libc::user_regs_struct` and leaves the other
/// registers as they are.
#[verifier::external_body]
pub(crate) fn with_instruction_pointer(registers: user_regs_struct, ip: u64) -> (moved:
    user_regs_struct) {
    user_regs_struct { rip: ip, ..registers }
}

/// Calls `nix::sys::ptrace::read`: the word of the tracee's memory at
/// `addr`, its bits taken as an unsigned number. Nothing is claimed of the
/// result.
#[verifier::external_body]
pub(crate) fn peek_word(pid: i32, addr: u64) -> (word: Result<u64, Errno>)
    requires
        pid > 0,
{
    match ptrace::read(Pid::from_raw(pid), addr as ptrace::AddressType) {
        Ok(word) => Ok(word as u64),
        Err(errno) => Err(errno),
    }
}

/// Calls `nix::sys::ptrace::write`: stores the bits of `word` in the
/// tracee's memory at `addr`. Nothing is claimed of the result.
#[verifier::external_body]
pub(crate) fn poke_word(pid: i32, addr: u64, word: u64) -> (done: Result<(), Errno>)
    requires
        pid > 0,
{
    ptrace::write(Pid::from_raw(pid), addr as ptrace::AddressType, word as i64)
}

/// Calls `nix::sys::ptrace::cont` without a signal: lets the stopped tracee
/// run. Nothing is claimed of the result.
#[verifier::external_body]
pub(crate) fn continue_tracee(pid: i32) -> (done: Result<(), Errno>)
    requires
        pid > 0,
{
    ptrace::cont(Pid::from_raw(pid), None)
}

/// Calls `nix::sys::ptrace::step` without a signal: lets the stopped tracee
/// execute one instruction. Nothing is claimed of the result.
#[verifier::external_body]
pub(crate) fn step_tracee(pid: i32) -> (done: Result<(), Errno>)
    requires
        pid > 0,
{
    ptrace::step(Pid::from_raw(pid), None)
}

/// Calls `nix::sys::signal::kill` with the kill signal on the one process
/// `pid`. Nothing is claimed of the result.
#[verifier::external_body]
pub(crate) fn kill_process(pid: i32) -> (done: Result<(), Errno>)
    requires
        pid > 0,
{
    nix::sys::signal::kill(Pid::from_raw(pid), Signal::SIGKILL)
}

} // verus!
