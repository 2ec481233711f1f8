use vstd::prelude::*;
use crate::error::{ErrorKind, LauncherError};
use vstd::string::StringSliceAdditionalSpecFns;

verus! {

/// The outside work that an injection waits on next.
#[derive(Debug, Clone, Copy, PartialEq, Eq, Structural)]
pub enum InjectStage {
    /// Opening the target process.
    Open,
    /// Preparing the target (skeet pre-allocation, or restoring `NtOpenFile`).
    Prepare,
    /// Allocating remote memory for the DLL path.
    Allocate,
    /// Writing the DLL path into the remote memory.
    Write,
    /// Looking up `kernel32.dll`.
    Kernel32,
    /// Looking up `LoadLibraryA`.
    LoadLibrary,
    /// Starting the remote thread.
    Thread,
    /// Waiting for the remote thread and reading its exit code.
    Await,
    /// Nothing is left to do.
    Finished,
}

/// Where an injection stands, and which handles and remote memory it holds.
#[derive(Debug, Clone, Copy, PartialEq, Eq, Structural)]
pub struct InjectState {
    pub stage: InjectStage,
    /// Whether the DLL is skeet, which is prepared differently.
    pub skeet: bool,
    /// The length of the NUL-terminated DLL path, or `None` when the path itself holds a NUL byte.
    pub path_len: Option<usize>,
    pub holds_process: bool,
    pub holds_path_memory: bool,
    pub holds_thread: bool,
}

/// What came back from the outside work of the current stage.
#[derive(Debug, Clone, Copy, PartialEq, Eq, Structural)]
pub enum InjectEvent {
    /// The call succeeded (a non-null handle or address, a non-zero `BOOL`).
    Succeeded,
    /// The call failed.
    Failed,
    /// The remote thread ended with this exit code.
    ThreadExited(u32),
}

/// Why an injection failed.
#[derive(Debug, Clone, Copy, PartialEq, Eq, Structural)]
pub enum InjectFailure {
    OpenProcess,
    NulInPath,
    AllocatePath,
    WritePath,
    Kernel32,
    LoadLibrary,
    CreateThread,
    LibraryNotLoaded,
}

/// Which held resources to give back, in this order: remote memory, thread handle, process handle.
#[derive(Debug, Clone, Copy, PartialEq, Eq, Structural)]
pub struct Release {
    pub free_path_memory: bool,
    pub close_thread: bool,
    pub close_process: bool,
}

/// The outside work that the caller performs next.
#[derive(Debug, Clone, Copy, PartialEq, Eq, Structural)]
pub enum InjectAction {
    OpenProcess,
    PrepareSkeet,
    RestoreNtOpenFile,
    /// Allocate this many bytes in the target process for the path.
    AllocatePath(usize),
    WritePath,
    FindKernel32,
    FindLoadLibrary,
    StartThread,
    AwaitThread,
    /// Release what is named, then report the outcome (`None` for success).
    Finish(Release, Option<InjectFailure>),
}

/// Whether an event reports success; an exit code of zero means `LoadLibraryA` failed.
pub open spec fn event_ok(e: InjectEvent) -> bool {
    match e {
        InjectEvent::Succeeded => true,
        InjectEvent::Failed => false,
        InjectEvent::ThreadExited(code) => code != 0,
    }
}

pub open spec fn release_none() -> Release {
    Release { free_path_memory: false, close_thread: false, close_process: false }
}

/// What a state holds, as a release that would give all of it back.
pub open spec fn held(s: InjectState) -> Release {
    Release {
        free_path_memory: s.holds_path_memory,
        close_thread: s.holds_thread,
        close_process: s.holds_process,
    }
}

/// The state after everything held was released.
pub open spec fn finished(s: InjectState) -> InjectState {
    InjectState {
        stage: InjectStage::Finished,
        holds_process: false,
        holds_path_memory: false,
        holds_thread: false,
        ..s
    }
}

/// The step from a state on an event: the next state and the next action.
pub open spec fn inject_transition(s: InjectState, e: InjectEvent) -> (InjectState, InjectAction) {
    match s.stage {
        InjectStage::Open => if event_ok(e) {
            (
                InjectState { stage: InjectStage::Prepare, holds_process: true, ..s },
                if s.skeet { InjectAction::PrepareSkeet } else { InjectAction::RestoreNtOpenFile },
            )
        } else {
            (finished(s), InjectAction::Finish(release_none(), Some(InjectFailure::OpenProcess)))
        },
        InjectStage::Prepare => match s.path_len {
            Some(len) => (InjectState { stage: InjectStage::Allocate, ..s }, InjectAction::AllocatePath(len)),
            // The process handle is kept open on this path.
            None => (
                InjectState { stage: InjectStage::Finished, ..s },
                InjectAction::Finish(release_none(), Some(InjectFailure::NulInPath)),
            ),
        },
        InjectStage::Allocate => if event_ok(e) {
            (InjectState { stage: InjectStage::Write, holds_path_memory: true, ..s }, InjectAction::WritePath)
        } else {
            (finished(s), InjectAction::Finish(held(s), Some(InjectFailure::AllocatePath)))
        },
        InjectStage::Write => if event_ok(e) {
            (InjectState { stage: InjectStage::Kernel32, ..s }, InjectAction::FindKernel32)
        } else {
            (finished(s), InjectAction::Finish(held(s), Some(InjectFailure::WritePath)))
        },
        InjectStage::Kernel32 => if event_ok(e) {
            (InjectState { stage: InjectStage::LoadLibrary, ..s }, InjectAction::FindLoadLibrary)
        } else {
            (finished(s), InjectAction::Finish(held(s), Some(InjectFailure::Kernel32)))
        },
        InjectStage::LoadLibrary => if event_ok(e) {
            (InjectState { stage: InjectStage::Thread, ..s }, InjectAction::StartThread)
        } else {
            (finished(s), InjectAction::Finish(held(s), Some(InjectFailure::LoadLibrary)))
        },
        InjectStage::Thread => if event_ok(e) {
            (InjectState { stage: InjectStage::Await, holds_thread: true, ..s }, InjectAction::AwaitThread)
        } else {
            (finished(s), InjectAction::Finish(held(s), Some(InjectFailure::CreateThread)))
        },
        InjectStage::Await => (
            finished(s),
            InjectAction::Finish(
                held(s),
                if event_ok(e) { None } else { Some(InjectFailure::LibraryNotLoaded) },
            ),
        ),
        InjectStage::Finished => (s, InjectAction::Finish(release_none(), None)),
    }
}

/// The resources that each stage holds.
pub open spec fn inject_wf(s: InjectState) -> bool {
    &&& match s.stage {
        InjectStage::Open => !s.holds_process && !s.holds_path_memory && !s.holds_thread,
        InjectStage::Prepare | InjectStage::Allocate => s.holds_process && !s.holds_path_memory
            && !s.holds_thread,
        InjectStage::Write | InjectStage::Kernel32 | InjectStage::LoadLibrary | InjectStage::Thread =>
            s.holds_process && s.holds_path_memory && !s.holds_thread,
        InjectStage::Await => s.holds_process && s.holds_path_memory && s.holds_thread,
        InjectStage::Finished => !s.holds_path_memory && !s.holds_thread,
    }
    &&& (s.stage == InjectStage::Allocate ==> s.path_len is Some)
}

/// The NUL-terminated bytes of a DLL path, as `CString::new` makes them, or `None` when the
/// path holds a NUL byte.
pub open spec fn dll_path_argument_spec(path: Seq<char>) -> Option<Seq<u8>> {
    let bytes = vstd::utf8::encode_utf8(path);
    if bytes.contains(0u8) {
        None
    } else {
        Some(bytes.push(0u8))
    }
}

/// The NUL-terminated path that the remote thread passes to `LoadLibraryA`.
pub fn dll_path_argument(path: &str) -> (r: Option<Vec<u8>>)
    ensures
        r matches Some(v) ==> dll_path_argument_spec(path@) == Some(v@),
        r is None ==> dll_path_argument_spec(path@) is None,
{
    let bytes = path.as_bytes();
    let mut out: Vec<u8> = Vec::new();
    let mut i: usize = 0;
    while i < bytes.len()
        invariant
            bytes@ == path.spec_bytes(),
            i <= bytes@.len(),
            out@ == bytes@.take(i as int),
            !out@.contains(0u8),
        decreases bytes@.len() - i,
    {
        if bytes[i] == 0 {
            assert(bytes@[i as int] == 0u8);
            return None;
        }
        out.push(bytes[i]);
        assert(out@ =~= bytes@.take(i + 1));
        i = i + 1;
    }
    assert(bytes@.take(i as int) =~= bytes@);
    out.push(0u8);
    Some(out)
}

/// The first state of an injection, and its first action.
pub fn inject_start(dll_path: &str, skeet: bool) -> (r: (InjectState, InjectAction))
    ensures
        r.0.stage == InjectStage::Open,
        r.0.skeet == skeet,
        r.0.path_len == match dll_path_argument_spec(dll_path@) {
            Some(bytes) => Some(bytes.len() as usize),
            None => None::<usize>,
        },
        !r.0.holds_process && !r.0.holds_path_memory && !r.0.holds_thread,
        r.1 == InjectAction::OpenProcess,
{
    let path_len = match dll_path_argument(dll_path) {
        Some(v) => Some(v.len()),
        None => None,
    };
    (
        InjectState {
            stage: InjectStage::Open,
            skeet,
            path_len,
            holds_process: false,
            holds_path_memory: false,
            holds_thread: false,
        },
        InjectAction::OpenProcess,
    )
}

/// One step of an injection: given what the current stage's work returned, the next state and
/// the next action.
pub fn inject_next(s: InjectState, e: InjectEvent) -> (r: (InjectState, InjectAction))
    ensures
        r == inject_transition(s, e),
{
    let ok = match e {
        InjectEvent::Succeeded => true,
        InjectEvent::Failed => false,
        InjectEvent::ThreadExited(code) => code != 0,
    };
    let held = Release {
        free_path_memory: s.holds_path_memory,
        close_thread: s.holds_thread,
        close_process: s.holds_process,
    };
    let none = Release { free_path_memory: false, close_thread: false, close_process: false };
    let done = InjectState {
        stage: InjectStage::Finished,
        holds_process: false,
        holds_path_memory: false,
        holds_thread: false,
        ..s
    };
    match s.stage {
        InjectStage::Open => if ok {
            let action = if s.skeet { InjectAction::PrepareSkeet } else { InjectAction::RestoreNtOpenFile };
            (InjectState { stage: InjectStage::Prepare, holds_process: true, ..s }, action)
        } else {
            (done, InjectAction::Finish(none, Some(InjectFailure::OpenProcess)))
        },
        InjectStage::Prepare => match s.path_len {
            Some(len) => (InjectState { stage: InjectStage::Allocate, ..s }, InjectAction::AllocatePath(len)),
            None => (
                InjectState { stage: InjectStage::Finished, ..s },
                InjectAction::Finish(none, Some(InjectFailure::NulInPath)),
            ),
        },
        InjectStage::Allocate => if ok {
            (InjectState { stage: InjectStage::Write, holds_path_memory: true, ..s }, InjectAction::WritePath)
        } else {
            (done, InjectAction::Finish(held, Some(InjectFailure::AllocatePath)))
        },
        InjectStage::Write => if ok {
            (InjectState { stage: InjectStage::Kernel32, ..s }, InjectAction::FindKernel32)
        } else {
            (done, InjectAction::Finish(held, Some(InjectFailure::WritePath)))
        },
        InjectStage::Kernel32 => if ok {
            (InjectState { stage: InjectStage::LoadLibrary, ..s }, InjectAction::FindLoadLibrary)
        } else {
            (done, InjectAction::Finish(held, Some(InjectFailure::Kernel32)))
        },
        InjectStage::LoadLibrary => if ok {
            (InjectState { stage: InjectStage::Thread, ..s }, InjectAction::StartThread)
        } else {
            (done, InjectAction::Finish(held, Some(InjectFailure::LoadLibrary)))
        },
        InjectStage::Thread => if ok {
            (InjectState { stage: InjectStage::Await, holds_thread: true, ..s }, InjectAction::AwaitThread)
        } else {
            (done, InjectAction::Finish(held, Some(InjectFailure::CreateThread)))
        },
        InjectStage::Await => (
            done,
            InjectAction::Finish(held, if ok { None } else { Some(InjectFailure::LibraryNotLoaded) }),
        ),
        InjectStage::Finished => (s, InjectAction::Finish(none, None)),
    }
}

/// The message each failure is reported with.
pub open spec fn inject_failure_message(f: InjectFailure) -> Seq<char> {
    match f {
        InjectFailure::OpenProcess => "failed to open target process"@,
        InjectFailure::NulInPath => "DLL path contains null byte"@,
        InjectFailure::AllocatePath => "VirtualAllocEx failed"@,
        InjectFailure::WritePath => "WriteProcessMemory failed"@,
        InjectFailure::Kernel32 => "failed to get kernel32"@,
        InjectFailure::LoadLibrary => "failed to find LoadLibraryA"@,
        InjectFailure::CreateThread => "CreateRemoteThread failed"@,
        InjectFailure::LibraryNotLoaded => "DLL failed to load in target process"@,
    }
}

/// The error an injection failure is reported as.
pub fn inject_error(f: InjectFailure) -> (e: LauncherError)
    ensures
        e@ == (ErrorKind::System, inject_failure_message(f)),
{
    let m = match f {
        InjectFailure::OpenProcess => "failed to open target process",
        InjectFailure::NulInPath => "DLL path contains null byte",
        InjectFailure::AllocatePath => "VirtualAllocEx failed",
        InjectFailure::WritePath => "WriteProcessMemory failed",
        InjectFailure::Kernel32 => "failed to get kernel32",
        InjectFailure::LoadLibrary => "failed to find LoadLibraryA",
        InjectFailure::CreateThread => "CreateRemoteThread failed",
        InjectFailure::LibraryNotLoaded => "DLL failed to load in target process",
    };
    LauncherError::System(m.to_owned())
}

/// The address, in another process, of what lies at `local_addr` in a module loaded here at
/// `local_base`, when that process loaded the same module at `remote_base`: the same offset
/// from the module's base, in wrapping address arithmetic.
pub open spec fn remote_address_spec(remote_base: usize, local_addr: usize, local_base: usize) -> int {
    let t = remote_base + (local_addr - local_base);
    if t < 0 {
        t + (usize::MAX + 1)
    } else if t > usize::MAX {
        t - (usize::MAX + 1)
    } else {
        t
    }
}

/// Where `NtOpenFile`, found at `local_addr` in this process's `ntdll` (loaded at `local_base`),
/// lies in the game's `ntdll` loaded at `remote_base`.
pub fn remote_address(remote_base: usize, local_addr: usize, local_base: usize) -> (r: usize)
    ensures
        r == remote_address_spec(remote_base, local_addr, local_base),
{
    remote_base.wrapping_add(local_addr.wrapping_sub(local_base))
}

/// Whether the first bytes read from a fresh `NtOpenFile` are worth writing back: the first four
/// are not all zero.
pub fn restore_bytes_present(bytes: &[u8; 5]) -> (r: bool)
    ensures
        r == !(bytes@[0] == 0 && bytes@[1] == 0 && bytes@[2] == 0 && bytes@[3] == 0),
{
    !(bytes[0] == 0 && bytes[1] == 0 && bytes[2] == 0 && bytes[3] == 0)
}

/// How far along a stage is; every step that does not finish moves strictly forward.
pub open spec fn stage_rank(st: InjectStage) -> nat {
    match st {
        InjectStage::Open => 0,
        InjectStage::Prepare => 1,
        InjectStage::Allocate => 2,
        InjectStage::Write => 3,
        InjectStage::Kernel32 => 4,
        InjectStage::LoadLibrary => 5,
        InjectStage::Thread => 6,
        InjectStage::Await => 7,
        InjectStage::Finished => 8,
    }
}

/// Every step keeps the bookkeeping of held resources exact, and moves to a later stage.
pub proof fn lemma_inject_step_wf(s: InjectState, e: InjectEvent)
    requires
        inject_wf(s),
        s.stage != InjectStage::Finished,
    ensures
        inject_wf(inject_transition(s, e).0),
        stage_rank(inject_transition(s, e).0.stage) > stage_rank(s.stage),
        inject_transition(s, e).0.skeet == s.skeet,
        inject_transition(s, e).0.path_len == s.path_len,
{
}

/// A step that finishes gives back exactly what the injection held, with one exception: a DLL
/// path holding a NUL byte ends the injection with the process handle still open.
pub proof fn lemma_inject_finish_releases_held(s: InjectState, e: InjectEvent)
    requires
        inject_wf(s),
        s.stage != InjectStage::Finished,
        !(s.stage == InjectStage::Prepare && s.path_len is None),
    ensures
        inject_transition(s, e).1 matches InjectAction::Finish(release, _) ==> release == held(s)
            && !inject_transition(s, e).0.holds_process,
{
}

/// An injection succeeds only from the last stage, holding the process, the remote memory and
/// the thread, and only when the thread's exit code is non-zero.
pub proof fn lemma_inject_success(s: InjectState, e: InjectEvent)
    requires
        inject_wf(s),
        s.stage != InjectStage::Finished,
    ensures
        inject_transition(s, e).1 == InjectAction::Finish(held(s), None) <==> (s.stage
            == InjectStage::Await && event_ok(e)),
{
}

} // verus!
