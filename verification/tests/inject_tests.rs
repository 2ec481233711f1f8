use nadeloader::error::LauncherError;
use nadeloader::inject::{
    dll_path_argument, inject_error, inject_next, inject_start, remote_address, restore_bytes_present,
    InjectAction, InjectEvent, InjectFailure, InjectStage, Release,
};

fn run(path: &str, skeet: bool, events: &[InjectEvent]) -> Vec<InjectAction> {
    let (mut st, first) = inject_start(path, skeet);
    let mut actions = vec![first];
    for e in events {
        let (next, a) = inject_next(st, *e);
        st = next;
        actions.push(a);
        if st.stage == InjectStage::Finished {
            break;
        }
    }
    actions
}

#[test]
fn path_argument_is_nul_terminated() {
    assert_eq!(dll_path_argument("C:\\a.dll"), Some(b"C:\\a.dll\0".to_vec()));
    assert_eq!(dll_path_argument("é"), Some(vec![0xC3, 0xA9, 0]));
    assert_eq!(dll_path_argument("a\0b"), None);
}

#[test]
fn successful_injection() {
    let ok = InjectEvent::Succeeded;
    let acts = run("C:\\x.dll", false, &[ok, ok, ok, ok, ok, ok, ok, InjectEvent::ThreadExited(1)]);
    assert_eq!(
        acts,
        vec![
            InjectAction::OpenProcess,
            InjectAction::RestoreNtOpenFile,
            InjectAction::AllocatePath(9),
            InjectAction::WritePath,
            InjectAction::FindKernel32,
            InjectAction::FindLoadLibrary,
            InjectAction::StartThread,
            InjectAction::AwaitThread,
            InjectAction::Finish(Release { free_path_memory: true, close_thread: true, close_process: true }, None),
        ]
    );
}

#[test]
fn skeet_is_prepared_differently() {
    let acts = run("s.dll", true, &[InjectEvent::Succeeded]);
    assert_eq!(acts[1], InjectAction::PrepareSkeet);
}

#[test]
fn failures_release_what_is_held() {
    let ok = InjectEvent::Succeeded;
    let bad = InjectEvent::Failed;
    assert_eq!(
        run("p", false, &[bad]).last().copied(),
        Some(InjectAction::Finish(Release { free_path_memory: false, close_thread: false, close_process: false }, Some(InjectFailure::OpenProcess)))
    );
    assert_eq!(
        run("p", false, &[ok, ok, bad]).last().copied(),
        Some(InjectAction::Finish(Release { free_path_memory: false, close_thread: false, close_process: true }, Some(InjectFailure::AllocatePath)))
    );
    assert_eq!(
        run("p", false, &[ok, ok, ok, bad]).last().copied(),
        Some(InjectAction::Finish(Release { free_path_memory: true, close_thread: false, close_process: true }, Some(InjectFailure::WritePath)))
    );
    assert_eq!(
        run("p", false, &[ok, ok, ok, ok, ok, ok, bad]).last().copied(),
        Some(InjectAction::Finish(Release { free_path_memory: true, close_thread: false, close_process: true }, Some(InjectFailure::CreateThread)))
    );
    assert_eq!(
        run("p", false, &[ok, ok, ok, ok, ok, ok, ok, InjectEvent::ThreadExited(0)]).last().copied(),
        Some(InjectAction::Finish(Release { free_path_memory: true, close_thread: true, close_process: true }, Some(InjectFailure::LibraryNotLoaded)))
    );
}

#[test]
fn nul_in_path_keeps_the_process_handle() {
    let acts = run("a\0b", false, &[InjectEvent::Succeeded, InjectEvent::Succeeded]);
    assert_eq!(
        acts.last().copied(),
        Some(InjectAction::Finish(Release { free_path_memory: false, close_thread: false, close_process: false }, Some(InjectFailure::NulInPath)))
    );
}

#[test]
fn failure_messages() {
    assert_eq!(inject_error(InjectFailure::OpenProcess), LauncherError::System("failed to open target process".to_string()));
    assert_eq!(inject_error(InjectFailure::NulInPath), LauncherError::System("DLL path contains null byte".to_string()));
    assert_eq!(inject_error(InjectFailure::LibraryNotLoaded), LauncherError::System("DLL failed to load in target process".to_string()));
    assert_eq!(inject_error(InjectFailure::Kernel32), LauncherError::System("failed to get kernel32".to_string()));
}

#[test]
fn remote_address_keeps_the_offset() {
    assert_eq!(remote_address(0x7000_0000, 0x1000_0450, 0x1000_0000), 0x7000_0450);
    assert_eq!(remote_address(0x100, 0x10, 0x20), 0xf0);
    assert_eq!(remote_address(usize::MAX, 0x11, 0x10), 0);
    assert_eq!(remote_address(0, 0x10, 0x11), usize::MAX);
}

#[test]
fn fresh_bytes_count_when_not_all_zero() {
    assert!(!restore_bytes_present(&[0, 0, 0, 0, 0xe9]));
    assert!(restore_bytes_present(&[0x4c, 0x8b, 0xd1, 0xb8, 0x33]));
    assert!(restore_bytes_present(&[0, 0, 0, 1, 0]));
}
