use nadeloader::steam::{
    close_csgo_start, close_csgo_step, decode_utf16_lossy, detect_installed_games, find_csgo_pid,
    get_process_image_path, get_steam_install_path, module_name_matches, pin_client_version,
    steam_install_dir, steam_launch_url, vdf_library_paths, known_steam_libraries, library_list_root,
    library_game_dir, CloseAction, CloseEvent, CloseStage,
};

#[test]
fn installed_games_are_both_offered() {
    let g = detect_installed_games().unwrap();
    assert!(g.cs2_legacy_branch && g.csgo_standalone);
}

#[test]
fn steam_path_lookup_order() {
    let s = |x: &str| Some(x.to_string());
    assert_eq!(get_steam_install_path(s("a"), s("b"), s("c")), s("a"));
    assert_eq!(get_steam_install_path(None, s("b"), s("c")), s("b"));
    assert_eq!(get_steam_install_path(None, None, s("c")), s("c"));
    assert_eq!(get_steam_install_path(None, None, None), None);
    assert_eq!(steam_install_dir(s("d"), true), s("d"));
    assert_eq!(steam_install_dir(s("d"), false), None);
}

#[test]
fn pid_from_window() {
    assert_eq!(find_csgo_pid(Some(12)), Some(12));
    assert_eq!(find_csgo_pid(Some(0)), None);
    assert_eq!(find_csgo_pid(None), None);
}

#[test]
fn utf16_decoding_is_lossy_like_std() {
    let cases: Vec<Vec<u16>> = vec![
        "C:\\Games\\csgo.exe".encode_utf16().collect(),
        "🎮 игра".encode_utf16().collect(),
        vec![0xD800, 0x41],
        vec![0xDC00],
        vec![0x41, 0xD83C],
    ];
    for u in cases {
        assert_eq!(decode_utf16_lossy(&u), String::from_utf16_lossy(&u));
    }
    assert_eq!(get_process_image_path(Some(vec![0x61, 0x62])), Some("ab".to_string()));
    assert_eq!(get_process_image_path(None), None);
}

#[test]
fn launch_urls() {
    assert_eq!(steam_launch_url(730), "steam://launch/730/option1");
    assert_eq!(steam_launch_url(4465480), "steam://launch/4465480/dialog");
    assert_eq!(steam_launch_url(-1), "steam://launch/-1/dialog");
}

#[test]
fn client_version_is_replaced() {
    let input = "PatchVersion=1.38\r\nClientVersion=123\r\nServerVersion=5\n";
    assert_eq!(
        pin_client_version(input),
        "PatchVersion=1.38\r\nClientVersion=2000258\r\nServerVersion=5\r\n"
    );
}

#[test]
fn client_version_is_added_when_missing() {
    assert_eq!(pin_client_version(""), "ClientVersion=2000258\r\n");
    assert_eq!(pin_client_version("a\n\nb"), "a\r\n\r\nb\r\nClientVersion=2000258\r\n");
    assert_eq!(pin_client_version("x\r\r\n"), "x\r\nClientVersion=2000258\r\n");
}

#[test]
fn pinning_twice_changes_nothing() {
    for input in ["", "ClientVersion=1\n", "a\r\nb", "x\r\r\nClientVersion=9\r\n\r\n"] {
        let once = pin_client_version(input);
        assert_eq!(pin_client_version(&once), once);
    }
}

#[test]
fn vdf_paths_read_the_value_after_the_key() {
    let vdf = "\"libraryfolders\"\n{\n\t\"0\"\n\t{\n\t\t\"path\"\t\t\"D:\\\\SteamLibrary\"\r\n\t}\n}\n";
    assert_eq!(vdf_library_paths(vdf), vec!["D:\\\\SteamLibrary".to_string()]);
    assert_eq!(vdf_library_paths("  \"path\" \"E:\\Games\"\n\"path\"\n\"pathx\" \"F\""), vec!["E:\\Games".to_string()]);
    assert!(vdf_library_paths("no paths here").is_empty());
}

#[test]
fn module_names_compare_over_the_shorter() {
    let a: Vec<u16> = "ntdll.dll\0".encode_utf16().collect();
    let mut sz = a.clone();
    sz.extend([0u16; 5]);
    assert!(module_name_matches(&sz, &a));
    let b: Vec<u16> = "kernel32.dll\0".encode_utf16().collect();
    assert!(!module_name_matches(&sz, &b));
}

fn run_close(events: &[CloseEvent]) -> Vec<CloseAction> {
    let (mut st, first) = close_csgo_start();
    let mut actions = vec![first];
    for e in events {
        let (next, a) = close_csgo_step(st, *e);
        st = next;
        actions.push(a);
        if st == CloseStage::Finished {
            break;
        }
    }
    actions
}

#[test]
fn closing_without_window_does_nothing() {
    assert_eq!(run_close(&[CloseEvent::Window(None)]), vec![CloseAction::FindWindow, CloseAction::Done]);
}

#[test]
fn closing_a_game_that_exits() {
    let acts = run_close(&[
        CloseEvent::Window(Some(77)),
        CloseEvent::Done,
        CloseEvent::Succeeded,
        CloseEvent::Succeeded,
        CloseEvent::Done,
        CloseEvent::Done,
    ]);
    assert_eq!(
        acts,
        vec![
            CloseAction::FindWindow,
            CloseAction::PostClose,
            CloseAction::OpenProcess(77),
            CloseAction::WaitForExit(3500),
            CloseAction::CloseProcess,
            CloseAction::Sleep(700),
            CloseAction::Done,
        ]
    );
}

#[test]
fn closing_a_game_that_hangs() {
    let acts = run_close(&[
        CloseEvent::Window(Some(77)),
        CloseEvent::Done,
        CloseEvent::Succeeded,
        CloseEvent::Failed,
        CloseEvent::Done,
        CloseEvent::Done,
        CloseEvent::Done,
    ]);
    assert!(acts.contains(&CloseAction::TerminateAndWait(2000)));
    assert!(acts.contains(&CloseAction::CloseProcess));
}

#[test]
fn closing_when_process_cannot_be_opened() {
    let acts = run_close(&[CloseEvent::Window(Some(5)), CloseEvent::Done, CloseEvent::Failed, CloseEvent::Done]);
    assert_eq!(acts[3], CloseAction::Sleep(1400));
    let zero = run_close(&[CloseEvent::Window(Some(0)), CloseEvent::Done, CloseEvent::Done]);
    assert_eq!(zero[2], CloseAction::Sleep(1400));
}

#[test]
fn libraries_are_searched_in_order() {
    assert_eq!(
        known_steam_libraries(Some("F:\\S".to_string())),
        vec!["F:\\S", "C:\\Program Files (x86)\\Steam", "D:\\Steam", "E:\\Steam"]
    );
    assert_eq!(known_steam_libraries(None), vec!["C:\\Program Files (x86)\\Steam", "D:\\Steam", "E:\\Steam"]);
    assert_eq!(library_list_root(None), "C:\\Program Files (x86)\\Steam");
    assert_eq!(library_list_root(Some("X".to_string())), "X");
}

#[test]
fn game_dir_lies_under_steamapps_common() {
    let d = library_game_dir("lib", "Game");
    assert!(d == "lib/steamapps/common/Game" || d == "lib\\steamapps\\common\\Game");
}

#[test]
fn game_dir_under_a_verbatim_library() {
    let d = library_game_dir("\\\\?\\D:\\Lib", "Game");
    assert!(d == "\\\\?\\D:\\Lib/steamapps/common/Game" || d == "\\\\?\\D:\\Lib\\steamapps\\common\\Game");
}
