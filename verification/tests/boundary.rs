use kernel::{
    boot, fs_cat, fs_close, fs_create, fs_exists, fs_list, fs_open, fs_read, fs_write, get_uptime,
    handle_command, help, process_spawn, split_path, uname, update_time, FsError, Kernel,
};

fn booted() -> Kernel {
    let mut k = Kernel::new();
    boot(&mut k, 0);
    k
}

fn sorted_names(text: &str) -> Vec<String> {
    let mut names: Vec<String> = text.split(',').map(|s| s.to_string()).collect();
    names.sort();
    names
}

#[test]
fn boot_returns_banner() {
    let mut k = Kernel::new();
    assert_eq!(
        boot(&mut k, 0),
        "BrowserOS v0.2 (WASM-based virtual OS)\nType 'help' for command list.\n"
    );
}

#[test]
fn session_create_write_close_cat() {
    let mut k = Kernel::new();
    boot(&mut k, 0);
    assert_eq!(fs_exists(&k, "/home"), 1);
    assert_eq!(fs_exists(&k, "/nope"), -1);
    assert_eq!(fs_create(&mut k, "/home/doc.txt", false), 0);
    assert_eq!(fs_exists(&k, "/home/doc.txt"), 0);
    let fd = fs_open(&mut k, "/home/doc.txt", "w");
    assert!(fd >= 3);
    assert_eq!(fs_write(&mut k, fd as u32, "72,105"), 2);
    assert_eq!(fs_close(&mut k, fd as u32), 0);
    assert_eq!(fs_cat(&k, "/home/doc.txt"), "Hi");
}

#[test]
fn create_directory_under_home() {
    let mut k = booted();
    assert_eq!(fs_create(&mut k, "/home/user", true), 0);
    assert_eq!(fs_exists(&k, "/home/user"), 1);
    assert_eq!(fs_list(&k, "/home"), "user");
}

#[test]
fn listing_after_boot() {
    let k = booted();
    assert_eq!(sorted_names(&fs_list(&k, "/")), vec!["bin", "etc", "home", "tmp"]);
    assert_eq!(sorted_names(&fs_list(&k, "")), vec!["bin", "etc", "home", "tmp"]);
}

#[test]
fn listing_before_boot_is_empty() {
    let k = Kernel::new();
    assert_eq!(fs_list(&k, "/"), "");
}

#[test]
fn listing_of_file_or_missing_path_is_empty() {
    let mut k = booted();
    assert_eq!(fs_create(&mut k, "/tmp/f", false), 0);
    assert_eq!(fs_list(&k, "/tmp/f"), "");
    assert_eq!(fs_list(&k, "/missing"), "");
    assert_eq!(fs_list(&k, "/tmp"), "f");
}

#[test]
fn listing_holds_each_name_once() {
    let mut k = booted();
    assert_eq!(fs_create(&mut k, "/tmp/a", false), 0);
    assert_eq!(fs_create(&mut k, "/tmp/b", true), 0);
    assert_eq!(fs_create(&mut k, "/tmp/a", false), 0);
    assert_eq!(sorted_names(&fs_list(&k, "/tmp")), vec!["a", "b"]);
}

#[test]
fn create_under_missing_parent_fails() {
    let mut k = booted();
    assert_eq!(fs_create(&mut k, "/nope/x", false), -1);
    assert_eq!(fs_create(&mut k, "/home/nope/x", true), -1);
    assert_eq!(fs_exists(&k, "/nope"), -1);
    assert_eq!(fs_exists(&k, "/nope/x"), -1);
    assert_eq!(k.next_inode_id(), 5);
}

#[test]
fn create_under_file_fails() {
    let mut k = booted();
    assert_eq!(fs_create(&mut k, "/tmp/f", false), 0);
    let before = k.next_inode_id();
    assert_eq!(fs_create(&mut k, "/tmp/f/x", false), -1);
    assert_eq!(k.next_inode_id(), before);
    assert_eq!(fs_exists(&k, "/tmp/f"), 0);
}

#[test]
fn create_without_name_fails() {
    let mut k = booted();
    assert_eq!(fs_create(&mut k, "", false), -1);
    assert_eq!(fs_create(&mut k, "/", true), -1);
    assert_eq!(fs_create(&mut k, "///", true), -1);
    assert_eq!(k.next_inode_id(), 5);
}

#[test]
fn create_ignores_surrounding_and_repeated_slashes() {
    let mut k = booted();
    assert_eq!(fs_create(&mut k, "tmp//a/", false), 0);
    assert_eq!(fs_exists(&k, "/tmp/a"), 0);
    assert_eq!(fs_exists(&k, "tmp/a"), 0);
    assert_eq!(fs_exists(&k, "//tmp///a//"), 0);
}

#[test]
fn create_in_root_without_slash() {
    let mut k = booted();
    assert_eq!(fs_create(&mut k, "notes", false), 0);
    assert_eq!(fs_exists(&k, "/notes"), 0);
}

#[test]
fn create_replaces_entry_of_same_name() {
    let mut k = booted();
    assert_eq!(fs_create(&mut k, "/a", true), 0);
    assert_eq!(fs_create(&mut k, "/a/x", false), 0);
    assert_eq!(fs_exists(&k, "/a/x"), 0);
    assert_eq!(fs_create(&mut k, "/a", false), 0);
    assert_eq!(fs_exists(&k, "/a"), 0);
    assert_eq!(fs_exists(&k, "/a/x"), -1);
}

#[test]
fn names_are_case_sensitive_and_dots_are_names() {
    let mut k = booted();
    assert_eq!(fs_exists(&k, "/Home"), -1);
    assert_eq!(fs_exists(&k, "/home/.."), -1);
    assert_eq!(fs_exists(&k, "/home/."), -1);
    assert_eq!(fs_create(&mut k, "/home/..", true), 0);
    assert_eq!(fs_exists(&k, "/home/.."), 1);
}

#[test]
fn exists_tells_directory_file_and_nothing_apart() {
    let mut k = booted();
    assert_eq!(fs_exists(&k, "/"), 1);
    assert_eq!(fs_exists(&k, ""), 1);
    assert_eq!(fs_exists(&k, "/bin"), 1);
    assert_eq!(fs_create(&mut k, "/bin/sh", false), 0);
    assert_eq!(fs_exists(&k, "/bin/sh"), 0);
    assert_eq!(fs_exists(&k, "/bin/sh/x"), -1);
    assert_eq!(fs_exists(&k, "/usr"), -1);
}

#[test]
fn open_gives_handles_from_three_upwards() {
    let mut k = booted();
    assert_eq!(fs_open(&mut k, "/home", "r"), 3);
    assert_eq!(fs_open(&mut k, "/", "r"), 4);
    assert_eq!(fs_open(&mut k, "/missing", "r"), -1);
    assert_eq!(fs_open(&mut k, "/home", "w"), 5);
}

#[test]
fn reads_cut_content_into_adjoining_pieces() {
    let mut k = booted();
    assert_eq!(fs_create(&mut k, "/tmp/f", false), 0);
    let w = fs_open(&mut k, "/tmp/f", "w") as u32;
    assert_eq!(fs_write(&mut k, w, "1,2,3,4,5"), 5);
    let r = fs_open(&mut k, "/tmp/f", "r") as u32;
    assert_eq!(fs_read(&mut k, r, 2), "1,2");
    assert_eq!(fs_read(&mut k, r, 2), "3,4");
    assert_eq!(fs_read(&mut k, r, 2), "5");
    assert_eq!(fs_read(&mut k, r, 2), "");
    assert_eq!(fs_read(&mut k, r, 0), "");
}

#[test]
fn read_of_zero_bytes_keeps_cursor() {
    let mut k = booted();
    assert_eq!(fs_create(&mut k, "/tmp/f", false), 0);
    let fd = fs_open(&mut k, "/tmp/f", "w") as u32;
    assert_eq!(fs_write(&mut k, fd, "9,8"), 2);
    assert_eq!(fs_read(&mut k, fd, 0), "");
    assert_eq!(fs_read(&mut k, fd, usize::MAX), "9,8");
}

#[test]
fn read_past_end_is_empty_not_an_error() {
    let mut k = booted();
    assert_eq!(fs_create(&mut k, "/tmp/empty", false), 0);
    let fd = fs_open(&mut k, "/tmp/empty", "r") as u32;
    assert_eq!(fs_read(&mut k, fd, 10), "");
    assert_eq!(fs_read(&mut k, fd, 10), "");
    assert_eq!(fs_close(&mut k, fd), 0);
}

#[test]
fn read_on_unknown_handle_is_empty() {
    let mut k = booted();
    assert_eq!(fs_read(&mut k, 3, 10), "");
    assert_eq!(fs_read(&mut k, 0, 10), "");
}

#[test]
fn written_bytes_are_read_back_by_a_fresh_descriptor() {
    let mut k = booted();
    assert_eq!(fs_create(&mut k, "/tmp/f", false), 0);
    let w = fs_open(&mut k, "/tmp/f", "w") as u32;
    assert_eq!(fs_write(&mut k, w, "0,127,128,255"), 4);
    assert_eq!(fs_close(&mut k, w), 0);
    let r = fs_open(&mut k, "/tmp/f", "r") as u32;
    assert_eq!(fs_read(&mut k, r, 4), "0,127,128,255");
}

#[test]
fn writes_append_whatever_the_cursor_and_the_mode() {
    let mut k = booted();
    assert_eq!(fs_create(&mut k, "/tmp/f", false), 0);
    let fd = fs_open(&mut k, "/tmp/f", "r") as u32;
    assert_eq!(fs_write(&mut k, fd, "65,66"), 2);
    assert_eq!(fs_read(&mut k, fd, 1), "65");
    assert_eq!(fs_write(&mut k, fd, "67"), 1);
    assert_eq!(fs_read(&mut k, fd, 10), "66,67");
    assert_eq!(fs_cat(&k, "/tmp/f"), "ABC");
}

#[test]
fn two_descriptors_have_their_own_cursors() {
    let mut k = booted();
    assert_eq!(fs_create(&mut k, "/tmp/f", false), 0);
    let a = fs_open(&mut k, "/tmp/f", "w") as u32;
    let b = fs_open(&mut k, "/tmp/f", "r") as u32;
    assert_eq!(fs_write(&mut k, a, "1,2,3"), 3);
    assert_eq!(fs_read(&mut k, a, 2), "1,2");
    assert_eq!(fs_read(&mut k, b, 1), "1");
    assert_eq!(fs_read(&mut k, a, 2), "3");
    assert_eq!(fs_read(&mut k, b, 5), "2,3");
}

#[test]
fn write_reads_decimal_bytes_with_optional_plus_and_spaces() {
    let mut k = booted();
    assert_eq!(fs_create(&mut k, "/tmp/f", false), 0);
    let fd = fs_open(&mut k, "/tmp/f", "w") as u32;
    assert_eq!(fs_write(&mut k, fd, " 7 ,+8,009,\t10\n"), 4);
    assert_eq!(fs_write(&mut k, fd, "1,,2,"), 2);
    assert_eq!(fs_write(&mut k, fd, ",,,"), 0);
    assert_eq!(fs_write(&mut k, fd, ""), 0);
    assert_eq!(fs_read(&mut k, fd, 100), "7,8,9,10,1,2");
}

#[test]
fn write_rejects_malformed_lists_and_writes_nothing() {
    let mut k = booted();
    assert_eq!(fs_create(&mut k, "/tmp/f", false), 0);
    let fd = fs_open(&mut k, "/tmp/f", "w") as u32;
    assert_eq!(fs_write(&mut k, fd, "256"), -1);
    assert_eq!(fs_write(&mut k, fd, "1,2,x"), -1);
    assert_eq!(fs_write(&mut k, fd, "-1"), -1);
    assert_eq!(fs_write(&mut k, fd, "+"), -1);
    assert_eq!(fs_write(&mut k, fd, "++1"), -1);
    assert_eq!(fs_write(&mut k, fd, "1 2"), -1);
    assert_eq!(fs_write(&mut k, fd, " "), -1);
    assert_eq!(fs_write(&mut k, fd, "1, ,2"), -1);
    assert_eq!(fs_write(&mut k, fd, "1.0"), -1);
    assert_eq!(fs_write(&mut k, fd, "0x10"), -1);
    assert_eq!(fs_write(&mut k, fd, "99999999999999999999"), -1);
    assert_eq!(fs_read(&mut k, fd, 100), "");
}

#[test]
fn write_on_unknown_handle_fails() {
    let mut k = booted();
    assert_eq!(fs_write(&mut k, 3, "1,2"), -1);
    assert_eq!(fs_write(&mut k, 3, ""), -1);
}

#[test]
fn write_to_directory_is_accepted() {
    let mut k = booted();
    let fd = fs_open(&mut k, "/tmp", "w") as u32;
    assert_eq!(fs_write(&mut k, fd, "104,105"), 2);
    assert_eq!(fs_cat(&k, "/tmp"), "hi");
    assert_eq!(fs_exists(&k, "/tmp"), 1);
}

#[test]
fn close_fails_on_closed_and_on_unopened_handles() {
    let mut k = booted();
    assert_eq!(fs_close(&mut k, 3), -1);
    assert_eq!(fs_close(&mut k, 0), -1);
    let fd = fs_open(&mut k, "/tmp", "r") as u32;
    assert_eq!(fs_close(&mut k, fd), 0);
    assert_eq!(fs_close(&mut k, fd), -1);
    assert_eq!(fs_read(&mut k, fd, 1), "");
    assert_eq!(fs_write(&mut k, fd, "1"), -1);
}

#[test]
fn closed_handles_are_not_handed_out_again() {
    let mut k = booted();
    let a = fs_open(&mut k, "/tmp", "r");
    assert_eq!(fs_close(&mut k, a as u32), 0);
    let b = fs_open(&mut k, "/tmp", "r");
    assert_eq!(b, a + 1);
    assert_eq!(fs_close(&mut k, a as u32), -1);
}

#[test]
fn closing_keeps_the_content() {
    let mut k = booted();
    assert_eq!(fs_create(&mut k, "/tmp/f", false), 0);
    let fd = fs_open(&mut k, "/tmp/f", "w") as u32;
    assert_eq!(fs_write(&mut k, fd, "79,75"), 2);
    assert_eq!(fs_close(&mut k, fd), 0);
    assert_eq!(fs_cat(&k, "/tmp/f"), "OK");
    assert_eq!(fs_exists(&k, "/tmp/f"), 0);
}

#[test]
fn cat_decodes_utf8() {
    let mut k = booted();
    assert_eq!(fs_create(&mut k, "/tmp/f", false), 0);
    let fd = fs_open(&mut k, "/tmp/f", "w") as u32;
    assert_eq!(fs_write(&mut k, fd, "195,169,226,130,172,240,159,152,128"), 9);
    assert_eq!(fs_cat(&k, "/tmp/f"), "\u{e9}\u{20ac}\u{1f600}");
}

#[test]
fn cat_of_empty_file_is_empty() {
    let mut k = booted();
    assert_eq!(fs_create(&mut k, "/tmp/f", false), 0);
    assert_eq!(fs_cat(&k, "/tmp/f"), "");
    assert_eq!(fs_cat(&k, "/"), "");
}

#[test]
fn cat_reports_invalid_utf8() {
    let mut k = booted();
    assert_eq!(fs_create(&mut k, "/tmp/f", false), 0);
    let fd = fs_open(&mut k, "/tmp/f", "w") as u32;
    assert_eq!(fs_write(&mut k, fd, "72,255"), 2);
    assert_eq!(fs_cat(&k, "/tmp/f"), "Error: File content is not valid UTF-8");
}

#[test]
fn cat_reports_truncated_and_overlong_utf8() {
    let mut k = booted();
    assert_eq!(fs_create(&mut k, "/tmp/a", false), 0);
    let a = fs_open(&mut k, "/tmp/a", "w") as u32;
    assert_eq!(fs_write(&mut k, a, "195"), 1);
    assert_eq!(fs_cat(&k, "/tmp/a"), "Error: File content is not valid UTF-8");
    assert_eq!(fs_create(&mut k, "/tmp/b", false), 0);
    let b = fs_open(&mut k, "/tmp/b", "w") as u32;
    assert_eq!(fs_write(&mut k, b, "192,128"), 2);
    assert_eq!(fs_cat(&k, "/tmp/b"), "Error: File content is not valid UTF-8");
    assert_eq!(fs_create(&mut k, "/tmp/c", false), 0);
    let c = fs_open(&mut k, "/tmp/c", "w") as u32;
    assert_eq!(fs_write(&mut k, c, "237,160,128"), 3);
    assert_eq!(fs_cat(&k, "/tmp/c"), "Error: File content is not valid UTF-8");
}

#[test]
fn cat_names_the_missing_component() {
    let k = booted();
    assert_eq!(fs_cat(&k, "/nope"), "Error: Path component not found: nope");
    assert_eq!(fs_cat(&k, "/home/a/b"), "Error: Path component not found: a");
    assert_eq!(fs_cat(&k, "//home//x y//"), "Error: Path component not found: x y");
}

#[test]
fn uptime_is_zero_before_boot() {
    let mut k = Kernel::new();
    assert_eq!(get_uptime(&k), 0);
    update_time(&mut k, 5000);
    assert_eq!(get_uptime(&k), 0);
}

#[test]
fn uptime_counts_from_boot() {
    let mut k = Kernel::new();
    boot(&mut k, 1000);
    assert_eq!(get_uptime(&k), 0);
    update_time(&mut k, 4500);
    assert_eq!(get_uptime(&k), 3500);
}

#[test]
fn uptime_is_zero_when_the_clock_goes_back() {
    let mut k = Kernel::new();
    boot(&mut k, 1000);
    update_time(&mut k, 999);
    assert_eq!(get_uptime(&k), 0);
}

#[test]
fn boot_again_restarts_the_clock_and_recreates_directories() {
    let mut k = booted();
    assert_eq!(fs_create(&mut k, "/home/f", false), 0);
    update_time(&mut k, 700);
    boot(&mut k, 1000);
    assert_eq!(get_uptime(&k), 0);
    assert_eq!(fs_exists(&k, "/home"), 1);
    assert_eq!(fs_exists(&k, "/home/f"), -1);
    assert_eq!(k.next_inode_id(), 10);
}

#[test]
fn spawn_hands_out_pids_in_order() {
    let mut k = Kernel::new();
    assert_eq!(process_spawn(&mut k, 0), 1);
    assert_eq!(process_spawn(&mut k, 1), 2);
    assert_eq!(process_spawn(&mut k, 77), 3);
    assert_eq!(k.next_pid(), 4);
}

#[test]
fn uname_names_the_system() {
    assert_eq!(uname(), "BrowserOS v0.2 (wasm32-unknown-unknown)");
}

#[test]
fn help_lists_the_commands() {
    let text = help();
    assert!(text.starts_with("=== BrowserOS Shell ===\nFILESYSTEM COMMANDS:\n  ls [path]          - List directory contents\n"));
    assert!(text.contains("PROCESS COMMANDS:\n  ps                 - List processes\n  \nTIPS:\n"));
    assert!(text.ends_with("  - Use '>' for redirection: echo hello > /tmp/test.txt\n"));
    assert_eq!(text.len(), 605);
    assert_eq!(text.lines().count(), 20);
}

#[test]
fn command_help_and_uname_and_clear() {
    let k = booted();
    assert_eq!(handle_command(&k, "help"), help());
    assert_eq!(handle_command(&k, "  help\n"), help());
    assert_eq!(handle_command(&k, "uname"), uname());
    assert_eq!(handle_command(&k, "\tuname "), uname());
    assert_eq!(handle_command(&k, "clear"), "");
    assert_eq!(handle_command(&k, "\u{3000}clear\u{a0}"), "");
}

#[test]
fn command_uptime_in_hours_minutes_seconds() {
    let mut k = Kernel::new();
    assert_eq!(handle_command(&k, "uptime"), "Uptime: 0h 0m 0s");
    boot(&mut k, 1000);
    update_time(&mut k, 1000 + 3_725_999);
    assert_eq!(handle_command(&k, "uptime"), "Uptime: 1h 2m 5s");
    update_time(&mut k, 1000 + 360_000_000);
    assert_eq!(handle_command(&k, " uptime "), "Uptime: 100h 0m 0s");
    update_time(&mut k, u64::MAX);
    assert_eq!(handle_command(&k, "uptime"), "Uptime: 5124095576030h 25m 50s");
}

#[test]
fn command_unknown_is_reported_as_typed() {
    let k = booted();
    assert_eq!(handle_command(&k, "ls"), "Command not found: ls");
    assert_eq!(handle_command(&k, "  ls /tmp "), "Command not found:   ls /tmp ");
    assert_eq!(handle_command(&k, ""), "Command not found: ");
    assert_eq!(handle_command(&k, "Help"), "Command not found: Help");
    assert_eq!(handle_command(&k, "help me"), "Command not found: help me");
}

#[test]
fn kernels_are_independent() {
    let mut a = booted();
    let b = booted();
    assert_eq!(fs_create(&mut a, "/tmp/only_a", false), 0);
    assert_eq!(fs_exists(&a, "/tmp/only_a"), 0);
    assert_eq!(fs_exists(&b, "/tmp/only_a"), -1);
}

#[test]
fn split_path_parts_parent_and_name() {
    assert_eq!(
        split_path("/home/user/file.txt"),
        Ok((vec!["home".to_string(), "user".to_string()], "file.txt".to_string()))
    );
    assert_eq!(split_path("notes"), Ok((vec![], "notes".to_string())));
    assert_eq!(split_path("//a//b//"), Ok((vec!["a".to_string()], "b".to_string())));
    assert_eq!(split_path(""), Err(FsError::InvalidInput));
    assert_eq!(split_path("/"), Err(FsError::InvalidInput));
    assert_eq!(split_path("///"), Err(FsError::InvalidInput));
}

#[test]
fn split_path_agrees_with_trimming_and_cutting_at_the_last_slash() {
    let samples = [
        "", "/", "//", "a", "/a", "a/", "/a/", "a/b", "/a/b", "a//b", "//a//b//", "/a/b/c", "a/b/c/",
        "/home/user/file.txt", " / ", "/a b/c d", "a/./..", "\u{e9}/\u{20ac}",
    ];
    for s in samples {
        let trimmed = s.trim_matches('/');
        let want = if trimmed.is_empty() {
            None
        } else if let Some(at) = trimmed.rfind('/') {
            let parents: Vec<String> = trimmed[..at]
                .split('/')
                .filter(|p| !p.is_empty())
                .map(|p| p.to_string())
                .collect();
            Some((parents, trimmed[at + 1..].to_string()))
        } else {
            Some((vec![], trimmed.to_string()))
        };
        assert_eq!(split_path(s).ok(), want);
    }
}
