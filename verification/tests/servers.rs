use theseus::servers::resize_console_size;
use theseus::error::ErrorKind;
use theseus::server_logs::ExitReason;
use theseus::servers::{
    check_console_input, command_bytes, console_size, decode_console_input, eula_accepted_in,
    find_forge_jar, forge_args_file_launch_args, jar_launch_args, judge_server_exit,
    launch_settings, server_jvm_args, uses_pty_transport, ServerSlots, DEFAULT_MEMORY_MB,
};

#[test]
fn selects_pty_only_for_forge() {
    assert!(uses_pty_transport("forge"));
    assert!(!uses_pty_transport("vanilla"));
    assert!(!uses_pty_transport("fabric"));
    assert!(!uses_pty_transport("neoforge"));
}

#[test]
fn whole_line_commands_end_with_one_newline() {
    assert_eq!(command_bytes("say hello"), b"say hello\n");
}

#[test]
fn command_bytes_keep_utf8() {
    assert_eq!(command_bytes("\u{e9}"), vec![0xc3, 0xa9, b'\n']);
    assert_eq!(command_bytes(""), b"\n");
}

#[test]
fn a_server_cannot_be_started_twice() {
    let mut slots = ServerSlots::new();
    assert!(!slots.is_running("alpha"));
    assert!(slots.begin_start("alpha").is_ok());
    match slots.begin_start("alpha") {
        Err(ErrorKind::InputError(m)) => assert_eq!(m, "Server is already running"),
        other => panic!("unexpected {other:?}"),
    }
    assert!(slots.begin_start("beta").is_ok());
    slots.finish_start("alpha", true);
    assert!(slots.is_running("alpha"));
    assert!(slots.begin_start("alpha").is_err());
    slots.finish_start("beta", false);
    assert!(!slots.is_running("beta"));
    assert!(slots.begin_start("beta").is_ok());
    slots.mark_exited("alpha");
    assert!(!slots.is_running("alpha"));
    assert!(slots.begin_start("alpha").is_ok());
}

#[test]
fn console_sizes_are_clamped() {
    assert_eq!(console_size(10, 2), (20, 4));
    assert_eq!(console_size(900, 9000), (500, 8192));
    assert_eq!(console_size(120, 40), (120, 40));
}

#[test]
fn console_input_is_decoded_and_bounded() {
    assert_eq!(decode_console_input("G1tECX8=").unwrap(), b"\x1b[D\t\x7f");
    match decode_console_input("not base64!") {
        Err(ErrorKind::InputError(m)) => assert!(m.starts_with("Invalid console input: ")),
        other => panic!("unexpected {other:?}"),
    }
    match check_console_input(Ok(vec![0u8; 65537])) {
        Err(ErrorKind::InputError(m)) => assert_eq!(m, "Console input exceeds 64 KiB"),
        other => panic!("unexpected {other:?}"),
    }
    assert_eq!(check_console_input(Ok(vec![7u8; 65536])).unwrap().len(), 65536);
    match check_console_input(Err("bad".to_string())) {
        Err(ErrorKind::InputError(m)) => assert_eq!(m, "Invalid console input: bad"),
        other => panic!("unexpected {other:?}"),
    }
}

#[test]
fn launch_settings_fall_back_in_order() {
    assert_eq!(launch_settings(None, None, None, None), ("java".to_string(), DEFAULT_MEMORY_MB));
    assert_eq!(
        launch_settings(None, Some(4096), Some("/jdk/bin/java".to_string()), Some(1024)),
        ("/jdk/bin/java".to_string(), 4096)
    );
    assert_eq!(
        launch_settings(Some("j".to_string()), None, Some("k".to_string()), Some(1024)),
        ("j".to_string(), 1024)
    );
}

#[test]
fn jvm_arguments_are_assembled_in_order() {
    let args = server_jvm_args(
        2048,
        true,
        &vec!["-XX:+UseG1GC".to_string()],
        &jar_launch_args("server.jar"),
    );
    assert_eq!(
        args,
        vec![
            "-Xmx2048M",
            "-Dorg.jline.reader.props.list-max=0",
            "-XX:+UseG1GC",
            "-jar",
            "server.jar",
            "nogui"
        ]
    );
    assert_eq!(server_jvm_args(512, false, &Vec::new(), &Vec::new()), vec!["-Xmx512M"]);
    assert_eq!(
        forge_args_file_launch_args(true, "libraries/forge/unix_args.txt"),
        vec!["@user_jvm_args.txt", "@libraries/forge/unix_args.txt", "nogui"]
    );
    assert_eq!(forge_args_file_launch_args(false, "a"), vec!["@a", "nogui"]);
}

#[test]
fn legacy_forge_jar_is_found_by_name() {
    let names = vec![
        "server.jar".to_string(),
        "forge-1.12.2-universal.txt".to_string(),
        "forge-1.12.2-universal.jar".to_string(),
        "forge-other.jar".to_string(),
    ];
    assert_eq!(find_forge_jar(&names), Some("forge-1.12.2-universal.jar".to_string()));
    assert_eq!(find_forge_jar(&["forge-.JAR".to_string()]), None);
    assert_eq!(find_forge_jar(&[]), None);
}

#[test]
fn eula_text_is_read_from_the_first_assignment() {
    assert!(eula_accepted_in("#comment\neula=true\n"));
    assert!(eula_accepted_in("eula = TRUE\r\n"));
    assert!(!eula_accepted_in("eula=false\n"));
    assert!(!eula_accepted_in("other=true\neula=true\n"));
    assert!(!eula_accepted_in("no assignment here"));
    assert!(!eula_accepted_in(""));
}

#[test]
fn server_exit_is_judged() {
    let eula = vec![
        "[main/INFO]: Starting".to_string(),
        "[main/INFO]: You need to agree to the EULA in order to run the server. Go to eula.txt for more info.".to_string(),
    ];
    assert_eq!(judge_server_exit(Some(false), false, true, &[]), (true, None));
    assert_eq!(judge_server_exit(Some(false), true, true, &eula), (false, None));
    assert_eq!(judge_server_exit(Some(true), false, true, &[]), (false, None));
    assert_eq!(judge_server_exit(None, false, true, &[]), (false, None));
    assert_eq!(judge_server_exit(Some(false), false, false, &eula), (false, Some(ExitReason::Eula)));
}

#[test]
fn console_input_errors_carry_the_decoder_message() {
    match decode_console_input("!!!!") {
        Err(ErrorKind::InputError(m)) => assert_eq!(m, "Invalid console input: Invalid symbol 33, offset 0."),
        other => panic!("unexpected {other:?}"),
    }
}

#[test]
fn console_resizes_need_a_running_forge_terminal() {
    match resize_console_size(false, true, 80, 24) {
        Err(ErrorKind::InputError(m)) => assert_eq!(m, "Server is not running"),
        other => panic!("unexpected {other:?}"),
    }
    match resize_console_size(true, false, 80, 24) {
        Err(ErrorKind::InputError(m)) => assert_eq!(m, "Console resizing is only available for Forge servers"),
        other => panic!("unexpected {other:?}"),
    }
    assert_eq!(resize_console_size(true, true, 5, 2).unwrap(), (20, 4));
}
