use smb::error::timed_out;
use smb::text::{decimal_text, join_text, split_lines, split_text, trim_text};
use smb::{
    list_shares, mount, mount_tool, parse_smbclient_shares, read_shares, run_tool, unmount,
    urlencode, Credentials, MountSpec, Platform, Share, ShareKind, SmbError, TimeSpan, ToolExit,
    ToolOutput,
};

fn inline() -> Credentials {
    Credentials::Inline {
        username: "u".into(),
        password: "p".into(),
    }
}

fn spec(credentials: Credentials, extra_opts: Vec<String>) -> MountSpec<'static> {
    MountSpec {
        server: "nas",
        share: "media",
        mountpoint: "/mnt/media",
        credentials,
        extra_opts,
    }
}

#[test]
fn parse_smbclient_shares_extracts_disk_and_ipc() {
    let raw = "\
Disk|public|Public files
Disk|backup|
IPC|IPC$|IPC Service
Printer|hpoffice|HP printer
something invalid
";
    let shares = parse_smbclient_shares(raw);
    assert_eq!(shares.len(), 4);
    assert_eq!(shares[0].kind, ShareKind::Disk);
    assert_eq!(shares[0].name, "public");
    assert_eq!(shares[2].kind, ShareKind::Ipc);
    assert_eq!(shares[3].kind, ShareKind::Printer);
}

#[test]
fn parse_smbclient_shares_skips_unknown_kinds_and_short_lines() {
    let raw = "Disk|x|c\nUnknown|y|c\nDisk\n";
    let shares = parse_smbclient_shares(raw);
    assert_eq!(shares.len(), 1);
    assert_eq!(shares[0].name, "x");
}

#[test]
fn share_lines_are_read_field_by_field() {
    let share = |name: &str, kind, comment: &str| Share {
        name: name.into(),
        kind,
        comment: comment.into(),
    };
    assert_eq!(
        parse_smbclient_shares(" Disk\u{2003}| a b |c|d\r\nIPC|x\nPrinter||\r"),
        vec![
            share(" a b ", ShareKind::Disk, "c"),
            share("x", ShareKind::Ipc, ""),
            share("", ShareKind::Printer, "\r"),
        ]
    );
    assert_eq!(parse_smbclient_shares(""), vec![]);
    assert_eq!(parse_smbclient_shares("disk|x|c"), vec![]);
}

#[test]
fn listings_are_read_line_by_line() {
    let a = "Disk|a|1\nnonsense\n";
    let b = "IPC|b|2\nDisk|c";
    let mut both = parse_smbclient_shares(a);
    both.extend(parse_smbclient_shares(b));
    assert_eq!(parse_smbclient_shares(&format!("{a}{b}")), both);
}

#[test]
fn urlencode_passes_safe_chars_and_escapes_others() {
    assert_eq!(urlencode("abcXYZ012-_.~"), "abcXYZ012-_.~");
    assert_eq!(urlencode("a b"), "a%20b");
    assert_eq!(urlencode("p@ss/word"), "p%40ss%2Fword");
}

#[test]
fn urlencode_escapes_every_byte_of_a_character() {
    assert_eq!(urlencode("\u{e9}"), "%C3%A9");
    assert_eq!(urlencode("\u{20ac}:\u{1f600}"), "%E2%82%AC%3A%F0%9F%98%80");
    assert_eq!(urlencode(""), "");
}

#[test]
fn unmount_invalid_path_returns_tool_failed() {
    let mountpoint = "/nonexistent_orca_smb_unmount_test";
    let command = unmount(mountpoint, true).expect("umount found");
    assert_eq!(command.tool, "umount");
    assert_eq!(command.args, vec![mountpoint.to_string()]);
    let exit = ToolExit {
        code: Some(32),
        stderr: "no mount point specified".into(),
    };
    match run_tool(command.tool, Err(exit)) {
        Err(SmbError::ToolFailed { tool, code, stderr }) => {
            assert_eq!(tool, "umount");
            assert_eq!(code, Some(32));
            assert_eq!(stderr, "no mount point specified");
        }
        other => panic!("expected ToolFailed, got {other:?}"),
    }
    assert_eq!(run_tool("umount", Ok(())), Ok(()));
    assert_eq!(
        unmount(mountpoint, false),
        Err(SmbError::MissingTool("umount"))
    );
}

#[test]
fn list_shares_propagates_smbclient_failure_or_missing() {
    assert_eq!(
        list_shares("127.0.0.1:1", &Credentials::Guest, false),
        Err(SmbError::MissingTool("smbclient"))
    );
    let command = list_shares("127.0.0.1:1", &Credentials::Guest, true).expect("smbclient found");
    assert_eq!(command.tool, "smbclient");
    assert_eq!(command.args, vec!["-L", "//127.0.0.1:1", "-g", "-N"]);
    let failed = read_shares(Ok(ToolOutput {
        success: false,
        code: Some(1),
        stdout: b"Disk|x|c".to_vec(),
        stderr: b"refused \xff".to_vec(),
    }));
    assert_eq!(
        failed,
        Err(SmbError::ToolFailed {
            tool: "smbclient",
            code: Some(1),
            stderr: "refused \u{fffd}".into(),
        })
    );
}

#[test]
fn list_shares_passes_the_credentials() {
    let file = Credentials::File("/etc/smb.creds".into());
    assert_eq!(
        list_shares("nas", &file, true).unwrap().args,
        vec!["-L", "//nas", "-g", "-A", "/etc/smb.creds"]
    );
    assert_eq!(
        list_shares("nas", &inline(), true).unwrap().args,
        vec!["-L", "//nas", "-g", "-U", "u%p"]
    );
}

#[test]
fn smbclient_output_is_decoded() {
    let output = |stdout: &[u8]| {
        read_shares(Ok(ToolOutput {
            success: true,
            code: Some(0),
            stdout: stdout.to_vec(),
            stderr: vec![],
        }))
    };
    let shares = output("Disk|caf\u{e9}|c\n".as_bytes()).unwrap();
    assert_eq!(shares.len(), 1);
    assert_eq!(shares[0].name, "caf\u{e9}");
    assert_eq!(output(b"Disk|x|\xff\n"), Ok(vec![]));
    assert_eq!(
        read_shares(Err("broken pipe".into())),
        Err(SmbError::Io("broken pipe".into()))
    );
}

#[test]
fn smb_error_display_covers_each_variant() {
    let e = SmbError::MissingTool("mount.cifs");
    assert!(e.to_string().contains("mount.cifs"));
    let e = SmbError::ToolFailed {
        tool: "x",
        code: Some(2),
        stderr: "boom".into(),
    };
    assert!(e.to_string().contains("boom"));
    let e = SmbError::Timeout(TimeSpan::new(3, 0).unwrap());
    assert!(e.to_string().contains("timed out"));
    let e = SmbError::Unsupported;
    assert!(e.to_string().contains("unsupported"));
    let io = SmbError::Io(std::io::Error::other("x").to_string());
    assert!(io.to_string().starts_with("io:"));
}

#[test]
fn a_time_span_is_less_than_a_second_beyond_whole_seconds() {
    let t = TimeSpan::new(7, 999_999_999).unwrap();
    assert_eq!((t.as_secs(), t.subsec_nanos()), (7, 999_999_999));
    assert_eq!(TimeSpan::new(7, 1_000_000_000), None);
}

#[test]
fn smb_error_messages_are_exact() {
    assert_eq!(
        SmbError::MissingTool("umount").to_string(),
        "required tool not found on PATH: umount"
    );
    let failed = |code| SmbError::ToolFailed {
        tool: "stat",
        code,
        stderr: "boom".into(),
    };
    assert_eq!(
        failed(Some(-15)).to_string(),
        "smb tool failed: stat (exit Some(-15)): boom"
    );
    assert_eq!(
        failed(None).to_string(),
        "smb tool failed: stat (exit None): boom"
    );
    assert_eq!(SmbError::Io("x".into()).to_string(), "io: x");
    assert_eq!(
        SmbError::Timeout(TimeSpan::new(3, 0).unwrap()).to_string(),
        "operation timed out after 3s"
    );
    assert_eq!(
        SmbError::Timeout(TimeSpan::new(0, 1_500_000).unwrap()).to_string(),
        "operation timed out after 1.5ms"
    );
    assert_eq!(
        SmbError::Timeout(TimeSpan::new(u64::MAX, 0).unwrap()).to_string(),
        "operation timed out after 18446744073709551615s"
    );
    assert_eq!(timed_out("1.5ms"), "operation timed out after 1.5ms");
    assert_eq!(
        SmbError::Unsupported.to_string(),
        "unsupported on this platform"
    );
}

#[test]
fn mount_macos_with_inline_creds_runs_through_to_tool() {
    let spec = MountSpec {
        server: "127.0.0.1:1",
        share: "nope",
        mountpoint: "/mnt/nope",
        credentials: inline(),
        extra_opts: vec![],
    };
    let command = mount(&spec, Platform::MacOs, true).expect("mount_smbfs found");
    assert_eq!(command.tool, "mount_smbfs");
    assert_eq!(command.args, vec!["//u:p@127.0.0.1:1/nope", "/mnt/nope"]);
    assert_eq!(
        mount(&spec, Platform::MacOs, false),
        Err(SmbError::MissingTool("mount_smbfs"))
    );
}

#[test]
fn mount_macos_escapes_credentials_and_ignores_files() {
    let odd = Credentials::Inline {
        username: "d\\u".into(),
        password: "p@:/".into(),
    };
    assert_eq!(
        mount(&spec(odd, vec![]), Platform::MacOs, true).unwrap().args[0],
        "//d%5Cu:p%40%3A%2F@nas/media"
    );
    let file = Credentials::File("/c".into());
    assert_eq!(
        mount(&spec(file, vec![]), Platform::MacOs, true).unwrap().args[0],
        "//nas/media"
    );
}

#[test]
fn mount_linux_passes_credentials_own_session_and_extra_options() {
    let options = |credentials, extra: &[&str]| {
        let extra = extra.iter().map(|s| s.to_string()).collect();
        let command = mount(&spec(credentials, extra), Platform::Linux, true).unwrap();
        assert_eq!(command.tool, "mount.cifs");
        assert_eq!(command.args[..3], ["//nas/media", "/mnt/media", "-o"]);
        assert_eq!(command.args.len(), 4);
        command.args[3].clone()
    };
    assert_eq!(options(Credentials::Guest, &[]), "guest,nosharesock");
    assert_eq!(
        options(Credentials::File("/c".into()), &["vers=3.0", "noperm"]),
        "credentials=/c,nosharesock,vers=3.0,noperm"
    );
    assert_eq!(
        options(inline(), &["uid=1", "nosharesock"]),
        "username=u,password=p,uid=1,nosharesock"
    );
}

#[test]
fn mount_reports_missing_tools_and_platforms() {
    let s = spec(Credentials::Guest, vec![]);
    assert_eq!(
        mount(&s, Platform::Linux, false),
        Err(SmbError::MissingTool("mount.cifs"))
    );
    assert_eq!(mount(&s, Platform::Other, true), Err(SmbError::Unsupported));
    assert_eq!(mount_tool(Platform::Linux), Some("mount.cifs"));
    assert_eq!(mount_tool(Platform::MacOs), Some("mount_smbfs"));
    assert_eq!(mount_tool(Platform::Other), None);
}

#[test]
fn text_functions_agree_with_the_standard_library() {
    for s in ["", ",", "a", "a,b", ",a,,b,", "\u{e9},\u{1f600}"] {
        let expected: Vec<String> = s.split(',').map(str::to_string).collect();
        assert_eq!(split_text(s, ','), expected);
        assert_eq!(join_text(&expected, "; "), expected.join("; "));
    }
    for s in ["", "\n", "a", "a\n", "a\r\nb\n\nc\r", "\r\n\r", "a\n\n"] {
        let expected: Vec<String> = s.lines().map(str::to_string).collect();
        assert_eq!(split_lines(s), expected);
    }
    for s in ["", " ", "a", " a b\t\n", "\u{a0}x\u{3000}", "\u{200b}y\u{200b}"] {
        assert_eq!(trim_text(s), s.trim());
    }
    for n in [0, 7, 10, -1, 12345, i32::MAX, i32::MIN] {
        assert_eq!(decimal_text(n), n.to_string());
    }
}
