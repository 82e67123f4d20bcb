use smb::options::tokenize;
use smb::recovery::{is_smb_fstype, release_command, retrigger_command, watches};
use smb::{
    build_secret_file, force_and_retrigger, list_mounts, recover_stale_mounts, render_creds_file,
    secret_to_resolve, validate_smb_options, Capability, Health, MountEntry, MountStyle,
    NormalizedSpec, OptionSet, RecoverAction, RecoverOutcome, ReleaseRun, ReleaseState,
    ReleaseStep, SecretContext, SecretFile, SecretRef, SmbBackend, SmbError, StorageError,
    StorageKind, StorageMountSpec, StorageShare, ToolAttempt, SMB_FSTYPES,
};

fn smb_spec(options: Option<&str>, credential: Option<&str>) -> StorageMountSpec {
    StorageMountSpec {
        backend: "smb".into(),
        target: "/mnt/media".into(),
        fstype: "cifs".into(),
        source: "//nas/media".into(),
        failover_sources: vec![],
        options: options.map(str::to_string),
        credential: credential.map(|s| SecretRef(s.to_string())),
        remount_policy: None,
        enabled: true,
    }
}

fn secret(plaintext: Option<&str>) -> SecretContext {
    SecretContext {
        path: "/etc/orca/secret-files/mnt_media.secret".into(),
        path_allowed: true,
        plaintext: plaintext.map(str::to_string),
    }
}

fn entry(mountpoint: &str, fstype: &str) -> MountEntry {
    MountEntry {
        source: format!("//nas{mountpoint}"),
        mountpoint: mountpoint.into(),
        fstype: fstype.into(),
    }
}

fn strings(texts: &[&str]) -> Vec<String> {
    texts.iter().map(|s| s.to_string()).collect()
}

#[test]
fn list_mounts_filters_to_smb_fstypes() {
    let table = vec![
        entry("/a", "cifs"),
        entry("/b", "ext4"),
        entry("/c", "smb3"),
        entry("/d", "nfs4"),
        entry("/e", "smbfs"),
    ];
    let mounts = list_mounts(Ok(table)).expect("mount table readable");
    assert!(mounts
        .iter()
        .all(|m| SMB_FSTYPES.contains(&m.fstype.as_str())));
    assert_eq!(
        mounts,
        vec![entry("/a", "cifs"), entry("/c", "smb3"), entry("/e", "smbfs")]
    );
    assert!(is_smb_fstype("cifs") && !is_smb_fstype("cifs2"));
    assert_eq!(
        list_mounts(Err("denied".into())),
        Err(SmbError::Io("denied".into()))
    );
}

#[test]
fn validate_spec_backend_method_normalizes_to_raw() {
    let backend = SmbBackend::new("smb");
    let spec = smb_spec(Some("vers=3.0,guest,uid=1000"), None);
    let normalized = backend.validate_spec(&spec, &secret(None)).expect("validate");
    assert_eq!(
        normalized.options,
        OptionSet::Raw {
            options: Some("vers=3.0,guest,uid=1000".into())
        }
    );
    assert!(normalized.secret_file.is_none(), "guest has no secret-file");
    assert_eq!(
        backend.render_options(&normalized, &secret(None).path),
        "vers=3.0,guest,uid=1000"
    );
}

#[test]
fn validate_spec_backend_method_rejects_bad_vers() {
    let backend = SmbBackend::new("smb");
    let spec = smb_spec(Some("vers=1.5,guest"), None);
    assert!(backend.validate_spec(&spec, &secret(None)).is_err());
}

#[test]
fn validate_spec_keeps_the_declaration_and_builds_the_secret_file() {
    let backend = SmbBackend::default();
    let mut spec = smb_spec(Some("username=svc,uid=1"), Some("secret://x"));
    spec.failover_sources = strings(&["//replica/media"]);
    spec.remount_policy = Some("on-stale".into());
    spec.enabled = false;
    let normalized = backend.validate_spec(&spec, &secret(Some("hunter2"))).unwrap();
    let path = "/etc/orca/secret-files/mnt_media.secret";
    let rendered = format!("credentials={path},uid=1");
    assert_eq!(
        normalized,
        NormalizedSpec {
            backend: "smb".into(),
            target: "/mnt/media".into(),
            fstype: "cifs".into(),
            source: "//nas/media".into(),
            failover_sources: strings(&["//replica/media"]),
            options: OptionSet::Raw {
                options: Some(rendered.clone())
            },
            credential: Some(SecretRef("secret://x".into())),
            secret_file: Some(SecretFile {
                path: path.into(),
                contents: "username=svc\npassword=hunter2\n".into(),
            }),
            remount_policy: Some("on-stale".into()),
            enabled: false,
        }
    );
    assert_eq!(backend.render_options(&normalized, path), rendered);
}

#[test]
fn render_options_never_spells_out_a_credential() {
    let backend = SmbBackend::default();
    let mut normalized = backend
        .validate_spec(&smb_spec(None, Some("secret://x")), &secret(None))
        .unwrap();
    normalized.options = OptionSet::Raw {
        options: Some("username=svc,vers=3.0".into()),
    };
    assert_eq!(
        backend.render_options(&normalized, "/s"),
        "vers=3.0,credentials=/s"
    );
    normalized.options = OptionSet::Raw {
        options: Some("username=svc,password=hunter2,vers=3.0".into()),
    };
    assert_eq!(backend.render_options(&normalized, "/s"), "vers=3.0");
    normalized.options = OptionSet::Raw { options: None };
    assert_eq!(backend.render_options(&normalized, "/s"), "guest");
}

#[test]
fn the_declared_and_the_rendered_string_render_alike() {
    let backend = SmbBackend::default();
    for (raw, credential) in [
        ("uid=1,guest,seal,vers=2.1", None),
        ("seal,credentials=/etc/smb.creds", None),
        ("uid=1,username=svc,domain=W", Some("secret://x")),
    ] {
        let spec = smb_spec(Some(raw), credential);
        let rendered = backend.validate_spec(&spec, &secret(Some("pw"))).unwrap();
        let mut declared = rendered.clone();
        declared.options = OptionSet::Raw {
            options: spec.options.clone(),
        };
        let path = secret(None).path;
        assert_eq!(
            backend.render_options(&declared, &path),
            backend.render_options(&rendered, &path)
        );
    }
}

#[test]
fn the_backend_takes_a_reading_of_the_options() {
    let backend = SmbBackend::default();
    let spec = smb_spec(Some(" uid=1 , vers=3.0 "), None);
    let ts = tokenize("uid=1,vers=3.0");
    let normalized = backend
        .validate_spec_of(&spec, &ts, &secret(None))
        .unwrap();
    assert_eq!(
        normalized.options,
        OptionSet::Raw {
            options: Some("vers=3.0,guest,uid=1".into())
        }
    );
    assert!(backend
        .validate_spec_of(&spec, &tokenize("vers=1.0"), &secret(None))
        .is_err());
    let mut declared = normalized;
    declared.options = OptionSet::Raw {
        options: spec.options.clone(),
    };
    assert_eq!(
        backend.render_options_of(&declared, &ts, "/s"),
        "vers=3.0,guest,uid=1"
    );
    assert_eq!(
        backend.render_options_of(&declared, &tokenize("uid=1,pass=x"), "/s"),
        "uid=1"
    );
}

#[test]
fn creds_files_hold_one_field_per_line() {
    assert_eq!(
        render_creds_file("svc", "hunter2", None),
        "username=svc\npassword=hunter2\n"
    );
    assert_eq!(
        render_creds_file("svc", "p=a,b", Some("WORKGROUP")),
        "username=svc\npassword=p=a,b\ndomain=WORKGROUP\n"
    );
}

#[test]
fn secret_files_are_for_resolved_inline_credentials_only() {
    let options = |raw: &str| {
        validate_smb_options(&smb_spec(Some(raw), Some("secret://x"))).expect("valid options")
    };
    let inline = options("username=svc,domain=W");
    assert_eq!(
        secret_to_resolve(&inline),
        Some(SecretRef("secret://x".into()))
    );
    assert_eq!(
        build_secret_file(&inline, &secret(Some("pw"))),
        Some(SecretFile {
            path: secret(None).path,
            contents: "username=svc\npassword=pw\ndomain=W\n".into(),
        })
    );
    assert_eq!(build_secret_file(&inline, &secret(None)), None);
    let mut refused = secret(Some("pw"));
    refused.path_allowed = false;
    assert_eq!(build_secret_file(&inline, &refused), None);
    for raw in ["guest", "credentials=/c"] {
        assert_eq!(secret_to_resolve(&options(raw)), None);
        assert_eq!(build_secret_file(&options(raw), &secret(Some("pw"))), None);
    }
}

#[test]
fn mount_style_is_kernel_mount() {
    assert_eq!(SmbBackend::default().mount_style(), MountStyle::KernelMount);
}

#[test]
fn capabilities_include_recover_stale() {
    let caps = SmbBackend::default().capabilities();
    assert!(caps.contains(&Capability::RecoverStale));
    assert!(caps.contains(&Capability::List));
    assert!(caps.contains(&Capability::Unmount));
}

#[test]
fn the_backend_describes_itself() {
    let backend = SmbBackend::default();
    assert_eq!(backend.name(), "smb");
    assert_eq!(SmbBackend::new("other").name(), "other");
    assert_eq!(backend.kind(), StorageKind::NetworkShare);
    assert_eq!(backend.endpoint(), "smb://local");
    assert_eq!(backend.net_fstypes(), strings(&["cifs", "smbfs"]));
    assert_eq!(backend.default_source_port(), Some(445));
}

#[test]
fn live_mounts_are_listed_as_shares() {
    let backend = SmbBackend::default();
    assert_eq!(
        backend.list_shares(Ok(vec![entry("/a", "cifs"), entry("/b", "ext4")])),
        Ok(vec![StorageShare {
            id: "/a".into(),
            source: "//nas/a".into(),
            target: Some("/a".into()),
            fstype: "cifs".into(),
            mounted: true,
        }])
    );
    assert_eq!(
        backend.list_shares(Err("denied".into())),
        Err(StorageError::Transport("io: denied".into()))
    );
}

#[test]
fn unmount_requests_are_answered() {
    let backend = SmbBackend::default();
    let done = backend.unmount("/a", Ok(())).unwrap();
    assert_eq!(done.target, "/a");
    assert!(!done.mounted && !done.recovered && done.detail.is_none());
    assert_eq!(
        backend.unmount("/a", Err(SmbError::MissingTool("umount"))),
        Err(StorageError::Other(
            "unmount /a: required tool not found on PATH: umount".into()
        ))
    );
}

#[test]
fn recover_outcome_default_is_no_stale() {
    let o = RecoverOutcome::default();
    assert!(o.recovered.is_empty() && o.still_stale.is_empty());
}

#[test]
fn watching_respects_path_boundaries() {
    let watch = strings(&["/mnt/a", "/srv"]);
    assert!(watches(&watch, "/mnt/a"));
    assert!(watches(&watch, "/mnt/a/b"));
    assert!(watches(&watch, "/srv/x"));
    assert!(!watches(&watch, "/mnt/ab"));
    assert!(!watches(&watch, "/mnt"));
    assert!(!watches(&strings(&["/"]), "/mnt"));
    assert!(watches(&[].to_vec(), "/anything"));
}

#[test]
fn releasing_and_retriggering_is_reported() {
    let release = release_command("/mnt/a");
    assert_eq!(release.tool, "umount");
    assert_eq!(release.args, strings(&["-lf", "--", "/mnt/a"]));
    let retrigger = retrigger_command("/mnt/a");
    assert_eq!(retrigger.tool, "stat");
    assert_eq!(retrigger.args, strings(&["--", "/mnt/a"]));
    assert_eq!(
        force_and_retrigger(
            "/a",
            &ToolAttempt::Succeeded,
            &ToolAttempt::Succeeded,
            Health::Healthy
        ),
        (true, vec![])
    );
    assert_eq!(
        force_and_retrigger(
            "/a",
            &ToolAttempt::NotFound,
            &ToolAttempt::NotFound,
            Health::Missing
        ),
        (false, strings(&["release: umount not found on PATH"]))
    );
    assert_eq!(
        force_and_retrigger(
            "/a",
            &ToolAttempt::Failed(SmbError::Unsupported),
            &ToolAttempt::Failed(SmbError::Io("x".into())),
            Health::Healthy
        ),
        (
            true,
            strings(&[
                "release /a: unsupported on this platform",
                "retrigger /a: io: x"
            ])
        )
    );
}

#[test]
fn a_release_is_followed_by_an_access_and_one_probe() {
    for release in [
        ToolAttempt::NotFound,
        ToolAttempt::Succeeded,
        ToolAttempt::Failed(SmbError::Unsupported),
    ] {
        let run = ReleaseRun::new("/a");
        assert_eq!(run.next_step(), ReleaseStep::Release(release_command("/a")));
        let run = run.on_probe(Health::Healthy);
        assert_eq!(run.state, ReleaseState::Begun);
        let run = run.on_attempt(release.clone());
        assert_eq!(
            run.next_step(),
            ReleaseStep::Retrigger(retrigger_command("/a"))
        );
        let run = run.on_attempt(ToolAttempt::NotFound);
        assert_eq!(run.next_step(), ReleaseStep::Probe);
        let run = run.on_attempt(ToolAttempt::Succeeded).on_probe(Health::Stale);
        assert_eq!(
            run.state,
            ReleaseState::Probed {
                release: release.clone(),
                retrigger: ToolAttempt::NotFound,
                health: Health::Stale,
            }
        );
        let (recovered, errors) =
            force_and_retrigger("/a", &release, &ToolAttempt::NotFound, Health::Stale);
        assert_eq!(run.next_step(), ReleaseStep::Done(recovered, errors));
    }
    let run = ReleaseRun::new("/a")
        .on_attempt(ToolAttempt::NotFound)
        .on_attempt(ToolAttempt::Succeeded)
        .on_probe(Health::Healthy);
    assert_eq!(
        run.next_step(),
        ReleaseStep::Done(true, strings(&["release: umount not found on PATH"]))
    );
}

#[test]
fn a_recovery_pass_acts_on_dead_mounts_only() {
    let table = vec![
        entry("/m/ok", "cifs"),
        entry("/m/stale", "cifs"),
        entry("/other", "cifs"),
        entry("/m/ext", "ext4"),
        entry("/m/error", "smb3"),
        entry("/m/hung", "cifs"),
        entry("/m/gone", "smbfs"),
    ];
    let mut pass = recover_stale_mounts(Ok(table), &strings(&["/m"])).unwrap();
    let mut released = vec![];
    loop {
        match pass.next_action() {
            RecoverAction::Probe(p) => pass.on_probe(match p.as_str() {
                "/m/ok" => Health::Healthy,
                "/m/stale" => Health::Stale,
                "/m/error" => Health::Error,
                "/m/hung" => Health::Timeout,
                "/m/gone" => Health::Missing,
                _ => panic!("unwatched {p}"),
            }),
            RecoverAction::Release(p) => {
                let back = p != "/m/hung";
                let errors = if back { vec![] } else { strings(&["release failed"]) };
                released.push(p);
                pass.on_release(back, errors);
            }
            RecoverAction::Finish => break,
        }
    }
    assert_eq!(released, strings(&["/m/stale", "/m/hung", "/m/gone"]));
    assert_eq!(
        pass.finish(),
        RecoverOutcome {
            recovered: strings(&["/m/stale", "/m/gone"]),
            still_stale: strings(&["/m/hung"]),
            errors: strings(&[
                "probe /m/error: indeterminate error, left untouched",
                "release failed"
            ]),
            no_stale_found: false,
        }
    );
}

#[test]
fn a_recovery_pass_over_healthy_mounts_finds_nothing_stale() {
    let backend = SmbBackend::default();
    let mut pass = backend
        .recover_stale(Ok(vec![entry("/a", "cifs"), entry("/b", "cifs")]), &vec![])
        .unwrap();
    assert_eq!(pass.next_action(), RecoverAction::Probe("/a".into()));
    pass.on_probe(Health::Healthy);
    assert_eq!(pass.next_action(), RecoverAction::Probe("/b".into()));
    pass.on_probe(Health::Error);
    assert_eq!(pass.next_action(), RecoverAction::Finish);
    assert!(pass.finish().no_stale_found);
    match backend.recover_stale(Err("denied".into()), &vec![]) {
        Err(StorageError::Transport(m)) => assert_eq!(m, "io: denied"),
        other => panic!("expected a transport error, got {other:?}"),
    }
    assert!(matches!(
        recover_stale_mounts(Err("denied".into()), &vec![]),
        Err(SmbError::Io(_))
    ));
}
