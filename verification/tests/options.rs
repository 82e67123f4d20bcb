use smb::options::{
    declared_tokens, drop_credentials, kind_of, mount_options, mount_options_of, tokenize,
    OptionKind,
};
use smb::{
    render_smb_options, validate_smb_options, validate_tokens, OptionToken, SecretRef,
    SmbCredentials, SmbOptions, StorageError, StorageMountSpec, SMB_VERSIONS,
};

const SECRET_PATH: &str = "/etc/orca/secret-files/mnt_media.secret";

fn smb_spec(options: Option<&str>, credential: Option<&str>) -> StorageMountSpec {
    StorageMountSpec {
        backend: "smb".into(),
        target: "/mnt/media".into(),
        fstype: "cifs".into(),
        source: "//nas/media".into(),
        failover_sources: vec![],
        options: options.map(str::to_string),
        credential: credential.map(|s| SecretRef(s.to_string())),
        remount_policy: None,
        enabled: true,
    }
}

fn render(spec: &StorageMountSpec) -> String {
    let o = validate_smb_options(spec).expect("valid spec");
    render_smb_options(&o, SECRET_PATH)
}

fn refusal(options: &str, credential: Option<&str>) -> String {
    match validate_smb_options(&smb_spec(Some(options), credential)) {
        Err(StorageError::Other(m)) => m,
        other => panic!("expected a refusal, got {other:?}"),
    }
}

#[test]
fn validate_accepts_each_supported_vers() {
    for v in SMB_VERSIONS {
        let spec = smb_spec(Some(&format!("vers={v},guest")), None);
        let set = validate_smb_options(&spec).expect("supported vers accepted");
        assert_eq!(set.vers.as_deref(), Some(v));
    }
}

#[test]
fn validate_rejects_bad_vers() {
    let spec = smb_spec(Some("vers=9.9,guest"), None);
    let err = validate_smb_options(&spec).expect_err("bad vers rejected");
    assert!(err.to_string().contains("unsupported vers"), "got: {err:?}");
}

#[test]
fn validate_accepts_guest() {
    let spec = smb_spec(Some("vers=3.0,guest"), None);
    let set = validate_smb_options(&spec).expect("guest accepted");
    assert!(matches!(set.credentials, SmbCredentials::Guest));
}

#[test]
fn validate_accepts_file_credentials() {
    let spec = smb_spec(Some("vers=3.1.1,credentials=/etc/smb.creds,uid=1000"), None);
    let set = validate_smb_options(&spec).expect("file creds accepted");
    match set.credentials {
        SmbCredentials::File { path } => {
            assert_eq!(path, "/etc/smb.creds");
            assert_eq!(set.uid.as_deref(), Some("1000"));
        }
        other => panic!("expected File credentials, got {other:?}"),
    }
}

#[test]
fn validate_accepts_inline_with_secret_ref() {
    let spec = smb_spec(
        Some("vers=3.0,username=svc,domain=WORKGROUP"),
        Some("onepassword://vault/item"),
    );
    let set = validate_smb_options(&spec).expect("inline creds accepted");
    match set.credentials {
        SmbCredentials::Inline {
            username,
            password,
            domain,
        } => {
            assert_eq!(username, "svc");
            assert_eq!(password, SecretRef("onepassword://vault/item".into()));
            assert_eq!(domain.as_deref(), Some("WORKGROUP"));
        }
        other => panic!("expected Inline credentials, got {other:?}"),
    }
}

#[test]
fn validate_defaults_to_guest_when_nothing_declared() {
    let spec = smb_spec(Some("vers=3.0,uid=1000"), None);
    let set = validate_smb_options(&spec).expect("defaults to guest");
    assert!(matches!(set.credentials, SmbCredentials::Guest));
}

#[test]
fn validate_rejects_inline_without_secret_ref() {
    let spec = smb_spec(Some("username=svc"), None);
    let err = validate_smb_options(&spec).expect_err("inline w/o secret rejected");
    assert!(err.to_string().contains("SecretRef"), "got: {err:?}");
}

#[test]
fn validate_rejects_inline_plaintext_password() {
    let spec = smb_spec(Some("username=svc,password=hunter2"), Some("secret://x"));
    let err = validate_smb_options(&spec).expect_err("inline password rejected");
    assert!(err.to_string().contains("password"), "got: {err:?}");
}

#[test]
fn validate_rejects_conflicting_guest_and_file() {
    let spec = smb_spec(Some("guest,credentials=/etc/smb.creds"), None);
    let err = validate_smb_options(&spec).expect_err("guest+file rejected");
    assert!(err.to_string().contains("mutually exclusive"), "got: {err:?}");
}

#[test]
fn validate_rejects_conflicting_file_and_inline() {
    let spec = smb_spec(
        Some("credentials=/etc/smb.creds,username=svc"),
        Some("secret://x"),
    );
    let err = validate_smb_options(&spec).expect_err("file+inline rejected");
    assert!(err.to_string().contains("mutually exclusive"), "got: {err:?}");
}

#[test]
fn validate_preserves_unknown_options_in_extra() {
    let spec = smb_spec(Some("guest,seal,cache=strict"), None);
    let set = validate_smb_options(&spec).expect("passthrough accepted");
    assert!(set.extra.contains(&"seal".to_string()));
    assert!(set.extra.contains(&"cache=strict".to_string()));
}

#[test]
fn render_file_credentials_references_the_path() {
    let rendered = render(&smb_spec(
        Some("vers=3.0,credentials=/etc/smb.creds,uid=1000,noperm"),
        None,
    ));
    assert_eq!(
        rendered,
        "vers=3.0,credentials=/etc/smb.creds,uid=1000,noperm"
    );
}

#[test]
fn render_guest_emits_guest() {
    assert_eq!(
        render(&smb_spec(Some("vers=3.1.1,guest"), None)),
        "vers=3.1.1,guest"
    );
}

#[test]
fn render_inline_references_creds_file_never_plaintext() {
    let secret = "onepassword://vault/smb-svc";
    let rendered = render(&smb_spec(
        Some("vers=3.0,username=svc,domain=WORKGROUP,uid=1000"),
        Some(secret),
    ));

    assert!(
        rendered.contains(&format!("credentials={}", SECRET_PATH)),
        "expected secret-file reference, got: {rendered}"
    );
    assert!(!rendered.contains("password="), "no inline password=");
    assert!(!rendered.contains("username="), "no inline username=");
    assert!(!rendered.contains("user="), "no inline user=");
    assert!(!rendered.contains("domain="), "no inline domain=");
    assert!(!rendered.contains(secret), "secret ref must not render");
    assert!(!rendered.contains("onepassword"), "no secret scheme leak");
    assert!(rendered.contains("vers=3.0"));
    assert!(rendered.contains("uid=1000"));
}

#[test]
fn tokens_are_cut_at_commas_and_at_the_first_equals_sign() {
    let token = |key: &str, value: Option<&str>| OptionToken {
        key: key.to_string(),
        value: value.map(str::to_string),
    };
    assert_eq!(tokenize(""), vec![]);
    assert_eq!(tokenize(",,"), vec![]);
    assert_eq!(
        tokenize("guest,,path=/a=b,empty=,=v"),
        vec![
            token("guest", None),
            token("path", Some("/a=b")),
            token("empty", Some("")),
            token("", Some("v")),
        ]
    );
}

#[test]
fn kinds_of_tokens_depend_on_key_and_value() {
    let kind = |raw: &str| kind_of(&tokenize(raw)[0]);
    assert_eq!(kind("vers=3.0"), OptionKind::Vers);
    assert_eq!(kind("vers"), OptionKind::Extra);
    assert_eq!(kind("credentials=/c"), OptionKind::CredentialsFile);
    assert_eq!(kind("cred=/c"), OptionKind::CredentialsFile);
    assert_eq!(kind("guest"), OptionKind::Guest);
    assert_eq!(kind("guest=1"), OptionKind::Extra);
    assert_eq!(kind("username=u"), OptionKind::Username);
    assert_eq!(kind("user=u"), OptionKind::Username);
    assert_eq!(kind("user"), OptionKind::Extra);
    assert_eq!(kind("domain=d"), OptionKind::Domain);
    assert_eq!(kind("dom=d"), OptionKind::Domain);
    assert_eq!(kind("password=p"), OptionKind::Password);
    assert_eq!(kind("password"), OptionKind::Password);
    assert_eq!(kind("pass=p"), OptionKind::Password);
    assert_eq!(kind("uid=1"), OptionKind::Uid);
    assert_eq!(kind("gid=1"), OptionKind::Gid);
    assert_eq!(kind("iocharset=utf8"), OptionKind::Iocharset);
    assert_eq!(kind("noperm"), OptionKind::Noperm);
    assert_eq!(kind("seal"), OptionKind::Extra);
}

#[test]
fn all_options_are_read() {
    let spec = smb_spec(
        Some("gid=3,seal,uid=2,iocharset=utf8,noperm,cache=strict,vers=2.1"),
        None,
    );
    assert_eq!(
        validate_smb_options(&spec),
        Ok(SmbOptions {
            vers: Some("2.1".into()),
            credentials: SmbCredentials::Guest,
            uid: Some("2".into()),
            gid: Some("3".into()),
            iocharset: Some("utf8".into()),
            noperm: true,
            extra: vec!["seal".into(), "cache=strict".into()],
        })
    );
    assert_eq!(
        render(&spec),
        "vers=2.1,guest,uid=2,gid=3,iocharset=utf8,noperm,seal,cache=strict"
    );
}

#[test]
fn no_option_string_is_an_anonymous_mount() {
    assert_eq!(render(&smb_spec(None, None)), "guest");
    assert_eq!(render(&smb_spec(Some(""), Some("secret://x"))), "guest");
}

#[test]
fn a_later_option_overrides_an_earlier_one() {
    assert_eq!(
        render(&smb_spec(Some("uid=1,vers=2.0,uid=2,vers=3.0"), None)),
        "vers=3.0,guest,uid=2"
    );
}

#[test]
fn a_domain_without_a_username_is_refused() {
    for raw in [
        "domain=W",
        "dom=W",
        "guest,domain=WORKGROUP",
        "credentials=/x,domain=W",
    ] {
        for credential in [None, Some("secret://x")] {
            assert_eq!(
                refusal(raw, credential),
                "smb: `domain=` is only valid alongside `username=`"
            );
        }
    }
    assert_eq!(
        refusal("guest,credentials=/x,domain=W", None),
        "smb: `guest` and `credentials=` are mutually exclusive"
    );
    assert_eq!(
        render(&smb_spec(Some("username=u,domain=W"), Some("secret://x"))),
        format!("credentials={SECRET_PATH}")
    );
}

#[test]
fn refusals_say_why() {
    assert_eq!(
        refusal("vers=1.0", None),
        "smb: unsupported vers `1.0` (accepted: 2.0, 2.1, 3.0, 3.1.1)"
    );
    assert_eq!(
        refusal("pass", None),
        "smb: inline `password=` is not allowed in the option string; supply the password as a credential SecretRef"
    );
    assert_eq!(
        refusal("guest,cred=/c", None),
        "smb: `guest` and `credentials=` are mutually exclusive"
    );
    assert_eq!(
        refusal("cred=/c,user=u", Some("s")),
        "smb: `credentials=` (file) and `username=` (inline) are mutually exclusive"
    );
    assert_eq!(
        refusal("guest,user=u", Some("s")),
        "smb: `guest` and `username=` are mutually exclusive"
    );
    assert_eq!(
        refusal("user=u", None),
        "smb: inline `username=` requires a credential SecretRef for the password"
    );
}

#[test]
fn the_first_refused_option_decides() {
    assert!(refusal("vers=9,password=x", None).contains("unsupported vers `9`"));
    assert!(refusal("password=x,vers=9", None).contains("password"));
    assert!(refusal("vers=9,vers=3.0", None).contains("unsupported vers `9`"));
}

#[test]
fn rendered_options_declare_themselves() {
    for (raw, credential) in [
        ("vers=3.0,guest,uid=1", None),
        ("seal,credentials=/etc/smb.creds,noperm,cache=strict", None),
        ("username=svc,domain=W,gid=5,seal", Some("secret://x")),
    ] {
        let once = render(&smb_spec(Some(raw), credential));
        assert_eq!(render(&smb_spec(Some(&once), credential)), once);
        assert_eq!(render(&smb_spec(Some(&once), None)), once);
    }
}

#[test]
fn inline_credentials_render_alike() {
    let a = render(&smb_spec(Some("username=a,domain=X,uid=1"), Some("secret://a")));
    let b = render(&smb_spec(Some("user=b,uid=1"), Some("secret://b")));
    assert_eq!(a, b);
}

#[test]
fn unknown_options_come_last_and_in_order() {
    assert_eq!(
        render(&smb_spec(Some("z=1,a,vers=3.0,m=,uid=7"), None)),
        "vers=3.0,guest,uid=7,z=1,a,m="
    );
}

#[test]
fn refused_options_are_passed_on_without_credentials() {
    let secret = SecretRef("secret://x".to_string());
    assert_eq!(
        mount_options("username=svc,password=hunter2,vers=3.0,seal", Some(&secret), "/s"),
        "vers=3.0,seal"
    );
    assert_eq!(mount_options("user=svc,dom=W", None, "/s"), "");
    assert_eq!(mount_options("guest,domain=W,uid=1", None, "/s"), "guest,uid=1");
    assert_eq!(mount_options("vers=9.9,,guest", None, "/s"), "vers=9.9,,guest");
    assert_eq!(mount_options("uid=1,user=svc", Some(&secret), "/s"), "credentials=/s,uid=1");
}

#[test]
fn dropping_credentials_keeps_the_rest() {
    let drop = |raw: &str| drop_credentials(raw, &tokenize(raw));
    assert_eq!(drop("a,,b=1"), "a,,b=1");
    assert_eq!(drop("a,,user=u,b=1,pass"), "a,b=1");
}

#[test]
fn a_reading_that_is_handed_over_decides() {
    let token = |key: &str, value: Option<&str>| OptionToken {
        key: key.to_string(),
        value: value.map(str::to_string),
    };
    let raw = "guest, password=hunter2, seal";
    let trimmed = vec![
        token("guest", None),
        token("password", Some("hunter2")),
        token("seal", None),
    ];
    assert_eq!(
        validate_tokens(&trimmed, None),
        Err(StorageError::Other(
            "smb: inline `password=` is not allowed in the option string; supply the password as a credential SecretRef"
                .into()
        ))
    );
    assert_eq!(mount_options_of(raw, &trimmed, None, "/s"), "guest,seal");
    let refused = vec![token("vers", Some("9"))];
    assert_eq!(mount_options_of(" vers=9", &refused, None, "/s"), " vers=9");
    assert_eq!(
        mount_options_of("vers=3.0, uid=1", &tokenize("vers=3.0,uid=1"), None, "/s"),
        "vers=3.0,guest,uid=1"
    );
}

#[test]
fn a_declaration_without_options_has_no_tokens() {
    assert_eq!(declared_tokens(&None), vec![]);
    assert_eq!(
        declared_tokens(&Some("uid=1".into())),
        vec![OptionToken {
            key: "uid".into(),
            value: Some("1".into())
        }]
    );
}
