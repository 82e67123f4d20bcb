//! The SMB backend of the storage domain.
//!
//! It lists the host's live SMB mounts, unmounts them, owns the grammar of
//! their options and credentials, and brings back mounts whose session is
//! dead. Mounting itself is the kernel's, driven by the rendered options.
use vstd::prelude::*;
use vstd::string::*;
use crate::error::SmbError;
use crate::option_laws;
use crate::options;
use crate::options::{
    declared_tokens, mount_options_of, render_smb_options, validate_tokens, OptionToken,
};
use crate::recovery;
use crate::recovery::{list_mounts, recover_stale_mounts, MountEntry, Recovery};
use crate::secrets;
use crate::secrets::{build_secret_file, SecretContext};
use crate::storage::{
    Capability, MountOutcome, MountStyle, NormalizedSpec, OptionSet, SecretRef, StorageError,
    StorageKind, StorageMountSpec, StorageShare,
};
use crate::tool::{no_args, push_arg};

verus! {

/// The SMB/CIFS backend.
#[derive(Debug)]
pub struct SmbBackend {
    name: String,
}

impl Default for SmbBackend {
    fn default() -> (b: Self)
        ensures
            b.named() == "smb"@,
    {
        SmbBackend::new("smb")
    }
}

/// A second copy of an optional reference.
fn copy_secret(s: &Option<SecretRef>) -> (r: Option<SecretRef>)
    ensures
        r == *s,
{
    match s {
        Some(secret) => Some(secret.copied()),
        None => None,
    }
}

/// What the validation of a declared mount is answered, where its options
/// read as `declared`.
pub open spec fn answers(
    r: Result<NormalizedSpec, StorageError>,
    spec: StorageMountSpec,
    declared: Result<options::OptionsView, Seq<char>>,
    secret: SecretContext,
) -> bool {
    match declared {
        Err(message) => r matches Err(StorageError::Other(m)) && m@ == message,
        Ok(o) => {
            &&& r matches Ok(n)
            &&& n.options matches OptionSet::Raw { options: Some(s) } && s@ == options::rendered(
                o,
                secret.path@,
            )
            &&& match secrets::secret_file(o, secret) {
                Some((path, contents)) => n.secret_file matches Some(f) && f.path@ == path
                    && f.contents@ == contents,
                None => n.secret_file is None,
            }
            &&& n.backend == spec.backend
            &&& n.target == spec.target
            &&& n.fstype == spec.fstype
            &&& n.source == spec.source
            &&& n.failover_sources@ == spec.failover_sources@
            &&& n.credential == spec.credential
            &&& n.remount_policy == spec.remount_policy
            &&& n.enabled == spec.enabled
        },
    }
}

/// The share as which a live mount is listed.
pub open spec fn is_share_of(s: StorageShare, m: MountEntry) -> bool {
    &&& s.id == m.mountpoint
    &&& s.source == m.source
    &&& s.target == Some(m.mountpoint)
    &&& s.fstype == m.fstype
    &&& s.mounted
}

impl SmbBackend {
    /// The name that the backend was given.
    pub closed spec fn named(&self) -> Seq<char> {
        self.name@
    }

    /// A backend with a name.
    pub fn new(name: &str) -> (b: Self)
        ensures
            b.named() == name@,
    {
        SmbBackend { name: name.to_string() }
    }

    /// The name that the backend was given.
    pub fn name(&self) -> (s: &str)
        ensures
            s@ == self.named(),
    {
        self.name.as_str()
    }

    /// SMB mounts are network shares.
    pub fn kind(&self) -> (k: StorageKind)
        ensures
            k == StorageKind::NetworkShare,
    {
        StorageKind::NetworkShare
    }

    /// What the backend can be asked to do.
    pub fn capabilities(&self) -> (c: Vec<Capability>)
        ensures
            c@ == seq![Capability::List, Capability::Unmount, Capability::RecoverStale],
    {
        let mut c: Vec<Capability> = Vec::new();
        c.push(Capability::List);
        c.push(Capability::Unmount);
        c.push(Capability::RecoverStale);
        assert(c@ =~= seq![Capability::List, Capability::Unmount, Capability::RecoverStale]);
        c
    }

    /// The backend manages the local host's mounts.
    pub fn endpoint(&self) -> (s: String)
        ensures
            s@ == "smb://local"@,
    {
        "smb://local".to_string()
    }

    /// SMB mounts are kernel mounts.
    pub fn mount_style(&self) -> (m: MountStyle)
        ensures
            m == MountStyle::KernelMount,
    {
        MountStyle::KernelMount
    }

    /// The filesystem types that the backend owns.
    pub fn net_fstypes(&self) -> (r: Vec<String>)
        ensures
            r.deep_view() == seq!["cifs"@, "smbfs"@],
    {
        let mut r = no_args();
        push_arg(&mut r, "cifs");
        push_arg(&mut r, "smbfs");
        assert(r.deep_view() =~= seq!["cifs"@, "smbfs"@]);
        r
    }

    /// The port on which a source is probed.
    pub fn default_source_port(&self) -> (p: Option<u16>)
        ensures
            p == Some(445u16),
    {
        Some(445)
    }

    /// Validates a declared mount. The options become the canonical option
    /// string, and an inline credential gets its secret file, which is the one
    /// that the string refers to. The rest of the declaration is kept.
    pub fn validate_spec(&self, spec: &StorageMountSpec, secret: &SecretContext) -> (r: Result<
        NormalizedSpec,
        StorageError,
    >)
        ensures
            answers(
                r,
                *spec,
                options::declared(
                    options::tokens(options::declared_text(spec.options.deep_view())),
                    spec.credential.deep_view(),
                ),
                *secret,
            ),
    {
        self.validate_spec_of(spec, &declared_tokens(&spec.options), secret)
    }

    /// Validates a declared mount whose options were read as `ts`.
    pub fn validate_spec_of(
        &self,
        spec: &StorageMountSpec,
        ts: &Vec<OptionToken>,
        secret: &SecretContext,
    ) -> (r: Result<NormalizedSpec, StorageError>)
        ensures
            answers(
                r,
                *spec,
                options::declared(ts.deep_view(), spec.credential.deep_view()),
                *secret,
            ),
    {
        let o = match validate_tokens(ts, spec.credential.as_ref()) {
            Ok(o) => o,
            Err(e) => {
                return Err(e);
            },
        };
        let rendered = render_smb_options(&o, secret.path.as_str());
        let secret_file = build_secret_file(&o, secret);
        let failover_sources = spec.failover_sources.clone();
        assert(failover_sources@ =~= spec.failover_sources@);
        Ok(
            NormalizedSpec {
                backend: spec.backend.clone(),
                target: spec.target.clone(),
                fstype: spec.fstype.clone(),
                source: spec.source.clone(),
                failover_sources,
                options: OptionSet::Raw { options: Some(rendered) },
                credential: copy_secret(&spec.credential),
                secret_file,
                remount_policy: spec.remount_policy.clone(),
                enabled: spec.enabled,
            },
        )
    }

    /// The option string that a normalized mount is made with. Its options may
    /// still be as they were declared, so they are read and rendered again:
    /// whatever they hold, no inline credential is in the result.
    /// `secret_path` is where the mount's secret file goes.
    pub fn render_options(&self, spec: &NormalizedSpec, secret_path: &str) -> (s: String)
        ensures
            spec.options matches OptionSet::Raw { options } && s@ == options::mounted_with(
                options::declared_text(options.deep_view()),
                spec.credential.deep_view(),
                secret_path@,
            ),
    {
        let OptionSet::Raw { options } = &spec.options;
        self.render_options_of(spec, &declared_tokens(options), secret_path)
    }

    /// The option string that a normalized mount is made with, where its
    /// options were read as `ts`.
    pub fn render_options_of(
        &self,
        spec: &NormalizedSpec,
        ts: &Vec<OptionToken>,
        secret_path: &str,
    ) -> (s: String)
        ensures
            spec.options matches OptionSet::Raw { options } && s@ == options::mounted_with_tokens(
                options::declared_text(options.deep_view()),
                ts.deep_view(),
                spec.credential.deep_view(),
                secret_path@,
            ),
    {
        match &spec.options {
            OptionSet::Raw { options: Some(raw) } => mount_options_of(
                raw.as_str(),
                ts,
                spec.credential.as_ref(),
                secret_path,
            ),
            OptionSet::Raw { options: None } => {
                proof {
                    reveal_strlit("");
                    assert(""@ =~= Seq::empty());
                }
                mount_options_of("", ts, spec.credential.as_ref(), secret_path)
            },
        }
    }

    /// The live SMB mounts in a mount table, as shares, in order. `table` is
    /// the table, or the message of the error that kept it from being read.
    pub fn list_shares(&self, table: Result<Vec<MountEntry>, String>) -> (r: Result<
        Vec<StorageShare>,
        StorageError,
    >)
        ensures
            match table {
                Ok(entries) => {
                    let mounts = recovery::smb_entries(entries@);
                    &&& r matches Ok(shares)
                    &&& shares@.len() == mounts.len()
                    &&& forall|i: int|
                        0 <= i < mounts.len() ==> is_share_of(#[trigger] shares@[i], mounts[i])
                },
                Err(m) => r matches Err(StorageError::Transport(t)) && t@ == SmbError::Io(
                    m,
                ).message(),
            },
    {
        let mounts = match list_mounts(table) {
            Ok(mounts) => mounts,
            Err(e) => {
                return Err(StorageError::Transport(e.to_string()));
            },
        };
        let mut shares: Vec<StorageShare> = Vec::new();
        let mut i: usize = 0;
        while i < mounts.len()
            invariant
                i <= mounts@.len(),
                shares@.len() == i,
                forall|j: int| 0 <= j < i ==> is_share_of(#[trigger] shares@[j], mounts@[j]),
            decreases mounts@.len() - i,
        {
            let m = &mounts[i];
            shares.push(
                StorageShare {
                    id: m.mountpoint.clone(),
                    source: m.source.clone(),
                    target: Some(m.mountpoint.clone()),
                    fstype: m.fstype.clone(),
                    mounted: true,
                },
            );
            i += 1;
        }
        Ok(shares)
    }

    /// What an unmount request is answered, by what came of it.
    pub fn unmount(&self, target: &str, run: Result<(), SmbError>) -> (r: Result<
        MountOutcome,
        StorageError,
    >)
        ensures
            match run {
                Ok(_) => r matches Ok(o) && o.target@ == target@ && !o.mounted && !o.recovered
                    && o.detail is None,
                Err(e) => r matches Err(StorageError::Other(m)) && m@ == "unmount "@ + target@
                    + ": "@ + e.message(),
            },
    {
        match run {
            Ok(_) => Ok(
                MountOutcome {
                    target: target.to_string(),
                    mounted: false,
                    recovered: false,
                    detail: None,
                },
            ),
            Err(e) => {
                let mut m = "unmount ".to_string();
                m.append(target);
                m.append(": ");
                m.append(e.to_string().as_str());
                Err(StorageError::Other(m))
            },
        }
    }

    /// Begins a recovery pass over the watched SMB mounts of a mount table.
    pub fn recover_stale(
        &self,
        table: Result<Vec<MountEntry>, String>,
        watch: &Vec<String>,
    ) -> (r: Result<Recovery, StorageError>)
        ensures
            match table {
                Ok(entries) => r matches Ok(pass) && pass.wf() && pass.deep_view()
                    == recovery::start(
                    recovery::targets(recovery::smb_entries(entries@), watch.deep_view()),
                ),
                Err(m) => r matches Err(StorageError::Transport(t)) && t@ == SmbError::Io(
                    m,
                ).message(),
            },
    {
        match recover_stale_mounts(table, watch) {
            Ok(pass) => Ok(pass),
            Err(e) => Err(StorageError::Transport(e.to_string())),
        }
    }
}

// ---------------------------------------------------------------------------
// Laws
// ---------------------------------------------------------------------------

/// A validated mount is made with the very options it was validated to:
/// rendering them again, with the reference of the password still at hand,
/// changes nothing. And it makes no difference whether the declared string or
/// the rendered one is rendered.
pub proof fn law_validated_options_are_final(
    raw: Seq<char>,
    credential: Option<Seq<char>>,
    secret_path: Seq<char>,
)
    requires
        options::declared(options::tokens(raw), credential) matches Ok(o) && (
        o.credentials is Inline ==> !secret_path.contains(',')),
    ensures
        ({
            let s = options::rendered(
                options::declared(options::tokens(raw), credential)->Ok_0,
                secret_path,
            );
            &&& options::mounted_with(s, credential, secret_path) == s
            &&& options::mounted_with(raw, credential, secret_path) == s
        }),
{
    option_laws::law_rendered_string_declares_itself(
        raw,
        credential,
        secret_path,
        credential,
        secret_path,
    );
}

/// Where a mount has a secret file, its options refer to that file.
pub proof fn law_secret_file_is_the_one_referred_to(
    o: options::OptionsView,
    secret: SecretContext,
)
    requires
        secrets::secret_file(o, secret) is Some,
    ensures
        options::credentials_piece(o.credentials, secret.path@) == "credentials"@.push('=')
            + (secrets::secret_file(o, secret)->0).0,
        options::rendered_pieces(o, secret.path@).contains(
            options::credentials_piece(o.credentials, secret.path@),
        ),
{
    let ps = options::rendered_pieces(o, secret.path@);
    let n = options::keyed("vers"@, o.vers).len() as int;
    assert(ps[n] == options::credentials_piece(o.credentials, secret.path@));
}

/// A validated mount is the declared one: backend, target, fstype, source,
/// failover sources, credential, remount policy and whether it is enabled are
/// those declared. Its options are the canonical string of what was declared,
/// and its secret file the one of the declared credential. A refused mount is
/// answered with the refusal's message and with nothing else.
pub proof fn law_validated_mount(
    r: Result<NormalizedSpec, StorageError>,
    spec: StorageMountSpec,
    declared: Result<options::OptionsView, Seq<char>>,
    secret: SecretContext,
)
    requires
        answers(r, spec, declared, secret),
    ensures
        r is Ok <==> declared is Ok,
        declared matches Err(message) ==> (r matches Err(StorageError::Other(m)) && m@ == message),
        r matches Ok(n) ==> {
            let o = declared->Ok_0;
            &&& n.backend@ == spec.backend@
            &&& n.target@ == spec.target@
            &&& n.fstype@ == spec.fstype@
            &&& n.source@ == spec.source@
            &&& n.failover_sources@ == spec.failover_sources@
            &&& n.credential == spec.credential
            &&& n.remount_policy == spec.remount_policy
            &&& n.enabled == spec.enabled
            &&& n.options matches OptionSet::Raw { options: Some(s) } && s@ == options::rendered(
                o,
                secret.path@,
            )
            &&& n.secret_file is Some <==> o.credentials is Inline && secret.plaintext is Some
                && secret.path_allowed
            &&& n.secret_file matches Some(f) ==> f.path@ == secret.path@ && f.contents@
                == secrets::creds_text(
                o.credentials->username,
                secret.plaintext->0@,
                o.credentials->Inline_domain,
            )
        },
{
}

/// A live mount is listed under its mountpoint, with its own source and
/// filesystem type, as mounted there.
pub proof fn law_share_of_a_live_mount(s: StorageShare, m: MountEntry)
    ensures
        is_share_of(s, m) ==> {
            &&& s.id@ == m.mountpoint@
            &&& s.source@ == m.source@
            &&& s.target matches Some(t) && t@ == m.mountpoint@
            &&& s.fstype@ == m.fstype@
            &&& s.mounted
        },
{
}

} // verus!
