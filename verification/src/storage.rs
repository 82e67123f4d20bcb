//! The storage domain's side of the backend: the mount declarations it hands
//! over and the records it takes back, as plain values.
use vstd::prelude::*;
use vstd::string::*;

verus! {

/// A failure reported to the storage domain.
#[derive(Debug, Clone, PartialEq, Eq)]
pub enum StorageError {
    /// The backend could not reach what it manages.
    Transport(String),
    /// Any other failure, described by its message.
    Other(String),
}

impl StorageError {
    /// The message that the error carries.
    pub open spec fn message(&self) -> Seq<char> {
        match self {
            StorageError::Transport(m) => m@,
            StorageError::Other(m) => m@,
        }
    }

    /// The message that the error carries.
    pub fn to_string(&self) -> (s: String)
        ensures
            s@ == self.message(),
    {
        match self {
            StorageError::Transport(m) => m.clone(),
            StorageError::Other(m) => m.clone(),
        }
    }
}

/// A reference by which the secrets domain finds a secret. It is not the secret.
#[derive(Debug, Clone, PartialEq, Eq)]
pub struct SecretRef(pub String);

impl DeepView for SecretRef {
    type V = Seq<char>;

    open spec fn deep_view(&self) -> Seq<char> {
        self.0@
    }
}

impl SecretRef {
    /// A second copy of the reference.
    pub fn copied(&self) -> (r: SecretRef)
        ensures
            r == *self,
    {
        SecretRef(self.0.clone())
    }
}

/// A mount as it is declared to the backend.
#[derive(Debug, Clone, PartialEq, Eq)]
pub struct StorageMountSpec {
    pub backend: String,
    pub target: String,
    pub fstype: String,
    pub source: String,
    pub failover_sources: Vec<String>,
    /// The declared option string, if any.
    pub options: Option<String>,
    /// The reference of the password, for an inline credential.
    pub credential: Option<SecretRef>,
    /// When the storage domain is to mount again, in its own words.
    pub remount_policy: Option<String>,
    pub enabled: bool,
}

/// What a recovery pass found and did.
#[derive(Debug, Clone, PartialEq, Eq)]
pub struct RecoverOutcome {
    /// Mountpoints that were dead and are back.
    pub recovered: Vec<String>,
    /// Mountpoints that were dead and still are.
    pub still_stale: Vec<String>,
    pub errors: Vec<String>,
    /// Whether no dead mount was found.
    pub no_stale_found: bool,
}

/// The contents of a [`RecoverOutcome`].
#[verifier::ext_equal]
pub struct OutcomeView {
    pub recovered: Seq<Seq<char>>,
    pub still_stale: Seq<Seq<char>>,
    pub errors: Seq<Seq<char>>,
    pub no_stale_found: bool,
}

impl DeepView for RecoverOutcome {
    type V = OutcomeView;

    open spec fn deep_view(&self) -> OutcomeView {
        OutcomeView {
            recovered: self.recovered.deep_view(),
            still_stale: self.still_stale.deep_view(),
            errors: self.errors.deep_view(),
            no_stale_found: self.no_stale_found,
        }
    }
}

/// An outcome with nothing in it yet.
pub open spec fn empty_outcome() -> OutcomeView {
    OutcomeView {
        recovered: Seq::empty(),
        still_stale: Seq::empty(),
        errors: Seq::empty(),
        no_stale_found: false,
    }
}

impl Default for RecoverOutcome {
    fn default() -> (o: Self)
        ensures
            o.deep_view() == empty_outcome(),
    {
        let o = RecoverOutcome {
            recovered: Vec::new(),
            still_stale: Vec::new(),
            errors: Vec::new(),
            no_stale_found: false,
        };
        assert(o.deep_view() =~= empty_outcome());
        o
    }
}

/// A file that the privileged writer puts in place, readable by root alone,
/// before a mount is made.
#[derive(Debug, Clone, PartialEq, Eq)]
pub struct SecretFile {
    pub path: String,
    pub contents: String,
}

/// The options of a normalized mount, opaque to the storage domain.
#[derive(Debug, Clone, PartialEq, Eq)]
pub enum OptionSet {
    Raw { options: Option<String> },
}

/// A mount that the backend has validated.
#[derive(Debug, Clone, PartialEq, Eq)]
pub struct NormalizedSpec {
    pub backend: String,
    pub target: String,
    pub fstype: String,
    pub source: String,
    pub failover_sources: Vec<String>,
    pub options: OptionSet,
    pub credential: Option<SecretRef>,
    pub secret_file: Option<SecretFile>,
    /// When the storage domain is to mount again, as it was declared.
    pub remount_policy: Option<String>,
    pub enabled: bool,
}

/// A share as the storage domain lists it.
#[derive(Debug, Clone, PartialEq, Eq)]
pub struct StorageShare {
    pub id: String,
    pub source: String,
    pub target: Option<String>,
    pub fstype: String,
    pub mounted: bool,
}

/// What came of a mount or unmount request.
#[derive(Debug, Clone, PartialEq, Eq)]
pub struct MountOutcome {
    pub target: String,
    pub mounted: bool,
    pub recovered: bool,
    pub detail: Option<String>,
}

/// What a backend stores things on.
#[derive(Debug, Clone, Copy, PartialEq, Eq, Structural)]
pub enum StorageKind {
    NetworkShare,
}

/// What a backend can be asked to do.
#[derive(Debug, Clone, Copy, PartialEq, Eq, Structural)]
pub enum Capability {
    List,
    Unmount,
    RecoverStale,
}

/// How a backend's mounts are realised.
#[derive(Debug, Clone, Copy, PartialEq, Eq, Structural)]
pub enum MountStyle {
    KernelMount,
}

/// A storage error's message is the one it was made with, a reference is its
/// text, and a fresh outcome reports nothing.
pub proof fn law_storage_views(m: String, secret: SecretRef)
    ensures
        StorageError::Transport(m).message() == m@,
        StorageError::Other(m).message() == m@,
        secret.deep_view() == secret.0@,
        empty_outcome().recovered.len() == 0,
        empty_outcome().still_stale.len() == 0,
        empty_outcome().errors.len() == 0,
        !empty_outcome().no_stale_found,
{
}

} // verus!
