//! SMB/CIFS mounts for a storage domain.
//!
//! The crate owns what is particular to SMB: the grammar of mount options and
//! credentials ([`options`]), the secret file of an inline credential
//! ([`secrets`]), which tools to run for mounting and for listing shares
//! ([`mounting`], [`shares`]), and the decisions of a recovery pass over dead
//! mounts ([`recovery`]). [`backend`] puts them together.
//!
//! Nothing here touches the system. Functions take what was observed (whether
//! a tool is on the `PATH`, what a process printed, what a probe found) and
//! say what to do, or what it means.
pub mod backend;
pub mod error;
pub mod mounting;
pub mod option_laws;
pub mod options;
pub mod recovery;
pub mod secrets;
pub mod seqs;
pub mod shares;
pub mod storage;
pub mod text;
pub mod tool;

pub use crate::backend::SmbBackend;
pub use crate::error::{SmbError, TimeSpan};
pub use crate::mounting::{mount, mount_tool, unmount, urlencode, Credentials, MountSpec, Platform};
pub use crate::options::{
    render_smb_options, validate_smb_options, validate_tokens, OptionToken, SmbCredentials,
    SmbOptions, SMB_VERSIONS,
};
pub use crate::recovery::{
    force_and_retrigger, list_mounts, recover_stale_mounts, Health, MountEntry, RecoverAction,
    Recovery, ReleaseRun, ReleaseState, ReleaseStep, ToolAttempt, SMB_FSTYPES,
};
pub use crate::secrets::{build_secret_file, render_creds_file, secret_to_resolve, SecretContext};
pub use crate::shares::{
    list_shares, parse_smbclient_shares, read_shares, Share, ShareKind, ToolOutput,
};
pub use crate::storage::{
    Capability, MountOutcome, MountStyle, NormalizedSpec, OptionSet, RecoverOutcome, SecretFile,
    SecretRef, StorageError, StorageKind, StorageMountSpec, StorageShare,
};
pub use crate::tool::{run_tool, ToolCommand, ToolExit};
