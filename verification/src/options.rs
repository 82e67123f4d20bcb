//! The grammar of CIFS mount options.
//!
//! An option string is a comma-separated list. Each piece is a flag (`guest`)
//! or a key with a value (`vers=3.0`); a piece is cut at its first `=`, and
//! empty pieces stand for nothing. [`validate_smb_options`] reads such a string
//! into [`SmbOptions`], and [`render_smb_options`] writes the canonical string.
//! A caller that has its own reading of the string hands over the tokens
//! ([`validate_tokens`], [`mount_options_of`]).
use vstd::prelude::*;
use vstd::string::*;
use crate::storage::{SecretRef, StorageError, StorageMountSpec};
use crate::text;

verus! {

/// The SMB protocol versions accepted for `vers=`: the modern, safe set.
pub const SMB_VERSIONS: [&'static str; 4] = ["2.0", "2.1", "3.0", "3.1.1"];

/// The accepted protocol versions.
pub open spec fn versions() -> Seq<Seq<char>> {
    seq!["2.0"@, "2.1"@, "3.0"@, "3.1.1"@]
}

// ---------------------------------------------------------------------------
// Tokens
// ---------------------------------------------------------------------------

/// One piece of an option string: a flag, or a key with its value.
#[derive(Debug, Clone, PartialEq, Eq)]
pub struct OptionToken {
    pub key: String,
    pub value: Option<String>,
}

/// The contents of an [`OptionToken`].
pub struct TokenView {
    pub key: Seq<char>,
    pub value: Option<Seq<char>>,
}

impl DeepView for OptionToken {
    type V = TokenView;

    open spec fn deep_view(&self) -> TokenView {
        TokenView { key: self.key@, value: self.value.deep_view() }
    }
}

/// The token that a piece of an option string stands for.
pub open spec fn token(piece: Seq<char>) -> TokenView {
    let k = text::find(piece, '=') as int;
    if k < piece.len() {
        TokenView { key: piece.take(k), value: Some(piece.skip(k + 1)) }
    } else {
        TokenView { key: piece, value: None }
    }
}

/// The piece of an option string that stands for a token.
pub open spec fn piece(t: TokenView) -> Seq<char> {
    match t.value {
        Some(v) => t.key.push('=') + v,
        None => t.key,
    }
}

/// The non-empty pieces of an option string, in order.
pub open spec fn pieces(raw: Seq<char>) -> Seq<Seq<char>> {
    text::split(raw, ',').filter(|p: Seq<char>| p.len() > 0)
}

/// The tokens of an option string, in order.
pub open spec fn tokens(raw: Seq<char>) -> Seq<TokenView> {
    pieces(raw).map_values(|p: Seq<char>| token(p))
}

/// Cuts one piece at its first `=`.
fn read_token(s: &str) -> (t: OptionToken)
    ensures
        t.deep_view() == token(s@),
{
    let chars = text::to_chars(s);
    let mut i: usize = 0;
    while i < chars.len()
        invariant
            i <= chars@.len(),
            chars@ == s@,
            forall|j: int| 0 <= j < i ==> s@[j] != '=',
        decreases chars@.len() - i,
    {
        if chars[i] == '=' {
            let key = text::slice_text(&chars, 0, i);
            let value = text::slice_text(&chars, i + 1, chars.len());
            proof {
                text::lemma_find_is(s@, '=', i as int);
                assert(key@ =~= s@.take(i as int));
                assert(value@ =~= s@.skip(i + 1));
            }
            return OptionToken { key, value: Some(value) };
        }
        i += 1;
    }
    proof {
        text::lemma_find_is(s@, '=', s@.len() as int);
    }
    OptionToken { key: s.to_string(), value: None }
}

/// Reads the tokens of an option string.
pub fn tokenize(raw: &str) -> (r: Vec<OptionToken>)
    ensures
        r.deep_view() == tokens(raw@),
{
    let parts = text::split_text(raw, ',');
    let ghost all = text::split(raw@, ',');
    let ghost keep = |p: Seq<char>| p.len() > 0;
    let mut r: Vec<OptionToken> = Vec::new();
    let mut i: usize = 0;
    assert(all.take(0).filter(keep) =~= Seq::empty()) by {
        reveal(Seq::filter);
    }
    while i < parts.len()
        invariant
            i <= parts@.len(),
            parts.deep_view() == all,
            keep == (|p: Seq<char>| p.len() > 0),
            r.deep_view() == all.take(i as int).filter(keep).map_values(
                |p: Seq<char>| token(p),
            ),
        decreases parts@.len() - i,
    {
        let ghost before = r.deep_view();
        let ghost next = all.take(i + 1);
        assert(all[i as int] == parts[i as int]@);
        proof {
            reveal(Seq::filter);
            assert(next.drop_last() =~= all.take(i as int));
            assert(next.last() == all[i as int]);
        }
        if !parts[i].as_str().is_empty() {
            let t = read_token(parts[i].as_str());
            r.push(t);
            assert(r.deep_view() =~= before.push(t.deep_view()));
        }
        assert(r.deep_view() =~= next.filter(keep).map_values(|p: Seq<char>| token(p)));
        i += 1;
    }
    assert(all.take(all.len() as int) =~= all);
    r
}

// ---------------------------------------------------------------------------
// What the options mean
// ---------------------------------------------------------------------------

/// What a token says about the mount.
#[derive(Debug, Clone, Copy, PartialEq, Eq, Structural)]
pub enum OptionKind {
    /// `vers=<v>`: the protocol version.
    Vers,
    /// `credentials=<p>` or `cred=<p>`: the credentials are in a file.
    CredentialsFile,
    /// `guest`: an anonymous mount.
    Guest,
    /// `username=<u>` or `user=<u>`: an inline credential's user.
    Username,
    /// `domain=<d>` or `dom=<d>`: an inline credential's domain.
    Domain,
    /// `password` or `pass`, with or without a value: never allowed.
    Password,
    /// `uid=<u>`.
    Uid,
    /// `gid=<g>`.
    Gid,
    /// `iocharset=<c>`.
    Iocharset,
    /// `noperm`.
    Noperm,
    /// Anything else, kept as it is written.
    Extra,
}

/// The kind of a token.
pub open spec fn kind(t: TokenView) -> OptionKind {
    if t.key == "password"@ || t.key == "pass"@ {
        OptionKind::Password
    } else if t.value is None {
        if t.key == "guest"@ {
            OptionKind::Guest
        } else if t.key == "noperm"@ {
            OptionKind::Noperm
        } else {
            OptionKind::Extra
        }
    } else if t.key == "vers"@ {
        OptionKind::Vers
    } else if t.key == "credentials"@ || t.key == "cred"@ {
        OptionKind::CredentialsFile
    } else if t.key == "username"@ || t.key == "user"@ {
        OptionKind::Username
    } else if t.key == "domain"@ || t.key == "dom"@ {
        OptionKind::Domain
    } else if t.key == "uid"@ {
        OptionKind::Uid
    } else if t.key == "gid"@ {
        OptionKind::Gid
    } else if t.key == "iocharset"@ {
        OptionKind::Iocharset
    } else {
        OptionKind::Extra
    }
}

/// The kind of a token.
pub fn kind_of(t: &OptionToken) -> (r: OptionKind)
    ensures
        r == kind(t.deep_view()),
{
    let key = t.key.as_str();
    if text::same_text(key, "password") || text::same_text(key, "pass") {
        OptionKind::Password
    } else if t.value.is_none() {
        if text::same_text(key, "guest") {
            OptionKind::Guest
        } else if text::same_text(key, "noperm") {
            OptionKind::Noperm
        } else {
            OptionKind::Extra
        }
    } else if text::same_text(key, "vers") {
        OptionKind::Vers
    } else if text::same_text(key, "credentials") || text::same_text(key, "cred") {
        OptionKind::CredentialsFile
    } else if text::same_text(key, "username") || text::same_text(key, "user") {
        OptionKind::Username
    } else if text::same_text(key, "domain") || text::same_text(key, "dom") {
        OptionKind::Domain
    } else if text::same_text(key, "uid") {
        OptionKind::Uid
    } else if text::same_text(key, "gid") {
        OptionKind::Gid
    } else if text::same_text(key, "iocharset") {
        OptionKind::Iocharset
    } else {
        OptionKind::Extra
    }
}

/// Whether some token is of kind `k`.
pub open spec fn has(ts: Seq<TokenView>, k: OptionKind) -> bool {
    exists|i: int| 0 <= i < ts.len() && kind(#[trigger] ts[i]) == k
}

/// The value of the last token of kind `k`: a later option overrides an
/// earlier one.
pub open spec fn last_value(ts: Seq<TokenView>, k: OptionKind) -> Option<Seq<char>>
    decreases ts.len(),
{
    if ts.len() == 0 {
        None
    } else if kind(ts.last()) == k {
        ts.last().value
    } else {
        last_value(ts.drop_last(), k)
    }
}

/// The unrecognised options, as they are written and in order.
pub open spec fn extras(ts: Seq<TokenView>) -> Seq<Seq<char>> {
    ts.filter(|t: TokenView| kind(t) == OptionKind::Extra).map_values(|t: TokenView| piece(t))
}

/// The message for a protocol version that is not accepted.
pub open spec fn vers_message(v: Seq<char>) -> Seq<char> {
    "smb: unsupported vers `"@ + v + "` (accepted: "@ + text::join(versions(), ", "@) + ")"@
}

/// The message for a password in the option string.
pub open spec fn password_message() -> Seq<char> {
    "smb: inline `password=` is not allowed in the option string; supply the password as a credential SecretRef"@
}

/// Why a token is refused on its own, if it is.
pub open spec fn fault(t: TokenView) -> Option<Seq<char>> {
    if kind(t) == OptionKind::Password {
        Some(password_message())
    } else if kind(t) == OptionKind::Vers && !versions().contains(t.value->0) {
        Some(vers_message(t.value->0))
    } else {
        None
    }
}

/// Why the first refused token is refused, if any is.
pub open spec fn first_fault(ts: Seq<TokenView>) -> Option<Seq<char>>
    decreases ts.len(),
{
    if ts.len() == 0 {
        None
    } else if fault(ts[0]) is Some {
        fault(ts[0])
    } else {
        first_fault(ts.skip(1))
    }
}

// ---------------------------------------------------------------------------
// Validated options
// ---------------------------------------------------------------------------

/// Where a mount's credentials come from.
#[derive(Debug, Clone, PartialEq, Eq)]
pub enum SmbCredentials {
    /// A file that holds username, password and domain.
    File { path: String },
    /// Username, password and domain; the password is found through its
    /// reference.
    Inline { username: String, password: SecretRef, domain: Option<String> },
    /// An anonymous mount.
    Guest,
}

/// The contents of [`SmbCredentials`].
pub enum CredentialsView {
    File { path: Seq<char> },
    Inline { username: Seq<char>, password: Seq<char>, domain: Option<Seq<char>> },
    Guest,
}

impl DeepView for SmbCredentials {
    type V = CredentialsView;

    open spec fn deep_view(&self) -> CredentialsView {
        match self {
            SmbCredentials::File { path } => CredentialsView::File { path: path@ },
            SmbCredentials::Inline { username, password, domain } => CredentialsView::Inline {
                username: username@,
                password: password.deep_view(),
                domain: domain.deep_view(),
            },
            SmbCredentials::Guest => CredentialsView::Guest,
        }
    }
}

/// The options of one mount, validated.
#[derive(Debug, Clone, PartialEq, Eq)]
pub struct SmbOptions {
    pub vers: Option<String>,
    pub credentials: SmbCredentials,
    pub uid: Option<String>,
    pub gid: Option<String>,
    pub iocharset: Option<String>,
    pub noperm: bool,
    pub extra: Vec<String>,
}

/// The contents of [`SmbOptions`].
#[verifier::ext_equal]
pub struct OptionsView {
    pub vers: Option<Seq<char>>,
    pub credentials: CredentialsView,
    pub uid: Option<Seq<char>>,
    pub gid: Option<Seq<char>>,
    pub iocharset: Option<Seq<char>>,
    pub noperm: bool,
    pub extra: Seq<Seq<char>>,
}

impl DeepView for SmbOptions {
    type V = OptionsView;

    open spec fn deep_view(&self) -> OptionsView {
        OptionsView {
            vers: self.vers.deep_view(),
            credentials: self.credentials.deep_view(),
            uid: self.uid.deep_view(),
            gid: self.gid.deep_view(),
            iocharset: self.iocharset.deep_view(),
            noperm: self.noperm,
            extra: self.extra.deep_view(),
        }
    }
}

/// The one coherent credential form that the signals in an option string
/// describe, or why they describe none:
///
/// * a file, `guest` and a username exclude each other;
/// * a username needs the reference of a password;
/// * a domain is only valid alongside a username;
/// * nothing declared is an anonymous mount.
pub open spec fn resolved(
    file: Option<Seq<char>>,
    guest: bool,
    username: Option<Seq<char>>,
    domain: Option<Seq<char>>,
    credential: Option<Seq<char>>,
) -> Result<CredentialsView, Seq<char>> {
    if file is Some && guest {
        Err("smb: `guest` and `credentials=` are mutually exclusive"@)
    } else if file is Some && username is Some {
        Err("smb: `credentials=` (file) and `username=` (inline) are mutually exclusive"@)
    } else if guest && username is Some {
        Err("smb: `guest` and `username=` are mutually exclusive"@)
    } else if domain is Some && username is None {
        Err("smb: `domain=` is only valid alongside `username=`"@)
    } else if file is Some {
        Ok(CredentialsView::File { path: file->0 })
    } else if username is Some {
        match credential {
            Some(password) => Ok(
                CredentialsView::Inline { username: username->0, password, domain },
            ),
            None => Err(
                "smb: inline `username=` requires a credential SecretRef for the password"@,
            ),
        }
    } else {
        Ok(CredentialsView::Guest)
    }
}

/// What a list of tokens declares, given the reference of the password: the
/// options, or the message that says why the list is refused.
pub open spec fn declared(ts: Seq<TokenView>, credential: Option<Seq<char>>) -> Result<
    OptionsView,
    Seq<char>,
> {
    match first_fault(ts) {
        Some(message) => Err(message),
        None => match resolved(
            last_value(ts, OptionKind::CredentialsFile),
            has(ts, OptionKind::Guest),
            last_value(ts, OptionKind::Username),
            last_value(ts, OptionKind::Domain),
            credential,
        ) {
            Err(message) => Err(message),
            Ok(credentials) => Ok(
                OptionsView {
                    vers: last_value(ts, OptionKind::Vers),
                    credentials,
                    uid: last_value(ts, OptionKind::Uid),
                    gid: last_value(ts, OptionKind::Gid),
                    iocharset: last_value(ts, OptionKind::Iocharset),
                    noperm: has(ts, OptionKind::Noperm),
                    extra: extras(ts),
                },
            ),
        },
    }
}

/// Whether a result is what [`declared`] says: the same options, or
/// [`StorageError::Other`] with the same message.
pub open spec fn reports(
    r: Result<SmbOptions, StorageError>,
    expected: Result<OptionsView, Seq<char>>,
) -> bool {
    match (r, expected) {
        (Ok(o), Ok(v)) => o.deep_view() == v,
        (Err(StorageError::Other(m)), Err(message)) => m@ == message,
        _ => false,
    }
}

/// Reduces the credential signals of an option string to one coherent form.
pub fn resolve_smb_credentials(
    file: Option<String>,
    guest: bool,
    username: Option<String>,
    domain: Option<String>,
    credential: Option<&SecretRef>,
) -> (r: Result<SmbCredentials, StorageError>)
    ensures
        match (
            r,
            resolved(
                file.deep_view(),
                guest,
                username.deep_view(),
                domain.deep_view(),
                credential.deep_view(),
            ),
        ) {
            (Ok(c), Ok(v)) => c.deep_view() == v,
            (Err(StorageError::Other(m)), Err(message)) => m@ == message,
            _ => false,
        },
{
    let stray_domain = domain.is_some() && username.is_none();
    match (file, guest, username) {
        (Some(_), true, _) => Err(
            StorageError::Other(
                "smb: `guest` and `credentials=` are mutually exclusive".to_string(),
            ),
        ),
        (Some(_), _, Some(_)) => Err(
            StorageError::Other(
                "smb: `credentials=` (file) and `username=` (inline) are mutually exclusive".to_string(),
            ),
        ),
        (_, true, Some(_)) => Err(
            StorageError::Other(
                "smb: `guest` and `username=` are mutually exclusive".to_string(),
            ),
        ),
        _ if stray_domain => Err(
            StorageError::Other("smb: `domain=` is only valid alongside `username=`".to_string()),
        ),
        (Some(path), false, None) => Ok(SmbCredentials::File { path }),
        (None, false, Some(username)) => match credential {
            Some(secret) => Ok(
                SmbCredentials::Inline { username, password: secret.copied(), domain },
            ),
            None => Err(
                StorageError::Other(
                    "smb: inline `username=` requires a credential SecretRef for the password".to_string(),
                ),
            ),
        },
        (None, _, None) => Ok(SmbCredentials::Guest),
    }
}

/// One more token: what it adds to each of the readings above.
proof fn lemma_one_more(ts: Seq<TokenView>, i: int, k: OptionKind)
    requires
        0 <= i < ts.len(),
    ensures
        last_value(ts.take(i + 1), k) == if kind(ts[i]) == k {
            ts[i].value
        } else {
            last_value(ts.take(i), k)
        },
        has(ts.take(i + 1), k) == (kind(ts[i]) == k || has(ts.take(i), k)),
        extras(ts.take(i + 1)) == if kind(ts[i]) == OptionKind::Extra {
            extras(ts.take(i)).push(piece(ts[i]))
        } else {
            extras(ts.take(i))
        },
{
    let longer = ts.take(i + 1);
    let shorter = ts.take(i);
    assert(longer.drop_last() =~= shorter);
    assert(longer.last() == ts[i]);
    if kind(ts[i]) == k {
        assert(kind(longer[i]) == k);
    }
    if has(shorter, k) {
        let j = choose|j: int| 0 <= j < shorter.len() && kind(#[trigger] shorter[j]) == k;
        assert(kind(longer[j]) == k);
    }
    if has(longer, k) {
        let j = choose|j: int| 0 <= j < longer.len() && kind(#[trigger] longer[j]) == k;
        if j < i {
            assert(kind(shorter[j]) == k);
        }
    }
    reveal(Seq::filter);
    assert(extras(longer) =~= if kind(ts[i]) == OptionKind::Extra {
        extras(shorter).push(piece(ts[i]))
    } else {
        extras(shorter)
    });
}

/// Whether a protocol version is accepted.
fn is_supported_version(v: &str) -> (r: bool)
    ensures
        r == versions().contains(v@),
{
    let mut i: usize = 0;
    while i < 4
        invariant
            i <= 4,
            forall|j: int| 0 <= j < i ==> versions()[j] != v@,
        decreases 4 - i,
    {
        assert(SMB_VERSIONS@[i as int]@ == versions()[i as int]);
        if text::same_text(SMB_VERSIONS[i], v) {
            return true;
        }
        i += 1;
    }
    false
}

/// The error for a protocol version that is not accepted.
fn unsupported_version(v: &str) -> (e: StorageError)
    ensures
        e matches StorageError::Other(m) && m@ == vers_message(v@),
{
    let mut accepted: Vec<String> = Vec::new();
    let mut i: usize = 0;
    while i < 4
        invariant
            i <= 4,
            accepted.deep_view() == versions().take(i as int),
        decreases 4 - i,
    {
        let ghost before = accepted.deep_view();
        assert(SMB_VERSIONS@[i as int]@ == versions()[i as int]);
        accepted.push(SMB_VERSIONS[i].to_string());
        i += 1;
        assert(accepted.deep_view() =~= before.push(versions()[i - 1]));
        assert(accepted.deep_view() =~= versions().take(i as int));
    }
    assert(versions().take(4) =~= versions());
    let mut m = "smb: unsupported vers `".to_string();
    m.append(v);
    m.append("` (accepted: ");
    m.append(text::join_text(&accepted, ", ").as_str());
    m.append(")");
    StorageError::Other(m)
}

/// Writes a token as a piece of an option string.
fn write_token(t: &OptionToken) -> (s: String)
    ensures
        s@ == piece(t.deep_view()),
{
    let mut s = t.key.clone();
    if let Some(v) = &t.value {
        s.push('=');
        s.append(v.as_str());
    }
    s
}

/// Validates a list of tokens. The first refused token decides the error;
/// otherwise the credential signals do.
pub fn validate_tokens(ts: &Vec<OptionToken>, credential: Option<&SecretRef>) -> (r: Result<
    SmbOptions,
    StorageError,
>)
    ensures
        reports(r, declared(ts.deep_view(), credential.deep_view())),
{
    let ghost all = ts.deep_view();
    let mut vers: Option<String> = None;
    let mut file: Option<String> = None;
    let mut guest = false;
    let mut username: Option<String> = None;
    let mut domain: Option<String> = None;
    let mut uid: Option<String> = None;
    let mut gid: Option<String> = None;
    let mut iocharset: Option<String> = None;
    let mut noperm = false;
    let mut extra: Vec<String> = Vec::new();
    let mut i: usize = 0;
    assert(all.skip(0) =~= all);
    assert(extras(all.take(0)) =~= Seq::empty()) by {
        reveal(Seq::filter);
    }
    assert(extra.deep_view() =~= Seq::empty());
    while i < ts.len()
        invariant
            i <= ts@.len(),
            all == ts.deep_view(),
            first_fault(all) == first_fault(all.skip(i as int)),
            vers.deep_view() == last_value(all.take(i as int), OptionKind::Vers),
            file.deep_view() == last_value(all.take(i as int), OptionKind::CredentialsFile),
            guest == has(all.take(i as int), OptionKind::Guest),
            username.deep_view() == last_value(all.take(i as int), OptionKind::Username),
            domain.deep_view() == last_value(all.take(i as int), OptionKind::Domain),
            uid.deep_view() == last_value(all.take(i as int), OptionKind::Uid),
            gid.deep_view() == last_value(all.take(i as int), OptionKind::Gid),
            iocharset.deep_view() == last_value(all.take(i as int), OptionKind::Iocharset),
            noperm == has(all.take(i as int), OptionKind::Noperm),
            extra.deep_view() == extras(all.take(i as int)),
        decreases ts@.len() - i,
    {
        let t = &ts[i];
        let k = kind_of(t);
        proof {
            assert(all[i as int] == t.deep_view());
            assert(all.skip(i as int)[0] == all[i as int]);
            assert(all.skip(i as int).skip(1) =~= all.skip(i + 1));
            lemma_one_more(all, i as int, OptionKind::Vers);
            lemma_one_more(all, i as int, OptionKind::CredentialsFile);
            lemma_one_more(all, i as int, OptionKind::Guest);
            lemma_one_more(all, i as int, OptionKind::Username);
            lemma_one_more(all, i as int, OptionKind::Domain);
            lemma_one_more(all, i as int, OptionKind::Uid);
            lemma_one_more(all, i as int, OptionKind::Gid);
            lemma_one_more(all, i as int, OptionKind::Iocharset);
            lemma_one_more(all, i as int, OptionKind::Noperm);
        }
        match k {
            OptionKind::Vers => {
                if let Some(v) = &t.value {
                    if !is_supported_version(v.as_str()) {
                        return Err(unsupported_version(v.as_str()));
                    }
                }
                vers = t.value.clone();
            },
            OptionKind::CredentialsFile => {
                file = t.value.clone();
            },
            OptionKind::Guest => {
                guest = true;
            },
            OptionKind::Username => {
                username = t.value.clone();
            },
            OptionKind::Domain => {
                domain = t.value.clone();
            },
            OptionKind::Password => {
                return Err(
                    StorageError::Other(
                        "smb: inline `password=` is not allowed in the option string; supply the password as a credential SecretRef".to_string(),
                    ),
                );
            },
            OptionKind::Uid => {
                uid = t.value.clone();
            },
            OptionKind::Gid => {
                gid = t.value.clone();
            },
            OptionKind::Iocharset => {
                iocharset = t.value.clone();
            },
            OptionKind::Noperm => {
                noperm = true;
            },
            OptionKind::Extra => {
                let ghost before = extra.deep_view();
                let s = write_token(t);
                extra.push(s);
                assert(extra.deep_view() =~= before.push(s@));
            },
        }
        i += 1;
    }
    assert(all.take(all.len() as int) =~= all);
    match resolve_smb_credentials(file, guest, username, domain, credential) {
        Ok(credentials) => Ok(
            SmbOptions { vers, credentials, uid, gid, iocharset, noperm, extra },
        ),
        Err(e) => Err(e),
    }
}

/// The option string of a declaration; a declaration without one has the
/// empty string.
pub open spec fn declared_text(options: Option<Seq<char>>) -> Seq<char> {
    match options {
        Some(raw) => raw,
        None => Seq::empty(),
    }
}

/// The tokens of the option string of a declaration.
pub fn declared_tokens(options: &Option<String>) -> (ts: Vec<OptionToken>)
    ensures
        ts.deep_view() == tokens(declared_text(options.deep_view())),
{
    match options {
        Some(raw) => tokenize(raw.as_str()),
        None => {
            proof {
                reveal_strlit("");
                assert(""@ =~= Seq::empty());
            }
            tokenize("")
        },
    }
}

/// Validates the options of a declared mount.
pub fn validate_smb_options(spec: &StorageMountSpec) -> (r: Result<SmbOptions, StorageError>)
    ensures
        reports(
            r,
            declared(
                tokens(declared_text(spec.options.deep_view())),
                spec.credential.deep_view(),
            ),
        ),
{
    validate_tokens(&declared_tokens(&spec.options), spec.credential.as_ref())
}

// ---------------------------------------------------------------------------
// Rendering
// ---------------------------------------------------------------------------

/// A key with its value, where there is one.
pub open spec fn keyed(key: Seq<char>, value: Option<Seq<char>>) -> Seq<Seq<char>> {
    match value {
        Some(v) => seq![key.push('=') + v],
        None => Seq::empty(),
    }
}

/// The piece that tells the mount where its credentials are. An inline
/// credential is referenced through its secret file, never spelled out.
pub open spec fn credentials_piece(c: CredentialsView, secret_path: Seq<char>) -> Seq<char> {
    match c {
        CredentialsView::File { path } => "credentials"@.push('=') + path,
        CredentialsView::Inline { .. } => "credentials"@.push('=') + secret_path,
        CredentialsView::Guest => "guest"@,
    }
}

/// The pieces of the canonical option string, in order.
pub open spec fn rendered_pieces(o: OptionsView, secret_path: Seq<char>) -> Seq<Seq<char>> {
    keyed("vers"@, o.vers) + seq![credentials_piece(o.credentials, secret_path)] + keyed(
        "uid"@,
        o.uid,
    ) + keyed("gid"@, o.gid) + keyed("iocharset"@, o.iocharset) + (if o.noperm {
        seq!["noperm"@]
    } else {
        Seq::empty()
    }) + o.extra
}

/// The canonical option string.
pub open spec fn rendered(o: OptionsView, secret_path: Seq<char>) -> Seq<char> {
    text::join(rendered_pieces(o, secret_path), seq![','])
}

/// Appends `key=value`, where there is a value.
fn push_keyed(parts: &mut Vec<String>, key: &str, value: &Option<String>)
    ensures
        final(parts).deep_view() == old(parts).deep_view() + keyed(key@, value.deep_view()),
{
    let ghost before = parts.deep_view();
    if let Some(v) = value {
        let mut s = key.to_string();
        s.push('=');
        s.append(v.as_str());
        parts.push(s);
        assert(parts.deep_view() =~= before.push(s@));
    }
    assert(parts.deep_view() =~= before + keyed(key@, value.deep_view()));
}

/// Appends one piece.
fn push_piece(parts: &mut Vec<String>, s: String)
    ensures
        final(parts).deep_view() == old(parts).deep_view() + seq![s@],
{
    let ghost before = parts.deep_view();
    parts.push(s);
    assert(parts.deep_view() =~= before + seq![s@]);
}

/// Renders validated options into the canonical CIFS option string.
///
/// `secret_path` is where the privileged writer puts the secret file of the
/// mount. The string may end up in a world-readable map, so an inline
/// credential appears in it only as a `credentials=` reference to that file.
pub fn render_smb_options(o: &SmbOptions, secret_path: &str) -> (s: String)
    ensures
        s@ == rendered(o.deep_view(), secret_path@),
{
    let mut parts: Vec<String> = Vec::new();
    assert(parts.deep_view() =~= Seq::empty());
    push_keyed(&mut parts, "vers", &o.vers);
    let credentials = match &o.credentials {
        SmbCredentials::File { path } => {
            let mut s = "credentials".to_string();
            s.push('=');
            s.append(path.as_str());
            s
        },
        SmbCredentials::Inline { .. } => {
            let mut s = "credentials".to_string();
            s.push('=');
            s.append(secret_path);
            s
        },
        SmbCredentials::Guest => "guest".to_string(),
    };
    push_piece(&mut parts, credentials);
    push_keyed(&mut parts, "uid", &o.uid);
    push_keyed(&mut parts, "gid", &o.gid);
    push_keyed(&mut parts, "iocharset", &o.iocharset);
    if o.noperm {
        push_piece(&mut parts, "noperm".to_string());
    }
    let ghost before = parts.deep_view();
    let mut extra = o.extra.clone();
    assert(extra@ =~= o.extra@);
    parts.append(&mut extra);
    proof {
        reveal_strlit(",");
        assert(","@ =~= seq![',']);
        assert(parts.deep_view() =~= before + o.extra.deep_view());
        assert(parts.deep_view() =~= rendered_pieces(o.deep_view(), secret_path@));
    }
    text::join_text(&parts, ",")
}

// ---------------------------------------------------------------------------
// From a declared string to the string that is mounted with
// ---------------------------------------------------------------------------

/// Whether a token spells out part of an inline credential.
pub open spec fn is_credential(t: TokenView) -> bool {
    kind(t) == OptionKind::Username || kind(t) == OptionKind::Domain || kind(t)
        == OptionKind::Password
}

/// Whether some token spells out part of an inline credential.
pub open spec fn has_credential(ts: Seq<TokenView>) -> bool {
    exists|i: int| 0 <= i < ts.len() && is_credential(#[trigger] ts[i])
}

/// The tokens that are not part of an inline credential, as pieces.
pub open spec fn plain_pieces(ts: Seq<TokenView>) -> Seq<Seq<char>> {
    ts.filter(|t: TokenView| !is_credential(t)).map_values(|t: TokenView| piece(t))
}

/// An option string, read as `ts`, without what spells out an inline
/// credential. A string without such options is left as it is.
pub open spec fn without_credentials(raw: Seq<char>, ts: Seq<TokenView>) -> Seq<char> {
    if has_credential(ts) {
        text::join(plain_pieces(ts), seq![','])
    } else {
        raw
    }
}

/// The option string that a declared string, read as `ts`, is mounted with:
/// the canonical string where the declaration is accepted. One that is refused
/// is passed on as it stands, but never with an inline credential in it.
pub open spec fn mounted_with_tokens(
    raw: Seq<char>,
    ts: Seq<TokenView>,
    credential: Option<Seq<char>>,
    secret_path: Seq<char>,
) -> Seq<char> {
    match declared(ts, credential) {
        Ok(o) => rendered(o, secret_path),
        Err(_) => without_credentials(raw, ts),
    }
}

/// The option string that a declared string is mounted with.
pub open spec fn mounted_with(
    raw: Seq<char>,
    credential: Option<Seq<char>>,
    secret_path: Seq<char>,
) -> Seq<char> {
    mounted_with_tokens(raw, tokens(raw), credential, secret_path)
}

/// Drops what spells out an inline credential from an option string that was
/// read as `ts`.
pub fn drop_credentials(raw: &str, ts: &Vec<OptionToken>) -> (s: String)
    ensures
        s@ == without_credentials(raw@, ts.deep_view()),
{
    let ghost all = ts.deep_view();
    let ghost keep = |t: TokenView| !is_credential(t);
    let mut parts: Vec<String> = Vec::new();
    let mut found = false;
    let mut i: usize = 0;
    assert(plain_pieces(all.take(0)) =~= Seq::empty()) by {
        reveal(Seq::filter);
    }
    assert(parts.deep_view() =~= Seq::empty());
    while i < ts.len()
        invariant
            i <= ts@.len(),
            ts.deep_view() == all,
            found == has_credential(all.take(i as int)),
            parts.deep_view() == plain_pieces(all.take(i as int)),
        decreases ts@.len() - i,
    {
        let t = &ts[i];
        let k = kind_of(t);
        let ghost before = parts.deep_view();
        let ghost longer = all.take(i + 1);
        let ghost shorter = all.take(i as int);
        proof {
            assert(all[i as int] == t.deep_view());
            assert(longer.drop_last() =~= shorter);
            assert(longer.last() == all[i as int]);
            reveal(Seq::filter);
            if is_credential(all[i as int]) {
                assert(is_credential(longer[i as int]));
            }
            if found {
                let j = choose|j: int|
                    0 <= j < shorter.len() && is_credential(#[trigger] shorter[j]);
                assert(is_credential(longer[j]));
            }
            if has_credential(longer) {
                let j = choose|j: int| 0 <= j < longer.len() && is_credential(#[trigger] longer[j]);
                if j < i {
                    assert(is_credential(shorter[j]));
                }
            }
        }
        if k == OptionKind::Username || k == OptionKind::Domain || k == OptionKind::Password {
            found = true;
        } else {
            let s = write_token(t);
            parts.push(s);
            assert(parts.deep_view() =~= before.push(s@));
        }
        assert(parts.deep_view() =~= plain_pieces(longer));
        i += 1;
    }
    assert(all.take(all.len() as int) =~= all);
    if found {
        proof {
            reveal_strlit(",");
            assert(","@ =~= seq![',']);
        }
        text::join_text(&parts, ",")
    } else {
        raw.to_string()
    }
}

/// The option string that a declared string, read as `ts`, is mounted with.
pub fn mount_options_of(
    raw: &str,
    ts: &Vec<OptionToken>,
    credential: Option<&SecretRef>,
    secret_path: &str,
) -> (s: String)
    ensures
        s@ == mounted_with_tokens(raw@, ts.deep_view(), credential.deep_view(), secret_path@),
{
    match validate_tokens(ts, credential) {
        Ok(o) => render_smb_options(&o, secret_path),
        Err(_) => drop_credentials(raw, ts),
    }
}

/// The option string that a declared string is mounted with.
pub fn mount_options(raw: &str, credential: Option<&SecretRef>, secret_path: &str) -> (s: String)
    ensures
        s@ == mounted_with(raw@, credential.deep_view(), secret_path@),
{
    mount_options_of(raw, &tokenize(raw), credential, secret_path)
}

} // verus!
