//! Mounting and unmounting: which tool to run and with which arguments.
use vstd::prelude::*;
use vstd::string::*;
use crate::error::SmbError;
use crate::text;
use crate::tool::{no_args, push_arg, ToolCommand};

verus! {

/// The platforms that mounting tells apart.
#[derive(Debug, Clone, Copy, PartialEq, Eq, Structural)]
pub enum Platform {
    Linux,
    MacOs,
    Other,
}

/// Credentials for [`mount`] and for listing shares.
#[derive(Debug, Clone, PartialEq, Eq)]
pub enum Credentials {
    /// The path of a file with `username=` and `password=` lines.
    File(String),
    Inline { username: String, password: String },
    Guest,
}

/// A share to mount.
#[derive(Debug, Clone)]
pub struct MountSpec<'a> {
    pub server: &'a str,
    pub share: &'a str,
    pub mountpoint: &'a str,
    pub credentials: Credentials,
    /// Further CIFS options, such as `vers=3.0` or `uid=1000`.
    pub extra_opts: Vec<String>,
}

// ---------------------------------------------------------------------------
// Percent encoding
// ---------------------------------------------------------------------------

/// The characters that stand for themselves in a URL.
pub open spec fn unreserved(c: char) -> bool {
    ||| 'a' <= c <= 'z'
    ||| 'A' <= c <= 'Z'
    ||| '0' <= c <= '9'
    ||| c == '-'
    ||| c == '_'
    ||| c == '.'
    ||| c == '~'
}

/// The upper-case hexadecimal digit for a number below sixteen.
pub open spec fn hex_digit(n: u8) -> char {
    if n < 10 {
        (48 + n) as char
    } else {
        (55 + n) as char
    }
}

/// `%` and two hexadecimal digits for each byte.
pub open spec fn percent(bytes: Seq<u8>) -> Seq<char>
    decreases bytes.len(),
{
    if bytes.len() == 0 {
        Seq::empty()
    } else {
        seq!['%', hex_digit(bytes[0] / 16), hex_digit(bytes[0] % 16)] + percent(bytes.skip(1))
    }
}

/// One character of a URL component: itself, or its UTF-8 bytes in
/// hexadecimal.
pub open spec fn encoded_char(c: char) -> Seq<char> {
    if unreserved(c) {
        seq![c]
    } else {
        percent(vstd::utf8::encode_utf8(seq![c]))
    }
}

/// A text as a URL component.
pub open spec fn encoded(s: Seq<char>) -> Seq<char>
    decreases s.len(),
{
    if s.len() == 0 {
        Seq::empty()
    } else {
        encoded_char(s[0]) + encoded(s.skip(1))
    }
}

/// Whether a character stands for itself in a URL.
fn is_unreserved(c: char) -> (r: bool)
    ensures
        r == unreserved(c),
{
    ('a' <= c && c <= 'z') || ('A' <= c && c <= 'Z') || ('0' <= c && c <= '9') || c == '-' || c
        == '_' || c == '.' || c == '~'
}

/// The upper-case hexadecimal digit for a number below sixteen.
fn hex(n: u8) -> (c: char)
    requires
        n < 16,
    ensures
        c == hex_digit(n),
{
    if n < 10 {
        (48 + n) as char
    } else {
        (55 + n) as char
    }
}

/// Appends each byte as `%` and two hexadecimal digits.
fn push_percent(out: &mut String, bytes: &[u8])
    ensures
        final(out)@ == old(out)@ + percent(bytes@),
{
    let mut i: usize = 0;
    assert(bytes@.skip(0) =~= bytes@);
    assert(out@ + percent(bytes@) == old(out)@ + percent(bytes@));
    while i < bytes.len()
        invariant
            i <= bytes@.len(),
            out@ + percent(bytes@.skip(i as int)) == old(out)@ + percent(bytes@),
        decreases bytes@.len() - i,
    {
        let ghost before = out@;
        let ghost rest = bytes@.skip(i as int);
        let b = bytes[i];
        out.push('%');
        out.push(hex(b / 16));
        out.push(hex(b % 16));
        i += 1;
        assert(rest.skip(1) =~= bytes@.skip(i as int));
        assert(out@ + percent(rest.skip(1)) =~= before + percent(rest));
    }
    assert(out@ =~= out@ + percent(bytes@.skip(i as int)));
}

/// Encodes a text as a URL component: letters, digits and `-_.~` stay, and
/// every other character becomes its UTF-8 bytes as `%XX`.
pub fn urlencode(s: &str) -> (out: String)
    ensures
        out@ == encoded(s@),
{
    let chars = text::to_chars(s);
    let mut out = String::new();
    let mut i: usize = 0;
    assert(s@.skip(0) =~= s@);
    assert(out@ + encoded(s@) =~= encoded(s@));
    while i < chars.len()
        invariant
            i <= chars@.len(),
            chars@ == s@,
            out@ + encoded(s@.skip(i as int)) == encoded(s@),
        decreases chars@.len() - i,
    {
        let ghost before = out@;
        let ghost rest = s@.skip(i as int);
        let c = chars[i];
        if is_unreserved(c) {
            out.push(c);
        } else {
            let mut one = String::new();
            one.push(c);
            assert(one@ =~= seq![c]);
            push_percent(&mut out, one.as_str().as_bytes());
        }
        i += 1;
        assert(rest.skip(1) =~= s@.skip(i as int));
        assert(out@ =~= before + encoded_char(c));
        assert(out@ + encoded(rest.skip(1)) =~= before + (encoded_char(c) + encoded(
            rest.skip(1),
        )));
    }
    assert(out@ =~= out@ + encoded(s@.skip(i as int)));
    out
}

// ---------------------------------------------------------------------------
// Mounting
// ---------------------------------------------------------------------------

/// The `mount.cifs` options that give the credentials.
pub open spec fn credential_options(c: Credentials) -> Seq<Seq<char>> {
    match c {
        Credentials::File(path) => seq!["credentials="@ + path@],
        Credentials::Inline { username, password } => seq![
            "username="@ + username@,
            "password="@ + password@,
        ],
        Credentials::Guest => seq!["guest"@],
    }
}

/// The option that gives a mount its own session, unless the caller already
/// asks for it.
pub open spec fn session_options(extra: Seq<Seq<char>>) -> Seq<Seq<char>> {
    if extra.contains("nosharesock"@) {
        Seq::empty()
    } else {
        seq!["nosharesock"@]
    }
}

/// The options that `mount.cifs` is given, in order.
pub open spec fn cifs_options(spec: MountSpec<'_>) -> Seq<Seq<char>> {
    credential_options(spec.credentials) + session_options(spec.extra_opts.deep_view())
        + spec.extra_opts.deep_view()
}

/// The arguments of `mount.cifs`.
pub open spec fn cifs_args(spec: MountSpec<'_>) -> Seq<Seq<char>> {
    seq![
        "//"@ + spec.server@ + "/"@ + spec.share@,
        spec.mountpoint@,
        "-o"@,
        text::join(cifs_options(spec), ","@),
    ]
}

/// The credentials in the URL for `mount_smbfs`. A file is not used there:
/// the keychain is.
pub open spec fn url_credentials(c: Credentials) -> Seq<char> {
    match c {
        Credentials::Inline { username, password } => encoded(username@) + ":"@ + encoded(password@)
            + "@"@,
        _ => Seq::empty(),
    }
}

/// The arguments of `mount_smbfs`.
pub open spec fn smbfs_args(spec: MountSpec<'_>) -> Seq<Seq<char>> {
    seq![
        "//"@ + url_credentials(spec.credentials) + spec.server@ + "/"@ + spec.share@,
        spec.mountpoint@,
    ]
}

/// The tool that mounts on a platform.
pub fn mount_tool(platform: Platform) -> (r: Option<&'static str>)
    ensures
        r == match platform {
            Platform::Linux => Some("mount.cifs"),
            Platform::MacOs => Some("mount_smbfs"),
            Platform::Other => None,
        },
{
    match platform {
        Platform::Linux => Some("mount.cifs"),
        Platform::MacOs => Some("mount_smbfs"),
        Platform::Other => None,
    }
}

/// Whether a text is among others.
fn among(texts: &Vec<String>, s: &str) -> (r: bool)
    ensures
        r == texts.deep_view().contains(s@),
{
    let mut i: usize = 0;
    while i < texts.len()
        invariant
            i <= texts@.len(),
            forall|j: int| 0 <= j < i ==> texts.deep_view()[j] != s@,
        decreases texts@.len() - i,
    {
        if text::same_text(texts[i].as_str(), s) {
            assert(texts.deep_view()[i as int] == s@);
            return true;
        }
        i += 1;
    }
    false
}

/// The arguments of `mount.cifs`.
///
/// Besides the credentials and the caller's options the mount carries
/// `nosharesock`: it gets a session of its own and cannot inherit a guest
/// session that an earlier mount of the same server fell back to.
fn mount_cifs_args(spec: &MountSpec<'_>) -> (args: Vec<String>)
    ensures
        args.deep_view() == cifs_args(*spec),
{
    let mut opts = no_args();
    match &spec.credentials {
        Credentials::File(path) => {
            push_arg(&mut opts, "credentials=".to_string().concat(path.as_str()).as_str());
        },
        Credentials::Inline { username, password } => {
            push_arg(&mut opts, "username=".to_string().concat(username.as_str()).as_str());
            push_arg(&mut opts, "password=".to_string().concat(password.as_str()).as_str());
        },
        Credentials::Guest => {
            push_arg(&mut opts, "guest");
        },
    }
    assert(opts.deep_view() =~= credential_options(spec.credentials));
    if !among(&spec.extra_opts, "nosharesock") {
        push_arg(&mut opts, "nosharesock");
    }
    let ghost before = opts.deep_view();
    let mut extra = spec.extra_opts.clone();
    assert(extra@ =~= spec.extra_opts@);
    opts.append(&mut extra);
    assert(opts.deep_view() =~= before + spec.extra_opts.deep_view());
    assert(opts.deep_view() =~= cifs_options(*spec));
    let mut source = "//".to_string();
    source.append(spec.server);
    source.append("/");
    source.append(spec.share);
    let mut args = no_args();
    push_arg(&mut args, source.as_str());
    push_arg(&mut args, spec.mountpoint);
    push_arg(&mut args, "-o");
    push_arg(&mut args, text::join_text(&opts, ",").as_str());
    assert(args.deep_view() =~= cifs_args(*spec));
    args
}

/// The arguments of `mount_smbfs`.
fn mount_smbfs_args(spec: &MountSpec<'_>) -> (args: Vec<String>)
    ensures
        args.deep_view() == smbfs_args(*spec),
{
    let mut url = "//".to_string();
    let ghost start = url@;
    if let Credentials::Inline { username, password } = &spec.credentials {
        url.append(urlencode(username.as_str()).as_str());
        url.append(":");
        url.append(urlencode(password.as_str()).as_str());
        url.append("@");
    }
    assert(url@ =~= start + url_credentials(spec.credentials));
    url.append(spec.server);
    url.append("/");
    url.append(spec.share);
    let mut args = no_args();
    push_arg(&mut args, url.as_str());
    push_arg(&mut args, spec.mountpoint);
    assert(args.deep_view() =~= smbfs_args(*spec));
    args
}

/// How to mount a share on a platform. `tool_found` says whether the
/// platform's [`mount_tool`] is on the `PATH`.
pub fn mount(spec: &MountSpec<'_>, platform: Platform, tool_found: bool) -> (r: Result<
    ToolCommand,
    SmbError,
>)
    ensures
        match platform {
            Platform::Linux => if tool_found {
                r matches Ok(c) && c.tool == "mount.cifs" && c.args.deep_view() == cifs_args(*spec)
            } else {
                r == Err::<ToolCommand, SmbError>(SmbError::MissingTool("mount.cifs"))
            },
            Platform::MacOs => if tool_found {
                r matches Ok(c) && c.tool == "mount_smbfs" && c.args.deep_view() == smbfs_args(
                    *spec,
                )
            } else {
                r == Err::<ToolCommand, SmbError>(SmbError::MissingTool("mount_smbfs"))
            },
            Platform::Other => r == Err::<ToolCommand, SmbError>(SmbError::Unsupported),
        },
{
    match platform {
        Platform::Linux => if tool_found {
            Ok(ToolCommand { tool: "mount.cifs", args: mount_cifs_args(spec) })
        } else {
            Err(SmbError::MissingTool("mount.cifs"))
        },
        Platform::MacOs => if tool_found {
            Ok(ToolCommand { tool: "mount_smbfs", args: mount_smbfs_args(spec) })
        } else {
            Err(SmbError::MissingTool("mount_smbfs"))
        },
        Platform::Other => Err(SmbError::Unsupported),
    }
}

/// How to unmount a share. `tool_found` says whether `umount` is on the
/// `PATH`.
pub fn unmount(mountpoint: &str, tool_found: bool) -> (r: Result<ToolCommand, SmbError>)
    ensures
        if tool_found {
            r matches Ok(c) && c.tool == "umount" && c.args.deep_view() == seq![mountpoint@]
        } else {
            r == Err::<ToolCommand, SmbError>(SmbError::MissingTool("umount"))
        },
{
    if !tool_found {
        return Err(SmbError::MissingTool("umount"));
    }
    let mut args = no_args();
    push_arg(&mut args, mountpoint);
    assert(args.deep_view() =~= seq![mountpoint@]);
    Ok(ToolCommand { tool: "umount", args })
}

// ---------------------------------------------------------------------------
// Laws
// ---------------------------------------------------------------------------

/// Every CIFS mount gets a session of its own, so that a cached guest session
/// cannot poison its authentication.
pub proof fn law_mount_has_its_own_session(spec: MountSpec<'_>)
    ensures
        cifs_options(spec).contains("nosharesock"@),
{
    let c = credential_options(spec.credentials);
    let own = session_options(spec.extra_opts.deep_view());
    let extra = spec.extra_opts.deep_view();
    let all = cifs_options(spec);
    if extra.contains("nosharesock"@) {
        let i = choose|i: int| 0 <= i < extra.len() && extra[i] == "nosharesock"@;
        assert(all[c.len() + own.len() + i] == "nosharesock"@);
    } else {
        assert(own[0] == "nosharesock"@);
        assert(all[c.len() as int] == "nosharesock"@);
    }
}

/// A text of unreserved characters is its own encoding.
pub proof fn law_urlencode_keeps_unreserved(s: Seq<char>)
    requires
        forall|i: int| 0 <= i < s.len() ==> unreserved(#[trigger] s[i]),
    ensures
        encoded(s) == s,
    decreases s.len(),
{
    if s.len() > 0 {
        let rest = s.skip(1);
        assert forall|i: int| 0 <= i < rest.len() implies unreserved(#[trigger] rest[i]) by {
            assert(rest[i] == s[i + 1]);
        }
        law_urlencode_keeps_unreserved(rest);
        assert(unreserved(s[0]));
        assert(seq![s[0]] + rest =~= s);
    }
}

/// An encoding holds unreserved characters and `%` only, so none of the
/// characters that structure a URL.
pub proof fn law_urlencode_is_safe(s: Seq<char>, i: int)
    requires
        0 <= i < encoded(s).len(),
    ensures
        unreserved(encoded(s)[i]) || encoded(s)[i] == '%',
    decreases s.len(),
{
    if s.len() > 0 {
        let head = encoded_char(s[0]);
        let tail = encoded(s.skip(1));
        if i < head.len() {
            if !unreserved(s[0]) {
                lemma_percent_is_safe(vstd::utf8::encode_utf8(seq![s[0]]), i);
            }
            assert(encoded(s)[i] == head[i]);
        } else {
            law_urlencode_is_safe(s.skip(1), i - head.len());
            assert(encoded(s)[i] == tail[i - head.len()]);
        }
    }
}

/// Encoded bytes are hexadecimal digits and `%`.
proof fn lemma_percent_is_safe(bytes: Seq<u8>, i: int)
    requires
        0 <= i < percent(bytes).len(),
    ensures
        unreserved(percent(bytes)[i]) || percent(bytes)[i] == '%',
    decreases bytes.len(),
{
    if bytes.len() > 0 {
        if i >= 3 {
            lemma_percent_is_safe(bytes.skip(1), i - 3);
            assert(percent(bytes)[i] == percent(bytes.skip(1))[i - 3]);
        } else {
            let head = seq!['%', hex_digit(bytes[0] / 16), hex_digit(bytes[0] % 16)];
            assert(percent(bytes)[i] == head[i]);
        }
    }
}

/// The number that a hexadecimal digit stands for.
pub open spec fn hex_value(c: char) -> int {
    if c <= '9' {
        c as int - 48
    } else {
        c as int - 55
    }
}

/// The bytes that a URL component stands for.
pub open spec fn url_bytes(s: Seq<char>) -> Seq<u8>
    decreases s.len(),
{
    if s.len() == 0 {
        Seq::empty()
    } else if s[0] == '%' && s.len() >= 3 {
        seq![(hex_value(s[1]) * 16 + hex_value(s[2])) as u8] + url_bytes(s.skip(3))
    } else {
        seq![s[0] as u8] + url_bytes(s.skip(1))
    }
}

/// An encoding stands for the UTF-8 bytes of the text: a server that decodes
/// the URL gets what was given.
pub proof fn law_urlencode_is_undone_by_decoding(s: Seq<char>)
    ensures
        url_bytes(encoded(s)) == vstd::utf8::encode_utf8(s),
    decreases s.len(),
{
    if s.len() > 0 {
        let c = s[0];
        let rest = s.skip(1);
        let tail = encoded(rest);
        law_urlencode_is_undone_by_decoding(rest);
        assert(s.drop_first() =~= rest);
        let bytes = vstd::utf8::encode_scalar(c as u32);
        if unreserved(c) {
            let n = c as u32;
            assert((n & 0x7f) as u8 == n as u8) by (bit_vector)
                requires
                    n < 128,
            ;
            assert(bytes =~= seq![c as u8]);
            assert((seq![c] + tail).skip(1) =~= tail);
        } else {
            let one = seq![c];
            assert(one.drop_first() =~= Seq::empty());
            reveal_with_fuel(vstd::utf8::encode_utf8, 2);
            assert(vstd::utf8::encode_utf8(one) =~= bytes);
            lemma_url_bytes_of_percent(bytes, tail);
        }
    }
}

/// Encoded bytes are decoded one by one.
proof fn lemma_url_bytes_of_percent(bytes: Seq<u8>, rest: Seq<char>)
    ensures
        url_bytes(percent(bytes) + rest) == bytes + url_bytes(rest),
    decreases bytes.len(),
{
    if bytes.len() == 0 {
        assert(percent(bytes) + rest =~= rest);
        assert(bytes + url_bytes(rest) =~= url_bytes(rest));
    } else {
        let b = bytes[0];
        let more = percent(bytes.skip(1)) + rest;
        let s = percent(bytes) + rest;
        lemma_url_bytes_of_percent(bytes.skip(1), rest);
        assert(s.skip(3) =~= more);
        assert(s[0] == '%' && s[1] == hex_digit(b / 16) && s[2] == hex_digit(b % 16));
        assert(hex_value(s[1]) == b / 16 && hex_value(s[2]) == b % 16);
        assert(url_bytes(s) =~= bytes + url_bytes(rest));
    }
}

/// How a character is encoded depends on that character alone: encoding two
/// texts one after the other is encoding them together.
pub proof fn law_urlencode_is_character_by_character(a: Seq<char>, b: Seq<char>)
    ensures
        encoded(Seq::empty()) == Seq::<char>::empty(),
        encoded(a + b) == encoded(a) + encoded(b),
    decreases a.len(),
{
    if a.len() == 0 {
        assert(a + b =~= b);
        assert(encoded(a) + encoded(b) =~= encoded(b));
    } else {
        assert((a + b)[0] == a[0]);
        assert((a + b).skip(1) =~= a.skip(1) + b);
        law_urlencode_is_character_by_character(a.skip(1), b);
        assert(encoded(a + b) =~= encoded(a) + encoded(b));
    }
}

/// ASCII digits and letters and `-`, `.`, `_` and `~` stay; any other
/// character becomes, for each of its UTF-8 bytes (here the one at `k`), `%`
/// and the byte in two upper-case hexadecimal digits, the higher one first.
pub proof fn law_urlencode_of_one_character(c: char, k: int)
    ensures
        ({
            let n = c as int;
            let stays = 0x30 <= n <= 0x39 || 0x41 <= n <= 0x5a || 0x61 <= n <= 0x7a || n == 0x2d
                || n == 0x2e || n == 0x5f || n == 0x7e;
            let bytes = vstd::utf8::encode_utf8(seq![c]);
            let out = encoded(seq![c]);
            if stays {
                out == seq![c]
            } else {
                &&& out.len() == 3 * bytes.len()
                &&& 0 <= k < bytes.len() ==> {
                    &&& out[3 * k] == '%'
                    &&& out[3 * k + 1] == "0123456789ABCDEF"@[bytes[k] as int / 16]
                    &&& out[3 * k + 2] == "0123456789ABCDEF"@[bytes[k] as int % 16]
                }
            }
        }),
{
    let one = seq![c];
    assert(one.skip(1) =~= Seq::empty());
    law_urlencode_is_character_by_character(one.skip(1), one.skip(1));
    assert(encoded(one) =~= encoded_char(c));
    if !unreserved(c) {
        let bytes = vstd::utf8::encode_utf8(one);
        lemma_percent_len(bytes);
        if 0 <= k < bytes.len() {
            lemma_percent_digits(bytes, k);
        }
    }
}

/// One encoded byte, digit by digit.
proof fn lemma_percent_digits(bytes: Seq<u8>, k: int)
    requires
        0 <= k < bytes.len(),
    ensures
        percent(bytes).len() == 3 * bytes.len(),
        percent(bytes)[3 * k] == '%',
        percent(bytes)[3 * k + 1] == "0123456789ABCDEF"@[bytes[k] as int / 16],
        percent(bytes)[3 * k + 2] == "0123456789ABCDEF"@[bytes[k] as int % 16],
    decreases bytes.len(),
{
    let rest = bytes.skip(1);
    let out = percent(bytes);
    let head = seq!['%', hex_digit(bytes[0] / 16), hex_digit(bytes[0] % 16)];
    lemma_percent_len(bytes);
    lemma_percent_len(rest);
    if k == 0 {
        lemma_hex_digit(bytes[0] / 16);
        lemma_hex_digit(bytes[0] % 16);
        assert(out[0] == head[0] && out[1] == head[1] && out[2] == head[2]);
    } else {
        lemma_percent_digits(rest, k - 1);
        assert(rest[k - 1] == bytes[k]);
        assert(out[3 * k] == percent(rest)[3 * (k - 1)]);
        assert(out[3 * k + 1] == percent(rest)[3 * (k - 1) + 1]);
        assert(out[3 * k + 2] == percent(rest)[3 * (k - 1) + 2]);
    }
}

/// Each byte takes three characters.
proof fn lemma_percent_len(bytes: Seq<u8>)
    ensures
        percent(bytes).len() == 3 * bytes.len(),
    decreases bytes.len(),
{
    if bytes.len() > 0 {
        lemma_percent_len(bytes.skip(1));
    }
}

/// The hexadecimal digits in order.
proof fn lemma_hex_digit(n: u8)
    requires
        n < 16,
    ensures
        hex_digit(n) == "0123456789ABCDEF"@[n as int],
{
    reveal_strlit("0123456789ABCDEF");
}

/// Whatever the credentials, the options of a CIFS mount end with the caller's
/// own, as they are written, all of them and in order. Before them stands what
/// gives the credentials, and then, unless the caller asks for it already,
/// `nosharesock`; nothing else.
pub proof fn law_callers_options_come_last(spec: MountSpec<'_>)
    ensures
        ({
            let e = spec.extra_opts.deep_view();
            let all = cifs_options(spec);
            let given = all.take(all.len() - e.len());
            let own = if e.contains("nosharesock"@) {
                0int
            } else {
                1int
            };
            &&& all.len() >= e.len()
            &&& all.skip(all.len() - e.len()) == e
            &&& own == 1 ==> given.last() == "nosharesock"@
            &&& match spec.credentials {
                Credentials::File(path) => given.len() == 1 + own && given[0] == "credentials="@
                    + path@,
                Credentials::Inline { username, password } => given.len() == 2 + own && given[0]
                    == "username="@ + username@ && given[1] == "password="@ + password@,
                Credentials::Guest => given.len() == 1 + own && given[0] == "guest"@,
            }
        }),
{
    let e = spec.extra_opts.deep_view();
    let all = cifs_options(spec);
    assert(all.skip(all.len() - e.len()) =~= e);
}

/// `mount.cifs` is told the share, the mountpoint and, after `-o`, the options
/// with commas between them: the credentials, `nosharesock` unless the caller
/// asks for it, and the caller's options.
pub proof fn law_mount_cifs_arguments(spec: MountSpec<'_>)
    ensures
        ({
            let e = spec.extra_opts.deep_view();
            let login = match spec.credentials {
                Credentials::File(path) => "credentials="@ + path@,
                Credentials::Inline { username, password } => "username="@ + username@
                    + ",password="@ + password@,
                Credentials::Guest => "guest"@,
            };
            let own = if e.contains("nosharesock"@) {
                Seq::empty()
            } else {
                ",nosharesock"@
            };
            let rest = if e.len() == 0 {
                Seq::empty()
            } else {
                ","@ + text::join(e, ","@)
            };
            &&& cifs_args(spec).len() == 4
            &&& cifs_args(spec)[0] == "//"@ + spec.server@ + "/"@ + spec.share@
            &&& cifs_args(spec)[1] == spec.mountpoint@
            &&& cifs_args(spec)[2] == "-o"@
            &&& cifs_args(spec)[3] == login + own + rest
        }),
{
    reveal_strlit(",");
    reveal_strlit("nosharesock");
    reveal_strlit(",nosharesock");
    reveal_strlit("password=");
    reveal_strlit(",password=");
    assert(",nosharesock"@ =~= ","@ + "nosharesock"@);
    assert(",password="@ =~= ","@ + "password="@);
    let e = spec.extra_opts.deep_view();
    let c = credential_options(spec.credentials);
    let s = session_options(e);
    let none = Seq::<char>::empty();
    let login = match spec.credentials {
        Credentials::File(path) => "credentials="@ + path@,
        Credentials::Inline { username, password } => "username="@ + username@ + ",password="@
            + password@,
        Credentials::Guest => "guest"@,
    };
    match spec.credentials {
        Credentials::Inline { username, password } => {
            let u = "username="@ + username@;
            let p = "password="@ + password@;
            text::law_join_writes_between_neighbours(seq![u], seq![p], u, ","@);
            text::law_join_writes_between_neighbours(seq![u], seq![p], p, ","@);
            assert(seq![u] + seq![p] =~= c);
            assert(text::join(c, ","@) =~= login);
        },
        _ => {
            text::law_join_writes_between_neighbours(c, s, login, ","@);
            assert(c =~= seq![login]);
        },
    }
    assert(text::join(c, ","@) == login);
    text::law_join_writes_between_neighbours(c, s, "nosharesock"@, ","@);
    if s.len() == 0 {
        assert(c + s =~= c);
        assert(text::join(c + s, ","@) =~= login + none);
    } else {
        assert(s =~= seq!["nosharesock"@]);
        assert(text::join(c + s, ","@) =~= login + ",nosharesock"@);
    }
    text::law_join_writes_between_neighbours(c + s, e, none, ","@);
    if e.len() == 0 {
        assert(c + s + e =~= c + s);
        assert(text::join(c + s + e, ","@) =~= text::join(c + s, ","@) + none);
    } else {
        assert(text::join(c + s + e, ","@) =~= text::join(c + s, ","@) + (","@ + text::join(
            e,
            ","@,
        )));
    }
}

/// `mount_smbfs` is told the URL of the share and the mountpoint. Only inline
/// credentials are in the URL, encoded, before the server.
pub proof fn law_mount_smbfs_arguments(spec: MountSpec<'_>)
    ensures
        smbfs_args(spec).len() == 2,
        smbfs_args(spec)[1] == spec.mountpoint@,
        smbfs_args(spec)[0] == match spec.credentials {
            Credentials::Inline { username, password } => "//"@ + encoded(username@) + ":"@
                + encoded(password@) + "@"@ + spec.server@ + "/"@ + spec.share@,
            _ => "//"@ + spec.server@ + "/"@ + spec.share@,
        },
{
    match spec.credentials {
        Credentials::Inline { username, password } => {
            assert(smbfs_args(spec)[0] =~= "//"@ + encoded(username@) + ":"@ + encoded(password@)
                + "@"@ + spec.server@ + "/"@ + spec.share@);
        },
        _ => {
            assert(smbfs_args(spec)[0] =~= "//"@ + spec.server@ + "/"@ + spec.share@);
        },
    }
}

} // verus!
