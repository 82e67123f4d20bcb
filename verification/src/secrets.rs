//! The secret file of an inline credential.
use vstd::prelude::*;
use vstd::string::*;
use crate::options::{CredentialsView, OptionsView, SmbCredentials, SmbOptions};
use crate::storage::{SecretFile, SecretRef};
use crate::text;

verus! {

/// The lines of a credentials file.
pub open spec fn creds_lines(
    username: Seq<char>,
    password: Seq<char>,
    domain: Option<Seq<char>>,
) -> Seq<Seq<char>> {
    let two = seq!["username="@ + username, "password="@ + password];
    match domain {
        Some(d) => two.push("domain="@ + d),
        None => two,
    }
}

/// The lines written one after the other, each ended by a newline.
pub open spec fn written(lines: Seq<Seq<char>>) -> Seq<char>
    decreases lines.len(),
{
    if lines.len() == 0 {
        Seq::empty()
    } else {
        lines[0].push('\n') + written(lines.skip(1))
    }
}

/// The contents of a credentials file.
pub open spec fn creds_text(
    username: Seq<char>,
    password: Seq<char>,
    domain: Option<Seq<char>>,
) -> Seq<char> {
    written(creds_lines(username, password, domain))
}

/// Appends one `key=value` line.
fn push_line(s: &mut String, key: &str, value: &str)
    ensures
        final(s)@ == old(s)@ + (key@ + value@).push('\n'),
{
    s.append(key);
    s.append(value);
    s.push('\n');
    assert(s@ =~= old(s)@ + (key@ + value@).push('\n'));
}

/// The contents of the file that `mount.cifs` reads credentials from:
/// `username=`, `password=` and, where there is one, `domain=`, one per line.
/// `password` is the password itself, so the result goes to the privileged
/// writer and nowhere else.
pub fn render_creds_file(username: &str, password: &str, domain: Option<&str>) -> (s: String)
    ensures
        s@ == creds_text(username@, password@, domain.deep_view()),
{
    let mut s = String::new();
    push_line(&mut s, "username=", username);
    push_line(&mut s, "password=", password);
    if let Some(d) = domain {
        push_line(&mut s, "domain=", d);
    }
    proof {
        let lines = creds_lines(username@, password@, domain.deep_view());
        reveal_with_fuel(written, 4);
        assert(lines.skip(1)[0] == lines[1]);
        if domain is Some {
            assert(lines.skip(1).skip(1)[0] == lines[2]);
        }
        assert(s@ =~= written(lines));
    }
    s
}

/// The reference of the password that a mount needs resolved: that of an
/// inline credential.
pub fn secret_to_resolve(o: &SmbOptions) -> (r: Option<SecretRef>)
    ensures
        match o.deep_view().credentials {
            CredentialsView::Inline { password, .. } => r.deep_view() == Some(password),
            _ => r is None,
        },
{
    match &o.credentials {
        SmbCredentials::Inline { password, .. } => Some(password.copied()),
        _ => None,
    }
}

/// What the world outside says about the secret file of a mount.
#[derive(Debug, Clone, PartialEq, Eq)]
pub struct SecretContext {
    /// Where the mount's secret file goes.
    pub path: String,
    /// Whether the privileged writer admits that path.
    pub path_allowed: bool,
    /// The password that [`secret_to_resolve`] asks for, if it was found.
    pub plaintext: Option<String>,
}

/// The secret file of a mount, path and contents: there is one for an inline
/// credential whose password was found and whose path is admitted. Otherwise
/// nothing is written, and the mount fails to authenticate.
pub open spec fn secret_file(o: OptionsView, secret: SecretContext) -> Option<
    (Seq<char>, Seq<char>),
> {
    match (o.credentials, secret.plaintext) {
        (CredentialsView::Inline { username, domain, .. }, Some(password)) if secret.path_allowed => Some(
            (secret.path@, creds_text(username, password@, domain)),
        ),
        _ => None,
    }
}

/// Builds the secret file of a mount.
pub fn build_secret_file(o: &SmbOptions, secret: &SecretContext) -> (r: Option<SecretFile>)
    ensures
        match secret_file(o.deep_view(), *secret) {
            Some((path, contents)) => r matches Some(f) && f.path@ == path && f.contents@
                == contents,
            None => r is None,
        },
{
    match &o.credentials {
        SmbCredentials::Inline { username, domain, .. } => match &secret.plaintext {
            Some(password) => {
                if !secret.path_allowed {
                    return None;
                }
                let domain = match domain {
                    Some(d) => Some(d.as_str()),
                    None => None,
                };
                Some(
                    SecretFile {
                        path: secret.path.clone(),
                        contents: render_creds_file(username.as_str(), password.as_str(), domain),
                    },
                )
            },
            None => None,
        },
        _ => None,
    }
}

// ---------------------------------------------------------------------------
// Laws
// ---------------------------------------------------------------------------

/// Lines that hold no newline are found again, one by one, in what is written,
/// with nothing after the last newline.
proof fn lemma_written_lines(lines: Seq<Seq<char>>)
    requires
        forall|i: int| 0 <= i < lines.len() ==> !(#[trigger] lines[i]).contains('\n'),
    ensures
        text::split(written(lines), '\n') == lines.push(Seq::empty()),
    decreases lines.len(),
{
    let s = written(lines);
    if lines.len() == 0 {
        assert(text::split(s, '\n') =~= lines.push(Seq::empty()));
    } else {
        let head = lines[0];
        let rest = lines.skip(1);
        assert forall|i: int| 0 <= i < rest.len() implies !(#[trigger] rest[i]).contains('\n') by {
            assert(rest[i] == lines[i + 1]);
        }
        lemma_written_lines(rest);
        assert forall|j: int| 0 <= j < head.len() implies s[j] != '\n' by {
            assert(s[j] == head[j]);
            assert(head.contains(head[j]));
        }
        text::lemma_find_is(s, '\n', head.len() as int);
        assert(s.take(head.len() as int) =~= head);
        assert(s.skip(head.len() as int + 1) =~= written(rest));
        assert(text::split(s, '\n') =~= lines.push(Seq::empty()));
    }
}

/// A credentials file holds its fields one per line, in order, and nothing
/// else: where no field holds a newline, splitting the file at newlines gives
/// the lines back.
pub proof fn law_creds_file_is_one_field_per_line(
    username: Seq<char>,
    password: Seq<char>,
    domain: Option<Seq<char>>,
)
    requires
        !username.contains('\n'),
        !password.contains('\n'),
        domain matches Some(d) ==> !d.contains('\n'),
    ensures
        text::split(creds_text(username, password, domain), '\n') == creds_lines(
            username,
            password,
            domain,
        ).push(Seq::empty()),
{
    reveal_strlit("username=");
    reveal_strlit("password=");
    reveal_strlit("domain=");
    let lines = creds_lines(username, password, domain);
    assert forall|i: int| 0 <= i < lines.len() implies !(#[trigger] lines[i]).contains('\n') by {
        let line = lines[i];
        if line.contains('\n') {
            let j = choose|j: int| 0 <= j < line.len() && line[j] == '\n';
            if i == 0 && j >= 9 {
                assert(username[j - 9] == '\n');
            } else if i == 1 && j >= 9 {
                assert(password[j - 9] == '\n');
            } else if i == 2 && j >= 7 {
                assert((domain->0)[j - 7] == '\n');
            }
        }
    }
    lemma_written_lines(lines);
}

/// A credentials file is, character by character, `username=` and the
/// username, `password=` and the password and, where there is a domain,
/// `domain=` and the domain, a newline after each. Every field stands in it
/// whole, whatever characters it is made of.
pub proof fn law_creds_file_text(
    username: Seq<char>,
    password: Seq<char>,
    domain: Option<Seq<char>>,
)
    ensures
        creds_text(username, password, domain) == "username="@ + username + "\n"@ + "password="@
            + password + "\n"@ + match domain {
            Some(d) => "domain="@ + d + "\n"@,
            None => Seq::empty(),
        },
{
    reveal_strlit("\n");
    assert("\n"@ =~= seq!['\n']);
    let lines = creds_lines(username, password, domain);
    reveal_with_fuel(written, 4);
    assert(lines.skip(1)[0] == lines[1]);
    if domain is Some {
        assert(lines.skip(1).skip(1)[0] == lines[2]);
    }
    assert(creds_text(username, password, domain) =~= "username="@ + username + "\n"@
        + "password="@ + password + "\n"@ + match domain {
        Some(d) => "domain="@ + d + "\n"@,
        None => Seq::empty(),
    });
}

/// A reader of a credentials file that cuts it at newlines, and each line at
/// the first `=`, gets every field back as it was given, under its key.
pub proof fn law_creds_file_gives_the_fields_back(
    username: Seq<char>,
    password: Seq<char>,
    domain: Option<Seq<char>>,
)
    requires
        !username.contains('\n'),
        !password.contains('\n'),
        domain matches Some(d) ==> !d.contains('\n'),
    ensures
        ({
            let lines = text::split(creds_text(username, password, domain), '\n');
            &&& lines.len() == if domain is Some {
                4int
            } else {
                3int
            }
            &&& lines.last().len() == 0
            &&& lines[0].take(text::find(lines[0], '=') as int) == "username"@
            &&& lines[0].skip(text::find(lines[0], '=') as int + 1) == username
            &&& lines[1].take(text::find(lines[1], '=') as int) == "password"@
            &&& lines[1].skip(text::find(lines[1], '=') as int + 1) == password
            &&& domain matches Some(d) ==> lines[2].take(text::find(lines[2], '=') as int)
                == "domain"@ && lines[2].skip(text::find(lines[2], '=') as int + 1) == d
        }),
{
    law_creds_file_is_one_field_per_line(username, password, domain);
    reveal_strlit("username=");
    reveal_strlit("username");
    reveal_strlit("password=");
    reveal_strlit("password");
    reveal_strlit("domain=");
    reveal_strlit("domain");
    let u = "username="@ + username;
    text::lemma_find_is(u, '=', 8);
    assert(u.take(8) =~= "username"@);
    assert(u.skip(9) =~= username);
    let p = "password="@ + password;
    text::lemma_find_is(p, '=', 8);
    assert(p.take(8) =~= "password"@);
    assert(p.skip(9) =~= password);
    if let Some(d) = domain {
        let l = "domain="@ + d;
        text::lemma_find_is(l, '=', 6);
        assert(l.take(6) =~= "domain"@);
        assert(l.skip(7) =~= d);
    }
}

/// A mount has a secret file exactly where its credential is inline, the
/// password was found and the path is admitted. The file is at that path, and
/// holds the declared username and domain and the found password, whole.
pub proof fn law_secret_file_is_of_a_found_inline_credential(
    o: OptionsView,
    secret: SecretContext,
)
    ensures
        secret_file(o, secret) is Some <==> o.credentials is Inline && secret.plaintext is Some
            && secret.path_allowed,
        secret_file(o, secret) matches Some((path, contents)) ==> {
            &&& path == secret.path@
            &&& contents == "username="@ + o.credentials->username + "\n"@ + "password="@
                + secret.plaintext->0@ + "\n"@ + match o.credentials->Inline_domain {
                Some(d) => "domain="@ + d + "\n"@,
                None => Seq::empty(),
            }
        },
{
    if let CredentialsView::Inline { username, domain, .. } = o.credentials {
        if let Some(password) = secret.plaintext {
            law_creds_file_text(username, password@, domain);
        }
    }
}

} // verus!
