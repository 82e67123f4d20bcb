//! Discovering the shares that a server advertises, with `smbclient -L`.
use vstd::prelude::*;
use vstd::string::*;
use crate::error::SmbError;
use crate::mounting::Credentials;
use crate::text;
use crate::tool::{no_args, push_arg, tool_failed, ToolCommand};

verus! {

/// One share advertised by a server.
#[derive(Debug, Clone, PartialEq, Eq)]
pub struct Share {
    pub name: String,
    pub kind: ShareKind,
    pub comment: String,
}

/// What a share is.
#[derive(Debug, Clone, Copy, PartialEq, Eq, Structural)]
pub enum ShareKind {
    Disk,
    Ipc,
    Printer,
    Other,
}

/// The contents of a [`Share`].
pub struct ShareView {
    pub name: Seq<char>,
    pub kind: ShareKind,
    pub comment: Seq<char>,
}

impl DeepView for Share {
    type V = ShareView;

    open spec fn deep_view(&self) -> ShareView {
        ShareView { name: self.name@, kind: self.kind, comment: self.comment@ }
    }
}

// ---------------------------------------------------------------------------
// The listing
// ---------------------------------------------------------------------------

/// The kind that a listing names, if it is one that is listed.
pub open spec fn kind_named(s: Seq<char>) -> Option<ShareKind> {
    if s == "Disk"@ {
        Some(ShareKind::Disk)
    } else if s == "IPC"@ {
        Some(ShareKind::Ipc)
    } else if s == "Printer"@ {
        Some(ShareKind::Printer)
    } else {
        None
    }
}

/// The share on one line of a listing, `kind|name|comment`. White space round
/// the kind does not count, the comment may be missing, and what follows it
/// is ignored.
pub open spec fn share_on(line: Seq<char>) -> Option<ShareView> {
    let fields = text::split(line, '|');
    match kind_named(text::trim(fields[0])) {
        Some(kind) if fields.len() >= 2 => Some(
            ShareView {
                name: fields[1],
                kind,
                comment: if fields.len() >= 3 {
                    fields[2]
                } else {
                    Seq::empty()
                },
            },
        ),
        _ => None,
    }
}

/// The shares on a list of lines, in order.
pub open spec fn shares_on(lines: Seq<Seq<char>>) -> Seq<ShareView>
    decreases lines.len(),
{
    if lines.len() == 0 {
        Seq::empty()
    } else {
        let rest = shares_on(lines.drop_last());
        match share_on(lines.last()) {
            Some(share) => rest.push(share),
            None => rest,
        }
    }
}

/// The shares in a listing, in order.
pub open spec fn shares(raw: Seq<char>) -> Seq<ShareView> {
    shares_on(text::lines(raw))
}

/// The kind that a listing names, if it is one that is listed.
fn read_kind(s: &str) -> (r: Option<ShareKind>)
    ensures
        r == kind_named(s@),
{
    if text::same_text(s, "Disk") {
        Some(ShareKind::Disk)
    } else if text::same_text(s, "IPC") {
        Some(ShareKind::Ipc)
    } else if text::same_text(s, "Printer") {
        Some(ShareKind::Printer)
    } else {
        None
    }
}

/// Reads one line of a listing.
fn read_share(line: &str) -> (r: Option<Share>)
    ensures
        r.deep_view() == share_on(line@),
{
    let fields = text::split_text(line, '|');
    proof {
        text::lemma_split_pieces(line@, '|');
    }
    let ghost views = fields.deep_view();
    assert(views.len() == fields@.len());
    assert(views[0] == fields[0]@);
    let kind = read_kind(text::trim_text(fields[0].as_str()).as_str());
    if fields.len() < 2 {
        return None;
    }
    assert(views[1] == fields[1]@);
    let comment = if fields.len() >= 3 {
        assert(views[2] == fields[2]@);
        fields[2].clone()
    } else {
        String::new()
    };
    match kind {
        Some(kind) => Some(Share { name: fields[1].clone(), kind, comment }),
        None => None,
    }
}

/// Reads the listing that `smbclient -g` prints, one share per line:
///
/// ```text
/// Disk|public|Public files
/// IPC|IPC$|IPC Service (Samba 4.x)
/// ```
///
/// Lines of another kind, or without a name, are skipped.
pub fn parse_smbclient_shares(raw: &str) -> (r: Vec<Share>)
    ensures
        r.deep_view() == shares(raw@),
{
    let lines = text::split_lines(raw);
    let ghost all = text::lines(raw@);
    let mut r: Vec<Share> = Vec::new();
    let mut i: usize = 0;
    assert(r.deep_view() =~= shares_on(all.take(0)));
    while i < lines.len()
        invariant
            i <= lines@.len(),
            lines.deep_view() == all,
            r.deep_view() == shares_on(all.take(i as int)),
        decreases lines@.len() - i,
    {
        let ghost before = r.deep_view();
        let ghost longer = all.take(i + 1);
        assert(longer.drop_last() =~= all.take(i as int));
        assert(longer.last() == lines[i as int]@);
        if let Some(share) = read_share(lines[i].as_str()) {
            r.push(share);
            assert(r.deep_view() =~= before.push(share.deep_view()));
        }
        i += 1;
    }
    assert(all.take(all.len() as int) =~= all);
    r
}

// ---------------------------------------------------------------------------
// Running smbclient
// ---------------------------------------------------------------------------

/// What a finished process left behind.
#[derive(Debug, Clone, PartialEq, Eq)]
pub struct ToolOutput {
    pub success: bool,
    pub code: Option<i32>,
    pub stdout: Vec<u8>,
    pub stderr: Vec<u8>,
}

/// The arguments of `smbclient` that give the credentials.
pub open spec fn credential_args(c: Credentials) -> Seq<Seq<char>> {
    match c {
        Credentials::Guest => seq!["-N"@],
        Credentials::Inline { username, password } => seq![
            "-U"@,
            username@ + "%"@ + password@,
        ],
        Credentials::File(path) => seq!["-A"@, path@],
    }
}

/// The arguments of `smbclient` that list the shares of a server.
pub open spec fn list_args(server: Seq<char>, c: Credentials) -> Seq<Seq<char>> {
    seq!["-L"@, "//"@ + server, "-g"@] + credential_args(c)
}

/// How to list the shares of a server. `tool_found` says whether `smbclient`
/// is on the `PATH`; [`read_shares`] reads what it prints.
pub fn list_shares(server: &str, credentials: &Credentials, tool_found: bool) -> (r: Result<
    ToolCommand,
    SmbError,
>)
    ensures
        if tool_found {
            r matches Ok(c) && c.tool == "smbclient" && c.args.deep_view() == list_args(
                server@,
                *credentials,
            )
        } else {
            r == Err::<ToolCommand, SmbError>(SmbError::MissingTool("smbclient"))
        },
{
    if !tool_found {
        return Err(SmbError::MissingTool("smbclient"));
    }
    let mut args = no_args();
    push_arg(&mut args, "-L");
    push_arg(&mut args, "//".to_string().concat(server).as_str());
    push_arg(&mut args, "-g");
    match credentials {
        Credentials::Guest => {
            push_arg(&mut args, "-N");
        },
        Credentials::Inline { username, password } => {
            push_arg(&mut args, "-U");
            let mut s = username.clone();
            s.append("%");
            s.append(password.as_str());
            push_arg(&mut args, s.as_str());
        },
        Credentials::File(path) => {
            push_arg(&mut args, "-A");
            push_arg(&mut args, path.as_str());
        },
    }
    assert(args.deep_view() =~= list_args(server@, *credentials));
    Ok(ToolCommand { tool: "smbclient", args })
}

/// What `String::from_utf8_lossy` makes of bytes.
pub uninterp spec fn lossy_utf8(bytes: Seq<u8>) -> Seq<char>;

/// `String::from_utf8_lossy`: the text that the bytes encode, with
/// replacement characters where they are not UTF-8. Bytes that are UTF-8 give
/// the text they encode; where the replacement characters go is not stated.
#[verifier::external_body]
fn decode_lossy(bytes: &Vec<u8>) -> (s: String)
    ensures
        s@ == lossy_utf8(bytes@),
        vstd::utf8::valid_utf8(bytes@) ==> s@ == vstd::utf8::decode_utf8(bytes@),
{
    String::from_utf8_lossy(bytes.as_slice()).into_owned()
}

/// `std::str::from_utf8`: the text that the bytes encode, or nothing where
/// they are not UTF-8.
#[verifier::external_body]
fn decode_strict(bytes: &Vec<u8>) -> (r: Option<String>)
    ensures
        r is Some <==> vstd::utf8::valid_utf8(bytes@),
        r matches Some(s) ==> s@ == vstd::utf8::decode_utf8(bytes@),
{
    match std::str::from_utf8(bytes.as_slice()) {
        Ok(s) => Some(s.to_string()),
        Err(_) => None,
    }
}

/// The text that a listing's bytes encode; bytes that are not UTF-8 list
/// nothing.
pub open spec fn listing_text(stdout: Seq<u8>) -> Seq<char> {
    if vstd::utf8::valid_utf8(stdout) {
        vstd::utf8::decode_utf8(stdout)
    } else {
        Seq::empty()
    }
}

/// What a run of `smbclient` says: the shares it listed, its failure, or that
/// it could not be run at all, with the message of the I/O error.
pub fn read_shares(run: Result<ToolOutput, String>) -> (r: Result<Vec<Share>, SmbError>)
    ensures
        match run {
            Err(m) => r == Err::<Vec<Share>, SmbError>(SmbError::Io(m)),
            Ok(output) => if output.success {
                r matches Ok(list) && list.deep_view() == shares(listing_text(output.stdout@))
            } else {
                r matches Err(SmbError::ToolFailed { tool, code, stderr }) && tool == "smbclient"
                    && code == output.code && stderr@ == lossy_utf8(output.stderr@) && (
                vstd::utf8::valid_utf8(output.stderr@) ==> stderr@ == vstd::utf8::decode_utf8(
                    output.stderr@,
                ))
            },
        },
{
    match run {
        Err(m) => Err(SmbError::Io(m)),
        Ok(output) => if output.success {
            match decode_strict(&output.stdout) {
                Some(listing) => Ok(parse_smbclient_shares(listing.as_str())),
                None => {
                    proof {
                        reveal_strlit("");
                        assert(""@ =~= Seq::empty());
                    }
                    Ok(parse_smbclient_shares(""))
                },
            }
        } else {
            Err(tool_failed("smbclient", output.code, decode_lossy(&output.stderr)))
        },
    }
}

// ---------------------------------------------------------------------------
// Laws
// ---------------------------------------------------------------------------

/// The shares of two lists of lines are those of the first, then those of the
/// second.
proof fn lemma_shares_concat(a: Seq<Seq<char>>, b: Seq<Seq<char>>)
    ensures
        shares_on(a + b) == shares_on(a) + shares_on(b),
    decreases b.len(),
{
    if b.len() == 0 {
        assert(a + b =~= a);
        assert(shares_on(a) + shares_on(b) =~= shares_on(a));
    } else {
        assert((a + b).last() == b.last());
        assert((a + b).drop_last() =~= a + b.drop_last());
        lemma_shares_concat(a, b.drop_last());
        assert(shares_on(a + b) =~= shares_on(a) + shares_on(b));
    }
}

/// The lines of two texts, where the first ends its last line.
proof fn lemma_lines_concat(a: Seq<char>, b: Seq<char>)
    requires
        a.len() == 0 || a.last() == '\n',
    ensures
        text::lines(a + b) == text::lines(a) + text::lines(b),
    decreases a.len(),
{
    if a.len() == 0 {
        assert(a + b =~= b);
        assert(text::lines(a) + text::lines(b) =~= text::lines(b));
    } else {
        let s = a + b;
        text::lemma_find(a, '\n');
        assert(a.contains(a[a.len() - 1]));
        let k = text::find(a, '\n') as int;
        assert forall|j: int| 0 <= j < k implies s[j] != '\n' by {
            assert(s[j] == a[j]);
        }
        assert(s[k] == a[k]);
        text::lemma_find_is(s, '\n', k);
        assert(s.take(k) =~= a.take(k));
        assert(s.skip(k + 1) =~= a.skip(k + 1) + b);
        if a.skip(k + 1).len() > 0 {
            assert(a.skip(k + 1).last() == a.last());
        }
        lemma_lines_concat(a.skip(k + 1), b);
        assert(text::lines(s) =~= text::lines(a) + text::lines(b));
    }
}

/// A listing is read line by line: what follows a finished line does not
/// change what was read before it.
pub proof fn law_listing_is_read_line_by_line(a: Seq<char>, b: Seq<char>)
    requires
        a.len() == 0 || a.last() == '\n',
    ensures
        shares(a + b) == shares(a) + shares(b),
{
    lemma_lines_concat(a, b);
    lemma_shares_concat(text::lines(a), text::lines(b));
}

/// Every share that is read is a disk, an IPC service or a printer, and has
/// its name from a line of the listing.
pub proof fn law_listed_shares_are_of_a_known_kind(raw: Seq<char>, i: int)
    requires
        0 <= i < shares(raw).len(),
    ensures
        shares(raw)[i].kind != ShareKind::Other,
        exists|j: int|
            0 <= j < text::lines(raw).len() && share_on(#[trigger] text::lines(raw)[j]) == Some(
                shares(raw)[i],
            ),
{
    lemma_share_has_a_line(text::lines(raw), i);
}

/// Every share comes from a line.
proof fn lemma_share_has_a_line(lines: Seq<Seq<char>>, i: int)
    requires
        0 <= i < shares_on(lines).len(),
    ensures
        shares_on(lines)[i].kind != ShareKind::Other,
        exists|j: int|
            0 <= j < lines.len() && share_on(#[trigger] lines[j]) == Some(shares_on(lines)[i]),
    decreases lines.len(),
{
    let rest = lines.drop_last();
    if i < shares_on(rest).len() {
        lemma_share_has_a_line(rest, i);
        let j = choose|j: int|
            0 <= j < rest.len() && share_on(#[trigger] rest[j]) == Some(shares_on(rest)[i]);
        assert(lines[j] == rest[j]);
    } else {
        assert(lines[lines.len() - 1] == lines.last());
    }
}

/// A line `kind|name|comment` lists exactly one share: of that kind, with that
/// name and that comment, both as they are written. White space round the kind
/// does not matter, a missing comment is an empty one, and further fields are
/// ignored.
pub proof fn law_line_lists_its_share(
    lead: Seq<char>,
    k: Seq<char>,
    trail: Seq<char>,
    name: Seq<char>,
    comment: Seq<char>,
    more: Seq<char>,
    kind: ShareKind,
)
    requires
        k == "Disk"@ && kind == ShareKind::Disk || k == "IPC"@ && kind == ShareKind::Ipc || k
            == "Printer"@ && kind == ShareKind::Printer,
        forall|i: int| 0 <= i < lead.len() ==> text::is_space(#[trigger] lead[i]),
        forall|i: int| 0 <= i < trail.len() ==> text::is_space(#[trigger] trail[i]),
        !lead.contains('\n') && !trail.contains('\n'),
        !name.contains('|') && !name.contains('\n'),
        !comment.contains('|') && !comment.contains('\n'),
        !more.contains('\n'),
    ensures
        shares(lead + k + trail + "|"@ + name) == seq![
            ShareView { name, kind, comment: Seq::empty() },
        ],
        shares(lead + k + trail + "|"@ + name + "|"@ + comment) == seq![
            ShareView { name, kind, comment },
        ],
        shares(lead + k + trail + "|"@ + name + "|"@ + comment + "|"@ + more) == seq![
            ShareView { name, kind, comment },
        ],
{
    reveal_strlit("Disk");
    reveal_strlit("IPC");
    reveal_strlit("Printer");
    reveal_strlit("|");
    assert("Disk"@.len() == 4 && "IPC"@.len() == 3 && "Printer"@.len() == 7);
    assert("|"@ =~= seq!['|']);
    let label = lead + k + trail;
    text::law_trim_takes_the_white_space_around(lead, k, trail);
    assert forall|j: int| 0 <= j < label.len() implies label[j] != '|' && label[j] != '\n' by {
        if j < lead.len() {
            assert(label[j] == lead[j]);
            assert(lead.contains(lead[j]));
            assert(text::is_space(lead[j]));
        } else if j < lead.len() + k.len() {
            assert(label[j] == k[j - lead.len()]);
        } else {
            assert(label[j] == trail[j - lead.len() - k.len()]);
            assert(trail.contains(trail[j - lead.len() - k.len()]));
            assert(text::is_space(trail[j - lead.len() - k.len()]));
        }
    }
    let one = label + "|"@ + name;
    let two = one + "|"@ + comment;
    let three = two + "|"@ + more;
    let rest_two = name.push('|') + comment;
    let rest_three = name.push('|') + (comment.push('|') + more);
    assert(one =~= label.push('|') + name);
    assert(two =~= label.push('|') + rest_two);
    assert(three =~= label.push('|') + rest_three);
    text::law_split_cuts_at_separators(label, '|', name);
    text::law_split_cuts_at_separators(label, '|', rest_two);
    text::law_split_cuts_at_separators(label, '|', rest_three);
    text::law_split_cuts_at_separators(name, '|', comment);
    text::law_split_cuts_at_separators(name, '|', comment.push('|') + more);
    text::law_split_cuts_at_separators(comment, '|', more);
    lemma_no_newline(label, name);
    lemma_no_newline(one, comment);
    lemma_no_newline(two, more);
    lemma_one_line(one);
    lemma_one_line(two);
    lemma_one_line(three);
    assert(shares(one) =~= seq![ShareView { name, kind, comment: Seq::empty() }]);
    assert(shares(two) =~= seq![ShareView { name, kind, comment }]);
    assert(shares(three) =~= seq![ShareView { name, kind, comment }]);
}

/// Two texts without a newline, with a bar between them, hold none.
proof fn lemma_no_newline(a: Seq<char>, b: Seq<char>)
    requires
        !a.contains('\n'),
        !b.contains('\n'),
    ensures
        !(a + "|"@ + b).contains('\n'),
{
    reveal_strlit("|");
    let s = a + "|"@ + b;
    if s.contains('\n') {
        let j = choose|j: int| 0 <= j < s.len() && s[j] == '\n';
        if j < a.len() {
            assert(a[j] == '\n');
        } else if j > a.len() {
            assert(b[j - a.len() - 1] == '\n');
        }
    }
}

/// A listing of one line lists what is on that line.
proof fn lemma_one_line(line: Seq<char>)
    requires
        !line.contains('\n'),
    ensures
        line.len() > 0 ==> shares(line) == match share_on(line) {
            Some(share) => seq![share],
            None => Seq::<ShareView>::empty(),
        },
{
    text::law_lines_end_at_line_feeds(line, Seq::empty());
    if line.len() > 0 {
        let ls = seq![line];
        assert(ls.drop_last() =~= Seq::empty());
        assert(ls.last() == line);
        assert(shares_on(ls.drop_last()) =~= Seq::empty());
        assert(shares(line) =~= match share_on(line) {
            Some(share) => seq![share],
            None => Seq::<ShareView>::empty(),
        });
    }
}

/// A line lists nothing where it has no name, or where what stands before its
/// first bar, white space aside, is not `Disk`, `IPC` or `Printer`.
pub proof fn law_other_lines_list_nothing(label: Seq<char>, rest: Seq<char>)
    requires
        !label.contains('|') && !label.contains('\n'),
        !rest.contains('\n'),
    ensures
        shares(label) == Seq::<ShareView>::empty(),
        text::trim(label) != "Disk"@ && text::trim(label) != "IPC"@ && text::trim(label)
            != "Printer"@ ==> shares(label + "|"@ + rest) == Seq::<ShareView>::empty(),
{
    reveal_strlit("|");
    assert("|"@ =~= seq!['|']);
    let line = label + "|"@ + rest;
    assert(line =~= label.push('|') + rest);
    text::law_split_cuts_at_separators(label, '|', rest);
    lemma_no_newline(label, rest);
    lemma_one_line(line);
    lemma_one_line(label);
    if label.len() == 0 {
        text::law_lines_end_at_line_feeds(label, rest);
        assert(label =~= Seq::empty());
        assert(shares(label) =~= Seq::empty());
    }
}

/// Lines are read one by one, whether they end with a line feed or with a
/// carriage return and a line feed: what a listing holds is what its first
/// line lists, then what the rest holds.
pub proof fn law_lines_are_read_in_order(line: Seq<char>, rest: Seq<char>)
    requires
        !line.contains('\n'),
    ensures
        shares(Seq::empty()) == Seq::<ShareView>::empty(),
        line.len() == 0 || line.last() != '\r' ==> shares(line + "\n"@ + rest) == shares(line)
            + shares(rest),
        shares(line + "\r\n"@ + rest) == shares(line) + shares(rest),
{
    reveal_strlit("\n");
    reveal_strlit("\r\n");
    text::law_lines_end_at_line_feeds(line, rest);
    assert(line + "\n"@ + rest =~= line.push('\n') + rest);
    assert(line + "\r\n"@ + rest =~= line.push('\r').push('\n') + rest);
    lemma_shares_concat(seq![line], text::lines(rest));
    lemma_one_line(line);
    let ls = seq![line];
    assert(ls.drop_last() =~= Seq::empty());
    assert(ls.last() == line);
    if line.len() == 0 {
        assert(text::find(line, '|') == 0);
        assert(text::split(line, '|') =~= seq![line]);
        assert(share_on(line) is None);
        assert(line =~= Seq::empty());
    }
    assert(shares_on(ls) =~= shares(line));
}

/// The bytes of a UTF-8 text are read as that text; bytes that are not UTF-8
/// list nothing.
pub proof fn law_listing_is_utf8(s: Seq<char>, bytes: Seq<u8>)
    ensures
        shares(listing_text(vstd::utf8::encode_utf8(s))) == shares(s),
        !vstd::utf8::valid_utf8(bytes) ==> shares(listing_text(bytes)) == Seq::<
            ShareView,
        >::empty(),
{
    vstd::utf8::encode_utf8_valid_utf8(s);
    vstd::utf8::encode_utf8_decode_utf8(s);
    law_lines_are_read_in_order(Seq::empty(), Seq::empty());
}

/// `smbclient` is asked for the listing of the server, in the format that is
/// read, with the credentials given: none for a guest, user and password
/// joined by `%`, or the path of the file.
pub proof fn law_list_command(server: Seq<char>, c: Credentials)
    ensures
        list_args(server, c).take(3) == seq!["-L"@, "//"@ + server, "-g"@],
        list_args(server, c).skip(3) == match c {
            Credentials::Guest => seq!["-N"@],
            Credentials::Inline { username, password } => seq![
                "-U"@,
                username@ + "%"@ + password@,
            ],
            Credentials::File(path) => seq!["-A"@, path@],
        },
{
    assert(list_args(server, c).take(3) =~= seq!["-L"@, "//"@ + server, "-g"@]);
    assert(list_args(server, c).skip(3) =~= credential_args(c));
}

/// The view of a share shows its fields.
pub proof fn law_share_view(s: Share)
    ensures
        s.deep_view().name == s.name@,
        s.deep_view().kind == s.kind,
        s.deep_view().comment == s.comment@,
{
}

} // verus!
