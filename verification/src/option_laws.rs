//! What holds of reading and rendering option strings: each of them character
//! by character, and both taken together.
use vstd::prelude::*;
use crate::options::{
    CredentialsView, OptionKind, OptionToken, OptionsView, SmbCredentials, SmbOptions, TokenView,
};
use crate::storage::StorageError;
use crate::{options, seqs, text};

verus! {

// ---------------------------------------------------------------------------
// Pieces and tokens
// ---------------------------------------------------------------------------

/// A token is written as the piece it was read from.
pub proof fn lemma_piece_of_token(p: Seq<char>)
    ensures
        options::piece(options::token(p)) == p,
        !options::token(p).key.contains('='),
{
    let k = text::find(p, '=') as int;
    text::lemma_find(p, '=');
    if k < p.len() {
        assert(p.take(k).push('=') + p.skip(k + 1) =~= p);
    }
}

/// A token whose key holds no `=` is read back from its piece.
pub proof fn lemma_token_of_piece(t: TokenView)
    requires
        !t.key.contains('='),
    ensures
        options::token(options::piece(t)) == t,
{
    let p = options::piece(t);
    let n = t.key.len() as int;
    assert forall|j: int| 0 <= j < n implies p[j] != '=' by {
        assert(p[j] == t.key[j]);
        assert(t.key.contains(t.key[j]));
    }
    text::lemma_find_is(p, '=', n);
    if let Some(v) = t.value {
        assert(p.take(n) =~= t.key);
        assert(p.skip(n + 1) =~= v);
    }
}

/// The tokens of a list of pieces.
pub open spec fn toks(ps: Seq<Seq<char>>) -> Seq<TokenView> {
    ps.map_values(|p: Seq<char>| options::token(p))
}

/// Pieces that can stand in an option string: not empty, without a comma.
pub open spec fn well_formed_pieces(ps: Seq<Seq<char>>) -> bool {
    forall|i: int|
        0 <= i < ps.len() ==> (#[trigger] ps[i]).len() > 0 && !ps[i].contains(',')
}

/// The pieces of an option string are well formed.
pub proof fn lemma_pieces_well_formed(raw: Seq<char>)
    ensures
        well_formed_pieces(options::pieces(raw)),
{
    let all = text::split(raw, ',');
    let keep = |p: Seq<char>| p.len() > 0;
    text::lemma_split_pieces(raw, ',');
    let kept = all.filter(keep);
    assert forall|i: int| 0 <= i < kept.len() implies (#[trigger] kept[i]).len() > 0
        && !kept[i].contains(',') by {
        assert(keep(kept[i]));
        assert(all.contains(kept[i])) by {
            seqs::lemma_filter_members(all, keep, i);
        }
        let j = choose|j: int| 0 <= j < all.len() && all[j] == kept[i];
        assert(!all[j].contains(','));
    }
}

/// Well-formed pieces, joined by commas, are read back.
pub proof fn lemma_tokens_of_join(ps: Seq<Seq<char>>)
    requires
        well_formed_pieces(ps),
    ensures
        options::pieces(text::join(ps, seq![','])) == ps,
        options::tokens(text::join(ps, seq![','])) == toks(ps),
{
    let keep = |p: Seq<char>| p.len() > 0;
    let s = text::join(ps, seq![',']);
    if ps.len() == 0 {
        assert(text::split(s, ',') =~= seq![Seq::<char>::empty()]);
        seqs::lemma_filter_none(text::split(s, ','), keep);
        assert(options::pieces(s) =~= ps);
    } else {
        text::lemma_split_join(ps, ',');
        seqs::lemma_filter_all(ps, keep);
    }
}

// ---------------------------------------------------------------------------
// Readings of concatenated token lists
// ---------------------------------------------------------------------------

/// The kinds whose tokens always have a value.
pub open spec fn valued(k: OptionKind) -> bool {
    match k {
        OptionKind::Vers | OptionKind::CredentialsFile | OptionKind::Username
        | OptionKind::Domain | OptionKind::Uid | OptionKind::Gid | OptionKind::Iocharset => true,
        _ => false,
    }
}

/// The last value in two lists is that of the second, or else of the first.
proof fn lemma_last_value_concat(a: Seq<TokenView>, b: Seq<TokenView>, k: OptionKind)
    requires
        valued(k),
    ensures
        options::last_value(a + b, k) == match options::last_value(b, k) {
            Some(v) => Some(v),
            None => options::last_value(a, k),
        },
    decreases b.len(),
{
    if b.len() == 0 {
        assert(a + b =~= a);
    } else {
        assert((a + b).last() == b.last());
        assert((a + b).drop_last() =~= a + b.drop_last());
        lemma_last_value_concat(a, b.drop_last(), k);
    }
}

/// A kind occurs in two lists where it occurs in one of them.
proof fn lemma_has_concat(a: Seq<TokenView>, b: Seq<TokenView>, k: OptionKind)
    ensures
        options::has(a + b, k) == (options::has(a, k) || options::has(b, k)),
{
    let ab = a + b;
    if options::has(a, k) {
        let i = choose|i: int| 0 <= i < a.len() && options::kind(#[trigger] a[i]) == k;
        assert(options::kind(ab[i]) == k);
    }
    if options::has(b, k) {
        let i = choose|i: int| 0 <= i < b.len() && options::kind(#[trigger] b[i]) == k;
        assert(ab[a.len() + i] == b[i]);
    }
    if options::has(ab, k) {
        let i = choose|i: int| 0 <= i < ab.len() && options::kind(#[trigger] ab[i]) == k;
        if i < a.len() {
            assert(options::kind(a[i]) == k);
        } else {
            assert(options::kind(b[i - a.len()]) == k);
        }
    }
}

/// The first fault in two lists is that of the first, or else of the second.
proof fn lemma_first_fault_concat(a: Seq<TokenView>, b: Seq<TokenView>)
    ensures
        options::first_fault(a + b) == match options::first_fault(a) {
            Some(m) => Some(m),
            None => options::first_fault(b),
        },
    decreases a.len(),
{
    if a.len() == 0 {
        assert(a + b =~= b);
    } else {
        assert((a + b).skip(1) =~= a.skip(1) + b);
        lemma_first_fault_concat(a.skip(1), b);
    }
}

/// The unrecognised options of two lists are those of the first, then those
/// of the second.
proof fn lemma_extras_concat(a: Seq<TokenView>, b: Seq<TokenView>)
    ensures
        options::extras(a + b) == options::extras(a) + options::extras(b),
{
    let keep = |t: TokenView| options::kind(t) == OptionKind::Extra;
    Seq::filter_distributes_over_add(a, b, keep);
    assert(options::extras(a + b) =~= options::extras(a) + options::extras(b));
}

/// All that [`options::declared`] reads of a token list.
pub struct Reading {
    pub fault: Option<Seq<char>>,
    pub vers: Option<Seq<char>>,
    pub file: Option<Seq<char>>,
    pub guest: bool,
    pub username: Option<Seq<char>>,
    pub domain: Option<Seq<char>>,
    pub password: bool,
    pub uid: Option<Seq<char>>,
    pub gid: Option<Seq<char>>,
    pub iocharset: Option<Seq<char>>,
    pub noperm: bool,
    pub extra: Seq<Seq<char>>,
}

/// The reading of a token list.
pub open spec fn reading(ts: Seq<TokenView>) -> Reading {
    Reading {
        fault: options::first_fault(ts),
        vers: options::last_value(ts, OptionKind::Vers),
        file: options::last_value(ts, OptionKind::CredentialsFile),
        guest: options::has(ts, OptionKind::Guest),
        username: options::last_value(ts, OptionKind::Username),
        domain: options::last_value(ts, OptionKind::Domain),
        password: options::has(ts, OptionKind::Password),
        uid: options::last_value(ts, OptionKind::Uid),
        gid: options::last_value(ts, OptionKind::Gid),
        iocharset: options::last_value(ts, OptionKind::Iocharset),
        noperm: options::has(ts, OptionKind::Noperm),
        extra: options::extras(ts),
    }
}

/// The reading of an empty list.
pub open spec fn blank() -> Reading {
    Reading {
        fault: None,
        vers: None,
        file: None,
        guest: false,
        username: None,
        domain: None,
        password: false,
        uid: None,
        gid: None,
        iocharset: None,
        noperm: false,
        extra: Seq::empty(),
    }
}

/// The second value, or else the first.
pub open spec fn later(a: Option<Seq<char>>, b: Option<Seq<char>>) -> Option<Seq<char>> {
    match b {
        Some(v) => Some(v),
        None => a,
    }
}

/// The reading of two lists, one after the other.
pub open spec fn followed_by(a: Reading, b: Reading) -> Reading {
    Reading {
        fault: later(b.fault, a.fault),
        vers: later(a.vers, b.vers),
        file: later(a.file, b.file),
        guest: a.guest || b.guest,
        username: later(a.username, b.username),
        domain: later(a.domain, b.domain),
        password: a.password || b.password,
        uid: later(a.uid, b.uid),
        gid: later(a.gid, b.gid),
        iocharset: later(a.iocharset, b.iocharset),
        noperm: a.noperm || b.noperm,
        extra: a.extra + b.extra,
    }
}

/// Readings compose.
proof fn lemma_reading_concat(a: Seq<TokenView>, b: Seq<TokenView>)
    ensures
        reading(a + b) == followed_by(reading(a), reading(b)),
{
    lemma_first_fault_concat(a, b);
    lemma_last_value_concat(a, b, OptionKind::Vers);
    lemma_last_value_concat(a, b, OptionKind::CredentialsFile);
    lemma_has_concat(a, b, OptionKind::Guest);
    lemma_last_value_concat(a, b, OptionKind::Username);
    lemma_last_value_concat(a, b, OptionKind::Domain);
    lemma_has_concat(a, b, OptionKind::Password);
    lemma_last_value_concat(a, b, OptionKind::Uid);
    lemma_last_value_concat(a, b, OptionKind::Gid);
    lemma_last_value_concat(a, b, OptionKind::Iocharset);
    lemma_has_concat(a, b, OptionKind::Noperm);
    lemma_extras_concat(a, b);
}

/// The reading of one token.
pub open spec fn reading_of_one(t: TokenView) -> Reading {
    let k = options::kind(t);
    Reading {
        fault: options::fault(t),
        vers: if k == OptionKind::Vers {
            t.value
        } else {
            None
        },
        file: if k == OptionKind::CredentialsFile {
            t.value
        } else {
            None
        },
        guest: k == OptionKind::Guest,
        username: if k == OptionKind::Username {
            t.value
        } else {
            None
        },
        domain: if k == OptionKind::Domain {
            t.value
        } else {
            None
        },
        password: k == OptionKind::Password,
        uid: if k == OptionKind::Uid {
            t.value
        } else {
            None
        },
        gid: if k == OptionKind::Gid {
            t.value
        } else {
            None
        },
        iocharset: if k == OptionKind::Iocharset {
            t.value
        } else {
            None
        },
        noperm: k == OptionKind::Noperm,
        extra: if k == OptionKind::Extra {
            seq![options::piece(t)]
        } else {
            Seq::empty()
        },
    }
}

/// A list of one token reads as the token does.
proof fn lemma_reading_one(t: TokenView)
    ensures
        reading(seq![t]) == reading_of_one(t),
{
    let ts = seq![t];
    let none = Seq::<TokenView>::empty();
    assert(ts.drop_last() =~= none);
    assert(ts.skip(1) =~= none);
    assert(ts[0] == t);
    assert(ts.last() == t);
    assert forall|k: OptionKind| options::has(ts, k) == (options::kind(t) == k) by {
        if options::kind(t) == k {
            assert(options::kind(ts[0]) == k);
        }
    }
    reveal(Seq::filter);
    assert(none.filter(|u: TokenView| options::kind(u) == OptionKind::Extra) =~= none);
    reveal_with_fuel(options::first_fault, 2);
    reveal_with_fuel(options::last_value, 2);
    assert(options::extras(ts) =~= reading_of_one(t).extra);
}

/// The empty list reads as blank.
proof fn lemma_reading_none()
    ensures
        reading(Seq::empty()) == blank(),
{
    reveal(Seq::filter);
    assert(options::extras(Seq::empty()) =~= Seq::empty());
}

// ---------------------------------------------------------------------------
// Accepted options
// ---------------------------------------------------------------------------

/// A value that holds no comma, where there is one.
pub open spec fn comma_free(v: Option<Seq<char>>) -> bool {
    v matches Some(s) ==> !s.contains(',')
}

/// What every accepted set of options satisfies.
pub open spec fn accepted(o: OptionsView) -> bool {
    &&& o.vers matches Some(v) ==> options::versions().contains(v)
    &&& comma_free(o.vers)
    &&& comma_free(o.uid)
    &&& comma_free(o.gid)
    &&& comma_free(o.iocharset)
    &&& o.credentials matches CredentialsView::File { path } ==> !path.contains(',')
    &&& well_formed_pieces(o.extra)
    &&& forall|i: int|
        0 <= i < o.extra.len() ==> options::kind(options::token(#[trigger] o.extra[i]))
            == OptionKind::Extra
}

/// The last value of a kind is the value of some token of that kind.
proof fn lemma_last_value_member(ts: Seq<TokenView>, k: OptionKind)
    ensures
        options::last_value(ts, k) is Some ==> exists|i: int|
            0 <= i < ts.len() && options::kind(#[trigger] ts[i]) == k && ts[i].value
                == options::last_value(ts, k),
    decreases ts.len(),
{
    if ts.len() > 0 {
        if options::kind(ts.last()) == k {
            assert(ts[ts.len() - 1] == ts.last());
        } else {
            lemma_last_value_member(ts.drop_last(), k);
            if options::last_value(ts, k) is Some {
                let rest = ts.drop_last();
                let i = choose|i: int|
                    0 <= i < rest.len() && options::kind(#[trigger] rest[i]) == k
                        && rest[i].value == options::last_value(ts, k);
                assert(ts[i] == rest[i]);
            }
        }
    }
}

/// A list without a fault has no token that is refused.
proof fn lemma_no_fault(ts: Seq<TokenView>)
    ensures
        options::first_fault(ts) is None <==> forall|i: int|
            0 <= i < ts.len() ==> options::fault(#[trigger] ts[i]) is None,
    decreases ts.len(),
{
    if ts.len() > 0 {
        let rest = ts.skip(1);
        lemma_no_fault(rest);
        if options::first_fault(ts) is None {
            assert forall|i: int| 0 <= i < ts.len() implies options::fault(#[trigger] ts[i])
                is None by {
                if i > 0 {
                    assert(rest[i - 1] == ts[i]);
                }
            }
        } else if options::fault(ts[0]) is None {
            let j = choose|j: int|
                0 <= j < rest.len() && options::fault(#[trigger] rest[j]) is Some;
            assert(options::fault(ts[j + 1]) is Some);
        }
    }
}

/// Tokens that pieces of an option string can stand for.
pub open spec fn plain_tokens(ts: Seq<TokenView>) -> bool {
    forall|i: int|
        0 <= i < ts.len() ==> {
            &&& !(#[trigger] ts[i]).key.contains('=')
            &&& options::piece(ts[i]).len() > 0
            &&& !options::piece(ts[i]).contains(',')
        }
}

/// The tokens of an option string are such tokens.
pub proof fn lemma_tokens_plain(raw: Seq<char>)
    ensures
        plain_tokens(options::tokens(raw)),
{
    let ps = options::pieces(raw);
    let ts = options::tokens(raw);
    lemma_pieces_well_formed(raw);
    assert forall|i: int| 0 <= i < ts.len() implies {
        &&& !(#[trigger] ts[i]).key.contains('=')
        &&& options::piece(ts[i]).len() > 0
        &&& !options::piece(ts[i]).contains(',')
    } by {
        assert(ts[i] == options::token(ps[i]));
        lemma_piece_of_token(ps[i]);
    }
}

/// The last value of a kind holds no comma.
proof fn lemma_value_comma_free(ts: Seq<TokenView>, k: OptionKind)
    requires
        plain_tokens(ts),
    ensures
        comma_free(options::last_value(ts, k)),
{
    lemma_last_value_member(ts, k);
    if options::last_value(ts, k) is Some {
        let i = choose|i: int|
            0 <= i < ts.len() && options::kind(#[trigger] ts[i]) == k && ts[i].value
                == options::last_value(ts, k);
        let p = options::piece(ts[i]);
        let n = ts[i].key.len() as int;
        let v = ts[i].value->0;
        if v.contains(',') {
            let j = choose|j: int| 0 <= j < v.len() && v[j] == ',';
            assert(p[n + 1 + j] == ',');
            assert(p.contains(','));
        }
    }
}

/// The options that such tokens declare are accepted ones.
pub proof fn lemma_declared_accepted(ts: Seq<TokenView>, credential: Option<Seq<char>>)
    requires
        plain_tokens(ts),
    ensures
        options::declared(ts, credential) matches Ok(o) ==> accepted(o),
{
    if let Ok(o) = options::declared(ts, credential) {
        lemma_value_comma_free(ts, OptionKind::Vers);
        lemma_value_comma_free(ts, OptionKind::CredentialsFile);
        lemma_value_comma_free(ts, OptionKind::Uid);
        lemma_value_comma_free(ts, OptionKind::Gid);
        lemma_value_comma_free(ts, OptionKind::Iocharset);
        lemma_no_fault(ts);
        lemma_last_value_member(ts, OptionKind::Vers);
        if let Some(v) = o.vers {
            let i = choose|i: int|
                0 <= i < ts.len() && options::kind(#[trigger] ts[i]) == OptionKind::Vers
                    && ts[i].value == o.vers;
            assert(options::fault(ts[i]) is None);
        }
        let keep = |t: TokenView| options::kind(t) == OptionKind::Extra;
        assert forall|i: int| 0 <= i < o.extra.len() implies (#[trigger] o.extra[i]).len() > 0
            && !o.extra[i].contains(',') && options::kind(options::token(o.extra[i]))
            == OptionKind::Extra by {
            seqs::lemma_filter_members(ts, keep, i);
            let t = ts.filter(keep)[i];
            assert(keep(t));
            let j = choose|j: int| 0 <= j < ts.len() && ts[j] == t;
            lemma_token_of_piece(ts[j]);
            assert(o.extra[i] == options::piece(ts[j]));
        }
    }
}

// ---------------------------------------------------------------------------
// Rendered options
// ---------------------------------------------------------------------------

/// The keys that rendering writes: their kinds, and that none holds a
/// separator.
proof fn lemma_rendered_keys(v: Seq<char>)
    ensures
        options::kind(TokenView { key: "vers"@, value: Some(v) }) == OptionKind::Vers,
        options::kind(TokenView { key: "credentials"@, value: Some(v) })
            == OptionKind::CredentialsFile,
        options::kind(TokenView { key: "uid"@, value: Some(v) }) == OptionKind::Uid,
        options::kind(TokenView { key: "gid"@, value: Some(v) }) == OptionKind::Gid,
        options::kind(TokenView { key: "iocharset"@, value: Some(v) }) == OptionKind::Iocharset,
        options::kind(TokenView { key: "guest"@, value: None }) == OptionKind::Guest,
        options::kind(TokenView { key: "noperm"@, value: None }) == OptionKind::Noperm,
        forall|k: Seq<char>|
            #![trigger k.contains('=')]
            #![trigger k.contains(',')]
            (k == "vers"@ || k == "credentials"@ || k == "uid"@ || k == "gid"@ || k
                == "iocharset"@ || k == "guest"@ || k == "noperm"@) ==> !k.contains('=')
                && !k.contains(',') && k.len() > 0,
{
    reveal_strlit("vers");
    reveal_strlit("credentials");
    reveal_strlit("cred");
    reveal_strlit("uid");
    reveal_strlit("gid");
    reveal_strlit("iocharset");
    reveal_strlit("guest");
    reveal_strlit("noperm");
    reveal_strlit("password");
    reveal_strlit("pass");
    reveal_strlit("username");
    reveal_strlit("user");
    reveal_strlit("domain");
    reveal_strlit("dom");
    assert("vers"@.len() == 4);
    assert("credentials"@.len() == 11);
    assert("cred"@.len() == 4);
    assert("uid"@.len() == 3);
    assert("gid"@.len() == 3);
    assert("iocharset"@.len() == 9);
    assert("guest"@.len() == 5);
    assert("noperm"@.len() == 6);
    assert("password"@.len() == 8);
    assert("pass"@.len() == 4);
    assert("username"@.len() == 8);
    assert("user"@.len() == 4);
    assert("domain"@.len() == 6);
    assert("dom"@.len() == 3);
    assert("vers"@[0] == 'v');
    assert("cred"@[0] == 'c');
    assert("pass"@[0] == 'p');
    assert("user"@[0] == 'u');
    assert("uid"@[0] == 'u');
    assert("gid"@[0] == 'g');
    assert("dom"@[0] == 'd');
    assert("noperm"@[0] == 'n');
    assert("domain"@[0] == 'd');
}

/// One rendered `key=value`: a well-formed piece, read as its token.
proof fn lemma_keyed(key: Seq<char>, value: Option<Seq<char>>)
    requires
        key.len() > 0,
        !key.contains('='),
        !key.contains(','),
        comma_free(value),
    ensures
        well_formed_pieces(options::keyed(key, value)),
        reading(toks(options::keyed(key, value))) == match value {
            Some(v) => reading_of_one(TokenView { key, value: Some(v) }),
            None => blank(),
        },
{
    match value {
        Some(v) => {
            let t = TokenView { key, value: Some(v) };
            let p = options::piece(t);
            lemma_token_of_piece(t);
            lemma_reading_one(t);
            assert(toks(options::keyed(key, value)) =~= seq![t]);
            if p.contains(',') {
                let j = choose|j: int| 0 <= j < p.len() && p[j] == ',';
                if j < key.len() {
                    assert(key[j] == ',');
                } else if j > key.len() {
                    assert(v[j - key.len() - 1] == ',');
                }
            }
        },
        None => {
            lemma_reading_none();
            assert(toks(options::keyed(key, value)) =~= Seq::empty());
        },
    }
}

/// One rendered flag: a well-formed piece, read as its token.
proof fn lemma_flag(key: Seq<char>)
    requires
        key.len() > 0,
        !key.contains('='),
        !key.contains(','),
    ensures
        well_formed_pieces(seq![key]),
        reading(toks(seq![key])) == reading_of_one(TokenView { key, value: None }),
{
    let t = TokenView { key, value: None };
    lemma_token_of_piece(t);
    lemma_reading_one(t);
    assert(toks(seq![key]) =~= seq![t]);
}

/// Unrecognised options read as themselves and as nothing else.
proof fn lemma_extras_reading(ps: Seq<Seq<char>>)
    requires
        forall|i: int|
            0 <= i < ps.len() ==> options::kind(options::token(#[trigger] ps[i]))
                == OptionKind::Extra,
    ensures
        reading(toks(ps)) == (Reading { extra: ps, ..blank() }),
    decreases ps.len(),
{
    if ps.len() == 0 {
        lemma_reading_none();
        assert(toks(ps) =~= Seq::empty());
        assert(ps =~= Seq::empty());
    } else {
        let rest = ps.drop_last();
        let p = ps.last();
        assert(p == ps[ps.len() - 1]);
        assert forall|i: int| 0 <= i < rest.len() implies options::kind(
            options::token(#[trigger] rest[i]),
        ) == OptionKind::Extra by {
            assert(rest[i] == ps[i]);
        }
        lemma_extras_reading(rest);
        lemma_piece_of_token(p);
        lemma_reading_one(options::token(p));
        lemma_reading_concat(toks(rest), seq![options::token(p)]);
        assert(toks(ps) =~= toks(rest) + seq![options::token(p)]);
        assert(rest + seq![p] =~= ps);
    }
}

/// Concatenated piece lists read one after the other.
proof fn lemma_pieces_concat(a: Seq<Seq<char>>, b: Seq<Seq<char>>)
    ensures
        reading(toks(a + b)) == followed_by(reading(toks(a)), reading(toks(b))),
        well_formed_pieces(a) && well_formed_pieces(b) ==> well_formed_pieces(a + b),
{
    assert(toks(a + b) =~= toks(a) + toks(b));
    lemma_reading_concat(toks(a), toks(b));
}

/// The credential form by which rendered options refer to their credentials:
/// an inline credential has become a reference to its secret file.
pub open spec fn referenced(c: CredentialsView, secret_path: Seq<char>) -> CredentialsView {
    match c {
        CredentialsView::Inline { .. } => CredentialsView::File { path: secret_path },
        _ => c,
    }
}

/// What rendered options read as.
proof fn lemma_rendered_reading(o: OptionsView, secret_path: Seq<char>)
    requires
        accepted(o),
        o.credentials is Inline ==> !secret_path.contains(','),
    ensures
        well_formed_pieces(options::rendered_pieces(o, secret_path)),
        reading(toks(options::rendered_pieces(o, secret_path))) == (Reading {
            fault: None,
            vers: o.vers,
            file: match referenced(o.credentials, secret_path) {
                CredentialsView::File { path } => Some(path),
                _ => None,
            },
            guest: o.credentials is Guest,
            username: None,
            domain: None,
            password: false,
            uid: o.uid,
            gid: o.gid,
            iocharset: o.iocharset,
            noperm: o.noperm,
            extra: o.extra,
        }),
{
    let file = match referenced(o.credentials, secret_path) {
        CredentialsView::File { path } => Some(path),
        _ => None,
    };
    let a = options::keyed("vers"@, o.vers);
    let b = seq![options::credentials_piece(o.credentials, secret_path)];
    let c = options::keyed("uid"@, o.uid);
    let d = options::keyed("gid"@, o.gid);
    let e = options::keyed("iocharset"@, o.iocharset);
    let f = if o.noperm {
        seq!["noperm"@]
    } else {
        Seq::empty()
    };
    lemma_rendered_keys(if o.vers is Some { o.vers->0 } else { Seq::empty() });
    lemma_rendered_keys(if file is Some { file->0 } else { Seq::empty() });
    lemma_rendered_keys(if o.uid is Some { o.uid->0 } else { Seq::empty() });
    lemma_rendered_keys(if o.gid is Some { o.gid->0 } else { Seq::empty() });
    lemma_rendered_keys(if o.iocharset is Some { o.iocharset->0 } else { Seq::empty() });
    assert(!"vers"@.contains('='));
    assert(!"credentials"@.contains('='));
    assert(!"uid"@.contains('='));
    assert(!"gid"@.contains('='));
    assert(!"iocharset"@.contains('='));
    assert(!"guest"@.contains('='));
    assert(!"noperm"@.contains('='));
    lemma_keyed("vers"@, o.vers);
    if o.credentials is Guest {
        lemma_flag("guest"@);
    } else {
        lemma_keyed("credentials"@, file);
        assert(b =~= options::keyed("credentials"@, file));
    }
    lemma_keyed("uid"@, o.uid);
    lemma_keyed("gid"@, o.gid);
    lemma_keyed("iocharset"@, o.iocharset);
    if o.noperm {
        lemma_flag("noperm"@);
    } else {
        lemma_reading_none();
        assert(toks(f) =~= Seq::empty());
    }
    lemma_extras_reading(o.extra);
    lemma_pieces_concat(a, b);
    lemma_pieces_concat(a + b, c);
    lemma_pieces_concat(a + b + c, d);
    lemma_pieces_concat(a + b + c + d, e);
    lemma_pieces_concat(a + b + c + d + e, f);
    lemma_pieces_concat(a + b + c + d + e + f, o.extra);
    assert(options::rendered_pieces(o, secret_path) == a + b + c + d + e + f + o.extra);
    let none = Seq::<Seq<char>>::empty();
    assert(none + none =~= none);
    assert(none + o.extra =~= o.extra);
}

// ---------------------------------------------------------------------------
// Laws
// ---------------------------------------------------------------------------

/// Rendered options declare themselves: read again, with or without the
/// reference of a password, they give the same options, only that an inline
/// credential is now the file that it is referenced by; and rendering those
/// gives the same string.
pub proof fn law_rendering_is_stable(
    ts: Seq<TokenView>,
    credential: Option<Seq<char>>,
    secret_path: Seq<char>,
    later_credential: Option<Seq<char>>,
    later_path: Seq<char>,
)
    requires
        plain_tokens(ts),
        options::declared(ts, credential) matches Ok(o) && (o.credentials is Inline
            ==> !secret_path.contains(',')),
    ensures
        ({
            let o = options::declared(ts, credential)->Ok_0;
            let s = options::rendered(o, secret_path);
            let again = OptionsView {
                credentials: referenced(o.credentials, secret_path),
                ..o
            };
            &&& options::declared(options::tokens(s), later_credential) == Ok::<
                OptionsView,
                Seq<char>,
            >(again)
            &&& options::rendered(again, later_path) == s
        }),
{
    let o = options::declared(ts, credential)->Ok_0;
    let ps = options::rendered_pieces(o, secret_path);
    lemma_declared_accepted(ts, credential);
    lemma_rendered_reading(o, secret_path);
    lemma_tokens_of_join(ps);
    let r = reading(toks(ps));
    let again = OptionsView { credentials: referenced(o.credentials, secret_path), ..o };
    assert(options::declared(toks(ps), later_credential) == Ok::<OptionsView, Seq<char>>(again));
    assert(options::rendered_pieces(again, later_path) == ps);
}

/// The same of a string as this library reads it: what is declared, rendered
/// and declared again is the same options.
pub proof fn law_rendered_string_declares_itself(
    raw: Seq<char>,
    credential: Option<Seq<char>>,
    secret_path: Seq<char>,
    later_credential: Option<Seq<char>>,
    later_path: Seq<char>,
)
    requires
        options::declared(options::tokens(raw), credential) matches Ok(o) && (
        o.credentials is Inline ==> !secret_path.contains(',')),
    ensures
        ({
            let o = options::declared(options::tokens(raw), credential)->Ok_0;
            let s = options::rendered(o, secret_path);
            let again = OptionsView {
                credentials: referenced(o.credentials, secret_path),
                ..o
            };
            &&& options::declared(options::tokens(s), later_credential) == Ok::<
                OptionsView,
                Seq<char>,
            >(again)
            &&& options::rendered(again, later_path) == s
        }),
{
    lemma_tokens_plain(raw);
    law_rendering_is_stable(
        options::tokens(raw),
        credential,
        secret_path,
        later_credential,
        later_path,
    );
}

/// The string that a mount is made with never spells out an inline
/// credential, however the declared string was read and whether it is accepted
/// or not: no option in it is a username, a domain or a password. The one
/// string that is passed on as it stands is a refused one whose reading holds
/// no such option.
pub proof fn law_no_inline_credential(
    raw: Seq<char>,
    ts: Seq<TokenView>,
    credential: Option<Seq<char>>,
    secret_path: Seq<char>,
)
    requires
        plain_tokens(ts),
        options::declared(ts, credential) matches Ok(o) ==> o.credentials is Inline
            ==> !secret_path.contains(','),
    ensures
        ({
            let s = options::mounted_with_tokens(raw, ts, credential, secret_path);
            if options::declared(ts, credential) is Err && !options::has_credential(ts) {
                s == raw
            } else {
                !options::has_credential(options::tokens(s))
            }
        }),
{
    match options::declared(ts, credential) {
        Ok(o) => {
            let ps = options::rendered_pieces(o, secret_path);
            lemma_declared_accepted(ts, credential);
            lemma_rendered_reading(o, secret_path);
            lemma_tokens_of_join(ps);
            let out = toks(ps);
            let r = reading(out);
            if options::has_credential(out) {
                let i = choose|i: int|
                    0 <= i < out.len() && options::is_credential(#[trigger] out[i]);
                lemma_value_reaches_reading(out, i);
                assert(r.username is None && r.domain is None && !r.password);
            }
        },
        Err(_) => {
            if options::has_credential(ts) {
                let keep = |t: TokenView| !options::is_credential(t);
                let kept = ts.filter(keep);
                let ps = options::plain_pieces(ts);
                assert forall|i: int| 0 <= i < ps.len() implies (#[trigger] ps[i]).len() > 0
                    && !ps[i].contains(',') && options::token(ps[i]) == kept[i] by {
                    seqs::lemma_filter_members(ts, keep, i);
                    let j = choose|j: int| 0 <= j < ts.len() && ts[j] == kept[i];
                    lemma_token_of_piece(ts[j]);
                }
                lemma_tokens_of_join(ps);
                assert forall|i: int| 0 <= i < toks(ps).len() implies !options::is_credential(
                    #[trigger] toks(ps)[i],
                ) by {
                    seqs::lemma_filter_members(ts, keep, i);
                    assert(options::token(ps[i]) == kept[i]);
                    assert(keep(kept[i]));
                }
            }
        },
    }
}

/// The same of a string as this library reads it: whatever was declared, the
/// string that is mounted with holds no username, domain or password.
pub proof fn law_mounted_string_has_no_credential(
    raw: Seq<char>,
    credential: Option<Seq<char>>,
    secret_path: Seq<char>,
)
    requires
        options::declared(options::tokens(raw), credential) matches Ok(o) ==> o.credentials
            is Inline ==> !secret_path.contains(','),
    ensures
        !options::has_credential(
            options::tokens(options::mounted_with(raw, credential, secret_path)),
        ),
{
    lemma_tokens_plain(raw);
    law_no_inline_credential(raw, options::tokens(raw), credential, secret_path);
}

/// A token that spells out a credential shows in the reading of its list.
proof fn lemma_value_reaches_reading(ts: Seq<TokenView>, i: int)
    requires
        0 <= i < ts.len(),
        options::is_credential(ts[i]),
    ensures
        reading(ts).username is Some || reading(ts).domain is Some || reading(ts).password,
{
    let k = options::kind(ts[i]);
    if k == OptionKind::Password {
        assert(options::has(ts, k));
    } else {
        lemma_last_value_found(ts, k, i);
    }
}

/// A kind that occurs has a last value.
proof fn lemma_last_value_found(ts: Seq<TokenView>, k: OptionKind, i: int)
    requires
        valued(k),
        0 <= i < ts.len(),
        options::kind(ts[i]) == k,
    ensures
        options::last_value(ts, k) is Some,
    decreases ts.len(),
{
    if options::kind(ts.last()) != k {
        assert(ts.drop_last()[i] == ts[i]);
        lemma_last_value_found(ts.drop_last(), k, i);
    }
}

/// Nothing of an inline credential shows in the rendered string: two sets of
/// options that differ only in username, password reference and domain render
/// alike.
pub proof fn law_inline_credential_does_not_show(
    a: OptionsView,
    b: OptionsView,
    secret_path: Seq<char>,
)
    requires
        a.credentials is Inline,
        b.credentials is Inline,
        b == (OptionsView { credentials: b.credentials, ..a }),
    ensures
        options::rendered(a, secret_path) == options::rendered(b, secret_path),
{
}

/// A password in the option string is never accepted.
pub proof fn law_password_is_refused(ts: Seq<TokenView>, credential: Option<Seq<char>>)
    requires
        options::has(ts, OptionKind::Password),
    ensures
        options::declared(ts, credential) is Err,
{
    lemma_no_fault(ts);
    let i = choose|i: int|
        0 <= i < ts.len() && options::kind(#[trigger] ts[i]) == OptionKind::Password;
    assert(options::fault(ts[i]) is Some);
}

/// Only the modern protocol versions are accepted: a list that names any
/// other, even where a later option overrides it, is refused.
pub proof fn law_version_is_supported(ts: Seq<TokenView>, credential: Option<Seq<char>>, i: int)
    requires
        options::declared(ts, credential) is Ok,
        0 <= i < ts.len(),
        options::kind(ts[i]) == OptionKind::Vers,
    ensures
        options::versions().contains(ts[i].value->0),
        ts[i].value == Some("2.0"@) || ts[i].value == Some("2.1"@) || ts[i].value == Some("3.0"@)
            || ts[i].value == Some("3.1.1"@),
{
    lemma_no_fault(ts);
    assert(options::fault(ts[i]) is None);
    law_kinds(ts[i]);
    lemma_versions(ts[i].value->0);
}

/// Accepted options have exactly one credential form, and it is the one that
/// was declared: a file, an inline username with the reference of its
/// password, or neither, which is an anonymous mount. A domain comes with a
/// username only.
pub proof fn law_one_credential_form(ts: Seq<TokenView>, credential: Option<Seq<char>>)
    requires
        options::declared(ts, credential) is Ok,
    ensures
        ({
            let c = options::declared(ts, credential)->Ok_0.credentials;
            let file = options::has(ts, OptionKind::CredentialsFile);
            let guest = options::has(ts, OptionKind::Guest);
            let inline = options::has(ts, OptionKind::Username);
            let domain = options::has(ts, OptionKind::Domain);
            &&& c is File <==> file
            &&& c is Inline <==> inline
            &&& c is Guest <==> !file && !inline
            &&& file ==> !guest && !inline
            &&& inline ==> !guest && credential is Some && c->password == credential->0
            &&& domain ==> inline
        }),
{
    lemma_has_last_value(ts, OptionKind::CredentialsFile);
    lemma_has_last_value(ts, OptionKind::Username);
    lemma_has_last_value(ts, OptionKind::Domain);
}

/// A kind occurs where it has a last value.
proof fn lemma_has_last_value(ts: Seq<TokenView>, k: OptionKind)
    requires
        valued(k),
    ensures
        options::has(ts, k) <==> options::last_value(ts, k) is Some,
{
    lemma_last_value_member(ts, k);
    if options::has(ts, k) {
        let i = choose|i: int| 0 <= i < ts.len() && options::kind(#[trigger] ts[i]) == k;
        lemma_last_value_found(ts, k, i);
    }
}

/// Unrecognised options survive as they are written and in their order: they
/// are the last pieces of the rendered string.
pub proof fn law_unknown_options_survive(
    raw: Seq<char>,
    credential: Option<Seq<char>>,
    secret_path: Seq<char>,
)
    requires
        options::declared(options::tokens(raw), credential) is Ok,
    ensures
        ({
            let o = options::declared(options::tokens(raw), credential)->Ok_0;
            let unknown = options::pieces(raw).filter(
                |p: Seq<char>| options::kind(options::token(p)) == OptionKind::Extra,
            );
            let ps = options::rendered_pieces(o, secret_path);
            &&& o.extra == unknown
            &&& ps.len() > unknown.len()
            &&& ps.skip(ps.len() - unknown.len()) == unknown
        }),
{
    let ps = options::pieces(raw);
    lemma_extras_are_pieces(ps);
    let o = options::declared(options::tokens(raw), credential)->Ok_0;
    let all = options::rendered_pieces(o, secret_path);
    assert(all.skip(all.len() - o.extra.len()) =~= o.extra);
}

/// The unrecognised options among pieces are those pieces.
proof fn lemma_extras_are_pieces(ps: Seq<Seq<char>>)
    ensures
        options::extras(toks(ps)) == ps.filter(
            |p: Seq<char>| options::kind(options::token(p)) == OptionKind::Extra,
        ),
    decreases ps.len(),
{
    reveal(Seq::filter);
    let keep = |p: Seq<char>| options::kind(options::token(p)) == OptionKind::Extra;
    if ps.len() == 0 {
        assert(options::extras(toks(ps)) =~= ps.filter(keep));
    } else {
        let rest = ps.drop_last();
        lemma_extras_are_pieces(rest);
        lemma_piece_of_token(ps.last());
        lemma_reading_one(options::token(ps.last()));
        lemma_extras_concat(toks(rest), seq![options::token(ps.last())]);
        assert(toks(ps) =~= toks(rest) + seq![options::token(ps.last())]);
        assert(options::extras(toks(ps)) =~= ps.filter(keep));
    }
}

// ---------------------------------------------------------------------------
// What an option string says, character by character
// ---------------------------------------------------------------------------

/// An option string is read option by option. An option ends at a comma or at
/// the end of the string; what stands before its first `=` is its key, all
/// that follows its value, and without a `=` it is a flag. An empty option is
/// none.
pub proof fn law_options_are_read_one_by_one(key: Seq<char>, value: Seq<char>, rest: Seq<char>)
    requires
        !key.contains('=') && !key.contains(','),
        !value.contains(','),
    ensures
        options::tokens(Seq::empty()) == Seq::<TokenView>::empty(),
        options::tokens(","@ + rest) == options::tokens(rest),
        options::tokens(key + "="@ + value) == seq![TokenView { key, value: Some(value) }],
        options::tokens(key + "="@ + value + ","@ + rest) == seq![
            TokenView { key, value: Some(value) },
        ] + options::tokens(rest),
        key.len() > 0 ==> options::tokens(key) == seq![TokenView { key, value: None }],
        key.len() > 0 ==> options::tokens(key + ","@ + rest) == seq![
            TokenView { key, value: None },
        ] + options::tokens(rest),
{
    reveal_strlit(",");
    reveal_strlit("=");
    let none = Seq::<char>::empty();
    let p = key + "="@ + value;
    let valued = TokenView { key, value: Some(value) };
    let flag = TokenView { key, value: None };
    assert(options::piece(valued) =~= p);
    lemma_token_of_piece(valued);
    lemma_token_of_piece(flag);
    if p.contains(',') {
        let j = choose|j: int| 0 <= j < p.len() && p[j] == ',';
        if j < key.len() {
            assert(key[j] == ',');
        } else if j > key.len() {
            assert(value[j - key.len() - 1] == ',');
        }
    }
    lemma_one_option(none, rest);
    lemma_one_option(p, rest);
    lemma_one_option(key, rest);
    assert(","@ + rest =~= none.push(',') + rest);
    assert(p + ","@ + rest =~= p.push(',') + rest);
    assert(key + ","@ + rest =~= key.push(',') + rest);
    assert(seq![valued] =~= toks(seq![p]));
    assert(seq![flag] =~= toks(seq![key]));
    assert(Seq::empty() + options::tokens(rest) =~= options::tokens(rest));
}

/// The first option of a string.
proof fn lemma_one_option(p: Seq<char>, rest: Seq<char>)
    requires
        !p.contains(','),
    ensures
        ({
            let first = if p.len() > 0 {
                toks(seq![p])
            } else {
                Seq::empty()
            };
            &&& options::tokens(p) == first
            &&& options::tokens(p.push(',') + rest) == first + options::tokens(rest)
        }),
{
    let keep = |p: Seq<char>| p.len() > 0;
    let one = seq![p];
    let more = text::split(rest, ',');
    text::law_split_cuts_at_separators(p, ',', rest);
    Seq::filter_distributes_over_add(one, more, keep);
    if p.len() > 0 {
        seqs::lemma_filter_all(one, keep);
    } else {
        seqs::lemma_filter_none(one, keep);
    }
    assert(options::pieces(p.push(',') + rest) == one.filter(keep) + more.filter(keep));
    assert(options::tokens(p) =~= if p.len() > 0 {
        toks(one)
    } else {
        Seq::empty()
    });
    assert(options::tokens(p.push(',') + rest) =~= options::tokens(p) + options::tokens(rest));
}

/// A token that has a value, under one of two keys.
pub open spec fn gives(t: TokenView, key: Seq<char>, short: Seq<char>) -> bool {
    t.value is Some && (t.key == key || t.key == short)
}

/// A token that is a flag of that name.
pub open spec fn is_flag(t: TokenView, name: Seq<char>) -> bool {
    t.value is None && t.key == name
}

/// A token that none of the rules is about.
pub open spec fn is_unknown(t: TokenView) -> bool {
    &&& t.key != "password"@ && t.key != "pass"@
    &&& !is_flag(t, "guest"@) && !is_flag(t, "noperm"@)
    &&& !gives(t, "vers"@, "vers"@) && !gives(t, "uid"@, "gid"@)
    &&& !gives(t, "iocharset"@, "iocharset"@) && !gives(t, "credentials"@, "cred"@)
    &&& !gives(t, "username"@, "user"@) && !gives(t, "domain"@, "dom"@)
}

/// What each option is: told apart by the key, whole and in lower case, and by
/// whether there is a value.
pub proof fn law_kinds(t: TokenView)
    ensures
        options::kind(t) == OptionKind::Vers <==> gives(t, "vers"@, "vers"@),
        options::kind(t) == OptionKind::CredentialsFile <==> gives(t, "credentials"@, "cred"@),
        options::kind(t) == OptionKind::Guest <==> is_flag(t, "guest"@),
        options::kind(t) == OptionKind::Username <==> gives(t, "username"@, "user"@),
        options::kind(t) == OptionKind::Domain <==> gives(t, "domain"@, "dom"@),
        options::kind(t) == OptionKind::Password <==> t.key == "password"@ || t.key == "pass"@,
        options::kind(t) == OptionKind::Uid <==> gives(t, "uid"@, "uid"@),
        options::kind(t) == OptionKind::Gid <==> gives(t, "gid"@, "gid"@),
        options::kind(t) == OptionKind::Iocharset <==> gives(t, "iocharset"@, "iocharset"@),
        options::kind(t) == OptionKind::Noperm <==> is_flag(t, "noperm"@),
        options::kind(t) == OptionKind::Extra <==> is_unknown(t),
{
    reveal_strlit("vers");
    reveal_strlit("credentials");
    reveal_strlit("cred");
    reveal_strlit("uid");
    reveal_strlit("gid");
    reveal_strlit("iocharset");
    reveal_strlit("guest");
    reveal_strlit("noperm");
    reveal_strlit("password");
    reveal_strlit("pass");
    reveal_strlit("username");
    reveal_strlit("user");
    reveal_strlit("domain");
    reveal_strlit("dom");
    assert("vers"@.len() == 4 && "vers"@[0] == 'v');
    assert("credentials"@.len() == 11);
    assert("cred"@.len() == 4 && "cred"@[0] == 'c');
    assert("uid"@.len() == 3 && "uid"@[0] == 'u');
    assert("gid"@.len() == 3 && "gid"@[0] == 'g');
    assert("iocharset"@.len() == 9);
    assert("guest"@.len() == 5);
    assert("noperm"@.len() == 6 && "noperm"@[0] == 'n');
    assert("password"@.len() == 8 && "password"@[0] == 'p');
    assert("pass"@.len() == 4 && "pass"@[0] == 'p');
    assert("username"@.len() == 8 && "username"@[0] == 'u');
    assert("user"@.len() == 4 && "user"@[0] == 'u');
    assert("domain"@.len() == 6 && "domain"@[0] == 'd');
    assert("dom"@.len() == 3 && "dom"@[0] == 'd');
}

/// A token that is refused whatever stands beside it: a password, or a
/// protocol version that is none of the four accepted.
pub open spec fn is_refused(t: TokenView) -> bool {
    ||| t.key == "password"@ || t.key == "pass"@
    ||| gives(t, "vers"@, "vers"@) && t.value != Some("2.0"@) && t.value != Some("2.1"@) && t.value
        != Some("3.0"@) && t.value != Some("3.1.1"@)
}

/// The versions that are accepted are four.
proof fn lemma_versions(v: Seq<char>)
    ensures
        options::versions().contains(v) <==> v == "2.0"@ || v == "2.1"@ || v == "3.0"@ || v
            == "3.1.1"@,
        text::join(options::versions(), ", "@) == "2.0, 2.1, 3.0, 3.1.1"@,
{
    let all = options::versions();
    assert(all[0] == "2.0"@ && all[1] == "2.1"@ && all[2] == "3.0"@ && all[3] == "3.1.1"@);
    reveal_strlit("2.0");
    reveal_strlit("2.1");
    reveal_strlit("3.0");
    reveal_strlit("3.1.1");
    reveal_strlit(", ");
    reveal_strlit("2.0, 2.1, 3.0, 3.1.1");
    reveal_with_fuel(text::join, 5);
    assert(all.skip(1)[0] == all[1]);
    assert(all.skip(1).skip(1)[0] == all[2]);
    assert(all.skip(1).skip(1).skip(1)[0] == all[3]);
    assert(text::join(all, ", "@) =~= "2.0, 2.1, 3.0, 3.1.1"@);
}

/// What is refused on its own is told apart by key and value.
proof fn lemma_fault_is_refused(t: TokenView)
    ensures
        options::fault(t) is Some <==> is_refused(t),
{
    law_kinds(t);
    if let Some(v) = t.value {
        lemma_versions(v);
    }
}

/// A list that holds refused options is refused, with the message of the
/// first of them.
pub proof fn law_first_refused_option_decides(
    ts: Seq<TokenView>,
    credential: Option<Seq<char>>,
    i: int,
)
    requires
        0 <= i < ts.len(),
        is_refused(ts[i]),
        forall|j: int| 0 <= j < i ==> !is_refused(#[trigger] ts[j]),
    ensures
        options::declared(ts, credential) == Err::<OptionsView, Seq<char>>(
            if ts[i].key == "vers"@ {
                "smb: unsupported vers `"@ + ts[i].value->0
                    + "` (accepted: 2.0, 2.1, 3.0, 3.1.1)"@
            } else {
                "smb: inline `password=` is not allowed in the option string; supply the password as a credential SecretRef"@
            },
        ),
{
    lemma_first_fault_is(ts, i);
    law_kinds(ts[i]);
    let v = ts[i].value->0;
    lemma_versions(v);
    reveal_strlit("` (accepted: ");
    reveal_strlit("2.0, 2.1, 3.0, 3.1.1");
    reveal_strlit(")");
    reveal_strlit("` (accepted: 2.0, 2.1, 3.0, 3.1.1)");
    assert("` (accepted: 2.0, 2.1, 3.0, 3.1.1)"@ =~= "` (accepted: "@ + "2.0, 2.1, 3.0, 3.1.1"@
        + ")"@);
    assert(options::vers_message(v) =~= "smb: unsupported vers `"@ + v
        + "` (accepted: 2.0, 2.1, 3.0, 3.1.1)"@);
    reveal_strlit("vers");
    reveal_strlit("password");
    reveal_strlit("pass");
    assert("vers"@.len() == 4 && "vers"@[0] == 'v');
    assert("password"@.len() == 8);
    assert("pass"@[0] == 'p');
}

/// The first refused token's fault is the first fault.
proof fn lemma_first_fault_is(ts: Seq<TokenView>, i: int)
    requires
        0 <= i < ts.len(),
        is_refused(ts[i]),
        forall|j: int| 0 <= j < i ==> !is_refused(#[trigger] ts[j]),
    ensures
        options::first_fault(ts) == options::fault(ts[i]),
        options::fault(ts[i]) is Some,
    decreases ts.len(),
{
    lemma_fault_is_refused(ts[0]);
    lemma_fault_is_refused(ts[i]);
    if i > 0 {
        let rest = ts.skip(1);
        assert(!is_refused(ts[0]));
        assert forall|j: int| 0 <= j < i - 1 implies !is_refused(#[trigger] rest[j]) by {
            assert(rest[j] == ts[j + 1]);
        }
        assert(rest[i - 1] == ts[i]);
        lemma_first_fault_is(rest, i - 1);
    }
}

/// `v` is the value of the last token under one of two keys, or nothing where
/// there is no such token.
pub open spec fn is_last_given(
    v: Option<Seq<char>>,
    ts: Seq<TokenView>,
    key: Seq<char>,
    short: Seq<char>,
) -> bool {
    match v {
        Some(_) => exists|i: int|
            {
                &&& 0 <= i < ts.len()
                &&& gives(#[trigger] ts[i], key, short)
                &&& ts[i].value == v
                &&& forall|j: int| i < j < ts.len() ==> !gives(#[trigger] ts[j], key, short)
            },
        None => forall|i: int| 0 <= i < ts.len() ==> !gives(#[trigger] ts[i], key, short),
    }
}

/// The last value of a kind, by the keys of that kind.
proof fn lemma_last_value_is_last_given(
    ts: Seq<TokenView>,
    k: OptionKind,
    key: Seq<char>,
    short: Seq<char>,
)
    requires
        forall|t: TokenView| (#[trigger] options::kind(t)) == k <==> gives(t, key, short),
    ensures
        is_last_given(options::last_value(ts, k), ts, key, short),
    decreases ts.len(),
{
    if ts.len() > 0 {
        let n = ts.len() - 1;
        let rest = ts.drop_last();
        assert(options::kind(ts[n]) == k <==> gives(ts[n], key, short));
        if options::kind(ts.last()) == k {
            assert(gives(ts[n], key, short) && ts[n].value == options::last_value(ts, k));
        } else {
            lemma_last_value_is_last_given(rest, k, key, short);
            let v = options::last_value(rest, k);
            if v is Some {
                let i = choose|i: int|
                    {
                        &&& 0 <= i < rest.len()
                        &&& gives(#[trigger] rest[i], key, short)
                        &&& rest[i].value == v
                        &&& forall|j: int|
                            i < j < rest.len() ==> !gives(#[trigger] rest[j], key, short)
                    };
                assert(gives(ts[i], key, short) && ts[i].value == v);
                assert forall|j: int| i < j < ts.len() implies !gives(
                    #[trigger] ts[j],
                    key,
                    short,
                ) by {
                    if j < n {
                        assert(rest[j] == ts[j]);
                    }
                }
            } else {
                assert forall|j: int| 0 <= j < ts.len() implies !gives(
                    #[trigger] ts[j],
                    key,
                    short,
                ) by {
                    if j < n {
                        assert(rest[j] == ts[j]);
                    }
                }
            }
        }
    }
}

/// Every kind's last value, by its keys.
proof fn lemma_last_values(ts: Seq<TokenView>)
    ensures
        is_last_given(options::last_value(ts, OptionKind::Vers), ts, "vers"@, "vers"@),
        is_last_given(
            options::last_value(ts, OptionKind::CredentialsFile),
            ts,
            "credentials"@,
            "cred"@,
        ),
        is_last_given(options::last_value(ts, OptionKind::Username), ts, "username"@, "user"@),
        is_last_given(options::last_value(ts, OptionKind::Domain), ts, "domain"@, "dom"@),
        is_last_given(options::last_value(ts, OptionKind::Uid), ts, "uid"@, "uid"@),
        is_last_given(options::last_value(ts, OptionKind::Gid), ts, "gid"@, "gid"@),
        is_last_given(
            options::last_value(ts, OptionKind::Iocharset),
            ts,
            "iocharset"@,
            "iocharset"@,
        ),
{
    assert forall|t: TokenView|
        {
            &&& (#[trigger] options::kind(t) == OptionKind::Vers <==> gives(t, "vers"@, "vers"@))
            &&& (options::kind(t) == OptionKind::CredentialsFile <==> gives(
                t,
                "credentials"@,
                "cred"@,
            ))
            &&& (options::kind(t) == OptionKind::Username <==> gives(t, "username"@, "user"@))
            &&& (options::kind(t) == OptionKind::Domain <==> gives(t, "domain"@, "dom"@))
            &&& (options::kind(t) == OptionKind::Uid <==> gives(t, "uid"@, "uid"@))
            &&& (options::kind(t) == OptionKind::Gid <==> gives(t, "gid"@, "gid"@))
            &&& (options::kind(t) == OptionKind::Iocharset <==> gives(
                t,
                "iocharset"@,
                "iocharset"@,
            ))
        } by {
        law_kinds(t);
    }
    lemma_last_value_is_last_given(ts, OptionKind::Vers, "vers"@, "vers"@);
    lemma_last_value_is_last_given(ts, OptionKind::CredentialsFile, "credentials"@, "cred"@);
    lemma_last_value_is_last_given(ts, OptionKind::Username, "username"@, "user"@);
    lemma_last_value_is_last_given(ts, OptionKind::Domain, "domain"@, "dom"@);
    lemma_last_value_is_last_given(ts, OptionKind::Uid, "uid"@, "uid"@);
    lemma_last_value_is_last_given(ts, OptionKind::Gid, "gid"@, "gid"@);
    lemma_last_value_is_last_given(ts, OptionKind::Iocharset, "iocharset"@, "iocharset"@);
}

/// Each field of accepted options comes from the options of its own name and
/// from nothing else: it is the value of the last of them, and there is none
/// where none is declared. `noperm` is set where the flag is, and the options
/// that no rule is about are kept, as they are written and in order.
pub proof fn law_fields_come_from_their_own_options(
    ts: Seq<TokenView>,
    credential: Option<Seq<char>>,
)
    requires
        options::declared(ts, credential) is Ok,
    ensures
        ({
            let o = options::declared(ts, credential)->Ok_0;
            &&& is_last_given(o.vers, ts, "vers"@, "vers"@)
            &&& is_last_given(o.uid, ts, "uid"@, "uid"@)
            &&& is_last_given(o.gid, ts, "gid"@, "gid"@)
            &&& is_last_given(o.iocharset, ts, "iocharset"@, "iocharset"@)
            &&& o.noperm <==> exists|i: int|
                0 <= i < ts.len() && is_flag(#[trigger] ts[i], "noperm"@)
            &&& o.extra == ts.filter(|t: TokenView| is_unknown(t)).map_values(
                |t: TokenView|
                    match t.value {
                        Some(v) => t.key + "="@ + v,
                        None => t.key,
                    },
            )
        }),
{
    lemma_last_values(ts);
    lemma_has_flag(ts, OptionKind::Noperm, "noperm"@);
    lemma_extras_are_unknown(ts);
}

/// A flag's kind occurs where the flag does.
proof fn lemma_has_flag(ts: Seq<TokenView>, k: OptionKind, name: Seq<char>)
    requires
        k == OptionKind::Noperm && name == "noperm"@ || k == OptionKind::Guest && name
            == "guest"@,
    ensures
        options::has(ts, k) <==> exists|i: int|
            0 <= i < ts.len() && is_flag(#[trigger] ts[i], name),
{
    assert forall|i: int| 0 <= i < ts.len() implies (options::kind(#[trigger] ts[i]) == k
        <==> is_flag(ts[i], name)) by {
        law_kinds(ts[i]);
    }
}

/// The unrecognised options are those that no rule is about.
proof fn lemma_extras_are_unknown(ts: Seq<TokenView>)
    ensures
        options::extras(ts) == ts.filter(|t: TokenView| is_unknown(t)).map_values(
            |t: TokenView|
                match t.value {
                    Some(v) => t.key + "="@ + v,
                    None => t.key,
                },
        ),
{
    reveal_strlit("=");
    let extra = |t: TokenView| options::kind(t) == OptionKind::Extra;
    let unknown = |t: TokenView| is_unknown(t);
    assert forall|t: TokenView| #[trigger] extra(t) == unknown(t) by {
        law_kinds(t);
    }
    assert(extra =~= unknown);
    let kept = ts.filter(unknown);
    assert forall|i: int| 0 <= i < kept.len() implies options::piece(#[trigger] kept[i])
        == match kept[i].value {
        Some(v) => kept[i].key + "="@ + v,
        None => kept[i].key,
    } by {
        if let Some(v) = kept[i].value {
            assert(options::piece(kept[i]) =~= kept[i].key + "="@ + v);
        }
    }
    assert(options::extras(ts) =~= kept.map_values(
        |t: TokenView|
            match t.value {
                Some(v) => t.key + "="@ + v,
                None => t.key,
            },
    ));
}

/// Where no option is refused on its own, the credential options decide. A
/// file, `guest` and a username exclude each other, a domain needs a username,
/// and a username needs the reference of its password; each conflict is
/// refused with its own message. Otherwise the credential is the one declared,
/// by the last option of each name.
pub proof fn law_credential_options_decide(ts: Seq<TokenView>, credential: Option<Seq<char>>)
    requires
        forall|i: int| 0 <= i < ts.len() ==> !is_refused(#[trigger] ts[i]),
    ensures
        ({
            let file = exists|i: int|
                0 <= i < ts.len() && gives(#[trigger] ts[i], "credentials"@, "cred"@);
            let guest = exists|i: int| 0 <= i < ts.len() && is_flag(#[trigger] ts[i], "guest"@);
            let user = exists|i: int|
                0 <= i < ts.len() && gives(#[trigger] ts[i], "username"@, "user"@);
            let domain = exists|i: int|
                0 <= i < ts.len() && gives(#[trigger] ts[i], "domain"@, "dom"@);
            match options::declared(ts, credential) {
                Err(m) => {
                    ||| file && guest && m
                        == "smb: `guest` and `credentials=` are mutually exclusive"@
                    ||| file && user && !guest && m
                        == "smb: `credentials=` (file) and `username=` (inline) are mutually exclusive"@
                    ||| guest && user && !file && m
                        == "smb: `guest` and `username=` are mutually exclusive"@
                    ||| domain && !user && !(file && guest) && m
                        == "smb: `domain=` is only valid alongside `username=`"@
                    ||| user && !file && !guest && credential is None && m
                        == "smb: inline `username=` requires a credential SecretRef for the password"@
                },
                Ok(o) => {
                    &&& !(file && guest) && !(file && user) && !(guest && user)
                    &&& domain ==> user
                    &&& user ==> credential is Some
                    &&& match o.credentials {
                        CredentialsView::File { path } => is_last_given(
                            Some(path),
                            ts,
                            "credentials"@,
                            "cred"@,
                        ),
                        CredentialsView::Inline { username, password, domain } => {
                            &&& is_last_given(Some(username), ts, "username"@, "user"@)
                            &&& Some(password) == credential
                            &&& is_last_given(domain, ts, "domain"@, "dom"@)
                        },
                        CredentialsView::Guest => !file && !user,
                    }
                },
            }
        }),
{
    lemma_no_fault(ts);
    assert forall|i: int| 0 <= i < ts.len() implies options::fault(#[trigger] ts[i]) is None by {
        lemma_fault_is_refused(ts[i]);
    }
    lemma_last_values(ts);
    lemma_has_flag(ts, OptionKind::Guest, "guest"@);
    lemma_given(ts, options::last_value(ts, OptionKind::CredentialsFile), "credentials"@, "cred"@);
    lemma_given(ts, options::last_value(ts, OptionKind::Username), "username"@, "user"@);
    lemma_given(ts, options::last_value(ts, OptionKind::Domain), "domain"@, "dom"@);
}

/// There is a last value where there is any.
proof fn lemma_given(
    ts: Seq<TokenView>,
    v: Option<Seq<char>>,
    key: Seq<char>,
    short: Seq<char>,
)
    requires
        is_last_given(v, ts, key, short),
    ensures
        v is Some <==> exists|i: int| 0 <= i < ts.len() && gives(#[trigger] ts[i], key, short),
{
}

/// A string of one option declares that option and nothing else: all other
/// fields are empty, and without a credential option the mount is anonymous.
pub proof fn law_one_option_declares_one_field(v: Seq<char>, credential: Option<Seq<char>>)
    requires
        !v.contains(','),
    ensures
        ({
            let none = OptionsView {
                vers: None,
                credentials: CredentialsView::Guest,
                uid: None,
                gid: None,
                iocharset: None,
                noperm: false,
                extra: Seq::empty(),
            };
            let says = |s: Seq<char>, o: OptionsView|
                options::declared(options::tokens(s), credential) == Ok::<
                    OptionsView,
                    Seq<char>,
                >(o);
            &&& says(Seq::empty(), none)
            &&& says("guest"@, none)
            &&& says("noperm"@, OptionsView { noperm: true, ..none })
            &&& says("uid="@ + v, OptionsView { uid: Some(v), ..none })
            &&& says("gid="@ + v, OptionsView { gid: Some(v), ..none })
            &&& says("iocharset="@ + v, OptionsView { iocharset: Some(v), ..none })
            &&& says(
                "credentials="@ + v,
                OptionsView { credentials: CredentialsView::File { path: v }, ..none },
            )
            &&& credential matches Some(secret) ==> says(
                "username="@ + v,
                OptionsView {
                    credentials: CredentialsView::Inline {
                        username: v,
                        password: secret,
                        domain: None,
                    },
                    ..none
                },
            )
            &&& (v == "2.0"@ || v == "2.1"@ || v == "3.0"@ || v == "3.1.1"@) ==> says(
                "vers="@ + v,
                OptionsView { vers: Some(v), ..none },
            )
        }),
{
    lemma_rendered_keys(v);
    lemma_versions(v);
    lemma_reading_none();
    law_options_are_read_one_by_one(Seq::empty(), Seq::empty(), Seq::empty());
    lemma_single("uid"@, "uid="@, v);
    lemma_single("gid"@, "gid="@, v);
    lemma_single("iocharset"@, "iocharset="@, v);
    lemma_single("credentials"@, "credentials="@, v);
    lemma_single("username"@, "username="@, v);
    lemma_single("vers"@, "vers="@, v);
    law_kinds(TokenView { key: "username"@, value: Some(v) });
    lemma_single_flag("guest"@);
    lemma_single_flag("noperm"@);
    assert(reading(Seq::empty()) == blank());
}

/// A string of one keyed option.
proof fn lemma_single(key: Seq<char>, written: Seq<char>, v: Seq<char>)
    requires
        !v.contains(','),
        key == "uid"@ && written == "uid="@ || key == "gid"@ && written == "gid="@ || key
            == "iocharset"@ && written == "iocharset="@ || key == "credentials"@ && written
            == "credentials="@ || key == "username"@ && written == "username="@ || key == "vers"@
            && written == "vers="@,
    ensures
        options::tokens(written + v) == seq![TokenView { key, value: Some(v) }],
        reading(options::tokens(written + v)) == reading_of_one(TokenView { key, value: Some(v) }),
{
    reveal_strlit("=");
    reveal_strlit("uid");
    reveal_strlit("uid=");
    reveal_strlit("gid");
    reveal_strlit("gid=");
    reveal_strlit("iocharset");
    reveal_strlit("iocharset=");
    reveal_strlit("credentials");
    reveal_strlit("credentials=");
    reveal_strlit("username");
    reveal_strlit("username=");
    reveal_strlit("vers");
    reveal_strlit("vers=");
    assert(written =~= key + "="@);
    assert(written + v =~= key + "="@ + v);
    law_options_are_read_one_by_one(key, v, Seq::empty());
    lemma_reading_one(TokenView { key, value: Some(v) });
}

/// A string of one flag.
proof fn lemma_single_flag(name: Seq<char>)
    requires
        name == "guest"@ || name == "noperm"@,
    ensures
        reading(options::tokens(name)) == reading_of_one(TokenView { key: name, value: None }),
{
    lemma_rendered_keys(name);
    assert(!name.contains('=') && !name.contains(','));
    law_options_are_read_one_by_one(name, Seq::empty(), Seq::empty());
    lemma_reading_one(TokenView { key: name, value: None });
}

// ---------------------------------------------------------------------------
// What the canonical string is, character by character
// ---------------------------------------------------------------------------

/// The canonical string, from the credentials outwards: `credentials=` and the
/// path of the file, which for an inline credential is that of its secret
/// file, or `guest`; before it the version; after it, in this order, uid, gid,
/// iocharset, `noperm` and the unrecognised options, with commas between.
pub proof fn law_canonical_string(
    o: OptionsView,
    v: Seq<char>,
    e: Seq<char>,
    secret_path: Seq<char>,
)
    ensures
        ({
            let s = |o: OptionsView| options::rendered(o, secret_path);
            let unversioned = OptionsView { vers: None, ..o };
            let plain = OptionsView { extra: Seq::empty(), ..o };
            let quiet = OptionsView { noperm: false, ..plain };
            let unset = OptionsView { iocharset: None, ..quiet };
            let groupless = OptionsView { gid: None, ..unset };
            let bare = OptionsView { vers: None, uid: None, ..groupless };
            &&& s(bare) == match o.credentials {
                CredentialsView::File { path } => "credentials="@ + path,
                CredentialsView::Inline { .. } => "credentials="@ + secret_path,
                CredentialsView::Guest => "guest"@,
            }
            &&& s(OptionsView { vers: Some(v), ..o }) == "vers="@ + v + ","@ + s(unversioned)
            &&& s(OptionsView { extra: o.extra.push(e), ..o }) == s(o) + ","@ + e
            &&& s(OptionsView { noperm: true, ..plain }) == s(quiet) + ",noperm"@
            &&& s(OptionsView { iocharset: Some(v), ..unset }) == s(unset) + ",iocharset="@ + v
            &&& s(OptionsView { gid: Some(v), ..groupless }) == s(groupless) + ",gid="@ + v
            &&& s(OptionsView { uid: Some(v), ..bare }) == s(bare) + ",uid="@ + v
        }),
{
    let unversioned = OptionsView { vers: None, ..o };
    let plain = OptionsView { extra: Seq::empty(), ..o };
    let quiet = OptionsView { noperm: false, ..plain };
    let unset = OptionsView { iocharset: None, ..quiet };
    let groupless = OptionsView { gid: None, ..unset };
    let bare = OptionsView { vers: None, uid: None, ..groupless };
    let c = options::credentials_piece(o.credentials, secret_path);
    reveal_strlit(",");
    reveal_strlit("=");
    reveal_strlit("vers");
    reveal_strlit("vers=");
    reveal_strlit("credentials");
    reveal_strlit("credentials=");
    reveal_strlit("uid");
    reveal_strlit(",uid=");
    reveal_strlit("gid");
    reveal_strlit(",gid=");
    reveal_strlit("iocharset");
    reveal_strlit(",iocharset=");
    reveal_strlit("noperm");
    reveal_strlit(",noperm");
    assert(","@ =~= seq![',']);
    assert("credentials="@ =~= "credentials"@.push('='));
    assert(options::rendered_pieces(bare, secret_path) =~= seq![c]);
    text::law_join_writes_between_neighbours(seq![c], seq![c], c, seq![',']);

    let versioned = OptionsView { vers: Some(v), ..o };
    let vp = "vers"@.push('=') + v;
    let rest = options::rendered_pieces(unversioned, secret_path);
    assert(options::rendered_pieces(versioned, secret_path) =~= seq![vp] + rest);
    text::law_join_writes_between_neighbours(seq![vp], rest, vp, seq![',']);
    assert("vers="@ =~= "vers"@.push('='));
    assert(options::rendered(versioned, secret_path) =~= "vers="@ + v + ","@ + options::rendered(
        unversioned,
        secret_path,
    ));

    lemma_one_more_piece(o, OptionsView { extra: o.extra.push(e), ..o }, e, secret_path);
    lemma_one_more_piece(
        quiet,
        OptionsView { noperm: true, ..plain },
        "noperm"@,
        secret_path,
    );
    assert(",noperm"@ =~= ","@ + "noperm"@);
    let ip = "iocharset"@.push('=') + v;
    lemma_one_more_piece(unset, OptionsView { iocharset: Some(v), ..unset }, ip, secret_path);
    assert(",iocharset="@ + v =~= ","@ + ip);
    let gp = "gid"@.push('=') + v;
    lemma_one_more_piece(groupless, OptionsView { gid: Some(v), ..groupless }, gp, secret_path);
    assert(",gid="@ + v =~= ","@ + gp);
    let up = "uid"@.push('=') + v;
    lemma_one_more_piece(bare, OptionsView { uid: Some(v), ..bare }, up, secret_path);
    assert(",uid="@ + v =~= ","@ + up);
    let s = |o: OptionsView| options::rendered(o, secret_path);
    assert(s(OptionsView { noperm: true, ..plain }) =~= s(quiet) + ",noperm"@);
    assert(s(OptionsView { iocharset: Some(v), ..unset }) =~= s(unset) + ",iocharset="@ + v);
    assert(s(OptionsView { gid: Some(v), ..groupless }) =~= s(groupless) + ",gid="@ + v);
    assert(s(OptionsView { uid: Some(v), ..bare }) =~= s(bare) + ",uid="@ + v);
}

/// Options whose pieces are those of others and one more.
proof fn lemma_one_more_piece(
    a: OptionsView,
    b: OptionsView,
    p: Seq<char>,
    secret_path: Seq<char>,
)
    requires
        options::rendered_pieces(b, secret_path) =~= options::rendered_pieces(a, secret_path).push(
            p,
        ),
    ensures
        options::rendered(b, secret_path) == options::rendered(a, secret_path) + ","@ + p,
{
    reveal_strlit(",");
    assert(","@ =~= seq![',']);
    let ps = options::rendered_pieces(a, secret_path);
    assert(ps.len() > 0);
    text::law_join_writes_between_neighbours(ps, seq![p], p, seq![',']);
    assert(ps.push(p) =~= ps + seq![p]);
}

// ---------------------------------------------------------------------------
// What a mount is made with
// ---------------------------------------------------------------------------

/// A token that is part of an inline credential.
pub open spec fn is_login(t: TokenView) -> bool {
    ||| t.key == "password"@ || t.key == "pass"@
    ||| gives(t, "username"@, "user"@)
    ||| gives(t, "domain"@, "dom"@)
}

/// Dropping the credential from an option string, however it was read, leaves
/// a string without a username, a domain or a password as it stands; of any
/// other it leaves all the other options, as they are written and in order,
/// with commas between.
pub proof fn law_only_credentials_are_dropped(raw: Seq<char>, ts: Seq<TokenView>)
    ensures
        ({
            let s = options::without_credentials(raw, ts);
            let login = exists|i: int| 0 <= i < ts.len() && is_login(#[trigger] ts[i]);
            let others = ts.filter(|t: TokenView| !is_login(t));
            &&& !login ==> s == raw
            &&& login ==> s == text::join(
                others.map_values(
                    |t: TokenView|
                        match t.value {
                            Some(v) => t.key + "="@ + v,
                            None => t.key,
                        },
                ),
                ","@,
            )
        }),
{
    reveal_strlit("=");
    reveal_strlit(",");
    assert(","@ =~= seq![',']);
    let credential_free = |t: TokenView| !options::is_credential(t);
    let other = |t: TokenView| !is_login(t);
    assert forall|t: TokenView| #[trigger] credential_free(t) == other(t) by {
        law_kinds(t);
    }
    assert(credential_free =~= other);
    assert forall|i: int| 0 <= i < ts.len() implies options::is_credential(#[trigger] ts[i])
        == is_login(ts[i]) by {
        law_kinds(ts[i]);
    }
    let kept = ts.filter(other);
    let ps = options::plain_pieces(ts);
    assert forall|i: int| 0 <= i < kept.len() implies (#[trigger] ps[i]) == match kept[i].value {
        Some(v) => kept[i].key + "="@ + v,
        None => kept[i].key,
    } by {
        if let Some(v) = kept[i].value {
            assert(options::piece(kept[i]) =~= kept[i].key + "="@ + v);
        }
    }
    assert(ps =~= kept.map_values(
        |t: TokenView|
            match t.value {
                Some(v) => t.key + "="@ + v,
                None => t.key,
            },
    ));
}

/// An accepted declaration is mounted with its canonical string, and a refused
/// one with what is left of the string without a credential; a string is
/// mounted with as it is read.
pub proof fn law_mounted_string(
    raw: Seq<char>,
    ts: Seq<TokenView>,
    credential: Option<Seq<char>>,
    secret_path: Seq<char>,
)
    ensures
        options::declared(ts, credential) matches Ok(o) ==> options::mounted_with_tokens(
            raw,
            ts,
            credential,
            secret_path,
        ) == options::rendered(o, secret_path),
        options::declared(ts, credential) is Err ==> options::mounted_with_tokens(
            raw,
            ts,
            credential,
            secret_path,
        ) == options::without_credentials(raw, ts),
        options::tokens(raw) == ts ==> options::mounted_with(raw, credential, secret_path)
            == options::mounted_with_tokens(raw, ts, credential, secret_path),
{
}

/// What may come of reading options is told by [`options::reports`] exactly:
/// the options, field by field, or a refusal with that message.
pub proof fn law_reports(
    r: Result<SmbOptions, StorageError>,
    o: OptionsView,
    message: Seq<char>,
)
    ensures
        options::reports(r, Ok(o)) <==> (r matches Ok(x) && x.deep_view() == o),
        options::reports(r, Err(message)) <==> (r matches Err(StorageError::Other(m)) && m@
            == message),
{
}

/// A declaration without an option string is read as one with an empty
/// string; any other is read as it stands.
pub proof fn law_declared_text(raw: Seq<char>)
    ensures
        options::declared_text(None).len() == 0,
        options::declared_text(Some(raw)) == raw,
        options::tokens(options::declared_text(None)).len() == 0,
{
    law_options_are_read_one_by_one(Seq::empty(), Seq::empty(), Seq::empty());
}

/// The views of tokens, options and credentials show their fields, each under
/// its own name.
pub proof fn law_option_views(
    t: OptionToken,
    o: SmbOptions,
    c: SmbCredentials,
)
    ensures
        t.deep_view().key == t.key@,
        t.deep_view().value is Some <==> t.value is Some,
        t.value matches Some(v) ==> t.deep_view().value == Some(v@),
        o.deep_view().vers is Some <==> o.vers is Some,
        o.vers matches Some(v) ==> o.deep_view().vers == Some(v@),
        o.deep_view().uid is Some <==> o.uid is Some,
        o.uid matches Some(v) ==> o.deep_view().uid == Some(v@),
        o.deep_view().gid is Some <==> o.gid is Some,
        o.gid matches Some(v) ==> o.deep_view().gid == Some(v@),
        o.deep_view().iocharset is Some <==> o.iocharset is Some,
        o.iocharset matches Some(v) ==> o.deep_view().iocharset == Some(v@),
        o.deep_view().noperm == o.noperm,
        o.deep_view().extra == o.extra@.map_values(|s: String| s@),
        o.deep_view().credentials == o.credentials.deep_view(),
        match c {
            SmbCredentials::File { path } => c.deep_view() == (CredentialsView::File {
                path: path@,
            }),
            SmbCredentials::Inline { username, password, domain } => {
                &&& c.deep_view() is Inline
                &&& c.deep_view()->username == username@
                &&& c.deep_view()->password == password.0@
                &&& c.deep_view()->domain is Some <==> domain is Some
                &&& domain matches Some(d) ==> c.deep_view()->domain == Some(d@)
            },
            SmbCredentials::Guest => c.deep_view() == CredentialsView::Guest,
        },
{
    assert(o.deep_view().extra =~= o.extra@.map_values(|s: String| s@));
}

} // verus!
