//! Strings as sequences of characters: splitting, joining, trimming, line
//! breaking and decimal numbers.
use vstd::prelude::*;
use vstd::string::*;

verus! {

/// `String::push`: the character is appended to the end of the string.
pub assume_specification[ String::push ](s: &mut String, c: char)
    ensures
        final(s)@ == old(s)@.push(c),
;

// ---------------------------------------------------------------------------
// What the functions below compute
// ---------------------------------------------------------------------------

/// The position of the first `c` in `s`, or the length of `s` if there is none.
pub open spec fn find(s: Seq<char>, c: char) -> nat
    decreases s.len(),
{
    if s.len() == 0 || s[0] == c {
        0
    } else {
        1 + find(s.skip(1), c)
    }
}

/// The pieces of `s` between its separators. A text with `n` separators has
/// `n + 1` pieces, any of which may be empty.
pub open spec fn split(s: Seq<char>, sep: char) -> Seq<Seq<char>>
    decreases s.len(),
{
    let k = find(s, sep);
    if k >= s.len() {
        seq![s]
    } else {
        seq![s.take(k as int)] + split(s.skip(k as int + 1), sep)
    }
}

/// The pieces written one after the other, with `sep` between neighbours.
pub open spec fn join(parts: Seq<Seq<char>>, sep: Seq<char>) -> Seq<char>
    decreases parts.len(),
{
    if parts.len() == 0 {
        Seq::empty()
    } else if parts.len() == 1 {
        parts[0]
    } else {
        parts[0] + sep + join(parts.skip(1), sep)
    }
}

/// The lines of `s`, without their endings. A line ends with `\n` or with
/// `\r\n`; the ending of the last line is optional.
pub open spec fn lines(s: Seq<char>) -> Seq<Seq<char>>
    decreases s.len(),
{
    let k = find(s, '\n');
    if s.len() == 0 {
        Seq::empty()
    } else if k >= s.len() {
        seq![s]
    } else {
        seq![without_cr(s.take(k as int))] + lines(s.skip(k as int + 1))
    }
}

/// `s` without a carriage return at its end.
pub open spec fn without_cr(s: Seq<char>) -> Seq<char> {
    if s.len() > 0 && s.last() == '\r' {
        s.drop_last()
    } else {
        s
    }
}

/// The characters with Unicode's `White_Space` property.
pub open spec fn is_space(c: char) -> bool {
    let n = c as u32;
    ||| 0x9 <= n <= 0xd
    ||| n == 0x20
    ||| n == 0x85
    ||| n == 0xa0
    ||| n == 0x1680
    ||| 0x2000 <= n <= 0x200a
    ||| n == 0x2028
    ||| n == 0x2029
    ||| n == 0x202f
    ||| n == 0x205f
    ||| n == 0x3000
}

/// `s` without the white space at its start.
pub open spec fn trim_start(s: Seq<char>) -> Seq<char>
    decreases s.len(),
{
    if s.len() > 0 && is_space(s[0]) {
        trim_start(s.skip(1))
    } else {
        s
    }
}

/// `s` without the white space at its end.
pub open spec fn trim_end(s: Seq<char>) -> Seq<char>
    decreases s.len(),
{
    if s.len() > 0 && is_space(s.last()) {
        trim_end(s.drop_last())
    } else {
        s
    }
}

/// `s` without the white space at its start and end.
pub open spec fn trim(s: Seq<char>) -> Seq<char> {
    trim_end(trim_start(s))
}

/// The digit for a number below ten.
pub open spec fn digit(n: nat) -> char {
    (48 + n) as char
}

/// A natural number in decimal, without leading zeros.
pub open spec fn digits(n: nat) -> Seq<char>
    decreases n,
{
    if n < 10 {
        seq![digit(n)]
    } else {
        digits(n / 10).push(digit(n % 10))
    }
}

/// An integer in decimal.
pub open spec fn decimal(n: int) -> Seq<char> {
    if n < 0 {
        seq!['-'] + digits((-n) as nat)
    } else {
        digits(n as nat)
    }
}

// ---------------------------------------------------------------------------
// Facts about them
// ---------------------------------------------------------------------------

/// `find` stops at the first match.
pub proof fn lemma_find(s: Seq<char>, c: char)
    ensures
        find(s, c) <= s.len(),
        forall|j: int| 0 <= j < find(s, c) ==> s[j] != c,
        find(s, c) < s.len() ==> s[find(s, c) as int] == c,
        s.contains(c) <==> find(s, c) < s.len(),
    decreases s.len(),
{
    if s.len() == 0 || s[0] == c {
        if s.len() > 0 {
            assert(s.contains(s[0]));
        }
    } else {
        lemma_find(s.skip(1), c);
        let k = find(s.skip(1), c);
        assert forall|j: int| 0 <= j < k + 1 implies s[j] != c by {
            if j > 0 {
                assert(s[j] == s.skip(1)[j - 1]);
            }
        }
        if k < s.skip(1).len() {
            assert(s[k as int + 1] == s.skip(1)[k as int]);
            assert(s.contains(s[k as int + 1]));
        }
    }
}

/// A position that looks like the first match is the first match.
pub proof fn lemma_find_is(s: Seq<char>, c: char, k: int)
    requires
        0 <= k <= s.len(),
        forall|j: int| 0 <= j < k ==> s[j] != c,
        k < s.len() ==> s[k] == c,
    ensures
        find(s, c) == k,
{
    lemma_find(s, c);
}

/// Splitting undoes joining, for pieces that hold no separator.
pub proof fn lemma_split_join(parts: Seq<Seq<char>>, sep: char)
    requires
        parts.len() > 0,
        forall|i: int| 0 <= i < parts.len() ==> !(#[trigger] parts[i]).contains(sep),
    ensures
        split(join(parts, seq![sep]), sep) == parts,
    decreases parts.len(),
{
    let text = join(parts, seq![sep]);
    let head = parts[0];
    if parts.len() == 1 {
        lemma_find(text, sep);
        assert(seq![text] =~= parts);
    } else {
        let rest = parts.skip(1);
        let tail = join(rest, seq![sep]);
        assert forall|i: int| 0 <= i < rest.len() implies !(#[trigger] rest[i]).contains(sep) by {
            assert(rest[i] == parts[i + 1]);
        }
        lemma_split_join(rest, sep);
        assert(text == head + seq![sep] + tail);
        assert forall|j: int| 0 <= j < head.len() implies text[j] != sep by {
            assert(text[j] == head[j]);
            assert(head.contains(head[j]));
        }
        assert(text[head.len() as int] == sep);
        lemma_find_is(text, sep, head.len() as int);
        assert(text.take(head.len() as int) =~= head);
        assert(text.skip(head.len() as int + 1) =~= tail);
        assert(seq![head] + rest =~= parts);
    }
}

/// No piece of a split holds the separator, and there is at least one piece.
pub proof fn lemma_split_pieces(s: Seq<char>, sep: char)
    ensures
        split(s, sep).len() > 0,
        forall|i: int| 0 <= i < split(s, sep).len() ==> !(#[trigger] split(s, sep)[i]).contains(sep),
    decreases s.len(),
{
    let k = find(s, sep);
    lemma_find(s, sep);
    if k < s.len() {
        let rest = split(s.skip(k as int + 1), sep);
        lemma_split_pieces(s.skip(k as int + 1), sep);
        let all = split(s, sep);
        assert forall|i: int| 0 <= i < all.len() implies !(#[trigger] all[i]).contains(sep) by {
            if i == 0 {
                assert(all[0] == s.take(k as int));
            } else {
                assert(all[i] == rest[i - 1]);
            }
        }
    }
}

// ---------------------------------------------------------------------------
// Laws
// ---------------------------------------------------------------------------

/// A text is cut at each separator and nowhere else: what stands before the
/// first separator is the first piece, as it stands, and the rest is cut in
/// the same way. A text without a separator is its own only piece.
pub proof fn law_split_cuts_at_separators(head: Seq<char>, sep: char, rest: Seq<char>)
    requires
        !head.contains(sep),
    ensures
        split(head, sep) == seq![head],
        split(head.push(sep) + rest, sep) == seq![head] + split(rest, sep),
{
    let s = head.push(sep) + rest;
    let n = head.len() as int;
    lemma_find(head, sep);
    assert forall|j: int| 0 <= j < n implies s[j] != sep by {
        assert(s[j] == head[j]);
        assert(head.contains(head[j]));
    }
    assert(s[n] == sep);
    lemma_find_is(s, sep, n);
    assert(s.take(n) =~= head);
    assert(s.skip(n + 1) =~= rest);
}

/// Joining writes every piece as it stands, and the separator exactly between
/// neighbours: two lists joined are the first joined, the separator and the
/// second joined.
pub proof fn law_join_writes_between_neighbours(
    a: Seq<Seq<char>>,
    b: Seq<Seq<char>>,
    p: Seq<char>,
    sep: Seq<char>,
)
    ensures
        join(Seq::empty(), sep) == Seq::<char>::empty(),
        join(seq![p], sep) == p,
        a.len() > 0 && b.len() > 0 ==> join(a + b, sep) == join(a, sep) + sep + join(b, sep),
    decreases a.len(),
{
    if a.len() > 0 && b.len() > 0 {
        assert((a + b)[0] == a[0]);
        if a.len() == 1 {
            assert((a + b).skip(1) =~= b);
        } else {
            assert((a + b).skip(1) =~= a.skip(1) + b);
            law_join_writes_between_neighbours(a.skip(1), b, p, sep);
            assert(join(a + b, sep) =~= join(a, sep) + sep + join(b, sep));
        }
    }
}

/// A line is what stands before a line feed, less one carriage return right
/// before it; what stands after the last line feed is a line where it is not
/// empty.
pub proof fn law_lines_end_at_line_feeds(line: Seq<char>, rest: Seq<char>)
    requires
        !line.contains('\n'),
    ensures
        lines(Seq::empty()) == Seq::<Seq<char>>::empty(),
        line.len() > 0 ==> lines(line) == seq![line],
        line.len() == 0 || line.last() != '\r' ==> lines(line.push('\n') + rest) == seq![line]
            + lines(rest),
        lines(line.push('\r').push('\n') + rest) == seq![line] + lines(rest),
{
    lemma_find(line, '\n');
    lemma_first_line(line, rest);
    let ended = line.push('\r');
    assert forall|j: int| 0 <= j < ended.len() implies ended[j] != '\n' by {
        if j < line.len() {
            assert(line.contains(line[j]));
        }
    }
    lemma_first_line(ended, rest);
    assert(ended.drop_last() =~= line);
}

/// The first line of a text that has a line feed.
proof fn lemma_first_line(line: Seq<char>, rest: Seq<char>)
    requires
        !line.contains('\n'),
    ensures
        lines(line.push('\n') + rest) == seq![without_cr(line)] + lines(rest),
{
    let s = line.push('\n') + rest;
    let n = line.len() as int;
    assert forall|j: int| 0 <= j < n implies s[j] != '\n' by {
        assert(s[j] == line[j]);
        assert(line.contains(line[j]));
    }
    assert(s[n] == '\n');
    lemma_find_is(s, '\n', n);
    assert(s.take(n) =~= line);
    assert(s.skip(n + 1) =~= rest);
}

/// White space is what Unicode calls so, character by character.
pub proof fn law_white_space(c: char)
    ensures
        is_space(c) <==> match c {
            '\t' | '\n' | '\u{b}' | '\u{c}' | '\r' | ' ' | '\u{85}' | '\u{a0}' | '\u{1680}' => true,
            '\u{2000}' | '\u{2001}' | '\u{2002}' | '\u{2003}' | '\u{2004}' | '\u{2005}' => true,
            '\u{2006}' | '\u{2007}' | '\u{2008}' | '\u{2009}' | '\u{200a}' => true,
            '\u{2028}' | '\u{2029}' | '\u{202f}' | '\u{205f}' | '\u{3000}' => true,
            _ => false,
        },
{
}

/// Trimming takes away white space on both sides, all of it, and nothing
/// else.
pub proof fn law_trim_takes_the_white_space_around(
    lead: Seq<char>,
    core: Seq<char>,
    trail: Seq<char>,
)
    requires
        forall|i: int| 0 <= i < lead.len() ==> is_space(#[trigger] lead[i]),
        forall|i: int| 0 <= i < trail.len() ==> is_space(#[trigger] trail[i]),
        core.len() > 0 ==> !is_space(core[0]) && !is_space(core.last()),
    ensures
        trim(lead + core + trail) == core,
{
    lemma_trim_start(lead, core + trail);
    assert(lead + core + trail =~= lead + (core + trail));
    if core.len() > 0 {
        assert((core + trail)[0] == core[0]);
        lemma_trim_end(core, trail);
    } else {
        assert(core + trail =~= trail);
        lemma_trim_start(trail, core);
        assert(trail + core =~= trail);
    }
}

/// Leading white space is skipped.
proof fn lemma_trim_start(lead: Seq<char>, s: Seq<char>)
    requires
        forall|i: int| 0 <= i < lead.len() ==> is_space(#[trigger] lead[i]),
    ensures
        trim_start(lead + s) == trim_start(s),
    decreases lead.len(),
{
    if lead.len() == 0 {
        assert(lead + s =~= s);
    } else {
        let rest = lead.skip(1);
        assert forall|i: int| 0 <= i < rest.len() implies is_space(#[trigger] rest[i]) by {
            assert(rest[i] == lead[i + 1]);
        }
        assert((lead + s)[0] == lead[0]);
        assert((lead + s).skip(1) =~= rest + s);
        lemma_trim_start(rest, s);
    }
}

/// Trailing white space is dropped.
proof fn lemma_trim_end(s: Seq<char>, trail: Seq<char>)
    requires
        forall|i: int| 0 <= i < trail.len() ==> is_space(#[trigger] trail[i]),
    ensures
        trim_end(s + trail) == trim_end(s),
    decreases trail.len(),
{
    if trail.len() == 0 {
        assert(s + trail =~= s);
    } else {
        let rest = trail.drop_last();
        assert forall|i: int| 0 <= i < rest.len() implies is_space(#[trigger] rest[i]) by {
            assert(rest[i] == trail[i]);
        }
        assert(trail[trail.len() - 1] == (s + trail).last());
        assert((s + trail).drop_last() =~= s + rest);
        lemma_trim_end(s, rest);
    }
}

/// A number is written digit by digit, the highest first and never a zero in
/// front of others, with a minus sign before a negative one.
pub proof fn law_decimal_is_positional(n: nat, d: nat)
    requires
        d < 10,
    ensures
        decimal(d as int) == seq!["0123456789"@[d as int]],
        n > 0 ==> decimal((10 * n + d) as int) == decimal(n as int) + seq![
            "0123456789"@[d as int],
        ],
        n > 0 ==> decimal(-n) == "-"@ + decimal(n as int),
{
    reveal_strlit("0123456789");
    reveal_strlit("-");
    assert("-"@ =~= seq!['-']);
    if n > 0 {
        assert((10 * n + d) as nat / 10 == n && (10 * n + d) as nat % 10 == d);
        assert(digits((10 * n + d) as nat) =~= digits(n) + seq![digit(d)]);
    }
}

// ---------------------------------------------------------------------------
// Executable functions
// ---------------------------------------------------------------------------

/// Whether two texts are the same.
pub fn same_text(a: &str, b: &str) -> (r: bool)
    ensures
        r == (a@ == b@),
{
    let x = a.as_bytes();
    let y = b.as_bytes();
    if x.len() != y.len() {
        return false;
    }
    let mut i: usize = 0;
    while i < x.len()
        invariant
            i <= x@.len(),
            x@.len() == y@.len(),
            x@ == a.spec_bytes(),
            y@ == b.spec_bytes(),
            forall|j: int| 0 <= j < i ==> x@[j] == y@[j],
        decreases x@.len() - i,
    {
        if x[i] != y[i] {
            return false;
        }
        i += 1;
    }
    proof {
        assert(x@ =~= y@);
        vstd::utf8::encode_utf8_decode_utf8(a@);
        vstd::utf8::encode_utf8_decode_utf8(b@);
    }
    true
}

/// The characters of a text.
pub fn to_chars(s: &str) -> (v: Vec<char>)
    ensures
        v@ == s@,
{
    let mut v: Vec<char> = Vec::new();
    for c in it: s.chars()
        invariant
            it.seq() == s@,
            v@ == s@.take(it.index() as int),
    {
        v.push(c);
    }
    assert(s@.take(s@.len() as int) =~= s@);
    v
}

/// The characters from position `from` up to position `to`, as a string.
pub fn slice_text(chars: &Vec<char>, from: usize, to: usize) -> (s: String)
    requires
        from <= to <= chars@.len(),
    ensures
        s@ == chars@.subrange(from as int, to as int),
{
    let mut s = String::new();
    let mut i: usize = from;
    while i < to
        invariant
            from <= i <= to <= chars@.len(),
            s@ == chars@.subrange(from as int, i as int),
        decreases to - i,
    {
        s.push(chars[i]);
        i += 1;
        assert(s@ =~= chars@.subrange(from as int, i as int));
    }
    s
}

/// The pieces of `s` between its separators.
pub fn split_text(s: &str, sep: char) -> (parts: Vec<String>)
    ensures
        parts.deep_view() == split(s@, sep),
{
    let chars = to_chars(s);
    let mut parts: Vec<String> = Vec::new();
    let mut start: usize = 0;
    let mut i: usize = 0;
    assert(s@.skip(0) =~= s@);
    assert(parts.deep_view() + split(s@, sep) =~= split(s@, sep));
    while i < chars.len()
        invariant
            start <= i <= chars@.len(),
            chars@ == s@,
            forall|j: int| start <= j < i ==> s@[j] != sep,
            split(s@, sep) == parts.deep_view() + split(s@.skip(start as int), sep),
        decreases chars@.len() - i,
    {
        if chars[i] == sep {
            let piece = slice_text(&chars, start, i);
            proof {
                let rest = s@.skip(start as int);
                lemma_find_is(rest, sep, i - start);
                assert(rest.take(i - start) =~= piece@);
                assert(rest.skip(i - start + 1) =~= s@.skip(i + 1));
            }
            let ghost before = parts.deep_view();
            parts.push(piece);
            start = i + 1;
            assert(parts.deep_view() =~= before.push(piece@));
            assert(split(s@, sep) =~= parts.deep_view() + split(s@.skip(start as int), sep));
        }
        i += 1;
    }
    let piece = slice_text(&chars, start, i);
    proof {
        let rest = s@.skip(start as int);
        lemma_find_is(rest, sep, rest.len() as int);
        assert(rest =~= piece@);
    }
    let ghost before = parts.deep_view();
    parts.push(piece);
    assert(parts.deep_view() =~= before.push(piece@));
    assert(split(s@, sep) =~= parts.deep_view());
    parts
}

/// The pieces written one after the other, with `sep` between neighbours.
pub fn join_text(parts: &Vec<String>, sep: &str) -> (s: String)
    ensures
        s@ == join(parts.deep_view(), sep@),
{
    let mut s = String::new();
    let ghost all = parts.deep_view();
    if parts.len() == 0 {
        return s;
    }
    s.append(parts[0].as_str());
    let mut i: usize = 1;
    assert(s@ =~= all[0]);
    assert(all.skip(0) =~= all);
    while i < parts.len()
        invariant
            1 <= i <= parts@.len(),
            all == parts.deep_view(),
            i < parts@.len() ==> join(all, sep@) == s@ + sep@ + join(all.skip(i as int), sep@),
            i == parts@.len() ==> join(all, sep@) == s@,
        decreases parts@.len() - i,
    {
        let ghost before = s@;
        let ghost rest = all.skip(i as int);
        s.append(sep);
        s.append(parts[i].as_str());
        assert(rest[0] == parts[i as int]@);
        assert(rest.skip(1) =~= all.skip(i + 1));
        i += 1;
        assert(s@ =~= before + sep@ + rest[0]);
        if i < parts.len() {
            assert(s@ + sep@ + join(all.skip(i as int), sep@) =~= before + sep@ + (rest[0] + sep@
                + join(rest.skip(1), sep@)));
        }
    }
    s
}

/// The lines of `s`, without their endings.
pub fn split_lines(s: &str) -> (r: Vec<String>)
    ensures
        r.deep_view() == lines(s@),
{
    let chars = to_chars(s);
    let mut r: Vec<String> = Vec::new();
    let mut start: usize = 0;
    let mut i: usize = 0;
    assert(s@.skip(0) =~= s@);
    assert(r.deep_view() + lines(s@) =~= lines(s@));
    while i < chars.len()
        invariant
            start <= i <= chars@.len(),
            chars@ == s@,
            forall|j: int| start <= j < i ==> s@[j] != '\n',
            lines(s@) == r.deep_view() + lines(s@.skip(start as int)),
        decreases chars@.len() - i,
    {
        if chars[i] == '\n' {
            let end: usize = if i > start && chars[i - 1] == '\r' {
                i - 1
            } else {
                i
            };
            let line = slice_text(&chars, start, end);
            proof {
                let rest = s@.skip(start as int);
                lemma_find_is(rest, '\n', i - start);
                assert(rest.take(i - start) =~= s@.subrange(start as int, i as int));
                assert(without_cr(rest.take(i - start)) =~= line@);
                assert(rest.skip(i - start + 1) =~= s@.skip(i + 1));
            }
            let ghost before = r.deep_view();
            r.push(line);
            start = i + 1;
            assert(r.deep_view() =~= before.push(line@));
            assert(lines(s@) =~= r.deep_view() + lines(s@.skip(start as int)));
        }
        i += 1;
    }
    let ghost rest = s@.skip(start as int);
    if start < chars.len() {
        let line = slice_text(&chars, start, i);
        proof {
            lemma_find_is(rest, '\n', rest.len() as int);
            assert(rest =~= line@);
        }
        let ghost before = r.deep_view();
        r.push(line);
        assert(r.deep_view() =~= before.push(line@));
    }
    assert(lines(s@) =~= r.deep_view());
    r
}

/// Whether a character has Unicode's `White_Space` property.
fn is_white_space(c: char) -> (r: bool)
    ensures
        r == is_space(c),
{
    let n = c as u32;
    (0x9 <= n && n <= 0xd) || n == 0x20 || n == 0x85 || n == 0xa0 || n == 0x1680 || (0x2000 <= n
        && n <= 0x200a) || n == 0x2028 || n == 0x2029 || n == 0x202f || n == 0x205f || n == 0x3000
}

/// A text without the white space at its start and end.
pub fn trim_text(s: &str) -> (r: String)
    ensures
        r@ == trim(s@),
{
    let chars = to_chars(s);
    let mut start: usize = 0;
    assert(s@.skip(0) =~= s@);
    while start < chars.len() && is_white_space(chars[start])
        invariant
            start <= chars@.len(),
            chars@ == s@,
            trim_start(s@) == trim_start(s@.skip(start as int)),
        decreases chars@.len() - start,
    {
        assert(s@.skip(start as int).skip(1) =~= s@.skip(start + 1));
        start += 1;
    }
    let mut end: usize = chars.len();
    assert(s@.subrange(start as int, end as int) =~= s@.skip(start as int));
    while end > start && is_white_space(chars[end - 1])
        invariant
            start <= end <= chars@.len(),
            chars@ == s@,
            trim(s@) == trim_end(s@.subrange(start as int, end as int)),
        decreases end,
    {
        assert(s@.subrange(start as int, end as int).drop_last() =~= s@.subrange(
            start as int,
            end - 1,
        ));
        end -= 1;
    }
    slice_text(&chars, start, end)
}

/// Appends a number in decimal.
fn push_digits(s: &mut String, n: u64)
    ensures
        final(s)@ == old(s)@ + digits(n as nat),
    decreases n,
{
    if n >= 10 {
        push_digits(s, n / 10);
    }
    s.push((48u8 + (n % 10) as u8) as char);
    assert(s@ =~= old(s)@ + digits(n as nat));
}

/// An integer in decimal.
pub fn decimal_text(n: i32) -> (s: String)
    ensures
        s@ == decimal(n as int),
{
    let mut s = String::new();
    if n < 0 {
        s.push('-');
        push_digits(&mut s, (-(n as i64)) as u64);
    } else {
        push_digits(&mut s, n as u64);
    }
    assert(s@ =~= decimal(n as int));
    s
}

} // verus!
