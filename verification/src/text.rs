//! Character-level string building blocks shared by the path and report code.

use vstd::prelude::*;
use vstd::string::StrSliceExecFns;

verus! {

/// Appends one character to a `String` (std `String::push`).
///
/// Trusted: the contract restates std's documented behaviour, "appends the
/// given char to the end of this String".
#[verifier::external_body]
pub(crate) fn push_char(s: &mut String, c: char)
    ensures
        final(s)@ == old(s)@.push(c),
{
    s.push(c);
}

/// Appends a whole string slice.
pub fn push_str(s: &mut String, t: &str)
    ensures
        final(s)@ == old(s)@ + t@,
{
    s.append(t);
}

/// The characters of `s`, one by one, as an owned vector.
pub fn chars_of(s: &str) -> (out: Vec<char>)
    ensures
        out@ == s@,
{
    let n = s.unicode_len();
    let mut out: Vec<char> = Vec::new();
    let mut i: usize = 0;
    while i < n
        invariant
            n == s@.len(),
            i <= n,
            out@ == s@.take(i as int),
        decreases n - i,
    {
        out.push(s.get_char(i));
        assert(s@.take(i + 1) =~= s@.take(i as int).push(s@[i as int]));
        i = i + 1;
    }
    assert(s@.take(n as int) =~= s@);
    out
}

/// A `String` holding exactly the characters of `cs`.
pub fn string_of(cs: &Vec<char>) -> (out: String)
    ensures
        out@ == cs@,
{
    let mut out = String::new();
    let mut i: usize = 0;
    while i < cs.len()
        invariant
            i <= cs.len(),
            out@ == cs@.take(i as int),
        decreases cs.len() - i,
    {
        push_char(&mut out, cs[i]);
        assert(cs@.take(i + 1) =~= cs@.take(i as int).push(cs@[i as int]));
        i = i + 1;
    }
    assert(cs@.take(cs.len() as int) =~= cs@);
    out
}

/// `c` with a Windows path separator turned into a forward slash.
pub open spec fn forward(c: char) -> char {
    if c == '\\' { '/' } else { c }
}

/// `s` with every backslash replaced by a forward slash.
pub open spec fn forward_slashes(s: Seq<char>) -> Seq<char> {
    s.map_values(|c: char| forward(c))
}

/// Replace every `\` by `/` — the separator-normalized spelling of a path
/// that baselines, SARIF URIs and source links are keyed and written with.
pub fn replace_backslashes(s: &str) -> (out: String)
    ensures
        out@ == forward_slashes(s@),
{
    let cs = chars_of(s);
    let mut out = String::new();
    let mut i: usize = 0;
    while i < cs.len()
        invariant
            cs@ == s@,
            i <= cs.len(),
            out@ == forward_slashes(s@.take(i as int)),
        decreases cs.len() - i,
    {
        let c = cs[i];
        let d = if c == '\\' { '/' } else { c };
        push_char(&mut out, d);
        assert(forward_slashes(s@.take(i + 1)) =~= forward_slashes(s@.take(i as int)).push(d));
        i = i + 1;
    }
    assert(s@.take(cs.len() as int) =~= s@);
    out
}

/// The decimal digits of `n`, most significant first, without leading zeros
/// (`0` is the single digit `0`).
pub open spec fn decimal(n: nat) -> Seq<char>
    decreases n,
{
    if n < 10 {
        seq![digit_char(n)]
    } else {
        decimal(n / 10).push(digit_char(n % 10))
    }
}

/// The ASCII digit for `d` in `0..10`.
pub open spec fn digit_char(d: nat) -> char {
    if d == 0 { '0' }
    else if d == 1 { '1' }
    else if d == 2 { '2' }
    else if d == 3 { '3' }
    else if d == 4 { '4' }
    else if d == 5 { '5' }
    else if d == 6 { '6' }
    else if d == 7 { '7' }
    else if d == 8 { '8' }
    else { '9' }
}

fn exec_digit(d: usize) -> (c: char)
    requires
        d < 10,
    ensures
        c == digit_char(d as nat),
{
    if d == 0 { '0' }
    else if d == 1 { '1' }
    else if d == 2 { '2' }
    else if d == 3 { '3' }
    else if d == 4 { '4' }
    else if d == 5 { '5' }
    else if d == 6 { '6' }
    else if d == 7 { '7' }
    else if d == 8 { '8' }
    else { '9' }
}

/// Append the decimal form of `n` to `out` — what `{}` prints for an
/// unsigned integer.
pub fn push_decimal(out: &mut String, n: usize)
    ensures
        final(out)@ == old(out)@ + decimal(n as nat),
    decreases n,
{
    if n < 10 {
        push_char(out, exec_digit(n));
        assert(old(out)@ + decimal(n as nat) =~= old(out)@.push(digit_char(n as nat)));
    } else {
        push_decimal(out, n / 10);
        push_char(out, exec_digit(n % 10));
        assert(old(out)@ + decimal(n as nat) =~= (old(out)@ + decimal((n / 10) as nat)).push(
            digit_char((n % 10) as nat),
        ));
    }
}

/// The decimal form of `n` as a fresh string.
pub fn decimal_string(n: usize) -> (out: String)
    ensures
        out@ == decimal(n as nat),
{
    let mut out = String::new();
    push_decimal(&mut out, n);
    assert(Seq::<char>::empty() + decimal(n as nat) =~= decimal(n as nat));
    out
}

/// The escape sequence GitHub workflow commands need for `c`, or `c` itself.
pub open spec fn gha_escape_char(c: char) -> Seq<char> {
    if c == '%' {
        seq!['%', '2', '5']
    } else if c == '\r' {
        seq!['%', '0', 'D']
    } else if c == '\n' {
        seq!['%', '0', 'A']
    } else {
        seq![c]
    }
}

/// Escape every character of `s` with [`gha_escape_char`], in order.
pub open spec fn gha_escaped(s: Seq<char>) -> Seq<char>
    decreases s.len(),
{
    if s.len() == 0 {
        seq![]
    } else {
        gha_escaped(s.drop_last()) + gha_escape_char(s.last())
    }
}

/// Percent-encode the characters that are special inside GitHub Actions
/// workflow-command values: `%` → `%25`, carriage return → `%0D`,
/// newline → `%0A`. Every other character passes through.
pub fn gha_escape(s: &str) -> (out: String)
    ensures
        out@ == gha_escaped(s@),
{
    let cs = chars_of(s);
    let mut out = String::new();
    let mut i: usize = 0;
    while i < cs.len()
        invariant
            cs@ == s@,
            i <= cs.len(),
            out@ == gha_escaped(s@.take(i as int)),
        decreases cs.len() - i,
    {
        let c = cs[i];
        if c == '%' {
            push_char(&mut out, '%');
            push_char(&mut out, '2');
            push_char(&mut out, '5');
        } else if c == '\r' {
            push_char(&mut out, '%');
            push_char(&mut out, '0');
            push_char(&mut out, 'D');
        } else if c == '\n' {
            push_char(&mut out, '%');
            push_char(&mut out, '0');
            push_char(&mut out, 'A');
        } else {
            push_char(&mut out, c);
        }
        assert(s@.take(i + 1).drop_last() =~= s@.take(i as int));
        assert(gha_escaped(s@.take(i + 1)) =~= gha_escaped(s@.take(i as int)) + gha_escape_char(c));
        i = i + 1;
    }
    assert(s@.take(cs.len() as int) =~= s@);
    out
}

/// Whether two strings hold the same characters.
pub fn same_text(a: &str, b: &str) -> (r: bool)
    ensures
        r == (a@ == b@),
{
    let ca = chars_of(a);
    let cb = chars_of(b);
    if ca.len() != cb.len() {
        return false;
    }
    let mut i: usize = 0;
    while i < ca.len()
        invariant
            ca@ == a@,
            cb@ == b@,
            ca.len() == cb.len(),
            i <= ca.len(),
            forall|k: int| 0 <= k < i ==> ca@[k] == cb@[k],
        decreases ca.len() - i,
    {
        if ca[i] != cb[i] {
            return false;
        }
        i = i + 1;
    }
    assert(ca@ =~= cb@);
    true
}

/// `pieces` joined with `sep` between consecutive pieces.
pub open spec fn join_with(pieces: Seq<Seq<char>>, sep: Seq<char>) -> Seq<char>
    decreases pieces.len(),
{
    if pieces.len() == 0 {
        seq![]
    } else if pieces.len() == 1 {
        pieces[0]
    } else {
        join_with(pieces.drop_last(), sep) + sep + pieces.last()
    }
}

/// Append `pieces` joined with `sep` to `out`.
pub fn push_joined(out: &mut String, pieces: &Vec<String>, sep: &str)
    ensures
        final(out)@ == old(out)@ + join_with(pieces@.map_values(|p: String| p@), sep@),
{
    let ghost views = pieces@.map_values(|p: String| p@);
    let mut i: usize = 0;
    assert(views.take(0) =~= Seq::<Seq<char>>::empty());
    assert(old(out)@ + join_with(views.take(0), sep@) =~= old(out)@);
    while i < pieces.len()
        invariant
            views == pieces@.map_values(|p: String| p@),
            i <= pieces.len(),
            out@ == old(out)@ + join_with(views.take(i as int), sep@),
        decreases pieces.len() - i,
    {
        assert(views.take(i + 1).drop_last() =~= views.take(i as int));
        assert(views.take(i + 1).last() == pieces@[i as int]@);
        if i > 0 {
            push_str(out, sep);
        } else {
            assert(views.take(1) =~= seq![pieces@[0]@]);
        }
        push_str(out, pieces[i].as_str());
        assert(out@ =~= old(out)@ + join_with(views.take(i + 1), sep@));
        i = i + 1;
    }
    assert(views.take(pieces.len() as int) =~= views);
}

/// Whether `s` contains the character `c`.
pub open spec fn has_char(s: Seq<char>, c: char) -> bool {
    exists|i: int| 0 <= i < s.len() && s[i] == c
}

/// Whether `s` contains `c` twice in a row.
pub open spec fn has_double(s: Seq<char>, c: char) -> bool {
    exists|i: int| 0 <= i && i + 1 < s.len() && #[trigger] s[i] == c && s[i + 1] == c
}

/// Whether `s` contains the character `c`.
pub fn contains_char(s: &str, c: char) -> (r: bool)
    ensures
        r == has_char(s@, c),
{
    let cs = chars_of(s);
    let mut i: usize = 0;
    while i < cs.len()
        invariant
            cs@ == s@,
            i <= cs.len(),
            forall|k: int| 0 <= k < i ==> cs@[k] != c,
        decreases cs.len() - i,
    {
        if cs[i] == c {
            return true;
        }
        i = i + 1;
    }
    false
}

/// Whether `s` contains `c` twice in a row.
pub fn contains_double(s: &str, c: char) -> (r: bool)
    ensures
        r == has_double(s@, c),
{
    let cs = chars_of(s);
    if cs.len() < 2 {
        return false;
    }
    let mut i: usize = 0;
    while i < cs.len() - 1
        invariant
            cs@ == s@,
            cs.len() >= 2,
            i <= cs.len(),
            forall|k: int| 0 <= k < i && k + 1 < cs@.len() ==> !(#[trigger] cs@[k] == c && cs@[k + 1] == c),
        decreases cs.len() - i,
    {
        if cs[i] == c && cs[i + 1] == c {
            return true;
        }
        i = i + 1;
    }
    false
}

/// A string without `%`, carriage return or newline passes through
/// [`gha_escaped`] unchanged.
pub proof fn lemma_gha_escape_plain(s: Seq<char>)
    requires
        forall|i: int| 0 <= i < s.len() ==> #[trigger] s[i] != '%' && s[i] != '\r' && s[i] != '\n',
    ensures
        gha_escaped(s) == s,
    decreases s.len(),
{
    if s.len() > 0 {
        lemma_gha_escape_plain(s.drop_last());
        assert(s.drop_last().push(s.last()) =~= s);
    }
}

/// No escaped string contains a bare carriage return or newline, so a
/// workflow-command value always stays on one line.
pub proof fn lemma_gha_escaped_single_line(s: Seq<char>)
    ensures
        forall|i: int| 0 <= i < gha_escaped(s).len() ==> #[trigger] gha_escaped(s)[i] != '\r' && gha_escaped(s)[i] != '\n',
    decreases s.len(),
{
    if s.len() > 0 {
        lemma_gha_escaped_single_line(s.drop_last());
        let a = gha_escaped(s.drop_last());
        let b = gha_escape_char(s.last());
        assert(gha_escaped(s) == a + b);
        assert forall|i: int| 0 <= i < (a + b).len() implies #[trigger] (a + b)[i] != '\r' && (a + b)[i] != '\n' by {
            if i >= a.len() {
                assert((a + b)[i] == b[i - a.len()]);
            } else {
                assert((a + b)[i] == a[i]);
            }
        }
    }
}

/// Normalizing separators twice is the same as normalizing once: a path
/// key is stable under re-normalization.
pub proof fn lemma_forward_slashes_idempotent(s: Seq<char>)
    ensures
        forward_slashes(forward_slashes(s)) == forward_slashes(s),
        forall|i: int| 0 <= i < forward_slashes(s).len() ==> #[trigger] forward_slashes(s)[i] != '\\',
{
    assert(forward_slashes(forward_slashes(s)) =~= forward_slashes(s));
}

} // verus!
