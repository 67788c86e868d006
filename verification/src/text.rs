//! Character-level text helpers with their mathematical meaning.
//!
//! Strings are modelled by their view, a `Seq<char>`. Each executable helper
//! here states its result in terms of the spec functions of this module.
use vstd::prelude::*;

verus! {

// ---------------------------------------------------------------------------
// Specifications
// ---------------------------------------------------------------------------

/// `p` is a prefix of `s`.
pub open spec fn starts_with(s: Seq<char>, p: Seq<char>) -> bool {
    p.len() <= s.len() && s.subrange(0, p.len() as int) == p
}

/// `p` is a suffix of `s`.
pub open spec fn ends_with(s: Seq<char>, p: Seq<char>) -> bool {
    p.len() <= s.len() && s.subrange(s.len() - p.len(), s.len() as int) == p
}

/// `p` occurs in `s` starting at position `i`.
pub open spec fn occurs_at(s: Seq<char>, p: Seq<char>, i: int) -> bool {
    0 <= i && i + p.len() <= s.len() && s.subrange(i, i + p.len()) == p
}

/// `p` occurs somewhere in `s` (the empty pattern occurs everywhere).
pub open spec fn contains(s: Seq<char>, p: Seq<char>) -> bool {
    exists|i: int| occurs_at(s, p, i)
}

/// The pieces of `s` between occurrences of `sep`, as `str::split(char)`
/// yields them: always at least one piece, possibly empty.
pub open spec fn split_by(s: Seq<char>, sep: char) -> Seq<Seq<char>>
    decreases s.len(),
{
    if s.len() == 0 {
        seq![Seq::<char>::empty()]
    } else {
        let r = split_by(s.drop_last(), sep);
        if s.last() == sep {
            r.push(Seq::<char>::empty())
        } else {
            r.update(r.len() - 1, r.last().push(s.last()))
        }
    }
}

/// Removes one trailing carriage return, if any.
pub open spec fn strip_cr(s: Seq<char>) -> Seq<char> {
    if s.len() > 0 && s.last() == '\r' {
        s.drop_last()
    } else {
        s
    }
}

/// The lines of `s` as `str::lines` yields them: pieces between `'\n'`,
/// a `'\r'` before each `'\n'` removed, and no final empty piece.
pub open spec fn lines_of(s: Seq<char>) -> Seq<Seq<char>> {
    let parts = split_by(s, '\n');
    let ended = parts.drop_last().map_values(|p: Seq<char>| strip_cr(p));
    if parts.last().len() == 0 {
        ended
    } else {
        ended.push(parts.last())
    }
}

/// Unicode `White_Space`, the set that `char::is_whitespace` tests.
pub open spec fn is_ws(c: char) -> bool {
    ||| c == ' '
    ||| ('\t' <= c && c <= '\r')
    ||| c == '\u{85}'
    ||| c == '\u{a0}'
    ||| c == '\u{1680}'
    ||| ('\u{2000}' <= c && c <= '\u{200a}')
    ||| c == '\u{2028}'
    ||| c == '\u{2029}'
    ||| c == '\u{202f}'
    ||| c == '\u{205f}'
    ||| c == '\u{3000}'
}

/// Drops leading whitespace.
pub open spec fn trim_start(s: Seq<char>) -> Seq<char>
    decreases s.len(),
{
    if s.len() > 0 && is_ws(s[0]) {
        trim_start(s.drop_first())
    } else {
        s
    }
}

/// Drops trailing whitespace.
pub open spec fn trim_end(s: Seq<char>) -> Seq<char>
    decreases s.len(),
{
    if s.len() > 0 && is_ws(s.last()) {
        trim_end(s.drop_last())
    } else {
        s
    }
}

/// `str::trim`: whitespace removed at both ends.
pub open spec fn trim(s: Seq<char>) -> Seq<char> {
    trim_end(trim_start(s))
}

/// `str::replace`: every non-overlapping occurrence of `from`, scanned
/// from the left, replaced by `to`. `from` must be non-empty.
pub open spec fn replace_all(s: Seq<char>, from: Seq<char>, to: Seq<char>) -> Seq<char>
    recommends
        from.len() > 0,
    decreases s.len(),
{
    if from.len() == 0 || s.len() < from.len() {
        s
    } else if starts_with(s, from) {
        to + replace_all(s.skip(from.len() as int), from, to)
    } else {
        seq![s[0]] + replace_all(s.drop_first(), from, to)
    }
}

/// The ASCII digit of `d < 10`.
pub open spec fn digit_char(d: nat) -> char {
    if d == 0 { '0' }
    else if d == 1 { '1' }
    else if d == 2 { '2' }
    else if d == 3 { '3' }
    else if d == 4 { '4' }
    else if d == 5 { '5' }
    else if d == 6 { '6' }
    else if d == 7 { '7' }
    else if d == 8 { '8' }
    else { '9' }
}

/// Decimal rendering of a natural number, as `Display` writes it.
pub open spec fn decimal(n: nat) -> Seq<char>
    decreases n,
{
    if n < 10 {
        seq![digit_char(n)]
    } else {
        decimal(n / 10).push(digit_char(n % 10))
    }
}

/// Decimal rendering left-padded with zeros to at least `width` characters.
pub open spec fn zero_padded(n: nat, width: nat) -> Seq<char> {
    let d = decimal(n);
    if d.len() >= width {
        d
    } else {
        Seq::new((width - d.len()) as nat, |i: int| '0') + d
    }
}

/// Concatenation of `parts` with `sep` between neighbours.
pub open spec fn join(parts: Seq<Seq<char>>, sep: Seq<char>) -> Seq<char>
    decreases parts.len(),
{
    if parts.len() == 0 {
        Seq::<char>::empty()
    } else if parts.len() == 1 {
        parts[0]
    } else {
        join(parts.drop_last(), sep) + sep + parts.last()
    }
}

// ---------------------------------------------------------------------------
// Lemmas
// ---------------------------------------------------------------------------

/// Splitting never yields an empty list of pieces.
pub proof fn lemma_split_nonempty(s: Seq<char>, sep: char)
    ensures
        split_by(s, sep).len() >= 1,
    decreases s.len(),
{
    if s.len() > 0 {
        lemma_split_nonempty(s.drop_last(), sep);
    }
}

proof fn lemma_decimal_nonempty(n: nat)
    ensures
        decimal(n).len() >= 1,
    decreases n,
{
    if n >= 10 {
        lemma_decimal_nonempty(n / 10);
    }
}

// ---------------------------------------------------------------------------
// Trusted std string operations that vstd leaves unspecified
// ---------------------------------------------------------------------------

/// `String::push` of std. Trusted: the string afterwards is the old one
/// with `c` appended, as std documents.
#[verifier::external_body]
pub(crate) fn push_char(s: &mut String, c: char)
    ensures
        final(s)@ == old(s)@.push(c),
{
    s.push(c);
}

/// The text `String::from_utf8_lossy` makes of `bytes`: the bytes decoded
/// as UTF-8, each invalid sequence replaced by U+FFFD.
pub uninterp spec fn lossy_utf8(bytes: Seq<u8>) -> Seq<char>;

/// `String::from_utf8_lossy` of std, as an owned string. Trusted: the result
/// is what `lossy_utf8` names for `bytes`, and for valid UTF-8 it is the
/// decoded text, as std documents.
#[verifier::external_body]
pub(crate) fn utf8_lossy(bytes: &[u8]) -> (s: String)
    ensures
        s@ == lossy_utf8(bytes@),
        vstd::utf8::valid_utf8(bytes@) ==> s@ == vstd::utf8::decode_utf8(bytes@),
{
    String::from_utf8_lossy(bytes).into_owned()
}

// ---------------------------------------------------------------------------
// Executable helpers
// ---------------------------------------------------------------------------

/// The characters of `s` in a vector.
pub fn chars_of(s: &str) -> (v: Vec<char>)
    ensures
        v@ == s@,
{
    let n = s.unicode_len();
    let mut v: Vec<char> = Vec::new();
    let mut i: usize = 0;
    while i < n
        invariant
            n == s@.len(),
            i <= n,
            v@ == s@.subrange(0, i as int),
        decreases n - i,
    {
        v.push(s.get_char(i));
        i = i + 1;
    }
    assert(v@ == s@);
    v
}

/// A string holding exactly the characters of `v[lo..hi]`.
pub fn string_from_chars(v: &Vec<char>, lo: usize, hi: usize) -> (s: String)
    requires
        lo <= hi <= v.len(),
    ensures
        s@ == v@.subrange(lo as int, hi as int),
{
    let mut s = String::new();
    let mut i = lo;
    while i < hi
        invariant
            lo <= i <= hi <= v.len(),
            s@ == v@.subrange(lo as int, i as int),
        decreases hi - i,
    {
        push_char(&mut s, v[i]);
        i = i + 1;
    }
    s
}

/// A fresh copy of `s`.
pub fn string_of(s: &str) -> (r: String)
    ensures
        r@ == s@,
{
    s.to_owned()
}

/// Appends `t` to `s`.
pub fn push_str(s: &mut String, t: &str)
    ensures
        final(s)@ == old(s)@ + t@,
{
    s.append(t);
}

/// Compares two strings character by character.
pub fn str_eq(a: &str, b: &str) -> (r: bool)
    ensures
        r == (a@ == b@),
{
    let n = a.unicode_len();
    let m = b.unicode_len();
    if n != m {
        return false;
    }
    let mut i: usize = 0;
    while i < n
        invariant
            n == a@.len(),
            m == b@.len(),
            n == m,
            i <= n,
            a@.subrange(0, i as int) == b@.subrange(0, i as int),
        decreases n - i,
    {
        if a.get_char(i) != b.get_char(i) {
            return false;
        }
        assert(a@.subrange(0, i + 1) == a@.subrange(0, i as int).push(a@[i as int]));
        assert(b@.subrange(0, i + 1) == b@.subrange(0, i as int).push(b@[i as int]));
        i = i + 1;
    }
    assert(a@ == a@.subrange(0, n as int));
    assert(b@ == b@.subrange(0, n as int));
    true
}

/// Whether `p` occurs in `s` at position `i`, over character vectors.
pub fn occurs_at_chars(s: &Vec<char>, p: &Vec<char>, i: usize) -> (r: bool)
    ensures
        r == occurs_at(s@, p@, i as int),
{
    if i > s.len() || p.len() > s.len() - i {
        return false;
    }
    let mut k: usize = 0;
    while k < p.len()
        invariant
            i + p.len() <= s.len(),
            k <= p.len(),
            forall|j: int| 0 <= j < k ==> s@[i + j] == p@[j],
        decreases p.len() - k,
    {
        if s[i + k] != p[k] {
            assert(s@.subrange(i as int, i + p.len())[k as int] != p@[k as int]);
            return false;
        }
        k = k + 1;
    }
    assert(s@.subrange(i as int, i + p.len()) == p@);
    true
}

/// Whether `p` occurs in `s`, over character vectors.
pub fn contains_chars(s: &Vec<char>, p: &Vec<char>) -> (r: bool)
    ensures
        r == contains(s@, p@),
{
    if p.len() > s.len() {
        assert forall|i: int| !occurs_at(s@, p@, i) by {}
        return false;
    }
    let bound = s.len() - p.len();
    let mut i: usize = 0;
    while i < bound
        invariant
            p.len() <= s.len(),
            bound == s.len() - p.len(),
            i <= bound,
            forall|j: int| 0 <= j < i ==> !occurs_at(s@, p@, j),
        decreases bound - i,
    {
        if occurs_at_chars(s, p, i) {
            return true;
        }
        i = i + 1;
    }
    if occurs_at_chars(s, p, bound) {
        return true;
    }
    assert forall|j: int| !occurs_at(s@, p@, j) by {
        if 0 <= j && j < i {
        }
    }
    false
}

/// `str::contains` with a string pattern.
pub fn str_contains(s: &str, p: &str) -> (r: bool)
    ensures
        r == contains(s@, p@),
{
    let sv = chars_of(s);
    let pv = chars_of(p);
    contains_chars(&sv, &pv)
}

/// `str::starts_with` with a string pattern.
pub fn str_starts_with(s: &str, p: &str) -> (r: bool)
    ensures
        r == starts_with(s@, p@),
{
    let sv = chars_of(s);
    let pv = chars_of(p);
    let r = occurs_at_chars(&sv, &pv, 0);
    r
}

/// `str::split(sep)`, every piece as an owned string.
pub fn split_chars(s: &str, sep: char) -> (parts: Vec<String>)
    ensures
        parts@.map_values(|p: String| p@) == split_by(s@, sep),
{
    let v = chars_of(s);
    let mut parts: Vec<String> = Vec::new();
    let mut cur = String::new();
    let mut i: usize = 0;
    while i < v.len()
        invariant
            v@ == s@,
            i <= v.len(),
            parts@.map_values(|p: String| p@).push(cur@) == split_by(s@.subrange(0, i as int), sep),
        decreases v.len() - i,
    {
        let c = v[i];
        let ghost prev = s@.subrange(0, i as int);
        assert(s@.subrange(0, i + 1).drop_last() == prev);
        assert(s@.subrange(0, i + 1).last() == c);
        if c == sep {
            parts.push(cur);
            cur = String::new();
            assert(parts@.map_values(|p: String| p@) == parts@.drop_last().map_values(|p: String| p@).push(parts@.last()@));
        } else {
            push_char(&mut cur, c);
        }
        assert(parts@.map_values(|p: String| p@).push(cur@) =~= split_by(s@.subrange(0, i + 1), sep));
        i = i + 1;
    }
    assert(s@.subrange(0, v.len() as int) == s@);
    parts.push(cur);
    assert(parts@.map_values(|p: String| p@) =~= split_by(s@, sep));
    parts
}

/// `str::trim`, as an owned string.
pub fn trim_string(s: &str) -> (r: String)
    ensures
        r@ == trim(s@),
{
    let v = chars_of(s);
    let mut lo: usize = 0;
    assert(s@.subrange(0, s@.len() as int) == s@);
    while lo < v.len() && is_ws_exec(v[lo])
        invariant
            v@ == s@,
            lo <= v.len(),
            trim_start(s@) == trim_start(s@.subrange(lo as int, s@.len() as int)),
        decreases v.len() - lo,
    {
        assert(s@.subrange(lo as int, s@.len() as int).drop_first() == s@.subrange(lo + 1, s@.len() as int));
        lo = lo + 1;
    }
    let ghost t = s@.subrange(lo as int, s@.len() as int);
    assert(trim_start(t) == t);
    let mut hi: usize = v.len();
    while hi > lo && is_ws_exec(v[hi - 1])
        invariant
            v@ == s@,
            lo <= hi <= v.len(),
            trim_end(t) == trim_end(s@.subrange(lo as int, hi as int)),
        decreases hi - lo,
    {
        assert(s@.subrange(lo as int, hi as int).drop_last() == s@.subrange(lo as int, hi - 1));
        hi = hi - 1;
    }
    assert(trim_end(s@.subrange(lo as int, hi as int)) == s@.subrange(lo as int, hi as int));
    string_from_chars(&v, lo, hi)
}

/// `char::is_whitespace`.
pub fn is_ws_exec(c: char) -> (r: bool)
    ensures
        r == is_ws(c),
{
    c == ' ' || ('\t' <= c && c <= '\r') || c == '\u{85}' || c == '\u{a0}' || c == '\u{1680}'
        || ('\u{2000}' <= c && c <= '\u{200a}') || c == '\u{2028}' || c == '\u{2029}'
        || c == '\u{202f}' || c == '\u{205f}' || c == '\u{3000}'
}

/// `str::lines`, every line as an owned string.
pub fn lines_string(s: &str) -> (r: Vec<String>)
    ensures
        r@.map_values(|p: String| p@) == lines_of(s@),
{
    let parts = split_chars(s, '\n');
    proof {
        lemma_split_nonempty(s@, '\n');
    }
    let n = parts.len();
    let mut r: Vec<String> = Vec::new();
    let mut i: usize = 0;
    let ghost pv = parts@.map_values(|p: String| p@);
    while i + 1 < n
        invariant
            n == parts.len(),
            n >= 1,
            pv == parts@.map_values(|p: String| p@),
            pv == split_by(s@, '\n'),
            i + 1 <= n,
            r.len() == i,
            forall|k: int| 0 <= k < i ==> #[trigger] r@[k]@ == strip_cr(pv[k]),
        decreases n - i,
    {
        let line = strip_cr_string(&parts[i]);
        r.push(line);
        i = i + 1;
    }
    let last = &parts[n - 1];
    if last.unicode_len() != 0 {
        r.push(last.clone());
    }
    assert(r@.map_values(|p: String| p@) =~= lines_of(s@));
    r
}

/// `strip_cr` on an owned string.
pub fn strip_cr_string(s: &String) -> (r: String)
    ensures
        r@ == strip_cr(s@),
{
    let v = chars_of(s.as_str());
    if v.len() > 0 && v[v.len() - 1] == '\r' {
        string_from_chars(&v, 0, v.len() - 1)
    } else {
        string_from_chars(&v, 0, v.len())
    }
}

/// `str::replace` with a non-empty pattern.
pub fn replace_string(s: &str, from: &str, to: &str) -> (r: String)
    requires
        from@.len() > 0,
    ensures
        r@ == replace_all(s@, from@, to@),
{
    let v = chars_of(s);
    let f = chars_of(from);
    let mut out = String::new();
    let mut i: usize = 0;
    assert(s@.skip(0) == s@);
    assert(out@ + replace_all(s@, from@, to@) =~= replace_all(s@, from@, to@));
    while i < v.len()
        invariant
            v@ == s@,
            f@ == from@,
            f.len() > 0,
            i <= v.len(),
            replace_all(s@, from@, to@) == out@ + replace_all(s@.skip(i as int), from@, to@),
        decreases v.len() - i,
    {
        let ghost rest = s@.skip(i as int);
        if occurs_at_chars(&v, &f, i) {
            assert(rest.subrange(0, from@.len() as int) == s@.subrange(i as int, i + from@.len()));
            assert(starts_with(rest, from@));
            assert(rest.skip(from@.len() as int) == s@.skip(i + f.len()));
            push_str(&mut out, to);
            i = i + f.len();
        } else {
            proof {
                if rest.len() >= from@.len() {
                    assert(rest.subrange(0, from@.len() as int) == s@.subrange(i as int, i + from@.len()));
                }
            }
            assert(rest.drop_first() == s@.skip(i + 1));
            assert(rest[0] == v@[i as int]);
            push_char(&mut out, v[i]);
            i = i + 1;
        }
        assert(out@ + replace_all(s@.skip(i as int), from@, to@) == replace_all(s@, from@, to@));
    }
    assert(s@.skip(i as int).len() == 0);
    assert(out@ + s@.skip(i as int) =~= out@);
    out
}

/// Appends the decimal rendering of `n` to `out`.
pub fn push_decimal(out: &mut String, n: u64)
    ensures
        final(out)@ == old(out)@ + decimal(n as nat),
    decreases n,
{
    if n >= 10 {
        push_decimal(out, n / 10);
    }
    let d = n % 10;
    let c = if d == 0 { '0' }
        else if d == 1 { '1' }
        else if d == 2 { '2' }
        else if d == 3 { '3' }
        else if d == 4 { '4' }
        else if d == 5 { '5' }
        else if d == 6 { '6' }
        else if d == 7 { '7' }
        else if d == 8 { '8' }
        else { '9' };
    push_char(out, c);
    assert(out@ =~= old(out)@ + decimal(n as nat));
}

/// Appends `n` in decimal, left-padded with zeros to `width` characters.
pub fn push_zero_padded(out: &mut String, n: u64, width: usize)
    ensures
        final(out)@ == old(out)@ + zero_padded(n as nat, width as nat),
{
    let mut digits = String::new();
    push_decimal(&mut digits, n);
    let len = digits.unicode_len();
    assert(digits@ =~= decimal(n as nat));
    if len < width {
        let mut k: usize = 0;
        while k < width - len
            invariant
                len < width,
                k <= width - len,
                out@ == old(out)@ + Seq::new(k as nat, |i: int| '0'),
            decreases width - len - k,
        {
            push_char(out, '0');
            k = k + 1;
            assert(out@ =~= old(out)@ + Seq::new(k as nat, |i: int| '0'));
        }
    }
    push_str(out, digits.as_str());
    assert(out@ =~= old(out)@ + zero_padded(n as nat, width as nat));
}

/// The decimal rendering of `n`.
pub fn decimal_string(n: u64) -> (s: String)
    ensures
        s@ == decimal(n as nat),
{
    let mut s = String::new();
    push_decimal(&mut s, n);
    assert(s@ =~= decimal(n as nat));
    s
}

/// Joins `parts` with `sep` between neighbours.
pub fn join_strings(parts: &Vec<String>, sep: &str) -> (r: String)
    ensures
        r@ == join(parts@.map_values(|p: String| p@), sep@),
{
    let mut r = String::new();
    let mut i: usize = 0;
    let ghost pv = parts@.map_values(|p: String| p@);
    while i < parts.len()
        invariant
            i <= parts.len(),
            pv == parts@.map_values(|p: String| p@),
            r@ == join(pv.subrange(0, i as int), sep@),
        decreases parts.len() - i,
    {
        if i > 0 {
            push_str(&mut r, sep);
        }
        push_str(&mut r, parts[i].as_str());
        assert(pv.subrange(0, i + 1).drop_last() == pv.subrange(0, i as int));
        i = i + 1;
    }
    assert(pv.subrange(0, i as int) == pv);
    r
}

} // verus!
