//! Content-addressed cache keys for hook commands, and the names and ages the
//! cache store shows.
//!
//! A key is the lower-case hex SHA-256 of a byte stream framed from the
//! command's script, its extra key strings and its input files.
use vstd::prelude::*;
use sha2::{Digest, Sha256};
use vstd::utf8::encode_utf8;
use crate::text::{decimal, push_char, push_decimal, push_str};

verus! {

/// The SHA-256 digest of `data`, as the `sha2` crate computes it.
pub uninterp spec fn sha256(data: Seq<u8>) -> Seq<u8>;

/// `Sha256::digest` of the `sha2` crate. Trusted: the result is the digest
/// of `data`, and it is 32 bytes long (the output size `U32` of `Sha256`).
#[verifier::external_body]
fn sha256_digest(data: &[u8]) -> (d: Vec<u8>)
    ensures
        d@ == sha256(data@),
        d@.len() == 32,
{
    Sha256::digest(data).to_vec()
}

/// The lower-case hex digit of `n` (below 16).
pub open spec fn hex_digit(n: nat) -> char {
    if n < 10 {
        ((n + 48) as u8) as char
    } else {
        ((n + 87) as u8) as char
    }
}

/// Each byte as two lower-case hex digits, as `{:x}` prints a digest.
pub open spec fn lower_hex(bytes: Seq<u8>) -> Seq<char>
    decreases bytes.len(),
{
    if bytes.len() == 0 {
        Seq::empty()
    } else {
        lower_hex(bytes.drop_last()) + seq![
            hex_digit((bytes.last() / 16) as nat),
            hex_digit((bytes.last() % 16) as nat),
        ]
    }
}

/// `c` is an ASCII hex digit.
pub open spec fn is_hex_digit(c: char) -> bool {
    ('0' <= c && c <= '9') || ('a' <= c && c <= 'f') || ('A' <= c && c <= 'F')
}

proof fn lemma_lower_hex(bytes: Seq<u8>)
    ensures
        lower_hex(bytes).len() == 2 * bytes.len(),
        forall|i: int| 0 <= i < lower_hex(bytes).len() ==> is_hex_digit(#[trigger] lower_hex(bytes)[i]),
    decreases bytes.len(),
{
    if bytes.len() > 0 {
        lemma_lower_hex(bytes.drop_last());
        let hi = (bytes.last() / 16) as nat;
        let lo = (bytes.last() % 16) as nat;
        assert(is_hex_digit(hex_digit(hi)));
        assert(is_hex_digit(hex_digit(lo)));
    }
}

fn hex_char(n: u8) -> (c: char)
    requires
        n < 16,
    ensures
        c == hex_digit(n as nat),
{
    if n < 10 {
        (n + 48) as char
    } else {
        (n + 87) as char
    }
}

/// `bytes` in lower-case hex.
pub fn lower_hex_string(bytes: &[u8]) -> (s: String)
    ensures
        s@ == lower_hex(bytes@),
{
    let mut s = String::new();
    let mut i: usize = 0;
    while i < bytes.len()
        invariant
            i <= bytes.len(),
            s@ == lower_hex(bytes@.take(i as int)),
        decreases bytes.len() - i,
    {
        let b = bytes[i];
        push_char(&mut s, hex_char(b / 16));
        push_char(&mut s, hex_char(b % 16));
        assert(bytes@.take(i + 1).drop_last() =~= bytes@.take(i as int));
        assert(s@ =~= lower_hex(bytes@.take(i + 1)));
        i = i + 1;
    }
    assert(bytes@.take(i as int) =~= bytes@);
    s
}

/// The bytes of the extra key strings, each after a `\0key\0` separator.
pub open spec fn keys_material(keys: Seq<Seq<char>>) -> Seq<u8>
    decreases keys.len(),
{
    if keys.len() == 0 {
        Seq::empty()
    } else {
        keys_material(keys.drop_last()) + seq![0u8, 107u8, 101u8, 121u8, 0u8] + encode_utf8(keys.last())
    }
}

/// The input files, each as `\0file\0`, its path, `\0`, and its content.
pub open spec fn files_material(files: Seq<(Seq<char>, Seq<u8>)>) -> Seq<u8>
    decreases files.len(),
{
    if files.len() == 0 {
        Seq::empty()
    } else {
        files_material(files.drop_last()) + seq![0u8, 102u8, 105u8, 108u8, 101u8, 0u8]
            + encode_utf8(files.last().0) + seq![0u8] + files.last().1
    }
}

/// The byte stream a cache key hashes: the script, then the extra keys, then
/// the input files.
pub open spec fn key_material(run: Seq<char>, keys: Seq<Seq<char>>, files: Seq<(Seq<char>, Seq<u8>)>) -> Seq<u8> {
    encode_utf8(run) + keys_material(keys) + files_material(files)
}

/// Different text has different UTF-8 bytes.
proof fn lemma_encode_injective(a: Seq<char>, b: Seq<char>)
    requires
        a != b,
    ensures
        encode_utf8(a) != encode_utf8(b),
{
    vstd::utf8::encode_utf8_decode_utf8(a);
    vstd::utf8::encode_utf8_decode_utf8(b);
}

/// Changing only a middle part changes the whole.
proof fn lemma_middle_differs(p: Seq<u8>, x: Seq<u8>, y: Seq<u8>, s: Seq<u8>)
    requires
        x != y,
    ensures
        p + x + s != p + y + s,
{
    if x.len() == y.len() && p + x + s == p + y + s {
        assert((p + x + s).subrange(p.len() as int, (p.len() + x.len()) as int) =~= x);
        assert((p + y + s).subrange(p.len() as int, (p.len() + y.len()) as int) =~= y);
    }
    if x.len() != y.len() {
        assert((p + x + s).len() != (p + y + s).len());
    }
}

proof fn lemma_keys_material_split(a: Seq<Seq<char>>, b: Seq<Seq<char>>)
    ensures
        keys_material(a + b) == keys_material(a) + keys_material(b),
    decreases b.len(),
{
    if b.len() == 0 {
        assert(a + b =~= a);
        assert(keys_material(a) + keys_material(b) =~= keys_material(a));
    } else {
        lemma_keys_material_split(a, b.drop_last());
        assert((a + b).drop_last() =~= a + b.drop_last());
        assert((a + b).last() == b.last());
        assert(keys_material(a + b) =~= keys_material(a) + keys_material(b));
    }
}

proof fn lemma_files_material_split(a: Seq<(Seq<char>, Seq<u8>)>, b: Seq<(Seq<char>, Seq<u8>)>)
    ensures
        files_material(a + b) == files_material(a) + files_material(b),
    decreases b.len(),
{
    if b.len() == 0 {
        assert(a + b =~= a);
        assert(files_material(a) + files_material(b) =~= files_material(a));
    } else {
        lemma_files_material_split(a, b.drop_last());
        assert((a + b).drop_last() =~= a + b.drop_last());
        assert((a + b).last() == b.last());
        assert(files_material(a + b) =~= files_material(a) + files_material(b));
    }
}

/// The hashed bytes change when only the command's script changes.
pub proof fn law_key_material_tracks_run(
    run1: Seq<char>,
    run2: Seq<char>,
    keys: Seq<Seq<char>>,
    files: Seq<(Seq<char>, Seq<u8>)>,
)
    requires
        run1 != run2,
    ensures
        key_material(run1, keys, files) != key_material(run2, keys, files),
{
    lemma_encode_injective(run1, run2);
    let t = keys_material(keys) + files_material(files);
    lemma_middle_differs(Seq::empty(), encode_utf8(run1), encode_utf8(run2), t);
    assert(key_material(run1, keys, files) =~= Seq::<u8>::empty() + encode_utf8(run1) + t);
    assert(key_material(run2, keys, files) =~= Seq::<u8>::empty() + encode_utf8(run2) + t);
}

proof fn lemma_keys_material_one(k: Seq<char>)
    ensures
        keys_material(seq![k]) == seq![0u8, 107u8, 101u8, 121u8, 0u8] + encode_utf8(k),
{
    assert(seq![k].drop_last() =~= Seq::<Seq<char>>::empty());
    assert(seq![k].last() == k);
    assert(keys_material(Seq::<Seq<char>>::empty()) == Seq::<u8>::empty());
    assert(Seq::<u8>::empty() + seq![0u8, 107u8, 101u8, 121u8, 0u8] + encode_utf8(k)
        =~= seq![0u8, 107u8, 101u8, 121u8, 0u8] + encode_utf8(k));
}

proof fn lemma_files_material_one(f: (Seq<char>, Seq<u8>))
    ensures
        files_material(seq![f]) == seq![0u8, 102u8, 105u8, 108u8, 101u8, 0u8] + encode_utf8(f.0) + seq![0u8] + f.1,
{
    assert(seq![f].drop_last() =~= Seq::<(Seq<char>, Seq<u8>)>::empty());
    assert(seq![f].last() == f);
    assert(files_material(Seq::<(Seq<char>, Seq<u8>)>::empty()) == Seq::<u8>::empty());
    assert(Seq::<u8>::empty() + seq![0u8, 102u8, 105u8, 108u8, 101u8, 0u8] + encode_utf8(f.0) + seq![0u8] + f.1
        =~= seq![0u8, 102u8, 105u8, 108u8, 101u8, 0u8] + encode_utf8(f.0) + seq![0u8] + f.1);
}

/// The hashed bytes around the `i`-th extra key.
proof fn lemma_key_material_at_key(run: Seq<char>, keys: Seq<Seq<char>>, i: int, files: Seq<(Seq<char>, Seq<u8>)>)
    requires
        0 <= i < keys.len(),
    ensures
        key_material(run, keys, files) == (encode_utf8(run) + keys_material(keys.take(i)) + seq![
            0u8,
            107u8,
            101u8,
            121u8,
            0u8,
        ]) + encode_utf8(keys[i]) + (keys_material(keys.skip(i + 1)) + files_material(files)),
{
    assert(keys =~= keys.take(i) + seq![keys[i]] + keys.skip(i + 1));
    lemma_keys_material_split(keys.take(i) + seq![keys[i]], keys.skip(i + 1));
    lemma_keys_material_split(keys.take(i), seq![keys[i]]);
    lemma_keys_material_one(keys[i]);
    assert(key_material(run, keys, files) =~= (encode_utf8(run) + keys_material(keys.take(i)) + seq![
        0u8,
        107u8,
        101u8,
        121u8,
        0u8,
    ]) + encode_utf8(keys[i]) + (keys_material(keys.skip(i + 1)) + files_material(files)));
}

/// The hashed bytes around the content of the `i`-th input file.
proof fn lemma_key_material_at_file(run: Seq<char>, keys: Seq<Seq<char>>, files: Seq<(Seq<char>, Seq<u8>)>, i: int)
    requires
        0 <= i < files.len(),
    ensures
        key_material(run, keys, files) == (encode_utf8(run) + keys_material(keys) + files_material(files.take(i))
            + seq![0u8, 102u8, 105u8, 108u8, 101u8, 0u8] + encode_utf8(files[i].0) + seq![0u8]) + files[i].1
            + files_material(files.skip(i + 1)),
{
    assert(files =~= files.take(i) + seq![files[i]] + files.skip(i + 1));
    lemma_files_material_split(files.take(i) + seq![files[i]], files.skip(i + 1));
    lemma_files_material_split(files.take(i), seq![files[i]]);
    lemma_files_material_one(files[i]);
    assert(key_material(run, keys, files) =~= (encode_utf8(run) + keys_material(keys) + files_material(files.take(i))
        + seq![0u8, 102u8, 105u8, 108u8, 101u8, 0u8] + encode_utf8(files[i].0) + seq![0u8]) + files[i].1
        + files_material(files.skip(i + 1)));
}

/// The hashed bytes change when only one extra key string changes.
pub proof fn law_key_material_tracks_each_key(
    run: Seq<char>,
    keys: Seq<Seq<char>>,
    i: int,
    k: Seq<char>,
    files: Seq<(Seq<char>, Seq<u8>)>,
)
    requires
        0 <= i < keys.len(),
        keys[i] != k,
    ensures
        key_material(run, keys, files) != key_material(run, keys.update(i, k), files),
{
    let keys2 = keys.update(i, k);
    lemma_encode_injective(keys[i], k);
    lemma_key_material_at_key(run, keys, i, files);
    lemma_key_material_at_key(run, keys2, i, files);
    assert(keys2.take(i) =~= keys.take(i));
    assert(keys2.skip(i + 1) =~= keys.skip(i + 1));
    lemma_middle_differs(
        encode_utf8(run) + keys_material(keys.take(i)) + seq![0u8, 107u8, 101u8, 121u8, 0u8],
        encode_utf8(keys[i]),
        encode_utf8(k),
        keys_material(keys.skip(i + 1)) + files_material(files),
    );
}

/// The hashed bytes change when only the content of one input file changes.
pub proof fn law_key_material_tracks_each_file(
    run: Seq<char>,
    keys: Seq<Seq<char>>,
    files: Seq<(Seq<char>, Seq<u8>)>,
    i: int,
    content: Seq<u8>,
)
    requires
        0 <= i < files.len(),
        files[i].1 != content,
    ensures
        key_material(run, keys, files) != key_material(run, keys, files.update(i, (files[i].0, content))),
{
    let files2 = files.update(i, (files[i].0, content));
    lemma_key_material_at_file(run, keys, files, i);
    lemma_key_material_at_file(run, keys, files2, i);
    assert(files2.take(i) =~= files.take(i));
    assert(files2.skip(i + 1) =~= files.skip(i + 1));
    lemma_middle_differs(
        encode_utf8(run) + keys_material(keys) + files_material(files.take(i)) + seq![
            0u8,
            102u8,
            105u8,
            108u8,
            101u8,
            0u8,
        ] + encode_utf8(files[i].0) + seq![0u8],
        files[i].1,
        content,
        files_material(files.skip(i + 1)),
    );
}

/// An input file as plain values: its path and its content.
pub open spec fn file_view(f: (String, Vec<u8>)) -> (Seq<char>, Seq<u8>) {
    (f.0@, f.1@)
}

fn append_bytes(out: &mut Vec<u8>, b: &[u8])
    ensures
        final(out)@ == old(out)@ + b@,
{
    let mut i: usize = 0;
    while i < b.len()
        invariant
            i <= b.len(),
            out@ == old(out)@ + b@.take(i as int),
        decreases b.len() - i,
    {
        out.push(b[i]);
        assert(b@.take(i + 1) =~= b@.take(i as int).push(b@[i as int]));
        assert(out@ =~= old(out)@ + b@.take(i + 1));
        i = i + 1;
    }
    assert(b@.take(i as int) =~= b@);
}

/// The framed byte stream of [`key_material`].
pub fn key_bytes(run: &str, extra_keys: &[String], input_files: &[(String, Vec<u8>)]) -> (b: Vec<u8>)
    ensures
        b@ == key_material(
            run@,
            extra_keys@.map_values(|k: String| k@),
            input_files@.map_values(|f: (String, Vec<u8>)| file_view(f)),
        ),
{
    let ghost keys = extra_keys@.map_values(|k: String| k@);
    let ghost files = input_files@.map_values(|f: (String, Vec<u8>)| file_view(f));
    let mut out: Vec<u8> = Vec::new();
    append_bytes(&mut out, run.as_bytes());
    let ghost head = out@;
    let mut i: usize = 0;
    while i < extra_keys.len()
        invariant
            keys == extra_keys@.map_values(|k: String| k@),
            head == encode_utf8(run@),
            i <= extra_keys.len(),
            out@ == head + keys_material(keys.take(i as int)),
        decreases extra_keys.len() - i,
    {
        append_bytes(&mut out, &[0u8, 107u8, 101u8, 121u8, 0u8]);
        append_bytes(&mut out, extra_keys[i].as_str().as_bytes());
        assert(keys.take(i + 1).drop_last() =~= keys.take(i as int));
        assert(keys.take(i + 1).last() == extra_keys@[i as int]@);
        assert(out@ =~= head + keys_material(keys.take(i + 1)));
        i = i + 1;
    }
    assert(keys.take(i as int) =~= keys);
    let ghost mid = out@;
    let mut j: usize = 0;
    while j < input_files.len()
        invariant
            files == input_files@.map_values(|f: (String, Vec<u8>)| file_view(f)),
            j <= input_files.len(),
            out@ == mid + files_material(files.take(j as int)),
        decreases input_files.len() - j,
    {
        let (path, content) = &input_files[j];
        append_bytes(&mut out, &[0u8, 102u8, 105u8, 108u8, 101u8, 0u8]);
        append_bytes(&mut out, path.as_str().as_bytes());
        append_bytes(&mut out, &[0u8]);
        append_bytes(&mut out, content.as_slice());
        assert(files.take(j + 1).drop_last() =~= files.take(j as int));
        assert(files.take(j + 1).last() == file_view(input_files@[j as int]));
        assert(out@ =~= mid + files_material(files.take(j + 1)));
        j = j + 1;
    }
    assert(files.take(j as int) =~= files);
    assert(out@ =~= key_material(run@, keys, files));
    out
}

/// The cache key of a command: the lower-case hex SHA-256 of the command's
/// `run` script, its extra `key` strings and the path and content of every
/// input file, in the order given.
pub fn compute_key(run: &str, extra_keys: &[String], input_files: &[(String, Vec<u8>)]) -> (k: String)
    ensures
        k@ == lower_hex(
            sha256(
                key_material(
                    run@,
                    extra_keys@.map_values(|k: String| k@),
                    input_files@.map_values(|f: (String, Vec<u8>)| file_view(f)),
                ),
            ),
        ),
        k@.len() == 64,
        forall|i: int| 0 <= i < k@.len() ==> is_hex_digit(#[trigger] k@[i]),
{
    let bytes = key_bytes(run, extra_keys, input_files);
    let digest = sha256_digest(bytes.as_slice());
    proof {
        lemma_lower_hex(digest@);
    }
    lower_hex_string(digest.as_slice())
}

/// What a command with a cache block does once its key is known.
#[derive(Debug, Clone, Copy, PartialEq, Eq, Structural)]
pub enum CacheStep {
    /// A successful run is recorded under the key: the command is skipped
    /// and counts as passed.
    Skip,
    /// No run is recorded under the key: the command runs.
    Run,
}

/// The step for a command whose key has (`hit`) or has not a recorded
/// successful run.
pub fn cache_step(hit: bool) -> (s: CacheStep)
    ensures
        s == (if hit {
            CacheStep::Skip
        } else {
            CacheStep::Run
        }),
{
    if hit {
        CacheStep::Skip
    } else {
        CacheStep::Run
    }
}

/// Whether a run that just finished is recorded under its key: `exit_ok` is
/// `None` for a run whose output was not captured (such a run that fails is
/// an error before this point, so it passed), and otherwise whether the
/// captured run exited successfully. Only a passing run is recorded.
pub fn records_marker(exit_ok: Option<bool>) -> (b: bool)
    ensures
        b == match exit_ok {
            None => true,
            Some(ok) => ok,
        },
{
    match exit_ok {
        None => true,
        Some(ok) => ok,
    }
}

/// Name of the marker file that records a successful run under `key`.
pub fn marker_file_name(key: &str) -> (s: String)
    ensures
        s@ == key@ + ".ok"@,
{
    let mut s = String::new();
    push_str(&mut s, key);
    push_str(&mut s, ".ok");
    s
}

/// How long ago something happened, `secs` seconds back, in the largest
/// whole unit: seconds, minutes, hours or days.
pub open spec fn age_text(secs: nat) -> Seq<char> {
    if secs < 60 {
        decimal(secs) + "s ago"@
    } else if secs < 3600 {
        decimal(secs / 60) + "m ago"@
    } else if secs < 86400 {
        decimal(secs / 3600) + "h ago"@
    } else {
        decimal(secs / 86400) + "d ago"@
    }
}

/// Renders the age of a cache entry, e.g. `5m ago`.
pub fn format_age(secs: u64) -> (s: String)
    ensures
        s@ == age_text(secs as nat),
{
    let mut s = String::new();
    if secs < 60 {
        push_decimal(&mut s, secs);
        push_str(&mut s, "s ago");
    } else if secs < 3600 {
        push_decimal(&mut s, secs / 60);
        push_str(&mut s, "m ago");
    } else if secs < 86400 {
        push_decimal(&mut s, secs / 3600);
        push_str(&mut s, "h ago");
    } else {
        push_decimal(&mut s, secs / 86400);
        push_str(&mut s, "d ago");
    }
    assert(s@ =~= age_text(secs as nat));
    s
}

/// The directory name under the temp directory where a git include of
/// repository `url` at revision `rev` is cloned: `githops-git-` and the
/// first twelve hex digits of the SHA-256 of `url` followed by `rev`.
pub fn git_checkout_dir_name(url: &str, rev: &str) -> (s: String)
    ensures
        s@ == "githops-git-"@ + lower_hex(sha256(encode_utf8(url@) + encode_utf8(rev@))).take(12),
{
    let mut bytes: Vec<u8> = Vec::new();
    append_bytes(&mut bytes, url.as_bytes());
    append_bytes(&mut bytes, rev.as_bytes());
    let digest = sha256_digest(bytes.as_slice());
    proof {
        lemma_lower_hex(digest@);
    }
    let hex = lower_hex_string(digest.as_slice());
    let hv = crate::text::chars_of(hex.as_str());
    let mut s = crate::text::string_of("githops-git-");
    let prefix = crate::text::string_from_chars(&hv, 0, 12);
    push_str(&mut s, prefix.as_str());
    assert(hv@.subrange(0, 12) =~= hex@.take(12));
    s
}

/// The hooks directory git is configured with (`core.hooksPath`), from the
/// output of `git config core.hooksPath`: its trimmed text, if not empty.
pub fn configured_hooks_path(output: &str) -> (r: Option<String>)
    ensures
        crate::text::trim(output@).len() > 0 ==> (r matches Some(p) && p@ == crate::text::trim(output@)),
        crate::text::trim(output@).len() == 0 ==> r is None,
{
    let t = crate::text::trim_string(output);
    if t.unicode_len() == 0 {
        None
    } else {
        Some(t)
    }
}

/// The ages of cache entries, in their order.
pub open spec fn entry_ages(entries: Seq<(String, u64)>) -> Seq<u64> {
    entries.map_values(|e: (String, u64)| e.1)
}

/// The cache entries (key and age in seconds) from newest to oldest, equal
/// ages in their given order, as `githops cache list` shows them.
#[verifier::spinoff_prover]
pub fn entries_by_age(entries: &Vec<(String, u64)>) -> (r: Vec<(String, u64)>)
    ensures
        exists|order: Seq<usize>|
            #[trigger] crate::order::sorted_by_number(entry_ages(entries@), order)
                && r@.len() == order.len() && forall|i: int|
                0 <= i < r@.len() ==> #[trigger] r@[i].0@ == entries@[order[i] as int].0@ && r@[i].1
                    == entries@[order[i] as int].1,
{
    let mut ages: Vec<u64> = Vec::new();
    let mut k: usize = 0;
    while k < entries.len()
        invariant
            k <= entries.len(),
            ages@ == entry_ages(entries@).take(k as int),
        decreases entries.len() - k,
    {
        ages.push(entries[k].1);
        assert(ages@ =~= entry_ages(entries@).take(k + 1));
        k = k + 1;
    }
    assert(ages@ =~= entry_ages(entries@));
    let order = crate::order::sort_positions_by_number(&ages);
    let mut out: Vec<(String, u64)> = Vec::new();
    let mut i: usize = 0;
    while i < order.len()
        invariant
            crate::order::sorted_by_number(entry_ages(entries@), order@),
            i <= order.len(),
            out@.len() == i,
            forall|q: int|
                0 <= q < i ==> #[trigger] out@[q].0@ == entries@[order@[q] as int].0@ && out@[q].1
                    == entries@[order@[q] as int].1,
        decreases order.len() - i,
    {
        let p = order[i];
        let key = entries[p].0.clone();
        assert(key@ == entries@[p as int].0@);
        let ghost before = out@;
        out.push((key, entries[p].1));
        assert(forall|q: int| 0 <= q < i ==> out@[q] == before[q]);
        i = i + 1;
    }
    assert(crate::order::sorted_by_number(entry_ages(entries@), order@));
    out
}

} // verus!
