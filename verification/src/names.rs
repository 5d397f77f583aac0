//! File names: cleaning names that come from outside, and naming outputs,
//! partial files, imports and previews.

use vstd::prelude::*;
use crate::platform::Platform;
use crate::text::{
    chars_of, decimal, ends_with, hex_padded, owned, push_chars, push_decimal, push_hex_padded,
    push_str, string_from_chars,
};

verus! {

/// A path separator on any of the supported systems.
pub open spec fn is_separator(c: char) -> bool {
    c == '/' || c == '\\'
}

/// `k` is the position of the last separator in `s`, or -1.
pub open spec fn is_last_separator(s: Seq<char>, k: int) -> bool {
    -1 <= k < s.len() && (k == -1 || is_separator(s[k])) && (forall|j: int|
        k < j < s.len() ==> !is_separator(#[trigger] s[j]))
}

/// The text after the last separator (all of `s` when there is none).
pub open spec fn last_component(s: Seq<char>) -> Seq<char> {
    s.skip((choose|k: int| is_last_separator(s, k)) + 1)
}

/// A control character (Unicode general category Cc), as `char::is_control`.
pub open spec fn is_control(c: char) -> bool {
    c <= '\u{1f}' || ('\u{7f}' <= c && c <= '\u{9f}')
}

/// Characters a file name may not hold on Windows, besides separators.
pub open spec fn is_reserved(c: char) -> bool {
    c == ':' || c == '*' || c == '?' || c == '"' || c == '<' || c == '>' || c == '|'
}

/// Control and reserved characters become `_`.
pub open spec fn scrub(c: char) -> char {
    if is_control(c) || is_reserved(c) {
        '_'
    } else {
        c
    }
}

/// `k` is the number of dots at the start of `s`.
pub open spec fn is_dot_run(s: Seq<char>, k: int) -> bool {
    0 <= k <= s.len() && (forall|j: int| 0 <= j < k ==> #[trigger] s[j] == '.') && (k == s.len()
        || s[k] != '.')
}

/// `s` without its leading dots.
pub open spec fn strip_leading_dots(s: Seq<char>) -> Seq<char> {
    s.skip(choose|k: int| is_dot_run(s, k))
}

/// Longest file name kept, in characters.
pub open spec fn max_name_chars() -> nat {
    120
}

/// A file name taken from an untrusted source: only its last path
/// component, control and reserved characters replaced by `_`, leading dots
/// removed, `import` when nothing is left, and only the last 120 characters
/// (where the extension is) when it is longer.
pub open spec fn sanitized_name(raw: Seq<char>) -> Seq<char> {
    let s = strip_leading_dots(last_component(raw).map_values(|c: char| scrub(c)));
    if s.len() == 0 {
        "import"@
    } else if s.len() > max_name_chars() {
        s.skip(s.len() - max_name_chars())
    } else {
        s
    }
}

/// Cleans a file name that comes from outside (see `sanitized_name`).
pub fn sanitize_name(raw: &str) -> (r: String)
    ensures
        r@ == sanitized_name(raw@),
{
    let c = chars_of(raw);
    let n = c.len();
    // last separator
    let mut k: usize = n;
    while k > 0 && !(c[k - 1] == '/' || c[k - 1] == '\\')
        invariant
            k <= n,
            n == c@.len(),
            forall|j: int| k <= j < n ==> !is_separator(#[trigger] c@[j]),
        decreases k,
    {
        k = k - 1;
    }
    proof {
        let last = k as int - 1;
        assert(is_last_separator(c@, last));
        let ch = choose|q: int| is_last_separator(c@, q);
        assert(is_last_separator(c@, ch));
        if ch < last {
            assert(!is_separator(c@[last]));
        }
        if last < ch {
            assert(!is_separator(c@[ch]));
        }
    }
    let ghost comp = c@.skip(k as int);
    assert(comp == last_component(c@));
    let ghost mapped = comp.map_values(|ch: char| scrub(ch));
    // scrub
    let mut m: Vec<char> = Vec::new();
    let mut i: usize = k;
    while i < n
        invariant
            k <= i <= n,
            n == c@.len(),
            comp == c@.skip(k as int),
            m@ == comp.take(i - k).map_values(|ch: char| scrub(ch)),
        decreases n - i,
    {
        let ch = c[i];
        let is_ctl = ch <= '\u{1f}' || ('\u{7f}' <= ch && ch <= '\u{9f}');
        let is_res = ch == ':' || ch == '*' || ch == '?' || ch == '"' || ch == '<' || ch == '>'
            || ch == '|';
        m.push(if is_ctl || is_res { '_' } else { ch });
        assert(comp.take(i - k + 1).map_values(|ch: char| scrub(ch)) =~= comp.take(
            i - k,
        ).map_values(|ch: char| scrub(ch)).push(scrub(ch)));
        i = i + 1;
    }
    assert(comp.take(n - k) =~= comp);
    assert(m@ == mapped);
    // leading dots
    let mut d: usize = 0;
    while d < m.len() && m[d] == '.'
        invariant
            d <= m.len(),
            forall|j: int| 0 <= j < d ==> #[trigger] m@[j] == '.',
        decreases m.len() - d,
    {
        d = d + 1;
    }
    proof {
        assert(is_dot_run(m@, d as int));
        let ch = choose|q: int| is_dot_run(m@, q);
        assert(is_dot_run(m@, ch));
        if ch < d {
            assert(m@[ch] == '.');
        }
        if d < ch {
            assert(m@[d as int] == '.');
        }
    }
    let ghost s = m@.skip(d as int);
    assert(s == strip_leading_dots(mapped));
    if d == m.len() {
        assert(s.len() == 0);
        return crate::text::owned("import");
    }
    let len = m.len() - d;
    let from: usize = if len > 120 { m.len() - 120 } else { d };
    let mut out: Vec<char> = Vec::new();
    let mut j: usize = from;
    while j < m.len()
        invariant
            from <= j <= m.len(),
            out@ == m@.subrange(from as int, j as int),
        decreases m.len() - j,
    {
        out.push(m[j]);
        assert(m@.subrange(from as int, j + 1) =~= m@.subrange(from as int, j as int).push(m@[j as int]));
        j = j + 1;
    }
    assert(out@ =~= sanitized_name(raw@));
    string_from_chars(&out)
}


/// The name of the output for input stem `stem` (`sticker` when the input
/// has none): `<stem>_sticker.webm`, or `<stem>_sticker (<n>).webm` for the
/// `n`-th alternative when that name is taken.
pub open spec fn out_file_name_spec(stem: Option<Seq<char>>, n: nat) -> Seq<char> {
    let s = match stem {
        Some(t) => t,
        None => "sticker"@,
    };
    if n == 0 {
        s + "_sticker.webm"@
    } else {
        s + "_sticker ("@ + decimal(n) + ").webm"@
    }
}

/// Names the `n`-th candidate output for an input with file stem `stem`.
pub fn out_file_name(stem: Option<&str>, n: u32) -> (r: String)
    ensures
        r@ == out_file_name_spec(
            match stem {
                Some(t) => Some(t@),
                None => None,
            },
            n as nat,
        ),
{
    let mut v = match stem {
        Some(t) => chars_of(t),
        None => chars_of("sticker"),
    };
    let ghost s = v@;
    if n == 0 {
        push_str(&mut v, "_sticker.webm");
    } else {
        push_str(&mut v, "_sticker (");
        push_decimal(&mut v, n as u128);
        push_str(&mut v, ").webm");
    }
    assert(v@ =~= out_file_name_spec(
        match stem {
            Some(t) => Some(t@),
            None => None,
        },
        n as nat,
    ));
    string_from_chars(&v)
}

/// The view of an optional stem.
pub open spec fn stem_view(stem: Option<&str>) -> Option<Seq<char>> {
    match stem {
        Some(t) => Some(t@),
        None => None,
    }
}

/// How many output names are tried before giving up.
pub open spec fn out_name_limit() -> nat {
    10_000
}

/// The message for a failure in the output folder.
pub open spec fn folder_error_text(e: Seq<char>) -> Seq<char> {
    "Папка вывода: "@ + e
}

/// The message when every output name is taken.
pub open spec fn no_free_name_text() -> Seq<char> {
    "Не удалось подобрать свободное имя выхода"@
}

/// Builds the message for a failure in the output folder.
pub fn folder_error(e: &str) -> (r: String)
    ensures
        r@ == folder_error_text(e@),
{
    let mut v = chars_of("Папка вывода: ");
    push_str(&mut v, e);
    string_from_chars(&v)
}

/// How creating a candidate output file went.
#[derive(Clone, Debug)]
pub enum Reserved {
    /// The file was created: the name is taken by this job.
    Created,
    /// A file of that name exists already.
    Exists,
    /// Creating it failed otherwise, with this error.
    Failed(String),
}

/// What the search for a free output name does next.
#[derive(Clone, Debug)]
pub enum NameStep {
    /// Try to create this file (without overwriting).
    Create(String),
    /// The last name tried is the output.
    Done,
    /// Give up with this message.
    Fail(String),
}

/// Decides the next step of the search for a free output name, after
/// trying the `n`-th candidate (`out_file_name(stem, n)`): a created file
/// ends the search; an existing one moves on to the next candidate, up to
/// 10000 candidates; any other failure ends it with the folder message.
/// The first candidate to try is `out_file_name(stem, 0)`. Creating each
/// name with `create_new` reserves it atomically, so parallel jobs never
/// pick the same output.
pub fn next_out_name(stem: Option<&str>, n: u32, outcome: Reserved) -> (r: (u32, NameStep))
    requires
        n < out_name_limit(),
    ensures
        match outcome {
            Reserved::Created => r.0 == n && r.1 is Done,
            Reserved::Failed(e) => {
                &&& r.0 == n
                &&& r.1 matches NameStep::Fail(m)
                &&& m@ == folder_error_text(e@)
            },
            Reserved::Exists => if n + 1 < out_name_limit() {
                &&& r.0 == n + 1
                &&& r.1 matches NameStep::Create(c)
                &&& c@ == out_file_name_spec(stem_view(stem), (n + 1) as nat)
            } else {
                &&& r.0 == n
                &&& r.1 matches NameStep::Fail(m)
                &&& m@ == no_free_name_text()
            },
        },
{
    match outcome {
        Reserved::Created => (n, NameStep::Done),
        Reserved::Failed(e) => (n, NameStep::Fail(folder_error(e.as_str()))),
        Reserved::Exists => {
            if n + 1 < 10_000 {
                (n + 1, NameStep::Create(out_file_name(stem, n + 1)))
            } else {
                (n, NameStep::Fail(owned("Не удалось подобрать свободное имя выхода")))
            }
        },
    }
}

/// After a failed conversion the reserved output is removed only when it
/// was newly reserved (no earlier output is reused) and is still empty.
pub fn remove_reserved(reused: bool, reserved_len: Option<u64>) -> (r: bool)
    ensures
        r == (!reused && reserved_len == Some(0u64)),
{
    !reused && match reserved_len {
        Some(n) => n == 0,
        None => false,
    }
}

/// How long a temporary file is kept, in nanoseconds: three days.
pub open spec fn temp_ttl_nanos() -> nat {
    259_200_000_000_000
}

/// A temporary file is removed at start-up when its age is known and more
/// than three days.
pub fn temp_expired(age_nanos: Option<u128>) -> (r: bool)
    ensures
        r == (age_nanos matches Some(a) && a > temp_ttl_nanos()),
{
    match age_nanos {
        Some(a) => a > 259_200_000_000_000,
        None => false,
    }
}

/// Where a conversion writes its output.
#[derive(Clone, Debug)]
pub enum OutTarget {
    /// Write over the output of an earlier attempt.
    Reuse(String),
    /// Pick a free name in this folder.
    Folder(String),
    /// Pick a free name in the folder of the input.
    BesideInput,
}

/// The output of an earlier attempt is reused; otherwise the chosen output
/// folder, when it is given and not empty; otherwise the input's folder.
pub fn out_target(out_path: &Option<String>, out_dir: &Option<String>) -> (r: OutTarget)
    ensures
        match out_path {
            Some(p) => r matches OutTarget::Reuse(q) && q@ == p@,
            None => match out_dir {
                Some(d) => if d@.len() > 0 {
                    r matches OutTarget::Folder(q) && q@ == d@
                } else {
                    r is BesideInput
                },
                None => r is BesideInput,
            },
        },
{
    match out_path {
        Some(p) => OutTarget::Reuse(owned(p.as_str())),
        None => match out_dir {
            Some(d) => {
                if crate::text::chars_of(d.as_str()).len() > 0 {
                    OutTarget::Folder(owned(d.as_str()))
                } else {
                    OutTarget::BesideInput
                }
            },
            None => OutTarget::BesideInput,
        },
    }
}

/// A path separator on `platform`.
pub open spec fn is_platform_separator(platform: Platform, c: char) -> bool {
    c == '/' || (platform == Platform::Windows && c == '\\')
}

/// The file that an output is encoded into before it is moved into place:
/// the output's `.webm` extension replaced by `.part.webm`. A file named
/// just `.webm` has no extension, so the new one is appended.
pub open spec fn part_path_spec(platform: Platform, out: Seq<char>) -> Seq<char> {
    let base = out.take(out.len() - 5);
    if base.len() == 0 || is_platform_separator(platform, base.last()) {
        out + ".part.webm"@
    } else {
        base + ".part.webm"@
    }
}

/// Names the partial file of output `out`, which ends in `.webm`.
pub fn part_path(platform: Platform, out: &str) -> (r: String)
    requires
        ends_with(out@, ".webm"@),
    ensures
        r@ == part_path_spec(platform, out@),
{
    proof {
        reveal_strlit(".webm");
    }
    let v = chars_of(out);
    let cut = v.len() - 5;
    let no_ext = cut == 0 || v[cut - 1] == '/' || (platform == Platform::Windows && v[cut - 1]
        == '\\');
    let mut r: Vec<char> = Vec::new();
    if no_ext {
        push_chars(&mut r, &v);
    } else {
        let b = crate::text::slice_chars(&v, 0, cut);
        push_chars(&mut r, &b);
    }
    push_str(&mut r, ".part.webm");
    assert(r@ =~= part_path_spec(platform, out@));
    string_from_chars(&r)
}

/// The argument that makes Explorer open a folder with `path` selected:
/// `/select,"<path>"` with forward slashes turned into backslashes, the
/// quotes around the path only, as Explorer expects.
pub open spec fn explorer_select_arg_spec(path: Seq<char>) -> Seq<char> {
    "/select,\""@ + path.map_values(|c: char| if c == '/' { '\\' } else { c }) + "\""@
}

/// Builds the Explorer argument that selects `path`.
pub fn explorer_select_arg(path: &str) -> (r: String)
    ensures
        r@ == explorer_select_arg_spec(path@),
{
    let c = chars_of(path);
    let mut v = chars_of("/select,\"");
    let ghost h = v@;
    let mut i: usize = 0;
    while i < c.len()
        invariant
            i <= c.len(),
            v@ == h + c@.take(i as int).map_values(|ch: char| if ch == '/' { '\\' } else { ch }),
        decreases c.len() - i,
    {
        let ch = c[i];
        v.push(if ch == '/' { '\\' } else { ch });
        assert(c@.take(i + 1).map_values(|ch: char| if ch == '/' { '\\' } else { ch }) =~= c@.take(
            i as int,
        ).map_values(|ch: char| if ch == '/' { '\\' } else { ch }).push(
            if ch == '/' { '\\' } else { ch },
        ));
        i = i + 1;
    }
    assert(c@.take(c.len() as int) =~= c@);
    push_str(&mut v, "\"");
    assert(v@ =~= explorer_select_arg_spec(path@));
    string_from_chars(&v)
}

/// The temporary file an imported document is copied to:
/// `import_<id>_<clean name>`.
pub open spec fn import_file_name_spec(id: nat, raw: Seq<char>) -> Seq<char> {
    "import_"@ + decimal(id) + "_"@ + sanitized_name(raw)
}

/// Names the temporary copy of an imported document.
pub fn import_file_name(id: u128, raw: &str) -> (r: String)
    ensures
        r@ == import_file_name_spec(id as nat, raw@),
{
    let mut v = chars_of("import_");
    push_decimal(&mut v, id);
    push_str(&mut v, "_");
    let n = sanitize_name(raw);
    push_str(&mut v, n.as_str());
    assert(v@ =~= import_file_name_spec(id as nat, raw@));
    string_from_chars(&v)
}

/// Where a finished sticker goes in the shared video collection:
/// `Sticker-Nah/<clean name>`.
pub open spec fn gallery_path_spec(filename: Seq<char>) -> Seq<char> {
    "Sticker-Nah/"@ + sanitized_name(filename)
}

/// Names the gallery copy of a finished sticker.
pub fn gallery_path(filename: &str) -> (r: String)
    ensures
        r@ == gallery_path_spec(filename@),
{
    let mut v = chars_of("Sticker-Nah/");
    let n = sanitize_name(filename);
    push_str(&mut v, n.as_str());
    assert(v@ =~= gallery_path_spec(filename@));
    string_from_chars(&v)
}

/// The temporary image a pasted picture is saved as: `paste_<id>.png`.
pub open spec fn paste_file_name_spec(id: nat) -> Seq<char> {
    "paste_"@ + decimal(id) + ".png"@
}

/// Names the file a pasted picture is saved as.
pub fn paste_file_name(id: u128) -> (r: String)
    ensures
        r@ == paste_file_name_spec(id as nat),
{
    let mut v = chars_of("paste_");
    push_decimal(&mut v, id);
    push_str(&mut v, ".png");
    assert(v@ =~= paste_file_name_spec(id as nat));
    string_from_chars(&v)
}

/// The cached preview of an input with fingerprint `hash`:
/// `proxy_<16 hex digits>.webm`.
pub open spec fn proxy_file_name_spec(hash: u64) -> Seq<char> {
    "proxy_"@ + hex_padded(hash as nat, 16) + ".webm"@
}

/// Names the cached preview of an input.
pub fn proxy_file_name(hash: u64) -> (r: String)
    ensures
        r@ == proxy_file_name_spec(hash),
{
    let mut v = chars_of("proxy_");
    push_hex_padded(&mut v, hash, 16);
    push_str(&mut v, ".webm");
    assert(v@ =~= proxy_file_name_spec(hash));
    string_from_chars(&v)
}

/// The file a preview is written to before it enters the cache:
/// `proxy_<16 hex digits>_<id>.part`.
pub open spec fn proxy_part_name_spec(hash: u64, id: nat) -> Seq<char> {
    "proxy_"@ + hex_padded(hash as nat, 16) + "_"@ + decimal(id) + ".part"@
}

/// Names the partial file of a preview.
pub fn proxy_part_name(hash: u64, id: u128) -> (r: String)
    ensures
        r@ == proxy_part_name_spec(hash, id as nat),
{
    let mut v = chars_of("proxy_");
    push_hex_padded(&mut v, hash, 16);
    push_str(&mut v, "_");
    push_decimal(&mut v, id);
    push_str(&mut v, ".part");
    assert(v@ =~= proxy_part_name_spec(hash, id as nat));
    string_from_chars(&v)
}

/// The prefix of the two-pass statistics files of one run: `pass_<id>`.
pub open spec fn passlog_name_spec(id: nat) -> Seq<char> {
    "pass_"@ + decimal(id)
}

/// Names the two-pass statistics prefix of a run.
pub fn passlog_name(id: u128) -> (r: String)
    ensures
        r@ == passlog_name_spec(id as nat),
{
    let mut v = chars_of("pass_");
    push_decimal(&mut v, id);
    assert(v@ =~= passlog_name_spec(id as nat));
    string_from_chars(&v)
}

/// The statistics files libvpx leaves for prefix `passlog`:
/// `<passlog>.log` and `<passlog>-0.log`.
pub open spec fn passlog_files_spec(passlog: Seq<char>) -> (Seq<char>, Seq<char>) {
    (passlog + ".log"@, passlog + "-0.log"@)
}

/// Names the statistics files to remove after a run.
pub fn passlog_files(passlog: &str) -> (r: (String, String))
    ensures
        (r.0@, r.1@) == passlog_files_spec(passlog@),
{
    let mut a = chars_of(passlog);
    push_str(&mut a, ".log");
    let mut b = chars_of(passlog);
    push_str(&mut b, "-0.log");
    (string_from_chars(&a), string_from_chars(&b))
}


/// A cleaned name is never empty, holds at most 120 characters, and has no
/// path separator, control character or character Windows reserves; when
/// no shortening was needed it does not start with a dot either.
pub proof fn sanitized_name_is_safe(raw: Seq<char>)
    ensures
        sanitized_name(raw).len() > 0,
        sanitized_name(raw).len() <= max_name_chars(),
        forall|i: int|
            0 <= i < sanitized_name(raw).len() ==> !is_separator(#[trigger] sanitized_name(raw)[i])
                && !is_control(sanitized_name(raw)[i]) && !is_reserved(sanitized_name(raw)[i]),
        strip_leading_dots(last_component(raw).map_values(|c: char| scrub(c))).len()
            <= max_name_chars() ==> sanitized_name(raw)[0] != '.',
{
    reveal_strlit("import");
    let k = choose|k: int| is_last_separator(raw, k);
    assert(exists|q: int| is_last_separator(raw, q)) by {
        lemma_last_separator_exists(raw);
    }
    assert(is_last_separator(raw, k));
    let comp = last_component(raw);
    assert(comp == raw.skip(k + 1));
    assert forall|i: int| 0 <= i < comp.len() implies !is_separator(#[trigger] comp[i]) by {
        assert(comp[i] == raw[k + 1 + i]);
    }
    let m = comp.map_values(|c: char| scrub(c));
    assert forall|i: int| 0 <= i < m.len() implies !is_separator(#[trigger] m[i]) && !is_control(
        m[i],
    ) && !is_reserved(m[i]) by {
        assert(m[i] == scrub(comp[i]));
    }
    let d = choose|d: int| is_dot_run(m, d);
    assert(exists|q: int| is_dot_run(m, q)) by {
        lemma_dot_run_exists(m);
    }
    assert(is_dot_run(m, d));
    let t = strip_leading_dots(m);
    assert(t == m.skip(d));
    assert forall|i: int| 0 <= i < t.len() implies !is_separator(#[trigger] t[i]) && !is_control(
        t[i],
    ) && !is_reserved(t[i]) && (i == 0 ==> t[i] != '.') by {
        assert(t[i] == m[d + i]);
    }
    if t.len() > max_name_chars() {
        let r = t.skip(t.len() - max_name_chars());
        assert forall|i: int| 0 <= i < r.len() implies !is_separator(#[trigger] r[i]) && !is_control(
            r[i],
        ) && !is_reserved(r[i]) by {
            assert(r[i] == t[t.len() - max_name_chars() + i]);
        }
    }
}

proof fn lemma_last_separator_exists(s: Seq<char>)
    ensures
        exists|k: int| is_last_separator(s, k),
    decreases s.len(),
{
    if s.len() == 0 {
        assert(is_last_separator(s, -1));
    } else if is_separator(s.last()) {
        assert(is_last_separator(s, s.len() - 1));
    } else {
        lemma_last_separator_exists(s.drop_last());
        let k = choose|k: int| is_last_separator(s.drop_last(), k);
        assert(is_last_separator(s, k)) by {
            assert forall|j: int| k < j < s.len() implies !is_separator(#[trigger] s[j]) by {
                if j < s.len() - 1 {
                    assert(s[j] == s.drop_last()[j]);
                }
            }
            if k >= 0 {
                assert(s[k] == s.drop_last()[k]);
            }
        }
    }
}

proof fn lemma_dot_run_exists(s: Seq<char>)
    ensures
        exists|k: int| is_dot_run(s, k),
    decreases s.len(),
{
    if s.len() == 0 || s[0] != '.' {
        assert(is_dot_run(s, 0));
    } else {
        lemma_dot_run_exists(s.skip(1));
        let k = choose|k: int| is_dot_run(s.skip(1), k);
        assert(is_dot_run(s, k + 1)) by {
            assert forall|j: int| 0 <= j < k + 1 implies #[trigger] s[j] == '.' by {
                if j > 0 {
                    assert(s[j] == s.skip(1)[j - 1]);
                }
            }
            if k + 1 < s.len() {
                assert(s[k + 1] == s.skip(1)[k]);
            }
        }
    }
}

/// Cleaning a cleaned name changes nothing, unless the name kept after
/// shortening starts with a dot (which a second cleaning removes).
pub proof fn sanitize_twice_is_once(raw: Seq<char>)
    requires
        sanitized_name(raw)[0] != '.',
    ensures
        sanitized_name(sanitized_name(raw)) == sanitized_name(raw),
{
    sanitized_name_is_safe(raw);
    let s = sanitized_name(raw);
    assert(is_last_separator(s, -1));
    let k = choose|k: int| is_last_separator(s, k);
    assert(is_last_separator(s, k));
    if k >= 0 {
        assert(is_separator(s[k]));
    }
    assert(last_component(s) =~= s);
    let m = s.map_values(|c: char| scrub(c));
    assert(m =~= s) by {
        assert forall|i: int| 0 <= i < s.len() implies m[i] == s[i] by {
            assert(!is_control(s[i]) && !is_reserved(s[i]));
        }
    }
    assert(is_dot_run(s, 0));
    let d = choose|d: int| is_dot_run(s, d);
    assert(is_dot_run(s, d));
    if d > 0 {
        assert(s[0] == '.');
    }
    assert(strip_leading_dots(m) =~= s);
}

/// Cleaning changes only what it must: in a name without path separators,
/// of at most 120 characters and not starting with a dot, exactly the
/// control characters (U+0000 to U+001F and U+007F to U+009F) and the
/// characters `: * ? " < > |` become `_`; every other character, a letter
/// of any script included, is kept in its place.
pub proof fn cleaning_keeps_ordinary_characters(raw: Seq<char>)
    requires
        0 < raw.len() <= 120,
        raw[0] != '.',
        forall|i: int| 0 <= i < raw.len() ==> #[trigger] raw[i] != '/' && raw[i] != '\\',
    ensures
        sanitized_name(raw).len() == raw.len(),
        forall|i: int|
            0 <= i < raw.len() ==> #[trigger] sanitized_name(raw)[i] == (if raw[i] <= '\u{1f}' || (
            '\u{7f}' <= raw[i] && raw[i] <= '\u{9f}') || raw[i] == ':' || raw[i] == '*' || raw[i]
                == '?' || raw[i] == '"' || raw[i] == '<' || raw[i] == '>' || raw[i] == '|' {
                '_'
            } else {
                raw[i]
            }),
{
    assert(is_last_separator(raw, -1));
    let k = choose|k: int| is_last_separator(raw, k);
    assert(is_last_separator(raw, k));
    if k >= 0 {
        assert(is_separator(raw[k]));
    }
    assert(last_component(raw) =~= raw);
    let m = raw.map_values(|c: char| scrub(c));
    assert(m[0] != '.');
    assert(is_dot_run(m, 0));
    let d = choose|d: int| is_dot_run(m, d);
    assert(is_dot_run(m, d));
    if d > 0 {
        assert(m[0] == '.');
    }
    assert(strip_leading_dots(m) =~= m);
}

/// A name that is already clean (not empty, at most 120 characters, not
/// starting with a dot, without separators, control characters or
/// `: * ? " < > |`) comes back unchanged.
pub proof fn clean_names_are_kept(raw: Seq<char>)
    requires
        0 < raw.len() <= 120,
        raw[0] != '.',
        forall|i: int|
            0 <= i < raw.len() ==> {
                let c = #[trigger] raw[i];
                &&& c != '/' && c != '\\'
                &&& !(c <= '\u{1f}') && !('\u{7f}' <= c && c <= '\u{9f}')
                &&& c != ':' && c != '*' && c != '?' && c != '"' && c != '<' && c != '>' && c != '|'
            },
    ensures
        sanitized_name(raw) == raw,
{
    cleaning_keeps_ordinary_characters(raw);
    assert(sanitized_name(raw) =~= raw);
}

/// Every candidate output name ends in `.webm`, so a later retry may write
/// over it, and its partial file is a different name.
pub proof fn out_names_are_webm(stem: Option<Seq<char>>, n: nat, platform: Platform)
    ensures
        ends_with(out_file_name_spec(stem, n), ".webm"@),
        part_path_spec(platform, out_file_name_spec(stem, n)) != out_file_name_spec(stem, n),
{
    reveal_strlit(".webm");
    reveal_strlit(").webm");
    reveal_strlit("_sticker.webm");
    reveal_strlit(".part.webm");
    let o = out_file_name_spec(stem, n);
    let s = match stem {
        Some(t) => t,
        None => "sticker"@,
    };
    if n == 0 {
        assert(o.skip(o.len() - 5) =~= ".webm"@);
    } else {
        assert(o.skip(o.len() - 5) =~= ".webm"@);
    }
    let p = part_path_spec(platform, o);
    let base = o.take(o.len() - 5);
    if base.len() == 0 || is_platform_separator(platform, base.last()) {
        assert(p.len() == o.len() + 10);
    } else {
        assert(p.len() == o.len() + 5);
    }
}

} // verus!
