//! What differs between the platforms the converter runs on: file names of
//! the bundled tools, the null output device, and how a process is killed.

use vstd::prelude::*;
use crate::filters::{push_arg, push_lit, views};
use crate::text::{
    chars_of, contains_exec, contains_seq, decimal, decimal_string, ends_with, ends_with_exec,
    find_char, first_index, owned, push_str, slice_chars, string_from_chars,
};

verus! {

/// The operating system family the program runs on.
#[derive(Clone, Copy, Debug, PartialEq, Eq, Structural)]
pub enum Platform {
    Windows,
    Android,
    /// Any other system (Linux, macOS, ...).
    Unix,
}

/// The output device that discards what is written to it.
pub open spec fn null_sink_spec(platform: Platform) -> Seq<char> {
    match platform {
        Platform::Windows => "NUL"@,
        _ => "/dev/null"@,
    }
}

/// The sink for the first encoder pass (`-f null <sink>`).
pub fn null_sink(platform: Platform) -> (r: &'static str)
    ensures
        r@ == null_sink_spec(platform),
{
    match platform {
        Platform::Windows => "NUL",
        _ => "/dev/null",
    }
}

/// The executable file name of the tool `name` on `platform`.
pub open spec fn tool_file_spec(platform: Platform, name: Seq<char>) -> Seq<char> {
    match platform {
        Platform::Windows => name + ".exe"@,
        Platform::Android => "lib"@ + name + ".so"@,
        Platform::Unix => name,
    }
}

/// The executable file name of the tool `name` on `platform`: on Android
/// the tools ship as `lib<name>.so` in the native library directory.
pub fn tool_file(platform: Platform, name: &str) -> (r: String)
    ensures
        r@ == tool_file_spec(platform, name@),
{
    match platform {
        Platform::Windows => {
            let mut v = chars_of(name);
            push_str(&mut v, ".exe");
            string_from_chars(&v)
        },
        Platform::Android => {
            let mut v = chars_of("lib");
            push_str(&mut v, name);
            push_str(&mut v, ".so");
            string_from_chars(&v)
        },
        Platform::Unix => owned(name),
    }
}


/// A program to run with its arguments.
pub struct ProcessCommand {
    pub program: String,
    pub args: Vec<String>,
}

/// The program that kills a process tree on `platform`.
pub open spec fn kill_program(platform: Platform) -> Seq<char> {
    match platform {
        Platform::Windows => "taskkill"@,
        _ => "kill"@,
    }
}

/// Its arguments for process `pid`: the whole tree, forced, on Windows;
/// `SIGKILL` elsewhere.
pub open spec fn kill_args(platform: Platform, pid: nat) -> Seq<Seq<char>> {
    match platform {
        Platform::Windows => seq!["/PID"@, decimal(pid), "/T"@, "/F"@],
        _ => seq!["-9"@, decimal(pid)],
    }
}

/// The command that stops process `pid` and its children.
pub fn kill_command(platform: Platform, pid: u32) -> (r: ProcessCommand)
    ensures
        r.program@ == kill_program(platform),
        views(r.args@) == kill_args(platform, pid as nat),
{
    let mut args: Vec<String> = Vec::new();
    assert(views(args@) =~= Seq::empty());
    match platform {
        Platform::Windows => {
            push_lit(&mut args, "/PID");
            push_arg(&mut args, decimal_string(pid as u128));
            push_lit(&mut args, "/T");
            push_lit(&mut args, "/F");
            assert(views(args@) =~= kill_args(platform, pid as nat));
            ProcessCommand { program: owned("taskkill"), args }
        },
        _ => {
            push_lit(&mut args, "-9");
            push_arg(&mut args, decimal_string(pid as u128));
            assert(views(args@) =~= kill_args(platform, pid as nat));
            ProcessCommand { program: owned("kill"), args }
        },
    }
}

/// Where a tool is taken from.
#[derive(Clone, Debug)]
pub enum ToolChoice {
    /// The candidate at this position (a tool shipped next to the program
    /// or in a development folder) exists.
    Candidate(usize),
    /// Unpack the copy built into the program; when that fails, use the
    /// bare name.
    Embedded,
    /// Let the system search its `PATH` for this name.
    Bare(String),
}

/// Chooses where to run tool `name` from, given which of the candidate
/// files exist (in order of preference): the first existing candidate; on
/// Windows then the built-in copy; else the bare name.
pub fn tool_path(platform: Platform, name: &str, exists: &Vec<bool>) -> (r: ToolChoice)
    ensures
        match r {
            ToolChoice::Candidate(i) => i < exists@.len() && exists@[i as int] && forall|j: int|
                0 <= j < i ==> !exists@[j],
            ToolChoice::Embedded => platform == Platform::Windows && forall|j: int|
                0 <= j < exists@.len() ==> !exists@[j],
            ToolChoice::Bare(n) => platform != Platform::Windows && n@ == name@ && forall|j: int|
                0 <= j < exists@.len() ==> !exists@[j],
        },
{
    let mut i: usize = 0;
    while i < exists.len()
        invariant
            i <= exists.len(),
            forall|j: int| 0 <= j < i ==> !exists@[j],
        decreases exists.len() - i,
    {
        if exists[i] {
            return ToolChoice::Candidate(i);
        }
        i = i + 1;
    }
    if platform == Platform::Windows {
        ToolChoice::Embedded
    } else {
        ToolChoice::Bare(owned(name))
    }
}

/// The tools that are built into the program on Windows.
#[derive(Clone, Copy, Debug, PartialEq, Eq, Structural)]
pub enum EmbeddedTool {
    Ffmpeg,
    Ffprobe,
}

/// Which built-in tool `name` is, if any.
pub fn embedded_tool(name: &str) -> (r: Option<EmbeddedTool>)
    ensures
        r == (if name@ == "ffmpeg"@ {
            Some(EmbeddedTool::Ffmpeg)
        } else if name@ == "ffprobe"@ {
            Some(EmbeddedTool::Ffprobe)
        } else {
            None
        }),
{
    let n = owned(name);
    if crate::text::same_text(&n, "ffmpeg") {
        Some(EmbeddedTool::Ffmpeg)
    } else if crate::text::same_text(&n, "ffprobe") {
        Some(EmbeddedTool::Ffprobe)
    } else {
        None
    }
}

/// A folder of unpacked tools is removed when it belongs to another version
/// of the program and no running instance holds it.
pub fn is_stale_tool_dir(dir_name: &str, current_version: &str, in_use: bool) -> (r: bool)
    ensures
        r == (dir_name@ != current_version@ && !in_use),
{
    let d = owned(dir_name);
    !crate::text::same_text(&d, current_version) && !in_use
}

/// Removal of unpacked tools of older versions has nothing to do off
/// Windows, where no tools are unpacked.
pub fn cleanup_old_extracted() {
}

/// `k` is the position of the last `/` in `s`, or -1.
pub open spec fn is_last_slash(s: Seq<char>, k: int) -> bool {
    -1 <= k < s.len() && (k == -1 || s[k] == '/') && (forall|j: int|
        k < j < s.len() ==> #[trigger] s[j] != '/')
}

/// `k` is where the trailing run of `/` in `s` starts.
pub open spec fn is_trailing_slash_start(s: Seq<char>, k: int) -> bool {
    0 <= k <= s.len() && (forall|j: int| k <= j < s.len() ==> #[trigger] s[j] == '/') && (k == 0
        || s[k - 1] != '/')
}

/// The folder of file `p` (which starts with `/`): everything before its
/// last `/` without trailing slashes, or `/` when that is empty.
pub open spec fn parent_dir(p: Seq<char>) -> Seq<char> {
    let q = p.take(choose|k: int| is_last_slash(p, k));
    let r = q.take(choose|k: int| is_trailing_slash_start(q, k));
    if r.len() == 0 {
        "/"@
    } else {
        r
    }
}

/// The library folder a line of `/proc/self/maps` names: the path (from the
/// first `/`) of a shared object under a `lib` folder, without its file
/// name.
pub open spec fn maps_line_dir(line: Seq<char>) -> Option<Seq<char>> {
    let pos = first_index(line, '/');
    let p = line.skip(pos);
    if pos < line.len() && contains_seq(p, "/lib/"@) && ends_with(p, ".so"@) {
        Some(parent_dir(p))
    } else {
        None
    }
}

/// The folder of a path that starts with `/`.
fn parent_dir_exec(p: &Vec<char>) -> (r: Vec<char>)
    requires
        p@.len() > 0,
        p@[0] == '/',
    ensures
        r@ == parent_dir(p@),
{
    let mut k: usize = p.len();
    while k > 0 && p[k - 1] != '/'
        invariant
            k <= p.len(),
            forall|j: int| k <= j < p.len() ==> #[trigger] p@[j] != '/',
        decreases k,
    {
        k = k - 1;
    }
    let ghost last = k as int - 1;
    proof {
        assert(is_last_slash(p@, last));
        let c = choose|q: int| is_last_slash(p@, q);
        assert(is_last_slash(p@, c));
        if c < last {
            assert(p@[last] != '/');
        }
        if last < c {
            assert(p@[c] != '/');
        }
    }
    let cut: usize = if k == 0 { 0 } else { k - 1 };
    let q = slice_chars(p, 0, cut);
    assert(q@ =~= p@.take(last));
    let mut t: usize = q.len();
    while t > 0 && q[t - 1] == '/'
        invariant
            t <= q.len(),
            forall|j: int| t <= j < q.len() ==> #[trigger] q@[j] == '/',
        decreases t,
    {
        t = t - 1;
    }
    proof {
        assert(is_trailing_slash_start(q@, t as int));
        let c = choose|z: int| is_trailing_slash_start(q@, z);
        assert(is_trailing_slash_start(q@, c));
        if c < t {
            assert(q@[t - 1] == '/');
        }
        if t < c {
            assert(q@[c - 1] == '/');
        }
    }
    let r = slice_chars(&q, 0, t);
    if t == 0 {
        return chars_of("/");
    }
    r
}

/// Reads the library folder named by one line of `/proc/self/maps`.
pub fn maps_line_lib_dir(line: &str) -> (r: Option<String>)
    ensures
        match r {
            Some(d) => maps_line_dir(line@) == Some(d@),
            None => maps_line_dir(line@) is None,
        },
{
    let c = chars_of(line);
    let pos = find_char(&c, '/', 0);
    assert(c@.skip(0) =~= c@);
    if pos == c.len() {
        return None;
    }
    let p = slice_chars(&c, pos, c.len());
    assert(p@ =~= line@.skip(pos as int));
    if contains_exec(&p, "/lib/") && ends_with_exec(&p, ".so") {
        assert(p@[0] == c@[pos as int]);
        let d = parent_dir_exec(&p);
        Some(string_from_chars(&d))
    } else {
        None
    }
}

/// No two entries hold the same text.
pub open spec fn distinct_texts(v: Seq<String>) -> bool {
    forall|i: int, j: int| 0 <= i < j < v.len() ==> (#[trigger] v[i])@ != (#[trigger] v[j])@
}

/// Some entry holds `t`.
pub open spec fn holds_text(v: Seq<String>, t: Seq<char>) -> bool {
    exists|i: int| 0 <= i < v.len() && (#[trigger] v[i])@ == t
}

/// Adds `d` unless an entry already holds its text.
fn add_unique(dirs: &mut Vec<String>, d: String)
    requires
        distinct_texts(old(dirs)@),
    ensures
        distinct_texts(final(dirs)@),
        final(dirs)@ == old(dirs)@ || final(dirs)@ == old(dirs)@.push(d),
        holds_text(final(dirs)@, d@),
        views(final(dirs)@) == (if views(old(dirs)@).contains(d@) {
            views(old(dirs)@)
        } else {
            views(old(dirs)@).push(d@)
        }),
{
    let mut i: usize = 0;
    while i < dirs.len()
        invariant
            i <= dirs.len(),
            distinct_texts(dirs@),
            dirs@ == old(dirs)@,
            forall|j: int| 0 <= j < i ==> (#[trigger] dirs@[j])@ != d@,
        decreases dirs.len() - i,
    {
        if dirs[i] == d {
            assert(dirs@[i as int]@ == d@);
            assert(views(dirs@)[i as int] == d@);
            return;
        }
        i = i + 1;
    }
    let ghost old_d = dirs@;
    assert(!views(old_d).contains(d@)) by {
        if views(old_d).contains(d@) {
            let j = choose|j: int| 0 <= j < views(old_d).len() && views(old_d)[j] == d@;
            assert(old_d[j]@ == d@);
        }
    }
    dirs.push(d);
    assert(views(dirs@) =~= views(old_d).push(d@));
    assert(dirs@[old_d.len() as int]@ == d@);
    assert(distinct_texts(dirs@)) by {
        assert forall|a: int, b: int| 0 <= a < b < dirs@.len() implies (#[trigger] dirs@[a])@
            != (#[trigger] dirs@[b])@ by {
            if b < old_d.len() {
                assert(dirs@[a] == old_d[a] && dirs@[b] == old_d[b]);
            } else {
                assert(dirs@[a] == old_d[a]);
            }
        }
    }
}

/// Every entry of `dirs` is the folder of one of the first `l` lines.
pub open spec fn dirs_from_lines(dirs: Seq<String>, lines: Seq<String>, l: int) -> bool {
    forall|i: int|
        0 <= i < dirs.len() ==> exists|m: int|
            0 <= m < l && maps_line_dir(#[trigger] lines[m]@) == Some((#[trigger] dirs[i])@)
}

/// The folder of each of the first `l` lines is in `dirs`.
pub open spec fn lines_in_dirs(dirs: Seq<String>, lines: Seq<String>, l: int) -> bool {
    forall|m: int|
        0 <= m < l && (#[trigger] maps_line_dir(lines[m]@)) is Some ==> holds_text(
            dirs,
            maps_line_dir(lines[m]@)->0,
        )
}

/// The folders named by the first `l` lines, each once, in order of first
/// appearance.
pub open spec fn first_dirs(lines: Seq<String>, l: nat) -> Seq<Seq<char>>
    decreases l,
{
    if l == 0 {
        Seq::empty()
    } else {
        let prev = first_dirs(lines, (l - 1) as nat);
        match maps_line_dir(lines[l - 1]@) {
            Some(d) => if prev.contains(d) {
                prev
            } else {
                prev.push(d)
            },
            None => prev,
        }
    }
}

/// The library folders named in the lines of `/proc/self/maps`, each once,
/// in order of first appearance: on Android the tools ship as libraries in
/// the app's native library folder.
pub fn lib_dirs_from_maps(lines: &Vec<String>) -> (r: Vec<String>)
    ensures
        views(r@) == first_dirs(lines@, lines@.len()),
        distinct_texts(r@),
        dirs_from_lines(r@, lines@, lines@.len() as int),
        lines_in_dirs(r@, lines@, lines@.len() as int),
{
    let mut dirs: Vec<String> = Vec::new();
    let mut l: usize = 0;
    assert(views(dirs@) =~= Seq::<Seq<char>>::empty());
    while l < lines.len()
        invariant
            l <= lines.len(),
            views(dirs@) == first_dirs(lines@, l as nat),
            distinct_texts(dirs@),
            dirs_from_lines(dirs@, lines@, l as int),
            lines_in_dirs(dirs@, lines@, l as int),
        decreases lines.len() - l,
    {
        let ghost old_d = dirs@;
        match maps_line_lib_dir(lines[l].as_str()) {
            Some(d) => {
                proof {
                    assert(maps_line_dir(lines@[l as int]@) == Some(d@));
                }
                add_unique(&mut dirs, d);
                proof {
                    lemma_dirs_step(old_d, dirs@, lines@, l as int);
                }
            },
            None => {
                proof {
                    lemma_dirs_step(old_d, dirs@, lines@, l as int);
                }
            },
        }
        l = l + 1;
    }
    dirs
}

proof fn lemma_dirs_step(old_d: Seq<String>, new_d: Seq<String>, lines: Seq<String>, l: int)
    requires
        0 <= l < lines.len(),
        dirs_from_lines(old_d, lines, l),
        lines_in_dirs(old_d, lines, l),
        maps_line_dir(lines[l]@) is Some ==> (new_d == old_d || new_d == old_d.push(
            new_d.last(),
        )) && holds_text(new_d, maps_line_dir(lines[l]@)->0) && (new_d != old_d ==> new_d.last()@
            == maps_line_dir(lines[l]@)->0),
        maps_line_dir(lines[l]@) is None ==> new_d == old_d,
    ensures
        dirs_from_lines(new_d, lines, l + 1),
        lines_in_dirs(new_d, lines, l + 1),
{
    assert forall|i: int| 0 <= i < new_d.len() implies exists|m: int|
        0 <= m < l + 1 && maps_line_dir(#[trigger] lines[m]@) == Some((#[trigger] new_d[i])@) by {
        if i < old_d.len() {
            assert(new_d[i] == old_d[i]);
            let m = choose|m: int|
                0 <= m < l && maps_line_dir(#[trigger] lines[m]@) == Some(old_d[i]@);
            assert(maps_line_dir(lines[m]@) == Some(new_d[i]@));
        } else {
            assert(maps_line_dir(lines[l]@) == Some(new_d[i]@));
        }
    }
    assert forall|m: int|
        0 <= m < l + 1 && (#[trigger] maps_line_dir(lines[m]@)) is Some implies holds_text(
        new_d,
        maps_line_dir(lines[m]@)->0,
    ) by {
        if m < l {
            let i = choose|i: int|
                0 <= i < old_d.len() && (#[trigger] old_d[i])@ == maps_line_dir(lines[m]@)->0;
            assert(new_d[i] == old_d[i]);
        }
    }
}

/// A number that differs between calls made at different times: the
/// nanoseconds since the Unix epoch, or zero when the clock is set before
/// it.
pub fn unique_id() -> u128 {
    let nanos = match since_unix_epoch(&system_now()) {
        Ok(d) => Some(duration_nanos(&d)),
        Err(_) => None,
    };
    id_from_clock(nanos)
}

/// The id for a clock reading: the nanoseconds since the Unix epoch, or
/// zero when the clock is set before it.
pub fn id_from_clock(nanos_since_epoch: Option<u128>) -> (r: u128)
    ensures
        r == (match nanos_since_epoch {
            Some(n) => n,
            None => 0,
        }),
{
    match nanos_since_epoch {
        Some(n) => n,
        None => 0,
    }
}

#[verifier::external_type_specification]
#[verifier::external_body]
pub struct ExSystemTime(std::time::SystemTime);

#[verifier::external_type_specification]
#[verifier::external_body]
pub struct ExSystemTimeError(std::time::SystemTimeError);

/// Calls `SystemTime::now`; nothing is claimed of the time it reads.
#[verifier::external_body]
fn system_now() -> std::time::SystemTime {
    std::time::SystemTime::now()
}

/// Calls `SystemTime::duration_since` with the Unix epoch; nothing is
/// claimed of the result, which depends on the clock.
#[verifier::external_body]
fn since_unix_epoch(t: &std::time::SystemTime) -> Result<core::time::Duration, std::time::SystemTimeError> {
    t.duration_since(std::time::UNIX_EPOCH)
}

/// Calls `Duration::as_nanos`; the value is not modelled, since a duration
/// is opaque here.
#[verifier::external_body]
fn duration_nanos(d: &core::time::Duration) -> u128 {
    d.as_nanos()
}

} // verus!
