//! What the tool reads from `/proc`: process status, command lines, owners
//! and output files, and the process listing.

use vstd::prelude::*;

use crate::formatting::{push_truncated, truncated};
use crate::rules::StreamKind;
use crate::text::{
    chars_eq, chars_of, copy_range, decode_utf8_lossy, find_char, index_of, join,
    lines, matches_at, next_word, next_word_range, parse_i32, parse_i32_spec, parse_u32,
    parse_u32_spec, push_chars, push_padded, push_signed_decimal, push_str, pad_right,
    signed_decimal, split_lines, starts_with, string_from_chars, trim, trim_chars, utf8_lossy,
    char_vecs_view, strings_view,
};

verus! {

/// A file that holds output of a watched process. `path` is a path.
pub struct AttachSource {
    pub pid: i32,
    pub stream: StreamKind,
    pub path: String,
}

// ---------------------------------------------------------------------------
// /proc/<pid>/status
// ---------------------------------------------------------------------------

/// The uid of a status line `Uid: <real> ...`: the second word, read as a
/// `u32`, when the first word is `Uid:`.
pub open spec fn line_uid(line: Seq<char>) -> Option<u32> {
    match next_word(line) {
        Some((w, rest)) => if w == seq!['U', 'i', 'd', ':'] {
            match next_word(rest) {
                Some((v, _)) => parse_u32_spec(v),
                None => None,
            }
        } else {
            None
        },
        None => None,
    }
}

/// The uid of the first line that gives one.
pub open spec fn uid_in_lines(ls: Seq<Seq<char>>) -> Option<u32>
    decreases ls.len(),
{
    if ls.len() == 0 {
        None
    } else if line_uid(ls[0]) is Some {
        line_uid(ls[0])
    } else {
        uid_in_lines(ls.drop_first())
    }
}

/// The (real) uid that a `/proc/<pid>/status` text gives.
pub open spec fn status_uid(status: Seq<char>) -> Option<u32> {
    uid_in_lines(lines(status))
}

/// The name of a status line `Name:<value>`: the value, trimmed, when the
/// text before the first `:` is exactly `Name`.
pub open spec fn line_name(line: Seq<char>) -> Option<Seq<char>> {
    match index_of(line, ':') {
        Some(i) => if line.take(i as int) == seq!['N', 'a', 'm', 'e'] {
            Some(trim(line.skip(i as int + 1)))
        } else {
            None
        },
        None => None,
    }
}

/// The name of the first line that gives one.
pub open spec fn name_in_lines(ls: Seq<Seq<char>>) -> Option<Seq<char>>
    decreases ls.len(),
{
    if ls.len() == 0 {
        None
    } else if line_name(ls[0]) is Some {
        line_name(ls[0])
    } else {
        name_in_lines(ls.drop_first())
    }
}

/// The process name that a `/proc/<pid>/status` text gives.
pub open spec fn status_name(status: Seq<char>) -> Option<Seq<char>> {
    name_in_lines(lines(status))
}

fn uid_of_line(line: &[char]) -> (r: Option<u32>)
    ensures
        r == line_uid(line@),
{
    assert(line@.skip(0) =~= line@);
    match next_word_range(line, 0) {
        None => None,
        Some((b, e)) => {
            let key = vec!['U', 'i', 'd', ':'];
            let word = copy_range(line, b, e);
            if !chars_eq(word.as_slice(), key.as_slice()) {
                return None;
            }
            match next_word_range(line, e) {
                None => None,
                Some((b2, e2)) => {
                    let value = copy_range(line, b2, e2);
                    parse_u32(value.as_slice())
                },
            }
        },
    }
}

fn name_of_line(line: &[char]) -> (r: Option<Vec<char>>)
    ensures
        match r {
            Some(v) => line_name(line@) == Some(v@),
            None => line_name(line@) is None,
        },
{
    assert(line@.skip(0) =~= line@);
    match find_char(line, 0, ':') {
        None => None,
        Some(i) => {
            proof {
                crate::text::lemma_index_of(line@, ':');
            }
            let key = vec!['N', 'a', 'm', 'e'];
            let head = copy_range(line, 0, i);
            assert(head@ =~= line@.take(i as int));
            if !chars_eq(head.as_slice(), key.as_slice()) {
                return None;
            }
            let rest = copy_range(line, i + 1, line.len());
            assert(rest@ =~= line@.skip(i as int + 1));
            Some(trim_chars(rest.as_slice()))
        },
    }
}

/// The uid in a `/proc/<pid>/status` text.
pub fn extract_uid_from_status(status: &str) -> (r: Option<u32>)
    ensures
        r == status_uid(status@),
{
    let text = chars_of(status);
    let ls = split_lines(text.as_slice());
    let ghost views = char_vecs_view(ls@);
    let mut i: usize = 0;
    assert(views.skip(0) =~= views);
    while i < ls.len()
        invariant
            i <= ls@.len(),
            views == char_vecs_view(ls@),
            views == lines(status@),
            uid_in_lines(views) == uid_in_lines(views.skip(i as int)),
        decreases ls@.len() - i,
    {
        assert(views.skip(i as int)[0] == ls@[i as int]@);
        let r = uid_of_line(ls[i].as_slice());
        if r.is_some() {
            return r;
        }
        assert(views.skip(i as int).drop_first() =~= views.skip(i + 1));
        i = i + 1;
    }
    assert(views.skip(i as int).len() == 0);
    None
}

/// The process name in a `/proc/<pid>/status` text.
pub fn extract_name_from_status(status: &str) -> (r: Option<String>)
    ensures
        match r {
            Some(s) => status_name(status@) == Some(s@),
            None => status_name(status@) is None,
        },
{
    let text = chars_of(status);
    let ls = split_lines(text.as_slice());
    let ghost views = char_vecs_view(ls@);
    let mut i: usize = 0;
    assert(views.skip(0) =~= views);
    while i < ls.len()
        invariant
            i <= ls@.len(),
            views == char_vecs_view(ls@),
            views == lines(status@),
            name_in_lines(views) == name_in_lines(views.skip(i as int)),
        decreases ls@.len() - i,
    {
        assert(views.skip(i as int)[0] == ls@[i as int]@);
        match name_of_line(ls[i].as_slice()) {
            Some(v) => {
                return Some(string_from_chars(&v));
            },
            None => {},
        }
        assert(views.skip(i as int).drop_first() =~= views.skip(i + 1));
        i = i + 1;
    }
    assert(views.skip(i as int).len() == 0);
    None
}

// ---------------------------------------------------------------------------
// Paths of output files
// ---------------------------------------------------------------------------

/// `/proc/self/fd/<rest>`, as the watcher resolved it, stands for
/// `/proc/<rest>`; any other path is kept.
pub open spec fn normalized_proc_path(path: Seq<char>) -> Seq<char> {
    if starts_with(path, "/proc/self/fd/"@) {
        "/proc/"@ + path.skip("/proc/self/fd/"@.len() as int)
    } else {
        path
    }
}

pub fn normalize_proc_path(path: &str) -> (out: String)
    ensures
        out@ == normalized_proc_path(path@),
{
    let p = chars_of(path);
    let prefix = chars_of("/proc/self/fd/");
    assert(p@.skip(0) =~= p@);
    if matches_at(p.as_slice(), 0, prefix.as_slice()) {
        let mut out: Vec<char> = Vec::new();
        push_str(&mut out, "/proc/");
        let rest = copy_range(p.as_slice(), prefix.len(), p.len());
        push_chars(&mut out, rest.as_slice());
        string_from_chars(&out)
    } else {
        string_from_chars(&p)
    }
}

// ---------------------------------------------------------------------------
// /proc/<pid>/cmdline
// ---------------------------------------------------------------------------

/// Position of the first zero byte of `b`, if any.
pub open spec fn index_of_nul(b: Seq<u8>) -> Option<nat>
    decreases b.len(),
{
    if b.len() == 0 {
        None
    } else if b[0] == 0 {
        Some(0)
    } else {
        match index_of_nul(b.drop_first()) {
            Some(i) => Some(i + 1),
            None => None,
        }
    }
}

pub proof fn lemma_index_of_nul(b: Seq<u8>)
    ensures
        match index_of_nul(b) {
            Some(i) => i < b.len() && b[i as int] == 0 && forall|j: int| 0 <= j < i ==> #[trigger] b[j] != 0,
            None => forall|j: int| 0 <= j < b.len() ==> #[trigger] b[j] != 0,
        },
    decreases b.len(),
{
    if b.len() > 0 && b[0] != 0 {
        lemma_index_of_nul(b.drop_first());
        assert forall|j: int| 0 < j < b.len() implies b[j] == b.drop_first()[j - 1] by {}
    }
}

/// The non-empty runs of bytes between zero bytes: the arguments of a
/// `/proc/<pid>/cmdline`.
pub open spec fn nul_fields(b: Seq<u8>) -> Seq<Seq<u8>>
    decreases b.len(),
{
    if b.len() == 0 {
        seq![]
    } else {
        match index_of_nul(b) {
            Some(i) => {
                proof {
                    lemma_index_of_nul(b);
                }
                (if i > 0 {
                    seq![b.take(i as int)]
                } else {
                    Seq::<Seq<u8>>::empty()
                }) + nul_fields(b.skip(i as int + 1))
            },
            None => seq![b],
        }
    }
}

/// The text shown for a process's command line: its arguments, each decoded
/// from UTF-8 with invalid sequences replaced, joined by spaces; or
/// `<no cmdline>` when it has none.
pub open spec fn cmdline_text(b: Seq<u8>) -> Seq<char> {
    if nul_fields(b).len() == 0 {
        "<no cmdline>"@
    } else {
        join(nul_fields(b).map_values(|f: Seq<u8>| utf8_lossy(f)), seq![' '])
    }
}

/// Position of the first zero byte of `b` at or after `from`.
fn find_nul(b: &[u8], from: usize) -> (r: Option<usize>)
    requires
        from <= b@.len(),
    ensures
        r == (match index_of_nul(b@.skip(from as int)) {
            Some(i) => Some((i + from) as usize),
            None => None::<usize>,
        }),
{
    let mut k = from;
    while k < b.len()
        invariant
            from <= k <= b@.len(),
            index_of_nul(b@.skip(from as int)) == (match index_of_nul(b@.skip(k as int)) {
                Some(i) => Some((i + k - from) as nat),
                None => None::<nat>,
            }),
        decreases b@.len() - k,
    {
        if b[k] == 0 {
            return Some(k);
        }
        assert(b@.skip(k as int).drop_first() =~= b@.skip(k + 1));
        k = k + 1;
    }
    None
}

/// The text of a process's command line from the bytes of `/proc/<pid>/cmdline`.
pub fn cmdline_from_bytes(bytes: &[u8]) -> (out: String)
    ensures
        out@ == cmdline_text(bytes@),
{
    let mut parts: Vec<Vec<char>> = Vec::new();
    let ghost decoded = nul_fields(bytes@).map_values(|f: Seq<u8>| utf8_lossy(f));
    let mut i: usize = 0;
    assert(bytes@.skip(0) =~= bytes@);
    while i < bytes.len()
        invariant
            i <= bytes@.len(),
            nul_fields(bytes@).map_values(|f: Seq<u8>| utf8_lossy(f)) == char_vecs_view(parts@)
                + nul_fields(bytes@.skip(i as int)).map_values(|f: Seq<u8>| utf8_lossy(f)),
        decreases bytes@.len() - i,
    {
        let ghost rest = bytes@.skip(i as int);
        let ghost before = parts@;
        let end = match find_nul(bytes, i) {
            Some(j) => j,
            None => bytes.len(),
        };
        proof {
            lemma_index_of_nul(rest);
        }
        if end > i {
            let field = &bytes[i..end];
            assert(field@ =~= rest.take(end - i));
            let text = decode_utf8_lossy(field);
            parts.push(chars_of(text.as_str()));
            assert(char_vecs_view(parts@) =~= char_vecs_view(before).push(utf8_lossy(field@)));
        }
        if end < bytes.len() {
            assert(rest.skip((end - i) + 1) =~= bytes@.skip(end + 1));
            let ghost tail = nul_fields(bytes@.skip(end + 1)).map_values(|f: Seq<u8>| utf8_lossy(f));
            if end > i {
                assert(nul_fields(rest).map_values(|f: Seq<u8>| utf8_lossy(f)) =~= seq![utf8_lossy(rest.take(end - i))] + tail);
            } else {
                assert(nul_fields(rest).map_values(|f: Seq<u8>| utf8_lossy(f)) =~= tail);
            }
            i = end + 1;
        } else {
            assert(nul_fields(rest) =~= seq![rest]);
            assert(rest.take(end - i) =~= rest);
            i = bytes.len();
            assert(bytes@.skip(i as int) =~= Seq::<u8>::empty());
        }
    }
    assert(bytes@.skip(i as int) =~= Seq::<u8>::empty());
    assert(char_vecs_view(parts@) =~= decoded);
    if parts.len() == 0 {
        assert(decoded.len() == nul_fields(bytes@).len());
        let mut out: Vec<char> = Vec::new();
        push_str(&mut out, "<no cmdline>");
        return string_from_chars(&out);
    }
    assert(decoded.len() == nul_fields(bytes@).len());
    let sep = vec![' '];
    assert(sep@ =~= seq![' ']);
    let joined = crate::text::join_char_vecs(&parts, sep.as_slice());
    string_from_chars(&joined)
}

// ---------------------------------------------------------------------------
// Attaching to a process
// ---------------------------------------------------------------------------

/// Why the watcher refuses to attach to a process, or found nothing to read.
#[derive(Clone, Copy, Debug, PartialEq, Eq, Structural)]
pub enum AttachError {
    /// No `/proc/<pid>` exists.
    PidMissing { pid: i32 },
    /// `/proc/<pid>/status` could not be read.
    StatusUnreadable { pid: i32 },
    /// The status names no owner.
    OwnerUnknown { pid: i32 },
    /// Another user owns the process.
    NotOwned { pid: i32 },
    /// Neither stdout nor stderr of the process could be resolved.
    NoOutputSources,
}

/// The text of an attach error.
pub open spec fn attach_error_text(e: AttachError) -> Seq<char> {
    match e {
        AttachError::PidMissing { pid } => "pid "@ + signed_decimal(pid as int)
            + " does not exist"@,
        AttachError::StatusUnreadable { pid } => "failed to read /proc/"@ + signed_decimal(
            pid as int,
        ) + "/status"@,
        AttachError::OwnerUnknown { pid } => "failed to determine owner of pid "@
            + signed_decimal(pid as int),
        AttachError::NotOwned { pid } => "pid "@ + signed_decimal(pid as int)
            + " is not owned by the current user; refusing to attach"@,
        AttachError::NoOutputSources => "no output sources"@,
    }
}

impl AttachError {
    pub fn message(&self) -> (out: String)
        ensures
            out@ == attach_error_text(*self),
    {
        let mut out: Vec<char> = Vec::new();
        match self {
            AttachError::PidMissing { pid } => {
                push_str(&mut out, "pid ");
                push_signed_decimal(&mut out, *pid as i64);
                push_str(&mut out, " does not exist");
            },
            AttachError::StatusUnreadable { pid } => {
                push_str(&mut out, "failed to read /proc/");
                push_signed_decimal(&mut out, *pid as i64);
                push_str(&mut out, "/status");
            },
            AttachError::OwnerUnknown { pid } => {
                push_str(&mut out, "failed to determine owner of pid ");
                push_signed_decimal(&mut out, *pid as i64);
            },
            AttachError::NotOwned { pid } => {
                push_str(&mut out, "pid ");
                push_signed_decimal(&mut out, *pid as i64);
                push_str(&mut out, " is not owned by the current user; refusing to attach");
            },
            AttachError::NoOutputSources => {
                push_str(&mut out, "no output sources");
            },
        }
        string_from_chars(&out)
    }
}

/// Whether the watcher may attach to process `pid`, given whether it
/// exists, its status text (`None` when unreadable) and the current uid.
pub open spec fn owner_check(pid: i32, exists: bool, status: Option<Seq<char>>, uid: u32) -> Result<
    (),
    AttachError,
> {
    if !exists {
        Err(AttachError::PidMissing { pid })
    } else {
        match status {
            None => Err(AttachError::StatusUnreadable { pid }),
            Some(st) => match status_uid(st) {
                None => Err(AttachError::OwnerUnknown { pid }),
                Some(owner) => if owner != uid {
                    Err(AttachError::NotOwned { pid })
                } else {
                    Ok(())
                },
            },
        }
    }
}

/// Checks that process `pid` exists and belongs to the user `uid`.
pub fn check_pid_owner(pid: i32, exists: bool, status: &Option<String>, uid: u32) -> (r: Result<
    (),
    AttachError,
>)
    ensures
        r == owner_check(pid, exists, crate::text::opt_view(*status), uid),
{
    if !exists {
        return Err(AttachError::PidMissing { pid });
    }
    match status {
        None => Err(AttachError::StatusUnreadable { pid }),
        Some(st) => match extract_uid_from_status(st.as_str()) {
            None => Err(AttachError::OwnerUnknown { pid }),
            Some(owner) => {
                if owner != uid {
                    Err(AttachError::NotOwned { pid })
                } else {
                    Ok(())
                }
            },
        },
    }
}

/// The label of a process: its command line when it has one, else the name
/// in its status, else its pid. `None` when a file it needed was unreadable
/// (`cmdline` or `status` is `None`).
pub open spec fn label_of(pid: i32, cmdline: Option<Seq<char>>, status: Option<Seq<char>>) -> Option<
    Seq<char>,
> {
    match cmdline {
        None => None,
        Some(c) => if c != "<no cmdline>"@ {
            Some(c)
        } else {
            match status {
                None => None,
                Some(st) => match status_name(st) {
                    Some(n) => Some(n),
                    None => Some(signed_decimal(pid as int)),
                },
            }
        },
    }
}

pub fn process_label(pid: i32, cmdline: Option<String>, status: Option<String>) -> (r: Option<String>)
    ensures
        crate::text::opt_view(r) == label_of(pid, crate::text::opt_view(cmdline), crate::text::opt_view(status)),
{
    match cmdline {
        None => None,
        Some(c) => {
            let cc = chars_of(c.as_str());
            let none = chars_of("<no cmdline>");
            if !chars_eq(cc.as_slice(), none.as_slice()) {
                return Some(c);
            }
            match status {
                None => None,
                Some(st) => match extract_name_from_status(st.as_str()) {
                    Some(n) => Some(n),
                    None => {
                        let mut out: Vec<char> = Vec::new();
                        push_signed_decimal(&mut out, pid as i64);
                        Some(string_from_chars(&out))
                    },
                },
            }
        },
    }
}

/// `Err(NoOutputSources)` exactly when none of the output links of the
/// process could be read.
pub fn sources_were_unavailable(link_readable: &[bool]) -> (r: Result<(), AttachError>)
    ensures
        r is Ok <==> exists|i: int| 0 <= i < link_readable@.len() && #[trigger] link_readable@[i],
        r is Err ==> r == Err::<(), AttachError>(AttachError::NoOutputSources),
{
    let mut i: usize = 0;
    while i < link_readable.len()
        invariant
            i <= link_readable@.len(),
            forall|k: int| 0 <= k < i ==> !#[trigger] link_readable@[k],
        decreases link_readable@.len() - i,
    {
        if link_readable[i] {
            return Ok(());
        }
        i = i + 1;
    }
    Err(AttachError::NoOutputSources)
}

/// The sources to follow: the given log file alone, as merged output;
/// otherwise the candidate files (regular files the process's stdout and
/// stderr resolve to), each path once, the first stream that names it kept.
pub open spec fn attach_sources(
    pid: i32,
    log_file: Option<Seq<char>>,
    candidates: Seq<(StreamKind, Seq<char>)>,
) -> Seq<(StreamKind, Seq<char>)> {
    match log_file {
        Some(p) => seq![(StreamKind::Combined, p)],
        None => first_per_path(candidates),
    }
}

/// The candidates whose path no earlier candidate has.
pub open spec fn first_per_path(c: Seq<(StreamKind, Seq<char>)>) -> Seq<(StreamKind, Seq<char>)>
    decreases c.len(),
{
    if c.len() == 0 {
        seq![]
    } else {
        let init = first_per_path(c.drop_last());
        if exists|i: int| 0 <= i < c.len() - 1 && #[trigger] c[i].1 == c.last().1 {
            init
        } else {
            init.push(c.last())
        }
    }
}

/// The stream and path of each source.
pub open spec fn sources_view(s: Seq<AttachSource>) -> Seq<(StreamKind, Seq<char>)> {
    s.map_values(|a: AttachSource| (a.stream, a.path@))
}

/// The candidate streams and paths.
pub open spec fn candidates_view(c: Seq<(StreamKind, String)>) -> Seq<(StreamKind, Seq<char>)> {
    c.map_values(|a: (StreamKind, String)| (a.0, a.1@))
}

/// Every candidate path is followed, and only candidate paths are.
pub proof fn law_sources_cover_candidates(c: Seq<(StreamKind, Seq<char>)>, p: Seq<char>)
    ensures
        (exists|i: int| 0 <= i < first_per_path(c).len() && #[trigger] first_per_path(c)[i].1 == p)
            <==> (exists|i: int| 0 <= i < c.len() && #[trigger] c[i].1 == p),
    decreases c.len(),
{
    if c.len() > 0 {
        let d = c.drop_last();
        law_sources_cover_candidates(d, p);
        let init = first_per_path(d);
        let out = first_per_path(c);
        let dup = exists|j: int| 0 <= j < c.len() - 1 && #[trigger] c[j].1 == c.last().1;
        assert(dup ==> out == init);
        assert(!dup ==> out == init.push(c.last()));
        assert(forall|i: int| 0 <= i < init.len() ==> #[trigger] out[i] == init[i]);
        if exists|i: int| 0 <= i < c.len() && #[trigger] c[i].1 == p {
            let i = choose|i: int| 0 <= i < c.len() && #[trigger] c[i].1 == p;
            let in_d = if i < c.len() - 1 {
                true
            } else {
                dup
            };
            if i < c.len() - 1 {
                assert(d[i].1 == p);
            } else if dup {
                let j = choose|j: int| 0 <= j < c.len() - 1 && #[trigger] c[j].1 == c.last().1;
                assert(d[j].1 == p);
            }
            if in_d {
                let k = choose|k: int| 0 <= k < init.len() && #[trigger] init[k].1 == p;
                assert(out[k].1 == p);
            } else {
                assert(out[init.len() as int].1 == p);
            }
        }
        if exists|i: int| 0 <= i < out.len() && #[trigger] out[i].1 == p {
            let i = choose|i: int| 0 <= i < out.len() && #[trigger] out[i].1 == p;
            if i < init.len() {
                assert(init[i].1 == p);
                let j = choose|j: int| 0 <= j < d.len() && #[trigger] d[j].1 == p;
                assert(c[j].1 == p);
            } else {
                assert(c[c.len() - 1].1 == p);
            }
        }
    }
}

pub fn plan_attach_sources(
    pid: i32,
    log_file: Option<String>,
    candidates: Vec<(StreamKind, String)>,
) -> (out: Vec<AttachSource>)
    ensures
        sources_view(out@) == attach_sources(
            pid,
            crate::text::opt_view(log_file),
            candidates_view(candidates@),
        ),
        forall|i: int| 0 <= i < out@.len() ==> #[trigger] out@[i].pid == pid,
{
    match log_file {
        Some(path) => {
            let out = vec![AttachSource { pid, stream: StreamKind::Combined, path }];
            assert(sources_view(out@) =~= seq![(StreamKind::Combined, out@[0].path@)]);
            out
        },
        None => {
            let ghost cv = candidates_view(candidates@);
            let mut out: Vec<AttachSource> = Vec::new();
            let mut i: usize = 0;
            while i < candidates.len()
                invariant
                    i <= candidates@.len(),
                    cv == candidates_view(candidates@),
                    sources_view(out@) == first_per_path(cv.take(i as int)),
                    forall|k: int| 0 <= k < out@.len() ==> #[trigger] out@[k].pid == pid,
                decreases candidates@.len() - i,
            {
                let (stream, path) = (candidates[i].0, &candidates[i].1);
                let ghost pre = cv.take(i as int);
                assert(cv.take(i + 1).drop_last() =~= pre);
                assert(cv.take(i + 1).last() == cv[i as int]);
                let mut seen = false;
                let mut k: usize = 0;
                while k < out.len()
                    invariant
                        k <= out@.len(),
                        !seen ==> forall|t: int| 0 <= t < k ==> #[trigger] out@[t].path@ != path@,
                        seen ==> exists|t: int| 0 <= t < out@.len() && #[trigger] out@[t].path@ == path@,
                    decreases out@.len() - k,
                {
                    if out[k].path.eq(path) {
                        seen = true;
                    }
                    k = k + 1;
                }
                proof {
                    law_sources_cover_candidates(pre, path@);
                    let sv = sources_view(out@);
                    if seen {
                        let t = choose|t: int| 0 <= t < out@.len() && #[trigger] out@[t].path@ == path@;
                        assert(sv[t].1 == path@);
                        let j = choose|j: int| 0 <= j < pre.len() && #[trigger] pre[j].1 == path@;
                        assert(cv.take(i + 1)[j].1 == cv.take(i + 1).last().1);
                    } else {
                        if exists|j: int| 0 <= j < pre.len() && #[trigger] pre[j].1 == path@ {
                            let t = choose|t: int| 0 <= t < sv.len() && #[trigger] sv[t].1 == path@;
                            assert(out@[t].path@ == path@);
                        }
                        assert(!exists|j: int| 0 <= j < cv.take(i + 1).len() - 1 && #[trigger] cv.take(i + 1)[j].1 == cv.take(i + 1).last().1) by {
                            if exists|j: int| 0 <= j < cv.take(i + 1).len() - 1 && #[trigger] cv.take(i + 1)[j].1 == cv.take(i + 1).last().1 {
                                let j = choose|j: int| 0 <= j < cv.take(i + 1).len() - 1 && #[trigger] cv.take(i + 1)[j].1 == cv.take(i + 1).last().1;
                                assert(pre[j].1 == path@);
                            }
                        }
                    }
                }
                if !seen {
                    let ghost before = out@;
                    out.push(AttachSource { pid, stream, path: path.clone() });
                    assert(sources_view(out@) =~= sources_view(before).push((stream, path@)));
                }
                i = i + 1;
            }
            assert(cv.take(i as int) =~= cv);
            out
        },
    }
}

// ---------------------------------------------------------------------------
// Process listing
// ---------------------------------------------------------------------------

/// A `/proc` entry name read as a pid (`str::parse::<i32>`).
pub fn parse_pid(name: &str) -> (r: Option<i32>)
    ensures
        r == parse_i32_spec(name@),
{
    let cs = chars_of(name);
    parse_i32(cs.as_slice())
}

/// One process of the listing.
pub struct ProcessRow {
    pub pid: i32,
    pub name: String,
    pub command: String,
}

/// The listing row of process `pid`, when it belongs to the user `uid`:
/// its status name (or `<unknown>`) and its command line (or `<no cmdline>`
/// when that was unreadable).
pub fn process_row(pid: i32, status: &str, uid: u32, cmdline: Option<String>) -> (r: Option<
    ProcessRow,
>)
    ensures
        r is Some <==> status_uid(status@) == Some(uid),
        r matches Some(row) ==> row.pid == pid && row.name@ == (match status_name(status@) {
            Some(n) => n,
            None => "<unknown>"@,
        }) && row.command@ == (match cmdline {
            Some(c) => c@,
            None => "<no cmdline>"@,
        }),
{
    match extract_uid_from_status(status) {
        Some(owner) => {
            if owner != uid {
                return None;
            }
        },
        None => {
            return None;
        },
    }
    let name = match extract_name_from_status(status) {
        Some(n) => n,
        None => {
            let mut v: Vec<char> = Vec::new();
            push_str(&mut v, "<unknown>");
            string_from_chars(&v)
        },
    };
    let command = match cmdline {
        Some(c) => c,
        None => {
            let mut v: Vec<char> = Vec::new();
            push_str(&mut v, "<no cmdline>");
            string_from_chars(&v)
        },
    };
    Some(ProcessRow { pid, name, command })
}

/// `sorted` with `r` put after every row whose pid is not greater.
pub open spec fn insert_by_pid(sorted: Seq<ProcessRow>, r: ProcessRow) -> Seq<ProcessRow>
    decreases sorted.len(),
{
    if sorted.len() == 0 || sorted.last().pid <= r.pid {
        sorted.push(r)
    } else {
        insert_by_pid(sorted.drop_last(), r).push(sorted.last())
    }
}

/// The rows stably sorted by pid (as `sort_by_key` sorts them).
pub open spec fn sort_by_pid(rows: Seq<ProcessRow>) -> Seq<ProcessRow>
    decreases rows.len(),
{
    if rows.len() == 0 {
        seq![]
    } else {
        insert_by_pid(sort_by_pid(rows.drop_last()), rows.last())
    }
}

/// Rows in order of their pids.
pub open spec fn pid_sorted(rows: Seq<ProcessRow>) -> bool {
    forall|i: int, j: int| 0 <= i <= j < rows.len() ==> rows[i].pid <= rows[j].pid
}

/// Inserting at position `p`, after the rows with a pid not greater and
/// before the others, is `insert_by_pid`.
proof fn lemma_insert_at(sorted: Seq<ProcessRow>, r: ProcessRow, p: int)
    requires
        0 <= p <= sorted.len(),
        p > 0 ==> sorted[p - 1].pid <= r.pid,
        forall|q: int| p <= q < sorted.len() ==> #[trigger] sorted[q].pid > r.pid,
    ensures
        insert_by_pid(sorted, r) == sorted.take(p).push(r) + sorted.skip(p),
    decreases sorted.len(),
{
    if p == sorted.len() {
        assert(sorted.take(p) =~= sorted);
        assert(sorted.take(p).push(r) + sorted.skip(p) =~= sorted.push(r));
    } else {
        let d = sorted.drop_last();
        assert(sorted.last().pid > r.pid);
        assert forall|q: int| p <= q < d.len() implies #[trigger] d[q].pid > r.pid by {
            assert(d[q] == sorted[q]);
        }
        lemma_insert_at(d, r, p);
        assert(d.take(p) =~= sorted.take(p));
        assert(sorted.take(p).push(r) + sorted.skip(p) =~= (d.take(p).push(r) + d.skip(p)).push(
            sorted.last(),
        ));
    }
}

/// Row `r` inserted into the pid-sorted `sorted`.
fn insert_row(sorted: &mut Vec<ProcessRow>, r: ProcessRow)
    ensures
        final(sorted)@ == insert_by_pid(old(sorted)@, r),
{
    let mut p = sorted.len();
    while p > 0 && sorted[p - 1].pid > r.pid
        invariant
            p <= sorted@.len(),
            forall|q: int| p <= q < sorted@.len() ==> #[trigger] sorted@[q].pid > r.pid,
        decreases p,
    {
        p = p - 1;
    }
    proof {
        lemma_insert_at(sorted@, r, p as int);
    }
    let ghost before = sorted@;
    sorted.insert(p, r);
    assert(sorted@ =~= before.take(p as int).push(r) + before.skip(p as int));
}

/// The rows stably sorted by pid.
pub fn sort_rows_by_pid(rows: Vec<ProcessRow>) -> (out: Vec<ProcessRow>)
    ensures
        out@ == sort_by_pid(rows@),
{
    let ghost all = rows@;
    let mut out: Vec<ProcessRow> = Vec::new();
    let mut rest = rows;
    let n = rest.len();
    assert(rows@.take(0) =~= Seq::<ProcessRow>::empty());
    assert(all.skip(0) =~= all);
    let mut i: usize = 0;
    while rest.len() > 0
        invariant
            i <= all.len(),
            all.len() == n,
            rest@ == all.skip(i as int),
            out@ == sort_by_pid(all.take(i as int)),
        decreases rest@.len(),
    {
        let r = rest.remove(0);
        assert(r == all[i as int]);
        assert(all.take(i + 1).drop_last() =~= all.take(i as int));
        assert(rest@ =~= all.skip(i + 1));
        insert_row(&mut out, r);
        i = i + 1;
    }
    assert(all.take(i as int) =~= all);
    out
}

/// The header line of the process listing.
pub open spec fn table_header() -> Seq<char> {
    pad_right("PID"@, 8) + seq![' '] + pad_right("NAME"@, 24) + " COMMAND"@
}

/// The listing line of one process: pid and name padded to columns, the
/// name cut to 24 characters and the command to 120.
pub open spec fn row_line(r: ProcessRow) -> Seq<char> {
    pad_right(signed_decimal(r.pid as int), 8) + seq![' '] + pad_right(truncated(r.name@, 24), 24)
        + seq![' '] + truncated(r.command@, 120)
}

fn format_row(r: &ProcessRow) -> (out: String)
    ensures
        out@ == row_line(*r),
{
    let mut pid: Vec<char> = Vec::new();
    push_signed_decimal(&mut pid, r.pid as i64);
    let mut name: Vec<char> = Vec::new();
    let name_chars = chars_of(r.name.as_str());
    push_truncated(&mut name, name_chars.as_slice(), 24);
    assert(name@ =~= truncated(r.name@, 24));
    let mut out: Vec<char> = Vec::new();
    push_padded(&mut out, pid.as_slice(), 8);
    out.push(' ');
    push_padded(&mut out, name.as_slice(), 24);
    out.push(' ');
    let command = chars_of(r.command.as_str());
    push_truncated(&mut out, command.as_slice(), 120);
    assert(out@ =~= row_line(*r));
    string_from_chars(&out)
}

/// The process listing: the header, then one line per process in order of pid.
pub fn process_table(rows: Vec<ProcessRow>) -> (out: Vec<String>)
    ensures
        strings_view(out@) == seq![table_header()] + sort_by_pid(rows@).map_values(
            |r: ProcessRow| row_line(r),
        ),
{
    let sorted = sort_rows_by_pid(rows);
    let mut header: Vec<char> = Vec::new();
    let pid_label = chars_of("PID");
    let name_label = chars_of("NAME");
    push_padded(&mut header, pid_label.as_slice(), 8);
    header.push(' ');
    push_padded(&mut header, name_label.as_slice(), 24);
    push_str(&mut header, " COMMAND");
    assert(header@ =~= table_header());
    let mut out: Vec<String> = vec![string_from_chars(&header)];
    let ghost want = sorted@.map_values(|r: ProcessRow| row_line(r));
    let mut i: usize = 0;
    while i < sorted.len()
        invariant
            i <= sorted@.len(),
            want == sorted@.map_values(|r: ProcessRow| row_line(r)),
            strings_view(out@) == seq![table_header()] + want.take(i as int),
        decreases sorted@.len() - i,
    {
        let ghost before = out@;
        out.push(format_row(&sorted[i]));
        assert(strings_view(out@) =~= strings_view(before).push(row_line(sorted@[i as int])));
        assert(want.take(i + 1) =~= want.take(i as int).push(want[i as int]));
        i = i + 1;
    }
    assert(want.take(i as int) =~= want);
    out
}

/// Inserting keeps the rows in pid order and adds exactly the new row.
proof fn lemma_insert_by_pid(sorted: Seq<ProcessRow>, r: ProcessRow)
    requires
        pid_sorted(sorted),
    ensures
        pid_sorted(insert_by_pid(sorted, r)),
        insert_by_pid(sorted, r).to_multiset() == sorted.to_multiset().insert(r),
    decreases sorted.len(),
{
    broadcast use vstd::seq_lib::group_to_multiset_ensures;

    if sorted.len() == 0 || sorted.last().pid <= r.pid {
    } else {
        let d = sorted.drop_last();
        lemma_insert_by_pid(d, r);
        let t = insert_by_pid(d, r);
        assert(sorted =~= d.push(sorted.last()));
        assert forall|i: int| 0 <= i < t.len() implies #[trigger] t[i].pid <= sorted.last().pid by {
            assert(t.to_multiset().count(t[i]) > 0);
            assert(t.contains(t[i]));
            if t[i] != r {
                assert(d.to_multiset().count(t[i]) > 0);
                assert(d.contains(t[i]));
                let j = choose|j: int| 0 <= j < d.len() && d[j] == t[i];
                assert(sorted[j] == t[i]);
            }
        }
        assert(t.push(sorted.last()).to_multiset() =~= t.to_multiset().insert(sorted.last()));
        assert(sorted.to_multiset() =~= d.to_multiset().insert(sorted.last()));
    }
}

/// Sorting by pid puts the rows in pid order and keeps every row, as many
/// times as it occurs.
pub proof fn law_sort_by_pid(rows: Seq<ProcessRow>)
    ensures
        pid_sorted(sort_by_pid(rows)),
        sort_by_pid(rows).to_multiset() == rows.to_multiset(),
    decreases rows.len(),
{
    broadcast use vstd::seq_lib::group_to_multiset_ensures;

    if rows.len() > 0 {
        law_sort_by_pid(rows.drop_last());
        lemma_insert_by_pid(sort_by_pid(rows.drop_last()), rows.last());
        assert(rows =~= rows.drop_last().push(rows.last()));
    } else {
        assert(sort_by_pid(rows) =~= rows);
    }
}

/// No path is followed twice.
pub proof fn law_sources_distinct(c: Seq<(StreamKind, Seq<char>)>)
    ensures
        forall|i: int, j: int|
            0 <= i < j < first_per_path(c).len() ==> first_per_path(c)[i].1 != first_per_path(c)[j].1,
    decreases c.len(),
{
    if c.len() > 0 {
        let d = c.drop_last();
        law_sources_distinct(d);
        let init = first_per_path(d);
        let out = first_per_path(c);
        let dup = exists|j: int| 0 <= j < c.len() - 1 && #[trigger] c[j].1 == c.last().1;
        if !dup {
            law_sources_cover_candidates(d, c.last().1);
            assert forall|i: int, j: int| 0 <= i < j < out.len() implies out[i].1 != out[j].1 by {
                if j == out.len() - 1 && i < init.len() {
                    if out[i].1 == out[j].1 {
                        assert(init[i].1 == c.last().1);
                        let k = choose|k: int| 0 <= k < d.len() && #[trigger] d[k].1 == c.last().1;
                        assert(c[k].1 == c.last().1);
                    }
                } else {
                    assert(out[i] == init[i]);
                    assert(out[j] == init[j]);
                }
            }
        }
    }
}

} // verus!
