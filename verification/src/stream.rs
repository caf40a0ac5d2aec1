//! Turning chunks of raw output into lines: terminal output of a watched
//! command, and log files that a watched process appends to.

use vstd::prelude::*;

use crate::formatting::strip_ansi;
use crate::pattern::{ansi_escape_source, ansi_pattern, regex_compiles, regex_replace_all, CompiledPattern};
use crate::text::{
    lemma_replace_char_removes, lemma_trim_facts,
    char_vecs_view, chars_of, copy_range, decode_utf8_lossy, find_char, index_of, lemma_index_of,
    opt_view, push_chars, replace, replace_chars, string_from_chars, strings_view, trim,
    trim_chars, trim_end_char, trim_end_char_to, utf8_lossy,
};

verus! {

/// The complete lines of `s` (each ended by a `\n`, which is not part of
/// the line) and what follows the last `\n`.
pub open spec fn complete_lines(s: Seq<char>) -> (Seq<Seq<char>>, Seq<char>)
    decreases s.len(),
{
    match index_of(s, '\n') {
        Some(i) => {
            proof {
                lemma_index_of(s, '\n');
            }
            let (ls, rest) = complete_lines(s.skip(i as int + 1));
            (seq![s.take(i as int)] + ls, rest)
        },
        None => (seq![], s),
    }
}

/// The lines, each followed by a `\n`.
pub open spec fn with_newlines(ls: Seq<Seq<char>>) -> Seq<char>
    decreases ls.len(),
{
    if ls.len() == 0 {
        seq![]
    } else {
        ls[0] + seq!['\n'] + with_newlines(ls.drop_first())
    }
}

/// Splitting into complete lines loses and adds nothing: the lines, each
/// with its `\n`, followed by the rest, are the text; no line and not the
/// rest holds a `\n`.
pub proof fn law_complete_lines(s: Seq<char>)
    ensures
        with_newlines(complete_lines(s).0) + complete_lines(s).1 == s,
        !complete_lines(s).1.contains('\n'),
        forall|k: int|
            0 <= k < complete_lines(s).0.len() ==> !(#[trigger] complete_lines(s).0[k]).contains('\n'),
    decreases s.len(),
{
    lemma_index_of(s, '\n');
    match index_of(s, '\n') {
        Some(i) => {
            let t = s.skip(i as int + 1);
            law_complete_lines(t);
            let (ls, rest) = complete_lines(t);
            let all = seq![s.take(i as int)] + ls;
            assert(all.drop_first() =~= ls);
            assert(with_newlines(all) + rest =~= s.take(i as int) + seq!['\n'] + (with_newlines(ls)
                + rest));
            assert(s =~= s.take(i as int) + seq!['\n'] + t);
            assert forall|k: int| 0 <= k < all.len() implies !(#[trigger] all[k]).contains('\n') by {
                if k == 0 {
                    if all[0].contains('\n') {
                        let j = choose|j: int| 0 <= j < all[0].len() && all[0][j] == '\n';
                        assert(s[j] == '\n');
                    }
                } else {
                    assert(all[k] == ls[k - 1]);
                }
            }
        },
        None => {
            assert(with_newlines(Seq::<Seq<char>>::empty()) + s =~= s);
        },
    }
}

/// Splits `text` into its complete lines and what follows the last `\n`.
fn split_complete_lines(text: &Vec<char>) -> (r: (Vec<Vec<char>>, Vec<char>))
    ensures
        (char_vecs_view(r.0@), r.1@) == complete_lines(text@),
{
    let ghost s = text@;
    let n = text.len();
    let mut lines: Vec<Vec<char>> = Vec::new();
    let mut i: usize = 0;
    assert(s.skip(0) =~= s);
    loop
        invariant
            i <= s.len(),
            n == s.len(),
            text@ == s,
            complete_lines(s) == (char_vecs_view(lines@) + complete_lines(s.skip(i as int)).0,
                complete_lines(s.skip(i as int)).1),
        decreases s.len() - i,
    {
        let ghost rest = s.skip(i as int);
        proof {
            lemma_index_of(rest, '\n');
        }
        match find_char(text.as_slice(), i, '\n') {
            Some(j) => {
                let line = copy_range(text.as_slice(), i, j);
                assert(line@ =~= rest.take((j - i) as int));
                assert(rest.skip((j - i) + 1) =~= s.skip(j + 1));
                let ghost before = lines@;
                lines.push(line);
                assert(char_vecs_view(lines@) =~= char_vecs_view(before).push(line@));
                let ghost inner = complete_lines(s.skip(j + 1));
                assert(complete_lines(rest).0 =~= seq![line@] + inner.0);
                assert(char_vecs_view(lines@) + inner.0 =~= char_vecs_view(before) + (seq![line@]
                    + inner.0));
                i = j + 1;
            },
            None => {
                let tail = copy_range(text.as_slice(), i, text.len());
                assert(tail@ =~= rest);
                assert(complete_lines(rest) == (Seq::<Seq<char>>::empty(), rest));
                assert(char_vecs_view(lines@) + Seq::<Seq<char>>::empty() =~= char_vecs_view(lines@));
                return (lines, tail);
            },
        }
    }
}

// ---------------------------------------------------------------------------
// Terminal output
// ---------------------------------------------------------------------------

/// A chunk of terminal output as text: decoded, control sequences removed,
/// carriage returns turned into line breaks.
pub open spec fn cleaned_chunk(bytes: Seq<u8>) -> Seq<char> {
    replace(regex_replace_all(ansi_escape_source(), utf8_lossy(bytes), ""@), seq!['\r'], seq!['\n'])
}

/// The lines that terminal output yields: each trimmed, empty ones dropped.
pub open spec fn terminal_lines(ls: Seq<Seq<char>>) -> Seq<Seq<char>>
    decreases ls.len(),
{
    if ls.len() == 0 {
        seq![]
    } else {
        (if trim(ls[0]).len() > 0 {
            seq![trim(ls[0])]
        } else {
            Seq::<Seq<char>>::empty()
        }) + terminal_lines(ls.drop_first())
    }
}

/// Terminal output not yet ended by a line break, with the pattern that
/// strips control sequences from it.
pub struct PtyLineBuffer {
    ansi: CompiledPattern,
    carry: Vec<char>,
}

impl PtyLineBuffer {
    /// The output received since the last line break.
    pub closed spec fn pending(&self) -> Seq<char> {
        self.carry@
    }

    /// The buffer strips ANSI control sequences, and holds no carriage return.
    pub closed spec fn wf(&self) -> bool {
        self.ansi@ == ansi_escape_source() && !self.carry@.contains('\r')
    }

    /// An empty buffer; `None` when the control sequence pattern does not
    /// compile.
    pub fn new() -> (r: Option<Self>)
        ensures
            r is Some <==> regex_compiles(ansi_escape_source()),
            r matches Some(b) ==> b.wf() && b.pending() == Seq::<char>::empty(),
    {
        match ansi_pattern() {
            Some(ansi) => Some(PtyLineBuffer { ansi, carry: Vec::new() }),
            None => None,
        }
    }

    /// Adds a chunk of raw terminal output and returns the lines it
    /// completes.
    pub fn push_chunk(&mut self, bytes: &[u8]) -> (lines: Vec<String>)
        requires
            old(self).wf(),
        ensures
            final(self).wf(),
            !final(self).pending().contains('\r'),
            ({
                let (ls, rest) = complete_lines(old(self).pending() + cleaned_chunk(bytes@));
                &&& strings_view(lines@) == terminal_lines(ls)
                &&& final(self).pending() == rest
            }),
    {
        proof {
            law_terminal_lines_clean(self.carry@, bytes@);
        }
        let decoded = decode_utf8_lossy(bytes);
        let stripped = strip_ansi(&self.ansi, decoded.as_str());
        let chars = chars_of(stripped.as_str());
        let cr = vec!['\r'];
        let nl = vec!['\n'];
        assert(cr@ =~= seq!['\r']);
        assert(nl@ =~= seq!['\n']);
        let cleaned = replace_chars(chars.as_slice(), cr.as_slice(), nl.as_slice());
        assert(cleaned@ =~= cleaned_chunk(bytes@));
        let mut text = self.carry.clone();
        push_chars(&mut text, cleaned.as_slice());
        let (raw, rest) = split_complete_lines(&text);
        self.carry = rest;
        let ghost ls = char_vecs_view(raw@);
        let mut lines: Vec<String> = Vec::new();
        let mut k: usize = 0;
        assert(ls.skip(0) =~= ls);
        while k < raw.len()
            invariant
                k <= raw@.len(),
                ls == char_vecs_view(raw@),
                terminal_lines(ls) == strings_view(lines@) + terminal_lines(ls.skip(k as int)),
            decreases raw@.len() - k,
        {
            let t = trim_chars(raw[k].as_slice());
            assert(ls.skip(k as int)[0] == raw@[k as int]@);
            assert(ls.skip(k as int).drop_first() =~= ls.skip(k + 1));
            if t.len() > 0 {
                let ghost before = lines@;
                lines.push(string_from_chars(&t));
                assert(strings_view(lines@) =~= strings_view(before).push(t@));
                assert(strings_view(lines@) + terminal_lines(ls.skip(k + 1)) =~= strings_view(
                    before,
                ) + (seq![t@] + terminal_lines(ls.skip(k + 1))));
            } else {
                assert(Seq::<Seq<char>>::empty() + terminal_lines(ls.skip(k + 1)) =~= terminal_lines(
                    ls.skip(k + 1),
                ));
            }
            k = k + 1;
        }
        assert(ls.skip(k as int) =~= Seq::<Seq<char>>::empty());
        assert(strings_view(lines@) + Seq::<Seq<char>>::empty() =~= strings_view(lines@));
        lines
    }

    /// The last line of terminal output, once the output has ended: what is
    /// pending, trimmed, unless that is empty.
    pub fn finish(&self) -> (line: Option<String>)
        ensures
            opt_view(line) == if trim(self.pending()).len() > 0 {
                Some(trim(self.pending()))
            } else {
                None
            },
    {
        let t = trim_chars(self.carry.as_slice());
        if t.len() > 0 {
            Some(string_from_chars(&t))
        } else {
            None
        }
    }
}

// ---------------------------------------------------------------------------
// Log files
// ---------------------------------------------------------------------------

/// The lines that a log file yields: each without its trailing `\r`s.
pub open spec fn log_lines(ls: Seq<Seq<char>>) -> Seq<Seq<char>> {
    ls.map_values(|l: Seq<char>| trim_end_char(l, '\r'))
}

/// The read position in a log file being followed, and the text read after
/// its last line break.
pub struct FileTail {
    offset: u64,
    carry: Vec<char>,
}

impl FileTail {
    /// The byte offset up to which the file has been read.
    pub closed spec fn position(&self) -> u64 {
        self.offset
    }

    /// The text read since the last line break.
    pub closed spec fn pending(&self) -> Seq<char> {
        self.carry@
    }

    /// Starts following a file of `current_len` bytes, from its end or from
    /// its start.
    pub fn new(start_at_end: bool, current_len: u64) -> (t: Self)
        ensures
            t.position() == if start_at_end {
                current_len
            } else {
                0
            },
            t.pending() == Seq::<char>::empty(),
    {
        FileTail { offset: if start_at_end {
            current_len
        } else {
            0
        }, carry: Vec::new() }
    }

    /// Decides what to read now that the file has `current_len` bytes: a
    /// file that shrank was replaced, so following starts over from its
    /// start; the bytes past the position, if any, are to be read as
    /// `(start, count)`.
    pub fn next_read(&mut self, current_len: u64) -> (r: Option<(u64, u64)>)
        ensures
            current_len < old(self).position() ==> final(self).position() == 0
                && final(self).pending() == Seq::<char>::empty(),
            current_len >= old(self).position() ==> final(self).position() == old(self).position()
                && final(self).pending() == old(self).pending(),
            r == if current_len > final(self).position() {
                Some((final(self).position(), (current_len - final(self).position()) as u64))
            } else {
                None::<(u64, u64)>
            },
    {
        if current_len < self.offset {
            self.offset = 0;
            self.carry = Vec::new();
        }
        if current_len > self.offset {
            Some((self.offset, current_len - self.offset))
        } else {
            None
        }
    }

    /// Takes the bytes read up to offset `end` and returns the lines they
    /// complete.
    pub fn accept(&mut self, end: u64, bytes: &[u8]) -> (lines: Vec<String>)
        ensures
            final(self).position() == end,
            ({
                let (ls, rest) = complete_lines(old(self).pending() + utf8_lossy(bytes@));
                &&& strings_view(lines@) == log_lines(ls)
                &&& final(self).pending() == rest
            }),
    {
        self.offset = end;
        let decoded = decode_utf8_lossy(bytes);
        let chars = chars_of(decoded.as_str());
        let mut text = self.carry.clone();
        push_chars(&mut text, chars.as_slice());
        let (raw, rest) = split_complete_lines(&text);
        self.carry = rest;
        let ghost ls = char_vecs_view(raw@);
        let ghost want = log_lines(ls);
        let mut lines: Vec<String> = Vec::new();
        let mut k: usize = 0;
        while k < raw.len()
            invariant
                k <= raw@.len(),
                ls == char_vecs_view(raw@),
                want == log_lines(ls),
                strings_view(lines@) == want.take(k as int),
            decreases raw@.len() - k,
        {
            let end_k = trim_end_char_to(raw[k].as_slice(), raw[k].len(), '\r');
            assert(raw@[k as int]@.take(raw@[k as int]@.len() as int) =~= raw@[k as int]@);
            let t = copy_range(raw[k].as_slice(), 0, end_k);
            assert(t@ =~= raw@[k as int]@.take(end_k as int));
            let ghost before = lines@;
            lines.push(string_from_chars(&t));
            assert(strings_view(lines@) =~= strings_view(before).push(want[k as int]));
            assert(want.take(k + 1) =~= want.take(k as int).push(want[k as int]));
            k = k + 1;
        }
        assert(want.take(k as int) =~= want);
        lines
    }

    /// The last line of a followed file once its process has ended: what is
    /// pending without trailing `\r`s, unless that is empty.
    pub fn finish(&self) -> (line: Option<String>)
        ensures
            opt_view(line) == if trim_end_char(self.pending(), '\r').len() > 0 {
                Some(trim_end_char(self.pending(), '\r'))
            } else {
                None
            },
    {
        let end = trim_end_char_to(self.carry.as_slice(), self.carry.len(), '\r');
        assert(self.carry@.take(self.carry@.len() as int) =~= self.carry@);
        if end > 0 {
            let t = copy_range(self.carry.as_slice(), 0, end);
            assert(t@ =~= self.carry@.take(end as int));
            Some(string_from_chars(&t))
        } else {
            None
        }
    }
}

/// What `complete_lines` yields is made of pieces of its text.
proof fn lemma_complete_lines_pieces(s: Seq<char>, c: char)
    requires
        !s.contains(c),
    ensures
        !complete_lines(s).1.contains(c),
        forall|k: int|
            0 <= k < complete_lines(s).0.len() ==> !(#[trigger] complete_lines(s).0[k]).contains(c),
    decreases s.len(),
{
    lemma_index_of(s, '\n');
    match index_of(s, '\n') {
        Some(i) => {
            let t = s.skip(i as int + 1);
            assert(!t.contains(c)) by {
                if t.contains(c) {
                    let j = choose|j: int| 0 <= j < t.len() && t[j] == c;
                    assert(s[i + 1 + j] == c);
                }
            }
            lemma_complete_lines_pieces(t, c);
            let all = complete_lines(s).0;
            assert forall|k: int| 0 <= k < all.len() implies !(#[trigger] all[k]).contains(c) by {
                if k == 0 {
                    if all[0].contains(c) {
                        let j = choose|j: int| 0 <= j < all[0].len() && all[0][j] == c;
                        assert(s[j] == c);
                    }
                } else {
                    assert(all[k] == complete_lines(t).0[k - 1]);
                }
            }
        },
        None => {},
    }
}

/// The lines of terminal output are non-empty, trimmed, and free of line
/// breaks and carriage returns, and neither kind of character is left
/// pending: carriage returns end lines as line breaks do.
pub proof fn law_terminal_lines_clean(pending: Seq<char>, bytes: Seq<u8>)
    requires
        !pending.contains('\r'),
    ensures
        ({
            let (ls, rest) = complete_lines(pending + cleaned_chunk(bytes));
            let out = terminal_lines(ls);
            &&& !rest.contains('\n')
            &&& !rest.contains('\r')
            &&& forall|t: int|
                0 <= t < out.len() ==> (#[trigger] out[t]).len() > 0 && trim(out[t]) == out[t]
                    && !out[t].contains('\n') && !out[t].contains('\r')
        }),
{
    let chunk = cleaned_chunk(bytes);
    lemma_replace_char_removes(
        regex_replace_all(ansi_escape_source(), utf8_lossy(bytes), ""@),
        '\r',
        '\n',
    );
    let s = pending + chunk;
    assert(!s.contains('\r')) by {
        if s.contains('\r') {
            let j = choose|j: int| 0 <= j < s.len() && s[j] == '\r';
            if j < pending.len() {
                assert(pending[j] == '\r');
            } else {
                assert(chunk[j - pending.len()] == '\r');
            }
        }
    }
    law_complete_lines(s);
    lemma_complete_lines_pieces(s, '\r');
    lemma_terminal_lines_clean(complete_lines(s).0);
}

proof fn lemma_terminal_lines_clean(ls: Seq<Seq<char>>)
    requires
        forall|k: int| 0 <= k < ls.len() ==> !(#[trigger] ls[k]).contains('\n') && !ls[k].contains('\r'),
    ensures
        forall|t: int|
            0 <= t < terminal_lines(ls).len() ==> (#[trigger] terminal_lines(ls)[t]).len() > 0
                && trim(terminal_lines(ls)[t]) == terminal_lines(ls)[t]
                && !terminal_lines(ls)[t].contains('\n') && !terminal_lines(ls)[t].contains('\r'),
    decreases ls.len(),
{
    if ls.len() > 0 {
        let d = ls.drop_first();
        assert forall|k: int| 0 <= k < d.len() implies !(#[trigger] d[k]).contains('\n')
            && !d[k].contains('\r') by {
            assert(d[k] == ls[k + 1]);
        }
        lemma_terminal_lines_clean(d);
        lemma_trim_facts(ls[0]);
        let l = trim(ls[0]);
        let (b, e) = choose|b: int, e: int| 0 <= b <= e <= ls[0].len() && #[trigger] ls[0].subrange(b, e) == l;
        assert(!l.contains('\n') && !l.contains('\r')) by {
            if l.contains('\n') {
                let j = choose|j: int| 0 <= j < l.len() && l[j] == '\n';
                assert(ls[0][b + j] == '\n');
            }
            if l.contains('\r') {
                let j = choose|j: int| 0 <= j < l.len() && l[j] == '\r';
                assert(ls[0][b + j] == '\r');
            }
        }
        let out = terminal_lines(ls);
        let head = if l.len() > 0 {
            seq![l]
        } else {
            Seq::<Seq<char>>::empty()
        };
        assert(out == head + terminal_lines(d));
        assert forall|t: int| 0 <= t < out.len() implies (#[trigger] out[t]).len() > 0 && trim(out[t])
            == out[t] && !out[t].contains('\n') && !out[t].contains('\r') by {
            if t < head.len() {
                assert(out[t] == l);
            } else {
                assert(out[t] == terminal_lines(d)[t - head.len()]);
            }
        }
    }
}

/// The line at `k` of `ls` has visible text, which trimmed is `x`.
pub open spec fn visible_line_at(ls: Seq<Seq<char>>, k: int, x: Seq<char>) -> bool {
    0 <= k < ls.len() && trim(ls[k]) == x && x.len() > 0
}

/// Everything that terminal output yields is the trimmed text of one of its
/// lines.
pub proof fn law_terminal_lines_from_input(ls: Seq<Seq<char>>, t: int)
    requires
        0 <= t < terminal_lines(ls).len(),
    ensures
        exists|k: int| #[trigger] visible_line_at(ls, k, terminal_lines(ls)[t]),
    decreases ls.len(),
{
    let d = ls.drop_first();
    let rest = terminal_lines(d);
    let l = trim(ls[0]);
    let head = if l.len() > 0 {
        seq![l]
    } else {
        Seq::<Seq<char>>::empty()
    };
    assert(terminal_lines(ls) == head + rest);
    if t < head.len() {
        assert(visible_line_at(ls, 0, terminal_lines(ls)[t]));
    } else {
        let u = t - head.len();
        law_terminal_lines_from_input(d, u);
        let k = choose|k: int| #[trigger] visible_line_at(d, k, rest[u]);
        assert(ls[k + 1] == d[k]);
        assert(terminal_lines(ls)[t] == rest[u]);
        assert(visible_line_at(ls, k + 1, terminal_lines(ls)[t]));
    }
}

/// No line of terminal output with visible text is lost: every line whose
/// trimmed text is non-empty is yielded, trimmed.
pub proof fn law_terminal_lines_kept(ls: Seq<Seq<char>>)
    ensures
        forall|k: int|
            0 <= k < ls.len() && trim(#[trigger] ls[k]).len() > 0 ==> terminal_lines(ls).contains(
                trim(ls[k]),
            ),
        terminal_lines(ls).len() <= ls.len(),
    decreases ls.len(),
{
    if ls.len() > 0 {
        let d = ls.drop_first();
        law_terminal_lines_kept(d);
        let out = terminal_lines(ls);
        let rest = terminal_lines(d);
        let l = trim(ls[0]);
        let head = if l.len() > 0 {
            seq![l]
        } else {
            Seq::<Seq<char>>::empty()
        };
        assert(out == head + rest);
        assert forall|k: int|
            0 <= k < ls.len() && trim(#[trigger] ls[k]).len() > 0 implies out.contains(trim(ls[k])) by {
            if k == 0 {
                assert(out[0] == l);
            } else {
                assert(ls[k] == d[k - 1]);
                assert(rest.contains(trim(d[k - 1])));
                let u = choose|u: int| 0 <= u < rest.len() && rest[u] == trim(d[k - 1]);
                assert(out[u + head.len()] == rest[u]);
            }
        }
    }
}

/// A chunk of terminal output yields every complete line with visible text,
/// trimmed.
pub proof fn law_terminal_output_keeps_lines(pending: Seq<char>, bytes: Seq<u8>)
    ensures
        ({
            let ls = complete_lines(pending + cleaned_chunk(bytes)).0;
            forall|k: int|
                0 <= k < ls.len() && trim(#[trigger] ls[k]).len() > 0 ==> terminal_lines(ls).contains(
                    trim(ls[k]),
                )
        }),
{
    law_terminal_lines_kept(complete_lines(pending + cleaned_chunk(bytes)).0);
}

} // verus!
