//! Text of commands, durations and Discord messages.

use vstd::prelude::*;

use crate::pattern::{
    ansi_escape_source, pattern_replace_all, regex_finds, regex_replace_all, CompiledPattern,
};
use crate::text::{
    chars_of, decimal, join, join_strings, push_chars, push_decimal, push_str,
    string_from_chars, strings_view,
};

verus! {

/// A command line as shown in messages: the program, then its arguments,
/// all separated by single spaces.
pub open spec fn rendered_command(command: Seq<char>, args: Seq<Seq<char>>) -> Seq<char> {
    if args.len() == 0 {
        command
    } else {
        command + seq![' '] + join(args, seq![' '])
    }
}

pub fn render_command(command: &str, args: &[String]) -> (out: String)
    ensures
        out@ == rendered_command(command@, strings_view(args@)),
{
    let mut out = chars_of(command);
    if args.len() == 0 {
        return string_from_chars(&out);
    }
    out.push(' ');
    let joined = join_strings(args, " ");
    proof {
        reveal_strlit(" ");
    }
    assert(" "@ =~= seq![' ']);
    push_chars(&mut out, joined.as_slice());
    string_from_chars(&out)
}

/// `value` cut to its first `max_chars` characters, with `...` appended
/// when anything was cut.
pub open spec fn truncated(value: Seq<char>, max_chars: nat) -> Seq<char> {
    if value.len() <= max_chars {
        value
    } else {
        value.take(max_chars as int) + seq!['.', '.', '.']
    }
}

/// A cut text keeps its first characters, at most `max_chars` of them, and
/// grows by at most the three dots; a text that fits is kept whole.
pub proof fn law_truncated_shape(value: Seq<char>, max_chars: nat)
    ensures
        truncated(value, max_chars).len() <= max_chars + 3,
        truncated(value, max_chars).len() <= value.len() + 3,
        value.len() <= max_chars ==> truncated(value, max_chars) == value,
        ({
            let k = if value.len() <= max_chars {
                value.len()
            } else {
                max_chars
            };
            truncated(value, max_chars).take(k as int) == value.take(k as int)
        }),
{
    if value.len() <= max_chars {
        assert(value.take(value.len() as int) =~= value);
    } else {
        assert(truncated(value, max_chars).take(max_chars as int) =~= value.take(max_chars as int));
    }
}

/// Appends `truncated(value, max_chars)` to `out`.
pub fn push_truncated(out: &mut Vec<char>, value: &[char], max_chars: usize)
    ensures
        final(out)@ == old(out)@ + truncated(value@, max_chars as nat),
{
    if value.len() <= max_chars {
        push_chars(out, value);
    } else {
        let mut i: usize = 0;
        let ghost start = out@;
        while i < max_chars
            invariant
                i <= max_chars < value@.len(),
                out@ == start + value@.take(i as int),
            decreases max_chars - i,
        {
            out.push(value[i]);
            i = i + 1;
            assert(value@.take(i as int) =~= value@.take(i - 1).push(value@[i - 1]));
        }
        out.push('.');
        out.push('.');
        out.push('.');
        assert(out@ =~= start + truncated(value@, max_chars as nat));
    }
}

pub fn truncate(value: &str, max_chars: usize) -> (out: String)
    ensures
        out@ == truncated(value@, max_chars as nat),
{
    let chars = chars_of(value);
    let mut out: Vec<char> = Vec::new();
    push_truncated(&mut out, chars.as_slice(), max_chars);
    assert(out@ =~= truncated(value@, max_chars as nat));
    string_from_chars(&out)
}

/// A duration of `secs` seconds as `XhYmZs`, leaving out leading zero
/// units (`1h 0m 5s`, `2m 3s`, `7s`).
pub open spec fn duration_text(secs: nat) -> Seq<char> {
    let hours = secs / 3600;
    let minutes = (secs % 3600) / 60;
    let seconds = secs % 60;
    if hours > 0 {
        decimal(hours) + seq!['h', ' '] + decimal(minutes) + seq!['m', ' '] + decimal(seconds)
            + seq!['s']
    } else if minutes > 0 {
        decimal(minutes) + seq!['m', ' '] + decimal(seconds) + seq!['s']
    } else {
        decimal(seconds) + seq!['s']
    }
}

/// Under a minute only seconds are shown; under an hour minutes and
/// seconds; from an hour on all three units, and the units add up to the
/// duration.
pub proof fn law_duration_units(secs: nat)
    ensures
        secs < 60 ==> duration_text(secs) == decimal(secs) + seq!['s'],
        60 <= secs < 3600 ==> duration_text(secs) == decimal(secs / 60) + seq!['m', ' ']
            + decimal(secs % 60) + seq!['s'],
        3600 <= secs ==> duration_text(secs) == decimal(secs / 3600) + seq!['h', ' '] + decimal(
            (secs / 60) % 60,
        ) + seq!['m', ' '] + decimal(secs % 60) + seq!['s'],
        (secs / 3600) * 3600 + ((secs / 60) % 60) * 60 + secs % 60 == secs,
{
    assert((secs % 3600) / 60 == (secs / 60) % 60);
}

/// Formats a duration given in whole seconds.
pub fn format_duration(secs: u64) -> (out: String)
    ensures
        out@ == duration_text(secs as nat),
{
    let hours = secs / 3600;
    let minutes = (secs % 3600) / 60;
    let seconds = secs % 60;
    let mut out: Vec<char> = Vec::new();
    if hours > 0 {
        push_decimal(&mut out, hours);
        out.push('h');
        out.push(' ');
        push_decimal(&mut out, minutes);
        out.push('m');
        out.push(' ');
    } else if minutes > 0 {
        push_decimal(&mut out, minutes);
        out.push('m');
        out.push(' ');
    }
    push_decimal(&mut out, seconds);
    out.push('s');
    assert(out@ =~= duration_text(secs as nat));
    string_from_chars(&out)
}

/// `value` with every ANSI control sequence removed.
pub fn strip_ansi(ansi: &CompiledPattern, value: &str) -> (out: String)
    requires
        ansi@ == ansi_escape_source(),
    ensures
        out@ == regex_replace_all(ansi_escape_source(), value@, ""@),
        !regex_finds(ansi_escape_source(), value@) ==> out@ == value@,
{
    pattern_replace_all(ansi, value, "")
}

/// The header line of every lifecycle message.
pub open spec fn message_header(title: Seq<char>, job_name: Seq<char>) -> Seq<char> {
    "Nae^2 says | **"@ + title + "** | job: `"@ + job_name + seq!['`']
}

/// The given lines, each preceded by a line break.
pub open spec fn following_lines(lines: Seq<Seq<char>>) -> Seq<char> {
    if lines.len() == 0 {
        seq![]
    } else {
        seq!['\n'] + join(lines, seq!['\n'])
    }
}

/// A lifecycle message: the header line, then the given lines.
pub open spec fn lifecycle_message(
    title: Seq<char>,
    job_name: Seq<char>,
    lines: Seq<Seq<char>>,
) -> Seq<char> {
    message_header(title, job_name) + following_lines(lines)
}

pub fn discord_message(title: &str, job_name: &str, lines: &[String]) -> (out: String)
    ensures
        out@ == lifecycle_message(title@, job_name@, strings_view(lines@)),
{
    let mut out: Vec<char> = Vec::new();
    push_str(&mut out, "Nae^2 says | **");
    push_str(&mut out, title);
    push_str(&mut out, "** | job: `");
    push_str(&mut out, job_name);
    out.push('`');
    if lines.len() > 0 {
        out.push('\n');
        let joined = join_strings(lines, "\n");
        proof {
            reveal_strlit("\n");
        }
        assert("\n"@ =~= seq!['\n']);
        push_chars(&mut out, joined.as_slice());
    }
    assert(out@ =~= lifecycle_message(title@, job_name@, strings_view(lines@)));
    string_from_chars(&out)
}

/// One labelled field: `label: `value``.
pub open spec fn field_text(label: Seq<char>, value: Seq<char>) -> Seq<char> {
    label + seq![':', ' ', '`'] + value + seq!['`']
}

/// The texts of labelled fields.
pub open spec fn field_texts(fields: Seq<(&str, String)>) -> Seq<Seq<char>> {
    fields.map_values(|f: (&str, String)| field_text(f.0@, f.1@))
}

/// Labelled fields on one line, separated by ` | `.
pub fn inline_fields(fields: &[(&str, String)]) -> (out: String)
    ensures
        out@ == join(field_texts(fields@), seq![' ', '|', ' ']),
{
    let ghost texts = field_texts(fields@);
    let mut out: Vec<char> = Vec::new();
    let mut i: usize = 0;
    while i < fields.len()
        invariant
            i <= fields@.len(),
            texts == field_texts(fields@),
            out@ == join(texts.take(i as int), seq![' ', '|', ' ']),
        decreases fields@.len() - i,
    {
        if i > 0 {
            out.push(' ');
            out.push('|');
            out.push(' ');
        }
        let ghost before = out@;
        push_str(&mut out, fields[i].0);
        out.push(':');
        out.push(' ');
        out.push('`');
        push_str(&mut out, fields[i].1.as_str());
        out.push('`');
        assert(texts.take(i + 1).drop_last() =~= texts.take(i as int));
        assert(texts[i as int] == field_text(fields@[i as int].0@, fields@[i as int].1@));
        if i == 0 {
            assert(out@ =~= texts.take(1)[0]);
        } else {
            assert(out@ =~= join(texts.take(i as int), seq![' ', '|', ' ']) + seq![' ', '|', ' ']
                + texts[i as int]);
        }
        i = i + 1;
    }
    assert(texts.take(i as int) =~= texts);
    string_from_chars(&out)
}

} // verus!
