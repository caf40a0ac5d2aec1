use vstd::prelude::*;

verus! {

// ---------------------------------------------------------------------------
// Conversions between strings and character vectors
// ---------------------------------------------------------------------------

/// The characters of a string slice, in order.
pub fn chars_of(s: &str) -> (out: Vec<char>)
    ensures
        out@ == s@,
{
    let mut out: Vec<char> = Vec::new();
    for c in it: s.chars()
        invariant
            out@ == it.seq().take(it.index() as int),
    {
        out.push(c);
    }
    out
}

/// Calls `String::from_iter` on the characters. Claimed: the string holds
/// exactly those characters, in order.
#[verifier::external_body]
pub(crate) fn string_from_chars(chars: &Vec<char>) -> (s: String)
    ensures
        s@ == chars@,
{
    String::from_iter(chars.iter())
}

/// What `String::from_utf8_lossy` makes of a byte sequence.
pub uninterp spec fn utf8_lossy(bytes: Seq<u8>) -> Seq<char>;

/// Calls `String::from_utf8_lossy` and takes the result as an owned
/// string. Claimed: the result is the named decoding of the bytes, which,
/// as documented, is the plain decoding when the bytes are valid UTF-8.
#[verifier::external_body]
pub(crate) fn decode_utf8_lossy(bytes: &[u8]) -> (s: String)
    ensures
        s@ == utf8_lossy(bytes@),
        vstd::utf8::valid_utf8(bytes@) ==> s@ == vstd::utf8::decode_utf8(bytes@),
{
    String::from_utf8_lossy(bytes).into_owned()
}

/// The characters of an optional string.
pub open spec fn opt_view(o: Option<String>) -> Option<Seq<char>> {
    match o {
        Some(s) => Some(s@),
        None => None,
    }
}

/// A copy of an optional string.
pub fn clone_opt_string(o: &Option<String>) -> (out: Option<String>)
    ensures
        opt_view(out) == opt_view(*o),
{
    match o {
        Some(s) => Some(s.clone()),
        None => None,
    }
}

/// A copy of a vector of strings.
pub fn clone_strings(v: &Vec<String>) -> (out: Vec<String>)
    ensures
        strings_view(out@) == strings_view(v@),
{
    let mut out: Vec<String> = Vec::new();
    let mut i: usize = 0;
    while i < v.len()
        invariant
            i <= v@.len(),
            strings_view(out@) == strings_view(v@.take(i as int)),
        decreases v@.len() - i,
    {
        out.push(v[i].clone());
        assert(strings_view(v@.take(i + 1)) =~= strings_view(v@.take(i as int)).push(v@[i as int]@));
        i = i + 1;
        assert(strings_view(out@) =~= strings_view(v@.take(i as int)));
    }
    assert(v@.take(i as int) =~= v@);
    out
}

/// Appends the characters of `tail` to `out`.
pub fn push_chars(out: &mut Vec<char>, tail: &[char])
    ensures
        final(out)@ == old(out)@ + tail@,
{
    let ghost start = out@;
    let mut i: usize = 0;
    while i < tail.len()
        invariant
            i <= tail@.len(),
            out@ == start + tail@.take(i as int),
        decreases tail@.len() - i,
    {
        out.push(tail[i]);
        i = i + 1;
        assert(tail@.take(i as int) =~= tail@.take(i - 1).push(tail@[i - 1]));
    }
    assert(tail@.take(i as int) =~= tail@);
}

/// Appends the characters of a string slice to `out`.
pub fn push_str(out: &mut Vec<char>, tail: &str)
    ensures
        final(out)@ == old(out)@ + tail@,
{
    let cs = chars_of(tail);
    push_chars(out, cs.as_slice());
}

/// The characters `s[from..to]` as a new vector.
pub fn copy_range(s: &[char], from: usize, to: usize) -> (out: Vec<char>)
    requires
        from <= to <= s@.len(),
    ensures
        out@ == s@.subrange(from as int, to as int),
{
    let mut out: Vec<char> = Vec::new();
    let mut i: usize = from;
    while i < to
        invariant
            from <= i <= to <= s@.len(),
            out@ == s@.subrange(from as int, i as int),
        decreases to - i,
    {
        out.push(s[i]);
        i = i + 1;
        assert(s@.subrange(from as int, i as int) =~= s@.subrange(from as int, i - 1).push(
            s@[i - 1],
        ));
    }
    out
}

/// Whether two character sequences are equal.
pub fn chars_eq(a: &[char], b: &[char]) -> (eq: bool)
    ensures
        eq == (a@ == b@),
{
    if a.len() != b.len() {
        return false;
    }
    let mut i: usize = 0;
    while i < a.len()
        invariant
            a@.len() == b@.len(),
            i <= a@.len(),
            forall|j: int| 0 <= j < i ==> a@[j] == b@[j],
        decreases a@.len() - i,
    {
        if a[i] != b[i] {
            return false;
        }
        i = i + 1;
    }
    assert(a@ =~= b@);
    true
}

// ---------------------------------------------------------------------------
// Whitespace (Unicode `White_Space`, as `char::is_whitespace`)
// ---------------------------------------------------------------------------

/// The Unicode `White_Space` characters, which `char::is_whitespace` accepts.
pub open spec fn is_ws(c: char) -> bool {
    ||| ('\u{9}' <= c && c <= '\u{d}')
    ||| c == ' '
    ||| c == '\u{85}'
    ||| c == '\u{a0}'
    ||| c == '\u{1680}'
    ||| ('\u{2000}' <= c && c <= '\u{200a}')
    ||| c == '\u{2028}'
    ||| c == '\u{2029}'
    ||| c == '\u{202f}'
    ||| c == '\u{205f}'
    ||| c == '\u{3000}'
}

pub fn is_whitespace(c: char) -> (b: bool)
    ensures
        b == is_ws(c),
{
    ('\u{9}' <= c && c <= '\u{d}') || c == ' ' || c == '\u{85}' || c == '\u{a0}' || c
        == '\u{1680}' || ('\u{2000}' <= c && c <= '\u{200a}') || c == '\u{2028}' || c
        == '\u{2029}' || c == '\u{202f}' || c == '\u{205f}' || c == '\u{3000}'
}

/// `s` without its leading whitespace.
pub open spec fn trim_start(s: Seq<char>) -> Seq<char>
    decreases s.len(),
{
    if s.len() > 0 && is_ws(s[0]) {
        trim_start(s.drop_first())
    } else {
        s
    }
}

/// `s` without its trailing whitespace.
pub open spec fn trim_end(s: Seq<char>) -> Seq<char>
    decreases s.len(),
{
    if s.len() > 0 && is_ws(s.last()) {
        trim_end(s.drop_last())
    } else {
        s
    }
}

/// `s` without leading and trailing whitespace (`str::trim`).
pub open spec fn trim(s: Seq<char>) -> Seq<char> {
    trim_end(trim_start(s))
}

/// `s` without any trailing run of `c` (`str::trim_end_matches` with a char).
pub open spec fn trim_end_char(s: Seq<char>, c: char) -> Seq<char>
    decreases s.len(),
{
    if s.len() > 0 && s.last() == c {
        trim_end_char(s.drop_last(), c)
    } else {
        s
    }
}

/// Index of the first character of `s` at or after `from` that is not whitespace.
fn skip_ws_from(s: &[char], from: usize) -> (k: usize)
    requires
        from <= s@.len(),
    ensures
        from <= k <= s@.len(),
        trim_start(s@.skip(from as int)) == s@.skip(k as int),
{
    let mut k = from;
    while k < s.len() && is_whitespace(s[k])
        invariant
            from <= k <= s@.len(),
            trim_start(s@.skip(from as int)) == trim_start(s@.skip(k as int)),
        decreases s@.len() - k,
    {
        assert(s@.skip(k as int).drop_first() =~= s@.skip(k + 1));
        k = k + 1;
    }
    k
}

/// End (exclusive) of `s[..to]` once trailing whitespace is removed.
fn trim_end_to(s: &[char], to: usize) -> (k: usize)
    requires
        to <= s@.len(),
    ensures
        k <= to,
        trim_end(s@.take(to as int)) == s@.take(k as int),
{
    let mut k = to;
    while k > 0 && is_whitespace(s[k - 1])
        invariant
            k <= to <= s@.len(),
            trim_end(s@.take(to as int)) == trim_end(s@.take(k as int)),
        decreases k,
    {
        assert(s@.take(k as int).drop_last() =~= s@.take(k - 1));
        k = k - 1;
    }
    k
}

/// `str::trim` on a character slice.
pub fn trim_chars(s: &[char]) -> (out: Vec<char>)
    ensures
        out@ == trim(s@),
{
    let b = skip_ws_from(s, 0);
    let e = trim_end_to(s, s.len());
    assert(s@.skip(0) =~= s@);
    assert(s@.take(s@.len() as int) =~= s@);
    proof {
        lemma_trim_range(s@, b as int, e as int);
    }
    if b <= e {
        copy_range(s, b, e)
    } else {
        Vec::new()
    }
}

/// Trimming both ends of `s` yields the range between the first and the
/// last non-whitespace character.
proof fn lemma_trim_range(s: Seq<char>, b: int, e: int)
    requires
        0 <= b <= s.len(),
        0 <= e <= s.len(),
        trim_start(s) == s.skip(b),
        trim_end(s) == s.take(e),
    ensures
        b <= e ==> trim(s) == s.subrange(b, e),
        b > e ==> trim(s).len() == 0,
{
    lemma_trim_start_shape(s);
    lemma_trim_end_shape(s);
    if b <= e {
        lemma_trim_end_shape(s.skip(b));
        let t = trim_end(s.skip(b));
        // t is a prefix of s.skip(b) whose remainder is whitespace, and
        // its last char (if any) is not whitespace.
        let k = t.len();
        assert(s.skip(b).take(k as int) == t);
        if k < e - b {
            // s[e-1] ends trim_end(s), so it is not whitespace, yet it would
            // lie in the whitespace that trim_end(s.skip(b)) removes.
            assert(s.take(e).last() == s[e - 1]);
            assert(is_ws(s.skip(b)[e - 1 - b]));
        }
        if k > e - b {
            assert(!is_ws(t.last()));
            assert(t.last() == s[b + k - 1]);
            assert(is_ws(s.skip(e)[b + k - 1 - e]));
        }
        assert(k == e - b);
        assert(t =~= s.subrange(b, e));
    } else {
        lemma_trim_end_shape(s.skip(b));
        let t = trim_end(s.skip(b));
        if t.len() > 0 {
            assert(!is_ws(t.last()));
            assert(t.last() == s[b + t.len() - 1]);
            assert(is_ws(s.skip(e)[b + t.len() - 1 - e]));
        }
    }
}

/// `trim_start(s)` is a suffix of `s` that is empty or starts with a
/// non-whitespace character, and what it drops is whitespace.
pub proof fn lemma_trim_start_shape(s: Seq<char>)
    ensures
        trim_start(s).len() <= s.len(),
        trim_start(s) == s.skip(s.len() - trim_start(s).len()),
        trim_start(s).len() > 0 ==> !is_ws(trim_start(s)[0]),
        forall|i: int| 0 <= i < s.len() - trim_start(s).len() ==> is_ws(#[trigger] s[i]),
    decreases s.len(),
{
    if s.len() > 0 && is_ws(s[0]) {
        lemma_trim_start_shape(s.drop_first());
        assert forall|i: int| 0 <= i < s.len() - trim_start(s).len() implies is_ws(
            #[trigger] s[i],
        ) by {
            if i > 0 {
                assert(s[i] == s.drop_first()[i - 1]);
            }
        }
        assert(s.drop_first().skip(s.drop_first().len() - trim_start(s).len()) =~= s.skip(
            s.len() - trim_start(s).len(),
        ));
    } else {
        assert(s.skip(0) =~= s);
    }
}

/// `trim_end(s)` is a prefix of `s` that is empty or ends with a
/// non-whitespace character, and what it drops is whitespace.
pub proof fn lemma_trim_end_shape(s: Seq<char>)
    ensures
        trim_end(s).len() <= s.len(),
        trim_end(s) == s.take(trim_end(s).len() as int),
        trim_end(s).len() > 0 ==> !is_ws(trim_end(s).last()),
        forall|i: int| trim_end(s).len() <= i < s.len() ==> is_ws(#[trigger] s[i]),
    decreases s.len(),
{
    if s.len() > 0 && is_ws(s.last()) {
        lemma_trim_end_shape(s.drop_last());
        assert(s.drop_last().take(trim_end(s).len() as int) =~= s.take(
            trim_end(s).len() as int,
        ));
        assert forall|i: int| trim_end(s).len() <= i < s.len() implies is_ws(#[trigger] s[i]) by {
            if i < s.len() - 1 {
                assert(s[i] == s.drop_last()[i]);
            }
        }
    } else {
        assert(s.take(s.len() as int) =~= s);
    }
}

/// `str::trim_end_matches(c)` on `s[..to]`: the end of the range once every
/// trailing `c` is removed.
pub fn trim_end_char_to(s: &[char], to: usize, c: char) -> (k: usize)
    requires
        to <= s@.len(),
    ensures
        k <= to,
        trim_end_char(s@.take(to as int), c) == s@.take(k as int),
{
    let mut k = to;
    while k > 0 && s[k - 1] == c
        invariant
            k <= to <= s@.len(),
            trim_end_char(s@.take(to as int), c) == trim_end_char(s@.take(k as int), c),
        decreases k,
    {
        assert(s@.take(k as int).drop_last() =~= s@.take(k - 1));
        k = k - 1;
    }
    k
}

// ---------------------------------------------------------------------------
// Searching
// ---------------------------------------------------------------------------

/// Position of the first `c` in `s`, if any.
pub open spec fn index_of(s: Seq<char>, c: char) -> Option<nat>
    decreases s.len(),
{
    if s.len() == 0 {
        None
    } else if s[0] == c {
        Some(0)
    } else {
        match index_of(s.drop_first(), c) {
            Some(i) => Some(i + 1),
            None => None,
        }
    }
}

/// `index_of` finds the first occurrence, or reports that there is none.
pub proof fn lemma_index_of(s: Seq<char>, c: char)
    ensures
        match index_of(s, c) {
            Some(i) => i < s.len() && s[i as int] == c && forall|j: int|
                0 <= j < i ==> #[trigger] s[j] != c,
            None => forall|j: int| 0 <= j < s.len() ==> #[trigger] s[j] != c,
        },
    decreases s.len(),
{
    if s.len() > 0 && s[0] != c {
        lemma_index_of(s.drop_first(), c);
        assert forall|j: int| 0 < j < s.len() implies s[j] == s.drop_first()[j - 1] by {}
    }
}

/// Position of the first `c` in `s` at or after `from`.
pub fn find_char(s: &[char], from: usize, c: char) -> (r: Option<usize>)
    requires
        from <= s@.len(),
    ensures
        r == (match index_of(s@.skip(from as int), c) {
            Some(i) => Some((i + from) as usize),
            None => None::<usize>,
        }),
{
    let mut k = from;
    while k < s.len()
        invariant
            from <= k <= s@.len(),
            index_of(s@.skip(from as int), c) == (match index_of(s@.skip(k as int), c) {
                Some(i) => Some((i + k - from) as nat),
                None => None::<nat>,
            }),
        decreases s@.len() - k,
    {
        if s[k] == c {
            return Some(k);
        }
        assert(s@.skip(k as int).drop_first() =~= s@.skip(k + 1));
        k = k + 1;
    }
    None
}

/// The character sequences held by a sequence of character vectors.
pub open spec fn char_vecs_view(v: Seq<Vec<char>>) -> Seq<Seq<char>> {
    v.map_values(|x: Vec<char>| x@)
}

// ---------------------------------------------------------------------------
// Lines (`str::lines`)
// ---------------------------------------------------------------------------

/// `s` without one trailing `\r`.
pub open spec fn strip_cr(s: Seq<char>) -> Seq<char> {
    if s.len() > 0 && s.last() == '\r' {
        s.drop_last()
    } else {
        s
    }
}

/// The lines of `s` as `str::lines` yields them: split at each `\n`, a `\r`
/// right before the `\n` dropped, and no empty line after a final `\n`.
pub open spec fn lines(s: Seq<char>) -> Seq<Seq<char>>
    decreases s.len(),
{
    if s.len() == 0 {
        seq![]
    } else {
        match index_of(s, '\n') {
            Some(i) => {
                proof {
                    lemma_index_of(s, '\n');
                }
                seq![strip_cr(s.take(i as int))] + lines(s.skip(i as int + 1))
            },
            None => seq![s],
        }
    }
}

/// `str::lines` on a character slice.
pub fn split_lines(s: &[char]) -> (out: Vec<Vec<char>>)
    ensures
        char_vecs_view(out@) == lines(s@),
{
    let mut out: Vec<Vec<char>> = Vec::new();
    let mut i: usize = 0;
    assert(s@.skip(0) =~= s@);
    while i < s.len()
        invariant
            i <= s@.len(),
            lines(s@) == char_vecs_view(out@) + lines(s@.skip(i as int)),
        decreases s@.len() - i,
    {
        let ghost rest = s@.skip(i as int);
        match find_char(s, i, '\n') {
            Some(j) => {
                proof {
                    lemma_index_of(rest, '\n');
                }
                let mut line = copy_range(s, i, j);
                if line.len() > 0 && line[line.len() - 1] == '\r' {
                    line.pop();
                }
                assert(line@ == strip_cr(rest.take((j - i) as int)));
                assert(rest.skip((j - i) + 1) =~= s@.skip(j + 1));
                let ghost before = out@;
                out.push(line);
                assert(char_vecs_view(out@) =~= char_vecs_view(before).push(line@));
                i = j + 1;
            },
            None => {
                let line = copy_range(s, i, s.len());
                assert(line@ =~= rest);
                let ghost before = out@;
                out.push(line);
                assert(char_vecs_view(out@) =~= char_vecs_view(before).push(line@));
                i = s.len();
                assert(s@.skip(i as int) =~= Seq::<char>::empty());
            },
        }
    }
    assert(s@.skip(i as int) =~= Seq::<char>::empty());
    assert(lines(s@.skip(i as int)) =~= Seq::<Seq<char>>::empty());
    assert(char_vecs_view(out@) + Seq::<Seq<char>>::empty() =~= char_vecs_view(out@));
    out
}

// ---------------------------------------------------------------------------
// Words (`str::split_whitespace`)
// ---------------------------------------------------------------------------

/// Length of the run of non-whitespace characters at the start of `s`.
pub open spec fn word_len(s: Seq<char>) -> nat
    decreases s.len(),
{
    if s.len() > 0 && !is_ws(s[0]) {
        1 + word_len(s.drop_first())
    } else {
        0
    }
}

/// The first whitespace-separated word of `s` and what follows it, as the
/// first step of `str::split_whitespace`.
pub open spec fn next_word(s: Seq<char>) -> Option<(Seq<char>, Seq<char>)> {
    let t = trim_start(s);
    if t.len() == 0 {
        None
    } else {
        Some((t.take(word_len(t) as int), t.skip(word_len(t) as int)))
    }
}

/// The next word of `s[from..]`, as the range `(begin, end)` in `s`.
pub fn next_word_range(s: &[char], from: usize) -> (r: Option<(usize, usize)>)
    requires
        from <= s@.len(),
    ensures
        match next_word(s@.skip(from as int)) {
            Some((w, rest)) => r matches Some((b, e)) && from <= b <= e <= s@.len() && w
                == s@.subrange(b as int, e as int) && rest == s@.skip(e as int),
            None => r is None,
        },
{
    let b = skip_ws_from(s, from);
    if b == s.len() {
        assert(s@.skip(b as int) =~= Seq::<char>::empty());
        return None;
    }
    let mut e = b;
    while e < s.len() && !is_whitespace(s[e])
        invariant
            b <= e <= s@.len(),
            word_len(s@.skip(b as int)) == (e - b) + word_len(s@.skip(e as int)),
        decreases s@.len() - e,
    {
        assert(s@.skip(e as int).drop_first() =~= s@.skip(e + 1));
        e = e + 1;
    }
    assert(word_len(s@.skip(e as int)) == 0);
    assert(s@.skip(b as int).take((e - b) as int) =~= s@.subrange(b as int, e as int));
    assert(s@.skip(b as int).skip((e - b) as int) =~= s@.skip(e as int));
    Some((b, e))
}

// ---------------------------------------------------------------------------
// Decimal numbers
// ---------------------------------------------------------------------------

/// An ASCII decimal digit.
pub open spec fn is_digit(c: char) -> bool {
    '0' <= c && c <= '9'
}

/// The value of a decimal digit character.
pub open spec fn digit_value(c: char) -> nat {
    if c == '1' {
        1
    } else if c == '2' {
        2
    } else if c == '3' {
        3
    } else if c == '4' {
        4
    } else if c == '5' {
        5
    } else if c == '6' {
        6
    } else if c == '7' {
        7
    } else if c == '8' {
        8
    } else if c == '9' {
        9
    } else {
        0
    }
}

/// The character of a decimal digit.
pub open spec fn digit_char(d: nat) -> char {
    if d == 1 {
        '1'
    } else if d == 2 {
        '2'
    } else if d == 3 {
        '3'
    } else if d == 4 {
        '4'
    } else if d == 5 {
        '5'
    } else if d == 6 {
        '6'
    } else if d == 7 {
        '7'
    } else if d == 8 {
        '8'
    } else if d == 9 {
        '9'
    } else {
        '0'
    }
}

/// Every character of `s` is a decimal digit.
pub open spec fn all_digits(s: Seq<char>) -> bool {
    forall|i: int| 0 <= i < s.len() ==> is_digit(#[trigger] s[i])
}

/// The number that a run of decimal digits denotes.
pub open spec fn decimal_value(s: Seq<char>) -> nat
    decreases s.len(),
{
    if s.len() == 0 {
        0
    } else {
        decimal_value(s.drop_last()) * 10 + digit_value(s.last())
    }
}

/// The shortest decimal representation of `n` (as `Display` writes it).
pub open spec fn decimal(n: nat) -> Seq<char>
    decreases n,
{
    if n < 10 {
        seq![digit_char(n)]
    } else {
        decimal(n / 10).push(digit_char(n % 10))
    }
}

/// The decimal representation of a signed number, with `-` before a negative one.
pub open spec fn signed_decimal(n: int) -> Seq<char> {
    if n < 0 {
        seq!['-'] + decimal((-n) as nat)
    } else {
        decimal(n as nat)
    }
}

/// The digits of an unsigned number's text once an optional leading `+` is removed.
pub open spec fn unsigned_digits(s: Seq<char>) -> Seq<char> {
    if s.len() > 0 && s[0] == '+' {
        s.drop_first()
    } else {
        s
    }
}

/// What `str::parse::<u32>` gives: an optional `+`, then one or more
/// decimal digits whose value fits in a `u32`.
pub open spec fn parse_u32_spec(s: Seq<char>) -> Option<u32> {
    let d = unsigned_digits(s);
    if d.len() > 0 && all_digits(d) && decimal_value(d) <= u32::MAX {
        Some(decimal_value(d) as u32)
    } else {
        None
    }
}

/// What `str::parse::<i32>` gives: an optional sign, then one or more
/// decimal digits, the value in the range of `i32`.
pub open spec fn parse_i32_spec(s: Seq<char>) -> Option<i32> {
    if s.len() > 0 && s[0] == '-' {
        let d = s.drop_first();
        if d.len() > 0 && all_digits(d) && decimal_value(d) <= 0x8000_0000 {
            Some((0 - decimal_value(d)) as i32)
        } else {
            None
        }
    } else {
        let d = unsigned_digits(s);
        if d.len() > 0 && all_digits(d) && decimal_value(d) <= i32::MAX {
            Some(decimal_value(d) as i32)
        } else {
            None
        }
    }
}

proof fn lemma_digit_roundtrip(d: nat)
    requires
        d < 10,
    ensures
        is_digit(digit_char(d)),
        digit_value(digit_char(d)) == d,
{
}

/// The decimal representation is a non-empty run of digits that denotes `n`.
pub proof fn lemma_decimal(n: nat)
    ensures
        decimal(n).len() > 0,
        all_digits(decimal(n)),
        decimal_value(decimal(n)) == n,
    decreases n,
{
    if n < 10 {
        lemma_digit_roundtrip(n);
        assert(decimal(n).drop_last() =~= Seq::<char>::empty());
        assert(decimal_value(Seq::<char>::empty()) == 0);
    } else {
        lemma_decimal(n / 10);
        lemma_digit_roundtrip(n % 10);
        let s = decimal(n);
        assert(s.drop_last() =~= decimal(n / 10));
        assert(s.last() == digit_char(n % 10));
        assert(decimal_value(s) == decimal_value(decimal(n / 10)) * 10 + digit_value(s.last()));
        assert(n == (n / 10) * 10 + n % 10);
        assert forall|i: int| 0 <= i < s.len() implies is_digit(#[trigger] s[i]) by {
            if i < s.len() - 1 {
                assert(s[i] == decimal(n / 10)[i]);
            }
        }
    }
}

/// Dropping digits from the end of a run of digits never raises its value.
proof fn lemma_decimal_value_prefix(s: Seq<char>, k: int)
    requires
        0 <= k <= s.len(),
    ensures
        decimal_value(s.take(k)) <= decimal_value(s),
    decreases s.len(),
{
    if k < s.len() {
        lemma_decimal_value_prefix(s.drop_last(), k);
        assert(s.drop_last().take(k) =~= s.take(k));
    } else {
        assert(s.take(k) =~= s);
    }
}

fn digit_to_char(d: u64) -> (c: char)
    requires
        d < 10,
    ensures
        c == digit_char(d as nat),
{
    if d == 1 {
        '1'
    } else if d == 2 {
        '2'
    } else if d == 3 {
        '3'
    } else if d == 4 {
        '4'
    } else if d == 5 {
        '5'
    } else if d == 6 {
        '6'
    } else if d == 7 {
        '7'
    } else if d == 8 {
        '8'
    } else if d == 9 {
        '9'
    } else {
        '0'
    }
}

fn char_to_digit(c: char) -> (d: u64)
    ensures
        d == digit_value(c),
        d < 10,
{
    if c == '1' {
        1
    } else if c == '2' {
        2
    } else if c == '3' {
        3
    } else if c == '4' {
        4
    } else if c == '5' {
        5
    } else if c == '6' {
        6
    } else if c == '7' {
        7
    } else if c == '8' {
        8
    } else if c == '9' {
        9
    } else {
        0
    }
}

/// Appends the decimal representation of `n` to `out`.
pub fn push_decimal(out: &mut Vec<char>, n: u64)
    ensures
        final(out)@ == old(out)@ + decimal(n as nat),
    decreases n,
{
    if n >= 10 {
        push_decimal(out, n / 10);
    }
    let c = digit_to_char(n % 10);
    let ghost before = out@;
    out.push(c);
    if n >= 10 {
        assert(out@ =~= old(out)@ + decimal(n as nat));
    } else {
        assert(out@ =~= old(out)@ + decimal(n as nat));
    }
}

/// Appends the decimal representation of a signed `n` to `out`.
pub fn push_signed_decimal(out: &mut Vec<char>, n: i64)
    ensures
        final(out)@ == old(out)@ + signed_decimal(n as int),
{
    if n < 0 {
        out.push('-');
        let magnitude: u64 = if n == i64::MIN {
            0x8000_0000_0000_0000u64
        } else {
            (0 - n) as u64
        };
        push_decimal(out, magnitude);
        assert(out@ =~= old(out)@ + signed_decimal(n as int));
    } else {
        push_decimal(out, n as u64);
    }
}

/// The value of the digits `s[from..]`, when they are one or more digits
/// whose value is at most `limit`.
fn parse_digits(s: &[char], from: usize, limit: u64) -> (r: Option<u64>)
    requires
        from <= s@.len(),
        limit <= u32::MAX + 1,
    ensures
        ({
            let d = s@.skip(from as int);
            r == if d.len() > 0 && all_digits(d) && decimal_value(d) <= limit {
                Some(decimal_value(d) as u64)
            } else {
                None::<u64>
            }
        }),
{
    let ghost d = s@.skip(from as int);
    if from == s.len() {
        return None;
    }
    let mut v: u64 = 0;
    let mut i: usize = from;
    while i < s.len()
        invariant
            from <= i <= s@.len(),
            d == s@.skip(from as int),
            all_digits(d.take(i - from)),
            v == decimal_value(d.take(i - from)),
            v <= limit,
            limit <= u32::MAX + 1,
        decreases s@.len() - i,
    {
        let c = s[i];
        if !('0' <= c && c <= '9') {
            assert(d[i - from] == c);
            return None;
        }
        let dv = char_to_digit(c);
        assert(d.take(i - from + 1).drop_last() =~= d.take(i - from));
        assert(d.take(i - from + 1).last() == c);
        let next = v * 10 + dv;
        assert(all_digits(d.take(i - from + 1))) by {
            assert forall|j: int| 0 <= j < i - from + 1 implies is_digit(
                #[trigger] d.take(i - from + 1)[j],
            ) by {
                if j < i - from {
                    assert(d.take(i - from + 1)[j] == d.take(i - from)[j]);
                }
            }
        }
        if next > limit {
            proof {
                if d.len() > 0 && all_digits(d) {
                    lemma_decimal_value_prefix(d, i - from + 1);
                }
            }
            return None;
        }
        v = next;
        i = i + 1;
    }
    assert(d.take(i - from) =~= d);
    Some(v)
}

/// `str::parse::<u32>` on a character slice.
pub fn parse_u32(s: &[char]) -> (r: Option<u32>)
    ensures
        r == parse_u32_spec(s@),
{
    let from: usize = if s.len() > 0 && s[0] == '+' {
        1
    } else {
        0
    };
    assert(s@.skip(from as int) =~= unsigned_digits(s@));
    match parse_digits(s, from, 0xffff_ffffu64) {
        Some(v) => Some(v as u32),
        None => None,
    }
}

/// `str::parse::<i32>` on a character slice.
pub fn parse_i32(s: &[char]) -> (r: Option<i32>)
    ensures
        r == parse_i32_spec(s@),
{
    if s.len() > 0 && s[0] == '-' {
        assert(s@.skip(1) =~= s@.drop_first());
        match parse_digits(s, 1, 0x8000_0000u64) {
            Some(v) => {
                let w: i64 = 0 - (v as i64);
                Some(w as i32)
            },
            None => None,
        }
    } else {
        let from: usize = if s.len() > 0 && s[0] == '+' {
            1
        } else {
            0
        };
        assert(s@.skip(from as int) =~= unsigned_digits(s@));
        match parse_digits(s, from, 0x7fff_ffffu64) {
            Some(v) => Some(v as i32),
            None => None,
        }
    }
}

/// Reading back a decimal representation gives the number that was written.
pub proof fn law_u32_decimal_round_trip(n: u32)
    ensures
        parse_u32_spec(decimal(n as nat)) == Some(n),
{
    lemma_decimal(n as nat);
    let s = decimal(n as nat);
    assert(is_digit(s[0]));
    assert(unsigned_digits(s) == s);
}

/// Reading back a signed decimal representation gives the number that was written.
pub proof fn law_i32_decimal_round_trip(n: i32)
    ensures
        parse_i32_spec(signed_decimal(n as int)) == Some(n),
{
    if n < 0 {
        lemma_decimal((-n) as nat);
        let s = signed_decimal(n as int);
        assert(s.drop_first() =~= decimal((-n) as nat));
    } else {
        lemma_decimal(n as nat);
        let s = decimal(n as nat);
        assert(is_digit(s[0]));
        assert(unsigned_digits(s) == s);
    }
}

// ---------------------------------------------------------------------------
// Prefixes, replacement, joining, padding
// ---------------------------------------------------------------------------

/// `s` begins with `p`.
pub open spec fn starts_with(s: Seq<char>, p: Seq<char>) -> bool {
    p.len() <= s.len() && s.take(p.len() as int) == p
}

/// Whether `pat` occurs in `s` at position `at`.
pub fn matches_at(s: &[char], at: usize, pat: &[char]) -> (b: bool)
    requires
        at <= s@.len(),
    ensures
        b == starts_with(s@.skip(at as int), pat@),
{
    let n = s.len();
    if pat.len() > n - at {
        return false;
    }
    let mut k: usize = 0;
    while k < pat.len()
        invariant
            n == s@.len(),
            at + pat@.len() <= s@.len(),
            k <= pat@.len(),
            forall|j: int| 0 <= j < k ==> s@[at + j] == pat@[j],
        decreases pat@.len() - k,
    {
        if s[at + k] != pat[k] {
            assert(s@.skip(at as int).take(pat@.len() as int)[k as int] == s@[at + k]);
            return false;
        }
        k = k + 1;
    }
    assert(s@.skip(at as int).take(pat@.len() as int) =~= pat@);
    true
}

/// `s` with every occurrence of `pat`, taken from left to right without
/// overlap, replaced by `rep` (`str::replace` with a non-empty pattern).
pub open spec fn replace(s: Seq<char>, pat: Seq<char>, rep: Seq<char>) -> Seq<char>
    decreases s.len(),
{
    if pat.len() == 0 || s.len() < pat.len() {
        s
    } else if s.take(pat.len() as int) == pat {
        rep + replace(s.skip(pat.len() as int), pat, rep)
    } else {
        seq![s[0]] + replace(s.drop_first(), pat, rep)
    }
}

/// A text in which the pattern does not occur is left unchanged.
pub proof fn lemma_replace_absent(s: Seq<char>, pat: Seq<char>, rep: Seq<char>)
    requires
        pat.len() > 0,
        forall|i: int| 0 <= i <= s.len() - pat.len() ==> !starts_with(#[trigger] s.skip(i), pat),
    ensures
        replace(s, pat, rep) == s,
    decreases s.len(),
{
    if s.len() >= pat.len() {
        assert(s.skip(0) =~= s);
        assert forall|i: int| 0 <= i <= s.drop_first().len() - pat.len() implies !starts_with(
            #[trigger] s.drop_first().skip(i),
            pat,
        ) by {
            assert(s.drop_first().skip(i) =~= s.skip(i + 1));
        }
        lemma_replace_absent(s.drop_first(), pat, rep);
        assert(seq![s[0]] + s.drop_first() =~= s);
    }
}

/// `str::replace` on character slices, for a non-empty pattern.
pub fn replace_chars(s: &[char], pat: &[char], rep: &[char]) -> (out: Vec<char>)
    requires
        pat@.len() > 0,
    ensures
        out@ == replace(s@, pat@, rep@),
{
    let mut out: Vec<char> = Vec::new();
    let mut i: usize = 0;
    assert(s@.skip(0) =~= s@);
    while i < s.len()
        invariant
            i <= s@.len(),
            pat@.len() > 0,
            replace(s@, pat@, rep@) == out@ + replace(s@.skip(i as int), pat@, rep@),
        decreases s@.len() - i,
    {
        let ghost rest = s@.skip(i as int);
        if matches_at(s, i, pat) {
            push_chars(&mut out, rep);
            assert(rest.skip(pat@.len() as int) =~= s@.skip(i + pat@.len()));
            i = i + pat.len();
        } else {
            out.push(s[i]);
            assert(rest.drop_first() =~= s@.skip(i + 1));
            proof {
                if rest.len() < pat@.len() {
                    lemma_replace_short(rest.drop_first(), pat@, rep@);
                    assert(seq![rest[0]] + rest.drop_first() =~= rest);
                }
            }
            i = i + 1;
        }
    }
    assert(s@.skip(i as int) =~= Seq::<char>::empty());
    assert(out@ + Seq::<char>::empty() =~= out@);
    out
}

proof fn lemma_replace_short(s: Seq<char>, pat: Seq<char>, rep: Seq<char>)
    requires
        s.len() < pat.len(),
    ensures
        replace(s, pat, rep) == s,
{
}

/// The parts joined with `sep` between each two of them (`slice::join`).
pub open spec fn join(parts: Seq<Seq<char>>, sep: Seq<char>) -> Seq<char>
    decreases parts.len(),
{
    if parts.len() == 0 {
        seq![]
    } else if parts.len() == 1 {
        parts[0]
    } else {
        join(parts.drop_last(), sep) + sep + parts.last()
    }
}

/// The character sequences held by a sequence of strings.
pub open spec fn strings_view(v: Seq<String>) -> Seq<Seq<char>> {
    v.map_values(|x: String| x@)
}

/// The strings joined with `sep`, as characters.
pub fn join_strings(parts: &[String], sep: &str) -> (out: Vec<char>)
    ensures
        out@ == join(strings_view(parts@), sep@),
{
    let mut out: Vec<char> = Vec::new();
    let ghost views = strings_view(parts@);
    let mut i: usize = 0;
    while i < parts.len()
        invariant
            i <= parts@.len(),
            views == strings_view(parts@),
            out@ == join(views.take(i as int), sep@),
        decreases parts@.len() - i,
    {
        if i > 0 {
            push_str(&mut out, sep);
        }
        push_str(&mut out, parts[i].as_str());
        assert(views.take(i + 1).drop_last() =~= views.take(i as int));
        if i == 0 {
            assert(views.take(1)[0] == parts@[0]@);
        }
        i = i + 1;
    }
    assert(views.take(i as int) =~= views);
    out
}

/// The character vectors joined with `sep`.
pub fn join_char_vecs(parts: &Vec<Vec<char>>, sep: &[char]) -> (out: Vec<char>)
    ensures
        out@ == join(char_vecs_view(parts@), sep@),
{
    let mut out: Vec<char> = Vec::new();
    let ghost views = char_vecs_view(parts@);
    let mut i: usize = 0;
    while i < parts.len()
        invariant
            i <= parts@.len(),
            views == char_vecs_view(parts@),
            out@ == join(views.take(i as int), sep@),
        decreases parts@.len() - i,
    {
        if i > 0 {
            push_chars(&mut out, sep);
        }
        push_chars(&mut out, parts[i].as_slice());
        assert(views.take(i + 1).drop_last() =~= views.take(i as int));
        if i == 0 {
            assert(views.take(1)[0] == parts@[0]@);
        }
        i = i + 1;
    }
    assert(views.take(i as int) =~= views);
    out
}

/// `s` followed by spaces up to `width` characters, as `{:<width}` formats it.
pub open spec fn pad_right(s: Seq<char>, width: nat) -> Seq<char> {
    if s.len() >= width {
        s
    } else {
        s + Seq::new((width - s.len()) as nat, |i: int| ' ')
    }
}

/// Appends `s` padded with spaces to `width` characters.
pub fn push_padded(out: &mut Vec<char>, s: &[char], width: usize)
    ensures
        final(out)@ == old(out)@ + pad_right(s@, width as nat),
{
    push_chars(out, s);
    let mut n = s.len();
    while n < width
        invariant
            n >= s@.len(),
            n <= width || n == s@.len(),
            final_padding(out@, old(out)@, s@, n as nat),
        decreases width - n,
    {
        out.push(' ');
        n = n + 1;
        assert(out@ =~= old(out)@ + s@ + Seq::new((n - s@.len()) as nat, |i: int| ' '));
    }
    assert(out@ =~= old(out)@ + pad_right(s@, width as nat));
}

spec fn final_padding(out: Seq<char>, start: Seq<char>, s: Seq<char>, n: nat) -> bool {
    out =~= start + s + Seq::new((n - s.len()) as nat, |i: int| ' ')
}

// ---------------------------------------------------------------------------
// Facts about trimming and replacing
// ---------------------------------------------------------------------------

/// The trimmed text is a piece of the text, and trimming it again changes
/// nothing; it is empty or starts and ends with a non-whitespace character.
pub proof fn lemma_trim_facts(s: Seq<char>)
    ensures
        exists|b: int, e: int| 0 <= b <= e <= s.len() && #[trigger] s.subrange(b, e) == trim(s),
        trim(trim(s)) == trim(s),
        trim(s).len() > 0 ==> !is_ws(trim(s)[0]) && !is_ws(trim(s).last()),
{
    lemma_trim_start_shape(s);
    let t = trim_start(s);
    lemma_trim_end_shape(t);
    let u = trim_end(t);
    let b = s.len() - t.len();
    assert(s.subrange(b, b + u.len()) =~= u);
    if u.len() > 0 {
        assert(u[0] == t[0]);
        assert(trim_start(u) == u);
        lemma_trim_end_shape(u);
        assert(trim_end(u) == u);
    } else {
        assert(trim_start(u) == u);
        assert(trim_end(u) == u);
    }
}

/// Replacing every `from` character by a different `to` leaves none.
pub proof fn lemma_replace_char_removes(s: Seq<char>, from: char, to: char)
    requires
        from != to,
    ensures
        !replace(s, seq![from], seq![to]).contains(from),
    decreases s.len(),
{
    if s.len() >= 1 {
        lemma_replace_char_removes(s.drop_first(), from, to);
        let r = replace(s, seq![from], seq![to]);
        if s.take(1) == seq![from] {
            assert(s.skip(1) =~= s.drop_first());
            let tail = replace(s.drop_first(), seq![from], seq![to]);
            assert(r =~= seq![to] + tail);
            if r.contains(from) {
                let j = choose|j: int| 0 <= j < r.len() && r[j] == from;
                assert(tail[j - 1] == from);
            }
        } else {
            let tail = replace(s.drop_first(), seq![from], seq![to]);
            assert(s[0] != from) by {
                if s[0] == from {
                    assert(s.take(1) =~= seq![from]);
                }
            }
            assert(r =~= seq![s[0]] + tail);
            if r.contains(from) {
                let j = choose|j: int| 0 <= j < r.len() && r[j] == from;
                assert(tail[j - 1] == from);
            }
        }
    }
}

} // verus!
