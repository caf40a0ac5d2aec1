//! Rules: which output lines trigger which notifications.

use vstd::prelude::*;

use crate::config::RuleConfig;
use crate::formatting::{field_text, field_texts, inline_fields, push_truncated, truncated};
use crate::pattern::{compile_pattern, pattern_finds, regex_compiles, regex_finds, CompiledPattern};
use crate::text::{
    char_vecs_view, chars_of, clone_opt_string, join, join_char_vecs, opt_view, push_chars,
    push_str, replace, replace_chars, string_from_chars, strings_view,
};

verus! {

/// The output streams a rule watches.
#[derive(Clone, Copy, Debug, PartialEq, Eq, Structural)]
pub enum StreamSelector {
    Stdout,
    Stderr,
    Both,
}

/// The stream an output line came from; `Combined` is a terminal's merged output.
#[derive(Clone, Copy, Debug, PartialEq, Eq, Structural)]
pub enum StreamKind {
    Stdout,
    Stderr,
    Combined,
}

impl StreamKind {
    /// The stream's name as messages show it.
    pub open spec fn label(self) -> Seq<char> {
        match self {
            StreamKind::Stdout => seq!['s', 't', 'd', 'o', 'u', 't'],
            StreamKind::Stderr => seq!['s', 't', 'd', 'e', 'r', 'r'],
            StreamKind::Combined => seq!['c', 'o', 'm', 'b', 'i', 'n', 'e', 'd'],
        }
    }

    pub fn as_str(self) -> (s: &'static str)
        ensures
            s@ == self.label(),
    {
        match self {
            StreamKind::Stdout => {
                proof {
                    reveal_strlit("stdout");
                }
                "stdout"
            },
            StreamKind::Stderr => {
                proof {
                    reveal_strlit("stderr");
                }
                "stderr"
            },
            StreamKind::Combined => {
                proof {
                    reveal_strlit("combined");
                }
                "combined"
            },
        }
    }
}

/// Whether a rule that watches `selector` sees a line of `stream`: a rule
/// on both streams sees every line, and every rule sees merged output.
pub open spec fn stream_selected(selector: StreamSelector, stream: StreamKind) -> bool {
    match selector {
        StreamSelector::Both => true,
        StreamSelector::Stdout => stream is Stdout || stream is Combined,
        StreamSelector::Stderr => stream is Stderr || stream is Combined,
    }
}

pub fn rule_matches_stream(selector: StreamSelector, stream: StreamKind) -> (b: bool)
    ensures
        b == stream_selected(selector, stream),
{
    match selector {
        StreamSelector::Both => true,
        StreamSelector::Stdout => match stream {
            StreamKind::Stderr => false,
            _ => true,
        },
        StreamSelector::Stderr => match stream {
            StreamKind::Stdout => false,
            _ => true,
        },
    }
}

/// A rule whose patterns are compiled. `cooldown_secs` is the least time,
/// in seconds, between two notifications of the rule.
pub struct CompiledRule {
    pub name: String,
    pub regexes: Vec<CompiledPattern>,
    pub stream: StreamSelector,
    pub notify_template: Option<String>,
    pub cooldown_secs: u64,
    pub max_notifications: Option<u32>,
}

impl CompiledRule {
    /// Some pattern of the rule matches somewhere in `line`.
    pub open spec fn hits(self, line: Seq<char>) -> bool {
        exists|j: int| 0 <= j < self.regexes@.len() && #[trigger] regex_finds(self.regexes@[j]@, line)
    }
}

/// Whether some pattern of `rule` matches somewhere in `line`.
pub fn rule_hits(rule: &CompiledRule, line: &str) -> (b: bool)
    ensures
        b == rule.hits(line@),
{
    let mut j: usize = 0;
    while j < rule.regexes.len()
        invariant
            j <= rule.regexes@.len(),
            forall|k: int| 0 <= k < j ==> !regex_finds(#[trigger] rule.regexes@[k]@, line@),
        decreases rule.regexes@.len() - j,
    {
        if pattern_finds(&rule.regexes[j], line) {
            return true;
        }
        j = j + 1;
    }
    false
}

/// The patterns of a configured rule: `pattern`, if given, then `patterns`.
pub open spec fn rule_patterns(rule: RuleConfig) -> Seq<Seq<char>> {
    (match rule.pattern {
        Some(p) => seq![p@],
        None => Seq::<Seq<char>>::empty(),
    }) + strings_view(rule.patterns@)
}

/// A configured rule has at least one pattern and all of them compile.
pub open spec fn rule_compiles(rule: RuleConfig) -> bool {
    rule_patterns(rule).len() > 0 && forall|j: int|
        0 <= j < rule_patterns(rule).len() ==> regex_compiles(#[trigger] rule_patterns(rule)[j])
}

/// `c` is the compilation of the configured rule `r`.
pub open spec fn compiled_from(c: CompiledRule, r: RuleConfig) -> bool {
    &&& c.name@ == r.name@
    &&& c.regexes@.len() == rule_patterns(r).len()
    &&& forall|j: int| 0 <= j < c.regexes@.len() ==> #[trigger] c.regexes@[j]@ == rule_patterns(r)[j]
    &&& c.stream == r.stream
    &&& opt_view(c.notify_template) == opt_view(r.notify_template)
    &&& c.cooldown_secs == (match r.cooldown_secs {
        Some(s) => s,
        None => 0,
    })
    &&& c.max_notifications == r.max_notifications
}

/// Why a configured rule could not be compiled.
pub enum RuleError {
    /// The rule has neither `pattern` nor `patterns`.
    MissingPattern { rule: String },
    /// One of the rule's patterns is not a valid regex.
    InvalidRegex { rule: String, error: regex::Error },
}

/// The error reports what is wrong with the configured rule `r`.
pub open spec fn error_for(e: RuleError, r: RuleConfig) -> bool {
    match e {
        RuleError::MissingPattern { rule } => rule@ == r.name@ && rule_patterns(r).len() == 0,
        RuleError::InvalidRegex { rule, .. } => rule@ == r.name@ && rule_patterns(r).len() > 0,
    }
}

/// The text of a rule error.
pub open spec fn rule_error_text(e: RuleError) -> Seq<char> {
    match e {
        RuleError::MissingPattern { rule } => "rule `"@ + rule@
            + "` must define `pattern` or `patterns`"@,
        RuleError::InvalidRegex { rule, .. } => "invalid regex for rule `"@ + rule@ + seq!['`'],
    }
}

impl RuleError {
    pub fn message(&self) -> (out: String)
        ensures
            out@ == rule_error_text(*self),
    {
        let mut out: Vec<char> = Vec::new();
        match self {
            RuleError::MissingPattern { rule } => {
                push_str(&mut out, "rule `");
                push_str(&mut out, rule.as_str());
                push_str(&mut out, "` must define `pattern` or `patterns`");
            },
            RuleError::InvalidRegex { rule, .. } => {
                push_str(&mut out, "invalid regex for rule `");
                push_str(&mut out, rule.as_str());
                out.push('`');
            },
        }
        string_from_chars(&out)
    }
}

fn compile_rule(rule: &RuleConfig) -> (r: Result<CompiledRule, RuleError>)
    ensures
        r is Ok <==> rule_compiles(*rule),
        r matches Ok(c) ==> compiled_from(c, *rule),
        r matches Err(e) ==> error_for(e, *rule),
{
    let ghost want = rule_patterns(*rule);
    let mut patterns: Vec<String> = Vec::new();
    match &rule.pattern {
        Some(p) => patterns.push(p.clone()),
        None => {},
    }
    let ghost first = strings_view(patterns@);
    let mut k: usize = 0;
    while k < rule.patterns.len()
        invariant
            k <= rule.patterns@.len(),
            strings_view(patterns@) == first + strings_view(rule.patterns@.take(k as int)),
        decreases rule.patterns@.len() - k,
    {
        let ghost before = patterns@;
        patterns.push(rule.patterns[k].clone());
        assert(strings_view(patterns@) =~= strings_view(before).push(rule.patterns@[k as int]@));
        assert(strings_view(rule.patterns@.take(k + 1)) =~= strings_view(
            rule.patterns@.take(k as int),
        ).push(rule.patterns@[k as int]@));
        k = k + 1;
        assert(strings_view(patterns@) =~= first + strings_view(rule.patterns@.take(k as int)));
    }
    assert(rule.patterns@.take(k as int) =~= rule.patterns@);
    assert(strings_view(patterns@) =~= want);
    if patterns.len() == 0 {
        return Err(RuleError::MissingPattern { rule: rule.name.clone() });
    }
    let mut regexes: Vec<CompiledPattern> = Vec::new();
    let mut j: usize = 0;
    while j < patterns.len()
        invariant
            j <= patterns@.len(),
            strings_view(patterns@) == want,
            want == rule_patterns(*rule),
            want.len() > 0,
            regexes@.len() == j,
            forall|t: int| 0 <= t < j ==> #[trigger] regexes@[t]@ == want[t],
            forall|t: int| 0 <= t < j ==> regex_compiles(#[trigger] want[t]),
        decreases patterns@.len() - j,
    {
        assert(patterns@[j as int]@ == want[j as int]);
        match compile_pattern(patterns[j].as_str()) {
            Ok(p) => regexes.push(p),
            Err(error) => {
                return Err(RuleError::InvalidRegex { rule: rule.name.clone(), error });
            },
        }
        j = j + 1;
    }
    let cooldown_secs = match rule.cooldown_secs {
        Some(s) => s,
        None => 0,
    };
    Ok(
        CompiledRule {
            name: rule.name.clone(),
            regexes,
            stream: rule.stream,
            notify_template: clone_opt_string(&rule.notify_template),
            cooldown_secs,
            max_notifications: rule.max_notifications,
        },
    )
}

/// Compiles the configured rules in order. It fails on the first rule that
/// has no pattern or a pattern that does not compile, and reports that rule.
pub fn compile_rules(rules: &[RuleConfig]) -> (r: Result<Vec<CompiledRule>, RuleError>)
    ensures
        r is Ok <==> forall|i: int| 0 <= i < rules@.len() ==> rule_compiles(#[trigger] rules@[i]),
        r matches Ok(c) ==> c@.len() == rules@.len() && forall|i: int|
            0 <= i < rules@.len() ==> compiled_from(#[trigger] c@[i], rules@[i]),
        r matches Ok(c) ==> forall|i: int|
            0 <= i < rules@.len() ==> (#[trigger] c@[i]).cooldown_secs == (match rules@[i].cooldown_secs {
                Some(s) => s,
                None => 0u64,
            }) && c@[i].max_notifications == rules@[i].max_notifications && c@[i].name@
                == rules@[i].name@,
        r matches Err(e) ==> exists|i: int|
            0 <= i < rules@.len() && (forall|k: int| 0 <= k < i ==> rule_compiles(#[trigger] rules@[k]))
                && !rule_compiles(rules@[i]) && error_for(e, #[trigger] rules@[i]),
{
    let mut compiled: Vec<CompiledRule> = Vec::new();
    let mut i: usize = 0;
    while i < rules.len()
        invariant
            i <= rules@.len(),
            compiled@.len() == i,
            forall|k: int| 0 <= k < i ==> compiled_from(#[trigger] compiled@[k], rules@[k]),
            forall|k: int| 0 <= k < i ==> rule_compiles(#[trigger] rules@[k]),
        decreases rules@.len() - i,
    {
        match compile_rule(&rules[i]) {
            Ok(c) => compiled.push(c),
            Err(e) => {
                assert(!rule_compiles(rules@[i as int]));
                return Err(e);
            },
        }
        i = i + 1;
    }
    Ok(compiled)
}

// ---------------------------------------------------------------------------
// Notification state
// ---------------------------------------------------------------------------

/// How often a rule has notified, and when it last did (in nanoseconds on
/// the caller's monotonic clock).
#[derive(Clone, Copy, Debug)]
pub struct RuleState {
    pub sent_count: u32,
    pub last_sent_at: Option<u64>,
}

/// The state of a rule that has not notified yet.
pub open spec fn fresh_rule_state() -> RuleState {
    RuleState { sent_count: 0, last_sent_at: None }
}

impl Default for RuleState {
    fn default() -> (s: Self)
        ensures
            s == fresh_rule_state(),
    {
        RuleState { sent_count: 0, last_sent_at: None }
    }
}

/// The state of the rules of one name.
pub struct RuleEntry {
    pub name: String,
    pub state: RuleState,
}

/// What the watcher remembers across lines: the last line of each stream
/// and, per rule name, the rule's notification state. Rules that share a
/// name share their state.
pub struct SharedState {
    pub last_stdout: Option<String>,
    pub last_stderr: Option<String>,
    pub rules: Vec<RuleEntry>,
}

/// No two entries are for the same rule name.
pub open spec fn names_distinct(es: Seq<RuleEntry>) -> bool {
    forall|i: int, j: int| 0 <= i < j < es.len() ==> es[i].name@ != es[j].name@
}

/// The state of each rule name that has an entry.
pub open spec fn states_map(es: Seq<RuleEntry>) -> Map<Seq<char>, RuleState>
    decreases es.len(),
{
    if es.len() == 0 {
        Map::empty()
    } else {
        states_map(es.drop_last()).insert(es.last().name@, es.last().state)
    }
}

impl SharedState {
    /// Each rule name has at most one entry.
    pub open spec fn wf(&self) -> bool {
        names_distinct(self.rules@)
    }

    /// The notification state of each rule name seen so far.
    pub open spec fn rule_states(&self) -> Map<Seq<char>, RuleState> {
        states_map(self.rules@)
    }

    /// Every count can grow by `n` without passing `u32::MAX`.
    pub open spec fn room_for(&self, n: nat) -> bool {
        &&& n <= u32::MAX
        &&& forall|i: int|
            0 <= i < self.rules@.len() ==> #[trigger] self.rules@[i].state.sent_count + n
                <= u32::MAX
    }

    /// Whether every count can grow by `n` without passing `u32::MAX`.
    pub fn has_room(&self, n: usize) -> (b: bool)
        ensures
            b == self.room_for(n as nat),
    {
        if n > 0xffff_ffffusize {
            return false;
        }
        let mut i: usize = 0;
        while i < self.rules.len()
            invariant
                n <= u32::MAX,
                i <= self.rules@.len(),
                forall|k: int|
                    0 <= k < i ==> #[trigger] self.rules@[k].state.sent_count + n <= u32::MAX,
            decreases self.rules@.len() - i,
        {
            if self.rules[i].state.sent_count as u64 + n as u64 > 0xffff_ffffu64 {
                return false;
            }
            i = i + 1;
        }
        true
    }
}

impl Default for SharedState {
    fn default() -> (s: Self)
        ensures
            s.last_stdout is None,
            s.last_stderr is None,
            s.rules@.len() == 0,
    {
        SharedState { last_stdout: None, last_stderr: None, rules: Vec::new() }
    }
}

/// A rule name has an entry exactly when the map holds it, and then the
/// map holds the entry's state.
pub proof fn lemma_states_map_lookup(es: Seq<RuleEntry>, k: Seq<char>)
    requires
        names_distinct(es),
    ensures
        states_map(es).contains_key(k) <==> exists|i: int| 0 <= i < es.len() && #[trigger] es[i].name@ == k,
        forall|i: int| 0 <= i < es.len() && #[trigger] es[i].name@ == k ==> states_map(es)[k] == es[i].state,
    decreases es.len(),
{
    if es.len() > 0 {
        let init = es.drop_last();
        assert(names_distinct(init));
        lemma_states_map_lookup(init, k);
        if states_map(init).contains_key(k) {
            let i = choose|i: int| 0 <= i < init.len() && #[trigger] init[i].name@ == k;
            assert(es[i].name@ == k);
        }
        assert forall|i: int| 0 <= i < es.len() && #[trigger] es[i].name@ == k implies states_map(
            es,
        )[k] == es[i].state by {
            if i < es.len() - 1 {
                assert(init[i].name@ == k);
                assert(es.last().name@ != k);
            }
        }
        if exists|i: int| 0 <= i < es.len() && #[trigger] es[i].name@ == k {
            let i = choose|i: int| 0 <= i < es.len() && #[trigger] es[i].name@ == k;
            if i < es.len() - 1 {
                assert(init[i].name@ == k);
            }
        }
    }
}

/// Replacing the state in the entry of a name updates the map at that name.
pub proof fn lemma_states_map_update(es: Seq<RuleEntry>, i: int, e: RuleEntry)
    requires
        names_distinct(es),
        0 <= i < es.len(),
        e.name@ == es[i].name@,
    ensures
        names_distinct(es.update(i, e)),
        states_map(es.update(i, e)) == states_map(es).insert(e.name@, e.state),
    decreases es.len(),
{
    let es2 = es.update(i, e);
    if i == es.len() - 1 {
        assert(es2.drop_last() =~= es.drop_last());
        assert(states_map(es2) =~= states_map(es).insert(e.name@, e.state));
    } else {
        lemma_states_map_update(es.drop_last(), i, e);
        assert(es2.drop_last() =~= es.drop_last().update(i, e));
        assert(es.last().name@ != e.name@);
        assert(states_map(es2) =~= states_map(es).insert(e.name@, e.state));
    }
}

/// Appending an entry for a new name adds that name to the map.
pub proof fn lemma_states_map_push(es: Seq<RuleEntry>, e: RuleEntry)
    requires
        names_distinct(es),
        forall|i: int| 0 <= i < es.len() ==> #[trigger] es[i].name@ != e.name@,
    ensures
        names_distinct(es.push(e)),
        states_map(es.push(e)) == states_map(es).insert(e.name@, e.state),
{
    assert(es.push(e).drop_last() =~= es);
}

/// Index of the entry for `name`, if there is one.
fn find_entry(entries: &Vec<RuleEntry>, name: &String) -> (r: Option<usize>)
    ensures
        match r {
            Some(i) => i < entries@.len() && entries@[i as int].name@ == name@,
            None => forall|i: int| 0 <= i < entries@.len() ==> #[trigger] entries@[i].name@ != name@,
        },
{
    let mut i: usize = 0;
    while i < entries.len()
        invariant
            i <= entries@.len(),
            forall|k: int| 0 <= k < i ==> #[trigger] entries@[k].name@ != name@,
        decreases entries@.len() - i,
    {
        if entries[i].name.eq(name) {
            return Some(i);
        }
        i = i + 1;
    }
    None
}

/// Nanoseconds from `since` to `now` on a monotonic clock; zero when `now`
/// is not later (as `Instant::elapsed` saturates).
pub open spec fn elapsed_nanos(since: u64, now: u64) -> nat {
    if now >= since {
        (now - since) as nat
    } else {
        0
    }
}

/// Whether a rule in state `st` may notify at `now`: it is below its
/// maximum count, and its cooldown has passed since its last notification.
pub open spec fn throttle_allows(st: RuleState, rule: CompiledRule, now: u64) -> bool {
    &&& match rule.max_notifications {
        Some(m) => st.sent_count < m,
        None => true,
    }
    &&& match st.last_sent_at {
        Some(t) => elapsed_nanos(t, now) >= rule.cooldown_secs * 1_000_000_000,
        None => true,
    }
}

fn allows(st: RuleState, rule: &CompiledRule, now: u64) -> (b: bool)
    ensures
        b == throttle_allows(st, *rule, now),
{
    match rule.max_notifications {
        Some(m) => {
            if st.sent_count >= m {
                return false;
            }
        },
        None => {},
    }
    match st.last_sent_at {
        Some(t) => {
            let elapsed: u64 = if now >= t {
                now - t
            } else {
                0
            };
            (elapsed as u128) >= (rule.cooldown_secs as u128) * 1_000_000_000u128
        },
        None => true,
    }
}

/// The effect of one rule on the states, and whether it fires: a rule that
/// sees the stream and matches the line gets an entry; it fires when its
/// throttle allows, counting the notification and stamping it with `now`.
pub open spec fn after_rule(
    states: Map<Seq<char>, RuleState>,
    rule: CompiledRule,
    line: Seq<char>,
    stream: StreamKind,
    now: u64,
) -> (Map<Seq<char>, RuleState>, bool) {
    if !(stream_selected(rule.stream, stream) && rule.hits(line)) {
        (states, false)
    } else {
        let cur = if states.contains_key(rule.name@) {
            states[rule.name@]
        } else {
            fresh_rule_state()
        };
        if throttle_allows(cur, rule, now) {
            (
                states.insert(
                    rule.name@,
                    RuleState { sent_count: (cur.sent_count + 1) as u32, last_sent_at: Some(now) },
                ),
                true,
            )
        } else {
            (states.insert(rule.name@, cur), false)
        }
    }
}

/// The rules applied in order to one line: the final states and the
/// indices of the rules that fired.
pub open spec fn after_rules(
    states: Map<Seq<char>, RuleState>,
    rules: Seq<CompiledRule>,
    line: Seq<char>,
    stream: StreamKind,
    now: u64,
) -> (Map<Seq<char>, RuleState>, Seq<int>)
    decreases rules.len(),
{
    if rules.len() == 0 {
        (states, seq![])
    } else {
        let (m, fired) = after_rules(states, rules.drop_last(), line, stream, now);
        let (m2, f) = after_rule(m, rules.last(), line, stream, now);
        (m2, if f {
            fired.push(rules.len() - 1)
        } else {
            fired
        })
    }
}

/// The count of a name in a map, zero when absent.
pub open spec fn count_of(states: Map<Seq<char>, RuleState>, k: Seq<char>) -> nat {
    if states.contains_key(k) {
        states[k].sent_count as nat
    } else {
        0
    }
}

// ---------------------------------------------------------------------------
// Rule messages
// ---------------------------------------------------------------------------

/// The message of a rule match: the title, the job and stream fields, and
/// the line (cut to 400 characters) in backticks.
pub open spec fn match_message(
    title: Seq<char>,
    job_name: Seq<char>,
    stream: StreamKind,
    line: Seq<char>,
) -> Seq<char> {
    "Nae^2 says | **"@ + title + seq!['*', '*', '\n'] + join(
        seq![field_text("job"@, job_name), field_text("stream"@, stream.label())],
        seq![' ', '|', ' '],
    ) + seq!['\n', '`'] + truncated(line, 400) + seq!['`']
}

pub fn discord_message(title: &str, job_name: &str, stream: StreamKind, line: &str) -> (out: String)
    ensures
        out@ == match_message(title@, job_name@, stream, line@),
{
    let mut out: Vec<char> = Vec::new();
    push_str(&mut out, "Nae^2 says | **");
    push_str(&mut out, title);
    out.push('*');
    out.push('*');
    out.push('\n');
    let fields: Vec<(&str, String)> = vec![
        ("job", job_name.to_owned()),
        ("stream", stream.as_str().to_owned()),
    ];
    assert(field_texts(fields@) =~= seq![
        field_text("job"@, job_name@),
        field_text("stream"@, stream.label()),
    ]);
    let inline = inline_fields(fields.as_slice());
    push_str(&mut out, inline.as_str());
    out.push('\n');
    out.push('`');
    let line_chars = chars_of(line);
    push_truncated(&mut out, line_chars.as_slice(), 400);
    out.push('`');
    assert(out@ =~= match_message(title@, job_name@, stream, line@));
    string_from_chars(&out)
}

/// The title of a match of rules with the given names.
pub open spec fn match_title(names: Seq<char>) -> Seq<char> {
    "Rule Match: "@ + names
}

/// The message for one rule: its template with `{job}`, `{rule}`,
/// `{stream}` and `{line}` replaced in that order, or the default match
/// message when it has no template.
pub open spec fn rule_message(
    job_name: Seq<char>,
    stream: StreamKind,
    line: Seq<char>,
    rule: CompiledRule,
) -> Seq<char> {
    match opt_view(rule.notify_template) {
        Some(t) => replace(
            replace(
                replace(replace(t, "{job}"@, job_name), "{rule}"@, rule.name@),
                "{stream}"@,
                stream.label(),
            ),
            "{line}"@,
            truncated(line, 400),
        ),
        None => match_message(match_title(rule.name@), job_name, stream, line),
    }
}

/// The one message for all rules that fired on a line: the rule's own
/// message when one fired, else a match message naming them all.
pub open spec fn triggered_message(
    job_name: Seq<char>,
    stream: StreamKind,
    line: Seq<char>,
    fired: Seq<CompiledRule>,
) -> Seq<char> {
    if fired.len() == 1 {
        rule_message(job_name, stream, line, fired[0])
    } else {
        match_message(
            match_title(join(fired.map_values(|r: CompiledRule| r.name@), seq![',', ' '])),
            job_name,
            stream,
            line,
        )
    }
}

fn format_rule_message(job_name: &str, stream: StreamKind, line: &str, rule: &CompiledRule) -> (out:
    String)
    ensures
        out@ == rule_message(job_name@, stream, line@, *rule),
{
    match &rule.notify_template {
        Some(template) => {
            proof {
                reveal_strlit("{job}");
                reveal_strlit("{rule}");
                reveal_strlit("{stream}");
                reveal_strlit("{line}");
            }
            let t = chars_of(template.as_str());
            let p_job = chars_of("{job}");
            let p_rule = chars_of("{rule}");
            let p_stream = chars_of("{stream}");
            let p_line = chars_of("{line}");
            let job = chars_of(job_name);
            let name = chars_of(rule.name.as_str());
            let label = chars_of(stream.as_str());
            let line_chars = chars_of(line);
            let mut cut: Vec<char> = Vec::new();
            push_truncated(&mut cut, line_chars.as_slice(), 400);
            assert(cut@ =~= truncated(line@, 400));
            let a = replace_chars(t.as_slice(), p_job.as_slice(), job.as_slice());
            let b = replace_chars(a.as_slice(), p_rule.as_slice(), name.as_slice());
            let c = replace_chars(b.as_slice(), p_stream.as_slice(), label.as_slice());
            let d = replace_chars(c.as_slice(), p_line.as_slice(), cut.as_slice());
            string_from_chars(&d)
        },
        None => {
            let mut title: Vec<char> = Vec::new();
            push_str(&mut title, "Rule Match: ");
            push_str(&mut title, rule.name.as_str());
            let title = string_from_chars(&title);
            discord_message(title.as_str(), job_name, stream, line)
        },
    }
}

/// The rules at the given indices.
pub open spec fn rules_at(rules: Seq<CompiledRule>, idx: Seq<int>) -> Seq<CompiledRule> {
    idx.map_values(|i: int| rules[i])
}

fn format_triggered_message(
    job_name: &str,
    stream: StreamKind,
    line: &str,
    rules: &[CompiledRule],
    fired: &Vec<usize>,
) -> (out: String)
    requires
        fired@.len() > 0,
        forall|t: int| 0 <= t < fired@.len() ==> #[trigger] fired@[t] < rules@.len(),
    ensures
        out@ == triggered_message(
            job_name@,
            stream,
            line@,
            rules_at(rules@, fired@.map_values(|x: usize| x as int)),
        ),
{
    let ghost fired_rules = rules_at(rules@, fired@.map_values(|x: usize| x as int));
    if fired.len() == 1 {
        return format_rule_message(job_name, stream, line, &rules[fired[0]]);
    }
    let ghost names_want = fired_rules.map_values(|r: CompiledRule| r.name@);
    let mut names: Vec<Vec<char>> = Vec::new();
    let mut t: usize = 0;
    while t < fired.len()
        invariant
            t <= fired@.len(),
            forall|u: int| 0 <= u < fired@.len() ==> #[trigger] fired@[u] < rules@.len(),
            fired_rules == rules_at(rules@, fired@.map_values(|x: usize| x as int)),
            names_want == fired_rules.map_values(|r: CompiledRule| r.name@),
            char_vecs_view(names@) == names_want.take(t as int),
        decreases fired@.len() - t,
    {
        let ghost before = names@;
        names.push(chars_of(rules[fired[t]].name.as_str()));
        assert(char_vecs_view(names@) =~= char_vecs_view(before).push(names_want[t as int]));
        assert(names_want.take(t + 1) =~= names_want.take(t as int).push(names_want[t as int]));
        t = t + 1;
    }
    assert(names_want.take(t as int) =~= names_want);
    let joined = join_char_vecs(&names, [',', ' '].as_slice());
    let mut title: Vec<char> = Vec::new();
    push_str(&mut title, "Rule Match: ");
    push_chars(&mut title, joined.as_slice());
    let title = string_from_chars(&title);
    discord_message(title.as_str(), job_name, stream, line)
}

// ---------------------------------------------------------------------------
// Observing a line
// ---------------------------------------------------------------------------

/// The count a name had before, or zero.
spec fn base_count(es: Seq<RuleEntry>, start_len: int, i: int) -> nat {
    if i < start_len {
        es[i].state.sent_count as nat
    } else {
        0
    }
}

impl SharedState {
    /// Records `line` as the last line of its stream and applies the rules
    /// to it in order (see `after_rules`). Returns the one message for all
    /// rules that fired, or nothing when none did.
    pub fn observe_line(
        &mut self,
        line: &str,
        stream: StreamKind,
        job_name: &str,
        rules: &[CompiledRule],
        now: u64,
    ) -> (message: Option<String>)
        requires
            old(self).wf(),
            old(self).room_for(rules@.len()),
        ensures
            final(self).wf(),
            ({
                let (states, fired) = after_rules(
                    old(self).rule_states(),
                    rules@,
                    line@,
                    stream,
                    now,
                );
                &&& final(self).rule_states() == states
                &&& (message is None <==> fired.len() == 0)
                &&& message matches Some(m) ==> m@ == triggered_message(
                    job_name@,
                    stream,
                    line@,
                    rules_at(rules@, fired),
                )
            }),
            match stream {
                StreamKind::Stderr => opt_view(final(self).last_stderr) == Some(line@)
                    && final(self).last_stdout == old(self).last_stdout,
                _ => opt_view(final(self).last_stdout) == Some(line@) && final(self).last_stderr
                    == old(self).last_stderr,
            },
    {
        match stream {
            StreamKind::Stderr => {
                self.last_stderr = Some(line.to_owned());
            },
            _ => {
                self.last_stdout = Some(line.to_owned());
            },
        }
        let ghost m0 = self.rule_states();
        let ghost start = self.rules@;
        let ghost saved_stdout = self.last_stdout;
        let ghost saved_stderr = self.last_stderr;
        let mut fired: Vec<usize> = Vec::new();
        let mut i: usize = 0;
        assert(rules@.take(0) =~= Seq::<CompiledRule>::empty());
        assert(fired@.map_values(|x: usize| x as int) =~= Seq::<int>::empty());
        while i < rules.len()
            invariant
                i <= rules@.len(),
                self.last_stdout == saved_stdout,
                self.last_stderr == saved_stderr,
                names_distinct(self.rules@),
                m0 == states_map(start),
                names_distinct(start),
                start.len() <= self.rules@.len(),
                forall|k: int| 0 <= k < start.len() ==> #[trigger] self.rules@[k].name@ == start[k].name@,
                forall|k: int|
                    0 <= k < self.rules@.len() ==> #[trigger] self.rules@[k].state.sent_count
                        <= base_count(start, start.len() as int, k) + i,
                forall|k: int| 0 <= k < start.len() ==> #[trigger] start[k].state.sent_count + rules@.len() <= u32::MAX,
                rules@.len() <= u32::MAX,
                forall|t: int| 0 <= t < fired@.len() ==> #[trigger] fired@[t] < i,
                (states_map(self.rules@), fired@.map_values(|x: usize| x as int)) == after_rules(
                    m0,
                    rules@.take(i as int),
                    line@,
                    stream,
                    now,
                ),
            decreases rules@.len() - i,
        {
            let rule = &rules[i];
            let ghost before = self.rules@;
            let ghost fired_before = fired@;
            assert(rules@.take(i + 1).drop_last() =~= rules@.take(i as int));
            assert(rules@.take(i + 1).last() == rules@[i as int]);
            let hit = rule_hits(rule, line);
            if rule_matches_stream(rule.stream, stream) && hit {
                proof {
                    lemma_states_map_lookup(before, rule.name@);
                }
                let idx = match find_entry(&self.rules, &rule.name) {
                    Some(k) => k,
                    None => {
                        let e = RuleEntry { name: rule.name.clone(), state: RuleState::default() };
                        proof {
                            lemma_states_map_push(before, e);
                        }
                        self.rules.push(e);
                        self.rules.len() - 1
                    },
                };
                let ghost after_lookup = self.rules@;
                let cur = self.rules[idx].state;
                assert(cur == (if states_map(before).contains_key(rule.name@) {
                    states_map(before)[rule.name@]
                } else {
                    fresh_rule_state()
                }));
                assert(states_map(after_lookup) =~= states_map(before).insert(rule.name@, cur)) by {
                    if states_map(before).contains_key(rule.name@) {
                        assert(after_lookup == before);
                    }
                }
                if allows(cur, rule, now) {
                    assert(cur.sent_count < u32::MAX) by {
                        if idx < start.len() {
                            assert(self.rules@[idx as int].state.sent_count <= start[idx as int].state.sent_count + i);
                        }
                    }
                    let e = RuleEntry {
                        name: rule.name.clone(),
                        state: RuleState { sent_count: cur.sent_count + 1, last_sent_at: Some(now) },
                    };
                    proof {
                        lemma_states_map_update(after_lookup, idx as int, e);
                    }
                    self.rules.set(idx, e);
                    fired.push(i);
                    assert(fired@.map_values(|x: usize| x as int) =~= fired_before.map_values(
                        |x: usize| x as int,
                    ).push(i as int));
                }
            }
            i = i + 1;
        }
        assert(rules@.take(i as int) =~= rules@);
        let ghost fired_idx = fired@.map_values(|x: usize| x as int);
        if fired.len() == 0 {
            None
        } else {
            assert forall|t: int| 0 <= t < fired@.len() implies #[trigger] fired@[t] < rules@.len() by {}
            Some(format_triggered_message(job_name, stream, line, rules, &fired))
        }
    }
}

// ---------------------------------------------------------------------------
// Laws of rule application
// ---------------------------------------------------------------------------

/// What holds of the states and fired rules at every point of applying
/// rules to a line.
proof fn lemma_after_rules_shape(
    m0: Map<Seq<char>, RuleState>,
    rules: Seq<CompiledRule>,
    line: Seq<char>,
    stream: StreamKind,
    now: u64,
)
    ensures
        ({
            let (m, fired) = after_rules(m0, rules, line, stream, now);
            &&& forall|k: Seq<char>| m0.contains_key(k) ==> #[trigger] m.contains_key(k)
            &&& forall|k: Seq<char>|
                #![trigger m[k]]
                m0.contains_key(k) && m0[k].last_sent_at is Some ==> m[k].last_sent_at
                    == m0[k].last_sent_at || m[k].last_sent_at == Some(now)
            &&& forall|t: int| 0 <= t < fired.len() ==> 0 <= #[trigger] fired[t] < rules.len()
            &&& forall|t: int, u: int| 0 <= t < u < fired.len() ==> fired[t] < fired[u]
            &&& forall|t: int|
                #![trigger fired[t]]
                0 <= t < fired.len() ==> stream_selected(rules[fired[t]].stream, stream)
                    && rules[fired[t]].hits(line) && m.contains_key(rules[fired[t]].name@)
                    && m[rules[fired[t]].name@].last_sent_at == Some(now)
        }),
    decreases rules.len(),
{
    if rules.len() > 0 {
        lemma_after_rules_shape(m0, rules.drop_last(), line, stream, now);
        let (m, fired) = after_rules(m0, rules.drop_last(), line, stream, now);
        let (m2, f) = after_rule(m, rules.last(), line, stream, now);
        let fired2 = if f {
            fired.push(rules.len() - 1)
        } else {
            fired
        };
        assert forall|k: Seq<char>|
            #![trigger m2[k]]
            m0.contains_key(k) && m0[k].last_sent_at is Some implies m2[k].last_sent_at
            == m0[k].last_sent_at || m2[k].last_sent_at == Some(now) by {
            assert(m.contains_key(k));
            assert(m[k].last_sent_at == m0[k].last_sent_at || m[k].last_sent_at == Some(now));
        }
        assert forall|t: int|
            #![trigger fired2[t]]
            0 <= t < fired2.len() implies stream_selected(rules[fired2[t]].stream, stream)
            && rules[fired2[t]].hits(line) && m2.contains_key(rules[fired2[t]].name@)
            && m2[rules[fired2[t]].name@].last_sent_at == Some(now) by {
            if t < fired.len() {
                assert(fired2[t] == fired[t]);
                assert(rules[fired[t]] == rules.drop_last()[fired[t]]);
            }
        }
        assert forall|t: int| 0 <= t < fired2.len() implies 0 <= #[trigger] fired2[t]
            < rules.len() by {
            if t < fired.len() {
                assert(fired2[t] == fired[t]);
            }
        }
        assert forall|t: int, u: int| 0 <= t < u < fired2.len() implies fired2[t] < fired2[u] by {
            if u < fired.len() {
                assert(fired2[t] == fired[t]);
                assert(fired2[u] == fired[u]);
            } else {
                assert(fired2[t] == fired[t]);
            }
        }
    }
}

/// Every count can grow by `n` without passing `u32::MAX`.
pub open spec fn counts_have_room(m: Map<Seq<char>, RuleState>, n: nat) -> bool {
    n <= u32::MAX && forall|k: Seq<char>| m.contains_key(k) ==> #[trigger] m[k].sent_count + n <= u32::MAX
}

/// Applying rules to a line only raises notification counts, each by at
/// most the number of rules.
pub proof fn law_counts_only_grow(
    m0: Map<Seq<char>, RuleState>,
    rules: Seq<CompiledRule>,
    line: Seq<char>,
    stream: StreamKind,
    now: u64,
)
    requires
        counts_have_room(m0, rules.len()),
    ensures
        forall|k: Seq<char>|
            #![trigger count_of(after_rules(m0, rules, line, stream, now).0, k)]
            count_of(m0, k) <= count_of(after_rules(m0, rules, line, stream, now).0, k)
                <= count_of(m0, k) + rules.len(),
    decreases rules.len(),
{
    if rules.len() > 0 {
        law_counts_only_grow(m0, rules.drop_last(), line, stream, now);
        let (m, fired) = after_rules(m0, rules.drop_last(), line, stream, now);
        let m2 = after_rules(m0, rules, line, stream, now).0;
        assert forall|k: Seq<char>|
            #![trigger count_of(m2, k)]
            count_of(m0, k) <= count_of(m2, k) <= count_of(m0, k) + rules.len() by {
            assert(count_of(m0, k) <= count_of(m, k) <= count_of(m0, k) + rules.len() - 1);
            if m0.contains_key(k) {
                assert(m0[k].sent_count + rules.len() <= u32::MAX);
            }
        }
    }
}

/// A rule never fires on a line that its stream selector does not admit or
/// that none of its patterns matches; every rule that fires has its state
/// stamped with the time of the line.
pub proof fn law_fired_rules_matched(
    m0: Map<Seq<char>, RuleState>,
    rules: Seq<CompiledRule>,
    line: Seq<char>,
    stream: StreamKind,
    now: u64,
    t: int,
)
    requires
        0 <= t < after_rules(m0, rules, line, stream, now).1.len(),
    ensures
        ({
            let (m, fired) = after_rules(m0, rules, line, stream, now);
            &&& 0 <= fired[t] < rules.len()
            &&& stream_selected(rules[fired[t]].stream, stream)
            &&& rules[fired[t]].hits(line)
            &&& (rules[fired[t]].stream == StreamSelector::Both || stream == StreamKind::Combined
                || (rules[fired[t]].stream == StreamSelector::Stdout && stream == StreamKind::Stdout)
                || (rules[fired[t]].stream == StreamSelector::Stderr && stream == StreamKind::Stderr))
            &&& exists|j: int|
                0 <= j < rules[fired[t]].regexes@.len() && #[trigger] regex_finds(
                    rules[fired[t]].regexes@[j]@,
                    line,
                )
            &&& m[rules[fired[t]].name@].last_sent_at == Some(now)
        }),
{
    lemma_after_rules_shape(m0, rules, line, stream, now);
    let fired = after_rules(m0, rules, line, stream, now).1;
    assert(0 <= fired[t] < rules.len());
}

/// A line that no rule both sees and matches changes no rule state and
/// sends nothing.
pub proof fn law_unmatched_line_is_quiet(
    m0: Map<Seq<char>, RuleState>,
    rules: Seq<CompiledRule>,
    line: Seq<char>,
    stream: StreamKind,
    now: u64,
)
    requires
        forall|i: int|
            0 <= i < rules.len() ==> !(stream_selected(rules[i].stream, stream) && #[trigger] rules[i].hits(line)),
    ensures
        after_rules(m0, rules, line, stream, now) == (m0, Seq::<int>::empty()),
    decreases rules.len(),
{
    if rules.len() > 0 {
        assert forall|i: int|
            0 <= i < rules.drop_last().len() implies !(stream_selected(
            rules.drop_last()[i].stream,
            stream,
        ) && #[trigger] rules.drop_last()[i].hits(line)) by {
            assert(rules.drop_last()[i] == rules[i]);
        }
        law_unmatched_line_is_quiet(m0, rules.drop_last(), line, stream, now);
        assert(!(stream_selected(rules[rules.len() - 1].stream, stream) && rules[rules.len()
            - 1].hits(line)));
    }
}

/// A rule whose name has already notified its maximum number of times
/// does not fire.
pub proof fn law_cap_blocks(
    m0: Map<Seq<char>, RuleState>,
    rules: Seq<CompiledRule>,
    line: Seq<char>,
    stream: StreamKind,
    now: u64,
    i: int,
)
    requires
        0 <= i < rules.len(),
        counts_have_room(m0, rules.len()),
        rules[i].max_notifications matches Some(cap) && count_of(m0, rules[i].name@) >= cap,
    ensures
        !after_rules(m0, rules, line, stream, now).1.contains(i),
    decreases rules.len(),
{
    let (m, fired) = after_rules(m0, rules.drop_last(), line, stream, now);
    lemma_after_rules_shape(m0, rules.drop_last(), line, stream, now);
    law_counts_only_grow(m0, rules.drop_last(), line, stream, now);
    assert forall|t: int| 0 <= t < fired.len() implies #[trigger] fired[t] < rules.len() - 1 by {}
    if i < rules.len() - 1 {
        assert(rules.drop_last()[i] == rules[i]);
        law_cap_blocks(m0, rules.drop_last(), line, stream, now, i);
    } else {
        assert(count_of(m, rules[i].name@) >= count_of(m0, rules[i].name@));
        assert(!fired.contains(i));
    }
}

/// A rule whose name notified less than its cooldown ago (on a clock that
/// has not gone back) does not fire.
pub proof fn law_cooldown_blocks(
    m0: Map<Seq<char>, RuleState>,
    rules: Seq<CompiledRule>,
    line: Seq<char>,
    stream: StreamKind,
    now: u64,
    i: int,
)
    requires
        0 <= i < rules.len(),
        m0.contains_key(rules[i].name@),
        m0[rules[i].name@].last_sent_at matches Some(t) && t <= now && now - t
            < rules[i].cooldown_secs * 1_000_000_000,
    ensures
        !after_rules(m0, rules, line, stream, now).1.contains(i),
    decreases rules.len(),
{
    let (m, fired) = after_rules(m0, rules.drop_last(), line, stream, now);
    lemma_after_rules_shape(m0, rules.drop_last(), line, stream, now);
    assert forall|t: int| 0 <= t < fired.len() implies #[trigger] fired[t] < rules.len() - 1 by {}
    if i < rules.len() - 1 {
        assert(rules.drop_last()[i] == rules[i]);
        law_cooldown_blocks(m0, rules.drop_last(), line, stream, now, i);
    } else {
        assert(m.contains_key(rules[i].name@));
        assert(!fired.contains(i));
    }
}

/// When every rule of a name allows at most `cap` notifications and the
/// name has not passed `cap`, it still has not passed it afterwards.
pub proof fn law_cap_respected(
    m0: Map<Seq<char>, RuleState>,
    rules: Seq<CompiledRule>,
    line: Seq<char>,
    stream: StreamKind,
    now: u64,
    name: Seq<char>,
    cap: u32,
)
    requires
        count_of(m0, name) <= cap,
        forall|i: int|
            0 <= i < rules.len() && #[trigger] rules[i].name@ == name ==> rules[i].max_notifications
                == Some(cap),
    ensures
        count_of(after_rules(m0, rules, line, stream, now).0, name) <= cap,
    decreases rules.len(),
{
    if rules.len() > 0 {
        assert forall|i: int|
            0 <= i < rules.drop_last().len() && #[trigger] rules.drop_last()[i].name@
                == name implies rules.drop_last()[i].max_notifications == Some(cap) by {
            assert(rules.drop_last()[i] == rules[i]);
        }
        law_cap_respected(m0, rules.drop_last(), line, stream, now, name, cap);
        let last = rules[rules.len() - 1];
        assert(last == rules.last());
    }
}

/// Every rule sees merged terminal output, and a rule on both streams sees
/// every line.
pub proof fn law_stream_selection(selector: StreamSelector, stream: StreamKind)
    ensures
        stream is Combined ==> stream_selected(selector, stream),
        selector is Both ==> stream_selected(selector, stream),
        stream_selected(StreamSelector::Stdout, stream) <==> !(stream is Stderr),
        stream_selected(StreamSelector::Stderr, stream) <==> !(stream is Stdout),
{
}

/// `pat` occurs nowhere in `s`.
pub open spec fn lacks(s: Seq<char>, pat: Seq<char>) -> bool {
    forall|i: int| 0 <= i <= s.len() - pat.len() ==> !crate::text::starts_with(#[trigger] s.skip(i), pat)
}

/// A template without placeholders is sent as it is written.
pub proof fn law_plain_template_unchanged(
    job_name: Seq<char>,
    stream: StreamKind,
    line: Seq<char>,
    rule: CompiledRule,
)
    requires
        rule.notify_template is Some,
        lacks(rule.notify_template->0@, "{job}"@),
        lacks(rule.notify_template->0@, "{rule}"@),
        lacks(rule.notify_template->0@, "{stream}"@),
        lacks(rule.notify_template->0@, "{line}"@),
    ensures
        rule_message(job_name, stream, line, rule) == rule.notify_template->0@,
{
    let t = rule.notify_template->0@;
    reveal_strlit("{job}");
    reveal_strlit("{rule}");
    reveal_strlit("{stream}");
    reveal_strlit("{line}");
    crate::text::lemma_replace_absent(t, "{job}"@, job_name);
    crate::text::lemma_replace_absent(t, "{rule}"@, rule.name@);
    crate::text::lemma_replace_absent(t, "{stream}"@, stream.label());
    crate::text::lemma_replace_absent(t, "{line}"@, crate::formatting::truncated(line, 400));
}

/// Rules of other names leave the state of a name as it was.
proof fn lemma_other_names_kept(
    m0: Map<Seq<char>, RuleState>,
    rules: Seq<CompiledRule>,
    line: Seq<char>,
    stream: StreamKind,
    now: u64,
    k: Seq<char>,
)
    requires
        forall|j: int| 0 <= j < rules.len() ==> #[trigger] rules[j].name@ != k,
    ensures
        after_rules(m0, rules, line, stream, now).0.contains_key(k) == m0.contains_key(k),
        m0.contains_key(k) ==> after_rules(m0, rules, line, stream, now).0[k] == m0[k],
    decreases rules.len(),
{
    if rules.len() > 0 {
        assert forall|j: int| 0 <= j < rules.drop_last().len() implies #[trigger] rules.drop_last()[j].name@ != k by {
            assert(rules.drop_last()[j] == rules[j]);
        }
        lemma_other_names_kept(m0, rules.drop_last(), line, stream, now, k);
        assert(rules[rules.len() - 1].name@ != k);
    }
}

/// A rule fires on a line when it sees the line's stream, one of its
/// patterns matches, its name is below its maximum count, and its last
/// notification was at least its cooldown ago (any time, for a cooldown
/// of zero) — provided no earlier rule shares its name. Its count then
/// goes up by one and it is stamped with the time of the line.
pub proof fn law_ready_rule_fires(
    m0: Map<Seq<char>, RuleState>,
    rules: Seq<CompiledRule>,
    line: Seq<char>,
    stream: StreamKind,
    now: u64,
    i: int,
)
    requires
        0 <= i < rules.len(),
        rules[i].stream == StreamSelector::Both || stream == StreamKind::Combined || (rules[i].stream
            == StreamSelector::Stdout && stream == StreamKind::Stdout) || (rules[i].stream
            == StreamSelector::Stderr && stream == StreamKind::Stderr),
        exists|j: int|
            0 <= j < rules[i].regexes@.len() && #[trigger] regex_finds(rules[i].regexes@[j]@, line),
        forall|j: int| 0 <= j < i ==> #[trigger] rules[j].name@ != rules[i].name@,
        match rules[i].max_notifications {
            Some(cap) => (if m0.contains_key(rules[i].name@) {
                m0[rules[i].name@].sent_count as int
            } else {
                0
            }) < cap,
            None => true,
        },
        m0.contains_key(rules[i].name@) ==> match m0[rules[i].name@].last_sent_at {
            Some(t) => t <= now && now - t >= rules[i].cooldown_secs * 1_000_000_000,
            None => true,
        },
    ensures
        after_rules(m0, rules, line, stream, now).1.contains(i),
        after_rules(m0, rules, line, stream, now).0[rules[i].name@].last_sent_at == Some(now),
    decreases rules.len(),
{
    let d = rules.drop_last();
    let (m, fired) = after_rules(m0, d, line, stream, now);
    let fired_all = after_rules(m0, rules, line, stream, now).1;
    if i < rules.len() - 1 {
        assert(d[i] == rules[i]);
        assert forall|j: int| 0 <= j < i implies #[trigger] d[j].name@ != d[i].name@ by {
            assert(d[j] == rules[j]);
        }
        law_ready_rule_fires(m0, d, line, stream, now, i);
        let t = choose|t: int| 0 <= t < fired.len() && fired[t] == i;
        assert(fired_all[t] == i);
    } else {
        let name = rules[i].name@;
        assert forall|j: int| 0 <= j < d.len() implies #[trigger] d[j].name@ != name by {
            assert(d[j] == rules[j]);
        }
        lemma_other_names_kept(m0, d, line, stream, now, name);
        assert(rules.last() == rules[i]);
        assert(rules[i].hits(line));
        assert(stream_selected(rules[i].stream, stream));
        assert(fired_all == fired.push(i));
        assert(fired_all[fired.len() as int] == i);
    }
    let t = choose|t: int| 0 <= t < fired_all.len() && fired_all[t] == i;
    law_fired_rules_matched(m0, rules, line, stream, now, t);
}

/// A rule with no cooldown and no maximum notifies on every line it sees
/// and matches (when no earlier rule shares its name), however soon after
/// its last notification.
pub proof fn law_unthrottled_rule_always_fires(
    m0: Map<Seq<char>, RuleState>,
    rules: Seq<CompiledRule>,
    line: Seq<char>,
    stream: StreamKind,
    now: u64,
    i: int,
)
    requires
        0 <= i < rules.len(),
        rules[i].cooldown_secs == 0,
        rules[i].max_notifications is None,
        m0.contains_key(rules[i].name@) ==> match m0[rules[i].name@].last_sent_at {
            Some(t) => t <= now,
            None => true,
        },
        rules[i].stream == StreamSelector::Both || stream == StreamKind::Combined || (rules[i].stream
            == StreamSelector::Stdout && stream == StreamKind::Stdout) || (rules[i].stream
            == StreamSelector::Stderr && stream == StreamKind::Stderr),
        exists|j: int|
            0 <= j < rules[i].regexes@.len() && #[trigger] regex_finds(rules[i].regexes@[j]@, line),
        forall|j: int| 0 <= j < i ==> #[trigger] rules[j].name@ != rules[i].name@,
    ensures
        after_rules(m0, rules, line, stream, now).1.contains(i),
{
    law_ready_rule_fires(m0, rules, line, stream, now, i);
}

/// A compiled rule keeps the configured cooldown, and a rule configured
/// without one gets none (zero seconds).
pub proof fn law_default_cooldown_is_zero(c: CompiledRule, r: RuleConfig)
    requires
        compiled_from(c, r),
    ensures
        r.cooldown_secs is None ==> c.cooldown_secs == 0,
        r.cooldown_secs matches Some(s) ==> c.cooldown_secs == s,
        c.max_notifications == r.max_notifications,
        c.stream == r.stream,
{
}

} // verus!
