use vstd::prelude::*;
use crate::split::{decimal_seq, decimal_text};
use crate::text::{
    chars_of, is_ascii_alnum, is_ws, string_of, trim_chars, trim_seq, lemma_trim_noop,
};

verus! {

// ---------------------------------------------------------------------------
// Clock
// ---------------------------------------------------------------------------

/// `SystemTime::elapsed` of `UNIX_EPOCH`: the time since the epoch, or
/// nothing when the clock stands before it. Nothing is claimed of the value:
/// it is the machine's clock.
#[verifier::external_body]
pub(crate) fn time_since_epoch() -> Option<std::time::Duration> {
    std::time::UNIX_EPOCH.elapsed().ok()
}

/// `Duration::as_secs`. Nothing is claimed of the value.
#[verifier::external_body]
pub(crate) fn duration_secs(d: &std::time::Duration) -> u64 {
    d.as_secs()
}

/// `Duration::as_nanos`. Nothing is claimed of the value.
#[verifier::external_body]
pub(crate) fn duration_nanos(d: &std::time::Duration) -> u128 {
    d.as_nanos()
}

/// What `now_text` writes for a clock reading in whole seconds; a clock
/// before the epoch reads as `0`.
pub open spec fn seconds_text(secs: Option<u64>) -> Seq<char> {
    match secs {
        Some(s) => decimal_seq(s as nat),
        None => decimal_seq(0),
    }
}

/// The decimal text of a clock reading.
pub fn seconds_to_text(secs: Option<u64>) -> (r: String)
    ensures
        r@ == seconds_text(secs),
{
    match secs {
        Some(s) => decimal_text(s),
        None => decimal_text(0),
    }
}

/// The seconds since the Unix epoch, in decimal.
pub fn now_text() -> (r: String)
    ensures
        exists|secs: Option<u64>| r@ == seconds_text(secs),
{
    let secs = match time_since_epoch() {
        Some(d) => Some(duration_secs(&d)),
        None => None,
    };
    seconds_to_text(secs)
}

// ---------------------------------------------------------------------------
// Session ids
// ---------------------------------------------------------------------------

/// The characters a session id keeps as they are.
pub open spec fn allowed_char(c: char) -> bool {
    is_ascii_alnum(c) || c == '.' || c == '_' || c == '-'
}

/// Every other character becomes `-`, and a run of them one `-`. The flag
/// tells whether the last character written stands for such a run.
pub open spec fn dash_fold(s: Seq<char>) -> (Seq<char>, bool)
    decreases s.len(),
{
    if s.len() == 0 {
        (Seq::empty(), false)
    } else {
        let (out, last_dash) = dash_fold(s.drop_last());
        let c = s.last();
        if allowed_char(c) {
            (out.push(c), false)
        } else if !last_dash {
            (out.push('-'), true)
        } else {
            (out, last_dash)
        }
    }
}

pub open spec fn trim_dash_start(s: Seq<char>) -> Seq<char>
    decreases s.len(),
{
    if s.len() > 0 && s[0] == '-' {
        trim_dash_start(s.drop_first())
    } else {
        s
    }
}

pub open spec fn trim_dash_end(s: Seq<char>) -> Seq<char>
    decreases s.len(),
{
    if s.len() > 0 && s.last() == '-' {
        trim_dash_end(s.drop_last())
    } else {
        s
    }
}

/// `str::trim_matches('-')`.
pub open spec fn trim_dashes(s: Seq<char>) -> Seq<char> {
    trim_dash_end(trim_dash_start(s))
}

/// A raw session name made safe for use as an id.
pub open spec fn sanitized(raw: Seq<char>) -> Seq<char> {
    let cleaned = trim_dashes(dash_fold(trim_seq(raw)).0);
    if cleaned.len() == 0 {
        "unknown-session"@
    } else {
        cleaned
    }
}

pub fn is_allowed_char(c: char) -> (b: bool)
    ensures
        b == allowed_char(c),
{
    ('A' <= c && c <= 'Z') || ('a' <= c && c <= 'z') || ('0' <= c && c <= '9') || c == '.' || c
        == '_' || c == '-'
}

fn dash_fold_chars(v: &Vec<char>) -> (r: Vec<char>)
    ensures
        r@ == dash_fold(v@).0,
{
    let mut out: Vec<char> = Vec::new();
    let mut last_dash = false;
    let mut i: usize = 0;
    assert(v@.take(0) =~= Seq::<char>::empty());
    while i < v.len()
        invariant
            i <= v.len(),
            (out@, last_dash) == dash_fold(v@.take(i as int)),
        decreases v.len() - i,
    {
        let c = v[i];
        assert(v@.take(i + 1).drop_last() =~= v@.take(i as int));
        assert(v@.take(i + 1).last() == c);
        if is_allowed_char(c) {
            out.push(c);
            last_dash = false;
        } else if !last_dash {
            out.push('-');
            last_dash = true;
        }
        i += 1;
    }
    assert(v@.take(v.len() as int) =~= v@);
    out
}

fn trim_dashes_chars(v: &Vec<char>) -> (r: Vec<char>)
    ensures
        r@ == trim_dashes(v@),
{
    let n = v.len();
    let mut i: usize = 0;
    assert(v@.subrange(0, n as int) =~= v@);
    while i < n && v[i] == '-'
        invariant
            i <= n == v.len(),
            trim_dash_start(v@) == trim_dash_start(v@.subrange(i as int, n as int)),
        decreases n - i,
    {
        assert(v@.subrange(i as int, n as int).drop_first() =~= v@.subrange(i + 1, n as int));
        i += 1;
    }
    let mut j: usize = n;
    while j > i && v[j - 1] == '-'
        invariant
            i <= j <= n == v.len(),
            trim_dash_start(v@) == v@.subrange(i as int, n as int),
            trim_dash_end(v@.subrange(i as int, n as int)) == trim_dash_end(
                v@.subrange(i as int, j as int),
            ),
        decreases j - i,
    {
        assert(v@.subrange(i as int, j as int).drop_last() =~= v@.subrange(i as int, j - 1));
        j -= 1;
    }
    crate::text::subvec(v, i, j)
}

/// Makes a session name safe for use as an id: whitespace trimmed, every
/// run of characters other than ASCII letters, digits, `.`, `_` and `-`
/// turned into one `-`, outer dashes dropped, and `unknown-session` when
/// nothing is left.
pub fn sanitize_segment(value: &str) -> (r: String)
    ensures
        r@ == sanitized(value@),
{
    let v = chars_of(value);
    let t = trim_chars(&v);
    let folded = dash_fold_chars(&t);
    let cleaned = trim_dashes_chars(&folded);
    if cleaned.len() == 0 {
        "unknown-session".to_string()
    } else {
        string_of(&cleaned)
    }
}

/// The first value that is not blank.
pub open spec fn first_nonblank(values: Seq<Seq<char>>) -> Option<Seq<char>>
    decreases values.len(),
{
    if values.len() == 0 {
        None
    } else if trim_seq(values[0]).len() > 0 {
        Some(values[0])
    } else {
        first_nonblank(values.drop_first())
    }
}

pub open spec fn session_prefix() -> Seq<char> {
    seq!['s', 'e', 's', 's', 'i', 'o', 'n', '-']
}

/// The session id for a raw value and the values of the session variables
/// of the environment, in the order `CODEX_THREAD_ID`, `WT_SESSION`,
/// `SESSIONNAME` (those that are set): the raw value when it is not blank,
/// else the first variable that is not blank, else `session-` and the time;
/// sanitized in each case.
fn first_nonblank_index(values: &Vec<String>) -> (r: Option<usize>)
    ensures
        match first_nonblank(crate::text::texts_of(values@)) {
            Some(v) => r matches Some(i) && i < values.len() && values@[i as int]@ == v,
            None => r is None,
        },
{
    let ghost vals = crate::text::texts_of(values@);
    let mut i: usize = 0;
    assert(vals.skip(0) =~= vals);
    while i < values.len()
        invariant
            i <= values.len(),
            vals == crate::text::texts_of(values@),
            first_nonblank(vals) == first_nonblank(vals.skip(i as int)),
        decreases values.len() - i,
    {
        let e = chars_of(values[i].as_str());
        let et = trim_chars(&e);
        assert(vals.skip(i as int)[0] == values@[i as int]@);
        if et.len() > 0 {
            return Some(i);
        }
        assert(vals.skip(i as int).drop_first() =~= vals.skip(i + 1));
        i += 1;
    }
    None
}

/// The session id for a raw value and the values of the session variables
/// of the environment, in the order `CODEX_THREAD_ID`, `WT_SESSION`,
/// `SESSIONNAME` (those that are set): the raw value when it is not blank,
/// else the first variable that is not blank, else `session-` and the time;
/// sanitized in each case.
pub open spec fn resolved_session(raw: Seq<char>, env_values: Seq<Seq<char>>, secs: Option<u64>) -> Seq<char> {
    if trim_seq(raw).len() > 0 {
        sanitized(raw)
    } else {
        match first_nonblank(env_values) {
            Some(v) => sanitized(v),
            None => sanitized(session_prefix() + seconds_text(secs)),
        }
    }
}

pub fn resolve_session_id(raw: &str, env_values: &Vec<String>) -> (r: String)
    ensures
        exists|secs: Option<u64>| r@ == #[trigger] resolved_session(raw@, crate::text::texts_of(env_values@), secs),
{
    let v = chars_of(raw);
    let t = trim_chars(&v);
    if t.len() > 0 {
        let r = sanitize_segment(raw);
        assert(r@ == resolved_session(raw@, crate::text::texts_of(env_values@), None));
        return r;
    }
    match first_nonblank_index(env_values) {
        Some(i) => {
            let r = sanitize_segment(env_values[i].as_str());
            assert(r@ == resolved_session(raw@, crate::text::texts_of(env_values@), None));
            r
        },
        None => {
            let mut s = "session-".to_string();
            proof {
                reveal_strlit("session-");
            }
            let now = now_text();
            s.append(now.as_str());
            let ghost secs = choose|secs: Option<u64>| now@ == seconds_text(secs);
            assert(s@ =~= session_prefix() + seconds_text(secs));
            let r = sanitize_segment(s.as_str());
            assert(r@ == resolved_session(raw@, crate::text::texts_of(env_values@), secs));
            r
        },
    }
}

// ---------------------------------------------------------------------------
// Project root
// ---------------------------------------------------------------------------

/// The first of the directories that holds a marker, if any.
pub open spec fn first_marked(dirs: Seq<Seq<char>>, marked: Seq<bool>) -> Option<Seq<char>>
    decreases dirs.len(),
{
    if dirs.len() == 0 || marked.len() == 0 {
        None
    } else if marked[0] {
        Some(dirs[0])
    } else {
        first_marked(dirs.drop_first(), marked.drop_first())
    }
}

/// The project root for a start directory: the nearest of its ancestors
/// (itself first) that holds `.git`, `AGENTS.md`, `.codex-rules` or
/// `.codex`, else the start directory itself. `marked[i]` tells whether
/// `ancestors[i]` holds one of them.
pub fn detect_project_root(current: &str, ancestors: &Vec<String>, marked: &Vec<bool>) -> (r:
    String)
    requires
        ancestors.len() == marked.len(),
    ensures
        r@ == match first_marked(crate::text::texts_of(ancestors@), marked@) {
            Some(d) => d,
            None => current@,
        },
{
    let ghost dirs = crate::text::texts_of(ancestors@);
    let mut i: usize = 0;
    assert(dirs.skip(0) =~= dirs);
    assert(marked@.skip(0) =~= marked@);
    while i < ancestors.len()
        invariant
            i <= ancestors.len() == marked.len(),
            dirs == crate::text::texts_of(ancestors@),
            first_marked(dirs, marked@) == first_marked(dirs.skip(i as int), marked@.skip(i as int)),
        decreases ancestors.len() - i,
    {
        if marked[i] {
            assert(dirs.skip(i as int)[0] == ancestors@[i as int]@);
            return ancestors[i].clone();
        }
        assert(dirs.skip(i as int).drop_first() =~= dirs.skip(i + 1));
        assert(marked@.skip(i as int).drop_first() =~= marked@.skip(i + 1));
        i += 1;
    }
    current.to_string()
}

// ---------------------------------------------------------------------------
// What a session id looks like
// ---------------------------------------------------------------------------

pub open spec fn all_allowed(s: Seq<char>) -> bool {
    forall|k: int| 0 <= k < s.len() ==> allowed_char(#[trigger] s[k])
}

pub proof fn lemma_dash_fold_allowed(s: Seq<char>)
    ensures
        all_allowed(dash_fold(s).0),
    decreases s.len(),
{
    if s.len() > 0 {
        lemma_dash_fold_allowed(s.drop_last());
        let (out, _) = dash_fold(s.drop_last());
        assert(all_allowed(out));
        let c = s.last();
        if allowed_char(c) {
            assert(all_allowed(out.push(c))) by {
                assert forall|k: int| 0 <= k < out.push(c).len() implies allowed_char(
                    #[trigger] out.push(c)[k],
                ) by {
                    if k < out.len() {
                        assert(out.push(c)[k] == out[k]);
                    }
                }
            }
        } else {
            assert(all_allowed(out.push('-'))) by {
                assert forall|k: int| 0 <= k < out.push('-').len() implies allowed_char(
                    #[trigger] out.push('-')[k],
                ) by {
                    if k < out.len() {
                        assert(out.push('-')[k] == out[k]);
                    }
                }
            }
        }
    }
}

pub proof fn lemma_dash_fold_keeps_allowed(s: Seq<char>)
    requires
        all_allowed(s),
    ensures
        dash_fold(s) == (s, false),
    decreases s.len(),
{
    if s.len() > 0 {
        assert(all_allowed(s.drop_last())) by {
            assert forall|k: int| 0 <= k < s.drop_last().len() implies allowed_char(
                #[trigger] s.drop_last()[k],
            ) by {
                assert(s.drop_last()[k] == s[k]);
            }
        }
        lemma_dash_fold_keeps_allowed(s.drop_last());
        assert(allowed_char(s[s.len() - 1]));
        assert(s.drop_last().push(s.last()) =~= s);
    } else {
        assert(s =~= Seq::<char>::empty());
    }
}

pub proof fn lemma_trim_dash_start_suffix(s: Seq<char>)
    ensures
        exists|k: int| 0 <= k <= s.len() && trim_dash_start(s) == s.subrange(k, s.len() as int),
        trim_dash_start(s).len() > 0 ==> trim_dash_start(s)[0] != '-',
    decreases s.len(),
{
    if s.len() > 0 && s[0] == '-' {
        lemma_trim_dash_start_suffix(s.drop_first());
        let k = choose|k: int|
            0 <= k <= s.drop_first().len() && trim_dash_start(s.drop_first())
                == s.drop_first().subrange(k, s.drop_first().len() as int);
        assert(s.drop_first().subrange(k, s.drop_first().len() as int) =~= s.subrange(
            k + 1,
            s.len() as int,
        ));
    } else {
        assert(s.subrange(0, s.len() as int) =~= s);
    }
}

pub proof fn lemma_trim_dash_end_prefix(s: Seq<char>)
    ensures
        exists|k: int| 0 <= k <= s.len() && trim_dash_end(s) == s.subrange(0, k),
        trim_dash_end(s).len() > 0 ==> trim_dash_end(s).last() != '-',
    decreases s.len(),
{
    if s.len() > 0 && s.last() == '-' {
        lemma_trim_dash_end_prefix(s.drop_last());
        let k = choose|k: int|
            0 <= k <= s.drop_last().len() && trim_dash_end(s.drop_last())
                == s.drop_last().subrange(0, k);
        assert(s.drop_last().subrange(0, k) =~= s.subrange(0, k));
    } else {
        assert(s.subrange(0, s.len() as int) =~= s);
    }
}

pub proof fn lemma_trim_dashes_shape(s: Seq<char>)
    ensures
        trim_dashes(s).len() > 0 ==> trim_dashes(s)[0] != '-' && trim_dashes(s).last() != '-',
        exists|a: int, b: int| 0 <= a <= b <= s.len() && trim_dashes(s) == s.subrange(a, b),
{
    lemma_trim_dash_start_suffix(s);
    let t = trim_dash_start(s);
    lemma_trim_dash_end_prefix(t);
    let a = choose|k: int| 0 <= k <= s.len() && t == s.subrange(k, s.len() as int);
    let b = choose|k: int| 0 <= k <= t.len() && trim_dash_end(t) == t.subrange(0, k);
    assert(t.subrange(0, b) =~= s.subrange(a, a + b));
    if trim_dashes(s).len() > 0 {
        assert(trim_dashes(s)[0] == t[0]);
    }
}

/// A session id is never empty, holds only ASCII letters, digits, `.`, `_`
/// and `-`, and neither starts nor ends with `-`.
pub proof fn lemma_sanitized_shape(raw: Seq<char>)
    ensures
        sanitized(raw).len() > 0,
        all_allowed(sanitized(raw)),
        sanitized(raw)[0] != '-',
        sanitized(raw).last() != '-',
{
    reveal_strlit("unknown-session");
    let folded = dash_fold(trim_seq(raw)).0;
    lemma_dash_fold_allowed(trim_seq(raw));
    lemma_trim_dashes_shape(folded);
    let cleaned = trim_dashes(folded);
    if cleaned.len() > 0 {
        let (a, b) = choose|a: int, b: int|
            0 <= a <= b <= folded.len() && cleaned == folded.subrange(a, b);
        assert forall|k: int| 0 <= k < cleaned.len() implies allowed_char(#[trigger] cleaned[k]) by {
            assert(cleaned[k] == folded[a + k]);
        }
    }
}

/// Sanitizing a session id again leaves it unchanged.
pub proof fn lemma_sanitize_idempotent(raw: Seq<char>)
    ensures
        sanitized(sanitized(raw)) == sanitized(raw),
{
    let s = sanitized(raw);
    lemma_sanitized_shape(raw);
    assert(!is_ws(s[0]) && !is_ws(s.last()));
    lemma_trim_noop(s);
    lemma_dash_fold_keeps_allowed(s);
    assert(trim_dash_start(s) == s);
    assert(trim_dash_end(s) == s);
}

} // verus!
