//! How much of a Codex session's context window is in use, read from the
//! token counts that the session's transcript records.
use vstd::prelude::*;
use crate::text;

verus! {

/// How many bytes at the end of a transcript are read.
pub const TRANSCRIPT_TAIL_BYTES: u64 = 1048576;

/// The tokens Codex counts as always in use; left out of both the usage and
/// the window.
pub const CODEX_BASELINE_TOKENS: u64 = 12000;

/// A session id is 1 to 128 characters, each an ASCII letter or digit, `-`
/// or `_`, so that it is a safe path component.
pub open spec fn valid_session_id_spec(s: Seq<char>) -> bool {
    &&& 0 < s.len() <= 128
    &&& forall|i: int|
        0 <= i < s.len() ==> (text::is_ascii_alphanumeric(#[trigger] s[i]) || s[i] == '-' || s[i]
            == '_')
}

pub fn valid_session_id(value: &str) -> (r: bool)
    ensures
        r == valid_session_id_spec(value@),
{
    let chars = text::chars_of(value);
    if chars.len() == 0 || chars.len() > 128 {
        return false;
    }
    let mut k: usize = 0;
    while k < chars.len()
        invariant
            k <= chars.len(),
            chars@ == value@,
            forall|i: int|
                0 <= i < k ==> (text::is_ascii_alphanumeric(#[trigger] chars@[i]) || chars@[i]
                    == '-' || chars@[i] == '_'),
        decreases chars.len() - k,
    {
        let c = chars[k];
        if !(text::char_is_ascii_alphanumeric(c) || c == '-' || c == '_') {
            return false;
        }
        k = k + 1;
    }
    true
}

/// A valid session id is a single, plain path component: it is not empty
/// and holds no separator, dot, white space or control character.
pub proof fn lemma_session_id_is_path_component(s: Seq<char>)
    requires
        valid_session_id_spec(s),
    ensures
        s.len() > 0,
        forall|i: int|
            0 <= i < s.len() ==> #[trigger] s[i] != '/' && s[i] != '\\' && s[i] != '.' && !text::is_white_space(
                s[i],
            ) && !text::is_control(s[i]),
{
}

/// Where the read of a transcript of `len` bytes starts.
pub fn tail_start(len: u64) -> (r: u64)
    ensures
        r == if len > TRANSCRIPT_TAIL_BYTES {
            len - TRANSCRIPT_TAIL_BYTES
        } else {
            0
        },
{
    len.saturating_sub(TRANSCRIPT_TAIL_BYTES)
}

/// The window and usage without the baseline, and the tokens left.
pub open spec fn effective_window(window: u64) -> int {
    window - CODEX_BASELINE_TOKENS
}

pub open spec fn effective_used(used: u64) -> int {
    if used > CODEX_BASELINE_TOKENS {
        used - CODEX_BASELINE_TOKENS
    } else {
        0
    }
}

pub open spec fn remaining_tokens(used: u64, window: u64) -> int {
    if effective_window(window) > effective_used(used) {
        effective_window(window) - effective_used(used)
    } else {
        0
    }
}

/// The computation stays within `u64`: `100 * remaining + window / 2` fits.
pub open spec fn usage_fits(used: u64, window: u64) -> bool {
    window > CODEX_BASELINE_TOKENS ==> remaining_tokens(used, window) * 100 + effective_window(
        window,
    ) / 2 <= u64::MAX
}

/// The share of the window in use, in percent, as Codex shows it: the share
/// left, rounded half up, taken from 100. No value for a window not above the
/// baseline.
pub open spec fn context_used_spec(used: u64, window: u64) -> Option<int> {
    if window <= CODEX_BASELINE_TOKENS {
        None
    } else {
        let w = effective_window(window);
        let remaining_percent = (remaining_tokens(used, window) * 100 + w / 2) / w;
        Some(
            100 - if remaining_percent > 100 {
                100
            } else {
                remaining_percent
            },
        )
    }
}

/// The percentage never exceeds 100, and more tokens in use never show a
/// lower percentage for the same window.
pub proof fn lemma_context_used_monotone(less: u64, more: u64, window: u64)
    requires
        less <= more,
        window > CODEX_BASELINE_TOKENS,
    ensures
        context_used_spec(less, window) is Some,
        0 <= context_used_spec(less, window)->0 <= context_used_spec(more, window)->0 <= 100,
{
    let w = effective_window(window);
    let r1 = remaining_tokens(less, window);
    let r2 = remaining_tokens(more, window);
    assert(r2 <= r1);
    assert(r2 * 100 + w / 2 <= r1 * 100 + w / 2) by (nonlinear_arith)
        requires
            r2 <= r1,
    ;
    vstd::arithmetic::div_mod::lemma_div_is_ordered(r2 * 100 + w / 2, r1 * 100 + w / 2, w);
    assert(0 <= r2 * 100 + w / 2) by (nonlinear_arith)
        requires
            0 <= r2,
            0 < w,
    ;
    vstd::arithmetic::div_mod::lemma_div_pos_is_pos(r2 * 100 + w / 2, w);
}

/// A percentage as the byte it is shown with.
pub open spec fn as_percent(p: Option<int>) -> Option<u8> {
    match p {
        Some(v) => Some(v as u8),
        None => None,
    }
}

/// The percentage of the context window in use for `used` tokens of a
/// `window`-token model.
pub fn context_used_percent(used: u64, window: u64) -> (r: Option<u8>)
    requires
        usage_fits(used, window),
    ensures
        match context_used_spec(used, window) {
            Some(p) => r == Some(p as u8) && 0 <= p <= 100,
            None => r is None,
        },
{
    if window <= CODEX_BASELINE_TOKENS {
        return None;
    }
    let effective_window = window - CODEX_BASELINE_TOKENS;
    let effective_used = used.saturating_sub(CODEX_BASELINE_TOKENS);
    let remaining = effective_window.saturating_sub(effective_used);
    let scaled = remaining * 100;
    let remaining_percent = (scaled + effective_window / 2) / effective_window;
    proof {
        assert(remaining <= effective_window);
        assert(remaining * 100 + effective_window / 2 <= effective_window * 100 + effective_window)
            by (nonlinear_arith)
            requires
                remaining <= effective_window,
        ;
        assert((remaining * 100 + effective_window / 2) / (effective_window as int) <= 101) by (
        nonlinear_arith)
            requires
                remaining * 100 + effective_window / 2 <= effective_window * 100 + effective_window,
                effective_window > 0,
        ;
    }
    let capped: u8 = if remaining_percent > 100 {
        100
    } else {
        remaining_percent as u8
    };
    Some(100 - capped)
}

/// One record of a transcript, as far as the usage reads it.
#[derive(Debug)]
pub struct TranscriptRecord {
    pub record_type: String,
    pub payload: TranscriptPayload,
}

#[derive(Debug)]
pub struct TranscriptPayload {
    pub payload_type: String,
    pub info: Option<TokenInfo>,
}

#[derive(Debug)]
pub struct TokenInfo {
    pub last_token_usage: Option<TokenUsage>,
    pub model_context_window: Option<u64>,
}

#[derive(Debug)]
pub struct TokenUsage {
    pub total_tokens: u64,
}

/// The token counts a record carries: a `token_count` event with the last
/// usage and a window above the baseline.
pub open spec fn record_counts(rec: TranscriptRecord) -> Option<(u64, u64)> {
    if rec.record_type@ != "event_msg"@ || rec.payload.payload_type@ != "token_count"@ {
        None
    } else {
        match rec.payload.info {
            Some(info) => match (info.last_token_usage, info.model_context_window) {
                (Some(usage), Some(window)) => if window > CODEX_BASELINE_TOKENS {
                    Some((usage.total_tokens, window))
                } else {
                    None
                },
                _ => None,
            },
            None => None,
        }
    }
}

/// The token counts of the last record that carries them; lines that did
/// not parse are `None`.
pub open spec fn latest_counts(records: Seq<Option<TranscriptRecord>>) -> Option<(u64, u64)>
    decreases records.len(),
{
    if records.len() == 0 {
        None
    } else {
        match records.last() {
            Some(rec) => match record_counts(rec) {
                Some(c) => Some(c),
                None => latest_counts(records.drop_last()),
            },
            None => latest_counts(records.drop_last()),
        }
    }
}

/// The record at `i` parsed and carries token counts.
pub open spec fn carries_counts(records: Seq<Option<TranscriptRecord>>, i: int) -> bool {
    records[i] matches Some(rec) && record_counts(rec) is Some
}

/// The latest record wins: the counts read are those of the last record
/// that carries any, and none are read where no record does.
pub proof fn lemma_latest_record_wins(records: Seq<Option<TranscriptRecord>>)
    ensures
        latest_counts(records) is None <==> forall|i: int|
            0 <= i < records.len() ==> !#[trigger] carries_counts(records, i),
        latest_counts(records) is Some ==> exists|i: int|
            0 <= i < records.len() && #[trigger] carries_counts(records, i) && latest_counts(records)
                == record_counts(records[i]->Some_0) && forall|j: int|
                i < j < records.len() ==> !#[trigger] carries_counts(records, j),
    decreases records.len(),
{
    if records.len() > 0 {
        let init = records.drop_last();
        lemma_latest_record_wins(init);
        let n = records.len() - 1;
        assert forall|i: int| 0 <= i < n implies #[trigger] carries_counts(records, i)
            == carries_counts(init, i) by {
            assert(records[i] == init[i]);
        }
        if carries_counts(records, n) {
            assert(latest_counts(records) == record_counts(records[n]->Some_0));
        } else {
            assert(latest_counts(records) == latest_counts(init));
            if latest_counts(init) is Some {
                let i = choose|i: int|
                    0 <= i < init.len() && #[trigger] carries_counts(init, i) && latest_counts(init)
                        == record_counts(init[i]->Some_0) && forall|j: int|
                        i < j < init.len() ==> !#[trigger] carries_counts(init, j);
                assert(carries_counts(records, i));
                assert(records[i] == init[i]);
                assert forall|j: int| i < j < records.len() implies !#[trigger] carries_counts(
                    records,
                    j,
                ) by {
                    if j < n {
                        assert(carries_counts(records, j) == carries_counts(init, j));
                    }
                }
            }
        }
    }
}

/// A transcript that ends in a record carrying token counts reads those
/// counts, whatever came before.
pub proof fn lemma_last_record_decides(records: Seq<Option<TranscriptRecord>>, rec: TranscriptRecord)
    requires
        record_counts(rec) is Some,
    ensures
        latest_counts(records.push(Some(rec))) == record_counts(rec),
{
    assert(records.push(Some(rec)).last() == Some(rec));
}

/// The usage of the last record that carries token counts.
pub open spec fn latest_context_used_spec(records: Seq<Option<TranscriptRecord>>) -> Option<int> {
    match latest_counts(records) {
        Some((used, window)) => context_used_spec(used, window),
        None => None,
    }
}

/// The counts that are read can be computed within `u64`.
pub open spec fn latest_counts_fit(records: Seq<Option<TranscriptRecord>>) -> bool {
    latest_counts(records) matches Some((used, window)) ==> usage_fits(used, window)
}

fn record_counts_exec(rec: &TranscriptRecord) -> (r: Option<(u64, u64)>)
    ensures
        r == record_counts(*rec),
{
    if !(text::str_equal(rec.record_type.as_str(), "event_msg") && text::str_equal(
        rec.payload.payload_type.as_str(),
        "token_count",
    )) {
        return None;
    }
    match &rec.payload.info {
        Some(info) => match (&info.last_token_usage, info.model_context_window) {
            (Some(usage), Some(window)) => {
                if window > CODEX_BASELINE_TOKENS {
                    Some((usage.total_tokens, window))
                } else {
                    None
                }
            },
            _ => None,
        },
        None => None,
    }
}

/// The token counts of the last record that carries them.
pub fn latest_token_counts(records: &Vec<Option<TranscriptRecord>>) -> (r: Option<(u64, u64)>)
    ensures
        r == latest_counts(records@),
{
    let mut k = records.len();
    assert(records@.take(k as int) =~= records@);
    while k > 0
        invariant
            k <= records.len(),
            latest_counts(records@) == latest_counts(records@.take(k as int)),
        decreases k,
    {
        assert(records@.take(k as int).drop_last() =~= records@.take(k - 1));
        assert(records@.take(k as int).last() == records@[k - 1]);
        match &records[k - 1] {
            Some(rec) => {
                let c = record_counts_exec(rec);
                if c.is_some() {
                    return c;
                }
            },
            None => {},
        }
        k = k - 1;
    }
    None
}

/// Whether the usage of `used` tokens of a `window`-token model can be
/// computed within `u64`.
pub fn usage_computable(used: u64, window: u64) -> (r: bool)
    ensures
        r == usage_fits(used, window),
{
    if window <= CODEX_BASELINE_TOKENS {
        return true;
    }
    let effective_window = window - CODEX_BASELINE_TOKENS;
    let effective_used = used.saturating_sub(CODEX_BASELINE_TOKENS);
    let remaining = effective_window.saturating_sub(effective_used);
    match remaining.checked_mul(100) {
        Some(scaled) => scaled.checked_add(effective_window / 2).is_some(),
        None => false,
    }
}

/// The context usage that a transcript's tail shows: the last token count
/// wins.
pub fn latest_context_used(records: &Vec<Option<TranscriptRecord>>) -> (r: Option<u8>)
    requires
        latest_counts_fit(records@),
    ensures
        r == as_percent(latest_context_used_spec(records@)),
{
    match latest_token_counts(records) {
        Some((used, window)) => context_used_percent(used, window),
        None => None,
    }
}

/// The context usage of a session: nothing for an id that is not a safe path
/// component, nor where no transcript was found; otherwise the transcript's
/// latest usage.
pub fn load_context_used_percent(
    session_id: &str,
    transcript: Option<&Vec<Option<TranscriptRecord>>>,
) -> (r: Option<u8>)
    requires
        transcript matches Some(t) ==> latest_counts_fit(t@),
    ensures
        !valid_session_id_spec(session_id@) ==> r is None,
        valid_session_id_spec(session_id@) ==> match transcript {
            Some(t) => r == as_percent(latest_context_used_spec(t@)),
            None => r is None,
        },
{
    if !valid_session_id(session_id) {
        return None;
    }
    match transcript {
        Some(t) => latest_context_used(t),
        None => None,
    }
}

/// Whether a transcript file name belongs to a session: its extension is
/// `jsonl` and the name holds the session id.
pub open spec fn is_session_transcript_spec(name: Seq<char>, session_id: Seq<char>) -> bool {
    &&& name.len() > 6
    &&& name.skip(name.len() - 6) == seq!['.', 'j', 's', 'o', 'n', 'l']
    &&& text::is_infix(session_id, name)
}

pub fn is_session_transcript(name: &str, session_id: &str) -> (r: bool)
    ensures
        r == is_session_transcript_spec(name@, session_id@),
{
    let n = text::chars_of(name);
    let sid = text::chars_of(session_id);
    let len = n.len();
    if len <= 6 {
        return false;
    }
    let ext = n[len - 6] == '.' && n[len - 5] == 'j' && n[len - 4] == 's' && n[len - 3] == 'o'
        && n[len - 2] == 'n' && n[len - 1] == 'l';
    let ghost tail = n@.skip(len - 6);
    assert(ext ==> tail =~= seq!['.', 'j', 's', 'o', 'n', 'l']);
    assert(tail == seq!['.', 'j', 's', 'o', 'n', 'l'] ==> tail[0] == '.' && tail[1] == 'j'
        && tail[2] == 's' && tail[3] == 'o' && tail[4] == 'n' && tail[5] == 'l');
    ext && text::contains_chars(&n, &sid)
}

} // verus!
