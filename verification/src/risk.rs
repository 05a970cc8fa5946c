//! Normalization of compliance-scan replies: clamping model text into
//! bounded fields, grading risk levels, and recovering a usable result even
//! from a reply that is not clean JSON.
use vstd::prelude::*;
use crate::text::{ascii_lower_seq, ascii_lowercase, append_str, chars_of, dec_seq, str_eq,
    str_trim, string_of, trim_spec, u64_to_string};

verus! {

broadcast use vstd::string::group_string_axioms;

/// One risky passage found by a scan.
pub struct RiskFinding {
    pub level: String,
    pub category: String,
    pub excerpt: String,
    pub reason: String,
    pub suggestion: String,
    pub line_start: Option<usize>,
    pub line_end: Option<usize>,
}

/// The outcome of a compliance scan.
pub struct RiskScanResult {
    pub summary: String,
    pub overall_level: String,
    pub findings: Vec<RiskFinding>,
    pub scanned_chars: usize,
}

/// The normalized grade of a reported level: the known high and medium
/// spellings, everything else low.
pub open spec fn risk_level_spec(level: Seq<char>) -> Seq<char> {
    let l = ascii_lower_seq(trim_spec(level));
    if l == "high"@ || l == "critical"@ || l == "严重"@ || l == "高"@ {
        "high"@
    } else if l == "medium"@ || l == "moderate"@ || l == "中"@ || l == "中等"@ {
        "medium"@
    } else {
        "low"@
    }
}

/// Normalizes a reported risk level to `high`, `medium` or `low`.
pub fn normalize_risk_level(level: &str) -> (r: String)
    ensures
        r@ == risk_level_spec(level@),
{
    let trimmed = str_trim(level);
    let lowered = ascii_lowercase(trimmed.as_str());
    let l = lowered.as_str();
    if str_eq(l, "high") || str_eq(l, "critical") || str_eq(l, "严重") || str_eq(l, "高") {
        String::from_str("high")
    } else if str_eq(l, "medium") || str_eq(l, "moderate") || str_eq(l, "中") || str_eq(
        l,
        "中等",
    ) {
        String::from_str("medium")
    } else {
        String::from_str("low")
    }
}

/// The ordering rank of a normalized level.
pub open spec fn risk_rank_spec(level: Seq<char>) -> int {
    if level == "high"@ {
        3
    } else if level == "medium"@ {
        2
    } else {
        1
    }
}

/// Ranks a normalized level: high above medium above everything else.
pub fn risk_level_rank(level: &str) -> (r: u8)
    ensures
        r as int == risk_rank_spec(level@),
{
    if str_eq(level, "high") {
        3
    } else if str_eq(level, "medium") {
        2
    } else {
        1
    }
}

/// Text clamped to `max_chars` characters, with an ellipsis marking a cut;
/// a zero budget clamps to nothing.
pub open spec fn clamp_spec_text(s: Seq<char>, max_chars: int) -> Seq<char> {
    if max_chars == 0 {
        Seq::empty()
    } else if s.len() <= max_chars {
        s
    } else {
        s.take(max_chars) + "..."@
    }
}

/// Clamps text to at most `max_chars` characters, appending `...` when
/// something was cut.
pub fn clamp_text(text: &str, max_chars: usize) -> (r: String)
    ensures
        r@ == clamp_spec_text(text@, max_chars as int),
{
    if max_chars == 0 {
        return String::new();
    }
    let chars = chars_of(text);
    let n = chars.len();
    if n <= max_chars {
        return String::from_str(text);
    }
    let mut out: Vec<char> = Vec::new();
    let mut i: usize = 0;
    while i < max_chars
        invariant
            chars@ == text@,
            max_chars <= n == text@.len(),
            i <= max_chars,
            out@ == text@.take(max_chars as int).take(i as int),
        decreases max_chars - i,
    {
        out.push(chars[i]);
        i = i + 1;
        proof {
            assert(out@ =~= text@.take(max_chars as int).take(i as int));
        }
    }
    proof {
        assert(out@ =~= text@.take(max_chars as int));
    }
    let mut s = string_of(&out);
    append_str(&mut s, "...");
    s
}

/// The first `{` of `s`, if any.
pub open spec fn first_brace(s: Seq<char>) -> int
    decreases s.len(),
{
    if s.len() == 0 {
        -1
    } else if s[0] == '{' {
        0
    } else {
        let rest = first_brace(s.skip(1));
        if rest < 0 {
            -1
        } else {
            1 + rest
        }
    }
}

/// The last `}` of `s`, if any.
pub open spec fn last_brace(s: Seq<char>) -> int
    decreases s.len(),
{
    if s.len() == 0 {
        -1
    } else if s[s.len() - 1] == '}' {
        s.len() - 1
    } else {
        last_brace(s.take(s.len() - 1))
    }
}

/// The span from the first `{` through the last `}`, when both exist in
/// that order: the JSON object a model buried in prose.
pub open spec fn json_block_spec(s: Seq<char>) -> Option<Seq<char>> {
    let a = first_brace(s);
    let b = last_brace(s);
    if a >= 0 && b > a {
        Option::Some(s.subrange(a, b + 1))
    } else {
        Option::None
    }
}

/// `first_brace` finds the first opening brace, `last_brace` the last
/// closing one.
proof fn lemma_braces(s: Seq<char>)
    ensures
        first_brace(s) == -1 ==> forall|j: int| 0 <= j < s.len() ==> s[j] != '{',
        first_brace(s) >= 0 ==> first_brace(s) < s.len() && s[first_brace(s)] == '{'
            && forall|j: int| 0 <= j < first_brace(s) ==> s[j] != '{',
        last_brace(s) == -1 ==> forall|j: int| 0 <= j < s.len() ==> s[j] != '}',
        last_brace(s) >= 0 ==> last_brace(s) < s.len() && s[last_brace(s)] == '}'
            && forall|j: int| last_brace(s) < j < s.len() ==> s[j] != '}',
    decreases s.len(),
{
    if s.len() > 0 {
        lemma_braces(s.skip(1));
        lemma_braces(s.take(s.len() - 1));
        assert(forall|j: int| 1 <= j < s.len() ==> s[j] == s.skip(1)[j - 1]);
        assert(forall|j: int| 0 <= j < s.len() - 1 ==> s[j] == s.take(s.len() - 1)[j]);
    }
}

/// Extracts the JSON object span of a reply, when one is there.
pub fn extract_json_block(raw: &str) -> (r: Option<String>)
    ensures
        match r {
            Some(b) => json_block_spec(raw@) == Option::Some(b@),
            None => json_block_spec(raw@) is None,
        },
{
    proof {
        lemma_braces(raw@);
    }
    let chars = chars_of(raw);
    let n = chars.len();
    let mut a: usize = 0;
    while a < n && chars[a] != '{'
        invariant
            chars@ == raw@,
            n == raw@.len(),
            a <= n,
            forall|j: int| 0 <= j < a ==> raw@[j] != '{',
        decreases n - a,
    {
        a = a + 1;
    }
    if a == n {
        proof {
            if first_brace(raw@) >= 0 {
                assert(raw@[first_brace(raw@)] == '{');
            }
        }
        return None;
    }
    proof {
        lemma_first_brace_at(raw@, a as int);
    }
    let mut b: usize = n;
    while b > 0 && chars[b - 1] != '}'
        invariant
            chars@ == raw@,
            n == raw@.len(),
            b <= n,
            forall|j: int| b <= j < n ==> raw@[j] != '}',
        decreases b,
    {
        b = b - 1;
    }
    if b == 0 {
        proof {
            if last_brace(raw@) >= 0 {
                assert(raw@[last_brace(raw@)] == '}');
            }
        }
        return None;
    }
    proof {
        lemma_last_brace_at(raw@, b as int - 1);
    }
    if b - 1 <= a {
        return None;
    }
    let mut out: Vec<char> = Vec::new();
    let mut i: usize = a;
    proof {
        assert(out@ =~= raw@.subrange(a as int, a as int));
    }
    while i < b
        invariant
            chars@ == raw@,
            a <= i <= b <= n == raw@.len(),
            out@ == raw@.subrange(a as int, i as int),
        decreases b - i,
    {
        out.push(chars[i]);
        i = i + 1;
        proof {
            assert(out@ =~= raw@.subrange(a as int, i as int));
        }
    }
    Some(string_of(&out))
}

/// A position whose character is the first `{`.
proof fn lemma_first_brace_at(s: Seq<char>, a: int)
    requires
        0 <= a < s.len(),
        s[a] == '{',
        forall|j: int| 0 <= j < a ==> s[j] != '{',
    ensures
        first_brace(s) == a,
    decreases a,
{
    if a > 0 {
        lemma_first_brace_at(s.skip(1), a - 1);
        assert(forall|j: int| 0 <= j < a - 1 ==> s.skip(1)[j] == s[j + 1]);
    }
}

/// A position whose character is the last `}`.
proof fn lemma_last_brace_at(s: Seq<char>, b: int)
    requires
        0 <= b < s.len(),
        s[b] == '}',
        forall|j: int| b < j < s.len() ==> s[j] != '}',
    ensures
        last_brace(s) == b,
    decreases s.len(),
{
    if b < s.len() - 1 {
        lemma_last_brace_at(s.take(s.len() - 1), b);
        assert(forall|j: int| 0 <= j < s.len() - 1 ==> s.take(s.len() - 1)[j] == s[j]);
    }
}

/// Content bounded for a scan: short content goes whole; long content keeps
/// its head and tail around a marker naming how much was elided.
pub open spec fn trim_for_scan_spec(s: Seq<char>, max_chars: int) -> Seq<char> {
    if s.len() <= max_chars {
        s
    } else {
        let half = max_chars / 2;
        s.take(half) + "\n\n...[中间内容已省略，约 "@ + dec_seq(s.len() - max_chars)
            + " 字符]...\n\n"@ + s.skip(s.len() - (max_chars - half))
    }
}

/// Bounds content for a scan, eliding the middle of an overlong text.
pub fn trim_for_risk_scan(content: &str, max_chars: usize) -> (r: String)
    ensures
        r@ == trim_for_scan_spec(content@, max_chars as int),
{
    let chars = chars_of(content);
    let total = chars.len();
    if total <= max_chars {
        return String::from_str(content);
    }
    let half = max_chars / 2;
    let mut out: Vec<char> = Vec::new();
    let mut i: usize = 0;
    while i < half
        invariant
            chars@ == content@,
            half <= max_chars < total == content@.len(),
            half == max_chars / 2,
            i <= half,
            out@ == content@.take(half as int).take(i as int),
        decreases half - i,
    {
        out.push(chars[i]);
        i = i + 1;
        proof {
            assert(out@ =~= content@.take(half as int).take(i as int));
        }
    }
    proof {
        assert(out@ =~= content@.take(half as int));
    }
    let mut s = string_of(&out);
    append_str(&mut s, "\n\n...[中间内容已省略，约 ");
    append_str(&mut s, u64_to_string((total - max_chars) as u64).as_str());
    append_str(&mut s, " 字符]...\n\n");
    let tail_len = max_chars - half;
    let start = total - tail_len;
    let mut tail: Vec<char> = Vec::new();
    let mut k: usize = start;
    proof {
        assert(tail@ =~= content@.subrange(start as int, start as int));
    }
    while k < total
        invariant
            chars@ == content@,
            start <= k <= total == content@.len(),
            tail@ == content@.subrange(start as int, k as int),
        decreases total - k,
    {
        tail.push(chars[k]);
        k = k + 1;
        proof {
            assert(tail@ =~= content@.subrange(start as int, k as int));
        }
    }
    proof {
        assert(tail@ =~= content@.skip(start as int));
    }
    append_str(&mut s, string_of(&tail).as_str());
    s
}

/// One finding as a scan reply carries it.
pub struct RiskFindingRaw {
    pub level: String,
    pub category: String,
    pub excerpt: String,
    pub reason: String,
    pub suggestion: String,
    pub line_start: Option<usize>,
    pub line_end: Option<usize>,
}

/// A scan reply as it arrives, fields defaulted when absent.
pub struct RiskScanResultRaw {
    pub summary: String,
    pub overall_level: String,
    pub findings: Vec<RiskFindingRaw>,
}

pub uninterp spec fn risk_raw_of(s: Seq<char>) -> Option<RiskScanResultRaw>;

/// Relies on `serde_json::from_str` and `serde_json::Value` field access:
/// parses a scan reply, defaulting each absent or mistyped field; `None`
/// for a body that is not well-formed JSON.
#[verifier::external_body]
pub(crate) fn decode_risk_raw(s: &str) -> (r: Option<RiskScanResultRaw>)
    ensures
        r == risk_raw_of(s@),
{
    let t = |v: &serde_json::Value, k: &str| v[k].as_str().unwrap_or("").to_string();
    let v: serde_json::Value = serde_json::from_str(s).ok()?;
    let findings = v["findings"].as_array().map(|a| a.iter().map(|f| RiskFindingRaw {
        level: t(f, "level"), category: t(f, "category"), excerpt: t(f, "excerpt"),
        reason: t(f, "reason"), suggestion: t(f, "suggestion"),
        line_start: f["line_start"].as_u64().map(|x| x as usize),
        line_end: f["line_end"].as_u64().map(|x| x as usize),
    }).collect()).unwrap_or_default();
    Some(RiskScanResultRaw { summary: t(&v, "summary"), overall_level: t(&v, "overall_level"), findings })
}

/// How one raw finding normalizes: level graded, category defaulted and
/// clamped, text fields trimmed and clamped, nonpositive line numbers
/// dropped.
pub open spec fn finding_normalized(f: RiskFinding, raw: RiskFindingRaw) -> bool {
    &&& f.level@ == risk_level_spec(raw.level@)
    &&& f.category@ == (if trim_spec(raw.category@).len() == 0 {
        "other"@
    } else {
        clamp_spec_text(trim_spec(raw.category@), 48)
    })
    &&& f.excerpt@ == clamp_spec_text(trim_spec(raw.excerpt@), 200)
    &&& f.reason@ == clamp_spec_text(trim_spec(raw.reason@), 240)
    &&& f.suggestion@ == clamp_spec_text(trim_spec(raw.suggestion@), 240)
    &&& f.line_start == (match raw.line_start {
        Option::Some(v) => if v > 0 {
            Option::Some(v)
        } else {
            Option::<usize>::None
        },
        Option::None => Option::<usize>::None,
    })
    &&& f.line_end == (match raw.line_end {
        Option::Some(v) => if v > 0 {
            Option::Some(v)
        } else {
            Option::<usize>::None
        },
        Option::None => Option::<usize>::None,
    })
}

/// Normalizes one raw finding.
fn normalize_finding(raw: &RiskFindingRaw) -> (r: RiskFinding)
    ensures
        finding_normalized(r, *raw),
{
    let category_trimmed = str_trim(raw.category.as_str());
    let category = if category_trimmed.as_str().is_empty() {
        String::from_str("other")
    } else {
        clamp_text(category_trimmed.as_str(), 48)
    };
    let line_start = match raw.line_start {
        Some(v) => if v > 0 {
            Some(v)
        } else {
            None
        },
        None => None,
    };
    let line_end = match raw.line_end {
        Some(v) => if v > 0 {
            Some(v)
        } else {
            None
        },
        None => None,
    };
    RiskFinding {
        level: normalize_risk_level(raw.level.as_str()),
        category,
        excerpt: clamp_text(str_trim(raw.excerpt.as_str()).as_str(), 200),
        reason: clamp_text(str_trim(raw.reason.as_str()).as_str(), 240),
        suggestion: clamp_text(str_trim(raw.suggestion.as_str()).as_str(), 240),
        line_start,
        line_end,
    }
}

/// The running worst level from position `i` on, starting from `best`: a
/// finding replaces it only by strictly outranking it.
pub open spec fn worst_from(findings: Seq<RiskFinding>, i: int, best: Seq<char>) -> Seq<char>
    decreases findings.len() - i when 0 <= i <= findings.len()
{
    if i >= findings.len() {
        best
    } else if risk_rank_spec(findings[i].level@) > risk_rank_spec(best) {
        worst_from(findings, i + 1, findings[i].level@)
    } else {
        worst_from(findings, i + 1, best)
    }
}

/// The worst level among the findings: the first one of the highest rank,
/// `low` when none outranks it.
pub open spec fn worst_level(findings: Seq<RiskFinding>) -> Seq<char> {
    worst_from(findings, 0, "low"@)
}

/// A raw finding survives normalization: its trimmed excerpt or its
/// trimmed reason clamps to something.
pub open spec fn raw_kept(f: RiskFindingRaw) -> bool {
    clamp_spec_text(trim_spec(f.excerpt@), 200).len() > 0 || clamp_spec_text(
        trim_spec(f.reason@),
        240,
    ).len() > 0
}

/// The positions of the first `cap` surviving raw findings, from `from`.
pub open spec fn kept_indices(raw: Seq<RiskFindingRaw>, from: int, cap: int) -> Seq<int>
    decreases raw.len() - from when 0 <= from <= raw.len()
{
    if from >= raw.len() || cap <= 0 {
        Seq::empty()
    } else if raw_kept(raw[from]) {
        seq![from] + kept_indices(raw, from + 1, cap - 1)
    } else {
        kept_indices(raw, from + 1, cap)
    }
}

/// How a whole scan reply normalizes: the findings are the first
/// twenty-four surviving raw findings, each normalized; the overall level
/// is the explicit one graded, or the worst finding's; the summary is the
/// explicit one trimmed and clamped, when one is there.
pub open spec fn scan_normalized(r: RiskScanResult, parsed: RiskScanResultRaw) -> bool {
    &&& ({
        let kept = kept_indices(parsed.findings@, 0, 24);
        r.findings@.len() == kept.len() && forall|i: int|
            0 <= i < kept.len() ==> finding_normalized(
                #[trigger] r.findings@[i],
                parsed.findings@[kept[i]],
            )
    })
    &&& (trim_spec(parsed.overall_level@).len() > 0 ==> r.overall_level@ == risk_level_spec(
        parsed.overall_level@,
    ))
    &&& (trim_spec(parsed.overall_level@).len() == 0 ==> r.overall_level@ == worst_level(
        r.findings@,
    ))
    &&& (trim_spec(parsed.summary@).len() > 0 ==> r.summary@ == clamp_spec_text(
        trim_spec(parsed.summary@),
        280,
    ))
}

/// Normalizes a raw scan reply: findings graded, clamped, stripped of empty
/// ones and capped at twenty-four; the overall level explicit or the worst
/// finding's; a summary explicit, reassuring when nothing was found, or
/// counting the findings.
pub fn normalize_risk_scan(parsed: &RiskScanResultRaw, scanned_chars: usize) -> (r:
    RiskScanResult)
    ensures
        r.scanned_chars == scanned_chars,
        scan_normalized(r, *parsed),
{
    let ghost raw = parsed.findings@;
    let ghost kept = kept_indices(raw, 0, 24);
    let mut findings: Vec<RiskFinding> = Vec::new();
    let mut i: usize = 0;
    while i < parsed.findings.len() && findings.len() < 24
        invariant
            raw == parsed.findings@,
            kept == kept_indices(raw, 0, 24),
            i <= raw.len(),
            findings@.len() <= 24,
            findings@.len() <= kept.len(),
            kept_indices(raw, i as int, 24 - findings@.len()) == kept.skip(
                findings@.len() as int,
            ),
            forall|k: int| 0 <= k < findings@.len() ==> finding_normalized(
                #[trigger] findings@[k],
                raw[kept[k]],
            ),
        decreases raw.len() - i,
    {
        let ghost l = findings@.len() as int;
        let f = normalize_finding(&parsed.findings[i]);
        if !(f.excerpt.as_str().is_empty() && f.reason.as_str().is_empty()) {
            proof {
                assert(raw_kept(raw[i as int]));
                assert(kept.skip(l) == seq![i as int] + kept_indices(raw, i + 1, 24 - l - 1));
                assert(kept.skip(l).len() > 0);
                assert(kept.skip(l)[0] == kept[l]);
                assert(kept[l] == i as int);
                assert(kept.skip(l).skip(1) =~= kept.skip(l + 1));
            }
            findings.push(f);
        } else {
            proof {
                assert(!raw_kept(raw[i as int]));
            }
        }
        i = i + 1;
    }
    proof {
        let l = findings@.len() as int;
        assert(kept_indices(raw, i as int, 24 - l) =~= Seq::<int>::empty());
        assert(kept.skip(l) =~= Seq::<int>::empty());
        assert(kept.len() == l);
    }
    let overall_trimmed = str_trim(parsed.overall_level.as_str());
    let overall_level = if !overall_trimmed.as_str().is_empty() {
        normalize_risk_level(parsed.overall_level.as_str())
    } else {
        let mut best = String::from_str("low");
        let mut k: usize = 0;
        while k < findings.len()
            invariant
                k <= findings@.len(),
                worst_level(findings@) == worst_from(findings@, k as int, best@),
            decreases findings@.len() - k,
        {
            let rank = risk_level_rank(findings[k].level.as_str());
            let best_rank = risk_level_rank(best.as_str());
            if rank > best_rank {
                best = findings[k].level.clone();
            }
            k = k + 1;
        }
        best
    };
    let summary_trimmed = str_trim(parsed.summary.as_str());
    let summary = if !summary_trimmed.as_str().is_empty() {
        clamp_text(summary_trimmed.as_str(), 280)
    } else if findings.len() == 0 {
        String::from_str("未发现明显高风险片段，建议人工复核。")
    } else {
        let mut s = String::new();
        append_str(&mut s, "检测到 ");
        append_str(&mut s, u64_to_string(findings.len() as u64).as_str());
        append_str(&mut s, " 条潜在风险，请优先处理高风险项。");
        s
    };
    RiskScanResult { summary, overall_level, findings, scanned_chars }
}

/// Turns a raw scan reply into a usable result: the JSON block buried in
/// the reply is preferred, the whole reply tried next, and a reply that is
/// no JSON at all becomes a medium-risk result carrying the reply as its
/// summary.
pub fn parse_risk_scan_result(raw: &str, scanned_chars: usize) -> (r: RiskScanResult)
    ensures
        r.scanned_chars == scanned_chars,
        ({
            let direct = match json_block_spec(raw@) {
                Option::Some(b) => risk_raw_of(b),
                Option::None => Option::None,
            };
            match direct {
                Option::Some(p) => scan_normalized(r, p),
                Option::None => match risk_raw_of(raw@) {
                    Option::Some(p) => scan_normalized(r, p),
                    Option::None => r.summary@ == clamp_spec_text(trim_spec(raw@), 280)
                        && r.overall_level@ == "medium"@ && r.findings@.len() == 0,
                },
            }
        }),
{
    let parsed = match extract_json_block(raw) {
        Some(block) => decode_risk_raw(block.as_str()),
        None => None,
    };
    let parsed = match parsed {
        Some(p) => Some(p),
        None => decode_risk_raw(raw),
    };
    match parsed {
        Some(p) => normalize_risk_scan(&p, scanned_chars),
        None => RiskScanResult {
            summary: clamp_text(str_trim(raw).as_str(), 280),
            overall_level: String::from_str("medium"),
            findings: Vec::new(),
            scanned_chars,
        },
    }
}

}
