//! Workspace-facing data carriers and the pure rules behind the project
//! commands: path validation, launch-mode parsing, writing-settings
//! normalization, and composer-directive parsing.
use vstd::prelude::*;
use crate::text::{append_str, ascii_lower_seq, ascii_lowercase, chars_of, is_ws, is_ws_char,
    starts_with_spec, str_eq, str_trim, string_of, trim_spec};
use crate::provider::{lower_of, lowercase};

verus! {

broadcast use vstd::string::group_string_axioms;

/// The open workspace.
pub struct WorkspaceInfo {
    pub root: String,
}

/// One project offered by the picker.
pub struct ProjectItem {
    pub name: String,
    pub path: String,
    pub source: String,
    pub is_valid_workspace: bool,
    pub last_opened_at: Option<i64>,
}

/// How the application opens at launch.
#[derive(Debug, PartialEq, Eq, Structural)]
pub enum LaunchMode {
    /// Show the project picker.
    Picker,
    /// Reopen the last workspace.
    AutoLast,
}

/// Everything the project picker shows.
pub struct ProjectPickerState {
    pub default_root: String,
    pub default_projects: Vec<ProjectItem>,
    pub external_projects: Vec<ProjectItem>,
    pub last_workspace: Option<String>,
    pub launch_mode: LaunchMode,
}

/// One node of the workspace file tree.
pub struct FsEntry {
    pub name: String,
    pub path: String,
    pub kind: String,
    pub children: Vec<FsEntry>,
}

/// Per-project writing limits.
pub struct ProjectWritingSettings {
    pub chapter_word_target: u32,
    pub auto_min_chars: u32,
    pub auto_max_chars: u32,
    pub auto_max_rounds: u32,
    pub auto_max_chapter_advances: u32,
}

impl Default for ProjectWritingSettings {
    /// The writing limits a fresh project starts with.
    fn default() -> (r: Self)
        ensures
            r.chapter_word_target == 2000,
            r.auto_min_chars == 500,
            r.auto_max_chars == 2400,
            r.auto_max_rounds == 120,
            r.auto_max_chapter_advances == 24,
    {
        ProjectWritingSettings {
            chapter_word_target: 2000,
            auto_min_chars: 500,
            auto_max_chars: 2400,
            auto_max_rounds: 120,
            auto_max_chapter_advances: 24,
        }
    }
}

/// `x` forced into `[lo, hi]`.
pub open spec fn clamp_spec(x: int, lo: int, hi: int) -> int {
    if x < lo {
        lo
    } else if x > hi {
        hi
    } else {
        x
    }
}

/// Clamps a `u32` into `[lo, hi]`.
fn clamp_u32(x: u32, lo: u32, hi: u32) -> (r: u32)
    requires
        lo <= hi,
    ensures
        r == clamp_spec(x as int, lo as int, hi as int),
{
    if x < lo {
        lo
    } else if x > hi {
        hi
    } else {
        x
    }
}

/// Forces every writing limit into its accepted range, and the character
/// ceiling to at least the floor.
pub fn normalize_project_writing_settings(v: ProjectWritingSettings) -> (r:
    ProjectWritingSettings)
    ensures
        r.chapter_word_target == clamp_spec(v.chapter_word_target as int, 0, 200000),
        r.auto_min_chars == clamp_spec(v.auto_min_chars as int, 120, 20000),
        r.auto_max_chars as int == vstd::math::max(
            clamp_spec(v.auto_max_chars as int, 180, 60000),
            r.auto_min_chars as int,
        ),
        r.auto_max_rounds == clamp_spec(v.auto_max_rounds as int, 1, 1000),
        r.auto_max_chapter_advances == clamp_spec(v.auto_max_chapter_advances as int, 0, 200),
{
    let chapter_word_target = clamp_u32(v.chapter_word_target, 0, 200000);
    let auto_min_chars = clamp_u32(v.auto_min_chars, 120, 20000);
    let mut auto_max_chars = clamp_u32(v.auto_max_chars, 180, 60000);
    if auto_max_chars < auto_min_chars {
        auto_max_chars = auto_min_chars;
    }
    let auto_max_rounds = clamp_u32(v.auto_max_rounds, 1, 1000);
    let auto_max_chapter_advances = clamp_u32(v.auto_max_chapter_advances, 0, 200);
    ProjectWritingSettings {
        chapter_word_target,
        auto_min_chars,
        auto_max_chars,
        auto_max_rounds,
        auto_max_chapter_advances,
    }
}

/// One task checked for quality.
pub struct NovelTaskQualityTask {
    pub id: String,
    pub target_words: u32,
    pub scope: String,
    pub depends_on: Vec<String>,
    pub acceptance_checks: Vec<String>,
}

/// A quality-check request.
pub struct NovelTaskQualityRequest {
    pub task: NovelTaskQualityTask,
    pub assistant_text: String,
    pub task_pool: Vec<NovelTaskQualityTask>,
}

/// The quality verdict.
pub struct NovelTaskQualityResult {
    pub ok: bool,
    pub reason: Option<String>,
}

/// What a composer directive parsed to.
pub struct ComposerDirectiveParseResult {
    pub requested_mode: Option<String>,
    pub auto_action: Option<String>,
    pub content: String,
    pub matched: bool,
}

/// A request to resolve inline references.
pub struct ResolveInlineReferencesRequest {
    pub input: String,
    pub selection_text: Option<String>,
    pub active_file_path: Option<String>,
    pub active_file_content: Option<String>,
}

/// The outcome of resolving inline references.
pub struct ResolveInlineReferencesResult {
    pub resolved_input: String,
    pub blocks_added: usize,
}

/// One changed path of the working tree.
pub struct GitStatusItem {
    pub path: String,
    pub status: String,
}

/// One commit of the project history.
pub struct GitCommitInfo {
    pub id: String,
    pub message: String,
    pub author: String,
    pub time: i64,
}

/// The prompt templates the agent runtime is configured with.
pub struct AgentPromptConfig {
    pub builtin_workflow_appendix: String,
    pub runtime_prompt_template: String,
    pub mode_auto_apply: String,
    pub mode_review: String,
}

/// The characters of `s` that are not whitespace, in order.
pub open spec fn no_ws_spec(s: Seq<char>) -> Seq<char>
    decreases s.len(),
{
    if s.len() == 0 {
        Seq::empty()
    } else if is_ws(s[0]) {
        no_ws_spec(s.skip(1))
    } else {
        seq![s[0]] + no_ws_spec(s.skip(1))
    }
}

/// Appending one character extends the result by it unless it is
/// whitespace.
pub proof fn lemma_no_ws_snoc(s: Seq<char>, c: char)
    ensures
        no_ws_spec(s.push(c)) == if is_ws(c) {
            no_ws_spec(s)
        } else {
            no_ws_spec(s).push(c)
        },
    decreases s.len(),
{
    let whole = s.push(c);
    if s.len() == 0 {
        assert(whole.skip(1) =~= Seq::<char>::empty());
        assert(whole[0] == c);
        assert(no_ws_spec(Seq::<char>::empty()) =~= Seq::<char>::empty());
        if is_ws(c) {
            assert(no_ws_spec(whole) =~= no_ws_spec(s));
        } else {
            assert(no_ws_spec(whole) =~= no_ws_spec(s).push(c));
        }
    } else {
        assert(whole.skip(1) =~= s.skip(1).push(c));
        assert(whole[0] == s[0]);
        lemma_no_ws_snoc(s.skip(1), c);
        if is_ws(c) {
            assert(no_ws_spec(whole) =~= no_ws_spec(s));
        } else if is_ws(s[0]) {
            assert(no_ws_spec(whole) =~= no_ws_spec(s).push(c));
        } else {
            assert(seq![s[0]] + no_ws_spec(s.skip(1)).push(c) =~= (seq![s[0]] + no_ws_spec(
                s.skip(1),
            )).push(c));
            assert(no_ws_spec(whole) =~= no_ws_spec(s).push(c));
        }
    }
}

/// Drops every whitespace character of `input`.
pub fn normalize_no_whitespace(input: &str) -> (r: String)
    ensures
        r@ == no_ws_spec(input@),
{
    let chars = chars_of(input);
    let n = chars.len();
    let mut out: Vec<char> = Vec::new();
    let mut i: usize = 0;
    proof {
        assert(input@.take(0) =~= Seq::<char>::empty());
    }
    while i < n
        invariant
            chars@ == input@,
            n == input@.len(),
            i <= n,
            out@ == no_ws_spec(input@.take(i as int)),
        decreases n - i,
    {
        proof {
            lemma_no_ws_snoc(input@.take(i as int), input@[i as int]);
            assert(input@.take(i + 1) =~= input@.take(i as int).push(input@[i as int]));
        }
        if !is_ws_char(chars[i]) {
            out.push(chars[i]);
        }
        i = i + 1;
    }
    proof {
        assert(input@.take(n as int) =~= input@);
    }
    string_of(&out)
}

/// A `..` stands as a whole path segment at position `i`.
pub open spec fn dotdot_segment_at(s: Seq<char>, i: int) -> bool {
    0 <= i && i + 2 <= s.len() && s[i] == '.' && s[i + 1] == '.' && (i == 0 || s[i - 1] == '/')
        && (i + 2 == s.len() || s[i + 2] == '/')
}

/// The path climbs out of its root somewhere.
pub open spec fn has_dotdot_segment(s: Seq<char>) -> bool {
    exists|i: int| dotdot_segment_at(s, i)
}

/// Accepts a path that stays inside the workspace: not absolute, with no
/// parent-directory segment. The accepted path comes back unchanged.
pub fn validate_relative_path(relative_path: &str) -> (r: Result<String, String>)
    ensures
        match r {
            Ok(p) => p@ == relative_path@ && !starts_with_spec(relative_path@, "/"@)
                && !has_dotdot_segment(relative_path@),
            Err(m) => {
                ||| (starts_with_spec(relative_path@, "/"@) && m@
                    == "absolute path is not allowed"@)
                ||| (!starts_with_spec(relative_path@, "/"@) && has_dotdot_segment(
                    relative_path@,
                ) && m@ == "invalid relative path"@)
            },
        },
{
    let chars = chars_of(relative_path);
    let n = chars.len();
    proof {
        reveal_strlit("/");
    }
    if n > 0 && chars[0] == '/' {
        proof {
            assert(relative_path@.take(1) =~= "/"@);
        }
        return Err(String::from_str("absolute path is not allowed"));
    }
    proof {
        if starts_with_spec(relative_path@, "/"@) {
            assert(relative_path@.take(1)[0] == '/');
        }
    }
    let mut i: usize = 0;
    while i < n
        invariant
            chars@ == relative_path@,
            n == relative_path@.len(),
            i <= n,
            !starts_with_spec(relative_path@, "/"@),
            forall|j: int| 0 <= j < i ==> !dotdot_segment_at(relative_path@, j),
        decreases n - i,
    {
        let starts = i == 0 || chars[i - 1] == '/';
        let dots = i + 1 < n && chars[i] == '.' && chars[i + 1] == '.';
        let ends = dots && (n - i == 2 || (n - i > 2 && chars[i + 2] == '/'));
        if starts && dots && ends {
            proof {
                assert(dotdot_segment_at(relative_path@, i as int));
            }
            return Err(String::from_str("invalid relative path"));
        }
        i = i + 1;
    }
    proof {
        assert(forall|j: int| j >= n ==> !dotdot_segment_at(relative_path@, j));
        assert(forall|j: int| j < 0 ==> !dotdot_segment_at(relative_path@, j));
    }
    Ok(String::from_str(relative_path))
}

/// [`validate_relative_path`], as the read side uses it.
pub fn normalize_rel_path_for_read(path: &str) -> (r: Result<String, String>)
    ensures
        match r {
            Ok(p) => p@ == path@ && !starts_with_spec(path@, "/"@) && !has_dotdot_segment(path@),
            Err(m) => {
                ||| (starts_with_spec(path@, "/"@) && m@ == "absolute path is not allowed"@)
                ||| (!starts_with_spec(path@, "/"@) && has_dotdot_segment(path@) && m@
                    == "invalid relative path"@)
            },
        },
{
    validate_relative_path(path)
}

/// Parses the configured launch mode; anything but the two known tokens is
/// rejected.
pub fn parse_launch_mode(mode: &str) -> (r: Result<LaunchMode, String>)
    ensures
        trim_spec(mode@) == "picker"@ ==> (r matches Ok(v) && v is Picker),
        trim_spec(mode@) == "auto_last"@ ==> (r matches Ok(v) && v is AutoLast),
        trim_spec(mode@) != "picker"@ && trim_spec(mode@) != "auto_last"@ ==> (r matches Err(m)
            && m@ == "invalid launch mode"@),
{
    proof {
        reveal_strlit("picker");
        reveal_strlit("auto_last");
        assert("picker"@.len() == 6);
        assert("auto_last"@.len() == 9);
        assert("picker"@ != "auto_last"@);
    }
    let t = str_trim(mode);
    if str_eq(t.as_str(), "picker") {
        Ok(LaunchMode::Picker)
    } else if str_eq(t.as_str(), "auto_last") {
        Ok(LaunchMode::AutoLast)
    } else {
        Err(String::from_str("invalid launch mode"))
    }
}

/// The canonical writer mode an alias names, if any. The comparison is on
/// the lowercased, trimmed token.
pub open spec fn writer_mode_of(token: Seq<char>) -> Option<Seq<char>> {
    let lower = lower_of(trim_spec(token));
    if lower == "normal"@ || lower == "普通"@ {
        Option::Some("normal"@)
    } else if lower == "plan"@ || lower == "大纲"@ {
        Option::Some("plan"@)
    } else if lower == "spec"@ || lower == "细纲"@ {
        Option::Some("spec"@)
    } else {
        Option::None
    }
}

/// Resolves a writer-mode alias to its canonical name.
pub fn parse_writer_mode_alias(token: &str) -> (r: Option<&'static str>)
    ensures
        match r {
            Some(m) => writer_mode_of(token@) == Option::Some(m@),
            None => writer_mode_of(token@) is None,
        },
{
    proof {
        reveal_strlit("normal");
        reveal_strlit("plan");
        reveal_strlit("spec");
        reveal_strlit("普通");
        reveal_strlit("大纲");
        reveal_strlit("细纲");
    }
    let trimmed = str_trim(token);
    let lower = lowercase(trimmed.as_str());
    let l = lower.as_str();
    if str_eq(l, "normal") || str_eq(l, "普通") {
        Some("normal")
    } else if str_eq(l, "plan") || str_eq(l, "大纲") {
        Some("plan")
    } else if str_eq(l, "spec") || str_eq(l, "细纲") {
        Some("spec")
    } else {
        None
    }
}


/// A line with its leading spaces and tabs removed.
pub open spec fn strip_indent(line: Seq<char>) -> Seq<char>
    decreases line.len(),
{
    if line.len() > 0 && (line[0] == ' ' || line[0] == '\t') {
        strip_indent(line.skip(1))
    } else {
        line
    }
}

/// The kept lines joined by newlines: each line loses its indentation, and
/// lines left empty disappear.
pub open spec fn joined_plain(lines: Seq<Seq<char>>) -> Seq<char>
    decreases lines.len(),
{
    if lines.len() == 0 {
        Seq::empty()
    } else {
        let h = strip_indent(lines[0]);
        let rest = joined_plain(lines.skip(1));
        if h.len() == 0 {
            rest
        } else if rest.len() == 0 {
            h
        } else {
            h + seq!['\n'] + rest
        }
    }
}

/// What plain-text normalization produces: the unindented, non-blank lines
/// joined by newlines, trimmed at both ends.
pub open spec fn plaintext_spec(s: Seq<char>) -> Seq<char> {
    trim_spec(joined_plain(crate::export::split_lines(s)))
}

/// Joining one more line appends it after a newline, unless it strips to
/// nothing or nothing was kept yet.
proof fn lemma_joined_plain_snoc(lines: Seq<Seq<char>>, l: Seq<char>)
    ensures
        joined_plain(lines.push(l)) == ({
            let h = strip_indent(l);
            let done = joined_plain(lines);
            if h.len() == 0 {
                done
            } else if done.len() == 0 {
                h
            } else {
                done + seq!['\n'] + h
            }
        }),
    decreases lines.len(),
{
    let whole = lines.push(l);
    if lines.len() == 0 {
        assert(whole.skip(1) =~= Seq::<Seq<char>>::empty());
        assert(whole[0] == l);
        assert(joined_plain(Seq::<Seq<char>>::empty()) =~= Seq::<char>::empty());
    } else {
        assert(whole.skip(1) =~= lines.skip(1).push(l));
        assert(whole[0] == lines[0]);
        lemma_joined_plain_snoc(lines.skip(1), l);
        let h0 = strip_indent(lines[0]);
        let h = strip_indent(l);
        let restdone = joined_plain(lines.skip(1));
        if h0.len() > 0 && h.len() > 0 && restdone.len() > 0 {
            assert(h0 + seq!['\n'] + (restdone + seq!['\n'] + h) =~= (h0 + seq!['\n']
                + restdone) + seq!['\n'] + h);
        } else if h0.len() > 0 && h.len() > 0 && restdone.len() == 0 {
            assert(h0 + seq!['\n'] + h =~= h0 + seq!['\n'] + h);
        }
    }
}

/// Removes the leading spaces and tabs of one line.
fn strip_indent_exec(line: &str) -> (r: String)
    ensures
        r@ == strip_indent(line@),
{
    let chars = chars_of(line);
    let n = chars.len();
    let mut a: usize = 0;
    proof {
        assert(line@.skip(0) =~= line@);
    }
    while a < n && (chars[a] == ' ' || chars[a] == '\t')
        invariant
            chars@ == line@,
            n == line@.len(),
            a <= n,
            strip_indent(line@) == strip_indent(line@.skip(a as int)),
        decreases n - a,
    {
        proof {
            assert(line@.skip(a as int).skip(1) =~= line@.skip(a + 1));
        }
        a = a + 1;
    }
    let mut out: Vec<char> = Vec::new();
    let mut i: usize = a;
    proof {
        assert(out@ =~= line@.subrange(a as int, a as int));
    }
    while i < n
        invariant
            chars@ == line@,
            a <= i <= n == line@.len(),
            out@ == line@.subrange(a as int, i as int),
        decreases n - i,
    {
        out.push(chars[i]);
        i = i + 1;
        proof {
            assert(out@ =~= line@.subrange(a as int, i as int));
        }
    }
    proof {
        assert(out@ =~= line@.skip(a as int));
        if a < n {
            assert(strip_indent(line@.skip(a as int)) == line@.skip(a as int));
        } else {
            assert(line@.skip(a as int) =~= Seq::<char>::empty());
        }
    }
    string_of(&out)
}

/// Normalizes assistant prose for plain-text display: indentation and
/// blank lines go, the rest is joined by single newlines and trimmed.
pub fn normalize_plaintext(s: &str) -> (r: String)
    ensures
        r@ == plaintext_spec(s@),
{
    let lines = crate::export::lines_exec(s);
    let ghost all = crate::export::split_lines(s@);
    let mut out = String::new();
    let mut i: usize = 0;
    proof {
        assert(all.take(0) =~= Seq::<Seq<char>>::empty());
    }
    while i < lines.len()
        invariant
            all == crate::export::split_lines(s@),
            lines@.len() == all.len(),
            forall|k: int| 0 <= k < all.len() ==> (#[trigger] lines@[k])@ == all[k],
            i <= all.len(),
            out@ == joined_plain(all.take(i as int)),
        decreases lines@.len() - i,
    {
        proof {
            lemma_joined_plain_snoc(all.take(i as int), all[i as int]);
            assert(all.take(i + 1) =~= all.take(i as int).push(all[i as int]));
        }
        let stripped = strip_indent_exec(lines[i].as_str());
        if !stripped.as_str().is_empty() {
            if !out.as_str().is_empty() {
                crate::text::push_char(&mut out, '\n');
                proof {
                    assert(out@ =~= joined_plain(all.take(i as int)) + seq!['\n']);
                }
            }
            append_str(&mut out, stripped.as_str());
            proof {
                assert(out@ =~= joined_plain(all.take(i + 1)));
            }
        }
        i = i + 1;
    }
    proof {
        assert(all.take(all.len() as int) =~= all);
    }
    str_trim(out.as_str())
}


/// The index of the first whitespace character of `s`, or its length.
pub open spec fn first_ws_idx(s: Seq<char>) -> int
    decreases s.len(),
{
    if s.len() == 0 {
        0
    } else if is_ws(s[0]) {
        0
    } else {
        1 + first_ws_idx(s.skip(1))
    }
}

/// `first_ws_idx` really is the first: in bounds, whitespace when inside,
/// nothing before it whitespace.
proof fn lemma_first_ws_idx(s: Seq<char>)
    ensures
        0 <= first_ws_idx(s) <= s.len(),
        first_ws_idx(s) < s.len() ==> is_ws(s[first_ws_idx(s)]),
        forall|j: int| 0 <= j < first_ws_idx(s) ==> !is_ws(s[j]),
    decreases s.len(),
{
    if s.len() > 0 && !is_ws(s[0]) {
        lemma_first_ws_idx(s.skip(1));
        assert(forall|j: int| 1 <= j < first_ws_idx(s) ==> s[j] == s.skip(1)[j - 1]);
    }
}

/// The command of a directive: what stands between the slash and the first
/// whitespace.
pub open spec fn directive_command(after_slash: Seq<char>) -> Seq<char> {
    after_slash.take(first_ws_idx(after_slash))
}

/// The argument text of a directive: what follows the first whitespace,
/// trimmed.
pub open spec fn directive_rest(after_slash: Seq<char>) -> Seq<char> {
    if first_ws_idx(after_slash) < after_slash.len() {
        trim_spec(after_slash.skip(first_ws_idx(after_slash) + 1))
    } else {
        Seq::empty()
    }
}

/// The first whitespace-separated word of `s`.
pub open spec fn first_word(s: Seq<char>) -> Seq<char> {
    let t = crate::text::trim_start_spec(s);
    t.take(first_ws_idx(t))
}

/// The auto-mode action a directive argument selects.
pub open spec fn auto_action_of(rest: Seq<char>) -> Seq<char> {
    let arg = lower_of(first_word(rest));
    if arg == "on"@ {
        "on"@
    } else if arg == "off"@ {
        "off"@
    } else {
        "toggle"@
    }
}

/// The copies of the slice `s[a..b)` as a string.
fn copy_range(chars: &Vec<char>, a: usize, b: usize) -> (r: String)
    requires
        a <= b <= chars@.len(),
    ensures
        r@ == chars@.subrange(a as int, b as int),
{
    let mut out: Vec<char> = Vec::new();
    let mut i: usize = a;
    proof {
        assert(out@ =~= chars@.subrange(a as int, a as int));
    }
    while i < b
        invariant
            a <= i <= b <= chars@.len(),
            out@ == chars@.subrange(a as int, i as int),
        decreases b - i,
    {
        out.push(chars[i]);
        i = i + 1;
        proof {
            assert(out@ =~= chars@.subrange(a as int, i as int));
        }
    }
    string_of(&out)
}

/// The position of the first whitespace character, or the length.
fn first_ws_exec(chars: &Vec<char>) -> (r: usize)
    ensures
        r == first_ws_idx(chars@),
        r <= chars@.len(),
{
    proof {
        lemma_first_ws_idx(chars@);
    }
    let n = chars.len();
    let mut i: usize = 0;
    while i < n && !is_ws_char(chars[i])
        invariant
            n == chars@.len(),
            i <= n,
            forall|j: int| 0 <= j < i ==> !is_ws(chars@[j]),
        decreases n - i,
    {
        i = i + 1;
    }
    proof {
        lemma_first_ws_at(chars@, i as int);
    }
    i
}

/// A first-whitespace position determines `first_ws_idx`.
proof fn lemma_first_ws_at(s: Seq<char>, i: int)
    requires
        0 <= i <= s.len(),
        forall|j: int| 0 <= j < i ==> !is_ws(s[j]),
        i == s.len() || is_ws(s[i]),
    ensures
        first_ws_idx(s) == i,
    decreases i,
{
    if i > 0 {
        lemma_first_ws_at(s.skip(1), i - 1);
        assert(forall|j: int| 0 <= j < i - 1 ==> s.skip(1)[j] == s[j + 1]);
    }
}

/// Parses a composer directive. A message that does not open with a slash
/// passes through untouched. `/auto [on|off|…]` selects the auto action;
/// a writer-mode alias after the slash selects that mode with the rest as
/// content; any other command leaves the message unmatched.
pub fn parse_composer_directive(input: String) -> (r: ComposerDirectiveParseResult)
    ensures
        ({
            let trimmed = trim_spec(input@);
            if !(trimmed.len() > 0 && trimmed[0] == '/') {
                r.requested_mode is None && r.auto_action is None && r.content@ == trimmed
                    && !r.matched
            } else {
                let after = trimmed.skip(1);
                let command = directive_command(after);
                let rest = directive_rest(after);
                if ascii_lower_seq(command) == "auto"@ {
                    r.requested_mode is None && (r.auto_action matches Some(a) && a@
                        == auto_action_of(rest)) && r.content@.len() == 0 && r.matched
                } else {
                    match writer_mode_of(command) {
                        Option::Some(m) => (r.requested_mode matches Some(rm) && rm@ == m)
                            && r.auto_action is None && r.content@ == rest && r.matched,
                        Option::None => r.requested_mode is None && r.auto_action is None
                            && r.content@ == trimmed && !r.matched,
                    }
                }
            }
        }),
{
    proof {
        reveal_strlit("auto");
    }
    let trimmed = str_trim(input.as_str());
    let t_chars = chars_of(trimmed.as_str());
    if t_chars.len() == 0 || t_chars[0] != '/' {
        return ComposerDirectiveParseResult {
            requested_mode: None,
            auto_action: None,
            content: trimmed,
            matched: false,
        };
    }
    let n = t_chars.len();
    let mut after_chars: Vec<char> = Vec::new();
    let mut i: usize = 1;
    proof {
        assert(after_chars@ =~= t_chars@.subrange(1, 1));
    }
    while i < n
        invariant
            n == t_chars@.len(),
            1 <= i <= n,
            after_chars@ == t_chars@.subrange(1, i as int),
        decreases n - i,
    {
        after_chars.push(t_chars[i]);
        i = i + 1;
        proof {
            assert(after_chars@ =~= t_chars@.subrange(1, i as int));
        }
    }
    proof {
        assert(after_chars@ =~= t_chars@.skip(1));
    }
    let w = first_ws_exec(&after_chars);
    let command = copy_range(&after_chars, 0, w);
    let rest = if w < after_chars.len() {
        let raw = copy_range(&after_chars, w + 1, after_chars.len());
        proof {
            assert(after_chars@.subrange(w + 1, after_chars@.len() as int) =~= after_chars@.skip(
                w + 1,
            ));
        }
        str_trim(raw.as_str())
    } else {
        String::new()
    };
    let command_lower = ascii_lowercase(command.as_str());
    if str_eq(command_lower.as_str(), "auto") {
        let rest_chars = chars_of(rest.as_str());
        let a = skip_leading_ws(&rest_chars);
        let ghost tstart = crate::text::trim_start_spec(rest@);
        let mut word_chars: Vec<char> = Vec::new();
        let mut k: usize = a;
        proof {
            assert(word_chars@ =~= rest@.subrange(a as int, a as int));
        }
        while k < rest_chars.len() && !is_ws_char(rest_chars[k])
            invariant
                rest_chars@ == rest@,
                a <= k <= rest@.len(),
                word_chars@ == rest@.subrange(a as int, k as int),
                forall|j: int| a <= j < k ==> !is_ws(rest@[j]),
            decreases rest@.len() - k,
        {
            word_chars.push(rest_chars[k]);
            k = k + 1;
            proof {
                assert(word_chars@ =~= rest@.subrange(a as int, k as int));
            }
        }
        proof {
            assert(tstart =~= rest@.skip(a as int));
            lemma_first_ws_at(tstart, k - a);
            assert(word_chars@ =~= tstart.take(first_ws_idx(tstart)));
        }
        let word = string_of(&word_chars);
        let arg = lowercase(word.as_str());
        let action = if str_eq(arg.as_str(), "on") {
            String::from_str("on")
        } else if str_eq(arg.as_str(), "off") {
            String::from_str("off")
        } else {
            String::from_str("toggle")
        };
        return ComposerDirectiveParseResult {
            requested_mode: None,
            auto_action: Some(action),
            content: String::new(),
            matched: true,
        };
    }
    match parse_writer_mode_alias(command.as_str()) {
        Some(mode) => {
            proof {
                lemma_command_trim(t_chars@.skip(1));
            }
            ComposerDirectiveParseResult {
                requested_mode: Some(String::from_str(mode)),
                auto_action: None,
                content: rest,
                matched: true,
            }
        },
        None => {
            proof {
                lemma_command_trim(t_chars@.skip(1));
            }
            ComposerDirectiveParseResult {
                requested_mode: None,
                auto_action: None,
                content: trimmed,
                matched: false,
            }
        },
    }
}

/// The position after the leading whitespace.
fn skip_leading_ws(chars: &Vec<char>) -> (r: usize)
    ensures
        r <= chars@.len(),
        crate::text::trim_start_spec(chars@) == chars@.skip(r as int),
        forall|j: int| 0 <= j < r ==> is_ws(chars@[j]),
        r == chars@.len() || !is_ws(chars@[r as int]),
{
    let n = chars.len();
    let mut a: usize = 0;
    while a < n && is_ws_char(chars[a])
        invariant
            n == chars@.len(),
            a <= n,
            forall|j: int| 0 <= j < a ==> is_ws(chars@[j]),
        decreases n - a,
    {
        a = a + 1;
    }
    proof {
        crate::text::lemma_trim_start_skip(chars@, a as int);
    }
    a
}

/// A directive command has no whitespace, so trimming it changes nothing.
proof fn lemma_command_trim(after: Seq<char>)
    ensures
        trim_spec(directive_command(after)) == directive_command(after),
{
    lemma_first_ws_idx(after);
    let c = directive_command(after);
    assert(forall|j: int| 0 <= j < c.len() ==> !is_ws(c[j])) by {
        assert(forall|j: int| 0 <= j < c.len() ==> c[j] == after[j]);
    }
    crate::text::lemma_trim_start_skip(c, 0);
    assert(c.skip(0) =~= c);
    crate::text::lemma_trim_end_take(c, 0);
    assert(c.take(c.len() as int) =~= c);
}

}
