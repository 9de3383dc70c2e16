//! Commit attribution and the weekly human/AI line-ratio gate.

use vstd::prelude::*;

use vstd::string::StrSliceExecFns;
use vstd::string::StringSliceAdditionalSpecFns;
use vstd::utf8::encode_utf8;

use crate::Actor;
use crate::DriveReason;
use crate::Mode;
use crate::config::AppConfig;
use crate::outside::iso_week_of;
use crate::outside::iso_week_of_unix;
use crate::outside::iso_week_monday;
use crate::outside::iso_week_monday_unix;
use crate::outside::lower_of;
use crate::outside::lowercase;
use crate::state::State;
use crate::text::contains_seq;
use crate::text::contains_subslice;
use crate::text::opt_str_view;
use crate::text::parse_u64;
use crate::text::parse_u64_spec;
use crate::text::str_eq;
use crate::text::trim_spec;
use crate::text::trim_str;

verus! {

/// Everything the classifier and the line counter read of one commit, as
/// the repository reports it: the full id, the message body, the author
/// email, the commit's note when one exists, and the numeric stat text.
pub struct CommitRecord {
    pub id: String,
    pub message: String,
    pub author_email: String,
    pub notes: Option<String>,
    pub numstat: String,
}

/// The override table's answer for a commit id: the latest entry wins.
pub open spec fn ov_get(pairs: Seq<(String, Actor)>, k: Seq<char>) -> Option<Actor>
    decreases pairs.len(),
{
    if pairs.len() == 0 {
        None
    } else if pairs.last().0@ == k {
        Some(pairs.last().1)
    } else {
        ov_get(pairs.drop_last(), k)
    }
}

/// Whether some configured AI author email equals the commit's author
/// email, both case-folded, the commit's one trimmed first.
pub open spec fn email_matches(emails: Seq<String>, email: Seq<char>) -> bool {
    exists|i: int|
        0 <= i < emails.len() && lower_of(#[trigger] emails[i]@) == lower_of(trim_spec(email))
}

/// What a note decides, if anything: `spp:ai` is checked before
/// `spp:human`, both as case-folded substrings.
pub open spec fn note_actor(notes: Option<Seq<char>>) -> Option<Actor> {
    match notes {
        Some(n) => if contains_seq(encode_utf8(lower_of(n)), encode_utf8("spp:ai"@)) {
            Some(Actor::Ai)
        } else if contains_seq(encode_utf8(lower_of(n)), encode_utf8("spp:human"@)) {
            Some(Actor::Human)
        } else {
            None
        },
        None => None,
    }
}

/// The classifier's fixed precedence: an explicit override; the
/// co-authorship trailer in the message; a configured AI author email; a
/// note marker; and, failing all of those, Human.
pub open spec fn classify_spec(
    overrides: Seq<(String, Actor)>,
    emails: Seq<String>,
    id: Seq<char>,
    message: Seq<char>,
    email: Seq<char>,
    notes: Option<Seq<char>>,
) -> Actor {
    match ov_get(overrides, id) {
        Some(a) => a,
        None => if contains_seq(
            encode_utf8(lower_of(message)),
            encode_utf8("co-authored-by: codex"@),
        ) {
            Actor::Ai
        } else if email_matches(emails, email) {
            Actor::Ai
        } else {
            match note_actor(notes) {
                Some(a) => a,
                None => Actor::Human,
            }
        },
    }
}

/// An explicit override always wins: whatever the message, the author
/// email and the notes say, a commit with an override is classified as
/// the override says.
pub proof fn lemma_override_wins(
    overrides: Seq<(String, Actor)>,
    emails: Seq<String>,
    id: Seq<char>,
    message: Seq<char>,
    email: Seq<char>,
    notes: Option<Seq<char>>,
    a: Actor,
)
    requires
        ov_get(overrides, id) == Some(a),
    ensures
        classify_spec(overrides, emails, id, message, email, notes) == a,
{
}

/// Exactly one classification path decides each commit, in the fixed
/// precedence order: with no override, a co-authorship trailer decides
/// before the author email, the author email before the note markers,
/// and a commit none of them touches is Human.
pub proof fn lemma_classification_precedence(
    overrides: Seq<(String, Actor)>,
    emails: Seq<String>,
    id: Seq<char>,
    message: Seq<char>,
    email: Seq<char>,
    notes: Option<Seq<char>>,
)
    requires
        ov_get(overrides, id) is None,
    ensures
        contains_seq(encode_utf8(lower_of(message)), encode_utf8("co-authored-by: codex"@))
            ==> classify_spec(overrides, emails, id, message, email, notes) == Actor::Ai,
        !contains_seq(encode_utf8(lower_of(message)), encode_utf8("co-authored-by: codex"@))
            && email_matches(emails, email) ==> classify_spec(
            overrides,
            emails,
            id,
            message,
            email,
            notes,
        ) == Actor::Ai,
        !contains_seq(encode_utf8(lower_of(message)), encode_utf8("co-authored-by: codex"@))
            && !email_matches(emails, email) ==> classify_spec(
            overrides,
            emails,
            id,
            message,
            email,
            notes,
        ) == (match note_actor(notes) {
            Some(a) => a,
            None => Actor::Human,
        }),
{
}

fn lookup_override(overrides: &Vec<(String, Actor)>, id: &str) -> (r: Option<Actor>)
    ensures
        r == ov_get(overrides@, id@),
{
    let n = overrides.len();
    let mut i: usize = n;
    proof {
        assert(overrides@.take(n as int) =~= overrides@);
    }
    while i > 0
        invariant
            n == overrides@.len(),
            i <= n,
            ov_get(overrides@, id@) == ov_get(overrides@.take(i as int), id@),
        decreases i,
    {
        i -= 1;
        proof {
            assert(overrides@.take(i as int + 1).last() == overrides@[i as int]);
            assert(overrides@.take(i as int + 1).drop_last() =~= overrides@.take(i as int));
        }
        let p = &overrides[i];
        if str_eq(p.0.as_str(), id) {
            return Some(p.1);
        }
    }
    proof {
        assert(overrides@.take(0) =~= Seq::<(String, Actor)>::empty());
    }
    None
}

fn email_in_list(emails: &Vec<String>, email_trimmed_lower: &str) -> (r: bool)
    ensures
        r == (exists|i: int|
            0 <= i < emails@.len() && lower_of(#[trigger] emails@[i]@) == email_trimmed_lower@),
{
    let n = emails.len();
    let mut i: usize = 0;
    while i < n
        invariant
            n == emails@.len(),
            i <= n,
            forall|j: int| 0 <= j < i ==> lower_of(#[trigger] emails@[j]@) != email_trimmed_lower@,
        decreases n - i,
    {
        let cand = lowercase(emails[i].as_str());
        if str_eq(cand.as_str(), email_trimmed_lower) {
            return true;
        }
        i += 1;
    }
    false
}

/// Decides who authored a commit, in the fixed precedence order.
pub fn classify_actor(state: &State, config: &AppConfig, commit: &CommitRecord) -> (r: Actor)
    ensures
        r == classify_spec(
            state.attribution_overrides@,
            config.attribution.codex_author_emails@,
            commit.id@,
            commit.message@,
            commit.author_email@,
            opt_str_view(commit.notes),
        ),
{
    if let Some(a) = lookup_override(&state.attribution_overrides, commit.id.as_str()) {
        return a;
    }
    let trailer_lc = lowercase(commit.message.as_str());
    if contains_subslice(trailer_lc.as_str().as_bytes(), "co-authored-by: codex".as_bytes()) {
        return Actor::Ai;
    }
    let email_trimmed = trim_str(commit.author_email.as_str());
    let email_lc = lowercase(email_trimmed.as_str());
    if email_in_list(&config.attribution.codex_author_emails, email_lc.as_str()) {
        return Actor::Ai;
    }
    match &commit.notes {
        Some(n) => {
            let notes_lc = lowercase(n.as_str());
            if contains_subslice(notes_lc.as_str().as_bytes(), "spp:ai".as_bytes()) {
                return Actor::Ai;
            }
            if contains_subslice(notes_lc.as_str().as_bytes(), "spp:human".as_bytes()) {
                return Actor::Human;
            }
            Actor::Human
        },
        None => Actor::Human,
    }
}

/// Index of the first newline character, if any.
pub open spec fn char_nl(s: Seq<char>) -> Option<int>
    decreases s.len(),
{
    if s.len() == 0 {
        None
    } else if s[0] == '\n' {
        Some(0)
    } else {
        match char_nl(s.drop_first()) {
            Some(i) => Some(i + 1),
            None => None,
        }
    }
}

/// Index of the first tab character, if any.
pub open spec fn char_tab(s: Seq<char>) -> Option<int>
    decreases s.len(),
{
    if s.len() == 0 {
        None
    } else if s[0] == '\t' {
        Some(0)
    } else {
        match char_tab(s.drop_first()) {
            Some(i) => Some(i + 1),
            None => None,
        }
    }
}

/// Added lines one trimmed stat line contributes: the first tab-separated
/// field parsed as a number; a blank line, the binary marker `-` and an
/// unparsable field contribute zero.
pub open spec fn line_added(t: Seq<char>) -> int {
    if t.len() == 0 {
        0
    } else {
        let f = match char_tab(t) {
            Some(i) => t.take(i),
            None => t,
        };
        if f == "-"@ {
            0
        } else {
            match parse_u64_spec(encode_utf8(f)) {
                Some(v) => v as int,
                None => 0,
            }
        }
    }
}

/// Total added lines a numeric stat text reports, line by line.
pub open spec fn numstat_sum(s: Seq<char>) -> int
    decreases s.len(),
{
    match char_nl(s) {
        None => line_added(trim_spec(s)),
        Some(i) => if !(0 <= i < s.len()) {
            // `char_nl` never returns an out-of-range index
            0
        } else {
            line_added(trim_spec(s.take(i))) + numstat_sum(s.skip(i + 1))
        },
    }
}

proof fn lemma_char_nl_run(s: Seq<char>, i: int)
    requires
        0 <= i <= s.len(),
        forall|j: int| 0 <= j < i ==> s[j] != '\n',
        i < s.len() ==> s[i] == '\n',
    ensures
        char_nl(s) == (if i < s.len() {
            Some(i)
        } else {
            None::<int>
        }),
    decreases s.len(),
{
    if s.len() == 0 {
    } else if i == 0 {
    } else {
        assert(s[0] != '\n');
        assert(forall|j: int| 0 <= j < i - 1 ==> s.drop_first()[j] == s[j + 1]);
        lemma_char_nl_run(s.drop_first(), i - 1);
    }
}

proof fn lemma_char_tab_run(s: Seq<char>, i: int)
    requires
        0 <= i <= s.len(),
        forall|j: int| 0 <= j < i ==> s[j] != '\t',
        i < s.len() ==> s[i] == '\t',
    ensures
        char_tab(s) == (if i < s.len() {
            Some(i)
        } else {
            None::<int>
        }),
    decreases s.len(),
{
    if s.len() == 0 {
    } else if i == 0 {
    } else {
        assert(s[0] != '\t');
        assert(forall|j: int| 0 <= j < i - 1 ==> s.drop_first()[j] == s[j + 1]);
        lemma_char_tab_run(s.drop_first(), i - 1);
    }
}

proof fn lemma_line_added_nonneg(t: Seq<char>)
    ensures
        line_added(t) >= 0,
{
}

proof fn lemma_numstat_sum_nonneg(s: Seq<char>)
    ensures
        numstat_sum(s) >= 0,
    decreases s.len(),
{
    lemma_line_added_nonneg(trim_spec(s));
    match char_nl(s) {
        None => {},
        Some(i) => {
            if 0 <= i < s.len() {
                lemma_line_added_nonneg(trim_spec(s.take(i)));
                lemma_numstat_sum_nonneg(s.skip(i + 1));
            }
        },
    }
}

/// Added lines one trimmed line contributes, executable.
fn line_added_exec(t: &str) -> (r: u64)
    ensures
        r == line_added(t@),
{
    let n = t.unicode_len();
    if n == 0 {
        return 0;
    }
    let mut k: usize = 0;
    while k < n && t.get_char(k) != '\t'
        invariant
            n == t@.len(),
            k <= n,
            forall|j: int| 0 <= j < k ==> t@[j] != '\t',
        decreases n - k,
    {
        k += 1;
    }
    proof {
        lemma_char_tab_run(t@, k as int);
        if k == n {
            assert(t@.take(n as int) =~= t@);
        }
    }
    let field = t.substring_char(0, k);
    if str_eq(field, "-") {
        return 0;
    }
    match parse_u64(field.as_bytes()) {
        Some(v) => v,
        None => 0,
    }
}

/// Sums the added lines a numeric stat diff reports; a `-` marker for a
/// binary file contributes zero.  The sum saturates at `u64::MAX`.
pub fn commit_added_lines(numstat: &str) -> (r: u64)
    ensures
        r == (if numstat_sum(numstat@) > u64::MAX {
            u64::MAX as int
        } else {
            numstat_sum(numstat@)
        }),
{
    let n = numstat.unicode_len();
    let mut pos: usize = 0;
    let mut acc: u64 = 0;
    let ghost mut partial: int = 0;
    proof {
        assert(numstat@.skip(0) =~= numstat@);
        lemma_numstat_sum_nonneg(numstat@);
    }
    loop
        invariant
            n == numstat@.len(),
            pos <= n,
            partial >= 0,
            numstat_sum(numstat@) == partial + numstat_sum(numstat@.skip(pos as int)),
            acc == (if partial > u64::MAX {
                u64::MAX as int
            } else {
                partial
            }),
        decreases n - pos,
    {
        let mut j: usize = pos;
        while j < n && numstat.get_char(j) != '\n'
            invariant
                n == numstat@.len(),
                pos <= j <= n,
                forall|x: int| pos <= x < j ==> numstat@[x] != '\n',
            decreases n - j,
        {
            j += 1;
        }
        let ghost lrem = numstat@.skip(pos as int);
        proof {
            assert(forall|x: int| 0 <= x < j - pos ==> lrem[x] == numstat@[x + pos]);
            lemma_char_nl_run(lrem, j - pos);
        }
        let line = numstat.substring_char(pos, j);
        proof {
            assert(lrem.take(j - pos) =~= numstat@.subrange(pos as int, j as int));
            if j == n {
                assert(lrem =~= numstat@.subrange(pos as int, j as int));
            }
        }
        let t = trim_str(line);
        let v = line_added_exec(t.as_str());
        proof {
            lemma_numstat_sum_nonneg(lrem.skip(j - pos + 1));
            lemma_line_added_nonneg(trim_spec(lrem));
            partial = partial + v;
        }
        if acc > u64::MAX - v {
            acc = u64::MAX;
        } else {
            acc = acc + v;
        }
        if j == n {
            proof {
                assert(numstat_sum(lrem) == line_added(trim_spec(lrem)));
            }
            return acc;
        }
        proof {
            assert(lrem.skip(j - pos + 1) =~= numstat@.skip(j as int + 1));
        }
        pos = j + 1;
    }
}

/// A week's totals, as exact (unbounded) numbers.
pub struct MetricsModel {
    pub human_lines: int,
    pub ai_lines: int,
    pub human_commits: int,
    pub ai_commits: int,
}

/// The actor a commit resolves to, over the raw repository data.
pub open spec fn commit_actor(
    overrides: Seq<(String, Actor)>,
    emails: Seq<String>,
    c: CommitRecord,
) -> Actor {
    classify_spec(overrides, emails, c.id@, c.message@, c.author_email@, opt_str_view(c.notes))
}

/// The added lines a commit reports, capped as the counter returns them.
pub open spec fn commit_added(c: CommitRecord) -> int {
    if numstat_sum(c.numstat@) > u64::MAX {
        u64::MAX as int
    } else {
        numstat_sum(c.numstat@)
    }
}

/// A week's totals over its commits: each commit's added lines and count
/// go to the side its classified actor names.
pub open spec fn metrics_spec(
    overrides: Seq<(String, Actor)>,
    emails: Seq<String>,
    commits: Seq<CommitRecord>,
) -> MetricsModel
    decreases commits.len(),
{
    if commits.len() == 0 {
        MetricsModel { human_lines: 0, ai_lines: 0, human_commits: 0, ai_commits: 0 }
    } else {
        let m = metrics_spec(overrides, emails, commits.drop_last());
        let c = commits.last();
        match commit_actor(overrides, emails, c) {
            Actor::Human => MetricsModel {
                human_lines: m.human_lines + commit_added(c),
                human_commits: m.human_commits + 1,
                ..m
            },
            Actor::Ai => MetricsModel {
                ai_lines: m.ai_lines + commit_added(c),
                ai_commits: m.ai_commits + 1,
                ..m
            },
        }
    }
}

/// Clamp of an exact total into a `u64`.
pub open spec fn capped(v: int) -> int {
    if v > u64::MAX {
        u64::MAX as int
    } else {
        v
    }
}

/// A week's totals of added lines and commit counts per actor.
pub struct WeeklyMetrics {
    pub human_lines_added: u64,
    pub ai_lines_added: u64,
    pub human_commit_count: u64,
    pub ai_commit_count: u64,
}

proof fn lemma_metrics_nonneg(
    overrides: Seq<(String, Actor)>,
    emails: Seq<String>,
    commits: Seq<CommitRecord>,
)
    ensures
        ({
            let m = metrics_spec(overrides, emails, commits);
            m.human_lines >= 0 && m.ai_lines >= 0 && m.human_commits >= 0 && m.ai_commits >= 0
        }),
    decreases commits.len(),
{
    if commits.len() == 0 {
    } else {
        lemma_metrics_nonneg(overrides, emails, commits.drop_last());
        lemma_numstat_sum_nonneg(commits.last().numstat@);
    }
}

/// Classifies each commit and sums added lines per side.  Line totals
/// saturate at `u64::MAX`; counts cannot reach it.
pub fn collect_weekly_metrics(state: &State, config: &AppConfig, commits: &Vec<CommitRecord>) -> (r:
    WeeklyMetrics)
    ensures
        ({
            let m = metrics_spec(
                state.attribution_overrides@,
                config.attribution.codex_author_emails@,
                commits@,
            );
            &&& r.human_lines_added == capped(m.human_lines)
            &&& r.ai_lines_added == capped(m.ai_lines)
            &&& r.human_commit_count == m.human_commits
            &&& r.ai_commit_count == m.ai_commits
        }),
{
    let ghost ov = state.attribution_overrides@;
    let ghost em = config.attribution.codex_author_emails@;
    let n = commits.len();
    let mut hl: u64 = 0;
    let mut al: u64 = 0;
    let mut hc: u64 = 0;
    let mut ac: u64 = 0;
    let mut i: usize = 0;
    proof {
        assert(commits@.take(0) =~= Seq::<CommitRecord>::empty());
    }
    while i < n
        invariant
            n == commits@.len(),
            i <= n,
            ov == state.attribution_overrides@,
            em == config.attribution.codex_author_emails@,
            ({
                let m = metrics_spec(ov, em, commits@.take(i as int));
                &&& hl == capped(m.human_lines)
                &&& al == capped(m.ai_lines)
                &&& hc == m.human_commits
                &&& ac == m.ai_commits
                &&& m.human_commits <= i
                &&& m.ai_commits <= i
            }),
        decreases n - i,
    {
        let c = &commits[i];
        let actor = classify_actor(state, config, c);
        let added = commit_added_lines(c.numstat.as_str());
        proof {
            assert(commits@.take(i as int + 1).drop_last() =~= commits@.take(i as int));
            assert(commits@.take(i as int + 1).last() == commits@[i as int]);
            lemma_metrics_nonneg(ov, em, commits@.take(i as int));
            lemma_numstat_sum_nonneg(commits@[i as int].numstat@);
        }
        match actor {
            Actor::Human => {
                if hl > u64::MAX - added {
                    hl = u64::MAX;
                } else {
                    hl = hl + added;
                }
                hc = hc + 1;
            },
            Actor::Ai => {
                if al > u64::MAX - added {
                    al = u64::MAX;
                } else {
                    al = al + added;
                }
                ac = ac + 1;
            },
        }
        i += 1;
    }
    proof {
        assert(commits@.take(n as int) =~= commits@);
    }
    WeeklyMetrics {
        human_lines_added: hl,
        ai_lines_added: al,
        human_commit_count: hc,
        ai_commit_count: ac,
    }
}

/// The week's ratio in parts per million: human lines over all lines,
/// the full million when nothing was added.
pub open spec fn ratio_ppm_spec(human: u64, ai: u64) -> int {
    if human + ai == 0 {
        1000000
    } else {
        (human * 1000000) / (human + ai)
    }
}

/// A week with zero qualifying commits counts as fully human: its ratio
/// is the full million, passing for any target up to it.
pub proof fn lemma_empty_week_passes(target_ppm: u64)
    requires
        target_ppm <= 1000000,
    ensures
        ratio_ppm_spec(0, 0) == 1000000,
        ratio_ppm_spec(0, 0) >= target_ppm,
{
}

/// One ISO week's evaluation, ready to persist.
pub struct WeeklyReport {
    pub log_schema_version: String,
    /// Unix seconds of the evaluation.
    pub generated_at: i64,
    pub year: i32,
    pub iso_week: u32,
    pub human_lines_added: u64,
    pub ai_lines_added: u64,
    pub human_commit_count: u64,
    pub ai_commit_count: u64,
    /// `human / (human + ai)` in parts per million, rounded down.
    pub ratio_ppm: u64,
    pub target_ppm: u64,
    pub gate_passed: bool,
    pub mode_after_evaluation: Mode,
    pub notes: Vec<String>,
}

/// Computes the ratio in parts per million.
pub fn ratio_ppm(human: u64, ai: u64) -> (r: u64)
    ensures
        r == ratio_ppm_spec(human, ai),
        r <= 1000000,
{
    let total: u128 = human as u128 + ai as u128;
    if total == 0 {
        1000000
    } else {
        let num: u128 = human as u128 * 1000000;
        let q: u128 = num / total;
        proof {
            assert(q <= 1000000) by (nonlinear_arith)
                requires
                    total > 0,
                    human as u128 <= total,
                    num == human as u128 * 1000000,
                    q == num / total,
            ;
        }
        q as u64
    }
}

/// Evaluates the current week from its classified commits.  The report is
/// always computed fresh: ratio, target and verdict are functions of the
/// inputs alone, and the verdict passes exactly when the ratio reaches the
/// target.
pub fn compute_weekly_report(
    config: &AppConfig,
    state: &State,
    commits: &Vec<CommitRecord>,
    now: i64,
) -> (r: WeeklyReport)
    ensures
        ({
            let m = metrics_spec(
                state.attribution_overrides@,
                config.attribution.codex_author_emails@,
                commits@,
            );
            &&& r.log_schema_version@ == config.log_schema_version@
            &&& r.generated_at == now
            &&& r.year == iso_week_of(now).0
            &&& r.iso_week == iso_week_of(now).1
            &&& r.human_lines_added == capped(m.human_lines)
            &&& r.ai_lines_added == capped(m.ai_lines)
            &&& r.human_commit_count == m.human_commits
            &&& r.ai_commit_count == m.ai_commits
            &&& r.ratio_ppm == ratio_ppm_spec(r.human_lines_added, r.ai_lines_added)
            &&& r.target_ppm == config.weekly_ratio_target_ppm
            &&& r.gate_passed == (r.ratio_ppm >= r.target_ppm)
            &&& r.mode_after_evaluation == state.mode
            &&& r.notes@.len() == 0
        }),
{
    let (year, iso_week) = iso_week_of_unix(now);
    let metrics = collect_weekly_metrics(state, config, commits);
    let ratio = ratio_ppm(metrics.human_lines_added, metrics.ai_lines_added);
    let gate_passed = ratio >= config.weekly_ratio_target_ppm;
    WeeklyReport {
        log_schema_version: config.log_schema_version.clone(),
        generated_at: now,
        year,
        iso_week,
        human_lines_added: metrics.human_lines_added,
        ai_lines_added: metrics.ai_lines_added,
        human_commit_count: metrics.human_commit_count,
        ai_commit_count: metrics.ai_commit_count,
        ratio_ppm: ratio,
        target_ppm: config.weekly_ratio_target_ppm,
        gate_passed,
        mode_after_evaluation: state.mode,
        notes: Vec::new(),
    }
}

/// Where a gate verdict takes the mode: a pause freezes it; a failure
/// forces Drive with a gate reason; a pass reverts only a gate-forced
/// Drive; a manual Drive is never touched.
pub open spec fn gate_transition(
    mode: Mode,
    reason: Option<DriveReason>,
    passed: bool,
    paused: bool,
) -> (Mode, Option<DriveReason>) {
    if paused {
        (mode, reason)
    } else if passed {
        if mode == Mode::Drive && reason == Some(DriveReason::Gate) {
            (Mode::Normal, None)
        } else {
            (mode, reason)
        }
    } else {
        (Mode::Drive, Some(DriveReason::Gate))
    }
}

/// `new` is `old` with one more note, whose text is `s`.
pub open spec fn notes_pushed(old_notes: Seq<String>, new_notes: Seq<String>, s: Seq<char>) -> bool {
    &&& new_notes.len() == old_notes.len() + 1
    &&& new_notes.take(old_notes.len() as int) == old_notes
    &&& new_notes.last()@ == s
}

/// Applies a report's verdict to the mode, and records on the report the
/// mode left in force and why the evaluation was bypassed or forced.
pub fn apply_gate(state: &mut State, report: &mut WeeklyReport, pause_active: bool)
    ensures
        ({
            let (m2, r2) = gate_transition(
                old(state).mode,
                old(state).drive_reason,
                old(report).gate_passed,
                pause_active,
            );
            &&& final(state).mode == m2
            &&& final(state).drive_reason == r2
        }),
        final(state).pause_until == old(state).pause_until,
        final(state).attribution_overrides == old(state).attribution_overrides,
        final(state).active_drive_session == old(state).active_drive_session,
        final(state).updated_at == old(state).updated_at,
        final(report).mode_after_evaluation == final(state).mode,
        pause_active ==> notes_pushed(
            old(report).notes@,
            final(report).notes@,
            "gate evaluation bypassed due to active pause"@,
        ),
        !pause_active && !old(report).gate_passed ==> notes_pushed(
            old(report).notes@,
            final(report).notes@,
            "ratio below target, forced drive mode"@,
        ),
        !pause_active && old(report).gate_passed ==> final(report).notes == old(report).notes,
        final(report).gate_passed == old(report).gate_passed,
        final(report).ratio_ppm == old(report).ratio_ppm,
        final(report).target_ppm == old(report).target_ppm,
        final(report).human_lines_added == old(report).human_lines_added,
        final(report).ai_lines_added == old(report).ai_lines_added,
        final(report).human_commit_count == old(report).human_commit_count,
        final(report).ai_commit_count == old(report).ai_commit_count,
        final(report).year == old(report).year,
        final(report).iso_week == old(report).iso_week,
        final(report).generated_at == old(report).generated_at,
        final(report).log_schema_version == old(report).log_schema_version,
{
    if pause_active {
        report.notes.push("gate evaluation bypassed due to active pause".to_owned());
        report.mode_after_evaluation = state.mode;
        proof {
            assert(report.notes@.take(report.notes@.len() - 1) =~= old(report).notes@);
        }
        return ;
    }
    if report.gate_passed {
        let clear = state.mode == Mode::Drive && matches!(state.drive_reason, Some(
            DriveReason::Gate,
        ));
        if clear {
            state.mode = Mode::Normal;
            state.drive_reason = None;
        }
    } else {
        state.mode = Mode::Drive;
        state.drive_reason = Some(DriveReason::Gate);
        report.notes.push("ratio below target, forced drive mode".to_owned());
        proof {
            assert(report.notes@.take(report.notes@.len() - 1) =~= old(report).notes@);
        }
    }
    report.mode_after_evaluation = state.mode;
}

/// A gate-forced Drive mode survives every evaluation but a passing one
/// while no pause is active, and only a passing evaluation returns the
/// mode to Normal.
pub proof fn lemma_gate_drive_cleared_only_by_pass(passed: bool, paused: bool)
    ensures
        ({
            let (m2, r2) = gate_transition(Mode::Drive, Some(DriveReason::Gate), passed, paused);
            &&& (m2 == Mode::Normal <==> (passed && !paused))
            &&& (!(passed && !paused) ==> m2 == Mode::Drive && r2 == Some(DriveReason::Gate))
        }),
{
}

/// The UTC bounds of an ISO week: its Monday 00:00:00 inclusive, and the
/// instant seven days later, exclusive.
pub fn week_bounds(year: i32, week: u32) -> (r: Option<(i64, i64)>)
    ensures
        match r {
            Some(b) => iso_week_monday(year, week) == Some(b.0) && b.1 == b.0 + 604800,
            None => iso_week_monday(year, week) is None || (iso_week_monday(year, week) matches Some(
                s,
            ) && s > i64::MAX - 604800),
        },
{
    match iso_week_monday_unix(year, week) {
        Some(start) => {
            if start <= i64::MAX - 604800 {
                Some((start, start + 604800))
            } else {
                None
            }
        },
        None => None,
    }
}

} // verus!
