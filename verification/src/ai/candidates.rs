//! Checking and cleaning the commit messages that a model proposes.
use vstd::prelude::*;

use crate::text::{
    chars_eq, chars_eq_str, chars_of, contains, contains_str, copy_range, ends_with, ends_with_str,
    find_chars, first_occurrence, index_of, index_of_from, lemma_index_of, lines, lines_of,
    starts_with, starts_with_str, string_of, string_views, trim, trim_chars,
};
use crate::types::{commit_type_name, CommitType, MessageStyle};

verus! {

/// Why no candidate could be offered.
#[derive(Debug, Clone, Copy, PartialEq, Eq, Structural)]
pub enum CandidateError {
    /// Every proposed message was empty, invalid, a repeat, or excluded.
    NoNewValidCandidate,
}

impl CandidateError {
    /// The text shown to the user for this error.
    pub fn message(&self) -> (s: &'static str)
        ensures
            s@ == "AI did not return a new valid Conventional Commit message"@,
    {
        "AI did not return a new valid Conventional Commit message"
    }
}

/// `char::is_control`: the Unicode general category `Cc`.
pub open spec fn is_control(c: char) -> bool {
    (c as u32) <= 0x1f || (0x7f <= (c as u32) && (c as u32) <= 0x9f)
}

/// Characters that reorder displayed text.
pub open spec fn is_bidi_control(c: char) -> bool {
    let u = c as u32;
    ||| u == 0x061c
    ||| u == 0x200e
    ||| u == 0x200f
    ||| 0x202a <= u <= 0x202e
    ||| 0x2066 <= u <= 0x2069
}

/// Characters that a commit message may not hold: control characters other
/// than the line feed, and bidirectional controls.
pub open spec fn is_unsafe_char(c: char) -> bool {
    (is_control(c) && c != '\n') || is_bidi_control(c)
}

pub fn is_control_char(c: char) -> (r: bool)
    ensures
        r == is_control(c),
{
    let u = c as u32;
    u <= 0x1f || (0x7f <= u && u <= 0x9f)
}

pub fn is_bidi_control_char(c: char) -> (r: bool)
    ensures
        r == is_bidi_control(c),
{
    let u = c as u32;
    u == 0x061c || u == 0x200e || u == 0x200f || (0x202a <= u && u <= 0x202e) || (0x2066 <= u
        && u <= 0x2069)
}

fn is_unsafe_character(c: char) -> (r: bool)
    ensures
        r == is_unsafe_char(c),
{
    (is_control_char(c) && c != '\n') || is_bidi_control_char(c)
}

pub open spec fn is_type_name(t: Seq<char>) -> bool {
    ||| t == "feat"@
    ||| t == "fix"@
    ||| t == "docs"@
    ||| t == "style"@
    ||| t == "refactor"@
    ||| t == "perf"@
    ||| t == "test"@
    ||| t == "build"@
    ||| t == "ci"@
    ||| t == "chore"@
    ||| t == "revert"@
}

/// The accepted types are exactly the names of the commit types.
pub proof fn accepted_types_are_the_commit_types(t: Seq<char>)
    ensures
        is_type_name(t) <==> exists|c: CommitType| #[trigger] commit_type_name(c) == t,
{
    if is_type_name(t) {
        if t == "feat"@ {
            assert(commit_type_name(CommitType::Feat) == t);
        } else if t == "fix"@ {
            assert(commit_type_name(CommitType::Fix) == t);
        } else if t == "docs"@ {
            assert(commit_type_name(CommitType::Docs) == t);
        } else if t == "style"@ {
            assert(commit_type_name(CommitType::Style) == t);
        } else if t == "refactor"@ {
            assert(commit_type_name(CommitType::Refactor) == t);
        } else if t == "perf"@ {
            assert(commit_type_name(CommitType::Perf) == t);
        } else if t == "test"@ {
            assert(commit_type_name(CommitType::Test) == t);
        } else if t == "build"@ {
            assert(commit_type_name(CommitType::Build) == t);
        } else if t == "ci"@ {
            assert(commit_type_name(CommitType::Ci) == t);
        } else if t == "chore"@ {
            assert(commit_type_name(CommitType::Chore) == t);
        } else {
            assert(commit_type_name(CommitType::Revert) == t);
        }
    }
}

/// Every commit type can head a summary: `<type>(<scope>)` with a
/// non-empty scope that has no `(` is a valid summary prefix.
pub proof fn every_commit_type_makes_a_valid_prefix(c: CommitType, scope: Seq<char>)
    requires
        scope.len() > 0,
        forall|i: int| 0 <= i < scope.len() ==> scope[i] != '(',
    ensures
        is_valid_prefix(commit_type_name(c) + "("@ + scope + ")"@),
{
    reveal_strlit("(");
    reveal_strlit(")");
    reveal_strlit("feat");
    reveal_strlit("fix");
    reveal_strlit("docs");
    reveal_strlit("style");
    reveal_strlit("refactor");
    reveal_strlit("perf");
    reveal_strlit("test");
    reveal_strlit("build");
    reveal_strlit("ci");
    reveal_strlit("chore");
    reveal_strlit("revert");
    let name = commit_type_name(c);
    let prefix = name + "("@ + scope + ")"@;
    assert forall|i: int| 0 <= i < name.len() implies name[i] != '(' by {}
    lemma_index_of(prefix, '(');
    let p = index_of(prefix, '(') as int;
    assert(prefix[name.len() as int] == '(');
    if p < name.len() {
        assert(prefix[p] == name[p]);
    }
    assert(p == name.len());
    assert(prefix.take(p) =~= name);
    assert(prefix.skip(prefix.len() - 1) =~= ")"@);
    accepted_types_are_the_commit_types(name);
}

/// The part of a summary before its first `": "`, when that part is
/// `type(scope)` with a known type and a non-empty scope.
pub open spec fn is_valid_prefix(prefix: Seq<char>) -> bool {
    let p = index_of(prefix, '(') as int;
    &&& p < prefix.len()
    &&& ends_with(prefix, ")"@)
    &&& p + 2 <= prefix.len()
    &&& is_type_name(prefix.take(p))
    &&& prefix.len() - 1 - (p + 1) > 0
}

/// A Conventional Commits summary line: at most 72 characters, no final
/// period, `type(scope): description` with a non-empty description.
pub open spec fn is_valid_summary(summary: Seq<char>) -> bool {
    &&& summary.len() <= 72
    &&& !ends_with(summary, "."@)
    &&& exists|sep: int|
        first_occurrence(summary, ": "@, sep) && is_valid_prefix(summary.take(sep)) && summary.len()
            > sep + 2
}

/// The first line of a message.
pub open spec fn first_line(s: Seq<char>) -> Seq<char> {
    if lines(s).len() == 0 {
        seq![]
    } else {
        lines(s)[0]
    }
}

pub open spec fn is_bullet(line: Seq<char>) -> bool {
    starts_with(line, "- "@) && line.len() > 2
}

/// The lines after the summary of a long message: one blank line, then
/// `- ` bullet points only.
pub open spec fn is_valid_body(body: Seq<char>) -> bool {
    &&& starts_with(body, "\n\n- "@)
    &&& forall|i: int| 0 <= i < lines(body.skip(2)).len() ==> is_bullet(#[trigger] lines(body.skip(2))[i])
}

/// A commit message that can be offered as is.
pub open spec fn is_valid_message(c: Seq<char>, style: MessageStyle) -> bool {
    &&& !contains(c, "```"@)
    &&& forall|i: int| 0 <= i < c.len() ==> !is_unsafe_char(#[trigger] c[i])
    &&& is_valid_summary(first_line(c))
    &&& match style {
        MessageStyle::Short => !c.contains('\n'),
        MessageStyle::Long => is_valid_body(c.skip(first_line(c).len() as int)),
    }
}

/// `s` with every `\r\n` replaced by `\n`.
pub open spec fn crlf_to_lf(s: Seq<char>) -> Seq<char>
    decreases s.len(),
{
    if s.len() == 0 {
        seq![]
    } else if s.len() >= 2 && s[0] == '\r' && s[1] == '\n' {
        seq!['\n'] + crlf_to_lf(s.skip(2))
    } else {
        seq![s[0]] + crlf_to_lf(s.drop_first())
    }
}

fn crlf_to_lf_of(s: &[char]) -> (r: Vec<char>)
    ensures
        r@ == crlf_to_lf(s@),
{
    let mut r: Vec<char> = Vec::new();
    let mut i: usize = 0;
    assert(s@.skip(0) =~= s@);
    while i < s.len()
        invariant
            0 <= i <= s@.len(),
            crlf_to_lf(s@) == r@ + crlf_to_lf(s@.skip(i as int)),
        decreases s@.len() - i,
    {
        let ghost rest = s@.skip(i as int);
        if i + 1 < s.len() && s[i] == '\r' && s[i + 1] == '\n' {
            assert(rest[0] == s@[i as int] && rest[1] == s@[i + 1]);
            assert(rest.skip(2) =~= s@.skip(i + 2));
            r.push('\n');
            i += 2;
        } else {
            assert(rest[0] == s@[i as int]);
            assert(rest.drop_first() =~= s@.skip(i + 1));
            proof {
                if rest.len() >= 2 {
                    assert(rest[1] == s@[i + 1]);
                }
            }
            r.push(s[i]);
            i += 1;
        }
        assert(crlf_to_lf(s@) =~= r@ + crlf_to_lf(s@.skip(i as int)));
    }
    assert(s@.skip(i as int) =~= Seq::<char>::empty());
    assert(crlf_to_lf(s@) =~= r@);
    r
}

fn is_type_name_exec(t: &[char]) -> (r: bool)
    ensures
        r == is_type_name(t@),
{
    chars_eq_str(t, "feat") || chars_eq_str(t, "fix") || chars_eq_str(t, "docs") || chars_eq_str(t, "style") || chars_eq_str(
        t,
        "refactor",
    ) || chars_eq_str(t, "perf") || chars_eq_str(t, "test") || chars_eq_str(t, "build") || chars_eq_str(t, "ci")
        || chars_eq_str(t, "chore") || chars_eq_str(t, "revert")
}

fn is_valid_prefix_exec(prefix: &[char]) -> (r: bool)
    ensures
        r == is_valid_prefix(prefix@),
{
    let p = index_of_from(prefix, '(', 0);
    assert(prefix@.skip(0) =~= prefix@);
    if p >= prefix.len() {
        return false;
    }
    if !ends_with_str(prefix, ")") || prefix.len() - p < 2 {
        return false;
    }
    let t = copy_range(prefix, 0, p);
    assert(t@ =~= prefix@.take(p as int));
    is_type_name_exec(&t) && prefix.len() - 1 - (p + 1) > 0
}

fn is_valid_summary_exec(summary: &[char]) -> (r: bool)
    ensures
        r == is_valid_summary(summary@),
{
    if summary.len() > 72 || ends_with_str(summary, ".") {
        return false;
    }
    let sep_pat = chars_of(": ");
    match find_chars(summary, &sep_pat) {
        None => {
            assert forall|sep: int| !first_occurrence(summary@, ": "@, sep) by {}
            false
        },
        Some(sep) => {
            let prefix = copy_range(summary, 0, sep);
            assert(prefix@ =~= summary@.take(sep as int));
            let ok = is_valid_prefix_exec(&prefix) && summary.len() > sep + 2;
            assert forall|s2: int| first_occurrence(summary@, ": "@, s2) implies s2 == sep by {
                if s2 < sep {
                } else if s2 > sep {
                }
            }
            ok
        },
    }
}

/// Whether `candidate` can be offered as a commit message in `style`.
pub fn is_valid_commit_message(candidate: &str, message_style: MessageStyle) -> (r: bool)
    ensures
        r == is_valid_message(candidate@, message_style),
{
    let c = chars_of(candidate);
    valid_message(&c, message_style)
}

fn valid_message(c: &[char], message_style: MessageStyle) -> (r: bool)
    ensures
        r == is_valid_message(c@, message_style),
{
    if contains_str(c, "```") {
        return false;
    }
    let mut i: usize = 0;
    while i < c.len()
        invariant
            0 <= i <= c@.len(),
            forall|j: int| 0 <= j < i ==> !is_unsafe_char(#[trigger] c@[j]),
        decreases c@.len() - i,
    {
        if is_unsafe_character(c[i]) {
            return false;
        }
        i += 1;
    }
    let all_lines = lines_of(c);
    let summary: Vec<char> = if all_lines.len() == 0 {
        Vec::new()
    } else {
        all_lines[0].clone()
    };
    assert(summary@ == first_line(c@));
    if !is_valid_summary_exec(&summary) {
        return false;
    }
    match message_style {
        MessageStyle::Short => {
            let nl = index_of_from(c, '\n', 0);
            proof {
                assert(c@.skip(0) =~= c@);
                crate::text::lemma_index_of(c@, '\n');
                if nl < c@.len() {
                    assert(c@.contains('\n'));
                } else {
                    assert forall|j: int| 0 <= j < c@.len() implies c@[j] != '\n' by {}
                }
            }
            nl >= c.len()
        },
        MessageStyle::Long => {
            proof {
                lemma_first_line_len(c@);
            }
            let body = copy_range(c, summary.len(), c.len());
            assert(body@ =~= c@.skip(summary@.len() as int));
            if !starts_with_str(&body, "\n\n- ") {
                return false;
            }
            proof {
                reveal_strlit("\n\n- ");
            }
            let rest = copy_range(&body, 2, body.len());
            assert(rest@ =~= body@.skip(2));
            let bullets = lines_of(&rest);
            let mut k: usize = 0;
            while k < bullets.len()
                invariant
                    0 <= k <= bullets@.len(),
                    bullets@.len() == lines(rest@).len(),
                    forall|j: int| 0 <= j < bullets@.len() ==> #[trigger] bullets@[j]@ == lines(
                        rest@,
                    )[j],
                    forall|j: int| 0 <= j < k ==> is_bullet(#[trigger] lines(rest@)[j]),
                    body@ == c@.skip(first_line(c@).len() as int),
                    rest@ == body@.skip(2),
                    message_style == MessageStyle::Long,
                decreases bullets@.len() - k,
            {
                let line = &bullets[k];
                if !(starts_with_str(line, "- ") && line.len() > 2) {
                    assert(!is_bullet(lines(body@.skip(2))[k as int]));
                    assert(!is_valid_body(body@));
                    return false;
                }
                k += 1;
            }
            true
        },
    }
}

proof fn lemma_first_line_len(s: Seq<char>)
    ensures
        first_line(s).len() <= s.len(),
{
    if s.len() > 0 {
        crate::text::lemma_index_of(s, '\n');
    }
}

/// One step of `normalize`: the cleaned candidate is kept when it is
/// non-empty, not excluded, not already kept, and valid.
pub open spec fn normalize_step(
    kept: Seq<Seq<char>>,
    candidate: Seq<char>,
    style: MessageStyle,
    excluded: Seq<Seq<char>>,
) -> Seq<Seq<char>> {
    let c = trim(crlf_to_lf(candidate));
    if c.len() == 0 || excluded.contains(c) || kept.contains(c) || !is_valid_message(c, style) {
        kept
    } else {
        kept.push(c)
    }
}

/// The candidates that `normalize` keeps, in the order they came.
pub open spec fn normalized(
    candidates: Seq<Seq<char>>,
    style: MessageStyle,
    excluded: Seq<Seq<char>>,
) -> Seq<Seq<char>>
    decreases candidates.len(),
{
    if candidates.len() == 0 {
        seq![]
    } else {
        normalize_step(
            normalized(candidates.drop_last(), style, excluded),
            candidates.last(),
            style,
            excluded,
        )
    }
}

fn contains_string(v: &[String], c: &[char]) -> (r: bool)
    ensures
        r == string_views(v@).contains(c@),
{
    let mut i: usize = 0;
    while i < v.len()
        invariant
            0 <= i <= v@.len(),
            forall|j: int| 0 <= j < i ==> v@[j]@ != c@,
        decreases v@.len() - i,
    {
        let s = chars_of(v[i].as_str());
        if chars_eq(&s, c) {
            assert(string_views(v@)[i as int] == c@);
            return true;
        }
        i += 1;
    }
    proof {
        if string_views(v@).contains(c@) {
            let j = choose|j: int| 0 <= j < string_views(v@).len() && string_views(v@)[j] == c@;
            assert(v@[j]@ == c@);
        }
    }
    false
}

/// Cleans the candidates a model proposed: line endings become `\n`,
/// whitespace is trimmed, and only non-empty, valid, new messages are kept,
/// once each and in order. It is an error when none is left.
pub fn normalize(
    candidates: Vec<String>,
    message_style: MessageStyle,
    excluded_candidates: &[String],
) -> (r: Result<Vec<String>, CandidateError>)
    ensures
        ({
            let kept = normalized(string_views(candidates@), message_style, string_views(excluded_candidates@));
            &&& kept.len() == 0 ==> r == Err::<Vec<String>, CandidateError>(CandidateError::NoNewValidCandidate)
            &&& kept.len() > 0 ==> (r matches Ok(v) && string_views(v@) == kept)
        }),
{
    let ghost cands = string_views(candidates@);
    let ghost excl = string_views(excluded_candidates@);
    let mut kept: Vec<String> = Vec::new();
    let mut i: usize = 0;
    while i < candidates.len()
        invariant
            0 <= i <= candidates@.len(),
            cands == string_views(candidates@),
            excl == string_views(excluded_candidates@),
            string_views(kept@) == normalized(cands.take(i as int), message_style, excl),
        decreases candidates@.len() - i,
    {
        assert(cands.take(i + 1).drop_last() =~= cands.take(i as int));
        assert(cands.take(i + 1).last() == candidates@[i as int]@);
        let raw = chars_of(candidates[i].as_str());
        let lf = crlf_to_lf_of(&raw);
        let c = trim_chars(&lf);
        let skip = c.len() == 0 || contains_string(excluded_candidates, &c) || contains_string(
            &kept,
            &c,
        ) || !valid_message(&c, message_style);
        if !skip {
            let s = string_of(&c);
            let ghost before = kept@;
            kept.push(s);
            assert(string_views(kept@) =~= string_views(before).push(c@));
        }
        i += 1;
    }
    assert(cands.take(candidates@.len() as int) =~= cands);
    if kept.len() == 0 {
        Err(CandidateError::NoNewValidCandidate)
    } else {
        Ok(kept)
    }
}

/// What `normalize` keeps is trimmed, valid, new, and free of repeats.
pub proof fn normalized_are_valid_new_and_distinct(
    candidates: Seq<Seq<char>>,
    style: MessageStyle,
    excluded: Seq<Seq<char>>,
)
    ensures
        ({
            let kept = normalized(candidates, style, excluded);
            &&& forall|i: int| 0 <= i < kept.len() ==> is_valid_message(#[trigger] kept[i], style)
            &&& forall|i: int| 0 <= i < kept.len() ==> !excluded.contains(#[trigger] kept[i])
            &&& forall|i: int| 0 <= i < kept.len() ==> #[trigger] kept[i].len() > 0
            &&& forall|i: int| 0 <= i < kept.len() ==> trim(#[trigger] kept[i]) == kept[i]
            &&& forall|i: int, j: int| 0 <= i < j < kept.len() ==> kept[i] != kept[j]
            &&& kept.len() <= candidates.len()
        }),
    decreases candidates.len(),
{
    if candidates.len() > 0 {
        normalized_are_valid_new_and_distinct(candidates.drop_last(), style, excluded);
        let prev = normalized(candidates.drop_last(), style, excluded);
        let kept = normalized(candidates, style, excluded);
        crate::text::lemma_trim_idempotent(crlf_to_lf(candidates.last()));
        assert forall|i: int, j: int| 0 <= i < j < kept.len() implies kept[i] != kept[j] by {
            if j == prev.len() {
                assert(prev.contains(prev[i]));
            }
        }
    }
}

} // verus!
