//! The first prompt format: a cleaned diff and one message per request.
use vstd::prelude::*;

use crate::git::diff::{extract_ticket_id, spec_ticket};
use crate::text::{join, 
    append_chars, append_str, chars_of, lines, lines_of, starts_with, starts_with_str, string_of,
    string_views, trim, trim_chars,
};
use crate::types::{commit_type_name, CommitType};

verus! {

/// Diff header lines that carry no change.
pub open spec fn is_diff_metadata(line: Seq<char>) -> bool {
    ||| starts_with(line, "diff --git"@)
    ||| starts_with(line, "index "@)
    ||| starts_with(line, "--- "@)
    ||| starts_with(line, "+++ "@)
}

pub open spec fn drop_metadata(ls: Seq<Seq<char>>) -> Seq<Seq<char>>
    decreases ls.len(),
{
    if ls.len() == 0 {
        seq![]
    } else if is_diff_metadata(ls.last()) {
        drop_metadata(ls.drop_last())
    } else {
        drop_metadata(ls.drop_last()).push(ls.last())
    }
}

/// A diff without its header lines, trimmed.
pub open spec fn spec_clean_diff(diff: Seq<char>) -> Seq<char> {
    trim(join(drop_metadata(lines(diff)), "\n"@))
}

/// Removes the `diff --git`, `index`, `---` and `+++` lines from a diff and
/// trims what is left.
pub fn clean_diff(diff: &str) -> (r: String)
    ensures
        r@ == spec_clean_diff(diff@),
{
    let d = chars_of(diff);
    let ls = lines_of(&d);
    let ghost lv = lines(diff@);
    let mut out: Vec<char> = Vec::new();
    let mut count: usize = 0;
    let mut i: usize = 0;
    while i < ls.len()
        invariant
            0 <= i <= ls@.len(),
            ls@.len() == lv.len(),
            forall|k: int| 0 <= k < ls@.len() ==> #[trigger] ls@[k]@ == lv[k],
            count == drop_metadata(lv.take(i as int)).len(),
            count <= i,
            out@ == join(drop_metadata(lv.take(i as int)), "\n"@),
        decreases ls@.len() - i,
    {
        let line = &ls[i];
        assert(lv.take(i + 1).drop_last() =~= lv.take(i as int));
        assert(lv.take(i + 1).last() == lv[i as int]);
        let meta = starts_with_str(line, "diff --git") || starts_with_str(line, "index ")
            || starts_with_str(line, "--- ") || starts_with_str(line, "+++ ");
        if !meta {
            let ghost prev = drop_metadata(lv.take(i as int));
            if count > 0 {
                append_str(&mut out, "\n");
            }
            append_chars(&mut out, line);
            proof {
                let now = prev.push(line@);
                assert(now.drop_last() =~= prev);
                if count == 0 {
                    assert(out@ =~= join(now, "\n"@));
                } else {
                    assert(out@ =~= join(now, "\n"@));
                }
            }
            count += 1;
        }
        i += 1;
    }
    assert(lv.take(ls@.len() as int) =~= lv);
    let t = trim_chars(&out);
    string_of(&t)
}

pub open spec fn legacy_type_text(commit_type: Option<CommitType>) -> Seq<char> {
    match commit_type {
        Some(t) => "Use type: "@ + commit_type_name(t) + "."@,
        None => "Determine the best conventional commit type."@,
    }
}

pub open spec fn legacy_files_text(files: Seq<Seq<char>>) -> Seq<char> {
    if files.len() == 0 {
        seq![]
    } else {
        "\n\nChanged files: "@ + join(files, ", "@)
    }
}

pub open spec fn legacy_ticket_text(branch: Seq<char>) -> Seq<char> {
    if branch.len() == 0 {
        seq![]
    } else {
        match spec_ticket(branch) {
            Some(t) => "\n\nIMPORTANT: The branch name contains ticket ID "@ + t
                + ". You MUST append ["@ + t + "] to the end of the commit summary line."@,
            None => seq![],
        }
    }
}

/// The single-message prompt.
pub open spec fn spec_legacy_prompt(
    diff: Seq<char>,
    commit_type: Option<CommitType>,
    files: Seq<Seq<char>>,
    branch: Seq<char>,
) -> Seq<char> {
    legacy_type_text(commit_type) + legacy_files_text(files) + legacy_ticket_text(branch)
        + "\n\nGit diff:\n"@ + diff
}

/// The prompt for one commit message: the type to use (or to pick), the
/// changed files, the ticket rule when the branch names a ticket, and the
/// diff.
pub fn generate_prompt(
    diff: &str,
    commit_type: Option<CommitType>,
    files: &[String],
    branch_name: &str,
) -> (r: String)
    ensures
        r@ == spec_legacy_prompt(diff@, commit_type, string_views(files@), branch_name@),
{
    let mut out: Vec<char> = Vec::new();
    match commit_type {
        Some(t) => {
            append_str(&mut out, "Use type: ");
            append_str(&mut out, t.as_str());
            append_str(&mut out, ".");
        },
        None => {
            append_str(&mut out, "Determine the best conventional commit type.");
        },
    }
    let ghost fs = string_views(files@);
    if files.len() > 0 {
        append_str(&mut out, "\n\nChanged files: ");
        let ghost start = out@;
        let mut i: usize = 0;
        while i < files.len()
            invariant
                0 <= i <= files@.len(),
                files@.len() > 0,
                fs == string_views(files@),
                out@ == start + join(fs.take(i as int), ", "@),
            decreases files@.len() - i,
        {
            assert(fs.take(i + 1).drop_last() =~= fs.take(i as int));
            assert(fs.take(i + 1).last() == files@[i as int]@);
            if i > 0 {
                append_str(&mut out, ", ");
            }
            append_str(&mut out, files[i].as_str());
            proof {
                if i == 0 {
                    assert(fs.take(1) =~= seq![files@[0]@]);
                }
            }
            assert(out@ =~= start + join(fs.take(i + 1), ", "@));
            i += 1;
        }
        assert(fs.take(files@.len() as int) =~= fs);
    }
    let branch = chars_of(branch_name);
    if branch.len() > 0 {
        match extract_ticket_id(&branch) {
            Some(t) => {
                append_str(&mut out, "\n\nIMPORTANT: The branch name contains ticket ID ");
                append_chars(&mut out, &t);
                append_str(&mut out, ". You MUST append [");
                append_chars(&mut out, &t);
                append_str(&mut out, "] to the end of the commit summary line.");
            },
            None => {},
        }
    }
    append_str(&mut out, "\n\nGit diff:\n");
    append_str(&mut out, diff);
    assert(out@ =~= spec_legacy_prompt(diff@, commit_type, fs, branch_name@));
    string_of(&out)
}

} // verus!
