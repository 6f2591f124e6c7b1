//! Reading the state of the Git repository.
use vstd::prelude::*;

use crate::text::{
    chars_eq, chars_of, copy_range, index_of, lemma_index_of, lossy_chars, split_bytes,
    split_bytes_of, splitn, splitn_of, starts_with, starts_with_chars, string_of, string_views,
    utf8_lossy,
};

pub mod diff;

verus! {

/// The current branch and the paths with staged changes.
#[derive(Debug, Clone)]
pub struct RepositoryState {
    pub branch_name: String,
    pub staged_files: Vec<String>,
}

/// The scan of `git status --porcelain=v2 --branch -z` output: the branch
/// name, the staged paths so far, and whether the next record is the source
/// path of a rename.
pub type StatusScan = (Seq<char>, Seq<Seq<char>>, bool);

/// A change record of `n` space-separated fields, whose second field is the
/// `XY` status: the path (the last field) is staged unless `X` is `.`.
pub open spec fn scan_change(st: StatusScan, rec: Seq<char>, n: nat) -> StatusScan {
    let fields = splitn(rec, n, ' ');
    if fields.len() != n {
        st
    } else if fields[1].len() > 0 && fields[1][0] == '.' {
        st
    } else {
        (st.0, st.1.push(fields[n - 1]), st.2)
    }
}

proof fn lemma_index_after_word(w: Seq<char>, rest: Seq<char>)
    requires
        forall|i: int| 0 <= i < w.len() ==> w[i] != ' ',
    ensures
        index_of(w + seq![' '] + rest, ' ') == w.len(),
{
    let s = w + seq![' '] + rest;
    lemma_index_of(s, ' ');
    let k = index_of(s, ' ') as int;
    assert(s[w.len() as int] == ' ');
    if k < w.len() {
        assert(s[k] == w[k]);
    }
}

/// Which changed entries are staged depends on the index status alone: a
/// change record `<kind> <X><Y> <rest>` of `n` fields lists its path (its
/// last field) exactly when `X` is not `.`, whatever the work-tree status `Y`.
pub proof fn index_status_alone_decides(
    st: StatusScan,
    kind: Seq<char>,
    x: char,
    y: char,
    rest: Seq<char>,
    n: nat,
)
    requires
        n >= 3,
        forall|i: int| 0 <= i < kind.len() ==> kind[i] != ' ',
        x != ' ',
        y != ' ',
    ensures
        ({
            let rec = kind + seq![' ', x, y, ' '] + rest;
            let others = splitn(rest, (n - 2) as nat, ' ');
            &&& others.len() == n - 2 && x != '.' ==> scan_change(st, rec, n) == (
                st.0,
                st.1.push(others.last()),
                st.2,
            )
            &&& (others.len() != n - 2 || x == '.') ==> scan_change(st, rec, n) == st
        }),
{
    let rec = kind + seq![' ', x, y, ' '] + rest;
    let tail = seq![x, y, ' '] + rest;
    assert(rec =~= kind + seq![' '] + tail);
    lemma_index_after_word(kind, tail);
    assert(rec.take(kind.len() as int) =~= kind);
    assert(rec.skip(kind.len() as int + 1) =~= tail);
    assert(tail =~= seq![x, y] + seq![' '] + rest);
    let xy = seq![x, y];
    assert forall|i: int| 0 <= i < xy.len() implies #[trigger] xy[i] != ' ' by {}
    lemma_index_after_word(xy, rest);
    assert(tail.take(2) =~= seq![x, y]);
    assert(tail.skip(3) =~= rest);
    let others = splitn(rest, (n - 2) as nat, ' ');
    assert(splitn(tail, (n - 1) as nat, ' ') == seq![seq![x, y]] + others);
    assert(splitn(rec, n, ' ') == seq![kind] + (seq![seq![x, y]] + others));
    let fields = splitn(rec, n, ' ');
    assert(fields[1] == seq![x, y]);
    if others.len() == n - 2 {
        assert(fields[n - 1] == others.last());
    }
}

/// One NUL-separated record.
pub open spec fn scan_record(st: StatusScan, raw: Seq<u8>) -> StatusScan {
    if raw.len() == 0 {
        st
    } else if st.2 {
        (st.0, st.1, false)
    } else {
        let rec = utf8_lossy(raw);
        if starts_with(rec, "# branch.head "@) {
            let branch = rec.skip("# branch.head "@.len() as int);
            if branch == "(detached)"@ {
                st
            } else {
                (branch, st.1, st.2)
            }
        } else if rec.len() == 0 {
            st
        } else if rec[0] == '1' {
            scan_change(st, rec, 9)
        } else if rec[0] == '2' {
            scan_change((st.0, st.1, true), rec, 10)
        } else if rec[0] == 'u' {
            scan_change(st, rec, 11)
        } else {
            st
        }
    }
}

pub open spec fn scan_records(records: Seq<Seq<u8>>) -> StatusScan
    decreases records.len(),
{
    if records.len() == 0 {
        (seq![], seq![], false)
    } else {
        scan_record(scan_records(records.drop_last()), records.last())
    }
}

/// The repository state that the porcelain status `output` describes.
pub open spec fn spec_repository_state(output: Seq<u8>) -> (Seq<char>, Seq<Seq<char>>) {
    let st = scan_records(split_bytes(output, 0));
    (st.0, st.1)
}

fn scan_change_exec(
    staged: &mut Vec<String>,
    rec: &[char],
    n: usize,
)
    requires
        n >= 2,
    ensures
        ({
            let st = scan_change((seq![], string_views(old(staged)@), false), rec@, n as nat);
            string_views(final(staged)@) == st.1
        }),
{
    let fields = splitn_of(rec, n, ' ');
    if fields.len() != n {
        return;
    }
    let status = &fields[1];
    if status.len() > 0 && status[0] == '.' {
        return;
    }
    let path = string_of(&fields[n - 1]);
    let ghost before = staged@;
    staged.push(path);
    assert(string_views(staged@) =~= string_views(before).push(fields@[n - 1]@));
}

/// Parses `git status --porcelain=v2 --branch -z --untracked-files=no`
/// output: the branch name from the `# branch.head` header (empty when HEAD
/// is detached), and the path of every changed, renamed, or unmerged entry
/// whose index status is not `.`. The source path that follows a rename
/// record is not read as a record.
pub fn parse_repository_state(output: &[u8]) -> (r: RepositoryState)
    ensures
        r.branch_name@ == spec_repository_state(output@).0,
        string_views(r.staged_files@) == spec_repository_state(output@).1,
{
    let records = split_bytes_of(output, 0);
    let ghost recs = split_bytes(output@, 0);
    let mut branch: Vec<char> = Vec::new();
    let mut staged: Vec<String> = Vec::new();
    let mut skip = false;
    let head = chars_of("# branch.head ");
    let detached = chars_of("(detached)");
    let mut i: usize = 0;
    while i < records.len()
        invariant
            0 <= i <= records@.len(),
            records@.len() == recs.len(),
            forall|k: int| 0 <= k < records@.len() ==> #[trigger] records@[k]@ == recs[k],
            head@ == "# branch.head "@,
            detached@ == "(detached)"@,
            scan_records(recs.take(i as int)) == (branch@, string_views(staged@), skip),
        decreases records@.len() - i,
    {
        assert(recs.take(i + 1).drop_last() =~= recs.take(i as int));
        assert(recs.take(i + 1).last() == recs[i as int]);
        let raw = &records[i];
        i += 1;
        if raw.len() == 0 {
            continue;
        }
        if skip {
            skip = false;
            continue;
        }
        let rec = lossy_chars(raw);
        if starts_with_chars(&rec, &head) {
            let rest = copy_range(&rec, head.len(), rec.len());
            assert(rest@ =~= rec@.skip("# branch.head "@.len() as int));
            if !chars_eq(&rest, &detached) {
                branch = rest;
            }
            continue;
        }
        if rec.len() == 0 {
            continue;
        }
        let kind = rec[0];
        if kind == '1' {
            scan_change_exec(&mut staged, &rec, 9);
        } else if kind == '2' {
            skip = true;
            scan_change_exec(&mut staged, &rec, 10);
        } else if kind == 'u' {
            scan_change_exec(&mut staged, &rec, 11);
        }
    }
    assert(recs.take(records@.len() as int) =~= recs);
    RepositoryState { branch_name: string_of(&branch), staged_files: staged }
}

/// The arguments of the `git` run that commits: `commit`, `-S` when the
/// commit is signed, `--no-verify` when hooks are bypassed, then `-m` and the
/// message.
pub open spec fn spec_commit_arguments(message: Seq<char>, signed: bool, bypass_hooks: bool) -> Seq<
    Seq<char>,
> {
    seq!["commit"@] + (if signed {
        seq!["-S"@]
    } else {
        seq![]
    }) + (if bypass_hooks {
        seq!["--no-verify"@]
    } else {
        seq![]
    }) + seq!["-m"@, message]
}

pub fn commit_arguments(message: &str, signed: bool, bypass_hooks: bool) -> (r: Vec<String>)
    ensures
        string_views(r@) == spec_commit_arguments(message@, signed, bypass_hooks),
{
    let mut args: Vec<String> = Vec::new();
    args.push(string_of(&chars_of("commit")));
    if signed {
        args.push(string_of(&chars_of("-S")));
    }
    if bypass_hooks {
        args.push(string_of(&chars_of("--no-verify")));
    }
    args.push(string_of(&chars_of("-m")));
    args.push(string_of(&chars_of(message)));
    assert(string_views(args@) =~= spec_commit_arguments(message@, signed, bypass_hooks));
    args
}

} // verus!
