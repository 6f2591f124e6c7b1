//! Turning the staged diff into the context that a model reads.
use vstd::prelude::*;

use crate::digest::{
    hashed_bytes, hex_lower, hex_lower_of, sha256, sha256_finish, sha256_start, sha256_update,
    Sha256State,
};
use crate::text::{join, 
    append_chars, append_str, byte_index_of, chars_of, contains, contains_str,
    copy_bytes, decimal, decimal_of, is_whitespace, leading_ws, lemma_utf8_len_concat,
    lemma_utf8_prefix_len, lossy_chars, lower, lower_chars, starts_with, starts_with_str,
    string_of, string_views, trailing_ws, trim, trim_chars, trim_start, utf8_len, utf8_len_capped,
    utf8_lossy, utf8_prefix, utf8_prefix_of,
};
use crate::types::{commit_type_name, CommitType};

verus! {

pub const MAX_PATCH_BYTES: usize = 10_000;
pub const MAX_SOURCE_LINE_BYTES: usize = 2_048;
pub const MAX_FILE_LIST_BYTES: usize = 2_000;
pub const MAX_EXCLUDED_CANDIDATES_BYTES: usize = 2_000;

// ---------------------------------------------------------------------------
// Ticket identifiers in branch names
// ---------------------------------------------------------------------------

pub open spec fn is_upper(c: char) -> bool {
    'A' <= c <= 'Z'
}

pub open spec fn is_digit(c: char) -> bool {
    '0' <= c <= '9'
}

/// Number of leading ASCII uppercase letters.
pub open spec fn upper_run(s: Seq<char>) -> nat
    decreases s.len(),
{
    if s.len() > 0 && is_upper(s[0]) {
        1 + upper_run(s.drop_first())
    } else {
        0
    }
}

/// Number of leading ASCII digits.
pub open spec fn digit_run(s: Seq<char>) -> nat
    decreases s.len(),
{
    if s.len() > 0 && is_digit(s[0]) {
        1 + digit_run(s.drop_first())
    } else {
        0
    }
}

/// A ticket identifier starts at `p`: uppercase letters, a `-`, and at
/// least one digit.
pub open spec fn ticket_at(s: Seq<char>, p: int) -> bool {
    let j = p + upper_run(s.skip(p));
    &&& 0 <= p < s.len()
    &&& is_upper(s[p])
    &&& j < s.len()
    &&& s[j] == '-'
    &&& digit_run(s.skip(j + 1)) > 0
}

/// The ticket identifier that starts at `p`: all of its letters and digits.
pub open spec fn ticket_from(s: Seq<char>, p: int) -> Seq<char> {
    let j = p + upper_run(s.skip(p));
    s.subrange(p, j + 1 + digit_run(s.skip(j + 1)))
}

pub open spec fn find_ticket(s: Seq<char>, p: int) -> Option<Seq<char>>
    decreases s.len() - p,
{
    if p < 0 || p >= s.len() {
        None
    } else if ticket_at(s, p) {
        Some(ticket_from(s, p))
    } else {
        find_ticket(s, p + 1)
    }
}

/// The first ticket identifier (such as `PROJ-123`) in a branch name.
pub open spec fn spec_ticket(branch: Seq<char>) -> Option<Seq<char>> {
    find_ticket(branch, 0)
}

proof fn lemma_run_step_upper(s: Seq<char>, i: int)
    requires
        0 <= i < s.len(),
    ensures
        upper_run(s.skip(i)) == if is_upper(s[i]) {
            1 + upper_run(s.skip(i + 1))
        } else {
            0
        },
{
    assert(s.skip(i)[0] == s[i]);
    assert(s.skip(i).drop_first() =~= s.skip(i + 1));
}

proof fn lemma_run_step_digit(s: Seq<char>, i: int)
    requires
        0 <= i < s.len(),
    ensures
        digit_run(s.skip(i)) == if is_digit(s[i]) {
            1 + digit_run(s.skip(i + 1))
        } else {
            0
        },
{
    assert(s.skip(i)[0] == s[i]);
    assert(s.skip(i).drop_first() =~= s.skip(i + 1));
}

proof fn lemma_run_empty(s: Seq<char>)
    ensures
        upper_run(s.skip(s.len() as int)) == 0,
        digit_run(s.skip(s.len() as int)) == 0,
{
    assert(s.skip(s.len() as int) =~= Seq::<char>::empty());
}

proof fn lemma_find_ticket(s: Seq<char>, start: int)
    requires
        0 <= start,
    ensures
        match find_ticket(s, start) {
            Some(t) => exists|p: int|
                start <= p < s.len() && ticket_at(s, p) && t == ticket_from(s, p) && forall|q: int|
                    start <= q < p ==> !ticket_at(s, q),
            None => forall|q: int| start <= q < s.len() ==> !ticket_at(s, q),
        },
    decreases s.len() - start,
{
    if start < s.len() && !ticket_at(s, start) {
        lemma_find_ticket(s, start + 1);
        match find_ticket(s, start + 1) {
            Some(t) => {
                let p = choose|p: int|
                    start + 1 <= p < s.len() && ticket_at(s, p) && t == ticket_from(s, p)
                        && forall|q: int| start + 1 <= q < p ==> !ticket_at(s, q);
                assert forall|q: int| start <= q < p implies !ticket_at(s, q) by {}
            },
            None => {},
        }
    }
}

/// The ticket is the leftmost match of uppercase letters, `-` and digits:
/// it starts where its run of uppercase letters starts and takes every digit
/// that follows the `-`; no match starts further left. Without a match there
/// is no ticket.
pub proof fn ticket_is_the_leftmost_match(branch: Seq<char>)
    ensures
        match spec_ticket(branch) {
            Some(t) => exists|p: int|
                #![trigger ticket_from(branch, p)]
                0 <= p < branch.len() && ticket_at(branch, p) && t == ticket_from(branch, p)
                    && (p == 0 || !is_upper(branch[p - 1])) && forall|q: int|
                    0 <= q < p ==> !ticket_at(branch, q),
            None => forall|q: int| 0 <= q < branch.len() ==> !ticket_at(branch, q),
        },
{
    lemma_find_ticket(branch, 0);
    match spec_ticket(branch) {
        Some(t) => {
            let p = choose|p: int|
                0 <= p < branch.len() && ticket_at(branch, p) && t == ticket_from(branch, p)
                    && forall|q: int| 0 <= q < p ==> !ticket_at(branch, q);
            if p > 0 && is_upper(branch[p - 1]) {
                lemma_run_step_upper(branch, p - 1);
                assert(ticket_at(branch, p - 1));
            }
            assert(ticket_from(branch, p) == t);
        },
        None => {},
    }
}

/// End of the uppercase run that starts at `i`.
fn upper_end(s: &[char], i: usize) -> (j: usize)
    requires
        i <= s@.len(),
    ensures
        j == i + upper_run(s@.skip(i as int)),
        j <= s@.len(),
{
    let mut j = i;
    while j < s.len() && 'A' <= s[j] && s[j] <= 'Z'
        invariant
            i <= j <= s@.len(),
            upper_run(s@.skip(i as int)) == (j - i) + upper_run(s@.skip(j as int)),
        decreases s@.len() - j,
    {
        proof {
            lemma_run_step_upper(s@, j as int);
        }
        j += 1;
    }
    proof {
        if j < s@.len() {
            lemma_run_step_upper(s@, j as int);
        } else {
            lemma_run_empty(s@);
        }
    }
    j
}

/// End of the digit run that starts at `i`.
fn digit_end(s: &[char], i: usize) -> (j: usize)
    requires
        i <= s@.len(),
    ensures
        j == i + digit_run(s@.skip(i as int)),
        j <= s@.len(),
{
    let mut j = i;
    while j < s.len() && '0' <= s[j] && s[j] <= '9'
        invariant
            i <= j <= s@.len(),
            digit_run(s@.skip(i as int)) == (j - i) + digit_run(s@.skip(j as int)),
        decreases s@.len() - j,
    {
        proof {
            lemma_run_step_digit(s@, j as int);
        }
        j += 1;
    }
    proof {
        if j < s@.len() {
            lemma_run_step_digit(s@, j as int);
        } else {
            lemma_run_empty(s@);
        }
    }
    j
}

/// The first ticket identifier in `branch_name`: a run of ASCII uppercase
/// letters, a `-`, and the digits that follow it.
pub fn extract_ticket_id(branch_name: &[char]) -> (r: Option<Vec<char>>)
    ensures
        r is None <==> spec_ticket(branch_name@) is None,
        r matches Some(v) ==> spec_ticket(branch_name@) == Some(v@),
{
    let s = branch_name;
    let mut p: usize = 0;
    while p < s.len()
        invariant
            0 <= p <= s@.len(),
            spec_ticket(s@) == find_ticket(s@, p as int),
            s@ == branch_name@,
        decreases s@.len() - p,
    {
        if 'A' <= s[p] && s[p] <= 'Z' {
            let j = upper_end(s, p);
            if j < s.len() && s[j] == '-' {
                let k = digit_end(s, j + 1);
                if k > j + 1 {
                    assert(ticket_at(s@, p as int));
                    let t = crate::text::copy_range(s, p, k);
                    assert(t@ == ticket_from(s@, p as int));
                    assert(find_ticket(s@, p as int) == Some(t@));
                    return Some(t);
                }
            }
        }
        p += 1;
    }
    None
}

// ---------------------------------------------------------------------------
// The prompt
// ---------------------------------------------------------------------------

/// How the guessed commit type is put to the model.
pub open spec fn type_hint(commit_type: Option<CommitType>) -> Seq<char> {
    match commit_type {
        Some(t) => "Likely commit type: "@ + commit_type_name(t)
            + ". Treat this as a hint and override it if the patch indicates a better type."@,
        None => "Determine the best conventional commit type from the patch."@,
    }
}

/// Appends files to `acc`, separated by `", "`, while the list stays within
/// `MAX_FILE_LIST_BYTES`; also counts the files listed.
pub open spec fn list_files(files: Seq<Seq<char>>, acc: Seq<char>, included: nat) -> (
    Seq<char>,
    nat,
)
    decreases files.len(),
{
    if files.len() == 0 {
        (acc, included)
    } else {
        let sep = if acc.len() == 0 {
            ""@
        } else {
            ", "@
        };
        if utf8_len(acc) + utf8_len(sep) + utf8_len(files[0]) > MAX_FILE_LIST_BYTES {
            (acc, included)
        } else {
            list_files(files.drop_first(), acc + sep + files[0], included + 1)
        }
    }
}

proof fn lemma_join_step(all: Seq<Seq<char>>, i: int)
    requires
        0 <= i < all.len(),
        forall|j: int| 0 <= j < all.len() ==> #[trigger] all[j].len() > 0,
    ensures
        join(all.take(i + 1), ", "@) == if i == 0 {
            all[0]
        } else {
            join(all.take(i), ", "@) + ", "@ + all[i]
        },
        join(all.take(i + 1), ", "@).len() > 0,
{
    assert(all.take(i + 1).drop_last() =~= all.take(i));
    if i == 0 {
        assert(all.take(1)[0] == all[0]);
    } else {
        assert(all.take(i + 1).last() == all[i]);
    }
}

proof fn lemma_join_len_grows(all: Seq<Seq<char>>, a: int, b: int)
    requires
        1 <= a <= b <= all.len(),
        forall|j: int| 0 <= j < all.len() ==> #[trigger] all[j].len() > 0,
    ensures
        utf8_len(join(all.take(a), ", "@)) <= utf8_len(join(all.take(b), ", "@)),
    decreases b - a,
{
    if a < b {
        lemma_join_len_grows(all, a, b - 1);
        lemma_join_step(all, b - 1);
        lemma_utf8_len_concat(join(all.take(b - 1), ", "@) + ", "@, all[b - 1]);
        lemma_utf8_len_concat(join(all.take(b - 1), ", "@), ", "@);
    }
}

proof fn lemma_list_files(all: Seq<Seq<char>>, i: int)
    requires
        0 <= i <= all.len(),
        forall|j: int| 0 <= j < all.len() ==> #[trigger] all[j].len() > 0,
        utf8_len(join(all.take(i), ", "@)) <= MAX_FILE_LIST_BYTES,
    ensures
        ({
            let (listed, k) = list_files(all.skip(i), join(all.take(i), ", "@), i as nat);
            &&& i <= k <= all.len()
            &&& listed == join(all.take(k as int), ", "@)
            &&& utf8_len(listed) <= MAX_FILE_LIST_BYTES
            &&& k < all.len() ==> utf8_len(join(all.take(k as int + 1), ", "@)) > MAX_FILE_LIST_BYTES
        }),
    decreases all.len() - i,
{
    reveal_strlit(", ");
    reveal_strlit("");
    if i < all.len() {
        let acc = join(all.take(i), ", "@);
        let rest = all.skip(i);
        assert(rest[0] == all[i]);
        assert(rest.drop_first() =~= all.skip(i + 1));
        lemma_join_step(all, i);
        if i > 0 {
            lemma_join_step(all, i - 1);
            lemma_utf8_len_concat(acc + ", "@, all[i]);
            lemma_utf8_len_concat(acc, ", "@);
            assert(acc + ", "@ + all[i] == join(all.take(i + 1), ", "@));
        } else {
            assert(all.take(0) =~= Seq::<Seq<char>>::empty());
            assert(acc.len() == 0);
            assert(acc + ""@ + all[0] =~= all[0]);
        }
        let sep = if acc.len() == 0 {
            ""@
        } else {
            ", "@
        };
        if utf8_len(acc) + utf8_len(sep) + utf8_len(rest[0]) <= MAX_FILE_LIST_BYTES {
            lemma_list_files(all, i + 1);
        }
    } else {
        assert(all.skip(i) =~= Seq::<Seq<char>>::empty());
    }
}

/// The file list keeps the longest run of leading files that fits in
/// `MAX_FILE_LIST_BYTES` (all of them when they all fit), joined by `, `.
pub proof fn file_list_keeps_the_longest_prefix_that_fits(files: Seq<Seq<char>>)
    requires
        forall|j: int| 0 <= j < files.len() ==> #[trigger] files[j].len() > 0,
    ensures
        ({
            let (listed, k) = list_files(files, seq![], 0);
            &&& k <= files.len()
            &&& listed == join(files.take(k as int), ", "@)
            &&& utf8_len(listed) <= MAX_FILE_LIST_BYTES
            &&& forall|m: int|
                k < m <= files.len() ==> utf8_len(join(files.take(m), ", "@)) > MAX_FILE_LIST_BYTES
        }),
{
    assert(files.take(0) =~= Seq::<Seq<char>>::empty());
    assert(files.skip(0) =~= files);
    assert(join(files.take(0), ", "@) =~= Seq::<char>::empty());
    lemma_list_files(files, 0);
    let (listed, k) = list_files(files, seq![], 0);
    assert forall|m: int| k < m <= files.len() implies utf8_len(join(files.take(m), ", "@))
        > MAX_FILE_LIST_BYTES by {
        lemma_join_len_grows(files, k as int + 1, m);
    }
}

/// The changed-files line lists the longest run of leading files that fits
/// in `MAX_FILE_LIST_BYTES` and then counts exactly the files it left out.
pub proof fn changed_files_line_counts_the_files_left_out(files: Seq<Seq<char>>)
    requires
        forall|j: int| 0 <= j < files.len() ==> #[trigger] files[j].len() > 0,
    ensures
        files.len() == 0 ==> changed_files_text(files) == "none"@,
        files.len() > 0 ==> exists|k: int|
            #![trigger files.take(k)]
            0 <= k <= files.len() && utf8_len(join(files.take(k), ", "@)) <= MAX_FILE_LIST_BYTES
                && (forall|m: int|
                k < m <= files.len() ==> utf8_len(join(files.take(m), ", "@))
                    > MAX_FILE_LIST_BYTES) && changed_files_text(files) == join(files.take(k), ", "@)
                + if k < files.len() {
                ", ... (+"@ + decimal((files.len() - k) as nat) + " more)"@
            } else {
                seq![]
            },
{
    if files.len() > 0 {
        file_list_keeps_the_longest_prefix_that_fits(files);
        let (listed, k) = list_files(files, seq![], 0);
        assert(files.take(k as int) == files.take(k as int));
        if k == files.len() {
            assert(listed + seq![] =~= listed);
        }
    }
}

/// The changed-files line: `none`, or the files that fit and a count of the
/// rest.
pub open spec fn changed_files_text(files: Seq<Seq<char>>) -> Seq<char> {
    if files.len() == 0 {
        "none"@
    } else {
        let (listed, included) = list_files(files, seq![], 0);
        let omitted = files.len() - included;
        if omitted > 0 {
            listed + ", ... (+"@ + decimal(omitted as nat) + " more)"@
        } else {
            listed
        }
    }
}

/// `s` with every line feed replaced by a space.
pub open spec fn one_line(s: Seq<char>) -> Seq<char> {
    s.map_values(|c: char| if c == '\n' { ' ' } else { c })
}

pub open spec fn room_left(acc: Seq<char>) -> int {
    if utf8_len(acc) >= MAX_EXCLUDED_CANDIDATES_BYTES {
        0
    } else {
        MAX_EXCLUDED_CANDIDATES_BYTES - utf8_len(acc)
    }
}

/// Appends each candidate as a bullet while room is left.
pub open spec fn list_excluded(candidates: Seq<Seq<char>>, acc: Seq<char>) -> Seq<char>
    decreases candidates.len(),
{
    if candidates.len() == 0 || room_left(acc) <= 3 {
        acc
    } else {
        list_excluded(
            candidates.drop_first(),
            acc + "\n- "@ + utf8_prefix(one_line(candidates[0]), room_left(acc) - 3),
        )
    }
}

pub open spec fn exclusions_header() -> Seq<char> {
    "\n\nGenerate new alternatives that are meaningfully different from these previous candidates:"@
}

/// The closing list of previous candidates (at most the last six), or
/// nothing when there are none.
pub open spec fn exclusions_text(candidates: Seq<Seq<char>>) -> Seq<char> {
    if candidates.len() == 0 {
        seq![]
    } else {
        let n = if candidates.len() < 6 {
            candidates.len() as int
        } else {
            6
        };
        list_excluded(candidates.skip(candidates.len() - n), exclusions_header())
    }
}

pub open spec fn ticket_text(branch: Seq<char>) -> Seq<char> {
    match spec_ticket(branch) {
        Some(t) => "\nTicket: append ["@ + t + "] to the end of every candidate's summary line."@,
        None => seq![],
    }
}

/// The user prompt for a generation request.
pub open spec fn spec_prompt(
    diff: Seq<char>,
    commit_type: Option<CommitType>,
    files: Seq<Seq<char>>,
    branch: Seq<char>,
    excluded: Seq<Seq<char>>,
) -> Seq<char> {
    type_hint(commit_type) + "\nChanged files: "@ + changed_files_text(files) + ticket_text(branch)
        + "\n\nGit diff:\n"@ + diff + exclusions_text(excluded)
}

proof fn lemma_concat3_len(a: Seq<char>, b: Seq<char>, c: Seq<char>)
    ensures
        utf8_len(a + b + c) == utf8_len(a) + utf8_len(b) + utf8_len(c),
{
    lemma_utf8_len_concat(a, b);
    lemma_utf8_len_concat(a + b, c);
}

fn format_changed_files(files: &[String]) -> (r: Vec<char>)
    ensures
        r@ == changed_files_text(string_views(files@)),
{
    let ghost fs = string_views(files@);
    if files.len() == 0 {
        return chars_of("none");
    }
    let mut formatted: Vec<char> = Vec::new();
    let mut flen: usize = 0;
    let mut included: usize = 0;
    let comma = chars_of(", ");
    let empty: Vec<char> = Vec::new();
    proof {
        reveal_strlit("");
    }
    assert(fs.skip(0) =~= fs);
    let mut stop = false;
    while !stop && included < files.len()
        invariant
            0 <= included <= files@.len(),
            fs == string_views(files@),
            flen == utf8_len(formatted@),
            flen <= MAX_FILE_LIST_BYTES,
            comma@ == ", "@,
            empty@ == ""@,
            list_files(fs, seq![], 0) == list_files(fs.skip(included as int), formatted@, included as nat),
            stop ==> list_files(fs.skip(included as int), formatted@, included as nat) == (formatted@, included as nat),
        decreases files@.len() - included + if stop { 0int } else { 1int },
    {
        let file = chars_of(files[included].as_str());
        let sep: &Vec<char> = if formatted.len() == 0 {
            &empty
        } else {
            &comma
        };
        let seplen = utf8_len_capped(sep, 2);
        let filelen = utf8_len_capped(&file, MAX_FILE_LIST_BYTES);
        assert(fs.skip(included as int)[0] == file@);
        assert(fs.skip(included as int).drop_first() =~= fs.skip(included + 1));
        proof {
            reveal_strlit(", ");
            reveal_strlit("");
            assert(utf8_len(", "@) == 2) by {
                reveal_with_fuel(utf8_len, 3);
            }
            assert(utf8_len(""@) == 0);
        }
        if flen + seplen + filelen > MAX_FILE_LIST_BYTES {
            stop = true;
        } else {
            proof {
                lemma_concat3_len(formatted@, sep@, file@);
            }
            append_chars(&mut formatted, sep);
            append_chars(&mut formatted, &file);
            flen = flen + seplen + filelen;
            included += 1;
        }
    }
    let ghost listed = list_files(fs, seq![], 0);
    assert(listed.0 == formatted@ && listed.1 == included) by {
        if included == files@.len() {
            assert(fs.skip(included as int) =~= Seq::<Seq<char>>::empty());
        }
    }
    let omitted = files.len() - included;
    if omitted > 0 {
        append_str(&mut formatted, ", ... (+");
        let digits = decimal_of(omitted as u64);
        append_chars(&mut formatted, &digits);
        append_str(&mut formatted, " more)");
    }
    formatted
}

fn one_line_of(s: &[char]) -> (r: Vec<char>)
    ensures
        r@ == one_line(s@),
{
    let mut r: Vec<char> = Vec::new();
    let mut i: usize = 0;
    while i < s.len()
        invariant
            0 <= i <= s@.len(),
            r@ == one_line(s@.take(i as int)),
        decreases s@.len() - i,
    {
        let c = s[i];
        r.push(if c == '\n' { ' ' } else { c });
        i += 1;
        assert(r@ =~= one_line(s@.take(i as int)));
    }
    assert(s@.take(s@.len() as int) =~= s@);
    r
}

fn format_excluded_candidates(candidates: &[String]) -> (r: Vec<char>)
    ensures
        r@ == exclusions_text(string_views(candidates@)),
{
    let ghost cs = string_views(candidates@);
    if candidates.len() == 0 {
        return Vec::new();
    }
    let mut formatted = chars_of(
        "\n\nGenerate new alternatives that are meaningfully different from these previous candidates:",
    );
    let mut flen = utf8_len_capped(&formatted, MAX_EXCLUDED_CANDIDATES_BYTES);
    let n: usize = if candidates.len() < 6 { candidates.len() } else { 6 };
    let first = candidates.len() - n;
    let mut i = first;
    let ghost tail = cs.skip(first as int);
    assert(cs.skip(first as int).skip(0) =~= tail);
    let mut stop = false;
    while !stop && i < candidates.len()
        invariant
            first <= i <= candidates@.len(),
            cs == string_views(candidates@),
            tail == cs.skip(first as int),
            utf8_len(formatted@) <= MAX_EXCLUDED_CANDIDATES_BYTES ==> flen == utf8_len(formatted@),
            utf8_len(formatted@) > MAX_EXCLUDED_CANDIDATES_BYTES ==> flen == MAX_EXCLUDED_CANDIDATES_BYTES + 1,
            list_excluded(tail, exclusions_header()) == list_excluded(cs.skip(i as int), formatted@),
            stop ==> list_excluded(cs.skip(i as int), formatted@) == formatted@,
        decreases candidates@.len() - i + if stop { 0int } else { 1int },
    {
        let available: usize = if flen >= MAX_EXCLUDED_CANDIDATES_BYTES { 0 } else { MAX_EXCLUDED_CANDIDATES_BYTES - flen };
        assert(available == room_left(formatted@));
        if available <= 3 {
            stop = true;
        } else {
            let cand = chars_of(candidates[i].as_str());
            assert(cs.skip(i as int)[0] == cand@);
            assert(cs.skip(i as int).drop_first() =~= cs.skip(i + 1));
            let flat = one_line_of(&cand);
            let piece = utf8_prefix_of(&flat, available - 3);
            let bullet = chars_of("\n- ");
            proof {
                lemma_utf8_prefix_len(flat@, available - 3);
                reveal_strlit("\n- ");
                assert(utf8_len("\n- "@) == 3) by {
                    reveal_with_fuel(utf8_len, 4);
                }
                lemma_concat3_len(formatted@, bullet@, piece@);
            }
            append_chars(&mut formatted, &bullet);
            append_chars(&mut formatted, &piece);
            flen = utf8_len_capped(&formatted, MAX_EXCLUDED_CANDIDATES_BYTES);
            i += 1;
        }
    }
    proof {
        if !stop {
            assert(cs.skip(i as int) =~= Seq::<Seq<char>>::empty());
        }
    }
    formatted
}

/// The user prompt for a generation request: the type hint, the changed
/// files, the ticket instruction (when the branch names one), the diff, and
/// last the previous candidates to avoid.
pub fn generate_prompt(
    diff: &str,
    commit_type: Option<CommitType>,
    files: &[String],
    branch_name: &str,
    excluded_candidates: &[String],
) -> (r: String)
    ensures
        r@ == spec_prompt(
            diff@,
            commit_type,
            string_views(files@),
            branch_name@,
            string_views(excluded_candidates@),
        ),
{
    let mut out: Vec<char> = Vec::new();
    match commit_type {
        Some(t) => {
            append_str(&mut out, "Likely commit type: ");
            append_str(&mut out, t.as_str());
            append_str(
                &mut out,
                ". Treat this as a hint and override it if the patch indicates a better type.",
            );
        },
        None => {
            append_str(&mut out, "Determine the best conventional commit type from the patch.");
        },
    }
    append_str(&mut out, "\nChanged files: ");
    let listed = format_changed_files(files);
    append_chars(&mut out, &listed);
    let branch = chars_of(branch_name);
    match extract_ticket_id(&branch) {
        Some(t) => {
            append_str(&mut out, "\nTicket: append [");
            append_chars(&mut out, &t);
            append_str(&mut out, "] to the end of every candidate's summary line.");
        },
        None => {},
    }
    append_str(&mut out, "\n\nGit diff:\n");
    append_str(&mut out, diff);
    let exclusions = format_excluded_candidates(excluded_candidates);
    append_chars(&mut out, &exclusions);
    proof {
        assert(out@ =~= spec_prompt(
            diff@,
            commit_type,
            string_views(files@),
            branch_name@,
            string_views(excluded_candidates@),
        ));
    }
    string_of(&out)
}

// ---------------------------------------------------------------------------
// Summarizing the staged patch
// ---------------------------------------------------------------------------

/// Sizes of the context that was built from a diff.
#[derive(Debug, Clone)]
pub struct DiffStats {
    pub raw_bytes: usize,
    pub included_bytes: usize,
    pub changed_files: usize,
    pub omitted_generated_files: usize,
    pub truncated: bool,
}

impl Default for DiffStats {
    fn default() -> (s: Self)
        ensures
            s.raw_bytes == 0 && s.included_bytes == 0 && s.changed_files == 0
                && s.omitted_generated_files == 0 && !s.truncated,
    {
        DiffStats {
            raw_bytes: 0,
            included_bytes: 0,
            changed_files: 0,
            omitted_generated_files: 0,
            truncated: false,
        }
    }
}

/// The patch text a model reads, a fingerprint of the whole diff, and sizes.
#[derive(Debug, Clone)]
pub struct DiffContext {
    pub patch: String,
    pub fingerprint: String,
    pub stats: DiffStats,
}

/// A line as the summarizer reads it: its first `MAX_SOURCE_LINE_BYTES`
/// bytes (the line feed included), and whether bytes were dropped.
pub open spec fn diff_lines(input: Seq<u8>) -> Seq<(Seq<u8>, bool)>
    decreases input.len(),
{
    if input.len() == 0 {
        seq![]
    } else {
        let n = byte_index_of(input, 10u8) as int;
        let len = if n < input.len() {
            n + 1
        } else {
            input.len() as int
        };
        let kept = if len <= MAX_SOURCE_LINE_BYTES {
            len
        } else {
            MAX_SOURCE_LINE_BYTES as int
        };
        seq![(input.take(kept), len > MAX_SOURCE_LINE_BYTES)] + diff_lines(input.skip(len))
    }
}

/// `s` without its trailing `\r` and `\n` characters.
pub open spec fn strip_line_end(s: Seq<char>) -> Seq<char>
    decreases s.len(),
{
    if s.len() > 0 && (s.last() == '\r' || s.last() == '\n') {
        strip_line_end(s.drop_last())
    } else {
        s
    }
}

/// A lock file, minified asset, or vendored, built, or generated path
/// (compared without ASCII case); a diff header naming one counts as well.
pub open spec fn is_generated(path: Seq<char>) -> bool {
    let l = lower(path);
    ||| contains(l, "cargo.lock"@)
    ||| contains(l, "package-lock.json"@)
    ||| contains(l, "pnpm-lock.yaml"@)
    ||| contains(l, "yarn.lock"@)
    ||| contains(l, "bun.lock"@)
    ||| contains(l, ".min.js"@)
    ||| contains(l, ".min.css"@)
    ||| contains(l, "/vendor/"@)
    ||| contains(l, "/dist/"@)
    ||| contains(l, "/generated/"@)
}

/// Header lines that repeat what the `diff --git` line says.
pub open spec fn is_redundant_metadata(line: Seq<char>) -> bool {
    starts_with(line, "index "@) || starts_with(line, "--- "@) || starts_with(line, "+++ "@)
}

pub open spec fn omitted_note() -> Seq<char> {
    "[patch omitted: generated, vendored, or lock file]"@
}

pub open spec fn fallback_patch() -> Seq<char> {
    "No textual patch was produced; infer the change from the staged file list."@
}

pub open spec fn sat_sub(a: int, b: int) -> int {
    if a >= b {
        a - b
    } else {
        0
    }
}

pub open spec fn min(a: int, b: int) -> int {
    if a <= b {
        a
    } else {
        b
    }
}

/// Bytes that a line may still take: the smaller of what is left of the
/// whole patch and what is left of the file's share.
pub open spec fn room(out: Seq<char>, file_budget: int) -> int {
    min(sat_sub(MAX_PATCH_BYTES as int, utf8_len(out) as int), file_budget)
}

/// `line` fits whole, with its separating line feed, into the room left.
pub open spec fn line_fits(out: Seq<char>, line: Seq<char>, file_budget: int) -> bool {
    (if out.len() > 0 {
        1int
    } else {
        0int
    }) + utf8_len(line) <= room(out, file_budget)
}

/// Appends as much of `line` as the room allows (after a line feed unless
/// the patch is empty); gives the new patch and the bytes added. Nothing is
/// added when no character of a non-empty line fits.
pub open spec fn append_line(out: Seq<char>, line: Seq<char>, file_budget: int) -> (Seq<char>, nat) {
    let avail = room(out, file_budget);
    let sep: int = if out.len() > 0 {
        1
    } else {
        0
    };
    if avail <= sep {
        (out, 0)
    } else {
        let content = utf8_prefix(line, avail - sep);
        if content.len() == 0 && line.len() > 0 {
            (out, 0)
        } else {
            (
                (if sep == 1 {
                    out.push('\n')
                } else {
                    out
                }) + content,
                (sep + utf8_len(content)) as nat,
            )
        }
    }
}

/// The summarizer's state between lines.
pub struct DiffScan {
    pub patch: Seq<char>,
    pub file_bytes: nat,
    pub omitted: nat,
    pub truncated: bool,
    pub skip_file: bool,
    pub remaining_files: nat,
    pub file_budget: nat,
}

/// One line of the diff. A `diff --git` header starts a file: a generated
/// file gets a small budget and a note in place of its patch; any other
/// file gets an even share of what is left of the patch budget. Metadata
/// lines and the lines of generated files are dropped; every other line is
/// kept as far as the file's budget and the patch budget allow.
pub open spec fn scan_line(st: DiffScan, line: Seq<char>, line_truncated: bool) -> DiffScan {
    let truncated = st.truncated || line_truncated;
    if starts_with(line, "diff --git "@) {
        let skip = is_generated(line);
        let budget: nat = if skip {
            256
        } else {
            (sat_sub(MAX_PATCH_BYTES as int, utf8_len(st.patch) as int) / (st.remaining_files as int)) as nat
        };
        let remaining: nat = if skip {
            st.remaining_files
        } else if st.remaining_files > 1 {
            (st.remaining_files - 1) as nat
        } else {
            1
        };
        let omitted = if skip {
            st.omitted + 1
        } else {
            st.omitted
        };
        let truncated2 = truncated || !line_fits(st.patch, line, budget as int);
        let (p1, a1) = append_line(st.patch, line, budget as int);
        if skip {
            let (p2, a2) = append_line(p1, omitted_note(), sat_sub(budget as int, a1 as int));
            DiffScan {
                patch: p2,
                file_bytes: a1 + a2,
                omitted,
                truncated: truncated2,
                skip_file: true,
                remaining_files: remaining,
                file_budget: budget,
            }
        } else {
            DiffScan {
                patch: p1,
                file_bytes: a1,
                omitted,
                truncated: truncated2,
                skip_file: false,
                remaining_files: remaining,
                file_budget: budget,
            }
        }
    } else if st.skip_file || is_redundant_metadata(line) {
        DiffScan { truncated, ..st }
    } else {
        let avail = sat_sub(st.file_budget as int, st.file_bytes as int);
        let (p, a) = append_line(st.patch, line, avail);
        DiffScan {
            patch: p,
            file_bytes: st.file_bytes + a,
            truncated: truncated || !line_fits(st.patch, line, avail),
            ..st
        }
    }
}

/// The text of a raw line: decoded as `String::from_utf8_lossy` does, with
/// the line ending removed.
pub open spec fn line_text(raw: Seq<u8>) -> Seq<char> {
    strip_line_end(utf8_lossy(raw))
}

pub open spec fn scan_lines(lines: Seq<(Seq<u8>, bool)>, st: DiffScan) -> DiffScan
    decreases lines.len(),
{
    if lines.len() == 0 {
        st
    } else {
        scan_lines(lines.drop_first(), scan_line(st, line_text(lines[0].0), lines[0].1))
    }
}

pub open spec fn count_meaningful(files: Seq<Seq<char>>) -> nat
    decreases files.len(),
{
    if files.len() == 0 {
        0
    } else {
        count_meaningful(files.drop_last()) + if is_generated(files.last()) {
            0nat
        } else {
            1nat
        }
    }
}

pub open spec fn initial_scan(files: Seq<Seq<char>>) -> DiffScan {
    DiffScan {
        patch: seq![],
        file_bytes: 0,
        omitted: 0,
        truncated: false,
        skip_file: false,
        remaining_files: if count_meaningful(files) > 1 {
            count_meaningful(files)
        } else {
            1
        },
        file_budget: MAX_PATCH_BYTES as nat,
    }
}

/// The patch text of the summary of `input`.
pub open spec fn summary_patch(input: Seq<u8>, files: Seq<Seq<char>>) -> Seq<char> {
    let t = trim(scan_lines(diff_lines(input), initial_scan(files)).patch);
    if t.len() == 0 {
        fallback_patch()
    } else {
        t
    }
}

/// The first `MAX_SOURCE_LINE_BYTES` bytes of a line.
pub open spec fn kept_bytes(line: Seq<u8>) -> Seq<u8> {
    line.take(min(line.len() as int, MAX_SOURCE_LINE_BYTES as int))
}

/// What has been read of a diff: the completed lines, scanned, and the
/// line being read.
pub struct DiffReading {
    pub scan: DiffScan,
    pub line: Seq<u8>,
}

/// Reading one more byte; a line feed completes the line being read.
pub open spec fn read_byte(r: DiffReading, b: u8) -> DiffReading {
    let line = r.line.push(b);
    if b == 10 {
        DiffReading {
            scan: scan_line(r.scan, line_text(kept_bytes(line)), line.len() > MAX_SOURCE_LINE_BYTES),
            line: seq![],
        }
    } else {
        DiffReading { scan: r.scan, line }
    }
}

/// Reading `bytes`, in order.
pub open spec fn read_bytes(r: DiffReading, bytes: Seq<u8>) -> DiffReading
    decreases bytes.len(),
{
    if bytes.len() == 0 {
        r
    } else {
        read_bytes(read_byte(r, bytes[0]), bytes.drop_first())
    }
}

/// The end of the input completes the line being read, if any.
pub open spec fn finish_reading(r: DiffReading) -> DiffScan {
    if r.line.len() > 0 {
        scan_line(r.scan, line_text(kept_bytes(r.line)), r.line.len() > MAX_SOURCE_LINE_BYTES)
    } else {
        r.scan
    }
}

pub open spec fn initial_reading(files: Seq<Seq<char>>) -> DiffReading {
    DiffReading { scan: initial_scan(files), line: seq![] }
}

proof fn lemma_read_push(r: DiffReading, x: Seq<u8>, b: u8)
    ensures
        read_bytes(r, x.push(b)) == read_byte(read_bytes(r, x), b),
    decreases x.len(),
{
    if x.len() == 0 {
        assert(x.push(b).drop_first() =~= Seq::<u8>::empty());
        assert(x.push(b)[0] == b);
        assert(read_bytes(read_byte(r, b), Seq::<u8>::empty()) == read_byte(r, b));
        assert(read_bytes(r, x) == r);
    } else {
        assert(x.push(b).drop_first() =~= x.drop_first().push(b));
        assert(x.push(b)[0] == x[0]);
        lemma_read_push(read_byte(r, x[0]), x.drop_first(), b);
    }
}

proof fn lemma_index_after_line(l: Seq<u8>, x: Seq<u8>)
    requires
        forall|i: int| 0 <= i < l.len() ==> l[i] != 10u8,
    ensures
        byte_index_of(l + x, 10u8) == l.len() + byte_index_of(x, 10u8),
    decreases l.len(),
{
    if l.len() > 0 {
        assert((l + x)[0] == l[0]);
        assert((l + x).drop_first() =~= l.drop_first() + x);
        lemma_index_after_line(l.drop_first(), x);
    } else {
        assert(l + x =~= x);
    }
}

/// Reading a diff byte by byte, a line at a time, gives the same scan as
/// splitting it into lines first.
proof fn lemma_reading_matches_lines(scan: DiffScan, l: Seq<u8>, x: Seq<u8>)
    requires
        forall|i: int| 0 <= i < l.len() ==> l[i] != 10u8,
    ensures
        finish_reading(read_bytes(DiffReading { scan, line: l }, x)) == scan_lines(
            diff_lines(l + x),
            scan,
        ),
    decreases x.len(),
{
    lemma_index_after_line(l, x);
    if x.len() == 0 {
        assert(l + x =~= l);
        assert(read_bytes(DiffReading { scan, line: l }, x) == DiffReading { scan, line: l });
        if l.len() > 0 {
            assert(byte_index_of(x, 10u8) == 0);
            assert(l.skip(l.len() as int) =~= Seq::<u8>::empty());
            assert(l.take(min(l.len() as int, MAX_SOURCE_LINE_BYTES as int)) == kept_bytes(l));
            assert(diff_lines(l) == seq![(kept_bytes(l), l.len() > MAX_SOURCE_LINE_BYTES)]
                + diff_lines(Seq::<u8>::empty()));
            assert(diff_lines(l).drop_first() =~= diff_lines(Seq::<u8>::empty()));
            assert(diff_lines(Seq::<u8>::empty()) =~= Seq::<(Seq<u8>, bool)>::empty());
            let s2 = scan_line(scan, line_text(kept_bytes(l)), l.len() > MAX_SOURCE_LINE_BYTES);
            assert(scan_lines(Seq::<(Seq<u8>, bool)>::empty(), s2) == s2);
            assert(scan_lines(diff_lines(l), scan) == s2);
        } else {
            assert(diff_lines(l) =~= Seq::<(Seq<u8>, bool)>::empty());
            assert(scan_lines(diff_lines(l), scan) == scan);
        }
        assert(finish_reading(read_bytes(DiffReading { scan, line: l }, x)) == scan_lines(diff_lines(l + x), scan));
    } else {
        let b = x[0];
        let rest = x.drop_first();
        let line = l.push(b);
        assert(l + x =~= line + rest);
        if b == 10 {
            assert(byte_index_of(x, 10u8) == 0);
            let lx = l + x;
            let len = l.len() + 1;
            assert(lx.take(min(len as int, MAX_SOURCE_LINE_BYTES as int)) =~= kept_bytes(line));
            assert(lx.skip(len as int) =~= rest);
            assert(diff_lines(lx) == seq![(kept_bytes(line), line.len() > MAX_SOURCE_LINE_BYTES)]
                + diff_lines(rest));
            assert(diff_lines(lx).drop_first() =~= diff_lines(rest));
            assert(diff_lines(lx)[0] == (kept_bytes(line), line.len() > MAX_SOURCE_LINE_BYTES));
            lemma_reading_matches_lines(
                scan_line(scan, line_text(kept_bytes(line)), line.len() > MAX_SOURCE_LINE_BYTES),
                seq![],
                rest,
            );
            assert(Seq::<u8>::empty() + rest =~= rest);
            let scan2 = scan_line(scan, line_text(kept_bytes(line)), line.len() > MAX_SOURCE_LINE_BYTES);
            assert(read_byte(DiffReading { scan, line: l }, b) == DiffReading { scan: scan2, line: seq![] });
            assert(read_bytes(DiffReading { scan, line: l }, x) == read_bytes(
                DiffReading { scan: scan2, line: seq![] },
                rest,
            ));
            assert(scan_lines(diff_lines(lx), scan) == scan_lines(diff_lines(rest), scan2));
            assert(finish_reading(read_bytes(DiffReading { scan, line: l }, x)) == scan_lines(diff_lines(l + x), scan));
        } else {
            assert forall|i: int| 0 <= i < line.len() implies line[i] != 10u8 by {
                if i < l.len() {
                    assert(line[i] == l[i]);
                }
            }
            lemma_reading_matches_lines(scan, line, rest);
            assert(read_byte(DiffReading { scan, line: l }, b) == DiffReading { scan, line });
            assert(read_bytes(DiffReading { scan, line: l }, x) == read_bytes(
                DiffReading { scan, line },
                rest,
            ));
            assert(finish_reading(read_bytes(DiffReading { scan, line: l }, x)) == scan_lines(diff_lines(l + x), scan));
        }
    }
}

/// Reading the whole input gives the scan of its lines.
pub proof fn lemma_read_whole_input(files: Seq<Seq<char>>, input: Seq<u8>)
    ensures
        finish_reading(read_bytes(initial_reading(files), input)) == scan_lines(
            diff_lines(input),
            initial_scan(files),
        ),
{
    lemma_reading_matches_lines(initial_scan(files), seq![], input);
    assert(Seq::<u8>::empty() + input =~= input);
}

fn is_generated_path(path: &[char]) -> (r: bool)
    ensures
        r == is_generated(path@),
{
    let l = lower_chars(path);
    contains_str(&l, "cargo.lock") || contains_str(&l, "package-lock.json") || contains_str(
        &l,
        "pnpm-lock.yaml",
    ) || contains_str(&l, "yarn.lock") || contains_str(&l, "bun.lock") || contains_str(
        &l,
        ".min.js",
    ) || contains_str(&l, ".min.css") || contains_str(&l, "/vendor/") || contains_str(
        &l,
        "/dist/",
    ) || contains_str(&l, "/generated/")
}

fn is_redundant_metadata_line(line: &[char]) -> (r: bool)
    ensures
        r == is_redundant_metadata(line@),
{
    starts_with_str(line, "index ") || starts_with_str(line, "--- ") || starts_with_str(
        line,
        "+++ ",
    )
}

fn strip_line_end_of(s: &[char]) -> (r: Vec<char>)
    ensures
        r@ == strip_line_end(s@),
{
    let mut end = s.len();
    assert(s@.take(s@.len() as int) =~= s@);
    while end > 0 && (s[end - 1] == '\r' || s[end - 1] == '\n')
        invariant
            end <= s@.len(),
            strip_line_end(s@) == strip_line_end(s@.take(end as int)),
        decreases end,
    {
        assert(s@.take(end as int).last() == s@[end - 1]);
        assert(s@.take(end as int).drop_last() =~= s@.take(end - 1));
        end -= 1;
    }
    proof {
        if end > 0 {
            assert(s@.take(end as int).last() == s@[end - 1]);
        }
        assert(s@.take(end as int) =~= s@.subrange(0, end as int));
    }
    crate::text::copy_range(s, 0, end)
}

proof fn lemma_append_len(out: Seq<char>, sep: bool, content: Seq<char>)
    ensures
        utf8_len((if sep { out.push('\n') } else { out }) + content) == utf8_len(out) + (if sep {
            1int
        } else {
            0int
        }) + utf8_len(content),
{
    if sep {
        assert(out.push('\n') =~= out + seq!['\n']);
        lemma_utf8_len_concat(out, seq!['\n']);
        crate::text::lemma_utf8_len_single('\n');
        lemma_utf8_len_concat(out.push('\n'), content);
    } else {
        lemma_utf8_len_concat(out, content);
    }
}

/// Appending a line adds exactly the bytes it reports, never more than the
/// room left (nor more than the file's budget), and a line that fits is
/// appended whole after its separating line feed.
pub proof fn appending_a_line(out: Seq<char>, line: Seq<char>, file_budget: int)
    ensures
        utf8_len(append_line(out, line, file_budget).0) == utf8_len(out) + append_line(
            out,
            line,
            file_budget,
        ).1,
        append_line(out, line, file_budget).1 <= sat_sub(room(out, file_budget), 0),
        append_line(out, line, file_budget).1 <= sat_sub(file_budget, 0),
        line_fits(out, line, file_budget) && line.len() > 0 ==> append_line(out, line, file_budget).0
            == (if out.len() > 0 {
            out.push('\n')
        } else {
            out
        }) + line,
{
    let avail = room(out, file_budget);
    let sep: int = if out.len() > 0 {
        1
    } else {
        0
    };
    crate::text::lemma_utf8_len_bounds(line);
    if avail > sep {
        lemma_utf8_prefix_len(line, avail - sep);
        lemma_append_len(out, sep == 1, utf8_prefix(line, avail - sep));
    }
}

/// A generated file cannot take over the patch: its header line and the
/// note in place of its patch add at most 256 bytes, and its other lines
/// add nothing.
pub proof fn generated_files_add_at_most_a_note(st: DiffScan, line: Seq<char>, line_truncated: bool)
    ensures
        starts_with(line, "diff --git "@) && is_generated(line) ==> utf8_len(
            scan_line(st, line, line_truncated).patch,
        ) <= utf8_len(st.patch) + 256,
        !starts_with(line, "diff --git "@) && st.skip_file ==> scan_line(
            st,
            line,
            line_truncated,
        ).patch == st.patch,
{
    if starts_with(line, "diff --git "@) && is_generated(line) {
        let (p1, a1) = append_line(st.patch, line, 256);
        appending_a_line(st.patch, line, 256);
        appending_a_line(p1, omitted_note(), sat_sub(256, a1 as int));
    }
}

/// The summary is never empty and is already trimmed.
pub proof fn summary_patch_is_trimmed_and_not_empty(input: Seq<u8>, files: Seq<Seq<char>>)
    ensures
        summary_patch(input, files).len() > 0,
        trim(summary_patch(input, files)) == summary_patch(input, files),
{
    let t = trim(scan_lines(diff_lines(input), initial_scan(files)).patch);
    crate::text::lemma_trim_idempotent(scan_lines(diff_lines(input), initial_scan(files)).patch);
    if t.len() == 0 {
        reveal_strlit("No textual patch was produced; infer the change from the staged file list.");
        let f = fallback_patch();
        assert(!is_whitespace(f[0]));
        assert(!is_whitespace(f.last()));
        crate::text::lemma_leading_ws(f);
        assert(leading_ws(f) == 0);
        assert(trailing_ws(f) == 0);
        assert(trim_start(f) =~= f);
        assert(trim(f) =~= f);
    }
}

/// Lines that are dropped leave the patch alone: a metadata line, or any
/// line of a generated file's section, changes nothing but the truncation
/// flag.
pub proof fn dropped_lines_leave_the_patch_unchanged(st: DiffScan, line: Seq<char>, line_truncated: bool)
    requires
        !starts_with(line, "diff --git "@),
        st.skip_file || is_redundant_metadata(line),
    ensures
        scan_line(st, line, line_truncated) == (DiffScan {
            truncated: st.truncated || line_truncated,
            ..st
        }),
{
}

/// A `diff --git` header of a file that is not generated.
pub open spec fn is_meaningful_header(line: Seq<char>) -> bool {
    starts_with(line, "diff --git "@) && !is_generated(line)
}

/// The number of lines of `lines` that start a file that is not generated.
pub open spec fn meaningful_headers(lines: Seq<(Seq<u8>, bool)>) -> nat
    decreases lines.len(),
{
    if lines.len() == 0 {
        0
    } else {
        meaningful_headers(lines.drop_last()) + if is_meaningful_header(
            line_text(lines.last().0),
        ) {
            1nat
        } else {
            0nat
        }
    }
}

proof fn lemma_scan_lines_push(lines: Seq<(Seq<u8>, bool)>, l: (Seq<u8>, bool), st: DiffScan)
    ensures
        scan_lines(lines.push(l), st) == scan_line(scan_lines(lines, st), line_text(l.0), l.1),
    decreases lines.len(),
{
    if lines.len() == 0 {
        assert(lines.push(l).drop_first() =~= Seq::<(Seq<u8>, bool)>::empty());
        assert(lines.push(l)[0] == l);
        let s1 = scan_line(st, line_text(l.0), l.1);
        assert(scan_lines(Seq::<(Seq<u8>, bool)>::empty(), s1) == s1);
        assert(scan_lines(lines, st) == st);
    } else {
        assert(lines.push(l).drop_first() =~= lines.drop_first().push(l));
        assert(lines.push(l)[0] == lines[0]);
        lemma_scan_lines_push(
            lines.drop_first(),
            l,
            scan_line(st, line_text(lines[0].0), lines[0].1),
        );
    }
}

proof fn lemma_files_left(files: Seq<Seq<char>>, lines: Seq<(Seq<u8>, bool)>)
    ensures
        scan_lines(lines, initial_scan(files)).remaining_files == if count_meaningful(files)
            > meaningful_headers(lines) + 1 {
            (count_meaningful(files) - meaningful_headers(lines)) as nat
        } else {
            1nat
        },
    decreases lines.len(),
{
    if lines.len() == 0 {
    } else {
        lemma_files_left(files, lines.drop_last());
        assert(lines.drop_last().push(lines.last()) =~= lines);
        lemma_scan_lines_push(lines.drop_last(), lines.last(), initial_scan(files));
    }
}

/// The patch budget is shared out fairly: the header of a file that is not
/// generated gets the budget still left divided by the number of such files
/// (from `files`) that have not started yet, itself included; so the last of
/// them gets all that is left, and a file's unused share goes to the files
/// after it. Generated files take nothing from the others' shares.
pub proof fn each_file_gets_its_share_of_what_is_left(
    files: Seq<Seq<char>>,
    before: Seq<(Seq<u8>, bool)>,
    header: (Seq<u8>, bool),
)
    requires
        is_meaningful_header(line_text(header.0)),
    ensures
        ({
            let st = scan_lines(before, initial_scan(files));
            let left = sat_sub(MAX_PATCH_BYTES as int, utf8_len(st.patch) as int);
            let not_started = count_meaningful(files) - meaningful_headers(before);
            let budget = scan_lines(before.push(header), initial_scan(files)).file_budget;
            &&& not_started > 1 ==> budget == left / not_started
            &&& not_started <= 1 ==> budget == left
        }),
{
    lemma_files_left(files, before);
    lemma_scan_lines_push(before, header, initial_scan(files));
}

/// Room left for a line, computed.
fn room_of(out_len: usize, file_budget: usize) -> (r: usize)
    requires
        out_len <= MAX_PATCH_BYTES,
    ensures
        r as int == min(sat_sub(MAX_PATCH_BYTES as int, out_len as int), file_budget as int),
        r <= MAX_PATCH_BYTES,
{
    let global = MAX_PATCH_BYTES - out_len;
    if global <= file_budget {
        global
    } else {
        file_budget
    }
}

fn line_fits_exec(out: &Vec<char>, out_len: usize, line: &[char], file_budget: usize) -> (r: bool)
    requires
        out_len == utf8_len(out@),
        out_len <= MAX_PATCH_BYTES,
    ensures
        r == line_fits(out@, line@, file_budget as int),
{
    let avail = room_of(out_len, file_budget);
    let sep: usize = if out.len() > 0 { 1 } else { 0 };
    let n = utf8_len_capped(line, MAX_PATCH_BYTES);
    sep + n <= avail
}

fn append_line_exec(out: &mut Vec<char>, out_len: &mut usize, line: &[char], file_budget: usize) -> (added: usize)
    requires
        *old(out_len) == utf8_len(old(out)@),
        *old(out_len) <= MAX_PATCH_BYTES,
    ensures
        (final(out)@, added as nat) == append_line(old(out)@, line@, file_budget as int),
        *final(out_len) == utf8_len(final(out)@),
        *final(out_len) <= MAX_PATCH_BYTES,
        added <= file_budget,
        *final(out_len) == *old(out_len) + added,
{
    let avail = room_of(*out_len, file_budget);
    let has_sep = out.len() > 0;
    let sep: usize = if has_sep { 1 } else { 0 };
    if avail <= sep {
        return 0;
    }
    let content = utf8_prefix_of(line, avail - sep);
    proof {
        lemma_utf8_prefix_len(line@, (avail - sep) as int);
    }
    if content.len() == 0 && line.len() > 0 {
        return 0;
    }
    let clen = utf8_len_capped(&content, MAX_PATCH_BYTES);
    proof {
        lemma_append_len(out@, has_sep, content@);
    }
    if has_sep {
        out.push('\n');
    }
    append_chars(out, &content);
    *out_len = *out_len + sep + clen;
    sep + clen
}

/// A staged diff being summarized while it is read, a chunk at a time: at
/// most one line (of at most `MAX_SOURCE_LINE_BYTES` kept bytes) and the
/// patch are held, never the whole diff.
pub struct DiffSummarizer {
    patch: Vec<char>,
    patch_len: usize,
    file_bytes: usize,
    omitted: usize,
    truncated: bool,
    skip_file: bool,
    remaining: usize,
    budget: usize,
    line: Vec<u8>,
    line_len: usize,
    raw_bytes: usize,
    changed_files: usize,
    hasher: Sha256State,
    read: Ghost<Seq<u8>>,
    files: Ghost<Seq<Seq<char>>>,
}

impl DiffSummarizer {
    /// The bytes read so far.
    pub closed spec fn spec_read(&self) -> Seq<u8> {
        self.read@
    }

    /// The staged paths the summary is for.
    pub closed spec fn spec_files(&self) -> Seq<Seq<char>> {
        self.files@
    }

    closed spec fn scan_view(&self) -> DiffScan {
        DiffScan {
            patch: self.patch@,
            file_bytes: self.file_bytes as nat,
            omitted: self.omitted as nat,
            truncated: self.truncated,
            skip_file: self.skip_file,
            remaining_files: self.remaining as nat,
            file_budget: self.budget as nat,
        }
    }

    closed spec fn scan_ok(&self) -> bool {
        &&& self.patch_len == utf8_len(self.patch@)
        &&& self.patch_len <= MAX_PATCH_BYTES
        &&& self.file_bytes <= self.budget
        &&& self.budget <= MAX_PATCH_BYTES
        &&& self.remaining >= 1
    }

    /// The state holds what reading `spec_read()` gives.
    pub closed spec fn wf(&self) -> bool {
        let r = read_bytes(initial_reading(self.files@), self.read@);
        &&& self.scan_ok()
        &&& r.scan == self.scan_view()
        &&& self.line@ == kept_bytes(r.line)
        &&& self.line_len == r.line.len()
        &&& self.raw_bytes == self.read@.len()
        &&& hashed_bytes(self.hasher) == self.read@
        &&& self.changed_files == self.files@.len()
        &&& self.omitted + self.line_len <= self.read@.len()
    }

    /// A summarizer for the staged `files` that has read nothing yet.
    pub fn new(files: &[String]) -> (r: Self)
        ensures
            r.wf(),
            r.spec_read() == Seq::<u8>::empty(),
            r.spec_files() == string_views(files@),
    {
        let ghost fs = string_views(files@);
        // Files that will compete for the patch budget.
        let mut meaningful: usize = 0;
        let mut k: usize = 0;
        while k < files.len()
            invariant
                0 <= k <= files@.len(),
                fs == string_views(files@),
                meaningful == count_meaningful(fs.take(k as int)),
                meaningful <= k,
            decreases files@.len() - k,
        {
            assert(fs.take(k + 1).drop_last() =~= fs.take(k as int));
            let name = chars_of(files[k].as_str());
            if !is_generated_path(&name) {
                meaningful += 1;
            }
            k += 1;
        }
        assert(fs.take(files@.len() as int) =~= fs);
        let r = DiffSummarizer {
            patch: Vec::new(),
            patch_len: 0,
            file_bytes: 0,
            omitted: 0,
            truncated: false,
            skip_file: false,
            remaining: if meaningful > 1 { meaningful } else { 1 },
            budget: MAX_PATCH_BYTES,
            line: Vec::new(),
            line_len: 0,
            raw_bytes: 0,
            changed_files: files.len(),
            hasher: sha256_start(),
            read: Ghost(Seq::empty()),
            files: Ghost(fs),
        };
        assert(read_bytes(initial_reading(fs), Seq::<u8>::empty()) == initial_reading(fs));
        assert(kept_bytes(Seq::<u8>::empty()) =~= r.line@);
        assert(r.scan_view() == initial_scan(fs));
        r
    }

    /// One line of the diff, as `scan_line` takes it.
    fn scan_step(&mut self, raw: &[u8], line_truncated: bool)
        requires
            old(self).scan_ok(),
            old(self).omitted < usize::MAX,
        ensures
            final(self).scan_ok(),
            final(self).scan_view() == scan_line(old(self).scan_view(), line_text(raw@), line_truncated),
            final(self).omitted <= old(self).omitted + 1,
            final(self).line == old(self).line,
            final(self).line_len == old(self).line_len,
            final(self).raw_bytes == old(self).raw_bytes,
            final(self).changed_files == old(self).changed_files,
            final(self).hasher == old(self).hasher,
            final(self).read == old(self).read,
            final(self).files == old(self).files,
    {
        let decoded = lossy_chars(raw);
        let line = strip_line_end_of(&decoded);
        let header = chars_of("diff --git ");
        let note = chars_of("[patch omitted: generated, vendored, or lock file]");
        proof {
            reveal_strlit("diff --git ");
            reveal_strlit("[patch omitted: generated, vendored, or lock file]");
        }
        self.truncated = self.truncated || line_truncated;
        if crate::text::starts_with_chars(&line, &header) {
            self.file_bytes = 0;
            self.skip_file = is_generated_path(&line);
            if self.skip_file {
                self.omitted = self.omitted + 1;
                self.budget = 256;
            } else {
                self.budget = (MAX_PATCH_BYTES - self.patch_len) / self.remaining;
                self.remaining = if self.remaining > 1 { self.remaining - 1 } else { 1 };
            }
            let fits = line_fits_exec(&self.patch, self.patch_len, &line, self.budget);
            if !fits {
                self.truncated = true;
            }
            let added = append_line_exec(&mut self.patch, &mut self.patch_len, &line, self.budget);
            self.file_bytes = added;
            if self.skip_file {
                let added2 = append_line_exec(
                    &mut self.patch,
                    &mut self.patch_len,
                    &note,
                    self.budget - self.file_bytes,
                );
                self.file_bytes = self.file_bytes + added2;
            }
        } else if self.skip_file || is_redundant_metadata_line(&line) {
        } else {
            let avail = self.budget - self.file_bytes;
            let fits = line_fits_exec(&self.patch, self.patch_len, &line, avail);
            let added = append_line_exec(&mut self.patch, &mut self.patch_len, &line, avail);
            self.file_bytes = self.file_bytes + added;
            if !fits {
                self.truncated = true;
            }
        }
    }

    /// Reads `chunk`, the next bytes of the diff.
    pub fn feed(&mut self, chunk: &[u8])
        requires
            old(self).wf(),
            old(self).spec_read().len() + chunk@.len() <= usize::MAX,
        ensures
            final(self).wf(),
            final(self).spec_read() == old(self).spec_read() + chunk@,
            final(self).spec_files() == old(self).spec_files(),
    {
        let ghost start = self.read@;
        sha256_update(&mut self.hasher, chunk);
        self.raw_bytes = self.raw_bytes + chunk.len();
        let mut i: usize = 0;
        while i < chunk.len()
            invariant
                0 <= i <= chunk@.len(),
                start.len() + chunk@.len() <= usize::MAX,
                self.read@ == start + chunk@.take(i as int),
                self.files@ == old(self).files@,
                self.scan_ok(),
                ({
                    let r = read_bytes(initial_reading(self.files@), self.read@);
                    &&& r.scan == self.scan_view()
                    &&& self.line@ == kept_bytes(r.line)
                    &&& self.line_len == r.line.len()
                }),
                self.raw_bytes == start.len() + chunk@.len(),
                hashed_bytes(self.hasher) == start + chunk@,
                self.changed_files == self.files@.len(),
                self.omitted + self.line_len <= self.read@.len(),
            decreases chunk@.len() - i,
        {
            let b = chunk[i];
            let ghost before = self.read@;
            proof {
                lemma_read_push(initial_reading(self.files@), before, b);
            }
            let ghost r0 = read_bytes(initial_reading(self.files@), before);
            if self.line.len() < MAX_SOURCE_LINE_BYTES {
                self.line.push(b);
            }
            self.line_len = self.line_len + 1;
            proof {
                assert(self.line@ =~= kept_bytes(r0.line.push(b)));
            }
            if b == 10u8 {
                let line_truncated = self.line_len > MAX_SOURCE_LINE_BYTES;
                let raw = copy_bytes(&self.line, 0, self.line.len());
                assert(raw@ =~= self.line@);
                self.scan_step(&raw, line_truncated);
                self.line = Vec::new();
                self.line_len = 0;
            }
            self.read = Ghost(before.push(b));
            i += 1;
            assert(self.read@ =~= start + chunk@.take(i as int));
        }
        assert(chunk@.take(chunk@.len() as int) =~= chunk@);
    }

    /// The summary of everything read: the last line is completed, the patch
    /// trimmed (or replaced by a note when it is empty), and the fingerprint
    /// taken of every byte read.
    pub fn finish(self) -> (r: DiffContext)
        requires
            self.wf(),
        ensures
            r.patch@ == summary_patch(self.spec_read(), self.spec_files()),
            r.fingerprint@ == hex_lower(sha256(self.spec_read())),
            r.fingerprint@.len() == 64,
            r.stats.raw_bytes == self.spec_read().len(),
            r.stats.included_bytes == utf8_len(r.patch@),
            r.stats.changed_files == self.spec_files().len(),
            r.stats.omitted_generated_files == scan_lines(
                diff_lines(self.spec_read()),
                initial_scan(self.spec_files()),
            ).omitted,
            r.stats.truncated == scan_lines(
                diff_lines(self.spec_read()),
                initial_scan(self.spec_files()),
            ).truncated,
            utf8_len(r.patch@) <= MAX_PATCH_BYTES,
    {
        let mut this = self;
        proof {
            lemma_read_whole_input(this.files@, this.read@);
        }
        if this.line_len > 0 {
            let line_truncated = this.line_len > MAX_SOURCE_LINE_BYTES;
            let raw = copy_bytes(&this.line, 0, this.line.len());
            assert(raw@ =~= this.line@);
            this.scan_step(&raw, line_truncated);
        }
        let trimmed = trim_chars(&this.patch);
        let final_patch = if trimmed.len() == 0 {
            chars_of("No textual patch was produced; infer the change from the staged file list.")
        } else {
            trimmed
        };
        proof {
            lemma_trim_len(this.patch@);
            reveal_strlit("No textual patch was produced; infer the change from the staged file list.");
            crate::text::lemma_utf8_len_bounds(fallback_patch());
        }
        let included = utf8_len_capped(&final_patch, MAX_PATCH_BYTES);
        let digest = sha256_finish(this.hasher);
        let fingerprint = hex_lower_of(&digest);
        DiffContext {
            patch: string_of(&final_patch),
            fingerprint: string_of(&fingerprint),
            stats: DiffStats {
                raw_bytes: this.raw_bytes,
                included_bytes: included,
                changed_files: this.changed_files,
                omitted_generated_files: this.omitted,
                truncated: this.truncated,
            },
        }
    }
}

/// Summarizes a staged diff into a patch of at most `MAX_PATCH_BYTES`
/// bytes. Each file of `files` that is not generated gets an even share of
/// the budget still left when its `diff --git` header comes; generated files
/// show only a note. Metadata lines are dropped, lines are read up to
/// `MAX_SOURCE_LINE_BYTES`, and the fingerprint is the SHA-256 digest of the
/// whole raw diff. `DiffSummarizer` gives the same summary for a diff read
/// in chunks.
pub fn summarize_diff(input: &[u8], files: &[String]) -> (r: DiffContext)
    ensures
        r.patch@ == summary_patch(input@, string_views(files@)),
        r.fingerprint@ == hex_lower(sha256(input@)),
        r.fingerprint@.len() == 64,
        r.stats.raw_bytes == input@.len(),
        r.stats.included_bytes == utf8_len(r.patch@),
        r.stats.changed_files == files@.len(),
        r.stats.omitted_generated_files == scan_lines(
            diff_lines(input@),
            initial_scan(string_views(files@)),
        ).omitted,
        r.stats.truncated == scan_lines(diff_lines(input@), initial_scan(string_views(files@))).truncated,
        utf8_len(r.patch@) <= MAX_PATCH_BYTES,
{
    let mut summarizer = DiffSummarizer::new(files);
    assert(input@.len() == input.len());
    summarizer.feed(input);
    assert(Seq::<u8>::empty() + input@ =~= input@);
    summarizer.finish()
}

proof fn lemma_subrange_len(s: Seq<char>, a: int, b: int)
    requires
        0 <= a <= b <= s.len(),
    ensures
        utf8_len(s.subrange(a, b)) <= utf8_len(s),
{
    assert(s =~= s.subrange(0, a) + s.subrange(a, b) + s.subrange(b, s.len() as int));
    lemma_concat3_len(s.subrange(0, a), s.subrange(a, b), s.subrange(b, s.len() as int));
}

proof fn lemma_trim_len(s: Seq<char>)
    ensures
        utf8_len(trim(s)) <= utf8_len(s),
{
    crate::text::lemma_leading_ws(s);
    let t = s.skip(crate::text::leading_ws(s) as int);
    crate::text::lemma_trailing_ws(t);
    assert(trim(s) =~= s.subrange(
        crate::text::leading_ws(s) as int,
        crate::text::leading_ws(s) + t.len() - crate::text::trailing_ws(t),
    ));
    lemma_subrange_len(
        s,
        crate::text::leading_ws(s) as int,
        crate::text::leading_ws(s) + t.len() - crate::text::trailing_ws(t),
    );
}

}
