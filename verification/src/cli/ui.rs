//! What the terminal shows of a proposed message: text made safe to print,
//! wrapped to the terminal, and laid out in a box.
use vstd::prelude::*;

use crate::ai::candidates::{is_bidi_control, is_bidi_control_char, is_control, is_control_char};
use crate::text::{
    append_chars, append_str, chars_eq, chars_of, contains, copy_range, ends_with, ends_with_str,
    find_chars, first_occurrence, index_of, index_of_from, is_whitespace, is_whitespace_char,
    lines, lines_of, starts_with, starts_with_str, str_eq, string_of, string_views, trim,
    trim_chars,
};
use crate::types::ActionType;

verus! {

pub const MAX_PREVIEW_WIDTH: usize = 80;

pub const MIN_BOX_WIDTH: usize = 28;

pub const MIN_COMFORTABLE_BOX_WIDTH: usize = 48;

pub const BOX_HORIZONTAL_CHROME: usize = 4;

/// What `console::strip_ansi_codes` leaves of `s`.
pub uninterp spec fn ansi_stripped(s: Seq<char>) -> Seq<char>;

/// `console::strip_ansi_codes`: `s` without its ANSI escape sequences. The
/// contract names the result; which sequences are recognized is left to
/// that crate.
#[verifier::external_body]
fn strip_ansi(s: &str) -> (r: String)
    ensures
        r@ == ansi_stripped(s@),
{
    dialoguer::console::strip_ansi_codes(s).into_owned()
}

/// The number of terminal columns `console::measure_text_width` reports
/// for `s`.
pub uninterp spec fn display_width(s: Seq<char>) -> nat;

/// `console::measure_text_width`: the columns that `s` takes on a
/// terminal, ANSI sequences not counted. The contract names the result.
#[verifier::external_body]
fn measure_width(s: &str) -> (w: usize)
    ensures
        w == display_width(s@),
{
    dialoguer::console::measure_text_width(s)
}

/// The columns `s` takes on a terminal.
pub fn text_width(s: &str) -> (w: usize)
    ensures
        w == display_width(s@),
{
    measure_width(s)
}

fn width_of(s: &[char]) -> (w: usize)
    ensures
        w == display_width(s@),
{
    let t = string_of(s);
    measure_width(t.as_str())
}

// ---------------------------------------------------------------------------
// Sanitizing
// ---------------------------------------------------------------------------

/// What one character becomes on screen: line feeds stay, tabs become four
/// spaces, control and bidirectional characters are dropped.
pub open spec fn sanitize_char(c: char) -> Seq<char> {
    if c == '\n' {
        seq!['\n']
    } else if c == '\t' {
        seq![' ', ' ', ' ', ' ']
    } else if is_control(c) || is_bidi_control(c) {
        seq![]
    } else {
        seq![c]
    }
}

pub open spec fn sanitize_chars(s: Seq<char>) -> Seq<char>
    decreases s.len(),
{
    if s.len() == 0 {
        seq![]
    } else {
        sanitize_chars(s.drop_last()) + sanitize_char(s.last())
    }
}

/// `message` made safe to print: ANSI escape sequences removed, then every
/// character treated by `sanitize_char`.
pub open spec fn spec_sanitize(message: Seq<char>) -> Seq<char> {
    sanitize_chars(ansi_stripped(message))
}

proof fn lemma_sanitize_safe(s: Seq<char>)
    ensures
        forall|i: int| 0 <= i < sanitize_chars(s).len() ==> {
            let c = #[trigger] sanitize_chars(s)[i];
            &&& (is_control(c) ==> c == '\n')
            &&& !is_bidi_control(c)
        },
    decreases s.len(),
{
    if s.len() > 0 {
        lemma_sanitize_safe(s.drop_last());
        let a = sanitize_chars(s.drop_last());
        let b = sanitize_char(s.last());
        assert forall|i: int| 0 <= i < sanitize_chars(s).len() implies {
            let c = #[trigger] sanitize_chars(s)[i];
            &&& (is_control(c) ==> c == '\n')
            &&& !is_bidi_control(c)
        } by {
            if i >= a.len() {
                assert(sanitize_chars(s)[i] == b[i - a.len()]);
            } else {
                assert(sanitize_chars(s)[i] == a[i]);
            }
        }
    }
}

/// Text that is safe to print: without ANSI escape sequences, with tabs as
/// spaces, and without control characters (other than line feeds) or
/// bidirectional controls.
pub fn sanitize_terminal_text(message: &str) -> (r: String)
    ensures
        r@ == spec_sanitize(message@),
        forall|i: int| 0 <= i < r@.len() ==> {
            let c = #[trigger] r@[i];
            &&& (is_control(c) ==> c == '\n')
            &&& !is_bidi_control(c)
        },
{
    let stripped = strip_ansi(message);
    let s = chars_of(stripped.as_str());
    let mut out: Vec<char> = Vec::new();
    let mut i: usize = 0;
    while i < s.len()
        invariant
            0 <= i <= s@.len(),
            out@ == sanitize_chars(s@.take(i as int)),
        decreases s@.len() - i,
    {
        let c = s[i];
        let ghost before = out@;
        if c == '\n' {
            out.push('\n');
        } else if c == '\t' {
            append_str(&mut out, "    ");
            proof {
                reveal_strlit("    ");
            }
        } else if is_control_char(c) || is_bidi_control_char(c) {
        } else {
            out.push(c);
        }
        assert(s@.take(i + 1).drop_last() =~= s@.take(i as int));
        assert(out@ =~= before + sanitize_char(c));
        i += 1;
    }
    assert(s@.take(s@.len() as int) =~= s@);
    proof {
        lemma_sanitize_safe(s@);
    }
    string_of(&out)
}

/// The text of the application header: sanitized, on one line.
pub fn app_header_text(context: &str) -> (r: String)
    ensures
        r@ == spec_sanitize(context@).map_values(|c: char| if c == '\n' { ' ' } else { c }),
{
    let s = sanitize_terminal_text(context);
    let v = chars_of(s.as_str());
    let mut out: Vec<char> = Vec::new();
    let mut i: usize = 0;
    while i < v.len()
        invariant
            0 <= i <= v@.len(),
            out@ == v@.take(i as int).map_values(|c: char| if c == '\n' { ' ' } else { c }),
        decreases v@.len() - i,
    {
        let c = v[i];
        out.push(if c == '\n' { ' ' } else { c });
        i += 1;
        assert(out@ =~= v@.take(i as int).map_values(|c: char| if c == '\n' { ' ' } else { c }));
    }
    assert(v@.take(v@.len() as int) =~= v@);
    string_of(&out)
}

// ---------------------------------------------------------------------------
// Choices
// ---------------------------------------------------------------------------

/// The action behind the menu item the user picked: commit, edit, or try
/// another; anything else (including cancelling) quits.
pub fn action_for_selection(selection: Option<usize>) -> (a: ActionType)
    ensures
        a == match selection {
            Some(0) => ActionType::Accept,
            Some(1) => ActionType::Edit,
            Some(2) => ActionType::Regenerate,
            _ => ActionType::Quit,
        },
{
    match selection {
        Some(0) => ActionType::Accept,
        Some(1) => ActionType::Edit,
        Some(2) => ActionType::Regenerate,
        _ => ActionType::Quit,
    }
}

/// The key hint under the preview; a short one on narrow terminals.
pub fn navigation_hint(terminal_width: usize) -> (s: &'static str)
    ensures
        terminal_width < MIN_COMFORTABLE_BOX_WIDTH ==> s@ == "↑↓ move  ·  enter select"@,
        terminal_width >= MIN_COMFORTABLE_BOX_WIDTH ==> s@
            == "↑↓ navigate  ·  enter select  ·  esc cancel"@,
{
    if terminal_width < MIN_COMFORTABLE_BOX_WIDTH {
        "↑↓ move  ·  enter select"
    } else {
        "↑↓ navigate  ·  enter select  ·  esc cancel"
    }
}

/// The terminal width to lay out for; a terminal that reports no columns
/// counts as `MAX_PREVIEW_WIDTH` wide.
pub fn effective_width(columns: u16) -> (w: usize)
    ensures
        w == if columns == 0 {
            MAX_PREVIEW_WIDTH as int
        } else {
            columns as int
        },
{
    if columns == 0 {
        MAX_PREVIEW_WIDTH
    } else {
        columns as usize
    }
}

// ---------------------------------------------------------------------------
// Summary lines
// ---------------------------------------------------------------------------

/// A summary split for display: the type, the scope if the text before
/// `": "` has the form `type(scope)`, and the description.
pub struct SummaryParts {
    pub commit_type: String,
    pub scope: Option<String>,
    pub description: String,
}

/// The split of `summary` at its first `": "`, and of the part before it
/// at its first `(` when that part ends in `)`.
pub open spec fn spec_summary_parts(summary: Seq<char>, sep: int) -> (Seq<char>, Option<Seq<char>>, Seq<char>) {
    let prefix = summary.take(sep);
    let description = summary.skip(sep + 2);
    let p = index_of(prefix, '(') as int;
    if p < prefix.len() && ends_with(prefix.skip(p + 1), ")"@) {
        (prefix.take(p), Some(prefix.subrange(p + 1, prefix.len() - 1)), description)
    } else {
        (prefix, None, description)
    }
}

/// The summary rebuilt from its parts: the type, the scope in parentheses
/// when there is one, `": "`, and the description.
pub open spec fn rebuilt_summary(parts: (Seq<char>, Option<Seq<char>>, Seq<char>)) -> Seq<char> {
    parts.0 + match parts.1 {
        Some(scope) => "("@ + scope + ")"@,
        None => seq![],
    } + ": "@ + parts.2
}

/// Splitting a summary for display loses nothing: its parts rebuild it.
pub proof fn summary_parts_rebuild_the_line(summary: Seq<char>, sep: int)
    requires
        first_occurrence(summary, ": "@, sep),
    ensures
        rebuilt_summary(spec_summary_parts(summary, sep)) == summary,
{
    reveal_strlit(": ");
    reveal_strlit("(");
    reveal_strlit(")");
    let prefix = summary.take(sep);
    let description = summary.skip(sep + 2);
    assert(summary.subrange(sep, sep + 2) == ": "@);
    crate::text::lemma_index_of(prefix, '(');
    let p = index_of(prefix, '(') as int;
    if p < prefix.len() && ends_with(prefix.skip(p + 1), ")"@) {
        let rest = prefix.skip(p + 1);
        assert(rest.skip(rest.len() - 1) == ")"@);
        assert(rest.skip(rest.len() - 1)[0] == ')');
        assert(rest[rest.len() - 1] == ')');
        assert(prefix[prefix.len() - 1] == ')');
        assert(prefix =~= prefix.take(p) + "("@ + prefix.subrange(p + 1, prefix.len() - 1) + ")"@);
    }
    assert(summary =~= prefix + ": "@ + description);
    assert(rebuilt_summary(spec_summary_parts(summary, sep)) =~= summary);
}

/// Splits a summary line for display, or `None` when it has no `": "`.
pub fn summary_parts(summary: &str) -> (r: Option<SummaryParts>)
    ensures
        r is None ==> !contains(summary@, ": "@),
        r matches Some(parts) ==> exists|sep: int|
            #![trigger first_occurrence(summary@, ": "@, sep)]
            first_occurrence(summary@, ": "@, sep) && {
                let (t, sc, d) = spec_summary_parts(summary@, sep);
                &&& parts.commit_type@ == t
                &&& parts.description@ == d
                &&& match parts.scope {
                    Some(s) => sc == Some(s@),
                    None => sc is None,
                }
            },
{
    let s = chars_of(summary);
    let pat = chars_of(": ");
    let sep = match find_chars(&s, &pat) {
        Some(sep) => sep,
        None => return None,
    };
    proof {
        reveal_strlit(": ");
    }
    assert(": "@.len() == 2);
    assert(sep + 2 <= s@.len());
    assert(s@.len() == s.len());
    let prefix = copy_range(&s, 0, sep);
    assert(prefix@ =~= s@.take(sep as int));
    let description = copy_range(&s, sep + 2, s.len());
    assert(description@ =~= s@.skip(sep + 2));
    let p = index_of_from(&prefix, '(', 0);
    assert(prefix@.skip(0) =~= prefix@);
    if p < prefix.len() {
        let scoped = copy_range(&prefix, p + 1, prefix.len());
        assert(scoped@ =~= prefix@.skip(p + 1));
        if ends_with_str(&scoped, ")") {
            proof {
                reveal_strlit(")");
            }
            let t = copy_range(&prefix, 0, p);
            assert(t@ =~= prefix@.take(p as int));
            let sc = copy_range(&prefix, p + 1, prefix.len() - 1);
            return Some(
                SummaryParts {
                    commit_type: string_of(&t),
                    scope: Some(string_of(&sc)),
                    description: string_of(&description),
                },
            );
        }
    }
    Some(
        SummaryParts {
            commit_type: string_of(&prefix),
            scope: None,
            description: string_of(&description),
        },
    )
}

/// The color a commit type is shown in.
#[derive(Debug, Clone, Copy, PartialEq, Eq, Structural)]
pub enum Accent {
    BrightGreen,
    BrightRed,
    Blue,
    Magenta,
    Purple,
    Yellow,
    Cyan,
    BrightBlue,
    BrightCyan,
    BrightBlack,
    Normal,
}

pub open spec fn spec_accent(commit_type: Seq<char>) -> Accent {
    if commit_type == "feat"@ {
        Accent::BrightGreen
    } else if commit_type == "fix"@ {
        Accent::BrightRed
    } else if commit_type == "docs"@ {
        Accent::Blue
    } else if commit_type == "style"@ {
        Accent::Magenta
    } else if commit_type == "refactor"@ {
        Accent::Purple
    } else if commit_type == "perf"@ {
        Accent::Yellow
    } else if commit_type == "test"@ {
        Accent::Cyan
    } else if commit_type == "build"@ {
        Accent::BrightBlue
    } else if commit_type == "ci"@ {
        Accent::BrightCyan
    } else if commit_type == "chore"@ {
        Accent::BrightBlack
    } else if commit_type == "revert"@ {
        Accent::BrightRed
    } else {
        Accent::Normal
    }
}

/// The color of a commit type in the preview; other text stays uncolored.
pub fn accent_for(commit_type: &str) -> (a: Accent)
    ensures
        a == spec_accent(commit_type@),
{
    if str_eq(commit_type, "feat") {
        Accent::BrightGreen
    } else if str_eq(commit_type, "fix") {
        Accent::BrightRed
    } else if str_eq(commit_type, "docs") {
        Accent::Blue
    } else if str_eq(commit_type, "style") {
        Accent::Magenta
    } else if str_eq(commit_type, "refactor") {
        Accent::Purple
    } else if str_eq(commit_type, "perf") {
        Accent::Yellow
    } else if str_eq(commit_type, "test") {
        Accent::Cyan
    } else if str_eq(commit_type, "build") {
        Accent::BrightBlue
    } else if str_eq(commit_type, "ci") {
        Accent::BrightCyan
    } else if str_eq(commit_type, "chore") {
        Accent::BrightBlack
    } else if str_eq(commit_type, "revert") {
        Accent::BrightRed
    } else {
        Accent::Normal
    }
}

/// The text of a bullet line after its `- `, or `None` for another line.
pub fn bullet_text(line: &str) -> (r: Option<String>)
    ensures
        starts_with(line@, "- "@) ==> (r matches Some(b) && b@ == line@.skip(2)),
        !starts_with(line@, "- "@) ==> r is None,
{
    let s = chars_of(line);
    if starts_with_str(&s, "- ") {
        proof {
            reveal_strlit("- ");
        }
        let b = copy_range(&s, 2, s.len());
        assert(b@ =~= line@.skip(2));
        Some(string_of(&b))
    } else {
        None
    }
}

// ---------------------------------------------------------------------------
// Wrapping
// ---------------------------------------------------------------------------

/// The words of `s` found so far and the word being read.
pub open spec fn word_scan(s: Seq<char>) -> (Seq<Seq<char>>, Seq<char>)
    decreases s.len(),
{
    if s.len() == 0 {
        (seq![], seq![])
    } else {
        let (ws, cur) = word_scan(s.drop_last());
        if is_whitespace(s.last()) {
            if cur.len() > 0 {
                (ws.push(cur), seq![])
            } else {
                (ws, seq![])
            }
        } else {
            (ws, cur.push(s.last()))
        }
    }
}

/// `str::split_whitespace`: the non-empty runs of non-whitespace.
pub open spec fn words(s: Seq<char>) -> Seq<Seq<char>> {
    let (ws, cur) = word_scan(s);
    if cur.len() > 0 {
        ws.push(cur)
    } else {
        ws
    }
}

fn words_of(s: &[char]) -> (r: Vec<Vec<char>>)
    ensures
        r@.len() == words(s@).len(),
        forall|i: int| 0 <= i < r@.len() ==> #[trigger] r@[i]@ == words(s@)[i],
{
    let mut ws: Vec<Vec<char>> = Vec::new();
    let mut cur: Vec<char> = Vec::new();
    let mut i: usize = 0;
    while i < s.len()
        invariant
            0 <= i <= s@.len(),
            ws@.len() == word_scan(s@.take(i as int)).0.len(),
            forall|k: int| 0 <= k < ws@.len() ==> #[trigger] ws@[k]@ == word_scan(s@.take(i as int)).0[k],
            cur@ == word_scan(s@.take(i as int)).1,
        decreases s@.len() - i,
    {
        assert(s@.take(i + 1).drop_last() =~= s@.take(i as int));
        assert(s@.take(i + 1).last() == s@[i as int]);
        let c = s[i];
        if is_whitespace_char(c) {
            if cur.len() > 0 {
                ws.push(cur);
                cur = Vec::new();
            } else {
                cur = Vec::new();
            }
        } else {
            cur.push(c);
        }
        i += 1;
    }
    assert(s@.take(s@.len() as int) =~= s@);
    if cur.len() > 0 {
        ws.push(cur);
    }
    ws
}

pub type WrapState = (Seq<Seq<char>>, Seq<char>, Seq<char>);

/// Puts a word that does not fit one character at a time, starting a new
/// line (with `prefix`) before a character that would pass `width`.
pub open spec fn place_chars(
    lines: Seq<Seq<char>>,
    current: Seq<char>,
    prefix: Seq<char>,
    word: Seq<char>,
    width: nat,
) -> (Seq<Seq<char>>, Seq<char>)
    decreases word.len(),
{
    if word.len() == 0 {
        (lines, current)
    } else {
        let c = word[0];
        let break_here = display_width(current) + display_width(seq![c]) > width && current
            != prefix;
        let l2 = if break_here {
            lines.push(current)
        } else {
            lines
        };
        let c2 = if break_here {
            prefix
        } else {
            current
        };
        place_chars(l2, c2.push(c), prefix, word.drop_first(), width)
    }
}

/// Puts one word: on the current line if it fits there, else on a new
/// line, broken up if it is too long even there.
pub open spec fn place_word(st: WrapState, word: Seq<char>, width: nat, cont: Seq<char>) -> WrapState {
    let sep = if st.1 == st.2 {
        seq![]
    } else {
        seq![' ']
    };
    let candidate = st.1 + sep + word;
    if display_width(candidate) <= width {
        (st.0, candidate, st.2)
    } else {
        let (l1, c1, a1) = if st.1 != st.2 {
            (st.0.push(st.1), cont, cont)
        } else {
            st
        };
        let (l2, c2) = place_chars(l1, c1, a1, word, width);
        (l2, c2, a1)
    }
}

pub open spec fn place_words(st: WrapState, ws: Seq<Seq<char>>, width: nat, cont: Seq<char>) -> WrapState
    decreases ws.len(),
{
    if ws.len() == 0 {
        st
    } else {
        place_words(place_word(st, ws[0], width, cont), ws.drop_first(), width, cont)
    }
}

/// One line of a message wrapped to `width` columns. A bullet keeps its
/// `- ` and indents its continuation lines by two spaces.
pub open spec fn spec_wrap_line(line: Seq<char>, width: nat) -> Seq<Seq<char>> {
    let t = trim(line);
    if t.len() == 0 {
        seq![seq![]]
    } else {
        let bullet = starts_with(t, "- "@);
        let first: Seq<char> = if bullet {
            "- "@
        } else {
            seq![]
        };
        let cont: Seq<char> = if bullet {
            "  "@
        } else {
            seq![]
        };
        let content = if bullet {
            t.skip(2)
        } else {
            t
        };
        let st = place_words((seq![], first, first), words(content), width, cont);
        if st.1 != st.2 || st.0.len() == 0 {
            st.0.push(st.1)
        } else {
            st.0
        }
    }
}

pub open spec fn wrap_all(ls: Seq<Seq<char>>, width: nat) -> Seq<Seq<char>>
    decreases ls.len(),
{
    if ls.len() == 0 {
        seq![]
    } else {
        wrap_all(ls.drop_last(), width) + spec_wrap_line(ls.last(), width)
    }
}

/// A message wrapped to `width` columns, line by line; at least one line.
pub open spec fn spec_wrap_preview(message: Seq<char>, width: nat) -> Seq<Seq<char>> {
    let w = wrap_all(lines(message), width);
    if w.len() == 0 {
        seq![seq![]]
    } else {
        w
    }
}

pub open spec fn vec_views(v: Seq<Vec<char>>) -> Seq<Seq<char>> {
    v.map_values(|x: Vec<char>| x@)
}

fn exceeds(current: &[char], c: char, width: usize) -> (r: bool)
    ensures
        r == (display_width(current@) + display_width(seq![c]) > width),
{
    let a = width_of(current);
    let one: [char; 1] = [c];
    assert(one@ =~= seq![c]);
    let b = width_of(&one);
    a > width || b > width - a
}

fn place_chars_exec(
    lines: &mut Vec<Vec<char>>,
    current: &mut Vec<char>,
    prefix: &[char],
    word: &[char],
    width: usize,
)
    ensures
        (vec_views(final(lines)@), final(current)@) == place_chars(
            vec_views(old(lines)@),
            old(current)@,
            prefix@,
            word@,
            width as nat,
        ),
{
    let mut k: usize = 0;
    assert(word@.skip(0) =~= word@);
    while k < word.len()
        invariant
            0 <= k <= word@.len(),
            place_chars(vec_views(old(lines)@), old(current)@, prefix@, word@, width as nat)
                == place_chars(vec_views(lines@), current@, prefix@, word@.skip(k as int), width as nat),
        decreases word@.len() - k,
    {
        let c = word[k];
        assert(word@.skip(k as int)[0] == c);
        assert(word@.skip(k as int).drop_first() =~= word@.skip(k + 1));
        let ghost lv = vec_views(lines@);
        if exceeds(current, c, width) && !chars_eq(current, prefix) {
            let line = current.clone();
            lines.push(line);
            assert(vec_views(lines@) =~= lv.push(current@));
            *current = copy_range(prefix, 0, prefix.len());
            assert(current@ =~= prefix@);
        }
        current.push(c);
        k += 1;
    }
    assert(word@.skip(word@.len() as int) =~= Seq::<char>::empty());
}

fn wrap_line(line: &[char], width: usize) -> (r: Vec<Vec<char>>)
    ensures
        vec_views(r@) == spec_wrap_line(line@, width as nat),
{
    let t = trim_chars(line);
    if t.len() == 0 {
        let mut r: Vec<Vec<char>> = Vec::new();
        r.push(Vec::new());
        assert(vec_views(r@) =~= seq![seq![]]);
        return r;
    }
    let bullet = starts_with_str(&t, "- ");
    proof {
        reveal_strlit("- ");
        reveal_strlit("  ");
    }
    let first: Vec<char> = if bullet { chars_of("- ") } else { Vec::new() };
    let cont: Vec<char> = if bullet { chars_of("  ") } else { Vec::new() };
    let content: Vec<char> = if bullet { copy_range(&t, 2, t.len()) } else { t.clone() };
    assert(content@ == if bullet { t@.skip(2) } else { t@ });
    let ws = words_of(&content);
    let mut lines: Vec<Vec<char>> = Vec::new();
    let mut current: Vec<char> = first.clone();
    let mut active: Vec<char> = first.clone();
    let ghost all = words(content@);
    let mut i: usize = 0;
    assert(all.skip(0) =~= all);
    assert(vec_views(lines@) =~= Seq::<Seq<char>>::empty());
    assert(current@ == first@ && active@ == first@);
    while i < ws.len()
        invariant
            0 <= i <= ws@.len(),
            ws@.len() == all.len(),
            forall|k: int| 0 <= k < ws@.len() ==> #[trigger] ws@[k]@ == all[k],
            place_words((seq![], first@, first@), all, width as nat, cont@) == place_words(
                (vec_views(lines@), current@, active@),
                all.skip(i as int),
                width as nat,
                cont@,
            ),
        decreases ws@.len() - i,
    {
        let word = &ws[i];
        assert(all.skip(i as int)[0] == word@);
        assert(all.skip(i as int).drop_first() =~= all.skip(i + 1));
        let at_start = chars_eq(&current, &active);
        let mut candidate = current.clone();
        if !at_start {
            candidate.push(' ');
        }
        append_chars(&mut candidate, word);
        assert(candidate@ =~= current@ + (if at_start { seq![] } else { seq![' '] }) + word@);
        let cw = width_of(&candidate);
        if cw <= width {
            current = candidate;
        } else {
            if !at_start {
                let ghost lv = vec_views(lines@);
                lines.push(current);
                assert(vec_views(lines@) =~= lv.push(current@));
                current = cont.clone();
                active = cont.clone();
            }
            place_chars_exec(&mut lines, &mut current, &active, word, width);
        }
        i += 1;
    }
    assert(all.skip(ws@.len() as int) =~= Seq::<Seq<char>>::empty());
    if !chars_eq(&current, &active) || lines.len() == 0 {
        let ghost lv = vec_views(lines@);
        lines.push(current);
        assert(vec_views(lines@) =~= lv.push(current@));
    }
    lines
}

/// A message wrapped to `width` columns for the preview.
pub fn wrap_preview(message: &str, width: usize) -> (r: Vec<String>)
    ensures
        string_views(r@) == spec_wrap_preview(message@, width as nat),
{
    let m = chars_of(message);
    let ls = lines_of(&m);
    let ghost lv = lines(message@);
    let mut out: Vec<String> = Vec::new();
    let mut i: usize = 0;
    while i < ls.len()
        invariant
            0 <= i <= ls@.len(),
            ls@.len() == lv.len(),
            forall|k: int| 0 <= k < ls@.len() ==> #[trigger] ls@[k]@ == lv[k],
            string_views(out@) == wrap_all(lv.take(i as int), width as nat),
        decreases ls@.len() - i,
    {
        assert(lv.take(i + 1).drop_last() =~= lv.take(i as int));
        assert(lv.take(i + 1).last() == lv[i as int]);
        let wrapped = wrap_line(&ls[i], width);
        let ghost before = string_views(out@);
        let mut k: usize = 0;
        while k < wrapped.len()
            invariant
                0 <= k <= wrapped@.len(),
                string_views(out@) == before + vec_views(wrapped@).take(k as int),
            decreases wrapped@.len() - k,
        {
            let ghost b2 = out@;
            out.push(string_of(&wrapped[k]));
            assert(string_views(out@) =~= string_views(b2).push(wrapped@[k as int]@));
            k += 1;
            assert(vec_views(wrapped@).take(k as int) =~= vec_views(wrapped@).take(k - 1).push(wrapped@[k - 1]@));
        }
        assert(vec_views(wrapped@).take(wrapped@.len() as int) =~= vec_views(wrapped@));
        i += 1;
    }
    assert(lv.take(ls@.len() as int) =~= lv);
    if out.len() == 0 {
        out.push(String::new());
        assert(string_views(out@) =~= seq![seq![]]);
    }
    out
}

// ---------------------------------------------------------------------------
// The preview box
// ---------------------------------------------------------------------------

/// How the preview is drawn. On a narrow terminal the lines are printed
/// under a title; otherwise they stand in a box of `box_width` columns,
/// each line padded by its entry of `paddings`.
pub struct PreviewLayout {
    pub boxed: bool,
    pub lines: Vec<String>,
    pub box_width: usize,
    pub content_width: usize,
    pub top_rule_width: usize,
    pub paddings: Vec<usize>,
}

pub open spec fn spec_available(terminal_width: int) -> int {
    let w = if terminal_width >= 2 {
        terminal_width - 2
    } else {
        0
    };
    if w < MAX_PREVIEW_WIDTH {
        w
    } else {
        MAX_PREVIEW_WIDTH as int
    }
}

pub open spec fn max_width(ls: Seq<Seq<char>>) -> nat
    decreases ls.len(),
{
    if ls.len() == 0 {
        0
    } else {
        let m = max_width(ls.drop_last());
        let w = display_width(ls.last());
        if w > m {
            w
        } else {
            m
        }
    }
}

pub open spec fn spec_box_width(widest: int, available: int) -> int {
    let comfortable = if MIN_COMFORTABLE_BOX_WIDTH < available {
        MIN_COMFORTABLE_BOX_WIDTH as int
    } else {
        available
    };
    let wanted = if widest + BOX_HORIZONTAL_CHROME > comfortable {
        widest + BOX_HORIZONTAL_CHROME
    } else {
        comfortable
    };
    if wanted < available {
        wanted
    } else {
        available
    }
}

/// The preview of `message` on a terminal `terminal_width` columns wide.
/// The message is sanitized and wrapped: to two columns less than the room
/// (at least one) on a narrow terminal, else to the box's inner width. The
/// box is as wide as its widest line needs, at least a comfortable width,
/// and at most the room; `title_width` is the width of its title.
pub fn preview_layout(message: &str, terminal_width: usize, title_width: usize) -> (l: PreviewLayout)
    ensures
        ({
            let available = spec_available(terminal_width as int);
            let sanitized = spec_sanitize(message@);
            &&& l.boxed == (available >= MIN_BOX_WIDTH)
            &&& !l.boxed ==> string_views(l.lines@) == spec_wrap_preview(
                sanitized,
                (if available >= 3 {
                    available - 2
                } else {
                    1
                }) as nat,
            )
            &&& l.boxed ==> {
                let ls = spec_wrap_preview(sanitized, (available - BOX_HORIZONTAL_CHROME) as nat);
                let bw = spec_box_width(max_width(ls) as int, available);
                &&& string_views(l.lines@) == ls
                &&& l.box_width == bw
                &&& l.content_width == bw - BOX_HORIZONTAL_CHROME
                &&& l.top_rule_width == (if bw >= title_width + 5 {
                    bw - (title_width + 5)
                } else {
                    0
                })
                &&& l.paddings@.len() == ls.len()
                &&& forall|i: int| 0 <= i < ls.len() ==> #[trigger] l.paddings@[i] == (if l.content_width >= display_width(ls[i]) {
                    l.content_width - display_width(ls[i])
                } else {
                    0
                })
            }
        }),
{
    let w = if terminal_width >= 2 { terminal_width - 2 } else { 0 };
    let available = if w < MAX_PREVIEW_WIDTH { w } else { MAX_PREVIEW_WIDTH };
    let sanitized = sanitize_terminal_text(message);
    if available < MIN_BOX_WIDTH {
        let content_width = if available >= 3 { available - 2 } else { 1 };
        let lines = wrap_preview(sanitized.as_str(), content_width);
        return PreviewLayout {
            boxed: false,
            lines,
            box_width: 0,
            content_width,
            top_rule_width: 0,
            paddings: Vec::new(),
        };
    }
    let max_content = available - BOX_HORIZONTAL_CHROME;
    let lines = wrap_preview(sanitized.as_str(), max_content);
    let ghost ls = string_views(lines@);
    let mut widths: Vec<usize> = Vec::new();
    let mut widest: usize = 0;
    let mut i: usize = 0;
    while i < lines.len()
        invariant
            0 <= i <= lines@.len(),
            ls == string_views(lines@),
            widest == max_width(ls.take(i as int)),
            widths@.len() == i,
            forall|k: int| 0 <= k < i ==> #[trigger] widths@[k] == display_width(ls[k]),
        decreases lines@.len() - i,
    {
        assert(ls.take(i + 1).drop_last() =~= ls.take(i as int));
        assert(ls.take(i + 1).last() == ls[i as int]);
        let lw = measure_width(lines[i].as_str());
        widths.push(lw);
        if lw > widest {
            widest = lw;
        }
        i += 1;
    }
    assert(ls.take(lines@.len() as int) =~= ls);
    let comfortable = if MIN_COMFORTABLE_BOX_WIDTH < available { MIN_COMFORTABLE_BOX_WIDTH } else { available };
    let box_width = if widest >= available {
        available
    } else {
        let wanted = if widest + BOX_HORIZONTAL_CHROME > comfortable { widest + BOX_HORIZONTAL_CHROME } else { comfortable };
        if wanted < available { wanted } else { available }
    };
    let content_width = box_width - BOX_HORIZONTAL_CHROME;
    let top_rule_width = if title_width <= box_width && box_width - title_width >= 5 { box_width - (title_width + 5) } else { 0 };
    let mut paddings: Vec<usize> = Vec::new();
    let mut k: usize = 0;
    while k < widths.len()
        invariant
            0 <= k <= widths@.len(),
            paddings@.len() == k,
            forall|j: int| 0 <= j < k ==> #[trigger] paddings@[j] == (if content_width >= widths@[j] {
                content_width - widths@[j]
            } else {
                0
            }),
        decreases widths@.len() - k,
    {
        let wk = widths[k];
        paddings.push(if content_width >= wk { content_width - wk } else { 0 });
        k += 1;
    }
    PreviewLayout { boxed: true, lines, box_width, content_width, top_rule_width, paddings }
}

} // verus!
