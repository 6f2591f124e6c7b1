//! Guessing a commit type from the staged file paths alone.
use vstd::prelude::*;

use crate::text::{
    chars_eq_str, chars_of, contains, contains_str, copy_range, ends_with, ends_with_str, lower,
    lower_chars, split, split_of, starts_with, starts_with_str,
};
use crate::types::CommitType;

verus! {

/// A piece of a path between separators that `Path::components` reports as
/// a component: not empty, and not the current-directory marker `.`.
pub open spec fn is_component(seg: Seq<char>) -> bool {
    seg.len() > 0 && seg != "."@
}

pub open spec fn keep_components(segs: Seq<Seq<char>>) -> Seq<Seq<char>>
    decreases segs.len(),
{
    if segs.len() == 0 {
        seq![]
    } else if is_component(segs.last()) {
        keep_components(segs.drop_last()).push(segs.last())
    } else {
        keep_components(segs.drop_last())
    }
}

/// The components of a relative or absolute `/`-separated path.
pub open spec fn path_components(path: Seq<char>) -> Seq<Seq<char>> {
    keep_components(split(path, '/'))
}

/// `Path::file_name`: the last component, unless that is `..` or there is
/// none (the empty sequence stands for `None`).
pub open spec fn file_name(path: Seq<char>) -> Seq<char> {
    let comps = path_components(path);
    if comps.len() == 0 || comps.last() == ".."@ {
        seq![]
    } else {
        comps.last()
    }
}

/// The position of the last `c` in `s`, or -1.
pub open spec fn last_index_of(s: Seq<char>, c: char) -> int
    decreases s.len(),
{
    if s.len() == 0 {
        -1
    } else if s.last() == c {
        s.len() - 1
    } else {
        last_index_of(s.drop_last(), c)
    }
}

/// `Path::extension`: what follows the last `.` of the file name, when
/// something precedes that dot.
pub open spec fn extension(path: Seq<char>) -> Option<Seq<char>> {
    let f = file_name(path);
    let d = last_index_of(f, '.');
    if d <= 0 {
        None
    } else {
        Some(f.skip(d + 1))
    }
}

pub open spec fn is_test_dir_name(seg: Seq<char>) -> bool {
    ||| seg == "test"@
    ||| seg == "tests"@
    ||| seg == "spec"@
    ||| seg == "specs"@
    ||| seg == "__tests__"@
}

/// A path that holds tests: a test directory among its components, or a
/// file name with a test or spec infix (compared without ASCII case).
pub open spec fn is_test_path(file: Seq<char>) -> bool {
    let l = lower(file);
    let name = file_name(l);
    ||| exists|i: int| 0 <= i < path_components(l).len() && is_test_dir_name(
        #[trigger] path_components(l)[i],
    )
    ||| contains(name, "_test."@)
    ||| contains(name, ".test."@)
    ||| contains(name, "_spec."@)
    ||| contains(name, ".spec."@)
}

pub open spec fn is_doc_extension(e: Seq<char>) -> bool {
    e == "md"@ || e == "mdx"@ || e == "rst"@ || e == "adoc"@
}

/// A documentation path: a documentation extension, or a `docs` component.
pub open spec fn is_documentation_path(file: Seq<char>) -> bool {
    let l = lower(file);
    ||| (extension(l) matches Some(e) && is_doc_extension(e))
    ||| exists|i: int| 0 <= i < path_components(l).len() && #[trigger] path_components(l)[i]
        == "docs"@
}

pub open spec fn is_config_file_name(name: Seq<char>) -> bool {
    ||| name == "cargo.toml"@
    ||| name == "cargo.lock"@
    ||| name == "package.json"@
    ||| name == "package-lock.json"@
    ||| name == "pnpm-lock.yaml"@
    ||| name == "yarn.lock"@
    ||| name == "bun.lock"@
    ||| name == "tsconfig.json"@
    ||| name == "rust-toolchain.toml"@
    ||| starts_with(name, ".env"@)
    ||| starts_with(name, ".eslint"@)
    ||| starts_with(name, ".prettier"@)
    ||| ends_with(name, ".config.js"@)
    ||| ends_with(name, ".config.ts"@)
}

/// A configuration or package description path, judged by its file name.
pub open spec fn is_configuration_path(file: Seq<char>) -> bool {
    is_config_file_name(file_name(lower(file)))
}

/// The configuration and lock files: a path is a configuration path exactly
/// when its file name, without ASCII case, is one of the manifests, lock files
/// and tool settings below, or starts with `.env`, `.eslint` or `.prettier`,
/// or ends with `.config.js` or `.config.ts`.
pub proof fn configuration_file_names(file: Seq<char>)
    ensures
        ({
            let name = file_name(lower(file));
            (name == "cargo.toml"@ || name == "cargo.lock"@ || name == "package.json"@ || name
                == "package-lock.json"@ || name == "pnpm-lock.yaml"@ || name == "yarn.lock"@
                || name == "bun.lock"@ || name == "tsconfig.json"@ || name
                == "rust-toolchain.toml"@ || starts_with(name, ".env"@) || starts_with(
                name,
                ".eslint"@,
            ) || starts_with(name, ".prettier"@) || ends_with(name, ".config.js"@) || ends_with(
                name,
                ".config.ts"@,
            )) <==> is_configuration_path(file)
        }),
{
}

/// The commit type that the set of changed files settles on its own, if any.
pub open spec fn spec_classify(files: Seq<Seq<char>>) -> Option<CommitType> {
    if files.len() == 0 {
        None
    } else if forall|i: int| 0 <= i < files.len() ==> is_test_path(#[trigger] files[i]) {
        Some(CommitType::Test)
    } else if forall|i: int| 0 <= i < files.len() ==> is_documentation_path(#[trigger] files[i]) {
        Some(CommitType::Docs)
    } else if forall|i: int| 0 <= i < files.len() ==> is_configuration_path(#[trigger] files[i]) {
        Some(CommitType::Chore)
    } else {
        None
    }
}

pub open spec fn views(files: Seq<String>) -> Seq<Seq<char>> {
    files.map_values(|f: String| f@)
}

fn components_of(path: &[char]) -> (r: Vec<Vec<char>>)
    ensures
        r@.len() == path_components(path@).len(),
        forall|i: int| 0 <= i < r@.len() ==> #[trigger] r@[i]@ == path_components(path@)[i],
{
    let segs = split_of(path, '/');
    let ghost segv = split(path@, '/');
    let mut r: Vec<Vec<char>> = Vec::new();
    let mut i: usize = 0;
    while i < segs.len()
        invariant
            0 <= i <= segs@.len(),
            segs@.len() == segv.len(),
            forall|k: int| 0 <= k < segs@.len() ==> #[trigger] segs@[k]@ == segv[k],
            r@.len() == keep_components(segv.take(i as int)).len(),
            forall|k: int| 0 <= k < r@.len() ==> #[trigger] r@[k]@ == keep_components(
                segv.take(i as int),
            )[k],
        decreases segs@.len() - i,
    {
        let seg = &segs[i];
        assert(segv.take(i + 1).drop_last() =~= segv.take(i as int));
        assert(segv.take(i + 1).last() == segv[i as int]);
        if seg.len() > 0 && !chars_eq_str(seg, ".") {
            r.push(seg.clone());
        }
        i += 1;
    }
    assert(segv.take(segs@.len() as int) =~= segv);
    r
}

fn file_name_of(path: &[char]) -> (r: Vec<char>)
    ensures
        r@ == file_name(path@),
{
    let comps = components_of(path);
    if comps.len() == 0 {
        return Vec::new();
    }
    let last = &comps[comps.len() - 1];
    if chars_eq_str(last, "..") {
        Vec::new()
    } else {
        last.clone()
    }
}

fn last_index_of_char(s: &[char], c: char) -> (r: Option<usize>)
    ensures
        r matches Some(i) ==> last_index_of(s@, c) == i,
        r matches Some(i) ==> i < s@.len(),
        r is None ==> last_index_of(s@, c) == -1,
{
    let mut i: usize = s.len();
    assert(s@.take(s@.len() as int) =~= s@);
    while i > 0
        invariant
            i <= s@.len(),
            last_index_of(s@, c) == last_index_of(s@.take(i as int), c),
        decreases i,
    {
        assert(s@.take(i as int).last() == s@[i - 1]);
        if s[i - 1] == c {
            return Some(i - 1);
        }
        assert(s@.take(i as int).drop_last() =~= s@.take(i - 1));
        i -= 1;
    }
    None
}

fn extension_of(path: &[char]) -> (r: Option<Vec<char>>)
    ensures
        r matches Some(e) ==> extension(path@) == Some(e@),
        r is None ==> extension(path@) is None,
{
    let name = file_name_of(path);
    match last_index_of_char(&name, '.') {
        Some(d) => {
            assert(d < name@.len());
            assert(name@.len() == name.len());
            if d == 0 {
                None
            } else {
                Some(copy_range(&name, d + 1, name.len()))
            }
        },
        None => None,
    }
}

fn is_test_file(file: &str) -> (r: bool)
    ensures
        r == is_test_path(file@),
{
    let fc = chars_of(file);
    assert(fc@ == file@);
    let l = lower_chars(fc.as_slice());
    assert(l@ == lower(fc@));
    let comps = components_of(&l);
    let name = file_name_of(&l);
    let mut i: usize = 0;
    while i < comps.len()
        invariant
            0 <= i <= comps@.len(),
            comps@.len() == path_components(l@).len(),
            l@ == lower(file@),
            forall|k: int| 0 <= k < comps@.len() ==> #[trigger] comps@[k]@ == path_components(
                l@,
            )[k],
            forall|k: int| 0 <= k < i ==> !is_test_dir_name(#[trigger] path_components(l@)[k]),
        decreases comps@.len() - i,
    {
        let c = &comps[i];
        if chars_eq_str(c, "test") || chars_eq_str(c, "tests") || chars_eq_str(c, "spec") || chars_eq_str(c, "specs")
            || chars_eq_str(c, "__tests__") {
            assert(is_test_dir_name(path_components(l@)[i as int]));
            assert(l@ == lower(file@));
            assert(exists|k: int| 0 <= k < path_components(lower(file@)).len() && is_test_dir_name(
                #[trigger] path_components(lower(file@))[k]));
            return true;
        }
        i += 1;
    }
    contains_str(&name, "_test.") || contains_str(&name, ".test.") || contains_str(&name, "_spec.")
        || contains_str(&name, ".spec.")
}

fn is_documentation_file(file: &str) -> (r: bool)
    ensures
        r == is_documentation_path(file@),
{
    let fc = chars_of(file);
    assert(fc@ == file@);
    let l = lower_chars(fc.as_slice());
    assert(l@ == lower(fc@));
    if let Some(e) = extension_of(&l) {
        if chars_eq_str(&e, "md") || chars_eq_str(&e, "mdx") || chars_eq_str(&e, "rst") || chars_eq_str(&e, "adoc") {
            return true;
        }
    }
    let comps = components_of(&l);
    let mut i: usize = 0;
    while i < comps.len()
        invariant
            0 <= i <= comps@.len(),
            comps@.len() == path_components(l@).len(),
            l@ == lower(file@),
            forall|k: int| 0 <= k < comps@.len() ==> #[trigger] comps@[k]@ == path_components(
                l@,
            )[k],
            forall|k: int| 0 <= k < i ==> #[trigger] path_components(l@)[k] != "docs"@,
        decreases comps@.len() - i,
    {
        if chars_eq_str(&comps[i], "docs") {
            assert(l@ == lower(file@));
            assert(path_components(lower(file@))[i as int] == "docs"@);
            return true;
        }
        i += 1;
    }
    false
}

fn is_configuration_file(file: &str) -> (r: bool)
    ensures
        r == is_configuration_path(file@),
{
    let fc = chars_of(file);
    assert(fc@ == file@);
    let l = lower_chars(fc.as_slice());
    assert(l@ == lower(fc@));
    let n = file_name_of(&l);
    chars_eq_str(&n, "cargo.toml") || chars_eq_str(&n, "cargo.lock") || chars_eq_str(&n, "package.json") || chars_eq_str(
        &n,
        "package-lock.json",
    ) || chars_eq_str(&n, "pnpm-lock.yaml") || chars_eq_str(&n, "yarn.lock") || chars_eq_str(&n, "bun.lock")
        || chars_eq_str(&n, "tsconfig.json") || chars_eq_str(&n, "rust-toolchain.toml") || starts_with_str(
        &n,
        ".env",
    ) || starts_with_str(&n, ".eslint") || starts_with_str(&n, ".prettier") || ends_with_str(
        &n,
        ".config.js",
    ) || ends_with_str(&n, ".config.ts")
}

/// The commit type that the staged paths settle on their own: `test` when
/// every path is a test, `docs` when every path is documentation, `chore`
/// when every path is configuration, checked in that order; `None` for no
/// paths or a mix.
pub fn classify_files(files: &[String]) -> (r: Option<CommitType>)
    ensures
        r == spec_classify(views(files@)),
{
    let ghost fv = views(files@);
    if files.len() == 0 {
        return None;
    }
    let mut i: usize = 0;
    while i < files.len() && is_test_file(files[i].as_str())
        invariant
            0 <= i <= files@.len(),
            fv == views(files@),
            forall|k: int| 0 <= k < i ==> is_test_path(#[trigger] fv[k]),
        decreases files@.len() - i,
    {
        i += 1;
    }
    if i == files.len() {
        return Some(CommitType::Test);
    }
    assert(!is_test_path(fv[i as int]));
    let mut i: usize = 0;
    while i < files.len() && is_documentation_file(files[i].as_str())
        invariant
            0 <= i <= files@.len(),
            fv == views(files@),
            forall|k: int| 0 <= k < i ==> is_documentation_path(#[trigger] fv[k]),
        decreases files@.len() - i,
    {
        i += 1;
    }
    if i == files.len() {
        return Some(CommitType::Docs);
    }
    assert(!is_documentation_path(fv[i as int]));
    let mut i: usize = 0;
    while i < files.len() && is_configuration_file(files[i].as_str())
        invariant
            0 <= i <= files@.len(),
            fv == views(files@),
            forall|k: int| 0 <= k < i ==> is_configuration_path(#[trigger] fv[k]),
        decreases files@.len() - i,
    {
        i += 1;
    }
    if i == files.len() {
        return Some(CommitType::Chore);
    }
    assert(!is_configuration_path(fv[i as int]));
    None
}

} // verus!
