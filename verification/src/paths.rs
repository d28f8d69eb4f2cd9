//! File-system paths as strings: the parts of `std::path` the library relies on,
//! and the choice of a free output name next to an input file.

use vstd::prelude::*;
use crate::text::{decimal, decimal_string, digits_value, lemma_decimal_facts};

verus! {

/// What `Path::parent` gives for a path (`None` for a root or an empty path).
/// Fixed for the target the crate is built for.
pub uninterp spec fn parent_path(p: Seq<char>) -> Option<Seq<char>>;

/// What `Path::file_stem` gives for a path.
pub uninterp spec fn file_stem(p: Seq<char>) -> Option<Seq<char>>;

/// What `Path::extension` gives for a path.
pub uninterp spec fn extension_of(p: Seq<char>) -> Option<Seq<char>>;

/// What `Path::join` gives for a directory and a name.
pub uninterp spec fn joined(dir: Seq<char>, name: Seq<char>) -> Seq<char>;

/// What `Path::with_extension` gives for a path and an extension.
pub uninterp spec fn with_extension(p: Seq<char>, ext: Seq<char>) -> Seq<char>;

/// What `Path::components().count()` gives for a path.
pub uninterp spec fn component_count(p: Seq<char>) -> nat;

/// The view of an optional string.
pub open spec fn opt_view(o: Option<String>) -> Option<Seq<char>> {
    match o {
        Some(s) => Some(s@),
        None => None,
    }
}

/// `Path::parent` (std), as text.
#[verifier::external_body]
pub(crate) fn parent_of(p: &str) -> (r: Option<String>)
    ensures
        opt_view(r) == parent_path(p@),
{
    std::path::Path::new(p).parent().map(|d| d.to_string_lossy().into_owned())
}

/// `Path::file_stem` (std), as text.
#[verifier::external_body]
pub(crate) fn file_stem_of(p: &str) -> (r: Option<String>)
    ensures
        opt_view(r) == file_stem(p@),
{
    std::path::Path::new(p).file_stem().map(|s| s.to_string_lossy().into_owned())
}

/// `Path::extension` (std), as text. The documentation says the extension is what
/// follows the final `.` of the file name, so it holds no `.`.
#[verifier::external_body]
pub(crate) fn extension_of_path(p: &str) -> (r: Option<String>)
    ensures
        opt_view(r) == extension_of(p@),
        r matches Some(e) ==> !crate::text::has_char(e@, '.'),
{
    std::path::Path::new(p).extension().map(|e| e.to_string_lossy().into_owned())
}

/// `Path::join` (std), as text.
#[verifier::external_body]
pub(crate) fn join(dir: &str, name: &str) -> (r: String)
    ensures
        r@ == joined(dir@, name@),
{
    std::path::Path::new(dir).join(name).to_string_lossy().into_owned()
}

/// Whether `ext` holds no path separator (`Path::with_extension` panics on one).
pub open spec fn no_separator(ext: Seq<char>) -> bool {
    forall|i: int| 0 <= i < ext.len() ==> ext[i] != '/' && ext[i] != '\\'
}

/// `Path::with_extension` (std), as text. It panics when the new extension holds a
/// path separator, so such an extension is not admitted.
#[verifier::external_body]
pub(crate) fn replace_extension(p: &str, ext: &str) -> (r: String)
    requires
        no_separator(ext@),
    ensures
        r@ == with_extension(p@, ext@),
{
    std::path::Path::new(p).with_extension(ext).to_string_lossy().into_owned()
}

/// `Path::components().count()` (std).
#[verifier::external_body]
pub(crate) fn count_components(p: &str) -> (r: usize)
    ensures
        r == component_count(p@),
{
    std::path::Path::new(p).components().count()
}

/// `Path::exists` (std). It asks the file system, so nothing is promised of the answer.
#[verifier::external_body]
pub(crate) fn path_exists(p: &str) -> (r: bool) {
    std::path::Path::new(p).exists()
}

/// `Path::is_file` (std). It asks the file system, so nothing is promised of the answer.
#[verifier::external_body]
pub(crate) fn is_file(p: &str) -> (r: bool) {
    std::path::Path::new(p).is_file()
}

/// `Path::is_dir` (std). It asks the file system, so nothing is promised of the answer.
#[verifier::external_body]
pub(crate) fn is_dir(p: &str) -> (r: bool) {
    std::path::Path::new(p).is_dir()
}

/// The `n`-th candidate name for `<stem><suffix>.<ext>`: the plain name for `n == 1`,
/// then `<stem><suffix> (n).<ext>`.
pub open spec fn output_file_name(stem: Seq<char>, suffix: Seq<char>, n: nat, ext: Seq<char>) -> Seq<char> {
    if n <= 1 {
        stem + suffix + seq!['.'] + ext
    } else {
        stem + suffix + seq![' ', '('] + decimal(n) + seq![')', '.'] + ext
    }
}

/// The `n`-th candidate name for `<stem><suffix>.<ext>`.
pub fn output_name(stem: &str, suffix: &str, n: u64, ext: &str) -> (r: String)
    ensures
        r@ == output_file_name(stem@, suffix@, n as nat, ext@),
{
    let mut r = String::new();
    r.append(stem);
    r.append(suffix);
    if n <= 1 {
        crate::text::push_char(&mut r, '.');
    } else {
        crate::text::push_char(&mut r, ' ');
        crate::text::push_char(&mut r, '(');
        let d = decimal_string(n);
        r.append(d.as_str());
        crate::text::push_char(&mut r, ')');
        crate::text::push_char(&mut r, '.');
    }
    r.append(ext);
    assert(r@ =~= output_file_name(stem@, suffix@, n as nat, ext@));
    r
}

/// The candidate paths in `dir` for `<stem><suffix>.<ext>`, in the order they are
/// tried: the plain name, then ` (2)` … ` (999)`.
pub open spec fn candidate_paths(dir: Seq<char>, stem: Seq<char>, suffix: Seq<char>, ext: Seq<char>) -> Seq<Seq<char>> {
    Seq::new(999, |i: int| joined(dir, output_file_name(stem, suffix, (i + 1) as nat, ext)))
}

/// From the `i`-th on, the first of `cands` whose answer in `taken` (`taken[j]` for
/// `cands[j]`) is no; the first candidate when every answer given is yes.
pub open spec fn first_free_from(cands: Seq<Seq<char>>, taken: Seq<bool>, i: int) -> Seq<char>
    decreases cands.len() - i,
{
    if i < 0 || i >= cands.len() || i >= taken.len() {
        cands[0]
    } else if !taken[i] {
        cands[i]
    } else {
        first_free_from(cands, taken, i + 1)
    }
}

proof fn lemma_first_free_at(cands: Seq<Seq<char>>, taken: Seq<bool>, i: int, h: int)
    requires
        0 <= i <= h < cands.len(),
        h < taken.len(),
        !taken[h],
        forall|j: int| i <= j < h ==> #[trigger] taken[j],
    ensures
        first_free_from(cands, taken, i) == cands[h],
    decreases h - i,
{
    if i < h {
        lemma_first_free_at(cands, taken, i + 1, h);
    }
}

/// Given whether each candidate is taken (`taken[i]` for `cands[i]`; `taken` may stop
/// early), the first that is free, or the first candidate when none is.
pub fn first_free(cands: &Vec<String>, taken: &Vec<bool>) -> (r: String)
    requires
        cands@.len() >= 1,
    ensures
        r@ == first_free_from(cands@.map_values(|c: String| c@), taken@, 0),
{
    let ghost cv = cands@.map_values(|c: String| c@);
    let mut i: usize = 0;
    while i < cands.len() && i < taken.len()
        invariant
            i <= cands@.len(),
            cands@.len() >= 1,
            cv == cands@.map_values(|c: String| c@),
            first_free_from(cv, taken@, 0) == first_free_from(cv, taken@, i as int),
        decreases cands@.len() - i,
    {
        if !taken[i] {
            return cands[i].clone();
        }
        i = i + 1;
    }
    cands[0].clone()
}

/// A free path in `dir` for `<stem><suffix>.<ext>`: the plain name if nothing is
/// there, else the first of ` (2)` … ` (999)` that is free, else the plain name again.
/// The candidates are probed in order until one is free (the file system answers);
/// for the answers that came back, the result is the first free candidate.
pub fn free_path(dir: &str, stem: &str, suffix: &str, ext: &str) -> (r: String)
    ensures
        exists|taken: Seq<bool>|
            taken.len() == 999 && r@ == first_free_from(candidate_paths(dir@, stem@, suffix@, ext@), taken, 0),
{
    let ghost full = candidate_paths(dir@, stem@, suffix@, ext@);
    let mut cands: Vec<String> = Vec::new();
    let mut taken: Vec<bool> = Vec::new();
    let mut n: u64 = 1;
    let mut free = false;
    while n < 1000 && !free
        invariant
            1 <= n <= 1000,
            full == candidate_paths(dir@, stem@, suffix@, ext@),
            cands@.len() == n - 1,
            taken@.len() == n - 1,
            forall|j: int| 0 <= j < cands@.len() ==> #[trigger] cands@[j]@ == full[j],
            !free ==> forall|j: int| 0 <= j < taken@.len() ==> #[trigger] taken@[j],
            free ==> n >= 2 && !taken@[n - 2] && forall|j: int| 0 <= j < n - 2 ==> #[trigger] taken@[j],
        decreases 1000 - n,
    {
        let name = output_name(stem, suffix, n, ext);
        let p = join(dir, name.as_str());
        let e = path_exists(p.as_str());
        assert(p@ == full[n - 1]);
        cands.push(p);
        taken.push(e);
        free = !e;
        n = n + 1;
    }
    let ghost cv = cands@.map_values(|c: String| c@);
    let ghost t = Seq::new(999, |j: int| if j < taken@.len() { taken@[j] } else { true });
    proof {
        if free {
            let h = n - 2;
            lemma_first_free_at(cv, taken@, 0, h as int);
            assert forall|j: int| 0 <= j < h implies #[trigger] t[j] by {
                assert(taken@[j]);
            }
            lemma_first_free_at(full, t, 0, h as int);
            assert(cv[h as int] == full[h as int]);
        } else {
            assert(cv =~= full);
            assert(t =~= taken@);
        }
    }
    first_free(&cands, &taken)
}

/// The candidate names `1..` for one file are all different, so probing them in turn
/// never probes the same path twice.
pub proof fn lemma_candidate_names_distinct(stem: Seq<char>, suffix: Seq<char>, ext: Seq<char>, n: nat, m: nat)
    requires
        1 <= n,
        1 <= m,
        n != m,
    ensures
        output_file_name(stem, suffix, n, ext) != output_file_name(stem, suffix, m, ext),
{
    let k: int = (stem.len() + suffix.len()) as int;
    let a = output_file_name(stem, suffix, n, ext);
    let b = output_file_name(stem, suffix, m, ext);
    if a == b {
        if n == 1 || m == 1 {
            assert(a[k] != b[k]);
        } else {
            lemma_decimal_facts(n);
            lemma_decimal_facts(m);
            let dn = decimal(n);
            let dm = decimal(m);
            assert(a.len() == k + 2 + dn.len() + 2 + ext.len());
            assert(b.len() == k + 2 + dm.len() + 2 + ext.len());
            assert(dn.len() == dm.len());
            assert(a.subrange(k + 2, k + 2 + dn.len()) =~= dn);
            assert(b.subrange(k + 2, k + 2 + dm.len()) =~= dm);
            assert(digits_value(dn) == digits_value(dm));
        }
    }
}


/// The first of `paths[i..]` whose answer `found[i]` is yes (`found[i]` answers for
/// `paths[i]`), or `None` when no answer given is yes.
pub open spec fn first_found_from(paths: Seq<String>, found: Seq<bool>, i: int) -> Option<String>
    decreases found.len() - i,
{
    if i < 0 || i >= found.len() || i >= paths.len() {
        None
    } else if found[i] {
        Some(paths[i])
    } else {
        first_found_from(paths, found, i + 1)
    }
}

proof fn lemma_first_found_is_listed(paths: Seq<String>, found: Seq<bool>, i: int)
    ensures
        first_found_from(paths, found, i) matches Some(p) ==> exists|k: int| 0 <= k < paths.len() && paths[k] == p,
    decreases found.len() - i,
{
    if 0 <= i < found.len() && i < paths.len() && !found[i] {
        lemma_first_found_is_listed(paths, found, i + 1);
    }
}

/// Given whether each path exists (`found[i]` for `paths[i]`; `found` may stop
/// early), the first path that does.
pub fn first_found(paths: &Vec<String>, found: &Vec<bool>) -> (r: Option<String>)
    ensures
        r == first_found_from(paths@, found@, 0),
{
    let mut i: usize = 0;
    while i < found.len() && i < paths.len()
        invariant
            i <= found@.len(),
            first_found_from(paths@, found@, 0) == first_found_from(paths@, found@, i as int),
        decreases found@.len() - i,
    {
        if found[i] {
            return Some(paths[i].clone());
        }
        i = i + 1;
    }
    None
}

/// The first of `paths` that exists, if any: the paths are probed in order and
/// the probing stops at the first that exists (the file system answers). Always one
/// of them.
pub fn first_existing(paths: &Vec<String>) -> (r: Option<String>)
    ensures
        paths@.len() == 0 ==> r is None,
        r matches Some(p) ==> exists|i: int| 0 <= i < paths@.len() && paths@[i] == p,
{
    let mut found: Vec<bool> = Vec::new();
    let mut hit = false;
    while found.len() < paths.len() && !hit
        invariant
            found@.len() <= paths@.len(),
        decreases paths@.len() - found@.len(),
    {
        let e = path_exists(paths[found.len()].as_str());
        found.push(e);
        hit = e;
    }
    proof {
        lemma_first_found_is_listed(paths@, found@, 0);
    }
    first_found(paths, &found)
}

/// `<resource_dir>/resources/<name>`.
pub open spec fn resource_path(resource_dir: Seq<char>, name: Seq<char>) -> Seq<char> {
    joined(joined(resource_dir, "resources"@), name)
}

/// Given whether the bundled `<resource_dir>/resources/<name>` is there
/// (`present`), that folder; `None` without a resource folder or when it is not there.
pub fn bundled_folder(resource_dir: Option<&str>, name: &str, present: bool) -> (r: Option<String>)
    ensures
        opt_view(r) == (match resource_dir {
            Some(rd) => if present { Some(resource_path(rd@, name@)) } else { None },
            None => None,
        }),
{
    match resource_dir {
        Some(rd) => {
            if present {
                let res = join(rd, "resources");
                Some(join(res.as_str(), name))
            } else {
                None
            }
        },
        None => None,
    }
}

/// The bundled pdfium folder `<resource_dir>/resources/pdfium`, when it is a folder
/// (the file system answers for that path).
pub fn pdfium_dir(resource_dir: Option<&str>) -> (r: Option<String>)
    ensures
        resource_dir is None ==> r is None,
        r matches Some(d) ==> resource_dir matches Some(rd) && d@ == joined(joined(rd@, "resources"@), "pdfium"@),
{
    let present = match resource_dir {
        Some(rd) => {
            let res = join(rd, "resources");
            let d = join(res.as_str(), "pdfium");
            is_dir(d.as_str())
        },
        None => false,
    };
    proof {
        reveal_strlit("pdfium");
    }
    bundled_folder(resource_dir, "pdfium", present)
}


proof fn lemma_first_free_found(cands: Seq<Seq<char>>, taken: Seq<bool>, i: int, k: int)
    requires
        0 <= i <= k < cands.len(),
        k < taken.len(),
        !taken[k],
        forall|j: int| 0 <= j < i ==> #[trigger] taken[j],
    ensures
        exists|m: int|
            i <= m <= k && first_free_from(cands, taken, i) == cands[m] && !taken[m] && forall|j: int|
                0 <= j < m ==> #[trigger] taken[j],
    decreases k - i,
{
    if !taken[i] {
        assert(first_free_from(cands, taken, i) == cands[i]);
    } else {
        lemma_first_free_found(cands, taken, i + 1, k);
        assert(first_free_from(cands, taken, i) == first_free_from(cands, taken, i + 1));
    }
}

/// For the answers given, no candidate reported taken is chosen while one is free:
/// the choice is a free candidate, every candidate before it is taken, and it comes
/// no later than any free candidate.
pub proof fn lemma_free_name_never_taken(cands: Seq<Seq<char>>, taken: Seq<bool>, k: int)
    requires
        0 <= k < cands.len(),
        k < taken.len(),
        !taken[k],
    ensures
        exists|m: int|
            0 <= m <= k && first_free_from(cands, taken, 0) == cands[m] && !taken[m] && forall|j: int|
                0 <= j < m ==> #[trigger] taken[j],
{
    lemma_first_free_found(cands, taken, 0, k);
}

} // verus!
