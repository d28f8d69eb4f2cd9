//! Finding Tesseract and its language models, and reading what it says about
//! itself. Running it is left to the application.
//!
//! Order: the `IUREOCR_TESSERACT` variable, the Tesseract bundled with the app, the
//! usual places of each system and finally the `PATH`. The bundled models
//! (`resources/tessdata`) are preferred whenever they exist, so that results are
//! the same on every platform.

use vstd::prelude::*;
use crate::paths::{bundled_folder, component_count, count_components, is_file, join, joined, resource_path};
use crate::text::{
    same_text,
    blank, chars_of, has_char, has_prefix, is_blank, lines, lines_of, push_char, starts_with, trim, trimmed,
    contains_char, views, lossy_text, utf8_lossy,
};

verus! {

/// A Tesseract that answered.
#[derive(Debug, Clone)]
pub struct Tesseract {
    pub exe: String,
    /// Model folder passed with `--tessdata-dir` (`None` = the system's).
    pub tessdata: Option<String>,
    pub version: String,
    pub languages: Vec<String>,
    /// Whether it is the one shipped inside the installer.
    pub bundled: bool,
}

/// The executable's file name on the platform.
pub open spec fn exe_file(windows: bool) -> Seq<char> {
    if windows {
        "tesseract.exe"@
    } else {
        "tesseract"@
    }
}

/// The executable's file name: `tesseract.exe` on Windows, `tesseract` elsewhere.
pub fn exe_name(windows: bool) -> (r: &'static str)
    ensures
        r@ == exe_file(windows),
{
    if windows {
        "tesseract.exe"
    } else {
        "tesseract"
    }
}

/// The candidates, in the order they are tried, each marked when it is the bundled one.
pub open spec fn candidate_list(
    env_override: Option<Seq<char>>,
    resource_dir: Option<Seq<char>>,
    platform: Seq<Seq<char>>,
    windows: bool,
) -> Seq<(Seq<char>, bool)> {
    let from_env = match env_override {
        Some(p) => if is_blank(p) { Seq::empty() } else { seq![(p, false)] },
        None => Seq::empty(),
    };
    let bundled = match resource_dir {
        Some(r) => seq![(joined(resource_path(r, "tesseract"@), exe_file(windows)), true)],
        None => Seq::empty(),
    };
    from_env + bundled + platform.map_values(|p: Seq<char>| (p, false)) + seq![(exe_file(windows), false)]
}

/// The view of a list of candidates.
pub open spec fn candidate_views(v: Seq<(String, bool)>) -> Seq<(Seq<char>, bool)> {
    v.map_values(|c: (String, bool)| (c.0@, c.1))
}

/// The usual install places of Tesseract on the system named `os` (as
/// `std::env::consts::OS` names it), in the order they are tried; on Windows the
/// per-user one under `local_data` (the local application-data folder) comes last.
pub open spec fn platform_places(os: Seq<char>, local_data: Option<Seq<char>>) -> Seq<Seq<char>> {
    if os == "windows"@ {
        seq![
            joined("C:\\Program Files\\Tesseract-OCR"@, "tesseract.exe"@),
            joined("C:\\Program Files (x86)\\Tesseract-OCR"@, "tesseract.exe"@),
        ] + match local_data {
            Some(l) => seq![joined(joined(joined(l, "Programs"@), "Tesseract-OCR"@), "tesseract.exe"@)],
            None => Seq::empty(),
        }
    } else if os == "macos"@ {
        seq!["/opt/homebrew/bin/tesseract"@, "/usr/local/bin/tesseract"@, "/opt/local/bin/tesseract"@]
    } else if os == "linux"@ {
        seq!["/usr/bin/tesseract"@, "/usr/local/bin/tesseract"@]
    } else {
        Seq::empty()
    }
}

/// The usual install places of Tesseract on the system named `os`.
pub fn platform_places_for(os: &str, local_data: Option<&str>) -> (r: Vec<String>)
    ensures
        r@.map_values(|p: String| p@) == platform_places(
            os@,
            match local_data {
                Some(l) => Some(l@),
                None => None,
            },
        ),
{
    let mut v: Vec<String> = Vec::new();
    if same_text(os, "windows") {
        v.push(join("C:\\Program Files\\Tesseract-OCR", "tesseract.exe"));
        v.push(join("C:\\Program Files (x86)\\Tesseract-OCR", "tesseract.exe"));
        match local_data {
            Some(l) => {
                let a = join(l, "Programs");
                let b = join(a.as_str(), "Tesseract-OCR");
                v.push(join(b.as_str(), "tesseract.exe"));
            },
            None => {},
        }
    } else if same_text(os, "macos") {
        v.push("/opt/homebrew/bin/tesseract".to_string());
        v.push("/usr/local/bin/tesseract".to_string());
        v.push("/opt/local/bin/tesseract".to_string());
    } else if same_text(os, "linux") {
        v.push("/usr/bin/tesseract".to_string());
        v.push("/usr/local/bin/tesseract".to_string());
    }
    assert(v@.map_values(|p: String| p@) =~= platform_places(
        os@,
        match local_data {
            Some(l) => Some(l@),
            None => None,
        },
    ));
    v
}

/// The places Tesseract is looked for, in order: `env_override` (the
/// `IUREOCR_TESSERACT` variable) unless blank, the bundled one under `resource_dir`,
/// the usual places of the platform, and the bare name (found through `PATH`).
pub fn candidates(
    env_override: Option<&str>,
    resource_dir: Option<&str>,
    platform: &Vec<String>,
    windows: bool,
) -> (r: Vec<(String, bool)>)
    ensures
        candidate_views(r@) == candidate_list(
            match env_override {
                Some(p) => Some(p@),
                None => None,
            },
            match resource_dir {
                Some(d) => Some(d@),
                None => None,
            },
            platform@.map_values(|p: String| p@),
            windows,
        ),
{
    let ghost envv = match env_override {
        Some(p) => Some(p@),
        None => None::<Seq<char>>,
    };
    let ghost resv = match resource_dir {
        Some(d) => Some(d@),
        None => None::<Seq<char>>,
    };
    let ghost platv = platform@.map_values(|p: String| p@);
    let mut v: Vec<(String, bool)> = Vec::new();
    let ghost from_env: Seq<(Seq<char>, bool)> = match envv {
        Some(p) => if is_blank(p) { Seq::empty() } else { seq![(p, false)] },
        None => Seq::empty(),
    };
    let ghost bundled: Seq<(Seq<char>, bool)> = match resv {
        Some(r) => seq![(joined(resource_path(r, "tesseract"@), exe_file(windows)), true)],
        None => Seq::empty(),
    };
    match env_override {
        Some(p) => {
            if !blank(p) {
                v.push((p.to_string(), false));
            }
        },
        None => {},
    }
    assert(candidate_views(v@) =~= from_env);
    match resource_dir {
        Some(r) => {
            let res = join(r, "resources");
            let tdir = join(res.as_str(), "tesseract");
            let exe = join(tdir.as_str(), exe_name(windows));
            proof {
                reveal_strlit("resources");
                reveal_strlit("tesseract");
            }
            v.push((exe, true));
        },
        None => {},
    }
    assert(candidate_views(v@) =~= from_env + bundled);
    let ghost head = candidate_views(v@);
    let mut i: usize = 0;
    while i < platform.len()
        invariant
            i <= platform@.len(),
            platv == platform@.map_values(|p: String| p@),
            candidate_views(v@) == head + platv.take(i as int).map_values(|p: Seq<char>| (p, false)),
        decreases platform@.len() - i,
    {
        let ghost before = v@;
        let item = platform[i].clone();
        assert(item@ == platv[i as int]);
        v.push((item, false));
        assert(candidate_views(v@) =~= candidate_views(before).push((platv[i as int], false)));
        assert(platv.take(i + 1).map_values(|p: Seq<char>| (p, false)) =~= platv.take(i as int).map_values(
            |p: Seq<char>| (p, false),
        ).push((platv[i as int], false)));
        i = i + 1;
        assert(candidate_views(v@) =~= head + platv.take(i as int).map_values(|p: Seq<char>| (p, false)));
    }
    let ghost before = v@;
    v.push((exe_name(windows).to_string(), false));
    proof {
        assert(platv.take(platv.len() as int) == platv);
        assert(candidate_views(v@) =~= candidate_views(before).push((exe_file(windows), false)));
        assert(candidate_views(v@) =~= candidate_list(envv, resv, platv, windows));
    }
    v
}

/// The bundled model folder `<resource_dir>/resources/tessdata`.
pub open spec fn tessdata_dir(resource_dir: Seq<char>) -> Seq<char> {
    resource_path(resource_dir, "tessdata"@)
}

/// The bundled model folder, when it holds `spa.traineddata` (the file system
/// answers for that file).
pub fn bundled_tessdata(resource_dir: Option<&str>) -> (r: Option<String>)
    ensures
        resource_dir is None ==> r is None,
        r matches Some(d) ==> resource_dir matches Some(rd) && d@ == tessdata_dir(rd@),
{
    let present = match resource_dir {
        Some(rd) => {
            let res = join(rd, "resources");
            let dir = join(res.as_str(), "tessdata");
            let model = join(dir.as_str(), "spa.traineddata");
            is_file(model.as_str())
        },
        None => false,
    };
    proof {
        reveal_strlit("tessdata");
    }
    bundled_folder(resource_dir, "tessdata", present)
}

/// Given the number of components of a candidate and whether it names a file
/// (`names_file`, asked only for a path), whether it is worth running: a bare name
/// always is, a path only when it names a file.
pub fn worth_probing_given(components: usize, names_file: bool) -> (r: bool)
    ensures
        r == (components <= 1 || names_file),
{
    components <= 1 || names_file
}

/// Whether a candidate is worth running: a bare name is always tried (it is looked
/// up in `PATH`); a path only when it names a file (the file system answers).
pub fn worth_probing(exe: &str) -> (r: bool)
    ensures
        component_count(exe@) <= 1 ==> r,
{
    let components = count_components(exe);
    let names_file = components > 1 && is_file(exe);
    worth_probing_given(components, names_file)
}


/// The version Tesseract reports for `--version` (on the first line of stdout, or
/// of stderr when stdout is empty): `tesseract 5.3.4` gives `5.3.4`. Nothing when it
/// failed without writing to stdout, or wrote nothing.
pub open spec fn version_text(stdout: Seq<u8>, stderr: Seq<u8>, success: bool) -> Option<Seq<char>> {
    if !success && stdout.len() == 0 {
        None
    } else {
        let text = utf8_lossy(if stdout.len() == 0 { stderr } else { stdout });
        let ls = lines(text);
        if ls.len() == 0 {
            None
        } else {
            let first = trimmed(ls[0]);
            Some(if has_prefix(first, "tesseract "@) { first.skip(10) } else { first })
        }
    }
}

/// The version in the answer to `tesseract --version`.
pub fn parse_version(stdout: &[u8], stderr: &[u8], success: bool) -> (r: Option<String>)
    ensures
        match r {
            Some(v) => version_text(stdout@, stderr@, success) == Some(v@),
            None => version_text(stdout@, stderr@, success) is None,
        },
{
    if !success && stdout.len() == 0 {
        return None;
    }
    let text = if stdout.len() == 0 {
        lossy_text(stderr)
    } else {
        lossy_text(stdout)
    };
    let ls = lines_of(text.as_str());
    if ls.len() == 0 {
        return None;
    }
    assert(views(ls@)[0] == ls@[0]@);
    let first = trim(ls[0].as_str());
    proof {
        reveal_strlit("tesseract ");
    }
    if starts_with(first.as_str(), "tesseract ") {
        let v = chars_of(first.as_str());
        let rest = vstd::slice::slice_subrange(v.as_slice(), 10, v.len());
        let r = crate::text::string_of(rest);
        Some(r)
    } else {
        Some(first)
    }
}

/// The entries of a `--list-langs` answer: trimmed lines that are not empty, not
/// the `List of …` heading, and hold no space.
pub open spec fn language_entries(ls: Seq<Seq<char>>) -> Seq<Seq<char>>
    decreases ls.len(),
{
    if ls.len() == 0 {
        Seq::empty()
    } else {
        let r = language_entries(ls.drop_last());
        let t = trimmed(ls.last());
        if t.len() > 0 && !has_prefix(t, "List of"@) && !has_char(t, ' ') {
            r.push(t)
        } else {
            r
        }
    }
}

/// The languages in the answer to `tesseract --list-langs` (stdout, then stderr).
pub open spec fn language_list(stdout: Seq<u8>, stderr: Seq<u8>) -> Seq<Seq<char>> {
    language_entries(lines(utf8_lossy(stdout) + utf8_lossy(stderr)))
}

/// The languages in the answer to `tesseract --list-langs`.
pub fn parse_languages(stdout: &[u8], stderr: &[u8]) -> (r: Vec<String>)
    ensures
        views(r@) == language_list(stdout@, stderr@),
{
    let mut text = lossy_text(stdout);
    let err = lossy_text(stderr);
    text.append(err.as_str());
    let ls = lines_of(text.as_str());
    let ghost lv = views(ls@);
    let mut r: Vec<String> = Vec::new();
    let mut i: usize = 0;
    proof {
        reveal_strlit("List of");
    }
    while i < ls.len()
        invariant
            i <= ls@.len(),
            lv == views(ls@),
            views(r@) == language_entries(lv.take(i as int)),
        decreases ls@.len() - i,
    {
        assert(lv.take(i + 1).drop_last() == lv.take(i as int));
        assert(lv.take(i + 1).last() == ls@[i as int]@);
        let t = trim(ls[i].as_str());
        let n = t.as_str().unicode_len();
        if n > 0 && !starts_with(t.as_str(), "List of") && !contains_char(t.as_str(), ' ') {
            let ghost before = r@;
            r.push(t);
            assert(views(r@) =~= views(before).push(trimmed(lv[i as int])));
        }
        i = i + 1;
    }
    assert(lv.take(lv.len() as int) == lv);
    r
}

/// The next step of the search for Tesseract.
#[derive(Debug)]
pub enum LocateAction {
    /// Try the candidate at this index.
    Probe(usize),
    /// The candidate at this index answered: use it.
    Found(usize),
    /// No candidate answered.
    NotFound,
}

/// The step after trying candidate `current` of `n`, which `answered` or not.
pub open spec fn next_action(n: nat, current: nat, answered: bool) -> LocateAction {
    if answered {
        LocateAction::Found(current as usize)
    } else if current + 1 < n {
        LocateAction::Probe((current + 1) as usize)
    } else {
        LocateAction::NotFound
    }
}

/// The first step of the search among `n` candidates.
pub fn locate_start(n: usize) -> (r: LocateAction)
    ensures
        n > 0 ==> r == LocateAction::Probe(0),
        n == 0 ==> r == LocateAction::NotFound,
{
    if n > 0 {
        LocateAction::Probe(0)
    } else {
        LocateAction::NotFound
    }
}

/// The step after trying candidate `current` of `n`: use it if it answered, else
/// try the next one, else give up.
pub fn locate_next(n: usize, current: usize, answered: bool) -> (r: LocateAction)
    requires
        current < n,
    ensures
        r == next_action(n as nat, current as nat, answered),
{
    if answered {
        LocateAction::Found(current)
    } else if current + 1 < n {
        LocateAction::Probe(current + 1)
    } else {
        LocateAction::NotFound
    }
}

/// Where the search ends when candidate `i` answers exactly when `answers[i]`,
/// starting at candidate `from`.
pub open spec fn search_from(answers: Seq<bool>, from: nat) -> LocateAction
    decreases answers.len() - from,
{
    if from >= answers.len() {
        LocateAction::NotFound
    } else {
        match next_action(answers.len(), from, answers[from as int]) {
            LocateAction::Probe(k) => search_from(answers, (from + 1) as nat),
            a => a,
        }
    }
}

/// The search ends at the first candidate that answers, or finds nothing when
/// none does.
pub proof fn lemma_search_finds_first(answers: Seq<bool>, from: nat)
    requires
        answers.len() <= usize::MAX,
    ensures
        match search_from(answers, from) {
            LocateAction::Found(k) => from <= k < answers.len() && answers[k as int]
                && forall|j: int| from <= j < k ==> !answers[j],
            LocateAction::NotFound => forall|j: int| from <= j < answers.len() ==> !answers[j],
            LocateAction::Probe(_) => false,
        },
    decreases answers.len() - from,
{
    if from < answers.len() {
        lemma_search_finds_first(answers, (from + 1) as nat);
    }
}

} // verus!
