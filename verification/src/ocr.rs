//! The OCR job: what kind of input it is, when a PDF is left alone because it
//! already has text, how the pages and the results are named, what Tesseract is
//! asked to do and how its progress is read. Rasterizing (pdfium) and running
//! Tesseract are done by the application with what these functions decide.

use vstd::prelude::*;
use crate::paths::{extension_of, extension_of_path, file_stem, file_stem_of, free_path, candidate_paths, first_free_from, joined, join, replace_extension, with_extension};
use crate::settings::{Settings, output_folder};
use crate::paths::parent_path;
use crate::text::{
    ascii_lowercase, chars_of, decimal, decimal_string, is_white_space, lowered, push_char, same_text, white_space,
    zero_padded, zero_padded_string, trim, trimmed, has_prefix, starts_with, first_word, first_word_of,
    parse_usize, parse_usize_str, count_matches, count_matches_str, lines, lines_of, views,
};

verus! {

/// Extensions (lower case) of the image files that are recognized directly.
pub open spec fn image_extensions() -> Seq<Seq<char>> {
    seq!["jpg"@, "jpeg"@, "png"@, "tif"@, "tiff"@, "bmp"@, "webp"@, "gif"@]
}

/// Extensions (lower case) of every file the application accepts.
pub open spec fn supported_extensions_spec() -> Seq<Seq<char>> {
    seq!["pdf"@].add(image_extensions())
}

/// Extensions of the image files that are recognized directly.
pub fn image_extension_list() -> (r: Vec<&'static str>)
    ensures
        r@.map_values(|e: &str| e@) == image_extensions(),
{
    let r = vec!["jpg", "jpeg", "png", "tif", "tiff", "bmp", "webp", "gif"];
    assert(r@.map_values(|e: &str| e@) =~= image_extensions());
    r
}

/// Extensions of every file the application accepts: `pdf` and the images.
pub fn supported_extensions() -> (r: Vec<&'static str>)
    ensures
        r@.map_values(|e: &str| e@) == supported_extensions_spec(),
{
    let r = vec!["pdf", "jpg", "jpeg", "png", "tif", "tiff", "bmp", "webp", "gif"];
    assert(r@.map_values(|e: &str| e@) =~= supported_extensions_spec());
    r
}

/// Whether the extension `e` (any case) is that of an image.
pub open spec fn is_image_extension(e: Seq<char>) -> bool {
    image_extensions().contains(lowered(e))
}

/// Whether the extension `e` (any case) is `pdf`.
pub open spec fn is_pdf_extension(e: Seq<char>) -> bool {
    lowered(e) == "pdf"@
}

/// Whether `path` names an image file, by its extension.
pub open spec fn is_image_path(path: Seq<char>) -> bool {
    match extension_of(path) {
        Some(e) => is_image_extension(e),
        None => false,
    }
}

/// Whether `path` names a PDF, by its extension.
pub open spec fn is_pdf_path(path: Seq<char>) -> bool {
    match extension_of(path) {
        Some(e) => is_pdf_extension(e),
        None => false,
    }
}

/// Whether the extension `e` is that of an image.
pub fn image_extension(e: &str) -> (r: bool)
    ensures
        r == is_image_extension(e@),
{
    let l = ascii_lowercase(e);
    let list = image_extension_list();
    let mut i: usize = 0;
    while i < list.len()
        invariant
            i <= list@.len(),
            list@.map_values(|e: &str| e@) == image_extensions(),
            l@ == lowered(e@),
            forall|j: int| 0 <= j < i ==> image_extensions()[j] != l@,
        decreases list@.len() - i,
    {
        assert(list@.map_values(|e: &str| e@)[i as int] == list@[i as int]@);
        if same_text(l.as_str(), list[i]) {
            assert(image_extensions()[i as int] == l@);
            return true;
        }
        i = i + 1;
    }
    proof {
        if image_extensions().contains(l@) {
            let j = choose|j: int| 0 <= j < image_extensions().len() && image_extensions()[j] == l@;
            assert(image_extensions()[j] == l@);
        }
    }
    false
}

/// Whether the extension `e` is `pdf`, in any case.
pub fn pdf_extension(e: &str) -> (r: bool)
    ensures
        r == is_pdf_extension(e@),
{
    let l = ascii_lowercase(e);
    same_text(l.as_str(), "pdf")
}

/// Whether `path` names an image file.
pub fn is_image(path: &str) -> (r: bool)
    ensures
        r == is_image_path(path@),
{
    match extension_of_path(path) {
        Some(e) => image_extension(e.as_str()),
        None => false,
    }
}

/// Whether `path` names a PDF.
pub fn is_pdf(path: &str) -> (r: bool)
    ensures
        r == is_pdf_path(path@),
{
    match extension_of_path(path) {
        Some(e) => pdf_extension(e.as_str()),
        None => false,
    }
}

/// No extension is both that of a PDF and that of an image.
pub proof fn lemma_pdf_not_image(e: Seq<char>)
    ensures
        !(is_pdf_extension(e) && is_image_extension(e)),
{
    if is_pdf_extension(e) && is_image_extension(e) {
        reveal_strlit("pdf");
        reveal_strlit("jpg");
        reveal_strlit("jpeg");
        reveal_strlit("png");
        reveal_strlit("tif");
        reveal_strlit("tiff");
        reveal_strlit("bmp");
        reveal_strlit("webp");
        reveal_strlit("gif");
        let j = choose|j: int| 0 <= j < image_extensions().len() && image_extensions()[j] == lowered(e);
        assert(image_extensions()[j] == "pdf"@);
        assert(image_extensions()[j][0] != 'p' || image_extensions()[j].len() != 3 || image_extensions()[j][1] != 'd');
    }
}

/// An extension is accepted exactly when it is that of a PDF or of an image.
pub proof fn lemma_supported_is_pdf_or_image(e: Seq<char>)
    ensures
        supported_extensions_spec().contains(lowered(e)) <==> (is_pdf_extension(e) || is_image_extension(e)),
{
    let s = supported_extensions_spec();
    let l = lowered(e);
    if s.contains(l) {
        let j = choose|j: int| 0 <= j < s.len() && s[j] == l;
        if j > 0 {
            assert(image_extensions()[j - 1] == l);
        }
    }
    if is_image_extension(e) {
        let j = choose|j: int| 0 <= j < image_extensions().len() && image_extensions()[j] == l;
        assert(s[j + 1] == l);
    }
    if is_pdf_extension(e) {
        assert(s[0] == l);
    }
}


/// A PDF with at least this many visible characters on its first three pages already
/// has text (the threshold the Iurefficient server uses too).
pub const TEXT_LAYER_MIN_CHARS: usize = 100;

/// Below this many recognized characters the result gets a warning note.
pub const LITTLE_TEXT_CHARS: usize = 40;

/// The number of characters of `s` that are not white space.
pub open spec fn count_visible(s: Seq<char>) -> nat
    decreases s.len(),
{
    if s.len() == 0 {
        0
    } else {
        count_visible(s.drop_last()) + if is_white_space(s.last()) { 0nat } else { 1nat }
    }
}

proof fn lemma_count_visible_le(s: Seq<char>)
    ensures
        count_visible(s) <= s.len(),
    decreases s.len(),
{
    if s.len() > 0 {
        lemma_count_visible_le(s.drop_last());
    }
}

/// The number of characters of `text` that are not white space.
pub fn visible_chars(text: &str) -> (n: usize)
    ensures
        n == count_visible(text@),
{
    let v = chars_of(text);
    let mut n: usize = 0;
    let mut i: usize = 0;
    while i < v.len()
        invariant
            i <= v@.len(),
            v@ == text@,
            n == count_visible(v@.take(i as int)),
        decreases v@.len() - i,
    {
        assert(v@.take(i + 1).drop_last() == v@.take(i as int));
        proof {
            lemma_count_visible_le(v@.take(i as int));
        }
        if !white_space(v[i]) {
            n = n + 1;
        }
        i = i + 1;
    }
    assert(v@.take(v@.len() as int) == v@);
    n
}

/// Whether a PDF whose first pages hold `existing` visible characters is left alone.
pub open spec fn spec_should_skip(existing: usize, force: bool) -> bool {
    existing >= TEXT_LAYER_MIN_CHARS && !force
}

/// Whether a PDF whose first three pages hold `existing` visible characters is left
/// alone (it already has text and OCR was not forced).
pub fn should_skip(existing: usize, force: bool) -> (r: bool)
    ensures
        r == spec_should_skip(existing, force),
{
    existing >= TEXT_LAYER_MIN_CHARS && !force
}

/// The file name of the rasterized page `index` (0-based): `p00001.jpg`, `p00002.jpg`, …
pub open spec fn page_image_file(index: nat) -> Seq<char> {
    seq!['p'] + zero_padded(index + 1, 5) + ".jpg"@
}

/// The file name of the rasterized page `index` (0-based).
pub fn page_image_name(index: u64) -> (r: String)
    requires
        index < u64::MAX,
    ensures
        r@ == page_image_file(index as nat),
{
    let mut r = String::new();
    push_char(&mut r, 'p');
    let d = zero_padded_string(index + 1, 5);
    r.append(d.as_str());
    r.append(".jpg");
    r
}

/// The temporary folder name of a job: `iureocr-<job id>`.
pub fn work_dir_name(job_id: &str) -> (r: String)
    ensures
        r@ == "iureocr-"@ + job_id@,
{
    let mut r = "iureocr-".to_string();
    r.append(job_id);
    r
}

/// The name the results are given: the input's file stem, or `fallback` when it has none.
pub fn input_stem(input: &str, fallback: &str) -> (r: String)
    ensures
        r@ == match file_stem(input@) {
            Some(s) => s,
            None => fallback@,
        },
{
    match file_stem_of(input) {
        Some(s) => s,
        None => fallback.to_string(),
    }
}

/// What an OCR job gets as input.
#[derive(Debug)]
pub enum InputKind {
    /// A PDF: its pages are rasterized first.
    Pdf,
    /// An image: it goes to Tesseract as it is.
    Image,
    /// Anything else is refused.
    Unsupported,
}

/// What kind of input `path` is, by its extension (a PDF first).
pub fn input_kind(path: &str) -> (k: InputKind)
    ensures
        is_pdf_path(path@) ==> k is Pdf,
        !is_pdf_path(path@) && is_image_path(path@) ==> k is Image,
        !is_pdf_path(path@) && !is_image_path(path@) ==> k is Unsupported,
{
    if is_pdf(path) {
        InputKind::Pdf
    } else if is_image(path) {
        InputKind::Image
    } else {
        InputKind::Unsupported
    }
}

/// A note attached to an OCR result.
#[derive(Debug)]
pub enum OutcomeNote {
    /// The PDF already has a text layer; it can be forced.
    AlreadyHasText,
    /// Very little text was recognized.
    LittleText,
}

/// The result of an OCR job (the elapsed time is added by the application).
#[derive(Debug)]
pub struct Outcome {
    /// The PDF was left alone because it already had text (no files were written).
    pub skipped: bool,
    pub pdf_path: Option<String>,
    pub txt_path: Option<String>,
    pub pages: usize,
    pub chars: usize,
    pub note: Option<OutcomeNote>,
}

impl Outcome {
    /// The result for a PDF left alone because its first pages hold `existing`
    /// visible characters.
    pub fn skipped(existing: usize) -> (o: Outcome)
        ensures
            o.skipped,
            o.pdf_path is None,
            o.txt_path is None,
            o.pages == 0,
            o.chars == existing,
            o.note == Some(OutcomeNote::AlreadyHasText),
    {
        Outcome {
            skipped: true,
            pdf_path: None,
            txt_path: None,
            pages: 0,
            chars: existing,
            note: Some(OutcomeNote::AlreadyHasText),
        }
    }

    /// The result of a finished job: `pages` pages, `chars` visible characters
    /// recognized, written to `pdf_path` and `txt_path`.
    pub fn finished(pdf_path: String, txt_path: String, pages: usize, chars: usize) -> (o: Outcome)
        ensures
            !o.skipped,
            o.pdf_path == Some(pdf_path),
            o.txt_path == Some(txt_path),
            o.pages == pages,
            o.chars == chars,
            o.note == (if chars < LITTLE_TEXT_CHARS { Some(OutcomeNote::LittleText) } else { None }),
    {
        Outcome {
            skipped: false,
            pdf_path: Some(pdf_path),
            txt_path: Some(txt_path),
            pages,
            chars,
            note: if chars < LITTLE_TEXT_CHARS { Some(OutcomeNote::LittleText) } else { None },
        }
    }
}

/// Where the searchable PDF and the text of a job go: a free `<stem><suffix>.pdf` in
/// `output_dir`, and the same path with the extension `txt`.
pub fn result_paths(output_dir: &str, stem: &str, suffix: &str) -> (r: (String, String))
    ensures
        exists|taken: Seq<bool>|
            taken.len() == 999 && r.0@ == first_free_from(candidate_paths(output_dir@, stem@, suffix@, "pdf"@), taken, 0),
        r.1@ == with_extension(r.0@, "txt"@),
{
    let pdf = free_path(output_dir, stem, suffix, "pdf");
    proof {
        reveal_strlit("txt");
    }
    let txt = replace_extension(pdf.as_str(), "txt");
    (pdf, txt)
}


/// An OCR job.
#[derive(Debug)]
pub struct Request {
    pub job_id: String,
    pub input: String,
    pub languages: String,
    pub dpi: u32,
    pub jpeg_quality: u8,
    pub output_dir: String,
    pub suffix: String,
    /// Process the PDF even if it already has a text layer.
    pub force: bool,
}

impl Request {
    /// The job for `input` under `settings`: their languages, resolution, quality and
    /// suffix, and the output folder they choose for this input.
    pub fn for_file(job_id: String, input: String, settings: &Settings, force: bool) -> (r: Request)
        ensures
            r.job_id == job_id,
            r.input == input,
            r.languages == settings.languages,
            r.dpi == settings.dpi,
            r.jpeg_quality == settings.jpeg_quality,
            r.output_dir@ == output_folder(*settings, parent_path(input@)),
            r.suffix == settings.suffix,
            r.force == force,
    {
        let output_dir = settings.output_dir_for(input.as_str());
        Request {
            job_id,
            input,
            languages: settings.languages.clone(),
            dpi: settings.dpi,
            jpeg_quality: settings.jpeg_quality,
            output_dir,
            suffix: settings.suffix.clone(),
            force,
        }
    }
}

/// Why an OCR job stopped.
#[derive(Debug)]
pub enum OcrError {
    /// The user cancelled it.
    Cancelled,
    /// The PDF has no pages.
    NoPages,
    /// The input is neither a PDF nor a supported image.
    Unsupported,
    /// Tesseract ended with an error: its exit status and the last lines it wrote.
    TesseractFailed { status: String, tail: String },
    /// Tesseract ended without writing the PDF.
    NoPdfProduced,
}

/// Given whether the job was cancelled, stop it (`Cancelled`) or go on.
pub fn stop_if_cancelled(cancelled: bool) -> (r: Result<(), OcrError>)
    ensures
        cancelled ==> r == Err::<(), OcrError>(OcrError::Cancelled),
        !cancelled ==> r is Ok,
{
    if cancelled {
        return Err(OcrError::Cancelled);
    }
    Ok(())
}

/// Stops the job if it was cancelled. The flag is set from another thread, so
/// either answer may come back; a stop is always `Cancelled`.
pub fn check_cancel(cancel: &std::sync::atomic::AtomicBool) -> (r: Result<(), OcrError>)
    ensures
        r is Err ==> r == Err::<(), OcrError>(OcrError::Cancelled),
{
    stop_if_cancelled(cancel.load(std::sync::atomic::Ordering::Relaxed))
}

/// The pages of a PDF: none is an error.
pub fn require_pages(total: usize) -> (r: Result<(), OcrError>)
    ensures
        total == 0 <==> r == Err::<(), OcrError>(OcrError::NoPages),
        total > 0 <==> r is Ok,
{
    if total == 0 {
        Err(OcrError::NoPages)
    } else {
        Ok(())
    }
}

/// The paths one per line, each ended by a newline.
pub open spec fn lines_ended(paths: Seq<Seq<char>>) -> Seq<char>
    decreases paths.len(),
{
    if paths.len() == 0 {
        Seq::empty()
    } else {
        lines_ended(paths.drop_last()) + paths.last() + seq!['\n']
    }
}

/// The list of page images handed to Tesseract: the paths joined by newlines, then a
/// final newline (a lone newline for no paths).
pub open spec fn page_list_text(paths: Seq<Seq<char>>) -> Seq<char> {
    if paths.len() == 0 {
        seq!['\n']
    } else {
        lines_ended(paths)
    }
}

/// The list of page images handed to Tesseract (one per line).
pub fn page_list(paths: &Vec<String>) -> (r: String)
    ensures
        r@ == page_list_text(paths@.map_values(|p: String| p@)),
{
    let ghost vs = paths@.map_values(|p: String| p@);
    let mut r = String::new();
    let mut i: usize = 0;
    while i < paths.len()
        invariant
            i <= paths@.len(),
            vs == paths@.map_values(|p: String| p@),
            r@ == lines_ended(vs.take(i as int)),
        decreases paths@.len() - i,
    {
        assert(vs.take(i + 1).drop_last() == vs.take(i as int));
        assert(vs.take(i + 1).last() == paths@[i as int]@);
        r.append(paths[i].as_str());
        push_char(&mut r, '\n');
        i = i + 1;
    }
    assert(vs.take(vs.len() as int) == vs);
    if paths.len() == 0 {
        push_char(&mut r, '\n');
    }
    r
}

/// The input Tesseract is given: the only image itself, or the list file for any
/// other number of images.
pub fn tesseract_input(images: &Vec<String>, list_path: &str) -> (r: String)
    ensures
        images@.len() == 1 ==> r == images@[0],
        images@.len() != 1 ==> r@ == list_path@,
{
    if images.len() == 1 {
        images[0].clone()
    } else {
        list_path.to_string()
    }
}

/// The path of the list file: `<outbase>` with the extension `lista.txt`.
pub fn list_path_for(outbase: &str) -> (r: String)
    ensures
        r@ == with_extension(outbase@, "lista.txt"@),
{
    proof {
        reveal_strlit("lista.txt");
    }
    replace_extension(outbase, "lista.txt")
}

/// The arguments Tesseract is run with.
pub open spec fn tesseract_arguments(input: Seq<char>, outbase: Seq<char>, languages: Seq<char>, dpi: u32, tessdata: Option<Seq<char>>) -> Seq<Seq<char>> {
    let base = seq![input, outbase, "-l"@, languages, "--dpi"@, decimal(dpi as nat)];
    let data = match tessdata {
        Some(d) => seq!["--tessdata-dir"@, d],
        None => Seq::empty(),
    };
    base + data + seq!["-c"@, "tessedit_create_pdf=1"@, "-c"@, "tessedit_create_txt=1"@]
}

/// The arguments Tesseract is run with: input, output base, languages and resolution,
/// the model folder when there is one, and the requests for a PDF and a text file.
pub fn tesseract_args(input: &str, outbase: &str, languages: &str, dpi: u32, tessdata: Option<&str>) -> (r: Vec<String>)
    ensures
        r@.map_values(|a: String| a@) == tesseract_arguments(input@, outbase@, languages@, dpi, match tessdata {
            Some(d) => Some(d@),
            None => None,
        }),
{
    let mut r: Vec<String> = Vec::new();
    r.push(input.to_string());
    r.push(outbase.to_string());
    r.push("-l".to_string());
    r.push(languages.to_string());
    r.push("--dpi".to_string());
    r.push(decimal_string(dpi as u64));
    match tessdata {
        Some(d) => {
            r.push("--tessdata-dir".to_string());
            r.push(d.to_string());
        },
        None => {},
    }
    r.push("-c".to_string());
    r.push("tessedit_create_pdf=1".to_string());
    r.push("-c".to_string());
    r.push("tessedit_create_txt=1".to_string());
    assert(r@.map_values(|a: String| a@) =~= tesseract_arguments(input@, outbase@, languages@, dpi, match tessdata {
        Some(d) => Some(d@),
        None => None,
    }));
    r
}

/// The environment Tesseract is run with: `TESSDATA_PREFIX` pointing at the model
/// folder when there is one (its `pdf.ttf` lives there), and at most four threads.
pub fn tesseract_env(tessdata: Option<&str>) -> (r: Vec<(String, String)>)
    ensures
        r@.map_values(|kv: (String, String)| (kv.0@, kv.1@)) == match tessdata {
            Some(d) => seq![("TESSDATA_PREFIX"@, d@), ("OMP_THREAD_LIMIT"@, "4"@)],
            None => seq![("OMP_THREAD_LIMIT"@, "4"@)],
        },
{
    let mut r: Vec<(String, String)> = Vec::new();
    match tessdata {
        Some(d) => {
            r.push(("TESSDATA_PREFIX".to_string(), d.to_string()));
        },
        None => {},
    }
    r.push(("OMP_THREAD_LIMIT".to_string(), "4".to_string()));
    assert(r@.map_values(|kv: (String, String)| (kv.0@, kv.1@)) =~= match tessdata {
        Some(d) => seq![("TESSDATA_PREFIX"@, d@), ("OMP_THREAD_LIMIT"@, "4"@)],
        None => seq![("OMP_THREAD_LIMIT"@, "4"@)],
    });
    r
}


/// The page Tesseract announces on a line of its output (`Page 3`, or `Page 1 of 3`
/// in some versions), if any.
pub open spec fn announced_page(line: Seq<char>) -> Option<usize> {
    let t = trimmed(line);
    if has_prefix(t, "Page "@) {
        parse_usize(first_word(t.skip(5)))
    } else {
        None
    }
}

/// The page announced on a line of Tesseract's output.
pub fn announced_page_of(line: &str) -> (r: Option<usize>)
    ensures
        r == announced_page(line@),
{
    let t = trim(line);
    proof {
        reveal_strlit("Page ");
    }
    if !starts_with(t.as_str(), "Page ") {
        return None;
    }
    let v = chars_of(t.as_str());
    let rest = vstd::slice::slice_subrange(v.as_slice(), 5, v.len());
    assert(rest@ == t@.skip(5));
    let w = first_word_of(rest);
    parse_usize_str(w.as_str())
}

/// How many bytes of Tesseract's messages are kept for an error report.
pub const LOG_LIMIT: usize = 8000;

/// Adds one line of Tesseract's messages to `log`, while it holds fewer than
/// `LOG_LIMIT` bytes.
pub fn append_log(log: &mut String, line: &str)
    ensures
        old(log)@.len() <= final(log)@.len(),
        (vstd::utf8::encode_utf8(old(log)@).len() as usize) < LOG_LIMIT ==> final(log)@ == old(log)@ + line@ + seq!['\n'],
        (vstd::utf8::encode_utf8(old(log)@).len() as usize) >= LOG_LIMIT ==> final(log)@ == old(log)@,
{
    if log.as_str().len() < LOG_LIMIT {
        log.append(line);
        push_char(log, '\n');
    }
}

/// How many pages Tesseract has announced in `log`: the lines that start with `Page `.
pub open spec fn pages_announced(log: Seq<char>) -> nat {
    count_matches(log, "\nPage "@) + if has_prefix(log, "Page "@) { 1nat } else { 0nat }
}

/// How many pages Tesseract has announced so far.
pub fn pages_announced_in(log: &str) -> (r: usize)
    ensures
        r == pages_announced(log@),
{
    proof {
        reveal_strlit("\nPage ");
    }
    let n = count_matches_str(log, "\nPage ");
    let first = starts_with(log, "Page ");
    if first { n + 1 } else { n }
}

/// What to report after Tesseract has announced `done` pages when `last` were
/// reported before: the new count to remember, and the progress to show (capped at
/// `total`), if it changed.
pub fn progress_step(last: usize, done: usize, total: usize) -> (r: (usize, Option<usize>))
    ensures
        done == last ==> r == (last, None::<usize>),
        done != last ==> r == (done, Some(if done < total { done } else { total })),
{
    if done != last {
        (done, Some(if done < total { done } else { total }))
    } else {
        (last, None)
    }
}

/// The pieces of `l` joined with `sep` between them.
pub open spec fn joined_with(l: Seq<Seq<char>>, sep: Seq<char>) -> Seq<char>
    decreases l.len(),
{
    if l.len() == 0 {
        Seq::empty()
    } else if l.len() == 1 {
        l[0]
    } else {
        joined_with(l.drop_last(), sep) + sep + l.last()
    }
}

/// The end of Tesseract's messages shown with an error: the last six lines, joined
/// with ` · `.
pub open spec fn log_tail_text(log: Seq<char>) -> Seq<char> {
    let ls = lines(log);
    let from = if ls.len() > 6 { ls.len() - 6 } else { 0 };
    joined_with(ls.skip(from), " · "@)
}

/// The last six lines of Tesseract's messages, joined with ` · `.
pub fn log_tail(log: &str) -> (r: String)
    ensures
        r@ == log_tail_text(log@),
{
    let ls = lines_of(log);
    let ghost vs = views(ls@);
    let from: usize = if ls.len() > 6 { ls.len() - 6 } else { 0 };
    let ghost tail = vs.skip(from as int);
    let mut r = String::new();
    let mut i: usize = from;
    while i < ls.len()
        invariant
            from <= i <= ls@.len(),
            vs == views(ls@),
            tail == vs.skip(from as int),
            r@ == joined_with(tail.take(i - from), " · "@),
        decreases ls@.len() - i,
    {
        let ghost k = i - from;
        assert(tail.take(k + 1).drop_last() == tail.take(k));
        assert(tail.take(k + 1).last() == ls@[i as int]@);
        if i > from {
            r.append(" · ");
        } else {
            assert(tail.take(k + 1).len() == 1);
        }
        r.append(ls[i].as_str());
        i = i + 1;
    }
    assert(tail.take(tail.len() as int) == tail);
    r
}


/// Forcing OCR always processes the file, whatever text it already has; without
/// forcing, a file is left alone exactly when its first pages hold at least 100
/// visible characters.
pub proof fn lemma_forcing_always_processes(existing: usize)
    ensures
        !spec_should_skip(existing, true),
        spec_should_skip(existing, false) <==> existing >= 100,
{
}

} // verus!
