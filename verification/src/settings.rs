//! The user's settings and the rules that keep them usable.

use vstd::prelude::*;
use crate::paths::{parent_of, parent_path};
use crate::text::{blank, is_blank, same_text, trim, trimmed};

verus! {

/// Persistent settings (stored as JSON by the application).
#[derive(Debug, Clone)]
pub struct Settings {
    /// Tesseract languages joined with `+` (e.g. `spa+eng`).
    pub languages: String,
    /// Resolution at which PDF pages are rasterized.
    pub dpi: u32,
    /// JPEG quality of the rasterized pages.
    pub jpeg_quality: u8,
    /// `"same"` = next to the original, `"custom"` = `output_dir`.
    pub output_mode: String,
    pub output_dir: Option<String>,
    /// Suffix of the resulting file: `Scan<suffix>.pdf`.
    pub suffix: String,
    /// Leave alone PDFs that already have a text layer (can be forced per file).
    pub skip_if_text: bool,
    /// Start OCR as soon as a file is added.
    pub auto_ocr: bool,
    /// `"system"` | `"light"` | `"dark"`.
    pub theme: String,
    /// Interface language: `"auto"` | `"en"` | `"es"`.
    pub ui_language: String,
    pub check_updates: bool,
    /// Iurefficient account (shared with the other apps).
    pub iure_domain: String,
    pub iure_email: String,
    /// WebDAV application password, only when the keychain is not available.
    pub iure_app_password: String,
    pub iure_last_folder: Option<String>,
}

/// The languages used when none are set.
pub open spec fn default_languages() -> Seq<char> {
    "spa+eng"@
}

/// The settings of a fresh installation.
pub open spec fn is_default(s: Settings) -> bool {
    &&& s.languages@ == default_languages()
    &&& s.dpi == 300
    &&& s.jpeg_quality == 80
    &&& s.output_mode@ == "same"@
    &&& s.output_dir is None
    &&& s.suffix@ == " - OCR"@
    &&& s.skip_if_text
    &&& !s.auto_ocr
    &&& s.theme@ == "system"@
    &&& s.ui_language@ == "auto"@
    &&& s.check_updates
    &&& s.iure_domain@.len() == 0
    &&& s.iure_email@.len() == 0
    &&& s.iure_app_password@.len() == 0
    &&& s.iure_last_folder is None
}

impl Default for Settings {
    fn default() -> (s: Self)
        ensures
            is_default(s),
    {
        Settings {
            languages: "spa+eng".to_string(),
            dpi: 300,
            jpeg_quality: 80,
            output_mode: "same".to_string(),
            output_dir: None,
            suffix: " - OCR".to_string(),
            skip_if_text: true,
            auto_ocr: false,
            theme: "system".to_string(),
            ui_language: "auto".to_string(),
            check_updates: true,
            iure_domain: String::new(),
            iure_email: String::new(),
            iure_app_password: String::new(),
            iure_last_folder: None,
        }
    }
}

/// `t` with every field but the three repaired ones equal to `s`'s.
pub open spec fn same_other_fields(s: Settings, t: Settings) -> bool {
    &&& t.output_mode == s.output_mode
    &&& t.output_dir == s.output_dir
    &&& t.suffix == s.suffix
    &&& t.skip_if_text == s.skip_if_text
    &&& t.auto_ocr == s.auto_ocr
    &&& t.theme == s.theme
    &&& t.ui_language == s.ui_language
    &&& t.check_updates == s.check_updates
    &&& t.iure_domain == s.iure_domain
    &&& t.iure_email == s.iure_email
    &&& t.iure_app_password == s.iure_app_password
    &&& t.iure_last_folder == s.iure_last_folder
}

/// The languages kept: the given ones, or the default when they are blank.
pub open spec fn kept_languages(l: Seq<char>) -> Seq<char> {
    if is_blank(l) {
        default_languages()
    } else {
        l
    }
}

/// A stored resolution outside 72..=600 falls back to 300.
pub open spec fn repaired_dpi(d: u32) -> u32 {
    if 72 <= d <= 600 { d } else { 300 }
}

/// A stored JPEG quality outside 30..=100 falls back to 80.
pub open spec fn repaired_quality(q: u8) -> u8 {
    if 30 <= q <= 100 { q } else { 80 }
}

/// A resolution sent by the interface is clamped to 72..=600.
pub open spec fn clamped_dpi(d: u32) -> u32 {
    if d < 72 { 72 } else if d > 600 { 600 } else { d }
}

/// A JPEG quality sent by the interface is clamped to 30..=100.
pub open spec fn clamped_quality(q: u8) -> u8 {
    if q < 30 { 30 } else if q > 100 { 100 } else { q }
}

/// Whether resolution and quality are within the accepted ranges and languages are set.
pub open spec fn usable(s: Settings) -> bool {
    &&& 72 <= s.dpi <= 600
    &&& 30 <= s.jpeg_quality <= 100
    &&& !is_blank(s.languages@)
}

/// The folder for OCR results: the trimmed custom folder when the mode is
/// `"custom"` and it is not blank, else the input's folder, else `"."`.
pub open spec fn output_folder(s: Settings, input_parent: Option<Seq<char>>) -> Seq<char> {
    let custom = if s.output_mode@ == "custom"@ {
        match s.output_dir {
            Some(d) => if is_blank(d@) { None } else { Some(trimmed(d@)) },
            None => None,
        }
    } else {
        None
    };
    match custom {
        Some(d) => d,
        None => match input_parent {
            Some(p) => p,
            None => seq!['.'],
        },
    }
}

/// What becomes of the WebDAV password typed in the settings once an account is set.
#[derive(Debug)]
pub enum PasswordAction {
    /// It is blank: the keychain entry is removed.
    Forget,
    /// It goes to the keychain, trimmed.
    Store(String),
}

impl Settings {
    /// The folder where the results of OCR on `input` go.
    pub fn output_dir_for(&self, input: &str) -> (r: String)
        ensures
            r@ == output_folder(*self, parent_path(input@)),
    {
        proof {
            reveal_strlit("custom");
            reveal_strlit(".");
        }
        if same_text(self.output_mode.as_str(), "custom") {
            match &self.output_dir {
                Some(d) => {
                    let t = trim(d.as_str());
                    if t.as_str().unicode_len() > 0 {
                        return t;
                    }
                },
                None => {},
            }
        }
        match parent_of(input) {
            Some(p) => p,
            None => ".".to_string(),
        }
    }

    /// Whether no Iurefficient account is set (domain or e-mail blank), so the
    /// account shared by another Iurefficient app is taken.
    pub fn account_missing(&self) -> (r: bool)
        ensures
            r == (is_blank(self.iure_domain@) || is_blank(self.iure_email@)),
    {
        blank(self.iure_domain.as_str()) || blank(self.iure_email.as_str())
    }

    /// What to do with the typed WebDAV password: forget the stored one when it is
    /// blank, else store it trimmed.
    pub fn password_action(&self) -> (r: PasswordAction)
        ensures
            is_blank(self.iure_app_password@) ==> r is Forget,
            !is_blank(self.iure_app_password@) ==> (r matches PasswordAction::Store(p) && p@ == trimmed(
                self.iure_app_password@,
            )),
    {
        let t = trim(self.iure_app_password.as_str());
        if t.as_str().unicode_len() == 0 {
            PasswordAction::Forget
        } else {
            PasswordAction::Store(t)
        }
    }

    fn fix_languages(&mut self)
        ensures
            final(self).languages@ == kept_languages(old(self).languages@),
            final(self).dpi == old(self).dpi,
            final(self).jpeg_quality == old(self).jpeg_quality,
            same_other_fields(*old(self), *final(self)),
    {
        if blank(self.languages.as_str()) {
            self.languages = "spa+eng".to_string();
        }
    }

    /// The settings read from disk (`None` when there was no readable file), repaired.
    pub fn from_stored(stored: Option<Settings>) -> (s: Settings)
        ensures
            match stored {
                Some(t) => s.languages@ == kept_languages(t.languages@) && s.dpi == repaired_dpi(t.dpi)
                    && s.jpeg_quality == repaired_quality(t.jpeg_quality) && same_other_fields(t, s),
                None => is_default(s),
            },
    {
        let mut s = match stored {
            Some(t) => t,
            None => Settings::default(),
        };
        s.fix_languages();
        if !(72 <= s.dpi && s.dpi <= 600) {
            s.dpi = 300;
        }
        if !(30 <= s.jpeg_quality && s.jpeg_quality <= 100) {
            s.jpeg_quality = 80;
        }
        proof {
            reveal_strlit("spa+eng");
        }
        s
    }

    /// The settings the interface sent, sanitized before they are saved.
    pub fn sanitized(self) -> (s: Settings)
        ensures
            s.languages@ == kept_languages(self.languages@),
            s.dpi == clamped_dpi(self.dpi),
            s.jpeg_quality == clamped_quality(self.jpeg_quality),
            same_other_fields(self, s),
    {
        let mut s = self;
        s.fix_languages();
        if s.dpi < 72 {
            s.dpi = 72;
        } else if s.dpi > 600 {
            s.dpi = 600;
        }
        if s.jpeg_quality < 30 {
            s.jpeg_quality = 30;
        } else if s.jpeg_quality > 100 {
            s.jpeg_quality = 100;
        }
        s
    }
}


/// The default languages are not blank.
proof fn lemma_default_languages_set()
    ensures
        !is_blank(default_languages()),
{
    reveal_strlit("spa+eng");
    let l = default_languages();
    assert(!crate::text::is_white_space(l[0]));
    assert(crate::text::trim_start(l) == l);
    assert(!crate::text::is_white_space(l.last()));
    assert(crate::text::trim_end(l) == l);
}

/// Whatever the interface sends, the sanitized settings are usable: languages set,
/// resolution in 72..=600 and quality in 30..=100.
pub proof fn lemma_sanitized_usable(languages: Seq<char>, dpi: u32, quality: u8)
    ensures
        !is_blank(kept_languages(languages)),
        72 <= clamped_dpi(dpi) <= 600,
        30 <= clamped_quality(quality) <= 100,
{
    lemma_default_languages_set();
}

/// Settings saved after sanitizing read back unchanged: repairing what sanitizing
/// produced changes nothing, and sanitizing twice is sanitizing once.
pub proof fn lemma_saved_settings_load_back(languages: Seq<char>, dpi: u32, quality: u8)
    ensures
        kept_languages(kept_languages(languages)) == kept_languages(languages),
        repaired_dpi(clamped_dpi(dpi)) == clamped_dpi(dpi),
        repaired_quality(clamped_quality(quality)) == clamped_quality(quality),
        clamped_dpi(clamped_dpi(dpi)) == clamped_dpi(dpi),
        clamped_quality(clamped_quality(quality)) == clamped_quality(quality),
{
    lemma_default_languages_set();
}

/// Repairing stored settings twice is repairing them once.
pub proof fn lemma_repair_idempotent(languages: Seq<char>, dpi: u32, quality: u8)
    ensures
        kept_languages(kept_languages(languages)) == kept_languages(languages),
        repaired_dpi(repaired_dpi(dpi)) == repaired_dpi(dpi),
        repaired_quality(repaired_quality(quality)) == repaired_quality(quality),
{
    lemma_default_languages_set();
}

/// The default settings are usable and left as they are by loading and saving.
pub proof fn lemma_default_settings_kept(s: Settings)
    requires
        is_default(s),
    ensures
        kept_languages(s.languages@) == s.languages@,
        repaired_dpi(s.dpi) == s.dpi,
        repaired_quality(s.jpeg_quality) == s.jpeg_quality,
        clamped_dpi(s.dpi) == s.dpi,
        clamped_quality(s.jpeg_quality) == s.jpeg_quality,
{
    lemma_default_languages_set();
}


/// Unless the mode is `"custom"`, results go next to the input (its folder, or `"."`
/// when it has none), whatever custom folder is stored.
pub proof fn lemma_results_next_to_input(s: Settings, input_parent: Option<Seq<char>>)
    requires
        s.output_mode@ != "custom"@,
    ensures
        output_folder(s, input_parent) == match input_parent {
            Some(p) => p,
            None => seq!['.'],
        },
{
}

/// In mode `"custom"` with a folder that is not blank, results go to that folder,
/// trimmed, wherever the input is.
pub proof fn lemma_custom_folder_used(s: Settings, input_parent: Option<Seq<char>>)
    requires
        s.output_mode@ == "custom"@,
        s.output_dir matches Some(d) && !is_blank(d@),
    ensures
        output_folder(s, input_parent) == trimmed(s.output_dir->0@),
{
}

} // verus!
