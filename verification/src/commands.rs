//! The small decisions behind the application's commands: arguments it was
//! opened with, text shown to the user, account names and labels.

use vstd::prelude::*;
use crate::text::{blank, chars_of, has_char, has_prefix, is_blank, push_char, same_text, starts_with, string_of, trim, trimmed};

verus! {

/// The platform part of the update target: `darwin` for macOS, else the OS name.
pub open spec fn update_target_text(os: Seq<char>, arch: Seq<char>) -> Seq<char> {
    (if os == "macos"@ { "darwin"@ } else { os }) + seq!['-'] + arch
}

/// The updater's target name, `<os>-<arch>` with `macos` written `darwin`.
pub fn update_target(os: &str, arch: &str) -> (r: String)
    ensures
        r@ == update_target_text(os@, arch@),
{
    let mut r = if same_text(os, "macos") {
        "darwin".to_string()
    } else {
        os.to_string()
    };
    push_char(&mut r, '-');
    r.append(arch);
    r
}

/// A text file shown in the interface: cut to `max` characters, with a newline and
/// `…` after the cut, when it is longer.
pub open spec fn shown_text(t: Seq<char>, max: Option<usize>) -> Seq<char> {
    match max {
        Some(n) => if t.len() > n { t.take(n as int) + "\n…"@ } else { t },
        None => t,
    }
}

/// The text of a file as shown in the interface.
pub fn truncate_text(t: &str, max_chars: Option<usize>) -> (r: String)
    ensures
        r@ == shown_text(t@, max_chars),
{
    match max_chars {
        Some(n) => {
            let v = chars_of(t);
            if v.len() > n {
                let head = vstd::slice::slice_subrange(v.as_slice(), 0, n);
                let mut r = string_of(head);
                r.append("\n…");
                assert(head@ == t@.take(n as int));
                r
            } else {
                t.to_string()
            }
        },
        None => t.to_string(),
    }
}

/// The arguments after the program name that do not start with `-` (`keep_links`
/// false also drops those holding `://`).
pub open spec fn path_arguments(args: Seq<Seq<char>>, keep_links: bool) -> Seq<Seq<char>>
    decreases args.len(),
{
    if args.len() <= 1 {
        Seq::empty()
    } else {
        let r = path_arguments(args.drop_last(), keep_links);
        let a = args.last();
        if !has_prefix(a, seq!['-']) && (keep_links || !contains_text(a, "://"@)) {
            r.push(a)
        } else {
            r
        }
    }
}

/// Whether `p` occurs in `s`.
pub open spec fn contains_text(s: Seq<char>, p: Seq<char>) -> bool {
    exists|i: int| 0 <= i && i + p.len() <= s.len() && #[trigger] s.subrange(i, i + p.len()) == p
}

fn contains_link_marker(s: &str) -> (r: bool)
    ensures
        r == contains_text(s@, "://"@),
{
    proof {
        reveal_strlit("://");
    }
    let v = chars_of(s);
    let mut i: usize = 0;
    assert("://"@ =~= seq![':', '/', '/']);
    while v.len() >= 3 && i <= v.len() - 3
        invariant
            v@ == s@,
            "://"@ == seq![':', '/', '/'],
            forall|j: int| 0 <= j < i && j + 3 <= v@.len() ==> #[trigger] v@.subrange(j, j + 3) != "://"@,
        decreases v@.len() - i,
    {
        if v[i] == ':' && v[i + 1] == '/' && v[i + 2] == '/' {
            assert(v@.subrange(i as int, i + 3) =~= "://"@);
            return true;
        }
        assert(v@.subrange(i as int, i + 3) != "://"@) by {
            if v@.subrange(i as int, i + 3) == "://"@ {
                assert(v@.subrange(i as int, i + 3)[0] == v@[i as int]);
                assert(v@.subrange(i as int, i + 3)[1] == v@[i + 1]);
                assert(v@.subrange(i as int, i + 3)[2] == v@[i + 2]);
            }
        }
        i = i + 1;
    }
    false
}

/// The files the application was opened with: the arguments after the program
/// name that do not start with `-`; with `keep_links` false (a second instance
/// passing its arguments on), `iureocr://` links are dropped too.
pub fn path_args(args: &Vec<String>, keep_links: bool) -> (r: Vec<String>)
    ensures
        r@.map_values(|a: String| a@) == path_arguments(args@.map_values(|a: String| a@), keep_links),
{
    let ghost av = args@.map_values(|a: String| a@);
    let mut r: Vec<String> = Vec::new();
    if args.len() <= 1 {
        return r;
    }
    let mut i: usize = 1;
    assert(path_arguments(av.take(1), keep_links) =~= Seq::<Seq<char>>::empty());
    while i < args.len()
        invariant
            1 <= i <= args@.len(),
            av == args@.map_values(|a: String| a@),
            r@.map_values(|a: String| a@) == path_arguments(av.take(i as int), keep_links),
        decreases args@.len() - i,
    {
        assert(av.take(i + 1).drop_last() == av.take(i as int));
        assert(av.take(i + 1).last() == args@[i as int]@);
        let a = args[i].as_str();
        let dash = starts_with(a, "-");
        proof {
            reveal_strlit("-");
            assert("-"@ =~= seq!['-']);
        }
        if !dash && (keep_links || !contains_link_marker(a)) {
            let ghost before = r@;
            r.push(args[i].clone());
            assert(r@.map_values(|x: String| x@) =~= before.map_values(|x: String| x@).push(av[i as int]));
        }
        i = i + 1;
    }
    assert(av.take(av.len() as int) == av);
    r
}

/// The name to show for a user: their name, or else their full name, unless the
/// one chosen is blank.
pub open spec fn display_name_text(name: Option<Seq<char>>, full_name: Option<Seq<char>>) -> Option<Seq<char>> {
    let chosen = match name {
        Some(n) => Some(n),
        None => full_name,
    };
    match chosen {
        Some(n) => if is_blank(n) { None } else { Some(n) },
        None => None,
    }
}

/// The name to show for a user.
pub fn display_name(name: Option<String>, full_name: Option<String>) -> (r: Option<String>)
    ensures
        crate::paths::opt_view(r) == display_name_text(crate::paths::opt_view(name), crate::paths::opt_view(full_name)),
{
    let chosen = match name {
        Some(n) => Some(n),
        None => full_name,
    };
    match chosen {
        Some(n) => if blank(n.as_str()) { None } else { Some(n) },
        None => None,
    }
}

/// A label for this computer: `HOSTNAME`, else `COMPUTERNAME`, else the trimmed
/// contents of `/etc/hostname`; the first one present is used, and when it is empty
/// the label is `este equipo`.
pub open spec fn host_label_text(hostname: Option<Seq<char>>, computername: Option<Seq<char>>, etc_hostname: Option<Seq<char>>) -> Seq<char> {
    let chosen = match hostname {
        Some(h) => Some(h),
        None => match computername {
            Some(c) => Some(c),
            None => match etc_hostname {
                Some(e) => Some(trimmed(e)),
                None => None,
            },
        },
    };
    match chosen {
        Some(h) => if h.len() == 0 { "este equipo"@ } else { h },
        None => "este equipo"@,
    }
}

/// A label for this computer, from the values the application read.
pub fn hostname_label(hostname: Option<String>, computername: Option<String>, etc_hostname: Option<String>) -> (r: String)
    ensures
        r@ == host_label_text(
            crate::paths::opt_view(hostname),
            crate::paths::opt_view(computername),
            crate::paths::opt_view(etc_hostname),
        ),
{
    let chosen = match hostname {
        Some(h) => Some(h),
        None => match computername {
            Some(c) => Some(c),
            None => match etc_hostname {
                Some(e) => Some(trim(e.as_str())),
                None => None,
            },
        },
    };
    match chosen {
        Some(h) => if h.as_str().unicode_len() == 0 {
            "este equipo".to_string()
        } else {
            h
        },
        None => "este equipo".to_string(),
    }
}

/// The name given to a WebDAV application password created from this computer.
pub fn webdav_token_label(host: &str) -> (r: String)
    ensures
        r@ == "IureOCR en "@ + host@,
{
    let mut r = "IureOCR en ".to_string();
    r.append(host);
    r
}

/// The WebDAV password to use: the one in the keychain, else the one in the
/// settings; none when that is blank.
pub fn webdav_password(stored: Option<String>, from_settings: &str) -> (r: Option<String>)
    ensures
        ({
            let p = match stored {
                Some(s) => s@,
                None => from_settings@,
            };
            if is_blank(p) { r is None } else { r matches Some(q) && q@ == p }
        }),
{
    let p = match stored {
        Some(s) => s,
        None => from_settings.to_string(),
    };
    if blank(p.as_str()) {
        None
    } else {
        Some(p)
    }
}

/// Whether the keychain already holds a usable WebDAV password.
pub fn has_webdav_password(stored: &Option<String>) -> (r: bool)
    ensures
        r == (stored matches Some(p) && !is_blank(p@)),
{
    match stored {
        Some(p) => !blank(p.as_str()),
        None => false,
    }
}

/// How a sign-in proceeds.
#[derive(Debug)]
pub enum LoginRoute {
    /// A second step: the code for the pending two-factor token.
    Totp { token: String, code: String },
    /// The password.
    Password,
}

/// A sign-in goes to the two-factor step when both a token (not empty) and a code
/// came; otherwise it starts with the password.
pub fn login_route(totp_token: Option<String>, totp_code: Option<String>) -> (r: LoginRoute)
    ensures
        (totp_token matches Some(t) && t@.len() > 0 && totp_code is Some) ==> r == (LoginRoute::Totp {
            token: totp_token->0,
            code: totp_code->0,
        }),
        !(totp_token matches Some(t) && t@.len() > 0 && totp_code is Some) ==> r is Password,
{
    match (totp_token, totp_code) {
        (Some(t), Some(code)) => {
            if t.as_str().unicode_len() > 0 {
                LoginRoute::Totp { token: t, code }
            } else {
                LoginRoute::Password
            }
        },
        _ => LoginRoute::Password,
    }
}

/// The name shown after signing in: the display name, else the e-mail.
pub fn signed_in_name(name: Option<String>, full_name: Option<String>, email: String) -> (r: String)
    ensures
        r@ == match display_name_text(crate::paths::opt_view(name), crate::paths::opt_view(full_name)) {
            Some(n) => n,
            None => email@,
        },
{
    match display_name(name, full_name) {
        Some(n) => n,
        None => email,
    }
}

/// Where an upload to a folder went, as shown to the user (`la raíz` for the root).
pub fn folder_label(folder: &str) -> (r: String)
    ensures
        folder@.len() == 0 ==> r@ == "la raíz"@,
        folder@.len() > 0 ==> r@ == folder@,
{
    if folder.unicode_len() == 0 {
        "la raíz".to_string()
    } else {
        folder.to_string()
    }
}

/// Where an upload to a project went, as shown to the user (`sin proyecto` when none).
pub fn case_label(title: Option<String>) -> (r: String)
    ensures
        title matches Some(t) ==> r == t,
        title is None ==> r@ == "sin proyecto"@,
{
    match title {
        Some(t) => t,
        None => "sin proyecto".to_string(),
    }
}

/// Whether an upload's progress is worth reporting: more than 120 ms since the last
/// report, or the file is complete.
pub fn report_upload_progress(elapsed_ms: u128, sent: u64, total: u64) -> (r: bool)
    ensures
        r == (elapsed_ms > 120 || sent == total),
{
    elapsed_ms > 120 || sent == total
}


/// Whether an argument names something to open: it does not start with `-`, and,
/// unless links are kept, it holds no `://`.
pub open spec fn names_something_to_open(a: Seq<char>, keep_links: bool) -> bool {
    !has_prefix(a, seq!['-']) && (keep_links || !contains_text(a, "://"@))
}

/// The files passed on are exactly the arguments after the program name that name
/// something to open, in their order: every such argument is passed on, nothing else
/// is, and the program name never is.
pub proof fn lemma_opened_files(args: Seq<Seq<char>>, keep_links: bool)
    ensures
        args.len() >= 1 ==> path_arguments(args, keep_links) == args.drop_first().filter(
            |a: Seq<char>| names_something_to_open(a, keep_links),
        ),
        forall|i: int|
            1 <= i < args.len() && names_something_to_open(#[trigger] args[i], keep_links) ==> path_arguments(
                args,
                keep_links,
            ).contains(args[i]),
        forall|j: int|
            0 <= j < path_arguments(args, keep_links).len() ==> names_something_to_open(
                #[trigger] path_arguments(args, keep_links)[j],
                keep_links,
            ),
    decreases args.len(),
{
    let pred = |a: Seq<char>| names_something_to_open(a, keep_links);
    if args.len() >= 1 {
        let rest = args.drop_first();
        if args.len() == 1 {
            reveal(Seq::filter);
            assert(rest.len() == 0);
        } else {
            lemma_opened_files(args.drop_last(), keep_links);
            assert(args.drop_last().drop_first() =~= rest.drop_last());
            assert(rest.last() == args.last());
            reveal(Seq::filter);
            assert(rest.filter(pred) == if pred(rest.last()) {
                rest.drop_last().filter(pred).push(rest.last())
            } else {
                rest.drop_last().filter(pred)
            });
        }
        rest.filter_lemma(pred);
        assert forall|i: int|
            1 <= i < args.len() && names_something_to_open(#[trigger] args[i], keep_links) implies path_arguments(
            args,
            keep_links,
        ).contains(args[i]) by {
            assert(rest[i - 1] == args[i]);
            assert(pred(rest[i - 1]));
        }
        assert forall|j: int| 0 <= j < path_arguments(args, keep_links).len() implies names_something_to_open(
            #[trigger] path_arguments(args, keep_links)[j],
            keep_links,
        ) by {
            assert(pred(rest.filter(pred)[j]));
        }
    }
}

} // verus!
