//! Page editing: which pages go when pages are removed, kept or rotated, and the
//! file names of the results. The edits themselves are made on a `lopdf::Document`;
//! reading and writing the file stays with the caller.

use base64::Engine;
use vstd::prelude::*;
use crate::paths::{candidate_paths, file_stem, file_stem_of, first_free_from, free_path, parent_of, parent_path};

verus! {

/// `lopdf::Document`, a parsed PDF, carried through opaque.
#[verifier::external_type_specification]
#[verifier::external_body]
pub struct ExDocument(lopdf::Document);

/// The object ids of the pages of a document, in page order (what
/// `Document::get_pages` maps the page numbers `1..=n` to).
pub uninterp spec fn page_ids(doc: lopdf::Document) -> Seq<(u32, u16)>;

/// `Document::get_pages` (lopdf): the ids of the pages, in page order.
#[verifier::external_body]
pub(crate) fn pages_of(doc: &lopdf::Document) -> (r: Vec<(u32, u16)>)
    ensures
        r@ == page_ids(*doc),
{
    doc.get_pages().into_values().collect()
}

/// An object id of a PDF: object number and generation.
pub type ObjId = (u32, u16);

/// What page removal reads of a dictionary object: its `Parent` reference and its
/// integer `Count`.
pub type TreeLink = (Option<ObjId>, Option<i64>);

/// For each object of the document that is a dictionary, its `Parent` reference and
/// integer `Count` (`None` where the key is missing or of another kind).
pub uninterp spec fn tree_links(doc: lopdf::Document) -> Map<ObjId, TreeLink>;

/// `Document::objects` read with `Object::as_dict`, `Dictionary::get`,
/// `Object::as_reference` and `Object::as_i64` (lopdf): one entry per object, in id
/// order (so no id twice), with its `Parent` and `Count` when it is a dictionary.
#[verifier::external_body]
pub(crate) fn links_of(doc: &lopdf::Document) -> (r: Vec<(ObjId, Option<TreeLink>)>)
    ensures
        forall|i: int| 0 <= i < r@.len() ==> (r@[i].1 is Some <==> tree_links(*doc).dom().contains(r@[i].0)),
        forall|i: int| 0 <= i < r@.len() && r@[i].1 is Some ==> tree_links(*doc)[r@[i].0] == r@[i].1->0,
        forall|id: ObjId| tree_links(*doc).dom().contains(id) ==> exists|i: int| 0 <= i < r@.len() && r@[i].0 == id,
        forall|i: int, j: int| 0 <= i < j < r@.len() ==> r@[i].0 != r@[j].0,
{
    doc.objects.iter().map(|(id, o)| {
        (
            *id,
            o.as_dict().ok().map(|d| {
                (
                    d.get(b"Parent").and_then(lopdf::Object::as_reference).ok(),
                    d.get(b"Count").and_then(lopdf::Object::as_i64).ok(),
                )
            }),
        )
    }).collect()
}

/// The document `Document::delete_pages` leaves when given `numbers`.
pub uninterp spec fn pages_deleted(doc: lopdf::Document, numbers: Seq<u32>) -> lopdf::Document;

/// Whether, from `start`, following `Parent` references through the dictionaries of
/// `links` leaves them within `fuel` steps, every dictionary passed having no integer
/// `Count` or one that `k` decrements leave at or above `i64::MIN`.
pub open spec fn chain_sound(links: Map<ObjId, TreeLink>, start: Option<ObjId>, fuel: nat, k: nat) -> bool
    decreases fuel,
{
    match start {
        None => true,
        Some(id) => if !links.dom().contains(id) {
            true
        } else if fuel == 0 {
            false
        } else {
            &&& (links[id].1 matches Some(c) ==> c - k >= i64::MIN)
            &&& chain_sound(links, links[id].0, (fuel - 1) as nat, k)
        },
    }
}

/// The `Parent` of the object `id`, when it is a dictionary.
pub open spec fn parent_of_object(links: Map<ObjId, TreeLink>, id: ObjId) -> Option<ObjId> {
    if links.dom().contains(id) {
        links[id].0
    } else {
        None
    }
}

/// Whether removing the pages `numbers` comes to an end without overflow: for each
/// listed page, the chain of page-tree nodes above it (whose `Count`s are each lowered
/// by one per removed page) ends within as many steps as the document has dictionaries,
/// and no `Count` on it can go below `i64::MIN`.
pub open spec fn deletion_terminates(doc: lopdf::Document, numbers: Seq<u32>) -> bool {
    let links = tree_links(doc);
    let ids = page_ids(doc);
    forall|i: int|
        0 <= i < numbers.len() && in_range(#[trigger] numbers[i], ids.len()) ==> chain_sound(
            links,
            parent_of_object(links, ids[numbers[i] - 1]),
            links.dom().len(),
            numbers.len(),
        )
}

/// `Document::delete_pages` (lopdf): removes the listed pages (1-based numbers) and
/// every reference to them, lowering the `Count` of each page-tree node above a removed
/// page. It walks the `Parent` chain without a guard, so a chain that does not end, or
/// a `Count` that would go below `i64::MIN`, is not admitted.
#[verifier::external_body]
pub(crate) fn remove_pages(doc: &mut lopdf::Document, numbers: &[u32])
    requires
        deletion_terminates(*old(doc), numbers@),
    ensures
        *final(doc) == pages_deleted(*old(doc), numbers@),
{
    doc.delete_pages(numbers)
}

/// Whether `entries` lists the objects of a document as `links_of` does for `links`.
pub open spec fn lists_links(entries: Seq<(ObjId, Option<TreeLink>)>, links: Map<ObjId, TreeLink>) -> bool {
    &&& forall|i: int| 0 <= i < entries.len() ==> (entries[i].1 is Some <==> links.dom().contains(entries[i].0))
    &&& forall|i: int| 0 <= i < entries.len() && entries[i].1 is Some ==> links[entries[i].0] == entries[i].1->0
    &&& forall|id: ObjId| links.dom().contains(id) ==> exists|i: int| 0 <= i < entries.len() && entries[i].0 == id
    &&& forall|i: int, j: int| 0 <= i < j < entries.len() ==> entries[i].0 != entries[j].0
}

fn find_link(entries: &Vec<(ObjId, Option<TreeLink>)>, id: ObjId, links: Ghost<Map<ObjId, TreeLink>>) -> (r: Option<TreeLink>)
    requires
        lists_links(entries@, links@),
    ensures
        r == (if links@.dom().contains(id) { Some(links@[id]) } else { None::<TreeLink> }),
{
    let mut i: usize = 0;
    while i < entries.len()
        invariant
            i <= entries@.len(),
            lists_links(entries@, links@),
            forall|j: int| 0 <= j < i ==> entries@[j].0 != id,
        decreases entries@.len() - i,
    {
        let e = entries[i];
        if e.0.0 == id.0 && e.0.1 == id.1 {
            assert(e.0 == id);
            return e.1;
        }
        i = i + 1;
    }
    proof {
        if links@.dom().contains(id) {
            let j = choose|j: int| 0 <= j < entries@.len() && entries@[j].0 == id;
            assert(entries@[j].0 != id);
        }
    }
    None
}

fn chain_ok(entries: &Vec<(ObjId, Option<TreeLink>)>, start: Option<ObjId>, fuel: usize, k: usize, links: Ghost<Map<ObjId, TreeLink>>) -> (r: bool)
    requires
        lists_links(entries@, links@),
    ensures
        r == chain_sound(links@, start, fuel as nat, k as nat),
{
    let mut cur = start;
    let mut f = fuel;
    loop
        invariant
            lists_links(entries@, links@),
            chain_sound(links@, start, fuel as nat, k as nat) == chain_sound(links@, cur, f as nat, k as nat),
        decreases f,
    {
        match cur {
            None => {
                return true;
            },
            Some(id) => {
                match find_link(entries, id, links) {
                    None => {
                        return true;
                    },
                    Some(link) => {
                        if f == 0 {
                            return false;
                        }
                        match link.1 {
                            Some(c) => {
                                if (c as i128) - (k as i128) < (i64::MIN as i128) {
                                    return false;
                                }
                            },
                            None => {},
                        }
                        cur = link.0;
                        f = f - 1;
                    },
                }
            },
        }
    }
}

fn count_dictionaries(entries: &Vec<(ObjId, Option<TreeLink>)>, links: Ghost<Map<ObjId, TreeLink>>) -> (c: usize)
    requires
        lists_links(entries@, links@),
    ensures
        links@.dom().finite(),
        c == links@.dom().len(),
{
    let mut found: Vec<ObjId> = Vec::new();
    let ghost mut at: Seq<int> = Seq::empty();
    let mut i: usize = 0;
    while i < entries.len()
        invariant
            i <= entries@.len(),
            lists_links(entries@, links@),
            found@.len() == at.len(),
            forall|a: int| 0 <= a < at.len() ==> 0 <= #[trigger] at[a] < i && found@[a] == entries@[at[a]].0,
            forall|a: int, b: int| 0 <= a < b < at.len() ==> #[trigger] at[a] < #[trigger] at[b],
            forall|a: int| 0 <= a < found@.len() ==> links@.dom().contains(#[trigger] found@[a]),
            forall|j: int| 0 <= j < i && (#[trigger] entries@[j]).1 is Some ==> found@.contains(entries@[j].0),
        decreases entries@.len() - i,
    {
        let e = entries[i];
        let ghost before = found@;
        if e.1.is_some() {
            found.push(e.0);
            proof {
                at = at.push(i as int);
                assert(found@[before.len() as int] == e.0);
            }
        }
        proof {
            assert forall|j: int| 0 <= j < i + 1 && (#[trigger] entries@[j]).1 is Some implies found@.contains(
                entries@[j].0,
            ) by {
                if j < i {
                    if e.1.is_some() {
                        vstd::seq_lib::lemma_seq_contains_after_push(before, e.0, entries@[j].0);
                    }
                } else {
                    assert(found@[before.len() as int] == e.0);
                }
            }
        }
        i = i + 1;
    }
    proof {
        assert(found@.no_duplicates()) by {
            assert forall|a: int, b: int| 0 <= a < found@.len() && 0 <= b < found@.len() && a != b implies found@[a]
                != found@[b] by {
                if a < b {
                    assert(at[a] < at[b]);
                } else {
                    assert(at[b] < at[a]);
                }
            }
        }
        found@.unique_seq_to_set();
        assert(found@.to_set() =~= links@.dom()) by {
            assert forall|id: ObjId| links@.dom().contains(id) implies found@.contains(id) by {
                let j = choose|j: int| 0 <= j < entries@.len() && entries@[j].0 == id;
                assert(entries@[j].1 is Some);
            }
        }
    }
    found.len()
}

/// Whether `Document::delete_pages` may be given `numbers` for `doc`: its walks up the
/// page tree end, and no `Count` on them can go below `i64::MIN`.
pub fn deletion_safe(doc: &lopdf::Document, numbers: &[u32]) -> (r: bool)
    ensures
        r == deletion_terminates(*doc, numbers@),
{
    let ids = pages_of(doc);
    let entries = links_of(doc);
    let links = Ghost(tree_links(*doc));
    assert(lists_links(entries@, links@));
    let fuel = count_dictionaries(&entries, links);
    let k = numbers.len();
    let mut i: usize = 0;
    while i < numbers.len()
        invariant
            i <= numbers@.len(),
            k == numbers@.len(),
            ids@ == page_ids(*doc),
            links@ == tree_links(*doc),
            fuel == links@.dom().len(),
            lists_links(entries@, links@),
            forall|j: int|
                0 <= j < i && in_range(#[trigger] numbers@[j], ids@.len()) ==> chain_sound(
                    links@,
                    parent_of_object(links@, ids@[numbers@[j] - 1]),
                    fuel as nat,
                    k as nat,
                ),
        decreases numbers@.len() - i,
    {
        let p = numbers[i];
        if p >= 1 && (p as usize) <= ids.len() {
            let pid = ids[(p - 1) as usize];
            let start = match find_link(&entries, pid, links) {
                Some(link) => link.0,
                None => None,
            };
            if !chain_ok(&entries, start, fuel, k, links) {
                assert(!deletion_terminates(*doc, numbers@)) by {
                    assert(in_range(numbers@[i as int], ids@.len()));
                }
                return false;
            }
        }
        i = i + 1;
    }
    true
}

/// Why a page edit was refused.
#[derive(Debug)]
pub enum PageEditError {
    /// Every page would go.
    CannotRemoveAll,
    /// None of the listed pages exists.
    NothingToRemove,
    /// None of the pages to keep exists.
    ChooseAtLeastOne,
    /// The pages to keep are all the pages.
    AlreadyAll,
    /// None of the pages to rotate exists.
    NothingToRotate,
    /// The document's page tree cannot be walked to remove pages (a `Parent` chain
    /// that does not end, or a `Count` at its lowest).
    DamagedPageTree,
    /// A page could not be edited (its number and the PDF library's words).
    Page { page: u32, detail: String },
    /// The bytes are not a PDF the library can read (its words).
    Unreadable { detail: String },
    /// The PDF needs a password to be opened.
    PasswordProtected,
}

impl PageEditError {
    /// The message shown to the user.
    pub fn message(&self) -> (r: String)
        ensures
            r@ == match self {
                PageEditError::CannotRemoveAll => "No se pueden quitar todas las páginas"@,
                PageEditError::NothingToRemove => "No hay páginas que quitar"@,
                PageEditError::ChooseAtLeastOne => "Elige al menos una página"@,
                PageEditError::AlreadyAll => "Ya están todas las páginas"@,
                PageEditError::NothingToRotate => "No hay páginas que rotar"@,
                PageEditError::DamagedPageTree => "El árbol de páginas del PDF está dañado"@,
                PageEditError::Page { page, detail } => "Página "@ + crate::text::decimal(*page as nat) + ": "@ + detail@,
                PageEditError::Unreadable { detail } => "No se pudo leer el PDF: "@ + detail@,
                PageEditError::PasswordProtected => "El PDF está protegido con contraseña; quítala antes de editarlo"@,
            },
    {
        match self {
            PageEditError::CannotRemoveAll => "No se pueden quitar todas las páginas".to_string(),
            PageEditError::NothingToRemove => "No hay páginas que quitar".to_string(),
            PageEditError::ChooseAtLeastOne => "Elige al menos una página".to_string(),
            PageEditError::AlreadyAll => "Ya están todas las páginas".to_string(),
            PageEditError::NothingToRotate => "No hay páginas que rotar".to_string(),
            PageEditError::DamagedPageTree => "El árbol de páginas del PDF está dañado".to_string(),
            PageEditError::Page { page, detail } => {
                let mut s = "Página ".to_string();
                let n = crate::text::decimal_string(*page as u64);
                s.append(n.as_str());
                s.append(": ");
                s.append(detail.as_str());
                s
            },
            PageEditError::Unreadable { detail } => {
                let mut s = "No se pudo leer el PDF: ".to_string();
                s.append(detail.as_str());
                s
            },
            PageEditError::PasswordProtected => "El PDF está protegido con contraseña; quítala antes de editarlo".to_string(),
        }
    }
}

/// The document lopdf reads from `bytes` (`None` when they are not a PDF it can read).
pub uninterp spec fn parsed_pdf(bytes: Seq<u8>) -> Option<lopdf::Document>;

/// Whether the document carries an `/Encrypt` entry in its trailer.
pub uninterp spec fn encrypted(doc: lopdf::Document) -> bool;

/// What decrypting `doc` with the empty password leaves, and whether it succeeded.
pub uninterp spec fn empty_password_decryption(doc: lopdf::Document) -> (lopdf::Document, bool);

/// `Document::load_mem` (lopdf): parses a PDF held in memory; the library's words
/// when it cannot.
#[verifier::external_body]
pub(crate) fn parse_pdf(bytes: &[u8]) -> (r: Result<lopdf::Document, String>)
    ensures
        r is Ok <==> parsed_pdf(bytes@) is Some,
        r matches Ok(d) ==> parsed_pdf(bytes@) == Some(d),
{
    lopdf::Document::load_mem(bytes).map_err(|e| e.to_string())
}

/// `Document::is_encrypted` (lopdf).
#[verifier::external_body]
pub(crate) fn is_encrypted(doc: &lopdf::Document) -> (r: bool)
    ensures
        r == encrypted(*doc),
{
    doc.is_encrypted()
}

/// `Document::decrypt` (lopdf) with the empty password: whether it succeeded.
#[verifier::external_body]
pub(crate) fn decrypt_empty(doc: &mut lopdf::Document) -> (r: bool)
    ensures
        (*final(doc), r) == empty_password_decryption(*old(doc)),
{
    doc.decrypt("").is_ok()
}

/// Opens a PDF held in memory for page editing: the parsed document, decrypted with
/// the empty password when it is encrypted. Bytes that are not a readable PDF, and an
/// encrypted PDF the empty password does not open, are refused.
pub fn open_for_editing(bytes: &[u8]) -> (r: Result<lopdf::Document, PageEditError>)
    ensures
        match parsed_pdf(bytes@) {
            None => r matches Err(PageEditError::Unreadable { .. }),
            Some(d) => if !encrypted(d) {
                r == Ok::<lopdf::Document, PageEditError>(d)
            } else if empty_password_decryption(d).1 {
                r == Ok::<lopdf::Document, PageEditError>(empty_password_decryption(d).0)
            } else {
                r == Err::<lopdf::Document, PageEditError>(PageEditError::PasswordProtected)
            },
        },
{
    let mut doc = match parse_pdf(bytes) {
        Ok(d) => d,
        Err(detail) => {
            return Err(PageEditError::Unreadable { detail });
        },
    };
    if is_encrypted(&doc) {
        if !decrypt_empty(&mut doc) {
            return Err(PageEditError::PasswordProtected);
        }
    }
    Ok(doc)
}

/// The document after `Document::prune_objects` drops the objects nothing refers to.
pub uninterp spec fn pruned(doc: lopdf::Document) -> lopdf::Document;

/// The document after `Document::renumber_objects` numbers its objects from 1.
pub uninterp spec fn renumbered(doc: lopdf::Document) -> lopdf::Document;

/// The document after `Document::compress` compresses its streams.
pub uninterp spec fn compressed(doc: lopdf::Document) -> lopdf::Document;

/// The bytes `Document::save_to` writes for `doc` (`None` when it fails).
pub uninterp spec fn saved_pdf(doc: lopdf::Document) -> Option<Seq<u8>>;

/// `Document::prune_objects` (lopdf); the list of ids it dropped is not used.
#[verifier::external_body]
pub(crate) fn prune(doc: &mut lopdf::Document)
    ensures
        *final(doc) == pruned(*old(doc)),
{
    doc.prune_objects();
}

/// `Document::renumber_objects` (lopdf).
#[verifier::external_body]
pub(crate) fn renumber(doc: &mut lopdf::Document)
    ensures
        *final(doc) == renumbered(*old(doc)),
{
    doc.renumber_objects()
}

/// `Document::compress` (lopdf).
#[verifier::external_body]
pub(crate) fn compress(doc: &mut lopdf::Document)
    ensures
        *final(doc) == compressed(*old(doc)),
{
    doc.compress()
}

/// `Document::save_to` (lopdf) into memory; the library's words when it fails.
#[verifier::external_body]
pub(crate) fn save_bytes(doc: lopdf::Document) -> (r: Result<Vec<u8>, String>)
    ensures
        r is Ok <==> saved_pdf(doc) is Some,
        r matches Ok(b) ==> saved_pdf(doc) == Some(b@),
{
    let mut doc = doc;
    let mut buf: Vec<u8> = Vec::new();
    match doc.save_to(&mut buf) {
        Ok(()) => Ok(buf),
        Err(e) => Err(e.to_string()),
    }
}

/// The bytes of an edited document as it is written out: unused objects dropped,
/// objects renumbered, streams compressed, then saved.
pub fn finished_bytes(doc: lopdf::Document) -> (r: Result<Vec<u8>, String>)
    ensures
        r is Ok <==> saved_pdf(compressed(renumbered(pruned(doc)))) is Some,
        r matches Ok(b) ==> saved_pdf(compressed(renumbered(pruned(doc)))) == Some(b@),
{
    let mut doc = doc;
    prune(&mut doc);
    renumber(&mut doc);
    compress(&mut doc);
    save_bytes(doc)
}

/// JPEG quality for a thumbnail `width` pixels wide: small ones take more compression.
pub open spec fn spec_quality_for(width: u32) -> u8 {
    if width > 400 {
        85
    } else {
        70
    }
}

/// JPEG quality for a thumbnail `width` pixels wide.
pub fn quality_for(width: u32) -> (q: u8)
    ensures
        q == spec_quality_for(width),
{
    if width > 400 {
        85
    } else {
        70
    }
}

/// The folder of `input` (`"."` when it has none).
pub open spec fn folder_of(input: Seq<char>) -> Seq<char> {
    match parent_path(input) {
        Some(d) => d,
        None => seq!['.'],
    }
}

/// The file name of `input` without extension (`"documento"` when it has none).
pub open spec fn stem_or_default(input: Seq<char>) -> Seq<char> {
    match file_stem(input) {
        Some(s) => s,
        None => seq!['d', 'o', 'c', 'u', 'm', 'e', 'n', 't', 'o'],
    }
}

/// A free path `<stem><suffix>.pdf` next to `input` (or with ` (2)`, ` (3)`… when taken).
pub fn sibling_output(input: &str, suffix: &str) -> (r: String)
    ensures
        exists|taken: Seq<bool>|
            taken.len() == 999 && r@ == first_free_from(
                candidate_paths(folder_of(input@), stem_or_default(input@), suffix@, seq!['p', 'd', 'f']),
                taken,
                0,
            ),
{
    let dir = match parent_of(input) {
        Some(d) => d,
        None => ".".to_string(),
    };
    let stem = match file_stem_of(input) {
        Some(s) => s,
        None => "documento".to_string(),
    };
    proof {
        reveal_strlit(".");
        reveal_strlit("documento");
    }
    assert(dir@ == folder_of(input@));
    assert(stem@ == stem_or_default(input@));
    let ext = "pdf";
    proof {
        reveal_strlit("pdf");
    }
    assert(ext@ =~= seq!['p', 'd', 'f']);
    free_path(dir.as_str(), stem.as_str(), suffix, ext)
}


/// Whether `p` numbers one of `total` pages.
pub open spec fn in_range(p: u32, total: nat) -> bool {
    1 <= p && p <= total
}

/// The entries of `pages` that number one of `total` pages, in their order,
/// repeats included.
pub open spec fn valid_pages(pages: Seq<u32>, total: nat) -> Seq<u32>
    decreases pages.len(),
{
    if pages.len() == 0 {
        Seq::empty()
    } else {
        let r = valid_pages(pages.drop_last(), total);
        if in_range(pages.last(), total) {
            r.push(pages.last())
        } else {
            r
        }
    }
}

/// The page numbers `1..=k` that occur in `pages`, ascending.
pub open spec fn listed_upto(pages: Seq<u32>, k: nat) -> Seq<u32>
    decreases k,
{
    if k == 0 {
        Seq::empty()
    } else {
        let r = listed_upto(pages, (k - 1) as nat);
        if pages.contains(k as u32) {
            r.push(k as u32)
        } else {
            r
        }
    }
}

/// The page numbers `1..=k` that do not occur in `pages`, ascending.
pub open spec fn unlisted_upto(pages: Seq<u32>, k: nat) -> Seq<u32>
    decreases k,
{
    if k == 0 {
        Seq::empty()
    } else {
        let r = unlisted_upto(pages, (k - 1) as nat);
        if !pages.contains(k as u32) {
            r.push(k as u32)
        } else {
            r
        }
    }
}

/// The distinct existing pages among `pages`, ascending (the pages that
/// `keep_pages` keeps and that `delete_pages` removes).
pub open spec fn kept_pages(pages: Seq<u32>, total: nat) -> Seq<u32> {
    listed_upto(pages, if total <= u32::MAX { total } else { u32::MAX as nat })
}

/// The pages `keep_pages` removes: those of `1..=total` (the count as a `u32`)
/// that are not listed.
pub open spec fn unkept_pages(pages: Seq<u32>, total: nat) -> Seq<u32> {
    unlisted_upto(pages, (total as u32) as nat)
}

/// What removing `pages` from a document of `total` pages comes to: the distinct
/// existing pages listed, ascending (the numbers handed to the PDF library; a page
/// listed twice goes once), or why nothing is removed: every page listed, or none.
pub open spec fn delete_selection(total: nat, pages: Seq<u32>) -> Result<Seq<u32>, PageEditError> {
    let d = kept_pages(pages, total);
    if d.len() >= total {
        Err(PageEditError::CannotRemoveAll)
    } else if d.len() == 0 {
        Err(PageEditError::NothingToRemove)
    } else {
        Ok(d)
    }
}

/// What keeping only `pages` of a document of `total` pages comes to: the page
/// numbers handed to the PDF library and how many pages stay, or why nothing changes.
pub open spec fn keep_selection(total: nat, pages: Seq<u32>) -> Result<(Seq<u32>, nat), PageEditError> {
    let k = kept_pages(pages, total);
    let r = unkept_pages(pages, total);
    if k.len() == 0 {
        Err(PageEditError::ChooseAtLeastOne)
    } else if r.len() == 0 {
        Err(PageEditError::AlreadyAll)
    } else {
        Ok((r, k.len()))
    }
}

fn listed(pages: &[u32], q: u32) -> (r: bool)
    ensures
        r == pages@.contains(q),
{
    let mut i: usize = 0;
    while i < pages.len()
        invariant
            i <= pages@.len(),
            forall|j: int| 0 <= j < i ==> pages@[j] != q,
        decreases pages@.len() - i,
    {
        if pages[i] == q {
            return true;
        }
        i = i + 1;
    }
    false
}

/// The page numbers `1..=k` that occur in `pages` (`want` true) or that do not
/// (`want` false), ascending.
fn numbers_upto(pages: &[u32], k: u32, want: bool) -> (r: Vec<u32>)
    ensures
        want ==> r@ == listed_upto(pages@, k as nat),
        !want ==> r@ == unlisted_upto(pages@, k as nat),
{
    let mut r: Vec<u32> = Vec::new();
    let mut q: u64 = 1;
    while q <= k as u64
        invariant
            1 <= q <= k as u64 + 1,
            want ==> r@ == listed_upto(pages@, (q - 1) as nat),
            !want ==> r@ == unlisted_upto(pages@, (q - 1) as nat),
        decreases k as u64 + 1 - q,
    {
        let qq = q as u32;
        if listed(pages, qq) == want {
            r.push(qq);
        }
        q = q + 1;
    }
    r
}

/// Which pages `keep_pages` removes and how many stay, for a document of `total` pages.
pub fn keep_plan(total: usize, pages: &[u32]) -> (r: Result<(Vec<u32>, usize), PageEditError>)
    ensures
        match keep_selection(total as nat, pages@) {
            Ok((remove, kept)) => r matches Ok((v, n)) && v@ == remove && n == kept,
            Err(e) => r == Err::<(Vec<u32>, usize), PageEditError>(e),
        },
{
    let hi: u32 = if total <= u32::MAX as usize { total as u32 } else { u32::MAX };
    let keep = numbers_upto(pages, hi, true);
    if keep.len() == 0 {
        return Err(PageEditError::ChooseAtLeastOne);
    }
    let remove = numbers_upto(pages, total as u32, false);
    if remove.len() == 0 {
        return Err(PageEditError::AlreadyAll);
    }
    Ok((remove, keep.len()))
}

/// Which pages `delete_pages` removes, for a document of `total` pages.
pub fn delete_plan(total: usize, pages: &[u32]) -> (r: Result<Vec<u32>, PageEditError>)
    ensures
        match delete_selection(total as nat, pages@) {
            Ok(v) => r matches Ok(w) && w@ == v,
            Err(e) => r == Err::<Vec<u32>, PageEditError>(e),
        },
{
    let hi: u32 = if total <= u32::MAX as usize { total as u32 } else { u32::MAX };
    let listed = numbers_upto(pages, hi, true);
    if listed.len() >= total {
        return Err(PageEditError::CannotRemoveAll);
    }
    if listed.len() == 0 {
        return Err(PageEditError::NothingToRemove);
    }
    Ok(listed)
}

/// Removes the listed pages (1-based) from `doc`; returns how many pages stay. Listed
/// numbers that are not pages are passed over and a page listed twice goes once; the
/// distinct listed pages, ascending, are handed to the PDF library. Removing every
/// page, or none, is refused and leaves `doc` as it was.
pub fn delete_pages(doc: &mut lopdf::Document, pages: &[u32]) -> (r: Result<usize, PageEditError>)
    requires
        delete_selection(page_ids(*old(doc)).len(), pages@) matches Ok(v) ==> deletion_terminates(*old(doc), v),
    ensures
        match delete_selection(page_ids(*old(doc)).len(), pages@) {
            Ok(v) => r == Ok::<usize, PageEditError>((page_ids(*old(doc)).len() - v.len()) as usize)
                && *final(doc) == pages_deleted(*old(doc), v),
            Err(e) => r == Err::<usize, PageEditError>(e) && *final(doc) == *old(doc),
        },
{
    let ids = pages_of(doc);
    let total = ids.len();
    match delete_plan(total, pages) {
        Ok(listed) => {
            remove_pages(doc, listed.as_slice());
            Ok(total - listed.len())
        },
        Err(e) => Err(e),
    }
}

/// `delete_pages`, first checking that the PDF library can walk the document's page
/// tree for the pages that go; a page tree it could not walk is refused with
/// `DamagedPageTree`, and `doc` is left as it was.
pub fn delete_pages_checked(doc: &mut lopdf::Document, pages: &[u32]) -> (r: Result<usize, PageEditError>)
    ensures
        match delete_selection(page_ids(*old(doc)).len(), pages@) {
            Ok(v) => if deletion_terminates(*old(doc), v) {
                r == Ok::<usize, PageEditError>((page_ids(*old(doc)).len() - v.len()) as usize)
                    && *final(doc) == pages_deleted(*old(doc), v)
            } else {
                r == Err::<usize, PageEditError>(PageEditError::DamagedPageTree) && *final(doc) == *old(doc)
            },
            Err(e) => r == Err::<usize, PageEditError>(e) && *final(doc) == *old(doc),
        },
{
    let ids = pages_of(doc);
    match delete_plan(ids.len(), pages) {
        Ok(listed) => {
            if !deletion_safe(doc, listed.as_slice()) {
                return Err(PageEditError::DamagedPageTree);
            }
        },
        Err(_) => {},
    }
    delete_pages(doc, pages)
}

/// Keeps only the listed pages (1-based), in their original order; returns how many
/// stay. Listed numbers that are not pages are passed over; the pages not listed,
/// ascending, are handed to the PDF library to remove. Keeping none, or all, is
/// refused and leaves `doc` as it was.
pub fn keep_pages(doc: &mut lopdf::Document, pages: &[u32]) -> (r: Result<usize, PageEditError>)
    requires
        keep_selection(page_ids(*old(doc)).len(), pages@) matches Ok((remove, kept)) ==> deletion_terminates(*old(doc), remove),
    ensures
        match keep_selection(page_ids(*old(doc)).len(), pages@) {
            Ok((remove, kept)) => r == Ok::<usize, PageEditError>(kept as usize)
                && *final(doc) == pages_deleted(*old(doc), remove),
            Err(e) => r == Err::<usize, PageEditError>(e) && *final(doc) == *old(doc),
        },
{
    let ids = pages_of(doc);
    let total = ids.len();
    match keep_plan(total, pages) {
        Ok((remove, kept)) => {
            remove_pages(doc, remove.as_slice());
            Ok(kept)
        },
        Err(e) => Err(e),
    }
}

/// `keep_pages`, first checking that the PDF library can walk the document's page
/// tree for the pages that go; a page tree it could not walk is refused with
/// `DamagedPageTree`, and `doc` is left as it was.
pub fn keep_pages_checked(doc: &mut lopdf::Document, pages: &[u32]) -> (r: Result<usize, PageEditError>)
    ensures
        match keep_selection(page_ids(*old(doc)).len(), pages@) {
            Ok((remove, kept)) => if deletion_terminates(*old(doc), remove) {
                r == Ok::<usize, PageEditError>(kept as usize) && *final(doc) == pages_deleted(*old(doc), remove)
            } else {
                r == Err::<usize, PageEditError>(PageEditError::DamagedPageTree) && *final(doc) == *old(doc)
            },
            Err(e) => r == Err::<usize, PageEditError>(e) && *final(doc) == *old(doc),
        },
{
    let ids = pages_of(doc);
    match keep_plan(ids.len(), pages) {
        Ok((remove, _)) => {
            if !deletion_safe(doc, remove.as_slice()) {
                return Err(PageEditError::DamagedPageTree);
            }
        },
        Err(_) => {},
    }
    keep_pages(doc, pages)
}


/// The remainder of `a` divided by `m > 0` with the sign of `a` (Rust's `%`).
pub open spec fn trunc_rem(a: int, m: int) -> int {
    if a >= 0 {
        a % m
    } else {
        -((-a) % m)
    }
}

/// The `Rotate` value of a page that had `current` after turning it `degrees`
/// clockwise: `(current + degrees.rem_euclid(360)) % 360`.
pub open spec fn rotated(current: int, degrees: int) -> int {
    trunc_rem(current + degrees % 360, 360)
}

/// The new `Rotate` value of a page that had `current`, turned `degrees` clockwise.
pub fn rotation(current: i64, degrees: i64) -> (r: i64)
    ensures
        r == rotated(current as int, degrees as int),
{
    let m: i64 = degrees % 360;
    let delta: i64 = if m < 0 { m + 360 } else { m };
    assert(delta == degrees as int % 360);
    let sum: i128 = current as i128 + delta as i128;
    let r: i128 = sum % 360;
    assert(r == trunc_rem(sum as int, 360));
    r as i64
}


/// For each object id whose object is (or refers to) a dictionary, the integer
/// `Rotate` entry of that dictionary (`None` when it has none, or not an integer).
pub uninterp spec fn rotate_entries(doc: lopdf::Document) -> Map<(u32, u16), Option<i64>>;

/// `Document::get_dictionary`, `Dictionary::get(b"Rotate")` and `Object::as_i64`
/// (lopdf): the page's integer `Rotate` entry, or the library's words when `id` is
/// not a dictionary.
#[verifier::external_body]
pub(crate) fn rotate_entry(doc: &lopdf::Document, id: (u32, u16)) -> (r: Result<Option<i64>, String>)
    ensures
        r is Ok <==> rotate_entries(*doc).dom().contains(id),
        r matches Ok(v) ==> v == rotate_entries(*doc)[id],
{
    doc.get_dictionary(id).map(|d| d.get(b"Rotate").ok().and_then(|o| o.as_i64().ok())).map_err(
        |e| e.to_string(),
    )
}

/// For each id that resolves to a dictionary, that dictionary's `Parent` reference
/// (`None` when it has none, or not a reference).
pub uninterp spec fn parent_entries(doc: lopdf::Document) -> Map<ObjId, Option<ObjId>>;

/// `Document::get_dictionary`, `Dictionary::get(b"Parent")` and `Object::as_reference`
/// (lopdf): the `Parent` of the dictionary `id` resolves to, or the library's words
/// when `id` is not a dictionary (just where `rotate_entry` fails too).
#[verifier::external_body]
pub(crate) fn parent_entry(doc: &lopdf::Document, id: ObjId) -> (r: Result<Option<ObjId>, String>)
    ensures
        r is Ok <==> rotate_entries(*doc).dom().contains(id),
        r matches Ok(v) ==> v == parent_entries(*doc)[id],
{
    doc.get_dictionary(id).map(|d| d.get(b"Parent").and_then(lopdf::Object::as_reference).ok()).map_err(
        |e| e.to_string(),
    )
}

/// How many page-tree nodes above a page are looked at for an inherited `Rotate`: as
/// deep as lopdf follows a page tree.
pub const PAGE_TREE_DEPTH: usize = 256;

/// The `Rotate` a page without its own inherits: the first one found going up the
/// `Parent` chain from `start`, within `fuel` nodes, among the dictionaries of `rot`.
pub open spec fn inherited_rotate(
    rot: Map<ObjId, Option<i64>>,
    parents: Map<ObjId, Option<ObjId>>,
    start: Option<ObjId>,
    fuel: nat,
) -> Option<i64>
    decreases fuel,
{
    match start {
        None => None,
        Some(id) => if fuel == 0 || !rot.dom().contains(id) {
            None
        } else {
            match rot[id] {
                Some(v) => Some(v),
                None => inherited_rotate(rot, parents, parents[id], (fuel - 1) as nat),
            }
        },
    }
}

/// The rotation a page `id` shows: its own `Rotate`, else the one it inherits, else 0.
pub open spec fn shown_rotation(rot: Map<ObjId, Option<i64>>, parents: Map<ObjId, Option<ObjId>>, id: ObjId) -> int {
    match rot[id] {
        Some(c) => c as int,
        None => match inherited_rotate(rot, parents, parents[id], PAGE_TREE_DEPTH as nat) {
            Some(c) => c as int,
            None => 0,
        },
    }
}

fn inherited(doc: &lopdf::Document, start: Option<ObjId>) -> (r: Option<i64>)
    ensures
        r == inherited_rotate(rotate_entries(*doc), parent_entries(*doc), start, PAGE_TREE_DEPTH as nat),
{
    let mut cur = start;
    let mut fuel: usize = PAGE_TREE_DEPTH;
    loop
        invariant
            inherited_rotate(rotate_entries(*doc), parent_entries(*doc), start, PAGE_TREE_DEPTH as nat)
                == inherited_rotate(rotate_entries(*doc), parent_entries(*doc), cur, fuel as nat),
        decreases fuel,
    {
        match cur {
            None => {
                return None;
            },
            Some(id) => {
                if fuel == 0 {
                    return None;
                }
                match rotate_entry(doc, id) {
                    Err(_) => {
                        return None;
                    },
                    Ok(Some(v)) => {
                        return Some(v);
                    },
                    Ok(None) => {
                        match parent_entry(doc, id) {
                            Ok(p) => {
                                cur = p;
                                fuel = fuel - 1;
                            },
                            Err(_) => {
                                return None;
                            },
                        }
                    },
                }
            },
        }
    }
}

/// The id of the object that `id` resolves to once references are followed: the
/// dictionary `Document::get_dictionary` and `get_dictionary_mut` reach for `id`.
pub uninterp spec fn dictionary_id(doc: lopdf::Document, id: ObjId) -> ObjId;

/// `Document::get_dictionary_mut` and `Dictionary::set("Rotate", ..)` (lopdf). Setting
/// one key leaves the page tree, the set of dictionaries and every reference as they
/// were; every id that resolves to the same dictionary as `id` reads the new value,
/// and every other id reads what it read before.
#[verifier::external_body]
pub(crate) fn set_rotate(doc: &mut lopdf::Document, id: ObjId, value: i64) -> (r: Result<(), String>)
    ensures
        r is Ok <==> rotate_entries(*old(doc)).dom().contains(id),
        r is Ok ==> rotate_entries(*final(doc)).dom() == rotate_entries(*old(doc)).dom(),
        r is Ok ==> forall|x: ObjId| #![trigger rotate_entries(*final(doc))[x]]
            rotate_entries(*old(doc)).dom().contains(x) ==> rotate_entries(*final(doc))[x] == (if dictionary_id(
                *old(doc),
                x,
            ) == dictionary_id(*old(doc), id) {
                Some(value)
            } else {
                rotate_entries(*old(doc))[x]
            }),
        r is Ok ==> forall|x: ObjId| #[trigger] dictionary_id(*final(doc), x) == dictionary_id(*old(doc), x),
        r is Ok ==> parent_entries(*final(doc)) == parent_entries(*old(doc)),
        r is Ok ==> page_ids(*final(doc)) == page_ids(*old(doc)),
        r is Err ==> *final(doc) == *old(doc),
{
    match doc.get_dictionary_mut(id) {
        Ok(d) => {
            d.set("Rotate", lopdf::Object::Integer(value));
            Ok(())
        },
        Err(e) => Err(e.to_string()),
    }
}

/// The `Rotate` entries after turning each listed page that exists `degrees`, one
/// listing at a time: the page's dictionary, and so every id that resolves to it,
/// gets `rotated(the rotation the page shows, degrees)`; every other entry stays.
pub open spec fn turned(
    entries: Map<ObjId, Option<i64>>,
    dict: spec_fn(ObjId) -> ObjId,
    parents: Map<ObjId, Option<ObjId>>,
    ids: Seq<ObjId>,
    pages: Seq<u32>,
    degrees: int,
) -> Map<ObjId, Option<i64>>
    decreases pages.len(),
{
    if pages.len() == 0 {
        entries
    } else {
        let before = turned(entries, dict, parents, ids, pages.drop_last(), degrees);
        let p = pages.last();
        if in_range(p, ids.len()) {
            let id = ids[p - 1];
            let v = rotated(shown_rotation(before, parents, id), degrees) as i64;
            Map::new(
                |x: ObjId| before.dom().contains(x),
                |x: ObjId| if dict(x) == dict(id) { Some(v) } else { before[x] },
            )
        } else {
            before
        }
    }
}

/// Whether every listed page that exists is a dictionary in `doc`.
pub open spec fn pages_editable(doc: lopdf::Document, pages: Seq<u32>) -> bool {
    forall|i: int|
        0 <= i < pages.len() && in_range(#[trigger] pages[i], page_ids(doc).len())
            ==> rotate_entries(doc).dom().contains(page_ids(doc)[pages[i] - 1])
}

/// Turns the listed pages (1-based) `degrees` clockwise (90, 180, 270); returns how
/// many turns were made (a page listed twice turns twice). Each listed page gets
/// `rotated(its Rotate or 0, degrees)`, and every other entry stays (`turned`).
pub fn rotate_pages(doc: &mut lopdf::Document, pages: &[u32], degrees: i64) -> (r: Result<usize, PageEditError>)
    ensures
        page_ids(*final(doc)) == page_ids(*old(doc)),
        rotate_entries(*final(doc)).dom() == rotate_entries(*old(doc)).dom(),
        r is Ok <==> valid_pages(pages@, page_ids(*old(doc)).len()).len() > 0 && pages_editable(*old(doc), pages@),
        r matches Ok(n) ==> n == valid_pages(pages@, page_ids(*old(doc)).len()).len(),
        valid_pages(pages@, page_ids(*old(doc)).len()).len() == 0 ==> r == Err::<usize, PageEditError>(
            PageEditError::NothingToRotate,
        ) && *final(doc) == *old(doc),
        r matches Err(PageEditError::Page { page, .. }) ==> in_range(page, page_ids(*old(doc)).len()),
        r is Ok ==> rotate_entries(*final(doc)) == turned(
            rotate_entries(*old(doc)),
            |x: ObjId| dictionary_id(*old(doc), x),
            parent_entries(*old(doc)),
            page_ids(*old(doc)),
            pages@,
            degrees as int,
        ),
{
    let ids = pages_of(doc);
    let ghost ids0 = page_ids(*doc);
    let ghost dom0 = rotate_entries(*doc).dom();
    let ghost doc0 = *doc;
    let ghost d0 = |x: ObjId| dictionary_id(doc0, x);
    let ghost e0 = rotate_entries(doc0);
    let ghost p0 = parent_entries(doc0);
    let total = ids.len();
    let mut done: usize = 0;
    let mut i: usize = 0;
    while i < pages.len()
        invariant
            i <= pages@.len(),
            ids@ == ids0,
            total == ids0.len(),
            page_ids(*doc) == ids0,
            rotate_entries(*doc).dom() == dom0,
            doc0 == *old(doc),
            page_ids(doc0) == ids0,
            rotate_entries(doc0).dom() == dom0,
            done == valid_pages(pages@.take(i as int), total as nat).len(),
            done == 0 ==> *doc == doc0,
            d0 == (|x: ObjId| dictionary_id(doc0, x)),
            e0 == rotate_entries(doc0),
            p0 == parent_entries(doc0),
            parent_entries(*doc) == p0,
            forall|x: ObjId| #[trigger] dictionary_id(*doc, x) == dictionary_id(doc0, x),
            rotate_entries(*doc) == turned(e0, d0, p0, ids0, pages@.take(i as int), degrees as int),
            forall|j: int|
                0 <= j < i && in_range(#[trigger] pages@[j], total as nat) ==> dom0.contains(ids0[pages@[j] - 1]),
        decreases pages@.len() - i,
    {
        let p = pages[i];
        assert(pages@.take(i + 1).drop_last() == pages@.take(i as int));
        assert(pages@.take(i + 1).last() == p);
        if p >= 1 && (p as usize) <= total {
            proof {
                lemma_valid_pages_prefix(pages@, i + 1, total as nat);
            }
            let id = ids[(p - 1) as usize];
            let current = match rotate_entry(doc, id) {
                Ok(v) => v,
                Err(e) => {
                    proof {
                        assert(!pages_editable(doc0, pages@)) by {
                            assert(in_range(pages@[i as int], total as nat));
                        }
                    }
                    return Err(PageEditError::Page { page: p, detail: e });
                },
            };
            let shown = match current {
                Some(c) => c,
                None => {
                    let up = match parent_entry(doc, id) {
                        Ok(up) => up,
                        Err(e) => {
                            return Err(PageEditError::Page { page: p, detail: e });
                        },
                    };
                    match inherited(doc, up) {
                        Some(c) => c,
                        None => 0,
                    }
                },
            };
            let value = rotation(shown, degrees);
            let ghost before_doc = *doc;
            match set_rotate(doc, id, value) {
                Ok(()) => {},
                Err(e) => {
                    return Err(PageEditError::Page { page: p, detail: e });
                },
            }
            proof {
                let before = turned(e0, d0, p0, ids0, pages@.take(i as int), degrees as int);
                assert(before == rotate_entries(before_doc));
                assert(shown as int == shown_rotation(before, p0, id));
                assert(ids0[p - 1] == id);
                assert(rotate_entries(*doc) =~= turned(e0, d0, p0, ids0, pages@.take(i + 1), degrees as int));
            }
            assert(done < pages@.len()) by {
                lemma_valid_pages_len(pages@.take(i as int), total as nat);
            }
            done = done + 1;
        } else {
            assert(turned(e0, d0, p0, ids0, pages@.take(i + 1), degrees as int) == turned(
                e0,
                d0,
                p0,
                ids0,
                pages@.take(i as int),
                degrees as int,
            ));
        }
        i = i + 1;
    }
    assert(pages@.take(pages@.len() as int) == pages@);
    if done == 0 {
        return Err(PageEditError::NothingToRotate);
    }
    proof {
        assert(pages_editable(doc0, pages@));
    }
    Ok(done)
}

proof fn lemma_valid_pages_prefix(pages: Seq<u32>, k: int, total: nat)
    requires
        0 <= k <= pages.len(),
    ensures
        valid_pages(pages.take(k), total).len() <= valid_pages(pages, total).len(),
    decreases pages.len(),
{
    if k < pages.len() {
        assert(pages.drop_last().take(k) == pages.take(k));
        lemma_valid_pages_prefix(pages.drop_last(), k, total);
    } else {
        assert(pages.take(k) == pages);
    }
}

proof fn lemma_valid_pages_len(pages: Seq<u32>, total: nat)
    ensures
        valid_pages(pages, total).len() <= pages.len(),
    decreases pages.len(),
{
    if pages.len() > 0 {
        lemma_valid_pages_len(pages.drop_last(), total);
    }
}


/// The JPEG file that `image`'s `JpegEncoder` (at `quality`) writes for an RGB image
/// of `width` × `height` pixels given row by row, three bytes per pixel.
pub uninterp spec fn jpeg_encoding(rgb: Seq<u8>, width: u32, height: u32, quality: u8) -> Seq<u8>;

/// The character of the standard base64 alphabet (RFC 4648) for `v` in `0..64`:
/// `A`–`Z`, `a`–`z`, `0`–`9`, `+`, `/`.
pub open spec fn base64_char(v: int) -> char {
    if v < 26 {
        (65 + v) as char
    } else if v < 52 {
        (97 + v - 26) as char
    } else if v < 62 {
        (48 + v - 52) as char
    } else if v == 62 {
        '+'
    } else {
        '/'
    }
}

/// The standard base64 text (RFC 4648, with `=` padding) of `bytes`: each group of
/// three bytes becomes four characters of six bits each, and a last group of one or
/// two bytes is padded to four characters with `=`.
pub open spec fn base64_standard(bytes: Seq<u8>) -> Seq<char>
    decreases bytes.len(),
{
    if bytes.len() == 0 {
        Seq::empty()
    } else {
        let b0 = bytes[0] as int;
        let b1 = if bytes.len() > 1 { bytes[1] as int } else { 0 };
        let b2 = if bytes.len() > 2 { bytes[2] as int } else { 0 };
        let group = seq![
            base64_char(b0 / 4),
            base64_char((b0 % 4) * 16 + b1 / 16),
            if bytes.len() > 1 { base64_char((b1 % 16) * 4 + b2 / 64) } else { '=' },
            if bytes.len() > 2 { base64_char(b2 % 64) } else { '=' },
        ];
        if bytes.len() > 3 {
            group + base64_standard(bytes.skip(3))
        } else {
            group
        }
    }
}


/// `JpegEncoder::new_with_quality` and `JpegEncoder::encode` (image), into memory. The
/// encoder refuses a side of 0 or of more than 65535 pixels, and panics on a buffer
/// whose length is not `width * height * 3`.
#[verifier::external_body]
pub(crate) fn encode_jpeg(rgb: &[u8], width: u32, height: u32, quality: u8) -> (r: Result<Vec<u8>, String>)
    requires
        rgb@.len() == width * height * 3,
    ensures
        r is Ok <==> (1 <= width <= 65535 && 1 <= height <= 65535),
        r matches Ok(b) ==> b@ == jpeg_encoding(rgb@, width, height, quality),
{
    let mut buf = Vec::new();
    let mut enc = image::codecs::jpeg::JpegEncoder::new_with_quality(&mut buf, quality);
    match enc.encode(rgb, width, height, image::ExtendedColorType::Rgb8) {
        Ok(()) => Ok(buf),
        Err(e) => Err(e.to_string()),
    }
}

/// `base64::engine::general_purpose::STANDARD.encode` (base64): the RFC 4648 text of
/// `bytes` with the standard alphabet and `=` padding, as `base64_standard` spells out.
#[verifier::external_body]
pub(crate) fn base64_encode(bytes: &[u8]) -> (r: String)
    ensures
        r@ == base64_standard(bytes@),
{
    base64::engine::general_purpose::STANDARD.encode(bytes)
}

/// The text in front of the base64 of a JPEG data URL.
pub open spec fn jpeg_url_prefix() -> Seq<char> {
    "data:image/jpeg;base64,"@
}

/// An RGB image (`width` × `height`, three bytes per pixel) as a JPEG data URL
/// (`data:image/jpeg;base64,…`) at `quality`; the encoder's words when a side is 0
/// or larger than 65535 pixels.
pub fn jpeg_data_url(rgb: &[u8], width: u32, height: u32, quality: u8) -> (r: Result<String, String>)
    requires
        rgb@.len() == width * height * 3,
    ensures
        r is Ok <==> (1 <= width <= 65535 && 1 <= height <= 65535),
        r matches Ok(u) ==> u@ == jpeg_url_prefix() + base64_standard(jpeg_encoding(rgb@, width, height, quality)),
{
    let jpeg = encode_jpeg(rgb, width, height, quality)?;
    let b64 = base64_encode(jpeg.as_slice());
    let mut url = "data:image/jpeg;base64,".to_string();
    url.append(b64.as_str());
    Ok(url)
}

/// The box an image `img_width` pixels wide is shrunk into for a thumbnail `width`
/// pixels wide (`width` × `3 * width`), or `None` when it is already narrow enough.
pub fn thumbnail_box(img_width: u32, width: u32) -> (r: Option<(u32, u32)>)
    requires
        img_width > width ==> width * 3 <= u32::MAX,
    ensures
        img_width > width ==> r == Some((width, (width * 3) as u32)),
        img_width <= width ==> r is None,
{
    if img_width > width {
        Some((width, width * 3))
    } else {
        None
    }
}


/// Removing pages never removes them all: when pages are removed, at least one and
/// fewer than all are, and the count returned is what stays (at least one).
pub proof fn lemma_delete_leaves_pages(total: nat, pages: Seq<u32>)
    ensures
        delete_selection(total, pages) matches Ok(v) ==> 0 < v.len() < total && total - v.len() >= 1,
{
}

proof fn lemma_listed_unlisted_partition(pages: Seq<u32>, k: nat)
    requires
        k <= u32::MAX,
    ensures
        listed_upto(pages, k).len() + unlisted_upto(pages, k).len() == k,
        forall|i: int| 0 <= i < unlisted_upto(pages, k).len() ==> 1 <= #[trigger] unlisted_upto(pages, k)[i] <= k,
    decreases k,
{
    if k > 0 {
        lemma_listed_unlisted_partition(pages, (k - 1) as nat);
        let u = unlisted_upto(pages, k);
        let u0 = unlisted_upto(pages, (k - 1) as nat);
        assert forall|i: int| 0 <= i < u.len() implies 1 <= #[trigger] u[i] <= k by {
            if i < u0.len() {
                assert(u[i] == u0[i]);
            }
        }
    }
}

proof fn lemma_unlisted_contains(pages: Seq<u32>, k: nat, j: u32)
    requires
        k <= u32::MAX,
    ensures
        unlisted_upto(pages, k).contains(j) <==> (1 <= j <= k && !pages.contains(j)),
    decreases k,
{
    if k > 0 {
        lemma_unlisted_contains(pages, (k - 1) as nat, j);
        let r = unlisted_upto(pages, (k - 1) as nat);
        if !pages.contains(k as u32) {
            vstd::seq_lib::lemma_seq_contains_after_push(r, k as u32, j);
        }
    }
}

proof fn lemma_listed_same(x: Seq<u32>, y: Seq<u32>, k: nat)
    requires
        k <= u32::MAX,
        forall|j: u32| 1 <= j <= k ==> (#[trigger] x.contains(j) <==> y.contains(j)),
    ensures
        listed_upto(x, k) == listed_upto(y, k),
    decreases k,
{
    if k > 0 {
        lemma_listed_same(x, y, (k - 1) as nat);
        assert(x.contains(k as u32) <==> y.contains(k as u32));
    }
}

proof fn lemma_listed_of_unlisted(pages: Seq<u32>, k: nat)
    requires
        k <= u32::MAX,
    ensures
        listed_upto(unlisted_upto(pages, k), k) == unlisted_upto(pages, k),
    decreases k,
{
    if k > 0 {
        let k1 = (k - 1) as nat;
        lemma_listed_of_unlisted(pages, k1);
        assert forall|j: u32| 1 <= j <= k1 implies (#[trigger] unlisted_upto(pages, k).contains(j) <==> unlisted_upto(
            pages,
            k1,
        ).contains(j)) by {
            lemma_unlisted_contains(pages, k, j);
            lemma_unlisted_contains(pages, k1, j);
        }
        lemma_listed_same(unlisted_upto(pages, k), unlisted_upto(pages, k1), k1);
        lemma_unlisted_contains(pages, k, k as u32);
    }
}

/// Keeping some pages is removing the rest: for a document of `total` pages, the
/// pages `keep_pages` hands to the PDF library are exactly what `delete_pages`
/// removes when given them, and both leave the same number of pages.
pub proof fn lemma_keep_is_delete_of_rest(total: nat, pages: Seq<u32>)
    requires
        total <= u32::MAX,
    ensures
        keep_selection(total, pages) matches Ok((remove, kept)) ==> delete_selection(total, remove) == Ok::<
            Seq<u32>,
            PageEditError,
        >(remove) && total - remove.len() == kept,
{
    assert((total as u32) as nat == total);
    lemma_listed_unlisted_partition(pages, total);
    lemma_listed_of_unlisted(pages, total);
}

proof fn lemma_mod_add(a: int, b: int)
    ensures
        (a % 360 + b) % 360 == (a + b) % 360,
{
    vstd::arithmetic::div_mod::lemma_add_mod_noop(a, b, 360);
    vstd::arithmetic::div_mod::lemma_mod_twice(b, 360);
}

/// For a page upright or turned a whole number of quarter turns (`0 <= c < 360`),
/// turning it `a` degrees and then `b` degrees is turning it `a + b` degrees, and
/// the value stays in `0..360`.
pub proof fn lemma_rotations_compose(c: int, a: int, b: int)
    requires
        0 <= c < 360,
    ensures
        0 <= rotated(c, a) < 360,
        rotated(rotated(c, a), b) == rotated(c, a + b),
{
    let r1 = (c + a % 360) % 360;
    assert(rotated(c, a) == r1);
    assert(rotated(r1, b) == (r1 + b % 360) % 360);
    // (c + a%360) % 360 + b%360  ≡  c + a + b  (mod 360)
    lemma_mod_add(c + a % 360, b % 360);
    vstd::arithmetic::div_mod::lemma_add_mod_noop(c, a, 360);
    vstd::arithmetic::div_mod::lemma_mod_twice(a, 360);
    vstd::arithmetic::div_mod::lemma_add_mod_noop(c + a, b, 360);
    vstd::arithmetic::div_mod::lemma_mod_twice(b, 360);
    vstd::arithmetic::div_mod::lemma_add_mod_noop(c, a + b, 360);
    vstd::arithmetic::div_mod::lemma_mod_twice(a + b, 360);
    assert((c + a % 360) % 360 == (c + a) % 360);
    assert((r1 + b % 360) % 360 == (c + a + b) % 360);
    assert((c + (a + b) % 360) % 360 == (c + a + b) % 360);
}

/// A full turn leaves an upright or quarter-turned page as it was.
pub proof fn lemma_full_turn(c: int)
    requires
        0 <= c < 360,
    ensures
        rotated(c, 360) == c,
        rotated(rotated(rotated(rotated(c, 90), 90), 90), 90) == c,
{
    lemma_rotations_compose(c, 90, 90);
    lemma_rotations_compose(c, 180, 90);
    lemma_rotations_compose(c, 270, 90);
}

/// Turning a page back undoes the turn: after `rotate_pages` turns page `p` by `a`
/// degrees and then by `-a` degrees, every id that resolves to its dictionary reads
/// the rotation the page showed before (its own, inherited or 0), provided it was
/// upright or a quarter turn (`0..360`); every other entry is as it was.
pub proof fn lemma_turn_back(
    e: Map<ObjId, Option<i64>>,
    dict: spec_fn(ObjId) -> ObjId,
    parents: Map<ObjId, Option<ObjId>>,
    ids: Seq<ObjId>,
    p: u32,
    a: int,
)
    requires
        in_range(p, ids.len()),
        e.dom().contains(ids[p - 1]),
        0 <= shown_rotation(e, parents, ids[p - 1]) < 360,
    ensures
        forall|x: ObjId| #![trigger e[x]]
            e.dom().contains(x) ==> turned(turned(e, dict, parents, ids, seq![p], a), dict, parents, ids, seq![p], -a)[x]
                == (if dict(x) == dict(ids[p - 1]) {
                Some(shown_rotation(e, parents, ids[p - 1]) as i64)
            } else {
                e[x]
            }),
        turned(turned(e, dict, parents, ids, seq![p], a), dict, parents, ids, seq![p], -a).dom() == e.dom(),
{
    reveal_with_fuel(turned, 2);
    assert(seq![p].drop_last() =~= Seq::<u32>::empty());
    let id = ids[p - 1];
    let c = shown_rotation(e, parents, id);
    lemma_rotations_compose(c, a, -a);
    assert(rotated(c, 0) == c);
    let once = turned(e, dict, parents, ids, seq![p], a);
    assert(once[id] == Some(rotated(c, a) as i64));
    assert(shown_rotation(once, parents, id) == rotated(c, a));
}

/// The object id of the `j`-th listed page.
pub open spec fn listed_id(ids: Seq<ObjId>, pages: Seq<u32>, j: int) -> ObjId {
    ids[pages[j] - 1]
}

/// Whether `x` resolves to the dictionary of one of the listed pages.
pub open spec fn in_listed_dictionary(dict: spec_fn(ObjId) -> ObjId, ids: Seq<ObjId>, pages: Seq<u32>, x: ObjId) -> bool {
    exists|j: int| 0 <= j < pages.len() && dict(x) == dict(#[trigger] listed_id(ids, pages, j))
}

/// Whether every listed page exists, holds its own `Rotate` in `m`, and no two listed
/// pages share a dictionary (so none is listed twice).
pub open spec fn own_rotations_apart(
    m: Map<ObjId, Option<i64>>,
    dict: spec_fn(ObjId) -> ObjId,
    ids: Seq<ObjId>,
    pages: Seq<u32>,
) -> bool {
    &&& forall|j: int| 0 <= j < pages.len() ==> in_range(#[trigger] pages[j], ids.len())
    &&& forall|j: int|
        0 <= j < pages.len() ==> m.dom().contains(#[trigger] listed_id(ids, pages, j)) && m[listed_id(ids, pages, j)] is Some
    &&& forall|j: int, l: int|
        0 <= j < l < pages.len() ==> dict(#[trigger] listed_id(ids, pages, j)) != dict(#[trigger] listed_id(ids, pages, l))
}

proof fn lemma_turned_own(
    m: Map<ObjId, Option<i64>>,
    dict: spec_fn(ObjId) -> ObjId,
    parents: Map<ObjId, Option<ObjId>>,
    ids: Seq<ObjId>,
    pages: Seq<u32>,
    a: int,
)
    requires
        own_rotations_apart(m, dict, ids, pages),
    ensures
        turned(m, dict, parents, ids, pages, a).dom() == m.dom(),
        forall|x: ObjId|
            m.dom().contains(x) && !in_listed_dictionary(dict, ids, pages, x) ==> #[trigger] turned(
                m,
                dict,
                parents,
                ids,
                pages,
                a,
            )[x] == m[x],
        forall|j: int, x: ObjId|
            0 <= j < pages.len() && m.dom().contains(x) && dict(x) == dict(#[trigger] listed_id(ids, pages, j))
                ==> #[trigger] turned(m, dict, parents, ids, pages, a)[x] == Some(
                rotated(m[listed_id(ids, pages, j)]->0 as int, a) as i64,
            ),
    decreases pages.len(),
{
    if pages.len() > 0 {
        let q = pages.drop_last();
        let n = pages.len() - 1;
        assert forall|j: int| 0 <= j < q.len() implies #[trigger] listed_id(ids, q, j) == listed_id(ids, pages, j) by {
            assert(q[j] == pages[j]);
        }
        assert(own_rotations_apart(m, dict, ids, q)) by {
            assert forall|j: int| 0 <= j < q.len() implies in_range(#[trigger] q[j], ids.len()) by {
                assert(q[j] == pages[j]);
            }
            assert forall|j: int, l: int| 0 <= j < l < q.len() implies dict(#[trigger] listed_id(ids, q, j)) != dict(
                #[trigger] listed_id(ids, q, l),
            ) by {
                assert(listed_id(ids, q, j) == listed_id(ids, pages, j));
                assert(listed_id(ids, q, l) == listed_id(ids, pages, l));
            }
            assert forall|j: int| 0 <= j < q.len() implies m.dom().contains(#[trigger] listed_id(ids, q, j))
                && m[listed_id(ids, q, j)] is Some by {
                assert(listed_id(ids, q, j) == listed_id(ids, pages, j));
            }
        }
        lemma_turned_own(m, dict, parents, ids, q, a);
        let before = turned(m, dict, parents, ids, q, a);
        let idn = listed_id(ids, pages, n);
        assert(pages.last() == pages[n]);
        assert(in_range(pages[n], ids.len()));
        assert(m.dom().contains(idn) && m[idn] is Some);
        assert(!in_listed_dictionary(dict, ids, q, idn)) by {
            if in_listed_dictionary(dict, ids, q, idn) {
                let j = choose|j: int| 0 <= j < q.len() && dict(idn) == dict(#[trigger] listed_id(ids, q, j));
                assert(listed_id(ids, q, j) == listed_id(ids, pages, j));
                assert(dict(listed_id(ids, pages, j)) != dict(listed_id(ids, pages, n)));
            }
        }
        assert(before[idn] == m[idn]);
        let after = turned(m, dict, parents, ids, pages, a);
        assert forall|x: ObjId|
            m.dom().contains(x) && !in_listed_dictionary(dict, ids, pages, x) implies #[trigger] after[x] == m[x] by {
            if in_listed_dictionary(dict, ids, q, x) {
                let j = choose|j: int| 0 <= j < q.len() && dict(x) == dict(#[trigger] listed_id(ids, q, j));
                assert(listed_id(ids, q, j) == listed_id(ids, pages, j));
            }
            assert(dict(x) != dict(listed_id(ids, pages, n)));
        }
        assert forall|j: int, x: ObjId|
            0 <= j < pages.len() && m.dom().contains(x) && dict(x) == dict(#[trigger] listed_id(ids, pages, j))
                implies #[trigger] after[x] == Some(rotated(m[listed_id(ids, pages, j)]->0 as int, a) as i64) by {
            if j < n {
                assert(listed_id(ids, q, j) == listed_id(ids, pages, j));
                assert(dict(listed_id(ids, pages, j)) != dict(listed_id(ids, pages, n)));
            }
        }
    }
}

/// Turning the listed pages back undoes the turn: when every listed page holds its own
/// upright or quarter-turn `Rotate` (`0..360`) and no two share a dictionary, turning
/// them `a` degrees and then `b` degrees with `a + b` a whole number of turns (such as
/// `b == 360 - a.rem_euclid(360)`) gives every listed page, and every id on its
/// dictionary, its former `Rotate` again, and leaves every other entry as it was.
pub proof fn lemma_turn_back_pages(
    e: Map<ObjId, Option<i64>>,
    dict: spec_fn(ObjId) -> ObjId,
    parents: Map<ObjId, Option<ObjId>>,
    ids: Seq<ObjId>,
    pages: Seq<u32>,
    a: int,
    b: int,
)
    requires
        own_rotations_apart(e, dict, ids, pages),
        forall|j: int| 0 <= j < pages.len() ==> 0 <= (#[trigger] e[listed_id(ids, pages, j)])->0 < 360,
        (a + b) % 360 == 0,
    ensures
        turned(turned(e, dict, parents, ids, pages, a), dict, parents, ids, pages, b).dom() == e.dom(),
        forall|x: ObjId|
            e.dom().contains(x) && !in_listed_dictionary(dict, ids, pages, x) ==> #[trigger] turned(
                turned(e, dict, parents, ids, pages, a),
                dict,
                parents,
                ids,
                pages,
                b,
            )[x] == e[x],
        forall|j: int, x: ObjId|
            0 <= j < pages.len() && e.dom().contains(x) && dict(x) == dict(#[trigger] listed_id(ids, pages, j))
                ==> #[trigger] turned(turned(e, dict, parents, ids, pages, a), dict, parents, ids, pages, b)[x]
                == e[listed_id(ids, pages, j)],
{
    lemma_turned_own(e, dict, parents, ids, pages, a);
    let once = turned(e, dict, parents, ids, pages, a);
    assert forall|j: int| 0 <= j < pages.len() implies #[trigger] once[listed_id(ids, pages, j)] == Some(
        rotated(e[listed_id(ids, pages, j)]->0 as int, a) as i64,
    ) by {
        assert(e.dom().contains(listed_id(ids, pages, j)));
    }
    assert(own_rotations_apart(once, dict, ids, pages)) by {
        assert forall|j: int| 0 <= j < pages.len() implies once.dom().contains(#[trigger] listed_id(ids, pages, j))
            && once[listed_id(ids, pages, j)] is Some by {
            assert(once[listed_id(ids, pages, j)] == Some(rotated(e[listed_id(ids, pages, j)]->0 as int, a) as i64));
        }
    }
    lemma_turned_own(once, dict, parents, ids, pages, b);
    let twice = turned(once, dict, parents, ids, pages, b);
    assert forall|j: int, x: ObjId|
        0 <= j < pages.len() && e.dom().contains(x) && dict(x) == dict(#[trigger] listed_id(ids, pages, j))
            implies #[trigger] twice[x] == e[listed_id(ids, pages, j)] by {
        let id = listed_id(ids, pages, j);
        let c = e[id]->0 as int;
        assert(0 <= c < 360);
        lemma_rotations_compose(c, a, b);
        assert(once[id] == Some(rotated(c, a) as i64));
        assert(rotated(c, a + b) == c);
        assert(e[id] == Some(c as i64));
    }
}

} // verus!
