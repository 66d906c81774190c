//! Builds the language columns from the files of a directory.
//!
//! Each `.json` file is a flat object of key to translated string. The file
//! named `en` contributes its keys, every other file its values, in the order
//! the object lists them. Files with another extension are passed over.

use vstd::prelude::*;
use crate::json::{EntryView, JsonEntry, JsonTop, json_document, parse_json};
use crate::text::same_text;

verus! {

/// One language: its name (the file's base name) and its texts, one per key.
#[derive(Debug)]
pub struct Lan {
    pub name: String,
    pub texts: Vec<String>,
}

/// A language seen as its name and its texts.
pub type LanView = (Seq<char>, Seq<Seq<char>>);

impl View for Lan {
    type V = LanView;

    open spec fn view(&self) -> LanView {
        (self.name@, self.texts.deep_view())
    }
}

/// The views of a sequence of languages.
pub open spec fn lans_view(v: Seq<Lan>) -> Seq<LanView> {
    v.map_values(|l: Lan| l@)
}

/// One entry of the directory: the file's base name, its extension if it
/// has one, and its bytes (only those of a `.json` file are read).
#[derive(Debug)]
pub struct SourceFile {
    pub stem: String,
    pub extension: Option<String>,
    pub contents: Vec<u8>,
}

/// Why a directory could not be loaded.
#[derive(Debug)]
pub enum LoadError {
    /// A `.json` file is not well-formed JSON.
    Parse(serde_json::Error),
    /// A `.json` file holds something other than an object at its top level.
    NotAnObject,
    /// A file other than `en` maps a key to something other than a string.
    NonStringValue,
    /// A directory entry has no extension.
    MissingExtension,
}

/// The kind of a `LoadError`, without the parser's details.
#[derive(PartialEq, Eq, Structural, Clone, Copy, Debug)]
pub enum LoadErrorKind {
    Parse,
    NotAnObject,
    NonStringValue,
    MissingExtension,
}

pub open spec fn error_kind(e: LoadError) -> LoadErrorKind {
    match e {
        LoadError::Parse(_) => LoadErrorKind::Parse,
        LoadError::NotAnObject => LoadErrorKind::NotAnObject,
        LoadError::NonStringValue => LoadErrorKind::NonStringValue,
        LoadError::MissingExtension => LoadErrorKind::MissingExtension,
    }
}

/// The view of a language that was built, or the kind of the error met.
pub open spec fn outcome_of(r: &Result<Lan, LoadError>) -> Result<LanView, LoadErrorKind> {
    match r {
        Ok(lan) => Ok(lan@),
        Err(e) => Err(error_kind(*e)),
    }
}

/// The name of the language whose file lists keys rather than texts.
pub open spec fn is_en(name: Seq<char>) -> bool {
    name == seq!['e', 'n']
}

pub open spec fn is_json_ext(ext: Seq<char>) -> bool {
    ext == seq!['j', 's', 'o', 'n']
}

/// Whether every entry maps its key to a string.
pub open spec fn all_strings(entries: Seq<EntryView>) -> bool {
    forall|i: int| 0 <= i < entries.len() ==> (#[trigger] entries[i]).1 is Some
}

pub open spec fn keys_of(entries: Seq<EntryView>) -> Seq<Seq<char>> {
    entries.map_values(|e: EntryView| e.0)
}

pub open spec fn values_of(entries: Seq<EntryView>) -> Seq<Seq<char>> {
    entries.map_values(|e: EntryView| e.1.unwrap())
}

/// The texts of a language: the keys for `en`, the values for any other.
pub open spec fn texts_of(name: Seq<char>, entries: Seq<EntryView>) -> Seq<Seq<char>> {
    if is_en(name) {
        keys_of(entries)
    } else {
        values_of(entries)
    }
}

/// The language named `name` read from a document whose top level is `top`.
pub open spec fn language_outcome(name: Seq<char>, top: Option<Seq<EntryView>>) -> Result<
    LanView,
    LoadErrorKind,
> {
    match top {
        None => Err(LoadErrorKind::NotAnObject),
        Some(entries) => if !is_en(name) && !all_strings(entries) {
            Err(LoadErrorKind::NonStringValue)
        } else {
            Ok((name, texts_of(name, entries)))
        },
    }
}

/// Whether a directory entry is a language file, i.e. has extension `json`.
pub open spec fn is_language_file(f: SourceFile) -> bool {
    f.extension is Some && is_json_ext(f.extension->Some_0@)
}

/// What one directory entry contributes: nothing, a language, or an error.
pub open spec fn file_outcome(f: SourceFile) -> Result<Option<LanView>, LoadErrorKind> {
    match f.extension {
        None => Err(LoadErrorKind::MissingExtension),
        Some(ext) => if !is_json_ext(ext@) {
            Ok(None)
        } else {
            match json_document(f.contents@) {
                None => Err(LoadErrorKind::Parse),
                Some(top) => match language_outcome(f.stem@, top) {
                    Ok(l) => Ok(Some(l)),
                    Err(k) => Err(k),
                },
            }
        },
    }
}

/// The languages of a directory whose entries are `files`, in entry order,
/// or the first error met when going through the entries in that order.
pub open spec fn load_outcome(files: Seq<SourceFile>) -> Result<Seq<LanView>, LoadErrorKind>
    decreases files.len(),
{
    if files.len() == 0 {
        Ok(Seq::empty())
    } else {
        match load_outcome(files.drop_last()) {
            Err(k) => Err(k),
            Ok(langs) => match file_outcome(files.last()) {
                Err(k) => Err(k),
                Ok(None) => Ok(langs),
                Ok(Some(l)) => Ok(langs.push(l)),
            },
        }
    }
}

/// Whether a file with extension `ext` is a language file.
pub fn is_json_extension(ext: &str) -> (r: bool)
    ensures
        r == is_json_ext(ext@),
{
    let r = same_text(ext, "json");
    proof {
        reveal_strlit("json");
        assert("json"@ =~= seq!['j', 's', 'o', 'n']);
    }
    r
}

/// Builds the language `name` from the top level of its parsed document.
pub fn language_from_document(name: String, top: JsonTop) -> (r: Result<Lan, LoadError>)
    ensures
        language_outcome(name@, top@) == outcome_of(&r),
{
    let entries = match top {
        JsonTop::Object(entries) => entries,
        JsonTop::NotObject => {
            return Err(LoadError::NotAnObject);
        },
    };
    let ghost ev = entries@.map_values(|e: JsonEntry| e@);
    let en = same_text(name.as_str(), "en");
    proof {
        reveal_strlit("en");
        assert("en"@ =~= seq!['e', 'n']);
    }
    let mut texts: Vec<String> = Vec::new();
    let mut i: usize = 0;
    while i < entries.len()
        invariant
            ev == entries@.map_values(|e: JsonEntry| e@),
            top@ == Some(ev),
            en == is_en(name@),
            i <= entries.len(),
            texts.deep_view() == texts_of(name@, ev.subrange(0, i as int)),
            !en ==> all_strings(ev.subrange(0, i as int)),
        decreases entries.len() - i,
    {
        let entry = &entries[i];
        if en {
            texts.push(entry.key.clone());
        } else {
            match &entry.text {
                Some(t) => texts.push(t.clone()),
                None => {
                    assert(ev[i as int].1 is None);
                    assert(!all_strings(ev));
                    return Err(LoadError::NonStringValue);
                },
            }
        }
        proof {
            let pre = ev.subrange(0, i as int);
            let next = ev.subrange(0, i + 1);
            assert(next == pre.push(ev[i as int]));
            assert(keys_of(next) == keys_of(pre).push(ev[i as int].0));
            if !en {
                assert(values_of(next) == values_of(pre).push(ev[i as int].1.unwrap()));
            }
            assert(texts.deep_view() == texts_of(name@, next));
        }
        i = i + 1;
    }
    assert(ev.subrange(0, i as int) == ev);
    Ok(Lan { name, texts })
}

/// What parsing `contents` as the file of language `name` gives.
pub open spec fn json_outcome(name: Seq<char>, contents: Seq<u8>) -> Result<LanView, LoadErrorKind> {
    match json_document(contents) {
        None => Err(LoadErrorKind::Parse),
        Some(top) => language_outcome(name, top),
    }
}

/// The views of the languages of a load, or the kind of the error met.
pub open spec fn loaded_of(r: &Result<Vec<Lan>, LoadError>) -> Result<Seq<LanView>, LoadErrorKind> {
    match r {
        Ok(langs) => Ok(lans_view(langs@)),
        Err(e) => Err(error_kind(*e)),
    }
}

/// Once a prefix of the entries fails, the whole load fails the same way.
proof fn lemma_error_persists(files: Seq<SourceFile>, n: int)
    requires
        0 <= n <= files.len(),
        load_outcome(files.subrange(0, n)) is Err,
    ensures
        load_outcome(files) == load_outcome(files.subrange(0, n)),
    decreases files.len(),
{
    if n < files.len() {
        assert(files.drop_last().subrange(0, n) == files.subrange(0, n));
        lemma_error_persists(files.drop_last(), n);
    } else {
        assert(files.subrange(0, n) == files);
    }
}

/// Parses the bytes of the file of language `name` and builds the language.
pub fn language_from_json(name: String, contents: &[u8]) -> (r: Result<Lan, LoadError>)
    ensures
        json_outcome(name@, contents@) == outcome_of(&r),
{
    match parse_json(contents) {
        Ok(top) => language_from_document(name, top),
        Err(e) => Err(LoadError::Parse(e)),
    }
}

/// The languages of a directory whose entries are `files`, in entry order.
///
/// Entries whose extension is not `json` are passed over; an entry without an
/// extension, or a `.json` file that cannot be read as a language, makes the
/// whole load fail.
pub fn load_languages(files: &Vec<SourceFile>) -> (r: Result<Vec<Lan>, LoadError>)
    ensures
        load_outcome(files@) == loaded_of(&r),
{
    let mut langs: Vec<Lan> = Vec::new();
    let mut i: usize = 0;
    assert(files@.subrange(0, 0) =~= Seq::<SourceFile>::empty());
    assert(lans_view(langs@) =~= Seq::<LanView>::empty());
    while i < files.len()
        invariant
            i <= files.len(),
            load_outcome(files@.subrange(0, i as int)) == Ok::<Seq<LanView>, LoadErrorKind>(
                lans_view(langs@),
            ),
        decreases files.len() - i,
    {
        let f = &files[i];
        let ghost pre = files@.subrange(0, i as int);
        assert(files@.subrange(0, i + 1).drop_last() == pre);
        assert(files@.subrange(0, i + 1).last() == files@[i as int]);
        let retained = match &f.extension {
            None => {
                proof {
                    lemma_error_persists(files@, i + 1);
                }
                return Err(LoadError::MissingExtension);
            },
            Some(ext) => is_json_extension(ext.as_str()),
        };
        if retained {
            match language_from_json(f.stem.clone(), f.contents.as_slice()) {
                Ok(lan) => {
                    let ghost before = langs@;
                    let ghost l = lan@;
                    langs.push(lan);
                    assert(lans_view(langs@) == lans_view(before).push(l));
                },
                Err(e) => {
                    proof {
                        lemma_error_persists(files@, i + 1);
                    }
                    return Err(e);
                },
            }
        }
        i = i + 1;
    }
    assert(files@.subrange(0, i as int) == files@);
    Ok(langs)
}

/// Whether `lan` is the language read from `f`, a file whose object lists
/// exactly the keys `keys`, in that order: position `i` of its texts is then
/// what `f` gives for `keys[i]`.
pub open spec fn read_from(lan: LanView, f: SourceFile, keys: Seq<Seq<char>>) -> bool {
    &&& is_language_file(f)
    &&& lan.0 == f.stem@
    &&& match json_document(f.contents@) {
        Some(Some(entries)) => keys_of(entries) == keys && lan.1 == texts_of(lan.0, entries),
        _ => false,
    }
}

/// Whether the bytes are a JSON object whose keys are `keys`, in that order.
pub open spec fn lists_keys(bytes: Seq<u8>, keys: Seq<Seq<char>>) -> bool {
    match json_document(bytes) {
        Some(Some(entries)) => keys_of(entries) == keys,
        _ => false,
    }
}

/// When every `.json` file lists the same keys in the same order, a load
/// that succeeds gives languages whose texts all have one length, and
/// position `i` of each is the text its own file gives for the `i`-th key.
pub proof fn lemma_columns_aligned(files: Seq<SourceFile>, keys: Seq<Seq<char>>)
    requires
        load_outcome(files) is Ok,
        forall|j: int|
            0 <= j < files.len() && is_language_file(#[trigger] files[j]) ==> lists_keys(
                files[j].contents@,
                keys,
            ),
    ensures
        forall|k: int|
            0 <= k < load_outcome(files)->Ok_0.len() ==> (#[trigger] load_outcome(
                files,
            )->Ok_0[k]).1.len() == keys.len(),
        forall|k: int|
            0 <= k < load_outcome(files)->Ok_0.len() ==> exists|j: int|
                0 <= j < files.len() && read_from(
                    #[trigger] load_outcome(files)->Ok_0[k],
                    files[j],
                    keys,
                ),
    decreases files.len(),
{
    if files.len() > 0 {
        let pre = files.drop_last();
        assert forall|j: int|
            0 <= j < pre.len() && is_language_file(#[trigger] pre[j]) implies lists_keys(
            pre[j].contents@,
            keys,
        ) by {
            assert(pre[j] == files[j]);
        }
        lemma_columns_aligned(pre, keys);
        let lp = load_outcome(pre)->Ok_0;
        let langs = load_outcome(files)->Ok_0;
        let last = files.last();
        assert forall|k: int| 0 <= k < langs.len() implies exists|j: int|
            0 <= j < files.len() && read_from(#[trigger] langs[k], files[j], keys) by {
            if k < lp.len() {
                assert(langs[k] == lp[k]);
                let j = choose|j: int| 0 <= j < pre.len() && read_from(lp[k], pre[j], keys);
                assert(pre[j] == files[j]);
            } else {
                assert(is_language_file(files[files.len() - 1]));
                assert(read_from(langs[k], files[files.len() - 1], keys));
            }
        }
        assert forall|k: int| 0 <= k < langs.len() implies (#[trigger] langs[k]).1.len()
            == keys.len() by {
            let j = choose|j: int| 0 <= j < files.len() && read_from(langs[k], files[j], keys);
        }
    }
}

/// An entry whose extension is not `json` makes no difference to a load.
pub proof fn lemma_other_files_ignored(files: Seq<SourceFile>, j: int)
    requires
        0 <= j < files.len(),
        files[j].extension is Some,
        !is_json_ext(files[j].extension->Some_0@),
    ensures
        load_outcome(files) == load_outcome(files.remove(j)),
    decreases files.len(),
{
    if j == files.len() - 1 {
        assert(files.remove(j) == files.drop_last());
    } else {
        assert(files.remove(j).drop_last() == files.drop_last().remove(j));
        assert(files.remove(j).last() == files.last());
        lemma_other_files_ignored(files.drop_last(), j);
    }
}

/// One `.json` file that is not well-formed JSON makes the whole load fail,
/// whatever the other files hold.
pub proof fn lemma_malformed_file_fails(files: Seq<SourceFile>, j: int)
    requires
        0 <= j < files.len(),
        is_language_file(files[j]),
        json_document(files[j].contents@) is None,
    ensures
        load_outcome(files) is Err,
    decreases files.len(),
{
    if j < files.len() - 1 {
        assert(files.drop_last()[j] == files[j]);
        lemma_malformed_file_fails(files.drop_last(), j);
    }
}

/// A directory whose entries all have an extension, none of them `json`,
/// loads to no language at all, without error.
pub proof fn lemma_no_language_files(files: Seq<SourceFile>)
    requires
        forall|j: int|
            0 <= j < files.len() ==> (#[trigger] files[j]).extension is Some && !is_json_ext(
                files[j].extension->Some_0@,
            ),
    ensures
        load_outcome(files) == Ok::<Seq<LanView>, LoadErrorKind>(Seq::empty()),
    decreases files.len(),
{
    if files.len() > 0 {
        let pre = files.drop_last();
        assert forall|j: int| 0 <= j < pre.len() implies (#[trigger] pre[j]).extension is Some
            && !is_json_ext(pre[j].extension->Some_0@) by {
            assert(pre[j] == files[j]);
        }
        lemma_no_language_files(pre);
        assert(files[files.len() - 1] == files.last());
    }
}

} // verus!
