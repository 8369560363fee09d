//! Utilities to discover and handle symbols files.

use crate::hex::{all_hex, is_hex};
use crate::paths::{
    copy_bytes, extension, is_in_lower_case, joined, law_joined_then_relative, lower,
    path_extension, relative, relative_path,
};
use crate::text::{
    chars_of, decode, first_at, holds, join, lemma_first_exists, lemma_split_at_first,
    lemma_split_joined, lossy, lossy_text, split_at_first,
    split_once,
};
use vstd::prelude::*;
use vstd::utf8::*;

verus! {

/// A reference to a symbols file on the filesystem.
#[derive(Debug)]
pub struct SymbolsFile {
    path: Vec<u8>,
    key: String,
}

/// A symbols file: where it lies, and the key that it has on the symbols server.
pub struct SymbolsFileView {
    pub path: Seq<u8>,
    pub key: Seq<char>,
}

impl View for SymbolsFile {
    type V = SymbolsFileView;

    closed spec fn view(&self) -> SymbolsFileView {
        SymbolsFileView { path: self.path@, key: self.key@ }
    }
}

/// The extension of Breakpad symbols files, `sym`.
pub open spec fn breakpad_extension() -> Seq<u8> {
    seq![115u8, 121u8, 109u8]
}

impl SymbolsFileView {
    /// Whether the file type is one that is already compressed: every type but Breakpad
    /// symbols files.
    pub open spec fn is_compressed(self) -> bool {
        match extension(self.path) {
            Some(ext) => ext.map_values(|b: u8| lower(b)) != breakpad_extension(),
            None => true,
        }
    }
}

impl SymbolsFile {
    pub fn new(path: Vec<u8>, key: String) -> (res: Self)
        ensures
            res@ == (SymbolsFileView { path: path@, key: key@ }),
    {
        SymbolsFile { path, key }
    }

    /// Return the filesystem path for this symbols file.
    pub fn path(&self) -> (res: &Vec<u8>)
        ensures
            res@ == self@.path,
    {
        &self.path
    }

    /// Return the storage key for this symbols file.
    pub fn key(&self) -> (res: &str)
        ensures
            res@ == self@.key,
    {
        self.key.as_str()
    }

    /// Return the storage key for this symbols file.
    pub fn into_key(self) -> (res: String)
        ensures
            res@ == self@.key,
    {
        self.key
    }

    /// Return whether the file is compressed. We currently assume that all file types except
    /// for Breakpad symbols files are already compressed.
    pub fn is_compressed(&self) -> (res: bool)
        ensures
            res == self@.is_compressed(),
    {
        match path_extension(self.path.as_slice()) {
            Some(ext) => {
                let word: Vec<u8> = vec![115, 121, 109];
                assert(word@ =~= breakpad_extension());
                !is_in_lower_case(ext.as_slice(), word.as_slice())
            },
            None => true,
        }
    }
}

impl Clone for SymbolsFile {
    fn clone(&self) -> (res: Self)
        ensures
            res@ == self@,
    {
        SymbolsFile { path: copy_bytes(self.path.as_slice()), key: self.key.clone() }
    }
}

/// Errors for invalid keys found during symbols file discovery.
#[derive(Debug)]
pub enum InvalidKeyError {
    /// The path does not have exactly three components.
    NotThreeComponents(Vec<u8>),
    /// The path is not valid UTF-8.
    PathNotValidUtf8(Vec<u8>),
    /// The debug ID is not a hex string.
    InvalidDebugId(String),
    /// The key contains invalid characters.
    InvalidCharacters(String),
    /// The directory tree could not be traversed; the text says why.
    WalkDirError(String),
}

/// Why a file or a directory is not a symbols file.
pub enum InvalidKeyView {
    NotThreeComponents(Seq<u8>),
    PathNotValidUtf8(Seq<u8>),
    InvalidDebugId(Seq<char>),
    InvalidCharacters(Seq<char>),
    WalkDirError(Seq<char>),
}

impl View for InvalidKeyError {
    type V = InvalidKeyView;

    open spec fn view(&self) -> InvalidKeyView {
        match self {
            InvalidKeyError::NotThreeComponents(p) => InvalidKeyView::NotThreeComponents(p@),
            InvalidKeyError::PathNotValidUtf8(p) => InvalidKeyView::PathNotValidUtf8(p@),
            InvalidKeyError::InvalidDebugId(k) => InvalidKeyView::InvalidDebugId(k@),
            InvalidKeyError::InvalidCharacters(k) => InvalidKeyView::InvalidCharacters(k@),
            InvalidKeyError::WalkDirError(m) => InvalidKeyView::WalkDirError(m@),
        }
    }
}

impl InvalidKeyView {
    /// The message for the user.
    pub open spec fn message(self) -> Seq<char> {
        match self {
            InvalidKeyView::NotThreeComponents(p) =>
                "path does not have exactly three components: "@ + lossy_text(p),
            InvalidKeyView::PathNotValidUtf8(p) => "path not valid UTF-8: "@ + lossy_text(p),
            InvalidKeyView::InvalidDebugId(k) => "debug_id must be a hex string: "@ + k,
            InvalidKeyView::InvalidCharacters(k) => "key contains invalid characters: "@ + k,
            InvalidKeyView::WalkDirError(_) => "error while traversing diretory tree"@,
        }
    }
}

impl InvalidKeyError {
    /// The message for the user.
    pub fn message(&self) -> (res: String)
        ensures
            res@ == self@.message(),
    {
        match self {
            InvalidKeyError::NotThreeComponents(p) => join(
                "path does not have exactly three components: ",
                lossy(p.as_slice()).as_str(),
            ),
            InvalidKeyError::PathNotValidUtf8(p) => join(
                "path not valid UTF-8: ",
                lossy(p.as_slice()).as_str(),
            ),
            InvalidKeyError::InvalidDebugId(k) => join(
                "debug_id must be a hex string: ",
                k.as_str(),
            ),
            InvalidKeyError::InvalidCharacters(k) => join(
                "key contains invalid characters: ",
                k.as_str(),
            ),
            InvalidKeyError::WalkDirError(_) => "error while traversing diretory tree".to_owned(),
        }
    }
}

/// Something that was met on the way through a directory tree. Links have been followed, so a
/// link to a regular file is a regular file. A link that leads nowhere is not.
#[derive(Debug)]
pub struct Entry {
    /// The path, which starts with the root of the walk.
    pub path: Vec<u8>,
    /// The number of components below the root.
    pub depth: usize,
    /// Whether this is a regular file.
    pub is_file: bool,
}

/// Characters we consider invalid in symbol file keys.
pub open spec fn invalid_char(c: char) -> bool {
    ||| c as u32 >= 127
    ||| (c as u32) < 32
    ||| c == '\\' || c == '^' || c == '`' || c == '<' || c == '>' || c == '{' || c == '}'
    ||| c == '[' || c == ']' || c == '#' || c == '%' || c == '"' || c == '\'' || c == '|'
}

/// Whether some character is invalid in a key.
pub open spec fn has_invalid_char(key: Seq<char>) -> bool {
    exists|i: int| 0 <= i < key.len() && #[trigger] invalid_char(key[i])
}

/// Whether the key has at least two slashes.
pub open spec fn has_two_slashes(key: Seq<char>) -> bool {
    split_at_first(key, '/') matches Some((_, rest)) && holds(rest, '/')
}

/// What stands between the first two slashes of a key.
pub open spec fn debug_id(key: Seq<char>) -> Seq<char> {
    let (_, rest) = split_at_first(key, '/').unwrap();
    let (id, _) = split_at_first(rest, '/').unwrap();
    id
}

/// What a relative path with three components is discovered as.
pub open spec fn discovered(path: Seq<u8>, rel: Seq<u8>) -> Result<
    SymbolsFileView,
    InvalidKeyView,
> {
    let key = decode_utf8(rel);
    if !valid_utf8(rel) {
        Err(InvalidKeyView::PathNotValidUtf8(rel))
    } else if !all_hex(debug_id(key)) {
        Err(InvalidKeyView::InvalidDebugId(key))
    } else if has_invalid_char(key) {
        Err(InvalidKeyView::InvalidCharacters(key))
    } else {
        Ok(SymbolsFileView { path, key })
    }
}

/// What an entry is discovered as. Everything that is not a regular file is skipped.
pub open spec fn inspected(root: Seq<u8>, entry: Entry) -> Option<
    Result<SymbolsFileView, InvalidKeyView>,
> {
    let rel = relative(root, entry.path@);
    if !entry.is_file {
        None
    } else if entry.depth != 3 {
        Some(Err(InvalidKeyView::NotThreeComponents(rel)))
    } else {
        Some(discovered(entry.path@, rel))
    }
}

/// Whether an entry can come from a walk that starts at `root`: its path starts with the root,
/// and at depth three there are two separators below the root.
pub open spec fn is_below(root: Seq<u8>, entry: Entry) -> bool {
    let rel = relative(root, entry.path@);
    &&& root.is_prefix_of(entry.path@)
    &&& entry.depth == 3 && valid_utf8(rel) ==> has_two_slashes(decode_utf8(rel))
}

/// The view of what was discovered.
pub open spec fn seen(found: Result<SymbolsFile, InvalidKeyError>) -> Result<
    SymbolsFileView,
    InvalidKeyView,
> {
    match found {
        Ok(f) => Ok(f@),
        Err(e) => Err(e@),
    }
}

/// What one step of a walk is discovered as, an error of the walk included.
pub open spec fn step_seen(root: Seq<u8>, step: Result<Entry, String>) -> Option<
    Result<SymbolsFileView, InvalidKeyView>,
> {
    match step {
        Ok(entry) => inspected(root, entry),
        Err(message) => Some(Err(InvalidKeyView::WalkDirError(message@))),
    }
}

/// What the steps of a walk are discovered as, in their order.
pub open spec fn walk_seen(root: Seq<u8>, walk: Seq<Result<Entry, String>>) -> Seq<
    Result<SymbolsFileView, InvalidKeyView>,
>
    decreases walk.len(),
{
    if walk.len() == 0 {
        Seq::empty()
    } else {
        let before = walk_seen(root, walk.drop_last());
        match step_seen(root, walk.last()) {
            Some(found) => before.push(found),
            None => before,
        }
    }
}

/// Check for characters we consider invalid in symbol file keys.
///
/// These are the characters that are rejected on the server side, both during upload and
/// during download.
pub fn is_invalid_char(c: char) -> (res: bool)
    ensures
        res == invalid_char(c),
{
    let code: u32 = c as u32;
    code >= 127 || code < 32 || c == '\\' || c == '^' || c == '`' || c == '<' || c == '>' || c
        == '{' || c == '}' || c == '[' || c == ']' || c == '#' || c == '%' || c == '"' || c == '\''
        || c == '|'
}

fn any_invalid_char(chars: &[char]) -> (res: bool)
    ensures
        res == has_invalid_char(chars@),
{
    let n = chars.len();
    for i in 0..n
        invariant
            n == chars@.len(),
            forall|j: int| 0 <= j < i ==> !#[trigger] invalid_char(chars@[j]),
    {
        if is_invalid_char(chars[i]) {
            return true;
        }
    }
    false
}

/// A walk through the directory tree at `root`.
pub struct Discovery {
    root: Vec<u8>,
}

impl View for Discovery {
    type V = Seq<u8>;

    closed spec fn view(&self) -> Seq<u8> {
        self.root@
    }
}

impl Discovery {
    pub fn new(root: Vec<u8>) -> (res: Self)
        ensures
            res@ == root@,
    {
        Discovery { root }
    }

    /// Decide whether an entry can come from this walk.
    pub fn covers(&self, entry: &Entry) -> (res: bool)
        ensures
            res == is_below(self@, *entry),
    {
        let n = self.root.len();
        if n > entry.path.len() {
            return false;
        }
        for i in 0..n
            invariant
                n == self.root@.len(),
                n <= entry.path@.len(),
                forall|j: int| 0 <= j < i ==> self.root@[j] == entry.path@[j],
        {
            if self.root[i] != entry.path[i] {
                return false;
            }
        }
        assert(self.root@ =~= entry.path@.subrange(0, n as int));
        if entry.depth != 3 {
            return true;
        }
        let rel = relative_path(self.root.as_slice(), entry.path.as_slice());
        match decode(rel.as_slice()) {
            Some(key) => {
                let chars = chars_of(key.as_str());
                match split_once(chars.as_slice(), '/') {
                    Some((_, rest)) => split_once(rest.as_slice(), '/').is_some(),
                    None => false,
                }
            },
            None => true,
        }
    }

    /// Inspect an entry. `None` means that it is to be skipped.
    pub fn next(&self, entry: Entry) -> (res: Option<Result<SymbolsFile, InvalidKeyError>>)
        requires
            is_below(self@, entry),
        ensures
            res is Some <==> inspected(self@, entry) is Some,
            res matches Some(found) ==> inspected(self@, entry) == Some(seen(found)),
    {
        if !entry.is_file {
            // Silently skip everything that's not a regular file. Links have been followed, so
            // those that resolve to regular files are not skipped.
            return None;
        }
        let rel = relative_path(self.root.as_slice(), entry.path.as_slice());
        if entry.depth != 3 {
            // Everything that isn't exactly at depth 3 is not of the form
            // `<debug_file>/<debug_id>/<symbols_file>`.
            return Some(Err(InvalidKeyError::NotThreeComponents(rel)));
        }
        let key = match decode(rel.as_slice()) {
            Some(key) => key,
            None => {
                return Some(Err(InvalidKeyError::PathNotValidUtf8(rel)));
            },
        };
        let chars = chars_of(key.as_str());
        let (_, rest) = split_once(chars.as_slice(), '/').unwrap();
        let (id, _) = split_once(rest.as_slice(), '/').unwrap();
        if !is_hex(id.as_slice()) {
            // The debug_id is not a hex string; ignore the file.
            return Some(Err(InvalidKeyError::InvalidDebugId(key)));
        }
        if any_invalid_char(chars.as_slice()) {
            return Some(Err(InvalidKeyError::InvalidCharacters(key)));
        }
        Some(Ok(SymbolsFile::new(entry.path, key)))
    }
}

/// Discover all symbols files in a directory.
///
/// The symbols files must be laid out in a way that their eventual storage key on the symbols
/// server can be derived from their path relative to the root directory. The relative path for
/// each file should be of the form
/// ```text
/// <debug_file>/<debug_id>/<sym_file>
/// ```
/// The result holds `SymbolsFile` instances for all regular files that the walk met. Entries in
/// the directory tree that aren't regular files are silently ignored, unless they are symlinks
/// pointing to regular files. For files with paths that aren't valid symbols files keys
/// [`InvalidKeyError`] is returned. Discovery continues normally after errors.
pub fn discover(root: Vec<u8>, walk: Vec<Result<Entry, String>>) -> (res: Vec<
    Result<SymbolsFile, InvalidKeyError>,
>)
    requires
        forall|i: int|
            0 <= i < walk@.len() ==> (#[trigger] walk@[i] matches Ok(entry) ==> is_below(
                root@,
                entry,
            )),
    ensures
        res@.map_values(|found: Result<SymbolsFile, InvalidKeyError>| seen(found)) == walk_seen(
            root@,
            walk@,
        ),
{
    let discovery = Discovery::new(root);
    let ghost view = |found: Result<SymbolsFile, InvalidKeyError>| seen(found);
    let mut out: Vec<Result<SymbolsFile, InvalidKeyError>> = Vec::new();
    assert(out@.map_values(view) =~= walk_seen(root@, walk@.take(0)));
    for step in it: walk
        invariant
            it.seq() == walk@,
            discovery@ == root@,
            view == (|found: Result<SymbolsFile, InvalidKeyError>| seen(found)),
            forall|i: int|
                0 <= i < walk@.len() ==> (#[trigger] walk@[i] matches Ok(entry) ==> is_below(
                    root@,
                    entry,
                )),
            out@.map_values(view) == walk_seen(root@, walk@.take(it.index() as int)),
    {
        let ghost i = it.index() as int;
        let ghost before = out@;
        assert(walk@[i] == step);
        assert(walk@.take(i + 1).drop_last() =~= walk@.take(i));
        assert(walk@.take(i + 1).last() == step);
        match step {
            Ok(entry) => {
                if let Some(found) = discovery.next(entry) {
                    out.push(found);
                    assert(out@.map_values(view) =~= before.map_values(view).push(seen(found)));
                }
            },
            Err(message) => {
                let found = Err(InvalidKeyError::WalkDirError(message));
                out.push(found);
                assert(out@.map_values(view) =~= before.map_values(view).push(seen(found)));
            },
        }
    }
    assert(walk@.take(walk@.len() as int) =~= walk@);
    out
}

/// A key of the form `<debug_file>/<debug_id>/<sym_file>`.
pub open spec fn key_from(debug_file: Seq<char>, id: Seq<char>, sym_file: Seq<char>) -> Seq<char> {
    debug_file.push('/') + (id.push('/') + sym_file)
}

proof fn lemma_key_from(debug_file: Seq<char>, id: Seq<char>, sym_file: Seq<char>)
    requires
        !holds(debug_file, '/'),
        !holds(id, '/'),
    ensures
        has_two_slashes(key_from(debug_file, id, sym_file)),
        debug_id(key_from(debug_file, id, sym_file)) == id,
{
    lemma_split_joined(debug_file, '/', id.push('/') + sym_file);
    lemma_split_joined(id, '/', sym_file);
    assert((id.push('/') + sym_file)[id.len() as int] == '/');
}

/// The key of a discovered file is the path of the file below the root. It has the form
/// `<debug_file>/<debug_id>/<sym_file>` with a hexadecimal debug ID, and no character of it is
/// invalid.
pub proof fn law_discovered_key_is_valid(root: Seq<u8>, entry: Entry, file: SymbolsFileView)
    requires
        is_below(root, entry),
        inspected(root, entry) == Some(Ok::<SymbolsFileView, InvalidKeyView>(file)),
    ensures
        entry.is_file,
        entry.depth == 3,
        file.path == entry.path@,
        encode_utf8(file.key) == relative(root, entry.path@),
        !has_invalid_char(file.key),
        all_hex(debug_id(file.key)),
        exists|debug_file: Seq<char>, sym_file: Seq<char>|
            !holds(debug_file, '/') && file.key == #[trigger] key_from(
                debug_file,
                debug_id(file.key),
                sym_file,
            ),
{
    let rel = relative(root, entry.path@);
    let key = file.key;
    decode_utf8_encode_utf8(rel);
    let (debug_file, rest) = split_at_first(key, '/').unwrap();
    let i = choose|i: int| first_at(key, '/', i);
    lemma_first_exists(key, '/');
    lemma_split_at_first(key, '/', i);
    let k = choose|k: int| first_at(rest, '/', k);
    lemma_first_exists(rest, '/');
    lemma_split_at_first(rest, '/', k);
    let sym_file = rest.skip(k + 1);
    assert(debug_id(key) == rest.take(k));
    assert(rest =~= rest.take(k).push('/') + sym_file);
    assert(key =~= debug_file.push('/') + rest);
    assert(!holds(debug_file, '/'));
    assert(key == key_from(debug_file, debug_id(key), sym_file));
}

/// A regular file that lies at `<root>/<debug_file>/<debug_id>/<sym_file>`, with a hexadecimal
/// debug ID and without invalid characters, is discovered under exactly that key.
pub proof fn law_well_placed_file_is_discovered(
    root: Seq<u8>,
    debug_file: Seq<char>,
    id: Seq<char>,
    sym_file: Seq<char>,
    entry: Entry,
)
    requires
        debug_file.len() > 0,
        !holds(debug_file, '/'),
        all_hex(id),
        !has_invalid_char(key_from(debug_file, id, sym_file)),
        entry.is_file,
        entry.depth == 3,
        entry.path@ == joined(root, encode_utf8(key_from(debug_file, id, sym_file))),
    ensures
        is_below(root, entry),
        inspected(root, entry) == Some(
            Ok::<SymbolsFileView, InvalidKeyView>(
                SymbolsFileView {
                    path: entry.path@,
                    key: key_from(debug_file, id, sym_file),
                },
            ),
        ),
{
    let key = key_from(debug_file, id, sym_file);
    let rel = encode_utf8(key);
    assert forall|i: int| 0 <= i < key.len() implies '\0' <= #[trigger] key[i]
        && key[i] <= '\u{7f}' by {
        let c = key[i];
        assert(!invalid_char(c));
        assert((c as u32) < 127);
        char_u32_cast(c, c as u32);
    }
    assert(is_ascii_chars(key));
    is_ascii_chars_encode_utf8(key);
    assert(key[0] == debug_file[0]);
    assert(rel[0] == key[0] as u8);
    assert(key[0] != '/');
    assert(rel[0] != crate::paths::SEPARATOR);
    law_joined_then_relative(root, rel);
    assert(root.is_prefix_of(joined(root, rel))) by {
        assert(joined(root, rel).subrange(0, root.len() as int) =~= root);
    }
    encode_utf8_valid_utf8(key);
    encode_utf8_decode_utf8(key);
    assert(!holds(id, '/')) by {
        assert forall|i: int| 0 <= i < id.len() implies id[i] != '/' by {
            assert(crate::hex::is_hex_digit(id[i]));
        }
    }
    lemma_key_from(debug_file, id, sym_file);
}

/// Every regular file that a walk meets is reported, as a symbols file or as an error, and so is
/// every error of the walk.
pub proof fn law_every_file_is_reported(
    root: Seq<u8>,
    walk: Seq<Result<Entry, String>>,
    i: int,
)
    requires
        0 <= i < walk.len(),
        walk[i] matches Ok(entry) ==> entry.is_file,
    ensures
        step_seen(root, walk[i]) is Some,
        walk_seen(root, walk).contains(step_seen(root, walk[i])->0),
    decreases walk.len(),
{
    let before = walk_seen(root, walk.drop_last());
    let found = step_seen(root, walk[i])->0;
    if i == walk.len() - 1 {
        assert(walk_seen(root, walk)[before.len() as int] == found);
    } else {
        law_every_file_is_reported(root, walk.drop_last(), i);
        let k = choose|k: int| 0 <= k < before.len() && before[k] == found;
        assert(walk_seen(root, walk)[k] == found);
    }
}

/// What is discovered later in a walk does not depend on what was met before, errors included.
pub proof fn law_discovery_continues(
    root: Seq<u8>,
    before: Seq<Result<Entry, String>>,
    after: Seq<Result<Entry, String>>,
)
    ensures
        walk_seen(root, before + after) == walk_seen(root, before) + walk_seen(root, after),
    decreases after.len(),
{
    if after.len() == 0 {
        assert(before + after =~= before);
        assert(walk_seen(root, before) + walk_seen(root, after) =~= walk_seen(root, before));
    } else {
        law_discovery_continues(root, before, after.drop_last());
        assert((before + after).drop_last() =~= before + after.drop_last());
        assert((before + after).last() == after.last());
        assert(walk_seen(root, before + after) =~= walk_seen(root, before) + walk_seen(root, after));
    }
}

/// The characters of a key are the ASCII letters, the digits, the space and the punctuation that is
/// listed here. All others are invalid.
pub proof fn law_valid_characters_are_listed(c: char)
    ensures
        !invalid_char(c) <==> ('a' <= c && c <= 'z') || ('A' <= c && c <= 'Z') || ('0' <= c && c
            <= '9') || " !$&()*+,-./:;=?@_~"@.contains(c),
{
    reveal_strlit(" !$&()*+,-./:;=?@_~");
    let listed = " !$&()*+,-./:;=?@_~"@;
    assert(listed[0] == ' ' && listed[1] == '!' && listed[2] == '$' && listed[3] == '&' && listed[4]
        == '(' && listed[5] == ')' && listed[6] == '*' && listed[7] == '+' && listed[8] == ','
        && listed[9] == '-' && listed[10] == '.' && listed[11] == '/' && listed[12] == ':'
        && listed[13] == ';' && listed[14] == '=' && listed[15] == '?' && listed[16] == '@'
        && listed[17] == '_' && listed[18] == '~');
}

/// A key is free of invalid characters if each of its characters is a letter, a digit or one of the
/// others that are listed.
pub proof fn law_valid_key_is_made_of_listed_characters(key: Seq<char>)
    ensures
        !has_invalid_char(key) <==> forall|i: int|
            0 <= i < key.len() ==> ('a' <= #[trigger] key[i] && key[i] <= 'z') || ('A' <= key[i]
                && key[i] <= 'Z') || ('0' <= key[i] && key[i] <= '9')
                || " !$&()*+,-./:;=?@_~"@.contains(key[i]),
{
    assert forall|i: int| 0 <= i < key.len() implies !invalid_char(#[trigger] key[i]) == (('a'
        <= key[i] && key[i] <= 'z') || ('A' <= key[i] && key[i] <= 'Z') || ('0' <= key[i] && key[i]
        <= '9') || " !$&()*+,-./:;=?@_~"@.contains(key[i])) by {
        law_valid_characters_are_listed(key[i]);
    }
    if !has_invalid_char(key) {
        assert forall|i: int| 0 <= i < key.len() implies ('a' <= #[trigger] key[i] && key[i] <= 'z')
            || ('A' <= key[i] && key[i] <= 'Z') || ('0' <= key[i] && key[i] <= '9')
            || " !$&()*+,-./:;=?@_~"@.contains(key[i]) by {
            assert(!invalid_char(key[i]));
        }
    }
}

/// A regular file at `<root>/<debug_file>/<debug_id>/<sym_file>` is discovered under the key
/// `<debug_file>/<debug_id>/<sym_file>` if the names are made of letters, digits, dots, dashes and
/// underscores, and the debug ID of hexadecimal digits.
pub proof fn law_plainly_named_file_is_discovered(
    root: Seq<u8>,
    debug_file: Seq<char>,
    id: Seq<char>,
    sym_file: Seq<char>,
    entry: Entry,
)
    requires
        debug_file.len() > 0,
        forall|i: int|
            0 <= i < debug_file.len() ==> ('a' <= #[trigger] debug_file[i] && debug_file[i] <= 'z')
                || ('A' <= debug_file[i] && debug_file[i] <= 'Z') || ('0' <= debug_file[i]
                && debug_file[i] <= '9') || debug_file[i] == '.' || debug_file[i] == '-'
                || debug_file[i] == '_',
        forall|i: int|
            0 <= i < id.len() ==> ('0' <= #[trigger] id[i] && id[i] <= '9') || ('a' <= id[i]
                && id[i] <= 'f') || ('A' <= id[i] && id[i] <= 'F'),
        forall|i: int|
            0 <= i < sym_file.len() ==> ('a' <= #[trigger] sym_file[i] && sym_file[i] <= 'z')
                || ('A' <= sym_file[i] && sym_file[i] <= 'Z') || ('0' <= sym_file[i] && sym_file[i]
                <= '9') || sym_file[i] == '.' || sym_file[i] == '-' || sym_file[i] == '_',
        entry.is_file,
        entry.depth == 3,
        entry.path@ == joined(
            root,
            encode_utf8(debug_file + seq!['/'] + id + seq!['/'] + sym_file),
        ),
    ensures
        is_below(root, entry),
        inspected(root, entry) == Some(
            Ok::<SymbolsFileView, InvalidKeyView>(
                SymbolsFileView {
                    path: entry.path@,
                    key: debug_file + seq!['/'] + id + seq!['/'] + sym_file,
                },
            ),
        ),
{
    let key = key_from(debug_file, id, sym_file);
    assert(key =~= debug_file + seq!['/'] + id + seq!['/'] + sym_file);
    assert forall|i: int| 0 <= i < debug_file.len() implies debug_file[i] != '/' && !invalid_char(
        #[trigger] debug_file[i],
    ) by {
    }
    assert forall|i: int| 0 <= i < id.len() implies crate::hex::is_hex_digit(#[trigger] id[i])
        && !invalid_char(id[i]) by {
    }
    assert forall|i: int| 0 <= i < sym_file.len() implies !invalid_char(#[trigger] sym_file[i]) by {
    }
    assert forall|i: int| 0 <= i < key.len() implies !#[trigger] invalid_char(key[i]) by {
        let a = debug_file.len() as int;
        let b = a + 1 + id.len();
        if i < a {
            assert(key[i] == debug_file[i]);
        } else if i == a || i == b {
            assert(key[i] == '/');
        } else if i < b {
            assert(key[i] == id[i - a - 1]);
        } else {
            assert(key[i] == sym_file[i - b - 1]);
        }
    }
    law_well_placed_file_is_discovered(root, debug_file, id, sym_file, entry);
}

/// What stands between the first two slashes of a key is the debug ID.
pub proof fn law_debug_id_stands_between_slashes(
    debug_file: Seq<char>,
    id: Seq<char>,
    sym_file: Seq<char>,
)
    requires
        !debug_file.contains('/'),
        !id.contains('/'),
    ensures
        has_two_slashes(debug_file + seq!['/'] + id + seq!['/'] + sym_file),
        debug_id(debug_file + seq!['/'] + id + seq!['/'] + sym_file) == id,
{
    assert(!holds(debug_file, '/') && !holds(id, '/'));
    lemma_key_from(debug_file, id, sym_file);
    assert(key_from(debug_file, id, sym_file) =~= debug_file + seq!['/'] + id + seq!['/']
        + sym_file);
}

/// A key has two slashes if there are slashes in two places.
pub proof fn law_two_slashes(key: Seq<char>)
    ensures
        has_two_slashes(key) <==> exists|i: int, j: int|
            0 <= i < j < key.len() && #[trigger] key[i] == '/' && #[trigger] key[j] == '/',
{
    crate::text::law_split_is_at_first(key, '/');
    match split_at_first(key, '/') {
        Some((left, right)) => {
            let i = left.len() as int;
            assert(key[i] == '/');
            if holds(right, '/') {
                let k = choose|k: int| 0 <= k < right.len() && right[k] == '/';
                assert(key[i + 1 + k] == right[k]);
                assert(0 <= i < i + 1 + k < key.len() && key[i] == '/' && key[i + 1 + k] == '/');
            }
            if exists|i: int, j: int|
                0 <= i < j < key.len() && #[trigger] key[i] == '/' && #[trigger] key[j] == '/' {
                let (a, b) = choose|a: int, b: int|
                    0 <= a < b < key.len() && #[trigger] key[a] == '/' && #[trigger] key[b] == '/';
                if a < i {
                    assert(left[a] == key[a]);
                    assert(left.contains('/'));
                }
                assert(right[b - i - 1] == key[b]);
                assert(holds(right, '/'));
            }
        },
        None => {
            assert forall|i: int| 0 <= i < key.len() implies #[trigger] key[i] != '/' by {
                if key[i] == '/' {
                    assert(key.contains(key[i]));
                }
            }
        },
    }
}

/// Everything but regular files is skipped. A regular file that is not at depth three is an error
/// with the path below the root, and so is one whose path below the root is not valid UTF-8.
pub proof fn law_misplaced_files_are_reported(root: Seq<u8>, entry: Entry)
    ensures
        inspected(root, entry) is None <==> !entry.is_file,
        entry.is_file && entry.depth != 3 ==> inspected(root, entry) == Some(
            Err::<SymbolsFileView, InvalidKeyView>(
                InvalidKeyView::NotThreeComponents(relative(root, entry.path@)),
            ),
        ),
        entry.is_file && entry.depth == 3 && !valid_utf8(relative(root, entry.path@)) ==> inspected(
            root,
            entry,
        ) == Some(
            Err::<SymbolsFileView, InvalidKeyView>(
                InvalidKeyView::PathNotValidUtf8(relative(root, entry.path@)),
            ),
        ),
{
}

/// A regular file in the right place is discovered under the key that its path below the root
/// spells, with exactly two exceptions. If the debug ID holds a character that is not a hexadecimal
/// digit, it is an error with the key, and otherwise it is another error with the key if the key
/// holds an invalid character.
pub proof fn law_key_decides(
    root: Seq<u8>,
    debug_file: Seq<char>,
    id: Seq<char>,
    sym_file: Seq<char>,
    entry: Entry,
)
    requires
        !debug_file.contains('/'),
        !id.contains('/'),
        entry.is_file,
        entry.depth == 3,
        relative(root, entry.path@) == encode_utf8(
            debug_file + seq!['/'] + id + seq!['/'] + sym_file,
        ),
    ensures
        ({
            let key = debug_file + seq!['/'] + id + seq!['/'] + sym_file;
            inspected(root, entry) == Some(
                if exists|i: int|
                    0 <= i < id.len() && !"0123456789abcdefABCDEF"@.contains(#[trigger] id[i]) {
                    Err(InvalidKeyView::InvalidDebugId(key))
                } else if has_invalid_char(key) {
                    Err(InvalidKeyView::InvalidCharacters(key))
                } else {
                    Ok(SymbolsFileView { path: entry.path@, key })
                },
            )
        }),
{
    let key = debug_file + seq!['/'] + id + seq!['/'] + sym_file;
    encode_utf8_valid_utf8(key);
    encode_utf8_decode_utf8(key);
    law_debug_id_stands_between_slashes(debug_file, id, sym_file);
    crate::hex::law_hex_is_digit_by_digit(id);
}

/// What is discovered in a single step: what the entry is discovered as, if anything, or the error
/// that the walk met.
pub proof fn law_each_step_is_seen_by_itself(root: Seq<u8>, entry: Entry, message: String)
    ensures
        walk_seen(root, Seq::empty()) == Seq::<Result<SymbolsFileView, InvalidKeyView>>::empty(),
        walk_seen(root, seq![Ok(entry)]) == match inspected(root, entry) {
            Some(found) => seq![found],
            None => Seq::empty(),
        },
        walk_seen(root, seq![Err(message)]) == seq![
            Err::<SymbolsFileView, InvalidKeyView>(InvalidKeyView::WalkDirError(message@)),
        ],
{
    let ok: Seq<Result<Entry, String>> = seq![Ok(entry)];
    let err: Seq<Result<Entry, String>> = seq![Err(message)];
    assert(ok.drop_last() =~= Seq::empty());
    assert(err.drop_last() =~= Seq::empty());
    assert(ok.last() == Ok::<Entry, String>(entry));
    assert(err.last() == Err::<Entry, String>(message));
    assert(walk_seen(root, ok.drop_last()) =~= Seq::empty());
    assert(walk_seen(root, err.drop_last()) =~= Seq::empty());
}

/// What is seen of a discovery is the file or the error itself.
pub proof fn law_discovery_is_seen_as_it_is(file: SymbolsFile, e: InvalidKeyError)
    ensures
        seen(Ok(file)) == Ok::<SymbolsFileView, InvalidKeyView>(file@),
        seen(Err(e)) == Err::<SymbolsFileView, InvalidKeyView>(e@),
{
}

/// Breakpad symbols files, and no others, are not compressed: those with the extension `sym`, in
/// upper or lower case.
pub proof fn law_only_breakpad_files_are_uncompressed(file: SymbolsFileView)
    ensures
        !file.is_compressed() <==> (extension(file.path) matches Some(ext) && ext.len() == 3 && (
        ext[0] == 115 || ext[0] == 83) && (ext[1] == 121 || ext[1] == 89) && (ext[2] == 109
            || ext[2] == 77)),
{
    if let Some(ext) = extension(file.path) {
        let low = ext.map_values(|b: u8| lower(b));
        if ext.len() == 3 {
            assert(low[0] == lower(ext[0]) && low[1] == lower(ext[1]) && low[2] == lower(ext[2]));
            assert(low.len() == 3);
            if lower(ext[0]) == 115 && lower(ext[1]) == 121 && lower(ext[2]) == 109 {
                assert(low =~= breakpad_extension());
            }
        } else {
            assert(low.len() != 3);
        }
    }
}

/// Each message says what is wrong and with which path or key.
pub proof fn law_messages_name_path_or_key(path: Seq<u8>, key: Seq<char>)
    ensures
        InvalidKeyView::NotThreeComponents(path).message()
            == "path does not have exactly three components: "@ + lossy_text(path),
        InvalidKeyView::PathNotValidUtf8(path).message() == "path not valid UTF-8: "@ + lossy_text(
            path,
        ),
        InvalidKeyView::InvalidDebugId(key).message() == "debug_id must be a hex string: "@ + key,
        InvalidKeyView::InvalidCharacters(key).message() == "key contains invalid characters: "@
            + key,
        InvalidKeyView::WalkDirError(key).message() == "error while traversing diretory tree"@,
{
}

/// A walk covers what lies below its root: the path starts with the root, and two slashes stand
/// below it at depth three, unless the path there is not valid UTF-8.
pub proof fn law_walk_covers_what_lies_below_root(root: Seq<u8>, entry: Entry)
    ensures
        is_below(root, entry) <==> root.len() <= entry.path@.len() && entry.path@.take(
            root.len() as int,
        ) == root && (entry.depth == 3 ==> !valid_utf8(relative(root, entry.path@)) || exists|
            i: int,
            j: int,
        |
            0 <= i < j < decode_utf8(relative(root, entry.path@)).len() && #[trigger] decode_utf8(
                relative(root, entry.path@),
            )[i] == '/' && #[trigger] decode_utf8(relative(root, entry.path@))[j] == '/'),
{
    law_two_slashes(decode_utf8(relative(root, entry.path@)));
    if root.len() <= entry.path@.len() {
        assert(entry.path@.take(root.len() as int) =~= entry.path@.subrange(0, root.len() as int));
    }
}

/// Errors of the discovery are seen with all their data.
pub proof fn law_errors_are_seen_as_they_are(path: Vec<u8>, text: String)
    ensures
        InvalidKeyError::NotThreeComponents(path)@ == InvalidKeyView::NotThreeComponents(path@),
        InvalidKeyError::PathNotValidUtf8(path)@ == InvalidKeyView::PathNotValidUtf8(path@),
        InvalidKeyError::InvalidDebugId(text)@ == InvalidKeyView::InvalidDebugId(text@),
        InvalidKeyError::InvalidCharacters(text)@ == InvalidKeyView::InvalidCharacters(text@),
        InvalidKeyError::WalkDirError(text)@ == InvalidKeyView::WalkDirError(text@),
{
}

} // verus!
