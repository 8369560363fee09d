//! File system paths as bytes in the encoding of the platform, with `/` between components.

use vstd::prelude::*;

verus! {

/// The byte between two components.
pub const SEPARATOR: u8 = 47;

/// The byte before an extension.
pub const DOT: u8 = 46;

/// `p` without the separators and the `.` components at its end.
pub open spec fn trimmed(p: Seq<u8>) -> Seq<u8>
    decreases p.len(),
{
    if p.len() >= 1 && p.last() == SEPARATOR {
        trimmed(p.drop_last())
    } else if p.len() >= 2 && p.last() == DOT && p[p.len() - 2] == SEPARATOR {
        trimmed(p.drop_last())
    } else {
        p
    }
}

/// `i` is the last place in `s` where `b` stands.
pub open spec fn last_at(s: Seq<u8>, b: u8, i: int) -> bool {
    &&& 0 <= i < s.len()
    &&& s[i] == b
    &&& forall|j: int| i < j < s.len() ==> s[j] != b
}

/// What follows the last `b` in `s`; all of `s` if there is no `b`.
pub open spec fn after_last(s: Seq<u8>, b: u8) -> Seq<u8> {
    if s.contains(b) {
        s.skip((choose|i: int| last_at(s, b, i)) + 1)
    } else {
        s
    }
}

/// The last component of a path, unless the path ends in `..` or has no component that is a
/// name.
pub open spec fn file_name(p: Seq<u8>) -> Option<Seq<u8>> {
    let name = after_last(trimmed(p), SEPARATOR);
    if name.len() == 0 || name == seq![DOT] || name == seq![DOT, DOT] {
        None
    } else {
        Some(name)
    }
}

/// What follows the last dot of the file name, unless that is the dot that the name begins
/// with.
pub open spec fn extension(p: Seq<u8>) -> Option<Seq<u8>> {
    match file_name(p) {
        Some(name) => if exists|i: int| 1 <= i < name.len() && name[i] == DOT {
            Some(after_last(name, DOT))
        } else {
            None
        },
        None => None,
    }
}

/// `b` in lower case, if it is an ASCII letter.
pub open spec fn lower(b: u8) -> u8 {
    if 65 <= b <= 90 {
        (b + 32) as u8
    } else {
        b
    }
}

/// `name` below `base`: a separator stands between them unless `base` is empty or ends with
/// one. An absolute `name` replaces `base`.
pub open spec fn joined(base: Seq<u8>, name: Seq<u8>) -> Seq<u8> {
    if name.len() > 0 && name[0] == SEPARATOR {
        name
    } else if base.len() == 0 || base.last() == SEPARATOR {
        base + name
    } else {
        base.push(SEPARATOR) + name
    }
}

/// `p` without the separators at its start.
pub open spec fn without_leading(p: Seq<u8>) -> Seq<u8>
    decreases p.len(),
{
    if p.len() > 0 && p[0] == SEPARATOR {
        without_leading(p.skip(1))
    } else {
        p
    }
}

/// What remains of `path` below `root`.
pub open spec fn relative(root: Seq<u8>, path: Seq<u8>) -> Seq<u8> {
    without_leading(path.skip(root.len() as int))
}

proof fn lemma_after_last(s: Seq<u8>, b: u8, i: int)
    requires
        last_at(s, b, i),
    ensures
        after_last(s, b) == s.skip(i + 1),
{
    assert(s.contains(b));
    let k = choose|k: int| last_at(s, b, k);
    assert(last_at(s, b, k));
    if k < i {
        assert(s[i] != b);
    }
    if i < k {
        assert(s[k] != b);
    }
}

/// A relative name that does not start with a separator is found again below the directory
/// that it was joined to.
pub proof fn law_joined_then_relative(base: Seq<u8>, name: Seq<u8>)
    requires
        name.len() > 0,
        name[0] != SEPARATOR,
    ensures
        relative(base, joined(base, name)) == name,
{
    if base.len() == 0 || base.last() == SEPARATOR {
        assert((base + name).skip(base.len() as int) =~= name);
    } else {
        let rest = (base.push(SEPARATOR) + name).skip(base.len() as int);
        assert(rest[0] == SEPARATOR);
        assert(rest.skip(1) =~= name);
        reveal_with_fuel(without_leading, 2);
    }
}

/// Copy the bytes from `from` up to, not including, `to`.
pub fn bytes_between(bytes: &[u8], from: usize, to: usize) -> (res: Vec<u8>)
    requires
        from <= to <= bytes@.len(),
    ensures
        res@ == bytes@.subrange(from as int, to as int),
{
    let mut out: Vec<u8> = Vec::new();
    for i in from..to
        invariant
            to <= bytes@.len(),
            from <= i,
            out@ == bytes@.subrange(from as int, i as int),
    {
        out.push(bytes[i]);
        assert(bytes@.subrange(from as int, i as int).push(bytes@[i as int])
            =~= bytes@.subrange(from as int, i + 1));
    }
    out
}

/// Copy all bytes.
pub fn copy_bytes(bytes: &[u8]) -> (res: Vec<u8>)
    ensures
        res@ == bytes@,
{
    let n = bytes.len();
    assert(bytes@.subrange(0, n as int) =~= bytes@);
    bytes_between(bytes, 0, n)
}

/// Put `name` below `base`.
pub fn join_path(base: &[u8], name: &[u8]) -> (res: Vec<u8>)
    ensures
        res@ == joined(base@, name@),
{
    if name.len() > 0 && name[0] == SEPARATOR {
        return copy_bytes(name);
    }
    let mut out = copy_bytes(base);
    if base.len() > 0 && base[base.len() - 1] != SEPARATOR {
        out.push(SEPARATOR);
    }
    let mut tail = copy_bytes(name);
    out.append(&mut tail);
    assert(out@ =~= joined(base@, name@));
    out
}

/// The part of `path` below `root`.
pub fn relative_path(root: &[u8], path: &[u8]) -> (res: Vec<u8>)
    requires
        root@.is_prefix_of(path@),
    ensures
        res@ == relative(root@, path@),
{
    let n = path.len();
    let mut i: usize = root.len();
    while i < n && path[i] == SEPARATOR
        invariant
            n == path@.len(),
            root@.len() <= i <= n,
            relative(root@, path@) == without_leading(path@.skip(i as int)),
        decreases n - i,
    {
        assert(path@.skip(i as int).skip(1) =~= path@.skip(i + 1));
        i = i + 1;
    }
    assert(path@.subrange(i as int, n as int) =~= path@.skip(i as int));
    bytes_between(path, i, n)
}

/// Find the last `b`.
fn find_last(bytes: &[u8], b: u8) -> (res: Option<usize>)
    ensures
        res matches Some(i) ==> last_at(bytes@, b, i as int),
        res is None <==> !bytes@.contains(b),
{
    let mut i: usize = bytes.len();
    while i > 0
        invariant
            i <= bytes@.len(),
            forall|j: int| i <= j < bytes@.len() ==> bytes@[j] != b,
        decreases i,
    {
        i = i - 1;
        if bytes[i] == b {
            assert(bytes@.contains(b));
            return Some(i);
        }
    }
    None
}

/// The file name of a path, if it has one.
pub fn path_file_name(path: &[u8]) -> (res: Option<Vec<u8>>)
    ensures
        res is Some <==> file_name(path@) is Some,
        res matches Some(name) ==> file_name(path@) == Some(name@),
{
    let mut n: usize = path.len();
    assert(path@.take(n as int) =~= path@);
    while n > 0 && (path[n - 1] == SEPARATOR || (n >= 2 && path[n - 1] == DOT && path[n - 2]
        == SEPARATOR))
        invariant
            n <= path@.len(),
            trimmed(path@) == trimmed(path@.take(n as int)),
        decreases n,
    {
        assert(path@.take(n as int).drop_last() =~= path@.take(n - 1));
        n = n - 1;
    }
    let whole = bytes_between(path, 0, n);
    assert(whole@ =~= path@.take(n as int));
    assert(trimmed(path@) == whole@);
    let name = match find_last(whole.as_slice(), SEPARATOR) {
        Some(i) => {
            proof {
                lemma_after_last(whole@, SEPARATOR, i as int);
                assert(whole@.subrange(i + 1, n as int) =~= whole@.skip(i + 1));
            }
            bytes_between(whole.as_slice(), i + 1, n)
        },
        None => whole,
    };
    assert(name@ == after_last(trimmed(path@), SEPARATOR));
    if name.len() == 0 {
        return None;
    }
    if name.len() == 1 && name[0] == DOT {
        assert(name@ =~= seq![DOT]);
        return None;
    }
    if name.len() == 2 && name[0] == DOT && name[1] == DOT {
        assert(name@ =~= seq![DOT, DOT]);
        return None;
    }
    Some(name)
}

/// The extension of a path's file name, if it has one.
pub fn path_extension(path: &[u8]) -> (res: Option<Vec<u8>>)
    ensures
        res is Some <==> extension(path@) is Some,
        res matches Some(ext) ==> extension(path@) == Some(ext@),
{
    let name = match path_file_name(path) {
        Some(name) => name,
        None => {
            return None;
        },
    };
    let n = name.len();
    assert(file_name(path@) == Some(name@));
    match find_last(name.as_slice(), DOT) {
        Some(i) => {
            if i == 0 {
                return None;
            }
            proof {
                lemma_after_last(name@, DOT, i as int);
                let at: int = i as int;
                assert(1 <= at < name@.len() && name@[at] == DOT);
                assert(extension(path@) == Some(after_last(name@, DOT)));
                assert(name@.subrange(i + 1, name@.len() as int) =~= name@.skip(i + 1));
            }
            Some(bytes_between(name.as_slice(), i + 1, n))
        },
        None => {
            assert forall|j: int| 1 <= j < name@.len() implies name@[j] != DOT by {
                assert(!name@.contains(name@[j]) || name@[j] != DOT);
            }
            None
        },
    }
}

/// Decide whether `bytes` is `word` when ASCII letters are put in lower case.
pub fn is_in_lower_case(bytes: &[u8], word: &[u8]) -> (res: bool)
    ensures
        res == (bytes@.map_values(|b: u8| lower(b)) == word@),
{
    let ghost low = bytes@.map_values(|b: u8| lower(b));
    if bytes.len() != word.len() {
        return false;
    }
    let n = bytes.len();
    for i in 0..n
        invariant
            n == bytes@.len(),
            n == word@.len(),
            low == bytes@.map_values(|b: u8| lower(b)),
            forall|j: int| 0 <= j < i ==> low[j] == word@[j],
    {
        let b = bytes[i];
        let l: u8 = if 65 <= b && b <= 90 {
            b + 32
        } else {
            b
        };
        assert(low[i as int] == l);
        if l != word[i] {
            return false;
        }
    }
    assert(low =~= word@);
    true
}

/// An absolute name replaces the directory. Any other name stands behind the directory, with one
/// slash between them if the directory is not empty and does not end in a slash itself.
pub proof fn law_name_stands_below_directory(base: Seq<u8>, name: Seq<u8>)
    ensures
        name.len() > 0 && name[0] == 47 ==> joined(base, name) == name,
        !(name.len() > 0 && name[0] == 47) ==> joined(base, name) == if base.len() == 0
            || base.last() == 47 {
            base + name
        } else {
            base + seq![47u8] + name
        },
{
    assert(base.push(47u8) + name =~= base + seq![47u8] + name);
}

/// What remains of a path below a root is what stands behind the root and the slashes after it.
pub proof fn law_slashes_below_root_are_dropped(root: Seq<u8>, slashes: Seq<u8>, rest: Seq<u8>)
    requires
        forall|i: int| 0 <= i < slashes.len() ==> slashes[i] == 47,
        rest.len() > 0 ==> rest[0] != 47,
    ensures
        relative(root, root + slashes + rest) == rest,
    decreases slashes.len(),
{
    let below = (root + slashes + rest).skip(root.len() as int);
    assert(below =~= slashes + rest);
    if slashes.len() == 0 {
        assert(below =~= rest);
    } else {
        law_slashes_below_root_are_dropped(root, slashes.skip(1), rest);
        let shorter = (root + slashes.skip(1) + rest).skip(root.len() as int);
        assert(shorter =~= below.skip(1));
        assert(below[0] == slashes[0]);
    }
}

/// A name behind the last slash is the file name.
pub proof fn law_last_component_is_file_name(dir: Seq<u8>, name: Seq<u8>)
    requires
        dir.len() > 0 ==> dir.last() == 47,
        name.len() > 0,
        !name.contains(47),
        name != seq![46u8],
        name != seq![46u8, 46],
    ensures
        file_name(dir + name) == Some(name),
{
    let p = dir + name;
    assert(p.last() == name.last());
    assert(name.contains(name.last()));
    if p.last() == 46 {
        if name.len() == 1 {
            assert(name =~= seq![46u8]);
        } else {
            assert(p[p.len() - 2] == name[name.len() - 2]);
            assert(name.contains(name[name.len() - 2]));
        }
    }
    assert(trimmed(p) == p);
    if dir.len() > 0 {
        assert(last_at(p, 47, dir.len() - 1)) by {
            assert forall|j: int| dir.len() - 1 < j < p.len() implies p[j] != 47 by {
                assert(p[j] == name[j - dir.len()]);
                assert(name.contains(name[j - dir.len()]));
            }
        }
        lemma_after_last(p, 47, dir.len() - 1);
        assert(p.skip(dir.len() as int) =~= name);
    } else {
        assert(p =~= name);
    }
}

/// Slashes and `.` components at the end of a path do not change its file name.
pub proof fn law_file_name_ignores_trailing_slashes(p: Seq<u8>)
    ensures
        file_name(p.push(47)) == file_name(p),
        file_name(p.push(47).push(46)) == file_name(p),
{
    assert(p.push(47).drop_last() =~= p);
    assert(p.push(47).push(46).drop_last() =~= p.push(47));
    assert(trimmed(p.push(47)) == trimmed(p));
    assert(trimmed(p.push(47).push(46)) == trimmed(p));
}

/// The empty path has no file name, and neither has one that ends in `..` or is `.`.
pub proof fn law_path_without_file_name(dir: Seq<u8>)
    requires
        dir.len() > 0 ==> dir.last() == 47,
    ensures
        file_name(dir + seq![46u8, 46]) is None,
        file_name(seq![46u8]) is None,
        file_name(Seq::empty()) is None,
{
    let p = dir + seq![46u8, 46];
    assert(p.last() == 46 && p[p.len() - 2] == 46);
    assert(trimmed(p) == p);
    if dir.len() > 0 {
        assert(p[dir.len() - 1] == 47);
        assert(p[dir.len() as int] == 46 && p[dir.len() as int + 1] == 46);
        assert(last_at(p, 47, dir.len() - 1));
        lemma_after_last(p, 47, dir.len() - 1);
        assert(p.skip(dir.len() as int) =~= seq![46u8, 46]);
    } else {
        assert(p =~= seq![46u8, 46]);
        assert(!p.contains(47));
    }
    assert(!seq![46u8].contains(47));
    assert(!Seq::<u8>::empty().contains(47));
}

/// The extension is what stands behind the last dot of the file name, if something stands before
/// that dot.
pub proof fn law_extension_stands_behind_last_dot(p: Seq<u8>, stem: Seq<u8>, ext: Seq<u8>)
    requires
        file_name(p) == Some(stem.push(46) + ext),
        stem.len() > 0,
        !ext.contains(46),
    ensures
        extension(p) == Some(ext),
{
    let name = stem.push(46) + ext;
    let i = stem.len() as int;
    assert(name[i] == DOT);
    assert(last_at(name, 46, i)) by {
        assert forall|j: int| i < j < name.len() implies name[j] != 46 by {
            assert(name[j] == ext[j - i - 1]);
            assert(ext.contains(ext[j - i - 1]));
        }
    }
    lemma_after_last(name, 46, i);
    assert(name.skip(i + 1) =~= ext);
}

/// Without a file name there is no extension, and without a dot behind the first character of
/// the file name there is none either.
pub proof fn law_name_without_extension(p: Seq<u8>)
    requires
        file_name(p) matches Some(name) ==> forall|i: int|
            1 <= i < name.len() ==> #[trigger] name[i] != 46,
    ensures
        extension(p) is None,
{
}

} // verus!
