//! File names: how a manifest writes them, and the paths that they become.

use vstd::hash_map::StringHashMap;
use vstd::prelude::*;

use crate::crypto::{decrypt_filename, filename_decrypted};
use crate::error::{Error, ErrorView};
use crate::manifest::DepotManifest;
use crate::outside::{quoted, quoted_text, unicode_lowercased};
use crate::proto::{text_of, ContentManifestMetadata, FileMapping};
use crate::text::{ascii_lower, ascii_lowercase, chars_of, is_ascii_text, same_text};

verus! {

/// How a file name of a manifest becomes a path on disk.
///
/// Depot content is authored on Windows, so manifests hold backslashes and
/// whatever casing the author used. Separators are always normalized; casing
/// is a choice.
#[derive(Debug, Clone, Copy, PartialEq, Eq, Structural)]
pub struct PathOptions {
    /// Write every path in lowercase.
    pub lowercase: bool,
}

impl Default for PathOptions {
    fn default() -> (options: PathOptions)
        ensures
            options == (PathOptions { lowercase: false }),
    {
        PathOptions { lowercase: false }
    }
}

/// `name` with a slash for each backslash.
pub open spec fn with_slashes(name: Seq<char>) -> Seq<char> {
    name.map_values(
        |c: char|
            if c == '\\' {
                '/'
            } else {
                c
            },
    )
}

/// The lowercase equivalent of a text.
pub open spec fn lowercased(text: Seq<char>) -> Seq<char> {
    if is_ascii_text(text) {
        ascii_lowercase(text)
    } else {
        unicode_lowercased(text)
    }
}

/// The path of a file name, relative to where the depot is installed.
pub open spec fn relative_path(options: PathOptions, name: Seq<char>) -> Seq<char> {
    if options.lowercase {
        lowercased(with_slashes(name))
    } else {
        with_slashes(name)
    }
}

impl PathOptions {
    /// The casing of the manifest.
    pub fn preserve_case() -> (options: PathOptions)
        ensures
            !options.lowercase,
    {
        PathOptions { lowercase: false }
    }

    /// Every path in lowercase.
    pub fn lowercase() -> (options: PathOptions)
        ensures
            options.lowercase,
    {
        PathOptions { lowercase: true }
    }

    /// The path of a file name, relative to where the depot is installed. No
    /// path holds a backslash, whatever the options.
    pub fn relative(&self, filename: &str) -> (path: String)
        ensures
            path@ == relative_path(*self, filename@),
            !path@.contains('\\'),
    {
        let normalized: String = replace_backslashes(filename);
        if self.lowercase {
            normalized.as_str().to_lowercase()
        } else {
            normalized
        }
    }
}

/// A path that keeps its case has the characters of its name, with a slash for
/// each backslash, and is its own path; a folded path is the lowercase
/// equivalent of that one, whether it is made of the name or of the kept path.
/// Where the name is ASCII no folded path holds a backslash, and folding it
/// again changes nothing.
pub proof fn paths_are_normal(kept: PathOptions, folded: PathOptions, name: Seq<char>)
    requires
        !kept.lowercase,
        folded.lowercase,
    ensures
        relative_path(kept, name).len() == name.len(),
        forall|i: int|
            0 <= i < name.len() ==> #[trigger] relative_path(kept, name)[i] == if name[i] == '\\' {
                '/'
            } else {
                name[i]
            },
        !relative_path(kept, name).contains('\\'),
        relative_path(kept, relative_path(kept, name)) == relative_path(kept, name),
        relative_path(folded, name) == lowercased(relative_path(kept, name)),
        relative_path(folded, relative_path(kept, name)) == relative_path(folded, name),
        is_ascii_text(name) ==> !relative_path(folded, name).contains('\\') && relative_path(
            folded,
            relative_path(folded, name),
        ) == relative_path(folded, name),
        (forall|i: int| 0 <= i < name.len() ==> (#[trigger] name[i] as int) < 128)
            ==> relative_path(folded, name).len() == name.len() && forall|i: int|
            0 <= i < name.len() ==> (#[trigger] relative_path(folded, name)[i]) as int == if name[i]
                == '\\' {
                '/' as int
            } else if 'A' <= name[i] && name[i] <= 'Z' {
                name[i] as int + 32
            } else {
                name[i] as int
            },
{
    let path = with_slashes(name);
    assert(with_slashes(path) =~= path);
    if is_ascii_text(name) {
        let low = ascii_lowercase(path);
        assert forall|i: int| 0 <= i < path.len() implies (#[trigger] path[i] as int) < 128 by {
            assert((name[i] as int) < 128);
        }
        assert forall|i: int| 0 <= i < low.len() implies (#[trigger] low[i] as int) < 128
            && low[i] != '\\' && ascii_lower(low[i]) == low[i] by {
            assert((path[i] as int) < 128);
        }
        assert(with_slashes(low) =~= low);
        assert(ascii_lowercase(low) =~= low);
        assert(relative_path(folded, name) == low);
    }
}

fn replace_backslashes(name: &str) -> (s: String)
    ensures
        s@ == with_slashes(name@),
        !s@.contains('\\'),
{
    let mut s: String = String::new();
    for c in it: name.chars()
        invariant
            it.seq() == name@,
            s@ == with_slashes(it.seq().take(it.index() as int)),
    {
        if c == '\\' {
            s.push('/');
        } else {
            s.push(c);
        }
        assert(s@ =~= with_slashes(it.seq().take(it.index() + 1)));
    }
    assert(name@.take(name@.len() as int) =~= name@);
    s
}

/// A part between two slashes is a component of a path unless it is empty or
/// a single dot.
pub open spec fn is_component(part: Seq<char>) -> bool {
    part.len() > 0 && part != seq!['.']
}

/// `done` and `part`, where `part` is a component.
pub open spec fn with_part(done: Seq<Seq<char>>, part: Seq<char>) -> Seq<Seq<char>> {
    if is_component(part) {
        done.push(part)
    } else {
        done
    }
}

/// The components of `path` up to its last slash, and what stands behind that.
pub open spec fn walked(path: Seq<char>) -> (Seq<Seq<char>>, Seq<char>)
    decreases path.len(),
{
    if path.len() == 0 {
        (Seq::empty(), Seq::empty())
    } else {
        let (done, part) = walked(path.drop_last());
        if path.last() == '/' {
            (with_part(done, part), Seq::empty())
        } else {
            (done, part.push(path.last()))
        }
    }
}

/// The components of a path: the parts between its slashes, without those that
/// are empty or a single dot.
pub open spec fn components(path: Seq<char>) -> Seq<Seq<char>> {
    with_part(walked(path).0, walked(path).1)
}

/// The path begins at the root.
pub open spec fn is_absolute(path: Seq<char>) -> bool {
    path.len() > 0 && path[0] == '/'
}

/// The path begins with a single dot, which counts there and nowhere else.
pub open spec fn begins_with_dot(path: Seq<char>) -> bool {
    path.len() > 0 && path[0] == '.' && (path.len() == 1 || path[1] == '/')
}

/// `path` as seen from `dir`: itself where it begins at the root, else behind
/// `dir`, with one slash between them.
pub open spec fn joined_path(dir: Seq<char>, path: Seq<char>) -> Seq<char> {
    if is_absolute(path) || dir.len() == 0 {
        path
    } else if dir.last() == '/' {
        dir + path
    } else {
        dir + "/"@ + path
    }
}

/// Two paths begin alike and have the same components, however often a slash
/// is repeated in them, and whatever dots and slashes stand for nothing. Only
/// the slash separates.
pub open spec fn same_place(a: Seq<char>, b: Seq<char>) -> bool {
    &&& is_absolute(a) == is_absolute(b)
    &&& begins_with_dot(a) == begins_with_dot(b)
    &&& components(a) == components(b)
}

/// The parts, each with a slash behind it.
pub open spec fn slashed(parts: Seq<Seq<char>>) -> Seq<char>
    decreases parts.len(),
{
    if parts.len() == 0 {
        Seq::empty()
    } else {
        slashed(parts.drop_last()) + parts.last().push('/')
    }
}

/// The one text that all paths to the same place share.
pub open spec fn place_text(path: Seq<char>) -> Seq<char> {
    if is_absolute(path) {
        "/"@ + slashed(components(path))
    } else if begins_with_dot(path) {
        "./"@ + slashed(components(path))
    } else {
        "_/"@ + slashed(components(path))
    }
}

/// Each of the parts is a component without a slash in it.
spec fn plain_parts(parts: Seq<Seq<char>>) -> bool {
    forall|i: int|
        0 <= i < parts.len() ==> is_component(#[trigger] parts[i]) && !parts[i].contains('/')
}

proof fn lemma_walked_is_plain(path: Seq<char>)
    ensures
        plain_parts(walked(path).0),
        !walked(path).1.contains('/'),
        plain_parts(components(path)),
    decreases path.len(),
{
    if path.len() > 0 {
        lemma_walked_is_plain(path.drop_last());
        let (done, part) = walked(path.drop_last());
        assert(plain_parts(with_part(done, part)));
        if path.last() != '/' {
            let longer = part.push(path.last());
            assert forall|i: int| 0 <= i < longer.len() implies #[trigger] longer[i] != '/' by {
                if i < part.len() {
                    assert(part.contains(part[i]));
                }
            }
        }
    }
}

proof fn lemma_walked_on(path: Seq<char>, part: Seq<char>)
    requires
        !part.contains('/'),
    ensures
        walked(path + part) == (walked(path).0, walked(path).1 + part),
    decreases part.len(),
{
    if part.len() == 0 {
        assert(path + part =~= path);
        assert(walked(path).1 + part =~= walked(path).1);
    } else {
        let fewer = part.drop_last();
        assert forall|i: int| 0 <= i < fewer.len() implies #[trigger] fewer[i] != '/' by {
            assert(part.contains(part[i]));
        }
        lemma_walked_on(path, fewer);
        assert((path + part).drop_last() =~= path + fewer);
        assert(part.contains(part.last()));
        assert((walked(path).1 + fewer).push(part.last()) =~= walked(path).1 + part);
    }
}

proof fn lemma_walked_back(parts: Seq<Seq<char>>)
    requires
        plain_parts(parts),
    ensures
        walked(slashed(parts)) == (parts, Seq::<char>::empty()),
    decreases parts.len(),
{
    if parts.len() > 0 {
        let fewer = parts.drop_last();
        let last = parts.last();
        let front = slashed(fewer) + last;
        assert forall|i: int| 0 <= i < fewer.len() implies is_component(#[trigger] fewer[i])
            && !fewer[i].contains('/') by {
            assert(fewer[i] == parts[i]);
        }
        lemma_walked_back(fewer);
        assert(last == parts[parts.len() - 1]);
        lemma_walked_on(slashed(fewer), last);
        assert(Seq::<char>::empty() + last =~= last);
        assert(slashed(parts) =~= front.push('/'));
        assert(front.push('/').drop_last() =~= front);
        assert(fewer.push(last) =~= parts);
    } else {
        assert(parts =~= Seq::<Seq<char>>::empty());
    }
}

/// Paths share their text exactly where they name the same place.
pub proof fn places_have_their_own_text(a: Seq<char>, b: Seq<char>)
    ensures
        place_text(a) == place_text(b) <==> same_place(a, b),
{
    if place_text(a) == place_text(b) {
        reveal_strlit("/");
        reveal_strlit("./");
        reveal_strlit("_/");
        let root: char = place_text(a)[0];
        assert(is_absolute(a) <==> root == '/');
        assert(is_absolute(b) <==> root == '/');
        assert(begins_with_dot(a) <==> root == '.');
        assert(begins_with_dot(b) <==> root == '.');
        let skipped: int = if is_absolute(a) {
            1
        } else {
            2
        };
        assert(place_text(a).skip(skipped) =~= slashed(components(a)));
        assert(place_text(b).skip(skipped) =~= slashed(components(b)));
        lemma_walked_is_plain(a);
        lemma_walked_is_plain(b);
        lemma_walked_back(components(a));
        lemma_walked_back(components(b));
    }
}

/// The components of a path are those before any of its slashes, and those
/// behind it. A text without a slash is one component, unless it is empty or a
/// single dot: then it is none.
pub proof fn slashes_part_components(front: Seq<char>, back: Seq<char>)
    ensures
        components(front + seq!['/'] + back) == components(front) + components(back),
        !front.contains('/') ==> components(front) == if front.len() == 0 || (front.len() == 1
            && front[0] == '.') {
            Seq::<Seq<char>>::empty()
        } else {
            seq![front]
        },
{
    lemma_components_behind(front, back);
    if !front.contains('/') {
        lemma_walked_on(Seq::empty(), front);
        assert(Seq::<char>::empty() + front =~= front);
        assert(front.len() == 1 && front[0] == '.' ==> front =~= seq!['.']);
        assert(Seq::<Seq<char>>::empty().push(front) =~= seq![front]);
    }
}

proof fn lemma_components_behind(front: Seq<char>, back: Seq<char>)
    ensures
        walked(front + seq!['/'] + back) == (components(front) + walked(back).0, walked(back).1),
        components(front + seq!['/'] + back) == components(front) + components(back),
    decreases back.len(),
{
    let text = front + seq!['/'] + back;
    if back.len() == 0 {
        assert(text.drop_last() =~= front);
        assert(components(front) + walked(back).0 =~= components(front));
    } else {
        let fewer = back.drop_last();
        lemma_components_behind(front, fewer);
        assert(text.drop_last() =~= front + seq!['/'] + fewer);
        assert(text.last() == back.last());
        let (done, part) = walked(fewer);
        assert((components(front) + done).push(part) =~= components(front) + done.push(part));
    }
    let (done, part) = walked(back);
    assert((components(front) + done).push(part) =~= components(front) + done.push(part));
}

/// Puts a part behind `text`, with a slash, where the part is a component.
fn push_part(text: &mut String, part: &str)
    ensures
        final(text)@ == if is_component(part@) {
            old(text)@ + part@.push('/')
        } else {
            old(text)@
        },
{
    proof {
        reveal_strlit("");
        reveal_strlit(".");
        assert(""@ =~= Seq::<char>::empty());
        assert("."@ =~= seq!['.']);
        assert(part@.len() == 0 ==> part@ =~= Seq::<char>::empty());
    }
    if !same_text(part, "") && !same_text(part, ".") {
        text.append(part);
        text.push('/');
        assert(text@ =~= old(text)@ + part@.push('/'));
    }
}

/// `path` as seen from `dir`.
pub fn join_path(dir: &str, path: &str) -> (s: String)
    ensures
        s@ == joined_path(dir@, path@),
{
    let front: Vec<char> = chars_of(dir);
    let back: Vec<char> = chars_of(path);
    if front.len() == 0 || (back.len() > 0 && back[0] == '/') {
        return path.to_string();
    }
    let mut s: String = dir.to_string();
    if front[front.len() - 1] != '/' {
        s.append("/");
    }
    s.append(path);
    s
}

/// The one text that all paths to the same place share.
pub fn place_of(path: &str) -> (s: String)
    ensures
        s@ == place_text(path@),
{
    let chars: Vec<char> = chars_of(path);
    let mut s: String = if chars.len() > 0 && chars[0] == '/' {
        "/".to_string()
    } else if chars.len() > 0 && chars[0] == '.' && (chars.len() == 1 || chars[1] == '/') {
        "./".to_string()
    } else {
        "_/".to_string()
    };
    let ghost root = s@;
    let mut part: String = String::new();
    assert(s@ =~= root + slashed(Seq::empty()));
    for i in 0..chars.len()
        invariant
            chars@ == path@,
            s@ == root + slashed(walked(path@.take(i as int)).0),
            part@ == walked(path@.take(i as int)).1,
    {
        let ghost (done, before) = walked(path@.take(i as int));
        assert(path@.take(i + 1).drop_last() =~= path@.take(i as int));
        if chars[i] == '/' {
            push_part(&mut s, part.as_str());
            part = String::new();
            assert(done.push(before).drop_last() =~= done);
            assert(s@ =~= root + slashed(with_part(done, before)));
        } else {
            part.push(chars[i]);
        }
    }
    assert(path@.take(path@.len() as int) =~= path@);
    push_part(&mut s, part.as_str());
    let ghost (done, last) = walked(path@);
    assert(done.push(last).drop_last() =~= done);
    assert(s@ =~= root + slashed(components(path@)));
    s
}

/// The file names of a manifest.
pub open spec fn filenames(mappings: Seq<FileMapping>) -> Seq<Option<Seq<char>>> {
    mappings.map_values(|mapping: FileMapping| text_of(mapping.filename))
}

/// The names at `j` and `i`, where `j` is the first, differ and become the
/// same path.
pub open spec fn collide(
    names: Seq<Option<Seq<char>>>,
    options: PathOptions,
    j: int,
    i: int,
) -> bool {
    &&& 0 <= j < i < names.len()
    &&& names[j] is Some
    &&& names[i] is Some
    &&& names[j] != names[i]
    &&& relative_path(options, names[j]->0) == relative_path(options, names[i]->0)
}

/// No two names that differ become the same path.
pub open spec fn collision_free(names: Seq<Option<Seq<char>>>, options: PathOptions) -> bool {
    forall|j: int, i: int| !#[trigger] collide(names, options, j, i)
}

/// What is said of two names that become the same path.
pub open spec fn collision_text(first: Seq<char>, second: Seq<char>, path: Seq<char>) -> Seq<char> {
    "cannot lowercase this depot: "@ + quoted_text(first) + " and "@ + quoted_text(second)
        + " both become "@ + quoted_text(path) + ", so one would overwrite the other"@
}

/// `text` names the first collision: the first name that becomes the path of
/// an earlier one that differs.
pub open spec fn tells_first_collision(
    names: Seq<Option<Seq<char>>>,
    options: PathOptions,
    text: Seq<char>,
) -> bool {
    exists|j: int, i: int| #[trigger]
        collide(names, options, j, i) && collision_free(names.take(i), options) && text
            == collision_text(names[j]->0, names[i]->0, relative_path(options, names[i]->0))
}

/// In a folded tree two files share a path only where the manifest gives both
/// the same name, so no file overwrites another.
pub proof fn folded_names_keep_apart(
    names: Seq<Option<Seq<char>>>,
    options: PathOptions,
    i: int,
    j: int,
)
    requires
        collision_free(names, options),
        0 <= i < names.len(),
        0 <= j < names.len(),
        names[i] is Some,
        names[j] is Some,
        relative_path(options, names[i]->0) == relative_path(options, names[j]->0),
    ensures
        names[i] == names[j],
{
    assert(!collide(names, options, i, j));
    assert(!collide(names, options, j, i));
}

/// Refuses a manifest in which two names that differ would become the same
/// path once folded, and names both. Where casing is kept nothing is refused.
pub fn check_for_collisions(manifest: &DepotManifest, options: PathOptions) -> (r: Result<(), Error>)
    ensures
        match r {
            Ok(_) => !options.lowercase || collision_free(
                filenames(manifest.payload.mappings@),
                options,
            ),
            Err(e) => options.lowercase && e@ is Other && tells_first_collision(
                filenames(manifest.payload.mappings@),
                options,
                e@->Other_0,
            ),
        },
{
    if !options.lowercase {
        return Ok(());
    }
    let ghost names = filenames(manifest.payload.mappings@);
    let mut seen: StringHashMap<usize> = StringHashMap::new();
    let count: usize = manifest.payload.mappings.len();
    for i in 0..count
        invariant
            options.lowercase,
            count == manifest.payload.mappings@.len(),
            names == filenames(manifest.payload.mappings@),
            collision_free(names.take(i as int), options),
            forall|path: Seq<char>| #[trigger]
                seen@.contains_key(path) ==> {
                    &&& seen@[path] < i
                    &&& names[seen@[path] as int] is Some
                    &&& relative_path(options, names[seen@[path] as int]->0) == path
                },
            forall|k: int|
                0 <= k < i && (#[trigger] names[k]) is Some ==> seen@.contains_key(
                    relative_path(options, names[k]->0),
                ),
    {
        let mapping: &FileMapping = &manifest.payload.mappings[i];
        assert(names[i as int] == text_of(mapping.filename));
        let ghost next = names.take(i + 1);
        let ghost here = names.take(i as int);
        match &mapping.filename {
            None => {
                proof {
                    assert forall|j: int, k: int| !#[trigger] collide(next, options, j, k) by {
                        if collide(next, options, j, k) {
                            assert(collide(here, options, j, k));
                        }
                    }
                }
            },
            Some(filename) => {
                let folded: String = options.relative(filename.as_str());
                match seen.get(folded.as_str()) {
                    Some(place) => {
                        let earlier: usize = *place;
                        let previous: &String = match &manifest.payload.mappings[earlier].filename {
                            Some(previous) => previous,
                            None => filename,
                        };
                        assert(names[earlier as int] == Some(previous@));
                        if !same_text(previous.as_str(), filename.as_str()) {
                            let mut text: String = "cannot lowercase this depot: ".to_string();
                            text.append(quoted(previous.as_str()).as_str());
                            text.append(" and ");
                            text.append(quoted(filename.as_str()).as_str());
                            text.append(" both become ");
                            text.append(quoted(folded.as_str()).as_str());
                            text.append(", so one would overwrite the other");
                            proof {
                                assert(collide(names, options, earlier as int, i as int));
                            }
                            return Err(Error::Other(text));
                        }
                    },
                    None => {},
                }
                proof {
                    assert forall|j: int, k: int| !#[trigger] collide(next, options, j, k) by {
                        if collide(next, options, j, k) {
                            if k < i {
                                assert(collide(here, options, j, k));
                            } else {
                                let place = seen@[folded@] as int;
                                assert(seen@.contains_key(relative_path(options, names[j]->0)));
                                assert(names[place] == names[i as int]);
                                if place < j {
                                    assert(collide(here, options, place, j));
                                } else if j < place {
                                    assert(collide(here, options, j, place));
                                }
                            }
                        }
                    }
                }
                seen.insert(folded, i);
            },
        }
    }
    assert(names.take(count as int) =~= names);
    Ok(())
}

/// The manifest says that its file names are encrypted.
pub open spec fn names_encrypted(metadata: ContentManifestMetadata) -> bool {
    metadata.filenames_encrypted == Some(true)
}

/// `after` is `before` with its file name, if it has one, decrypted.
pub open spec fn name_decrypted(before: FileMapping, key: Seq<u8>, after: FileMapping) -> bool {
    &&& after == FileMapping { filename: after.filename, ..before }
    &&& match text_of(before.filename) {
        None => after.filename == before.filename,
        Some(name) => filename_decrypted(key, name) is Ok && text_of(after.filename) == Some(
            filename_decrypted(key, name)->Ok_0,
        ),
    }
}

/// The file name of a mapping cannot be decrypted, and `e` says why.
pub open spec fn name_refused(mapping: FileMapping, key: Seq<u8>, e: ErrorView) -> bool {
    mapping.filename is Some && filename_decrypted(key, text_of(mapping.filename)->0) == Err::<
        Seq<char>,
        ErrorView,
    >(e)
}

/// The first `count` mappings have their names decrypted, the others are as
/// they were.
pub open spec fn names_decrypted_up_to(
    before: Seq<FileMapping>,
    key: Seq<u8>,
    after: Seq<FileMapping>,
    count: int,
) -> bool {
    &&& 0 <= count <= before.len()
    &&& after.len() == before.len()
    &&& forall|i: int| 0 <= i < count ==> name_decrypted(before[i], key, #[trigger] after[i])
    &&& forall|i: int| count <= i < before.len() ==> #[trigger] after[i] == before[i]
}

/// What decrypting the file names of `before` does: nothing where they are not
/// encrypted; else each name is decrypted in turn, up to the first that cannot
/// be, and where all can be the manifest says from then on that its names are
/// not encrypted.
pub open spec fn names_decryption(
    before: DepotManifest,
    key: Seq<u8>,
    after: DepotManifest,
    r: Result<(), ErrorView>,
) -> bool {
    if !names_encrypted(before.metadata) {
        r is Ok && after == before
    } else {
        &&& after.signature == before.signature
        &&& match r {
            Ok(_) => {
                &&& names_decrypted_up_to(
                    before.payload.mappings@,
                    key,
                    after.payload.mappings@,
                    before.payload.mappings@.len() as int,
                )
                &&& after.metadata == ContentManifestMetadata {
                    filenames_encrypted: Some(false),
                    ..before.metadata
                }
            },
            Err(e) => {
                &&& after.metadata == before.metadata
                &&& exists|i: int|
                    0 <= i < before.payload.mappings@.len() && name_refused(
                        #[trigger] before.payload.mappings@[i],
                        key,
                        e,
                    ) && names_decrypted_up_to(
                        before.payload.mappings@,
                        key,
                        after.payload.mappings@,
                        i,
                    )
            },
        }
    }
}

/// Once the names are decrypted, decrypting them again changes nothing,
/// whatever the key.
pub proof fn decrypted_names_stay(
    before: DepotManifest,
    key: Seq<u8>,
    after: DepotManifest,
    other_key: Seq<u8>,
    again: DepotManifest,
    r: Result<(), ErrorView>,
)
    requires
        names_decryption(before, key, after, Ok(())),
        names_decryption(after, other_key, again, r),
    ensures
        r is Ok,
        again == after,
{
}

/// Where the names of a manifest are encrypted and all of them can be
/// decrypted, each mapping has its own name decrypted and is otherwise as it
/// was, and the manifest says that its names are no longer encrypted. A
/// manifest whose names are not encrypted is left alone.
pub proof fn names_are_decrypted_one_by_one(
    before: DepotManifest,
    key: Seq<u8>,
    after: DepotManifest,
    r: Result<(), ErrorView>,
    i: int,
)
    requires
        names_decryption(before, key, after, r),
        0 <= i < before.payload.mappings@.len(),
    ensures
        before.metadata.filenames_encrypted != Some(true) ==> r is Ok && after == before,
        before.metadata.filenames_encrypted == Some(true) && r is Ok ==> {
            let old_one = before.payload.mappings@[i];
            let new_one = after.payload.mappings@[i];
            &&& after.payload.mappings@.len() == before.payload.mappings@.len()
            &&& after.metadata.filenames_encrypted == Some(false)
            &&& after.signature == before.signature
            &&& new_one.size == old_one.size
            &&& new_one.flags == old_one.flags
            &&& new_one.chunks == old_one.chunks
            &&& new_one.linktarget == old_one.linktarget
            &&& new_one.sha_filename == old_one.sha_filename
            &&& new_one.sha_content == old_one.sha_content
            &&& old_one.filename is None ==> new_one.filename is None
            &&& old_one.filename is Some ==> new_one.filename is Some && filename_decrypted(
                key,
                old_one.filename->0@,
            ) == Ok::<Seq<char>, ErrorView>(new_one.filename->0@)
        },
        before.metadata.filenames_encrypted == Some(true) && (exists|k: int|
            0 <= k < before.payload.mappings@.len() && (
            #[trigger] before.payload.mappings@[k]).filename is Some && filename_decrypted(
                key,
                before.payload.mappings@[k].filename->0@,
            ) is Err) ==> r is Err,
{
    if before.metadata.filenames_encrypted == Some(true) && r is Ok {
        assert(name_decrypted(
            before.payload.mappings@[i],
            key,
            after.payload.mappings@[i],
        ));
        assert forall|k: int| 0 <= k < before.payload.mappings@.len() && (
        #[trigger] before.payload.mappings@[k]).filename is Some implies filename_decrypted(
            key,
            before.payload.mappings@[k].filename->0@,
        ) is Ok by {
            assert(name_decrypted(
                before.payload.mappings@[k],
                key,
                after.payload.mappings@[k],
            ));
        }
    }
}

/// Decrypts the file names of a manifest in place, where they are encrypted.
pub fn decrypt_manifest_filenames(manifest: &mut DepotManifest, key: &[u8]) -> (r: Result<
    (),
    Error,
>)
    ensures
        names_decryption(
            *old(manifest),
            key@,
            *final(manifest),
            match r {
                Ok(_) => Ok(()),
                Err(e) => Err(e@),
            },
        ),
{
    let encrypted: bool = match manifest.metadata.filenames_encrypted {
        Some(flag) => flag,
        None => false,
    };
    if !encrypted {
        return Ok(());
    }
    let ghost before = manifest.payload.mappings@;
    let count: usize = manifest.payload.mappings.len();
    let mut i: usize = 0;
    while i < count
        invariant
            count == before.len(),
            before == old(manifest).payload.mappings@,
            names_encrypted(old(manifest).metadata),
            manifest.metadata == old(manifest).metadata,
            manifest.signature == old(manifest).signature,
            names_decrypted_up_to(before, key@, manifest.payload.mappings@, i as int),
        decreases count - i,
    {
        let decrypted: Option<String> = match &manifest.payload.mappings[i].filename {
            Some(name) => match decrypt_filename(key, name.as_str()) {
                Ok(decrypted) => Some(decrypted),
                Err(e) => {
                    proof {
                        assert(name_refused(before[i as int], key@, e@));
                    }
                    return Err(e);
                },
            },
            None => None,
        };
        if decrypted.is_some() {
            manifest.payload.mappings[i].filename = decrypted;
        }
        i = i + 1;
    }
    manifest.metadata.filenames_encrypted = Some(false);
    Ok(())
}

} // verus!
