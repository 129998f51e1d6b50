//! Keeping the program up to date: what to download, and when.
use crate::assets::{
    components, first_slash, is_portable, no_slash, part_list, path_parts, portable_parts, PathPart,
};
use crate::hash::{decode_hash, hex_bytes, is_hash};
use crate::server_list::{join_url, url_joined};
use crate::text::{append, chars_of, copy_range, equal, lines, lines_of, string_of, texts};
use std::io::Read;
use vstd::prelude::*;

verus! {

/// The seconds of an hour.
pub const HOUR: u64 = 3600;

/// The file that remembers the last update.
pub const INFO_NAME: &'static str = "auto_updater_info.json";

/// The file with the checksums of a release.
pub const CHECKSUM_NAME: &'static str = "blake3_checksum.txt";

/// The name of an architecture in releases.
pub open spec fn arch_name(arch: Seq<char>) -> Option<Seq<char>> {
    if arch == "x86"@ {
        Some("x86"@)
    } else if arch == "x86_64"@ {
        Some("x64"@)
    } else if arch == "arm"@ {
        Some("arm"@)
    } else if arch == "aarch64"@ {
        Some("arm64"@)
    } else {
        None
    }
}

/// The name of an architecture in releases. There are no releases for others.
pub fn normalized_arch(arch: &str) -> (r: Option<String>)
    ensures
        match arch_name(arch@) {
            Some(name) => r matches Some(text) && text@ == name,
            None => r is None,
        },
{
    if equal(arch, "x86") {
        Some("x86".to_owned())
    } else if equal(arch, "x86_64") {
        Some("x64".to_owned())
    } else if equal(arch, "arm") {
        Some("arm".to_owned())
    } else if equal(arch, "aarch64") {
        Some("arm64".to_owned())
    } else {
        None
    }
}

/// The place of the last dot, or -1.
pub open spec fn last_dot(name: Seq<char>) -> int
    decreases name.len(),
{
    if name.len() == 0 {
        -1
    } else if name.last() == '.' {
        name.len() - 1
    } else {
        last_dot(name.drop_last())
    }
}

/// The name of a file without its extension. A dot at the start begins none.
pub open spec fn stem(name: Seq<char>) -> Seq<char> {
    if last_dot(name) > 0 {
        name.take(last_dot(name))
    } else {
        name
    }
}

/// The stem of the file that a path with the given components leads to.
pub open spec fn stem_of(parts: Seq<PathPart<Seq<char>>>) -> Option<Seq<char>> {
    if parts.len() == 0 {
        None
    } else {
        match parts.last() {
            PathPart::Normal(name) => Some(stem(name)),
            _ => None,
        }
    }
}

/// The stem of the file that a path with the given components leads to.
pub fn file_stem(parts: &Vec<PathPart<String>>) -> (r: Option<String>)
    ensures
        match stem_of(part_list(parts@)) {
            Some(name) => r matches Some(text) && text@ == name,
            None => r is None,
        },
{
    if parts.len() == 0 {
        return None;
    }
    assert(part_list(parts@).last() == parts@[parts@.len() - 1]@);
    match &parts[parts.len() - 1] {
        PathPart::Normal(name) => {
            let chars = chars_of(name.as_str());
            let mut i: usize = chars.len();
            assert(chars@.take(i as int) =~= chars@);
            while i > 0 && chars[i - 1] != '.'
                invariant
                    i <= chars.len(),
                    last_dot(chars@) == last_dot(chars@.take(i as int)),
                decreases i,
            {
                assert(chars@.take(i as int).drop_last() =~= chars@.take(i - 1));
                i -= 1;
            }
            if i > 1 {
                let text = string_of(&copy_range(&chars, 0, i - 1));
                assert(text@ =~= chars@.take(i - 1));
                Some(text)
            } else {
                Some(name.clone())
            }
        },
        _ => None,
    }
}

/// The stem of the program at the given path, which names the program in
/// releases.
pub fn bin_name(path: &str) -> (r: Option<String>)
    ensures
        exists|parts: Seq<PathPart<Seq<char>>>|
            {
                &&& is_portable(path@) ==> parts == portable_parts(path@)
                &&& match #[trigger] stem_of(parts) {
                    Some(name) => r matches Some(text) && text@ == name,
                    None => r is None,
                }
            },
{
    let parts = components(path);
    let r = file_stem(&parts);
    assert(match stem_of(part_list(parts@)) {
        Some(name) => r matches Some(text) && text@ == name,
        None => r is None,
    });
    r
}

/// The name of the archive of a release.
pub open spec fn asset_text(bin: Seq<char>, os: Seq<char>, arch: Seq<char>, suffix: Seq<char>) -> Seq<
    char,
> {
    bin + "-"@ + os + "-"@ + arch + suffix + ".zip"@
}

/// The name of the archive of a release.
pub fn asset_name(bin: &str, os: &str, arch: &str, suffix: &str) -> (r: String)
    ensures
        r@ == asset_text(bin@, os@, arch@, suffix@),
{
    let mut r = bin.to_owned();
    append(&mut r, "-");
    append(&mut r, os);
    append(&mut r, "-");
    append(&mut r, arch);
    append(&mut r, suffix);
    append(&mut r, ".zip");
    r
}

/// The path of a release below the server.
pub open spec fn release_path(owner: Seq<char>, repo: Seq<char>, tag: Seq<char>) -> Seq<char> {
    owner + "/"@ + repo + "/releases/download/"@ + tag + "/"@
}

/// The URL that the files of a release are below.
pub fn release_url(owner: &str, repo: &str, tag: &str) -> (r: Option<String>)
    ensures
        match url_joined("https://github.com"@, release_path(owner@, repo@, tag@)) {
            Some(text) => r matches Some(url) && url@ == text,
            None => r is None,
        },
{
    let mut path = owner.to_owned();
    append(&mut path, "/");
    append(&mut path, repo);
    append(&mut path, "/releases/download/");
    append(&mut path, tag);
    append(&mut path, "/");
    join_url("https://github.com", path.as_str())
}

/// The URL of a file of a release.
pub fn file_url(release: &str, name: &str) -> (r: Option<String>)
    ensures
        match url_joined(release@, name@) {
            Some(text) => r matches Some(url) && url@ == text,
            None => r is None,
        },
{
    join_url(release, name)
}

/// Why there is no update.
#[derive(Clone, Copy, Debug, PartialEq, Eq, Structural)]
pub enum UpdateError {
    /// The checksums do not start with the release's tag.
    NoGitTag,
    /// There is no checksum for the archive.
    NoAsset,
    /// The checksum is not 64 hexadecimal digits.
    InvalidHash,
    /// The archive cannot be read.
    BadArchive,
    /// An entry of the archive cannot be read.
    BadEntry,
    /// The program is not in the archive.
    NoProgram,
}

/// The white space of ASCII.
pub open spec fn ascii_space(c: char) -> bool {
    c == ' ' || c == '\t' || c == '\n' || c == '\x0C' || c == '\r'
}

/// The place of the first white space, or the length.
pub open spec fn first_space(line: Seq<char>) -> int
    decreases line.len(),
{
    if line.len() == 0 || ascii_space(line[0]) {
        0
    } else {
        1 + first_space(line.drop_first())
    }
}

/// What follows the given name on a line.
pub open spec fn value_for(line: Seq<char>, name: Seq<char>) -> Option<Seq<char>> {
    let at = first_space(line);
    if at < line.len() && line.take(at) == name {
        Some(line.skip(at + 1))
    } else {
        None
    }
}

/// What follows the given name on the first line that has it.
pub open spec fn find_value(lines: Seq<Seq<char>>, name: Seq<char>) -> Option<Seq<char>>
    decreases lines.len(),
{
    if lines.len() == 0 {
        None
    } else {
        match value_for(lines[0], name) {
            Some(value) => Some(value),
            None => find_value(lines.drop_first(), name),
        }
    }
}

/// The tag and the archive's hash in a list of checksums: the tag is the
/// first line, and the others hold a name and a hash each.
pub open spec fn read_checksums(lines: Seq<Seq<char>>, asset: Seq<char>) -> Result<
    (Seq<char>, Seq<u8>),
    UpdateError,
> {
    if lines.len() == 0 {
        Err(UpdateError::NoGitTag)
    } else {
        match find_value(lines.drop_first(), asset) {
            None => Err(UpdateError::NoAsset),
            Some(hash) => if is_hash(hash) {
                Ok((lines[0], hex_bytes(hash)))
            } else {
                Err(UpdateError::InvalidHash)
            },
        }
    }
}

/// A release: its tag, and the hash of the archive.
#[derive(Clone, Debug, PartialEq, Eq)]
pub struct Release {
    pub git_tag: String,
    pub asset_hash: [u8; 32],
}

fn split_at_space(line: &Vec<char>) -> (r: usize)
    ensures
        r == first_space(line@),
        r <= line.len(),
{
    let mut i: usize = 0;
    assert(line@.skip(0) =~= line@);
    while i < line.len()
        invariant
            i <= line.len(),
            first_space(line@) == i + first_space(line@.skip(i as int)),
        decreases line.len() - i,
    {
        let c = line[i];
        assert(line@.skip(i as int).drop_first() =~= line@.skip(i + 1));
        if c == ' ' || c == '\t' || c == '\n' || c == '\x0C' || c == '\r' {
            return i;
        }
        i += 1;
    }
    i
}

/// Reads the checksums of a release.
pub fn parse_checksums(contents: &str, asset: &str) -> (r: Result<Release, UpdateError>)
    ensures
        match read_checksums(lines_of(contents@), asset@) {
            Ok((tag, hash)) => r matches Ok(release) && release.git_tag@ == tag
                && release.asset_hash@ == hash,
            Err(error) => r is Err && r->Err_0 == error,
        },
{
    let text = chars_of(contents);
    let list = lines(&text);
    let ghost all = texts(list@);
    if list.len() == 0 {
        return Err(UpdateError::NoGitTag);
    }
    let git_tag = string_of(&list[0]);
    let mut i: usize = 1;
    assert(all.skip(1) =~= all.drop_first());
    while i < list.len()
        invariant
            1 <= i <= list.len(),
            all == texts(list@),
            all == lines_of(contents@),
            git_tag@ == all[0],
            find_value(all.skip(i as int), asset@) == find_value(all.drop_first(), asset@),
        decreases list.len() - i,
    {
        let line = &list[i];
        proof {
            assert(all.skip(i as int)[0] == line@);
            assert(all.skip(i as int).drop_first() =~= all.skip(i + 1));
        }
        let at = split_at_space(line);
        if at < line.len() {
            let name = string_of(&copy_range(line, 0, at));
            assert(name@ =~= line@.take(at as int));
            if equal(name.as_str(), asset) {
                let value = string_of(&copy_range(line, at + 1, line.len()));
                assert(value@ =~= line@.skip(at + 1));
                return match decode_hash(value.as_str()) {
                    Some(asset_hash) => Ok(Release { git_tag, asset_hash }),
                    None => Err(UpdateError::InvalidHash),
                };
            }
        }
        i += 1;
    }
    Err(UpdateError::NoAsset)
}

/// An entry of an archive: whether it is a directory, its path, and the path
/// again if it does not lead out of the directory that the archive is
/// unpacked to.
#[derive(Clone, Debug, PartialEq, Eq)]
pub struct ArchiveEntry {
    pub is_dir: bool,
    pub name: String,
    pub enclosed: Option<String>,
}

/// The entries of a ZIP archive: for each that can be read, whether it is a
/// directory, and its path.
pub uninterp spec fn zip_entries(archive: Seq<u8>) -> Option<Seq<Option<(bool, Seq<char>)>>>;

/// The contents of an entry of a ZIP archive.
pub uninterp spec fn zip_contents(archive: Seq<u8>, index: nat) -> Option<Seq<u8>>;

/// Entries as contracts speak of them.
pub open spec fn entry_list(entries: Seq<Option<ArchiveEntry>>) -> Seq<Option<(bool, Seq<char>)>> {
    entries.map_values(
        |e: Option<ArchiveEntry>|
            match e {
                Some(entry) => Some((entry.is_dir, entry.name@)),
                None => None,
            },
    )
}

/// How far below the start a path ends; nothing if it leads above the start
/// or to a root.
pub open spec fn depth(parts: Seq<PathPart<Seq<char>>>) -> Option<nat>
    decreases parts.len(),
{
    if parts.len() == 0 {
        Some(0)
    } else {
        match depth(parts.drop_last()) {
            None => None,
            Some(above) => match parts.last() {
                PathPart::Prefix(_) | PathPart::RootDir => None,
                PathPart::ParentDir => if above > 0 {
                    Some((above - 1) as nat)
                } else {
                    None
                },
                PathPart::CurDir => Some(above),
                PathPart::Normal(_) => Some(above + 1),
            },
        }
    }
}

/// The path does not lead out of the directory that it is relative to.
pub open spec fn stays_inside(path: Seq<char>) -> bool {
    !path.contains('\0') && depth(portable_parts(path)) is Some
}

/// An entry has its path as the enclosed one or none. Which of these is told
/// for the paths that mean the same on every system.
pub open spec fn is_enclosed(entry: Option<ArchiveEntry>) -> bool {
    match entry {
        Some(entry) => {
            &&& entry.enclosed matches Some(path) ==> path@ == entry.name@
            &&& is_portable(entry.name@) ==> (entry.enclosed is Some <==> stays_inside(entry.name@))
        },
        None => true,
    }
}

/// `zip::ZipArchive::new` reads the directory of an archive, and `by_index`
/// the header of each entry. What these say depends on the archive alone.
/// `enclosed_name` hands out the path of an entry unless it holds a NUL or
/// leads outside; how it reads backslashes, colons and two slashes at the
/// start depends on the system.
#[verifier::external_body]
fn list_archive(archive: &[u8]) -> (r: Option<Vec<Option<ArchiveEntry>>>)
    ensures
        match zip_entries(archive@) {
            Some(list) => r matches Some(entries) && entry_list(entries@) == list,
            None => r is None,
        },
        r matches Some(entries) ==> forall|i: int|
            0 <= i < entries@.len() ==> is_enclosed(#[trigger] entries@[i]),
{
    let mut zip = zip::ZipArchive::new(std::io::Cursor::new(archive)).ok()?;
    let entries = (0..zip.len()).map(
        |i| {
            let file = zip.by_index(i).ok()?;
            let enclosed = file.enclosed_name().map(|path| path.to_string_lossy().into_owned());
            Some(ArchiveEntry { is_dir: file.is_dir(), name: file.name().to_owned(), enclosed })
        },
    );
    Some(entries.collect())
}

/// Reads an entry of a `zip::ZipArchive`. That depends on the archive and the
/// index alone.
#[verifier::external_body]
fn read_archive(archive: &[u8], index: usize) -> (r: Option<Vec<u8>>)
    ensures
        match zip_contents(archive@, index as nat) {
            Some(contents) => r matches Some(data) && data@ == contents,
            None => r is None,
        },
{
    let mut data = Vec::new();
    let mut zip = zip::ZipArchive::new(std::io::Cursor::new(archive)).ok()?;
    zip.by_index(index).ok()?.read_to_end(&mut data).ok()?;
    Some(data)
}

/// What an entry of an archive is to the look for the program.
#[derive(Clone, Debug, PartialEq, Eq)]
pub enum Candidate<P> {
    /// It cannot be read.
    Unreadable,
    /// It is a directory, or leads outside.
    Passed,
    /// It is a file, whose path has these components.
    File(P),
}

/// The components of a path, where they are known.
pub type Parts = Seq<PathPart<Seq<char>>>;

impl View for Candidate<Vec<PathPart<String>>> {
    type V = Candidate<Parts>;

    open spec fn view(&self) -> Candidate<Parts> {
        match self {
            Candidate::Unreadable => Candidate::Unreadable,
            Candidate::Passed => Candidate::Passed,
            Candidate::File(parts) => Candidate::File(part_list(parts@)),
        }
    }
}

/// Candidates as contracts speak of them.
pub open spec fn candidate_list(list: Seq<Candidate<Vec<PathPart<String>>>>) -> Seq<
    Candidate<Parts>,
> {
    list.map_values(|c: Candidate<Vec<PathPart<String>>>| c@)
}

/// The candidate is what the entry is to the look for the program. What the
/// components of a path are is told for the paths that mean the same on every
/// system.
pub open spec fn stands_for(entry: Option<(bool, Seq<char>)>, candidate: Candidate<Parts>) -> bool {
    match entry {
        None => candidate is Unreadable,
        Some((is_dir, name)) => {
            &&& !(candidate is Unreadable)
            &&& is_dir ==> candidate is Passed
            &&& !is_dir && is_portable(name) ==> candidate == if stays_inside(name) {
                Candidate::File(portable_parts(name))
            } else {
                Candidate::<Parts>::Passed
            }
        },
    }
}

/// The candidates are what the entries are to the look for the program.
pub open spec fn stand_for(
    entries: Seq<Option<(bool, Seq<char>)>>,
    candidates: Seq<Candidate<Parts>>,
) -> bool {
    entries.len() == candidates.len() && forall|i: int|
        0 <= i < entries.len() ==> stands_for(#[trigger] entries[i], candidates[i])
}

/// The first candidate that is the program, unless one before it cannot be
/// read.
pub open spec fn program_index(candidates: Seq<Candidate<Parts>>, bin: Parts, i: int) -> Result<
    int,
    UpdateError,
>
    decreases candidates.len() - i,
{
    if i < 0 || i >= candidates.len() {
        Err(UpdateError::NoProgram)
    } else {
        match candidates[i] {
            Candidate::Unreadable => Err(UpdateError::BadEntry),
            Candidate::File(parts) if parts == bin => Ok(i),
            _ => program_index(candidates, bin, i + 1),
        }
    }
}

/// The program in an archive with the given candidates.
pub open spec fn program_of(
    archive: Seq<u8>,
    candidates: Seq<Candidate<Parts>>,
    bin: Parts,
) -> Result<Seq<u8>, UpdateError> {
    match program_index(candidates, bin, 0) {
        Err(error) => Err(error),
        Ok(i) => match zip_contents(archive, i as nat) {
            Some(contents) => Ok(contents),
            None => Err(UpdateError::BadEntry),
        },
    }
}

fn same_part(a: &PathPart<String>, b: &PathPart<String>) -> (r: bool)
    ensures
        r == (a@ == b@),
{
    match (a, b) {
        (PathPart::Prefix(a), PathPart::Prefix(b)) => equal(a.as_str(), b.as_str()),
        (PathPart::RootDir, PathPart::RootDir) => true,
        (PathPart::CurDir, PathPart::CurDir) => true,
        (PathPart::ParentDir, PathPart::ParentDir) => true,
        (PathPart::Normal(a), PathPart::Normal(b)) => equal(a.as_str(), b.as_str()),
        _ => false,
    }
}

fn same_parts(a: &Vec<PathPart<String>>, b: &Vec<PathPart<String>>) -> (r: bool)
    ensures
        r == (part_list(a@) == part_list(b@)),
{
    if a.len() != b.len() {
        assert(part_list(a@).len() != part_list(b@).len());
        return false;
    }
    let mut i: usize = 0;
    while i < a.len()
        invariant
            i <= a.len(),
            a.len() == b.len(),
            forall|j: int| 0 <= j < i ==> (#[trigger] part_list(a@)[j]) == part_list(b@)[j],
        decreases a.len() - i,
    {
        assert(part_list(a@)[i as int] == a@[i as int]@);
        assert(part_list(b@)[i as int] == b@[i as int]@);
        if !same_part(&a[i], &b[i]) {
            return false;
        }
        i += 1;
    }
    assert(part_list(a@) =~= part_list(b@));
    true
}

fn candidates(entries: &Vec<Option<ArchiveEntry>>) -> (r: Vec<Candidate<Vec<PathPart<String>>>>)
    requires
        forall|i: int| 0 <= i < entries@.len() ==> is_enclosed(#[trigger] entries@[i]),
    ensures
        stand_for(entry_list(entries@), candidate_list(r@)),
{
    let mut r: Vec<Candidate<Vec<PathPart<String>>>> = Vec::new();
    let mut i: usize = 0;
    while i < entries.len()
        invariant
            i <= entries.len(),
            r.len() == i,
            forall|j: int| 0 <= j < entries@.len() ==> is_enclosed(#[trigger] entries@[j]),
            forall|j: int|
                0 <= j < i ==> stands_for(
                    #[trigger] entry_list(entries@)[j],
                    candidate_list(r@)[j],
                ),
        decreases entries.len() - i,
    {
        let ghost before = r@;
        assert(is_enclosed(entries@[i as int]));
        let candidate = match &entries[i] {
            None => Candidate::Unreadable,
            Some(entry) => match (&entry.enclosed, entry.is_dir) {
                (Some(path), false) => Candidate::File(components(path.as_str())),
                _ => Candidate::Passed,
            },
        };
        r.push(candidate);
        proof {
            assert(stands_for(entry_list(entries@)[i as int], candidate@));
            assert forall|j: int| 0 <= j < i + 1 implies stands_for(
                #[trigger] entry_list(entries@)[j],
                candidate_list(r@)[j],
            ) by {
                if j < i {
                    assert(candidate_list(r@)[j] == candidate_list(before)[j]);
                }
            }
        }
        i += 1;
    }
    r
}

/// Finds the program among the entries of an archive.
pub fn find_program(
    candidates: &Vec<Candidate<Vec<PathPart<String>>>>,
    bin: &Vec<PathPart<String>>,
) -> (r: Result<usize, UpdateError>)
    ensures
        match program_index(candidate_list(candidates@), part_list(bin@), 0) {
            Ok(i) => r is Ok && r->Ok_0 == i && i < candidates@.len(),
            Err(error) => r is Err && r->Err_0 == error,
        },
{
    let ghost list = candidate_list(candidates@);
    let ghost wanted = part_list(bin@);
    let mut i: usize = 0;
    while i < candidates.len()
        invariant
            i <= candidates.len(),
            list == candidate_list(candidates@),
            wanted == part_list(bin@),
            program_index(list, wanted, i as int) == program_index(list, wanted, 0),
        decreases candidates.len() - i,
    {
        assert(list[i as int] == candidates@[i as int]@);
        match &candidates[i] {
            Candidate::Unreadable => {
                return Err(UpdateError::BadEntry);
            },
            Candidate::Passed => {},
            Candidate::File(parts) => {
                if same_parts(parts, bin) {
                    return Ok(i);
                }
            },
        }
        i += 1;
    }
    Err(UpdateError::NoProgram)
}

/// Extracts the program out of an archive: the first file whose path has the
/// components of `bin`.
pub fn extract_program(archive: &[u8], bin: &str) -> (r: Result<Vec<u8>, UpdateError>)
    ensures
        match zip_entries(archive@) {
            None => r is Err && r->Err_0 == UpdateError::BadArchive,
            Some(entries) => exists|candidates: Seq<Candidate<Parts>>, parts: Parts|
                {
                    &&& #[trigger] stand_for(entries, candidates)
                    &&& is_portable(bin@) ==> parts == portable_parts(bin@)
                    &&& match #[trigger] program_of(archive@, candidates, parts) {
                        Ok(contents) => r is Ok && r->Ok_0@ == contents,
                        Err(error) => r is Err && r->Err_0 == error,
                    }
                },
        },
{
    let entries = match list_archive(archive) {
        Some(entries) => entries,
        None => {
            return Err(UpdateError::BadArchive);
        },
    };
    let list = candidates(&entries);
    let parts = components(bin);
    let found = find_program(&list, &parts);
    let r = match found {
        Err(error) => Err(error),
        Ok(i) => match read_archive(archive, i) {
            Some(data) => Ok(data),
            None => Err(UpdateError::BadEntry),
        },
    };
    assert(match program_of(archive@, candidate_list(list@), part_list(parts@)) {
        Ok(contents) => r is Ok && r->Ok_0@ == contents,
        Err(error) => r is Err && r->Err_0 == error,
    });
    r
}

/// The candidates of an archive whose paths mean the same on every system.
pub open spec fn portable_candidates(entries: Seq<Option<(bool, Seq<char>)>>) -> Seq<
    Candidate<Parts>,
> {
    entries.map_values(
        |e: Option<(bool, Seq<char>)>|
            match e {
                None => Candidate::Unreadable,
                Some((is_dir, name)) => if !is_dir && stays_inside(name) {
                    Candidate::File(portable_parts(name))
                } else {
                    Candidate::Passed
                },
            },
    )
}

/// Where all paths mean the same on every system, what is extracted depends
/// on the archive and the program's name alone.
pub proof fn extraction_is_portable(
    entries: Seq<Option<(bool, Seq<char>)>>,
    candidates: Seq<Candidate<Parts>>,
)
    requires
        stand_for(entries, candidates),
        forall|i: int|
            0 <= i < entries.len() ==> (#[trigger] entries[i] matches Some(entry) ==> is_portable(
                entry.1,
            )),
    ensures
        candidates == portable_candidates(entries),
{
    assert forall|i: int| 0 <= i < entries.len() implies #[trigger] candidates[i]
        == portable_candidates(entries)[i] by {
        assert(stands_for(entries[i], candidates[i]));
    }
    assert(candidates =~= portable_candidates(entries));
}

/// A point in time: seconds since the epoch, and nanoseconds after that.
#[derive(Clone, Copy, Debug, PartialEq, Eq, Structural)]
pub struct Moment {
    pub secs: i64,
    pub nanos: u32,
}

/// A point in time in nanoseconds since the epoch.
pub open spec fn nanos_of(t: Moment) -> int {
    t.secs * 1_000_000_000 + t.nanos
}

/// An update is due: none was ever looked for, or the last one is a day ago.
pub fn check_due(now: Moment, last_check: Option<Moment>) -> (r: bool)
    ensures
        r == match last_check {
            Some(last) => nanos_of(now) >= nanos_of(last) + 24 * HOUR * 1_000_000_000,
            None => true,
        },
{
    match last_check {
        Some(last) => {
            let day: i128 = 86_400_000_000_000;
            let at: i128 = now.secs as i128 * 1_000_000_000 + now.nanos as i128;
            at >= last.secs as i128 * 1_000_000_000 + last.nanos as i128 + day
        },
        None => true,
    }
}

/// How a look for updates went.
#[derive(Clone, Copy, Debug, PartialEq, Eq, Structural)]
pub enum CheckOutcome {
    NotDue,
    Downloaded,
    Failed,
}

/// The seconds to wait before the next look: half a day, a full day after an
/// update, and two hours after a failure.
pub fn next_check(outcome: CheckOutcome) -> (r: u64)
    ensures
        r == match outcome {
            CheckOutcome::NotDue => 12 * HOUR,
            CheckOutcome::Downloaded => 24 * HOUR,
            CheckOutcome::Failed => 2 * HOUR,
        },
{
    match outcome {
        CheckOutcome::NotDue => 12 * HOUR,
        CheckOutcome::Downloaded => 24 * HOUR,
        CheckOutcome::Failed => 2 * HOUR,
    }
}

/// There are releases for four architectures, each under a name of its own.
pub proof fn four_architectures_have_releases(arch: &str, r: Option<String>)
    requires
        call_ensures(normalized_arch, (arch,), r),
    ensures
        arch@ == "x86"@ ==> (r matches Some(name) && name@ == "x86"@),
        arch@ == "x86_64"@ ==> (r matches Some(name) && name@ == "x64"@),
        arch@ == "arm"@ ==> (r matches Some(name) && name@ == "arm"@),
        arch@ == "aarch64"@ ==> (r matches Some(name) && name@ == "arm64"@),
        arch@ != "x86"@ && arch@ != "x86_64"@ && arch@ != "arm"@ && arch@ != "aarch64"@ ==> r is None,
{
    reveal_strlit("x86");
    reveal_strlit("x86_64");
    reveal_strlit("arm");
    reveal_strlit("aarch64");
    assert("x86"@.len() == 3 && "x86_64"@.len() == 6 && "arm"@.len() == 3 && "aarch64"@.len()
        == 7);
    assert("x86"@[0] == 'x' && "arm"@[0] == 'a');
}

proof fn lemma_last_dot(name: Seq<char>)
    ensures
        -1 <= last_dot(name) < name.len(),
        last_dot(name) >= 0 ==> name[last_dot(name)] == '.',
        forall|i: int| last_dot(name) < i < name.len() ==> #[trigger] name[i] != '.',
    decreases name.len(),
{
    if name.len() > 0 && name.last() != '.' {
        let head = name.drop_last();
        lemma_last_dot(head);
        assert forall|i: int| last_dot(name) < i < name.len() implies #[trigger] name[i] != '.' by {
            if i < head.len() {
                assert(head[i] == name[i]);
            }
        }
    }
}

/// `r` is the name without its extension: what stands before its last dot,
/// unless that is at the start or there is none.
pub open spec fn is_stem(r: Seq<char>, name: Seq<char>) -> bool {
    ||| {
        &&& r == name
        &&& forall|i: int| 0 < i < name.len() ==> #[trigger] name[i] != '.'
    }
    ||| {
        &&& 0 < r.len() < name.len()
        &&& r.is_prefix_of(name)
        &&& name[r.len() as int] == '.'
        &&& forall|i: int| r.len() < i < name.len() ==> #[trigger] name[i] != '.'
    }
}

proof fn lemma_stem(name: Seq<char>)
    ensures
        is_stem(stem(name), name),
{
    lemma_last_dot(name);
}

/// The stem of a path is that of the name that it ends with. A path that does
/// not end with a name has none.
pub proof fn stems_leave_out_the_extension(parts: &Vec<PathPart<String>>, r: Option<String>)
    requires
        call_ensures(file_stem, (parts,), r),
    ensures
        r is Some <==> parts@.len() > 0 && parts@.last() is Normal,
        r matches Some(stem) ==> (parts@.last() matches PathPart::Normal(name) && is_stem(
            stem@,
            name@,
        )),
{
    if parts@.len() > 0 {
        let last = parts@.len() - 1;
        assert(part_list(parts@)[last] == parts@[last]@);
        assert(part_list(parts@).last() == parts@.last()@);
        if let PathPart::Normal(name) = parts@.last() {
            lemma_stem(name@);
        }
    }
}

proof fn lemma_parts_end(dir: Seq<char>, name: Seq<char>)
    requires
        no_slash(name),
    ensures
        path_parts(dir + seq!['/'] + name) == path_parts(dir).push(name),
    decreases dir.len(),
{
    let s = dir + seq!['/'] + name;
    let at = first_slash(dir);
    lemma_slash_in(dir, name);
    if at >= dir.len() {
        assert(s.take(at) =~= dir);
        assert(s.skip(at + 1) =~= name);
        lemma_no_slash(name);
        assert(path_parts(name) == seq![name]);
        assert(path_parts(s) =~= path_parts(dir).push(name));
    } else {
        let rest = dir.skip(at + 1);
        assert(s.take(at) =~= dir.take(at));
        assert(s.skip(at + 1) =~= rest + seq!['/'] + name);
        lemma_parts_end(rest, name);
        assert(path_parts(s) =~= path_parts(dir).push(name));
    }
}

proof fn lemma_no_slash(s: Seq<char>)
    requires
        no_slash(s),
    ensures
        first_slash(s) == s.len(),
    decreases s.len(),
{
    if s.len() > 0 {
        assert(s[0] != '/');
        let rest = s.drop_first();
        assert forall|i: int| 0 <= i < rest.len() implies #[trigger] rest[i] != '/' by {
            assert(rest[i] == s[i + 1]);
        }
        lemma_no_slash(rest);
    }
}

proof fn lemma_slash_in(dir: Seq<char>, name: Seq<char>)
    ensures
        0 <= first_slash(dir) <= dir.len(),
        first_slash(dir + seq!['/'] + name) == first_slash(dir),
    decreases dir.len(),
{
    let s = dir + seq!['/'] + name;
    if dir.len() == 0 {
        assert(s[0] == '/');
    } else if dir[0] != '/' {
        assert(s.drop_first() =~= dir.drop_first() + seq!['/'] + name);
        lemma_slash_in(dir.drop_first(), name);
    }
}

/// The program at a path is named like the file that the path leads to,
/// without its extension.
pub proof fn programs_are_named_like_their_file(
    path: &str,
    r: Option<String>,
    dir: Seq<char>,
    name: Seq<char>,
)
    requires
        call_ensures(bin_name, (path,), r),
        is_portable(path@),
        path@ == dir + seq!['/'] + name || path@ == name,
        no_slash(name),
        name.len() > 0,
        name != "."@,
        name != ".."@,
    ensures
        r matches Some(stem) && is_stem(stem@, name),
{
    lemma_parts_end(dir, name);
    lemma_no_slash(name);
    let parts = path_parts(path@);
    let n = parts.len() as int;
    assert(parts[n - 1] == name);
    let all = portable_parts(path@);
    assert(all.last() == PathPart::Normal(name));
    lemma_stem(name);
}

/// The archive of a release is named after program, system, architecture and
/// suffix, in this order.
pub proof fn archives_are_named_after_their_contents(
    bin: &str,
    os: &str,
    arch: &str,
    suffix: &str,
    r: String,
)
    requires
        call_ensures(asset_name, (bin, os, arch, suffix), r),
    ensures
        r@ == bin@ + "-"@ + os@ + "-"@ + arch@ + suffix@ + ".zip"@,
{
}

/// A release is below its repository, and its files are below it.
pub proof fn releases_are_below_their_repository(
    owner: &str,
    repo: &str,
    tag: &str,
    r: Option<String>,
    release: &str,
    name: &str,
    file: Option<String>,
)
    requires
        call_ensures(release_url, (owner, repo, tag), r),
        call_ensures(file_url, (release, name), file),
    ensures
        ({
            let path = owner@ + "/"@ + repo@ + "/releases/download/"@ + tag@ + "/"@;
            &&& r is Some <==> url_joined("https://github.com"@, path) is Some
            &&& r matches Some(url) ==> url_joined("https://github.com"@, path) == Some(url@)
        }),
        file is Some <==> url_joined(release@, name@) is Some,
        file matches Some(url) ==> url_joined(release@, name@) == Some(url@),
{
}

/// The line starts with the name, and white space follows it.
pub open spec fn is_line_of(line: Seq<char>, name: Seq<char>) -> bool {
    &&& name.len() < line.len()
    &&& name.is_prefix_of(line)
    &&& is_space(line[name.len() as int])
    &&& forall|i: int| 0 <= i < name.len() ==> !is_space(#[trigger] name[i])
}

/// Space, tab, line feed, form feed or carriage return.
pub open spec fn is_space(c: char) -> bool {
    c == ' ' || c == '\t' || c == '\n' || c == '\x0C' || c == '\r'
}

proof fn lemma_first_space(line: Seq<char>)
    ensures
        0 <= first_space(line) <= line.len(),
        first_space(line) < line.len() ==> is_space(line[first_space(line)]),
        forall|i: int| 0 <= i < first_space(line) ==> !is_space(#[trigger] line[i]),
    decreases line.len(),
{
    if line.len() > 0 && !ascii_space(line[0]) {
        let rest = line.drop_first();
        lemma_first_space(rest);
        assert forall|i: int| 0 <= i < first_space(line) implies !is_space(#[trigger] line[i]) by {
            if i > 0 {
                assert(rest[i - 1] == line[i]);
            }
        }
    }
}

proof fn lemma_line_of(line: Seq<char>, name: Seq<char>)
    ensures
        value_for(line, name) is Some <==> is_line_of(line, name),
        is_line_of(line, name) ==> value_for(line, name) == Some(
            line.skip((name.len() + 1) as int),
        ),
{
    lemma_first_space(line);
    let at = first_space(line);
    if is_line_of(line, name) {
        if at < name.len() {
            assert(name[at] == line[at]);
        }
        if name.len() < at {
            assert(!is_space(line[name.len() as int]));
        }
        assert(line.take(at) =~= name);
    }
    if value_for(line, name) is Some {
        assert forall|i: int| 0 <= i < name.len() implies name[i] == line[i] && !is_space(
            #[trigger] name[i],
        ) by {
            assert(line.take(at)[i] == line[i]);
        }
    }
}

proof fn lemma_find_value(lines: Seq<Seq<char>>, name: Seq<char>, i: int)
    ensures
        0 <= i < lines.len() && is_line_of(lines[i], name) && (forall|k: int|
            0 <= k < i ==> !is_line_of(#[trigger] lines[k], name)) ==> find_value(lines, name)
            == Some(lines[i].skip((name.len() + 1) as int)),
        (forall|k: int| 0 <= k < lines.len() ==> !is_line_of(#[trigger] lines[k], name))
            ==> find_value(lines, name) is None,
    decreases lines.len(),
{
    if lines.len() > 0 {
        lemma_line_of(lines[0], name);
        let rest = lines.drop_first();
        lemma_find_value(rest, name, i - 1);
        if 0 < i < lines.len() && is_line_of(lines[i], name) && (forall|k: int|
            0 <= k < i ==> !is_line_of(#[trigger] lines[k], name)) {
            assert(rest[i - 1] == lines[i]);
            assert forall|k: int| 0 <= k < i - 1 implies !is_line_of(#[trigger] rest[k], name) by {
                assert(rest[k] == lines[k + 1]);
            }
        }
        if forall|k: int| 0 <= k < lines.len() ==> !is_line_of(#[trigger] lines[k], name) {
            assert(!is_line_of(lines[0], name));
            assert forall|k: int| 0 <= k < rest.len() implies !is_line_of(
                #[trigger] rest[k],
                name,
            ) by {
                assert(rest[k] == lines[k + 1]);
            }
        }
    }
}

/// The checksums start with the tag. The hash of the archive is what follows
/// its name on the first line after the tag that has it.
pub proof fn checksums_are_found_by_name(
    contents: &str,
    asset: &str,
    r: Result<Release, UpdateError>,
    i: int,
    value: &str,
    hash: Option<[u8; 32]>,
)
    requires
        call_ensures(parse_checksums, (contents, asset), r),
        call_ensures(decode_hash, (value,), hash),
        1 <= i < lines_of(contents@).len(),
        is_line_of(lines_of(contents@)[i], asset@),
        value@ == lines_of(contents@)[i].skip((asset@.len() + 1) as int),
        forall|k: int|
            1 <= k < i ==> !is_line_of(#[trigger] lines_of(contents@)[k], asset@),
    ensures
        hash is Some <==> r is Ok,
        r matches Ok(release) ==> release.git_tag@ == lines_of(contents@)[0]
            && release.asset_hash@ == hash->0@,
        r matches Err(e) ==> e == UpdateError::InvalidHash,
{
    let lines = lines_of(contents@);
    let rest = lines.drop_first();
    assert(rest[i - 1] == lines[i]);
    assert forall|k: int| 0 <= k < i - 1 implies !is_line_of(#[trigger] rest[k], asset@) by {
        assert(rest[k] == lines[k + 1]);
    }
    lemma_find_value(rest, asset@, i - 1);
}

/// Without a line for the archive, or without any, there is no release.
pub proof fn missing_checksums_are_told(
    contents: &str,
    asset: &str,
    r: Result<Release, UpdateError>,
)
    requires
        call_ensures(parse_checksums, (contents, asset), r),
        forall|k: int|
            1 <= k < lines_of(contents@).len() ==> !is_line_of(
                #[trigger] lines_of(contents@)[k],
                asset@,
            ),
    ensures
        lines_of(contents@).len() == 0 ==> (r matches Err(e) && e == UpdateError::NoGitTag),
        lines_of(contents@).len() > 0 ==> (r matches Err(e) && e == UpdateError::NoAsset),
{
    let lines = lines_of(contents@);
    if lines.len() > 0 {
        let rest = lines.drop_first();
        assert forall|k: int| 0 <= k < rest.len() implies !is_line_of(
            #[trigger] rest[k],
            asset@,
        ) by {
            assert(rest[k] == lines[k + 1]);
        }
        lemma_find_value(rest, asset@, 0);
    }
}

proof fn lemma_program_index(list: Seq<Candidate<Parts>>, bin: Parts, from: int, i: int)
    requires
        0 <= from <= i <= list.len(),
        forall|k: int|
            from <= k < i ==> !((#[trigger] list[k]) is Unreadable) && list[k] != Candidate::File(
                bin,
            ),
    ensures
        program_index(list, bin, from) == program_index(list, bin, i),
    decreases i - from,
{
    if from < i {
        assert(!(list[from] is Unreadable) && list[from] != Candidate::File(bin));
        lemma_program_index(list, bin, from + 1, i);
    }
}

/// The candidate is a file with the components of the program.
pub open spec fn is_program(c: Candidate<Vec<PathPart<String>>>, bin: Vec<PathPart<String>>) -> bool {
    c matches Candidate::File(parts) && part_list(parts@) == part_list(bin@)
}

/// The first candidate that is the program is found, unless one before it
/// cannot be read.
pub proof fn first_program_is_found(
    list: &Vec<Candidate<Vec<PathPart<String>>>>,
    bin: &Vec<PathPart<String>>,
    r: Result<usize, UpdateError>,
    i: int,
)
    requires
        call_ensures(find_program, (list, bin), r),
        0 <= i <= list@.len(),
        forall|k: int|
            0 <= k < i ==> !((#[trigger] list@[k]) is Unreadable) && !is_program(list@[k], *bin),
    ensures
        i < list@.len() && is_program(list@[i], *bin) ==> r is Ok && r->Ok_0 == i,
        i < list@.len() && list@[i] is Unreadable ==> (r matches Err(e) && e
            == UpdateError::BadEntry),
        i == list@.len() ==> (r matches Err(e) && e == UpdateError::NoProgram),
{
    let all = candidate_list(list@);
    let wanted = part_list(bin@);
    assert(all.len() == list@.len());
    assert forall|k: int| 0 <= k < i implies !((#[trigger] all[k]) is Unreadable) && all[k]
        != Candidate::File(wanted) by {
        assert(all[k] == list@[k]@);
        assert(!(list@[k] is Unreadable) && !is_program(list@[k], *bin));
    }
    lemma_program_index(all, wanted, 0, i);
    if i < list@.len() {
        assert(all[i] == list@[i]@);
    }
}

/// Out of an archive whose paths mean the same everywhere, the contents of
/// the first file at the path of the program are extracted.
pub proof fn program_is_extracted(
    archive: &[u8],
    bin: &str,
    r: Result<Vec<u8>, UpdateError>,
    entries: Seq<Option<(bool, Seq<char>)>>,
    i: int,
)
    requires
        call_ensures(extract_program, (archive, bin), r),
        zip_entries(archive@) == Some(entries),
        is_portable(bin@),
        stays_inside(bin@),
        0 <= i < entries.len(),
        entries[i] == Some((false, bin@)),
        forall|k: int|
            0 <= k < i ==> (#[trigger] entries[k] matches Some((is_dir, name)) && is_portable(name)
                && (is_dir || portable_parts(name) != portable_parts(bin@))),
    ensures
        zip_contents(archive@, i as nat) matches Some(contents) ==> (r matches Ok(data) && data@
            == contents),
        zip_contents(archive@, i as nat) is None ==> (r matches Err(e) && e
            == UpdateError::BadEntry),
{
    let (candidates, parts) = choose|candidates: Seq<Candidate<Parts>>, parts: Parts|
        {
            &&& #[trigger] stand_for(entries, candidates)
            &&& is_portable(bin@) ==> parts == portable_parts(bin@)
            &&& match #[trigger] program_of(archive@, candidates, parts) {
                Ok(contents) => r is Ok && r->Ok_0@ == contents,
                Err(error) => r is Err && r->Err_0 == error,
            }
        };
    assert forall|k: int| 0 <= k < i implies !((#[trigger] candidates[k]) is Unreadable)
        && candidates[k] != Candidate::File(parts) by {
        assert(stands_for(entries[k], candidates[k]));
    }
    assert(stands_for(entries[i], candidates[i]));
    lemma_program_index(candidates, parts, 0, i);
}

/// What is no archive is refused as such.
pub proof fn only_archives_are_extracted(
    archive: &[u8],
    bin: &str,
    r: Result<Vec<u8>, UpdateError>,
)
    requires
        call_ensures(extract_program, (archive, bin), r),
        zip_entries(archive@) is None,
    ensures
        r matches Err(e) && e == UpdateError::BadArchive,
{
}

/// A look is due at first, and again once a day has passed; then it stays
/// due.
pub proof fn looks_are_due_once_a_day(
    now: Moment,
    last: Moment,
    r: bool,
    later: Moment,
    r2: bool,
    first: bool,
)
    requires
        call_ensures(check_due, (now, Some(last)), r),
        call_ensures(check_due, (later, Some(last)), r2),
        call_ensures(check_due, (now, None::<Moment>), first),
        later.secs > now.secs || (later.secs == now.secs && later.nanos >= now.nanos),
        now.nanos < 1_000_000_000,
        later.nanos < 1_000_000_000,
        last.nanos < 1_000_000_000,
    ensures
        first,
        r <==> now.secs > last.secs + 86_400 || (now.secs == last.secs + 86_400 && now.nanos
            >= last.nanos),
        r ==> r2,
{
}

/// The next look is after half a day, a day or two hours.
pub proof fn next_look_depends_on_the_last(outcome: CheckOutcome, r: u64)
    requires
        call_ensures(next_check, (outcome,), r),
    ensures
        outcome == CheckOutcome::NotDue ==> r == 12 * 60 * 60,
        outcome == CheckOutcome::Downloaded ==> r == 24 * 60 * 60,
        outcome == CheckOutcome::Failed ==> r == 2 * 60 * 60,
{
}

} // verus!
