//! The files that an assets server offers.
use crate::text::{append, chars_of, copy_range, equal, string_of};
use vstd::prelude::*;

verus! {

/// The place of the first slash, or the length.
pub open spec fn first_slash(s: Seq<char>) -> int
    decreases s.len(),
{
    if s.len() == 0 || s[0] == '/' {
        0
    } else {
        1 + first_slash(s.drop_first())
    }
}

proof fn lemma_first_slash(s: Seq<char>)
    ensures
        0 <= first_slash(s) <= s.len(),
    decreases s.len(),
{
    if s.len() > 0 && s[0] != '/' {
        lemma_first_slash(s.drop_first());
    }
}

/// The parts of a path between its slashes.
pub open spec fn path_parts(s: Seq<char>) -> Seq<Seq<char>>
    decreases s.len(),
    via path_parts_decreases
{
    let at = first_slash(s);
    if at >= s.len() {
        seq![s]
    } else {
        seq![s.take(at)] + path_parts(s.skip(at + 1))
    }
}

#[via_fn]
proof fn path_parts_decreases(s: Seq<char>) {
    lemma_first_slash(s);
}

/// Parts as contracts speak of them.
pub open spec fn part_texts(list: Seq<String>) -> Seq<Seq<char>> {
    list.map_values(|s: String| s@)
}

/// Splits a path at its slashes.
pub fn split_path(path: &str) -> (r: Vec<String>)
    ensures
        part_texts(r@) == path_parts(path@),
{
    let s = chars_of(path);
    let mut r: Vec<String> = Vec::new();
    let mut start: usize = 0;
    let mut i: usize = 0;
    assert(s@.skip(0) =~= s@);
    assert(part_texts(r@) + path_parts(s@.skip(0)) =~= path_parts(s@));
    while i < s.len()
        invariant
            start <= i <= s.len(),
            s@ == path@,
            first_slash(s@.skip(start as int)) == i - start + first_slash(s@.skip(i as int)),
            part_texts(r@) + path_parts(s@.skip(start as int)) == path_parts(s@),
        decreases s.len() - i,
    {
        assert(s@.skip(i as int).drop_first() =~= s@.skip(i + 1));
        if s[i] == '/' {
            let ghost rest = s@.skip(start as int);
            let ghost before = part_texts(r@);
            let text = string_of(&copy_range(&s, start, i));
            assert(text@ =~= rest.take(i - start));
            assert(rest.skip(i - start + 1) =~= s@.skip(i + 1));
            r.push(text);
            assert(part_texts(r@) =~= before.push(text@));
            assert(part_texts(r@) + path_parts(s@.skip(i + 1)) =~= before + path_parts(rest));
            start = i + 1;
        }
        i += 1;
    }
    let ghost rest = s@.skip(start as int);
    let ghost before = part_texts(r@);
    let text = string_of(&copy_range(&s, start, s.len()));
    assert(text@ =~= rest);
    r.push(text);
    assert(part_texts(r@) =~= before.push(text@));
    assert(path_parts(rest) =~= seq![rest]);
    r
}

/// What a part of a path stands for.
#[derive(Clone, Copy, Debug, PartialEq, Eq, Structural)]
pub enum Component {
    /// Nothing: it is empty, or a dot after the first part.
    Skipped,
    /// The root, where a path starts with a slash.
    RootDir,
    /// The current directory.
    CurDir,
    /// The directory above.
    ParentDir,
    /// A file or a directory.
    Normal,
}

/// What the `i`th part of a path stands for.
pub open spec fn component(parts: Seq<Seq<char>>, i: int) -> Component {
    let part = parts[i];
    if part.len() == 0 {
        if i == 0 && parts.len() > 1 {
            Component::RootDir
        } else {
            Component::Skipped
        }
    } else if part == "."@ {
        if i == 0 {
            Component::CurDir
        } else {
            Component::Skipped
        }
    } else if part == ".."@ {
        Component::ParentDir
    } else {
        Component::Normal
    }
}

/// A component of a path.
#[derive(Clone, Debug, PartialEq, Eq)]
pub enum PathPart<T> {
    /// The drive or share that a path starts with on some systems.
    Prefix(T),
    /// The root.
    RootDir,
    /// The current directory.
    CurDir,
    /// The directory above.
    ParentDir,
    /// A file or a directory.
    Normal(T),
}

impl View for PathPart<String> {
    type V = PathPart<Seq<char>>;

    open spec fn view(&self) -> PathPart<Seq<char>> {
        match self {
            PathPart::Prefix(text) => PathPart::Prefix(text@),
            PathPart::RootDir => PathPart::RootDir,
            PathPart::CurDir => PathPart::CurDir,
            PathPart::ParentDir => PathPart::ParentDir,
            PathPart::Normal(text) => PathPart::Normal(text@),
        }
    }
}

/// Components as contracts speak of them.
pub open spec fn part_list(parts: Seq<PathPart<String>>) -> Seq<PathPart<Seq<char>>> {
    parts.map_values(|p: PathPart<String>| p@)
}

/// The path means the same on every system: it has no backslash, no colon and
/// no two slashes at its start.
pub open spec fn is_portable(path: Seq<char>) -> bool {
    &&& !path.contains('\\')
    &&& !path.contains(':')
    &&& !(path.len() >= 2 && path[0] == '/' && path[1] == '/')
}

/// What the first `n` parts of a path stand for.
pub open spec fn first_components(parts: Seq<Seq<char>>, n: int) -> Seq<PathPart<Seq<char>>>
    decreases n,
{
    if n <= 0 {
        seq![]
    } else {
        let head = first_components(parts, n - 1);
        match component(parts, n - 1) {
            Component::Skipped => head,
            Component::RootDir => head.push(PathPart::RootDir),
            Component::CurDir => head.push(PathPart::CurDir),
            Component::ParentDir => head.push(PathPart::ParentDir),
            Component::Normal => head.push(PathPart::Normal(parts[n - 1])),
        }
    }
}

/// The components of a path that means the same on every system.
pub open spec fn portable_parts(path: Seq<char>) -> Seq<PathPart<Seq<char>>> {
    first_components(path_parts(path), path_parts(path).len() as int)
}

/// `std::path::Path::components` takes a path apart. Empty parts are passed
/// over, as are dots that are not at the start. How backslashes, colons and
/// two slashes at the start are read depends on the system; of paths with any
/// of these nothing is claimed.
#[verifier::external_body]
pub(crate) fn components(path: &str) -> (r: Vec<PathPart<String>>)
    ensures
        is_portable(path@) ==> part_list(r@) == portable_parts(path@),
{
    let parts = std::path::Path::new(path).components();
    parts.map(
        |part|
            match part {
                std::path::Component::Prefix(prefix) => PathPart::Prefix(
                    prefix.as_os_str().to_string_lossy().into_owned(),
                ),
                std::path::Component::RootDir => PathPart::RootDir,
                std::path::Component::CurDir => PathPart::CurDir,
                std::path::Component::ParentDir => PathPart::ParentDir,
                std::path::Component::Normal(name) => PathPart::Normal(
                    name.to_string_lossy().into_owned(),
                ),
            },
    ).collect()
}

/// The components lead to something below the directory that they are
/// relative to: there is no root and nothing that leads upwards.
pub open spec fn all_below(parts: Seq<PathPart<Seq<char>>>, current_allowed: bool) -> bool {
    forall|i: int|
        0 <= i < parts.len() ==> (#[trigger] parts[i] is Normal || (current_allowed
            && parts[i] is CurDir))
}

/// Tells whether components lead to something below the directory that they
/// are relative to.
pub fn is_below(parts: &Vec<PathPart<String>>, current_allowed: bool) -> (r: bool)
    ensures
        r == all_below(part_list(parts@), current_allowed),
{
    let ghost list = part_list(parts@);
    let mut i: usize = 0;
    while i < parts.len()
        invariant
            i <= parts.len(),
            list == part_list(parts@),
            forall|j: int|
                0 <= j < i ==> (#[trigger] list[j] is Normal || (current_allowed
                    && list[j] is CurDir)),
        decreases parts.len() - i,
    {
        assert(list[i as int] == parts@[i as int]@);
        let fine = match &parts[i] {
            PathPart::Normal(_) => true,
            PathPart::CurDir => current_allowed,
            PathPart::Prefix(_) | PathPart::RootDir | PathPart::ParentDir => false,
        };
        if !fine {
            return false;
        }
        i += 1;
    }
    true
}

/// Accepts a directory of assets: relative to the storage, not empty, and
/// without `.` at its start or `..`.
pub fn relative_directory(value: &str) -> (r: Result<String, String>)
    ensures
        match r {
            Ok(path) => value@.len() > 0 && path@ == value@,
            Err(message) => message@ == "expected a relative assets directory without '..'"@,
        },
        exists|parts: Seq<PathPart<Seq<char>>>|
            {
                &&& is_portable(value@) ==> parts == portable_parts(value@)
                &&& r is Ok <==> value@.len() > 0 && #[trigger] all_below(parts, false)
            },
{
    let chars = chars_of(value);
    let parts = components(value);
    let below = is_below(&parts, false);
    assert(below == all_below(part_list(parts@), false));
    if chars.len() == 0 || !below {
        return Err("expected a relative assets directory without '..'".to_owned());
    }
    Ok(value.to_owned())
}

/// Accepts a directory of configuration: relative to the storage, without
/// `..`.
pub fn relative_config_dir(value: &str) -> (r: Result<String, String>)
    ensures
        match r {
            Ok(path) => path@ == value@,
            Err(message) => message@
                == "config directory must be relative to storage without '..'"@,
        },
        exists|parts: Seq<PathPart<Seq<char>>>|
            {
                &&& is_portable(value@) ==> parts == portable_parts(value@)
                &&& r is Ok <==> #[trigger] all_below(parts, true)
            },
{
    let parts = components(value);
    let below = is_below(&parts, true);
    assert(below == all_below(part_list(parts@), true));
    if below {
        Ok(value.to_owned())
    } else {
        Err("config directory must be relative to storage without '..'".to_owned())
    }
}

/// What stands in a directory under a name.
#[derive(Clone, Copy, Debug, PartialEq, Eq, Structural)]
pub enum EntryKind {
    Missing,
    File,
    Directory,
}

/// A look for a directory, level by level.
pub struct DirectoryWalk {
    pub parts: Vec<String>,
    pub at: usize,
    pub failed: bool,
}

/// The directory that was reached after `n` levels.
pub open spec fn walked(parts: Seq<Seq<char>>, n: int) -> Seq<char>
    decreases n,
{
    if n <= 0 {
        "."@
    } else {
        walked(parts, n - 1) + "/"@ + parts[n - 1]
    }
}

impl DirectoryWalk {
    /// The walk is somewhere on its way.
    pub open spec fn valid(self) -> bool {
        self.at <= self.parts@.len()
    }

    /// Starts to look for a directory.
    pub fn new(path: &str) -> (r: Self)
        ensures
            part_texts(r.parts@) == path_parts(path@),
            r.at == 0,
            !r.failed,
            r.valid(),
    {
        DirectoryWalk { parts: split_path(path), at: 0, failed: false }
    }

    /// The directory to look into next, and the name to look for there.
    pub fn next(&self) -> (r: Option<(String, String)>)
        requires
            self.valid(),
        ensures
            if self.failed || self.at == self.parts@.len() {
                r is None
            } else {
                r matches Some((dir, name)) && dir@ == walked(
                    part_texts(self.parts@),
                    self.at as int,
                ) && name@ == self.parts@[self.at as int]@
            },
    {
        if self.failed || self.at == self.parts.len() {
            return None;
        }
        let mut dir = ".".to_owned();
        let mut i: usize = 0;
        while i < self.at
            invariant
                i <= self.at <= self.parts@.len(),
                dir@ == walked(part_texts(self.parts@), i as int),
            decreases self.at - i,
        {
            assert(part_texts(self.parts@)[i as int] == self.parts@[i as int]@);
            append(&mut dir, "/");
            append(&mut dir, self.parts[i].as_str());
            i += 1;
        }
        Some((dir, self.parts[self.at].clone()))
    }

    /// Takes note of what stands there. Only directories lead on.
    pub fn found(&mut self, kind: EntryKind)
        requires
            old(self).valid(),
            old(self).at < old(self).parts@.len(),
            !old(self).failed,
        ensures
            final(self).parts == old(self).parts,
            final(self).failed == !(kind is Directory),
            final(self).at == if kind is Directory {
                old(self).at + 1
            } else {
                old(self).at as int
            },
            final(self).valid(),
    {
        let levels: usize = self.parts.len();
        if let EntryKind::Directory = kind {
            assert(self.at < levels);
            self.at += 1;
        } else {
            self.failed = true;
        }
    }

    /// Whether the directory is there, once the walk has ended.
    pub fn is_there(&self) -> (r: bool)
        requires
            self.valid(),
        ensures
            r == (!self.failed && self.at == self.parts@.len()),
    {
        !self.failed && self.at == self.parts.len()
    }
}

/// `s` ends with `end`.
pub open spec fn ends_with(s: Seq<char>, end: Seq<char>) -> bool {
    end.len() <= s.len() && s.skip(s.len() - end.len()) == end
}

/// `s` begins with `start`.
pub open spec fn begins_with(s: Seq<char>, start: Seq<char>) -> bool {
    start.len() <= s.len() && s.take(start.len() as int) == start
}

/// A name without the given ending, if it has it.
pub fn strip_suffix(name: &str, end: &str) -> (r: Option<String>)
    ensures
        match r {
            Some(stem) => ends_with(name@, end@) && stem@ == name@.take(
                name@.len() - end@.len(),
            ),
            None => !ends_with(name@, end@),
        },
{
    let s = chars_of(name);
    let e = chars_of(end);
    if e.len() > s.len() {
        return None;
    }
    let at: usize = s.len() - e.len();
    let tail = string_of(&copy_range(&s, at, s.len()));
    assert(tail@ =~= name@.skip(at as int));
    if equal(tail.as_str(), end) {
        let stem = string_of(&copy_range(&s, 0, at));
        assert(stem@ =~= name@.take(at as int));
        Some(stem)
    } else {
        None
    }
}

fn has_prefix(name: &str, start: &str) -> (r: bool)
    ensures
        r == begins_with(name@, start@),
{
    let s = chars_of(name);
    let p = chars_of(start);
    if p.len() > s.len() {
        return false;
    }
    let head = string_of(&copy_range(&s, 0, p.len()));
    assert(head@ =~= name@.take(p.len() as int));
    equal(head.as_str(), start)
}

/// The map that a directory entry holds, if it is a file with the ending of
/// maps there.
pub fn map_name(entry: &str, kind: EntryKind, extension: &str) -> (r: Option<String>)
    ensures
        match r {
            Some(name) => kind is File && ends_with(entry@, extension@) && name@ == entry@.take(
                entry@.len() - extension@.len(),
            ),
            None => !(kind is File && ends_with(entry@, extension@)),
        },
{
    if let EntryKind::File = kind {
        strip_suffix(entry, extension)
    } else {
        None
    }
}

/// The module that an asset is: its path without the ending. Modules are
/// offered under the hash of their contents.
pub fn module_stem(dir: &str, path: &str) -> (r: Option<String>)
    ensures
        match r {
            Some(stem) => begins_with(dir@, "mods/"@) && ends_with(path@, ".wasm"@) && stem@
                == path@.take(path@.len() - ".wasm"@.len()),
            None => !(begins_with(dir@, "mods/"@) && ends_with(path@, ".wasm"@)),
        },
{
    if has_prefix(dir, "mods/") {
        strip_suffix(path, ".wasm")
    } else {
        None
    }
}

/// The path under which a module is offered.
pub fn module_file(dir: &str, name: &str, hash: &str) -> (r: String)
    ensures
        r@ == dir@ + "/"@ + name@ + "_"@ + hash@ + ".wasm"@,
{
    let mut r = dir.to_owned();
    append(&mut r, "/");
    append(&mut r, name);
    append(&mut r, "_");
    append(&mut r, hash);
    append(&mut r, ".wasm");
    r
}

/// The path under which another asset is offered.
pub fn asset_path(dir: &str, path: &str) -> (r: String)
    ensures
        r@ == dir@ + "/"@ + path@,
{
    let mut r = dir.to_owned();
    append(&mut r, "/");
    append(&mut r, path);
    r
}

/// `a` comes before `b`: at the first difference it has the smaller
/// character, or it is the beginning of `b`.
pub open spec fn text_before(a: Seq<char>, b: Seq<char>) -> bool
    decreases a.len(),
{
    if b.len() == 0 {
        false
    } else if a.len() == 0 {
        true
    } else if a[0] != b[0] {
        a[0] < b[0]
    } else {
        text_before(a.drop_first(), b.drop_first())
    }
}

fn comes_before(first: &str, second: &str) -> (r: bool)
    ensures
        r == text_before(first@, second@),
{
    let a = chars_of(first);
    let b = chars_of(second);
    let mut i: usize = 0;
    assert(a@.skip(0) =~= a@);
    assert(b@.skip(0) =~= b@);
    while i < a.len() && i < b.len()
        invariant
            i <= a.len(),
            i <= b.len(),
            a@ == first@,
            b@ == second@,
            text_before(a@, b@) == text_before(a@.skip(i as int), b@.skip(i as int)),
        decreases a.len() - i,
    {
        assert(a@.skip(i as int).drop_first() =~= a@.skip(i + 1));
        assert(b@.skip(i as int).drop_first() =~= b@.skip(i + 1));
        if a[i] != b[i] {
            return a[i] < b[i];
        }
        i += 1;
    }
    i < b.len()
}

proof fn lemma_before_is_total(a: Seq<char>, b: Seq<char>)
    ensures
        a == b || text_before(a, b) || text_before(b, a),
        !(text_before(a, b) && text_before(b, a)),
        a == b ==> !text_before(a, b),
    decreases a.len(),
{
    if a.len() == 0 {
        if b.len() == 0 {
            assert(a =~= b);
        }
    } else if b.len() > 0 && a[0] == b[0] {
        lemma_before_is_total(a.drop_first(), b.drop_first());
        if a.drop_first() == b.drop_first() {
            assert(a =~= seq![a[0]] + a.drop_first());
            assert(b =~= seq![b[0]] + b.drop_first());
        }
    }
}

proof fn lemma_before_is_transitive(a: Seq<char>, b: Seq<char>, c: Seq<char>)
    requires
        text_before(a, b),
        text_before(b, c),
    ensures
        text_before(a, c),
    decreases a.len(),
{
    if a.len() > 0 && a[0] == b[0] && b[0] == c[0] {
        lemma_before_is_transitive(a.drop_first(), b.drop_first(), c.drop_first());
    }
}

/// The names are in order, and none occurs twice.
pub open spec fn in_order(names: Seq<Seq<char>>) -> bool {
    forall|i: int, j: int|
        0 <= i < j < names.len() ==> text_before(#[trigger] names[i], #[trigger] names[j])
}

/// Adds a name to a list in order, unless it is there already.
pub fn insert_name(names: &mut Vec<String>, name: &str)
    requires
        in_order(part_texts(old(names)@)),
    ensures
        in_order(part_texts(final(names)@)),
        forall|t: Seq<char>| #[trigger]
            part_texts(final(names)@).contains(t) <==> part_texts(old(names)@).contains(t) || t
                == name@,
{
    let ghost before = part_texts(names@);
    let mut i: usize = 0;
    while i < names.len() && comes_before(names[i].as_str(), name)
        invariant
            i <= names.len(),
            before == part_texts(names@),
            names@ == old(names)@,
            in_order(before),
            forall|j: int| 0 <= j < i ==> text_before(#[trigger] before[j], name@),
        decreases names.len() - i,
    {
        assert(before[i as int] == names@[i as int]@);
        i += 1;
    }
    if i < names.len() && equal(names[i].as_str(), name) {
        assert(before[i as int] == name@);
        assert forall|t: Seq<char>| #[trigger] before.contains(t) <==> before.contains(t) || t
            == name@ by {
            if t == name@ {
                assert(before[i as int] == t);
            }
        }
        return;
    }
    names.insert(i, name.to_owned());
    proof {
        let after = part_texts(names@);
        assert(after =~= before.insert(i as int, name@));
        if i < before.len() {
            assert(before[i as int] == old(names)@[i as int]@);
            lemma_before_is_total(before[i as int], name@);
        }
        assert forall|j: int| i <= j < before.len() implies text_before(
            name@,
            #[trigger] before[j],
        ) by {
            if j > i {
                assert(text_before(before[i as int], before[j]));
                lemma_before_is_transitive(name@, before[i as int], before[j]);
            }
        }
        assert forall|a: int, b: int| 0 <= a < b < after.len() implies text_before(
            #[trigger] after[a],
            #[trigger] after[b],
        ) by {
            let x = if a < i {
                a
            } else {
                a - 1
            };
            let y = if b < i {
                b
            } else {
                b - 1
            };
            if a == i {
                assert(after[b] == before[b - 1]);
            } else if b == i {
                assert(after[a] == before[a]);
            } else {
                assert(after[a] == before[x]);
                assert(after[b] == before[y]);
            }
        }
        assert forall|t: Seq<char>| #[trigger] after.contains(t) <==> before.contains(t) || t
            == name@ by {
            if after.contains(t) {
                let k = choose|k: int| 0 <= k < after.len() && after[k] == t;
                if k < i {
                    assert(before[k] == t);
                } else if k > i {
                    assert(before[k - 1] == t);
                }
            }
            if before.contains(t) {
                let k = choose|k: int| 0 <= k < before.len() && before[k] == t;
                if k < i {
                    assert(after[k] == t);
                } else {
                    assert(after[k + 1] == t);
                }
            }
            if t == name@ {
                assert(after[i as int] == t);
            }
        }
    }
}

proof fn lemma_components(parts: Seq<Seq<char>>, n: int, i: int)
    requires
        0 <= i < n <= parts.len(),
    ensures
        component(parts, i) is ParentDir ==> exists|j: int|
            0 <= j < first_components(parts, n).len() && (#[trigger] first_components(
                parts,
                n,
            )[j]) is ParentDir,
        component(parts, i) is RootDir ==> exists|j: int|
            0 <= j < first_components(parts, n).len() && (#[trigger] first_components(
                parts,
                n,
            )[j]) is RootDir,
    decreases n,
{
    let all = first_components(parts, n);
    let head = first_components(parts, n - 1);
    if i == n - 1 {
        if component(parts, i) is ParentDir || component(parts, i) is RootDir {
            assert(all[all.len() - 1] is ParentDir || all[all.len() - 1] is RootDir);
        }
    } else {
        lemma_components(parts, n - 1, i);
        assert forall|j: int| 0 <= j < head.len() implies #[trigger] head[j] == all[j] by {
        }
    }
}

/// A directory that is accepted has no part that leads upwards, and does not
/// start at the root.
pub proof fn accepted_directory_never_leads_upwards(path: Seq<char>, i: int)
    requires
        all_below(portable_parts(path), true),
        0 <= i < path_parts(path).len(),
    ensures
        path_parts(path)[i] != ".."@,
        !(path.len() > 0 && path[0] == '/'),
{
    reveal_strlit("..");
    reveal_strlit(".");
    let parts = path_parts(path);
    lemma_components(parts, parts.len() as int, i);
    lemma_components(parts, parts.len() as int, 0);
    assert(".."@.len() == 2 && "."@.len() == 1);
    if path.len() > 0 && path[0] == '/' {
        lemma_first_slash(path);
        assert(parts[0] =~= seq![]);
        assert(path_parts(path.skip(1)).len() > 0);
    }
}

/// Parts with slashes between them.
pub open spec fn with_slashes(parts: Seq<Seq<char>>) -> Seq<char>
    decreases parts.len(),
{
    if parts.len() == 0 {
        seq![]
    } else if parts.len() == 1 {
        parts[0]
    } else {
        parts[0] + seq!['/'] + with_slashes(parts.drop_first())
    }
}

/// There is no slash in the text.
pub open spec fn no_slash(s: Seq<char>) -> bool {
    forall|i: int| 0 <= i < s.len() ==> #[trigger] s[i] != '/'
}

proof fn lemma_slash(s: Seq<char>)
    ensures
        0 <= first_slash(s) <= s.len(),
        no_slash(s.take(first_slash(s))),
        first_slash(s) < s.len() ==> s[first_slash(s)] == '/',
    decreases s.len(),
{
    if s.len() > 0 && s[0] != '/' {
        let rest = s.drop_first();
        lemma_slash(rest);
        let at = first_slash(s);
        assert forall|i: int| 0 <= i < at implies #[trigger] s.take(at)[i] != '/' by {
            if i > 0 {
                assert(rest.take(at - 1)[i - 1] == s[i]);
            }
        }
    }
}

proof fn lemma_path_parts(s: Seq<char>)
    ensures
        path_parts(s).len() > 0,
        with_slashes(path_parts(s)) == s,
        forall|i: int| 0 <= i < path_parts(s).len() ==> no_slash(#[trigger] path_parts(s)[i]),
    decreases s.len(),
{
    lemma_slash(s);
    let at = first_slash(s);
    let parts = path_parts(s);
    if at < s.len() {
        let rest = path_parts(s.skip(at + 1));
        lemma_path_parts(s.skip(at + 1));
        assert(parts.drop_first() =~= rest);
        assert(s =~= s.take(at) + seq!['/'] + s.skip(at + 1));
        assert forall|i: int| 0 <= i < parts.len() implies no_slash(#[trigger] parts[i]) by {
            if i > 0 {
                assert(parts[i] == rest[i - 1]);
            }
        }
    } else {
        assert(s.take(at) =~= s);
        assert(parts =~= seq![s]);
    }
}

/// A path is split at every slash, and nothing else of it is lost.
pub proof fn paths_are_split_at_slashes(path: &str, r: Vec<String>, i: int)
    requires
        call_ensures(split_path, (path,), r),
    ensures
        r@.len() > 0,
        with_slashes(part_texts(r@)) == path@,
        0 <= i < r@.len() ==> no_slash(r@[i]@),
{
    lemma_path_parts(path@);
    assert(part_texts(r@).len() == r@.len());
    if 0 <= i < r@.len() {
        assert(part_texts(r@)[i] == r@[i]@);
    }
}

/// A path with these components stays below the directory that it is relative
/// to exactly if each names something, or is the directory itself where that
/// is allowed.
pub proof fn only_names_stay_below(parts: &Vec<PathPart<String>>, current: bool, r: bool)
    requires
        call_ensures(is_below, (parts, current), r),
    ensures
        r <==> forall|i: int|
            0 <= i < parts@.len() ==> ((#[trigger] parts@[i]) is Normal || (current
                && parts@[i] is CurDir)),
{
    let list = part_list(parts@);
    assert forall|i: int| 0 <= i < parts@.len() implies list[i] == (#[trigger] parts@[i])@ by {}
    if r {
        assert forall|i: int| 0 <= i < parts@.len() implies ((#[trigger] parts@[i]) is Normal || (
        current && parts@[i] is CurDir)) by {
            assert(list[i] is Normal || (current && list[i] is CurDir));
        }
    } else if forall|i: int|
        0 <= i < parts@.len() ==> ((#[trigger] parts@[i]) is Normal || (current
            && parts@[i] is CurDir)) {
        assert forall|i: int| 0 <= i < list.len() implies (#[trigger] list[i] is Normal || (
        current && list[i] is CurDir)) by {
            assert(parts@[i] is Normal || (current && parts@[i] is CurDir));
        }
    }
}

proof fn lemma_all_below(parts: Seq<Seq<char>>, n: int, current: bool)
    requires
        0 <= n <= parts.len(),
    ensures
        all_below(first_components(parts, n), current) <==> forall|i: int|
            0 <= i < n ==> {
                let c = #[trigger] component(parts, i);
                c is Skipped || c is Normal || (current && c is CurDir)
            },
    decreases n,
{
    if n > 0 {
        lemma_all_below(parts, n - 1, current);
        let head = first_components(parts, n - 1);
        let all = first_components(parts, n);
        let c = component(parts, n - 1);
        if all_below(all, current) {
            assert forall|i: int| 0 <= i < head.len() implies (#[trigger] head[i] is Normal || (
            current && head[i] is CurDir)) by {
                assert(all[i] == head[i]);
            }
            assert(all_below(head, current));
            if !(c is Skipped) {
                assert(all[all.len() - 1] is Normal || (current && all[all.len() - 1] is CurDir));
            }
        }
        if forall|i: int|
            0 <= i < n ==> {
                let c = #[trigger] component(parts, i);
                c is Skipped || c is Normal || (current && c is CurDir)
            } {
            assert(all_below(head, current));
            assert(c is Skipped || c is Normal || (current && c is CurDir));
            assert forall|i: int| 0 <= i < all.len() implies (#[trigger] all[i] is Normal || (
            current && all[i] is CurDir)) by {
                if i < head.len() {
                    assert(all[i] == head[i]);
                }
            }
        }
    }
}

proof fn lemma_starts_at_root(path: Seq<char>)
    ensures
        path_parts(path).len() > 0,
        path.len() > 0 && path[0] == '/' <==> path_parts(path).len() > 1
            && path_parts(path)[0].len() == 0,
{
    lemma_path_parts(path);
    lemma_slash(path);
    let at = first_slash(path);
    if path.len() > 0 && path[0] == '/' {
        lemma_path_parts(path.skip(1));
    }
}

/// The path leads nowhere but below the directory that it is relative to.
pub open spec fn leads_below(path: Seq<char>) -> bool {
    &&& !(path.len() > 0 && path[0] == '/')
    &&& forall|i: int| 0 <= i < path_parts(path).len() ==> #[trigger] path_parts(path)[i] != ".."@
}

/// A directory of configuration is accepted exactly if it leads below the
/// storage. One of assets must also have a name, and not start with a dot of
/// its own.
pub proof fn directories_below_the_storage_are_accepted(
    value: &str,
    assets: Result<String, String>,
    config: Result<String, String>,
)
    requires
        call_ensures(relative_directory, (value,), assets),
        call_ensures(relative_config_dir, (value,), config),
        is_portable(value@),
    ensures
        config is Ok <==> leads_below(value@),
        assets is Ok <==> leads_below(value@) && value@.len() > 0 && path_parts(value@)[0] != "."@,
        assets matches Ok(path) ==> path@ == value@,
        config matches Ok(path) ==> path@ == value@,
{
    reveal_strlit(".");
    reveal_strlit("..");
    let parts = path_parts(value@);
    let n = parts.len() as int;
    lemma_starts_at_root(value@);
    lemma_all_below(parts, n, true);
    lemma_all_below(parts, n, false);
    if leads_below(value@) {
        assert forall|i: int| 0 <= i < n implies {
            let c = #[trigger] component(parts, i);
            c is Skipped || c is Normal || c is CurDir
        } by {
            assert(parts[i] != ".."@);
        }
        if parts[0] != "."@ {
            assert forall|i: int| 0 <= i < n implies {
                let c = #[trigger] component(parts, i);
                c is Skipped || c is Normal
            } by {
                assert(parts[i] != ".."@);
            }
        } else {
            assert(component(parts, 0) is CurDir);
        }
    } else {
        assert(!all_below(first_components(parts, n), true)) by {
            if value@.len() > 0 && value@[0] == '/' {
                assert(component(parts, 0) is RootDir);
            } else {
                let i = choose|i: int| 0 <= i < n && #[trigger] parts[i] == ".."@;
                assert(component(parts, i) is ParentDir);
            }
        }
        assert(!all_below(first_components(parts, n), false)) by {
            if value@.len() > 0 && value@[0] == '/' {
                assert(component(parts, 0) is RootDir);
            } else {
                let i = choose|i: int| 0 <= i < n && #[trigger] parts[i] == ".."@;
                assert(component(parts, i) is ParentDir);
            }
        }
    }
}

/// A walk starts at the current directory, with the first part of the path.
pub proof fn walks_start_at_the_current_directory(
    path: &str,
    w: DirectoryWalk,
    first: Option<(String, String)>,
    parts: Vec<String>,
    there: bool,
)
    requires
        call_ensures(DirectoryWalk::new, (path,), w),
        call_ensures(DirectoryWalk::next, (&w,), first),
        call_ensures(split_path, (path,), parts),
        call_ensures(DirectoryWalk::is_there, (&w,), there),
    ensures
        !there,
        first matches Some((dir, name)) && dir@ == "."@ && name@ == parts@[0]@,
        w.parts@.len() == parts@.len(),
        forall|i: int| 0 <= i < parts@.len() ==> w.parts@[i]@ == (#[trigger] parts@[i])@,
{
    lemma_path_parts(path@);
    assert(part_texts(w.parts@).len() == w.parts@.len());
    assert(part_texts(parts@).len() == parts@.len());
    assert forall|i: int| 0 <= i < parts@.len() implies w.parts@[i]@ == (
    #[trigger] parts@[i])@ by {
        assert(part_texts(w.parts@)[i] == w.parts@[i]@);
        assert(part_texts(parts@)[i] == parts@[i]@);
    }
    assert(w.parts@[0]@ == parts@[0]@);
}

/// A directory that was found is entered: the next part is looked for below
/// it, and after the last part the walk is there. What is no directory ends
/// the walk.
pub proof fn walks_go_down_into_directories(
    w: &mut DirectoryWalk,
    kind: EntryKind,
    before: Option<(String, String)>,
    after: Option<(String, String)>,
    there: bool,
)
    requires
        old(w).valid(),
        old(w).at < old(w).parts@.len(),
        !old(w).failed,
        call_ensures(DirectoryWalk::next, (&*old(w),), before),
        call_ensures(DirectoryWalk::found, (w, kind), ()),
        call_ensures(DirectoryWalk::next, (&*final(w),), after),
        call_ensures(DirectoryWalk::is_there, (&*final(w),), there),
    ensures
        before is Some,
        !(kind is Directory) ==> after is None && !there,
        kind is Directory && old(w).at + 1 == old(w).parts@.len() ==> after is None && there,
        kind is Directory && old(w).at + 1 < old(w).parts@.len() ==> {
            &&& !there
            &&& before matches Some((dir, name))
            &&& after matches Some((below, next))
            &&& name@ == old(w).parts@[old(w).at as int]@
            &&& below@ == dir@ + "/"@ + name@
            &&& next@ == old(w).parts@[old(w).at + 1]@
        },
{
    let at = old(w).at as int;
    assert(part_texts(old(w).parts@)[at] == old(w).parts@[at]@);
    assert(final(w).at <= final(w).parts@.len());
}

/// What is left of a name is what stands before the ending.
pub proof fn endings_are_taken_off(name: &str, end: &str, r: Option<String>, stem: Seq<char>)
    requires
        call_ensures(strip_suffix, (name, end), r),
    ensures
        r matches Some(left) ==> name@ == left@ + end@,
        name@ == stem + end@ ==> (r matches Some(left) && left@ == stem),
{
    if let Some(left) = r {
        assert(name@ =~= left@ + end@);
    }
    if name@ == stem + end@ {
        assert(name@.skip(name@.len() - end@.len()) =~= end@);
        assert(name@.take(name@.len() - end@.len()) =~= stem);
    }
}

/// A file with the ending of maps holds the map of that name. Nothing else
/// holds one.
pub proof fn only_files_hold_maps(
    entry: &str,
    kind: EntryKind,
    end: &str,
    r: Option<String>,
    stem: Option<String>,
)
    requires
        call_ensures(map_name, (entry, kind, end), r),
        call_ensures(strip_suffix, (entry, end), stem),
    ensures
        r is Some <==> kind == EntryKind::File && stem is Some,
        r matches Some(name) ==> name@ == stem->0@,
{
}

/// A module is an asset below the directory of modules that ends as modules
/// do. It is offered under its name and hash, any other asset under its own
/// path.
pub proof fn modules_are_offered_under_their_hash(
    dir: &str,
    path: &str,
    r: Option<String>,
    name: &str,
    hash: &str,
    file: String,
    other: String,
)
    requires
        call_ensures(module_stem, (dir, path), r),
        call_ensures(module_file, (dir, name, hash), file),
        call_ensures(asset_path, (dir, path), other),
    ensures
        r matches Some(stem) ==> path@ == stem@ + ".wasm"@ && "mods/"@.is_prefix_of(dir@),
        r is None ==> !("mods/"@.is_prefix_of(dir@) && exists|stem: Seq<char>|
            path@ == #[trigger] (stem + ".wasm"@)),
        file@ == dir@ + "/"@ + name@ + "_"@ + hash@ + ".wasm"@,
        other@ == dir@ + "/"@ + path@,
{
    if let Some(stem) = r {
        assert(path@ =~= stem@ + ".wasm"@);
        assert forall|i: int| 0 <= i < "mods/"@.len() implies "mods/"@[i] == dir@[i] by {
            assert(dir@.take("mods/"@.len() as int)[i] == "mods/"@[i]);
        }
    } else if "mods/"@.is_prefix_of(dir@) && exists|stem: Seq<char>|
        path@ == #[trigger] (stem + ".wasm"@) {
        let stem = choose|stem: Seq<char>| path@ == #[trigger] (stem + ".wasm"@);
        assert(path@.skip(path@.len() - ".wasm"@.len()) =~= ".wasm"@);
        assert(dir@.take("mods/"@.len() as int) =~= "mods/"@);
    }
}

/// `a` comes before `b` in the dictionary: at the place `p` it ends or has
/// the smaller character, and before that they are the same.
pub open spec fn before_at(a: Seq<char>, b: Seq<char>, p: int) -> bool {
    &&& 0 <= p <= a.len()
    &&& p < b.len()
    &&& forall|k: int| 0 <= k < p ==> a[k] == #[trigger] b[k]
    &&& p < a.len() ==> a[p] < b[p]
}

proof fn lemma_before_at(a: Seq<char>, b: Seq<char>) -> (p: int)
    requires
        text_before(a, b),
    ensures
        before_at(a, b, p),
    decreases a.len(),
{
    if a.len() == 0 || a[0] != b[0] {
        0
    } else {
        let x = a.drop_first();
        let y = b.drop_first();
        let q = lemma_before_at(x, y);
        assert forall|k: int| 0 <= k < q + 1 implies a[k] == #[trigger] b[k] by {
            if k > 0 {
                assert(x[k - 1] == y[k - 1]);
            }
        }
        q + 1
    }
}

/// A name that is added is in the list, with all that was there and nothing
/// else. The list is in the order of the dictionary, without anything twice.
pub proof fn names_are_added_in_order(
    names: &mut Vec<String>,
    name: &str,
    t: Seq<char>,
    i: int,
    j: int,
)
    requires
        in_order(part_texts(old(names)@)),
        call_ensures(insert_name, (names, name), ()),
    ensures
        (exists|k: int| 0 <= k < final(names)@.len() && (#[trigger] final(names)@[k])@ == t) <==> (
        t == name@ || exists|k: int|
            0 <= k < old(names)@.len() && (#[trigger] old(names)@[k])@ == t),
        0 <= i < j < final(names)@.len() ==> exists|p: int|
            before_at(final(names)@[i]@, final(names)@[j]@, p),
{
    let before = part_texts(old(names)@);
    let after = part_texts(final(names)@);
    assert(before.len() == old(names)@.len() && after.len() == final(names)@.len());
    assert forall|k: int| 0 <= k < before.len() implies before[k] == (
    #[trigger] old(names)@[k])@ by {}
    assert forall|k: int| 0 <= k < after.len() implies after[k] == (
    #[trigger] final(names)@[k])@ by {}
    assert(after.contains(t) <==> before.contains(t) || t == name@);
    if after.contains(t) {
        let k = choose|k: int| 0 <= k < after.len() && after[k] == t;
        assert(final(names)@[k]@ == t);
    }
    if before.contains(t) {
        let k = choose|k: int| 0 <= k < before.len() && before[k] == t;
        assert(old(names)@[k]@ == t);
    }
    if exists|k: int| 0 <= k < final(names)@.len() && (#[trigger] final(names)@[k])@ == t {
        let k = choose|k: int|
            0 <= k < final(names)@.len() && (#[trigger] final(names)@[k])@ == t;
        assert(after[k] == t);
    }
    if exists|k: int| 0 <= k < old(names)@.len() && (#[trigger] old(names)@[k])@ == t {
        let k = choose|k: int| 0 <= k < old(names)@.len() && (#[trigger] old(names)@[k])@ == t;
        assert(before[k] == t);
    }
    if 0 <= i < j < final(names)@.len() {
        assert(text_before(after[i], after[j]));
        let p = lemma_before_at(after[i], after[j]);
        assert(before_at(final(names)@[i]@, final(names)@[j]@, p));
    }
}

} // verus!
