//! The maps that are served: where their resources are, and which are kept.
use crate::legacy::client::ServedMap;
use crate::legacy::messages::{Bytes, Text};
use crate::legacy::snapshot::{low, low_i32};
use crate::server_list::{join_url, parse_url, url_joined, url_of, Url, UrlParts};
use crate::text::{append, chars_of, equal, same_bytes, string_of};
use vstd::prelude::*;

verus! {

/// The most bytes of a map resource.
pub const MAX_RESOURCE: usize = 0x800_0000;

/// The number of converted maps that are kept.
pub const MAX_MAPS: usize = 2;

/// The CRC-32 checksum of a byte string.
pub uninterp spec fn crc32(bytes: Seq<u8>) -> u32;

/// `crc32fast::hash` returns the CRC-32 checksum of the bytes.
#[verifier::external_body]
fn checksum(bytes: &[u8]) -> (r: u32)
    ensures
        r == crc32(bytes@),
{
    crc32fast::hash(bytes)
}

/// `pattern` stands at the start of `s`.
pub open spec fn starts_with(s: Text, pattern: Text) -> bool {
    pattern.len() <= s.len() && s.take(pattern.len() as int) == pattern
}

/// `s` without the occurrences of `pattern`, taken from the left.
pub open spec fn without(s: Text, pattern: Text) -> Text
    decreases s.len(),
{
    if s.len() == 0 || pattern.len() == 0 {
        s
    } else if starts_with(s, pattern) {
        without(s.skip(pattern.len() as int), pattern)
    } else {
        seq![s[0]] + without(s.drop_first(), pattern)
    }
}

fn begins(s: &Vec<char>, at: usize, pattern: &Vec<char>) -> (r: bool)
    requires
        at <= s.len(),
    ensures
        r == starts_with(s@.skip(at as int), pattern@),
{
    if pattern.len() > s.len() - at {
        return false;
    }
    let ghost rest = s@.skip(at as int);
    let mut i: usize = 0;
    while i < pattern.len()
        invariant
            at <= s.len(),
            i <= pattern.len() <= s.len() - at,
            rest == s@.skip(at as int),
            forall|j: int| 0 <= j < i ==> #[trigger] rest[j] == pattern@[j],
        decreases pattern.len() - i,
    {
        if s[at + i] != pattern[i] {
            assert(rest.take(pattern@.len() as int)[i as int] != pattern@[i as int]);
            return false;
        }
        i += 1;
    }
    assert(rest.take(pattern@.len() as int) =~= pattern@);
    true
}

/// Removes the occurrences of `pattern` from a text.
fn remove_all(text: &str, pattern: &str) -> (r: String)
    requires
        pattern@.len() > 0,
    ensures
        r@ == without(text@, pattern@),
{
    let s = chars_of(text);
    let p = chars_of(pattern);
    let mut kept: Vec<char> = Vec::new();
    let mut i: usize = 0;
    assert(s@.skip(0) =~= s@);
    assert(kept@ + without(s@.skip(0), p@) =~= without(s@, p@));
    while i < s.len()
        invariant
            i <= s.len(),
            p@.len() > 0,
            kept@ + without(s@.skip(i as int), p@) == without(s@, p@),
        decreases s.len() - i,
    {
        let ghost rest = s@.skip(i as int);
        if begins(&s, i, &p) {
            assert(rest.skip(p@.len() as int) =~= s@.skip(i + p@.len()));
            i += p.len();
        } else {
            let ghost before = kept@;
            kept.push(s[i]);
            assert(rest.drop_first() =~= s@.skip(i + 1));
            assert(kept@ + without(s@.skip(i + 1), p@) =~= before + without(rest, p@));
            i += 1;
        }
    }
    assert(kept@ + without(s@.skip(i as int), p@) =~= kept@);
    string_of(&kept)
}

/// The local file that may hold a resource too: named without its hash.
pub open spec fn plain_path(path: Text, hash: Text) -> Text {
    without(path, "_"@ + hash)
}

/// The local file that may hold a resource too: named without its hash.
pub fn path_without_hash(path: &str, hash: &str) -> (r: String)
    ensures
        r@ == plain_path(path@, hash@),
{
    let mut pattern = "_".to_owned();
    append(&mut pattern, hash);
    proof {
        reveal_strlit("_");
    }
    remove_all(path, pattern.as_str())
}

/// The path of a map.
pub open spec fn map_file(name: Text, hash: Text) -> Text {
    "map/maps/"@ + name + "_"@ + hash + ".twmap.tar"@
}

/// The path of a map.
pub fn map_path(name: &str, hash: &str) -> (r: String)
    ensures
        r@ == map_file(name@, hash@),
{
    let mut path = "map/maps/".to_owned();
    append(&mut path, name);
    append(&mut path, "_");
    append(&mut path, hash);
    append(&mut path, ".twmap.tar");
    path
}

/// The kinds of resources that a map refers to.
#[derive(Clone, Copy, Debug, PartialEq, Eq, Structural)]
pub enum ResourceKind {
    Images,
    ImageArrays,
    Sounds,
}

/// The directory of a kind of resource. Both kinds of images share one.
pub open spec fn kind_name(kind: ResourceKind) -> Text {
    match kind {
        ResourceKind::Images | ResourceKind::ImageArrays => "images"@,
        ResourceKind::Sounds => "sounds"@,
    }
}

/// The path of a resource that a map refers to.
pub open spec fn resource_file(kind: ResourceKind, name: Text, hash: Text, ty: Text) -> Text {
    "map/resources/"@ + kind_name(kind) + "/"@ + name + "_"@ + hash + "."@ + ty
}

/// The path of a resource that a map refers to.
pub fn resource_path(kind: ResourceKind, name: &str, hash: &str, ty: &str) -> (r: String)
    ensures
        r@ == resource_file(kind, name@, hash@, ty@),
{
    let mut path = "map/resources/".to_owned();
    match kind {
        ResourceKind::Images | ResourceKind::ImageArrays => append(&mut path, "images"),
        ResourceKind::Sounds => append(&mut path, "sounds"),
    }
    append(&mut path, "/");
    append(&mut path, name);
    append(&mut path, "_");
    append(&mut path, hash);
    append(&mut path, ".");
    append(&mut path, ty);
    path
}

/// Resources are downloaded through HTTP, encrypted or not.
pub fn supported_scheme(scheme: &str) -> (r: bool)
    ensures
        r == (scheme@ == "http"@ || scheme@ == "https"@),
{
    equal(scheme, "http") || equal(scheme, "https")
}

/// Where a resource is downloaded from: from the backend's own server if it
/// has one, else from the one that it names.
pub fn resource_origin<T>(own: Option<T>, external: Option<T>) -> (r: Option<T>)
    ensures
        r == if own is Some {
            own
        } else {
            external
        },
{
    match own {
        Some(origin) => Some(origin),
        None => external,
    }
}

/// Why resources cannot be downloaded.
#[derive(Clone, Copy, Debug, PartialEq, Eq, Structural)]
pub enum OriginError {
    /// The origin is no URL.
    InvalidUrl,
    /// The origin is neither an HTTP nor an HTTPS URL.
    UnsupportedScheme,
}

/// What is made of an origin that was read as a URL.
pub open spec fn origin_of(parsed: Option<UrlParts>) -> Result<Seq<char>, OriginError> {
    match parsed {
        None => Err(OriginError::InvalidUrl),
        Some(parts) => if parts.scheme == "http"@ || parts.scheme == "https"@ {
            Ok(parts.text)
        } else {
            Err(OriginError::UnsupportedScheme)
        },
    }
}

/// Checks an origin that was read as a URL.
pub fn check_origin(parsed: Option<Url>) -> (r: Result<String, OriginError>)
    ensures
        match origin_of(
            match parsed {
                Some(url) => Some(url@),
                None => None,
            },
        ) {
            Ok(text) => r matches Ok(origin) && origin@ == text,
            Err(error) => r is Err && r->Err_0 == error,
        },
{
    match parsed {
        None => Err(OriginError::InvalidUrl),
        Some(url) => if supported_scheme(url.scheme.as_str()) {
            Ok(url.text)
        } else {
            Err(OriginError::UnsupportedScheme)
        },
    }
}

/// The URL of the backend's own server for resources, which listens on the
/// given address and port.
pub fn own_origin(addr: &str) -> (r: String)
    ensures
        r@ == "http://"@ + addr@ + "/"@,
{
    let mut r = "http://".to_owned();
    append(&mut r, addr);
    append(&mut r, "/");
    r
}

/// The URL that the resources of a map are downloaded from, if there is one:
/// that of the backend's own server, else the one that the backend names.
pub fn map_origin(own: Option<String>, external: Option<String>) -> (r: Result<
    Option<String>,
    OriginError,
>)
    ensures
        match (if own is Some {
            own
        } else {
            external
        }) {
            None => r matches Ok(None),
            Some(text) => match origin_of(url_of(text@)) {
                Ok(origin) => r matches Ok(Some(found)) && found@ == origin,
                Err(error) => r is Err && r->Err_0 == error,
            },
        },
{
    match resource_origin(own, external) {
        None => Ok(None),
        Some(text) => match check_origin(parse_url(text.as_str())) {
            Ok(origin) => Ok(Some(origin)),
            Err(error) => Err(error),
        },
    }
}

/// The URL of a resource.
pub fn resource_url(origin: &str, path: &str) -> (r: Option<String>)
    ensures
        match url_joined(origin@, path@) {
            Some(text) => r matches Some(url) && url@ == text,
            None => r is None,
        },
{
    join_url(origin, path)
}

/// What to do about a resource after the local files were looked at.
#[derive(Clone, Copy, Debug, PartialEq, Eq, Structural)]
pub enum ResourceStep {
    /// The local file is the resource.
    UseLocal,
    /// The resource must be downloaded.
    Download,
    /// The resource is missing, and nobody offers it.
    Missing,
}

/// Decides about a resource: `local` is the hash of the local file's
/// contents, if there is one.
pub fn resource_step(local: Option<[u8; 32]>, hash: [u8; 32], has_origin: bool) -> (r: ResourceStep)
    ensures
        r == if local matches Some(found) && found@ == hash@ {
            ResourceStep::UseLocal
        } else if has_origin {
            ResourceStep::Download
        } else {
            ResourceStep::Missing
        },
{
    let found = match local {
        Some(found) => is_resource(found, hash),
        None => false,
    };
    if found {
        ResourceStep::UseLocal
    } else if has_origin {
        ResourceStep::Download
    } else {
        ResourceStep::Missing
    }
}

/// Tells whether a resource is the one that was asked for.
pub fn is_resource(found: [u8; 32], hash: [u8; 32]) -> (r: bool)
    ensures
        r == (found@ == hash@),
{
    same_bytes(found.as_slice(), hash.as_slice())
}

/// A converted map is ready to be served, unless the old protocol cannot say
/// how large it is.
pub fn served_map(name: &str, bytes: Vec<u8>) -> (r: Option<ServedMap>)
    ensures
        match r {
            Some(map) => {
                &&& bytes@.len() <= i32::MAX
                &&& map.name@ == name@
                &&& map.bytes@ == bytes@
                &&& map.crc == low_i32(crc32(bytes@) as int)
            },
            None => bytes@.len() > i32::MAX,
        },
{
    if bytes.len() > 0x7fff_ffff {
        return None;
    }
    let crc: i32 = low(checksum(bytes.as_slice()) as usize);
    Some(ServedMap { name: name.to_owned(), bytes, crc })
}

/// The converted maps that are kept, the oldest first, each with the hash of
/// its original.
pub struct MapCache<T> {
    pub maps: Vec<([u8; 32], T)>,
}

/// The place of a map in the cache, or the number of maps.
pub open spec fn map_index<T>(maps: Seq<([u8; 32], T)>, hash: Bytes) -> int
    decreases maps.len(),
{
    if maps.len() == 0 || maps[0].0@ == hash {
        0
    } else {
        1 + map_index(maps.drop_first(), hash)
    }
}

impl<T> MapCache<T> {
    /// No maps.
    pub fn new() -> (r: Self)
        ensures
            r.maps@.len() == 0,
    {
        MapCache { maps: Vec::new() }
    }

    /// Finds a map by the hash of its original.
    pub fn find(&self, hash: &[u8; 32]) -> (r: Option<&T>)
        ensures
            ({
                let i = map_index(self.maps@, hash@);
                if i < self.maps@.len() {
                    r matches Some(map) && *map == self.maps@[i].1
                } else {
                    r is None
                }
            }),
    {
        let mut i: usize = 0;
        assert(self.maps@.skip(0) =~= self.maps@);
        while i < self.maps.len()
            invariant
                i <= self.maps.len(),
                map_index(self.maps@, hash@) == i + map_index(self.maps@.skip(i as int), hash@),
            decreases self.maps.len() - i,
        {
            assert(self.maps@.skip(i as int).drop_first() =~= self.maps@.skip(i + 1));
            if same_bytes(self.maps[i].0.as_slice(), hash.as_slice()) {
                return Some(&self.maps[i].1);
            }
            i += 1;
        }
        None
    }

    /// Keeps a map. The oldest ones give way.
    pub fn insert(&mut self, hash: [u8; 32], map: T)
        ensures
            final(self).maps@ == crate::legacy::events::last_of(
                old(self).maps@.push((hash, map)),
                MAX_MAPS as nat,
            ),
    {
        self.maps.push((hash, map));
        let ghost all = self.maps@;
        if self.maps.len() > MAX_MAPS {
            let first: usize = self.maps.len() - MAX_MAPS;
            let kept = self.maps.split_off(first);
            assert(kept@ =~= all.skip(first as int));
            self.maps = kept;
        }
    }
}

proof fn lemma_map_index<T>(maps: Seq<([u8; 32], T)>, hash: Bytes)
    ensures
        0 <= map_index(maps, hash) <= maps.len(),
        map_index(maps, hash) < maps.len() ==> maps[map_index(maps, hash)].0@ == hash,
        forall|i: int| 0 <= i < map_index(maps, hash) ==> (#[trigger] maps[i]).0@ != hash,
    decreases maps.len(),
{
    if maps.len() > 0 && maps[0].0@ != hash {
        lemma_map_index(maps.drop_first(), hash);
        assert forall|i: int| 0 <= i < map_index(maps, hash) implies (#[trigger] maps[i]).0@
            != hash by {
            if i > 0 {
                assert(maps.drop_first()[i - 1] == maps[i]);
            }
        }
    }
}

/// A map that was not kept before is found once it is, and no more than two
/// are kept.
pub proof fn kept_map_is_found<T>(maps: Seq<([u8; 32], T)>, hash: [u8; 32], map: T)
    requires
        map_index(maps, hash@) == maps.len(),
    ensures
        ({
            let after = crate::legacy::events::last_of(maps.push((hash, map)), MAX_MAPS as nat);
            let i = map_index(after, hash@);
            after.len() <= MAX_MAPS && i < after.len() && after[i].1 == map
        }),
{
    let all = maps.push((hash, map));
    let after = crate::legacy::events::last_of(all, MAX_MAPS as nat);
    lemma_map_index(maps, hash@);
    lemma_map_index(after, hash@);
    let i = map_index(after, hash@);
    assert(after[after.len() - 1] == (hash, map));
    if i < after.len() - 1 {
        let at = i + all.len() - after.len();
        assert(after[i] == maps[at]);
    }
}

/// The zones of a map in which other tuning holds.
#[derive(Clone, Debug, PartialEq, Eq)]
pub struct MapTuning {
    pub zones: Vec<u8>,
    pub width: u16,
    pub height: u16,
}

/// The tile of a pixel coordinate, kept inside of `0..size`. Tiles are 32
/// pixels wide.
pub open spec fn tile(pixel: i32, size: u16) -> int {
    let t = pixel as int / 32;
    if pixel < 0 {
        0
    } else if t > size - 1 {
        size - 1
    } else {
        t
    }
}

/// The tuning zone at a position, zero where the global tuning holds.
pub open spec fn zone_number(t: MapTuning, x: i32, y: i32) -> u8 {
    let i = tile(y, t.height) * t.width + tile(x, t.width);
    if i < t.zones@.len() {
        t.zones@[i]
    } else {
        0
    }
}

fn tile_at(pixel: i32, size: u16) -> (r: u32)
    requires
        size > 0,
    ensures
        r == tile(pixel, size),
        r < size,
{
    if pixel < 0 {
        return 0;
    }
    let t: u32 = pixel as u32 / 32;
    if t > size as u32 - 1 {
        size as u32 - 1
    } else {
        t
    }
}

impl MapTuning {
    /// The zones of a map: those of its first tune layer, if it has one.
    pub fn new(width: u16, height: u16, tune_layer: Option<Vec<u8>>) -> (r: Self)
        ensures
            r.width == width,
            r.height == height,
            r.zones@ == match tune_layer {
                Some(zones) => zones@,
                None => Seq::empty(),
            },
    {
        let zones = match tune_layer {
            Some(zones) => zones,
            None => Vec::new(),
        };
        MapTuning { zones, width, height }
    }

    /// Tells whether the global tuning holds at a position in pixels.
    pub fn is_global(&self, x: i32, y: i32) -> (r: bool)
        requires
            self.width > 0,
            self.height > 0,
        ensures
            r == (zone_number(*self, x, y) == 0),
    {
        let column: u32 = tile_at(x, self.width);
        let row: u32 = tile_at(y, self.height);
        assert(row * self.width <= 0xfffe * 0xffff) by (nonlinear_arith)
            requires
                row <= 0xfffe,
                self.width <= 0xffff,
        ;
        let i: usize = (row * self.width as u32) as usize + column as usize;
        if i < self.zones.len() {
            self.zones[i] == 0
        } else {
            true
        }
    }
}

/// `pattern` stands in `s` at the place `i`.
pub open spec fn stands_at(s: Text, pattern: Text, i: int) -> bool {
    0 <= i && i + pattern.len() <= s.len() && forall|k: int|
        0 <= k < pattern.len() ==> #[trigger] s[i + k] == pattern[k]
}

proof fn lemma_stands_at(s: Text, pattern: Text)
    ensures
        starts_with(s, pattern) <==> stands_at(s, pattern, 0),
{
    if starts_with(s, pattern) {
        assert forall|k: int| 0 <= k < pattern.len() implies #[trigger] s[0 + k]
            == pattern[k] by {
            assert(s.take(pattern.len() as int)[k] == pattern[k]);
        }
    }
    if stands_at(s, pattern, 0) {
        assert forall|k: int| 0 <= k < pattern.len() implies s.take(pattern.len() as int)[k]
            == pattern[k] by {
            assert(s[0 + k] == pattern[k]);
        }
        assert(s.take(pattern.len() as int) =~= pattern);
    }
}

proof fn lemma_without(a: Text, s: Text, pattern: Text, n: int)
    requires
        pattern.len() > 0,
        0 <= n <= s.len(),
        forall|i: int| 0 <= i < n ==> !stands_at(s, pattern, i),
    ensures
        without(s, pattern) == s.take(n) + without(s.skip(n), pattern),
    decreases n,
{
    if n == 0 {
        assert(s.skip(0) =~= s);
        assert(s.take(0) + without(s, pattern) =~= without(s, pattern));
    } else {
        lemma_stands_at(s, pattern);
        let rest = s.drop_first();
        assert forall|i: int| 0 <= i < n - 1 implies !stands_at(rest, pattern, i) by {
            if stands_at(rest, pattern, i) {
                assert forall|k: int| 0 <= k < pattern.len() implies #[trigger] s[i + 1 + k]
                    == pattern[k] by {
                    assert(rest[i + k] == pattern[k]);
                }
                assert(stands_at(s, pattern, i + 1));
            }
        }
        lemma_without(a, rest, pattern, n - 1);
        assert(rest.skip(n - 1) =~= s.skip(n));
        assert(s.take(n) =~= seq![s[0]] + rest.take(n - 1));
        assert(s.take(n) + without(s.skip(n), pattern) =~= seq![s[0]] + (rest.take(n - 1)
            + without(rest.skip(n - 1), pattern)));
    }
}

/// A path that does not hold an underscore and the hash stays as it is. Where
/// it does, the first occurrence is left out, and the rest is treated alike.
pub proof fn hashes_are_left_out(
    path: &str,
    hash: &str,
    r: String,
    rest: &str,
    r2: String,
    n: int,
)
    requires
        call_ensures(path_without_hash, (path, hash), r),
        call_ensures(path_without_hash, (rest, hash), r2),
        0 <= n <= path@.len(),
        forall|i: int| 0 <= i < n ==> !stands_at(path@, seq!['_'] + hash@, i),
    ensures
        n == path@.len() ==> r@ == path@,
        stands_at(path@, seq!['_'] + hash@, n) && rest@ == path@.skip(n + 1 + hash@.len()) ==> r@
            == path@.take(n) + r2@,
{
    reveal_strlit("_");
    let pattern = "_"@ + hash@;
    assert("_"@ =~= seq!['_']);
    lemma_without(seq![], path@, pattern, n);
    let tail = path@.skip(n);
    if n == path@.len() {
        assert(tail =~= seq![]);
        assert(path@.take(n) + without(tail, pattern) =~= path@);
    }
    if stands_at(path@, pattern, n) && rest@ == path@.skip(n + 1 + hash@.len()) {
        assert forall|k: int| 0 <= k < pattern.len() implies #[trigger] tail[0 + k]
            == pattern[k] by {
            assert(path@[n + k] == pattern[k]);
        }
        assert(stands_at(tail, pattern, 0));
        lemma_stands_at(tail, pattern);
        assert(tail.skip(pattern.len() as int) =~= rest@);
    }
}

/// The path of a map holds its name and its hash, and that of a resource its
/// directory and its type too.
pub proof fn paths_hold_name_and_hash(
    name: &str,
    hash: &str,
    kind: ResourceKind,
    ty: &str,
    map: String,
    resource: String,
)
    requires
        call_ensures(map_path, (name, hash), map),
        call_ensures(resource_path, (kind, name, hash, ty), resource),
    ensures
        map@ == "map/maps/"@ + name@ + "_"@ + hash@ + ".twmap.tar"@,
        kind == ResourceKind::Sounds ==> resource@ == "map/resources/sounds/"@ + name@ + "_"@
            + hash@ + "."@ + ty@,
        kind == ResourceKind::Images || kind == ResourceKind::ImageArrays ==> resource@
            == "map/resources/images/"@ + name@ + "_"@ + hash@ + "."@ + ty@,
{
    reveal_strlit("map/resources/");
    reveal_strlit("sounds");
    reveal_strlit("images");
    reveal_strlit("/");
    reveal_strlit("map/resources/sounds/");
    reveal_strlit("map/resources/images/");
    assert("map/resources/"@ + "sounds"@ + "/"@ =~= "map/resources/sounds/"@);
    assert("map/resources/"@ + "images"@ + "/"@ =~= "map/resources/images/"@);
}

/// Of the two origins of resources the backend's own one comes first.
pub proof fn own_origin_comes_first<T>(own: Option<T>, external: Option<T>, r: Option<T>)
    requires
        call_ensures(resource_origin::<T>, (own, external), r),
    ensures
        own is Some ==> r == own,
        own is None ==> r == external,
{
}

/// An origin is taken as the URL that it reads as, exactly if that is one of
/// the two schemes.
pub proof fn only_web_origins_are_taken(
    parsed: Option<Url>,
    r: Result<String, OriginError>,
    supported: bool,
)
    requires
        call_ensures(check_origin, (parsed,), r),
        parsed matches Some(url) ==> exists|scheme: &str|
            scheme@ == url.scheme@ && call_ensures(supported_scheme, (scheme,), supported),
    ensures
        parsed is None ==> (r matches Err(e) && e == OriginError::InvalidUrl),
        parsed matches Some(url) ==> {
            &&& supported <==> url.scheme@ == "http"@ || url.scheme@ == "https"@
            &&& supported ==> (r matches Ok(origin) && origin@ == url.text@)
            &&& !supported ==> (r matches Err(e) && e == OriginError::UnsupportedScheme)
        },
{
}

/// The origin of a map's resources is the backend's own one if there is one,
/// and is checked whichever it is.
pub proof fn map_origins_are_checked(
    own: Option<String>,
    external: Option<String>,
    r: Result<Option<String>, OriginError>,
)
    requires
        call_ensures(map_origin, (own, external), r),
    ensures
        own is None && external is None ==> (r matches Ok(None)),
        own is Some || external is Some ==> {
            let text = if own is Some {
                own->0@
            } else {
                external->0@
            };
            let url = url_of(text);
            &&& url is None ==> (r matches Err(e) && e == OriginError::InvalidUrl)
            &&& url is Some && (url->0.scheme == "http"@ || url->0.scheme == "https"@) ==> (
            r matches Ok(Some(found)) && found@ == url->0.text)
            &&& url is Some && url->0.scheme != "http"@ && url->0.scheme != "https"@ ==> (
            r matches Err(e) && e == OriginError::UnsupportedScheme)
        },
{
}

/// The backend's own server is at its address, through HTTP.
pub proof fn own_server_is_at_its_address(addr: &str, r: String)
    requires
        call_ensures(own_origin, (addr,), r),
    ensures
        r@ == "http://"@ + addr@ + "/"@,
{
}

/// The URL of a resource is its path joined to the origin, if they can be
/// joined.
pub proof fn resources_are_below_their_origin(origin: &str, path: &str, r: Option<String>)
    requires
        call_ensures(resource_url, (origin, path), r),
    ensures
        r is Some <==> url_joined(origin@, path@) is Some,
        r matches Some(url) ==> url_joined(origin@, path@) == Some(url@),
{
}

/// A local file is used exactly if its hash is the one that is asked for;
/// otherwise the resource is downloaded if it can be.
pub proof fn only_files_with_the_hash_are_used(
    local: Option<[u8; 32]>,
    hash: [u8; 32],
    has_origin: bool,
    r: ResourceStep,
    same: bool,
)
    requires
        call_ensures(resource_step, (local, hash, has_origin), r),
        local matches Some(found) ==> call_ensures(is_resource, (found, hash), same),
    ensures
        local matches Some(found) ==> (same <==> found@ == hash@),
        r == ResourceStep::UseLocal <==> local is Some && same,
        r == ResourceStep::Download <==> has_origin && !(local is Some && same),
        r == ResourceStep::Missing <==> !has_origin && !(local is Some && same),
{
}

/// A map is served as it was converted, under its name, with the checksum of
/// its bytes, as long as its size fits 31 bits.
pub proof fn maps_are_served_as_they_are(name: &str, bytes: Vec<u8>, r: Option<ServedMap>)
    requires
        call_ensures(served_map, (name, bytes), r),
    ensures
        r is Some <==> bytes@.len() < 0x8000_0000,
        r matches Some(map) ==> {
            &&& map.name@ == name@
            &&& map.bytes@ == bytes@
            &&& map.crc >= 0 ==> map.crc == crc32(bytes@)
            &&& map.crc < 0 ==> map.crc + 0x1_0000_0000 == crc32(bytes@)
        },
{
}

/// The first map with the hash is found, and none only if there is none.
pub proof fn first_map_with_the_hash_is_found<T>(
    cache: &MapCache<T>,
    hash: &[u8; 32],
    r: Option<&T>,
    i: int,
)
    requires
        call_ensures(MapCache::<T>::find, (cache, hash), r),
    ensures
        0 <= i < cache.maps@.len() && cache.maps@[i].0@ == hash@ && (forall|k: int|
            0 <= k < i ==> (#[trigger] cache.maps@[k]).0@ != hash@) ==> r == Some(
            &cache.maps@[i].1,
        ),
        (forall|k: int|
            0 <= k < cache.maps@.len() ==> (#[trigger] cache.maps@[k]).0@ != hash@) ==> r is None,
{
    lemma_map_index(cache.maps@, hash@);
    let at = map_index(cache.maps@, hash@);
    if 0 <= i < cache.maps@.len() && cache.maps@[i].0@ == hash@ && (forall|k: int|
        0 <= k < i ==> (#[trigger] cache.maps@[k]).0@ != hash@) {
        if at < i {
            assert(cache.maps@[at].0@ != hash@);
        }
        assert(at == i);
    }
    if forall|k: int| 0 <= k < cache.maps@.len() ==> (#[trigger] cache.maps@[k]).0@ != hash@ {
        if at < cache.maps@.len() {
            assert(cache.maps@[at].0@ != hash@);
        }
    }
}

/// The map that is kept comes last. The one before it stays, those before
/// that give way.
pub proof fn two_newest_maps_are_kept<T>(cache: &mut MapCache<T>, hash: [u8; 32], map: T)
    requires
        call_ensures(MapCache::<T>::insert, (cache, hash, map), ()),
    ensures
        final(cache).maps@.len() == if old(cache).maps@.len() == 0 {
            1int
        } else {
            2
        },
        final(cache).maps@.last() == (hash, map),
        old(cache).maps@.len() > 0 ==> final(cache).maps@[0] == old(cache).maps@.last(),
{
}

/// The global tuning holds exactly where the map has no zone: the zone of a
/// position is that of its tile, 32 pixels wide, and positions outside of the
/// map count as the nearest tile.
pub proof fn zones_are_those_of_the_tile(
    t: &MapTuning,
    x: i32,
    y: i32,
    r: bool,
    column: int,
    row: int,
)
    requires
        call_ensures(MapTuning::is_global, (t, x, y), r),
        0 <= column < t.width,
        0 <= row < t.height,
        32 * column <= x < 32 * (column + 1) || (column == 0 && x < 0) || (column == t.width - 1
            && x >= 32 * t.width),
        32 * row <= y < 32 * (row + 1) || (row == 0 && y < 0) || (row == t.height - 1 && y >= 32
            * t.height),
    ensures
        row * t.width + column < t.zones@.len() ==> (r <==> t.zones@[row * t.width + column] == 0),
        row * t.width + column >= t.zones@.len() ==> r,
{
    assert(tile(x, t.width) == column);
    assert(tile(y, t.height) == row);
    assert(row * t.width >= 0) by (nonlinear_arith)
        requires
            row >= 0,
            t.width >= 0,
    ;
}

/// The zones are those of the tune layer. Without one there are none.
pub proof fn zones_come_from_the_tune_layer(
    width: u16,
    height: u16,
    layer: Option<Vec<u8>>,
    r: MapTuning,
)
    requires
        call_ensures(MapTuning::new, (width, height, layer), r),
    ensures
        r.width == width && r.height == height,
        layer matches Some(zones) ==> r.zones@ == zones@,
        layer is None ==> r.zones@.len() == 0,
{
}

} // verus!
