//! The master servers that list game servers.
use crate::proxy::is_blank;
use crate::text::{
    chars_of, equal, lines, lines_of, string_of, texts, trim, trimmed, utf8_string,
};
use vstd::prelude::*;
use vstd::utf8::{decode_utf8, valid_utf8};

verus! {

/// The parts of a URL, as far as they are looked at.
pub struct UrlParts {
    pub text: Seq<char>,
    pub scheme: Seq<char>,
    pub host: Option<Seq<char>>,
    pub path: Seq<char>,
}

/// What `url::Url::parse` makes of a text.
pub uninterp spec fn url_of(text: Seq<char>) -> Option<UrlParts>;

/// The URL in a text after `url::Url::set_path`.
pub uninterp spec fn url_with_path(text: Seq<char>, path: Seq<char>) -> UrlParts;

/// What `url::Url::join` makes of a base URL and a relative one.
pub uninterp spec fn url_joined(base: Seq<char>, relative: Seq<char>) -> Option<Seq<char>>;

/// A URL: its text, and the parts that are looked at.
#[derive(Clone, Debug, PartialEq, Eq)]
pub struct Url {
    pub text: String,
    pub scheme: String,
    pub host: Option<String>,
    pub path: String,
}

impl View for Url {
    type V = UrlParts;

    open spec fn view(&self) -> UrlParts {
        UrlParts {
            text: self.text@,
            scheme: self.scheme@,
            host: match self.host {
                Some(host) => Some(host@),
                None => None,
            },
            path: self.path@,
        }
    }
}

/// `url::Url::parse` reads a URL; its parts are copied out. That depends on
/// the text alone.
#[verifier::external_body]
pub(crate) fn parse_url(text: &str) -> (r: Option<Url>)
    ensures
        match url_of(text@) {
            Some(parts) => r matches Some(url) && url@ == parts,
            None => r is None,
        },
{
    let url = url::Url::parse(text).ok()?;
    Some(
        Url {
            text: url.as_str().to_owned(),
            scheme: url.scheme().to_owned(),
            host: url.host_str().map(|host| host.to_owned()),
            path: url.path().to_owned(),
        },
    )
}

/// `url::Url::set_path` replaces the path of any URL. A slash at the end of the
/// path that an HTTPS URL has already is added as it is, and the other parts
/// stay.
#[verifier::external_body]
fn set_path(text: &str, path: &str) -> (r: Option<Url>)
    ensures
        r is Some == url_of(text@) is Some,
        r matches Some(url) ==> url@ == url_with_path(text@, path@),
        forall|parts: UrlParts|
            url_of(text@) == Some(parts) && parts.scheme == "https"@ && parts.host is Some && path@
                == (#[trigger] parts.path).push('/') ==> r is Some && r->0@.path == path@
                && r->0@.scheme == parts.scheme && r->0@.host == parts.host,
{
    let mut url = url::Url::parse(text).ok()?;
    url.set_path(path);
    Some(
        Url {
            text: url.as_str().to_owned(),
            scheme: url.scheme().to_owned(),
            host: url.host_str().map(|host| host.to_owned()),
            path: url.path().to_owned(),
        },
    )
}

/// `url::Url::join` resolves a relative URL. That depends on the two texts
/// alone.
#[verifier::external_body]
pub(crate) fn join_url(base: &str, relative: &str) -> (r: Option<String>)
    ensures
        match url_joined(base@, relative@) {
            Some(text) => r matches Some(url) && url@ == text,
            None => r is None,
        },
{
    Some(url::Url::parse(base).ok()?.join(relative).ok()?.to_string())
}

/// Why a list of master servers cannot be used.
#[derive(Clone, Copy, Debug, PartialEq, Eq, Structural)]
pub enum ServerListError {
    /// The line is no URL.
    InvalidUrl { line: u64 },
    /// The URL on the line is not an HTTPS one with a host.
    NotHttps { line: u64 },
}

/// URLs as contracts speak of them.
pub open spec fn url_list(urls: Seq<Url>) -> Seq<UrlParts> {
    urls.map_values(|url: Url| url@)
}

/// The master server that is used when none is configured.
pub open spec fn default_url() -> UrlParts {
    UrlParts {
        text: "https://pg.ddnet.org:4444/ddnet/15/"@,
        scheme: "https"@,
        host: Some("pg.ddnet.org"@),
        path: "/ddnet/15/"@,
    }
}

/// A URL that master server endpoints can be joined to: encrypted, with a
/// host, and a path that ends with a slash.
pub open spec fn is_base_url(url: UrlParts) -> bool {
    url.scheme == "https"@ && url.host is Some && url.path.len() > 0 && url.path.last() == '/'
}

/// The base URL that a line stands for.
pub open spec fn base_url(line: Seq<char>, parts: UrlParts) -> UrlParts {
    if parts.path.len() > 0 && parts.path.last() == '/' {
        parts
    } else {
        url_with_path(line, parts.path.push('/'))
    }
}

/// The URLs of a list, or the first error in it.
pub open spec fn read_urls(lines: Seq<Seq<char>>) -> Result<Seq<UrlParts>, ServerListError>
    decreases lines.len(),
{
    if lines.len() == 0 {
        Ok(seq![])
    } else {
        match read_urls(lines.drop_last()) {
            Err(error) => Err(error),
            Ok(list) => {
                let line = trimmed(lines.last());
                let number = lines.len() as u64;
                if is_blank(line) {
                    Ok(list)
                } else {
                    match url_of(line) {
                        None => Err(ServerListError::InvalidUrl { line: number }),
                        Some(parts) => if parts.scheme == "https"@ && parts.host is Some {
                            Ok(list.push(base_url(line, parts)))
                        } else {
                            Err(ServerListError::NotHttps { line: number })
                        },
                    }
                }
            },
        }
    }
}

/// The URLs of a list, or the default where it has none.
pub open spec fn listed_urls(lines: Seq<Seq<char>>) -> Result<Seq<UrlParts>, ServerListError> {
    match read_urls(lines) {
        Err(error) => Err(error),
        Ok(list) => Ok(
            if list.len() == 0 {
                seq![default_url()]
            } else {
                list
            },
        ),
    }
}

proof fn lemma_error_stays(lines: Seq<Seq<char>>, i: int)
    requires
        0 <= i <= lines.len(),
        read_urls(lines.take(i)) is Err,
    ensures
        read_urls(lines) == read_urls(lines.take(i)),
    decreases lines.len() - i,
{
    if i == lines.len() {
        assert(lines.take(i) =~= lines);
    } else {
        assert(lines.take(i + 1).drop_last() =~= lines.take(i));
        lemma_error_stays(lines, i + 1);
    }
}

/// The master servers that are used when none are configured.
pub fn defaults() -> (r: Vec<Url>)
    ensures
        url_list(r@) == seq![default_url()],
        r@.len() == 1,
        r@[0]@ == default_url(),
        is_base_url(default_url()),
{
    let url = Url {
        text: "https://pg.ddnet.org:4444/ddnet/15/".to_owned(),
        scheme: "https".to_owned(),
        host: Some("pg.ddnet.org".to_owned()),
        path: "/ddnet/15/".to_owned(),
    };
    proof {
        reveal_strlit("/ddnet/15/");
    }
    let mut r: Vec<Url> = Vec::new();
    r.push(url);
    assert(url_list(r@) =~= seq![default_url()]);
    r
}

/// What is made of a line that was read as a URL: the URL, and the path that
/// it must be given so that it ends with a slash, if it does not.
pub open spec fn base_of_line(parsed: Option<UrlParts>, line: u64) -> Result<
    (UrlParts, Option<Seq<char>>),
    ServerListError,
> {
    match parsed {
        None => Err(ServerListError::InvalidUrl { line }),
        Some(parts) => if parts.scheme == "https"@ && parts.host is Some {
            if parts.path.len() > 0 && parts.path.last() == '/' {
                Ok((parts, None))
            } else {
                Ok((parts, Some(parts.path.push('/'))))
            }
        } else {
            Err(ServerListError::NotHttps { line })
        },
    }
}

/// Checks a line that was read as a URL. Returns the URL, and the path that
/// it must be given so that it ends with a slash, if it does not.
pub fn check_line(parsed: Option<Url>, line: u64) -> (r: Result<
    (Url, Option<String>),
    ServerListError,
>)
    ensures
        match base_of_line(
            match parsed {
                Some(url) => Some(url@),
                None => None,
            },
            line,
        ) {
            Ok((parts, longer)) => {
                &&& r matches Ok((url, path))
                &&& url@ == parts
                &&& match longer {
                    Some(longer) => path matches Some(path) && path@ == longer,
                    None => path is None,
                }
            },
            Err(error) => r is Err && r->Err_0 == error,
        },
{
    let url = match parsed {
        Some(url) => url,
        None => {
            return Err(ServerListError::InvalidUrl { line });
        },
    };
    if !equal(url.scheme.as_str(), "https") || url.host.is_none() {
        return Err(ServerListError::NotHttps { line });
    }
    let path = chars_of(url.path.as_str());
    if path.len() > 0 && path[path.len() - 1] == '/' {
        return Ok((url, None));
    }
    let mut longer = url.path.clone();
    longer.push('/');
    assert(longer@ == url@.path.push('/'));
    Ok((url, Some(longer)))
}

/// Reads a list of master servers: one HTTPS base URL per line. Empty lines
/// and comments are ignored; a list without URLs stands for the default.
pub fn parse(contents: &str) -> (r: Result<Vec<Url>, ServerListError>)
    ensures
        match listed_urls(lines_of(contents@)) {
            Ok(list) => r matches Ok(urls) && url_list(urls@) == list,
            Err(error) => r is Err && r->Err_0 == error,
        },
        r matches Ok(urls) ==> urls@.len() > 0 && forall|i: int|
            0 <= i < urls@.len() ==> is_base_url((#[trigger] urls@[i])@),
{
    let text = chars_of(contents);
    let list = lines(&text);
    let ghost all = texts(list@);
    let mut urls: Vec<Url> = Vec::new();
    let mut i: usize = 0;
    assert(all.take(0) =~= seq![]);
    assert(url_list(urls@) =~= seq![]);
    while i < list.len()
        invariant
            i <= list.len(),
            all == texts(list@),
            all == lines_of(contents@),
            read_urls(all.take(i as int)) == Ok::<Seq<UrlParts>, ServerListError>(url_list(urls@)),
            forall|i: int| 0 <= i < urls@.len() ==> is_base_url((#[trigger] urls@[i])@),
        decreases list.len() - i,
    {
        proof {
            assert(all.take(i + 1).drop_last() =~= all.take(i as int));
            assert(all.take(i + 1).last() == list@[i as int]@);
        }
        let line = trim(&list[i]);
        if line.len() > 0 && line[0] != '#' {
            let text = string_of(&line);
            let parsed = parse_url(text.as_str());
            let (url, longer) = match check_line(parsed, i as u64 + 1) {
                Ok(checked) => checked,
                Err(error) => {
                    proof {
                        lemma_error_stays(all, i + 1);
                    }
                    return Err(error);
                },
            };
            let ghost parts = url@;
            let ghost before = url_list(urls@);
            let base = match longer {
                None => url,
                Some(longer) => match set_path(text.as_str(), longer.as_str()) {
                    Some(url) => url,
                    None => url,
                },
            };
            assert(base@ == base_url(trimmed(all.take(i + 1).last()), parts));
            urls.push(base);
            assert(url_list(urls@) =~= before.push(base@));
        }
        i += 1;
    }
    assert(all.take(i as int) =~= all);
    if urls.len() == 0 {
        return Ok(defaults());
    }
    Ok(urls)
}

/// The file that lists master servers, as it was found.
pub enum ListFile {
    Missing,
    Unreadable,
    Contents(Vec<u8>),
}

/// The master servers that a file lists, or the default where there is none
/// or it is broken.
pub fn load(file: ListFile) -> (r: Vec<Url>)
    ensures
        url_list(r@) == match file {
            ListFile::Contents(bytes) => if valid_utf8(bytes@) {
                match listed_urls(lines_of(decode_utf8(bytes@))) {
                    Ok(list) => list,
                    Err(_) => seq![default_url()],
                }
            } else {
                seq![default_url()]
            },
            _ => seq![default_url()],
        },
        r@.len() > 0,
        forall|i: int| 0 <= i < r@.len() ==> is_base_url((#[trigger] r@[i])@),
{
    if let ListFile::Contents(bytes) = file {
        if let Some(contents) = utf8_string(bytes) {
            if let Ok(urls) = parse(contents.as_str()) {
                return urls;
            }
        }
    }
    defaults()
}

impl Url {
    /// The URL of an endpoint below this one.
    pub fn join(&self, relative: &str) -> (r: Option<String>)
        ensures
            match url_joined(self.text@, relative@) {
                Some(text) => r matches Some(url) && url@ == text,
                None => r is None,
            },
    {
        join_url(self.text.as_str(), relative)
    }
}

/// Without a list the one master server is that of DDNet.
pub proof fn default_master_is_that_of_ddnet(r: Vec<Url>)
    requires
        call_ensures(defaults, (), r),
    ensures
        r@.len() == 1,
        r@[0].text@ == "https://pg.ddnet.org:4444/ddnet/15/"@,
        r@[0].scheme@ == "https"@,
        r@[0].host matches Some(host) && host@ == "pg.ddnet.org"@,
        r@[0].path@ == "/ddnet/15/"@,
{
    assert(r@[0]@.host is Some);
}

/// A line must be a URL with HTTPS and a host. It is taken as it is, and a
/// path that does not end in a slash is to be extended by one.
pub proof fn only_https_urls_are_taken(
    url: Url,
    line: u64,
    r: Result<(Url, Option<String>), ServerListError>,
    none: Result<(Url, Option<String>), ServerListError>,
)
    requires
        call_ensures(check_line, (Some(url), line), r),
        call_ensures(check_line, (None::<Url>, line), none),
    ensures
        none matches Err(e) && e == (ServerListError::InvalidUrl { line }),
        r is Ok <==> url.scheme@ == "https"@ && url.host is Some,
        r matches Err(e) ==> e == (ServerListError::NotHttps { line }),
        r matches Ok((same, longer)) ==> {
            &&& same.text@ == url.text@
            &&& same.scheme@ == url.scheme@
            &&& same.path@ == url.path@
            &&& longer is None <==> url.path@.len() > 0 && url.path@.last() == '/'
            &&& longer matches Some(path) ==> path@ == url.path@.push('/')
        },
{
    if let Ok((same, longer)) = r {
        assert(same@ == url@);
        assert(same@.text == same.text@ && url@.text == url.text@);
    }
}

/// The lines before the `i`th that say something: they are neither empty nor
/// comments.
pub open spec fn said_before(lines: Seq<Seq<char>>, i: int) -> int
    decreases i,
{
    if i <= 0 {
        0
    } else {
        said_before(lines, i - 1) + if says(lines[i - 1]) {
            1int
        } else {
            0
        }
    }
}

/// The line is neither empty nor a comment.
pub open spec fn says(line: Seq<char>) -> bool {
    trimmed(line).len() > 0 && trimmed(line)[0] != '#'
}

/// The line is a URL that can be taken.
pub open spec fn is_listed(line: Seq<char>) -> bool {
    url_of(trimmed(line)) matches Some(parts) && parts.scheme == "https"@ && parts.host is Some
}

proof fn lemma_said(lines: Seq<Seq<char>>, more: Seq<Seq<char>>, i: int)
    requires
        0 <= i <= lines.len() <= more.len(),
        more.take(lines.len() as int) == lines,
    ensures
        said_before(lines, i) == said_before(more, i),
        0 <= said_before(lines, i) <= i,
    decreases i,
{
    if i > 0 {
        lemma_said(lines, more, i - 1);
        assert(more.take(lines.len() as int)[i - 1] == more[i - 1]);
    }
}

proof fn lemma_said_order(lines: Seq<Seq<char>>, i: int, j: int)
    requires
        0 <= i <= j,
    ensures
        said_before(lines, i) <= said_before(lines, j),
    decreases j,
{
    if i < j {
        lemma_said_order(lines, i, j - 1);
    }
}

proof fn lemma_next_line(lines: Seq<Seq<char>>, list: Seq<UrlParts>)
    requires
        lines.len() > 0,
        read_urls(lines.drop_last()) == Ok::<Seq<UrlParts>, ServerListError>(list),
    ensures
        ({
            let last = lines.last();
            let line = trimmed(last);
            let number = lines.len() as u64;
            let r = read_urls(lines);
            &&& !says(last) ==> r == Ok::<Seq<UrlParts>, ServerListError>(list)
            &&& says(last) && is_listed(last) ==> r == Ok::<Seq<UrlParts>, ServerListError>(
                list.push(base_url(line, url_of(line)->0)),
            )
            &&& says(last) && url_of(line) is None ==> r == Err::<Seq<UrlParts>, ServerListError>(
                ServerListError::InvalidUrl { line: number },
            )
            &&& says(last) && url_of(line) is Some && !is_listed(last) ==> r == Err::<
                Seq<UrlParts>,
                ServerListError,
            >(ServerListError::NotHttps { line: number })
        }),
{
}

/// The lines and the URLs that were read of them belong together.
spec fn urls_read(lines: Seq<Seq<char>>, list: Seq<UrlParts>) -> bool {
    &&& list.len() == said_before(lines, lines.len() as int)
    &&& forall|i: int|
        0 <= i < lines.len() && says(#[trigger] lines[i]) ==> {
            &&& is_listed(lines[i])
            &&& 0 <= said_before(lines, i) < list.len()
            &&& list[said_before(lines, i)] == base_url(
                trimmed(lines[i]),
                url_of(trimmed(lines[i]))->0,
            )
        }
}

/// The error is about the first line that cannot be taken.
spec fn urls_refused(lines: Seq<Seq<char>>, e: ServerListError) -> bool {
    let n = match e {
        ServerListError::InvalidUrl { line } => line as int,
        ServerListError::NotHttps { line } => line as int,
    };
    &&& 1 <= n <= lines.len()
    &&& says(lines[n - 1])
    &&& !is_listed(lines[n - 1])
    &&& e is InvalidUrl <==> url_of(trimmed(lines[n - 1])) is None
    &&& forall|i: int| 0 <= i < n - 1 && says(#[trigger] lines[i]) ==> is_listed(lines[i])
}

proof fn lemma_more_urls(lines: Seq<Seq<char>>, list: Seq<UrlParts>, after: Seq<UrlParts>)
    requires
        lines.len() > 0,
        urls_read(lines.drop_last(), list),
        !says(lines.last()) ==> after == list,
        says(lines.last()) ==> is_listed(lines.last()) && after == list.push(
            base_url(trimmed(lines.last()), url_of(trimmed(lines.last()))->0),
        ),
    ensures
        urls_read(lines, after),
{
    let head = lines.drop_last();
    let n = lines.len() - 1;
    assert(lines.take(head.len() as int) =~= head);
    lemma_said(head, lines, n);
    assert forall|i: int| 0 <= i < lines.len() && says(#[trigger] lines[i]) implies is_listed(
        lines[i],
    ) && 0 <= said_before(lines, i) < after.len() && after[said_before(lines, i)] == base_url(
        trimmed(lines[i]),
        url_of(trimmed(lines[i]))->0,
    ) by {
        if i < n {
            assert(says(head[i]));
            lemma_said(head, lines, i);
        }
    }
}

proof fn lemma_read_urls(lines: Seq<Seq<char>>)
    requires
        lines.len() <= u64::MAX,
    ensures
        match read_urls(lines) {
            Ok(list) => urls_read(lines, list),
            Err(e) => urls_refused(lines, e),
        },
    decreases lines.len(),
{
    if lines.len() > 0 {
        let head = lines.drop_last();
        let n = lines.len() - 1;
        lemma_read_urls(head);
        match read_urls(head) {
            Ok(list) => {
                lemma_next_line(lines, list);
                match read_urls(lines) {
                    Ok(after) => {
                        lemma_more_urls(lines, list, after);
                    },
                    Err(e) => {
                        assert forall|i: int|
                            0 <= i < n && says(#[trigger] lines[i]) implies is_listed(lines[i]) by {
                            assert(says(head[i]));
                        }
                    },
                }
            },
            Err(e) => {
                let m = match e {
                    ServerListError::InvalidUrl { line } => line as int,
                    ServerListError::NotHttps { line } => line as int,
                };
                assert(head[m - 1] == lines[m - 1]);
                assert forall|i: int|
                    0 <= i < m - 1 && says(#[trigger] lines[i]) implies is_listed(lines[i]) by {
                    assert(says(head[i]));
                }
            },
        }
    }
}

/// A list is read line by line: each line that says something is a URL that
/// can be taken, and is the next one. A path without a slash at the end gets
/// one. If no line says anything, the default stands.
pub proof fn listed_servers_are_read_in_order(
    contents: &str,
    urls: Vec<Url>,
    i: int,
    fallback: Vec<Url>,
)
    requires
        call_ensures(parse, (contents,), Ok::<Vec<Url>, ServerListError>(urls)),
        call_ensures(defaults, (), fallback),
        0 <= i < lines_of(contents@).len() <= u64::MAX,
        says(lines_of(contents@)[i]),
    ensures
        ({
            let lines = lines_of(contents@);
            let line = trimmed(lines[i]);
            let k = said_before(lines, i);
            let parts = url_of(line)->0;
            &&& urls@.len() == said_before(lines, lines.len() as int)
            &&& is_listed(lines[i])
            &&& 0 <= k < urls@.len()
            &&& parts.path.len() > 0 && parts.path.last() == '/' ==> urls@[k].text@ == parts.text
                && urls@[k].path@ == parts.path
            &&& !(parts.path.len() > 0 && parts.path.last() == '/') ==> urls@[k]@ == url_with_path(
                line,
                parts.path.push('/'),
            )
            &&& urls@[k].scheme@ == "https"@
            &&& urls@[k].host is Some
            &&& urls@[k].path@.last() == '/'
        }),
{
    let lines = lines_of(contents@);
    lemma_read_urls(lines);
    assert(lines.take(lines.len() as int) =~= lines);
    lemma_said(lines, lines, i);
    lemma_said_order(lines, i + 1, lines.len() as int);
    let k = said_before(lines, i);
    assert(url_list(urls@).len() == urls@.len());
    assert(url_list(urls@)[k] == urls@[k]@);
    assert(is_base_url(urls@[k]@));
    assert(urls@[k]@.host is Some);
}

/// A list that says nothing stands for the default.
pub proof fn empty_lists_stand_for_the_default(contents: &str, r: Result<Vec<Url>, ServerListError>)
    requires
        call_ensures(parse, (contents,), r),
        lines_of(contents@).len() <= u64::MAX,
        forall|i: int|
            0 <= i < lines_of(contents@).len() ==> !says(#[trigger] lines_of(contents@)[i]),
    ensures
        r matches Ok(urls) && urls@.len() == 1 && urls@[0].text@
            == "https://pg.ddnet.org:4444/ddnet/15/"@,
{
    let lines = lines_of(contents@);
    lemma_read_urls(lines);
    lemma_nothing_said(lines, lines.len() as int);
    if let Ok(urls) = r {
        assert(url_list(urls@).len() == urls@.len());
        assert(url_list(urls@)[0] == urls@[0]@);
    }
}

proof fn lemma_nothing_said(lines: Seq<Seq<char>>, i: int)
    requires
        0 <= i <= lines.len(),
        forall|k: int| 0 <= k < lines.len() ==> !says(#[trigger] lines[k]),
    ensures
        said_before(lines, i) == 0,
    decreases i,
{
    if i > 0 {
        lemma_nothing_said(lines, i - 1);
        assert(!says(lines[i - 1]));
    }
}

/// A list is refused for its first line that cannot be taken, and only then.
pub proof fn first_line_that_cannot_be_taken_is_told(contents: &str, e: ServerListError, i: int)
    requires
        call_ensures(parse, (contents,), Err::<Vec<Url>, ServerListError>(e)),
        lines_of(contents@).len() <= u64::MAX,
    ensures
        ({
            let n = match e {
                ServerListError::InvalidUrl { line } => line as int,
                ServerListError::NotHttps { line } => line as int,
            };
            let lines = lines_of(contents@);
            &&& 1 <= n <= lines.len()
            &&& says(lines[n - 1])
            &&& !is_listed(lines[n - 1])
            &&& e is InvalidUrl <==> url_of(trimmed(lines[n - 1])) is None
            &&& 0 <= i < n - 1 && says(lines[i]) ==> is_listed(lines[i])
        }),
{
    lemma_read_urls(lines_of(contents@));
}

/// A file that can be read counts as it is parsed. Otherwise the default
/// stands.
pub proof fn files_that_cannot_be_used_give_way(
    file: ListFile,
    r: Vec<Url>,
    contents: &str,
    parsed: Result<Vec<Url>, ServerListError>,
    k: int,
)
    requires
        call_ensures(load, (file,), r),
        call_ensures(parse, (contents,), parsed),
        file matches ListFile::Contents(bytes) ==> valid_utf8(bytes@) ==> contents@ == decode_utf8(
            bytes@,
        ),
    ensures
        ({
            let readable = file matches ListFile::Contents(bytes) && valid_utf8(bytes@);
            &&& readable && parsed is Ok ==> r@.len() == parsed->Ok_0@.len() && (0 <= k < r@.len()
                ==> r@[k].text@ == parsed->Ok_0@[k].text@ && r@[k].path@ == parsed->Ok_0@[k].path@)
            &&& !readable || parsed is Err ==> r@.len() == 1 && r@[0].text@
                == "https://pg.ddnet.org:4444/ddnet/15/"@
        }),
{
    assert(url_list(r@).len() == r@.len());
    let readable = file matches ListFile::Contents(bytes) && valid_utf8(bytes@);
    if readable && parsed is Ok {
        let urls = parsed->Ok_0;
        assert(url_list(urls@) == url_list(r@));
        assert(url_list(urls@).len() == urls@.len());
        if 0 <= k < r@.len() {
            assert(url_list(r@)[k] == r@[k]@);
            assert(url_list(urls@)[k] == urls@[k]@);
        }
    } else {
        assert(url_list(r@)[0] == r@[0]@);
    }
}

/// A relative URL is joined to the base.
pub proof fn urls_are_joined_to_their_base(url: &Url, relative: &str, r: Option<String>)
    requires
        call_ensures(Url::join, (url, relative), r),
    ensures
        r is Some <==> url_joined(url.text@, relative@) is Some,
        r matches Some(joined) ==> url_joined(url.text@, relative@) == Some(joined@),
{
}

} // verus!
