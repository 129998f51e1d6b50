use ddnet_rs::server_list::{check_line, defaults, load, parse, ListFile, ServerListError, Url};

#[test]
fn base_urls_and_endpoints() {
    let urls = parse(
        "# local masters\nhttps://localhost:4444/ddnet/15\n\nhttps://[::1]:4445/custom/\n",
    )
    .unwrap();
    assert_eq!(urls.len(), 2);
    assert_eq!(
        urls[0].join("servers.json").unwrap().as_str(),
        "https://localhost:4444/ddnet/15/servers.json"
    );
    assert_eq!(
        urls[1].join("register").unwrap().as_str(),
        "https://[::1]:4445/custom/register"
    );
    assert_eq!(parse("").unwrap(), defaults());
    assert_eq!(parse("# no entries\n").unwrap(), defaults());
    assert!(parse("http://localhost:4444/").is_err());
    assert!(parse("invalid").is_err());
}

#[test]
fn default_url_is_what_the_parser_makes_of_it() {
    let parsed = parse("https://pg.ddnet.org:4444/ddnet/15/").unwrap();
    assert_eq!(parsed, defaults());
}

#[test]
fn errors_name_the_line() {
    assert_eq!(
        parse("\nhttp://localhost:4444/"),
        Err(ServerListError::NotHttps { line: 2 })
    );
    assert_eq!(
        parse("https://a/\n#\ninvalid\nhttp://b/"),
        Err(ServerListError::InvalidUrl { line: 3 })
    );
}

#[test]
fn slash_is_added_to_the_path_only() {
    let urls = parse("https://host/a%20b?q=1").unwrap();
    assert_eq!(urls[0].path, "/a%20b/");
    assert_eq!(urls[0].text, "https://host/a%20b/?q=1");
    assert_eq!(urls[0].host.as_deref(), Some("host"));
}

#[test]
fn broken_files_stand_for_the_default() {
    assert_eq!(load(ListFile::Missing), defaults());
    assert_eq!(load(ListFile::Unreadable), defaults());
    assert_eq!(load(ListFile::Contents(vec![0xff])), defaults());
    assert_eq!(load(ListFile::Contents(b"ftp://x/".to_vec())), defaults());
    let urls = load(ListFile::Contents(b"https://example.org/x".to_vec()));
    assert_eq!(urls[0].text, "https://example.org/x/");
}

#[test]
fn lines_are_checked_once_they_are_read() {
    let url = |scheme: &str, path: &str| Url {
        text: "text".to_owned(),
        scheme: scheme.to_owned(),
        host: Some("host".to_owned()),
        path: path.to_owned(),
    };
    assert_eq!(
        check_line(Some(url("https", "/a/")), 1),
        Ok((url("https", "/a/"), None))
    );
    assert_eq!(
        check_line(Some(url("https", "/a")), 1),
        Ok((url("https", "/a"), Some("/a/".to_owned())))
    );
    assert_eq!(
        check_line(Some(url("http", "/a/")), 7),
        Err(ServerListError::NotHttps { line: 7 })
    );
    let hostless = Url {
        host: None,
        ..url("https", "/")
    };
    assert_eq!(
        check_line(Some(hostless), 7),
        Err(ServerListError::NotHttps { line: 7 })
    );
    assert_eq!(
        check_line(None, 7),
        Err(ServerListError::InvalidUrl { line: 7 })
    );
}
