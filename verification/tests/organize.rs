use git_repository::organize::{
    find_origin, outcome, parse_line, plan, remotes_from_git_remote_verbose, Action, Mode,
    PlanError, RemoteError, RemoteErrorKind,
};
use git_repository::url::{Protocol, Url, UserExpansion};

const GITOXIDE_REMOTES: &[u8] = b"commitgraph\thttps://github.com/avoidscorn/gitoxide (fetch)
commitgraph\thttps://github.com/avoidscorn/gitoxide (push)
origin\thttps://github.com/Byron/gitoxide (fetch)
origin\thttps://github.com/Byron/gitoxide (push)
rad\trad://hynkuwzskprmswzeo4qdtku7grdrs4ffj3g9tjdxomgmjzhtzpqf81@hwd1yregyf1dudqwkx85x5ps3qsrqw3ihxpx3ieopq6ukuuq597p6m8161c.git (fetch)
rad\trad://hynkuwzskprmswzeo4qdtku7grdrs4ffj3g9tjdxomgmjzhtzpqf81@hwd1yregyf1dudqwkx85x5ps3qsrqw3ihxpx3ieopq6ukuuq597p6m8161c.git (push)
";

fn url(input: &str) -> Vec<u8> {
    input.as_bytes().to_vec()
}

fn remote(host: Option<&str>, path: &[u8]) -> Url {
    Url {
        protocol: Protocol::Https,
        user: None,
        host: host.map(|h| h.to_string()),
        port: None,
        path: path.to_vec(),
        expand_user: None,
    }
}

#[test]
fn valid_verbose_remotes() {
    assert_eq!(
        remotes_from_git_remote_verbose(GITOXIDE_REMOTES).unwrap(),
        vec![
            (b"commitgraph".to_vec(), url("https://github.com/avoidscorn/gitoxide")),
            (b"commitgraph".to_vec(), url("https://github.com/avoidscorn/gitoxide")),
            (b"origin".to_vec(), url("https://github.com/Byron/gitoxide")),
            (b"origin".to_vec(), url("https://github.com/Byron/gitoxide")),
            (
                b"rad".to_vec(),
                url("rad://hynkuwzskprmswzeo4qdtku7grdrs4ffj3g9tjdxomgmjzhtzpqf81@hwd1yregyf1dudqwkx85x5ps3qsrqw3ihxpx3ieopq6ukuuq597p6m8161c.git")
            ),
            (
                b"rad".to_vec(),
                url("rad://hynkuwzskprmswzeo4qdtku7grdrs4ffj3g9tjdxomgmjzhtzpqf81@hwd1yregyf1dudqwkx85x5ps3qsrqw3ihxpx3ieopq6ukuuq597p6m8161c.git")
            )
        ]
    );
}

#[test]
fn blank_lines_are_passed_over_by_unicode_white_space() {
    let input = "\n \t \n\u{2003}\u{a0}\u{3000}\norigin\tssh://host/p (fetch)\n\u{2028}".as_bytes();
    assert_eq!(
        remotes_from_git_remote_verbose(input),
        Ok(vec![(b"origin".to_vec(), b"ssh://host/p".to_vec())])
    );
    assert_eq!(remotes_from_git_remote_verbose(b""), Ok(vec![]));
    assert_eq!(remotes_from_git_remote_verbose(b"\n\n"), Ok(vec![]));
}

#[test]
fn lines_without_separators_are_refused() {
    assert_eq!(
        remotes_from_git_remote_verbose(b"origin\tssh://host/p (fetch)\norigin ssh://host/p\nx\ty z\n"),
        Err(RemoteError { line: b"origin ssh://host/p".to_vec(), kind: RemoteErrorKind::NoTab })
    );
    assert_eq!(
        remotes_from_git_remote_verbose(b"origin\tssh://host/p"),
        Err(RemoteError { line: b"origin\tssh://host/p".to_vec(), kind: RemoteErrorKind::NoSpace })
    );
    assert_eq!(parse_line(b"a b"), Err(RemoteErrorKind::NoTab));
    assert_eq!(parse_line(b""), Err(RemoteErrorKind::NoTab));
    assert_eq!(parse_line(b"a b\tc"), Err(RemoteErrorKind::NoSpace));
    assert_eq!(parse_line(b"a b\tc d e"), Ok((b"a b".to_vec(), b"c".to_vec())));
    assert_eq!(parse_line(b"\t "), Ok((Vec::new(), Vec::new())));
}

#[test]
fn origin_is_the_first_remote_of_that_name() {
    let remotes = remotes_from_git_remote_verbose(GITOXIDE_REMOTES).unwrap();
    assert_eq!(find_origin(&remotes), Some(url("https://github.com/Byron/gitoxide")));
    assert_eq!(find_origin(&remotes[..2].to_vec()), None);
    assert_eq!(
        find_origin(&vec![
            (b"Origin".to_vec(), b"a".to_vec()),
            (b"origin".to_vec(), b"b".to_vec()),
            (b"origin".to_vec(), b"c".to_vec())
        ]),
        Some(b"b".to_vec())
    );
}

#[test]
fn mode_defaults_to_simulation() {
    assert!(Mode::default() == Mode::Simulate);
}

#[test]
fn repositories_are_planned_below_host_and_path() {
    let origin = remote(Some("github.com"), b"/Byron//gitoxide/./");
    assert_eq!(
        plan(Mode::Simulate, Some(&origin), b"/src/gitoxide", b"/sorted"),
        Ok(Action::WouldMove(b"/sorted/github.com/Byron/gitoxide".to_vec()))
    );
    assert_eq!(
        plan(Mode::Execute, Some(&origin), b"/src/gitoxide", b"/sorted/"),
        Ok(Action::Move(b"/sorted/github.com/Byron/gitoxide".to_vec()))
    );
    assert_eq!(
        plan(Mode::Execute, Some(&origin), b"/sorted/github.com/Byron/gitoxide", b"/sorted"),
        Ok(Action::SkipInPlace)
    );
    assert_eq!(
        plan(Mode::Simulate, Some(&origin), b"/sorted/github.com/Byron/gitoxide", b"/sorted"),
        Ok(Action::WouldMove(b"/sorted/github.com/Byron/gitoxide".to_vec()))
    );
}

#[test]
fn repositories_without_origin_path_or_host_are_not_moved() {
    assert_eq!(plan(Mode::Execute, None, b"/w", b"/d"), Ok(Action::SkipWithoutOrigin));
    assert_eq!(
        plan(Mode::Execute, Some(&remote(Some("h"), b"")), b"/w", b"/d"),
        Ok(Action::SkipWithoutPath)
    );
    assert_eq!(
        plan(Mode::Execute, Some(&remote(None, b"")), b"/w", b"/d"),
        Ok(Action::SkipWithoutPath)
    );
    assert_eq!(
        plan(Mode::Simulate, Some(&remote(None, b"/p")), b"/w", b"/d"),
        Err(PlanError::NoHost)
    );
}

#[test]
fn a_run_fails_if_any_repository_failed() {
    assert_eq!(outcome(0), Ok(()));
    assert_eq!(outcome(3), Err(3));
}

#[test]
fn default_url_is_an_empty_ssh_address() {
    let url = Url::default();
    assert_eq!(url.protocol, Protocol::Ssh);
    assert_eq!(url.user, None);
    assert_eq!(url.host, None);
    assert_eq!(url.port, None);
    assert!(url.path.is_empty());
    assert_eq!(url.expand_user, None);
}

#[test]
fn path_expands_below_the_home_of_the_user() {
    let mut url = remote(Some("h"), b"/byron/repo//x/");
    assert_eq!(
        url.expand_path_with(|_| panic!("nobody to expand")),
        Some(b"/byron/repo//x/".to_vec())
    );
    url.expand_user = Some(UserExpansion::Name("byron".to_string()));
    assert_eq!(
        url.expand_path_with(|user| match user {
            UserExpansion::Name(n) if n == "byron" => Some(b"/home/byron".to_vec()),
            _ => None,
        }),
        Some(b"/home/byron/byron/repo/x".to_vec())
    );
    assert_eq!(url.expand_path_with(|_| None), None);
    url.expand_user = Some(UserExpansion::Current);
    url.path = b"relative//path".to_vec();
    assert_eq!(
        url.expand_path_with(|user| match user {
            UserExpansion::Current => Some(b"/home/me/".to_vec()),
            _ => None,
        }),
        Some(b"/home/me/relative//path".to_vec())
    );
    assert_eq!(url.expand_path_from(Some(b"base".to_vec())), Some(b"base/relative//path".to_vec()));
    url.path = b"/".to_vec();
    assert_eq!(url.expand_path_from(Some(b"/home/me".to_vec())), Some(b"/home/me/".to_vec()));
    url.expand_user = None;
    assert_eq!(url.expand_path_from(Some(b"/home/me".to_vec())), Some(b"/".to_vec()));
}
