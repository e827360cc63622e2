use git_repository::bootstrap::Loaded;
use git_repository::cache::Options;
use git_repository::error::{Error, ResolutionErrorKind};
use git_repository::file::{File, Metadata, Source, Trust};
use git_repository::follow::{is_followed, Env, Resolution, Wanted};
use git_repository::path::{Context, InterpolateError};
use git_repository::scan::ParseErrorKind;

fn env(files: &[(&[u8], Loaded)]) -> Env {
    Env {
        git_dir: Some(b"/home/me/work/repo/.git".to_vec()),
        branch: None,
        context: Context {
            git_install_dir: None,
            home_dir: Some(b"/home/me".to_vec()),
            home_for_user: true,
        },
        files: files.iter().map(|(p, l)| (p.to_vec(), clone(l))).collect(),
        homes: Vec::new(),
        options: Options::new(),
        lenient: false,
    }
}

fn clone(l: &Loaded) -> Loaded {
    match l {
        Loaded::Absent => Loaded::Absent,
        Loaded::Bytes(b) => Loaded::Bytes(b.clone()),
        Loaded::Failed(r) => Loaded::Failed(r.clone()),
    }
}

fn bytes(text: &[u8]) -> Loaded {
    Loaded::Bytes(text.to_vec())
}

fn meta() -> Metadata {
    Metadata::from(Source::Global).at(b"/home/me/.gitconfig".to_vec())
}

fn resolve(text: &[u8], env: &Env) -> Result<Resolution, Error> {
    File::from_bytes_resolved(text, &meta(), env)
}

fn done(text: &[u8], env: &Env) -> File {
    match resolve(text, env) {
        Ok(Resolution::Done(f)) => f,
        other => panic!("unexpected {:?}", other),
    }
}

#[test]
fn nested_file_lies_where_it_is_named() {
    let top = b"[a]\n\tk = top-before\n[include]\n\tpath = /etc/extra\n[a]\n\tj = top-after\n";
    let extra = b"[a]\n\tk = nested\n\tj = nested\n";
    let file = done(top, &env(&[(b"/etc/extra", bytes(extra))]));
    assert_eq!(file.string_by_key("a.k"), Some(b"nested".to_vec()));
    assert_eq!(file.string_by_key("a.j"), Some(b"top-after".to_vec()));
    assert_eq!(file.strings_by_key("a.k"), vec![b"top-before".to_vec(), b"nested".to_vec()]);
    assert_eq!(file.sections.len(), 4);
    assert_eq!(file.sections[2].meta.path, Some(b"/etc/extra".to_vec()));
    assert_eq!(file.sections[2].meta.level, 1);
    assert_eq!(file.sections[2].meta.source, Source::Global);
    assert_eq!(file.sections[3].meta.level, 0);
}

#[test]
fn missing_lookup_is_asked_for() {
    let top = b"[include]\n\tpath = extra\n\tpath = ~byron/cfg\n";
    assert_eq!(
        resolve(top, &env(&[])),
        Ok(Resolution::Needs(Wanted::File(b"/home/me/extra".to_vec())))
    );
    let mut known = env(&[(b"/home/me/extra", Loaded::Absent)]);
    assert_eq!(resolve(top, &known), Ok(Resolution::Needs(Wanted::Home(b"byron".to_vec()))));
    known.homes.push((b"byron".to_vec(), Some(b"/home/byron".to_vec())));
    assert_eq!(
        resolve(top, &known),
        Ok(Resolution::Needs(Wanted::File(b"/home/byron/cfg".to_vec())))
    );
    known.files.push((b"/home/byron/cfg".to_vec(), bytes(b"[x]\n\ty = z\n")));
    let file = match resolve(top, &known) {
        Ok(Resolution::Done(f)) => f,
        other => panic!("unexpected {:?}", other),
    };
    assert_eq!(file.string_by_key("x.y"), Some(b"z".to_vec()));
}

#[test]
fn several_paths_and_nested_levels_are_followed_in_order() {
    let top = b"[include]\n\tpath = /one\n\tpath = /two\n";
    let one = b"[v]\n\tk = one\n[include]\n\tpath = inner\n";
    let inner = b"[v]\n\tk = inner\n";
    let two = b"[v]\n\tk = two\n";
    let file = done(
        top,
        &env(&[(b"/one", bytes(one)), (b"/inner", bytes(inner)), (b"/two", bytes(two))]),
    );
    assert_eq!(
        file.strings_by_key("v.k"),
        vec![b"one".to_vec(), b"inner".to_vec(), b"two".to_vec()]
    );
    let levels: Vec<u8> = file.sections.iter().map(|s| s.meta.level).collect();
    assert_eq!(levels, vec![0, 1, 1, 2, 1]);
}

#[test]
fn nesting_is_capped() {
    let mut known = env(&[(b"/loop", bytes(b"[v]\n\tk = x\n[include]\n\tpath = /loop\n"))]);
    known.options.max_depth = 3;
    assert_eq!(
        resolve(b"[include]\n\tpath = /loop\n", &known),
        Err(Error::IncludeResolution { path: b"/loop".to_vec(), kind: ResolutionErrorKind::TooDeep })
    );
    known.lenient = true;
    let file = done(b"[include]\n\tpath = /loop\n", &known);
    assert_eq!(file.strings_by_key("v.k").len(), 3);
    known.options.max_depth = 0;
    let file = done(b"[include]\n\tpath = /loop\n", &known);
    assert_eq!(file.sections.len(), 1);
}

#[test]
fn no_follow_needs_no_lookups() {
    let mut known = env(&[]);
    known.options = known.options.no_follow();
    let text = b"[include]\n\tpath = /missing\n[includeIf \"onbranch:main\"]\n\tpath = x\n";
    assert_eq!(done(text, &known).to_bytes(), text.to_vec());
}

#[test]
fn reduced_trust_is_never_followed() {
    let known = env(&[(b"/etc/extra", bytes(b"[a]\n\tk = nested\n"))]);
    let reduced = meta().with(Trust::Reduced);
    let text = b"[include]\n\tpath = /etc/extra\n";
    match File::from_bytes_resolved(text, &reduced, &known) {
        Ok(Resolution::Done(f)) => {
            assert_eq!(f.sections.len(), 1);
            assert_eq!(f.string_by_key("a.k"), None);
        }
        other => panic!("unexpected {:?}", other),
    }
    let file = File::from_bytes(text, &reduced, false).unwrap();
    assert!(!is_followed(&file.sections[0], &Vec::new(), &known));
    let file = File::from_bytes(text, &meta(), false).unwrap();
    assert!(is_followed(&file.sections[0], &Vec::new(), &known));
}

#[test]
fn onbranch_waits_for_the_branch() {
    let text = b"[includeIf \"onbranch:main\"]\n\tpath = /b\n[includeIf \"onbranch:feat/\"]\n\tpath = /f\n";
    let mut known = env(&[(b"/b", bytes(b"[v]\n\tk = main\n")), (b"/f", bytes(b"[v]\n\tk = feat\n"))]);
    assert_eq!(done(text, &known).string_by_key("v.k"), None);
    known.branch = Some(b"main".to_vec());
    assert_eq!(done(text, &known).strings_by_key("v.k"), vec![b"main".to_vec()]);
    known.branch = Some(b"feat/deep/er".to_vec());
    assert_eq!(done(text, &known).strings_by_key("v.k"), vec![b"feat".to_vec()]);
    known.branch = Some(b"other".to_vec());
    assert_eq!(done(text, &known).string_by_key("v.k"), None);
}

#[test]
fn gitdir_conditions_match_the_directory_of_the_repository() {
    let known = env(&[(b"/x", bytes(b"[v]\n\tk = hit\n"))]);
    let hits: [&[u8]; 7] = [
        b"gitdir:/home/me/work/",
        b"gitdir:/home/me/work/repo/.git",
        b"gitdir:~/work/",
        b"gitdir:work/",
        b"gitdir:repo/.git",
        b"gitdir/i:/HOME/me/WORK/",
        b"gitdir:./work/*/.git",
    ];
    let misses: [&[u8]; 6] = [
        b"gitdir:/home/you/",
        b"gitdir:/HOME/me/work/",
        b"gitdir:/home/me/work",
        b"gitdir:~/play/",
        b"gitdir:./play/",
        b"gitdir/i:/home/you/",
    ];
    for cond in hits {
        let mut text = b"[includeIf \"".to_vec();
        text.extend_from_slice(cond);
        text.extend_from_slice(b"\"]\n\tpath = /x\n");
        assert_eq!(done(&text, &known).string_by_key("v.k"), Some(b"hit".to_vec()));
    }
    for cond in misses {
        let mut text = b"[includeIf \"".to_vec();
        text.extend_from_slice(cond);
        text.extend_from_slice(b"\"]\n\tpath = /x\n");
        assert_eq!(done(&text, &known).string_by_key("v.k"), None);
    }
    let mut nowhere = env(&[(b"/x", bytes(b"[v]\n\tk = hit\n"))]);
    nowhere.git_dir = None;
    assert_eq!(
        done(b"[includeIf \"gitdir:/home/me/work/\"]\n\tpath = /x\n", &nowhere).string_by_key("v.k"),
        None
    );
}

#[test]
fn hasconfig_sees_what_was_resolved_before() {
    let known = env(&[(b"/x", bytes(b"[v]\n\tk = hit\n"))]);
    let after = b"[remote \"o\"]\n\turl = https://example.com/r\n[includeIf \"hasconfig:remote.*.url:https://example.com/**\"]\n\tpath = /x\n";
    assert_eq!(done(after, &known).string_by_key("v.k"), Some(b"hit".to_vec()));
    let before = b"[includeIf \"hasconfig:remote.*.url:https://example.com/**\"]\n\tpath = /x\n[remote \"o\"]\n\turl = https://example.com/r\n";
    assert_eq!(done(before, &known).string_by_key("v.k"), None);
    let other = b"[remote \"o\"]\n\turl = https://elsewhere.org/r\n[includeIf \"hasconfig:remote.*.url:https://example.com/**\"]\n\tpath = /x\n";
    assert_eq!(done(other, &known).string_by_key("v.k"), None);
    let exact = b"[remote \"o\"]\n\turl = u\n[includeIf \"hasconfig:remote.o.url:u\"]\n\tpath = /x\n[includeIf \"hasconfig:remote.p.url:u\"]\n\tpath = /nowhere\n";
    assert_eq!(done(exact, &known).string_by_key("v.k"), Some(b"hit".to_vec()));
}

#[test]
fn unknown_conditions_are_passed_over() {
    let known = env(&[]);
    let text = b"[includeIf \"phase-of-moon:full\"]\n\tpath = /x\n[includeIf]\n\tpath = /y\n[includeIf \"gitdir\"]\n\tpath = /z\n";
    assert_eq!(done(text, &known).to_bytes(), text.to_vec());
}

#[test]
fn files_that_are_absent_are_passed_over_and_unreadable_ones_fail() {
    let text = b"[include]\n\tpath = /gone\n\tpath = /bad\n";
    let known = env(&[(b"/gone", Loaded::Absent), (b"/bad", Loaded::Failed(b"denied".to_vec()))]);
    assert_eq!(
        resolve(text, &known),
        Err(Error::Io { path: b"/bad".to_vec(), source: Source::Global, reason: b"denied".to_vec() })
    );
    let mut lenient = env(&[(b"/gone", Loaded::Absent), (b"/bad", bytes(b"[broken\n"))]);
    lenient.lenient = true;
    match resolve(text, &lenient) {
        Err(Error::Parse { path, source, error }) => {
            assert_eq!(path, b"/bad".to_vec());
            assert_eq!(source, Source::Global);
            assert_eq!(error.kind, ParseErrorKind::BadHeader);
        }
        other => panic!("unexpected {:?}", other),
    }
    match resolve(b"[broken\n", &lenient) {
        Err(Error::Parse { path, .. }) => assert_eq!(path, b"/home/me/.gitconfig".to_vec()),
        other => panic!("unexpected {:?}", other),
    }
}

#[test]
fn paths_that_lead_nowhere_fail_unless_lenient() {
    let mut known = env(&[(b"/ok", bytes(b"[v]\n\tk = ok\n"))]);
    known.context.home_dir = None;
    known.homes.push((b"ghost".to_vec(), None));
    let text = b"[include]\n\tpath = ~/x\n\tpath = /ok\n";
    assert_eq!(
        resolve(text, &known),
        Err(Error::IncludeResolution {
            path: b"~/x".to_vec(),
            kind: ResolutionErrorKind::Interpolate(InterpolateError::NoHome),
        })
    );
    assert_eq!(
        resolve(b"[include]\n\tpath = ~ghost/x\n", &known),
        Err(Error::IncludeResolution {
            path: b"~ghost/x".to_vec(),
            kind: ResolutionErrorKind::Interpolate(InterpolateError::UnknownUser),
        })
    );
    assert_eq!(
        resolve(b"[include]\n\tpath\n", &known),
        Err(Error::IncludeResolution {
            path: Vec::new(),
            kind: ResolutionErrorKind::Interpolate(InterpolateError::Empty),
        })
    );
    assert_eq!(
        File::from_bytes_resolved(b"[include]\n\tpath = rel\n", &Metadata::from(Source::Cli), &known),
        Err(Error::IncludeResolution { path: b"rel".to_vec(), kind: ResolutionErrorKind::NoBase })
    );
    known.lenient = true;
    assert_eq!(done(text, &known).string_by_key("v.k"), Some(b"ok".to_vec()));
}
