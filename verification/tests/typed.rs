use git_repository::file::{Everything, File, Metadata, NotFrom, Source};
use git_repository::keys::{Core, Extensions, Gitoxide, Kind};
use git_repository::organize::{into_workdir, is_repository};
use git_repository::path::{file_name, Context, Expansion};

fn read(text: &[u8]) -> File {
    File::from_bytes(text, &Metadata::from(Source::Local), false).expect("valid text")
}

fn context() -> Context {
    Context { git_install_dir: None, home_dir: Some(b"/home/me".to_vec()), home_for_user: false }
}

#[test]
fn reads_by_descriptor_find_and_coerce() {
    let file = read(b"[core]\n\tbare = yes\n\tdeltaBaseCacheLimit = 2m\n\tabbrev = 9\n[gitoxide \"objects\"]\n\tcacheLimit = 1k\n[extensions]\n\tworktreeConfig\n");
    assert_eq!(file.boolean_for(&Core::bare(), &Everything), Some(Ok(true)));
    assert_eq!(file.boolean_for(&Extensions::worktree_config(), &Everything), Some(Ok(true)));
    assert_eq!(file.size_for(&Core::delta_base_cache_limit(), &Everything), Some(Ok(2097152)));
    assert_eq!(file.size_for(&Gitoxide::objects_cache_limit(), &Everything), Some(Ok(1024)));
    assert_eq!(file.integer_for(&Core::abbrev(), &Everything), Some(Ok(9)));
    assert_eq!(file.string_for(&Core::abbrev(), &Everything), Some(b"9".to_vec()));
    assert_eq!(file.boolean_for(&Core::disambiguate(), &Everything), None);
    assert_eq!(file.size_for(&Core::repository_format_version(), &Everything), None);
    assert_eq!(file.boolean_for(&Core::bare(), &NotFrom(Source::Local)), None);
}

#[test]
fn reads_by_descriptor_name_the_key_in_errors() {
    let file = read(b"[core]\n\tbare = 2\n\tdeltaBaseCacheLimit = -2\n\tabbrev = x\n");
    let e = file.boolean_for(&Core::bare(), &Everything).unwrap().unwrap_err();
    assert_eq!((e.key, e.value, e.kind), (b"core.bare".to_vec(), b"2".to_vec(), Kind::Boolean));
    let e = file.size_for(&Core::delta_base_cache_limit(), &Everything).unwrap().unwrap_err();
    assert_eq!(
        (e.key, e.value, e.kind),
        (b"core.deltaBaseCacheLimit".to_vec(), b"-2".to_vec(), Kind::Unsigned)
    );
    let e = file.integer_for(&Core::abbrev(), &Everything).unwrap().unwrap_err();
    assert_eq!((e.key, e.value), (b"core.abbrev".to_vec(), b"x".to_vec()));
}

#[test]
fn paths_are_read_and_expanded() {
    let file = read(b"[core]\n\texcludesFile = ~/.gitignore\n");
    assert_eq!(
        file.path_for(&Core::excludes_file(), &context(), &Everything),
        Some(Ok(Expansion::Done(b"/home/me/.gitignore".to_vec())))
    );
    assert_eq!(file.path_for(&Core::bare(), &context(), &Everything), None);
    let file = read(b"[core]\n\texcludesFile = ~byron/.gitignore\n");
    let e = file.path_for(&Core::excludes_file(), &context(), &Everything).unwrap().unwrap_err();
    assert_eq!(
        (e.key, e.value, e.kind),
        (b"core.excludesFile".to_vec(), b"~byron/.gitignore".to_vec(), Kind::Path)
    );
    let mut open = context();
    open.home_for_user = true;
    assert_eq!(
        Core::excludes_file().try_into_path(b"~byron/.gitignore", &open),
        Ok(Expansion::User { user: b"byron".to_vec(), rest: b".gitignore".to_vec() })
    );
    assert!(Core::excludes_file().try_into_path(b"", &open).is_err());
}

#[test]
fn repositories_are_known_by_name_and_content() {
    assert!(is_repository(b"/a/b/.git", true, true, true));
    assert!(is_repository(b".git", true, true, true));
    assert!(!is_repository(b"/a/b/.git", false, true, true));
    assert!(!is_repository(b"/a/b/.git", true, false, true));
    assert!(!is_repository(b"/a/b/.git", true, true, false));
    assert!(!is_repository(b"/a/b/x.git", true, true, true));
    assert!(!is_repository(b"/a/.git/b", true, true, true));
    assert_eq!(file_name(b"/a/b/.git"), b".git");
    assert_eq!(file_name(b"name"), b"name");
    assert_eq!(file_name(b"/a/"), b"");
}

#[test]
fn workdir_is_the_parent_unless_bare() {
    assert_eq!(into_workdir(b"/a/b/.git", true), b"/a/b".to_vec());
    assert_eq!(into_workdir(b"/a/b/bare.git", false), b"/a/b/bare.git".to_vec());
    assert_eq!(into_workdir(b"/.git", true), b"/".to_vec());
}
