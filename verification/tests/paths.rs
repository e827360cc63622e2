use git_repository::glob::glob;
use git_repository::keys::{Core, Extensions, Gitoxide, Key, Kind, Section};
use git_repository::path::{
    finish_user, interpolate, join, make_relative, parent, to_relative, Context, Expansion,
    InterpolateError,
};
use git_repository::value::{ObjectHash, ObjectKindHint, ValueError, WriteReflog};

fn context() -> Context {
    Context {
        git_install_dir: Some(b"/opt/git".to_vec()),
        home_dir: Some(b"/home/me".to_vec()),
        home_for_user: true,
    }
}

#[test]
fn join_adds_a_separator_where_one_is_missing() {
    assert_eq!(join(b"/a", b"b"), b"/a/b".to_vec());
    assert_eq!(join(b"/a/", b"b"), b"/a/b".to_vec());
    assert_eq!(join(b"/a", b"/b"), b"/b".to_vec());
    assert_eq!(join(b"", b"b"), b"b".to_vec());
    assert_eq!(join(b"/a", b""), b"/a/".to_vec());
    assert_eq!(join(b"/", b"b/c"), b"/b/c".to_vec());
}

#[test]
fn relative_form_drops_root_and_empty_components() {
    assert_eq!(to_relative(b"/a/b"), b"a/b".to_vec());
    assert_eq!(to_relative(b"//a//b/./c/"), b"a/b/c".to_vec());
    assert_eq!(to_relative(b"/"), b"".to_vec());
    assert_eq!(to_relative(b""), b"".to_vec());
    assert_eq!(to_relative(b"a/../b"), b"a/../b".to_vec());
    assert_eq!(to_relative(b"./a/./b"), b"./a/b".to_vec());
    assert_eq!(to_relative(b"/./a"), b"a".to_vec());
    assert_eq!(make_relative(b"a//b"), b"a//b".to_vec());
    assert_eq!(make_relative(b"/a//b"), b"a/b".to_vec());
}

#[test]
fn parent_is_what_stands_in_front_of_the_last_separator() {
    assert_eq!(parent(b"/repo/.git/config"), b"/repo/.git".to_vec());
    assert_eq!(parent(b"/config"), b"/".to_vec());
    assert_eq!(parent(b"config"), b"".to_vec());
    assert_eq!(parent(b"a/b"), b"a".to_vec());
    assert_eq!(parent(b""), b"".to_vec());
}

#[test]
fn paths_expand_prefix_and_homes() {
    let ctx = context();
    assert_eq!(
        interpolate(b"%(prefix)/etc/gitconfig", &ctx),
        Ok(Expansion::Done(b"/opt/git/etc/gitconfig".to_vec()))
    );
    assert_eq!(interpolate(b"~/.gitconfig", &ctx), Ok(Expansion::Done(b"/home/me/.gitconfig".to_vec())));
    assert_eq!(
        interpolate(b"~byron/cfg/x", &ctx),
        Ok(Expansion::User { user: b"byron".to_vec(), rest: b"cfg/x".to_vec() })
    );
    assert_eq!(interpolate(b"/abs/path", &ctx), Ok(Expansion::Done(b"/abs/path".to_vec())));
    assert_eq!(interpolate(b"rel/path", &ctx), Ok(Expansion::Done(b"rel/path".to_vec())));
    assert_eq!(interpolate(b"%(prefix)x", &ctx), Ok(Expansion::Done(b"%(prefix)x".to_vec())));
    assert_eq!(finish_user(Some(b"/home/byron"), b"cfg/x"), Ok(b"/home/byron/cfg/x".to_vec()));
}

#[test]
fn paths_that_cannot_be_expanded_are_errors() {
    let bare = Context { git_install_dir: None, home_dir: None, home_for_user: false };
    assert_eq!(interpolate(b"", &bare), Err(InterpolateError::Empty));
    assert_eq!(interpolate(b"%(prefix)/x", &bare), Err(InterpolateError::NoInstallDir));
    assert_eq!(interpolate(b"~/x", &bare), Err(InterpolateError::NoHome));
    assert_eq!(interpolate(b"~byron/x", &bare), Err(InterpolateError::UserUnsupported));
    assert_eq!(interpolate(b"~byron", &bare), Err(InterpolateError::NoSeparator));
    assert_eq!(interpolate(b"~", &context()), Err(InterpolateError::NoSeparator));
    assert_eq!(finish_user(None, b"x"), Err(InterpolateError::UnknownUser));
}

#[test]
fn patterns_match_with_wildcards() {
    assert!(glob(b"main", b"main"));
    assert!(!glob(b"main", b"main2"));
    assert!(!glob(b"main", b"mai"));
    assert!(glob(b"", b""));
    assert!(!glob(b"", b"a"));
    assert!(glob(b"feat/*", b"feat/x"));
    assert!(!glob(b"feat/*", b"feat/x/y"));
    assert!(glob(b"feat/**", b"feat/x/y"));
    assert!(glob(b"**/.git", b"/home/me/repo/.git"));
    assert!(glob(b"/home/*/repo/**", b"/home/me/repo/.git"));
    assert!(!glob(b"/home/*/repo", b"/home/me/x/repo"));
    assert!(glob(b"a?c", b"abc"));
    assert!(!glob(b"a?c", b"a/c"));
    assert!(!glob(b"a?c", b"ac"));
    assert!(glob(b"*", b""));
    assert!(glob(b"*a*b*", b"xxaxxbxx"));
    assert!(!glob(b"*a*b*", b"xxbxxaxx"));
    assert!(!glob(b"Main", b"main"));
}

#[test]
fn keys_have_logical_names() {
    assert_eq!(Core::bare().logical_name(), b"core.bare".to_vec());
    assert_eq!(
        Core::repository_format_version().logical_name(),
        b"core.repositoryFormatVersion".to_vec()
    );
    assert_eq!(Core::log_all_ref_updates().logical_name(), b"core.logAllRefUpdates".to_vec());
    assert_eq!(Core::abbrev().logical_name(), b"core.abbrev".to_vec());
    assert_eq!(Core::delta_base_cache_limit().logical_name(), b"core.deltaBaseCacheLimit".to_vec());
    assert_eq!(Core::disambiguate().logical_name(), b"core.disambiguate".to_vec());
    assert_eq!(Extensions::worktree_config().logical_name(), b"extensions.worktreeConfig".to_vec());
    assert_eq!(Extensions::object_format().logical_name(), b"extensions.objectFormat".to_vec());
    assert_eq!(Gitoxide::objects_cache_limit().logical_name(), b"gitoxide.objects.cacheLimit".to_vec());
    assert_eq!(git_repository::keys::Clone::default_remote_name().logical_name(), b"clone.defaultRemoteName".to_vec());
}

#[test]
fn sections_list_their_keys() {
    assert_eq!(git_repository::keys::Clone.name(), "clone");
    let keys: Vec<Key> = git_repository::keys::Clone.keys();
    assert_eq!(keys.len(), 1);
    assert_eq!(keys[0].logical_name(), b"clone.defaultRemoteName".to_vec());
    assert_eq!(keys[0].kind, Kind::RemoteName);
    assert_eq!(Core.name(), "core");
    assert_eq!(Core.keys().len(), 7);
    assert_eq!(Extensions.name(), "extensions");
    assert_eq!(Extensions.keys().len(), 2);
    assert_eq!(Gitoxide.name(), "gitoxide");
    for key in Core.keys() {
        assert_eq!(key.section, Core.name());
    }
    for key in Extensions.keys() {
        assert_eq!(key.section, Extensions.name());
    }
    for key in Gitoxide.keys() {
        assert_eq!(key.section, Gitoxide.name());
        assert_eq!(key.subsection, Some("objects"));
    }
}

#[test]
fn coercion_errors_name_key_and_text() {
    let e = Core::bare().try_into_boolean(b"maybe").unwrap_err();
    assert_eq!(e.key, b"core.bare".to_vec());
    assert_eq!(e.value, b"maybe".to_vec());
    assert_eq!(e.kind, Kind::Boolean);
    assert_eq!(Core::bare().try_into_boolean(b"TRUE"), Ok(true));
    let e = Core::bare()
        .enrich_error::<bool>(Err(ValueError { value: b"x".to_vec() }))
        .unwrap_err();
    assert_eq!((e.key, e.value), (b"core.bare".to_vec(), b"x".to_vec()));
    assert_eq!(Core::bare().enrich_error(Ok(5u8)), Ok(5u8));
    assert_eq!(Core::delta_base_cache_limit().try_into_usize(b"4k"), Ok(4096));
    let e = Core::delta_base_cache_limit().try_into_usize(b"-4k").unwrap_err();
    assert_eq!((e.value, e.kind), (b"-4k".to_vec(), Kind::Unsigned));
    assert!(Core::delta_base_cache_limit().try_into_usize(b"abc").is_err());
    assert_eq!(Extensions::object_format().try_into_object_format(b"sha256"), Ok(ObjectHash::Sha256));
    let e = Extensions::object_format().try_into_object_format(b"sha3").unwrap_err();
    assert_eq!((e.key, e.value), (b"extensions.objectFormat".to_vec(), b"sha3".to_vec()));
    assert_eq!(Core::abbrev().try_into_abbreviation(b"12", ObjectHash::Sha1), Ok(Some(12)));
    assert!(Core::abbrev().try_into_abbreviation(b"2", ObjectHash::Sha1).is_err());
    assert_eq!(
        Core::disambiguate().try_into_object_kind_hint(b"blob"),
        Ok(Some(ObjectKindHint::Blob))
    );
    assert!(Core::disambiguate().try_into_object_kind_hint(b"bloob").is_err());
    let key = Core::log_all_ref_updates();
    assert_eq!(key.try_into_ref_updates(&None), Ok(None));
    assert_eq!(key.try_into_ref_updates(&Some(None)), Ok(Some(WriteReflog::Normal)));
    assert_eq!(key.try_into_ref_updates(&Some(Some(b"1".to_vec()))), Ok(Some(WriteReflog::Normal)));
    assert_eq!(key.try_into_ref_updates(&Some(Some(b"no".to_vec()))), Ok(Some(WriteReflog::Disable)));
    assert_eq!(key.try_into_ref_updates(&Some(Some(b"Always".to_vec()))), Ok(Some(WriteReflog::Always)));
    let e = key.try_into_ref_updates(&Some(Some(b"never".to_vec()))).unwrap_err();
    assert_eq!((e.value, e.kind), (b"never".to_vec(), Kind::RefUpdates));
}
