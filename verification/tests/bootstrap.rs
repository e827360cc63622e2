use git_repository::bootstrap::{load_config, object_hash, Loaded, StageOne};
use git_repository::cache::{
    base_options, config_bool, disambiguate_hint, interpolate_context, parse_core_abbrev,
    parse_object_caches, query_refupdates, reflog_or_default, Options,
};
use git_repository::error::Error;
use git_repository::file::{Everything, File, Metadata, NotFrom, Source, Trust};
use git_repository::keys::{Core, Extensions, Kind};
use git_repository::scan::ParseErrorKind;
use git_repository::trust::{lenient_for, options_for};
use git_repository::value::{ApplyLeniency, ObjectHash, ObjectKindHint, WriteReflog};

fn read(text: &[u8]) -> File {
    File::from_bytes(text, &Metadata::from(Source::Local), false).expect("valid text")
}

fn stage(local: &[u8], worktree: Option<&[u8]>, lenient: bool) -> Result<StageOne, Error> {
    StageOne::new(
        b"/repo/.git",
        b"/repo/.git/worktrees/w",
        Loaded::Bytes(local.to_vec()),
        match worktree {
            Some(w) => Loaded::Bytes(w.to_vec()),
            None => Loaded::Absent,
        },
        Trust::Full,
        Some(false),
        lenient,
    )
}

#[test]
fn worktree_layer_overrides_bare() {
    let facts = stage(
        b"[core]\n\tbare = false\n[extensions]\n\tworktreeConfig = true\n",
        Some(b"[core]\n\tbare = true\n"),
        false,
    )
    .unwrap();
    assert!(facts.is_bare);
    assert_eq!(
        facts.git_dir_config.strings_by_key("core.bare"),
        vec![b"false".to_vec(), b"true".to_vec()]
    );
    assert_eq!(facts.buf, b"[core]\n\tbare = true\n".to_vec());
    assert_eq!(facts.git_dir_config.sections[2].meta.source, Source::Worktree);
    assert_eq!(
        facts.git_dir_config.sections[2].meta.path,
        Some(b"/repo/.git/worktrees/w/config.worktree".to_vec())
    );
    assert_eq!(
        facts.git_dir_config.sections[0].meta.path,
        Some(b"/repo/.git/config".to_vec())
    );
}

#[test]
fn worktree_layer_counts_only_where_asked_for() {
    let facts = stage(b"[core]\n\tbare = false\n", Some(b"[core]\n\tbare = true\n"), false).unwrap();
    assert!(!facts.is_bare);
    assert_eq!(facts.git_dir_config.strings_by_key("core.bare"), vec![b"false".to_vec()]);
    assert_eq!(facts.buf, b"[core]\n\tbare = false\n".to_vec());
    let ignored = StageOne::new(
        b"/repo/.git",
        b"/repo/.git",
        Loaded::Bytes(b"[core]\n\tbare = false\n".to_vec()),
        Loaded::Failed(b"permission denied".to_vec()),
        Trust::Full,
        None,
        false,
    )
    .unwrap();
    assert!(!ignored.is_bare);
    let asked = StageOne::new(
        b"/repo/.git",
        b"/repo/.git",
        Loaded::Bytes(b"[extensions]\n\tworktreeConfig = true\n".to_vec()),
        Loaded::Failed(b"permission denied".to_vec()),
        Trust::Full,
        None,
        true,
    );
    assert_eq!(
        asked,
        Err(Error::Io {
            path: b"/repo/.git/config.worktree".to_vec(),
            source: Source::Worktree,
            reason: b"permission denied".to_vec(),
        })
    );
}

#[test]
fn object_hash_follows_format_version_and_extension() {
    let facts = stage(
        b"[core]\n\trepositoryFormatVersion = 1\n[extensions]\n\tobjectFormat = sha256\n",
        None,
        false,
    )
    .unwrap();
    assert_eq!(facts.object_hash, ObjectHash::Sha256);
    let facts = stage(b"[extensions]\n\tobjectFormat = sha256\n", None, false).unwrap();
    assert_eq!(facts.object_hash, ObjectHash::Sha1);
    let facts = stage(
        b"[core]\n\trepositoryFormatVersion = 0\n[extensions]\n\tobjectFormat = sha256\n",
        None,
        false,
    )
    .unwrap();
    assert_eq!(facts.object_hash, ObjectHash::Sha1);
    let facts = stage(b"[core]\n\trepositoryFormatVersion = 1\n", None, false).unwrap();
    assert_eq!(facts.object_hash, ObjectHash::Sha1);
    let facts = stage(b"[extensions]\n\tobjectFormat = nonsense\n", None, false).unwrap();
    assert_eq!(facts.object_hash, ObjectHash::Sha1);
    assert_eq!(
        object_hash(
            &read(b"[core]\n\trepositoryFormatVersion = 1\n[extensions]\n\tobjectFormat = SHA1\n"),
            false
        ),
        Ok(ObjectHash::Sha1)
    );
}

#[test]
fn onbranch_directive_is_not_followed_in_stage_one() {
    let text = b"[core]\n\tbare = false\n[includeIf \"onbranch:main\"]\n\tpath = /elsewhere/extra\n[include]\n\tpath = /elsewhere/more\n";
    let facts = stage(text, None, false).unwrap();
    assert_eq!(facts.git_dir_config.sections.len(), 3);
    assert_eq!(facts.git_dir_config.to_bytes(), text.to_vec());
    assert_eq!(
        facts.git_dir_config.string("includeIf", Some(b"onbranch:main"), "path"),
        Some(b"/elsewhere/extra".to_vec())
    );
    assert!(!facts.is_bare);
}

#[test]
fn reduced_trust_abbrev_is_absent_under_leniency() {
    let meta = Metadata::from(Source::Local).with(Trust::Reduced);
    let file = File::from_bytes(b"[core]\n\tabbrev = notanumber\n", &meta, false).unwrap();
    let lenient = lenient_for(meta.trust, None);
    assert!(lenient);
    assert_eq!(
        parse_core_abbrev(&file, ObjectHash::Sha1).with_leniency(lenient),
        Ok(None)
    );
    let strict = lenient_for(meta.trust, Some(true));
    assert!(!strict);
    match parse_core_abbrev(&file, ObjectHash::Sha1).with_leniency(strict) {
        Err(Error::Coercion(e)) => {
            assert_eq!(e.key, b"core.abbrev".to_vec());
            assert_eq!(e.value, b"notanumber".to_vec());
            assert_eq!(e.kind, Kind::Abbreviation);
        }
        other => panic!("unexpected {:?}", other),
    }
}

#[test]
fn missing_primary_file_is_an_empty_configuration() {
    let facts = StageOne::new(
        b"/repo/.git",
        b"/repo/.git",
        Loaded::Absent,
        Loaded::Absent,
        Trust::Full,
        None,
        false,
    )
    .unwrap();
    assert!(facts.is_bare);
    assert_eq!(facts.object_hash, ObjectHash::Sha1);
    assert_eq!(facts.reflog, None);
    assert_eq!(facts.lossy, None);
    assert!(facts.buf.is_empty());
    assert_eq!(facts.git_dir_config, File::new());
}

#[test]
fn unreadable_or_malformed_primary_file_fails_even_under_leniency() {
    let failed = StageOne::new(
        b"/repo/.git/",
        b"/repo/.git",
        Loaded::Failed(b"is a directory".to_vec()),
        Loaded::Absent,
        Trust::Reduced,
        None,
        true,
    );
    assert_eq!(
        failed,
        Err(Error::Io {
            path: b"/repo/.git/config".to_vec(),
            source: Source::Local,
            reason: b"is a directory".to_vec(),
        })
    );
    match stage(b"[core\n", None, true) {
        Err(Error::Parse { path, source, error }) => {
            assert_eq!(path, b"/repo/.git/config".to_vec());
            assert_eq!(source, Source::Local);
            assert_eq!(error.kind, ParseErrorKind::BadHeader);
            assert_eq!(error.offset, 0);
        }
        other => panic!("unexpected {:?}", other),
    }
    match stage(
        b"[extensions]\n\tworktreeConfig = true\n",
        Some(b"[a]\nb = \"\n"),
        true,
    ) {
        Err(Error::Parse { path, source, error }) => {
            assert_eq!(path, b"/repo/.git/worktrees/w/config.worktree".to_vec());
            assert_eq!(source, Source::Worktree);
            assert_eq!(error.kind, ParseErrorKind::OpenQuote);
            assert_eq!(error.offset, 4);
        }
        other => panic!("unexpected {:?}", other),
    }
}

#[test]
fn invalid_values_fail_the_stage_unless_lenient() {
    let texts: [&[u8]; 5] = [
        b"[core]\n\tbare = maybe\n",
        b"[core]\n\trepositoryFormatVersion = one\n",
        b"[core]\n\trepositoryFormatVersion = 1\n[extensions]\n\tobjectFormat = md5\n",
        b"[extensions]\n\tworktreeConfig = perhaps\n",
        b"[core]\n\tlogAllRefUpdates = sometimes\n",
    ];
    let keys: [&[u8]; 5] = [
        b"core.bare",
        b"core.repositoryFormatVersion",
        b"extensions.objectFormat",
        b"extensions.worktreeConfig",
        b"core.logAllRefUpdates",
    ];
    for (text, key) in texts.iter().zip(keys.iter()) {
        match stage(text, None, false) {
            Err(Error::Coercion(e)) => assert_eq!(e.key, key.to_vec()),
            other => panic!("unexpected {:?}", other),
        }
        let facts = stage(text, None, true).unwrap();
        assert!(facts.is_bare);
        assert_eq!(facts.object_hash, ObjectHash::Sha1);
        assert_eq!(facts.reflog, None);
    }
}

#[test]
fn reflog_policy_is_read_from_the_layered_configuration() {
    assert_eq!(stage(b"[core]\n\tlogAllRefUpdates = true\n", None, false).unwrap().reflog, Some(WriteReflog::Normal));
    assert_eq!(stage(b"[core]\n\tlogAllRefUpdates\n", None, false).unwrap().reflog, Some(WriteReflog::Normal));
    assert_eq!(stage(b"[core]\n\tlogAllRefUpdates = off\n", None, false).unwrap().reflog, Some(WriteReflog::Disable));
    assert_eq!(stage(b"[core]\n\tlogAllRefUpdates = ALWAYS\n", None, false).unwrap().reflog, Some(WriteReflog::Always));
    let facts = stage(
        b"[core]\n\tlogAllRefUpdates = false\n[extensions]\n\tworktreeConfig = yes\n",
        Some(b"[core]\n\tlogAllRefUpdates = always\n"),
        false,
    )
    .unwrap();
    assert_eq!(facts.reflog, Some(WriteReflog::Always));
    assert_eq!(query_refupdates(&read(b"[core]\n\tlogAllRefUpdates = x\n"), true), Ok(None));
    assert_eq!(query_refupdates(&read(b""), false), Ok(None));
}

#[test]
fn reflog_default_depends_on_the_worktree() {
    assert_eq!(reflog_or_default(None, true), WriteReflog::Normal);
    assert_eq!(reflog_or_default(None, false), WriteReflog::Disable);
    assert_eq!(reflog_or_default(Some(WriteReflog::Always), false), WriteReflog::Always);
    assert_eq!(reflog_or_default(Some(WriteReflog::Disable), true), WriteReflog::Disable);
}

#[test]
fn load_config_marks_sections_and_never_follows() {
    let file = load_config(
        b"/r/config".to_vec(),
        &Loaded::Bytes(b"# c\n[include]\n\tpath = other\n".to_vec()),
        Source::Global,
        Trust::Reduced,
        Some(false),
    )
    .unwrap();
    assert_eq!(file.sections.len(), 2);
    let meta = Metadata::from(Source::Global).at(b"/r/config".to_vec()).with(Trust::Reduced);
    assert_eq!(file.sections[1].meta, meta);
    let lossy = load_config(
        b"/r/config".to_vec(),
        &Loaded::Bytes(b"# c\n[a]\n".to_vec()),
        Source::Global,
        Trust::Full,
        None,
    )
    .unwrap();
    assert_eq!(lossy.to_bytes(), b"[a]\n".to_vec());
    assert_eq!(
        load_config(b"/r/config".to_vec(), &Loaded::Absent, Source::Local, Trust::Full, None),
        Ok(File::new())
    );
}

#[test]
fn options_default_to_lossy_reads_of_repositories() {
    assert_eq!(base_options(None), Options { lossy: true, max_depth: 10 });
    assert_eq!(base_options(Some(false)), Options { lossy: false, max_depth: 10 });
    assert_eq!(base_options(Some(true)).no_follow(), Options { lossy: true, max_depth: 0 });
    assert_eq!(Options::new(), Options { lossy: false, max_depth: 10 });
    assert_eq!(Options::DEFAULT_DEPTH, 10);
    assert_eq!(options_for(Trust::Reduced, Options::new()), Options { lossy: false, max_depth: 0 });
    assert_eq!(options_for(Trust::Full, Options::new()), Options::new());
    assert!(!lenient_for(Trust::Full, None));
    assert!(lenient_for(Trust::Full, Some(false)));
    assert!(Source::System.rank() < Source::Global.rank());
    assert!(Source::Global.rank() < Source::Local.rank());
    assert!(Source::Local.rank() < Source::Worktree.rank());
    assert!(Source::Worktree.rank() < Source::Env.rank());
    assert!(Source::Env.rank() < Source::Cli.rank());
}

#[test]
fn config_bool_falls_back_to_the_supplied_default() {
    let file = read(b"[core]\n\tbare = maybe\n[extensions]\n\tworktreeConfig = on\n");
    assert_eq!(config_bool(&file, &Core::bare(), "core.bare", true, true), Ok(true));
    assert_eq!(config_bool(&file, &Core::bare(), "core.bare", false, true), Ok(false));
    match config_bool(&file, &Core::bare(), "core.bare", true, false) {
        Err(Error::Coercion(e)) => {
            assert_eq!(e.key, b"core.bare".to_vec());
            assert_eq!(e.value, b"maybe".to_vec());
            assert_eq!(e.kind, Kind::Boolean);
        }
        other => panic!("unexpected {:?}", other),
    }
    assert_eq!(
        config_bool(&file, &Extensions::worktree_config(), "extensions.worktreeConfig", false, false),
        Ok(true)
    );
    assert_eq!(config_bool(&read(b""), &Core::bare(), "core.bare", true, false), Ok(true));
}

#[test]
fn object_caches_are_read_through_a_filter() {
    let mut file = File::from_bytes(
        b"[core]\n\tdeltaBaseCacheLimit = 4k\n[gitoxide \"objects\"]\n\tcacheLimit = 1m\n",
        &Metadata::from(Source::Local),
        false,
    )
    .unwrap();
    file.append(
        File::from_bytes(
            b"[core]\n\tdeltaBaseCacheLimit = 8k\n",
            &Metadata::from(Source::Worktree),
            false,
        )
        .unwrap(),
    );
    assert_eq!(parse_object_caches(&file, false, &Everything), Ok((Some(8192), 1048576)));
    assert_eq!(
        parse_object_caches(&file, false, &NotFrom(Source::Worktree)),
        Ok((Some(4096), 1048576))
    );
    assert_eq!(parse_object_caches(&file, false, &NotFrom(Source::Local)), Ok((Some(8192), 0)));
    assert_eq!(parse_object_caches(&read(b""), false, &Everything), Ok((None, 0)));
    let bad = read(b"[core]\n\tdeltaBaseCacheLimit = -1\n[gitoxide \"objects\"]\n\tcacheLimit = lots\n");
    assert_eq!(parse_object_caches(&bad, true, &Everything), Ok((None, 0)));
    match parse_object_caches(&bad, false, &Everything) {
        Err(Error::Coercion(e)) => {
            assert_eq!(e.key, b"core.deltaBaseCacheLimit".to_vec());
            assert_eq!(e.value, b"-1".to_vec());
        }
        other => panic!("unexpected {:?}", other),
    }
    let bad = read(b"[gitoxide \"objects\"]\n\tcacheLimit = lots\n");
    match parse_object_caches(&bad, false, &Everything) {
        Err(Error::Coercion(e)) => {
            assert_eq!(e.key, b"gitoxide.objects.cacheLimit".to_vec());
            assert_eq!(e.value, b"lots".to_vec());
            assert_eq!(e.kind, Kind::Unsigned);
        }
        other => panic!("unexpected {:?}", other),
    }
}

#[test]
fn abbreviation_and_hint_are_read_from_core() {
    assert_eq!(parse_core_abbrev(&read(b"[core]\n\tabbrev = 7\n"), ObjectHash::Sha1), Ok(Some(7)));
    assert_eq!(parse_core_abbrev(&read(b"[core]\n\tabbrev = auto\n"), ObjectHash::Sha1), Ok(None));
    assert_eq!(parse_core_abbrev(&read(b"[core]\n\tabbrev = no\n"), ObjectHash::Sha256), Ok(Some(64)));
    assert_eq!(parse_core_abbrev(&read(b""), ObjectHash::Sha1), Ok(None));
    assert!(parse_core_abbrev(&read(b"[core]\n\tabbrev = 41\n"), ObjectHash::Sha1).is_err());
    assert_eq!(
        disambiguate_hint(&read(b"[core]\n\tdisambiguate = treeish\n"), false),
        Ok(Some(ObjectKindHint::Treeish))
    );
    assert_eq!(disambiguate_hint(&read(b"[core]\n\tdisambiguate = none\n"), false), Ok(None));
    assert_eq!(disambiguate_hint(&read(b""), false), Ok(None));
    assert_eq!(disambiguate_hint(&read(b"[core]\n\tdisambiguate = tag\n"), true), Ok(None));
    let e = disambiguate_hint(&read(b"[core]\n\tdisambiguate = tag\n"), false).unwrap_err();
    assert_eq!(e.key, b"core.disambiguate".to_vec());
    assert_eq!(e.value, b"tag".to_vec());
    assert_eq!(e.kind, Kind::ObjectKindHint);
}

#[test]
fn interpolation_context_opens_user_homes() {
    let ctx = interpolate_context(Some(b"/usr"), None);
    assert_eq!(ctx.git_install_dir, Some(b"/usr".to_vec()));
    assert_eq!(ctx.home_dir, None);
    assert!(ctx.home_for_user);
}
