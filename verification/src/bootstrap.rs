//! The first stage of opening a repository. The store of references needs
//! the object hash, which the configuration names; the configuration needs
//! the current branch, which the store of references knows. The first stage
//! reads what the store needs from the configuration of the repository
//! alone, following no nested files; the caller builds the store from these
//! facts and resolves the full configuration afterwards.

use crate::cache::{base_options, bool_or, config_bool, query_refupdates, ref_updates_or};
use crate::error::{coercion, errors, Error, ErrorView};
use crate::file::{Everything, File, FileView, Metadata, MetadataView, Source, Trust};
use crate::keys::{CoercionErrorView, Core, Extensions};
use crate::parse::parse_bytes;
use crate::path::{join, join_path};
use crate::text::to_vec;
use crate::value::{ObjectHash, WriteReflog};
use vstd::prelude::*;
use vstd::string::StringSliceAdditionalSpecFns;

verus! {

/// What came of the attempt to read a source.
#[derive(Debug, PartialEq, Eq)]
pub enum Loaded {
    /// There is no such file.
    Absent,
    /// The content of the file.
    Bytes(Vec<u8>),
    /// The file is there and could not be read; the reason, in words.
    Failed(Vec<u8>),
}

pub enum LoadedView {
    Absent,
    Bytes(Seq<u8>),
    Failed(Seq<u8>),
}

impl View for Loaded {
    type V = LoadedView;

    open spec fn view(&self) -> LoadedView {
        match self {
            Loaded::Absent => LoadedView::Absent,
            Loaded::Bytes(b) => LoadedView::Bytes(b@),
            Loaded::Failed(reason) => LoadedView::Failed(reason@),
        }
    }
}

impl LoadedView {
    /// The bytes that were read, if any were.
    pub open spec fn buffer(self) -> Seq<u8> {
        match self {
            LoadedView::Bytes(b) => b,
            _ => Seq::empty(),
        }
    }
}

/// Whether a read drops blank lines and comments when nothing is asked for.
pub open spec fn lossy_or_default(lossy: Option<bool>) -> bool {
    match lossy {
        Some(l) => l,
        None => true,
    }
}

/// The metadata of a source of a repository.
pub open spec fn source_meta(path: Seq<u8>, source: Source, trust: Trust) -> MetadataView {
    MetadataView { source, path: Some(path), trust, level: 0 }
}

/// The file that a source stands for. A source that does not exist is an
/// empty file; one that could not be read or is not written in the file
/// format is an error that names path and scope.
pub open spec fn loaded_config(
    path: Seq<u8>,
    loaded: LoadedView,
    source: Source,
    trust: Trust,
    lossy: Option<bool>,
) -> Result<FileView, ErrorView> {
    match loaded {
        LoadedView::Absent => Ok(FileView { sections: Seq::empty() }),
        LoadedView::Failed(reason) => Err(ErrorView::Io { path, source, reason }),
        LoadedView::Bytes(b) => match parse_bytes(
            b,
            source_meta(path, source, trust),
            lossy_or_default(lossy),
        ) {
            Ok(file) => Ok(file),
            Err(error) => Err(ErrorView::Parse { path, source, error }),
        },
    }
}

/// The result of reading a file, as a mathematical value.
pub open spec fn file_result(r: Result<File, Error>) -> Result<FileView, ErrorView> {
    match r {
        Ok(f) => Ok(f@),
        Err(e) => Err(e@),
    }
}

/// Turns what was read at `config_path` into a file. Nested files are not
/// followed.
pub fn load_config(
    config_path: Vec<u8>,
    loaded: &Loaded,
    source: Source,
    git_dir_trust: Trust,
    lossy: Option<bool>,
) -> (r: Result<File, Error>)
    ensures
        file_result(r) == loaded_config(config_path@, loaded@, source, git_dir_trust, lossy),
{
    match loaded {
        Loaded::Absent => {
            let file = File::default();
            assert(file@.sections =~= Seq::empty());
            Ok(file)
        },
        Loaded::Failed(reason) => Err(
            Error::Io { path: config_path, source, reason: to_vec(reason.as_slice()) },
        ),
        Loaded::Bytes(b) => {
            let options = base_options(lossy).no_follow();
            let path = to_vec(config_path.as_slice());
            let meta = Metadata::from(source).at(config_path).with(git_dir_trust);
            match File::from_bytes(b.as_slice(), &meta, options.lossy) {
                Ok(file) => Ok(file),
                Err(error) => Err(Error::Parse { path, source, error }),
            }
        },
    }
}

/// The object hash that a configuration names: the legacy one, unless the
/// repository format is exactly 1 and `extensions.objectFormat` names
/// another. Under leniency a value that cannot be read counts as absent.
pub open spec fn object_hash_of(config: FileView, lenient: bool) -> Result<
    ObjectHash,
    CoercionErrorView,
> {
    let version: Result<usize, CoercionErrorView> = match config.string_by_key(
        "core.repositoryFormatVersion".spec_bytes(),
        &Everything,
    ) {
        None => Ok(0),
        Some(raw) => match Core::repository_format_version_key().unsigned(raw) {
            Ok(v) => Ok(v),
            Err(e) => if lenient {
                Ok(0)
            } else {
                Err(e)
            },
        },
    };
    match version {
        Err(e) => Err(e),
        Ok(v) => if v != 1 {
            Ok(ObjectHash::Sha1)
        } else {
            match config.string(
                "extensions".spec_bytes(),
                None,
                "objectFormat".spec_bytes(),
                &Everything,
            ) {
                None => Ok(ObjectHash::Sha1),
                Some(raw) => match Extensions::object_format_key().object_format(raw) {
                    Ok(hash) => Ok(hash),
                    Err(e) => if lenient {
                        Ok(ObjectHash::Sha1)
                    } else {
                        Err(e)
                    },
                },
            }
        },
    }
}

/// Reads the object hash that a configuration names.
pub fn object_hash(config: &File, lenient: bool) -> (r: Result<ObjectHash, Error>)
    ensures
        errors(r) == coercion(object_hash_of(config@, lenient)),
{
    let version: usize = match config.string_by_key("core.repositoryFormatVersion") {
        None => 0,
        Some(raw) => match Core::repository_format_version().try_into_usize(raw.as_slice()) {
            Ok(v) => v,
            Err(e) => {
                if lenient {
                    0
                } else {
                    return Err(Error::Coercion(e));
                }
            },
        },
    };
    if version != 1 {
        return Ok(ObjectHash::Sha1);
    }
    match config.string("extensions", None, "objectFormat") {
        None => Ok(ObjectHash::Sha1),
        Some(raw) => match Extensions::object_format().try_into_object_format(raw.as_slice()) {
            Ok(hash) => Ok(hash),
            Err(e) => if lenient {
                Ok(ObjectHash::Sha1)
            } else {
                Err(Error::Coercion(e))
            },
        },
    }
}

/// The facts that the first stage yields.
#[derive(Debug, PartialEq, Eq)]
pub struct StageOne {
    /// The configuration of the repository, with that of the worktree on top
    /// where the repository asks for it.
    pub git_dir_config: File,
    /// The bytes of the source that was read last.
    pub buf: Vec<u8>,
    pub is_bare: bool,
    pub lossy: Option<bool>,
    pub object_hash: ObjectHash,
    pub reflog: Option<WriteReflog>,
}

pub struct StageOneView {
    pub git_dir_config: FileView,
    pub buf: Seq<u8>,
    pub is_bare: bool,
    pub lossy: Option<bool>,
    pub object_hash: ObjectHash,
    pub reflog: Option<WriteReflog>,
}

impl View for StageOne {
    type V = StageOneView;

    open spec fn view(&self) -> StageOneView {
        StageOneView {
            git_dir_config: self.git_dir_config@,
            buf: self.buf@,
            is_bare: self.is_bare,
            lossy: self.lossy,
            object_hash: self.object_hash,
            reflog: self.reflog,
        }
    }
}

/// The facts that remain to be read once the configuration of the
/// repository is there: whether the worktree has a configuration of its
/// own, that configuration on top, and from the two together whether the
/// repository is bare and how it logs.
pub open spec fn layered_facts(
    config: FileView,
    object_hash: ObjectHash,
    local: LoadedView,
    git_dir: Seq<u8>,
    worktree: LoadedView,
    trust: Trust,
    lossy: Option<bool>,
    lenient: bool,
) -> Result<StageOneView, ErrorView> {
    match coercion(
        bool_or(
            config,
            Extensions::worktree_config_key(),
            "extensions.worktreeConfig".spec_bytes(),
            false,
            lenient,
        ),
    ) {
        Err(e) => Err(e),
        Ok(false) => match coercion(
            bool_or(config, Core::bare_key(), "core.bare".spec_bytes(), true, lenient),
        ) {
            Err(e) => Err(e),
            Ok(is_bare) => match coercion(ref_updates_or(config, lenient)) {
                Err(e) => Err(e),
                Ok(reflog) => Ok(
                    StageOneView {
                        git_dir_config: config,
                        buf: local.buffer(),
                        is_bare,
                        lossy,
                        object_hash,
                        reflog,
                    },
                ),
            },
        },
        Ok(true) => match loaded_config(
            join_path(git_dir, "config.worktree".spec_bytes()),
            worktree,
            Source::Worktree,
            trust,
            lossy,
        ) {
            Err(e) => Err(e),
            Ok(layer) => {
                let layered = config.append(layer);
                match coercion(
                    bool_or(layered, Core::bare_key(), "core.bare".spec_bytes(), true, lenient),
                ) {
                    Err(e) => Err(e),
                    Ok(is_bare) => match coercion(ref_updates_or(layered, lenient)) {
                        Err(e) => Err(e),
                        Ok(reflog) => Ok(
                            StageOneView {
                                git_dir_config: layered,
                                buf: worktree.buffer(),
                                is_bare,
                                lossy,
                                object_hash,
                                reflog,
                            },
                        ),
                    },
                }
            },
        },
    }
}

/// The first stage: the configuration at `common_dir`, read without
/// following nested files; whether it calls the repository bare, which is
/// taken for granted where it says nothing; the object hash; the
/// configuration of the worktree at `git_dir` on top, where the repository
/// asks for it, whose values then win; and the reflog policy.
pub open spec fn stage_one(
    common_dir: Seq<u8>,
    git_dir: Seq<u8>,
    local: LoadedView,
    worktree: LoadedView,
    trust: Trust,
    lossy: Option<bool>,
    lenient: bool,
) -> Result<StageOneView, ErrorView> {
    match loaded_config(
        join_path(common_dir, "config".spec_bytes()),
        local,
        Source::Local,
        trust,
        lossy,
    ) {
        Err(e) => Err(e),
        Ok(config) => match coercion(
            bool_or(config, Core::bare_key(), "core.bare".spec_bytes(), true, lenient),
        ) {
            Err(e) => Err(e),
            Ok(_) => match coercion(object_hash_of(config, lenient)) {
                Err(e) => Err(e),
                Ok(object_hash) => layered_facts(
                    config,
                    object_hash,
                    local,
                    git_dir,
                    worktree,
                    trust,
                    lossy,
                    lenient,
                ),
            },
        },
    }
}

/// The facts of the first stage, as a mathematical value.
pub open spec fn stage_result(r: Result<StageOne, Error>) -> Result<StageOneView, ErrorView> {
    match r {
        Ok(s) => Ok(s@),
        Err(e) => Err(e@),
    }
}

proof fn lemma_ascii(s: &str)
    requires
        vstd::string::is_ascii(s),
    ensures
        s.spec_bytes() == Seq::new(s@.len(), |i: int| s@[i] as u8),
{
    vstd::string::is_ascii_spec_bytes(s);
}

proof fn lemma_bare_name()
    ensures
        "core.bare".spec_bytes() == Core::bare_key().logical(),
{
    reveal_strlit("core.bare");
    reveal_strlit("core");
    reveal_strlit("bare");
    lemma_ascii("core.bare");
    lemma_ascii("core");
    lemma_ascii("bare");
    assert("core.bare".spec_bytes() =~= Core::bare_key().logical());
}

proof fn lemma_worktree_config_name()
    ensures
        "extensions.worktreeConfig".spec_bytes() == Extensions::worktree_config_key().logical(),
{
    reveal_strlit("extensions.worktreeConfig");
    reveal_strlit("extensions");
    reveal_strlit("worktreeConfig");
    lemma_ascii("extensions.worktreeConfig");
    lemma_ascii("extensions");
    lemma_ascii("worktreeConfig");
    assert("extensions.worktreeConfig".spec_bytes()
        =~= Extensions::worktree_config_key().logical());
}

fn buffer_of(loaded: Loaded) -> (buf: Vec<u8>)
    ensures
        buf@ == loaded@.buffer(),
{
    match loaded {
        Loaded::Bytes(b) => b,
        _ => Vec::new(),
    }
}

impl StageOne {
    /// Reads the facts of the first stage from what was found at
    /// `common_dir/config` and at `git_dir/config.worktree`. The second source
    /// counts only where the first asks for it. Under leniency a value that
    /// cannot be read gives way to its default; a source that cannot be read
    /// or is not written in the file format fails the stage in any case.
    pub fn new(
        common_dir: &[u8],
        git_dir: &[u8],
        local: Loaded,
        worktree: Loaded,
        git_dir_trust: Trust,
        lossy: Option<bool>,
        lenient: bool,
    ) -> (r: Result<StageOne, Error>)
        ensures
            stage_result(r) == stage_one(
                common_dir@,
                git_dir@,
                local@,
                worktree@,
                git_dir_trust,
                lossy,
                lenient,
            ),
    {
        proof {
            lemma_bare_name();
            lemma_worktree_config_name();
        }
        let mut config = match load_config(
            join(common_dir, "config".as_bytes()),
            &local,
            Source::Local,
            git_dir_trust,
            lossy,
        ) {
            Ok(c) => c,
            Err(e) => {
                return Err(e);
            },
        };
        let local_bare = match config_bool(&config, &Core::bare(), "core.bare", true, lenient) {
            Ok(b) => b,
            Err(e) => {
                return Err(e);
            },
        };
        let object_hash = match object_hash(&config, lenient) {
            Ok(h) => h,
            Err(e) => {
                return Err(e);
            },
        };
        let extension_worktree = match config_bool(
            &config,
            &Extensions::worktree_config(),
            "extensions.worktreeConfig",
            false,
            lenient,
        ) {
            Ok(b) => b,
            Err(e) => {
                return Err(e);
            },
        };
        let mut is_bare = local_bare;
        let buf;
        if extension_worktree {
            let worktree_config = match load_config(
                join(git_dir, "config.worktree".as_bytes()),
                &worktree,
                Source::Worktree,
                git_dir_trust,
                lossy,
            ) {
                Ok(c) => c,
                Err(e) => {
                    return Err(e);
                },
            };
            config.append(worktree_config);
            is_bare = match config_bool(&config, &Core::bare(), "core.bare", true, lenient) {
                Ok(b) => b,
                Err(e) => {
                    return Err(e);
                },
            };
            buf = buffer_of(worktree);
        } else {
            buf = buffer_of(local);
        }
        let reflog = match query_refupdates(&config, lenient) {
            Ok(r) => r,
            Err(e) => {
                return Err(e);
            },
        };
        Ok(StageOne { git_dir_config: config, buf, is_bare, lossy, object_hash, reflog })
    }
}

/// Without a repository format of its own a configuration names the legacy
/// object hash, whatever `extensions.objectFormat` says.
pub proof fn lemma_legacy_hash_without_version(config: FileView, lenient: bool)
    requires
        config.string_by_key("core.repositoryFormatVersion".spec_bytes(), &Everything) is None,
    ensures
        object_hash_of(config, lenient) == Ok::<ObjectHash, CoercionErrorView>(ObjectHash::Sha1),
{
}

} // verus!
