//! Typed reads of the keys that a repository consults when it is opened,
//! each with its default and its share of leniency.

use crate::error::{coercion, errors, Error};
use crate::file::{Everything, File, FileView, MetadataFilter};
use crate::keys::{coerced, CoercionError, CoercionErrorView, Core, Gitoxide, Key};
use crate::path::{Context, ContextView};
use crate::text::to_vec;
use crate::value::{ApplyLeniency, ObjectHash, ObjectKindHint, WriteReflog};
use vstd::prelude::*;
use vstd::string::StringSliceAdditionalSpecFns;

verus! {

/// How a file is read.
#[derive(Clone, Copy, Debug, PartialEq, Eq, Structural)]
pub struct Options {
    /// Whether blank lines and comments are dropped. A file that is read so
    /// cannot be written back as it was.
    pub lossy: bool,
    /// How many levels of files that a file pulls in are followed; none at 0.
    pub max_depth: u8,
}

impl Options {
    /// The depth to which nested files are followed unless told otherwise.
    pub const DEFAULT_DEPTH: u8 = 10;

    /// Options that keep every byte and follow nested files.
    pub fn new() -> (o: Options)
        ensures
            o == (Options { lossy: false, max_depth: 10 }),
    {
        Options { lossy: false, max_depth: 10 }
    }

    /// The same options, following no nested files.
    pub fn no_follow(self) -> (o: Options)
        ensures
            o == (Options { max_depth: 0, ..self }),
    {
        Options { lossy: self.lossy, max_depth: 0 }
    }
}

/// The context against which configured paths are expanded, with the homes
/// of other users open to questions.
pub fn interpolate_context(git_install_dir: Option<&[u8]>, home_dir: Option<&[u8]>) -> (c: Context)
    ensures
        c@ == (ContextView {
            git_install_dir: crate::file::opt_slice(git_install_dir),
            home_dir: crate::file::opt_slice(home_dir),
            home_for_user: true,
        }),
{
    Context {
        git_install_dir: match git_install_dir {
            Some(d) => Some(to_vec(d)),
            None => None,
        },
        home_dir: match home_dir {
            Some(d) => Some(to_vec(d)),
            None => None,
        },
        home_for_user: true,
    }
}

/// The options with which the files of a repository are read: lossy unless
/// told otherwise, since they are only read.
pub fn base_options(lossy: Option<bool>) -> (o: Options)
    ensures
        o == (Options {
            lossy: match lossy {
                Some(l) => l,
                None => true,
            },
            max_depth: 10,
        }),
{
    Options {
        lossy: match lossy {
            Some(l) => l,
            None => true,
        },
        max_depth: 10,
    }
}

/// The boolean under `key_str`: `default` where the key is absent, and also
/// where its value is no boolean and leniency is asked for; the error of
/// `key` otherwise.
pub open spec fn bool_or(file: FileView, key: Key, key_str: Seq<u8>, default: bool, lenient: bool)
    -> Result<bool, CoercionErrorView> {
    match file.boolean_by_key(key_str, &Everything) {
        None => Ok(default),
        Some(Ok(b)) => Ok(b),
        Some(Err(v)) => if lenient {
            Ok(default)
        } else {
            Err(key.error(v))
        },
    }
}

/// Reads the boolean `key`, whose logical name `key_str` is written out at
/// the place of the call; that the two agree is the caller's to show.
pub fn config_bool(config: &File, key: &Key, key_str: &str, default: bool, lenient: bool) -> (r:
    Result<bool, Error>)
    requires
        key_str.spec_bytes() == key.logical(),
    ensures
        errors(r) == coercion(bool_or(config@, *key, key_str.spec_bytes(), default, lenient)),
{
    match config.boolean_by_key(key_str) {
        None => Ok(default),
        Some(res) => match key.enrich_error(res) {
            Ok(b) => Ok(b),
            Err(e) => if lenient {
                Ok(default)
            } else {
                Err(Error::Coercion(e))
            },
        },
    }
}

/// A result that leniency has passed over: a failure becomes an absent value
/// where leniency is asked for.
pub open spec fn relaxed<T>(r: Result<Option<T>, CoercionErrorView>, lenient: bool) -> Result<
    Option<T>,
    CoercionErrorView,
> {
    match r {
        Ok(v) => Ok(v),
        Err(e) => if lenient {
            Ok(None)
        } else {
            Err(e)
        },
    }
}

/// The reflog policy that `core.logAllRefUpdates` asks for.
pub open spec fn ref_updates_or(file: FileView, lenient: bool) -> Result<
    Option<WriteReflog>,
    CoercionErrorView,
> {
    relaxed(
        Core::log_all_ref_updates_key().ref_updates(
            file.value_by_key("core.logAllRefUpdates".spec_bytes(), &Everything),
        ),
        lenient,
    )
}

/// Reads the reflog policy that `core.logAllRefUpdates` asks for.
pub fn query_refupdates(config: &File, lenient_config: bool) -> (r: Result<
    Option<WriteReflog>,
    Error,
>)
    ensures
        errors(r) == coercion(ref_updates_or(config@, lenient_config)),
{
    let key = "core.logAllRefUpdates";
    let raw = config.raw_value_filter_by_key(key, &Everything);
    match Core::log_all_ref_updates().try_into_ref_updates(&raw).with_leniency(lenient_config) {
        Ok(policy) => Ok(policy),
        Err(e) => Err(Error::Coercion(e)),
    }
}

/// The reflog policy of a repository: the configured one, or the customary
/// logs where there is a worktree and none where there is not.
pub fn reflog_or_default(config_reflog: Option<WriteReflog>, has_worktree: bool) -> (r: WriteReflog)
    ensures
        r == match config_reflog {
            Some(policy) => policy,
            None => if has_worktree {
                WriteReflog::Normal
            } else {
                WriteReflog::Disable
            },
        },
{
    match config_reflog {
        Some(policy) => policy,
        None => if has_worktree {
            WriteReflog::Normal
        } else {
            WriteReflog::Disable
        },
    }
}

/// The size under `key_str` in the admitted sections, if the key is there.
pub open spec fn size_at<P: MetadataFilter>(
    file: FileView,
    key: Key,
    key_str: Seq<u8>,
    lenient: bool,
    filter: &P,
) -> Result<Option<usize>, CoercionErrorView> {
    relaxed(
        match file.string_by_key(key_str, filter) {
            None => Ok(None),
            Some(raw) => match key.unsigned(raw) {
                Ok(n) => Ok(Some(n)),
                Err(e) => Err(e),
            },
        },
        lenient,
    )
}

/// The sizes of the two object caches: that of the pack cache, if it is
/// configured, and that of the object cache, which is 0 if it is not.
pub open spec fn object_caches<P: MetadataFilter>(file: FileView, lenient: bool, filter: &P)
    -> Result<(Option<usize>, usize), CoercionErrorView> {
    match size_at(
        file,
        Core::delta_base_cache_limit_key(),
        "core.deltaBaseCacheLimit".spec_bytes(),
        lenient,
        filter,
    ) {
        Err(e) => Err(e),
        Ok(pack) => match size_at(
            file,
            Gitoxide::objects_cache_limit_key(),
            "gitoxide.objects.cacheLimit".spec_bytes(),
            lenient,
            filter,
        ) {
            Err(e) => Err(e),
            Ok(object) => Ok(
                (
                    pack,
                    match object {
                        Some(n) => n,
                        None => 0,
                    },
                ),
            ),
        },
    }
}

fn size_of_key<P: MetadataFilter>(
    config: &File,
    key: &Key,
    key_str: &str,
    lenient: bool,
    filter: &P,
) -> (r: Result<Option<usize>, CoercionError>)
    ensures
        coerced(r) == size_at(config@, *key, key_str.spec_bytes(), lenient, filter),
{
    let found: Result<Option<usize>, CoercionError> = match config.string_filter_by_key(
        key_str,
        filter,
    ) {
        None => Ok(None),
        Some(raw) => match key.try_into_usize(raw.as_slice()) {
            Ok(n) => Ok(Some(n)),
            Err(e) => Err(e),
        },
    };
    found.with_leniency(lenient)
}

/// Return `(pack_cache_bytes, object_cache_bytes)` as read from the sections
/// that `filter_config_section` admits.
pub fn parse_object_caches<P: MetadataFilter>(
    config: &File,
    lenient: bool,
    filter_config_section: &P,
) -> (r: Result<(Option<usize>, usize), Error>)
    ensures
        errors(r) == coercion(object_caches(config@, lenient, filter_config_section)),
{
    let pack_cache_bytes = match size_of_key(
        config,
        &Core::delta_base_cache_limit(),
        "core.deltaBaseCacheLimit",
        lenient,
        filter_config_section,
    ) {
        Ok(v) => v,
        Err(e) => {
            return Err(Error::Coercion(e));
        },
    };
    let object_cache_bytes = match size_of_key(
        config,
        &Gitoxide::objects_cache_limit(),
        "gitoxide.objects.cacheLimit",
        lenient,
        filter_config_section,
    ) {
        Ok(Some(n)) => n,
        Ok(None) => 0,
        Err(e) => {
            return Err(Error::Coercion(e));
        },
    };
    Ok((pack_cache_bytes, object_cache_bytes))
}

/// The length to which `core.abbrev` asks object names to be abbreviated.
pub open spec fn core_abbrev(file: FileView, hash: ObjectHash) -> Result<
    Option<usize>,
    CoercionErrorView,
> {
    match file.string_by_key("core.abbrev".spec_bytes(), &Everything) {
        None => Ok(None),
        Some(raw) => Core::abbrev_key().abbreviation(raw, hash),
    }
}

/// Reads the length to which `core.abbrev` asks object names to be abbreviated.
pub fn parse_core_abbrev(config: &File, object_hash: ObjectHash) -> (r: Result<
    Option<usize>,
    Error,
>)
    ensures
        errors(r) == coercion(core_abbrev(config@, object_hash)),
{
    match config.string_by_key("core.abbrev") {
        None => Ok(None),
        Some(raw) => match Core::abbrev().try_into_abbreviation(raw.as_slice(), object_hash) {
            Ok(len) => Ok(len),
            Err(e) => Err(Error::Coercion(e)),
        },
    }
}

/// The hint that `core.disambiguate` gives.
pub open spec fn disambiguation(file: FileView, lenient: bool) -> Result<
    Option<ObjectKindHint>,
    CoercionErrorView,
> {
    match file.string_by_key("core.disambiguate".spec_bytes(), &Everything) {
        None => Ok(None),
        Some(raw) => relaxed(Core::disambiguate_key().object_kind_hint(raw), lenient),
    }
}

/// Reads the hint that `core.disambiguate` gives.
pub fn disambiguate_hint(config: &File, lenient_config: bool) -> (r: Result<
    Option<ObjectKindHint>,
    CoercionError,
>)
    ensures
        coerced(r) == disambiguation(config@, lenient_config),
{
    match config.string_by_key("core.disambiguate") {
        None => Ok(None),
        Some(value) => Core::disambiguate().try_into_object_kind_hint(
            value.as_slice(),
        ).with_leniency(lenient_config),
    }
}

/// Leniency law: under leniency none of these reads fails on a value.
pub proof fn lemma_lenient_reads_succeed<P: MetadataFilter>(
    file: FileView,
    key: Key,
    key_str: Seq<u8>,
    default: bool,
    hash: ObjectHash,
    filter: &P,
)
    ensures
        bool_or(file, key, key_str, default, true) is Ok,
        ref_updates_or(file, true) is Ok,
        object_caches(file, true, filter) is Ok,
        disambiguation(file, true) is Ok,
        relaxed(core_abbrev(file, hash), true) is Ok,
{
}

} // verus!
