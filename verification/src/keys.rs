//! The typed key schema: a descriptor for each known key with its logical
//! dotted name and the kind of value it takes, and the coercions that turn
//! raw text into a typed value or an error that names key and text.

use crate::text::{push_all, to_vec, DOT};
use crate::value::{
    abbreviation_of, boolean_of, integer_of, object_format_of, object_kind_hint_of,
    parse_abbreviation, parse_boolean, parse_integer, parse_object_format,
    parse_object_kind_hint, ref_updates_of, to_usize, usize_of, word, ObjectHash,
    ObjectKindHint, ValueError, WriteReflog,
};
use vstd::prelude::*;
use vstd::string::StringSliceAdditionalSpecFns;

verus! {

/// The kind of value that a key takes.
#[derive(Clone, Copy, Debug, PartialEq, Eq, Structural)]
pub enum Kind {
    Boolean,
    /// A count that fits the platform's word.
    Unsigned,
    Text,
    /// A path in the file system, with homes and the prefix expanded.
    Path,
    ObjectFormat,
    RefUpdates,
    Abbreviation,
    ObjectKindHint,
    RemoteName,
}

/// The descriptor of one logical key.
#[derive(Clone, Copy, Debug)]
pub struct Key {
    pub section: &'static str,
    pub subsection: Option<&'static str>,
    pub name: &'static str,
    pub kind: Kind,
}

/// A value that does not satisfy the kind of its key.
#[derive(Debug, PartialEq, Eq)]
pub struct CoercionError {
    /// The logical name of the key.
    pub key: Vec<u8>,
    /// The offending text.
    pub value: Vec<u8>,
    pub kind: Kind,
}

pub struct CoercionErrorView {
    pub key: Seq<u8>,
    pub value: Seq<u8>,
    pub kind: Kind,
}

impl View for CoercionError {
    type V = CoercionErrorView;

    open spec fn view(&self) -> CoercionErrorView {
        CoercionErrorView { key: self.key@, value: self.value@, kind: self.kind }
    }
}

/// What a coercion yields, with the error as a mathematical value.
pub open spec fn coerced<T>(r: Result<T, CoercionError>) -> Result<T, CoercionErrorView> {
    match r {
        Ok(t) => Ok(t),
        Err(e) => Err(e@),
    }
}

impl Key {
    /// The logical name: section, subsection where there is one, and key,
    /// with dots between them.
    pub open spec fn logical(&self) -> Seq<u8> {
        match self.subsection {
            Some(s) => self.section.spec_bytes() + seq![DOT] + s.spec_bytes() + seq![DOT]
                + self.name.spec_bytes(),
            None => self.section.spec_bytes() + seq![DOT] + self.name.spec_bytes(),
        }
    }

    /// The error that `value` gives under this key.
    pub open spec fn error(&self, value: Seq<u8>) -> CoercionErrorView {
        CoercionErrorView { key: self.logical(), value, kind: self.kind }
    }

    /// The logical name of the key.
    pub fn logical_name(&self) -> (r: Vec<u8>)
        ensures
            r@ == self.logical(),
    {
        let mut out = to_vec(self.section.as_bytes());
        out.push(DOT);
        match self.subsection {
            Some(s) => {
                push_all(&mut out, s.as_bytes());
                out.push(DOT);
            },
            None => {},
        }
        push_all(&mut out, self.name.as_bytes());
        assert(out@ =~= self.logical());
        out
    }

    fn fail(&self, value: &[u8]) -> (e: CoercionError)
        ensures
            e@ == self.error(value@),
    {
        CoercionError { key: self.logical_name(), value: to_vec(value), kind: self.kind }
    }

    /// What a typed read yields under this key: the value, or the error with
    /// the name of the key added to the offending text.
    pub open spec fn enriched<T>(&self, res: Result<T, Seq<u8>>) -> Result<T, CoercionErrorView> {
        match res {
            Ok(t) => Ok(t),
            Err(v) => Err(self.error(v)),
        }
    }

    /// Adds the name of the key to the error of a typed read.
    pub fn enrich_error<T>(&self, res: Result<T, ValueError>) -> (r: Result<T, CoercionError>)
        ensures
            coerced(r) == self.enriched(
                match res {
                    Ok(t) => Ok::<T, Seq<u8>>(t),
                    Err(e) => Err(e.value@),
                },
            ),
    {
        match res {
            Ok(t) => Ok(t),
            Err(e) => Err(
                CoercionError { key: self.logical_name(), value: e.value, kind: self.kind },
            ),
        }
    }

    /// The boolean that `raw` stands for under this key.
    pub open spec fn boolean(&self, raw: Seq<u8>) -> Result<bool, CoercionErrorView> {
        match boolean_of(raw) {
            Some(b) => Ok(b),
            None => Err(self.error(raw)),
        }
    }

    /// Reads `raw` as a boolean under this key.
    pub fn try_into_boolean(&self, raw: &[u8]) -> (r: Result<bool, CoercionError>)
        ensures
            coerced(r) == self.boolean(raw@),
    {
        match parse_boolean(raw) {
            Some(b) => Ok(b),
            None => Err(self.fail(raw)),
        }
    }

    /// The count that `raw` stands for under this key: an integer with an
    /// optional unit that is not negative and fits the platform's word.
    pub open spec fn unsigned(&self, raw: Seq<u8>) -> Result<usize, CoercionErrorView> {
        match integer_of(raw) {
            Some(n) => match usize_of(n) {
                Some(u) => Ok(u),
                None => Err(self.error(raw)),
            },
            None => Err(self.error(raw)),
        }
    }

    /// Reads `raw` as a count under this key.
    pub fn try_into_usize(&self, raw: &[u8]) -> (r: Result<usize, CoercionError>)
        ensures
            coerced(r) == self.unsigned(raw@),
    {
        match parse_integer(raw) {
            Some(n) => match to_usize(n) {
                Some(u) => Ok(u),
                None => Err(self.fail(raw)),
            },
            None => Err(self.fail(raw)),
        }
    }

    /// The object format that `raw` names under this key.
    pub open spec fn object_format(&self, raw: Seq<u8>) -> Result<ObjectHash, CoercionErrorView> {
        match object_format_of(raw) {
            Some(h) => Ok(h),
            None => Err(self.error(raw)),
        }
    }

    /// Reads `raw` as the name of an object format under this key.
    pub fn try_into_object_format(&self, raw: &[u8]) -> (r: Result<ObjectHash, CoercionError>)
        ensures
            coerced(r) == self.object_format(raw@),
    {
        match parse_object_format(raw) {
            Some(h) => Ok(h),
            None => Err(self.fail(raw)),
        }
    }

    /// The reflog policy that a raw value asks for under this key. An absent
    /// key leaves the policy unset.
    pub open spec fn ref_updates(&self, raw: Option<Option<Seq<u8>>>) -> Result<
        Option<WriteReflog>,
        CoercionErrorView,
    > {
        match ref_updates_of(raw) {
            Some(policy) => Ok(policy),
            None => Err(
                self.error(
                    match raw {
                        Some(Some(v)) => v,
                        _ => Seq::empty(),
                    },
                ),
            ),
        }
    }

    /// Reads a raw value as a reflog policy under this key.
    pub fn try_into_ref_updates(&self, raw: &Option<Option<Vec<u8>>>) -> (r: Result<
        Option<WriteReflog>,
        CoercionError,
    >)
        ensures
            coerced(r) == self.ref_updates(
                match *raw {
                    Some(Some(v)) => Some(Some(v@)),
                    Some(None) => Some(None),
                    None => None,
                },
            ),
    {
        match raw {
            None => Ok(None),
            Some(None) => Ok(Some(WriteReflog::Normal)),
            Some(Some(v)) => match parse_boolean(v.as_slice()) {
                Some(true) => Ok(Some(WriteReflog::Normal)),
                Some(false) => Ok(Some(WriteReflog::Disable)),
                None => if word(v.as_slice(), "always") {
                    Ok(Some(WriteReflog::Always))
                } else {
                    Err(self.fail(v.as_slice()))
                },
            },
        }
    }

    /// The abbreviation length that `raw` asks for under this key.
    pub open spec fn abbreviation(&self, raw: Seq<u8>, hash: ObjectHash) -> Result<
        Option<usize>,
        CoercionErrorView,
    > {
        match abbreviation_of(raw, hash) {
            Some(len) => Ok(len),
            None => Err(self.error(raw)),
        }
    }

    /// Reads `raw` as an abbreviation length under this key.
    pub fn try_into_abbreviation(&self, raw: &[u8], hash: ObjectHash) -> (r: Result<
        Option<usize>,
        CoercionError,
    >)
        ensures
            coerced(r) == self.abbreviation(raw@, hash),
    {
        match parse_abbreviation(raw, hash) {
            Some(len) => Ok(len),
            None => Err(self.fail(raw)),
        }
    }

    /// The hint that `raw` names under this key.
    pub open spec fn object_kind_hint(&self, raw: Seq<u8>) -> Result<
        Option<ObjectKindHint>,
        CoercionErrorView,
    > {
        match object_kind_hint_of(raw) {
            Some(hint) => Ok(hint),
            None => Err(self.error(raw)),
        }
    }

    /// Reads `raw` as a hint under this key.
    pub fn try_into_object_kind_hint(&self, raw: &[u8]) -> (r: Result<
        Option<ObjectKindHint>,
        CoercionError,
    >)
        ensures
            coerced(r) == self.object_kind_hint(raw@),
    {
        match parse_object_kind_hint(raw) {
            Some(hint) => Ok(hint),
            None => Err(self.fail(raw)),
        }
    }
}

/// A section of the schema, with the keys that it knows.
pub trait Section {
    spec fn section_name(&self) -> &'static str;

    spec fn section_keys(&self) -> Seq<Key>;

    fn name(&self) -> (r: &'static str)
        ensures
            r == self.section_name(),
    ;

    fn keys(&self) -> (r: Vec<Key>)
        ensures
            r@ == self.section_keys(),
    ;
}

/// The `core` section.
pub struct Core;

/// The `extensions` section.
pub struct Extensions;

/// The `gitoxide` section.
pub struct Gitoxide;

/// The `clone` section.
pub struct Clone;

impl Core {
    /// The `core.bare` key.
    pub open spec fn bare_key() -> Key {
        Key { section: "core", subsection: None, name: "bare", kind: Kind::Boolean }
    }

    /// The descriptor of `core.bare`.
    pub fn bare() -> (k: Key)
        ensures
            k == Self::bare_key(),
    {
        Key { section: "core", subsection: None, name: "bare", kind: Kind::Boolean }
    }

    /// The `core.repositoryFormatVersion` key.
    pub open spec fn repository_format_version_key() -> Key {
        Key {
            section: "core",
            subsection: None,
            name: "repositoryFormatVersion",
            kind: Kind::Unsigned,
        }
    }

    /// The descriptor of `core.repositoryFormatVersion`.
    pub fn repository_format_version() -> (k: Key)
        ensures
            k == Self::repository_format_version_key(),
    {
        Key {
            section: "core",
            subsection: None,
            name: "repositoryFormatVersion",
            kind: Kind::Unsigned,
        }
    }

    /// The `core.logAllRefUpdates` key.
    pub open spec fn log_all_ref_updates_key() -> Key {
        Key { section: "core", subsection: None, name: "logAllRefUpdates", kind: Kind::RefUpdates }
    }

    /// The descriptor of `core.logAllRefUpdates`.
    pub fn log_all_ref_updates() -> (k: Key)
        ensures
            k == Self::log_all_ref_updates_key(),
    {
        Key { section: "core", subsection: None, name: "logAllRefUpdates", kind: Kind::RefUpdates }
    }

    /// The `core.abbrev` key.
    pub open spec fn abbrev_key() -> Key {
        Key { section: "core", subsection: None, name: "abbrev", kind: Kind::Abbreviation }
    }

    /// The descriptor of `core.abbrev`.
    pub fn abbrev() -> (k: Key)
        ensures
            k == Self::abbrev_key(),
    {
        Key { section: "core", subsection: None, name: "abbrev", kind: Kind::Abbreviation }
    }

    /// The `core.deltaBaseCacheLimit` key.
    pub open spec fn delta_base_cache_limit_key() -> Key {
        Key {
            section: "core",
            subsection: None,
            name: "deltaBaseCacheLimit",
            kind: Kind::Unsigned,
        }
    }

    /// The descriptor of `core.deltaBaseCacheLimit`.
    pub fn delta_base_cache_limit() -> (k: Key)
        ensures
            k == Self::delta_base_cache_limit_key(),
    {
        Key {
            section: "core",
            subsection: None,
            name: "deltaBaseCacheLimit",
            kind: Kind::Unsigned,
        }
    }

    /// The `core.excludesFile` key.
    pub open spec fn excludes_file_key() -> Key {
        Key { section: "core", subsection: None, name: "excludesFile", kind: Kind::Path }
    }

    /// The descriptor of `core.excludesFile`.
    pub fn excludes_file() -> (k: Key)
        ensures
            k == Self::excludes_file_key(),
    {
        Key { section: "core", subsection: None, name: "excludesFile", kind: Kind::Path }
    }

    /// The `core.disambiguate` key.
    pub open spec fn disambiguate_key() -> Key {
        Key { section: "core", subsection: None, name: "disambiguate", kind: Kind::ObjectKindHint }
    }

    /// The descriptor of `core.disambiguate`.
    pub fn disambiguate() -> (k: Key)
        ensures
            k == Self::disambiguate_key(),
    {
        Key { section: "core", subsection: None, name: "disambiguate", kind: Kind::ObjectKindHint }
    }
}

impl Extensions {
    /// The `extensions.worktreeConfig` key.
    pub open spec fn worktree_config_key() -> Key {
        Key { section: "extensions", subsection: None, name: "worktreeConfig", kind: Kind::Boolean }
    }

    /// The descriptor of `extensions.worktreeConfig`.
    pub fn worktree_config() -> (k: Key)
        ensures
            k == Self::worktree_config_key(),
    {
        Key { section: "extensions", subsection: None, name: "worktreeConfig", kind: Kind::Boolean }
    }

    /// The `extensions.objectFormat` key.
    pub open spec fn object_format_key() -> Key {
        Key {
            section: "extensions",
            subsection: None,
            name: "objectFormat",
            kind: Kind::ObjectFormat,
        }
    }

    /// The descriptor of `extensions.objectFormat`.
    pub fn object_format() -> (k: Key)
        ensures
            k == Self::object_format_key(),
    {
        Key {
            section: "extensions",
            subsection: None,
            name: "objectFormat",
            kind: Kind::ObjectFormat,
        }
    }
}

impl Gitoxide {
    /// The `gitoxide.objects.cacheLimit` key.
    pub open spec fn objects_cache_limit_key() -> Key {
        Key {
            section: "gitoxide",
            subsection: Some("objects"),
            name: "cacheLimit",
            kind: Kind::Unsigned,
        }
    }

    /// The descriptor of `gitoxide.objects.cacheLimit`.
    pub fn objects_cache_limit() -> (k: Key)
        ensures
            k == Self::objects_cache_limit_key(),
    {
        Key {
            section: "gitoxide",
            subsection: Some("objects"),
            name: "cacheLimit",
            kind: Kind::Unsigned,
        }
    }
}

impl Clone {
    /// The `clone.defaultRemoteName` key.
    pub open spec fn default_remote_name_key() -> Key {
        Key {
            section: "clone",
            subsection: None,
            name: "defaultRemoteName",
            kind: Kind::RemoteName,
        }
    }

    /// The descriptor of `clone.defaultRemoteName`.
    pub fn default_remote_name() -> (k: Key)
        ensures
            k == Self::default_remote_name_key(),
    {
        Key {
            section: "clone",
            subsection: None,
            name: "defaultRemoteName",
            kind: Kind::RemoteName,
        }
    }
}

impl Section for Clone {
    open spec fn section_name(&self) -> &'static str {
        "clone"
    }

    open spec fn section_keys(&self) -> Seq<Key> {
        seq![Clone::default_remote_name_key()]
    }

    fn name(&self) -> (r: &'static str) {
        "clone"
    }

    fn keys(&self) -> (r: Vec<Key>) {
        let mut keys: Vec<Key> = Vec::new();
        keys.push(Clone::default_remote_name());
        assert(keys@ =~= seq![Clone::default_remote_name_key()]);
        keys
    }
}

impl Section for Core {
    open spec fn section_name(&self) -> &'static str {
        "core"
    }

    open spec fn section_keys(&self) -> Seq<Key> {
        seq![
            Core::bare_key(),
            Core::repository_format_version_key(),
            Core::log_all_ref_updates_key(),
            Core::abbrev_key(),
            Core::delta_base_cache_limit_key(),
            Core::disambiguate_key(),
            Core::excludes_file_key(),
        ]
    }

    fn name(&self) -> (r: &'static str) {
        "core"
    }

    fn keys(&self) -> (r: Vec<Key>) {
        let mut keys: Vec<Key> = Vec::new();
        keys.push(Core::bare());
        keys.push(Core::repository_format_version());
        keys.push(Core::log_all_ref_updates());
        keys.push(Core::abbrev());
        keys.push(Core::delta_base_cache_limit());
        keys.push(Core::disambiguate());
        keys.push(Core::excludes_file());
        assert(keys@ =~= self.section_keys());
        keys
    }
}

impl Section for Extensions {
    open spec fn section_name(&self) -> &'static str {
        "extensions"
    }

    open spec fn section_keys(&self) -> Seq<Key> {
        seq![Extensions::worktree_config_key(), Extensions::object_format_key()]
    }

    fn name(&self) -> (r: &'static str) {
        "extensions"
    }

    fn keys(&self) -> (r: Vec<Key>) {
        let mut keys: Vec<Key> = Vec::new();
        keys.push(Extensions::worktree_config());
        keys.push(Extensions::object_format());
        assert(keys@ =~= self.section_keys());
        keys
    }
}

impl Section for Gitoxide {
    open spec fn section_name(&self) -> &'static str {
        "gitoxide"
    }

    open spec fn section_keys(&self) -> Seq<Key> {
        seq![Gitoxide::objects_cache_limit_key()]
    }

    fn name(&self) -> (r: &'static str) {
        "gitoxide"
    }

    fn keys(&self) -> (r: Vec<Key>) {
        let mut keys: Vec<Key> = Vec::new();
        keys.push(Gitoxide::objects_cache_limit());
        assert(keys@ =~= self.section_keys());
        keys
    }
}

/// Every key of a schema section is filed under the name of that section.
pub proof fn lemma_keys_belong()
    ensures
        forall|i: int|
            0 <= i < Core.section_keys().len() ==> (#[trigger] Core.section_keys()[i]).section
                == Core.section_name(),
        forall|i: int|
            0 <= i < Extensions.section_keys().len() ==> (
            #[trigger] Extensions.section_keys()[i]).section == Extensions.section_name(),
        forall|i: int|
            0 <= i < Gitoxide.section_keys().len() ==> (
            #[trigger] Gitoxide.section_keys()[i]).section == Gitoxide.section_name(),
        forall|i: int|
            0 <= i < Clone.section_keys().len() ==> (#[trigger] Clone.section_keys()[i]).section
                == Clone.section_name(),
{
}

} // verus!
