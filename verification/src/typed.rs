//! Typed reads that are addressed by the descriptor of a key: the value is
//! found under the names of the descriptor and coerced to its kind, and a
//! value that is present but not of that kind is an error that names the key.

use crate::file::{opt_bytes, File, FileView, MetadataFilter};
use crate::keys::{coerced, CoercionError, CoercionErrorView, Key};
use crate::path::{interpolate, interpolated, Context, ContextView, Expansion, ExpansionView};
use vstd::prelude::*;
use vstd::string::StringSliceAdditionalSpecFns;

verus! {

/// A typed read: nothing where the key is absent, the value or the error
/// of its coercion where it is present.
pub open spec fn typed<T>(r: Option<Result<T, CoercionError>>) -> Option<
    Result<T, CoercionErrorView>,
> {
    match r {
        Some(res) => Some(coerced(res)),
        None => None,
    }
}

impl Key {
    /// The subsection under which the key is filed, as bytes.
    pub open spec fn subsection_bytes(&self) -> Option<Seq<u8>> {
        match self.subsection {
            Some(s) => Some(s.spec_bytes()),
            None => None,
        }
    }

    /// The path that `raw` names under this key, expanded as far as `ctx`
    /// allows. A path that cannot be expanded does not satisfy the key.
    pub open spec fn path(&self, raw: Seq<u8>, ctx: ContextView) -> Result<
        ExpansionView,
        CoercionErrorView,
    > {
        match interpolated(raw, ctx) {
            Ok(e) => Ok(e),
            Err(_) => Err(CoercionErrorView { key: self.logical(), value: raw, kind: self.kind }),
        }
    }

    /// Reads `raw` as a path under this key.
    pub fn try_into_path(&self, raw: &[u8], ctx: &Context) -> (r: Result<Expansion, CoercionError>)
        ensures
            match r {
                Ok(e) => self.path(raw@, ctx@) == Ok::<ExpansionView, CoercionErrorView>(e@),
                Err(e) => self.path(raw@, ctx@) == Err::<ExpansionView, CoercionErrorView>(e@),
            },
    {
        match interpolate(raw, ctx) {
            Ok(e) => Ok(e),
            Err(_) => Err(
                CoercionError {
                    key: self.logical_name(),
                    value: crate::text::to_vec(raw),
                    kind: self.kind,
                },
            ),
        }
    }
}

impl FileView {
    /// The text of the last value of `key` in the admitted sections.
    pub open spec fn string_for<P: MetadataFilter>(self, key: Key, filter: &P) -> Option<Seq<u8>> {
        self.string(key.section.spec_bytes(), key.subsection_bytes(), key.name.spec_bytes(), filter)
    }

    /// The last value of `key` as a boolean.
    pub open spec fn boolean_for<P: MetadataFilter>(self, key: Key, filter: &P) -> Option<
        Result<bool, CoercionErrorView>,
    > {
        match self.boolean(
            key.section.spec_bytes(),
            key.subsection_bytes(),
            key.name.spec_bytes(),
            filter,
        ) {
            Some(res) => Some(key.enriched(res)),
            None => None,
        }
    }

    /// The last value of `key` as an integer.
    pub open spec fn integer_for<P: MetadataFilter>(self, key: Key, filter: &P) -> Option<
        Result<i64, CoercionErrorView>,
    > {
        match self.integer(
            key.section.spec_bytes(),
            key.subsection_bytes(),
            key.name.spec_bytes(),
            filter,
        ) {
            Some(res) => Some(key.enriched(res)),
            None => None,
        }
    }

    /// The last value of `key` as a count that fits the platform's word.
    pub open spec fn size_for<P: MetadataFilter>(self, key: Key, filter: &P) -> Option<
        Result<usize, CoercionErrorView>,
    > {
        match self.string_for(key, filter) {
            Some(raw) => Some(key.unsigned(raw)),
            None => None,
        }
    }

    /// The last value of `key` as a path.
    pub open spec fn path_for<P: MetadataFilter>(self, key: Key, ctx: ContextView, filter: &P)
        -> Option<Result<ExpansionView, CoercionErrorView>> {
        match self.string_for(key, filter) {
            Some(raw) => Some(key.path(raw, ctx)),
            None => None,
        }
    }
}

fn subsection_of(key: &Key) -> (r: Option<&[u8]>)
    ensures
        crate::file::opt_slice(r) == key.subsection_bytes(),
{
    match key.subsection {
        Some(s) => Some(s.as_bytes()),
        None => None,
    }
}

impl File {
    /// The text of the last value of `key` in the admitted sections.
    pub fn string_for<P: MetadataFilter>(&self, key: &Key, filter: &P) -> (r: Option<Vec<u8>>)
        ensures
            opt_bytes(r) == self@.string_for(*key, filter),
    {
        self.string_filter(key.section, subsection_of(key), key.name, filter)
    }

    /// The last value of `key` in the admitted sections, as a boolean.
    pub fn boolean_for<P: MetadataFilter>(&self, key: &Key, filter: &P) -> (r: Option<
        Result<bool, CoercionError>,
    >)
        ensures
            typed(r) == self@.boolean_for(*key, filter),
    {
        match self.boolean_filter(key.section, subsection_of(key), key.name, filter) {
            Some(res) => Some(key.enrich_error(res)),
            None => None,
        }
    }

    /// The last value of `key` in the admitted sections, as an integer.
    pub fn integer_for<P: MetadataFilter>(&self, key: &Key, filter: &P) -> (r: Option<
        Result<i64, CoercionError>,
    >)
        ensures
            typed(r) == self@.integer_for(*key, filter),
    {
        match self.integer_filter(key.section, subsection_of(key), key.name, filter) {
            Some(res) => Some(key.enrich_error(res)),
            None => None,
        }
    }

    /// The last value of `key` in the admitted sections, as a count.
    pub fn size_for<P: MetadataFilter>(&self, key: &Key, filter: &P) -> (r: Option<
        Result<usize, CoercionError>,
    >)
        ensures
            typed(r) == self@.size_for(*key, filter),
    {
        match self.string_for(key, filter) {
            Some(raw) => Some(key.try_into_usize(raw.as_slice())),
            None => None,
        }
    }

    /// The last value of `key` in the admitted sections, as a path that is
    /// expanded as far as `ctx` allows.
    pub fn path_for<P: MetadataFilter>(&self, key: &Key, ctx: &Context, filter: &P) -> (r: Option<
        Result<Expansion, CoercionError>,
    >)
        ensures
            match r {
                None => self@.path_for(*key, ctx@, filter) is None,
                Some(Ok(e)) => self@.path_for(*key, ctx@, filter) == Some(
                    Ok::<ExpansionView, CoercionErrorView>(e@),
                ),
                Some(Err(e)) => self@.path_for(*key, ctx@, filter) == Some(
                    Err::<ExpansionView, CoercionErrorView>(e@),
                ),
            },
    {
        match self.string_for(key, filter) {
            Some(raw) => Some(key.try_into_path(raw.as_slice(), ctx)),
            None => None,
        }
    }
}

} // verus!
