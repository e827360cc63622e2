//! Reading values: scalar reads that yield the last value in file order,
//! multi-valued reads that yield all of them, addressed by section,
//! subsection and key or by a dotted name, with or without a filter on the
//! metadata of the sections.

use crate::file::{
    copy_opt, item_values, opt_bytes, opt_slice, section_values, Everything, File, FileView,
    Item, MetadataFilter, Section,
};
use crate::file::lemma_section_values_concat;
use crate::text::{bytes_eq, eq_ignore_ascii_case, to_vec, DOT};
use crate::value::{boolean_of, integer_of, invalid, parse_boolean, parse_integer, ValueError};
use vstd::prelude::*;
use vstd::slice::slice_subrange;
use vstd::string::StringSliceAdditionalSpecFns;

verus! {

/// The index of the first dot of `s` at or after `i`, or the length of `s`.
pub open spec fn first_dot(s: Seq<u8>, i: int) -> int
    decreases s.len() - i,
{
    if 0 <= i < s.len() && s[i] != DOT {
        first_dot(s, i + 1)
    } else {
        i
    }
}

/// The index behind the last dot of `s` in front of `n`, or 0.
pub open spec fn last_dot(s: Seq<u8>, n: int) -> int
    decreases n,
{
    if 0 < n <= s.len() && s[n - 1] != DOT {
        last_dot(s, n - 1)
    } else {
        n
    }
}

/// The parts of a dotted name: the section in front of its first dot, the key
/// behind its last dot, and the subsection between the two, if there are two.
/// A name without a dot addresses nothing.
pub open spec fn split_key(key: Seq<u8>) -> Option<(Seq<u8>, Option<Seq<u8>>, Seq<u8>)> {
    let f = first_dot(key, 0);
    let l = last_dot(key, key.len() as int);
    if f >= key.len() {
        None
    } else {
        Some(
            (
                key.subrange(0, f),
                if l - 1 == f {
                    None
                } else {
                    Some(key.subrange(f + 1, l - 1))
                },
                key.subrange(l, key.len() as int),
            ),
        )
    }
}

/// The text of a value; a key that stands without a value has an empty text.
pub open spec fn text_of(value: Option<Seq<u8>>) -> Seq<u8> {
    match value {
        Some(v) => v,
        None => Seq::empty(),
    }
}

pub open spec fn texts(values: Seq<Option<Seq<u8>>>) -> Seq<Seq<u8>> {
    Seq::new(values.len(), |i: int| text_of(values[i]))
}

/// The boolean that a raw value stands for, or its text where it stands for
/// none. A key without a value is true.
pub open spec fn boolean_at(value: Option<Seq<u8>>) -> Result<bool, Seq<u8>> {
    match value {
        None => Ok(true),
        Some(v) => match boolean_of(v) {
            Some(b) => Ok(b),
            None => Err(v),
        },
    }
}

/// The integer that a raw value stands for, or its text where it stands for
/// none.
pub open spec fn integer_at(value: Option<Seq<u8>>) -> Result<i64, Seq<u8>> {
    match integer_of(text_of(value)) {
        Some(n) => Ok(n),
        None => Err(text_of(value)),
    }
}

impl FileView {
    /// The text of the last value of a key.
    pub open spec fn string<P: MetadataFilter>(
        self,
        name: Seq<u8>,
        subsection: Option<Seq<u8>>,
        key: Seq<u8>,
        filter: &P,
    ) -> Option<Seq<u8>> {
        match self.value(name, subsection, key, filter) {
            Some(v) => Some(text_of(v)),
            None => None,
        }
    }

    /// The texts of all values of a key, in file order.
    pub open spec fn strings<P: MetadataFilter>(
        self,
        name: Seq<u8>,
        subsection: Option<Seq<u8>>,
        key: Seq<u8>,
        filter: &P,
    ) -> Seq<Seq<u8>> {
        texts(self.values(name, subsection, key, filter))
    }

    /// The last value of a key as a boolean: `None` where the key is absent,
    /// an error with the text where it is present and no boolean.
    pub open spec fn boolean<P: MetadataFilter>(
        self,
        name: Seq<u8>,
        subsection: Option<Seq<u8>>,
        key: Seq<u8>,
        filter: &P,
    ) -> Option<Result<bool, Seq<u8>>> {
        match self.value(name, subsection, key, filter) {
            Some(v) => Some(boolean_at(v)),
            None => None,
        }
    }

    /// The last value of a key as an integer: `None` where the key is absent,
    /// an error with the text where it is present and no integer.
    pub open spec fn integer<P: MetadataFilter>(
        self,
        name: Seq<u8>,
        subsection: Option<Seq<u8>>,
        key: Seq<u8>,
        filter: &P,
    ) -> Option<Result<i64, Seq<u8>>> {
        match self.value(name, subsection, key, filter) {
            Some(v) => Some(integer_at(v)),
            None => None,
        }
    }

    pub open spec fn value_by_key<P: MetadataFilter>(self, key: Seq<u8>, filter: &P) -> Option<
        Option<Seq<u8>>,
    > {
        match split_key(key) {
            Some((name, subsection, k)) => self.value(name, subsection, k, filter),
            None => None,
        }
    }

    pub open spec fn string_by_key<P: MetadataFilter>(self, key: Seq<u8>, filter: &P) -> Option<
        Seq<u8>,
    > {
        match self.value_by_key(key, filter) {
            Some(v) => Some(text_of(v)),
            None => None,
        }
    }

    pub open spec fn strings_by_key<P: MetadataFilter>(self, key: Seq<u8>, filter: &P) -> Seq<
        Seq<u8>,
    > {
        match split_key(key) {
            Some((name, subsection, k)) => self.strings(name, subsection, k, filter),
            None => Seq::empty(),
        }
    }

    pub open spec fn boolean_by_key<P: MetadataFilter>(self, key: Seq<u8>, filter: &P) -> Option<
        Result<bool, Seq<u8>>,
    > {
        match self.value_by_key(key, filter) {
            Some(v) => Some(boolean_at(v)),
            None => None,
        }
    }

    pub open spec fn integer_by_key<P: MetadataFilter>(self, key: Seq<u8>, filter: &P) -> Option<
        Result<i64, Seq<u8>>,
    > {
        match self.value_by_key(key, filter) {
            Some(v) => Some(integer_at(v)),
            None => None,
        }
    }
}

/// What a fallible read yields, with the offending text in place of the error.
pub open spec fn checked<T>(r: Option<Result<T, ValueError>>) -> Option<Result<T, Seq<u8>>> {
    match r {
        None => None,
        Some(Ok(t)) => Some(Ok(t)),
        Some(Err(e)) => Some(Err(e.value@)),
    }
}

pub open spec fn list_view(list: Seq<Vec<u8>>) -> Seq<Seq<u8>> {
    Seq::new(list.len(), |i: int| list[i]@)
}

/// The three parts of a dotted name, as ranges of it.
pub struct KeyParts<'a> {
    pub name: &'a [u8],
    pub subsection: Option<&'a [u8]>,
    pub key: &'a [u8],
}

/// Splits a dotted name at its first and its last dot.
pub fn split(key: &[u8]) -> (r: Option<KeyParts<'_>>)
    ensures
        match r {
            Some(parts) => split_key(key@) == Some(
                (parts.name@, opt_slice(parts.subsection), parts.key@),
            ),
            None => split_key(key@) is None,
        },
{
    let n = key.len();
    let mut f: usize = 0;
    while f < n && key[f] != DOT
        invariant
            n == key@.len(),
            f <= n,
            first_dot(key@, f as int) == first_dot(key@, 0),
        decreases n - f,
    {
        f += 1;
    }
    if f >= n {
        return None;
    }
    let mut l: usize = n;
    while l > f + 1 && key[l - 1] != DOT
        invariant
            n == key@.len(),
            f < l <= n,
            key@[f as int] == DOT,
            last_dot(key@, l as int) == last_dot(key@, n as int),
        decreases l,
    {
        l -= 1;
    }
    let subsection = if l - 1 == f {
        None
    } else {
        Some(slice_subrange(key, f + 1, l - 1))
    };
    Some(KeyParts { name: slice_subrange(key, 0, f), subsection, key: slice_subrange(key, l, n) })
}

fn same_subsection(held: &Option<Vec<u8>>, asked: Option<&[u8]>) -> (r: bool)
    ensures
        r == (opt_bytes(*held) == opt_slice(asked)),
{
    match held {
        Some(h) => match asked {
            Some(a) => bytes_eq(h.as_slice(), a),
            None => false,
        },
        None => asked.is_none(),
    }
}

impl Section {
    /// Whether a lookup of `name` and `subsection` addresses this section.
    pub fn is_named(&self, name: &[u8], subsection: Option<&[u8]>) -> (r: bool)
        ensures
            r == self@.matches(name@, opt_slice(subsection)),
    {
        self.name.len() > 0 && eq_ignore_ascii_case(self.name.as_slice(), name) && same_subsection(
            &self.subsection,
            subsection,
        )
    }
}

fn text(value: &Option<Vec<u8>>) -> (r: Vec<u8>)
    ensures
        r@ == text_of(opt_bytes(*value)),
{
    match value {
        Some(v) => to_vec(v.as_slice()),
        None => Vec::new(),
    }
}

fn as_boolean(value: &Option<Vec<u8>>) -> (r: Result<bool, ValueError>)
    ensures
        checked(Some(r)) == Some(boolean_at(opt_bytes(*value))),
{
    match value {
        None => Ok(true),
        Some(v) => match parse_boolean(v.as_slice()) {
            Some(b) => Ok(b),
            None => Err(invalid(v.as_slice())),
        },
    }
}

fn as_integer(value: &Option<Vec<u8>>) -> (r: Result<i64, ValueError>)
    ensures
        checked(Some(r)) == Some(integer_at(opt_bytes(*value))),
{
    let t = text(value);
    match parse_integer(t.as_slice()) {
        Some(n) => Ok(n),
        None => Err(ValueError { value: t }),
    }
}

impl File {
    /// The last value of `name.subsection.key` in the admitted sections. The
    /// outer `None` means that the key is absent, the inner one that it
    /// stands without a value.
    pub fn raw_value_filter<P: MetadataFilter>(
        &self,
        name: &[u8],
        subsection: Option<&[u8]>,
        key: &[u8],
        filter: &P,
    ) -> (r: Option<Option<Vec<u8>>>)
        ensures
            match r {
                Some(v) => self@.value(name@, opt_slice(subsection), key@, filter) == Some(
                    opt_bytes(v),
                ),
                None => self@.value(name@, opt_slice(subsection), key@, filter) is None,
            },
    {
        let ghost secs = self@.sections;
        let ghost sub = opt_slice(subsection);
        let mut i: usize = self.sections.len();
        assert(secs.take(i as int) =~= secs);
        while i > 0
            invariant
                i <= self.sections.len(),
                secs == self@.sections,
                sub == opt_slice(subsection),
                section_values(secs, name@, sub, key@, filter) == section_values(
                    secs.take(i as int),
                    name@,
                    sub,
                    key@,
                    filter,
                ),
            decreases i,
        {
            let section = &self.sections[i - 1];
            let ghost t = secs.take(i as int);
            let ghost rest = section_values(secs.take(i - 1), name@, sub, key@, filter);
            assert(t.drop_last() =~= secs.take(i - 1));
            assert(t.last() == section@);
            if section.is_named(name, subsection) && filter.test(&section.meta) {
                let ghost items = section@.items;
                let mut j: usize = section.items.len();
                assert(items.take(j as int) =~= items);
                while j > 0
                    invariant
                        j <= section.items.len(),
                        items == section@.items,
                        secs == self@.sections,
                        sub == opt_slice(subsection),
                        section_values(secs, name@, sub, key@, filter) == rest + item_values(
                            items,
                            key@,
                        ),
                        item_values(items, key@) == item_values(items.take(j as int), key@),
                    decreases j,
                {
                    let ghost u = items.take(j as int);
                    assert(u.drop_last() =~= items.take(j - 1));
                    assert(u.last() == section.items[j - 1]@);
                    match &section.items[j - 1] {
                        Item::Entry(e) => {
                            if eq_ignore_ascii_case(e.key.as_slice(), key) {
                                proof {
                                    let found = item_values(items, key@);
                                    assert(found.last() == e@.value);
                                    assert((rest + found).last() == e@.value);
                                }
                                return Some(copy_opt(&e.value));
                            }
                        },
                        Item::Trivia(_) => {},
                    }
                    j -= 1;
                }
                assert(rest + item_values(items, key@) =~= rest);
            }
            i -= 1;
        }
        None
    }

    /// All values of `name.subsection.key` in the admitted sections, as
    /// texts, in file order.
    pub fn strings_filter<P: MetadataFilter>(
        &self,
        name: &[u8],
        subsection: Option<&[u8]>,
        key: &[u8],
        filter: &P,
    ) -> (r: Vec<Vec<u8>>)
        ensures
            list_view(r@) == self@.strings(name@, opt_slice(subsection), key@, filter),
    {
        let ghost secs = self@.sections;
        let ghost sub = opt_slice(subsection);
        let mut out: Vec<Vec<u8>> = Vec::new();
        let mut i: usize = 0;
        assert(list_view(out@) =~= texts(
            section_values(secs.take(0), name@, sub, key@, filter),
        ));
        while i < self.sections.len()
            invariant
                i <= self.sections.len(),
                secs == self@.sections,
                sub == opt_slice(subsection),
                list_view(out@) == texts(
                    section_values(secs.take(i as int), name@, sub, key@, filter),
                ),
            decreases self.sections.len() - i,
        {
            let section = &self.sections[i];
            let ghost t = secs.take(i + 1);
            let ghost rest = section_values(secs.take(i as int), name@, sub, key@, filter);
            assert(t.drop_last() =~= secs.take(i as int));
            assert(t.last() == section@);
            if section.is_named(name, subsection) && filter.test(&section.meta) {
                let ghost items = section@.items;
                let mut j: usize = 0;
                assert(list_view(out@) =~= texts(rest + item_values(items.take(0), key@)));
                while j < section.items.len()
                    invariant
                        j <= section.items.len(),
                        items == section@.items,
                        list_view(out@) == texts(rest + item_values(items.take(j as int), key@)),
                    decreases section.items.len() - j,
                {
                    let ghost u = items.take(j + 1);
                    let ghost prior = item_values(items.take(j as int), key@);
                    assert(u.drop_last() =~= items.take(j as int));
                    assert(u.last() == section.items[j as int]@);
                    match &section.items[j] {
                        Item::Entry(e) => {
                            if eq_ignore_ascii_case(e.key.as_slice(), key) {
                                let ghost before = out@;
                                out.push(text(&e.value));
                                assert(rest + prior.push(e@.value) =~= (rest + prior).push(
                                    e@.value,
                                ));
                                let ghost grown = texts((rest + prior).push(e@.value));
                                assert(list_view(before).len() == texts(rest + prior).len());
                                assert forall|k: int| 0 <= k < out@.len() implies list_view(
                                    out@,
                                )[k] == grown[k] by {
                                    if k < before.len() {
                                        assert(list_view(before)[k] == texts(rest + prior)[k]);
                                    }
                                }
                                assert(list_view(out@) =~= grown);
                            }
                        },
                        Item::Trivia(_) => {},
                    }
                    j += 1;
                }
                assert(items.take(j as int) =~= items);
            }
            i += 1;
        }
        assert(secs.take(i as int) =~= secs);
        out
    }

    /// The text of the last value of a key in the admitted sections.
    pub fn string_filter<P: MetadataFilter>(
        &self,
        name: &str,
        subsection: Option<&[u8]>,
        key: &str,
        filter: &P,
    ) -> (r: Option<Vec<u8>>)
        ensures
            opt_bytes(r) == self@.string(
                name.spec_bytes(),
                opt_slice(subsection),
                key.spec_bytes(),
                filter,
            ),
    {
        match self.raw_value_filter(name.as_bytes(), subsection, key.as_bytes(), filter) {
            Some(v) => Some(text(&v)),
            None => None,
        }
    }

    /// The last value of a key in the admitted sections, as a boolean.
    pub fn boolean_filter<P: MetadataFilter>(
        &self,
        name: &str,
        subsection: Option<&[u8]>,
        key: &str,
        filter: &P,
    ) -> (r: Option<Result<bool, ValueError>>)
        ensures
            checked(r) == self@.boolean(
                name.spec_bytes(),
                opt_slice(subsection),
                key.spec_bytes(),
                filter,
            ),
    {
        match self.raw_value_filter(name.as_bytes(), subsection, key.as_bytes(), filter) {
            Some(v) => Some(as_boolean(&v)),
            None => None,
        }
    }

    /// The last value of a key in the admitted sections, as an integer.
    pub fn integer_filter<P: MetadataFilter>(
        &self,
        name: &str,
        subsection: Option<&[u8]>,
        key: &str,
        filter: &P,
    ) -> (r: Option<Result<i64, ValueError>>)
        ensures
            checked(r) == self@.integer(
                name.spec_bytes(),
                opt_slice(subsection),
                key.spec_bytes(),
                filter,
            ),
    {
        match self.raw_value_filter(name.as_bytes(), subsection, key.as_bytes(), filter) {
            Some(v) => Some(as_integer(&v)),
            None => None,
        }
    }

    /// The text of the last value of a key.
    pub fn string(&self, name: &str, subsection: Option<&[u8]>, key: &str) -> (r: Option<Vec<u8>>)
        ensures
            opt_bytes(r) == self@.string(
                name.spec_bytes(),
                opt_slice(subsection),
                key.spec_bytes(),
                &Everything,
            ),
    {
        self.string_filter(name, subsection, key, &Everything)
    }

    /// The texts of all values of a key, in file order.
    pub fn strings(&self, name: &str, subsection: Option<&[u8]>, key: &str) -> (r: Vec<Vec<u8>>)
        ensures
            list_view(r@) == self@.strings(
                name.spec_bytes(),
                opt_slice(subsection),
                key.spec_bytes(),
                &Everything,
            ),
    {
        self.strings_filter(name.as_bytes(), subsection, key.as_bytes(), &Everything)
    }

    /// The last value of a key as a boolean.
    pub fn boolean(&self, name: &str, subsection: Option<&[u8]>, key: &str) -> (r: Option<
        Result<bool, ValueError>,
    >)
        ensures
            checked(r) == self@.boolean(
                name.spec_bytes(),
                opt_slice(subsection),
                key.spec_bytes(),
                &Everything,
            ),
    {
        self.boolean_filter(name, subsection, key, &Everything)
    }

    /// The last value of a key as an integer.
    pub fn integer(&self, name: &str, subsection: Option<&[u8]>, key: &str) -> (r: Option<
        Result<i64, ValueError>,
    >)
        ensures
            checked(r) == self@.integer(
                name.spec_bytes(),
                opt_slice(subsection),
                key.spec_bytes(),
                &Everything,
            ),
    {
        self.integer_filter(name, subsection, key, &Everything)
    }

    /// The last value under a dotted name in the admitted sections.
    pub fn raw_value_filter_by_key<P: MetadataFilter>(&self, key: &str, filter: &P) -> (r: Option<
        Option<Vec<u8>>,
    >)
        ensures
            match r {
                Some(v) => self@.value_by_key(key.spec_bytes(), filter) == Some(opt_bytes(v)),
                None => self@.value_by_key(key.spec_bytes(), filter) is None,
            },
    {
        match split(key.as_bytes()) {
            Some(parts) => self.raw_value_filter(parts.name, parts.subsection, parts.key, filter),
            None => None,
        }
    }

    /// The text of the last value under a dotted name in the admitted sections.
    pub fn string_filter_by_key<P: MetadataFilter>(&self, key: &str, filter: &P) -> (r: Option<
        Vec<u8>,
    >)
        ensures
            opt_bytes(r) == self@.string_by_key(key.spec_bytes(), filter),
    {
        match self.raw_value_filter_by_key(key, filter) {
            Some(v) => Some(text(&v)),
            None => None,
        }
    }

    /// The last value under a dotted name in the admitted sections, as a
    /// boolean.
    pub fn boolean_filter_by_key<P: MetadataFilter>(&self, key: &str, filter: &P) -> (r: Option<
        Result<bool, ValueError>,
    >)
        ensures
            checked(r) == self@.boolean_by_key(key.spec_bytes(), filter),
    {
        match self.raw_value_filter_by_key(key, filter) {
            Some(v) => Some(as_boolean(&v)),
            None => None,
        }
    }

    /// The last value under a dotted name in the admitted sections, as an
    /// integer.
    pub fn integer_filter_by_key<P: MetadataFilter>(&self, key: &str, filter: &P) -> (r: Option<
        Result<i64, ValueError>,
    >)
        ensures
            checked(r) == self@.integer_by_key(key.spec_bytes(), filter),
    {
        match self.raw_value_filter_by_key(key, filter) {
            Some(v) => Some(as_integer(&v)),
            None => None,
        }
    }

    /// The text of the last value under a dotted name.
    pub fn string_by_key(&self, key: &str) -> (r: Option<Vec<u8>>)
        ensures
            opt_bytes(r) == self@.string_by_key(key.spec_bytes(), &Everything),
    {
        self.string_filter_by_key(key, &Everything)
    }

    /// The texts of all values under a dotted name, in file order.
    pub fn strings_by_key(&self, key: &str) -> (r: Vec<Vec<u8>>)
        ensures
            list_view(r@) == self@.strings_by_key(key.spec_bytes(), &Everything),
    {
        match split(key.as_bytes()) {
            Some(parts) => self.strings_filter(
                parts.name,
                parts.subsection,
                parts.key,
                &Everything,
            ),
            None => {
                let out: Vec<Vec<u8>> = Vec::new();
                assert(list_view(out@) =~= Seq::<Seq<u8>>::empty());
                out
            },
        }
    }

    /// The last value under a dotted name, as a boolean.
    pub fn boolean_by_key(&self, key: &str) -> (r: Option<Result<bool, ValueError>>)
        ensures
            checked(r) == self@.boolean_by_key(key.spec_bytes(), &Everything),
    {
        self.boolean_filter_by_key(key, &Everything)
    }

    /// The last value under a dotted name, as an integer.
    pub fn integer_by_key(&self, key: &str) -> (r: Option<Result<i64, ValueError>>)
        ensures
            checked(r) == self@.integer_by_key(key.spec_bytes(), &Everything),
    {
        self.integer_filter_by_key(key, &Everything)
    }
}

/// Layering law for typed reads: the texts of a multi-valued key in
/// `a.append(b)` are those of `a` followed by those of `b`.
pub proof fn lemma_append_strings<P: MetadataFilter>(
    a: FileView,
    b: FileView,
    name: Seq<u8>,
    subsection: Option<Seq<u8>>,
    key: Seq<u8>,
    filter: &P,
)
    ensures
        a.append(b).strings(name, subsection, key, filter) == a.strings(
            name,
            subsection,
            key,
            filter,
        ) + b.strings(name, subsection, key, filter),
{
    lemma_section_values_concat(a.sections, b.sections, name, subsection, key, filter);
    assert(a.append(b).strings(name, subsection, key, filter) =~= a.strings(
        name,
        subsection,
        key,
        filter,
    ) + b.strings(name, subsection, key, filter));
}

} // verus!
