//! The lossless file model: sections of entries that remember the exact bytes
//! they were read from, layered in the order in which sources were appended.

use crate::text::{eq_ignore_case, push_all, to_vec};
use vstd::prelude::*;

verus! {

/// The scope a configuration source belongs to.
#[derive(Clone, Copy, Debug, PartialEq, Eq, Structural)]
pub enum Source {
    System,
    Global,
    Local,
    Worktree,
    Env,
    Cli,
}

/// How far the owner of a source is trusted.
#[derive(Clone, Copy, Debug, PartialEq, Eq, Structural)]
pub enum Trust {
    Reduced,
    Full,
}

/// Where a section came from.
#[derive(Debug, PartialEq, Eq)]
pub struct Metadata {
    pub source: Source,
    pub path: Option<Vec<u8>>,
    pub trust: Trust,
    /// Nesting depth of the source below the file that was asked for.
    pub level: u8,
}

pub struct MetadataView {
    pub source: Source,
    pub path: Option<Seq<u8>>,
    pub trust: Trust,
    pub level: u8,
}

/// The mathematical value of an optional byte string.
pub open spec fn opt_bytes(o: Option<Vec<u8>>) -> Option<Seq<u8>> {
    match o {
        Some(v) => Some(v@),
        None => None,
    }
}

/// The mathematical value of an optional borrowed byte string.
pub open spec fn opt_slice(o: Option<&[u8]>) -> Option<Seq<u8>> {
    match o {
        Some(v) => Some(v@),
        None => None,
    }
}

impl View for Metadata {
    type V = MetadataView;

    open spec fn view(&self) -> MetadataView {
        MetadataView {
            source: self.source,
            path: opt_bytes(self.path),
            trust: self.trust,
            level: self.level,
        }
    }
}

/// An owned copy of an optional byte string.
pub fn copy_opt(o: &Option<Vec<u8>>) -> (r: Option<Vec<u8>>)
    ensures
        opt_bytes(r) == opt_bytes(*o),
{
    match o {
        Some(v) => Some(to_vec(v.as_slice())),
        None => None,
    }
}

impl Metadata {
    /// Metadata of a fully trusted top-level source without a path.
    pub fn from(source: Source) -> (m: Metadata)
        ensures
            m@ == (MetadataView { source, path: None, trust: Trust::Full, level: 0 }),
    {
        Metadata { source, path: None, trust: Trust::Full, level: 0 }
    }

    /// The same metadata, located at `path`.
    pub fn at(self, path: Vec<u8>) -> (m: Metadata)
        ensures
            m@ == (MetadataView { path: Some(path@), ..self@ }),
    {
        Metadata { source: self.source, path: Some(path), trust: self.trust, level: self.level }
    }

    /// The same metadata with another trust level.
    pub fn with(self, trust: Trust) -> (m: Metadata)
        ensures
            m@ == (MetadataView { trust, ..self@ }),
    {
        Metadata { source: self.source, path: self.path, trust, level: self.level }
    }

    /// The same metadata at another nesting depth.
    pub fn nested(self, level: u8) -> (m: Metadata)
        ensures
            m@ == (MetadataView { level, ..self@ }),
    {
        Metadata { source: self.source, path: self.path, trust: self.trust, level }
    }

    /// An owned copy.
    pub fn duplicate(&self) -> (m: Metadata)
        ensures
            m@ == self@,
    {
        Metadata {
            source: self.source,
            path: copy_opt(&self.path),
            trust: self.trust,
            level: self.level,
        }
    }
}

/// One `key` or `key = value` line, split where an edit of the value cuts it.
#[derive(Debug, PartialEq, Eq)]
pub struct Entry {
    /// The key as written.
    pub key: Vec<u8>,
    /// The value with quoting and escapes resolved; `None` for a bare key.
    pub value: Option<Vec<u8>>,
    /// The raw bytes in front of the value text.
    pub lead: Vec<u8>,
    /// The raw bytes of the value text.
    pub text: Vec<u8>,
    /// The raw bytes behind the value text, through the end of the line.
    pub tail: Vec<u8>,
}

pub struct EntryView {
    pub key: Seq<u8>,
    pub value: Option<Seq<u8>>,
    pub lead: Seq<u8>,
    pub text: Seq<u8>,
    pub tail: Seq<u8>,
}

impl View for Entry {
    type V = EntryView;

    open spec fn view(&self) -> EntryView {
        EntryView {
            key: self.key@,
            value: opt_bytes(self.value),
            lead: self.lead@,
            text: self.text@,
            tail: self.tail@,
        }
    }
}

/// What a section holds besides its header, in file order.
#[derive(Debug, PartialEq, Eq)]
pub enum Item {
    /// Blank lines and comments, kept verbatim.
    Trivia(Vec<u8>),
    Entry(Entry),
}

pub enum ItemView {
    Trivia(Seq<u8>),
    Entry(EntryView),
}

impl View for Item {
    type V = ItemView;

    open spec fn view(&self) -> ItemView {
        match self {
            Item::Trivia(raw) => ItemView::Trivia(raw@),
            Item::Entry(e) => ItemView::Entry(e@),
        }
    }
}

impl ItemView {
    /// The bytes this item serializes to.
    pub open spec fn bytes(self) -> Seq<u8> {
        match self {
            ItemView::Trivia(raw) => raw,
            ItemView::Entry(e) => e.lead + e.text + e.tail,
        }
    }

    /// Whether this item is an entry for `key`; keys compare without case.
    pub open spec fn has_key(self, key: Seq<u8>) -> bool {
        match self {
            ItemView::Trivia(_) => false,
            ItemView::Entry(e) => eq_ignore_case(e.key, key),
        }
    }

    /// The value of an entry; arbitrary for trivia.
    pub open spec fn value(self) -> Option<Seq<u8>> {
        match self {
            ItemView::Trivia(_) => None,
            ItemView::Entry(e) => e.value,
        }
    }
}

/// A header line with everything up to the next header. The lines in front
/// of a file's first header form a block of their own, with an empty header
/// and an empty name, that no lookup matches.
#[derive(Debug, PartialEq, Eq)]
pub struct Section {
    pub name: Vec<u8>,
    pub subsection: Option<Vec<u8>>,
    /// The raw header line.
    pub header: Vec<u8>,
    pub items: Vec<Item>,
    pub meta: Metadata,
}

pub struct SectionView {
    pub name: Seq<u8>,
    pub subsection: Option<Seq<u8>>,
    pub header: Seq<u8>,
    pub items: Seq<ItemView>,
    pub meta: MetadataView,
}

pub open spec fn items_view(items: Seq<Item>) -> Seq<ItemView> {
    Seq::new(items.len(), |i: int| items[i]@)
}

impl View for Section {
    type V = SectionView;

    open spec fn view(&self) -> SectionView {
        SectionView {
            name: self.name@,
            subsection: opt_bytes(self.subsection),
            header: self.header@,
            items: items_view(self.items@),
            meta: self.meta@,
        }
    }
}

impl Item {
    /// An owned copy.
    pub fn duplicate(&self) -> (r: Item)
        ensures
            r@ == self@,
    {
        match self {
            Item::Trivia(raw) => Item::Trivia(to_vec(raw.as_slice())),
            Item::Entry(e) => Item::Entry(
                Entry {
                    key: to_vec(e.key.as_slice()),
                    value: copy_opt(&e.value),
                    lead: to_vec(e.lead.as_slice()),
                    text: to_vec(e.text.as_slice()),
                    tail: to_vec(e.tail.as_slice()),
                },
            ),
        }
    }
}

impl Section {
    /// An owned copy.
    pub fn duplicate(&self) -> (r: Section)
        ensures
            r@ == self@,
    {
        let mut items: Vec<Item> = Vec::new();
        let mut i: usize = 0;
        while i < self.items.len()
            invariant
                i <= self.items.len(),
                items@.len() == i,
                forall|j: int| 0 <= j < i ==> items@[j]@ == self.items@[j]@,
            decreases self.items.len() - i,
        {
            items.push(self.items[i].duplicate());
            i += 1;
        }
        assert(items_view(items@) =~= items_view(self.items@));
        Section {
            name: to_vec(self.name.as_slice()),
            subsection: copy_opt(&self.subsection),
            header: to_vec(self.header.as_slice()),
            items,
            meta: self.meta.duplicate(),
        }
    }
}

/// The concatenated bytes of a run of items.
pub open spec fn items_bytes(items: Seq<ItemView>) -> Seq<u8>
    decreases items.len(),
{
    if items.len() == 0 {
        Seq::empty()
    } else {
        items_bytes(items.drop_last()) + items.last().bytes()
    }
}

/// The values of all entries for `key` among `items`, in order.
pub open spec fn item_values(items: Seq<ItemView>, key: Seq<u8>) -> Seq<Option<Seq<u8>>>
    decreases items.len(),
{
    if items.len() == 0 {
        Seq::empty()
    } else if items.last().has_key(key) {
        item_values(items.drop_last(), key).push(items.last().value())
    } else {
        item_values(items.drop_last(), key)
    }
}

impl SectionView {
    pub open spec fn bytes(self) -> Seq<u8> {
        self.header + items_bytes(self.items)
    }

    /// Whether a lookup of `name` and `subsection` addresses this section.
    /// Section names compare without case, subsection names exactly.
    pub open spec fn matches(self, name: Seq<u8>, subsection: Option<Seq<u8>>) -> bool {
        self.name.len() > 0 && eq_ignore_case(self.name, name) && self.subsection == subsection
    }
}

/// A predicate over the metadata of sections, to leave sources out of a read.
pub trait MetadataFilter {
    spec fn admits(&self, meta: MetadataView) -> bool;

    fn test(&self, meta: &Metadata) -> (r: bool)
        ensures
            r == self.admits(meta@),
    ;
}

/// Admits every section.
pub struct Everything;

impl MetadataFilter for Everything {
    open spec fn admits(&self, meta: MetadataView) -> bool {
        true
    }

    fn test(&self, meta: &Metadata) -> (r: bool) {
        true
    }
}

/// Admits the sections that do not come from the given scope.
pub struct NotFrom(pub Source);

impl MetadataFilter for NotFrom {
    open spec fn admits(&self, meta: MetadataView) -> bool {
        meta.source != self.0
    }

    fn test(&self, meta: &Metadata) -> (r: bool) {
        meta.source != self.0
    }
}

/// Admits the sections of fully trusted sources.
pub struct TrustedOnly;

impl MetadataFilter for TrustedOnly {
    open spec fn admits(&self, meta: MetadataView) -> bool {
        meta.trust == Trust::Full
    }

    fn test(&self, meta: &Metadata) -> (r: bool) {
        meta.trust == Trust::Full
    }
}

/// The concatenated bytes of a run of sections.
pub open spec fn sections_bytes(sections: Seq<SectionView>) -> Seq<u8>
    decreases sections.len(),
{
    if sections.len() == 0 {
        Seq::empty()
    } else {
        sections_bytes(sections.drop_last()) + sections.last().bytes()
    }
}

/// All values of `name.subsection.key` in the admitted sections, in order.
pub open spec fn section_values<P: MetadataFilter>(
    sections: Seq<SectionView>,
    name: Seq<u8>,
    subsection: Option<Seq<u8>>,
    key: Seq<u8>,
    filter: &P,
) -> Seq<Option<Seq<u8>>>
    decreases sections.len(),
{
    if sections.len() == 0 {
        Seq::empty()
    } else {
        let rest = section_values(sections.drop_last(), name, subsection, key, filter);
        let last = sections.last();
        if last.matches(name, subsection) && filter.admits(last.meta) {
            rest + item_values(last.items, key)
        } else {
            rest
        }
    }
}

/// A configuration, layered from one or more sources. Sections that were
/// appended later take precedence.
#[derive(Debug, PartialEq, Eq)]
pub struct File {
    pub sections: Vec<Section>,
}

pub struct FileView {
    pub sections: Seq<SectionView>,
}

pub open spec fn sections_view(sections: Seq<Section>) -> Seq<SectionView> {
    Seq::new(sections.len(), |i: int| sections[i]@)
}

impl View for File {
    type V = FileView;

    open spec fn view(&self) -> FileView {
        FileView { sections: sections_view(self.sections@) }
    }
}

impl FileView {
    /// The exact text of the file.
    pub open spec fn bytes(self) -> Seq<u8> {
        sections_bytes(self.sections)
    }

    /// The file with the sections of `other` layered on top.
    pub open spec fn append(self, other: FileView) -> FileView {
        FileView { sections: self.sections + other.sections }
    }

    /// Every value of a multi-valued key, in file order.
    pub open spec fn values<P: MetadataFilter>(
        self,
        name: Seq<u8>,
        subsection: Option<Seq<u8>>,
        key: Seq<u8>,
        filter: &P,
    ) -> Seq<Option<Seq<u8>>> {
        section_values(self.sections, name, subsection, key, filter)
    }

    /// The value that a scalar read yields: the last one in file order.
    /// The outer `None` means that the key is absent, the inner one that it
    /// stands without a value.
    pub open spec fn value<P: MetadataFilter>(
        self,
        name: Seq<u8>,
        subsection: Option<Seq<u8>>,
        key: Seq<u8>,
        filter: &P,
    ) -> Option<Option<Seq<u8>>> {
        let all = self.values(name, subsection, key, filter);
        if all.len() == 0 {
            None
        } else {
            Some(all.last())
        }
    }
}

pub proof fn lemma_items_bytes_push(items: Seq<ItemView>, item: ItemView)
    ensures
        items_bytes(items.push(item)) == items_bytes(items) + item.bytes(),
{
    assert(items.push(item).drop_last() =~= items);
}

pub proof fn lemma_sections_bytes_push(sections: Seq<SectionView>, section: SectionView)
    ensures
        sections_bytes(sections.push(section)) == sections_bytes(sections) + section.bytes(),
{
    assert(sections.push(section).drop_last() =~= sections);
}

pub proof fn lemma_sections_bytes_concat(a: Seq<SectionView>, b: Seq<SectionView>)
    ensures
        sections_bytes(a + b) == sections_bytes(a) + sections_bytes(b),
    decreases b.len(),
{
    if b.len() == 0 {
        assert(a + b =~= a);
        assert(sections_bytes(a) + sections_bytes(b) =~= sections_bytes(a));
    } else {
        assert((a + b).drop_last() =~= a + b.drop_last());
        lemma_sections_bytes_concat(a, b.drop_last());
        assert(sections_bytes(a + b) =~= sections_bytes(a) + sections_bytes(b));
    }
}

pub proof fn lemma_section_values_concat<P: MetadataFilter>(
    a: Seq<SectionView>,
    b: Seq<SectionView>,
    name: Seq<u8>,
    subsection: Option<Seq<u8>>,
    key: Seq<u8>,
    filter: &P,
)
    ensures
        section_values(a + b, name, subsection, key, filter) == section_values(
            a,
            name,
            subsection,
            key,
            filter,
        ) + section_values(b, name, subsection, key, filter),
    decreases b.len(),
{
    let va = section_values(a, name, subsection, key, filter);
    let vb = section_values(b, name, subsection, key, filter);
    if b.len() == 0 {
        assert(a + b =~= a);
        assert(va + vb =~= va);
    } else {
        assert((a + b).drop_last() =~= a + b.drop_last());
        assert((a + b).last() == b.last());
        lemma_section_values_concat(a, b.drop_last(), name, subsection, key, filter);
        assert(section_values(a + b, name, subsection, key, filter) =~= va + vb);
    }
}

/// Layering law: after `a.append(b)`, a multi-valued read yields the values
/// of `a` followed by those of `b`, and a scalar read of a key that `b` holds
/// yields what it yields in `b` alone.
pub proof fn lemma_append_layers<P: MetadataFilter>(
    a: FileView,
    b: FileView,
    name: Seq<u8>,
    subsection: Option<Seq<u8>>,
    key: Seq<u8>,
    filter: &P,
)
    ensures
        a.append(b).values(name, subsection, key, filter) == a.values(
            name,
            subsection,
            key,
            filter,
        ) + b.values(name, subsection, key, filter),
        b.value(name, subsection, key, filter) is Some ==> a.append(b).value(
            name,
            subsection,
            key,
            filter,
        ) == b.value(name, subsection, key, filter),
        b.value(name, subsection, key, filter) is None ==> a.append(b).value(
            name,
            subsection,
            key,
            filter,
        ) == a.value(name, subsection, key, filter),
        a.append(b).bytes() == a.bytes() + b.bytes(),
{
    lemma_section_values_concat(a.sections, b.sections, name, subsection, key, filter);
    lemma_sections_bytes_concat(a.sections, b.sections);
    let vb = b.values(name, subsection, key, filter);
    let va = a.values(name, subsection, key, filter);
    if vb.len() == 0 {
        assert(va + vb =~= va);
    }
}

impl Default for File {
    fn default() -> (f: File)
        ensures
            f@.sections.len() == 0,
    {
        File { sections: Vec::new() }
    }
}

impl File {
    /// An empty configuration.
    pub fn new() -> (f: File)
        ensures
            f@.sections.len() == 0,
    {
        File { sections: Vec::new() }
    }

    /// Layers `other` on top of `self`: its sections follow those of `self`,
    /// so that its values win scalar reads.
    pub fn append(&mut self, other: File)
        ensures
            final(self)@ == old(self)@.append(other@),
    {
        let mut other = other;
        let ghost before = self.sections@;
        let ghost added = other.sections@;
        self.sections.append(&mut other.sections);
        assert(sections_view(before + added) =~= sections_view(before) + sections_view(added));
    }

    /// The exact text of the file: what was read, but for the edits made.
    pub fn to_bytes(&self) -> (out: Vec<u8>)
        ensures
            out@ == self@.bytes(),
    {
        let mut out: Vec<u8> = Vec::new();
        let mut i: usize = 0;
        while i < self.sections.len()
            invariant
                i <= self.sections.len(),
                out@ == sections_bytes(self@.sections.take(i as int)),
            decreases self.sections.len() - i,
        {
            let section = &self.sections[i];
            let ghost done = out@;
            push_all(&mut out, section.header.as_slice());
            let mut j: usize = 0;
            while j < section.items.len()
                invariant
                    j <= section.items.len(),
                    out@ == done + section@.header + items_bytes(section@.items.take(j as int)),
                decreases section.items.len() - j,
            {
                let ghost prior = section@.items.take(j as int);
                match &section.items[j] {
                    Item::Trivia(raw) => {
                        push_all(&mut out, raw.as_slice());
                    },
                    Item::Entry(e) => {
                        push_all(&mut out, e.lead.as_slice());
                        push_all(&mut out, e.text.as_slice());
                        push_all(&mut out, e.tail.as_slice());
                    },
                }
                proof {
                    let item = section@.items[j as int];
                    assert(section@.items.take(j as int + 1) =~= prior.push(item));
                    lemma_items_bytes_push(prior, item);
                    assert(out@ =~= done + section@.header + (items_bytes(prior) + item.bytes()));
                }
                j += 1;
            }
            proof {
                assert(section@.items.take(j as int) =~= section@.items);
                let sv = self@.sections[i as int];
                assert(sv == section@);
                assert(self@.sections.take(i as int + 1) =~= self@.sections.take(i as int).push(
                    sv,
                ));
                lemma_sections_bytes_push(self@.sections.take(i as int), sv);
                assert(out@ =~= done + sv.bytes());
            }
            i += 1;
        }
        assert(self@.sections.take(i as int) =~= self@.sections);
        out
    }
}

} // verus!
