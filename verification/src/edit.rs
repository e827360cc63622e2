//! Editing a file in place: setting and removing keys and removing sections.
//! An edit rewrites the value text of one entry, or adds or drops whole
//! lines; every other byte of the file stays as it was read.

use crate::file::{
    items_view, opt_slice, sections_view, Entry, EntryView, File, FileView, Item, ItemView,
    Metadata, MetadataView, Section, SectionView, Source, Trust,
};
use crate::scan::{has_class, in_class, Class};
use crate::text::{
    alpha, eq_ignore_ascii_case, eq_ignore_case, is_alpha, is_space, push_all, space, to_vec,
    BACKSLASH, BACKSPACE, CARRIAGE_RETURN, CLOSE_BRACKET, EQUALS, HASH, NEWLINE, OPEN_BRACKET,
    QUOTE, SEMICOLON, SPACE, TAB,
};
use vstd::prelude::*;
use vstd::string::StringSliceAdditionalSpecFns;

verus! {

/// Why an edit was refused.
#[derive(Clone, Copy, Debug, PartialEq, Eq, Structural)]
pub enum EditError {
    /// A section name, a subsection name or a key cannot be written to a file.
    BadName,
}

/// The index of the last entry for `key` among `items`, or -1.
pub open spec fn last_hit(items: Seq<ItemView>, key: Seq<u8>) -> int
    decreases items.len(),
{
    if items.len() == 0 {
        -1
    } else if items.last().has_key(key) {
        items.len() - 1
    } else {
        last_hit(items.drop_last(), key)
    }
}

/// The index of the last section that `name` and `subsection` address, or -1.
pub open spec fn last_section(
    sections: Seq<SectionView>,
    name: Seq<u8>,
    subsection: Option<Seq<u8>>,
) -> int
    decreases sections.len(),
{
    if sections.len() == 0 {
        -1
    } else if sections.last().matches(name, subsection) {
        sections.len() - 1
    } else {
        last_section(sections.drop_last(), name, subsection)
    }
}

/// The place of the entry that a scalar read of `name.subsection.key`
/// yields: the index of its section and its index among the items there.
pub open spec fn locate(
    sections: Seq<SectionView>,
    name: Seq<u8>,
    subsection: Option<Seq<u8>>,
    key: Seq<u8>,
) -> Option<(int, int)>
    decreases sections.len(),
{
    if sections.len() == 0 {
        None
    } else if sections.last().matches(name, subsection) && last_hit(sections.last().items, key)
        >= 0 {
        Some((sections.len() - 1, last_hit(sections.last().items, key)))
    } else {
        locate(sections.drop_last(), name, subsection, key)
    }
}

/// Whether `b` does not occur in `s`.
pub open spec fn free_of(s: Seq<u8>, b: u8) -> bool {
    forall|i: int| 0 <= i < s.len() ==> #[trigger] s[i] != b
}

pub open spec fn all_in_class(s: Seq<u8>, class: Class) -> bool {
    forall|i: int| 0 <= i < s.len() ==> in_class(class, #[trigger] s[i])
}

/// Whether the three names can be written to a file: a section name of
/// letters, digits and `-`, a key of the same characters that starts with a
/// letter, and a subsection without a line break.
pub open spec fn valid_names(name: Seq<u8>, subsection: Option<Seq<u8>>, key: Seq<u8>) -> bool {
    &&& name.len() > 0
    &&& all_in_class(name, Class::Name)
    &&& key.len() > 0
    &&& is_alpha(key[0])
    &&& all_in_class(key, Class::Name)
    &&& match subsection {
        Some(s) => free_of(s, NEWLINE),
        None => true,
    }
}

/// How one byte is written between quotes. A value also writes line breaks,
/// tabs and backspaces as escapes; a subsection name has none to write.
pub open spec fn escape_byte(b: u8, full: bool) -> Seq<u8> {
    if b == BACKSLASH || b == QUOTE {
        seq![BACKSLASH, b]
    } else if full && b == NEWLINE {
        seq![BACKSLASH, 110u8]
    } else if full && b == TAB {
        seq![BACKSLASH, 116u8]
    } else if full && b == BACKSPACE {
        seq![BACKSLASH, 98u8]
    } else {
        seq![b]
    }
}

pub open spec fn escaped(v: Seq<u8>, full: bool) -> Seq<u8>
    decreases v.len(),
{
    if v.len() == 0 {
        Seq::empty()
    } else {
        escaped(v.drop_last(), full) + escape_byte(v.last(), full)
    }
}

/// Whether a value must stand between quotes: where it begins or ends with
/// a blank, or holds a comment sign.
pub open spec fn needs_quotes(v: Seq<u8>) -> bool {
    ||| v.len() > 0 && (is_space(v[0]) || is_space(v.last()))
    ||| !free_of(v, HASH)
    ||| !free_of(v, SEMICOLON)
}

/// The text that a value is written as.
pub open spec fn encode(v: Seq<u8>) -> Seq<u8> {
    if needs_quotes(v) {
        seq![QUOTE] + escaped(v, true) + seq![QUOTE]
    } else {
        escaped(v, true)
    }
}

/// The line break that separates new text from a line that has none.
pub open spec fn line_break(open: bool) -> Seq<u8> {
    if open {
        seq![NEWLINE]
    } else {
        Seq::empty()
    }
}

/// A new entry, on a line of its own.
pub open spec fn new_entry(key: Seq<u8>, value: Seq<u8>, open: bool) -> EntryView {
    EntryView {
        key,
        value: Some(value),
        lead: line_break(open) + seq![TAB] + key + seq![SPACE, EQUALS, SPACE],
        text: encode(value),
        tail: seq![NEWLINE],
    }
}

/// An item with its value replaced. The text in front of and behind the
/// value stays; a key without a value gets the separator that it lacks.
pub open spec fn rewritten(item: ItemView, value: Seq<u8>) -> ItemView {
    match item {
        ItemView::Trivia(raw) => ItemView::Trivia(raw),
        ItemView::Entry(e) => ItemView::Entry(
            EntryView {
                key: e.key,
                value: Some(value),
                lead: if e.value is None {
                    e.lead + seq![SPACE, EQUALS, SPACE]
                } else {
                    e.lead
                },
                text: encode(value),
                tail: e.tail,
            },
        ),
    }
}

/// The header line of a new section.
pub open spec fn header_text(name: Seq<u8>, subsection: Option<Seq<u8>>, open: bool) -> Seq<u8> {
    match subsection {
        None => line_break(open) + seq![OPEN_BRACKET] + name + seq![CLOSE_BRACKET, NEWLINE],
        Some(s) => line_break(open) + seq![OPEN_BRACKET] + name + seq![SPACE, QUOTE] + escaped(
            s,
            false,
        ) + seq![QUOTE, CLOSE_BRACKET, NEWLINE],
    }
}

/// Whether a piece of text ends inside a line: it ends in no line break, or
/// in one that a backslash in front of it turns into a continuation.
pub open spec fn ends_inside_line(piece: Seq<u8>) -> bool {
    let n = piece.len() as int;
    ||| n == 0
    ||| piece[n - 1] != NEWLINE
    ||| n >= 2 && piece[n - 2] == BACKSLASH
    ||| n >= 3 && piece[n - 2] == CARRIAGE_RETURN && piece[n - 3] == BACKSLASH
}

impl SectionView {
    /// Whether the text of the section ends inside a line.
    pub open spec fn open_ended(self) -> bool {
        let piece = if self.items.len() == 0 {
            self.header
        } else {
            match self.items.last() {
                ItemView::Trivia(raw) => raw,
                ItemView::Entry(e) => e.tail,
            }
        };
        self.header.len() + self.items.len() > 0 && ends_inside_line(piece)
    }

    pub open spec fn with_items(self, items: Seq<ItemView>) -> SectionView {
        SectionView { items, ..self }
    }
}

/// The metadata of sections that an edit creates in a file without sections.
pub open spec fn fresh_meta() -> MetadataView {
    MetadataView { source: Source::Local, path: None, trust: Trust::Full, level: 0 }
}

impl FileView {
    pub open spec fn open_ended(self) -> bool {
        self.sections.len() > 0 && self.sections.last().open_ended()
    }

    /// The metadata that a new section gets: that of the last section.
    pub open spec fn meta_for_new(self) -> MetadataView {
        if self.sections.len() > 0 {
            self.sections.last().meta
        } else {
            fresh_meta()
        }
    }

    /// The file with `name.subsection.key` set to `value`: the value text of
    /// the last entry for the key is replaced; where there is none, an entry
    /// is added to the last section of that name; where there is no such
    /// section, one is added at the end. Names that cannot be written leave
    /// the file as it is.
    pub open spec fn set_value(
        self,
        name: Seq<u8>,
        subsection: Option<Seq<u8>>,
        key: Seq<u8>,
        value: Seq<u8>,
    ) -> FileView {
        if !valid_names(name, subsection, key) {
            self
        } else {
            match locate(self.sections, name, subsection, key) {
                Some((i, j)) => {
                    let section = self.sections[i];
                    FileView {
                        sections: self.sections.update(
                            i,
                            section.with_items(
                                section.items.update(j, rewritten(section.items[j], value)),
                            ),
                        ),
                    }
                },
                None => {
                    let i = last_section(self.sections, name, subsection);
                    if i >= 0 {
                        let section = self.sections[i];
                        FileView {
                            sections: self.sections.update(
                                i,
                                section.with_items(
                                    section.items.push(
                                        ItemView::Entry(
                                            new_entry(key, value, section.open_ended()),
                                        ),
                                    ),
                                ),
                            ),
                        }
                    } else {
                        FileView {
                            sections: self.sections.push(
                                SectionView {
                                    name,
                                    subsection,
                                    header: header_text(name, subsection, self.open_ended()),
                                    items: seq![ItemView::Entry(new_entry(key, value, false))],
                                    meta: self.meta_for_new(),
                                },
                            ),
                        }
                    }
                },
            }
        }
    }

    /// The file without the last entry for `name.subsection.key`.
    pub open spec fn remove(
        self,
        name: Seq<u8>,
        subsection: Option<Seq<u8>>,
        key: Seq<u8>,
    ) -> FileView {
        match locate(self.sections, name, subsection, key) {
            Some((i, j)) => {
                let section = self.sections[i];
                FileView {
                    sections: self.sections.update(i, section.with_items(section.items.remove(j))),
                }
            },
            None => self,
        }
    }

    /// The file without the last section that `name` and `subsection` address.
    pub open spec fn remove_section(self, name: Seq<u8>, subsection: Option<Seq<u8>>) -> FileView {
        let i = last_section(self.sections, name, subsection);
        if i >= 0 {
            FileView { sections: self.sections.remove(i) }
        } else {
            self
        }
    }
}

pub proof fn lemma_last_hit(items: Seq<ItemView>, key: Seq<u8>)
    ensures
        -1 <= last_hit(items, key) < items.len(),
        last_hit(items, key) >= 0 ==> items[last_hit(items, key)].has_key(key),
    decreases items.len(),
{
    if items.len() > 0 && !items.last().has_key(key) {
        lemma_last_hit(items.drop_last(), key);
    }
}

pub proof fn lemma_last_section(
    sections: Seq<SectionView>,
    name: Seq<u8>,
    subsection: Option<Seq<u8>>,
)
    ensures
        -1 <= last_section(sections, name, subsection) < sections.len(),
        last_section(sections, name, subsection) >= 0 ==> sections[last_section(
            sections,
            name,
            subsection,
        )].matches(name, subsection),
    decreases sections.len(),
{
    if sections.len() > 0 && !sections.last().matches(name, subsection) {
        lemma_last_section(sections.drop_last(), name, subsection);
    }
}

/// A place that is found lies in the file, in a section that the names
/// address, at an entry for the key.
pub proof fn lemma_locate(
    sections: Seq<SectionView>,
    name: Seq<u8>,
    subsection: Option<Seq<u8>>,
    key: Seq<u8>,
)
    ensures
        match locate(sections, name, subsection, key) {
            Some((i, j)) => 0 <= i < sections.len() && 0 <= j < sections[i].items.len()
                && sections[i].matches(name, subsection) && sections[i].items[j].has_key(key),
            None => true,
        },
    decreases sections.len(),
{
    if sections.len() > 0 {
        lemma_last_hit(sections.last().items, key);
        if !(sections.last().matches(name, subsection) && last_hit(sections.last().items, key)
            >= 0) {
            lemma_locate(sections.drop_last(), name, subsection, key);
        }
    }
}

proof fn lemma_last_hit_update(items: Seq<ItemView>, key: Seq<u8>, item: ItemView)
    requires
        last_hit(items, key) >= 0,
        item.has_key(key),
    ensures
        last_hit(items.update(last_hit(items, key), item), key) == last_hit(items, key),
    decreases items.len(),
{
    let j = last_hit(items, key);
    lemma_last_hit(items, key);
    if items.last().has_key(key) {
        assert(items.update(j, item).last() == item);
    } else {
        lemma_last_hit_update(items.drop_last(), key, item);
        assert(items.update(j, item).drop_last() =~= items.drop_last().update(j, item));
        assert(items.update(j, item).last() == items.last());
    }
}

pub proof fn lemma_locate_update(
    sections: Seq<SectionView>,
    name: Seq<u8>,
    subsection: Option<Seq<u8>>,
    key: Seq<u8>,
    item: ItemView,
)
    requires
        locate(sections, name, subsection, key) is Some,
        item.has_key(key),
    ensures
        ({
            let (i, j) = locate(sections, name, subsection, key)->0;
            locate(
                sections.update(i, sections[i].with_items(sections[i].items.update(j, item))),
                name,
                subsection,
                key,
            ) == Some((i, j))
        }),
    decreases sections.len(),
{
    let (i, j) = locate(sections, name, subsection, key)->0;
    lemma_locate(sections, name, subsection, key);
    let changed = sections[i].with_items(sections[i].items.update(j, item));
    let after = sections.update(i, changed);
    let last = sections.last();
    if last.matches(name, subsection) && last_hit(last.items, key) >= 0 {
        lemma_last_hit_update(last.items, key, item);
        assert(after.last() == changed);
    } else {
        lemma_locate(sections.drop_last(), name, subsection, key);
        lemma_locate_update(sections.drop_last(), name, subsection, key, item);
        assert(after.drop_last() =~= sections.drop_last().update(i, changed));
        assert(after.last() == last);
    }
}

pub proof fn lemma_locate_push(
    sections: Seq<SectionView>,
    name: Seq<u8>,
    subsection: Option<Seq<u8>>,
    key: Seq<u8>,
    item: ItemView,
)
    requires
        last_section(sections, name, subsection) >= 0,
        item.has_key(key),
    ensures
        ({
            let i = last_section(sections, name, subsection);
            locate(
                sections.update(i, sections[i].with_items(sections[i].items.push(item))),
                name,
                subsection,
                key,
            ) == Some((i, sections[i].items.len() as int))
        }),
    decreases sections.len(),
{
    let i = last_section(sections, name, subsection);
    lemma_last_section(sections, name, subsection);
    let changed = sections[i].with_items(sections[i].items.push(item));
    let after = sections.update(i, changed);
    let last = sections.last();
    if last.matches(name, subsection) {
        assert(after.last() == changed);
        assert(changed.items.last() == item);
    } else {
        lemma_last_section(sections.drop_last(), name, subsection);
        lemma_locate_push(sections.drop_last(), name, subsection, key, item);
        assert(after.drop_last() =~= sections.drop_last().update(i, changed));
        assert(after.last() == last);
    }
}

proof fn lemma_eq_ignore_case_reflexive(s: Seq<u8>)
    ensures
        eq_ignore_case(s, s),
{
}

/// Idempotence: setting a key to a value twice leaves the file, and so its
/// text, as setting it once does.
#[verifier::spinoff_prover]
pub proof fn lemma_set_value_idempotent(
    file: FileView,
    name: Seq<u8>,
    subsection: Option<Seq<u8>>,
    key: Seq<u8>,
    value: Seq<u8>,
)
    ensures
        file.set_value(name, subsection, key, value).set_value(name, subsection, key, value)
            == file.set_value(name, subsection, key, value),
        file.set_value(name, subsection, key, value).set_value(name, subsection, key, value).bytes()
            == file.set_value(name, subsection, key, value).bytes(),
{
    let once = file.set_value(name, subsection, key, value);
    let twice = once.set_value(name, subsection, key, value);
    if valid_names(name, subsection, key) {
        lemma_eq_ignore_case_reflexive(key);
        lemma_eq_ignore_case_reflexive(name);
        match locate(file.sections, name, subsection, key) {
            Some((i, j)) => {
                lemma_locate(file.sections, name, subsection, key);
                let section = file.sections[i];
                let item = rewritten(section.items[j], value);
                lemma_locate_update(file.sections, name, subsection, key, item);
                assert(rewritten(item, value) == item);
                assert(once.sections[i].items[j] == item);
                assert(once.sections[i].items.update(j, item) =~= once.sections[i].items);
                assert(once.sections[i].with_items(once.sections[i].items) == once.sections[i]);
                assert(twice.sections =~= once.sections);
            },
            None => {
                let i = last_section(file.sections, name, subsection);
                lemma_last_section(file.sections, name, subsection);
                if i >= 0 {
                    let section = file.sections[i];
                    let item = ItemView::Entry(new_entry(key, value, section.open_ended()));
                    lemma_locate_push(file.sections, name, subsection, key, item);
                    let j = section.items.len() as int;
                    assert(once.sections[i].items[j] == item);
                    assert(rewritten(item, value) == item);
                    assert(once.sections[i].items.update(j, item) =~= once.sections[i].items);
                    assert(twice.sections =~= once.sections);
                } else {
                    let item = ItemView::Entry(new_entry(key, value, false));
                    let n = file.sections.len() as int;
                    assert(once.sections.last().items =~= seq![item]);
                    assert(once.sections.last().items.drop_last().len() == 0);
                    assert(last_hit(once.sections.last().items, key) == 0);
                    assert(locate(once.sections, name, subsection, key) == Some((n, 0int)));
                    assert(rewritten(item, value) == item);
                    assert(once.sections[n].items.update(0, item) =~= once.sections[n].items);
                    assert(twice.sections =~= once.sections);
                }
            },
        }
    }
}

fn all_class(s: &[u8], class: Class) -> (r: bool)
    ensures
        r == all_in_class(s@, class),
{
    let mut i: usize = 0;
    while i < s.len()
        invariant
            i <= s.len(),
            forall|j: int| 0 <= j < i ==> in_class(class, #[trigger] s@[j]),
        decreases s.len() - i,
    {
        if !has_class(class, s[i]) {
            return false;
        }
        i += 1;
    }
    true
}

fn holds(s: &[u8], b: u8) -> (r: bool)
    ensures
        r == !free_of(s@, b),
{
    let mut i: usize = 0;
    while i < s.len()
        invariant
            i <= s.len(),
            forall|j: int| 0 <= j < i ==> #[trigger] s@[j] != b,
        decreases s.len() - i,
    {
        if s[i] == b {
            return true;
        }
        i += 1;
    }
    false
}

/// Whether the three names can be written to a file.
pub fn names_are_valid(name: &[u8], subsection: Option<&[u8]>, key: &[u8]) -> (r: bool)
    ensures
        r == valid_names(name@, opt_slice(subsection), key@),
{
    if name.len() == 0 || !all_class(name, Class::Name) {
        return false;
    }
    if key.len() == 0 || !alpha(key[0]) || !all_class(key, Class::Name) {
        return false;
    }
    match subsection {
        Some(s) => !holds(s, NEWLINE),
        None => true,
    }
}

/// Appends `v` to `out` as it is written between quotes.
fn escape_into(out: &mut Vec<u8>, v: &[u8], full: bool)
    ensures
        final(out)@ == old(out)@ + escaped(v@, full),
{
    let ghost start = out@;
    let mut i: usize = 0;
    assert(v@.take(0) =~= Seq::<u8>::empty());
    assert(out@ =~= start + escaped(v@.take(0), full));
    while i < v.len()
        invariant
            i <= v.len(),
            out@ == start + escaped(v@.take(i as int), full),
        decreases v.len() - i,
    {
        let b = v[i];
        let ghost before = out@;
        assert(v@.take(i + 1).drop_last() =~= v@.take(i as int));
        if b == BACKSLASH || b == QUOTE {
            out.push(BACKSLASH);
            out.push(b);
        } else if full && b == NEWLINE {
            out.push(BACKSLASH);
            out.push(110);
        } else if full && b == TAB {
            out.push(BACKSLASH);
            out.push(116);
        } else if full && b == BACKSPACE {
            out.push(BACKSLASH);
            out.push(98);
        } else {
            out.push(b);
        }
        assert(out@ =~= before + escape_byte(b, full));
        assert(out@ =~= start + escaped(v@.take(i + 1), full));
        i += 1;
    }
    assert(v@.take(i as int) =~= v@);
}

/// The text that a value is written as.
pub fn encode_value(v: &[u8]) -> (r: Vec<u8>)
    ensures
        r@ == encode(v@),
{
    let n = v.len();
    let quote = (n > 0 && (space(v[0]) || space(v[n - 1]))) || holds(v, HASH) || holds(
        v,
        SEMICOLON,
    );
    let mut out: Vec<u8> = Vec::new();
    if quote {
        out.push(QUOTE);
        escape_into(&mut out, v, true);
        out.push(QUOTE);
        assert(out@ =~= seq![QUOTE] + escaped(v@, true) + seq![QUOTE]);
    } else {
        escape_into(&mut out, v, true);
        assert(out@ =~= escaped(v@, true));
    }
    out
}

fn separator(out: &mut Vec<u8>)
    ensures
        final(out)@ == old(out)@ + seq![SPACE, EQUALS, SPACE],
{
    out.push(SPACE);
    out.push(EQUALS);
    out.push(SPACE);
    assert(out@ =~= old(out)@ + seq![SPACE, EQUALS, SPACE]);
}

fn start_line(open: bool) -> (out: Vec<u8>)
    ensures
        out@ == line_break(open),
{
    let mut out: Vec<u8> = Vec::new();
    if open {
        out.push(NEWLINE);
        assert(out@ =~= seq![NEWLINE]);
    }
    out
}

fn make_entry(key: &[u8], value: &[u8], open: bool) -> (e: Entry)
    ensures
        e@ == new_entry(key@, value@, open),
{
    let mut lead = start_line(open);
    lead.push(TAB);
    push_all(&mut lead, key);
    separator(&mut lead);
    assert(lead@ =~= line_break(open) + seq![TAB] + key@ + seq![SPACE, EQUALS, SPACE]);
    let mut tail: Vec<u8> = Vec::new();
    tail.push(NEWLINE);
    assert(tail@ =~= seq![NEWLINE]);
    Entry { key: to_vec(key), value: Some(to_vec(value)), lead, text: encode_value(value), tail }
}

fn make_header(name: &[u8], subsection: Option<&[u8]>, open: bool) -> (out: Vec<u8>)
    ensures
        out@ == header_text(name@, opt_slice(subsection), open),
{
    let mut out = start_line(open);
    out.push(OPEN_BRACKET);
    push_all(&mut out, name);
    match subsection {
        None => {
            out.push(CLOSE_BRACKET);
            out.push(NEWLINE);
            assert(out@ =~= header_text(name@, opt_slice(subsection), open));
        },
        Some(s) => {
            out.push(SPACE);
            out.push(QUOTE);
            escape_into(&mut out, s, false);
            out.push(QUOTE);
            out.push(CLOSE_BRACKET);
            out.push(NEWLINE);
            assert(out@ =~= header_text(name@, opt_slice(subsection), open));
        },
    }
    out
}

fn rewrite(item: Item, value: &[u8]) -> (r: Item)
    ensures
        r@ == rewritten(item@, value@),
{
    match item {
        Item::Trivia(raw) => Item::Trivia(raw),
        Item::Entry(e) => {
            let mut lead = e.lead;
            if e.value.is_none() {
                separator(&mut lead);
            }
            Item::Entry(
                Entry {
                    key: e.key,
                    value: Some(to_vec(value)),
                    lead,
                    text: encode_value(value),
                    tail: e.tail,
                },
            )
        },
    }
}

fn ends_open(piece: &Vec<u8>) -> (r: bool)
    ensures
        r == ends_inside_line(piece@),
{
    let n = piece.len();
    n == 0 || piece[n - 1] != NEWLINE || (n >= 2 && piece[n - 2] == BACKSLASH) || (n >= 3
        && piece[n - 2] == CARRIAGE_RETURN && piece[n - 3] == BACKSLASH)
}

impl Section {
    /// Whether the text of the section ends inside a line.
    pub fn is_open_ended(&self) -> (r: bool)
        ensures
            r == self@.open_ended(),
    {
        let n = self.items.len();
        if n == 0 {
            self.header.len() > 0 && ends_open(&self.header)
        } else {
            match &self.items[n - 1] {
                Item::Trivia(raw) => ends_open(raw),
                Item::Entry(e) => ends_open(&e.tail),
            }
        }
    }
}

impl File {
    /// The place of the entry that a scalar read of `name.subsection.key`
    /// yields.
    pub fn position(&self, name: &[u8], subsection: Option<&[u8]>, key: &[u8]) -> (r: Option<
        (usize, usize),
    >)
        ensures
            match r {
                Some((i, j)) => locate(self@.sections, name@, opt_slice(subsection), key@) == Some(
                    (i as int, j as int),
                ) && i < self.sections@.len() && j < self.sections@[i as int].items@.len(),
                None => locate(self@.sections, name@, opt_slice(subsection), key@) is None,
            },
    {
        let ghost secs = self@.sections;
        let ghost sub = opt_slice(subsection);
        let mut i: usize = self.sections.len();
        assert(secs.take(i as int) =~= secs);
        while i > 0
            invariant
                i <= self.sections.len(),
                secs == self@.sections,
                sub == opt_slice(subsection),
                locate(secs, name@, sub, key@) == locate(secs.take(i as int), name@, sub, key@),
            decreases i,
        {
            let section = &self.sections[i - 1];
            let ghost t = secs.take(i as int);
            assert(t.drop_last() =~= secs.take(i - 1));
            assert(t.last() == section@);
            if section.is_named(name, subsection) {
                let ghost items = section@.items;
                let mut j: usize = section.items.len();
                assert(items.take(j as int) =~= items);
                while j > 0
                    invariant
                        j <= section.items.len(),
                        i <= self.sections.len(),
                        i > 0,
                        items == section@.items,
                        section == &self.sections[i - 1],
                        secs == self@.sections,
                        sub == opt_slice(subsection),
                        last_hit(items, key@) >= 0 ==> locate(secs, name@, sub, key@) == Some(
                            (i - 1, last_hit(items, key@)),
                        ),
                        last_hit(items, key@) == last_hit(items.take(j as int), key@),
                    decreases j,
                {
                    let ghost u = items.take(j as int);
                    assert(u.drop_last() =~= items.take(j - 1));
                    assert(u.last() == section.items[j - 1]@);
                    match &section.items[j - 1] {
                        Item::Entry(e) => {
                            if eq_ignore_ascii_case(e.key.as_slice(), key) {
                                return Some((i - 1, j - 1));
                            }
                        },
                        Item::Trivia(_) => {},
                    }
                    j -= 1;
                }
            }
            i -= 1;
        }
        None
    }

    /// The index of the last section that `name` and `subsection` address.
    pub fn section_index(&self, name: &[u8], subsection: Option<&[u8]>) -> (r: Option<usize>)
        ensures
            match r {
                Some(i) => last_section(self@.sections, name@, opt_slice(subsection)) == i
                    && i < self.sections@.len(),
                None => last_section(self@.sections, name@, opt_slice(subsection)) == -1,
            },
    {
        let ghost secs = self@.sections;
        let ghost sub = opt_slice(subsection);
        let mut i: usize = self.sections.len();
        assert(secs.take(i as int) =~= secs);
        while i > 0
            invariant
                i <= self.sections.len(),
                secs == self@.sections,
                sub == opt_slice(subsection),
                last_section(secs, name@, sub) == last_section(secs.take(i as int), name@, sub),
            decreases i,
        {
            let section = &self.sections[i - 1];
            let ghost t = secs.take(i as int);
            assert(t.drop_last() =~= secs.take(i - 1));
            assert(t.last() == section@);
            if section.is_named(name, subsection) {
                return Some(i - 1);
            }
            i -= 1;
        }
        None
    }

    /// Replaces the items of section `i` by what `items` holds.
    fn put_items(&mut self, i: usize, items: Vec<Item>)
        requires
            i < old(self).sections@.len(),
        ensures
            final(self)@.sections == old(self)@.sections.update(
                i as int,
                old(self)@.sections[i as int].with_items(items_view(items@)),
            ),
    {
        let ghost before = self.sections@;
        let section = self.sections.remove(i);
        let changed = Section {
            name: section.name,
            subsection: section.subsection,
            header: section.header,
            items,
            meta: section.meta,
        };
        self.sections.insert(i, changed);
        assert(sections_view(self.sections@) =~= sections_view(before).update(
            i as int,
            sections_view(before)[i as int].with_items(items_view(items@)),
        ));
    }

    /// Takes the items out of section `i`, leaving it without any.
    fn take_items(&mut self, i: usize) -> (items: Vec<Item>)
        requires
            i < old(self).sections@.len(),
        ensures
            items_view(items@) == old(self)@.sections[i as int].items,
            final(self).sections@.len() == old(self).sections@.len(),
            final(self)@.sections == old(self)@.sections.update(
                i as int,
                old(self)@.sections[i as int].with_items(Seq::empty()),
            ),
    {
        let ghost before = self.sections@;
        let section = self.sections.remove(i);
        let emptied = Section {
            name: section.name,
            subsection: section.subsection,
            header: section.header,
            items: Vec::new(),
            meta: section.meta,
        };
        assert(items_view(emptied.items@) =~= Seq::<ItemView>::empty());
        self.sections.insert(i, emptied);
        assert(sections_view(self.sections@) =~= sections_view(before).update(
            i as int,
            sections_view(before)[i as int].with_items(Seq::empty()),
        ));
        section.items
    }

    /// Sets `name.subsection.key` to `value`: the value text of the last
    /// entry for the key is replaced in place; where the key is absent, an
    /// entry is added to the last section of that name, or to a new section
    /// at the end of the file. Names that cannot be written are refused and
    /// leave the file as it is.
    pub fn set_value(
        &mut self,
        name: &str,
        subsection: Option<&[u8]>,
        key: &str,
        value: &[u8],
    ) -> (r: Result<(), EditError>)
        ensures
            final(self)@ == old(self)@.set_value(
                name.spec_bytes(),
                opt_slice(subsection),
                key.spec_bytes(),
                value@,
            ),
            r is Ok <==> valid_names(name.spec_bytes(), opt_slice(subsection), key.spec_bytes()),
    {
        let name = name.as_bytes();
        let key = key.as_bytes();
        if !names_are_valid(name, subsection, key) {
            return Err(EditError::BadName);
        }
        let ghost before = self@;
        let ghost sub = opt_slice(subsection);
        match self.position(name, subsection, key) {
            Some((i, j)) => {
                let mut items = self.take_items(i);
                let ghost held = items_view(items@);
                assert(held.len() == items@.len());
                assert(before.sections[i as int].items.len() == old(
                    self,
                ).sections@[i as int].items@.len());
                let item = items.remove(j);
                let changed = rewrite(item, value);
                items.insert(j, changed);
                assert(items_view(items@) =~= held.update(
                    j as int,
                    rewritten(held[j as int], value@),
                ));
                self.put_items(i, items);
                assert(self@.sections =~= before.set_value(name@, sub, key@, value@).sections);
            },
            None => match self.section_index(name, subsection) {
                Some(i) => {
                    let open = self.sections[i].is_open_ended();
                    let mut items = self.take_items(i);
                    let ghost held = items_view(items@);
                    let entry = make_entry(key, value, open);
                    items.push(Item::Entry(entry));
                    assert(items_view(items@) =~= held.push(ItemView::Entry(entry@)));
                    self.put_items(i, items);
                    assert(self@.sections =~= before.set_value(name@, sub, key@, value@).sections);
                },
                None => {
                    let n = self.sections.len();
                    let open = n > 0 && self.sections[n - 1].is_open_ended();
                    let meta = if n > 0 {
                        self.sections[n - 1].meta.duplicate()
                    } else {
                        Metadata::from(Source::Local)
                    };
                    let mut items: Vec<Item> = Vec::new();
                    let entry = make_entry(key, value, false);
                    items.push(Item::Entry(entry));
                    assert(items_view(items@) =~= seq![ItemView::Entry(entry@)]);
                    let section = Section {
                        name: to_vec(name),
                        subsection: match subsection {
                            Some(s) => Some(to_vec(s)),
                            None => None,
                        },
                        header: make_header(name, subsection, open),
                        items,
                        meta,
                    };
                    let ghost held = self.sections@;
                    self.sections.push(section);
                    assert(sections_view(self.sections@) =~= sections_view(held).push(section@));
                    assert(self@.sections =~= before.set_value(name@, sub, key@, value@).sections);
                },
            },
        }
        Ok(())
    }

    /// Removes the last entry for `name.subsection.key` with its line, and
    /// tells whether there was one.
    pub fn remove(&mut self, name: &str, subsection: Option<&[u8]>, key: &str) -> (r: bool)
        ensures
            final(self)@ == old(self)@.remove(
                name.spec_bytes(),
                opt_slice(subsection),
                key.spec_bytes(),
            ),
            r == locate(
                old(self)@.sections,
                name.spec_bytes(),
                opt_slice(subsection),
                key.spec_bytes(),
            ) is Some,
    {
        let ghost before = self@;
        match self.position(name.as_bytes(), subsection, key.as_bytes()) {
            Some((i, j)) => {
                let mut items = self.take_items(i);
                let ghost held = items_view(items@);
                assert(held.len() == items@.len());
                assert(before.sections[i as int].items.len() == old(
                    self,
                ).sections@[i as int].items@.len());
                let _ = items.remove(j);
                assert(items_view(items@) =~= held.remove(j as int));
                self.put_items(i, items);
                assert(self@.sections =~= before.remove(
                    name.spec_bytes(),
                    opt_slice(subsection),
                    key.spec_bytes(),
                ).sections);
                true
            },
            None => false,
        }
    }

    /// Removes the last section that `name` and `subsection` address, with
    /// all its lines, and tells whether there was one.
    pub fn remove_section(&mut self, name: &str, subsection: Option<&[u8]>) -> (r: bool)
        ensures
            final(self)@ == old(self)@.remove_section(name.spec_bytes(), opt_slice(subsection)),
            r == (last_section(old(self)@.sections, name.spec_bytes(), opt_slice(subsection))
                >= 0),
    {
        let ghost before = self.sections@;
        match self.section_index(name.as_bytes(), subsection) {
            Some(i) => {
                let _ = self.sections.remove(i);
                assert(sections_view(self.sections@) =~= sections_view(before).remove(i as int));
                true
            },
            None => false,
        }
    }
}

} // verus!
