//! Reading a whole file into the lossless model, line by line, and the proof
//! that writing an unedited file gives back the bytes that were read.

use crate::file::{
    sections_bytes, sections_view, Entry, EntryView, File, FileView, Item, ItemView, Metadata,
    MetadataView, Section, SectionView,
};
use crate::file::{lemma_items_bytes_push, lemma_sections_bytes_push};
use crate::scan::{lemma_read_line, line, read_line, Line, LineView, ParseErrorKind};
use crate::text::copy_range;
use vstd::prelude::*;

verus! {

/// A line that is not part of the file format, with the offset of its first
/// byte.
#[derive(Clone, Copy, Debug, PartialEq, Eq, Structural)]
pub struct ParseError {
    pub kind: ParseErrorKind,
    pub offset: usize,
}

/// The sections `done` with `item` added to the last of them. An item in
/// front of the first header opens the block without a header.
pub open spec fn add_item(
    done: Seq<SectionView>,
    item: ItemView,
    meta: MetadataView,
) -> Seq<SectionView> {
    if done.len() == 0 {
        seq![
            SectionView {
                name: Seq::empty(),
                subsection: None,
                header: Seq::empty(),
                items: seq![item],
                meta,
            },
        ]
    } else {
        done.drop_last().push(
            SectionView { items: done.last().items.push(item), ..done.last() },
        )
    }
}

/// The entry that a line of `s` from `i` to `next` stands for.
pub open spec fn entry_of(
    s: Seq<u8>,
    i: int,
    key: Seq<u8>,
    value: Option<Seq<u8>>,
    text_start: int,
    text_end: int,
    next: int,
) -> ItemView {
    ItemView::Entry(
        EntryView {
            key,
            value,
            lead: s.subrange(i, text_start),
            text: s.subrange(text_start, text_end),
            tail: s.subrange(text_end, next),
        },
    )
}

/// Reads the lines of `s` from `i` on into the sections `done`. A lossy read
/// drops blank lines and comments.
pub open spec fn parse_from(
    s: Seq<u8>,
    i: int,
    done: Seq<SectionView>,
    meta: MetadataView,
    lossy: bool,
) -> Result<Seq<SectionView>, ParseError>
    decreases s.len() - i,
{
    if i < 0 || i >= s.len() {
        Ok(done)
    } else {
        proof {
            lemma_read_line(s, i);
        }
        match read_line(s, i) {
            LineView::Bad(kind) => Err(ParseError { kind, offset: i as usize }),
            LineView::Trivia { next } => parse_from(
                s,
                next,
                if lossy {
                    done
                } else {
                    add_item(done, ItemView::Trivia(s.subrange(i, next)), meta)
                },
                meta,
                lossy,
            ),
            LineView::Header { name, subsection, next } => parse_from(
                s,
                next,
                done.push(
                    SectionView {
                        name,
                        subsection,
                        header: s.subrange(i, next),
                        items: Seq::empty(),
                        meta,
                    },
                ),
                meta,
                lossy,
            ),
            LineView::Entry { key, value, text_start, text_end, next } => if done.len() == 0
                || done.last().name.len() == 0 {
                Err(ParseError { kind: ParseErrorKind::StrayKey, offset: i as usize })
            } else {
                parse_from(
                    s,
                    next,
                    add_item(done, entry_of(s, i, key, value, text_start, text_end, next), meta),
                    meta,
                    lossy,
                )
            },
        }
    }
}

/// The file that the text `s` stands for, or the first line that is no part
/// of the format.
pub open spec fn parse_bytes(s: Seq<u8>, meta: MetadataView, lossy: bool) -> Result<
    FileView,
    ParseError,
> {
    match parse_from(s, 0, Seq::empty(), meta, lossy) {
        Ok(sections) => Ok(FileView { sections }),
        Err(e) => Err(e),
    }
}

proof fn lemma_add_item_bytes(done: Seq<SectionView>, item: ItemView, meta: MetadataView)
    ensures
        sections_bytes(add_item(done, item, meta)) == sections_bytes(done) + item.bytes(),
{
    if done.len() == 0 {
        let block = SectionView {
            name: Seq::empty(),
            subsection: None,
            header: Seq::empty(),
            items: seq![item],
            meta,
        };
        assert(add_item(done, item, meta) =~= Seq::<SectionView>::empty().push(block));
        lemma_sections_bytes_push(Seq::empty(), block);
        assert(seq![item] =~= Seq::<ItemView>::empty().push(item));
        lemma_items_bytes_push(Seq::empty(), item);
        assert(sections_bytes(add_item(done, item, meta)) =~= sections_bytes(done) + item.bytes());
    } else {
        let last = done.last();
        let grown = SectionView { items: last.items.push(item), ..last };
        lemma_sections_bytes_push(done.drop_last(), grown);
        lemma_items_bytes_push(last.items, item);
        assert(sections_bytes(add_item(done, item, meta)) =~= sections_bytes(done) + item.bytes());
    }
}

proof fn lemma_parse_from_bytes(s: Seq<u8>, i: int, done: Seq<SectionView>, meta: MetadataView)
    requires
        0 <= i <= s.len(),
        sections_bytes(done) == s.subrange(0, i),
    ensures
        parse_from(s, i, done, meta, false) matches Ok(sections) ==> sections_bytes(sections)
            == s,
    decreases s.len() - i,
{
    if i >= s.len() {
        assert(s.subrange(0, i) =~= s);
    } else {
        lemma_read_line(s, i);
        match read_line(s, i) {
            LineView::Bad(kind) => {},
            LineView::Trivia { next } => {
                let item = ItemView::Trivia(s.subrange(i, next));
                let grown = add_item(done, item, meta);
                lemma_add_item_bytes(done, item, meta);
                assert(sections_bytes(grown) =~= s.subrange(0, next));
                lemma_parse_from_bytes(s, next, grown, meta);
            },
            LineView::Header { name, subsection, next } => {
                let section = SectionView {
                    name,
                    subsection,
                    header: s.subrange(i, next),
                    items: Seq::empty(),
                    meta,
                };
                lemma_sections_bytes_push(done, section);
                assert(sections_bytes(done.push(section)) =~= s.subrange(0, next));
                lemma_parse_from_bytes(s, next, done.push(section), meta);
            },
            LineView::Entry { key, value, text_start, text_end, next } => {
                if done.len() == 0 || done.last().name.len() == 0 {
                } else {
                    let item = entry_of(s, i, key, value, text_start, text_end, next);
                    let grown = add_item(done, item, meta);
                    lemma_add_item_bytes(done, item, meta);
                    assert(item.bytes() =~= s.subrange(i, next));
                    assert(sections_bytes(grown) =~= s.subrange(0, next));
                    lemma_parse_from_bytes(s, next, grown, meta);
                }
            },
        }
    }
}

/// Round trip: a file that was read without loss and not edited since is
/// written as the very bytes that it was read from.
pub proof fn lemma_round_trip(s: Seq<u8>, meta: MetadataView)
    ensures
        parse_bytes(s, meta, false) matches Ok(file) ==> file.bytes() == s,
{
    assert(s.subrange(0, 0) =~= Seq::<u8>::empty());
    lemma_parse_from_bytes(s, 0, Seq::empty(), meta);
}

/// Reading what was written gives the file that was written: the text of
/// a file that was read without loss stands for that very file.
pub proof fn lemma_reread(s: Seq<u8>, meta: MetadataView)
    ensures
        parse_bytes(s, meta, false) matches Ok(file) ==> parse_bytes(file.bytes(), meta, false)
            == Ok::<FileView, ParseError>(file),
{
    lemma_round_trip(s, meta);
}

/// Adds `item` to the last of `sections`.
fn push_item(sections: &mut Vec<Section>, item: Item, meta: &Metadata)
    ensures
        sections_view(final(sections)@) == add_item(sections_view(old(sections)@), item@, meta@),
{
    let ghost before = sections@;
    if sections.len() == 0 {
        let mut items: Vec<Item> = Vec::new();
        items.push(item);
        let block = Section {
            name: Vec::new(),
            subsection: None,
            header: Vec::new(),
            items,
            meta: meta.duplicate(),
        };
        assert(block@.items =~= seq![item@]);
        sections.push(block);
        assert(sections_view(sections@) =~= add_item(sections_view(before), item@, meta@));
    } else {
        let mut last = sections.pop().unwrap();
        let ghost held = last@;
        last.items.push(item);
        assert(last@.items =~= held.items.push(item@));
        sections.push(last);
        assert(sections_view(sections@) =~= add_item(sections_view(before), item@, meta@));
    }
}

impl File {
    /// Reads a file from its text. Every section is marked with `meta`. A
    /// lossy read drops blank lines and comments; one without loss keeps
    /// every byte, so that the file is written as it was read.
    pub fn from_bytes(bytes: &[u8], meta: &Metadata, lossy: bool) -> (r: Result<File, ParseError>)
        ensures
            match r {
                Ok(file) => parse_bytes(bytes@, meta@, lossy) == Ok::<FileView, ParseError>(file@),
                Err(e) => parse_bytes(bytes@, meta@, lossy) == Err::<FileView, ParseError>(e),
            },
            !lossy && r is Ok ==> r->Ok_0@.bytes() == bytes@,
    {
        let n = bytes.len();
        let mut sections: Vec<Section> = Vec::new();
        let mut i: usize = 0;
        assert(sections_view(sections@) =~= Seq::<SectionView>::empty());
        while i < n
            invariant
                n == bytes@.len(),
                i <= n,
                parse_from(bytes@, i as int, sections_view(sections@), meta@, lossy) == parse_from(
                    bytes@,
                    0,
                    Seq::empty(),
                    meta@,
                    lossy,
                ),
            decreases n - i,
        {
            let ghost done = sections_view(sections@);
            match line(bytes, i) {
                Line::Bad(kind) => {
                    return Err(ParseError { kind, offset: i });
                },
                Line::Trivia { next } => {
                    if !lossy {
                        let raw = copy_range(bytes, i, next);
                        push_item(&mut sections, Item::Trivia(raw), meta);
                    }
                    i = next;
                },
                Line::Header { name, subsection, next } => {
                    let ghost before = sections@;
                    let section = Section {
                        name,
                        subsection,
                        header: copy_range(bytes, i, next),
                        items: Vec::new(),
                        meta: meta.duplicate(),
                    };
                    assert(section@.items =~= Seq::<ItemView>::empty());
                    sections.push(section);
                    assert(sections_view(sections@) =~= sections_view(before).push(section@));
                    i = next;
                },
                Line::Entry { key, value, text_start, text_end, next } => {
                    if sections.len() == 0 || sections[sections.len() - 1].name.len() == 0 {
                        return Err(ParseError { kind: ParseErrorKind::StrayKey, offset: i });
                    }
                    let entry = Entry {
                        key,
                        value,
                        lead: copy_range(bytes, i, text_start),
                        text: copy_range(bytes, text_start, text_end),
                        tail: copy_range(bytes, text_end, next),
                    };
                    push_item(&mut sections, Item::Entry(entry), meta);
                    i = next;
                },
            }
        }
        let file = File { sections };
        proof {
            lemma_round_trip(bytes@, meta@);
        }
        Ok(file)
    }
}

} // verus!
