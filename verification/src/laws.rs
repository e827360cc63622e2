//! What holds of reads and edits together: a value that was set is the one
//! that is read, and an edit leaves every byte outside its place untouched.

use crate::edit::{
    encode, escape_byte, escaped, free_of, header_text, last_hit, last_section, lemma_last_hit,
    lemma_last_section, lemma_locate, locate, needs_quotes, new_entry, rewritten, valid_names,
};
use crate::edit::all_in_class;
use crate::scan::{
    at_line_stop, close_header, in_class, line_end, read_entry, read_header, read_line,
    scan_subsection, scan_value, span_end, unescape_of, Class, LineView, ScannedView,
};
use crate::file::{
    item_values, items_bytes, section_values, sections_bytes, Everything, FileView, ItemView,
    SectionView,
};
use crate::file::{lemma_items_bytes_push, lemma_sections_bytes_concat, lemma_sections_bytes_push};
use crate::text::{
    eq_ignore_case, is_alpha, is_space, BACKSLASH, BACKSPACE, CLOSE_BRACKET, EQUALS, HASH,
    NEWLINE, OPEN_BRACKET, QUOTE, SEMICOLON, SPACE, TAB,
};
use vstd::prelude::*;

verus! {

proof fn lemma_item_values_last(items: Seq<ItemView>, key: Seq<u8>)
    ensures
        (item_values(items, key).len() > 0) == (last_hit(items, key) >= 0),
        last_hit(items, key) >= 0 ==> item_values(items, key).last() == items[last_hit(
            items,
            key,
        )].value(),
    decreases items.len(),
{
    if items.len() > 0 && !items.last().has_key(key) {
        lemma_item_values_last(items.drop_last(), key);
        lemma_last_hit(items.drop_last(), key);
    }
}

/// A scalar read yields the value of the entry at the place that an edit of
/// the key would change.
#[verifier::spinoff_prover]
pub proof fn lemma_read_is_located(
    sections: Seq<SectionView>,
    name: Seq<u8>,
    subsection: Option<Seq<u8>>,
    key: Seq<u8>,
)
    ensures
        (FileView { sections }).value(name, subsection, key, &Everything) == match locate(
            sections,
            name,
            subsection,
            key,
        ) {
            Some((i, j)) => Some(sections[i].items[j].value()),
            None => None,
        },
    decreases sections.len(),
{
    if sections.len() > 0 {
        let last = sections.last();
        let rest = section_values(sections.drop_last(), name, subsection, key, &Everything);
        lemma_item_values_last(last.items, key);
        lemma_read_is_located(sections.drop_last(), name, subsection, key);
        lemma_locate(sections.drop_last(), name, subsection, key);
        if last.matches(name, subsection) && last_hit(last.items, key) >= 0 {
            assert((rest + item_values(last.items, key)).last() == item_values(
                last.items,
                key,
            ).last());
        } else if last.matches(name, subsection) {
            assert(rest + item_values(last.items, key) =~= rest);
        }
    }
}

/// After a key was set, its entry stands where reads look for it, and holds
/// the value.
#[verifier::spinoff_prover]
pub proof fn lemma_set_value_is_found(
    file: FileView,
    name: Seq<u8>,
    subsection: Option<Seq<u8>>,
    key: Seq<u8>,
    value: Seq<u8>,
)
    requires
        valid_names(name, subsection, key),
    ensures
        locate(file.set_value(name, subsection, key, value).sections, name, subsection, key)
            is Some,
        ({
            let after = file.set_value(name, subsection, key, value).sections;
            let (i, j) = locate(after, name, subsection, key)->0;
            after[i].items[j].value() == Some(value)
        }),
{
    let once = file.set_value(name, subsection, key, value);
    assert(eq_ignore_case(key, key));
    assert(eq_ignore_case(name, name));
    match locate(file.sections, name, subsection, key) {
        Some((i, j)) => {
            lemma_locate(file.sections, name, subsection, key);
            let item = rewritten(file.sections[i].items[j], value);
            crate::edit::lemma_locate_update(file.sections, name, subsection, key, item);
        },
        None => {
            let i = last_section(file.sections, name, subsection);
            lemma_last_section(file.sections, name, subsection);
            if i >= 0 {
                let section = file.sections[i];
                let item = ItemView::Entry(new_entry(key, value, section.open_ended()));
                crate::edit::lemma_locate_push(file.sections, name, subsection, key, item);
            } else {
                let item = ItemView::Entry(new_entry(key, value, false));
                let n = file.sections.len() as int;
                assert(once.sections.last().items =~= seq![item]);
                assert(once.sections.last().items.drop_last().len() == 0);
                assert(last_hit(once.sections.last().items, key) == 0);
                assert(locate(once.sections, name, subsection, key) == Some((n, 0int)));
            }
        },
    }
}

/// Read your writes: after a key was set to a value, a scalar read of the
/// key yields that value.
pub proof fn lemma_set_then_read(
    file: FileView,
    name: Seq<u8>,
    subsection: Option<Seq<u8>>,
    key: Seq<u8>,
    value: Seq<u8>,
)
    requires
        valid_names(name, subsection, key),
    ensures
        file.set_value(name, subsection, key, value).value(name, subsection, key, &Everything)
            == Some(Some(value)),
{
    lemma_set_value_is_found(file, name, subsection, key, value);
    lemma_read_is_located(
        file.set_value(name, subsection, key, value).sections,
        name,
        subsection,
        key,
    );
}

proof fn lemma_items_bytes_concat(a: Seq<ItemView>, b: Seq<ItemView>)
    ensures
        items_bytes(a + b) == items_bytes(a) + items_bytes(b),
    decreases b.len(),
{
    if b.len() == 0 {
        assert(a + b =~= a);
        assert(items_bytes(a) + items_bytes(b) =~= items_bytes(a));
    } else {
        assert((a + b).drop_last() =~= a + b.drop_last());
        lemma_items_bytes_concat(a, b.drop_last());
        assert(items_bytes(a + b) =~= items_bytes(a) + items_bytes(b));
    }
}

/// The bytes of a file in front of the value text of item `j` of section `i`.
pub open spec fn bytes_before(file: FileView, i: int, j: int) -> Seq<u8> {
    let lead = match file.sections[i].items[j] {
        ItemView::Entry(e) => e.lead,
        ItemView::Trivia(_) => Seq::empty(),
    };
    sections_bytes(file.sections.take(i)) + file.sections[i].header + items_bytes(
        file.sections[i].items.take(j),
    ) + lead
}

/// The bytes of a file behind the value text of item `j` of section `i`.
pub open spec fn bytes_behind(file: FileView, i: int, j: int) -> Seq<u8> {
    let tail = match file.sections[i].items[j] {
        ItemView::Entry(e) => e.tail,
        ItemView::Trivia(raw) => raw,
    };
    tail + items_bytes(file.sections[i].items.skip(j + 1)) + sections_bytes(
        file.sections.skip(i + 1),
    )
}

/// The text that stands for the value of an item.
pub open spec fn value_text(item: ItemView) -> Seq<u8> {
    match item {
        ItemView::Entry(e) => e.text,
        ItemView::Trivia(_) => Seq::empty(),
    }
}

/// The separator that a key without a value lacks.
pub open spec fn missing_separator(item: ItemView) -> Seq<u8> {
    match item {
        ItemView::Entry(e) => if e.value is None {
            seq![SPACE, EQUALS, SPACE]
        } else {
            Seq::empty()
        },
        ItemView::Trivia(_) => Seq::empty(),
    }
}

proof fn lemma_sections_split(secs: Seq<SectionView>, i: int)
    requires
        0 <= i < secs.len(),
    ensures
        sections_bytes(secs) == sections_bytes(secs.take(i)) + secs[i].bytes() + sections_bytes(
            secs.skip(i + 1),
        ),
{
    assert(secs =~= secs.take(i).push(secs[i]) + secs.skip(i + 1));
    lemma_sections_bytes_concat(secs.take(i).push(secs[i]), secs.skip(i + 1));
    lemma_sections_bytes_push(secs.take(i), secs[i]);
}

proof fn lemma_items_split(items: Seq<ItemView>, j: int)
    requires
        0 <= j < items.len(),
    ensures
        items_bytes(items) == items_bytes(items.take(j)) + items[j].bytes() + items_bytes(
            items.skip(j + 1),
        ),
{
    assert(items =~= items.take(j).push(items[j]) + items.skip(j + 1));
    lemma_items_bytes_concat(items.take(j).push(items[j]), items.skip(j + 1));
    lemma_items_bytes_push(items.take(j), items[j]);
}

#[verifier::spinoff_prover]
proof fn lemma_regroup(
    a: Seq<u8>,
    h: Seq<u8>,
    c: Seq<u8>,
    l: Seq<u8>,
    t: Seq<u8>,
    u: Seq<u8>,
    d: Seq<u8>,
    b: Seq<u8>,
)
    ensures
        a + (h + (c + (l + t + u) + d)) + b == (a + h + c + l) + t + (u + d + b),
{
    assert(a + (h + (c + (l + t + u) + d)) + b =~= (a + h + c + l) + t + (u + d + b));
}

#[verifier::spinoff_prover]
proof fn lemma_bytes_split(file: FileView, i: int, j: int)
    requires
        0 <= i < file.sections.len(),
        0 <= j < file.sections[i].items.len(),
    ensures
        file.bytes() == bytes_before(file, i, j) + value_text(file.sections[i].items[j])
            + bytes_behind(file, i, j),
{
    let secs = file.sections;
    let s = secs[i];
    let item = s.items[j];
    let a = sections_bytes(secs.take(i));
    let b = sections_bytes(secs.skip(i + 1));
    let c = items_bytes(s.items.take(j));
    let d = items_bytes(s.items.skip(j + 1));
    lemma_sections_split(secs, i);
    lemma_items_split(s.items, j);
    assert(file.bytes() == a + (s.header + (c + item.bytes() + d)) + b);
    match item {
        ItemView::Entry(e) => {
            lemma_regroup(a, s.header, c, e.lead, e.text, e.tail, d, b);
        },
        ItemView::Trivia(raw) => {
            assert(raw =~= Seq::<u8>::empty() + Seq::<u8>::empty() + raw);
            lemma_regroup(a, s.header, c, Seq::empty(), Seq::empty(), raw, d, b);
        },
    }
}

/// An edit in place touches the value text alone: where the key is present,
/// the text of the file after `set_value` is its text before, with the
/// value text of the entry replaced by the new value as it is written, and
/// with a separator in front where the entry had none. Every byte in front
/// of the value text and behind it is as it was.
#[verifier::spinoff_prover]
pub proof fn lemma_set_value_in_place(
    file: FileView,
    name: Seq<u8>,
    subsection: Option<Seq<u8>>,
    key: Seq<u8>,
    value: Seq<u8>,
)
    requires
        valid_names(name, subsection, key),
        locate(file.sections, name, subsection, key) is Some,
    ensures
        ({
            let (i, j) = locate(file.sections, name, subsection, key)->0;
            let item = file.sections[i].items[j];
            &&& file.bytes() == bytes_before(file, i, j) + value_text(item) + bytes_behind(
                file,
                i,
                j,
            )
            &&& file.set_value(name, subsection, key, value).bytes() == bytes_before(file, i, j)
                + missing_separator(item) + encode(value) + bytes_behind(file, i, j)
        }),
{
    let (i, j) = locate(file.sections, name, subsection, key)->0;
    lemma_locate(file.sections, name, subsection, key);
    let once = file.set_value(name, subsection, key, value);
    let item = file.sections[i].items[j];
    lemma_bytes_split(file, i, j);
    lemma_bytes_split(once, i, j);
    assert(once.sections.take(i) =~= file.sections.take(i));
    assert(once.sections.skip(i + 1) =~= file.sections.skip(i + 1));
    assert(once.sections[i].items.take(j) =~= file.sections[i].items.take(j));
    assert(once.sections[i].items.skip(j + 1) =~= file.sections[i].items.skip(j + 1));
    assert(once.bytes() =~= bytes_before(file, i, j) + missing_separator(item) + encode(value)
        + bytes_behind(file, i, j));
}

/// An edit that adds lines adds nothing else: where the key is absent, the
/// text of the file after `set_value` is its text before with the new entry
/// behind the last section of that name, or with a new section and the new
/// entry at its end.
#[verifier::spinoff_prover]
pub proof fn lemma_set_value_adds_lines(
    file: FileView,
    name: Seq<u8>,
    subsection: Option<Seq<u8>>,
    key: Seq<u8>,
    value: Seq<u8>,
)
    requires
        valid_names(name, subsection, key),
        locate(file.sections, name, subsection, key) is None,
    ensures
        ({
            let i = last_section(file.sections, name, subsection);
            let after = file.set_value(name, subsection, key, value).bytes();
            if i >= 0 {
                after == sections_bytes(file.sections.take(i + 1)) + ItemView::Entry(
                    new_entry(key, value, file.sections[i].open_ended()),
                ).bytes() + sections_bytes(file.sections.skip(i + 1)) && file.bytes()
                    == sections_bytes(file.sections.take(i + 1)) + sections_bytes(
                    file.sections.skip(i + 1),
                )
            } else {
                after == file.bytes() + header_text(name, subsection, file.open_ended())
                    + ItemView::Entry(new_entry(key, value, false)).bytes()
            }
        }),
{
    let i = last_section(file.sections, name, subsection);
    lemma_last_section(file.sections, name, subsection);
    let once = file.set_value(name, subsection, key, value);
    let secs = file.sections;
    if i >= 0 {
        let s = secs[i];
        let item = ItemView::Entry(new_entry(key, value, s.open_ended()));
        let grown = s.with_items(s.items.push(item));
        assert(secs =~= secs.take(i + 1) + secs.skip(i + 1));
        lemma_sections_bytes_concat(secs.take(i + 1), secs.skip(i + 1));
        assert(once.sections =~= secs.take(i).push(grown) + secs.skip(i + 1));
        lemma_sections_bytes_concat(secs.take(i).push(grown), secs.skip(i + 1));
        lemma_sections_bytes_push(secs.take(i), grown);
        assert(secs.take(i + 1) =~= secs.take(i).push(s));
        lemma_sections_bytes_push(secs.take(i), s);
        lemma_items_bytes_push(s.items, item);
        assert(once.bytes() =~= sections_bytes(secs.take(i + 1)) + item.bytes() + sections_bytes(
            secs.skip(i + 1),
        ));
    } else {
        let item = ItemView::Entry(new_entry(key, value, false));
        let added = once.sections.last();
        lemma_sections_bytes_push(secs, added);
        assert(added.items =~= Seq::<ItemView>::empty().push(item));
        lemma_items_bytes_push(Seq::empty(), item);
        assert(once.bytes() =~= file.bytes() + header_text(name, subsection, file.open_ended())
            + item.bytes());
    }
}

/// The length of the first `k` bytes of `v` as they are written.
pub open spec fn written_len(v: Seq<u8>, k: int) -> int {
    escaped(v.take(k), true).len() as int
}

proof fn lemma_escaped_step(v: Seq<u8>, k: int)
    requires
        0 <= k < v.len(),
    ensures
        escaped(v.take(k + 1), true) == escaped(v.take(k), true) + escape_byte(v[k], true),
{
    assert(v.take(k + 1).drop_last() =~= v.take(k));
    assert(v.take(k + 1).last() == v[k]);
}

proof fn lemma_escaped_prefix(v: Seq<u8>, k: int)
    requires
        0 <= k <= v.len(),
    ensures
        written_len(v, k) <= escaped(v, true).len(),
        escaped(v, true).take(written_len(v, k)) == escaped(v.take(k), true),
    decreases v.len() - k,
{
    if k == v.len() {
        assert(v.take(k) =~= v);
        assert(escaped(v, true).take(escaped(v, true).len() as int) =~= escaped(v, true));
    } else {
        lemma_escaped_prefix(v, k + 1);
        lemma_escaped_step(v, k);
        let a = escaped(v.take(k), true);
        let longer = escaped(v.take(k + 1), true);
        assert(escaped(v, true).take(a.len() as int) =~= longer.take(a.len() as int));
        assert(longer.take(a.len() as int) =~= a);
    }
}

/// The result of a scan that read all of `v` and stopped at `at`.
pub open spec fn read_back(v: Seq<u8>, at: int) -> ScannedView {
    ScannedView::Done { value: v, end: at, stop: at }
}

#[verifier::spinoff_prover]
proof fn lemma_scan_escaped(
    s: Seq<u8>,
    base: int,
    v: Seq<u8>,
    k: int,
    quoted: bool,
    keep: int,
    end: int,
)
    requires
        0 <= base,
        0 <= k <= v.len(),
        base + escaped(v, true).len() <= s.len(),
        s.subrange(base, base + escaped(v, true).len()) == escaped(v, true),
        quoted ==> base + escaped(v, true).len() < s.len() && s[base + escaped(v, true).len()]
            == QUOTE && (base + escaped(v, true).len() + 1 == s.len() || s[base + escaped(
            v,
            true,
        ).len() + 1] == NEWLINE),
        !quoted ==> (base + escaped(v, true).len() == s.len() || s[base + escaped(v, true).len()]
            == NEWLINE) && free_of(v, HASH) && free_of(v, SEMICOLON) && (v.len() > 0
            ==> !is_space(v.last())),
        !quoted && k == v.len() ==> keep == k && end == base + escaped(v, true).len(),
    ensures
        scan_value(s, base + written_len(v, k), v.take(k), keep, end, quoted) == read_back(
            v,
            base + escaped(v, true).len() + if quoted {
                1int
            } else {
                0int
            },
        ),
    decreases v.len() - k,
{
    let text = escaped(v, true);
    let total = text.len() as int;
    let pos = base + written_len(v, k);
    let out = v.take(k);
    lemma_escaped_prefix(v, k);
    if k == v.len() {
        assert(v.take(k) =~= v);
        assert(pos == base + total);
        if quoted {
            assert(s[pos] == QUOTE);
            assert(out.take(out.len() as int) =~= v);
            assert(scan_value(s, pos + 1, out, out.len() as int, pos + 1, false) == read_back(
                v,
                pos + 1,
            ));
        } else {
            assert(out.take(keep) =~= v);
        }
    } else {
        let b = v[k];
        let piece = escape_byte(b, true);
        lemma_escaped_step(v, k);
        lemma_escaped_prefix(v, k + 1);
        let longer = escaped(v.take(k + 1), true);
        assert(written_len(v, k + 1) == written_len(v, k) + piece.len());
        assert forall|t: int| 0 <= t < piece.len() implies s[pos + t] == piece[t] by {
            assert(s.subrange(base, base + total)[written_len(v, k) + t] == s[pos + t]);
            assert(text.take(written_len(v, k + 1))[written_len(v, k) + t] == text[written_len(
                v,
                k,
            ) + t]);
            assert(longer[written_len(v, k) + t] == piece[t]);
        }
        assert(out.push(b) =~= v.take(k + 1));
        assert(s[pos] == piece[0]);
        if b == BACKSLASH || b == QUOTE || b == NEWLINE || b == TAB || b == BACKSPACE {
            assert(piece.len() == 2);
            assert(s[pos + 1] == piece[1]);
            assert(unescape_of(piece[1]) == Some(b));
            lemma_scan_escaped(s, base, v, k + 1, quoted, k + 1, pos + 2);
        } else {
            assert(piece.len() == 1);
            assert(s[pos] == b);
            assert(v[k] != HASH && v[k] != SEMICOLON || quoted);
            if !quoted && is_space(b) {
                assert(k + 1 < v.len()) by {
                    if k + 1 == v.len() {
                        assert(v.last() == b);
                    }
                }
                lemma_scan_escaped(s, base, v, k + 1, quoted, keep, end);
            } else {
                lemma_scan_escaped(s, base, v, k + 1, quoted, k + 1, pos + 1);
            }
        }
    }
}

/// What is written is what is read: the text that a value is written as,
/// standing at `p` in a file and followed by the end of its line, scans as
/// that value, and all of the text belongs to it.
pub proof fn lemma_encoded_value_reads_back(s: Seq<u8>, p: int, v: Seq<u8>)
    requires
        0 <= p,
        p + encode(v).len() <= s.len(),
        s.subrange(p, p + encode(v).len()) == encode(v),
        p + encode(v).len() == s.len() || s[p + encode(v).len()] == NEWLINE,
    ensures
        scan_value(s, p, Seq::empty(), 0, p, false) == read_back(v, p + encode(v).len()),
{
    let text = escaped(v, true);
    let total = text.len() as int;
    assert(v.take(0) =~= Seq::<u8>::empty());
    assert(written_len(v, 0) == 0);
    if needs_quotes(v) {
        let whole = encode(v);
        assert(whole.len() == total + 2);
        assert(s.subrange(p, p + whole.len())[0] == s[p]);
        assert(whole[0] == QUOTE);
        assert(s.subrange(p, p + whole.len())[total + 1] == s[p + total + 1]);
        assert(whole[total + 1] == QUOTE);
        assert(s.subrange(p + 1, p + 1 + total) =~= text) by {
            assert forall|t: int| 0 <= t < total implies s[p + 1 + t] == text[t] by {
                assert(s.subrange(p, p + whole.len())[1 + t] == s[p + 1 + t]);
                assert(whole[1 + t] == text[t]);
            }
        }
        lemma_scan_escaped(s, p + 1, v, 0, true, 0, p + 1);
    } else {
        if v.len() > 0 {
            assert(!is_space(v.last()));
        }
        lemma_scan_escaped(s, p, v, 0, false, 0, p);
    }
}

/// Removing a key drops the line of its last entry and nothing else: the
/// text of the file is the text in front of that entry and the text behind
/// it.
#[verifier::spinoff_prover]
pub proof fn lemma_remove_drops_one_item(
    file: FileView,
    name: Seq<u8>,
    subsection: Option<Seq<u8>>,
    key: Seq<u8>,
)
    requires
        locate(file.sections, name, subsection, key) is Some,
    ensures
        ({
            let (i, j) = locate(file.sections, name, subsection, key)->0;
            let s = file.sections[i];
            let front = sections_bytes(file.sections.take(i)) + s.header + items_bytes(
                s.items.take(j),
            );
            let back = items_bytes(s.items.skip(j + 1)) + sections_bytes(
                file.sections.skip(i + 1),
            );
            &&& file.bytes() == front + s.items[j].bytes() + back
            &&& file.remove(name, subsection, key).bytes() == front + back
        }),
{
    let (i, j) = locate(file.sections, name, subsection, key)->0;
    lemma_locate(file.sections, name, subsection, key);
    let secs = file.sections;
    let s = secs[i];
    let item = s.items[j];
    let shrunk = s.with_items(s.items.remove(j));
    let after = file.remove(name, subsection, key);
    let a = sections_bytes(secs.take(i));
    let b = sections_bytes(secs.skip(i + 1));
    let c = items_bytes(s.items.take(j));
    let d = items_bytes(s.items.skip(j + 1));
    lemma_sections_split(secs, i);
    lemma_items_split(s.items, j);
    lemma_sections_split(after.sections, i);
    assert(after.sections.take(i) =~= secs.take(i));
    assert(after.sections.skip(i + 1) =~= secs.skip(i + 1));
    assert(s.items.remove(j) =~= s.items.take(j) + s.items.skip(j + 1));
    lemma_items_bytes_concat(s.items.take(j), s.items.skip(j + 1));
    assert(file.bytes() == a + (s.header + (c + item.bytes() + d)) + b);
    assert(after.bytes() == a + (s.header + (c + d)) + b);
    assert(a + (s.header + (c + item.bytes() + d)) + b =~= (a + s.header + c) + item.bytes() + (d
        + b));
    assert(a + (s.header + (c + d)) + b =~= (a + s.header + c) + (d + b));
}

/// Removing a section drops its lines and nothing else.
pub proof fn lemma_remove_section_drops_its_lines(
    file: FileView,
    name: Seq<u8>,
    subsection: Option<Seq<u8>>,
)
    requires
        last_section(file.sections, name, subsection) >= 0,
    ensures
        ({
            let i = last_section(file.sections, name, subsection);
            let front = sections_bytes(file.sections.take(i));
            let back = sections_bytes(file.sections.skip(i + 1));
            &&& file.bytes() == front + file.sections[i].bytes() + back
            &&& file.remove_section(name, subsection).bytes() == front + back
        }),
{
    let i = last_section(file.sections, name, subsection);
    lemma_last_section(file.sections, name, subsection);
    let secs = file.sections;
    lemma_sections_split(secs, i);
    assert(secs.remove(i) =~= secs.take(i) + secs.skip(i + 1));
    lemma_sections_bytes_concat(secs.take(i), secs.skip(i + 1));
}

proof fn lemma_span_run(s: Seq<u8>, a: int, b: int, class: Class)
    requires
        0 <= a <= b <= s.len(),
        forall|x: int| a <= x < b ==> in_class(class, #[trigger] s[x]),
        b == s.len() || !in_class(class, s[b]),
    ensures
        span_end(s, a, class) == b,
    decreases b - a,
{
    if a < b {
        lemma_span_run(s, a + 1, b, class);
    }
}

proof fn lemma_encode_starts_solid(v: Seq<u8>)
    ensures
        encode(v).len() > 0 ==> !is_space(encode(v)[0]),
        encode(v).len() == 0 ==> v.len() == 0,
{
    if needs_quotes(v) {
    } else if v.len() > 0 {
        lemma_escaped_prefix(v, 1);
        lemma_escaped_step(v, 0);
        assert(v.take(0) =~= Seq::<u8>::empty());
        let first = escape_byte(v[0], true);
        assert(escaped(v.take(1), true) =~= first);
        assert(escaped(v, true).take(written_len(v, 1))[0] == escaped(v, true)[0]);
        assert(escaped(v, true)[0] == first[0]);
    }
}

/// The line that a new entry is written as, without the line break that
/// may stand in front of it.
pub open spec fn entry_line(key: Seq<u8>, value: Seq<u8>) -> Seq<u8> {
    seq![TAB] + key + seq![SPACE, EQUALS, SPACE] + encode(value) + seq![NEWLINE]
}

/// What is written is what is read, for whole entries: the line that a new
/// entry is written as reads as an entry with that key and that value, whose
/// value text is the value as it is written.
#[verifier::spinoff_prover]
pub proof fn lemma_new_entry_reads_back(s: Seq<u8>, i: int, key: Seq<u8>, value: Seq<u8>)
    requires
        key.len() > 0,
        is_alpha(key[0]),
        all_in_class(key, Class::Name),
        0 <= i,
        i + entry_line(key, value).len() <= s.len(),
        s.subrange(i, i + entry_line(key, value).len()) == entry_line(key, value),
    ensures
        read_line(s, i) == (LineView::Entry {
            key,
            value: Some(value),
            text_start: i + key.len() + 4,
            text_end: i + key.len() + 4 + encode(value).len(),
            next: i + entry_line(key, value).len(),
        }),
{
    let body = entry_line(key, value);
    let kl = key.len() as int;
    let text = encode(value);
    let el = text.len() as int;
    assert(body.len() == kl + el + 5);
    assert forall|x: int| 0 <= x < body.len() implies s[i + x] == body[x] by {
        assert(s.subrange(i, i + body.len())[x] == s[i + x]);
    }
    assert(body[0] == TAB);
    assert forall|t: int| 0 <= t < kl implies #[trigger] body[1 + t] == key[t] by {}
    assert(body[1 + kl] == SPACE);
    assert(body[2 + kl] == EQUALS);
    assert(body[3 + kl] == SPACE);
    assert forall|t: int| 0 <= t < el implies #[trigger] body[4 + kl + t] == text[t] by {}
    assert(body[4 + kl + el] == NEWLINE);
    let p = i + 1;
    let q = p + kl;
    let r = q + 1;
    let start = r + 2;
    let stop = start + el;
    assert(s[i] == TAB);
    assert(s[p] == key[0]) by {
        assert(s[i + 1] == body[1int]);
    }
    lemma_span_run(s, i, p, Class::Blank);
    assert forall|x: int| p <= x < q implies in_class(Class::Name, #[trigger] s[x]) by {
        assert(s[i + (1 + (x - p))] == body[1 + (x - p)]);
        assert(in_class(Class::Name, key[x - p]));
    }
    assert(s[q] == SPACE) by {
        assert(s[i + (1 + kl)] == body[1 + kl]);
    }
    lemma_span_run(s, p, q, Class::Name);
    assert(s[r] == EQUALS) by {
        assert(s[i + (2 + kl)] == body[2 + kl]);
    }
    lemma_span_run(s, q, r, Class::Blank);
    assert(s[r + 1] == SPACE) by {
        assert(s[i + (3 + kl)] == body[3 + kl]);
    }
    assert(s[stop] == NEWLINE) by {
        assert(s[i + (4 + kl + el)] == body[4 + kl + el]);
    }
    lemma_encode_starts_solid(value);
    assert(!is_space(s[start])) by {
        if el > 0 {
            assert(s[i + (4 + kl)] == body[4 + kl]);
            assert(body[4 + kl + 0int] == text[0]);
        }
    }
    lemma_span_run(s, r + 1, start, Class::Blank);
    assert(s.subrange(start, start + el) =~= text) by {
        assert forall|t: int| 0 <= t < el implies s[start + t] == text[t] by {
            assert(s[i + (4 + kl + t)] == body[4 + kl + t]);
        }
    }
    lemma_encoded_value_reads_back(s, start, value);
    assert(s.subrange(p, q) =~= key) by {
        assert forall|t: int| 0 <= t < kl implies s[p + t] == key[t] by {
            assert(s[i + (1 + t)] == body[1 + t]);
        }
    }
    assert(line_end(s, stop) == stop + 1);
    assert(!at_line_stop(s, p));
    assert(!at_line_stop(s, r));
    assert(read_entry(s, p) == (LineView::Entry {
        key,
        value: Some(value),
        text_start: start,
        text_end: stop,
        next: stop + 1,
    }));
}

proof fn lemma_name_step(v: Seq<u8>, k: int)
    requires
        0 <= k < v.len(),
    ensures
        escaped(v.take(k + 1), false) == escaped(v.take(k), false) + escape_byte(v[k], false),
{
    assert(v.take(k + 1).drop_last() =~= v.take(k));
    assert(v.take(k + 1).last() == v[k]);
}

proof fn lemma_name_prefix(v: Seq<u8>, k: int)
    requires
        0 <= k <= v.len(),
    ensures
        escaped(v.take(k), false).len() <= escaped(v, false).len(),
        escaped(v, false).take(escaped(v.take(k), false).len() as int) == escaped(
            v.take(k),
            false,
        ),
    decreases v.len() - k,
{
    if k == v.len() {
        assert(v.take(k) =~= v);
        assert(escaped(v, false).take(escaped(v, false).len() as int) =~= escaped(v, false));
    } else {
        lemma_name_prefix(v, k + 1);
        lemma_name_step(v, k);
        let a = escaped(v.take(k), false);
        let longer = escaped(v.take(k + 1), false);
        assert(escaped(v, false).take(a.len() as int) =~= longer.take(a.len() as int));
        assert(longer.take(a.len() as int) =~= a);
    }
}

#[verifier::spinoff_prover]
proof fn lemma_scan_name(s: Seq<u8>, base: int, v: Seq<u8>, k: int)
    requires
        0 <= base,
        0 <= k <= v.len(),
        base + escaped(v, false).len() < s.len(),
        s.subrange(base, base + escaped(v, false).len()) == escaped(v, false),
        s[base + escaped(v, false).len()] == QUOTE,
        free_of(v, NEWLINE),
    ensures
        scan_subsection(s, base + escaped(v.take(k), false).len(), v.take(k)) == Some(
            (v, base + escaped(v, false).len() + 1),
        ),
    decreases v.len() - k,
{
    let text = escaped(v, false);
    let total = text.len() as int;
    let done = escaped(v.take(k), false).len() as int;
    let pos = base + done;
    let out = v.take(k);
    lemma_name_prefix(v, k);
    if k == v.len() {
        assert(v.take(k) =~= v);
    } else {
        let b = v[k];
        let piece = escape_byte(b, false);
        lemma_name_step(v, k);
        lemma_name_prefix(v, k + 1);
        let longer = escaped(v.take(k + 1), false);
        assert(longer.len() == done + piece.len());
        assert forall|t: int| 0 <= t < piece.len() implies s[pos + t] == piece[t] by {
            assert(s.subrange(base, base + total)[done + t] == s[pos + t]);
            assert(text.take(longer.len() as int)[done + t] == text[done + t]);
            assert(longer[done + t] == piece[t]);
        }
        assert(out.push(b) =~= v.take(k + 1));
        assert(s[pos] == piece[0]);
        if b == BACKSLASH || b == QUOTE {
            assert(s[pos + 1] == piece[1]);
        } else {
            assert(b != NEWLINE);
        }
        lemma_scan_name(s, base, v, k + 1);
    }
}

/// The header line that a new section is written as, without the line
/// break that may stand in front of it.
pub open spec fn header_line(name: Seq<u8>, subsection: Option<Seq<u8>>) -> Seq<u8> {
    header_text(name, subsection, false)
}

/// What is written is what is read, for headers: the line that the header
/// of a new section is written as reads as a header with that name and that
/// subsection.
#[verifier::spinoff_prover]
pub proof fn lemma_new_header_reads_back(
    s: Seq<u8>,
    i: int,
    name: Seq<u8>,
    subsection: Option<Seq<u8>>,
)
    requires
        name.len() > 0,
        all_in_class(name, Class::Name),
        subsection matches Some(sub) ==> free_of(sub, NEWLINE),
        0 <= i,
        i + header_line(name, subsection).len() <= s.len(),
        s.subrange(i, i + header_line(name, subsection).len()) == header_line(name, subsection),
    ensures
        read_line(s, i) == (LineView::Header {
            name,
            subsection,
            next: i + header_line(name, subsection).len(),
        }),
{
    let body = header_line(name, subsection);
    let nl = name.len() as int;
    assert forall|x: int| 0 <= x < body.len() implies s[i + x] == body[x] by {
        assert(s.subrange(i, i + body.len())[x] == s[i + x]);
    }
    let q = i + 1 + nl;
    match subsection {
        None => {
            assert(body =~= seq![OPEN_BRACKET] + name + seq![CLOSE_BRACKET, NEWLINE]);
            assert(body.len() == nl + 3);
            assert(body[0] == OPEN_BRACKET);
            assert forall|t: int| 0 <= t < nl implies #[trigger] body[1 + t] == name[t] by {}
            assert(body[1 + nl] == CLOSE_BRACKET);
            assert(body[2 + nl] == NEWLINE);
            assert(s[i] == OPEN_BRACKET);
            lemma_span_run(s, i, i, Class::Blank);
            assert forall|x: int| i + 1 <= x < q implies in_class(Class::Name, #[trigger] s[x]) by {
                assert(s[i + (1 + (x - i - 1))] == body[1 + (x - i - 1)]);
                assert(in_class(Class::Name, name[x - i - 1]));
            }
            assert(s[q] == CLOSE_BRACKET) by {
                assert(s[i + (1 + nl)] == body[1 + nl]);
            }
            lemma_span_run(s, i + 1, q, Class::Name);
            assert(s[q + 1] == NEWLINE) by {
                assert(s[i + (2 + nl)] == body[2 + nl]);
            }
            lemma_span_run(s, q + 1, q + 1, Class::Blank);
            assert(s.subrange(i + 1, q) =~= name) by {
                assert forall|t: int| 0 <= t < nl implies s[i + 1 + t] == name[t] by {
                    assert(s[i + (1 + t)] == body[1 + t]);
                }
            }
            assert(line_end(s, q + 1) == q + 2);
            assert(close_header(s, q + 1, name, None) == (LineView::Header {
                name,
                subsection: None,
                next: q + 2,
            }));
            assert(read_header(s, i) == close_header(s, q + 1, name, None));
        },
        Some(sub) => {
            let text = escaped(sub, false);
            let sl = text.len() as int;
            assert(body =~= seq![OPEN_BRACKET] + name + seq![SPACE, QUOTE] + text + seq![
                QUOTE,
                CLOSE_BRACKET,
                NEWLINE,
            ]);
            assert(body.len() == nl + sl + 6);
            assert(body[0] == OPEN_BRACKET);
            assert forall|t: int| 0 <= t < nl implies #[trigger] body[1 + t] == name[t] by {}
            assert(body[1 + nl] == SPACE);
            assert(body[2 + nl] == QUOTE);
            assert forall|t: int| 0 <= t < sl implies #[trigger] body[3 + nl + t] == text[t] by {}
            assert(body[3 + nl + sl] == QUOTE);
            assert(body[4 + nl + sl] == CLOSE_BRACKET);
            assert(body[5 + nl + sl] == NEWLINE);
            assert(s[i] == OPEN_BRACKET);
            lemma_span_run(s, i, i, Class::Blank);
            assert forall|x: int| i + 1 <= x < q implies in_class(Class::Name, #[trigger] s[x]) by {
                assert(s[i + (1 + (x - i - 1))] == body[1 + (x - i - 1)]);
                assert(in_class(Class::Name, name[x - i - 1]));
            }
            assert(s[q] == SPACE) by {
                assert(s[i + (1 + nl)] == body[1 + nl]);
            }
            lemma_span_run(s, i + 1, q, Class::Name);
            assert(s[q + 1] == QUOTE) by {
                assert(s[i + (2 + nl)] == body[2 + nl]);
            }
            lemma_span_run(s, q, q + 1, Class::Blank);
            let base = q + 2;
            assert(s.subrange(base, base + sl) =~= text) by {
                assert forall|t: int| 0 <= t < sl implies s[base + t] == text[t] by {
                    assert(s[i + (3 + nl + t)] == body[3 + nl + t]);
                }
            }
            assert(s[base + sl] == QUOTE) by {
                assert(s[i + (3 + nl + sl)] == body[3 + nl + sl]);
            }
            assert(sub.take(0) =~= Seq::<u8>::empty());
            lemma_scan_name(s, base, sub, 0);
            let e = base + sl + 1;
            assert(s[e] == CLOSE_BRACKET) by {
                assert(s[i + (4 + nl + sl)] == body[4 + nl + sl]);
            }
            assert(s[e + 1] == NEWLINE) by {
                assert(s[i + (5 + nl + sl)] == body[5 + nl + sl]);
            }
            lemma_span_run(s, e + 1, e + 1, Class::Blank);
            assert(s.subrange(i + 1, q) =~= name) by {
                assert forall|t: int| 0 <= t < nl implies s[i + 1 + t] == name[t] by {
                    assert(s[i + (1 + t)] == body[1 + t]);
                }
            }
            assert(line_end(s, e + 1) == e + 2);
            assert(close_header(s, e + 1, name, Some(sub)) == (LineView::Header {
                name,
                subsection: Some(sub),
                next: e + 2,
            }));
            assert(read_header(s, i) == close_header(s, e + 1, name, Some(sub)));
        },
    }
}

/// What `set_value` adds is a line break, where the text in front ends
/// inside a line, and then the lines of which the two laws above speak.
pub proof fn lemma_new_lines(
    name: Seq<u8>,
    subsection: Option<Seq<u8>>,
    key: Seq<u8>,
    value: Seq<u8>,
    open: bool,
)
    ensures
        ItemView::Entry(new_entry(key, value, open)).bytes() == crate::edit::line_break(open)
            + entry_line(key, value),
        header_text(name, subsection, open) == crate::edit::line_break(open) + header_line(
            name,
            subsection,
        ),
{
    assert(ItemView::Entry(new_entry(key, value, open)).bytes() =~= crate::edit::line_break(open)
        + entry_line(key, value));
    assert(header_text(name, subsection, open) =~= crate::edit::line_break(open) + header_line(
        name,
        subsection,
    ));
}

} // verus!
