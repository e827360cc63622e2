//! The grammar of one line of a configuration file: blank lines and
//! comments, section headers, and entries with their quoted, escaped and
//! continued values.

use crate::text::{
    alpha, copy_range, is_alnum, is_alpha, is_space, lower_seq, lowered, BACKSLASH, BACKSPACE,
    CARRIAGE_RETURN, CLOSE_BRACKET, DASH, DOT, EQUALS, HASH, NEWLINE, OPEN_BRACKET, QUOTE,
    SEMICOLON, SPACE, TAB,
};
use vstd::prelude::*;
use vstd::slice::slice_subrange;

verus! {

/// Why a line is not part of the file format.
#[derive(Clone, Copy, Debug, PartialEq, Eq, Structural)]
pub enum ParseErrorKind {
    /// A line that opens with `[` is not a well-formed section header.
    BadHeader,
    /// A line starts with a character that opens neither a key, a header nor
    /// a comment, or a key is followed by something other than `=`.
    BadKey,
    /// A backslash in a value is followed by a character that it cannot escape.
    BadEscape,
    /// A quote in a value is not closed on its line.
    OpenQuote,
    /// An entry stands in front of the first section header.
    StrayKey,
}

/// A class of characters that a run is made of.
#[derive(Clone, Copy, Debug, PartialEq, Eq, Structural)]
pub enum Class {
    /// Space, tab and carriage return.
    Blank,
    /// Letters, digits and `-`: the characters of section names and keys.
    Name,
    /// Letters, digits, `-` and `.`: the characters of a dotted subsection.
    Dotted,
}

pub open spec fn in_class(class: Class, b: u8) -> bool {
    match class {
        Class::Blank => is_space(b),
        Class::Name => is_alnum(b) || b == DASH,
        Class::Dotted => is_alnum(b) || b == DASH || b == DOT,
    }
}

/// Whether `b` is a character of `class`.
pub fn has_class(class: Class, b: u8) -> (r: bool)
    ensures
        r == in_class(class, b),
{
    let letter_or_digit = (65 <= b && b <= 90) || (97 <= b && b <= 122) || (48 <= b && b <= 57);
    match class {
        Class::Blank => b == SPACE || b == TAB || b == CARRIAGE_RETURN,
        Class::Name => letter_or_digit || b == DASH,
        Class::Dotted => letter_or_digit || b == DASH || b == DOT,
    }
}

/// The end of the run of characters of `class` that starts at `i`.
pub open spec fn span_end(s: Seq<u8>, i: int, class: Class) -> int
    decreases s.len() - i,
{
    if 0 <= i < s.len() && in_class(class, s[i]) {
        span_end(s, i + 1, class)
    } else {
        i
    }
}

/// The index behind the first line break at or after `i`, or the end of `s`.
pub open spec fn line_end(s: Seq<u8>, i: int) -> int
    decreases s.len() - i,
{
    if 0 <= i < s.len() {
        if s[i] == NEWLINE {
            i + 1
        } else {
            line_end(s, i + 1)
        }
    } else {
        i
    }
}

/// Whether nothing but a comment or the line break follows at `t`.
pub open spec fn at_line_stop(s: Seq<u8>, t: int) -> bool {
    t >= s.len() || s[t] == NEWLINE || s[t] == HASH || s[t] == SEMICOLON
}

/// The character that a backslash followed by `c` stands for in a value.
pub open spec fn unescape_of(c: u8) -> Option<u8> {
    if c == 110 {
        Some(NEWLINE)
    } else if c == 116 {
        Some(TAB)
    } else if c == 98 {
        Some(BACKSPACE)
    } else if c == BACKSLASH || c == QUOTE {
        Some(c)
    } else {
        None
    }
}

/// What a scan of value text came to.
pub enum ScannedView {
    /// The value, the end of its text, and the index at which the scan stopped.
    Done { value: Seq<u8>, end: int, stop: int },
    BadEscape,
    OpenQuote,
}

/// Scans value text from `k` on. `out` is the value read so far, `keep` the
/// length of `out` up to its last significant character, `end` the index
/// behind the last significant raw character, and `quoted` tells whether a
/// quote is open. Outside quotes a comment sign ends the value and trailing
/// blanks do not belong to it; a backslash in front of a line break continues
/// the value on the next line.
pub open spec fn scan_value(
    s: Seq<u8>,
    k: int,
    out: Seq<u8>,
    keep: int,
    end: int,
    quoted: bool,
) -> ScannedView
    decreases s.len() - k,
{
    if k < 0 || k >= s.len() || s[k] == NEWLINE {
        if quoted {
            ScannedView::OpenQuote
        } else {
            ScannedView::Done { value: out.take(keep), end, stop: k }
        }
    } else if s[k] == BACKSLASH {
        if k + 1 >= s.len() {
            ScannedView::BadEscape
        } else if s[k + 1] == NEWLINE {
            scan_value(s, k + 2, out, keep, end, quoted)
        } else if s[k + 1] == CARRIAGE_RETURN && k + 2 < s.len() && s[k + 2] == NEWLINE {
            scan_value(s, k + 3, out, keep, end, quoted)
        } else {
            match unescape_of(s[k + 1]) {
                Some(c) => scan_value(s, k + 2, out.push(c), out.len() as int + 1,k + 2, quoted),
                None => ScannedView::BadEscape,
            }
        }
    } else if s[k] == QUOTE {
        scan_value(s, k + 1, out, out.len() as int, k + 1, !quoted)
    } else if !quoted && (s[k] == HASH || s[k] == SEMICOLON) {
        ScannedView::Done { value: out.take(keep), end, stop: k }
    } else if !quoted && is_space(s[k]) {
        scan_value(s, k + 1, out.push(s[k]), keep, end, quoted)
    } else {
        scan_value(s, k + 1, out.push(s[k]), out.len() as int + 1,k + 1, quoted)
    }
}

/// Scans a quoted subsection name from `k` on, behind its opening quote, and
/// yields the name with the index behind its closing quote. A backslash takes
/// the next character as it is.
pub open spec fn scan_subsection(s: Seq<u8>, k: int, out: Seq<u8>) -> Option<(Seq<u8>, int)>
    decreases s.len() - k,
{
    if k < 0 || k >= s.len() || s[k] == NEWLINE {
        None
    } else if s[k] == QUOTE {
        Some((out, k + 1))
    } else if s[k] == BACKSLASH {
        if k + 1 >= s.len() || s[k + 1] == NEWLINE {
            None
        } else {
            scan_subsection(s, k + 2, out.push(s[k + 1]))
        }
    } else {
        scan_subsection(s, k + 1, out.push(s[k]))
    }
}

/// One line of a file, as read from its first character on.
pub enum LineView {
    /// A blank line or a comment.
    Trivia { next: int },
    Header { name: Seq<u8>, subsection: Option<Seq<u8>>, next: int },
    /// An entry; its value text is `s[text_start..text_end]`.
    Entry { key: Seq<u8>, value: Option<Seq<u8>>, text_start: int, text_end: int, next: int },
    Bad(ParseErrorKind),
}

/// A header whose bracket closes in front of `r`.
pub open spec fn close_header(
    s: Seq<u8>,
    r: int,
    name: Seq<u8>,
    subsection: Option<Seq<u8>>,
) -> LineView {
    let t = span_end(s, r, Class::Blank);
    if at_line_stop(s, t) {
        LineView::Header { name, subsection, next: line_end(s, t) }
    } else {
        LineView::Bad(ParseErrorKind::BadHeader)
    }
}

/// A header line whose `[` stands at `p`: `[name]`, `[name "subsection"]`,
/// or `[name.subsection]`, whose subsection is taken in lower case.
pub open spec fn read_header(s: Seq<u8>, p: int) -> LineView {
    let q = span_end(s, p + 1, Class::Name);
    let name = s.subrange(p + 1, q);
    if q == p + 1 || q >= s.len() {
        LineView::Bad(ParseErrorKind::BadHeader)
    } else if s[q] == CLOSE_BRACKET {
        close_header(s, q + 1, name, None)
    } else if s[q] == DOT {
        let d = span_end(s, q + 1, Class::Dotted);
        if d > q + 1 && d < s.len() && s[d] == CLOSE_BRACKET {
            close_header(s, d + 1, name, Some(lower_seq(s.subrange(q + 1, d))))
        } else {
            LineView::Bad(ParseErrorKind::BadHeader)
        }
    } else if is_space(s[q]) {
        let r = span_end(s, q, Class::Blank);
        if r < s.len() && s[r] == QUOTE {
            match scan_subsection(s, r + 1, Seq::empty()) {
                Some((subsection, e)) => if e < s.len() && s[e] == CLOSE_BRACKET {
                    close_header(s, e + 1, name, Some(subsection))
                } else {
                    LineView::Bad(ParseErrorKind::BadHeader)
                },
                None => LineView::Bad(ParseErrorKind::BadHeader),
            }
        } else {
            LineView::Bad(ParseErrorKind::BadHeader)
        }
    } else {
        LineView::Bad(ParseErrorKind::BadHeader)
    }
}

/// An entry line whose key starts at `p`.
pub open spec fn read_entry(s: Seq<u8>, p: int) -> LineView {
    let q = span_end(s, p, Class::Name);
    let key = s.subrange(p, q);
    let r = span_end(s, q, Class::Blank);
    if at_line_stop(s, r) {
        LineView::Entry { key, value: None, text_start: q, text_end: q, next: line_end(s, r) }
    } else if s[r] == EQUALS {
        let start = span_end(s, r + 1, Class::Blank);
        match scan_value(s, start, Seq::empty(), 0, start, false) {
            ScannedView::Done { value, end, stop } => LineView::Entry {
                key,
                value: Some(value),
                text_start: start,
                text_end: end,
                next: line_end(s, stop),
            },
            ScannedView::BadEscape => LineView::Bad(ParseErrorKind::BadEscape),
            ScannedView::OpenQuote => LineView::Bad(ParseErrorKind::OpenQuote),
        }
    } else {
        LineView::Bad(ParseErrorKind::BadKey)
    }
}

/// The line that starts at `i`.
pub open spec fn read_line(s: Seq<u8>, i: int) -> LineView {
    let p = span_end(s, i, Class::Blank);
    if at_line_stop(s, p) {
        LineView::Trivia { next: line_end(s, p) }
    } else if s[p] == OPEN_BRACKET {
        read_header(s, p)
    } else if is_alpha(s[p]) {
        read_entry(s, p)
    } else {
        LineView::Bad(ParseErrorKind::BadKey)
    }
}

pub proof fn lemma_span_end(s: Seq<u8>, i: int, class: Class)
    requires
        0 <= i <= s.len(),
    ensures
        i <= span_end(s, i, class) <= s.len(),
    decreases s.len() - i,
{
    if i < s.len() && in_class(class, s[i]) {
        lemma_span_end(s, i + 1, class);
    }
}

pub proof fn lemma_line_end(s: Seq<u8>, i: int)
    requires
        0 <= i <= s.len(),
    ensures
        i <= line_end(s, i) <= s.len(),
        i < s.len() ==> i < line_end(s, i),
    decreases s.len() - i,
{
    if i < s.len() && s[i] != NEWLINE {
        lemma_line_end(s, i + 1);
    }
}

pub proof fn lemma_scan_value(s: Seq<u8>, k: int, out: Seq<u8>, keep: int, end: int, quoted: bool)
    requires
        0 <= end <= k <= s.len(),
    ensures
        match scan_value(s, k, out, keep, end, quoted) {
            ScannedView::Done { value, end: e, stop } => end <= e <= stop <= s.len() && k <= stop,
            _ => true,
        },
    decreases s.len() - k,
{
    if k >= s.len() || s[k] == NEWLINE {
    } else if s[k] == BACKSLASH {
        if k + 1 >= s.len() {
        } else if s[k + 1] == NEWLINE {
            lemma_scan_value(s, k + 2, out, keep, end, quoted);
        } else if s[k + 1] == CARRIAGE_RETURN && k + 2 < s.len() && s[k + 2] == NEWLINE {
            lemma_scan_value(s, k + 3, out, keep, end, quoted);
        } else {
            match unescape_of(s[k + 1]) {
                Some(c) => {
                    lemma_scan_value(s, k + 2, out.push(c), out.len() as int + 1,k + 2, quoted);
                },
                None => {},
            }
        }
    } else if s[k] == QUOTE {
        lemma_scan_value(s, k + 1, out, out.len() as int, k + 1, !quoted);
    } else if !quoted && (s[k] == HASH || s[k] == SEMICOLON) {
    } else if !quoted && is_space(s[k]) {
        lemma_scan_value(s, k + 1, out.push(s[k]), keep, end, quoted);
    } else {
        lemma_scan_value(s, k + 1, out.push(s[k]), out.len() as int + 1,k + 1, quoted);
    }
}

pub proof fn lemma_scan_subsection(s: Seq<u8>, k: int, out: Seq<u8>)
    requires
        0 <= k <= s.len(),
    ensures
        match scan_subsection(s, k, out) {
            Some((_, e)) => k < e <= s.len(),
            None => true,
        },
    decreases s.len() - k,
{
    if k >= s.len() || s[k] == NEWLINE {
    } else if s[k] == QUOTE {
    } else if s[k] == BACKSLASH {
        if k + 1 >= s.len() || s[k + 1] == NEWLINE {
        } else {
            lemma_scan_subsection(s, k + 2, out.push(s[k + 1]));
        }
    } else {
        lemma_scan_subsection(s, k + 1, out.push(s[k]));
    }
}

proof fn lemma_close_header(s: Seq<u8>, r: int, name: Seq<u8>, subsection: Option<Seq<u8>>)
    requires
        0 <= r <= s.len(),
    ensures
        match close_header(s, r, name, subsection) {
            LineView::Header { next, .. } => r <= next <= s.len(),
            LineView::Bad(_) => true,
            _ => false,
        },
{
    lemma_span_end(s, r, Class::Blank);
    lemma_line_end(s, span_end(s, r, Class::Blank));
}

/// Every line that is read ends behind its first character and inside the
/// text, and the value text of an entry lies inside its line.
pub proof fn lemma_read_line(s: Seq<u8>, i: int)
    requires
        0 <= i < s.len(),
    ensures
        match read_line(s, i) {
            LineView::Trivia { next } => i < next <= s.len(),
            LineView::Header { next, .. } => i < next <= s.len(),
            LineView::Entry { text_start, text_end, next, .. } => i <= text_start <= text_end
                <= next <= s.len() && i < next,
            LineView::Bad(_) => true,
        },
{
    lemma_span_end(s, i, Class::Blank);
    let p = span_end(s, i, Class::Blank);
    lemma_line_end(s, p);
    lemma_line_end(s, i);
    if at_line_stop(s, p) {
        if p == i {
        }
    } else if s[p] == OPEN_BRACKET {
        lemma_span_end(s, p + 1, Class::Name);
        let q = span_end(s, p + 1, Class::Name);
        let name = s.subrange(p + 1, q);
        if q == p + 1 || q >= s.len() {
        } else if s[q] == CLOSE_BRACKET {
            lemma_close_header(s, q + 1, name, None);
        } else if s[q] == DOT {
            lemma_span_end(s, q + 1, Class::Dotted);
            let d = span_end(s, q + 1, Class::Dotted);
            if d > q + 1 && d < s.len() && s[d] == CLOSE_BRACKET {
                lemma_close_header(s, d + 1, name, Some(lower_seq(s.subrange(q + 1, d))));
            }
        } else if is_space(s[q]) {
            lemma_span_end(s, q, Class::Blank);
            let r = span_end(s, q, Class::Blank);
            if r < s.len() && s[r] == QUOTE {
                lemma_scan_subsection(s, r + 1, Seq::empty());
                match scan_subsection(s, r + 1, Seq::empty()) {
                    Some((subsection, e)) => {
                        if e < s.len() && s[e] == CLOSE_BRACKET {
                            lemma_close_header(s, e + 1, name, Some(subsection));
                        }
                    },
                    None => {},
                }
            }
        }
    } else if is_alpha(s[p]) {
        lemma_span_end(s, p, Class::Name);
        lemma_span_end(s, p + 1, Class::Name);
        let q = span_end(s, p, Class::Name);
        assert(q > p);
        lemma_span_end(s, q, Class::Blank);
        let r = span_end(s, q, Class::Blank);
        lemma_line_end(s, r);
        if at_line_stop(s, r) {
        } else if s[r] == EQUALS {
            lemma_span_end(s, r + 1, Class::Blank);
            let start = span_end(s, r + 1, Class::Blank);
            lemma_scan_value(s, start, Seq::empty(), 0, start, false);
            match scan_value(s, start, Seq::empty(), 0, start, false) {
                ScannedView::Done { value, end, stop } => {
                    lemma_line_end(s, stop);
                },
                _ => {},
            }
        }
    }
}

/// The end of the run of characters of `class` that starts at `i`.
pub fn span(s: &[u8], i: usize, class: Class) -> (r: usize)
    requires
        i <= s@.len(),
    ensures
        r == span_end(s@, i as int, class),
        i <= r <= s@.len(),
{
    let mut k: usize = i;
    while k < s.len() && has_class(class, s[k])
        invariant
            i <= k <= s@.len(),
            span_end(s@, k as int, class) == span_end(s@, i as int, class),
        decreases s@.len() - k,
    {
        k += 1;
    }
    k
}

/// The index behind the first line break at or after `i`, or the end of `s`.
pub fn find_line_end(s: &[u8], i: usize) -> (r: usize)
    requires
        i <= s@.len(),
    ensures
        r == line_end(s@, i as int),
        i <= r <= s@.len(),
{
    let mut k: usize = i;
    while k < s.len() && s[k] != NEWLINE
        invariant
            i <= k <= s@.len(),
            line_end(s@, k as int) == line_end(s@, i as int),
        decreases s@.len() - k,
    {
        k += 1;
    }
    if k < s.len() {
        k + 1
    } else {
        k
    }
}

/// Whether nothing but a comment or the line break follows at `t`.
pub fn line_stop(s: &[u8], t: usize) -> (r: bool)
    requires
        t <= s@.len(),
    ensures
        r == at_line_stop(s@, t as int),
{
    t >= s.len() || s[t] == NEWLINE || s[t] == HASH || s[t] == SEMICOLON
}

/// The character that a backslash followed by `c` stands for in a value.
pub fn unescape(c: u8) -> (r: Option<u8>)
    ensures
        r == unescape_of(c),
{
    if c == 110 {
        Some(NEWLINE)
    } else if c == 116 {
        Some(TAB)
    } else if c == 98 {
        Some(BACKSPACE)
    } else if c == BACKSLASH || c == QUOTE {
        Some(c)
    } else {
        None
    }
}

/// What a scan of value text came to.
#[derive(Debug, PartialEq, Eq)]
pub enum Scanned {
    Done { value: Vec<u8>, end: usize, stop: usize },
    BadEscape,
    OpenQuote,
}

impl View for Scanned {
    type V = ScannedView;

    open spec fn view(&self) -> ScannedView {
        match self {
            Scanned::Done { value, end, stop } => ScannedView::Done {
                value: value@,
                end: *end as int,
                stop: *stop as int,
            },
            Scanned::BadEscape => ScannedView::BadEscape,
            Scanned::OpenQuote => ScannedView::OpenQuote,
        }
    }
}

/// Scans the value text that starts at `start`.
pub fn scan(s: &[u8], start: usize) -> (r: Scanned)
    requires
        start <= s@.len(),
    ensures
        r@ == scan_value(s@, start as int, Seq::empty(), 0, start as int, false),
        r matches Scanned::Done { end, stop, .. } ==> start <= end <= stop <= s@.len(),
{
    let n = s.len();
    let mut out: Vec<u8> = Vec::new();
    let mut keep: usize = 0;
    let mut end: usize = start;
    let mut quoted = false;
    let mut k: usize = start;
    loop
        invariant
            n == s@.len(),
            start <= end <= k <= n,
            keep <= out@.len() <= k - start,
            scan_value(s@, k as int, out@, keep as int, end as int, quoted) == scan_value(
                s@,
                start as int,
                Seq::empty(),
                0,
                start as int,
                false,
            ),
        decreases n - k,
    {
        if k >= n || s[k] == NEWLINE {
            if quoted {
                return Scanned::OpenQuote;
            }
            let ghost read = out@;
            out.truncate(keep);
            assert(out@ =~= read.take(keep as int));
            return Scanned::Done { value: out, end, stop: k };
        }
        let b = s[k];
        if b == BACKSLASH {
            if k + 1 >= n {
                return Scanned::BadEscape;
            }
            let c = s[k + 1];
            if c == NEWLINE {
                k = k + 2;
            } else if c == CARRIAGE_RETURN && k + 2 < n && s[k + 2] == NEWLINE {
                k = k + 3;
            } else {
                match unescape(c) {
                    Some(x) => {
                        out.push(x);
                        keep = out.len();
                        k = k + 2;
                        end = k;
                    },
                    None => {
                        return Scanned::BadEscape;
                    },
                }
            }
        } else if b == QUOTE {
            keep = out.len();
            quoted = !quoted;
            k = k + 1;
            end = k;
        } else if !quoted && (b == HASH || b == SEMICOLON) {
            let ghost read = out@;
            out.truncate(keep);
            assert(out@ =~= read.take(keep as int));
            return Scanned::Done { value: out, end, stop: k };
        } else if !quoted && (b == SPACE || b == TAB || b == CARRIAGE_RETURN) {
            out.push(b);
            k = k + 1;
        } else {
            out.push(b);
            keep = out.len();
            k = k + 1;
            end = k;
        }
    }
}

/// Scans a quoted subsection name from `start` on, behind its opening quote.
pub fn scan_quoted(s: &[u8], start: usize) -> (r: Option<(Vec<u8>, usize)>)
    requires
        start <= s@.len(),
    ensures
        match r {
            Some((name, e)) => scan_subsection(s@, start as int, Seq::empty()) == Some(
                (name@, e as int),
            ) && start < e <= s@.len(),
            None => scan_subsection(s@, start as int, Seq::empty()) is None,
        },
{
    let n = s.len();
    let mut out: Vec<u8> = Vec::new();
    let mut k: usize = start;
    loop
        invariant
            n == s@.len(),
            start <= k <= n,
            scan_subsection(s@, k as int, out@) == scan_subsection(
                s@,
                start as int,
                Seq::empty(),
            ),
        decreases n - k,
    {
        if k >= n || s[k] == NEWLINE {
            return None;
        }
        let b = s[k];
        if b == QUOTE {
            return Some((out, k + 1));
        } else if b == BACKSLASH {
            if k + 1 >= n || s[k + 1] == NEWLINE {
                return None;
            }
            out.push(s[k + 1]);
            k = k + 2;
        } else {
            out.push(b);
            k = k + 1;
        }
    }
}

/// One line of a file.
#[derive(Debug, PartialEq, Eq)]
pub enum Line {
    Trivia { next: usize },
    Header { name: Vec<u8>, subsection: Option<Vec<u8>>, next: usize },
    Entry { key: Vec<u8>, value: Option<Vec<u8>>, text_start: usize, text_end: usize, next: usize },
    Bad(ParseErrorKind),
}

impl View for Line {
    type V = LineView;

    open spec fn view(&self) -> LineView {
        match self {
            Line::Trivia { next } => LineView::Trivia { next: *next as int },
            Line::Header { name, subsection, next } => LineView::Header {
                name: name@,
                subsection: match subsection {
                    Some(v) => Some(v@),
                    None => None,
                },
                next: *next as int,
            },
            Line::Entry { key, value, text_start, text_end, next } => LineView::Entry {
                key: key@,
                value: match value {
                    Some(v) => Some(v@),
                    None => None,
                },
                text_start: *text_start as int,
                text_end: *text_end as int,
                next: *next as int,
            },
            Line::Bad(kind) => LineView::Bad(*kind),
        }
    }
}

fn finish_header(s: &[u8], r: usize, name: Vec<u8>, subsection: Option<Vec<u8>>) -> (line: Line)
    requires
        r <= s@.len(),
    ensures
        line@ == close_header(
            s@,
            r as int,
            name@,
            match subsection {
                Some(v) => Some(v@),
                None => None,
            },
        ),
{
    let t = span(s, r, Class::Blank);
    if line_stop(s, t) {
        Line::Header { name, subsection, next: find_line_end(s, t) }
    } else {
        Line::Bad(ParseErrorKind::BadHeader)
    }
}

fn header(s: &[u8], p: usize) -> (line: Line)
    requires
        p < s@.len(),
    ensures
        line@ == read_header(s@, p as int),
{
    let n = s.len();
    let q = span(s, p + 1, Class::Name);
    if q == p + 1 || q >= n {
        return Line::Bad(ParseErrorKind::BadHeader);
    }
    let name = copy_range(s, p + 1, q);
    let b = s[q];
    if b == CLOSE_BRACKET {
        finish_header(s, q + 1, name, None)
    } else if b == DOT {
        let d = span(s, q + 1, Class::Dotted);
        if d > q + 1 && d < n && s[d] == CLOSE_BRACKET {
            let sub = lowered(slice_subrange(s, q + 1, d));
            finish_header(s, d + 1, name, Some(sub))
        } else {
            Line::Bad(ParseErrorKind::BadHeader)
        }
    } else if b == SPACE || b == TAB || b == CARRIAGE_RETURN {
        let r = span(s, q, Class::Blank);
        if r < n && s[r] == QUOTE {
            match scan_quoted(s, r + 1) {
                Some((sub, e)) => {
                    if e < n && s[e] == CLOSE_BRACKET {
                        finish_header(s, e + 1, name, Some(sub))
                    } else {
                        Line::Bad(ParseErrorKind::BadHeader)
                    }
                },
                None => Line::Bad(ParseErrorKind::BadHeader),
            }
        } else {
            Line::Bad(ParseErrorKind::BadHeader)
        }
    } else {
        Line::Bad(ParseErrorKind::BadHeader)
    }
}

fn entry(s: &[u8], p: usize) -> (line: Line)
    requires
        p < s@.len(),
    ensures
        line@ == read_entry(s@, p as int),
{
    let q = span(s, p, Class::Name);
    let key = copy_range(s, p, q);
    let r = span(s, q, Class::Blank);
    if line_stop(s, r) {
        Line::Entry { key, value: None, text_start: q, text_end: q, next: find_line_end(s, r) }
    } else if s[r] == EQUALS {
        let start = span(s, r + 1, Class::Blank);
        match scan(s, start) {
            Scanned::Done { value, end, stop } => Line::Entry {
                key,
                value: Some(value),
                text_start: start,
                text_end: end,
                next: find_line_end(s, stop),
            },
            Scanned::BadEscape => Line::Bad(ParseErrorKind::BadEscape),
            Scanned::OpenQuote => Line::Bad(ParseErrorKind::OpenQuote),
        }
    } else {
        Line::Bad(ParseErrorKind::BadKey)
    }
}

/// Reads the line that starts at `i`.
pub fn line(s: &[u8], i: usize) -> (line: Line)
    requires
        i < s@.len(),
    ensures
        line@ == read_line(s@, i as int),
        match line {
            Line::Trivia { next } => i < next <= s@.len(),
            Line::Header { next, .. } => i < next <= s@.len(),
            Line::Entry { text_start, text_end, next, .. } => i <= text_start <= text_end <= next
                <= s@.len() && i < next,
            Line::Bad(_) => true,
        },
{
    proof {
        lemma_read_line(s@, i as int);
    }
    let p = span(s, i, Class::Blank);
    if line_stop(s, p) {
        Line::Trivia { next: find_line_end(s, p) }
    } else if s[p] == OPEN_BRACKET {
        header(s, p)
    } else if alpha(s[p]) {
        entry(s, p)
    } else {
        Line::Bad(ParseErrorKind::BadKey)
    }
}

} // verus!
