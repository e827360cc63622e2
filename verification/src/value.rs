//! Coercion of raw value text into booleans, integers and the small closed
//! sets of tokens that some keys accept, and the leniency adapters that turn
//! a failed coercion into an absent or default value.

use crate::text::{eq_ignore_ascii_case, eq_ignore_case, is_digit, to_vec};
use vstd::prelude::*;
use vstd::string::StringSliceAdditionalSpecFns;

verus! {

/// Raw text that does not satisfy the kind of value that was asked for.
#[derive(Debug, PartialEq, Eq)]
pub struct ValueError {
    /// The offending text.
    pub value: Vec<u8>,
}

/// The algorithm that names stored objects.
#[derive(Clone, Copy, Debug, PartialEq, Eq, Structural)]
pub enum ObjectHash {
    Sha1,
    Sha256,
}

/// Whether changes of references are logged.
#[derive(Clone, Copy, Debug, PartialEq, Eq, Structural)]
pub enum WriteReflog {
    /// Log every reference.
    Always,
    /// Log the references for which a log is customary.
    Normal,
    /// Log nothing.
    Disable,
}

/// How an ambiguous object name is narrowed down.
#[derive(Clone, Copy, Debug, PartialEq, Eq, Structural)]
pub enum ObjectKindHint {
    Commit,
    Committish,
    Tree,
    Treeish,
    Blob,
}

/// Whether `v` is `word`, in any mix of upper and lower case.
pub open spec fn is_word(v: Seq<u8>, token: &str) -> bool {
    eq_ignore_case(v, token.spec_bytes())
}

/// Whether `v` is `token`, in any mix of upper and lower case.
pub fn word(v: &[u8], token: &str) -> (r: bool)
    ensures
        r == is_word(v@, token),
{
    eq_ignore_ascii_case(v, token.as_bytes())
}

/// The boolean that a value text stands for, if any: `true`, `yes`, `on`
/// and `1`, or `false`, `no`, `off` and `0`, in any case.
pub open spec fn boolean_of(v: Seq<u8>) -> Option<bool> {
    if is_word(v, "true") || is_word(v, "yes") || is_word(v, "on") || is_word(v, "1") {
        Some(true)
    } else if is_word(v, "false") || is_word(v, "no") || is_word(v, "off") || is_word(v, "0") {
        Some(false)
    } else {
        None
    }
}

/// Reads a boolean from value text.
pub fn parse_boolean(v: &[u8]) -> (r: Option<bool>)
    ensures
        r == boolean_of(v@),
{
    if word(v, "true") || word(v, "yes") || word(v, "on") || word(v, "1") {
        Some(true)
    } else if word(v, "false") || word(v, "no") || word(v, "off") || word(v, "0") {
        Some(false)
    } else {
        None
    }
}

/// The multiplier that a unit suffix stands for.
pub open spec fn unit_of(b: u8) -> Option<int> {
    if b == 107 || b == 75 {
        Some(1024)
    } else if b == 109 || b == 77 {
        Some(1048576)
    } else if b == 103 || b == 71 {
        Some(1073741824)
    } else {
        None
    }
}

/// The multiplier that a unit suffix stands for.
pub fn unit(b: u8) -> (r: Option<u64>)
    ensures
        r is Some == unit_of(b) is Some,
        r is Some ==> r->0 == unit_of(b)->0,
{
    if b == 107 || b == 75 {
        Some(1024)
    } else if b == 109 || b == 77 {
        Some(1048576)
    } else if b == 103 || b == 71 {
        Some(1073741824)
    } else {
        None
    }
}

pub open spec fn all_digits(s: Seq<u8>) -> bool {
    forall|i: int| 0 <= i < s.len() ==> is_digit(#[trigger] s[i])
}

/// The number that a string of decimal digits denotes.
pub open spec fn digits_value(s: Seq<u8>) -> nat
    decreases s.len(),
{
    if s.len() == 0 {
        0
    } else {
        digits_value(s.drop_last()) * 10 + if is_digit(s.last()) {
            (s.last() - 48) as nat
        } else {
            0
        }
    }
}

/// The value of a string of digits under a sign and a unit, if the string is
/// not empty, holds digits only, and the value fits 64 bits.
pub open spec fn scaled_value(digits: Seq<u8>, negative: bool, factor: int) -> Option<i64> {
    if digits.len() == 0 || !all_digits(digits) {
        None
    } else {
        let n: int = if negative {
            -(digits_value(digits) * factor)
        } else {
            digits_value(digits) * factor
        };
        if i64::MIN <= n <= i64::MAX {
            Some(n as i64)
        } else {
            None
        }
    }
}

/// The integer that a value text stands for, if any: an optional sign,
/// decimal digits, and an optional unit `k`, `m` or `g` that scales by a
/// power of 1024. Text whose value does not fit 64 bits stands for none.
pub open spec fn integer_of(v: Seq<u8>) -> Option<i64> {
    let negative = v.len() > 0 && v[0] == 45;
    let start: int = if v.len() > 0 && (v[0] == 45 || v[0] == 43) {
        1
    } else {
        0
    };
    let scaled = v.len() > start && unit_of(v.last()) is Some;
    let end: int = if scaled {
        v.len() - 1
    } else {
        v.len() as int
    };
    let factor: int = if scaled {
        unit_of(v.last())->0
    } else {
        1
    };
    scaled_value(v.subrange(start, end), negative, factor)
}

proof fn lemma_digits_grow(s: Seq<u8>, k: int)
    requires
        0 <= k <= s.len(),
    ensures
        digits_value(s.take(k)) <= digits_value(s),
    decreases s.len() - k,
{
    if k == s.len() {
        assert(s.take(k) =~= s);
    } else {
        lemma_digits_grow(s.drop_last(), k);
        assert(s.drop_last().take(k) =~= s.take(k));
    }
}

/// Reads an integer with an optional unit from value text.
pub fn parse_integer(v: &[u8]) -> (r: Option<i64>)
    ensures
        r == integer_of(v@),
{
    let n = v.len();
    let mut start: usize = 0;
    let mut negative = false;
    if n > 0 && v[0] == 45 {
        negative = true;
        start = 1;
    } else if n > 0 && v[0] == 43 {
        start = 1;
    }
    let mut end: usize = n;
    let mut factor: u64 = 1;
    if end > start {
        match unit(v[end - 1]) {
            Some(f) => {
                factor = f;
                end = end - 1;
            },
            None => {},
        }
    }
    if end == start {
        return None;
    }
    let ghost digits = v@.subrange(start as int, end as int);
    let limit: u64 = 9223372036854775808;
    let mut acc: u64 = 0;
    let mut i: usize = start;
    while i < end
        invariant
            start <= i <= end <= n,
            n == v@.len(),
            digits == v@.subrange(start as int, end as int),
            all_digits(digits.take(i - start)),
            acc == digits_value(digits.take(i - start)),
            acc <= limit,
            limit == 9223372036854775808,
            1 <= factor <= 1073741824,
            integer_of(v@) == scaled_value(digits, negative, factor as int),
        decreases end - i,
    {
        let b = v[i];
        let ghost prefix = digits.take(i - start);
        let ghost next = digits.take(i - start + 1);
        assert(next.drop_last() =~= prefix);
        assert(next.last() == b);
        if !(48 <= b && b <= 57) {
            assert(!is_digit(digits[i - start]));
            return None;
        }
        let d: u64 = (b - 48) as u64;
        if acc > (limit - d) / 10 {
            proof {
                assert(digits_value(next) > limit);
                lemma_digits_grow(digits, i - start + 1);
                let dv = digits_value(digits);
                let f = factor as int;
                assert(dv * f >= dv) by (nonlinear_arith)
                    requires
                        f >= 1,
                        dv >= 0,
                ;
            }
            return None;
        }
        acc = acc * 10 + d;
        assert forall|j: int| 0 <= j < next.len() implies is_digit(#[trigger] next[j]) by {
            if j < prefix.len() {
                assert(next[j] == prefix[j]);
            }
        }
        i += 1;
    }
    assert(digits.take(i - start) =~= digits);
    assert(acc as int * factor as int <= 9223372036854775808 * 1073741824) by (nonlinear_arith)
        requires
            0 <= acc as int <= 9223372036854775808,
            1 <= factor as int <= 1073741824,
    ;
    let m: i128 = (acc as i128) * (factor as i128);
    let val: i128 = if negative {
        -m
    } else {
        m
    };
    if val < -9223372036854775808 || val > 9223372036854775807 {
        None
    } else {
        Some(val as i64)
    }
}

/// A 64-bit integer as a platform-sized count, if it is one.
pub open spec fn usize_of(n: i64) -> Option<usize> {
    if 0 <= n <= usize::MAX {
        Some(n as usize)
    } else {
        None
    }
}

/// Bounds a 64-bit integer into a platform-sized count.
pub fn to_usize(n: i64) -> (r: Option<usize>)
    ensures
        r == usize_of(n),
{
    if n < 0 {
        None
    } else if n as u64 > usize::MAX as u64 {
        None
    } else {
        Some(n as usize)
    }
}

/// The object format that a token names: `sha1` or `sha256`, in any case.
pub open spec fn object_format_of(v: Seq<u8>) -> Option<ObjectHash> {
    if is_word(v, "sha1") {
        Some(ObjectHash::Sha1)
    } else if is_word(v, "sha256") {
        Some(ObjectHash::Sha256)
    } else {
        None
    }
}

/// Reads the name of an object format.
pub fn parse_object_format(v: &[u8]) -> (r: Option<ObjectHash>)
    ensures
        r == object_format_of(v@),
{
    if word(v, "sha1") {
        Some(ObjectHash::Sha1)
    } else if word(v, "sha256") {
        Some(ObjectHash::Sha256)
    } else {
        None
    }
}

impl ObjectHash {
    /// The number of hexadecimal digits of a full object name.
    pub open spec fn hex_len(self) -> usize {
        match self {
            ObjectHash::Sha1 => 40,
            ObjectHash::Sha256 => 64,
        }
    }

    /// The number of hexadecimal digits of a full object name.
    pub fn len_in_hex(self) -> (r: usize)
        ensures
            r == self.hex_len(),
    {
        match self {
            ObjectHash::Sha1 => 40,
            ObjectHash::Sha256 => 64,
        }
    }
}

/// The reflog policy that raw text asks for. The outer `None` means that the
/// text is not acceptable; the inner one that the key is absent, which leaves
/// the policy unset. A bare key or a true boolean asks for the customary
/// logs, a false one for none, and `always` for all.
pub open spec fn ref_updates_of(raw: Option<Option<Seq<u8>>>) -> Option<Option<WriteReflog>> {
    match raw {
        None => Some(None),
        Some(None) => Some(Some(WriteReflog::Normal)),
        Some(Some(v)) => match boolean_of(v) {
            Some(true) => Some(Some(WriteReflog::Normal)),
            Some(false) => Some(Some(WriteReflog::Disable)),
            None => if is_word(v, "always") {
                Some(Some(WriteReflog::Always))
            } else {
                None
            },
        },
    }
}

/// The smallest abbreviation of an object name that is accepted.
pub const MIN_ABBREV: usize = 4;

/// The length to which object names are abbreviated. The outer `None` means
/// that the text is not acceptable; the inner one that the length is chosen
/// automatically (`auto`). A false boolean asks for full names; a number
/// must lie between the minimum and the full length.
pub open spec fn abbreviation_of(v: Seq<u8>, hash: ObjectHash) -> Option<Option<usize>> {
    if is_word(v, "auto") {
        Some(None)
    } else if boolean_of(v) == Some(false) {
        Some(Some(hash.hex_len()))
    } else {
        match integer_of(v) {
            Some(n) => if MIN_ABBREV <= n <= hash.hex_len() {
                Some(Some(n as usize))
            } else {
                None
            },
            None => None,
        }
    }
}

/// Reads an abbreviation length for names of the given hash.
pub fn parse_abbreviation(v: &[u8], hash: ObjectHash) -> (r: Option<Option<usize>>)
    ensures
        r == abbreviation_of(v@, hash),
{
    if word(v, "auto") {
        return Some(None);
    }
    match parse_boolean(v) {
        Some(false) => {
            return Some(Some(hash.len_in_hex()));
        },
        _ => {},
    }
    match parse_integer(v) {
        Some(n) => {
            if n >= 4 && n <= hash.len_in_hex() as i64 {
                Some(Some(n as usize))
            } else {
                None
            }
        },
        None => None,
    }
}

/// The hint that a token names. The outer `None` means that the token is not
/// acceptable; the inner one that no hint is wanted (`none`).
pub open spec fn object_kind_hint_of(v: Seq<u8>) -> Option<Option<ObjectKindHint>> {
    if is_word(v, "none") {
        Some(None)
    } else if is_word(v, "commit") {
        Some(Some(ObjectKindHint::Commit))
    } else if is_word(v, "committish") {
        Some(Some(ObjectKindHint::Committish))
    } else if is_word(v, "tree") {
        Some(Some(ObjectKindHint::Tree))
    } else if is_word(v, "treeish") {
        Some(Some(ObjectKindHint::Treeish))
    } else if is_word(v, "blob") {
        Some(Some(ObjectKindHint::Blob))
    } else {
        None
    }
}

/// Reads a hint for ambiguous object names.
pub fn parse_object_kind_hint(v: &[u8]) -> (r: Option<Option<ObjectKindHint>>)
    ensures
        r == object_kind_hint_of(v@),
{
    if word(v, "none") {
        Some(None)
    } else if word(v, "commit") {
        Some(Some(ObjectKindHint::Commit))
    } else if word(v, "committish") {
        Some(Some(ObjectKindHint::Committish))
    } else if word(v, "tree") {
        Some(Some(ObjectKindHint::Tree))
    } else if word(v, "treeish") {
        Some(Some(ObjectKindHint::Treeish))
    } else if word(v, "blob") {
        Some(Some(ObjectKindHint::Blob))
    } else {
        None
    }
}

/// Turns a failed coercion into an absent value where leniency is asked for.
pub trait ApplyLeniency: Sized {
    /// Whether `r` is what `self` becomes under the given leniency.
    spec fn relaxed(self, is_lenient: bool, r: Self) -> bool;

    fn with_leniency(self, is_lenient: bool) -> (r: Self)
        ensures
            self.relaxed(is_lenient, r),
    ;
}

/// Turns a failed coercion into the default value where leniency is asked for.
pub trait ApplyLeniencyDefault: Sized {
    /// Whether `r` is what `self` becomes under the given leniency.
    spec fn relaxed_default(self, is_lenient: bool, r: Self) -> bool;

    fn with_lenient_default(self, is_lenient: bool) -> (r: Self)
        ensures
            self.relaxed_default(is_lenient, r),
    ;
}

impl<T, E> ApplyLeniency for Result<Option<T>, E> {
    open spec fn relaxed(self, is_lenient: bool, r: Self) -> bool {
        r == match self {
            Ok(v) => Ok::<Option<T>, E>(v),
            Err(e) => if is_lenient {
                Ok(None)
            } else {
                Err(e)
            },
        }
    }

    fn with_leniency(self, is_lenient: bool) -> (r: Self) {
        match self {
            Ok(v) => Ok(v),
            Err(e) => if is_lenient {
                Ok(None)
            } else {
                Err(e)
            },
        }
    }
}

impl<T: Default, E> ApplyLeniencyDefault for Result<T, E> {
    open spec fn relaxed_default(self, is_lenient: bool, r: Self) -> bool {
        match self {
            Ok(v) => r == Ok::<T, E>(v),
            Err(e) => if is_lenient {
                r is Ok && call_ensures(T::default, (), r->Ok_0)
            } else {
                r == Err::<T, E>(e)
            },
        }
    }

    fn with_lenient_default(self, is_lenient: bool) -> (r: Self) {
        match self {
            Ok(v) => Ok(v),
            Err(e) => if is_lenient {
                Ok(T::default())
            } else {
                Err(e)
            },
        }
    }
}

/// An error that carries a copy of the offending text.
pub fn invalid(v: &[u8]) -> (e: ValueError)
    ensures
        e.value@ == v@,
{
    ValueError { value: to_vec(v) }
}

} // verus!
