//! Paths as byte strings with `/` between their components: joining,
//! reduction to a relative path, and the expansion of `~`, `~user` and the
//! installation prefix in configured paths.

use crate::file::opt_bytes;
use crate::text::{bytes_eq, copy_range, push_all, to_vec, DOT, SLASH, TILDE};
use vstd::prelude::*;
use vstd::slice::slice_subrange;
use vstd::string::StringSliceAdditionalSpecFns;

verus! {

/// Whether a path starts at the root.
pub open spec fn is_absolute(p: Seq<u8>) -> bool {
    p.len() > 0 && p[0] == SLASH
}

/// `rel` below `base`: an absolute `rel` stands for itself, any other is
/// added behind a separator, unless `base` is empty or ends in one.
pub open spec fn join_path(base: Seq<u8>, rel: Seq<u8>) -> Seq<u8> {
    if is_absolute(rel) {
        rel
    } else if base.len() == 0 || base.last() == SLASH {
        base + rel
    } else {
        base + seq![SLASH] + rel
    }
}

/// `rel` below `base`.
pub fn join(base: &[u8], rel: &[u8]) -> (r: Vec<u8>)
    ensures
        r@ == join_path(base@, rel@),
{
    if rel.len() > 0 && rel[0] == SLASH {
        return to_vec(rel);
    }
    let mut out = to_vec(base);
    if base.len() > 0 && base[base.len() - 1] != SLASH {
        out.push(SLASH);
    }
    push_all(&mut out, rel);
    assert(out@ =~= join_path(base@, rel@));
    out
}

/// The index behind the last separator of `p` in front of `n`, or 0.
pub open spec fn parent_end(p: Seq<u8>, n: int) -> int
    decreases n,
{
    if 0 < n <= p.len() && p[n - 1] != SLASH {
        parent_end(p, n - 1)
    } else {
        n
    }
}

/// The directory that holds `p`: what stands in front of its last
/// separator, the root for a path right below it, and nothing for a path
/// without a separator.
pub open spec fn parent_of(p: Seq<u8>) -> Seq<u8> {
    let e = parent_end(p, p.len() as int);
    if e <= 0 {
        Seq::empty()
    } else if e == 1 {
        p.subrange(0, 1)
    } else {
        p.subrange(0, e - 1)
    }
}

/// The directory that holds `p`.
pub fn parent(p: &[u8]) -> (r: Vec<u8>)
    ensures
        r@ == parent_of(p@),
{
    let n = p.len();
    let mut e: usize = n;
    while e > 0 && p[e - 1] != SLASH
        invariant
            e <= n,
            n == p@.len(),
            parent_end(p@, e as int) == parent_end(p@, n as int),
        decreases e,
    {
        e -= 1;
    }
    if e == 0 {
        let out: Vec<u8> = Vec::new();
        assert(out@ =~= Seq::<u8>::empty());
        out
    } else if e == 1 {
        copy_range(p, 0, 1)
    } else {
        copy_range(p, 0, e - 1)
    }
}

/// The last component of `p`: what stands behind its last separator.
pub open spec fn file_name_of(p: Seq<u8>) -> Seq<u8> {
    p.subrange(parent_end(p, p.len() as int), p.len() as int)
}

/// The last component of `p`.
pub fn file_name(p: &[u8]) -> (r: &[u8])
    ensures
        r@ == file_name_of(p@),
{
    let n = p.len();
    let mut e: usize = n;
    while e > 0 && p[e - 1] != SLASH
        invariant
            e <= n,
            n == p@.len(),
            parent_end(p@, e as int) == parent_end(p@, n as int),
        decreases e,
    {
        e -= 1;
    }
    slice_subrange(p, e, n)
}

/// The index of the first separator of `s` at or after `i`, or its length.
pub open spec fn next_slash(s: Seq<u8>, i: int) -> int
    decreases s.len() - i,
{
    if 0 <= i < s.len() && s[i] != SLASH {
        next_slash(s, i + 1)
    } else {
        i
    }
}

pub proof fn lemma_next_slash(s: Seq<u8>, i: int)
    requires
        0 <= i <= s.len(),
    ensures
        i <= next_slash(s, i) <= s.len(),
    decreases s.len() - i,
{
    if i < s.len() && s[i] != SLASH {
        lemma_next_slash(s, i + 1);
    }
}

/// Whether the component `piece`, which starts at `i`, is part of the
/// normal form of its path: empty components and `.` are not, but for a `.`
/// that opens the path.
pub open spec fn is_kept(piece: Seq<u8>, i: int) -> bool {
    piece.len() > 0 && (piece != seq![DOT] || i == 0)
}

/// The components of `s` from `i` on, added to `out` with separators between
/// them.
pub open spec fn relative_from(s: Seq<u8>, i: int, out: Seq<u8>) -> Seq<u8>
    decreases s.len() - i,
{
    if i < 0 || i >= s.len() {
        out
    } else {
        proof {
            lemma_next_slash(s, i);
        }
        let j = next_slash(s, i);
        let piece = s.subrange(i, j);
        let grown = if !is_kept(piece, i) {
            out
        } else if out.len() == 0 {
            piece
        } else {
            out + seq![SLASH] + piece
        };
        if j >= s.len() {
            grown
        } else {
            relative_from(s, j + 1, grown)
        }
    }
}

/// A path as one below the root: its components in normal form, without
/// the root in front of them.
pub open spec fn relative_path(p: Seq<u8>) -> Seq<u8> {
    relative_from(p, 0, Seq::empty())
}

/// A path made relative: a relative path as it is, an absolute one as its
/// components without the root.
pub open spec fn made_relative(p: Seq<u8>) -> Seq<u8> {
    if is_absolute(p) {
        relative_path(p)
    } else {
        p
    }
}

/// The index of the first separator of `s` at or after `i`, or its length.
pub fn find_slash(s: &[u8], i: usize) -> (r: usize)
    requires
        i <= s@.len(),
    ensures
        r == next_slash(s@, i as int),
        i <= r <= s@.len(),
{
    let mut k: usize = i;
    while k < s.len() && s[k] != SLASH
        invariant
            i <= k <= s@.len(),
            next_slash(s@, k as int) == next_slash(s@, i as int),
        decreases s@.len() - k,
    {
        k += 1;
    }
    k
}

/// The components of a path in normal form, without the root.
pub fn to_relative(p: &[u8]) -> (r: Vec<u8>)
    ensures
        r@ == relative_path(p@),
{
    let n = p.len();
    let mut out: Vec<u8> = Vec::new();
    let mut i: usize = 0;
    while i < n
        invariant
            n == p@.len(),
            i <= n,
            relative_from(p@, i as int, out@) == relative_path(p@),
        decreases n - i,
    {
        let j = find_slash(p, i);
        let piece = slice_subrange(p, i, j);
        let is_dot = piece.len() == 1 && piece[0] == DOT;
        let ghost before = out@;
        proof {
            if is_dot {
                assert(piece@ =~= seq![DOT]);
            } else if piece@.len() == 1 {
                assert(piece@[0] != DOT);
                assert(seq![DOT][0] == DOT);
            }
        }
        if piece.len() > 0 && (!is_dot || i == 0) {
            if out.len() > 0 {
                out.push(SLASH);
            }
            push_all(&mut out, piece);
            assert(out@ =~= if before.len() == 0 {
                piece@
            } else {
                before + seq![SLASH] + piece@
            });
        }
        if j >= n {
            i = n;
        } else {
            i = j + 1;
        }
    }
    out
}

/// A path made relative.
pub fn make_relative(p: &[u8]) -> (r: Vec<u8>)
    ensures
        r@ == made_relative(p@),
{
    if p.len() > 0 && p[0] == SLASH {
        to_relative(p)
    } else {
        to_vec(p)
    }
}

/// The directories against which configured paths are expanded.
#[derive(Debug, PartialEq, Eq)]
pub struct Context {
    /// Where the tool is installed: what `%(prefix)/` stands for.
    pub git_install_dir: Option<Vec<u8>>,
    /// The home of the current user: what `~/` stands for.
    pub home_dir: Option<Vec<u8>>,
    /// Whether the homes of other users can be asked for.
    pub home_for_user: bool,
}

pub struct ContextView {
    pub git_install_dir: Option<Seq<u8>>,
    pub home_dir: Option<Seq<u8>>,
    pub home_for_user: bool,
}

impl View for Context {
    type V = ContextView;

    open spec fn view(&self) -> ContextView {
        ContextView {
            git_install_dir: opt_bytes(self.git_install_dir),
            home_dir: opt_bytes(self.home_dir),
            home_for_user: self.home_for_user,
        }
    }
}

/// Why a path could not be expanded.
#[derive(Clone, Copy, Debug, PartialEq, Eq, Structural)]
pub enum InterpolateError {
    /// The path is empty.
    Empty,
    /// The path names the installation prefix, which is not known.
    NoInstallDir,
    /// The path names the home of the current user, which is not known.
    NoHome,
    /// The path names the home of a user, and no separator ends the name.
    NoSeparator,
    /// The path names the home of a user, and such homes cannot be asked for.
    UserUnsupported,
    /// The path names the home of a user who has none.
    UnknownUser,
}

/// A path after expansion, or what is missing to finish it.
#[derive(Debug, PartialEq, Eq)]
pub enum Expansion {
    Done(Vec<u8>),
    /// The home of `user` is wanted; `rest` goes below it.
    User { user: Vec<u8>, rest: Vec<u8> },
}

pub enum ExpansionView {
    Done(Seq<u8>),
    User { user: Seq<u8>, rest: Seq<u8> },
}

impl View for Expansion {
    type V = ExpansionView;

    open spec fn view(&self) -> ExpansionView {
        match self {
            Expansion::Done(p) => ExpansionView::Done(p@),
            Expansion::User { user, rest } => ExpansionView::User { user: user@, rest: rest@ },
        }
    }
}

pub open spec fn has_prefix(s: Seq<u8>, prefix: Seq<u8>) -> bool {
    s.len() >= prefix.len() && s.subrange(0, prefix.len() as int) == prefix
}

/// The marker of the installation prefix.
pub open spec fn prefix_marker() -> Seq<u8> {
    "%(prefix)/".spec_bytes()
}

/// The expansion of a configured path: below the installation directory
/// for `%(prefix)/...`, below the home of the current user for `~/...`,
/// below the home of a user for `~user/...`, and as it stands otherwise.
pub open spec fn interpolated(path: Seq<u8>, ctx: ContextView) -> Result<
    ExpansionView,
    InterpolateError,
> {
    if path.len() == 0 {
        Err(InterpolateError::Empty)
    } else if has_prefix(path, prefix_marker()) {
        match ctx.git_install_dir {
            Some(dir) => Ok(
                ExpansionView::Done(
                    join_path(dir, path.subrange(prefix_marker().len() as int, path.len() as int)),
                ),
            ),
            None => Err(InterpolateError::NoInstallDir),
        }
    } else if has_prefix(path, seq![TILDE, SLASH]) {
        match ctx.home_dir {
            Some(dir) => Ok(
                ExpansionView::Done(join_path(dir, path.subrange(2, path.len() as int))),
            ),
            None => Err(InterpolateError::NoHome),
        }
    } else if path[0] == TILDE {
        let slash = next_slash(path, 1);
        if slash >= path.len() {
            Err(InterpolateError::NoSeparator)
        } else if !ctx.home_for_user {
            Err(InterpolateError::UserUnsupported)
        } else {
            Ok(
                ExpansionView::User {
                    user: path.subrange(1, slash),
                    rest: path.subrange(slash + 1, path.len() as int),
                },
            )
        }
    } else {
        Ok(ExpansionView::Done(path))
    }
}

/// The path below the home of a user, once the home was asked for.
pub open spec fn below_home(home: Option<Seq<u8>>, rest: Seq<u8>) -> Result<
    Seq<u8>,
    InterpolateError,
> {
    match home {
        Some(dir) => Ok(join_path(dir, rest)),
        None => Err(InterpolateError::UnknownUser),
    }
}

/// Whether `s` begins with `prefix`.
pub fn starts_with(s: &[u8], prefix: &[u8]) -> (r: bool)
    ensures
        r == has_prefix(s@, prefix@),
{
    if s.len() < prefix.len() {
        return false;
    }
    bytes_eq(slice_subrange(s, 0, prefix.len()), prefix)
}

/// Expands a configured path as far as the context allows.
pub fn interpolate(path: &[u8], ctx: &Context) -> (r: Result<Expansion, InterpolateError>)
    ensures
        match r {
            Ok(e) => interpolated(path@, ctx@) == Ok::<ExpansionView, InterpolateError>(e@),
            Err(e) => interpolated(path@, ctx@) == Err::<ExpansionView, InterpolateError>(e),
        },
{
    let n = path.len();
    if n == 0 {
        return Err(InterpolateError::Empty);
    }
    let marker = "%(prefix)/".as_bytes();
    let home_marker: [u8; 2] = [TILDE, SLASH];
    assert(home_marker@ =~= seq![TILDE, SLASH]);
    if starts_with(path, marker) {
        match &ctx.git_install_dir {
            Some(dir) => Ok(
                Expansion::Done(join(dir.as_slice(), slice_subrange(path, marker.len(), n))),
            ),
            None => Err(InterpolateError::NoInstallDir),
        }
    } else if starts_with(path, home_marker.as_slice()) {
        match &ctx.home_dir {
            Some(dir) => Ok(Expansion::Done(join(dir.as_slice(), slice_subrange(path, 2, n)))),
            None => Err(InterpolateError::NoHome),
        }
    } else if path[0] == TILDE {
        let slash = find_slash(path, 1);
        if slash >= n {
            Err(InterpolateError::NoSeparator)
        } else if !ctx.home_for_user {
            Err(InterpolateError::UserUnsupported)
        } else {
            Ok(
                Expansion::User {
                    user: copy_range(path, 1, slash),
                    rest: copy_range(path, slash + 1, n),
                },
            )
        }
    } else {
        Ok(Expansion::Done(to_vec(path)))
    }
}

/// Finishes the expansion of `~user/rest` with the home that was found for
/// the user, if any.
pub fn finish_user(home: Option<&[u8]>, rest: &[u8]) -> (r: Result<Vec<u8>, InterpolateError>)
    ensures
        match r {
            Ok(p) => below_home(crate::file::opt_slice(home), rest@) == Ok::<
                Seq<u8>,
                InterpolateError,
            >(p@),
            Err(e) => below_home(crate::file::opt_slice(home), rest@) == Err::<
                Seq<u8>,
                InterpolateError,
            >(e),
        },
{
    match home {
        Some(dir) => Ok(join(dir, rest)),
        None => Err(InterpolateError::UnknownUser),
    }
}

} // verus!
