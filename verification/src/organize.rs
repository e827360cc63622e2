//! Sorting repositories into directories named after their remotes: reading
//! the list of remotes of a repository and planning where it belongs.

use crate::path::{
    file_name, file_name_of, join, join_path, parent, parent_of, relative_path, to_relative,
};
use crate::text::{bytes_eq, copy_range, to_vec, NEWLINE, SPACE, TAB};
use crate::url::Url;
use vstd::prelude::*;
use vstd::slice::slice_subrange;
use vstd::string::StringSliceAdditionalSpecFns;

verus! {

#[derive(Copy, Clone, Eq, PartialEq, Debug, Structural)]
pub enum Mode {
    Execute,
    Simulate,
}

impl Default for Mode {
    fn default() -> (m: Mode)
        ensures
            m == Mode::Simulate,
    {
        Mode::Simulate
    }
}

/// Whether a directory is the data of a repository: it is called `.git` and
/// holds a head and a configuration.
pub fn is_repository(path: &[u8], is_dir: bool, has_head: bool, has_config: bool) -> (r: bool)
    ensures
        r == (is_dir && file_name_of(path@) == ".git".spec_bytes() && has_head && has_config),
{
    is_dir && bytes_eq(file_name(path), ".git".as_bytes()) && has_head && has_config
}

/// The directory that is moved for the repository whose data lies at
/// `path`: that directory itself where the repository is bare, which is
/// known by its lack of an index, and the directory that holds it otherwise.
pub fn into_workdir(path: &[u8], has_index: bool) -> (r: Vec<u8>)
    ensures
        r@ == if has_index {
            parent_of(path@)
        } else {
            path@
        },
{
    if has_index {
        parent(path)
    } else {
        to_vec(path)
    }
}

/// What `bstr::ByteSlice::trim` makes of a line.
pub uninterp spec fn trimmed(line: Seq<u8>) -> Seq<u8>;

/// Calls `bstr::ByteSlice::trim`, which cuts the white space of Unicode off
/// both ends of a byte string. The result is that function's result on these
/// bytes; being a part of the line, it is no longer than the line.
#[verifier::external_body]
fn trim(line: &[u8]) -> (r: &[u8])
    ensures
        r@ == trimmed(line@),
        r@.len() <= line@.len(),
{
    bstr::ByteSlice::trim(line)
}

/// Why a line does not name a remote.
#[derive(Clone, Copy, Debug, PartialEq, Eq, Structural)]
pub enum RemoteErrorKind {
    /// No tab separates the name from the address.
    NoTab,
    /// No space separates the address from the direction.
    NoSpace,
}

/// A line that should read `<name>TAB<address>SPACE<direction>` and does not.
#[derive(Debug, PartialEq, Eq)]
pub struct RemoteError {
    pub line: Vec<u8>,
    pub kind: RemoteErrorKind,
}

/// The index of the first `b` in `s` at or after `i`, or the length of `s`.
pub open spec fn first_of(s: Seq<u8>, b: u8, i: int) -> int
    decreases s.len() - i,
{
    if 0 <= i < s.len() && s[i] != b {
        first_of(s, b, i + 1)
    } else {
        i
    }
}

pub proof fn lemma_first_of(s: Seq<u8>, b: u8, i: int)
    requires
        0 <= i <= s.len(),
    ensures
        i <= first_of(s, b, i) <= s.len(),
    decreases s.len() - i,
{
    if i < s.len() && s[i] != b {
        lemma_first_of(s, b, i + 1);
    }
}

/// The index of the first `b` in `s` at or after `i`, or the length of `s`.
pub fn find(s: &[u8], b: u8, i: usize) -> (r: usize)
    requires
        i <= s@.len(),
    ensures
        r == first_of(s@, b, i as int),
        i <= r <= s@.len(),
{
    let mut k: usize = i;
    while k < s.len() && s[k] != b
        invariant
            i <= k <= s@.len(),
            first_of(s@, b, k as int) == first_of(s@, b, i as int),
        decreases s@.len() - k,
    {
        k += 1;
    }
    k
}

/// The name and the address on one line of the list of remotes: the name in
/// front of the first tab, the address between that tab and the first space
/// behind it.
pub open spec fn remote_of(line: Seq<u8>) -> Result<(Seq<u8>, Seq<u8>), RemoteErrorKind> {
    let tab = first_of(line, TAB, 0);
    if tab >= line.len() {
        Err(RemoteErrorKind::NoTab)
    } else {
        let space = first_of(line, SPACE, tab + 1);
        if space >= line.len() {
            Err(RemoteErrorKind::NoSpace)
        } else {
            Ok((line.subrange(0, tab), line.subrange(tab + 1, space)))
        }
    }
}

/// Reads the name and the address of a remote from one line of the list.
pub fn parse_line(line: &[u8]) -> (r: Result<(Vec<u8>, Vec<u8>), RemoteErrorKind>)
    ensures
        match r {
            Ok((name, address)) => remote_of(line@) == Ok::<
                (Seq<u8>, Seq<u8>),
                RemoteErrorKind,
            >((name@, address@)),
            Err(kind) => remote_of(line@) == Err::<(Seq<u8>, Seq<u8>), RemoteErrorKind>(kind),
        },
{
    let tab = find(line, TAB, 0);
    if tab >= line.len() {
        return Err(RemoteErrorKind::NoTab);
    }
    let space = find(line, SPACE, tab + 1);
    if space >= line.len() {
        return Err(RemoteErrorKind::NoSpace);
    }
    Ok((copy_range(line, 0, tab), copy_range(line, tab + 1, space)))
}

/// A remote as a pair of mathematical values.
pub open spec fn remote_view(r: (Vec<u8>, Vec<u8>)) -> (Seq<u8>, Seq<u8>) {
    (r.0@, r.1@)
}

pub open spec fn remotes_view(list: Seq<(Vec<u8>, Vec<u8>)>) -> Seq<(Seq<u8>, Seq<u8>)> {
    Seq::new(list.len(), |i: int| remote_view(list[i]))
}

/// The remotes on the lines of `input` from `i` on, added to `out`. Lines
/// that are blank once trimmed are passed over; the first line that names no
/// remote ends the reading.
pub open spec fn remotes_from(input: Seq<u8>, i: int, out: Seq<(Seq<u8>, Seq<u8>)>) -> Result<
    Seq<(Seq<u8>, Seq<u8>)>,
    (Seq<u8>, RemoteErrorKind),
>
    decreases input.len() - i,
{
    if i < 0 || i >= input.len() {
        Ok(out)
    } else {
        proof {
            lemma_first_of(input, NEWLINE, i);
        }
        let j = first_of(input, NEWLINE, i);
        let line = input.subrange(i, j);
        if trimmed(line).len() == 0 {
            if j >= input.len() {
                Ok(out)
            } else {
                remotes_from(input, j + 1, out)
            }
        } else {
            match remote_of(line) {
                Err(kind) => Err((line, kind)),
                Ok(remote) => if j >= input.len() {
                    Ok(out.push(remote))
                } else {
                    remotes_from(input, j + 1, out.push(remote))
                },
            }
        }
    }
}

/// Reads the names and addresses of the remotes of a repository from the
/// verbose list of its remotes, one `<name>TAB<address>SPACE<direction>` per
/// line.
pub fn remotes_from_git_remote_verbose(input: &[u8]) -> (r: Result<
    Vec<(Vec<u8>, Vec<u8>)>,
    RemoteError,
>)
    ensures
        match r {
            Ok(list) => remotes_from(input@, 0, Seq::empty()) == Ok::<
                Seq<(Seq<u8>, Seq<u8>)>,
                (Seq<u8>, RemoteErrorKind),
            >(remotes_view(list@)),
            Err(e) => remotes_from(input@, 0, Seq::empty()) == Err::<
                Seq<(Seq<u8>, Seq<u8>)>,
                (Seq<u8>, RemoteErrorKind),
            >((e.line@, e.kind)),
        },
{
    let n = input.len();
    let mut out: Vec<(Vec<u8>, Vec<u8>)> = Vec::new();
    let mut i: usize = 0;
    assert(remotes_view(out@) =~= Seq::empty());
    while i < n
        invariant
            n == input@.len(),
            i <= n,
            remotes_from(input@, i as int, remotes_view(out@)) == remotes_from(
                input@,
                0,
                Seq::empty(),
            ),
        decreases n - i,
    {
        let j = find(input, NEWLINE, i);
        let line = slice_subrange(input, i, j);
        if trim(line).len() != 0 {
            match parse_line(line) {
                Err(kind) => {
                    return Err(RemoteError { line: to_vec(line), kind });
                },
                Ok(remote) => {
                    let ghost before = out@;
                    out.push(remote);
                    assert(remotes_view(out@) =~= remotes_view(before).push(remote_view(remote)));
                },
            }
        }
        if j >= n {
            i = n;
        } else {
            i = j + 1;
        }
    }
    Ok(out)
}

/// The address of the first remote called `origin`.
pub open spec fn origin_of(remotes: Seq<(Seq<u8>, Seq<u8>)>, i: int) -> Option<Seq<u8>>
    decreases remotes.len() - i,
{
    if i < 0 || i >= remotes.len() {
        None
    } else if remotes[i].0 == "origin".spec_bytes() {
        Some(remotes[i].1)
    } else {
        origin_of(remotes, i + 1)
    }
}

/// The address of the first remote called `origin`.
pub fn find_origin(remotes: &Vec<(Vec<u8>, Vec<u8>)>) -> (r: Option<Vec<u8>>)
    ensures
        crate::file::opt_bytes(r) == origin_of(remotes_view(remotes@), 0),
{
    let mut i: usize = 0;
    while i < remotes.len()
        invariant
            i <= remotes.len(),
            origin_of(remotes_view(remotes@), i as int) == origin_of(remotes_view(remotes@), 0),
        decreases remotes.len() - i,
    {
        if bytes_eq(remotes[i].0.as_slice(), "origin".as_bytes()) {
            return Some(to_vec(remotes[i].1.as_slice()));
        }
        i += 1;
    }
    None
}

/// What is to be done with a repository.
#[derive(Debug, PartialEq, Eq)]
pub enum Action {
    /// The repository has no remote called `origin`.
    SkipWithoutOrigin,
    /// The address of its origin has no path.
    SkipWithoutPath,
    /// It lies where it belongs.
    SkipInPlace,
    /// It would be moved to this place, were this not a simulation.
    WouldMove(Vec<u8>),
    /// It is to be moved to this place.
    Move(Vec<u8>),
}

pub enum ActionView {
    SkipWithoutOrigin,
    SkipWithoutPath,
    SkipInPlace,
    WouldMove(Seq<u8>),
    Move(Seq<u8>),
}

impl View for Action {
    type V = ActionView;

    open spec fn view(&self) -> ActionView {
        match self {
            Action::SkipWithoutOrigin => ActionView::SkipWithoutOrigin,
            Action::SkipWithoutPath => ActionView::SkipWithoutPath,
            Action::SkipInPlace => ActionView::SkipInPlace,
            Action::WouldMove(p) => ActionView::WouldMove(p@),
            Action::Move(p) => ActionView::Move(p@),
        }
    }
}

/// Why no place could be planned for a repository.
#[derive(Clone, Copy, Debug, PartialEq, Eq, Structural)]
pub enum PlanError {
    /// The address of the origin names no host.
    NoHost,
}

/// The place of a repository below `destination`: the host of its origin,
/// then the path of its origin below the root.
pub open spec fn place(destination: Seq<u8>, host: Seq<u8>, path: Seq<u8>) -> Seq<u8> {
    join_path(join_path(destination, host), relative_path(path))
}

/// What is to be done with the repository at `workdir`, whose origin is
/// `origin`.
pub open spec fn planned(
    mode: Mode,
    has_origin: bool,
    host: Option<Seq<u8>>,
    path: Seq<u8>,
    workdir: Seq<u8>,
    destination: Seq<u8>,
) -> Result<ActionView, PlanError> {
    if !has_origin {
        Ok(ActionView::SkipWithoutOrigin)
    } else if path.len() == 0 {
        Ok(ActionView::SkipWithoutPath)
    } else {
        match host {
            None => Err(PlanError::NoHost),
            Some(h) => {
                let target = place(destination, h, path);
                match mode {
                    Mode::Simulate => Ok(ActionView::WouldMove(target)),
                    Mode::Execute => if workdir == target {
                        Ok(ActionView::SkipInPlace)
                    } else {
                        Ok(ActionView::Move(target))
                    },
                }
            },
        }
    }
}

/// The host of an address as bytes.
pub open spec fn host_bytes(url: Url) -> Option<Seq<u8>> {
    match url.host {
        Some(h) => Some(vstd::utf8::encode_utf8(h@)),
        None => None,
    }
}

/// Plans what is to be done with the repository at `canonical_workdir`,
/// given the address of its origin, if it has one, and the directory below
/// which repositories are sorted.
pub fn plan(mode: Mode, origin: Option<&Url>, canonical_workdir: &[u8], destination: &[u8]) -> (r:
    Result<Action, PlanError>)
    ensures
        match r {
            Ok(action) => Ok::<ActionView, PlanError>(action@),
            Err(e) => Err(e),
        } == match origin {
            Some(url) => planned(
                mode,
                true,
                host_bytes(*url),
                url.path@,
                canonical_workdir@,
                destination@,
            ),
            None => planned(mode, false, None, Seq::empty(), canonical_workdir@, destination@),
        },
{
    let url = match origin {
        None => {
            return Ok(Action::SkipWithoutOrigin);
        },
        Some(url) => url,
    };
    if url.path.len() == 0 {
        return Ok(Action::SkipWithoutPath);
    }
    let host = match &url.host {
        None => {
            return Err(PlanError::NoHost);
        },
        Some(h) => h,
    };
    let below_host = join(destination, host.as_str().as_bytes());
    let relative = to_relative(url.path.as_slice());
    let target = join(below_host.as_slice(), relative.as_slice());
    match mode {
        Mode::Simulate => Ok(Action::WouldMove(target)),
        Mode::Execute => if bytes_eq(canonical_workdir, target.as_slice()) {
            Ok(Action::SkipInPlace)
        } else {
            Ok(Action::Move(target))
        },
    }
}

/// Whether a run over all repositories failed: it did if any of them could
/// not be handled.
pub fn outcome(num_errors: usize) -> (r: Result<(), usize>)
    ensures
        r == if num_errors > 0 {
            Err::<(), usize>(num_errors)
        } else {
            Ok(())
        },
{
    if num_errors > 0 {
        Err(num_errors)
    } else {
        Ok(())
    }
}

} // verus!
