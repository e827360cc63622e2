//! Following the files that a configuration pulls in. A section that names
//! nested files is followed where its source is fully trusted and its
//! condition, if it has one, holds; the sections of a nested file are laid
//! right behind the section that names it, so that they take precedence over
//! everything in front of them and give way to everything behind.
//!
//! Nothing is read here. The files and the homes of users that were looked
//! up so far are handed in; where one is missing, the resolution says which,
//! and is run again once it was looked up.

use crate::access::{list_view, split, split_key, text_of, texts};
use crate::bootstrap::{Loaded, LoadedView};
use crate::cache::Options;
use crate::error::{Error, ErrorView, ResolutionErrorKind};
use crate::file::{
    item_values, opt_bytes, sections_view, File, FileView, Item, ItemView, Metadata,
    MetadataView, Section, SectionView, Trust,
};
use crate::glob::{glob, glob_matches, STAR};
use crate::organize::{find, first_of};
use crate::parse::{parse_bytes, ParseError};
use crate::path::{
    below_home, finish_user, has_prefix, interpolate, interpolated, is_absolute, join, join_path,
    parent, parent_of, starts_with, Context, ContextView, Expansion, ExpansionView,
};
use crate::text::{
    bytes_eq, eq_ignore_ascii_case, eq_ignore_case, lower_seq, lowered, push_all, to_vec, SLASH,
};
use crate::value::{is_word, word};
use vstd::prelude::*;
use vstd::slice::slice_subrange;
use vstd::string::StringSliceAdditionalSpecFns;

verus! {

pub const COLON: u8 = 58;

/// What is known while a configuration is resolved.
#[derive(Debug, PartialEq, Eq)]
pub struct Env {
    /// The directory of the repository, for conditions on it.
    pub git_dir: Option<Vec<u8>>,
    /// The short name of the current branch, once it is known.
    pub branch: Option<Vec<u8>>,
    /// Against what configured paths are expanded.
    pub context: Context,
    /// The files that were looked up, by path.
    pub files: Vec<(Vec<u8>, Loaded)>,
    /// The homes of users that were looked up, by name.
    pub homes: Vec<(Vec<u8>, Option<Vec<u8>>)>,
    pub options: Options,
    /// Whether a path that leads to no file is passed over.
    pub lenient: bool,
}

pub struct EnvView {
    pub git_dir: Option<Seq<u8>>,
    pub branch: Option<Seq<u8>>,
    pub context: ContextView,
    pub files: Seq<(Seq<u8>, LoadedView)>,
    pub homes: Seq<(Seq<u8>, Option<Seq<u8>>)>,
    pub options: Options,
    pub lenient: bool,
}

pub open spec fn files_view(files: Seq<(Vec<u8>, Loaded)>) -> Seq<(Seq<u8>, LoadedView)> {
    Seq::new(files.len(), |i: int| (files[i].0@, files[i].1@))
}

pub open spec fn homes_view(homes: Seq<(Vec<u8>, Option<Vec<u8>>)>) -> Seq<
    (Seq<u8>, Option<Seq<u8>>),
> {
    Seq::new(homes.len(), |i: int| (homes[i].0@, opt_bytes(homes[i].1)))
}

impl View for Env {
    type V = EnvView;

    open spec fn view(&self) -> EnvView {
        EnvView {
            git_dir: opt_bytes(self.git_dir),
            branch: opt_bytes(self.branch),
            context: self.context@,
            files: files_view(self.files@),
            homes: homes_view(self.homes@),
            options: self.options,
            lenient: self.lenient,
        }
    }
}

/// What must be looked up before the resolution can go on.
#[derive(Debug, PartialEq, Eq)]
pub enum Wanted {
    File(Vec<u8>),
    Home(Vec<u8>),
}

pub enum WantedView {
    File(Seq<u8>),
    Home(Seq<u8>),
}

impl View for Wanted {
    type V = WantedView;

    open spec fn view(&self) -> WantedView {
        match self {
            Wanted::File(p) => WantedView::File(p@),
            Wanted::Home(u) => WantedView::Home(u@),
        }
    }
}

/// Why a resolution stops short.
#[derive(Debug, PartialEq, Eq)]
pub enum Halt {
    Needs(Wanted),
    Failed(Error),
}

pub enum HaltView {
    Needs(WantedView),
    Failed(ErrorView),
}

impl View for Halt {
    type V = HaltView;

    open spec fn view(&self) -> HaltView {
        match self {
            Halt::Needs(w) => HaltView::Needs(w@),
            Halt::Failed(e) => HaltView::Failed(e@),
        }
    }
}

/// What was looked up at `path`, if it was looked up.
pub open spec fn file_at(files: Seq<(Seq<u8>, LoadedView)>, path: Seq<u8>, i: int) -> Option<
    LoadedView,
>
    decreases files.len() - i,
{
    if i < 0 || i >= files.len() {
        None
    } else if files[i].0 == path {
        Some(files[i].1)
    } else {
        file_at(files, path, i + 1)
    }
}

/// The home that was looked up for `user`, if it was looked up.
pub open spec fn home_at(homes: Seq<(Seq<u8>, Option<Seq<u8>>)>, user: Seq<u8>, i: int) -> Option<
    Option<Seq<u8>>,
>
    decreases homes.len() - i,
{
    if i < 0 || i >= homes.len() {
        None
    } else if homes[i].0 == user {
        Some(homes[i].1)
    } else {
        home_at(homes, user, i + 1)
    }
}

/// What stands behind the first `n` bytes of `s`.
pub open spec fn behind(s: Seq<u8>, n: int) -> Seq<u8> {
    s.subrange(n, s.len() as int)
}

/// A pattern that ends in a separator stands for everything below it.
pub open spec fn with_tail(p: Seq<u8>) -> Seq<u8> {
    if p.len() > 0 && p.last() == SLASH {
        p + seq![STAR, STAR]
    } else {
        p
    }
}

/// The directory of the source that a section came from.
pub open spec fn dir_of(meta: MetadataView) -> Option<Seq<u8>> {
    match meta.path {
        Some(p) => Some(parent_of(p)),
        None => None,
    }
}

/// The pattern that is held against the directory of the repository: below
/// the home for `~/`, below the directory of the source for `./`, anywhere
/// for a pattern that does not start at the root.
pub open spec fn gitdir_pattern(raw: Seq<u8>, dir: Option<Seq<u8>>, home: Option<Seq<u8>>)
    -> Option<Seq<u8>> {
    if has_prefix(raw, "~/".spec_bytes()) {
        match home {
            Some(h) => Some(with_tail(join_path(h, behind(raw, "~/".spec_bytes().len() as int)))),
            None => None,
        }
    } else if has_prefix(raw, "./".spec_bytes()) {
        match dir {
            Some(d) => Some(with_tail(join_path(d, behind(raw, "./".spec_bytes().len() as int)))),
            None => None,
        }
    } else if is_absolute(raw) {
        Some(with_tail(raw))
    } else {
        Some(with_tail("**/".spec_bytes() + raw))
    }
}

/// Whether the directory of the repository matches a pattern, with or
/// without regard to case.
pub open spec fn gitdir_matches(raw: Seq<u8>, fold: bool, meta: MetadataView, env: EnvView)
    -> bool {
    match (env.git_dir, gitdir_pattern(raw, dir_of(meta), env.context.home_dir)) {
        (Some(dir), Some(p)) => if fold {
            glob_matches(lower_seq(p), lower_seq(dir))
        } else {
            glob_matches(p, dir)
        },
        _ => false,
    }
}

/// Whether the current branch matches a pattern. While the branch is not
/// known, none does.
pub open spec fn onbranch_matches(raw: Seq<u8>, env: EnvView) -> bool {
    match env.branch {
        Some(b) => glob_matches(with_tail(raw), b),
        None => false,
    }
}

/// Whether a subsection is the one asked for; `*` asks for any.
pub open spec fn sub_admits(asked: Option<Seq<u8>>, held: Option<Seq<u8>>) -> bool {
    match asked {
        Some(a) => if a == seq![STAR] {
            held is Some
        } else {
            held == asked
        },
        None => held is None,
    }
}

/// Whether one of the first `n` items is an entry for `key` whose value
/// matches `pattern`.
pub open spec fn item_matches(items: Seq<ItemView>, key: Seq<u8>, pattern: Seq<u8>, n: int) -> bool
    decreases n,
{
    if n <= 0 || n > items.len() {
        false
    } else {
        item_matches(items, key, pattern, n - 1) || (items[n - 1].has_key(key) && glob_matches(
            pattern,
            text_of(items[n - 1].value()),
        ))
    }
}

/// Whether one of the first `n` sections holds a value of the key that
/// matches `pattern`.
pub open spec fn config_matches(
    done: Seq<SectionView>,
    name: Seq<u8>,
    subsection: Option<Seq<u8>>,
    key: Seq<u8>,
    pattern: Seq<u8>,
    n: int,
) -> bool
    decreases n,
{
    if n <= 0 || n > done.len() {
        false
    } else {
        config_matches(done, name, subsection, key, pattern, n - 1) || (done[n - 1].name.len() > 0
            && eq_ignore_case(done[n - 1].name, name) && sub_admits(
            subsection,
            done[n - 1].subsection,
        ) && item_matches(done[n - 1].items, key, pattern, done[n - 1].items.len() as int))
    }
}

/// Whether what was resolved so far holds a value that a condition of the
/// form `key:pattern` asks for.
pub open spec fn hasconfig_matches(raw: Seq<u8>, done: Seq<SectionView>) -> bool {
    let c = first_of(raw, COLON, 0);
    if c >= raw.len() {
        false
    } else {
        match split_key(raw.subrange(0, c)) {
            None => false,
            Some((name, subsection, key)) => config_matches(
                done,
                name,
                subsection,
                key,
                behind(raw, c + 1),
                done.len() as int,
            ),
        }
    }
}

/// Whether a condition holds. A condition of a kind that is not known holds
/// never.
pub open spec fn condition_holds(
    cond: Seq<u8>,
    meta: MetadataView,
    done: Seq<SectionView>,
    env: EnvView,
) -> bool {
    if has_prefix(cond, "gitdir:".spec_bytes()) {
        gitdir_matches(behind(cond, "gitdir:".spec_bytes().len() as int), false, meta, env)
    } else if has_prefix(cond, "gitdir/i:".spec_bytes()) {
        gitdir_matches(behind(cond, "gitdir/i:".spec_bytes().len() as int), true, meta, env)
    } else if has_prefix(cond, "onbranch:".spec_bytes()) {
        onbranch_matches(behind(cond, "onbranch:".spec_bytes().len() as int), env)
    } else if has_prefix(cond, "hasconfig:".spec_bytes()) {
        hasconfig_matches(behind(cond, "hasconfig:".spec_bytes().len() as int), done)
    } else {
        false
    }
}

/// Whether the nested files that a section names are followed: the section
/// comes from a fully trusted source, and it names files without condition
/// or under a condition that holds.
pub open spec fn follows(s: SectionView, done: Seq<SectionView>, env: EnvView) -> bool {
    s.meta.trust == Trust::Full && s.name.len() > 0 && (is_word(s.name, "include") || (is_word(
        s.name,
        "includeIf",
    ) && match s.subsection {
        Some(cond) => condition_holds(cond, s.meta, done, env),
        None => false,
    }))
}

/// The failure to find the file that `raw` names.
pub open spec fn unresolved(raw: Seq<u8>, kind: ResolutionErrorKind) -> HaltView {
    HaltView::Failed(ErrorView::IncludeResolution { path: raw, kind })
}

/// The place of the nested file that `raw` names in a section with `meta`.
pub open spec fn target_of(raw: Seq<u8>, meta: MetadataView, env: EnvView) -> Result<
    Seq<u8>,
    HaltView,
> {
    match interpolated(raw, env.context) {
        Err(e) => Err(unresolved(raw, ResolutionErrorKind::Interpolate(e))),
        Ok(ExpansionView::User { user, rest }) => match home_at(env.homes, user, 0) {
            None => Err(HaltView::Needs(WantedView::Home(user))),
            Some(home) => match below_home(home, rest) {
                Ok(p) => Ok(p),
                Err(e) => Err(unresolved(raw, ResolutionErrorKind::Interpolate(e))),
            },
        },
        Ok(ExpansionView::Done(p)) => if is_absolute(p) {
            Ok(p)
        } else {
            match dir_of(meta) {
                Some(d) => Ok(join_path(d, p)),
                None => Err(unresolved(raw, ResolutionErrorKind::NoBase)),
            }
        },
    }
}

/// The metadata of a file that is nested in a section with `meta`.
pub open spec fn nested_meta(meta: MetadataView, path: Seq<u8>) -> MetadataView {
    MetadataView {
        source: meta.source,
        path: Some(path),
        trust: meta.trust,
        level: if meta.level < 255 {
            (meta.level + 1) as u8
        } else {
            255
        },
    }
}

/// The sections `done` with the nested file that `raw` names. `fuel` levels
/// of nesting may still be followed. A file that does not exist is passed
/// over, and so is, under leniency, a path that leads to no file.
pub open spec fn follow_path(
    raw: Seq<u8>,
    meta: MetadataView,
    done: Seq<SectionView>,
    env: EnvView,
    fuel: nat,
) -> Result<Seq<SectionView>, HaltView>
    decreases fuel, 0nat, 0nat,
{
    match target_of(raw, meta, env) {
        Err(HaltView::Failed(e)) => if env.lenient {
            Ok(done)
        } else {
            Err(HaltView::Failed(e))
        },
        Err(halt) => Err(halt),
        Ok(target) => match file_at(env.files, target, 0) {
            None => Err(HaltView::Needs(WantedView::File(target))),
            Some(LoadedView::Absent) => Ok(done),
            Some(LoadedView::Failed(reason)) => Err(
                HaltView::Failed(ErrorView::Io { path: target, source: meta.source, reason }),
            ),
            Some(LoadedView::Bytes(b)) => if fuel == 0 {
                if env.lenient {
                    Ok(done)
                } else {
                    Err(unresolved(raw, ResolutionErrorKind::TooDeep))
                }
            } else {
                match parse_bytes(b, nested_meta(meta, target), env.options.lossy) {
                    Err(error) => Err(
                        HaltView::Failed(
                            ErrorView::Parse { path: target, source: meta.source, error },
                        ),
                    ),
                    Ok(file) => follow_sections(file.sections, 0, done, env, (fuel - 1) as nat),
                }
            },
        },
    }
}

/// The sections `done` with the nested files that `paths` name from `k` on,
/// one behind the other.
pub open spec fn follow_paths(
    paths: Seq<Seq<u8>>,
    k: int,
    meta: MetadataView,
    done: Seq<SectionView>,
    env: EnvView,
    fuel: nat,
) -> Result<Seq<SectionView>, HaltView>
    decreases fuel, 1nat, paths.len() - k,
{
    if k < 0 || k >= paths.len() {
        Ok(done)
    } else {
        match follow_path(paths[k], meta, done, env, fuel) {
            Err(halt) => Err(halt),
            Ok(grown) => follow_paths(paths, k + 1, meta, grown, env, fuel),
        }
    }
}

/// The sections `done` with `sections` from `i` on, each followed by the
/// sections of the files that it pulls in.
pub open spec fn follow_sections(
    sections: Seq<SectionView>,
    i: int,
    done: Seq<SectionView>,
    env: EnvView,
    fuel: nat,
) -> Result<Seq<SectionView>, HaltView>
    decreases fuel, 2nat, sections.len() - i,
{
    if i < 0 || i >= sections.len() {
        Ok(done)
    } else {
        let s = sections[i];
        if follows(s, done, env) {
            match follow_paths(
                texts(item_values(s.items, "path".spec_bytes())),
                0,
                s.meta,
                done.push(s),
                env,
                fuel,
            ) {
                Err(halt) => Err(halt),
                Ok(grown) => follow_sections(sections, i + 1, grown, env, fuel),
            }
        } else {
            follow_sections(sections, i + 1, done.push(s), env, fuel)
        }
    }
}

/// A configuration that is resolved, or what is missing to resolve it.
#[derive(Debug, PartialEq, Eq)]
pub enum Resolution {
    Done(File),
    Needs(Wanted),
}

pub enum ResolutionView {
    Done(FileView),
    Needs(WantedView),
}

impl View for Resolution {
    type V = ResolutionView;

    open spec fn view(&self) -> ResolutionView {
        match self {
            Resolution::Done(f) => ResolutionView::Done(f@),
            Resolution::Needs(w) => ResolutionView::Needs(w@),
        }
    }
}

/// The configuration that the text `bytes` stands for, with the files that
/// it pulls in. Options that follow no nested files leave it as it is read.
pub open spec fn resolved(bytes: Seq<u8>, meta: MetadataView, env: EnvView) -> Result<
    ResolutionView,
    ErrorView,
> {
    match parse_bytes(bytes, meta, env.options.lossy) {
        Err(error) => Err(
            ErrorView::Parse {
                path: match meta.path {
                    Some(p) => p,
                    None => Seq::empty(),
                },
                source: meta.source,
                error,
            },
        ),
        Ok(file) => if env.options.max_depth == 0 {
            Ok(ResolutionView::Done(file))
        } else {
            match follow_sections(
                file.sections,
                0,
                Seq::empty(),
                env,
                env.options.max_depth as nat,
            ) {
                Ok(sections) => Ok(ResolutionView::Done(FileView { sections })),
                Err(HaltView::Needs(w)) => Ok(ResolutionView::Needs(w)),
                Err(HaltView::Failed(e)) => Err(e),
            }
        },
    }
}

fn find_file<'a>(files: &'a Vec<(Vec<u8>, Loaded)>, path: &[u8]) -> (r: Option<&'a Loaded>)
    ensures
        match r {
            Some(l) => file_at(files_view(files@), path@, 0) == Some(l@),
            None => file_at(files_view(files@), path@, 0) is None,
        },
{
    let mut i: usize = 0;
    while i < files.len()
        invariant
            i <= files.len(),
            file_at(files_view(files@), path@, i as int) == file_at(files_view(files@), path@, 0),
        decreases files.len() - i,
    {
        if bytes_eq(files[i].0.as_slice(), path) {
            return Some(&files[i].1);
        }
        i += 1;
    }
    None
}

fn find_home<'a>(homes: &'a Vec<(Vec<u8>, Option<Vec<u8>>)>, user: &[u8]) -> (r: Option<
    &'a Option<Vec<u8>>,
>)
    ensures
        match r {
            Some(h) => home_at(homes_view(homes@), user@, 0) == Some(opt_bytes(*h)),
            None => home_at(homes_view(homes@), user@, 0) is None,
        },
{
    let mut i: usize = 0;
    while i < homes.len()
        invariant
            i <= homes.len(),
            home_at(homes_view(homes@), user@, i as int) == home_at(homes_view(homes@), user@, 0),
        decreases homes.len() - i,
    {
        if bytes_eq(homes[i].0.as_slice(), user) {
            return Some(&homes[i].1);
        }
        i += 1;
    }
    None
}

fn add_tail(p: Vec<u8>) -> (r: Vec<u8>)
    ensures
        r@ == with_tail(p@),
{
    let ghost given = p@;
    let mut p = p;
    if p.len() > 0 && p[p.len() - 1] == SLASH {
        p.push(STAR);
        p.push(STAR);
        assert(p@ =~= given + seq![STAR, STAR]);
    }
    p
}

fn directory(meta: &Metadata) -> (r: Option<Vec<u8>>)
    ensures
        opt_bytes(r) == dir_of(meta@),
{
    match &meta.path {
        Some(p) => Some(parent(p.as_slice())),
        None => None,
    }
}

fn gitdir_test(raw: &[u8], fold: bool, meta: &Metadata, env: &Env) -> (r: bool)
    ensures
        r == gitdir_matches(raw@, fold, meta@, env@),
{
    let dir = match &env.git_dir {
        Some(d) => d,
        None => {
            return false;
        },
    };
    let home_marker = "~/".as_bytes();
    let here_marker = "./".as_bytes();
    let pattern = if starts_with(raw, home_marker) {
        match &env.context.home_dir {
            Some(h) => add_tail(
                join(h.as_slice(), slice_subrange(raw, home_marker.len(), raw.len())),
            ),
            None => {
                return false;
            },
        }
    } else if starts_with(raw, here_marker) {
        match directory(meta) {
            Some(d) => add_tail(
                join(d.as_slice(), slice_subrange(raw, here_marker.len(), raw.len())),
            ),
            None => {
                return false;
            },
        }
    } else if raw.len() > 0 && raw[0] == SLASH {
        add_tail(to_vec(raw))
    } else {
        let mut anywhere = to_vec("**/".as_bytes());
        push_all(&mut anywhere, raw);
        add_tail(anywhere)
    };
    if fold {
        let p = lowered(pattern.as_slice());
        let d = lowered(dir.as_slice());
        glob(p.as_slice(), d.as_slice())
    } else {
        glob(pattern.as_slice(), dir.as_slice())
    }
}

fn onbranch_test(raw: &[u8], env: &Env) -> (r: bool)
    ensures
        r == onbranch_matches(raw@, env@),
{
    match &env.branch {
        Some(b) => {
            let pattern = add_tail(to_vec(raw));
            glob(pattern.as_slice(), b.as_slice())
        },
        None => false,
    }
}

fn sub_test(asked: Option<&[u8]>, held: &Option<Vec<u8>>) -> (r: bool)
    ensures
        r == sub_admits(crate::file::opt_slice(asked), opt_bytes(*held)),
{
    match asked {
        Some(a) => {
            if a.len() == 1 && a[0] == STAR {
                assert(a@ =~= seq![STAR]);
                held.is_some()
            } else {
                proof {
                    if a@.len() == 1 {
                        assert(seq![STAR][0] == STAR);
                    }
                }
                match held {
                    Some(h) => bytes_eq(h.as_slice(), a),
                    None => false,
                }
            }
        },
        None => held.is_none(),
    }
}

fn items_test(items: &Vec<Item>, key: &[u8], pattern: &[u8]) -> (r: bool)
    ensures
        r == item_matches(
            crate::file::items_view(items@),
            key@,
            pattern@,
            items@.len() as int,
        ),
{
    let ghost view = crate::file::items_view(items@);
    let mut i: usize = 0;
    while i < items.len()
        invariant
            i <= items.len(),
            view == crate::file::items_view(items@),
            !item_matches(view, key@, pattern@, i as int),
        decreases items.len() - i,
    {
        match &items[i] {
            Item::Entry(e) => {
                if eq_ignore_ascii_case(e.key.as_slice(), key) {
                    let hit = match &e.value {
                        Some(v) => glob(pattern, v.as_slice()),
                        None => {
                            let nothing: Vec<u8> = Vec::new();
                            glob(pattern, nothing.as_slice())
                        },
                    };
                    if hit {
                        proof {
                            lemma_item_matches_grows(view, key@, pattern@, i + 1);
                        }
                        return true;
                    }
                }
            },
            Item::Trivia(_) => {},
        }
        i += 1;
    }
    false
}

proof fn lemma_item_matches_grows(items: Seq<ItemView>, key: Seq<u8>, pattern: Seq<u8>, n: int)
    requires
        0 <= n <= items.len(),
        item_matches(items, key, pattern, n),
    ensures
        item_matches(items, key, pattern, items.len() as int),
    decreases items.len() - n,
{
    if n < items.len() {
        lemma_item_matches_grows(items, key, pattern, n + 1);
    }
}

proof fn lemma_config_matches_grows(
    done: Seq<SectionView>,
    name: Seq<u8>,
    subsection: Option<Seq<u8>>,
    key: Seq<u8>,
    pattern: Seq<u8>,
    n: int,
)
    requires
        0 <= n <= done.len(),
        config_matches(done, name, subsection, key, pattern, n),
    ensures
        config_matches(done, name, subsection, key, pattern, done.len() as int),
    decreases done.len() - n,
{
    if n < done.len() {
        lemma_config_matches_grows(done, name, subsection, key, pattern, n + 1);
    }
}

#[verifier::loop_isolation(false)]
fn hasconfig_test(raw: &[u8], done: &Vec<Section>) -> (r: bool)
    ensures
        r == hasconfig_matches(raw@, sections_view(done@)),
{
    let c = find(raw, COLON, 0);
    if c >= raw.len() {
        return false;
    }
    let parts = match split(slice_subrange(raw, 0, c)) {
        Some(parts) => parts,
        None => {
            return false;
        },
    };
    let pattern = slice_subrange(raw, c + 1, raw.len());
    let ghost view = sections_view(done@);
    let ghost sub = crate::file::opt_slice(parts.subsection);
    let mut i: usize = 0;
    while i < done.len()
        invariant
            i <= done.len(),
            view == sections_view(done@),
            sub == crate::file::opt_slice(parts.subsection),
            !config_matches(view, parts.name@, sub, parts.key@, pattern@, i as int),
        decreases done.len() - i,
    {
        let s = &done[i];
        if s.name.len() > 0 && eq_ignore_ascii_case(s.name.as_slice(), parts.name) && sub_test(
            parts.subsection,
            &s.subsection,
        ) && items_test(&s.items, parts.key, pattern) {
            proof {
                lemma_config_matches_grows(view, parts.name@, sub, parts.key@, pattern@, i + 1);
            }
            return true;
        }
        i += 1;
    }
    false
}

fn condition_test(cond: &[u8], meta: &Metadata, done: &Vec<Section>, env: &Env) -> (r: bool)
    ensures
        r == condition_holds(cond@, meta@, sections_view(done@), env@),
{
    let n = cond.len();
    let gitdir = "gitdir:".as_bytes();
    let gitdir_folded = "gitdir/i:".as_bytes();
    let onbranch = "onbranch:".as_bytes();
    let hasconfig = "hasconfig:".as_bytes();
    if starts_with(cond, gitdir) {
        gitdir_test(slice_subrange(cond, gitdir.len(), n), false, meta, env)
    } else if starts_with(cond, gitdir_folded) {
        gitdir_test(slice_subrange(cond, gitdir_folded.len(), n), true, meta, env)
    } else if starts_with(cond, onbranch) {
        onbranch_test(slice_subrange(cond, onbranch.len(), n), env)
    } else if starts_with(cond, hasconfig) {
        hasconfig_test(slice_subrange(cond, hasconfig.len(), n), done)
    } else {
        false
    }
}

/// Whether the nested files that `section` names are followed.
pub fn is_followed(section: &Section, done: &Vec<Section>, env: &Env) -> (r: bool)
    ensures
        r == follows(section@, sections_view(done@), env@),
{
    if section.meta.trust != Trust::Full || section.name.len() == 0 {
        return false;
    }
    if word(section.name.as_slice(), "include") {
        return true;
    }
    if !word(section.name.as_slice(), "includeIf") {
        return false;
    }
    match &section.subsection {
        Some(cond) => condition_test(cond.as_slice(), &section.meta, done, env),
        None => false,
    }
}

fn fail(raw: &[u8], kind: ResolutionErrorKind) -> (h: Halt)
    ensures
        h@ == unresolved(raw@, kind),
{
    Halt::Failed(Error::IncludeResolution { path: to_vec(raw), kind })
}

fn target(raw: &[u8], meta: &Metadata, env: &Env) -> (r: Result<Vec<u8>, Halt>)
    ensures
        match r {
            Ok(p) => target_of(raw@, meta@, env@) == Ok::<Seq<u8>, HaltView>(p@),
            Err(h) => target_of(raw@, meta@, env@) == Err::<Seq<u8>, HaltView>(h@),
        },
{
    match interpolate(raw, &env.context) {
        Err(e) => Err(fail(raw, ResolutionErrorKind::Interpolate(e))),
        Ok(Expansion::User { user, rest }) => match find_home(&env.homes, user.as_slice()) {
            None => Err(Halt::Needs(Wanted::Home(user))),
            Some(home) => {
                let found = match home {
                    Some(h) => finish_user(Some(h.as_slice()), rest.as_slice()),
                    None => finish_user(None, rest.as_slice()),
                };
                match found {
                    Ok(p) => Ok(p),
                    Err(e) => Err(fail(raw, ResolutionErrorKind::Interpolate(e))),
                }
            },
        },
        Ok(Expansion::Done(p)) => {
            if p.len() > 0 && p[0] == SLASH {
                Ok(p)
            } else {
                match directory(meta) {
                    Some(d) => Ok(join(d.as_slice(), p.as_slice())),
                    None => Err(fail(raw, ResolutionErrorKind::NoBase)),
                }
            }
        },
    }
}

fn nest(meta: &Metadata, path: Vec<u8>) -> (m: Metadata)
    ensures
        m@ == nested_meta(meta@, path@),
{
    Metadata {
        source: meta.source,
        path: Some(path),
        trust: meta.trust,
        level: if meta.level < 255 {
            meta.level + 1
        } else {
            255
        },
    }
}

/// The texts of all values of `key` in a section, in order.
fn section_texts(section: &Section, key: &[u8]) -> (r: Vec<Vec<u8>>)
    ensures
        list_view(r@) == texts(item_values(section@.items, key@)),
{
    let ghost items = section@.items;
    let mut out: Vec<Vec<u8>> = Vec::new();
    let mut j: usize = 0;
    assert(list_view(out@) =~= texts(item_values(items.take(0), key@)));
    while j < section.items.len()
        invariant
            j <= section.items.len(),
            items == section@.items,
            list_view(out@) == texts(item_values(items.take(j as int), key@)),
        decreases section.items.len() - j,
    {
        let ghost u = items.take(j + 1);
        let ghost prior = item_values(items.take(j as int), key@);
        assert(u.drop_last() =~= items.take(j as int));
        assert(u.last() == section.items[j as int]@);
        match &section.items[j] {
            Item::Entry(e) => {
                if eq_ignore_ascii_case(e.key.as_slice(), key) {
                    let ghost before = out@;
                    let t = match &e.value {
                        Some(v) => to_vec(v.as_slice()),
                        None => Vec::new(),
                    };
                    out.push(t);
                    let ghost grown = texts(prior.push(e@.value));
                    assert(list_view(before).len() == texts(prior).len());
                    assert forall|k: int| 0 <= k < out@.len() implies list_view(out@)[k]
                        == grown[k] by {
                        if k < before.len() {
                            assert(list_view(before)[k] == texts(prior)[k]);
                        }
                    }
                    assert(list_view(out@) =~= grown);
                }
            },
            Item::Trivia(_) => {},
        }
        j += 1;
    }
    assert(items.take(j as int) =~= items);
    out
}

/// What a step of the resolution came to, as a mathematical value.
pub open spec fn halting(r: Result<(), Halt>, done: Seq<SectionView>) -> Result<
    Seq<SectionView>,
    HaltView,
> {
    match r {
        Ok(()) => Ok(done),
        Err(h) => Err(h@),
    }
}

fn nested_path(raw: &[u8], meta: &Metadata, done: &mut Vec<Section>, env: &Env, fuel: u8) -> (r:
    Result<(), Halt>)
    ensures
        halting(r, sections_view(final(done)@)) == follow_path(
            raw@,
            meta@,
            sections_view(old(done)@),
            env@,
            fuel as nat,
        ),
    decreases fuel, 0nat, 0nat,
{
    let place = match target(raw, meta, env) {
        Err(Halt::Failed(e)) => {
            if env.lenient {
                return Ok(());
            }
            return Err(Halt::Failed(e));
        },
        Err(halt) => {
            return Err(halt);
        },
        Ok(place) => place,
    };
    match find_file(&env.files, place.as_slice()) {
        None => Err(Halt::Needs(Wanted::File(place))),
        Some(Loaded::Absent) => Ok(()),
        Some(Loaded::Failed(reason)) => Err(
            Halt::Failed(
                Error::Io { path: place, source: meta.source, reason: to_vec(reason.as_slice()) },
            ),
        ),
        Some(Loaded::Bytes(b)) => {
            if fuel == 0 {
                if env.lenient {
                    return Ok(());
                }
                return Err(fail(raw, ResolutionErrorKind::TooDeep));
            }
            let inner = nest(meta, to_vec(place.as_slice()));
            match File::from_bytes(b.as_slice(), &inner, env.options.lossy) {
                Err(error) => Err(
                    Halt::Failed(Error::Parse { path: place, source: meta.source, error }),
                ),
                Ok(file) => nested_sections(&file.sections, done, env, fuel - 1),
            }
        },
    }
}

#[verifier::loop_isolation(false)]
fn nested_paths(
    paths: &Vec<Vec<u8>>,
    meta: &Metadata,
    done: &mut Vec<Section>,
    env: &Env,
    fuel: u8,
) -> (r: Result<(), Halt>)
    ensures
        halting(r, sections_view(final(done)@)) == follow_paths(
            list_view(paths@),
            0,
            meta@,
            sections_view(old(done)@),
            env@,
            fuel as nat,
        ),
    decreases fuel, 1nat, paths@.len(),
{
    let ghost names = list_view(paths@);
    let ghost start = sections_view(done@);
    let mut k: usize = 0;
    while k < paths.len()
        invariant
            k <= paths.len(),
            names == list_view(paths@),
            follow_paths(names, k as int, meta@, sections_view(done@), env@, fuel as nat)
                == follow_paths(names, 0, meta@, start, env@, fuel as nat),
        decreases paths.len() - k,
    {
        let raw = &paths[k];
        assert(names[k as int] == raw@);
        match nested_path(raw.as_slice(), meta, done, env, fuel) {
            Err(halt) => {
                return Err(halt);
            },
            Ok(()) => {},
        }
        k += 1;
    }
    Ok(())
}

#[verifier::loop_isolation(false)]
fn nested_sections(sections: &Vec<Section>, done: &mut Vec<Section>, env: &Env, fuel: u8) -> (r:
    Result<(), Halt>)
    ensures
        halting(r, sections_view(final(done)@)) == follow_sections(
            sections_view(sections@),
            0,
            sections_view(old(done)@),
            env@,
            fuel as nat,
        ),
    decreases fuel, 2nat, sections@.len(),
{
    let ghost all = sections_view(sections@);
    let ghost start = sections_view(done@);
    let mut i: usize = 0;
    while i < sections.len()
        invariant
            i <= sections.len(),
            all == sections_view(sections@),
            follow_sections(all, i as int, sections_view(done@), env@, fuel as nat)
                == follow_sections(all, 0, start, env@, fuel as nat),
        decreases sections.len() - i,
    {
        let s = &sections[i];
        assert(all[i as int] == s@);
        let followed = is_followed(s, done, env);
        let ghost before = done@;
        done.push(s.duplicate());
        assert(sections_view(done@) =~= sections_view(before).push(s@));
        if followed {
            let paths = section_texts(s, "path".as_bytes());
            match nested_paths(&paths, &s.meta, done, env, fuel) {
                Err(halt) => {
                    return Err(halt);
                },
                Ok(()) => {},
            }
        }
        i += 1;
    }
    Ok(())
}

/// What a resolution came to, as a mathematical value.
pub open spec fn resolution_result(r: Result<Resolution, Error>) -> Result<
    ResolutionView,
    ErrorView,
> {
    match r {
        Ok(x) => Ok(x@),
        Err(e) => Err(e@),
    }
}

impl File {
    /// Reads a file from its text and follows the files that it pulls in,
    /// as far as `env` knows them. Where a file or the home of a user was not
    /// looked up yet, the result names it; the caller looks it up, adds it to
    /// `env` and asks again.
    pub fn from_bytes_resolved(bytes: &[u8], meta: &Metadata, env: &Env) -> (r: Result<
        Resolution,
        Error,
    >)
        ensures
            resolution_result(r) == resolved(bytes@, meta@, env@),
    {
        let file = match File::from_bytes(bytes, meta, env.options.lossy) {
            Ok(f) => f,
            Err(error) => {
                return Err(
                    Error::Parse {
                        path: match &meta.path {
                            Some(p) => to_vec(p.as_slice()),
                            None => Vec::new(),
                        },
                        source: meta.source,
                        error,
                    },
                );
            },
        };
        if env.options.max_depth == 0 {
            return Ok(Resolution::Done(file));
        }
        let mut done: Vec<Section> = Vec::new();
        assert(sections_view(done@) =~= Seq::<SectionView>::empty());
        match nested_sections(&file.sections, &mut done, env, env.options.max_depth) {
            Ok(()) => Ok(Resolution::Done(File { sections: done })),
            Err(Halt::Needs(w)) => Ok(Resolution::Needs(w)),
            Err(Halt::Failed(e)) => Err(e),
        }
    }
}

/// Options that follow no nested files leave a file as it is read: a
/// directive to pull in a file stays an entry like any other.
pub proof fn lemma_no_follow_reads_plainly(bytes: Seq<u8>, meta: MetadataView, env: EnvView)
    requires
        env.options.max_depth == 0,
    ensures
        resolved(bytes, meta, env) matches Ok(ResolutionView::Done(file)) ==> parse_bytes(
            bytes,
            meta,
            env.options.lossy,
        ) == Ok::<FileView, ParseError>(file),
        resolved(bytes, meta, env) is Ok <==> parse_bytes(bytes, meta, env.options.lossy) is Ok,
{
}

/// A section from a source of reduced trust is never followed.
pub proof fn lemma_reduced_trust_is_not_followed(
    s: SectionView,
    done: Seq<SectionView>,
    env: EnvView,
)
    requires
        s.meta.trust == Trust::Reduced,
    ensures
        !follows(s, done, env),
{
}

/// While the current branch is not known, no condition on it holds.
pub proof fn lemma_onbranch_waits_for_branch(
    raw: Seq<u8>,
    env: EnvView,
)
    requires
        env.branch is None,
    ensures
        !onbranch_matches(raw, env),
{
}

} // verus!
