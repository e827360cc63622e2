use git_repository::file::{Everything, File, Item, Metadata, NotFrom, Source, Trust, TrustedOnly};
use git_repository::parse::ParseError;
use git_repository::scan::ParseErrorKind;

fn read(text: &[u8]) -> File {
    File::from_bytes(text, &Metadata::from(Source::Local), false).expect("valid text")
}

fn read_as(text: &[u8], source: Source, trust: Trust) -> File {
    File::from_bytes(text, &Metadata::from(source).with(trust), false).expect("valid text")
}

fn kind_of(text: &[u8]) -> (ParseErrorKind, usize) {
    let e: ParseError = File::from_bytes(text, &Metadata::from(Source::Local), false).unwrap_err();
    (e.kind, e.offset)
}

const SAMPLE: &[u8] = b"# a comment\n\n[core]\n\tbare = false ; trailing\n\tname = \"a b \" # c\n  flag\n[remote \"origin\"]\n\turl = https://example.com/repo.git\n\tfetch = +refs/heads/*:refs/remotes/origin/*\n\tfetch = +refs/tags/*:refs/tags/*\n[Core]\n\tBARE = true\n";

#[test]
fn size_in_memory() {
    let actual = std::mem::size_of::<File>();
    assert!(
        actual <= 1040,
        "{} <= 1040: This shouldn't change without us noticing",
        actual
    );
}

#[test]
fn parse_config_with_windows_line_endings_successfully() {
    let text = b"[core]\r\n\trepositoryformatversion = 0\r\n\tfilemode = false\r\n\tbare = false\r\n\tlogallrefupdates = true\r\n\tsymlinks = false\r\n\tignorecase = true\r\n[remote \"origin\"]\r\n\turl = https://github.com/Byron/gitoxide\r\n\tfetch = +refs/heads/*:refs/remotes/origin/*\r\n";
    let file = File::from_bytes(text, &Metadata::from(Source::Local), false).unwrap();
    assert_eq!(file.boolean_by_key("core.bare"), Some(Ok(false)));
    assert_eq!(file.integer_by_key("core.repositoryformatversion"), Some(Ok(0)));
    assert_eq!(
        file.string_by_key("remote.origin.url"),
        Some(b"https://github.com/Byron/gitoxide".to_vec())
    );
    assert_eq!(file.to_bytes(), text.to_vec());
}

#[test]
fn unedited_file_is_written_as_it_was_read() {
    let texts: [&[u8]; 9] = [
        SAMPLE,
        b"",
        b"\n",
        b"# only a comment",
        b"[a]",
        b"[a]\nb",
        b"[a]\n\tb = c\\\n  d\n",
        b"[a \"b\\\"c\"]\nk = \"x # y\" ; z\n",
        b"[a.B]\r\nk=v\r\n",
    ];
    for text in texts {
        assert_eq!(read(text).to_bytes(), text.to_vec());
    }
}

#[test]
fn scalar_read_yields_the_last_value() {
    let file = read(SAMPLE);
    assert_eq!(file.boolean_by_key("core.bare"), Some(Ok(true)));
    assert_eq!(file.boolean("core", None, "bare"), Some(Ok(true)));
    assert_eq!(file.boolean("CORE", None, "Bare"), Some(Ok(true)));
    assert_eq!(
        file.string("remote", Some(b"origin"), "fetch"),
        Some(b"+refs/tags/*:refs/tags/*".to_vec())
    );
    assert_eq!(file.string("remote", Some(b"Origin"), "fetch"), None);
    assert_eq!(file.string("remote", None, "fetch"), None);
    assert_eq!(file.string_by_key("core.missing"), None);
    assert_eq!(file.string_by_key("nodot"), None);
}

#[test]
fn multi_valued_read_yields_all_values_in_order() {
    let file = read(SAMPLE);
    assert_eq!(
        file.strings_by_key("remote.origin.fetch"),
        vec![
            b"+refs/heads/*:refs/remotes/origin/*".to_vec(),
            b"+refs/tags/*:refs/tags/*".to_vec()
        ]
    );
    assert_eq!(
        file.strings("core", None, "bare"),
        vec![b"false".to_vec(), b"true".to_vec()]
    );
    assert!(file.strings_by_key("core.nothing").is_empty());
}

#[test]
fn values_lose_quotes_comments_and_outer_blanks() {
    let file = read(SAMPLE);
    assert_eq!(file.string_by_key("core.name"), Some(b"a b ".to_vec()));
    let file = read(b"[a]\n\tb = \"x\\ty\\n\\\\\\\"\" tail  \n\tc = one \\\n two\n\td =\n\te = a\\\r\nb\r\n");
    assert_eq!(file.string_by_key("a.b"), Some(b"x\ty\n\\\" tail".to_vec()));
    assert_eq!(file.string_by_key("a.c"), Some(b"one  two".to_vec()));
    assert_eq!(file.string_by_key("a.d"), Some(b"".to_vec()));
    assert_eq!(file.string_by_key("a.e"), Some(b"ab".to_vec()));
}

#[test]
fn a_key_without_value_is_true() {
    let file = read(SAMPLE);
    assert_eq!(file.boolean_by_key("core.flag"), Some(Ok(true)));
    assert_eq!(file.string_by_key("core.flag"), Some(Vec::new()));
    assert_eq!(file.raw_value_filter(b"core", None, b"flag", &Everything), Some(None));
    let file = read(b"[a]\nb =\n");
    assert_eq!(
        file.boolean_by_key("a.b").map(|r| r.map_err(|e| e.value)),
        Some(Err(Vec::new()))
    );
}

#[test]
fn present_but_invalid_differs_from_absent() {
    let file = read(b"[a]\n\tb = maybe\n\tn = 12x\n");
    assert_eq!(
        file.boolean_by_key("a.b").map(|r| r.map_err(|e| e.value)),
        Some(Err(b"maybe".to_vec()))
    );
    assert_eq!(
        file.integer_by_key("a.n").map(|r| r.map_err(|e| e.value)),
        Some(Err(b"12x".to_vec()))
    );
    assert_eq!(file.boolean_by_key("a.c"), None);
    assert_eq!(file.integer_by_key("a.c"), None);
}

#[test]
fn integers_are_read_with_units() {
    let file = read(b"[core]\n\tdeltaBaseCacheLimit = 4k\n\tbig = 1g\n\tword = abc\n");
    assert_eq!(file.integer_by_key("core.deltaBaseCacheLimit"), Some(Ok(4096)));
    assert_eq!(file.integer("core", None, "big"), Some(Ok(1073741824)));
    assert!(matches!(file.integer_by_key("core.word"), Some(Err(_))));
}

#[test]
fn subsection_forms() {
    let file = read(b"[a \"B c\"]\n\tk = 1\n[a.Dotted]\n\tk = 2\n[a]\n\tk = 3\n");
    assert_eq!(file.string("a", Some(b"B c"), "k"), Some(b"1".to_vec()));
    assert_eq!(file.string("a", Some(b"b c"), "k"), None);
    assert_eq!(file.string("a", Some(b"dotted"), "k"), Some(b"2".to_vec()));
    assert_eq!(file.string("a", None, "k"), Some(b"3".to_vec()));
    assert_eq!(file.string_by_key("a.B c.k"), Some(b"1".to_vec()));
    let file = read(b"[url \"https://example.com/\"]\n\tinsteadOf = ex:\n");
    assert_eq!(
        file.string_by_key("url.https://example.com/.insteadOf"),
        Some(b"ex:".to_vec())
    );
}

#[test]
fn later_layer_wins_after_append() {
    let mut a = read(b"[core]\n\tbare = false\n\tonly-a = 1\n[remote \"o\"]\n\tfetch = a1\n\tfetch = a2\n");
    let b = read_as(
        b"[core]\n\tbare = true\n\tonly-b = 2\n[remote \"o\"]\n\tfetch = b1\n",
        Source::Worktree,
        Trust::Full,
    );
    let a_text = a.to_bytes();
    let b_text = b.to_bytes();
    a.append(b);
    assert_eq!(a.boolean_by_key("core.bare"), Some(Ok(true)));
    assert_eq!(a.string_by_key("core.only-a"), Some(b"1".to_vec()));
    assert_eq!(a.string_by_key("core.only-b"), Some(b"2".to_vec()));
    assert_eq!(
        a.strings_by_key("remote.o.fetch"),
        vec![b"a1".to_vec(), b"a2".to_vec(), b"b1".to_vec()]
    );
    let mut both = a_text;
    both.extend_from_slice(&b_text);
    assert_eq!(a.to_bytes(), both);
}

#[test]
fn filters_leave_sources_out() {
    let mut file = read_as(b"[core]\n\tlimit = 1\n", Source::Local, Trust::Full);
    file.append(read_as(b"[core]\n\tlimit = 2\n", Source::Worktree, Trust::Reduced));
    assert_eq!(file.integer_by_key("core.limit"), Some(Ok(2)));
    assert_eq!(
        file.integer_filter_by_key("core.limit", &NotFrom(Source::Worktree)),
        Some(Ok(1))
    );
    assert_eq!(file.integer_filter_by_key("core.limit", &TrustedOnly), Some(Ok(1)));
    assert_eq!(
        file.integer_filter_by_key("core.limit", &NotFrom(Source::Local)),
        Some(Ok(2))
    );
    assert_eq!(file.integer_filter("core", None, "limit", &Everything), Some(Ok(2)));
    assert_eq!(
        file.string_filter_by_key("core.limit", &NotFrom(Source::Worktree)),
        Some(b"1".to_vec())
    );
    assert_eq!(
        file.boolean_filter_by_key("core.limit", &NotFrom(Source::Local)),
        file.boolean_filter("core", None, "limit", &NotFrom(Source::Local))
    );
    assert_eq!(
        file.strings_filter(b"core", None, b"limit", &NotFrom(Source::Env)),
        vec![b"1".to_vec(), b"2".to_vec()]
    );
    let mut other = read_as(b"[core]\n\tlimit = 1\n", Source::Local, Trust::Full);
    other.append(read_as(b"[core]\n\tx = 2\n", Source::Worktree, Trust::Full));
    assert_eq!(
        other.string_filter("core", None, "limit", &NotFrom(Source::Local)),
        None
    );
}

#[test]
fn metadata_marks_every_section() {
    let meta = Metadata::from(Source::Global).at(b"/home/u/.gitconfig".to_vec()).with(Trust::Reduced);
    let file = File::from_bytes(b"# lead\n[a]\nb\n[c]\n", &meta, false).unwrap();
    assert_eq!(file.sections.len(), 3);
    for section in &file.sections {
        assert_eq!(section.meta, meta);
    }
    assert!(file.sections[0].name.is_empty());
    assert_eq!(file.sections[0].items, vec![Item::Trivia(b"# lead\n".to_vec())]);
    assert_eq!(meta.duplicate(), meta);
    assert_eq!(Metadata::from(Source::Cli).nested(3).level, 3);
    assert_eq!(Metadata::from(Source::Cli).trust, Trust::Full);
    assert_eq!(Metadata::from(Source::Cli).path, None);
}

#[test]
fn lossy_read_drops_comments_and_blank_lines() {
    let text = b"# c\n\n[a]\n ; d\n\tb = 1\n\n";
    let file = File::from_bytes(text, &Metadata::from(Source::Local), true).unwrap();
    assert_eq!(file.to_bytes(), b"[a]\n\tb = 1\n".to_vec());
    assert_eq!(file.string_by_key("a.b"), Some(b"1".to_vec()));
}

#[test]
fn malformed_text_is_refused_with_kind_and_offset() {
    assert_eq!(kind_of(b"[a]\n[b\n"), (ParseErrorKind::BadHeader, 4));
    assert_eq!(kind_of(b"[]\n"), (ParseErrorKind::BadHeader, 0));
    assert_eq!(kind_of(b"[a \"b]\n"), (ParseErrorKind::BadHeader, 0));
    assert_eq!(kind_of(b"[a] x\n"), (ParseErrorKind::BadHeader, 0));
    assert_eq!(kind_of(b"[a]\n=b\n"), (ParseErrorKind::BadKey, 4));
    assert_eq!(kind_of(b"[a]\nk v\n"), (ParseErrorKind::BadKey, 4));
    assert_eq!(kind_of(b"[a]\n1k = v\n"), (ParseErrorKind::BadKey, 4));
    assert_eq!(kind_of(b"[a]\nk = \\x\n"), (ParseErrorKind::BadEscape, 4));
    assert_eq!(kind_of(b"[a]\nk = v\\"), (ParseErrorKind::BadEscape, 4));
    assert_eq!(kind_of(b"[a]\nk = \"v\n"), (ParseErrorKind::OpenQuote, 4));
    assert_eq!(kind_of(b"k = v\n"), (ParseErrorKind::StrayKey, 0));
    assert_eq!(kind_of(b"# c\nk = v\n"), (ParseErrorKind::StrayKey, 4));
}

#[test]
fn empty_file_has_no_sections() {
    assert!(File::new().sections.is_empty());
    assert!(File::default().sections.is_empty());
    assert_eq!(File::new().to_bytes(), Vec::<u8>::new());
    assert_eq!(File::new().string_by_key("a.b"), None);
    assert_eq!(read(b""), File::new());
}
