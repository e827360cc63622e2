use git_repository::edit::{encode_value, names_are_valid, EditError};
use git_repository::file::{File, Metadata, Source, Trust};

fn read(text: &[u8]) -> File {
    File::from_bytes(text, &Metadata::from(Source::Local), false).expect("valid text")
}

fn reread(file: &File) -> File {
    read(&file.to_bytes())
}

#[test]
fn set_replaces_the_value_text_of_the_last_entry_in_place() {
    let mut file = read(b"# c\n[core]\n  bare   =   false   ; why\n\tother = 1\n[core]\n\tx = y\n");
    assert_eq!(file.set_value("core", None, "bare", b"true"), Ok(()));
    assert_eq!(
        file.to_bytes(),
        b"# c\n[core]\n  bare   =   true   ; why\n\tother = 1\n[core]\n\tx = y\n".to_vec()
    );
    assert_eq!(file.boolean_by_key("core.bare"), Some(Ok(true)));
    assert_eq!(reread(&file).boolean_by_key("core.bare"), Some(Ok(true)));
}

#[test]
fn set_picks_the_last_of_several_entries() {
    let mut file = read(b"[a]\n\tk = 1\n\tk = 2\n[b]\n\tk = 3\n[a]\n\tz = 0\n");
    file.set_value("A", None, "K", b"9").unwrap();
    assert_eq!(
        file.to_bytes(),
        b"[a]\n\tk = 1\n\tk = 9\n[b]\n\tk = 3\n[a]\n\tz = 0\n".to_vec()
    );
}

#[test]
fn set_adds_an_entry_to_the_last_section_of_that_name() {
    let mut file = read(b"[a]\n\tk = 1\n[b]\n\tk = 3\n[a]\n\tz = 0\n[c]\n");
    file.set_value("a", None, "new", b"v").unwrap();
    assert_eq!(
        file.to_bytes(),
        b"[a]\n\tk = 1\n[b]\n\tk = 3\n[a]\n\tz = 0\n\tnew = v\n[c]\n".to_vec()
    );
    assert_eq!(file.string_by_key("a.new"), Some(b"v".to_vec()));
}

#[test]
fn set_adds_a_section_where_there_is_none() {
    let mut file = read(b"[a]\n\tk = 1\n");
    file.set_value("remote", Some(b"ori\"gin"), "url", b"x y").unwrap();
    assert_eq!(
        file.to_bytes(),
        b"[a]\n\tk = 1\n[remote \"ori\\\"gin\"]\n\turl = x y\n".to_vec()
    );
    assert_eq!(
        reread(&file).string("remote", Some(b"ori\"gin"), "url"),
        Some(b"x y".to_vec())
    );
    let mut empty = File::new();
    empty.set_value("core", None, "bare", b"true").unwrap();
    assert_eq!(empty.to_bytes(), b"[core]\n\tbare = true\n".to_vec());
    assert_eq!(empty.sections[0].meta, Metadata::from(Source::Local));
}

#[test]
fn new_sections_take_the_metadata_of_the_last() {
    let meta = Metadata::from(Source::Global).with(Trust::Reduced);
    let mut file = File::from_bytes(b"[a]\n", &meta, false).unwrap();
    file.set_value("b", None, "k", b"v").unwrap();
    assert_eq!(file.sections[1].meta, meta);
}

#[test]
fn set_breaks_the_line_that_the_file_ends_in() {
    let mut file = read(b"[a]\n\tk = 1");
    file.set_value("a", None, "j", b"2").unwrap();
    assert_eq!(file.to_bytes(), b"[a]\n\tk = 1\n\tj = 2\n".to_vec());
    let mut file = read(b"[a]");
    file.set_value("a", None, "j", b"2").unwrap();
    assert_eq!(file.to_bytes(), b"[a]\n\tj = 2\n".to_vec());
    let mut file = read(b"[a]\n\tk = 1");
    file.set_value("b", None, "j", b"2").unwrap();
    assert_eq!(file.to_bytes(), b"[a]\n\tk = 1\n[b]\n\tj = 2\n".to_vec());
    assert_eq!(reread(&file).string_by_key("b.j"), Some(b"2".to_vec()));
}

#[test]
fn set_breaks_a_line_that_a_backslash_continues() {
    let mut file = read(b"[a]\n\tk = v \\\n");
    assert_eq!(file.string_by_key("a.k"), Some(b"v".to_vec()));
    file.set_value("a", None, "j", b"2").unwrap();
    assert_eq!(file.to_bytes(), b"[a]\n\tk = v \\\n\n\tj = 2\n".to_vec());
    let again = reread(&file);
    assert_eq!(again.string_by_key("a.k"), Some(b"v".to_vec()));
    assert_eq!(again.string_by_key("a.j"), Some(b"2".to_vec()));
    let mut file = read(b"[a]\n\tk = v \\\r\n");
    file.set_value("b", None, "j", b"2").unwrap();
    let again = reread(&file);
    assert_eq!(again.string_by_key("a.k"), Some(b"v".to_vec()));
    assert_eq!(again.string_by_key("b.j"), Some(b"2".to_vec()));
}

#[test]
fn set_gives_a_bare_key_its_separator() {
    let mut file = read(b"[a]\n\tflag ; why\n");
    file.set_value("a", None, "flag", b"no").unwrap();
    assert_eq!(file.to_bytes(), b"[a]\n\tflag = no ; why\n".to_vec());
    assert_eq!(reread(&file).boolean_by_key("a.flag"), Some(Ok(false)));
}

#[test]
fn setting_twice_is_setting_once() {
    let texts: [&[u8]; 4] = [
        b"[core]\n\tbare = false\n",
        b"[core]\n\tflag\n",
        b"[core]\n",
        b"# nothing\n",
    ];
    let values: [&[u8]; 4] = [b"true", b" padded ", b"a#b;c", b"line\nbreak\t\"q\" \\"];
    for text in texts {
        for value in values {
            let mut once = read(text);
            once.set_value("core", None, "bare", value).unwrap();
            let mut twice = read(text);
            twice.set_value("core", None, "bare", value).unwrap();
            twice.set_value("core", None, "bare", value).unwrap();
            assert_eq!(once.to_bytes(), twice.to_bytes());
            assert_eq!(once, twice);
            assert_eq!(once.string_by_key("core.bare"), Some(value.to_vec()));
            assert_eq!(reread(&once).string_by_key("core.bare"), Some(value.to_vec()));
        }
    }
}

#[test]
fn values_are_quoted_and_escaped_as_needed() {
    assert_eq!(encode_value(b"plain value"), b"plain value".to_vec());
    assert_eq!(encode_value(b""), b"".to_vec());
    assert_eq!(encode_value(b" lead"), b"\" lead\"".to_vec());
    assert_eq!(encode_value(b"trail\t"), b"\"trail\\t\"".to_vec());
    assert_eq!(encode_value(b"a#b"), b"\"a#b\"".to_vec());
    assert_eq!(encode_value(b"a;b"), b"\"a;b\"".to_vec());
    assert_eq!(encode_value(b"a\"b\\c"), b"a\\\"b\\\\c".to_vec());
    assert_eq!(encode_value(b"a\nb\tc\x08d"), b"a\\nb\\tc\\bd".to_vec());
}

#[test]
fn names_that_cannot_be_written_are_refused() {
    let mut file = read(b"[a]\n\tk = 1\n");
    let before = file.to_bytes();
    assert_eq!(file.set_value("", None, "k", b"v"), Err(EditError::BadName));
    assert_eq!(file.set_value("a b", None, "k", b"v"), Err(EditError::BadName));
    assert_eq!(file.set_value("a", None, "", b"v"), Err(EditError::BadName));
    assert_eq!(file.set_value("a", None, "1k", b"v"), Err(EditError::BadName));
    assert_eq!(file.set_value("a", None, "k=", b"v"), Err(EditError::BadName));
    assert_eq!(file.set_value("a", Some(b"x\ny"), "k", b"v"), Err(EditError::BadName));
    assert_eq!(file.to_bytes(), before);
    assert!(names_are_valid(b"a-1", Some(b"any thing"), b"k-2"));
    assert!(!names_are_valid(b"a.b", None, b"k"));
}

#[test]
fn remove_drops_the_line_of_the_last_entry() {
    let mut file = read(b"[a]\n\tk = 1\n\t# keep\n\tk = 2 ; gone\n\tj = 3\n");
    assert!(file.remove("a", None, "k"));
    assert_eq!(file.to_bytes(), b"[a]\n\tk = 1\n\t# keep\n\tj = 3\n".to_vec());
    assert_eq!(file.string_by_key("a.k"), Some(b"1".to_vec()));
    assert!(file.remove("a", None, "k"));
    assert_eq!(file.string_by_key("a.k"), None);
    assert!(!file.remove("a", None, "k"));
    assert!(!file.remove("b", None, "k"));
    assert_eq!(file.to_bytes(), b"[a]\n\t# keep\n\tj = 3\n".to_vec());
}

#[test]
fn remove_section_drops_the_last_section_of_that_name() {
    let mut file = read(b"# c\n[a]\n\tk = 1\n[b \"s\"]\n\tk = 2\n[a]\n\tk = 3\n");
    assert!(file.remove_section("a", None));
    assert_eq!(file.to_bytes(), b"# c\n[a]\n\tk = 1\n[b \"s\"]\n\tk = 2\n".to_vec());
    assert!(!file.remove_section("b", None));
    assert!(file.remove_section("B", Some(b"s")));
    assert!(file.remove_section("a", None));
    assert!(!file.remove_section("a", None));
    assert_eq!(file.to_bytes(), b"# c\n".to_vec());
}

#[test]
fn positions_are_found_from_the_end() {
    let file = read(b"# c\n[a]\n\tk = 1\n\tk = 2\n[a]\n\tj = 3\n");
    assert_eq!(file.position(b"a", None, b"k"), Some((1, 1)));
    assert_eq!(file.position(b"a", None, b"j"), Some((2, 0)));
    assert_eq!(file.position(b"a", None, b"x"), None);
    assert_eq!(file.section_index(b"a", None), Some(2));
    assert_eq!(file.section_index(b"b", None), None);
    assert_eq!(file.section_index(b"", None), None);
    assert!(!file.sections[2].is_open_ended());
    assert!(read(b"[a]").sections[0].is_open_ended());
}
