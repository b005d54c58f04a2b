use harvey::registry::{sources, SourceRegistry, YamlSource};
use harvey::slides::{SlideFile, SlideLoadError};

fn meta_value(slide: &harvey::slides::SlideContent, key: &str) -> Option<String> {
    let map = slide.meta_raw().as_mapping()?;
    Some(map.get_scalar(key)?.as_str().to_string())
}

#[test]
fn two_slides_with_metadata() {
    let mut reg = SourceRegistry::new();
    let file = SlideFile::parse("deck.md", "---\na: 1\n\nbody\n---\nb: 2\n\nmore\n", &mut reg)
        .unwrap_or_else(|_| panic!("parse failed"));
    let slides = file.slides();
    assert_eq!(slides.len(), 2);
    assert_eq!(meta_value(&slides[0], "a").as_deref(), Some("1"));
    assert_eq!(meta_value(&slides[1], "b").as_deref(), Some("2"));
    assert_eq!(slides[0].lineno(), 1);
    assert_eq!(slides[1].lineno(), 5);
    assert_eq!(slides[0].parts(), &["body\n".to_string()]);
    assert_eq!(slides[1].parts(), &["more\n".to_string()]);
    assert_eq!(slides[0].notes(), "");
    assert_eq!(file.fname(), "deck.md");
}

#[test]
fn missing_initial_delimiter() {
    let mut reg = SourceRegistry::new();
    match SlideFile::parse("deck.md", "hello\n---\na: 1\n\nbody\n", &mut reg) {
        Ok(_) => panic!("expected errors"),
        Err(errs) => {
            assert_eq!(errs.len(), 1);
            assert!(matches!(errs[0], SlideLoadError::MissingInitialDelimiter));
        }
    }
    assert_eq!(reg.len(), 0);
}

#[test]
fn empty_file_has_no_delimiter() {
    let mut reg = SourceRegistry::new();
    match SlideFile::parse("deck.md", "", &mut reg) {
        Ok(_) => panic!("expected errors"),
        Err(errs) => {
            assert_eq!(errs.len(), 1);
            assert!(matches!(errs[0], SlideLoadError::MissingInitialDelimiter));
        }
    }
}

#[test]
fn empty_first_line_is_no_delimiter() {
    let mut reg = SourceRegistry::new();
    let r = SlideFile::parse("deck.md", "\n---\na: 1\n\nbody\n", &mut reg);
    assert!(matches!(r.as_ref().err().map(|e| &e[..]), Some([SlideLoadError::MissingInitialDelimiter])));
}

#[test]
fn bad_metadata_discards_everything() {
    let mut reg = SourceRegistry::new();
    let text = "---\na: 1\n\nbody\n---\nb: [1, 2\n\nlost\n---\nc: 3\n\nfine\n";
    match SlideFile::parse("deck.md", text, &mut reg) {
        Ok(_) => panic!("expected errors"),
        Err(errs) => {
            assert_eq!(errs.len(), 1);
            assert!(matches!(errs[0], SlideLoadError::BadMetadata(5, _)));
        }
    }
    // all three blocks were closed and registered, the broken one included
    assert_eq!(reg.len(), 3);
}

#[test]
fn duplicate_keys_are_bad_metadata() {
    let mut reg = SourceRegistry::new();
    let r = SlideFile::parse("deck.md", "---\na: 1\na: 2\n\nbody\n", &mut reg);
    assert!(matches!(r.as_ref().err().map(|e| &e[..]), Some([SlideLoadError::BadMetadata(1, _)])));
}

#[test]
fn incomplete_metadata() {
    let mut reg = SourceRegistry::new();
    let r = SlideFile::parse("deck.md", "---\na: 1\n\nbody\n---\nb: 2\n", &mut reg);
    assert!(matches!(r.as_ref().err().map(|e| &e[..]), Some([SlideLoadError::IncompleteMetadata(5)])));
}

#[test]
fn errors_are_collected_in_order() {
    let mut reg = SourceRegistry::new();
    let r = SlideFile::parse("deck.md", "---\na: [\n\nx\n---\nb: {\n\ny\n---\nc: 1\n", &mut reg);
    match r {
        Ok(_) => panic!("expected errors"),
        Err(errs) => {
            assert_eq!(errs.len(), 3);
            assert!(matches!(errs[0], SlideLoadError::BadMetadata(1, _)));
            assert!(matches!(errs[1], SlideLoadError::BadMetadata(5, _)));
            assert!(matches!(errs[2], SlideLoadError::IncompleteMetadata(9)));
        }
    }
}

#[test]
fn fragments_and_notes() {
    let mut reg = SourceRegistry::new();
    let text = "---\n\none\n***\ntwo\n***\nthree\n???\nnote\n???\nmore\n";
    let file = SlideFile::parse("deck.md", text, &mut reg).unwrap_or_else(|_| panic!("parse failed"));
    let slide = &file.slides()[0];
    assert_eq!(
        slide.parts(),
        &["one\n".to_string(), "two\n".to_string(), "three\n".to_string()]
    );
    assert_eq!(slide.notes(), "note\n???\nmore\n");
}

#[test]
fn fragment_marker_at_start_gives_empty_fragment() {
    let mut reg = SourceRegistry::new();
    let file = SlideFile::parse("deck.md", "---\n\n***\nx\n", &mut reg)
        .unwrap_or_else(|_| panic!("parse failed"));
    assert_eq!(file.slides()[0].parts(), &["".to_string(), "x\n".to_string()]);
}

#[test]
fn long_delimiter_uses_dots_terminator() {
    let mut reg = SourceRegistry::new();
    let text = "-----\na: 1\n\nb: 2\n...\nbody\n\nstill body\n";
    let file = SlideFile::parse("deck.md", text, &mut reg).unwrap_or_else(|_| panic!("parse failed"));
    let slides = file.slides();
    assert_eq!(slides.len(), 1);
    assert_eq!(meta_value(&slides[0], "b").as_deref(), Some("2"));
    assert_eq!(slides[0].parts(), &["body\n\nstill body\n".to_string()]);
}

#[test]
fn crlf_line_endings() {
    let mut reg = SourceRegistry::new();
    let file = SlideFile::parse("deck.md", "---\r\na: 1\r\n\r\nbody\r\n", &mut reg)
        .unwrap_or_else(|_| panic!("parse failed"));
    assert_eq!(file.slides()[0].parts(), &["body\n".to_string()]);
}

#[test]
fn handles_are_registry_positions() {
    let mut reg = SourceRegistry::new();
    reg.register(YamlSource::Resource("x".to_string()));
    let a = SlideFile::parse("a.md", "---\n\none\n---\n\ntwo\n", &mut reg)
        .unwrap_or_else(|_| panic!("parse failed"));
    let b = SlideFile::parse("b.md", "---\n\nthree\n", &mut reg)
        .unwrap_or_else(|_| panic!("parse failed"));
    let ha: Vec<usize> = a.slides().iter().map(|s| s.source()).collect();
    let hb: Vec<usize> = b.slides().iter().map(|s| s.source()).collect();
    assert_eq!(ha, vec![1, 2]);
    assert_eq!(hb, vec![3]);
    let all = sources(&reg);
    assert_eq!(all.len(), 4);
    assert!(matches!(&all[1], YamlSource::Slide(f, 1, 1) if f == "a.md"));
    assert!(matches!(&all[2], YamlSource::Slide(f, 2, 4) if f == "a.md"));
    assert!(matches!(&all[3], YamlSource::Slide(f, 1, 1) if f == "b.md"));
}

#[test]
fn reparse_gives_new_handles() {
    let mut reg = SourceRegistry::new();
    let text = "---\n\none\n---\n\ntwo\n";
    let a = SlideFile::parse("a.md", text, &mut reg).unwrap_or_else(|_| panic!("parse failed"));
    let b = SlideFile::parse("a.md", text, &mut reg).unwrap_or_else(|_| panic!("parse failed"));
    for x in a.slides() {
        for y in b.slides() {
            assert_ne!(x.source(), y.source());
        }
    }
    assert_eq!(reg.len(), 4);
}

#[test]
fn node_from_source_registers_on_failure() {
    let mut reg = SourceRegistry::new();
    let ok = harvey::yaml::node_from_source(&mut reg, YamlSource::Resource("r".to_string()), "k: v\n");
    assert!(ok.is_ok());
    let bad = harvey::yaml::node_from_source(&mut reg, YamlSource::DiskFile("f".to_string()), "k: [\n");
    assert!(bad.is_err());
    assert_eq!(reg.len(), 2);
}
