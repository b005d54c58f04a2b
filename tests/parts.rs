use harvey::lines::split_lines;
use harvey::ratio::SlideRatio;
use harvey::registry::{SourceRegistry, YamlSource};
use harvey::resources::{lookup, paths, resource_source, Lookup, Probe, ResourcePaths};

#[test]
fn lines_are_split_like_std() {
    assert_eq!(split_lines("a\r\nb\n\nc"), vec!["a", "b", "", "c"]);
    assert_eq!(split_lines("a\n"), vec!["a"]);
    assert_eq!(split_lines(""), Vec::<String>::new());
    assert_eq!(split_lines("x\ry\n"), vec!["x\ry"]);
    assert_eq!(split_lines("é\n"), vec!["é"]);
}

#[test]
fn ratio_parses() {
    let r = SlideRatio::parse("16:9").unwrap();
    assert_eq!((r.width, r.height), (16, 9));
    let r = SlideRatio::parse("+4:3").unwrap();
    assert_eq!((r.width, r.height), (4, 3));
    assert!(SlideRatio::parse("16x9").is_none());
    assert!(SlideRatio::parse("a:3").is_none());
    assert!(SlideRatio::parse(":3").is_none());
    assert!(SlideRatio::parse("4:").is_none());
    assert!(SlideRatio::parse("4:3:2").is_none());
    assert!(SlideRatio::parse("-4:3").is_none());
    assert!(SlideRatio::parse("99999999999999999999999:1").is_none());
    let max = format!("{}:1", usize::MAX);
    assert_eq!(SlideRatio::parse(&max).unwrap().width, usize::MAX);
}

#[test]
fn registry_hands_out_positions() {
    let mut reg = SourceRegistry::new();
    assert_eq!(reg.register(YamlSource::Resource("a".to_string())), 0);
    assert_eq!(reg.register(YamlSource::DiskFile("b".to_string())), 1);
    assert_eq!(reg.len(), 2);
}

#[test]
fn search_order_is_most_recent_first() {
    let mut res = ResourcePaths::new();
    res.add("one".to_string());
    res.add("two".to_string());
    assert_eq!(res.search_order(), vec!["two", "one"]);
    assert_eq!(paths(&res), &vec!["one".to_string(), "two".to_string()]);
}

#[test]
fn lookup_takes_first_decisive_probe() {
    assert!(lookup(&vec![]) == Lookup::Embedded);
    assert!(lookup(&vec![Probe::Missing, Probe::Missing]) == Lookup::Embedded);
    assert!(lookup(&vec![Probe::Missing, Probe::Found, Probe::Failed]) == Lookup::Override(1));
    assert!(lookup(&vec![Probe::Failed, Probe::Found]) == Lookup::Error(0));
}

#[test]
fn resource_source_prefers_the_file() {
    assert!(matches!(resource_source(Some("p".to_string()), "r"), YamlSource::DiskFile(p) if p == "p"));
    assert!(matches!(resource_source(None, "r"), YamlSource::Resource(r) if r == "r"));
}
