use pica::pica_core::selector::Selector;

#[test]
fn parse_simple_selector() {
    let parsed = Selector::parse("hello");
    assert_eq!(parsed.appname, "hello");
    assert!(parsed.version.is_empty());
    assert!(parsed.branch.is_empty());
}

#[test]
fn parse_full_selector() {
    let parsed = Selector::parse("app:1.2(stable)");
    assert_eq!(parsed.appname, "app");
    assert_eq!(parsed.version, "1.2");
    assert_eq!(parsed.branch, "stable");
    assert_eq!(parsed.to_canonical_string(), "app:1.2(stable)");
}

#[test]
fn parse_full_width_symbols() {
    let parsed = Selector::parse("app@作者：版本（分支）");
    assert_eq!(parsed.appname, "app");
    assert_eq!(parsed.version, "版本");
    assert_eq!(parsed.branch, "分支");
    assert_eq!(parsed.norm, "app@作者:版本(分支)");
}

#[test]
fn parse_without_origin_with_version() {
    let parsed = Selector::parse("app:rolling");
    assert_eq!(parsed.appname, "app");
    assert_eq!(parsed.version, "rolling");
}

#[test]
fn selector_origin_with_branch_only() {
    let parsed = Selector::parse("app@origin(dev)");
    assert_eq!(parsed.appname, "app");
    assert_eq!(parsed.version, "");
    assert_eq!(parsed.branch, "dev");
    assert_eq!(parsed.to_canonical_string(), "app(dev)");
}

#[test]
fn selector_structured_forms() {
    assert!(Selector::is_structured("a:b"));
    assert!(Selector::is_structured("a@b"));
    assert!(Selector::is_structured("a（b）"));
    assert!(Selector::is_structured("app：1.0"));
    assert_eq!(Selector::parse("app：1.0").version, "1.0");
    assert!(!Selector::is_structured("plain"));
}

#[test]
fn canonical_selector_parses_back() {
    for (app, version, branch) in [("app", "", ""), ("app", "", "dev"), ("app", "1.2", ""), ("app", "1.2", "stable"), ("a(b", "v:1", "x)y")] {
        let mut s = Selector::parse(app);
        s.version = version.to_string();
        s.branch = branch.to_string();
        let text = s.to_canonical_string();
        let back = Selector::parse(&text);
        assert_eq!((back.appname.as_str(), back.version.as_str(), back.branch.as_str()), (app, version, branch));
    }
    let branch_only = Selector::parse("app(dev)");
    assert_eq!(branch_only.appname, "app");
    assert_eq!(branch_only.version, "");
    assert_eq!(branch_only.branch, "dev");
}

#[test]
fn selector_author_is_not_a_version() {
    let parsed = Selector::parse("app@demo");
    assert_eq!(parsed.appname, "app");
    assert_eq!(parsed.version, "");
    assert_eq!(parsed.branch, "");
    let full = Selector::parse("app@demo:1.0(stable)");
    assert_eq!((full.appname.as_str(), full.version.as_str(), full.branch.as_str()), ("app", "1.0", "stable"));
}
