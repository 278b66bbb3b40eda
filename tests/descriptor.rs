use fontgrid::descriptor::Xft;

#[test]
fn parse_explicit_and_default_size() {
    assert_eq!(Xft::new("mono:size=20").size, 20);
    assert_eq!(Xft::new("mono").size, 12);
}

#[test]
fn remove_size_keeps_other_segments_in_order() {
    assert_eq!(Xft::remove_size("mono:size=20:bold"), "mono:bold");
    assert_eq!(Xft::remove_size("droid:regular:size=12"), "droid:regular");
    assert_eq!(Xft::remove_size(""), "");
}

#[test]
fn serialize_parsed_descriptor() {
    assert_eq!(Xft::new("mono:size=20").serialize(), "mono:size=20");
    assert_eq!(Xft::new("mono").serialize(), "mono:size=12");
    assert_eq!(Xft::new("mono:size=20:bold").serialize(), "mono:bold:size=20");
}

#[test]
fn size_that_does_not_read_falls_back() {
    assert_eq!(Xft::parse_size("mono:size=0"), 12);
    assert_eq!(Xft::parse_size("mono:size=abc"), 12);
    assert_eq!(Xft::parse_size("mono:size="), 12);
    assert_eq!(Xft::parse_size("mono:size=-3"), 12);
    assert_eq!(Xft::parse_size("mono:size=99999999999999999999999"), 12);
    assert_eq!(Xft::parse_size("mono:size"), 12);
}

#[test]
fn size_forms_that_read() {
    assert_eq!(Xft::parse_size("mono:size=+7"), 7);
    assert_eq!(Xft::parse_size("mono:pixelsize=9"), 9);
    assert_eq!(Xft::parse_size("size:5"), 5);
    assert_eq!(Xft::parse_size("a:size=5:b:size=7"), 5);
    assert_eq!(Xft::parse_size("mono:size=18446744073709551615"), 18446744073709551615);
}

#[test]
fn reparse_keeps_name_and_size() {
    for d in ["mono:size=20", "mono", "droid:regular:size=14", "a:size=x:b", ""] {
        let first = Xft::new(d);
        let again = Xft::new(&first.serialize());
        assert_eq!(again.name, first.name);
        assert_eq!(again.size, first.size);
    }
}

#[test]
fn reparse_keeps_name_when_name_mentions_size() {
    let first = Xft::new("a:size=5:b:size:7");
    assert_eq!(first.size, 5);
    let again = Xft::new(&first.serialize());
    assert_eq!(again.name, first.name);
    assert_eq!(again.size, 7);
}
