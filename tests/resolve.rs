use fontgrid::descriptor::Xft;
use fontgrid::font::{GlyphAttr, Metrics};
use fontgrid::resolve::{Action, Edit, Event, Resolver};

fn edit_of(a: &Action<u32>) -> &Edit {
    match a {
        Action::Open(e) => e,
        _ => panic!("expected an open"),
    }
}

#[test]
fn full_resolution_bundles_four_variants() {
    let (r, a) = Resolver::<u32>::start(Xft::new("mono:size=20"));
    match edit_of(&a) {
        Edit::Base(p) => assert_eq!(p, "mono:size=20"),
        _ => panic!("expected the base pattern"),
    }
    let (r, a) = r.step(Event::Opened(10));
    assert!(matches!(a, Action::Measure(10)));
    let (r, a) = r.step(Event::Measured(Metrics { advance: 190, ascent: 15, descent: 5 }));
    assert!(matches!(edit_of(&a), Edit::SlantItalic));
    let (r, a) = r.step(Event::Opened(11));
    assert!(matches!(edit_of(&a), Edit::WeightBold));
    let (r, a) = r.step(Event::Opened(12));
    assert!(matches!(edit_of(&a), Edit::SlantRoman));
    let (r, a) = r.step(Event::Opened(13));
    let font = match a {
        Action::Done(f) => f,
        _ => panic!("expected a font"),
    };
    assert_eq!(font.size(), (2, 20));
    assert_eq!(font.ascent(), 15);
    assert_eq!(font.descriptor().size, 20);
    assert_eq!(font.get(GlyphAttr { bold: false, italic: false }), 10);
    assert_eq!(font.get(GlyphAttr { bold: false, italic: true }), 11);
    assert_eq!(font.get(GlyphAttr { bold: true, italic: true }), 12);
    assert_eq!(font.get(GlyphAttr { bold: true, italic: false }), 13);
    let (_, a) = r.step(Event::Opened(14));
    match a {
        Action::Abort(v) => assert!(v.is_empty()),
        _ => panic!("a finished resolution only aborts"),
    }
}

#[test]
fn italic_failure_releases_regular() {
    let (r, _) = Resolver::<u32>::start(Xft::new("mono"));
    let (r, _) = r.step(Event::Opened(10));
    let (r, _) = r.step(Event::Measured(Metrics { advance: 95, ascent: 1, descent: 1 }));
    let (r, a) = r.step(Event::Failed);
    match a {
        Action::Abort(v) => assert_eq!(v, vec![10]),
        _ => panic!("expected an abort"),
    }
    let (_, a) = r.step(Event::Opened(11));
    match a {
        Action::Abort(v) => assert!(v.is_empty()),
        _ => panic!("expected an abort"),
    }
}

#[test]
fn failure_of_first_match_releases_nothing() {
    let (r, _) = Resolver::<u32>::start(Xft::new("nosuchfont"));
    let (_, a) = r.step(Event::Failed);
    match a {
        Action::Abort(v) => assert!(v.is_empty()),
        _ => panic!("expected an abort"),
    }
}

#[test]
fn late_failure_releases_three() {
    let (r, _) = Resolver::<u32>::start(Xft::new("mono"));
    let (r, _) = r.step(Event::Opened(1));
    let (r, _) = r.step(Event::Measured(Metrics { advance: 95, ascent: 1, descent: 1 }));
    let (r, _) = r.step(Event::Opened(2));
    let (r, _) = r.step(Event::Opened(3));
    let (_, a) = r.step(Event::Failed);
    match a {
        Action::Abort(v) => assert_eq!(v, vec![1, 2, 3]),
        _ => panic!("expected an abort"),
    }
}

#[test]
fn unexpected_answer_aborts() {
    let (r, _) = Resolver::<u32>::start(Xft::new("mono"));
    let (r, _) = r.step(Event::Opened(1));
    let (_, a) = r.step(Event::Opened(2));
    match a {
        Action::Abort(v) => assert_eq!(v, vec![1]),
        _ => panic!("expected an abort"),
    }
}
