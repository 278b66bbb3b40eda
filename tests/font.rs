use fontgrid::descriptor::Xft;
use fontgrid::font::{cell_size, sample, Font, GlyphAttr, Metrics, SAMPLE_LEN};

fn font_at(descriptor: &str) -> Font<u32> {
    let m = Metrics { advance: 950, ascent: 10, descent: 3 };
    Font::new(Xft::new(descriptor), 1, 2, 3, 4, m)
}

#[test]
fn resize_up_and_clamped_down() {
    let f = font_at("mono:size=12");
    let r = f.get_resized(4);
    assert_eq!(r.size, 16);
    assert_eq!(r.name, "mono");
    let f = font_at("mono:size=2");
    assert_eq!(f.get_resized(-10).size, 2);
    assert_eq!(f.get_resized(-2).size, 2);
    assert_eq!(f.get_resized(-1).size, 1);
}

#[test]
fn select_each_attribute_set() {
    let f = font_at("mono");
    let pick = |bold, italic| f.get(GlyphAttr { bold, italic });
    assert_eq!(pick(false, false), 1);
    assert_eq!(pick(true, false), 2);
    assert_eq!(pick(false, true), 3);
    assert_eq!(pick(true, true), 4);
    assert_ne!(pick(true, true), pick(true, false));
    assert_ne!(pick(true, true), pick(false, true));
    assert_ne!(pick(true, true), pick(false, false));
}

#[test]
fn cell_width_rounds_up() {
    assert_eq!(cell_size(Metrics { advance: 950, ascent: 10, descent: 3 }), (10, 13));
    assert_eq!(cell_size(Metrics { advance: 951, ascent: 10, descent: 3 }), (11, 13));
    assert_eq!(cell_size(Metrics { advance: 1, ascent: 1, descent: 0 }), (1, 1));
    assert_eq!(cell_size(Metrics { advance: 0, ascent: 0, descent: 0 }), (0, 0));
}

#[test]
fn font_reports_its_measures() {
    let f = font_at("mono:size=12");
    assert_eq!(f.size(), (10, 13));
    assert_eq!(f.ascent(), 10);
    assert_eq!(f.descriptor().size, 12);
}

#[test]
fn sample_is_printable_ascii() {
    let s = sample();
    assert_eq!(s.len(), SAMPLE_LEN);
    assert_eq!(s[0], b' ');
    assert_eq!(s[94], b'~');
    assert_eq!(std::str::from_utf8(&s).unwrap().len(), 95);
}
