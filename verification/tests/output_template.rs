use typst_py::decimal::{decimal_chars, width, zero_padded};
use typst_py::output_template::has_indexable_template;

fn fill(output: &str, page: usize, total: usize) -> String {
    typst_py::output_template::format(output, page, total)
}

#[test]
fn indexable_templates_are_recognised() {
    assert!(has_indexable_template("out-{p}.png"));
    assert!(has_indexable_template("out-{0p}.png"));
    assert!(has_indexable_template("out-{n}.png"));
    assert!(!has_indexable_template("out-{t}.png"));
    assert!(!has_indexable_template("out.png"));
    assert!(!has_indexable_template(""));
    assert!(!has_indexable_template("{ p}{0 p}{N}"));
}

#[test]
fn page_template_gives_the_page_number() {
    assert_eq!(fill("out-{p}.png", 3, 12), "out-3.png");
    assert_eq!(fill("out-{p}.png", 12, 12), "out-12.png");
}

#[test]
fn padded_templates_pad_to_the_page_count_width() {
    assert_eq!(fill("out-{0p}.png", 3, 12), "out-03.png");
    assert_eq!(fill("out-{n}.png", 3, 12), "out-03.png");
    assert_eq!(fill("out-{0p}.png", 7, 100), "out-007.png");
    assert_eq!(fill("out-{0p}.png", 100, 100), "out-100.png");
    assert_eq!(fill("out-{0p}.png", 1, 9), "out-1.png");
}

#[test]
fn total_template_gives_the_page_count() {
    assert_eq!(fill("page-{0p}-of-{t}.svg", 7, 100), "page-007-of-100.svg");
    assert_eq!(fill("{p}/{t}", 1, 1), "1/1");
}

#[test]
fn every_occurrence_is_replaced() {
    assert_eq!(fill("{p}-{p}-{n}-{0p}-{t}-{t}", 2, 10), "2-2-02-02-10-10");
}

#[test]
fn path_without_templates_is_unchanged() {
    assert_eq!(fill("out.pdf", 4, 9), "out.pdf");
    assert_eq!(fill("", 4, 9), "");
    assert_eq!(fill("{x}{0}p}", 4, 9), "{x}{0}p}");
}

#[test]
fn templates_are_filled_in_pass_by_pass() {
    // The `{p}` pass turns "{{p}p}" into "{0p}" for page 0, which the `{0p}`
    // pass then fills in again.
    assert_eq!(fill("{{p}p}", 0, 5), "0");
    assert_eq!(fill("{{p}p}", 1, 5), "{1p}");
}

#[test]
fn different_pages_get_different_paths() {
    let total = 120;
    let mut seen: Vec<String> = Vec::new();
    for page in 1..=total {
        let path = fill("{p}{n}", page, total);
        assert!(!seen.contains(&path));
        seen.push(path);
    }
}

#[test]
fn unicode_paths_are_kept() {
    assert_eq!(fill("ページ-{p}.png", 2, 3), "ページ-2.png");
}

#[test]
fn width_counts_decimal_digits() {
    assert_eq!(width(0), 1);
    assert_eq!(width(9), 1);
    assert_eq!(width(10), 2);
    assert_eq!(width(99), 2);
    assert_eq!(width(100), 3);
    assert_eq!(width(usize::MAX), usize::MAX.to_string().len());
}

#[test]
fn decimal_and_zero_padded_rendering() {
    assert_eq!(decimal_chars(0), vec!['0']);
    assert_eq!(decimal_chars(1205), vec!['1', '2', '0', '5']);
    assert_eq!(zero_padded(5, 3), vec!['0', '0', '5']);
    assert_eq!(zero_padded(12345, 3), vec!['1', '2', '3', '4', '5']);
    assert_eq!(zero_padded(0, 0), vec!['0']);
}
