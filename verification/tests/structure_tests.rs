use typst_writer::math::structure::find_math_structure_ranges;
use typst_writer::syntax::Document;

#[test]
fn sqrt_argument_is_a_field() {
    let doc = Document::detached("$sqrt(2)$");
    assert_eq!(find_math_structure_ranges(&doc, 7), Some((1..8, 6..7)));
    assert_eq!(find_math_structure_ranges(&doc, 6), Some((1..8, 6..7)));
}

