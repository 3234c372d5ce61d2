use lazy::errors::{BaseError, ErrorLabel, ErrorLabelVariants, LoC, Range};
use lazy::report::{format_err, format_err_with, Painted};

fn plain() -> Painted {
    Painted {
        corner: String::from("┎──"),
        wall: String::from("┃"),
        eq: String::from("="),
        msg: String::from("Unknown thing"),
    }
}

fn range(l1: usize, c1: usize, l2: usize, c2: usize) -> Range {
    Range {
        start: LoC { line: l1, col: c1, pos: 0 },
        end: LoC { line: l2, col: c2, pos: 0 },
    }
}

#[test]
fn report_one_line() {
    let err = BaseError::new(String::from("Unknown thing"), range(2, 4, 2, 7));
    let s = format_err_with(&err, "main", "let a = 1;\nlet b = c;\n", &plain());
    assert_eq!(s, "  ┎── main (2:4 - 2:7): Unknown thing\n2 ┃   let b = c;\n");
}

#[test]
fn report_lines_labels_and_padding() {
    let labels = vec![ErrorLabel { msg: String::from("try this"), variant: ErrorLabelVariants::Help }];
    let err = BaseError::new_with_labels(String::from("Unknown thing"), range(9, 0, 10, 1), labels);
    let src = "1\n2\n3\n4\n5\n6\n7\n8\nnine\r\nten";
    let s = format_err_with(&err, "f", src, &plain());
    assert_eq!(
        s,
        "   ┎── f (9:0 - 10:1): Unknown thing\n9  ┃   nine\n10 ┃   ten\n    = try this\n"
    );
}

#[test]
fn report_skips_missing_lines() {
    let err = BaseError::new(String::from("Unknown thing"), range(0, 0, 3, 0));
    let s = format_err_with(&err, "m", "only", &plain());
    assert_eq!(s, "  ┎── m (0:0 - 3:0): Unknown thing\n1 ┃   only\n");
}

#[test]
fn report_painted_holds_the_parts() {
    let err = BaseError::new(String::from("Bad"), range(1, 0, 1, 2));
    let s = format_err(&err, "main", "ab\n");
    assert!(s.contains("main (1:0 - 1:2): "));
    assert!(s.contains("Bad"));
    assert!(s.contains("ab\n"));
    assert!(s.starts_with("  "));
}
