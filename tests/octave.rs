use rustml::matrix::Matrix;
use rustml::octave::{builder, OctaveScriptBuilder};

fn mat23() -> Matrix {
    Matrix::from_rows(3, vec![vec![1, 2, 3], vec![4, 5, 6]]).unwrap()
}

#[test]
fn vector_literal_empty() {
    let b = builder();
    let v: [i64; 0] = [];
    assert_eq!(b.to_vec(&v), "[]");
}

#[test]
fn vector_literal_three() {
    assert_eq!(builder().to_vec(&[1, 2, 3]), "[1,2,3]");
}

#[test]
fn vector_literal_single() {
    assert_eq!(builder().to_vec(&[42]), "[42]");
}

#[test]
fn vector_literal_signs_and_extremes() {
    assert_eq!(
        builder().to_vec(&[-5, 0, 10, i64::MIN, i64::MAX]),
        "[-5,0,10,-9223372036854775808,9223372036854775807]"
    );
}

#[test]
fn join_without_brackets() {
    assert_eq!(builder().join(&[7, -8, 90]), "7,-8,90");
    let v: [i64; 0] = [];
    assert_eq!(builder().join(&v), "");
}

#[test]
fn empty_builder_renders_preamble() {
    assert_eq!(builder().to_string(), "1;\n");
}

#[test]
fn add_verbatim() {
    let s = builder().add("x = $1").add("disp(x)");
    assert_eq!(s.to_string(), "1;\nx = $1;\ndisp(x);\n");
}

#[test]
fn add_values_two() {
    let s = builder().add_values("x = $1 + $2", &[5, 3]);
    assert_eq!(s.to_string(), "1;\nx = 5 + 3;\n");
}

#[test]
fn add_vector_three() {
    let s = builder().add_vector("x = $$", &[1, 2, 3]);
    assert_eq!(s.to_string(), "1;\nx = [1,2,3];\n");
}

#[test]
fn add_vector_iter_three() {
    let v = vec![1, 2, 3];
    let s = builder().add_vector_iter("x = $$", v.iter().cloned().collect());
    assert_eq!(s.to_string(), "1;\nx = [1,2,3];\n");
}

#[test]
fn add_matrix_two_rows() {
    let s = builder().add_matrix("x = $$", &mat23());
    assert_eq!(s.to_string(), "1;\nx = [1,2,3;4,5,6];\n");
}

#[test]
fn add_matrix_without_rows() {
    let m = Matrix::from_rows(3, vec![]).unwrap();
    let s = builder().add_matrix("x = $$", &m);
    assert_eq!(s.to_string(), "1;\nx = [];\n");
}

#[test]
fn add_columns_two() {
    let s = builder().add_columns("x = $1; y = $2", &mat23());
    assert_eq!(s.to_string(), "1;\nx = [1,4]; y = [2,5];\n");
}

#[test]
fn add_columns_beyond_last_column() {
    let s = builder().add_columns("z = $4 + $3", &mat23());
    assert_eq!(s.to_string(), "1;\nz = $4 + [3,6];\n");
}

#[test]
fn render_twice_is_identical() {
    let b = builder().add_values("a = $1", &[1]).add_vector("b = $$", &[2, 3]);
    let first = b.to_string();
    let second = b.to_string();
    assert_eq!(first, second);
    assert_eq!(first, "1;\na = 1;\nb = [2,3];\n");
}

#[test]
fn adding_leaves_receiver_unchanged() {
    let b = builder().add("a = 1");
    let before = b.to_string();
    let b2 = b.add("b = 2");
    assert_eq!(b.to_string(), before);
    assert_eq!(b.to_string(), "1;\na = 1;\n");
    assert_eq!(b2.to_string(), "1;\na = 1;\nb = 2;\n");
}

#[test]
fn token_twelve_not_corrupted_by_one() {
    let vals: Vec<i64> = (1..=12).map(|i| i * 100).collect();
    let s = builder().add_values("a = $1; b = $12; c = $1$2", &vals);
    assert_eq!(s.to_string(), "1;\na = 100; b = 1200; c = 100200;\n");
}

#[test]
fn out_of_range_tokens_left_alone() {
    let s = builder().add_values("x = $3 + $0 + $123 + $1", &[5, 3]);
    assert_eq!(s.to_string(), "1;\nx = $3 + $0 + $123 + 5;\n");
}

#[test]
fn leading_zero_token_left_alone() {
    let s = builder().add_values("x = $01 + $1", &[9]);
    assert_eq!(s.to_string(), "1;\nx = $01 + 9;\n");
}

#[test]
fn values_are_not_rescanned() {
    let s = builder().add_values("x = $$1", &[-2]);
    assert_eq!(s.to_string(), "1;\nx = $-2;\n");
}

#[test]
fn bulk_tokens_do_not_overlap() {
    let s = builder().add_vector("$$$ $$$$ $", &[1]);
    assert_eq!(s.to_string(), "1;\n[1]$ [1][1] $;\n");
}

#[test]
fn template_without_tokens_unchanged() {
    let s = builder().add_vector("disp(1)", &[1]).add_values("disp(2)", &[3]);
    assert_eq!(s.to_string(), "1;\ndisp(1);\ndisp(2);\n");
}

#[test]
fn default_command_line() {
    assert_eq!(builder().command_line("script.m"), "octave script.m");
}

#[test]
fn interpreter_can_be_replaced() {
    let b: OctaveScriptBuilder = builder().add("x = 1");
    let c = b.octave_bin("/usr/bin/octave-cli");
    assert_eq!(c.command_line("/tmp/s.m"), "/usr/bin/octave-cli /tmp/s.m");
    assert_eq!(c.to_string(), b.to_string());
    assert_eq!(b.command_line("/tmp/s.m"), "octave /tmp/s.m");
}

#[test]
fn matrix_rows_must_match_columns() {
    assert!(Matrix::from_rows(2, vec![vec![1, 2], vec![3]]).is_none());
    let m = mat23();
    assert_eq!(m.rows(), 2);
    assert_eq!(m.cols(), 3);
    assert_eq!(m.get(1, 2), 6);
    assert_eq!(m.row(0), &[1, 2, 3]);
    assert_eq!(m.column(1), vec![2, 5]);
}

#[test]
fn add_columns_without_rows() {
    let m = Matrix::from_rows(2, vec![]).unwrap();
    let s = builder().add_columns("x = $1; y = $2", &m);
    assert_eq!(s.to_string(), "1;\nx = []; y = [];\n");
}
