use laserhelfer::rewriter::has_prefix;
use laserhelfer::rewriter::render;
use laserhelfer::rewriter::rewrite;
use laserhelfer::rewriter::rewrite_document;
use laserhelfer::rewriter::rewrite_gcode;

fn lines(xs: &[&str]) -> Vec<String> {
    xs.iter().map(|s| s.to_string()).collect()
}

#[test]
fn unmarked_line_passes_through() {
    let out = rewrite(&lines(&["G1 X10"]), "G0", "M5", "M3");
    assert_eq!(out, lines(&["G1 X10"]));
}

#[test]
fn marked_line_is_guarded() {
    let out = rewrite(&lines(&["G0 Y5"]), "G0", "M5", "M3");
    assert_eq!(out, lines(&["M5", "G0 Y5", "M3"]));
}

#[test]
fn original_lines_keep_their_order() {
    let input = lines(&["a", "G0 b", "c", "G0 d", "e"]);
    let out = rewrite(&input, "G0", "M5", "M3");
    let kept: Vec<&String> = out.iter().filter(|l| input.contains(l)).collect();
    assert_eq!(kept, input.iter().collect::<Vec<&String>>());
}

#[test]
fn length_grows_by_two_per_marked_line() {
    let input = lines(&["G0 a", "x", "G0 b", "y", "z", "G0 c"]);
    let out = rewrite(&input, "G0", "M5", "M3");
    let marked = input.iter().filter(|l| l.starts_with("G0")).count();
    assert_eq!(marked, 3);
    assert_eq!(out.len(), input.len() + 2 * marked);
}

#[test]
fn empty_input_gives_empty_output() {
    let out = rewrite(&lines(&[]), "G0", "M5", "M3");
    assert_eq!(out, lines(&[]));
}

#[test]
fn one_marked_among_unmarked() {
    let out = rewrite(&lines(&["G1 X10", "G0 Y5", "G1 X0"]), "G0", "M5", "M3");
    assert_eq!(out, lines(&["G1 X10", "M5", "G0 Y5", "M3", "G1 X0"]));
}

#[test]
fn prefix_match_is_not_token_match() {
    let out = rewrite(&lines(&["G0", "G0X"]), "G0", "M5", "M3");
    assert_eq!(out, lines(&["M5", "G0", "M3", "M5", "G0X", "M3"]));
}

#[test]
fn blank_line_passes_through() {
    let out = rewrite(&lines(&["G0 a", "", "b"]), "G0", "M5", "M3");
    assert_eq!(out, lines(&["M5", "G0 a", "M3", "", "b"]));
}

#[test]
fn batch_of_documents_each_obeys_length_law() {
    let documents = vec![
        lines(&["G0 start", "G1 X1", "G0 end"]),
        lines(&["no", "markers", "here"]),
        lines(&[]),
        lines(&["G0"]),
        lines(&["a", "G0 b"]),
    ];
    let outputs: Vec<Vec<String>> = documents.iter().map(rewrite_gcode).collect();
    assert_eq!(outputs.len(), documents.len());
    for (input, output) in documents.iter().zip(outputs.iter()) {
        let marked = input.iter().filter(|l| l.starts_with("G0")).count();
        assert_eq!(output.len(), input.len() + 2 * marked);
    }
}

#[test]
fn stock_configuration_matches_explicit_one() {
    let input = lines(&["G0 Y5", "G1 X0"]);
    assert_eq!(rewrite_gcode(&input), rewrite(&input, "G0", "M5", "M3"));
}

#[test]
fn custom_configuration_is_honoured() {
    let out = rewrite(&lines(&["X1", "Y1"]), "X", "A", "B");
    assert_eq!(out, lines(&["A", "X1", "B", "Y1"]));
}

#[test]
fn has_prefix_exact_and_longer() {
    assert!(has_prefix("G0", "G0"));
    assert!(has_prefix("G0 Y5", "G0"));
    assert!(has_prefix("G01", "G0"));
}

#[test]
fn has_prefix_rejects_mismatch() {
    assert!(!has_prefix("G1 X10", "G0"));
    assert!(!has_prefix("XG0", "G0"));
    assert!(!has_prefix("G", "G0"));
    assert!(!has_prefix("", "G0"));
}

#[test]
fn empty_prefix_matches_everything() {
    assert!(has_prefix("", ""));
    assert!(has_prefix("G0", ""));
}

#[test]
fn has_prefix_handles_multibyte_text() {
    assert!(has_prefix("Gänge 0", "Gä"));
    assert!(!has_prefix("Gänge 0", "Gö"));
}

#[test]
fn render_terminates_every_line() {
    assert_eq!(render(&lines(&["a", "b"])), "a\nb\n");
    assert_eq!(render(&lines(&[""])), "\n");
    assert_eq!(render(&lines(&[])), "");
}

#[test]
fn document_is_rewritten_end_to_end() {
    let out = rewrite_document(&lines(&["G1 X10", "G0 Y5", "G1 X0"]));
    assert_eq!(out, "G1 X10\nM5\nG0 Y5\nM3\nG1 X0\n");
}

#[test]
fn document_without_markers_is_only_reterminated() {
    let out = rewrite_document(&lines(&["G1 X10", "G1 X0"]));
    assert_eq!(out, "G1 X10\nG1 X0\n");
}
