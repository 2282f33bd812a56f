use circuit::diagnostics::{Diagnostic, ModuleText};
use circuit::util::Pos;

const BOLD: &str = "\x1b[1m";
const UNBOLD: &str = "\x1b[39m\x1b[49m\x1b[22m";
const RED: &str = "\x1b[31m";
const UNCOLOUR: &str = "\x1b[39m\x1b[49m";
const LINE: &str = "\x1b[34m\x1b[1m";

fn error_label() -> String {
    format!("{BOLD}{RED}error{UNCOLOUR}{UNBOLD}")
}

#[test]
fn diagnostic_without_a_place_shows_only_its_heading() {
    let d = Diagnostic::error("boom".to_string(), Pos::Module(0));
    let modules = vec![ModuleText { path: "m.circ".to_string(), lines: vec![] }];
    assert_eq!(d.to_string(&modules), format!("{BOLD}m.circ\n{UNBOLD}  {}: boom\n", error_label()));
}

#[test]
fn diagnostic_shows_its_line_with_the_span_marked() {
    let d = Diagnostic::error("boom".to_string(), Pos::new(0, 0, 2, 2, 3));
    let modules = vec![ModuleText { path: "m.circ".to_string(), lines: vec!["a = bcd;".to_string()] }];
    let expected = format!(
        "{BOLD}m.circ:1:3 \n{UNBOLD}  {}: boom\n\
         {LINE}     |{UNBOLD}\n\
         {LINE}   1{UNBOLD} {LINE}|{UNBOLD} a {RED}= b{UNCOLOUR}cd;\n\
         {LINE}     |{UNBOLD}   {RED}~~~\x1b[39m\n",
        error_label()
    );
    assert_eq!(d.to_string(&modules), expected);
}

#[test]
fn gutter_grows_with_the_line_number() {
    let d = Diagnostic::error("x".to_string(), Pos::new(0, 12345, 0, 0, 1));
    let mut lines = vec![String::new(); 12345];
    lines.push("y".to_string());
    let modules = vec![ModuleText { path: "p".to_string(), lines }];
    let shown = d.to_string(&modules);
    assert!(shown.contains(&format!("{LINE}       |{UNBOLD}\n")));
    assert!(shown.contains(&format!("{LINE} 12346{UNBOLD}")));
}
