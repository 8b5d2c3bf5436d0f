use fuzip::blueprint::{swap_placeholder, ExecBlueprint, TemplateError};
use fuzip::fuzip::{Fuzip, FuzipPath};

fn path(p: &str) -> FuzipPath {
    FuzipPath::new(p.to_string(), p.as_bytes().to_vec())
}

#[test]
fn placeholders_are_filled_in() {
    let a = path("left/a.txt");
    let b = path("right/b.txt");
    let record = Fuzip::new(vec![Some(&a), Some(&b)]);
    let bp = ExecBlueprint::from_invocation("diff -u {1} '{2}' \"x y\"").unwrap();
    assert_eq!(
        bp.command_line(&record).unwrap(),
        vec!["diff", "-u", "left/a.txt", "right/b.txt", "x y"]
    );
}

#[test]
fn empty_slot_gives_empty_word() {
    let a = path("left/a.txt");
    let record: Fuzip<&FuzipPath> = Fuzip::new(vec![Some(&a), None]);
    assert_eq!(swap_placeholder("{2}", &record), Ok(String::new()));
    assert_eq!(swap_placeholder("{1}", &record), Ok("left/a.txt".to_string()));
}

#[test]
fn placeholder_errors() {
    let a = path("a");
    let record = Fuzip::new(vec![Some(&a), Some(&a)]);
    assert_eq!(swap_placeholder("{0}", &record), Err(TemplateError::ZeroIndex));
    assert_eq!(
        swap_placeholder("{3}", &record),
        Err(TemplateError::OutOfBounds { index: 2, width: 2 })
    );
    assert_eq!(
        swap_placeholder("{99999999999999999999999999}", &record),
        Err(TemplateError::IndexTooLarge)
    );
    let bp = ExecBlueprint::new("echo".to_string(), vec!["{1}".to_string(), "{0}".to_string(), "{9}".to_string()]);
    assert_eq!(bp.command_line(&record), Err(TemplateError::ZeroIndex));
}

#[test]
fn other_words_stay() {
    let a = path("a");
    let record = Fuzip::new(vec![Some(&a), Some(&a)]);
    for w in ["{}", "{a}", "{ 1}", "x{1}", "{1}x", "{1", "1}", "", "{١}"] {
        assert_eq!(swap_placeholder(w, &record), Ok(w.to_string()));
    }
    assert_eq!(swap_placeholder("{01}", &record), Ok("a".to_string()));
}

#[test]
fn blank_invocation_has_no_blueprint() {
    assert!(ExecBlueprint::from_invocation("   ").is_none());
    assert!(ExecBlueprint::from_invocation("").is_none());
    let bp = ExecBlueprint::from_invocation("true").unwrap();
    let record: Fuzip<&FuzipPath> = Fuzip::new(vec![None, None]);
    assert_eq!(bp.command_line(&record).unwrap(), vec!["true"]);
}
